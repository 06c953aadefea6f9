//! Character-sequence utilities: substring search, delimiter splitting,
//! joining, prefix tests and decimal parsing, each verified against a
//! spec-level definition over `Seq<char>`.
use vstd::prelude::*;

verus! {

/// Relies on std's String::push: appends the given character to the end of
/// the string.
pub assume_specification[ String::push ](s: &mut String, ch: char)
    ensures
        final(s)@ == old(s)@.push(ch),
;

/// Relies on std's String::pop: removes the last character and returns it,
/// or returns None if the string is empty.
pub assume_specification[ String::pop ](s: &mut String) -> (r: Option<char>)
    ensures
        old(s)@.len() == 0 ==> final(s)@ == old(s)@ && r is None,
        old(s)@.len() > 0 ==> final(s)@ == old(s)@.drop_last() && r == Some(old(s)@.last()),
;

/// The views of a sequence of strings.
pub open spec fn string_views(s: Seq<String>) -> Seq<Seq<char>> {
    s.map_values(|x: String| x@)
}

/// `needle` occurs in `hay` starting at position `i`.
pub open spec fn contains_at(hay: Seq<char>, i: int, needle: Seq<char>) -> bool {
    &&& 0 <= i
    &&& i + needle.len() <= hay.len()
    &&& hay.subrange(i, i + needle.len() as int) == needle
}

/// `needle` occurs somewhere in `hay` (literal, case-sensitive containment).
pub open spec fn spec_contains(hay: Seq<char>, needle: Seq<char>) -> bool {
    exists|i: int| contains_at(hay, i, needle)
}

/// Position of the first occurrence of `needle` in `hay`, or -1 if none.
pub open spec fn spec_find(hay: Seq<char>, needle: Seq<char>) -> int
    decreases hay.len(),
{
    if contains_at(hay, 0, needle) {
        0
    } else if hay.len() == 0 {
        -1
    } else {
        let r = spec_find(hay.drop_first(), needle);
        if r < 0 {
            -1
        } else {
            r + 1
        }
    }
}

/// Occurrences in a suffix of `hay` are occurrences in `hay`, shifted.
pub proof fn lemma_contains_shift(hay: Seq<char>, needle: Seq<char>, off: int, j: int)
    requires
        0 <= off <= hay.len(),
        0 <= j,
    ensures
        contains_at(hay.subrange(off, hay.len() as int), j, needle) == contains_at(
            hay,
            off + j,
            needle,
        ),
{
    let rest = hay.subrange(off, hay.len() as int);
    if j + needle.len() <= rest.len() {
        assert(rest.subrange(j, j + needle.len() as int) =~= hay.subrange(
            off + j,
            off + j + needle.len() as int,
        ));
    }
}

/// `spec_find` returns the first occurrence when one exists, and -1 exactly
/// when there is none.
pub proof fn lemma_find_props(hay: Seq<char>, needle: Seq<char>)
    ensures
        spec_find(hay, needle) >= 0 ==> contains_at(hay, spec_find(hay, needle), needle) && (
        forall|j: int| 0 <= j < spec_find(hay, needle) ==> !contains_at(hay, j, needle)),
        spec_find(hay, needle) < 0 ==> forall|j: int| !contains_at(hay, j, needle),
    decreases hay.len(),
{
    if contains_at(hay, 0, needle) {
    } else if hay.len() == 0 {
        assert forall|j: int| !contains_at(hay, j, needle) by {
            if 0 <= j && j + needle.len() <= hay.len() {
                assert(j == 0 && needle.len() == 0);
            }
        }
    } else {
        let tail = hay.drop_first();
        lemma_find_props(tail, needle);
        assert forall|j: int| 0 <= j implies contains_at(tail, j, needle) == contains_at(
            hay,
            j + 1,
            needle,
        ) by {
            assert(tail =~= hay.subrange(1, hay.len() as int));
            lemma_contains_shift(hay, needle, 1, j);
        }
        let r = spec_find(tail, needle);
        if r >= 0 {
            assert(contains_at(hay, r + 1, needle));
            assert forall|j: int| 0 <= j < r + 1 implies !contains_at(hay, j, needle) by {
                if j >= 1 {
                    assert(!contains_at(tail, j - 1, needle));
                }
            }
        } else {
            assert forall|j: int| !contains_at(hay, j, needle) by {
                if j >= 1 {
                    assert(!contains_at(tail, j - 1, needle));
                }
            }
        }
    }
}

/// If `needle` occurs at `k` and nowhere earlier, then `spec_find` is `k`.
pub proof fn lemma_find_is_at(hay: Seq<char>, needle: Seq<char>, k: int)
    requires
        contains_at(hay, k, needle),
        forall|j: int| 0 <= j < k ==> !contains_at(hay, j, needle),
    ensures
        spec_find(hay, needle) == k,
{
    lemma_find_props(hay, needle);
}

/// If `needle` occurs nowhere in `hay`, `spec_find` is negative.
pub proof fn lemma_find_none(hay: Seq<char>, needle: Seq<char>)
    requires
        forall|j: int| !contains_at(hay, j, needle),
    ensures
        spec_find(hay, needle) < 0,
{
    lemma_find_props(hay, needle);
}

/// The fields obtained by splitting `text` on each leftmost occurrence of the
/// (non-empty) delimiter, as `str::split` does.
pub open spec fn spec_split(text: Seq<char>, delim: Seq<char>) -> Seq<Seq<char>>
    decreases text.len(),
{
    if delim.len() == 0 {
        seq![text]
    } else {
        let i = spec_find(text, delim);
        if 0 <= i && i + delim.len() <= text.len() {
            seq![text.subrange(0, i)] + spec_split(
                text.subrange(i + delim.len(), text.len() as int),
                delim,
            )
        } else {
            seq![text]
        }
    }
}

/// The fields interleaved with the delimiter, as `[String]::join` builds it.
pub open spec fn spec_join(fields: Seq<Seq<char>>, delim: Seq<char>) -> Seq<char>
    decreases fields.len(),
{
    if fields.len() == 0 {
        Seq::empty()
    } else if fields.len() == 1 {
        fields[0]
    } else {
        fields[0] + delim + spec_join(fields.drop_first(), delim)
    }
}

/// Appending one more field extends the join by a delimiter and that field.
pub proof fn lemma_join_push(fields: Seq<Seq<char>>, delim: Seq<char>, x: Seq<char>)
    ensures
        spec_join(fields.push(x), delim) == if fields.len() == 0 {
            x
        } else {
            spec_join(fields, delim) + delim + x
        },
    decreases fields.len(),
{
    if fields.len() == 0 {
        assert(fields.push(x).len() == 1);
        assert(spec_join(fields.push(x), delim) == fields.push(x)[0]);
    } else {
        lemma_join_push(fields.drop_first(), delim, x);
        assert(fields.push(x).drop_first() =~= fields.drop_first().push(x));
        if fields.len() == 1 {
            assert(fields.drop_first().len() == 0);
            assert(spec_join(fields, delim) == fields[0]);
        }
    }
}

/// All characters of `s`, in order.
pub fn chars_of(s: &str) -> (r: Vec<char>)
    ensures
        r@ == s@,
{
    let n = s.unicode_len();
    let mut r: Vec<char> = Vec::new();
    let mut i: usize = 0;
    while i < n
        invariant
            i <= n,
            n == s@.len(),
            r@ == s@.subrange(0, i as int),
        decreases n - i,
    {
        let c = s.get_char(i);
        r.push(c);
        proof {
            assert(s@.subrange(0, (i + 1) as int) =~= s@.subrange(0, i as int).push(
                s@[i as int],
            ));
        }
        i += 1;
    }
    proof {
        assert(s@.subrange(0, n as int) =~= s@);
    }
    r
}

/// Does `needle` occur in `hay` at exactly position `i`?
pub fn match_at(hay: &Vec<char>, needle: &Vec<char>, i: usize) -> (r: bool)
    requires
        i <= hay.len(),
    ensures
        r == contains_at(hay@, i as int, needle@),
{
    if needle.len() > hay.len() - i {
        return false;
    }
    let mut j: usize = 0;
    while j < needle.len()
        invariant
            i + needle.len() <= hay.len(),
            j <= needle.len(),
            forall|k: int| 0 <= k < j ==> hay@[i + k] == needle@[k],
        decreases needle.len() - j,
    {
        if hay[i + j] != needle[j] {
            proof {
                let sub = hay@.subrange(i as int, i + needle@.len() as int);
                assert(sub[j as int] != needle@[j as int]);
            }
            return false;
        }
        j += 1;
    }
    proof {
        assert(hay@.subrange(i as int, i + needle@.len() as int) =~= needle@);
    }
    true
}

/// Literal, case-sensitive substring containment.
pub fn str_contains(hay: &str, needle: &str) -> (r: bool)
    ensures
        r == spec_contains(hay@, needle@),
{
    let h = chars_of(hay);
    let nd = chars_of(needle);
    if nd.len() > h.len() {
        proof {
            assert forall|i: int| !contains_at(hay@, i, needle@) by {}
        }
        return false;
    }
    let bound = h.len() - nd.len();
    let mut i: usize = 0;
    loop
        invariant
            nd.len() <= h.len(),
            bound == h.len() - nd.len(),
            i <= bound,
            h@ == hay@,
            nd@ == needle@,
            forall|j: int| 0 <= j < i ==> !contains_at(hay@, j, needle@),
        decreases bound - i,
    {
        if match_at(&h, &nd, i) {
            proof {
                assert(contains_at(hay@, i as int, needle@));
            }
            return true;
        }
        if i == bound {
            proof {
                assert forall|j: int| !contains_at(hay@, j, needle@) by {
                    if 0 <= j && j + needle@.len() <= hay@.len() {
                        assert(j <= bound);
                    }
                }
            }
            return false;
        }
        i += 1;
    }
}

/// Position of the first occurrence of `needle` in `hay`, if any.
pub fn find_sub(hay: &Vec<char>, needle: &Vec<char>) -> (r: Option<usize>)
    ensures
        match r {
            Some(k) => k == spec_find(hay@, needle@) && contains_at(hay@, k as int, needle@),
            None => spec_find(hay@, needle@) < 0,
        },
{
    if needle.len() > hay.len() {
        proof {
            assert forall|i: int| !contains_at(hay@, i, needle@) by {}
            lemma_find_none(hay@, needle@);
        }
        return None;
    }
    let bound = hay.len() - needle.len();
    let mut i: usize = 0;
    loop
        invariant
            needle.len() <= hay.len(),
            bound == hay.len() - needle.len(),
            i <= bound,
            forall|j: int| 0 <= j < i ==> !contains_at(hay@, j, needle@),
        decreases bound - i,
    {
        if match_at(hay, needle, i) {
            proof {
                lemma_find_is_at(hay@, needle@, i as int);
            }
            return Some(i);
        }
        if i == bound {
            proof {
                assert forall|j: int| !contains_at(hay@, j, needle@) by {
                    if 0 <= j && j + needle@.len() <= hay@.len() {
                        assert(j <= bound);
                    }
                }
                lemma_find_none(hay@, needle@);
            }
            return None;
        }
        i += 1;
    }
}

/// Split `text` on each leftmost occurrence of the non-empty delimiter,
/// appending the fields to `parts`.
pub fn split_into(text: &str, tc: &Vec<char>, dc: &Vec<char>, start: usize, parts: &mut Vec<String>)
    requires
        tc@ == text@,
        dc@.len() > 0,
        start <= tc.len(),
    ensures
        string_views(final(parts)@) == string_views(old(parts)@) + spec_split(
            text@.subrange(start as int, text@.len() as int),
            dc@,
        ),
    decreases tc.len() - start,
{
    let ghost rest = text@.subrange(start as int, text@.len() as int);
    let n = tc.len();
    let mut j = start;
    loop
        invariant
            start <= j <= n,
            n == tc.len(),
            tc@ == text@,
            dc@.len() > 0,
            parts@ == old(parts)@,
            forall|k: int| 0 <= k < j - start ==> !contains_at(rest, k, dc@),
            rest == text@.subrange(start as int, text@.len() as int),
        decreases n - j,
    {
        if j >= n || n - j < dc.len() {
            // no occurrence from start on: the rest is one final field
            proof {
                assert forall|k: int| !contains_at(rest, k, dc@) by {
                    if 0 <= k && k + dc@.len() <= rest.len() {
                        assert(k < j - start);
                    }
                }
                lemma_find_none(rest, dc@);
                assert(spec_split(rest, dc@) =~= seq![rest]);
            }
            let piece = text.substring_char(start, n).to_owned();
            let ghost old_parts = parts@;
            parts.push(piece);
            proof {
                assert(string_views(parts@) =~= string_views(old_parts) + seq![rest]);
            }
            return ;
        }
        if match_at(tc, dc, j) {
            proof {
                lemma_contains_shift(text@, dc@, start as int, j - start);
                assert(contains_at(rest, j - start, dc@));
                lemma_find_is_at(rest, dc@, j - start);
            }
            let piece = text.substring_char(start, j).to_owned();
            let ghost old_parts = parts@;
            parts.push(piece);
            let next = j + dc.len();
            proof {
                assert(rest.subrange(0, j - start) =~= text@.subrange(start as int, j as int));
                assert(rest.subrange(j - start + dc@.len() as int, rest.len() as int)
                    =~= text@.subrange(next as int, text@.len() as int));
                assert(spec_split(rest, dc@) == seq![rest.subrange(0, j - start)] + spec_split(
                    rest.subrange(j - start + dc@.len() as int, rest.len() as int),
                    dc@,
                ));
                assert(string_views(parts@) =~= string_views(old_parts) + seq![
                    text@.subrange(start as int, j as int),
                ]);
            }
            split_into(text, tc, dc, next, parts);
            proof {
                assert(string_views(parts@) =~= string_views(old_parts) + spec_split(rest, dc@));
            }
            return ;
        }
        proof {
            lemma_contains_shift(text@, dc@, start as int, j - start);
        }
        j += 1;
    }
}

/// Split `text` on each leftmost occurrence of the non-empty delimiter.
pub fn split_str(text: &str, delim: &str) -> (r: Vec<String>)
    requires
        delim@.len() > 0,
    ensures
        string_views(r@) == spec_split(text@, delim@),
{
    let tc = chars_of(text);
    let dc = chars_of(delim);
    let mut parts: Vec<String> = Vec::new();
    split_into(text, &tc, &dc, 0, &mut parts);
    proof {
        assert(text@.subrange(0, text@.len() as int) =~= text@);
        assert(string_views(parts@) =~= spec_split(text@, delim@));
    }
    parts
}

/// Join `fields` with `delim` between consecutive fields.
pub fn join_fields(fields: &Vec<String>, delim: &str) -> (r: String)
    ensures
        r@ == spec_join(string_views(fields@), delim@),
{
    let ghost views = string_views(fields@);
    let mut acc = String::new();
    if fields.len() == 0 {
        return acc;
    }
    acc.append(fields[0].as_str());
    let mut k: usize = 1;
    while k < fields.len()
        invariant
            1 <= k <= fields.len(),
            views == string_views(fields@),
            views.len() == fields@.len(),
            acc@ == spec_join(views.subrange(0, k as int), delim@),
        decreases fields.len() - k,
    {
        acc.append(delim);
        acc.append(fields[k].as_str());
        proof {
            let prefix = views.subrange(0, k as int);
            lemma_join_push(prefix, delim@, views[k as int]);
            assert(views.subrange(0, k + 1) =~= prefix.push(views[k as int]));
        }
        k += 1;
    }
    proof {
        assert(views.subrange(0, fields@.len() as int) =~= views);
    }
    acc
}

/// Is `p` a prefix of `s`?
pub fn str_is_prefix(p: &str, s: &str) -> (r: bool)
    ensures
        r == p@.is_prefix_of(s@),
{
    let pc = chars_of(p);
    let sc = chars_of(s);
    if pc.len() > sc.len() {
        return false;
    }
    let mut i: usize = 0;
    while i < pc.len()
        invariant
            pc.len() <= sc.len(),
            i <= pc.len(),
            pc@ == p@,
            sc@ == s@,
            forall|k: int| 0 <= k < i ==> p@[k] == s@[k],
        decreases pc.len() - i,
    {
        if pc[i] != sc[i] {
            proof {
                assert(s@.subrange(0, p@.len() as int)[i as int] != p@[i as int]);
            }
            return false;
        }
        i += 1;
    }
    proof {
        assert(p@ =~= s@.subrange(0, p@.len() as int));
    }
    true
}

/// Decimal digit.
pub open spec fn is_digit(c: char) -> bool {
    48 <= c as u32 <= 57
}

/// Numeric value of a decimal digit.
pub open spec fn digit_val(c: char) -> nat {
    (c as u32 - 48) as nat
}

/// Every character is a decimal digit.
pub open spec fn all_digits(s: Seq<char>) -> bool {
    forall|i: int| 0 <= i < s.len() ==> is_digit(#[trigger] s[i])
}

/// The number that a sequence of decimal digits denotes, most significant
/// digit first.
pub open spec fn digits_val(s: Seq<char>) -> nat
    decreases s.len(),
{
    if s.len() == 0 {
        0
    } else {
        digits_val(s.drop_last()) * 10 + digit_val(s.last())
    }
}

/// Parse a non-empty, all-digit sequence as a `usize`; `None` on anything
/// else, including values over `usize::MAX`.
pub fn parse_usize(s: &Vec<char>) -> (r: Option<usize>)
    ensures
        r is Some <==> s@.len() > 0 && all_digits(s@) && digits_val(s@) <= usize::MAX,
        r is Some ==> r->0 == digits_val(s@),
{
    if s.len() == 0 {
        return None;
    }
    let mut acc: usize = 0;
    let mut i: usize = 0;
    while i < s.len()
        invariant
            i <= s.len(),
            s@.len() > 0,
            all_digits(s@.subrange(0, i as int)),
            acc == digits_val(s@.subrange(0, i as int)),
        decreases s.len() - i,
    {
        let c = s[i];
        let cv = c as u32;
        if cv < 48 || cv > 57 {
            proof {
                assert(!is_digit(s@[i as int]));
            }
            return None;
        }
        let d = (cv - 48) as usize;
        let step = match acc.checked_mul(10) {
            Some(m) => m.checked_add(d),
            None => None,
        };
        proof {
            assert(s@.subrange(0, (i + 1) as int).drop_last() =~= s@.subrange(0, i as int));
            assert(s@.subrange(0, (i + 1) as int).last() == s@[i as int]);
        }
        match step {
            Some(v) => {
                acc = v;
            },
            None => {
                // the prefix already exceeds usize::MAX, so the whole number does
                proof {
                    lemma_digits_val_prefix_le(s@, (i + 1) as int);
                }
                return None;
            },
        }
        i += 1;
    }
    proof {
        assert(s@.subrange(0, s@.len() as int) =~= s@);
    }
    Some(acc)
}

/// Mapping views distributes over concatenation.
pub proof fn lemma_string_views_concat(a: Seq<String>, b: Seq<String>)
    ensures
        string_views(a + b) == string_views(a) + string_views(b),
{
    assert(string_views(a + b) =~~= string_views(a) + string_views(b));
}

/// Copy of the characters of `v` in positions `a..b`.
pub fn subvec(v: &Vec<char>, a: usize, b: usize) -> (r: Vec<char>)
    requires
        a <= b <= v.len(),
    ensures
        r@ == v@.subrange(a as int, b as int),
{
    let mut r: Vec<char> = Vec::new();
    let mut i = a;
    while i < b
        invariant
            a <= i <= b <= v.len(),
            r@ == v@.subrange(a as int, i as int),
        decreases b - i,
    {
        r.push(v[i]);
        proof {
            assert(v@.subrange(a as int, (i + 1) as int) =~= v@.subrange(a as int, i as int).push(
                v@[i as int],
            ));
        }
        i += 1;
    }
    r
}

/// A digit prefix never denotes more than the whole sequence.
proof fn lemma_digits_val_prefix_le(s: Seq<char>, k: int)
    requires
        0 <= k <= s.len(),
    ensures
        digits_val(s.subrange(0, k)) <= digits_val(s),
    decreases s.len() - k,
{
    if k < s.len() {
        lemma_digits_val_prefix_le(s, k + 1);
        let a = s.subrange(0, k);
        let b = s.subrange(0, k + 1);
        assert(b.drop_last() =~= a);
        assert(digits_val(b) == digits_val(a) * 10 + digit_val(b.last()));
        assert(digits_val(a) <= digits_val(a) * 10) by (nonlinear_arith);
    } else {
        assert(s.subrange(0, k) =~= s);
    }
}

} // verus!
