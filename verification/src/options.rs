//! Configuration surface of the picker: column ranges, page size, and the
//! well-formedness conditions the engine relies on, together with the
//! verified parsers for the textual forms.
use crate::text::{
    all_digits, chars_of, contains_at, digits_val, find_sub, parse_usize, spec_contains, spec_find,
    spec_split, string_views, split_str, subvec,
};
use vstd::prelude::*;

verus! {

/// A set of column positions: either an explicit list (`Closed`) or an
/// explicit list plus every column after the largest listed one (`Open`).
#[derive(Clone)]
pub enum ColumnRange {
    Closed(Vec<usize>),
    Open(Vec<usize>),
}

/// A page size given as a number, or resolved later from the terminal height.
#[derive(Clone)]
pub enum PageSizeOption {
    Auto,
    Value(usize),
}

/// Everything the engine is configured with.
#[derive(Clone)]
pub struct Options {
    pub page_size: PageSizeOption,
    pub hint_alphabet: String,
    pub delimiter: Option<String>,
    pub display_columns: Option<ColumnRange>,
    pub output_columns: Option<ColumnRange>,
    pub selection_column: Option<usize>,
    pub selection_regex: Option<String>,
}

/// The options the engine accepts: a hint alphabet of at least two distinct
/// symbols, and a non-empty delimiter when one is configured.
pub open spec fn opts_wf(o: Options) -> bool {
    &&& o.hint_alphabet@.len() >= 2
    &&& (forall|i: int, j: int|
        0 <= i < j < o.hint_alphabet@.len() ==> o.hint_alphabet@[i] != o.hint_alphabet@[j])
    &&& match o.delimiter {
        Some(d) => d@.len() > 0,
        None => true,
    }
}

/// The comma that separates column-range segments.
pub open spec fn comma() -> Seq<char> {
    seq![',']
}

/// The two dots that separate the ends of a column-range segment.
pub open spec fn dots() -> Seq<char> {
    seq!['.', '.']
}

/// Position of the first ".." in a segment.
pub open spec fn seg_dots_pos(seg: Seq<char>) -> int {
    spec_find(seg, dots())
}

/// The part of a segment before its first "..".
pub open spec fn seg_left(seg: Seq<char>) -> Seq<char> {
    seg.subrange(0, seg_dots_pos(seg))
}

/// The part of a segment after its first "..".
pub open spec fn seg_right(seg: Seq<char>) -> Seq<char> {
    seg.subrange(seg_dots_pos(seg) + 2, seg.len() as int)
}

/// A plain number segment, in range of `usize`.
pub open spec fn seg_single_ok(seg: Seq<char>) -> bool {
    seg.len() > 0 && all_digits(seg) && digits_val(seg) <= usize::MAX
}

/// The left end of a ".." segment is valid: empty (meaning 0) or a number.
pub open spec fn seg_start_ok(seg: Seq<char>) -> bool {
    seg_left(seg).len() == 0 || (all_digits(seg_left(seg)) && digits_val(seg_left(seg))
        <= usize::MAX)
}

/// The start position a ".." segment denotes.
pub open spec fn seg_start_val(seg: Seq<char>) -> nat {
    if seg_left(seg).len() == 0 {
        0
    } else {
        digits_val(seg_left(seg))
    }
}

/// A segment of the open form "start..": everything from `start` on.
pub open spec fn seg_open_ok(seg: Seq<char>) -> bool {
    spec_contains(seg, dots()) && seg_right(seg).len() == 0 && seg_start_ok(seg)
}

/// A bounded ".." segment, exclusive ("a..b") or inclusive ("a..=b").
pub open spec fn seg_range_ok(seg: Seq<char>) -> bool {
    spec_contains(seg, dots()) && seg_start_ok(seg) && seg_right(seg).len() > 0 && {
        let r = seg_right(seg);
        if r[0] == '=' {
            r.len() > 1 && all_digits(r.subrange(1, r.len() as int)) && digits_val(
                r.subrange(1, r.len() as int),
            ) + 1 <= usize::MAX
        } else {
            all_digits(r) && digits_val(r) <= usize::MAX
        }
    }
}

/// The exclusive end position a bounded ".." segment denotes.
pub open spec fn seg_end_excl(seg: Seq<char>) -> int {
    let r = seg_right(seg);
    if r[0] == '=' {
        digits_val(r.subrange(1, r.len() as int)) + 1int
    } else {
        digits_val(r) as int
    }
}

/// The positions `a`, `a + 1`, ..., `b - 1`, in order.
pub open spec fn range_seq(a: int, b: int) -> Seq<usize> {
    Seq::new(if b > a { (b - a) as nat } else { 0 }, |k: int| (a + k) as usize)
}

/// Parse the remaining segments onto the positions gathered so far. The
/// boolean of the result records whether the range is open-ended; `None`
/// means the text is malformed. An open segment ends the parse: anything
/// written after it is ignored.
pub open spec fn spec_parse_segs(segs: Seq<Seq<char>>, acc: Seq<usize>) -> Option<(bool, Seq<usize>)>
    decreases segs.len(),
{
    if segs.len() == 0 {
        Some((false, acc))
    } else {
        let seg = segs.first();
        if spec_contains(seg, dots()) {
            if seg_open_ok(seg) {
                Some((true, acc.push(seg_start_val(seg) as usize)))
            } else if seg_range_ok(seg) {
                spec_parse_segs(
                    segs.drop_first(),
                    acc + range_seq(seg_start_val(seg) as int, seg_end_excl(seg)),
                )
            } else {
                None
            }
        } else if seg_single_ok(seg) {
            spec_parse_segs(segs.drop_first(), acc.push(digits_val(seg) as usize))
        } else {
            None
        }
    }
}

/// Parse a comma-separated column-range list.
pub open spec fn spec_parse_columns(text: Seq<char>) -> Option<(bool, Seq<usize>)> {
    spec_parse_segs(spec_split(text, comma()), Seq::empty())
}

/// Append `start`, `start + 1`, ..., `end_excl - 1` to `cols`.
fn push_range(cols: &mut Vec<usize>, start: usize, end_excl: usize)
    ensures
        final(cols)@ == old(cols)@ + range_seq(start as int, end_excl as int),
{
    let mut c = start;
    if end_excl <= start {
        proof {
            assert(cols@ =~= cols@ + range_seq(start as int, end_excl as int));
        }
        return ;
    }
    while c < end_excl
        invariant
            start <= c <= end_excl,
            cols@ == old(cols)@ + range_seq(start as int, c as int),
        decreases end_excl - c,
    {
        cols.push(c);
        proof {
            assert(range_seq(start as int, (c + 1) as int) =~= range_seq(
                start as int,
                c as int,
            ).push(c));
            assert(cols@ =~= old(cols)@ + range_seq(start as int, (c + 1) as int));
        }
        c += 1;
    }
}

impl Options {
    /// Parse a column-range list such as "1,3..5,7..=9" or "2..". `None`
    /// exactly when the text is malformed or a position overflows `usize`.
    pub fn parse_column_ranges(columns_list: &String) -> (r: Option<ColumnRange>)
        ensures
            match r {
                Some(ColumnRange::Open(v)) => spec_parse_columns(columns_list@) == Some(
                    (true, v@),
                ),
                Some(ColumnRange::Closed(v)) => spec_parse_columns(columns_list@) == Some(
                    (false, v@),
                ),
                None => spec_parse_columns(columns_list@) is None,
            },
    {
        proof {
            reveal_strlit(",");
            assert(","@ =~= comma());
        }
        let segs: Vec<String> = split_str(columns_list.as_str(), ",");
        let ghost seg_views = string_views(segs@);
        let mut cols: Vec<usize> = Vec::new();
        let mut idx: usize = 0;
        proof {
            assert(seg_views.subrange(0, seg_views.len() as int) =~= seg_views);
            assert(seg_views.skip(0) =~= seg_views);
        }
        while idx < segs.len()
            invariant
                idx <= segs.len(),
                seg_views == string_views(segs@),
                seg_views.len() == segs@.len(),
                spec_parse_columns(columns_list@) == spec_parse_segs(
                    seg_views.skip(idx as int),
                    cols@,
                ),
            decreases segs.len() - idx,
        {
            let ghost rest = seg_views.skip(idx as int);
            proof {
                assert(rest.len() > 0);
                assert(rest.first() == seg_views[idx as int]);
                assert(rest.drop_first() =~= seg_views.skip(idx as int + 1));
            }
            let seg = chars_of(segs[idx].as_str());
            let mut dotsv: Vec<char> = Vec::new();
            dotsv.push('.');
            dotsv.push('.');
            proof {
                assert(dotsv@ =~= dots());
            }
            match find_sub(&seg, &dotsv) {
                Some(p) => {
                    proof {
                        assert(contains_at(seg@, p as int, dots()));
                        assert(spec_contains(seg@, dots()));
                        assert(seg_dots_pos(seg@) == p);
                        assert(p + 2 <= seg.len());
                    }
                    // the optional start position before ".."
                    let start: usize;
                    if p == 0 {
                        start = 0;
                        proof {
                            assert(seg_left(seg@) =~= Seq::<char>::empty());
                            assert(seg_start_ok(seg@));
                        }
                    } else {
                        let left = subvec(&seg, 0, p);
                        match parse_usize(&left) {
                            Some(v) => {
                                start = v;
                            },
                            None => {
                                proof {
                                    assert(seg_left(seg@) == left@);
                                    assert(!seg_start_ok(seg@));
                                    assert(!seg_open_ok(seg@));
                                    assert(!seg_range_ok(seg@));
                                }
                                return None;
                            },
                        }
                        proof {
                            assert(seg_left(seg@) == left@);
                            assert(seg_start_ok(seg@));
                            assert(seg_start_val(seg@) == start);
                        }
                    }
                    if p + 2 == seg.len() {
                        // open-ended range: everything from start on
                        proof {
                            assert(seg_right(seg@) =~= Seq::<char>::empty());
                            assert(seg_open_ok(seg@));
                        }
                        cols.push(start);
                        return Some(ColumnRange::Open(cols));
                    }
                    let right = subvec(&seg, p + 2, seg.len());
                    proof {
                        assert(seg_right(seg@) == right@);
                        assert(right@.len() > 0);
                    }
                    let end_excl: usize;
                    if right[0] == '=' {
                        let digits = subvec(&right, 1, right.len());
                        proof {
                            assert(digits@ == seg_right(seg@).subrange(
                                1,
                                seg_right(seg@).len() as int,
                            ));
                        }
                        match parse_usize(&digits) {
                            Some(v) => {
                                match v.checked_add(1) {
                                    Some(e) => {
                                        end_excl = e;
                                    },
                                    None => {
                                        proof {
                                            assert(!seg_open_ok(seg@));
                                            assert(!seg_range_ok(seg@));
                                        }
                                        return None;
                                    },
                                }
                            },
                            None => {
                                proof {
                                    assert(!seg_open_ok(seg@));
                                    assert(!seg_range_ok(seg@));
                                }
                                return None;
                            },
                        }
                    } else {
                        match parse_usize(&right) {
                            Some(v) => {
                                end_excl = v;
                            },
                            None => {
                                proof {
                                    assert(!seg_open_ok(seg@));
                                    assert(!seg_range_ok(seg@));
                                }
                                return None;
                            },
                        }
                    }
                    proof {
                        assert(seg_range_ok(seg@));
                        assert(seg_end_excl(seg@) == end_excl);
                    }
                    push_range(&mut cols, start, end_excl);
                },
                None => {
                    proof {
                        crate::text::lemma_find_props(seg@, dots());
                        assert(!spec_contains(seg@, dots()));
                    }
                    match parse_usize(&seg) {
                        Some(v) => {
                            cols.push(v);
                        },
                        None => {
                            proof {
                                assert(!seg_single_ok(seg@));
                            }
                            return None;
                        },
                    }
                },
            }
            idx += 1;
        }
        proof {
            assert(seg_views.skip(idx as int).len() == 0);
        }
        Some(ColumnRange::Closed(cols))
    }
}

/// Does `s` spell "auto", in any mix of ASCII case?
pub open spec fn is_auto_word(s: Seq<char>) -> bool {
    &&& s.len() == 4
    &&& (s[0] == 'a' || s[0] == 'A')
    &&& (s[1] == 'u' || s[1] == 'U')
    &&& (s[2] == 't' || s[2] == 'T')
    &&& (s[3] == 'o' || s[3] == 'O')
}

impl PageSizeOption {
    /// Parse "auto" (any ASCII case) or a positive page size. `None` exactly
    /// when the text is neither, including a page size of zero.
    pub fn parse(input: &String) -> (r: Option<PageSizeOption>)
        ensures
            r == if is_auto_word(input@) {
                Some(PageSizeOption::Auto)
            } else if input@.len() > 0 && all_digits(input@) && 1 <= digits_val(input@)
                && digits_val(input@) <= usize::MAX {
                Some(PageSizeOption::Value(digits_val(input@) as usize))
            } else {
                None::<PageSizeOption>
            },
    {
        let cs = chars_of(input.as_str());
        if cs.len() == 4 {
            let auto = (cs[0] == 'a' || cs[0] == 'A') && (cs[1] == 'u' || cs[1] == 'U') && (cs[2]
                == 't' || cs[2] == 'T') && (cs[3] == 'o' || cs[3] == 'O');
            if auto {
                return Some(PageSizeOption::Auto);
            }
        }
        match parse_usize(&cs) {
            Some(v) => {
                if v >= 1 {
                    Some(PageSizeOption::Value(v))
                } else {
                    None
                }
            },
            None => None,
        }
    }
}

/// Do the options meet the engine's well-formedness conditions?
pub fn check_options(o: &Options) -> (r: bool)
    ensures
        r == opts_wf(*o),
{
    let alpha = chars_of(o.hint_alphabet.as_str());
    if alpha.len() < 2 {
        return false;
    }
    let mut i: usize = 0;
    while i < alpha.len()
        invariant
            i <= alpha.len(),
            alpha@ == o.hint_alphabet@,
            forall|a: int, b: int| 0 <= a < b < i ==> alpha@[a] != alpha@[b],
        decreases alpha.len() - i,
    {
        let mut j: usize = 0;
        while j < i
            invariant
                j <= i < alpha.len(),
                alpha@ == o.hint_alphabet@,
                forall|b: int| 0 <= b < j ==> alpha@[b] != alpha@[i as int],
            decreases i - j,
        {
            if alpha[j] == alpha[i] {
                return false;
            }
            j += 1;
        }
        i += 1;
    }
    match &o.delimiter {
        Some(d) => d.as_str().unicode_len() > 0,
        None => true,
    }
}

} // verus!
