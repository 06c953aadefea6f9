//! The record store: parsed input lines, column projection, literal
//! substring filtering, and the selection set.
use crate::options::{opts_wf, ColumnRange, Options};
use crate::text::{spec_contains, spec_join, spec_split, str_contains, string_views, split_str};
use vstd::prelude::*;

verus! {

/// The ground indices `0`, `1`, ..., `n - 1`, in order.
pub open spec fn identity_seq(n: nat) -> Seq<usize> {
    Seq::new(n, |i: int| i as usize)
}

/// The fields at the listed positions, in listed order, skipping positions
/// beyond the record silently.
pub open spec fn project_closed(fields: Seq<Seq<char>>, positions: Seq<usize>) -> Seq<Seq<char>>
    decreases positions.len(),
{
    if positions.len() == 0 {
        Seq::empty()
    } else {
        let init = project_closed(fields, positions.drop_last());
        let p = positions.last();
        if (p as int) < fields.len() {
            init.push(fields[p as int])
        } else {
            init
        }
    }
}

/// Largest listed position, or -1 when none is listed.
pub open spec fn seq_max(positions: Seq<usize>) -> int
    decreases positions.len(),
{
    if positions.len() == 0 {
        -1
    } else {
        let m = seq_max(positions.drop_last());
        if positions.last() as int > m {
            positions.last() as int
        } else {
            m
        }
    }
}

/// The listed positions in listed order, then every field past the largest
/// listed position, in ascending order. An open range with no listed
/// position selects nothing.
pub open spec fn project_open(fields: Seq<Seq<char>>, positions: Seq<usize>) -> Seq<Seq<char>> {
    if positions.len() == 0 {
        Seq::empty()
    } else {
        let m = seq_max(positions);
        let tail_from = if m + 1 < fields.len() {
            m + 1
        } else {
            fields.len() as int
        };
        project_closed(fields, positions) + fields.subrange(tail_from, fields.len() as int)
    }
}

/// Project a record's fields through an optional column range.
pub open spec fn spec_project(fields: Seq<Seq<char>>, columns: Option<ColumnRange>) -> Seq<
    Seq<char>,
> {
    match columns {
        None => fields,
        Some(ColumnRange::Closed(v)) => project_closed(fields, v@),
        Some(ColumnRange::Open(v)) => project_open(fields, v@),
    }
}

/// Some field contains the pattern.
pub open spec fn fields_match(fields: Seq<Seq<char>>, pat: Seq<char>) -> bool {
    exists|i: int| 0 <= i < fields.len() && spec_contains(#[trigger] fields[i], pat)
}

/// Copies of the strings in `v` (same views, fresh values).
fn clone_fields(v: &Vec<String>) -> (r: Vec<String>)
    ensures
        string_views(r@) == string_views(v@),
{
    let mut r: Vec<String> = Vec::new();
    let mut i: usize = 0;
    while i < v.len()
        invariant
            i <= v.len(),
            r@.len() == i,
            forall|k: int| 0 <= k < i ==> (#[trigger] r@[k])@ == v@[k]@,
        decreases v.len() - i,
    {
        let c = v[i].clone();
        r.push(c);
        i += 1;
    }
    proof {
        assert(string_views(r@) =~~= string_views(v@));
    }
    r
}

/// Does any of `fields` contain `pat`?
fn fields_contain(fields: &Vec<String>, pat: &String) -> (r: bool)
    ensures
        r == fields_match(string_views(fields@), pat@),
{
    let mut i: usize = 0;
    while i < fields.len()
        invariant
            i <= fields.len(),
            forall|k: int|
                0 <= k < i ==> !spec_contains(#[trigger] string_views(fields@)[k], pat@),
        decreases fields.len() - i,
    {
        if str_contains(fields[i].as_str(), pat.as_str()) {
            proof {
                assert(spec_contains(string_views(fields@)[i as int], pat@));
            }
            return true;
        }
        i += 1;
    }
    false
}

/// One input record: its raw text and its fields (split on the configured
/// delimiter, or the raw text as a single field).
pub struct Line {
    data: Vec<String>,
    original: String,
}

impl Line {
    /// The record's fields.
    pub closed spec fn fields(self) -> Seq<Seq<char>> {
        string_views(self.data@)
    }

    /// The record's raw text.
    pub closed spec fn original_view(self) -> Seq<char> {
        self.original@
    }

    /// Build a record: split on the delimiter when one is configured,
    /// otherwise keep the whole text as the single field.
    pub fn new(text: &String, delimiter: &Option<String>) -> (r: Line)
        requires
            match delimiter {
                Some(d) => d@.len() > 0,
                None => true,
            },
        ensures
            r.original_view() == text@,
            r.fields() == match delimiter {
                Some(d) => spec_split(text@, d@),
                None => seq![text@],
            },
    {
        match delimiter {
            None => {
                let mut data: Vec<String> = Vec::new();
                data.push(text.clone());
                proof {
                    assert(string_views(data@) =~= seq![text@]);
                }
                Line { data, original: text.clone() }
            },
            Some(d) => {
                let data = split_str(text.as_str(), d.as_str());
                Line { data, original: text.clone() }
            },
        }
    }

    /// The fields to show, projected through the display column range.
    pub fn display(&self, columns: &Option<ColumnRange>) -> (r: Vec<String>)
        ensures
            string_views(r@) == spec_project(self.fields(), *columns),
    {
        match columns {
            None => clone_fields(&self.data),
            Some(range) => Self::filter_columns(&self.data, range),
        }
    }

    /// The output text: the fields projected through the output column range
    /// and joined by the delimiter (empty when none is configured).
    pub fn output(&self, columns: &Option<ColumnRange>, delimiter: &Option<String>) -> (r: String)
        ensures
            r@ == spec_join(
                spec_project(self.fields(), *columns),
                match delimiter {
                    Some(d) => d@,
                    None => Seq::<char>::empty(),
                },
            ),
    {
        let cols = match columns {
            None => clone_fields(&self.data),
            Some(range) => Self::filter_columns(&self.data, range),
        };
        match delimiter {
            Some(d) => join_helper(&cols, d),
            None => {
                proof {
                    reveal_strlit("");
                    assert(""@ =~= Seq::<char>::empty());
                }
                crate::text::join_fields(&cols, "")
            },
        }
    }

    /// Does the seed regex match this record's field at `column`? False
    /// when the record has no such column.
    pub fn matches_regex(&self, matcher: &crate::seed::SeedMatcher, column: usize) -> (r: bool)
        ensures
            r == line_matches_seed(*self, matcher.pattern_view(), column as int),
    {
        if column < self.data.len() {
            matcher.is_match(&self.data[column])
        } else {
            false
        }
    }

    /// Does any field of the record contain `s`?
    pub fn matches(&self, s: &String) -> (r: bool)
        ensures
            r == fields_match(self.fields(), s@),
    {
        fields_contain(&self.data, s)
    }

    /// The fields at the positions a column range selects.
    pub fn filter_columns(data: &Vec<String>, columns: &ColumnRange) -> (r: Vec<String>)
        ensures
            string_views(r@) == match columns {
                ColumnRange::Closed(v) => project_closed(string_views(data@), v@),
                ColumnRange::Open(v) => project_open(string_views(data@), v@),
            },
    {
        let ghost all = string_views(data@);
        match columns {
            ColumnRange::Closed(positions) => closed_projection(data, positions),
            ColumnRange::Open(positions) => {
                if positions.len() == 0 {
                    let r: Vec<String> = Vec::new();
                    proof {
                        assert(string_views(r@) =~= project_open(all, positions@));
                    }
                    return r;
                }
                let mut r = closed_projection(data, positions);
                // largest listed position
                let mut m: usize = positions[0];
                let mut i: usize = 1;
                proof {
                    assert(seq_max(Seq::<usize>::empty()) == -1);
                    assert(positions@.subrange(0, 1).drop_last() =~= Seq::<usize>::empty());
                    assert(positions@.subrange(0, 1).last() == positions@[0]);
                }
                while i < positions.len()
                    invariant
                        1 <= i <= positions.len(),
                        positions@.len() > 0,
                        m as int == seq_max(positions@.subrange(0, i as int)),
                    decreases positions.len() - i,
                {
                    proof {
                        assert(positions@.subrange(0, (i + 1) as int).drop_last() =~= positions@
                            .subrange(0, i as int));
                    }
                    if positions[i] > m {
                        m = positions[i];
                    }
                    i += 1;
                }
                proof {
                    assert(positions@.subrange(0, positions@.len() as int) =~= positions@);
                    assert(m as int == seq_max(positions@));
                }
                // every field past the largest listed position, in order
                if m < data.len() {
                    let mut tail: Vec<String> = Vec::new();
                    let mut q = m + 1;
                    while q < data.len()
                        invariant
                            m + 1 <= q <= data.len(),
                            tail@.len() == q - m - 1,
                            forall|k: int|
                                0 <= k < tail@.len() ==> (#[trigger] tail@[k])@ == data@[m + 1
                                    + k]@,
                        decreases data.len() - q,
                    {
                        tail.push(data[q].clone());
                        q += 1;
                    }
                    let ghost base = r@;
                    let ghost tail_view = tail@;
                    r.append(&mut tail);
                    proof {
                        assert(string_views(tail_view) =~~= all.subrange(
                            m + 1,
                            data@.len() as int,
                        ));
                        crate::text::lemma_string_views_concat(base, tail_view);
                        assert(string_views(r@) =~= project_open(all, positions@));
                    }
                } else {
                    proof {
                        assert(all.subrange(all.len() as int, all.len() as int)
                            =~= Seq::<Seq<char>>::empty());
                        assert(string_views(r@) =~= project_open(all, positions@));
                    }
                }
                r
            },
        }
    }
}

/// The listed-positions part of a projection.
fn closed_projection(data: &Vec<String>, positions: &Vec<usize>) -> (r: Vec<String>)
    ensures
        string_views(r@) == project_closed(string_views(data@), positions@),
{
    let ghost all = string_views(data@);
    let mut r: Vec<String> = Vec::new();
    let mut i: usize = 0;
    while i < positions.len()
        invariant
            i <= positions.len(),
            all == string_views(data@),
            string_views(r@) == project_closed(all, positions@.subrange(0, i as int)),
        decreases positions.len() - i,
    {
        proof {
            assert(positions@.subrange(0, (i + 1) as int).drop_last() =~= positions@.subrange(
                0,
                i as int,
            ));
        }
        let p = positions[i];
        if p < data.len() {
            r.push(data[p].clone());
            proof {
                assert(string_views(r@) =~= project_closed(
                    all,
                    positions@.subrange(0, (i + 1) as int),
                ));
            }
        } else {
            proof {
                assert(string_views(r@) =~= project_closed(
                    all,
                    positions@.subrange(0, (i + 1) as int),
                ));
            }
        }
        i += 1;
    }
    proof {
        assert(positions@.subrange(0, positions@.len() as int) =~= positions@);
    }
    r
}

/// Join fields with a delimiter string.
fn join_helper(fields: &Vec<String>, delim: &String) -> (r: String)
    ensures
        r@ == spec_join(string_views(fields@), delim@),
{
    crate::text::join_fields(fields, delim.as_str())
}

/// The seed regex matches record `line` at column `col`: the column exists
/// and the compiled pattern matches that field.
pub open spec fn line_matches_seed(line: Line, pat: Seq<char>, col: int) -> bool {
    0 <= col < line.fields().len() && crate::seed::regex_matches(pat, line.fields()[col])
}

/// The first ground index at or past `k` whose record matches the seed
/// regex at `col`, or -1 when none does.
pub open spec fn first_match_from(lines: Seq<Line>, pat: Seq<char>, col: int, k: int) -> int
    decreases lines.len() - k,
{
    if k < 0 || k >= lines.len() {
        -1
    } else if line_matches_seed(lines[k], pat, col) {
        k
    } else {
        first_match_from(lines, pat, col, k + 1)
    }
}

/// Toggling membership of `i` in a selection set.
pub open spec fn toggle_spec(s: Set<usize>, i: usize) -> Set<usize> {
    if s.contains(i) {
        s.remove(i)
    } else {
        s.insert(i)
    }
}

/// Filter round-trip: the empty filter makes every record visible in its
/// original order. Filtering never mutates the store, so this holds
/// whatever non-empty filter was applied before.
pub proof fn lemma_filter_round_trip(p: Picker)
    ensures
        p.visible_indices(Seq::<char>::empty()) == identity_seq(p.num_lines()),
{
}

/// Toggling the same ground index twice restores the selection exactly.
pub proof fn lemma_toggle_idempotent(s: Set<usize>, i: usize)
    ensures
        toggle_spec(toggle_spec(s, i), i) == s,
{
    assert(toggle_spec(toggle_spec(s, i), i) =~= s);
}

/// The two stores agree on everything.
pub open spec fn picker_same(a: Picker, b: Picker) -> bool {
    &&& a.lines_view() == b.lines_view()
    &&& a.filter_view() == b.filter_view()
    &&& a.opts_spec() == b.opts_spec()
    &&& (forall|j: int| a.is_sel(j) == b.is_sel(j))
    &&& a.sel_set() == b.sel_set()
}

/// The record store: the immutable parsed records, the applied filter text,
/// and the selection set over ground indices.
pub struct Picker {
    lines: Vec<Line>,
    filter: Option<String>,
    sel: Vec<bool>,
    opts: Options,
}

impl Picker {
    /// The records, in ground-index order.
    pub closed spec fn lines_view(self) -> Seq<Line> {
        self.lines@
    }

    /// Number of records.
    pub open spec fn num_lines(self) -> nat {
        self.lines_view().len()
    }

    /// Is ground index `i` selected?
    pub closed spec fn is_sel(self, i: int) -> bool {
        0 <= i < self.sel@.len() && self.sel@[i]
    }

    /// The selection as a set of ground indices.
    pub closed spec fn sel_set(self) -> Set<usize> {
        Set::new(|i: usize| self.is_sel(i as int))
    }

    /// The applied (persisted) filter text; empty when none was applied.
    pub closed spec fn filter_view(self) -> Seq<char> {
        match self.filter {
            Some(f) => f@,
            None => Seq::empty(),
        }
    }

    /// The configured options.
    pub closed spec fn opts_spec(self) -> Options {
        self.opts
    }

    /// One selection bit per record, and well-formed options.
    pub closed spec fn wf(self) -> bool {
        &&& self.sel@.len() == self.lines@.len()
        &&& opts_wf(self.opts)
    }

    /// Does record `i` pass the filter `pat`: some display-projected field
    /// contains it?
    pub closed spec fn line_passes(self, i: int, pat: Seq<char>) -> bool {
        fields_match(spec_project(self.lines@[i].fields(), self.opts.display_columns), pat)
    }

    /// The ground indices below `k` that pass `pat`, in ascending order.
    pub closed spec fn visible_upto(self, pat: Seq<char>, k: int) -> Seq<usize>
        decreases k,
    {
        if k <= 0 {
            Seq::empty()
        } else {
            self.visible_upto(pat, k - 1) + if self.line_passes(k - 1, pat) {
                seq![(k - 1) as usize]
            } else {
                Seq::empty()
            }
        }
    }

    /// The ordered ground indices passing a non-empty filter `pat`.
    pub open spec fn spec_visible(self, pat: Seq<char>) -> Seq<usize> {
        self.visible_upto(pat, self.num_lines() as int)
    }

    /// The visible index list for a filter text: every ground index for the
    /// empty text, otherwise the matching ones in ascending order.
    pub open spec fn visible_indices(self, pat: Seq<char>) -> Seq<usize> {
        if pat.len() == 0 {
            identity_seq(self.num_lines())
        } else {
            self.spec_visible(pat)
        }
    }

    /// The output text of record `line` under the configured output columns
    /// and delimiter.
    pub closed spec fn line_output(self, line: Line) -> Seq<char> {
        spec_join(
            spec_project(line.fields(), self.opts.output_columns),
            match self.opts.delimiter {
                Some(d) => d@,
                None => Seq::empty(),
            },
        )
    }

    /// The outputs of the selected records with ground index below `k`, in
    /// ground-index order.
    pub closed spec fn outputs_upto(self, k: int) -> Seq<Seq<char>>
        decreases k,
    {
        if k <= 0 {
            Seq::empty()
        } else {
            self.outputs_upto(k - 1) + if self.is_sel(k - 1) {
                seq![self.line_output(self.lines@[k - 1])]
            } else {
                Seq::empty()
            }
        }
    }

    /// The outputs of all selected records, in ground-index order.
    pub open spec fn spec_outputs(self) -> Seq<Seq<char>> {
        self.outputs_upto(self.num_lines() as int)
    }

    /// The selected records with ground index below `k`, in ground-index
    /// order.
    pub closed spec fn selected_upto(self, k: int) -> Seq<Line>
        decreases k,
    {
        if k <= 0 {
            Seq::empty()
        } else {
            self.selected_upto(k - 1) + if self.is_sel(k - 1) {
                seq![self.lines@[k - 1]]
            } else {
                Seq::empty()
            }
        }
    }

    /// All selected records, in ground-index order.
    pub open spec fn spec_selected(self) -> Seq<Line> {
        self.selected_upto(self.num_lines() as int)
    }

    /// Build the store: one record per input line, nothing selected, no
    /// filter applied.
    pub fn new(lines: &Vec<String>, opts: Options) -> (r: Picker)
        requires
            opts_wf(opts),
        ensures
            r.wf(),
            r.num_lines() == lines@.len(),
            r.opts_spec() == opts,
            r.filter_view() == Seq::<char>::empty(),
            forall|i: int| !r.is_sel(i),
            forall|i: int|
                0 <= i < lines@.len() ==> (#[trigger] r.lines_view()[i]).original_view()
                    == lines@[i]@,
            forall|i: int|
                0 <= i < lines@.len() ==> (#[trigger] r.lines_view()[i]).fields() == match opts
                    .delimiter {
                    Some(d) => spec_split(lines@[i]@, d@),
                    None => seq![lines@[i]@],
                },
    {
        let mut parsed: Vec<Line> = Vec::new();
        let mut i: usize = 0;
        while i < lines.len()
            invariant
                i <= lines.len(),
                parsed@.len() == i,
                opts_wf(opts),
                forall|k: int|
                    0 <= k < i ==> (#[trigger] parsed@[k]).original_view() == lines@[k]@,
                forall|k: int|
                    0 <= k < i ==> (#[trigger] parsed@[k]).fields() == match opts.delimiter {
                        Some(d) => spec_split(lines@[k]@, d@),
                        None => seq![lines@[k]@],
                    },
            decreases lines.len() - i,
        {
            let line = Line::new(&lines[i], &opts.delimiter);
            parsed.push(line);
            i += 1;
        }
        let mut sel: Vec<bool> = Vec::new();
        let mut j: usize = 0;
        while j < lines.len()
            invariant
                j <= lines.len(),
                sel@.len() == j,
                forall|k: int| 0 <= k < j ==> !(#[trigger] sel@[k]),
            decreases lines.len() - j,
        {
            sel.push(false);
            j += 1;
        }
        Picker { lines: parsed, filter: None, sel, opts }
    }

    /// The projected, joined output of every selected record, in
    /// ground-index order; `None` when nothing is selected.
    pub fn result(&self) -> (r: Option<Vec<String>>)
        requires
            self.wf(),
        ensures
            r is Some <==> exists|i: int| self.is_sel(i),
            match r {
                Some(out) => string_views(out@) == self.spec_outputs(),
                None => true,
            },
    {
        let mut out: Vec<String> = Vec::new();
        let mut i: usize = 0;
        while i < self.lines.len()
            invariant
                self.wf(),
                i <= self.lines.len(),
                string_views(out@) == self.outputs_upto(i as int),
                out@.len() > 0 <==> exists|j: int| 0 <= j < i && self.is_sel(j),
            decreases self.lines.len() - i,
        {
            if i < self.sel.len() && self.sel[i] {
                let text = self.lines[i].output(&self.opts.output_columns, &self.opts.delimiter);
                out.push(text);
                proof {
                    assert(string_views(out@) =~= self.outputs_upto((i + 1) as int));
                }
            } else {
                proof {
                    assert(self.outputs_upto((i + 1) as int) =~= self.outputs_upto(i as int));
                }
            }
            i += 1;
        }
        if out.len() == 0 {
            proof {
                assert forall|j: int| !self.is_sel(j) by {
                    if 0 <= j < self.lines@.len() {
                    }
                }
            }
            None
        } else {
            Some(out)
        }
    }

    /// References to the selected records, in ground-index order.
    pub fn selected(&self) -> (r: Vec<&Line>)
        ensures
            r@.map_values(|l: &Line| *l) == self.spec_selected(),
    {
        let mut out: Vec<&Line> = Vec::new();
        let mut i: usize = 0;
        while i < self.lines.len()
            invariant
                i <= self.lines.len(),
                out@.map_values(|l: &Line| *l) == self.selected_upto(i as int),
            decreases self.lines.len() - i,
        {
            if i < self.sel.len() && self.sel[i] {
                out.push(&self.lines[i]);
                proof {
                    assert(out@.map_values(|l: &Line| *l) =~= self.selected_upto((i + 1) as int));
                }
            } else {
                proof {
                    assert(self.selected_upto((i + 1) as int) =~= self.selected_upto(i as int));
                }
            }
            i += 1;
        }
        out
    }

    /// The records, in ground-index order.
    pub fn lines(&self) -> (r: &Vec<Line>)
        ensures
            r@ == self.lines_view(),
    {
        &self.lines
    }

    /// Toggle selection membership of one ground index.
    pub fn toggle_selection(&mut self, index: usize)
        requires
            old(self).wf(),
            index < old(self).num_lines(),
        ensures
            final(self).wf(),
            final(self).sel_set() == toggle_spec(old(self).sel_set(), index),
            forall|j: int|
                final(self).is_sel(j) == if j == index {
                    !old(self).is_sel(j)
                } else {
                    old(self).is_sel(j)
                },
            final(self).lines_view() == old(self).lines_view(),
            final(self).num_lines() == old(self).num_lines(),
            final(self).filter_view() == old(self).filter_view(),
            final(self).opts_spec() == old(self).opts_spec(),
    {
        let cur = self.sel[index];
        self.sel[index] = !cur;
        proof {
            assert(final(self).sel_set() =~= toggle_spec(old(self).sel_set(), index));
        }
    }

    /// Is this ground index selected?
    pub fn is_selected(&self, index: usize) -> (r: bool)
        ensures
            r == self.is_sel(index as int),
    {
        index < self.sel.len() && self.sel[index]
    }

    /// The applied filter text (empty when none was applied).
    pub fn filter_text(&self) -> (r: String)
        ensures
            r@ == self.filter_view(),
    {
        match &self.filter {
            Some(f) => f.clone(),
            None => String::new(),
        }
    }

    /// Commit a filter text as the applied one.
    pub fn persist_filter(&mut self, filter: String)
        requires
            old(self).wf(),
        ensures
            final(self).wf(),
            final(self).filter_view() == filter@,
            final(self).lines_view() == old(self).lines_view(),
            final(self).num_lines() == old(self).num_lines(),
            final(self).sel_set() == old(self).sel_set(),
            forall|j: int| final(self).is_sel(j) == old(self).is_sel(j),
            final(self).opts_spec() == old(self).opts_spec(),
    {
        self.filter = Some(filter);
        proof {
            assert(final(self).sel_set() =~= old(self).sel_set());
        }
    }

    /// The ordered ground indices whose records pass `filter`: every record
    /// for the empty filter, otherwise those with a display-projected field
    /// containing it.
    pub fn apply_filter(&self, filter: &String) -> (r: Vec<usize>)
        ensures
            r@ == self.visible_indices(filter@),
            forall|k: int| 0 <= k < r@.len() ==> (#[trigger] r@[k]) < self.num_lines(),
            forall|k1: int, k2: int| 0 <= k1 < k2 < r@.len() ==> r@[k1] < r@[k2],
    {
        let mut out: Vec<usize> = Vec::new();
        if filter.as_str().unicode_len() == 0 {
            let mut i: usize = 0;
            while i < self.lines.len()
                invariant
                    i <= self.lines.len(),
                    out@ == identity_seq(i as nat),
                decreases self.lines.len() - i,
            {
                out.push(i);
                proof {
                    assert(out@ =~= identity_seq((i + 1) as nat));
                }
                i += 1;
            }
            return out;
        }
        let mut i: usize = 0;
        while i < self.lines.len()
            invariant
                i <= self.lines.len(),
                filter@.len() > 0,
                out@ == self.visible_upto(filter@, i as int),
                forall|k: int| 0 <= k < out@.len() ==> (#[trigger] out@[k]) < i,
                forall|k1: int, k2: int| 0 <= k1 < k2 < out@.len() ==> out@[k1] < out@[k2],
            decreases self.lines.len() - i,
        {
            let projected = self.lines[i].display(&self.opts.display_columns);
            if fields_contain(&projected, filter) {
                out.push(i);
                proof {
                    assert(out@ =~= self.visible_upto(filter@, (i + 1) as int));
                }
            } else {
                proof {
                    assert(self.visible_upto(filter@, (i + 1) as int) =~= self.visible_upto(
                        filter@,
                        i as int,
                    ));
                }
            }
            i += 1;
        }
        out
    }
}

} // verus!
