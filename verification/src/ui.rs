//! The viewport: pagination of the visible ground indices, the cursor, the
//! interaction mode, the shared input buffer, and the hint codes of the
//! current page.
use crate::hints::{
    distinct_chars, hint_code_at, hint_params, is_hint_len, lemma_encode_len,
    lemma_hint_codes_unique, lemma_hint_len_agrees, lemma_hint_value_plain, lemma_spacing,
    spec_hint_len, spec_page_hints,
};
use crate::modes::Mode;
use crate::options::{opts_wf, Options};
use crate::picker::identity_seq;
use crate::text::{chars_of, str_is_prefix, string_views};
use vstd::arithmetic::power::pow;
use vstd::prelude::*;

verus! {

/// The views of a sequence of index vectors.
pub open spec fn page_views(p: Seq<Vec<usize>>) -> Seq<Seq<usize>> {
    p.map_values(|v: Vec<usize>| v@)
}

/// The deterministic partition of an index list into runs of `page_size`
/// (the last run may be shorter; no run is empty).
pub open spec fn spec_chunks(indexes: Seq<usize>, page_size: int) -> Seq<Seq<usize>>
    decreases indexes.len(),
    when page_size >= 1
{
    if indexes.len() == 0 {
        Seq::empty()
    } else if indexes.len() <= page_size {
        seq![indexes]
    } else {
        seq![indexes.subrange(0, page_size)] + spec_chunks(indexes.skip(page_size), page_size)
    }
}

/// Pagination coverage: concatenating all pages, in order, reproduces the
/// index list exactly, every page except the last has exactly `page_size`
/// entries, and no page is empty.
pub proof fn lemma_chunks_cover(indexes: Seq<usize>, page_size: int)
    requires
        page_size >= 1,
    ensures
        spec_chunks(indexes, page_size).flatten() == indexes,
        forall|k: int|
            0 <= k < spec_chunks(indexes, page_size).len() ==> 1 <= (#[trigger] spec_chunks(
                indexes,
                page_size,
            )[k]).len() <= page_size,
        forall|k: int|
            0 <= k < spec_chunks(indexes, page_size).len() - 1 ==> (#[trigger] spec_chunks(
                indexes,
                page_size,
            )[k]).len() == page_size,
    decreases indexes.len(),
{
    let chunks = spec_chunks(indexes, page_size);
    if indexes.len() == 0 {
        assert(chunks.flatten() =~= indexes);
    } else if indexes.len() <= page_size {
        chunks.lemma_flatten_one_element();
        assert(chunks.flatten() =~= indexes);
    } else {
        let head = indexes.subrange(0, page_size);
        let rest = indexes.skip(page_size);
        lemma_chunks_cover(rest, page_size);
        let rest_chunks = spec_chunks(rest, page_size);
        vstd::seq_lib::lemma_flatten_concat(seq![head], rest_chunks);
        seq![head].lemma_flatten_one_element();
        assert(chunks.flatten() == head + rest_chunks.flatten());
        assert(head + rest =~= indexes);
        assert forall|k: int| 0 <= k < chunks.len() implies 1 <= (#[trigger] chunks[k]).len()
            <= page_size by {
            if k >= 1 {
                assert(chunks[k] == rest_chunks[k - 1]);
            }
        }
        assert forall|k: int| 0 <= k < chunks.len() - 1 implies (#[trigger] chunks[k]).len()
            == page_size by {
            if k >= 1 {
                assert(chunks[k] == rest_chunks[k - 1]);
            }
        }
    }
}

/// Each ground position lands on page `g / page_size` at slot
/// `g % page_size` when the whole identity list is paginated.
pub proof fn lemma_chunks_index(indexes: Seq<usize>, page_size: int, g: int)
    requires
        page_size >= 1,
        0 <= g < indexes.len(),
    ensures
        ({
            let chunks = spec_chunks(indexes, page_size);
            &&& g / page_size < chunks.len()
            &&& g % page_size < chunks[g / page_size].len()
            &&& chunks[g / page_size][g % page_size] == indexes[g]
        }),
    decreases indexes.len(),
{
    let chunks = spec_chunks(indexes, page_size);
    if g < page_size {
        vstd::arithmetic::div_mod::lemma_basic_div(g, page_size);
        vstd::arithmetic::div_mod::lemma_small_mod(g as nat, page_size as nat);
        assert(g / page_size == 0);
        assert(g % page_size == g);
    } else {
        let rest = indexes.skip(page_size);
        assert(indexes.len() > page_size);
        lemma_chunks_index(rest, page_size, g - page_size);
        let rest_chunks = spec_chunks(rest, page_size);
        assert(chunks[1 + (g - page_size) / page_size] == rest_chunks[(g - page_size)
            / page_size]);
        assert((g - page_size) / page_size + 1 == g / page_size) by {
            vstd::arithmetic::div_mod::lemma_hoist_over_denominator(
                g - page_size,
                1,
                page_size as nat,
            );
            assert(g - page_size + 1 * page_size == g) by (nonlinear_arith);
        }
        assert((g - page_size) % page_size == g % page_size) by {
            vstd::arithmetic::div_mod::lemma_mod_add_multiples_vanish(g - page_size, page_size);
        }
        assert(rest[g - page_size] == indexes[g]);
    }
}

/// A chunking keeps its elements' bound and keeps each page strictly
/// ascending when the index list is strictly ascending.
pub proof fn lemma_chunks_preserve(indexes: Seq<usize>, page_size: int, bound: int)
    requires
        page_size >= 1,
        forall|g: int| 0 <= g < indexes.len() ==> (#[trigger] indexes[g]) < bound,
        forall|g1: int, g2: int|
            0 <= g1 < g2 < indexes.len() ==> indexes[g1] < indexes[g2],
    ensures
        forall|p: int, k: int|
            0 <= p < spec_chunks(indexes, page_size).len() && 0 <= k < spec_chunks(
                indexes,
                page_size,
            )[p].len() ==> (#[trigger] spec_chunks(indexes, page_size)[p][k]) < bound,
        forall|p: int, k1: int, k2: int|
            0 <= p < spec_chunks(indexes, page_size).len() && 0 <= k1 < k2 < spec_chunks(
                indexes,
                page_size,
            )[p].len() ==> #[trigger] spec_chunks(indexes, page_size)[p][k1]
                < #[trigger] spec_chunks(indexes, page_size)[p][k2],
    decreases indexes.len(),
{
    let chunks = spec_chunks(indexes, page_size);
    if indexes.len() == 0 {
    } else if indexes.len() <= page_size {
        assert forall|p: int, k: int|
            0 <= p < chunks.len() && 0 <= k < chunks[p].len() implies (
        #[trigger] chunks[p][k]) < bound by {
            assert(chunks[p] == indexes);
        }
    } else {
        let rest = indexes.skip(page_size);
        lemma_chunks_preserve(rest, page_size, bound);
        let rest_chunks = spec_chunks(rest, page_size);
        assert forall|p: int, k: int|
            0 <= p < chunks.len() && 0 <= k < chunks[p].len() implies (
        #[trigger] chunks[p][k]) < bound by {
            if p == 0 {
                assert(chunks[0][k] == indexes[k]);
            } else {
                assert(chunks[p] == rest_chunks[p - 1]);
            }
        }
        assert forall|p: int, k1: int, k2: int|
            0 <= p < chunks.len() && 0 <= k1 < k2 < chunks[p].len()
            implies #[trigger] chunks[p][k1] < #[trigger] chunks[p][k2] by {
            if p == 0 {
                assert(chunks[0][k1] == indexes[k1]);
                assert(chunks[0][k2] == indexes[k2]);
            } else {
                assert(chunks[p] == rest_chunks[p - 1]);
            }
        }
    }
}

/// The viewport state.
pub struct Ui {
    cursor: usize,
    mode: Mode,
    input_buffer: String,
    page: usize,
    page_size: usize,
    pages: Vec<Vec<usize>>,
    hints: Option<Vec<String>>,
    opts: Options,
}

impl Ui {

    /// The two states agree on everything.
    pub open spec fn same_ui(a: Ui, b: Ui) -> bool {
        &&& a.cursor_spec() == b.cursor_spec()
        &&& a.mode_spec() == b.mode_spec()
        &&& a.buffer_view() == b.buffer_view()
        &&& a.page_spec() == b.page_spec()
        &&& a.page_size_spec() == b.page_size_spec()
        &&& a.pages_views() == b.pages_views()
        &&& a.hints_view() == b.hints_view()
        &&& a.opts_spec() == b.opts_spec()
    }

    /// The two states agree on everything but the cursor.
    pub open spec fn same_but_cursor(a: Ui, b: Ui) -> bool {
        &&& a.mode_spec() == b.mode_spec()
        &&& a.buffer_view() == b.buffer_view()
        &&& a.page_spec() == b.page_spec()
        &&& a.page_size_spec() == b.page_size_spec()
        &&& a.pages_views() == b.pages_views()
        &&& a.hints_view() == b.hints_view()
        &&& a.opts_spec() == b.opts_spec()
    }

    /// The two states agree on everything but the input buffer.
    pub open spec fn same_but_buffer(a: Ui, b: Ui) -> bool {
        &&& a.cursor_spec() == b.cursor_spec()
        &&& a.mode_spec() == b.mode_spec()
        &&& a.page_spec() == b.page_spec()
        &&& a.page_size_spec() == b.page_size_spec()
        &&& a.pages_views() == b.pages_views()
        &&& a.hints_view() == b.hints_view()
        &&& a.opts_spec() == b.opts_spec()
    }

    /// The page-slot offset of the cursor within the current page.
    pub closed spec fn cursor_spec(self) -> int {
        self.cursor as int
    }

    /// The interaction mode.
    pub closed spec fn mode_spec(self) -> Mode {
        self.mode
    }

    /// The live input buffer (filter edits and hint codes so far).
    pub closed spec fn buffer_view(self) -> Seq<char> {
        self.input_buffer@
    }

    /// The current page number.
    pub closed spec fn page_spec(self) -> int {
        self.page as int
    }

    /// The configured page size.
    pub closed spec fn page_size_spec(self) -> int {
        self.page_size as int
    }

    /// The pages, as sequences of ground indices.
    pub closed spec fn pages_views(self) -> Seq<Seq<usize>> {
        page_views(self.pages@)
    }

    /// The hint codes of the current page, while in Hint mode.
    pub closed spec fn hints_view(self) -> Option<Seq<Seq<char>>> {
        match self.hints {
            Some(v) => Some(string_views(v@)),
            None => None,
        }
    }

    /// The configured options.
    pub closed spec fn opts_spec(self) -> Options {
        self.opts
    }

    /// The ground indices of the current page (empty when there is none).
    pub open spec fn cur_page(self) -> Seq<usize> {
        if self.page_spec() < self.pages_views().len() {
            self.pages_views()[self.page_spec()]
        } else {
            Seq::empty()
        }
    }

    /// Number of slots on the current page.
    pub open spec fn cur_page_len(self) -> int {
        self.cur_page().len() as int
    }

    /// Everything the viewport keeps consistent apart from the cursor: a
    /// positive page size, well-formed options, a current page number inside
    /// the page list (0 when the list is empty), pages of 1 up to
    /// `page_size` entries, and hint codes only in Hint mode, one per slot
    /// of the current page, non-empty, of one shared length, pairwise
    /// distinct.
    pub closed spec fn shape_wf(self) -> bool {
        &&& self.page_size >= 1
        &&& opts_wf(self.opts)
        &&& (self.pages@.len() == 0 ==> self.page == 0)
        &&& (self.pages@.len() > 0 ==> self.page < self.pages@.len())
        &&& (forall|k: int|
            0 <= k < self.pages@.len() ==> 1 <= (#[trigger] self.pages@[k])@.len()
                <= self.page_size)
        &&& match self.hints {
            Some(codes) => {
                &&& self.mode is Hint
                &&& codes@.len() == self.cur_page_len()
                &&& (forall|i: int|
                    0 <= i < codes@.len() ==> (#[trigger] codes@[i])@.len() >= 1)
                &&& (forall|i: int, j: int|
                    0 <= i < codes@.len() && 0 <= j < codes@.len() ==> (#[trigger] codes@[i])@.len()
                        == (#[trigger] codes@[j])@.len())
                &&& (forall|i: int, j: int|
                    0 <= i < j < codes@.len() ==> (#[trigger] codes@[i])@ != (#[trigger] codes@[j])@)
            },
            None => true,
        }
    }

    /// Cursor bounds: `0 <= cursor < max(1, current page length)`.
    pub open spec fn cursor_ok(self) -> bool {
        if self.cur_page_len() == 0 {
            self.cursor_spec() == 0
        } else {
            self.cursor_spec() < self.cur_page_len()
        }
    }

    /// The viewport invariant.
    pub open spec fn wf(self) -> bool {
        self.shape_wf() && self.cursor_ok()
    }

    /// The consequences of the invariant that callers outside this module
    /// rely on.
    pub proof fn lemma_wf_facts(u: Ui)
        requires
            u.wf(),
        ensures
            u.page_size_spec() >= 1,
            u.page_spec() >= 0,
            u.cursor_spec() >= 0,
            !(u.mode_spec() is Hint) ==> u.hints_view() is None,
            match u.hints_view() {
                Some(codes) => codes.len() == u.cur_page_len() && u.mode_spec() is Hint && (
                forall|i: int, j: int|
                    0 <= i < j < codes.len() ==> #[trigger] codes[i] != #[trigger] codes[j]),
                None => true,
            },
            u.pages_views().len() > 0 ==> u.page_spec() < u.pages_views().len(),
            u.pages_views().len() == 0 ==> u.page_spec() == 0,
            forall|k: int|
                0 <= k < u.pages_views().len() ==> 1 <= (#[trigger] u.pages_views()[k]).len()
                    <= u.page_size_spec(),
            u.cur_page_len() == 0 ==> u.cursor_spec() == 0,
            u.cur_page_len() > 0 ==> u.cursor_spec() < u.cur_page_len(),
    {
        match u.hints {
            Some(codes) => {
                assert(u.hints_view()->0.len() == string_views(codes@).len());
                assert forall|i: int, j: int|
                    0 <= i < j < u.hints_view()->0.len() implies #[trigger] u.hints_view()->0[i]
                    != #[trigger] u.hints_view()->0[j] by {
                    assert(u.hints_view()->0[i] == codes@[i]@);
                    assert(u.hints_view()->0[j] == codes@[j]@);
                }
            },
            None => {},
        }
        assert forall|k: int| 0 <= k < u.pages_views().len() implies 1 <= (
        #[trigger] u.pages_views()[k]).len() <= u.page_size_spec() by {
            assert(u.pages_views()[k] == u.pages@[k]@);
        }
    }

    /// Build the viewport over all ground indices of the store, on page 0
    /// with the cursor on slot 0, in Normal mode, with an empty buffer and
    /// no hints.
    pub fn new(picker: &crate::picker::Picker, opts: Options, page_size: usize) -> (r: Ui)
        requires
            page_size >= 1,
            opts_wf(opts),
        ensures
            r.wf(),
            r.mode_spec() == Mode::Normal,
            r.cursor_spec() == 0,
            r.page_spec() == 0,
            r.page_size_spec() == page_size,
            r.buffer_view() == Seq::<char>::empty(),
            r.hints_view() is None,
            r.pages_views() == spec_chunks(identity_seq(picker.num_lines()), page_size as int),
            r.opts_spec() == opts,
    {
        let n = picker.lines().len();
        let mut indexes: Vec<usize> = Vec::new();
        let mut i: usize = 0;
        while i < n
            invariant
                i <= n,
                indexes@ == identity_seq(i as nat),
            decreases n - i,
        {
            indexes.push(i);
            proof {
                assert(indexes@ =~= identity_seq((i + 1) as nat));
            }
            i += 1;
        }
        let pages = Self::calc_pages(indexes, page_size);
        let r = Ui {
            cursor: 0,
            mode: Mode::Normal,
            input_buffer: String::new(),
            page: 0,
            page_size,
            pages,
            hints: None,
            opts,
        };
        proof {
            lemma_chunks_cover(identity_seq(picker.num_lines()), page_size as int);
            assert forall|k: int| 0 <= k < r.pages@.len() implies 1 <= (#[trigger] r.pages@[k])@.len()
                <= r.page_size by {
                assert(r.pages_views()[k] == r.pages@[k]@);
            }
        }
        r
    }

    /// Chunk an index list into pages of at most `page_size` entries.
    pub fn calc_pages(indexes: Vec<usize>, page_size: usize) -> (r: Vec<Vec<usize>>)
        requires
            page_size >= 1,
        ensures
            page_views(r@) == spec_chunks(indexes@, page_size as int),
    {
        let mut pages: Vec<Vec<usize>> = Vec::new();
        let mut start: usize = 0;
        proof {
            assert(indexes@.skip(0) =~= indexes@);
        }
        while start < indexes.len()
            invariant
                start <= indexes.len(),
                page_size >= 1,
                spec_chunks(indexes@, page_size as int) == page_views(pages@) + spec_chunks(
                    indexes@.skip(start as int),
                    page_size as int,
                ),
            decreases indexes.len() - start,
        {
            let ghost rest = indexes@.skip(start as int);
            let end = if indexes.len() - start < page_size {
                indexes.len()
            } else {
                start + page_size
            };
            let mut page: Vec<usize> = Vec::new();
            let mut k = start;
            while k < end
                invariant
                    start <= k <= end <= indexes.len(),
                    page@ == indexes@.subrange(start as int, k as int),
                decreases end - k,
            {
                page.push(indexes[k]);
                proof {
                    assert(indexes@.subrange(start as int, (k + 1) as int) =~= indexes@.subrange(
                        start as int,
                        k as int,
                    ).push(indexes@[k as int]));
                }
                k += 1;
            }
            let ghost old_pages = pages@;
            pages.push(page);
            proof {
                if rest.len() <= page_size {
                    assert(page@ =~= rest);
                    assert(spec_chunks(rest, page_size as int) == seq![rest]);
                    assert(indexes@.skip(end as int).len() == 0);
                    assert(spec_chunks(indexes@.skip(end as int), page_size as int)
                        =~= Seq::<Seq<usize>>::empty());
                    assert(page_views(pages@) =~= page_views(old_pages) + seq![rest]);
                    assert(page_views(pages@) + spec_chunks(
                        indexes@.skip(end as int),
                        page_size as int,
                    ) =~= page_views(old_pages) + spec_chunks(rest, page_size as int));
                } else {
                    assert(page@ =~= rest.subrange(0, page_size as int));
                    assert(rest.skip(page_size as int) =~= indexes@.skip(end as int));
                    assert(spec_chunks(rest, page_size as int) == seq![
                        rest.subrange(0, page_size as int),
                    ] + spec_chunks(indexes@.skip(end as int), page_size as int));
                    assert(page_views(pages@) =~= page_views(old_pages) + seq![page@]);
                    assert(page_views(pages@) + spec_chunks(
                        indexes@.skip(end as int),
                        page_size as int,
                    ) =~= page_views(old_pages) + spec_chunks(rest, page_size as int));
                }
            }
            start = end;
        }
        proof {
            assert(indexes@.skip(start as int).len() == 0);
            assert(spec_chunks(indexes@.skip(start as int), page_size as int)
                =~= Seq::<Seq<usize>>::empty());
            assert(page_views(pages@) + spec_chunks(
                indexes@.skip(start as int),
                page_size as int,
            ) =~= page_views(pages@));
        }
        pages
    }

    /// The interaction mode.
    pub fn mode(&self) -> (r: Mode)
        ensures
            r == self.mode_spec(),
    {
        self.mode
    }

    /// The page-slot offset of the cursor.
    pub fn cursor(&self) -> (r: usize)
        ensures
            r == self.cursor_spec(),
    {
        self.cursor
    }

    /// The live input buffer.
    pub fn input_buffer(&self) -> (r: &String)
        ensures
            r@ == self.buffer_view(),
    {
        &self.input_buffer
    }

    /// Put the cursor on a slot of the current page.
    pub fn set_cursor(&mut self, i: usize)
        requires
            old(self).wf(),
            i < old(self).cur_page_len(),
        ensures
            final(self).wf(),
            final(self).cursor_spec() == i,
            Ui::same_but_cursor(*old(self), *final(self)),
    {
        self.cursor = i;
    }

    /// Clamp the cursor to the current page: `min(cursor, k - 1)` for a page
    /// of `k` entries, 0 when there is no entry.
    pub fn align_cursor(&mut self)
        requires
            old(self).shape_wf(),
        ensures
            final(self).wf(),
            final(self).cursor_spec() == if old(self).cur_page_len() == 0 {
                0int
            } else if old(self).cursor_spec() < old(self).cur_page_len() {
                old(self).cursor_spec()
            } else {
                old(self).cur_page_len() - 1
            },
            Ui::same_but_cursor(*old(self), *final(self)),
    {
        if self.page < self.pages.len() {
            let len = self.pages[self.page].len();
            if self.cursor >= len {
                self.cursor = len - 1;
            }
        } else {
            self.cursor = 0;
        }
    }

    /// The ground index under the cursor, or `None` on an empty page.
    pub fn line_under_cursor(&self) -> (r: Option<usize>)
        ensures
            r == if self.cursor_spec() < self.cur_page_len() {
                Some(self.cur_page()[self.cursor_spec()])
            } else {
                None::<usize>
            },
    {
        if self.page < self.pages.len() {
            let p = &self.pages[self.page];
            if self.cursor < p.len() {
                return Some(p[self.cursor]);
            }
        }
        None
    }

    /// Move the cursor one slot up, saturating at the top of the page.
    pub fn move_cursor_up(&mut self)
        requires
            old(self).wf(),
        ensures
            final(self).wf(),
            final(self).cursor_spec() == if old(self).cursor_spec() == 0 {
                0int
            } else {
                old(self).cursor_spec() - 1
            },
            Ui::same_but_cursor(*old(self), *final(self)),
    {
        self.cursor = Self::saturating_decrement(self.cursor);
    }

    /// Move the cursor one slot down, saturating at the bottom of the page;
    /// no-op on an empty page.
    pub fn move_cursor_down(&mut self)
        requires
            old(self).wf(),
        ensures
            final(self).wf(),
            final(self).cursor_spec() == if old(self).cur_page_len() == 0 {
                old(self).cursor_spec()
            } else if old(self).cursor_spec() + 1 < old(self).cur_page_len() {
                old(self).cursor_spec() + 1
            } else {
                old(self).cur_page_len() - 1
            },
            Ui::same_but_cursor(*old(self), *final(self)),
    {
        if self.page < self.pages.len() {
            let len = self.pages[self.page].len();
            self.cursor = Self::increment_to_max(self.cursor, len - 1);
        }
    }

    /// Repaginate over a fresh visible index list, return to page 0, and
    /// realign the cursor.
    pub fn paginate(&mut self, indexes: Vec<usize>)
        requires
            old(self).shape_wf(),
            old(self).hints_view() is None,
        ensures
            final(self).wf(),
            final(self).pages_views() == spec_chunks(indexes@, old(self).page_size_spec()),
            final(self).page_spec() == 0,
            final(self).cursor_spec() == if final(self).cur_page_len() == 0 {
                0int
            } else if old(self).cursor_spec() < final(self).cur_page_len() {
                old(self).cursor_spec()
            } else {
                final(self).cur_page_len() - 1
            },
            final(self).mode_spec() == old(self).mode_spec(),
            final(self).buffer_view() == old(self).buffer_view(),
            final(self).hints_view() is None,
            final(self).page_size_spec() == old(self).page_size_spec(),
            final(self).opts_spec() == old(self).opts_spec(),
    {
        proof {
            lemma_chunks_cover(indexes@, self.page_size as int);
        }
        self.pages = Self::calc_pages(indexes, self.page_size);
        self.page = 0;
        proof {
            assert forall|k: int|
                0 <= k < self.pages@.len() implies 1 <= (#[trigger] self.pages@[k])@.len()
                <= self.page_size by {
                assert(self.pages_views()[k] == self.pages@[k]@);
            }
        }
        self.align_cursor();
    }

    /// Go one page back, saturating at page 0, and realign the cursor.
    pub fn previous_page(&mut self)
        requires
            old(self).wf(),
            old(self).hints_view() is None,
        ensures
            final(self).wf(),
            final(self).page_spec() == if old(self).page_spec() == 0 {
                0int
            } else {
                old(self).page_spec() - 1
            },
            final(self).cursor_spec() == if final(self).cur_page_len() == 0 {
                0int
            } else if old(self).cursor_spec() < final(self).cur_page_len() {
                old(self).cursor_spec()
            } else {
                final(self).cur_page_len() - 1
            },
            final(self).pages_views() == old(self).pages_views(),
            final(self).mode_spec() == old(self).mode_spec(),
            final(self).buffer_view() == old(self).buffer_view(),
            final(self).hints_view() is None,
            final(self).page_size_spec() == old(self).page_size_spec(),
            final(self).opts_spec() == old(self).opts_spec(),
    {
        self.page = Self::saturating_decrement(self.page);
        self.align_cursor();
    }

    /// Go one page forward, saturating at the last page, and realign the
    /// cursor.
    pub fn next_page(&mut self)
        requires
            old(self).wf(),
            old(self).hints_view() is None,
        ensures
            final(self).wf(),
            final(self).page_spec() == if old(self).pages_views().len() == 0 {
                0int
            } else if old(self).page_spec() + 1 < old(self).pages_views().len() {
                old(self).page_spec() + 1
            } else {
                old(self).pages_views().len() - 1
            },
            final(self).cursor_spec() == if final(self).cur_page_len() == 0 {
                0int
            } else if old(self).cursor_spec() < final(self).cur_page_len() {
                old(self).cursor_spec()
            } else {
                final(self).cur_page_len() - 1
            },
            final(self).pages_views() == old(self).pages_views(),
            final(self).mode_spec() == old(self).mode_spec(),
            final(self).buffer_view() == old(self).buffer_view(),
            final(self).hints_view() is None,
            final(self).page_size_spec() == old(self).page_size_spec(),
            final(self).opts_spec() == old(self).opts_spec(),
    {
        let last = if self.pages.len() == 0 {
            0
        } else {
            self.pages.len() - 1
        };
        self.page = Self::increment_to_max(self.page, last);
        self.align_cursor();
    }

    /// The current page's ground indices, or `None` when there is no page.
    pub fn page(&self) -> (r: Option<&Vec<usize>>)
        ensures
            match r {
                Some(p) => self.page_spec() < self.pages_views().len() && p@ == self.cur_page(),
                None => self.page_spec() >= self.pages_views().len(),
            },
    {
        if self.page < self.pages.len() {
            Some(&self.pages[self.page])
        } else {
            None
        }
    }

    /// Number of pages.
    pub fn num_pages(&self) -> (r: usize)
        ensures
            r == self.pages_views().len(),
    {
        self.pages.len()
    }

    /// A copy of the current page's ground indices (empty when there is no
    /// page).
    pub fn page_indices(&self) -> (r: Vec<usize>)
        ensures
            r@ == self.cur_page(),
    {
        let mut r: Vec<usize> = Vec::new();
        if self.page >= self.pages.len() {
            proof {
                assert(r@ =~= self.cur_page());
            }
            return r;
        }
        let p = &self.pages[self.page];
        let mut k: usize = 0;
        while k < p.len()
            invariant
                k <= p.len(),
                p@ == self.cur_page(),
                r@ == p@.subrange(0, k as int),
            decreases p.len() - k,
        {
            r.push(p[k]);
            proof {
                assert(p@.subrange(0, (k + 1) as int) =~= p@.subrange(0, k as int).push(
                    p@[k as int],
                ));
            }
            k += 1;
        }
        proof {
            assert(p@.subrange(0, p@.len() as int) =~= p@);
        }
        r
    }

    /// The current page number.
    pub fn current_page(&self) -> (r: usize)
        ensures
            r == self.page_spec(),
    {
        self.page
    }

    /// Replace the input buffer wholesale (used to seed filter editing from
    /// the applied filter text).
    pub fn set_input_buffer(&mut self, s: String)
        requires
            old(self).wf(),
        ensures
            final(self).wf(),
            final(self).buffer_view() == s@,
            Ui::same_but_buffer(*old(self), *final(self)),
    {
        self.input_buffer = s;
    }

    /// Empty the input buffer.
    pub fn clear_input_buffer(&mut self)
        requires
            old(self).wf(),
        ensures
            final(self).wf(),
            final(self).buffer_view() == Seq::<char>::empty(),
            Ui::same_but_buffer(*old(self), *final(self)),
    {
        self.input_buffer = String::new();
    }

    /// Append one character to the input buffer.
    pub fn push_to_input_buffer(&mut self, c: char)
        requires
            old(self).wf(),
        ensures
            final(self).wf(),
            final(self).buffer_view() == old(self).buffer_view().push(c),
            Ui::same_but_buffer(*old(self), *final(self)),
    {
        self.input_buffer.push(c);
    }

    /// Drop the last character of the input buffer, if any.
    pub fn pop_from_input_buffer(&mut self)
        requires
            old(self).wf(),
        ensures
            final(self).wf(),
            final(self).buffer_view() == if old(self).buffer_view().len() == 0 {
                old(self).buffer_view()
            } else {
                old(self).buffer_view().drop_last()
            },
            Ui::same_but_buffer(*old(self), *final(self)),
    {
        let _ = self.input_buffer.pop();
    }

    /// Place the cursor on the first record whose seed column matches the
    /// configured regular expression, while the viewport still shows every
    /// record. Leaves the viewport unchanged when nothing matches.
    pub fn seed_cursor(
        &mut self,
        picker: &crate::picker::Picker,
        matcher: &crate::seed::SeedMatcher,
        column: usize,
    )
        requires
            old(self).wf(),
            old(self).hints_view() is None,
            old(self).pages_views() == spec_chunks(
                identity_seq(picker.num_lines()),
                old(self).page_size_spec(),
            ),
        ensures
            final(self).wf(),
            final(self).mode_spec() == old(self).mode_spec(),
            final(self).buffer_view() == old(self).buffer_view(),
            final(self).hints_view() is None,
            final(self).pages_views() == old(self).pages_views(),
            final(self).page_size_spec() == old(self).page_size_spec(),
            final(self).opts_spec() == old(self).opts_spec(),
            ({
                let g = crate::picker::first_match_from(
                    picker.lines_view(),
                    matcher.pattern_view(),
                    column as int,
                    0,
                );
                if g >= 0 {
                    final(self).page_spec() == g / old(self).page_size_spec()
                        && final(self).cursor_spec() == g % old(self).page_size_spec()
                } else {
                    final(self).page_spec() == old(self).page_spec() && final(self).cursor_spec()
                        == old(self).cursor_spec()
                }
            }),
    {
        let ghost pat = matcher.pattern_view();
        let ghost col = column as int;
        let ghost all = picker.lines_view();
        let lines = picker.lines();
        let mut i: usize = 0;
        while i < lines.len()
            invariant
                i <= lines.len(),
                *self == *old(self),
                old(self).wf(),
                old(self).hints_view() is None,
                old(self).pages_views() == spec_chunks(
                    identity_seq(picker.num_lines()),
                    old(self).page_size_spec(),
                ),
                lines@ == all,
                all == picker.lines_view(),
                pat == matcher.pattern_view(),
                col == column as int,
                crate::picker::first_match_from(all, pat, col, 0)
                    == crate::picker::first_match_from(all, pat, col, i as int),
            decreases lines.len() - i,
        {
            if lines[i].matches_regex(matcher, column) {
                proof {
                    assert(crate::picker::first_match_from(all, pat, col, i as int) == i);
                    lemma_chunks_index(
                        identity_seq(picker.num_lines()),
                        self.page_size as int,
                        i as int,
                    );
                    assert(identity_seq(picker.num_lines())[i as int] == i);
                }
                let p = i / self.page_size;
                let c = i % self.page_size;
                self.page = p;
                self.cursor = c;
                proof {
                    assert(self.pages_views()[p as int] == self.pages@[p as int]@);
                }
                return ;
            }
            i += 1;
        }
        proof {
            assert(crate::picker::first_match_from(all, pat, col, i as int) == -1);
        }
    }

    /// Allowed mode changes: every cross-mode move passes through Normal.
    pub open spec fn mode_transition_ok(from: Mode, to: Mode) -> bool {
        from is Normal || to is Normal
    }

    /// Switch the interaction mode. Entering Hint mode computes the hint
    /// codes for the current page and clears the input buffer; leaving it
    /// discards them and clears the buffer again.
    pub fn change_mode(&mut self, mode: Mode)
        requires
            old(self).wf(),
            Ui::mode_transition_ok(old(self).mode_spec(), mode),
        ensures
            final(self).wf(),
            final(self).mode_spec() == mode,
            final(self).cursor_spec() == old(self).cursor_spec(),
            final(self).page_spec() == old(self).page_spec(),
            final(self).page_size_spec() == old(self).page_size_spec(),
            final(self).pages_views() == old(self).pages_views(),
            final(self).opts_spec() == old(self).opts_spec(),
            (match (old(self).mode_spec(), mode) {
                (Mode::Normal, Mode::Hint(_)) => {
                    &&& final(self).buffer_view() == Seq::<char>::empty()
                    &&& (old(self).cur_page_len() >= 1 ==> final(self).hints_view() == Some(
                        spec_page_hints(
                            old(self).cur_page_len(),
                            old(self).opts_spec().hint_alphabet@,
                        ),
                    ))
                    &&& (old(self).cur_page_len() == 0 ==> final(self).hints_view() is None)
                },
                (Mode::Hint(_), Mode::Normal) => {
                    &&& final(self).buffer_view() == Seq::<char>::empty()
                    &&& final(self).hints_view() is None
                },
                _ => {
                    &&& final(self).buffer_view() == old(self).buffer_view()
                    &&& final(self).hints_view() == old(self).hints_view()
                },
            }),
    {
        let entering = match (&self.mode, &mode) {
            (Mode::Normal, Mode::Hint(_)) => true,
            _ => false,
        };
        let leaving = match (&self.mode, &mode) {
            (Mode::Hint(_), Mode::Normal) => true,
            _ => false,
        };
        if entering {
            let alphabet = chars_of(self.opts.hint_alphabet.as_str());
            let h = self.calculate_hints(&alphabet);
            self.hints = h;
            self.input_buffer = String::new();
        } else if leaving {
            self.hints = None;
            self.input_buffer = String::new();
        }
        self.mode = mode;
    }

    /// Compare the input buffer against every hint code by prefix. The first
    /// component is the slot of the exactly matched code, if any; the second
    /// says whether the buffer is a prefix of at least one code.
    #[verifier::rlimit(30)]
    #[verifier::spinoff_prover]
    pub fn match_hint(&self) -> (r: (Option<usize>, bool))
        requires
            self.wf(),
        ensures
            match self.hints_view() {
                None => r == (None::<usize>, false),
                Some(codes) => {
                    &&& (r.0 is Some <==> exists|t: int|
                        0 <= t < codes.len() && #[trigger] codes[t] == self.buffer_view())
                    &&& (forall|t: int|
                        0 <= t < codes.len() && #[trigger] codes[t] == self.buffer_view()
                            ==> r.0 == Some(t as usize))
                    &&& (r.0 is Some ==> r.0->0 < codes.len() && codes[r.0->0 as int]
                        == self.buffer_view())
                    &&& (r.1 <==> exists|t: int|
                        0 <= t < codes.len() && self.buffer_view().is_prefix_of(
                            #[trigger] codes[t],
                        ))
                },
            },
    {
        let codes = match &self.hints {
            Some(c) => c,
            None => {
                return (None, false);
            },
        };
        let ghost views = string_views(codes@);
        let mut valid = false;
        let mut k: usize = 0;
        while k < codes.len()
            invariant
                k <= codes.len(),
                self.wf(),
                self.hints == Some(*codes),
                views == string_views(codes@),
                valid <==> exists|t: int|
                    0 <= t < k && self.buffer_view().is_prefix_of(#[trigger] views[t]),
                forall|t: int| 0 <= t < k ==> #[trigger] views[t] != self.buffer_view(),
            decreases codes.len() - k,
        {
            proof {
                assert(views[k as int] == codes@[k as int]@);
            }
            if str_is_prefix(self.input_buffer.as_str(), codes[k].as_str()) {
                valid = true;
                if self.input_buffer == codes[k] {
                    proof {
                        let cviews = self.hints_view()->0;
                        assert(cviews =~~= views);
                        assert(cviews[k as int] == self.buffer_view());
                        assert(cviews[k as int].subrange(
                            0,
                            self.buffer_view().len() as int,
                        ) =~= self.buffer_view());
                        assert(self.buffer_view().is_prefix_of(cviews[k as int]));
                        assert forall|t: int|
                            0 <= t < cviews.len() && #[trigger] cviews[t] == self.buffer_view()
                            implies t == k as int by {
                            if t != k as int {
                                if t < k as int {
                                    assert(views[t] != views[k as int]);
                                } else {
                                    assert(views[k as int] != views[t]);
                                }
                            }
                        }
                    }
                    return (Some(k), true);
                }
            }
            k += 1;
        }
        (None, valid)
    }

    /// The hint code assigned to a page slot, while hints are displayed.
    pub fn get_hint(&self, i: usize) -> (r: Option<String>)
        ensures
            match self.hints_view() {
                Some(codes) => {
                    &&& (r is Some <==> (i as int) < codes.len())
                    &&& (r is Some ==> r->0@ == codes[i as int])
                },
                None => r is None,
            },
    {
        match &self.hints {
            Some(map) => {
                if i < map.len() {
                    Some(map[i].clone())
                } else {
                    None
                }
            },
            None => None,
        }
    }

    /// The hint codes for the current page: one minimal-length code per
    /// slot, drawn from the full code space at even spacing. `None` exactly
    /// when there is no slot to hint.
    pub fn calculate_hints(&self, alphabet: &Vec<char>) -> (r: Option<Vec<String>>)
        requires
            self.wf(),
            alphabet@.len() >= 2,
            distinct_chars(alphabet@),
        ensures
            r is Some <==> self.cur_page_len() >= 1,
            match r {
                Some(codes) => {
                    &&& string_views(codes@) == spec_page_hints(self.cur_page_len(), alphabet@)
                    &&& codes@.len() == self.cur_page_len()
                    &&& is_hint_len(
                        self.cur_page_len(),
                        alphabet@.len() as int,
                        spec_hint_len(self.cur_page_len(), alphabet@.len() as int),
                    )
                    &&& (forall|i: int|
                        0 <= i < codes@.len() ==> (#[trigger] codes@[i])@.len() == spec_hint_len(
                            self.cur_page_len(),
                            alphabet@.len() as int,
                        ))
                    &&& (forall|i: int, j: int|
                        0 <= i < j < codes@.len() ==> (#[trigger] codes@[i])@ != (
                        #[trigger] codes@[j])@)
                },
                None => true,
            },
    {
        if self.page >= self.pages.len() {
            return None;
        }
        let m = self.pages[self.page].len();
        proof {
            assert(self.cur_page_len() == m);
        }
        let (l, total) = hint_params(m, alphabet.len());
        let ghost n_int = alphabet@.len() as int;
        let ghost l_nat = l as nat;
        proof {
            lemma_hint_len_agrees(m as int, n_int, l_nat);
            lemma_spacing(m as int, n_int, l_nat);
        }
        let spacing = total / (m as u128);
        let mut codes: Vec<String> = Vec::new();
        let mut i: usize = 0;
        while i < m
            invariant
                i <= m,
                1 <= m,
                alphabet@.len() >= 2,
                distinct_chars(alphabet@),
                n_int == alphabet@.len() as int,
                l_nat == l as nat,
                is_hint_len(m as int, n_int, l_nat),
                total == pow(n_int, l_nat),
                spacing as int == pow(n_int, l_nat) / (m as int),
                codes@.len() == i,
                forall|k: int|
                    0 <= k < i ==> (#[trigger] codes@[k])@ == hint_code_at(
                        k,
                        m as int,
                        l_nat,
                        alphabet@,
                    ),
            decreases m - i,
        {
            proof {
                lemma_hint_value_plain(i as int, m as int, n_int, l_nat);
            }
            let idx = (i as u128) * spacing;
            let code = Self::index_to_hint(idx, alphabet, l);
            codes.push(code);
            i += 1;
        }
        proof {
            lemma_hint_len_agrees(m as int, n_int, l_nat);
            assert(string_views(codes@) =~~= spec_page_hints(m as int, alphabet@));
            assert forall|a: int|
                0 <= a < codes@.len() implies (#[trigger] codes@[a])@.len() == spec_hint_len(
                m as int,
                n_int,
            ) by {
                lemma_encode_len(
                    crate::hints::hint_value(a, m as int, n_int, l_nat),
                    n_int,
                    l_nat,
                    alphabet@,
                );
            }
            assert forall|a: int, b: int|
                0 <= a < b < codes@.len() implies (#[trigger] codes@[a])@ != (
            #[trigger] codes@[b])@ by {
                lemma_hint_codes_unique(m as int, l_nat, alphabet@, a, b);
            }
        }
        Some(codes)
    }

    /// One base-n digit of the code per position, most significant first.
    pub fn index_to_hint(value: u128, alphabet: &Vec<char>, length: usize) -> (r: String)
        requires
            alphabet@.len() >= 2,
        ensures
            r@ == crate::hints::encode(
                value as int,
                alphabet@.len() as int,
                length as nat,
                alphabet@,
            ),
        decreases length,
    {
        if length == 0 {
            String::new()
        } else {
            let n = alphabet.len() as u128;
            let q = value / n;
            let mut s = Self::index_to_hint(q, alphabet, length - 1);
            let d = (value % n) as usize;
            s.push(alphabet[d]);
            proof {
                let ghost e = crate::hints::encode(
                    value as int,
                    alphabet@.len() as int,
                    length as nat,
                    alphabet@,
                );
                assert(s@ =~= e);
            }
            s
        }
    }

    /// Saturating decrement.
    pub fn saturating_decrement(n: usize) -> (r: usize)
        ensures
            r == if n == 0 {
                0usize
            } else {
                (n - 1) as usize
            },
    {
        if n == 0 {
            0
        } else {
            n - 1
        }
    }

    /// Increment capped at `max`.
    pub fn increment_to_max(n: usize, max: usize) -> (r: usize)
        ensures
            r == if n + 1 < max {
                (n + 1) as usize
            } else {
                max
            },
    {
        if n < max {
            n + 1
        } else {
            max
        }
    }
}

} // verus!
