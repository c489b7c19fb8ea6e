//! The layout of a line that is already decoded into glyphs: which columns each
//! glyph takes, which cells a window of columns shows, which bytes are visible
//! in it, and which cells a byte range of the line takes.
use vstd::prelude::*;

use crate::utf8;
use crate::width;

verus! {

/// `String::push` appends one character.
pub assume_specification[ String::push ](s: &mut String, ch: char)
    ensures
        final(s)@ == old(s)@.push(ch),
;

/// One decoded piece of a line: a character, how many bytes of the line it
/// stands for, and how many columns it takes when it is shown as itself.
#[derive(Debug, Clone, Copy, PartialEq, Eq, Structural)]
pub struct Glyph {
    pub ch: char,
    pub bytes: usize,
    pub width: usize,
}

/// One display cell: a character and the columns it takes.
#[derive(Debug, Clone, Copy, PartialEq, Eq, Structural)]
pub struct Cell {
    pub ch: char,
    pub width: usize,
}

// ---------------------------------------------------------------------------
// The model of a laid-out line.

/// The ASCII controls, the ones that are shown in caret notation (a tab is
/// expanded instead).
pub open spec fn is_control(ch: char) -> bool {
    (ch as u32) < 0x20 || ch as u32 == 0x7f
}

/// The character that follows `^` in the caret notation of a control.
pub open spec fn caret_of(ch: char) -> char {
    if ch as u32 == 0x7f {
        '?'
    } else {
        ((ch as u32 + 0x40) as u32) as char
    }
}

/// How many columns a glyph takes when it starts at column `col`: a tab
/// reaches to the next tab stop, a control takes the two cells of its caret
/// notation.
pub open spec fn advance(g: Glyph, col: int, tab_stop: int) -> int {
    if g.ch == '\t' {
        (col / tab_stop + 1) * tab_stop - col
    } else if is_control(g.ch) {
        2
    } else {
        g.width as int
    }
}

/// The column at which glyph `i` starts.
pub open spec fn column(gs: Seq<Glyph>, tab_stop: int, i: int) -> int
    decreases i,
{
    if i <= 0 {
        0
    } else {
        let before = column(gs, tab_stop, i - 1);
        before + advance(gs[i - 1], before, tab_stop)
    }
}

/// The byte at which glyph `i` starts.
pub open spec fn byte_offset(gs: Seq<Glyph>, i: int) -> int
    decreases i,
{
    if i <= 0 {
        0
    } else {
        byte_offset(gs, i - 1) + gs[i - 1].bytes
    }
}

/// The window's right edge is reached and glyph `i` takes columns of its own,
/// so the layout ends before it. A glyph without columns combines with the cell
/// before it and never ends the layout.
pub open spec fn past_edge(gs: Seq<Glyph>, tab_stop: int, end: int, i: int) -> bool {
    column(gs, tab_stop, i) >= end && advance(gs[i], column(gs, tab_stop, i), tab_stop) > 0
}

/// The first glyph, from `i` on, that is past the edge `end`.
pub open spec fn laid_out_from(gs: Seq<Glyph>, tab_stop: int, end: int, i: int) -> int
    decreases gs.len() - i,
{
    if i >= gs.len() || past_edge(gs, tab_stop, end, i) {
        i
    } else {
        laid_out_from(gs, tab_stop, end, i + 1)
    }
}

/// How many glyphs are laid out for a window that ends at column `end`.
pub open spec fn laid_out(gs: Seq<Glyph>, tab_stop: int, end: int) -> int {
    laid_out_from(gs, tab_stop, end, 0)
}

/// The cells of a glyph that starts at column `col`.
pub open spec fn glyph_cells(g: Glyph, col: int, tab_stop: int) -> Seq<Cell> {
    if g.ch == '\t' {
        Seq::new(advance(g, col, tab_stop) as nat, |k: int| Cell { ch: ' ', width: 1 })
    } else if is_control(g.ch) {
        seq![Cell { ch: '^', width: 1 }, Cell { ch: caret_of(g.ch), width: 1 }]
    } else {
        seq![Cell { ch: g.ch, width: g.width }]
    }
}

/// The cells of the first `n` glyphs.
pub open spec fn cells_of(gs: Seq<Glyph>, tab_stop: int, n: int) -> Seq<Cell>
    decreases n,
{
    if n <= 0 {
        Seq::empty()
    } else {
        cells_of(gs, tab_stop, n - 1) + glyph_cells(
            gs[n - 1],
            column(gs, tab_stop, n - 1),
            tab_stop,
        )
    }
}

/// The column at which cell `i` starts.
pub open spec fn cell_start(cs: Seq<Cell>, i: int) -> int
    decreases i,
{
    if i <= 0 {
        0
    } else {
        cell_start(cs, i - 1) + cs[i - 1].width
    }
}

/// What a cell that starts at column `start` shows in the window
/// `[skip, end)`: itself when all of it is inside, a single blank when it
/// straddles an edge, nothing when it is outside. A cell without columns
/// belongs to the cell before it, so one that starts exactly at the right edge
/// is still shown.
pub open spec fn cell_text(c: Cell, start: int, skip: int, end: int) -> Seq<char> {
    let stop = start + c.width;
    if stop <= skip {
        Seq::empty()
    } else if start < end {
        if start < skip || stop > end {
            seq![' ']
        } else {
            seq![c.ch]
        }
    } else if start == end && c.width == 0 {
        seq![c.ch]
    } else {
        Seq::empty()
    }
}

/// What the first `n` cells show in the window `[skip, end)`.
pub open spec fn window_text(cs: Seq<Cell>, skip: int, end: int, n: int) -> Seq<char>
    decreases n,
{
    if n <= 0 {
        Seq::empty()
    } else {
        window_text(cs, skip, end, n - 1) + cell_text(
            cs[n - 1],
            cell_start(cs, n - 1),
            skip,
            end,
        )
    }
}

/// The text of a line in the window `[skip, end)`.
pub open spec fn row_text(gs: Seq<Glyph>, tab_stop: int, skip: int, end: int) -> Seq<char> {
    let cs = cells_of(gs, tab_stop, laid_out(gs, tab_stop, end));
    window_text(cs, skip, end, cs.len() as int)
}

/// Glyph `i` takes a column of the window `[skip, end)`.
pub open spec fn in_window(gs: Seq<Glyph>, tab_stop: int, skip: int, end: int, i: int) -> bool {
    column(gs, tab_stop, i + 1) > skip && column(gs, tab_stop, i) < end
}

/// `[from, to)` are the bytes of the glyphs that take a column of the window
/// `[skip, end)`, and of every glyph between two such; the empty range at 0 when
/// there is no such glyph.
pub open spec fn shown_bytes(
    gs: Seq<Glyph>,
    tab_stop: int,
    skip: int,
    end: int,
    from: int,
    to: int,
) -> bool {
    if exists|i: int| 0 <= i < gs.len() && #[trigger] in_window(gs, tab_stop, skip, end, i) {
        exists|first: int, last: int|
            {
                &&& 0 <= first <= last < gs.len()
                &&& #[trigger] in_window(gs, tab_stop, skip, end, first)
                &&& #[trigger] in_window(gs, tab_stop, skip, end, last)
                &&& forall|i: int|
                    0 <= i < gs.len() && #[trigger] in_window(gs, tab_stop, skip, end, i) ==> first
                        <= i <= last
                &&& from == byte_offset(gs, first)
                &&& to == byte_offset(gs, last + 1)
            }
    } else {
        from == 0 && to == 0
    }
}

/// The first of the glyphs `i..n` that reaches past byte `byte`, or `n`.
pub open spec fn glyph_at_from(gs: Seq<Glyph>, n: int, byte: int, i: int) -> int
    decreases n - i,
{
    if i >= n || byte_offset(gs, i + 1) > byte {
        i
    } else {
        glyph_at_from(gs, n, byte, i + 1)
    }
}

/// Which of the first `n` glyphs holds byte `byte`; `n` when none does.
pub open spec fn glyph_at(gs: Seq<Glyph>, n: int, byte: int) -> int {
    glyph_at_from(gs, n, byte, 0)
}

pub open spec fn clamp(x: int, lo: int, hi: int) -> int {
    if x < lo {
        lo
    } else if x > hi {
        hi
    } else {
        x
    }
}

/// The visible cells of the byte range `[from, to)`, counted from the window's
/// left edge.
///
/// An empty range sits before the glyph that holds its byte, or after
/// everything that was laid out, and takes the one cell there; outside the
/// window it is not shown. Any other range reaches from the start of its first
/// glyph to the end of its last one, cut to the window; bytes that no glyph
/// stands for add nothing to it.
pub open spec fn mark_span(
    gs: Seq<Glyph>,
    tab_stop: int,
    skip: int,
    end: int,
    from: int,
    to: int,
) -> Option<(int, int)> {
    let n = laid_out(gs, tab_stop, end);
    let first = glyph_at(gs, n, from);
    if from >= to {
        let at = column(gs, tab_stop, first);
        if skip <= at < end {
            Some((at - skip, at - skip + 1))
        } else {
            None
        }
    } else {
        let last = glyph_at(gs, n, to - 1);
        let lo = clamp(
            if first < n {
                column(gs, tab_stop, first)
            } else {
                end
            },
            skip,
            end,
        );
        let hi = clamp(
            if last < n {
                column(gs, tab_stop, last + 1)
            } else {
                column(gs, tab_stop, n)
            },
            skip,
            end,
        );
        if lo < hi {
            Some((lo - skip, hi - skip))
        } else {
            None
        }
    }
}

/// Adds a span to a list of spans, growing the last one when the new span
/// touches or overlaps it.
pub open spec fn merge_span(spans: Seq<(int, int)>, next: Option<(int, int)>) -> Seq<(int, int)> {
    match next {
        None => spans,
        Some(s) => if spans.len() > 0 && s.0 <= spans.last().1 {
            let last = spans.last();
            spans.update(
                spans.len() - 1,
                (
                    last.0,
                    if last.1 < s.1 {
                        s.1
                    } else {
                        last.1
                    },
                ),
            )
        } else {
            spans.push(s)
        },
    }
}

/// The spans of the first `k` marks, merged.
pub open spec fn row_spans(
    gs: Seq<Glyph>,
    tab_stop: int,
    skip: int,
    end: int,
    marks: Seq<(int, int)>,
    k: int,
) -> Seq<(int, int)>
    decreases k,
{
    if k <= 0 {
        Seq::empty()
    } else {
        merge_span(
            row_spans(gs, tab_stop, skip, end, marks, k - 1),
            mark_span(
                gs,
                tab_stop,
                skip,
                end,
                marks[k - 1].0,
                marks[k - 1].1,
            ),
        )
    }
}

/// Ranges of bytes as pairs of integers.
pub open spec fn ranges(v: Seq<std::ops::Range<usize>>) -> Seq<(int, int)> {
    v.map_values(|r: std::ops::Range<usize>| (r.start as int, r.end as int))
}

/// Ranges of cells as pairs of integers.
pub open spec fn pairs(v: Seq<std::ops::Range<u16>>) -> Seq<(int, int)> {
    v.map_values(|r: std::ops::Range<u16>| (r.start as int, r.end as int))
}

/// The glyphs of a line: its tokens, each with its width.
pub open spec fn glyphs_of(s: Seq<u8>) -> Seq<Glyph>
    decreases s.len(),
{
    if s.len() == 0 || utf8::token_len(s) == 0 {
        Seq::empty()
    } else {
        seq![first_glyph(s)] + glyphs_of(s.skip(utf8::token_len(s) as int))
    }
}

/// The glyph that the non-empty `s` begins with.
pub open spec fn first_glyph(s: Seq<u8>) -> Glyph {
    Glyph {
        ch: utf8::token_char(s),
        bytes: utf8::token_len(s) as usize,
        width: width::columns_of(utf8::token_char(s)) as usize,
    }
}

/// The right edge of the window of `cols` columns at `skip`; the largest column
/// there is where the sum would exceed it.
pub open spec fn window_end(skip: int, cols: int) -> int {
    if skip + cols > usize::MAX {
        usize::MAX as int
    } else {
        skip + cols
    }
}

/// A tab stop of zero counts as one.
pub open spec fn at_least_one(tab_stop: int) -> int {
    if tab_stop < 1 {
        1
    } else {
        tab_stop
    }
}

// ---------------------------------------------------------------------------
// Facts about the model.

/// A tab moves forward by at least one column and by no more than a tab stop.
proof fn lemma_tab_advance(col: int, tab_stop: int)
    requires
        0 <= col,
        1 <= tab_stop,
    ensures
        1 <= (col / tab_stop + 1) * tab_stop - col <= tab_stop,
{
    vstd::arithmetic::div_mod::lemma_fundamental_div_mod(col, tab_stop);
    vstd::arithmetic::div_mod::lemma_mod_bound(col, tab_stop);
    assert((col / tab_stop + 1) * tab_stop == tab_stop * (col / tab_stop) + tab_stop)
        by (nonlinear_arith);
}

pub(crate) proof fn lemma_advance_bounds(g: Glyph, col: int, tab_stop: int)
    requires
        0 <= col,
        1 <= tab_stop,
    ensures
        0 <= advance(g, col, tab_stop),
        g.ch == '\t' ==> 1 <= advance(g, col, tab_stop) <= tab_stop,
{
    if g.ch == '\t' {
        lemma_tab_advance(col, tab_stop);
    }
}

/// Columns never decrease from one glyph to a later one.
pub(crate) proof fn lemma_column_grows(gs: Seq<Glyph>, tab_stop: int, i: int, j: int)
    requires
        0 <= i <= j,
        1 <= tab_stop,
    ensures
        0 <= column(gs, tab_stop, i) <= column(gs, tab_stop, j),
    decreases j,
{
    if j > 0 {
        if i < j {
            lemma_column_grows(gs, tab_stop, i, j - 1);
            lemma_advance_bounds(gs[j - 1], column(gs, tab_stop, j - 1), tab_stop);
        } else {
            lemma_column_grows(gs, tab_stop, j - 1, j - 1);
            lemma_advance_bounds(gs[j - 1], column(gs, tab_stop, j - 1), tab_stop);
        }
    }
}

pub(crate) proof fn lemma_byte_offset_grows(gs: Seq<Glyph>, i: int, j: int)
    requires
        0 <= i <= j,
    ensures
        0 <= byte_offset(gs, i) <= byte_offset(gs, j),
    decreases j,
{
    if j > 0 {
        if i < j {
            lemma_byte_offset_grows(gs, i, j - 1);
        } else {
            lemma_byte_offset_grows(gs, j - 1, j - 1);
        }
    }
}

/// The layout ends at the first glyph past the edge, and nowhere before it.
pub(crate) proof fn lemma_laid_out(gs: Seq<Glyph>, tab_stop: int, end: int, i: int)
    requires
        0 <= i <= gs.len(),
    ensures
        i <= laid_out_from(gs, tab_stop, end, i) <= gs.len(),
        forall|k: int|
            i <= k < laid_out_from(gs, tab_stop, end, i) ==> !#[trigger] past_edge(
                gs,
                tab_stop,
                end,
                k,
            ),
        laid_out_from(gs, tab_stop, end, i) < gs.len() ==> past_edge(
            gs,
            tab_stop,
            end,
            laid_out_from(gs, tab_stop, end, i),
        ),
    decreases gs.len() - i,
{
    if i >= gs.len() || past_edge(gs, tab_stop, end, i) {
    } else {
        lemma_laid_out(gs, tab_stop, end, i + 1);
    }
}

/// Glyphs before the first one past the edge do not change where the layout
/// ends.
pub(crate) proof fn lemma_laid_out_skips(gs: Seq<Glyph>, tab_stop: int, end: int, i: int)
    requires
        0 <= i <= gs.len(),
        forall|k: int| 0 <= k < i ==> !#[trigger] past_edge(gs, tab_stop, end, k),
    ensures
        laid_out(gs, tab_stop, end) == laid_out_from(gs, tab_stop, end, i),
    decreases i,
{
    if i > 0 {
        lemma_laid_out_skips(gs, tab_stop, end, i - 1);
    }
}

proof fn lemma_cell_start_grows(cs: Seq<Cell>, i: int, j: int)
    requires
        0 <= i <= j,
    ensures
        0 <= cell_start(cs, i) <= cell_start(cs, j),
    decreases j,
{
    if j > 0 {
        if i < j {
            lemma_cell_start_grows(cs, i, j - 1);
        } else {
            lemma_cell_start_grows(cs, j - 1, j - 1);
        }
    }
}

/// Cells keep their columns when more cells follow.
pub(crate) proof fn lemma_cell_start_prefix(cs: Seq<Cell>, more: Seq<Cell>, i: int)
    requires
        0 <= i <= cs.len(),
    ensures
        cell_start(cs + more, i) == cell_start(cs, i),
    decreases i,
{
    if i > 0 {
        lemma_cell_start_prefix(cs, more, i - 1);
        assert((cs + more)[i - 1] == cs[i - 1]);
    }
}

/// Blanks of one column each.
pub(crate) proof fn lemma_blanks_width(cs: Seq<Cell>, blanks: Seq<Cell>, k: int)
    requires
        0 <= k <= blanks.len(),
        forall|i: int| 0 <= i < blanks.len() ==> (#[trigger] blanks[i]).width == 1,
    ensures
        cell_start(cs + blanks, cs.len() + k) == cell_start(cs, cs.len() as int) + k,
    decreases k,
{
    if k > 0 {
        lemma_blanks_width(cs, blanks, k - 1);
        assert((cs + blanks)[cs.len() + k - 1] == blanks[k - 1]);
    } else {
        lemma_cell_start_prefix(cs, blanks, cs.len() as int);
    }
}

/// The cells of the first `n` glyphs end at the column where glyph `n` starts.
pub(crate) proof fn lemma_cells_end_at_column(gs: Seq<Glyph>, tab_stop: int, n: int)
    requires
        0 <= n <= gs.len(),
        1 <= tab_stop,
    ensures
        cell_start(cells_of(gs, tab_stop, n), cells_of(gs, tab_stop, n).len() as int) == column(
            gs,
            tab_stop,
            n,
        ),
    decreases n,
{
    if n > 0 {
        lemma_cells_end_at_column(gs, tab_stop, n - 1);
        lemma_column_grows(gs, tab_stop, n - 1, n - 1);
        let cs = cells_of(gs, tab_stop, n - 1);
        let col = column(gs, tab_stop, n - 1);
        let more = glyph_cells(gs[n - 1], col, tab_stop);
        lemma_advance_bounds(gs[n - 1], col, tab_stop);
        if gs[n - 1].ch == '\t' || is_control(gs[n - 1].ch) {
            lemma_blanks_width(cs, more, more.len() as int);
        } else {
            lemma_cell_start_prefix(cs, more, cs.len() as int);
            assert((cs + more)[cs.len() as int] == more[0]);
            assert(cell_start(cs + more, (cs.len() + 1) as int) == cell_start(cs, cs.len() as int)
                + more[0].width);
        }
    }
}

/// Cells that start past the right edge show nothing.
proof fn lemma_nothing_past_edge(cs: Seq<Cell>, skip: int, end: int, i: int, j: int)
    requires
        0 <= i <= j <= cs.len(),
        cell_start(cs, i) > end,
    ensures
        window_text(cs, skip, end, j) == window_text(cs, skip, end, i),
    decreases j,
{
    if i < j {
        lemma_nothing_past_edge(cs, skip, end, i, j - 1);
        lemma_cell_start_grows(cs, i, j - 1);
        assert(window_text(cs, skip, end, j) =~= window_text(cs, skip, end, i));
    }
}

pub(crate) proof fn lemma_glyph_at(gs: Seq<Glyph>, n: int, byte: int, i: int)
    requires
        0 <= i <= n,
    ensures
        i <= glyph_at_from(gs, n, byte, i) <= n,
        forall|k: int|
            i <= k < glyph_at_from(gs, n, byte, i) ==> #[trigger] byte_offset(gs, k + 1) <= byte,
        glyph_at_from(gs, n, byte, i) < n ==> byte_offset(gs, glyph_at_from(gs, n, byte, i) + 1)
            > byte,
    decreases n - i,
{
    if i >= n || byte_offset(gs, i + 1) > byte {
    } else {
        lemma_glyph_at(gs, n, byte, i + 1);
    }
}

/// A line cut off after its first glyphs keeps the columns, bytes and cells of
/// those glyphs.
pub(crate) proof fn lemma_cut_keeps_layout(gs: Seq<Glyph>, tab_stop: int, n: int, i: int)
    requires
        0 <= i <= n <= gs.len(),
    ensures
        column(gs.take(n), tab_stop, i) == column(gs, tab_stop, i),
        byte_offset(gs.take(n), i) == byte_offset(gs, i),
        cells_of(gs.take(n), tab_stop, i) == cells_of(gs, tab_stop, i),
    decreases i,
{
    if i > 0 {
        lemma_cut_keeps_layout(gs, tab_stop, n, i - 1);
        assert(gs.take(n)[i - 1] == gs[i - 1]);
    }
}

proof fn lemma_cut_keeps_glyph_at(gs: Seq<Glyph>, tab_stop: int, n: int, byte: int, i: int)
    requires
        0 <= i <= n <= gs.len(),
    ensures
        glyph_at_from(gs.take(n), n, byte, i) == glyph_at_from(gs, n, byte, i),
    decreases n - i,
{
    if i < n {
        lemma_cut_keeps_layout(gs, tab_stop, n, i + 1);
        lemma_cut_keeps_glyph_at(gs, tab_stop, n, byte, i + 1);
    }
}

/// Glyphs past the edge do not matter: the line cut off where its layout ends
/// is laid out as the whole line is.
pub(crate) proof fn lemma_only_laid_out_glyphs_matter(gs: Seq<Glyph>, tab_stop: int, end: int)
    requires
        1 <= tab_stop,
    ensures
        ({
            let n = laid_out(gs, tab_stop, end);
            let cut = gs.take(n);
            &&& 0 <= n <= gs.len()
            &&& laid_out(cut, tab_stop, end) == n
            &&& column(cut, tab_stop, n) == column(gs, tab_stop, n)
            &&& byte_offset(cut, n) == byte_offset(gs, n)
            &&& forall|skip: int| #[trigger]
                row_text(cut, tab_stop, skip, end) == row_text(gs, tab_stop, skip, end)
            &&& forall|skip: int, marks: Seq<(int, int)>, k: int| #[trigger]
                row_spans(cut, tab_stop, skip, end, marks, k) == row_spans(
                    gs,
                    tab_stop,
                    skip,
                    end,
                    marks,
                    k,
                )
            &&& forall|skip: int, from: int, to: int| #[trigger]
                shown_bytes(cut, tab_stop, skip, end, from, to) ==> shown_bytes(
                    gs,
                    tab_stop,
                    skip,
                    end,
                    from,
                    to,
                )
        }),
{
    let n = laid_out(gs, tab_stop, end);
    let cut = gs.take(n);
    lemma_laid_out(gs, tab_stop, end, 0);
    assert forall|i: int| 0 <= i < n implies !#[trigger] past_edge(cut, tab_stop, end, i) by {
        lemma_cut_keeps_layout(gs, tab_stop, n, i);
        assert(!past_edge(gs, tab_stop, end, i));
    }
    lemma_laid_out_skips(cut, tab_stop, end, n);
    lemma_cut_keeps_layout(gs, tab_stop, n, n);
    assert forall|skip: int, marks: Seq<(int, int)>, k: int| #[trigger]
        row_spans(cut, tab_stop, skip, end, marks, k) == row_spans(
            gs,
            tab_stop,
            skip,
            end,
            marks,
            k,
        ) by {
        lemma_cut_keeps_spans(gs, tab_stop, skip, end, marks, k);
    }
    assert forall|skip: int, from: int, to: int| #[trigger]
        shown_bytes(cut, tab_stop, skip, end, from, to) implies shown_bytes(
        gs,
        tab_stop,
        skip,
        end,
        from,
        to,
    ) by {
        assert forall|i: int| 0 <= i < n implies #[trigger] in_window(cut, tab_stop, skip, end, i)
            == in_window(gs, tab_stop, skip, end, i) by {
            lemma_cut_keeps_layout(gs, tab_stop, n, i);
            lemma_cut_keeps_layout(gs, tab_stop, n, i + 1);
        }
        assert forall|i: int| n <= i < gs.len() implies !#[trigger] in_window(
            gs,
            tab_stop,
            skip,
            end,
            i,
        ) by {
            lemma_column_grows(gs, tab_stop, n, i);
        }
        if exists|i: int| 0 <= i < gs.len() && #[trigger] in_window(gs, tab_stop, skip, end, i) {
            let i = choose|i: int|
                0 <= i < gs.len() && #[trigger] in_window(gs, tab_stop, skip, end, i);
            assert(in_window(cut, tab_stop, skip, end, i));
            let (first, last) = choose|first: int, last: int|
                {
                    &&& 0 <= first <= last < cut.len()
                    &&& #[trigger] in_window(cut, tab_stop, skip, end, first)
                    &&& #[trigger] in_window(cut, tab_stop, skip, end, last)
                    &&& forall|i: int|
                        0 <= i < cut.len() && #[trigger] in_window(cut, tab_stop, skip, end, i)
                            ==> first <= i <= last
                    &&& from == byte_offset(cut, first)
                    &&& to == byte_offset(cut, last + 1)
                };
            lemma_cut_keeps_layout(gs, tab_stop, n, first);
            lemma_cut_keeps_layout(gs, tab_stop, n, last + 1);
            assert(in_window(gs, tab_stop, skip, end, first));
            assert(in_window(gs, tab_stop, skip, end, last));
            assert forall|i: int|
                0 <= i < gs.len() && #[trigger] in_window(
                    gs,
                    tab_stop,
                    skip,
                    end,
                    i,
                ) implies first <= i <= last by {
                assert(in_window(cut, tab_stop, skip, end, i));
            }
        } else {
            assert forall|i: int| 0 <= i < cut.len() implies !#[trigger] in_window(
                cut,
                tab_stop,
                skip,
                end,
                i,
            ) by {
                assert(!in_window(gs, tab_stop, skip, end, i));
            }
        }
    }
}

/// Visible bytes are a range of the line's bytes.
pub(crate) proof fn lemma_shown_bytes_in_order(
    gs: Seq<Glyph>,
    tab_stop: int,
    skip: int,
    end: int,
    from: int,
    to: int,
)
    requires
        shown_bytes(gs, tab_stop, skip, end, from, to),
    ensures
        0 <= from <= to <= byte_offset(gs, gs.len() as int),
{
    lemma_byte_offset_grows(gs, 0, gs.len() as int);
    if exists|i: int| 0 <= i < gs.len() && #[trigger] in_window(gs, tab_stop, skip, end, i) {
        let (first, last) = choose|first: int, last: int|
            {
                &&& 0 <= first <= last < gs.len()
                &&& #[trigger] in_window(gs, tab_stop, skip, end, first)
                &&& #[trigger] in_window(gs, tab_stop, skip, end, last)
                &&& forall|i: int|
                    0 <= i < gs.len() && #[trigger] in_window(gs, tab_stop, skip, end, i) ==> first
                        <= i <= last
                &&& from == byte_offset(gs, first)
                &&& to == byte_offset(gs, last + 1)
            };
        lemma_byte_offset_grows(gs, first, last + 1);
        lemma_byte_offset_grows(gs, last + 1, gs.len() as int);
    }
}

/// Among the glyphs of which one is visible there is a first and a last one that
/// is.
proof fn lemma_outermost_in_window(
    gs: Seq<Glyph>,
    tab_stop: int,
    skip: int,
    end: int,
    n: int,
) -> (r: (int, int))
    requires
        0 <= n,
        exists|i: int| 0 <= i < n && #[trigger] in_window(gs, tab_stop, skip, end, i),
    ensures
        0 <= r.0 <= r.1 < n,
        in_window(gs, tab_stop, skip, end, r.0),
        in_window(gs, tab_stop, skip, end, r.1),
        forall|i: int|
            0 <= i < n && #[trigger] in_window(gs, tab_stop, skip, end, i) ==> r.0 <= i <= r.1,
    decreases n,
{
    if exists|i: int| 0 <= i < n - 1 && #[trigger] in_window(gs, tab_stop, skip, end, i) {
        let r = lemma_outermost_in_window(gs, tab_stop, skip, end, n - 1);
        if in_window(gs, tab_stop, skip, end, n - 1) {
            (r.0, n - 1)
        } else {
            r
        }
    } else {
        (n - 1, n - 1)
    }
}

/// There is a range of visible bytes.
pub(crate) proof fn lemma_shown_bytes_exist(
    gs: Seq<Glyph>,
    tab_stop: int,
    skip: int,
    end: int,
) -> (r: (int, int))
    ensures
        shown_bytes(gs, tab_stop, skip, end, r.0, r.1),
{
    if exists|i: int| 0 <= i < gs.len() && #[trigger] in_window(gs, tab_stop, skip, end, i) {
        let r = lemma_outermost_in_window(gs, tab_stop, skip, end, gs.len() as int);
        (byte_offset(gs, r.0), byte_offset(gs, r.1 + 1))
    } else {
        (0, 0)
    }
}

/// There is one range of visible bytes.
pub(crate) proof fn lemma_shown_bytes_unique(
    gs: Seq<Glyph>,
    tab_stop: int,
    skip: int,
    end: int,
    a: (int, int),
    b: (int, int),
)
    requires
        shown_bytes(gs, tab_stop, skip, end, a.0, a.1),
        shown_bytes(gs, tab_stop, skip, end, b.0, b.1),
    ensures
        a == b,
{
    if exists|i: int| 0 <= i < gs.len() && #[trigger] in_window(gs, tab_stop, skip, end, i) {
        let (f, l) = choose|first: int, last: int|
            {
                &&& 0 <= first <= last < gs.len()
                &&& #[trigger] in_window(gs, tab_stop, skip, end, first)
                &&& #[trigger] in_window(gs, tab_stop, skip, end, last)
                &&& forall|i: int|
                    0 <= i < gs.len() && #[trigger] in_window(gs, tab_stop, skip, end, i) ==> first
                        <= i <= last
                &&& a.0 == byte_offset(gs, first)
                &&& a.1 == byte_offset(gs, last + 1)
            };
        let (g, m) = choose|first: int, last: int|
            {
                &&& 0 <= first <= last < gs.len()
                &&& #[trigger] in_window(gs, tab_stop, skip, end, first)
                &&& #[trigger] in_window(gs, tab_stop, skip, end, last)
                &&& forall|i: int|
                    0 <= i < gs.len() && #[trigger] in_window(gs, tab_stop, skip, end, i) ==> first
                        <= i <= last
                &&& b.0 == byte_offset(gs, first)
                &&& b.1 == byte_offset(gs, last + 1)
            };
        assert(f == g && l == m);
    }
}

proof fn lemma_cut_keeps_spans(
    gs: Seq<Glyph>,
    tab_stop: int,
    skip: int,
    end: int,
    marks: Seq<(int, int)>,
    k: int,
)
    requires
        1 <= tab_stop,
        laid_out(gs.take(laid_out(gs, tab_stop, end)), tab_stop, end) == laid_out(
            gs,
            tab_stop,
            end,
        ),
    ensures
        row_spans(gs.take(laid_out(gs, tab_stop, end)), tab_stop, skip, end, marks, k) == row_spans(
            gs,
            tab_stop,
            skip,
            end,
            marks,
            k,
        ),
    decreases k,
{
    if k > 0 {
        lemma_cut_keeps_spans(gs, tab_stop, skip, end, marks, k - 1);
        let n = laid_out(gs, tab_stop, end);
        let from = marks[k - 1].0;
        let to = marks[k - 1].1;
        lemma_laid_out(gs, tab_stop, end, 0);
        lemma_cut_keeps_glyph_at(gs, tab_stop, n, from, 0);
        lemma_cut_keeps_glyph_at(gs, tab_stop, n, to - 1, 0);
        lemma_glyph_at(gs, n, from, 0);
        lemma_glyph_at(gs, n, to - 1, 0);
        let first = glyph_at(gs, n, from);
        let last = glyph_at(gs, n, to - 1);
        lemma_cut_keeps_layout(gs, tab_stop, n, first);
        if last < n {
            lemma_cut_keeps_layout(gs, tab_stop, n, last + 1);
        }
        lemma_cut_keeps_layout(gs, tab_stop, n, n);
    }
}

// ---------------------------------------------------------------------------
// The layout.

/// Lays one glyph out after the cells so far. Returns whether it was laid out:
/// `false` means that the window's right edge was already reached, so the walk
/// over the line ends here.
pub fn layout_token(
    g: Glyph,
    tab_stop: usize,
    end: usize,
    col: &mut usize,
    cells: &mut Vec<Cell>,
) -> (emitted: bool)
    requires
        tab_stop >= 1,
        *old(col) < end || advance(g, *old(col) as int, tab_stop as int) == 0 ==> *old(col)
            + advance(g, *old(col) as int, tab_stop as int) <= usize::MAX,
    ensures
        emitted <==> *old(col) < end || advance(g, *old(col) as int, tab_stop as int) == 0,
        emitted ==> *final(col) == *old(col) + advance(g, *old(col) as int, tab_stop as int),
        emitted ==> final(cells)@ == old(cells)@ + glyph_cells(
            g,
            *old(col) as int,
            tab_stop as int,
        ),
        !emitted ==> *final(col) == *old(col) && final(cells)@ == old(cells)@,
{
    let ghost col0 = *col as int;
    proof {
        lemma_advance_bounds(g, col0, tab_stop as int);
    }
    if g.ch == '\t' {
        if *col >= end {
            return false;
        }
        let stops: usize = *col / tab_stop;
        assert((stops + 1) * tab_stop == stops * tab_stop + tab_stop) by (nonlinear_arith);
        assert(stops * tab_stop >= 0) by (nonlinear_arith)
            requires
                tab_stop >= 1,
                stops >= 0,
        ;
        assert(stops + 1 <= (stops + 1) * tab_stop) by (nonlinear_arith)
            requires
                tab_stop >= 1,
                stops >= 0,
        ;
        let next: usize = (stops + 1) * tab_stop;
        let ghost cells0 = cells@;
        while *col < next
            invariant
                col0 <= *col <= next,
                cells0 == old(cells)@,
                cells@ == cells0 + Seq::new(
                    (*col - col0) as nat,
                    |k: int| Cell { ch: ' ', width: 1 },
                ),
            decreases next - *col,
        {
            cells.push(Cell { ch: ' ', width: 1 });
            *col = *col + 1;
            assert(cells@ =~= cells0 + Seq::new(
                (*col - col0) as nat,
                |k: int| Cell { ch: ' ', width: 1 },
            ));
        }
    } else if (g.ch as u32) < 0x20 || g.ch as u32 == 0x7f {
        if *col >= end {
            return false;
        }
        let caret: char = caret(g.ch);
        cells.push(Cell { ch: '^', width: 1 });
        cells.push(Cell { ch: caret, width: 1 });
        *col = *col + 2;
        assert(cells@ =~= old(cells)@ + glyph_cells(g, col0, tab_stop as int));
    } else {
        // a glyph without columns combines with the previous cell, so it is let
        // through at the window's edge.
        if *col >= end && g.width > 0 {
            return false;
        }
        cells.push(Cell { ch: g.ch, width: g.width });
        *col = *col + g.width;
        assert(cells@ =~= old(cells)@ + glyph_cells(g, col0, tab_stop as int));
    }
    true
}

fn caret(ch: char) -> (c: char)
    requires
        is_control(ch),
    ensures
        c == caret_of(ch),
{
    if ch as u32 == 0x7f {
        '?'
    } else {
        let v: u8 = ch as u8;
        assert(v < 0x20 ==> v ^ 0x40 == v + 0x40) by (bit_vector);
        (v ^ 0x40) as char
    }
}

/// What one walk over the glyphs of a line leaves behind: the cells of the
/// glyphs that were laid out, where each of them ends in the line and which
/// columns it takes, and the column after the last one.
struct Walk {
    cells: Vec<Cell>,
    token_end: Vec<usize>,
    token_col: Vec<(usize, usize)>,
    col: usize,
}

impl Walk {
    spec fn of(self, gs: Seq<Glyph>, tab_stop: int, end: int) -> bool {
        let n = laid_out(gs, tab_stop, end);
        &&& 0 <= n <= gs.len()
        &&& self.cells@ == cells_of(gs, tab_stop, n)
        &&& self.token_end@.len() == n
        &&& self.token_col@.len() == n
        &&& forall|k: int|
            0 <= k < n ==> #[trigger] self.token_end@[k] == byte_offset(gs, k + 1)
        &&& forall|k: int|
            0 <= k < n ==> (#[trigger] self.token_col@[k]).0 == column(gs, tab_stop, k)
                && self.token_col@[k].0 + self.token_col@[k].1 == column(gs, tab_stop, k + 1)
        &&& self.col == column(gs, tab_stop, n)
    }
}

fn walk(glyphs: &[Glyph], tab_stop: usize, end: usize) -> (w: Walk)
    requires
        tab_stop >= 1,
        column(glyphs@, tab_stop as int, laid_out(glyphs@, tab_stop as int, end as int))
            <= usize::MAX,
        byte_offset(glyphs@, laid_out(glyphs@, tab_stop as int, end as int)) <= usize::MAX,
    ensures
        w.of(glyphs@, tab_stop as int, end as int),
{
    let ghost gs = glyphs@;
    let ghost ts = tab_stop as int;
    let ghost n = laid_out(gs, ts, end as int);
    let mut cells: Vec<Cell> = Vec::new();
    let mut token_end: Vec<usize> = Vec::new();
    let mut token_col: Vec<(usize, usize)> = Vec::new();
    let mut col: usize = 0;
    let mut pos: usize = 0;
    let mut i: usize = 0;
    proof {
        lemma_laid_out(gs, ts, end as int, 0);
    }
    while i < glyphs.len()
        invariant_except_break
            forall|k: int| 0 <= k < i ==> !#[trigger] past_edge(gs, ts, end as int, k),
            i <= n,
        invariant
            gs == glyphs@,
            ts == tab_stop,
            tab_stop >= 1,
            n == laid_out(gs, ts, end as int),
            0 <= i <= gs.len(),
            n <= gs.len(),
            column(gs, ts, n) <= usize::MAX,
            byte_offset(gs, n) <= usize::MAX,
            cells@ == cells_of(gs, ts, i as int),
            token_end@.len() == i,
            token_col@.len() == i,
            forall|k: int| 0 <= k < i ==> #[trigger] token_end@[k] == byte_offset(gs, k + 1),
            forall|k: int|
                0 <= k < i ==> (#[trigger] token_col@[k]).0 == column(gs, ts, k)
                    && token_col@[k].0 + token_col@[k].1 == column(gs, ts, k + 1),
            col == column(gs, ts, i as int),
            pos == byte_offset(gs, i as int),
        ensures
            i == n,
        decreases glyphs.len() - i,
    {
        let before: usize = col;
        let g: Glyph = glyphs[i];
        proof {
            lemma_laid_out_skips(gs, ts, end as int, i as int);
            lemma_laid_out(gs, ts, end as int, i as int);
            lemma_advance_bounds(g, col as int, ts);
            if !past_edge(gs, ts, end as int, i as int) {
                lemma_laid_out(gs, ts, end as int, i + 1);
                lemma_column_grows(gs, ts, i + 1, n);
                lemma_byte_offset_grows(gs, i + 1, n);
            }
        }
        if !layout_token(g, tab_stop, end, &mut col, &mut cells) {
            break;
        }
        pos = pos + g.bytes;
        token_end.push(pos);
        token_col.push((before, col - before));
        i = i + 1;
        proof {
            lemma_laid_out_skips(gs, ts, end as int, i as int);
            lemma_laid_out(gs, ts, end as int, i as int);
        }
    }
    Walk { cells, token_end, token_col, col }
}

/// What the cells show in the window `[skip, end)`.
fn text_of(cells: &Vec<Cell>, skip: usize, end: usize) -> (out: String)
    requires
        cell_start(cells@, cells@.len() as int) <= usize::MAX,
    ensures
        out@ == window_text(cells@, skip as int, end as int, cells@.len() as int),
{
    let ghost cs = cells@;
    let mut out = String::new();
    let mut c: usize = 0;
    let mut i: usize = 0;
    while i < cells.len()
        invariant_except_break
            i <= cs.len(),
            out@ == window_text(cs, skip as int, end as int, i as int),
        invariant
            cs == cells@,
            cell_start(cs, cs.len() as int) <= usize::MAX,
            i <= cs.len(),
            c == cell_start(cs, i as int),
        ensures
            out@ == window_text(cs, skip as int, end as int, cs.len() as int),
        decreases cells.len() - i,
    {
        let cell: Cell = cells[i];
        let start: usize = c;
        proof {
            lemma_cell_start_grows(cs, i + 1, cs.len() as int);
        }
        let stop: usize = c + cell.width;
        c = stop;
        i = i + 1;
        let ghost shown = cell_text(cell, start as int, skip as int, end as int);
        let ghost before = out@;
        if stop <= skip {
            assert(out@ =~= before + shown);
            continue ;
        }
        if start >= end {
            // a cell without columns at the edge belongs to the last visible
            // one; past the edge it is dropped with everything after it.
            if cell.width == 0 && start == end {
                out.push(cell.ch);
                assert(out@ =~= before + shown);
                continue ;
            }
            assert(out@ =~= before + shown);
            proof {
                lemma_nothing_past_edge(cs, skip as int, end as int, i as int, cs.len() as int);
            }
            break ;
        }
        if start < skip || stop > end {
            out.push(' ');
            assert(out@ =~= before + shown);
            if stop > end {
                proof {
                    lemma_nothing_past_edge(cs, skip as int, end as int, i as int, cs.len() as int);
                }
                break ;
            }
            continue ;
        }
        out.push(cell.ch);
        assert(out@ =~= before + shown);
    }
    out
}

/// Which glyph of the walk holds byte `byte`: the first one that ends past it.
fn token_at(token_end: &Vec<usize>, byte: usize, Ghost(gs): Ghost<Seq<Glyph>>) -> (i: usize)
    requires
        forall|k: int|
            0 <= k < token_end@.len() ==> #[trigger] token_end@[k] == byte_offset(gs, k + 1),
    ensures
        i == glyph_at(gs, token_end@.len() as int, byte as int),
{
    let ghost n = token_end@.len() as int;
    let mut lo: usize = 0;
    let mut hi: usize = token_end.len();
    while lo < hi
        invariant
            n == token_end@.len(),
            0 <= lo <= hi <= n,
            forall|k: int|
                0 <= k < token_end@.len() ==> #[trigger] token_end@[k] == byte_offset(gs, k + 1),
            forall|k: int| 0 <= k < lo ==> #[trigger] token_end@[k] <= byte,
            hi < n ==> token_end@[hi as int] > byte,
        decreases hi - lo,
    {
        let mid: usize = lo + (hi - lo) / 2;
        if token_end[mid] <= byte {
            proof {
                assert forall|k: int| 0 <= k < mid + 1 implies #[trigger] token_end@[k] <= byte by {
                    lemma_byte_offset_grows(gs, k + 1, mid + 1);
                }
            }
            lo = mid + 1;
        } else {
            hi = mid;
        }
    }
    proof {
        let g = glyph_at(gs, n, byte as int);
        lemma_glyph_at(gs, n, byte as int, 0);
        if g < lo {
            assert(token_end@[g] <= byte);
        }
        if lo < g {
            assert(byte_offset(gs, lo + 1) <= byte);
            assert(token_end@[lo as int] > byte);
        }
    }
    lo
}

/// Adds the cells `[lo, hi)` to the spans, growing the last span when they touch
/// or overlap it.
fn push_span(spans: &mut Vec<std::ops::Range<u16>>, lo: u16, hi: u16)
    ensures
        pairs(final(spans)@) == merge_span(pairs(old(spans)@), Some((lo as int, hi as int))),
{
    let n: usize = spans.len();
    if n > 0 && lo <= spans[n - 1].end {
        if spans[n - 1].end < hi {
            spans[n - 1].end = hi;
        }
    } else {
        spans.push(lo..hi);
    }
    assert(pairs(spans@) =~= merge_span(pairs(old(spans)@), Some((lo as int, hi as int))));
}

/// The visible cells of the byte ranges `byte_marks`, merged.
fn spans_of(
    w: &Walk,
    skip: usize,
    end: usize,
    byte_marks: &[std::ops::Range<usize>],
    Ghost(gs): Ghost<Seq<Glyph>>,
    Ghost(ts): Ghost<int>,
) -> (spans: Vec<std::ops::Range<u16>>)
    requires
        ts >= 1,
        w.of(gs, ts, end as int),
        skip <= end,
        byte_marks@.len() == 0 || end - skip <= u16::MAX || w.col - skip < u16::MAX,
    ensures
        pairs(spans@) == row_spans(
            gs,
            ts,
            skip as int,
            end as int,
            ranges(byte_marks@),
            byte_marks@.len() as int,
        ),
{
    let ghost n = laid_out(gs, ts, end as int);
    let mut spans: Vec<std::ops::Range<u16>> = Vec::new();
    assert(pairs(spans@) =~= Seq::empty());
    let mut i: usize = 0;
    while i < byte_marks.len()
        invariant
            ts >= 1,
            w.of(gs, ts, end as int),
            n == laid_out(gs, ts, end as int),
            skip <= end,
            byte_marks@.len() == 0 || end - skip <= u16::MAX || w.col - skip < u16::MAX,
            i <= byte_marks@.len(),
            pairs(spans@) == row_spans(gs, ts, skip as int, end as int, ranges(byte_marks@), i as int),
        decreases byte_marks.len() - i,
    {
        let from: usize = byte_marks[i].start;
        let to: usize = byte_marks[i].end;
        i = i + 1;
        let first: usize = token_at(&w.token_end, from, Ghost(gs));
        proof {
            lemma_glyph_at(gs, n, from as int, 0);
            lemma_column_grows(gs, ts, first as int, n);
        }
        if from >= to {
            let at: usize = if first < w.token_col.len() {
                w.token_col[first].0
            } else {
                w.col
            };
            if at < skip || at >= end {
                continue ;
            }
            let lo: u16 = (at - skip) as u16;
            push_span(&mut spans, lo, lo + 1);
            continue ;
        }
        let last: usize = token_at(&w.token_end, to - 1, Ghost(gs));
        proof {
            lemma_glyph_at(gs, n, to - 1, 0);
            if last < n {
                lemma_column_grows(gs, ts, last + 1, n);
            }
        }
        let raw_start: usize = if first < w.token_col.len() {
            w.token_col[first].0
        } else {
            end
        };
        // bytes past the last laid-out glyph (a stripped carriage return, or
        // content past the edge) end the mark where the layout ended.
        let raw_end: usize = if last < w.token_col.len() {
            w.token_col[last].0 + w.token_col[last].1
        } else {
            w.col
        };
        let lo: usize = cut(raw_start, skip, end);
        let hi: usize = cut(raw_end, skip, end);
        if lo >= hi {
            continue ;
        }
        push_span(&mut spans, (lo - skip) as u16, (hi - skip) as u16);
    }
    spans
}

fn cut(x: usize, lo: usize, hi: usize) -> (r: usize)
    ensures
        r == clamp(x as int, lo as int, hi as int),
{
    if x < lo {
        lo
    } else if x > hi {
        hi
    } else {
        x
    }
}

/// Lays out a line that is given as glyphs: its text in the display columns
/// `[skip_cols, skip_cols + cols)`, and the visible cells of the byte ranges
/// `byte_marks`, counted from the window's left edge, with touching and
/// overlapping ranges merged. An empty window shows nothing.
pub fn layout_glyphs(
    glyphs: &[Glyph],
    tab_stop: usize,
    skip_cols: usize,
    cols: usize,
    byte_marks: &[std::ops::Range<usize>],
) -> (r: (String, Vec<std::ops::Range<u16>>))
    requires
        cols > 0 ==> ({
            let ts = at_least_one(tab_stop as int);
            let end = window_end(skip_cols as int, cols as int);
            let n = laid_out(glyphs@, ts, end);
            &&& column(glyphs@, ts, n) <= usize::MAX
            &&& byte_offset(glyphs@, n) <= usize::MAX
            &&& byte_marks@.len() == 0 || cols <= u16::MAX || column(glyphs@, ts, n) - skip_cols
                < u16::MAX
        }),
    ensures
        cols == 0 ==> r.0@ == Seq::<char>::empty() && r.1@ == Seq::<
            std::ops::Range<u16>,
        >::empty(),
        cols > 0 ==> ({
            let ts = at_least_one(tab_stop as int);
            let end = window_end(skip_cols as int, cols as int);
            &&& r.0@ == row_text(glyphs@, ts, skip_cols as int, end)
            &&& pairs(r.1@) == row_spans(
                glyphs@,
                ts,
                skip_cols as int,
                end,
                ranges(byte_marks@),
                byte_marks@.len() as int,
            )
        }),
{
    if cols == 0 {
        return (String::new(), Vec::new());
    }
    let tab_stop: usize = if tab_stop < 1 {
        1
    } else {
        tab_stop
    };
    let end: usize = skip_cols.saturating_add(cols);
    let w = walk(glyphs, tab_stop, end);
    proof {
        lemma_cells_end_at_column(
            glyphs@,
            tab_stop as int,
            laid_out(glyphs@, tab_stop as int, end as int),
        );
    }
    let text = text_of(&w.cells, skip_cols, end);
    let spans = spans_of(&w, skip_cols, end, byte_marks, Ghost(glyphs@), Ghost(tab_stop as int));
    (text, spans)
}

/// The bytes of a line, given as glyphs, that are visible in the display
/// columns `[skip_cols, skip_cols + cols)`.
pub fn visible_bytes(glyphs: &[Glyph], tab_stop: usize, skip_cols: usize, cols: usize) -> (r:
    std::ops::Range<usize>)
    requires
        cols > 0 ==> ({
            let ts = at_least_one(tab_stop as int);
            let n = laid_out(glyphs@, ts, window_end(skip_cols as int, cols as int));
            &&& column(glyphs@, ts, n) <= usize::MAX
            &&& byte_offset(glyphs@, n) <= usize::MAX
        }),
    ensures
        cols == 0 ==> r.start == 0 && r.end == 0,
        cols > 0 ==> shown_bytes(
            glyphs@,
            at_least_one(tab_stop as int),
            skip_cols as int,
            window_end(skip_cols as int, cols as int),
            r.start as int,
            r.end as int,
        ),
{
    if cols == 0 {
        return 0..0;
    }
    let tab_stop: usize = if tab_stop < 1 {
        1
    } else {
        tab_stop
    };
    let end: usize = skip_cols.saturating_add(cols);
    let w = walk(glyphs, tab_stop, end);
    let ghost gs = glyphs@;
    let ghost ts = tab_stop as int;
    let ghost n = laid_out(gs, ts, end as int);
    let mut from: usize = 0;
    let mut to: usize = 0;
    let mut any: bool = false;
    let ghost mut first: int = 0;
    let ghost mut last: int = 0;
    let mut i: usize = 0;
    while i < w.token_end.len()
        invariant
            ts >= 1,
            w.of(gs, ts, end as int),
            n == laid_out(gs, ts, end as int),
            0 <= i <= n,
            any ==> {
                &&& 0 <= first <= last < i
                &&& in_window(gs, ts, skip_cols as int, end as int, first)
                &&& in_window(gs, ts, skip_cols as int, end as int, last)
                &&& from == byte_offset(gs, first)
                &&& to == byte_offset(gs, last + 1)
            },
            !any ==> from == 0 && to == 0,
            forall|k: int|
                0 <= k < i && #[trigger] in_window(gs, ts, skip_cols as int, end as int, k) ==> any
                    && first <= k <= last,
        decreases w.token_end.len() - i,
    {
        proof {
            lemma_column_grows(gs, ts, i + 1, n);
        }
        let start: usize = w.token_col[i].0;
        let stop: usize = start + w.token_col[i].1;
        if stop > skip_cols && start < end {
            if !any {
                from = if i == 0 {
                    0
                } else {
                    w.token_end[i - 1]
                };
                proof {
                    first = i as int;
                }
            }
            any = true;
            to = w.token_end[i];
            proof {
                last = i as int;
                assert(in_window(gs, ts, skip_cols as int, end as int, i as int));
            }
        } else {
            assert(!in_window(gs, ts, skip_cols as int, end as int, i as int));
        }
        i = i + 1;
    }
    proof {
        lemma_laid_out(gs, ts, end as int, 0);
        assert forall|k: int|
            n <= k && k < gs.len() implies !#[trigger] in_window(
            gs,
            ts,
            skip_cols as int,
            end as int,
            k,
        ) by {
            lemma_column_grows(gs, ts, n, k);
        }
        if any {
            assert(in_window(gs, ts, skip_cols as int, end as int, first));
        }
    }
    from..to
}

}
