//! Width-aware layout of one logical line into a horizontal window of display
//! columns: expands tabs, measures character widths, renders control bytes as
//! caret notation, and takes the `[hscroll, hscroll + cols)` column slice.
//! [`layout_row_with_marks`] additionally maps byte ranges (search matches)
//! through the same walk into visible-cell ranges.
use vstd::prelude::*;

use crate::glyph;
use crate::glyph::Cell;
use crate::glyph::Glyph;
use crate::utf8;
use crate::width;

verus! {

/// A line without the carriage return of a CRLF line ending.
pub open spec fn body_of(raw: Seq<u8>) -> Seq<u8> {
    if raw.len() > 0 && raw.last() == 0x0d {
        raw.drop_last()
    } else {
        raw
    }
}

/// How many tabs `s` holds.
pub open spec fn tab_count(s: Seq<u8>) -> nat
    decreases s.len(),
{
    if s.len() == 0 {
        0
    } else {
        tab_count(s.drop_last()) + if s.last() == 0x09 {
            1nat
        } else {
            0nat
        }
    }
}

/// No line of these bytes is wider than this: a tab takes at most a tab stop,
/// any other token at most three columns.
pub open spec fn width_bound(raw: Seq<u8>, tab_stop: int) -> int {
    3 * body_of(raw).len() + tab_count(body_of(raw)) * glyph::at_least_one(tab_stop)
}

/// Every column that the layout of `raw` meets can be counted in a `usize`:
/// the window ends far enough from the largest column, or the line is short
/// enough.
pub open spec fn columns_fit(raw: Seq<u8>, tab_stop: int, skip: int, cols: int) -> bool {
    ||| cols == 0
    ||| glyph::window_end(skip, cols) + glyph::at_least_one(tab_stop) <= usize::MAX && glyph::window_end(skip, cols) + 3
        <= usize::MAX
    ||| width_bound(raw, tab_stop) <= usize::MAX
}

/// Every cell that a mark takes can be counted in a `u16`: there are no marks,
/// the window is not too wide, or the line is short enough.
pub open spec fn marks_fit(
    raw: Seq<u8>,
    tab_stop: int,
    skip: int,
    cols: int,
    marks: Seq<std::ops::Range<usize>>,
) -> bool {
    ||| marks.len() == 0
    ||| cols <= u16::MAX
    ||| width_bound(raw, tab_stop) - skip < u16::MAX
}

/// The bytes of `raw` that are visible in the display columns
/// `[skip, skip + cols)`.
pub open spec fn visible_range_of(raw: Seq<u8>, tab_stop: int, skip: int, cols: int) -> (int, int) {
    if cols == 0 {
        (0, 0)
    } else {
        choose|p: (int, int)|
            #[trigger] glyph::shown_bytes(
                glyph::glyphs_of(body_of(raw)),
                glyph::at_least_one(tab_stop),
                skip,
                glyph::window_end(skip, cols),
                p.0,
                p.1,
            )
    }
}

/// `raw`'s content length once the carriage return of a CRLF line ending is
/// taken off.
pub fn stripped_len(raw: &[u8]) -> (n: usize)
    ensures
        n == body_of(raw@).len(),
{
    if raw.len() > 0 && raw[raw.len() - 1] == 0x0d {
        raw.len() - 1
    } else {
        raw.len()
    }
}

proof fn lemma_tab_count_grows(s: Seq<u8>, i: int, j: int)
    requires
        0 <= i <= j <= s.len(),
    ensures
        tab_count(s.take(i)) <= tab_count(s.take(j)),
    decreases j - i,
{
    if i < j {
        lemma_tab_count_grows(s, i, j - 1);
        assert(s.take(j).drop_last() =~= s.take(j - 1));
    }
}

/// Decodes the glyphs of a line's body, up to the first one past the window's
/// right edge.
fn decode_row(body: &[u8], tab_stop: usize, end: usize) -> (r: Vec<Glyph>)
    requires
        tab_stop >= 1,
        end >= 1,
        ({
            ||| end + tab_stop <= usize::MAX && end + 3 <= usize::MAX
            ||| 3 * body@.len() + tab_count(body@) * tab_stop <= usize::MAX
        }),
    ensures
        ({
            let gs = glyph::glyphs_of(body@);
            let n = glyph::laid_out(gs, tab_stop as int, end as int);
            &&& r@ == gs.take(n)
            &&& glyph::column(gs, tab_stop as int, n) <= usize::MAX
            &&& glyph::column(gs, tab_stop as int, n) <= 3 * body@.len() + tab_count(body@)
                * tab_stop
            &&& glyph::byte_offset(gs, n) <= body@.len() <= usize::MAX
        }),
{
    let len: usize = body.len();
    let ghost gs = glyph::glyphs_of(body@);
    let ghost ts = tab_stop as int;
    let ghost n = glyph::laid_out(gs, ts, end as int);
    let mut glyphs: Vec<Glyph> = Vec::new();
    let mut scratch: Vec<Cell> = Vec::new();
    let mut col: usize = 0;
    let mut pos: usize = 0;
    proof {
        glyph::lemma_laid_out(gs, ts, end as int, 0);
        assert(body@.skip(0) =~= body@);
        assert(gs.skip(0) =~= gs);
        assert(gs.take(0) =~= glyphs@);
        assert(0 * ts == 0);
    }
    while pos < len
        invariant_except_break
            glyphs@.len() <= n,
        invariant
            gs == glyph::glyphs_of(body@),
            ts == tab_stop,
            ts >= 1,
            end >= 1,
            len == body@.len(),
            ({
                ||| end + tab_stop <= usize::MAX && end + 3 <= usize::MAX
                ||| 3 * body@.len() + tab_count(body@) * tab_stop <= usize::MAX
            }),
            n == glyph::laid_out(gs, ts, end as int),
            pos <= body@.len(),
            0 <= glyphs@.len() <= gs.len(),
            0 <= n <= gs.len(),
            pos == body@.len() ==> glyphs@.len() == gs.len(),
            glyphs@ == gs.take(glyphs@.len() as int),
            gs.skip(glyphs@.len() as int) == glyph::glyphs_of(body@.skip(pos as int)),
            pos == glyph::byte_offset(gs, glyphs@.len() as int),
            col == glyph::column(gs, ts, glyphs@.len() as int),
            col <= 3 * pos + tab_count(body@.take(pos as int)) * ts,
            col < end + ts || col < end + 3,
            forall|k: int|
                0 <= k < glyphs@.len() ==> !#[trigger] glyph::past_edge(gs, ts, end as int, k),
        ensures
            glyphs@.len() == n,
        decreases len - pos,
    {
        let ghost s = body@.skip(pos as int);
        let ghost i = glyphs@.len() as int;
        let (ch, bytes) = utf8::decode_at(body, pos);
        let w: usize = width::char_columns(ch);
        let g = Glyph { ch, bytes, width: w };
        proof {
            utf8::lemma_token_len_bounds(s);
            utf8::lemma_ascii_token(s);
            assert(g == glyph::first_glyph(s));
            assert(gs.skip(i).len() > 0);
            assert(gs.skip(i)[0] == g);
            assert(gs[i] == g);
            assert(gs.skip(i + 1) =~= gs.skip(i).skip(1));
            assert(gs.skip(i).skip(1) =~= glyph::glyphs_of(s.skip(bytes as int)));
            assert(s.skip(bytes as int) =~= body@.skip(pos + bytes));
            glyph::lemma_advance_bounds(g, col as int, ts);
            lemma_tab_count_grows(body@, pos as int, pos + bytes);
            lemma_tab_count_grows(body@, pos + bytes, body@.len() as int);
            assert(body@.take(body@.len() as int) =~= body@);
            let t0 = tab_count(body@.take(pos as int)) as int;
            let t1 = tab_count(body@.take(pos + bytes)) as int;
            let t = tab_count(body@) as int;
            if ch == '\t' {
                assert(body@.take(pos + 1).drop_last() =~= body@.take(pos as int));
                assert(t1 == t0 + 1);
            }
            assert(t0 * ts <= t1 * ts <= t * ts) by (nonlinear_arith)
                requires
                    t0 <= t1 <= t,
                    ts >= 1,
            ;
            assert((t0 + 1) * ts == t0 * ts + ts) by (nonlinear_arith);
            glyph::lemma_laid_out_skips(gs, ts, end as int, i);
            glyph::lemma_laid_out(gs, ts, end as int, i);
            if !glyph::past_edge(gs, ts, end as int, i) {
                glyph::lemma_laid_out(gs, ts, end as int, i + 1);
            }
        }
        if !glyph::layout_token(g, tab_stop, end, &mut col, &mut scratch) {
            break ;
        }
        scratch.clear();
        pos = pos + bytes;
        glyphs.push(g);
        assert(glyphs@ =~= gs.take(i + 1));
        assert(gs.skip(i + 1).len() == gs.len() - (i + 1));
    }
    proof {
        lemma_tab_count_grows(body@, pos as int, body@.len() as int);
        assert(body@.take(body@.len() as int) =~= body@);
        let t0 = tab_count(body@.take(pos as int)) as int;
        let t = tab_count(body@) as int;
        assert(t0 * ts <= t * ts) by (nonlinear_arith)
            requires
                t0 <= t,
                ts >= 1,
        ;
    }
    glyphs
}

/// Lays one logical line (`raw`, without its newline) out into the text that is
/// visible in the display columns `[skip_cols, skip_cols + cols)`, together with
/// the visible cells of `byte_marks`, byte ranges of `raw` such as search
/// matches.
///
/// Tabs advance to the next `tab_stop`, ASCII controls are shown in caret
/// notation (`^[`), ill-formed UTF-8 becomes the replacement character, and a
/// wide character that straddles an edge of the window is shown as one blank.
/// The ranges come back relative to the window's left edge, cut to the window,
/// with touching and overlapping ones merged.
pub fn layout_row_with_marks(
    raw: &[u8],
    tab_stop: usize,
    skip_cols: usize,
    cols: usize,
    byte_marks: &[std::ops::Range<usize>],
) -> (r: (String, Vec<std::ops::Range<u16>>))
    requires
        columns_fit(raw@, tab_stop as int, skip_cols as int, cols as int),
        marks_fit(raw@, tab_stop as int, skip_cols as int, cols as int, byte_marks@),
    ensures
        cols == 0 ==> r.0@ == Seq::<char>::empty() && r.1@ == Seq::<
            std::ops::Range<u16>,
        >::empty(),
        cols > 0 ==> ({
            let gs = glyph::glyphs_of(body_of(raw@));
            let ts = glyph::at_least_one(tab_stop as int);
            let end = glyph::window_end(skip_cols as int, cols as int);
            &&& r.0@ == glyph::row_text(gs, ts, skip_cols as int, end)
            &&& glyph::pairs(r.1@) == glyph::row_spans(
                gs,
                ts,
                skip_cols as int,
                end,
                glyph::ranges(byte_marks@),
                byte_marks@.len() as int,
            )
        }),
{
    if cols == 0 {
        // a window without columns has no cell for a straddling character's
        // blank, nor for a mark.
        return (String::new(), Vec::new());
    }
    let stop: usize = if tab_stop < 1 {
        1
    } else {
        tab_stop
    };
    let end: usize = skip_cols.saturating_add(cols);
    let body = body(raw);
    let glyphs = decode_row(body, stop, end);
    proof {
        glyph::lemma_only_laid_out_glyphs_matter(
            glyph::glyphs_of(body_of(raw@)),
            stop as int,
            end as int,
        );
    }
    glyph::layout_glyphs(&glyphs, stop, skip_cols, cols, byte_marks)
}

/// `raw` without the carriage return of a CRLF line ending.
fn body(raw: &[u8]) -> (b: &[u8])
    ensures
        b@ == body_of(raw@),
{
    let n: usize = stripped_len(raw);
    vstd::slice::slice_subrange(raw, 0, n)
}

/// Lays one logical line (`raw`, without its newline) out into the text that is
/// visible in the display columns `[hscroll, hscroll + cols)`. An empty window
/// yields an empty text.
pub fn layout_row(raw: &[u8], tab_stop: usize, hscroll: usize, cols: usize) -> (r: String)
    requires
        columns_fit(raw@, tab_stop as int, hscroll as int, cols as int),
    ensures
        cols == 0 ==> r@ == Seq::<char>::empty(),
        cols > 0 ==> r@ == glyph::row_text(
            glyph::glyphs_of(body_of(raw@)),
            glyph::at_least_one(tab_stop as int),
            hscroll as int,
            glyph::window_end(hscroll as int, cols as int),
        ),
{
    let marks: Vec<std::ops::Range<usize>> = Vec::new();
    let (text, _) = layout_row_with_marks(raw, tab_stop, hscroll, cols, &marks);
    text
}

/// The bytes of `raw` whose cells are visible in the display columns
/// `[skip_cols, skip_cols + cols)`: from the first token that takes a column of
/// the window to the last one, a token that straddles an edge counting as
/// visible; the empty range at 0 where nothing is visible.
pub fn visible_byte_range(raw: &[u8], tab_stop: usize, skip_cols: usize, cols: usize) -> (r:
    std::ops::Range<usize>)
    requires
        columns_fit(raw@, tab_stop as int, skip_cols as int, cols as int),
    ensures
        cols == 0 ==> r.start == 0 && r.end == 0,
        cols > 0 ==> glyph::shown_bytes(
            glyph::glyphs_of(body_of(raw@)),
            glyph::at_least_one(tab_stop as int),
            skip_cols as int,
            glyph::window_end(skip_cols as int, cols as int),
            r.start as int,
            r.end as int,
        ),
        (r.start as int, r.end as int) == visible_range_of(
            raw@,
            tab_stop as int,
            skip_cols as int,
            cols as int,
        ),
        r.start <= r.end <= body_of(raw@).len(),
{
    if cols == 0 {
        return 0..0;
    }
    let stop: usize = if tab_stop < 1 {
        1
    } else {
        tab_stop
    };
    let end: usize = skip_cols.saturating_add(cols);
    let body = body(raw);
    let glyphs = decode_row(body, stop, end);
    proof {
        glyph::lemma_only_laid_out_glyphs_matter(
            glyph::glyphs_of(body_of(raw@)),
            stop as int,
            end as int,
        );
    }
    let r = glyph::visible_bytes(&glyphs, stop, skip_cols, cols);
    proof {
        glyph::lemma_shown_bytes_in_order(
            glyphs@,
            stop as int,
            skip_cols as int,
            end as int,
            r.start as int,
            r.end as int,
        );
        let shown = visible_range_of(
            raw@,
            tab_stop as int,
            skip_cols as int,
            cols as int,
        );
        let at = (r.start as int, r.end as int);
        let gs = glyph::glyphs_of(body_of(raw@));
        assert(glyph::shown_bytes(gs, stop as int, skip_cols as int, end as int, at.0, at.1));
        glyph::lemma_shown_bytes_unique(
            gs,
            stop as int,
            skip_cols as int,
            end as int,
            at,
            shown,
        );
    }
    r
}

/// Of a line only the carriage return at its very end is left out, and only one.
pub proof fn law_only_a_final_return_is_left_out(raw: Seq<u8>)
    ensures
        raw.len() > 0 && raw[raw.len() - 1] == 0x0d ==> body_of(raw).push(0x0d) == raw,
        raw.len() == 0 || raw[raw.len() - 1] != 0x0d ==> body_of(raw) == raw,
{
    if raw.len() > 0 && raw.last() == 0x0d {
        assert(body_of(raw).push(0x0d) =~= raw);
    }
}

}
