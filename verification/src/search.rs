//! Which bytes a row's search has to look at, and which of its matches the row
//! shows.
//!
//! A row is searched in its own visible window, not in everything that was
//! fetched: the cost of highlighting follows what can be seen. The searched
//! bytes, the *hay*, are the fetched rows with a little context on either side,
//! so that no edge of what was fetched is mistaken for the edge of a line or of
//! the file.
use vstd::prelude::*;

use crate::glyph;
use crate::layout_laws;
use crate::line;

verus! {

/// A match longer than this need not be found.
pub const MAX_MATCH_LEN: usize = 4096;

/// So many bytes before a position decide what may match there: one character.
pub const CTX_BEHIND: usize = 4;

/// So many bytes after a position decide what may end there: one character.
pub const CTX_AHEAD: usize = 4;

/// How far past a match's start its last byte and the context after it can lie:
/// `MAX_MATCH_LEN + CTX_AHEAD - 1`.
pub const CONSUMABLE_REACH: usize = 4099;

/// `a` or `b`, whichever is greater.
pub open spec fn greater(a: int, b: int) -> int {
    if a < b {
        b
    } else {
        a
    }
}

/// `a` or `b`, whichever is less.
pub open spec fn less(a: int, b: int) -> int {
    if a < b {
        a
    } else {
        b
    }
}

/// Where a match that can show in the window `[win_start, win_end)` of the row
/// at `line_start` may start, in positions of the hay: anywhere in the fetched
/// rows from a longest match before the window up to one past its end. An empty
/// match may sit right at the end of the visible content.
pub open spec fn row_accept(
    win_start: int,
    win_end: int,
    line_start: int,
    buf_len: int,
    lb: int,
) -> (int, int) {
    let lo = greater(lb + line_start + win_start - MAX_MATCH_LEN, lb);
    (lo, greater(lo, less(lb + line_start + win_end + 1, lb + buf_len)))
}

/// The part of the hay that decides every match that starts in `accept`.
pub open spec fn row_window(accept: (int, int), full_hay_len: int) -> (int, int) {
    let lo = greater(accept.0 - CTX_BEHIND, 0);
    (lo, greater(lo, less(accept.1 + CONSUMABLE_REACH, full_hay_len)))
}

/// Derives a row's `accept` and `hay` ranges, both positions of the full hay,
/// from its visible bytes `win`.
pub fn accept_and_hay_for_row(
    win: std::ops::Range<usize>,
    line_start: usize,
    buf_len: usize,
    lb: usize,
    full_hay_len: usize,
) -> (r: (std::ops::Range<usize>, std::ops::Range<usize>))
    requires
        lb + line_start + win.start <= usize::MAX,
        lb + line_start + win.end <= usize::MAX,
        lb + buf_len <= usize::MAX,
    ensures
        ({
            let accept = row_accept(
                win.start as int,
                win.end as int,
                line_start as int,
                buf_len as int,
                lb as int,
            );
            let window = row_window(accept, full_hay_len as int);
            &&& r.0.start == accept.0 && r.0.end == accept.1
            &&& r.1.start == window.0 && r.1.end == window.1
        }),
{
    let abs_start: usize = lb + line_start + win.start;
    let abs_end: usize = lb + line_start + win.end;
    let buf_hi: usize = lb + buf_len;
    let reach: usize = abs_start.saturating_sub(MAX_MATCH_LEN);
    let accept_lo: usize = if reach < lb {
        lb
    } else {
        reach
    };
    let capped: usize = if abs_end < buf_hi {
        abs_end + 1
    } else {
        buf_hi
    };
    let accept_hi: usize = if capped < accept_lo {
        accept_lo
    } else {
        capped
    };
    let hay_lo: usize = accept_lo.saturating_sub(CTX_BEHIND);
    let ahead: usize = accept_hi.saturating_add(CONSUMABLE_REACH);
    let clamped: usize = if ahead < full_hay_len {
        ahead
    } else {
        full_hay_len
    };
    let hay_hi: usize = if clamped < hay_lo {
        hay_lo
    } else {
        clamped
    };
    (accept_lo..accept_hi, hay_lo..hay_hi)
}

/// A match `[s, e)` that was found in a hay may be reported.
pub open spec fn resolved(
    s: int,
    e: int,
    hay_end: int,
    full_hay_len: int,
    hay_reaches_eof: bool,
    payload_end: int,
    eof_zero_width_ok: bool,
) -> bool {
    &&& hay_end - e >= CTX_AHEAD || (hay_end == full_hay_len && hay_reaches_eof)
    &&& s != payload_end || eof_zero_width_ok
}

/// Whether a match `[s, e)` that was found in a hay may be reported. There must
/// be a full character of context after it in the hay, unless the hay reaches
/// the end of the file, where none is owed; and an empty match at the very end
/// of the fetched rows counts only where `eof_zero_width_ok` says that a line
/// is there.
pub fn point_candidate_is_resolved(
    s: usize,
    e: usize,
    hay_end: usize,
    full_hay_len: usize,
    hay_reaches_eof: bool,
    payload_end: usize,
    eof_zero_width_ok: bool,
) -> (r: bool)
    ensures
        r <==> {
            &&& hay_end - e >= CTX_AHEAD || (hay_end == full_hay_len && hay_reaches_eof)
            &&& s != payload_end || eof_zero_width_ok
        },
        r == resolved(
            s as int,
            e as int,
            hay_end as int,
            full_hay_len as int,
            hay_reaches_eof,
            payload_end as int,
            eof_zero_width_ok,
        ),
{
    (hay_end.saturating_sub(e) >= CTX_AHEAD || (hay_end == full_hay_len && hay_reaches_eof)) && (s
        != payload_end || eof_zero_width_ok)
}

/// What a row's search is about: how long the hay is, where the fetched rows
/// start and end in it, and whether an empty match may sit at their end.
#[derive(Debug, Clone, Copy, PartialEq, Eq, Structural)]
pub struct RowSearch {
    /// The length of the hay.
    pub hay_len: usize,
    /// Where the fetched rows start in the hay.
    pub lb: usize,
    /// Where the fetched rows end in the hay.
    pub buf_hi: usize,
    /// The fetched rows end at the end of the file, and a line is there.
    pub eof_zero_width_ok: bool,
}

/// What a row asks of the matcher.
#[derive(Debug, PartialEq, Eq)]
pub struct RowQuery {
    /// Where a match may start, in positions of the hay.
    pub accept: std::ops::Range<usize>,
    /// The bytes of the hay to search.
    pub window: std::ops::Range<usize>,
    /// Where the row's visible bytes start, counted from the searched bytes; a
    /// match that ends before it shows nothing.
    pub win_start_row: usize,
    /// Where the fetched rows end, counted from the searched bytes.
    pub buf_hi_row: usize,
    /// There is anything to search.
    pub search_window: bool,
    /// The end of the fetched rows is to be asked about as well: an empty match
    /// there is in no window, since a window ends before it.
    pub search_end: bool,
}

/// The visible bytes of a row, as far as a match there can show: where all of
/// the row is laid out, up to its very end, a stripped carriage return
/// included; nothing where nothing is visible. A blank row shows its one cursor
/// position.
pub open spec fn searched_bytes(raw: Seq<u8>, tab_stop: int, hscroll: int, cols: int) -> Option<
    (int, int),
> {
    let shown = line::visible_range_of(raw, tab_stop, hscroll, cols);
    if shown.0 == shown.1 {
        if line::body_of(raw).len() == 0 && hscroll == 0 && cols > 0 {
            Some((shown.0, raw.len() as int))
        } else {
            None
        }
    } else if shown.1 == line::body_of(raw).len() {
        Some((shown.0, raw.len() as int))
    } else {
        Some(shown)
    }
}

/// `r` is what the row `raw` at `line_start` asks of the matcher: nothing where
/// nothing of it is visible.
pub open spec fn asks(
    search: RowSearch,
    buf_len: int,
    raw: Seq<u8>,
    line_start: int,
    tab_stop: int,
    hscroll: int,
    cols: int,
    r: Option<RowQuery>,
) -> bool {
    match searched_bytes(raw, tab_stop, hscroll, cols) {
        None => r is None,
        Some(win) => r matches Some(q) && ({
            let accept = row_accept(win.0, win.1, line_start, buf_len, search.lb as int);
            let window = row_window(accept, search.hay_len as int);
            let asked = accept.0 < accept.1 && window.0 < window.1;
            &&& q.accept.start == accept.0 && q.accept.end == accept.1
            &&& q.window.start == window.0 && q.window.end == window.1
            &&& q.search_window == asked
            &&& asked ==> q.win_start_row == greater(
                search.lb + line_start + win.0 - window.0,
                0,
            ) && q.buf_hi_row == search.buf_hi - window.0
            &&& q.search_end == (line_start + win.1 == buf_len && search.eof_zero_width_ok)
        }),
    }
}

/// Plans the search of one row: what to ask the matcher for, or nothing where
/// nothing of the row is visible.
pub fn visible_window_query(
    search: RowSearch,
    buf_len: usize,
    raw_row: &[u8],
    line_start: usize,
    tab_stop: usize,
    hscroll: usize,
    cols: usize,
) -> (r: Option<RowQuery>)
    requires
        line::columns_fit(raw_row@, tab_stop as int, hscroll as int, cols as int),
        search.lb + line_start + raw_row@.len() <= usize::MAX,
        search.lb + buf_len <= search.buf_hi,
    ensures
        asks(
            search,
            buf_len as int,
            raw_row@,
            line_start as int,
            tab_stop as int,
            hscroll as int,
            cols as int,
            r,
        ),
{
    let mut win: std::ops::Range<usize> = line::visible_byte_range(
        raw_row,
        tab_stop,
        hscroll,
        cols,
    );
    let body_len: usize = line::stripped_len(raw_row);
    let len: usize = raw_row.len();
    if win.start == win.end {
        // nothing is visible; but a blank row still has its cursor position.
        if body_len == 0 && hscroll == 0 && cols > 0 {
            win.end = len;
        } else {
            return None;
        }
    } else if win.end == body_len {
        // all of the row was laid out: a match may sit right after a stripped
        // carriage return.
        win.end = len;
    }
    let win_start: usize = search.lb + line_start + win.start;
    let reaches_buf_end: bool = line_start + win.end == buf_len;
    let (accept, window) = accept_and_hay_for_row(
        win,
        line_start,
        buf_len,
        search.lb,
        search.hay_len,
    );
    let search_window: bool = accept.start < accept.end && window.start < window.end;
    Some(
        RowQuery {
            win_start_row: if search_window {
                win_start.saturating_sub(window.start)
            } else {
                0
            },
            buf_hi_row: if search_window {
                search.buf_hi - window.start
            } else {
                0
            },
            search_window,
            search_end: reaches_buf_end && search.eof_zero_width_ok,
            accept,
            window,
        },
    )
}

/// The matches of a row in positions of the fetched rows: what the matcher
/// found in the searched window, moved, and what it found at the end.
pub open spec fn row_matches(
    q: RowQuery,
    lb: int,
    hits: Seq<(usize, usize)>,
    end_hit: Option<(usize, usize)>,
) -> Seq<(int, int)> {
    let inside = if q.search_window {
        hits.map_values(
            |h: (usize, usize)| (h.0 + q.window.start - lb, h.1 + q.window.start - lb),
        )
    } else {
        Seq::empty()
    };
    match end_hit {
        Some(h) => if q.search_end {
            inside.push((h.0 - lb, h.1 - lb))
        } else {
            inside
        },
        None => inside,
    }
}

/// No match that the matcher answered lies before the fetched rows.
pub open spec fn answer_fits(
    q: RowQuery,
    lb: int,
    hits: Seq<(usize, usize)>,
    end_hit: Option<(usize, usize)>,
) -> bool {
    &&& q.search_window ==> forall|i: int|
        0 <= i < hits.len() ==> lb <= (#[trigger] hits[i]).0 + q.window.start <= usize::MAX && lb
            <= hits[i].1 + q.window.start <= usize::MAX
    &&& q.search_end ==> (end_hit matches Some(h) ==> lb <= h.0 && lb <= h.1)
}

/// Turns what the matcher answered to a row's query into the row's matches.
/// `hits` are the matches in the searched window, counted from its start;
/// `end_hit` is the match at the end of the fetched rows, in positions of the
/// hay. The end of a match may lie past the fetched rows: such a match is
/// genuine, and the row shows the part of it that it holds.
pub fn visible_window_matches(
    query: &RowQuery,
    lb: usize,
    hits: &[(usize, usize)],
    end_hit: Option<(usize, usize)>,
) -> (r: Vec<std::ops::Range<usize>>)
    requires
        answer_fits(*query, lb as int, hits@, end_hit),
    ensures
        glyph::ranges(r@) == row_matches(*query, lb as int, hits@, end_hit),
{
    let mut out: Vec<std::ops::Range<usize>> = Vec::new();
    let ghost inside = hits@.map_values(
        |h: (usize, usize)| (h.0 + query.window.start - lb, h.1 + query.window.start - lb),
    );
    if query.search_window {
        let mut i: usize = 0;
        while i < hits.len()
            invariant
                i <= hits@.len(),
                inside == hits@.map_values(
                    |h: (usize, usize)|
                        (h.0 + query.window.start - lb, h.1 + query.window.start - lb),
                ),
                forall|i: int|
                    0 <= i < hits@.len() ==> lb <= (#[trigger] hits@[i]).0 + query.window.start
                        <= usize::MAX && lb <= hits@[i].1 + query.window.start <= usize::MAX,
                glyph::ranges(out@) == inside.take(i as int),
            decreases hits.len() - i,
        {
            let (s, e) = hits[i];
            let m = (s + query.window.start - lb)..(e + query.window.start - lb);
            let ghost before = out@;
            assert(inside[i as int] == (m.start as int, m.end as int));
            out.push(m);
            assert(glyph::ranges(out@) =~= glyph::ranges(before).push(inside[i as int]));
            i = i + 1;
            assert(glyph::ranges(out@) =~= inside.take(i as int));
        }
        assert(inside.take(hits@.len() as int) =~= inside);
    }
    if query.search_end {
        if let Some((s, e)) = end_hit {
            out.push((s - lb)..(e - lb));
        }
    }
    assert(glyph::ranges(out@) =~= row_matches(*query, lb as int, hits@, end_hit));
    out
}

/// The part of a match that a row holds, counted from the row's start. The
/// newline that ends a row belongs to no row; but an empty match right at it
/// belongs to the row that it ends.
pub open spec fn clip(m: (int, int), line: (int, int)) -> Option<(int, int)> {
    if m.0 >= m.1 {
        if line.0 <= m.0 <= line.1 {
            Some((m.0 - line.0, m.0 - line.0))
        } else {
            None
        }
    } else {
        let start = greater(m.0, line.0);
        let end = less(m.1, line.1);
        if start < end {
            Some((start - line.0, end - line.0))
        } else {
            None
        }
    }
}

/// Clips a match, given in positions of the fetched rows, to a row.
pub fn clip_to_row(m: &std::ops::Range<usize>, line: &std::ops::Range<usize>) -> (r: Option<
    std::ops::Range<usize>,
>)
    ensures
        r is Some <==> clip(
            (m.start as int, m.end as int),
            (line.start as int, line.end as int),
        ) is Some,
        r matches Some(c) ==> clip(
            (m.start as int, m.end as int),
            (line.start as int, line.end as int),
        ) == Some((c.start as int, c.end as int)),
{
    if m.start >= m.end {
        return if line.start <= m.start && m.start <= line.end {
            Some((m.start - line.start)..(m.start - line.start))
        } else {
            None
        };
    }
    let start: usize = if m.start < line.start {
        line.start
    } else {
        m.start
    };
    let end: usize = if m.end < line.end {
        m.end
    } else {
        line.end
    };
    if start < end {
        Some((start - line.start)..(end - line.start))
    } else {
        None
    }
}

/// The parts of the matches that a row holds.
pub open spec fn clipped(matches: Seq<(int, int)>, line: (int, int)) -> Seq<(int, int)>
    decreases matches.len(),
{
    if matches.len() == 0 {
        Seq::empty()
    } else {
        match clip(matches.last(), line) {
            Some(c) => clipped(matches.drop_last(), line).push(c),
            None => clipped(matches.drop_last(), line),
        }
    }
}

/// Clips every match to a row and leaves out those that the row has no part of.
pub fn clip_all(matches: &[std::ops::Range<usize>], line: &std::ops::Range<usize>) -> (r: Vec<
    std::ops::Range<usize>,
>)
    ensures
        glyph::ranges(r@) == clipped(
            glyph::ranges(matches@),
            (line.start as int, line.end as int),
        ),
{
    let ghost at = (line.start as int, line.end as int);
    let ghost all = glyph::ranges(matches@);
    let mut out: Vec<std::ops::Range<usize>> = Vec::new();
    let mut i: usize = 0;
    assert(glyph::ranges(out@) =~= clipped(all.take(0), at));
    while i < matches.len()
        invariant
            i <= matches@.len(),
            at == (line.start as int, line.end as int),
            all == glyph::ranges(matches@),
            glyph::ranges(out@) == clipped(all.take(i as int), at),
        decreases matches.len() - i,
    {
        let ghost before = out@;
        assert(all.take(i + 1).drop_last() =~= all.take(i as int));
        if let Some(c) = clip_to_row(&matches[i], line) {
            out.push(c);
            assert(glyph::ranges(out@) =~= glyph::ranges(before).push(
                (c.start as int, c.end as int),
            ));
        }
        i = i + 1;
    }
    assert(all.take(matches@.len() as int) =~= all);
    out
}

// ---------------------------------------------------------------------------
// What holds of every row's search.

/// The searched ranges lie where they should: a match may start only in the
/// fetched rows, and only bytes of the hay are searched, as long as the row
/// lies in the fetched rows and they lie in the hay.
pub proof fn law_searched_ranges_lie_inside(
    win: (int, int),
    line_start: int,
    buf_len: int,
    lb: int,
    full_hay_len: int,
)
    requires
        0 <= win.0 <= win.1,
        0 <= line_start,
        line_start + win.1 <= buf_len,
        0 <= lb,
        lb + buf_len <= full_hay_len,
    ensures
        ({
            let accept = row_accept(win.0, win.1, line_start, buf_len, lb);
            let window = row_window(accept, full_hay_len);
            &&& lb <= accept.0 <= accept.1 <= lb + buf_len
            &&& 0 <= window.0 <= accept.0
            &&& accept.1 <= window.1 <= full_hay_len
        }),
{
}

/// However long the line is, no more is searched than the visible bytes and a
/// fixed margin.
pub proof fn law_a_row_searches_little(
    win: (int, int),
    line_start: int,
    buf_len: int,
    lb: int,
    full_hay_len: int,
)
    requires
        0 <= win.0 <= win.1,
        0 <= line_start,
        line_start + win.0 <= buf_len,
        0 <= lb,
    ensures
        ({
            let accept = row_accept(win.0, win.1, line_start, buf_len, lb);
            let window = row_window(accept, full_hay_len);
            &&& accept.1 - accept.0 <= win.1 - win.0 + MAX_MATCH_LEN + 1
            &&& window.1 - window.0 <= accept.1 - accept.0 + CTX_BEHIND + CONSUMABLE_REACH
        }),
{
}

/// The searched bytes decide every accepted match: its longest extent and the
/// context behind and ahead of it are searched as far as the hay has them.
pub proof fn law_the_window_decides_every_accepted_match(
    accept: (int, int),
    full_hay_len: int,
    s: int,
    e: int,
)
    requires
        0 <= accept.0 <= s < accept.1,
        s <= e <= s + MAX_MATCH_LEN,
        e <= full_hay_len,
    ensures
        ({
            let window = row_window(accept, full_hay_len);
            &&& window.0 <= greater(s - CTX_BEHIND, 0)
            &&& e <= window.1
            &&& window.1 < e + CTX_AHEAD ==> window.1 == full_hay_len
        }),
{
}

/// No visible match is missed: a match that is not empty nor longer than
/// [`MAX_MATCH_LEN`] and that paints a cell of a row starts where the row's
/// search accepts it, even if it starts on an earlier row.
pub proof fn law_painting_matches_are_accepted(
    raw: Seq<u8>,
    tab_stop: int,
    hscroll: int,
    cols: int,
    m: (int, int),
    row: (int, int),
    buf_len: int,
    lb: int,
)
    requires
        0 <= hscroll < usize::MAX,
        0 < cols,
        0 <= m.0 < m.1 <= m.0 + MAX_MATCH_LEN,
        m.0 < buf_len,
        0 <= row.0 <= row.1,
        raw.len() == row.1 - row.0,
        clip(m, row) matches Some(c) && glyph::mark_span(
            glyph::glyphs_of(line::body_of(raw)),
            glyph::at_least_one(tab_stop),
            hscroll,
            glyph::window_end(hscroll, cols),
            c.0,
            c.1,
        ) is Some,
    ensures
        searched_bytes(raw, tab_stop, hscroll, cols) matches Some(win) && ({
            let accept = row_accept(win.0, win.1, row.0, buf_len, lb);
            accept.0 <= lb + m.0 < accept.1
        }),
{
    let gs = glyph::glyphs_of(line::body_of(raw));
    let ts = glyph::at_least_one(tab_stop);
    let end = glyph::window_end(hscroll, cols);
    let p = glyph::lemma_shown_bytes_exist(gs, ts, hscroll, end);
    assert(glyph::shown_bytes(gs, ts, hscroll, end, p.0, p.1));
    let shown = line::visible_range_of(raw, tab_stop, hscroll, cols);
    assert(glyph::shown_bytes(gs, ts, hscroll, end, shown.0, shown.1));
    glyph::lemma_shown_bytes_in_order(gs, ts, hscroll, end, shown.0, shown.1);
    layout_laws::law_tokens_take_every_byte(line::body_of(raw));
    layout_laws::law_a_visible_range_is_not_empty(line::body_of(raw), ts, hscroll, end, shown);
    let c = clip(m, row).unwrap();
    if c.1 <= shown.0 || c.0 >= shown.1 {
        layout_laws::law_marks_outside_the_visible_bytes_paint_nothing(
            gs,
            ts,
            hscroll,
            end,
            shown,
            c.0,
            c.1,
        );
    }
}

/// No visible empty match is missed either: one that paints a cell of a row
/// starts where the row's search accepts it, or sits at the very end of the
/// fetched rows, which is then asked about as well. That holds of rows of which
/// anything is visible, and of matches that no more than [`MAX_MATCH_LEN`] bytes
/// of characters without columns part from the visible bytes.
pub proof fn law_painting_empty_matches_are_accepted(
    raw: Seq<u8>,
    tab_stop: int,
    hscroll: int,
    cols: int,
    at: int,
    row: (int, int),
    buf_len: int,
    lb: int,
)
    requires
        0 <= hscroll < usize::MAX,
        0 < cols,
        0 <= row.0 <= at <= row.1 <= buf_len,
        raw.len() == row.1 - row.0,
        glyph::mark_span(
            glyph::glyphs_of(line::body_of(raw)),
            glyph::at_least_one(tab_stop),
            hscroll,
            glyph::window_end(hscroll, cols),
            at - row.0,
            at - row.0,
        ) is Some,
        searched_bytes(raw, tab_stop, hscroll, cols) matches Some(win) && row.0 + win.0 <= at
            + MAX_MATCH_LEN,
    ensures
        searched_bytes(raw, tab_stop, hscroll, cols) matches Some(win) && ({
            let accept = row_accept(win.0, win.1, row.0, buf_len, lb);
            &&& accept.0 <= lb + at
            &&& at < buf_len ==> lb + at < accept.1
            &&& at == buf_len ==> row.0 + win.1 == buf_len
        }),
{
    let body = line::body_of(raw);
    let gs = glyph::glyphs_of(body);
    let ts = glyph::at_least_one(tab_stop);
    let end = glyph::window_end(hscroll, cols);
    let p = glyph::lemma_shown_bytes_exist(gs, ts, hscroll, end);
    assert(glyph::shown_bytes(gs, ts, hscroll, end, p.0, p.1));
    let shown = line::visible_range_of(raw, tab_stop, hscroll, cols);
    assert(glyph::shown_bytes(gs, ts, hscroll, end, shown.0, shown.1));
    layout_laws::law_tokens_take_every_byte(body);
    layout_laws::law_a_visible_range_is_not_empty(body, ts, hscroll, end, shown);
    if shown.0 < shown.1 {
        layout_laws::law_a_painted_empty_mark_is_not_past_the_visible_bytes(
            gs,
            ts,
            hscroll,
            end,
            shown,
            at - row.0,
        );
    }
}

/// The matches come one after the other and do not overlap.
pub open spec fn one_by_one(matches: Seq<(int, int)>) -> bool {
    &&& forall|i: int| 0 <= i < matches.len() ==> (#[trigger] matches[i]).0 <= matches[i].1
    &&& forall|i: int, j: int|
        0 <= i < j < matches.len() ==> (#[trigger] matches[i]).0 < (#[trigger] matches[j]).0
            && matches[i].1 <= matches[j].0
}

/// However long the line is, a row has few matches: of matches, in positions of
/// the hay, that do not overlap, start where the row's search accepts them and
/// do not end before its visible bytes, there are at most two more than visible
/// bytes.
pub proof fn law_a_row_has_few_matches(
    win: (int, int),
    line_start: int,
    buf_len: int,
    lb: int,
    matches: Seq<(int, int)>,
)
    requires
        0 <= win.0 <= win.1,
        one_by_one(matches),
        forall|i: int|
            0 <= i < matches.len() ==> {
                let accept = row_accept(win.0, win.1, line_start, buf_len, lb);
                accept.0 <= (#[trigger] matches[i]).0 < accept.1 && lb + line_start + win.0
                    <= matches[i].1
            },
    ensures
        matches.len() <= win.1 - win.0 + 2,
{
    let n = matches.len() as int;
    if n > 1 {
        assert(matches[0].1 <= matches[1].0);
        lemma_starts_spread(matches, 1, n - 1);
        assert(matches[n - 1].0 <= lb + line_start + win.1);
    }
}

/// Starts that grow lie as far apart as there are matches between them.
proof fn lemma_starts_spread(matches: Seq<(int, int)>, i: int, j: int)
    requires
        one_by_one(matches),
        0 <= i <= j < matches.len(),
    ensures
        matches[j].0 - matches[i].0 >= j - i,
    decreases j - i,
{
    if i < j {
        lemma_starts_spread(matches, i, j - 1);
        assert(matches[j - 1].0 < matches[j].0);
    }
}

/// The matches of a row are what the matcher found, each where it was found: a
/// hit lies as far into the searched window as the match that is returned for it
/// lies into the fetched rows, seen from the start of the hay; and a hit at the
/// end of the rows is the last match, where that end was asked about.
pub proof fn law_matches_are_the_hits_in_place(
    q: RowQuery,
    lb: int,
    hits: Seq<(usize, usize)>,
    end_hit: Option<(usize, usize)>,
    r: Seq<std::ops::Range<usize>>,
)
    requires
        answer_fits(q, lb, hits, end_hit),
        glyph::ranges(r) == row_matches(q, lb, hits, end_hit),
    ensures
        q.search_window ==> r.len() >= hits.len() && forall|i: int|
            0 <= i < hits.len() ==> {
                &&& lb + (#[trigger] r[i]).start == q.window.start + hits[i].0
                &&& lb + r[i].end == q.window.start + hits[i].1
            },
        q.search_end && end_hit is Some ==> r.len() > 0 && lb + r.last().start
            == end_hit.unwrap().0 && lb + r.last().end == end_hit.unwrap().1,
        r.len() == (if q.search_window {
            hits.len() as int
        } else {
            0
        }) + (if q.search_end && end_hit is Some {
            1int
        } else {
            0
        }),
{
    let all = glyph::ranges(r);
    assert(all.len() == r.len());
    assert forall|i: int| 0 <= i < r.len() implies all[i] == (
        (#[trigger] r[i]).start as int,
        r[i].end as int,
    ) by {}
    if q.search_window {
        assert forall|i: int| 0 <= i < hits.len() implies {
            &&& lb + (#[trigger] r[i]).start == q.window.start + hits[i].0
            &&& lb + r[i].end == q.window.start + hits[i].1
        } by {
            assert(all[i] == (hits[i].0 + q.window.start - lb, hits[i].1 + q.window.start - lb));
        }
    }
    if r.len() > 0 {
        assert(r.last() == r[r.len() - 1]);
    }
}

/// The lesser and the greater of two numbers are those two numbers, in order.
pub proof fn law_less_and_greater_are_the_two(a: int, b: int)
    ensures
        less(a, b) <= a <= greater(a, b),
        less(a, b) <= b <= greater(a, b),
        less(a, b) + greater(a, b) == a + b,
{
}

/// What a row holds of a match is what the two have in common: of a match that is
/// not empty, exactly the bytes that lie in both; of an empty one, its place, if
/// the row reaches to it.
pub proof fn law_a_clip_is_the_common_part(m: (int, int), row: (int, int), p: int)
    requires
        row.0 <= row.1,
    ensures
        m.0 < m.1 ==> (m.0 <= p < m.1 && row.0 <= p < row.1 <==> (clip(m, row) matches Some(c)
            && c.0 <= p - row.0 < c.1)),
        m.0 >= m.1 ==> (clip(m, row) is Some <==> row.0 <= m.0 <= row.1),
        clip(m, row) matches Some(c) ==> 0 <= c.0 <= c.1 <= row.1 - row.0,
        clip(m, row) matches Some(c) ==> (m.0 < m.1 <==> c.0 < c.1),
        m.0 >= m.1 ==> (clip(m, row) matches Some(c) ==> row.0 + c.0 == m.0),
{
}

/// A row's query lies where it should: matches may start in the fetched rows
/// only, and only bytes of the hay are searched, the accepted starts among them;
/// the end of the rows is asked about only where a line is there.
pub proof fn law_a_query_lies_in_the_hay(
    search: RowSearch,
    buf_len: int,
    raw: Seq<u8>,
    row: (int, int),
    tab_stop: int,
    hscroll: int,
    cols: int,
    r: Option<RowQuery>,
)
    requires
        0 <= hscroll < usize::MAX,
        0 <= cols,
        0 <= row.0 <= row.1 <= buf_len,
        raw.len() == row.1 - row.0,
        search.buf_hi == search.lb + buf_len,
        search.buf_hi <= search.hay_len,
        asks(search, buf_len, raw, row.0, tab_stop, hscroll, cols, r),
    ensures
        r matches Some(q) ==> {
            &&& search.lb <= q.accept.start <= q.accept.end <= search.buf_hi
            &&& q.window.start <= q.accept.start && q.accept.end <= q.window.end
            &&& q.window.end <= search.hay_len
            &&& q.accept.start - q.window.start <= CTX_BEHIND
            &&& q.window.end - q.accept.end <= MAX_MATCH_LEN + CTX_AHEAD - 1
            &&& q.search_window <==> q.accept.start < q.accept.end
            &&& q.search_window ==> q.window.start + q.buf_hi_row == search.buf_hi
            &&& q.search_window ==> (searched_bytes(raw, tab_stop, hscroll, cols) matches Some(win)
                && q.window.start + q.win_start_row == search.lb + row.0 + win.0)
            &&& q.search_end ==> search.eof_zero_width_ok && row.1 == buf_len
        },
{
    lemma_searched_bytes(raw, tab_stop, hscroll, cols);
}

/// What is searched of a row are bytes of the row.
proof fn lemma_searched_bytes(raw: Seq<u8>, tab_stop: int, hscroll: int, cols: int)
    requires
        0 <= hscroll < usize::MAX,
        0 <= cols,
    ensures
        searched_bytes(raw, tab_stop, hscroll, cols) matches Some(win) ==> 0 <= win.0 <= win.1
            <= raw.len(),
{
    let body = line::body_of(raw);
    let gs = glyph::glyphs_of(body);
    let ts = glyph::at_least_one(tab_stop);
    let end = glyph::window_end(hscroll, cols);
    if cols > 0 {
        let p = glyph::lemma_shown_bytes_exist(gs, ts, hscroll, end);
        assert(glyph::shown_bytes(gs, ts, hscroll, end, p.0, p.1));
        let shown = line::visible_range_of(raw, tab_stop, hscroll, cols);
        assert(glyph::shown_bytes(gs, ts, hscroll, end, shown.0, shown.1));
        glyph::lemma_shown_bytes_in_order(gs, ts, hscroll, end, shown.0, shown.1);
        layout_laws::law_tokens_take_every_byte(body);
    }
}

/// A row's query misses no match that paints a cell of the row: where the match
/// is not empty nor longer than [`MAX_MATCH_LEN`], the query accepts its start,
/// searches all of it and the context before and after it, as far as the hay has
/// them, and does not take it for one that ends before the row's visible bytes.
pub proof fn law_a_query_covers_every_painting_match(
    search: RowSearch,
    buf_len: int,
    raw: Seq<u8>,
    row: (int, int),
    tab_stop: int,
    hscroll: int,
    cols: int,
    r: Option<RowQuery>,
    m: (int, int),
)
    requires
        0 <= hscroll < usize::MAX,
        0 < cols,
        0 <= row.0 <= row.1 <= buf_len,
        raw.len() == row.1 - row.0,
        search.buf_hi == search.lb + buf_len,
        search.buf_hi <= search.hay_len,
        asks(search, buf_len, raw, row.0, tab_stop, hscroll, cols, r),
        0 <= m.0 < m.1 <= m.0 + 4096,
        m.0 < buf_len,
        search.lb + m.1 <= search.hay_len,
        clip(m, row) matches Some(c) && glyph::mark_span(
            glyph::glyphs_of(line::body_of(raw)),
            glyph::at_least_one(tab_stop),
            hscroll,
            glyph::window_end(hscroll, cols),
            c.0,
            c.1,
        ) is Some,
    ensures
        r matches Some(q) && {
            &&& q.search_window
            &&& q.accept.start <= search.lb + m.0 < q.accept.end
            &&& q.window.start <= search.lb + m.0 && search.lb + m.1 <= q.window.end
            &&& q.window.start == 0 || q.window.start + 4 <= search.lb + m.0
            &&& q.window.end == search.hay_len || search.lb + m.1 + 4 <= q.window.end
            &&& q.window.start + q.win_start_row <= search.lb + m.1
        },
{
    law_painting_matches_are_accepted(
        raw,
        tab_stop,
        hscroll,
        cols,
        m,
        row,
        buf_len,
        search.lb as int,
    );
    let win = searched_bytes(raw, tab_stop, hscroll, cols).unwrap();
    let accept = row_accept(win.0, win.1, row.0, buf_len, search.lb as int);
    law_the_window_decides_every_accepted_match(
        accept,
        search.hay_len as int,
        search.lb + m.0,
        search.lb + m.1,
    );
    lemma_searched_bytes(raw, tab_stop, hscroll, cols);
    // the match reaches into the visible bytes.
    let body = line::body_of(raw);
    let gs = glyph::glyphs_of(body);
    let ts = glyph::at_least_one(tab_stop);
    let end = glyph::window_end(hscroll, cols);
    let p = glyph::lemma_shown_bytes_exist(gs, ts, hscroll, end);
    assert(glyph::shown_bytes(gs, ts, hscroll, end, p.0, p.1));
    let shown = line::visible_range_of(raw, tab_stop, hscroll, cols);
    assert(glyph::shown_bytes(gs, ts, hscroll, end, shown.0, shown.1));
    let c = clip(m, row).unwrap();
    if c.1 <= shown.0 {
        layout_laws::law_marks_outside_the_visible_bytes_paint_nothing(
            gs,
            ts,
            hscroll,
            end,
            shown,
            c.0,
            c.1,
        );
    }
}

/// A row's query misses no empty match that paints a cell of the row either: it
/// accepts its place, or asks about the end of the rows where that is its place
/// and a line is there. That holds of rows of which anything is visible, and of
/// matches that no more than [`MAX_MATCH_LEN`] bytes of characters without
/// columns part from the visible bytes.
pub proof fn law_a_query_covers_every_painting_empty_match(
    search: RowSearch,
    buf_len: int,
    raw: Seq<u8>,
    row: (int, int),
    tab_stop: int,
    hscroll: int,
    cols: int,
    q: RowQuery,
    at: int,
)
    requires
        0 <= hscroll < usize::MAX,
        0 < cols,
        0 <= row.0 <= at <= row.1 <= buf_len,
        raw.len() == row.1 - row.0,
        search.buf_hi == search.lb + buf_len,
        search.buf_hi <= search.hay_len,
        asks(search, buf_len, raw, row.0, tab_stop, hscroll, cols, Some(q)),
        glyph::mark_span(
            glyph::glyphs_of(line::body_of(raw)),
            glyph::at_least_one(tab_stop),
            hscroll,
            glyph::window_end(hscroll, cols),
            at - row.0,
            at - row.0,
        ) is Some,
        searched_bytes(raw, tab_stop, hscroll, cols) matches Some(win) && row.0 + win.0 <= at
            + MAX_MATCH_LEN,
    ensures
        at < buf_len ==> q.search_window && q.accept.start <= search.lb + at < q.accept.end,
        at == buf_len ==> q.search_end == search.eof_zero_width_ok,
        q.search_window ==> (searched_bytes(raw, tab_stop, hscroll, cols) matches Some(win) && (
        row.0 + win.0 <= at ==> q.window.start + q.win_start_row <= search.lb + at)),
{
    law_painting_empty_matches_are_accepted(
        raw,
        tab_stop,
        hscroll,
        cols,
        at,
        row,
        buf_len,
        search.lb as int,
    );
    lemma_searched_bytes(raw, tab_stop, hscroll, cols);
}

/// What is searched of a row are its visible bytes: they start with the first
/// visible character, and end with the last one, or with the row where that is
/// the last one of the row. Where nothing is visible nothing is searched.
pub proof fn law_searched_bytes_are_the_visible_ones(
    raw: Seq<u8>,
    tab_stop: int,
    hscroll: int,
    cols: int,
    shown: (int, int),
)
    requires
        0 <= hscroll,
        0 < cols,
        hscroll + cols <= usize::MAX,
        shown.0 < shown.1,
        glyph::shown_bytes(
            glyph::glyphs_of(line::body_of(raw)),
            if tab_stop < 1 {
                1
            } else {
                tab_stop
            },
            hscroll,
            hscroll + cols,
            shown.0,
            shown.1,
        ),
    ensures
        searched_bytes(raw, tab_stop, hscroll, cols) matches Some(win) && win.0 == shown.0 && (
        win.1 == shown.1 || (shown.1 == line::body_of(raw).len() && win.1 == raw.len())),
        shown.1 == line::body_of(raw).len() ==> (searched_bytes(
            raw,
            tab_stop,
            hscroll,
            cols,
        ) matches Some(win) && win.1 == raw.len()),
{
    let gs = glyph::glyphs_of(line::body_of(raw));
    let ts = glyph::at_least_one(tab_stop);
    let seen = line::visible_range_of(raw, tab_stop, hscroll, cols);
    assert(glyph::shown_bytes(gs, ts, hscroll, hscroll + cols, shown.0, shown.1));
    assert(glyph::shown_bytes(gs, ts, hscroll, hscroll + cols, seen.0, seen.1));
    glyph::lemma_shown_bytes_unique(gs, ts, hscroll, hscroll + cols, shown, seen);
}

/// A blank row is searched for empty matches, as it has a cursor position to show
/// them at: where it is not scrolled past, its query accepts each of its places,
/// or asks about the end of the rows where that is its place and a line is there.
pub proof fn law_a_blank_row_is_searched(
    search: RowSearch,
    buf_len: int,
    raw: Seq<u8>,
    row: (int, int),
    tab_stop: int,
    cols: int,
    r: Option<RowQuery>,
    at: int,
)
    requires
        0 < cols <= usize::MAX,
        0 <= row.0 <= at <= row.1 <= buf_len,
        raw.len() == row.1 - row.0,
        raw.len() == 0 || raw == seq![0x0du8],
        search.buf_hi == search.lb + buf_len,
        search.buf_hi <= search.hay_len,
        asks(search, buf_len, raw, row.0, tab_stop, 0, cols, r),
    ensures
        r matches Some(q) && {
            &&& at < buf_len ==> q.search_window && q.accept.start <= search.lb + at < q.accept.end
            &&& at == buf_len ==> q.search_end == search.eof_zero_width_ok
        },
{
    let body = line::body_of(raw);
    assert(body.len() == 0);
    let gs = glyph::glyphs_of(body);
    let ts = glyph::at_least_one(tab_stop);
    let end = glyph::window_end(0, cols);
    let p = glyph::lemma_shown_bytes_exist(gs, ts, 0, end);
    assert(glyph::shown_bytes(gs, ts, 0, end, p.0, p.1));
    let shown = line::visible_range_of(raw, tab_stop, 0, cols);
    assert(glyph::shown_bytes(gs, ts, 0, end, shown.0, shown.1));
    glyph::lemma_shown_bytes_in_order(gs, ts, 0, end, shown.0, shown.1);
    layout_laws::law_tokens_take_every_byte(body);
}

/// A match that a row's search accepts and finds is reported, wherever the
/// searched window ends: it is held back only where the hay itself ends less than
/// a character after it, without the file ending there, or at the end of the
/// fetched rows where no line is.
pub proof fn law_an_accepted_match_is_reported(
    accept: (int, int),
    full_hay_len: int,
    s: int,
    e: int,
    hay_reaches_eof: bool,
    payload_end: int,
    eof_zero_width_ok: bool,
)
    requires
        0 <= accept.0 <= s < accept.1,
        s <= e <= s + MAX_MATCH_LEN,
        e <= full_hay_len,
    ensures
        resolved(
            s,
            e,
            row_window(accept, full_hay_len).1,
            full_hay_len,
            hay_reaches_eof,
            payload_end,
            eof_zero_width_ok,
        ) <==> (e + 4 <= full_hay_len || hay_reaches_eof) && (s == payload_end
            ==> eof_zero_width_ok),
{
    law_the_window_decides_every_accepted_match(accept, full_hay_len, s, e);
}

}
