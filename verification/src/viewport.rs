//! One screen of rows: which bytes of what was fetched are its rows, what each
//! row shows, and what is known of the edges of what was fetched.
use vstd::prelude::*;

use crate::document::HScroll;
use crate::document::RowMarks;
use crate::document::ViewportRender;
use crate::document::MAX_HSCROLL;
use crate::glyph;
use crate::layout_laws;
use crate::line;
use crate::meter::CertifiedEnd;
use crate::search;
use crate::search::RowQuery;
use crate::search::RowSearch;
use crate::text;

verus! {

/// Why fetching the rows of a screen stopped.
#[derive(Debug, Clone, Copy, PartialEq, Eq, Structural)]
pub enum FillOutcome {
    /// All rows were found.
    Rows,
    /// The budget ran out, or a source gave less than was asked for.
    Budget,
    /// The source's data ends here.
    End(CertifiedEnd),
}

/// No more bytes are to come for a screen: what follows its last newline is a
/// row of its own.
pub open spec fn no_more(fill: FillOutcome) -> bool {
    !(fill is Rows)
}

impl FillOutcome {
    /// Whether no more bytes are to come for a screen: one that got all its rows
    /// has no unfinished last one.
    pub fn stops(self) -> (r: bool)
        ensures
            r == no_more(self),
    {
        match self {
            FillOutcome::Rows => false,
            _ => true,
        }
    }
}

/// How many bytes a screen of `rows` rows of `cols` columns, scrolled right by
/// `hscroll`, may read: at least a block, and four bytes for each column.
pub open spec fn budget_of(block_size: int, rows: int, cols: int, hscroll: int) -> int {
    let span = search::less(hscroll + search::greater(cols, 1), usize::MAX as int);
    search::greater(block_size, search::less(4 * (rows * span), usize::MAX as int))
}

/// How many bytes may be read for a screen of `rows` rows of `cols` columns,
/// scrolled right by `hscroll`, so that scrolling right into a long line reads
/// far enough.
pub fn scan_budget(block_size: usize, rows: usize, cols: usize, hscroll: HScroll) -> (r: usize)
    ensures
        r == budget_of(block_size as int, rows as int, cols as int, hscroll.offset()),
{
    let span: usize = hscroll.columns().saturating_add(
        if cols < 1 {
            1
        } else {
            cols
        },
    );
    let cells: usize = match rows.checked_mul(span) {
        Some(n) => n,
        None => usize::MAX,
    };
    let need: usize = match cells.checked_mul(4) {
        Some(n) => n,
        None => usize::MAX,
    };
    if block_size < need {
        need
    } else {
        block_size
    }
}

/// The rows of a screen in the fetched bytes: the first `rows` lines that a
/// newline ends, each without it; and, where fewer were found and no more is to
/// come, what follows the last of them.
pub open spec fn screen_rows(buf: Seq<u8>, rows: int, stop: bool) -> Seq<(int, int)> {
    let ends = text::newline_positions(buf);
    let full = search::less(rows, ends.len() as int);
    let ended = Seq::new(full as nat, |i: int| (text::line_start(buf, i), ends[i]));
    let rest = text::line_start(buf, ends.len() as int);
    if full < rows && rest < buf.len() && stop {
        ended.push((rest, buf.len() as int))
    } else {
        ended
    }
}

/// Finds the rows of a screen in the fetched bytes. `stop` says that no more
/// bytes are to come for this screen.
pub fn row_bounds(buf: &[u8], rows: usize, stop: bool) -> (r: Vec<std::ops::Range<usize>>)
    ensures
        glyph::ranges(r@) == screen_rows(buf@, rows as int, stop),
{
    let mut out: Vec<std::ops::Range<usize>> = Vec::new();
    let mut line_start: usize = 0;
    let mut i: usize = 0;
    let ghost ends = text::newline_positions(buf@);
    proof {
        assert(buf@.take(0) =~= Seq::<u8>::empty());
        text::lemma_occurrences(buf@, text::NEWLINE);
    }
    while i < buf.len() && out.len() < rows
        invariant
            i <= buf@.len(),
            ends == text::newline_positions(buf@),
            out@.len() <= rows,
            out@.len() == text::newline_count(buf@.take(i as int)),
            out@.len() <= ends.len(),
            line_start == text::line_start(buf@, out@.len() as int),
            line_start <= i,
            glyph::ranges(out@) == Seq::new(
                out@.len(),
                |k: int| (text::line_start(buf@, k), ends[k]),
            ),
        decreases buf.len() - i,
    {
        proof {
            let before = buf@.take(i as int);
            let here = buf@.take(i + 1);
            assert(here.drop_last() =~= before);
            assert(buf@ =~= here + buf@.skip(i + 1));
            text::lemma_occurrences_concat(here, buf@.skip(i + 1), text::NEWLINE);
            if buf@[i as int] == text::NEWLINE {
                assert(ends[out@.len() as int] == i);
            }
        }
        if buf[i] == text::NEWLINE {
            let ghost before = out@;
            out.push(line_start..i);
            assert(glyph::ranges(out@) =~= glyph::ranges(before).push(
                (line_start as int, i as int),
            ));
            assert(glyph::ranges(out@) =~= Seq::new(
                out@.len(),
                |k: int| (text::line_start(buf@, k), ends[k]),
            ));
            line_start = i + 1;
        }
        i = i + 1;
    }
    proof {
        if i == buf@.len() {
            assert(buf@.take(i as int) =~= buf@);
        }
    }
    if out.len() < rows && line_start < buf.len() && stop {
        out.push(line_start..buf.len());
    }
    assert(glyph::ranges(out@) =~= screen_rows(buf@, rows as int, stop));
    out
}

// ---------------------------------------------------------------------------
// What a row shows.

/// The text that a row shows.
pub open spec fn shown_text(raw: Seq<u8>, tab_stop: int, hscroll: int, cols: int) -> Seq<char> {
    if cols == 0 {
        Seq::empty()
    } else {
        glyph::row_text(
            glyph::glyphs_of(line::body_of(raw)),
            glyph::at_least_one(tab_stop),
            hscroll,
            glyph::window_end(hscroll, cols),
        )
    }
}

/// The cells that the byte ranges `marks` of a row take.
pub open spec fn shown_spans(
    raw: Seq<u8>,
    tab_stop: int,
    hscroll: int,
    cols: int,
    marks: Seq<(int, int)>,
) -> Seq<(int, int)> {
    if cols == 0 {
        Seq::empty()
    } else {
        glyph::row_spans(
            glyph::glyphs_of(line::body_of(raw)),
            glyph::at_least_one(tab_stop),
            hscroll,
            glyph::window_end(hscroll, cols),
            marks,
            marks.len() as int,
        )
    }
}

/// The cells that the active match takes in a row.
pub open spec fn shown_current(
    raw: Seq<u8>,
    row: (int, int),
    tab_stop: int,
    hscroll: int,
    cols: int,
    current: Option<(int, int)>,
) -> Option<(int, int)> {
    match current {
        None => None,
        Some(m) => match search::clip(m, row) {
            None => None,
            Some(c) => {
                let spans = shown_spans(raw, tab_stop, hscroll, cols, seq![c]);
                if spans.len() > 0 {
                    Some(spans[0])
                } else {
                    None
                }
            },
        },
    }
}

/// One of the spans holds all of `c`.
pub open spec fn holds(spans: Seq<(int, int)>, c: (int, int)) -> bool {
    exists|i: int| 0 <= i < spans.len() && (#[trigger] spans[i]).0 <= c.0 && c.1 <= spans[i].1
}

/// The spans, with that of the active match added where none of them holds it:
/// the active match may be one that the row's search skipped over.
pub open spec fn with_current(spans: Seq<(int, int)>, current: Option<(int, int)>) -> Seq<
    (int, int),
> {
    match current {
        Some(c) => if holds(spans, c) {
            spans
        } else {
            spans.push(c)
        },
        None => spans,
    }
}

/// An optional range of cells as a pair.
pub open spec fn cells(r: Option<std::ops::Range<u16>>) -> Option<(int, int)> {
    match r {
        Some(c) => Some((c.start as int, c.end as int)),
        None => None,
    }
}

/// An optional range of bytes as a pair.
pub open spec fn span_of(r: Option<std::ops::Range<usize>>) -> Option<(int, int)> {
    match r {
        Some(c) => Some((c.start as int, c.end as int)),
        None => None,
    }
}

/// `text` and `marks` are what a row shows: its bytes `raw`, its place `row` in
/// the fetched bytes, and the matches and the active match in them.
pub open spec fn row_shows(
    raw: Seq<u8>,
    row: (int, int),
    tab_stop: int,
    hscroll: int,
    cols: int,
    matches: Seq<(int, int)>,
    current: Option<(int, int)>,
    text: Seq<char>,
    marks: RowMarks,
) -> bool {
    let cur = shown_current(raw, row, tab_stop, hscroll, cols, current);
    &&& text == shown_text(raw, tab_stop, hscroll, cols)
    &&& cells(marks.current) == cur
    &&& glyph::pairs(marks.spans@) == with_current(
        shown_spans(raw, tab_stop, hscroll, cols, search::clipped(matches, row)),
        cur,
    )
}

/// Every column and cell that laying a row out meets can be counted.
pub open spec fn row_fits(
    raw: Seq<u8>,
    tab_stop: int,
    hscroll: int,
    cols: int,
    marked: bool,
) -> bool {
    &&& line::columns_fit(raw, tab_stop, hscroll, cols)
    &&& marked ==> cols <= u16::MAX || line::width_bound(raw, tab_stop) - hscroll < u16::MAX
}

/// Lays out one row and its highlights. `matches` and `current_match` are in
/// positions of `buf`.
pub fn render_row(
    buf: &[u8],
    row: &std::ops::Range<usize>,
    tab_stop: usize,
    hscroll: usize,
    cols: usize,
    matches: &[std::ops::Range<usize>],
    current_match: &Option<std::ops::Range<usize>>,
) -> (r: (String, RowMarks))
    requires
        row.start <= row.end <= buf@.len(),
        row_fits(
            buf@.subrange(row.start as int, row.end as int),
            tab_stop as int,
            hscroll as int,
            cols as int,
            matches@.len() > 0 || current_match is Some,
        ),
    ensures
        row_shows(
            buf@.subrange(row.start as int, row.end as int),
            (row.start as int, row.end as int),
            tab_stop as int,
            hscroll as int,
            cols as int,
            glyph::ranges(matches@),
            span_of(*current_match),
            r.0@,
            r.1,
        ),
{
    let raw = vstd::slice::slice_subrange(buf, row.start, row.end);
    let ghost at = (row.start as int, row.end as int);
    let byte_marks = search::clip_all(matches, row);
    proof {
        lemma_clipped_len(glyph::ranges(matches@), at);
        assert(byte_marks@.len() == glyph::ranges(byte_marks@).len());
    }
    let (text, mut spans) = line::layout_row_with_marks(
        raw,
        tab_stop,
        hscroll,
        cols,
        &byte_marks,
    );
    let ghost found = glyph::pairs(spans@);
    assert(found =~= shown_spans(
        raw@,
        tab_stop as int,
        hscroll as int,
        cols as int,
        search::clipped(glyph::ranges(matches@), at),
    ));
    let mut current: Option<std::ops::Range<u16>> = None;
    if let Some(m) = current_match {
        if let Some(c) = search::clip_to_row(m, row) {
            let ghost clip = (c.start as int, c.end as int);
            let mut one: Vec<std::ops::Range<usize>> = Vec::new();
            one.push(c);
            assert(glyph::ranges(one@) =~= seq![clip]);
            let (_, own) = line::layout_row_with_marks(raw, tab_stop, hscroll, cols, &one);
            assert(glyph::pairs(own@) =~= shown_spans(
                raw@,
                tab_stop as int,
                hscroll as int,
                cols as int,
                seq![clip],
            ));
            if own.len() > 0 {
                let lo: u16 = own[0].start;
                let hi: u16 = own[0].end;
                assert(glyph::pairs(own@)[0] == (lo as int, hi as int));
                current = Some(lo..hi);
                if !is_held(&spans, lo, hi) {
                    spans.push(lo..hi);
                    assert(glyph::pairs(spans@) =~= found.push((lo as int, hi as int)));
                }
            }
        }
    }
    (text, RowMarks { spans, current })
}

proof fn lemma_clipped_len(matches: Seq<(int, int)>, row: (int, int))
    ensures
        search::clipped(matches, row).len() <= matches.len(),
    decreases matches.len(),
{
    if matches.len() > 0 {
        lemma_clipped_len(matches.drop_last(), row);
    }
}

/// Whether one of the spans holds all of `[lo, hi)`.
fn is_held(spans: &Vec<std::ops::Range<u16>>, lo: u16, hi: u16) -> (r: bool)
    ensures
        r == holds(glyph::pairs(spans@), (lo as int, hi as int)),
{
    let ghost all = glyph::pairs(spans@);
    let mut i: usize = 0;
    while i < spans.len()
        invariant
            i <= spans@.len(),
            all == glyph::pairs(spans@),
            forall|k: int| 0 <= k < i ==> !((#[trigger] all[k]).0 <= lo && hi <= all[k].1),
        decreases spans.len() - i,
    {
        assert(all[i as int] == (spans@[i as int].start as int, spans@[i as int].end as int));
        if spans[i].start <= lo && hi <= spans[i].end {
            return true;
        }
        i = i + 1;
    }
    false
}

/// The matches of row `i`; none where there is no search.
pub open spec fn matches_of_row(
    matches: Seq<Vec<std::ops::Range<usize>>>,
    i: int,
) -> Seq<std::ops::Range<usize>> {
    if i < matches.len() {
        matches[i]@
    } else {
        Seq::empty()
    }
}

/// Renders a screen: its rows are those of [`row_bounds`], each with its own
/// matches, `matches[i]` for row `i`; without a search there are none.
pub fn render_viewport(
    buf: &[u8],
    rows: usize,
    stop: bool,
    tab_stop: usize,
    hscroll: HScroll,
    cols: usize,
    matches: &[Vec<std::ops::Range<usize>>],
    current_match: &Option<std::ops::Range<usize>>,
) -> (r: ViewportRender)
    requires
        forall|i: int|
            0 <= i < screen_rows(buf@, rows as int, stop).len() ==> row_fits(
                #[trigger] row_bytes(buf@, screen_rows(buf@, rows as int, stop)[i]),
                tab_stop as int,
                hscroll.offset(),
                cols as int,
                matches_of_row(matches@, i).len() > 0 || current_match is Some,
            ),
    ensures
        r.rows@.len() == screen_rows(buf@, rows as int, stop).len(),
        r.marks@.len() == r.rows@.len(),
        forall|i: int|
            0 <= i < r.rows@.len() ==> row_shows(
                row_bytes(buf@, screen_rows(buf@, rows as int, stop)[i]),
                screen_rows(buf@, rows as int, stop)[i],
                tab_stop as int,
                hscroll.offset(),
                cols as int,
                glyph::ranges(matches_of_row(matches@, i)),
                span_of(*current_match),
                (#[trigger] r.rows@[i])@,
                r.marks@[i],
            ),
{
    let bounds = row_bounds(buf, rows, stop);
    let ghost all = screen_rows(buf@, rows as int, stop);
    let columns: usize = hscroll.columns();
    let none: Vec<std::ops::Range<usize>> = Vec::new();
    let mut out: Vec<String> = Vec::new();
    let mut marks: Vec<RowMarks> = Vec::new();
    let mut i: usize = 0;
    while i < bounds.len()
        invariant
            all == screen_rows(buf@, rows as int, stop),
            glyph::ranges(bounds@) == all,
            columns == hscroll.offset(),
            none@.len() == 0,
            i <= bounds@.len(),
            out@.len() == i,
            marks@.len() == i,
            forall|i: int|
                0 <= i < all.len() ==> row_fits(
                    #[trigger] row_bytes(buf@, all[i]),
                    tab_stop as int,
                    hscroll.offset(),
                    cols as int,
                    matches_of_row(matches@, i).len() > 0 || current_match is Some,
                ),
            forall|k: int|
                0 <= k < i ==> row_shows(
                    row_bytes(buf@, all[k]),
                    all[k],
                    tab_stop as int,
                    hscroll.offset(),
                    cols as int,
                    glyph::ranges(matches_of_row(matches@, k)),
                    span_of(*current_match),
                    (#[trigger] out@[k])@,
                    marks@[k],
                ),
        decreases bounds.len() - i,
    {
        proof {
            assert(all[i as int] == (bounds@[i as int].start as int, bounds@[i as int].end as int));
            lemma_screen_rows_lie_inside(buf@, rows as int, stop, i as int);
            assert(row_fits(
                row_bytes(buf@, all[i as int]),
                tab_stop as int,
                hscroll.offset(),
                cols as int,
                matches_of_row(matches@, i as int).len() > 0 || current_match is Some,
            ));
        }
        let own: &Vec<std::ops::Range<usize>> = if i < matches.len() {
            &matches[i]
        } else {
            &none
        };
        assert(own@ =~= matches_of_row(matches@, i as int));
        let (row, row_marks) = render_row(
            buf,
            &bounds[i],
            tab_stop,
            columns,
            cols,
            own,
            current_match,
        );
        out.push(row);
        marks.push(row_marks);
        i = i + 1;
    }
    ViewportRender { rows: out, marks }
}

/// Plans the searches of a screen's rows, one for each.
pub fn row_queries(
    search: RowSearch,
    buf: &[u8],
    rows: usize,
    stop: bool,
    tab_stop: usize,
    hscroll: HScroll,
    cols: usize,
) -> (r: Vec<Option<RowQuery>>)
    requires
        search.lb + buf@.len() <= search.buf_hi,
        forall|i: int|
            0 <= i < screen_rows(buf@, rows as int, stop).len() ==> line::columns_fit(
                #[trigger] row_bytes(buf@, screen_rows(buf@, rows as int, stop)[i]),
                tab_stop as int,
                hscroll.offset(),
                cols as int,
            ),
    ensures
        r@.len() == screen_rows(buf@, rows as int, stop).len(),
        forall|i: int|
            0 <= i < r@.len() ==> search::asks(
                search,
                buf@.len() as int,
                row_bytes(buf@, screen_rows(buf@, rows as int, stop)[i]),
                screen_rows(buf@, rows as int, stop)[i].0,
                tab_stop as int,
                hscroll.offset(),
                cols as int,
                #[trigger] r@[i],
            ),
{
    let bounds = row_bounds(buf, rows, stop);
    let ghost all = screen_rows(buf@, rows as int, stop);
    let columns: usize = hscroll.columns();
    let len: usize = buf.len();
    let mut out: Vec<Option<RowQuery>> = Vec::new();
    let mut i: usize = 0;
    while i < bounds.len()
        invariant
            all == screen_rows(buf@, rows as int, stop),
            glyph::ranges(bounds@) == all,
            columns == hscroll.offset(),
            len == buf@.len(),
            search.lb + buf@.len() <= search.buf_hi,
            i <= bounds@.len(),
            out@.len() == i,
            forall|i: int|
                0 <= i < all.len() ==> line::columns_fit(
                    #[trigger] row_bytes(buf@, all[i]),
                    tab_stop as int,
                    hscroll.offset(),
                    cols as int,
                ),
            forall|k: int|
                0 <= k < i ==> search::asks(
                    search,
                    buf@.len() as int,
                    row_bytes(buf@, all[k]),
                    all[k].0,
                    tab_stop as int,
                    hscroll.offset(),
                    cols as int,
                    #[trigger] out@[k],
                ),
        decreases bounds.len() - i,
    {
        proof {
            assert(all[i as int] == (bounds@[i as int].start as int, bounds@[i as int].end as int));
            lemma_screen_rows_lie_inside(buf@, rows as int, stop, i as int);
            assert(line::columns_fit(
                row_bytes(buf@, all[i as int]),
                tab_stop as int,
                hscroll.offset(),
                cols as int,
            ));
        }
        let raw = vstd::slice::slice_subrange(buf, bounds[i].start, bounds[i].end);
        let q = search::visible_window_query(
            search,
            len,
            raw,
            bounds[i].start,
            tab_stop,
            columns,
            cols,
        );
        out.push(q);
        i = i + 1;
    }
    out
}

/// What the matcher answered to a row's query.
#[derive(Debug, Clone, PartialEq, Eq)]
pub struct RowAnswer {
    /// The matches in the searched window, counted from its start.
    pub hits: Vec<(usize, usize)>,
    /// The match at the end of the fetched rows, in positions of the hay.
    pub end_hit: Option<(usize, usize)>,
}

/// The matches of a row in positions of the fetched rows; none where the row
/// asked for nothing.
pub open spec fn answered(query: Option<RowQuery>, lb: int, answer: RowAnswer) -> Seq<(int, int)> {
    match query {
        Some(q) => search::row_matches(q, lb, answer.hits@, answer.end_hit),
        None => Seq::empty(),
    }
}

/// Turns what the matcher answered to the rows' queries into the matches of
/// each row. `lb` is where the fetched rows start in the hay.
pub fn screen_matches(queries: &[Option<RowQuery>], lb: usize, answers: &[RowAnswer]) -> (r: Vec<
    Vec<std::ops::Range<usize>>,
>)
    requires
        queries@.len() == answers@.len(),
        forall|i: int|
            0 <= i < queries@.len() ==> (#[trigger] queries@[i] matches Some(q)
                ==> search::answer_fits(q, lb as int, answers@[i].hits@, answers@[i].end_hit)),
    ensures
        r@.len() == queries@.len(),
        forall|i: int|
            0 <= i < r@.len() ==> glyph::ranges((#[trigger] r@[i])@) == answered(
                queries@[i],
                lb as int,
                answers@[i],
            ),
{
    let mut out: Vec<Vec<std::ops::Range<usize>>> = Vec::new();
    let mut i: usize = 0;
    while i < queries.len()
        invariant
            queries@.len() == answers@.len(),
            forall|i: int|
                0 <= i < queries@.len() ==> (#[trigger] queries@[i] matches Some(q)
                    ==> search::answer_fits(
                    q,
                    lb as int,
                    answers@[i].hits@,
                    answers@[i].end_hit,
                )),
            i <= queries@.len(),
            out@.len() == i,
            forall|k: int|
                0 <= k < i ==> glyph::ranges((#[trigger] out@[k])@) == answered(
                    queries@[k],
                    lb as int,
                    answers@[k],
                ),
        decreases queries.len() - i,
    {
        let own: Vec<std::ops::Range<usize>> = match &queries[i] {
            Some(q) => search::visible_window_matches(
                q,
                lb,
                &answers[i].hits,
                answers[i].end_hit,
            ),
            None => Vec::new(),
        };
        assert(glyph::ranges(own@) =~= answered(queries@[i as int], lb as int, answers@[i as int]));
        out.push(own);
        i = i + 1;
    }
    out
}

/// The bytes of a row.
pub open spec fn row_bytes(buf: Seq<u8>, row: (int, int)) -> Seq<u8> {
    buf.subrange(row.0, row.1)
}

/// Every row of a screen lies in the fetched bytes.
proof fn lemma_screen_rows_lie_inside(buf: Seq<u8>, rows: int, stop: bool, i: int)
    requires
        0 <= rows,
        0 <= i < screen_rows(buf, rows, stop).len(),
    ensures
        0 <= screen_rows(buf, rows, stop)[i].0 <= screen_rows(buf, rows, stop)[i].1 <= buf.len(),
{
    text::lemma_occurrences(buf, text::NEWLINE);
    let ends = text::newline_positions(buf);
    if 0 < i < ends.len() {
        assert(ends[i - 1] < ends[i]);
    }
}

// ---------------------------------------------------------------------------
// The edges of what was fetched.

/// The hay of a screen's search, the fetched rows with their context, and what
/// is known of its edges.
#[derive(Debug, PartialEq, Eq)]
pub struct SearchFrame {
    /// The searched bytes.
    pub hay: Vec<u8>,
    /// Where the hay starts in the file.
    pub base: u64,
    /// Where the fetched rows start in the hay.
    pub lb: usize,
    /// Where the fetched rows end in the hay.
    pub payload_end: usize,
    /// The fetched rows end at the end of the file.
    pub buf_is_true_eof: bool,
    /// The hay ends at the end of the file.
    pub hay_reaches_eof: bool,
    /// The fetched rows end at the end of the file, and a line is there: an
    /// empty match may sit at their end.
    pub eof_zero_width_ok: bool,
}

/// The context before the fetched rows joins them without a gap.
pub open spec fn joins(top: int, before_at: int, before: Seq<u8>) -> bool {
    before_at + before.len() == top
}

/// The hay: the context before, as far as it joins, the rows, the context after.
pub open spec fn framed(
    top: int,
    buf: Seq<u8>,
    before_at: int,
    before: Seq<u8>,
    after: Seq<u8>,
) -> Seq<u8> {
    if joins(top, before_at, before) {
        before + buf + after
    } else {
        buf + after
    }
}

/// The fetched rows end at the end of the file: the source said so, or they
/// reach the size that it claims.
pub open spec fn ends_at_eof(top: int, buf: Seq<u8>, fill: FillOutcome, size: int) -> bool {
    fill is End || top + buf.len() == size
}

/// The hay ends at the end of the file: its end was seen, it reaches the size
/// that the source claims, or the rows already end there.
pub open spec fn reaches_eof(
    top: int,
    buf: Seq<u8>,
    after: Seq<u8>,
    ahead_hit_real_end: bool,
    fill: FillOutcome,
    size: int,
) -> bool {
    ahead_hit_real_end || top + buf.len() + after.len() == size || ends_at_eof(
        top,
        buf,
        fill,
        size,
    )
}

/// An empty match may sit at the end of the rows: they end at the end of the
/// file, and no final newline lies before it, for what follows a final newline
/// is no line.
pub open spec fn admits_at_end(hay: Seq<u8>, payload_end: int, at_eof: bool) -> bool {
    at_eof && !(payload_end == hay.len() && hay.len() > 0 && hay.last() == text::NEWLINE)
}

/// `f` is the hay of the rows `buf`, fetched at `top`, with their context, and it
/// says where it and the rows lie.
pub open spec fn frames(
    top: int,
    buf: Seq<u8>,
    before_at: int,
    before: Seq<u8>,
    after: Seq<u8>,
    f: SearchFrame,
) -> bool {
    &&& f.hay@ == framed(top, buf, before_at, before, after)
    &&& f.lb == if joins(top, before_at, before) {
        before.len() as int
    } else {
        0
    }
    &&& f.base == top - f.lb
    &&& f.payload_end == f.lb + buf.len()
}

/// `s` is what a row's search is told of the frame `f`.
pub open spec fn told_of(f: SearchFrame, s: RowSearch) -> bool {
    &&& s.hay_len == f.hay@.len()
    &&& s.lb == f.lb
    &&& s.buf_hi == f.payload_end
    &&& s.eof_zero_width_ok == f.eof_zero_width_ok
}

/// `r` is where the active match, at `current` in the file, lies in the hay of a
/// screen that starts at `top`.
pub open spec fn current_asked(
    f: SearchFrame,
    top: int,
    current: Option<u64>,
    r: Option<usize>,
) -> bool {
    match current {
        Some(t) => if top <= t <= top + (f.payload_end - f.lb) {
            r matches Some(p) && p == f.lb + (t - top)
        } else {
            r is None
        },
        None => r is None,
    }
}

/// `r` is the active match in positions of the fetched rows, where the matcher
/// found it at `found` in the hay.
pub open spec fn current_placed(
    f: SearchFrame,
    found: Option<(usize, usize)>,
    r: Option<std::ops::Range<usize>>,
) -> bool {
    match found {
        Some(h) => r matches Some(m) && m.start == h.0 - f.lb && m.end == h.1 - f.lb,
        None => r is None,
    }
}

/// Builds the hay of a screen that starts at `top`, from the fetched rows `buf`,
/// the context `before` them, which was read at `before_at`, and the context
/// `after` them.
pub fn search_frame(
    top: u64,
    buf: &[u8],
    before_at: u64,
    before: &[u8],
    after: &[u8],
    ahead_hit_real_end: bool,
    fill: FillOutcome,
    size: u64,
) -> (f: SearchFrame)
    requires
        before_at + before@.len() <= u64::MAX,
        top + buf@.len() + after@.len() <= u64::MAX,
        before@.len() + buf@.len() + after@.len() <= usize::MAX,
    ensures
        f.hay@ == framed(top as int, buf@, before_at as int, before@, after@),
        f.lb == if joins(top as int, before_at as int, before@) {
            before@.len() as int
        } else {
            0
        },
        f.base == top - f.lb,
        f.payload_end == f.lb + buf@.len(),
        f.buf_is_true_eof == ends_at_eof(top as int, buf@, fill, size as int),
        f.hay_reaches_eof == reaches_eof(
            top as int,
            buf@,
            after@,
            ahead_hit_real_end,
            fill,
            size as int,
        ),
        f.eof_zero_width_ok == admits_at_end(f.hay@, f.payload_end as int, f.buf_is_true_eof),
        frames(top as int, buf@, before_at as int, before@, after@, f),
{
    let mut hay: Vec<u8> = Vec::new();
    let mut lb: usize = 0;
    if before_at + before.len() as u64 == top {
        hay.extend_from_slice(before);
        lb = before.len();
    }
    hay.extend_from_slice(buf);
    let payload_end: usize = hay.len();
    hay.extend_from_slice(after);
    assert(hay@ =~= framed(top as int, buf@, before_at as int, before@, after@));
    let buf_end: u64 = top + buf.len() as u64;
    let ended: bool = match fill {
        FillOutcome::End(_) => true,
        _ => false,
    };
    let buf_is_true_eof: bool = ended || buf_end == size;
    let hay_reaches_eof: bool = ahead_hit_real_end || buf_end + after.len() as u64 == size
        || buf_is_true_eof;
    // what follows a final newline is no line, so nothing is found there.
    let phantom: bool = buf_is_true_eof && payload_end == hay.len() && hay.len() > 0
        && hay[hay.len() - 1] == text::NEWLINE;
    SearchFrame {
        hay,
        base: top - lb as u64,
        lb,
        payload_end,
        buf_is_true_eof,
        hay_reaches_eof,
        eof_zero_width_ok: buf_is_true_eof && !phantom,
    }
}

impl SearchFrame {
    /// What each row's search needs to know of the hay.
    pub fn row_search(&self) -> (s: RowSearch)
        ensures
            s.hay_len == self.hay@.len(),
            s.lb == self.lb,
            s.buf_hi == self.payload_end,
            s.eof_zero_width_ok == self.eof_zero_width_ok,
            told_of(*self, s),
    {
        RowSearch {
            hay_len: self.hay.len(),
            lb: self.lb,
            buf_hi: self.payload_end,
            eof_zero_width_ok: self.eof_zero_width_ok,
        }
    }

    /// Where in the hay the active match starts; nothing where it lies outside
    /// of the fetched rows.
    pub fn current_query(&self, top: u64, current: Option<u64>) -> (r: Option<usize>)
        requires
            self.lb <= self.payload_end,
        ensures
            r is Some <==> (current matches Some(t) && top <= t <= top + (self.payload_end
                - self.lb)),
            r matches Some(p) ==> (current matches Some(t) && p == self.lb + (t - top)),
            current_asked(*self, top as int, current, r),
    {
        match current {
            None => None,
            Some(target) => if target < top || target - top > (self.payload_end - self.lb) as u64 {
                None
            } else {
                Some((target - top) as usize + self.lb)
            },
        }
    }

    /// The active match in positions of the fetched rows, from what the matcher
    /// found at the position of [`SearchFrame::current_query`].
    pub fn current_match(&self, found: Option<(usize, usize)>) -> (r: Option<
        std::ops::Range<usize>,
    >)
        requires
            found matches Some(h) ==> self.lb <= h.0 && self.lb <= h.1,
        ensures
            r is Some <==> found is Some,
            r matches Some(m) ==> m.start == found.unwrap().0 - self.lb && m.end
                == found.unwrap().1 - self.lb,
            current_placed(*self, found, r),
    {
        match found {
            Some((s, e)) => Some((s - self.lb)..(e - self.lb)),
            None => None,
        }
    }
}

// ---------------------------------------------------------------------------
// What holds of every screen.

/// The active match is always marked: where it is shown, one of the row's spans
/// holds all of it.
pub proof fn law_the_active_match_is_marked(spans: Seq<(int, int)>, current: Option<(int, int)>)
    ensures
        current matches Some(c) ==> holds(with_current(spans, current), c),
{
    if let Some(c) = current {
        if !holds(spans, c) {
            let all = with_current(spans, current);
            assert(all[spans.len() as int] == c);
        }
    }
}

/// The cells that a match takes in a row.
pub open spec fn shown_match(
    raw: Seq<u8>,
    row: (int, int),
    tab_stop: int,
    hscroll: int,
    cols: int,
    m: (int, int),
) -> Option<(int, int)> {
    match search::clip(m, row) {
        None => None,
        Some(c) => glyph::mark_span(
            glyph::glyphs_of(line::body_of(raw)),
            glyph::at_least_one(tab_stop),
            hscroll,
            glyph::window_end(hscroll, cols),
            c.0,
            c.1,
        ),
    }
}

/// Clipping keeps matches in their order, drops those that the row has no part
/// of, and adds none.
proof fn lemma_clipped(matches: Seq<(int, int)>, row: (int, int))
    requires
        layout_laws::marks_in_order(matches),
    ensures
        layout_laws::marks_in_order(search::clipped(matches, row)),
        forall|i: int|
            0 <= i < matches.len() ==> (search::clip(#[trigger] matches[i], row) matches Some(c)
                ==> search::clipped(matches, row).contains(c)),
        forall|j: int|
            0 <= j < search::clipped(matches, row).len() ==> exists|i: int|
                0 <= i < matches.len() && search::clip(#[trigger] matches[i], row) == Some(
                    #[trigger] search::clipped(matches, row)[j],
                ),
    decreases matches.len(),
{
    let all = search::clipped(matches, row);
    if matches.len() > 0 {
        let rest = matches.drop_last();
        let before = search::clipped(rest, row);
        let last = matches.len() - 1;
        assert forall|i: int, j: int| 0 <= i <= j < rest.len() implies (#[trigger] rest[i]).0 <= (
        #[trigger] rest[j]).0 by {
            assert(matches[i].0 <= matches[j].0);
        }
        lemma_clipped(rest, row);
        assert forall|j: int| 0 <= j < all.len() implies exists|i: int|
            0 <= i < matches.len() && search::clip(#[trigger] matches[i], row) == Some(
                #[trigger] all[j],
            ) by {
            if j < before.len() {
                assert(all[j] == before[j]);
                let i = choose|i: int|
                    0 <= i < rest.len() && search::clip(#[trigger] rest[i], row) == Some(before[j]);
                assert(matches[i] == rest[i]);
            } else {
                assert(search::clip(matches[last], row) == Some(all[j]));
            }
        }
        assert forall|i: int| 0 <= i < matches.len() implies (search::clip(
            #[trigger] matches[i],
            row,
        ) matches Some(c) ==> all.contains(c)) by {
            if let Some(c) = search::clip(matches[i], row) {
                if i < last {
                    assert(matches[i] == rest[i]);
                    let j = choose|j: int| 0 <= j < before.len() && before[j] == c;
                    assert(all[j] == c);
                } else {
                    assert(all[before.len() as int] == c);
                }
            }
        }
        assert forall|i: int, j: int| 0 <= i <= j < all.len() implies (#[trigger] all[i]).0 <= (
        #[trigger] all[j]).0 by {
            if j < before.len() {
                assert(all[i] == before[i] && all[j] == before[j]);
            } else if i < j {
                assert(all[i] == before[i]);
                let k = choose|k: int|
                    0 <= k < rest.len() && search::clip(#[trigger] rest[k], row) == Some(before[i]);
                assert(matches[k].0 <= matches[last].0);
            }
        }
    }
}

/// A row highlights its matches and nothing else: where the matches come in
/// order, a cell is painted exactly if it is one of the cells that one of them,
/// or the active match, takes in the row.
pub proof fn law_a_row_paints_its_matches(
    raw: Seq<u8>,
    row: (int, int),
    tab_stop: int,
    hscroll: int,
    cols: int,
    matches: Seq<(int, int)>,
    current: Option<(int, int)>,
    text: Seq<char>,
    marks: RowMarks,
    x: int,
)
    requires
        0 <= hscroll <= usize::MAX,
        0 < cols,
        layout_laws::marks_in_order(matches),
        row_shows(raw, row, tab_stop, hscroll, cols, matches, current, text, marks),
    ensures
        layout_laws::painted(glyph::pairs(marks.spans@), x) <==> {
            ||| exists|i: int|
                0 <= i < matches.len() && layout_laws::covers(
                    #[trigger] shown_match(raw, row, tab_stop, hscroll, cols, matches[i]),
                    x,
                )
            ||| (current matches Some(m) && layout_laws::covers(
                shown_match(raw, row, tab_stop, hscroll, cols, m),
                x,
            ))
        },
{
    let gs = glyph::glyphs_of(line::body_of(raw));
    let ts = glyph::at_least_one(tab_stop);
    let end = glyph::window_end(hscroll, cols);
    let own = search::clipped(matches, row);
    let spans = shown_spans(raw, tab_stop, hscroll, cols, own);
    let cur = shown_current(raw, row, tab_stop, hscroll, cols, current);
    lemma_clipped(matches, row);
    layout_laws::law_spans_paint_the_marks(gs, ts, hscroll, end, own, x);
    if exists|i: int|
        0 <= i < matches.len() && layout_laws::covers(
            #[trigger] shown_match(raw, row, tab_stop, hscroll, cols, matches[i]),
            x,
        ) {
        let i = choose|i: int|
            0 <= i < matches.len() && layout_laws::covers(
                #[trigger] shown_match(raw, row, tab_stop, hscroll, cols, matches[i]),
                x,
            );
        let c = search::clip(matches[i], row).unwrap();
        assert(own.contains(c));
        let j = choose|j: int| 0 <= j < own.len() && own[j] == c;
        assert(layout_laws::covers(
            layout_laws::span_of_mark(gs, ts, hscroll, end, own, j),
            x,
        ));
    }
    if layout_laws::painted(spans, x) {
        let j = choose|j: int|
            0 <= j < own.len() && layout_laws::covers(
                #[trigger] layout_laws::span_of_mark(gs, ts, hscroll, end, own, j),
                x,
            );
        let i = choose|i: int|
            0 <= i < matches.len() && search::clip(#[trigger] matches[i], row) == Some(own[j]);
        assert(layout_laws::covers(
            shown_match(raw, row, tab_stop, hscroll, cols, matches[i]),
            x,
        ));
    }
    if let Some(m) = current {
        if let Some(c) = search::clip(m, row) {
            reveal_with_fuel(glyph::row_spans, 2);
            assert(seq![c][0] == c);
            assert(cur == shown_match(raw, row, tab_stop, hscroll, cols, m));
        }
    }
    lemma_with_current_paints(spans, cur, x);
}

proof fn lemma_with_current_paints(spans: Seq<(int, int)>, current: Option<(int, int)>, x: int)
    ensures
        layout_laws::painted(with_current(spans, current), x) <==> layout_laws::painted(spans, x)
            || layout_laws::covers(current, x),
{
    let all = with_current(spans, current);
    if let Some(c) = current {
        if holds(spans, c) {
            let i = choose|i: int|
                0 <= i < spans.len() && (#[trigger] spans[i]).0 <= c.0 && c.1 <= spans[i].1;
            assert(layout_laws::covers(current, x) ==> spans[i].0 <= x < spans[i].1);
        } else {
            assert(all[spans.len() as int] == c);
            if layout_laws::painted(spans, x) {
                let i = choose|i: int|
                    0 <= i < spans.len() && (#[trigger] spans[i]).0 <= x < spans[i].1;
                assert(all[i] == spans[i]);
            }
            if layout_laws::painted(all, x) {
                let i = choose|i: int|
                    0 <= i < all.len() && (#[trigger] all[i]).0 <= x < all[i].1;
                if i < spans.len() {
                    assert(all[i] == spans[i]);
                }
            }
        }
    }
}

/// A screen has no more rows than were asked for.
pub proof fn law_a_screen_has_at_most_its_rows(buf: Seq<u8>, rows: int, stop: bool)
    requires
        0 <= rows,
    ensures
        screen_rows(buf, rows, stop).len() <= rows,
{
}

/// No row of a screen holds a newline.
pub proof fn law_rows_hold_no_newline(buf: Seq<u8>, rows: int, stop: bool, i: int, p: int)
    requires
        0 <= rows,
        0 <= i < screen_rows(buf, rows, stop).len(),
        screen_rows(buf, rows, stop)[i].0 <= p < screen_rows(buf, rows, stop)[i].1,
    ensures
        buf[p] != text::NEWLINE,
{
    let ends = text::newline_positions(buf);
    text::lemma_occurrences(buf, text::NEWLINE);
    lemma_screen_rows_lie_inside(buf, rows, stop, i);
    if buf[p] == text::NEWLINE {
        text::lemma_every_occurrence(buf, text::NEWLINE, p);
        let k = choose|k: int| 0 <= k < ends.len() && #[trigger] ends[k] == p;
        if k < i - 1 {
            assert(ends[k] < ends[i - 1]);
        }
        if i < k {
            assert(ends[i] < ends[k]);
        }
    }
}

/// The rows of a screen are consecutive lines of the file: with `buf` fetched
/// from the line start `top` on, row `i` starts where the `i`-th line after
/// that at `top` does, and ends right before a newline of the file or with the
/// fetched bytes.
pub proof fn law_rows_are_lines_of_the_file(
    data: Seq<u8>,
    top: int,
    buf: Seq<u8>,
    rows: int,
    stop: bool,
    i: int,
)
    requires
        0 <= top <= top + buf.len() <= data.len(),
        buf == data.subrange(top, top + buf.len()),
        text::is_line_start(data, top),
        0 <= rows,
        0 <= i < screen_rows(buf, rows, stop).len(),
    ensures
        ({
            let row = screen_rows(buf, rows, stop)[i];
            let k = text::line_of(data, top) + i;
            &&& k <= text::newline_count(data)
            &&& text::line_start(data, k) == top + row.0
            &&& row.1 == buf.len() || data[top + row.1] == text::NEWLINE
        }),
{
    let before = data.take(top);
    let rest = data.skip(top + buf.len());
    assert(data =~= before + buf + rest);
    text::lemma_occurrences_concat(before + buf, rest, text::NEWLINE);
    text::lemma_occurrences_concat(before, buf, text::NEWLINE);
    text::lemma_line_start_is_its_own(data, top);
    text::lemma_occurrences(buf, text::NEWLINE);
    let k = text::line_of(data, top) + i;
    let ends = text::newline_positions(buf);
    assert(i <= ends.len());
    if i > 0 {
        assert(text::newline_positions(data)[k - 1] == ends[i - 1] + top);
    }
}

/// A frame built from true bytes is a true piece of the file: it holds the
/// bytes of the file from its base on.
pub proof fn law_a_frame_is_a_piece_of_the_file(
    data: Seq<u8>,
    top: int,
    buf: Seq<u8>,
    before_at: int,
    before: Seq<u8>,
    after: Seq<u8>,
)
    requires
        0 <= before_at,
        before_at + before.len() <= data.len(),
        before == data.subrange(before_at, before_at + before.len()),
        0 <= top,
        top + buf.len() + after.len() <= data.len(),
        buf == data.subrange(top, top + buf.len()),
        after == data.subrange(top + buf.len(), top + buf.len() + after.len()),
    ensures
        ({
            let hay = framed(top, buf, before_at, before, after);
            let base = top - if joins(top, before_at, before) {
                before.len() as int
            } else {
                0
            };
            0 <= base && base + hay.len() <= data.len() && hay == data.subrange(
                base,
                base + hay.len(),
            )
        }),
{
    let hay = framed(top, buf, before_at, before, after);
    let base = top - if joins(top, before_at, before) {
        before.len() as int
    } else {
        0
    };
    assert(hay =~= data.subrange(base, base + hay.len()));
}

/// Claims about the end of the file are sound. Let the fetched rows and their
/// context be true, let a certified end be where the data ends, let an observed
/// end of the context be one, and let the size that the source claims not
/// understate its data: then rows that are said to reach the end of the file do,
/// a hay that is said to reach it does, and an empty match is let in at the end
/// of the rows only at the end of the file, and not after a final newline that
/// the hay shows.
pub proof fn law_end_of_file_claims_are_sound(
    data: Seq<u8>,
    top: int,
    buf: Seq<u8>,
    before_at: int,
    before: Seq<u8>,
    after: Seq<u8>,
    ahead_hit_real_end: bool,
    fill: FillOutcome,
    size: int,
)
    requires
        0 <= before_at,
        before_at + before.len() <= data.len(),
        before == data.subrange(before_at, before_at + before.len()),
        0 <= top,
        top + buf.len() + after.len() <= data.len() <= size,
        buf == data.subrange(top, top + buf.len()),
        after == data.subrange(top + buf.len(), top + buf.len() + after.len()),
        fill is End ==> data.len() == top + buf.len(),
        ahead_hit_real_end ==> data.len() == top + buf.len() + after.len(),
    ensures
        ends_at_eof(top, buf, fill, size) ==> data.len() == top + buf.len() && after.len() == 0,
        reaches_eof(top, buf, after, ahead_hit_real_end, fill, size) ==> data.len() == top
            + buf.len() + after.len(),
        ({
            let hay = framed(top, buf, before_at, before, after);
            let payload_end = hay.len() - after.len();
            admits_at_end(hay, payload_end, ends_at_eof(top, buf, fill, size)) ==> {
                &&& data.len() == top + buf.len()
                &&& hay.len() > 0 ==> data.last() != text::NEWLINE
            }
        }),
{
    law_a_frame_is_a_piece_of_the_file(data, top, buf, before_at, before, after);
}

/// A horizontal scroll is bounded, so what a screen may read is: never more than
/// a block or four bytes for each column that can be scrolled to.
pub proof fn law_a_screen_reads_little(block_size: int, rows: int, cols: int, hscroll: int)
    requires
        0 <= rows,
        0 <= cols,
        0 <= hscroll <= MAX_HSCROLL,
    ensures
        budget_of(block_size, rows, cols, hscroll) <= search::greater(
            block_size,
            4 * (rows * (MAX_HSCROLL + search::greater(cols, 1))),
        ),
{
    let span = search::less(hscroll + search::greater(cols, 1), usize::MAX as int);
    let most = MAX_HSCROLL + search::greater(cols, 1);
    assert(rows * span <= rows * most) by (nonlinear_arith)
        requires
            0 <= rows,
            span <= most,
    ;
}

/// A match that a row shows is what the matcher found: for every hit of the
/// row's query, and for the hit at the end of the rows, the bytes of the hay at
/// the hit are the bytes at the match that is returned for it, counted from the
/// first fetched byte, wherever the window starts and however much context lies
/// before the rows.
pub proof fn law_a_match_holds_the_bytes_that_matched(
    top: int,
    buf: Seq<u8>,
    before_at: int,
    before: Seq<u8>,
    after: Seq<u8>,
    frame: SearchFrame,
    query: Option<RowQuery>,
    answer: RowAnswer,
    r: Seq<std::ops::Range<usize>>,
)
    requires
        frame.hay@ == framed(top, buf, before_at, before, after),
        frame.lb == if joins(top, before_at, before) {
            before.len() as int
        } else {
            0
        },
        query matches Some(q) ==> {
            &&& search::answer_fits(q, frame.lb as int, answer.hits@, answer.end_hit)
            &&& forall|i: int|
                0 <= i < answer.hits@.len() ==> (#[trigger] answer.hits@[i]).0 <= answer.hits@[i].1
                    <= frame.hay@.len() - q.window.start
            &&& answer.end_hit matches Some(h) ==> h.0 <= h.1 <= frame.hay@.len()
        },
        glyph::ranges(r) == answered(query, frame.lb as int, answer),
    ensures
        query is None ==> r.len() == 0,
        query matches Some(q) ==> {
            &&& q.search_window ==> r.len() >= answer.hits@.len() && forall|i: int|
                0 <= i < answer.hits@.len() ==> {
                    &&& frame.lb + (#[trigger] r[i]).start == q.window.start + answer.hits@[i].0
                    &&& frame.lb + r[i].end == q.window.start + answer.hits@[i].1
                    &&& frame.hay@.subrange(
                        q.window.start + answer.hits@[i].0,
                        q.window.start + answer.hits@[i].1,
                    ) == (buf + after).subrange(r[i].start as int, r[i].end as int)
                }
            &&& q.search_end && answer.end_hit is Some ==> r.len() > 0 && frame.hay@.subrange(
                answer.end_hit.unwrap().0 as int,
                answer.end_hit.unwrap().1 as int,
            ) == (buf + after).subrange(r.last().start as int, r.last().end as int) && frame.lb
                + r.last().start == answer.end_hit.unwrap().0
        },
{
    if let Some(q) = query {
        let lb = frame.lb as int;
        search::law_matches_are_the_hits_in_place(q, lb, answer.hits@, answer.end_hit, r);
        let hay = frame.hay@;
        let rest = buf + after;
        assert forall|p: int| 0 <= p < rest.len() implies hay[lb + p] == #[trigger] rest[p] by {}
        if q.search_window {
            assert forall|i: int| 0 <= i < answer.hits@.len() implies hay.subrange(
                q.window.start + answer.hits@[i].0,
                q.window.start + answer.hits@[i].1,
            ) == rest.subrange((#[trigger] r[i]).start as int, r[i].end as int) by {
                let h = answer.hits@[i];
                assert(hay.subrange(q.window.start + h.0, q.window.start + h.1) =~= rest.subrange(
                    r[i].start as int,
                    r[i].end as int,
                ));
            }
        }
        if q.search_end && answer.end_hit is Some {
            let h = answer.end_hit.unwrap();
            assert(hay.subrange(h.0 as int, h.1 as int) =~= rest.subrange(
                r.last().start as int,
                r.last().end as int,
            ));
        }
    } else {
        assert(r.len() == glyph::ranges(r).len());
    }
}

/// A match that a row shows is a place of the file: with all bytes fetched
/// truthfully, the bytes of the hay at a hit are those of the file at the match
/// that is returned for it, counted from where the screen starts.
pub proof fn law_a_match_is_a_place_of_the_file(
    data: Seq<u8>,
    top: int,
    buf: Seq<u8>,
    before_at: int,
    before: Seq<u8>,
    after: Seq<u8>,
    frame: SearchFrame,
    q: RowQuery,
    answer: RowAnswer,
    r: Seq<std::ops::Range<usize>>,
    i: int,
)
    requires
        0 <= before_at,
        before_at + before.len() <= data.len(),
        before == data.subrange(before_at, before_at + before.len()),
        0 <= top,
        top + buf.len() + after.len() <= data.len(),
        buf == data.subrange(top, top + buf.len()),
        after == data.subrange(top + buf.len(), top + buf.len() + after.len()),
        frame.hay@ == framed(top, buf, before_at, before, after),
        frame.lb == if joins(top, before_at, before) {
            before.len() as int
        } else {
            0
        },
        q.search_window,
        search::answer_fits(q, frame.lb as int, answer.hits@, answer.end_hit),
        0 <= i < answer.hits@.len(),
        answer.hits@[i].0 <= answer.hits@[i].1 <= frame.hay@.len() - q.window.start,
        glyph::ranges(r) == answered(Some(q), frame.lb as int, answer),
    ensures
        i < r.len(),
        frame.hay@.subrange(
            q.window.start + answer.hits@[i].0,
            q.window.start + answer.hits@[i].1,
        ) == data.subrange(top + r[i].start, top + r[i].end),
        r[i].end <= buf.len() ==> frame.hay@.subrange(
            q.window.start + answer.hits@[i].0,
            q.window.start + answer.hits@[i].1,
        ) == buf.subrange(r[i].start as int, r[i].end as int),
{
    let lb = frame.lb as int;
    search::law_matches_are_the_hits_in_place(q, lb, answer.hits@, answer.end_hit, r);
    let h = answer.hits@[i];
    let hay = frame.hay@;
    assert(lb + r[i].start == q.window.start + h.0);
    assert forall|p: int| 0 <= p < buf.len() + after.len() implies hay[lb + p] == #[trigger] data[top
        + p] by {}
    let piece = hay.subrange(q.window.start + h.0, q.window.start + h.1);
    assert forall|k: int| 0 <= k < piece.len() implies piece[k] == data[top + (r[i].start + k)] by {
    }
    assert(piece =~= data.subrange(top + r[i].start, top + r[i].end));
    if r[i].end <= buf.len() {
        assert(piece =~= buf.subrange(r[i].start as int, r[i].end as int));
    }
}

/// A screen is full: it has as many rows as were asked for, or as the fetched
/// bytes have lines, where an unfinished last line counts if no more bytes are to
/// come. Its rows are those lines, in order, each without its newline.
pub proof fn law_a_screen_is_full(
    buf: Seq<u8>,
    rows: int,
    stop: bool,
    r: Seq<std::ops::Range<usize>>,
)
    requires
        0 <= rows,
        glyph::ranges(r) == screen_rows(buf, rows, stop),
    ensures
        r.len() == search::less(
            rows,
            if stop {
                text::line_count(buf)
            } else {
                text::newline_count(buf)
            },
        ),
        forall|i: int|
            0 <= i < r.len() ==> {
                &&& (#[trigger] r[i]).start == text::line_start(buf, i)
                &&& r[i].start <= r[i].end <= buf.len()
                &&& r[i].end == buf.len() || buf[r[i].end as int] == text::NEWLINE
                &&& forall|p: int| r[i].start <= p < r[i].end ==> #[trigger] buf[p] != text::NEWLINE
            },
{
    let all = screen_rows(buf, rows, stop);
    let ends = text::newline_positions(buf);
    let rest = text::line_start(buf, ends.len() as int);
    text::lemma_occurrences(buf, text::NEWLINE);
    assert(r.len() == glyph::ranges(r).len());
    if buf.len() > 0 {
        if buf.last() == text::NEWLINE {
            assert(ends.last() == buf.len() - 1);
        } else if ends.len() > 0 {
            assert(ends[ends.len() - 1] != buf.len() - 1);
        }
    }
    assert forall|i: int| 0 <= i < r.len() implies {
        &&& (#[trigger] r[i]).start == text::line_start(buf, i)
        &&& r[i].start <= r[i].end <= buf.len()
        &&& r[i].end == buf.len() || buf[r[i].end as int] == text::NEWLINE
        &&& forall|p: int| r[i].start <= p < r[i].end ==> #[trigger] buf[p] != text::NEWLINE
    } by {
        assert(all[i] == (r[i].start as int, r[i].end as int));
        lemma_screen_rows_lie_inside(buf, rows, stop, i);
        assert forall|p: int| r[i].start <= p < r[i].end implies #[trigger] buf[p]
            != text::NEWLINE by {
            law_rows_hold_no_newline(buf, rows, stop, i, p);
        }
    }
}

/// A screen shows all of the file that fits on it. With `buf` fetched from the
/// line start `top` on, and fetching stopped for the reason that it gave, there
/// are as many rows as were asked for or as the file has lines left; where the
/// fetch was cut short, as many as lines were fetched, the last one as far as it
/// was. Row `i` holds the bytes of the `i`-th line after that at `top`.
#[verifier::spinoff_prover]
pub proof fn law_a_screen_shows_what_fits(
    data: Seq<u8>,
    top: int,
    buf: Seq<u8>,
    rows: int,
    fill: FillOutcome,
    r: Seq<std::ops::Range<usize>>,
)
    requires
        0 <= top < data.len(),
        top + buf.len() <= data.len(),
        buf == data.subrange(top, top + buf.len()),
        text::is_line_start(data, top),
        0 <= rows,
        fill is Rows ==> text::newline_count(buf) >= rows,
        fill is End ==> top + buf.len() == data.len(),
        glyph::ranges(r) == screen_rows(buf, rows, no_more(fill)),
    ensures
        fill is Budget ==> r.len() == search::less(rows, text::line_count(buf)),
        !(fill is Budget) ==> r.len() == search::less(
            rows,
            text::line_count(data) - text::line_of(data, top),
        ),
        forall|i: int|
            0 <= i < r.len() ==> {
                let k = text::line_of(data, top) + i;
                &&& top + (#[trigger] r[i]).start == text::line_start(data, k)
                &&& r[i].start <= r[i].end <= buf.len()
                &&& r[i].end < buf.len() ==> k < text::newline_count(data) && top + r[i].end + 1
                    == text::line_start(data, k + 1)
                &&& r[i].end == buf.len() && fill is End ==> k == text::line_count(data) - 1
            },
{
    law_a_screen_is_full(buf, rows, no_more(fill), r);
    let before = data.take(top);
    let after = data.skip(top + buf.len());
    assert(data =~= before + buf + after);
    text::lemma_occurrences_concat(before + buf, after, text::NEWLINE);
    text::lemma_occurrences_concat(before, buf, text::NEWLINE);
    text::lemma_line_start_is_its_own(data, top);
    text::lemma_occurrences(buf, text::NEWLINE);
    let base = text::line_of(data, top);
    let ends = text::newline_positions(buf);
    let all = text::newline_positions(data);
    assert(text::newline_count(data) == base + ends.len() + text::newline_count(after));
    if fill is End {
        assert(after.len() == 0);
        assert(text::newline_count(after) == 0);
        assert(buf.last() == data.last());
        assert(text::line_count(data) == base + text::line_count(buf));
    }
    assert forall|i: int| 0 <= i < r.len() implies {
        let k = text::line_of(data, top) + i;
        &&& top + (#[trigger] r[i]).start == text::line_start(data, k)
        &&& r[i].start <= r[i].end <= buf.len()
        &&& r[i].end < buf.len() ==> k < text::newline_count(data) && top + r[i].end + 1
            == text::line_start(data, k + 1)
        &&& r[i].end == buf.len() && fill is End ==> k == text::line_count(data) - 1
    } by {
        assert(glyph::ranges(r)[i] == (r[i].start as int, r[i].end as int));
        if 0 < i {
            assert(all[base + i - 1] == ends[i - 1] + top);
        }
        if i < ends.len() {
            assert(all[base + i] == ends[i] + top);
        }
    }
}

/// A frame holds all the context that it can: where the bytes before the rows
/// join them, the hay is those bytes, the rows and the bytes after them, one
/// after the other; where they do not, the hay starts with the rows.
pub proof fn law_a_frame_holds_its_context(
    top: int,
    buf: Seq<u8>,
    before_at: int,
    before: Seq<u8>,
    after: Seq<u8>,
)
    ensures
        joins(top, before_at, before) <==> before_at + before.len() == top,
        before_at + before.len() == top ==> framed(top, buf, before_at, before, after) == before
            + buf + after,
        before_at + before.len() != top ==> framed(top, buf, before_at, before, after) == buf
            + after,
{
}

/// Claims about the end of the file are complete, too: where the size that the
/// source claims is true, rows that reach the end of the file are said to, a hay
/// that reaches it is said to, and an empty match is let in at the end of rows
/// that end the file, unless the file ends with a newline.
pub proof fn law_end_of_file_claims_are_complete(
    data: Seq<u8>,
    top: int,
    buf: Seq<u8>,
    before_at: int,
    before: Seq<u8>,
    after: Seq<u8>,
    ahead_hit_real_end: bool,
    fill: FillOutcome,
)
    requires
        0 <= top,
        top + buf.len() + after.len() <= data.len(),
        buf == data.subrange(top, top + buf.len()),
        after == data.subrange(top + buf.len(), top + buf.len() + after.len()),
        before_at + before.len() == top ==> 0 <= before_at && before == data.subrange(
            before_at,
            top,
        ),
    ensures
        fill is End || top + buf.len() == data.len() ==> ends_at_eof(
            top,
            buf,
            fill,
            data.len() as int,
        ),
        ahead_hit_real_end || top + buf.len() + after.len() == data.len() ==> reaches_eof(
            top,
            buf,
            after,
            ahead_hit_real_end,
            fill,
            data.len() as int,
        ),
        ({
            let hay = framed(top, buf, before_at, before, after);
            let at_eof = ends_at_eof(top, buf, fill, data.len() as int);
            top + buf.len() == data.len() && (data.len() == 0 || data.last() != text::NEWLINE)
                ==> admits_at_end(hay, hay.len() - after.len(), at_eof)
        }),
{
    let hay = framed(top, buf, before_at, before, after);
    if top + buf.len() == data.len() && hay.len() > 0 {
        assert(after.len() == 0);
        if buf.len() > 0 {
            assert(hay.last() == buf.last());
            assert(buf.last() == data.last());
        } else {
            assert(hay.last() == before.last());
            assert(before.last() == data.last());
        }
    }
}

/// A screen may read a block, and four bytes for each column of each row up to
/// its right edge, where so many can be counted; and no more than that.
pub proof fn law_a_screen_may_read_all_it_shows(
    block_size: int,
    rows: int,
    cols: int,
    hscroll: int,
)
    requires
        0 <= block_size <= usize::MAX,
        0 <= rows,
        1 <= cols,
        0 <= hscroll,
        hscroll + cols <= usize::MAX,
    ensures
        budget_of(block_size, rows, cols, hscroll) >= block_size,
        4 * (rows * (hscroll + cols)) <= usize::MAX ==> {
            &&& budget_of(block_size, rows, cols, hscroll) >= 4 * (rows * (hscroll + cols))
            &&& budget_of(block_size, rows, cols, hscroll) == block_size || budget_of(
                block_size,
                rows,
                cols,
                hscroll,
            ) == 4 * (rows * (hscroll + cols))
        },
        4 * (rows * (hscroll + cols)) > usize::MAX ==> budget_of(block_size, rows, cols, hscroll)
            == usize::MAX,
        budget_of(block_size, rows, 0, hscroll) == budget_of(block_size, rows, 1, hscroll),
{
}

/// A cell of a row is one of a match that is not empty exactly if a glyph of the
/// row that shares a byte with the match takes the column of the cell.
proof fn lemma_a_match_paints_its_glyphs(
    raw: Seq<u8>,
    row: (int, int),
    tab_stop: int,
    hscroll: int,
    cols: int,
    m: (int, int),
    x: int,
    stop: int,
)
    requires
        stop == if tab_stop < 1 {
            1
        } else {
            tab_stop
        },
        0 <= hscroll,
        0 < cols,
        hscroll + cols <= usize::MAX,
        0 <= row.0 <= row.1,
        raw.len() == row.1 - row.0,
        m.0 < m.1,
    ensures
        ({
            let gs = glyph::glyphs_of(line::body_of(raw));
            layout_laws::covers(shown_match(raw, row, tab_stop, hscroll, cols, m), x) <==> 0 <= x
                < cols && exists|i: int|
                0 <= i < gs.len() && #[trigger] layout_laws::takes_column(gs, stop, i, hscroll + x)
                    && layout_laws::shares_a_byte(gs, row.0, i, m.0, m.1)
        }),
{
    let body = line::body_of(raw);
    let gs = glyph::glyphs_of(body);
    let clip = search::clip(m, row);
    layout_laws::law_tokens_take_every_byte(body);
    assert forall|i: int| 0 <= i < gs.len() implies (#[trigger] layout_laws::shares_a_byte(
        gs,
        row.0,
        i,
        m.0,
        m.1,
    ) <==> clip is Some && layout_laws::shares_a_byte(
        gs,
        0,
        i,
        clip.unwrap().0,
        clip.unwrap().1,
    )) by {
        glyph::lemma_byte_offset_grows(gs, 0, i);
        glyph::lemma_byte_offset_grows(gs, i + 1, gs.len() as int);
        layout_laws::lemma_decoded_glyph(body, i);
    }
    if let Some(c) = clip {
        layout_laws::law_a_mark_paints_the_glyphs_it_touches(
            gs,
            stop,
            hscroll,
            hscroll + cols,
            c.0,
            c.1,
            x,
        );
        if 0 <= x < cols && exists|i: int|
            0 <= i < gs.len() && #[trigger] layout_laws::takes_column(gs, stop, i, hscroll + x)
                && layout_laws::shares_a_byte(gs, row.0, i, m.0, m.1) {
            let i = choose|i: int|
                0 <= i < gs.len() && #[trigger] layout_laws::takes_column(gs, stop, i, hscroll + x)
                    && layout_laws::shares_a_byte(gs, row.0, i, m.0, m.1);
            assert(layout_laws::shares_a_byte(gs, 0, i, c.0, c.1));
        }
        if layout_laws::covers(shown_match(raw, row, tab_stop, hscroll, cols, m), x) {
            let i = choose|i: int|
                0 <= i < gs.len() && #[trigger] layout_laws::takes_column(gs, stop, i, hscroll + x)
                    && layout_laws::shares_a_byte(gs, 0, i, c.0, c.1);
            assert(layout_laws::shares_a_byte(gs, row.0, i, m.0, m.1));
        }
    }
}

/// A cell `x` of a row lies on a match: a glyph of the row, whose bytes `raw` lie
/// at `at`, takes its column and shares a byte with the match.
pub open spec fn lies_on(
    raw: Seq<u8>,
    at: int,
    tab_stop: int,
    hscroll: int,
    x: int,
    m: std::ops::Range<usize>,
) -> bool {
    let gs = glyph::glyphs_of(line::body_of(raw));
    exists|i: int|
        0 <= i < gs.len() && #[trigger] layout_laws::takes_column(gs, tab_stop, i, hscroll + x)
            && layout_laws::shares_a_byte(gs, at, i, m.start as int, m.end as int)
}

/// A row highlights what matched: where the matches come in order and are not
/// empty, one of the row's spans holds a cell exactly if a character that shares
/// a byte with a match, or with the active match, is shown there; and the span of
/// the active match holds exactly the cells of the characters that share a byte
/// with that. `stop` is the tab stop, a tab stop of zero counting as one.
pub proof fn law_a_row_highlights_what_matched(
    raw: Seq<u8>,
    row: (int, int),
    tab_stop: int,
    hscroll: int,
    cols: int,
    matches: Seq<std::ops::Range<usize>>,
    current: Option<std::ops::Range<usize>>,
    text: Seq<char>,
    marks: RowMarks,
    x: int,
    stop: int,
)
    requires
        stop == if tab_stop < 1 {
            1
        } else {
            tab_stop
        },
        0 <= hscroll,
        0 < cols,
        hscroll + cols <= usize::MAX,
        0 <= row.0 <= row.1,
        raw.len() == row.1 - row.0,
        forall|i: int| 0 <= i < matches.len() ==> (#[trigger] matches[i]).start < matches[i].end,
        forall|i: int, j: int|
            0 <= i <= j < matches.len() ==> (#[trigger] matches[i]).start <= (
            #[trigger] matches[j]).start,
        current matches Some(m) ==> m.start < m.end,
        row_shows(
            raw,
            row,
            tab_stop,
            hscroll,
            cols,
            glyph::ranges(matches),
            span_of(current),
            text,
            marks,
        ),
    ensures
        (exists|k: int|
            0 <= k < marks.spans@.len() && (#[trigger] marks.spans@[k]).start <= x
                < marks.spans@[k].end) <==> 0 <= x < cols && ((exists|j: int|
            0 <= j < matches.len() && lies_on(
                raw,
                row.0,
                stop,
                hscroll,
                x,
                #[trigger] matches[j],
            )) || (current matches Some(m) && lies_on(raw, row.0, stop, hscroll, x, m))),
        (marks.current matches Some(c) && c.start <= x < c.end) <==> 0 <= x < cols && (
        current matches Some(m) && lies_on(raw, row.0, stop, hscroll, x, m)),
{
    let all = glyph::ranges(matches);
    assert(all.len() == matches.len());
    assert forall|i: int| 0 <= i < matches.len() implies #[trigger] all[i] == (
        matches[i].start as int,
        matches[i].end as int,
    ) by {}
    assert(layout_laws::marks_in_order(all)) by {
        assert forall|i: int, j: int| 0 <= i <= j < all.len() implies (#[trigger] all[i]).0 <= (
        #[trigger] all[j]).0 by {
            assert(matches[i].start <= matches[j].start);
        }
    }
    law_a_row_paints_its_matches(
        raw,
        row,
        tab_stop,
        hscroll,
        cols,
        all,
        span_of(current),
        text,
        marks,
        x,
    );
    let spans = glyph::pairs(marks.spans@);
    assert(spans.len() == marks.spans@.len());
    assert forall|k: int| 0 <= k < spans.len() implies #[trigger] spans[k] == (
        marks.spans@[k].start as int,
        marks.spans@[k].end as int,
    ) by {}
    assert(layout_laws::painted(spans, x) <==> exists|k: int|
        0 <= k < marks.spans@.len() && (#[trigger] marks.spans@[k]).start <= x
            < marks.spans@[k].end) by {
        if layout_laws::painted(spans, x) {
            let k = choose|k: int|
                0 <= k < spans.len() && (#[trigger] spans[k]).0 <= x < spans[k].1;
            assert(marks.spans@[k].start <= x < marks.spans@[k].end);
        }
        if exists|k: int|
            0 <= k < marks.spans@.len() && (#[trigger] marks.spans@[k]).start <= x
                < marks.spans@[k].end {
            let k = choose|k: int|
                0 <= k < marks.spans@.len() && (#[trigger] marks.spans@[k]).start <= x
                    < marks.spans@[k].end;
            assert(spans[k].0 <= x < spans[k].1);
        }
    }
    assert forall|j: int| 0 <= j < matches.len() implies (layout_laws::covers(
        #[trigger] shown_match(raw, row, tab_stop, hscroll, cols, all[j]),
        x,
    ) <==> 0 <= x < cols && lies_on(raw, row.0, stop, hscroll, x, matches[j])) by {
        lemma_a_match_paints_its_glyphs(raw, row, tab_stop, hscroll, cols, all[j], x, stop);
    }
    if exists|j: int|
        0 <= j < matches.len() && lies_on(raw, row.0, stop, hscroll, x, #[trigger] matches[j])
        && 0 <= x < cols {
        let j = choose|j: int|
            0 <= j < matches.len() && lies_on(
                raw,
                row.0,
                stop,
                hscroll,
                x,
                #[trigger] matches[j],
            ) && 0 <= x < cols;
        assert(layout_laws::covers(
            shown_match(raw, row, tab_stop, hscroll, cols, all[j]),
            x,
        ));
    }
    if let Some(m) = current {
        let span = (m.start as int, m.end as int);
        lemma_a_match_paints_its_glyphs(raw, row, tab_stop, hscroll, cols, span, x, stop);
        if let Some(c) = search::clip(span, row) {
            reveal_with_fuel(glyph::row_spans, 2);
            assert(seq![c][0] == c);
        }
        assert(cells(marks.current) == shown_match(raw, row, tab_stop, hscroll, cols, span));
    }
}

/// A row shows its line: what the glyphs of the line show in the columns from
/// `hscroll` on, as many as there are columns on the screen; a line of printable
/// ASCII its own characters, from the `hscroll`-th on. A screen without columns
/// shows and highlights nothing.
pub proof fn law_a_row_shows_its_line(
    raw: Seq<u8>,
    row: (int, int),
    tab_stop: int,
    hscroll: int,
    cols: int,
    matches: Seq<(int, int)>,
    current: Option<(int, int)>,
    text: Seq<char>,
    marks: RowMarks,
)
    requires
        0 <= tab_stop,
        0 <= hscroll,
        0 <= cols,
        hscroll + cols <= usize::MAX,
        row_shows(raw, row, tab_stop, hscroll, cols, matches, current, text, marks),
    ensures
        cols == 0 ==> text.len() == 0 && marks.spans@.len() == 0 && marks.current is None,
        cols > 0 ==> text == glyph::row_text(
            glyph::glyphs_of(line::body_of(raw)),
            if tab_stop == 0 {
                1
            } else {
                tab_stop
            },
            hscroll,
            hscroll + cols,
        ),
        layout_laws::is_plain(raw) ==> {
            &&& text.len() == if raw.len() <= hscroll {
                0
            } else if raw.len() - hscroll < cols {
                raw.len() - hscroll
            } else {
                cols
            }
            &&& forall|k: int| 0 <= k < text.len() ==> #[trigger] text[k] == raw[hscroll + k] as char
        },
{
    if cols == 0 {
        assert(marks.spans@.len() == glyph::pairs(marks.spans@).len());
    } else if layout_laws::is_plain(raw) {
        if raw.len() > 0 {
            assert(0x20 <= raw[raw.len() - 1]);
        }
        assert(line::body_of(raw) == raw);
        layout_laws::law_plain_text_is_shown_as_it_is(
            raw,
            glyph::at_least_one(tab_stop),
            hscroll,
            hscroll + cols,
        );
    }
}

/// Row `i` of a screen shows and highlights the `i`-th line of the fetched bytes:
/// what a row shows is told by the bytes from `lo` up to `hi`, where that line
/// starts and ends, and by the matches that were found for row `i`, none where no
/// search was made for it.
pub proof fn law_each_row_shows_its_own_line(
    buf: Seq<u8>,
    rows: int,
    fill: FillOutcome,
    tab_stop: int,
    hscroll: int,
    cols: int,
    matches: Seq<Vec<std::ops::Range<usize>>>,
    current: Option<std::ops::Range<usize>>,
    text: Seq<char>,
    marks: RowMarks,
    i: int,
    lo: int,
    hi: int,
)
    requires
        0 <= i < rows,
        lo == text::line_start(buf, i),
        0 <= lo <= hi <= buf.len(),
        hi < buf.len() ==> buf[hi] == text::NEWLINE,
        hi == buf.len() ==> lo < hi && !(fill is Rows),
        forall|p: int| lo <= p < hi ==> #[trigger] buf[p] != text::NEWLINE,
        i < text::line_count(buf),
        i < screen_rows(buf, rows, no_more(fill)).len() ==> row_shows(
            row_bytes(buf, screen_rows(buf, rows, no_more(fill))[i]),
            screen_rows(buf, rows, no_more(fill))[i],
            tab_stop,
            hscroll,
            cols,
            glyph::ranges(matches_of_row(matches, i)),
            span_of(current),
            text,
            marks,
        ),
    ensures
        i < screen_rows(buf, rows, no_more(fill)).len(),
        row_shows(
            buf.subrange(lo, hi),
            (lo, hi),
            tab_stop,
            hscroll,
            cols,
            glyph::ranges(
                if i < matches.len() {
                    matches[i]@
                } else {
                    Seq::empty()
                },
            ),
            span_of(current),
            text,
            marks,
        ),
{
    let ends = text::newline_positions(buf);
    let all = screen_rows(buf, rows, no_more(fill));
    text::lemma_occurrences(buf, text::NEWLINE);
    if hi < buf.len() {
        text::lemma_every_occurrence(buf, text::NEWLINE, hi);
        let k = choose|k: int| 0 <= k < ends.len() && #[trigger] ends[k] == hi;
        if k < i {
            if k < i - 1 {
                assert(ends[k] < ends[i - 1]);
            }
            assert(false);
        }
        if i < k {
            assert(ends[i] < ends[k]);
            if i > 0 {
                assert(ends[i - 1] < ends[i]);
            }
            assert(buf[ends[i]] == text::NEWLINE);
            assert(false);
        }
        assert(all[i] == (lo, hi));
    } else {
        if i < ends.len() {
            if i > 0 {
                assert(ends[i - 1] < ends[i]);
            }
            assert(buf[ends[i]] == text::NEWLINE);
            assert(false);
        }
        assert(i == ends.len());
        assert(all[i] == (lo, hi));
    }
}

/// A frame knows where it lies: byte `k` of the hay is byte `base + k` of the
/// file, the fetched rows lie in it from `lb` up to `payload_end`, and a row's
/// search is told so.
pub proof fn law_a_frame_knows_where_it_lies(
    data: Seq<u8>,
    top: int,
    buf: Seq<u8>,
    before_at: int,
    before: Seq<u8>,
    after: Seq<u8>,
    f: SearchFrame,
    s: RowSearch,
)
    requires
        0 <= before_at,
        before_at + before.len() <= data.len(),
        before == data.subrange(before_at, before_at + before.len()),
        0 <= top,
        top + buf.len() + after.len() <= data.len(),
        buf == data.subrange(top, top + buf.len()),
        after == data.subrange(top + buf.len(), top + buf.len() + after.len()),
        frames(top, buf, before_at, before, after, f),
        told_of(f, s),
    ensures
        f.base + f.lb == top,
        f.base + f.hay@.len() <= data.len(),
        f.hay@ == data.subrange(f.base as int, f.base + f.hay@.len()),
        f.lb <= f.payload_end <= f.hay@.len(),
        f.hay@.subrange(f.lb as int, f.payload_end as int) == buf,
        s.lb == f.lb,
        s.buf_hi == s.lb + buf.len(),
        s.buf_hi <= s.hay_len == f.hay@.len(),
        s.eof_zero_width_ok == f.eof_zero_width_ok,
        before_at + before.len() == top ==> f.base == before_at,
        f.hay@.len() == buf.len() + after.len() + if before_at + before.len() == top {
            before.len() as int
        } else {
            0
        },
{
    law_a_frame_is_a_piece_of_the_file(data, top, buf, before_at, before, after);
    assert(f.hay@.subrange(f.lb as int, f.payload_end as int) =~= buf);
}

/// The active match is looked for where it is, and placed where it was found: the
/// matcher is asked about the byte of the hay that is the active match's byte of
/// the file, if that lies in the fetched rows or right after them; and what it
/// finds there lies in the rows where it lies in the file.
pub proof fn law_the_active_match_is_found_in_place(
    f: SearchFrame,
    top: u64,
    current: Option<u64>,
    asked: Option<usize>,
    found: Option<(usize, usize)>,
    r: Option<std::ops::Range<usize>>,
)
    requires
        f.base + f.lb == top,
        f.lb <= f.payload_end,
        current_asked(f, top as int, current, asked),
        found matches Some(h) ==> f.lb <= h.0 && f.lb <= h.1,
        current_placed(f, found, r),
    ensures
        asked is Some <==> (current matches Some(t) && top <= t <= f.base + f.payload_end),
        asked matches Some(p) ==> Some((f.base + p) as u64) == current && f.base + p <= u64::MAX,
        r is Some <==> found is Some,
        found matches Some(h) ==> (r matches Some(m) && top + m.start == f.base + h.0 && top + m.end
            == f.base + h.1),
{
}

}
