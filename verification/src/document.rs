//! The document model: turns a byte offset into a screenful of display rows.
//! Rendering is driven by byte offsets, not line numbers, so first paint costs
//! one block read regardless of file size.
use vstd::prelude::*;

use crate::block::Block;
use crate::context;
use crate::context::ContextAhead;
use crate::context::ContextBehind;
use crate::glyph;
use crate::index;
use crate::index::LineIndex;
use crate::meter::Meter;
use crate::nav::EndStep;
use crate::nav::LineStart;
use crate::nav::LineStep;
use crate::nav::NavOutcome;
use crate::nav::Pending;
use crate::nav::PercentStep;
use crate::nav::Resolution;
use crate::nav::Scroll;
use crate::nav::SearchNext;
use crate::nav::SnapStep;
use crate::scan;
use crate::scan::BackwardScan;
use crate::scan::Bound;
use crate::scan::BwdStep;
use crate::scan::ForwardScan;
use crate::scan::FwdEnd;
use crate::scan::SearchBackward;
use crate::scan::SearchEnd;
use crate::scan::SearchForward;
use crate::scan::SearchLeg;
use crate::scan::SearchStep;
use crate::scan::Step;
use crate::search;
use crate::text;
use crate::viewport;
use crate::viewport::FillOutcome;
use crate::Config;

verus! {

/// The scroll position: the byte offset of the first visible line. Scrolling
/// and rendering are expressed in anchors, never line numbers, so they never
/// wait on indexing. Navigation keeps the offset a line start: 0, or the byte
/// just past a newline before the end of the file.
#[derive(Debug, Clone, Copy, PartialEq, Eq, Structural)]
pub struct Anchor(u64);

impl Anchor {
    /// The byte offset that this anchor points at.
    pub closed spec fn position(self) -> int {
        self.0 as int
    }

    /// The byte offset that this anchor points at.
    pub fn offset(self) -> (p: u64)
        ensures
            p == self.position(),
    {
        self.0
    }

    /// The top of the file.
    pub fn top() -> (a: Anchor)
        ensures
            a.position() == 0,
    {
        Anchor(0)
    }

    /// The anchor at a line start.
    pub fn at(offset: u64) -> (a: Anchor)
        ensures
            a.position() == offset,
    {
        Anchor(offset)
    }
}

/// Upper bound of the horizontal scroll offset in display columns.
pub const MAX_HSCROLL: usize = 65536;

/// A horizontal scroll offset in display columns, never above [`MAX_HSCROLL`].
#[derive(Debug, Clone, Copy, PartialEq, Eq, Structural)]
pub struct HScroll(usize);

impl HScroll {
    #[verifier::type_invariant]
    spec fn capped(self) -> bool {
        self.0 <= MAX_HSCROLL
    }

    /// The offset in display columns.
    pub closed spec fn offset(self) -> int {
        self.0 as int
    }

    /// No horizontal scroll.
    pub fn zero() -> (h: HScroll)
        ensures
            h.offset() == 0,
    {
        HScroll(0)
    }

    /// Creates an offset, clamped to [`MAX_HSCROLL`].
    pub fn new(columns: usize) -> (h: HScroll)
        ensures
            h.offset() == if columns <= MAX_HSCROLL {
                columns
            } else {
                MAX_HSCROLL
            },
            h.offset() == shifted(0, columns as int),
    {
        if columns <= MAX_HSCROLL {
            HScroll(columns)
        } else {
            HScroll(MAX_HSCROLL)
        }
    }

    /// The offset in display columns.
    pub fn columns(self) -> (c: usize)
        ensures
            c == self.offset(),
            c <= MAX_HSCROLL,
    {
        proof {
            use_type_invariant(self);
        }
        self.0
    }

    /// Shifts by `n` columns, stopping at zero and at [`MAX_HSCROLL`].
    pub fn shift(self, n: i64) -> (h: HScroll)
        ensures
            h.offset() == if self.offset() + n < 0 {
                0
            } else if self.offset() + n > MAX_HSCROLL {
                MAX_HSCROLL as int
            } else {
                self.offset() + n
            },
            h.offset() == shifted(self.offset(), n as int),
    {
        proof {
            use_type_invariant(self);
        }
        let now: i64 = self.0 as i64;
        let room: i64 = MAX_HSCROLL as i64 - now;
        if n <= -now {
            HScroll(0)
        } else if n >= room {
            HScroll(MAX_HSCROLL)
        } else {
            HScroll((now + n) as usize)
        }
    }
}

impl Default for HScroll {
    fn default() -> (h: HScroll)
        ensures
            h.offset() == 0,
    {
        HScroll(0)
    }
}

/// Highlighted match spans for one displayed row, in visible cells counted from
/// the row's left edge. `spans` are the cells of every match that takes part in
/// this row; `current` is, additionally, the active match, where it is visible.
#[derive(Debug, Clone, PartialEq, Eq)]
pub struct RowMarks {
    pub spans: Vec<std::ops::Range<u16>>,
    pub current: Option<std::ops::Range<u16>>,
}

impl Default for RowMarks {
    fn default() -> (m: RowMarks)
        ensures
            m.spans@ == Seq::<std::ops::Range<u16>>::empty(),
            m.current is None,
    {
        RowMarks { spans: Vec::new(), current: None }
    }
}

/// The lines to draw for one screen, cut to the terminal width. `marks[i]`
/// describes the highlights of `rows[i]`.
#[derive(Debug, PartialEq, Eq)]
pub struct ViewportRender {
    pub rows: Vec<String>,
    pub marks: Vec<RowMarks>,
}

/// How far `pct`% into `size` bytes is, in whole bytes.
pub open spec fn percent_of(size: int, pct: int) -> int {
    size * pct / 100
}

/// An offset of `pct`% is the last whole byte that is not further than that, so
/// no further than the end for a hundred percent.
pub proof fn law_a_percentage_is_the_last_whole_byte(size: int, pct: int)
    requires
        0 <= size,
        0 <= pct,
    ensures
        100 * percent_of(size, pct) <= size * pct < 100 * (percent_of(size, pct) + 1),
        percent_of(size, 100) == size,
        percent_of(size, 0) == 0,
        pct <= 100 ==> 0 <= percent_of(size, pct) <= size,
{
    assert(pct <= 100 ==> 0 <= size * pct <= size * 100) by (nonlinear_arith)
        requires
            0 <= size,
            0 <= pct,
    ;
}

/// Byte offset `pct`% into `size` bytes. Of an offset that is too large, which
/// takes more than a hundred percent, the low bits are left.
pub fn percent_offset(size: u64, pct: u64) -> (r: u64)
    ensures
        size * pct / 100 <= u64::MAX ==> r == size * pct / 100,
        percent_of(size as int, pct as int) <= u64::MAX ==> r == percent_of(
            size as int,
            pct as int,
        ),
        r == (size * pct / 100) as u64,
{
    assert(size * pct <= u64::MAX * u64::MAX) by (nonlinear_arith)
        requires
            size <= u64::MAX,
            pct <= u64::MAX,
    ;
    (size as u128 * pct as u128 / 100) as u64
}

/// Steps a line and its checkpoint off the position after a final newline: that
/// position starts no line, so the line meant is the one before it.
pub fn dephantom(index: &LineIndex, size: u64, line0: u64, cp: (u64, u64)) -> (r: (
    u64,
    (u64, u64),
))
    requires
        index.wf(),
    ensures
        cp.0 < size ==> r == (line0, cp),
        cp.0 >= size ==> {
            &&& r.0 == if line0 == 0 {
                0
            } else {
                line0 - 1
            }
            &&& r.1.1 == 1024 * (search::less(r.0 as int, text::newline_count(index@)) / 1024)
            &&& r.1.0 == text::line_start(index@, r.1.1 as int)
        },
{
    if cp.0 < size {
        return (line0, cp);
    }
    let prev: u64 = line0.saturating_sub(1);
    (prev, index.nearest_checkpoint(prev))
}

/// A read-only view over a file's bytes: what is known of the file without
/// reading it, and how it is to be read and shown.
pub struct Document {
    size: u64,
    config: Config,
}

impl Document {
    #[verifier::type_invariant]
    spec fn blocks_are_not_empty(self) -> bool {
        self.config.block_size > 0
    }

    /// How many bytes the source claims to have.
    pub closed spec fn claimed_size(&self) -> int {
        self.size as int
    }

    /// The configured block size.
    pub closed spec fn block_size(&self) -> int {
        self.config.block_size as int
    }

    /// The configured budget of one navigation scan.
    pub closed spec fn budget(&self) -> int {
        self.config.nav_scan_budget as int
    }

    /// The configured tab stop.
    pub closed spec fn tab_stop(&self) -> int {
        self.config.tab_stop as int
    }

    pub fn new(size: u64, config: Config) -> (d: Document)
        requires
            config.block_size > 0,
        ensures
            d.claimed_size() == size,
            d.block_size() == config.block_size,
            d.budget() == config.nav_scan_budget,
            d.tab_stop() == config.tab_stop,
    {
        Document { size, config }
    }

    pub fn size(&self) -> (n: u64)
        ensures
            n == self.claimed_size(),
    {
        self.size
    }

    /// How many bytes may be read for a screen of `rows` rows of `cols` columns.
    pub fn viewport_budget(&self, rows: usize, cols: usize, hscroll: HScroll) -> (r: usize)
        ensures
            r == viewport::budget_of(
                self.block_size(),
                rows as int,
                cols as int,
                hscroll.offset(),
            ),
    {
        viewport::scan_budget(self.config.block_size, rows, cols, hscroll)
    }

    /// Begins to gather the context of a screen that starts at `top` and for
    /// which `buf_len` bytes were fetched: what lies before it, and what lies
    /// after it.
    pub fn edge_context(&self, top: Anchor, buf_len: usize) -> (r: (ContextBehind, ContextAhead))
        requires
            top.position() + buf_len <= u64::MAX,
        ensures
            r.0.wf(),
            r.0.block_size() == self.block_size(),
            r.0.top() == top.position(),
            r.0.start() == top.position(),
            r.0.gathered() == Seq::<u8>::empty(),
            r.0.finished() == (top.position() == 0),
            r.1.wf(),
            r.1.block_size() == self.block_size(),
            r.1.from() == top.position() + buf_len,
            r.1.latest() == search::greater(
                search::less(
                    top.position() + buf_len + search::CONSUMABLE_REACH,
                    self.claimed_size(),
                ),
                top.position() + buf_len,
            ),
            r.1.gathered() == Seq::<u8>::empty(),
            r.1.finished() == (top.position() + buf_len >= self.claimed_size()),
            !r.1.saw_end(),
            edges_begun(*self, top, buf_len as int, r),
    {
        proof {
            use_type_invariant(self);
        }
        let buf_end: u64 = top.offset() + buf_len as u64;
        (
            ContextBehind::new(self.config.block_size, top.offset()),
            ContextAhead::new(self.config.block_size, buf_end, self.size),
        )
    }

    /// The rows of a screen, from what was fetched for it. `matches[i]` are the
    /// matches of row `i`, none without a search; `current_match` is the active
    /// one; all of them in positions of `buf`.
    pub fn viewport(
        &self,
        buf: &[u8],
        rows: usize,
        cols: usize,
        hscroll: HScroll,
        fill: FillOutcome,
        matches: &[Vec<std::ops::Range<usize>>],
        current_match: &Option<std::ops::Range<usize>>,
    ) -> (r: ViewportRender)
        requires
            forall|i: int|
                0 <= i < viewport::screen_rows(buf@, rows as int, viewport::no_more(fill)).len()
                    ==> viewport::row_fits(
                    #[trigger] viewport::row_bytes(
                        buf@,
                        viewport::screen_rows(buf@, rows as int, viewport::no_more(fill))[i],
                    ),
                    self.tab_stop(),
                    hscroll.offset(),
                    cols as int,
                    viewport::matches_of_row(matches@, i).len() > 0 || current_match is Some,
                ),
        ensures
            r.rows@.len() == viewport::screen_rows(buf@, rows as int, viewport::no_more(fill)).len(),
            r.marks@.len() == r.rows@.len(),
            forall|i: int|
                0 <= i < r.rows@.len() ==> viewport::row_shows(
                    viewport::row_bytes(
                        buf@,
                        viewport::screen_rows(buf@, rows as int, viewport::no_more(fill))[i],
                    ),
                    viewport::screen_rows(buf@, rows as int, viewport::no_more(fill))[i],
                    self.tab_stop(),
                    hscroll.offset(),
                    cols as int,
                    glyph::ranges(viewport::matches_of_row(matches@, i)),
                    viewport::span_of(*current_match),
                    (#[trigger] r.rows@[i])@,
                    r.marks@[i],
                ),
    {
        viewport::render_viewport(
            buf,
            rows,
            fill.stops(),
            self.config.tab_stop,
            hscroll,
            cols,
            matches,
            current_match,
        )
    }

    /// Moves the top anchor by `delta` lines: down by a forward scan, up by a
    /// backward one.
    pub fn scroll_lines(&self, from: Anchor, delta: i64) -> (r: Scroll)
        ensures
            delta == 0 ==> r == Scroll::Ready(NavOutcome::At(from)),
            delta > 0 ==> (r matches Scroll::Down(s) && s.start == from.position() && s.lines
                == search::less(delta as int, usize::MAX as int) && s.budget == self.budget()),
            delta < 0 && from.position() == 0 ==> r == Scroll::Ready(NavOutcome::At(from)),
            delta < 0 && from.position() > 0 ==> (r matches Scroll::Up(s) && s.start
                == from.position() && s.lines == search::less(-delta, usize::MAX as int)
                && s.budget == self.budget()),
            scroll_begun(*self, from, delta, r),
    {
        if delta == 0 {
            return Scroll::Ready(NavOutcome::At(from));
        }
        if delta > 0 {
            let n: u64 = delta as u64;
            Scroll::Down(
                ForwardScan {
                    start: from.offset(),
                    lines: line_number(n),
                    budget: self.config.nav_scan_budget,
                },
            )
        } else {
            let n: u64 = if delta == i64::MIN {
                0x8000_0000_0000_0000
            } else {
                (-delta) as u64
            };
            match self.scroll_up(from, line_number(n)) {
                SnapStep::Ready(outcome) => Scroll::Ready(outcome),
                SnapStep::Scan(scan) => Scroll::Up(scan),
            }
        }
    }

    /// Begins to look for the start of the `n`-th line before `from`.
    pub fn scroll_up(&self, from: Anchor, n: usize) -> (r: SnapStep)
        ensures
            from.position() == 0 || n == 0 ==> r == SnapStep::Ready(NavOutcome::At(from)),
            from.position() > 0 && n > 0 ==> (r matches SnapStep::Scan(s) && s.start
                == from.position() && s.lines == n && s.budget == self.budget()),
    {
        let start: u64 = from.offset();
        if start == 0 || n == 0 {
            return SnapStep::Ready(NavOutcome::At(from));
        }
        SnapStep::Scan(BackwardScan { start, lines: n, budget: self.config.nav_scan_budget })
    }

    /// A forward scan made a step: a scroll is done, or goes on in the
    /// background over the rest of the file. `scanned` is how far the scan has
    /// come.
    pub fn scrolled_down(&self, scan: &ForwardScan, step: Step, scanned: u64) -> (r: Resolution)
        requires
            step is More ==> scan.start <= self.claimed_size(),
        ensures
            step matches Step::Done(end) ==> (r matches Resolution::Ready(NavOutcome::At(a))
                && a.position() == scan::end_of_scan(end)),
            step is More ==> (r matches Resolution::Pending(p) && p.label@ == "scrolling"@ && p.span
                == self.claimed_size() - scan.start && p.scanned == scanned),
            stepped_on(*self, *scan, step, scanned, "scrolling"@, r),
    {
        match step {
            Step::Done(end) => Resolution::Ready(landed(end)),
            Step::More => Resolution::Pending(
                Pending { label: "scrolling", span: self.size - scan.start, scanned },
            ),
        }
    }

    /// A backward scan made a step: a scroll is done, or goes on in the
    /// background over everything before its start.
    pub fn scrolled_up(&self, scan: &BackwardScan, step: BwdStep, scanned: u64) -> (r: Resolution)
        ensures
            stepped_back(step, scanned, "scrolling"@, scan.start as int, r),
    {
        step_back(step, "scrolling", scan.start, scanned)
    }

    /// The top of the file.
    pub fn goto_top(&self) -> (a: Anchor)
        ensures
            a.position() == 0,
    {
        Anchor::top()
    }

    /// Begins a jump that puts the file's last line on the bottom row: looks for
    /// the last line, unless the file is empty.
    pub fn goto_end(&self) -> (r: SnapStep)
        ensures
            self.claimed_size() == 0 ==> (r matches SnapStep::Ready(NavOutcome::At(a))
                && a.position() == 0),
            self.claimed_size() > 0 ==> (r matches SnapStep::Scan(s) && s.start
                == self.claimed_size() && s.lines == 1 && s.budget == self.budget()),
            end_begun(*self, r),
    {
        if self.size == 0 {
            return SnapStep::Ready(NavOutcome::At(Anchor::top()));
        }
        SnapStep::Scan(
            BackwardScan { start: self.size, lines: 1, budget: self.config.nav_scan_budget },
        )
    }

    /// The scan for the last line made a step. Once the line is found, the walk
    /// up from it begins; where the scan goes on in the background, so does the
    /// whole jump.
    pub fn end_found(&self, rows: usize, step: BwdStep, scanned: u64) -> (r: EndStep)
        ensures
            step matches BwdStep::Found(last) ==> {
                &&& last == 0 || rows <= 1 ==> (r matches EndStep::Ready(NavOutcome::At(a))
                    && a.position() == last)
                &&& last > 0 && rows > 1 ==> (r matches EndStep::Scan(s) && s.start == last
                    && s.lines == rows - 1 && s.budget == self.budget())
            },
            step is Top ==> (r matches EndStep::Ready(NavOutcome::At(a)) && a.position() == 0),
            step is More || step is Exhausted ==> (r matches EndStep::Pending(p) && p.label@
                == "jumping to end"@ && p.span == self.claimed_size() && p.scanned == scanned),
            last_line_stepped(*self, rows, step, scanned, r),
    {
        match step {
            BwdStep::Found(last) => match self.scroll_up(Anchor::at(last), rows.saturating_sub(1)) {
                SnapStep::Ready(outcome) => EndStep::Ready(outcome),
                SnapStep::Scan(scan) => EndStep::Scan(scan),
            },
            BwdStep::Top => EndStep::Ready(NavOutcome::At(Anchor::top())),
            _ => EndStep::Pending(
                Pending { label: "jumping to end", span: self.size, scanned },
            ),
        }
    }

    /// The walk up from the last line made a step.
    pub fn end_walked(&self, scan: &BackwardScan, step: BwdStep, scanned: u64) -> (r: Resolution)
        ensures
            stepped_back(step, scanned, "jumping to end"@, scan.start as int, r),
    {
        step_back(step, "jumping to end", scan.start, scanned)
    }

    /// In the background the last line was found at `last`: the walk up from it
    /// begins, unless the screen has no row above it.
    pub fn end_completed(&self, rows: usize, last: u64) -> (r: SnapStep)
        ensures
            rows <= 1 ==> (r matches SnapStep::Ready(NavOutcome::At(a)) && a.position() == last),
            rows > 1 ==> (r matches SnapStep::Scan(s) && s.start == last && s.lines == rows - 1
                && s.budget == self.budget()),
            end_resumed(*self, rows, last, r),
    {
        let up: usize = rows.saturating_sub(1);
        if up == 0 {
            return SnapStep::Ready(NavOutcome::At(Anchor::at(last)));
        }
        SnapStep::Scan(
            BackwardScan { start: last, lines: up, budget: self.config.nav_scan_budget },
        )
    }

    /// Begins a jump `pct`% through the file by byte, to the start of the line
    /// that holds the target byte.
    pub fn goto_percent(&self, pct: u8) -> (r: PercentStep)
        ensures
            ({
                let target = self.claimed_size() * pct / 100;
                &&& self.claimed_size() == 0 || pct == 0 || (pct < 100 && target == 0) ==> (
                r matches PercentStep::Ready(NavOutcome::At(a)) && a.position() == 0)
                &&& self.claimed_size() > 0 && pct >= 100 ==> r is End
                &&& self.claimed_size() > 0 && 0 < pct < 100 && target > 0 ==> r
                    == (PercentStep::Probe {
                    block: ((target - 1) / self.block_size()) as u64,
                    target: target as u64,
                })
            }),
            percent_begun(*self, pct, r),
    {
        proof {
            use_type_invariant(self);
        }
        let pct: u64 = if pct > 100 {
            100
        } else {
            pct as u64
        };
        if self.size == 0 || pct == 0 {
            return PercentStep::Ready(NavOutcome::At(Anchor::top()));
        }
        if pct >= 100 {
            return PercentStep::End;
        }
        assert(self.size * pct / 100 <= u64::MAX) by (nonlinear_arith)
            requires
                pct < 100,
                self.size <= u64::MAX,
        ;
        let target: u64 = percent_offset(self.size, pct);
        if target == 0 {
            return PercentStep::Ready(NavOutcome::At(Anchor::top()));
        }
        proof {
            vstd::arithmetic::div_mod::lemma_div_nonincreasing(
                target - 1,
                self.config.block_size as int,
            );
        }
        PercentStep::Probe { block: (target - 1) / self.config.block_size as u64, target }
    }

    /// The block that holds the byte before `target` is there: right after a
    /// newline the jump is done, else the line that holds the target is looked
    /// for.
    pub fn percent_probed(&self, target: u64, block: &Block) -> (r: SnapStep)
        requires
            target > 0,
        ensures
            after_newline(self.block_size(), target as int, *block) ==> (
            r matches SnapStep::Ready(NavOutcome::At(a)) && a.position() == target),
            !after_newline(self.block_size(), target as int, *block) ==> (
            r matches SnapStep::Scan(s) && s.start == target && s.lines == 1 && s.budget
                == self.budget()),
            percent_stepped(*self, target, *block, r),
    {
        proof {
            use_type_invariant(self);
        }
        if follows_newline(self.config.block_size, target, block) {
            return SnapStep::Ready(NavOutcome::At(Anchor::at(target)));
        }
        SnapStep::Scan(
            BackwardScan { start: target, lines: 1, budget: self.config.nav_scan_budget },
        )
    }

    /// The scan for the line that holds the target made a step.
    pub fn percent_snapped(&self, scan: &BackwardScan, step: BwdStep, scanned: u64) -> (r:
        Resolution)
        ensures
            stepped_back(step, scanned, "percent jump"@, scan.start as int, r),
    {
        step_back(step, "percent jump", scan.start, scanned)
    }

    /// Begins a jump to line `n`, counted from 1 (0 counts as 1): a line past
    /// the end is the last line. Where the line index has come so far, its
    /// nearest checkpoint is where the walk to the line begins; else the jump
    /// waits for the index.
    pub fn goto_line(&self, index: &LineIndex, n: u64) -> (r: LineStep)
        requires
            index.wf(),
        ensures
            line_planned(
                *self,
                *index,
                if n == 0 {
                    0
                } else {
                    n - 1
                },
                false,
                r,
            ),
            line_begun(*self, *index, n, r),
    {
        let line0: u64 = n.saturating_sub(1);
        match self.line_known(index, line0, false) {
            Some(r) => r,
            None => LineStep::Wait {
                line0,
                pending: Pending {
                    label: "jumping to line",
                    span: self.size,
                    scanned: index.frontier().processed_up_to,
                },
            },
        }
    }

    /// In the background the index has come further: the jump to line `line0`
    /// (counted from 0) goes on, or waits again.
    pub fn line_waited(&self, index: &LineIndex, line0: u64) -> (r: LineStep)
        requires
            index.wf(),
        ensures
            line_planned(*self, *index, line0 as int, true, r),
    {
        match self.line_known(index, line0, true) {
            Some(r) => r,
            None => LineStep::Wait {
                line0,
                pending: Pending {
                    label: "jumping to line",
                    span: self.size,
                    scanned: index.frontier().processed_up_to,
                },
            },
        }
    }

    /// The way to line `line0` as far as the index knows it: the line itself
    /// where the index has come so far, the last line where the index is done.
    fn line_known(&self, index: &LineIndex, line0: u64, waited: bool) -> (r: Option<LineStep>)
        requires
            index.wf(),
        ensures
            r is None <==> text::newline_count(index@) < line0 && !index.finished(),
            r matches Some(step) ==> line_planned(*self, *index, line0 as int, waited, step),
            r matches Some(step) ==> !(step is Wait),
    {
        proof {
            text::lemma_occurrences(index@, text::NEWLINE);
        }
        if index.newlines() >= line0 {
            let cp = index.nearest_checkpoint(line0);
            let (line0, cp) = dephantom(index, self.size, line0, cp);
            return Some(self.walk_to_line(line0, cp));
        }
        match index.total_lines() {
            Some(t) => {
                let clamp0: u64 = t.saturating_sub(1);
                let cp = index.nearest_checkpoint(clamp0);
                let (clamp0, cp) = if waited {
                    dephantom(index, self.size, clamp0, cp)
                } else {
                    (clamp0, cp)
                };
                Some(self.walk_to_line(clamp0, cp))
            },
            None => None,
        }
    }

    /// The walk to line `line0` from the checkpoint `cp`.
    fn walk_to_line(&self, line0: u64, cp: (u64, u64)) -> (r: LineStep)
        requires
            cp.1 <= line0 < cp.1 + 1024,
        ensures
            self.claimed_size() == 0 ==> (r matches LineStep::Ready(NavOutcome::At(a))
                && a.position() == 0),
            self.claimed_size() > 0 ==> (r matches LineStep::Walk(s) && s.start == cp.0 && s.lines
                == line0 - cp.1 && s.budget == self.budget()),
    {
        if self.size == 0 {
            return LineStep::Ready(NavOutcome::At(Anchor::top()));
        }
        LineStep::Walk(
            ForwardScan {
                start: cp.0,
                lines: (line0 - cp.1) as usize,
                budget: self.config.nav_scan_budget,
            },
        )
    }

    /// The walk to a line made a step.
    pub fn line_walked(&self, scan: &ForwardScan, step: Step, scanned: u64) -> (r: Resolution)
        requires
            step is More ==> scan.start <= self.claimed_size(),
        ensures
            step matches Step::Done(end) ==> (r matches Resolution::Ready(NavOutcome::At(a))
                && a.position() == scan::end_of_scan(end)),
            step is More ==> (r matches Resolution::Pending(p) && p.label@ == "jumping to line"@
                && p.span == self.claimed_size() - scan.start && p.scanned == scanned),
            stepped_on(*self, *scan, step, scanned, "jumping to line"@, r),
    {
        match step {
            Step::Done(end) => Resolution::Ready(landed(end)),
            Step::More => Resolution::Pending(
                Pending { label: "jumping to line", span: self.size - scan.start, scanned },
            ),
        }
    }

    /// The file's number of lines, once the index is done and took the whole
    /// file. After a read error cut the index short there is no such number: the
    /// lines of a part are not those of the file.
    pub fn index_total_lines(&self, index: &LineIndex) -> (r: Option<u64>)
        requires
            index.wf(),
        ensures
            r is Some <==> index.at_eof(),
            r matches Some(n) ==> n == text::line_count(index@),
            lines_told(*index, r),
    {
        if !index.reached_eof() {
            return None;
        }
        proof {
            index::law_the_end_is_reached_only_when_finished(*index);
        }
        index.total_lines()
    }

    /// Begins a search for the next match from `origin`, upward or downward: its
    /// first leg covers the side of the file that `origin` looks at. Upward a
    /// match at `origin` counts, downward only one below it.
    pub fn search_next(&self, origin: u64, forward: bool) -> (leg: SearchLeg)
        ensures
            forward ==> (leg matches SearchLeg::Fwd(s) && s.from == origin && s.limit
                == Bound::Exclusive(self.claimed_size() as u64) && scan::fresh(
                s.meter,
                self.budget(),
            )),
            !forward ==> (leg matches SearchLeg::Bwd(s) && s.hi == origin && s.floor
                == Bound::Inclusive(0) && !s.wrap && scan::fresh(s.meter, self.budget())),
            search_begun(*self, origin, forward, leg),
    {
        let budget: usize = self.config.nav_scan_budget;
        if forward {
            SearchLeg::Fwd(SearchForward::new(origin, Bound::Exclusive(self.size), budget))
        } else {
            SearchLeg::Bwd(SearchBackward::new_leg(origin, Bound::Inclusive(0), budget))
        }
    }

    /// The first leg made a step: a match was found, the search goes around the
    /// end of the file, or both legs go on in the background.
    pub fn searched_near(&self, origin: u64, forward: bool, step: SearchStep, scanned: u64) -> (r:
        SearchNext)
        ensures
            step matches SearchStep::Done(SearchEnd::Found { match_at, line_start }) ==> r
                == (SearchNext::Found { match_at, line_start, wrapped: false }),
            step matches SearchStep::Done(SearchEnd::End) ==> (r matches SearchNext::Wrap(leg)
                && wraps(leg, origin, self.claimed_size() as u64, forward, self.budget())),
            step matches SearchStep::Done(end) ==> near_ended(*self, origin, forward, end, r),
            step is More ==> (r matches SearchNext::Pending(p) && p.label@ == "searching"@ && p.span
                == self.claimed_size() && p.scanned == scanned),
            step is More ==> search_pends(*self, scanned, r),
    {
        match step {
            SearchStep::Done(end) => self.completed_near(origin, forward, end),
            SearchStep::More => SearchNext::Pending(
                Pending { label: "searching", span: self.size, scanned },
            ),
        }
    }

    /// The first leg came to its end.
    pub fn completed_near(&self, origin: u64, forward: bool, end: SearchEnd) -> (r: SearchNext)
        ensures
            end matches SearchEnd::Found { match_at, line_start } ==> r == (SearchNext::Found {
                match_at,
                line_start,
                wrapped: false,
            }),
            end is End ==> (r matches SearchNext::Wrap(leg) && wraps(
                leg,
                origin,
                self.claimed_size() as u64,
                forward,
                self.budget(),
            )),
            near_ended(*self, origin, forward, end, r),
    {
        match end {
            SearchEnd::Found { match_at, line_start } => SearchNext::Found {
                match_at,
                line_start,
                wrapped: false,
            },
            SearchEnd::End => SearchNext::Wrap(
                wrapped_leg(origin, self.size, forward, self.config.nav_scan_budget),
            ),
        }
    }

    /// The leg around the end of the file made a step: a match was found, there
    /// is none anywhere, or the leg goes on in the background.
    pub fn searched_far(&self, step: SearchStep, scanned: u64) -> (r: SearchNext)
        ensures
            step matches SearchStep::Done(SearchEnd::Found { match_at, line_start }) ==> r
                == (SearchNext::Found { match_at, line_start, wrapped: true }),
            step matches SearchStep::Done(SearchEnd::End) ==> r == SearchNext::Ready(
                NavOutcome::Exhausted,
            ),
            step matches SearchStep::Done(end) ==> far_ended(end, r),
            step is More ==> (r matches SearchNext::Pending(p) && p.label@ == "searching"@ && p.span
                == self.claimed_size() && p.scanned == scanned),
            step is More ==> search_pends(*self, scanned, r),
    {
        match step {
            SearchStep::Done(end) => self.completed_far(end),
            SearchStep::More => SearchNext::Pending(
                Pending { label: "searching", span: self.size, scanned },
            ),
        }
    }

    /// The leg around the end of the file came to its end.
    pub fn completed_far(&self, end: SearchEnd) -> (r: SearchNext)
        ensures
            end matches SearchEnd::Found { match_at, line_start } ==> r == (SearchNext::Found {
                match_at,
                line_start,
                wrapped: true,
            }),
            end is End ==> r == SearchNext::Ready(NavOutcome::Exhausted),
            far_ended(end, r),
    {
        match end {
            SearchEnd::Found { match_at, line_start } => SearchNext::Found {
                match_at,
                line_start,
                wrapped: true,
            },
            SearchEnd::End => SearchNext::Ready(NavOutcome::Exhausted),
        }
    }

    /// What is known of the start of the line that a match at `match_at` is on:
    /// the search may have seen it, or the match is at the top of the file;
    /// else the byte before the match is to be read.
    pub fn line_start_shortcut(&self, match_at: u64, hint: Option<u64>) -> (r: LineStart)
        ensures
            hint matches Some(nl) ==> (r matches LineStart::Known(a) && a.position() == nl),
            hint is None && match_at == 0 ==> (r matches LineStart::Known(a) && a.position() == 0),
            hint is None && match_at > 0 ==> (r matches LineStart::Probe { block } && block
                == (match_at - 1) / self.block_size()),
            line_start_begun(*self, match_at, hint, r),
    {
        proof {
            use_type_invariant(self);
        }
        match hint {
            Some(nl) => LineStart::Known(Anchor::at(nl)),
            None => if match_at == 0 {
                LineStart::Known(Anchor::top())
            } else {
                LineStart::Probe { block: (match_at - 1) / self.config.block_size as u64 }
            },
        }
    }

    /// The block that holds the byte before a match is there: right after a
    /// newline the match starts its line; else the line's start is to be hunted
    /// for, and there is none here.
    pub fn line_start_probed(&self, match_at: u64, block: &Block) -> (r: Option<Anchor>)
        requires
            match_at > 0,
        ensures
            r is Some <==> after_newline(self.block_size(), match_at as int, *block),
            r matches Some(a) ==> a.position() == match_at,
            line_start_stepped(*self, match_at, *block, r),
    {
        proof {
            use_type_invariant(self);
        }
        if follows_newline(self.config.block_size, match_at, block) {
            Some(Anchor::at(match_at))
        } else {
            None
        }
    }

    /// The hunt for the start of the line that a match at `match_at` is on. It
    /// shares the meter of the search that found the match, under the budget of
    /// one navigation: what the search spent, the hunt may not spend again.
    pub fn resolve_found(&self, meter: &mut Meter, match_at: u64) -> (scan: BackwardScan)
        ensures
            hunt_begun(*self, match_at, scan),
            scan.start == match_at,
            scan.lines == 1,
            scan.budget == self.budget(),
            final(meter).total_limit() == Some(self.budget() as u64),
            final(meter).step_limit() == old(meter).step_limit(),
            final(meter).step_spent() == old(meter).step_spent(),
            final(meter).total_charged() == old(meter).total_charged(),
            final(meter).total_progress() == old(meter).total_progress(),
    {
        meter.impose_allowance(self.config.nav_scan_budget as u64);
        self.found_outcome_pending(match_at)
    }

    /// The hunt for the start of the line that a match at `match_at` is on, for a
    /// search in the background: no interactive budget is left to protect, so the
    /// hunt has a meter of its own.
    pub fn found_outcome_pending(&self, match_at: u64) -> (scan: BackwardScan)
        ensures
            hunt_begun(*self, match_at, scan),
            scan.start == match_at,
            scan.lines == 1,
            scan.budget == self.budget(),
    {
        BackwardScan { start: match_at, lines: 1, budget: self.config.nav_scan_budget }
    }

    /// The hunt for a match's line start made a step: the search is done, or
    /// goes on in the background over the `span` bytes of the hunt.
    pub fn found_hunted(
        &self,
        match_at: u64,
        wrapped: bool,
        step: BwdStep,
        span: u64,
        scanned: u64,
    ) -> (r: Resolution)
        ensures
            step matches BwdStep::Found(s) ==> (r matches Resolution::Ready(o) && found_at(
                o,
                s as int,
                match_at,
                wrapped,
            )),
            step is Top ==> (r matches Resolution::Ready(o) && found_at(o, 0, match_at, wrapped)),
            step is More || step is Exhausted ==> (r matches Resolution::Pending(p) && p.label@
                == "searching"@ && p.span == span && p.scanned == scanned),
            hunt_stepped(match_at, wrapped, step, span, scanned, r),
    {
        match step {
            BwdStep::Found(s) => Resolution::Ready(found(Anchor::at(s), match_at, wrapped)),
            BwdStep::Top => Resolution::Ready(found(Anchor::top(), match_at, wrapped)),
            _ => Resolution::Pending(Pending { label: "searching", span, scanned }),
        }
    }
}

/// `r` are the two gathers that begin around the `buf_len` bytes fetched at `top`.
pub open spec fn edges_begun(
    d: Document,
    top: Anchor,
    buf_len: int,
    r: (ContextBehind, ContextAhead),
) -> bool {
    &&& r.0.begins(d.block_size(), top.position())
    &&& r.1.begins(d.block_size(), top.position() + buf_len, d.claimed_size())
}

/// The context of a screen is what lies around its rows: where every block that
/// the two gathers take holds all the bytes that lie there, and the source's size
/// is true, they gather the bytes of the file right before the rows, as many as
/// a character can have, and right after them, as many as can matter to a match.
pub proof fn law_edge_context_surrounds_the_rows(
    d: Document,
    data: Seq<u8>,
    top: Anchor,
    buf_len: int,
    behind: Seq<ContextBehind>,
    behind_blocks: Seq<Block>,
    ahead: Seq<ContextAhead>,
    ahead_blocks: Seq<Block>,
)
    requires
        d.claimed_size() == data.len(),
        0 <= top.position(),
        0 <= buf_len,
        top.position() + buf_len <= data.len(),
        edges_begun(d, top, buf_len, (behind[0], ahead[0])),
        context::gathers_behind(behind, behind_blocks),
        context::complete_behind(behind, behind_blocks, data),
        behind.last().finished(),
        context::gathers_ahead(ahead, ahead_blocks),
        context::complete_ahead(ahead, ahead_blocks, data),
        ahead.last().finished(),
    ensures
        behind.last().gathered() == data.subrange(
            if top.position() < 4 {
                0
            } else {
                top.position() - 4
            },
            top.position(),
        ),
        ahead.last().gathered() == data.subrange(
            top.position() + buf_len,
            if data.len() - (top.position() + buf_len) < 4099 {
                data.len() as int
            } else {
                top.position() + buf_len + 4099
            },
        ),
        behind[0].block_size() == d.block_size(),
        ahead[0].block_size() == d.block_size(),
{
    context::law_context_surrounds_its_positions(
        data,
        d.block_size(),
        top.position(),
        top.position() + buf_len,
        behind,
        behind_blocks,
        ahead,
        ahead_blocks,
    );
}

/// The horizontal scroll offset `n` columns from `offset`, as far as there are
/// offsets.
pub open spec fn shifted(offset: int, n: int) -> int {
    if offset + n < 0 {
        0
    } else if offset + n > MAX_HSCROLL {
        MAX_HSCROLL as int
    } else {
        offset + n
    }
}

/// A shift moves by as many columns as asked for, unless one of the two ends is
/// in the way, and then up to that end; so a shift there and back comes back,
/// unless an end was in the way.
pub proof fn law_a_shift_moves_up_to_the_ends(offset: int, n: int)
    requires
        0 <= offset <= 65536,
    ensures
        0 <= shifted(offset, n) <= 65536,
        0 <= offset + n <= 65536 ==> shifted(offset, n) - offset == n,
        0 <= offset + n <= 65536 ==> shifted(shifted(offset, n), -n) == offset,
        offset + n <= 0 ==> shifted(offset, n) == 0,
        offset + n >= 65536 ==> shifted(offset, n) == 65536,
{
}

/// `r` is what is told of the file's number of lines.
pub open spec fn lines_told(index: LineIndex, r: Option<u64>) -> bool {
    if index.at_eof() {
        r matches Some(n) && n == text::line_count(index@)
    } else {
        r is None
    }
}

/// The number of lines is told only of a whole file, and is the number of lines
/// that reading the file byte by byte finds.
pub proof fn law_the_lines_of_a_whole_file_are_told(
    data: Seq<u8>,
    index: LineIndex,
    r: Option<u64>,
)
    requires
        index.at_eof() ==> index@ == data,
        lines_told(index, r),
    ensures
        r is Some <==> index.at_eof(),
        r matches Some(n) ==> n == index::naive_line_starts(data).len(),
{
    index::law_index_agrees_with_a_naive_scan(data, 0);
}

// ---------------------------------------------------------------------------
// How navigation goes, step by step.

/// `r` is how a scroll by `delta` lines from `from` begins.
pub open spec fn scroll_begun(d: Document, from: Anchor, delta: i64, r: Scroll) -> bool {
    if delta == 0 || (delta < 0 && from.position() == 0) {
        r == Scroll::Ready(NavOutcome::At(from))
    } else if delta > 0 {
        r matches Scroll::Down(s) && s.start == from.position() && s.lines == search::less(
            delta as int,
            usize::MAX as int,
        ) && s.budget == d.budget()
    } else {
        r matches Scroll::Up(s) && s.start == from.position() && s.lines == search::less(
            -delta,
            usize::MAX as int,
        ) && s.budget == d.budget()
    }
}

/// `r` is what a step of a forward scan leads to: where it ended, or a
/// continuation in the background, under this label, over the rest of the file.
pub open spec fn stepped_on(
    d: Document,
    scan: ForwardScan,
    step: Step,
    scanned: u64,
    label: Seq<char>,
    r: Resolution,
) -> bool {
    match step {
        Step::Done(end) => r matches Resolution::Ready(NavOutcome::At(a)) && a.position()
            == scan::end_of_scan(end),
        Step::More => r matches Resolution::Pending(p) && p.label@ == label && p.span
            == d.claimed_size() - scan.start && p.scanned == scanned,
    }
}

/// `r` is how a jump to the end begins.
pub open spec fn end_begun(d: Document, r: SnapStep) -> bool {
    if d.claimed_size() == 0 {
        r matches SnapStep::Ready(NavOutcome::At(a)) && a.position() == 0
    } else {
        r matches SnapStep::Scan(s) && s.start == d.claimed_size() && s.lines == 1 && s.budget
            == d.budget()
    }
}

/// `r` is how a jump to the end goes on after a step of its scan for the last
/// line.
pub open spec fn last_line_stepped(
    d: Document,
    rows: usize,
    step: BwdStep,
    scanned: u64,
    r: EndStep,
) -> bool {
    if step is More || step is Exhausted {
        r matches EndStep::Pending(p) && p.label@ == "jumping to end"@ && p.span
            == d.claimed_size() && p.scanned == scanned
    } else if scan::end_of_step(step) == 0 || rows <= 1 {
        r matches EndStep::Ready(NavOutcome::At(a)) && a.position() == scan::end_of_step(step)
    } else {
        r matches EndStep::Scan(s) && s.start == scan::end_of_step(step) && s.lines == rows - 1
            && s.budget == d.budget()
    }
}

/// `r` is how a jump to the end goes on in the background once the last line was
/// found at `last`.
pub open spec fn end_resumed(d: Document, rows: usize, last: u64, r: SnapStep) -> bool {
    if rows <= 1 {
        r matches SnapStep::Ready(NavOutcome::At(a)) && a.position() == last
    } else {
        r matches SnapStep::Scan(s) && s.start == last && s.lines == rows - 1 && s.budget
            == d.budget()
    }
}

/// `r` is how a jump by `pct` percent begins.
pub open spec fn percent_begun(d: Document, pct: u8, r: PercentStep) -> bool {
    let target = d.claimed_size() * pct / 100;
    if d.claimed_size() == 0 || pct == 0 || (pct < 100 && target == 0) {
        r matches PercentStep::Ready(NavOutcome::At(a)) && a.position() == 0
    } else if pct >= 100 {
        r is End
    } else {
        r matches PercentStep::Probe { block, target: t } && block == (target - 1) / d.block_size()
            && t == target
    }
}

/// `r` is how a jump by percent goes on after a look at the byte before its
/// target.
pub open spec fn percent_stepped(d: Document, target: u64, block: Block, r: SnapStep) -> bool {
    if after_newline(d.block_size(), target as int, block) {
        r matches SnapStep::Ready(NavOutcome::At(a)) && a.position() == target
    } else {
        r matches SnapStep::Scan(s) && s.start == target && s.lines == 1 && s.budget == d.budget()
    }
}

/// `r` is how a jump to line `n`, counted from 1, begins.
pub open spec fn line_begun(d: Document, index: LineIndex, n: u64, r: LineStep) -> bool {
    line_planned(d, index, search::greater(n - 1, 0), false, r)
}

/// `leg` is how a search from `origin` begins.
pub open spec fn search_begun(d: Document, origin: u64, forward: bool, leg: SearchLeg) -> bool {
    if forward {
        leg matches SearchLeg::Fwd(s) && s.from == origin && s.limit == Bound::Exclusive(
            d.claimed_size() as u64,
        ) && scan::fresh(s.meter, d.budget())
    } else {
        leg matches SearchLeg::Bwd(s) && s.hi == origin && s.floor == Bound::Inclusive(0)
            && !s.wrap && scan::fresh(s.meter, d.budget())
    }
}

/// `r` is how a search goes on once its first leg ended.
pub open spec fn near_ended(
    d: Document,
    origin: u64,
    forward: bool,
    end: SearchEnd,
    r: SearchNext,
) -> bool {
    match end {
        SearchEnd::Found { match_at, line_start } => r == (SearchNext::Found {
            match_at,
            line_start,
            wrapped: false,
        }),
        SearchEnd::End => r matches SearchNext::Wrap(leg) && wraps(
            leg,
            origin,
            d.claimed_size() as u64,
            forward,
            d.budget(),
        ),
    }
}

/// `r` is how a search goes on once its leg around the end of the file ended.
pub open spec fn far_ended(end: SearchEnd, r: SearchNext) -> bool {
    match end {
        SearchEnd::Found { match_at, line_start } => r == (SearchNext::Found {
            match_at,
            line_start,
            wrapped: true,
        }),
        SearchEnd::End => r == SearchNext::Ready(NavOutcome::Exhausted),
    }
}

/// `r` is a search that goes on in the background, over the whole file.
pub open spec fn search_pends(d: Document, scanned: u64, r: SearchNext) -> bool {
    r matches SearchNext::Pending(p) && p.label@ == "searching"@ && p.span == d.claimed_size()
        && p.scanned == scanned
}

/// `r` is what is known of the start of a match's line before anything is read.
pub open spec fn line_start_begun(
    d: Document,
    match_at: u64,
    hint: Option<u64>,
    r: LineStart,
) -> bool {
    match hint {
        Some(p) => r matches LineStart::Known(a) && a.position() == p,
        None => if match_at == 0 {
            r matches LineStart::Known(a) && a.position() == 0
        } else {
            r matches LineStart::Probe { block } && block == (match_at - 1) / d.block_size()
        },
    }
}

/// `r` is what is known of the start of a match's line after a look at the byte
/// before the match.
pub open spec fn line_start_stepped(
    d: Document,
    match_at: u64,
    block: Block,
    r: Option<Anchor>,
) -> bool {
    if after_newline(d.block_size(), match_at as int, block) {
        r matches Some(a) && a.position() == match_at
    } else {
        r is None
    }
}

/// `scan` hunts for the start of the line that a match at `match_at` is on.
pub open spec fn hunt_begun(d: Document, match_at: u64, scan: BackwardScan) -> bool {
    scan.start == match_at && scan.lines == 1 && scan.budget == d.budget()
}

/// `r` is what a step of the hunt for a match's line leads to.
pub open spec fn hunt_stepped(
    match_at: u64,
    wrapped: bool,
    step: BwdStep,
    span: u64,
    scanned: u64,
    r: Resolution,
) -> bool {
    if step is Found || step is Top {
        r matches Resolution::Ready(o) && found_at(o, scan::end_of_step(step), match_at, wrapped)
    } else {
        r matches Resolution::Pending(p) && p.label@ == "searching"@ && p.span == span && p.scanned
            == scanned
    }
}

/// `o` says that a match was found at `match_at`, on the line at `top`.
pub open spec fn found_at(o: NavOutcome, top: int, match_at: u64, wrapped: bool) -> bool {
    o matches NavOutcome::FoundMatch { top: a, match_at: m, wrapped: w } && a.position() == top && m
        == match_at && w == wrapped
}

/// The outcome of a search that found a match on the line at `top`.
pub fn found(top: Anchor, match_at: u64, wrapped: bool) -> (o: NavOutcome)
    ensures
        found_at(o, top.position(), match_at, wrapped),
        o == (NavOutcome::FoundMatch { top, match_at, wrapped }),
{
    NavOutcome::FoundMatch { top, match_at, wrapped }
}

/// `leg` goes around the end of the file. Upward it starts at the top and ends
/// a longest match past `origin`, so that it can confirm a match that starts
/// below `origin` and reaches over it. Downward it starts at the end of the file
/// and ends at `origin`: the first leg reads past `origin` by itself.
pub open spec fn wraps(leg: SearchLeg, origin: u64, size: u64, forward: bool, budget: int) -> bool {
    if forward {
        leg matches SearchLeg::Fwd(s) && s.from == 0 && s.limit == Bound::Exclusive(
            search::less(origin + search::MAX_MATCH_LEN, u64::MAX as int) as u64,
        ) && scan::fresh(s.meter, budget)
    } else {
        leg matches SearchLeg::Bwd(s) && s.hi == size && s.floor == Bound::Inclusive(origin)
            && s.wrap && scan::fresh(s.meter, budget)
    }
}

/// The leg of a search that goes around the end of the file.
pub fn wrapped_leg(origin: u64, size: u64, forward: bool, budget: usize) -> (leg: SearchLeg)
    ensures
        wraps(leg, origin, size, forward, budget as int),
{
    if forward {
        let limit: u64 = origin.saturating_add(search::MAX_MATCH_LEN as u64);
        SearchLeg::Fwd(SearchForward::new(0, Bound::Exclusive(limit), budget))
    } else {
        SearchLeg::Bwd(SearchBackward::new_wrap_leg(size, Bound::Inclusive(origin), budget))
    }
}

/// `r` is the way to line `line0` (counted from 0) as far as `index` knows it:
/// a walk from the checkpoint before that line, or before the last line where
/// the index is done and has no such line. A checkpoint at the end of the file
/// starts no line, so the line before is meant; of a last line only a jump that
/// `waited` looks at that.
pub open spec fn line_planned(
    d: Document,
    index: LineIndex,
    line0: int,
    waited: bool,
    r: LineStep,
) -> bool {
    let known = text::newline_count(index@);
    let size = d.claimed_size();
    let meant = if line0 <= known {
        line0
    } else if index.at_eof() {
        search::greater(text::line_count(index@) - 1, 0)
    } else {
        known
    };
    let at_end = text::line_start(index@, 1024 * (meant / 1024)) >= size;
    let goal = if (line0 <= known || waited) && at_end && meant > 0 {
        meant - 1
    } else {
        meant
    };
    let cp = 1024 * (goal / 1024);
    if known < line0 && !index.finished() {
        r matches LineStep::Wait { line0: l, pending: p } && l == line0 && p.label@
            == "jumping to line"@ && p.span == size && p.scanned == index@.len()
    } else if size == 0 {
        r matches LineStep::Ready(NavOutcome::At(a)) && a.position() == 0
    } else {
        r matches LineStep::Walk(s) && s.start == text::line_start(index@, cp) && s.lines == goal
            - cp && s.budget == d.budget()
    }
}

/// The outcome of a forward scan that ended.
pub fn landed(end: FwdEnd) -> (r: NavOutcome)
    ensures
        r matches NavOutcome::At(a) && a.position() == scan::end_of_scan(end),
{
    match end {
        FwdEnd::Found(s) => NavOutcome::At(Anchor::at(s)),
        FwdEnd::Eof(s) => NavOutcome::At(Anchor::at(s)),
    }
}

/// `r` is what a step of a backward scan leads to: the line start that was
/// found, the top of the file, or a continuation in the background under this
/// label and span.
pub open spec fn stepped_back(
    step: BwdStep,
    scanned: u64,
    label: Seq<char>,
    span: int,
    r: Resolution,
) -> bool {
    if step is Found || step is Top {
        r matches Resolution::Ready(NavOutcome::At(a)) && a.position() == scan::end_of_step(step)
    } else {
        r matches Resolution::Pending(p) && p.label@ == label && p.span == span && p.scanned
            == scanned
    }
}

fn step_back(step: BwdStep, label: &'static str, span: u64, scanned: u64) -> (r: Resolution)
    ensures
        stepped_back(step, scanned, label@, span as int, r),
{
    match step {
        BwdStep::Found(s) => Resolution::Ready(NavOutcome::At(Anchor::at(s))),
        BwdStep::Top => Resolution::Ready(NavOutcome::At(Anchor::top())),
        _ => Resolution::Pending(Pending { label, span, scanned }),
    }
}

/// `n` lines, or as many as can be counted.
fn line_number(n: u64) -> (r: usize)
    ensures
        r == search::less(n as int, usize::MAX as int),
{
    if n <= usize::MAX as u64 {
        n as usize
    } else {
        usize::MAX
    }
}

/// The byte right before `at`, read off its block, is a newline.
pub open spec fn after_newline(block_size: int, at: int, block: Block) -> bool {
    let rel = (at - 1) % block_size;
    rel < block@.len() && block@[rel] == text::NEWLINE
}

fn follows_newline(block_size: usize, at: u64, block: &Block) -> (r: bool)
    requires
        block_size > 0,
        at > 0,
    ensures
        r == after_newline(block_size as int, at as int, *block),
{
    proof {
        vstd::arithmetic::div_mod::lemma_mod_bound(at - 1, block_size as int);
    }
    let rel: u64 = (at - 1) % block_size as u64;
    let rel: usize = rel as usize;
    let bytes = block.as_slice();
    rel < bytes.len() && bytes[rel] == text::NEWLINE
}

}
