//! Line scans and match searches: what is asked for, and what comes back. A
//! scan works in steps; a step that uses up its budget leaves more to do.
use vstd::prelude::*;

use crate::meter::Meter;
use crate::search;
use crate::text;

verus! {

/// A search for the start of the `lines`-th line after the one at `start`.
#[derive(Debug, Clone, Copy, PartialEq, Eq, Structural)]
pub struct ForwardScan {
    pub start: u64,
    pub lines: usize,
    pub budget: usize,
}

/// How a forward scan ended.
#[derive(Debug, Clone, Copy, PartialEq, Eq, Structural)]
pub enum FwdEnd {
    /// The start of the line that was asked for.
    Found(u64),
    /// The file ended first: the start of its last line.
    Eof(u64),
}

/// What one step of a forward scan gave.
#[derive(Debug, Clone, Copy, PartialEq, Eq, Structural)]
pub enum Step {
    Done(FwdEnd),
    More,
}

/// A search for the start of the `lines`-th line before `start`, not counting
/// the newline that may lie right before `start`.
#[derive(Debug, Clone, Copy, PartialEq, Eq, Structural)]
pub struct BackwardScan {
    pub start: u64,
    pub lines: usize,
    pub budget: usize,
}

/// What one step of a backward scan gave.
#[derive(Debug, Clone, Copy, PartialEq, Eq, Structural)]
pub enum BwdStep {
    /// The start of the line that was asked for.
    Found(u64),
    /// There are not so many lines before: the top of the file.
    Top,
    /// The step's budget ran out.
    More,
    /// The budget was spent before the first read.
    Exhausted,
}

/// A bound of a search.
#[derive(Debug, Clone, Copy, PartialEq, Eq, Structural)]
pub enum Bound {
    Exclusive(u64),
    Inclusive(u64),
}

/// How a search ended.
#[derive(Debug, Clone, Copy, PartialEq, Eq, Structural)]
pub enum SearchEnd {
    /// A match starts at `match_at`; `line_start` is where its line starts, if
    /// the search saw that.
    Found { match_at: u64, line_start: Option<u64> },
    /// There is no match within the bounds.
    End,
}

/// What one step of a search gave.
#[derive(Debug, Clone, Copy, PartialEq, Eq, Structural)]
pub enum SearchStep {
    Done(SearchEnd),
    More,
}

/// A search upward from `from`, for a match that starts there or later and
/// below `limit`; no byte at or past `limit` is read.
pub struct SearchForward {
    pub from: u64,
    pub limit: Bound,
    pub meter: Meter,
}

/// A search downward from `hi`, for a match that starts below it and at `floor`
/// or later. A wrap leg starts at the far end of the file.
pub struct SearchBackward {
    pub hi: u64,
    pub floor: Bound,
    pub wrap: bool,
    pub meter: Meter,
}

/// One leg of a two-leg search.
pub enum SearchLeg {
    Fwd(SearchForward),
    Bwd(SearchBackward),
}

/// The meter of a leg that was just set up: nothing is charged, one step may
/// take `budget` bytes, and the leg as a whole has no limit.
pub open spec fn fresh(m: Meter, budget: int) -> bool {
    &&& m.step_limit() == search::greater(budget, 1)
    &&& m.total_limit() is None
    &&& m.step_spent() == 0
    &&& m.total_charged() == 0
    &&& m.total_progress() == 0
}

impl SearchForward {
    pub fn new(from: u64, limit: Bound, budget: usize) -> (s: SearchForward)
        ensures
            s.from == from,
            s.limit == limit,
            fresh(s.meter, budget as int),
    {
        SearchForward { from, limit, meter: Meter::background(budget) }
    }
}

impl SearchBackward {
    /// A leg that starts below the cursor.
    pub fn new_leg(hi: u64, floor: Bound, budget: usize) -> (s: SearchBackward)
        ensures
            s.hi == hi,
            s.floor == floor,
            !s.wrap,
            fresh(s.meter, budget as int),
    {
        SearchBackward { hi, floor, wrap: false, meter: Meter::background(budget) }
    }

    /// A leg that starts at the far end of the file.
    pub fn new_wrap_leg(hi: u64, floor: Bound, budget: usize) -> (s: SearchBackward)
        ensures
            s.hi == hi,
            s.floor == floor,
            s.wrap,
            fresh(s.meter, budget as int),
    {
        SearchBackward { hi, floor, wrap: true, meter: Meter::background(budget) }
    }
}

impl SearchLeg {
    /// The leg's meter.
    pub open spec fn meter(&self) -> Meter {
        match self {
            SearchLeg::Fwd(s) => s.meter,
            SearchLeg::Bwd(s) => s.meter,
        }
    }

    /// Bytes consumed toward the leg's answer.
    pub fn progressed(&self) -> (n: u64)
        ensures
            n == self.meter().total_progress(),
    {
        match self {
            SearchLeg::Fwd(s) => s.meter.progressed(),
            SearchLeg::Bwd(s) => s.meter.progressed(),
        }
    }

    /// The leg's meter, for what follows the search to share.
    pub fn into_meter(self) -> (m: Meter)
        ensures
            m == self.meter(),
    {
        match self {
            SearchLeg::Fwd(s) => s.meter,
            SearchLeg::Bwd(s) => s.meter,
        }
    }

    /// A match may start at `s` for this leg to find it.
    pub open spec fn accepts(&self, s: int) -> bool {
        match self {
            SearchLeg::Fwd(f) => f.from <= s && match f.limit {
                Bound::Exclusive(l) => s < l,
                Bound::Inclusive(l) => s <= l,
            },
            SearchLeg::Bwd(b) => s < b.hi && match b.floor {
                Bound::Exclusive(l) => l < s,
                Bound::Inclusive(l) => l <= s,
            },
        }
    }
}

/// Where a forward scan ended.
pub open spec fn end_of_scan(end: FwdEnd) -> int {
    match end {
        FwdEnd::Found(s) => s as int,
        FwdEnd::Eof(s) => s as int,
    }
}

/// Where a backward scan ended, if this step ended it.
pub open spec fn end_of_step(step: BwdStep) -> int {
    match step {
        BwdStep::Found(s) => s as int,
        _ => 0,
    }
}

// ---------------------------------------------------------------------------
// What a truthful scan of a file answers.

/// Where the `n`-th line after the one at `start` starts; the last line of the
/// file where there are not so many.
pub open spec fn line_after(data: Seq<u8>, start: int, n: int) -> int {
    text::line_start(
        data,
        search::less(text::line_of(data, start) + n, text::line_count(data) - 1),
    )
}

/// Where the `n`-th line before `start` starts, the line of the byte before
/// `start` being the first of them; the top of the file where there are not so
/// many.
pub open spec fn line_before(data: Seq<u8>, start: int, n: int) -> int {
    if start <= 0 {
        0
    } else {
        text::line_start(data, search::greater(text::line_of(data, start - 1) - n + 1, 0))
    }
}

/// The end of a forward scan is true of the file.
pub open spec fn true_forward(data: Seq<u8>, scan: ForwardScan, end: FwdEnd) -> bool {
    end_of_scan(end) == line_after(data, scan.start as int, scan.lines as int)
}

/// The step ended a backward scan, and its end is true of the file.
pub open spec fn true_backward(data: Seq<u8>, scan: BackwardScan, step: BwdStep) -> bool {
    &&& step is Found || step is Top
    &&& end_of_step(step) == line_before(data, scan.start as int, scan.lines as int)
}

}
