//! What navigation answers, and what it asks for on the way.
use vstd::prelude::*;

use crate::document::Anchor;
use crate::scan::BackwardScan;
use crate::scan::ForwardScan;
use crate::scan::SearchLeg;

verus! {

/// Where a navigation ended.
#[derive(Debug, Clone, Copy, PartialEq, Eq, Structural)]
pub enum NavOutcome {
    /// The screen starts here.
    At(Anchor),
    /// A match starts at `match_at`, on the line that starts at `top`; `wrapped`
    /// says that the search went around the end of the file.
    FoundMatch { top: Anchor, match_at: u64, wrapped: bool },
    /// There is no match anywhere.
    Exhausted,
}

/// A navigation that goes on in the background: what it is called, and how many
/// of how many bytes it has scanned.
#[derive(Debug, Clone, Copy, PartialEq, Eq)]
pub struct Pending {
    pub label: &'static str,
    pub span: u64,
    pub scanned: u64,
}

/// A navigation is done, or goes on in the background.
#[derive(Debug, Clone, Copy, PartialEq, Eq)]
pub enum Resolution {
    Ready(NavOutcome),
    Pending(Pending),
}

/// How a scroll begins.
#[derive(Debug, Clone, Copy, PartialEq, Eq, Structural)]
pub enum Scroll {
    Ready(NavOutcome),
    Down(ForwardScan),
    Up(BackwardScan),
}

/// How a jump to the end goes on once its last line was looked for.
#[derive(Debug, Clone, Copy, PartialEq, Eq)]
pub enum EndStep {
    Ready(NavOutcome),
    /// The walk up from the last line.
    Scan(BackwardScan),
    Pending(Pending),
}

/// How a jump by percent begins.
#[derive(Debug, Clone, Copy, PartialEq, Eq, Structural)]
pub enum PercentStep {
    Ready(NavOutcome),
    /// It is a jump to the end, onto a screen of one row.
    End,
    /// The byte before `target` decides: it lies in the block `block`.
    Probe { block: u64, target: u64 },
}

/// A jump is done, or a line start is looked for by a backward scan.
#[derive(Debug, Clone, Copy, PartialEq, Eq, Structural)]
pub enum SnapStep {
    Ready(NavOutcome),
    Scan(BackwardScan),
}

/// How a jump to a line goes on.
#[derive(Debug, Clone, Copy, PartialEq, Eq)]
pub enum LineStep {
    Ready(NavOutcome),
    /// The index knows a line start at or before the line: walk from there.
    Walk(ForwardScan),
    /// The index has not come so far: wait for line `line0` (counted from 0).
    Wait { line0: u64, pending: Pending },
}

/// How a search goes on after one of its legs was stepped.
pub enum SearchNext {
    /// A match was found; the start of its line is to be resolved.
    Found { match_at: u64, line_start: Option<u64>, wrapped: bool },
    /// Nothing on this side: go around the end of the file.
    Wrap(SearchLeg),
    Ready(NavOutcome),
    Pending(Pending),
}

/// What is known of the start of a match's line before anything is read.
#[derive(Debug, Clone, Copy, PartialEq, Eq, Structural)]
pub enum LineStart {
    Known(Anchor),
    /// The byte before the match decides: it lies in the block `block`.
    Probe { block: u64 },
}

}
