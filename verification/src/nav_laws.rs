//! Where navigation lands, given that the scans it asks for answer truthfully.
use vstd::prelude::*;

use crate::block::Block;
use crate::document;
use crate::document::Anchor;
use crate::document::Document;
use crate::index;
use crate::index::LineIndex;
use crate::meter;
use crate::meter::Meter;
use crate::nav::EndStep;
use crate::nav::LineStart;
use crate::nav::LineStep;
use crate::nav::NavOutcome;
use crate::nav::PercentStep;
use crate::nav::Resolution;
use crate::nav::Scroll;
use crate::nav::SearchNext;
use crate::nav::SnapStep;
use crate::scan;
use crate::scan::BackwardScan;
use crate::scan::Bound;
use crate::scan::BwdStep;
use crate::scan::ForwardScan;
use crate::scan::FwdEnd;
use crate::scan::SearchEnd;
use crate::scan::SearchLeg;
use crate::scan::Step;
use crate::search;
use crate::text;

verus! {

/// One newline more lies before a position that follows a newline than before
/// that newline; as many lie before one that follows another byte.
proof fn lemma_line_of_next(data: Seq<u8>, p: int)
    requires
        0 < p <= data.len(),
    ensures
        text::line_of(data, p) == text::line_of(data, p - 1) + if data[p - 1] == text::NEWLINE {
            1int
        } else {
            0int
        },
{
    assert(data.take(p).drop_last() =~= data.take(p - 1));
    assert(data.take(p).last() == data[p - 1]);
}

/// `p` is where a screen may start: the top of the file, or a position after a
/// newline before the end of the file.
pub open spec fn is_anchor(data: Seq<u8>, p: int) -> bool {
    p == 0 || (p < data.len() && text::is_line_start(data, p))
}

/// The start of every line is an anchor.
pub proof fn law_lines_start_at_anchors(data: Seq<u8>, k: int)
    requires
        0 <= k < text::line_count(data),
    ensures
        0 <= text::line_start(data, k) < data.len(),
        is_anchor(data, text::line_start(data, k)),
{
    text::lemma_lines_start_inside(data, k);
    text::lemma_line_starts_grow(data, k, k);
}

/// A position in the file lies on one of the file's lines.
pub proof fn law_a_position_is_on_a_line(data: Seq<u8>, p: int)
    requires
        0 <= p < data.len(),
    ensures
        0 <= text::line_of(data, p) < text::line_count(data),
{
    text::lemma_start_of_line_at(data, p);
    assert(data =~= data.take(p) + data.skip(p));
    text::lemma_occurrences_concat(data.take(p), data.skip(p), text::NEWLINE);
    if data.last() == text::NEWLINE {
        let rest = data.skip(p);
        assert(rest.last() == text::NEWLINE);
        assert(text::newline_positions(rest).len() > 0);
    }
}

/// Scrolling down lands on the line that is so many lines further on, or on the
/// last line of the file; in an empty file it stays at the top.
pub proof fn law_scrolling_down_lands(data: Seq<u8>, scan: ForwardScan, end: FwdEnd)
    requires
        scan.start < data.len() || scan.start == 0,
        scan::true_forward(data, scan, end),
    ensures
        data.len() > 0 ==> scan::end_of_scan(end) == text::line_start(
            data,
            search::less(
                text::line_of(data, scan.start as int) + scan.lines,
                text::line_count(data) - 1,
            ),
        ),
        is_anchor(data, scan::end_of_scan(end)),
{
    if data.len() > 0 {
        law_a_position_is_on_a_line(data, scan.start as int);
        law_lines_start_at_anchors(
            data,
            search::less(
                text::line_of(data, scan.start as int) + scan.lines,
                text::line_count(data) - 1,
            ),
        );
    }
}

/// Scrolling up from a line start lands on the line that is so many lines before
/// it, or on the first line of the file.
pub proof fn law_scrolling_up_lands(data: Seq<u8>, scan: BackwardScan, step: BwdStep)
    requires
        0 < scan.start <= data.len(),
        text::is_line_start(data, scan.start as int),
        0 < scan.lines,
        scan::true_backward(data, scan, step),
    ensures
        scan::end_of_step(step) == text::line_start(
            data,
            search::greater(text::line_of(data, scan.start as int) - scan.lines, 0),
        ),
        is_anchor(data, scan::end_of_step(step)),
{
    let p = scan.start - 1;
    lemma_line_of_next(data, scan.start as int);
    law_a_position_is_on_a_line(data, p);
    law_lines_start_at_anchors(
        data,
        search::greater(text::line_of(data, scan.start as int) - scan.lines, 0),
    );
}

/// Scrolling down and then up by as many lines comes back, unless the end of
/// the file was in the way.
pub proof fn law_scrolling_down_and_up_comes_back(
    data: Seq<u8>,
    down: ForwardScan,
    end: FwdEnd,
    up: BackwardScan,
    step: BwdStep,
)
    requires
        down.start < data.len(),
        text::is_line_start(data, down.start as int),
        0 < down.lines,
        text::line_of(data, down.start as int) + down.lines < text::line_count(data),
        scan::true_forward(data, down, end),
        up.start == scan::end_of_scan(end),
        up.lines == down.lines,
        scan::true_backward(data, up, step),
    ensures
        scan::end_of_step(step) == down.start,
{
    let start = down.start as int;
    let n = down.lines as int;
    let k = text::line_of(data, start);
    law_a_position_is_on_a_line(data, start);
    law_lines_start_at_anchors(data, k + n);
    text::lemma_lines_start_inside(data, k + n);
    text::lemma_line_of_line_start(data, k + n);
    text::lemma_line_starts_grow(data, k, k + n);
    law_scrolling_up_lands(data, up, step);
    text::lemma_line_start_is_its_own(data, start);
}

/// A jump to the end finds the start of the file's last line: the newline at
/// the very end, if there is one, starts no line.
pub proof fn law_the_end_is_the_last_line(data: Seq<u8>, scan: BackwardScan, step: BwdStep)
    requires
        data.len() > 0,
        scan.start == data.len(),
        scan.lines == 1,
        scan::true_backward(data, scan, step),
    ensures
        scan::end_of_step(step) == text::line_start(data, text::line_count(data) - 1),
        is_anchor(data, scan::end_of_step(step)),
{
    let n = data.len() as int;
    lemma_line_of_next(data, n);
    assert(data.take(n) =~= data);
    text::lemma_occurrences(data, text::NEWLINE);
    if data.last() == text::NEWLINE {
        assert(text::newline_positions(data).len() > 0);
    }
    law_a_position_is_on_a_line(data, 0);
    law_lines_start_at_anchors(data, text::line_count(data) - 1);
}

/// A jump to the end puts the last line on the bottom row: the screen starts
/// `rows - 1` lines above it, or at the top of the file. `p` is where the jump
/// ended: on the last line itself, where the screen has one row or the last line
/// is the first; else where the walk up ended. A walk up from the top, which
/// only a jump in the background makes, changes nothing.
pub proof fn law_the_last_line_is_on_the_bottom_row(
    data: Seq<u8>,
    last: BwdStep,
    rows: int,
    walk: BackwardScan,
    step: BwdStep,
    p: int,
)
    requires
        data.len() > 0,
        1 <= rows,
        scan::end_of_step(last) == text::line_start(data, text::line_count(data) - 1),
        if p == scan::end_of_step(last) && (rows == 1 || p == 0) {
            true
        } else {
            &&& rows > 1
            &&& walk.start == scan::end_of_step(last)
            &&& walk.lines == rows - 1
            &&& scan::true_backward(data, walk, step)
            &&& p == scan::end_of_step(step)
        },
    ensures
        p == text::line_start(data, search::greater(text::line_count(data) - rows, 0)),
        is_anchor(data, p),
{
    let k = text::line_count(data) - 1;
    law_a_position_is_on_a_line(data, 0);
    law_lines_start_at_anchors(data, k);
    law_lines_start_at_anchors(data, search::greater(k - (rows - 1), 0));
    text::lemma_line_of_line_start(data, k);
    let start = text::line_start(data, k);
    if start == 0 && k > 0 {
        text::lemma_lines_start_inside(data, k);
        text::lemma_line_starts_grow(data, 0, k);
    }
    if rows > 1 && start > 0 {
        law_scrolling_up_lands(data, walk, step);
    }
}

/// The byte before a position, read off a truthful block, tells whether the
/// position follows a newline.
proof fn lemma_probe(data: Seq<u8>, block_size: int, at: int, block: Block)
    requires
        block_size > 0,
        0 < at <= data.len(),
        meter::truthful(block_size, data, (at - 1) / block_size, block),
        block@.len() > (at - 1) % block_size,
    ensures
        document::after_newline(block_size, at, block) <==> data[at - 1] == text::NEWLINE,
{
    let p = at - 1;
    vstd::arithmetic::div_mod::lemma_fundamental_div_mod(p, block_size);
    vstd::arithmetic::div_mod::lemma_mod_bound(p, block_size);
    assert(block_size * (p / block_size) == p / block_size * block_size) by (nonlinear_arith);
    let start = p / block_size * block_size;
    assert(block@[p % block_size] == data.subrange(start, start + block@.len())[p % block_size]);
}

/// A jump by percent, and the hunt for the line of a match, land on the start
/// of the line that holds the target, whatever their budget is: right after a
/// newline that is the target itself, else what a backward scan finds.
pub proof fn law_a_position_snaps_to_its_line(
    data: Seq<u8>,
    block_size: int,
    target: int,
    block: Block,
    scan: BackwardScan,
    step: BwdStep,
    p: int,
)
    requires
        block_size > 0,
        0 < target < data.len(),
        meter::truthful(block_size, data, (target - 1) / block_size, block),
        block@.len() > (target - 1) % block_size,
        if document::after_newline(block_size, target, block) {
            p == target
        } else {
            &&& scan.start == target
            &&& scan.lines == 1
            &&& scan::true_backward(data, scan, step)
            &&& p == scan::end_of_step(step)
        },
    ensures
        p == text::start_of_line_at(data, target),
        is_anchor(data, p),
{
    lemma_probe(data, block_size, target, block);
    lemma_line_of_next(data, target);
    law_a_position_is_on_a_line(data, target);
    law_lines_start_at_anchors(data, text::line_of(data, target));
    if data[target - 1] == text::NEWLINE {
        text::lemma_line_start_is_its_own(data, target);
    } else {
        text::lemma_start_of_line_at(data, target);
    }
}

/// A jump to a line lands on it, or on the last line where there are not so
/// many. The index may have ingested only a part of the file, as long as the
/// line lies in that part or the part is the whole file.
pub proof fn law_a_jump_lands_on_its_line(
    d: Document,
    index: LineIndex,
    data: Seq<u8>,
    line0: int,
    waited: bool,
    scan: ForwardScan,
    end: FwdEnd,
)
    requires
        data.len() > 0,
        d.claimed_size() == data.len(),
        index@.len() <= data.len(),
        index@ == data.take(index@.len() as int),
        index.at_eof() ==> index@ == data,
        0 <= line0,
        line0 <= text::newline_count(index@) || index.at_eof(),
        document::line_planned(d, index, line0, waited, LineStep::Walk(scan)),
        scan::true_forward(data, scan, end),
    ensures
        scan::end_of_scan(end) == text::line_start(
            data,
            search::less(line0, text::line_count(data) - 1),
        ),
        is_anchor(data, scan::end_of_scan(end)),
{
    let part = index@;
    let known = text::newline_count(part);
    let rest = data.skip(part.len() as int);
    assert(data =~= part + rest);
    text::lemma_occurrences_concat(part, rest, text::NEWLINE);
    let all = text::newline_count(data);
    let last = text::line_count(data) - 1;
    law_a_position_is_on_a_line(data, 0);
    law_lines_start_at_anchors(data, search::less(line0, last));
    text::lemma_occurrences(data, text::NEWLINE);
    if line0 <= known {
        let cp0 = 1024 * (line0 / 1024);
        text::lemma_line_start_concat(part, rest, cp0);
        if !(text::line_start(part, cp0) < data.len() || line0 == 0) {
            // the checkpoint lies at the end of the file, so it is the last
            // position after a newline, and the line is that position.
            text::lemma_line_starts_grow(data, cp0, all);
            if cp0 < all {
                text::lemma_line_starts_grow(data, cp0, cp0 + 1);
                text::lemma_line_starts_grow(data, cp0 + 1, all);
            }
            assert(cp0 == all && line0 == all);
            if cp0 > 0 {
                assert(text::newline_positions(data)[all - 1] == data.len() - 1);
            }
            assert(last == all - 1);
            lemma_walk(data, part, rest, line0 - 1, scan);
        } else {
            lemma_walk(data, part, rest, line0, scan);
        }
    } else {
        assert(part == data);
        lemma_walk(data, part, rest, last, scan);
    }
}

/// Where a read error cut the index short, a jump past what the index knows
/// lands on the last line that it knows: the line of the first byte that it did
/// not take.
pub proof fn law_a_jump_past_a_shortened_index_lands_on_its_last_line(
    d: Document,
    index: LineIndex,
    data: Seq<u8>,
    line0: int,
    waited: bool,
    scan: ForwardScan,
    end: FwdEnd,
)
    requires
        data.len() > 0,
        d.claimed_size() == data.len(),
        index@.len() < data.len(),
        index@ == data.take(index@.len() as int),
        index.finished() && !index.at_eof(),
        line0 > text::newline_count(index@),
        document::line_planned(d, index, line0, waited, LineStep::Walk(scan)),
        scan::true_forward(data, scan, end),
    ensures
        scan::end_of_scan(end) == text::start_of_line_at(data, index@.len() as int),
        is_anchor(data, scan::end_of_scan(end)),
{
    let part = index@;
    let rest = data.skip(part.len() as int);
    assert(data =~= part + rest);
    text::lemma_occurrences_concat(part, rest, text::NEWLINE);
    text::lemma_occurrences(data, text::NEWLINE);
    law_a_position_is_on_a_line(data, part.len() as int);
    law_lines_start_at_anchors(data, text::line_of(data, part.len() as int));
    let known = text::newline_count(part);
    text::lemma_line_starts_grow(part, 1024 * (known / 1024), known);
    lemma_walk(data, part, rest, known, scan);
}

proof fn lemma_walk(data: Seq<u8>, part: Seq<u8>, rest: Seq<u8>, goal: int, scan: ForwardScan)
    requires
        data == part + rest,
        0 <= goal <= text::newline_count(part),
        scan.start == text::line_start(part, 1024 * (goal / 1024)),
        scan.lines == goal - 1024 * (goal / 1024),
    ensures
        scan::line_after(data, scan.start as int, scan.lines as int) == text::line_start(
            data,
            search::less(goal, text::line_count(data) - 1),
        ),
{
    let cp = 1024 * (goal / 1024);
    text::lemma_occurrences_concat(part, rest, text::NEWLINE);
    text::lemma_line_start_concat(part, rest, cp);
    text::lemma_line_of_line_start(data, cp);
}

// ---------------------------------------------------------------------------
// Searches.

/// The two legs of a search look everywhere: a match may start anywhere in the
/// file for one of them to find it. Downward no start is looked at twice.
pub proof fn law_two_legs_cover_the_file(
    near: SearchLeg,
    far: SearchLeg,
    origin: u64,
    size: u64,
    forward: bool,
    budget: int,
    s: int,
)
    requires
        forward ==> (near matches SearchLeg::Fwd(f) && f.from == origin && f.limit
            == Bound::Exclusive(size)),
        !forward ==> (near matches SearchLeg::Bwd(b) && b.hi == origin && b.floor
            == Bound::Inclusive(0)),
        document::wraps(far, origin, size, forward, budget),
        0 <= s < size,
    ensures
        near.accepts(s) || far.accepts(s),
        !forward ==> !(near.accepts(s) && far.accepts(s)),
        near.accepts(s) <==> if forward {
            origin <= s
        } else {
            s < origin
        },
{
}

/// A match that starts before `origin` and reaches over it lies wholly in what
/// the leg around the end of the file reads, unless it is longer than any match
/// need be.
pub proof fn law_the_far_leg_sees_a_straddling_match(
    far: SearchLeg,
    origin: u64,
    size: u64,
    budget: int,
    s: int,
    e: int,
)
    requires
        document::wraps(far, origin, size, true, budget),
        0 <= s < origin,
        s <= e <= s + search::MAX_MATCH_LEN,
        e <= size,
    ensures
        far.accepts(s),
        far matches SearchLeg::Fwd(f) && (f.limit matches Bound::Exclusive(l) && e <= l),
{
}

// ---------------------------------------------------------------------------
// Whole navigations, from what was asked for to where they end.

/// The navigation is done, at position `p`.
pub open spec fn ends_at(r: Resolution, p: int) -> bool {
    r matches Resolution::Ready(NavOutcome::At(a)) && a.position() == p
}

/// A scroll by `delta` lines from an anchor ends on the line that is so many
/// lines further down or up, or on the last or first line of the file; in an
/// empty file it stays at the top. `begun` is how it began, `end` or `step` what
/// the scan that it asked for answered, `r` what became of it.
pub proof fn law_a_scroll_lands(
    d: Document,
    data: Seq<u8>,
    from: Anchor,
    delta: i64,
    begun: Scroll,
    end: FwdEnd,
    step: BwdStep,
    scanned: u64,
    r: Resolution,
)
    requires
        is_anchor(data, from.position()),
        0 <= from.position(),
        -usize::MAX <= delta <= usize::MAX || text::line_count(data) <= usize::MAX,
        document::scroll_begun(d, from, delta, begun),
        match begun {
            Scroll::Ready(o) => r == Resolution::Ready(o),
            Scroll::Down(scan) => scan::true_forward(data, scan, end) && document::stepped_on(
                d,
                scan,
                Step::Done(end),
                scanned,
                "scrolling"@,
                r,
            ),
            Scroll::Up(scan) => scan::true_backward(data, scan, step) && document::stepped_back(
                step,
                scanned,
                "scrolling"@,
                scan.start as int,
                r,
            ),
        },
    ensures
        r matches Resolution::Ready(NavOutcome::At(a)) && {
            &&& is_anchor(data, a.position())
            &&& data.len() == 0 ==> a.position() == 0
            &&& data.len() > 0 ==> a.position() == text::line_start(
                data,
                search::greater(
                    0,
                    search::less(
                        text::line_of(data, from.position()) + delta,
                        text::line_count(data) - 1,
                    ),
                ),
            )
        },
        begun matches Scroll::Down(s) ==> s.budget == d.budget(),
        begun matches Scroll::Up(s) ==> s.budget == d.budget(),
        begun is Down ==> (end matches FwdEnd::Found(p) ==> ends_at(r, p as int)),
        begun is Down ==> (end matches FwdEnd::Eof(p) ==> ends_at(r, p as int)),
        begun is Up ==> (step matches BwdStep::Found(p) ==> ends_at(r, p as int)),
        begun is Up ==> (step is Top ==> ends_at(r, 0)),
{
    let p = from.position();
    if data.len() > 0 {
        law_a_position_is_on_a_line(data, p);
        text::lemma_line_start_is_its_own(data, p);
    }
    match begun {
        Scroll::Ready(_) => {
            if p == 0 {
                assert(data.take(0) =~= Seq::<u8>::empty());
            }
        },
        Scroll::Down(scan) => {
            law_scrolling_down_lands(data, scan, end);
        },
        Scroll::Up(scan) => {
            law_scrolling_up_lands(data, scan, step);
        },
    }
}

/// A scroll whose scan is not done pends under its name, over the bytes that it
/// may have to scan: the rest of the file, or what lies before.
pub proof fn law_an_unfinished_scroll_pends(
    d: Document,
    from: Anchor,
    delta: i64,
    begun: Scroll,
    step: BwdStep,
    scanned: u64,
    r: Resolution,
)
    requires
        step is More || step is Exhausted,
        document::scroll_begun(d, from, delta, begun),
        match begun {
            Scroll::Ready(_) => false,
            Scroll::Down(scan) => document::stepped_on(
                d,
                scan,
                Step::More,
                scanned,
                "scrolling"@,
                r,
            ),
            Scroll::Up(scan) => document::stepped_back(
                step,
                scanned,
                "scrolling"@,
                scan.start as int,
                r,
            ),
        },
    ensures
        r matches Resolution::Pending(p) && {
            &&& p.label@ == "scrolling"@
            &&& p.scanned == scanned
            &&& delta > 0 ==> p.span == d.claimed_size() - from.position()
            &&& delta < 0 ==> p.span == from.position()
        },
{
}

/// A scan that is not done pends, whatever it is for: under its own name, over
/// the rest of the file where it goes down, over what lies before its start where
/// it goes up, and as far as it has come.
pub proof fn law_an_unfinished_scan_pends(
    d: Document,
    down: ForwardScan,
    up: BackwardScan,
    step: BwdStep,
    scanned: u64,
    label: Seq<char>,
    r: Resolution,
)
    requires
        step is More || step is Exhausted,
    ensures
        document::stepped_on(d, down, Step::More, scanned, label, r) ==> (
        r matches Resolution::Pending(p) && p.label@ == label && p.scanned == scanned && p.span
            + down.start == d.claimed_size()),
        document::stepped_back(step, scanned, label, up.start as int, r) ==> (
        r matches Resolution::Pending(p) && p.label@ == label && p.scanned == scanned && p.span
            == up.start),
{
}

/// A jump to the end puts the last line on the bottom row: the screen starts on
/// the line that is `rows - 1` lines above the last one, or at the top of the
/// file. A screen of no rows counts as one of one row.
pub proof fn law_a_jump_to_the_end_lands(
    d: Document,
    data: Seq<u8>,
    rows: usize,
    begun: SnapStep,
    last: BwdStep,
    scanned: u64,
    found: EndStep,
    step: BwdStep,
    walked: u64,
    r: Resolution,
)
    requires
        d.claimed_size() == data.len(),
        document::end_begun(d, begun),
        match begun {
            SnapStep::Ready(o) => r == Resolution::Ready(o),
            SnapStep::Scan(scan) => {
                &&& scan::true_backward(data, scan, last)
                &&& document::last_line_stepped(d, rows, last, scanned, found)
                &&& match found {
                    EndStep::Ready(o) => r == Resolution::Ready(o),
                    EndStep::Scan(walk) => scan::true_backward(data, walk, step)
                        && document::stepped_back(
                        step,
                        walked,
                        "jumping to end"@,
                        walk.start as int,
                        r,
                    ),
                    EndStep::Pending(_) => false,
                }
            },
        },
    ensures
        r matches Resolution::Ready(NavOutcome::At(a)) && lands_at_the_end(
            data,
            rows as int,
            a.position(),
        ),
        begun matches SnapStep::Scan(s) ==> s.budget == d.budget(),
        begun is Scan ==> (found matches EndStep::Scan(s) ==> s.budget == d.budget()),
{
    if data.len() > 0 {
        let scan = begun->Scan_0;
        law_the_end_is_the_last_line(data, scan, last);
        if let EndStep::Scan(walk) = found {
            law_the_last_line_is_on_the_bottom_row(
                data,
                last,
                rows as int,
                walk,
                step,
                scan::end_of_step(step),
            );
        } else {
            law_the_last_line_is_on_the_bottom_row(
                data,
                last,
                search::greater(rows as int, 1),
                scan,
                last,
                scan::end_of_step(last),
            );
        }
    }
}

/// `p` is where a screen of `rows` rows starts whose bottom row is the last line
/// of the file, as far as there are so many lines.
pub open spec fn lands_at_the_end(data: Seq<u8>, rows: int, p: int) -> bool {
    &&& is_anchor(data, p)
    &&& data.len() == 0 ==> p == 0
    &&& data.len() > 0 ==> p == text::line_start(
        data,
        search::greater(text::line_count(data) - search::greater(rows, 1), 0),
    )
}

/// A jump to the end that goes on in the background ends where it would have
/// ended at once, and pends over the whole file. `last` is where the scan for
/// the last line ended, `top` where the walk up ended.
pub proof fn law_a_pending_jump_to_the_end_lands(
    d: Document,
    data: Seq<u8>,
    rows: usize,
    begun: SnapStep,
    first: BwdStep,
    scanned: u64,
    found: EndStep,
    last: u64,
    resumed: SnapStep,
    top: u64,
    o: NavOutcome,
)
    requires
        data.len() > 0,
        d.claimed_size() == data.len(),
        document::end_begun(d, begun),
        first is More || first is Exhausted,
        document::last_line_stepped(d, rows, first, scanned, found),
        begun matches SnapStep::Scan(scan) ==> scan::true_backward(data, scan, BwdStep::Found(last)),
        document::end_resumed(d, rows, last, resumed),
        match resumed {
            SnapStep::Ready(out) => o == out,
            SnapStep::Scan(walk) => scan::true_backward(data, walk, BwdStep::Found(top)) && (
            o matches NavOutcome::At(a) && a.position() == top),
        },
    ensures
        found matches EndStep::Pending(p) && p.label@ == "jumping to end"@ && p.span == data.len()
            && p.scanned == scanned,
        o matches NavOutcome::At(a) && lands_at_the_end(data, rows as int, a.position()),
{
    let scan = begun->Scan_0;
    let end = BwdStep::Found(last);
    law_the_end_is_the_last_line(data, scan, end);
    match resumed {
        SnapStep::Ready(_) => {
            law_the_last_line_is_on_the_bottom_row(data, end, 1, scan, end, last as int);
        },
        SnapStep::Scan(walk) => {
            law_the_last_line_is_on_the_bottom_row(
                data,
                end,
                rows as int,
                walk,
                BwdStep::Found(top),
                top as int,
            );
        },
    }
}

/// A jump by less than a hundred percent ends on the start of the line that
/// holds the byte so far through the file; any other is a jump to the end.
pub proof fn law_a_jump_by_percent_lands(
    d: Document,
    data: Seq<u8>,
    pct: u8,
    begun: PercentStep,
    block: Block,
    probed: SnapStep,
    step: BwdStep,
    scanned: u64,
    r: Resolution,
)
    requires
        d.claimed_size() == data.len(),
        d.block_size() > 0,
        document::percent_begun(d, pct, begun),
        match begun {
            PercentStep::Ready(o) => r == Resolution::Ready(o),
            PercentStep::End => true,
            PercentStep::Probe { block: index, target } => {
                &&& meter::complete(d.block_size(), data, index as int, block)
                &&& document::percent_stepped(d, target, block, probed)
                &&& match probed {
                    SnapStep::Ready(o) => r == Resolution::Ready(o),
                    SnapStep::Scan(scan) => scan::true_backward(data, scan, step)
                        && document::stepped_back(
                        step,
                        scanned,
                        "percent jump"@,
                        scan.start as int,
                        r,
                    ),
                }
            },
        },
    ensures
        pct >= 100 && data.len() > 0 ==> begun is End,
        pct < 100 || data.len() == 0 ==> (r matches Resolution::Ready(NavOutcome::At(a)) && {
            &&& is_anchor(data, a.position())
            &&& data.len() == 0 ==> a.position() == 0
            &&& data.len() > 0 ==> a.position() == text::start_of_line_at(
                data,
                data.len() * pct / 100,
            )
        }),
        begun is Probe ==> (probed matches SnapStep::Scan(s) ==> s.budget == d.budget()),
{
    let t = data.len() * pct / 100;
    if data.len() > 0 && pct < 100 {
        assert(0 <= t < data.len()) by (nonlinear_arith)
            requires
                t == data.len() * pct / 100,
                pct < 100,
                data.len() > 0,
        ;
        assert(pct == 0 ==> t == 0) by (nonlinear_arith)
            requires
                t == data.len() * pct / 100,
        ;
        text::lemma_start_of_line_at(data, 0);
        if let PercentStep::Probe { block: index, target } = begun {
            let bs = d.block_size();
            lemma_complete_block_holds(data, bs, t - 1, block);
            let p = if probed is Scan {
                scan::end_of_step(step)
            } else {
                t
            };
            law_a_position_snaps_to_its_line(data, bs, t, block, probed->Scan_0, step, p);
        }
    }
}

/// A block that holds all the bytes that lie there holds the byte at `p`.
proof fn lemma_complete_block_holds(data: Seq<u8>, block_size: int, p: int, block: Block)
    requires
        block_size > 0,
        0 <= p < data.len(),
        meter::complete(block_size, data, p / block_size, block),
    ensures
        block@.len() > p % block_size,
{
    vstd::arithmetic::div_mod::lemma_fundamental_div_mod(p, block_size);
    vstd::arithmetic::div_mod::lemma_mod_bound(p, block_size);
    assert(block_size * (p / block_size) == p / block_size * block_size) by (nonlinear_arith);
}

/// A jump to line `n`, counted from 1, ends on that line, or on the last one
/// where there are not so many, whatever way it takes; it waits exactly where the
/// index is not done and has not come so far. Where a read error cut the index
/// short, a line that it does not know counts as the last one that it does.
pub proof fn law_a_jump_to_a_line_lands(
    d: Document,
    index: LineIndex,
    data: Seq<u8>,
    n: u64,
    begun: LineStep,
    end: FwdEnd,
    scanned: u64,
    r: Resolution,
)
    requires
        d.claimed_size() == data.len(),
        index@.len() <= data.len(),
        index@ == data.take(index@.len() as int),
        index.at_eof() ==> index@ == data,
        document::line_begun(d, index, n, begun),
        match begun {
            LineStep::Ready(o) => r == Resolution::Ready(o),
            LineStep::Walk(scan) => scan::true_forward(data, scan, end) && document::stepped_on(
                d,
                scan,
                Step::Done(end),
                scanned,
                "jumping to line"@,
                r,
            ),
            LineStep::Wait { .. } => true,
        },
    ensures
        begun is Wait <==> n > text::newline_count(index@) + 1 && !index.finished(),
        begun matches LineStep::Wait { line0, pending: p } ==> line0 == n - 1 && p.label@
            == "jumping to line"@ && p.span == data.len() && p.scanned == index@.len(),
        !(begun is Wait) ==> (r matches Resolution::Ready(NavOutcome::At(a)) && lands_on_line(
            data,
            if n <= text::newline_count(index@) + 1 || index.at_eof() {
                search::greater(n as int, 1)
            } else {
                text::newline_count(index@) + 1
            },
            a.position(),
        )),
        begun matches LineStep::Walk(s) ==> s.budget == d.budget(),
{
    lemma_line_lands(d, index, data, search::greater(n - 1, 0), false, begun, end);
}

/// `p` is the start of line `n`, counted from 1, or of the last line where there
/// are not so many.
pub open spec fn lands_on_line(data: Seq<u8>, n: int, p: int) -> bool {
    &&& is_anchor(data, p)
    &&& data.len() == 0 ==> p == 0
    &&& data.len() > 0 ==> p == text::line_start(data, search::less(n, text::line_count(data)) - 1)
}

proof fn lemma_line_lands(
    d: Document,
    index: LineIndex,
    data: Seq<u8>,
    line0: int,
    waited: bool,
    plan: LineStep,
    end: FwdEnd,
)
    requires
        d.claimed_size() == data.len(),
        index@.len() <= data.len(),
        index@ == data.take(index@.len() as int),
        index.at_eof() ==> index@ == data,
        0 <= line0,
        document::line_planned(d, index, line0, waited, plan),
        plan matches LineStep::Walk(scan) ==> scan::true_forward(data, scan, end),
    ensures
        index.at_eof() ==> index.finished(),
        plan is Wait <==> line0 > text::newline_count(index@) && !index.finished(),
        ({
            let known = text::newline_count(index@);
            let n = if line0 <= known || index.at_eof() {
                line0 + 1
            } else {
                known + 1
            };
            &&& plan matches LineStep::Walk(scan) ==> lands_on_line(data, n, scan::end_of_scan(end))
            &&& plan matches LineStep::Ready(NavOutcome::At(a)) ==> lands_on_line(
                data,
                n,
                a.position(),
            )
        }),
        plan matches LineStep::Ready(o) ==> o is At,
{
    index::law_the_end_is_reached_only_when_finished(index);
    let known = text::newline_count(index@);
    if let LineStep::Walk(scan) = plan {
        if line0 <= known || index.at_eof() {
            law_a_jump_lands_on_its_line(d, index, data, line0, waited, scan, end);
        } else {
            lemma_shortened(d, index, data, line0, waited, scan, end);
        }
    }
}

/// The walk of a jump past what a shortened index knows ends on the last line
/// that it knows.
proof fn lemma_shortened(
    d: Document,
    index: LineIndex,
    data: Seq<u8>,
    line0: int,
    waited: bool,
    scan: ForwardScan,
    end: FwdEnd,
)
    requires
        data.len() > 0,
        d.claimed_size() == data.len(),
        index@.len() <= data.len(),
        index@ == data.take(index@.len() as int),
        index.finished() && !index.at_eof(),
        line0 > text::newline_count(index@),
        document::line_planned(d, index, line0, waited, LineStep::Walk(scan)),
        scan::true_forward(data, scan, end),
    ensures
        lands_on_line(data, text::newline_count(index@) + 1, scan::end_of_scan(end)),
{
    let part = index@;
    let known = text::newline_count(part);
    let rest = data.skip(part.len() as int);
    assert(data =~= part + rest);
    text::lemma_occurrences_concat(part, rest, text::NEWLINE);
    text::lemma_occurrences(data, text::NEWLINE);
    text::lemma_occurrences(part, text::NEWLINE);
    let all = text::newline_count(data);
    let last = text::line_count(data) - 1;
    law_a_position_is_on_a_line(data, 0);
    law_lines_start_at_anchors(data, search::less(known, last));
    let cp = 1024 * (known / 1024);
    text::lemma_line_start_concat(part, rest, cp);
    text::lemma_line_starts_grow(part, cp, known);
    if waited && text::line_start(part, cp) >= data.len() && known > 0 {
        // the checkpoint lies at the end of the file, so it is the last position
        // after a newline, and no line starts there.
        text::lemma_line_starts_grow(data, cp, all);
        if cp < all {
            text::lemma_line_starts_grow(data, cp, cp + 1);
            text::lemma_line_starts_grow(data, cp + 1, all);
        }
        assert(cp == all && known == all);
        assert(text::newline_positions(data)[all - 1] == data.len() - 1);
        assert(last == all - 1);
        lemma_walk(data, part, rest, known - 1, scan);
    } else {
        lemma_walk(data, part, rest, known, scan);
    }
}

/// A jump that waited for the index ends where it would have ended at once, once
/// the index has come so far or is done; until then it waits on.
pub proof fn law_a_jump_that_waited_lands(
    d: Document,
    index: LineIndex,
    data: Seq<u8>,
    line0: u64,
    plan: LineStep,
    end: FwdEnd,
    o: NavOutcome,
)
    requires
        d.claimed_size() == data.len(),
        index@.len() <= data.len(),
        index@ == data.take(index@.len() as int),
        index.at_eof() ==> index@ == data,
        document::line_planned(d, index, line0 as int, true, plan),
        match plan {
            LineStep::Ready(out) => o == out,
            LineStep::Walk(scan) => scan::true_forward(data, scan, end) && (o matches NavOutcome::At(
                a,
            ) && a.position() == scan::end_of_scan(end)),
            LineStep::Wait { .. } => true,
        },
    ensures
        plan is Wait <==> line0 > text::newline_count(index@) && !index.finished(),
        plan matches LineStep::Wait { line0: l, pending: p } ==> l == line0 && p.label@
            == "jumping to line"@ && p.span == data.len() && p.scanned == index@.len(),
        !(plan is Wait) ==> (o matches NavOutcome::At(a) && lands_on_line(
            data,
            if line0 <= text::newline_count(index@) || index.at_eof() {
                line0 + 1
            } else {
                text::newline_count(index@) + 1
            },
            a.position(),
        )),
{
    lemma_line_lands(d, index, data, line0 as int, true, plan, end);
}

/// `end` is a truthful answer of a leg: the nearest match that it accepts, with
/// the start of the match's line if it names one, or none where there is none.
/// `hit(s)` says that a match starts at `s`.
pub open spec fn true_leg(
    data: Seq<u8>,
    hit: spec_fn(int) -> bool,
    leg: SearchLeg,
    end: SearchEnd,
) -> bool {
    match end {
        SearchEnd::Found { match_at, line_start } => {
            &&& leg.accepts(match_at as int)
            &&& hit(match_at as int)
            &&& forall|s: int|
                #[trigger] hit(s) && leg.accepts(s) ==> if leg is Fwd {
                    match_at <= s
                } else {
                    s <= match_at
                }
            &&& line_start matches Some(p) ==> p == text::start_of_line_at(data, match_at as int)
        },
        SearchEnd::End => forall|s: int| #[trigger] hit(s) ==> !leg.accepts(s),
    }
}

/// `m` is the match that a search from `origin` is to find: upward the first one
/// at `origin` or after it, downward the last one before it; where there is none
/// on that side it goes around the end of the file, to the first one of all, or
/// the last one.
pub open spec fn is_next_match(
    hit: spec_fn(int) -> bool,
    origin: int,
    forward: bool,
    m: int,
    wrapped: bool,
) -> bool {
    &&& hit(m)
    &&& !wrapped && forward ==> origin <= m && forall|s: int|
        origin <= s && #[trigger] hit(s) ==> m <= s
    &&& !wrapped && !forward ==> m < origin && forall|s: int|
        s < origin && #[trigger] hit(s) ==> s <= m
    &&& wrapped && forward ==> m < origin && forall|s: int| #[trigger] hit(s) ==> m <= s < origin
    &&& wrapped && !forward ==> origin <= m && forall|s: int| #[trigger] hit(s) ==> origin <= s <= m
}

/// Nothing was charged to the meter, and a step that begins may charge anything
/// up to `budget` bytes, and at least one.
pub open spec fn is_fresh(m: Meter, budget: int) -> bool {
    &&& m.step_limit() >= 1 && m.step_limit() >= budget
    &&& m.step_limit() == 1 || m.step_limit() == budget
    &&& m.total_limit() is None
    &&& m.step_spent() == 0 && m.total_charged() == 0 && m.total_progress() == 0
}

/// A search names the next match, if there is any in the file. `end` and
/// `far_end` are what its two legs answered, `next` and `last` how it went on
/// after each.
pub proof fn law_a_search_names_the_next_match(
    d: Document,
    data: Seq<u8>,
    hit: spec_fn(int) -> bool,
    origin: u64,
    forward: bool,
    near: SearchLeg,
    end: SearchEnd,
    next: SearchNext,
    far_end: SearchEnd,
    last: SearchNext,
)
    requires
        d.claimed_size() == data.len(),
        data.len() <= u64::MAX,
        forall|s: int| #[trigger] hit(s) ==> 0 <= s < data.len(),
        document::search_begun(d, origin, forward, near),
        true_leg(data, hit, near, end),
        document::near_ended(d, origin, forward, end, next),
        match next {
            SearchNext::Wrap(far) => true_leg(data, hit, far, far_end) && document::far_ended(
                far_end,
                last,
            ),
            _ => last == next,
        },
    ensures
        match last {
            SearchNext::Found { match_at, line_start, wrapped } => {
                &&& is_next_match(hit, origin as int, forward, match_at as int, wrapped)
                &&& line_start matches Some(p) ==> p == text::start_of_line_at(
                    data,
                    match_at as int,
                )
            },
            SearchNext::Ready(o) => o == NavOutcome::Exhausted && forall|s: int|
                !#[trigger] hit(s),
            _ => false,
        },
        is_fresh(near.meter(), d.budget()),
        next matches SearchNext::Wrap(far) ==> is_fresh(far.meter(), d.budget()),
        near matches SearchLeg::Bwd(b) ==> !b.wrap,
        next matches SearchNext::Wrap(SearchLeg::Bwd(b)) ==> b.wrap,
{
    if let SearchNext::Wrap(far) = next {
        assert forall|s: int| #[trigger] hit(s) implies far.accepts(s) by {
            assert(!near.accepts(s));
        }
        if last is Ready {
            assert forall|s: int| !#[trigger] hit(s) by {
                if hit(s) {
                    assert(far.accepts(s));
                }
            }
        }
    }
}

/// A match that was found is reported as it was found, on the line that it lies
/// on. `start` is what is known of that line at once; else `probed` is what the
/// byte before the match tells; else `step` is what the hunt for the line
/// answered.
pub proof fn law_a_found_match_is_on_its_line(
    d: Document,
    data: Seq<u8>,
    match_at: u64,
    hint: Option<u64>,
    wrapped: bool,
    start: LineStart,
    block: Block,
    probed: Option<Anchor>,
    hunt: BackwardScan,
    step: BwdStep,
    span: u64,
    scanned: u64,
    r: Resolution,
)
    requires
        d.block_size() > 0,
        match_at < data.len(),
        hint matches Some(p) ==> p == text::start_of_line_at(data, match_at as int),
        document::line_start_begun(d, match_at, hint, start),
        match start {
            LineStart::Known(a) => r matches Resolution::Ready(o) && document::found_at(
                o,
                a.position(),
                match_at,
                wrapped,
            ),
            LineStart::Probe { block: index } => {
                &&& meter::complete(d.block_size(), data, index as int, block)
                &&& document::line_start_stepped(d, match_at, block, probed)
                &&& match probed {
                    Some(a) => r matches Resolution::Ready(o) && document::found_at(
                        o,
                        a.position(),
                        match_at,
                        wrapped,
                    ),
                    None => {
                        &&& document::hunt_begun(d, match_at, hunt)
                        &&& scan::true_backward(data, hunt, step)
                        &&& document::hunt_stepped(match_at, wrapped, step, span, scanned, r)
                    },
                }
            },
        },
    ensures
        r matches Resolution::Ready(NavOutcome::FoundMatch { top, match_at: m, wrapped: w }) && {
            &&& m == match_at
            &&& w == wrapped
            &&& top.position() == text::start_of_line_at(data, match_at as int)
            &&& is_anchor(data, top.position())
        },
        start is Probe && probed is None ==> hunt.budget == d.budget(),
{
    let at = match_at as int;
    law_a_position_is_on_a_line(data, at);
    law_lines_start_at_anchors(data, text::line_of(data, at));
    text::lemma_start_of_line_at(data, at);
    if let LineStart::Probe { .. } = start {
        lemma_complete_block_holds(data, d.block_size(), at - 1, block);
        let p = match probed {
            Some(a) => a.position(),
            None => scan::end_of_step(step),
        };
        law_a_position_snaps_to_its_line(data, d.block_size(), at, block, hunt, step, p);
    }
}

/// A whole search: it reports the next match from `origin`, on the line that the
/// match lies on, or that there is none anywhere in the file.
pub proof fn law_a_search_lands_on_the_next_match(
    d: Document,
    data: Seq<u8>,
    hit: spec_fn(int) -> bool,
    origin: u64,
    forward: bool,
    near: SearchLeg,
    end: SearchEnd,
    next: SearchNext,
    far_end: SearchEnd,
    last: SearchNext,
    start: LineStart,
    block: Block,
    probed: Option<Anchor>,
    hunt: BackwardScan,
    step: BwdStep,
    span: u64,
    scanned: u64,
    r: Resolution,
)
    requires
        d.claimed_size() == data.len(),
        d.block_size() > 0,
        data.len() <= u64::MAX,
        forall|s: int| #[trigger] hit(s) ==> 0 <= s < data.len(),
        document::search_begun(d, origin, forward, near),
        true_leg(data, hit, near, end),
        document::near_ended(d, origin, forward, end, next),
        match next {
            SearchNext::Wrap(far) => true_leg(data, hit, far, far_end) && document::far_ended(
                far_end,
                last,
            ),
            _ => last == next,
        },
        match last {
            SearchNext::Found { match_at, line_start, wrapped } => {
                &&& document::line_start_begun(d, match_at, line_start, start)
                &&& match start {
                    LineStart::Known(a) => r matches Resolution::Ready(o) && document::found_at(
                        o,
                        a.position(),
                        match_at,
                        wrapped,
                    ),
                    LineStart::Probe { block: index } => {
                        &&& meter::complete(d.block_size(), data, index as int, block)
                        &&& document::line_start_stepped(d, match_at, block, probed)
                        &&& match probed {
                            Some(a) => r matches Resolution::Ready(o) && document::found_at(
                                o,
                                a.position(),
                                match_at,
                                wrapped,
                            ),
                            None => {
                                &&& document::hunt_begun(d, match_at, hunt)
                                &&& scan::true_backward(data, hunt, step)
                                &&& document::hunt_stepped(
                                    match_at,
                                    wrapped,
                                    step,
                                    span,
                                    scanned,
                                    r,
                                )
                            },
                        }
                    },
                }
            },
            SearchNext::Ready(o) => r == Resolution::Ready(o),
            _ => true,
        },
    ensures
        match r {
            Resolution::Ready(NavOutcome::FoundMatch { top, match_at, wrapped }) => {
                &&& is_next_match(hit, origin as int, forward, match_at as int, wrapped)
                &&& top.position() == text::start_of_line_at(data, match_at as int)
                &&& is_anchor(data, top.position())
            },
            Resolution::Ready(NavOutcome::Exhausted) => forall|s: int| !#[trigger] hit(s),
            _ => false,
        },
{
    law_a_search_names_the_next_match(
        d,
        data,
        hit,
        origin,
        forward,
        near,
        end,
        next,
        far_end,
        last,
    );
    if let SearchNext::Found { match_at, line_start, wrapped } = last {
        law_a_found_match_is_on_its_line(
            d,
            data,
            match_at,
            line_start,
            wrapped,
            start,
            block,
            probed,
            hunt,
            step,
            span,
            scanned,
            r,
        );
    }
}

/// A search of which a leg is not done pends as one, over the whole file.
pub proof fn law_an_unfinished_search_pends(d: Document, scanned: u64, r: SearchNext)
    requires
        document::search_pends(d, scanned, r),
    ensures
        r matches SearchNext::Pending(p) && p.label@ == "searching"@ && p.span == d.claimed_size()
            && p.scanned == scanned,
{
}

/// A hunt for a match's line that is not done pends as a search, over its span.
pub proof fn law_an_unfinished_hunt_pends(
    match_at: u64,
    wrapped: bool,
    step: BwdStep,
    span: u64,
    scanned: u64,
    r: Resolution,
)
    requires
        step is More || step is Exhausted,
        document::hunt_stepped(match_at, wrapped, step, span, scanned, r),
    ensures
        r matches Resolution::Pending(p) && p.label@ == "searching"@ && p.span == span && p.scanned
            == scanned,
{
}

}
