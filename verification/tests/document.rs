//! Whole operations on small files: a file in memory stands for the block cache,
//! its scans answer truthfully within their budget, and a tiny matcher stands
//! for a compiled pattern.
use ress_core::block::Block;
use ress_core::document::dephantom;
use ress_core::document::found;
use ress_core::document::landed;
use ress_core::document::percent_offset;
use ress_core::document::wrapped_leg;
use ress_core::document::Anchor;
use ress_core::document::Document;
use ress_core::document::HScroll;
use ress_core::document::RowMarks;
use ress_core::document::ViewportRender;
use ress_core::document::MAX_HSCROLL;
use ress_core::index::LineIndex;
use ress_core::meter::Charge;
use ress_core::meter::Fetched;
use ress_core::meter::Meter;
use ress_core::meter::Reader;
use ress_core::nav::EndStep;
use ress_core::nav::LineStart;
use ress_core::nav::LineStep;
use ress_core::nav::NavOutcome;
use ress_core::nav::Pending;
use ress_core::nav::PercentStep;
use ress_core::nav::Resolution;
use ress_core::nav::Scroll;
use ress_core::nav::SearchNext;
use ress_core::nav::SnapStep;
use ress_core::scan::BackwardScan;
use ress_core::scan::Bound;
use ress_core::scan::BwdStep;
use ress_core::scan::ForwardScan;
use ress_core::scan::FwdEnd;
use ress_core::scan::SearchEnd;
use ress_core::scan::SearchLeg;
use ress_core::scan::SearchStep;
use ress_core::scan::Step;
use ress_core::search::accept_and_hay_for_row;
use ress_core::search::clip_to_row;
use ress_core::search::point_candidate_is_resolved;
use ress_core::search::visible_window_matches;
use ress_core::search::visible_window_query;
use ress_core::search::RowQuery;
use ress_core::search::RowSearch;
use ress_core::search::CONSUMABLE_REACH;
use ress_core::search::CTX_AHEAD;
use ress_core::search::CTX_BEHIND;
use ress_core::search::MAX_MATCH_LEN;
use ress_core::viewport::row_bounds;
use ress_core::viewport::row_queries;
use ress_core::viewport::scan_budget;
use ress_core::viewport::screen_matches;
use ress_core::viewport::search_frame;
use ress_core::viewport::FillOutcome;
use ress_core::viewport::RowAnswer;
use ress_core::viewport::SearchFrame;
use ress_core::Config;

// ---------------------------------------------------------------------------
// A file in memory.

struct File {
    data: Vec<u8>,
    size: u64,
    block_size: usize,
    budget: usize,
    doc: Document,
    reads: std::cell::Cell<u64>,
}

fn config(block_size: usize, budget: usize) -> Config {
    Config { block_size, nav_scan_budget: budget, prefetch_depth: 0, ..Config::default() }
}

fn doc(data: &[u8], block_size: usize) -> File {
    budgeted(data, block_size, Config::default().nav_scan_budget)
}

fn budgeted(data: &[u8], block_size: usize, budget: usize) -> File {
    claiming(data, data.len() as u64, block_size, budget)
}

/// A file whose source claims to have `size` bytes.
fn claiming(data: &[u8], size: u64, block_size: usize, budget: usize) -> File {
    File {
        data: data.to_vec(),
        size,
        block_size,
        budget,
        doc: Document::new(size, config(block_size, budget)),
        reads: std::cell::Cell::new(0),
    }
}

fn lined_doc(lines: u32, block_size: usize) -> File {
    let mut data = Vec::new();
    for i in 0..lines {
        data.extend_from_slice(format!("line {i:04}\n").as_bytes());
    }
    doc(&data, block_size)
}

impl File {
    /// A block of the cache. One that is short although more was claimed had
    /// its end certified by the source.
    fn block(&self, index: u64) -> Block {
        self.reads.set(self.reads.get() + 1);
        let start = (index as usize).saturating_mul(self.block_size).min(self.data.len());
        let end = (start + self.block_size).min(self.data.len());
        let short = end > start && end - start < self.block_size;
        Block::new(
            bytes::Bytes::copy_from_slice(&self.data[start..end]),
            short && (end as u64) < self.size,
        )
    }

    /// Steps a forward scan: block by block until its budget is spent.
    fn forward(&self, scan: &ForwardScan) -> (Step, u64) {
        let mut last = scan.start;
        let mut left = scan.lines;
        let mut at = scan.start as usize;
        let mut spent = 0;
        if left == 0 {
            return (Step::Done(FwdEnd::Found(last)), 0);
        }
        while at < self.data.len() {
            if spent >= scan.budget.max(1) {
                return (Step::More, spent as u64);
            }
            let end = ((at / self.block_size + 1) * self.block_size).min(self.data.len());
            spent += end - at;
            while at < end {
                at += 1;
                if self.data[at - 1] == b'\n' && at < self.data.len() {
                    last = at as u64;
                    left -= 1;
                    if left == 0 {
                        return (Step::Done(FwdEnd::Found(last)), spent as u64);
                    }
                }
            }
        }
        (Step::Done(FwdEnd::Eof(last)), spent as u64)
    }

    /// Steps a backward scan: block by block until its budget is spent.
    fn backward(&self, scan: &BackwardScan) -> (BwdStep, u64) {
        let mut left = scan.lines;
        let mut at = (scan.start as usize - 1).min(self.data.len());
        let mut spent = 0;
        while at > 0 {
            if spent >= scan.budget.max(1) {
                return (BwdStep::More, spent as u64);
            }
            let from = (at - 1) / self.block_size * self.block_size;
            spent += at - from;
            while at > from {
                at -= 1;
                if self.data[at] == b'\n' {
                    left -= 1;
                    if left == 0 {
                        return (BwdStep::Found(at as u64 + 1), spent as u64);
                    }
                }
            }
        }
        (BwdStep::Top, spent as u64)
    }

    /// Runs a forward scan to its end, in the background.
    fn forward_to_end(&self, scan: &ForwardScan) -> FwdEnd {
        match self.forward(&ForwardScan { budget: usize::MAX, ..*scan }).0 {
            Step::Done(end) => end,
            Step::More => unreachable!(),
        }
    }

    /// Runs a backward scan to its end, in the background.
    fn backward_to_end(&self, scan: &BackwardScan) -> u64 {
        if scan.start == 0 {
            return 0;
        }
        match self.backward(&BackwardScan { budget: usize::MAX, ..*scan }).0 {
            BwdStep::Found(s) => s,
            BwdStep::Top => 0,
            _ => unreachable!(),
        }
    }

    /// Drives a scroll; also tells what it pended as.
    fn scroll_lines(&self, from: Anchor, delta: i64) -> (NavOutcome, Option<Pending>) {
        match self.doc.scroll_lines(from, delta) {
            Scroll::Ready(o) => (o, None),
            Scroll::Down(scan) => {
                let (step, scanned) = self.forward(&scan);
                match self.doc.scrolled_down(&scan, step, scanned) {
                    Resolution::Ready(o) => (o, None),
                    Resolution::Pending(p) => (landed(self.forward_to_end(&scan)), Some(p)),
                }
            }
            Scroll::Up(scan) => {
                let (step, scanned) = self.backward(&scan);
                match self.doc.scrolled_up(&scan, step, scanned) {
                    Resolution::Ready(o) => (o, None),
                    Resolution::Pending(p) => {
                        (NavOutcome::At(Anchor::at(self.backward_to_end(&scan))), Some(p))
                    }
                }
            }
        }
    }

    fn goto_end(&self, rows: usize) -> (NavOutcome, Option<Pending>) {
        let scan = match self.doc.goto_end() {
            SnapStep::Ready(o) => return (o, None),
            SnapStep::Scan(scan) => scan,
        };
        let (step, scanned) = self.backward(&scan);
        match self.doc.end_found(rows, step, scanned) {
            EndStep::Ready(o) => (o, None),
            EndStep::Scan(walk) => {
                let (step, scanned) = self.backward(&walk);
                match self.doc.end_walked(&walk, step, scanned) {
                    Resolution::Ready(o) => (o, None),
                    Resolution::Pending(p) => {
                        (NavOutcome::At(Anchor::at(self.backward_to_end(&walk))), Some(p))
                    }
                }
            }
            EndStep::Pending(p) => {
                let last = self.backward_to_end(&scan);
                match self.doc.end_completed(rows, last) {
                    SnapStep::Ready(o) => (o, Some(p)),
                    SnapStep::Scan(walk) => {
                        (NavOutcome::At(Anchor::at(self.backward_to_end(&walk))), Some(p))
                    }
                }
            }
        }
    }

    fn goto_percent(&self, pct: u8) -> (NavOutcome, Option<Pending>) {
        match self.doc.goto_percent(pct) {
            PercentStep::Ready(o) => (o, None),
            PercentStep::End => self.goto_end(1),
            PercentStep::Probe { block, target } => {
                match self.doc.percent_probed(target, &self.block(block)) {
                    SnapStep::Ready(o) => (o, None),
                    SnapStep::Scan(scan) => {
                        let (step, scanned) = self.backward(&scan);
                        match self.doc.percent_snapped(&scan, step, scanned) {
                            Resolution::Ready(o) => (o, None),
                            Resolution::Pending(p) => {
                                (NavOutcome::At(Anchor::at(self.backward_to_end(&scan))), Some(p))
                            }
                        }
                    }
                }
            }
        }
    }

    /// The index over the first `n` bytes, finished only where that is all.
    fn index(&self, n: usize) -> LineIndex {
        let mut index = LineIndex::new();
        for piece in self.data[..n].chunks(self.block_size) {
            index.ingest(piece);
        }
        if n == self.data.len() {
            index.finish(true);
        }
        index
    }

    /// Drives a jump to a line, with the index at `indexed` bytes to begin with
    /// and at the end of the file in the background.
    fn goto_line(&self, n: u64, indexed: usize) -> (NavOutcome, Option<Pending>) {
        let (walk, pended) = match self.doc.goto_line(&self.index(indexed), n) {
            LineStep::Ready(o) => return (o, None),
            LineStep::Walk(walk) => (walk, None),
            LineStep::Wait { line0, pending } => {
                match self.doc.line_waited(&self.index(self.data.len()), line0) {
                    LineStep::Ready(o) => return (o, Some(pending)),
                    LineStep::Walk(walk) => (walk, Some(pending)),
                    LineStep::Wait { .. } => unreachable!(),
                }
            }
        };
        if let Some(p) = pended {
            return (landed(self.forward_to_end(&walk)), Some(p));
        }
        let (step, scanned) = self.forward(&walk);
        match self.doc.line_walked(&walk, step, scanned) {
            Resolution::Ready(o) => (o, None),
            Resolution::Pending(p) => (landed(self.forward_to_end(&walk)), Some(p)),
        }
    }

    /// Fetches the bytes of a screen.
    fn fill(&self, top: u64, rows: usize, budget: usize) -> (Vec<u8>, FillOutcome) {
        let mut meter = Meter::background(budget);
        let mut reader = Reader::new(self.block_size, &mut meter);
        let mut buf: Vec<u8> = Vec::new();
        loop {
            if rows == 0 {
                return (buf, FillOutcome::Rows);
            }
            if buf.len() >= budget {
                return (buf, FillOutcome::Budget);
            }
            let at = top + buf.len() as u64;
            let block = self.block(at / self.block_size as u64);
            let (got, ended) = match reader.read_at_unbounded(
                at,
                self.block_size,
                Charge::Payload,
                block,
            ) {
                Fetched::Bytes { got, .. } => (got, None),
                Fetched::Short { got, end, .. } => {
                    (got, Some(end.map_or(FillOutcome::Budget, FillOutcome::End)))
                }
                Fetched::Empty { end, .. } => return (buf, FillOutcome::End(end)),
            };
            for &b in got.iter() {
                buf.push(b);
                if b == b'\n' && buf.iter().filter(|&&c| c == b'\n').count() == rows {
                    return (buf, FillOutcome::Rows);
                }
            }
            if let Some(outcome) = ended {
                return (buf, outcome);
            }
        }
    }

    /// The context around fetched bytes, and whether the data was seen to end.
    fn edge_context(&self, top: u64, buf_len: usize) -> (u64, Vec<u8>, Vec<u8>, bool) {
        let (mut behind, mut ahead) = self.doc.edge_context(Anchor::at(top), buf_len);
        while let Some(index) = behind.next() {
            behind.take(&self.block(index));
        }
        while let Some(index) = ahead.next() {
            ahead.take(&self.block(index));
        }
        let (at, before) = behind.finish();
        let (after, hit) = ahead.finish();
        (at, before, after, hit)
    }

    fn viewport(
        &self,
        top: Anchor,
        rows: usize,
        cols: usize,
        hscroll: HScroll,
        search: Option<(&Pat, Option<u64>)>,
    ) -> ViewportRender {
        let budget = self.doc.viewport_budget(rows, cols, hscroll);
        let (buf, fill) = self.fill(top.offset(), rows, budget);
        let stop = fill.stops();
        let mut matches = Vec::new();
        let mut current_match = None;
        if let Some((pattern, current)) = search {
            let (at, before, after, hit) = self.edge_context(top.offset(), buf.len());
            let frame = search_frame(top.offset(), &buf, at, &before, &after, hit, fill, self.size);
            current_match = frame.current_match(
                frame
                    .current_query(top.offset(), current)
                    .and_then(|p| pattern.point(&frame, p)),
            );
            let queries =
                row_queries(frame.row_search(), &buf, rows, stop, 8, hscroll, cols);
            let answers: Vec<RowAnswer> = queries
                .iter()
                .map(|q| match q {
                    Some(q) => pattern.answer(q, &frame),
                    None => RowAnswer { hits: Vec::new(), end_hit: None },
                })
                .collect();
            matches = screen_matches(&queries, frame.lb, &answers);
        }
        self.doc.viewport(&buf, rows, cols, hscroll, fill, &matches, &current_match)
    }

    /// Drives a search to its end.
    fn search_next(&self, origin: u64, pattern: &Pat, forward: bool) -> NavOutcome {
        let near = self.doc.search_next(origin, forward);
        let step = SearchStep::Done(pattern.leg(&near, &self.data));
        let (match_at, line_start, wrapped, meter) =
            match self.doc.searched_near(origin, forward, step, near.progressed()) {
                SearchNext::Found { match_at, line_start, wrapped } => {
                    (match_at, line_start, wrapped, near.into_meter())
                }
                SearchNext::Wrap(far) => {
                    let step = SearchStep::Done(pattern.leg(&far, &self.data));
                    match self.doc.searched_far(step, far.progressed()) {
                        SearchNext::Found { match_at, line_start, wrapped } => {
                            (match_at, line_start, wrapped, far.into_meter())
                        }
                        SearchNext::Ready(o) => return o,
                        _ => unreachable!(),
                    }
                }
                _ => unreachable!(),
            };
        let top = match self.doc.line_start_shortcut(match_at, line_start) {
            LineStart::Known(a) => Some(a),
            LineStart::Probe { block } => {
                self.doc.line_start_probed(match_at, &self.block(block))
            }
        };
        if let Some(top) = top {
            return found(top, match_at, wrapped);
        }
        let mut meter = meter;
        let hunt = self.doc.resolve_found(&mut meter, match_at);
        let (step, scanned) = self.backward(&hunt);
        match self.doc.found_hunted(match_at, wrapped, step, match_at, scanned) {
            Resolution::Ready(o) => o,
            Resolution::Pending(p) => {
                assert_eq!(p.label, "searching");
                found(Anchor::at(self.backward_to_end(&hunt)), match_at, wrapped)
            }
        }
    }
}

// ---------------------------------------------------------------------------
// A tiny matcher.

enum Item {
    Byte(u8),
    /// As many of this byte as there are, at least one.
    Run(u8),
    Times(u8, usize),
    /// Any byte but a newline.
    Any,
    LineStart,
    LineEnd,
    FileStart,
    /// No word character follows.
    WordEnd,
}

struct Pat(Vec<Item>);

fn lit(s: &str) -> Pat {
    Pat(s.bytes().map(Item::Byte).collect())
}

fn caret() -> Pat {
    Pat(vec![Item::LineStart])
}

fn dollar() -> Pat {
    Pat(vec![Item::LineEnd])
}

fn ending(s: &str) -> Pat {
    let mut items: Vec<Item> = s.bytes().map(Item::Byte).collect();
    items.push(Item::LineEnd);
    Pat(items)
}

fn is_word(hay: &[u8], at: usize) -> bool {
    // a character outside of ASCII counts as a letter once all of it is there.
    at < hay.len()
        && (hay[at].is_ascii_alphanumeric()
            || hay[at] == b'_'
            || (hay[at] >= 0xc2 && at + 1 < hay.len()))
}

impl Pat {
    fn find_at(&self, hay: &[u8], base: usize, start: usize) -> Option<usize> {
        let mut at = start;
        for item in &self.0 {
            match item {
                Item::Byte(b) => {
                    if at >= hay.len() || hay[at] != *b {
                        return None;
                    }
                    at += 1;
                }
                Item::Run(b) => {
                    if at >= hay.len() || hay[at] != *b {
                        return None;
                    }
                    while at < hay.len() && hay[at] == *b {
                        at += 1;
                    }
                }
                Item::Times(b, n) => {
                    if at + n > hay.len() || hay[at..at + n].iter().any(|c| c != b) {
                        return None;
                    }
                    at += n;
                }
                Item::Any => {
                    if at >= hay.len() || hay[at] == b'\n' {
                        return None;
                    }
                    at += 1;
                }
                Item::LineStart => {
                    if at == 0 && base > 0 || at > 0 && hay[at - 1] != b'\n' {
                        return None;
                    }
                }
                Item::LineEnd => {
                    if at < hay.len() && hay[at] != b'\n' {
                        return None;
                    }
                }
                Item::FileStart => {
                    if base + at > 0 {
                        return None;
                    }
                }
                Item::WordEnd => {
                    if is_word(hay, at) {
                        return None;
                    }
                }
            }
        }
        Some(at)
    }

    /// The pattern looks at what follows a match.
    fn looks_ahead(&self) -> bool {
        matches!(self.0.last(), Some(Item::LineEnd | Item::WordEnd))
    }

    /// Matches that do not overlap, from `from` on.
    fn find_all_from(&self, hay: &[u8], base: usize, from: usize) -> Vec<(usize, usize)> {
        let mut out = Vec::new();
        let mut at = from;
        while at < hay.len() {
            match self.find_at(hay, base, at) {
                Some(e) => {
                    out.push((at, e));
                    at = e.max(at + 1);
                }
                None => at += 1,
            }
        }
        out
    }

    fn find_all(&self, hay: &[u8]) -> Vec<(usize, usize)> {
        let mut out = self.find_all_from(hay, 0, 0);
        if out.last().map_or(true, |l| l.1 < hay.len() || l.0 == l.1) {
            if let Some(e) = self.find_at(hay, 0, hay.len()) {
                out.push((hay.len(), e));
            }
        }
        out
    }

    /// The matches that a row's query asks for.
    fn hits(&self, q: &RowQuery, hay: &[u8], base: u64, reaches_eof: bool, ok: bool) -> Vec<(usize, usize)> {
        if !q.search_window {
            return Vec::new();
        }
        let part = &hay[q.window.clone()];
        self.find_all_from(
            part,
            base as usize + q.window.start,
            q.accept.start - q.window.start,
        )
        .into_iter()
        .filter(|&(s, e)| s + q.window.start < q.accept.end && e >= q.win_start_row)
        .filter(|&(s, e)| {
            !self.looks_ahead() && (s != q.buf_hi_row || ok)
                || point_candidate_is_resolved(
                    s,
                    e,
                    q.window.end - q.window.start,
                    hay.len() - q.window.start,
                    reaches_eof,
                    q.buf_hi_row,
                    ok,
                )
        })
        .collect()
    }

    /// The match that starts at one position of the hay.
    fn point(&self, frame: &SearchFrame, at: usize) -> Option<(usize, usize)> {
        let e = self.find_at(&frame.hay, frame.base as usize, at)?;
        let resolved = !self.looks_ahead() && (at != frame.payload_end || frame.eof_zero_width_ok)
            || point_candidate_is_resolved(
                at,
                e,
                frame.hay.len(),
                frame.hay.len(),
                frame.hay_reaches_eof,
                frame.payload_end,
                frame.eof_zero_width_ok,
            );
        if resolved {
            Some((at, e))
        } else {
            None
        }
    }

    fn answer(&self, q: &RowQuery, frame: &SearchFrame) -> RowAnswer {
        let hits =
            self.hits(q, &frame.hay, frame.base, frame.hay_reaches_eof, frame.eof_zero_width_ok);
        let end_hit = if q.search_end { self.point(frame, frame.payload_end) } else { None };
        RowAnswer { hits, end_hit }
    }

    /// What a leg finds in the whole file.
    fn leg(&self, leg: &SearchLeg, data: &[u8]) -> SearchEnd {
        // what follows a final newline is no line, so nothing is found there.
        let phantom = data.last() == Some(&b'\n');
        let starts = (0..=data.len()).filter(|&s| s < data.len() || !phantom);
        let found = match leg {
            SearchLeg::Fwd(f) => {
                let limit = match f.limit {
                    Bound::Exclusive(l) => l.min(data.len() as u64) as usize,
                    Bound::Inclusive(_) => unreachable!(),
                };
                starts
                    .filter(|&s| s as u64 >= f.from)
                    .find(|&s| match self.find_at(data, 0, s) {
                        Some(e) => e <= limit,
                        None => false,
                    })
            }
            SearchLeg::Bwd(b) => {
                let floor = match b.floor {
                    Bound::Inclusive(l) => l,
                    Bound::Exclusive(_) => unreachable!(),
                };
                let all: Vec<usize> = starts.collect();
                all.into_iter().rev().find(|&s| {
                    let below = (s as u64) < b.hi || (b.wrap && s as u64 == b.hi);
                    below && s as u64 >= floor && self.find_at(data, 0, s).is_some()
                })
            }
        };
        match found {
            Some(s) => SearchEnd::Found { match_at: s as u64, line_start: None },
            None => SearchEnd::End,
        }
    }
}

/// A small deterministic generator of test inputs.
struct Rng(u64);

impl Rng {
    fn next(&mut self) -> u64 {
        self.0 ^= self.0 << 13;
        self.0 ^= self.0 >> 7;
        self.0 ^= self.0 << 17;
        self.0
    }

    fn below(&mut self, n: usize) -> usize {
        (self.next() % n as u64) as usize
    }

    /// Bytes of which every fifth is a newline.
    fn text(&mut self, max: usize) -> Vec<u8> {
        (0..self.below(max))
            .map(|_| if self.below(5) == 0 { b'\n' } else { self.next() as u8 })
            .collect()
    }
}

fn at(o: NavOutcome) -> u64 {
    match o {
        NavOutcome::At(a) => a.offset(),
        other => panic!("expected a position, got {:?}", other),
    }
}

/// Where an operation that did not pend landed.
fn ready(r: (NavOutcome, Option<Pending>)) -> u64 {
    assert!(r.1.is_none(), "pended: {:?}", r.1);
    at(r.0)
}

/// Where an operation landed, in the background or not.
fn join(r: (NavOutcome, Option<Pending>)) -> u64 {
    at(r.0)
}

/// Where an operation landed that pended under this label.
fn pended(r: (NavOutcome, Option<Pending>), label: &str) -> u64 {
    assert_eq!(r.1.expect("expected it to pend").label, label);
    at(r.0)
}

/// The matches of one row of `full_hay`, as a screen would ask for them.
fn row_matches(
    pattern: &Pat,
    full_hay: &[u8],
    reaches_eof: bool,
    buf_len: usize,
    eof_zero_width_ok: bool,
    raw_row: &[u8],
    line_start: usize,
    hscroll: usize,
    cols: usize,
) -> Vec<std::ops::Range<usize>> {
    let search = RowSearch { hay_len: full_hay.len(), lb: 0, buf_hi: buf_len, eof_zero_width_ok };
    match visible_window_query(search, buf_len, raw_row, line_start, 8, hscroll, cols) {
        None => Vec::new(),
        Some(q) => {
            let hits = pattern.hits(&q, full_hay, 0, reaches_eof, eof_zero_width_ok);
            let end_hit = if q.search_end {
                pattern.find_at(full_hay, 0, buf_len).map(|e| (buf_len, e))
            } else {
                None
            };
            visible_window_matches(&q, 0, &hits, end_hit)
        }
    }
}

// ---------------------------------------------------------------------------
// Screens.

fn rows_of(v: &ViewportRender) -> Vec<&str> {
    assert_eq!(v.rows.len(), v.marks.len());
    v.rows.iter().map(|r| r.as_str()).collect()
}

#[test]
fn returns_first_screen() {
    let v = doc(b"a\nb\nc\n", 1 << 20).viewport(Anchor::top(), 2, 80, HScroll::zero(), None);
    assert_eq!(rows_of(&v), vec!["a", "b"]);
}

#[test]
fn returns_all_lines_when_file_is_short() {
    let v = doc(b"a\nb\nc\n", 1 << 20).viewport(Anchor::top(), 10, 80, HScroll::zero(), None);
    assert_eq!(rows_of(&v), vec!["a", "b", "c"]);
}

#[test]
fn includes_final_line_without_trailing_newline() {
    let v = doc(b"abc", 1 << 20).viewport(Anchor::top(), 5, 80, HScroll::zero(), None);
    assert_eq!(rows_of(&v), vec!["abc"]);
}

#[test]
fn chops_long_lines_to_width() {
    let v = doc(b"xxxxxxxxxx\n", 1 << 20).viewport(Anchor::top(), 1, 4, HScroll::zero(), None);
    assert_eq!(rows_of(&v), vec!["xxxx"]);
}

#[test]
fn handles_lines_spanning_block_boundaries() {
    let v = doc(b"aaaaaa\nbb\n", 4).viewport(Anchor::top(), 2, 80, HScroll::zero(), None);
    assert_eq!(rows_of(&v), vec!["aaaaaa", "bb"]);
}

#[test]
fn document_strips_trailing_carriage_return() {
    let v = doc(b"a\r\nb\r\n", 1 << 20).viewport(Anchor::top(), 2, 80, HScroll::zero(), None);
    assert_eq!(rows_of(&v), vec!["a", "b"]);
}

#[test]
fn empty_file_has_no_rows() {
    let v = doc(b"", 1 << 20).viewport(Anchor::top(), 5, 80, HScroll::zero(), None);
    assert!(v.rows.is_empty());
}

#[test]
fn starts_from_nonzero_line_offset() {
    let v = doc(b"a\nb\nc\n", 1 << 20).viewport(Anchor::at(2), 2, 80, HScroll::zero(), None);
    assert_eq!(rows_of(&v), vec!["b", "c"]);
}

#[test]
fn long_unterminated_line_does_not_read_whole_file() {
    let d = doc(&[b'x'; 4096], 16);
    let v = d.viewport(Anchor::top(), 2, 4, HScroll::zero(), None);
    assert_eq!(rows_of(&v), vec!["xxxx"]);
    assert!(d.reads.get() < 16, "read {} blocks of a 4096-byte line", d.reads.get());
}

#[test]
fn expands_tabs_in_viewport() {
    let v = doc(b"a\tb\n", 1 << 20).viewport(Anchor::top(), 1, 80, HScroll::zero(), None);
    assert_eq!(rows_of(&v), vec!["a       b"]);
}

#[test]
fn viewport_applies_horizontal_scroll() {
    let v = doc(b"0123456789\n", 1 << 20).viewport(Anchor::top(), 1, 4, HScroll::new(3), None);
    assert_eq!(rows_of(&v), vec!["3456"]);
}

#[test]
fn viewport_reads_far_enough_for_horizontal_scroll() {
    let mut data: Vec<u8> = (0..300u32).map(|i| b'0' + (i % 10) as u8).collect();
    data.push(b'\n');
    let v = doc(&data, 64).viewport(Anchor::top(), 1, 10, HScroll::new(200), None);
    assert_eq!(rows_of(&v), vec!["0123456789"]);
}

#[test]
fn huge_hscroll_keeps_the_scan_budget_bounded() {
    let d = doc(&vec![b'x'; 1 << 20], 4096);
    let v = d.viewport(Anchor::top(), 1, 1, HScroll::new(usize::MAX), None);
    assert_eq!(rows_of(&v), vec!["x"]);
    assert!(d.reads.get() < 100, "read {} blocks of a 256-block file", d.reads.get());
}

#[test]
fn viewport_reads_stay_within_the_scan_budget() {
    let mut rng = Rng(11);
    for _ in 0..60 {
        let data = vec![b'x'; rng.below(1 << 14)];
        let block_size = 1 + rng.below(1023);
        let (rows, cols) = (1 + rng.below(11), rng.below(80));
        let hscroll = if rng.below(4) == 0 { usize::MAX } else { rng.below(200) };
        let d = doc(&data, block_size);
        let _ = d.viewport(Anchor::top(), rows, cols, HScroll::new(hscroll), None);
        let span = HScroll::new(hscroll).columns().saturating_add(cols.max(1));
        let budget = block_size.max(rows.saturating_mul(span).saturating_mul(4));
        assert_eq!(scan_budget(block_size, rows, cols, HScroll::new(hscroll)), budget);
        assert!(d.reads.get() as usize * block_size <= budget + 2 * block_size);
    }
}

#[test]
fn a_scan_budget_that_cannot_be_counted_is_the_greatest_there_is() {
    assert_eq!(scan_budget(16, usize::MAX, 80, HScroll::zero()), usize::MAX);
    assert_eq!(scan_budget(16, 1, usize::MAX, HScroll::new(5)), usize::MAX);
    assert_eq!(scan_budget(16, 0, usize::MAX, HScroll::zero()), 16);
    assert_eq!(scan_budget(16, 3, 0, HScroll::new(7)), 96);
}

#[test]
fn rows_of_a_screen_in_fetched_bytes() {
    assert_eq!(row_bounds(b"ab\ncd\nef", 2, true), vec![0..2, 3..5]);
    assert_eq!(row_bounds(b"ab\ncd\nef", 3, true), vec![0..2, 3..5, 6..8]);
    assert_eq!(row_bounds(b"ab\ncd\nef", 3, false), vec![0..2, 3..5]);
    assert_eq!(row_bounds(b"ab\n", 3, true), vec![0..2]);
    assert_eq!(row_bounds(b"\n\n", 3, true), vec![0..0, 1..1]);
    assert!(row_bounds(b"", 3, true).is_empty());
    assert!(row_bounds(b"ab\ncd", 0, true).is_empty());
}

// ---------------------------------------------------------------------------
// Scrolling and jumps.

#[test]
fn scrolls_down_one_line() {
    assert_eq!(ready(doc(b"a\nb\nc\n", 1 << 20).scroll_lines(Anchor::top(), 1)), 2);
}

#[test]
fn scrolls_down_across_block_boundary() {
    assert_eq!(ready(doc(b"aaaa\nbbbb\ncccc\n", 4).scroll_lines(Anchor::top(), 2)), 10);
}

#[test]
fn scroll_down_clamps_to_last_line() {
    assert_eq!(ready(doc(b"a\nb\nc\n", 1 << 20).scroll_lines(Anchor::top(), 99)), 4);
}

#[test]
fn scroll_down_clamps_without_trailing_newline() {
    assert_eq!(ready(doc(b"a\nb\nc", 1 << 20).scroll_lines(Anchor::top(), 99)), 4);
}

#[test]
fn scrolls_up_one_line() {
    assert_eq!(ready(doc(b"a\nb\nc\n", 1 << 20).scroll_lines(Anchor::at(4), -1)), 2);
}

#[test]
fn scrolls_up_across_block_boundary() {
    assert_eq!(ready(doc(b"aaaa\nbbbb\ncccc\n", 4).scroll_lines(Anchor::at(10), -2)), 0);
}

#[test]
fn scroll_up_clamps_at_top() {
    assert_eq!(ready(doc(b"a\nb\nc\n", 1 << 20).scroll_lines(Anchor::at(2), -99)), 0);
}

#[test]
fn scroll_up_by_forty_lines() {
    let data = b"x\n".repeat(100);
    assert_eq!(ready(doc(&data, 1 << 20).scroll_lines(Anchor::at(198), -40)), 118);
}

#[test]
fn scroll_counts_reach_to_the_ends_of_their_type() {
    let d = doc(b"a\nb\nc\n", 4);
    assert_eq!(ready(d.scroll_lines(Anchor::top(), i64::MAX)), 4);
    assert_eq!(ready(d.scroll_lines(Anchor::at(4), i64::MIN)), 0);
    match d.doc.scroll_lines(Anchor::at(4), i64::MIN) {
        Scroll::Up(scan) => assert_eq!(scan.lines, 1usize << 63),
        other => panic!("expected a scan upward, got {:?}", other),
    }
}

#[test]
fn zero_newline_file_navigates_to_top_only() {
    let d = doc(b"abcdef", 2);
    assert_eq!(ready(d.scroll_lines(Anchor::top(), 5)), 0);
    assert_eq!(ready(d.scroll_lines(Anchor::top(), -5)), 0);
    assert_eq!(ready(d.goto_end(3)), 0);
    assert_eq!(ready(d.goto_percent(50)), 0);
}

#[test]
fn scroll_zero_is_identity() {
    assert_eq!(ready(doc(b"a\nb\nc\n", 1 << 20).scroll_lines(Anchor::at(2), 0)), 2);
}

#[test]
fn goto_top_is_offset_zero() {
    let d = doc(b"a\nb\nc\n", 1 << 20);
    assert_eq!(d.doc.goto_top(), Anchor::top());
    assert_eq!(d.doc.goto_top().offset(), 0);
    assert_eq!(d.doc.size(), 6);
}

#[test]
fn goto_end_shows_last_screenful() {
    assert_eq!(ready(doc(b"a\nb\nc\nd\n", 1 << 20).goto_end(2)), 4);
}

#[test]
fn goto_end_without_trailing_newline() {
    assert_eq!(ready(doc(b"a\nb\nc", 1 << 20).goto_end(1)), 4);
}

#[test]
fn goto_end_clamps_when_file_shorter_than_screen() {
    assert_eq!(ready(doc(b"a\nb\n", 1 << 20).goto_end(10)), 0);
}

#[test]
fn goto_end_of_empty_file_is_top() {
    assert_eq!(ready(doc(b"", 1 << 20).goto_end(10)), 0);
}

#[test]
fn goto_percent_snaps_to_line_start() {
    assert_eq!(ready(doc(b"a\nb\nc\nd\n", 1 << 20).goto_percent(50)), 4);
}

#[test]
fn goto_percent_lands_on_the_containing_line() {
    assert_eq!(ready(doc(b"aa\nb\ncc\n", 1 << 20).goto_percent(37)), 0);
}

#[test]
fn goto_percent_zero_is_top() {
    assert_eq!(ready(doc(b"a\nb\nc\n", 1 << 20).goto_percent(0)), 0);
}

#[test]
fn goto_percent_with_no_newline_above_target_is_top() {
    assert_eq!(ready(doc(b"abcdefgh", 1 << 20).goto_percent(50)), 0);
}

#[test]
fn goto_percent_past_a_hundred_is_the_end() {
    let d = doc(b"a\nb\nc\n", 4);
    assert_eq!(ready(d.goto_percent(100)), 4);
    assert_eq!(ready(d.goto_percent(255)), 4);
}

#[test]
fn percent_offset_handles_huge_sparse_sizes() {
    assert_eq!(percent_offset(u64::MAX, 50), u64::MAX / 2);
    assert_eq!(percent_offset(u64::MAX, 100), u64::MAX);
    assert_eq!(percent_offset(8, 37), 2);
    assert_eq!(percent_offset(0, 50), 0);
}

#[test]
fn hscroll_caps_on_construction_and_shift() {
    assert_eq!(HScroll::new(usize::MAX).columns(), MAX_HSCROLL);
    assert_eq!(HScroll::zero().shift(i64::MAX).columns(), MAX_HSCROLL);
    assert_eq!(HScroll::new(5).shift(-99).columns(), 0);
    assert_eq!(HScroll::new(5).shift(3).columns(), 8);
    assert_eq!(HScroll::default().columns(), 0);
    assert_eq!(MAX_HSCROLL, 1 << 16);
}

#[test]
fn hscroll_shift_handles_i64_min() {
    assert_eq!(HScroll::new(MAX_HSCROLL).shift(i64::MIN).columns(), 0);
}

#[test]
fn goto_percent_on_trailing_newline_clamps_to_last_line() {
    assert_eq!(ready(doc(b"a\nb\n", 1 << 20).goto_percent(75)), 2);
}

#[test]
fn budgeted_percent_jump_lands_in_the_target_line() {
    let mut data = vec![b'a'; 10000];
    data.push(b'\n');
    data.extend_from_slice(&[b'b'; 10000]);
    data.push(b'\n');
    data.extend_from_slice(b"tail");
    assert_eq!(ready(budgeted(&data, 64, 256).goto_percent(51)), 10001);
}

#[test]
fn goto_percent_is_budget_independent() {
    for budget in [1usize, 1 << 20] {
        assert_eq!(join(budgeted(b"\n\na\nbc\nd", 1, budget).goto_percent(63)), 4);
    }
}

#[test]
fn percent_into_a_long_final_line_snaps_to_its_start() {
    let mut data = b"aaa\n".to_vec();
    data.extend_from_slice(&[b'b'; 400]);
    assert_eq!(ready(budgeted(&data, 64, 256).goto_percent(50)), 4);
}

/// A hundred short lines and a giant one.
fn giant_tail() -> Vec<u8> {
    let mut data = b"y\n".repeat(100);
    data.extend_from_slice(&[b'x'; 8192]);
    data
}

#[test]
fn budget_exhausted_scroll_up_pends_then_resolves() {
    let d = budgeted(&giant_tail(), 64, 256);
    assert_eq!(pended(d.scroll_lines(Anchor::at(8000), -1), "scrolling"), 200);
}

#[test]
fn backward_pending_finds_a_newline_on_the_chunk_boundary() {
    let mut data = vec![b'x'; 7679];
    data.push(b'\n');
    data.extend_from_slice(&[b'x'; 1321]);
    let d = budgeted(&data, 64, 256);
    assert_eq!(pended(d.scroll_lines(Anchor::at(8000), -1), "scrolling"), 7680);
}

#[test]
fn zero_nav_budget_still_resolves() {
    let mut data = b"a\n".to_vec();
    data.extend_from_slice(&[b'x'; 200]);
    let d = budgeted(&data, 16, 0);
    assert_eq!(pended(d.scroll_lines(Anchor::top(), 2), "scrolling"), 2);
}

#[test]
fn budget_exhausted_scroll_down_pends_and_lands_on_a_line_start() {
    let mut data = b"a\n".to_vec();
    data.extend_from_slice(&[b'x'; 8192]);
    let d = budgeted(&data, 64, 256);
    let (outcome, pending) = d.scroll_lines(Anchor::top(), 2);
    assert_eq!(at(outcome), 2);
    let p = pending.expect("expected it to pend");
    assert_eq!((p.label, p.span, p.scanned), ("scrolling", 8194, 256));
}

#[test]
fn budgeted_percent_jump_pends_and_resolves_to_the_containing_line() {
    let d = budgeted(&giant_tail(), 64, 256);
    let (outcome, pending) = d.goto_percent(90);
    assert_eq!(at(outcome), 200);
    let p = pending.expect("expected it to pend");
    assert_eq!((p.label, p.span), ("percent jump", 7552));
}

#[test]
fn goto_end_walk_up_pends_with_the_jump_label() {
    let mut data = vec![b'x'; 8192];
    data.extend_from_slice(b"\ny\ny\n");
    assert_eq!(pended(budgeted(&data, 64, 256).goto_end(3), "jumping to end"), 0);
}

#[test]
fn goto_end_pends_and_finds_the_true_tail() {
    let (outcome, pending) = budgeted(&giant_tail(), 64, 256).goto_end(2);
    assert_eq!(at(outcome), 198);
    let p = pending.expect("expected it to pend");
    assert_eq!((p.label, p.span), ("jumping to end", 8392));
}

#[test]
fn goto_end_of_one_row_pends_to_the_tail_line() {
    assert_eq!(pended(budgeted(&giant_tail(), 64, 256).goto_end(1), "jumping to end"), 200);
}

#[test]
fn pending_progress_is_published() {
    let d = budgeted(&[b'x'; 8192], 64, 256);
    let (outcome, pending) = d.scroll_lines(Anchor::at(8000), -1);
    let p = pending.expect("expected it to pend");
    assert!(p.scanned > 0 && p.span == 8000);
    assert_eq!(at(outcome), 0);
}

#[test]
fn a_spent_shared_budget_pends_like_any_other() {
    let d = doc(b"abc", 4);
    let scan = BackwardScan { start: 3, lines: 1, budget: 1 };
    for step in [BwdStep::More, BwdStep::Exhausted] {
        assert_eq!(
            d.doc.scrolled_up(&scan, step, 7),
            Resolution::Pending(Pending { label: "scrolling", span: 3, scanned: 7 })
        );
        assert_eq!(
            d.doc.found_hunted(2, true, step, 9, 4),
            Resolution::Pending(Pending { label: "searching", span: 9, scanned: 4 })
        );
    }
}

// ---------------------------------------------------------------------------
// Jumps to a line.

#[test]
fn goto_line_one_is_top() {
    let d = lined_doc(10, 64);
    assert_eq!(join(d.goto_line(1, d.data.len())), 0);
    assert_eq!(join(d.goto_line(0, d.data.len())), 0);
}

#[test]
fn goto_line_lands_on_the_nth_line_start() {
    let d = lined_doc(3000, 256);
    assert_eq!(join(d.goto_line(5, d.data.len())), 40);
    assert_eq!(join(d.goto_line(2000, d.data.len())), 19990);
}

#[test]
fn goto_line_past_the_end_clamps_to_the_last_line() {
    let d = lined_doc(100, 64);
    assert_eq!(join(d.goto_line(1_000_000, d.data.len())), 990);
}

#[test]
fn goto_line_on_an_empty_file_is_top() {
    let d = doc(b"", 64);
    assert_eq!(join(d.goto_line(7, 0)), 0);
    assert_eq!(join(d.goto_line(1, 0)), 0);
    assert_eq!(join(d.goto_line(0, 0)), 0);
}

#[test]
fn goto_line_beyond_the_frontier_pends_with_progress() {
    let d = lined_doc(4000, 256);
    let (outcome, pending) = d.goto_line(3500, 1024);
    assert_eq!(at(outcome), 34990);
    assert_eq!(
        pending,
        Some(Pending { label: "jumping to line", span: 40000, scanned: 1024 })
    );
}

#[test]
fn goto_line_with_an_unterminated_last_line_clamps_to_it() {
    let mut data = b"a\nb\n".to_vec();
    data.extend_from_slice(&[b'x'; 100]);
    let d = doc(&data, 64);
    assert_eq!(join(d.goto_line(99, data.len())), 4);
}

#[test]
fn goto_line_one_past_a_checkpoint_aligned_end_clamps() {
    let data = b"x\n".repeat(1024);
    let d = doc(&data, 64);
    assert_eq!(join(d.goto_line(2, data.len())), 2);
    assert_eq!(join(d.goto_line(1025, data.len())), 2046);
}

#[test]
fn goto_line_phantom_clamp_holds_through_the_pending_path() {
    let data = b"x\n".repeat(1024);
    assert_eq!(pended(doc(&data, 64).goto_line(1025, 64), "jumping to line"), 2046);
}

#[test]
fn goto_line_phantom_clamp_resolves_synchronously_once_indexed() {
    let data = b"x\n".repeat(1024);
    let d = doc(&data, 64);
    assert_eq!(join(d.goto_line(4000, data.len())), 2046);
    assert_eq!(ready(d.goto_line(1025, data.len())), 2046);
}

#[test]
fn dephantom_steps_off_the_position_after_a_final_newline() {
    let data = b"x\n".repeat(1024);
    let index = doc(&data, 64).index(data.len());
    assert_eq!(index.nearest_checkpoint(1024), (2048, 1024));
    assert_eq!(dephantom(&index, 2048, 1024, (2048, 1024)), (1023, (0, 0)));
    assert_eq!(dephantom(&index, 2048, 700, (0, 0)), (700, (0, 0)));
    let empty = LineIndex::new();
    assert_eq!(dephantom(&empty, 0, 0, (0, 0)), (0, (0, 0)));
}

#[test]
fn a_shortened_index_sends_a_jump_to_the_line_that_it_stopped_in() {
    let d = doc(b"aa\nbb\ncc\ndd\n", 4);
    let mut index = LineIndex::new();
    index.ingest(b"aa\nbb\nc");
    index.finish(false);
    match d.doc.goto_line(&index, 4) {
        LineStep::Walk(scan) => assert_eq!(landed(d.forward_to_end(&scan)), NavOutcome::At(Anchor::at(6))),
        _ => panic!("expected a walk"),
    }
    assert_eq!(d.doc.index_total_lines(&index), None);
}

#[test]
fn a_total_is_shown_only_of_a_whole_file() {
    let d = doc(b"aa\nbb\ncc\ndd\n", 4);
    let mut index = LineIndex::new();
    index.ingest(b"aa\nbb\ncc\ndd\n");
    assert_eq!(d.doc.index_total_lines(&index), None);
    index.finish(true);
    assert_eq!(d.doc.index_total_lines(&index), Some(4));
}

fn naive_line_starts(data: &[u8]) -> Vec<u64> {
    let mut starts = vec![];
    if !data.is_empty() {
        starts.push(0);
    }
    for (i, &b) in data.iter().enumerate() {
        if b == b'\n' && i + 1 < data.len() {
            starts.push(i as u64 + 1);
        }
    }
    starts
}

#[test]
fn goto_line_agrees_with_a_naive_reference() {
    let mut rng = Rng(21);
    for _ in 0..400 {
        let data = rng.text(192);
        let d = budgeted(&data, 1 + rng.below(31), 1 + rng.below(23));
        let n = rng.below(64) as u64;
        let indexed = rng.below(data.len() + 1);
        let starts = naive_line_starts(&data);
        let expected = match starts.len() {
            0 => 0,
            len => starts[(n.saturating_sub(1) as usize).min(len - 1)],
        };
        assert_eq!(join(d.goto_line(n, indexed)), expected, "line {} of {:?}", n, data);
    }
}

#[test]
fn goto_line_agrees_near_checkpoint_boundaries() {
    for lines in 1016u64..1033 {
        for delta in -3i64..4 {
            for terminated in [true, false] {
                let mut data = b"x\n".repeat(lines as usize);
                if !terminated {
                    data.push(b'y');
                }
                let total = if terminated { lines } else { lines + 1 };
                let n = (lines as i64 + delta).max(0) as u64;
                let expected = n.saturating_sub(1).min(total - 1) * 2;
                let d = budgeted(&data, 64, 64);
                assert_eq!(join(d.goto_line(n, data.len())), expected, "line {} of {}", n, total);
            }
        }
    }
}

#[test]
fn navigation_always_lands_on_a_line_start() {
    let mut rng = Rng(22);
    for _ in 0..400 {
        let data = rng.text(256);
        let d = doc(&data, 1 + rng.below(47));
        let starts = naive_line_starts(&data);
        let is_start = |off: u64| off == 0 || starts.contains(&off);
        let a = ready(d.scroll_lines(Anchor::top(), rng.below(64) as i64));
        assert!(is_start(a), "down -> {}", a);
        let b = ready(d.scroll_lines(Anchor::at(a), -(rng.below(64) as i64)));
        assert!(is_start(b) && b <= a, "up -> {}", b);
        let p = ready(d.goto_percent(rng.below(101) as u8));
        assert!(is_start(p), "pct -> {}", p);
        let e = ready(d.goto_end(1 + rng.below(23)));
        assert!(is_start(e), "end -> {}", e);
    }
}

#[test]
fn navigation_agrees_with_line_arithmetic() {
    let mut rng = Rng(23);
    for _ in 0..400 {
        let data = rng.text(200);
        let starts = naive_line_starts(&data);
        if starts.is_empty() {
            continue;
        }
        let d = doc(&data, 1 + rng.below(31));
        let last = starts.len() - 1;
        let k = rng.below(starts.len());
        let n = 1 + rng.below(30);
        let from = Anchor::at(starts[k]);
        assert_eq!(ready(d.scroll_lines(from, n as i64)), starts[(k + n).min(last)]);
        assert_eq!(ready(d.scroll_lines(from, -(n as i64))), starts[k.saturating_sub(n)]);
        assert_eq!(ready(d.goto_end(n)), starts[last.saturating_sub(n - 1)]);
        let pct = rng.below(100);
        let target = data.len() * pct / 100;
        let line = starts.iter().filter(|&&s| s <= target as u64).last().unwrap();
        assert_eq!(ready(d.goto_percent(pct as u8)), *line);
    }
}

#[test]
fn pending_and_sync_navigation_agree() {
    let mut rng = Rng(24);
    for _ in 0..400 {
        let data = rng.text(160);
        let block_size = 1 + rng.below(31);
        let calm = budgeted(&data, block_size, usize::MAX);
        let tiny = budgeted(&data, block_size, 1 + rng.below(23));
        let (down, up) = (1 + rng.below(39) as i64, 1 + rng.below(39) as i64);
        let a = ready(calm.scroll_lines(Anchor::top(), down));
        assert_eq!(a, join(tiny.scroll_lines(Anchor::top(), down)));
        let u = ready(calm.scroll_lines(Anchor::at(a), -up));
        assert_eq!(u, join(tiny.scroll_lines(Anchor::at(a), -up)));
        let pct = rng.below(101) as u8;
        assert_eq!(ready(calm.goto_percent(pct)), join(tiny.goto_percent(pct)));
        let rows = 1 + rng.below(9);
        assert_eq!(ready(calm.goto_end(rows)), join(tiny.goto_end(rows)));
    }
}

// ---------------------------------------------------------------------------
// Searches.

fn match_found(top: u64, match_at: u64, wrapped: bool) -> NavOutcome {
    NavOutcome::FoundMatch { top: Anchor::at(top), match_at, wrapped }
}

#[test]
fn search_next_lands_the_match_line_at_the_top() {
    let d = doc(b"aaa\nxxx needle yyy\n", 1 << 20);
    assert_eq!(d.search_next(0, &lit("needle"), true), match_found(4, 8, false));
}

#[test]
fn search_next_wraps_and_says_so() {
    let d = doc(b"needle\nxxx\nyyy\n", 1 << 20);
    assert_eq!(d.search_next(7, &lit("needle"), true), match_found(0, 0, true));
}

#[test]
fn search_next_exhausted_when_no_match_anywhere() {
    let d = doc(b"aaa\nbbb\nccc\n", 1 << 20);
    assert_eq!(d.search_next(0, &lit("needle"), true), NavOutcome::Exhausted);
}

#[test]
fn search_next_forward_out_of_range_origin_does_not_panic() {
    let d = doc(b"aaa\nbbb\nccc\n", 1 << 20);
    assert_eq!(d.search_next(u64::MAX, &lit("needle"), true), NavOutcome::Exhausted);
}

#[test]
fn search_next_backward_mirrors() {
    let d = doc(b"xxx needle yyy\nzzz\n", 1 << 20);
    assert_eq!(d.search_next(15, &lit("needle"), false), match_found(0, 4, false));
    let d = doc(b"xxx\nyyy needle zzz\n", 1 << 20);
    assert_eq!(d.search_next(2, &lit("needle"), false), match_found(4, 8, true));
    let d = doc(b"aaa\nbbb\nccc\n", 1 << 20);
    assert_eq!(d.search_next(7, &lit("needle"), false), NavOutcome::Exhausted);
}

#[test]
fn search_next_resolves_a_line_start_the_scan_could_not() {
    let d = doc(b"zzz\nabc needle xyz", 1 << 20);
    assert_eq!(d.search_next(4, &lit("needle"), true), match_found(4, 8, false));
}

#[test]
fn search_next_resolves_the_true_top_when_a_persisted_newline_falls_inside_the_match() {
    let d = doc(b"xxfoo\nbarzz", 1);
    assert_eq!(d.search_next(0, &lit("foo\nbar"), true), match_found(0, 2, false));
}

#[test]
fn search_next_backward_self_hit_finds_the_earlier_match_instead() {
    let d = doc(b"needle\nxxx\nneedle\n", 1 << 20);
    assert_eq!(d.search_next(11, &lit("needle"), false), match_found(0, 0, false));
}

#[test]
fn search_next_backward_self_hit_wraps_to_find_it_again() {
    let d = doc(b"xxx\nneedle\n", 1 << 20);
    assert_eq!(d.search_next(4, &lit("needle"), false), match_found(4, 4, true));
}

#[test]
fn search_next_forward_origin_is_inclusive() {
    let d = doc(b"xxx\nneedle\n", 1 << 20);
    assert_eq!(d.search_next(4, &lit("needle"), true), match_found(4, 4, false));
}

#[test]
fn search_next_forward_wrap_finds_a_match_straddling_the_origin() {
    let d = doc(b"zzzzzzzzzzneedlezzzzz", 1 << 20);
    assert_eq!(d.search_next(13, &lit("needle"), true), match_found(0, 10, true));
}

#[test]
fn search_next_backward_finds_a_straddler_via_leg_1_not_the_wrap() {
    let d = doc(b"zzzzzneedlezzzzzzzzzz", 1 << 20);
    assert_eq!(d.search_next(8, &lit("needle"), false), match_found(0, 5, false));
}

#[test]
fn search_next_zero_width_dollar_is_found_at_the_end() {
    let d = doc(b"abc", 1 << 20);
    assert_eq!(dollar().find_all(b"abc"), vec![(3, 3)]);
    assert_eq!(d.search_next(0, &dollar(), true), match_found(0, 3, false));
}

#[test]
fn search_next_finds_caret_dollar_on_an_empty_file() {
    let p = Pat(vec![Item::LineStart, Item::LineEnd]);
    assert_eq!(doc(b"", 1 << 20).search_next(0, &p, true), match_found(0, 0, false));
}

#[test]
fn search_next_backward_finds_caret_dollar_on_an_empty_file_via_a_deliberate_wrap() {
    let p = Pat(vec![Item::LineStart, Item::LineEnd]);
    assert_eq!(doc(b"", 1 << 20).search_next(0, &p, false), match_found(0, 0, true));
}

#[test]
fn search_next_hunts_past_its_budget_in_the_background() {
    let mut data = b"first\n".to_vec();
    data.extend_from_slice(&[b'x'; 500]);
    data.extend_from_slice(b"needle");
    let d = budgeted(&data, 16, 64);
    assert_eq!(d.search_next(0, &lit("needle"), true), match_found(6, 506, false));
}

#[test]
fn a_hint_and_the_top_of_the_file_need_no_read() {
    let d = doc(b"ab\ncd", 2);
    assert_eq!(d.doc.line_start_shortcut(4, Some(3)), LineStart::Known(Anchor::at(3)));
    assert_eq!(d.doc.line_start_shortcut(0, None), LineStart::Known(Anchor::top()));
    assert_eq!(d.doc.line_start_shortcut(4, None), LineStart::Probe { block: 1 });
    assert_eq!(d.doc.line_start_probed(3, &d.block(1)), Some(Anchor::at(3)));
    assert_eq!(d.doc.line_start_probed(4, &d.block(1)), None);
}

#[test]
fn legs_of_a_search_look_on_both_sides_of_its_origin() {
    let d = doc(&[b'x'; 100], 16);
    match d.doc.search_next(40, true) {
        SearchLeg::Fwd(f) => assert_eq!((f.from, f.limit), (40, Bound::Exclusive(100))),
        SearchLeg::Bwd(_) => panic!("expected a leg upward"),
    }
    match d.doc.search_next(40, false) {
        SearchLeg::Bwd(b) => {
            assert_eq!((b.hi, b.floor, b.wrap), (40, Bound::Inclusive(0), false))
        }
        SearchLeg::Fwd(_) => panic!("expected a leg downward"),
    }
    match wrapped_leg(40, 100, true, 64) {
        SearchLeg::Fwd(f) => assert_eq!((f.from, f.limit), (0, Bound::Exclusive(4136))),
        SearchLeg::Bwd(_) => panic!("expected a leg upward"),
    }
    match wrapped_leg(u64::MAX, 100, true, 64) {
        SearchLeg::Fwd(f) => assert_eq!(f.limit, Bound::Exclusive(u64::MAX)),
        SearchLeg::Bwd(_) => panic!("expected a leg upward"),
    }
    match wrapped_leg(40, 100, false, 64) {
        SearchLeg::Bwd(b) => {
            assert_eq!((b.hi, b.floor, b.wrap), (100, Bound::Inclusive(40), true))
        }
        SearchLeg::Fwd(_) => panic!("expected a leg downward"),
    }
}

#[test]
fn a_leg_that_ran_out_of_budget_pends_the_whole_search() {
    let d = doc(&[b'x'; 100], 16);
    let expected = Pending { label: "searching", span: 100, scanned: 33 };
    match d.doc.searched_near(40, true, SearchStep::More, 33) {
        SearchNext::Pending(p) => assert_eq!(p, expected),
        _ => panic!("expected it to pend"),
    }
    match d.doc.searched_far(SearchStep::More, 33) {
        SearchNext::Pending(p) => assert_eq!(p, expected),
        _ => panic!("expected it to pend"),
    }
}

#[test]
fn the_hunt_for_a_line_start_shares_what_the_search_spent() {
    let d = budgeted(&[b'x'; 100], 16, 64);
    let mut meter = Meter::background(64);
    meter.charge(60, Charge::Payload);
    let hunt = d.doc.resolve_found(&mut meter, 70);
    assert_eq!(hunt, BackwardScan { start: 70, lines: 1, budget: 64 });
    meter.begin_step();
    assert_eq!(meter.charged(), 60);
    assert!(!meter.out_of_budget());
    meter.charge(4, Charge::Bookkeeping);
    meter.begin_step();
    assert!(meter.out_of_budget());
}

// ---------------------------------------------------------------------------
// Search marks on a screen.

#[test]
fn viewport_marks_default_to_empty_with_no_active_search() {
    let v = doc(b"xxfooxx\n", 1 << 20).viewport(Anchor::top(), 1, 80, HScroll::zero(), None);
    assert_eq!(v.marks, vec![RowMarks::default()]);
}

#[test]
fn viewport_finds_match_spans_at_the_right_columns() {
    let d = doc(b"xxfooxx\n", 1 << 20);
    let v = d.viewport(Anchor::top(), 1, 80, HScroll::zero(), Some((&lit("foo"), None)));
    assert_eq!(rows_of(&v), vec!["xxfooxx"]);
    assert_eq!(v.marks[0].spans, vec![2..5]);
    assert_eq!(v.marks[0].current, None);
}

#[test]
fn viewport_marks_the_current_match_by_absolute_byte_offset() {
    let d = doc(b"xxfooxx\nxxfooxx\n", 1 << 20);
    let v = d.viewport(Anchor::top(), 2, 80, HScroll::zero(), Some((&lit("foo"), Some(10))));
    assert_eq!(rows_of(&v), vec!["xxfooxx", "xxfooxx"]);
    assert!(v.marks[0].spans.contains(&(2..5)));
    assert_eq!(v.marks[0].current, None);
    assert!(v.marks[1].spans.contains(&(2..5)));
    assert_eq!(v.marks[1].current, Some(2..5));
}

#[test]
fn viewport_current_stays_none_when_the_target_is_not_a_visible_match() {
    let d = doc(b"xxfooxx\n", 1 << 20);
    let v = d.viewport(Anchor::top(), 1, 80, HScroll::zero(), Some((&lit("foo"), Some(999))));
    assert!(v.marks[0].spans.contains(&(2..5)));
    assert_eq!(v.marks[0].current, None);
}

#[test]
fn viewport_highlights_a_match_spanning_two_rows() {
    let d = doc(b"xxfoo\nbarzz\n", 1 << 20);
    let v = d.viewport(Anchor::top(), 2, 80, HScroll::zero(), Some((&lit("foo\nbar"), None)));
    assert_eq!(rows_of(&v), vec!["xxfoo", "barzz"]);
    assert_eq!(v.marks[0].spans, vec![2..5]);
    assert_eq!(v.marks[1].spans, vec![0..3]);
}

#[test]
fn viewport_highlights_a_match_spanning_three_rows() {
    let d = doc(b"xxfoo\nbar\nbazyy\n", 1 << 20);
    let p = lit("foo\nbar\nbaz");
    let v = d.viewport(Anchor::top(), 3, 80, HScroll::zero(), Some((&p, None)));
    assert_eq!(rows_of(&v), vec!["xxfoo", "bar", "bazyy"]);
    assert_eq!(v.marks[0].spans, vec![2..5]);
    assert_eq!(v.marks[1].spans, vec![0..3]);
    assert_eq!(v.marks[2].spans, vec![0..3]);
}

#[test]
fn viewport_finds_the_current_match_even_when_find_all_would_skip_its_start() {
    let d = doc(b"aaa\n", 1 << 20);
    let v = d.viewport(Anchor::top(), 1, 80, HScroll::zero(), Some((&lit("aa"), Some(1))));
    assert_eq!(v.marks[0].current, Some(1..3));
    assert!(v.marks[0].spans.contains(&(1..3)), "{:?}", v.marks[0].spans);
}

#[test]
fn viewport_caret_current_is_a_visible_cell() {
    let d = doc(b"abc\n", 1 << 20);
    let v = d.viewport(Anchor::top(), 1, 80, HScroll::zero(), Some((&caret(), Some(0))));
    assert_eq!(v.marks[0].current, Some(0..1));
}

#[test]
fn viewport_dollar_current_renders_after_the_last_character() {
    let d = doc(b"abc\n", 1 << 20);
    let v = d.viewport(Anchor::top(), 1, 80, HScroll::zero(), Some((&dollar(), Some(3))));
    assert_eq!(v.marks[0].current, Some(3..4));
}

#[test]
fn viewport_dollar_does_not_falsely_match_at_a_budget_truncated_edge() {
    let mut data = "\u{1d11e}".as_bytes().to_vec();
    data.push(b'a');
    data.extend(vec![b'z'; 50]);
    let d = doc(&data, 4);
    let p = ending("\u{1d11e}");
    let v = d.viewport(Anchor::top(), 1, 1, HScroll::zero(), Some((&p, None)));
    assert!(v.marks[0].spans.is_empty(), "{:?}", v.marks[0].spans);
    assert_eq!(d.search_next(0, &p, true), NavOutcome::Exhausted);
}

#[test]
fn viewport_absolute_start_anchor_does_not_match_past_the_true_file_start() {
    let d = doc(b"xxx\nfoo bar\n", 1 << 20);
    let mut p = lit("foo");
    p.0.insert(0, Item::FileStart);
    let v = d.viewport(Anchor::at(4), 1, 80, HScroll::zero(), Some((&p, None)));
    assert!(v.marks[0].spans.is_empty(), "{:?}", v.marks[0].spans);
}

#[test]
fn viewport_zero_width_matches_render_reversed_even_when_not_current() {
    let d = doc(b"aaa\nbbb\n", 1 << 20);
    let v = d.viewport(Anchor::top(), 2, 80, HScroll::zero(), Some((&caret(), None)));
    assert_eq!(v.marks[0].spans, vec![0..1]);
    assert_eq!(v.marks[1].spans, vec![0..1]);
}

#[test]
fn viewport_eof_zero_width_dollar_renders_ordinarily_not_only_when_current() {
    let d = doc(b"a\nb", 1 << 20);
    assert_eq!(dollar().find_all(b"a\nb"), vec![(1, 1), (3, 3)]);
    let v = d.viewport(Anchor::top(), 2, 80, HScroll::zero(), Some((&dollar(), None)));
    assert_eq!(rows_of(&v), vec!["a", "b"]);
    assert_eq!(v.marks[0].spans, vec![1..2]);
    assert_eq!(v.marks[1].spans, vec![1..2]);
    let with_current = d.viewport(Anchor::top(), 2, 80, HScroll::zero(), Some((&dollar(), Some(3))));
    assert_eq!(with_current.marks[1].spans, vec![1..2]);
    assert_eq!(with_current.marks[1].current, Some(1..2));
    let scrolled = d.viewport(Anchor::top(), 2, 80, HScroll::new(1), Some((&dollar(), None)));
    assert!(scrolled.marks[1].spans.len() <= 1);
}

#[test]
fn viewport_stays_unpainted_at_the_trailing_newline_phantom_end_to_end() {
    let d = doc(b"a\n", 1 << 20);
    let v = d.viewport(Anchor::top(), 1, 80, HScroll::zero(), Some((&dollar(), None)));
    assert_eq!(rows_of(&v), vec!["a"]);
    assert_eq!(v.marks[0].spans, vec![1..2]);
    let phantom = d.viewport(Anchor::top(), 5, 80, HScroll::zero(), Some((&dollar(), Some(2))));
    assert_eq!(phantom.rows.len(), 1);
    assert_eq!(phantom.marks[0].current, None);
}

#[test]
fn viewport_paints_a_low_edge_verified_by_a_multi_block_ctx_before_gather() {
    let d = doc(b"xxxx\nfoo\n", 4);
    let mut p = lit("foo");
    p.0.insert(0, Item::LineStart);
    assert_eq!(p.find_all(b"xxxx\nfoo\n"), vec![(5, 8)]);
    assert_eq!(d.search_next(0, &p, true), match_found(5, 5, false));
    let v = d.viewport(Anchor::at(5), 1, 80, HScroll::zero(), Some((&p, None)));
    assert_eq!(rows_of(&v), vec!["foo"]);
    assert_eq!(v.marks[0].spans, vec![0..3]);
    let v = d.viewport(Anchor::at(5), 1, 80, HScroll::zero(), Some((&p, Some(5))));
    assert_eq!(v.marks[0].current, Some(0..3));
}

#[test]
fn multiline_match_starting_offscreen_right_on_one_row_is_still_found_via_the_next_rows_own_leftward_reach(
) {
    let mut data = vec![b'x'; 20];
    data.extend_from_slice(b"foo\nbarzz\n");
    let d = doc(&data, 1 << 20);
    let v = d.viewport(Anchor::top(), 2, 5, HScroll::zero(), Some((&lit("foo\nbar"), None)));
    assert!(v.marks[0].spans.is_empty(), "{:?}", v.marks[0].spans);
    assert_eq!(v.marks[1].spans, vec![0..3]);
}

#[test]
fn blank_line_zero_width_matches_still_render_not_only_when_current() {
    let both = || Pat(vec![Item::LineStart, Item::LineEnd]);
    for (data, p) in [
        (&b"foo\n\nbar\n"[..], caret()),
        (&b"foo\n\nbar\n"[..], dollar()),
        (&b"foo\n\nbar\n"[..], both()),
        (&b"foo\r\n\r\nbar\r\n"[..], caret()),
        (&b"foo\r\n\r\nbar\r\n"[..], dollar()),
    ] {
        let d = doc(data, 1 << 20);
        let v = d.viewport(Anchor::top(), 3, 80, HScroll::zero(), Some((&p, None)));
        assert_eq!(v.marks[1].spans, vec![0..1], "{:?}", data);
    }
}

#[test]
fn blank_line_zero_width_match_is_consistent_between_plain_and_current() {
    let d = doc(b"foo\n\nbar\n", 1 << 20);
    let plain = d.viewport(Anchor::top(), 3, 80, HScroll::zero(), Some((&caret(), None)));
    let current = d.viewport(Anchor::top(), 3, 80, HScroll::zero(), Some((&caret(), Some(4))));
    assert_eq!(plain.marks[1].spans, current.marks[1].spans);
    assert_eq!(current.marks[1].current, Some(0..1));
}

#[test]
fn bare_dollar_on_a_crlf_line_still_highlights() {
    let d = doc(b"foo\r\nbar\r\n", 1 << 20);
    let v = d.viewport(Anchor::top(), 2, 80, HScroll::zero(), Some((&dollar(), None)));
    assert_eq!(v.marks[0].spans, vec![3..4]);
    assert_eq!(v.marks[1].spans, vec![3..4]);
}

#[test]
fn a_match_completing_in_ctx_after_is_both_reversed_and_bold_when_current() {
    let d = doc(b"foo\nbar\nbazqux\n", 1 << 20);
    let p = lit("r\nb");
    let v = d.viewport(Anchor::top(), 2, 80, HScroll::zero(), Some((&p, None)));
    assert_eq!(rows_of(&v), vec!["foo", "bar"]);
    assert_eq!(v.marks[1].spans, vec![2..3]);
    let v = d.viewport(Anchor::top(), 2, 80, HScroll::zero(), Some((&p, Some(6))));
    assert_eq!(v.marks[1].spans, vec![2..3]);
    assert_eq!(v.marks[1].current, Some(2..3));
}

#[test]
fn giant_line_viewport_finds_correct_bounded_marks() {
    let data = vec![b'a'; 1 << 20];
    let d = doc(&data, 1 << 20);
    let v = d.viewport(Anchor::top(), 1, 80, HScroll::zero(), Some((&lit("a"), None)));
    assert_eq!(v.marks[0].spans, vec![0..80]);
    let found = row_matches(&lit("a"), &data, true, data.len(), true, &data, 0, 0, 80);
    assert!(found.len() < 200, "{}", found.len());
}

#[test]
fn per_row_matches_paint_what_the_whole_buffers_matches_paint() {
    let mut rng = Rng(31);
    for _ in 0..300 {
        let data: Vec<u8> = (0..1 + rng.below(300))
            .map(|_| [b'a', b'b', b'\n', b'\t', 0xc3][rng.below(5)])
            .collect();
        let p = [lit("ab"), lit("b\na"), caret(), lit("a"), lit("bb\n")]
            .into_iter()
            .nth(rng.below(5))
            .unwrap();
        let d = doc(&data, 1 << 20);
        let (rows, cols) = (1 + rng.below(12), 1 + rng.below(20));
        let hscroll = HScroll::new(rng.below(12));
        let v = d.viewport(Anchor::top(), rows, cols, hscroll, Some((&p, None)));
        let (buf, fill) = d.fill(0, rows, d.doc.viewport_budget(rows, cols, hscroll));
        let all: Vec<std::ops::Range<usize>> = p
            .find_all_from(&data, 0, 0)
            .into_iter()
            .map(|(s, e)| s..e)
            .filter(|m| m.start < buf.len())
            .collect();
        let bounds = row_bounds(&buf, rows, !matches!(fill, FillOutcome::Rows));
        let lists: Vec<Vec<std::ops::Range<usize>>> = bounds.iter().map(|_| all.clone()).collect();
        let whole = d.doc.viewport(&buf, rows, cols, hscroll, fill, &lists, &None);
        assert_eq!(v, whole, "{:?}", data);
    }
}

// ---------------------------------------------------------------------------
// Context and edges.

#[test]
fn edge_context_crosses_a_block_boundary_to_gather_a_split_character() {
    let mut data = vec![b'a'; 7];
    data.extend("\u{e9}".as_bytes());
    data.extend(vec![b'z'; 50]);
    let d = doc(&data, 8);
    let p = Pat(vec![Item::Run(b'a'), Item::WordEnd]);
    assert_eq!(p.find_all(&data), vec![]);
    let (_, before, after, hit) = d.edge_context(0, 7);
    assert!(before.is_empty());
    assert!(after.len() >= 2, "{:?}", after);
    assert!(!hit);
    let mut full_hay = data[0..7].to_vec();
    full_hay.extend_from_slice(&after);
    let eof = 7 + after.len() == data.len();
    let found = row_matches(&p, &full_hay, eof, 7, false, &data[0..7], 0, 0, 80);
    assert!(found.is_empty(), "{:?}", found);
}

#[test]
fn edge_context_ahead_width_needs_the_full_ctx_ahead_margin_not_just_max_match_len() {
    let mut data = vec![b'x'; 99];
    data.extend(vec![b'a'; MAX_MATCH_LEN]);
    data.push(b' ');
    data.extend(vec![b'z'; 100]);
    let p = Pat(vec![Item::Times(b'a', 4096), Item::WordEnd]);
    assert_eq!(p.find_all(&data), vec![(99, 4195)]);
    let d = doc(&data, 100);
    let (_, _, after, hit) = d.edge_context(0, 100);
    assert!(!hit);
    assert_eq!(after.len(), MAX_MATCH_LEN + CTX_AHEAD - 1);
    let mut full_hay = data[0..100].to_vec();
    full_hay.extend_from_slice(&after);
    let eof = 100 + after.len() == data.len();
    let found = row_matches(&p, &full_hay, eof, 100, false, &data[0..100], 0, 0, 100);
    assert_eq!(found, vec![99..4195]);
}

#[test]
fn edge_context_ctx_before_gathers_across_a_block_boundary() {
    let (at, before, _, _) = doc(b"xxxx\nfoo\n", 4).edge_context(5, 3);
    assert_eq!(before, b"xxx\n");
    assert_eq!(at, 1);
}

#[test]
fn context_before_is_what_lies_there_for_every_block_size() {
    let data: Vec<u8> = (0..40).collect();
    for block_size in 1..12 {
        let d = doc(&data, block_size);
        for top in 0..=40u64 {
            let (at, before, after, hit) = d.edge_context(top, 0);
            assert_eq!(at, top.saturating_sub(CTX_BEHIND as u64));
            assert_eq!(before, &data[at as usize..top as usize]);
            assert_eq!(after, &data[top as usize..]);
            assert!(!hit);
        }
    }
}

#[test]
fn context_before_stops_at_a_gap() {
    // the block below the position ends before it.
    let d = Document::new(20, config(8, 64));
    let (mut behind, _) = d.edge_context(Anchor::at(17), 3);
    assert_eq!(behind.next(), Some(2));
    behind.take(&Block::new(bytes::Bytes::from_static(b"DDDD"), false));
    assert_eq!(behind.next(), Some(1));
    behind.take(&Block::new(bytes::Bytes::from_static(b"BBBBBB"), false));
    assert_eq!(behind.next(), None);
    assert_eq!(behind.finish(), (16, b"D".to_vec()));
}

#[test]
fn context_ahead_sees_an_end_only_where_the_source_shows_one() {
    for (block, shown) in [
        (Block::new(bytes::Bytes::new(), false), true),
        (Block::new(bytes::Bytes::from_static(b"abc"), true), true),
        (Block::new(bytes::Bytes::from_static(b"abc"), false), false),
    ] {
        let d = Document::new(100, config(8, 64));
        let (_, mut ahead) = d.edge_context(Anchor::at(0), 3);
        assert_eq!(ahead.next(), Some(0));
        ahead.take(&block);
        assert_eq!(ahead.next(), None);
        assert_eq!(ahead.finish(), (Vec::new(), shown));
    }
}

#[test]
fn context_ahead_stops_at_its_reach_and_at_the_claimed_size() {
    let data = vec![b'x'; 9000];
    let (_, _, after, hit) = doc(&data, 1000).edge_context(0, 100);
    assert_eq!((after.len(), hit), (CONSUMABLE_REACH, false));
    let (_, _, after, hit) = doc(&data, 1000).edge_context(0, 8990);
    assert_eq!((after.len(), hit), (10, false));
    let (_, _, after, hit) = claiming(&data, 20000, 1000, 64).edge_context(0, 8990);
    assert_eq!((after.len(), hit), (10, true));
}

#[test]
fn a_frame_knows_its_edges() {
    let f = search_frame(4, b"foo", 0, b"abc\n", b"bar", false, FillOutcome::Budget, 100);
    assert_eq!(f.hay, b"abc\nfoobar");
    assert_eq!((f.base, f.lb, f.payload_end), (0, 4, 7));
    assert!(!f.buf_is_true_eof && !f.hay_reaches_eof && !f.eof_zero_width_ok);
    // context that does not join the rows is left out.
    let f = search_frame(4, b"foo", 0, b"ab", b"", false, FillOutcome::Budget, 7);
    assert_eq!(f.hay, b"foo");
    assert_eq!((f.base, f.lb, f.payload_end), (4, 0, 3));
    assert!(f.buf_is_true_eof && f.hay_reaches_eof && f.eof_zero_width_ok);
    // a final newline starts no line.
    let f = search_frame(4, b"foo\n", 4, b"", b"", false, FillOutcome::Budget, 8);
    assert!(f.buf_is_true_eof && f.hay_reaches_eof && !f.eof_zero_width_ok);
    // the context, not the rows, reaches the end.
    let f = search_frame(4, b"foo", 4, b"", b"bar", true, FillOutcome::Rows, 100);
    assert!(!f.buf_is_true_eof && f.hay_reaches_eof && !f.eof_zero_width_ok);
    let f = search_frame(4, b"foo", 4, b"", b"bar", false, FillOutcome::Rows, 10);
    assert!(!f.buf_is_true_eof && f.hay_reaches_eof);
    assert_eq!(f.current_query(4, Some(3)), None);
    assert_eq!(f.current_query(4, Some(4)), Some(0));
    assert_eq!(f.current_query(4, Some(7)), Some(3));
    assert_eq!(f.current_query(4, Some(8)), None);
    assert_eq!(f.current_query(4, None), None);
}

#[test]
fn a_screen_on_a_truncated_source_shows_its_certified_end() {
    // the source claims more than it has, and says so when it is asked.
    let d = claiming(b"a\nbc", 1000, 8, 64);
    let v = d.viewport(Anchor::top(), 5, 80, HScroll::zero(), Some((&dollar(), None)));
    assert_eq!(rows_of(&v), vec!["a", "bc"]);
    assert_eq!(v.marks[1].spans, vec![2..3]);
}

#[test]
fn a_short_block_without_a_certificate_is_no_end() {
    let d = Document::new(15, config(8, 64));
    let buf = b"hello";
    let f = search_frame(0, buf, 0, b"", b"", false, FillOutcome::Budget, 15);
    assert!(!f.buf_is_true_eof && !f.eof_zero_width_ok);
    let queries = row_queries(f.row_search(), buf, 1, true, 8, HScroll::zero(), 80);
    assert_eq!(queries.len(), 1);
    let q = queries[0].as_ref().unwrap();
    assert!(!q.search_end);
    let answers = [dollar().answer(q, &f)];
    let matches = screen_matches(&queries, f.lb, &answers);
    let v = d.viewport(buf, 1, 80, HScroll::zero(), FillOutcome::Budget, &matches, &None);
    assert!(v.marks[0].spans.is_empty());
}

// ---------------------------------------------------------------------------
// What a row's search looks at.

#[test]
fn point_candidate_is_resolved_rejects_the_phantom_even_when_the_belt_would_allow_it() {
    assert!(!point_candidate_is_resolved(2, 2, 2, 2, true, 2, false));
    assert!(point_candidate_is_resolved(2, 2, 2, 2, true, 2, true));
    assert!(
        !point_candidate_is_resolved(0, 3, 3, 3, false, 999, false),
        "margin 0 < CTX_AHEAD, and hay does not reach true EOF -- unresolved, reject"
    );
    assert!(point_candidate_is_resolved(0, 3, 3, 3, true, 999, false));
}

#[test]
fn visible_window_matches_interior_hay_cut_no_longer_fabricates_a_split_word_boundary() {
    let mut data = b"HELLO".to_vec();
    data.extend(vec![b'a'; MAX_MATCH_LEN]);
    data.extend("\u{e9}".as_bytes());
    data.extend(vec![b'z'; 10_000 - data.len()]);
    assert_eq!(data.len(), 10_000);
    let p = Pat(vec![Item::Times(b'a', 4096), Item::WordEnd]);
    assert_eq!(p.find_all(&data), vec![]);
    let found = row_matches(&p, &data, true, data.len(), false, &data[0..5], 0, 0, 80);
    assert_eq!(found, Vec::<std::ops::Range<usize>>::new());
}

#[test]
fn visible_window_matches_widened_interior_margin_turns_a_would_be_miss_into_a_correct_find() {
    let mut data = b"HELLO".to_vec();
    data.extend(vec![b'a'; MAX_MATCH_LEN]);
    data.push(b' ');
    data.extend(vec![b'z'; 10_000 - data.len()]);
    assert_eq!(data.len(), 10_000);
    let p = Pat(vec![Item::Times(b'a', 4096), Item::WordEnd]);
    assert_eq!(p.find_all(&data), vec![(5, 4101)]);
    let found = row_matches(&p, &data, true, data.len(), false, &data[0..5], 0, 0, 80);
    assert_eq!(found, vec![5..4101]);
}

#[test]
fn visible_window_matches_resolved_criterion_belt_drops_a_dollar_satisfied_only_by_a_truncated_hays_own_edge(
) {
    let p = ending("Qzzzz");
    assert_eq!(p.find_all(b"hello Qzzzzwwww"), vec![]);
    let buf = b"hello Q";
    let found = row_matches(&p, b"hello Qzzzz", false, buf.len(), false, buf, 0, 0, 80);
    assert_eq!(found, Vec::<std::ops::Range<usize>>::new());
}

#[test]
fn visible_window_matches_belt_margin_needs_all_four_ctx_ahead_bytes_not_one() {
    let mut real = b"hello Qzzzz".to_vec();
    real.extend("\u{e9}".as_bytes());
    real.extend(b"www");
    let mut p = lit("Qzzzz");
    p.0.push(Item::WordEnd);
    assert_eq!(p.find_all(&real), vec![]);
    let found = row_matches(&p, &real[0..12], false, 11, false, &real[0..11], 0, 0, 80);
    assert_eq!(found, Vec::<std::ops::Range<usize>>::new());
}

#[test]
fn accept_and_hay_ordinary_interior_row_does_not_touch_bufs_own_edges() {
    let (accept, hay) = accept_and_hay_for_row(0..5, 10_000, 100_000, 0, 100_000);
    assert_eq!(accept, 5_904..10_006, "10_000 - MAX_MATCH_LEN .. 10_005 + 1");
    assert_eq!(hay, 5_900..14_105, "accept -CTX_BEHIND .. accept +MAX_MATCH_LEN+CTX_AHEAD-1");
}

#[test]
fn accept_clamps_to_bufs_own_top_edge_while_hay_reaches_into_ctx_before() {
    let (accept, hay) = accept_and_hay_for_row(0..5, 2, 100_000, 4, 100_004);
    assert_eq!(accept, 4..12, "clamped to buf's own start (lb=4), not full_hay's (0)");
    assert_eq!(hay, 0..4_111, "reaches full_hay's own start -- the real ctx_before bytes");
}

#[test]
fn accept_clamps_to_bufs_own_bottom_edge_while_hay_reaches_into_ctx_after() {
    let (accept, hay) = accept_and_hay_for_row(5..10, 99_990, 100_000, 0, 100_004);
    assert_eq!(accept, 95_899..100_000, "clamped to buf's own end, not full_hay's (100_004)");
    assert_eq!(hay, 95_895..100_004, "reaches full_hay's own end -- the real ctx_after bytes");
}

#[test]
fn accept_admits_one_past_a_short_rows_own_visible_content_end() {
    let (accept, _) = accept_and_hay_for_row(0..3, 50, 1_000, 0, 1_000);
    assert_eq!(accept, 0..54, "50 + 3 + 1, not 50 + 3");
}

#[test]
fn accept_and_hay_stay_tiny_against_a_giant_buf() {
    let (accept, hay) = accept_and_hay_for_row(0..80, 0, 1 << 20, 0, 1 << 20);
    assert_eq!(accept, 0..81);
    assert_eq!(hay, 0..4_180, "81 + MAX_MATCH_LEN(4096) + CTX_AHEAD(4) - 1");
    assert!(accept.end - accept.start < 100);
    assert!(hay.end - hay.start < 4_200);
}

#[test]
fn visible_window_matches_over_cap_assertion_free_matches_paint_again_the_r5_recovery() {
    let data = vec![b'a'; 10_000];
    let p = Pat(vec![Item::Run(b'a')]);
    assert_eq!(p.find_all(&data), vec![(0, 10_000)], "ground truth: one match, the whole line");
    let recovers = row_matches(&p, &data, true, data.len(), false, &data, 5_800, 0, 80);
    assert_eq!(recovers, vec![1_704..9_980]);
    let painted = row_matches(&p, &data, true, data.len(), false, &data, 5_900, 0, 80);
    assert_eq!(painted, vec![1_804..10_000]);
}

#[test]
fn giant_line_returned_matches_stay_window_bounded_away_from_offset_zero() {
    let data = vec![b'a'; 1 << 20];
    for (line_start, hscroll, label) in [
        (100_000usize, 0usize, "line_start past MAX_MATCH_LEN"),
        (0usize, 50_000usize, "hscroll past MAX_MATCH_LEN"),
    ] {
        let found =
            row_matches(&lit("a"), &data, true, data.len(), true, &data, line_start, hscroll, 80);
        assert!(found.len() <= 82, "{label}: got {}", found.len());
    }
}

#[test]
fn giant_line_multibyte_bound_is_win_bytes_plus_2_not_cols_plus_2() {
    let data = "世".repeat(4000).into_bytes();
    let p = Pat(vec![Item::Any]);
    let found = row_matches(&p, &data, true, data.len(), true, &data, 0, 3000, 80);
    assert_eq!(found.len(), 122, "win_bytes (120, 40 characters x 3 bytes) + 2, not cols + 2 (82)");
}

#[test]
fn matches_are_clipped_to_their_row() {
    assert_eq!(clip_to_row(&(2..9), &(4..8)), Some(0..4));
    assert_eq!(clip_to_row(&(5..6), &(4..8)), Some(1..2));
    assert_eq!(clip_to_row(&(8..9), &(4..8)), None);
    assert_eq!(clip_to_row(&(0..4), &(4..8)), None);
    assert_eq!(clip_to_row(&(8..8), &(4..8)), Some(4..4));
    assert_eq!(clip_to_row(&(4..4), &(4..8)), Some(0..0));
    assert_eq!(clip_to_row(&(9..9), &(4..8)), None);
    assert_eq!(clip_to_row(&(3..3), &(4..8)), None);
}

#[test]
fn a_scrolled_away_row_asks_nothing() {
    let search = RowSearch { hay_len: 10, lb: 0, buf_hi: 10, eof_zero_width_ok: true };
    assert!(visible_window_query(search, 10, b"ab", 0, 8, 5, 10).is_none());
    assert!(visible_window_query(search, 10, b"ab", 0, 8, 0, 0).is_none());
    assert!(visible_window_query(search, 10, b"", 3, 8, 1, 10).is_none());
    assert!(visible_window_query(search, 10, b"", 3, 8, 0, 10).is_some());
    let q = visible_window_query(search, 10, b"ab\r", 7, 8, 0, 10).unwrap();
    assert!(q.search_end);
    assert_eq!(q.accept, 0..10);
}

#[test]
fn defaults_of_the_configuration() {
    let c = Config::default();
    assert_eq!(c.block_size, 1 << 20);
    assert_eq!(c.tab_stop, 8);
    assert_eq!(c.cache_bytes, 256 << 20);
    assert_eq!(c.nav_scan_budget, 8 << 20);
    assert_eq!(c.prefetch_depth, 8);
}

#[test]
fn a_jump_that_waited_steps_off_a_checkpoint_at_the_end() {
    // the index took everything and was then cut short.
    let data = b"x\n".repeat(1024);
    let d = doc(&data, 64);
    let mut index = LineIndex::new();
    index.ingest(&data);
    index.finish(false);
    match d.doc.line_waited(&index, 4000) {
        LineStep::Walk(scan) => assert_eq!((scan.start, scan.lines), (0, 1023)),
        _ => panic!("expected a walk"),
    }
    match d.doc.goto_line(&index, 4001) {
        LineStep::Walk(scan) => assert_eq!((scan.start, scan.lines), (2048, 0)),
        _ => panic!("expected a walk"),
    }
}

#[test]
fn context_before_takes_no_more_blocks_than_bytes() {
    let data = vec![b'x'; 100];
    for (block_size, top, reads) in [(1, 50, 4), (2, 50, 2), (4, 50, 2), (4, 48, 1), (64, 50, 1)] {
        let d = doc(&data, block_size);
        let (mut behind, _) = d.doc.edge_context(Anchor::at(top), 0);
        while let Some(index) = behind.next() {
            behind.take(&d.block(index));
        }
        assert_eq!(d.reads.get(), reads, "blocks of {} before {}", block_size, top);
        assert_eq!(behind.finish().1.len(), CTX_BEHIND);
    }
}

#[test]
fn a_frame_is_a_piece_of_the_file() {
    let data: Vec<u8> = (0..200).collect();
    for block_size in [1usize, 3, 16, 300] {
        let d = doc(&data, block_size);
        for (top, len) in [(0usize, 10usize), (2, 0), (7, 50), (150, 50), (200, 0)] {
            let buf = &data[top..top + len];
            let (at, before, after, hit) = d.edge_context(top as u64, len);
            let fill = FillOutcome::Budget;
            let f = search_frame(top as u64, buf, at, &before, &after, hit, fill, d.size);
            assert_eq!(f.hay, &data[f.base as usize..f.base as usize + f.hay.len()]);
            assert_eq!(&f.hay[f.lb..f.payload_end], buf);
            assert!(f.hay_reaches_eof);
        }
    }
}

#[test]
fn scrolling_down_and_up_comes_back() {
    let mut rng = Rng(41);
    for _ in 0..200 {
        let data = rng.text(200);
        let starts = naive_line_starts(&data);
        if starts.len() < 2 {
            continue;
        }
        let d = doc(&data, 1 + rng.below(31));
        let k = rng.below(starts.len() - 1);
        let n = 1 + rng.below(starts.len() - 1 - k);
        let down = ready(d.scroll_lines(Anchor::at(starts[k]), n as i64));
        assert_eq!(ready(d.scroll_lines(Anchor::at(down), -(n as i64))), starts[k]);
    }
}

#[test]
fn an_offset_past_everything_keeps_its_low_bits() {
    assert_eq!(percent_offset(u64::MAX, 200), u64::MAX - 1);
    assert_eq!(percent_offset(1000, 150), 1500);
}

#[test]
fn a_new_index_knows_no_total() {
    let d = doc(b"a\n", 4);
    assert_eq!(d.doc.index_total_lines(&LineIndex::new()), None);
}

#[test]
fn only_a_screen_with_all_its_rows_is_not_stopped() {
    assert!(!FillOutcome::Rows.stops());
    assert!(FillOutcome::Budget.stops());
}
