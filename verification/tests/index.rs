use ress_core::index::{Frontier, LineIndex, CHECKPOINT_INTERVAL};

/// Feeds `data` in pieces, to exercise the edges of chunks.
fn ingested(data: &[u8], piece: usize) -> LineIndex {
    let mut ix = LineIndex::new();
    for c in data.chunks(piece.max(1)) {
        ix.ingest(c);
    }
    ix.finish(true);
    ix
}

#[test]
fn counts_lines_with_and_without_trailing_newline() {
    assert_eq!(ingested(b"a\nb\nc\n", 2).total_lines(), Some(3));
    assert_eq!(ingested(b"a\nb\nc", 2).total_lines(), Some(3));
    assert_eq!(ingested(b"", 2).total_lines(), Some(0));
    assert_eq!(ingested(b"\n", 2).total_lines(), Some(1));
}

#[test]
fn total_is_unknown_until_finished() {
    let mut ix = LineIndex::new();
    ix.ingest(b"a\nb\n");
    assert_eq!(ix.total_lines(), None);
    assert_eq!(ix.newlines(), 2);
    ix.finish(true);
    assert_eq!(ix.total_lines(), Some(2));
}

#[test]
fn error_shortened_scan_counts_the_frontier_line() {
    let mut shortened = LineIndex::new();
    shortened.ingest(b"a\nb\n");
    shortened.finish(false);
    assert_eq!(shortened.total_lines(), Some(3));
    let mut finished = LineIndex::new();
    finished.ingest(b"a\nb\n");
    finished.finish(true);
    assert_eq!(finished.total_lines(), Some(2));
}

#[test]
fn frontier_reports_progress_and_completion() {
    let mut ix = LineIndex::new();
    ix.ingest(b"a\nb");
    assert_eq!(ix.frontier(), Frontier { processed_up_to: 3, lines_so_far: 1, done: false });
    ix.finish(true);
    assert!(ix.frontier().done);
}

#[test]
fn checkpoints_land_every_1024th_line() {
    // 2050 two-byte lines; line0 1024 starts at 2048, line0 2048 at 4096.
    let data = b"x\n".repeat(2050);
    let ix = ingested(&data, 313);
    assert_eq!(ix.nearest_checkpoint(0), (0, 0));
    assert_eq!(ix.nearest_checkpoint(1023), (0, 0));
    assert_eq!(ix.nearest_checkpoint(1024), (2048, 1024));
    assert_eq!(ix.nearest_checkpoint(2049), (4096, 2048));
}

#[test]
fn chunk_boundary_straddling_newline_is_counted_once() {
    let mut ix = LineIndex::new();
    ix.ingest(b"ab\n");
    ix.ingest(b"cd");
    ix.finish(true);
    assert_eq!(ix.total_lines(), Some(2));
    assert_eq!(ix.frontier().processed_up_to, 5);
}

#[test]
fn a_line_past_the_frontier_gets_the_last_checkpoint() {
    let ix = ingested(&b"x\n".repeat(1500), 7);
    assert_eq!(ix.nearest_checkpoint(1_000_000), (2048, 1024));
    assert_eq!(ix.nearest_checkpoint(u64::MAX), (2048, 1024));
    assert_eq!(LineIndex::new().nearest_checkpoint(5000), (0, 0));
    assert_eq!(CHECKPOINT_INTERVAL, 1024);
}

#[test]
fn the_end_of_the_file_is_reached_only_by_a_whole_scan() {
    let mut ix = LineIndex::new();
    assert!(!ix.reached_eof());
    ix.ingest(b"");
    assert_eq!(ix.frontier(), Frontier::default());
    ix.finish(false);
    assert!(!ix.reached_eof());
    assert_eq!(ix.total_lines(), Some(1));
    ix.finish(true);
    assert!(ix.reached_eof());
    assert_eq!(ix.total_lines(), Some(0));
}

fn naive_line_starts(data: &[u8]) -> Vec<u64> {
    let mut starts = vec![];
    if !data.is_empty() {
        starts.push(0);
    }
    for (i, &b) in data.iter().enumerate() {
        if b == b'\n' && i + 1 < data.len() {
            starts.push(i as u64 + 1);
        }
    }
    starts
}

#[test]
fn agrees_with_a_naive_scan() {
    let mut state: u64 = 0x2545_f491_4f6c_dd1d;
    let mut next = move || {
        state ^= state << 13;
        state ^= state >> 7;
        state ^= state << 17;
        state as usize
    };
    for _ in 0..60 {
        let len = next() % 4096;
        let data: Vec<u8> =
            (0..len).map(|_| if next() % 10 < 3 { b'\n' } else { next() as u8 }).collect();
        let ix = ingested(&data, 1 + next() % 63);
        let starts = naive_line_starts(&data);
        assert_eq!(ix.total_lines(), Some(starts.len() as u64));
        for (line0, &start) in starts.iter().enumerate().step_by(97) {
            let (cp_off, cp_line) = ix.nearest_checkpoint(line0 as u64);
            assert!(cp_line <= line0 as u64);
            assert!(cp_off <= start, "checkpoint offset past the line it names");
            assert_eq!(cp_off, starts[cp_line as usize]);
            if cp_line == line0 as u64 {
                assert_eq!(cp_off, start);
            }
        }
    }
}

#[test]
fn chunk_edges_do_not_matter() {
    let data = b"one\ntwo\n\nthree\n".repeat(400);
    for cut in [0, 1, 4, 16, 999, data.len()] {
        for eof in [true, false] {
            let (mut both, mut whole) = (LineIndex::new(), LineIndex::new());
            both.ingest(&data[..cut]);
            both.ingest(&data[cut..]);
            whole.ingest(&data);
            assert_eq!(both.newlines(), whole.newlines());
            assert_eq!(both.frontier(), whole.frontier());
            both.finish(eof);
            whole.finish(eof);
            assert_eq!(both.total_lines(), whole.total_lines());
            for line0 in [0, 1, 1023, 1024, 1599, 1600, 5000] {
                assert_eq!(both.nearest_checkpoint(line0), whole.nearest_checkpoint(line0));
            }
        }
    }
}
