use bytes::Bytes;
use ress_core::block::Block;
use ress_core::meter::{
    classify, touch, Access, BlockJump, Charge, Fetched, Meter, NoProgress, NotMonotone, ReadOutcome,
    Reader, Touch,
};

/// A source that answers with the blocks of `data`, and counts how often it is
/// asked.
struct Source {
    data: &'static [u8],
    block_size: usize,
    certifies: bool,
    reads: usize,
}

fn source(data: &'static [u8], block_size: usize) -> Source {
    Source { data, block_size, certifies: false, reads: 0 }
}

impl Source {
    fn block(&mut self, index: u64) -> Block {
        self.reads += 1;
        let lo = (index as usize * self.block_size).min(self.data.len());
        let hi = (lo + self.block_size).min(self.data.len());
        let ends = self.certifies && hi == self.data.len() && lo < hi;
        Block::new(Bytes::from_static(&self.data[lo..hi]), ends)
    }

    /// One budgeted read.
    fn read(
        &mut self,
        r: &mut Reader,
        at: u64,
        want: usize,
        access: Access,
        kind: Charge,
    ) -> ReadOutcome {
        match r.touch(at, access) {
            None => ReadOutcome::OutOfBudget,
            Some(t) => {
                assert_eq!(t.access, access);
                let block = self.block(t.index);
                r.read_at(at, want, kind, block)
            }
        }
    }
}

#[test]
fn read_at_charges_full_bytes_as_payload() {
    let mut c = source(b"0123456789", 4);
    let mut m = Meter::interactive(100, 100);
    let mut r = Reader::new(4, &mut m);
    match c.read(&mut r, 0, 4, Access::Payload, Charge::Payload) {
        ReadOutcome::Bytes { got: b, .. } => assert_eq!(&b[..], b"0123"),
        other => panic!("expected Bytes, got {other:?}"),
    }
    assert_eq!(m.charged(), 4);
    assert_eq!(m.progressed(), 4);
}

#[test]
fn bookkeeping_charges_but_never_progresses() {
    let mut c = source(b"0123456789", 4);
    let mut m = Meter::interactive(100, 100);
    let mut r = Reader::new(4, &mut m);
    let _ = c.read(&mut r, 0, 4, Access::Peek, Charge::Bookkeeping);
    assert_eq!(m.charged(), 4, "bookkeeping still charges the budget");
    assert_eq!(m.progressed(), 0, "but never counts as progress");
}

#[test]
fn short_read_does_not_certify() {
    let mut c = source(b"01234567", 100); // one 8-byte block, "block size" 100
    let mut m = Meter::interactive(100, 100);
    let mut r = Reader::new(100, &mut m);
    match c.read(&mut r, 0, 100, Access::Payload, Charge::Payload) {
        ReadOutcome::Short { got, .. } => {
            assert_eq!(&got[..], b"01234567");
        }
        other => panic!("expected Short, got {other:?}"),
    }
}

#[test]
fn a_full_block_short_of_a_large_want_does_not_falsely_certify() {
    let mut c = source(b"01234567", 4);
    let mut m = Meter::interactive(100, 100);
    let mut r = Reader::new(4, &mut m);
    match c.read(&mut r, 0, 100, Access::Payload, Charge::Payload) {
        ReadOutcome::Bytes { got: b, .. } => assert_eq!(&b[..], b"0123"),
        other => panic!("expected Bytes, got {other:?}"),
    }
}

#[test]
fn empty_block_certifies_with_a_block_jump_target() {
    let mut c = source(b"01234567", 4); // blocks 0 and 1 real, block 2+ empty
    let mut m = Meter::interactive(100, 100);
    let mut r = Reader::new(4, &mut m);
    match c.read(&mut r, 8, 4, Access::Payload, Charge::Payload) {
        ReadOutcome::Empty { end, block_start, jump } => {
            assert_eq!(end.at(), 8);
            assert_eq!(block_start, 8);
            assert_eq!(jump, BlockJump::Safe);
        }
        other => panic!("expected Empty, got {other:?}"),
    }
    assert_eq!(m.charged(), 0, "charged() counts bytes, not touches");
}

#[test]
fn a_short_read_past_a_short_blocks_own_end_still_does_not_certify() {
    let mut c = source(b"abc", 8);
    let mut m = Meter::interactive(100, 100);
    let mut r = Reader::new(8, &mut m);
    match c.read(&mut r, 3, 5, Access::Payload, Charge::Payload) {
        ReadOutcome::Short { got, .. } => {
            assert!(got.is_empty());
        }
        other => panic!("expected Short with empty got, got {other:?}"),
    }
}

#[test]
fn a_certified_block_carries_its_end() {
    let mut c = source(b"01234567abc", 8);
    c.certifies = true;
    let mut m = Meter::background(100);
    let mut r = Reader::new(8, &mut m);
    match r.read_at_unbounded(8, 100, Charge::Payload, c.block(1)) {
        Fetched::Short { got, block_start, end, .. } => {
            assert_eq!(&got[..], b"abc");
            assert_eq!(block_start, 8);
            assert_eq!(end.map(|e| e.at()), Some(11));
        }
        other => panic!("expected Short, got {other:?}"),
    }
    match r.read_at_unbounded(12, 100, Charge::Payload, c.block(1)) {
        Fetched::Empty { end, block_start, jump } => {
            assert_eq!((end.at(), block_start), (11, 8));
            assert_eq!(jump, BlockJump::ContentBelow);
        }
        other => panic!("expected Empty, got {other:?}"),
    }
    // a read that stops before the end of the block says nothing of its end.
    match r.read_at_unbounded(8, 2, Charge::Payload, c.block(1)) {
        Fetched::Bytes { got, whole_block, .. } => {
            assert_eq!(&got[..], b"ab");
            assert_eq!(whole_block.as_slice(), b"abc");
        }
        other => panic!("expected Bytes, got {other:?}"),
    }
    assert_eq!(m.charged(), 5);
}

#[test]
fn reads_start_in_the_middle_of_a_block() {
    let mut c = source(b"0123456789", 4);
    let mut m = Meter::background(100);
    let mut r = Reader::new(4, &mut m);
    match r.read_at_unbounded(5, 2, Charge::Payload, c.block(1)) {
        Fetched::Bytes { got, block_start, .. } => {
            assert_eq!(&got[..], b"56");
            assert_eq!(block_start, 4);
        }
        other => panic!("expected Bytes, got {other:?}"),
    }
    assert_eq!(
        touch(4, 5, Access::Peek, false),
        Some(Touch { index: 1, access: Access::Peek })
    );
}

#[test]
fn out_of_budget_never_touches_the_cache() {
    let mut c = source(b"0123456789", 4);
    let mut m = Meter::interactive(4, 4);
    let mut r = Reader::new(4, &mut m);
    let _ = c.read(&mut r, 0, 4, Access::Payload, Charge::Payload);
    match c.read(&mut r, 4, 4, Access::Payload, Charge::Payload) {
        ReadOutcome::OutOfBudget => {}
        other => panic!("expected OutOfBudget, got {other:?}"),
    }
    assert_eq!(c.reads, 1, "the second, refused read must not touch the source");
}

#[test]
fn a_refused_read_charges_nothing_even_with_its_block_at_hand() {
    let mut c = source(b"0123456789", 4);
    let mut m = Meter::interactive(4, 4);
    let mut r = Reader::new(4, &mut m);
    let _ = c.read(&mut r, 0, 4, Access::Payload, Charge::Payload);
    assert!(r.out_of_budget());
    assert!(matches!(r.read_at(4, 4, Charge::Payload, c.block(1)), ReadOutcome::OutOfBudget));
    assert_eq!((m.charged(), m.progressed()), (4, 4));
}

#[test]
fn classify_itself_refuses_before_touching_the_cache() {
    let mut c = source(b"0123456789", 4);
    assert!(touch(4, 0, Access::Payload, true).is_none(), "refuse: true must touch nothing");
    assert_eq!(c.reads, 0);
    let refused_warm = classify(4, 0, 4, c.block(0), true);
    assert!(refused_warm.is_none(), "refuse: true must yield None, whatever block is there");
    let allowed = classify(4, 0, 4, c.block(0), false);
    assert!(
        matches!(allowed, Some((Fetched::Bytes { .. }, 4))),
        "refuse: false must classify normally, got {allowed:?}"
    );
}

#[test]
fn allowance_bounds_a_composed_operation_across_two_readers() {
    let mut c = source(b"0123456789abcdef", 4);
    let mut m = Meter::interactive(100, 4);
    {
        let mut r = Reader::new(4, &mut m);
        let _ = c.read(&mut r, 0, 4, Access::Payload, Charge::Payload);
    }
    assert_eq!(m.charged(), 4, "phase one spent the whole shared allowance");
    m.begin_step();
    let mut r = Reader::new(4, &mut m);
    match c.read(&mut r, 4, 4, Access::Payload, Charge::Payload) {
        ReadOutcome::OutOfBudget => {}
        other => {
            panic!("expected OutOfBudget once the shared allowance is spent, got {other:?}")
        }
    }
}

#[test]
fn skip_rejects_a_non_decreasing_target() {
    let mut m = Meter::interactive(100, 100);
    let mut r = Reader::new(4, &mut m);
    assert!(r.skip(100, 100).is_err(), "skip(100, 100) must be Err");
    assert_eq!(r.skip(100, 120), Err(NotMonotone), "skip(100, 120) must be Err");
    assert!(r.skip(100, 99).is_ok(), "skip(100, 99) must be Ok");
    assert_eq!(m.charged(), 1);
    assert_eq!(m.progressed(), 0);
}

#[test]
fn skip_ahead_rejects_a_non_increasing_target() {
    let mut m = Meter::interactive(100, 100);
    let mut r = Reader::new(4, &mut m);
    assert!(r.skip_ahead(100, 100).is_err(), "skip_ahead(100, 100) must be Err");
    assert!(r.skip_ahead(100, 80).is_err(), "skip_ahead(100, 80) must be Err");
    assert!(r.skip_ahead(100, 101).is_ok(), "skip_ahead(100, 101) must be Ok");
    assert_eq!(m.charged(), 1, "the skipped span is charged, like its backward twin's");
}

#[test]
fn progress_witness_fails_when_nothing_was_charged_this_step() {
    let mut m = Meter::interactive(100, 100);
    assert!(m.progress_witness().is_err());
    m.begin_step();
    m.charge(1, Charge::Bookkeeping);
    assert!(m.progress_witness().is_ok());
    m.begin_step();
    assert_eq!(m.progress_witness(), Err(NoProgress));
}

#[test]
fn give_back_progress_corrects_progressed_without_touching_charged() {
    let mut m = Meter::interactive(100, 100);
    m.charge(10, Charge::Payload);
    assert_eq!(m.charged(), 10);
    assert_eq!(m.progressed(), 10);
    m.give_back_progress(6);
    assert_eq!(m.charged(), 10, "the physical read is unchanged");
    assert_eq!(m.progressed(), 4, "only the bytes the answer needed count as progress");
    m.give_back_progress(60);
    assert_eq!(m.progressed(), 0);
}

#[test]
fn progress_can_be_recorded_without_a_charge() {
    let mut m = Meter::interactive(100, 100);
    let mut r = Reader::new(4, &mut m);
    r.record_progress(7);
    assert!(r.progress_witness().is_err());
    r.give_back_progress(2);
    assert_eq!((m.charged(), m.progressed()), (0, 5));
}

#[test]
fn lift_allowance_unblocks_a_background_continuation() {
    let mut c = source(b"0123456789", 4);
    let mut m = Meter::interactive(4, 4);
    {
        let mut r = Reader::new(4, &mut m);
        let _ = c.read(&mut r, 0, 4, Access::Payload, Charge::Payload);
    }
    assert_eq!(m.charged(), 4, "the whole allowance is spent");
    m.lift_allowance();
    m.begin_step();
    let mut r = Reader::new(4, &mut m);
    match c.read(&mut r, 4, 4, Access::Payload, Charge::Payload) {
        ReadOutcome::Bytes { got: b, .. } => assert_eq!(&b[..], b"4567"),
        other => panic!(
            "a lifted allowance must let a background continuation keep reading; got {other:?}"
        ),
    }
}

#[test]
fn an_imposed_allowance_counts_what_was_charged_before() {
    let mut m = Meter::background(100);
    m.charge(10, Charge::Payload);
    m.begin_step();
    assert!(!m.out_of_budget());
    m.impose_allowance(10);
    assert!(m.out_of_budget());
    m.impose_allowance(11);
    assert!(!m.out_of_budget());
    m.charge(5, Charge::Bookkeeping);
    assert!(m.out_of_budget());
    assert_eq!(m.charged(), 15);
}

#[test]
fn a_step_of_no_size_still_reads_once() {
    let mut m = Meter::background(0);
    assert!(!m.out_of_budget());
    m.charge(1, Charge::Payload);
    assert!(m.out_of_budget());
    m.begin_step();
    assert!(!m.out_of_budget());
    assert!(!Meter::interactive(0, 1).out_of_budget());
    assert!(Meter::interactive(5, 0).out_of_budget());
}

#[test]
fn errors_have_their_messages() {
    assert_eq!(
        NoProgress.text(),
        "step reported More/Ok(false) without charging any read since begin_step"
    );
    assert_eq!(NotMonotone.text(), "skip target did not strictly move away from its origin");
}

#[test]
fn blocks_hand_out_their_bytes() {
    let b = Block::new(Bytes::from_static(b"hello"), true);
    assert_eq!((b.len(), b.is_empty(), b.ends_data()), (5, false, true));
    assert_eq!(&b.slice(1, 3)[..], b"el");
    assert_eq!(b.as_slice(), b"hello");
    let e = Block::new(Bytes::new(), false);
    assert_eq!((e.len(), e.is_empty(), e.ends_data()), (0, true, false));
}

#[test]
fn an_operation_overshoots_by_less_than_one_read() {
    let mut c = source(&[b'x'; 100], 8);
    let mut m = Meter::interactive(100, 20);
    let mut r = Reader::new(8, &mut m);
    let mut at = 0;
    while let ReadOutcome::Bytes { got, .. } =
        c.read(&mut r, at, 8, Access::Payload, Charge::Payload)
    {
        at += got.len() as u64;
    }
    assert_eq!(at, 24);
    assert_eq!(m.charged(), 24);
}

#[test]
fn a_skip_is_progress_whatever_the_budget() {
    let mut m = Meter::interactive(1, 0);
    assert!(m.out_of_budget());
    let mut r = Reader::new(4, &mut m);
    assert!(r.progress_witness().is_err());
    assert!(r.skip(10, 7).is_ok());
    assert!(r.progress_witness().is_ok());
    assert_eq!((m.charged(), m.progressed()), (3, 0));
    m.begin_step();
    let mut r = Reader::new(4, &mut m);
    assert!(r.skip_ahead(7, 8).is_ok());
    assert!(r.progress_witness().is_ok());
    m.lift_allowance();
    m.begin_step();
    assert!(!m.out_of_budget());
    assert_eq!(m.charged(), 4);
}
