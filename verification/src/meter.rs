//! Metering and end-certification for the engine's read loops.
//!
//! - **Every read charges.** A [`Reader`] borrows the operation's [`Meter`] for
//!   its whole life and settles each read against it.
//! - **An end claim is earned, never assumed.** [`CertifiedEnd`] is made only
//!   here, from a read that came back wholly empty or from a block whose end
//!   the source itself certified. A short length certifies nothing: a source
//!   may answer with fewer bytes than it was asked for.
//! - **A resumable step's "more to do" is earned too.** [`Charged`] is made
//!   only by [`Meter::progress_witness`], which fails when nothing was charged
//!   since the step began.
//!
//! Two numbers answer two questions. [`Meter::charged`] is what the operation
//! has spent against its budget: delivered bytes and skipped spans. It is no
//! measure of physical reads, for a cached block charges what a fetched one
//! does, an empty answer charges nothing, and a skip charges bytes that nobody
//! read. [`Meter::progressed`] counts the bytes consumed toward the operation's
//! own answer.
use vstd::prelude::*;

use crate::block;
use crate::block::Block;

verus! {

/// Read work, metered, for one operation: a whole interactive attempt, made of
/// one or more phases, or one background continuation.
pub struct Meter {
    chunk: usize,
    allowance: Option<u64>,
    spent_this_step: usize,
    charged: u64,
    progressed: u64,
}

/// What a charge is for. `Payload` is an operation's own reportable content and
/// counts as progress; `Bookkeeping` is content that is read to decide something
/// but is never itself reported.
#[derive(Debug, Clone, Copy, PartialEq, Eq, Structural)]
pub enum Charge {
    Payload,
    Bookkeeping,
}

/// How a read touches the block cache. `Payload` marks the block as used by the
/// user-visible working set; `Peek` does not.
#[derive(Debug, Clone, Copy, PartialEq, Eq, Structural)]
pub enum Access {
    Payload,
    Peek,
}

/// A witness that a step charged at least one read since it began. Made only by
/// [`Meter::progress_witness`].
#[derive(Debug, Clone, Copy, PartialEq, Eq)]
pub struct Charged(());

/// Nothing was charged since the step began: reporting more work to do would
/// come back to the identical state for ever.
#[derive(Debug, Clone, Copy, PartialEq, Eq, Structural)]
pub struct NoProgress;

impl NoProgress {
    /// The message of this error.
    pub fn text(&self) -> (s: String)
        ensures
            s@ == "step reported More/Ok(false) without charging any read since begin_step"@,
    {
        "step reported More/Ok(false) without charging any read since begin_step".to_owned()
    }
}

/// A skip did not strictly move in its own direction: down for
/// [`Reader::skip`], up for [`Reader::skip_ahead`].
#[derive(Debug, Clone, Copy, PartialEq, Eq, Structural)]
pub struct NotMonotone;

impl NotMonotone {
    /// The message of this error.
    pub fn text(&self) -> (s: String)
        ensures
            s@ == "skip target did not strictly move away from its origin"@,
    {
        "skip target did not strictly move away from its origin".to_owned()
    }
}

impl Meter {
    #[verifier::type_invariant]
    spec fn steps_may_charge(self) -> bool {
        self.chunk >= 1
    }

    /// The limit of one step; at least 1.
    pub closed spec fn step_limit(&self) -> nat {
        if self.chunk >= 1 {
            self.chunk as nat
        } else {
            1
        }
    }

    /// The limit of the whole operation, where it has one.
    pub closed spec fn total_limit(&self) -> Option<u64> {
        self.allowance
    }

    /// What was charged since the step began.
    pub closed spec fn step_spent(&self) -> nat {
        self.spent_this_step as nat
    }

    /// What the whole operation has charged.
    pub closed spec fn total_charged(&self) -> nat {
        self.charged as nat
    }

    /// How much of it was progress.
    pub closed spec fn total_progress(&self) -> nat {
        self.progressed as nat
    }

    /// Charging `amount` as `kind` overflows no counter.
    pub open spec fn can_charge(&self, amount: int, kind: Charge) -> bool {
        &&& self.step_spent() + amount <= usize::MAX
        &&& self.total_charged() + amount <= u64::MAX
        &&& kind == Charge::Payload ==> self.total_progress() + amount <= u64::MAX
    }

    /// This meter is `before` after a charge of `amount` as `kind`.
    pub open spec fn after_charge(&self, before: Meter, amount: int, kind: Charge) -> bool {
        &&& self.step_limit() == before.step_limit()
        &&& self.total_limit() == before.total_limit()
        &&& self.step_spent() == before.step_spent() + amount
        &&& self.total_charged() == before.total_charged() + amount
        &&& self.total_progress() == before.total_progress() + if kind == Charge::Payload {
            amount
        } else {
            0
        }
    }

    /// This meter is one at the start of an operation whose steps may charge
    /// `chunk` each, and at least something, and which may charge `allowance`.
    pub open spec fn starts(&self, chunk: int, allowance: Option<u64>) -> bool {
        &&& self.step_limit() == if chunk == 0 {
            1
        } else {
            chunk
        }
        &&& self.total_limit() == allowance
        &&& self.step_spent() == 0
        &&& self.total_charged() == 0
        &&& self.total_progress() == 0
    }

    /// The step or the whole operation has reached its limit.
    pub open spec fn is_spent(&self) -> bool {
        ||| self.step_spent() >= self.step_limit()
        ||| (self.total_limit() matches Some(a) && self.total_charged() >= a)
    }

    /// An interactive attempt: `chunk` bounds any one step, `allowance` the
    /// whole operation.
    pub fn interactive(chunk: usize, allowance: u64) -> (m: Meter)
        ensures
            m.step_limit() == if chunk == 0 {
                1
            } else {
                chunk as int
            },
            m.total_limit() == Some(allowance),
            m.step_spent() == 0,
            m.total_charged() == 0,
            m.total_progress() == 0,
            m.starts(chunk as int, Some(allowance)),
    {
        Meter {
            chunk: if chunk == 0 {
                1
            } else {
                chunk
            },
            allowance: Some(allowance),
            spent_this_step: 0,
            charged: 0,
            progressed: 0,
        }
    }

    /// A background continuation: `chunk` bounds each step; the operation as a
    /// whole has no limit.
    pub fn background(chunk: usize) -> (m: Meter)
        ensures
            m.step_limit() == if chunk == 0 {
                1
            } else {
                chunk as int
            },
            m.total_limit() is None,
            m.step_spent() == 0,
            m.total_charged() == 0,
            m.total_progress() == 0,
            m.starts(chunk as int, None),
    {
        Meter {
            chunk: if chunk == 0 {
                1
            } else {
                chunk
            },
            allowance: None,
            spent_this_step: 0,
            charged: 0,
            progressed: 0,
        }
    }

    /// Drops the limit of the whole operation: an interactive attempt that did
    /// not finish goes on in the background. What it has charged is kept.
    pub fn lift_allowance(&mut self)
        ensures
            final(self).total_limit() is None,
            final(self).step_limit() == old(self).step_limit(),
            final(self).step_limit() >= 1,
            final(self).step_spent() == old(self).step_spent(),
            final(self).total_charged() == old(self).total_charged(),
            final(self).total_progress() == old(self).total_progress(),
    {
        proof {
            use_type_invariant(&*self);
        }
        self.allowance = None;
    }

    /// Imposes a limit on the whole operation, counting what it has charged
    /// already.
    pub fn impose_allowance(&mut self, allowance: u64)
        ensures
            final(self).total_limit() == Some(allowance),
            final(self).step_limit() == old(self).step_limit(),
            final(self).step_spent() == old(self).step_spent(),
            final(self).total_charged() == old(self).total_charged(),
            final(self).total_progress() == old(self).total_progress(),
    {
        proof {
            use_type_invariant(&*self);
        }
        self.allowance = Some(allowance);
    }

    /// Begins a step: it may charge a full chunk again, whatever the step
    /// before it charged.
    pub fn begin_step(&mut self)
        ensures
            final(self).step_spent() == 0,
            final(self).step_limit() == old(self).step_limit(),
            final(self).step_limit() >= 1,
            final(self).total_limit() == old(self).total_limit(),
            final(self).total_charged() == old(self).total_charged(),
            final(self).total_progress() == old(self).total_progress(),
    {
        proof {
            use_type_invariant(&*self);
        }
        self.spent_this_step = 0;
    }

    /// Everything that this operation has spent against its budget.
    pub fn charged(&self) -> (n: u64)
        ensures
            n == self.total_charged(),
    {
        self.charged
    }

    /// Bytes consumed toward this operation's own answer.
    pub fn progressed(&self) -> (n: u64)
        ensures
            n == self.total_progress(),
    {
        self.progressed
    }

    /// Takes back progress that a final step turned out not to need. What was
    /// charged stays: the read happened.
    pub fn give_back_progress(&mut self, excess: u64)
        ensures
            final(self).total_progress() == if old(self).total_progress() >= excess {
                old(self).total_progress() - excess
            } else {
                0
            },
            final(self).step_limit() == old(self).step_limit(),
            final(self).total_limit() == old(self).total_limit(),
            final(self).step_spent() == old(self).step_spent(),
            final(self).total_charged() == old(self).total_charged(),
    {
        proof {
            use_type_invariant(&*self);
        }
        self.progressed = self.progressed.saturating_sub(excess);
    }

    /// Credits progress without a charge, for content that is in hand from an
    /// earlier charge.
    pub fn record_progress(&mut self, amount: u64)
        requires
            old(self).total_progress() + amount <= u64::MAX,
        ensures
            final(self).total_progress() == old(self).total_progress() + amount,
            final(self).step_limit() == old(self).step_limit(),
            final(self).total_limit() == old(self).total_limit(),
            final(self).step_spent() == old(self).step_spent(),
            final(self).total_charged() == old(self).total_charged(),
    {
        proof {
            use_type_invariant(&*self);
        }
        self.progressed = self.progressed + amount;
    }

    /// The witness that a resumable step needs to report more to do: there is
    /// one exactly when something was charged since the step began.
    pub fn progress_witness(&self) -> (r: Result<Charged, NoProgress>)
        ensures
            r is Ok <==> self.step_spent() > 0,
    {
        if self.spent_this_step > 0 {
            Ok(Charged(()))
        } else {
            Err(NoProgress)
        }
    }

    /// Whether this step's or this operation's limit is reached.
    pub fn out_of_budget(&self) -> (r: bool)
        ensures
            r == self.is_spent(),
    {
        proof {
            use_type_invariant(self);
        }
        self.spent_this_step >= self.chunk || match self.allowance {
            Some(a) => self.charged >= a,
            None => false,
        }
    }

    /// Charges `amount` as `kind`.
    pub fn charge(&mut self, amount: usize, kind: Charge)
        requires
            old(self).can_charge(amount as int, kind),
        ensures
            final(self).after_charge(*old(self), amount as int, kind),
    {
        proof {
            use_type_invariant(&*self);
        }
        self.spent_this_step = self.spent_this_step + amount;
        self.charged = self.charged + amount as u64;
        if kind == Charge::Payload {
            self.progressed = self.progressed + amount as u64;
        }
    }
}

/// Evidence that nothing real exists at or above a position. It is made only in
/// this module, from a read that came back empty or from a block whose end the
/// source certified; it is never derived from the size that a source claims,
/// which may overstate a truncated source for ever.
///
/// The position is an upper bound of the real end. It is exactly the real end
/// where real bytes lie right below it: for [`BlockJump::ContentBelow`] and for
/// the end that a short answer carries.
#[derive(Debug, Clone, Copy, PartialEq, Eq, Structural)]
pub struct CertifiedEnd(u64);

impl CertifiedEnd {
    /// The certified position.
    pub closed spec fn position(self) -> int {
        self.0 as int
    }

    /// The certified position.
    pub fn at(self) -> (p: u64)
        ensures
            p == self.position(),
    {
        self.0
    }
}

/// Whether an end-of-data observation also allows jumping a whole block.
#[derive(Debug, Clone, Copy, PartialEq, Eq, Structural)]
pub enum BlockJump {
    /// The whole block is empty: a descent may jump to its start in one step.
    Safe,
    /// The block holds real content below the position; a descent must not jump
    /// past it.
    ContentBelow,
}

/// What one touch of the block cache returned.
#[derive(Debug)]
pub enum Fetched {
    /// Bytes arrived and no shortfall was observed; more may exist past them.
    Bytes { got: bytes::Bytes, whole_block: Block, block_start: u64 },
    /// The bytes ran to the end of a block that is not full, or the position
    /// lies past such a block's content (then `got` is empty). That is no
    /// evidence of the end of the data: `end` is there only where the source
    /// itself certified that its data ends with this block.
    Short {
        got: bytes::Bytes,
        whole_block: Block,
        block_start: u64,
        end: Option<CertifiedEnd>,
    },
    /// There is nothing at this position, and the block offers nothing more.
    Empty { end: CertifiedEnd, block_start: u64, jump: BlockJump },
}

/// The result of one budgeted read, already charged.
#[must_use]
#[derive(Debug)]
pub enum ReadOutcome {
    Bytes { got: bytes::Bytes, whole_block: Block, block_start: u64 },
    Short { got: bytes::Bytes, whole_block: Block, block_start: u64 },
    Empty { end: CertifiedEnd, block_start: u64, jump: BlockJump },
    /// The budget ran out before this read: nothing was touched or charged.
    OutOfBudget,
}

impl vstd::std_specs::convert::FromSpecImpl<Fetched> for ReadOutcome {
    open spec fn obeys_from_spec() -> bool {
        true
    }

    open spec fn from_spec(f: Fetched) -> ReadOutcome {
        match f {
            Fetched::Bytes { got, whole_block, block_start } => ReadOutcome::Bytes {
                got,
                whole_block,
                block_start,
            },
            Fetched::Short { got, whole_block, block_start, end } => ReadOutcome::Short {
                got,
                whole_block,
                block_start,
            },
            Fetched::Empty { end, block_start, jump } => ReadOutcome::Empty {
                end,
                block_start,
                jump,
            },
        }
    }
}

impl From<Fetched> for ReadOutcome {
    fn from(f: Fetched) -> (r: ReadOutcome) {
        match f {
            Fetched::Bytes { got, whole_block, block_start } => ReadOutcome::Bytes {
                got,
                whole_block,
                block_start,
            },
            // the certified end is left out: it can be read off the block.
            Fetched::Short { got, whole_block, block_start, end: _ } => ReadOutcome::Short {
                got,
                whole_block,
                block_start,
            },
            Fetched::Empty { end, block_start, jump } => ReadOutcome::Empty {
                end,
                block_start,
                jump,
            },
        }
    }
}

/// `after` is the meter `before` once it has passed over the span from `lo` up to
/// `hi`.
pub open spec fn passes_over(before: Meter, after: Meter, lo: int, hi: int) -> bool {
    after.after_charge(before, hi - lo, Charge::Bookkeeping)
}

/// Which block a read needs, and how it touches it.
#[derive(Debug, Clone, Copy, PartialEq, Eq, Structural)]
pub struct Touch {
    pub index: u64,
    pub access: Access,
}

/// Which block holds position `at`.
pub open spec fn index_of(block_size: int, at: int) -> int {
    at / block_size
}

/// Where the block that holds position `at` starts.
pub open spec fn start_of_block(block_size: int, at: int) -> int {
    at / block_size * block_size
}

/// How many bytes of `block` lie at or past position `at`.
pub open spec fn available(block_size: int, at: int, block: Block) -> int {
    let past = at - start_of_block(block_size, at);
    if past >= block@.len() {
        0
    } else {
        block@.len() - past
    }
}

/// How many bytes a read of `want` bytes at `at` delivers.
pub open spec fn delivered(block_size: int, at: int, want: int, block: Block) -> int {
    if available(block_size, at, block) < want {
        available(block_size, at, block)
    } else {
        want
    }
}

/// The bytes that a read of `want` bytes at `at` delivers.
pub open spec fn delivered_bytes(block_size: int, at: int, want: int, block: Block) -> Seq<u8> {
    let n = delivered(block_size, at, want, block);
    if n == 0 {
        Seq::empty()
    } else {
        let lo = at - start_of_block(block_size, at);
        block@.subrange(lo, lo + n)
    }
}

/// `f` is the right reading of `block` for a read of `want` bytes at `at`.
pub open spec fn classified(
    block_size: int,
    at: int,
    want: int,
    block: Block,
    f: Fetched,
) -> bool {
    let start = start_of_block(block_size, at);
    let bytes = delivered_bytes(block_size, at, want, block);
    let is_short = block@.len() < block_size;
    // the read takes everything that the block has at or past its position.
    let runs_out = bytes.len() == available(block_size, at, block);
    match f {
        Fetched::Empty { end, block_start, jump } => {
            &&& block_start == start
            &&& if block@.len() == 0 {
                end.position() == at && jump == BlockJump::Safe
            } else {
                &&& bytes.len() == 0 && is_short && block.is_end()
                &&& end.position() == start + block@.len() && jump == BlockJump::ContentBelow
            }
        },
        Fetched::Short { got, whole_block, block_start, end } => {
            &&& block_start == start && whole_block == block && block::contents(got) == bytes
            &&& block@.len() > 0
            &&& if bytes.len() == 0 {
                end is None && !(is_short && block.is_end())
            } else {
                &&& runs_out && is_short
                &&& block.is_end() <==> end is Some
                &&& end matches Some(e) ==> e.position() == start + block@.len()
            }
        },
        Fetched::Bytes { got, whole_block, block_start } => {
            &&& block_start == start && whole_block == block && block::contents(got) == bytes
            &&& bytes.len() > 0 && !(runs_out && is_short)
        },
    }
}

/// Which block a read at `at` needs, unless the read is refused: a refused read
/// touches no block.
pub fn touch(block_size: usize, at: u64, access: Access, refuse: bool) -> (r: Option<Touch>)
    requires
        block_size > 0,
    ensures
        r is None <==> refuse,
        r matches Some(t) ==> t.index == at as int / block_size as int && t.access == access,
        r matches Some(t) ==> t.index == index_of(block_size as int, at as int),
{
    if refuse {
        return None;
    }
    Some(Touch { index: at / block_size as u64, access })
}

/// Reads `want` bytes at `at` off the block that [`touch`] asked for, and says
/// how many of them there were. `refuse` is the whole budget decision: a refused
/// read yields nothing, whatever block is at hand.
pub fn classify(block_size: usize, at: u64, want: usize, block: Block, refuse: bool) -> (r: Option<
    (Fetched, usize),
>)
    requires
        block_size > 0,
        !refuse ==> want > 0 && start_of_block(block_size as int, at as int) + block@.len()
            <= u64::MAX,
    ensures
        r is None <==> refuse,
        r matches Some(p) ==> {
            &&& classified(block_size as int, at as int, want as int, block, p.0)
            &&& p.1 == delivered(block_size as int, at as int, want as int, block)
        },
{
    if refuse {
        return None;
    }
    let bs: u64 = block_size as u64;
    let idx: u64 = at / bs;
    proof {
        vstd::arithmetic::div_mod::lemma_fundamental_div_mod(at as int, bs as int);
        vstd::arithmetic::div_mod::lemma_mod_bound(at as int, bs as int);
        assert(bs * idx == idx * bs) by (nonlinear_arith);
    }
    let block_start: u64 = idx * bs;
    let len: usize = block.len();
    if len == 0 {
        return Some(
            (Fetched::Empty { end: CertifiedEnd(at), block_start, jump: BlockJump::Safe }, 0),
        );
    }
    // only a block that is not full can be the last one; a full block that has
    // fewer bytes than wanted says nothing about the end of the data.
    let is_short: bool = len < block_size;
    let past: usize = (at - block_start) as usize;
    let lo: usize = if past < len {
        past
    } else {
        len
    };
    let left: usize = len - lo;
    let take: usize = if left < want {
        left
    } else {
        want
    };
    if take == 0 {
        if is_short && block.ends_data() {
            return Some(
                (
                    Fetched::Empty {
                        end: CertifiedEnd(block_start + len as u64),
                        block_start,
                        jump: BlockJump::ContentBelow,
                    },
                    0,
                ),
            );
        }
        return Some(
            (
                Fetched::Short {
                    got: bytes::Bytes::new(),
                    whole_block: block,
                    block_start,
                    end: None,
                },
                0,
            ),
        );
    }
    let got: bytes::Bytes = block.slice(lo, lo + take);
    if take == left && is_short {
        let end: Option<CertifiedEnd> = if block.ends_data() {
            Some(CertifiedEnd(block_start + len as u64))
        } else {
            None
        };
        Some((Fetched::Short { got, whole_block: block, block_start, end }, take))
    } else {
        Some((Fetched::Bytes { got, whole_block: block, block_start }, take))
    }
}

/// The only read that a budgeted loop performs: it borrows the operation's meter
/// for its whole life, so every read is a charged read.
///
/// A read has two halves. [`Reader::touch`] says which block it needs, or that
/// it is refused; whoever holds the block cache fetches that block; and
/// [`Reader::read_at`] settles the read.
pub struct Reader<'a> {
    pub block_size: usize,
    pub meter: &'a mut Meter,
}

impl<'a> Reader<'a> {
    /// The state of the borrowed meter.
    pub open spec fn now(&self) -> Meter {
        *self.meter
    }

    pub fn new(block_size: usize, meter: &'a mut Meter) -> (r: Reader<'a>)
        requires
            block_size > 0,
        ensures
            r.block_size == block_size,
            *r.meter == *old(meter),
            *final(r.meter) == *final(meter),
    {
        Reader { block_size, meter }
    }

    /// Which block a budgeted read at `at` needs; nothing once the budget is
    /// spent, so that a refused read touches no block.
    pub fn touch(&self, at: u64, access: Access) -> (r: Option<Touch>)
        requires
            self.block_size > 0,
        ensures
            r is None <==> self.now().is_spent(),
            r matches Some(t) ==> t.index == at as int / self.block_size as int && t.access
                == access,
            r matches Some(t) ==> t.index == index_of(self.block_size as int, at as int),
    {
        touch(self.block_size, at, access, self.meter.out_of_budget())
    }

    /// Settles a read of up to `want` bytes at `at`: reads them off the block
    /// that [`Reader::touch`] asked for and charges them as `kind`. Once the
    /// budget is spent it reads and charges nothing.
    pub fn read_at(&mut self, at: u64, want: usize, kind: Charge, block: Block) -> (r: ReadOutcome)
        requires
            old(self).block_size > 0,
            !old(self).meter.is_spent() ==> {
                &&& want > 0
                &&& start_of_block(old(self).block_size as int, at as int) + block@.len()
                    <= u64::MAX
                &&& old(self).meter.can_charge(
                    delivered(old(self).block_size as int, at as int, want as int, block),
                    kind,
                )
            },
        ensures
            final(self).block_size == old(self).block_size,
            *final(final(self).meter) == *final(old(self).meter),
            r is OutOfBudget <==> old(self).meter.is_spent(),
            r is OutOfBudget ==> *final(self).meter == *old(self).meter,
            !(r is OutOfBudget) ==> {
                &&& exists|f: Fetched|
                    {
                        &&& #[trigger] classified(
                            old(self).block_size as int,
                            at as int,
                            want as int,
                            block,
                            f,
                        )
                        &&& r == <ReadOutcome as vstd::std_specs::convert::FromSpec<
                            Fetched,
                        >>::from_spec(f)
                    }
                &&& final(self).meter.after_charge(
                    *old(self).meter,
                    delivered(old(self).block_size as int, at as int, want as int, block),
                    kind,
                )
            },
    {
        match classify(self.block_size, at, want, block, self.meter.out_of_budget()) {
            None => ReadOutcome::OutOfBudget,
            Some((fetched, amount)) => {
                self.meter.charge(amount, kind);
                ReadOutcome::from(fetched)
            },
        }
    }

    /// Settles a read that no budget refuses: the same reading, charged all the
    /// same.
    pub fn read_at_unbounded(&mut self, at: u64, want: usize, kind: Charge, block: Block) -> (r:
        Fetched)
        requires
            old(self).block_size > 0,
            want > 0,
            start_of_block(old(self).block_size as int, at as int) + block@.len() <= u64::MAX,
            old(self).meter.can_charge(
                delivered(old(self).block_size as int, at as int, want as int, block),
                kind,
            ),
        ensures
            final(self).block_size == old(self).block_size,
            *final(final(self).meter) == *final(old(self).meter),
            classified(old(self).block_size as int, at as int, want as int, block, r),
            final(self).meter.after_charge(
                *old(self).meter,
                delivered(old(self).block_size as int, at as int, want as int, block),
                kind,
            ),
    {
        let (fetched, amount) = classify(self.block_size, at, want, block, false).unwrap();
        self.meter.charge(amount, kind);
        fetched
    }

    /// Charges a span that a descent passes over without reading it, from
    /// `from` down to `to`, as bookkeeping. A target that does not lie strictly
    /// below is rejected: a descent that stays where it is would never end.
    pub fn skip(&mut self, from: u64, to: u64) -> (r: Result<(), NotMonotone>)
        requires
            to < from ==> from - to <= usize::MAX && old(self).meter.can_charge(
                from - to,
                Charge::Bookkeeping,
            ),
        ensures
            final(self).block_size == old(self).block_size,
            *final(final(self).meter) == *final(old(self).meter),
            r is Ok <==> to < from,
            r is Ok ==> final(self).meter.after_charge(
                *old(self).meter,
                from - to,
                Charge::Bookkeeping,
            ),
            r is Ok ==> passes_over(*old(self).meter, *final(self).meter, to as int, from as int),
            r is Ok ==> final(self).meter.step_spent() > 0,
            r is Err ==> *final(self).meter == *old(self).meter,
    {
        if to >= from {
            return Err(NotMonotone);
        }
        self.meter.charge((from - to) as usize, Charge::Bookkeeping);
        Ok(())
    }

    /// Charges a span that an ascending loop passes over without reading it,
    /// from `from` up to `to`, as bookkeeping. A target that does not lie
    /// strictly above is rejected.
    pub fn skip_ahead(&mut self, from: u64, to: u64) -> (r: Result<(), NotMonotone>)
        requires
            to > from ==> to - from <= usize::MAX && old(self).meter.can_charge(
                to - from,
                Charge::Bookkeeping,
            ),
        ensures
            final(self).block_size == old(self).block_size,
            *final(final(self).meter) == *final(old(self).meter),
            r is Ok <==> to > from,
            r is Ok ==> final(self).meter.after_charge(
                *old(self).meter,
                to - from,
                Charge::Bookkeeping,
            ),
            r is Ok ==> passes_over(*old(self).meter, *final(self).meter, from as int, to as int),
            r is Ok ==> final(self).meter.step_spent() > 0,
            r is Err ==> *final(self).meter == *old(self).meter,
    {
        if to <= from {
            return Err(NotMonotone);
        }
        self.meter.charge((to - from) as usize, Charge::Bookkeeping);
        Ok(())
    }

    /// Whether the budget is spent, without an attempt to read.
    pub fn out_of_budget(&self) -> (r: bool)
        ensures
            r == self.now().is_spent(),
    {
        self.meter.out_of_budget()
    }

    /// See [`Meter::progress_witness`].
    pub fn progress_witness(&self) -> (r: Result<Charged, NoProgress>)
        ensures
            r is Ok <==> self.now().step_spent() > 0,
    {
        self.meter.progress_witness()
    }

    /// See [`Meter::give_back_progress`].
    pub fn give_back_progress(&mut self, excess: u64)
        ensures
            final(self).block_size == old(self).block_size,
            *final(final(self).meter) == *final(old(self).meter),
            final(self).meter.total_progress() == if old(self).meter.total_progress() >= excess {
                old(self).meter.total_progress() - excess
            } else {
                0
            },
            final(self).meter.step_limit() == old(self).meter.step_limit(),
            final(self).meter.total_limit() == old(self).meter.total_limit(),
            final(self).meter.step_spent() == old(self).meter.step_spent(),
            final(self).meter.total_charged() == old(self).meter.total_charged(),
    {
        self.meter.give_back_progress(excess);
    }

    /// See [`Meter::record_progress`].
    pub fn record_progress(&mut self, amount: u64)
        requires
            old(self).meter.total_progress() + amount <= u64::MAX,
        ensures
            final(self).block_size == old(self).block_size,
            *final(final(self).meter) == *final(old(self).meter),
            final(self).meter.total_progress() == old(self).meter.total_progress() + amount,
            final(self).meter.step_limit() == old(self).meter.step_limit(),
            final(self).meter.total_limit() == old(self).meter.total_limit(),
            final(self).meter.step_spent() == old(self).meter.step_spent(),
            final(self).meter.total_charged() == old(self).meter.total_charged(),
    {
        self.meter.record_progress(amount);
    }
}

// ---------------------------------------------------------------------------
// What holds of every read.

/// `block` is a truthful answer for the block `index` of a source that holds
/// `data`: it holds the bytes that lie there, possibly fewer than there are; an
/// empty one says that nothing lies at its start or above; and one that claims
/// to end the data does.
pub open spec fn truthful(block_size: int, data: Seq<u8>, index: int, block: Block) -> bool {
    let start = index * block_size;
    &&& block@.len() <= block_size
    &&& block@.len() > 0 ==> start + block@.len() <= data.len() && block@ == data.subrange(
        start,
        start + block@.len(),
    )
    &&& block@.len() == 0 ==> data.len() <= start
    &&& block.is_end() && block@.len() > 0 ==> data.len() == start + block@.len()
}

/// `block` is a truthful answer that holds all the bytes that lie there.
pub open spec fn complete(block_size: int, data: Seq<u8>, index: int, block: Block) -> bool {
    let start = index * block_size;
    &&& truthful(block_size, data, index, block)
    &&& block@.len() == block_size || block@.len() >= data.len() - start
}

/// A certified end is sound: no data lies at or above it, and where real bytes
/// were seen below it, it is exactly the end of the data.
pub proof fn law_certified_ends_are_sound(
    block_size: int,
    data: Seq<u8>,
    at: int,
    want: int,
    block: Block,
    f: Fetched,
)
    requires
        block_size > 0,
        0 <= at,
        want > 0,
        truthful(block_size, data, at / block_size, block),
        classified(block_size, at, want, block, f),
    ensures
        f matches Fetched::Empty { end, jump, .. } ==> {
            &&& data.len() <= end.position()
            &&& jump == BlockJump::ContentBelow ==> data.len() == end.position()
            &&& jump == BlockJump::Safe ==> data.len() <= start_of_block(block_size, at)
        },
        f matches Fetched::Short { end: Some(e), .. } ==> data.len() == e.position(),
{
    vstd::arithmetic::div_mod::lemma_fundamental_div_mod(at, block_size);
    vstd::arithmetic::div_mod::lemma_mod_bound(at, block_size);
    assert(block_size * (at / block_size) == at / block_size * block_size) by (nonlinear_arith);
}

/// A short length certifies nothing: an end comes only from a block that was
/// empty or whose end the source certified.
pub proof fn law_a_short_length_certifies_nothing(
    block_size: int,
    at: int,
    want: int,
    block: Block,
    f: Fetched,
)
    requires
        classified(block_size, at, want, block, f),
        block@.len() > 0,
        !block.is_end(),
    ensures
        !(f is Empty),
        f matches Fetched::Short { end, .. } ==> end is None,
{
}

/// A read delivers the bytes that lie at its position, and never more than were
/// asked for.
pub proof fn law_reads_deliver_the_data(
    block_size: int,
    data: Seq<u8>,
    at: int,
    want: int,
    block: Block,
)
    requires
        block_size > 0,
        0 <= at,
        want > 0,
        truthful(block_size, data, at / block_size, block),
    ensures
        ({
            let n = delivered(block_size, at, want, block);
            &&& 0 <= n <= want
            &&& n > 0 ==> at + n <= data.len() && delivered_bytes(block_size, at, want, block)
                == data.subrange(at, at + n)
        }),
{
    vstd::arithmetic::div_mod::lemma_fundamental_div_mod(at, block_size);
    vstd::arithmetic::div_mod::lemma_mod_bound(at, block_size);
    assert(block_size * (at / block_size) == at / block_size * block_size) by (nonlinear_arith);
    let n = delivered(block_size, at, want, block);
    if n > 0 {
        assert(delivered_bytes(block_size, at, want, block) =~= data.subrange(at, at + n));
    }
}

/// A total limit, once reached, is reached for good: whatever is charged later
/// and however many steps begin, the operation stays out of budget, so a limit
/// that several phases share bounds all of them together.
pub proof fn law_a_spent_allowance_stays_spent(before: Meter, after: Meter)
    requires
        before.total_limit() matches Some(a) && before.total_charged() >= a,
        after.total_limit() == before.total_limit(),
        after.total_charged() >= before.total_charged(),
    ensures
        after.is_spent(),
{
}

/// An operation overshoots its limits by less than the last read that it was
/// allowed.
pub proof fn law_overshoot_is_less_than_one_read(
    before: Meter,
    after: Meter,
    amount: int,
    kind: Charge,
)
    requires
        !before.is_spent(),
        after.after_charge(before, amount, kind),
    ensures
        after.step_spent() < after.step_limit() + amount,
        after.total_limit() matches Some(a) ==> after.total_charged() < a + amount,
{
}

/// What a meter counts is never negative, and one step may always charge
/// something.
pub proof fn law_a_meter_counts_from_zero(m: Meter)
    ensures
        m.step_limit() >= 1,
        m.step_spent() >= 0,
        m.total_charged() >= 0,
        m.total_progress() >= 0,
{
}

/// Lifting the limit of an operation lets it go on: a step begun afterwards may
/// charge, whatever was charged before, and nothing that was counted is lost.
/// `lifted` is the meter after its limit was dropped, `begun` after the next
/// step began.
pub proof fn law_a_lifted_allowance_lets_the_next_step_charge(
    before: Meter,
    lifted: Meter,
    begun: Meter,
)
    requires
        lifted.total_limit() is None,
        lifted.step_limit() == before.step_limit(),
        lifted.total_charged() == before.total_charged(),
        lifted.total_progress() == before.total_progress(),
        begun.step_spent() == 0,
        begun.step_limit() == lifted.step_limit(),
        begun.total_limit() == lifted.total_limit(),
        begun.total_charged() == lifted.total_charged(),
        begun.total_progress() == lifted.total_progress(),
    ensures
        !begun.is_spent(),
        begun.total_charged() == before.total_charged(),
        begun.total_progress() == before.total_progress(),
{
    law_a_meter_counts_from_zero(before);
}

/// A charge of anything at all earns the witness of progress: the step has
/// spent something, whatever it had spent before.
pub proof fn law_a_charge_is_progress(before: Meter, after: Meter, amount: int, kind: Charge)
    requires
        after.after_charge(before, amount, kind),
        amount > 0,
    ensures
        after.step_spent() > 0,
{
}

/// Where the block that holds a position starts: at a multiple of the block size,
/// and by less than that before the position.
pub proof fn law_a_block_starts_right_before_its_positions(block_size: int, at: int)
    requires
        block_size > 0,
        0 <= at,
    ensures
        start_of_block(block_size, at) <= at < start_of_block(block_size, at) + block_size,
        start_of_block(block_size, at) % block_size == 0,
        0 <= start_of_block(block_size, at),
{
    vstd::arithmetic::div_mod::lemma_fundamental_div_mod(at, block_size);
    vstd::arithmetic::div_mod::lemma_mod_bound(at, block_size);
    assert(block_size * (at / block_size) == at / block_size * block_size) by (nonlinear_arith);
    vstd::arithmetic::div_mod::lemma_mod_multiples_basic(at / block_size, block_size);
    vstd::arithmetic::div_mod::lemma_div_pos_is_pos(at, block_size);
    assert(0 <= at / block_size * block_size) by (nonlinear_arith)
        requires
            0 <= at / block_size,
            block_size > 0,
    ;
}

/// A read misses nothing: off a block that holds all the bytes that lie there it
/// delivers the bytes of the file at its position, as many as were asked for, up
/// to the end of the block or of the file; and it carries the block that they are
/// from, and where that starts.
pub proof fn law_a_read_delivers_all_there_is(
    block_size: int,
    data: Seq<u8>,
    at: int,
    want: int,
    block: Block,
    f: Fetched,
    start: int,
)
    requires
        block_size > 0,
        0 <= at,
        want > 0,
        start <= at < start + block_size,
        start % block_size == 0,
        complete(block_size, data, at / block_size, block),
        classified(block_size, at, want, block, f),
    ensures
        ({
            let to_end = if data.len() < start + block_size {
                data.len() as int
            } else {
                start + block_size
            };
            let stop = if at + want < to_end {
                at + want
            } else {
                to_end
            };
            match f {
                Fetched::Bytes { got, whole_block, block_start } => {
                    &&& at < stop && block::contents(got) == data.subrange(at, stop)
                    &&& whole_block == block && block_start == start
                    &&& stop < data.len() || data.len() == start + block_size
                },
                Fetched::Short { got, whole_block, block_start, end } => {
                    &&& whole_block == block && block_start == start
                    &&& at < data.len() ==> block::contents(got) == data.subrange(at, stop)
                    &&& at >= data.len() ==> block::contents(got).len() == 0
                    &&& block.is_end() && at < data.len() ==> (end matches Some(e) && e.position()
                        == data.len())
                },
                Fetched::Empty { end, block_start, jump } => {
                    &&& at >= data.len() && block_start == start
                    &&& block@.len() == 0 ==> end.position() == at && jump == BlockJump::Safe
                    &&& block@.len() > 0 ==> end.position() == data.len() && jump
                        == BlockJump::ContentBelow
                },
            }
        }),
        at < data.len() ==> (f is Short <==> at + want >= data.len() && data.len() < start
            + block_size),
        at >= data.len() ==> (f is Empty <==> block@.len() == 0 || block.is_end()),
        delivered(block_size, at, want, block) == if at >= data.len() {
            0
        } else if at + want < data.len() && at + want < start + block_size {
            want
        } else if data.len() < start + block_size {
            data.len() - at
        } else {
            start + block_size - at
        },
{
    law_a_block_starts_right_before_its_positions(block_size, at);
    lemma_one_block(block_size, at, start);
    let s = start_of_block(block_size, at);
    assert(s == start);
    let n = delivered(block_size, at, want, block);
    law_reads_deliver_the_data(block_size, data, at, want, block);
    if n > 0 {
        assert(delivered_bytes(block_size, at, want, block) == data.subrange(at, at + n));
    }
}

/// There is one multiple of the block size by less than it before a position.
proof fn lemma_one_block(block_size: int, at: int, start: int)
    requires
        block_size > 0,
        start <= at < start + block_size,
        start % block_size == 0,
    ensures
        start == at / block_size * block_size,
{
    vstd::arithmetic::div_mod::lemma_fundamental_div_mod(at, block_size);
    vstd::arithmetic::div_mod::lemma_mod_bound(at, block_size);
    vstd::arithmetic::div_mod::lemma_fundamental_div_mod(start, block_size);
    let q = at / block_size;
    let k = start / block_size;
    assert(q == k) by (nonlinear_arith)
        requires
            block_size > 0,
            start == block_size * k,
            start <= at < start + block_size,
            at == block_size * q + at % block_size,
            0 <= at % block_size < block_size,
    ;
    assert(block_size * q == q * block_size) by (nonlinear_arith);
}

/// A budgeted read that is settled carries what was read: the same bytes, block
/// and place as the reading that it comes from.
pub proof fn law_a_settled_read_carries_what_was_read(f: Fetched, r: ReadOutcome)
    requires
        r == <ReadOutcome as vstd::std_specs::convert::FromSpec<Fetched>>::from_spec(f),
    ensures
        match f {
            Fetched::Bytes { got, whole_block, block_start } => r == (ReadOutcome::Bytes {
                got,
                whole_block,
                block_start,
            }),
            Fetched::Short { got, whole_block, block_start, .. } => r == (ReadOutcome::Short {
                got,
                whole_block,
                block_start,
            }),
            Fetched::Empty { end, block_start, jump } => r == (ReadOutcome::Empty {
                end,
                block_start,
                jump,
            }),
        },
{
}

/// Charges add up: two charges, one after the other, leave what one charge of
/// their sum leaves, and every counter grows by what was charged, that of the
/// progress only by what is reported.
pub proof fn law_charges_add_up(
    before: Meter,
    mid: Meter,
    both: Meter,
    once: Meter,
    a: int,
    b: int,
    kind: Charge,
)
    requires
        mid.after_charge(before, a, kind),
        both.after_charge(mid, b, kind),
        once.after_charge(before, a + b, kind),
    ensures
        both.step_spent() == once.step_spent() == before.step_spent() + a + b,
        both.total_charged() == once.total_charged() == before.total_charged() + a + b,
        both.total_progress() == once.total_progress(),
        kind == Charge::Payload ==> both.total_progress() == before.total_progress() + a + b,
        kind == Charge::Bookkeeping ==> both.total_progress() == before.total_progress(),
        both.step_limit() == once.step_limit() == before.step_limit(),
        both.total_limit() == before.total_limit(),
        once.total_limit() == before.total_limit(),
{
}

/// A step that begins may charge up to its limit, and an operation up to its own:
/// after a charge the budget is spent exactly where one of the two is reached.
pub proof fn law_a_budget_is_spent_where_a_limit_is_reached(
    begun: Meter,
    after: Meter,
    amount: int,
    kind: Charge,
)
    requires
        begun.step_spent() == 0,
        after.after_charge(begun, amount, kind),
    ensures
        begun.total_limit() is None ==> (after.is_spent() <==> amount >= begun.step_limit()),
        begun.total_limit() matches Some(a) ==> (after.is_spent() <==> amount >= begun.step_limit()
            || begun.total_charged() + amount >= a),
{
}

/// A block holds the positions that it is asked for.
pub proof fn law_a_touched_block_holds_its_position(block_size: int, at: int)
    requires
        block_size > 0,
        0 <= at,
    ensures
        index_of(block_size, at) * block_size <= at < (index_of(block_size, at) + 1) * block_size,
        index_of(block_size, at) * block_size == start_of_block(block_size, at),
{
    law_a_block_starts_right_before_its_positions(block_size, at);
    let k = at / block_size;
    assert((k + 1) * block_size == k * block_size + block_size) by (nonlinear_arith);
}

/// An operation that starts has its whole budget: it is refused nothing, unless
/// it may charge nothing at all, and its first step is over once it has charged
/// its chunk, or the whole operation its allowance, whichever comes first.
pub proof fn law_an_operation_starts_with_its_budget(
    m: Meter,
    after: Meter,
    chunk: usize,
    allowance: Option<u64>,
    amount: int,
    kind: Charge,
)
    requires
        m.starts(chunk as int, allowance),
        amount > 0,
        after.after_charge(m, amount, kind),
    ensures
        m.is_spent() <==> allowance == Some(0u64),
        after.is_spent() <==> amount >= chunk || (allowance matches Some(a) && amount >= a),
        after.total_charged() == amount,
        after.total_progress() == if kind == Charge::Payload {
            amount
        } else {
            0
        },
{
}

/// Passing over a span charges every byte of it, however it is cut: two spans one
/// after the other charge what the whole charges, and none of it is progress.
pub proof fn law_a_span_is_charged_byte_by_byte(
    before: Meter,
    mid: Meter,
    both: Meter,
    once: Meter,
    lo: int,
    cut: int,
    hi: int,
)
    requires
        passes_over(before, mid, lo, cut),
        passes_over(mid, both, cut, hi),
        passes_over(before, once, lo, hi),
    ensures
        both.total_charged() == once.total_charged() == before.total_charged() + (hi - lo),
        both.step_spent() == once.step_spent() == before.step_spent() + (hi - lo),
        both.total_progress() == once.total_progress() == before.total_progress(),
{
}

}
