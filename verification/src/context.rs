//! Gathering a little context around the fetched rows, so that their edges are
//! not mistaken for the edges of a line or of the file.
//!
//! Both gathers work block by block. Each says which block it needs next;
//! whoever holds the block cache fetches that block and hands it over.
use vstd::prelude::*;

use crate::block::Block;
use crate::meter;
use crate::search;
use crate::utf8;

verus! {

/// Gathers up to [`search::CTX_BEHIND`] bytes right before a position, walking
/// down block by block.
#[derive(Debug)]
pub struct ContextBehind {
    block_size: usize,
    top: u64,
    want_from: u64,
    at: u64,
    bytes: Vec<u8>,
    done: bool,
}

impl ContextBehind {
    /// The position before which the context lies.
    pub closed spec fn top(&self) -> int {
        self.top as int
    }

    /// The block size of the cache.
    pub closed spec fn block_size(&self) -> int {
        self.block_size as int
    }

    /// Where the gathered bytes start.
    pub closed spec fn start(&self) -> int {
        self.at as int
    }

    /// The gathered bytes.
    pub closed spec fn gathered(&self) -> Seq<u8> {
        self.bytes@
    }

    /// Nothing more is to be gathered.
    pub closed spec fn finished(&self) -> bool {
        self.done
    }

    /// Where the context may start at the earliest.
    pub open spec fn earliest(&self) -> int {
        search::greater(self.top() - search::CTX_BEHIND, 0)
    }

    /// The gathered bytes lie right before the position, and no more of them
    /// were gathered than wanted.
    pub closed spec fn wf(&self) -> bool {
        &&& self.block_size > 0
        &&& self.want_from == search::greater(self.top - search::CTX_BEHIND, 0)
        &&& self.want_from <= self.at <= self.top
        &&& self.at + self.bytes@.len() == self.top
        &&& self.at == self.want_from ==> self.done
    }

    /// This gather becomes `after` when it takes `block`. A block that does not
    /// reach up to what was gathered leaves a gap, so nothing of it is taken and
    /// the gathering ends: what lies below a gap is not next to the position.
    pub open spec fn takes(&self, block: Block, after: ContextBehind) -> bool {
        let start = meter::start_of_block(self.block_size(), self.start() - 1);
        let hi = self.start() - start;
        let lo = search::greater(self.earliest() - start, 0);
        &&& after.block_size() == self.block_size()
        &&& after.top() == self.top()
        &&& if block@.len() < hi {
            &&& after.finished()
            &&& after.start() == self.start()
            &&& after.gathered() == self.gathered()
        } else {
            &&& after.start() == start + lo
            &&& after.start() < self.start()
            &&& after.gathered() == block@.subrange(lo, hi) + self.gathered()
            &&& after.finished() == (after.start() == self.earliest())
        }
    }

    /// This gather of what lies before `top` has not taken anything yet.
    pub open spec fn begins(&self, block_size: int, top: int) -> bool {
        &&& self.wf()
        &&& self.block_size() == block_size
        &&& self.top() == top
        &&& self.start() == top
        &&& self.gathered() == Seq::<u8>::empty()
        &&& self.finished() == (top == 0)
    }

    /// Begins to gather the bytes right before `top`.
    pub fn new(block_size: usize, top: u64) -> (g: ContextBehind)
        requires
            block_size > 0,
        ensures
            g.wf(),
            g.block_size() == block_size,
            g.top() == top,
            g.start() == top,
            g.gathered() == Seq::<u8>::empty(),
            g.finished() == (top == 0),
            g.begins(block_size as int, top as int),
    {
        ContextBehind {
            block_size,
            top,
            want_from: top.saturating_sub(search::CTX_BEHIND as u64),
            at: top,
            bytes: Vec::new(),
            done: top == 0,
        }
    }

    /// Which block is needed next: the one that holds the byte right before
    /// what was gathered.
    pub fn next(&self) -> (r: Option<u64>)
        requires
            self.wf(),
        ensures
            r is None <==> self.finished(),
            r matches Some(i) ==> self.start() > self.earliest() && i == (self.start() - 1)
                / self.block_size(),
            r matches Some(i) ==> i == meter::index_of(self.block_size(), self.start() - 1),
    {
        if self.done {
            None
        } else {
            Some((self.at - 1) / self.block_size as u64)
        }
    }

    /// Takes the bytes that the needed block has.
    pub fn take(&mut self, block: &Block)
        requires
            old(self).wf(),
            !old(self).finished(),
        ensures
            final(self).wf(),
            old(self).takes(*block, *final(self)),
    {
        let bs: u64 = self.block_size as u64;
        let idx: u64 = (self.at - 1) / bs;
        proof {
            vstd::arithmetic::div_mod::lemma_fundamental_div_mod(self.at - 1, bs as int);
            vstd::arithmetic::div_mod::lemma_mod_bound(self.at - 1, bs as int);
            assert(bs * idx == idx * bs) by (nonlinear_arith);
        }
        let block_start: u64 = idx * bs;
        let hi: usize = (self.at - block_start) as usize;
        if block.len() < hi {
            self.done = true;
            return ;
        }
        let lo_at: u64 = if self.want_from < block_start {
            block_start
        } else {
            self.want_from
        };
        let lo: usize = (lo_at - block_start) as usize;
        let mut chunk: Vec<u8> = Vec::new();
        chunk.extend_from_slice(vstd::slice::slice_subrange(block.as_slice(), lo, hi));
        chunk.extend_from_slice(&self.bytes);
        self.bytes = chunk;
        self.at = lo_at;
        self.done = lo_at == self.want_from;
        assert(self.bytes@ =~= block@.subrange(lo as int, hi as int) + old(self).bytes@);
    }

    /// Where the gathered bytes start, and the bytes.
    pub fn finish(self) -> (r: (u64, Vec<u8>))
        requires
            self.wf(),
        ensures
            r.0 == self.start(),
            r.1@ == self.gathered(),
            r.0 + r.1@.len() == self.top(),
            r.1@.len() <= search::CTX_BEHIND,
    {
        (self.at, self.bytes)
    }
}

/// Gathers up to [`search::CONSUMABLE_REACH`] bytes right after a position,
/// block by block.
#[derive(Debug)]
pub struct ContextAhead {
    block_size: usize,
    from: u64,
    want_end: u64,
    at: u64,
    bytes: Vec<u8>,
    hit_real_end: bool,
    done: bool,
}

impl ContextAhead {
    /// The position after which the context lies.
    pub closed spec fn from(&self) -> int {
        self.from as int
    }

    /// The block size of the cache.
    pub closed spec fn block_size(&self) -> int {
        self.block_size as int
    }

    /// Where the context is to end.
    pub closed spec fn latest(&self) -> int {
        self.want_end as int
    }

    /// Where the gathered bytes end.
    pub open spec fn end(&self) -> int {
        self.from() + self.gathered().len()
    }

    /// The gathered bytes.
    pub closed spec fn gathered(&self) -> Seq<u8> {
        self.bytes@
    }

    /// The data was seen to end with the gathered bytes.
    pub closed spec fn saw_end(&self) -> bool {
        self.hit_real_end
    }

    /// Nothing more is to be gathered.
    pub closed spec fn finished(&self) -> bool {
        self.done
    }

    /// The gathered bytes lie right after the position, and no more of them
    /// were gathered than wanted.
    pub closed spec fn wf(&self) -> bool {
        &&& self.block_size > 0
        &&& self.from <= self.at <= self.want_end <= self.from + search::CONSUMABLE_REACH
        &&& self.at == self.from + self.bytes@.len()
        &&& self.at == self.want_end ==> self.done
        &&& self.hit_real_end ==> self.done
    }

    /// This gather becomes `after` when it takes `block`. One that has nothing
    /// to take ends the gathering; it shows the end of the data only if it is
    /// empty, or if the source certified that the data ends with it. That it is
    /// merely shorter than wanted shows nothing.
    pub open spec fn takes(&self, block: Block, after: ContextAhead) -> bool {
        let bytes = meter::delivered_bytes(
            self.block_size(),
            self.end(),
            self.latest() - self.end(),
            block,
        );
        &&& after.block_size() == self.block_size()
        &&& after.from() == self.from()
        &&& after.latest() == self.latest()
        &&& after.gathered() == self.gathered() + bytes
        &&& if bytes.len() == 0 {
            &&& after.finished()
            &&& after.saw_end() == (block@.len() == 0 || block.is_end())
        } else {
            &&& after.finished() == (after.end() == self.latest())
            &&& !after.saw_end()
        }
    }

    /// This gather of what lies after `from`, in a file that claims to have `size`
    /// bytes, has not taken anything yet.
    pub open spec fn begins(&self, block_size: int, from: int, size: int) -> bool {
        &&& self.wf()
        &&& self.block_size() == block_size
        &&& self.from() == from
        &&& self.latest() == search::greater(
            search::less(from + search::CONSUMABLE_REACH, size),
            from,
        )
        &&& self.gathered() == Seq::<u8>::empty()
        &&& self.finished() == (from >= size)
        &&& !self.saw_end()
    }

    /// Begins to gather the bytes right after `from`, in a file that claims to
    /// have `size` bytes.
    pub fn new(block_size: usize, from: u64, size: u64) -> (g: ContextAhead)
        requires
            block_size > 0,
        ensures
            g.wf(),
            g.block_size() == block_size,
            g.from() == from,
            g.latest() == search::greater(
                search::less(from + search::CONSUMABLE_REACH, size as int),
                from as int,
            ),
            g.gathered() == Seq::<u8>::empty(),
            g.finished() == (from >= size),
            !g.saw_end(),
            g.begins(block_size as int, from as int, size as int),
    {
        let want_end: u64 = if from >= size {
            from
        } else if size - from < search::CONSUMABLE_REACH as u64 {
            size
        } else {
            from + search::CONSUMABLE_REACH as u64
        };
        ContextAhead {
            block_size,
            from,
            want_end,
            at: from,
            bytes: Vec::new(),
            hit_real_end: false,
            done: from >= size,
        }
    }

    /// Which block is needed next: the one that holds the byte right after what
    /// was gathered.
    pub fn next(&self) -> (r: Option<u64>)
        requires
            self.wf(),
        ensures
            r is None <==> self.finished(),
            r matches Some(i) ==> self.end() < self.latest() && i == self.end()
                / self.block_size(),
            r matches Some(i) ==> i == meter::index_of(self.block_size(), self.end()),
    {
        if self.done {
            None
        } else {
            Some(self.at / self.block_size as u64)
        }
    }

    /// Takes the bytes that the needed block has.
    pub fn take(&mut self, block: &Block)
        requires
            old(self).wf(),
            !old(self).finished(),
        ensures
            final(self).wf(),
            old(self).takes(*block, *final(self)),
    {
        let bs: u64 = self.block_size as u64;
        let idx: u64 = self.at / bs;
        proof {
            vstd::arithmetic::div_mod::lemma_fundamental_div_mod(self.at as int, bs as int);
            vstd::arithmetic::div_mod::lemma_mod_bound(self.at as int, bs as int);
            assert(bs * idx == idx * bs) by (nonlinear_arith);
        }
        let block_start: u64 = idx * bs;
        let lo: usize = (self.at - block_start) as usize;
        let have: usize = block.len().saturating_sub(lo);
        let want: usize = (self.want_end - self.at) as usize;
        let take: usize = if have < want {
            have
        } else {
            want
        };
        if take == 0 {
            self.hit_real_end = block.is_empty() || block.ends_data();
            self.done = true;
            assert(self.bytes@ =~= self.bytes@ + Seq::<u8>::empty());
            return ;
        }
        self.bytes.extend_from_slice(vstd::slice::slice_subrange(block.as_slice(), lo, lo + take));
        self.at = self.at + take as u64;
        self.done = self.at == self.want_end;
        assert(self.bytes@ =~= old(self).bytes@ + block@.subrange(lo as int, lo + take));
    }

    /// The gathered bytes, and whether the data was seen to end with them.
    pub fn finish(self) -> (r: (Vec<u8>, bool))
        requires
            self.wf(),
        ensures
            r.0@ == self.gathered(),
            r.1 == self.saw_end(),
            r.0@.len() <= search::CONSUMABLE_REACH,
    {
        (self.bytes, self.hit_real_end)
    }
}

// ---------------------------------------------------------------------------
// What holds of gathered context.

/// Context behind a position is what lies right before it: if that holds of
/// what was gathered so far, it holds after a truthful block was taken.
pub proof fn law_context_behind_is_true(
    data: Seq<u8>,
    before: ContextBehind,
    block: Block,
    after: ContextBehind,
)
    requires
        before.block_size() > 0,
        before.earliest() < before.start() <= before.top() <= data.len(),
        before.gathered() == data.subrange(before.start(), before.top()),
        meter::truthful(
            before.block_size(),
            data,
            (before.start() - 1) / before.block_size(),
            block,
        ),
        before.takes(block, after),
    ensures
        before.earliest() <= after.start() <= before.start(),
        after.gathered() == data.subrange(after.start(), before.top()),
{
    let bs = before.block_size();
    let p = before.start() - 1;
    vstd::arithmetic::div_mod::lemma_fundamental_div_mod(p, bs);
    vstd::arithmetic::div_mod::lemma_mod_bound(p, bs);
    assert(bs * (p / bs) == p / bs * bs) by (nonlinear_arith);
    assert(p / bs >= 0) by (nonlinear_arith)
        requires
            p >= 0,
            bs > 0,
    ;
    assert(p / bs * bs >= 0) by (nonlinear_arith)
        requires
            p / bs >= 0,
            bs > 0,
    ;
    assert(after.gathered() =~= data.subrange(after.start(), before.top()));
}

/// Context ahead of a position is what lies right after it, and an end that was
/// seen is the end of the data: if that holds of what was gathered so far, it
/// holds after a truthful block was taken.
pub proof fn law_context_ahead_is_true(
    data: Seq<u8>,
    before: ContextAhead,
    block: Block,
    after: ContextAhead,
)
    requires
        before.block_size() > 0,
        0 <= before.from(),
        before.end() < before.latest(),
        before.end() <= data.len(),
        before.gathered() == data.subrange(before.from(), before.end()),
        meter::truthful(before.block_size(), data, before.end() / before.block_size(), block),
        before.takes(block, after),
    ensures
        after.end() <= data.len(),
        after.gathered() == data.subrange(before.from(), after.end()),
        after.saw_end() ==> data.len() == after.end(),
{
    let bs = before.block_size();
    let at = before.end();
    let want = before.latest() - before.end();
    let bytes = meter::delivered_bytes(bs, at, want, block);
    meter::law_reads_deliver_the_data(bs, data, at, want, block);
    vstd::arithmetic::div_mod::lemma_fundamental_div_mod(at, bs);
    vstd::arithmetic::div_mod::lemma_mod_bound(at, bs);
    assert(bs * (at / bs) == at / bs * bs) by (nonlinear_arith);
    assert(before.gathered() + bytes =~= data.subrange(before.from(), at + bytes.len()));
}

/// `walk` is a gathering of the context behind a position, from its beginning
/// on, and `blocks` are the blocks that it took, one after the other.
pub open spec fn gathers_behind(walk: Seq<ContextBehind>, blocks: Seq<Block>) -> bool {
    &&& walk.len() == blocks.len() + 1
    &&& walk[0].start() == walk[0].top()
    &&& walk[0].finished() == (walk[0].top() == 0)
    &&& forall|i: int| 0 <= i < walk.len() ==> (#[trigger] walk[i]).wf()
    &&& forall|i: int|
        0 <= i < blocks.len() ==> !(#[trigger] walk[i]).finished() && walk[i].takes(
            blocks[i],
            walk[i + 1],
        )
}

/// The blocks of a gathering behind are truthful answers of a source that holds
/// `data`.
pub open spec fn truthful_behind(
    walk: Seq<ContextBehind>,
    blocks: Seq<Block>,
    data: Seq<u8>,
) -> bool {
    forall|i: int|
        0 <= i < blocks.len() ==> meter::truthful(
            walk[i].block_size(),
            data,
            (walk[i].start() - 1) / walk[i].block_size(),
            #[trigger] blocks[i],
        )
}

/// The blocks of a gathering behind hold all the bytes that `data` has there.
pub open spec fn complete_behind(
    walk: Seq<ContextBehind>,
    blocks: Seq<Block>,
    data: Seq<u8>,
) -> bool {
    forall|i: int|
        0 <= i < blocks.len() ==> meter::complete(
            walk[i].block_size(),
            data,
            (walk[i].start() - 1) / walk[i].block_size(),
            #[trigger] blocks[i],
        )
}

/// Each block but the last that a gathering takes brings it at least one byte
/// further down.
proof fn lemma_blocks_bring_bytes(walk: Seq<ContextBehind>, blocks: Seq<Block>, i: int)
    requires
        gathers_behind(walk, blocks),
        0 <= i < blocks.len(),
    ensures
        walk[i].top() == walk[0].top(),
        walk[i].start() <= walk[i].top() - i,
        walk[i].earliest() < walk[i].start(),
    decreases i,
{
    assert(walk[i].wf());
    if i > 0 {
        lemma_blocks_bring_bytes(walk, blocks, i - 1);
        assert(walk[i - 1].takes(blocks[i - 1], walk[i]));
    }
}

/// Gathering the context behind a position takes no more blocks than it gathers
/// bytes, however small the blocks are.
pub proof fn law_context_behind_takes_few_blocks(walk: Seq<ContextBehind>, blocks: Seq<Block>)
    requires
        gathers_behind(walk, blocks),
    ensures
        blocks.len() <= search::CTX_BEHIND,
{
    if blocks.len() > 0 {
        lemma_blocks_bring_bytes(walk, blocks, blocks.len() - 1);
    }
}

proof fn lemma_walk_behind(
    walk: Seq<ContextBehind>,
    blocks: Seq<Block>,
    data: Seq<u8>,
    i: int,
)
    requires
        gathers_behind(walk, blocks),
        truthful_behind(walk, blocks, data),
        walk[0].top() <= data.len(),
        0 <= i < walk.len(),
    ensures
        walk[i].top() == walk[0].top(),
        walk[i].block_size() == walk[0].block_size(),
        walk[i].earliest() <= walk[i].start() <= walk[i].top(),
        walk[i].gathered() == data.subrange(walk[i].start(), walk[i].top()),
    decreases i,
{
    assert(walk[i].wf());
    if i > 0 {
        lemma_walk_behind(walk, blocks, data, i - 1);
        assert(walk[i - 1].wf());
        assert(!walk[i - 1].finished());
        assert(walk[i - 1].takes(blocks[i - 1], walk[i]));
        assert(meter::truthful(
            walk[i - 1].block_size(),
            data,
            (walk[i - 1].start() - 1) / walk[i - 1].block_size(),
            blocks[i - 1],
        ));
        law_context_behind_is_true(data, walk[i - 1], blocks[i - 1], walk[i]);
    } else {
        assert(walk[0].gathered() =~= data.subrange(walk[0].start(), walk[0].top()));
    }
}

/// A whole gathering behind a position is true: from truthful blocks it gathers
/// the bytes of the file right before the position.
pub proof fn law_gathered_context_behind_is_true(
    walk: Seq<ContextBehind>,
    blocks: Seq<Block>,
    data: Seq<u8>,
)
    requires
        gathers_behind(walk, blocks),
        truthful_behind(walk, blocks, data),
        walk[0].top() <= data.len(),
    ensures
        walk.last().top() == walk[0].top(),
        walk[0].earliest() <= walk.last().start() <= walk[0].top(),
        walk.last().gathered() == data.subrange(walk.last().start(), walk[0].top()),
{
    lemma_walk_behind(walk, blocks, data, walk.len() - 1);
}

/// Where every block holds all the bytes that lie there, nothing of the context
/// behind a position is missed: it has as many bytes as one character can have,
/// or as many as there are.
pub proof fn law_complete_blocks_give_all_context_behind(
    walk: Seq<ContextBehind>,
    blocks: Seq<Block>,
    data: Seq<u8>,
)
    requires
        gathers_behind(walk, blocks),
        complete_behind(walk, blocks, data),
        walk[0].top() <= data.len(),
        walk.last().finished(),
    ensures
        walk.last().gathered() == data.subrange(walk[0].earliest(), walk[0].top()),
        walk.last().gathered().len() == search::less(
            walk[0].top(),
            search::CTX_BEHIND as int,
        ),
{
    assert forall|i: int| 0 <= i < blocks.len() implies meter::truthful(
        walk[i].block_size(),
        data,
        (walk[i].start() - 1) / walk[i].block_size(),
        #[trigger] blocks[i],
    ) by {
        assert(meter::complete(
            walk[i].block_size(),
            data,
            (walk[i].start() - 1) / walk[i].block_size(),
            blocks[i],
        ));
    }
    let n = walk.len() - 1;
    lemma_walk_behind(walk, blocks, data, n);
    assert(walk[n].wf());
    if n > 0 {
        let before = walk[n - 1];
        let block = blocks[n - 1];
        lemma_walk_behind(walk, blocks, data, n - 1);
        assert(before.wf());
        assert(!before.finished());
        assert(before.takes(block, walk[n]));
        let bs = before.block_size();
        let p = before.start() - 1;
        assert(meter::complete(bs, data, p / bs, block));
        vstd::arithmetic::div_mod::lemma_fundamental_div_mod(p, bs);
        vstd::arithmetic::div_mod::lemma_mod_bound(p, bs);
        assert(bs * (p / bs) == p / bs * bs) by (nonlinear_arith);
        assert(walk[n].start() == walk[n].earliest());
    }
}

/// `walk` is a gathering of the context ahead of a position, from its beginning
/// on, and `blocks` are the blocks that it took, one after the other.
pub open spec fn gathers_ahead(walk: Seq<ContextAhead>, blocks: Seq<Block>) -> bool {
    &&& walk.len() == blocks.len() + 1
    &&& walk[0].gathered() == Seq::<u8>::empty()
    &&& !walk[0].saw_end()
    &&& walk[0].finished() == (walk[0].from() == walk[0].latest())
    &&& forall|i: int| 0 <= i < walk.len() ==> (#[trigger] walk[i]).wf()
    &&& forall|i: int|
        0 <= i < blocks.len() ==> !(#[trigger] walk[i]).finished() && walk[i].takes(
            blocks[i],
            walk[i + 1],
        )
}

/// The blocks of a gathering ahead are truthful answers of a source that holds
/// `data`.
pub open spec fn truthful_ahead(
    walk: Seq<ContextAhead>,
    blocks: Seq<Block>,
    data: Seq<u8>,
) -> bool {
    forall|i: int|
        0 <= i < blocks.len() ==> meter::truthful(
            walk[i].block_size(),
            data,
            walk[i].end() / walk[i].block_size(),
            #[trigger] blocks[i],
        )
}

/// The blocks of a gathering ahead hold all the bytes that `data` has there.
pub open spec fn complete_ahead(
    walk: Seq<ContextAhead>,
    blocks: Seq<Block>,
    data: Seq<u8>,
) -> bool {
    forall|i: int|
        0 <= i < blocks.len() ==> meter::complete(
            walk[i].block_size(),
            data,
            walk[i].end() / walk[i].block_size(),
            #[trigger] blocks[i],
        )
}

proof fn lemma_walk_ahead(walk: Seq<ContextAhead>, blocks: Seq<Block>, data: Seq<u8>, i: int)
    requires
        gathers_ahead(walk, blocks),
        truthful_ahead(walk, blocks, data),
        walk[0].from() <= data.len(),
        0 <= i < walk.len(),
    ensures
        walk[i].from() == walk[0].from(),
        walk[i].latest() == walk[0].latest(),
        walk[i].block_size() == walk[0].block_size(),
        walk[i].end() <= data.len(),
        walk[i].end() <= walk[i].latest(),
        walk[i].gathered() == data.subrange(walk[i].from(), walk[i].end()),
        walk[i].saw_end() ==> data.len() == walk[i].end(),
    decreases i,
{
    assert(walk[i].wf());
    if i > 0 {
        lemma_walk_ahead(walk, blocks, data, i - 1);
        assert(walk[i - 1].wf());
        assert(!walk[i - 1].finished());
        assert(walk[i - 1].takes(blocks[i - 1], walk[i]));
        assert(meter::truthful(
            walk[i - 1].block_size(),
            data,
            walk[i - 1].end() / walk[i - 1].block_size(),
            blocks[i - 1],
        ));
        law_context_ahead_is_true(data, walk[i - 1], blocks[i - 1], walk[i]);
    } else {
        assert(walk[0].gathered() =~= data.subrange(walk[0].from(), walk[0].end()));
    }
}

/// A whole gathering ahead of a position is true: from truthful blocks it
/// gathers the bytes of the file right after the position, and an end that it
/// saw is the end of the data.
pub proof fn law_gathered_context_ahead_is_true(
    walk: Seq<ContextAhead>,
    blocks: Seq<Block>,
    data: Seq<u8>,
)
    requires
        gathers_ahead(walk, blocks),
        truthful_ahead(walk, blocks, data),
        walk[0].from() <= data.len(),
    ensures
        walk.last().from() == walk[0].from(),
        walk.last().end() <= data.len(),
        walk.last().gathered() == data.subrange(walk[0].from(), walk.last().end()),
        walk.last().saw_end() ==> data.len() == walk.last().end(),
{
    lemma_walk_ahead(walk, blocks, data, walk.len() - 1);
}

/// Where every block holds all the bytes that lie there and the source does not
/// overstate its size, nothing of the context ahead of a position is missed: it
/// has all the bytes that can matter, or all that there are up to the size.
pub proof fn law_complete_blocks_give_all_context_ahead(
    walk: Seq<ContextAhead>,
    blocks: Seq<Block>,
    data: Seq<u8>,
    size: int,
)
    requires
        gathers_ahead(walk, blocks),
        complete_ahead(walk, blocks, data),
        walk[0].from() <= size <= data.len(),
        walk[0].latest() == search::greater(
            search::less(walk[0].from() + search::CONSUMABLE_REACH, size),
            walk[0].from(),
        ),
        walk.last().finished(),
    ensures
        walk.last().gathered() == data.subrange(walk[0].from(), walk[0].latest()),
        walk.last().gathered().len() == search::less(
            search::CONSUMABLE_REACH as int,
            size - walk[0].from(),
        ),
{
    assert forall|i: int| 0 <= i < blocks.len() implies meter::truthful(
        walk[i].block_size(),
        data,
        walk[i].end() / walk[i].block_size(),
        #[trigger] blocks[i],
    ) by {
        assert(meter::complete(
            walk[i].block_size(),
            data,
            walk[i].end() / walk[i].block_size(),
            blocks[i],
        ));
    }
    let n = walk.len() - 1;
    lemma_walk_ahead(walk, blocks, data, n);
    assert(walk[n].wf());
    if n > 0 {
        let before = walk[n - 1];
        let block = blocks[n - 1];
        lemma_walk_ahead(walk, blocks, data, n - 1);
        assert(before.wf());
        assert(!before.finished());
        assert(before.takes(block, walk[n]));
        let bs = before.block_size();
        let p = before.end();
        assert(meter::complete(bs, data, p / bs, block));
        vstd::arithmetic::div_mod::lemma_fundamental_div_mod(p, bs);
        vstd::arithmetic::div_mod::lemma_mod_bound(p, bs);
        assert(bs * (p / bs) == p / bs * bs) by (nonlinear_arith);
        assert(meter::delivered(bs, p, before.latest() - p, block) > 0);
        assert(walk[n].end() == walk[n].latest());
    }
}

/// An end of the data is seen where there is one to see: a gather that has come
/// to the end of the data, and is to go on, ends with what it has; and it says
/// that the data ends there where the source gave nothing at all or certified
/// that its data ends with this block.
pub proof fn law_an_end_that_is_certified_is_seen(
    data: Seq<u8>,
    before: ContextAhead,
    block: Block,
    after: ContextAhead,
)
    requires
        before.block_size() > 0,
        0 <= before.from(),
        before.end() == data.len() < before.latest(),
        meter::truthful(before.block_size(), data, before.end() / before.block_size(), block),
        before.takes(block, after),
    ensures
        after.finished(),
        after.gathered() == before.gathered(),
        after.saw_end() <==> block@.len() == 0 || block.is_end(),
{
    let bs = before.block_size();
    let at = before.end();
    meter::law_reads_deliver_the_data(bs, data, at, before.latest() - at, block);
    assert(before.gathered() + Seq::<u8>::empty() =~= before.gathered());
}

/// The context on either side of a position holds any one character whole.
pub proof fn law_the_context_holds_a_character(s: Seq<u8>)
    requires
        s.len() > 0,
    ensures
        utf8::token_len(s) <= search::CTX_BEHIND,
        utf8::token_len(s) <= search::CTX_AHEAD,
        search::CONSUMABLE_REACH + 1 == search::MAX_MATCH_LEN + search::CTX_AHEAD,
{
    utf8::lemma_token_len_bounds(s);
}

/// A whole gathering from its beginning: where every block holds all the bytes
/// that lie there and the source's size is true, the bytes gathered behind `top`
/// and those gathered ahead of `from` are the bytes of the file there, as many
/// as a character can have behind, as many as can matter ahead, or as many as
/// there are.
pub proof fn law_context_surrounds_its_positions(
    data: Seq<u8>,
    block_size: int,
    top: int,
    from: int,
    behind: Seq<ContextBehind>,
    behind_blocks: Seq<Block>,
    ahead: Seq<ContextAhead>,
    ahead_blocks: Seq<Block>,
)
    requires
        0 <= top <= from <= data.len(),
        behind[0].begins(block_size, top),
        gathers_behind(behind, behind_blocks),
        complete_behind(behind, behind_blocks, data),
        behind.last().finished(),
        ahead[0].begins(block_size, from, data.len() as int),
        gathers_ahead(ahead, ahead_blocks),
        complete_ahead(ahead, ahead_blocks, data),
        ahead.last().finished(),
    ensures
        behind.last().gathered() == data.subrange(
            if top < 4 {
                0
            } else {
                top - 4
            },
            top,
        ),
        ahead.last().gathered() == data.subrange(
            from,
            if data.len() - from < 4099 {
                data.len() as int
            } else {
                from + 4099
            },
        ),
{
    law_complete_blocks_give_all_context_behind(behind, behind_blocks, data);
    law_complete_blocks_give_all_context_ahead(ahead, ahead_blocks, data, data.len() as int);
}

}
