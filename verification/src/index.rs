//! A sparse line index built from one sequential pass: bytes in, queryable
//! checkpoints out.
use vstd::prelude::*;

use crate::text;

verus! {

/// Calls `memchr::memchr_iter` and collects what it yields: the positions of
/// `needle` in `haystack`, all of them, in increasing order.
#[verifier::external_body]
pub(crate) fn positions_of(needle: u8, haystack: &[u8]) -> (r: Vec<usize>)
    ensures
        r@.map_values(|i: usize| i as int) == text::occurrences(haystack@, needle),
{
    memchr::memchr_iter(needle, haystack).collect()
}

/// How far the background scan has progressed.
#[derive(Debug, Clone, Copy, PartialEq, Eq, Structural)]
pub struct Frontier {
    pub processed_up_to: u64,
    pub lines_so_far: u64,
    pub done: bool,
}

impl Default for Frontier {
    fn default() -> (r: Frontier)
        ensures
            r.processed_up_to == 0,
            r.lines_so_far == 0,
            !r.done,
    {
        Frontier { processed_up_to: 0, lines_so_far: 0, done: false }
    }
}

/// Every so many lines the index keeps a line start.
pub const CHECKPOINT_INTERVAL: u64 = 1024;

/// Byte offsets of every 1024th line start. About 8 MB of checkpoints index a
/// billion lines; the tail of at most 1023 lines from a checkpoint to a target
/// line is walked at query time.
///
/// Its view is what was ingested so far.
pub struct LineIndex {
    checkpoints: Vec<u64>,
    newlines: u64,
    pos: u64,
    last_byte: Option<u8>,
    done: bool,
    reached_eof: bool,
    data: Ghost<Seq<u8>>,
}

impl View for LineIndex {
    type V = Seq<u8>;

    closed spec fn view(&self) -> Seq<u8> {
        self.data@
    }
}

impl LineIndex {
    /// The counters and checkpoints describe the ingested bytes.
    pub closed spec fn wf(&self) -> bool {
        &&& self.pos == self@.len()
        &&& self.newlines == text::newline_count(self@)
        &&& self.last_byte == if self@.len() == 0 {
            None::<u8>
        } else {
            Some(self@.last())
        }
        &&& self.checkpoints@.len() == self.newlines / CHECKPOINT_INTERVAL + 1
        &&& forall|j: int|
            0 <= j < self.checkpoints@.len() ==> #[trigger] self.checkpoints@[j]
                == text::line_start(self@, j * CHECKPOINT_INTERVAL)
    }

    /// Ingestion is complete.
    pub closed spec fn finished(&self) -> bool {
        self.done
    }

    /// Ingestion is complete and took the whole file.
    pub closed spec fn at_eof(&self) -> bool {
        self.done && self.reached_eof
    }

    /// This index is `before` after it took `chunk`.
    pub open spec fn after_ingest(&self, before: LineIndex, chunk: Seq<u8>) -> bool {
        &&& self@ == before@ + chunk
        &&& self.finished() == before.finished()
        &&& self.at_eof() == before.at_eof()
    }

    /// This index is `before` after its ingestion was marked complete.
    pub open spec fn after_finish(&self, before: LineIndex, reached_eof: bool) -> bool {
        &&& self@ == before@
        &&& self.finished()
        &&& self.at_eof() == reached_eof
    }

    /// How far this index has come.
    pub open spec fn progress(&self) -> Frontier {
        Frontier {
            processed_up_to: self@.len() as u64,
            lines_so_far: text::newline_count(self@) as u64,
            done: self.finished(),
        }
    }

    /// How many lines this index knows of, once it is complete.
    pub open spec fn known_lines(&self) -> Option<int> {
        if !self.finished() {
            None
        } else if self.at_eof() {
            Some(text::line_count(self@))
        } else {
            Some(text::newline_count(self@) + 1)
        }
    }

    /// The greatest checkpoint at or below line `line0`: where it lies, and the
    /// line that starts there.
    pub open spec fn checkpoint_before(&self, line0: int) -> (int, int) {
        let known = text::newline_count(self@);
        let line = CHECKPOINT_INTERVAL * (if line0 <= known {
            line0 / CHECKPOINT_INTERVAL as int
        } else {
            known / CHECKPOINT_INTERVAL as int
        });
        (text::line_start(self@, line), line)
    }

    /// An empty index; the start of line 0 is the first checkpoint.
    pub fn new() -> (r: LineIndex)
        ensures
            r.wf(),
            r@ == Seq::<u8>::empty(),
            !r.finished(),
            !r.at_eof(),
    {
        let mut checkpoints: Vec<u64> = Vec::new();
        checkpoints.push(0);
        LineIndex {
            checkpoints,
            newlines: 0,
            pos: 0,
            last_byte: None,
            done: false,
            reached_eof: false,
            data: Ghost(Seq::empty()),
        }
    }

    /// Ingests the next sequential chunk (chunks arrive in order from 0).
    pub fn ingest(&mut self, chunk: &[u8])
        requires
            old(self).wf(),
            old(self)@.len() + chunk@.len() <= u64::MAX,
        ensures
            final(self).wf(),
            final(self).after_ingest(*old(self), chunk@),
    {
        let at: Vec<usize> = positions_of(text::NEWLINE, chunk);
        let ghost data = self@;
        let ghost full = data + chunk@;
        let ghost here = text::newline_positions(chunk@);
        let ghost count = text::newline_count(data);
        let len: usize = chunk.len();
        proof {
            text::lemma_occurrences(data, text::NEWLINE);
            text::lemma_occurrences(chunk@, text::NEWLINE);
            text::lemma_occurrences_concat(data, chunk@, text::NEWLINE);
            text::lemma_occurrences(full, text::NEWLINE);
            assert(at@.len() == here.len());
            assert forall|j: int| 0 <= j < self.checkpoints@.len() implies #[trigger] self.checkpoints@[j]
                == text::line_start(full, j * CHECKPOINT_INTERVAL) by {
                text::lemma_line_start_concat(data, chunk@, j * CHECKPOINT_INTERVAL);
            }
        }
        let mut i: usize = 0;
        while i < at.len()
            invariant
                at@.len() == here.len(),
                forall|k: int| 0 <= k < at@.len() ==> #[trigger] at@[k] == here[k],
                forall|k: int| 0 <= k < here.len() ==> 0 <= #[trigger] here[k] < chunk@.len(),
                full == data + chunk@,
                data.len() + chunk@.len() <= u64::MAX,
                self.pos == data.len(),
                self.data@ == data,
                self.last_byte == old(self).last_byte,
                self.done == old(self).done,
                self.reached_eof == old(self).reached_eof,
                count == text::newline_count(data),
                count <= data.len(),
                here.len() <= chunk@.len(),
                text::newline_positions(full) == text::newline_positions(data) + here.map_values(
                    |p: int| p + data.len(),
                ),
                i <= at@.len(),
                self.newlines == count + i,
                self.checkpoints@.len() == self.newlines / CHECKPOINT_INTERVAL + 1,
                forall|j: int|
                    0 <= j < self.checkpoints@.len() ==> #[trigger] self.checkpoints@[j]
                        == text::line_start(full, j * CHECKPOINT_INTERVAL),
            decreases at.len() - i,
        {
            self.newlines = self.newlines + 1;
            if self.newlines % CHECKPOINT_INTERVAL == 0 {
                // a start that turns out to sit at the end of the file names no
                // real line; who uses a checkpoint checks that it lies inside.
                assert(text::newline_positions(full)[count + i] == here[i as int] + data.len());
                self.checkpoints.push(self.pos + at[i] as u64 + 1);
            }
            i = i + 1;
        }
        if len > 0 {
            self.last_byte = Some(chunk[len - 1]);
        }
        self.pos = self.pos + len as u64;
        proof {
            self.data@ = full;
        }
    }

    /// Marks ingestion complete; the number of lines becomes known.
    /// `reached_eof` is true when the scan consumed the whole file, false when
    /// it stopped early after a read error.
    pub fn finish(&mut self, reached_eof: bool)
        requires
            old(self).wf(),
        ensures
            final(self).wf(),
            final(self).after_finish(*old(self), reached_eof),
    {
        self.done = true;
        self.reached_eof = reached_eof;
    }

    /// Whether ingestion is complete and took the whole file.
    pub fn reached_eof(&self) -> (r: bool)
        ensures
            r == self.at_eof(),
    {
        self.done && self.reached_eof
    }

    /// Progress snapshot.
    pub fn frontier(&self) -> (r: Frontier)
        requires
            self.wf(),
        ensures
            r.processed_up_to == self@.len(),
            r.lines_so_far == text::newline_count(self@),
            r.done == self.finished(),
            r == self.progress(),
    {
        Frontier { processed_up_to: self.pos, lines_so_far: self.newlines, done: self.done }
    }

    /// Newlines seen so far; the start of 0-based line `n` is known once
    /// `newlines() >= n`.
    pub fn newlines(&self) -> (r: u64)
        requires
            self.wf(),
        ensures
            r == text::newline_count(self@),
    {
        self.newlines
    }

    /// The line count once ingestion has finished. When the scan reached the
    /// end of the file, that is the number of the file's lines. When it stopped
    /// early, the byte after the ingested ones is known to exist, so the line
    /// that it lies in counts whatever the last ingested byte was.
    pub fn total_lines(&self) -> (r: Option<u64>)
        requires
            self.wf(),
            self.finished() && !self.at_eof() ==> text::newline_count(self@) < u64::MAX,
        ensures
            r is Some <==> self.finished(),
            r matches Some(n) ==> self.known_lines() == Some(n as int),
    {
        if !self.done {
            return None;
        }
        if !self.reached_eof {
            return Some(self.newlines + 1);
        }
        match self.last_byte {
            None => Some(0),
            Some(b) => if b == text::NEWLINE {
                Some(self.newlines)
            } else {
                proof {
                    text::lemma_occurrences(self@, text::NEWLINE);
                    text::lemma_occurrences(self@.drop_last(), text::NEWLINE);
                }
                Some(self.newlines + 1)
            },
        }
    }

    /// The greatest checkpoint at or below 0-based line `line0`: the byte where
    /// it lies, and the line that starts there.
    pub fn nearest_checkpoint(&self, line0: u64) -> (r: (u64, u64))
        requires
            self.wf(),
        ensures
            (r.0 as int, r.1 as int) == self.checkpoint_before(line0 as int),
            r.1 <= text::newline_count(self@),
    {
        let last: u64 = (self.checkpoints.len() - 1) as u64;
        let j: u64 = line0 / CHECKPOINT_INTERVAL;
        let j: u64 = if j < last {
            j
        } else {
            last
        };
        (self.checkpoints[j as usize], j * CHECKPOINT_INTERVAL)
    }
}

// ---------------------------------------------------------------------------
// What holds of every index.

/// The starts of the lines of `s`, read off byte by byte: the beginning of a
/// text that is not empty, and every position after a newline that is not the
/// last byte.
pub open spec fn naive_line_starts(s: Seq<u8>) -> Seq<int> {
    if s.len() == 0 {
        Seq::empty()
    } else {
        seq![0int] + text::newline_positions(s.drop_last()).map_values(|p: int| p + 1)
    }
}

/// Counting lines by the newlines and the last byte agrees with reading the
/// line starts off byte by byte, and so does the start of each line.
pub proof fn law_index_agrees_with_a_naive_scan(s: Seq<u8>, k: int)
    ensures
        text::line_count(s) == naive_line_starts(s).len(),
        0 <= k < text::line_count(s) ==> text::line_start(s, k) == naive_line_starts(s)[k],
{
    if s.len() > 0 {
        assert(text::newline_positions(s) =~= if s.last() == text::NEWLINE {
            text::newline_positions(s.drop_last()).push(s.len() - 1)
        } else {
            text::newline_positions(s.drop_last())
        });
    }
}

/// However the bytes are cut into chunks, their newlines add up to the same
/// number: a newline at the edge of a chunk is counted once.
pub proof fn law_newlines_add_up_over_chunks(data: Seq<u8>, chunks: Seq<Seq<u8>>)
    requires
        data == chunks.flatten(),
    ensures
        text::newline_count(data) == total_newlines(chunks),
    decreases chunks.len(),
{
    if chunks.len() > 0 {
        let rest = chunks.drop_first();
        assert(chunks.flatten() == chunks.first() + rest.flatten());
        text::lemma_occurrences_concat(chunks.first(), rest.flatten(), text::NEWLINE);
        law_newlines_add_up_over_chunks(rest.flatten(), rest);
    }
}

/// The newlines of each chunk, added up.
pub open spec fn total_newlines(chunks: Seq<Seq<u8>>) -> int
    decreases chunks.len(),
{
    if chunks.len() == 0 {
        0
    } else {
        text::newline_count(chunks.first()) + total_newlines(chunks.drop_first())
    }
}

/// A checkpoint never lies past the line that it is asked for, and for a line
/// that is itself a checkpoint it is exact.
pub proof fn law_checkpoints_do_not_pass_their_line(s: Seq<u8>, line0: int)
    requires
        0 <= line0 <= text::newline_count(s),
    ensures
        ({
            let cp = CHECKPOINT_INTERVAL * (line0 / CHECKPOINT_INTERVAL as int);
            &&& cp <= line0 < cp + CHECKPOINT_INTERVAL
            &&& text::line_start(s, cp) <= text::line_start(s, line0)
            &&& cp == line0 ==> text::line_start(s, cp) == text::line_start(s, line0)
        }),
{
    let cp = CHECKPOINT_INTERVAL * (line0 / CHECKPOINT_INTERVAL as int);
    text::lemma_line_starts_grow(s, cp, line0);
}

/// An index that took the whole file is complete.
pub proof fn law_the_end_is_reached_only_when_finished(index: LineIndex)
    ensures
        index.at_eof() ==> index.finished(),
{
}

/// Where the edges of chunks fall never matters: taking two chunks one after the
/// other, and taking them as one, leaves indexes that answer alike, before and
/// after they are finished alike.
pub proof fn law_chunk_edges_do_not_matter(
    before: LineIndex,
    a: Seq<u8>,
    b: Seq<u8>,
    first: LineIndex,
    both: LineIndex,
    whole: LineIndex,
    reached_eof: bool,
    both_done: LineIndex,
    whole_done: LineIndex,
)
    requires
        first.after_ingest(before, a),
        both.after_ingest(first, b),
        whole.after_ingest(before, a + b),
        both_done.after_finish(both, reached_eof),
        whole_done.after_finish(whole, reached_eof),
    ensures
        both@ == whole@,
        both.progress() == whole.progress(),
        both.known_lines() == whole.known_lines(),
        forall|line0: int|
            #[trigger] both.checkpoint_before(line0) == whole.checkpoint_before(line0),
        both_done.progress() == whole_done.progress(),
        both_done.known_lines() == whole_done.known_lines(),
        forall|line0: int|
            #[trigger] both_done.checkpoint_before(line0) == whole_done.checkpoint_before(line0),
{
    assert(before@ + a + b =~= before@ + (a + b));
}

/// A finished index counts the lines that it took: all those of the file, read
/// off byte by byte, where it took the whole file; else all up to the line of the
/// first byte that it did not take. An index that goes on counts none yet.
pub proof fn law_a_finished_index_counts_its_lines(
    data: Seq<u8>,
    before: LineIndex,
    after: LineIndex,
    reached_eof: bool,
)
    requires
        before@.len() <= data.len(),
        before@ == data.take(before@.len() as int),
        reached_eof ==> before@.len() == data.len(),
        after.after_finish(before, reached_eof),
    ensures
        !before.finished() ==> before.known_lines() is None,
        reached_eof ==> after.known_lines() == Some(naive_line_starts(data).len() as int),
        !reached_eof ==> after.known_lines() == Some(
            text::line_of(data, before@.len() as int) + 1,
        ),
        after.finished(),
        after.at_eof() == reached_eof,
        after.progress().done,
{
    if reached_eof {
        assert(data.take(data.len() as int) =~= data);
        law_index_agrees_with_a_naive_scan(data, 0);
    }
}

/// An index that took a part of the file knows, of every line that starts in that
/// part or right after it, a line start of the file that lies at most so many
/// lines before it as checkpoints lie apart; of a line further on, one so near to
/// the last line that it knows.
pub proof fn law_a_checkpoint_is_a_line_start_near_its_line(
    data: Seq<u8>,
    index: LineIndex,
    line0: int,
)
    requires
        index@.len() <= data.len(),
        index@ == data.take(index@.len() as int),
        0 <= line0,
    ensures
        ({
            let (at, line) = index.checkpoint_before(line0);
            let known = text::newline_count(index@);
            &&& 0 <= line <= line0 && line <= known
            &&& line0 <= known ==> line0 < line + 1024
            &&& line0 > known ==> known < line + 1024
            &&& line % 1024 == 0
            &&& at == text::line_start(data, line)
            &&& line <= text::newline_count(data)
        }),
{
    let rest = data.skip(index@.len() as int);
    assert(data =~= index@ + rest);
    let (at, line) = index.checkpoint_before(line0);
    text::lemma_occurrences(index@, text::NEWLINE);
    text::lemma_occurrences(rest, text::NEWLINE);
    text::lemma_line_start_concat(index@, rest, line);
}

/// Indexing the whole file, in any two chunks, counts its lines as reading them
/// off byte by byte does, and knows of each line a line start near it.
pub proof fn law_an_index_describes_what_it_took(
    a: Seq<u8>,
    b: Seq<u8>,
    fresh: LineIndex,
    first: LineIndex,
    both: LineIndex,
    done: LineIndex,
)
    requires
        fresh@ == Seq::<u8>::empty(),
        first.after_ingest(fresh, a),
        both.after_ingest(first, b),
        done.after_finish(both, true),
    ensures
        done@ == a + b,
        done.at_eof(),
        done.known_lines() == Some(naive_line_starts(a + b).len() as int),
        (a + b).len() <= u64::MAX ==> both.progress().processed_up_to == a.len() + b.len(),
        (a + b).len() <= u64::MAX ==> both.progress().lines_so_far == text::newline_count(a)
            + text::newline_count(b),
{
    assert(done@ =~= a + b);
    law_index_agrees_with_a_naive_scan(a + b, 0);
    text::lemma_occurrences_concat(a, b, text::NEWLINE);
    text::lemma_occurrences(a + b, text::NEWLINE);
}

}
