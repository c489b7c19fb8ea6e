//! The mathematical model of a text as lines: where its newlines are, where
//! its lines start, how many lines it has.
use vstd::prelude::*;

verus! {

pub const NEWLINE: u8 = 0x0a;

/// The positions of `needle` in `s`, in increasing order.
pub open spec fn occurrences(s: Seq<u8>, needle: u8) -> Seq<int>
    decreases s.len(),
{
    if s.len() == 0 {
        Seq::empty()
    } else if s.last() == needle {
        occurrences(s.drop_last(), needle).push(s.len() - 1)
    } else {
        occurrences(s.drop_last(), needle)
    }
}

/// The positions of the newlines in `s`.
pub open spec fn newline_positions(s: Seq<u8>) -> Seq<int> {
    occurrences(s, NEWLINE)
}

/// How many newlines `s` holds.
pub open spec fn newline_count(s: Seq<u8>) -> int {
    newline_positions(s).len() as int
}

/// Where line `k` (counted from 0) starts: at the beginning of the text, or
/// right after the newline that ends the line before it. After a newline at the
/// very end of the text there is one more such position, which starts no line
/// of its own.
pub open spec fn line_start(s: Seq<u8>, k: int) -> int {
    if k <= 0 {
        0
    } else {
        newline_positions(s)[k - 1] + 1
    }
}

/// How many lines `s` has. A newline at the very end ends the last line and
/// starts no further one.
pub open spec fn line_count(s: Seq<u8>) -> int {
    if s.len() == 0 {
        0
    } else if s.last() == NEWLINE {
        newline_count(s)
    } else {
        newline_count(s) + 1
    }
}

/// `p` is the beginning of the text or lies right after a newline.
pub open spec fn is_line_start(s: Seq<u8>, p: int) -> bool {
    p == 0 || (0 < p <= s.len() && s[p - 1] == NEWLINE)
}

/// Which line (counted from 0) the position `p` lies in: as many lines lie
/// before it as newlines do.
pub open spec fn line_of(s: Seq<u8>, p: int) -> int {
    newline_count(s.take(p))
}

/// Where the line that `p` lies in starts.
pub open spec fn start_of_line_at(s: Seq<u8>, p: int) -> int {
    line_start(s, line_of(s, p))
}

// ---------------------------------------------------------------------------
// Occurrences.

/// The occurrences are positions of the needle, in increasing order.
pub proof fn lemma_occurrences(s: Seq<u8>, needle: u8)
    ensures
        forall|i: int|
            0 <= i < occurrences(s, needle).len() ==> 0 <= #[trigger] occurrences(s, needle)[i]
                < s.len() && s[occurrences(s, needle)[i]] == needle,
        forall|i: int, j: int|
            0 <= i < j < occurrences(s, needle).len() ==> #[trigger] occurrences(s, needle)[i]
                < #[trigger] occurrences(s, needle)[j],
        occurrences(s, needle).len() <= s.len(),
    decreases s.len(),
{
    if s.len() > 0 {
        lemma_occurrences(s.drop_last(), needle);
        let before = occurrences(s.drop_last(), needle);
        let all = occurrences(s, needle);
        assert forall|i: int| 0 <= i < all.len() implies 0 <= #[trigger] all[i] < s.len()
            && s[all[i]] == needle by {
            if i < before.len() {
                assert(all[i] == before[i]);
                assert(s.drop_last()[before[i]] == s[before[i]]);
            }
        }
        assert forall|i: int, j: int| 0 <= i < j < all.len() implies #[trigger] all[i]
            < #[trigger] all[j] by {
            assert(all[i] == before[i]);
            if j < before.len() {
                assert(all[j] == before[j]);
            }
        }
    }
}

/// No occurrence is missing.
pub proof fn lemma_every_occurrence(s: Seq<u8>, needle: u8, p: int)
    requires
        0 <= p < s.len(),
        s[p] == needle,
    ensures
        exists|i: int|
            0 <= i < occurrences(s, needle).len() && #[trigger] occurrences(s, needle)[i] == p,
    decreases s.len(),
{
    let all = occurrences(s, needle);
    if p == s.len() - 1 {
        assert(all[all.len() - 1] == p);
    } else {
        lemma_every_occurrence(s.drop_last(), needle, p);
        let before = occurrences(s.drop_last(), needle);
        let i = choose|i: int| 0 <= i < before.len() && #[trigger] before[i] == p;
        assert(all[i] == p);
    }
}

/// The occurrences in two pieces are those in the first, then those in the
/// second moved by the length of the first.
pub proof fn lemma_occurrences_concat(a: Seq<u8>, b: Seq<u8>, needle: u8)
    ensures
        occurrences(a + b, needle) == occurrences(a, needle) + occurrences(b, needle).map_values(
            |p: int| p + a.len(),
        ),
    decreases b.len(),
{
    if b.len() == 0 {
        assert(a + b =~= a);
    } else {
        lemma_occurrences_concat(a, b.drop_last(), needle);
        assert((a + b).drop_last() =~= a + b.drop_last());
        assert((a + b).last() == b.last());
    }
    assert(occurrences(a + b, needle) =~= occurrences(a, needle) + occurrences(
        b,
        needle,
    ).map_values(|p: int| p + a.len()));
}

// ---------------------------------------------------------------------------
// Lines.

/// Line starts come in increasing order and lie in the text.
pub proof fn lemma_line_starts_grow(s: Seq<u8>, i: int, j: int)
    requires
        0 <= i <= j <= newline_count(s),
    ensures
        0 <= line_start(s, i) <= line_start(s, j) <= s.len(),
        i < j ==> line_start(s, i) < line_start(s, j),
        is_line_start(s, line_start(s, i)),
{
    lemma_occurrences(s, NEWLINE);
    if 0 < i < j {
        assert(newline_positions(s)[i - 1] < newline_positions(s)[j - 1]);
    }
}

/// More text does not move the lines before it.
pub proof fn lemma_line_start_concat(a: Seq<u8>, b: Seq<u8>, k: int)
    requires
        0 <= k <= newline_count(a) + newline_count(b),
    ensures
        newline_count(a + b) == newline_count(a) + newline_count(b),
        k <= newline_count(a) ==> line_start(a + b, k) == line_start(a, k),
        k > newline_count(a) ==> line_start(a + b, k) == a.len() + line_start(
            b,
            k - newline_count(a),
        ),
{
    lemma_occurrences_concat(a, b, NEWLINE);
}

/// As many newlines lie before the start of a line as lines do.
pub proof fn lemma_line_of_line_start(s: Seq<u8>, k: int)
    requires
        0 <= k <= newline_count(s),
    ensures
        line_of(s, line_start(s, k)) == k,
{
    let p = line_start(s, k);
    lemma_line_starts_grow(s, k, k);
    assert(s =~= s.take(p) + s.skip(p));
    lemma_occurrences_concat(s.take(p), s.skip(p), NEWLINE);
    lemma_occurrences(s.take(p), NEWLINE);
    lemma_occurrences(s.skip(p), NEWLINE);
    lemma_occurrences(s, NEWLINE);
    let before = newline_positions(s.take(p));
    let all = newline_positions(s);
    // the newlines before `p` are the first `k`.
    if before.len() < k {
        assert(all[before.len() as int] <= all[k - 1]);
        assert(all[before.len() as int] == newline_positions(s.skip(p))[0] + p);
        assert(false);
    }
    if before.len() > k {
        assert(all[k] == before[k]);
        if k > 0 {
            assert(all[k - 1] < all[k]);
        }
        assert(false);
    }
}

/// The line that a position lies in starts at or before it, and no line starts
/// in between.
pub proof fn lemma_start_of_line_at(s: Seq<u8>, p: int)
    requires
        0 <= p <= s.len(),
    ensures
        0 <= line_of(s, p) <= newline_count(s),
        0 <= start_of_line_at(s, p) <= p,
        is_line_start(s, start_of_line_at(s, p)),
        forall|q: int|
            start_of_line_at(s, p) < q <= p ==> !(#[trigger] is_line_start(s, q)),
        forall|q: int|
            start_of_line_at(s, p) <= q < p ==> #[trigger] s[q] != NEWLINE,
{
    let k = line_of(s, p);
    let before = s.take(p);
    assert(s =~= before + s.skip(p));
    lemma_occurrences_concat(before, s.skip(p), NEWLINE);
    lemma_occurrences(before, NEWLINE);
    let all = newline_positions(s);
    if k > 0 {
        assert(all[k - 1] == newline_positions(before)[k - 1]);
    }
    lemma_line_starts_grow(s, k, k);
    let a = start_of_line_at(s, p);
    assert forall|q: int| a <= q < p implies #[trigger] s[q] != NEWLINE by {
        if s[q] == NEWLINE {
            assert(before[q] == NEWLINE);
            lemma_every_occurrence(before, NEWLINE, q);
            let i = choose|i: int|
                0 <= i < newline_positions(before).len() && #[trigger] newline_positions(before)[i]
                    == q;
            if i < k - 1 {
                assert(newline_positions(before)[i] < newline_positions(before)[k - 1]);
            }
        }
    }
}

/// A line start is the start of the line it lies in.
pub proof fn lemma_line_start_is_its_own(s: Seq<u8>, p: int)
    requires
        0 <= p <= s.len(),
        is_line_start(s, p),
    ensures
        start_of_line_at(s, p) == p,
{
    lemma_start_of_line_at(s, p);
}

/// The number of lines is at most one more than that of newlines, and every
/// line starts inside the text.
pub proof fn lemma_lines_start_inside(s: Seq<u8>, k: int)
    requires
        0 <= k < line_count(s),
    ensures
        k <= newline_count(s),
        0 <= line_start(s, k) < s.len(),
{
    lemma_occurrences(s, NEWLINE);
    if s.last() == NEWLINE {
        assert(newline_positions(s).last() == s.len() - 1);
        if 0 < k < newline_count(s) {
            assert(newline_positions(s)[k - 1] < newline_positions(s)[newline_count(s) - 1]);
        }
    } else if k > 0 {
        assert(newline_positions(s)[k - 1] != s.len() - 1);
    }
}

}
