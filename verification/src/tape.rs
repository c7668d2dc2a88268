//! The sparse tape: a mapping from integer positions to symbols, with a
//! designated blank symbol standing for every cell that was never written.
//! This module gives the mathematical model of tape contents, of single
//! writes, of occupied spans, and of result extraction.

use vstd::prelude::*;

verus! {

/// The blank symbol: what an unwritten (or cleared) cell holds. It is never
/// stored explicitly; absence of an entry stands for it.
pub const BLANK: char = '_';

/// The symbol at position `p`: the stored entry, or blank where none exists.
/// Total over all of `int`, so every position is implicitly defined.
pub open spec fn cell(t: Map<i128, char>, p: int) -> char {
    if i128::MIN <= p <= i128::MAX && t.dom().contains(p as i128) {
        t[p as i128]
    } else {
        BLANK
    }
}

/// No stored entry holds the blank symbol.
pub open spec fn sparse(t: Map<i128, char>) -> bool {
    forall|k: i128| t.dom().contains(k) ==> t[k] != BLANK
}

/// Every occupied position lies between `lo` and `hi` inclusive.
pub open spec fn covers(t: Map<i128, char>, lo: int, hi: int) -> bool {
    forall|k: i128| t.dom().contains(k) ==> lo <= k <= hi
}

/// The tape a single write leaves behind: writing blank removes any entry at
/// `p`, writing any other symbol inserts or overwrites it. No other cell is
/// touched.
pub open spec fn tape_write(t: Map<i128, char>, p: int, c: char) -> Map<i128, char> {
    if c == BLANK {
        t.remove(p as i128)
    } else {
        t.insert(p as i128, c)
    }
}

/// The symbols from `lo` to `hi` inclusive, blanks filled in for absent cells.
pub open spec fn window(t: Map<i128, char>, lo: int, hi: int) -> Seq<char> {
    if hi < lo {
        Seq::empty()
    } else {
        Seq::new((hi - lo + 1) as nat, |i: int| cell(t, lo + i))
    }
}

/// `s` with every leading and trailing blank removed.
pub open spec fn trim(s: Seq<char>) -> Seq<char>
    decreases s.len(),
{
    if s.len() == 0 {
        s
    } else if s[0] == BLANK {
        trim(s.subrange(1, s.len() as int))
    } else if s[s.len() - 1] == BLANK {
        trim(s.subrange(0, s.len() - 1))
    } else {
        s
    }
}

/// The tape an input string loads: one symbol per character at positions
/// `0 .. len`, with blank characters left unstored.
pub open spec fn initial_tape(s: Seq<char>) -> Map<i128, char> {
    Map::new(
        |k: i128| 0 <= k < s.len() && s[k as int] != BLANK,
        |k: i128| s[k as int],
    )
}

/// The canonical extracted result of a tape: the single digit `0` when
/// nothing is stored, otherwise the occupied span with its blank padding
/// trimmed away.
pub open spec fn result_of(t: Map<i128, char>) -> Seq<char> {
    if t.dom().is_empty() {
        seq!['0']
    } else {
        trim(window(t, i128::MIN as int, i128::MAX as int))
    }
}

/// A single write never stores a blank entry, so the tape it leaves is sparse
/// again; by induction the tape stays sparse under any sequence of writes.
pub proof fn lemma_write_preserves_sparsity(t: Map<i128, char>, p: int, c: char)
    requires
        sparse(t),
    ensures
        sparse(tape_write(t, p, c)),
{
}

/// A tape that stores nothing extracts to the single digit `0`.
pub proof fn lemma_empty_tape_result()
    ensures
        result_of(Map::<i128, char>::empty()) == seq!['0'],
{
    assert(Map::<i128, char>::empty().dom() =~= Set::<i128>::empty());
}

/// Appending a blank does not change what trimming keeps.
proof fn lemma_trim_drop_back(s: Seq<char>)
    ensures
        trim(s.push(BLANK)) == trim(s),
    decreases s.len(),
{
    let sp = s.push(BLANK);
    if s.len() == 0 {
        assert(sp.subrange(1, sp.len() as int) =~= s);
    } else if s[0] == BLANK {
        assert(sp.subrange(1, sp.len() as int) =~= s.subrange(1, s.len() as int).push(BLANK));
        lemma_trim_drop_back(s.subrange(1, s.len() as int));
    } else {
        assert(sp.subrange(0, sp.len() - 1) =~= s);
    }
}

/// Widening a window to the left over unoccupied positions does not change
/// what trimming keeps.
proof fn lemma_window_extend_left(t: Map<i128, char>, lo: int, hi: int, lo2: int)
    requires
        covers(t, lo, hi),
        lo2 <= lo,
        lo <= hi + 1,
    ensures
        trim(window(t, lo2, hi)) == trim(window(t, lo, hi)),
    decreases lo - lo2,
{
    if lo2 < lo {
        let w1 = window(t, lo - 1, hi);
        let w0 = window(t, lo, hi);
        assert(cell(t, lo - 1) == BLANK);
        assert(w1[0] == BLANK);
        assert(w1.subrange(1, w1.len() as int) =~= w0);
        lemma_window_extend_left(t, lo - 1, hi, lo2);
    }
}

/// Widening a window to the right over unoccupied positions does not change
/// what trimming keeps.
proof fn lemma_window_extend_right(t: Map<i128, char>, lo: int, hi: int, hi2: int)
    requires
        covers(t, lo, hi),
        hi <= hi2,
        lo <= hi + 1,
    ensures
        trim(window(t, lo, hi2)) == trim(window(t, lo, hi)),
    decreases hi2 - hi,
{
    if hi < hi2 {
        let w1 = window(t, lo, hi + 1);
        let w0 = window(t, lo, hi);
        assert(cell(t, hi + 1) == BLANK);
        assert(w1 =~= w0.push(BLANK));
        lemma_trim_drop_back(w0);
        lemma_window_extend_right(t, lo, hi + 1, hi2);
    }
}

/// Any window that contains every occupied cell of a nonempty tape trims to
/// the canonical extracted result.
pub proof fn lemma_result_of_cover(t: Map<i128, char>, lo: int, hi: int)
    requires
        covers(t, lo, hi),
        !t.dom().is_empty(),
        i128::MIN <= lo,
        hi <= i128::MAX,
    ensures
        trim(window(t, lo, hi)) == result_of(t),
{
    let k = t.dom().choose();
    assert(t.dom().contains(k));
    assert(lo <= k <= hi);
    lemma_window_extend_left(t, lo, hi, i128::MIN as int);
    lemma_window_extend_right(t, i128::MIN as int, hi, i128::MAX as int);
}

/// Where `s` has a first and a last non-blank symbol, trimming keeps exactly
/// the span between them, both ends included.
pub proof fn lemma_trim_inner(s: Seq<char>, i: int, j: int)
    requires
        0 <= i <= j < s.len(),
        s[i] != BLANK,
        s[j] != BLANK,
        forall|k: int| 0 <= k < i ==> s[k] == BLANK,
        forall|k: int| j < k < s.len() ==> s[k] == BLANK,
    ensures
        trim(s) == s.subrange(i, j + 1),
    decreases s.len(),
{
    if i > 0 {
        let s1 = s.subrange(1, s.len() as int);
        assert forall|k: int| 0 <= k < i - 1 implies s1[k] == BLANK by {
            assert(s1[k] == s[k + 1]);
        }
        assert forall|k: int| j - 1 < k < s1.len() implies s1[k] == BLANK by {
            assert(s1[k] == s[k + 1]);
        }
        lemma_trim_inner(s1, i - 1, j - 1);
        assert(s1.subrange(i - 1, j) =~= s.subrange(i, j + 1));
    } else if j < s.len() - 1 {
        let s1 = s.subrange(0, s.len() - 1);
        lemma_trim_inner(s1, i, j);
        assert(s1.subrange(i, j + 1) =~= s.subrange(i, j + 1));
    } else {
        assert(s.subrange(0, s.len() as int) =~= s);
    }
}

} // verus!
