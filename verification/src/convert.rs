//! Interpreting the extracted binary digit string as a machine-word value.

use vstd::prelude::*;

verus! {

/// Whether `s` is a well-formed binary numeral: nonempty and made of the
/// digits `0` and `1` alone.
pub open spec fn is_binary(s: Seq<char>) -> bool {
    &&& s.len() > 0
    &&& forall|i: int| 0 <= i < s.len() ==> s[i] == '0' || s[i] == '1'
}

/// The value of a binary digit string, most significant digit first.
pub open spec fn binary_value(s: Seq<char>) -> nat
    decreases s.len(),
{
    if s.len() == 0 {
        0
    } else {
        2 * binary_value(s.drop_last()) + (if s.last() == '1' {
            1nat
        } else {
            0nat
        })
    }
}

/// A prefix of a digit string never has a larger value than the whole.
proof fn lemma_binary_value_take_le(s: Seq<char>, j: int)
    requires
        0 <= j <= s.len(),
    ensures
        binary_value(s.take(j)) <= binary_value(s),
    decreases s.len() - j,
{
    if j < s.len() {
        lemma_binary_value_take_le(s, j + 1);
        assert(s.take(j + 1).drop_last() =~= s.take(j));
    } else {
        assert(s.take(j) =~= s);
    }
}

/// Interprets `bin` as a binary numeral: its value when it is a nonempty
/// string of binary digits whose value fits a machine word, and 0 for every
/// other string.
pub fn to_dec(bin: &str) -> (v: usize)
    ensures
        is_binary(bin@) && binary_value(bin@) <= usize::MAX ==> v == binary_value(bin@),
        !(is_binary(bin@) && binary_value(bin@) <= usize::MAX) ==> v == 0,
{
    let n = bin.unicode_len();
    if n == 0 {
        return 0;
    }
    let mut acc: usize = 0;
    let mut i: usize = 0;
    while i < n
        invariant
            n == bin@.len(),
            0 < n,
            i <= n,
            forall|k: int| 0 <= k < i ==> bin@[k] == '0' || bin@[k] == '1',
            acc == binary_value(bin@.take(i as int)),
        decreases n - i,
    {
        let c = bin.get_char(i);
        if c != '0' && c != '1' {
            return 0;
        }
        let bit: usize = if c == '1' {
            1
        } else {
            0
        };
        proof {
            assert(bin@.take(i + 1).drop_last() =~= bin@.take(i as int));
        }
        if acc > (usize::MAX - bit) / 2 {
            proof {
                lemma_binary_value_take_le(bin@, i + 1);
            }
            return 0;
        }
        acc = 2 * acc + bit;
        i += 1;
    }
    proof {
        assert(bin@.take(n as int) =~= bin@);
    }
    acc
}

} // verus!
