//! Index-order conversion of recorded states.
//!
//! Internally, qubit 0 is the most significant bit of a basis-state
//! index.  The published trace uses the opposite convention, qubit 0
//! least significant, so every recorded state is permuted under
//! bit-reversal of the index before it leaves the engine.

use vstd::prelude::*;
use vstd::arithmetic::power2::{pow2, lemma2_to64, lemma_pow2_unfold, lemma_pow2_pos,
    lemma_pow2_strictly_increases};

use crate::quantum_state::{QuantumState, pow2_usize};

verus! {

/// The value of the low `n` bits of `x`, in reverse order.
pub open spec fn rev_bits(x: int, n: nat) -> int
    decreases n,
{
    if n == 0 {
        0
    } else {
        rev_bits(x / 2, (n - 1) as nat) + (x % 2) * pow2((n - 1) as nat)
    }
}

pub proof fn lemma_rev_bits_range(x: int, n: nat)
    requires
        x >= 0,
    ensures
        0 <= rev_bits(x, n) < pow2(n),
    decreases n,
{
    lemma_pow2_pos(n);
    if n > 0 {
        lemma_rev_bits_range(x / 2, (n - 1) as nat);
        lemma_pow2_unfold(n);
        lemma_pow2_pos((n - 1) as nat);
        let p = pow2((n - 1) as nat) as int;
        if x % 2 == 0 {
            assert((x % 2) * p == 0);
        } else {
            assert(x % 2 == 1);
            assert((x % 2) * p == p);
        }
    }
}

/// Reverse the low `n` bits of `x`.
pub fn reverse_bits(x: usize, n: usize) -> (r: usize)
    requires
        n <= 6,
        x < pow2(n as nat),
    ensures
        r as int == rev_bits(x as int, n as nat),
        r < pow2(n as nat),
    decreases n,
{
    proof {
        lemma2_to64();
        lemma_rev_bits_range(x as int, n as nat);
    }
    if n == 0 {
        0
    } else {
        let h = pow2_usize(n - 1);
        proof {
            lemma_pow2_unfold(n as nat);
            assert((x as int) / 2 < h as int) by (nonlinear_arith)
                requires
                    (x as int) < 2 * (h as int),
                    h as int > 0,
            ;
        }
        let low = x % 2;
        reverse_bits(x / 2, n - 1) + low * h
    }
}

/// The state with its amplitudes permuted from the internal ordering
/// (qubit 0 most significant) to the published one (qubit 0 least
/// significant).
pub fn to_little_endian(state: &QuantumState) -> (r: QuantumState)
    requires
        exists|m: nat| m <= 6 && state.col@.len() == pow2(m),
    ensures
        r.denom == state.denom,
        r.col@.len() == state.col@.len(),
        forall|m: nat, i: int|
            #![trigger pow2(m), r.val()[i]]
            (m <= 6 && state.col@.len() == pow2(m) && 0 <= i < state.col@.len()) ==> r.val()[i]
                == state.val()[rev_bits(i, m)],
{
    let n = state.size();
    let dim = state.col.len();
    let mut col: Vec<crate::complex::Amplitude> = Vec::new();
    for i in 0..dim
        invariant
            dim == state.col@.len() == pow2(n as nat),
            n <= 6,
            col@.len() == i,
            forall|ii: int|
                0 <= ii < i ==> (#[trigger] col@[ii])@ == state.val()[rev_bits(ii, n as nat)],
    {
        let src = reverse_bits(i, n);
        proof {
            assert(state.val()[src as int] == state.col@[src as int]@);
        }
        col.push(state.col[src]);
    }
    let r = QuantumState { col, denom: state.denom };
    proof {
        assert forall|m: nat, i: int|
            #![trigger pow2(m), r.val()[i]]
            (m <= 6 && state.col@.len() == pow2(m) && 0 <= i < state.col@.len()) implies r.val()[i]
            == state.val()[rev_bits(i, m)] by {
            if m < n as nat {
                lemma_pow2_strictly_increases(m, n as nat);
            }
            if (n as nat) < m {
                lemma_pow2_strictly_increases(n as nat, m);
            }
            assert(m == n as nat);
            assert(r.val()[i] == r.col@[i]@);
        }
    }
    r
}

} // verus!
