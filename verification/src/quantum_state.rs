//! The state vector and its evolution by one operator.
//!
//! A state over `n` qubits holds `2^n` amplitude numerators (see
//! `complex`) and the exponent `denom` of a common denominator
//! `sqrt(2)^denom`.  Index `i` denotes the joint basis state whose bits
//! are the qubit values with qubit 0 as the most significant bit.
//!
//! Applying a gate multiplies the state vector by its matrix
//! exactly.  The products are accumulated in 128-bit integers, which
//! cannot overflow; if a resulting coefficient does not fit back into
//! an `i64`, the application reports that instead of losing precision.

use vstd::prelude::*;
use vstd::arithmetic::power2::{pow2, lemma2_to64, lemma_pow2_strictly_increases};

use crate::complex::{Cx, Amplitude, cx_zero, cx_one, cx_add, cx_mul, cx_fits, cx_seq_fits};
use crate::quantum_gate::QuantumGate;

verus! {

/// Dot product of the first `n` columns of a matrix row with a vector.
pub open spec fn row_dot(row: Seq<Cx>, v: Seq<Cx>, n: int) -> Cx
    decreases n,
{
    if n <= 0 {
        cx_zero()
    } else {
        cx_add(row_dot(row, v, n - 1), cx_mul(row[n - 1], v[n - 1]))
    }
}

/// Matrix-vector product over the exact complex numerators.
pub open spec fn matvec_cx(m: Seq<Seq<Cx>>, v: Seq<Cx>) -> Seq<Cx> {
    Seq::new(m.len(), |r: int| row_dot(m[r], v, v.len() as int))
}

/// Basis-state index of a list of qubit bit values, qubit 0 first and
/// most significant.
pub open spec fn basis_index(q: Seq<usize>) -> int
    decreases q.len(),
{
    if q.len() == 0 {
        0
    } else {
        basis_index(q.drop_last()) * 2 + q.last()
    }
}

/// A quantum state: `col` holds the amplitude numerators, over the
/// common denominator `sqrt(2)^denom`.
#[derive(Clone, Debug)]
pub struct QuantumState {
    pub col: Vec<Amplitude>,
    pub denom: u128,
}

impl QuantumState {
    /// The amplitude numerators as mathematical values.
    pub open spec fn val(self) -> Seq<Cx> {
        self.col.deep_view()
    }

    /// Create the basis state described by a list of bits, one per
    /// qubit, between one and six qubits.
    pub fn new(qubits: &[usize]) -> (r: QuantumState)
        requires
            1 <= qubits@.len() <= 6,
            forall|i: int| 0 <= i < qubits@.len() ==> #[trigger] qubits@[i] <= 1,
        ensures
            r.denom == 0,
            r.col@.len() == pow2(qubits@.len() as nat),
            forall|i: int|
                0 <= i < r.col@.len() ==> #[trigger] r.val()[i] == (
                if i == basis_index(qubits@) {
                    cx_one()
                } else {
                    cx_zero()
                }),
    {
        let n = qubits.len();
        proof {
            lemma2_to64();
        }
        let mut index: usize = 0;
        for i in 0..n
            invariant
                n == qubits@.len() <= 6,
                forall|ii: int| 0 <= ii < n ==> #[trigger] qubits@[ii] <= 1,
                index == basis_index(qubits@.take(i as int)),
                index < pow2(i as nat),
        {
            proof {
                lemma2_to64();
                assert(qubits@.take(i + 1).drop_last() =~= qubits@.take(i as int));
                assert(qubits@.take(i + 1).last() == qubits@[i as int]);
            }
            index = index * 2 + qubits[i];
        }
        proof {
            lemma2_to64();
            assert(qubits@.take(n as int) =~= qubits@);
        }
        let dim = pow2_usize(n);
        let mut col: Vec<Amplitude> = Vec::new();
        for i in 0..dim
            invariant
                col@.len() == i,
                index == basis_index(qubits@),
                forall|ii: int|
                    0 <= ii < i ==> (#[trigger] col@[ii])@ == (
                    if ii == basis_index(qubits@) {
                        cx_one()
                    } else {
                        cx_zero()
                    }),
        {
            if i == index {
                col.push(Amplitude { a: 1, b: 0, c: 0, d: 0 });
            } else {
                col.push(Amplitude { a: 0, b: 0, c: 0, d: 0 });
            }
        }
        let r = QuantumState { col, denom: 0 };
        proof {
            assert forall|i: int| 0 <= i < r.col@.len() implies #[trigger] r.val()[i] == (
            if i == basis_index(qubits@) {
                cx_one()
            } else {
                cx_zero()
            }) by {
                assert(r.val()[i] == r.col@[i]@);
            }
        }
        r
    }

    /// Number of qubits of the state: the base-two logarithm of the
    /// vector length.
    pub fn size(&self) -> (r: usize)
        requires
            exists|m: nat| m <= 6 && self.col@.len() == pow2(m),
        ensures
            r <= 6,
            self.col@.len() == pow2(r as nat),
    {
        proof {
            lemma2_to64();
        }
        let len = self.col.len();
        if len == 1 {
            0
        } else if len == 2 {
            1
        } else if len == 4 {
            2
        } else if len == 8 {
            3
        } else if len == 16 {
            4
        } else if len == 32 {
            5
        } else {
            proof {
                let m = choose|m: nat| m <= 6 && self.col@.len() == pow2(m);
                lemma2_to64();
            }
            6
        }
    }

    /// Multiply the state vector by a gate's matrix, exactly.  Returns
    /// the new state unless some resulting coefficient falls outside
    /// the `i64` range; nothing is ever rounded.
    #[verifier::rlimit(60)]
    pub fn apply_gate(&self, gate: &QuantumGate) -> (r: Option<QuantumState>)
        requires
            gate.wf(),
            self.col@.len() == gate.matrix@.len(),
            self.denom + gate.denom <= u128::MAX,
        ensures
            r is Some <==> cx_seq_fits(matvec_cx(gate.val(), self.val())),
            r is Some ==> {
                let s = r->Some_0;
                &&& s.col@.len() == self.col@.len()
                &&& s.denom == self.denom + gate.denom
                &&& s.val() == matvec_cx(gate.val(), self.val())
            },
    {
        let dim = self.col.len();
        proof {
            lemma2_to64();
            if gate.size < 6 {
                lemma_pow2_strictly_increases(gate.size as nat, 6);
            }
        }
        let mut out: Vec<Amplitude> = Vec::new();
        let ghost mv = matvec_cx(gate.val(), self.val());
        for r in 0..dim
            invariant
                dim == self.col@.len() == gate.matrix@.len(),
                dim <= 64,
                gate.wf(),
                self.denom + gate.denom <= u128::MAX,
                mv == matvec_cx(gate.val(), self.val()),
                out@.len() == r,
                forall|i: int| 0 <= i < r ==> (#[trigger] out@[i])@ == mv[i],
        {
            let mut aa: i128 = 0;
            let mut ab: i128 = 0;
            let mut ac: i128 = 0;
            let mut ad: i128 = 0;
            for c in 0..dim
                invariant
                    dim == self.col@.len() == gate.matrix@.len(),
                    dim <= 64,
                    gate.wf(),
                    r < dim,
                    (Cx { a: aa as int, b: ab as int, c: ac as int, d: ad as int }) == row_dot(
                        gate.val()[r as int],
                        self.val(),
                        c as int,
                    ),
                    -((c as int) * 0x8000000000000000) <= aa as int <= (c as int)
                        * 0x8000000000000000,
                    -((c as int) * 0x8000000000000000) <= ab as int <= (c as int)
                        * 0x8000000000000000,
                    -((c as int) * 0x8000000000000000) <= ac as int <= (c as int)
                        * 0x8000000000000000,
                    -((c as int) * 0x8000000000000000) <= ad as int <= (c as int)
                        * 0x8000000000000000,
            {
                let e = gate.matrix[r][c];
                let v = self.col[c];
                let ghost prev = Cx { a: aa as int, b: ab as int, c: ac as int, d: ad as int };
                proof {
                    assert(gate.val()[r as int][c as int] == e@);
                    assert(self.val()[c as int] == v@);
                }
                if !e.zero {
                    if e.j == 0 {
                        aa = aa + (v.a as i128);
                        ab = ab + (v.b as i128);
                        ac = ac + (v.c as i128);
                        ad = ad + (v.d as i128);
                        proof {
                            assert(Cx { a: aa as int, b: ab as int, c: ac as int, d: ad as int }
                                == cx_add(prev, cx_mul(e@, v@)));
                        }
                    } else if e.j == 1 {
                        aa = aa - (v.d as i128);
                        ab = ab + (v.a as i128);
                        ac = ac + (v.b as i128);
                        ad = ad + (v.c as i128);
                        proof {
                            assert(Cx { a: aa as int, b: ab as int, c: ac as int, d: ad as int }
                                == cx_add(prev, cx_mul(e@, v@)));
                        }
                    } else if e.j == 2 {
                        aa = aa - (v.c as i128);
                        ab = ab - (v.d as i128);
                        ac = ac + (v.a as i128);
                        ad = ad + (v.b as i128);
                        proof {
                            assert(Cx { a: aa as int, b: ab as int, c: ac as int, d: ad as int }
                                == cx_add(prev, cx_mul(e@, v@)));
                        }
                    } else if e.j == 3 {
                        aa = aa - (v.b as i128);
                        ab = ab - (v.c as i128);
                        ac = ac - (v.d as i128);
                        ad = ad + (v.a as i128);
                        proof {
                            assert(Cx { a: aa as int, b: ab as int, c: ac as int, d: ad as int }
                                == cx_add(prev, cx_mul(e@, v@)));
                        }
                    } else if e.j == 4 {
                        aa = aa - (v.a as i128);
                        ab = ab - (v.b as i128);
                        ac = ac - (v.c as i128);
                        ad = ad - (v.d as i128);
                        proof {
                            assert(Cx { a: aa as int, b: ab as int, c: ac as int, d: ad as int }
                                == cx_add(prev, cx_mul(e@, v@)));
                        }
                    } else if e.j == 5 {
                        aa = aa + (v.d as i128);
                        ab = ab - (v.a as i128);
                        ac = ac - (v.b as i128);
                        ad = ad - (v.c as i128);
                        proof {
                            assert(Cx { a: aa as int, b: ab as int, c: ac as int, d: ad as int }
                                == cx_add(prev, cx_mul(e@, v@)));
                        }
                    } else if e.j == 6 {
                        aa = aa + (v.c as i128);
                        ab = ab + (v.d as i128);
                        ac = ac - (v.a as i128);
                        ad = ad - (v.b as i128);
                        proof {
                            assert(Cx { a: aa as int, b: ab as int, c: ac as int, d: ad as int }
                                == cx_add(prev, cx_mul(e@, v@)));
                        }
                    } else {
                        aa = aa + (v.b as i128);
                        ab = ab + (v.c as i128);
                        ac = ac + (v.d as i128);
                        ad = ad - (v.a as i128);
                        proof {
                            assert(Cx { a: aa as int, b: ab as int, c: ac as int, d: ad as int }
                                == cx_add(prev, cx_mul(e@, v@)));
                        }
                    }
                } else {
                    proof {
                        assert(Cx { a: aa as int, b: ab as int, c: ac as int, d: ad as int }
                            == cx_add(prev, cx_mul(e@, v@)));
                    }
                }
            }
            proof {
                assert(mv[r as int] == Cx {
                    a: aa as int,
                    b: ab as int,
                    c: ac as int,
                    d: ad as int,
                });
            }
            let lo: i128 = i64::MIN as i128;
            let hi: i128 = i64::MAX as i128;
            if aa < lo || aa > hi || ab < lo || ab > hi || ac < lo || ac > hi || ad < lo || ad
                > hi {
                proof {
                    assert(!cx_fits(mv[r as int]));
                }
                return None;
            }
            out.push(Amplitude { a: aa as i64, b: ab as i64, c: ac as i64, d: ad as i64 });
        }
        let s = QuantumState { col: out, denom: self.denom + (gate.denom as u128) };
        proof {
            assert(s.val() =~= mv);
        }
        Some(s)
    }
}

/// The basis index of the all-zero bit list is zero.
pub proof fn lemma_basis_zero(q: Seq<usize>)
    requires
        forall|i: int| 0 <= i < q.len() ==> #[trigger] q[i] == 0,
    ensures
        basis_index(q) == 0,
    decreases q.len(),
{
    if q.len() > 0 {
        lemma_basis_zero(q.drop_last());
    }
}

/// Every amplitude a state holds fits machine integers, by
/// construction.
pub proof fn lemma_state_fits(s: QuantumState)
    ensures
        cx_seq_fits(s.val()),
{
    assert forall|i: int| 0 <= i < s.val().len() implies cx_fits(#[trigger] s.val()[i]) by {
        assert(s.val()[i] == s.col@[i]@);
    }
}

/// `2^n` for `n <= 6`.
pub fn pow2_usize(n: usize) -> (r: usize)
    requires
        n <= 6,
    ensures
        r == pow2(n as nat),
        r <= 64,
{
    proof {
        lemma2_to64();
    }
    let mut r: usize = 1;
    let mut i: usize = 0;
    while i < n
        invariant
            i <= n <= 6,
            r == pow2(i as nat),
            r <= 64,
        decreases n - i,
    {
        proof {
            lemma2_to64();
        }
        r = r * 2;
        i = i + 1;
    }
    r
}

} // verus!
