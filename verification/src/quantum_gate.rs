//! The catalog of gates and the Kronecker product.
//!
//! A gate holds a square matrix of size `2^size` whose entries are all
//! of the shape `s * w^j` with `s` in `{-1, 0, 1}` and `w = e^(i*pi/4)`
//! (see `complex`), together with a common denominator `sqrt(2)^denom`.
//! Every matrix in the catalog has this shape, and the shape is closed
//! under the Kronecker product, so entries never need more than one
//! coefficient.  The Hadamard gate is the only one with a nonzero
//! `denom`.

use vstd::prelude::*;
use vstd::arithmetic::power2::{pow2, lemma2_to64, lemma_pow2_adds, lemma_pow2_pos,
    lemma_pow2_strictly_increases};

use crate::complex::{Cx, cx_zero, cx_one, cx_mul};

verus! {

/// One matrix entry: either zero, or the eighth root of unity power
/// `w^j` with `0 <= j < 8`.  Since `w^4 == -1`, the sign of an entry is
/// carried by the power itself.
#[derive(Clone, Copy, Debug, PartialEq, Eq, Structural)]
pub struct GateEntry {
    pub zero: bool,
    pub j: u8,
}

pub open spec fn entry_wf(e: GateEntry) -> bool {
    e.j < 8
}

/// `w^j` for `0 <= j < 8`: the four basis vectors and their negations.
pub open spec fn omega_pow(j: int) -> Cx {
    if j == 0 {
        Cx { a: 1, b: 0, c: 0, d: 0 }
    } else if j == 1 {
        Cx { a: 0, b: 1, c: 0, d: 0 }
    } else if j == 2 {
        Cx { a: 0, b: 0, c: 1, d: 0 }
    } else if j == 3 {
        Cx { a: 0, b: 0, c: 0, d: 1 }
    } else if j == 4 {
        Cx { a: -1, b: 0, c: 0, d: 0 }
    } else if j == 5 {
        Cx { a: 0, b: -1, c: 0, d: 0 }
    } else if j == 6 {
        Cx { a: 0, b: 0, c: -1, d: 0 }
    } else {
        Cx { a: 0, b: 0, c: 0, d: -1 }
    }
}

impl View for GateEntry {
    type V = Cx;

    open spec fn view(&self) -> Cx {
        if self.zero {
            cx_zero()
        } else {
            omega_pow(self.j as int)
        }
    }
}

impl DeepView for GateEntry {
    type V = Cx;

    open spec fn deep_view(&self) -> Cx {
        self.view()
    }
}

/// The entry holding zero.
pub open spec fn ge_zero() -> GateEntry {
    GateEntry { zero: true, j: 0 }
}

/// Product of two entries: powers of `w` add modulo 8.
fn entry_mul(x: GateEntry, y: GateEntry) -> (r: GateEntry)
    requires
        entry_wf(x),
        entry_wf(y),
    ensures
        entry_wf(r),
        r@ == cx_mul(x@, y@),
{
    let r = if x.zero || y.zero {
        GateEntry { zero: true, j: 0 }
    } else {
        let jj = x.j + y.j;
        GateEntry { zero: false, j: if jj >= 8 { jj - 8 } else { jj } }
    };
    proof {
        assert(r@ == cx_mul(x@, y@));
    }
    r
}

/// The identity matrix of dimension `n`.
pub open spec fn id_mat(n: nat) -> Seq<Seq<Cx>> {
    Seq::new(n, |r: int| Seq::new(n, |c: int| if r == c { cx_one() } else { cx_zero() }))
}

/// Kronecker product of two square matrices.
pub open spec fn kron_cx(x: Seq<Seq<Cx>>, y: Seq<Seq<Cx>>) -> Seq<Seq<Cx>> {
    Seq::new(
        x.len() * y.len(),
        |r: int|
            Seq::new(
                x.len() * y.len(),
                |c: int|
                    cx_mul(
                        x[r / (y.len() as int)][c / (y.len() as int)],
                        y[r % (y.len() as int)][c % (y.len() as int)],
                    ),
            ),
    )
}

/// A gate: a square matrix of dimension `2^size` over entries
/// `0` or `w^j`, with an implicit common denominator `sqrt(2)^denom`.
#[derive(Clone, Debug)]
pub struct QuantumGate {
    pub matrix: Vec<Vec<GateEntry>>,
    pub size: usize,
    pub denom: usize,
}

impl QuantumGate {
    /// The matrix as a grid of exact complex values (numerators; the
    /// true entry values carry the extra factor `sqrt(2)^-denom`).
    pub open spec fn val(self) -> Seq<Seq<Cx>> {
        self.matrix.deep_view()
    }

    pub open spec fn wf(self) -> bool {
        &&& self.size <= 6
        &&& self.denom <= self.size
        &&& self.matrix@.len() == pow2(self.size as nat)
        &&& forall|r: int|
            0 <= r < self.matrix@.len() ==> (#[trigger] self.matrix@[r])@.len()
                == self.matrix@.len()
        &&& forall|r: int, c: int|
            0 <= r < self.matrix@.len() && 0 <= c < self.matrix@.len() ==> entry_wf(
                #[trigger] self.matrix@[r]@[c],
            )
    }
}

/// Builds the square matrix that has exactly one (potentially) nonzero
/// entry per column: column `c` holds `cols[c].1` in row `cols[c].0`.
/// Every gate of the catalog except Hadamard has this shape.
fn mono_matrix(cols: &Vec<(usize, GateEntry)>) -> (m: Vec<Vec<GateEntry>>)
    requires
        forall|c: int| 0 <= c < cols@.len() ==> (#[trigger] cols@[c]).0 < cols@.len(),
        forall|c: int| 0 <= c < cols@.len() ==> entry_wf((#[trigger] cols@[c]).1),
    ensures
        m@.len() == cols@.len(),
        forall|r: int| 0 <= r < m@.len() ==> (#[trigger] m@[r])@.len() == cols@.len(),
        forall|r: int, c: int|
            0 <= r < m@.len() && 0 <= c < m@.len() ==> (#[trigger] m@[r]@[c]) == (
            if r == cols@[c].0 {
                cols@[c].1
            } else {
                ge_zero()
            }),
{
    let n = cols.len();
    let mut m: Vec<Vec<GateEntry>> = Vec::new();
    for r in 0..n
        invariant
            n == cols@.len(),
            forall|c: int| 0 <= c < cols@.len() ==> (#[trigger] cols@[c]).0 < cols@.len(),
            m@.len() == r,
            forall|rr: int| 0 <= rr < r ==> (#[trigger] m@[rr])@.len() == n,
            forall|rr: int, cc: int|
                0 <= rr < r && 0 <= cc < n ==> (#[trigger] m@[rr]@[cc]) == (
                if rr == cols@[cc].0 {
                    cols@[cc].1
                } else {
                    ge_zero()
                }),
    {
        let mut row: Vec<GateEntry> = Vec::new();
        for c in 0..n
            invariant
                n == cols@.len(),
                forall|cc: int| 0 <= cc < cols@.len() ==> (#[trigger] cols@[cc]).0 < cols@.len(),
                row@.len() == c,
                forall|cc: int|
                    0 <= cc < c ==> (#[trigger] row@[cc]) == (
                    if r == cols@[cc].0 {
                        cols@[cc].1
                    } else {
                        ge_zero()
                    }),
        {
            if r == cols[c].0 {
                row.push(cols[c].1);
            } else {
                row.push(GateEntry { zero: true, j: 0 });
            }
        }
        m.push(row);
    }
    m
}

// ---------------------------------------------------------------------
// The catalog matrices, as mathematical values.
// ---------------------------------------------------------------------

pub open spec fn cx_i() -> Cx {
    omega_pow(2)
}

pub open spec fn cx_minus_one() -> Cx {
    omega_pow(4)
}

pub open spec fn x_mat() -> Seq<Seq<Cx>> {
    Seq::new(2, |r: int| Seq::new(2, |c: int| if r == c { cx_zero() } else { cx_one() }))
}

pub open spec fn y_mat() -> Seq<Seq<Cx>> {
    Seq::new(
        2,
        |r: int|
            Seq::new(
                2,
                |c: int|
                    if r == 1 && c == 0 {
                        omega_pow(2)
                    } else if r == 0 && c == 1 {
                        omega_pow(6)
                    } else {
                        cx_zero()
                    },
            ),
    )
}

pub open spec fn z_mat() -> Seq<Seq<Cx>> {
    Seq::new(
        2,
        |r: int|
            Seq::new(
                2,
                |c: int|
                    if r == c {
                        if r == 1 {
                            cx_minus_one()
                        } else {
                            cx_one()
                        }
                    } else {
                        cx_zero()
                    },
            ),
    )
}

/// Hadamard numerators; this gate carries denominator `sqrt(2)^1`.
pub open spec fn h_mat() -> Seq<Seq<Cx>> {
    Seq::new(
        2,
        |r: int|
            Seq::new(
                2,
                |c: int|
                    if r == 1 && c == 1 {
                        cx_minus_one()
                    } else {
                        cx_one()
                    },
            ),
    )
}

pub open spec fn s_mat() -> Seq<Seq<Cx>> {
    Seq::new(
        2,
        |r: int|
            Seq::new(
                2,
                |c: int|
                    if r == c {
                        if r == 1 {
                            cx_i()
                        } else {
                            cx_one()
                        }
                    } else {
                        cx_zero()
                    },
            ),
    )
}

pub open spec fn t_mat() -> Seq<Seq<Cx>> {
    Seq::new(
        2,
        |r: int|
            Seq::new(
                2,
                |c: int|
                    if r == c {
                        if r == 1 {
                            omega_pow(1)
                        } else {
                            cx_one()
                        }
                    } else {
                        cx_zero()
                    },
            ),
    )
}

pub open spec fn cnot_mat() -> Seq<Seq<Cx>> {
    Seq::new(
        4,
        |r: int|
            Seq::new(
                4,
                |c: int|
                    if (c < 2 && r == c) || (c == 2 && r == 3) || (c == 3 && r == 2) {
                        cx_one()
                    } else {
                        cx_zero()
                    },
            ),
    )
}

pub open spec fn cz_mat() -> Seq<Seq<Cx>> {
    Seq::new(
        4,
        |r: int|
            Seq::new(
                4,
                |c: int|
                    if r == c {
                        if r == 3 {
                            cx_minus_one()
                        } else {
                            cx_one()
                        }
                    } else {
                        cx_zero()
                    },
            ),
    )
}

pub open spec fn swap_mat() -> Seq<Seq<Cx>> {
    Seq::new(
        4,
        |r: int|
            Seq::new(
                4,
                |c: int|
                    if (c == 1 && r == 2) || (c == 2 && r == 1) || (r == c && (c == 0 || c == 3)) {
                        cx_one()
                    } else {
                        cx_zero()
                    },
            ),
    )
}

pub open spec fn ccnot_mat() -> Seq<Seq<Cx>> {
    Seq::new(
        8,
        |r: int|
            Seq::new(
                8,
                |c: int|
                    if (c < 6 && r == c) || (c == 6 && r == 7) || (c == 7 && r == 6) {
                        cx_one()
                    } else {
                        cx_zero()
                    },
            ),
    )
}

/// Controlled `m` with the control on the upper qubit:
/// block-diagonal `[I, m]`.
pub open spec fn c_down_mat(m: Seq<Seq<Cx>>) -> Seq<Seq<Cx>> {
    Seq::new(
        4,
        |r: int|
            Seq::new(
                4,
                |c: int|
                    if r < 2 || c < 2 {
                        if r == c {
                            cx_one()
                        } else {
                            cx_zero()
                        }
                    } else {
                        m[r - 2][c - 2]
                    },
            ),
    )
}

/// Controlled `m` with the control on the lower qubit.
pub open spec fn c_up_mat(m: Seq<Seq<Cx>>) -> Seq<Seq<Cx>> {
    Seq::new(
        4,
        |r: int|
            Seq::new(
                4,
                |c: int|
                    if r == 0 && c == 0 {
                        cx_one()
                    } else if r == 2 && c == 2 {
                        cx_one()
                    } else if r % 2 == 1 && c % 2 == 1 {
                        m[r / 2][c / 2]
                    } else {
                        cx_zero()
                    },
            ),
    )
}

// ---------------------------------------------------------------------
// The executable catalog.
// ---------------------------------------------------------------------

impl QuantumGate {
    /// The width-zero gate with the one-by-one identity matrix: the
    /// neutral element of the Kronecker product.
    pub fn unit_gate() -> (r: QuantumGate)
        ensures
            r.wf(),
            r.size == 0,
            r.denom == 0,
            r.val() == id_mat(1),
    {
        let mut row: Vec<GateEntry> = Vec::new();
        row.push(GateEntry { zero: false, j: 0 });
        let mut m: Vec<Vec<GateEntry>> = Vec::new();
        m.push(row);
        let g = QuantumGate { matrix: m, size: 0, denom: 0 };
        proof {
            lemma2_to64();
            assert(g.val() =~~= id_mat(1));
        }
        g
    }

    pub fn i_gate() -> (r: QuantumGate)
        ensures
            r.wf(),
            r.size == 1,
            r.denom == 0,
            r.val() == id_mat(2),
    {
        let e = GateEntry { zero: false, j: 0 };
        let mut cols: Vec<(usize, GateEntry)> = Vec::new();
        cols.push((0, e));
        cols.push((1, e));
        let m = mono_matrix(&cols);
        let g = QuantumGate { matrix: m, size: 1, denom: 0 };
        proof {
            lemma2_to64();
            assert(g.val() =~~= id_mat(2));
        }
        g
    }

    pub fn x_gate() -> (r: QuantumGate)
        ensures
            r.wf(),
            r.size == 1,
            r.denom == 0,
            r.val() == x_mat(),
    {
        let e = GateEntry { zero: false, j: 0 };
        let mut cols: Vec<(usize, GateEntry)> = Vec::new();
        cols.push((1, e));
        cols.push((0, e));
        let m = mono_matrix(&cols);
        let g = QuantumGate { matrix: m, size: 1, denom: 0 };
        proof {
            lemma2_to64();
            assert(g.val() =~~= x_mat());
        }
        g
    }

    pub fn y_gate() -> (r: QuantumGate)
        ensures
            r.wf(),
            r.size == 1,
            r.denom == 0,
            r.val() == y_mat(),
    {
        let mut cols: Vec<(usize, GateEntry)> = Vec::new();
        cols.push((1, GateEntry { zero: false, j: 2 }));
        cols.push((0, GateEntry { zero: false, j: 6 }));
        let m = mono_matrix(&cols);
        let g = QuantumGate { matrix: m, size: 1, denom: 0 };
        proof {
            lemma2_to64();
            assert(g.val() =~~= y_mat());
        }
        g
    }

    pub fn z_gate() -> (r: QuantumGate)
        ensures
            r.wf(),
            r.size == 1,
            r.denom == 0,
            r.val() == z_mat(),
    {
        let mut cols: Vec<(usize, GateEntry)> = Vec::new();
        cols.push((0, GateEntry { zero: false, j: 0 }));
        cols.push((1, GateEntry { zero: false, j: 4 }));
        let m = mono_matrix(&cols);
        let g = QuantumGate { matrix: m, size: 1, denom: 0 };
        proof {
            lemma2_to64();
            assert(g.val() =~~= z_mat());
        }
        g
    }

    /// Hadamard: numerators `[[1, 1], [1, -1]]` over denominator `sqrt(2)`.
    pub fn h_gate() -> (r: QuantumGate)
        ensures
            r.wf(),
            r.size == 1,
            r.denom == 1,
            r.val() == h_mat(),
    {
        let one_e = GateEntry { zero: false, j: 0 };
        let neg_e = GateEntry { zero: false, j: 4 };
        let mut r0: Vec<GateEntry> = Vec::new();
        r0.push(one_e);
        r0.push(one_e);
        let mut r1: Vec<GateEntry> = Vec::new();
        r1.push(one_e);
        r1.push(neg_e);
        let mut m: Vec<Vec<GateEntry>> = Vec::new();
        m.push(r0);
        m.push(r1);
        let g = QuantumGate { matrix: m, size: 1, denom: 1 };
        proof {
            lemma2_to64();
            assert(g.val() =~~= h_mat());
        }
        g
    }

    pub fn s_gate() -> (r: QuantumGate)
        ensures
            r.wf(),
            r.size == 1,
            r.denom == 0,
            r.val() == s_mat(),
    {
        let mut cols: Vec<(usize, GateEntry)> = Vec::new();
        cols.push((0, GateEntry { zero: false, j: 0 }));
        cols.push((1, GateEntry { zero: false, j: 2 }));
        let m = mono_matrix(&cols);
        let g = QuantumGate { matrix: m, size: 1, denom: 0 };
        proof {
            lemma2_to64();
            assert(g.val() =~~= s_mat());
        }
        g
    }

    pub fn t_gate() -> (r: QuantumGate)
        ensures
            r.wf(),
            r.size == 1,
            r.denom == 0,
            r.val() == t_mat(),
    {
        let mut cols: Vec<(usize, GateEntry)> = Vec::new();
        cols.push((0, GateEntry { zero: false, j: 0 }));
        cols.push((1, GateEntry { zero: false, j: 1 }));
        let m = mono_matrix(&cols);
        let g = QuantumGate { matrix: m, size: 1, denom: 0 };
        proof {
            lemma2_to64();
            assert(g.val() =~~= t_mat());
        }
        g
    }

    pub fn cnot_gate() -> (r: QuantumGate)
        ensures
            r.wf(),
            r.size == 2,
            r.denom == 0,
            r.val() == cnot_mat(),
    {
        let e = GateEntry { zero: false, j: 0 };
        let mut cols: Vec<(usize, GateEntry)> = Vec::new();
        cols.push((0, e));
        cols.push((1, e));
        cols.push((3, e));
        cols.push((2, e));
        let m = mono_matrix(&cols);
        let g = QuantumGate { matrix: m, size: 2, denom: 0 };
        proof {
            lemma2_to64();
            assert(g.val() =~~= cnot_mat());
        }
        g
    }

    pub fn cz_gate() -> (r: QuantumGate)
        ensures
            r.wf(),
            r.size == 2,
            r.denom == 0,
            r.val() == cz_mat(),
    {
        let e = GateEntry { zero: false, j: 0 };
        let mut cols: Vec<(usize, GateEntry)> = Vec::new();
        cols.push((0, e));
        cols.push((1, e));
        cols.push((2, e));
        cols.push((3, GateEntry { zero: false, j: 4 }));
        let m = mono_matrix(&cols);
        let g = QuantumGate { matrix: m, size: 2, denom: 0 };
        proof {
            lemma2_to64();
            assert(g.val() =~~= cz_mat());
        }
        g
    }

    pub fn swap_gate() -> (r: QuantumGate)
        ensures
            r.wf(),
            r.size == 2,
            r.denom == 0,
            r.val() == swap_mat(),
    {
        let e = GateEntry { zero: false, j: 0 };
        let mut cols: Vec<(usize, GateEntry)> = Vec::new();
        cols.push((0, e));
        cols.push((2, e));
        cols.push((1, e));
        cols.push((3, e));
        let m = mono_matrix(&cols);
        let g = QuantumGate { matrix: m, size: 2, denom: 0 };
        proof {
            lemma2_to64();
            assert(g.val() =~~= swap_mat());
        }
        g
    }

    pub fn ccnot_gate() -> (r: QuantumGate)
        ensures
            r.wf(),
            r.size == 3,
            r.denom == 0,
            r.val() == ccnot_mat(),
    {
        let e = GateEntry { zero: false, j: 0 };
        let mut cols: Vec<(usize, GateEntry)> = Vec::new();
        cols.push((0, e));
        cols.push((1, e));
        cols.push((2, e));
        cols.push((3, e));
        cols.push((4, e));
        cols.push((5, e));
        cols.push((7, e));
        cols.push((6, e));
        let m = mono_matrix(&cols);
        let g = QuantumGate { matrix: m, size: 3, denom: 0 };
        proof {
            lemma2_to64();
            assert(g.val() =~~= ccnot_mat());
        }
        g
    }

    /// Controlled version of a one-qubit gate, control on the qubit
    /// above the target.
    pub fn c_down(gate_underneath: QuantumGate) -> (r: QuantumGate)
        requires
            gate_underneath.wf(),
            gate_underneath.size == 1,
        ensures
            r.wf(),
            r.size == 2,
            r.denom == gate_underneath.denom,
            r.val() == c_down_mat(gate_underneath.val()),
    {
        proof {
            lemma2_to64();
        }
        let one_e = GateEntry { zero: false, j: 0 };
        let z = GateEntry { zero: true, j: 0 };
        let mut r0: Vec<GateEntry> = Vec::new();
        r0.push(one_e);
        r0.push(z);
        r0.push(z);
        r0.push(z);
        let mut r1: Vec<GateEntry> = Vec::new();
        r1.push(z);
        r1.push(one_e);
        r1.push(z);
        r1.push(z);
        let mut r2: Vec<GateEntry> = Vec::new();
        r2.push(z);
        r2.push(z);
        r2.push(gate_underneath.matrix[0][0]);
        r2.push(gate_underneath.matrix[0][1]);
        let mut r3: Vec<GateEntry> = Vec::new();
        r3.push(z);
        r3.push(z);
        r3.push(gate_underneath.matrix[1][0]);
        r3.push(gate_underneath.matrix[1][1]);
        let mut m: Vec<Vec<GateEntry>> = Vec::new();
        m.push(r0);
        m.push(r1);
        m.push(r2);
        m.push(r3);
        let g = QuantumGate { matrix: m, size: 2, denom: gate_underneath.denom };
        proof {
            assert(g.val() =~~= c_down_mat(gate_underneath.val()));
        }
        g
    }

    /// Controlled version of a one-qubit gate, control on the qubit
    /// below the target.
    pub fn c_up(gate_above: QuantumGate) -> (r: QuantumGate)
        requires
            gate_above.wf(),
            gate_above.size == 1,
        ensures
            r.wf(),
            r.size == 2,
            r.denom == gate_above.denom,
            r.val() == c_up_mat(gate_above.val()),
    {
        proof {
            lemma2_to64();
        }
        let one_e = GateEntry { zero: false, j: 0 };
        let z = GateEntry { zero: true, j: 0 };
        let mut r0: Vec<GateEntry> = Vec::new();
        r0.push(one_e);
        r0.push(z);
        r0.push(z);
        r0.push(z);
        let mut r1: Vec<GateEntry> = Vec::new();
        r1.push(z);
        r1.push(gate_above.matrix[0][0]);
        r1.push(z);
        r1.push(gate_above.matrix[0][1]);
        let mut r2: Vec<GateEntry> = Vec::new();
        r2.push(z);
        r2.push(z);
        r2.push(one_e);
        r2.push(z);
        let mut r3: Vec<GateEntry> = Vec::new();
        r3.push(z);
        r3.push(gate_above.matrix[1][0]);
        r3.push(z);
        r3.push(gate_above.matrix[1][1]);
        let mut m: Vec<Vec<GateEntry>> = Vec::new();
        m.push(r0);
        m.push(r1);
        m.push(r2);
        m.push(r3);
        let g = QuantumGate { matrix: m, size: 2, denom: gate_above.denom };
        proof {
            assert(g.val() =~~= c_up_mat(gate_above.val()));
        }
        g
    }

    /// Kronecker product: the combined gate acts on the qubits of
    /// `self` (more significant) followed by the qubits of `other`.
    pub fn kronecker(&self, other: &QuantumGate) -> (r: QuantumGate)
        requires
            self.wf(),
            other.wf(),
            self.size + other.size <= 6,
        ensures
            r.wf(),
            r.size == self.size + other.size,
            r.denom == self.denom + other.denom,
            r.val() == kron_cx(self.val(), other.val()),
    {
        let da = self.matrix.len();
        let db = other.matrix.len();
        proof {
            lemma_pow2_adds(self.size as nat, other.size as nat);
            lemma_pow2_pos(other.size as nat);
            lemma2_to64();
            if (self.size + other.size) < 6 {
                lemma_pow2_strictly_increases((self.size + other.size) as nat, 6);
            }
        }
        let n = da * db;
        let mut m: Vec<Vec<GateEntry>> = Vec::new();
        for r in 0..n
            invariant
                n == da * db,
                da == self.matrix@.len(),
                db == other.matrix@.len(),
                n <= 64,
                db > 0,
                self.wf(),
                other.wf(),
                m@.len() == r,
                forall|rr: int| 0 <= rr < r ==> (#[trigger] m@[rr])@.len() == n,
                forall|rr: int, cc: int|
                    0 <= rr < r && 0 <= cc < n ==> entry_wf(#[trigger] m@[rr]@[cc]),
                forall|rr: int, cc: int|
                    0 <= rr < r && 0 <= cc < n ==> (#[trigger] m@[rr]@[cc])@ == cx_mul(
                        self.matrix@[rr / (db as int)]@[cc / (db as int)]@,
                        other.matrix@[rr % (db as int)]@[cc % (db as int)]@,
                    ),
        {
            let mut row: Vec<GateEntry> = Vec::new();
            proof {
                assert(r / db < da && r % db < db) by (nonlinear_arith)
                    requires
                        0 <= r < da * db,
                        db > 0,
                ;
            }
            for c in 0..n
                invariant
                    n == da * db,
                    da == self.matrix@.len(),
                    db == other.matrix@.len(),
                    n <= 64,
                    db > 0,
                    r < n,
                    r / db < da,
                    r % db < db,
                    self.wf(),
                    other.wf(),
                    row@.len() == c,
                    forall|cc: int| 0 <= cc < c ==> entry_wf(#[trigger] row@[cc]),
                    forall|cc: int|
                        0 <= cc < c ==> (#[trigger] row@[cc])@ == cx_mul(
                            self.matrix@[r as int / (db as int)]@[cc / (db as int)]@,
                            other.matrix@[r as int % (db as int)]@[cc % (db as int)]@,
                        ),
            {
                proof {
                    assert(c / db < da && c % db < db) by (nonlinear_arith)
                        requires
                            0 <= c < da * db,
                            db > 0,
                    ;
                }
                let e = entry_mul(self.matrix[r / db][c / db], other.matrix[r % db][c % db]);
                row.push(e);
            }
            m.push(row);
        }
        let g = QuantumGate {
            matrix: m,
            size: self.size + other.size,
            denom: self.denom + other.denom,
        };
        proof {
            assert forall|rr: int, cc: int|
                0 <= rr < n && 0 <= cc < n implies g.val()[rr][cc] == kron_cx(
                self.val(),
                other.val(),
            )[rr][cc] by {
                assert(rr / (db as int) < da as int && cc / (db as int) < da as int && rr % (
                db as int) < db as int && cc % (db as int) < db as int) by (nonlinear_arith)
                    requires
                        0 <= rr < da * db,
                        0 <= cc < da * db,
                        db > 0,
                ;
            }
            assert(g.val() =~~= kron_cx(self.val(), other.val()));
        }
        g
    }
}

} // verus!
