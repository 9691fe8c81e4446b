//! Proved properties of the evolution model.
//!
//! The statements here relate several functions of the engine, so they
//! stand as proof functions rather than in any one contract: a column
//! of identity gates leaves the state untouched at every step, and two
//! successive Hadamard gates on one qubit return the state it started
//! from.

use vstd::prelude::*;
use vstd::arithmetic::power2::{pow2, lemma_pow2_unfold, lemma_pow2_pos};

use crate::complex::{Cx, cx_zero, cx_one, cx_add, cx_mul, cx_neg, cx_scale, cx_sqrt2,
    cx_sqrt2_pow, lemma_sqrt2_twice};
use crate::circuit_validator::{GateToken, spec_token_of, col_tokens};
use crate::circuit_parser::{SpecGate, SpecPlacement, parse_col, gate_for};
use crate::quantum_gate::{id_mat, h_mat, kron_cx, cx_minus_one};
use crate::quantum_state::{matvec_cx, row_dot};
use crate::simulator::{SpecState, next_spec_state, trace_at, initial_spec_state, step_op,
    col_op};

verus! {

/// Two states denote the same physical state: their amplitudes agree
/// once both are brought over a common `sqrt(2)` denominator.
pub open spec fn state_equiv(a: SpecState, b: SpecState) -> bool {
    &&& a.amps.len() == b.amps.len()
    &&& forall|i: int|
        0 <= i < a.amps.len() ==> cx_sqrt2_pow(#[trigger] a.amps[i], b.denom) == cx_sqrt2_pow(
            b.amps[i],
            a.denom,
        )
}

proof fn lemma_sqrt2_scale(z: Cx, n: int)
    ensures
        cx_sqrt2(cx_scale(n, z)) == cx_scale(n, cx_sqrt2(z)),
{
    assert(cx_sqrt2(cx_scale(n, z)) == cx_scale(n, cx_sqrt2(z))) by (nonlinear_arith);
}

proof fn lemma_sqrt2_pow_scale(z: Cx, n: int, k: nat)
    ensures
        cx_sqrt2_pow(cx_scale(n, z), k) == cx_scale(n, cx_sqrt2_pow(z, k)),
    decreases k,
{
    if k > 0 {
        lemma_sqrt2_pow_scale(z, n, (k - 1) as nat);
        lemma_sqrt2_scale(cx_sqrt2_pow(z, (k - 1) as nat), n);
    }
}

/// The Hadamard gate of the catalog, as a mathematical value.
pub open spec fn h_spec_gate() -> SpecGate {
    gate_for(GateToken::H)
}

proof fn lemma_mul_one(z: Cx)
    ensures
        cx_mul(cx_one(), z) == z,
{
    assert(cx_mul(cx_one(), z) == z) by (nonlinear_arith);
}

proof fn lemma_mul_minus_one(z: Cx)
    ensures
        cx_mul(cx_minus_one(), z) == cx_neg(z),
{
    assert(cx_mul(cx_minus_one(), z) == cx_neg(z)) by (nonlinear_arith);
}

/// Applying Hadamard twice to a one-qubit state doubles every
/// numerator while the denominator gains `sqrt(2)^2 == 2`: the result
/// denotes exactly the state it started from.
pub proof fn lemma_h_round_trip(s: SpecState)
    requires
        s.amps.len() == 2,
    ensures
        next_spec_state(next_spec_state(s, h_spec_gate()), h_spec_gate()).denom == s.denom + 2,
        forall|i: int|
            0 <= i < 2 ==> #[trigger] next_spec_state(
                next_spec_state(s, h_spec_gate()),
                h_spec_gate(),
            ).amps[i] == cx_scale(2, s.amps[i]),
        state_equiv(next_spec_state(next_spec_state(s, h_spec_gate()), h_spec_gate()), s),
{
    reveal_with_fuel(row_dot, 4);
    let s1 = next_spec_state(s, h_spec_gate());
    let s2 = next_spec_state(s1, h_spec_gate());
    let z0 = s.amps[0];
    let z1 = s.amps[1];
    assert(s1.amps.len() == 2);
    assert(s1.amps[0] == cx_add(cx_add(cx_zero(), cx_mul(h_mat()[0][0], z0)), cx_mul(
        h_mat()[0][1],
        z1,
    )));
    lemma_mul_one(z0);
    lemma_mul_one(z1);
    assert(s1.amps[0] == cx_add(z0, z1));
    lemma_mul_minus_one(z1);
    assert(s1.amps[1] == cx_add(z0, cx_neg(z1)));
    lemma_mul_one(s1.amps[0]);
    lemma_mul_one(s1.amps[1]);
    lemma_mul_minus_one(s1.amps[1]);
    assert(s2.amps[0] == cx_add(s1.amps[0], s1.amps[1]));
    assert(s2.amps[0] == cx_scale(2, z0));
    assert(s2.amps[1] == cx_add(s1.amps[0], cx_neg(s1.amps[1])));
    assert(s2.amps[1] == cx_scale(2, z1));
    assert forall|i: int| 0 <= i < 2 implies cx_sqrt2_pow(#[trigger] s2.amps[i], s.denom)
        == cx_sqrt2_pow(s.amps[i], s2.denom) by {
        let z = s.amps[i];
        lemma_sqrt2_pow_scale(z, 2, s.denom);
        assert(cx_sqrt2_pow(z, s.denom + 2) == cx_sqrt2(cx_sqrt2(cx_sqrt2_pow(z, s.denom))))
            by {
            lemma_sqrt2_pow_unfold_twice(z, s.denom);
        }
        lemma_sqrt2_twice(cx_sqrt2_pow(z, s.denom));
    }
}

proof fn lemma_sqrt2_pow_unfold_twice(z: Cx, k: nat)
    ensures
        cx_sqrt2_pow(z, k + 2) == cx_sqrt2(cx_sqrt2(cx_sqrt2_pow(z, k))),
{
    assert(cx_sqrt2_pow(z, k + 2) == cx_sqrt2(cx_sqrt2_pow(z, k + 1)));
    assert(cx_sqrt2_pow(z, k + 1) == cx_sqrt2(cx_sqrt2_pow(z, k)));
}

// ---------------------------------------------------------------------
// Identity circuits leave the state untouched.
// ---------------------------------------------------------------------

proof fn lemma_kron_id(a: nat, b: nat)
    requires
        a >= 1,
        b >= 1,
    ensures
        kron_cx(id_mat(a), id_mat(b)) == id_mat(a * b),
{
    assert(a * b >= 1) by (nonlinear_arith)
        requires
            a >= 1,
            b >= 1,
    ;
    assert forall|r: int, c: int| 0 <= r < a * b && 0 <= c < a * b implies kron_cx(
        id_mat(a),
        id_mat(b),
    )[r][c] == id_mat(a * b)[r][c] by {
        let bi = b as int;
        assert(0 <= r / bi < a && 0 <= c / bi < a && 0 <= r % bi < b && 0 <= c % bi < b)
            by (nonlinear_arith)
            requires
                0 <= r < a * b,
                0 <= c < a * b,
                bi == b as int,
                b >= 1,
        ;
        assert((r == c) == (r / bi == c / bi && r % bi == c % bi)) by (nonlinear_arith)
            requires
                bi >= 1,
                r >= 0,
                c >= 0,
        ;
    }
    assert(kron_cx(id_mat(a), id_mat(b)) =~~= id_mat(a * b));
}

proof fn lemma_row_dot_id(n: nat, v: Seq<Cx>, r: int, m: int)
    requires
        v.len() == n,
        0 <= r < n,
        0 <= m <= n,
    ensures
        row_dot(id_mat(n)[r], v, m) == (if r < m {
            v[r]
        } else {
            cx_zero()
        }),
    decreases m,
{
    if m > 0 {
        lemma_row_dot_id(n, v, r, m - 1);
        if r == m - 1 {
            assert(cx_mul(id_mat(n)[r][m - 1], v[m - 1]) == v[r]);
        } else {
            assert(cx_mul(id_mat(n)[r][m - 1], v[m - 1]) == cx_zero());
        }
    }
}

/// The identity operator changes no amplitude.
pub proof fn lemma_matvec_id(v: Seq<Cx>)
    ensures
        matvec_cx(id_mat(v.len()), v) == v,
{
    assert forall|r: int| 0 <= r < v.len() implies matvec_cx(id_mat(v.len()), v)[r] == v[r] by {
        lemma_row_dot_id(v.len(), v, r, v.len() as int);
    }
    assert(matvec_cx(id_mat(v.len()), v) =~= v);
}

proof fn lemma_parse_all_i(col: Seq<GateToken>, i: int)
    requires
        0 <= i <= col.len(),
        forall|r: int| 0 <= r < col.len() ==> #[trigger] col[r] == GateToken::I,
    ensures
        parse_col(col, i).len() == col.len() - i,
        forall|p: int|
            0 <= p < col.len() - i ==> #[trigger] parse_col(col, i)[p].gate == gate_for(
                GateToken::I,
            ),
    decreases col.len() - i,
{
    if i < col.len() {
        lemma_parse_all_i(col, i + 1);
        assert(parse_col(col, i) =~= seq![
            SpecPlacement { gate: gate_for(GateToken::I), start: i },
        ] + parse_col(col, i + 1));
    }
}

proof fn lemma_col_op_id(sps: Seq<SpecPlacement>)
    requires
        forall|p: int| 0 <= p < sps.len() ==> #[trigger] sps[p].gate == gate_for(GateToken::I),
    ensures
        col_op(sps).width == sps.len(),
        col_op(sps).denom == 0,
        col_op(sps).mat == id_mat(pow2(sps.len())),
    decreases sps.len(),
{
    if sps.len() == 0 {
        assert(col_op(sps).mat =~~= id_mat(1));
        assert(pow2(0) == 1) by {
            vstd::arithmetic::power2::lemma2_to64();
        }
    } else {
        let m = (sps.len() - 1) as nat;
        lemma_col_op_id(sps.drop_last());
        lemma_pow2_pos(m);
        lemma_kron_id(pow2(m), 2);
        lemma_pow2_unfold((sps.len()) as nat);
        assert(pow2(m) * 2 == pow2(sps.len()));
        assert(col_op(sps).mat == kron_cx(id_mat(pow2(m)), id_mat(2)));
    }
}

/// A circuit consisting only of `I` tokens leaves the amplitude
/// vector untouched, at every step: the state after any number of
/// columns is the initial basis state, exactly.
pub proof fn lemma_identity_circuit(gv: Seq<Seq<Seq<char>>>, j: int)
    requires
        forall|r: int, c: int|
            0 <= r < gv.len() && 0 <= c < gv[r].len() ==> spec_token_of(#[trigger] gv[r][c])
                == Some(GateToken::I),
        forall|r: int| 0 <= r < gv.len() ==> (#[trigger] gv[r]).len() == gv[0].len(),
        0 <= j <= gv[0].len(),
    ensures
        trace_at(gv, j) == initial_spec_state(gv.len()),
    decreases j,
{
    let n = gv.len();
    if j > 0 {
        lemma_identity_circuit(gv, j - 1);
        let toks = col_tokens(gv, j - 1);
        assert forall|r: int| 0 <= r < toks.len() implies #[trigger] toks[r]
            == GateToken::I by {
            assert(spec_token_of(gv[r][j - 1]) == Some(GateToken::I));
        }
        lemma_parse_all_i(toks, 0);
        lemma_col_op_id(parse_col(toks, 0));
        assert(step_op(gv, j - 1).mat == id_mat(pow2(n)));
        assert(step_op(gv, j - 1).denom == 0);
        assert(initial_spec_state(n).amps.len() == pow2(n));
        lemma_matvec_id(initial_spec_state(n).amps);
        assert(trace_at(gv, j).amps =~= initial_spec_state(n).amps);
    }
}

} // verus!
