//! Parsing a validated grid into ordered gate placements.
//!
//! Each column of the grid becomes one parsed step: a list of
//! placements, each a gate together with the index of the top-most
//! qubit row it occupies, in increasing row order.  A primary
//! multi-qubit token consumes its row and the rows of its continuation
//! tokens as one placement; every other token consumes its row alone.
//!
//! The grammar leaves `CZ` ambiguous: its matrix spans two qubits but
//! the token occupies a single cell, so a column holding it cannot be
//! covered exactly by the placements' widths.  Parsing maps the token
//! to the two-qubit catalog gate as written; the simulator accepts
//! only circuits without `CZ` (see `simulator`).

use vstd::prelude::*;

use crate::complex::Cx;
use crate::circuit_validator::{GateToken, col_tokens, col_all_valid, col_align_ok,
    spec_col_error, spec_validate, spec_token_of, is_continuation, follow_token,
    lemma_valid_grid, token_of};
use crate::quantum_gate::{QuantumGate, id_mat, x_mat, y_mat, z_mat, h_mat, s_mat, t_mat,
    cnot_mat, cz_mat, swap_mat, ccnot_mat};

verus! {

/// A gate as a mathematical value: its matrix of numerators, its qubit
/// width, and its `sqrt(2)` denominator exponent.
pub struct SpecGate {
    pub mat: Seq<Seq<Cx>>,
    pub width: nat,
    pub denom: nat,
}

/// A placement as a mathematical value: a gate and the top-most row it
/// occupies.
pub struct SpecPlacement {
    pub gate: SpecGate,
    pub start: int,
}

/// The catalog gate a token denotes.  Continuation tokens never open a
/// placement; they are given the identity here so that the function is
/// total.
pub open spec fn gate_for(t: GateToken) -> SpecGate {
    match t {
        GateToken::I => SpecGate { mat: id_mat(2), width: 1, denom: 0 },
        GateToken::H => SpecGate { mat: h_mat(), width: 1, denom: 1 },
        GateToken::X => SpecGate { mat: x_mat(), width: 1, denom: 0 },
        GateToken::Y => SpecGate { mat: y_mat(), width: 1, denom: 0 },
        GateToken::Z => SpecGate { mat: z_mat(), width: 1, denom: 0 },
        GateToken::T => SpecGate { mat: t_mat(), width: 1, denom: 0 },
        GateToken::S => SpecGate { mat: s_mat(), width: 1, denom: 0 },
        GateToken::Cz => SpecGate { mat: cz_mat(), width: 2, denom: 0 },
        GateToken::Cnot1 => SpecGate { mat: cnot_mat(), width: 2, denom: 0 },
        GateToken::Swap1 => SpecGate { mat: swap_mat(), width: 2, denom: 0 },
        GateToken::Ccnot1 => SpecGate { mat: ccnot_mat(), width: 3, denom: 0 },
        _ => SpecGate { mat: id_mat(2), width: 1, denom: 0 },
    }
}

/// How many rows of a column the token's placement consumes.  `CZ` is
/// a single cell, so it consumes one row even though its gate is two
/// qubits wide.
pub open spec fn rows_of(t: GateToken) -> int {
    match t {
        GateToken::Cnot1 => 2,
        GateToken::Swap1 => 2,
        GateToken::Ccnot1 => 3,
        _ => 1,
    }
}

/// The placements of a column of tokens from row `i` downward.  On a
/// validated column, continuation tokens are always consumed by the
/// primary above them, never met here at a placement boundary.
pub open spec fn parse_col(col: Seq<GateToken>, i: int) -> Seq<SpecPlacement>
    decreases col.len() - i,
{
    if i >= col.len() {
        Seq::empty()
    } else {
        let t = col[i];
        let nx = if i + rows_of(t) <= col.len() {
            i + rows_of(t)
        } else {
            col.len() as int
        };
        if is_continuation(t) {
            parse_col(col, i + 1)
        } else {
            seq![SpecPlacement { gate: gate_for(t), start: i }] + parse_col(col, nx)
        }
    }
}

/// Sum of the qubit widths of a list of placements.
pub open spec fn widths_sum(sps: Seq<SpecPlacement>) -> int
    decreases sps.len(),
{
    if sps.len() == 0 {
        0
    } else {
        sps[0].gate.width + widths_sum(sps.drop_first())
    }
}

pub proof fn lemma_widths_cons(p: SpecPlacement, s: Seq<SpecPlacement>)
    ensures
        widths_sum(seq![p] + s) == p.gate.width + widths_sum(s),
{
    assert((seq![p] + s).drop_first() =~= s);
    assert((seq![p] + s)[0] == p);
}

pub proof fn lemma_widths_concat(s1: Seq<SpecPlacement>, s2: Seq<SpecPlacement>)
    ensures
        widths_sum(s1 + s2) == widths_sum(s1) + widths_sum(s2),
    decreases s1.len(),
{
    if s1.len() == 0 {
        assert(s1 + s2 =~= s2);
    } else {
        assert((s1 + s2).drop_first() =~= s1.drop_first() + s2);
        assert((s1 + s2)[0] == s1[0]);
        lemma_widths_concat(s1.drop_first(), s2);
    }
}

pub proof fn lemma_widths_nonneg(s: Seq<SpecPlacement>)
    ensures
        widths_sum(s) >= 0,
    decreases s.len(),
{
    if s.len() > 0 {
        lemma_widths_nonneg(s.drop_first());
    }
}

/// On a validated column without `CZ`, the parsed placements' widths
/// cover the rows below `i` exactly once: parsing realizes the
/// "no overlap and no gap" reading of a column.
pub proof fn lemma_parse_covers(col: Seq<GateToken>, i: int)
    requires
        0 <= i <= col.len(),
        col_align_ok(col, i, None),
        forall|r: int| i <= r < col.len() ==> col[r] != GateToken::Cz,
    ensures
        widths_sum(parse_col(col, i)) == col.len() - i,
    decreases col.len() - i,
{
    if i < col.len() {
        let t = col[i];
        assert(!is_continuation(t));
        let pl = SpecPlacement { gate: gate_for(t), start: i };
        match t {
            GateToken::Cnot1 | GateToken::Swap1 => {
                assert(col_align_ok(col, i + 1, follow_token(t)));
                assert(i + 1 < col.len());
                assert(col_align_ok(col, i + 2, None));
                lemma_parse_covers(col, i + 2);
                lemma_widths_cons(pl, parse_col(col, i + 2));
            },
            GateToken::Ccnot1 => {
                assert(col_align_ok(col, i + 1, Some(GateToken::Ccnot2)));
                assert(i + 1 < col.len());
                assert(col_align_ok(col, i + 2, Some(GateToken::Ccnot3)));
                assert(i + 2 < col.len());
                assert(col_align_ok(col, i + 3, None));
                lemma_parse_covers(col, i + 3);
                lemma_widths_cons(pl, parse_col(col, i + 3));
            },
            _ => {
                assert(col_align_ok(col, i + 1, None));
                lemma_parse_covers(col, i + 1);
                lemma_widths_cons(pl, parse_col(col, i + 1));
            },
        }
    }
}

/// The executable gate realizes the mathematical one.
pub open spec fn pl_matches(p: Placement, sp: SpecPlacement) -> bool {
    &&& p.gate.wf()
    &&& p.gate.val() == sp.gate.mat
    &&& p.gate.size == sp.gate.width
    &&& p.gate.denom == sp.gate.denom
    &&& p.start == sp.start
}

pub open spec fn placements_match(ps: Seq<Placement>, sps: Seq<SpecPlacement>) -> bool {
    &&& ps.len() == sps.len()
    &&& forall|i: int| 0 <= i < ps.len() ==> pl_matches(#[trigger] ps[i], sps[i])
}

/// One parsed placement: a gate and the top-most qubit row it acts on.
#[derive(Clone, Debug)]
pub struct Placement {
    pub gate: QuantumGate,
    pub start: usize,
}

/// Convert a validated grid into one list of placements per column,
/// in column order; within a column the placements stand in increasing
/// row order and hold the catalog gate of their tokens.
pub fn build_circuit_from_data(grid: &Vec<Vec<&str>>) -> (r: Vec<Vec<Placement>>)
    requires
        spec_validate(grid.deep_view()) is Ok,
    ensures
        r@.len() == grid.deep_view()[0].len(),
        forall|j: int|
            0 <= j < r@.len() ==> placements_match(
                (#[trigger] r@[j])@,
                parse_col(col_tokens(grid.deep_view(), j), 0),
            ),
{
    let ghost gv = grid.deep_view();
    proof {
        lemma_valid_grid(gv);
        assert(gv.len() == grid@.len());
        assert forall|rr: int| 0 <= rr < gv.len() implies (#[trigger] gv[rr]).len()
            == grid@[rr]@.len() by {
            assert(gv[rr] == grid@[rr].deep_view());
        }
    }
    let n = grid.len();
    let cols = grid[0].len();
    let mut out: Vec<Vec<Placement>> = Vec::new();
    for j in 0..cols
        invariant
            gv == grid.deep_view(),
            n == gv.len(),
            1 <= n <= 6,
            cols == gv[0].len(),
            forall|rr: int| 0 <= rr < gv.len() ==> (#[trigger] gv[rr]).len() == cols,
            forall|rr: int| 0 <= rr < gv.len() ==> (#[trigger] gv[rr]).len() == grid@[rr]@.len(),
            forall|jj: int| 0 <= jj < cols ==> #[trigger] spec_col_error(gv, jj) is None,
            out@.len() == j,
            forall|jj: int|
                0 <= jj < j ==> placements_match(
                    (#[trigger] out@[jj])@,
                    parse_col(col_tokens(gv, jj), 0),
                ),
    {
        // Collect the column's tokens; validation guarantees each cell
        // holds one.
        let mut toks: Vec<GateToken> = Vec::new();
        for row in 0..n
            invariant
                gv == grid.deep_view(),
                n == gv.len(),
                j < cols,
                cols == gv[0].len(),
                forall|rr: int| 0 <= rr < gv.len() ==> (#[trigger] gv[rr]).len() == cols,
                forall|rr: int|
                    0 <= rr < gv.len() ==> (#[trigger] gv[rr]).len() == grid@[rr]@.len(),
                spec_col_error(gv, j as int) is None,
                toks@.len() == row,
                forall|rr: int|
                    0 <= rr < row ==> #[trigger] toks@[rr] == spec_token_of(
                        gv[rr][j as int],
                    )->Some_0,
        {
            proof {
                assert(gv[row as int][j as int] == grid@[row as int]@[j as int]@);
                assert(col_all_valid(gv, j as int));
                assert(spec_token_of(gv[row as int][j as int]) is Some);
            }
            let t = match token_of(grid[row][j]) {
                Some(t) => t,
                None => {
                    proof {
                        assert(false);
                    }
                    GateToken::I
                },
            };
            toks.push(t);
        }
        proof {
            assert(toks@ =~= col_tokens(gv, j as int));
        }
        // Walk the column, opening one placement per group of cells.
        let mut pls: Vec<Placement> = Vec::new();
        let ghost mut done: Seq<SpecPlacement> = Seq::empty();
        let mut i: usize = 0;
        while i < n
            invariant
                n == toks@.len(),
                i <= n,
                placements_match(pls@, done),
                parse_col(toks@, 0) == done + parse_col(toks@, i as int),
            decreases n - i,
        {
            let t = toks[i];
            let consumed: usize = match t {
                GateToken::Cnot1 => {
                    pls.push(Placement { gate: QuantumGate::cnot_gate(), start: i });
                    2
                },
                GateToken::Swap1 => {
                    pls.push(Placement { gate: QuantumGate::swap_gate(), start: i });
                    2
                },
                GateToken::Ccnot1 => {
                    pls.push(Placement { gate: QuantumGate::ccnot_gate(), start: i });
                    3
                },
                GateToken::Cz => {
                    pls.push(Placement { gate: QuantumGate::cz_gate(), start: i });
                    1
                },
                GateToken::I => {
                    pls.push(Placement { gate: QuantumGate::i_gate(), start: i });
                    1
                },
                GateToken::H => {
                    pls.push(Placement { gate: QuantumGate::h_gate(), start: i });
                    1
                },
                GateToken::X => {
                    pls.push(Placement { gate: QuantumGate::x_gate(), start: i });
                    1
                },
                GateToken::Y => {
                    pls.push(Placement { gate: QuantumGate::y_gate(), start: i });
                    1
                },
                GateToken::Z => {
                    pls.push(Placement { gate: QuantumGate::z_gate(), start: i });
                    1
                },
                GateToken::T => {
                    pls.push(Placement { gate: QuantumGate::t_gate(), start: i });
                    1
                },
                GateToken::S => {
                    pls.push(Placement { gate: QuantumGate::s_gate(), start: i });
                    1
                },
                GateToken::Cnot2 | GateToken::Swap2 | GateToken::Ccnot2 | GateToken::Ccnot3 => 1,
            };
            let ghost nx: int = if i + rows_of(t) <= toks@.len() {
                i + rows_of(t)
            } else {
                toks@.len() as int
            };
            proof {
                if is_continuation(t) {
                    assert(parse_col(toks@, i as int) == parse_col(toks@, i + 1));
                } else {
                    assert(parse_col(toks@, i as int) =~= seq![
                        SpecPlacement { gate: gate_for(t), start: i as int },
                    ] + parse_col(toks@, nx));
                    done = done.push(SpecPlacement { gate: gate_for(t), start: i as int });
                    assert(parse_col(toks@, 0) =~= done + parse_col(toks@, nx));
                }
            }
            i = if consumed <= n - i {
                i + consumed
            } else {
                n
            };
            proof {
                if !is_continuation(t) {
                    assert(i as int == nx);
                }
            }
        }
        proof {
            assert(parse_col(toks@, n as int) =~= Seq::<SpecPlacement>::empty());
            assert(done =~= done + parse_col(toks@, n as int));
            assert(placements_match(pls@, parse_col(col_tokens(gv, j as int), 0)));
        }
        out.push(pls);
    }
    out
}

} // verus!
