//! The state-evolution engine.
//!
//! For each column of a validated grid, the engine composes the
//! column's placements into one whole-system operator by folding the
//! Kronecker product in increasing qubit order, applies the operator
//! to the running state, and records every state, the initial one
//! included.  The recorded states are then permuted to the published
//! little-endian index order.
//!
//! Two inputs have no exact machine answer and are refused rather than
//! approximated: a grid holding `CZ`, whose single-cell token cannot
//! cover the two rows its matrix spans (see `circuit_parser`), and a
//! circuit whose exact amplitude numerators outgrow 64-bit integers.
//! `simulate_circuit` asks its caller to rule those out;
//! `simulate_circuit_checked` detects them and answers `None`.

use vstd::prelude::*;
use vstd::arithmetic::power2::pow2;

use crate::complex::{Cx, cx_zero, cx_one, cx_seq_fits};
use crate::circuit_validator::{QuantumCircuitError, GateToken, spec_validate, spec_token_of,
    col_tokens, col_all_valid, col_align_ok, spec_col_error, lemma_valid_grid,
    validate_grid_input, token_of};
use crate::circuit_parser::{SpecGate, SpecPlacement, parse_col, widths_sum, placements_match,
    pl_matches, build_circuit_from_data, lemma_parse_covers, lemma_widths_concat,
    lemma_widths_nonneg, lemma_widths_cons};
use crate::quantum_gate::{QuantumGate, id_mat, kron_cx};
use crate::quantum_state::{QuantumState, matvec_cx, lemma_basis_zero, lemma_state_fits};
use crate::utils::{to_little_endian, rev_bits};

verus! {

// ---------------------------------------------------------------------
// The mathematical model of a run.
// ---------------------------------------------------------------------

pub open spec fn unit_spec_gate() -> SpecGate {
    SpecGate { mat: id_mat(1), width: 0, denom: 0 }
}

pub open spec fn spec_kron_gate(a: SpecGate, b: SpecGate) -> SpecGate {
    SpecGate { mat: kron_cx(a.mat, b.mat), width: a.width + b.width, denom: a.denom + b.denom }
}

/// The whole-system operator of one column: the placements' gates
/// folded with the Kronecker product, top row leftmost.
pub open spec fn col_op(sps: Seq<SpecPlacement>) -> SpecGate
    decreases sps.len(),
{
    if sps.len() == 0 {
        unit_spec_gate()
    } else {
        spec_kron_gate(col_op(sps.drop_last()), sps.last().gate)
    }
}

/// The operator of column `j` of the grid.
pub open spec fn step_op(gv: Seq<Seq<Seq<char>>>, j: int) -> SpecGate {
    col_op(parse_col(col_tokens(gv, j), 0))
}

/// A state as a mathematical value: amplitude numerators over the
/// denominator `sqrt(2)^denom`.
pub struct SpecState {
    pub amps: Seq<Cx>,
    pub denom: nat,
}

/// The all-zero basis state of `n` qubits.
pub open spec fn initial_spec_state(n: nat) -> SpecState {
    SpecState {
        amps: Seq::new(
            pow2(n),
            |i: int|
                if i == 0 {
                    cx_one()
                } else {
                    cx_zero()
                },
        ),
        denom: 0,
    }
}

pub open spec fn next_spec_state(s: SpecState, g: SpecGate) -> SpecState {
    SpecState { amps: matvec_cx(g.mat, s.amps), denom: s.denom + g.denom }
}

/// The internal state after `j` steps: the initial state evolved by
/// the operators of columns `0 .. j`.
pub open spec fn trace_at(gv: Seq<Seq<Seq<char>>>, j: int) -> SpecState
    decreases j,
{
    if j <= 0 {
        initial_spec_state(gv.len())
    } else {
        next_spec_state(trace_at(gv, j - 1), step_op(gv, j - 1))
    }
}

/// Every state of the run keeps its numerators within 64-bit machine
/// integers, so the exact engine can represent the whole trace.
pub open spec fn trace_fits(gv: Seq<Seq<Seq<char>>>) -> bool {
    forall|j: int| 0 <= j <= gv[0].len() ==> cx_seq_fits(#[trigger] trace_at(gv, j).amps)
}

/// No cell of the grid holds the `CZ` token.
pub open spec fn no_cz(gv: Seq<Seq<Seq<char>>>) -> bool {
    forall|r: int, j: int|
        0 <= r < gv.len() && 0 <= j < gv[r].len() ==> spec_token_of(#[trigger] gv[r][j])
            != Some(GateToken::Cz)
}

/// A state permuted to the published little-endian index order.
pub open spec fn le_of(s: SpecState, n: nat) -> SpecState {
    SpecState { amps: Seq::new(s.amps.len(), |i: int| s.amps[rev_bits(i, n)]), denom: s.denom }
}

/// The executable state realizes the mathematical one.
pub open spec fn state_matches(qs: QuantumState, ss: SpecState) -> bool {
    &&& qs.val() == ss.amps
    &&& (qs.denom as nat) == ss.denom
}

// ---------------------------------------------------------------------
// The engine.
// ---------------------------------------------------------------------

/// Run a validated, `CZ`-free grid.  `None` exactly when some state of
/// the run outgrows 64-bit numerators; otherwise the full trace, state
/// `j` being the exact state after `j` columns, in little-endian index
/// order.
fn simulate_valid(grid: &Vec<Vec<&str>>) -> (r: Option<Vec<QuantumState>>)
    requires
        spec_validate(grid.deep_view()) is Ok,
        no_cz(grid.deep_view()),
    ensures
        ({
            let gv = grid.deep_view();
            &&& (r is Some <==> trace_fits(gv))
            &&& (r is Some ==> {
                let t = r->Some_0;
                &&& t@.len() == gv[0].len() + 1
                &&& (forall|j: int|
                    0 <= j < t@.len() ==> state_matches(
                        #[trigger] t@[j],
                        le_of(trace_at(gv, j), gv.len()),
                    ))
                &&& (forall|j: int|
                    0 <= j < t@.len() ==> (#[trigger] t@[j]).col@.len() == pow2(gv.len()))
            })
        }),
{
    let ghost gv = grid.deep_view();
    proof {
        lemma_valid_grid(gv);
        assert(gv.len() == grid@.len());
        assert(gv[0].len() == grid@[0]@.len());
    }
    let n = grid.len();
    let cols = grid[0].len();
    let circuit = build_circuit_from_data(grid);

    let mut zeros: Vec<usize> = Vec::new();
    for i in 0..n
        invariant
            zeros@.len() == i,
            forall|ii: int| 0 <= ii < i ==> #[trigger] zeros@[ii] == 0,
    {
        zeros.push(0);
    }
    let mut state = QuantumState::new(zeros.as_slice());
    proof {
        lemma_basis_zero(zeros@);
        assert(state.val() =~= initial_spec_state(n as nat).amps);
        assert(state_matches(state, trace_at(gv, 0)));
    }

    let mut states: Vec<QuantumState> = Vec::new();
    for j in 0..cols
        invariant
            gv == grid.deep_view(),
            n == gv.len(),
            1 <= n <= 6,
            cols == gv[0].len(),
            spec_validate(gv) is Ok,
            no_cz(gv),
            forall|rr: int| 0 <= rr < gv.len() ==> (#[trigger] gv[rr]).len() == cols,
            forall|jj: int| 0 <= jj < cols ==> #[trigger] spec_col_error(gv, jj) is None,
            circuit@.len() == cols,
            forall|jj: int|
                0 <= jj < cols ==> placements_match(
                    (#[trigger] circuit@[jj])@,
                    parse_col(col_tokens(gv, jj), 0),
                ),
            states@.len() == j,
            state_matches(state, trace_at(gv, j as int)),
            state.col@.len() == pow2(n as nat),
            (state.denom as int) <= 6 * (j as int),
            forall|jj: int|
                0 <= jj < j ==> state_matches(#[trigger] states@[jj], trace_at(gv, jj)),
            forall|jj: int| 0 <= jj < j ==> (#[trigger] states@[jj]).col@.len() == pow2(n as nat),
    {
        let pls = &circuit[j];
        let ghost sps = parse_col(col_tokens(gv, j as int), 0);
        proof {
            assert(spec_col_error(gv, j as int) is None);
            assert(col_all_valid(gv, j as int));
            assert(col_align_ok(col_tokens(gv, j as int), 0, None));
            assert forall|rr: int| 0 <= rr < col_tokens(gv, j as int).len() implies col_tokens(
                gv,
                j as int,
            )[rr] != GateToken::Cz by {
                assert(spec_token_of(gv[rr][j as int]) != Some(GateToken::Cz));
            }
            lemma_parse_covers(col_tokens(gv, j as int), 0);
            assert(widths_sum(sps) == n);
        }
        let mut op = QuantumGate::unit_gate();
        let m = pls.len();
        proof {
            assert(sps.take(0) =~= Seq::<SpecPlacement>::empty());
            assert(col_op(sps.take(0)) == unit_spec_gate());
        }
        for p in 0..m
            invariant
                m == pls@.len(),
                m == sps.len(),
                placements_match(pls@, sps),
                widths_sum(sps) == n,
                n <= 6,
                op.wf(),
                op.size == widths_sum(sps.take(p as int)),
                op.denom == col_op(sps.take(p as int)).denom,
                op.val() == col_op(sps.take(p as int)).mat,
        {
            proof {
                assert(pl_matches(pls@[p as int], sps[p as int]));
                assert(sps.take(p + 1).drop_last() =~= sps.take(p as int));
                assert(sps.take(p + 1).last() == sps[p as int]);
                assert(sps.take(p + 1) =~= sps.take(p as int) + seq![sps[p as int]]);
                lemma_widths_concat(sps.take(p as int), seq![sps[p as int]]);
                lemma_widths_cons(sps[p as int], Seq::empty());
                assert(seq![sps[p as int]] + Seq::<SpecPlacement>::empty() =~= seq![
                    sps[p as int],
                ]);
                assert(widths_sum(seq![sps[p as int]]) == sps[p as int].gate.width);
                assert(sps =~= sps.take(p + 1) + sps.skip(p + 1));
                lemma_widths_concat(sps.take(p + 1), sps.skip(p + 1));
                lemma_widths_nonneg(sps.skip(p + 1));
                assert(widths_sum(sps.take(p + 1)) <= n);
            }
            op = op.kronecker(&pls[p].gate);
        }
        proof {
            assert(sps.take(m as int) =~= sps);
            assert(op.size == n);
            assert(op.matrix@.len() == pow2(n as nat));
            assert(op.denom == step_op(gv, j as int).denom);
            assert(op.val() == step_op(gv, j as int).mat);
        }
        let next = match state.apply_gate(&op) {
            Some(s) => s,
            None => {
                proof {
                    assert(matvec_cx(op.val(), state.val()) == trace_at(gv, j + 1).amps);
                    assert(!cx_seq_fits(trace_at(gv, j + 1).amps));
                }
                return None;
            },
        };
        proof {
            assert(next.val() == trace_at(gv, j + 1).amps);
            assert((next.denom as nat) == trace_at(gv, j + 1).denom);
        }
        states.push(state);
        state = next;
    }
    states.push(state);
    proof {
        assert forall|jj: int| 0 <= jj <= cols implies cx_seq_fits(
            #[trigger] trace_at(gv, jj).amps,
        ) by {
            assert(state_matches(states@[jj], trace_at(gv, jj)));
            lemma_state_fits(states@[jj]);
        }
        assert(trace_fits(gv));
    }

    // Permute every recorded state to the published index order.
    let mut out: Vec<QuantumState> = Vec::new();
    let total = states.len();
    for j in 0..total
        invariant
            gv == grid.deep_view(),
            n == gv.len(),
            1 <= n <= 6,
            total == states@.len(),
            total == gv[0].len() + 1,
            forall|jj: int|
                0 <= jj < total ==> state_matches(#[trigger] states@[jj], trace_at(gv, jj)),
            forall|jj: int|
                0 <= jj < total ==> (#[trigger] states@[jj]).col@.len() == pow2(n as nat),
            out@.len() == j,
            forall|jj: int|
                0 <= jj < j ==> state_matches(
                    #[trigger] out@[jj],
                    le_of(trace_at(gv, jj), n as nat),
                ),
            forall|jj: int| 0 <= jj < j ==> (#[trigger] out@[jj]).col@.len() == pow2(n as nat),
    {
        let le = to_little_endian(&states[j]);
        proof {
            assert(le.val() =~= le_of(trace_at(gv, j as int), n as nat).amps);
        }
        out.push(le);
    }
    Some(out)
}

/// Validate a grid and, when it passes, produce the full exact trace:
/// one state per column plus the initial state, each of dimension
/// `2^rows`, in little-endian index order.  The caller rules out the
/// two inputs the exact engine cannot answer: grids holding `CZ` and
/// circuits whose numerators outgrow 64-bit integers
/// (`simulate_circuit_checked` handles both for any input).
pub fn simulate_circuit(grid: &Vec<Vec<&str>>) -> (r: Result<
    Vec<QuantumState>,
    QuantumCircuitError,
>)
    requires
        spec_validate(grid.deep_view()) is Ok ==> no_cz(grid.deep_view()) && trace_fits(
            grid.deep_view(),
        ),
    ensures
        ({
            let gv = grid.deep_view();
            &&& (r is Err <==> spec_validate(gv) is Err)
            &&& (spec_validate(gv) is Err ==> r == Err::<Vec<QuantumState>, QuantumCircuitError>(
                spec_validate(gv)->Err_0,
            ))
            &&& (r is Ok ==> {
                let t = r->Ok_0;
                &&& t@.len() == gv[0].len() + 1
                &&& (forall|j: int|
                    0 <= j < t@.len() ==> state_matches(
                        #[trigger] t@[j],
                        le_of(trace_at(gv, j), gv.len()),
                    ))
                &&& (forall|j: int|
                    0 <= j < t@.len() ==> (#[trigger] t@[j]).col@.len() == pow2(gv.len()))
            })
        }),
{
    match validate_grid_input(grid) {
        Err(e) => Err(e),
        Ok(()) => match simulate_valid(grid) {
            Some(t) => Ok(t),
            None => {
                proof {
                    assert(false);
                }
                Err(QuantumCircuitError::InvalidGate)
            },
        },
    }
}

/// Like `simulate_circuit`, with nothing asked of the caller: answers
/// `Some` of the validation outcome, or `None` for the two inputs the
/// exact engine refuses (a grid holding `CZ`, or a circuit whose
/// numerators outgrow 64-bit integers).
pub fn simulate_circuit_checked(grid: &Vec<Vec<&str>>) -> (r: Option<
    Result<Vec<QuantumState>, QuantumCircuitError>,
>)
    ensures
        ({
            let gv = grid.deep_view();
            &&& (spec_validate(gv) is Err ==> r == Some(
                Err::<Vec<QuantumState>, QuantumCircuitError>(spec_validate(gv)->Err_0),
            ))
            &&& (spec_validate(gv) is Ok && no_cz(gv) && trace_fits(gv) ==> r is Some
                && r->Some_0 is Ok)
            &&& (spec_validate(gv) is Ok && !(no_cz(gv) && trace_fits(gv)) ==> r is None)
            &&& (r is Some && r->Some_0 is Ok ==> {
                let t = r->Some_0->Ok_0;
                &&& t@.len() == gv[0].len() + 1
                &&& (forall|j: int|
                    0 <= j < t@.len() ==> state_matches(
                        #[trigger] t@[j],
                        le_of(trace_at(gv, j), gv.len()),
                    ))
            })
        }),
{
    let ghost gv = grid.deep_view();
    match validate_grid_input(grid) {
        Err(e) => Some(Err(e)),
        Ok(()) => {
            proof {
                lemma_valid_grid(gv);
                assert(gv.len() == grid@.len());
                assert forall|rr: int| 0 <= rr < gv.len() implies (#[trigger] gv[rr]).len()
                    == grid@[rr]@.len() by {
                    assert(gv[rr] == grid@[rr].deep_view());
                }
            }
            let n = grid.len();
            // Refuse grids holding `CZ`: its single-cell token cannot
            // cover the two rows its matrix spans.
            for row in 0..n
                invariant
                    gv == grid.deep_view(),
                    n == gv.len(),
                    spec_validate(gv) is Ok,
                    forall|rr: int| 0 <= rr < gv.len() ==> (#[trigger] gv[rr]).len()
                        == grid@[rr]@.len(),
                    forall|rr: int, jj: int|
                        0 <= rr < row && 0 <= jj < gv[rr].len() ==> spec_token_of(
                            #[trigger] gv[rr][jj],
                        ) != Some(GateToken::Cz),
            {
                let w = grid[row].len();
                for jj in 0..w
                    invariant
                        gv == grid.deep_view(),
                        n == gv.len(),
                        spec_validate(gv) is Ok,
                        row < n,
                        w == gv[row as int].len(),
                        forall|rr: int| 0 <= rr < gv.len() ==> (#[trigger] gv[rr]).len()
                            == grid@[rr]@.len(),
                        forall|rr: int, q: int|
                            0 <= rr < row && 0 <= q < gv[rr].len() ==> spec_token_of(
                                #[trigger] gv[rr][q],
                            ) != Some(GateToken::Cz),
                        forall|q: int|
                            0 <= q < jj ==> spec_token_of(#[trigger] gv[row as int][q])
                                != Some(GateToken::Cz),
                {
                    proof {
                        assert(gv[row as int][jj as int] == grid@[row as int]@[jj as int]@);
                    }
                    let is_cz = match token_of(grid[row][jj]) {
                        Some(GateToken::Cz) => true,
                        _ => false,
                    };
                    if is_cz {
                        proof {
                            assert(spec_token_of(gv[row as int][jj as int])
                                == Some(GateToken::Cz));
                            assert(!no_cz(gv));
                        }
                        return None;
                    }
                }
            }
            assert(no_cz(gv));
            match simulate_valid(grid) {
                Some(t) => Some(Ok(t)),
                None => None,
            }
        },
    }
}

} // verus!
