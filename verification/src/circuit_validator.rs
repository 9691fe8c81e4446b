//! Structural validation of a circuit grid.
//!
//! A grid is a rectangular table of gate tokens: rows are qubit lines,
//! columns are time steps.  Validation reports the first failure in a
//! fixed order: no rows, more than six rows, a row of deviating length,
//! then column by column from the left: an unknown token anywhere in
//! the column, then a misplaced multi-qubit gate.
//!
//! A multi-qubit gate occupies adjacent cells of one column: a primary
//! token (`CNOT-1`, `SWAP-1`, `CCNOT-1`) must be followed, in the rows
//! directly below, by its continuation tokens (`CNOT-2`, `SWAP-2`,
//! `CCNOT-2` then `CCNOT-3`).  A continuation without its primary
//! directly above, a wrong continuation, or a primary whose
//! continuation is cut off by the bottom of the column is a mismatch.
//! `CZ` is a single-cell token and takes part in no pairing.

use vstd::prelude::*;

verus! {

/// The validation failures, in the order they are checked.
#[derive(Clone, Copy, Debug, PartialEq, Eq, Structural)]
pub enum QuantumCircuitError {
    TooManyQubits,
    TooFewQubits,
    InvalidGate,
    InvalidRowLength,
    MultiQubitGateMismatch,
}

/// The recognized gate tokens.
#[derive(Clone, Copy, Debug, PartialEq, Eq, Structural)]
pub enum GateToken {
    I,
    H,
    X,
    Y,
    Z,
    T,
    S,
    Cz,
    Cnot1,
    Cnot2,
    Swap1,
    Swap2,
    Ccnot1,
    Ccnot2,
    Ccnot3,
}

/// Which token, if any, a cell's text denotes.
pub open spec fn spec_token_of(s: Seq<char>) -> Option<GateToken> {
    if s == "I"@ {
        Some(GateToken::I)
    } else if s == "H"@ {
        Some(GateToken::H)
    } else if s == "X"@ {
        Some(GateToken::X)
    } else if s == "Y"@ {
        Some(GateToken::Y)
    } else if s == "Z"@ {
        Some(GateToken::Z)
    } else if s == "T"@ {
        Some(GateToken::T)
    } else if s == "S"@ {
        Some(GateToken::S)
    } else if s == "CZ"@ {
        Some(GateToken::Cz)
    } else if s == "CNOT-1"@ {
        Some(GateToken::Cnot1)
    } else if s == "CNOT-2"@ {
        Some(GateToken::Cnot2)
    } else if s == "SWAP-1"@ {
        Some(GateToken::Swap1)
    } else if s == "SWAP-2"@ {
        Some(GateToken::Swap2)
    } else if s == "CCNOT-1"@ {
        Some(GateToken::Ccnot1)
    } else if s == "CCNOT-2"@ {
        Some(GateToken::Ccnot2)
    } else if s == "CCNOT-3"@ {
        Some(GateToken::Ccnot3)
    } else {
        None
    }
}

/// The continuation token that must stand in the next row, if any.
pub open spec fn follow_token(t: GateToken) -> Option<GateToken> {
    match t {
        GateToken::Cnot1 => Some(GateToken::Cnot2),
        GateToken::Swap1 => Some(GateToken::Swap2),
        GateToken::Ccnot1 => Some(GateToken::Ccnot2),
        GateToken::Ccnot2 => Some(GateToken::Ccnot3),
        _ => None,
    }
}

/// Tokens that only continue a multi-qubit gate opened above them.
pub open spec fn is_continuation(t: GateToken) -> bool {
    match t {
        GateToken::Cnot2 | GateToken::Swap2 | GateToken::Ccnot2 | GateToken::Ccnot3 => true,
        _ => false,
    }
}

/// Walks a column of tokens from row `i` downward, `expected` holding
/// the continuation that the previous row demands; true when every
/// multi-qubit gate is properly continued and closed.
pub open spec fn col_align_ok(col: Seq<GateToken>, i: int, expected: Option<GateToken>) -> bool
    decreases col.len() - i,
{
    if i >= col.len() {
        expected is None
    } else {
        let t = col[i];
        match expected {
            Some(e) => t == e && col_align_ok(col, i + 1, follow_token(t)),
            None => !is_continuation(t) && col_align_ok(col, i + 1, follow_token(t)),
        }
    }
}

/// The tokens of column `j`, top to bottom (meaningful only when every
/// cell of the column holds a recognized token).
pub open spec fn col_tokens(gv: Seq<Seq<Seq<char>>>, j: int) -> Seq<GateToken> {
    Seq::new(gv.len(), |r: int| spec_token_of(gv[r][j])->Some_0)
}

/// Every cell of column `j` holds a recognized token.
pub open spec fn col_all_valid(gv: Seq<Seq<Seq<char>>>, j: int) -> bool {
    forall|r: int| 0 <= r < gv.len() ==> spec_token_of(#[trigger] gv[r][j]) is Some
}

/// The first failure of column `j`, if any: unknown tokens are
/// reported before misplaced multi-qubit gates.
pub open spec fn spec_col_error(gv: Seq<Seq<Seq<char>>>, j: int) -> Option<QuantumCircuitError> {
    if !col_all_valid(gv, j) {
        Some(QuantumCircuitError::InvalidGate)
    } else if !col_align_ok(col_tokens(gv, j), 0, None) {
        Some(QuantumCircuitError::MultiQubitGateMismatch)
    } else {
        None
    }
}

/// The first failure among columns `j` and onward, scanning left to
/// right over the `gv[0].len()` columns.
pub open spec fn first_col_error(gv: Seq<Seq<Seq<char>>>, j: int) -> Option<QuantumCircuitError>
    decreases gv[0].len() - j,
{
    if j >= gv[0].len() {
        None
    } else {
        match spec_col_error(gv, j) {
            Some(e) => Some(e),
            None => first_col_error(gv, j + 1),
        }
    }
}

/// What validation returns on a grid, checked in the fixed order.
pub open spec fn spec_validate(gv: Seq<Seq<Seq<char>>>) -> Result<(), QuantumCircuitError> {
    if gv.len() == 0 {
        Err(QuantumCircuitError::TooFewQubits)
    } else if gv.len() > 6 {
        Err(QuantumCircuitError::TooManyQubits)
    } else if exists|r: int| 0 <= r < gv.len() && (#[trigger] gv[r]).len() != gv[0].len() {
        Err(QuantumCircuitError::InvalidRowLength)
    } else {
        match first_col_error(gv, 0) {
            Some(e) => Err(e),
            None => Ok(()),
        }
    }
}

proof fn lemma_first_col_skip(gv: Seq<Seq<Seq<char>>>, j: int)
    requires
        0 <= j <= gv[0].len(),
        forall|jj: int| 0 <= jj < j ==> spec_col_error(gv, jj) is None,
    ensures
        first_col_error(gv, 0) == first_col_error(gv, j),
    decreases j,
{
    if j > 0 {
        lemma_first_col_skip(gv, j - 1);
    }
}

proof fn lemma_first_none(gv: Seq<Seq<Seq<char>>>, i: int, j: int)
    requires
        first_col_error(gv, i) is None,
        i <= j < gv[0].len(),
    ensures
        spec_col_error(gv, j) is None,
    decreases j - i,
{
    if i < j {
        lemma_first_none(gv, i + 1, j);
    }
}

/// What a successful validation guarantees of the grid: one to six
/// rows, all of one length, and every column free of both failures.
pub proof fn lemma_valid_grid(gv: Seq<Seq<Seq<char>>>)
    requires
        spec_validate(gv) is Ok,
    ensures
        1 <= gv.len() <= 6,
        forall|r: int| 0 <= r < gv.len() ==> (#[trigger] gv[r]).len() == gv[0].len(),
        forall|j: int| 0 <= j < gv[0].len() ==> #[trigger] spec_col_error(gv, j) is None,
{
    assert forall|j: int| 0 <= j < gv[0].len() implies #[trigger] spec_col_error(gv, j)
        is None by {
        lemma_first_none(gv, 0, j);
    }
}

/// True exactly on the words of the token vocabulary.
pub fn validate_gate(gate: &str) -> (r: bool)
    ensures
        r == (spec_token_of(gate@) is Some),
{
    token_of(gate).is_some()
}

/// Exec counterpart of `spec_token_of`.
pub fn token_of(s: &str) -> (r: Option<GateToken>)
    ensures
        r == spec_token_of(s@),
{
    let o = s.to_owned();
    if o == "I".to_owned() {
        Some(GateToken::I)
    } else if o == "H".to_owned() {
        Some(GateToken::H)
    } else if o == "X".to_owned() {
        Some(GateToken::X)
    } else if o == "Y".to_owned() {
        Some(GateToken::Y)
    } else if o == "Z".to_owned() {
        Some(GateToken::Z)
    } else if o == "T".to_owned() {
        Some(GateToken::T)
    } else if o == "S".to_owned() {
        Some(GateToken::S)
    } else if o == "CZ".to_owned() {
        Some(GateToken::Cz)
    } else if o == "CNOT-1".to_owned() {
        Some(GateToken::Cnot1)
    } else if o == "CNOT-2".to_owned() {
        Some(GateToken::Cnot2)
    } else if o == "SWAP-1".to_owned() {
        Some(GateToken::Swap1)
    } else if o == "SWAP-2".to_owned() {
        Some(GateToken::Swap2)
    } else if o == "CCNOT-1".to_owned() {
        Some(GateToken::Ccnot1)
    } else if o == "CCNOT-2".to_owned() {
        Some(GateToken::Ccnot2)
    } else if o == "CCNOT-3".to_owned() {
        Some(GateToken::Ccnot3)
    } else {
        None
    }
}

/// For a primary multi-qubit token, the continuation token expected in
/// the next row, as text; the empty string for every other token.
pub fn is_multi_qubit_gate(gate: &str) -> (r: &str)
    ensures
        r@ == (match spec_token_of(gate@) {
            Some(GateToken::Cnot1) => "CNOT-2"@,
            Some(GateToken::Ccnot1) => "CCNOT-2"@,
            Some(GateToken::Ccnot2) => "CCNOT-3"@,
            Some(GateToken::Swap1) => "SWAP-2"@,
            _ => Seq::<char>::empty(),
        }),
{
    let r: &str = match token_of(gate) {
        Some(GateToken::Cnot1) => "CNOT-2",
        Some(GateToken::Ccnot1) => "CCNOT-2",
        Some(GateToken::Ccnot2) => "CCNOT-3",
        Some(GateToken::Swap1) => "SWAP-2",
        _ => "",
    };
    proof {
        reveal_strlit("");
        assert(""@ =~= Seq::<char>::empty());
    }
    r
}

/// Whether the token continues a multi-qubit gate opened above it.
pub fn is_sub_gate(gate: &str) -> (r: bool)
    ensures
        r == match spec_token_of(gate@) {
            Some(t) => is_continuation(t),
            None => false,
        },
{
    match token_of(gate) {
        Some(GateToken::Cnot2) | Some(GateToken::Swap2) | Some(GateToken::Ccnot2)
            | Some(GateToken::Ccnot3) => true,
        _ => false,
    }
}

/// A continuation token is in place only when the previous row opened
/// a multi-qubit gate: a continuation with no pending expectation is a
/// mismatch.
pub fn ensure_multi_qubit_gate(gate: &str, prev_gate: &str) -> (r: Result<
    (),
    QuantumCircuitError,
>)
    ensures
        r is Err <==> (match spec_token_of(gate@) {
            Some(t) => is_continuation(t),
            None => false,
        } && prev_gate@.len() == 0),
        r is Err ==> r == Err::<(), QuantumCircuitError>(
            QuantumCircuitError::MultiQubitGateMismatch,
        ),
{
    if is_sub_gate(gate) && prev_gate.is_empty() {
        Err(QuantumCircuitError::MultiQubitGateMismatch)
    } else {
        Ok(())
    }
}

/// Validate a grid: at least one row, at most six, all rows of equal
/// length, every cell a recognized token, and every multi-qubit gate
/// correctly laid out in its column.  Returns the first failure in the
/// fixed order that `spec_validate` states.
pub fn validate_grid_input(grid: &Vec<Vec<&str>>) -> (r: Result<(), QuantumCircuitError>)
    ensures
        r == spec_validate(grid.deep_view()),
{
    let ghost gv = grid.deep_view();
    proof {
        assert(gv.len() == grid@.len());
    }
    if grid.len() == 0 {
        return Err(QuantumCircuitError::TooFewQubits);
    }
    if grid.len() > 6 {
        return Err(QuantumCircuitError::TooManyQubits);
    }
    let n = grid.len();
    proof {
        assert forall|r: int| 0 <= r < gv.len() implies (#[trigger] gv[r]).len()
            == grid@[r]@.len() by {
            assert(gv[r] == grid@[r].deep_view());
        }
    }
    let cols = grid[0].len();
    for row in 0..n
        invariant
            gv == grid.deep_view(),
            n == gv.len(),
            1 <= n <= 6,
            cols == gv[0].len(),
            forall|rr: int| 0 <= rr < row ==> (#[trigger] gv[rr]).len() == cols,
            forall|r: int| 0 <= r < gv.len() ==> (#[trigger] gv[r]).len() == grid@[r]@.len(),
    {
        if grid[row].len() != cols {
            proof {
                let w = row as int;
                assert(0 <= w < gv.len() && gv[w].len() != gv[0].len());
                assert(exists|r: int|
                    0 <= r < gv.len() && (#[trigger] gv[r]).len() != gv[0].len());
            }
            return Err(QuantumCircuitError::InvalidRowLength);
        }
    }
    assert(forall|r: int| 0 <= r < gv.len() ==> (#[trigger] gv[r]).len() == gv[0].len());
    for j in 0..cols
        invariant
            gv == grid.deep_view(),
            n == gv.len() <= 6,
            1 <= n,
            cols == gv[0].len(),
            forall|r: int| 0 <= r < gv.len() ==> (#[trigger] gv[r]).len() == cols,
            forall|jj: int| 0 <= jj < j ==> spec_col_error(gv, jj) is None,
    {
        // First pass: the whole column must hold recognized tokens.
        let mut toks: Vec<GateToken> = Vec::new();
        for row in 0..n
            invariant
                gv == grid.deep_view(),
                n == gv.len() <= 6,
                cols == gv[0].len(),
                j < cols,
                forall|r: int| 0 <= r < gv.len() ==> (#[trigger] gv[r]).len() == cols,
                forall|jj: int| 0 <= jj < j ==> spec_col_error(gv, jj) is None,
                toks@.len() == row,
                forall|r: int|
                    0 <= r < row ==> spec_token_of(#[trigger] gv[r][j as int]) is Some,
                forall|r: int|
                    0 <= r < row ==> #[trigger] toks@[r] == spec_token_of(
                        gv[r][j as int],
                    )->Some_0,
        {
            proof {
                assert(gv[row as int][j as int] == grid@[row as int]@[j as int]@);
            }
            match token_of(grid[row][j]) {
                Some(t) => toks.push(t),
                None => {
                    proof {
                        assert(!col_all_valid(gv, j as int));
                        lemma_first_col_skip(gv, j as int);
                    }
                    return Err(QuantumCircuitError::InvalidGate);
                },
            }
        }
        proof {
            assert(col_all_valid(gv, j as int));
            assert(toks@ =~= col_tokens(gv, j as int));
        }
        // Second pass: multi-qubit gates must be continued and closed.
        let mut expected: Option<GateToken> = None;
        for row in 0..n
            invariant
                gv == grid.deep_view(),
                n == gv.len() <= 6,
                cols == gv[0].len(),
                j < cols,
                forall|r: int| 0 <= r < gv.len() ==> (#[trigger] gv[r]).len() == cols,
                forall|jj: int| 0 <= jj < j ==> spec_col_error(gv, jj) is None,
                col_all_valid(gv, j as int),
                toks@ == col_tokens(gv, j as int),
                toks@.len() == n,
                col_align_ok(toks@, 0, None) == col_align_ok(toks@, row as int, expected),
        {
            let t = toks[row];
            let bad = match expected {
                Some(e) => t != e,
                None => is_continuation_token(t),
            };
            if bad {
                proof {
                    assert(!col_align_ok(toks@, row as int, expected));
                    lemma_first_col_skip(gv, j as int);
                }
                return Err(QuantumCircuitError::MultiQubitGateMismatch);
            }
            expected = continuation_token(t);
        }
        if expected.is_some() {
            proof {
                assert(!col_align_ok(toks@, n as int, expected));
                lemma_first_col_skip(gv, j as int);
            }
            return Err(QuantumCircuitError::MultiQubitGateMismatch);
        }
        proof {
            assert(col_align_ok(toks@, n as int, expected));
            assert(spec_col_error(gv, j as int) is None);
        }
    }
    proof {
        lemma_first_col_skip(gv, cols as int);
    }
    Ok(())
}

/// Exec counterpart of `follow_token`.
fn continuation_token(t: GateToken) -> (r: Option<GateToken>)
    ensures
        r == follow_token(t),
{
    match t {
        GateToken::Cnot1 => Some(GateToken::Cnot2),
        GateToken::Swap1 => Some(GateToken::Swap2),
        GateToken::Ccnot1 => Some(GateToken::Ccnot2),
        GateToken::Ccnot2 => Some(GateToken::Ccnot3),
        _ => None,
    }
}

/// Exec counterpart of `is_continuation`.
fn is_continuation_token(t: GateToken) -> (r: bool)
    ensures
        r == is_continuation(t),
{
    match t {
        GateToken::Cnot2 | GateToken::Swap2 | GateToken::Ccnot2 | GateToken::Ccnot3 => true,
        _ => false,
    }
}

} // verus!
