use qsim::circuit_validator::{is_multi_qubit_gate, validate_gate, validate_grid_input,
    QuantumCircuitError};

#[test]
fn test_validate_grid_input() {
    let valid_grid = vec![vec!["I", "H"], vec!["X", "Y"]];
    let invalid_grid = vec![vec!["I", "H"], vec!["X", "Y", "Z"]];

    assert_eq!(validate_grid_input(&valid_grid), Ok(()));
    assert_eq!(
        validate_grid_input(&invalid_grid),
        Err(QuantumCircuitError::InvalidRowLength)
    );
}

#[test]
fn test_validate_gate() {
    let valid_gate = "I";
    let invalid_gate = "A";

    assert_eq!(validate_gate(valid_gate), true);
    assert_eq!(validate_gate(invalid_gate), false);
}

#[test]
fn test_is_multi_qubit_gate() {
    let multi_qubit_gate: &str = "CNOT-1";
    let non_multi_qubit_gate: &str = "I";

    assert_eq!(is_multi_qubit_gate(multi_qubit_gate), "CNOT-2");
    assert_eq!(is_multi_qubit_gate(non_multi_qubit_gate), "");
}

#[test]
fn test_valid_multi_qubit_gates_separated() {
    let separated_multi_qubit_gate_grid = vec![
        vec!["CNOT-1", "I", "CNOT-2"], // CNOT-1 and CNOT-2 separated by an I gate
    ];
    assert_eq!(
        validate_grid_input(&separated_multi_qubit_gate_grid),
        Err(QuantumCircuitError::MultiQubitGateMismatch)
    );
}

#[test]
fn test_multi_qubit_gate_wrong_order_same_step() {
    let grid = vec![
        vec!["CNOT-2", "CNOT-1"], // CNOT-2 and CNOT-1 in alone in a step
    ];
    assert_eq!(
        validate_grid_input(&grid),
        Err(QuantumCircuitError::MultiQubitGateMismatch)
    );
}

#[test]
fn test_valid_gates_but_exceed_qubit_limit() {
    let grid = vec![
        vec!["I", "H"],
        vec!["X", "Y"],
        vec!["Z", "T"],
        vec!["S", "I"],
        vec!["H", "X"],
        vec!["Y", "Z"],
        vec!["I", "S"],
    ];
    assert_eq!(
        validate_grid_input(&grid),
        Err(QuantumCircuitError::TooManyQubits)
    );
}

#[test]
fn test_valid_gates_but_missing_multi_qubit_component() {
    let grid = vec![
        vec!["CNOT-1"], // Missing CNOT-2
    ];
    assert_eq!(
        validate_grid_input(&grid),
        Err(QuantumCircuitError::MultiQubitGateMismatch)
    );
}

#[test]
fn test_valid_circuit_inconsistent_row_lengths() {
    let grid = vec![vec!["I", "H", "X"], vec!["X", "Y"]];
    assert_eq!(
        validate_grid_input(&grid),
        Err(QuantumCircuitError::InvalidRowLength)
    );
}

#[test]
fn valid_circuit() {
    let grid = vec![vec!["H", "CNOT-1"], vec!["I", "CNOT-2"]];
    assert_eq!(validate_grid_input(&grid), Ok(()));
}

#[test]
fn valid_circuit_with_single_gate() {
    let grid = vec![vec!["H"]];
    assert_eq!(validate_grid_input(&grid), Ok(()));
}

#[test]
fn ending_with_multi_qubit_gate() {
    let grid = vec![vec!["H", "CNOT-2"], vec!["I", "CNOT-2"]];
    assert_eq!(
        validate_grid_input(&grid),
        Err(QuantumCircuitError::MultiQubitGateMismatch)
    );
}

#[test]
fn empty_grid_has_too_few_qubits() {
    let grid: Vec<Vec<&str>> = vec![];
    assert_eq!(
        validate_grid_input(&grid),
        Err(QuantumCircuitError::TooFewQubits)
    );
}

#[test]
fn unknown_token_is_invalid_gate() {
    let grid = vec![vec!["I", "Q"]];
    assert_eq!(
        validate_grid_input(&grid),
        Err(QuantumCircuitError::InvalidGate)
    );
}

#[test]
fn invalid_gate_reported_before_mismatch_in_same_column() {
    // The column check reports unknown tokens before misplaced
    // multi-qubit gates, wherever they stand in the column.
    let grid = vec![vec!["CNOT-2"], vec!["Q"]];
    assert_eq!(
        validate_grid_input(&grid),
        Err(QuantumCircuitError::InvalidGate)
    );
}

#[test]
fn swap_and_toffoli_columns_are_valid() {
    let grid = vec![
        vec!["SWAP-1", "CCNOT-1"],
        vec!["SWAP-2", "CCNOT-2"],
        vec!["I", "CCNOT-3"],
    ];
    assert_eq!(validate_grid_input(&grid), Ok(()));
}

#[test]
fn toffoli_missing_last_row_is_mismatch() {
    let grid = vec![vec!["CCNOT-1"], vec!["CCNOT-2"]];
    assert_eq!(
        validate_grid_input(&grid),
        Err(QuantumCircuitError::MultiQubitGateMismatch)
    );
}
