use qsim::quantum_state::QuantumState;
use qsim::simulator::{simulate_circuit, simulate_circuit_checked};
use qsim::circuit_validator::QuantumCircuitError;
use qsim::circuit_parser::build_circuit_from_data;
use qsim::utils::reverse_bits;

/// The (real, imaginary) value of one amplitude of a state.
fn pair(state: &QuantumState, i: usize) -> (f64, f64) {
    let amp = &state.col[i];
    let s2 = 2.0_f64.sqrt();
    let re_num = amp.a as f64 + (amp.b as f64 - amp.d as f64) / s2;
    let im_num = amp.c as f64 + (amp.b as f64 + amp.d as f64) / s2;
    let mut scale = 1.0_f64;
    let mut half = state.denom / 2;
    while half > 0 {
        scale *= 2.0;
        half -= 1;
    }
    let mut re = re_num / scale;
    let mut im = im_num / scale;
    if state.denom % 2 == 1 {
        re /= s2;
        im /= s2;
    }
    (re, im)
}

fn pairs(state: &QuantumState) -> Vec<(f64, f64)> {
    (0..state.col.len()).map(|i| pair(state, i)).collect()
}

#[test]
fn test_simulate_not() {
    let incoming_data = vec![vec!["X"]];
    let result = simulate_circuit(&incoming_data).unwrap();

    assert_eq!(result.len(), 2);
    assert_eq!(pairs(&result[0]), vec![(1.0, 0.0), (0.0, 0.0)]);
    assert_eq!(pairs(&result[1]), vec![(0.0, 0.0), (1.0, 0.0)]);
}

#[test]
fn test_simulate_hadamard() {
    let incoming_data = vec![vec!["H"]];
    let result = simulate_circuit(&incoming_data).unwrap();

    let r = 1.0 / 2.0_f64.sqrt();
    assert_eq!(result.len(), 2);
    assert_eq!(pairs(&result[0]), vec![(1.0, 0.0), (0.0, 0.0)]);
    assert_eq!(pairs(&result[1]), vec![(r, 0.0), (r, 0.0)]);
}

#[test]
fn test_simulate_not_on_index() {
    // X on the second qubit line: |00> becomes |01> (second qubit
    // set), which is index 2 in the little-endian output order.
    let incoming_data = vec![vec!["I"], vec!["X"]];
    let result = simulate_circuit(&incoming_data).unwrap();

    assert_eq!(result.len(), 2);
    assert_eq!(pairs(&result[0]), vec![(1.0, 0.0), (0.0, 0.0), (0.0, 0.0), (0.0, 0.0)]);
    assert_eq!(pairs(&result[1]), vec![(0.0, 0.0), (0.0, 0.0), (1.0, 0.0), (0.0, 0.0)]);
}

#[test]
fn test_x_gate_on_index() {
    // X on the first qubit line: qubit 0 is the least significant bit
    // of the output index.
    let incoming_data = vec![vec!["X"], vec!["I"]];
    let result = simulate_circuit(&incoming_data).unwrap();

    assert_eq!(result.len(), 2);
    assert_eq!(pairs(&result[1]), vec![(0.0, 0.0), (1.0, 0.0), (0.0, 0.0), (0.0, 0.0)]);
}

#[test]
fn test_cnot_gate_on_index() {
    let incoming_data = vec![vec!["X", "CNOT-1"], vec!["I", "CNOT-2"]];
    let result = simulate_circuit(&incoming_data).unwrap();

    assert_eq!(result.len(), 3);
    assert_eq!(pairs(&result[1]), vec![(0.0, 0.0), (1.0, 0.0), (0.0, 0.0), (0.0, 0.0)]);
    assert_eq!(pairs(&result[2]), vec![(0.0, 0.0), (0.0, 0.0), (0.0, 0.0), (1.0, 0.0)]);
}

#[test]
fn test_entanglement_circuit() {
    let incoming_data = vec![vec!["H", "CNOT-1"], vec!["I", "CNOT-2"]];
    let result = simulate_circuit(&incoming_data).unwrap();

    let r = 1.0 / 2.0_f64.sqrt();
    assert_eq!(result.len(), 3);
    assert_eq!(pairs(&result[1]), vec![(r, 0.0), (r, 0.0), (0.0, 0.0), (0.0, 0.0)]);
    assert_eq!(pairs(&result[2]), vec![(r, 0.0), (0.0, 0.0), (0.0, 0.0), (r, 0.0)]);
}

#[test]
fn test_ghz_state_circuit() {
    let incoming_data = vec![
        vec!["H", "CNOT-1", "I"],
        vec!["I", "CNOT-2", "CNOT-1"],
        vec!["I", "I", "CNOT-2"],
    ];
    let result = simulate_circuit(&incoming_data).unwrap();

    let r = 1.0 / 2.0_f64.sqrt();
    assert_eq!(result.len(), 4);
    let mut expected = vec![(0.0, 0.0); 8];
    expected[0] = (r, 0.0);
    expected[7] = (r, 0.0);
    assert_eq!(pairs(&result[3]), expected);
}

#[test]
fn two_hadamards_full_trace() {
    // Grid [["H","I"],["I","H"]]: step 0 is the basis state, step 1 a
    // superposition on the first qubit, step 2 the uniform state with
    // amplitude exactly one half.
    let grid = vec![vec!["H", "I"], vec!["I", "H"]];
    let result = simulate_circuit(&grid).unwrap();

    let r = 1.0 / 2.0_f64.sqrt();
    assert_eq!(result.len(), 3);
    assert_eq!(pairs(&result[0]), vec![(1.0, 0.0), (0.0, 0.0), (0.0, 0.0), (0.0, 0.0)]);
    assert_eq!(pairs(&result[1]), vec![(r, 0.0), (r, 0.0), (0.0, 0.0), (0.0, 0.0)]);
    assert_eq!(pairs(&result[2]), vec![(0.5, 0.0), (0.5, 0.0), (0.5, 0.0), (0.5, 0.0)]);
}

#[test]
fn hadamard_twice_returns_basis_state() {
    let grid = vec![vec!["H", "H"]];
    let result = simulate_circuit(&grid).unwrap();

    assert_eq!(result.len(), 3);
    assert_eq!(pairs(&result[2]), vec![(1.0, 0.0), (0.0, 0.0)]);
}

#[test]
fn identity_circuit_leaves_state_unchanged() {
    let grid = vec![vec!["I", "I", "I"], vec!["I", "I", "I"]];
    let result = simulate_circuit(&grid).unwrap();

    assert_eq!(result.len(), 4);
    for state in &result {
        assert_eq!(pairs(state), vec![(1.0, 0.0), (0.0, 0.0), (0.0, 0.0), (0.0, 0.0)]);
    }
}

#[test]
fn phase_gate_amplitudes() {
    // X then T: the single qubit carries the phase e^(i*pi/4).
    let grid = vec![vec!["X", "T"]];
    let result = simulate_circuit(&grid).unwrap();

    let r = 1.0 / 2.0_f64.sqrt();
    assert_eq!(pairs(&result[2]), vec![(0.0, 0.0), (r, r)]);
}

#[test]
fn norm_is_preserved_at_every_step() {
    let grid = vec![
        vec!["H", "CNOT-1", "T"],
        vec!["S", "CNOT-2", "H"],
        vec!["H", "Y", "Z"],
    ];
    let result = simulate_circuit(&grid).unwrap();

    assert_eq!(result.len(), 4);
    for state in &result {
        let norm: f64 = pairs(state).iter().map(|(re, im)| re * re + im * im).sum();
        assert!((norm - 1.0).abs() < 1e-9);
    }
}

#[test]
fn trace_has_one_state_per_column_plus_initial() {
    let grid = vec![vec!["H", "I", "X", "I"], vec!["I", "H", "I", "Z"]];
    let result = simulate_circuit(&grid).unwrap();

    assert_eq!(result.len(), 5);
    for state in &result {
        assert_eq!(state.col.len(), 4);
    }
}

#[test]
fn validation_error_is_returned() {
    let grid = vec![vec!["CNOT-1"]];
    let result = simulate_circuit(&grid);
    assert!(matches!(
        result,
        Err(QuantumCircuitError::MultiQubitGateMismatch)
    ));
}

#[test]
fn checked_simulation_agrees_on_ordinary_circuits() {
    let grid = vec![vec!["H", "CNOT-1"], vec!["I", "CNOT-2"]];
    let checked = simulate_circuit_checked(&grid).unwrap().unwrap();
    let direct = simulate_circuit(&grid).unwrap();
    assert_eq!(checked.len(), direct.len());
    for (a, b) in checked.iter().zip(direct.iter()) {
        assert_eq!(pairs(a), pairs(b));
    }
}

#[test]
fn checked_simulation_refuses_cz() {
    // `CZ` passes validation but its single-cell token cannot cover
    // the two rows its matrix spans, so the engine declines it.
    let grid = vec![vec!["CZ"], vec!["I"]];
    assert!(simulate_circuit_checked(&grid).is_none());
}

#[test]
fn checked_simulation_reports_validation_errors() {
    let grid = vec![vec!["I", "Q"]];
    let result = simulate_circuit_checked(&grid);
    assert!(matches!(result, Some(Err(QuantumCircuitError::InvalidGate))));
}

#[test]
fn parser_covers_each_column_in_row_order() {
    let grid = vec![vec!["H", "CNOT-1"], vec!["I", "CNOT-2"]];
    let circuit = build_circuit_from_data(&grid);

    assert_eq!(circuit.len(), 2);
    assert_eq!(circuit[0].len(), 2);
    assert_eq!(circuit[0][0].start, 0);
    assert_eq!(circuit[0][0].gate.size, 1);
    assert_eq!(circuit[0][1].start, 1);
    assert_eq!(circuit[1].len(), 1);
    assert_eq!(circuit[1][0].start, 0);
    assert_eq!(circuit[1][0].gate.size, 2);
}

#[test]
fn reverse_bits_reverses_low_bits() {
    assert_eq!(reverse_bits(0, 3), 0);
    assert_eq!(reverse_bits(1, 3), 4);
    assert_eq!(reverse_bits(4, 3), 1);
    assert_eq!(reverse_bits(6, 3), 3);
    assert_eq!(reverse_bits(1, 1), 1);
}
