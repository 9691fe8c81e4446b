use qsim::quantum_gate::QuantumGate;
use qsim::quantum_state::QuantumState;

/// The (real, imaginary) value of one amplitude of a state: the four
/// ring coefficients over the state's `sqrt(2)` denominator.
fn pair(state: &QuantumState, i: usize) -> (f64, f64) {
    let amp = &state.col[i];
    let s2 = 2.0_f64.sqrt();
    let re_num = amp.a as f64 + (amp.b as f64 - amp.d as f64) / s2;
    let im_num = amp.c as f64 + (amp.b as f64 + amp.d as f64) / s2;
    let mut scale = 1.0_f64;
    let mut half = state.denom / 2;
    while half > 0 {
        scale *= 2.0;
        half -= 1;
    }
    let mut re = re_num / scale;
    let mut im = im_num / scale;
    if state.denom % 2 == 1 {
        re /= s2;
        im /= s2;
    }
    (re, im)
}

fn pairs(state: &QuantumState) -> Vec<(f64, f64)> {
    (0..state.col.len()).map(|i| pair(state, i)).collect()
}

#[test]
fn test_x_gate() {
    // X|0> -> |1>
    // X |1> -> |0>
    let state = QuantumState::new(&[0]).apply_gate(&QuantumGate::x_gate()).unwrap();
    assert_eq!(pairs(&state), vec![(0.0, 0.0), (1.0, 0.0)]);

    let state = QuantumState::new(&[1]).apply_gate(&QuantumGate::x_gate()).unwrap();
    assert_eq!(pairs(&state), vec![(1.0, 0.0), (0.0, 0.0)]);
}

#[test]
fn test_i_gate() {
    // I|0> -> |0>
    // I|1> -> |1>
    let state = QuantumState::new(&[0]).apply_gate(&QuantumGate::i_gate()).unwrap();
    assert_eq!(pairs(&state), vec![(1.0, 0.0), (0.0, 0.0)]);

    let state = QuantumState::new(&[1]).apply_gate(&QuantumGate::i_gate()).unwrap();
    assert_eq!(pairs(&state), vec![(0.0, 0.0), (1.0, 0.0)]);
}

#[test]
fn test_y_gate() {
    // Y|0> -> i|1>
    // Y|1> -> -i|0>
    let state = QuantumState::new(&[0]).apply_gate(&QuantumGate::y_gate()).unwrap();
    assert_eq!(pairs(&state), vec![(0.0, 0.0), (0.0, 1.0)]);

    let state = QuantumState::new(&[1]).apply_gate(&QuantumGate::y_gate()).unwrap();
    assert_eq!(pairs(&state), vec![(0.0, -1.0), (0.0, 0.0)]);
}

#[test]
fn test_z_gate() {
    // Z|0> -> |0>
    // Z|1> -> -|1>
    let state = QuantumState::new(&[0]).apply_gate(&QuantumGate::z_gate()).unwrap();
    assert_eq!(pairs(&state), vec![(1.0, 0.0), (0.0, 0.0)]);

    let state = QuantumState::new(&[1]).apply_gate(&QuantumGate::z_gate()).unwrap();
    assert_eq!(pairs(&state), vec![(0.0, 0.0), (-1.0, 0.0)]);
}

#[test]
fn test_h_gate() {
    // H|0> -> (|0> + |1>) / √2
    // H|1> -> (|0> - |1>) / √2
    let state = QuantumState::new(&[0]).apply_gate(&QuantumGate::h_gate()).unwrap();
    let r = 1.0 / 2.0_f64.sqrt();
    assert_eq!(pairs(&state), vec![(r, 0.0), (r, 0.0)]);

    let state = QuantumState::new(&[1]).apply_gate(&QuantumGate::h_gate()).unwrap();
    assert_eq!(pairs(&state), vec![(r, 0.0), (-r, 0.0)]);
}

#[test]
fn test_s_gate() {
    // S|1> -> i|1>
    let state = QuantumState::new(&[1]).apply_gate(&QuantumGate::s_gate()).unwrap();
    assert_eq!(pairs(&state), vec![(0.0, 0.0), (0.0, 1.0)]);
}

#[test]
fn test_t_gate() {
    // T|1> -> e^(i*pi/4)|1>
    let state = QuantumState::new(&[1]).apply_gate(&QuantumGate::t_gate()).unwrap();
    let r = 1.0 / 2.0_f64.sqrt();
    assert_eq!(pairs(&state), vec![(0.0, 0.0), (r, r)]);
}

#[test]
fn test_cnot_gate() {
    // CNOT|00> -> |00>
    // CNOT|01> -> |01>
    // CNOT|10> -> |11>
    // CNOT|11> -> |10>
    let state = QuantumState::new(&[0, 0]).apply_gate(&QuantumGate::cnot_gate()).unwrap();
    assert_eq!(pairs(&state), vec![(1.0, 0.0), (0.0, 0.0), (0.0, 0.0), (0.0, 0.0)]);

    let state = QuantumState::new(&[0, 1]).apply_gate(&QuantumGate::cnot_gate()).unwrap();
    assert_eq!(pairs(&state), vec![(0.0, 0.0), (1.0, 0.0), (0.0, 0.0), (0.0, 0.0)]);

    let state = QuantumState::new(&[1, 0]).apply_gate(&QuantumGate::cnot_gate()).unwrap();
    assert_eq!(pairs(&state), vec![(0.0, 0.0), (0.0, 0.0), (0.0, 0.0), (1.0, 0.0)]);

    let state = QuantumState::new(&[1, 1]).apply_gate(&QuantumGate::cnot_gate()).unwrap();
    assert_eq!(pairs(&state), vec![(0.0, 0.0), (0.0, 0.0), (1.0, 0.0), (0.0, 0.0)]);
}

#[test]
fn test_cz_gate() {
    // CZ|11> -> -|11>
    let state = QuantumState::new(&[1, 1]).apply_gate(&QuantumGate::cz_gate()).unwrap();
    assert_eq!(pairs(&state), vec![(0.0, 0.0), (0.0, 0.0), (0.0, 0.0), (-1.0, 0.0)]);
}

#[test]
fn test_swap_gate() {
    // Swap state of two qubits: |01> should become |10>
    let state = QuantumState::new(&[0, 1]).apply_gate(&QuantumGate::swap_gate()).unwrap();
    assert_eq!(pairs(&state), vec![(0.0, 0.0), (0.0, 0.0), (1.0, 0.0), (0.0, 0.0)]);
}

#[test]
fn test_toffoli_gate() {
    // Apply Toffoli gate (CCNOT): |110> should become |111>
    let state = QuantumState::new(&[1, 1, 0]).apply_gate(&QuantumGate::ccnot_gate()).unwrap();
    let mut expected = vec![(0.0, 0.0); 8];
    expected[7] = (1.0, 0.0);
    assert_eq!(pairs(&state), expected);
}

#[test]
fn test_c_down_and_c_up() {
    // Control above: |10> -> |11>; control below: |01> -> |11>.
    let state = QuantumState::new(&[1, 0])
        .apply_gate(&QuantumGate::c_down(QuantumGate::x_gate()))
        .unwrap();
    assert_eq!(pairs(&state), vec![(0.0, 0.0), (0.0, 0.0), (0.0, 0.0), (1.0, 0.0)]);

    let state = QuantumState::new(&[0, 1])
        .apply_gate(&QuantumGate::c_up(QuantumGate::x_gate()))
        .unwrap();
    assert_eq!(pairs(&state), vec![(0.0, 0.0), (0.0, 0.0), (0.0, 0.0), (1.0, 0.0)]);
}

#[test]
fn test_kronecker_identity_and_x() {
    // (I ⊗ X)|00> = |01>
    let gate = QuantumGate::i_gate().kronecker(&QuantumGate::x_gate());
    assert_eq!(gate.size, 2);
    let state = QuantumState::new(&[0, 0]).apply_gate(&gate).unwrap();
    assert_eq!(pairs(&state), vec![(0.0, 0.0), (1.0, 0.0), (0.0, 0.0), (0.0, 0.0)]);
}

#[test]
fn test_state_size() {
    assert_eq!(QuantumState::new(&[0]).size(), 1);
    assert_eq!(QuantumState::new(&[0, 1, 0]).size(), 3);
}
