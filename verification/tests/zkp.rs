use zkvm_from_scratch::crypto::{hash_bytes, MerkleTree};
use zkvm_from_scratch::vm::{Instruction, Opcode, VmError, VmState};
use zkvm_from_scratch::zkp::{
    deserialize_proof, serialize_proof, Constraint, ConstraintSystem, Expression,
    MockVerificationSystem, Proof, ProofError, Prover, SerializableFriProof,
    SerializableQueryProof, SerializableStarkProof, StarkProver, StarkVerifier, Verifier, Witness,
};

type WireQuery = (usize, u32, Vec<[u8; 32]>);
type WireFri = (Vec<[u8; 32]>, Vec<u32>, Vec<WireQuery>);
type WireProof = ([u8; 32], Vec<u32>, Vec<[u8; 32]>, WireFri);

fn wire_form(proof: &SerializableStarkProof) -> WireProof {
    let queries = proof
        .fri_proof
        .query_proofs
        .iter()
        .map(|q| (q.index, q.value, q.merkle_path.clone()))
        .collect();
    (
        proof.trace_commitment,
        proof.constraint_evaluations.clone(),
        proof.merkle_proof.clone(),
        (proof.fri_proof.commitments.clone(), proof.fri_proof.final_polynomial.clone(), queries),
    )
}

fn sample_proof() -> SerializableStarkProof {
    SerializableStarkProof {
        trace_commitment: [7u8; 32],
        constraint_evaluations: vec![0, 1, 0xDEAD_BEEF],
        merkle_proof: vec![[1u8; 32], [2u8; 32]],
        fri_proof: SerializableFriProof {
            commitments: vec![[3u8; 32]],
            final_polynomial: vec![9, 8],
            query_proofs: vec![
                SerializableQueryProof { index: 5, value: 77, merkle_path: vec![[4u8; 32]] },
                SerializableQueryProof { index: 0, value: 0, merkle_path: vec![] },
            ],
        },
    }
}

fn add_machine() -> VmState {
    let mut vm = VmState::new(1024 * 1024);
    vm.memory.load_program(&[0x33, 0x01, 0x10, 0x00], 0).unwrap();
    vm.registers[1] = 42;
    vm.registers[2] = 17;
    vm
}

fn name(text: &str) -> String {
    text.to_string()
}

fn variable(text: &str) -> Expression {
    Expression::Variable(name(text))
}

#[test]
fn prove_and_verify_one_add_step() {
    let mut vm = add_machine();
    let prover = Prover::new(StarkProver::default());
    let trace = prover.generate_execution_trace(&mut vm, 1).unwrap();
    assert_eq!(trace.steps.len(), 1);
    let proof = prover.prove_execution(&trace).unwrap();

    let stark = deserialize_proof(&proof.witness).unwrap();
    assert_ne!(stark.trace_commitment, [0u8; 32]);
    assert_eq!(proof.trace_commitment, stark.trace_commitment.to_vec());
    assert!(!stark.fri_proof.commitments.is_empty());
    assert!(!stark.fri_proof.final_polynomial.is_empty());
    assert!(stark.constraint_evaluations.iter().all(|&e| e == 0));

    let verifier = Verifier::new(StarkVerifier::default());
    assert_eq!(verifier.verify(&proof, &[]), Ok(true));
    assert_eq!(verifier.verify(&proof, &[1, 2, 3]), Ok(true));
}

#[test]
fn proof_of_one_add_step_has_the_expected_shape() {
    let mut vm = add_machine();
    let prover = Prover::new(StarkProver::new(80, 4));
    let trace = prover.generate_execution_trace(&mut vm, 1).unwrap();
    let stark_prover = StarkProver::default();

    let columns = stark_prover.interpolate_trace(&trace);
    assert_eq!(columns.len(), 33);
    assert_eq!(columns[0], vec![0]);
    assert_eq!(columns[2], vec![42]);
    assert_eq!(columns[3], vec![17]);

    // One step: the program counter, the sum, register 0, and 32 range checks.
    let evaluations = stark_prover.evaluate_constraints(&trace);
    assert_eq!(evaluations, vec![0u32; 35]);

    let fri = stark_prover.fri_commit(&evaluations);
    // 35 values fold to 17, 8, 4.
    assert_eq!(fri.commitments.len(), 4);
    assert_eq!(fri.final_polynomial, vec![0, 0, 0, 0]);
    assert_eq!(fri.query_proofs.len(), 1);
    assert_eq!(fri.query_proofs[0].index, 0);
    assert_eq!(fri.query_proofs[0].value, 0);
    assert!(fri.query_proofs[0].merkle_path.is_empty());

    let proof = prover.prove_execution(&trace).unwrap();
    let stark = deserialize_proof(&proof.witness).unwrap();
    assert!(stark.merkle_proof.is_empty());
    assert_eq!(stark.constraint_evaluations, evaluations);
    assert_eq!(stark.fri_proof.commitments, fri.commitments);
    let (root, _) = stark_prover.commit_to_columns(&columns);
    assert_eq!(stark.trace_commitment, root);
}

#[test]
fn folding_averages_adjacent_pairs() {
    let prover = StarkProver::default();
    let fri = prover.fri_commit(&[1, 3, 10, 21, 0xFFFF_FFFF, 0xFFFF_FFFF, 6, 6, 99]);
    assert_eq!(fri.final_polynomial, vec![2, 15, 0xFFFF_FFFF, 6]);
    assert_eq!(fri.commitments.len(), 2);
    assert_eq!(fri.query_proofs[0].value, 2);
    let short = prover.fri_commit(&[5, 6, 7, 8]);
    assert_eq!(short.final_polynomial, vec![5, 6, 7, 8]);
    assert_eq!(short.commitments.len(), 1);
    let (root, _) = prover.commit_to_columns(&[vec![5, 6, 7, 8]]);
    assert_eq!(short.commitments[0], root);
}

#[test]
fn commitment_is_the_root_over_the_words_of_all_columns() {
    let prover = StarkProver::default();
    let (root, tree) = prover.commit_to_columns(&[vec![1, 2], vec![0x0A0B_0C0D]]);
    let leaves: Vec<&[u8]> = vec![&[1, 0, 0, 0], &[2, 0, 0, 0], &[0x0D, 0x0C, 0x0B, 0x0A]];
    let expected = MerkleTree::new(leaves);
    assert_eq!(root, *expected.root());
    assert_eq!(tree.root(), expected.root());
    assert_eq!(tree.generate_proof(2).unwrap().leaf, hash_bytes(&[0x0D, 0x0C, 0x0B, 0x0A]));
    let (empty_root, _) = prover.commit_to_columns(&[]);
    assert_eq!(empty_root, [0u8; 32]);
}

#[test]
fn frame_is_the_fixed_width_little_endian_encoding() {
    let proof = sample_proof();
    let bytes = serialize_proof(&proof);
    assert_eq!(bytes, bincode::serialize(&wire_form(&proof)).unwrap());
    assert_eq!(&bytes[..32], &[7u8; 32]);
    assert_eq!(&bytes[32..40], &[3, 0, 0, 0, 0, 0, 0, 0]);
    assert_eq!(&bytes[40..52], &[0, 0, 0, 0, 1, 0, 0, 0, 0xEF, 0xBE, 0xAD, 0xDE]);
    assert_eq!(bytes.len(), 32 + (8 + 12) + (8 + 64) + (8 + 32) + (8 + 8) + 8 + (20 + 32) + 20);
}

#[test]
fn frame_reads_back_to_the_same_proof() {
    let proof = sample_proof();
    let mut bytes = serialize_proof(&proof);
    let back = deserialize_proof(&bytes).unwrap();
    assert_eq!(wire_form(&back), wire_form(&proof));
    let through_bincode: WireProof = bincode::deserialize(&bytes).unwrap();
    assert_eq!(through_bincode, wire_form(&proof));
    bytes.extend_from_slice(&[0xAA, 0xBB]);
    assert_eq!(wire_form(&deserialize_proof(&bytes).unwrap()), wire_form(&proof));
}

#[test]
fn a_frame_that_is_cut_short_is_rejected() {
    let bytes = serialize_proof(&sample_proof());
    for len in 0..bytes.len() {
        assert_eq!(deserialize_proof(&bytes[..len]).err(), Some(ProofError::Deserialization));
        assert!(bincode::deserialize::<WireProof>(&bytes[..len]).is_err());
    }
    let mut huge = vec![0u8; 32];
    huge.extend_from_slice(&u64::MAX.to_le_bytes());
    huge.extend_from_slice(&[0u8; 64]);
    assert_eq!(deserialize_proof(&huge).err(), Some(ProofError::Deserialization));
    assert_eq!(ProofError::Deserialization.message(), "Failed to deserialize STARK proof");
    assert_eq!(ProofError::Serialization.message(), "Serialization failed");
}

#[test]
fn verifier_reports_a_witness_that_is_no_frame() {
    let verifier = Verifier::new(StarkVerifier::new(80));
    let proof = Proof { trace_commitment: vec![1; 32], witness: vec![1, 2, 3] };
    assert_eq!(verifier.verify(&proof, &[]), Err(ProofError::Deserialization));
}

#[test]
fn verifier_rejects_each_failed_check() {
    let verifier = StarkVerifier::default();
    let judge = Verifier::new(StarkVerifier::default());
    let verdict = |stark: &SerializableStarkProof| {
        judge.verify(&Proof { trace_commitment: vec![], witness: serialize_proof(stark) }, &[])
    };

    let mut good = sample_proof();
    good.constraint_evaluations = vec![0, 0, 0];
    assert!(verifier.verify_trace_commitment(&good));
    assert!(verifier.verify_constraint_evaluations(&good));
    assert!(verifier.verify_fri_proof(&good));
    assert_eq!(verdict(&good), Ok(true));

    let unsatisfied = sample_proof();
    assert!(!verifier.verify_constraint_evaluations(&unsatisfied));
    assert_eq!(verdict(&unsatisfied), Ok(false));

    let mut zero = sample_proof();
    zero.constraint_evaluations = vec![];
    zero.trace_commitment = [0u8; 32];
    assert!(!verifier.verify_trace_commitment(&zero));
    assert_eq!(verdict(&zero), Ok(false));

    let mut no_layers = sample_proof();
    no_layers.constraint_evaluations = vec![];
    no_layers.fri_proof.commitments = vec![];
    assert!(!verifier.verify_fri_proof(&no_layers));
    assert_eq!(verdict(&no_layers), Ok(false));

    let mut no_final = sample_proof();
    no_final.constraint_evaluations = vec![];
    no_final.fri_proof.final_polynomial = vec![];
    assert!(!verifier.verify_fri_proof(&no_final));
    assert_eq!(verdict(&no_final), Ok(false));
}

#[test]
fn mock_system_accepts_anything() {
    let verifier = Verifier::new(MockVerificationSystem);
    let proof = Proof { trace_commitment: vec![], witness: vec![] };
    assert_eq!(verifier.verify(&proof, &[9]), Ok(true));
}

#[test]
fn a_violated_constraint_is_reported_and_rejected() {
    // ADD r0, r1, r2 asks for r1 + r2 in register 0, which holds zero.
    let mut vm = VmState::new(64);
    vm.memory.load_program(&0x0020_8033u32.to_le_bytes(), 0).unwrap();
    vm.registers[1] = 2;
    vm.registers[2] = 3;
    let prover = Prover::new(StarkProver::default());
    let trace = prover.generate_execution_trace(&mut vm, 1).unwrap();
    assert_eq!(trace.steps[0].instruction, Instruction::new(Opcode::Add, 0, 1, 2, 2));
    let evaluations = StarkProver::default().evaluate_constraints(&trace);
    let mut expected = vec![0u32; 35];
    expected[1] = 1;
    assert_eq!(evaluations, expected);
    let proof = prover.prove_execution(&trace).unwrap();
    assert_eq!(Verifier::new(StarkVerifier::default()).verify(&proof, &[]), Ok(false));
}

#[test]
fn trace_steps_merge_reads_and_writes() {
    let mut vm = VmState::new(64);
    // The immediate -4 shares its low bits with the second source, register 28:
    // STORE r28 at r1 - 4, then LOAD r3 from r1 - 4.
    let store = (0xFFCu32 << 20) | (1 << 15) | 0x23;
    let load = (0xFFCu32 << 20) | (1 << 15) | (3 << 7) | 0x03;
    vm.memory.load_program(&store.to_le_bytes(), 0).unwrap();
    vm.memory.load_program(&load.to_le_bytes(), 4).unwrap();
    vm.registers[1] = 36;
    vm.registers[28] = 0xABCD;
    let prover = Prover::new(StarkProver::default());
    let before = vm.clone();
    let trace = prover.generate_execution_trace(&mut vm, 2).unwrap();
    assert_eq!(trace.initial_state.registers, before.registers);
    assert_eq!(trace.final_state.pc, 8);
    assert_eq!(trace.final_state.registers, vm.registers);
    assert_eq!(trace.steps.len(), 2);
    assert_eq!(trace.steps[0].step_index, 0);
    assert_eq!(trace.steps[1].step_index, 1);
    assert_eq!(trace.steps[0].instruction.opcode, Opcode::Store);
    assert_eq!(trace.steps[0].instruction.rs2, 28);
    let write = trace.steps[0].memory_accesses[0];
    assert_eq!((write.addr, write.value_before, write.value_after), (32, 0, 0xABCD));
    assert!(write.is_write);
    let read = trace.steps[1].memory_accesses[0];
    assert_eq!((read.addr, read.value_before, read.value_after), (32, 0xABCD, 0xABCD));
    assert!(!read.is_write);
    assert_eq!(trace.steps[0].pc_after, trace.steps[1].pc_before);
    assert_eq!(trace.steps[0].registers_after, trace.steps[1].registers_before);

    // 35 constraints for each step: pc, one memory access, register 0, 32 range checks.
    let evaluations = StarkProver::default().evaluate_constraints(&trace);
    assert_eq!(evaluations, vec![0u32; 70]);

    let data = prover.generate_witness(&trace, vec![1], vec![2, 3]);
    assert_eq!(data.public_inputs, vec![1]);
    assert_eq!(data.private_inputs, vec![2, 3]);
    assert_eq!(data.trace.steps.len(), 2);
    assert_eq!(data.trace.steps[1].intermediate_values, trace.steps[1].intermediate_values);
}

#[test]
fn a_failing_run_gives_no_trace() {
    let mut vm = VmState::new(4);
    let prover = Prover::new(StarkProver::default());
    assert_eq!(
        prover.generate_execution_trace(&mut vm, 2).err(),
        Some(VmError::MemoryOutOfBounds)
    );
    assert_eq!(vm.pc, 4);
}

#[test]
fn constraints_of_a_trace_name_their_cells() {
    let mut vm = add_machine();
    let prover = Prover::new(StarkProver::default());
    let trace = prover.generate_execution_trace(&mut vm, 1).unwrap();
    let mut system = ConstraintSystem::default();
    system.generate_constraints_for_trace(&trace);
    assert_eq!(system.witness_columns.len(), 3 + 64);
    assert_eq!(&system.witness_columns[..5], ["step", "pc_before", "pc_after", "reg_0_before", "reg_0_after"]);
    assert_eq!(system.witness_columns[66], "reg_31_after");
    assert_eq!(system.public_columns, ["initial_pc", "final_pc"]);
    assert_eq!(system.constraints.len(), 35);
    match &system.constraints[0] {
        Constraint::Equality { left: Expression::Variable(l), right: Expression::Add(a, b) } => {
            assert_eq!(l, "pc_after_0");
            assert!(matches!(&**a, Expression::Variable(n) if n == "pc_before_0"));
            assert!(matches!(&**b, Expression::Constant(4)));
        }
        other => panic!("unexpected constraint {other:?}"),
    }
    match &system.constraints[1] {
        Constraint::Equality { left: Expression::Variable(l), right: Expression::Add(a, b) } => {
            assert_eq!(l, "reg_2_after_0");
            assert!(matches!(&**a, Expression::Variable(n) if n == "reg_0_before_0"));
            assert!(matches!(&**b, Expression::Variable(n) if n == "reg_1_before_0"));
        }
        other => panic!("unexpected constraint {other:?}"),
    }
    assert!(matches!(
        &system.constraints[2],
        Constraint::Equality { left: Expression::Variable(l), right: Expression::Constant(0) }
            if l == "reg_0_after_0"
    ));
    assert!(matches!(
        &system.constraints[34],
        Constraint::RangeCheck { value: Expression::Variable(v), max_bits: 32 } if v == "reg_31_after_0"
    ));
    system.generate_constraints_for_step(&trace.steps[0], 12);
    assert_eq!(system.constraints.len(), 70);
    assert!(matches!(
        &system.constraints[69],
        Constraint::RangeCheck { value: Expression::Variable(v), max_bits: 32 } if v == "reg_31_after_12"
    ));
}

#[test]
fn expressions_evaluate_with_wrapping_arithmetic() {
    let system = ConstraintSystem::new();
    let mut witness = Witness::new();
    witness.insert(name("x"), 0xFFFF_FFFF);
    witness.insert(name("y"), 3);
    let constant = |v: u32| Box::new(Expression::Constant(v));
    assert_eq!(system.evaluate_expression(&Expression::Constant(17), &witness), Some(17));
    assert_eq!(system.evaluate_expression(&variable("x"), &witness), Some(0xFFFF_FFFF));
    assert_eq!(system.evaluate_expression(&variable("z"), &witness), None);
    let sum = Expression::Add(Box::new(variable("x")), Box::new(variable("y")));
    assert_eq!(system.evaluate_expression(&sum, &witness), Some(2));
    let difference = Expression::Sub(Box::new(variable("y")), constant(5));
    assert_eq!(system.evaluate_expression(&difference, &witness), Some(0xFFFF_FFFE));
    let product = Expression::Mul(Box::new(variable("x")), Box::new(variable("y")));
    assert_eq!(system.evaluate_expression(&product, &witness), Some(0xFFFF_FFFD));
    let missing = Expression::Mul(Box::new(variable("x")), Box::new(variable("z")));
    assert_eq!(system.evaluate_expression(&missing, &witness), None);
    let nested = Expression::Add(Box::new(sum.clone()), Box::new(product.clone()));
    assert_eq!(system.evaluate_expression(&nested, &witness), Some(0xFFFF_FFFF));
}

#[test]
fn constraints_hold_as_their_kind_says() {
    let mut system = ConstraintSystem::new();
    let mut witness = Witness::new();
    witness.insert(name("a"), 255);
    witness.insert(name("b"), 256);
    let equal = Constraint::Equality { left: variable("a"), right: Expression::Constant(255) };
    let unequal = Constraint::Equality { left: variable("a"), right: variable("b") };
    let both_missing = Constraint::Equality { left: variable("p"), right: variable("q") };
    let one_missing = Constraint::Equality { left: variable("a"), right: variable("q") };
    assert!(system.verify_constraint(&equal, &witness));
    assert!(!system.verify_constraint(&unequal, &witness));
    assert!(!system.verify_constraint(&both_missing, &witness));
    assert!(!system.verify_constraint(&one_missing, &witness));

    let range = |text: &str, max_bits: u32| Constraint::RangeCheck { value: variable(text), max_bits };
    assert!(system.verify_constraint(&range("a", 8), &witness));
    assert!(!system.verify_constraint(&range("b", 8), &witness));
    assert!(system.verify_constraint(&range("b", 9), &witness));
    assert!(!system.verify_constraint(&range("a", 0), &witness));
    assert!(system.verify_constraint(&range("b", 31), &witness));
    assert!(system.verify_constraint(&range("b", 32), &witness));
    assert!(system.verify_constraint(&range("b", 200), &witness));
    assert!(!system.verify_constraint(&range("q", 32), &witness));

    let memory = Constraint::MemoryConsistency {
        addr: variable("nowhere"),
        value_read: Expression::Constant(1),
        value_written: Expression::Constant(2),
    };
    assert!(system.verify_constraint(&memory, &witness));

    assert!(system.verify_constraints(&witness));
    system.add_constraint(equal.clone());
    system.add_constraint(memory);
    system.add_witness_column(name("a"));
    system.add_public_column(name("b"));
    assert!(system.verify_constraints(&witness));
    system.add_constraint(unequal);
    system.add_constraint(equal);
    assert!(!system.verify_constraints(&witness));
    assert_eq!(system.witness_columns, ["a"]);
    assert_eq!(system.public_columns, ["b"]);
}

#[test]
fn a_witness_keeps_the_last_value_of_a_name() {
    let mut witness = Witness::new();
    assert_eq!(witness.get(&name("pc_before_0")), None);
    for step in 0..300u32 {
        witness.insert(format!("pc_before_{step}"), step);
        witness.insert(format!("pc_after_{step}"), step + 4);
    }
    witness.insert(name("pc_before_7"), 1000);
    witness.insert(name(""), 1);
    for step in 0..300u32 {
        let expected = if step == 7 { 1000 } else { step };
        assert_eq!(witness.get(&format!("pc_before_{step}")), Some(expected));
        assert_eq!(witness.get(&format!("pc_after_{step}")), Some(step + 4));
    }
    assert_eq!(witness.get(&name("")), Some(1));
    assert_eq!(witness.get(&name("pc_before_300")), None);
}

#[test]
fn frames_with_damaged_bytes_are_read_as_by_bincode() {
    let bytes = serialize_proof(&sample_proof());
    let mut state: u32 = 0x2545_F491;
    for round in 0..2000usize {
        let mut damaged = bytes.clone();
        for _ in 0..(1 + round % 3) {
            state = state.wrapping_mul(1_664_525).wrapping_add(1_013_904_223);
            let at = (state >> 8) as usize % damaged.len();
            state = state.wrapping_mul(1_664_525).wrapping_add(1_013_904_223);
            damaged[at] = match (state >> 16) % 4 {
                0 => 0,
                1 => 0xFF,
                2 => damaged[at].wrapping_add(1),
                _ => (state >> 24) as u8,
            };
        }
        if round % 5 == 0 {
            state = state.wrapping_mul(1_664_525).wrapping_add(1_013_904_223);
            damaged.truncate((state >> 8) as usize % (bytes.len() + 1));
        }
        let ours = deserialize_proof(&damaged).ok().map(|proof| wire_form(&proof));
        let theirs = bincode::deserialize::<WireProof>(&damaged).ok();
        assert_eq!(ours, theirs, "round {round}");
    }
}

#[test]
fn a_long_idle_run_is_proved_and_accepted() {
    // Empty memory holds the word 0 everywhere, which decodes to a no-operation.
    let mut vm = VmState::new(4096);
    let prover = Prover::new(StarkProver::default());
    let trace = prover.generate_execution_trace(&mut vm, 300).unwrap();
    assert_eq!(trace.steps.len(), 300);
    assert_eq!(vm.pc, 1200);
    let proof = prover.prove_execution(&trace).unwrap();
    let stark = deserialize_proof(&proof.witness).unwrap();
    // Each idle step has 34 constraints: the program counter, register 0, 32 range checks.
    assert_eq!(stark.constraint_evaluations, vec![0u32; 300 * 34]);
    assert_eq!(Verifier::new(StarkVerifier::default()).verify(&proof, &[]), Ok(true));
}

#[test]
fn defaults_and_copies() {
    let prover = StarkProver::default();
    assert_eq!((prover.security_level, prover.expansion_factor), (80, 4));
    let tuned = StarkProver::new(128, 8);
    assert_eq!((tuned.security_level, tuned.expansion_factor), (128, 8));
    assert_eq!(StarkVerifier::default().security_level, 80);
    assert_eq!(StarkVerifier::new(96).security_level, 96);

    let mut system = ConstraintSystem::default();
    assert!(system.constraints.is_empty());
    system.add_constraint(Constraint::RangeCheck { value: variable("a"), max_bits: 4 });
    system.add_witness_column(name("a"));
    let copy = system.clone();
    assert_eq!(copy.witness_columns, system.witness_columns);
    assert_eq!(copy.constraints.len(), 1);

    let mut witness = Witness::new();
    witness.insert(name("a"), 15);
    let same = witness.clone();
    witness.insert(name("a"), 16);
    assert!(copy.verify_constraints(&same));
    assert!(!copy.verify_constraints(&witness));

    let proof = sample_proof();
    assert_eq!(wire_form(&proof.clone()), wire_form(&proof));
    let tree = MerkleTree::new(vec![b"x".as_slice(), b"y".as_slice(), b"z".as_slice()]);
    let twin = tree.clone();
    assert_eq!(twin.root(), tree.root());
    assert!(twin.verify_proof(&tree.generate_proof(3).unwrap().clone()));
}
