use zkvm_from_scratch::vm::{decode_instruction, Instruction, Memory, Opcode, VmError, VmState};

fn r_type(funct7: u32, rs2: u32, rs1: u32, funct3: u32, rd: u32) -> u32 {
    (funct7 << 25) | (rs2 << 20) | (rs1 << 15) | (funct3 << 12) | (rd << 7) | 0x33
}

fn load_word(vm: &mut VmState, addr: u32, word: u32) {
    vm.memory.load_program(&word.to_le_bytes(), addr).unwrap();
}

#[test]
fn test_vm_creation() {
    let vm = VmState::new(1024);
    assert_eq!(vm.pc, 0);
    assert_eq!(vm.registers[0], 0);
}

#[test]
fn add_of_two_registers_runs_one_step() {
    let mut vm = VmState::new(1024 * 1024);
    load_word(&mut vm, 0, r_type(0x00, 2, 1, 0, 2));
    vm.registers[1] = 42;
    vm.registers[2] = 17;
    vm.run(1).unwrap();
    assert_eq!(vm.registers[2], 59);
    assert_eq!(vm.pc, 4);
}

#[test]
fn add_word_with_register_zero_as_first_source() {
    // The word 0x00100133 has rd = 2, rs1 = 0 and rs2 = 1.
    let mut vm = VmState::new(1024 * 1024);
    vm.memory.load_program(&[0x33, 0x01, 0x10, 0x00], 0).unwrap();
    vm.registers[1] = 42;
    vm.registers[2] = 17;
    vm.run(1).unwrap();
    assert_eq!(vm.registers[2], 42);
    assert_eq!(vm.registers[1], 42);
    assert_eq!(vm.pc, 4);
}

#[test]
fn sub_wraps_below_zero() {
    let mut vm = VmState::new(1024);
    vm.registers[1] = 1;
    vm.registers[2] = 2;
    load_word(&mut vm, 0, r_type(0x20, 2, 1, 0, 1));
    vm.run(1).unwrap();
    assert_eq!(vm.registers[1], 0xFFFF_FFFF);
}

#[test]
fn division_by_zero_fails_and_keeps_state() {
    let mut vm = VmState::new(1024);
    vm.registers[1] = 10;
    load_word(&mut vm, 0, r_type(0x01, 0, 1, 4, 3));
    let before = vm.clone();
    assert_eq!(vm.run(1), Err(VmError::DivisionByZero));
    assert_eq!(vm.registers, before.registers);
    assert_eq!(vm.pc, before.pc);
    assert_eq!(vm.memory.read_word(0), before.memory.read_word(0));
}

#[test]
fn decoder_fields_and_opcodes() {
    let inst = decode_instruction(0x0010_0133).unwrap();
    assert_eq!(inst, Instruction::new(Opcode::Add, 2, 0, 1, 1));
    assert_eq!(decode_instruction(r_type(0x01, 3, 4, 0, 5)).unwrap().opcode, Opcode::Mul);
    assert_eq!(decode_instruction(r_type(0x01, 3, 4, 4, 5)).unwrap().opcode, Opcode::Div);
    assert_eq!(decode_instruction(0x0000_0003).unwrap().opcode, Opcode::Load);
    assert_eq!(decode_instruction(0x0000_0023).unwrap().opcode, Opcode::Store);
    assert_eq!(decode_instruction(0x0000_0063).unwrap().opcode, Opcode::Branch);
    assert_eq!(decode_instruction(0x0000_006f).unwrap().opcode, Opcode::Jump);
    assert_eq!(decode_instruction(0x0000_0000).unwrap().opcode, Opcode::Nop);
    assert_eq!(decode_instruction(0xFFF0_0013).unwrap().imm, -1);
    assert_eq!(decode_instruction(0x8000_0013).unwrap().imm, -2048);
}

#[test]
fn decoder_rejects_unassigned_function_bits() {
    assert_eq!(decode_instruction(r_type(0x01, 0, 0, 1, 0)), Err(VmError::UnknownInstruction));
    assert_eq!(decode_instruction(r_type(0x02, 0, 0, 0, 0)), Err(VmError::UnknownInstruction));
    assert_eq!(VmError::UnknownInstruction.message(), "Unknown R/M-extension instruction");
}

#[test]
fn memory_words_are_little_endian() {
    let mut mem = Memory::new(16);
    mem.write_word(4, 0x1234_ABCD).unwrap();
    assert_eq!(mem.read_byte(4), Ok(0xCD));
    assert_eq!(mem.read_byte(5), Ok(0xAB));
    assert_eq!(mem.read_byte(6), Ok(0x34));
    assert_eq!(mem.read_byte(7), Ok(0x12));
    assert_eq!(mem.read_word(4), Ok(0x1234_ABCD));
    assert_eq!(mem.read_word(8), Ok(0));
}

#[test]
fn memory_checks_alignment_before_bounds() {
    let mut mem = Memory::new(6);
    assert_eq!(mem.read_word(2), Err(VmError::UnalignedAccess));
    assert_eq!(mem.read_word(9), Err(VmError::UnalignedAccess));
    assert_eq!(mem.read_word(8), Err(VmError::MemoryOutOfBounds));
    assert_eq!(mem.read_word(4), Err(VmError::MemoryOutOfBounds));
    assert_eq!(mem.write_word(1, 7), Err(VmError::UnalignedAccess));
    assert_eq!(mem.read_byte(6), Err(VmError::MemoryOutOfBounds));
    assert_eq!(mem.write_byte(6, 1), Err(VmError::MemoryOutOfBounds));
    assert_eq!(VmError::MemoryOutOfBounds.message(), "Memory address out of bounds");
    assert_eq!(VmError::UnalignedAccess.message(), "Unaligned memory access");
}

#[test]
fn word_write_past_the_end_keeps_the_bytes_in_bounds() {
    let mut mem = Memory::new(6);
    assert_eq!(mem.write_word(4, 0x0102_0304), Err(VmError::MemoryOutOfBounds));
    assert_eq!(mem.read_byte(4), Ok(0x04));
    assert_eq!(mem.read_byte(5), Ok(0x03));
}

#[test]
fn load_program_stops_at_the_first_byte_out_of_bounds() {
    let mut mem = Memory::new(3);
    assert_eq!(mem.load_program(&[1, 2, 3, 4], 1), Err(VmError::MemoryOutOfBounds));
    assert_eq!(mem.read_byte(0), Ok(0));
    assert_eq!(mem.read_byte(1), Ok(1));
    assert_eq!(mem.read_byte(2), Ok(2));
    let mut wide = Memory::new(usize::MAX);
    assert_eq!(wide.load_program(&[9, 8], u32::MAX), Err(VmError::MemoryOutOfBounds));
    assert_eq!(wide.read_byte(u32::MAX), Ok(9));
}

fn i_type(imm: i32, rs1: u32, rd: u32, major: u32) -> u32 {
    ((imm as u32) << 20) | (rs1 << 15) | (rd << 7) | major
}

#[test]
fn register_zero_is_zero_after_each_instruction() {
    let mut vm = VmState::new(64);
    vm.registers[1] = 7;
    vm.registers[2] = 8;
    // ADD r0, r1, r2 writes register 0, which is then forced back to zero.
    vm.execute_instruction(Instruction::new(Opcode::Add, 0, 1, 2, 0)).unwrap();
    assert_eq!(vm.registers[0], 0);
    assert_eq!(vm.pc, 4);
    vm.execute_instruction(Instruction::new(Opcode::Nop, 0, 0, 0, 0)).unwrap();
    assert_eq!(vm.registers[0], 0);
    assert_eq!(vm.pc, 8);
}

#[test]
fn a_jump_leaves_the_registers_alone() {
    let mut vm = VmState::new(64);
    vm.registers[0] = 5;
    vm.pc = 16;
    vm.execute_instruction(Instruction::new(Opcode::Jump, 0, 0, 0, -8)).unwrap();
    assert_eq!(vm.pc, 8);
    assert_eq!(vm.registers[0], 5);
}

#[test]
fn branch_taken_and_not_taken() {
    let mut vm = VmState::new(64);
    vm.registers[1] = 3;
    vm.registers[2] = 3;
    vm.pc = 8;
    vm.execute_instruction(Instruction::new(Opcode::Branch, 0, 1, 2, 12)).unwrap();
    assert_eq!(vm.pc, 20);
    vm.registers[2] = 4;
    vm.execute_instruction(Instruction::new(Opcode::Branch, 0, 1, 2, 12)).unwrap();
    assert_eq!(vm.pc, 24);
    vm.pc = 4;
    vm.execute_instruction(Instruction::new(Opcode::Jump, 0, 0, 0, -8)).unwrap();
    assert_eq!(vm.pc, 0xFFFF_FFFC);
    vm.execute_instruction(Instruction::new(Opcode::Nop, 0, 0, 0, 0)).unwrap();
    assert_eq!(vm.pc, 0);
}

#[test]
fn multiply_wraps_and_divide_truncates() {
    let mut vm = VmState::new(64);
    vm.registers[1] = 0x8000_0001;
    vm.registers[2] = 2;
    vm.execute_instruction(Instruction::new(Opcode::Mul, 3, 1, 2, 0)).unwrap();
    assert_eq!(vm.registers[3], 2);
    vm.registers[4] = 17;
    vm.registers[5] = 5;
    vm.execute_instruction(Instruction::new(Opcode::Div, 6, 4, 5, 0)).unwrap();
    assert_eq!(vm.registers[6], 3);
    vm.registers[7] = 0xFFFF_FFFF;
    vm.execute_instruction(Instruction::new(Opcode::Add, 8, 7, 2, 0)).unwrap();
    assert_eq!(vm.registers[8], 1);
}

#[test]
fn load_and_store_use_base_plus_offset() {
    let mut vm = VmState::new(64);
    vm.registers[1] = 20;
    vm.registers[2] = 0xDEAD_BEEF;
    vm.execute_instruction(Instruction::new(Opcode::Store, 0, 1, 2, -4)).unwrap();
    assert_eq!(vm.memory.read_word(16), Ok(0xDEAD_BEEF));
    vm.execute_instruction(Instruction::new(Opcode::Load, 3, 1, 0, -4)).unwrap();
    assert_eq!(vm.registers[3], 0xDEAD_BEEF);
    assert_eq!(vm.pc, 8);
    assert_eq!(
        vm.execute_instruction(Instruction::new(Opcode::Load, 3, 1, 0, 1)),
        Err(VmError::UnalignedAccess)
    );
    assert_eq!(
        vm.execute_instruction(Instruction::new(Opcode::Store, 0, 1, 2, 44)),
        Err(VmError::MemoryOutOfBounds)
    );
    assert_eq!(vm.pc, 8);
}

#[test]
fn traced_steps_record_intermediate_values_in_order() {
    let mut vm = VmState::new(64);
    vm.registers[1] = 20;
    vm.registers[2] = 9;
    let add = vm.execute_with_trace(Instruction::new(Opcode::Add, 3, 1, 2, 0)).unwrap();
    assert_eq!(add.intermediate_values, vec![20, 9, 29]);
    assert_eq!((add.pc_before, add.pc_after), (0, 4));
    assert_eq!(add.registers_before[3], 0);
    assert_eq!(add.registers_after[3], 29);
    let sub = vm.execute_with_trace(Instruction::new(Opcode::Sub, 4, 2, 1, 0)).unwrap();
    assert_eq!(sub.intermediate_values, vec![9, 20, 0xFFFF_FFF5]);
    let mul = vm.execute_with_trace(Instruction::new(Opcode::Mul, 4, 2, 1, 0)).unwrap();
    assert_eq!(mul.intermediate_values, vec![9, 20, 180]);
    let div = vm.execute_with_trace(Instruction::new(Opcode::Div, 4, 1, 2, 0)).unwrap();
    assert_eq!(div.intermediate_values, vec![20, 9, 2]);
    let store = vm.execute_with_trace(Instruction::new(Opcode::Store, 0, 1, 2, -4)).unwrap();
    assert_eq!(store.intermediate_values, vec![20, 0xFFFF_FFFC, 16, 9]);
    assert_eq!(store.memory_writes, vec![(16, 0, 9)]);
    assert!(store.memory_reads.is_empty());
    let load = vm.execute_with_trace(Instruction::new(Opcode::Load, 5, 1, 0, -4)).unwrap();
    assert_eq!(load.intermediate_values, vec![20, 0xFFFF_FFFC, 16, 9]);
    assert_eq!(load.memory_reads, vec![(16, 9)]);
    let taken = vm.execute_with_trace(Instruction::new(Opcode::Branch, 0, 2, 5, 8)).unwrap();
    assert_eq!(taken.intermediate_values, vec![9, 9, 1]);
    assert_eq!(taken.pc_after, taken.pc_before + 8);
    let not_taken = vm.execute_with_trace(Instruction::new(Opcode::Branch, 0, 1, 2, 8)).unwrap();
    assert_eq!(not_taken.intermediate_values, vec![20, 9, 0]);
    assert_eq!(not_taken.pc_after, not_taken.pc_before + 4);
    let jump = vm.execute_with_trace(Instruction::new(Opcode::Jump, 0, 0, 0, 8)).unwrap();
    assert!(jump.intermediate_values.is_empty());
    let nop = vm.execute_with_trace(Instruction::new(Opcode::Nop, 0, 0, 0, 0)).unwrap();
    assert!(nop.intermediate_values.is_empty());
    assert_eq!(
        vm.execute_with_trace(Instruction::new(Opcode::Div, 4, 1, 0, 0)).err(),
        Some(VmError::DivisionByZero)
    );
    assert_eq!(VmError::DivisionByZero.message(), "Division by zero");
}

#[test]
fn traced_run_has_one_chained_step_per_cycle() {
    let mut vm = VmState::new(1024);
    load_word(&mut vm, 0, r_type(0x00, 2, 1, 0, 3));
    load_word(&mut vm, 4, i_type(8, 0, 0, 0x6f));
    load_word(&mut vm, 12, r_type(0x20, 1, 3, 0, 4));
    vm.registers[1] = 5;
    vm.registers[2] = 6;
    let steps = vm.run_with_trace(3).unwrap();
    assert_eq!(steps.len(), 3);
    for pair in steps.windows(2) {
        assert_eq!(pair[0].pc_after, pair[1].pc_before);
        assert_eq!(pair[0].registers_after, pair[1].registers_before);
    }
    for step in &steps {
        assert_eq!(step.registers_before[0], 0);
        assert_eq!(step.registers_after[0], 0);
        if step.instruction.opcode != Opcode::Jump && step.instruction.opcode != Opcode::Branch {
            assert_eq!(step.pc_after, step.pc_before.wrapping_add(4));
        }
    }
    assert_eq!(steps[1].pc_after, 12);
    assert_eq!(vm.registers[4], 6);
    assert_eq!(vm.pc, 16);
}

#[test]
fn a_run_stops_at_the_first_failure() {
    let mut vm = VmState::new(8);
    load_word(&mut vm, 0, r_type(0x00, 2, 1, 0, 3));
    load_word(&mut vm, 4, r_type(0x7f, 0, 0, 0, 0));
    vm.registers[1] = 1;
    assert_eq!(vm.run(5), Err(VmError::UnknownInstruction));
    assert_eq!(vm.pc, 4);
    assert_eq!(vm.registers[3], 1);
    let mut short = VmState::new(8);
    assert_eq!(short.run_with_trace(3).err(), Some(VmError::MemoryOutOfBounds));
    assert_eq!(short.pc, 8);
    let mut idle = VmState::new(8);
    assert_eq!(idle.run(0), Ok(()));
    assert_eq!(idle.run_with_trace(0).unwrap().len(), 0);
}
