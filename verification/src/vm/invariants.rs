//! What holds of every instruction, every run and every trace of the
//! machine.

use super::execution::{wrap_add, lemma_run_prefix_succeeds, MachineView};
use super::opcodes::{lemma_fields_in_range, Instruction, Opcode};
use vstd::prelude::*;

verus! {

/// An instruction that is fetched from memory names only registers that
/// exist.
pub proof fn lemma_fetched_instruction_well_formed(state: MachineView)
    ensures
        state.fetch() matches Ok(inst) ==> inst.well_formed(),
{
    if let Ok(word) = state.memory.read_word(state.pc) {
        lemma_fields_in_range(word);
    }
}

/// No instruction changes the number of registers.
pub proof fn lemma_register_count_kept(state: MachineView, inst: Instruction)
    requires
        state.registers.len() == 32,
        inst.well_formed(),
    ensures
        state.after(inst).registers.len() == 32,
{
}

/// After an instruction that has executed and did not transfer control,
/// register 0 holds zero. An instruction that transfers control, or one
/// that fails, writes no register, so it keeps a zero that was there.
pub proof fn lemma_zero_register_after_instruction(state: MachineView, inst: Instruction)
    requires
        state.registers.len() == 32,
        inst.well_formed(),
    ensures
        state.fault(inst) is None && !state.transfers_control(inst) ==> state.after(
            inst,
        ).registers[0] == 0,
        state.registers[0] == 0 ==> state.after(inst).registers[0] == 0,
{
}

/// A machine that starts with zero in register 0 has zero there after any
/// number of cycles.
pub proof fn lemma_zero_register_after_run(start: MachineView, steps: nat)
    requires
        start.registers.len() == 32,
        start.registers[0] == 0,
    ensures
        start.run(steps).state.registers.len() == 32,
        start.run(steps).state.registers[0] == 0,
    decreases steps,
{
    if steps > 0 {
        let earlier = start.run((steps - 1) as nat);
        lemma_zero_register_after_run(start, (steps - 1) as nat);
        lemma_fetched_instruction_well_formed(earlier.state);
        if let Ok(inst) = earlier.state.fetch() {
            lemma_register_count_kept(earlier.state, inst);
            lemma_zero_register_after_instruction(earlier.state, inst);
        }
    }
}

/// In the trace of a run that starts with zero in register 0, every step
/// has zero in register 0 before and after.
pub proof fn lemma_trace_zero_register(start: MachineView, steps: nat, i: int)
    requires
        start.registers.len() == 32,
        start.registers[0] == 0,
        start.run(steps).fault is None,
        0 <= i < steps,
    ensures
        start.trace(steps)[i].registers_before[0] == 0,
        start.trace(steps)[i].registers_after[0] == 0,
{
    lemma_run_prefix_succeeds(start, steps, i as nat);
    lemma_zero_register_after_run(start, i as nat);
    lemma_zero_register_after_run(start, (i + 1) as nat);
}

/// Consecutive steps of a trace chain: each step starts with the program
/// counter and the registers with which the step before it ended.
pub proof fn lemma_trace_chains(start: MachineView, steps: nat, i: int)
    requires
        start.run(steps).fault is None,
        0 <= i,
        i + 1 < steps,
    ensures
        start.trace(steps)[i].pc_after == start.trace(steps)[i + 1].pc_before,
        start.trace(steps)[i].registers_after == start.trace(steps)[i + 1].registers_before,
{
    lemma_run_prefix_succeeds(start, steps, i as nat);
}

/// A step of a trace whose instruction is neither a branch nor a jump
/// moves the program counter on by four, modulo 2^32.
pub proof fn lemma_trace_sequential_pc(start: MachineView, steps: nat, i: int)
    requires
        start.run(steps).fault is None,
        0 <= i < steps,
        start.trace(steps)[i].instruction.opcode != Opcode::Branch,
        start.trace(steps)[i].instruction.opcode != Opcode::Jump,
    ensures
        start.trace(steps)[i].pc_after == wrap_add(start.trace(steps)[i].pc_before, 4),
{
    lemma_run_prefix_succeeds(start, steps, i as nat);
}

/// The trace of a run of `steps` cycles without failure has `steps`
/// steps, and each records the instruction found at its program counter.
pub proof fn lemma_trace_shape(start: MachineView, steps: nat, i: int)
    requires
        start.run(steps).fault is None,
        0 <= i < steps,
    ensures
        start.trace(steps).len() == steps,
        start.trace(steps)[i].pc_before == start.run(i as nat).state.pc,
        start.run(i as nat).state.fetch() == Ok::<Instruction, super::opcodes::VmError>(
            start.trace(steps)[i].instruction,
        ),
{
    lemma_run_prefix_succeeds(start, steps, i as nat);
}

} // verus!
