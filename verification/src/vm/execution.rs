//! The register machine: its state, one-instruction transitions with and
//! without a recorded trace step, and bounded runs.

use super::memory::{Memory, MemoryView};
use super::opcodes::{decode_instruction, decode_spec, Instruction, Opcode, VmError};
use crate::utils::vectors::copy_of;
use vstd::prelude::*;

verus! {

/// Addition modulo 2^32.
pub open spec fn wrap_add(a: u32, b: u32) -> u32 {
    ((a + b) % 0x1_0000_0000) as u32
}

/// Subtraction modulo 2^32.
pub open spec fn wrap_sub(a: u32, b: u32) -> u32 {
    ((a - b) % 0x1_0000_0000) as u32
}

/// Multiplication modulo 2^32.
pub open spec fn wrap_mul(a: u32, b: u32) -> u32 {
    ((a * b) % 0x1_0000_0000) as u32
}

/// A signed immediate as the 32-bit word with the same bits.
pub open spec fn sign_extend(imm: i32) -> u32 {
    ((imm as int) % 0x1_0000_0000) as u32
}

/// The mathematical content of a [`VmState`].
pub struct MachineView {
    pub registers: Seq<u32>,
    pub pc: u32,
    pub memory: MemoryView,
}

impl MachineView {
    /// The value of register `index`.
    pub open spec fn reg(self, index: u8) -> u32 {
        self.registers[index as int]
    }

    /// This state with register `index` set to `value`.
    pub open spec fn with_reg(self, index: u8, value: u32) -> MachineView {
        MachineView { registers: self.registers.update(index as int, value), ..self }
    }

    /// This state after an instruction that does not transfer control:
    /// register 0 is forced to zero and the program counter moves on by 4.
    pub open spec fn advanced(self) -> MachineView {
        MachineView {
            registers: self.registers.update(0, 0),
            pc: wrap_add(self.pc, 4),
            ..self
        }
    }

    /// This state after a transfer of control by `imm` from the current
    /// program counter.
    pub open spec fn jumped(self, imm: i32) -> MachineView {
        MachineView { pc: wrap_add(self.pc, sign_extend(imm)), ..self }
    }

    /// The address a load or store instruction refers to.
    pub open spec fn effective_address(self, inst: Instruction) -> u32 {
        wrap_add(self.reg(inst.rs1), sign_extend(inst.imm))
    }

    /// Whether `inst` transfers control from this state: a jump, or a
    /// branch whose two source registers are equal.
    pub open spec fn transfers_control(self, inst: Instruction) -> bool {
        inst.opcode == Opcode::Jump || (inst.opcode == Opcode::Branch && self.reg(inst.rs1)
            == self.reg(inst.rs2))
    }

    /// The error, if any, with which `inst` fails in this state.
    pub open spec fn fault(self, inst: Instruction) -> Option<VmError> {
        match inst.opcode {
            Opcode::Div => if self.reg(inst.rs2) == 0 {
                Some(VmError::DivisionByZero)
            } else {
                None
            },
            Opcode::Load => match self.memory.read_word(self.effective_address(inst)) {
                Ok(_) => None,
                Err(e) => Some(e),
            },
            Opcode::Store => match self.memory.write_word_result(self.effective_address(inst)) {
                Ok(_) => None,
                Err(e) => Some(e),
            },
            _ => None,
        }
    }

    /// The state in which `inst` leaves the machine, whether it succeeds
    /// or fails. A failing instruction changes nothing, except that a
    /// store which runs out of bounds has written the bytes in bounds.
    pub open spec fn after(self, inst: Instruction) -> MachineView {
        let a = self.reg(inst.rs1);
        let b = self.reg(inst.rs2);
        match inst.opcode {
            Opcode::Add => self.with_reg(inst.rd, wrap_add(a, b)).advanced(),
            Opcode::Sub => self.with_reg(inst.rd, wrap_sub(a, b)).advanced(),
            Opcode::Mul => self.with_reg(inst.rd, wrap_mul(a, b)).advanced(),
            Opcode::Div => if b == 0 {
                self
            } else {
                self.with_reg(inst.rd, a / b).advanced()
            },
            Opcode::Load => match self.memory.read_word(self.effective_address(inst)) {
                Ok(value) => self.with_reg(inst.rd, value).advanced(),
                Err(_) => self,
            },
            Opcode::Store => {
                let stored = MachineView {
                    memory: self.memory.after_write_word(self.effective_address(inst), b),
                    ..self
                };
                if self.memory.write_word_result(self.effective_address(inst)) is Ok {
                    stored.advanced()
                } else {
                    stored
                }
            },
            Opcode::Branch => if a == b {
                self.jumped(inst.imm)
            } else {
                self.advanced()
            },
            Opcode::Jump => self.jumped(inst.imm),
            Opcode::Nop => self.advanced(),
        }
    }
}

/// The mathematical content of an [`ExecutionStep`].
pub struct StepView {
    pub pc_before: u32,
    pub pc_after: u32,
    pub registers_before: Seq<u32>,
    pub registers_after: Seq<u32>,
    pub instruction: Instruction,
    pub memory_reads: Seq<(u32, u32)>,
    pub memory_writes: Seq<(u32, u32, u32)>,
    pub intermediate_values: Seq<u32>,
}

impl MachineView {
    /// The values an instruction computes on its way, in the order in
    /// which a traced step records them.
    pub open spec fn intermediates(self, inst: Instruction) -> Seq<u32> {
        let a = self.reg(inst.rs1);
        let b = self.reg(inst.rs2);
        let addr = self.effective_address(inst);
        match inst.opcode {
            Opcode::Add => seq![a, b, wrap_add(a, b)],
            Opcode::Sub => seq![a, b, wrap_sub(a, b)],
            Opcode::Mul => seq![a, b, wrap_mul(a, b)],
            Opcode::Div => seq![a, b, a / b],
            Opcode::Load => seq![a, sign_extend(inst.imm), addr, self.memory.word(addr)],
            Opcode::Store => seq![a, sign_extend(inst.imm), addr, b],
            Opcode::Branch => seq![a, b, if a == b { 1u32 } else { 0u32 }],
            Opcode::Jump => Seq::empty(),
            Opcode::Nop => Seq::empty(),
        }
    }

    /// The memory reads of an instruction: for a load, the address with
    /// the word found there.
    pub open spec fn reads(self, inst: Instruction) -> Seq<(u32, u32)> {
        let addr = self.effective_address(inst);
        if inst.opcode == Opcode::Load {
            seq![(addr, self.memory.word(addr))]
        } else {
            Seq::empty()
        }
    }

    /// The memory writes of an instruction: for a store, the address with
    /// the word it held and the word it now holds.
    pub open spec fn writes(self, inst: Instruction) -> Seq<(u32, u32, u32)> {
        let addr = self.effective_address(inst);
        if inst.opcode == Opcode::Store {
            seq![(addr, self.memory.word(addr), self.reg(inst.rs2))]
        } else {
            Seq::empty()
        }
    }

    /// The record of a successful execution of `inst` from this state.
    pub open spec fn step_record(self, inst: Instruction) -> StepView
        recommends
            self.fault(inst) is None,
    {
        StepView {
            pc_before: self.pc,
            pc_after: self.after(inst).pc,
            registers_before: self.registers,
            registers_after: self.after(inst).registers,
            instruction: inst,
            memory_reads: self.reads(inst),
            memory_writes: self.writes(inst),
            intermediate_values: self.intermediates(inst),
        }
    }
}

/// Where a bounded run ends: the state reached, and the error that stopped
/// it if one did.
pub struct RunView {
    pub state: MachineView,
    pub fault: Option<VmError>,
}

impl MachineView {
    /// The instruction the program counter points at, fetched and decoded.
    pub open spec fn fetch(self) -> Result<Instruction, VmError> {
        match self.memory.read_word(self.pc) {
            Ok(word) => decode_spec(word),
            Err(e) => Err(e),
        }
    }

    /// The error, if any, with which one fetch-decode-execute cycle fails.
    pub open spec fn cycle_fault(self) -> Option<VmError> {
        match self.fetch() {
            Ok(inst) => self.fault(inst),
            Err(e) => Some(e),
        }
    }

    /// The state after one cycle; a failing fetch or decode changes
    /// nothing.
    pub open spec fn after_cycle(self) -> MachineView {
        match self.fetch() {
            Ok(inst) => self.after(inst),
            Err(_) => self,
        }
    }

    /// The record of one successful cycle.
    pub open spec fn cycle_record(self) -> StepView
        recommends
            self.cycle_fault() is None,
    {
        self.step_record(self.fetch()->Ok_0)
    }

    /// Where `steps` cycles lead: the machine runs until a cycle fails and
    /// stays as that cycle left it.
    pub open spec fn run(self, steps: nat) -> RunView
        decreases steps,
    {
        if steps == 0 {
            RunView { state: self, fault: None }
        } else {
            let earlier = self.run((steps - 1) as nat);
            if earlier.fault is Some {
                earlier
            } else {
                RunView { state: earlier.state.after_cycle(), fault: earlier.state.cycle_fault() }
            }
        }
    }

    /// The records of the first `steps` cycles of a run without failure:
    /// step `i` is the record of the cycle that starts where `i` cycles
    /// have led.
    pub open spec fn trace(self, steps: nat) -> Seq<StepView>
        recommends
            self.run(steps).fault is None,
    {
        Seq::new(steps, |i: int| self.run(i as nat).state.cycle_record())
    }
}

/// The views of a sequence of recorded steps.
pub open spec fn step_views(steps: Seq<ExecutionStep>) -> Seq<StepView> {
    steps.map_values(|step: ExecutionStep| step@)
}

/// One more cycle of a run that has not failed is one cycle from where it
/// stands.
pub proof fn lemma_run_one_more(start: MachineView, steps: nat)
    requires
        start.run(steps).fault is None,
    ensures
        start.run(steps + 1) == (RunView {
            state: start.run(steps).state.after_cycle(),
            fault: start.run(steps).state.cycle_fault(),
        }),
        start.trace(steps + 1) == start.trace(steps).push(start.run(steps).state.cycle_record()),
{
    assert(start.trace(steps + 1) =~= start.trace(steps).push(
        start.run(steps).state.cycle_record(),
    ));
}

/// A run that has failed stays where it failed however many more cycles
/// it is given.
pub proof fn lemma_run_stays_failed(start: MachineView, failed_at: nat, steps: nat)
    requires
        failed_at <= steps,
        start.run(failed_at).fault is Some,
    ensures
        start.run(steps) == start.run(failed_at),
    decreases steps,
{
    if steps > failed_at {
        lemma_run_stays_failed(start, failed_at, (steps - 1) as nat);
    }
}

/// A run without failure has not failed at any earlier point, and each of
/// its cycles succeeds.
pub proof fn lemma_run_prefix_succeeds(start: MachineView, steps: nat, i: nat)
    requires
        start.run(steps).fault is None,
        i < steps,
    ensures
        start.run(i).fault is None,
        start.run(i).state.cycle_fault() is None,
        start.run(i + 1) == (RunView {
            state: start.run(i).state.after_cycle(),
            fault: None,
        }),
    decreases steps,
{
    if start.run(i).fault is Some {
        lemma_run_stays_failed(start, i, steps);
    }
    if start.run(i + 1).fault is Some {
        lemma_run_stays_failed(start, i + 1, steps);
    }
}

/// What one traced instruction did: the program counter and registers
/// before and after, the instruction, its memory traffic, and the values
/// it computed on the way.
#[derive(Debug)]
pub struct ExecutionStep {
    pub pc_before: u32,
    pub pc_after: u32,
    pub registers_before: [u32; 32],
    pub registers_after: [u32; 32],
    pub instruction: Instruction,
    /// Address and value of each word read.
    pub memory_reads: Vec<(u32, u32)>,
    /// Address, old value and new value of each word written.
    pub memory_writes: Vec<(u32, u32, u32)>,
    pub intermediate_values: Vec<u32>,
}

impl View for ExecutionStep {
    type V = StepView;

    open spec fn view(&self) -> StepView {
        StepView {
            pc_before: self.pc_before,
            pc_after: self.pc_after,
            registers_before: self.registers_before@,
            registers_after: self.registers_after@,
            instruction: self.instruction,
            memory_reads: self.memory_reads@,
            memory_writes: self.memory_writes@,
            intermediate_values: self.intermediate_values@,
        }
    }
}

impl Clone for ExecutionStep {
    fn clone(&self) -> (copy: Self)
        ensures
            copy@ == self@,
    {
        ExecutionStep {
            pc_before: self.pc_before,
            pc_after: self.pc_after,
            registers_before: self.registers_before,
            registers_after: self.registers_after,
            instruction: self.instruction,
            memory_reads: copy_of(&self.memory_reads),
            memory_writes: copy_of(&self.memory_writes),
            intermediate_values: copy_of(&self.intermediate_values),
        }
    }
}

/// The state of the machine: 32 registers, a program counter and memory.
#[derive(Debug)]
pub struct VmState {
    pub registers: [u32; 32],
    pub pc: u32,
    pub memory: Memory,
}

impl View for VmState {
    type V = MachineView;

    open spec fn view(&self) -> MachineView {
        MachineView { registers: self.registers@, pc: self.pc, memory: self.memory@ }
    }
}

impl Clone for VmState {
    fn clone(&self) -> (copy: Self)
        ensures
            copy@ == self@,
    {
        VmState { registers: self.registers, pc: self.pc, memory: self.memory.clone() }
    }
}

/// The executable counterpart of [`sign_extend`].
pub(crate) fn imm_word(imm: i32) -> (word: u32)
    ensures
        word == sign_extend(imm),
{
    0u32.wrapping_add_signed(imm)
}

/// The executable counterpart of [`wrap_add`].
pub(crate) fn add_wrapping(a: u32, b: u32) -> (sum: u32)
    ensures
        sum == wrap_add(a, b),
{
    a.wrapping_add(b)
}

/// The executable counterpart of [`wrap_sub`].
pub(crate) fn sub_wrapping(a: u32, b: u32) -> (difference: u32)
    ensures
        difference == wrap_sub(a, b),
{
    a.wrapping_sub(b)
}

/// The executable counterpart of [`wrap_mul`].
pub(crate) fn mul_wrapping(a: u32, b: u32) -> (product: u32)
    ensures
        product == wrap_mul(a, b),
{
    assert(a * b >= 0) by (nonlinear_arith);
    a.wrapping_mul(b)
}

impl VmState {
    /// A machine with all registers and the program counter at zero and an
    /// empty memory of `memory_size` bytes.
    pub fn new(memory_size: usize) -> (vm: Self)
        ensures
            vm@.registers == Seq::new(32, |i: int| 0u32),
            vm@.pc == 0,
            vm@.memory == (MemoryView { cells: Map::empty(), size: memory_size as nat }),
    {
        let vm = Self { registers: [0;32], pc: 0, memory: Memory::new(memory_size) };
        assert(vm@.registers =~= Seq::new(32, |i: int| 0u32));
        vm
    }

    /// Executes one instruction, whose register indices must name
    /// registers (see [`Instruction::well_formed`]).
    ///
    /// On success the machine is in the state the instruction leads to; on
    /// failure the error says why, and the machine is as the failing
    /// instruction left it.
    pub fn execute_instruction(&mut self, instruction: Instruction) -> (done: Result<(), VmError>)
        requires
            instruction.well_formed(),
        ensures
            final(self)@ == old(self)@.after(instruction),
            match done {
                Ok(_) => old(self)@.fault(instruction) is None,
                Err(e) => old(self)@.fault(instruction) == Some(e),
            },
    {
        let rd = instruction.rd as usize;
        let val1 = self.registers[instruction.rs1 as usize];
        let val2 = self.registers[instruction.rs2 as usize];
        match instruction.opcode {
            Opcode::Add => {
                self.registers[rd] = add_wrapping(val1, val2);
            },
            Opcode::Sub => {
                self.registers[rd] = sub_wrapping(val1, val2);
            },
            Opcode::Mul => {
                self.registers[rd] = mul_wrapping(val1, val2);
            },
            Opcode::Div => {
                if val2 == 0 {
                    return Err(VmError::DivisionByZero);
                }
                self.registers[rd] = val1 / val2;
            },
            Opcode::Load => {
                let addr = add_wrapping(val1, imm_word(instruction.imm));
                let value = self.memory.read_word(addr)?;
                self.registers[rd] = value;
            },
            Opcode::Store => {
                let addr = add_wrapping(val1, imm_word(instruction.imm));
                self.memory.write_word(addr, val2)?;
            },
            Opcode::Branch => {
                if val1 == val2 {
                    self.pc = add_wrapping(self.pc, imm_word(instruction.imm));
                    return Ok(());
                }
            },
            Opcode::Jump => {
                self.pc = add_wrapping(self.pc, imm_word(instruction.imm));
                return Ok(());
            },
            Opcode::Nop => {},
        }

        self.registers[0] = 0;
        self.pc = add_wrapping(self.pc, 4);
        Ok(())
    }

    /// Executes one instruction as [`VmState::execute_instruction`] does,
    /// under the same condition, and returns the record of what it did.
    pub fn execute_with_trace(&mut self, instruction: Instruction) -> (done: Result<
        ExecutionStep,
        VmError,
    >)
        requires
            instruction.well_formed(),
        ensures
            final(self)@ == old(self)@.after(instruction),
            match done {
                Ok(step) => old(self)@.fault(instruction) is None && step@ == old(
                    self,
                )@.step_record(instruction),
                Err(e) => old(self)@.fault(instruction) == Some(e),
            },
    {
        let pc_before = self.pc;
        let registers_before = self.registers;
        let mut memory_reads: Vec<(u32, u32)> = Vec::new();
        let mut memory_writes: Vec<(u32, u32, u32)> = Vec::new();
        let mut intermediate_values: Vec<u32> = Vec::new();
        let rd = instruction.rd as usize;

        match instruction.opcode {
            Opcode::Add => {
                let val1 = self.registers[instruction.rs1 as usize];
                let val2 = self.registers[instruction.rs2 as usize];
                intermediate_values.push(val1);
                intermediate_values.push(val2);
                let result = add_wrapping(val1, val2);
                intermediate_values.push(result);
                self.registers[rd] = result;
            },
            Opcode::Sub => {
                let val1 = self.registers[instruction.rs1 as usize];
                let val2 = self.registers[instruction.rs2 as usize];
                intermediate_values.push(val1);
                intermediate_values.push(val2);
                let result = sub_wrapping(val1, val2);
                intermediate_values.push(result);
                self.registers[rd] = result;
            },
            Opcode::Mul => {
                let val1 = self.registers[instruction.rs1 as usize];
                let val2 = self.registers[instruction.rs2 as usize];
                intermediate_values.push(val1);
                intermediate_values.push(val2);
                let result = mul_wrapping(val1, val2);
                intermediate_values.push(result);
                self.registers[rd] = result;
            },
            Opcode::Div => {
                let val1 = self.registers[instruction.rs1 as usize];
                let val2 = self.registers[instruction.rs2 as usize];
                if val2 == 0 {
                    return Err(VmError::DivisionByZero);
                }
                intermediate_values.push(val1);
                intermediate_values.push(val2);
                let result = val1 / val2;
                intermediate_values.push(result);
                self.registers[rd] = result;
            },
            Opcode::Load => {
                let base_addr = self.registers[instruction.rs1 as usize];
                let offset = imm_word(instruction.imm);
                let addr = add_wrapping(base_addr, offset);
                intermediate_values.push(base_addr);
                intermediate_values.push(offset);
                intermediate_values.push(addr);
                let value = self.memory.read_word(addr)?;
                memory_reads.push((addr, value));
                intermediate_values.push(value);
                self.registers[rd] = value;
            },
            Opcode::Store => {
                let base_addr = self.registers[instruction.rs1 as usize];
                let offset = imm_word(instruction.imm);
                let addr = add_wrapping(base_addr, offset);
                let value = self.registers[instruction.rs2 as usize];
                intermediate_values.push(base_addr);
                intermediate_values.push(offset);
                intermediate_values.push(addr);
                intermediate_values.push(value);
                let old_value = match self.memory.read_word(addr) {
                    Ok(word) => word,
                    Err(_) => 0,
                };
                self.memory.write_word(addr, value)?;
                memory_writes.push((addr, old_value, value));
            },
            Opcode::Branch => {
                let val1 = self.registers[instruction.rs1 as usize];
                let val2 = self.registers[instruction.rs2 as usize];
                intermediate_values.push(val1);
                intermediate_values.push(val2);
                let is_equal = val1 == val2;
                intermediate_values.push(if is_equal { 1 } else { 0 });
                if is_equal {
                    self.pc = add_wrapping(self.pc, imm_word(instruction.imm));
                    let step = ExecutionStep {
                        pc_before,
                        pc_after: self.pc,
                        registers_before,
                        registers_after: self.registers,
                        instruction,
                        memory_reads,
                        memory_writes,
                        intermediate_values,
                    };
                    assert(step@.intermediate_values =~= old(self)@.intermediates(instruction));
                    assert(step@.memory_reads =~= old(self)@.reads(instruction));
                    assert(step@.memory_writes =~= old(self)@.writes(instruction));
                    return Ok(step);
                }
            },
            Opcode::Jump => {
                self.pc = add_wrapping(self.pc, imm_word(instruction.imm));
                let step = ExecutionStep {
                    pc_before,
                    pc_after: self.pc,
                    registers_before,
                    registers_after: self.registers,
                    instruction,
                    memory_reads,
                    memory_writes,
                    intermediate_values,
                };
                assert(step@.intermediate_values =~= old(self)@.intermediates(instruction));
                assert(step@.memory_reads =~= old(self)@.reads(instruction));
                assert(step@.memory_writes =~= old(self)@.writes(instruction));
                return Ok(step);
            },
            Opcode::Nop => {},
        }

        self.registers[0] = 0;
        self.pc = add_wrapping(self.pc, 4);

        let step = ExecutionStep {
            pc_before,
            pc_after: self.pc,
            registers_before,
            registers_after: self.registers,
            instruction,
            memory_reads,
            memory_writes,
            intermediate_values,
        };
        assert(step@.intermediate_values =~= old(self)@.intermediates(instruction));
        assert(step@.memory_reads =~= old(self)@.reads(instruction));
        assert(step@.memory_writes =~= old(self)@.writes(instruction));
        Ok(step)
    }

    /// Runs up to `max_steps` fetch-decode-execute cycles and stops at the
    /// first that fails, reporting its error. There is no halting
    /// instruction: only `max_steps` bounds a run without failure.
    pub fn run(&mut self, max_steps: usize) -> (done: Result<(), VmError>)
        ensures
            final(self)@ == old(self)@.run(max_steps as nat).state,
            match done {
                Ok(_) => old(self)@.run(max_steps as nat).fault is None,
                Err(e) => old(self)@.run(max_steps as nat).fault == Some(e),
            },
    {
        let mut i: usize = 0;
        while i < max_steps
            invariant
                i <= max_steps,
                old(self)@.run(i as nat) == (RunView { state: self@, fault: None }),
            decreases max_steps - i,
        {
            proof {
                assert(old(self)@.run((i + 1) as nat) == (RunView {
                    state: self@.after_cycle(),
                    fault: self@.cycle_fault(),
                }));
                if self@.cycle_fault() is Some {
                    lemma_run_stays_failed(old(self)@, (i + 1) as nat, max_steps as nat);
                }
            }
            let instruction_word = self.memory.read_word(self.pc)?;
            let instruction = decode_instruction(instruction_word)?;
            self.execute_instruction(instruction)?;
            i += 1;
        }
        Ok(())
    }

    /// One traced fetch-decode-execute cycle.
    fn cycle_with_trace(&mut self) -> (done: Result<ExecutionStep, VmError>)
        ensures
            final(self)@ == old(self)@.after_cycle(),
            match done {
                Ok(step) => old(self)@.cycle_fault() is None && step@ == old(
                    self,
                )@.cycle_record(),
                Err(e) => old(self)@.cycle_fault() == Some(e),
            },
    {
        let instruction_word = self.memory.read_word(self.pc)?;
        let instruction = decode_instruction(instruction_word)?;
        self.execute_with_trace(instruction)
    }

    /// Runs as [`VmState::run`] does and returns the record of every
    /// cycle, in order. A run that fails returns the error alone.
    pub fn run_with_trace(&mut self, max_steps: usize) -> (done: Result<
        Vec<ExecutionStep>,
        VmError,
    >)
        ensures
            final(self)@ == old(self)@.run(max_steps as nat).state,
            match done {
                Ok(steps) => {
                    &&& old(self)@.run(max_steps as nat).fault is None
                    &&& steps@.len() == max_steps
                    &&& step_views(steps@) == old(self)@.trace(max_steps as nat)
                },
                Err(e) => old(self)@.run(max_steps as nat).fault == Some(e),
            },
    {
        let mut trace: Vec<ExecutionStep> = Vec::new();
        let mut i: usize = 0;
        while i < max_steps
            invariant
                i <= max_steps,
                old(self)@.run(i as nat) == (RunView { state: self@, fault: None }),
                trace@.len() == i,
                step_views(trace@) =~= old(self)@.trace(i as nat),
            decreases max_steps - i,
        {
            proof {
                lemma_run_one_more(old(self)@, i as nat);
                if self@.cycle_fault() is Some {
                    lemma_run_stays_failed(old(self)@, (i + 1) as nat, max_steps as nat);
                }
            }
            let step = self.cycle_with_trace()?;
            trace.push(step);
            assert(step_views(trace@) =~= old(self)@.trace((i + 1) as nat));
            i += 1;
        }
        Ok(trace)
    }
}

} // verus!
