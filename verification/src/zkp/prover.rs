//! Execution traces as the proof system sees them, and the prover that
//! turns a run of the machine into one.

use crate::utils::vectors::copy_of;
use crate::vm::execution::{ExecutionStep, MachineView, StepView, VmState};
use crate::vm::invariants::lemma_trace_chains;
use crate::vm::opcodes::{Instruction, VmError};
use vstd::prelude::*;

verus! {

/// One access to a word of memory: what the word held before and after.
/// A read leaves the word as it was.
#[derive(Debug, Clone, Copy, PartialEq, Eq, Structural)]
pub struct MemoryAccess {
    pub addr: u32,
    pub value_before: u32,
    pub value_after: u32,
    pub is_write: bool,
}

/// The access that a recorded read stands for.
pub open spec fn read_access(read: (u32, u32)) -> MemoryAccess {
    MemoryAccess { addr: read.0, value_before: read.1, value_after: read.1, is_write: false }
}

/// The access that a recorded write stands for.
pub open spec fn write_access(write: (u32, u32, u32)) -> MemoryAccess {
    MemoryAccess { addr: write.0, value_before: write.1, value_after: write.2, is_write: true }
}

/// The mathematical content of a [`TraceStep`].
pub struct TraceStepView {
    pub step_index: nat,
    pub pc_before: u32,
    pub pc_after: u32,
    pub registers_before: Seq<u32>,
    pub registers_after: Seq<u32>,
    pub instruction: Instruction,
    pub memory_accesses: Seq<MemoryAccess>,
    pub intermediate_values: Seq<u32>,
}

impl TraceStepView {
    /// The trace step for the recorded step `step`, the `index`-th of its
    /// run: the reads come before the writes among its accesses.
    pub open spec fn of(step: StepView, index: nat) -> TraceStepView {
        TraceStepView {
            step_index: index,
            pc_before: step.pc_before,
            pc_after: step.pc_after,
            registers_before: step.registers_before,
            registers_after: step.registers_after,
            instruction: step.instruction,
            memory_accesses: step.memory_reads.map_values(|r: (u32, u32)| read_access(r))
                + step.memory_writes.map_values(|w: (u32, u32, u32)| write_access(w)),
            intermediate_values: step.intermediate_values,
        }
    }
}

/// The mathematical content of an [`ExecutionTrace`].
pub struct TraceView {
    pub steps: Seq<TraceStepView>,
    pub initial_state: MachineView,
    pub final_state: MachineView,
}

impl TraceView {
    /// The trace of `steps` cycles of the machine from `start`.
    pub open spec fn of_run(start: MachineView, steps: nat) -> TraceView
        recommends
            start.run(steps).fault is None,
    {
        TraceView {
            steps: Seq::new(steps, |i: int| TraceStepView::of(start.trace(steps)[i], i as nat)),
            initial_state: start,
            final_state: start.run(steps).state,
        }
    }

    /// Whether each step starts with the program counter and registers
    /// with which the step before it ended.
    pub open spec fn chained(self) -> bool {
        forall|i: int|
            0 <= i && i + 1 < self.steps.len() ==> {
                &&& (#[trigger] self.steps[i]).pc_after == self.steps[i + 1].pc_before
                &&& self.steps[i].registers_after == self.steps[i + 1].registers_before
            }
    }
}

/// The trace of a run without failure is chained.
pub proof fn lemma_run_trace_chained(start: MachineView, steps: nat)
    requires
        start.run(steps).fault is None,
    ensures
        TraceView::of_run(start, steps).chained(),
{
    let trace = TraceView::of_run(start, steps);
    assert forall|i: int| 0 <= i && i + 1 < trace.steps.len() implies {
        &&& (#[trigger] trace.steps[i]).pc_after == trace.steps[i + 1].pc_before
        &&& trace.steps[i].registers_after == trace.steps[i + 1].registers_before
    } by {
        lemma_trace_chains(start, steps, i);
    }
}

/// One step of an execution trace: a recorded step with its position and
/// its memory traffic as one list of accesses.
#[derive(Debug)]
pub struct TraceStep {
    pub step_index: usize,
    pub pc_before: u32,
    pub pc_after: u32,
    pub registers_before: [u32; 32],
    pub registers_after: [u32; 32],
    pub instruction: Instruction,
    pub memory_accesses: Vec<MemoryAccess>,
    pub intermediate_values: Vec<u32>,
}

impl View for TraceStep {
    type V = TraceStepView;

    open spec fn view(&self) -> TraceStepView {
        TraceStepView {
            step_index: self.step_index as nat,
            pc_before: self.pc_before,
            pc_after: self.pc_after,
            registers_before: self.registers_before@,
            registers_after: self.registers_after@,
            instruction: self.instruction,
            memory_accesses: self.memory_accesses@,
            intermediate_values: self.intermediate_values@,
        }
    }
}

impl Clone for TraceStep {
    fn clone(&self) -> (copy: Self)
        ensures
            copy@ == self@,
    {
        TraceStep {
            step_index: self.step_index,
            pc_before: self.pc_before,
            pc_after: self.pc_after,
            registers_before: self.registers_before,
            registers_after: self.registers_after,
            instruction: self.instruction,
            memory_accesses: copy_of(&self.memory_accesses),
            intermediate_values: copy_of(&self.intermediate_values),
        }
    }
}

/// The views of a sequence of trace steps.
pub open spec fn trace_step_views(steps: Seq<TraceStep>) -> Seq<TraceStepView> {
    steps.map_values(|step: TraceStep| step@)
}

/// An execution trace: the steps of a run in order, with the machine as
/// it was before the first and after the last.
#[derive(Debug)]
pub struct ExecutionTrace {
    pub steps: Vec<TraceStep>,
    pub initial_state: VmState,
    pub final_state: VmState,
}

impl View for ExecutionTrace {
    type V = TraceView;

    open spec fn view(&self) -> TraceView {
        TraceView {
            steps: trace_step_views(self.steps@),
            initial_state: self.initial_state@,
            final_state: self.final_state@,
        }
    }
}

impl Clone for ExecutionTrace {
    fn clone(&self) -> (copy: Self)
        ensures
            copy@ == self@,
    {
        let mut steps: Vec<TraceStep> = Vec::new();
        let mut i: usize = 0;
        while i < self.steps.len()
            invariant
                i <= self.steps@.len(),
                trace_step_views(steps@) =~= trace_step_views(self.steps@).take(i as int),
            decreases self.steps@.len() - i,
        {
            let step = self.steps[i].clone();
            let ghost copied = step@;
            let ghost before = steps@;
            steps.push(step);
            assert(trace_step_views(steps@) =~= trace_step_views(before).push(copied));
            i += 1;
        }
        assert(trace_step_views(self.steps@).take(i as int) =~= trace_step_views(self.steps@));
        ExecutionTrace {
            steps,
            initial_state: self.initial_state.clone(),
            final_state: self.final_state.clone(),
        }
    }
}

/// The mathematical content of a [`WitnessData`].
pub struct WitnessDataView {
    pub trace: TraceView,
    pub public_inputs: Seq<u32>,
    pub private_inputs: Seq<u32>,
}

/// A trace together with the inputs of its run, public and private.
#[derive(Debug)]
pub struct WitnessData {
    pub trace: ExecutionTrace,
    pub public_inputs: Vec<u32>,
    pub private_inputs: Vec<u32>,
}

impl View for WitnessData {
    type V = WitnessDataView;

    open spec fn view(&self) -> WitnessDataView {
        WitnessDataView {
            trace: self.trace@,
            public_inputs: self.public_inputs@,
            private_inputs: self.private_inputs@,
        }
    }
}

impl Clone for WitnessData {
    fn clone(&self) -> (copy: Self)
        ensures
            copy@ == self@,
    {
        WitnessData {
            trace: self.trace.clone(),
            public_inputs: copy_of(&self.public_inputs),
            private_inputs: copy_of(&self.private_inputs),
        }
    }
}

/// The mathematical content of a [`Proof`].
pub struct ProofView {
    pub trace_commitment: Seq<u8>,
    pub witness: Seq<u8>,
}

/// A proof as it travels: the commitment to the trace, and the rest in
/// its binary frame.
#[derive(Debug)]
pub struct Proof {
    pub trace_commitment: Vec<u8>,
    pub witness: Vec<u8>,
}

impl View for Proof {
    type V = ProofView;

    open spec fn view(&self) -> ProofView {
        ProofView { trace_commitment: self.trace_commitment@, witness: self.witness@ }
    }
}

impl Clone for Proof {
    fn clone(&self) -> (copy: Self)
        ensures
            copy@ == self@,
    {
        Proof {
            trace_commitment: copy_of(&self.trace_commitment),
            witness: copy_of(&self.witness),
        }
    }
}

/// The view of what a proof system returns.
pub open spec fn proof_outcome<E>(outcome: Result<Proof, E>) -> Result<ProofView, E> {
    match outcome {
        Ok(proof) => Ok(proof@),
        Err(e) => Err(e),
    }
}

/// A proof system: something that turns an execution trace into a proof.
pub trait ProofSystem {
    type Error: std::fmt::Debug;

    /// The traces this system can be asked to prove.
    spec fn can_prove(&self, trace: TraceView) -> bool;

    /// Whether `outcome` is an answer this system may give for `trace`.
    spec fn may_answer(&self, trace: TraceView, outcome: Result<ProofView, Self::Error>) -> bool;

    /// Proves `trace`, which must be one that this system can prove.
    fn generate_proof(&self, trace: &ExecutionTrace) -> (outcome: Result<Proof, Self::Error>)
        requires
            self.can_prove(trace@),
        ensures
            self.may_answer(trace@, proof_outcome(outcome)),
    ;
}

/// A prover: runs the machine to get a trace, and hands traces to its
/// proof system.
pub struct Prover<P: ProofSystem> {
    proof_system: P,
}

/// Turns a recorded step into a trace step with position `index`.
fn trace_step_from(exec_step: &ExecutionStep, index: usize) -> (step: TraceStep)
    ensures
        step@ == TraceStepView::of(exec_step@, index as nat),
{
    let mut memory_accesses: Vec<MemoryAccess> = Vec::new();
    let ghost reads = exec_step@.memory_reads.map_values(|r: (u32, u32)| read_access(r));
    let ghost writes = exec_step@.memory_writes.map_values(|w: (u32, u32, u32)| write_access(w));

    let mut i: usize = 0;
    while i < exec_step.memory_reads.len()
        invariant
            i <= exec_step.memory_reads@.len(),
            reads == exec_step@.memory_reads.map_values(|r: (u32, u32)| read_access(r)),
            memory_accesses@ =~= reads.take(i as int),
        decreases exec_step.memory_reads@.len() - i,
    {
        let (addr, value) = exec_step.memory_reads[i];
        memory_accesses.push(
            MemoryAccess { addr, value_before: value, value_after: value, is_write: false },
        );
        i += 1;
    }
    assert(reads.take(i as int) =~= reads);

    let mut j: usize = 0;
    while j < exec_step.memory_writes.len()
        invariant
            j <= exec_step.memory_writes@.len(),
            writes == exec_step@.memory_writes.map_values(|w: (u32, u32, u32)| write_access(w)),
            memory_accesses@ =~= reads + writes.take(j as int),
        decreases exec_step.memory_writes@.len() - j,
    {
        let (addr, old_value, new_value) = exec_step.memory_writes[j];
        memory_accesses.push(
            MemoryAccess {
                addr,
                value_before: old_value,
                value_after: new_value,
                is_write: true,
            },
        );
        j += 1;
    }
    assert(writes.take(j as int) =~= writes);

    TraceStep {
        step_index: index,
        pc_before: exec_step.pc_before,
        pc_after: exec_step.pc_after,
        registers_before: exec_step.registers_before,
        registers_after: exec_step.registers_after,
        instruction: exec_step.instruction,
        memory_accesses,
        intermediate_values: copy_of(&exec_step.intermediate_values),
    }
}

impl<P: ProofSystem> Prover<P> {
    /// A prover over `proof_system`.
    pub fn new(proof_system: P) -> (prover: Self)
        ensures
            prover.system() == proof_system,
    {
        Self { proof_system }
    }

    /// The proof system of this prover.
    pub closed spec fn system(&self) -> P {
        self.proof_system
    }

    /// Runs the machine for `max_steps` cycles and returns the trace of
    /// the run. The trace is chained: each step starts where the one
    /// before it ended. A run that fails returns its error and leaves the
    /// machine where it failed.
    pub fn generate_execution_trace(&self, vm_state: &mut VmState, max_steps: usize) -> (done:
        Result<ExecutionTrace, VmError>)
        ensures
            final(vm_state)@ == old(vm_state)@.run(max_steps as nat).state,
            match done {
                Ok(trace) => {
                    &&& old(vm_state)@.run(max_steps as nat).fault is None
                    &&& trace@ == TraceView::of_run(old(vm_state)@, max_steps as nat)
                    &&& trace@.steps.len() == max_steps
                    &&& trace@.chained()
                },
                Err(e) => old(vm_state)@.run(max_steps as nat).fault == Some(e),
            },
    {
        let initial_state = vm_state.clone();
        let execution_steps = vm_state.run_with_trace(max_steps)?;
        let final_state = vm_state.clone();
        let mut trace_steps: Vec<TraceStep> = Vec::new();
        let mut index: usize = 0;
        while index < execution_steps.len()
            invariant
                index <= execution_steps@.len(),
                trace_step_views(trace_steps@) =~= Seq::new(
                    index as nat,
                    |i: int| TraceStepView::of(execution_steps@[i]@, i as nat),
                ),
            decreases execution_steps@.len() - index,
        {
            let step = trace_step_from(&execution_steps[index], index);
            let ghost converted = step@;
            let ghost before = trace_steps@;
            trace_steps.push(step);
            assert(trace_step_views(trace_steps@) =~= trace_step_views(before).push(converted));
            index += 1;
        }
        proof {
            let expected = TraceView::of_run(old(vm_state)@, max_steps as nat);
            let records = crate::vm::execution::step_views(execution_steps@);
            assert(expected.steps.len() == max_steps);
            assert forall|i: int| 0 <= i < max_steps implies trace_step_views(trace_steps@)[i]
                == expected.steps[i] by {
                assert(records[i] == execution_steps@[i]@);
            }
            assert(trace_step_views(trace_steps@) =~= expected.steps);
            lemma_run_trace_chained(old(vm_state)@, max_steps as nat);
        }

        Ok(ExecutionTrace { steps: trace_steps, initial_state, final_state })
    }

    /// Packs a trace with the inputs of its run.
    pub fn generate_witness(
        &self,
        trace: &ExecutionTrace,
        public_inputs: Vec<u32>,
        private_inputs: Vec<u32>,
    ) -> (data: WitnessData)
        ensures
            data@ == (WitnessDataView {
                trace: trace@,
                public_inputs: public_inputs@,
                private_inputs: private_inputs@,
            }),
    {
        WitnessData { trace: trace.clone(), public_inputs, private_inputs }
    }

    /// Proves `trace`, which must be one that the proof system of this
    /// prover can prove, and returns what that system answers.
    pub fn prove_execution(&self, trace: &ExecutionTrace) -> (outcome: Result<Proof, P::Error>)
        requires
            self.system().can_prove(trace@),
        ensures
            self.system().may_answer(trace@, proof_outcome(outcome)),
    {
        self.proof_system.generate_proof(trace)
    }
}

} // verus!
