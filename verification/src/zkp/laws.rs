//! What holds of prover and verifier together.

use super::frame::{parse_proof, proof_frame, ProofError};
use super::frame_laws::lemma_proof_read_back;
use super::meaning::{lemma_evaluations_meaning, step_obeys_rules};
use super::prover::{TraceStepView, TraceView};
use super::stark::{
    column_leaves, constraint_evaluations, fold_layer, layer_commitments,
    lemma_final_layer_not_empty, proof_of, stark_proof_of, trace_columns,
};
use super::verification::stark_verdict;
use crate::crypto::merkle::{all_digests, lemma_root_is_digest};
use crate::vm::execution::{lemma_run_prefix_succeeds, MachineView};
use crate::vm::invariants::{
    lemma_fetched_instruction_well_formed, lemma_zero_register_after_run,
};
use crate::vm::opcodes::Opcode;
use vstd::prelude::*;

verus! {

/// Folding commits to at most as many layers as the polynomial has
/// values, and every commitment is a digest.
pub proof fn lemma_layer_commitments_shape(polynomial: Seq<u32>)
    requires
        polynomial.len() > 0,
    ensures
        0 < layer_commitments(polynomial).len() <= polynomial.len(),
        all_digests(layer_commitments(polynomial)),
    decreases polynomial.len(),
{
    let commitments = layer_commitments(polynomial);
    lemma_root_is_digest(column_leaves(seq![polynomial]));
    if polynomial.len() > 4 {
        let folded = fold_layer(polynomial);
        lemma_layer_commitments_shape(folded);
        assert forall|i: int| 0 <= i < commitments.len() implies (#[trigger] commitments[i]).len()
            == 32 by {
            if i > 0 {
                assert(commitments[i] == layer_commitments(folded)[i - 1]);
            }
        }
    }
}

/// The proof of a trace with a step, read back from its frame, is the
/// proof, as long as the machine can hold its constraint evaluations.
pub proof fn lemma_proof_of_trace_reads_back(trace: TraceView)
    requires
        trace.steps.len() > 0,
        constraint_evaluations(trace.steps).len() <= usize::MAX,
    ensures
        parse_proof(proof_of(trace).witness) == Some(stark_proof_of(trace)),
        stark_proof_of(trace).fri_present(),
{
    let proof = stark_proof_of(trace);
    let evaluations = constraint_evaluations(trace.steps);
    lemma_root_is_digest(column_leaves(trace_columns(trace.steps)));
    lemma_layer_commitments_shape(evaluations);
    lemma_final_layer_not_empty(evaluations);
    let query = proof.fri_proof.query_proofs[0];
    assert(query.well_formed());
    assert(proof.well_formed());
    lemma_proof_read_back(proof, Seq::empty());
    assert(proof_frame(proof) + Seq::<u8>::empty() =~= proof_frame(proof));
}

/// The verifier accepts the proof of a trace exactly where the commitment
/// to the trace is not zero and every constraint of the trace holds under
/// the witness of the trace.
pub proof fn lemma_verdict_on_proof_of_trace(trace: TraceView)
    requires
        trace.steps.len() > 0,
        constraint_evaluations(trace.steps).len() <= usize::MAX,
    ensures
        stark_verdict(proof_of(trace).witness) == Ok::<bool, ProofError>(
            stark_proof_of(trace).commitment_present() && forall|i: int|
                0 <= i < constraint_evaluations(trace.steps).len() ==> constraint_evaluations(
                    trace.steps,
                )[i] == 0,
        ),
{
    lemma_proof_of_trace_reads_back(trace);
}

/// The verifier accepts the proof of a trace exactly where the commitment
/// to the trace is not zero and every step of the trace obeys the rules
/// that its constraints stand for.
pub proof fn lemma_acceptance_means_rules(trace: TraceView)
    requires
        trace.steps.len() > 0,
        constraint_evaluations(trace.steps).len() <= usize::MAX,
        forall|k: int|
            0 <= k < trace.steps.len() ==> (#[trigger] trace.steps[k]).instruction.well_formed(),
    ensures
        stark_verdict(proof_of(trace).witness) == Ok::<bool, ProofError>(
            stark_proof_of(trace).commitment_present() && forall|k: int|
                0 <= k < trace.steps.len() ==> step_obeys_rules(#[trigger] trace.steps[k]),
        ),
{
    lemma_verdict_on_proof_of_trace(trace);
    lemma_evaluations_meaning(trace.steps);
}

/// Whether an instruction is an addition, subtraction or multiplication
/// into register 0.
pub open spec fn computes_into_register_zero(step: TraceStepView) -> bool {
    let opcode = step.instruction.opcode;
    (opcode == Opcode::Add || opcode == Opcode::Sub || opcode == Opcode::Mul)
        && step.instruction.rd == 0
}

/// A step of the trace of a run that starts with zero in register 0 obeys
/// the rules, unless it computes into register 0: there the machine keeps
/// zero, whatever the result.
pub proof fn lemma_run_step_obeys_rules(start: MachineView, steps: nat, index: int)
    requires
        start.registers.len() == 32,
        start.registers[0] == 0,
        start.run(steps).fault is None,
        0 <= index < steps,
        !computes_into_register_zero(TraceView::of_run(start, steps).steps[index]),
    ensures
        TraceView::of_run(start, steps).steps[index].instruction.well_formed(),
        step_obeys_rules(TraceView::of_run(start, steps).steps[index]),
{
    let at = start.run(index as nat).state;
    lemma_run_prefix_succeeds(start, steps, index as nat);
    lemma_zero_register_after_run(start, index as nat);
    lemma_zero_register_after_run(start, (index + 1) as nat);
    lemma_fetched_instruction_well_formed(at);
}

/// The proof of a run that starts with zero in register 0 and never
/// computes into register 0 is accepted, as long as the commitment to its
/// trace is not zero.
pub proof fn lemma_proof_of_run_accepted(start: MachineView, steps: nat)
    requires
        start.registers.len() == 32,
        start.registers[0] == 0,
        steps > 0,
        start.run(steps).fault is None,
        constraint_evaluations(TraceView::of_run(start, steps).steps).len() <= usize::MAX,
        forall|k: int|
            0 <= k < steps ==> !computes_into_register_zero(
                #[trigger] TraceView::of_run(start, steps).steps[k],
            ),
    ensures
        stark_verdict(proof_of(TraceView::of_run(start, steps)).witness) == Ok::<
            bool,
            ProofError,
        >(stark_proof_of(TraceView::of_run(start, steps)).commitment_present()),
{
    let trace = TraceView::of_run(start, steps);
    assert forall|k: int| 0 <= k < trace.steps.len() implies (
    #[trigger] trace.steps[k]).instruction.well_formed() && step_obeys_rules(trace.steps[k]) by {
        lemma_run_step_obeys_rules(start, steps, k);
    }
    lemma_acceptance_means_rules(trace);
}

} // verus!
