//! The STARK-shaped proof: its parts, and the prover that assembles them
//! from an execution trace.

use super::constraints::{trace_constraints, ConstraintSystem, ConstraintView};
use super::frame::{proof_frame, serialize_proof, ProofError};
use super::names::{
    pc_after_name, pc_after_var, pc_before_name, pc_before_var, reg_after_name, reg_after_var,
    reg_before_name, reg_before_var,
};
use super::prover::{ExecutionTrace, Proof, ProofSystem, ProofView, TraceStepView, TraceView};
use super::witness::Witness;
use crate::crypto::hash::HashValue;
use crate::crypto::merkle::{
    all_digests, digest_views, slice_views, MerkleTree, MerkleTreeView,
};
use crate::utils::vectors::copy_of;
use crate::vm::memory::bytes_of_word;
use vstd::prelude::*;
use vstd::slice::slice_subrange;

verus! {

/// The mathematical content of a [`QueryProof`].
pub struct QueryProofView {
    pub index: nat,
    pub value: u32,
    pub merkle_path: Seq<Seq<u8>>,
}

/// The mathematical content of a [`FriProof`].
pub struct FriProofView {
    pub commitments: Seq<Seq<u8>>,
    pub final_polynomial: Seq<u32>,
    pub query_proofs: Seq<QueryProofView>,
}

/// The mathematical content of a [`StarkProof`].
pub struct StarkProofView {
    pub trace_commitment: Seq<u8>,
    pub constraint_evaluations: Seq<u32>,
    pub merkle_proof: Seq<Seq<u8>>,
    pub fri_proof: FriProofView,
}

impl QueryProofView {
    /// Whether this is the content of some [`QueryProof`].
    pub open spec fn well_formed(self) -> bool {
        &&& self.index <= usize::MAX
        &&& self.merkle_path.len() <= usize::MAX
        &&& all_digests(self.merkle_path)
    }
}

impl FriProofView {
    /// Whether this is the content of some [`FriProof`].
    pub open spec fn well_formed(self) -> bool {
        &&& self.commitments.len() <= usize::MAX
        &&& all_digests(self.commitments)
        &&& self.final_polynomial.len() <= usize::MAX
        &&& self.query_proofs.len() <= usize::MAX
        &&& forall|i: int|
            0 <= i < self.query_proofs.len() ==> (#[trigger] self.query_proofs[i]).well_formed()
    }
}

impl StarkProofView {
    /// Whether this is the content of some [`StarkProof`].
    pub open spec fn well_formed(self) -> bool {
        &&& self.trace_commitment.len() == 32
        &&& self.constraint_evaluations.len() <= usize::MAX
        &&& self.merkle_proof.len() <= usize::MAX
        &&& all_digests(self.merkle_proof)
        &&& self.fri_proof.well_formed()
    }
}

/// The opening of one query: the index asked for, the value there, and
/// the path that proves it.
#[derive(Debug)]
pub struct QueryProof {
    pub index: usize,
    pub value: u32,
    pub merkle_path: Vec<HashValue>,
}

impl View for QueryProof {
    type V = QueryProofView;

    open spec fn view(&self) -> QueryProofView {
        QueryProofView {
            index: self.index as nat,
            value: self.value,
            merkle_path: digest_views(self.merkle_path@),
        }
    }
}

impl Clone for QueryProof {
    fn clone(&self) -> (copy: Self)
        ensures
            copy@ == self@,
    {
        QueryProof {
            index: self.index,
            value: self.value,
            merkle_path: copy_of(&self.merkle_path),
        }
    }
}

/// The views of a sequence of query proofs.
pub open spec fn query_views(queries: Seq<QueryProof>) -> Seq<QueryProofView> {
    queries.map_values(|q: QueryProof| q@)
}

/// The low-degree part of a proof: the commitment to every layer, the
/// last layer itself, and the opened queries.
#[derive(Debug)]
pub struct FriProof {
    pub commitments: Vec<HashValue>,
    pub final_polynomial: Vec<u32>,
    pub query_proofs: Vec<QueryProof>,
}

impl View for FriProof {
    type V = FriProofView;

    open spec fn view(&self) -> FriProofView {
        FriProofView {
            commitments: digest_views(self.commitments@),
            final_polynomial: self.final_polynomial@,
            query_proofs: query_views(self.query_proofs@),
        }
    }
}

impl Clone for FriProof {
    fn clone(&self) -> (copy: Self)
        ensures
            copy@ == self@,
    {
        let mut query_proofs: Vec<QueryProof> = Vec::new();
        let mut i: usize = 0;
        while i < self.query_proofs.len()
            invariant
                i <= self.query_proofs@.len(),
                query_views(query_proofs@) =~= query_views(self.query_proofs@).take(i as int),
            decreases self.query_proofs@.len() - i,
        {
            let query = self.query_proofs[i].clone();
            let ghost before = query_proofs@;
            let ghost copied = query@;
            query_proofs.push(query);
            assert(query_views(query_proofs@) =~= query_views(before).push(copied));
            i += 1;
        }
        assert(query_views(self.query_proofs@).take(i as int) =~= query_views(self.query_proofs@));
        FriProof {
            commitments: copy_of(&self.commitments),
            final_polynomial: copy_of(&self.final_polynomial),
            query_proofs,
        }
    }
}

/// A proof in full: the commitment to the trace, the evaluation of every
/// constraint, a Merkle proof, and the low-degree part.
#[derive(Debug)]
pub struct StarkProof {
    pub trace_commitment: HashValue,
    pub constraint_evaluations: Vec<u32>,
    pub merkle_proof: Vec<HashValue>,
    pub fri_proof: FriProof,
}

impl View for StarkProof {
    type V = StarkProofView;

    open spec fn view(&self) -> StarkProofView {
        StarkProofView {
            trace_commitment: self.trace_commitment@,
            constraint_evaluations: self.constraint_evaluations@,
            merkle_proof: digest_views(self.merkle_proof@),
            fri_proof: self.fri_proof@,
        }
    }
}

impl Clone for StarkProof {
    fn clone(&self) -> (copy: Self)
        ensures
            copy@ == self@,
    {
        StarkProof {
            trace_commitment: self.trace_commitment,
            constraint_evaluations: copy_of(&self.constraint_evaluations),
            merkle_proof: copy_of(&self.merkle_proof),
            fri_proof: self.fri_proof.clone(),
        }
    }
}

/// A query proof in the form that is written to the binary frame.
#[derive(Debug)]
pub struct SerializableQueryProof {
    pub index: usize,
    pub value: u32,
    pub merkle_path: Vec<[u8; 32]>,
}

impl View for SerializableQueryProof {
    type V = QueryProofView;

    open spec fn view(&self) -> QueryProofView {
        QueryProofView {
            index: self.index as nat,
            value: self.value,
            merkle_path: digest_views(self.merkle_path@),
        }
    }
}

impl Clone for SerializableQueryProof {
    fn clone(&self) -> (copy: Self)
        ensures
            copy@ == self@,
    {
        SerializableQueryProof {
            index: self.index,
            value: self.value,
            merkle_path: copy_of(&self.merkle_path),
        }
    }
}

/// The views of a sequence of query proofs in their frame form.
pub open spec fn frame_query_views(queries: Seq<SerializableQueryProof>) -> Seq<QueryProofView> {
    queries.map_values(|q: SerializableQueryProof| q@)
}

/// The low-degree part of a proof in the form that is written to the
/// binary frame.
#[derive(Debug)]
pub struct SerializableFriProof {
    pub commitments: Vec<[u8; 32]>,
    pub final_polynomial: Vec<u32>,
    pub query_proofs: Vec<SerializableQueryProof>,
}

impl View for SerializableFriProof {
    type V = FriProofView;

    open spec fn view(&self) -> FriProofView {
        FriProofView {
            commitments: digest_views(self.commitments@),
            final_polynomial: self.final_polynomial@,
            query_proofs: frame_query_views(self.query_proofs@),
        }
    }
}

impl Clone for SerializableFriProof {
    fn clone(&self) -> (copy: Self)
        ensures
            copy@ == self@,
    {
        let mut query_proofs: Vec<SerializableQueryProof> = Vec::new();
        let mut i: usize = 0;
        while i < self.query_proofs.len()
            invariant
                i <= self.query_proofs@.len(),
                frame_query_views(query_proofs@) =~= frame_query_views(self.query_proofs@).take(
                    i as int,
                ),
            decreases self.query_proofs@.len() - i,
        {
            let query = self.query_proofs[i].clone();
            let ghost before = query_proofs@;
            let ghost copied = query@;
            query_proofs.push(query);
            assert(frame_query_views(query_proofs@) =~= frame_query_views(before).push(copied));
            i += 1;
        }
        assert(frame_query_views(self.query_proofs@).take(i as int) =~= frame_query_views(
            self.query_proofs@,
        ));
        SerializableFriProof {
            commitments: copy_of(&self.commitments),
            final_polynomial: copy_of(&self.final_polynomial),
            query_proofs,
        }
    }
}

/// A proof in the form that is written to the binary frame.
#[derive(Debug)]
pub struct SerializableStarkProof {
    pub trace_commitment: [u8; 32],
    pub constraint_evaluations: Vec<u32>,
    pub merkle_proof: Vec<[u8; 32]>,
    pub fri_proof: SerializableFriProof,
}

impl View for SerializableStarkProof {
    type V = StarkProofView;

    open spec fn view(&self) -> StarkProofView {
        StarkProofView {
            trace_commitment: self.trace_commitment@,
            constraint_evaluations: self.constraint_evaluations@,
            merkle_proof: digest_views(self.merkle_proof@),
            fri_proof: self.fri_proof@,
        }
    }
}

impl Clone for SerializableStarkProof {
    fn clone(&self) -> (copy: Self)
        ensures
            copy@ == self@,
    {
        SerializableStarkProof {
            trace_commitment: self.trace_commitment,
            constraint_evaluations: copy_of(&self.constraint_evaluations),
            merkle_proof: copy_of(&self.merkle_proof),
            fri_proof: self.fri_proof.clone(),
        }
    }
}

/// The views of digests are digests.
pub proof fn lemma_digest_views_are_digests(digests: Seq<HashValue>)
    ensures
        all_digests(digest_views(digests)),
        digest_views(digests).len() == digests.len(),
{
    assert forall|i: int| 0 <= i < digests.len() implies (#[trigger] digest_views(
        digests,
    )[i]).len() == 32 by {
        assert(digest_views(digests)[i] == digests[i]@);
    }
}

/// The content of a proof in its frame form is well formed.
pub proof fn lemma_frame_form_well_formed(proof: &SerializableStarkProof)
    ensures
        proof@.well_formed(),
{
    let fri = proof.fri_proof@;
    lemma_digest_views_are_digests(proof.merkle_proof@);
    lemma_digest_views_are_digests(proof.fri_proof.commitments@);
    assert(proof.constraint_evaluations.len() <= usize::MAX);
    assert(proof.merkle_proof.len() <= usize::MAX);
    assert(proof.fri_proof.commitments.len() <= usize::MAX);
    assert(proof.fri_proof.final_polynomial.len() <= usize::MAX);
    assert(proof.fri_proof.query_proofs.len() <= usize::MAX);
    assert forall|i: int| 0 <= i < fri.query_proofs.len() implies (
    #[trigger] fri.query_proofs[i]).well_formed() by {
        let q = proof.fri_proof.query_proofs@[i];
        assert(fri.query_proofs[i] == q@);
        lemma_digest_views_are_digests(q.merkle_path@);
        assert(q.merkle_path.len() <= usize::MAX);
    }
}

/// The columns of a trace: the program counter before each step, then
/// each of the 32 registers before each step.
pub open spec fn trace_columns(steps: Seq<TraceStepView>) -> Seq<Seq<u32>> {
    Seq::new(
        33,
        |column: int|
            Seq::new(
                steps.len(),
                |step: int|
                    if column == 0 {
                        steps[step].pc_before
                    } else {
                        steps[step].registers_before[column - 1]
                    },
            ),
    )
}

/// The values of some columns, column after column.
pub open spec fn all_values(columns: Seq<Seq<u32>>) -> Seq<u32>
    decreases columns.len(),
{
    if columns.len() == 0 {
        Seq::empty()
    } else {
        all_values(columns.drop_last()) + columns.last()
    }
}

/// The leaves that commit to some columns: the four little-endian bytes
/// of every value, column after column.
pub open spec fn column_leaves(columns: Seq<Seq<u32>>) -> Seq<Seq<u8>> {
    all_values(columns).map_values(|value: u32| bytes_of_word(value))
}

/// The tree that commits to some columns.
pub open spec fn column_tree(columns: Seq<Seq<u32>>) -> MerkleTreeView {
    MerkleTreeView::of(column_leaves(columns))
}

/// The witness of a step at position `index`, over the first `count`
/// registers, added to `base`.
pub open spec fn register_cells(
    base: Map<Seq<char>, u32>,
    step: TraceStepView,
    index: nat,
    count: nat,
) -> Map<Seq<char>, u32>
    decreases count,
{
    if count == 0 {
        base
    } else {
        let reg = (count - 1) as nat;
        register_cells(base, step, index, reg).insert(
            reg_before_name(reg, index),
            step.registers_before[reg as int],
        ).insert(reg_after_name(reg, index), step.registers_after[reg as int])
    }
}

/// The witness of a step at position `index`, added to `base`: the
/// program counter and every register, before and after.
pub open spec fn step_cells(base: Map<Seq<char>, u32>, step: TraceStepView, index: nat) -> Map<
    Seq<char>,
    u32,
> {
    register_cells(
        base.insert(pc_before_name(index), step.pc_before).insert(
            pc_after_name(index),
            step.pc_after,
        ),
        step,
        index,
        32,
    )
}

/// The witness of a trace: the cells of every step.
pub open spec fn trace_witness(steps: Seq<TraceStepView>) -> Map<Seq<char>, u32>
    decreases steps.len(),
{
    if steps.len() == 0 {
        Map::empty()
    } else {
        step_cells(trace_witness(steps.drop_last()), steps.last(), (steps.len() - 1) as nat)
    }
}

/// The evaluation of each of `constraints` under `witness`: 0 where it
/// holds, 1 where it does not.
pub open spec fn evaluations_under(
    constraints: Seq<ConstraintView>,
    witness: Map<Seq<char>, u32>,
) -> Seq<u32> {
    Seq::new(
        constraints.len(),
        |i: int|
            if constraints[i].holds(witness) {
                0u32
            } else {
                1u32
            },
    )
}

/// The constraint evaluations of a trace: its constraints under its own
/// witness.
pub open spec fn constraint_evaluations(steps: Seq<TraceStepView>) -> Seq<u32> {
    evaluations_under(trace_constraints(steps), trace_witness(steps))
}

/// A polynomial folded once: the averages of its adjacent pairs, rounded
/// down. An unpaired last value is dropped.
pub open spec fn fold_layer(polynomial: Seq<u32>) -> Seq<u32> {
    Seq::new(
        polynomial.len() / 2,
        |i: int| ((polynomial[2 * i] + polynomial[2 * i + 1]) / 2) as u32,
    )
}

/// The commitment to one layer: the root of the tree over its values.
pub open spec fn layer_commitment(polynomial: Seq<u32>) -> Seq<u8> {
    column_tree(seq![polynomial]).root
}

/// The commitments to a polynomial and to what folding gives for as long
/// as there are more than four values.
pub open spec fn layer_commitments(polynomial: Seq<u32>) -> Seq<Seq<u8>>
    decreases polynomial.len(),
{
    if polynomial.len() <= 4 {
        seq![layer_commitment(polynomial)]
    } else {
        seq![layer_commitment(polynomial)] + layer_commitments(fold_layer(polynomial))
    }
}

/// The polynomial that folding ends with: the first with four values or
/// fewer.
pub open spec fn final_layer(polynomial: Seq<u32>) -> Seq<u32>
    decreases polynomial.len(),
{
    if polynomial.len() <= 4 {
        polynomial
    } else {
        final_layer(fold_layer(polynomial))
    }
}

/// The low-degree part of a proof over `polynomial`: every commitment,
/// the final layer, and one query at index 0 with the first final value
/// and no path.
pub open spec fn fri_proof_of(polynomial: Seq<u32>) -> FriProofView
    recommends
        polynomial.len() > 0,
{
    FriProofView {
        commitments: layer_commitments(polynomial),
        final_polynomial: final_layer(polynomial),
        query_proofs: seq![
            QueryProofView {
                index: 0,
                value: final_layer(polynomial)[0],
                merkle_path: Seq::empty(),
            },
        ],
    }
}

/// The proof of a trace, part by part.
pub open spec fn stark_proof_of(trace: TraceView) -> StarkProofView {
    StarkProofView {
        trace_commitment: column_tree(trace_columns(trace.steps)).root,
        constraint_evaluations: constraint_evaluations(trace.steps),
        merkle_proof: Seq::empty(),
        fri_proof: fri_proof_of(constraint_evaluations(trace.steps)),
    }
}

/// The proof of a trace as it travels: the commitment, and all parts in
/// their frame.
pub open spec fn proof_of(trace: TraceView) -> ProofView {
    ProofView {
        trace_commitment: stark_proof_of(trace).trace_commitment,
        witness: proof_frame(stark_proof_of(trace)),
    }
}

/// Folding a polynomial of more than one value gives a shorter one that
/// is not empty.
pub proof fn lemma_final_layer_not_empty(polynomial: Seq<u32>)
    requires
        polynomial.len() > 0,
    ensures
        final_layer(polynomial).len() > 0,
        final_layer(polynomial).len() <= 4,
        layer_commitments(polynomial).len() > 0,
    decreases polynomial.len(),
{
    if polynomial.len() > 4 {
        lemma_final_layer_not_empty(fold_layer(polynomial));
    }
}

/// The prover: it commits to the columns of a trace, evaluates the
/// constraints, and folds the evaluations. The two parameters are kept
/// for tuning and have no influence on a proof.
#[derive(Debug)]
pub struct StarkProver {
    pub security_level: u32,
    pub expansion_factor: u32,
}

impl Default for StarkProver {
    fn default() -> (prover: Self)
        ensures
            prover.security_level == 80,
            prover.expansion_factor == 4,
    {
        Self { security_level: 80, expansion_factor: 4 }
    }
}

impl StarkProver {
    /// A prover with the given tuning parameters.
    pub fn new(security_level: u32, expansion_factor: u32) -> (prover: Self)
        ensures
            prover.security_level == security_level,
            prover.expansion_factor == expansion_factor,
    {
        Self { security_level, expansion_factor }
    }

    /// The 33 columns of `trace`: the program counter, then registers 0
    /// to 31, each with one value for every step.
    #[verifier::loop_isolation(false)]
    pub fn interpolate_trace(&self, trace: &ExecutionTrace) -> (columns: Vec<Vec<u32>>)
        ensures
            column_views(columns@) == trace_columns(trace@.steps),
    {
        let mut columns: Vec<Vec<u32>> = Vec::new();
        let mut c: usize = 0;
        while c < 33
            invariant
                c <= 33,
                columns@.len() == c,
                forall|j: int| 0 <= j < c ==> (#[trigger] columns@[j])@.len() == 0,
            decreases 33 - c,
        {
            columns.push(Vec::new());
            c += 1;
        }
        let ghost steps = trace@.steps;
        let mut s: usize = 0;
        while s < trace.steps.len()
            invariant
                s <= trace.steps@.len(),
                columns@.len() == 33,
                forall|j: int|
                    0 <= j < 33 ==> (#[trigger] columns@[j])@ =~= trace_columns(steps)[j].take(
                        s as int,
                    ),
            decreases trace.steps@.len() - s,
        {
            let step = &trace.steps[s];
            assert(steps[s as int] == step@);
            columns[0].push(step.pc_before);
            let mut i: usize = 0;
            while i < 32
                invariant
                    i <= 32,
                    columns@.len() == 33,
                    forall|j: int|
                        0 <= j <= i ==> (#[trigger] columns@[j])@ =~= trace_columns(steps)[j].take(
                            s as int + 1,
                        ),
                    forall|j: int|
                        i < j < 33 ==> (#[trigger] columns@[j])@ =~= trace_columns(steps)[j].take(
                            s as int,
                        ),
                decreases 32 - i,
            {
                columns[i + 1].push(step.registers_before[i]);
                i += 1;
            }
            s += 1;
        }
        assert(column_views(columns@) =~= trace_columns(steps)) by {
            assert forall|j: int| 0 <= j < 33 implies column_views(columns@)[j] == trace_columns(
                steps,
            )[j] by {
                assert(trace_columns(steps)[j].take(s as int) =~= trace_columns(steps)[j]);
            }
        }
        columns
    }

    /// Commits to `columns`: the root of the Merkle tree whose leaves are
    /// the values, four little-endian bytes each, column after column;
    /// and the tree itself.
    #[verifier::loop_isolation(false)]
    pub fn commit_to_columns(&self, columns: &[Vec<u32>]) -> (committed: (HashValue, MerkleTree))
        ensures
            committed.1@ == column_tree(column_views(columns@)),
            committed.0@ == column_tree(column_views(columns@)).root,
    {
        let ghost views = column_views(columns@);
        let mut all_bytes: Vec<u8> = Vec::new();
        let mut c: usize = 0;
        assert(views.take(0) =~= Seq::<Seq<u32>>::empty());
        while c < columns.len()
            invariant
                c <= columns@.len(),
                all_bytes.len() == 4 * all_values(views.take(c as int)).len(),
                forall|k: int|
                    0 <= k < all_values(views.take(c as int)).len() ==> #[trigger] all_bytes@.subrange(
                        4 * k,
                        4 * k + 4,
                    ) == bytes_of_word(all_values(views.take(c as int))[k]),
            decreases columns@.len() - c,
        {
            let col = &columns[c];
            let ghost before = all_values(views.take(c as int));
            assert(views.take(c as int + 1).drop_last() =~= views.take(c as int));
            assert(views.take(c as int + 1).last() == col@);
            let mut i: usize = 0;
            while i < col.len()
                invariant
                    i <= col@.len(),
                    all_bytes.len() == 4 * (before.len() + i),
                    forall|k: int|
                        0 <= k < before.len() + i ==> #[trigger] all_bytes@.subrange(
                            4 * k,
                            4 * k + 4,
                        ) == bytes_of_word((before + col@.take(i as int))[k]),
                decreases col@.len() - i,
            {
                let value = col[i];
                let ghost earlier = all_bytes@;
                let ghost count = before.len() + i;
                all_bytes.push((value & 0xff) as u8);
                all_bytes.push(((value >> 8) & 0xff) as u8);
                all_bytes.push(((value >> 16) & 0xff) as u8);
                all_bytes.push(((value >> 24) & 0xff) as u8);
                proof {
                    assert(value >> 0u32 == value) by (bit_vector);
                    assert(all_bytes@.subrange(4 * count, 4 * count + 4) =~= bytes_of_word(value));
                    assert forall|k: int| 0 <= k < count implies #[trigger] all_bytes@.subrange(
                        4 * k,
                        4 * k + 4,
                    ) == bytes_of_word((before + col@.take(i as int + 1))[k]) by {
                        assert(all_bytes@.subrange(4 * k, 4 * k + 4) =~= earlier.subrange(
                            4 * k,
                            4 * k + 4,
                        ));
                        assert((before + col@.take(i as int))[k] == (before + col@.take(
                            i as int + 1,
                        ))[k]);
                    }
                }
                i += 1;
            }
            assert(col@.take(i as int) =~= col@);
            c += 1;
        }
        assert(views.take(c as int) =~= views);

        let count = all_bytes.len() / 4;
        let mut data_to_commit: Vec<&[u8]> = Vec::new();
        let mut k: usize = 0;
        while k < count
            invariant
                k <= count,
                slice_views(data_to_commit@) =~= column_leaves(views).take(k as int),
            decreases count - k,
        {
            let chunk = slice_subrange(all_bytes.as_slice(), 4 * k, 4 * k + 4);
            let ghost before = data_to_commit@;
            data_to_commit.push(chunk);
            assert(slice_views(data_to_commit@) =~= slice_views(before).push(chunk@));
            k += 1;
        }
        assert(column_leaves(views).take(k as int) =~= column_leaves(views));

        let tree = MerkleTree::new(data_to_commit);
        let root = *tree.root();
        (root, tree)
    }
}

/// The views of a sequence of columns.
pub open spec fn column_views(columns: Seq<Vec<u32>>) -> Seq<Seq<u32>> {
    columns.map_values(|column: Vec<u32>| column@)
}

impl StarkProver {
    /// Evaluates the constraints of `trace` under the witness that the
    /// trace itself gives: one value for each constraint, 0 where it
    /// holds and 1 where it does not.
    #[verifier::loop_isolation(false)]
    pub fn evaluate_constraints(&self, trace: &ExecutionTrace) -> (evaluations: Vec<u32>)
        ensures
            evaluations@ == constraint_evaluations(trace@.steps),
    {
        let mut constraint_system = ConstraintSystem::new();
        constraint_system.generate_constraints_for_trace(trace);
        let ghost steps = trace@.steps;
        let ghost constraints = trace_constraints(steps);
        assert(constraint_system@.constraints =~= constraints);

        let mut witness = Witness::new();
        let mut step_idx: usize = 0;
        assert(steps.take(0) =~= Seq::<TraceStepView>::empty());
        while step_idx < trace.steps.len()
            invariant
                step_idx <= trace.steps@.len(),
                witness@ == trace_witness(steps.take(step_idx as int)),
            decreases trace.steps@.len() - step_idx,
        {
            let step = &trace.steps[step_idx];
            let ghost index = step_idx as nat;
            witness.insert(pc_before_var(step_idx), step.pc_before);
            witness.insert(pc_after_var(step_idx), step.pc_after);
            let ghost with_pc = witness@;

            let mut i: usize = 0;
            while i < 32
                invariant
                    i <= 32,
                    witness@ == register_cells(with_pc, step@, index, i as nat),
                decreases 32 - i,
            {
                witness.insert(reg_before_var(i, step_idx), step.registers_before[i]);
                witness.insert(reg_after_var(i, step_idx), step.registers_after[i]);
                i += 1;
            }
            proof {
                let longer = steps.take(step_idx as int + 1);
                assert(longer.drop_last() =~= steps.take(step_idx as int));
                assert(longer.last() == step@);
            }
            step_idx += 1;
        }
        assert(steps.take(step_idx as int) =~= steps);

        let mut evaluations: Vec<u32> = Vec::new();
        let mut k: usize = 0;
        while k < constraint_system.constraints.len()
            invariant
                k <= constraint_system.constraints@.len(),
                evaluations@ =~= evaluations_under(constraints, witness@).take(k as int),
            decreases constraint_system.constraints@.len() - k,
        {
            let constraint = &constraint_system.constraints[k];
            assert(constraints[k as int] == constraint@);
            let satisfied = constraint_system.verify_constraint(constraint, &witness);
            evaluations.push(if satisfied { 0 } else { 1 });
            k += 1;
        }
        assert(evaluations_under(constraints, witness@).take(k as int) =~= evaluations_under(
            constraints,
            witness@,
        ));
        evaluations
    }

    /// Folds `polynomial` once.
    fn fold(polynomial: &Vec<u32>) -> (folded: Vec<u32>)
        ensures
            folded@ == fold_layer(polynomial@),
    {
        let mut next_poly: Vec<u32> = Vec::new();
        let half = polynomial.len() / 2;
        let mut i: usize = 0;
        while i < half
            invariant
                i <= half,
                half == polynomial.len() / 2,
                next_poly@ =~= fold_layer(polynomial@).take(i as int),
            decreases half - i,
        {
            let sum = polynomial[2 * i] as u64 + polynomial[2 * i + 1] as u64;
            next_poly.push((sum / 2) as u32);
            i += 1;
        }
        assert(fold_layer(polynomial@).take(i as int) =~= fold_layer(polynomial@));
        next_poly
    }

    /// Commits to one layer.
    fn commit_to_layer(&self, polynomial: &Vec<u32>) -> (commitment: HashValue)
        ensures
            commitment@ == layer_commitment(polynomial@),
    {
        let mut layer: Vec<Vec<u32>> = Vec::new();
        layer.push(copy_of(polynomial));
        assert(column_views(layer@) =~= seq![polynomial@]);
        let (commitment, _) = self.commit_to_columns(layer.as_slice());
        commitment
    }

    /// The low-degree part of a proof over `polynomial`, which must not
    /// be empty: the polynomial is committed to, then folded and committed
    /// to again for as long as it has more than four values.
    #[verifier::loop_isolation(false)]
    pub fn fri_commit(&self, polynomial: &[u32]) -> (fri: FriProof)
        requires
            polynomial@.len() > 0,
        ensures
            fri@ == fri_proof_of(polynomial@),
    {
        let mut commitments: Vec<HashValue> = Vec::new();
        let mut current_poly = vstd::slice::slice_to_vec(polynomial);

        commitments.push(self.commit_to_layer(&current_poly));
        assert(digest_views(commitments@) =~= seq![layer_commitment(polynomial@)]);
        assert(digest_views(commitments@).drop_last() =~= Seq::<Seq<u8>>::empty());

        while current_poly.len() > 4
            invariant
                current_poly@.len() > 0,
                commitments@.len() > 0,
                digest_views(commitments@).last() == layer_commitment(current_poly@),
                layer_commitments(polynomial@) == digest_views(commitments@).drop_last()
                    + layer_commitments(current_poly@),
                final_layer(polynomial@) == final_layer(current_poly@),
            decreases current_poly@.len(),
        {
            let next_poly = Self::fold(&current_poly);
            let commitment = self.commit_to_layer(&next_poly);
            proof {
                let done = digest_views(commitments@);
                assert(digest_views(commitments@.push(commitment)) =~= done.push(commitment@));
                assert(done.push(commitment@).drop_last() =~= done);
                assert(done =~= done.drop_last() + seq![layer_commitment(current_poly@)]);
                assert(done.drop_last() + (seq![layer_commitment(current_poly@)]
                    + layer_commitments(next_poly@)) =~= done + layer_commitments(next_poly@));
            }
            commitments.push(commitment);
            current_poly = next_poly;
        }
        proof {
            let done = digest_views(commitments@);
            assert(done =~= done.drop_last() + seq![layer_commitment(current_poly@)]);
        }

        let mut query_proofs: Vec<QueryProof> = Vec::new();
        let query = QueryProof { index: 0, value: current_poly[0], merkle_path: Vec::new() };
        assert(query@.merkle_path =~= Seq::<Seq<u8>>::empty());
        query_proofs.push(query);
        assert(query_views(query_proofs@) =~= fri_proof_of(polynomial@).query_proofs);

        FriProof { commitments, final_polynomial: current_poly, query_proofs }
    }
}

/// Puts a query proof in its frame form.
fn frame_form_of_query(query: QueryProof) -> (framed: SerializableQueryProof)
    ensures
        framed@ == query@,
{
    SerializableQueryProof {
        index: query.index,
        value: query.value,
        merkle_path: query.merkle_path,
    }
}

/// Puts the low-degree part of a proof in its frame form.
fn frame_form_of_fri(fri: FriProof) -> (framed: SerializableFriProof)
    ensures
        framed@ == fri@,
{
    let ghost queries = query_views(fri.query_proofs@);
    let mut query_proofs: Vec<SerializableQueryProof> = Vec::new();
    let mut remaining = fri.query_proofs;
    let mut i: usize = 0;
    while i < remaining.len()
        invariant
            i <= remaining@.len(),
            query_views(remaining@) == queries,
            frame_query_views(query_proofs@) =~= queries.take(i as int),
        decreases remaining@.len() - i,
    {
        let query = remaining[i].clone();
        let ghost before = query_proofs@;
        let framed = frame_form_of_query(query);
        let ghost added = framed@;
        query_proofs.push(framed);
        assert(frame_query_views(query_proofs@) =~= frame_query_views(before).push(added));
        assert(queries[i as int] == remaining@[i as int]@);
        i += 1;
    }
    assert(queries.take(i as int) =~= queries);
    SerializableFriProof {
        commitments: fri.commitments,
        final_polynomial: fri.final_polynomial,
        query_proofs,
    }
}

/// The 32 bytes of `digest` as a vector.
fn digest_bytes(digest: &HashValue) -> (bytes: Vec<u8>)
    ensures
        bytes@ == digest@,
{
    let mut bytes: Vec<u8> = Vec::new();
    let mut k: usize = 0;
    while k < 32
        invariant
            k <= 32,
            bytes@ == digest@.take(k as int),
        decreases 32 - k,
    {
        bytes.push(digest[k]);
        assert(bytes@ =~= digest@.take(k as int + 1));
        k += 1;
    }
    assert(digest@.take(32) =~= digest@);
    bytes
}

impl ProofSystem for StarkProver {
    type Error = ProofError;

    /// A trace can be proved once it has a step.
    open spec fn can_prove(&self, trace: TraceView) -> bool {
        trace.steps.len() > 0
    }

    /// The one answer for a trace is its proof.
    open spec fn may_answer(&self, trace: TraceView, outcome: Result<ProofView, ProofError>) -> bool {
        outcome == Ok::<ProofView, ProofError>(proof_of(trace))
    }

    /// Proves `trace`: interpolates its columns and commits to them,
    /// evaluates the constraints, folds the evaluations, and writes all
    /// parts to the frame.
    fn generate_proof(&self, trace: &ExecutionTrace) -> (outcome: Result<Proof, ProofError>) {
        let trace_columns = self.interpolate_trace(trace);
        let (trace_commitment, _merkle_tree) = self.commit_to_columns(trace_columns.as_slice());
        let constraint_evaluations = self.evaluate_constraints(trace);
        proof {
            lemma_evaluations_not_empty(trace@.steps);
        }
        let fri_proof = self.fri_commit(constraint_evaluations.as_slice());

        let merkle_proof: Vec<[u8; 32]> = Vec::new();
        assert(digest_views(merkle_proof@) =~= Seq::<Seq<u8>>::empty());
        let serializable_proof = SerializableStarkProof {
            trace_commitment,
            constraint_evaluations,
            merkle_proof,
            fri_proof: frame_form_of_fri(fri_proof),
        };
        let proof_bytes = serialize_proof(&serializable_proof);

        Ok(Proof { trace_commitment: digest_bytes(&trace_commitment), witness: proof_bytes })
    }
}

/// A trace with a step has constraints, so its evaluations are not empty.
pub proof fn lemma_evaluations_not_empty(steps: Seq<TraceStepView>)
    requires
        steps.len() > 0,
    ensures
        constraint_evaluations(steps).len() > 0,
{
}

} // verus!
