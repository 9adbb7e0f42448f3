//! Verification of proofs: the capability, and the verifier for
//! STARK-shaped proofs.

use super::frame::{deserialize_proof, parse_proof, ProofError};
use super::prover::{Proof, ProofView};
use super::stark::{SerializableStarkProof, StarkProofView};
use crate::crypto::merkle::zero_digest;
use vstd::prelude::*;

verus! {

/// A verification system: something that judges a proof against public
/// inputs.
pub trait VerificationSystem {
    type Error: std::fmt::Debug;

    /// Whether `outcome` is an answer this system may give for `proof` and
    /// `public_inputs`.
    spec fn may_answer(
        &self,
        proof: ProofView,
        public_inputs: Seq<u8>,
        outcome: Result<bool, Self::Error>,
    ) -> bool;

    /// Judges `proof`.
    fn verify_proof(&self, proof: &Proof, public_inputs: &[u8]) -> (outcome: Result<
        bool,
        Self::Error,
    >)
        ensures
            self.may_answer(proof@, public_inputs@, outcome),
    ;
}

/// A verifier: hands proofs to its verification system.
pub struct Verifier<V: VerificationSystem> {
    verification_system: V,
}

impl<V: VerificationSystem> Verifier<V> {
    /// A verifier over `verification_system`.
    pub fn new(verification_system: V) -> (verifier: Self)
        ensures
            verifier.system() == verification_system,
    {
        Self { verification_system }
    }

    /// The verification system of this verifier.
    pub closed spec fn system(&self) -> V {
        self.verification_system
    }

    /// Judges `proof` with the verification system of this verifier, and
    /// returns what it answers.
    pub fn verify(&self, proof: &Proof, public_inputs: &[u8]) -> (outcome: Result<bool, V::Error>)
        ensures
            self.system().may_answer(proof@, public_inputs@, outcome),
    {
        self.verification_system.verify_proof(proof, public_inputs)
    }
}

impl StarkProofView {
    /// Whether the trace commitment is anything but 32 zero bytes.
    pub open spec fn commitment_present(self) -> bool {
        self.trace_commitment != zero_digest()
    }

    /// Whether every constraint evaluation is zero.
    pub open spec fn constraints_satisfied(self) -> bool {
        forall|i: int|
            0 <= i < self.constraint_evaluations.len() ==> self.constraint_evaluations[i] == 0
    }

    /// Whether the low-degree part has a commitment and a final
    /// polynomial with a value.
    pub open spec fn fri_present(self) -> bool {
        self.fri_proof.commitments.len() > 0 && self.fri_proof.final_polynomial.len() > 0
    }

    /// Whether a verifier accepts this proof.
    pub open spec fn acceptable(self) -> bool {
        self.commitment_present() && self.constraints_satisfied() && self.fri_present()
    }
}

/// The verdict on the framed part of a proof: an error where the bytes do
/// not start with a frame, else whether the proof in the frame is
/// acceptable.
pub open spec fn stark_verdict(witness: Seq<u8>) -> Result<bool, ProofError> {
    match parse_proof(witness) {
        None => Err(ProofError::Deserialization),
        Some(proof) => Ok(proof.acceptable()),
    }
}

/// The verifier of STARK-shaped proofs. The parameter is kept for tuning
/// and has no influence on a verdict.
#[derive(Debug)]
pub struct StarkVerifier {
    pub security_level: u32,
}

impl Default for StarkVerifier {
    fn default() -> (verifier: Self)
        ensures
            verifier.security_level == 80,
    {
        Self { security_level: 80 }
    }
}

impl StarkVerifier {
    /// A verifier with the given tuning parameter.
    pub fn new(security_level: u32) -> (verifier: Self)
        ensures
            verifier.security_level == security_level,
    {
        Self { security_level }
    }

    /// Whether the low-degree part of `stark_proof` has a commitment and
    /// a final polynomial with a value.
    pub fn verify_fri_proof(&self, stark_proof: &SerializableStarkProof) -> (present: bool)
        ensures
            present == stark_proof@.fri_present(),
    {
        stark_proof.fri_proof.commitments.len() > 0
            && stark_proof.fri_proof.final_polynomial.len() > 0
    }

    /// Whether every constraint evaluation of `stark_proof` is zero.
    #[verifier::loop_isolation(false)]
    pub fn verify_constraint_evaluations(&self, stark_proof: &SerializableStarkProof) -> (satisfied:
        bool)
        ensures
            satisfied == stark_proof@.constraints_satisfied(),
    {
        let evaluations = &stark_proof.constraint_evaluations;
        let mut i: usize = 0;
        while i < evaluations.len()
            invariant
                i <= evaluations@.len(),
                forall|j: int| 0 <= j < i ==> evaluations@[j] == 0,
            decreases evaluations@.len() - i,
        {
            if evaluations[i] != 0 {
                assert(stark_proof@.constraint_evaluations[i as int] != 0);
                return false;
            }
            i += 1;
        }
        true
    }

    /// Whether the trace commitment of `stark_proof` is anything but 32
    /// zero bytes.
    #[verifier::loop_isolation(false)]
    pub fn verify_trace_commitment(&self, stark_proof: &SerializableStarkProof) -> (present: bool)
        ensures
            present == stark_proof@.commitment_present(),
    {
        let commitment = &stark_proof.trace_commitment;
        let mut k: usize = 0;
        while k < 32
            invariant
                k <= 32,
                forall|j: int| 0 <= j < k ==> commitment@[j] == 0,
            decreases 32 - k,
        {
            if commitment[k] != 0 {
                assert(zero_digest()[k as int] == 0);
                assert(stark_proof@.trace_commitment[k as int] != 0);
                return true;
            }
            k += 1;
        }
        assert(commitment@ =~= zero_digest());
        false
    }
}

impl VerificationSystem for StarkVerifier {
    type Error = ProofError;

    /// The one answer for a proof is the verdict on its framed part. The
    /// public inputs are accepted and have no influence on it.
    open spec fn may_answer(
        &self,
        proof: ProofView,
        public_inputs: Seq<u8>,
        outcome: Result<bool, ProofError>,
    ) -> bool {
        outcome == stark_verdict(proof.witness)
    }

    /// Judges `proof`: reads its framed part, then checks in turn the
    /// trace commitment, the constraint evaluations and the low-degree
    /// part.
    fn verify_proof(&self, proof: &Proof, _public_inputs: &[u8]) -> (outcome: Result<
        bool,
        ProofError,
    >) {
        let stark_proof = match deserialize_proof(proof.witness.as_slice()) {
            Ok(stark_proof) => stark_proof,
            Err(e) => {
                return Err(e);
            },
        };

        if !self.verify_trace_commitment(&stark_proof) {
            return Ok(false);
        }
        if !self.verify_constraint_evaluations(&stark_proof) {
            return Ok(false);
        }
        if !self.verify_fri_proof(&stark_proof) {
            return Ok(false);
        }
        Ok(true)
    }
}

/// A verification system that accepts every proof.
#[derive(Debug)]
pub struct MockVerificationSystem;

impl VerificationSystem for MockVerificationSystem {
    type Error = ProofError;

    open spec fn may_answer(
        &self,
        proof: ProofView,
        public_inputs: Seq<u8>,
        outcome: Result<bool, ProofError>,
    ) -> bool {
        outcome == Ok::<bool, ProofError>(true)
    }

    fn verify_proof(&self, _proof: &Proof, _public_inputs: &[u8]) -> (outcome: Result<
        bool,
        ProofError,
    >) {
        Ok(true)
    }
}

/// A proof that the verifier accepts has a frame that holds a trace
/// commitment other than zero, constraint evaluations that are all zero,
/// and a low-degree part with a commitment and a final value.
pub proof fn lemma_acceptance_implies(witness: Seq<u8>)
    requires
        stark_verdict(witness) == Ok::<bool, ProofError>(true),
    ensures
        parse_proof(witness) is Some,
        parse_proof(witness)->Some_0.trace_commitment != zero_digest(),
        forall|i: int|
            0 <= i < parse_proof(witness)->Some_0.constraint_evaluations.len() ==> parse_proof(
                witness,
            )->Some_0.constraint_evaluations[i] == 0,
        parse_proof(witness)->Some_0.fri_proof.commitments.len() > 0,
        parse_proof(witness)->Some_0.fri_proof.final_polynomial.len() > 0,
{
}

} // verus!
