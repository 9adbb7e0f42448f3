//! The proof system over execution traces: the trace model, constraint
//! synthesis, the STARK-shaped prover and its verifier.

pub mod constraints;
pub mod frame;
pub mod frame_laws;
pub mod laws;
pub mod meaning;
pub mod name_laws;
pub mod names;
pub mod prover;
pub mod stark;
pub mod verification;
pub mod witness;

pub use constraints::{
    Constraint, ConstraintSystem, ConstraintSystemView, ConstraintView, Expression,
    ExpressionView,
};
pub use frame::{deserialize_proof, serialize_proof, ProofError};
pub use prover::{
    ExecutionTrace, MemoryAccess, Proof, ProofSystem, ProofView, Prover, TraceStep,
    TraceStepView, TraceView, WitnessData,
};
pub use stark::{
    FriProof, QueryProof, SerializableFriProof, SerializableQueryProof, SerializableStarkProof,
    StarkProof, StarkProver,
};
pub use verification::{MockVerificationSystem, StarkVerifier, VerificationSystem, Verifier};
pub use witness::Witness;
