//! A small zero-knowledge virtual machine: a deterministic integer VM, the
//! execution trace it leaves behind, and a STARK-shaped proof over that
//! trace, all stated and proved with Verus.

pub mod crypto;
pub mod utils;
pub mod vm;
pub mod zkp;

pub use crypto::{HashValue, MerkleTree};
pub use utils::{decode_hex, encode_hex};
pub use vm::{ExecutionStep, Instruction, Opcode, VmState};
pub use zkp::{
    ConstraintSystem, ExecutionTrace, Proof, Prover, StarkProver, StarkVerifier, Verifier,
};
