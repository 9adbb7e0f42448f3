//! The virtual machine: instruction words, memory, and execution.

pub mod execution;
pub mod invariants;
pub mod memory;
pub mod opcodes;

pub use execution::{ExecutionStep, MachineView, RunView, StepView, VmState};
pub use memory::{Memory, MemoryView};
pub use opcodes::{decode_instruction, Instruction, Opcode, VmError};
