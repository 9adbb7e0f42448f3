//! Instruction records and the decoder from 32-bit instruction words.

use vstd::prelude::*;

verus! {

/// The ways in which the machine can refuse an operation.
#[derive(Debug, Clone, Copy, PartialEq, Eq, Structural)]
pub enum VmError {
    /// An address at or beyond the declared memory size.
    MemoryOutOfBounds,
    /// A word access at an address that is not a multiple of four.
    UnalignedAccess,
    /// A `Div` whose divisor register holds zero.
    DivisionByZero,
    /// A register-register instruction word with unassigned function bits.
    UnknownInstruction,
}

impl VmError {
    /// A short human-readable description of the error.
    pub fn message(&self) -> (text: &'static str)
        ensures
            text@ == match *self {
                VmError::MemoryOutOfBounds => "Memory address out of bounds"@,
                VmError::UnalignedAccess => "Unaligned memory access"@,
                VmError::DivisionByZero => "Division by zero"@,
                VmError::UnknownInstruction => "Unknown R/M-extension instruction"@,
            },
    {
        match self {
            VmError::MemoryOutOfBounds => "Memory address out of bounds",
            VmError::UnalignedAccess => "Unaligned memory access",
            VmError::DivisionByZero => "Division by zero",
            VmError::UnknownInstruction => "Unknown R/M-extension instruction",
        }
    }
}

/// The operations the machine knows.
#[derive(Debug, Clone, Copy, PartialEq, Eq, Structural)]
pub enum Opcode {
    Add,
    Sub,
    Mul,
    Div,
    Load,
    Store,
    Branch,
    Jump,
    Nop,
}

/// A decoded instruction: an operation, three register indices and a signed
/// immediate.
#[derive(Debug, Clone, Copy, PartialEq, Eq, Structural)]
pub struct Instruction {
    pub opcode: Opcode,
    pub rd: u8,
    pub rs1: u8,
    pub rs2: u8,
    pub imm: i32,
}

impl Instruction {
    pub fn new(opcode: Opcode, rd: u8, rs1: u8, rs2: u8, imm: i32) -> (inst: Self)
        ensures
            inst == (Instruction { opcode, rd, rs1, rs2, imm }),
    {
        Self { opcode, rd, rs1, rs2, imm }
    }

    /// Whether all three register indices name one of the 32 registers.
    pub open spec fn well_formed(self) -> bool {
        self.rd < 32 && self.rs1 < 32 && self.rs2 < 32
    }
}

/// The low seven bits of an instruction word: its major opcode.
pub open spec fn major_opcode(word: u32) -> u32 {
    word & 0x7f
}

/// Bits 25..32 of an instruction word.
pub open spec fn funct7(word: u32) -> u32 {
    (word >> 25) & 0x7f
}

/// Bits 12..15 of an instruction word.
pub open spec fn funct3(word: u32) -> u32 {
    (word >> 12) & 0x7
}

/// The destination register index, bits 7..12.
pub open spec fn rd_field(word: u32) -> u8 {
    ((word >> 7) & 0x1f) as u8
}

/// The first source register index, bits 15..20.
pub open spec fn rs1_field(word: u32) -> u8 {
    ((word >> 15) & 0x1f) as u8
}

/// The second source register index, bits 20..25.
pub open spec fn rs2_field(word: u32) -> u8 {
    ((word >> 20) & 0x1f) as u8
}

/// The immediate: the word read as a signed number, shifted right
/// arithmetically by twenty bits.
pub open spec fn imm_field(word: u32) -> i32 {
    (word as i32) >> 20
}

/// The operation an instruction word selects, or `None` for a
/// register-register word whose function bits are unassigned.
pub open spec fn opcode_of(word: u32) -> Option<Opcode> {
    let major = major_opcode(word);
    if major == 0x33 {
        let f7 = funct7(word);
        if f7 == 0x00 {
            Some(Opcode::Add)
        } else if f7 == 0x20 {
            Some(Opcode::Sub)
        } else if f7 == 0x01 {
            let f3 = funct3(word);
            if f3 == 0x0 {
                Some(Opcode::Mul)
            } else if f3 == 0x4 {
                Some(Opcode::Div)
            } else {
                None
            }
        } else {
            None
        }
    } else if major == 0x03 {
        Some(Opcode::Load)
    } else if major == 0x23 {
        Some(Opcode::Store)
    } else if major == 0x63 {
        Some(Opcode::Branch)
    } else if major == 0x6f {
        Some(Opcode::Jump)
    } else {
        Some(Opcode::Nop)
    }
}

/// What decoding an instruction word yields.
pub open spec fn decode_spec(word: u32) -> Result<Instruction, VmError> {
    match opcode_of(word) {
        Some(opcode) => Ok(
            Instruction {
                opcode,
                rd: rd_field(word),
                rs1: rs1_field(word),
                rs2: rs2_field(word),
                imm: imm_field(word),
            },
        ),
        None => Err(VmError::UnknownInstruction),
    }
}

/// Every register field of a word is a five-bit value.
pub proof fn lemma_fields_in_range(word: u32)
    ensures
        rd_field(word) < 32,
        rs1_field(word) < 32,
        rs2_field(word) < 32,
{
    assert(((word >> 7) & 0x1f) < 32) by (bit_vector);
    assert(((word >> 15) & 0x1f) < 32) by (bit_vector);
    assert(((word >> 20) & 0x1f) < 32) by (bit_vector);
}

/// Decodes a 32-bit instruction word.
///
/// Unknown major opcodes decode to `Nop`; only a register-register word
/// with unassigned function bits is an error.
pub fn decode_instruction(word: u32) -> (decoded: Result<Instruction, VmError>)
    ensures
        decoded == decode_spec(word),
        decoded matches Ok(inst) ==> inst.well_formed(),
{
    proof {
        lemma_fields_in_range(word);
    }
    let opcode_bits = word & 0x7f;
    let rd = ((word >> 7) & 0x1f) as u8;
    let rs1 = ((word >> 15) & 0x1f) as u8;
    let rs2 = ((word >> 20) & 0x1f) as u8;
    let imm = (word as i32) >> 20;

    let opcode = if opcode_bits == 0x33 {
        let f7 = (word >> 25) & 0x7f;
        if f7 == 0x00 {
            Opcode::Add
        } else if f7 == 0x20 {
            Opcode::Sub
        } else if f7 == 0x01 {
            let f3 = (word >> 12) & 0x7;
            if f3 == 0x0 {
                Opcode::Mul
            } else if f3 == 0x4 {
                Opcode::Div
            } else {
                return Err(VmError::UnknownInstruction);
            }
        } else {
            return Err(VmError::UnknownInstruction);
        }
    } else if opcode_bits == 0x03 {
        Opcode::Load
    } else if opcode_bits == 0x23 {
        Opcode::Store
    } else if opcode_bits == 0x63 {
        Opcode::Branch
    } else if opcode_bits == 0x6f {
        Opcode::Jump
    } else {
        Opcode::Nop
    };

    Ok(Instruction::new(opcode, rd, rs1, rs2, imm))
}

} // verus!
