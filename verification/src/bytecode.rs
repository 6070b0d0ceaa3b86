//! Bytecode of the contract machine: single-byte opcodes and their base gas
//! costs.

use vstd::prelude::*;

verus! {

/// Gas cost of STOP.
pub const GAS_STOP: u64 = 0;
/// Gas cost of ADD.
pub const GAS_ADD: u64 = 3;
/// Gas cost of SUB.
pub const GAS_SUB: u64 = 3;
/// Gas cost of MUL.
pub const GAS_MUL: u64 = 5;
/// Gas cost of MLOAD.
pub const GAS_MLOAD: u64 = 3;
/// Gas cost of MSTORE.
pub const GAS_MSTORE: u64 = 3;
/// Gas cost of SLOAD.
pub const GAS_SLOAD: u64 = 100;
/// Gas cost of SSTORE.
pub const GAS_SSTORE: u64 = 20_000;
/// Gas cost of any PUSH.
pub const GAS_PUSH: u64 = 3;
/// Gas cost of JUMP.
pub const GAS_JUMP: u64 = 8;
/// Gas cost of JUMPI.
pub const GAS_JUMPI: u64 = 10;
/// Gas cost of RETURN.
pub const GAS_RETURN: u64 = 0;

/// The opcodes of the stack machine. PUSH1 (0x60) and PUSH32 (0x7f) stand
/// for the whole PUSH1..PUSH32 range.
#[derive(Clone, Copy, Debug, PartialEq, Eq, Structural)]
pub enum Opcode {
    /// Halt (0x00).
    Stop,
    /// Add the top two words, modulo 2^256 (0x01).
    Add,
    /// Subtract, modulo 2^256 (0x02).
    Sub,
    /// Multiply, saturating in the low 64 bits (0x03).
    Mul,
    /// Load 32 bytes from memory (0x51).
    MLoad,
    /// Store 32 bytes to memory (0x52).
    MStore,
    /// Read contract storage (0x54).
    SLoad,
    /// Write contract storage (0x55).
    SStore,
    /// Push a 1-byte immediate (0x60).
    Push1,
    /// Push a 32-byte immediate (0x7f).
    Push32,
    /// Unconditional jump (0x56).
    Jump,
    /// Conditional jump (0x57).
    JumpI,
    /// Halt and expose a memory slice as return data (0xf3).
    Return,
}

impl Opcode {
    /// The opcode a byte denotes, if any.
    pub open spec fn spec_from_byte(b: u8) -> Option<Opcode> {
        if b == 0x00 {
            Some(Opcode::Stop)
        } else if b == 0x01 {
            Some(Opcode::Add)
        } else if b == 0x02 {
            Some(Opcode::Sub)
        } else if b == 0x03 {
            Some(Opcode::Mul)
        } else if b == 0x51 {
            Some(Opcode::MLoad)
        } else if b == 0x52 {
            Some(Opcode::MStore)
        } else if b == 0x54 {
            Some(Opcode::SLoad)
        } else if b == 0x55 {
            Some(Opcode::SStore)
        } else if b == 0x56 {
            Some(Opcode::Jump)
        } else if b == 0x57 {
            Some(Opcode::JumpI)
        } else if b == 0x60 {
            Some(Opcode::Push1)
        } else if b == 0x7f {
            Some(Opcode::Push32)
        } else if b == 0xf3 {
            Some(Opcode::Return)
        } else {
            None
        }
    }

    /// Decode a byte.
    pub fn from_byte(b: u8) -> (r: Option<Opcode>)
        ensures
            r == Opcode::spec_from_byte(b),
    {
        match b {
            0x00 => Some(Opcode::Stop),
            0x01 => Some(Opcode::Add),
            0x02 => Some(Opcode::Sub),
            0x03 => Some(Opcode::Mul),
            0x51 => Some(Opcode::MLoad),
            0x52 => Some(Opcode::MStore),
            0x54 => Some(Opcode::SLoad),
            0x55 => Some(Opcode::SStore),
            0x56 => Some(Opcode::Jump),
            0x57 => Some(Opcode::JumpI),
            0x60 => Some(Opcode::Push1),
            0x7f => Some(Opcode::Push32),
            0xf3 => Some(Opcode::Return),
            _ => None,
        }
    }

    /// How many immediate bytes a PUSH opcode carries: 0x60 pushes 1 byte,
    /// 0x7f pushes 32.
    pub open spec fn spec_push_size(b: u8) -> Option<u8> {
        if 0x60 <= b <= 0x7f {
            Some((b - 0x5f) as u8)
        } else {
            None
        }
    }

    /// Immediate size of a PUSH byte, if it is one.
    pub fn push_size(b: u8) -> (r: Option<u8>)
        ensures
            r == Opcode::spec_push_size(b),
    {
        if 0x60 <= b && b <= 0x7f {
            Some(b - 0x5f)
        } else {
            None
        }
    }
}

} // verus!
