//! The opcode decoder: nibble-pattern matching from a raw 16-bit
//! instruction word to a symbolic instruction tag.

use vstd::prelude::*;

verus! {

/// One tag per recognized nibble pattern of the instruction table.
#[derive(Clone, Copy, Debug, PartialEq, Eq, Structural)]
pub enum Instruction {
    /// `0000`
    NOP,
    /// `00E0`
    ClearScreen,
    /// `1NNN`
    Jump,
    /// `2NNN`
    CallSubroutine,
    /// `00EE`
    ReturnSubroutine,
    /// `3XNN`
    SkipVXEqualNN,
    /// `4XNN`
    SkipVXNotEqualNN,
    /// `5XY0`
    SkipVXEqualVY,
    /// `9XY0`
    SkipVXNotEqualVY,
    /// `6XNN`
    SetVXToNN,
    /// `7XNN`
    AddNNToVX,
    /// `8XY0`
    SetVXToVY,
    /// `8XY1`: VX |= VY
    OR,
    /// `8XY2`: VX &= VY
    AND,
    /// `8XY3`: VX ^= VY
    XOR,
    /// `8XY4`: VX += VY, VF = carry
    Add,
    /// `8XY5`: VX -= VY, VF = no borrow
    SubtractFrom,
    /// `8XY7`: VX = VY - VX, VF = no borrow
    Subtract,
    /// `8XY6`: VX >>= 1, VF = bit shifted out
    RightShift,
    /// `8XYE`: VX <<= 1, VF = bit shifted out
    LeftShift,
    /// `ANNN`: I = NNN
    SetIndex,
    /// `BNNN`: PC = V0 + NNN
    JumpWithOffset,
    /// `CXNN`: VX = random byte & NN
    Random,
    /// `DXYN`: draw sprite
    Display,
    /// `EX9E`
    SkipKeyPress,
    /// `EXA1`
    SkipKeyRelease,
    /// `FX07`: VX = delay timer
    SetVXToTimer,
    /// `FX15`: delay timer = VX
    SetTimerToVX,
    /// `FX18`: sound timer = VX
    SetSoundTimerToVX,
    /// `FX1E`: I += VX
    AddToIndex,
    /// `FX0A`: block until a key is pressed
    WaitKey,
    /// `FX29`: I = address of the font glyph for VX
    FontCharacter,
    /// `FX33`: binary-coded decimal of VX to memory
    BinaryCodedDecimalConversion,
    /// `FX55`: store V0..=VX to memory
    StoreMemory,
    /// `FX65`: load V0..=VX from memory
    LoadMemory,
}

/// Highest nibble of an instruction word.
pub open spec fn nib1(op: u16) -> u16 {
    (op / 0x1000) as u16
}

/// Second nibble of an instruction word (the X operand).
pub open spec fn nib2(op: u16) -> u16 {
    ((op / 0x100) % 0x10) as u16
}

/// Third nibble of an instruction word (the Y operand).
pub open spec fn nib3(op: u16) -> u16 {
    ((op / 0x10) % 0x10) as u16
}

/// Lowest nibble of an instruction word.
pub open spec fn nib4(op: u16) -> u16 {
    (op % 0x10) as u16
}

/// The documented nibble-pattern table. A wildcard nibble is simply not
/// tested; no two patterns overlap, and anything outside the table
/// decodes to `None` (an unrecognized opcode).
pub open spec fn spec_decode(n1: u16, n2: u16, n3: u16, n4: u16) -> Option<Instruction> {
    if n1 == 0 && n2 == 0 && n3 == 0 && n4 == 0 {
        Some(Instruction::NOP)
    } else if n1 == 0 && n2 == 0 && n3 == 0xE && n4 == 0 {
        Some(Instruction::ClearScreen)
    } else if n1 == 0 && n2 == 0 && n3 == 0xE && n4 == 0xE {
        Some(Instruction::ReturnSubroutine)
    } else if n1 == 1 {
        Some(Instruction::Jump)
    } else if n1 == 2 {
        Some(Instruction::CallSubroutine)
    } else if n1 == 3 {
        Some(Instruction::SkipVXEqualNN)
    } else if n1 == 4 {
        Some(Instruction::SkipVXNotEqualNN)
    } else if n1 == 5 && n4 == 0 {
        Some(Instruction::SkipVXEqualVY)
    } else if n1 == 9 && n4 == 0 {
        Some(Instruction::SkipVXNotEqualVY)
    } else if n1 == 6 {
        Some(Instruction::SetVXToNN)
    } else if n1 == 7 {
        Some(Instruction::AddNNToVX)
    } else if n1 == 8 && n4 == 0 {
        Some(Instruction::SetVXToVY)
    } else if n1 == 8 && n4 == 1 {
        Some(Instruction::OR)
    } else if n1 == 8 && n4 == 2 {
        Some(Instruction::AND)
    } else if n1 == 8 && n4 == 3 {
        Some(Instruction::XOR)
    } else if n1 == 8 && n4 == 4 {
        Some(Instruction::Add)
    } else if n1 == 8 && n4 == 5 {
        Some(Instruction::SubtractFrom)
    } else if n1 == 8 && n4 == 7 {
        Some(Instruction::Subtract)
    } else if n1 == 8 && n4 == 6 {
        Some(Instruction::RightShift)
    } else if n1 == 8 && n4 == 0xE {
        Some(Instruction::LeftShift)
    } else if n1 == 0xA {
        Some(Instruction::SetIndex)
    } else if n1 == 0xB {
        Some(Instruction::JumpWithOffset)
    } else if n1 == 0xC {
        Some(Instruction::Random)
    } else if n1 == 0xD {
        Some(Instruction::Display)
    } else if n1 == 0xE && n4 == 0xE {
        Some(Instruction::SkipKeyPress)
    } else if n1 == 0xE && n3 == 0xA && n4 == 1 {
        Some(Instruction::SkipKeyRelease)
    } else if n1 == 0xF && n3 == 0 && n4 == 7 {
        Some(Instruction::SetVXToTimer)
    } else if n1 == 0xF && n3 == 1 && n4 == 5 {
        Some(Instruction::SetTimerToVX)
    } else if n1 == 0xF && n3 == 1 && n4 == 8 {
        Some(Instruction::SetSoundTimerToVX)
    } else if n1 == 0xF && n3 == 1 && n4 == 0xE {
        Some(Instruction::AddToIndex)
    } else if n1 == 0xF && n3 == 0 && n4 == 0xA {
        Some(Instruction::WaitKey)
    } else if n1 == 0xF && n3 == 2 && n4 == 9 {
        Some(Instruction::FontCharacter)
    } else if n1 == 0xF && n3 == 3 && n4 == 3 {
        Some(Instruction::BinaryCodedDecimalConversion)
    } else if n1 == 0xF && n3 == 5 && n4 == 5 {
        Some(Instruction::StoreMemory)
    } else if n1 == 0xF && n3 == 6 && n4 == 5 {
        Some(Instruction::LoadMemory)
    } else {
        None
    }
}

/// Decoding of a whole instruction word, by its four nibbles.
pub open spec fn decode_op(op: u16) -> Option<Instruction> {
    spec_decode(nib1(op), nib2(op), nib3(op), nib4(op))
}

impl Instruction {
    /// Decode a nibble quadruple (highest nibble first) into the matching
    /// instruction tag, or `None` for an unrecognized pattern.
    pub fn from_opcode(opcode: (u16, u16, u16, u16)) -> (r: Option<Self>)
        ensures
            r == spec_decode(opcode.0, opcode.1, opcode.2, opcode.3),
    {
        match opcode {
            (0, 0, 0, 0) => Some(Self::NOP),
            (0, 0, 0xE, 0) => Some(Self::ClearScreen),
            (0, 0, 0xE, 0xE) => Some(Self::ReturnSubroutine),
            (1, _, _, _) => Some(Self::Jump),
            (2, _, _, _) => Some(Self::CallSubroutine),
            (3, _, _, _) => Some(Self::SkipVXEqualNN),
            (4, _, _, _) => Some(Self::SkipVXNotEqualNN),
            (5, _, _, 0) => Some(Self::SkipVXEqualVY),
            (9, _, _, 0) => Some(Self::SkipVXNotEqualVY),
            (6, _, _, _) => Some(Self::SetVXToNN),
            (7, _, _, _) => Some(Self::AddNNToVX),
            (8, _, _, 0) => Some(Self::SetVXToVY),
            (8, _, _, 1) => Some(Self::OR),
            (8, _, _, 2) => Some(Self::AND),
            (8, _, _, 3) => Some(Self::XOR),
            (8, _, _, 4) => Some(Self::Add),
            (8, _, _, 5) => Some(Self::SubtractFrom),
            (8, _, _, 7) => Some(Self::Subtract),
            (8, _, _, 6) => Some(Self::RightShift),
            (8, _, _, 0xE) => Some(Self::LeftShift),
            (0xA, _, _, _) => Some(Self::SetIndex),
            (0xB, _, _, _) => Some(Self::JumpWithOffset),
            (0xC, _, _, _) => Some(Self::Random),
            (0xD, _, _, _) => Some(Self::Display),
            (0xE, _, _, 0xE) => Some(Self::SkipKeyPress),
            (0xE, _, 0xA, 1) => Some(Self::SkipKeyRelease),
            (0xF, _, 0, 7) => Some(Self::SetVXToTimer),
            (0xF, _, 1, 5) => Some(Self::SetTimerToVX),
            (0xF, _, 1, 8) => Some(Self::SetSoundTimerToVX),
            (0xF, _, 1, 0xE) => Some(Self::AddToIndex),
            (0xF, _, 0, 0xA) => Some(Self::WaitKey),
            (0xF, _, 2, 9) => Some(Self::FontCharacter),
            (0xF, _, 3, 3) => Some(Self::BinaryCodedDecimalConversion),
            (0xF, _, 5, 5) => Some(Self::StoreMemory),
            (0xF, _, 6, 5) => Some(Self::LoadMemory),
            _ => None,
        }
    }
}

/// Decoding is deterministic and total: every word with a nibble pattern
/// of the table decodes to that pattern's tag, whatever its operand
/// nibbles are, and the patterns do not overlap. Being a function,
/// `spec_decode` can give only one answer for a word; these equations
/// show which one it is for each pattern.
pub proof fn lemma_decode_table(n2: u16, n3: u16, n4: u16)
    ensures
        spec_decode(0, 0, 0, 0) == Some(Instruction::NOP),
        spec_decode(0, 0, 0xE, 0) == Some(Instruction::ClearScreen),
        spec_decode(0, 0, 0xE, 0xE) == Some(Instruction::ReturnSubroutine),
        spec_decode(1, n2, n3, n4) == Some(Instruction::Jump),
        spec_decode(2, n2, n3, n4) == Some(Instruction::CallSubroutine),
        spec_decode(3, n2, n3, n4) == Some(Instruction::SkipVXEqualNN),
        spec_decode(4, n2, n3, n4) == Some(Instruction::SkipVXNotEqualNN),
        spec_decode(5, n2, n3, 0) == Some(Instruction::SkipVXEqualVY),
        spec_decode(9, n2, n3, 0) == Some(Instruction::SkipVXNotEqualVY),
        spec_decode(6, n2, n3, n4) == Some(Instruction::SetVXToNN),
        spec_decode(7, n2, n3, n4) == Some(Instruction::AddNNToVX),
        spec_decode(8, n2, n3, 0) == Some(Instruction::SetVXToVY),
        spec_decode(8, n2, n3, 1) == Some(Instruction::OR),
        spec_decode(8, n2, n3, 2) == Some(Instruction::AND),
        spec_decode(8, n2, n3, 3) == Some(Instruction::XOR),
        spec_decode(8, n2, n3, 4) == Some(Instruction::Add),
        spec_decode(8, n2, n3, 5) == Some(Instruction::SubtractFrom),
        spec_decode(8, n2, n3, 7) == Some(Instruction::Subtract),
        spec_decode(8, n2, n3, 6) == Some(Instruction::RightShift),
        spec_decode(8, n2, n3, 0xE) == Some(Instruction::LeftShift),
        spec_decode(0xA, n2, n3, n4) == Some(Instruction::SetIndex),
        spec_decode(0xB, n2, n3, n4) == Some(Instruction::JumpWithOffset),
        spec_decode(0xC, n2, n3, n4) == Some(Instruction::Random),
        spec_decode(0xD, n2, n3, n4) == Some(Instruction::Display),
        spec_decode(0xE, n2, n3, 0xE) == Some(Instruction::SkipKeyPress),
        spec_decode(0xE, n2, 0xA, 1) == Some(Instruction::SkipKeyRelease),
        spec_decode(0xF, n2, 0, 7) == Some(Instruction::SetVXToTimer),
        spec_decode(0xF, n2, 1, 5) == Some(Instruction::SetTimerToVX),
        spec_decode(0xF, n2, 1, 8) == Some(Instruction::SetSoundTimerToVX),
        spec_decode(0xF, n2, 1, 0xE) == Some(Instruction::AddToIndex),
        spec_decode(0xF, n2, 0, 0xA) == Some(Instruction::WaitKey),
        spec_decode(0xF, n2, 2, 9) == Some(Instruction::FontCharacter),
        spec_decode(0xF, n2, 3, 3) == Some(Instruction::BinaryCodedDecimalConversion),
        spec_decode(0xF, n2, 5, 5) == Some(Instruction::StoreMemory),
        spec_decode(0xF, n2, 6, 5) == Some(Instruction::LoadMemory),
{
}

} // verus!
