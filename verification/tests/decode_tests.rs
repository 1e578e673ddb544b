use chip8::Instruction;

#[test]
fn decode_system_patterns() {
    assert_eq!(Instruction::from_opcode((0, 0, 0, 0)), Some(Instruction::NOP));
    assert_eq!(Instruction::from_opcode((0, 0, 0xE, 0)), Some(Instruction::ClearScreen));
    assert_eq!(Instruction::from_opcode((0, 0, 0xE, 0xE)), Some(Instruction::ReturnSubroutine));
}

#[test]
fn decode_flow_patterns() {
    assert_eq!(Instruction::from_opcode((1, 2, 0, 0)), Some(Instruction::Jump));
    assert_eq!(Instruction::from_opcode((2, 3, 4, 5)), Some(Instruction::CallSubroutine));
    assert_eq!(Instruction::from_opcode((3, 0xA, 1, 2)), Some(Instruction::SkipVXEqualNN));
    assert_eq!(Instruction::from_opcode((4, 0xA, 1, 2)), Some(Instruction::SkipVXNotEqualNN));
    assert_eq!(Instruction::from_opcode((5, 0xA, 0xB, 0)), Some(Instruction::SkipVXEqualVY));
    assert_eq!(Instruction::from_opcode((9, 0xA, 0xB, 0)), Some(Instruction::SkipVXNotEqualVY));
    assert_eq!(Instruction::from_opcode((0xB, 1, 2, 3)), Some(Instruction::JumpWithOffset));
}

#[test]
fn decode_register_patterns() {
    assert_eq!(Instruction::from_opcode((6, 0, 1, 2)), Some(Instruction::SetVXToNN));
    assert_eq!(Instruction::from_opcode((7, 0, 1, 2)), Some(Instruction::AddNNToVX));
    assert_eq!(Instruction::from_opcode((8, 1, 2, 0)), Some(Instruction::SetVXToVY));
    assert_eq!(Instruction::from_opcode((8, 1, 2, 1)), Some(Instruction::OR));
    assert_eq!(Instruction::from_opcode((8, 1, 2, 2)), Some(Instruction::AND));
    assert_eq!(Instruction::from_opcode((8, 1, 2, 3)), Some(Instruction::XOR));
    assert_eq!(Instruction::from_opcode((8, 1, 2, 4)), Some(Instruction::Add));
    assert_eq!(Instruction::from_opcode((8, 1, 2, 5)), Some(Instruction::SubtractFrom));
    assert_eq!(Instruction::from_opcode((8, 1, 2, 6)), Some(Instruction::RightShift));
    assert_eq!(Instruction::from_opcode((8, 1, 2, 7)), Some(Instruction::Subtract));
    assert_eq!(Instruction::from_opcode((8, 1, 2, 0xE)), Some(Instruction::LeftShift));
}

#[test]
fn decode_memory_and_key_patterns() {
    assert_eq!(Instruction::from_opcode((0xA, 1, 2, 3)), Some(Instruction::SetIndex));
    assert_eq!(Instruction::from_opcode((0xC, 1, 2, 3)), Some(Instruction::Random));
    assert_eq!(Instruction::from_opcode((0xD, 1, 2, 3)), Some(Instruction::Display));
    assert_eq!(Instruction::from_opcode((0xE, 1, 9, 0xE)), Some(Instruction::SkipKeyPress));
    assert_eq!(Instruction::from_opcode((0xE, 1, 0xA, 1)), Some(Instruction::SkipKeyRelease));
    assert_eq!(Instruction::from_opcode((0xF, 1, 0, 7)), Some(Instruction::SetVXToTimer));
    assert_eq!(Instruction::from_opcode((0xF, 1, 1, 5)), Some(Instruction::SetTimerToVX));
    assert_eq!(Instruction::from_opcode((0xF, 1, 1, 8)), Some(Instruction::SetSoundTimerToVX));
    assert_eq!(Instruction::from_opcode((0xF, 1, 1, 0xE)), Some(Instruction::AddToIndex));
    assert_eq!(Instruction::from_opcode((0xF, 1, 0, 0xA)), Some(Instruction::WaitKey));
    assert_eq!(Instruction::from_opcode((0xF, 1, 2, 9)), Some(Instruction::FontCharacter));
    assert_eq!(
        Instruction::from_opcode((0xF, 1, 3, 3)),
        Some(Instruction::BinaryCodedDecimalConversion)
    );
    assert_eq!(Instruction::from_opcode((0xF, 1, 5, 5)), Some(Instruction::StoreMemory));
    assert_eq!(Instruction::from_opcode((0xF, 1, 6, 5)), Some(Instruction::LoadMemory));
}

#[test]
fn decode_unrecognized_patterns() {
    assert_eq!(Instruction::from_opcode((0, 1, 2, 3)), None);
    assert_eq!(Instruction::from_opcode((5, 1, 2, 1)), None);
    assert_eq!(Instruction::from_opcode((9, 1, 2, 5)), None);
    assert_eq!(Instruction::from_opcode((8, 1, 2, 8)), None);
    assert_eq!(Instruction::from_opcode((0xE, 1, 0, 0)), None);
    assert_eq!(Instruction::from_opcode((0xF, 1, 7, 7)), None);
    assert_eq!(Instruction::from_opcode((0xF, 0xF, 0xF, 0xF)), None);
}
