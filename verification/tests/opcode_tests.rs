use chip8::opcode::{Opcode, OpcodeError, SetRegMode};

#[test]
fn decode_clear_screen() {
    assert_eq!(Opcode::from_u16(0x00E0), Ok(Opcode::ClearScreen));
}

#[test]
fn decode_return() {
    assert_eq!(Opcode::from_u16(0x00EE), Ok(Opcode::Return));
}

#[test]
fn decode_jump() {
    assert_eq!(
        Opcode::from_u16(0x1234),
        Ok(Opcode::JumpTo { addr: 0x234, plus_v0: false })
    );
    assert_eq!(
        Opcode::from_u16(0xB234),
        Ok(Opcode::JumpTo { addr: 0x234, plus_v0: true })
    );
}

#[test]
fn decode_call() {
    assert_eq!(Opcode::from_u16(0x2ABC), Ok(Opcode::Call(0xABC)));
}

#[test]
fn decode_skip_const() {
    assert_eq!(
        Opcode::from_u16(0x3A42),
        Ok(Opcode::SkipIfRegEqualConst { not_equal: false, reg: 0xA, value: 0x42 })
    );
    assert_eq!(
        Opcode::from_u16(0x4A42),
        Ok(Opcode::SkipIfRegEqualConst { not_equal: true, reg: 0xA, value: 0x42 })
    );
}

#[test]
fn decode_skip_regs() {
    assert_eq!(
        Opcode::from_u16(0x5120),
        Ok(Opcode::SkipIfRegsEqual { not_equal: false, regs: (1, 2) })
    );
    assert_eq!(
        Opcode::from_u16(0x9120),
        Ok(Opcode::SkipIfRegsEqual { not_equal: true, regs: (1, 2) })
    );
    assert_eq!(
        Opcode::from_u16(0x5121),
        Err(OpcodeError::UnrecognizedOpcode(0x5121))
    );
}

#[test]
fn decode_set_const() {
    assert_eq!(
        Opcode::from_u16(0x6321),
        Ok(Opcode::SetRegToConst { add: false, reg: 3, value: 0x21 })
    );
    assert_eq!(
        Opcode::from_u16(0x7321),
        Ok(Opcode::SetRegToConst { add: true, reg: 3, value: 0x21 })
    );
}

#[test]
fn decode_alu() {
    assert_eq!(
        Opcode::from_u16(0x8124),
        Ok(Opcode::SetRegToReg { regs: (1, 2), mode: SetRegMode::Add })
    );
    assert_eq!(
        Opcode::from_u16(0x8AB0),
        Ok(Opcode::SetRegToReg { regs: (0xA, 0xB), mode: SetRegMode::Copy })
    );
    assert_eq!(
        Opcode::from_u16(0x812E),
        Ok(Opcode::SetRegToReg { regs: (1, 2), mode: SetRegMode::ShiftLeft })
    );
}

#[test]
fn decode_alu_bad_mode() {
    assert_eq!(
        Opcode::from_u16(0x8128),
        Err(OpcodeError::InvalidModeForSetRegToReg(8))
    );
    assert_eq!(
        Opcode::from_u16(0x812F),
        Err(OpcodeError::InvalidModeForSetRegToReg(0xF))
    );
}

#[test]
fn decode_addr_and_misc() {
    assert_eq!(Opcode::from_u16(0xA123), Ok(Opcode::SetAddressReg(0x123)));
    assert_eq!(
        Opcode::from_u16(0xC1F0),
        Ok(Opcode::SetRegToRandom { reg: 1, mask: 0xF0 })
    );
    assert_eq!(
        Opcode::from_u16(0xD125),
        Ok(Opcode::DrawSprite { regs: (1, 2), rows: 5 })
    );
}

#[test]
fn decode_key_family() {
    assert_eq!(
        Opcode::from_u16(0xE39E),
        Ok(Opcode::SkipIfKeyInRegPressed { not_pressed: false, reg: 3 })
    );
    assert_eq!(
        Opcode::from_u16(0xE3A1),
        Ok(Opcode::SkipIfKeyInRegPressed { not_pressed: true, reg: 3 })
    );
    assert_eq!(
        Opcode::from_u16(0xE300),
        Err(OpcodeError::UnrecognizedOpcode(0xE300))
    );
}

#[test]
fn decode_f_family() {
    assert_eq!(Opcode::from_u16(0xF107), Ok(Opcode::SetRegToDelayTimer(1)));
    assert_eq!(Opcode::from_u16(0xF10A), Ok(Opcode::WaitForKeyInReg(1)));
    assert_eq!(Opcode::from_u16(0xF115), Ok(Opcode::SetDelayTimerToReg(1)));
    assert_eq!(Opcode::from_u16(0xF118), Ok(Opcode::SetSoundTimerToReg(1)));
    assert_eq!(Opcode::from_u16(0xF11E), Ok(Opcode::AddRegToAddressReg(1)));
    assert_eq!(Opcode::from_u16(0xF129), Ok(Opcode::SetAddressRegToCharInReg(1)));
    assert_eq!(Opcode::from_u16(0xF133), Ok(Opcode::RegToBCD(1)));
    assert_eq!(Opcode::from_u16(0xF155), Ok(Opcode::DumpRegsToAddr(1)));
    assert_eq!(Opcode::from_u16(0xF165), Ok(Opcode::LoadRegsFromAddr(1)));
    assert_eq!(
        Opcode::from_u16(0xF1FF),
        Err(OpcodeError::UnrecognizedOpcode(0xF1FF))
    );
}

#[test]
fn decode_unrecognized() {
    assert_eq!(Opcode::from_u16(0x0000), Err(OpcodeError::UnrecognizedOpcode(0x0000)));
    assert_eq!(Opcode::from_u16(0x00E1), Err(OpcodeError::UnrecognizedOpcode(0x00E1)));
    assert_eq!(Opcode::from_u16(0x0100), Err(OpcodeError::UnrecognizedOpcode(0x0100)));
    assert_eq!(Opcode::from_u16(0x00F0), Err(OpcodeError::UnrecognizedOpcode(0x00F0)));
}

#[test]
fn mode_from_u8() {
    assert_eq!(SetRegMode::from_u8(0x0), Some(SetRegMode::Copy));
    assert_eq!(SetRegMode::from_u8(0x1), Some(SetRegMode::Or));
    assert_eq!(SetRegMode::from_u8(0x2), Some(SetRegMode::And));
    assert_eq!(SetRegMode::from_u8(0x3), Some(SetRegMode::Xor));
    assert_eq!(SetRegMode::from_u8(0x4), Some(SetRegMode::Add));
    assert_eq!(SetRegMode::from_u8(0x5), Some(SetRegMode::Subtract));
    assert_eq!(SetRegMode::from_u8(0x6), Some(SetRegMode::ShiftRight));
    assert_eq!(SetRegMode::from_u8(0x7), Some(SetRegMode::InverseSubtract));
    assert_eq!(SetRegMode::from_u8(0xE), Some(SetRegMode::ShiftLeft));
    assert_eq!(SetRegMode::from_u8(0x8), None);
    assert_eq!(SetRegMode::from_u8(0xF), None);
}

#[test]
fn encode_decode_round_trip() {
    let ops = vec![
        Opcode::ClearScreen,
        Opcode::Return,
        Opcode::JumpTo { addr: 0xABC, plus_v0: false },
        Opcode::JumpTo { addr: 0xABC, plus_v0: true },
        Opcode::Call(0x321),
        Opcode::SkipIfRegEqualConst { not_equal: false, reg: 7, value: 0xFF },
        Opcode::SkipIfRegEqualConst { not_equal: true, reg: 0, value: 0 },
        Opcode::SkipIfRegsEqual { not_equal: false, regs: (0xF, 0) },
        Opcode::SkipIfRegsEqual { not_equal: true, regs: (4, 5) },
        Opcode::SetRegToConst { add: false, reg: 9, value: 0x80 },
        Opcode::SetRegToConst { add: true, reg: 9, value: 0x80 },
        Opcode::SetRegToReg { regs: (1, 2), mode: SetRegMode::Copy },
        Opcode::SetRegToReg { regs: (1, 2), mode: SetRegMode::Or },
        Opcode::SetRegToReg { regs: (1, 2), mode: SetRegMode::And },
        Opcode::SetRegToReg { regs: (1, 2), mode: SetRegMode::Xor },
        Opcode::SetRegToReg { regs: (1, 2), mode: SetRegMode::Add },
        Opcode::SetRegToReg { regs: (1, 2), mode: SetRegMode::Subtract },
        Opcode::SetRegToReg { regs: (1, 2), mode: SetRegMode::InverseSubtract },
        Opcode::SetRegToReg { regs: (1, 2), mode: SetRegMode::ShiftLeft },
        Opcode::SetRegToReg { regs: (1, 2), mode: SetRegMode::ShiftRight },
        Opcode::SetAddressReg(0xFFF),
        Opcode::SetRegToRandom { reg: 6, mask: 0x0F },
        Opcode::DrawSprite { regs: (3, 4), rows: 15 },
        Opcode::SkipIfKeyInRegPressed { not_pressed: false, reg: 2 },
        Opcode::SkipIfKeyInRegPressed { not_pressed: true, reg: 2 },
        Opcode::WaitForKeyInReg(0xF),
        Opcode::SetRegToDelayTimer(8),
        Opcode::SetDelayTimerToReg(8),
        Opcode::SetSoundTimerToReg(8),
        Opcode::AddRegToAddressReg(8),
        Opcode::SetAddressRegToCharInReg(8),
        Opcode::RegToBCD(8),
        Opcode::DumpRegsToAddr(8),
        Opcode::LoadRegsFromAddr(8),
    ];
    for op in ops {
        let word = op.to_u16();
        assert_eq!(Opcode::from_u16(word), Ok(op));
    }
}

#[test]
fn encode_known_words() {
    assert_eq!(Opcode::ClearScreen.to_u16(), 0x00E0);
    assert_eq!(Opcode::Return.to_u16(), 0x00EE);
    assert_eq!(Opcode::JumpTo { addr: 0x200, plus_v0: false }.to_u16(), 0x1200);
    assert_eq!(
        Opcode::SetRegToReg { regs: (0, 1), mode: SetRegMode::Add }.to_u16(),
        0x8014
    );
}
