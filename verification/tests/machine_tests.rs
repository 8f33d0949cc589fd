use chip8::machine::{Chip8, RuntimeError};
use chip8::opcode::{Opcode, SetRegMode};

const NO_KEYS: [bool; 16] = [false; 16];

fn alu(mode: SetRegMode, x: u8, y: u8) -> Opcode {
    Opcode::SetRegToReg { regs: (x, y), mode }
}

#[test]
fn new_machine_state() {
    let c = Chip8::new();
    assert_eq!(c.pc, 0x200);
    assert_eq!(c.address_reg, 0);
    assert_eq!(c.speed, 7);
    assert_eq!(c.delay_timer, 0);
    assert_eq!(c.sound_timer, 0);
    assert!(c.stack.is_empty());
    assert_eq!(c.awaiting_key, None);
    assert!(c.regs.iter().all(|&r| r == 0));
    assert!(c.screen.iter().all(|&p| !p));
    // the font table sits at 0x50: glyph 0 starts with 0xF0, glyph F ends 0x80
    assert_eq!(c.memory[0x50], 0xF0);
    assert_eq!(c.memory[0x51], 0x90);
    assert_eq!(c.memory[0x9F], 0x80);
    // nothing below or above the font table
    assert_eq!(c.memory[0x4F], 0);
    assert_eq!(c.memory[0xA0], 0);
    assert_eq!(c.memory[0x200], 0);
}

#[test]
fn load_program_places_bytes() {
    let mut c = Chip8::new();
    let prog = [0x60u8, 0x05, 0x61, 0x05];
    assert_eq!(c.load_program(&prog), Ok(()));
    assert_eq!(c.memory[0x200], 0x60);
    assert_eq!(c.memory[0x201], 0x05);
    assert_eq!(c.memory[0x202], 0x61);
    assert_eq!(c.memory[0x203], 0x05);
    assert_eq!(c.memory[0x204], 0);
}

#[test]
fn load_program_rejects_oversized() {
    let mut c = Chip8::new();
    let prog = vec![0u8; 4096 - 0x200 + 1];
    assert_eq!(
        c.load_program(&prog),
        Err(RuntimeError::AddressOutOfBounds(0x1000))
    );
    // a maximal image still fits
    let prog = vec![0xAAu8; 4096 - 0x200];
    assert_eq!(c.load_program(&prog), Ok(()));
    assert_eq!(c.memory[0xFFF], 0xAA);
}

#[test]
fn add_overflow_sets_flag() {
    let mut c = Chip8::new();
    c.regs[0] = 200;
    c.regs[1] = 100;
    assert_eq!(c.execute_opcode(alu(SetRegMode::Add, 0, 1), NO_KEYS), Ok(()));
    assert_eq!(c.regs[0], 44); // (200 + 100) mod 256
    assert_eq!(c.regs[0xF], 1);
}

#[test]
fn add_without_overflow_clears_flag() {
    let mut c = Chip8::new();
    c.regs[0xF] = 1; // the flag is cleared before the operation
    c.regs[0] = 5;
    c.regs[1] = 5;
    assert_eq!(c.execute_opcode(alu(SetRegMode::Add, 0, 1), NO_KEYS), Ok(()));
    assert_eq!(c.regs[0], 10);
    assert_eq!(c.regs[0xF], 0);
}

#[test]
fn subtract_borrow_clears_flag() {
    let mut c = Chip8::new();
    c.regs[2] = 10;
    c.regs[3] = 20;
    assert_eq!(c.execute_opcode(alu(SetRegMode::Subtract, 2, 3), NO_KEYS), Ok(()));
    assert_eq!(c.regs[2], 246); // (10 - 20) mod 256
    assert_eq!(c.regs[0xF], 0);
}

#[test]
fn subtract_without_borrow_sets_flag() {
    let mut c = Chip8::new();
    c.regs[2] = 20;
    c.regs[3] = 10;
    assert_eq!(c.execute_opcode(alu(SetRegMode::Subtract, 2, 3), NO_KEYS), Ok(()));
    assert_eq!(c.regs[2], 10);
    assert_eq!(c.regs[0xF], 1);
}

#[test]
fn inverse_subtract() {
    let mut c = Chip8::new();
    c.regs[2] = 10;
    c.regs[3] = 20;
    assert_eq!(
        c.execute_opcode(alu(SetRegMode::InverseSubtract, 2, 3), NO_KEYS),
        Ok(())
    );
    assert_eq!(c.regs[2], 10); // 20 - 10
    assert_eq!(c.regs[0xF], 1);
}

#[test]
fn shift_left_keeps_high_bit_masked() {
    let mut c = Chip8::new();
    c.regs[4] = 0b1000_0001;
    assert_eq!(c.execute_opcode(alu(SetRegMode::ShiftLeft, 4, 9), NO_KEYS), Ok(()));
    assert_eq!(c.regs[4], 0b0000_0010);
    assert_eq!(c.regs[0xF], 128); // the pre-shift high bit, masked to bit 7
}

#[test]
fn shift_right_keeps_low_bit() {
    let mut c = Chip8::new();
    c.regs[4] = 0b1000_0001;
    assert_eq!(c.execute_opcode(alu(SetRegMode::ShiftRight, 4, 9), NO_KEYS), Ok(()));
    assert_eq!(c.regs[4], 0b0100_0000);
    assert_eq!(c.regs[0xF], 1);
}

#[test]
fn bitwise_ops_leave_flag_alone() {
    let mut c = Chip8::new();
    c.regs[0xF] = 7;
    c.regs[0] = 0b1100;
    c.regs[1] = 0b1010;
    assert_eq!(c.execute_opcode(alu(SetRegMode::Or, 0, 1), NO_KEYS), Ok(()));
    assert_eq!(c.regs[0], 0b1110);
    c.regs[0] = 0b1100;
    assert_eq!(c.execute_opcode(alu(SetRegMode::And, 0, 1), NO_KEYS), Ok(()));
    assert_eq!(c.regs[0], 0b1000);
    c.regs[0] = 0b1100;
    assert_eq!(c.execute_opcode(alu(SetRegMode::Xor, 0, 1), NO_KEYS), Ok(()));
    assert_eq!(c.regs[0], 0b0110);
    c.regs[0] = 0b1100;
    assert_eq!(c.execute_opcode(alu(SetRegMode::Copy, 0, 1), NO_KEYS), Ok(()));
    assert_eq!(c.regs[0], 0b1010);
    assert_eq!(c.regs[0xF], 7);
}

#[test]
fn constant_add_wraps_without_flag() {
    let mut c = Chip8::new();
    c.regs[0xF] = 9;
    c.regs[3] = 250;
    assert_eq!(
        c.execute_opcode(Opcode::SetRegToConst { add: true, reg: 3, value: 10 }, NO_KEYS),
        Ok(())
    );
    assert_eq!(c.regs[3], 4); // (250 + 10) mod 256
    assert_eq!(c.regs[0xF], 9); // untouched
}

#[test]
fn return_on_empty_stack_underflows_and_keeps_pc() {
    let mut c = Chip8::new();
    c.pc = 0x246;
    assert_eq!(
        c.execute_opcode(Opcode::Return, NO_KEYS),
        Err(RuntimeError::EmptyCallStack)
    );
    assert_eq!(c.pc, 0x246);
}

#[test]
fn call_then_return() {
    let mut c = Chip8::new();
    c.pc = 0x202;
    assert_eq!(c.execute_opcode(Opcode::Call(0x400), NO_KEYS), Ok(()));
    assert_eq!(c.pc, 0x400);
    assert_eq!(c.stack, vec![0x202]);
    assert_eq!(c.execute_opcode(Opcode::Return, NO_KEYS), Ok(()));
    assert_eq!(c.pc, 0x202);
    assert!(c.stack.is_empty());
}

#[test]
fn jump_with_offset() {
    let mut c = Chip8::new();
    c.regs[0] = 0x10;
    assert_eq!(
        c.execute_opcode(Opcode::JumpTo { addr: 0x300, plus_v0: true }, NO_KEYS),
        Ok(())
    );
    assert_eq!(c.pc, 0x310);
}

#[test]
fn bcd_of_255() {
    let mut c = Chip8::new();
    c.regs[7] = 255;
    c.address_reg = 0x300;
    assert_eq!(c.execute_opcode(Opcode::RegToBCD(7), NO_KEYS), Ok(()));
    assert_eq!(c.memory[0x300], 2);
    assert_eq!(c.memory[0x301], 5);
    assert_eq!(c.memory[0x302], 5);
}

#[test]
fn bcd_of_7() {
    let mut c = Chip8::new();
    c.regs[7] = 7;
    c.address_reg = 0x300;
    assert_eq!(c.execute_opcode(Opcode::RegToBCD(7), NO_KEYS), Ok(()));
    assert_eq!(c.memory[0x300], 0);
    assert_eq!(c.memory[0x301], 0);
    assert_eq!(c.memory[0x302], 7);
}

#[test]
fn dump_copies_inclusive_bound() {
    let mut c = Chip8::new();
    for i in 0..16 {
        c.regs[i] = 10 + i as u8;
    }
    c.address_reg = 0x300;
    assert_eq!(c.execute_opcode(Opcode::DumpRegsToAddr(2), NO_KEYS), Ok(()));
    // exactly registers 0..=2: three bytes
    assert_eq!(c.memory[0x300], 10);
    assert_eq!(c.memory[0x301], 11);
    assert_eq!(c.memory[0x302], 12);
    assert_eq!(c.memory[0x303], 0); // register 3 was not copied
}

#[test]
fn load_copies_inclusive_bound() {
    let mut c = Chip8::new();
    c.memory[0x300] = 40;
    c.memory[0x301] = 41;
    c.memory[0x302] = 42;
    c.memory[0x303] = 43;
    c.regs[3] = 99;
    c.address_reg = 0x300;
    assert_eq!(c.execute_opcode(Opcode::LoadRegsFromAddr(2), NO_KEYS), Ok(()));
    assert_eq!(c.regs[0], 40);
    assert_eq!(c.regs[1], 41);
    assert_eq!(c.regs[2], 42);
    assert_eq!(c.regs[3], 99); // register 3 was not loaded
}

#[test]
fn dump_out_of_bounds() {
    let mut c = Chip8::new();
    c.address_reg = 0xFFE;
    assert_eq!(
        c.execute_opcode(Opcode::DumpRegsToAddr(2), NO_KEYS),
        Err(RuntimeError::AddressOutOfBounds(0xFFE))
    );
}

#[test]
fn font_glyph_addressing() {
    let mut c = Chip8::new();
    c.regs[1] = 0xA;
    assert_eq!(c.execute_opcode(Opcode::SetAddressRegToCharInReg(1), NO_KEYS), Ok(()));
    assert_eq!(c.address_reg, 0x50 + 5 * 0xA);
}

#[test]
fn timers_set_read_and_tick() {
    let mut c = Chip8::new();
    c.regs[2] = 3;
    assert_eq!(c.execute_opcode(Opcode::SetDelayTimerToReg(2), NO_KEYS), Ok(()));
    assert_eq!(c.delay_timer, 3);
    assert_eq!(c.execute_opcode(Opcode::SetSoundTimerToReg(2), NO_KEYS), Ok(()));
    assert_eq!(c.sound_timer, 3);
    assert_eq!(c.execute_opcode(Opcode::SetRegToDelayTimer(5), NO_KEYS), Ok(()));
    assert_eq!(c.regs[5], 3);
    // a cycle over a jump-to-self program ticks both timers once
    c.load_program(&[0x12, 0x00]).unwrap();
    c.speed = 0;
    c.pc = 0x200;
    assert_eq!(c.cycle(NO_KEYS), Ok(()));
    assert_eq!(c.delay_timer, 2);
    assert_eq!(c.sound_timer, 2);
}

#[test]
fn random_with_zero_mask_is_zero() {
    // the drawn byte is masked: a zero mask pins the result
    let mut c = Chip8::new();
    c.regs[1] = 0xAB;
    assert_eq!(
        c.execute_opcode(Opcode::SetRegToRandom { reg: 1, mask: 0 }, NO_KEYS),
        Ok(())
    );
    assert_eq!(c.regs[1], 0);
}

#[test]
fn random_respects_mask() {
    let mut c = Chip8::new();
    for _ in 0..32 {
        assert_eq!(
            c.execute_opcode(Opcode::SetRegToRandom { reg: 1, mask: 0x0F }, NO_KEYS),
            Ok(())
        );
        assert!(c.regs[1] < 16);
    }
}

#[test]
fn set_pixel_toggles_and_wraps() {
    let mut c = Chip8::new();
    assert!(!c.set_pixel(3, 1));
    assert!(c.screen[64 + 3]);
    // both axes wrap
    assert!(c.set_pixel(64 + 3, 32 + 1));
    assert!(!c.screen[64 + 3]);
}

#[test]
fn clear_screen_clears() {
    let mut c = Chip8::new();
    c.set_pixel(10, 10);
    c.clear_screen();
    assert!(c.screen.iter().all(|&p| !p));
}

#[test]
fn draw_sets_pixels_and_reports_no_collision() {
    let mut c = Chip8::new();
    c.memory[0x300] = 0b1010_0000;
    c.address_reg = 0x300;
    c.regs[0] = 4; // x
    c.regs[1] = 2; // y
    c.regs[0xF] = 1; // cleared before drawing
    assert_eq!(
        c.execute_opcode(Opcode::DrawSprite { regs: (0, 1), rows: 1 }, NO_KEYS),
        Ok(())
    );
    assert_eq!(c.regs[0xF], 0);
    assert!(c.screen[2 * 64 + 4]);
    assert!(!c.screen[2 * 64 + 5]);
    assert!(c.screen[2 * 64 + 6]);
}

#[test]
fn draw_twice_restores_screen_and_collides() {
    let mut c = Chip8::new();
    c.memory[0x300] = 0xFF;
    c.memory[0x301] = 0x81;
    c.address_reg = 0x300;
    c.regs[0] = 60; // wraps past the right edge
    c.regs[1] = 31; // wraps past the bottom edge
    let op = Opcode::DrawSprite { regs: (0, 1), rows: 2 };
    assert_eq!(c.execute_opcode(op, NO_KEYS), Ok(()));
    assert_eq!(c.regs[0xF], 0);
    let drawn: Vec<usize> = (0..2048).filter(|&p| c.screen[p]).collect();
    assert!(!drawn.is_empty());
    let op = Opcode::DrawSprite { regs: (0, 1), rows: 2 };
    assert_eq!(c.execute_opcode(op, NO_KEYS), Ok(()));
    assert_eq!(c.regs[0xF], 1); // the first draw set pixels, so the second unsets
    assert!(c.screen.iter().all(|&p| !p)); // XOR idempotence
}

#[test]
fn draw_out_of_bounds_memory() {
    let mut c = Chip8::new();
    c.address_reg = 0xFFF;
    assert_eq!(
        c.execute_opcode(Opcode::DrawSprite { regs: (0, 1), rows: 2 }, NO_KEYS),
        Err(RuntimeError::AddressOutOfBounds(0xFFF))
    );
}

#[test]
fn clone_is_independent() {
    let mut c = Chip8::new();
    c.regs[3] = 9;
    c.stack.push(0x222);
    let snapshot = c.clone();
    c.regs[3] = 1;
    c.memory[0x400] = 7;
    c.stack.pop();
    assert_eq!(snapshot.regs[3], 9);
    assert_eq!(snapshot.memory[0x400], 0);
    assert_eq!(snapshot.stack, vec![0x222]);
}

#[test]
fn font_table_matches_byte_for_byte() {
    let expected: [u8; 80] = [
        0xF0, 0x90, 0x90, 0x90, 0xF0, // 0
        0x20, 0x60, 0x20, 0x20, 0x70, // 1
        0xF0, 0x10, 0xF0, 0x80, 0xF0, // 2
        0xF0, 0x10, 0xF0, 0x10, 0xF0, // 3
        0x90, 0x90, 0xF0, 0x10, 0x10, // 4
        0xF0, 0x80, 0xF0, 0x10, 0xF0, // 5
        0xF0, 0x80, 0xF0, 0x90, 0xF0, // 6
        0xF0, 0x10, 0x20, 0x40, 0x40, // 7
        0xF0, 0x90, 0xF0, 0x90, 0xF0, // 8
        0xF0, 0x90, 0xF0, 0x10, 0xF0, // 9
        0xF0, 0x90, 0xF0, 0x90, 0x90, // A
        0xE0, 0x90, 0xE0, 0x90, 0xE0, // B
        0xF0, 0x80, 0x80, 0x80, 0xF0, // C
        0xE0, 0x90, 0x90, 0x90, 0xE0, // D
        0xF0, 0x80, 0xF0, 0x80, 0xF0, // E
        0xF0, 0x80, 0xF0, 0x80, 0x80, // F
    ];
    let c = Chip8::new();
    assert_eq!(&c.memory[0x50..0xA0], &expected[..]);
}

#[test]
fn key_skip_with_invalid_register_value() {
    let mut c = Chip8::new();
    c.regs[0] = 20; // not a key index
    c.pc = 0x300;
    assert_eq!(
        c.execute_opcode(
            Opcode::SkipIfKeyInRegPressed { not_pressed: false, reg: 0 },
            NO_KEYS
        ),
        Err(RuntimeError::InvalidRegister(20))
    );
    assert_eq!(c.pc, 0x300);
}

#[test]
fn address_register_ops() {
    let mut c = Chip8::new();
    assert_eq!(c.execute_opcode(Opcode::SetAddressReg(0xFFF), NO_KEYS), Ok(()));
    assert_eq!(c.address_reg, 0xFFF);
    c.regs[5] = 5;
    assert_eq!(c.execute_opcode(Opcode::AddRegToAddressReg(5), NO_KEYS), Ok(()));
    assert_eq!(c.address_reg, 0x1004);
    // the 16-bit address register wraps
    c.address_reg = 0xFFFF;
    c.regs[5] = 2;
    assert_eq!(c.execute_opcode(Opcode::AddRegToAddressReg(5), NO_KEYS), Ok(()));
    assert_eq!(c.address_reg, 1);
}

#[test]
fn delay_timer_read_truncates() {
    let mut c = Chip8::new();
    c.delay_timer = 0x1FF;
    assert_eq!(c.execute_opcode(Opcode::SetRegToDelayTimer(4), NO_KEYS), Ok(()));
    assert_eq!(c.regs[4], 0xFF);
}
