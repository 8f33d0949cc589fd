use chip8::machine::{Chip8, RuntimeError};
use chip8::opcode::OpcodeError;

const NO_KEYS: [bool; 16] = [false; 16];

#[test]
fn add_program_scenario() {
    // load 5 into V0, load 5 into V1, add V1 into V0
    let mut c = Chip8::new();
    c.load_program(&[0x60, 0x05, 0x61, 0x05, 0x80, 0x14]).unwrap();
    c.speed = 0;
    for _ in 0..3 {
        assert_eq!(c.cycle(NO_KEYS), Ok(()));
    }
    assert_eq!(c.regs[0], 10);
    assert_eq!(c.regs[1], 5);
    assert_eq!(c.regs[0xF], 0);
    assert_eq!(c.pc, 0x200 + 6);
}

#[test]
fn jump_to_self_scenario() {
    let mut c = Chip8::new();
    c.load_program(&[0x12, 0x00]).unwrap();
    for _ in 0..25 {
        assert_eq!(c.cycle(NO_KEYS), Ok(()));
        assert_eq!(c.pc, 0x200);
    }
}

#[test]
fn cycle_propagates_decode_error() {
    let mut c = Chip8::new();
    c.load_program(&[0x00, 0x00]).unwrap();
    c.speed = 0;
    assert_eq!(
        c.cycle(NO_KEYS),
        Err(RuntimeError::OpcodeErr(OpcodeError::UnrecognizedOpcode(0)))
    );
}

#[test]
fn cycle_fetch_out_of_bounds() {
    let mut c = Chip8::new();
    c.speed = 0;
    c.pc = 0xFFF;
    assert_eq!(c.cycle(NO_KEYS), Err(RuntimeError::AddressOutOfBounds(0xFFF)));
}

#[test]
fn cycle_executes_speed_plus_one_instructions() {
    // V0 += 1, then jump back over it; with speed 1 each cycle runs both
    let mut c = Chip8::new();
    c.load_program(&[0x70, 0x01, 0x12, 0x00]).unwrap();
    c.speed = 1;
    assert_eq!(c.cycle(NO_KEYS), Ok(()));
    assert_eq!(c.regs[0], 1);
    assert_eq!(c.pc, 0x200);
    assert_eq!(c.cycle(NO_KEYS), Ok(()));
    assert_eq!(c.regs[0], 2);
}

#[test]
fn skip_equal_const_skips() {
    // V0 == 5: skip the next instruction (which would be unrecognized)
    let mut c = Chip8::new();
    c.load_program(&[0x60, 0x05, 0x30, 0x05, 0x00, 0x00, 0x12, 0x06]).unwrap();
    c.speed = 0;
    assert_eq!(c.cycle(NO_KEYS), Ok(())); // 0x6005
    assert_eq!(c.cycle(NO_KEYS), Ok(())); // 0x3005 skips the bad word
    assert_eq!(c.pc, 0x206);
    assert_eq!(c.cycle(NO_KEYS), Ok(())); // jump to self at 0x206
    assert_eq!(c.pc, 0x206);
}

#[test]
fn skip_not_equal_const_falls_through() {
    let mut c = Chip8::new();
    c.load_program(&[0x40, 0x05, 0x12, 0x02]).unwrap();
    c.speed = 0;
    // V0 == 0 != 5 would skip, so 0x4005 (not-equal) does skip here;
    // use equal form instead: V0 != 5, 0x3005 must not skip
    c.memory[0x200] = 0x30;
    assert_eq!(c.cycle(NO_KEYS), Ok(()));
    assert_eq!(c.pc, 0x202);
}

#[test]
fn skip_regs_equal() {
    let mut c = Chip8::new();
    // V0 and V1 both zero: 5XY0 skips two bytes
    c.load_program(&[0x50, 0x10, 0x00, 0x00, 0x12, 0x04]).unwrap();
    c.speed = 0;
    assert_eq!(c.cycle(NO_KEYS), Ok(()));
    assert_eq!(c.pc, 0x204);
}

#[test]
fn skip_if_key_pressed() {
    let mut c = Chip8::new();
    c.load_program(&[0xE0, 0x9E, 0x00, 0x00, 0x12, 0x04]).unwrap();
    c.speed = 0;
    c.regs[0] = 7;
    let mut keys = NO_KEYS;
    keys[7] = true;
    assert_eq!(c.cycle(keys), Ok(()));
    assert_eq!(c.pc, 0x204);
}

#[test]
fn skip_if_key_not_pressed() {
    let mut c = Chip8::new();
    c.load_program(&[0xE0, 0xA1, 0x00, 0x00, 0x12, 0x04]).unwrap();
    c.speed = 0;
    c.regs[0] = 7;
    assert_eq!(c.cycle(NO_KEYS), Ok(()));
    assert_eq!(c.pc, 0x204);
}

#[test]
fn wait_for_key_suspends_then_resolves() {
    // store the next key press into V2, then spin
    let mut c = Chip8::new();
    c.load_program(&[0xF2, 0x0A, 0x12, 0x02]).unwrap();
    c.speed = 0;
    assert_eq!(c.cycle(NO_KEYS), Ok(()));
    assert_eq!(c.awaiting_key, Some(2));
    assert_eq!(c.pc, 0x202);
    // while the wait is pending no instruction executes, but timers tick
    c.delay_timer = 5;
    assert_eq!(c.cycle(NO_KEYS), Ok(()));
    assert_eq!(c.awaiting_key, Some(2));
    assert_eq!(c.pc, 0x202);
    assert_eq!(c.delay_timer, 4);
    // the lowest pressed key wins and the wait clears
    let mut keys = NO_KEYS;
    keys[0xB] = true;
    keys[0x5] = true;
    assert_eq!(c.cycle(keys), Ok(()));
    assert_eq!(c.awaiting_key, None);
    assert_eq!(c.regs[2], 0x5);
    assert_eq!(c.pc, 0x202); // the jump-to-self executed this cycle
}

#[test]
fn call_and_return_through_cycles() {
    // call a routine that loads V3 and returns
    let mut c = Chip8::new();
    c.load_program(&[0x22, 0x06, 0x12, 0x02, 0x00, 0x00, 0x63, 0x2A, 0x00, 0xEE]).unwrap();
    c.speed = 0;
    assert_eq!(c.cycle(NO_KEYS), Ok(())); // call 0x206
    assert_eq!(c.pc, 0x206);
    assert_eq!(c.stack, vec![0x202]);
    assert_eq!(c.cycle(NO_KEYS), Ok(())); // V3 = 0x2A
    assert_eq!(c.regs[3], 0x2A);
    assert_eq!(c.cycle(NO_KEYS), Ok(())); // return
    assert_eq!(c.pc, 0x202);
    assert!(c.stack.is_empty());
}

#[test]
fn random_masked_through_program() {
    // CXNN with a zero mask pins V1 to zero whatever byte was drawn
    let mut c = Chip8::new();
    c.load_program(&[0xC1, 0x00, 0x12, 0x02]).unwrap();
    c.speed = 0;
    c.regs[1] = 0x77;
    assert_eq!(c.cycle(NO_KEYS), Ok(()));
    assert_eq!(c.regs[1], 0);
}
