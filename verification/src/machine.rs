//! The execution engine: all machine state (memory, registers, timers, call
//! stack, framebuffer, input-wait flag) and the stepping operation that
//! decodes and executes instructions and advances the timers.

use vstd::prelude::*;

use crate::opcode::{Opcode, OpcodeError, SetRegMode, spec_decode};

verus! {

pub const MEMORY_SIZE: usize = 4096;
pub const REGISTER_COUNT: usize = 16;
pub const SCREEN_WIDTH: usize = 64;
pub const SCREEN_HEIGHT: usize = 32;
pub const SCREEN_SIZE: usize = 2048;
pub const PROGRAM_START: u16 = 0x200;
pub const FONT_START: u16 = 0x50;

/// An error that aborts a stepping operation.
#[derive(Debug, PartialEq, Eq)]
pub enum RuntimeError {
    EmptyCallStack,
    InvalidRegister(u8),
    AddressOutOfBounds(u16),
    OpcodeErr(OpcodeError),
}

/// The mathematical model of the machine: what every contract of the engine
/// speaks about. The framebuffer is a row-major sequence of 64 x 32 pixels.
#[verifier::ext_equal]
pub struct State {
    pub memory: Seq<u8>,
    pub regs: Seq<u8>,
    pub address_reg: u16,
    pub pc: u16,
    pub stack: Seq<u16>,
    pub delay_timer: u16,
    pub sound_timer: u16,
    pub screen: Seq<bool>,
    pub awaiting_key: Option<usize>,
    pub speed: usize,
}

/// The machine. The framebuffer is stored row-major: the pixel at column x,
/// row y is `screen[y * 64 + x]`.
pub struct Chip8 {
    pub memory: [u8; 4096],
    pub regs: [u8; 16],
    pub address_reg: u16,
    pub pc: u16,
    pub stack: Vec<u16>,
    pub delay_timer: u16,
    pub sound_timer: u16,
    pub screen: [bool; 2048],
    pub awaiting_key: Option<usize>,
    pub speed: usize,
}

impl View for Chip8 {
    type V = State;

    open spec fn view(&self) -> State {
        State {
            memory: self.memory@,
            regs: self.regs@,
            address_reg: self.address_reg,
            pc: self.pc,
            stack: self.stack@,
            delay_timer: self.delay_timer,
            sound_timer: self.sound_timer,
            screen: self.screen@,
            awaiting_key: self.awaiting_key,
            speed: self.speed,
        }
    }
}

/// Well-formedness of a machine state: the fixed sizes of memory, register
/// file and framebuffer, a register index recorded by a pending key wait,
/// and room to compute `speed + 1`.
pub open spec fn wf(s: State) -> bool {
    &&& s.memory.len() == 4096
    &&& s.regs.len() == 16
    &&& s.screen.len() == 2048
    &&& (s.awaiting_key matches Some(r) ==> r < 16)
    &&& s.speed < usize::MAX
}

/// The fixed font sprite table: 16 glyphs for the hex digits, 5 bytes each.
pub open spec fn spec_font() -> Seq<u8> {
    seq![
        0xF0u8, 0x90, 0x90, 0x90, 0xF0, // 0
        0x20, 0x60, 0x20, 0x20, 0x70, // 1
        0xF0, 0x10, 0xF0, 0x80, 0xF0, // 2
        0xF0, 0x10, 0xF0, 0x10, 0xF0, // 3
        0x90, 0x90, 0xF0, 0x10, 0x10, // 4
        0xF0, 0x80, 0xF0, 0x10, 0xF0, // 5
        0xF0, 0x80, 0xF0, 0x90, 0xF0, // 6
        0xF0, 0x10, 0x20, 0x40, 0x40, // 7
        0xF0, 0x90, 0xF0, 0x90, 0xF0, // 8
        0xF0, 0x90, 0xF0, 0x10, 0xF0, // 9
        0xF0, 0x90, 0xF0, 0x90, 0x90, // A
        0xE0, 0x90, 0xE0, 0x90, 0xE0, // B
        0xF0, 0x80, 0x80, 0x80, 0xF0, // C
        0xE0, 0x90, 0x90, 0x90, 0xE0, // D
        0xF0, 0x80, 0xF0, 0x80, 0xF0, // E
        0xF0, 0x80, 0xF0, 0x80, 0x80, // F
    ]
}

/// A memory image with the font table written at its reserved base address.
pub open spec fn spec_with_font(m: Seq<u8>) -> Seq<u8> {
    Seq::new(m.len(), |i: int| if 0x50 <= i < 0xA0 { spec_font()[i - 0x50] } else { m[i] })
}

/// The state of a freshly constructed machine: cleared memory except for the
/// font table, cleared registers and screen, the program counter at the
/// program start address, and the default speed.
pub open spec fn spec_init() -> State {
    State {
        memory: spec_with_font(Seq::new(4096, |i: int| 0u8)),
        regs: Seq::new(16, |i: int| 0u8),
        address_reg: 0,
        pc: 0x200,
        stack: Seq::empty(),
        delay_timer: 0,
        sound_timer: 0,
        screen: Seq::new(2048, |i: int| false),
        awaiting_key: None,
        speed: 7,
    }
}

/// The font sprite table as bytes.
fn font_table() -> (t: [u8; 80])
    ensures
        t@ == spec_font(),
{
    let t: [u8; 80] = [
        0xF0, 0x90, 0x90, 0x90, 0xF0, // 0
        0x20, 0x60, 0x20, 0x20, 0x70, // 1
        0xF0, 0x10, 0xF0, 0x80, 0xF0, // 2
        0xF0, 0x10, 0xF0, 0x10, 0xF0, // 3
        0x90, 0x90, 0xF0, 0x10, 0x10, // 4
        0xF0, 0x80, 0xF0, 0x10, 0xF0, // 5
        0xF0, 0x80, 0xF0, 0x90, 0xF0, // 6
        0xF0, 0x10, 0x20, 0x40, 0x40, // 7
        0xF0, 0x90, 0xF0, 0x90, 0xF0, // 8
        0xF0, 0x90, 0xF0, 0x10, 0xF0, // 9
        0xF0, 0x90, 0xF0, 0x90, 0x90, // A
        0xE0, 0x90, 0xE0, 0x90, 0xE0, // B
        0xF0, 0x80, 0x80, 0x80, 0xF0, // C
        0xE0, 0x90, 0x90, 0x90, 0xE0, // D
        0xF0, 0x80, 0xF0, 0x80, 0xF0, // E
        0xF0, 0x80, 0xF0, 0x80, 0x80, // F
    ];
    proof {
        assert(t@ =~= spec_font());
    }
    t
}

impl Chip8 {
    /// A freshly constructed machine, with the font table pre-loaded.
    pub fn new() -> (c: Chip8)
        ensures
            c@ == spec_init(),
            wf(c@),
    {
        let mut chip8 = Chip8 {
            memory: [0; 4096],
            regs: [0; 16],
            address_reg: 0,
            pc: PROGRAM_START,
            stack: Vec::new(),
            delay_timer: 0,
            sound_timer: 0,
            screen: [false; 2048],
            awaiting_key: None,
            speed: 7,
        };
        chip8.inject_fontmap();
        proof {
            assert(chip8@ =~= spec_init());
        }
        chip8
    }

    /// Writes the font table at its reserved base address; the rest of the
    /// state is untouched.
    pub fn inject_fontmap(&mut self)
        ensures
            final(self)@ == (State { memory: spec_with_font(old(self)@.memory), ..old(self)@ }),
    {
        let font = font_table();
        let ghost pre = self@;
        let mut offset: usize = 0;
        while offset < 80
            invariant
                offset <= 80,
                font@ == spec_font(),
                self.regs@ == pre.regs,
                self.address_reg == pre.address_reg,
                self.pc == pre.pc,
                self.stack@ == pre.stack,
                self.delay_timer == pre.delay_timer,
                self.sound_timer == pre.sound_timer,
                self.screen@ == pre.screen,
                self.awaiting_key == pre.awaiting_key,
                self.speed == pre.speed,
                forall|i: int|
                    0 <= i < 4096 && (i < 0x50 || i >= 0x50 + offset) ==> #[trigger] self.memory@[i]
                        == pre.memory[i],
                forall|i: int|
                    0x50 <= i < 0x50 + offset ==> #[trigger] self.memory@[i]
                        == spec_font()[i - 0x50],
            decreases 80 - offset,
        {
            self.memory[FONT_START as usize + offset] = font[offset];
            offset += 1;
        }
        proof {
            assert forall|i: int| 0 <= i < 4096 implies self.memory@[i] == spec_with_font(
                pre.memory,
            )[i] by {}
            assert(self.memory@ =~= spec_with_font(pre.memory));
            assert(self@ =~= (State { memory: spec_with_font(pre.memory), ..pre }));
        }
    }

    /// Loads a program image verbatim at the program start address. An image
    /// longer than the memory left above that address is rejected whole, with
    /// the memory size as the out-of-bounds address.
    pub fn load_program(&mut self, program: &[u8]) -> (r: Result<(), RuntimeError>)
        requires
            wf(old(self)@),
        ensures
            wf(final(self)@),
            program@.len() <= 4096 - 0x200 ==> r == Ok::<(), RuntimeError>(()) && final(self)@
                == (State { memory: spec_load(old(self)@.memory, program@), ..old(self)@ }),
            program@.len() > 4096 - 0x200 ==> r == Err::<(), RuntimeError>(
                RuntimeError::AddressOutOfBounds(0x1000),
            ) && final(self)@ == old(self)@,
    {
        if program.len() > MEMORY_SIZE - PROGRAM_START as usize {
            return Err(RuntimeError::AddressOutOfBounds(0x1000));
        }
        let ghost pre = self@;
        let mut offset: usize = 0;
        while offset < program.len()
            invariant
                offset <= program@.len(),
                program@.len() <= 4096 - 0x200,
                self.regs@ == pre.regs,
                self.address_reg == pre.address_reg,
                self.pc == pre.pc,
                self.stack@ == pre.stack,
                self.delay_timer == pre.delay_timer,
                self.sound_timer == pre.sound_timer,
                self.screen@ == pre.screen,
                self.awaiting_key == pre.awaiting_key,
                self.speed == pre.speed,
                forall|i: int|
                    0 <= i < 4096 && (i < 0x200 || i >= 0x200 + offset)
                        ==> #[trigger] self.memory@[i] == pre.memory[i],
                forall|i: int|
                    0x200 <= i < 0x200 + offset ==> #[trigger] self.memory@[i] == program@[i
                        - 0x200],
            decreases program@.len() - offset,
        {
            self.memory[offset + PROGRAM_START as usize] = program[offset];
            offset += 1;
        }
        proof {
            assert forall|i: int| 0 <= i < 4096 implies self.memory@[i] == spec_load(
                pre.memory,
                program@,
            )[i] by {}
            assert(self.memory@ =~= spec_load(pre.memory, program@));
            assert(self@ =~= (State { memory: spec_load(pre.memory, program@), ..pre }));
        }
        Ok(())
    }

    /// Clears every pixel of the framebuffer; the rest of the state is
    /// untouched.
    pub fn clear_screen(&mut self)
        ensures
            final(self)@ == (State { screen: Seq::new(2048, |i: int| false), ..old(self)@ }),
    {
        self.screen = [false; 2048];
        proof {
            assert(self.screen@ =~= Seq::new(2048, |i: int| false));
            assert(self@ =~= (State { screen: Seq::new(2048, |i: int| false), ..old(self)@ }));
        }
    }

    /// Toggles the pixel at the given position, both axes wrapping around the
    /// screen edges, and reports whether the pixel was set before (that is,
    /// whether this toggle unset it).
    pub fn set_pixel(&mut self, x: usize, y: usize) -> (unset: bool)
        ensures
            ({
                let (s2, was_set) = spec_toggle(old(self)@.screen, x as int, y as int);
                final(self)@ == (State { screen: s2, ..old(self)@ }) && unset == was_set
            }),
    {
        let xm = x & 63;
        let ym = y & 31;
        proof {
            assert(x & 63 == x % 64) by (bit_vector);
            assert(y & 31 == y % 32) by (bit_vector);
        }
        let idx = ym * 64 + xm;
        let previous_state = self.screen[idx];
        self.screen[idx] = !previous_state;
        proof {
            assert(self@ =~= (State {
                screen: spec_toggle(old(self)@.screen, x as int, y as int).0,
                ..old(self)@
            }));
        }
        previous_state
    }

    /// Decrements both timers by one, stopping at zero.
    fn update_timers(&mut self)
        ensures
            final(self)@ == spec_tick_timers(old(self)@),
    {
        if self.delay_timer > 0 {
            self.delay_timer = self.delay_timer - 1;
        }
        if self.sound_timer > 0 {
            self.sound_timer = self.sound_timer - 1;
        }
        proof {
            assert(self@ =~= spec_tick_timers(old(self)@));
        }
    }
}

impl Chip8 {
    /// Executes one decoded instruction, the byte for the random-masked load
    /// given as an argument: the state changes exactly as `spec_step` says,
    /// for every value of that byte. An error leaves the state unchanged.
    pub fn execute_opcode_with(&mut self, opcode: Opcode, keys: [bool; 16], rand: u8) -> (r:
        Result<(), RuntimeError>)
        requires
            opcode.wf(),
            wf(old(self)@),
        ensures
            wf(final(self)@),
            final(self)@.speed == old(self)@.speed,
            ({
                let step = spec_step(old(self)@, opcode, keys@, rand);
                match step {
                    Ok(s2) => r == Ok::<(), RuntimeError>(()) && final(self)@ == s2,
                    Err(e) => r == Err::<(), RuntimeError>(e) && final(self)@ == old(self)@,
                }
            }),
    {
        match opcode {
            Opcode::ClearScreen => {
                self.clear_screen();
            },
            Opcode::Return => {
                self.pc = match self.stack.pop() {
                    Some(addr) => addr,
                    None => {
                        return Err(RuntimeError::EmptyCallStack);
                    },
                };
                proof {
                    assert(self@ =~= (State {
                        pc: old(self)@.stack.last(),
                        stack: old(self)@.stack.drop_last(),
                        ..old(self)@
                    }));
                }
            },
            Opcode::JumpTo { addr, plus_v0 } => {
                self.pc = addr;
                if plus_v0 {
                    self.pc = self.pc + self.regs[0] as u16;
                }
            },
            Opcode::Call(addr) => {
                self.stack.push(self.pc);
                self.pc = addr;
            },
            Opcode::SkipIfRegEqualConst { not_equal, reg, value } => {
                let mut should_jump = self.regs[reg as usize] == value;
                if not_equal {
                    should_jump = !should_jump;
                }
                if should_jump {
                    self.pc = self.pc.wrapping_add(2);
                }
            },
            Opcode::SkipIfRegsEqual { not_equal, regs } => {
                let (vx, vy) = regs;
                let mut should_jump = self.regs[vx as usize] == self.regs[vy as usize];
                if not_equal {
                    should_jump = !should_jump;
                }
                if should_jump {
                    self.pc = self.pc.wrapping_add(2);
                }
            },
            Opcode::SetRegToConst { add, reg, value } => {
                if add {
                    let sum = self.regs[reg as usize] as u16 + value as u16;
                    if sum > 255 {
                        self.regs[reg as usize] = (sum - 256) as u8;
                    } else {
                        self.regs[reg as usize] = sum as u8;
                    }
                } else {
                    self.regs[reg as usize] = value;
                }
            },
            Opcode::SetRegToReg { regs, mode } => {
                let (vx, vy) = regs;
                let x = vx as usize;
                let y = vy as usize;
                match mode {
                    SetRegMode::Copy => {
                        self.regs[x] = self.regs[y];
                    },
                    SetRegMode::Or => {
                        self.regs[x] = self.regs[x] | self.regs[y];
                    },
                    SetRegMode::And => {
                        self.regs[x] = self.regs[x] & self.regs[y];
                    },
                    SetRegMode::Xor => {
                        self.regs[x] = self.regs[x] ^ self.regs[y];
                    },
                    SetRegMode::Add => {
                        self.regs[0xF] = 0;
                        let sum = self.regs[x] as u16 + self.regs[y] as u16;
                        if sum > 255 {
                            self.regs[0xF] = 1;
                            self.regs[x] = (sum - 256) as u8;
                        } else {
                            self.regs[x] = sum as u8;
                        }
                    },
                    SetRegMode::Subtract => {
                        self.regs[0xF] = 1;
                        let a = self.regs[x];
                        let b = self.regs[y];
                        if a >= b {
                            self.regs[x] = a - b;
                        } else {
                            self.regs[0xF] = 0;
                            self.regs[x] = ((256 + a as u16) - b as u16) as u8;
                        }
                    },
                    SetRegMode::InverseSubtract => {
                        self.regs[0xF] = 1;
                        let a = self.regs[x];
                        let b = self.regs[y];
                        if b >= a {
                            self.regs[x] = b - a;
                        } else {
                            self.regs[0xF] = 0;
                            self.regs[x] = ((256 + b as u16) - a as u16) as u8;
                        }
                    },
                    SetRegMode::ShiftLeft => {
                        self.regs[0xF] = self.regs[x] & 128;
                        self.regs[x] = self.regs[x] << 1u8;
                    },
                    SetRegMode::ShiftRight => {
                        self.regs[0xF] = self.regs[x] & 1;
                        self.regs[x] = self.regs[x] >> 1u8;
                    },
                }
                proof {
                    assert(self.regs@ =~= spec_alu(old(self)@.regs, vx as int, vy as int, mode));
                    assert(self@ =~= (State {
                        regs: spec_alu(old(self)@.regs, vx as int, vy as int, mode),
                        ..old(self)@
                    }));
                }
            },
            Opcode::SetAddressReg(addr) => {
                self.address_reg = addr;
            },
            Opcode::SetRegToRandom { reg, mask } => {
                self.regs[reg as usize] = rand & mask;
            },
            Opcode::DrawSprite { regs, rows } => {
                let (vx, vy) = regs;
                if rows > 0 && self.address_reg as usize + rows as usize > MEMORY_SIZE {
                    return Err(RuntimeError::AddressOutOfBounds(self.address_reg));
                }
                let x = self.regs[vx as usize] as usize;
                let y = self.regs[vy as usize] as usize;
                self.regs[0xF] = 0;
                let ghost pre = self@;
                let base = self.address_reg as usize;
                let mut collision = false;
                let mut row: usize = 0;
                while row < rows as usize
                    invariant
                        row <= rows as usize,
                        rows < 16,
                        x < 256,
                        y < 256,
                        rows > 0 ==> base + rows as usize <= 4096,
                        base == pre.address_reg,
                        pre.memory.len() == 4096,
                        pre.screen.len() == 2048,
                        self.memory@ == pre.memory,
                        self.regs@ == pre.regs,
                        self.address_reg == pre.address_reg,
                        self.pc == pre.pc,
                        self.stack@ == pre.stack,
                        self.delay_timer == pre.delay_timer,
                        self.sound_timer == pre.sound_timer,
                        self.awaiting_key == pre.awaiting_key,
                        self.speed == pre.speed,
                        (self.screen@, collision) == spec_draw(
                            pre.screen,
                            pre.memory,
                            base as int,
                            x as int,
                            y as int,
                            row as int,
                        ),
                    decreases rows as usize - row,
                {
                    let byte = self.memory[base + row];
                    let ghost dprev = spec_draw(
                        pre.screen,
                        pre.memory,
                        base as int,
                        x as int,
                        y as int,
                        row as int,
                    );
                    let mut col: usize = 0;
                    while col < 8
                        invariant
                            col <= 8,
                            row < rows as usize,
                            rows < 16,
                            x < 256,
                            y < 256,
                            base + rows as usize <= 4096,
                            base == pre.address_reg,
                            pre.memory.len() == 4096,
                            pre.screen.len() == 2048,
                            byte == pre.memory[base + row],
                            self.memory@ == pre.memory,
                            self.regs@ == pre.regs,
                            self.address_reg == pre.address_reg,
                            self.pc == pre.pc,
                            self.stack@ == pre.stack,
                            self.delay_timer == pre.delay_timer,
                            self.sound_timer == pre.sound_timer,
                            self.awaiting_key == pre.awaiting_key,
                            self.speed == pre.speed,
                            dprev == spec_draw(
                                pre.screen,
                                pre.memory,
                                base as int,
                                x as int,
                                y as int,
                                row as int,
                            ),
                            ({
                                let rr = spec_draw_row(
                                    dprev.0,
                                    byte,
                                    x as int,
                                    y + row,
                                    col as int,
                                );
                                self.screen@ == rr.0 && collision == (dprev.1 || rr.1)
                            }),
                        decreases 8 - col,
                    {
                        if byte & (128u8 >> (col as u8)) != 0 {
                            let unset = self.set_pixel(x + col, y + row);
                            if unset {
                                collision = true;
                            }
                        }
                        col += 1;
                    }
                    row += 1;
                }
                if collision {
                    self.regs[0xF] = 1;
                }
                proof {
                    let dr = spec_draw(
                        pre.screen,
                        pre.memory,
                        base as int,
                        x as int,
                        y as int,
                        rows as int,
                    );
                    assert(pre.regs =~= old(self)@.regs.update(15, 0u8));
                    assert(self@ =~= (State {
                        regs: if dr.1 {
                            old(self)@.regs.update(15, 0u8).update(15, 1u8)
                        } else {
                            old(self)@.regs.update(15, 0u8)
                        },
                        screen: dr.0,
                        ..old(self)@
                    }));
                }
            },
            Opcode::SkipIfKeyInRegPressed { not_pressed, reg } => {
                let k = self.regs[reg as usize];
                if k >= 16 {
                    return Err(RuntimeError::InvalidRegister(k));
                }
                let mut should_jump = keys[k as usize];
                if not_pressed {
                    should_jump = !should_jump;
                }
                if should_jump {
                    self.pc = self.pc.wrapping_add(2);
                }
            },
            Opcode::WaitForKeyInReg(reg) => {
                self.awaiting_key = Some(reg as usize);
            },
            Opcode::SetRegToDelayTimer(reg) => {
                self.regs[reg as usize] = (self.delay_timer % 256) as u8;
            },
            Opcode::SetDelayTimerToReg(reg) => {
                self.delay_timer = self.regs[reg as usize] as u16;
            },
            Opcode::SetSoundTimerToReg(reg) => {
                self.sound_timer = self.regs[reg as usize] as u16;
            },
            Opcode::AddRegToAddressReg(reg) => {
                self.address_reg = self.address_reg.wrapping_add(self.regs[reg as usize] as u16);
            },
            Opcode::SetAddressRegToCharInReg(reg) => {
                let ch = self.regs[reg as usize];
                self.address_reg = FONT_START + ch as u16 * 5;
            },
            Opcode::RegToBCD(reg) => {
                if self.address_reg as usize + 2 >= MEMORY_SIZE {
                    return Err(RuntimeError::AddressOutOfBounds(self.address_reg));
                }
                let number = self.regs[reg as usize];
                let i = self.address_reg as usize;
                self.memory[i] = number / 100;
                self.memory[i + 1] = (number / 10) % 10;
                self.memory[i + 2] = number % 10;
            },
            Opcode::DumpRegsToAddr(reg) => {
                if self.address_reg as usize + reg as usize >= MEMORY_SIZE {
                    return Err(RuntimeError::AddressOutOfBounds(self.address_reg));
                }
                let ghost pre = self@;
                let mut cur: usize = 0;
                while cur < reg as usize + 1
                    invariant
                        cur <= reg as usize + 1,
                        reg < 16,
                        pre.address_reg + reg < 4096,
                        pre.memory.len() == 4096,
                        pre.regs.len() == 16,
                        self.regs@ == pre.regs,
                        self.address_reg == pre.address_reg,
                        self.pc == pre.pc,
                        self.stack@ == pre.stack,
                        self.delay_timer == pre.delay_timer,
                        self.sound_timer == pre.sound_timer,
                        self.screen@ == pre.screen,
                        self.awaiting_key == pre.awaiting_key,
                        self.speed == pre.speed,
                        forall|i: int|
                            0 <= i < 4096 && (i < pre.address_reg || i >= pre.address_reg + cur)
                                ==> #[trigger] self.memory@[i] == pre.memory[i],
                        forall|i: int|
                            pre.address_reg <= i < pre.address_reg + cur
                                ==> #[trigger] self.memory@[i] == pre.regs[i - pre.address_reg],
                    decreases reg as usize + 1 - cur,
                {
                    self.memory[self.address_reg as usize + cur] = self.regs[cur];
                    cur += 1;
                }
                proof {
                    let expected = Seq::new(
                        pre.memory.len(),
                        |i: int| if pre.address_reg <= i <= pre.address_reg + reg {
                            pre.regs[i - pre.address_reg]
                        } else {
                            pre.memory[i]
                        },
                    );
                    assert forall|i: int| 0 <= i < 4096 implies self.memory@[i] == expected[i] by {}
                    assert(self.memory@ =~= expected);
                    assert(self@ =~= (State { memory: expected, ..pre }));
                }
            },
            Opcode::LoadRegsFromAddr(reg) => {
                if self.address_reg as usize + reg as usize >= MEMORY_SIZE {
                    return Err(RuntimeError::AddressOutOfBounds(self.address_reg));
                }
                let ghost pre = self@;
                let mut cur: usize = 0;
                while cur < reg as usize + 1
                    invariant
                        cur <= reg as usize + 1,
                        reg < 16,
                        pre.address_reg + reg < 4096,
                        pre.memory.len() == 4096,
                        pre.regs.len() == 16,
                        self.memory@ == pre.memory,
                        self.address_reg == pre.address_reg,
                        self.pc == pre.pc,
                        self.stack@ == pre.stack,
                        self.delay_timer == pre.delay_timer,
                        self.sound_timer == pre.sound_timer,
                        self.screen@ == pre.screen,
                        self.awaiting_key == pre.awaiting_key,
                        self.speed == pre.speed,
                        forall|i: int|
                            cur <= i < 16 ==> #[trigger] self.regs@[i] == pre.regs[i],
                        forall|i: int|
                            0 <= i < cur ==> #[trigger] self.regs@[i] == pre.memory[pre.address_reg
                                + i],
                    decreases reg as usize + 1 - cur,
                {
                    self.regs[cur] = self.memory[self.address_reg as usize + cur];
                    cur += 1;
                }
                proof {
                    let expected = Seq::new(
                        pre.regs.len(),
                        |i: int| if 0 <= i <= reg {
                            pre.memory[pre.address_reg + i]
                        } else {
                            pre.regs[i]
                        },
                    );
                    assert forall|i: int| 0 <= i < 16 implies self.regs@[i] == expected[i] by {}
                    assert(self.regs@ =~= expected);
                    assert(self@ =~= (State { regs: expected, ..pre }));
                }
            },
        }
        Ok(())
    }
}

impl Clone for Chip8 {
    /// A deep copy: the clone models the same state and shares nothing with
    /// the original.
    fn clone(&self) -> (r: Chip8)
        ensures
            r@ == self@,
    {
        let stack = self.stack.clone();
        proof {
            assert(stack@ =~= self.stack@);
        }
        let r = Chip8 {
            memory: self.memory,
            regs: self.regs,
            address_reg: self.address_reg,
            pc: self.pc,
            stack: stack,
            delay_timer: self.delay_timer,
            sound_timer: self.sound_timer,
            screen: self.screen,
            awaiting_key: self.awaiting_key,
            speed: self.speed,
        };
        proof {
            assert(r@ =~= self@);
        }
        r
    }
}

/// A memory image with a program written at the program start address.
pub open spec fn spec_load(m: Seq<u8>, prog: Seq<u8>) -> Seq<u8> {
    Seq::new(
        m.len(),
        |i: int| if 0x200 <= i < 0x200 + prog.len() {
            prog[i - 0x200]
        } else {
            m[i]
        },
    )
}

/// The flat framebuffer index of the pixel at column x, row y, both axes
/// wrapping around the screen edges.
pub open spec fn pixel_index(x: int, y: int) -> int {
    (y % 32) * 64 + (x % 64)
}

/// A framebuffer with the pixel at the given position toggled, paired with
/// that pixel's previous value.
pub open spec fn spec_toggle(screen: Seq<bool>, x: int, y: int) -> (Seq<bool>, bool) {
    let idx = pixel_index(x, y);
    (screen.update(idx, !screen[idx]), screen[idx])
}

/// A 17-bit sum wrapped to 16 bits.
pub open spec fn wrap16(v: int) -> u16
    recommends
        0 <= v < 0x20000,
{
    if v > 0xFFFF {
        (v - 0x10000) as u16
    } else {
        v as u16
    }
}

/// The register file after a register-to-register ALU operation writing
/// register x, reading register y. The flag register 0xF is written first
/// where the mode demands it (cleared by add, set by the subtractions, loaded
/// with the outgoing bit by the shifts), then the result is written, in that
/// order: when x is 0xF itself the operands are read after the flag write and
/// the result overwrites the flag.
pub open spec fn spec_alu(regs: Seq<u8>, x: int, y: int, mode: SetRegMode) -> Seq<u8> {
    match mode {
        SetRegMode::Copy => regs.update(x, regs[y]),
        SetRegMode::Or => regs.update(x, regs[x] | regs[y]),
        SetRegMode::And => regs.update(x, regs[x] & regs[y]),
        SetRegMode::Xor => regs.update(x, regs[x] ^ regs[y]),
        SetRegMode::Add => {
            let r1 = regs.update(15, 0u8);
            let sum = r1[x] + r1[y];
            let r2 = if sum > 255 {
                r1.update(15, 1u8)
            } else {
                r1
            };
            r2.update(x, if sum > 255 {
                (sum - 256) as u8
            } else {
                sum as u8
            })
        },
        SetRegMode::Subtract => {
            let r1 = regs.update(15, 1u8);
            let diff = r1[x] - r1[y];
            let r2 = if diff < 0 {
                r1.update(15, 0u8)
            } else {
                r1
            };
            r2.update(x, if diff < 0 {
                (diff + 256) as u8
            } else {
                diff as u8
            })
        },
        SetRegMode::InverseSubtract => {
            let r1 = regs.update(15, 1u8);
            let diff = r1[y] - r1[x];
            let r2 = if diff < 0 {
                r1.update(15, 0u8)
            } else {
                r1
            };
            r2.update(x, if diff < 0 {
                (diff + 256) as u8
            } else {
                diff as u8
            })
        },
        SetRegMode::ShiftLeft => {
            let r1 = regs.update(15, regs[x] & 128);
            r1.update(x, r1[x] << 1u8)
        },
        SetRegMode::ShiftRight => {
            let r1 = regs.update(15, regs[x] & 1);
            r1.update(x, r1[x] >> 1u8)
        },
    }
}

/// One sprite byte XORed into the framebuffer, most significant bit first,
/// columns 0 up to ncols at row y: the resulting framebuffer, paired with
/// whether any toggle unset a previously set pixel.
pub open spec fn spec_draw_row(screen: Seq<bool>, byte: u8, x: int, y: int, ncols: int) -> (
    Seq<bool>,
    bool,
)
    decreases ncols,
{
    if ncols <= 0 {
        (screen, false)
    } else {
        let prev = spec_draw_row(screen, byte, x, y, ncols - 1);
        let col = ncols - 1;
        if byte & (128u8 >> (col as u8)) != 0 {
            let t = spec_toggle(prev.0, x + col, y);
            (t.0, prev.1 || t.1)
        } else {
            prev
        }
    }
}

/// A sprite of nrows bytes read from memory at base, XORed into the
/// framebuffer at position (x, y): the resulting framebuffer, paired with
/// whether any pixel was unset (a collision).
pub open spec fn spec_draw(
    screen: Seq<bool>,
    mem: Seq<u8>,
    base: int,
    x: int,
    y: int,
    nrows: int,
) -> (Seq<bool>, bool)
    decreases nrows,
{
    if nrows <= 0 {
        (screen, false)
    } else {
        let prev = spec_draw(screen, mem, base, x, y, nrows - 1);
        let row = nrows - 1;
        let r = spec_draw_row(prev.0, mem[base + row], x, y + row, 8);
        (r.0, prev.1 || r.1)
    }
}

/// What executing one decoded instruction does to the machine state, as the
/// classic instruction set defines it; `rand` stands for the byte drawn for
/// the random-masked load. An error leaves the state unchanged.
pub open spec fn spec_step(s: State, op: Opcode, keys: Seq<bool>, rand: u8) -> Result<
    State,
    RuntimeError,
> {
    match op {
        Opcode::ClearScreen => Ok(State { screen: Seq::new(2048, |i: int| false), ..s }),
        Opcode::Return => {
            if s.stack.len() == 0 {
                Err(RuntimeError::EmptyCallStack)
            } else {
                Ok(State { pc: s.stack.last(), stack: s.stack.drop_last(), ..s })
            }
        },
        Opcode::JumpTo { addr, plus_v0 } => {
            let target = addr + if plus_v0 {
                s.regs[0] as int
            } else {
                0int
            };
            Ok(State { pc: wrap16(target), ..s })
        },
        Opcode::Call(addr) => Ok(State { stack: s.stack.push(s.pc), pc: addr, ..s }),
        Opcode::SkipIfRegEqualConst { not_equal, reg, value } => {
            let cond = (s.regs[reg as int] == value) != not_equal;
            Ok(
                State {
                    pc: if cond {
                        wrap16(s.pc + 2)
                    } else {
                        s.pc
                    },
                    ..s
                },
            )
        },
        Opcode::SkipIfRegsEqual { not_equal, regs } => {
            let cond = (s.regs[regs.0 as int] == s.regs[regs.1 as int]) != not_equal;
            Ok(
                State {
                    pc: if cond {
                        wrap16(s.pc + 2)
                    } else {
                        s.pc
                    },
                    ..s
                },
            )
        },
        Opcode::SetRegToConst { add, reg, value } => {
            let v = if add {
                let sum = s.regs[reg as int] + value;
                if sum > 255 {
                    (sum - 256) as u8
                } else {
                    sum as u8
                }
            } else {
                value
            };
            Ok(State { regs: s.regs.update(reg as int, v), ..s })
        },
        Opcode::SetRegToReg { regs, mode } => {
            Ok(State { regs: spec_alu(s.regs, regs.0 as int, regs.1 as int, mode), ..s })
        },
        Opcode::SetAddressReg(addr) => Ok(State { address_reg: addr, ..s }),
        Opcode::SetRegToRandom { reg, mask } => {
            Ok(State { regs: s.regs.update(reg as int, rand & mask), ..s })
        },
        Opcode::DrawSprite { regs, rows } => {
            if rows > 0 && s.address_reg + rows > 4096 {
                Err(RuntimeError::AddressOutOfBounds(s.address_reg))
            } else {
                let x = s.regs[regs.0 as int] as int;
                let y = s.regs[regs.1 as int] as int;
                let r1 = s.regs.update(15, 0u8);
                let dr = spec_draw(s.screen, s.memory, s.address_reg as int, x, y, rows as int);
                let r2 = if dr.1 {
                    r1.update(15, 1u8)
                } else {
                    r1
                };
                Ok(State { regs: r2, screen: dr.0, ..s })
            }
        },
        Opcode::SkipIfKeyInRegPressed { not_pressed, reg } => {
            let k = s.regs[reg as int];
            if k >= 16 {
                Err(RuntimeError::InvalidRegister(k))
            } else {
                let cond = keys[k as int] != not_pressed;
                Ok(
                    State {
                        pc: if cond {
                            wrap16(s.pc + 2)
                        } else {
                            s.pc
                        },
                        ..s
                    },
                )
            }
        },
        Opcode::WaitForKeyInReg(reg) => Ok(State { awaiting_key: Some(reg as usize), ..s }),
        Opcode::SetRegToDelayTimer(reg) => {
            Ok(State { regs: s.regs.update(reg as int, (s.delay_timer % 256) as u8), ..s })
        },
        Opcode::SetDelayTimerToReg(reg) => {
            Ok(State { delay_timer: s.regs[reg as int] as u16, ..s })
        },
        Opcode::SetSoundTimerToReg(reg) => {
            Ok(State { sound_timer: s.regs[reg as int] as u16, ..s })
        },
        Opcode::AddRegToAddressReg(reg) => {
            Ok(State { address_reg: wrap16(s.address_reg + s.regs[reg as int]), ..s })
        },
        Opcode::SetAddressRegToCharInReg(reg) => {
            Ok(State { address_reg: (0x50 + s.regs[reg as int] * 5) as u16, ..s })
        },
        Opcode::RegToBCD(reg) => {
            if s.address_reg + 2 >= 4096 {
                Err(RuntimeError::AddressOutOfBounds(s.address_reg))
            } else {
                let n = s.regs[reg as int];
                let i = s.address_reg as int;
                Ok(
                    State {
                        memory: s.memory.update(i, n / 100).update(i + 1, (n / 10) % 10).update(
                            i + 2,
                            n % 10,
                        ),
                        ..s
                    },
                )
            }
        },
        Opcode::DumpRegsToAddr(reg) => {
            if s.address_reg + reg >= 4096 {
                Err(RuntimeError::AddressOutOfBounds(s.address_reg))
            } else {
                Ok(
                    State {
                        memory: Seq::new(
                            s.memory.len(),
                            |i: int| if s.address_reg <= i <= s.address_reg + reg {
                                s.regs[i - s.address_reg]
                            } else {
                                s.memory[i]
                            },
                        ),
                        ..s
                    },
                )
            }
        },
        Opcode::LoadRegsFromAddr(reg) => {
            if s.address_reg + reg >= 4096 {
                Err(RuntimeError::AddressOutOfBounds(s.address_reg))
            } else {
                Ok(
                    State {
                        regs: Seq::new(
                            s.regs.len(),
                            |i: int| if 0 <= i <= reg {
                                s.memory[s.address_reg + i]
                            } else {
                                s.regs[i]
                            },
                        ),
                        ..s
                    },
                )
            }
        },
    }
}

/// Both timers decremented by one, stopping at zero.
pub open spec fn spec_tick_timers(s: State) -> State {
    State {
        delay_timer: if s.delay_timer > 0 {
            (s.delay_timer - 1) as u16
        } else {
            0
        },
        sound_timer: if s.sound_timer > 0 {
            (s.sound_timer - 1) as u16
        } else {
            0
        },
        ..s
    }
}

/// Whether executing one instruction from `pre` with the random byte `b`
/// explains the outcome `r` and the state `post`: on success `post` is the
/// stepped state, on an error the state is unchanged.
pub open spec fn step_matches(
    pre: State,
    post: State,
    op: Opcode,
    keys: Seq<bool>,
    b: u8,
    r: Result<(), RuntimeError>,
) -> bool {
    match spec_step(pre, op, keys, b) {
        Ok(s2) => r == Ok::<(), RuntimeError>(()) && post == s2,
        Err(e) => r == Err::<(), RuntimeError>(e) && post == pre,
    }
}

/// The lowest pressed key index at or above `from`, or 16 if none is pressed.
pub open spec fn spec_first_pressed(keys: Seq<bool>, from: int) -> int
    decreases 16 - from,
{
    if from < 0 || from >= 16 {
        16
    } else if keys[from] {
        from
    } else {
        spec_first_pressed(keys, from + 1)
    }
}

/// A pending key wait resolved against a key snapshot: if a key is pressed,
/// the lowest pressed index is stored in the recorded register and the wait
/// is cleared; otherwise, and when no wait is pending, nothing changes.
pub open spec fn spec_resolve_key(s: State, keys: Seq<bool>) -> State {
    match s.awaiting_key {
        Option::None => s,
        Option::Some(r) => {
            let idx = spec_first_pressed(keys, 0);
            if idx < 16 {
                State { regs: s.regs.update(r as int, idx as u8), awaiting_key: None, ..s }
            } else {
                s
            }
        },
    }
}

/// One fetch-decode-execute step: the two-byte word at the program counter
/// is fetched (out of bounds is an error), decoded (a decode error is
/// wrapped), the program counter advanced by two, and the instruction
/// executed.
pub open spec fn spec_fetch_exec(s: State, keys: Seq<bool>, rand: u8) -> Result<
    State,
    RuntimeError,
> {
    if s.pc + 1 >= 4096 {
        Err(RuntimeError::AddressOutOfBounds(s.pc))
    } else {
        let w = ((s.memory[s.pc as int] as u16) << 8u16) | (s.memory[s.pc as int + 1] as u16);
        match spec_decode(w) {
            Err(e) => Err(RuntimeError::OpcodeErr(e)),
            Ok(op) => spec_step(State { pc: (s.pc + 2) as u16, ..s }, op, keys, rand),
        }
    }
}

/// `n` fetch-decode-execute steps in sequence, step `k` drawing `rands[k]`
/// as its random byte; the first error aborts the run.
pub open spec fn spec_run(s: State, keys: Seq<bool>, rands: Seq<u8>, n: nat) -> Result<
    State,
    RuntimeError,
>
    recommends
        rands.len() >= n,
    decreases n,
{
    if n == 0 {
        Ok(s)
    } else {
        match spec_fetch_exec(s, keys, rands[0]) {
            Ok(s2) => spec_run(s2, keys, rands.drop_first(), (n - 1) as nat),
            Err(e) => Err(e),
        }
    }
}

/// One stepping call: a pending key wait is resolved first; while a wait is
/// still pending no instruction executes; otherwise `speed + 1` instructions
/// run; the timers tick once per call that completes without an error.
pub open spec fn spec_cycle(s: State, keys: Seq<bool>, rands: Seq<u8>) -> Result<
    State,
    RuntimeError,
> {
    let s1 = spec_resolve_key(s, keys);
    if s1.awaiting_key is Some {
        Ok(spec_tick_timers(s1))
    } else {
        match spec_run(s1, keys, rands, (s1.speed + 1) as nat) {
            Ok(s2) => Ok(spec_tick_timers(s2)),
            Err(e) => Err(e),
        }
    }
}

/// Appending one random byte extends a run by one step at its end.
pub proof fn lemma_run_snoc(s: State, keys: Seq<bool>, rands: Seq<u8>, b: u8, n: nat)
    requires
        rands.len() == n,
    ensures
        spec_run(s, keys, rands.push(b), (n + 1) as nat) == (match spec_run(s, keys, rands, n) {
            Ok(m) => spec_fetch_exec(m, keys, b),
            Err(e) => Err(e),
        }),
    decreases n,
{
    reveal_with_fuel(spec_run, 3);
    if n == 0 {
        assert(rands.push(b)[0] == b);
    } else {
        assert(rands.push(b)[0] == rands[0]);
        assert(rands.push(b).drop_first() =~= rands.drop_first().push(b));
        match spec_fetch_exec(s, keys, rands[0]) {
            Ok(s2) => {
                lemma_run_snoc(s2, keys, rands.drop_first(), b, (n - 1) as nat);
            },
            Err(e) => {},
        }
    }
}

/// A run whose first `k` steps succeed and whose step `k` fails, fails whole
/// with that step's error.
pub proof fn lemma_run_error(
    s: State,
    keys: Seq<bool>,
    rands: Seq<u8>,
    k: nat,
    n: nat,
    m: State,
    e: RuntimeError,
)
    requires
        k < n,
        rands.len() >= n,
        spec_run(s, keys, rands.take(k as int), k) == Ok::<State, RuntimeError>(m),
        spec_fetch_exec(m, keys, rands[k as int]) == Err::<State, RuntimeError>(e),
    ensures
        spec_run(s, keys, rands, n) == Err::<State, RuntimeError>(e),
    decreases k,
{
    if k == 0 {
        assert(m == s);
    } else {
        assert(rands.take(k as int)[0] == rands[0]);
        match spec_fetch_exec(s, keys, rands[0]) {
            Ok(s2) => {
                assert(rands.take(k as int).drop_first() =~= rands.drop_first().take(k - 1));
                assert(rands.drop_first()[k - 1] == rands[k as int]);
                lemma_run_error(s2, keys, rands.drop_first(), (k - 1) as nat, (n - 1) as nat, m, e);
            },
            Err(e2) => {
                assert(false);
            },
        }
    }
}

/// Relies on `rand::Rng::gen` on `rand::thread_rng` for one random byte;
/// nothing is assumed of its value.
#[verifier::external_body]
fn random_byte() -> u8 {
    let mut rng = rand::thread_rng();
    rand::Rng::gen(&mut rng)
}

impl Chip8 {
    /// Executes one decoded instruction, drawing the byte for the
    /// random-masked load from the random number generator: whatever byte
    /// came back, the state changes exactly as `spec_step` says for it.
    pub fn execute_opcode(&mut self, opcode: Opcode, keys: [bool; 16]) -> (r: Result<
        (),
        RuntimeError,
    >)
        requires
            opcode.wf(),
            wf(old(self)@),
        ensures
            wf(final(self)@),
            final(self)@.speed == old(self)@.speed,
            exists|b: u8| step_matches(old(self)@, final(self)@, opcode, keys@, b, r),
    {
        let ghost gop = opcode;
        let rand = match &opcode {
            Opcode::SetRegToRandom { .. } => random_byte(),
            _ => 0,
        };
        let r = self.execute_opcode_with(opcode, keys, rand);
        proof {
            assert(step_matches(old(self)@, self@, gop, keys@, rand, r));
        }
        r
    }

    /// One stepping call, against a fresh key snapshot: resolves a pending
    /// key wait, executes `speed + 1` instructions unless a wait is still
    /// pending, and ticks the timers. The outcome is explained by
    /// `spec_cycle` for the sequence of random bytes that were drawn, one
    /// per instruction slot. An error aborts the call where it happened:
    /// instructions already executed in it keep their effect, and the
    /// timers do not tick.
    pub fn cycle(&mut self, keys: [bool; 16]) -> (r: Result<(), RuntimeError>)
        requires
            wf(old(self)@),
        ensures
            wf(final(self)@),
            exists|rands: Seq<u8>|
                rands.len() == old(self)@.speed + 1 && (match #[trigger] spec_cycle(
                    old(self)@,
                    keys@,
                    rands,
                ) {
                    Ok(s2) => r == Ok::<(), RuntimeError>(()) && final(self)@ == s2,
                    Err(e) => r == Err::<(), RuntimeError>(e),
                }),
    {
        let ghost s0 = self@;
        if let Some(reg) = self.awaiting_key {
            let mut idx: usize = 16;
            let mut offset: usize = 0;
            while offset < 16
                invariant
                    offset <= 16,
                    idx <= 16,
                    idx == 16 ==> spec_first_pressed(keys@, 0) == spec_first_pressed(
                        keys@,
                        offset as int,
                    ),
                    idx < 16 ==> idx == spec_first_pressed(keys@, 0) && keys@[idx as int],
                    self@ == s0,
                decreases 16 - offset,
            {
                if idx == 16 && keys[offset] {
                    idx = offset;
                }
                offset += 1;
            }
            if idx < 16 {
                self.regs[reg] = idx as u8;
                self.awaiting_key = None;
            }
            proof {
                assert(self@ =~= spec_resolve_key(s0, keys@));
            }
        }
        proof {
            assert(self@ == spec_resolve_key(s0, keys@));
        }
        let ghost s1 = self@;
        if self.awaiting_key.is_some() {
            self.update_timers();
            proof {
                let witness = Seq::new((s0.speed + 1) as nat, |i: int| 0u8);
                assert(witness.len() == old(self)@.speed + 1);
                assert(spec_cycle(old(self)@, keys@, witness) == Ok::<State, RuntimeError>(
                    self@,
                ));
            }
            return Ok(());
        }
        let speed = self.speed;
        let ghost mut rands: Seq<u8> = Seq::empty();
        let mut i: usize = 0;
        while i < speed + 1
            invariant
                i <= speed + 1,
                speed == s1.speed,
                speed < usize::MAX,
                wf(s1),
                wf(self@),
                self@.speed == speed,
                rands.len() == i,
                spec_run(s1, keys@, rands, i as nat) == Ok::<State, RuntimeError>(self@),
                s1 == spec_resolve_key(s0, keys@),
                s1.awaiting_key is None,
                wf(s0),
                s0.speed == speed,
                s0 == old(self)@,
            decreases speed + 1 - i,
        {
            let ghost m = self@;
            if self.pc as usize + 1 >= MEMORY_SIZE {
                let e = RuntimeError::AddressOutOfBounds(self.pc);
                proof {
                    let full = rands + Seq::new((speed + 1 - i) as nat, |j: int| 0u8);
                    assert(full.len() == speed + 1);
                    assert(full.take(i as int) =~= rands);
                    assert(spec_fetch_exec(m, keys@, full[i as int]) == Err::<
                        State,
                        RuntimeError,
                    >(e));
                    lemma_run_error(s1, keys@, full, i as nat, (speed + 1) as nat, m, e);
                    assert(full.len() == old(self)@.speed + 1);
                    assert(spec_cycle(old(self)@, keys@, full) == Err::<State, RuntimeError>(e));
                }
                return Err(e);
            }
            let pc_index = self.pc as usize;
            let opcode_bytes = (self.memory[pc_index] as u16) << 8u16 | (self.memory[pc_index
                + 1] as u16);
            let opcode = match Opcode::from_u16(opcode_bytes) {
                Ok(opcode) => opcode,
                Err(err) => {
                    let e = RuntimeError::OpcodeErr(err);
                    proof {
                        let full = rands + Seq::new((speed + 1 - i) as nat, |j: int| 0u8);
                        assert(full.len() == speed + 1);
                        assert(full.take(i as int) =~= rands);
                        assert(spec_fetch_exec(m, keys@, full[i as int]) == Err::<
                            State,
                            RuntimeError,
                        >(e));
                        lemma_run_error(s1, keys@, full, i as nat, (speed + 1) as nat, m, e);
                        assert(full.len() == old(self)@.speed + 1);
                        assert(spec_cycle(old(self)@, keys@, full) == Err::<State, RuntimeError>(
                            e,
                        ));
                    }
                    return Err(e);
                },
            };
            let ghost gop = opcode;
            self.pc = self.pc + 2;
            let ghost mid = self@;
            proof {
                assert(mid =~= (State { pc: (m.pc + 2) as u16, ..m }));
            }
            let res = self.execute_opcode(opcode, keys);
            let ghost gres = res;
            let ghost b = choose|b: u8| step_matches(mid, self@, gop, keys@, b, gres);
            proof {
                assert(step_matches(mid, self@, gop, keys@, b, gres));
                assert(spec_fetch_exec(m, keys@, b) == spec_step(mid, gop, keys@, b));
            }
            match res {
                Ok(()) => {
                    proof {
                        lemma_run_snoc(s1, keys@, rands, b, i as nat);
                        rands = rands.push(b);
                    }
                },
                Err(e) => {
                    proof {
                        let full = rands.push(b) + Seq::new((speed - i) as nat, |j: int| 0u8);
                        assert(full.len() == speed + 1);
                        assert(full.take(i as int) =~= rands);
                        assert(full[i as int] == b);
                        assert(spec_fetch_exec(m, keys@, full[i as int]) == Err::<
                            State,
                            RuntimeError,
                        >(e));
                        lemma_run_error(s1, keys@, full, i as nat, (speed + 1) as nat, m, e);
                        assert(full.len() == old(self)@.speed + 1);
                        assert(spec_cycle(old(self)@, keys@, full) == Err::<State, RuntimeError>(
                            e,
                        ));
                    }
                    return Err(e);
                },
            }
            i += 1;
        }
        self.update_timers();
        proof {
            assert(rands.len() == old(self)@.speed + 1);
            assert(spec_cycle(old(self)@, keys@, rands) == Ok::<State, RuntimeError>(self@));
        }
        Ok(())
    }
}

} // verus!
