//! The opcode decoder: a pure function from a 16-bit instruction word to a
//! tagged instruction value or a decode error.

use vstd::prelude::*;

verus! {

/// Why a 16-bit word failed to decode: either no instruction family matches
/// the bit pattern, or the register-to-register ALU family was recognized but
/// its mode nibble names no defined operation.
#[derive(Debug, PartialEq, Eq)]
pub enum OpcodeError {
    UnrecognizedOpcode(u16),
    InvalidModeForSetRegToReg(u8),
}

pub type OpcodeResult = Result<Opcode, OpcodeError>;

/// The mode nibble of a register-to-register ALU instruction (family 8XYM).
#[derive(Debug, PartialEq, Eq, Clone, Copy)]
pub enum SetRegMode {
    Copy,
    Or,
    And,
    Xor,
    Add,
    Subtract,
    InverseSubtract,
    ShiftLeft,
    ShiftRight,
}

/// The ALU mode denoted by a mode nibble, if any.
pub open spec fn spec_mode_from_u8(byte: u8) -> Option<SetRegMode> {
    match byte {
        0x0 => Some(SetRegMode::Copy),
        0x1 => Some(SetRegMode::Or),
        0x2 => Some(SetRegMode::And),
        0x3 => Some(SetRegMode::Xor),
        0x4 => Some(SetRegMode::Add),
        0x5 => Some(SetRegMode::Subtract),
        0x6 => Some(SetRegMode::ShiftRight),
        0x7 => Some(SetRegMode::InverseSubtract),
        0xE => Some(SetRegMode::ShiftLeft),
        _ => None,
    }
}

/// The mode nibble that denotes an ALU mode.
pub open spec fn spec_mode_to_u8(mode: SetRegMode) -> u8 {
    match mode {
        SetRegMode::Copy => 0x0,
        SetRegMode::Or => 0x1,
        SetRegMode::And => 0x2,
        SetRegMode::Xor => 0x3,
        SetRegMode::Add => 0x4,
        SetRegMode::Subtract => 0x5,
        SetRegMode::ShiftRight => 0x6,
        SetRegMode::InverseSubtract => 0x7,
        SetRegMode::ShiftLeft => 0xE,
    }
}

impl SetRegMode {
    pub fn from_u8(byte: u8) -> (r: Option<SetRegMode>)
        ensures
            r == spec_mode_from_u8(byte),
    {
        match byte {
            0x0 => Some(SetRegMode::Copy),
            0x1 => Some(SetRegMode::Or),
            0x2 => Some(SetRegMode::And),
            0x3 => Some(SetRegMode::Xor),
            0x4 => Some(SetRegMode::Add),
            0x5 => Some(SetRegMode::Subtract),
            0x6 => Some(SetRegMode::ShiftRight),
            0x7 => Some(SetRegMode::InverseSubtract),
            0xE => Some(SetRegMode::ShiftLeft),
            _ => None,
        }
    }

    pub fn to_u8(&self) -> (r: u8)
        ensures
            r == spec_mode_to_u8(*self),
    {
        match self {
            SetRegMode::Copy => 0x0,
            SetRegMode::Or => 0x1,
            SetRegMode::And => 0x2,
            SetRegMode::Xor => 0x3,
            SetRegMode::Add => 0x4,
            SetRegMode::Subtract => 0x5,
            SetRegMode::ShiftRight => 0x6,
            SetRegMode::InverseSubtract => 0x7,
            SetRegMode::ShiftLeft => 0xE,
        }
    }
}

/// Round trip: every ALU mode decodes back from the nibble that encodes it.
pub proof fn lemma_mode_round_trip(mode: SetRegMode)
    ensures
        spec_mode_from_u8(spec_mode_to_u8(mode)) == Some(mode),
{
}

/// A decoded instruction. In the comments: NNN is a 12-bit address, NN an
/// 8-bit constant, N a 4-bit constant, X and Y register indices.
#[derive(Debug, PartialEq, Eq)]
pub enum Opcode {
    ClearScreen,                                          // 00E0
    Return,                                               // 00EE
    JumpTo { addr: u16, plus_v0: bool },                  // 1NNN | BNNN
    Call(u16),                                            // 2NNN
    SkipIfRegEqualConst { not_equal: bool, reg: u8, value: u8 }, // 3XNN | 4XNN
    SkipIfRegsEqual { not_equal: bool, regs: (u8, u8) },  // 5XY0 | 9XY0
    SetRegToConst { add: bool, reg: u8, value: u8 },      // 6XNN | 7XNN
    SetRegToReg { regs: (u8, u8), mode: SetRegMode },     // 8XYM
    SetAddressReg(u16),                                   // ANNN
    SetRegToRandom { reg: u8, mask: u8 },                 // CXNN
    DrawSprite { regs: (u8, u8), rows: u8 },              // DXYN
    SkipIfKeyInRegPressed { not_pressed: bool, reg: u8 }, // EX9E | EXA1
    WaitForKeyInReg(u8),                                  // FX0A
    SetRegToDelayTimer(u8),                               // FX07
    SetDelayTimerToReg(u8),                               // FX15
    SetSoundTimerToReg(u8),                               // FX18
    AddRegToAddressReg(u8),                               // FX1E
    SetAddressRegToCharInReg(u8),                         // FX29
    RegToBCD(u8),                                         // FX33
    DumpRegsToAddr(u8),                                   // FX55
    LoadRegsFromAddr(u8),                                 // FX65
}

impl Opcode {
    /// Every field is within the range its bit field can carry: register
    /// indices and row counts are nibbles, addresses are 12 bits wide.
    /// Decoding only produces such values.
    pub open spec fn wf(self) -> bool {
        match self {
            Opcode::ClearScreen => true,
            Opcode::Return => true,
            Opcode::JumpTo { addr, plus_v0 } => addr <= 0xFFF,
            Opcode::Call(addr) => addr <= 0xFFF,
            Opcode::SkipIfRegEqualConst { not_equal, reg, value } => reg < 16,
            Opcode::SkipIfRegsEqual { not_equal, regs } => regs.0 < 16 && regs.1 < 16,
            Opcode::SetRegToConst { add, reg, value } => reg < 16,
            Opcode::SetRegToReg { regs, mode } => regs.0 < 16 && regs.1 < 16,
            Opcode::SetAddressReg(addr) => addr <= 0xFFF,
            Opcode::SetRegToRandom { reg, mask } => reg < 16,
            Opcode::DrawSprite { regs, rows } => regs.0 < 16 && regs.1 < 16 && rows < 16,
            Opcode::SkipIfKeyInRegPressed { not_pressed, reg } => reg < 16,
            Opcode::WaitForKeyInReg(reg) => reg < 16,
            Opcode::SetRegToDelayTimer(reg) => reg < 16,
            Opcode::SetDelayTimerToReg(reg) => reg < 16,
            Opcode::SetSoundTimerToReg(reg) => reg < 16,
            Opcode::AddRegToAddressReg(reg) => reg < 16,
            Opcode::SetAddressRegToCharInReg(reg) => reg < 16,
            Opcode::RegToBCD(reg) => reg < 16,
            Opcode::DumpRegsToAddr(reg) => reg < 16,
            Opcode::LoadRegsFromAddr(reg) => reg < 16,
        }
    }
}

/// What a 16-bit instruction word decodes to. Pure bit masking and shifting
/// over the word's nibbles; the executable decoder is proved to agree with
/// this function on every word.
pub open spec fn spec_decode(w: u16) -> OpcodeResult {
    let msb = w & 0xF000;
    if msb == 0x0000 {
        if w & 0x0F00 == 0x000 {
            if w & 0x00F0 == 0xE0 {
                if w & 0x000F == 0x0 {
                    Ok(Opcode::ClearScreen)
                } else if w & 0x000F == 0xE {
                    Ok(Opcode::Return)
                } else {
                    Err(OpcodeError::UnrecognizedOpcode(w))
                }
            } else {
                Err(OpcodeError::UnrecognizedOpcode(w))
            }
        } else {
            Err(OpcodeError::UnrecognizedOpcode(w))
        }
    } else if msb == 0x1000 || msb == 0xB000 {
        Ok(Opcode::JumpTo { addr: w & 0x0FFF, plus_v0: msb == 0xB000 })
    } else if msb == 0x2000 {
        Ok(Opcode::Call(w & 0x0FFF))
    } else if msb == 0x3000 || msb == 0x4000 {
        Ok(Opcode::SkipIfRegEqualConst {
            not_equal: msb == 0x4000,
            reg: ((w & 0x0F00) >> 8) as u8,
            value: (w & 0x00FF) as u8,
        })
    } else if msb == 0x5000 || msb == 0x9000 {
        if w & 0x000F == 0x0 {
            Ok(Opcode::SkipIfRegsEqual {
                not_equal: msb == 0x9000,
                regs: (((w & 0x0F00) >> 8) as u8, ((w & 0x00F0) >> 4) as u8),
            })
        } else {
            Err(OpcodeError::UnrecognizedOpcode(w))
        }
    } else if msb == 0x6000 || msb == 0x7000 {
        Ok(Opcode::SetRegToConst {
            add: msb == 0x7000,
            reg: ((w & 0x0F00) >> 8) as u8,
            value: (w & 0x00FF) as u8,
        })
    } else if msb == 0x8000 {
        match spec_mode_from_u8((w & 0x000F) as u8) {
            Some(mode) => Ok(Opcode::SetRegToReg {
                regs: (((w & 0x0F00) >> 8) as u8, ((w & 0x00F0) >> 4) as u8),
                mode: mode,
            }),
            None => Err(OpcodeError::InvalidModeForSetRegToReg((w & 0x000F) as u8)),
        }
    } else if msb == 0xA000 {
        Ok(Opcode::SetAddressReg(w & 0x0FFF))
    } else if msb == 0xC000 {
        Ok(Opcode::SetRegToRandom {
            reg: ((w & 0x0F00) >> 8) as u8,
            mask: (w & 0x00FF) as u8,
        })
    } else if msb == 0xD000 {
        Ok(Opcode::DrawSprite {
            regs: (((w & 0x0F00) >> 8) as u8, ((w & 0x00F0) >> 4) as u8),
            rows: (w & 0x000F) as u8,
        })
    } else if msb == 0xE000 {
        if w & 0x00FF == 0x9E || w & 0x00FF == 0xA1 {
            Ok(Opcode::SkipIfKeyInRegPressed {
                not_pressed: (w & 0x00FF) == 0xA1,
                reg: ((w & 0x0F00) >> 8) as u8,
            })
        } else {
            Err(OpcodeError::UnrecognizedOpcode(w))
        }
    } else if msb == 0xF000 {
        let reg = ((w & 0x0F00) >> 8) as u8;
        let low = w & 0x00FF;
        if low == 0x07 {
            Ok(Opcode::SetRegToDelayTimer(reg))
        } else if low == 0x0A {
            Ok(Opcode::WaitForKeyInReg(reg))
        } else if low == 0x15 {
            Ok(Opcode::SetDelayTimerToReg(reg))
        } else if low == 0x18 {
            Ok(Opcode::SetSoundTimerToReg(reg))
        } else if low == 0x1E {
            Ok(Opcode::AddRegToAddressReg(reg))
        } else if low == 0x29 {
            Ok(Opcode::SetAddressRegToCharInReg(reg))
        } else if low == 0x33 {
            Ok(Opcode::RegToBCD(reg))
        } else if low == 0x55 {
            Ok(Opcode::DumpRegsToAddr(reg))
        } else if low == 0x65 {
            Ok(Opcode::LoadRegsFromAddr(reg))
        } else {
            Err(OpcodeError::UnrecognizedOpcode(w))
        }
    } else {
        Err(OpcodeError::UnrecognizedOpcode(w))
    }
}

/// Bounds of the bit fields a word is decoded into: nibble extractions are
/// below 16, byte extractions below 256, the address field below 0x1000.
proof fn lemma_field_bounds(w: u16)
    by (bit_vector)
    ensures
        (w & 0x0F00) >> 8 < 16,
        (w & 0x00F0) >> 4 < 16,
        w & 0x000F < 16,
        w & 0x00FF < 256,
        w & 0x0FFF < 0x1000,
{
}

/// A decoded instruction is well formed: each field fits its bit field.
pub proof fn lemma_decode_wf(w: u16)
    ensures
        spec_decode(w) matches Ok(op) ==> op.wf(),
{
    lemma_field_bounds(w);
}

impl Opcode {
    pub fn from_u16(bytes: u16) -> (r: OpcodeResult)
        ensures
            r == spec_decode(bytes),
            r matches Ok(op) ==> op.wf(),
    {
        proof {
            lemma_decode_wf(bytes);
        }
        let msb = bytes & 0xF000;
        match msb {
            0x0000 => {
                match bytes & 0x0F00 {
                    0x000 => match bytes & 0x00F0 {
                        0xE0 => match bytes & 0x000F {
                            0x0 => Ok(Opcode::ClearScreen),
                            0xE => Ok(Opcode::Return),
                            _ => Err(OpcodeError::UnrecognizedOpcode(bytes)),
                        },
                        _ => Err(OpcodeError::UnrecognizedOpcode(bytes)),
                    },
                    _ => Err(OpcodeError::UnrecognizedOpcode(bytes)),
                }
            },
            0x1000 | 0xB000 => {
                Ok(Opcode::JumpTo { addr: bytes & 0x0FFF, plus_v0: msb == 0xB000 })
            },
            0x2000 => Ok(Opcode::Call(bytes & 0x0FFF)),
            0x3000 | 0x4000 => {
                Ok(Opcode::SkipIfRegEqualConst {
                    not_equal: msb == 0x4000,
                    reg: ((bytes & 0x0F00) >> 8) as u8,
                    value: (bytes & 0x00FF) as u8,
                })
            },
            0x5000 | 0x9000 => match bytes & 0x000F {
                0x0 => {
                    Ok(Opcode::SkipIfRegsEqual {
                        not_equal: msb == 0x9000,
                        regs: (((bytes & 0x0F00) >> 8) as u8, ((bytes & 0x00F0) >> 4) as u8),
                    })
                },
                _ => Err(OpcodeError::UnrecognizedOpcode(bytes)),
            },
            0x6000 | 0x7000 => {
                Ok(Opcode::SetRegToConst {
                    add: msb == 0x7000,
                    reg: ((bytes & 0x0F00) >> 8) as u8,
                    value: (bytes & 0x00FF) as u8,
                })
            },
            0x8000 => {
                let mode_byte = (bytes & 0x000F) as u8;
                let mode = match SetRegMode::from_u8(mode_byte) {
                    Some(mode) => mode,
                    None => {
                        return Err(OpcodeError::InvalidModeForSetRegToReg(mode_byte));
                    },
                };
                Ok(Opcode::SetRegToReg {
                    regs: (((bytes & 0x0F00) >> 8) as u8, ((bytes & 0x00F0) >> 4) as u8),
                    mode: mode,
                })
            },
            0xA000 => Ok(Opcode::SetAddressReg(bytes & 0x0FFF)),
            0xC000 => {
                Ok(Opcode::SetRegToRandom {
                    reg: ((bytes & 0x0F00) >> 8) as u8,
                    mask: (bytes & 0x00FF) as u8,
                })
            },
            0xD000 => {
                Ok(Opcode::DrawSprite {
                    regs: (((bytes & 0x0F00) >> 8) as u8, ((bytes & 0x00F0) >> 4) as u8),
                    rows: (bytes & 0x000F) as u8,
                })
            },
            0xE000 => match bytes & 0x00FF {
                0x9E | 0xA1 => {
                    Ok(Opcode::SkipIfKeyInRegPressed {
                        not_pressed: (bytes & 0x00FF) == 0xA1,
                        reg: ((bytes & 0x0F00) >> 8) as u8,
                    })
                },
                _ => Err(OpcodeError::UnrecognizedOpcode(bytes)),
            },
            0xF000 => {
                let reg = ((bytes & 0x0F00) >> 8) as u8;
                match bytes & 0x00FF {
                    0x07 => Ok(Opcode::SetRegToDelayTimer(reg)),
                    0x0A => Ok(Opcode::WaitForKeyInReg(reg)),
                    0x15 => Ok(Opcode::SetDelayTimerToReg(reg)),
                    0x18 => Ok(Opcode::SetSoundTimerToReg(reg)),
                    0x1E => Ok(Opcode::AddRegToAddressReg(reg)),
                    0x29 => Ok(Opcode::SetAddressRegToCharInReg(reg)),
                    0x33 => Ok(Opcode::RegToBCD(reg)),
                    0x55 => Ok(Opcode::DumpRegsToAddr(reg)),
                    0x65 => Ok(Opcode::LoadRegsFromAddr(reg)),
                    _ => Err(OpcodeError::UnrecognizedOpcode(bytes)),
                }
            },
            _ => Err(OpcodeError::UnrecognizedOpcode(bytes)),
        }
    }
}

/// The instruction word that encodes an instruction, family base plus the
/// fields at their bit positions. Meaningful for well-formed instructions;
/// out-of-range fields are truncated by the cast.
pub open spec fn spec_encode(op: Opcode) -> u16 {
    match op {
        Opcode::ClearScreen => 0x00E0,
        Opcode::Return => 0x00EE,
        Opcode::JumpTo { addr, plus_v0 } => (
            (if plus_v0 { 0xB000int } else { 0x1000int }) + addr
        ) as u16,
        Opcode::Call(addr) => (0x2000 + addr) as u16,
        Opcode::SkipIfRegEqualConst { not_equal, reg, value } => (
            (if not_equal { 0x4000int } else { 0x3000int }) + reg * 0x100 + value
        ) as u16,
        Opcode::SkipIfRegsEqual { not_equal, regs } => (
            (if not_equal { 0x9000int } else { 0x5000int }) + regs.0 * 0x100 + regs.1 * 0x10
        ) as u16,
        Opcode::SetRegToConst { add, reg, value } => (
            (if add { 0x7000int } else { 0x6000int }) + reg * 0x100 + value
        ) as u16,
        Opcode::SetRegToReg { regs, mode } => (
            0x8000 + regs.0 * 0x100 + regs.1 * 0x10 + spec_mode_to_u8(mode)
        ) as u16,
        Opcode::SetAddressReg(addr) => (0xA000 + addr) as u16,
        Opcode::SetRegToRandom { reg, mask } => (0xC000 + reg * 0x100 + mask) as u16,
        Opcode::DrawSprite { regs, rows } => (
            0xD000 + regs.0 * 0x100 + regs.1 * 0x10 + rows
        ) as u16,
        Opcode::SkipIfKeyInRegPressed { not_pressed, reg } => (
            0xE000 + reg * 0x100 + (if not_pressed { 0xA1int } else { 0x9Eint })
        ) as u16,
        Opcode::WaitForKeyInReg(reg) => (0xF00A + reg * 0x100) as u16,
        Opcode::SetRegToDelayTimer(reg) => (0xF007 + reg * 0x100) as u16,
        Opcode::SetDelayTimerToReg(reg) => (0xF015 + reg * 0x100) as u16,
        Opcode::SetSoundTimerToReg(reg) => (0xF018 + reg * 0x100) as u16,
        Opcode::AddRegToAddressReg(reg) => (0xF01E + reg * 0x100) as u16,
        Opcode::SetAddressRegToCharInReg(reg) => (0xF029 + reg * 0x100) as u16,
        Opcode::RegToBCD(reg) => (0xF033 + reg * 0x100) as u16,
        Opcode::DumpRegsToAddr(reg) => (0xF055 + reg * 0x100) as u16,
        Opcode::LoadRegsFromAddr(reg) => (0xF065 + reg * 0x100) as u16,
    }
}

/// Unpacking a word built from a family nibble and a 12-bit address field.
proof fn lemma_unpack_addr(m: u16, addr: u16)
    by (bit_vector)
    requires
        m < 16,
        addr < 0x1000,
    ensures
        ({
            let w = (m * 0x1000 + addr) as u16;
            w & 0xF000 == (m * 0x1000) as u16 && w & 0x0FFF == addr
        }),
{
}

/// Unpacking a word built from a family nibble, a register nibble and an
/// 8-bit constant.
proof fn lemma_unpack_x_nn(m: u16, x: u16, nn: u16)
    by (bit_vector)
    requires
        m < 16,
        x < 16,
        nn < 256,
    ensures
        ({
            let w = (m * 0x1000 + x * 0x100 + nn) as u16;
            &&& w & 0xF000 == (m * 0x1000) as u16
            &&& (w & 0x0F00) >> 8 == x
            &&& w & 0x00FF == nn
        }),
{
}

/// Unpacking a word built from a family nibble, two register nibbles and a
/// low nibble.
proof fn lemma_unpack_x_y_n(m: u16, x: u16, y: u16, n: u16)
    by (bit_vector)
    requires
        m < 16,
        x < 16,
        y < 16,
        n < 16,
    ensures
        ({
            let w = (m * 0x1000 + x * 0x100 + y * 0x10 + n) as u16;
            &&& w & 0xF000 == (m * 0x1000) as u16
            &&& (w & 0x0F00) >> 8 == x
            &&& (w & 0x00F0) >> 4 == y
            &&& w & 0x000F == n
        }),
{
}

/// The two fixed words of the 0x0 family expose the expected bit fields.
proof fn lemma_unpack_fixed()
    by (bit_vector)
    ensures
        0x00E0u16 & 0xF000 == 0,
        0x00E0u16 & 0x0F00 == 0,
        0x00E0u16 & 0x00F0 == 0xE0,
        0x00E0u16 & 0x000F == 0,
        0x00EEu16 & 0xF000 == 0,
        0x00EEu16 & 0x0F00 == 0,
        0x00EEu16 & 0x00F0 == 0xE0,
        0x00EEu16 & 0x000F == 0xE,
{
}

/// Decoding is a left inverse of encoding: every well-formed instruction
/// decodes back from the word that encodes it.
pub proof fn lemma_decode_encode(op: Opcode)
    requires
        op.wf(),
    ensures
        spec_decode(spec_encode(op)) == Ok::<Opcode, OpcodeError>(op),
{
    match op {
        Opcode::ClearScreen => {
            lemma_unpack_fixed();
        },
        Opcode::Return => {
            lemma_unpack_fixed();
        },
        Opcode::JumpTo { addr, plus_v0 } => {
            lemma_unpack_addr(if plus_v0 { 0xB } else { 0x1 }, addr);
        },
        Opcode::Call(addr) => {
            lemma_unpack_addr(0x2, addr);
        },
        Opcode::SkipIfRegEqualConst { not_equal, reg, value } => {
            lemma_unpack_x_nn(if not_equal { 0x4 } else { 0x3 }, reg as u16, value as u16);
        },
        Opcode::SkipIfRegsEqual { not_equal, regs } => {
            lemma_unpack_x_y_n(
                if not_equal { 0x9 } else { 0x5 },
                regs.0 as u16,
                regs.1 as u16,
                0,
            );
        },
        Opcode::SetRegToConst { add, reg, value } => {
            lemma_unpack_x_nn(if add { 0x7 } else { 0x6 }, reg as u16, value as u16);
        },
        Opcode::SetRegToReg { regs, mode } => {
            lemma_unpack_x_y_n(0x8, regs.0 as u16, regs.1 as u16, spec_mode_to_u8(mode) as u16);
            lemma_mode_round_trip(mode);
        },
        Opcode::SetAddressReg(addr) => {
            lemma_unpack_addr(0xA, addr);
        },
        Opcode::SetRegToRandom { reg, mask } => {
            lemma_unpack_x_nn(0xC, reg as u16, mask as u16);
        },
        Opcode::DrawSprite { regs, rows } => {
            lemma_unpack_x_y_n(0xD, regs.0 as u16, regs.1 as u16, rows as u16);
        },
        Opcode::SkipIfKeyInRegPressed { not_pressed, reg } => {
            lemma_unpack_x_nn(0xE, reg as u16, if not_pressed { 0xA1 } else { 0x9E });
        },
        Opcode::WaitForKeyInReg(reg) => {
            lemma_unpack_x_nn(0xF, reg as u16, 0x0A);
        },
        Opcode::SetRegToDelayTimer(reg) => {
            lemma_unpack_x_nn(0xF, reg as u16, 0x07);
        },
        Opcode::SetDelayTimerToReg(reg) => {
            lemma_unpack_x_nn(0xF, reg as u16, 0x15);
        },
        Opcode::SetSoundTimerToReg(reg) => {
            lemma_unpack_x_nn(0xF, reg as u16, 0x18);
        },
        Opcode::AddRegToAddressReg(reg) => {
            lemma_unpack_x_nn(0xF, reg as u16, 0x1E);
        },
        Opcode::SetAddressRegToCharInReg(reg) => {
            lemma_unpack_x_nn(0xF, reg as u16, 0x29);
        },
        Opcode::RegToBCD(reg) => {
            lemma_unpack_x_nn(0xF, reg as u16, 0x33);
        },
        Opcode::DumpRegsToAddr(reg) => {
            lemma_unpack_x_nn(0xF, reg as u16, 0x55);
        },
        Opcode::LoadRegsFromAddr(reg) => {
            lemma_unpack_x_nn(0xF, reg as u16, 0x65);
        },
    }
}

impl Opcode {
    /// The instruction word this instruction encodes to.
    pub fn to_u16(&self) -> (w: u16)
        requires
            self.wf(),
        ensures
            w == spec_encode(*self),
    {
        match self {
            Opcode::ClearScreen => 0x00E0,
            Opcode::Return => 0x00EE,
            Opcode::JumpTo { addr, plus_v0 } => {
                (if *plus_v0 { 0xB000u16 } else { 0x1000u16 }) + *addr
            },
            Opcode::Call(addr) => 0x2000u16 + *addr,
            Opcode::SkipIfRegEqualConst { not_equal, reg, value } => {
                (if *not_equal { 0x4000u16 } else { 0x3000u16 }) + (*reg as u16) * 0x100
                    + (*value as u16)
            },
            Opcode::SkipIfRegsEqual { not_equal, regs } => {
                (if *not_equal { 0x9000u16 } else { 0x5000u16 }) + (regs.0 as u16) * 0x100
                    + (regs.1 as u16) * 0x10
            },
            Opcode::SetRegToConst { add, reg, value } => {
                (if *add { 0x7000u16 } else { 0x6000u16 }) + (*reg as u16) * 0x100
                    + (*value as u16)
            },
            Opcode::SetRegToReg { regs, mode } => {
                0x8000u16 + (regs.0 as u16) * 0x100 + (regs.1 as u16) * 0x10
                    + (mode.to_u8() as u16)
            },
            Opcode::SetAddressReg(addr) => 0xA000u16 + *addr,
            Opcode::SetRegToRandom { reg, mask } => {
                0xC000u16 + (*reg as u16) * 0x100 + (*mask as u16)
            },
            Opcode::DrawSprite { regs, rows } => {
                0xD000u16 + (regs.0 as u16) * 0x100 + (regs.1 as u16) * 0x10 + (*rows as u16)
            },
            Opcode::SkipIfKeyInRegPressed { not_pressed, reg } => {
                0xE000u16 + (*reg as u16) * 0x100 + (if *not_pressed { 0xA1u16 } else { 0x9Eu16 })
            },
            Opcode::WaitForKeyInReg(reg) => 0xF00Au16 + (*reg as u16) * 0x100,
            Opcode::SetRegToDelayTimer(reg) => 0xF007u16 + (*reg as u16) * 0x100,
            Opcode::SetDelayTimerToReg(reg) => 0xF015u16 + (*reg as u16) * 0x100,
            Opcode::SetSoundTimerToReg(reg) => 0xF018u16 + (*reg as u16) * 0x100,
            Opcode::AddRegToAddressReg(reg) => 0xF01Eu16 + (*reg as u16) * 0x100,
            Opcode::SetAddressRegToCharInReg(reg) => 0xF029u16 + (*reg as u16) * 0x100,
            Opcode::RegToBCD(reg) => 0xF033u16 + (*reg as u16) * 0x100,
            Opcode::DumpRegsToAddr(reg) => 0xF055u16 + (*reg as u16) * 0x100,
            Opcode::LoadRegsFromAddr(reg) => 0xF065u16 + (*reg as u16) * 0x100,
        }
    }
}

} // verus!
