//! A verified CHIP-8 virtual machine core: a pure opcode decoder and an
//! execution engine covering the fetch-decode-execute cycle, the
//! register/memory/timer state machine, and the XOR sprite-drawing model.

pub mod frontend;
pub mod laws;
pub mod machine;
pub mod opcode;
