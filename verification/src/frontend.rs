//! The capability a host must provide around the engine: presenting a frame
//! and producing the current key snapshot. The engine depends only on this
//! pair, never on a concrete presentation technology.

use vstd::prelude::*;

use crate::machine::Chip8;

verus! {

/// A front end drives the machine: it presents the framebuffer (row-major,
/// 64 x 32 pixels), supplies fresh key snapshots, and owns the real-time
/// loop that calls the stepping operation.
pub trait Frontend {
    fn draw(&mut self, screen: &[bool; 2048]);

    fn get_keys(&mut self) -> [bool; 16];

    fn emulate_loop(&mut self, chip8: Chip8);
}

} // verus!
