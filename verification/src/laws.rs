//! Laws of the instruction set, proved over the specification functions that
//! the engine's contracts are stated with.

use vstd::prelude::*;

use crate::machine::{
    pixel_index, spec_cycle, spec_draw, spec_draw_row, spec_fetch_exec, spec_resolve_key,
    spec_run, spec_step, wf, RuntimeError, State,
};
use crate::opcode::{Opcode, SetRegMode};

verus! {

/// Register-to-register addition, for registers other than the flag
/// register: register x receives (a + b) mod 256, and the flag register
/// receives 1 exactly when a + b > 255, else 0.
pub proof fn lemma_add_flag(s: State, x: u8, y: u8, a: u8, b: u8, keys: Seq<bool>, rand: u8)
    requires
        wf(s),
        x < 15,
        y < 15,
        s.regs[x as int] == a,
        s.regs[y as int] == b,
    ensures
        ({
            let r = spec_step(
                s,
                Opcode::SetRegToReg { regs: (x, y), mode: SetRegMode::Add },
                keys,
                rand,
            );
            &&& r matches Ok(s2)
            &&& r->Ok_0.regs[x as int] == (a + b) % 256
            &&& r->Ok_0.regs[15] == (if a + b > 255 {
                1u8
            } else {
                0u8
            })
        }),
{
    assert((a + b) % 256 == if a + b > 255 {
        a + b - 256
    } else {
        a + b
    });
}

/// Register-to-register subtraction, for registers other than the flag
/// register: register x receives (a - b) mod 256, and the flag register
/// receives 0 exactly when a < b (a borrow), else 1.
pub proof fn lemma_subtract_flag(s: State, x: u8, y: u8, a: u8, b: u8, keys: Seq<bool>, rand: u8)
    requires
        wf(s),
        x < 15,
        y < 15,
        s.regs[x as int] == a,
        s.regs[y as int] == b,
    ensures
        ({
            let r = spec_step(
                s,
                Opcode::SetRegToReg { regs: (x, y), mode: SetRegMode::Subtract },
                keys,
                rand,
            );
            &&& r matches Ok(s2)
            &&& r->Ok_0.regs[x as int] == (a - b) % 256
            &&& r->Ok_0.regs[15] == (if a < b {
                0u8
            } else {
                1u8
            })
        }),
{
    assert((a - b) % 256 == if a < b {
        a - b + 256
    } else {
        a - b
    });
}

/// The bulk register dump writes exactly the n + 1 registers 0 up to and
/// including n to memory at the address register, and no other byte moves.
pub proof fn lemma_dump_copies(s: State, n: u8, keys: Seq<bool>, rand: u8)
    requires
        wf(s),
        n < 16,
        s.address_reg + n < 4096,
    ensures
        ({
            let r = spec_step(s, Opcode::DumpRegsToAddr(n), keys, rand);
            &&& r matches Ok(s2)
            &&& forall|k: int|
                0 <= k <= n ==> r->Ok_0.memory[s.address_reg + k] == s.regs[k]
            &&& forall|a: int|
                0 <= a < 4096 && !(s.address_reg <= a <= s.address_reg + n)
                    ==> r->Ok_0.memory[a] == s.memory[a]
            &&& r->Ok_0.regs == s.regs
        }),
{
}

/// The bulk register load fills exactly the n + 1 registers 0 up to and
/// including n from memory at the address register, and no other register
/// moves.
pub proof fn lemma_load_copies(s: State, n: u8, keys: Seq<bool>, rand: u8)
    requires
        wf(s),
        n < 16,
        s.address_reg + n < 4096,
    ensures
        ({
            let r = spec_step(s, Opcode::LoadRegsFromAddr(n), keys, rand);
            &&& r matches Ok(s2)
            &&& forall|k: int| 0 <= k <= n ==> r->Ok_0.regs[k] == s.memory[s.address_reg + k]
            &&& forall|k: int| n < k < 16 ==> r->Ok_0.regs[k] == s.regs[k]
            &&& r->Ok_0.memory == s.memory
        }),
{
}

/// Returning with an empty call stack fails with the call-stack-underflow
/// error; an error never mutates the machine, so the program counter is
/// untouched.
pub proof fn lemma_return_underflow(s: State, keys: Seq<bool>, rand: u8)
    requires
        s.stack.len() == 0,
    ensures
        spec_step(s, Opcode::Return, keys, rand) == Err::<State, RuntimeError>(
            RuntimeError::EmptyCallStack,
        ),
{
}

/// The binary-coded-decimal decomposition writes the hundreds, tens and ones
/// digits of the register's value to the three bytes at the address register.
pub proof fn lemma_bcd_digits(s: State, n: u8, v: u8, keys: Seq<bool>, rand: u8)
    requires
        wf(s),
        n < 16,
        s.regs[n as int] == v,
        s.address_reg + 2 < 4096,
    ensures
        ({
            let r = spec_step(s, Opcode::RegToBCD(n), keys, rand);
            &&& r matches Ok(s2)
            &&& r->Ok_0.memory[s.address_reg as int] == v / 100
            &&& r->Ok_0.memory[s.address_reg + 1] == (v / 10) % 10
            &&& r->Ok_0.memory[s.address_reg + 2] == v % 10
        }),
{
}

/// Whether a bit of one sprite byte lands on flat framebuffer index p: some
/// column below ncols whose bit is set maps there.
pub open spec fn row_covers(byte: u8, x: int, y: int, ncols: int, p: int) -> bool {
    exists|col: int|
        0 <= col < ncols && byte & (128u8 >> (col as u8)) != 0 && #[trigger] pixel_index(
            x + col,
            y,
        ) == p
}

/// Whether a set bit of the sprite of nrows bytes at base lands on flat
/// framebuffer index p.
pub open spec fn covers(mem: Seq<u8>, base: int, x: int, y: int, nrows: int, p: int) -> bool {
    exists|row: int|
        0 <= row < nrows && #[trigger] row_covers(mem[base + row], x, y + row, 8, p)
}

/// Values within one divisor of each other with equal remainders are equal.
proof fn lemma_mod64_inj(a: int, b: int)
    requires
        a % 64 == b % 64,
        -64 < a - b < 64,
    ensures
        a == b,
{
    vstd::arithmetic::div_mod::lemma_fundamental_div_mod(a, 64);
    vstd::arithmetic::div_mod::lemma_fundamental_div_mod(b, 64);
}

/// Values within one divisor of each other with equal remainders are equal.
proof fn lemma_mod32_inj(a: int, b: int)
    requires
        a % 32 == b % 32,
        -32 < a - b < 32,
    ensures
        a == b,
{
    vstd::arithmetic::div_mod::lemma_fundamental_div_mod(a, 32);
    vstd::arithmetic::div_mod::lemma_fundamental_div_mod(b, 32);
}

/// A flat framebuffer index is in range and decomposes into its row and
/// column parts.
proof fn lemma_pixel_index_parts(x: int, y: int)
    ensures
        0 <= pixel_index(x, y) < 2048,
        pixel_index(x, y) % 64 == x % 64,
        pixel_index(x, y) / 64 == y % 32,
{
    vstd::arithmetic::div_mod::lemma_mod_bound(x, 64);
    vstd::arithmetic::div_mod::lemma_mod_bound(y, 32);
    let p = pixel_index(x, y);
    vstd::arithmetic::div_mod::lemma_fundamental_div_mod(p, 64);
    vstd::arithmetic::div_mod::lemma_mod_bound(p, 64);
    let c = y % 32;
    let r = x % 64;
    assert(p == 64 * c + r);
    assert(p == 64 * (p / 64) + p % 64);
    assert(0 <= p % 64 < 64);
    assert(64 * (p / 64 - c) == r - p % 64);
}

/// Drawing one sprite byte, pointwise: a pixel is toggled exactly when a set
/// bit of the byte lands on it, and a collision is reported exactly when a
/// set bit lands on a pixel that was set.
proof fn lemma_draw_row_pointwise(screen: Seq<bool>, byte: u8, x: int, y: int, ncols: int)
    requires
        screen.len() == 2048,
        0 <= ncols <= 8,
        0 <= x,
        0 <= y,
    ensures
        ({
            let r = spec_draw_row(screen, byte, x, y, ncols);
            &&& r.0.len() == 2048
            &&& forall|p: int|
                0 <= p < 2048 ==> r.0[p] == (if row_covers(byte, x, y, ncols, p) {
                    !screen[p]
                } else {
                    screen[p]
                })
            &&& r.1 == (exists|p: int|
                0 <= p < 2048 && row_covers(byte, x, y, ncols, p) && screen[p])
        }),
    decreases ncols,
{
    let r = spec_draw_row(screen, byte, x, y, ncols);
    if ncols == 0 {
        assert(forall|p: int| !row_covers(byte, x, y, 0, p));
        assert(!(exists|p: int| 0 <= p < 2048 && row_covers(byte, x, y, 0, p) && screen[p]));
    } else {
        lemma_draw_row_pointwise(screen, byte, x, y, ncols - 1);
        let prev = spec_draw_row(screen, byte, x, y, ncols - 1);
        let col0 = ncols - 1;
        if byte & (128u8 >> (col0 as u8)) != 0 {
            let p0 = pixel_index(x + col0, y);
            lemma_pixel_index_parts(x + col0, y);
            assert forall|col: int| 0 <= col < ncols - 1 implies #[trigger] pixel_index(x + col, y)
                != p0 by {
                lemma_pixel_index_parts(x + col, y);
                if pixel_index(x + col, y) == p0 {
                    assert((x + col) % 64 == (x + col0) % 64);
                    lemma_mod64_inj(x + col, x + col0);
                }
            }
            assert(!row_covers(byte, x, y, ncols - 1, p0));
            assert(prev.0[p0] == screen[p0]);
            assert(r.0 == prev.0.update(p0, !prev.0[p0]));
            assert(r.1 == (prev.1 || prev.0[p0]));
            // the toggled pixel
            assert(row_covers(byte, x, y, ncols, p0)) by {
                assert(0 <= col0 < ncols && byte & (128u8 >> (col0 as u8)) != 0 && pixel_index(
                    x + col0,
                    y,
                ) == p0);
            }
            assert(r.0[p0] == !screen[p0]);
            // every other pixel
            assert forall|p: int| 0 <= p < 2048 && p != p0 implies r.0[p] == (if row_covers(
                byte,
                x,
                y,
                ncols,
                p,
            ) {
                !screen[p]
            } else {
                screen[p]
            }) by {
                if row_covers(byte, x, y, ncols, p) {
                    let col = choose|col: int|
                        0 <= col < ncols && byte & (128u8 >> (col as u8)) != 0 && #[trigger] pixel_index(
                            x + col,
                            y,
                        ) == p;
                    assert(col != col0);
                    assert(row_covers(byte, x, y, ncols - 1, p));
                }
                if row_covers(byte, x, y, ncols - 1, p) {
                    let col = choose|col: int|
                        0 <= col < ncols - 1 && byte & (128u8 >> (col as u8)) != 0 && #[trigger] pixel_index(
                            x + col,
                            y,
                        ) == p;
                    assert(0 <= col < ncols && byte & (128u8 >> (col as u8)) != 0 && pixel_index(
                        x + col,
                        y,
                    ) == p);
                    assert(row_covers(byte, x, y, ncols, p));
                }
            }
            // collision
            if prev.1 {
                let p = choose|p: int|
                    0 <= p < 2048 && #[trigger] row_covers(byte, x, y, ncols - 1, p) && screen[p];
                assert(row_covers(byte, x, y, ncols, p)) by {
                    let col = choose|col: int|
                        0 <= col < ncols - 1 && byte & (128u8 >> (col as u8)) != 0 && #[trigger] pixel_index(
                            x + col,
                            y,
                        ) == p;
                    assert(0 <= col < ncols && byte & (128u8 >> (col as u8)) != 0 && pixel_index(
                        x + col,
                        y,
                    ) == p);
                }
                assert(exists|p: int|
                    0 <= p < 2048 && row_covers(byte, x, y, ncols, p) && screen[p]);
            }
            if screen[p0] {
                assert(exists|p: int|
                    0 <= p < 2048 && row_covers(byte, x, y, ncols, p) && screen[p]) by {
                    assert(0 <= p0 < 2048 && row_covers(byte, x, y, ncols, p0) && screen[p0]);
                }
            }
            if exists|p: int| 0 <= p < 2048 && row_covers(byte, x, y, ncols, p) && screen[p] {
                let p = choose|p: int|
                    0 <= p < 2048 && #[trigger] row_covers(byte, x, y, ncols, p) && screen[p];
                let col = choose|col: int|
                    0 <= col < ncols && byte & (128u8 >> (col as u8)) != 0 && #[trigger] pixel_index(
                        x + col,
                        y,
                    ) == p;
                if col == col0 {
                    assert(p == p0);
                    assert(prev.0[p0] == screen[p0]);
                } else {
                    assert(0 <= col < ncols - 1 && byte & (128u8 >> (col as u8)) != 0
                        && pixel_index(x + col, y) == p);
                    assert(row_covers(byte, x, y, ncols - 1, p));
                    assert(prev.1);
                }
            }
        } else {
            assert(r == prev);
            assert forall|p: int| 0 <= p < 2048 implies row_covers(byte, x, y, ncols, p)
                == row_covers(byte, x, y, ncols - 1, p) by {
                if row_covers(byte, x, y, ncols, p) {
                    let col = choose|col: int|
                        0 <= col < ncols && byte & (128u8 >> (col as u8)) != 0 && #[trigger] pixel_index(
                            x + col,
                            y,
                        ) == p;
                    assert(col != col0);
                    assert(row_covers(byte, x, y, ncols - 1, p));
                }
                if row_covers(byte, x, y, ncols - 1, p) {
                    let col = choose|col: int|
                        0 <= col < ncols - 1 && byte & (128u8 >> (col as u8)) != 0 && #[trigger] pixel_index(
                            x + col,
                            y,
                        ) == p;
                    assert(0 <= col < ncols && byte & (128u8 >> (col as u8)) != 0 && pixel_index(
                        x + col,
                        y,
                    ) == p);
                    assert(row_covers(byte, x, y, ncols, p));
                }
            }
            assert(r.1 == (exists|p: int|
                0 <= p < 2048 && row_covers(byte, x, y, ncols, p) && screen[p])) by {
                if r.1 {
                    let p = choose|p: int|
                        0 <= p < 2048 && #[trigger] row_covers(byte, x, y, ncols - 1, p) && screen[p];
                    assert(0 <= p < 2048 && row_covers(byte, x, y, ncols, p) && screen[p]);
                }
                if exists|p: int| 0 <= p < 2048 && row_covers(byte, x, y, ncols, p) && screen[p] {
                    let p = choose|p: int|
                        0 <= p < 2048 && #[trigger] row_covers(byte, x, y, ncols, p) && screen[p];
                    assert(0 <= p < 2048 && row_covers(byte, x, y, ncols - 1, p) && screen[p]);
                }
            }
        }
    }
}

/// Drawing a sprite, pointwise: a pixel is toggled exactly when a set bit of
/// the sprite lands on it, and a collision is reported exactly when a set
/// bit lands on a pixel that was set.
proof fn lemma_draw_pointwise(screen: Seq<bool>, mem: Seq<u8>, base: int, x: int, y: int, nrows: int)
    requires
        screen.len() == 2048,
        0 <= nrows <= 32,
        0 <= x,
        0 <= y,
    ensures
        ({
            let d = spec_draw(screen, mem, base, x, y, nrows);
            &&& d.0.len() == 2048
            &&& forall|p: int|
                0 <= p < 2048 ==> d.0[p] == (if covers(mem, base, x, y, nrows, p) {
                    !screen[p]
                } else {
                    screen[p]
                })
            &&& d.1 == (exists|p: int|
                0 <= p < 2048 && covers(mem, base, x, y, nrows, p) && screen[p])
        }),
    decreases nrows,
{
    let d = spec_draw(screen, mem, base, x, y, nrows);
    if nrows == 0 {
        assert(forall|p: int| !covers(mem, base, x, y, 0, p));
        assert(!(exists|p: int| 0 <= p < 2048 && covers(mem, base, x, y, 0, p) && screen[p]));
    } else {
        lemma_draw_pointwise(screen, mem, base, x, y, nrows - 1);
        let dprev = spec_draw(screen, mem, base, x, y, nrows - 1);
        let row0 = nrows - 1;
        let byte0 = mem[base + row0];
        lemma_draw_row_pointwise(dprev.0, byte0, x, y + row0, 8);
        let rr = spec_draw_row(dprev.0, byte0, x, y + row0, 8);
        // a pixel of this row belongs to no earlier row
        assert forall|p: int|
            0 <= p < 2048 && #[trigger] row_covers(byte0, x, y + row0, 8, p) implies !covers(
            mem,
            base,
            x,
            y,
            nrows - 1,
            p,
        ) by {
            if covers(mem, base, x, y, nrows - 1, p) {
                let row = choose|row: int|
                    0 <= row < nrows - 1 && #[trigger] row_covers(mem[base + row], x, y + row, 8, p);
                let cola = choose|col: int|
                    0 <= col < 8 && mem[base + row] & (128u8 >> (col as u8)) != 0
                        && #[trigger] pixel_index(x + col, y + row) == p;
                let colb = choose|col: int|
                    0 <= col < 8 && byte0 & (128u8 >> (col as u8)) != 0 && #[trigger] pixel_index(
                        x + col,
                        y + row0,
                    ) == p;
                lemma_pixel_index_parts(x + cola, y + row);
                lemma_pixel_index_parts(x + colb, y + row0);
                assert((y + row) % 32 == (y + row0) % 32);
                lemma_mod32_inj(y + row, y + row0);
            }
        }
        // pointwise values
        assert forall|p: int| 0 <= p < 2048 implies d.0[p] == (if covers(
            mem,
            base,
            x,
            y,
            nrows,
            p,
        ) {
            !screen[p]
        } else {
            screen[p]
        }) by {
            if row_covers(byte0, x, y + row0, 8, p) {
                assert(!covers(mem, base, x, y, nrows - 1, p));
                assert(dprev.0[p] == screen[p]);
                assert(d.0[p] == !screen[p]);
                assert(covers(mem, base, x, y, nrows, p)) by {
                    assert(0 <= row0 < nrows && row_covers(mem[base + row0], x, y + row0, 8, p));
                }
            } else {
                assert(d.0[p] == dprev.0[p]);
                if covers(mem, base, x, y, nrows, p) {
                    let row = choose|row: int|
                        0 <= row < nrows && #[trigger] row_covers(mem[base + row], x, y + row, 8, p);
                    assert(row != row0);
                    assert(covers(mem, base, x, y, nrows - 1, p));
                }
                if covers(mem, base, x, y, nrows - 1, p) {
                    let row = choose|row: int|
                        0 <= row < nrows - 1 && #[trigger] row_covers(
                            mem[base + row],
                            x,
                            y + row,
                            8,
                            p,
                        );
                    assert(0 <= row < nrows && row_covers(mem[base + row], x, y + row, 8, p));
                    assert(covers(mem, base, x, y, nrows, p));
                }
            }
        }
        // collision
        assert(d.1 == (dprev.1 || rr.1));
        if dprev.1 {
            let p = choose|p: int|
                0 <= p < 2048 && #[trigger] covers(mem, base, x, y, nrows - 1, p) && screen[p];
            let row = choose|row: int|
                0 <= row < nrows - 1 && #[trigger] row_covers(mem[base + row], x, y + row, 8, p);
            assert(0 <= row < nrows && row_covers(mem[base + row], x, y + row, 8, p));
            assert(covers(mem, base, x, y, nrows, p));
            assert(exists|p: int| 0 <= p < 2048 && covers(mem, base, x, y, nrows, p) && screen[p]);
        }
        if rr.1 {
            let p = choose|p: int|
                0 <= p < 2048 && #[trigger] row_covers(byte0, x, y + row0, 8, p) && dprev.0[p];
            assert(!covers(mem, base, x, y, nrows - 1, p));
            assert(dprev.0[p] == screen[p]);
            assert(covers(mem, base, x, y, nrows, p)) by {
                assert(0 <= row0 < nrows && row_covers(mem[base + row0], x, y + row0, 8, p));
            }
            assert(exists|p: int| 0 <= p < 2048 && covers(mem, base, x, y, nrows, p) && screen[p]);
        }
        if exists|p: int| 0 <= p < 2048 && covers(mem, base, x, y, nrows, p) && screen[p] {
            let p = choose|p: int|
                0 <= p < 2048 && #[trigger] covers(mem, base, x, y, nrows, p) && screen[p];
            let row = choose|row: int|
                0 <= row < nrows && #[trigger] row_covers(mem[base + row], x, y + row, 8, p);
            if row == row0 {
                assert(!covers(mem, base, x, y, nrows - 1, p));
                assert(dprev.0[p] == screen[p]);
                assert(exists|q: int|
                    0 <= q < 2048 && row_covers(byte0, x, y + row0, 8, q) && dprev.0[q]) by {
                    assert(0 <= p < 2048 && row_covers(byte0, x, y + row0, 8, p) && dprev.0[p]);
                }
                assert(rr.1);
            } else {
                assert(0 <= row < nrows - 1 && row_covers(mem[base + row], x, y + row, 8, p));
                assert(covers(mem, base, x, y, nrows - 1, p));
                assert(exists|q: int|
                    0 <= q < 2048 && covers(mem, base, x, y, nrows - 1, q) && screen[q]);
                assert(dprev.1);
            }
        }
    }
}

/// XOR idempotence of sprite drawing: drawing the same sprite twice at the
/// same position restores the original framebuffer, and the second draw
/// reports a collision exactly when the first draw set some pixel (turned a
/// clear pixel on).
pub proof fn lemma_draw_twice(
    screen: Seq<bool>,
    mem: Seq<u8>,
    base: int,
    x: int,
    y: int,
    nrows: int,
)
    requires
        screen.len() == 2048,
        0 <= nrows <= 16,
        0 <= x,
        0 <= y,
    ensures
        ({
            let d1 = spec_draw(screen, mem, base, x, y, nrows);
            let d2 = spec_draw(d1.0, mem, base, x, y, nrows);
            &&& d2.0 == screen
            &&& d2.1 == (exists|p: int|
                0 <= p < 2048 && covers(mem, base, x, y, nrows, p) && !screen[p])
        }),
{
    let d1 = spec_draw(screen, mem, base, x, y, nrows);
    let d2 = spec_draw(d1.0, mem, base, x, y, nrows);
    lemma_draw_pointwise(screen, mem, base, x, y, nrows);
    lemma_draw_pointwise(d1.0, mem, base, x, y, nrows);
    assert forall|p: int| 0 <= p < 2048 implies d2.0[p] == screen[p] by {}
    assert(d2.0 =~= screen);
    // the second draw collides exactly on the pixels the first draw set
    if d2.1 {
        let p = choose|p: int|
            0 <= p < 2048 && #[trigger] covers(mem, base, x, y, nrows, p) && d1.0[p];
        assert(d1.0[p] == !screen[p]);
        assert(exists|q: int| 0 <= q < 2048 && covers(mem, base, x, y, nrows, q) && !screen[q]);
    }
    if exists|p: int| 0 <= p < 2048 && covers(mem, base, x, y, nrows, p) && !screen[p] {
        let p = choose|p: int|
            0 <= p < 2048 && #[trigger] covers(mem, base, x, y, nrows, p) && !screen[p];
        assert(d1.0[p] == !screen[p]);
        assert(exists|q: int| 0 <= q < 2048 && covers(mem, base, x, y, nrows, q) && d1.0[q]);
    }
}

/// A machine sitting on a jump-to-self instruction: the program counter is
/// at the program start, where the two bytes encode a jump to that same
/// address.
pub open spec fn jump_self_inv(s: State) -> bool {
    &&& wf(s)
    &&& s.pc == 0x200
    &&& s.memory[0x200] == 0x12
    &&& s.memory[0x201] == 0x00
}

/// One fetch-decode-execute step of the jump-to-self instruction returns the
/// machine to exactly the state it started in.
pub proof fn lemma_fetch_jump_self(s: State, keys: Seq<bool>, b: u8)
    requires
        jump_self_inv(s),
    ensures
        spec_fetch_exec(s, keys, b) == Ok::<State, RuntimeError>(s),
{
    let w = ((s.memory[0x200] as u16) << 8u16) | (s.memory[0x201] as u16);
    assert(((0x12u16) << 8u16) | 0x00u16 == 0x1200u16) by (bit_vector);
    assert(w == 0x1200);
    assert(0x1200u16 & 0xF000 == 0x1000 && 0x1200u16 & 0x0FFF == 0x200) by (bit_vector);
    let mid = State { pc: 0x202u16, ..s };
    assert(spec_step(mid, Opcode::JumpTo { addr: 0x200, plus_v0: false }, keys, b)
        == Ok::<State, RuntimeError>(State { pc: 0x200u16, ..mid }));
    assert((State { pc: 0x200u16, ..mid }) =~= s);
}

/// Any number of jump-to-self steps leaves the machine unchanged and never
/// errors.
pub proof fn lemma_run_jump_self(s: State, keys: Seq<bool>, rands: Seq<u8>, n: nat)
    requires
        jump_self_inv(s),
    ensures
        spec_run(s, keys, rands, n) == Ok::<State, RuntimeError>(s),
    decreases n,
{
    if n > 0 {
        lemma_fetch_jump_self(s, keys, rands[0]);
        lemma_run_jump_self(s, keys, rands.drop_first(), (n - 1) as nat);
    }
}

/// One whole stepping call on a machine sitting on the jump-to-self
/// instruction never errors, keeps the program counter at the program start
/// and the memory untouched; only registers (a resolved key wait) and timers
/// may move, so the machine is again sitting on the jump-to-self instruction.
pub proof fn lemma_cycle_jump_self(s: State, keys: Seq<bool>, rands: Seq<u8>)
    requires
        jump_self_inv(s),
    ensures
        ({
            let r = spec_cycle(s, keys, rands);
            &&& r matches Ok(s2)
            &&& jump_self_inv(r->Ok_0)
            &&& r->Ok_0.pc == 0x200
            &&& r->Ok_0.memory == s.memory
        }),
{
    let s1 = spec_resolve_key(s, keys);
    assert(jump_self_inv(s1));
    if !(s1.awaiting_key is Some) {
        lemma_run_jump_self(s1, keys, rands, (s1.speed + 1) as nat);
    }
}

/// Any number of whole stepping calls, each with its own key snapshot and
/// random bytes, applied in order; the first error aborts the run.
pub open spec fn spec_cycles(
    s: State,
    keyss: Seq<Seq<bool>>,
    randss: Seq<Seq<u8>>,
    n: nat,
) -> Result<State, RuntimeError>
    decreases n,
{
    if n == 0 {
        Ok(s)
    } else {
        match spec_cycle(s, keyss[0], randss[0]) {
            Ok(s2) => spec_cycles(s2, keyss.drop_first(), randss.drop_first(), (n - 1) as nat),
            Err(e) => Err(e),
        }
    }
}

/// The jump-to-self program run for any number of stepping calls never
/// errors, and leaves the program counter at the program start with the
/// memory untouched.
pub proof fn lemma_cycles_jump_self(
    s: State,
    keyss: Seq<Seq<bool>>,
    randss: Seq<Seq<u8>>,
    n: nat,
)
    requires
        jump_self_inv(s),
    ensures
        ({
            let r = spec_cycles(s, keyss, randss, n);
            &&& r matches Ok(s2)
            &&& jump_self_inv(r->Ok_0)
            &&& r->Ok_0.pc == 0x200
            &&& r->Ok_0.memory == s.memory
        }),
    decreases n,
{
    if n > 0 {
        lemma_cycle_jump_self(s, keyss[0], randss[0]);
        let s2 = spec_cycle(s, keyss[0], randss[0])->Ok_0;
        lemma_cycles_jump_self(s2, keyss.drop_first(), randss.drop_first(), (n - 1) as nat);
    }
}

} // verus!

