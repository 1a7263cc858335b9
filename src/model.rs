//! The mathematical model of the machine: its state as plain sequences and integers,
//! and the effect of every instruction as a pure function of that state.
use vstd::prelude::*;

verus! {

/// Bytes of addressable memory.
pub const MEMORY_SIZE: usize = 4096;

/// Width of the framebuffer in pixels.
pub const SCREEN_WIDTH: u8 = 64;

/// Height of the framebuffer in pixels.
pub const SCREEN_HEIGHT: u8 = 32;

/// Number of pixels in the framebuffer, stored row by row.
pub const SCREEN_PIXELS: usize = 2048;

/// Address at which the hexadecimal digit sprites are stored.
pub const FONT_ADDRESS: u16 = 0x50;

/// Address at which the program image is loaded and execution starts.
pub const PROGRAM_START: u16 = 0x200;

/// Maximum depth of the call stack.
pub const STACK_CAPACITY: usize = 16;

/// Number of instruction cycles run per frame unless configured otherwise.
pub const DEFAULT_CYCLES_PER_FRAME: u32 = 8;

/// The sixteen 5-byte sprites of the hexadecimal digits 0 to F.
pub const FONT_SIZE: usize = 80;

/// Conditions under which the machine refuses to go on.
#[derive(PartialEq, Eq, Structural, Clone, Copy, Debug)]
pub enum MachineError {
    /// The program image does not fit in memory after the load address.
    OutOfBounds,
    /// A subroutine call was made with a full call stack.
    StackOverflow,
    /// A return was made with an empty call stack.
    StackUnderflow,
}

/// The whole observable state of a machine.
pub struct MachineView {
    pub memory: Seq<u8>,
    pub v: Seq<u8>,
    pub index: u16,
    pub pc: u16,
    pub screen: Seq<bool>,
    pub stack: Seq<u16>,
    pub delay_timer: u8,
    pub sound_timer: u8,
    pub waiting_for_key: Option<u8>,
    pub shift_quirk: bool,
    pub cycles_per_frame: u32,
}

/// Index of the flag register.
pub open spec fn vf() -> int {
    15
}

impl MachineView {
    /// Sizes are fixed, every address held is within memory, and the register that a
    /// key wait targets exists.
    pub open spec fn wf(self) -> bool {
        &&& self.memory.len() == 4096
        &&& self.v.len() == 16
        &&& self.index < 4096
        &&& self.pc < 4096
        &&& self.screen.len() == 2048
        &&& self.stack.len() <= 16
        &&& forall|i: int| 0 <= i < self.stack.len() ==> self.stack[i] < 4096
        &&& match self.waiting_for_key {
            Some(r) => r < 16,
            None => true,
        }
    }
}

/// The font table: one 5-byte sprite for each hexadecimal digit.
pub open spec fn font() -> Seq<u8> {
    seq![
        0xF0u8, 0x90, 0x90, 0x90, 0xF0, 0x20, 0x60, 0x20, 0x20, 0x70,
        0xF0, 0x10, 0xF0, 0x80, 0xF0, 0xF0, 0x10, 0xF0, 0x10, 0xF0,
        0x90, 0x90, 0xF0, 0x10, 0x10, 0xF0, 0x80, 0xF0, 0x10, 0xF0,
        0xF0, 0x80, 0xF0, 0x90, 0xF0, 0xF0, 0x10, 0x20, 0x40, 0x40,
        0xF0, 0x90, 0xF0, 0x90, 0xF0, 0xF0, 0x90, 0xF0, 0x10, 0xF0,
        0xF0, 0x90, 0xF0, 0x90, 0x90, 0xE0, 0x90, 0xE0, 0x90, 0xE0,
        0xF0, 0x80, 0x80, 0x80, 0xF0, 0xE0, 0x90, 0x90, 0x90, 0xE0,
        0xF0, 0x80, 0xF0, 0x80, 0xF0, 0xF0, 0x80, 0xF0, 0x80, 0x80,
    ]
}

/// A framebuffer with every pixel unlit.
pub open spec fn blank_screen() -> Seq<bool> {
    Seq::new(2048, |i: int| false)
}

/// Memory right after loading `program`: font table at its address, the program at
/// the load address, zero everywhere else.
pub open spec fn initial_memory(program: Seq<u8>) -> Seq<u8> {
    Seq::new(
        4096,
        |a: int|
            if 0x50 <= a < 0x50 + 80 {
                font()[a - 0x50]
            } else if 0x200 <= a < 0x200 + program.len() {
                program[a - 0x200]
            } else {
                0u8
            },
    )
}

/// The state of a machine freshly constructed from `program`.
pub open spec fn initial_state(program: Seq<u8>) -> MachineView {
    MachineView {
        memory: initial_memory(program),
        v: Seq::new(16, |i: int| 0u8),
        index: 0,
        pc: 0x200,
        screen: blank_screen(),
        stack: Seq::empty(),
        delay_timer: 0,
        sound_timer: 0,
        waiting_for_key: None,
        shift_quirk: false,
        cycles_per_frame: 8,
    }
}

/// Whether a program image fits in memory after the load address.
pub open spec fn program_fits(program: Seq<u8>) -> bool {
    program.len() <= 4096 - 0x200
}

// ---------------------------------------------------------------------------
// Instruction fields

/// The primary opcode: the high nibble of the instruction.
pub open spec fn op_group(op: u16) -> u16 {
    op >> 12u16
}

/// The first register operand.
pub open spec fn op_x(op: u16) -> u16 {
    (op >> 8u16) & 0xFu16
}

/// The second register operand.
pub open spec fn op_y(op: u16) -> u16 {
    (op >> 4u16) & 0xFu16
}

/// The low nibble.
pub open spec fn op_n(op: u16) -> u16 {
    op & 0xFu16
}

/// The low byte, an immediate value.
pub open spec fn op_kk(op: u16) -> u8 {
    (op & 0xFFu16) as u8
}

/// The low twelve bits, an address.
pub open spec fn op_nnn(op: u16) -> u16 {
    op & 0xFFFu16
}

/// The instruction stored at `pc`, high byte first.
pub open spec fn fetch(m: MachineView) -> u16 {
    ((m.memory[m.pc as int] as u16) << 8u16) | (m.memory[(m.pc as int + 1) % 4096] as u16)
}

/// Bounds of the instruction fields.
pub proof fn lemma_fields(op: u16)
    ensures
        op_group(op) < 16,
        op_x(op) < 16,
        op_y(op) < 16,
        op_n(op) < 16,
        op_nnn(op) < 4096,
        op_group(op) != 0 ==> op != 0x00E0 && op != 0x00EE,
{
    assert(op >> 12u16 != 0 ==> op != 0x00E0u16 && op != 0x00EEu16) by (bit_vector);
    assert(op >> 12u16 < 16) by (bit_vector);
    assert((op >> 8u16) & 0xFu16 < 16) by (bit_vector);
    assert((op >> 4u16) & 0xFu16 < 16) by (bit_vector);
    assert(op & 0xFu16 < 16) by (bit_vector);
    assert(op & 0xFFFu16 < 4096) by (bit_vector);
}

/// Sprite pixel (`ix`, `iy`) lands on screen position (`c`, `r`) and on no other.
pub proof fn lemma_sprite_position(x0: int, y0: int, ix: int, iy: int, r: int, c: int)
    requires
        0 <= x0 < 64,
        0 <= y0 < 32,
        0 <= ix < 8,
        0 <= iy < 16,
        0 <= r < 32,
        0 <= c < 64,
    ensures
        ((r - y0 + 32) % 32 == iy && (c - x0 + 64) % 64 == ix) <==> (r == (y0 + iy) % 32 && c
            == (x0 + ix) % 64),
        pixel_at(x0, y0, ix, iy) == ((y0 + iy) % 32) * 64 + (x0 + ix) % 64,
{
}

// ---------------------------------------------------------------------------
// Small state changes

/// The address of the next instruction.
pub open spec fn next_pc(pc: u16) -> u16 {
    ((pc + 2) % 4096) as u16
}

/// The address of the instruction after the next one.
pub open spec fn skip_pc(pc: u16) -> u16 {
    ((pc + 4) % 4096) as u16
}

/// Moves on to the next instruction.
pub open spec fn advance(m: MachineView) -> MachineView {
    MachineView { pc: next_pc(m.pc), ..m }
}

/// Moves on, past the next instruction when `cond` holds.
pub open spec fn skip_if(m: MachineView, cond: bool) -> MachineView {
    MachineView { pc: if cond { skip_pc(m.pc) } else { next_pc(m.pc) }, ..m }
}

/// Writes register `x`.
pub open spec fn set_reg(m: MachineView, x: int, val: u8) -> MachineView {
    MachineView { v: m.v.update(x, val), ..m }
}

/// Writes register `x`, then the flag register.
pub open spec fn set_reg_flag(m: MachineView, x: int, val: u8, flag: u8) -> MachineView {
    MachineView { v: m.v.update(vf(), flag).update(x, val), ..m }
}

/// Whether key `k` is held; values past the last key are never held.
pub open spec fn key_down(keys: Seq<bool>, k: u8) -> bool {
    k < 16 && keys[k as int]
}


// ---------------------------------------------------------------------------
// Arithmetic and logic: group 8

/// The effect of `8xyN` on registers. Operands are read before anything is written;
/// the flag register is written before `Vx`, so when `x` is the flag register the
/// result wins.
pub open spec fn alu(m: MachineView, x: int, y: int, n: u16) -> MachineView {
    let vx = m.v[x];
    let vy = m.v[y];
    let shift_src = if m.shift_quirk { vx } else { vy };
    if n == 0 {
        set_reg(m, x, vy)
    } else if n == 1 {
        set_reg(m, x, vx | vy)
    } else if n == 2 {
        set_reg(m, x, vx & vy)
    } else if n == 3 {
        set_reg(m, x, vx ^ vy)
    } else if n == 4 {
        set_reg_flag(m, x, ((vx + vy) % 256) as u8, if vx + vy > 255 { 1 } else { 0 })
    } else if n == 5 {
        set_reg_flag(m, x, ((vx - vy + 256) % 256) as u8, if vx > vy { 1 } else { 0 })
    } else if n == 6 {
        set_reg_flag(m, x, shift_src >> 1u8, shift_src & 1u8)
    } else if n == 7 {
        set_reg_flag(m, x, ((vy - vx + 256) % 256) as u8, if vy > vx { 1 } else { 0 })
    } else if n == 0xE {
        set_reg_flag(m, x, ((shift_src * 2) % 256) as u8, shift_src & 0x80u8)
    } else {
        m
    }
}

// ---------------------------------------------------------------------------
// Timers, keys, index register and memory transfers: group F

/// The three decimal digits of `b`, hundreds first.
pub open spec fn bcd_digit(b: u8, k: int) -> u8 {
    if k == 0 {
        b / 100
    } else if k == 1 {
        (b / 10) % 10
    } else {
        b % 10
    }
}

/// Distance from `base` up to `a`, going round memory.
pub open spec fn mem_offset(base: u16, a: int) -> int {
    (a - base + 4096) % 4096
}

/// The effect of `FxKK`.
pub open spec fn misc(m: MachineView, x: int, kk: u8) -> MachineView {
    let vx = m.v[x];
    if kk == 0x07 {
        advance(set_reg(m, x, m.delay_timer))
    } else if kk == 0x0A {
        advance(MachineView { waiting_for_key: Some(x as u8), ..m })
    } else if kk == 0x15 {
        advance(MachineView { delay_timer: vx, ..m })
    } else if kk == 0x18 {
        advance(MachineView { sound_timer: vx, ..m })
    } else if kk == 0x1E {
        advance(MachineView { index: ((m.index + vx) % 4096) as u16, ..m })
    } else if kk == 0x29 {
        advance(MachineView { index: (0x50 + vx * 5) as u16, ..m })
    } else if kk == 0x33 {
        advance(
            MachineView {
                memory: Seq::new(
                    4096,
                    |a: int|
                        if mem_offset(m.index, a) < 3 {
                            bcd_digit(vx, mem_offset(m.index, a))
                        } else {
                            m.memory[a]
                        },
                ),
                ..m
            },
        )
    } else if kk == 0x55 {
        advance(
            MachineView {
                memory: Seq::new(
                    4096,
                    |a: int|
                        if mem_offset(m.index, a) <= x {
                            m.v[mem_offset(m.index, a)]
                        } else {
                            m.memory[a]
                        },
                ),
                ..m
            },
        )
    } else if kk == 0x65 {
        advance(
            MachineView {
                v: Seq::new(
                    16,
                    |i: int| if i <= x { m.memory[(m.index + i) % 4096] } else { m.v[i] },
                ),
                ..m
            },
        )
    } else {
        advance(m)
    }
}

// ---------------------------------------------------------------------------
// Drawing: group D

/// Pixel `dx` (0 is the leftmost) of a sprite row.
pub open spec fn sprite_bit(row: u8, dx: int) -> bool {
    (row >> ((7 - dx) as u8)) & 1u8 == 1u8
}

/// Position in the framebuffer of pixel (`dx`, `dy`) of a sprite whose top-left corner
/// is at column `x0`, row `y0`; each coordinate wraps round the screen on its own.
pub open spec fn pixel_at(x0: int, y0: int, dx: int, dy: int) -> int {
    ((y0 + dy) % 32) * 64 + (x0 + dx) % 64
}

/// Whether the `n`-row sprite at `sprite` in memory, drawn with its top-left corner at
/// column `x0`, row `y0`, has a set pixel on screen position (`c`, `r`).
pub open spec fn sprite_covers(
    memory: Seq<u8>,
    sprite: u16,
    n: int,
    x0: int,
    y0: int,
    r: int,
    c: int,
) -> bool {
    let dy = (r - y0 + 32) % 32;
    let dx = (c - x0 + 64) % 64;
    dy < n && dx < 8 && sprite_bit(memory[(sprite + dy) % 4096], dx)
}

/// Whether drawing the sprite turns some lit pixel off.
pub open spec fn sprite_collides(
    memory: Seq<u8>,
    screen: Seq<bool>,
    sprite: u16,
    n: int,
    x0: int,
    y0: int,
) -> bool {
    exists|dy: int, dx: int|
        0 <= dy < n && 0 <= dx < 8 && #[trigger] sprite_bit(memory[(sprite + dy) % 4096], dx)
            && screen[#[trigger] pixel_at(x0, y0, dx, dy)]
}

/// The framebuffer after the sprite is XORed onto it.
pub open spec fn sprite_drawn(
    memory: Seq<u8>,
    screen: Seq<bool>,
    sprite: u16,
    n: int,
    x0: int,
    y0: int,
) -> Seq<bool> {
    Seq::new(
        2048,
        |i: int| screen[i] != sprite_covers(memory, sprite, n, x0, y0, i / 64, i % 64),
    )
}

/// The effect of `Dxyn`: draws the `n`-row sprite at the index register at
/// (`Vx` mod 64, `Vy` mod 32) and sets the flag register to 1 on a collision, else 0.
pub open spec fn draw(m: MachineView, x: int, y: int, n: int) -> MachineView {
    let x0 = m.v[x] % 64;
    let y0 = m.v[y] % 32;
    MachineView {
        screen: sprite_drawn(m.memory, m.screen, m.index, n, x0 as int, y0 as int),
        v: m.v.update(
            vf(),
            if sprite_collides(m.memory, m.screen, m.index, n, x0 as int, y0 as int) {
                1
            } else {
                0
            },
        ),
        ..m
    }
}

// ---------------------------------------------------------------------------
// One instruction

/// The state after executing instruction `op`, with `keys` the keys held and `random`
/// the byte that a random-number instruction would draw; or the error that stops it,
/// in which case the machine is left as it was.
#[verifier::opaque]
pub open spec fn execute(m: MachineView, op: u16, keys: Seq<bool>, random: u8) -> Result<
    MachineView,
    MachineError,
> {
    let g = op_group(op);
    let x = op_x(op) as int;
    let y = op_y(op) as int;
    let n = op_n(op);
    let kk = op_kk(op);
    let nnn = op_nnn(op);
    if op == 0x00E0 {
        Ok(advance(MachineView { screen: blank_screen(), ..m }))
    } else if op == 0x00EE {
        if m.stack.len() == 0 {
            Err(MachineError::StackUnderflow)
        } else {
            Ok(MachineView { pc: m.stack.last(), stack: m.stack.drop_last(), ..m })
        }
    } else if g == 1 {
        Ok(MachineView { pc: nnn, ..m })
    } else if g == 2 {
        if m.stack.len() >= 16 {
            Err(MachineError::StackOverflow)
        } else {
            Ok(MachineView { pc: nnn, stack: m.stack.push(next_pc(m.pc)), ..m })
        }
    } else if g == 3 {
        Ok(skip_if(m, m.v[x] == kk))
    } else if g == 4 {
        Ok(skip_if(m, m.v[x] != kk))
    } else if g == 5 && n == 0 {
        Ok(skip_if(m, m.v[x] == m.v[y]))
    } else if g == 6 {
        Ok(advance(set_reg(m, x, kk)))
    } else if g == 7 {
        Ok(advance(set_reg(m, x, ((m.v[x] + kk) % 256) as u8)))
    } else if g == 8 {
        Ok(advance(alu(m, x, y, n)))
    } else if g == 9 && n == 0 {
        Ok(skip_if(m, m.v[x] != m.v[y]))
    } else if g == 0xA {
        Ok(advance(MachineView { index: nnn, ..m }))
    } else if g == 0xB {
        Ok(MachineView { pc: ((nnn + m.v[0]) % 4096) as u16, ..m })
    } else if g == 0xC {
        Ok(advance(set_reg(m, x, random & kk)))
    } else if g == 0xD {
        Ok(advance(draw(m, x, y, n as int)))
    } else if g == 0xE && kk == 0x9E {
        Ok(skip_if(m, key_down(keys, m.v[x])))
    } else if g == 0xE && kk == 0xA1 {
        Ok(skip_if(m, !key_down(keys, m.v[x])))
    } else if g == 0xF {
        Ok(misc(m, x, kk))
    } else {
        Ok(advance(m))
    }
}

/// The lowest-numbered key held, if any.
pub open spec fn first_key(keys: Seq<bool>) -> Option<int> {
    if exists|k: int| 0 <= k < keys.len() && keys[k] {
        Some(choose|k: int| 0 <= k < keys.len() && keys[k] && forall|j: int| 0 <= j < k ==> !keys[j])
    } else {
        None
    }
}

/// One cycle: while a key wait is pending, the lowest held key (if any) goes to the
/// waiting register and ends the wait; otherwise the instruction at `pc` runs.
pub open spec fn step(m: MachineView, keys: Seq<bool>, random: u8) -> Result<MachineView, MachineError> {
    match m.waiting_for_key {
        Some(r) => match first_key(keys) {
            Some(k) => Ok(MachineView { v: m.v.update(r as int, k as u8), waiting_for_key: None, ..m }),
            None => Ok(m),
        },
        None => execute(m, fetch(m), keys, random),
    }
}

/// Runs one cycle for each byte of `randoms` in turn, each cycle getting its byte;
/// stops at the first error. The state reached, and the error if one stopped the run.
pub open spec fn run_cycles(m: MachineView, keys: Seq<bool>, randoms: Seq<u8>) -> (MachineView, Option<MachineError>)
    decreases randoms.len(),
{
    if randoms.len() == 0 {
        (m, None)
    } else {
        let (p, e) = run_cycles(m, keys, randoms.drop_last());
        match e {
            Some(err) => (p, Some(err)),
            None => match step(p, keys, randoms.last()) {
                Ok(q) => (q, None),
                Err(err) => (p, Some(err)),
            },
        }
    }
}

/// Counts a timer down by one, stopping at zero.
pub open spec fn tick(t: u8) -> u8 {
    if t > 0 { (t - 1) as u8 } else { 0 }
}

/// Both timers counted down.
pub open spec fn tick_timers(m: MachineView) -> MachineView {
    MachineView { delay_timer: tick(m.delay_timer), sound_timer: tick(m.sound_timer), ..m }
}

/// A frame: the cycles, one per byte of `randoms`, then both timers counted down. When a
/// cycle fails the frame stops there, with the timers left alone.
pub open spec fn frame(m: MachineView, keys: Seq<bool>, randoms: Seq<u8>) -> (MachineView, Result<(), MachineError>) {
    let (p, e) = run_cycles(m, keys, randoms);
    match e {
        Some(err) => (p, Err(err)),
        None => (tick_timers(p), Ok(())),
    }
}

} // verus!
