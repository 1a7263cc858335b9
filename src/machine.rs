//! The executable machine.
use vstd::prelude::*;

use crate::model::{
    alu, bcd_digit, blank_screen, draw, execute, first_key, font, frame, initial_memory,
    initial_state, lemma_fields, lemma_sprite_position, mem_offset, misc, pixel_at,
    program_fits, run_cycles, sprite_bit, step, MachineError, MachineView,
    DEFAULT_CYCLES_PER_FRAME, FONT_ADDRESS, FONT_SIZE, MEMORY_SIZE, PROGRAM_START,
    SCREEN_PIXELS, STACK_CAPACITY,
};

verus! {

/// Which of the sixteen keys are held, indexed by key value 0x0 to 0xF.
pub type KeyboardState = [bool; 16];

/// A machine: memory, registers, call stack, timers and framebuffer.
pub struct Chip8 {
    /// 4096 bytes of memory.
    memory: Vec<u8>,
    /// The sixteen registers V0 to VF; VF is the flag register.
    v_registers: Vec<u8>,
    /// The index register, always a 12-bit address.
    i_register: u16,
    /// Address of the next instruction, always a 12-bit address.
    pc: u16,
    /// The 64x32 framebuffer, row by row; `true` is lit.
    screen: Vec<bool>,
    /// Return addresses of the calls in progress, innermost last.
    stack: Vec<u16>,
    /// Counts down once per frame; a sound plays while it is non-zero.
    sound_timer: u8,
    /// Counts down once per frame.
    delay_timer: u8,
    /// The register that receives the next key pressed, while execution waits for one.
    waiting_for_key: Option<u8>,
    /// When set, `8xy6` and `8xyE` shift `Vx` rather than `Vy`.
    alternative_shift_mode: bool,
    /// Instruction cycles run per frame.
    cycles_per_frame: u32,
}

impl View for Chip8 {
    type V = MachineView;

    closed spec fn view(&self) -> MachineView {
        MachineView {
            memory: self.memory@,
            v: self.v_registers@,
            index: self.i_register,
            pc: self.pc,
            screen: self.screen@,
            stack: self.stack@,
            delay_timer: self.delay_timer,
            sound_timer: self.sound_timer,
            waiting_for_key: self.waiting_for_key,
            shift_quirk: self.alternative_shift_mode,
            cycles_per_frame: self.cycles_per_frame,
        }
    }
}

/// The font table as bytes.
fn font_bytes() -> (r: Vec<u8>)
    ensures
        r@ == font(),
{
    let r: Vec<u8> = vec![
        0xF0u8, 0x90, 0x90, 0x90, 0xF0, 0x20, 0x60, 0x20, 0x20, 0x70,
        0xF0, 0x10, 0xF0, 0x80, 0xF0, 0xF0, 0x10, 0xF0, 0x10, 0xF0,
        0x90, 0x90, 0xF0, 0x10, 0x10, 0xF0, 0x80, 0xF0, 0x10, 0xF0,
        0xF0, 0x80, 0xF0, 0x90, 0xF0, 0xF0, 0x10, 0x20, 0x40, 0x40,
        0xF0, 0x90, 0xF0, 0x90, 0xF0, 0xF0, 0x90, 0xF0, 0x10, 0xF0,
        0xF0, 0x90, 0xF0, 0x90, 0x90, 0xE0, 0x90, 0xE0, 0x90, 0xE0,
        0xF0, 0x80, 0x80, 0x80, 0xF0, 0xE0, 0x90, 0x90, 0x90, 0xE0,
        0xF0, 0x80, 0xF0, 0x80, 0xF0, 0xF0, 0x80, 0xF0, 0x80, 0x80,
    ];
    assert(r@ =~= font());
    r
}

/// Relies on `rand::random::<u8>`: a byte drawn from the thread-local generator. Nothing
/// is known of its value.
#[verifier::external_body]
fn random_byte() -> (r: u8) {
    rand::random::<u8>()
}

/// Once a run of cycles has stopped on an error, further cycles change nothing.
proof fn lemma_run_stays_stopped(m: MachineView, keys: Seq<bool>, rs: Seq<u8>, extra: Seq<u8>)
    requires
        run_cycles(m, keys, rs).1 is Some,
    ensures
        run_cycles(m, keys, rs + extra) == run_cycles(m, keys, rs),
    decreases extra.len(),
{
    if extra.len() > 0 {
        lemma_run_stays_stopped(m, keys, rs, extra.drop_last());
        assert((rs + extra).drop_last() =~= rs + extra.drop_last());
    } else {
        assert(rs + extra =~= rs);
    }
}

/// Whether screen position (`c`, `r`) is set by one of the sprite pixels that come
/// before pixel (`ix`, `iy`) in row-major order.
spec fn covered_before(
    memory: Seq<u8>,
    sprite: u16,
    n: int,
    x0: int,
    y0: int,
    r: int,
    c: int,
    iy: int,
    ix: int,
) -> bool {
    let dy = (r - y0 + 32) % 32;
    let dx = (c - x0 + 64) % 64;
    dy < n && dx < 8 && (dy < iy || (dy == iy && dx < ix)) && sprite_bit(
        memory[(sprite + dy) % 4096],
        dx,
    )
}

/// Whether one of the sprite pixels before (`ix`, `iy`) is set over a lit pixel.
spec fn collided_before(
    memory: Seq<u8>,
    screen: Seq<bool>,
    sprite: u16,
    n: int,
    x0: int,
    y0: int,
    iy: int,
    ix: int,
) -> bool {
    exists|dy: int, dx: int|
        0 <= dy < n && 0 <= dx < 8 && (dy < iy || (dy == iy && dx < ix))
            && #[trigger] sprite_bit(memory[(sprite + dy) % 4096], dx) && screen[#[trigger] pixel_at(
            x0,
            y0,
            dx,
            dy,
        )]
}

impl Chip8 {
    /// The machine's invariant.
    pub open spec fn wf(&self) -> bool {
        self@.wf()
    }

    /// A machine with the font table and `rom_data` loaded and everything else zeroed;
    /// fails with `OutOfBounds` when the program does not fit after the load address.
    pub fn new(rom_data: &[u8]) -> (r: Result<Chip8, MachineError>)
        ensures
            program_fits(rom_data@) <==> r is Ok,
            r is Ok ==> r->Ok_0.wf() && r->Ok_0@ == initial_state(rom_data@),
            !program_fits(rom_data@) ==> r == Err::<Chip8, MachineError>(MachineError::OutOfBounds),
    {
        if rom_data.len() > MEMORY_SIZE - PROGRAM_START as usize {
            return Err(MachineError::OutOfBounds);
        }
        let glyphs = font_bytes();
        let mut memory: Vec<u8> = Vec::new();
        let mut a: usize = 0;
        while a < MEMORY_SIZE
            invariant
                a <= 4096,
                glyphs@ == font(),
                rom_data@.len() <= 4096 - 0x200,
                memory@.len() == a,
                forall|j: int| 0 <= j < a ==> memory@[j] == initial_memory(rom_data@)[j],
            decreases 4096 - a,
        {
            let b: u8 = if FONT_ADDRESS as usize <= a && a < FONT_ADDRESS as usize + FONT_SIZE {
                glyphs[a - FONT_ADDRESS as usize]
            } else if PROGRAM_START as usize <= a && a < PROGRAM_START as usize + rom_data.len() {
                rom_data[a - PROGRAM_START as usize]
            } else {
                0
            };
            memory.push(b);
            a = a + 1;
        }
        assert(memory@ =~= initial_memory(rom_data@));
        let v_registers: Vec<u8> = vec![0u8; 16];
        let screen: Vec<bool> = vec![false; SCREEN_PIXELS];
        let machine = Chip8 {
            memory,
            v_registers,
            i_register: 0,
            pc: PROGRAM_START,
            screen,
            stack: Vec::new(),
            sound_timer: 0,
            delay_timer: 0,
            waiting_for_key: None,
            alternative_shift_mode: false,
            cycles_per_frame: DEFAULT_CYCLES_PER_FRAME,
        };
        assert(machine@.v =~= Seq::new(16, |i: int| 0u8));
        assert(machine@.screen =~= blank_screen());
        assert(machine@ =~= initial_state(rom_data@));
        Ok(machine)
    }

    /// Executes one instruction `op`, with `keys` the keys held and `random` the byte that
    /// `Cxkk` combines with its immediate. On an error the machine is left unchanged.
    pub fn execute(&mut self, op: u16, keys: &KeyboardState, random: u8) -> (r: Result<
        (),
        MachineError,
    >)
        requires
            old(self).wf(),
        ensures
            final(self).wf(),
            match execute(old(self)@, op, keys@, random) {
                Ok(m) => r is Ok && final(self)@ == m,
                Err(e) => r == Err::<(), MachineError>(e) && final(self)@ == old(self)@,
            },
    {
        proof {
            lemma_fields(op);
            reveal(execute);
        }
        let g: u16 = op >> 12;
        let x: usize = ((op >> 8) & 0xF) as usize;
        let y: usize = ((op >> 4) & 0xF) as usize;
        let n: u16 = op & 0xF;
        let kk: u8 = (op & 0xFF) as u8;
        let nnn: u16 = op & 0xFFF;
        if op == 0x00E0 {
            self.screen = vec![false; SCREEN_PIXELS];
            assert(self@.screen =~= blank_screen());
            self.advance();
        } else if op == 0x00EE {
            match self.stack.pop() {
                Some(a) => {
                    self.pc = a;
                },
                None => {
                    return Err(MachineError::StackUnderflow);
                },
            }
        } else if g == 1 {
            self.pc = nnn;
        } else if g == 2 {
            if self.stack.len() >= STACK_CAPACITY {
                return Err(MachineError::StackOverflow);
            }
            self.stack.push((self.pc + 2) % 4096);
            self.pc = nnn;
        } else if g == 3 {
            let c = self.v_registers[x] == kk;
            self.skip_if(c);
        } else if g == 4 {
            let c = self.v_registers[x] != kk;
            self.skip_if(c);
        } else if g == 5 && n == 0 {
            let c = self.v_registers[x] == self.v_registers[y];
            self.skip_if(c);
        } else if g == 6 {
            self.v_registers[x] = kk;
            self.advance();
        } else if g == 7 {
            self.v_registers[x] = ((self.v_registers[x] as u16 + kk as u16) % 256) as u8;
            self.advance();
        } else if g == 8 {
            self.exec_alu(x, y, n);
            self.advance();
        } else if g == 9 && n == 0 {
            let c = self.v_registers[x] != self.v_registers[y];
            self.skip_if(c);
        } else if g == 0xA {
            self.i_register = nnn;
            self.advance();
        } else if g == 0xB {
            self.pc = (nnn + self.v_registers[0] as u16) % 4096;
        } else if g == 0xC {
            self.v_registers[x] = random & kk;
            self.advance();
        } else if g == 0xD {
            self.exec_draw(x, y, n);
            self.advance();
        } else if g == 0xE && kk == 0x9E {
            let k = self.v_registers[x];
            let c = k < 16 && keys[k as usize];
            self.skip_if(c);
        } else if g == 0xE && kk == 0xA1 {
            let k = self.v_registers[x];
            let c = !(k < 16 && keys[k as usize]);
            self.skip_if(c);
        } else if g == 0xF {
            self.exec_misc(x, kk);
            self.advance();
        } else {
            self.advance();
        }
        Ok(())
    }

    /// One instruction cycle. While a key wait is pending, the lowest-numbered key held
    /// (if any) is stored in the waiting register and ends the wait, and nothing is
    /// fetched; otherwise the instruction at the program counter is executed, with
    /// `random` the byte that `Cxkk` uses. On an error the machine is left unchanged.
    pub fn step(&mut self, keys: &KeyboardState, random: u8) -> (r: Result<(), MachineError>)
        requires
            old(self).wf(),
        ensures
            final(self).wf(),
            match step(old(self)@, keys@, random) {
                Ok(m) => r is Ok && final(self)@ == m,
                Err(e) => r == Err::<(), MachineError>(e) && final(self)@ == old(self)@,
            },
    {
        match self.waiting_for_key {
            Some(reg) => {
                let mut k: usize = 0;
                while k < 16 && !keys[k]
                    invariant
                        k <= 16,
                        keys@.len() == 16,
                        forall|j: int| 0 <= j < k ==> !keys@[j],
                    decreases 16 - k,
                {
                    k = k + 1;
                }
                if k < 16 {
                    proof {
                        let f = first_key(keys@);
                        assert(keys@[k as int]);
                        assert(f is Some);
                        let c = f->Some_0;
                        assert(c == k as int) by {
                            if c < k {
                                assert(!keys@[c]);
                            }
                            if c > k {
                                assert(!keys@[k as int]);
                            }
                        }
                    }
                    self.v_registers[reg as usize] = k as u8;
                    self.waiting_for_key = None;
                } else {
                    assert(first_key(keys@) is None);
                }
                Ok(())
            },
            None => {
                let hi = self.memory[self.pc as usize];
                let lo = self.memory[((self.pc + 1) % 4096) as usize];
                let op: u16 = ((hi as u16) << 8) | (lo as u16);
                self.execute(op, keys, random)
            },
        }
    }

    /// One frame: `cycles_per_frame` instruction cycles, each with a freshly drawn random
    /// byte, then both timers counted down by one unless already zero. The first cycle
    /// that fails ends the frame with its error, before the timers are touched.
    pub fn frame(&mut self, keyboard_state: &KeyboardState) -> (r: Result<(), MachineError>)
        requires
            old(self).wf(),
        ensures
            final(self).wf(),
            exists|randoms: Seq<u8>|
                randoms.len() == old(self)@.cycles_per_frame && #[trigger] frame(
                    old(self)@,
                    keyboard_state@,
                    randoms,
                ) == (final(self)@, r),
    {
        let ghost m0 = self@;
        let ghost mut rs: Seq<u8> = Seq::empty();
        let cycles = self.cycles_per_frame;
        let mut i: u32 = 0;
        while i < cycles
            invariant
                self.wf(),
                i <= cycles,
                cycles == m0.cycles_per_frame,
                m0 == old(self)@,
                rs.len() == i,
                run_cycles(m0, keyboard_state@, rs) == (self@, None::<MachineError>),
            decreases cycles - i,
        {
            let b = random_byte();
            let res = self.step(keyboard_state, b);
            proof {
                assert((rs.push(b)).drop_last() =~= rs);
            }
            match res {
                Ok(()) => {},
                Err(e) => {
                    proof {
                        let w = rs.push(b);
                        let extra = Seq::new((cycles - i - 1) as nat, |j: int| 0u8);
                        assert(w.drop_last() =~= rs);
                        assert(run_cycles(m0, keyboard_state@, w) == (self@, Some(e)));
                        assert((w + extra).len() == m0.cycles_per_frame);
                        lemma_run_stays_stopped(m0, keyboard_state@, w, extra);
                        assert(frame(m0, keyboard_state@, w + extra) == (self@, Err::<(), MachineError>(e)));
                    }
                    return Err(e);
                },
            }
            proof {
                rs = rs.push(b);
            }
            i = i + 1;
        }
        if self.delay_timer > 0 {
            self.delay_timer = self.delay_timer - 1;
        }
        if self.sound_timer > 0 {
            self.sound_timer = self.sound_timer - 1;
        }
        assert(frame(m0, keyboard_state@, rs) == (self@, Ok::<(), MachineError>(())));
        Ok(())
    }

    /// The framebuffer, row by row, 64 pixels per row; `true` is lit.
    pub fn screen(&self) -> (r: &Vec<bool>)
        ensures
            r@ == self@.screen,
    {
        &self.screen
    }

    /// Whether the pixel at column `x`, row `y` is lit.
    pub fn pixel(&self, x: usize, y: usize) -> (r: bool)
        requires
            self.wf(),
            x < 64,
            y < 32,
        ensures
            r == self@.screen[y * 64 + x],
    {
        self.screen[y * 64 + x]
    }

    /// Register `Vi`.
    pub fn register(&self, i: usize) -> (r: u8)
        requires
            self.wf(),
            i < 16,
        ensures
            r == self@.v[i as int],
    {
        self.v_registers[i]
    }

    /// The byte at `address`, taken modulo the memory size.
    pub fn memory_at(&self, address: u16) -> (r: u8)
        requires
            self.wf(),
        ensures
            r == self@.memory[address as int % 4096],
    {
        self.memory[(address % 4096) as usize]
    }

    /// Address of the next instruction.
    pub fn program_counter(&self) -> (r: u16)
        ensures
            r == self@.pc,
    {
        self.pc
    }

    /// The index register.
    pub fn index_register(&self) -> (r: u16)
        ensures
            r == self@.index,
    {
        self.i_register
    }

    /// Number of calls in progress.
    pub fn stack_depth(&self) -> (r: usize)
        ensures
            r == self@.stack.len(),
    {
        self.stack.len()
    }

    /// The delay timer.
    pub fn delay_timer(&self) -> (r: u8)
        ensures
            r == self@.delay_timer,
    {
        self.delay_timer
    }

    /// The sound timer.
    pub fn sound_timer(&self) -> (r: u8)
        ensures
            r == self@.sound_timer,
    {
        self.sound_timer
    }

    /// Whether a sound should play: the sound timer is non-zero.
    pub fn sound_active(&self) -> (r: bool)
        ensures
            r == (self@.sound_timer > 0),
    {
        self.sound_timer > 0
    }

    /// The register waiting for a key press, if execution is suspended on one.
    pub fn waiting_for_key(&self) -> (r: Option<u8>)
        ensures
            r == self@.waiting_for_key,
    {
        self.waiting_for_key
    }

    /// Instruction cycles run per frame.
    pub fn cycles_per_frame(&self) -> (r: u32)
        ensures
            r == self@.cycles_per_frame,
    {
        self.cycles_per_frame
    }

    /// Sets the number of instruction cycles run per frame.
    pub fn set_cycles_per_frame(&mut self, cycles: u32)
        requires
            old(self).wf(),
        ensures
            final(self)@ == (MachineView { cycles_per_frame: cycles, ..old(self)@ }),
            final(self).wf(),
    {
        self.cycles_per_frame = cycles;
    }

    /// Whether `8xy6` and `8xyE` shift `Vx` rather than `Vy`.
    pub fn shift_quirk(&self) -> (r: bool)
        ensures
            r == self@.shift_quirk,
    {
        self.alternative_shift_mode
    }

    /// Chooses whether `8xy6` and `8xyE` shift `Vx` rather than `Vy`.
    pub fn set_shift_quirk(&mut self, enabled: bool)
        requires
            old(self).wf(),
        ensures
            final(self)@ == (MachineView { shift_quirk: enabled, ..old(self)@ }),
            final(self).wf(),
    {
        self.alternative_shift_mode = enabled;
    }

    /// Executes `8xyN`.
    fn exec_alu(&mut self, x: usize, y: usize, n: u16)
        requires
            old(self).wf(),
            x < 16,
            y < 16,
        ensures
            final(self)@ == alu(old(self)@, x as int, y as int, n),
            final(self).wf(),
    {
        let vx = self.v_registers[x];
        let vy = self.v_registers[y];
        let src = if self.alternative_shift_mode {
            vx
        } else {
            vy
        };
        if n == 0 {
            self.v_registers[x] = vy;
        } else if n == 1 {
            self.v_registers[x] = vx | vy;
        } else if n == 2 {
            self.v_registers[x] = vx & vy;
        } else if n == 3 {
            self.v_registers[x] = vx ^ vy;
        } else if n == 4 {
            let sum: u16 = vx as u16 + vy as u16;
            self.v_registers[15] = if sum > 255 {
                1
            } else {
                0
            };
            self.v_registers[x] = (sum % 256) as u8;
        } else if n == 5 {
            self.v_registers[15] = if vx > vy {
                1
            } else {
                0
            };
            self.v_registers[x] = ((vx as u16 + 256 - vy as u16) % 256) as u8;
        } else if n == 6 {
            self.v_registers[15] = src & 1;
            self.v_registers[x] = src >> 1;
        } else if n == 7 {
            self.v_registers[15] = if vy > vx {
                1
            } else {
                0
            };
            self.v_registers[x] = ((vy as u16 + 256 - vx as u16) % 256) as u8;
        } else if n == 0xE {
            self.v_registers[15] = src & 0x80;
            self.v_registers[x] = ((src as u16 * 2) % 256) as u8;
        }
    }

    /// Executes `FxKK`, apart from moving on to the next instruction.
    fn exec_misc(&mut self, x: usize, kk: u8)
        requires
            old(self).wf(),
            x < 16,
        ensures
            final(self)@ == (MachineView { pc: old(self)@.pc, ..misc(old(self)@, x as int, kk) }),
            final(self).wf(),
    {
        let vx = self.v_registers[x];
        let base = self.i_register;
        if kk == 0x07 {
            self.v_registers[x] = self.delay_timer;
        } else if kk == 0x0A {
            self.waiting_for_key = Some(x as u8);
        } else if kk == 0x15 {
            self.delay_timer = vx;
        } else if kk == 0x18 {
            self.sound_timer = vx;
        } else if kk == 0x1E {
            self.i_register = (base + vx as u16) % 4096;
        } else if kk == 0x29 {
            self.i_register = FONT_ADDRESS + vx as u16 * 5;
        } else if kk == 0x33 {
            self.memory[base as usize] = vx / 100;
            self.memory[((base + 1) % 4096) as usize] = (vx / 10) % 10;
            self.memory[((base + 2) % 4096) as usize] = vx % 10;
            assert forall|a: int| 0 <= a < 4096 implies self.memory@[a] == (if mem_offset(base, a)
                < 3 {
                bcd_digit(vx, mem_offset(base, a))
            } else {
                old(self)@.memory[a]
            }) by {}
        } else if kk == 0x55 {
            let mut i: usize = 0;
            while i <= x
                invariant
                    i <= x + 1,
                    x < 16,
                    old(self)@.wf(),
                    base == old(self)@.index,
                    self@ == (MachineView { memory: self@.memory, ..old(self)@ }),
                    self@.memory.len() == 4096,
                    forall|a: int|
                        0 <= a < 4096 ==> self@.memory[a] == if mem_offset(base, a) < i {
                            old(self)@.v[mem_offset(base, a)]
                        } else {
                            old(self)@.memory[a]
                        },
                decreases x + 1 - i,
            {
                let a = ((base as usize) + i) % 4096;
                self.memory[a] = self.v_registers[i];
                i = i + 1;
            }
        } else if kk == 0x65 {
            let mut i: usize = 0;
            while i <= x
                invariant
                    i <= x + 1,
                    x < 16,
                    old(self)@.wf(),
                    base == old(self)@.index,
                    self@ == (MachineView { v: self@.v, ..old(self)@ }),
                    self@.v.len() == 16,
                    forall|j: int|
                        0 <= j < 16 ==> self@.v[j] == if j < i {
                            old(self)@.memory[(base + j) % 4096]
                        } else {
                            old(self)@.v[j]
                        },
                decreases x + 1 - i,
            {
                let a = ((base as usize) + i) % 4096;
                self.v_registers[i] = self.memory[a];
                i = i + 1;
            }
        }
        assert(self@.memory =~= misc(old(self)@, x as int, kk).memory);
        assert(self@.v =~= misc(old(self)@, x as int, kk).v);
    }

    /// Executes `Dxyn`, apart from moving on to the next instruction.
    fn exec_draw(&mut self, x: usize, y: usize, n: u16)
        requires
            old(self).wf(),
            x < 16,
            y < 16,
            n < 16,
        ensures
            final(self)@ == draw(old(self)@, x as int, y as int, n as int),
            final(self).wf(),
    {
        let x0: u8 = self.v_registers[x] % 64;
        let y0: u8 = self.v_registers[y] % 32;
        let base = self.i_register;
        let ghost m0 = self@;
        let mut collided = false;
        let mut iy: u16 = 0;
        while iy < n
            invariant
                iy <= n < 16,
                x0 < 64,
                y0 < 32,
                base == m0.index,
                m0.wf(),
                self@ == (MachineView { screen: self@.screen, ..m0 }),
                self@.screen.len() == 2048,
                forall|r: int, c: int|
                    0 <= r < 32 && 0 <= c < 64 ==> #[trigger] self@.screen[r * 64 + c] == (m0.screen[r
                        * 64 + c] != covered_before(
                        m0.memory,
                        base,
                        n as int,
                        x0 as int,
                        y0 as int,
                        r,
                        c,
                        iy as int,
                        0,
                    )),
                collided == collided_before(
                    m0.memory,
                    m0.screen,
                    base,
                    n as int,
                    x0 as int,
                    y0 as int,
                    iy as int,
                    0,
                ),
            decreases n - iy,
        {
            let row = self.memory[((base + iy) % 4096) as usize];
            let mut ix: u8 = 0;
            while ix < 8
                invariant
                    iy < n < 16,
                    ix <= 8,
                    x0 < 64,
                    y0 < 32,
                    base == m0.index,
                    m0.wf(),
                    row == m0.memory[(base + iy) % 4096],
                    self@ == (MachineView { screen: self@.screen, ..m0 }),
                    self@.screen.len() == 2048,
                    forall|r: int, c: int|
                        0 <= r < 32 && 0 <= c < 64 ==> #[trigger] self@.screen[r * 64 + c] == (
                        m0.screen[r * 64 + c] != covered_before(
                            m0.memory,
                            base,
                            n as int,
                            x0 as int,
                            y0 as int,
                            r,
                            c,
                            iy as int,
                            ix as int,
                        )),
                    collided == collided_before(
                        m0.memory,
                        m0.screen,
                        base,
                        n as int,
                        x0 as int,
                        y0 as int,
                        iy as int,
                        ix as int,
                    ),
                decreases 8 - ix,
            {
                let r0: u16 = (y0 as u16 + iy) % 32;
                let c0: u8 = (x0 + ix) % 64;
                let idx: usize = r0 as usize * 64 + c0 as usize;
                let bit = (row >> (7 - ix)) & 1 == 1;
                let prev = self.screen[idx];
                proof {
                    lemma_sprite_position(x0 as int, y0 as int, ix as int, iy as int, r0 as int, c0 as int);
                    assert(prev == m0.screen[idx as int]);
                    assert(bit == sprite_bit(m0.memory[(base + iy) % 4096], ix as int));
                }
                if bit && prev {
                    collided = true;
                }
                self.screen[idx] = prev != bit;
                proof {
                    assert forall|r: int, c: int| 0 <= r < 32 && 0 <= c < 64 implies #[trigger] self@.screen[r * 64 + c] == (
                        m0.screen[r * 64 + c] != covered_before(
                            m0.memory,
                            base,
                            n as int,
                            x0 as int,
                            y0 as int,
                            r,
                            c,
                            iy as int,
                            ix + 1,
                        )) by {
                        lemma_sprite_position(x0 as int, y0 as int, ix as int, iy as int, r, c);
                    }
                    if bit && prev {
                        assert(sprite_bit(m0.memory[(base + iy) % 4096], ix as int) && m0.screen[pixel_at(x0 as int, y0 as int, ix as int, iy as int)]);
                    }
                }
                ix = ix + 1;
            }
            iy = iy + 1;
        }
        self.v_registers[15] = if collided {
            1
        } else {
            0
        };
        proof {
            let d = draw(m0, x as int, y as int, n as int);
            assert forall|i: int| 0 <= i < 2048 implies self@.screen[i] == d.screen[i] by {
                assert(i == (i / 64) * 64 + i % 64);
            }
            assert(self@.screen =~= d.screen);
            assert(self@.v =~= d.v);
        }
    }

    /// Moves on to the next instruction.
    fn advance(&mut self)
        requires
            old(self).wf(),
        ensures
            final(self)@ == (MachineView { pc: ((old(self)@.pc + 2) % 4096) as u16, ..old(self)@ }),
            final(self).wf(),
    {
        self.pc = (self.pc + 2) % 4096;
    }

    /// Moves on, past the next instruction when `cond` holds.
    fn skip_if(&mut self, cond: bool)
        requires
            old(self).wf(),
        ensures
            final(self)@ == (MachineView {
                pc: ((old(self)@.pc + if cond { 4int } else { 2int }) % 4096) as u16,
                ..old(self)@
            }),
            final(self).wf(),
    {
        self.pc = (self.pc + if cond {
            4
        } else {
            2
        }) % 4096;
    }
}

} // verus!
