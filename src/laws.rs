//! Properties that relate several operations of the machine, proved over the model.
use vstd::prelude::*;

use crate::model::{
    advance, blank_screen, draw, execute, frame, initial_state, lemma_fields,
    lemma_sprite_position, mem_offset, misc, next_pc, op_group, op_kk, op_n, op_x, op_y,
    pixel_at, run_cycles, sprite_bit, tick_timers, vf, MachineError, MachineView,
};

verus! {

/// Executes the instructions of `ops` in turn, each with the same keys and random byte,
/// stopping at the first error.
pub open spec fn run_ops(m: MachineView, ops: Seq<u16>, keys: Seq<bool>, random: u8) -> Result<
    MachineView,
    MachineError,
>
    decreases ops.len(),
{
    if ops.len() == 0 {
        Ok(m)
    } else {
        match execute(m, ops[0], keys, random) {
            Ok(p) => run_ops(p, ops.drop_first(), keys, random),
            Err(e) => Err(e),
        }
    }
}

/// `8xy4` sets the flag register to 1 exactly when the unsigned sum of `Vx` and `Vy`
/// exceeds 255 (to 0 otherwise) and leaves the sum modulo 256 in `Vx`. When `x` is the
/// flag register itself the sum overwrites the flag, so that case is left out.
pub proof fn law_add_carry(m: MachineView, op: u16, keys: Seq<bool>, random: u8)
    requires
        m.wf(),
        op_group(op) == 8,
        op_n(op) == 4,
        op_x(op) != 15,
    ensures
        ({
            let vx = m.v[op_x(op) as int];
            let vy = m.v[op_y(op) as int];
            let r = execute(m, op, keys, random);
            &&& r is Ok
            &&& r->Ok_0.v[vf()] == if vx + vy > 255 { 1u8 } else { 0u8 }
            &&& r->Ok_0.v[op_x(op) as int] == (vx + vy) % 256
        }),
{
    reveal(execute);
    lemma_fields(op);
}

/// `8xy5` and `8xy7` set the flag register to 1 exactly when the minuend is strictly
/// greater than the subtrahend (to 0 otherwise) and leave the difference modulo 256 in
/// `Vx`; for `8xy5` the minuend is `Vx`, for `8xy7` it is `Vy`. When `x` is the flag
/// register itself the difference overwrites the flag, so that case is left out.
pub proof fn law_subtract_borrow(m: MachineView, op: u16, keys: Seq<bool>, random: u8)
    requires
        m.wf(),
        op_group(op) == 8,
        op_n(op) == 5 || op_n(op) == 7,
        op_x(op) != 15,
    ensures
        ({
            let vx = m.v[op_x(op) as int];
            let vy = m.v[op_y(op) as int];
            let minuend = if op_n(op) == 5 { vx } else { vy };
            let subtrahend = if op_n(op) == 5 { vy } else { vx };
            let r = execute(m, op, keys, random);
            &&& r is Ok
            &&& r->Ok_0.v[vf()] == if minuend > subtrahend { 1u8 } else { 0u8 }
            &&& r->Ok_0.v[op_x(op) as int] == (minuend - subtrahend + 256) % 256
        }),
{
    reveal(execute);
    lemma_fields(op);
}

/// What `execute` does on the groups that the laws below go through.
proof fn lemma_execute_groups(m: MachineView, op: u16, keys: Seq<bool>, random: u8)
    ensures
        op == 0x00E0 ==> execute(m, op, keys, random) == Ok::<MachineView, MachineError>(
            advance(MachineView { screen: blank_screen(), ..m }),
        ),
        op_group(op) == 0xD ==> execute(m, op, keys, random) == Ok::<MachineView, MachineError>(
            advance(draw(m, op_x(op) as int, op_y(op) as int, op_n(op) as int)),
        ),
        op_group(op) == 0xF ==> execute(m, op, keys, random) == Ok::<MachineView, MachineError>(
            misc(m, op_x(op) as int, op_kk(op)),
        ),
{
    reveal(execute);
    lemma_fields(op);
}

/// Drawing never fails, and a clear after any number of draws leaves the framebuffer
/// blank.
proof fn lemma_draws_then_clear(m: MachineView, draws: Seq<u16>, keys: Seq<bool>, random: u8)
    requires
        forall|i: int| 0 <= i < draws.len() ==> op_group(#[trigger] draws[i]) == 0xD,
    ensures
        run_ops(m, draws + seq![0x00E0u16], keys, random) is Ok,
        run_ops(m, draws + seq![0x00E0u16], keys, random)->Ok_0.screen == blank_screen(),
    decreases draws.len(),
{
    let ops = draws + seq![0x00E0u16];
    if draws.len() == 0 {
        lemma_execute_groups(m, 0x00E0u16, keys, random);
        assert(ops[0] == 0x00E0u16);
        assert(ops.drop_first() =~= Seq::<u16>::empty());
        let p = execute(m, 0x00E0u16, keys, random)->Ok_0;
        assert(run_ops(p, Seq::<u16>::empty(), keys, random) == Ok::<MachineView, MachineError>(p));
    } else {
        assert(ops[0] == draws[0]);
        lemma_execute_groups(m, draws[0], keys, random);
        let p = execute(m, draws[0], keys, random)->Ok_0;
        assert(ops.drop_first() =~= draws.drop_first() + seq![0x00E0u16]);
        lemma_draws_then_clear(p, draws.drop_first(), keys, random);
    }
}

/// `00E0`, then any number of `Dxyn` draws, then `00E0` again leaves the framebuffer
/// exactly as it is in a freshly constructed machine: all unlit.
pub proof fn law_clear_is_idempotent(
    m: MachineView,
    draws: Seq<u16>,
    keys: Seq<bool>,
    random: u8,
    program: Seq<u8>,
)
    requires
        forall|i: int| 0 <= i < draws.len() ==> op_group(#[trigger] draws[i]) == 0xD,
    ensures
        ({
            let r = run_ops(m, seq![0x00E0u16] + draws + seq![0x00E0u16], keys, random);
            &&& r is Ok
            &&& r->Ok_0.screen == initial_state(program).screen
        }),
{
    lemma_execute_groups(m, 0x00E0u16, keys, random);
    let ops = seq![0x00E0u16] + draws + seq![0x00E0u16];
    let p = execute(m, 0x00E0u16, keys, random)->Ok_0;
    assert(ops.drop_first() =~= draws + seq![0x00E0u16]);
    lemma_draws_then_clear(p, draws, keys, random);
}

/// Drawing the same sprite twice at the same place restores the framebuffer exactly.
/// The second draw reports a collision exactly when some set pixel of the sprite fell on
/// an unlit pixel before the first; in particular, when all the pixels it covers were
/// unlit and it has a set pixel. The position registers must not be the flag register,
/// which the first draw writes.
pub proof fn law_draw_twice_restores(m: MachineView, op: u16, keys: Seq<bool>, random: u8)
    requires
        m.wf(),
        op_group(op) == 0xD,
        op_x(op) != 15,
        op_y(op) != 15,
    ensures
        ({
            let n = op_n(op) as int;
            let x0 = (m.v[op_x(op) as int] % 64) as int;
            let y0 = (m.v[op_y(op) as int] % 32) as int;
            let lands_on_unlit = exists|dy: int, dx: int|
                0 <= dy < n && 0 <= dx < 8 && #[trigger] sprite_bit(
                    m.memory[(m.index + dy) % 4096],
                    dx,
                ) && !m.screen[#[trigger] pixel_at(x0, y0, dx, dy)];
            let r1 = execute(m, op, keys, random);
            let r2 = execute(r1->Ok_0, op, keys, random);
            &&& r1 is Ok
            &&& r2 is Ok
            &&& r2->Ok_0.screen == m.screen
            &&& r2->Ok_0.v[vf()] == if lands_on_unlit { 1u8 } else { 0u8 }
        }),
{
    reveal(execute);
    lemma_fields(op);
    let n = op_n(op) as int;
    let x0 = (m.v[op_x(op) as int] % 64) as int;
    let y0 = (m.v[op_y(op) as int] % 32) as int;
    let m1 = execute(m, op, keys, random)->Ok_0;
    let m2 = execute(m1, op, keys, random)->Ok_0;
    assert(m1.v[op_x(op) as int] == m.v[op_x(op) as int]);
    assert(m1.v[op_y(op) as int] == m.v[op_y(op) as int]);
    assert(m2.screen =~= m.screen);
    assert forall|dy: int, dx: int| 0 <= dy < n && 0 <= dx < 8 implies m1.screen[pixel_at(
        x0,
        y0,
        dx,
        dy,
    )] == (m.screen[pixel_at(x0, y0, dx, dy)] != sprite_bit(
        m.memory[(m.index + dy) % 4096],
        dx,
    )) by {
        let p = pixel_at(x0, y0, dx, dy);
        let r = (y0 + dy) % 32;
        let c = (x0 + dx) % 64;
        lemma_sprite_position(x0, y0, dx, dy, r, c);
        assert(p / 64 == r && p % 64 == c);
    }
}

/// A subroutine call `2nnn` followed by a return `00EE` comes back to the instruction
/// after the call, with the call stack and everything else as before.
pub proof fn law_call_then_return(m: MachineView, op: u16, keys: Seq<bool>, random: u8)
    requires
        m.wf(),
        op_group(op) == 2,
        m.stack.len() < 16,
    ensures
        ({
            let r1 = execute(m, op, keys, random);
            let r2 = execute(r1->Ok_0, 0x00EEu16, keys, random);
            &&& r1 is Ok
            &&& r2 is Ok
            &&& r2->Ok_0.pc == next_pc(m.pc)
            &&& r2->Ok_0 == advance(m)
        }),
{
    reveal(execute);
    lemma_fields(op);
    let m1 = execute(m, op, keys, random)->Ok_0;
    assert(m1.stack.drop_last() =~= m.stack);
}

/// Storing registers with `Fx55` and loading them back with `Fx65`, with the same `x`
/// and index register, gives back every register as it was before the store.
pub proof fn law_store_then_load(
    m: MachineView,
    store: u16,
    load: u16,
    keys: Seq<bool>,
    random: u8,
)
    requires
        m.wf(),
        op_group(store) == 0xF,
        op_kk(store) == 0x55,
        op_group(load) == 0xF,
        op_kk(load) == 0x65,
        op_x(load) == op_x(store),
    ensures
        ({
            let r1 = execute(m, store, keys, random);
            let r2 = execute(r1->Ok_0, load, keys, random);
            &&& r1 is Ok
            &&& r2 is Ok
            &&& r2->Ok_0.index == m.index
            &&& r2->Ok_0.v == m.v
        }),
{
    lemma_fields(store);
    let x = op_x(store) as int;
    lemma_execute_groups(m, store, keys, random);
    let m1 = execute(m, store, keys, random)->Ok_0;
    lemma_execute_groups(m1, load, keys, random);
    let m2 = execute(m1, load, keys, random)->Ok_0;
    assert forall|i: int| 0 <= i <= x implies #[trigger] mem_offset(m.index, (m.index + i) % 4096) == i by {}
    assert(m2.v =~= m.v);
}

/// A frame that meets no error runs one cycle for each of its `cycles_per_frame` random
/// bytes, then counts each timer down by exactly one if it is above zero, and never
/// below zero.
pub proof fn law_frame_timers(m: MachineView, keys: Seq<bool>, randoms: Seq<u8>)
    requires
        m.wf(),
        randoms.len() == m.cycles_per_frame,
    ensures
        ({
            let (p, e) = run_cycles(m, keys, randoms);
            let (t, r) = frame(m, keys, randoms);
            &&& r is Ok <==> e is None
            &&& e is None ==> t == tick_timers(p)
            &&& e is None ==> t.delay_timer <= p.delay_timer && p.delay_timer <= t.delay_timer + 1
            &&& e is None ==> t.sound_timer <= p.sound_timer && p.sound_timer <= t.sound_timer + 1
            &&& e is None ==> (t.delay_timer == 0 <==> p.delay_timer <= 1)
            &&& e is None ==> (t.sound_timer == 0 <==> p.sound_timer <= 1)
        }),
{
}

} // verus!
