use chip8::{Chip8, KeyboardState, MachineError};

const NO_KEYS: KeyboardState = [false; 16];

fn boot(program: &[u8]) -> Chip8 {
    Chip8::new(program).expect("program fits")
}

fn run(machine: &mut Chip8, steps: usize) {
    for _ in 0..steps {
        machine.step(&NO_KEYS, 0).expect("step succeeds");
    }
}

fn lit_count(machine: &Chip8) -> usize {
    machine.screen().iter().filter(|p| **p).count()
}

#[test]
fn add_registers_scenario() {
    let mut m = boot(&[0x60, 0x05, 0x61, 0x03, 0x80, 0x14]);
    let start = m.program_counter();
    run(&mut m, 3);
    assert_eq!(m.register(0), 8);
    assert_eq!(m.register(0xF), 0);
    assert_eq!(m.program_counter(), start + 6);
}

#[test]
fn draw_sprite_scenario() {
    let program = [0xA2, 0x00, 0x60, 0x00, 0x61, 0x00, 0xD0, 0x15];
    let mut m = boot(&program);
    run(&mut m, 4);
    let rows = [0xA2u8, 0x00, 0x60, 0x00, 0x61];
    for (y, row) in rows.iter().enumerate() {
        for x in 0..8 {
            assert_eq!(m.pixel(x, y), (row >> (7 - x)) & 1 == 1, "pixel {x},{y}");
        }
    }
    assert_eq!(m.register(0xF), 0);
    assert_eq!(lit_count(&m), rows.iter().map(|r| r.count_ones() as usize).sum::<usize>());
}

#[test]
fn new_machine_state() {
    let m = boot(&[0x12, 0x34]);
    assert_eq!(m.program_counter(), 0x200);
    assert_eq!(m.index_register(), 0);
    assert_eq!(m.stack_depth(), 0);
    assert_eq!(m.cycles_per_frame(), 8);
    assert!(!m.shift_quirk());
    assert_eq!(m.waiting_for_key(), None);
    assert_eq!(m.memory_at(0x200), 0x12);
    assert_eq!(m.memory_at(0x201), 0x34);
    assert_eq!(m.memory_at(0x202), 0);
    assert_eq!(m.memory_at(0x50), 0xF0);
    assert_eq!(m.memory_at(0x50 + 79), 0x80);
    assert_eq!(lit_count(&m), 0);
    assert_eq!(m.screen().len(), 64 * 32);
    for i in 0..16 {
        assert_eq!(m.register(i), 0);
    }
}

#[test]
fn program_too_large_is_refused() {
    let program = vec![0u8; 4096 - 0x200 + 1];
    assert_eq!(Chip8::new(&program).err(), Some(MachineError::OutOfBounds));
}

#[test]
fn program_filling_memory_is_accepted() {
    let mut program = vec![0u8; 4096 - 0x200];
    program[4096 - 0x200 - 1] = 0xAB;
    let m = Chip8::new(&program).expect("fits exactly");
    assert_eq!(m.memory_at(0xFFF), 0xAB);
}

#[test]
fn empty_program_is_accepted() {
    let m = Chip8::new(&[]).expect("empty program");
    assert_eq!(m.memory_at(0x200), 0);
}

#[test]
fn add_with_carry() {
    // V0 = 0xFF, V1 = 0x02, V0 += V1
    let mut m = boot(&[0x60, 0xFF, 0x61, 0x02, 0x80, 0x14]);
    run(&mut m, 3);
    assert_eq!(m.register(0), 0x01);
    assert_eq!(m.register(0xF), 1);
}

#[test]
fn add_exactly_255_has_no_carry() {
    let mut m = boot(&[0x60, 0xFE, 0x61, 0x01, 0x80, 0x14]);
    run(&mut m, 3);
    assert_eq!(m.register(0), 0xFF);
    assert_eq!(m.register(0xF), 0);
}

#[test]
fn subtract_without_borrow() {
    // V0 = 9, V1 = 4, V0 -= V1
    let mut m = boot(&[0x60, 0x09, 0x61, 0x04, 0x80, 0x15]);
    run(&mut m, 3);
    assert_eq!(m.register(0), 5);
    assert_eq!(m.register(0xF), 1);
}

#[test]
fn subtract_with_borrow_wraps() {
    let mut m = boot(&[0x60, 0x04, 0x61, 0x09, 0x80, 0x15]);
    run(&mut m, 3);
    assert_eq!(m.register(0), 0xFB);
    assert_eq!(m.register(0xF), 0);
}

#[test]
fn subtract_equal_operands_clears_flag() {
    let mut m = boot(&[0x60, 0x07, 0x61, 0x07, 0x80, 0x15]);
    run(&mut m, 3);
    assert_eq!(m.register(0), 0);
    assert_eq!(m.register(0xF), 0);
}

#[test]
fn reverse_subtract() {
    // V0 = 4, V1 = 9, V0 = V1 - V0
    let mut m = boot(&[0x60, 0x04, 0x61, 0x09, 0x80, 0x17]);
    run(&mut m, 3);
    assert_eq!(m.register(0), 5);
    assert_eq!(m.register(0xF), 1);
    let mut m = boot(&[0x60, 0x09, 0x61, 0x04, 0x80, 0x17]);
    run(&mut m, 3);
    assert_eq!(m.register(0), 0xFB);
    assert_eq!(m.register(0xF), 0);
}

#[test]
fn logic_operations() {
    let mut m = boot(&[
        0x60, 0x0C, 0x61, 0x0A, 0x82, 0x00, 0x82, 0x11, 0x83, 0x00, 0x83, 0x12, 0x84, 0x00, 0x84,
        0x13,
    ]);
    run(&mut m, 8);
    assert_eq!(m.register(2), 0x0A | 0x0C);
    assert_eq!(m.register(3), 0x0C & 0x0A);
    assert_eq!(m.register(4), 0x0C ^ 0x0A);
}

#[test]
fn shift_right_uses_vy() {
    // V0 = 0, V1 = 5, V0 = V1 >> 1
    let mut m = boot(&[0x60, 0x00, 0x61, 0x05, 0x80, 0x16]);
    run(&mut m, 3);
    assert_eq!(m.register(0), 2);
    assert_eq!(m.register(0xF), 1);
}

#[test]
fn shift_left_flag_is_raw_high_bit() {
    // V1 = 0x81, V0 = V1 << 1
    let mut m = boot(&[0x61, 0x81, 0x80, 0x1E]);
    run(&mut m, 2);
    assert_eq!(m.register(0), 0x02);
    assert_eq!(m.register(0xF), 0x80);
}

#[test]
fn shift_quirk_uses_vx() {
    let mut m = boot(&[0x60, 0x06, 0x61, 0x81, 0x80, 0x16, 0x62, 0x40, 0x82, 0x1E]);
    m.set_shift_quirk(true);
    assert!(m.shift_quirk());
    run(&mut m, 3);
    assert_eq!(m.register(0), 3);
    assert_eq!(m.register(0xF), 0);
    run(&mut m, 2);
    assert_eq!(m.register(2), 0x80);
    assert_eq!(m.register(0xF), 0);
}

#[test]
fn add_immediate_wraps_without_flag() {
    let mut m = boot(&[0x60, 0xFF, 0x70, 0x03]);
    run(&mut m, 2);
    assert_eq!(m.register(0), 2);
    assert_eq!(m.register(0xF), 0);
}

#[test]
fn clear_draw_clear_leaves_blank_screen() {
    // 00E0, I = font of 0, draw twice at different places, 00E0
    let mut m = boot(&[0x00, 0xE0, 0xF0, 0x29, 0xD0, 0x05, 0x61, 0x0A, 0xD1, 0x15, 0x00, 0xE0]);
    run(&mut m, 5);
    assert!(lit_count(&m) > 0);
    run(&mut m, 1);
    assert_eq!(lit_count(&m), 0);
    let fresh = boot(&[]);
    assert_eq!(m.screen(), fresh.screen());
}

#[test]
fn drawing_twice_restores_and_collides() {
    // I = font of 0, draw at (0,0) twice
    let mut m = boot(&[0xF0, 0x29, 0xD0, 0x05, 0xD0, 0x05]);
    run(&mut m, 2);
    assert_eq!(m.register(0xF), 0);
    assert!(lit_count(&m) > 0);
    run(&mut m, 1);
    assert_eq!(lit_count(&m), 0);
    assert_eq!(m.register(0xF), 1);
}

#[test]
fn drawing_wraps_each_pixel() {
    // V0 = 62, V1 = 31, I = font of 0, draw one row (0xF0) at (62, 31)
    let mut m = boot(&[0x60, 0x3E, 0x61, 0x1F, 0xA0, 0x50, 0xD0, 0x12]);
    run(&mut m, 4);
    // first row at y = 31: x = 62, 63, 0, 1
    assert!(m.pixel(62, 31));
    assert!(m.pixel(63, 31));
    assert!(m.pixel(0, 31));
    assert!(m.pixel(1, 31));
    assert!(!m.pixel(2, 31));
    // second row 0x90 wraps to y = 0: x = 62 and x = 1
    assert!(m.pixel(62, 0));
    assert!(!m.pixel(63, 0));
    assert!(!m.pixel(0, 0));
    assert!(m.pixel(1, 0));
    assert_eq!(lit_count(&m), 6);
}

#[test]
fn draw_position_wraps_large_registers() {
    // V0 = 200 (200 mod 64 = 8), V1 = 40 (40 mod 32 = 8)
    let mut m = boot(&[0x60, 0xC8, 0x61, 0x28, 0xA0, 0x50, 0xD0, 0x11]);
    run(&mut m, 4);
    assert!(m.pixel(8, 8));
    assert!(m.pixel(11, 8));
    assert!(!m.pixel(12, 8));
    assert_eq!(lit_count(&m), 4);
}

#[test]
fn call_then_return() {
    // 0x200: call 0x206; 0x202: V0 = 1; 0x204: jump 0x204; 0x206: return
    let mut m = boot(&[0x22, 0x06, 0x60, 0x01, 0x12, 0x04, 0x00, 0xEE]);
    run(&mut m, 1);
    assert_eq!(m.program_counter(), 0x206);
    assert_eq!(m.stack_depth(), 1);
    run(&mut m, 1);
    assert_eq!(m.program_counter(), 0x202);
    assert_eq!(m.stack_depth(), 0);
    run(&mut m, 1);
    assert_eq!(m.register(0), 1);
}

#[test]
fn return_on_empty_stack_fails() {
    let mut m = boot(&[0x00, 0xEE]);
    assert_eq!(m.step(&NO_KEYS, 0), Err(MachineError::StackUnderflow));
    assert_eq!(m.program_counter(), 0x200);
}

#[test]
fn call_on_full_stack_fails() {
    // 0x200: call 0x200, forever
    let mut m = boot(&[0x22, 0x00]);
    run(&mut m, 16);
    assert_eq!(m.stack_depth(), 16);
    assert_eq!(m.step(&NO_KEYS, 0), Err(MachineError::StackOverflow));
    assert_eq!(m.stack_depth(), 16);
    assert_eq!(m.program_counter(), 0x200);
}

#[test]
fn store_then_load_registers() {
    // V0..V2 = 1, 2, 3; I = 0x300; store; clear V0..V2; I unchanged; load
    let mut m = boot(&[
        0x60, 0x01, 0x61, 0x02, 0x62, 0x03, 0xA3, 0x00, 0xF2, 0x55, 0x60, 0x00, 0x61, 0x00, 0x62,
        0x00, 0xF2, 0x65,
    ]);
    run(&mut m, 5);
    assert_eq!(m.memory_at(0x300), 1);
    assert_eq!(m.memory_at(0x301), 2);
    assert_eq!(m.memory_at(0x302), 3);
    assert_eq!(m.memory_at(0x303), 0);
    run(&mut m, 4);
    assert_eq!(m.register(0), 1);
    assert_eq!(m.register(1), 2);
    assert_eq!(m.register(2), 3);
    assert_eq!(m.index_register(), 0x300);
}

#[test]
fn store_wraps_round_memory() {
    // V0 = 7, V1 = 9, I = 0xFFF, store V0..V1
    let mut m = boot(&[0x60, 0x07, 0x61, 0x09, 0xAF, 0xFF, 0xF1, 0x55]);
    run(&mut m, 4);
    assert_eq!(m.memory_at(0xFFF), 7);
    assert_eq!(m.memory_at(0x000), 9);
}

#[test]
fn decimal_digits() {
    // V0 = 254, I = 0x300, BCD
    let mut m = boot(&[0x60, 0xFE, 0xA3, 0x00, 0xF0, 0x33]);
    run(&mut m, 3);
    assert_eq!(m.memory_at(0x300), 2);
    assert_eq!(m.memory_at(0x301), 5);
    assert_eq!(m.memory_at(0x302), 4);
}

#[test]
fn font_location() {
    let mut m = boot(&[0x60, 0x0A, 0xF0, 0x29]);
    run(&mut m, 2);
    assert_eq!(m.index_register(), 0x50 + 50);
}

#[test]
fn index_add_wraps_to_twelve_bits() {
    // I = 0xFFF, V0 = 2, I += V0
    let mut m = boot(&[0xAF, 0xFF, 0x60, 0x02, 0xF0, 0x1E]);
    run(&mut m, 3);
    assert_eq!(m.index_register(), 0x001);
}

#[test]
fn skips() {
    // V0 = 5; skip if V0 == 5 (skips V1 = 1); skip if V0 != 5 (no skip); V2 = 2
    let mut m = boot(&[0x60, 0x05, 0x30, 0x05, 0x61, 0x01, 0x40, 0x05, 0x62, 0x02]);
    run(&mut m, 4);
    assert_eq!(m.register(1), 0);
    assert_eq!(m.register(2), 2);
    assert_eq!(m.program_counter(), 0x20A);
    // 5xy0 skips (V0 == V1), 9xy0 does not, V1 = 7
    let mut m = boot(&[0x50, 0x10, 0x60, 0x01, 0x90, 0x10, 0x61, 0x07, 0x62, 0x08]);
    run(&mut m, 3);
    assert_eq!(m.register(0), 0);
    assert_eq!(m.register(1), 7);
    assert_eq!(m.program_counter(), 0x208);
}

#[test]
fn key_skips() {
    let mut keys = NO_KEYS;
    keys[3] = true;
    // V0 = 3; skip if key V0 pressed; V1 = 1; skip if key V0 not pressed; V2 = 2
    let mut m = boot(&[0x60, 0x03, 0xE0, 0x9E, 0x61, 0x01, 0xE0, 0xA1, 0x62, 0x02]);
    for _ in 0..4 {
        m.step(&keys, 0).unwrap();
    }
    assert_eq!(m.register(1), 0);
    assert_eq!(m.register(2), 2);
}

#[test]
fn key_beyond_keypad_is_not_pressed() {
    let keys = [true; 16];
    let mut m = boot(&[0x60, 0x10, 0xE0, 0x9E, 0x61, 0x01]);
    for _ in 0..3 {
        m.step(&keys, 0).unwrap();
    }
    assert_eq!(m.register(1), 1);
}

#[test]
fn wait_for_key() {
    // Fx0A into V5, then V6 = 1
    let mut m = boot(&[0xF5, 0x0A, 0x66, 0x01]);
    run(&mut m, 1);
    assert_eq!(m.waiting_for_key(), Some(5));
    let pc = m.program_counter();
    run(&mut m, 3);
    assert_eq!(m.waiting_for_key(), Some(5));
    assert_eq!(m.program_counter(), pc);
    assert_eq!(m.register(6), 0);
    let mut keys = NO_KEYS;
    keys[9] = true;
    keys[12] = true;
    m.step(&keys, 0).unwrap();
    assert_eq!(m.waiting_for_key(), None);
    assert_eq!(m.register(5), 9);
    assert_eq!(m.register(6), 0);
    run(&mut m, 1);
    assert_eq!(m.register(6), 1);
}

#[test]
fn random_masked_by_immediate() {
    let mut m = boot(&[0xC0, 0x0F]);
    m.step(&NO_KEYS, 0xAB).unwrap();
    assert_eq!(m.register(0), 0x0B);
}

#[test]
fn random_through_frame_respects_mask() {
    let mut m = boot(&[0xC0, 0x0F, 0x12, 0x00]);
    for _ in 0..20 {
        m.frame(&NO_KEYS).unwrap();
        assert!(m.register(0) <= 0x0F);
    }
}

#[test]
fn jumps() {
    // jump 0x206; (skipped); 0x206: V0 = 4; jump 0x300 + V0
    let mut m = boot(&[0x12, 0x06, 0x00, 0x00, 0x00, 0x00, 0x60, 0x04, 0xB3, 0x00]);
    run(&mut m, 3);
    assert_eq!(m.program_counter(), 0x304);
}

#[test]
fn unknown_instruction_is_skipped() {
    let mut m = boot(&[0x5A, 0xB1, 0xFF, 0xFF, 0x00, 0x00]);
    run(&mut m, 3);
    assert_eq!(m.program_counter(), 0x206);
}

#[test]
fn frame_runs_eight_cycles() {
    // nine increments of V0: one frame runs eight of them
    let mut m = boot(&[0x70, 0x01].repeat(9));
    m.frame(&NO_KEYS).unwrap();
    assert_eq!(m.register(0), 8);
    assert_eq!(m.program_counter(), 0x210);
}

#[test]
fn frame_runs_configured_cycles() {
    let mut m = boot(&[0x70, 0x01].repeat(9));
    m.set_cycles_per_frame(3);
    assert_eq!(m.cycles_per_frame(), 3);
    m.frame(&NO_KEYS).unwrap();
    assert_eq!(m.register(0), 3);
}

#[test]
fn frame_counts_timers_down() {
    // V0 = 2; delay = V0; sound = V0; then spin
    let mut m = boot(&[0x60, 0x02, 0xF0, 0x15, 0xF0, 0x18, 0x12, 0x06]);
    m.frame(&NO_KEYS).unwrap();
    assert_eq!(m.delay_timer(), 1);
    assert_eq!(m.sound_timer(), 1);
    assert!(m.sound_active());
    m.frame(&NO_KEYS).unwrap();
    assert_eq!(m.delay_timer(), 0);
    assert_eq!(m.sound_timer(), 0);
    assert!(!m.sound_active());
    m.frame(&NO_KEYS).unwrap();
    assert_eq!(m.delay_timer(), 0);
    assert_eq!(m.sound_timer(), 0);
}

#[test]
fn read_delay_timer() {
    let mut m = boot(&[0x60, 0x05, 0xF0, 0x15, 0xF1, 0x07]);
    run(&mut m, 3);
    assert_eq!(m.register(1), 5);
}

#[test]
fn frame_stops_on_error() {
    // V0 = 3; delay = V0; return with empty stack
    let mut m = boot(&[0x60, 0x03, 0xF0, 0x15, 0x00, 0xEE]);
    assert_eq!(m.frame(&NO_KEYS), Err(MachineError::StackUnderflow));
    assert_eq!(m.delay_timer(), 3);
    assert_eq!(m.program_counter(), 0x204);
}

#[test]
fn execute_single_instruction() {
    let mut m = boot(&[]);
    m.execute(0x6A42, &NO_KEYS, 0).unwrap();
    assert_eq!(m.register(0xA), 0x42);
    assert_eq!(m.program_counter(), 0x202);
}
