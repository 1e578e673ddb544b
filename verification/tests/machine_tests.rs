use chip8::{Chip8, Fault, SCREEN_HEIGHT, SCREEN_WIDTH};

fn boot(program: &[u8]) -> Chip8 {
    let mut m = Chip8::new();
    m.load(program).unwrap();
    m
}

fn run(m: &mut Chip8, cycles: usize) {
    for _ in 0..cycles {
        m.tick().unwrap();
    }
}

#[test]
fn new_machine_layout() {
    let m = Chip8::new();
    assert_eq!(m.get_pc(), 0x200);
    assert_eq!(m.get_index_register(), 0);
    assert_eq!(m.get_delay_timer(), 0);
    assert_eq!(m.get_sound_timer(), 0);
    for r in 0..16 {
        assert_eq!(m.get_register(r), 0);
    }
    // font glyph 0 at the start of memory, zeroes past the font
    assert_eq!(m.read_memory(0), 0xF0);
    assert_eq!(m.read_memory(4), 0xF0);
    assert_eq!(m.read_memory(80), 0x00);
    assert_eq!(m.read_memory(0x200), 0x00);
    assert!(m.get_screen().iter().all(|p| !p));
    assert_eq!(m.get_screen().len(), SCREEN_WIDTH * SCREEN_HEIGHT);
}

#[test]
fn add_register_carry() {
    // VA = 200, VB = 100, VA += VB: 300 mod 256 = 44, carry set
    let mut m = boot(&[0x6A, 200, 0x6B, 100, 0x8A, 0xB4]);
    run(&mut m, 3);
    assert_eq!(m.get_register(0xA), 44);
    assert_eq!(m.get_register(0xF), 1);
}

#[test]
fn add_register_no_carry() {
    let mut m = boot(&[0x6A, 10, 0x6B, 20, 0x8A, 0xB4]);
    run(&mut m, 3);
    assert_eq!(m.get_register(0xA), 30);
    assert_eq!(m.get_register(0xF), 0);
}

#[test]
fn add_immediate_wraps_without_flag() {
    // VA = 255, VA += 2 wraps to 1 and leaves VF alone
    let mut m = boot(&[0x6A, 0xFF, 0x7A, 0x02]);
    run(&mut m, 2);
    assert_eq!(m.get_register(0xA), 1);
    assert_eq!(m.get_register(0xF), 0);
}

#[test]
fn subtract_from_no_borrow() {
    // VA = 50, VB = 20, VA -= VB: VF = 1 since 50 >= 20
    let mut m = boot(&[0x6A, 50, 0x6B, 20, 0x8A, 0xB5]);
    run(&mut m, 3);
    assert_eq!(m.get_register(0xA), 30);
    assert_eq!(m.get_register(0xF), 1);
}

#[test]
fn subtract_from_borrow() {
    // VA = 20, VB = 50, VA -= VB: wraps to 226, VF = 0
    let mut m = boot(&[0x6A, 20, 0x6B, 50, 0x8A, 0xB5]);
    run(&mut m, 3);
    assert_eq!(m.get_register(0xA), 226);
    assert_eq!(m.get_register(0xF), 0);
}

#[test]
fn subtract_reversed_operands() {
    // VA = VB - VA with VB = 50, VA = 20: result 30, VF = 1
    let mut m = boot(&[0x6A, 20, 0x6B, 50, 0x8A, 0xB7]);
    run(&mut m, 3);
    assert_eq!(m.get_register(0xA), 30);
    assert_eq!(m.get_register(0xF), 1);
    // and with VB < VA: 20 - 50 wraps to 226, VF = 0
    let mut m2 = boot(&[0x6A, 50, 0x6B, 20, 0x8A, 0xB7]);
    run(&mut m2, 3);
    assert_eq!(m2.get_register(0xA), 226);
    assert_eq!(m2.get_register(0xF), 0);
}

#[test]
fn shift_right_flag_is_low_bit() {
    let mut m = boot(&[0x6A, 0x05, 0x8A, 0x06]);
    run(&mut m, 2);
    assert_eq!(m.get_register(0xA), 2);
    assert_eq!(m.get_register(0xF), 1);
    let mut m2 = boot(&[0x6A, 0x04, 0x8A, 0x06]);
    run(&mut m2, 2);
    assert_eq!(m2.get_register(0xA), 2);
    assert_eq!(m2.get_register(0xF), 0);
}

#[test]
fn shift_left_flag_is_high_bit() {
    let mut m = boot(&[0x6A, 0x81, 0x8A, 0x0E]);
    run(&mut m, 2);
    assert_eq!(m.get_register(0xA), 0x02);
    assert_eq!(m.get_register(0xF), 1);
    let mut m2 = boot(&[0x6A, 0x41, 0x8A, 0x0E]);
    run(&mut m2, 2);
    assert_eq!(m2.get_register(0xA), 0x82);
    assert_eq!(m2.get_register(0xF), 0);
}

#[test]
fn bitwise_register_ops() {
    let mut m = boot(&[0x6A, 0b1100, 0x6B, 0b1010, 0x8A, 0xB1]);
    run(&mut m, 3);
    assert_eq!(m.get_register(0xA), 0b1110);
    let mut m2 = boot(&[0x6A, 0b1100, 0x6B, 0b1010, 0x8A, 0xB2]);
    run(&mut m2, 3);
    assert_eq!(m2.get_register(0xA), 0b1000);
    let mut m3 = boot(&[0x6A, 0b1100, 0x6B, 0b1010, 0x8A, 0xB3]);
    run(&mut m3, 3);
    assert_eq!(m3.get_register(0xA), 0b0110);
}

#[test]
fn conditional_skips() {
    // 3XNN skips when equal
    let mut m = boot(&[0x6A, 0x05, 0x3A, 0x05]);
    run(&mut m, 2);
    assert_eq!(m.get_pc(), 0x206);
    // 4XNN skips when not equal
    let mut m2 = boot(&[0x6A, 0x05, 0x4A, 0x06]);
    run(&mut m2, 2);
    assert_eq!(m2.get_pc(), 0x206);
    // 5XY0 skips when registers equal
    let mut m3 = boot(&[0x6A, 0x05, 0x6B, 0x05, 0x5A, 0xB0]);
    run(&mut m3, 3);
    assert_eq!(m3.get_pc(), 0x208);
    // 9XY0 does not skip when registers equal
    let mut m4 = boot(&[0x6A, 0x05, 0x6B, 0x05, 0x9A, 0xB0]);
    run(&mut m4, 3);
    assert_eq!(m4.get_pc(), 0x206);
}

#[test]
fn register_copy_and_timer_transfers() {
    let mut m = boot(&[0x6A, 0x2A, 0x8B, 0xA0]);
    run(&mut m, 2);
    assert_eq!(m.get_register(0xB), 0x2A);
    // FX15 sets the delay timer, FX07 reads it back, FX18 the sound timer
    let mut m2 = boot(&[0x6A, 0x03, 0xFA, 0x15, 0xFB, 0x07, 0xFA, 0x18]);
    run(&mut m2, 4);
    assert_eq!(m2.get_delay_timer(), 3);
    assert_eq!(m2.get_register(0xB), 3);
    assert_eq!(m2.get_sound_timer(), 3);
}

#[test]
fn timer_countdown_stops_at_zero() {
    // set the delay timer to 3, tick timers three times, then once more
    let mut m = boot(&[0x6A, 0x03, 0xFA, 0x15]);
    run(&mut m, 2);
    assert_eq!(m.get_delay_timer(), 3);
    m.tick_timers();
    m.tick_timers();
    assert_eq!(m.get_delay_timer(), 1);
    m.tick_timers();
    assert_eq!(m.get_delay_timer(), 0);
    m.tick_timers();
    assert_eq!(m.get_delay_timer(), 0);
}

#[test]
fn clear_then_jump_loops_stably() {
    // 00E0 then 1200: the clear runs, the jump goes back to the start
    let mut m = boot(&[0x00, 0xE0, 0x12, 0x00]);
    m.tick().unwrap();
    assert_eq!(m.get_pc(), 0x202);
    assert!(m.get_screen().iter().all(|p| !p));
    m.tick().unwrap();
    assert_eq!(m.get_pc(), 0x200);
    run(&mut m, 2);
    assert_eq!(m.get_pc(), 0x200);
    assert!(m.get_screen().iter().all(|p| !p));
}

#[test]
fn set_register_then_add_to_index() {
    // 6A05 sets VA to 5; FA1E with the index register at 0 makes it 5
    let mut m = boot(&[0x6A, 0x05, 0xFA, 0x1E]);
    run(&mut m, 2);
    assert_eq!(m.get_register(0xA), 5);
    assert_eq!(m.get_index_register(), 5);
}

#[test]
fn jump_with_offset_adds_v0() {
    let mut m = boot(&[0x60, 0x05, 0xB3, 0x00]);
    run(&mut m, 2);
    assert_eq!(m.get_pc(), 0x305);
}

#[test]
fn call_and_return() {
    let mut program = vec![0x23, 0x00];
    program.resize(0x100, 0x00);
    program.push(0x00);
    program.push(0xEE);
    let mut m = boot(&program);
    m.tick().unwrap();
    assert_eq!(m.get_pc(), 0x300);
    m.tick().unwrap();
    assert_eq!(m.get_pc(), 0x202);
}

#[test]
fn sprite_draw_wraps_at_edges() {
    // draw one 0xFF row at (63, 31): the columns wrap back to 0
    let mut m = boot(&[
        0x6A, 0x3F, 0x6B, 0x1F, 0xA2, 0x0A, 0xDA, 0xB1, 0x12, 0x08, 0xFF,
    ]);
    run(&mut m, 4);
    let screen = m.get_screen();
    assert!(screen[31 * 64 + 63]);
    for col in 0..7 {
        assert!(screen[31 * 64 + col]);
    }
    assert_eq!(screen.iter().filter(|p| **p).count(), 8);
    assert_eq!(m.get_register(0xF), 0);
}

#[test]
fn sprite_double_draw_collides_and_erases() {
    // draw a two-row sprite twice at (0, 0) with no clear in between
    let mut m = boot(&[
        0x6A, 0x00, 0x6B, 0x00, 0xA2, 0x0C, 0xDA, 0xB2, 0xDA, 0xB2, 0x12, 0x0A, 0xFF, 0x81,
    ]);
    run(&mut m, 4);
    assert_eq!(m.get_register(0xF), 0);
    let lit = m.get_screen().iter().filter(|p| **p).count();
    assert_eq!(lit, 10);
    run(&mut m, 1);
    assert_eq!(m.get_register(0xF), 1);
    assert!(m.get_screen().iter().all(|p| !p));
}

#[test]
fn bcd_decomposes_digits() {
    let mut m = boot(&[0x6A, 0xFF, 0xA3, 0x00, 0xFA, 0x33]);
    run(&mut m, 3);
    assert_eq!(m.read_memory(0x300), 2);
    assert_eq!(m.read_memory(0x301), 5);
    assert_eq!(m.read_memory(0x302), 5);
    let mut m2 = boot(&[0x6A, 0x07, 0xA3, 0x00, 0xFA, 0x33]);
    run(&mut m2, 3);
    assert_eq!(m2.read_memory(0x300), 0);
    assert_eq!(m2.read_memory(0x301), 0);
    assert_eq!(m2.read_memory(0x302), 7);
}

#[test]
fn store_then_load_round_trip() {
    // store V0..=V2, zero them, load them back
    let mut m = boot(&[
        0x60, 0x11, 0x61, 0x22, 0x62, 0x33, 0xA3, 0x00, 0xF2, 0x55, 0x60, 0x00, 0x61, 0x00, 0x62,
        0x00, 0xF2, 0x65,
    ]);
    run(&mut m, 9);
    assert_eq!(m.get_register(0), 0x11);
    assert_eq!(m.get_register(1), 0x22);
    assert_eq!(m.get_register(2), 0x33);
    assert_eq!(m.read_memory(0x300), 0x11);
    assert_eq!(m.read_memory(0x301), 0x22);
    assert_eq!(m.read_memory(0x302), 0x33);
}

#[test]
fn font_character_addresses() {
    // FX29 points the index register at the five-byte glyph of VX
    let mut m = boot(&[0x6A, 0x02, 0xFA, 0x29]);
    run(&mut m, 2);
    assert_eq!(m.get_index_register(), 10);
    assert_eq!(m.read_memory(10), 0xF0);
    assert_eq!(m.read_memory(11), 0x10);
    assert_eq!(m.read_memory(12), 0xF0);
    assert_eq!(m.read_memory(13), 0x80);
    assert_eq!(m.read_memory(14), 0xF0);
}

#[test]
fn random_byte_is_masked() {
    let mut m = boot(&[0xC0, 0x0F]);
    run(&mut m, 1);
    assert_eq!(m.get_register(0) & 0xF0, 0);
    let mut m2 = boot(&[0xC0, 0x00]);
    run(&mut m2, 1);
    assert_eq!(m2.get_register(0), 0);
}

#[test]
fn key_skips() {
    let mut m = boot(&[0x6A, 0x04, 0xEA, 0x9E]);
    m.keypress(4, true).unwrap();
    run(&mut m, 2);
    assert_eq!(m.get_pc(), 0x206);
    // released key: EX9E does not skip, EXA1 does
    let mut m2 = boot(&[0x6A, 0x04, 0xEA, 0x9E]);
    run(&mut m2, 2);
    assert_eq!(m2.get_pc(), 0x204);
    let mut m3 = boot(&[0x6A, 0x04, 0xEA, 0xA1]);
    run(&mut m3, 2);
    assert_eq!(m3.get_pc(), 0x206);
}

#[test]
fn wait_key_busy_waits() {
    let mut m = boot(&[0xFA, 0x0A]);
    m.tick().unwrap();
    assert_eq!(m.get_pc(), 0x200);
    m.tick().unwrap();
    assert_eq!(m.get_pc(), 0x200);
    m.keypress(7, true).unwrap();
    m.tick().unwrap();
    assert_eq!(m.get_pc(), 0x202);
    assert_eq!(m.get_register(0xA), 7);
}

#[test]
fn wait_key_takes_lowest_pressed() {
    let mut m = boot(&[0xFA, 0x0A]);
    m.keypress(9, true).unwrap();
    m.keypress(3, true).unwrap();
    m.tick().unwrap();
    assert_eq!(m.get_register(0xA), 3);
}

#[test]
fn stack_overflow_faults() {
    // 2200 calls address 0x200 over and over; the 17th call overflows
    let mut m = boot(&[0x22, 0x00]);
    for _ in 0..16 {
        m.tick().unwrap();
    }
    assert_eq!(m.tick(), Err(Fault::StackOverflow));
    assert_eq!(m.get_pc(), 0x200);
}

#[test]
fn stack_underflow_faults() {
    let mut m = boot(&[0x00, 0xEE]);
    assert_eq!(m.tick(), Err(Fault::StackUnderflow));
    assert_eq!(m.get_pc(), 0x200);
}

#[test]
fn bcd_past_memory_end_faults() {
    let mut m = boot(&[0xAF, 0xFF, 0x6A, 0xFF, 0xFA, 0x33]);
    run(&mut m, 2);
    assert_eq!(m.tick(), Err(Fault::MemoryOutOfBounds));
    assert_eq!(m.get_pc(), 0x204);
}

#[test]
fn store_past_memory_end_faults() {
    let mut m = boot(&[0xAF, 0xFF, 0xFF, 0x55]);
    run(&mut m, 1);
    assert_eq!(m.tick(), Err(Fault::MemoryOutOfBounds));
    let mut m2 = boot(&[0xAF, 0xFF, 0xFF, 0x65]);
    run(&mut m2, 1);
    assert_eq!(m2.tick(), Err(Fault::MemoryOutOfBounds));
}

#[test]
fn draw_past_memory_end_faults() {
    let mut m = boot(&[0xAF, 0xFF, 0xDA, 0xB5]);
    run(&mut m, 1);
    assert_eq!(m.tick(), Err(Fault::MemoryOutOfBounds));
}

#[test]
fn key_skip_with_wild_register_faults() {
    let mut m = boot(&[0x6A, 0xFF, 0xEA, 0x9E]);
    run(&mut m, 1);
    assert_eq!(m.tick(), Err(Fault::KeyOutOfRange));
}

#[test]
fn fetch_past_memory_end_faults() {
    let mut m = boot(&[0x1F, 0xFF]);
    m.tick().unwrap();
    assert_eq!(m.get_pc(), 0xFFF);
    assert_eq!(m.tick(), Err(Fault::MemoryOutOfBounds));
    assert_eq!(m.get_pc(), 0xFFF);
}

#[test]
fn oversized_program_is_refused() {
    let mut m = Chip8::new();
    let too_big = vec![0u8; 3585];
    assert_eq!(m.load(&too_big), Err(Fault::OversizedProgram));
    let just_fits = vec![0u8; 3584];
    assert_eq!(m.load(&just_fits), Ok(()));
}

#[test]
fn keypress_out_of_range_is_refused() {
    let mut m = Chip8::new();
    assert_eq!(m.keypress(16, true), Err(Fault::KeyOutOfRange));
    assert_eq!(m.keypress(15, true), Ok(()));
}

#[test]
fn unrecognized_opcode_is_a_no_op() {
    // 5XY1 and FFFF match no pattern: the cycle only advances the counter
    let mut m = boot(&[0x51, 0x21, 0xFF, 0xFF, 0x6A, 0x09]);
    m.tick().unwrap();
    assert_eq!(m.get_pc(), 0x202);
    m.tick().unwrap();
    assert_eq!(m.get_pc(), 0x204);
    m.tick().unwrap();
    assert_eq!(m.get_register(0xA), 9);
}

#[test]
fn clear_screen_turns_every_cell_off() {
    let mut m = boot(&[
        0x6A, 0x00, 0x6B, 0x00, 0xA2, 0x0C, 0xDA, 0xB2, 0x00, 0xE0, 0x12, 0x0A, 0xFF, 0x81,
    ]);
    run(&mut m, 4);
    assert!(m.get_screen().iter().any(|p| *p));
    run(&mut m, 1);
    assert!(m.get_screen().iter().all(|p| !p));
}

#[test]
fn empty_program_loads() {
    let mut m = Chip8::new();
    assert_eq!(m.load(&[]), Ok(()));
    assert_eq!(m.read_memory(0x200), 0);
}

#[test]
fn zero_row_draw_does_nothing() {
    // DXY0 draws no rows: no fault even with the index at the end
    let mut m = boot(&[0xAF, 0xFF, 0xDA, 0xB0]);
    run(&mut m, 2);
    assert!(m.get_screen().iter().all(|p| !p));
    assert_eq!(m.get_register(0xF), 0);
    assert_eq!(m.get_pc(), 0x204);
}

#[test]
fn flag_register_as_add_target() {
    // 8FF4 adds VF to itself; the carry flag then overwrites the sum
    let mut m = boot(&[0x6F, 0x05, 0x8F, 0xF4]);
    run(&mut m, 2);
    assert_eq!(m.get_register(0xF), 0);
    let mut m2 = boot(&[0x6F, 0xFF, 0x8F, 0xF4]);
    run(&mut m2, 2);
    assert_eq!(m2.get_register(0xF), 1);
}
