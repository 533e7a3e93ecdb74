use chip8::chip8::Chip8;
use chip8::quirks::Quirks;
use chip8::step::ExecOutcome;

fn fresh_machine() -> Chip8 {
    Chip8::new(Quirks::new(false, false, false, false, false))
}

#[test]
fn power_on_state() {
    let c = fresh_machine();
    assert_eq!(c.pc, 0x200);
    assert_eq!(c.i, 0);
    assert_eq!(c.sp, 0);
    assert_eq!(c.delay_timer, 0);
    assert_eq!(c.sound_timer, 0);
    assert!(!c.draw_flag);
    assert!(!c.wait_for_release);
    for r in 0..16 {
        assert_eq!(c.v[r], 0);
    }
    for k in 0..16 {
        assert!(!c.keypad[k]);
    }
}

#[test]
fn font_table_is_resident_at_its_offset() {
    let c = fresh_machine();
    // Glyph 0 starts the table, glyph F ends it.
    let glyph_zero = [0xF0u8, 0x90, 0x90, 0x90, 0xF0];
    let glyph_f = [0xF0u8, 0x80, 0xF0, 0x80, 0x80];
    for k in 0..5 {
        assert_eq!(c.memory[0x50 + k], glyph_zero[k]);
        assert_eq!(c.memory[0x9B + k], glyph_f[k]);
    }
    assert_eq!(c.memory[0x4F], 0);
    assert_eq!(c.memory[0xA0], 0);
}

#[test]
fn load_rom_copies_bytes_at_the_load_point() {
    let mut c = fresh_machine();
    let rom = vec![0x12u8, 0x34, 0x56];
    c.load_rom(&rom);
    assert_eq!(c.memory[0x200], 0x12);
    assert_eq!(c.memory[0x201], 0x34);
    assert_eq!(c.memory[0x202], 0x56);
    assert_eq!(c.memory[0x203], 0x00);
}

#[test]
fn reset_restores_power_on_but_keeps_quirks() {
    let mut c = Chip8::new(Quirks::new(true, true, false, true, false));
    c.load_rom(&vec![0x60u8, 0x55]);
    assert_eq!(c.cycle(), Ok(ExecOutcome::Continue));
    c.delay_timer = 9;
    c.display[0] = true;
    c.reset();
    assert_eq!(c.pc, 0x200);
    assert_eq!(c.v[0], 0);
    assert_eq!(c.delay_timer, 0);
    assert!(!c.pixel(0, 0));
    assert_eq!(c.memory[0x200], 0); // the ROM is gone
    assert_eq!(c.memory[0x50], 0xF0); // the font is back
    assert!(c.quirks.load_store);
    assert!(c.quirks.shift);
    assert!(!c.quirks.jump);
    assert!(c.quirks.vf_reset);
    assert!(!c.quirks.clip);
}

#[test]
fn cycle_fetches_big_endian_and_executes() {
    let mut c = fresh_machine();
    c.load_rom(&vec![0x6Au8, 0x42]); // 6ANN: VA = 0x42
    assert_eq!(c.cycle(), Ok(ExecOutcome::Continue));
    assert_eq!(c.pc, 0x202);
    assert_eq!(c.v[0xA], 0x42);
}

#[test]
fn cycle_reports_halt_on_top_level_return() {
    let mut c = fresh_machine();
    c.load_rom(&vec![0x00u8, 0xEE]);
    assert_eq!(c.cycle(), Ok(ExecOutcome::Halt));
}

#[test]
fn key_wait_holds_the_program_counter_while_nothing_is_pressed() {
    let mut c = fresh_machine();
    c.load_rom(&vec![0xF3u8, 0x0A]);
    for _ in 0..10 {
        assert_eq!(c.cycle(), Ok(ExecOutcome::Continue));
        assert_eq!(c.pc, 0x200);
    }
    assert!(!c.wait_for_release);
}

#[test]
fn key_wait_completes_on_release_and_reports_the_key() {
    let mut c = fresh_machine();
    c.load_rom(&vec![0xF3u8, 0x0A]);
    c.v[3] = 0xEE;

    assert_eq!(c.cycle(), Ok(ExecOutcome::Continue));
    assert_eq!(c.pc, 0x200);

    // Press key 7: the wait arms but does not complete while it is held.
    c.keypad[7] = true;
    assert_eq!(c.cycle(), Ok(ExecOutcome::Continue));
    assert_eq!(c.pc, 0x200);
    assert!(c.wait_for_release);
    assert_eq!(c.cycle(), Ok(ExecOutcome::Continue));
    assert_eq!(c.pc, 0x200);

    // Release it: the wait completes exactly once.
    c.keypad[7] = false;
    assert_eq!(c.cycle(), Ok(ExecOutcome::Continue));
    assert_eq!(c.pc, 0x202);
    assert_eq!(c.v[3], 7);
    assert!(!c.wait_for_release);
}

#[test]
fn key_wait_arms_on_the_lowest_pressed_key() {
    let mut c = fresh_machine();
    c.load_rom(&vec![0xF0u8, 0x0A]);
    c.keypad[9] = true;
    c.keypad[4] = true;
    assert_eq!(c.cycle(), Ok(ExecOutcome::Continue));
    assert!(c.wait_for_release);
    assert_eq!(c.wait_key, 4);
    c.keypad[4] = false;
    assert_eq!(c.cycle(), Ok(ExecOutcome::Continue));
    assert_eq!(c.v[0], 4);
    assert_eq!(c.pc, 0x202);
}

#[test]
fn deep_call_chain_keeps_the_stack_pointer_in_range() {
    let mut c = fresh_machine();
    for _ in 0..40 {
        assert_eq!(
            c.execute(chip8::instruction::Instruction::new(0x2300)),
            Ok(ExecOutcome::Continue)
        );
        assert!(c.sp < 16);
    }
}

#[test]
fn timers_are_plain_fields_for_the_caller() {
    let mut c = fresh_machine();
    c.delay_timer = 2;
    c.sound_timer = 1;
    c.delay_timer -= 1;
    c.sound_timer -= 1;
    assert_eq!(c.delay_timer, 1);
    assert_eq!(c.sound_timer, 0);
}
