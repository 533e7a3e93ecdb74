use chip8::chip8::Chip8;
use chip8::instruction::Instruction;
use chip8::quirks::Quirks;
use chip8::step::{ExecOutcome, VmError};

fn base_machine() -> Chip8 {
    // All quirks off unless a test says otherwise.
    Chip8::new(Quirks::new(false, false, false, false, false))
}

fn exec(c: &mut Chip8, w: u16) -> Result<ExecOutcome, VmError> {
    c.execute(Instruction::new(w))
}

#[test]
fn set_then_add_wraps_without_touching_flag() {
    let mut c = base_machine();
    c.v[0xF] = 0x5A;
    assert_eq!(exec(&mut c, 0x6000), Ok(ExecOutcome::Continue));
    assert_eq!(c.v[0], 0x00);
    assert_eq!(exec(&mut c, 0x70FF), Ok(ExecOutcome::Continue));
    assert_eq!(c.v[0], 0xFF);
    assert_eq!(c.v[0xF], 0x5A);
    assert_eq!(exec(&mut c, 0x7001), Ok(ExecOutcome::Continue));
    assert_eq!(c.v[0], 0x00);
    assert_eq!(c.v[0xF], 0x5A);
}

#[test]
fn add_registers_sets_carry() {
    let mut c = base_machine();
    c.v[0] = 0xFF;
    c.v[1] = 0x01;
    assert_eq!(exec(&mut c, 0x8014), Ok(ExecOutcome::Continue));
    assert_eq!(c.v[0], 0x00);
    assert_eq!(c.v[0xF], 1);

    c.v[0] = 0x01;
    c.v[1] = 0x01;
    assert_eq!(exec(&mut c, 0x8014), Ok(ExecOutcome::Continue));
    assert_eq!(c.v[0], 0x02);
    assert_eq!(c.v[0xF], 0);
}

#[test]
fn sub_registers_clears_flag_on_borrow() {
    let mut c = base_machine();
    c.v[0] = 0x01;
    c.v[1] = 0x02;
    assert_eq!(exec(&mut c, 0x8015), Ok(ExecOutcome::Continue));
    assert_eq!(c.v[0], 0xFF);
    assert_eq!(c.v[0xF], 0);

    c.v[0] = 0x05;
    c.v[1] = 0x02;
    assert_eq!(exec(&mut c, 0x8015), Ok(ExecOutcome::Continue));
    assert_eq!(c.v[0], 0x03);
    assert_eq!(c.v[0xF], 1);
}

#[test]
fn reverse_sub_registers() {
    let mut c = base_machine();
    c.v[0] = 0x02;
    c.v[1] = 0x05;
    assert_eq!(exec(&mut c, 0x8017), Ok(ExecOutcome::Continue));
    assert_eq!(c.v[0], 0x03);
    assert_eq!(c.v[0xF], 1);

    c.v[0] = 0x05;
    c.v[1] = 0x02;
    assert_eq!(exec(&mut c, 0x8017), Ok(ExecOutcome::Continue));
    assert_eq!(c.v[0], 0xFD);
    assert_eq!(c.v[0xF], 0);
}

#[test]
fn shift_right_reads_vy_without_quirk_and_vx_with_it() {
    let mut c = base_machine();
    c.v[0] = 0x10;
    c.v[1] = 0x05;
    assert_eq!(exec(&mut c, 0x8016), Ok(ExecOutcome::Continue));
    assert_eq!(c.v[0], 0x02); // 0x05 >> 1
    assert_eq!(c.v[0xF], 1); // low bit of 0x05

    let mut m = Chip8::new(Quirks::new(false, true, false, false, false));
    m.v[0] = 0x10;
    m.v[1] = 0x05;
    assert_eq!(m.execute(Instruction::new(0x8016)), Ok(ExecOutcome::Continue));
    assert_eq!(m.v[0], 0x08); // 0x10 >> 1
    assert_eq!(m.v[0xF], 0); // low bit of 0x10
}

#[test]
fn shift_left_reads_vy_without_quirk_and_vx_with_it() {
    let mut c = base_machine();
    c.v[0] = 0x01;
    c.v[1] = 0x81;
    assert_eq!(exec(&mut c, 0x801E), Ok(ExecOutcome::Continue));
    assert_eq!(c.v[0], 0x02); // 0x81 << 1, truncated
    assert_eq!(c.v[0xF], 1); // high bit of 0x81

    let mut m = Chip8::new(Quirks::new(false, true, false, false, false));
    m.v[0] = 0x41;
    m.v[1] = 0x81;
    assert_eq!(m.execute(Instruction::new(0x801E)), Ok(ExecOutcome::Continue));
    assert_eq!(m.v[0], 0x82); // 0x41 << 1
    assert_eq!(m.v[0xF], 0); // high bit of 0x41
}

#[test]
fn logic_ops_clear_flag_only_under_quirk() {
    let mut c = base_machine();
    c.v[0] = 0b1100;
    c.v[1] = 0b1010;
    c.v[0xF] = 0x77;
    assert_eq!(exec(&mut c, 0x8011), Ok(ExecOutcome::Continue));
    assert_eq!(c.v[0], 0b1110);
    assert_eq!(c.v[0xF], 0x77);

    let mut m = Chip8::new(Quirks::new(false, false, false, true, false));
    m.v[0] = 0b1100;
    m.v[1] = 0b1010;
    m.v[0xF] = 0x77;
    assert_eq!(m.execute(Instruction::new(0x8012)), Ok(ExecOutcome::Continue));
    assert_eq!(m.v[0], 0b1000);
    assert_eq!(m.v[0xF], 0);

    let mut n = Chip8::new(Quirks::new(false, false, false, true, false));
    n.v[0] = 0b1100;
    n.v[1] = 0b1010;
    n.v[0xF] = 0x77;
    assert_eq!(n.execute(Instruction::new(0x8013)), Ok(ExecOutcome::Continue));
    assert_eq!(n.v[0], 0b0110);
    assert_eq!(n.v[0xF], 0);
}

#[test]
fn copy_register() {
    let mut c = base_machine();
    c.v[3] = 0xAB;
    assert_eq!(exec(&mut c, 0x8230), Ok(ExecOutcome::Continue));
    assert_eq!(c.v[2], 0xAB);
}

#[test]
fn skips_on_immediate_equality() {
    let mut c = base_machine();
    c.pc = 0x200;
    c.v[4] = 0x42;
    assert_eq!(exec(&mut c, 0x3442), Ok(ExecOutcome::Continue));
    assert_eq!(c.pc, 0x202);
    assert_eq!(exec(&mut c, 0x3443), Ok(ExecOutcome::Continue));
    assert_eq!(c.pc, 0x202);
    assert_eq!(exec(&mut c, 0x4443), Ok(ExecOutcome::Continue));
    assert_eq!(c.pc, 0x204);
    assert_eq!(exec(&mut c, 0x4442), Ok(ExecOutcome::Continue));
    assert_eq!(c.pc, 0x204);
}

#[test]
fn skips_on_register_equality() {
    let mut c = base_machine();
    c.pc = 0x200;
    c.v[0] = 7;
    c.v[1] = 7;
    c.v[2] = 9;
    assert_eq!(exec(&mut c, 0x5010), Ok(ExecOutcome::Continue));
    assert_eq!(c.pc, 0x202);
    assert_eq!(exec(&mut c, 0x5020), Ok(ExecOutcome::Continue));
    assert_eq!(c.pc, 0x202);
    assert_eq!(exec(&mut c, 0x9020), Ok(ExecOutcome::Continue));
    assert_eq!(c.pc, 0x204);
    assert_eq!(exec(&mut c, 0x9010), Ok(ExecOutcome::Continue));
    assert_eq!(c.pc, 0x204);
}

#[test]
fn jump_and_call_and_return() {
    let mut c = base_machine();
    c.pc = 0x208;
    assert_eq!(exec(&mut c, 0x1300), Ok(ExecOutcome::Continue));
    assert_eq!(c.pc, 0x300);
    assert_eq!(exec(&mut c, 0x2400), Ok(ExecOutcome::Continue));
    assert_eq!(c.pc, 0x400);
    assert_eq!(c.sp, 1);
    assert_eq!(exec(&mut c, 0x00EE), Ok(ExecOutcome::Continue));
    assert_eq!(c.pc, 0x300);
    assert_eq!(c.sp, 0);
}

#[test]
fn return_on_empty_stack_requests_halt() {
    let mut c = base_machine();
    c.pc = 0x234;
    assert_eq!(exec(&mut c, 0x00EE), Ok(ExecOutcome::Halt));
    assert_eq!(c.pc, 0x234);
    assert_eq!(c.sp, 0);
}

#[test]
fn jump_with_offset_quirk() {
    let mut c = base_machine();
    c.v[0] = 0x10;
    c.v[2] = 0x05;
    assert_eq!(exec(&mut c, 0xB234), Ok(ExecOutcome::Continue));
    assert_eq!(c.pc, 0x244); // NNN + V0

    let mut m = Chip8::new(Quirks::new(false, false, true, false, false));
    m.v[0] = 0x10;
    m.v[2] = 0x05;
    assert_eq!(m.execute(Instruction::new(0xB234)), Ok(ExecOutcome::Continue));
    assert_eq!(m.pc, 0x239); // XNN + VX with X = 2
}

#[test]
fn set_address_register() {
    let mut c = base_machine();
    assert_eq!(exec(&mut c, 0xA123), Ok(ExecOutcome::Continue));
    assert_eq!(c.i, 0x123);
}

#[test]
fn random_with_zero_mask_clears_register() {
    let mut c = base_machine();
    c.v[5] = 0xAA;
    assert_eq!(exec(&mut c, 0xC500), Ok(ExecOutcome::Continue));
    assert_eq!(c.v[5], 0);
}

#[test]
fn random_respects_mask() {
    let mut c = base_machine();
    for _ in 0..8 {
        assert_eq!(exec(&mut c, 0xC30F), Ok(ExecOutcome::Continue));
        assert_eq!(c.v[3] & 0xF0, 0);
    }
}

#[test]
fn key_skips() {
    let mut c = base_machine();
    c.pc = 0x200;
    c.v[0] = 4;
    c.keypad[4] = true;
    assert_eq!(exec(&mut c, 0xE09E), Ok(ExecOutcome::Continue));
    assert_eq!(c.pc, 0x202);
    assert_eq!(exec(&mut c, 0xE0A1), Ok(ExecOutcome::Continue));
    assert_eq!(c.pc, 0x202);
    c.keypad[4] = false;
    assert_eq!(exec(&mut c, 0xE09E), Ok(ExecOutcome::Continue));
    assert_eq!(c.pc, 0x202);
    assert_eq!(exec(&mut c, 0xE0A1), Ok(ExecOutcome::Continue));
    assert_eq!(c.pc, 0x204);
}

#[test]
fn timer_transfers() {
    let mut c = base_machine();
    c.delay_timer = 0x30;
    assert_eq!(exec(&mut c, 0xF207), Ok(ExecOutcome::Continue));
    assert_eq!(c.v[2], 0x30);
    c.v[3] = 0x44;
    assert_eq!(exec(&mut c, 0xF315), Ok(ExecOutcome::Continue));
    assert_eq!(c.delay_timer, 0x44);
    c.v[4] = 0x55;
    assert_eq!(exec(&mut c, 0xF418), Ok(ExecOutcome::Continue));
    assert_eq!(c.sound_timer, 0x55);
}

#[test]
fn add_to_address_flags_only_full_sixteen_bit_carry() {
    let mut c = base_machine();
    c.i = 0x0FFF;
    c.v[0] = 0x01;
    assert_eq!(exec(&mut c, 0xF01E), Ok(ExecOutcome::Continue));
    assert_eq!(c.i, 0x1000); // past the 12-bit space...
    assert_eq!(c.v[0xF], 0); // ...but no 16-bit carry, so no flag

    let mut m = base_machine();
    m.i = 0xFFFF;
    m.v[0] = 0x01;
    assert_eq!(m.execute(Instruction::new(0xF01E)), Ok(ExecOutcome::Continue));
    assert_eq!(m.i, 0x0000);
    assert_eq!(m.v[0xF], 1);
}

#[test]
fn font_glyph_address() {
    let mut c = base_machine();
    c.v[6] = 0x0A;
    assert_eq!(exec(&mut c, 0xF629), Ok(ExecOutcome::Continue));
    assert_eq!(c.i, 0x50 + 0x0A * 5);
}

#[test]
fn decimal_decomposition() {
    let mut c = base_machine();
    c.v[0] = 254;
    c.i = 0x300;
    assert_eq!(exec(&mut c, 0xF033), Ok(ExecOutcome::Continue));
    assert_eq!(c.memory[0x300], 2);
    assert_eq!(c.memory[0x301], 5);
    assert_eq!(c.memory[0x302], 4);

    c.v[0] = 7;
    assert_eq!(exec(&mut c, 0xF033), Ok(ExecOutcome::Continue));
    assert_eq!(c.memory[0x300], 0);
    assert_eq!(c.memory[0x301], 0);
    assert_eq!(c.memory[0x302], 7);
}

#[test]
fn store_block_leaves_address_register_without_quirk() {
    let mut c = base_machine();
    c.i = 0x300;
    for r in 0..4 {
        c.v[r] = 0x10 + r as u8;
    }
    assert_eq!(exec(&mut c, 0xF355), Ok(ExecOutcome::Continue));
    for r in 0..4 {
        assert_eq!(c.memory[0x300 + r], 0x10 + r as u8);
    }
    assert_eq!(c.memory[0x304], 0);
    assert_eq!(c.i, 0x300);
}

#[test]
fn store_block_advances_address_register_with_quirk() {
    let mut c = Chip8::new(Quirks::new(true, false, false, false, false));
    c.i = 0x300;
    c.v[0] = 9;
    c.v[1] = 8;
    assert_eq!(c.execute(Instruction::new(0xF155)), Ok(ExecOutcome::Continue));
    assert_eq!(c.memory[0x300], 9);
    assert_eq!(c.memory[0x301], 8);
    assert_eq!(c.i, 0x302);
}

#[test]
fn load_block_fills_registers() {
    let mut c = base_machine();
    c.i = 0x310;
    c.memory[0x310] = 0xDE;
    c.memory[0x311] = 0xAD;
    c.memory[0x312] = 0xBE;
    c.v[3] = 0x99;
    assert_eq!(exec(&mut c, 0xF265), Ok(ExecOutcome::Continue));
    assert_eq!(c.v[0], 0xDE);
    assert_eq!(c.v[1], 0xAD);
    assert_eq!(c.v[2], 0xBE);
    assert_eq!(c.v[3], 0x99);
    assert_eq!(c.i, 0x310);

    let mut m = Chip8::new(Quirks::new(true, false, false, false, false));
    m.i = 0x310;
    m.memory[0x310] = 1;
    m.memory[0x311] = 2;
    assert_eq!(m.execute(Instruction::new(0xF165)), Ok(ExecOutcome::Continue));
    assert_eq!(m.v[0], 1);
    assert_eq!(m.v[1], 2);
    assert_eq!(m.i, 0x312);
}

#[test]
fn unmapped_opcode_in_closed_family_is_fatal() {
    let mut c = base_machine();
    c.v[0] = 3;
    assert_eq!(exec(&mut c, 0x5011), Err(VmError::Unsupported(0x5011)));
    assert_eq!(exec(&mut c, 0x801F), Err(VmError::Unsupported(0x801F)));
    assert_eq!(exec(&mut c, 0x9013), Err(VmError::Unsupported(0x9013)));
    assert_eq!(exec(&mut c, 0xE0FF), Err(VmError::Unsupported(0xE0FF)));
    // The state is left untouched by a fatal opcode.
    assert_eq!(c.v[0], 3);
    assert_eq!(c.pc, 0x200);
}

#[test]
fn unmapped_opcode_in_tolerated_family_is_a_no_op() {
    let mut c = base_machine();
    assert_eq!(exec(&mut c, 0x0123), Ok(ExecOutcome::UnknownIgnored(0x0123)));
    assert_eq!(exec(&mut c, 0xF0FF), Ok(ExecOutcome::UnknownIgnored(0xF0FF)));
    assert_eq!(c.pc, 0x200);
}
