//! Tests of the individual operations: arithmetic and flag side effects,
//! memory-block operations, drawing and input skips.

use chip8::cpu::{Chip8Error, Cpu};
use chip8::instructions::{
    add_i_vx, add_vx_kk, add_vx_vy, and_vx_vy, cls, drw_vx_vy_n, jp, ld_b_vx, ld_dt_vx, ld_f_vx,
    ld_i_nnn, ld_i_vx, ld_st_vx, ld_vx_dt, ld_vx_i, ld_vx_kk, ld_vx_vy, or_vx_vy, rnd_vx_kk_with,
    se_vx_kk, se_vx_vy, shl_vx_vy, shr_vx_vy, skp_vx, sknp_vx, sne_vx_kk, sne_vx_vy, sub_vx_vy,
    subn_vx_vy, xor_vx_vy,
};

fn with_opcode(opcode: u16) -> Cpu {
    let mut cpu = Cpu::new();
    cpu.opcode = opcode;
    cpu
}

#[test]
fn clear_screen_unsets_every_cell() {
    let mut cpu = with_opcode(0x00E0);
    cpu.pixels[0] = true;
    cpu.pixels[1234] = true;
    cpu.pixels[2047] = true;
    cls(&mut cpu);
    assert!(cpu.pixels.iter().all(|&p| !p));
    assert_eq!(cpu.pc, 0x202);
}

#[test]
fn load_immediate_and_copy() {
    let mut cpu = with_opcode(0x61AB);
    ld_vx_kk(&mut cpu);
    assert_eq!(cpu.v[1], 0xAB);
    cpu.opcode = 0x8210;
    ld_vx_vy(&mut cpu);
    assert_eq!(cpu.v[2], 0xAB);
    assert_eq!(cpu.pc, 0x204);
}

#[test]
fn add_immediate_wraps_modulo_256() {
    let mut cpu = with_opcode(0x710A);
    cpu.v[1] = 250;
    add_vx_kk(&mut cpu);
    assert_eq!(cpu.v[1], 4);
    // No flag side effect.
    assert_eq!(cpu.v[0xF], 0);
}

#[test]
fn bitwise_operations_have_no_flag_side_effect() {
    let mut cpu = with_opcode(0x8121);
    cpu.v[1] = 0b1100;
    cpu.v[2] = 0b1010;
    cpu.v[0xF] = 7;
    or_vx_vy(&mut cpu);
    assert_eq!(cpu.v[1], 0b1110);
    cpu.opcode = 0x8122;
    and_vx_vy(&mut cpu);
    assert_eq!(cpu.v[1], 0b1010);
    cpu.opcode = 0x8123;
    xor_vx_vy(&mut cpu);
    assert_eq!(cpu.v[1], 0b0000);
    assert_eq!(cpu.v[0xF], 7);
}

#[test]
fn add_registers_sets_carry_exactly_when_sum_exceeds_255() {
    let mut cpu = with_opcode(0x8124);
    cpu.v[1] = 200;
    cpu.v[2] = 100;
    add_vx_vy(&mut cpu);
    assert_eq!(cpu.v[1], 44);
    assert_eq!(cpu.v[0xF], 1);

    let mut cpu = with_opcode(0x8124);
    cpu.v[1] = 200;
    cpu.v[2] = 55;
    add_vx_vy(&mut cpu);
    assert_eq!(cpu.v[1], 255);
    assert_eq!(cpu.v[0xF], 0);
}

#[test]
fn sub_registers_flag_convention_at_greater_equal_less() {
    // a > b: no borrow, VF = 1.
    let mut cpu = with_opcode(0x8125);
    cpu.v[1] = 10;
    cpu.v[2] = 3;
    sub_vx_vy(&mut cpu);
    assert_eq!(cpu.v[1], 7);
    assert_eq!(cpu.v[0xF], 1);

    // a == b: the strict convention leaves VF = 0 even with no borrow.
    let mut cpu = with_opcode(0x8125);
    cpu.v[1] = 5;
    cpu.v[2] = 5;
    sub_vx_vy(&mut cpu);
    assert_eq!(cpu.v[1], 0);
    assert_eq!(cpu.v[0xF], 0);

    // a < b: borrow, VF = 0, result wraps.
    let mut cpu = with_opcode(0x8125);
    cpu.v[1] = 3;
    cpu.v[2] = 10;
    sub_vx_vy(&mut cpu);
    assert_eq!(cpu.v[1], 249);
    assert_eq!(cpu.v[0xF], 0);
}

#[test]
fn reverse_sub_swaps_the_operands() {
    let mut cpu = with_opcode(0x8127);
    cpu.v[1] = 3;
    cpu.v[2] = 10;
    subn_vx_vy(&mut cpu);
    assert_eq!(cpu.v[1], 7);
    assert_eq!(cpu.v[0xF], 1);

    let mut cpu = with_opcode(0x8127);
    cpu.v[1] = 10;
    cpu.v[2] = 3;
    subn_vx_vy(&mut cpu);
    assert_eq!(cpu.v[1], 249);
    assert_eq!(cpu.v[0xF], 0);
}

#[test]
fn shift_right_reports_the_bit_shifted_out() {
    for (value, result, flag) in [(0u8, 0u8, 0u8), (1, 0, 1), (255, 127, 1)] {
        let mut cpu = with_opcode(0x8106);
        cpu.v[1] = value;
        shr_vx_vy(&mut cpu);
        assert_eq!(cpu.v[1], result);
        assert_eq!(cpu.v[0xF], flag);
    }
}

#[test]
fn shift_left_reports_the_bit_shifted_out() {
    for (value, result, flag) in [(0x80u8, 0u8, 1u8), (0x41, 0x82, 0), (0xFF, 0xFE, 1)] {
        let mut cpu = with_opcode(0x810E);
        cpu.v[1] = value;
        shl_vx_vy(&mut cpu);
        assert_eq!(cpu.v[1], result);
        assert_eq!(cpu.v[0xF], flag);
    }
}

#[test]
fn conditional_skips_advance_by_4_or_2() {
    let mut cpu = with_opcode(0x31AB);
    cpu.v[1] = 0xAB;
    se_vx_kk(&mut cpu);
    assert_eq!(cpu.pc, 0x204);

    let mut cpu = with_opcode(0x31AB);
    cpu.v[1] = 0xAC;
    se_vx_kk(&mut cpu);
    assert_eq!(cpu.pc, 0x202);

    let mut cpu = with_opcode(0x41AB);
    cpu.v[1] = 0xAC;
    sne_vx_kk(&mut cpu);
    assert_eq!(cpu.pc, 0x204);

    let mut cpu = with_opcode(0x5120);
    cpu.v[1] = 9;
    cpu.v[2] = 9;
    se_vx_vy(&mut cpu);
    assert_eq!(cpu.pc, 0x204);

    let mut cpu = with_opcode(0x9120);
    cpu.v[1] = 9;
    cpu.v[2] = 8;
    sne_vx_vy(&mut cpu);
    assert_eq!(cpu.pc, 0x204);
}

#[test]
fn jumps_and_index_loads() {
    let mut cpu = with_opcode(0x1234);
    jp(&mut cpu);
    assert_eq!(cpu.pc, 0x234);

    let mut cpu = with_opcode(0xA345);
    ld_i_nnn(&mut cpu);
    assert_eq!(cpu.i, 0x345);
    assert_eq!(cpu.pc, 0x202);
}

#[test]
fn add_into_index_validates_the_sum() {
    let mut cpu = with_opcode(0xF11E);
    cpu.i = 0xFF0;
    cpu.v[1] = 0x0F;
    assert_eq!(add_i_vx(&mut cpu), Ok(()));
    assert_eq!(cpu.i, 0xFFF);
    assert_eq!(cpu.pc, 0x202);

    let mut cpu = with_opcode(0xF11E);
    cpu.i = 0xFF0;
    cpu.v[1] = 0x10;
    assert_eq!(add_i_vx(&mut cpu), Err(Chip8Error::AddressOutOfRange));
    assert_eq!(cpu.i, 0xFF0);
    assert_eq!(cpu.pc, 0x200);
}

#[test]
fn glyph_address_is_five_times_the_low_nibble() {
    let mut cpu = with_opcode(0xF129);
    cpu.v[1] = 0x0A;
    ld_f_vx(&mut cpu);
    assert_eq!(cpu.i, 50);

    let mut cpu = with_opcode(0xF129);
    cpu.v[1] = 0xFF;
    ld_f_vx(&mut cpu);
    assert_eq!(cpu.i, 75);
}

#[test]
fn bcd_store_writes_the_decimal_digits() {
    for (value, digits) in [
        (0u8, (0u8, 0u8, 0u8)),
        (9, (0, 0, 9)),
        (10, (0, 1, 0)),
        (99, (0, 9, 9)),
        (100, (1, 0, 0)),
        (255, (2, 5, 5)),
    ] {
        let mut cpu = with_opcode(0xF133);
        cpu.i = 0x300;
        cpu.v[1] = value;
        assert_eq!(ld_b_vx(&mut cpu), Ok(()));
        assert_eq!(cpu.memory[0x300], digits.0);
        assert_eq!(cpu.memory[0x301], digits.1);
        assert_eq!(cpu.memory[0x302], digits.2);
    }
}

#[test]
fn bcd_store_validates_its_three_cells() {
    let mut cpu = with_opcode(0xF133);
    cpu.i = 4094;
    assert_eq!(ld_b_vx(&mut cpu), Err(Chip8Error::AddressOutOfRange));
}

#[test]
fn block_store_and_load_are_inclusive() {
    let mut cpu = with_opcode(0xF255);
    cpu.i = 0x300;
    cpu.v[0] = 0xAA;
    cpu.v[1] = 0xBB;
    cpu.v[2] = 0xCC;
    cpu.v[3] = 0xDD;
    assert_eq!(ld_i_vx(&mut cpu), Ok(()));
    assert_eq!(cpu.memory[0x300], 0xAA);
    assert_eq!(cpu.memory[0x301], 0xBB);
    assert_eq!(cpu.memory[0x302], 0xCC);
    assert_eq!(cpu.memory[0x303], 0);

    let mut cpu = with_opcode(0xF265);
    cpu.i = 0x300;
    cpu.memory[0x300] = 0x11;
    cpu.memory[0x301] = 0x22;
    cpu.memory[0x302] = 0x33;
    cpu.memory[0x303] = 0x44;
    cpu.v[3] = 0x99;
    assert_eq!(ld_vx_i(&mut cpu), Ok(()));
    assert_eq!(cpu.v[0], 0x11);
    assert_eq!(cpu.v[1], 0x22);
    assert_eq!(cpu.v[2], 0x33);
    assert_eq!(cpu.v[3], 0x99);
}

#[test]
fn block_operations_validate_their_span() {
    let mut cpu = with_opcode(0xF555);
    cpu.i = 4093;
    assert_eq!(ld_i_vx(&mut cpu), Err(Chip8Error::AddressOutOfRange));

    let mut cpu = with_opcode(0xF565);
    cpu.i = 4093;
    assert_eq!(ld_vx_i(&mut cpu), Err(Chip8Error::AddressOutOfRange));
}

#[test]
fn timers_move_through_registers() {
    let mut cpu = with_opcode(0xF107);
    cpu.delay_timer = 42;
    ld_vx_dt(&mut cpu);
    assert_eq!(cpu.v[1], 42);

    let mut cpu = with_opcode(0xF115);
    cpu.v[1] = 7;
    ld_dt_vx(&mut cpu);
    assert_eq!(cpu.delay_timer, 7);

    let mut cpu = with_opcode(0xF118);
    cpu.v[1] = 9;
    ld_st_vx(&mut cpu);
    assert_eq!(cpu.sound_timer, 9);
}

#[test]
fn input_skips_test_the_key_indexed_by_the_register() {
    let mut cpu = with_opcode(0xE19E);
    cpu.v[1] = 0x4;
    cpu.keys[0x4] = true;
    assert_eq!(skp_vx(&mut cpu), Ok(()));
    assert_eq!(cpu.pc, 0x204);

    let mut cpu = with_opcode(0xE1A1);
    cpu.v[1] = 0x4;
    assert_eq!(sknp_vx(&mut cpu), Ok(()));
    assert_eq!(cpu.pc, 0x204);

    let mut cpu = with_opcode(0xE19E);
    cpu.v[1] = 16;
    assert_eq!(skp_vx(&mut cpu), Err(Chip8Error::AddressOutOfRange));
    let mut cpu = with_opcode(0xE1A1);
    cpu.v[1] = 16;
    assert_eq!(sknp_vx(&mut cpu), Err(Chip8Error::AddressOutOfRange));
}

#[test]
fn masked_random_keeps_only_masked_bits() {
    let mut cpu = with_opcode(0xC10F);
    rnd_vx_kk_with(&mut cpu, 0xAB);
    assert_eq!(cpu.v[1], 0x0B);
    assert_eq!(cpu.pc, 0x202);
}

#[test]
fn draw_sets_pixels_and_second_draw_collides_and_clears() {
    // D011: one-row sprite at (V0, V1); the sprite byte is 0xFF.
    let mut cpu = with_opcode(0xD011);
    cpu.i = 0x300;
    cpu.memory[0x300] = 0xFF;
    cpu.v[0] = 8;
    cpu.v[1] = 2;
    assert_eq!(drw_vx_vy_n(&mut cpu), Ok(()));
    for b in 0..8 {
        assert!(cpu.pixels[2 * 64 + 8 + b]);
    }
    assert_eq!(cpu.v[0xF], 0);

    cpu.opcode = 0xD011;
    assert_eq!(drw_vx_vy_n(&mut cpu), Ok(()));
    for b in 0..8 {
        assert!(!cpu.pixels[2 * 64 + 8 + b]);
    }
    assert_eq!(cpu.v[0xF], 1);
}

#[test]
fn draw_wraps_columns_and_rows() {
    // Two-row sprite at (63, 31): columns wrap to 0, the second row wraps
    // to the top of the screen.
    let mut cpu = with_opcode(0xD012);
    cpu.i = 0x300;
    cpu.memory[0x300] = 0xFF;
    cpu.memory[0x301] = 0xFF;
    cpu.v[0] = 63;
    cpu.v[1] = 31;
    assert_eq!(drw_vx_vy_n(&mut cpu), Ok(()));
    assert!(cpu.pixels[31 * 64 + 63]);
    for b in 0..7 {
        assert!(cpu.pixels[31 * 64 + b]);
    }
    assert!(cpu.pixels[63]);
    for b in 0..7 {
        assert!(cpu.pixels[b]);
    }
    assert_eq!(cpu.v[0xF], 0);
}

#[test]
fn draw_mixes_by_xor_and_reports_partial_collision() {
    // 0xF0 over a screen whose first covered pixel is already set.
    let mut cpu = with_opcode(0xD011);
    cpu.i = 0x300;
    cpu.memory[0x300] = 0xF0;
    cpu.pixels[0] = true;
    assert_eq!(drw_vx_vy_n(&mut cpu), Ok(()));
    assert!(!cpu.pixels[0]);
    assert!(cpu.pixels[1] && cpu.pixels[2] && cpu.pixels[3]);
    assert!(!cpu.pixels[4] && !cpu.pixels[7]);
    assert_eq!(cpu.v[0xF], 1);
}

#[test]
fn draw_validates_sprite_rows_against_memory() {
    let mut cpu = with_opcode(0xD01F);
    cpu.i = 4090;
    assert_eq!(drw_vx_vy_n(&mut cpu), Err(Chip8Error::AddressOutOfRange));
}
