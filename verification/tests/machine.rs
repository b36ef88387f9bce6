//! Tests of the machine container: initialization, program loading, fetch,
//! dispatch and the cycle loop.

use chip8::cpu::{Chip8Error, Cpu, MAX_PROGRAM_SIZE, MEMORY_SIZE, PROGRAM_START, SCREEN_SIZE, STACK_DEPTH};

fn fresh() -> Cpu {
    Cpu::new()
}

#[test]
fn new_starts_at_program_start() {
    let cpu = fresh();
    assert_eq!(cpu.pc, PROGRAM_START);
    assert_eq!(cpu.i as usize, PROGRAM_START);
    assert_eq!(cpu.sp, 0);
    assert_eq!(cpu.opcode, 0);
    assert_eq!(cpu.sound_timer, 0);
    assert_eq!(cpu.delay_timer, 0);
    assert!(cpu.v.iter().all(|&r| r == 0));
    assert!(cpu.memory.iter().all(|&b| b == 0));
    assert!(cpu.stack.iter().all(|&s| s == 0));
    assert!(cpu.keys.iter().all(|&k| !k));
    assert_eq!(cpu.pixels.len(), SCREEN_SIZE);
    assert!(cpu.pixels.iter().all(|&p| !p));
}

#[test]
fn fontset_fills_low_memory() {
    let mut cpu = fresh();
    cpu.load_fontset();
    assert_eq!(cpu.memory[0], 0xF0);
    assert_eq!(cpu.memory[1], 0x90);
    assert_eq!(cpu.memory[5], 0x20);
    assert_eq!(cpu.memory[79], 0x80);
    assert_eq!(cpu.memory[80], 0);
    // Idempotent: a second write changes nothing.
    let before = cpu.memory;
    cpu.load_fontset();
    assert_eq!(&cpu.memory[..], &before[..]);
}

#[test]
fn load_program_copies_at_0x200() {
    let mut cpu = fresh();
    let program = [0x12u8, 0x34, 0x56];
    assert_eq!(cpu.load_program(&program), Ok(()));
    assert_eq!(cpu.memory[0x200], 0x12);
    assert_eq!(cpu.memory[0x201], 0x34);
    assert_eq!(cpu.memory[0x202], 0x56);
    assert_eq!(cpu.memory[0x203], 0);
    assert_eq!(cpu.pc, 0x200);
    assert_eq!(cpu.sp, 0);
}

#[test]
fn load_program_accepts_maximum_size() {
    let mut cpu = fresh();
    let program = vec![0xABu8; MAX_PROGRAM_SIZE];
    assert_eq!(cpu.load_program(&program), Ok(()));
    assert_eq!(cpu.memory[0x200], 0xAB);
    assert_eq!(cpu.memory[MEMORY_SIZE - 1], 0xAB);
}

#[test]
fn load_program_rejects_oversized_image_without_partial_write() {
    let mut cpu = fresh();
    cpu.load_fontset();
    let before = cpu.memory;
    let program = vec![0xCDu8; MAX_PROGRAM_SIZE + 1];
    assert_eq!(cpu.load_program(&program), Err(Chip8Error::OversizedProgram));
    assert_eq!(&cpu.memory[..], &before[..]);
}

#[test]
fn fetch_reads_big_endian_word() {
    let mut cpu = fresh();
    cpu.memory[0x200] = 0x12;
    cpu.memory[0x201] = 0x34;
    assert_eq!(cpu.fetch_opcode(), Ok(()));
    assert_eq!(cpu.opcode, 0x1234);
}

#[test]
fn fetch_rejects_counter_outside_memory() {
    let mut cpu = fresh();
    cpu.pc = 4095;
    assert_eq!(cpu.fetch_opcode(), Err(Chip8Error::AddressOutOfRange));
    cpu.pc = 4096;
    assert_eq!(cpu.fetch_opcode(), Err(Chip8Error::AddressOutOfRange));
    cpu.pc = 4094;
    assert_eq!(cpu.fetch_opcode(), Ok(()));
}

#[test]
fn unknown_opcode_is_reported_with_word_and_counter() {
    let mut cpu = fresh();
    cpu.memory[0x200] = 0xF0;
    cpu.memory[0x201] = 0xFF;
    assert_eq!(
        cpu.execute_cycle(),
        Err(Chip8Error::UnknownOpcode { opcode: 0xF0FF, pc: 0x200 })
    );
    cpu.memory[0x200] = 0x00;
    cpu.memory[0x201] = 0x00;
    assert_eq!(
        cpu.execute_cycle(),
        Err(Chip8Error::UnknownOpcode { opcode: 0x0000, pc: 0x200 })
    );
    cpu.memory[0x200] = 0x80;
    cpu.memory[0x201] = 0x08;
    assert_eq!(
        cpu.execute_cycle(),
        Err(Chip8Error::UnknownOpcode { opcode: 0x8008, pc: 0x200 })
    );
    cpu.memory[0x200] = 0xE1;
    cpu.memory[0x201] = 0x00;
    assert_eq!(
        cpu.execute_cycle(),
        Err(Chip8Error::UnknownOpcode { opcode: 0xE100, pc: 0x200 })
    );
}

#[test]
fn cycle_decrements_timers_after_operation() {
    let mut cpu = fresh();
    // 6105: LD V1, 0x05.
    cpu.memory[0x200] = 0x61;
    cpu.memory[0x201] = 0x05;
    cpu.delay_timer = 2;
    cpu.sound_timer = 1;
    assert_eq!(cpu.execute_cycle(), Ok(()));
    assert_eq!(cpu.v[1], 0x05);
    assert_eq!(cpu.pc, 0x202);
    assert_eq!(cpu.delay_timer, 1);
    assert_eq!(cpu.sound_timer, 0);
    // Timers saturate at zero.
    cpu.memory[0x202] = 0x61;
    cpu.memory[0x203] = 0x06;
    assert_eq!(cpu.execute_cycle(), Ok(()));
    assert_eq!(cpu.delay_timer, 0);
    assert_eq!(cpu.sound_timer, 0);
}

#[test]
fn call_then_ret_restores_counter_past_the_call() {
    let mut cpu = fresh();
    // At 0x200: CALL 0x300. At 0x300: RET.
    cpu.memory[0x200] = 0x23;
    cpu.memory[0x201] = 0x00;
    cpu.memory[0x300] = 0x00;
    cpu.memory[0x301] = 0xEE;
    assert_eq!(cpu.execute_cycle(), Ok(()));
    assert_eq!(cpu.pc, 0x300);
    assert_eq!(cpu.sp, 1);
    assert_eq!(cpu.stack[0], 0x202);
    assert_eq!(cpu.execute_cycle(), Ok(()));
    assert_eq!(cpu.pc, 0x202);
    assert_eq!(cpu.sp, 0);
}

#[test]
fn ret_on_empty_stack_underflows() {
    let mut cpu = fresh();
    cpu.memory[0x200] = 0x00;
    cpu.memory[0x201] = 0xEE;
    assert_eq!(cpu.execute_cycle(), Err(Chip8Error::StackUnderflow));
    assert_eq!(cpu.pc, 0x200);
    assert_eq!(cpu.sp, 0);
}

#[test]
fn call_on_full_stack_overflows() {
    let mut cpu = fresh();
    cpu.memory[0x200] = 0x23;
    cpu.memory[0x201] = 0x00;
    cpu.sp = STACK_DEPTH;
    assert_eq!(cpu.execute_cycle(), Err(Chip8Error::StackOverflow));
    assert_eq!(cpu.pc, 0x200);
    assert_eq!(cpu.sp, STACK_DEPTH);
}

#[test]
fn key_wait_repeats_until_a_key_arrives() {
    let mut cpu = fresh();
    // F10A: LD V1, K.
    cpu.memory[0x200] = 0xF1;
    cpu.memory[0x201] = 0x0A;
    let regs = cpu.v;
    for _ in 0..5 {
        assert_eq!(cpu.execute_cycle(), Ok(()));
        assert_eq!(cpu.pc, 0x200);
        assert_eq!(cpu.v, regs);
    }
    cpu.keys[0x5] = true;
    assert_eq!(cpu.execute_cycle(), Ok(()));
    assert_eq!(cpu.v[1], 0x5);
    assert_eq!(cpu.pc, 0x202);
}

#[test]
fn key_wait_records_lowest_pressed_key() {
    let mut cpu = fresh();
    cpu.memory[0x200] = 0xF1;
    cpu.memory[0x201] = 0x0A;
    cpu.keys[0xC] = true;
    cpu.keys[0x3] = true;
    assert_eq!(cpu.execute_cycle(), Ok(()));
    assert_eq!(cpu.v[1], 0x3);
    assert_eq!(cpu.pc, 0x202);
}

#[test]
fn indexed_jump_adds_v0_without_further_advance() {
    let mut cpu = fresh();
    // B234: JP V0, 0x234.
    cpu.memory[0x200] = 0xB2;
    cpu.memory[0x201] = 0x34;
    cpu.v[0] = 0x10;
    assert_eq!(cpu.execute_cycle(), Ok(()));
    assert_eq!(cpu.pc, 0x244);
}

#[test]
fn indexed_jump_past_memory_fails_at_next_fetch() {
    let mut cpu = fresh();
    // BFFF with V0 = 255 targets 4350, outside the 4096 cells.
    cpu.memory[0x200] = 0xBF;
    cpu.memory[0x201] = 0xFF;
    cpu.v[0] = 255;
    assert_eq!(cpu.execute_cycle(), Ok(()));
    assert_eq!(cpu.pc, 0xFFF + 255);
    assert_eq!(cpu.execute_cycle(), Err(Chip8Error::AddressOutOfRange));
}

#[test]
fn random_with_zero_mask_clears_register() {
    let mut cpu = fresh();
    // C100: RND V1, 0x00 — whatever byte is drawn, the mask forces zero.
    cpu.memory[0x200] = 0xC1;
    cpu.memory[0x201] = 0x00;
    cpu.v[1] = 0xFF;
    assert_eq!(cpu.execute_cycle(), Ok(()));
    assert_eq!(cpu.v[1], 0);
    assert_eq!(cpu.pc, 0x202);
}

#[test]
fn random_stays_within_mask() {
    let mut cpu = fresh();
    // C10F: RND V1, 0x0F — the high nibble is always masked off.
    for _ in 0..8 {
        cpu.pc = 0x200;
        cpu.memory[0x200] = 0xC1;
        cpu.memory[0x201] = 0x0F;
        assert_eq!(cpu.execute_cycle(), Ok(()));
        assert!(cpu.v[1] <= 0x0F);
    }
}
