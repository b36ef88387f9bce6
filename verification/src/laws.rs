//! Laws of the machine: properties that relate whole transitions or several
//! transitions in a row, proved over the same spec functions that the
//! executable functions are verified against.

use vstd::prelude::*;

use crate::cpu::{
    CpuView, Chip8Error, Instr, spec_cycle, spec_decode, spec_fetch, spec_load_fontset, spec_n,
    spec_nnn, spec_x, spec_y,
};
use crate::instructions::{
    cell_bit, cell_hit, first_pressed, lemma_pixel_compose, lemma_wrap_col, lemma_wrap_row,
    spec_add_vx_vy, spec_call, spec_cls, spec_drw_vx_vy_n, spec_ret, spec_shr_vx_vy,
    spec_sub_vx_vy,
};

verus! {

/// Clearing the screen sets every one of the 2048 framebuffer cells false,
/// regardless of prior content; no register is touched.
pub proof fn lemma_cls_clears_screen(c: CpuView)
    ensures
        spec_cls(c).pixels.len() == 2048,
        forall|t: int| 0 <= t < 2048 ==> !spec_cls(c).pixels[t],
        spec_cls(c).v == c.v,
        spec_cls(c).memory == c.memory,
{
}

/// Adding two registers leaves the destination with the sum modulo 256, and
/// the flag register VF is 1 exactly when the true sum exceeds 255. Stated
/// for a destination other than VF itself, which the sum would overwrite.
pub proof fn lemma_add_registers(c: CpuView)
    requires
        c.wf(),
        spec_x(c.opcode) != 15,
    ensures
        ({
            let x = spec_x(c.opcode) as int;
            let y = spec_y(c.opcode) as int;
            let a = c.v[x];
            let b = c.v[y];
            &&& spec_add_vx_vy(c).v[x] == (a + b) % 256
            &&& (spec_add_vx_vy(c).v[15] == 1 <==> a + b > 255)
            &&& (spec_add_vx_vy(c).v[15] == 0 <==> a + b <= 255)
        }),
{
    crate::cpu::lemma_operand_bounds(c.opcode);
}

/// Subtracting two registers leaves the destination with the difference
/// modulo 256, and VF follows the strict no-borrow convention: 1 exactly
/// when the minuend is strictly greater than the subtrahend, so the equal
/// case leaves VF 0 even though no borrow occurs. Stated for operands other
/// than VF itself, which the flag write would disturb.
pub proof fn lemma_sub_registers(c: CpuView)
    requires
        c.wf(),
        spec_x(c.opcode) != 15,
        spec_y(c.opcode) != 15,
    ensures
        ({
            let x = spec_x(c.opcode) as int;
            let y = spec_y(c.opcode) as int;
            let a = c.v[x];
            let b = c.v[y];
            &&& spec_sub_vx_vy(c).v[x] == ((a - b) + 256) % 256
            &&& (spec_sub_vx_vy(c).v[15] == 1 <==> a > b)
            &&& (a <= b ==> spec_sub_vx_vy(c).v[15] == 0)
        }),
{
    crate::cpu::lemma_operand_bounds(c.opcode);
}

/// Shifting a register right by one leaves the destination with the value
/// halved and VF with the bit shifted out: the low bit of the value before
/// the shift. Stated for a destination other than VF itself.
pub proof fn lemma_shift_right(c: CpuView)
    requires
        c.wf(),
        spec_x(c.opcode) != 15,
    ensures
        ({
            let x = spec_x(c.opcode) as int;
            let v = c.v[x];
            &&& spec_shr_vx_vy(c).v[x] == v >> 1
            &&& spec_shr_vx_vy(c).v[15] == v & 1
        }),
{
    crate::cpu::lemma_operand_bounds(c.opcode);
}

/// Every bit of a full sprite byte is set.
proof fn lemma_full_byte_bits()
    by (bit_vector)
    ensures
        forall|k: u8| k < 8 ==> #[trigger] ((0xFFu8 >> k) & 1) == 1,
{
}

/// Drawing the same 1-row, full-byte sprite twice at the same coordinates:
/// the first draw, onto cells that are all unset, sets them and reports no
/// collision (VF = 0); the second draw reports a collision (VF = 1) and
/// restores every framebuffer cell, so the 8 covered cells are unset again.
/// Stated for coordinate registers other than VF, which the draws overwrite.
pub proof fn lemma_draw_twice_collides(c: CpuView)
    requires
        c.wf(),
        spec_n(c.opcode) == 1,
        spec_x(c.opcode) != 15,
        spec_y(c.opcode) != 15,
        c.memory[c.i as int] == 0xFF,
        forall|t: int|
            0 <= t < 2048 && #[trigger] cell_hit(
                c.v[spec_x(c.opcode) as int] as int,
                c.v[spec_y(c.opcode) as int] as int,
                1,
                t,
            ) ==> !c.pixels[t],
    ensures
        spec_drw_vx_vy_n(c).1 is Ok,
        spec_drw_vx_vy_n(c).0.v[15] == 0,
        spec_drw_vx_vy_n(spec_drw_vx_vy_n(c).0).1 is Ok,
        spec_drw_vx_vy_n(spec_drw_vx_vy_n(c).0).0.v[15] == 1,
        forall|t: int|
            0 <= t < 2048 ==> spec_drw_vx_vy_n(spec_drw_vx_vy_n(c).0).0.pixels[t] == c.pixels[t],
{
    crate::cpu::lemma_operand_bounds(c.opcode);
    lemma_full_byte_bits();
    let x = spec_x(c.opcode) as int;
    let y = spec_y(c.opcode) as int;
    let vx = c.v[x] as int;
    let vy = c.v[y] as int;
    let ii = c.i as int;
    let first = spec_drw_vx_vy_n(c).0;
    // Every covered cell carries a set sprite bit.
    assert forall|t: int| 0 <= t < 2048 && #[trigger] cell_hit(vx, vy, 1, t) implies cell_bit(
        c.memory,
        ii,
        vx,
        vy,
        t,
    ) by {
        vstd::arithmetic::div_mod::lemma_mod_division_less_than_divisor(t / 64 - vy, 32);
        vstd::arithmetic::div_mod::lemma_mod_division_less_than_divisor(t % 64 - vx, 64);
        let co = crate::instructions::col_of(vx, t % 64);
        assert((0xFFu8 >> ((7 - co) as u8)) & 1 == 1);
    }
    // First draw: no covered cell was set, so no collision.
    assert(!crate::instructions::draw_collision(c, vx, vy, 1));
    assert(first.v[15] == 0);
    // The operand registers survive the flag write, so the second draw reads
    // the same coordinates, memory and sprite.
    assert(first.v[x] == c.v[x] && first.v[y] == c.v[y]);
    let second = spec_drw_vx_vy_n(first).0;
    // One covered cell exists: the landing cell of the sprite's first bit.
    let tw = ((vy + 0) % 32) * 64 + ((vx + 0) % 64);
    lemma_pixel_compose((vy + 0) % 32, (vx + 0) % 64);
    lemma_wrap_row(vy, 0);
    lemma_wrap_col(vx, 0);
    assert(cell_hit(vx, vy, 1, tw));
    assert(first.pixels[tw] && cell_bit(first.memory, ii, vx, vy, tw));
    assert(crate::instructions::draw_collision(first, vx, vy, 1));
    assert(second.v[15] == 1);
    // The second XOR of the same sprite bit restores every cell.
    assert forall|t: int| 0 <= t < 2048 implies second.pixels[t] == c.pixels[t] by {
        if cell_hit(vx, vy, 1, t) {
            assert(first.pixels[t] == (c.pixels[t] != cell_bit(c.memory, ii, vx, vy, t)));
        }
    }
}

/// Writing the glyph table is idempotent: a second write changes nothing.
pub proof fn lemma_load_fontset_idempotent(c: CpuView)
    requires
        c.wf(),
    ensures
        spec_load_fontset(spec_load_fontset(c)) == spec_load_fontset(c),
{
    assert(spec_load_fontset(spec_load_fontset(c)).memory =~= spec_load_fontset(c).memory);
    assert(spec_load_fontset(spec_load_fontset(c)) =~= spec_load_fontset(c));
}

/// A run of cycles, each consuming one byte of the random stream; it stops
/// at the first reported error.
pub open spec fn spec_cycles(c: CpuView, rns: Seq<u8>) -> (CpuView, Result<(), Chip8Error>)
    decreases rns.len(),
{
    if rns.len() == 0 {
        (c, Ok(()))
    } else {
        let step = spec_cycle(c, rns[0]);
        if step.1 is Err {
            step
        } else {
            spec_cycles(step.0, rns.skip(1))
        }
    }
}

/// With no key pressed, the scan finds none.
pub proof fn lemma_first_pressed_none(keys: Seq<bool>, k: int)
    requires
        forall|j: int| 0 <= j < 16 ==> !keys[j],
    ensures
        first_pressed(keys, k) == 16,
    decreases 16 - k,
{
    if 0 <= k < 16 {
        lemma_first_pressed_none(keys, k + 1);
    }
}

/// The scan in fixed order 0 through 15 finds the lowest pressed key.
pub proof fn lemma_first_pressed_finds(keys: Seq<bool>, k: int, w: int)
    requires
        0 <= k <= w < 16,
        keys[w],
        forall|j: int| k <= j < w ==> !keys[j],
    ensures
        first_pressed(keys, k) == w,
    decreases 16 - k,
{
    if k < w {
        lemma_first_pressed_finds(keys, k + 1, w);
    }
}

/// While the machine waits on a key with none pressed, any number of
/// repeated cycles succeed and leave the program counter, the registers,
/// the memory, the stack and the key panel entirely unchanged: the
/// instruction repeats itself until a key arrives.
pub proof fn lemma_key_wait_stalls(c: CpuView, rns: Seq<u8>)
    requires
        c.wf(),
        c.pc + 1 <= 4095,
        spec_decode(spec_fetch(c).0.opcode) == Some(Instr::LdVxK),
        forall|j: int| 0 <= j < 16 ==> !c.keys[j],
    ensures
        spec_cycles(c, rns).1 is Ok,
        spec_cycles(c, rns).0.pc == c.pc,
        spec_cycles(c, rns).0.v == c.v,
        spec_cycles(c, rns).0.memory == c.memory,
        spec_cycles(c, rns).0.keys == c.keys,
        spec_cycles(c, rns).0.i == c.i,
        spec_cycles(c, rns).0.sp == c.sp,
        spec_cycles(c, rns).0.stack == c.stack,
    decreases rns.len(),
{
    if rns.len() > 0 {
        lemma_first_pressed_none(spec_fetch(c).0.keys, 0);
        let step = spec_cycle(c, rns[0]);
        assert(step.1 is Ok);
        lemma_key_wait_stalls(step.0, rns.skip(1));
    }
}

/// Once a key is pressed while the machine waits on one, the next cycle
/// succeeds, stores the lowest pressed key's index in the destination
/// register and advances the program counter by exactly 2, once.
pub proof fn lemma_key_wait_completes(c: CpuView, rn: u8, w: int)
    requires
        c.wf(),
        c.pc + 1 <= 4095,
        spec_decode(spec_fetch(c).0.opcode) == Some(Instr::LdVxK),
        0 <= w < 16,
        c.keys[w],
        forall|j: int| 0 <= j < w ==> !c.keys[j],
    ensures
        spec_cycle(c, rn).1 is Ok,
        spec_cycle(c, rn).0.v == c.v.update(spec_x(spec_fetch(c).0.opcode) as int, w as u8),
        spec_cycle(c, rn).0.pc == c.pc + 2,
{
    crate::cpu::lemma_operand_bounds(spec_fetch(c).0.opcode);
    lemma_first_pressed_finds(spec_fetch(c).0.keys, 0, w);
}

/// A call followed eventually by a return restores the program counter to
/// the address just past the call instruction. The call from program
/// counter P jumps to its 12-bit address operand and records P + 2; any
/// later state that has kept that stack frame and depth returns to P + 2.
pub proof fn lemma_call_ret_round_trip(c: CpuView, mid: CpuView)
    requires
        c.wf(),
        c.sp < 16,
        c.pc + 2 <= u16::MAX,
        mid.sp == c.sp + 1,
        mid.stack == spec_call(c).0.stack,
    ensures
        spec_call(c).1 is Ok,
        spec_call(c).0.pc == spec_nnn(c.opcode),
        spec_call(c).0.stack[c.sp as int] == c.pc + 2,
        spec_ret(mid).1 is Ok,
        spec_ret(mid).0.pc == c.pc + 2,
{
}

} // verus!
