//! The instruction semantics: one transition per operation, each stated as a
//! spec function over the machine model and implemented by a verified
//! function that mutates the machine in place. Every operation advances the
//! program counter by its own rule.

use vstd::prelude::*;

use crate::cpu::{
    Chip8Error, Cpu, CpuView, spec_kk, spec_n, spec_nnn, spec_x, spec_y,
};

verus! {

/// 8-bit addition with modulo-256 wraparound.
pub open spec fn wrap_add(a: u8, b: u8) -> u8 {
    ((a + b) % 256) as u8
}

/// 8-bit subtraction with modulo-256 wraparound.
pub open spec fn wrap_sub(a: u8, b: u8) -> u8 {
    (((a - b) + 256) % 256) as u8
}

/// 00E0 — CLS: every framebuffer cell becomes unset.
pub open spec fn spec_cls(c: CpuView) -> CpuView {
    CpuView { pixels: Seq::new(2048, |t: int| false), pc: (c.pc + 2) as usize, ..c }
}

/// 00E0 — CLS; clears the display.
pub fn cls(cpu: &mut Cpu)
    requires
        old(cpu).wf(),
        old(cpu).pc + 2 <= usize::MAX,
    ensures
        final(cpu).wf(),
        final(cpu)@ == spec_cls(old(cpu)@),
{
    let mut t: usize = 0;
    while t < 2048
        invariant
            t <= 2048,
            cpu@ == (CpuView { pixels: cpu@.pixels, ..old(cpu)@ }),
            cpu@.pixels.len() == 2048,
            forall|j: int| 0 <= j < t ==> !cpu@.pixels[j],
        decreases 2048 - t,
    {
        cpu.pixels[t] = false;
        t += 1;
    }
    cpu.inc_pc();
    proof {
        assert(cpu@.pixels =~= Seq::new(2048, |j: int| false));
        assert(cpu@ =~= spec_cls(old(cpu)@));
    }
}

/// 00EE — RET: pops the saved return address into the program counter, or
/// reports `StackUnderflow` when no call is pending.
pub open spec fn spec_ret(c: CpuView) -> (CpuView, Result<(), Chip8Error>) {
    if c.sp == 0 {
        (c, Err(Chip8Error::StackUnderflow))
    } else {
        (
            CpuView {
                sp: (c.sp - 1) as usize,
                pc: c.stack[c.sp - 1] as usize,
                ..c
            },
            Ok(()),
        )
    }
}

/// 00EE — RET; returns from a subroutine. The restored address already
/// points past the original call instruction, so there is no extra advance.
pub fn ret(cpu: &mut Cpu) -> (r: Result<(), Chip8Error>)
    requires
        old(cpu).wf(),
    ensures
        final(cpu).wf(),
        final(cpu)@ == spec_ret(old(cpu)@).0,
        r == spec_ret(old(cpu)@).1,
{
    if cpu.sp == 0 {
        return Err(Chip8Error::StackUnderflow);
    }
    cpu.sp -= 1;
    cpu.pc = cpu.stack[cpu.sp] as usize;
    proof {
        assert(cpu@ =~= spec_ret(old(cpu)@).0);
    }
    Ok(())
}

/// 1nnn — JP nnn: the program counter becomes the 12-bit address operand.
pub open spec fn spec_jp(c: CpuView) -> CpuView {
    CpuView { pc: spec_nnn(c.opcode) as usize, ..c }
}

/// 1nnn — JP nnn; jumps to address nnn.
pub fn jp(cpu: &mut Cpu)
    requires
        old(cpu).wf(),
    ensures
        final(cpu).wf(),
        final(cpu)@ == spec_jp(old(cpu)@),
{
    cpu.pc = cpu.get_nnn() as usize;
    proof {
        assert(cpu@ =~= spec_jp(old(cpu)@));
    }
}

/// 2nnn — CALL nnn: pushes the address just past the call instruction and
/// jumps to the 12-bit address operand, or reports `StackOverflow` when the
/// stack is already at its maximum depth.
pub open spec fn spec_call(c: CpuView) -> (CpuView, Result<(), Chip8Error>) {
    if c.sp == 16 {
        (c, Err(Chip8Error::StackOverflow))
    } else {
        (
            CpuView {
                stack: c.stack.update(c.sp as int, (c.pc + 2) as u16),
                sp: (c.sp + 1) as usize,
                pc: spec_nnn(c.opcode) as usize,
                ..c
            },
            Ok(()),
        )
    }
}

/// 2nnn — CALL nnn; calls the subroutine at nnn. The return address stored
/// on the stack is a 16-bit address, so the program counter must fit one.
pub fn call(cpu: &mut Cpu) -> (r: Result<(), Chip8Error>)
    requires
        old(cpu).wf(),
        old(cpu).pc + 2 <= u16::MAX,
    ensures
        final(cpu).wf(),
        final(cpu)@ == spec_call(old(cpu)@).0,
        r == spec_call(old(cpu)@).1,
{
    if cpu.sp == 16 {
        return Err(Chip8Error::StackOverflow);
    }
    cpu.stack[cpu.sp] = (cpu.pc + 2) as u16;
    cpu.sp += 1;
    cpu.pc = cpu.get_nnn() as usize;
    proof {
        assert(cpu@ =~= spec_call(old(cpu)@).0);
    }
    Ok(())
}

/// 3xkk — SE Vx, kk: skips the next instruction when Vx equals the
/// immediate.
pub open spec fn spec_se_vx_kk(c: CpuView) -> CpuView {
    let skip = c.v[spec_x(c.opcode) as int] == spec_kk(c.opcode);
    CpuView { pc: if skip { (c.pc + 4) as usize } else { (c.pc + 2) as usize }, ..c }
}

/// 3xkk — SE Vx, kk; skips the next instruction if Vx == kk.
pub fn se_vx_kk(cpu: &mut Cpu)
    requires
        old(cpu).wf(),
        old(cpu).pc + 4 <= usize::MAX,
    ensures
        final(cpu).wf(),
        final(cpu)@ == spec_se_vx_kk(old(cpu)@),
{
    let x = cpu.get_x();
    if cpu.v[x as usize] == cpu.get_kk() {
        cpu.inc_pc();
    }
    cpu.inc_pc();
    proof {
        assert(cpu@ =~= spec_se_vx_kk(old(cpu)@));
    }
}

/// 4xkk — SNE Vx, kk: skips the next instruction when Vx differs from the
/// immediate.
pub open spec fn spec_sne_vx_kk(c: CpuView) -> CpuView {
    let skip = c.v[spec_x(c.opcode) as int] != spec_kk(c.opcode);
    CpuView { pc: if skip { (c.pc + 4) as usize } else { (c.pc + 2) as usize }, ..c }
}

/// 4xkk — SNE Vx, kk; skips the next instruction if Vx != kk.
pub fn sne_vx_kk(cpu: &mut Cpu)
    requires
        old(cpu).wf(),
        old(cpu).pc + 4 <= usize::MAX,
    ensures
        final(cpu).wf(),
        final(cpu)@ == spec_sne_vx_kk(old(cpu)@),
{
    let x = cpu.get_x();
    if cpu.v[x as usize] != cpu.get_kk() {
        cpu.inc_pc();
    }
    cpu.inc_pc();
    proof {
        assert(cpu@ =~= spec_sne_vx_kk(old(cpu)@));
    }
}

/// 5xy0 — SE Vx, Vy: skips the next instruction when the two registers are
/// equal.
pub open spec fn spec_se_vx_vy(c: CpuView) -> CpuView {
    let skip = c.v[spec_x(c.opcode) as int] == c.v[spec_y(c.opcode) as int];
    CpuView { pc: if skip { (c.pc + 4) as usize } else { (c.pc + 2) as usize }, ..c }
}

/// 5xy0 — SE Vx, Vy; skips the next instruction if Vx == Vy.
pub fn se_vx_vy(cpu: &mut Cpu)
    requires
        old(cpu).wf(),
        old(cpu).pc + 4 <= usize::MAX,
    ensures
        final(cpu).wf(),
        final(cpu)@ == spec_se_vx_vy(old(cpu)@),
{
    let x = cpu.get_x();
    let y = cpu.get_y();
    if cpu.v[x as usize] == cpu.v[y as usize] {
        cpu.inc_pc();
    }
    cpu.inc_pc();
    proof {
        assert(cpu@ =~= spec_se_vx_vy(old(cpu)@));
    }
}

/// 9xy0 — SNE Vx, Vy: skips the next instruction when the two registers
/// differ.
pub open spec fn spec_sne_vx_vy(c: CpuView) -> CpuView {
    let skip = c.v[spec_x(c.opcode) as int] != c.v[spec_y(c.opcode) as int];
    CpuView { pc: if skip { (c.pc + 4) as usize } else { (c.pc + 2) as usize }, ..c }
}

/// 9xy0 — SNE Vx, Vy; skips the next instruction if Vx != Vy.
pub fn sne_vx_vy(cpu: &mut Cpu)
    requires
        old(cpu).wf(),
        old(cpu).pc + 4 <= usize::MAX,
    ensures
        final(cpu).wf(),
        final(cpu)@ == spec_sne_vx_vy(old(cpu)@),
{
    let x = cpu.get_x();
    let y = cpu.get_y();
    if cpu.v[x as usize] != cpu.v[y as usize] {
        cpu.inc_pc();
    }
    cpu.inc_pc();
    proof {
        assert(cpu@ =~= spec_sne_vx_vy(old(cpu)@));
    }
}

/// 6xkk — LD Vx, kk: loads the immediate into Vx.
pub open spec fn spec_ld_vx_kk(c: CpuView) -> CpuView {
    CpuView {
        v: c.v.update(spec_x(c.opcode) as int, spec_kk(c.opcode)),
        pc: (c.pc + 2) as usize,
        ..c
    }
}

/// 6xkk — LD Vx, kk; sets Vx = kk.
pub fn ld_vx_kk(cpu: &mut Cpu)
    requires
        old(cpu).wf(),
        old(cpu).pc + 2 <= usize::MAX,
    ensures
        final(cpu).wf(),
        final(cpu)@ == spec_ld_vx_kk(old(cpu)@),
{
    let x = cpu.get_x();
    let kk = cpu.get_kk();
    cpu.v[x as usize] = kk;
    cpu.inc_pc();
    proof {
        assert(cpu@ =~= spec_ld_vx_kk(old(cpu)@));
    }
}

/// 7xkk — ADD Vx, kk: adds the immediate into Vx with modulo-256
/// wraparound and no flag side effect.
pub open spec fn spec_add_vx_kk(c: CpuView) -> CpuView {
    let x = spec_x(c.opcode) as int;
    CpuView {
        v: c.v.update(x, wrap_add(c.v[x], spec_kk(c.opcode))),
        pc: (c.pc + 2) as usize,
        ..c
    }
}

/// 7xkk — ADD Vx, kk; sets Vx = Vx + kk, wrapping modulo 256.
pub fn add_vx_kk(cpu: &mut Cpu)
    requires
        old(cpu).wf(),
        old(cpu).pc + 2 <= usize::MAX,
    ensures
        final(cpu).wf(),
        final(cpu)@ == spec_add_vx_kk(old(cpu)@),
{
    let x = cpu.get_x();
    let kk = cpu.get_kk();
    cpu.v[x as usize] = cpu.v[x as usize].wrapping_add(kk);
    cpu.inc_pc();
    proof {
        assert(cpu@ =~= spec_add_vx_kk(old(cpu)@));
    }
}

/// 8xy0 — LD Vx, Vy: copies Vy into Vx.
pub open spec fn spec_ld_vx_vy(c: CpuView) -> CpuView {
    CpuView {
        v: c.v.update(spec_x(c.opcode) as int, c.v[spec_y(c.opcode) as int]),
        pc: (c.pc + 2) as usize,
        ..c
    }
}

/// 8xy0 — LD Vx, Vy; sets Vx = Vy.
pub fn ld_vx_vy(cpu: &mut Cpu)
    requires
        old(cpu).wf(),
        old(cpu).pc + 2 <= usize::MAX,
    ensures
        final(cpu).wf(),
        final(cpu)@ == spec_ld_vx_vy(old(cpu)@),
{
    let x = cpu.get_x();
    let y = cpu.get_y();
    let val = cpu.v[y as usize];
    cpu.v[x as usize] = val;
    cpu.inc_pc();
    proof {
        assert(cpu@ =~= spec_ld_vx_vy(old(cpu)@));
    }
}

/// 8xy1 — OR Vx, Vy: bitwise OR, no flag side effect.
pub open spec fn spec_or_vx_vy(c: CpuView) -> CpuView {
    let x = spec_x(c.opcode) as int;
    let y = spec_y(c.opcode) as int;
    CpuView { v: c.v.update(x, c.v[x] | c.v[y]), pc: (c.pc + 2) as usize, ..c }
}

/// 8xy1 — OR Vx, Vy; sets Vx = Vx | Vy.
pub fn or_vx_vy(cpu: &mut Cpu)
    requires
        old(cpu).wf(),
        old(cpu).pc + 2 <= usize::MAX,
    ensures
        final(cpu).wf(),
        final(cpu)@ == spec_or_vx_vy(old(cpu)@),
{
    let x = cpu.get_x() as usize;
    let y = cpu.get_y() as usize;
    cpu.v[x] = cpu.v[x] | cpu.v[y];
    cpu.inc_pc();
    proof {
        assert(cpu@ =~= spec_or_vx_vy(old(cpu)@));
    }
}

/// 8xy2 — AND Vx, Vy: bitwise AND, no flag side effect.
pub open spec fn spec_and_vx_vy(c: CpuView) -> CpuView {
    let x = spec_x(c.opcode) as int;
    let y = spec_y(c.opcode) as int;
    CpuView { v: c.v.update(x, c.v[x] & c.v[y]), pc: (c.pc + 2) as usize, ..c }
}

/// 8xy2 — AND Vx, Vy; sets Vx = Vx & Vy.
pub fn and_vx_vy(cpu: &mut Cpu)
    requires
        old(cpu).wf(),
        old(cpu).pc + 2 <= usize::MAX,
    ensures
        final(cpu).wf(),
        final(cpu)@ == spec_and_vx_vy(old(cpu)@),
{
    let x = cpu.get_x() as usize;
    let y = cpu.get_y() as usize;
    cpu.v[x] = cpu.v[x] & cpu.v[y];
    cpu.inc_pc();
    proof {
        assert(cpu@ =~= spec_and_vx_vy(old(cpu)@));
    }
}

/// 8xy3 — XOR Vx, Vy: bitwise exclusive OR, no flag side effect.
pub open spec fn spec_xor_vx_vy(c: CpuView) -> CpuView {
    let x = spec_x(c.opcode) as int;
    let y = spec_y(c.opcode) as int;
    CpuView { v: c.v.update(x, c.v[x] ^ c.v[y]), pc: (c.pc + 2) as usize, ..c }
}

/// 8xy3 — XOR Vx, Vy; sets Vx = Vx ^ Vy.
pub fn xor_vx_vy(cpu: &mut Cpu)
    requires
        old(cpu).wf(),
        old(cpu).pc + 2 <= usize::MAX,
    ensures
        final(cpu).wf(),
        final(cpu)@ == spec_xor_vx_vy(old(cpu)@),
{
    let x = cpu.get_x() as usize;
    let y = cpu.get_y() as usize;
    cpu.v[x] = cpu.v[x] ^ cpu.v[y];
    cpu.inc_pc();
    proof {
        assert(cpu@ =~= spec_xor_vx_vy(old(cpu)@));
    }
}

/// 8xy4 — ADD Vx, Vy: Vx takes the sum modulo 256; VF reports the carry,
/// 1 exactly when the 9-bit sum exceeds 255. The flag is written before the
/// sum, so when Vx is VF itself the sum wins.
pub open spec fn spec_add_vx_vy(c: CpuView) -> CpuView {
    let x = spec_x(c.opcode) as int;
    let y = spec_y(c.opcode) as int;
    let carry: u8 = if c.v[x] + c.v[y] > 255 { 1 } else { 0 };
    CpuView {
        v: c.v.update(15, carry).update(x, wrap_add(c.v[x], c.v[y])),
        pc: (c.pc + 2) as usize,
        ..c
    }
}

/// 8xy4 — ADD Vx, Vy; sets Vx = Vx + Vy modulo 256 and VF to the carry.
pub fn add_vx_vy(cpu: &mut Cpu)
    requires
        old(cpu).wf(),
        old(cpu).pc + 2 <= usize::MAX,
    ensures
        final(cpu).wf(),
        final(cpu)@ == spec_add_vx_vy(old(cpu)@),
{
    let x = cpu.get_x() as usize;
    let y = cpu.get_y() as usize;
    let a = cpu.v[x];
    let b = cpu.v[y];
    let sum: u16 = (a as u16) + (b as u16);
    if sum > 0xFF {
        cpu.v[0xF] = 1;
    } else {
        cpu.v[0xF] = 0;
    }
    cpu.v[x] = a.wrapping_add(b);
    cpu.inc_pc();
    proof {
        assert(cpu@ =~= spec_add_vx_vy(old(cpu)@));
    }
}

/// 8xy5 — SUB Vx, Vy: VF becomes 1 exactly when Vx > Vy before the
/// subtraction (a strict no-borrow convention: the equal case leaves VF 0),
/// then Vx takes Vx - Vy modulo 256. The flag is written first, so when Vx
/// or Vy is VF itself the operands are read after that write.
pub open spec fn spec_sub_vx_vy(c: CpuView) -> CpuView {
    let x = spec_x(c.opcode) as int;
    let y = spec_y(c.opcode) as int;
    let no_borrow: u8 = if c.v[x] > c.v[y] { 1 } else { 0 };
    let v1 = c.v.update(15, no_borrow);
    CpuView { v: v1.update(x, wrap_sub(v1[x], v1[y])), pc: (c.pc + 2) as usize, ..c }
}

/// 8xy5 — SUB Vx, Vy; sets Vx = Vx - Vy modulo 256 and VF to the no-borrow
/// flag.
pub fn sub_vx_vy(cpu: &mut Cpu)
    requires
        old(cpu).wf(),
        old(cpu).pc + 2 <= usize::MAX,
    ensures
        final(cpu).wf(),
        final(cpu)@ == spec_sub_vx_vy(old(cpu)@),
{
    let x = cpu.get_x() as usize;
    let y = cpu.get_y() as usize;
    if cpu.v[x] > cpu.v[y] {
        cpu.v[0xF] = 1;
    } else {
        cpu.v[0xF] = 0;
    }
    cpu.v[x] = cpu.v[x].wrapping_sub(cpu.v[y]);
    cpu.inc_pc();
    proof {
        assert(cpu@ =~= spec_sub_vx_vy(old(cpu)@));
    }
}

/// 8xy6 — SHR Vx: VF takes the bit shifted out (the least-significant bit
/// before the shift), then Vx is shifted right by one. The flag is written
/// first, so when Vx is VF itself the shift reads the flag value.
pub open spec fn spec_shr_vx_vy(c: CpuView) -> CpuView {
    let x = spec_x(c.opcode) as int;
    let v1 = c.v.update(15, c.v[x] & 1);
    CpuView { v: v1.update(x, v1[x] >> 1), pc: (c.pc + 2) as usize, ..c }
}

/// 8xy6 — SHR Vx; sets VF to the low bit of Vx, then Vx = Vx >> 1.
pub fn shr_vx_vy(cpu: &mut Cpu)
    requires
        old(cpu).wf(),
        old(cpu).pc + 2 <= usize::MAX,
    ensures
        final(cpu).wf(),
        final(cpu)@ == spec_shr_vx_vy(old(cpu)@),
{
    let x = cpu.get_x() as usize;
    cpu.v[0xF] = cpu.v[x] & 1;
    cpu.v[x] = cpu.v[x] >> 1;
    cpu.inc_pc();
    proof {
        assert(cpu@ =~= spec_shr_vx_vy(old(cpu)@));
    }
}

/// 8xy7 — SUBN Vx, Vy: VF becomes 1 exactly when Vy > Vx before the
/// subtraction (the same strict convention as SUB with the operands
/// swapped), then Vx takes Vy - Vx modulo 256. The flag is written first,
/// so when Vx or Vy is VF itself the operands are read after that write.
pub open spec fn spec_subn_vx_vy(c: CpuView) -> CpuView {
    let x = spec_x(c.opcode) as int;
    let y = spec_y(c.opcode) as int;
    let no_borrow: u8 = if c.v[y] > c.v[x] { 1 } else { 0 };
    let v1 = c.v.update(15, no_borrow);
    CpuView { v: v1.update(x, wrap_sub(v1[y], v1[x])), pc: (c.pc + 2) as usize, ..c }
}

/// 8xy7 — SUBN Vx, Vy; sets Vx = Vy - Vx modulo 256 and VF to the
/// no-borrow flag.
pub fn subn_vx_vy(cpu: &mut Cpu)
    requires
        old(cpu).wf(),
        old(cpu).pc + 2 <= usize::MAX,
    ensures
        final(cpu).wf(),
        final(cpu)@ == spec_subn_vx_vy(old(cpu)@),
{
    let x = cpu.get_x() as usize;
    let y = cpu.get_y() as usize;
    if cpu.v[y] > cpu.v[x] {
        cpu.v[0xF] = 1;
    } else {
        cpu.v[0xF] = 0;
    }
    cpu.v[x] = cpu.v[y].wrapping_sub(cpu.v[x]);
    cpu.inc_pc();
    proof {
        assert(cpu@ =~= spec_subn_vx_vy(old(cpu)@));
    }
}

/// 8xyE — SHL Vx: VF takes the bit shifted out (the most-significant bit
/// before the shift), then Vx is shifted left by one, truncated to 8 bits.
/// The flag is written first, so when Vx is VF itself the shift reads the
/// flag value.
pub open spec fn spec_shl_vx_vy(c: CpuView) -> CpuView {
    let x = spec_x(c.opcode) as int;
    let v1 = c.v.update(15, c.v[x] >> 7);
    CpuView { v: v1.update(x, v1[x] << 1), pc: (c.pc + 2) as usize, ..c }
}

/// 8xyE — SHL Vx; sets VF to the high bit of Vx, then Vx = Vx << 1.
pub fn shl_vx_vy(cpu: &mut Cpu)
    requires
        old(cpu).wf(),
        old(cpu).pc + 2 <= usize::MAX,
    ensures
        final(cpu).wf(),
        final(cpu)@ == spec_shl_vx_vy(old(cpu)@),
{
    let x = cpu.get_x() as usize;
    cpu.v[0xF] = cpu.v[x] >> 7;
    cpu.v[x] = cpu.v[x] << 1;
    cpu.inc_pc();
    proof {
        assert(cpu@ =~= spec_shl_vx_vy(old(cpu)@));
    }
}

/// Annn — LD I, nnn: the index register takes the 12-bit address operand.
pub open spec fn spec_ld_i_nnn(c: CpuView) -> CpuView {
    CpuView { i: spec_nnn(c.opcode), pc: (c.pc + 2) as usize, ..c }
}

/// Annn — LD I, nnn; sets I = nnn.
pub fn ld_i_nnn(cpu: &mut Cpu)
    requires
        old(cpu).wf(),
        old(cpu).pc + 2 <= usize::MAX,
    ensures
        final(cpu).wf(),
        final(cpu)@ == spec_ld_i_nnn(old(cpu)@),
{
    cpu.i = cpu.get_nnn();
    cpu.inc_pc();
    proof {
        assert(cpu@ =~= spec_ld_i_nnn(old(cpu)@));
    }
}

/// Bnnn — JP V0, nnn: the program counter becomes the 12-bit address
/// operand plus V0, with no further advance. A target past the end of
/// memory is reported by the following fetch.
pub open spec fn spec_jp_v0_nnn(c: CpuView) -> CpuView {
    CpuView { pc: (spec_nnn(c.opcode) + c.v[0]) as usize, ..c }
}

/// Bnnn — JP V0, nnn; jumps to location nnn + V0.
pub fn jp_v0_nnn(cpu: &mut Cpu)
    requires
        old(cpu).wf(),
    ensures
        final(cpu).wf(),
        final(cpu)@ == spec_jp_v0_nnn(old(cpu)@),
{
    let nnn = cpu.get_nnn();
    cpu.pc = nnn as usize + cpu.v[0] as usize;
    proof {
        assert(cpu@ =~= spec_jp_v0_nnn(old(cpu)@));
    }
}

/// Fx07 — LD Vx, DT: Vx takes the delay timer.
pub open spec fn spec_ld_vx_dt(c: CpuView) -> CpuView {
    CpuView {
        v: c.v.update(spec_x(c.opcode) as int, c.delay_timer),
        pc: (c.pc + 2) as usize,
        ..c
    }
}

/// Fx07 — LD Vx, DT; sets Vx = delay timer.
pub fn ld_vx_dt(cpu: &mut Cpu)
    requires
        old(cpu).wf(),
        old(cpu).pc + 2 <= usize::MAX,
    ensures
        final(cpu).wf(),
        final(cpu)@ == spec_ld_vx_dt(old(cpu)@),
{
    let x = cpu.get_x();
    cpu.v[x as usize] = cpu.delay_timer;
    cpu.inc_pc();
    proof {
        assert(cpu@ =~= spec_ld_vx_dt(old(cpu)@));
    }
}

/// Fx15 — LD DT, Vx: the delay timer takes Vx.
pub open spec fn spec_ld_dt_vx(c: CpuView) -> CpuView {
    CpuView { delay_timer: c.v[spec_x(c.opcode) as int], pc: (c.pc + 2) as usize, ..c }
}

/// Fx15 — LD DT, Vx; sets delay timer = Vx.
pub fn ld_dt_vx(cpu: &mut Cpu)
    requires
        old(cpu).wf(),
        old(cpu).pc + 2 <= usize::MAX,
    ensures
        final(cpu).wf(),
        final(cpu)@ == spec_ld_dt_vx(old(cpu)@),
{
    let x = cpu.get_x();
    cpu.delay_timer = cpu.v[x as usize];
    cpu.inc_pc();
    proof {
        assert(cpu@ =~= spec_ld_dt_vx(old(cpu)@));
    }
}

/// Fx18 — LD ST, Vx: the sound timer takes Vx.
pub open spec fn spec_ld_st_vx(c: CpuView) -> CpuView {
    CpuView { sound_timer: c.v[spec_x(c.opcode) as int], pc: (c.pc + 2) as usize, ..c }
}

/// Fx18 — LD ST, Vx; sets sound timer = Vx.
pub fn ld_st_vx(cpu: &mut Cpu)
    requires
        old(cpu).wf(),
        old(cpu).pc + 2 <= usize::MAX,
    ensures
        final(cpu).wf(),
        final(cpu)@ == spec_ld_st_vx(old(cpu)@),
{
    let x = cpu.get_x();
    cpu.sound_timer = cpu.v[x as usize];
    cpu.inc_pc();
    proof {
        assert(cpu@ =~= spec_ld_st_vx(old(cpu)@));
    }
}

/// Fx1E — ADD I, Vx: adds Vx into the index register, or reports
/// `AddressOutOfRange` when the sum would leave the 4096-cell memory. No
/// flag is defined for this operation.
pub open spec fn spec_add_i_vx(c: CpuView) -> (CpuView, Result<(), Chip8Error>) {
    let target = c.i + c.v[spec_x(c.opcode) as int];
    if target > 4095 {
        (c, Err(Chip8Error::AddressOutOfRange))
    } else {
        (CpuView { i: target as u16, pc: (c.pc + 2) as usize, ..c }, Ok(()))
    }
}

/// Fx1E — ADD I, Vx; sets I = I + Vx after validating the sum against the
/// memory size.
pub fn add_i_vx(cpu: &mut Cpu) -> (r: Result<(), Chip8Error>)
    requires
        old(cpu).wf(),
        old(cpu).pc + 2 <= usize::MAX,
    ensures
        final(cpu).wf(),
        final(cpu)@ == spec_add_i_vx(old(cpu)@).0,
        r == spec_add_i_vx(old(cpu)@).1,
{
    let x = cpu.get_x();
    let target: u16 = cpu.i + (cpu.v[x as usize] as u16);
    if target > 4095 {
        return Err(Chip8Error::AddressOutOfRange);
    }
    cpu.i = target;
    cpu.inc_pc();
    proof {
        assert(cpu@ =~= spec_add_i_vx(old(cpu)@).0);
    }
    Ok(())
}

/// Fx29 — LD F, Vx: the index register takes the address of the built-in
/// glyph for the low nibble of Vx; each glyph is 5 bytes, so the base
/// address is that value times 5, inside the glyph table.
pub open spec fn spec_ld_f_vx(c: CpuView) -> CpuView {
    CpuView {
        i: ((c.v[spec_x(c.opcode) as int] & 0x0F) * 5) as u16,
        pc: (c.pc + 2) as usize,
        ..c
    }
}

/// Fx29 — LD F, Vx; sets I to the glyph address for the low nibble of Vx.
pub fn ld_f_vx(cpu: &mut Cpu)
    requires
        old(cpu).wf(),
        old(cpu).pc + 2 <= usize::MAX,
    ensures
        final(cpu).wf(),
        final(cpu)@ == spec_ld_f_vx(old(cpu)@),
{
    let x = cpu.get_x();
    let vx = cpu.v[x as usize];
    let low: u8 = vx & 0x0F;
    proof {
        assert(vx & 0x0F < 16) by (bit_vector);
    }
    cpu.i = (low * 5) as u16;
    cpu.inc_pc();
    proof {
        assert(cpu@ =~= spec_ld_f_vx(old(cpu)@));
    }
}

/// Fx33 — LD B, Vx: stores the decimal hundreds, tens and units digits of
/// Vx at I, I+1 and I+2, or reports `AddressOutOfRange` when those three
/// cells do not fit in memory.
pub open spec fn spec_ld_b_vx(c: CpuView) -> (CpuView, Result<(), Chip8Error>) {
    if c.i + 2 > 4095 {
        (c, Err(Chip8Error::AddressOutOfRange))
    } else {
        let vx = c.v[spec_x(c.opcode) as int];
        let mem = c.memory.update(c.i as int, (vx / 100) as u8).update(
            c.i + 1,
            ((vx / 10) % 10) as u8,
        ).update(c.i + 2, (vx % 10) as u8);
        (CpuView { memory: mem, pc: (c.pc + 2) as usize, ..c }, Ok(()))
    }
}

/// Fx33 — LD B, Vx; stores the binary-coded-decimal digits of Vx at I,
/// I+1 and I+2.
pub fn ld_b_vx(cpu: &mut Cpu) -> (r: Result<(), Chip8Error>)
    requires
        old(cpu).wf(),
        old(cpu).pc + 2 <= usize::MAX,
    ensures
        final(cpu).wf(),
        final(cpu)@ == spec_ld_b_vx(old(cpu)@).0,
        r == spec_ld_b_vx(old(cpu)@).1,
{
    let i = cpu.i as usize;
    if i + 2 > 4095 {
        return Err(Chip8Error::AddressOutOfRange);
    }
    let x = cpu.get_x();
    let vx = cpu.v[x as usize];
    cpu.memory[i] = vx / 100;
    cpu.memory[i + 1] = (vx / 10) % 10;
    cpu.memory[i + 2] = (vx % 100) % 10;
    cpu.inc_pc();
    proof {
        assert(cpu@ =~= spec_ld_b_vx(old(cpu)@).0);
    }
    Ok(())
}

/// Ex9E — SKP Vx: skips the next instruction when the key indexed by Vx is
/// pressed, or reports `AddressOutOfRange` when Vx is not a key index.
pub open spec fn spec_skp_vx(c: CpuView) -> (CpuView, Result<(), Chip8Error>) {
    let key = c.v[spec_x(c.opcode) as int];
    if key >= 16 {
        (c, Err(Chip8Error::AddressOutOfRange))
    } else {
        let skip = c.keys[key as int];
        (CpuView { pc: if skip { (c.pc + 4) as usize } else { (c.pc + 2) as usize }, ..c }, Ok(()))
    }
}

/// Ex9E — SKP Vx; skips the next instruction if the key Vx is pressed.
pub fn skp_vx(cpu: &mut Cpu) -> (r: Result<(), Chip8Error>)
    requires
        old(cpu).wf(),
        old(cpu).pc + 4 <= usize::MAX,
    ensures
        final(cpu).wf(),
        final(cpu)@ == spec_skp_vx(old(cpu)@).0,
        r == spec_skp_vx(old(cpu)@).1,
{
    let x = cpu.get_x();
    let key = cpu.v[x as usize];
    if key >= 16 {
        return Err(Chip8Error::AddressOutOfRange);
    }
    if cpu.keys[key as usize] {
        cpu.inc_pc();
    }
    cpu.inc_pc();
    proof {
        assert(cpu@ =~= spec_skp_vx(old(cpu)@).0);
    }
    Ok(())
}

/// ExA1 — SKNP Vx: skips the next instruction when the key indexed by Vx is
/// not pressed, or reports `AddressOutOfRange` when Vx is not a key index.
pub open spec fn spec_sknp_vx(c: CpuView) -> (CpuView, Result<(), Chip8Error>) {
    let key = c.v[spec_x(c.opcode) as int];
    if key >= 16 {
        (c, Err(Chip8Error::AddressOutOfRange))
    } else {
        let skip = !c.keys[key as int];
        (CpuView { pc: if skip { (c.pc + 4) as usize } else { (c.pc + 2) as usize }, ..c }, Ok(()))
    }
}

/// ExA1 — SKNP Vx; skips the next instruction if the key Vx is not pressed.
pub fn sknp_vx(cpu: &mut Cpu) -> (r: Result<(), Chip8Error>)
    requires
        old(cpu).wf(),
        old(cpu).pc + 4 <= usize::MAX,
    ensures
        final(cpu).wf(),
        final(cpu)@ == spec_sknp_vx(old(cpu)@).0,
        r == spec_sknp_vx(old(cpu)@).1,
{
    let x = cpu.get_x();
    let key = cpu.v[x as usize];
    if key >= 16 {
        return Err(Chip8Error::AddressOutOfRange);
    }
    if !cpu.keys[key as usize] {
        cpu.inc_pc();
    }
    cpu.inc_pc();
    proof {
        assert(cpu@ =~= spec_sknp_vx(old(cpu)@).0);
    }
    Ok(())
}

/// The lowest pressed key index at or above `k`, scanning 0 through 15 in
/// order; 16 when none is pressed.
pub open spec fn first_pressed(keys: Seq<bool>, k: int) -> int
    decreases 16 - k,
{
    if k < 0 || k >= 16 {
        16
    } else if keys[k] {
        k
    } else {
        first_pressed(keys, k + 1)
    }
}

/// Fx0A — LD Vx, K: a cooperative key wait. With no key pressed the state is
/// left entirely unchanged, so the instruction repeats on the next cycle;
/// once a key is pressed, the lowest pressed key index is stored in Vx and
/// the program counter advances by 2 exactly once.
pub open spec fn spec_ld_vx_k(c: CpuView) -> CpuView {
    let first = first_pressed(c.keys, 0);
    if first == 16 {
        c
    } else {
        CpuView {
            v: c.v.update(spec_x(c.opcode) as int, first as u8),
            pc: (c.pc + 2) as usize,
            ..c
        }
    }
}

/// Fx0A — LD Vx, K; waits for a key press by repeating until one arrives.
pub fn ld_vx_k(cpu: &mut Cpu)
    requires
        old(cpu).wf(),
        old(cpu).pc + 2 <= usize::MAX,
    ensures
        final(cpu).wf(),
        final(cpu)@ == spec_ld_vx_k(old(cpu)@),
{
    let x = cpu.get_x();
    let mut k: usize = 0;
    while k < 16
        invariant
            k <= 16,
            x == spec_x(old(cpu)@.opcode),
            x < 16,
            old(cpu).wf(),
            old(cpu).pc + 2 <= usize::MAX,
            cpu@ == old(cpu)@,
            first_pressed(old(cpu)@.keys, 0) == first_pressed(old(cpu)@.keys, k as int),
        decreases 16 - k,
    {
        if cpu.keys[k] {
            cpu.v[x as usize] = k as u8;
            cpu.inc_pc();
            proof {
                assert(first_pressed(old(cpu)@.keys, k as int) == k);
                assert(cpu@ =~= spec_ld_vx_k(old(cpu)@));
            }
            return;
        }
        k += 1;
    }
    proof {
        assert(first_pressed(old(cpu)@.keys, 16) == 16);
        assert(cpu@ =~= spec_ld_vx_k(old(cpu)@));
    }
}

/// Cxkk — RND Vx, kk applied to a drawn byte `rn`: Vx takes `rn` masked by
/// the immediate.
pub open spec fn spec_rnd_vx_kk(c: CpuView, rn: u8) -> CpuView {
    CpuView {
        v: c.v.update(spec_x(c.opcode) as int, rn & spec_kk(c.opcode)),
        pc: (c.pc + 2) as usize,
        ..c
    }
}

/// Relies on rand::thread_rng and rand::Rng::gen to draw one byte. The value
/// depends on the generator's state, so nothing is promised of it.
#[verifier::external_body]
fn random_byte() -> u8 {
    rand::Rng::gen(&mut rand::thread_rng())
}

/// Cxkk — RND Vx, kk with the drawn byte handed in: sets Vx = rn & kk. The
/// masking semantics are checked here for every possible byte.
pub fn rnd_vx_kk_with(cpu: &mut Cpu, rn: u8)
    requires
        old(cpu).wf(),
        old(cpu).pc + 2 <= usize::MAX,
    ensures
        final(cpu).wf(),
        final(cpu)@ == spec_rnd_vx_kk(old(cpu)@, rn),
{
    let x = cpu.get_x();
    let kk = cpu.get_kk();
    cpu.v[x as usize] = rn & kk;
    cpu.inc_pc();
    proof {
        assert(cpu@ =~= spec_rnd_vx_kk(old(cpu)@, rn));
    }
}

/// Cxkk — RND Vx, kk; sets Vx to a random byte masked by the immediate.
/// Whatever byte the generator returns, the new state is the masking
/// transition applied to it.
pub fn rnd_vx_kk(cpu: &mut Cpu)
    requires
        old(cpu).wf(),
        old(cpu).pc + 2 <= usize::MAX,
    ensures
        final(cpu).wf(),
        exists|rn: u8| final(cpu)@ == #[trigger] spec_rnd_vx_kk(old(cpu)@, rn),
{
    let rn = random_byte();
    rnd_vx_kk_with(cpu, rn);
    proof {
        assert(cpu@ == spec_rnd_vx_kk(old(cpu)@, rn));
    }
}

/// Fx55 — LD [I], Vx: copies registers V0 through Vx inclusive into memory
/// starting at I, or reports `AddressOutOfRange` when the block does not
/// fit in memory.
pub open spec fn spec_ld_i_vx(c: CpuView) -> (CpuView, Result<(), Chip8Error>) {
    let x = spec_x(c.opcode) as int;
    if c.i + x > 4095 {
        (c, Err(Chip8Error::AddressOutOfRange))
    } else {
        let mem = Seq::new(
            4096,
            |j: int| if c.i <= j <= c.i + x { c.v[j - c.i] } else { c.memory[j] },
        );
        (CpuView { memory: mem, pc: (c.pc + 2) as usize, ..c }, Ok(()))
    }
}

/// Fx55 — LD [I], Vx; stores V0 through Vx in memory starting at I.
pub fn ld_i_vx(cpu: &mut Cpu) -> (r: Result<(), Chip8Error>)
    requires
        old(cpu).wf(),
        old(cpu).pc + 2 <= usize::MAX,
    ensures
        final(cpu).wf(),
        final(cpu)@ == spec_ld_i_vx(old(cpu)@).0,
        r == spec_ld_i_vx(old(cpu)@).1,
{
    let x = cpu.get_x() as usize;
    let i = cpu.i as usize;
    if i + x > 4095 {
        return Err(Chip8Error::AddressOutOfRange);
    }
    let mut k: usize = 0;
    while k <= x
        invariant
            k <= x + 1,
            x < 16,
            i == old(cpu)@.i,
            i + x <= 4095,
            x == spec_x(old(cpu)@.opcode),
            old(cpu).wf(),
            old(cpu).pc + 2 <= usize::MAX,
            cpu@ == (CpuView { memory: cpu@.memory, ..old(cpu)@ }),
            cpu@.memory.len() == 4096,
            forall|j: int| i <= j < i + k ==> cpu@.memory[j] == old(cpu)@.v[j - i],
            forall|j: int|
                0 <= j < 4096 && !(i <= j < i + k) ==> cpu@.memory[j] == old(cpu)@.memory[j],
        decreases x + 1 - k,
    {
        cpu.memory[i + k] = cpu.v[k];
        k += 1;
    }
    cpu.inc_pc();
    proof {
        assert(cpu@.memory =~= spec_ld_i_vx(old(cpu)@).0.memory);
        assert(cpu@ =~= spec_ld_i_vx(old(cpu)@).0);
    }
    Ok(())
}

/// Fx65 — LD Vx, [I]: loads registers V0 through Vx inclusive from memory
/// starting at I, or reports `AddressOutOfRange` when the block does not
/// fit in memory.
pub open spec fn spec_ld_vx_i(c: CpuView) -> (CpuView, Result<(), Chip8Error>) {
    let x = spec_x(c.opcode) as int;
    if c.i + x > 4095 {
        (c, Err(Chip8Error::AddressOutOfRange))
    } else {
        let regs = Seq::new(
            16,
            |j: int| if 0 <= j <= x { c.memory[c.i + j] } else { c.v[j] },
        );
        (CpuView { v: regs, pc: (c.pc + 2) as usize, ..c }, Ok(()))
    }
}

/// Fx65 — LD Vx, [I]; reads V0 through Vx from memory starting at I.
pub fn ld_vx_i(cpu: &mut Cpu) -> (r: Result<(), Chip8Error>)
    requires
        old(cpu).wf(),
        old(cpu).pc + 2 <= usize::MAX,
    ensures
        final(cpu).wf(),
        final(cpu)@ == spec_ld_vx_i(old(cpu)@).0,
        r == spec_ld_vx_i(old(cpu)@).1,
{
    let x = cpu.get_x() as usize;
    let i = cpu.i as usize;
    if i + x > 4095 {
        return Err(Chip8Error::AddressOutOfRange);
    }
    let mut k: usize = 0;
    while k <= x
        invariant
            k <= x + 1,
            x < 16,
            i == old(cpu)@.i,
            i + x <= 4095,
            x == spec_x(old(cpu)@.opcode),
            old(cpu).wf(),
            old(cpu).pc + 2 <= usize::MAX,
            cpu@ == (CpuView { v: cpu@.v, ..old(cpu)@ }),
            cpu@.v.len() == 16,
            forall|j: int| 0 <= j < k ==> cpu@.v[j] == old(cpu)@.memory[i + j],
            forall|j: int| k <= j < 16 ==> cpu@.v[j] == old(cpu)@.v[j],
        decreases x + 1 - k,
    {
        cpu.v[k] = cpu.memory[i + k];
        k += 1;
    }
    cpu.inc_pc();
    proof {
        assert(cpu@.v =~= spec_ld_vx_i(old(cpu)@).0.v);
        assert(cpu@ =~= spec_ld_vx_i(old(cpu)@).0);
    }
    Ok(())
}

/// The sprite row that lands on framebuffer row `cy` when the sprite is
/// drawn at vertical position `vy`: rows wrap modulo 32.
pub open spec fn row_of(vy: int, cy: int) -> int {
    (cy - vy) % 32
}

/// The sprite column (bit index) that lands on framebuffer column `cx` when
/// the sprite is drawn at horizontal position `vx`: columns wrap modulo 64.
pub open spec fn col_of(vx: int, cx: int) -> int {
    (cx - vx) % 64
}

/// Bit `b` (0 is the most significant) of sprite row `r`, read from memory
/// at base address `i`.
pub open spec fn sprite_bit(mem: Seq<u8>, i: int, r: int, b: int) -> bool {
    (mem[i + r] >> ((7 - b) as u8)) & 1 == 1
}

/// Whether framebuffer cell `t` is covered by an `n`-row sprite drawn at
/// (`vx`, `vy`): its row maps to a sprite row below `n` and its column to
/// one of the 8 sprite bits.
pub open spec fn cell_hit(vx: int, vy: int, n: int, t: int) -> bool {
    row_of(vy, t / 64) < n && col_of(vx, t % 64) < 8
}

/// The sprite bit that covers framebuffer cell `t`.
pub open spec fn cell_bit(mem: Seq<u8>, i: int, vx: int, vy: int, t: int) -> bool {
    sprite_bit(mem, i, row_of(vy, t / 64), col_of(vx, t % 64))
}

/// Whether an `n`-row sprite drawn at (`vx`, `vy`) unsets some previously
/// set pixel: a set sprite bit lands on a set framebuffer cell.
pub open spec fn draw_collision(c: CpuView, vx: int, vy: int, n: int) -> bool {
    exists|t: int|
        0 <= t < 2048 && #[trigger] cell_hit(vx, vy, n, t) && cell_bit(
            c.memory,
            c.i as int,
            vx,
            vy,
            t,
        ) && c.pixels[t]
}

/// Whether framebuffer cell `t` has already been processed once the draw
/// loop has fully drawn rows `0..r` and bits `0..b` of row `r`.
pub open spec fn cell_done(vx: int, vy: int, r: int, b: int, t: int) -> bool {
    let ro = row_of(vy, t / 64);
    let co = col_of(vx, t % 64);
    co < 8 && (ro < r || (ro == r && co < b))
}

/// Dxyn — DRW Vx, Vy, n: XORs an n-row sprite read from memory at I onto
/// the framebuffer at (Vx, Vy), wrapping columns modulo 64 and rows modulo
/// 32; VF reports whether any previously set pixel was unset. Reports
/// `AddressOutOfRange` when the sprite rows do not fit in memory.
pub open spec fn spec_drw_vx_vy_n(c: CpuView) -> (CpuView, Result<(), Chip8Error>) {
    let vx = c.v[spec_x(c.opcode) as int] as int;
    let vy = c.v[spec_y(c.opcode) as int] as int;
    let n = spec_n(c.opcode) as int;
    if c.i + n > 4096 {
        (c, Err(Chip8Error::AddressOutOfRange))
    } else {
        let pixels = Seq::new(
            2048,
            |t: int|
                if cell_hit(vx, vy, n, t) {
                    c.pixels[t] != cell_bit(c.memory, c.i as int, vx, vy, t)
                } else {
                    c.pixels[t]
                },
        );
        let vf: u8 = if draw_collision(c, vx, vy, n) { 1 } else { 0 };
        (
            CpuView { pixels: pixels, v: c.v.update(15, vf), pc: (c.pc + 2) as usize, ..c },
            Ok(()),
        )
    }
}

/// A framebuffer index decomposes into its row and column.
pub proof fn lemma_cell_coords(t: int)
    requires
        0 <= t < 2048,
    ensures
        0 <= t / 64 < 32,
        0 <= t % 64 < 64,
        t == (t / 64) * 64 + (t % 64),
{
    vstd::arithmetic::div_mod::lemma_fundamental_div_mod(t, 64);
    vstd::arithmetic::div_mod::lemma_mod_division_less_than_divisor(t, 64);
}

/// A row and a column in range determine their framebuffer index and are
/// recovered from it.
pub proof fn lemma_pixel_compose(cy: int, cx: int)
    requires
        0 <= cy < 32,
        0 <= cx < 64,
    ensures
        0 <= cy * 64 + cx < 2048,
        (cy * 64 + cx) / 64 == cy,
        (cy * 64 + cx) % 64 == cx,
{
    vstd::arithmetic::div_mod::lemma_fundamental_div_mod_converse(cy * 64 + cx, 64, cy, cx);
}

/// Drawing sprite row `k` at vertical position `vy` lands on framebuffer
/// row `(vy + k) % 32`, and that row maps back to sprite row `k`.
pub proof fn lemma_wrap_row(vy: int, k: int)
    requires
        0 <= vy,
        0 <= k < 32,
    ensures
        row_of(vy, (vy + k) % 32) == k,
{
    let s = (vy + k) % 32;
    let q = (vy + k) / 32;
    vstd::arithmetic::div_mod::lemma_fundamental_div_mod(vy + k, 32);
    assert(s - vy == 32 * (-q) + k);
    vstd::arithmetic::div_mod::lemma_mod_multiples_vanish(-q, k, 32);
    vstd::arithmetic::div_mod::lemma_small_mod(k as nat, 32);
}

/// Drawing sprite bit `k` at horizontal position `vx` lands on framebuffer
/// column `(vx + k) % 64`, and that column maps back to sprite bit `k`.
pub proof fn lemma_wrap_col(vx: int, k: int)
    requires
        0 <= vx,
        0 <= k < 64,
    ensures
        col_of(vx, (vx + k) % 64) == k,
{
    let s = (vx + k) % 64;
    let q = (vx + k) / 64;
    vstd::arithmetic::div_mod::lemma_fundamental_div_mod(vx + k, 64);
    assert(s - vx == 64 * (-q) + k);
    vstd::arithmetic::div_mod::lemma_mod_multiples_vanish(-q, k, 64);
    vstd::arithmetic::div_mod::lemma_small_mod(k as nat, 64);
}

/// A framebuffer row that maps to sprite row `k` is the row the sprite's
/// row `k` lands on: the landing row is unique.
proof fn lemma_unique_row(vy: int, k: int, cy: int)
    requires
        0 <= vy,
        0 <= k < 32,
        0 <= cy < 32,
        row_of(vy, cy) == k,
    ensures
        cy == (vy + k) % 32,
{
    vstd::arithmetic::div_mod::lemma_add_mod_noop_right(vy, cy - vy, 32);
    vstd::arithmetic::div_mod::lemma_small_mod(cy as nat, 32);
}

/// A framebuffer column that maps to sprite bit `k` is the column the
/// sprite's bit `k` lands on: the landing column is unique.
proof fn lemma_unique_col(vx: int, k: int, cx: int)
    requires
        0 <= vx,
        0 <= k < 64,
        0 <= cx < 64,
        col_of(vx, cx) == k,
    ensures
        cx == (vx + k) % 64,
{
    vstd::arithmetic::div_mod::lemma_add_mod_noop_right(vx, cx - vx, 64);
    vstd::arithmetic::div_mod::lemma_small_mod(cx as nat, 64);
}

/// One cell of the draw loop: drawing sprite row `r`, bit `b` lands on a
/// unique framebuffer cell `tw`, and the cells done afterwards are exactly
/// the cells done before plus `tw`.
proof fn lemma_done_step(vx: int, vy: int, r: int, b: int, tw: int)
    requires
        0 <= vx,
        0 <= vy,
        0 <= r < 32,
        0 <= b < 8,
        tw == ((vy + r) % 32) * 64 + ((vx + b) % 64),
    ensures
        0 <= tw < 2048,
        row_of(vy, tw / 64) == r,
        col_of(vx, tw % 64) == b,
        !cell_done(vx, vy, r, b, tw),
        forall|t2: int|
            0 <= t2 < 2048 ==> ((#[trigger] cell_done(vx, vy, r, b + 1, t2)) == (cell_done(
                vx,
                vy,
                r,
                b,
                t2,
            ) || t2 == tw)),
{
    let cy = (vy + r) % 32;
    let cx = (vx + b) % 64;
    vstd::arithmetic::div_mod::lemma_mod_division_less_than_divisor(vy + r, 32);
    vstd::arithmetic::div_mod::lemma_mod_division_less_than_divisor(vx + b, 64);
    lemma_pixel_compose(cy, cx);
    lemma_wrap_row(vy, r);
    lemma_wrap_col(vx, b);
    assert forall|t2: int| 0 <= t2 < 2048 implies ((#[trigger] cell_done(vx, vy, r, b + 1, t2))
        == (cell_done(vx, vy, r, b, t2) || t2 == tw)) by {
        lemma_cell_coords(t2);
        vstd::arithmetic::div_mod::lemma_mod_division_less_than_divisor(t2 / 64 - vy, 32);
        vstd::arithmetic::div_mod::lemma_mod_division_less_than_divisor(t2 % 64 - vx, 64);
        if cell_done(vx, vy, r, b + 1, t2) && !cell_done(vx, vy, r, b, t2) {
            assert(row_of(vy, t2 / 64) == r && col_of(vx, t2 % 64) == b);
            lemma_unique_row(vy, r, t2 / 64);
            lemma_unique_col(vx, b, t2 % 64);
            assert(t2 == tw);
        }
    }
}

/// Dxyn — DRW Vx, Vy, n; draws an n-byte sprite from memory address I at
/// (Vx, Vy) and sets VF to the collision flag.
#[verifier::rlimit(100)]
#[verifier::spinoff_prover]
pub fn drw_vx_vy_n(cpu: &mut Cpu) -> (r: Result<(), Chip8Error>)
    requires
        old(cpu).wf(),
        old(cpu).pc + 2 <= usize::MAX,
    ensures
        final(cpu).wf(),
        final(cpu)@ == spec_drw_vx_vy_n(old(cpu)@).0,
        r == spec_drw_vx_vy_n(old(cpu)@).1,
{
    let x = cpu.get_x();
    let y = cpu.get_y();
    let n = cpu.get_n() as usize;
    let i = cpu.i as usize;
    if i + n > 4096 {
        return Err(Chip8Error::AddressOutOfRange);
    }
    let vx = cpu.v[x as usize] as usize;
    let vy = cpu.v[y as usize] as usize;
    let mut collision: bool = false;
    proof {
        assert forall|t: int| 0 <= t < 2048 implies !(#[trigger] cell_done(
            vx as int,
            vy as int,
            0,
            0,
            t,
        )) by {
            vstd::arithmetic::div_mod::lemma_mod_division_less_than_divisor(
                t / 64 - vy as int,
                32,
            );
            vstd::arithmetic::div_mod::lemma_mod_division_less_than_divisor(
                t % 64 - vx as int,
                64,
            );
        }
    }
    let mut row: usize = 0;
    while row < n
        invariant
            row <= n,
            n < 16,
            i + n <= 4096,
            i == old(cpu)@.i,
            n == spec_n(old(cpu)@.opcode),
            vx == old(cpu)@.v[spec_x(old(cpu)@.opcode) as int],
            vy == old(cpu)@.v[spec_y(old(cpu)@.opcode) as int],
            old(cpu).wf(),
            old(cpu).pc + 2 <= usize::MAX,
            cpu@ == (CpuView { pixels: cpu@.pixels, ..old(cpu)@ }),
            cpu@.pixels.len() == 2048,
            forall|t: int|
                0 <= t < 2048 && #[trigger] cell_done(vx as int, vy as int, row as int, 0, t)
                    ==> cpu@.pixels[t] == (old(cpu)@.pixels[t] != cell_bit(
                    old(cpu)@.memory,
                    i as int,
                    vx as int,
                    vy as int,
                    t,
                )),
            forall|t: int|
                0 <= t < 2048 && !(#[trigger] cell_done(vx as int, vy as int, row as int, 0, t))
                    ==> cpu@.pixels[t] == old(cpu)@.pixels[t],
            collision <==> (exists|t: int|
                0 <= t < 2048 && #[trigger] cell_done(vx as int, vy as int, row as int, 0, t)
                    && cell_bit(old(cpu)@.memory, i as int, vx as int, vy as int, t)
                    && old(cpu)@.pixels[t]),
        decreases n - row,
    {
        let sprite = cpu.memory[i + row];
        let cy = (vy + row) % 32;
        let mut b: usize = 0;
        while b < 8
            invariant
                b <= 8,
                row < n,
                n < 16,
                i + n <= 4096,
                i == old(cpu)@.i,
                n == spec_n(old(cpu)@.opcode),
                vx == old(cpu)@.v[spec_x(old(cpu)@.opcode) as int],
                vy == old(cpu)@.v[spec_y(old(cpu)@.opcode) as int],
                old(cpu).wf(),
                old(cpu).pc + 2 <= usize::MAX,
                sprite == old(cpu)@.memory[i + row],
                cy == (vy + row) % 32,
                cy < 32,
                cpu@ == (CpuView { pixels: cpu@.pixels, ..old(cpu)@ }),
                cpu@.pixels.len() == 2048,
                forall|t: int|
                    0 <= t < 2048 && #[trigger] cell_done(
                        vx as int,
                        vy as int,
                        row as int,
                        b as int,
                        t,
                    ) ==> cpu@.pixels[t] == (old(cpu)@.pixels[t] != cell_bit(
                        old(cpu)@.memory,
                        i as int,
                        vx as int,
                        vy as int,
                        t,
                    )),
                forall|t: int|
                    0 <= t < 2048 && !(#[trigger] cell_done(
                        vx as int,
                        vy as int,
                        row as int,
                        b as int,
                        t,
                    )) ==> cpu@.pixels[t] == old(cpu)@.pixels[t],
                collision <==> (exists|t: int|
                    0 <= t < 2048 && #[trigger] cell_done(
                        vx as int,
                        vy as int,
                        row as int,
                        b as int,
                        t,
                    ) && cell_bit(old(cpu)@.memory, i as int, vx as int, vy as int, t)
                        && old(cpu)@.pixels[t]),
            decreases 8 - b,
        {
            let cx = (vx + b) % 64;
            let t = cy * 64 + cx;
            proof {
                lemma_done_step(vx as int, vy as int, row as int, b as int, t as int);
            }
            let shift: u8 = (7 - b) as u8;
            let bit: bool = (sprite >> shift) & 1 == 1;
            let prev = cpu.pixels[t];
            let ghost collision_before = collision;
            proof {
                assert(prev == old(cpu)@.pixels[t as int]);
                assert(bit == cell_bit(
                    old(cpu)@.memory,
                    i as int,
                    vx as int,
                    vy as int,
                    t as int,
                ));
            }
            if bit && prev {
                collision = true;
            }
            cpu.pixels[t] = prev != bit;
            proof {
                let vxi = vx as int;
                let vyi = vy as int;
                let ri = row as int;
                let bi = b as int;
                let mem = old(cpu)@.memory;
                let ii = i as int;
                assert(cell_done(vxi, vyi, ri, bi + 1, t as int));
                assert(collision <==> (exists|tw: int|
                    0 <= tw < 2048 && #[trigger] cell_done(vxi, vyi, ri, bi + 1, tw) && cell_bit(
                        mem,
                        ii,
                        vxi,
                        vyi,
                        tw,
                    ) && old(cpu)@.pixels[tw])) by {
                    if collision {
                        if bit && prev {
                            assert(cell_done(vxi, vyi, ri, bi + 1, t as int) && cell_bit(
                                mem,
                                ii,
                                vxi,
                                vyi,
                                t as int,
                            ) && old(cpu)@.pixels[t as int]);
                        } else {
                            let tw = choose|tw: int|
                                0 <= tw < 2048 && #[trigger] cell_done(vxi, vyi, ri, bi, tw)
                                    && cell_bit(mem, ii, vxi, vyi, tw) && old(cpu)@.pixels[tw];
                            assert(cell_done(vxi, vyi, ri, bi + 1, tw));
                        }
                    }
                    if exists|tw: int|
                        0 <= tw < 2048 && #[trigger] cell_done(vxi, vyi, ri, bi + 1, tw)
                            && cell_bit(mem, ii, vxi, vyi, tw) && old(cpu)@.pixels[tw] {
                        let tw = choose|tw: int|
                            0 <= tw < 2048 && #[trigger] cell_done(vxi, vyi, ri, bi + 1, tw)
                                && cell_bit(mem, ii, vxi, vyi, tw) && old(cpu)@.pixels[tw];
                        if cell_done(vxi, vyi, ri, bi, tw) {
                            assert(collision_before);
                        } else {
                            assert(tw == t as int);
                            assert(bit && prev);
                        }
                    }
                }
            }
            b += 1;
        }
        proof {
            let vxi = vx as int;
            let vyi = vy as int;
            let ri = row as int;
            // Finishing all 8 bits of row `ri` is starting row `ri + 1`.
            assert forall|t2: int| 0 <= t2 < 2048 implies (#[trigger] cell_done(
                vxi,
                vyi,
                ri + 1,
                0,
                t2,
            ) == cell_done(vxi, vyi, ri, 8, t2)) by {
                vstd::arithmetic::div_mod::lemma_mod_division_less_than_divisor(
                    t2 % 64 - vxi,
                    64,
                );
            }
            if collision {
                let tw = choose|tw: int|
                    0 <= tw < 2048 && #[trigger] cell_done(vxi, vyi, ri, 8, tw) && cell_bit(
                        old(cpu)@.memory,
                        i as int,
                        vxi,
                        vyi,
                        tw,
                    ) && old(cpu)@.pixels[tw];
                assert(cell_done(vxi, vyi, ri + 1, 0, tw));
            }
        }
        row += 1;
    }
    proof {
        // Every covered cell is done exactly when all rows are drawn.
        assert forall|t: int| 0 <= t < 2048 implies (#[trigger] cell_done(
            vx as int,
            vy as int,
            row as int,
            0,
            t,
        ) == cell_hit(vx as int, vy as int, n as int, t)) by {
            lemma_cell_coords(t);
            vstd::arithmetic::div_mod::lemma_mod_division_less_than_divisor(t / 64 - vy as int, 32);
            vstd::arithmetic::div_mod::lemma_mod_division_less_than_divisor(t % 64 - vx as int, 64);
        }
    }
    cpu.v[0xF] = if collision {
        1
    } else {
        0
    };
    cpu.inc_pc();
    proof {
        let c0 = old(cpu)@;
        let vxi = vx as int;
        let vyi = vy as int;
        let ni = n as int;
        assert(collision == draw_collision(c0, vxi, vyi, ni)) by {
            if collision {
                let tw = choose|tw: int|
                    0 <= tw < 2048 && #[trigger] cell_done(vxi, vyi, ni, 0, tw) && cell_bit(
                        c0.memory,
                        i as int,
                        vxi,
                        vyi,
                        tw,
                    ) && c0.pixels[tw];
                assert(cell_hit(vxi, vyi, ni, tw));
            }
            if draw_collision(c0, vxi, vyi, ni) {
                let tw = choose|tw: int|
                    0 <= tw < 2048 && #[trigger] cell_hit(vxi, vyi, ni, tw) && cell_bit(
                        c0.memory,
                        c0.i as int,
                        vxi,
                        vyi,
                        tw,
                    ) && c0.pixels[tw];
                assert(cell_done(vxi, vyi, ni, 0, tw));
            }
        }
        assert forall|j: int| 0 <= j < 2048 implies cpu@.pixels[j] == spec_drw_vx_vy_n(
            c0,
        ).0.pixels[j] by {
            assert(cell_done(vxi, vyi, row as int, 0, j) == cell_hit(vxi, vyi, ni, j));
        }
        assert(cpu@.pixels =~= spec_drw_vx_vy_n(c0).0.pixels);
        assert(cpu@ =~= spec_drw_vx_vy_n(c0).0);
    }
    Ok(())
}

} // verus!
