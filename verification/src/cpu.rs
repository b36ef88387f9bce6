//! The machine state: memory, registers, stack, timers, framebuffer and
//! key panel, together with initialization and the fetch/decode/dispatch
//! cycle.

use vstd::prelude::*;

verus! {

/// Number of addressable memory cells.
pub const MEMORY_SIZE: usize = 4096;

/// First address of the program image; everything below is reserved for the
/// built-in glyph table.
pub const PROGRAM_START: usize = 0x200;

/// Largest program image that fits between `PROGRAM_START` and the end of
/// memory.
pub const MAX_PROGRAM_SIZE: usize = 3584;

/// Framebuffer width in pixels.
pub const SCREEN_WIDTH: usize = 64;

/// Framebuffer height in pixels.
pub const SCREEN_HEIGHT: usize = 32;

/// Number of framebuffer cells.
pub const SCREEN_SIZE: usize = 2048;

/// Call-stack capacity: the deepest nesting of pending calls.
pub const STACK_DEPTH: usize = 16;

/// The error conditions the machine reports instead of faulting. Untrusted
/// program data must never crash the interpreter: every address or index
/// derived from an opcode or a register is validated before use, and a
/// violation is returned to the cycle-driving caller.
#[derive(Clone, Copy, Debug, PartialEq, Eq, Structural)]
pub enum Chip8Error {
    /// A program image longer than `MAX_PROGRAM_SIZE` bytes was offered.
    OversizedProgram,
    /// The fetched opcode matches none of the decode patterns; carries the
    /// offending opcode and the program counter it was fetched from.
    UnknownOpcode { opcode: u16, pc: usize },
    /// A call was made with the stack already at its maximum depth.
    StackOverflow,
    /// A return was executed with no pending call on the stack.
    StackUnderflow,
    /// A computed memory address, key index or program counter falls outside
    /// its bounds.
    AddressOutOfRange,
}

/// The machine state.
pub struct Cpu {
    /// The most recently fetched instruction word.
    pub opcode: u16,
    /// General registers V0 through VF; VF doubles as the carry, borrow and
    /// collision flag.
    pub v: [u8; 16],
    /// The index register, base address for memory-block operations and
    /// sprite fetches.
    pub i: u16,
    /// Sound timer; decrements once per cycle while nonzero.
    pub sound_timer: u8,
    /// Delay timer; decrements once per cycle while nonzero.
    pub delay_timer: u8,
    /// The program counter.
    pub pc: usize,
    /// Number of pending calls on the stack.
    pub sp: usize,
    /// The 4096 addressable memory cells.
    pub memory: [u8; 4096],
    /// Saved return addresses; slots `0..sp` are live.
    pub stack: [u16; 16],
    /// Pressed state of the sixteen hexadecimal keys.
    pub keys: [bool; 16],
    /// The 64x32 framebuffer, row-major: the pixel at column `x`, row `y`
    /// lives at index `y * 64 + x`.
    pub pixels: [bool; 2048],
}

/// The mathematical model of the machine state: the same fields with the
/// arrays abstracted to sequences. All transition semantics are stated over
/// this model.
#[verifier::ext_equal]
pub ghost struct CpuView {
    pub opcode: u16,
    pub v: Seq<u8>,
    pub i: u16,
    pub sound_timer: u8,
    pub delay_timer: u8,
    pub pc: usize,
    pub sp: usize,
    pub memory: Seq<u8>,
    pub stack: Seq<u16>,
    pub keys: Seq<bool>,
    pub pixels: Seq<bool>,
}

impl View for Cpu {
    type V = CpuView;

    open spec fn view(&self) -> CpuView {
        CpuView {
            opcode: self.opcode,
            v: self.v@,
            i: self.i,
            sound_timer: self.sound_timer,
            delay_timer: self.delay_timer,
            pc: self.pc,
            sp: self.sp,
            memory: self.memory@,
            stack: self.stack@,
            keys: self.keys@,
            pixels: self.pixels@,
        }
    }
}

impl CpuView {
    /// Well-formedness of the model: the collections have their fixed sizes,
    /// the stack pointer stays within the stack, and the index register
    /// stays within memory.
    pub open spec fn wf(self) -> bool {
        &&& self.v.len() == 16
        &&& self.memory.len() == 4096
        &&& self.stack.len() == 16
        &&& self.keys.len() == 16
        &&& self.pixels.len() == 2048
        &&& self.sp <= 16
        &&& self.i < 4096
    }
}

/// The 12-bit address operand of an instruction word.
pub open spec fn spec_nnn(op: u16) -> u16 {
    op & 0x0FFF
}

/// The low-byte immediate operand of an instruction word.
pub open spec fn spec_kk(op: u16) -> u8 {
    (op & 0x00FF) as u8
}

/// The first register operand: the second-highest nibble.
pub open spec fn spec_x(op: u16) -> u16 {
    (op & 0x0F00) >> 8
}

/// The second register operand: the second-lowest nibble.
pub open spec fn spec_y(op: u16) -> u16 {
    (op & 0x00F0) >> 4
}

/// The low-nibble operand of an instruction word.
pub open spec fn spec_n(op: u16) -> u8 {
    (op & 0x000F) as u8
}

/// The operand fields of an instruction word stay within their widths: the
/// address operand is 12 bits, the register operands are nibbles.
pub proof fn lemma_operand_bounds(op: u16)
    by (bit_vector)
    ensures
        spec_nnn(op) < 0x1000,
        spec_x(op) < 16,
        spec_y(op) < 16,
        spec_n(op) < 16,
{
}

impl Cpu {
    /// Well-formedness of the machine state.
    pub open spec fn wf(self) -> bool {
        self@.wf()
    }

    /// Advances the program counter past one 2-byte instruction.
    pub fn inc_pc(&mut self)
        requires
            old(self).pc + 2 <= usize::MAX,
        ensures
            final(self)@ == (CpuView { pc: (old(self).pc + 2) as usize, ..old(self)@ }),
    {
        self.pc += 2;
    }

    /// The 12-bit address operand of the current opcode.
    pub fn get_nnn(&self) -> (r: u16)
        ensures
            r == spec_nnn(self.opcode),
            r < 0x1000,
    {
        proof {
            lemma_operand_bounds(self.opcode);
        }
        self.opcode & 0x0FFF
    }

    /// The low-byte immediate operand of the current opcode.
    pub fn get_kk(&self) -> (r: u8)
        ensures
            r == spec_kk(self.opcode),
    {
        (self.opcode & 0x00FF) as u8
    }

    /// The first register operand of the current opcode.
    pub fn get_x(&self) -> (r: u8)
        ensures
            r == spec_x(self.opcode),
            r < 16,
    {
        proof {
            lemma_operand_bounds(self.opcode);
        }
        ((self.opcode & 0x0F00) >> 8) as u8
    }

    /// The second register operand of the current opcode.
    pub fn get_y(&self) -> (r: u8)
        ensures
            r == spec_y(self.opcode),
            r < 16,
    {
        proof {
            lemma_operand_bounds(self.opcode);
        }
        ((self.opcode & 0x00F0) >> 4) as u8
    }

    /// The low-nibble operand of the current opcode.
    pub fn get_n(&self) -> (r: u8)
        ensures
            r == spec_n(self.opcode),
            r < 16,
    {
        proof {
            lemma_operand_bounds(self.opcode);
        }
        (self.opcode & 0x000F) as u8
    }

    /// A fresh machine: zeroed registers, memory, stack, timers, keys and
    /// framebuffer, with the program counter and index register at the
    /// program start.
    pub fn new() -> (cpu: Cpu)
        ensures
            cpu.wf(),
            cpu@.opcode == 0,
            cpu@.v =~= Seq::new(16, |k: int| 0u8),
            cpu@.i == 0x200,
            cpu@.sound_timer == 0,
            cpu@.delay_timer == 0,
            cpu@.pc == 0x200,
            cpu@.sp == 0,
            cpu@.memory =~= Seq::new(4096, |k: int| 0u8),
            cpu@.stack =~= Seq::new(16, |k: int| 0u16),
            cpu@.keys =~= Seq::new(16, |k: int| false),
            cpu@.pixels =~= Seq::new(2048, |k: int| false),
    {
        Cpu {
            opcode: 0,
            v: [0; 16],
            i: 0x200,
            sound_timer: 0,
            delay_timer: 0,
            pc: 0x200,
            sp: 0,
            memory: [0; 4096],
            stack: [0; 16],
            keys: [false; 16],
            pixels: [false; 2048],
        }
    }
}

} // verus!

verus! {

/// The built-in glyph table: sixteen 4x5-pixel hexadecimal digit bitmaps,
/// 5 bytes each, resident at memory addresses 0x000 through 0x04F.
pub open spec fn glyph_table() -> Seq<u8> {
    seq![
        0xF0u8, 0x90, 0x90, 0x90, 0xF0, // 0
        0x20, 0x60, 0x20, 0x20, 0x70, // 1
        0xF0, 0x10, 0xF0, 0x80, 0xF0, // 2
        0xF0, 0x10, 0xF0, 0x10, 0xF0, // 3
        0x90, 0x90, 0xF0, 0x10, 0x10, // 4
        0xF0, 0x80, 0xF0, 0x10, 0xF0, // 5
        0xF0, 0x80, 0xF0, 0x90, 0xF0, // 6
        0xF0, 0x10, 0x20, 0x40, 0x40, // 7
        0xF0, 0x90, 0xF0, 0x90, 0xF0, // 8
        0xF0, 0x90, 0xF0, 0x10, 0xF0, // 9
        0xF0, 0x90, 0xF0, 0x90, 0x90, // A
        0xE0, 0x90, 0xE0, 0x90, 0xE0, // B
        0xF0, 0x80, 0x80, 0x80, 0xF0, // C
        0xE0, 0x90, 0x90, 0x90, 0xE0, // D
        0xF0, 0x80, 0xF0, 0x80, 0xF0, // E
        0xF0, 0x80, 0xF0, 0x80, 0x80, // F
    ]
}

/// Writing the glyph table fills the first 80 memory cells and touches
/// nothing else.
pub open spec fn spec_load_fontset(c: CpuView) -> CpuView {
    CpuView { memory: glyph_table() + c.memory.skip(80), ..c }
}

/// Loading a program image copies it into memory starting at 0x200, or
/// reports `OversizedProgram` — with no partial write — when it is longer
/// than the 3584 cells available there.
pub open spec fn spec_load_program(c: CpuView, program: Seq<u8>) -> (CpuView, Result<
    (),
    Chip8Error,
>) {
    if program.len() > 3584 {
        (c, Err(Chip8Error::OversizedProgram))
    } else {
        let mem = Seq::new(
            4096,
            |j: int|
                if 0x200 <= j < 0x200 + program.len() {
                    program[j - 0x200]
                } else {
                    c.memory[j]
                },
        );
        (CpuView { memory: mem, ..c }, Ok(()))
    }
}

/// Fetching reads the big-endian instruction word at the program counter,
/// or reports `AddressOutOfRange` when the counter does not point at two
/// cells inside memory.
pub open spec fn spec_fetch(c: CpuView) -> (CpuView, Result<(), Chip8Error>) {
    if c.pc + 1 > 4095 {
        (c, Err(Chip8Error::AddressOutOfRange))
    } else {
        (
            CpuView {
                opcode: ((c.memory[c.pc as int] as u16) << 8) | (c.memory[c.pc + 1] as u16),
                ..c
            },
            Ok(()),
        )
    }
}

/// The timer tick at the end of a cycle: each timer decrements by one while
/// greater than zero and saturates at zero.
pub open spec fn spec_tick(c: CpuView) -> CpuView {
    CpuView {
        sound_timer: if c.sound_timer > 0 {
            (c.sound_timer - 1) as u8
        } else {
            c.sound_timer
        },
        delay_timer: if c.delay_timer > 0 {
            (c.delay_timer - 1) as u8
        } else {
            c.delay_timer
        },
        ..c
    }
}

/// The concrete operations, classified from an instruction word by its
/// nibble pattern.
pub ghost enum Instr {
    Cls,
    Ret,
    Jp,
    Call,
    SeVxKk,
    SneVxKk,
    SeVxVy,
    LdVxKk,
    AddVxKk,
    LdVxVy,
    OrVxVy,
    AndVxVy,
    XorVxVy,
    AddVxVy,
    SubVxVy,
    ShrVxVy,
    SubnVxVy,
    ShlVxVy,
    SneVxVy,
    LdINnn,
    JpV0Nnn,
    RndVxKk,
    DrwVxVyN,
    SkpVx,
    SknpVx,
    LdVxDt,
    LdVxK,
    LdDtVx,
    LdStVx,
    AddIVx,
    LdFVx,
    LdBVx,
    LdIVx,
    LdVxI,
}

/// Classifies an instruction word by its highest nibble, and within the
/// 0x0, 0x8, 0xE and 0xF families by its low nibble or low byte. A word
/// matching no pattern decodes to nothing.
pub open spec fn spec_decode(op: u16) -> Option<Instr> {
    let hi = op & 0xF000;
    if hi == 0x0000 {
        if op & 0x0FFF == 0x00E0 {
            Some(Instr::Cls)
        } else if op & 0x0FFF == 0x00EE {
            Some(Instr::Ret)
        } else {
            None
        }
    } else if hi == 0x1000 {
        Some(Instr::Jp)
    } else if hi == 0x2000 {
        Some(Instr::Call)
    } else if hi == 0x3000 {
        Some(Instr::SeVxKk)
    } else if hi == 0x4000 {
        Some(Instr::SneVxKk)
    } else if hi == 0x5000 {
        Some(Instr::SeVxVy)
    } else if hi == 0x6000 {
        Some(Instr::LdVxKk)
    } else if hi == 0x7000 {
        Some(Instr::AddVxKk)
    } else if hi == 0x8000 {
        let lo = op & 0x000F;
        if lo == 0x0 {
            Some(Instr::LdVxVy)
        } else if lo == 0x1 {
            Some(Instr::OrVxVy)
        } else if lo == 0x2 {
            Some(Instr::AndVxVy)
        } else if lo == 0x3 {
            Some(Instr::XorVxVy)
        } else if lo == 0x4 {
            Some(Instr::AddVxVy)
        } else if lo == 0x5 {
            Some(Instr::SubVxVy)
        } else if lo == 0x6 {
            Some(Instr::ShrVxVy)
        } else if lo == 0x7 {
            Some(Instr::SubnVxVy)
        } else if lo == 0xE {
            Some(Instr::ShlVxVy)
        } else {
            None
        }
    } else if hi == 0x9000 {
        Some(Instr::SneVxVy)
    } else if hi == 0xA000 {
        Some(Instr::LdINnn)
    } else if hi == 0xB000 {
        Some(Instr::JpV0Nnn)
    } else if hi == 0xC000 {
        Some(Instr::RndVxKk)
    } else if hi == 0xD000 {
        Some(Instr::DrwVxVyN)
    } else if hi == 0xE000 {
        let lo = op & 0x00FF;
        if lo == 0x9E {
            Some(Instr::SkpVx)
        } else if lo == 0xA1 {
            Some(Instr::SknpVx)
        } else {
            None
        }
    } else if hi == 0xF000 {
        let lo = op & 0x00FF;
        if lo == 0x07 {
            Some(Instr::LdVxDt)
        } else if lo == 0x0A {
            Some(Instr::LdVxK)
        } else if lo == 0x15 {
            Some(Instr::LdDtVx)
        } else if lo == 0x18 {
            Some(Instr::LdStVx)
        } else if lo == 0x1E {
            Some(Instr::AddIVx)
        } else if lo == 0x29 {
            Some(Instr::LdFVx)
        } else if lo == 0x33 {
            Some(Instr::LdBVx)
        } else if lo == 0x55 {
            Some(Instr::LdIVx)
        } else if lo == 0x65 {
            Some(Instr::LdVxI)
        } else {
            None
        }
    } else {
        None
    }
}

/// Executing the current opcode: the decoded operation's transition, or
/// `UnknownOpcode` — with the state unchanged — when the word decodes to
/// nothing. The byte `rn` is the one consumed by the random operation; every
/// other operation ignores it.
pub open spec fn spec_execute(c: CpuView, rn: u8) -> (CpuView, Result<(), Chip8Error>) {
    match spec_decode(c.opcode) {
        None => (c, Err(Chip8Error::UnknownOpcode { opcode: c.opcode, pc: c.pc })),
        Some(ins) => match ins {
            Instr::Cls => (crate::instructions::spec_cls(c), Ok(())),
            Instr::Ret => crate::instructions::spec_ret(c),
            Instr::Jp => (crate::instructions::spec_jp(c), Ok(())),
            Instr::Call => crate::instructions::spec_call(c),
            Instr::SeVxKk => (crate::instructions::spec_se_vx_kk(c), Ok(())),
            Instr::SneVxKk => (crate::instructions::spec_sne_vx_kk(c), Ok(())),
            Instr::SeVxVy => (crate::instructions::spec_se_vx_vy(c), Ok(())),
            Instr::LdVxKk => (crate::instructions::spec_ld_vx_kk(c), Ok(())),
            Instr::AddVxKk => (crate::instructions::spec_add_vx_kk(c), Ok(())),
            Instr::LdVxVy => (crate::instructions::spec_ld_vx_vy(c), Ok(())),
            Instr::OrVxVy => (crate::instructions::spec_or_vx_vy(c), Ok(())),
            Instr::AndVxVy => (crate::instructions::spec_and_vx_vy(c), Ok(())),
            Instr::XorVxVy => (crate::instructions::spec_xor_vx_vy(c), Ok(())),
            Instr::AddVxVy => (crate::instructions::spec_add_vx_vy(c), Ok(())),
            Instr::SubVxVy => (crate::instructions::spec_sub_vx_vy(c), Ok(())),
            Instr::ShrVxVy => (crate::instructions::spec_shr_vx_vy(c), Ok(())),
            Instr::SubnVxVy => (crate::instructions::spec_subn_vx_vy(c), Ok(())),
            Instr::ShlVxVy => (crate::instructions::spec_shl_vx_vy(c), Ok(())),
            Instr::SneVxVy => (crate::instructions::spec_sne_vx_vy(c), Ok(())),
            Instr::LdINnn => (crate::instructions::spec_ld_i_nnn(c), Ok(())),
            Instr::JpV0Nnn => (crate::instructions::spec_jp_v0_nnn(c), Ok(())),
            Instr::RndVxKk => (crate::instructions::spec_rnd_vx_kk(c, rn), Ok(())),
            Instr::DrwVxVyN => crate::instructions::spec_drw_vx_vy_n(c),
            Instr::SkpVx => crate::instructions::spec_skp_vx(c),
            Instr::SknpVx => crate::instructions::spec_sknp_vx(c),
            Instr::LdVxDt => (crate::instructions::spec_ld_vx_dt(c), Ok(())),
            Instr::LdVxK => (crate::instructions::spec_ld_vx_k(c), Ok(())),
            Instr::LdDtVx => (crate::instructions::spec_ld_dt_vx(c), Ok(())),
            Instr::LdStVx => (crate::instructions::spec_ld_st_vx(c), Ok(())),
            Instr::AddIVx => crate::instructions::spec_add_i_vx(c),
            Instr::LdFVx => (crate::instructions::spec_ld_f_vx(c), Ok(())),
            Instr::LdBVx => crate::instructions::spec_ld_b_vx(c),
            Instr::LdIVx => crate::instructions::spec_ld_i_vx(c),
            Instr::LdVxI => crate::instructions::spec_ld_vx_i(c),
        },
    }
}

/// One full cycle: fetch, execute, then tick the timers. An error from the
/// fetch or the execute step ends the cycle there, before the tick.
pub open spec fn spec_cycle(c: CpuView, rn: u8) -> (CpuView, Result<(), Chip8Error>) {
    let fetched = spec_fetch(c);
    if fetched.1 is Err {
        fetched
    } else {
        let executed = spec_execute(fetched.0, rn);
        if executed.1 is Err {
            executed
        } else {
            (spec_tick(executed.0), Ok(()))
        }
    }
}

impl Cpu {
    /// Writes the built-in glyph table into memory addresses 0x000 through
    /// 0x04F. Idempotent; nothing else is touched.
    pub fn load_fontset(&mut self)
        requires
            old(self).wf(),
        ensures
            final(self).wf(),
            final(self)@ == spec_load_fontset(old(self)@),
    {
        let table: [u8; 80] = [
            0xF0, 0x90, 0x90, 0x90, 0xF0, // 0
            0x20, 0x60, 0x20, 0x20, 0x70, // 1
            0xF0, 0x10, 0xF0, 0x80, 0xF0, // 2
            0xF0, 0x10, 0xF0, 0x10, 0xF0, // 3
            0x90, 0x90, 0xF0, 0x10, 0x10, // 4
            0xF0, 0x80, 0xF0, 0x10, 0xF0, // 5
            0xF0, 0x80, 0xF0, 0x90, 0xF0, // 6
            0xF0, 0x10, 0x20, 0x40, 0x40, // 7
            0xF0, 0x90, 0xF0, 0x90, 0xF0, // 8
            0xF0, 0x90, 0xF0, 0x10, 0xF0, // 9
            0xF0, 0x90, 0xF0, 0x90, 0x90, // A
            0xE0, 0x90, 0xE0, 0x90, 0xE0, // B
            0xF0, 0x80, 0x80, 0x80, 0xF0, // C
            0xE0, 0x90, 0x90, 0x90, 0xE0, // D
            0xF0, 0x80, 0xF0, 0x80, 0xF0, // E
            0xF0, 0x80, 0xF0, 0x80, 0x80, // F
        ];
        proof {
            assert(table@ =~= glyph_table());
        }
        let mut k: usize = 0;
        while k < 80
            invariant
                k <= 80,
                table@ == glyph_table(),
                self@ == (CpuView { memory: self@.memory, ..old(self)@ }),
                self@.memory.len() == 4096,
                forall|j: int| 0 <= j < k ==> self@.memory[j] == glyph_table()[j],
                forall|j: int| k <= j < 4096 ==> self@.memory[j] == old(self)@.memory[j],
            decreases 80 - k,
        {
            self.memory[k] = table[k];
            k += 1;
        }
        proof {
            assert(self@.memory =~= glyph_table() + old(self)@.memory.skip(80));
            assert(self@ =~= spec_load_fontset(old(self)@));
        }
    }

    /// Copies a program image into memory starting at 0x200. An image longer
    /// than the 3584 cells available there is rejected with
    /// `OversizedProgram` and nothing is written. Registers, program
    /// counter, stack and timers are never touched.
    pub fn load_program(&mut self, program: &[u8]) -> (r: Result<(), Chip8Error>)
        requires
            old(self).wf(),
        ensures
            final(self).wf(),
            final(self)@ == spec_load_program(old(self)@, program@).0,
            r == spec_load_program(old(self)@, program@).1,
    {
        if program.len() > 3584 {
            return Err(Chip8Error::OversizedProgram);
        }
        let mut k: usize = 0;
        while k < program.len()
            invariant
                k <= program@.len(),
                program@.len() <= 3584,
                self@ == (CpuView { memory: self@.memory, ..old(self)@ }),
                self@.memory.len() == 4096,
                forall|j: int| 0x200 <= j < 0x200 + k ==> self@.memory[j] == program@[j - 0x200],
                forall|j: int|
                    0 <= j < 4096 && !(0x200 <= j < 0x200 + k) ==> self@.memory[j] == old(
                        self,
                    )@.memory[j],
            decreases program@.len() - k,
        {
            self.memory[0x200 + k] = program[k];
            k += 1;
        }
        proof {
            assert(self@.memory =~= spec_load_program(old(self)@, program@).0.memory);
            assert(self@ =~= spec_load_program(old(self)@, program@).0);
        }
        Ok(())
    }

    /// Reads the big-endian instruction word at the program counter into
    /// `opcode`, or reports `AddressOutOfRange` when the counter does not
    /// point at two cells inside memory.
    pub fn fetch_opcode(&mut self) -> (r: Result<(), Chip8Error>)
        requires
            old(self).wf(),
        ensures
            final(self).wf(),
            final(self)@ == spec_fetch(old(self)@).0,
            r == spec_fetch(old(self)@).1,
    {
        if self.pc > 4094 {
            return Err(Chip8Error::AddressOutOfRange);
        }
        let hi = self.memory[self.pc];
        let lo = self.memory[self.pc + 1];
        self.opcode = ((hi as u16) << 8) | (lo as u16);
        proof {
            assert(self@ =~= spec_fetch(old(self)@).0);
        }
        Ok(())
    }

    /// Decrements each timer by one if it is nonzero; both saturate at zero.
    fn update_timers(&mut self)
        ensures
            final(self)@ == spec_tick(old(self)@),
    {
        if self.sound_timer > 0 {
            self.sound_timer -= 1;
        }
        if self.delay_timer > 0 {
            self.delay_timer -= 1;
        }
        proof {
            assert(self@ =~= spec_tick(old(self)@));
        }
    }

    /// Classifies the current opcode and runs the selected operation, which
    /// mutates its slice of the state and advances the program counter by
    /// its own rule. A word matching no pattern is reported as
    /// `UnknownOpcode`, with the state unchanged. Whatever byte the random
    /// operation consumed, the outcome is the decoded transition applied to
    /// it.
    pub fn execute_opcode(&mut self) -> (r: Result<(), Chip8Error>)
        requires
            old(self).wf(),
            old(self).pc + 2 <= u16::MAX,
        ensures
            final(self).wf(),
            exists|rn: u8| (final(self)@, r) == #[trigger] spec_execute(old(self)@, rn),
    {
        let op = self.opcode;
        match op & 0xF000 {
            0x0000 => match op & 0x0FFF {
                0x00E0 => {
                    crate::instructions::cls(self);
                    proof {
                        assert((self@, Ok::<(), Chip8Error>(())) == spec_execute(old(self)@, 0u8));
                    }
                    Ok(())
                },
                0x00EE => {
                    let r = crate::instructions::ret(self);
                    proof {
                        assert((self@, r) == spec_execute(old(self)@, 0u8));
                    }
                    r
                },
                _ => {
                    proof {
                        assert((self@, Err::<(), Chip8Error>(
                            Chip8Error::UnknownOpcode { opcode: self.opcode, pc: self.pc },
                        )) == spec_execute(old(self)@, 0u8));
                    }
                    Err(Chip8Error::UnknownOpcode { opcode: self.opcode, pc: self.pc })
                },
            },
            0x1000 => {
                crate::instructions::jp(self);
                proof {
                    assert((self@, Ok::<(), Chip8Error>(())) == spec_execute(old(self)@, 0u8));
                }
                Ok(())
            },
            0x2000 => {
                let r = crate::instructions::call(self);
                proof {
                    assert((self@, r) == spec_execute(old(self)@, 0u8));
                }
                r
            },
            0x3000 => {
                crate::instructions::se_vx_kk(self);
                proof {
                    assert((self@, Ok::<(), Chip8Error>(())) == spec_execute(old(self)@, 0u8));
                }
                Ok(())
            },
            0x4000 => {
                crate::instructions::sne_vx_kk(self);
                proof {
                    assert((self@, Ok::<(), Chip8Error>(())) == spec_execute(old(self)@, 0u8));
                }
                Ok(())
            },
            0x5000 => {
                crate::instructions::se_vx_vy(self);
                proof {
                    assert((self@, Ok::<(), Chip8Error>(())) == spec_execute(old(self)@, 0u8));
                }
                Ok(())
            },
            0x6000 => {
                crate::instructions::ld_vx_kk(self);
                proof {
                    assert((self@, Ok::<(), Chip8Error>(())) == spec_execute(old(self)@, 0u8));
                }
                Ok(())
            },
            0x7000 => {
                crate::instructions::add_vx_kk(self);
                proof {
                    assert((self@, Ok::<(), Chip8Error>(())) == spec_execute(old(self)@, 0u8));
                }
                Ok(())
            },
            0x8000 => match op & 0x000F {
                0x0000 => {
                    crate::instructions::ld_vx_vy(self);
                    proof {
                        assert((self@, Ok::<(), Chip8Error>(())) == spec_execute(old(self)@, 0u8));
                    }
                    Ok(())
                },
                0x0001 => {
                    crate::instructions::or_vx_vy(self);
                    proof {
                        assert((self@, Ok::<(), Chip8Error>(())) == spec_execute(old(self)@, 0u8));
                    }
                    Ok(())
                },
                0x0002 => {
                    crate::instructions::and_vx_vy(self);
                    proof {
                        assert((self@, Ok::<(), Chip8Error>(())) == spec_execute(old(self)@, 0u8));
                    }
                    Ok(())
                },
                0x0003 => {
                    crate::instructions::xor_vx_vy(self);
                    proof {
                        assert((self@, Ok::<(), Chip8Error>(())) == spec_execute(old(self)@, 0u8));
                    }
                    Ok(())
                },
                0x0004 => {
                    crate::instructions::add_vx_vy(self);
                    proof {
                        assert((self@, Ok::<(), Chip8Error>(())) == spec_execute(old(self)@, 0u8));
                    }
                    Ok(())
                },
                0x0005 => {
                    crate::instructions::sub_vx_vy(self);
                    proof {
                        assert((self@, Ok::<(), Chip8Error>(())) == spec_execute(old(self)@, 0u8));
                    }
                    Ok(())
                },
                0x0006 => {
                    crate::instructions::shr_vx_vy(self);
                    proof {
                        assert((self@, Ok::<(), Chip8Error>(())) == spec_execute(old(self)@, 0u8));
                    }
                    Ok(())
                },
                0x0007 => {
                    crate::instructions::subn_vx_vy(self);
                    proof {
                        assert((self@, Ok::<(), Chip8Error>(())) == spec_execute(old(self)@, 0u8));
                    }
                    Ok(())
                },
                0x000E => {
                    crate::instructions::shl_vx_vy(self);
                    proof {
                        assert((self@, Ok::<(), Chip8Error>(())) == spec_execute(old(self)@, 0u8));
                    }
                    Ok(())
                },
                _ => {
                    proof {
                        assert((self@, Err::<(), Chip8Error>(
                            Chip8Error::UnknownOpcode { opcode: self.opcode, pc: self.pc },
                        )) == spec_execute(old(self)@, 0u8));
                    }
                    Err(Chip8Error::UnknownOpcode { opcode: self.opcode, pc: self.pc })
                },
            },
            0x9000 => {
                crate::instructions::sne_vx_vy(self);
                proof {
                    assert((self@, Ok::<(), Chip8Error>(())) == spec_execute(old(self)@, 0u8));
                }
                Ok(())
            },
            0xA000 => {
                crate::instructions::ld_i_nnn(self);
                proof {
                    assert((self@, Ok::<(), Chip8Error>(())) == spec_execute(old(self)@, 0u8));
                }
                Ok(())
            },
            0xB000 => {
                crate::instructions::jp_v0_nnn(self);
                proof {
                    assert((self@, Ok::<(), Chip8Error>(())) == spec_execute(old(self)@, 0u8));
                }
                Ok(())
            },
            0xC000 => {
                crate::instructions::rnd_vx_kk(self);
                proof {
                    let rn = choose|rn: u8|
                        self@ == crate::instructions::spec_rnd_vx_kk(old(self)@, rn);
                    assert((self@, Ok::<(), Chip8Error>(())) == spec_execute(old(self)@, rn));
                }
                Ok(())
            },
            0xD000 => {
                let r = crate::instructions::drw_vx_vy_n(self);
                proof {
                    assert((self@, r) == spec_execute(old(self)@, 0u8));
                }
                r
            },
            0xE000 => match op & 0x00FF {
                0x009E => {
                    let r = crate::instructions::skp_vx(self);
                    proof {
                        assert((self@, r) == spec_execute(old(self)@, 0u8));
                    }
                    r
                },
                0x00A1 => {
                    let r = crate::instructions::sknp_vx(self);
                    proof {
                        assert((self@, r) == spec_execute(old(self)@, 0u8));
                    }
                    r
                },
                _ => {
                    proof {
                        assert((self@, Err::<(), Chip8Error>(
                            Chip8Error::UnknownOpcode { opcode: self.opcode, pc: self.pc },
                        )) == spec_execute(old(self)@, 0u8));
                    }
                    Err(Chip8Error::UnknownOpcode { opcode: self.opcode, pc: self.pc })
                },
            },
            0xF000 => match op & 0x00FF {
                0x0007 => {
                    crate::instructions::ld_vx_dt(self);
                    proof {
                        assert((self@, Ok::<(), Chip8Error>(())) == spec_execute(old(self)@, 0u8));
                    }
                    Ok(())
                },
                0x000A => {
                    crate::instructions::ld_vx_k(self);
                    proof {
                        assert((self@, Ok::<(), Chip8Error>(())) == spec_execute(old(self)@, 0u8));
                    }
                    Ok(())
                },
                0x0015 => {
                    crate::instructions::ld_dt_vx(self);
                    proof {
                        assert((self@, Ok::<(), Chip8Error>(())) == spec_execute(old(self)@, 0u8));
                    }
                    Ok(())
                },
                0x0018 => {
                    crate::instructions::ld_st_vx(self);
                    proof {
                        assert((self@, Ok::<(), Chip8Error>(())) == spec_execute(old(self)@, 0u8));
                    }
                    Ok(())
                },
                0x001E => {
                    let r = crate::instructions::add_i_vx(self);
                    proof {
                        assert((self@, r) == spec_execute(old(self)@, 0u8));
                    }
                    r
                },
                0x0029 => {
                    crate::instructions::ld_f_vx(self);
                    proof {
                        assert((self@, Ok::<(), Chip8Error>(())) == spec_execute(old(self)@, 0u8));
                    }
                    Ok(())
                },
                0x0033 => {
                    let r = crate::instructions::ld_b_vx(self);
                    proof {
                        assert((self@, r) == spec_execute(old(self)@, 0u8));
                    }
                    r
                },
                0x0055 => {
                    let r = crate::instructions::ld_i_vx(self);
                    proof {
                        assert((self@, r) == spec_execute(old(self)@, 0u8));
                    }
                    r
                },
                0x0065 => {
                    let r = crate::instructions::ld_vx_i(self);
                    proof {
                        assert((self@, r) == spec_execute(old(self)@, 0u8));
                    }
                    r
                },
                _ => {
                    proof {
                        assert((self@, Err::<(), Chip8Error>(
                            Chip8Error::UnknownOpcode { opcode: self.opcode, pc: self.pc },
                        )) == spec_execute(old(self)@, 0u8));
                    }
                    Err(Chip8Error::UnknownOpcode { opcode: self.opcode, pc: self.pc })
                },
            },
            _ => {
                proof {
                    assert((self@, Err::<(), Chip8Error>(
                        Chip8Error::UnknownOpcode { opcode: self.opcode, pc: self.pc },
                    )) == spec_execute(old(self)@, 0u8));
                }
                Err(Chip8Error::UnknownOpcode { opcode: self.opcode, pc: self.pc })
            },
        }
    }

    /// One full cycle, called once per tick by the host driver: fetch the
    /// instruction word at the program counter, execute it, then decrement
    /// the timers. An error from the fetch or the execute step is returned
    /// to the caller and skips the tick. Whatever byte the random operation
    /// consumed, the outcome is one cycle applied to it.
    pub fn execute_cycle(&mut self) -> (r: Result<(), Chip8Error>)
        requires
            old(self).wf(),
        ensures
            final(self).wf(),
            exists|rn: u8| (final(self)@, r) == #[trigger] spec_cycle(old(self)@, rn),
    {
        match self.fetch_opcode() {
            Err(e) => {
                proof {
                    assert((self@, Err::<(), Chip8Error>(e)) == spec_cycle(old(self)@, 0u8));
                }
                return Err(e);
            },
            Ok(()) => {},
        }
        let ghost mid = self@;
        match self.execute_opcode() {
            Err(e) => {
                proof {
                    let rn = choose|rn: u8|
                        (self@, Err::<(), Chip8Error>(e)) == #[trigger] spec_execute(mid, rn);
                    assert((self@, Err::<(), Chip8Error>(e)) == spec_cycle(old(self)@, rn));
                }
                return Err(e);
            },
            Ok(()) => {},
        }
        let ghost done = self@;
        self.update_timers();
        proof {
            let rn = choose|rn: u8|
                (done, Ok::<(), Chip8Error>(())) == #[trigger] spec_execute(mid, rn);
            assert((self@, Ok::<(), Chip8Error>(())) == spec_cycle(old(self)@, rn));
        }
        Ok(())
    }
}

} // verus!
