//! A CHIP-8 virtual machine with verified instruction semantics.
//!
//! The machine interprets a fixed 16-bit instruction set against 4096 bytes
//! of memory, sixteen 8-bit registers, a 16-slot call stack, two countdown
//! timers, a 64x32 monochrome framebuffer and a 16-key input panel. Every
//! state transition carries a contract that pins down its exact effect, and
//! untrusted program data is validated before every derived memory access.

pub mod cpu;
pub mod instructions;
pub mod laws;
