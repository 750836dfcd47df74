//! A verified interpreter for an 8-bit virtual machine with sixteen
//! registers, 4096 bytes of memory, a call stack, a monochrome framebuffer,
//! two countdown timers and a hexadecimal keypad.
//!
//! The machine state lives in [`cpu::Chip8`]; one instruction is decoded
//! and executed by [`instr::op`], and one whole fetch-decode-execute-tick
//! cycle by [`cpu::Chip8::cpu_cycle`]. Their effect is pinned down by the
//! purely mathematical step function [`model::spec_step`], over which the
//! instruction-set laws in [`props`] are proved. Rendering, raw keyboard
//! capture, program loading from storage and pacing are left to the host
//! around the library: it only reads the framebuffer grid with its dirty
//! flag and writes the currently held hex key.

pub mod cpu;
pub mod display;
pub mod emu_timer;
pub mod instr;
pub mod key_input;
pub mod model;
pub mod props;
pub mod utils;
