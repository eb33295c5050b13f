//! An interpreter for a small 8-bit virtual machine: a flat memory, a
//! sixteen-register CPU with a call stack and two countdown timers, a
//! 32 x 64 monochrome frame buffer drawn by XOR, and a sixteen-key pad.

pub mod cpu;
pub mod display;
pub mod displayimpl;
pub mod keyboard;
pub mod opcode;
pub mod ram;

pub use cpu::CPU;
pub use display::Display;
pub use displayimpl::DisplayImpl;
pub use keyboard::Keyboard;
pub use opcode::Opcode;
pub use ram::RAM;
