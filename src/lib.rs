//! The core of a CHIP-8 emulator: an interpreter for a subset of the
//! instruction set, and a 64 x 32 framebuffer with an XOR sprite blit.
//! Windows, input devices and files are left to the caller: the core takes a
//! program image as bytes and hands back the blocks to paint.

pub mod display;
pub mod error;
pub mod processor;
