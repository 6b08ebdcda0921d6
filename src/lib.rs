//! A CHIP-8 interpreter core: instruction decoder, processor state machine
//! and packed monochrome framebuffer, each with a verified contract.

pub mod screen;
pub mod opcode;
pub mod cpu;
