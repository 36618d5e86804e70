//! A Chip-8 virtual machine: an instruction decoder, the machine state it
//! drives (registers, memory, stack, timers, framebuffer, key pad) and the
//! execution rules of each instruction, all stated as contracts and proved.
pub mod instruction;
pub mod display;
pub mod keyboard;
pub mod system;
pub mod laws;
