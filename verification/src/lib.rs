//! A verified CHIP-8 interpreter core: the fetch-decode-execute engine, the
//! register and memory model, the sprite-XOR display with collision
//! detection, the keypad with its wait-for-key latch, and the two 60 Hz
//! timers. The host (windowing, keyboard, audio, ROM file access) lives
//! outside; the core exposes a synchronous, in-memory interface.

pub mod cpu;
pub mod display;
pub mod error;
pub mod keymap;
pub mod opcode;
mod rng;
pub mod state;
