//! A verified CHIP-8 interpreter core: instruction decoding, the full
//! opcode semantics with configurable compatibility quirks, the sprite
//! drawing / collision algorithm, and the blocking key-wait state machine.
//!
//! The caller drives the outer loop: it samples the keypad, decrements the
//! timers at 60 Hz, invokes one `cycle`, and flushes the framebuffer to a
//! display when the draw flag is set.

pub mod chip8;
pub mod instruction;
pub mod laws;
pub mod quirks;
pub mod rng;
pub mod state;
pub mod step;
