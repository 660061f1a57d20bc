//! A tiny procedural-drawing virtual machine: a byte-packed program moves a
//! cursor over a fixed-size pixel buffer, one command per tick.

pub mod command;
pub mod cpu;
pub mod display;
pub mod nibbles;
pub mod program;
pub mod rom;
pub mod rule;
