//! A MIDI inspector: captures events into a bounded ring, decodes them into
//! readable rows and decides what an effect in the middle of a chain forwards.

pub mod decimal;
pub mod decoding;
pub mod digits;
pub mod double;
pub mod event;
pub mod interpret;
pub mod laws;
pub mod magnitude;
pub mod plugin;
pub mod raw_lines;
pub mod reading;
pub mod ring;
pub mod shortest;
pub mod text;
pub mod ui;
