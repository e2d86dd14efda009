//! Out-of-process stack sampling for the PHP interpreter.
//!
//! The library turns DWARF type information into a layout descriptor and
//! walks the interpreter's call stack through a narrow remote-memory
//! capability.

pub mod dwarf;
pub mod image;
pub mod layout;
pub mod record;
pub mod remote;
pub mod symbols;
pub mod text;
pub mod types;
pub mod walker;

