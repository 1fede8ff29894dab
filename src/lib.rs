//! Sans-I/O core of a process-memory controller.
//!
//! The library decides; the caller performs. Every operation that touches the
//! target process (a signal, a word read, a word write, a look at the
//! system's process tables) is described here as a value to carry out, and the
//! result of carrying it out is handed back as a plain value.

pub mod error;
pub mod word;
pub mod address;
pub mod text;
pub mod names;
pub mod maps;
pub mod writer;
pub mod reader;
pub mod model;
pub mod chain;
pub mod process;
