//! Recovery of deleted photos, videos, audio and documents by file carving.
//!
//! The library holds the decisions of the tool: which bytes open a known file, where that file
//! ends, which of the hits are worth keeping, and how the hits are saved. It never touches a
//! disk; the program around it reads and writes, and hands the bytes over.

pub mod bytes;
pub mod cli;
pub mod clone;
pub mod drives;
pub mod parse;
pub mod paths;
pub mod recovery;
pub mod scanner;
pub mod signatures;
pub mod text;
pub mod ui;
pub mod updater;
pub mod util;
pub mod wizard;
