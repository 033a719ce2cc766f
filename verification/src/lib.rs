//! The decisions behind running a WebAssembly module from the command line.

pub mod asked;
pub mod command;
pub mod context;
pub mod coredump;
pub mod ends;
pub mod error;
pub mod execute;
pub mod format;
pub mod invoke;
pub mod laws;
pub mod length;
pub mod limits;
pub mod module;
pub mod number;
pub mod origin;
pub mod outcomes;
pub mod parse;
pub mod plan;
pub mod ready;
pub mod run;
pub mod sockets;
pub mod span;
pub mod text;
pub mod value;
pub mod wasi;
