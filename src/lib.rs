//! A bytecode compiler and stack machine for a small dynamically typed
//! scripting language: a lazy scanner, a single-pass Pratt compiler that
//! emits into a chunk, and a virtual machine that executes the chunk.
//!
//! Numbers are 64-bit floats. The library carries them as their IEEE-754
//! bit patterns and leaves every floating-point operation (parsing a
//! literal, arithmetic, comparison, formatting) to the host, which the
//! machine asks for each one in turn.

pub mod value;
pub mod chunk;
pub mod error;
pub mod scanner;
pub mod grammar;
pub mod compiler;
pub mod vm;
