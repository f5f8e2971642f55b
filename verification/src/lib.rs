//! A bytecode compiler and stack virtual machine for a small expression
//! language: a scanner turns source bytes into tokens, a precedence-climbing
//! compiler emits bytecode into a `Chunk`, and a stack machine executes the
//! chunk with dynamic type checks.
//!
//! Numbers of the language are IEEE-754 doubles. Inside this crate a number
//! is carried as the 64 bits of its encoding; the arithmetic itself is done
//! by the `rustc_apfloat` software implementation behind the trusted
//! wrappers in `number`.

pub mod chunk;
pub mod compiler;
pub mod debug;
pub mod number;
pub mod object;
pub mod scanner;
pub mod value;
pub mod vm;
