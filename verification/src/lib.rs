//! A single-pass bytecode compiler and stack-based virtual machine for a
//! small dynamically typed scripting language in the Lox family.
//!
//! Source text is scanned into tokens, compiled by a Pratt-style
//! expression parser straight into a chunk of bytecode with a constant
//! pool, and executed on a value stack. The scanner is proved to
//! implement `spec_token`, a mathematical description of the lexical
//! grammar; the compiler's contracts pin the opcodes each construct
//! emits and guarantee the emitted code respects the machine's stack
//! discipline; and the machine itself is proved to implement `spec_run`,
//! a step-by-step mathematical description of the bytecode semantics.
//! Numbers are IEEE binary64 values carried as their bit patterns; the
//! arithmetic on them is performed by a software implementation of the
//! same IEEE operations behind trusted wrappers (see `number`).

pub mod chunk;
pub mod compiler;
pub mod number;
pub mod object;
pub mod opcode;
pub mod precedence;
pub mod scanner;
pub mod text;
pub mod token;
pub mod token_type;
pub mod value;
pub mod vm;
