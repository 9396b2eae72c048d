//! A small tape machine: eight instructions over a growable tape of bytes.
//!
//! Source text is translated into a program whose loops know where they
//! begin and end (`translator`), and the program is run step by step on a
//! tape (`interpreter`). What a step and a run come to is defined on a
//! mathematical model of the machine (`machine`); which brackets belong
//! together is defined in `nesting`.

pub mod instruction;
pub mod interpreter;
pub mod machine;
pub mod nesting;
pub mod translator;

pub use instruction::Instruction;
pub use interpreter::{Interpreter, Run};
pub use machine::{RuntimeError, Status, Step};
pub use translator::{translate, CompiledCode, TranslateError};
