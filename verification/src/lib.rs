//! A tree-walking interpreter for a small dynamically typed scripting language.
//!
//! Source text is scanned into tokens ([`scanner`]), tokens are parsed into
//! statements ([`grammar`], [`parser`]), and statements are run by a machine
//! ([`machine`], [`runner`]) that hands every piece of work it cannot do
//! itself, printing and arithmetic on doubles, to its host as a request.
//!
//! What a program means is said once more in one piece ([`meaning`]), and the
//! machine is proved to agree with it ([`agreement`]). [`written`] proves that
//! the parser reads back what the grammar writes; [`laws`] holds what else is
//! proved of every program.

pub mod status;
pub mod text;
pub mod token;
pub mod scanner;
pub mod ast;
pub mod grammar;
pub mod parser;
pub mod written;
pub mod render;
pub mod interpreter;
pub mod value;
pub mod error;
pub mod env;
pub mod machine;
pub mod runner;
pub mod meaning;
pub mod agreement;
pub mod laws;
