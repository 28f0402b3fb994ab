//! An embeddable scripting-language front end and execution engine.
//!
//! Source text runs through four stages: the tokenizer turns it into
//! classified tokens, the statement parser recognises statement forms, the
//! expression compiler flattens expressions by operator precedence, and the
//! stack-machine interpreter executes the resulting instruction sequence
//! against a value stack and a chain of variable scopes.  A host application
//! supplies native callable extensions and file-import resolution through
//! the `Host` trait.
pub mod strings;
pub mod value;
pub mod lexer;
pub mod expr;
pub mod parser;
pub mod interpreter;
pub mod giffiscript;
pub mod laws;
