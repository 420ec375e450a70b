//! Pon: a small language whose commands are dispatched by the shape of their
//! words. Text is parsed into a tree of commands; each command's literal words
//! form a key that is looked up in a chain of scopes.
pub mod text;
pub mod syntax;
pub mod position;
pub mod value;
pub mod scope;
pub mod eval;
pub mod interpreter;
pub mod laws;
