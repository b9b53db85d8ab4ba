//! A small interpreter for a stack-based, concatenative language with
//! Forth-like symbols, quotations (deferred code blocks), and an
//! extensible table of named builtins.
//!
//! Source text is turned into tokens by [`token::tokenize`], the tokens
//! are resolved into typed runtime values by [`parse::parse`], and the
//! values are executed against a mutable [`context::Context`] by
//! [`eval::eval`].

pub mod builtins;
pub mod context;
pub mod eval;
pub mod laws;
pub mod parse;
pub mod registry;
pub mod token;
pub mod value;

pub use builtins::CoreBuiltins;
pub use context::Context;
pub use context::Env;
pub use context::Stack;
pub use eval::EvalFault;
pub use eval::eval;
pub use parse::parse;
pub use registry::Registry;
pub use token::Error;
pub use token::Token;
pub use token::tokenize;
pub use value::Builtin;
pub use value::Symbol;
pub use value::Value;
