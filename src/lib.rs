//! An interpreter for Nhotyp, a small prefix-notation imperative language.
//!
//! Source text is split into lines and words (`lexer`), parsed into a tree
//! of statements (`parser`, `syntax`), and run by a tree-walking evaluator
//! (`interp`) whose every step is proved to follow the big-step meaning given
//! in `semantics`. `driver` runs whole files; `repl` runs an interactive
//! session in which each fed line is absorbed whole or has no effect. `laws`
//! states and proves properties of the whole.

pub mod driver;
pub mod error;
pub mod interp;
pub mod laws;
pub mod lexer;
pub mod numeral;
pub mod parser;
pub mod repl;
pub mod runtime;
pub mod semantics;
pub mod syntax;
pub mod text;
pub mod token;
pub mod value;

pub use driver::{execute_program, exit_code, format_runtime_err, wrap_i64};
pub use error::Error;
pub use parser::parse_node;
pub use repl::Repl;
pub use runtime::Io;
pub use syntax::{Expr, Node, Statement};
pub use token::{Token, is_reserved_kw};
pub use value::Variable;
