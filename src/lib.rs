//! An embeddable interpreter for a small Lisp: a reader that turns source text
//! into values, a value model shared by syntax and data, and an evaluator that
//! walks a stack of scopes.
//!
//! Every executable function here is verified against a specification: the
//! reader against a token-level stack machine, the evaluator against a
//! depth-indexed big-step semantics (`eval::sem_eval`). Numbers are IEEE-754
//! single-precision values held as bit patterns; their arithmetic is done by
//! `rustc_apfloat`, and tokens are found by `regex`.

pub mod default_env;
pub mod env;
pub mod eval;
pub mod number;
pub mod parse;
pub mod semantics;
pub mod text;
pub mod value;

pub use env::{Env, ToLisp};
pub use eval::{FuncError, FuncResult, Lisp};
pub use parse::{ParseError, ParseResult};
pub use value::{ForeignType, FromLisp, Value};
