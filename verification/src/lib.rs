//! A desugaring pass for a small expression-oriented language.
//!
//! The parser hands this crate a loose abstract syntax tree (`ast::AST`): it
//! still holds flat juxtapositions (`Form`), surface sugar (multi-argument
//! lambdas, the `|>` composition operator) and macro rule definitions
//! (`Syntax`).  The walker in `transform` expands macros against an ordered,
//! growing rule set and lowers every surface construct, leaving a tight
//! concrete syntax tree (`cst::CST`) in which only primitive constructs
//! remain.  Errors come out as structured `syntax::Syntax` values, each
//! carrying the source span it points at.

pub mod span;
pub mod ast;
pub mod cst;
pub mod syntax;
pub mod rule;
pub mod transform;
pub mod laws;
