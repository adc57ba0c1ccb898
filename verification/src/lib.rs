//! An interactive arithmetic expression evaluator with mutable named
//! variables: a line of text is tokenized, parsed as statements, and
//! evaluated against a persistent variable table, one outcome per statement.

pub mod eval;
pub mod token;
pub mod value;
pub mod vars;
