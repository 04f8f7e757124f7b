//! The lexical and semantic core of a units-aware arithmetic language:
//! tokens and a lexer, AST nodes, and an algebra of physical units and of
//! quantities that carry them.

pub mod decimal;
pub mod laws;
pub mod lexer;
pub mod node;
pub mod quantity;
pub mod token;
pub mod unit;
