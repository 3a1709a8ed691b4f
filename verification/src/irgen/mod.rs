pub mod scope;
pub mod number;
pub mod visit;
pub mod cond;
pub mod decl;
pub mod stmt;
pub mod func;
pub mod unit;
