//! The language: its expressions, its grammar, and the names that an
//! expression uses.

pub mod ast;
pub mod grammar;
pub mod parser;
pub mod printer;
pub mod roundtrip;
pub mod scope;
