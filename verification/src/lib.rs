//! A just-in-time compiler for a small language of arithmetic expressions.
//!
//! A text such as `y = 2; x * y + min(x, 1.5)` is read as an expression,
//! checked for names that nothing defines, lowered into the instructions of
//! the Cranelift code generator and compiled to a function of the machine
//! whose parameters and result are 32-bit floats, or vectors of them.

pub mod function_manager;
pub mod jit;
