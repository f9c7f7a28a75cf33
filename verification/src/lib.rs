//! A bytecode compiler and stack machine for a small, statically typed language.
//!
//! A typed syntax tree ([`ast`]) is lowered by [`compiler::compile`] into an
//! [`bytecode::Image`]: the chunk of the top-level code and the objects that
//! constant pools refer to.  A [`vm::Vm`] runs an image cycle by cycle and follows
//! the abstract machine of [`machine`] in every cycle.  Floating-point arithmetic
//! is not done here: the machine hands it to its host and takes the result back.
//!
//! Every function carries a contract over a mathematical model of the data it
//! works on.  [`laws`] and [`safety`] state what holds of the compiler and of the
//! machine for every input.

pub mod value;
pub mod bytecode;
pub mod machine;
pub mod vm;
pub mod ast;
pub mod scope;
pub mod compiler;
pub mod laws;
pub mod safety;
