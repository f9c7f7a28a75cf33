//! The checked syntax tree that the compiler takes.
//!
//! The tree has been typed before it gets here: every expression carries the type
//! that was resolved for it, and every node carries the source line it came from.

use vstd::prelude::*;
use crate::bytecode::{ArithOp, Relation};

verus! {

/// The resolved type of an expression.
#[derive(Clone, Copy, PartialEq, Eq, Structural, Debug)]
pub enum Ty {
    Unit,
    Bool,
    Int,
    Float,
    Str,
    Function,
    Struct,
}

#[derive(Clone, Copy, PartialEq, Eq, Structural, Debug)]
pub enum UnaryOp {
    Neg,
    Not,
}

#[derive(Clone, Copy, PartialEq, Eq, Structural, Debug)]
pub enum BinaryOp {
    Arith(ArithOp),
    Compare(Relation),
}

#[derive(PartialEq, Eq, Debug)]
pub struct Expr {
    pub kind: ExprKind,
    pub ty: Ty,
    pub line: u32,
}

#[derive(PartialEq, Eq, Debug)]
pub enum ExprKind {
    Unit,
    Bool(bool),
    Int(i64),
    /// A float literal, as its IEEE-754 bit pattern.
    Float(u64),
    Str(String),
    /// A reference to a variable.
    Var(String),
    Unary(UnaryOp, Box<Expr>),
    Binary(BinaryOp, Box<Expr>, Box<Expr>),
    Call(Box<Expr>, Vec<Expr>),
    /// A function literal.
    Lambda(Box<Function>),
    /// An aggregate built from the values of its fields.
    Aggregate(Vec<Expr>),
    Index(Box<Expr>, Box<Expr>),
}

#[derive(PartialEq, Eq, Debug)]
pub struct Function {
    pub name: String,
    pub params: Vec<String>,
    pub body: Vec<Stmt>,
    pub line: u32,
}

#[derive(PartialEq, Eq, Debug)]
pub enum Stmt {
    Let { name: String, init: Expr, line: u32 },
    Assign { name: String, value: Expr, line: u32 },
    Expr(Expr),
    If { cond: Expr, consequent: Vec<Stmt>, alternative: Vec<Stmt>, line: u32 },
    While { cond: Expr, body: Vec<Stmt>, line: u32 },
    Break { line: u32 },
    Continue { line: u32 },
    Return { result: Option<Expr>, line: u32 },
    Block { body: Vec<Stmt>, line: u32 },
    /// A named function: a local bound to the closure of the function.
    Fn(Function),
}

/// A whole program: the statements of its top level.
#[derive(PartialEq, Eq, Debug)]
pub struct TypedProgram {
    pub body: Vec<Stmt>,
}

} // verus!
