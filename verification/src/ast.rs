use vstd::prelude::*;
use crate::value::{Value, ValueType};

verus! {

/// An expression node. Every child is exclusively owned by its parent:
/// the tree has no sharing and no cycles.
#[derive(Debug)]
pub enum Expr {
    /// A literal value.
    Value(Value),
    /// A variable reference by name.
    VarUse(String),
    /// Binary arithmetic: operator character, left and right operands.
    Binary(char, Box<Expr>, Box<Expr>),
    /// Binary logical or relational condition: operator text, left and
    /// right operands.
    Condition(String, Box<Expr>, Box<Expr>),
    /// A unary prefix operator.
    Unary(char, Box<Expr>),
    /// A call-style invocation: name and ordered argument expressions.
    Functional(String, Vec<Expr>),
    /// A constructor expression: type name and ordered typed arguments.
    /// Parsed, never lowered.
    New(String, Vec<TypedArgument>),
}

/// A name paired with a declared type; used for function parameters,
/// struct fields and constructor arguments.
#[derive(Debug, Clone)]
pub struct TypedArgument {
    pub name: String,
    pub typ: ValueType,
}

/// A statement node.
#[derive(Debug)]
pub enum Stmt {
    /// A variable definition: name, initializer, declared type.
    VarDef(String, Box<Expr>, ValueType),
    /// An assignment to an already-defined name.
    Assign(String, Box<Expr>),
    /// A conditional with an optional else branch.
    If(Box<Expr>, Box<Stmt>, Box<Option<Stmt>>),
    /// An ordered list of statements.
    Block(Vec<Stmt>),
    /// A while loop.
    While(Box<Expr>, Box<Stmt>),
    /// A bare call used for effect.
    Function(Box<Expr>),
    /// A function definition: name, typed parameters, body, return type.
    FunctionDef(String, Vec<TypedArgument>, Box<Stmt>, ValueType),
    /// A return statement.
    Return(Box<Expr>),
    /// A module-use declaration.
    Use(String),
    /// A struct declaration: name and typed fields.
    Struct(String, Vec<TypedArgument>),
}

} // verus!
