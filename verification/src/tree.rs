//! The front end's syntax tree: expressions, statements and functions.
use crate::frontend::Ty;
use crate::lexer::Token;
use crate::parser::{Field, Pattern};
use vstd::prelude::*;

verus! {

/// An expression with its first token and its nesting depth.
#[derive(Debug)]
pub struct Expr {
    pub at: Token,
    pub kind: ExprKind,
    pub depth: usize,
}

#[derive(Debug)]
pub enum ExprKind {
    /// Parameters with optional annotations, and the body.
    Lambda(Vec<(Token, Option<Ty>)>, Box<ArmBody>),
    Int(i32),
    String(String),
    Bool(bool),
    Name(String),
    Field(Box<Expr>, Token),
    Call(Box<Expr>, Vec<Expr>),
    Unary(String, Box<Expr>),
    Binary(String, Box<Expr>, Box<Expr>),
    Match(Box<Expr>, Vec<Arm>),
    TypeOf(Ty),
    Default(Ty),
    Generic(Box<Expr>, Vec<Ty>),
    Out(Box<Expr>),
    InterfaceCast(Box<Expr>, Ty),
    ArrayLiteral(Vec<Expr>),
    NewArray(Ty, Box<Expr>, Vec<Expr>),
    Index(Box<Expr>, Box<Expr>),
}

/// A match arm.
#[derive(Debug)]
pub struct Arm {
    pub pattern: Pattern,
    pub body: ArmBody,
}

/// The body of a match arm or a lambda.
#[derive(Debug)]
pub enum ArmBody {
    Expression(Expr),
    Block(Vec<Stmt>),
}

#[derive(Debug)]
pub enum Stmt {
    Bind {
        name: Token,
        mutable: bool,
        annotation: Option<Ty>,
        extent: Option<i32>,
        value: Option<Expr>,
    },
    Assign(Expr, Expr),
    Return(Token, Option<Expr>),
    Expression(Expr),
    If(Expr, Vec<Stmt>, Vec<Stmt>),
    While(Expr, Vec<Stmt>),
    Loop(Token, Vec<Stmt>),
    /// The loop variable, start, end, whether the end is included, and the body.
    For(Token, Expr, Expr, bool, Vec<Stmt>),
    Break(Token),
    Continue(Token),
}

/// A source function or method.
#[derive(Debug)]
pub struct Function {
    pub name: Token,
    pub generic_parameters: Vec<String>,
    pub is_static: bool,
    pub base_initializer: Option<Vec<Expr>>,
    pub explicit_interface: Option<String>,
    pub is_virtual: bool,
    pub is_override: bool,
    pub is_abstract: bool,
    pub receiver_readonly: bool,
    pub parameters: Vec<Field>,
    pub returns: Ty,
    pub body: Vec<Stmt>,
}

} // verus!
