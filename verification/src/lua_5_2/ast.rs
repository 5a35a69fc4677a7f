//! The syntax tree: statements and expressions of the target language.
//!
//! Names, numbers and string literals are carried as text that is already in
//! the form in which it is to appear in the output.

use vstd::prelude::*;

verus! {

/// One entry of a table constructor: `["key"] = value`.
#[derive(Debug, PartialEq, Eq)]
pub struct InlineTableAssign {
    pub key: String,
    pub value: Expr,
}

/// An expression.
#[derive(Debug, PartialEq, Eq)]
#[allow(inconsistent_fields)]
pub enum Expr {
    Nil,
    /// A numeric literal, as the text to emit.
    Number(String),
    /// A string literal, as the text to emit (quotes and escapes included).
    String(String),
    Bool(bool),
    Var(String),
    TableCons(Vec<InlineTableAssign>),
    TableAccess { expr: Box<Expr>, slot: String },
    ListCons(Vec<Expr>),
    ListAccess { expr: Box<Expr>, index: Box<Expr> },
    FunCall { fun: Box<Expr>, params: Vec<Expr> },
    Lambda { params: Vec<String>, statements: Vec<Statement> },
    /// An explicitly parenthesised expression.
    Paren(Box<Expr>),
    /// A call of a function that the host provides, by its bare name.
    CallSystemFun { fun: String, params: Vec<Expr> },
    /// An infix operator applied to two operands.
    CallBinFun { fun: String, a: Box<Expr>, b: Box<Expr> },
    /// A postfix operator applied to one operand.
    CallUniFun { fun: String, a: Box<Expr> },
}

/// One clause of a conditional: a test and the statements it guards.
#[derive(Debug, PartialEq, Eq)]
pub struct If {
    pub test: Expr,
    pub statements: Vec<Statement>,
}

/// A statement.
#[derive(Debug, PartialEq, Eq)]
#[allow(inconsistent_fields)]
pub enum Statement {
    LocalVarDeclare(String),
    Return(Vec<Expr>),
    Break,
    /// The first clause is the `if`, each later one an `elseif`; an empty
    /// `else_statement` means that there is no `else`.
    If { if_statements: Vec<If>, else_statement: Vec<Statement> },
    AssignVar { vars: Vec<String>, exprs: Vec<Expr> },
    AssignListAccess { target: Expr, index: Expr, new_value: Expr },
    AssignTableAccess { target: Expr, slot: String, new_value: Expr },
    While { test: Expr, statements: Vec<Statement> },
    Repeat { test: Expr, statements: Vec<Statement> },
    For { vars: Vec<String>, iterator: Expr, statements: Vec<Statement> },
    /// A numeric loop; without `increment` the step is 1.
    ForI {
        var: String,
        start: Expr,
        end: Expr,
        increment: Option<Expr>,
        statements: Vec<Statement>,
    },
    FunCall { fun: Expr, params: Vec<Expr> },
    /// A call of a function that the host provides, by its bare name.
    CallSystemFun { fun: String, params: Vec<Expr> },
}

} // verus!
