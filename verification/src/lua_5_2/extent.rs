//! Which renderings are empty: no statement's, and an expression's only
//! where the tree carries empty text.

use vstd::prelude::*;
use super::ast::{Expr, Statement};
use super::text::{block_text, expr_text, program_text, statement_text};

verus! {

/// An expression that renders as no text at all: an empty number, string or
/// variable name, with nothing but empty postfix operators behind it.
pub open spec fn blank(expr: Expr) -> bool
    decreases expr,
{
    match expr {
        Expr::Number(literal) => literal@.len() == 0,
        Expr::String(literal) => literal@.len() == 0,
        Expr::Var(name) => name@.len() == 0,
        Expr::CallUniFun { fun, a } => fun@.len() == 0 && blank(*a),
        _ => false,
    }
}

/// The text of an expression is empty exactly where the expression is
/// `blank`; every other expression renders as at least one character.
pub proof fn lemma_expr_text_empty(expr: Expr, depth: nat)
    ensures
        expr_text(expr, depth).len() == 0 <==> blank(expr),
    decreases expr,
{
    reveal_strlit("nil");
    reveal_strlit("true");
    reveal_strlit("false");
    reveal_strlit("{ ");
    reveal_strlit(".");
    reveal_strlit("[ ");
    reveal_strlit("( ");
    reveal_strlit("end");
    reveal_strlit(" ");
    match expr {
        Expr::CallUniFun { fun, a } => {
            lemma_expr_text_empty(*a, depth);
        },
        _ => {},
    }
}

/// Every statement renders as at least one character, whatever it holds and
/// at whatever depth.
pub proof fn lemma_statement_text_nonempty(statement: Statement, depth: nat)
    ensures
        statement_text(statement, depth).len() > 0,
{
    reveal_strlit("local ");
    reveal_strlit("return ");
    reveal_strlit("break");
    reveal_strlit("end");
    reveal_strlit(" = ");
    reveal_strlit("[ ");
    reveal_strlit(".");
    reveal_strlit("until ");
    reveal_strlit("( ");
}

/// Enclosed statements render as no text exactly where there are none.
pub proof fn lemma_block_text_empty(statements: Seq<Statement>, depth: nat)
    ensures
        block_text(statements, depth).len() == 0 <==> statements.len() == 0,
{
    reveal_strlit("\n");
}

/// A program renders as no text exactly where it has no statement.
pub proof fn lemma_program_text_empty(statements: Seq<Statement>)
    ensures
        program_text(statements).len() == 0 <==> statements.len() == 0,
{
    lemma_block_text_empty(statements, 0);
}

} // verus!
