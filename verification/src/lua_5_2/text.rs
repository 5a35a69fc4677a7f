//! What the renderer writes: the text of every tree, as a sequence of
//! characters.
//!
//! The functions here are the definition of the output format. The executable
//! renderer is proved to produce exactly these sequences.

use vstd::prelude::*;
use super::ast::{Expr, If, InlineTableAssign, Statement};

verus! {

/// The indentation of a line at nesting level `depth`: four spaces per level.
pub open spec fn indentation(depth: nat) -> Seq<char> {
    Seq::new(4 * depth, |i: int| ' ')
}

/// One level more of indentation is four more spaces.
pub proof fn lemma_indentation_step(depth: nat)
    ensures
        indentation(depth + 1) == indentation(depth) + "    "@,
        indentation(0) == Seq::<char>::empty(),
{
    reveal_strlit("    ");
    assert(indentation(depth + 1) =~= indentation(depth) + "    "@);
    assert(indentation(0) =~= Seq::<char>::empty());
}

/// Text put together from three parts is the same text however the parts are
/// grouped.
pub broadcast proof fn lemma_concat_assoc(a: Seq<char>, b: Seq<char>, c: Seq<char>)
    ensures
        #[trigger] ((a + b) + c) == a + (b + c),
{
    assert((a + b) + c =~= a + (b + c));
}

/// Names in order, separated by a comma and a space.
pub open spec fn names_text(names: Seq<String>) -> Seq<char>
    decreases names.len(),
{
    if names.len() == 0 {
        Seq::empty()
    } else if names.len() == 1 {
        names[0]@
    } else {
        names_text(names.drop_last()) + ", "@ + names.last()@
    }
}

/// An expression. It neither starts nor ends a line of its own; only the body
/// of a function literal brings line breaks into it.
pub open spec fn expr_text(expr: Expr, depth: nat) -> Seq<char>
    decreases expr,
{
    match expr {
        Expr::Nil => "nil"@,
        Expr::Number(literal) => literal@,
        Expr::String(literal) => literal@,
        Expr::Bool(value) => if value {
            "true"@
        } else {
            "false"@
        },
        Expr::Var(name) => name@,
        Expr::TableCons(entries) => "{ "@ + entries_text(entries@, depth) + " }"@,
        Expr::TableAccess { expr, slot } => expr_text(*expr, depth) + "."@ + slot@,
        Expr::ListCons(items) => "{ "@ + list_text(items@, depth) + " }"@,
        Expr::ListAccess { expr, index } => expr_text(*expr, depth) + "[ "@ + expr_text(
            *index,
            depth,
        ) + " ]"@,
        Expr::FunCall { fun, params } => expr_text(*fun, depth) + "( "@ + list_text(
            params@,
            depth,
        ) + " )"@,
        Expr::Lambda { params, statements } => "function ("@ + names_text(params@) + ") "@
            + block_text(statements@, depth + 1) + indentation(depth) + "end"@,
        Expr::Paren(inner) => "( "@ + expr_text(*inner, depth) + " )"@,
        Expr::CallSystemFun { fun, params } => fun@ + "( "@ + list_text(params@, depth) + " )"@,
        Expr::CallBinFun { fun, a, b } => expr_text(*a, depth) + " "@ + fun@ + " "@ + expr_text(
            *b,
            depth,
        ),
        Expr::CallUniFun { fun, a } => expr_text(*a, depth) + fun@,
    }
}

/// Expressions in order, separated by a comma and a space.
pub open spec fn list_text(exprs: Seq<Expr>, depth: nat) -> Seq<char>
    decreases exprs,
{
    if exprs.len() == 0 {
        Seq::empty()
    } else if exprs.len() == 1 {
        expr_text(exprs[0], depth)
    } else {
        list_text(exprs.drop_last(), depth) + ", "@ + expr_text(exprs.last(), depth)
    }
}

/// One entry of a table constructor: the key in brackets and quotes, then the
/// value.
pub open spec fn entry_text(entry: InlineTableAssign, depth: nat) -> Seq<char>
    decreases entry,
{
    "[\""@ + entry.key@ + "\"] = "@ + expr_text(entry.value, depth)
}

/// The entries of a table constructor in order, separated by a semicolon and a
/// space.
pub open spec fn entries_text(entries: Seq<InlineTableAssign>, depth: nat) -> Seq<char>
    decreases entries,
{
    if entries.len() == 0 {
        Seq::empty()
    } else if entries.len() == 1 {
        entry_text(entries[0], depth)
    } else {
        entries_text(entries.drop_last(), depth) + "; "@ + entry_text(entries.last(), depth)
    }
}

/// A statement at nesting level `depth`. It starts with the indentation of its
/// level and does not end with a line break; what it encloses lies one level
/// deeper.
pub open spec fn statement_text(statement: Statement, depth: nat) -> Seq<char>
    decreases statement,
{
    match statement {
        Statement::LocalVarDeclare(name) => indentation(depth) + "local "@ + name@,
        Statement::Return(exprs) => indentation(depth) + "return "@ + list_text(exprs@, depth),
        Statement::Break => indentation(depth) + "break"@,
        Statement::If { if_statements, else_statement } => clauses_text(if_statements@, depth)
            + else_text(else_statement, depth) + indentation(depth) + "end"@,
        Statement::AssignVar { vars, exprs } => indentation(depth) + names_text(vars@) + " = "@
            + list_text(exprs@, depth),
        Statement::AssignListAccess { target, index, new_value } => indentation(depth)
            + expr_text(target, depth) + "[ "@ + expr_text(index, depth) + " ] = "@ + expr_text(
            new_value,
            depth,
        ),
        Statement::AssignTableAccess { target, slot, new_value } => indentation(depth)
            + expr_text(target, depth) + "."@ + slot@ + " = "@ + expr_text(new_value, depth),
        Statement::While { test, statements } => indentation(depth) + "while "@ + expr_text(
            test,
            depth,
        ) + " do\n"@ + block_text(statements@, depth + 1) + indentation(depth) + "end"@,
        Statement::Repeat { test, statements } => indentation(depth) + "repeat\n"@ + block_text(
            statements@,
            depth + 1,
        ) + indentation(depth) + "until "@ + expr_text(test, depth),
        Statement::For { vars, iterator, statements } => indentation(depth) + "for "@
            + names_text(vars@) + " in "@ + expr_text(iterator, depth) + " do\n"@ + block_text(
            statements@,
            depth + 1,
        ) + indentation(depth) + "end"@,
        Statement::ForI { var, start, end, increment, statements } => indentation(depth) + "for "@
            + var@ + " = "@ + expr_text(start, depth) + ", "@ + expr_text(end, depth) + ", "@
            + step_text(increment, depth) + " do\n"@ + block_text(statements@, depth + 1)
            + indentation(depth) + "end"@,
        Statement::FunCall { fun, params } => indentation(depth) + expr_text(fun, depth) + "( "@
            + list_text(params@, depth) + " )"@,
        Statement::CallSystemFun { fun, params } => indentation(depth) + fun@ + "( "@ + list_text(
            params@,
            depth,
        ) + " )"@,
    }
}

/// The step of a numeric loop: the expression given, or `1` where none is.
pub open spec fn step_text(increment: Option<Expr>, depth: nat) -> Seq<char>
    decreases increment,
{
    match increment {
        Some(step) => expr_text(step, depth),
        None => "1"@,
    }
}

/// Statements enclosed at nesting level `depth`: each one on lines of its own,
/// so each one followed by a line break, the last one too.
pub open spec fn block_text(statements: Seq<Statement>, depth: nat) -> Seq<char>
    decreases statements,
{
    if statements.len() == 0 {
        Seq::empty()
    } else {
        block_text(statements.drop_last(), depth) + statement_text(statements.last(), depth)
            + "\n"@
    }
}

/// What follows the keyword of a clause of a conditional: the test, `then`,
/// and the guarded statements one level deeper than the conditional.
pub open spec fn if_text(clause: If, depth: nat) -> Seq<char>
    decreases clause,
{
    expr_text(clause.test, depth) + " then\n"@ + block_text(clause.statements@, depth + 1)
}

/// The clauses of a conditional at nesting level `depth`: the first under
/// `if`, every later one under `elseif`, each keyword at the level of the
/// conditional itself.
pub open spec fn clauses_text(clauses: Seq<If>, depth: nat) -> Seq<char>
    decreases clauses,
{
    if clauses.len() == 0 {
        Seq::empty()
    } else if clauses.len() == 1 {
        indentation(depth) + "if "@ + if_text(clauses[0], depth)
    } else {
        clauses_text(clauses.drop_last(), depth) + indentation(depth) + "elseif "@ + if_text(
            clauses.last(),
            depth,
        )
    }
}

/// The `else` of a conditional at nesting level `depth`: nothing at all where
/// there are no statements for it.
pub open spec fn else_text(statements: Vec<Statement>, depth: nat) -> Seq<char>
    decreases statements,
{
    if statements@.len() == 0 {
        Seq::empty()
    } else {
        indentation(depth) + "else\n"@ + block_text(statements@, depth + 1)
    }
}

/// A whole program: its statements at nesting level 0, each followed by one
/// line break.
pub open spec fn program_text(statements: Seq<Statement>) -> Seq<char> {
    block_text(statements, 0)
}

} // verus!
