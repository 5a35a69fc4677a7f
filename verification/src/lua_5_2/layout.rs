//! The indentation of a rendering, line by line.
//!
//! A tree is unbroken where no text that it carries (a name, a literal, an
//! operator, a key) holds a line break. Of the rendering of such a tree this
//! module proves that every line begins with the indentation of the nesting
//! level at which it was written, and that a statement which encloses blocks
//! opens and closes at its own level.

use vstd::prelude::*;
use super::ast::{Expr, If, InlineTableAssign, Statement};
use super::conditional::{lemma_block_text_ends_line, lemma_if_text_ends_line};
use super::extent::lemma_statement_text_nonempty;
use super::lines::{
    begins_line, breaks_indented, fits_line, indented_exactly, lemma_begins_line_concat,
    lemma_breaks_indented_concat, lemma_line_end_breaks, lemma_margin_concat, lemma_narrower,
    lemma_open_ended_concat, lemma_single_line_concat, lemma_single_line_fits,
    lemma_starts_with_concat, line_end,
    line_start, lines_indented, margin_at, occurs_at, single_line, starts_with,
};
use super::text::{
    block_text, clauses_text, else_text, entries_text, entry_text, expr_text, if_text,
    indentation, lemma_concat_assoc, list_text, names_text, statement_text, step_text,
};

verus! {

/// None of the names holds a line break.
pub open spec fn unbroken_names(names: Seq<String>) -> bool {
    forall|i: int| 0 <= i < names.len() ==> single_line(#[trigger] names[i]@)
}

/// No text that the expression carries holds a line break.
pub open spec fn unbroken_expr(expr: Expr) -> bool
    decreases expr,
{
    match expr {
        Expr::Nil => true,
        Expr::Number(literal) => single_line(literal@),
        Expr::String(literal) => single_line(literal@),
        Expr::Bool(_) => true,
        Expr::Var(name) => single_line(name@),
        Expr::TableCons(entries) => unbroken_entries(entries@),
        Expr::TableAccess { expr, slot } => unbroken_expr(*expr) && single_line(slot@),
        Expr::ListCons(items) => unbroken_exprs(items@),
        Expr::ListAccess { expr, index } => unbroken_expr(*expr) && unbroken_expr(*index),
        Expr::FunCall { fun, params } => unbroken_expr(*fun) && unbroken_exprs(params@),
        Expr::Lambda { params, statements } => unbroken_names(params@) && unbroken_statements(
            statements@,
        ),
        Expr::Paren(inner) => unbroken_expr(*inner),
        Expr::CallSystemFun { fun, params } => single_line(fun@) && unbroken_exprs(params@),
        Expr::CallBinFun { fun, a, b } => single_line(fun@) && unbroken_expr(*a) && unbroken_expr(
            *b,
        ),
        Expr::CallUniFun { fun, a } => single_line(fun@) && unbroken_expr(*a),
    }
}

/// No text that one of the expressions carries holds a line break.
pub open spec fn unbroken_exprs(exprs: Seq<Expr>) -> bool
    decreases exprs,
{
    forall|i: int| 0 <= i < exprs.len() ==> unbroken_expr(#[trigger] exprs[i])
}

/// No key and no value of the table entries holds a line break.
pub open spec fn unbroken_entries(entries: Seq<InlineTableAssign>) -> bool
    decreases entries,
{
    forall|i: int|
        0 <= i < entries.len() ==> single_line((#[trigger] entries[i]).key@) && unbroken_expr(
            entries[i].value,
        )
}

/// No text that the statement carries holds a line break.
pub open spec fn unbroken_statement(statement: Statement) -> bool
    decreases statement,
{
    match statement {
        Statement::LocalVarDeclare(name) => single_line(name@),
        Statement::Return(exprs) => unbroken_exprs(exprs@),
        Statement::Break => true,
        Statement::If { if_statements, else_statement } => unbroken_clauses(if_statements@)
            && unbroken_statements(else_statement@),
        Statement::AssignVar { vars, exprs } => unbroken_names(vars@) && unbroken_exprs(exprs@),
        Statement::AssignListAccess { target, index, new_value } => unbroken_expr(target)
            && unbroken_expr(index) && unbroken_expr(new_value),
        Statement::AssignTableAccess { target, slot, new_value } => unbroken_expr(target)
            && single_line(slot@) && unbroken_expr(new_value),
        Statement::While { test, statements } => unbroken_expr(test) && unbroken_statements(
            statements@,
        ),
        Statement::Repeat { test, statements } => unbroken_expr(test) && unbroken_statements(
            statements@,
        ),
        Statement::For { vars, iterator, statements } => unbroken_names(vars@) && unbroken_expr(
            iterator,
        ) && unbroken_statements(statements@),
        Statement::ForI { var, start, end, increment, statements } => single_line(var@)
            && unbroken_expr(start) && unbroken_expr(end) && (match increment {
            Some(step) => unbroken_expr(step),
            None => true,
        }) && unbroken_statements(statements@),
        Statement::FunCall { fun, params } => unbroken_expr(fun) && unbroken_exprs(params@),
        Statement::CallSystemFun { fun, params } => single_line(fun@) && unbroken_exprs(params@),
    }
}

/// No text that one of the statements carries holds a line break.
pub open spec fn unbroken_statements(statements: Seq<Statement>) -> bool
    decreases statements,
{
    forall|i: int| 0 <= i < statements.len() ==> unbroken_statement(#[trigger] statements[i])
}

/// No text that one of the clauses carries holds a line break.
pub open spec fn unbroken_clauses(clauses: Seq<If>) -> bool
    decreases clauses,
{
    forall|i: int|
        0 <= i < clauses.len() ==> unbroken_expr((#[trigger] clauses[i]).test)
            && unbroken_statements(clauses[i].statements@)
}

/// Names separated by commas hold no line break where no name does.
proof fn lemma_names_single_line(names: Seq<String>)
    requires
        unbroken_names(names),
    ensures
        single_line(names_text(names)),
    decreases names.len(),
{
    reveal_strlit(", ");
    if names.len() >= 2 {
        lemma_names_single_line(names.drop_last());
        assert(single_line(names.last()@));
    } else if names.len() == 1 {
        assert(single_line(names[0]@));
    }
}

/// The indentation of a level is that many spaces and nothing else.
proof fn lemma_indentation_margin(depth: nat)
    ensures
        single_line(indentation(depth)),
        margin_at(indentation(depth), 0, 4 * depth),
        indentation(depth).len() == 4 * depth,
{
}

/// The fixed words of an expression hold no line break.
proof fn lemma_expr_words()
    ensures
        single_line("nil"@),
        single_line("true"@),
        single_line("false"@),
        single_line("{ "@),
        single_line(" }"@),
        single_line("."@),
        single_line("[ "@),
        single_line(" ]"@),
        single_line("( "@),
        single_line(" )"@),
        single_line("function ("@),
        single_line(") "@),
        single_line("end"@),
        single_line(" "@),
        single_line(", "@),
        single_line("; "@),
        single_line("[\""@),
        single_line("\"] = "@),
        "end"@.len() > 0,
{
    reveal_strlit("nil");
    reveal_strlit("true");
    reveal_strlit("false");
    reveal_strlit("{ ");
    reveal_strlit(" }");
    reveal_strlit(".");
    reveal_strlit("[ ");
    reveal_strlit(" ]");
    reveal_strlit("( ");
    reveal_strlit(" )");
    reveal_strlit("function (");
    reveal_strlit(") ");
    reveal_strlit("end");
    reveal_strlit(" ");
    reveal_strlit(", ");
    reveal_strlit("; ");
    reveal_strlit("[\"");
    reveal_strlit("\"] = ");
}

/// The fixed words of a statement hold no line break, but for those that end
/// a line.
proof fn lemma_statement_words()
    ensures
        single_line("local "@),
        single_line("return "@),
        single_line("break"@),
        single_line("end"@),
        single_line(" = "@),
        single_line("[ "@),
        single_line(" ] = "@),
        single_line("."@),
        single_line("while "@),
        single_line("until "@),
        single_line("for "@),
        single_line(" in "@),
        single_line(", "@),
        single_line("1"@),
        single_line("( "@),
        single_line(" )"@),
        single_line("if "@),
        single_line("elseif "@),
        line_end(" do\n"@),
        line_end("repeat\n"@),
        line_end(" then\n"@),
        line_end("else\n"@),
        line_end("\n"@),
        "end"@.len() > 0,
        "if "@.len() > 0,
        "elseif "@.len() > 0,
        "until "@.len() > 0,
{
    reveal_strlit("local ");
    reveal_strlit("return ");
    reveal_strlit("break");
    reveal_strlit("end");
    reveal_strlit(" = ");
    reveal_strlit("[ ");
    reveal_strlit(" ] = ");
    reveal_strlit(".");
    reveal_strlit("while ");
    reveal_strlit("until ");
    reveal_strlit("for ");
    reveal_strlit(" in ");
    reveal_strlit(", ");
    reveal_strlit("1");
    reveal_strlit("( ");
    reveal_strlit(" )");
    reveal_strlit("if ");
    reveal_strlit("elseif ");
    reveal_strlit(" do\n");
    reveal_strlit("repeat\n");
    reveal_strlit(" then\n");
    reveal_strlit("else\n");
    reveal_strlit("\n");
}

/// The text of an unbroken expression can stand inside a line at the
/// indentation of its nesting level.
pub proof fn lemma_expr_fits_line(expr: Expr, depth: nat)
    requires
        unbroken_expr(expr),
    ensures
        fits_line(expr_text(expr, depth), 4 * depth),
    decreases expr, 0nat,
{
    broadcast use {
        lemma_single_line_fits,
        lemma_breaks_indented_concat,
        lemma_open_ended_concat,
        lemma_margin_concat,
    };

    lemma_expr_words();
    lemma_indentation_margin(depth);
    match expr {
        Expr::TableCons(entries) => {
            lemma_entries_fits_line(entries@, depth);
        },
        Expr::TableAccess { expr, slot } => {
            lemma_expr_fits_line(*expr, depth);
        },
        Expr::ListCons(items) => {
            lemma_list_fits_line(items@, depth);
        },
        Expr::ListAccess { expr, index } => {
            lemma_expr_fits_line(*expr, depth);
            lemma_expr_fits_line(*index, depth);
        },
        Expr::FunCall { fun, params } => {
            lemma_expr_fits_line(*fun, depth);
            lemma_list_fits_line(params@, depth);
        },
        Expr::Lambda { params, statements } => {
            lemma_names_single_line(params@);
            lemma_block_lines(statements@, depth + 1);
            lemma_narrower(block_text(statements@, depth + 1), 4 * (depth + 1), 4 * depth);
        },
        Expr::Paren(inner) => {
            lemma_expr_fits_line(*inner, depth);
        },
        Expr::CallSystemFun { fun, params } => {
            lemma_list_fits_line(params@, depth);
        },
        Expr::CallBinFun { fun, a, b } => {
            lemma_expr_fits_line(*a, depth);
            lemma_expr_fits_line(*b, depth);
        },
        Expr::CallUniFun { fun, a } => {
            lemma_expr_fits_line(*a, depth);
        },
        _ => {},
    }
}

/// An expression without a function literal in it, at whatever place.
pub open spec fn lambda_free(expr: Expr) -> bool
    decreases expr,
{
    match expr {
        Expr::TableCons(entries) => forall|i: int|
            0 <= i < entries@.len() ==> lambda_free((#[trigger] entries@[i]).value),
        Expr::TableAccess { expr, .. } => lambda_free(*expr),
        Expr::ListCons(items) => lambdas_free(items@),
        Expr::ListAccess { expr, index } => lambda_free(*expr) && lambda_free(*index),
        Expr::FunCall { fun, params } => lambda_free(*fun) && lambdas_free(params@),
        Expr::Lambda { .. } => false,
        Expr::Paren(inner) => lambda_free(*inner),
        Expr::CallSystemFun { params, .. } => lambdas_free(params@),
        Expr::CallBinFun { a, b, .. } => lambda_free(*a) && lambda_free(*b),
        Expr::CallUniFun { a, .. } => lambda_free(*a),
        _ => true,
    }
}

/// Expressions without a function literal in any of them.
pub open spec fn lambdas_free(exprs: Seq<Expr>) -> bool
    decreases exprs,
{
    forall|i: int| 0 <= i < exprs.len() ==> lambda_free(#[trigger] exprs[i])
}

/// An unbroken expression without a function literal renders on one line:
/// only the statements of a function literal bring line breaks into the text
/// of an expression.
pub proof fn lemma_expr_single_line(expr: Expr, depth: nat)
    requires
        unbroken_expr(expr),
        lambda_free(expr),
    ensures
        single_line(expr_text(expr, depth)),
    decreases expr,
{
    broadcast use lemma_single_line_concat;

    lemma_expr_words();
    match expr {
        Expr::TableCons(entries) => {
            lemma_entries_single_line(entries@, depth);
        },
        Expr::TableAccess { expr, slot } => {
            lemma_expr_single_line(*expr, depth);
        },
        Expr::ListCons(items) => {
            lemma_list_single_line(items@, depth);
        },
        Expr::ListAccess { expr, index } => {
            lemma_expr_single_line(*expr, depth);
            lemma_expr_single_line(*index, depth);
        },
        Expr::FunCall { fun, params } => {
            lemma_expr_single_line(*fun, depth);
            lemma_list_single_line(params@, depth);
        },
        Expr::Paren(inner) => {
            lemma_expr_single_line(*inner, depth);
        },
        Expr::CallSystemFun { fun, params } => {
            lemma_list_single_line(params@, depth);
        },
        Expr::CallBinFun { fun, a, b } => {
            lemma_expr_single_line(*a, depth);
            lemma_expr_single_line(*b, depth);
        },
        Expr::CallUniFun { fun, a } => {
            lemma_expr_single_line(*a, depth);
        },
        _ => {},
    }
}

/// A list of unbroken expressions without a function literal renders on one
/// line.
proof fn lemma_list_single_line(exprs: Seq<Expr>, depth: nat)
    requires
        unbroken_exprs(exprs),
        lambdas_free(exprs),
    ensures
        single_line(list_text(exprs, depth)),
    decreases exprs,
{
    broadcast use lemma_single_line_concat;

    lemma_expr_words();
    if exprs.len() == 1 {
        lemma_expr_single_line(exprs[0], depth);
    } else if exprs.len() >= 2 {
        assert forall|i: int| 0 <= i < exprs.drop_last().len() implies unbroken_expr(
            #[trigger] exprs.drop_last()[i],
        ) && lambda_free(exprs.drop_last()[i]) by {
            assert(unbroken_expr(exprs[i]) && lambda_free(exprs[i]));
        }
        lemma_list_single_line(exprs.drop_last(), depth);
        lemma_expr_single_line(exprs.last(), depth);
    }
}

/// The entries of a table, unbroken and without a function literal, render
/// on one line.
proof fn lemma_entries_single_line(entries: Seq<InlineTableAssign>, depth: nat)
    requires
        unbroken_entries(entries),
        forall|i: int| 0 <= i < entries.len() ==> lambda_free((#[trigger] entries[i]).value),
    ensures
        single_line(entries_text(entries, depth)),
    decreases entries,
{
    broadcast use lemma_single_line_concat;

    lemma_expr_words();
    if entries.len() == 1 {
        assert(single_line(entries[0].key@) && lambda_free(entries[0].value));
        lemma_expr_single_line(entries[0].value, depth);
        assert(single_line(entry_text(entries[0], depth)));
    } else if entries.len() >= 2 {
        assert forall|i: int| 0 <= i < entries.drop_last().len() implies single_line(
            (#[trigger] entries.drop_last()[i]).key@,
        ) && unbroken_expr(entries.drop_last()[i].value) && lambda_free(
            entries.drop_last()[i].value,
        ) by {
            assert(single_line(entries[i].key@) && lambda_free(entries[i].value));
        }
        lemma_entries_single_line(entries.drop_last(), depth);
        assert(single_line(entries.last().key@) && lambda_free(entries.last().value));
        lemma_expr_single_line(entries.last().value, depth);
        assert(single_line(entry_text(entries.last(), depth)));
    }
}

/// A list of unbroken expressions can stand inside a line at the indentation
/// of its nesting level.
proof fn lemma_list_fits_line(exprs: Seq<Expr>, depth: nat)
    requires
        unbroken_exprs(exprs),
    ensures
        fits_line(list_text(exprs, depth), 4 * depth),
    decreases exprs, 0nat,
{
    broadcast use {
        lemma_single_line_fits,
        lemma_breaks_indented_concat,
        lemma_open_ended_concat,
    };

    lemma_expr_words();
    if exprs.len() == 1 {
        lemma_expr_fits_line(exprs[0], depth);
    } else if exprs.len() >= 2 {
        assert forall|i: int| 0 <= i < exprs.drop_last().len() implies unbroken_expr(
            #[trigger] exprs.drop_last()[i],
        ) by {
            assert(unbroken_expr(exprs[i]));
        }
        lemma_list_fits_line(exprs.drop_last(), depth);
        lemma_expr_fits_line(exprs.last(), depth);
    }
}

/// The entries of a table, all unbroken, can stand inside a line at the
/// indentation of their nesting level.
proof fn lemma_entries_fits_line(entries: Seq<InlineTableAssign>, depth: nat)
    requires
        unbroken_entries(entries),
    ensures
        fits_line(entries_text(entries, depth), 4 * depth),
    decreases entries, 0nat,
{
    broadcast use {
        lemma_single_line_fits,
        lemma_breaks_indented_concat,
        lemma_open_ended_concat,
    };

    lemma_expr_words();
    if entries.len() == 1 {
        assert(single_line(entries[0].key@));
        lemma_expr_fits_line(entries[0].value, depth);
        assert(fits_line(entry_text(entries[0], depth), 4 * depth));
    } else if entries.len() >= 2 {
        assert forall|i: int| 0 <= i < entries.drop_last().len() implies single_line(
            (#[trigger] entries.drop_last()[i]).key@,
        ) && unbroken_expr(entries.drop_last()[i].value) by {
            assert(single_line(entries[i].key@));
        }
        lemma_entries_fits_line(entries.drop_last(), depth);
        assert(single_line(entries.last().key@));
        lemma_expr_fits_line(entries.last().value, depth);
        assert(fits_line(entry_text(entries.last(), depth), 4 * depth));
    }
}

/// Unbroken statements that a block encloses: every line break with text
/// after it is followed by the indentation of the block, and so is the start
/// of the text; the text ends with a line break.
proof fn lemma_block_lines(statements: Seq<Statement>, depth: nat)
    requires
        unbroken_statements(statements),
    ensures
        breaks_indented(block_text(statements, depth), 4 * depth),
        statements.len() > 0 ==> margin_at(block_text(statements, depth), 0, 4 * depth),
        statements.len() > 0 ==> block_text(statements, depth).last() == '\n',
        statements.len() == 0 ==> block_text(statements, depth).len() == 0,
    decreases statements, 0nat,
{
    broadcast use {
        lemma_line_end_breaks,
        lemma_breaks_indented_concat,
        lemma_open_ended_concat,
        lemma_margin_concat,
    };

    lemma_statement_words();
    if statements.len() > 0 {
        assert forall|i: int| 0 <= i < statements.drop_last().len() implies unbroken_statement(
            #[trigger] statements.drop_last()[i],
        ) by {
            assert(unbroken_statement(statements[i]));
        }
        lemma_block_lines(statements.drop_last(), depth);
        lemma_statement_lines(statements.last(), depth);
        lemma_statement_text_nonempty(statements.last(), depth);
    }
}

/// What follows the keyword of an unbroken clause: every line break with text
/// after it is followed by the indentation of the conditional, and the text
/// ends with a line break.
proof fn lemma_if_lines(clause: If, depth: nat)
    requires
        unbroken_expr(clause.test),
        unbroken_statements(clause.statements@),
    ensures
        breaks_indented(if_text(clause, depth), 4 * depth),
        if_text(clause, depth).len() > 0,
        if_text(clause, depth).last() == '\n',
    decreases clause, 0nat,
{
    broadcast use {
        lemma_line_end_breaks,
        lemma_breaks_indented_concat,
        lemma_open_ended_concat,
    };

    lemma_statement_words();
    lemma_expr_fits_line(clause.test, depth);
    lemma_block_lines(clause.statements@, depth + 1);
    lemma_narrower(block_text(clause.statements@, depth + 1), 4 * (depth + 1), 4 * depth);
}

/// The clauses of an unbroken conditional: every line break with text after
/// it is followed by the indentation of the conditional, and so is the start
/// of the text; the text ends with a line break.
proof fn lemma_clauses_lines(clauses: Seq<If>, depth: nat)
    requires
        unbroken_clauses(clauses),
    ensures
        breaks_indented(clauses_text(clauses, depth), 4 * depth),
        clauses.len() > 0 ==> margin_at(clauses_text(clauses, depth), 0, 4 * depth),
        clauses.len() > 0 ==> clauses_text(clauses, depth).last() == '\n',
        clauses.len() == 0 ==> clauses_text(clauses, depth).len() == 0,
    decreases clauses, 0nat,
{
    broadcast use {
        lemma_single_line_fits,
        lemma_breaks_indented_concat,
        lemma_open_ended_concat,
        lemma_margin_concat,
    };

    lemma_statement_words();
    lemma_indentation_margin(depth);
    if clauses.len() == 1 {
        assert(unbroken_expr(clauses[0].test));
        lemma_if_lines(clauses[0], depth);
    } else if clauses.len() >= 2 {
        assert forall|i: int| 0 <= i < clauses.drop_last().len() implies unbroken_expr(
            (#[trigger] clauses.drop_last()[i]).test,
        ) && unbroken_statements(clauses.drop_last()[i].statements@) by {
            assert(unbroken_expr(clauses[i].test));
        }
        lemma_clauses_lines(clauses.drop_last(), depth);
        assert(unbroken_expr(clauses.last().test));
        lemma_if_lines(clauses.last(), depth);
    }
}

/// A statement that encloses no block of its own.
spec fn flat(statement: Statement) -> bool {
    match statement {
        Statement::If { .. } => false,
        Statement::While { .. } => false,
        Statement::Repeat { .. } => false,
        Statement::For { .. } => false,
        Statement::ForI { .. } => false,
        _ => true,
    }
}

/// The lines of an unbroken statement that encloses no block of its own.
proof fn lemma_flat_lines(statement: Statement, depth: nat)
    requires
        unbroken_statement(statement),
        flat(statement),
    ensures
        fits_line(statement_text(statement, depth), 4 * depth),
        margin_at(statement_text(statement, depth), 0, 4 * depth),
    decreases statement, 0nat,
{
    broadcast use {
        lemma_single_line_fits,
        lemma_breaks_indented_concat,
        lemma_open_ended_concat,
        lemma_margin_concat,
    };

    lemma_statement_words();
    lemma_indentation_margin(depth);
    match statement {
        Statement::Return(exprs) => {
            lemma_list_fits_line(exprs@, depth);
        },
        Statement::AssignVar { vars, exprs } => {
            lemma_names_single_line(vars@);
            lemma_list_fits_line(exprs@, depth);
        },
        Statement::AssignListAccess { target, index, new_value } => {
            lemma_expr_fits_line(target, depth);
            lemma_expr_fits_line(index, depth);
            lemma_expr_fits_line(new_value, depth);
        },
        Statement::AssignTableAccess { target, slot, new_value } => {
            lemma_expr_fits_line(target, depth);
            lemma_expr_fits_line(new_value, depth);
        },
        Statement::FunCall { fun, params } => {
            lemma_expr_fits_line(fun, depth);
            lemma_list_fits_line(params@, depth);
        },
        Statement::CallSystemFun { fun, params } => {
            lemma_list_fits_line(params@, depth);
        },
        _ => {},
    }
}

/// An opening that ends its line, enclosed lines, and a closing behind the
/// indentation of the opening make one statement of well indented lines.
proof fn lemma_enclosing(
    opening: Seq<char>,
    body: Seq<char>,
    margin: Seq<char>,
    closing: Seq<char>,
    width: nat,
)
    requires
        breaks_indented(opening, width),
        margin_at(opening, 0, width),
        breaks_indented(body, width),
        body.len() > 0 ==> margin_at(body, 0, width),
        single_line(margin),
        margin_at(margin, 0, width),
        fits_line(closing, width),
        closing.len() > 0,
    ensures
        fits_line(opening + body + margin + closing, width),
        margin_at(opening + body + margin + closing, 0, width),
{
    broadcast use {
        lemma_single_line_fits,
        lemma_breaks_indented_concat,
        lemma_open_ended_concat,
        lemma_margin_concat,
    };

}

/// The lines of an unbroken loop.
proof fn lemma_loop_lines(statement: Statement, depth: nat)
    requires
        unbroken_statement(statement),
        !flat(statement),
        !(statement is If),
    ensures
        fits_line(statement_text(statement, depth), 4 * depth),
        margin_at(statement_text(statement, depth), 0, 4 * depth),
    decreases statement, 0nat,
{
    lemma_statement_words();
    lemma_indentation_margin(depth);
    let width = 4 * depth;
    let margin = indentation(depth);
    match statement {
        Statement::While { test, statements } => {
            lemma_expr_fits_line(test, depth);
            lemma_block_lines(statements@, depth + 1);
            let body = block_text(statements@, depth + 1);
            lemma_narrower(body, 4 * (depth + 1), width);
            let opening = margin + "while "@ + expr_text(test, depth) + " do\n"@;
            assert(breaks_indented(opening, width) && margin_at(opening, 0, width)) by {
                broadcast use {
                    lemma_single_line_fits,
                    lemma_line_end_breaks,
                    lemma_breaks_indented_concat,
                    lemma_open_ended_concat,
                    lemma_margin_concat,
                };

            }
            lemma_single_line_fits("end"@, width);
            lemma_enclosing(opening, body, margin, "end"@, width);
        },
        Statement::Repeat { test, statements } => {
            lemma_expr_fits_line(test, depth);
            lemma_block_lines(statements@, depth + 1);
            let body = block_text(statements@, depth + 1);
            lemma_narrower(body, 4 * (depth + 1), width);
            let opening = margin + "repeat\n"@;
            let closing = "until "@ + expr_text(test, depth);
            assert(breaks_indented(opening, width) && margin_at(opening, 0, width)) by {
                broadcast use {
                    lemma_single_line_fits,
                    lemma_line_end_breaks,
                    lemma_breaks_indented_concat,
                    lemma_open_ended_concat,
                    lemma_margin_concat,
                };

            }
            assert(fits_line(closing, width)) by {
                broadcast use {
                    lemma_single_line_fits,
                    lemma_breaks_indented_concat,
                    lemma_open_ended_concat,
                };

            }
            lemma_enclosing(opening, body, margin, closing, width);
            assert(statement_text(statement, depth) =~= opening + body + margin + closing);
        },
        Statement::For { vars, iterator, statements } => {
            lemma_names_single_line(vars@);
            lemma_expr_fits_line(iterator, depth);
            lemma_block_lines(statements@, depth + 1);
            let body = block_text(statements@, depth + 1);
            lemma_narrower(body, 4 * (depth + 1), width);
            let opening = margin + "for "@ + names_text(vars@) + " in "@ + expr_text(
                iterator,
                depth,
            ) + " do\n"@;
            assert(breaks_indented(opening, width) && margin_at(opening, 0, width)) by {
                broadcast use {
                    lemma_single_line_fits,
                    lemma_line_end_breaks,
                    lemma_breaks_indented_concat,
                    lemma_open_ended_concat,
                    lemma_margin_concat,
                };

            }
            lemma_single_line_fits("end"@, width);
            lemma_enclosing(opening, body, margin, "end"@, width);
        },
        Statement::ForI { var, start, end, increment, statements } => {
            lemma_expr_fits_line(start, depth);
            lemma_expr_fits_line(end, depth);
            match increment {
                Some(step) => {
                    lemma_expr_fits_line(step, depth);
                },
                None => {
                    lemma_single_line_fits("1"@, width);
                },
            }
            assert(fits_line(step_text(increment, depth), width));
            lemma_block_lines(statements@, depth + 1);
            let body = block_text(statements@, depth + 1);
            lemma_narrower(body, 4 * (depth + 1), width);
            let opening = margin + "for "@ + var@ + " = "@ + expr_text(start, depth) + ", "@
                + expr_text(end, depth) + ", "@ + step_text(increment, depth) + " do\n"@;
            assert(breaks_indented(opening, width) && margin_at(opening, 0, width)) by {
                broadcast use {
                    lemma_single_line_fits,
                    lemma_line_end_breaks,
                    lemma_breaks_indented_concat,
                    lemma_open_ended_concat,
                    lemma_margin_concat,
                };

            }
            lemma_single_line_fits("end"@, width);
            lemma_enclosing(opening, body, margin, "end"@, width);
        },
        _ => {},
    }
}

/// The lines of an unbroken conditional.
proof fn lemma_conditional_lines(statement: Statement, depth: nat)
    requires
        unbroken_statement(statement),
        statement is If,
    ensures
        fits_line(statement_text(statement, depth), 4 * depth),
        margin_at(statement_text(statement, depth), 0, 4 * depth),
    decreases statement, 0nat,
{
    broadcast use {
        lemma_single_line_fits,
        lemma_line_end_breaks,
        lemma_breaks_indented_concat,
        lemma_open_ended_concat,
        lemma_margin_concat,
    };

    lemma_statement_words();
    lemma_indentation_margin(depth);
    match statement {
        Statement::If { if_statements, else_statement } => {
            lemma_clauses_lines(if_statements@, depth);
            lemma_block_lines(else_statement@, depth + 1);
            lemma_narrower(block_text(else_statement@, depth + 1), 4 * (depth + 1), 4 * depth);
            let other = else_text(else_statement, depth);
            assert(breaks_indented(other, 4 * depth));
            assert(other.len() > 0 ==> margin_at(other, 0, 4 * depth) && other.last() == '\n');
        },
        _ => {},
    }
}

/// The text of an unbroken statement starts with the indentation of its
/// nesting level, goes on behind that indentation after every line break, and
/// leaves its last line open.
proof fn lemma_statement_lines(statement: Statement, depth: nat)
    requires
        unbroken_statement(statement),
    ensures
        fits_line(statement_text(statement, depth), 4 * depth),
        margin_at(statement_text(statement, depth), 0, 4 * depth),
    decreases statement, 1nat,
{
    if flat(statement) {
        lemma_flat_lines(statement, depth);
    } else if statement is If {
        lemma_conditional_lines(statement, depth);
    } else {
        lemma_loop_lines(statement, depth);
    }
}

/// Every line of an unbroken statement at nesting level `depth` begins with
/// at least the indentation of that level. This holds of the lines on which
/// an expression of the statement goes on, too.
pub proof fn lemma_statement_lines_indented(statement: Statement, depth: nat)
    requires
        unbroken_statement(statement),
    ensures
        lines_indented(statement_text(statement, depth), 4 * depth),
{
    lemma_statement_lines(statement, depth);
}

/// Every line of unbroken statements that are enclosed at nesting level
/// `depth` begins with at least the indentation of that level.
pub proof fn lemma_block_lines_indented(statements: Seq<Statement>, depth: nat)
    requires
        unbroken_statements(statements),
    ensures
        lines_indented(block_text(statements, depth), 4 * depth),
{
    lemma_block_lines(statements, depth);
}

/// A statement whose text begins, behind its indentation, with a keyword of
/// the language: all but assignments and calls.
pub open spec fn starts_with_keyword(statement: Statement) -> bool {
    match statement {
        Statement::AssignVar { .. } => false,
        Statement::AssignListAccess { .. } => false,
        Statement::AssignTableAccess { .. } => false,
        Statement::FunCall { .. } => false,
        Statement::CallSystemFun { .. } => false,
        _ => true,
    }
}

/// A text that begins with the indentation of a level and then a word that
/// does not begin with a space is indented by exactly that level.
proof fn lemma_word_behind_margin(text: Seq<char>, depth: nat, word: Seq<char>)
    requires
        starts_with(text, indentation(depth) + word),
        word.len() > 0,
        word[0] != ' ',
    ensures
        indented_exactly(text, 0, 4 * depth),
{
    let start = indentation(depth) + word;
    assert forall|k: int| 0 <= k < 0 + 4 * depth implies text[k] == ' ' by {
        assert(start[k] == ' ');
    }
    assert(text[(4 * depth) as int] == start[(4 * depth) as int]);
}

/// The clauses of a conditional, where there are any, begin with `if` behind
/// the indentation of the conditional.
proof fn lemma_clauses_start(clauses: Seq<If>, depth: nat)
    requires
        clauses.len() > 0,
    ensures
        starts_with(clauses_text(clauses, depth), indentation(depth) + "if "@),
    decreases clauses.len(),
{
    broadcast use lemma_starts_with_concat;

    let start = indentation(depth) + "if "@;
    assert(starts_with(start, start));
    if clauses.len() >= 2 {
        lemma_clauses_start(clauses.drop_last(), depth);
    }
}

/// The first line of a statement that begins with a keyword has exactly the
/// indentation of the statement's nesting level: four spaces for each level,
/// and then the keyword.
pub proof fn lemma_keyword_line(statement: Statement, depth: nat)
    requires
        starts_with_keyword(statement),
    ensures
        indented_exactly(statement_text(statement, depth), 0, 4 * depth),
{
    broadcast use lemma_starts_with_concat;

    reveal_strlit("local ");
    reveal_strlit("return ");
    reveal_strlit("break");
    reveal_strlit("if ");
    reveal_strlit("else\n");
    reveal_strlit("end");
    reveal_strlit("while ");
    reveal_strlit("repeat\n");
    reveal_strlit("for ");
    let text = statement_text(statement, depth);
    let margin = indentation(depth);
    match statement {
        Statement::LocalVarDeclare(name) => {
            assert(starts_with(margin + "local "@, margin + "local "@));
            lemma_word_behind_margin(text, depth, "local "@);
        },
        Statement::Return(exprs) => {
            assert(starts_with(margin + "return "@, margin + "return "@));
            lemma_word_behind_margin(text, depth, "return "@);
        },
        Statement::Break => {
            assert(starts_with(margin + "break"@, margin + "break"@));
            lemma_word_behind_margin(text, depth, "break"@);
        },
        Statement::If { if_statements, else_statement } => {
            if if_statements@.len() > 0 {
                lemma_clauses_start(if_statements@, depth);
                lemma_word_behind_margin(text, depth, "if "@);
            } else if else_statement@.len() > 0 {
                assert(starts_with(margin + "else\n"@, margin + "else\n"@));
                assert(text =~= margin + "else\n"@ + block_text(else_statement@, depth + 1)
                    + margin + "end"@);
                lemma_word_behind_margin(text, depth, "else\n"@);
            } else {
                assert(starts_with(margin + "end"@, margin + "end"@));
                assert(text =~= margin + "end"@);
                lemma_word_behind_margin(text, depth, "end"@);
            }
        },
        Statement::While { test, statements } => {
            assert(starts_with(margin + "while "@, margin + "while "@));
            lemma_word_behind_margin(text, depth, "while "@);
        },
        Statement::Repeat { test, statements } => {
            assert(starts_with(margin + "repeat\n"@, margin + "repeat\n"@));
            lemma_word_behind_margin(text, depth, "repeat\n"@);
        },
        Statement::For { vars, iterator, statements } => {
            assert(starts_with(margin + "for "@, margin + "for "@));
            lemma_word_behind_margin(text, depth, "for "@);
        },
        Statement::ForI { var, start, end, increment, statements } => {
            assert(starts_with(margin + "for "@, margin + "for "@));
            lemma_word_behind_margin(text, depth, "for "@);
        },
        _ => {},
    }
}

/// Each clause of a conditional has its statements on lines of their own.
proof fn lemma_clause_begins_line(clauses: Seq<If>, i: int, depth: nat)
    requires
        0 <= i < clauses.len(),
    ensures
        begins_line(clauses_text(clauses, depth), block_text(clauses[i].statements@, depth + 1)),
    decreases clauses.len(),
{
    broadcast use lemma_begins_line_concat;

    reveal_strlit(" then\n");
    let part = block_text(clauses[i].statements@, depth + 1);
    if i < clauses.len() - 1 {
        lemma_clause_begins_line(clauses.drop_last(), i, depth);
    } else {
        let test = expr_text(clauses[i].test, depth);
        assert((test + " then\n"@).last() == '\n');
        assert(begins_line(if_text(clauses[i], depth), part));
    }
}

/// The statements that `statement` encloses directly, in one of its blocks.
pub open spec fn encloses(statement: Statement, body: Seq<Statement>) -> bool {
    match statement {
        Statement::If { if_statements, else_statement } => body == else_statement@ || exists|
            i: int,
        |
            0 <= i < if_statements@.len() && body == (#[trigger] if_statements@[i]).statements@,
        Statement::While { statements, .. } => body == statements@,
        Statement::Repeat { statements, .. } => body == statements@,
        Statement::For { statements, .. } => body == statements@,
        Statement::ForI { statements, .. } => body == statements@,
        _ => false,
    }
}

/// What closes a statement that encloses blocks: `until` and the test for
/// `repeat`, `end` for every other.
pub open spec fn closing_text(statement: Statement, depth: nat) -> Seq<char> {
    match statement {
        Statement::Repeat { test, .. } => "until "@ + expr_text(test, depth),
        _ => "end"@,
    }
}

/// Enclosed statements, where there are any, stand in the text of the
/// statement that encloses them on lines of their own.
proof fn lemma_body_begins_line(statement: Statement, body: Seq<Statement>, depth: nat)
    requires
        encloses(statement, body),
        body.len() > 0,
    ensures
        begins_line(statement_text(statement, depth), block_text(body, depth + 1)),
{
    broadcast use lemma_begins_line_concat;

    reveal_strlit(" do\n");
    reveal_strlit("repeat\n");
    reveal_strlit("else\n");
    let margin = indentation(depth);
    let part = block_text(body, depth + 1);
    match statement {
        Statement::If { if_statements, else_statement } => {
            if body == else_statement@ {
                assert((margin + "else\n"@).last() == '\n');
                assert(begins_line(else_text(else_statement, depth), part));
            } else {
                let i = choose|i: int|
                    0 <= i < if_statements@.len() && body == (
                    #[trigger] if_statements@[i]).statements@;
                lemma_clause_begins_line(if_statements@, i, depth);
            }
        },
        Statement::While { test, statements } => {
            assert((margin + "while "@ + expr_text(test, depth) + " do\n"@).last() == '\n');
        },
        Statement::Repeat { test, statements } => {
            assert((margin + "repeat\n"@).last() == '\n');
        },
        Statement::For { vars, iterator, statements } => {
            assert((margin + "for "@ + names_text(vars@) + " in "@ + expr_text(iterator, depth)
                + " do\n"@).last() == '\n');
        },
        Statement::ForI { var, start, end, increment, statements } => {
            assert((margin + "for "@ + var@ + " = "@ + expr_text(start, depth) + ", "@
                + expr_text(end, depth) + ", "@ + step_text(increment, depth) + " do\n"@).last()
                == '\n');
        },
        _ => {},
    }
}

/// Behind text that is empty or ends with a line break, the indentation of a
/// level and a word that does not begin with a space make a line indented by
/// exactly that level.
proof fn lemma_closing_line(before: Seq<char>, depth: nat, closing: Seq<char>)
    requires
        before.len() == 0 || before.last() == '\n',
        closing.len() > 0,
        closing[0] != ' ',
    ensures
        ({
            let text = before + indentation(depth) + closing;
            let at = text.len() - closing.len() - 4 * depth;
            &&& at == before.len()
            &&& line_start(text, at)
            &&& indented_exactly(text, at, 4 * depth)
            &&& occurs_at(text, closing, at + 4 * depth)
        }),
{
    let text = before + indentation(depth) + closing;
    let at = before.len() as int;
    assert(text[at + 4 * depth] == closing[0]);
    assert forall|k: int| 0 <= k < closing.len() implies text[at + 4 * depth + k]
        == #[trigger] closing[k] by {}
}

/// What stands before the closing of a statement that encloses blocks: it is
/// empty or ends with a line break.
proof fn lemma_closing_begins_line(statement: Statement, depth: nat) -> (before: Seq<char>)
    requires
        !flat(statement),
    ensures
        before.len() == 0 || before.last() == '\n',
        statement_text(statement, depth) == before + indentation(depth) + closing_text(
            statement,
            depth,
        ),
{
    reveal_strlit(" do\n");
    reveal_strlit("repeat\n");
    reveal_strlit("else\n");
    reveal_strlit("\n");
    let margin = indentation(depth);
    match statement {
        Statement::If { if_statements, else_statement } => {
            let before = clauses_text(if_statements@, depth) + else_text(else_statement, depth);
            if else_statement@.len() > 0 {
                lemma_block_text_ends_line(else_statement@, depth + 1);
            } else if if_statements@.len() > 0 {
                lemma_clauses_end_line(if_statements@, depth);
            }
            before
        },
        Statement::While { test, statements } => {
            let opening = margin + "while "@ + expr_text(test, depth) + " do\n"@;
            if statements@.len() > 0 {
                lemma_block_text_ends_line(statements@, depth + 1);
            }
            assert(opening.last() == '\n');
            opening + block_text(statements@, depth + 1)
        },
        Statement::Repeat { test, statements } => {
            let opening = margin + "repeat\n"@;
            if statements@.len() > 0 {
                lemma_block_text_ends_line(statements@, depth + 1);
            }
            assert(opening.last() == '\n');
            let before = opening + block_text(statements@, depth + 1);
            lemma_concat_assoc(before + margin, "until "@, expr_text(test, depth));
            before
        },
        Statement::For { vars, iterator, statements } => {
            let opening = margin + "for "@ + names_text(vars@) + " in "@ + expr_text(
                iterator,
                depth,
            ) + " do\n"@;
            if statements@.len() > 0 {
                lemma_block_text_ends_line(statements@, depth + 1);
            }
            assert(opening.last() == '\n');
            opening + block_text(statements@, depth + 1)
        },
        Statement::ForI { var, start, end, increment, statements } => {
            let opening = margin + "for "@ + var@ + " = "@ + expr_text(start, depth) + ", "@
                + expr_text(end, depth) + ", "@ + step_text(increment, depth) + " do\n"@;
            if statements@.len() > 0 {
                lemma_block_text_ends_line(statements@, depth + 1);
            }
            assert(opening.last() == '\n');
            opening + block_text(statements@, depth + 1)
        },
        _ => Seq::empty(),
    }
}

/// The clauses of a conditional, where there are any, end with a line break.
proof fn lemma_clauses_end_line(clauses: Seq<If>, depth: nat)
    requires
        clauses.len() > 0,
    ensures
        clauses_text(clauses, depth).len() > 0,
        clauses_text(clauses, depth).last() == '\n',
{
    lemma_if_text_ends_line(clauses.last(), depth);
}

/// Each statement of a block begins a line of the block's text: the line
/// right behind the statements before it. Where the statement begins with a
/// keyword, that line has exactly the indentation of the block.
pub proof fn lemma_enclosed_statement_line(statements: Seq<Statement>, i: int, depth: nat)
    requires
        0 <= i < statements.len(),
    ensures
        ({
            let block = block_text(statements, depth);
            let at = block_text(statements.take(i), depth).len() as int;
            &&& line_start(block, at)
            &&& occurs_at(block, statement_text(statements[i], depth), at)
            &&& starts_with_keyword(statements[i]) ==> indented_exactly(block, at, 4 * depth)
        }),
    decreases statements.len(),
{
    let block = block_text(statements, depth);
    let before = statements.drop_last();
    let at = block_text(statements.take(i), depth).len() as int;
    let own = statement_text(statements[i], depth);
    if i == statements.len() - 1 {
        assert(statements.take(i) =~= before);
        if before.len() > 0 {
            lemma_block_text_ends_line(before, depth);
        }
        lemma_statement_text_nonempty(statements[i], depth);
        assert forall|k: int| 0 <= k < own.len() implies block[at + k] == #[trigger] own[k] by {}
        if starts_with_keyword(statements[i]) {
            lemma_keyword_line(statements[i], depth);
            assert forall|k: int| at <= k < at + 4 * depth implies block[k] == ' ' by {
                assert(own[k - at] == ' ');
            }
            assert(block[at + 4 * depth] == own[(4 * depth) as int]);
        }
    } else {
        assert(statements.take(i) =~= before.take(i));
        assert(before[i] == statements[i]);
        lemma_enclosed_statement_line(before, i, depth);
        let shorter = block_text(before, depth);
        assert forall|k: int| 0 <= k < shorter.len() implies block[k] == shorter[k] by {}
        assert forall|k: int| 0 <= k < own.len() implies block[at + k] == #[trigger] own[k] by {
            assert(shorter[at + k] == own[k]);
        }
        if starts_with_keyword(statements[i]) {
            assert forall|k: int| at <= k < at + 4 * depth implies block[k] == ' ' by {
                assert(shorter[k] == ' ');
            }
        }
    }
}

/// The indentation of a statement that encloses blocks, where no text that
/// the statement carries holds a line break.
///
/// Its first line, with the opening keyword, begins with exactly four spaces
/// for each level of the statement. The statements of each block that it
/// encloses stand on lines of their own, and every one of those lines begins
/// with at least four spaces more than that: with exactly four more where an
/// enclosed statement begins with a keyword, with more where a statement
/// encloses statements in turn. What closes the statement begins a line, with
/// exactly as many spaces as the first line.
pub proof fn lemma_block_indentation(statement: Statement, body: Seq<Statement>, depth: nat)
    requires
        unbroken_statement(statement),
        encloses(statement, body),
    ensures
        ({
            let text = statement_text(statement, depth);
            let inner = block_text(body, depth + 1);
            let closing = closing_text(statement, depth);
            let last = text.len() - closing.len() - 4 * depth;
            &&& indented_exactly(text, 0, 4 * depth)
            &&& body.len() > 0 ==> begins_line(text, inner)
            &&& lines_indented(inner, 4 * (depth + 1))
            &&& forall|i: int|
                0 <= i < body.len() && starts_with_keyword(#[trigger] body[i]) ==> indented_exactly(
                    inner,
                    block_text(body.take(i), depth + 1).len() as int,
                    4 * (depth + 1),
                )
            &&& line_start(text, last)
            &&& indented_exactly(text, last, 4 * depth)
            &&& occurs_at(text, closing, last + 4 * depth)
        }),
{
    lemma_keyword_line(statement, depth);
    if body.len() > 0 {
        lemma_body_begins_line(statement, body, depth);
    }
    assert(unbroken_statements(body));
    lemma_block_lines(body, depth + 1);
    assert forall|i: int|
        0 <= i < body.len() && starts_with_keyword(#[trigger] body[i]) implies indented_exactly(
        block_text(body, depth + 1),
        block_text(body.take(i), depth + 1).len() as int,
        4 * (depth + 1),
    ) by {
        lemma_enclosed_statement_line(body, i, depth + 1);
    }
    let before = lemma_closing_begins_line(statement, depth);
    reveal_strlit("end");
    reveal_strlit("until ");
    lemma_closing_line(before, depth, closing_text(statement, depth));
}

} // verus!
