//! The renderer: from a tree to its source text.
//!
//! The text is built front to back in one buffer. The indentation of the
//! current nesting level is handed down as text, one unit longer for each
//! enclosed block, so that no level is ever too deep to render.

use vstd::prelude::*;
use vstd::string::*;
use super::ast::{Expr, If, InlineTableAssign, Statement};
use super::content::{
    lemma_same_expr_text, lemma_same_program_text, lemma_same_statement_text, same_expr,
    same_statement, same_statements,
};
use super::extent::{
    blank, lemma_expr_text_empty, lemma_program_text_empty, lemma_statement_text_nonempty,
};
use super::text::{
    block_text, clauses_text, entries_text, entry_text, expr_text, if_text, indentation,
    lemma_concat_assoc, lemma_indentation_step, list_text, names_text, program_text,
    statement_text,
};
use super::layout::{
    lambda_free, lemma_expr_fits_line, lemma_expr_single_line, lemma_statement_lines_indented,
    unbroken_expr, unbroken_statement,
};
use super::lines::{fits_line, lines_indented, single_line};

verus! {

/// The indentation of a line at nesting level `tab`.
pub fn indent_text(tab: usize) -> (text: String)
    ensures
        text@ == indentation(tab as nat),
{
    let mut text = String::new();
    let mut level: usize = 0;
    proof {
        lemma_indentation_step(0);
    }
    while level < tab
        invariant
            level <= tab,
            text@ == indentation(level as nat),
        decreases tab - level,
    {
        text.append("    ");
        proof {
            lemma_indentation_step(level as nat);
        }
        level = level + 1;
    }
    text
}

/// The indentation one level below `indent`.
fn deeper(indent: &str, Ghost(depth): Ghost<nat>) -> (inner: String)
    requires
        indent@ == indentation(depth),
    ensures
        inner@ == indentation(depth + 1),
{
    let mut inner = String::from_str(indent);
    inner.append("    ");
    proof {
        lemma_indentation_step(depth);
    }
    inner
}

fn write_names(out: &mut String, names: &Vec<String>)
    ensures
        final(out)@ == old(out)@ + names_text(names@),
{
    let ghost before = out@;
    let mut i: usize = 0;
    while i < names.len()
        invariant
            i <= names.len(),
            out@ == before + names_text(names@.take(i as int)),
        decreases names.len() - i,
    {
        if i > 0 {
            out.append(", ");
        }
        out.append(names[i].as_str());
        proof {
            assert(names@.take(i + 1).drop_last() =~= names@.take(i as int));
        }
        i = i + 1;
    }
    proof {
        assert(names@.take(names.len() as int) =~= names@);
    }
}

fn write_expr(out: &mut String, expr: &Expr, indent: &str, Ghost(depth): Ghost<nat>)
    requires
        indent@ == indentation(depth),
    ensures
        final(out)@ == old(out)@ + expr_text(*expr, depth),
    decreases expr,
{
    broadcast use lemma_concat_assoc;

    match expr {
        Expr::Nil => {
            out.append("nil");
        },
        Expr::Number(literal) => {
            out.append(literal.as_str());
        },
        Expr::String(literal) => {
            out.append(literal.as_str());
        },
        Expr::Bool(value) => {
            if *value {
                out.append("true");
            } else {
                out.append("false");
            }
        },
        Expr::Var(name) => {
            out.append(name.as_str());
        },
        Expr::TableCons(entries) => {
            out.append("{ ");
            write_entries(out, entries, indent, Ghost(depth));
            out.append(" }");
        },
        Expr::TableAccess { expr, slot } => {
            write_expr(out, expr, indent, Ghost(depth));
            out.append(".");
            out.append(slot.as_str());
        },
        Expr::ListCons(items) => {
            out.append("{ ");
            write_list(out, items, indent, Ghost(depth));
            out.append(" }");
        },
        Expr::ListAccess { expr, index } => {
            write_expr(out, expr, indent, Ghost(depth));
            out.append("[ ");
            write_expr(out, index, indent, Ghost(depth));
            out.append(" ]");
        },
        Expr::FunCall { fun, params } => {
            write_expr(out, fun, indent, Ghost(depth));
            out.append("( ");
            write_list(out, params, indent, Ghost(depth));
            out.append(" )");
        },
        Expr::Lambda { params, statements } => {
            out.append("function (");
            write_names(out, params);
            out.append(") ");
            let inner = deeper(indent, Ghost(depth));
            write_block(out, statements, inner.as_str(), Ghost(depth + 1));
            out.append(indent);
            out.append("end");
        },
        Expr::Paren(inner) => {
            out.append("( ");
            write_expr(out, inner, indent, Ghost(depth));
            out.append(" )");
        },
        Expr::CallSystemFun { fun, params } => {
            out.append(fun.as_str());
            out.append("( ");
            write_list(out, params, indent, Ghost(depth));
            out.append(" )");
        },
        Expr::CallBinFun { fun, a, b } => {
            write_expr(out, a, indent, Ghost(depth));
            out.append(" ");
            out.append(fun.as_str());
            out.append(" ");
            write_expr(out, b, indent, Ghost(depth));
        },
        Expr::CallUniFun { fun, a } => {
            write_expr(out, a, indent, Ghost(depth));
            out.append(fun.as_str());
        },
    }
}

fn write_list(out: &mut String, exprs: &Vec<Expr>, indent: &str, Ghost(depth): Ghost<nat>)
    requires
        indent@ == indentation(depth),
    ensures
        final(out)@ == old(out)@ + list_text(exprs@, depth),
    decreases exprs,
{
    let ghost before = out@;
    let mut i: usize = 0;
    while i < exprs.len()
        invariant
            i <= exprs.len(),
            indent@ == indentation(depth),
            out@ == before + list_text(exprs@.take(i as int), depth),
        decreases exprs.len() - i,
    {
        if i > 0 {
            out.append(", ");
        }
        write_expr(out, &exprs[i], indent, Ghost(depth));
        proof {
            assert(exprs@.take(i + 1).drop_last() =~= exprs@.take(i as int));
        }
        i = i + 1;
    }
    proof {
        assert(exprs@.take(exprs.len() as int) =~= exprs@);
    }
}

fn write_entries(
    out: &mut String,
    entries: &Vec<InlineTableAssign>,
    indent: &str,
    Ghost(depth): Ghost<nat>,
)
    requires
        indent@ == indentation(depth),
    ensures
        final(out)@ == old(out)@ + entries_text(entries@, depth),
    decreases entries,
{
    let ghost before = out@;
    let mut i: usize = 0;
    while i < entries.len()
        invariant
            i <= entries.len(),
            indent@ == indentation(depth),
            out@ == before + entries_text(entries@.take(i as int), depth),
        decreases entries.len() - i,
    {
        if i > 0 {
            out.append("; ");
        }
        let ghost start = out@;
        let entry = &entries[i];
        out.append("[\"");
        out.append(entry.key.as_str());
        out.append("\"] = ");
        write_expr(out, &entry.value, indent, Ghost(depth));
        proof {
            assert(out@ =~= start + entry_text(entries@[i as int], depth));
            assert(entries@.take(i + 1).drop_last() =~= entries@.take(i as int));
        }
        i = i + 1;
    }
    proof {
        assert(entries@.take(entries.len() as int) =~= entries@);
    }
}

fn write_block(
    out: &mut String,
    statements: &Vec<Statement>,
    indent: &str,
    Ghost(depth): Ghost<nat>,
)
    requires
        indent@ == indentation(depth),
    ensures
        final(out)@ == old(out)@ + block_text(statements@, depth),
    decreases statements,
{
    let ghost before = out@;
    let mut i: usize = 0;
    while i < statements.len()
        invariant
            i <= statements.len(),
            indent@ == indentation(depth),
            out@ == before + block_text(statements@.take(i as int), depth),
        decreases statements.len() - i,
    {
        write_statement(out, &statements[i], indent, Ghost(depth));
        out.append("\n");
        proof {
            assert(statements@.take(i + 1).drop_last() =~= statements@.take(i as int));
        }
        i = i + 1;
    }
    proof {
        assert(statements@.take(statements.len() as int) =~= statements@);
    }
}

fn write_if(out: &mut String, clause: &If, indent: &str, Ghost(depth): Ghost<nat>)
    requires
        indent@ == indentation(depth),
    ensures
        final(out)@ == old(out)@ + if_text(*clause, depth),
    decreases clause,
{
    write_expr(out, &clause.test, indent, Ghost(depth));
    out.append(" then\n");
    let inner = deeper(indent, Ghost(depth));
    write_block(out, &clause.statements, inner.as_str(), Ghost(depth + 1));
}

fn write_clauses(out: &mut String, clauses: &Vec<If>, indent: &str, Ghost(depth): Ghost<nat>)
    requires
        indent@ == indentation(depth),
    ensures
        final(out)@ == old(out)@ + clauses_text(clauses@, depth),
    decreases clauses,
{
    let ghost before = out@;
    let mut i: usize = 0;
    while i < clauses.len()
        invariant
            i <= clauses.len(),
            indent@ == indentation(depth),
            out@ == before + clauses_text(clauses@.take(i as int), depth),
        decreases clauses.len() - i,
    {
        out.append(indent);
        if i == 0 {
            out.append("if ");
        } else {
            out.append("elseif ");
        }
        write_if(out, &clauses[i], indent, Ghost(depth));
        proof {
            assert(clauses@.take(i + 1).drop_last() =~= clauses@.take(i as int));
        }
        i = i + 1;
    }
    proof {
        assert(clauses@.take(clauses.len() as int) =~= clauses@);
    }
}

fn write_statement(out: &mut String, statement: &Statement, indent: &str, Ghost(depth): Ghost<nat>)
    requires
        indent@ == indentation(depth),
    ensures
        final(out)@ == old(out)@ + statement_text(*statement, depth),
    decreases statement,
{
    broadcast use lemma_concat_assoc;

    match statement {
        Statement::LocalVarDeclare(name) => {
            out.append(indent);
            out.append("local ");
            out.append(name.as_str());
        },
        Statement::Return(exprs) => {
            out.append(indent);
            out.append("return ");
            write_list(out, exprs, indent, Ghost(depth));
        },
        Statement::Break => {
            out.append(indent);
            out.append("break");
        },
        Statement::If { if_statements, else_statement } => {
            write_clauses(out, if_statements, indent, Ghost(depth));
            if else_statement.len() != 0 {
                out.append(indent);
                out.append("else\n");
                let inner = deeper(indent, Ghost(depth));
                write_block(out, else_statement, inner.as_str(), Ghost(depth + 1));
            }
            out.append(indent);
            out.append("end");
        },
        Statement::AssignVar { vars, exprs } => {
            out.append(indent);
            write_names(out, vars);
            out.append(" = ");
            write_list(out, exprs, indent, Ghost(depth));
        },
        Statement::AssignListAccess { target, index, new_value } => {
            out.append(indent);
            write_expr(out, target, indent, Ghost(depth));
            out.append("[ ");
            write_expr(out, index, indent, Ghost(depth));
            out.append(" ] = ");
            write_expr(out, new_value, indent, Ghost(depth));
        },
        Statement::AssignTableAccess { target, slot, new_value } => {
            out.append(indent);
            write_expr(out, target, indent, Ghost(depth));
            out.append(".");
            out.append(slot.as_str());
            out.append(" = ");
            write_expr(out, new_value, indent, Ghost(depth));
        },
        Statement::While { test, statements } => {
            out.append(indent);
            out.append("while ");
            write_expr(out, test, indent, Ghost(depth));
            out.append(" do\n");
            let inner = deeper(indent, Ghost(depth));
            write_block(out, statements, inner.as_str(), Ghost(depth + 1));
            out.append(indent);
            out.append("end");
        },
        Statement::Repeat { test, statements } => {
            out.append(indent);
            out.append("repeat\n");
            let inner = deeper(indent, Ghost(depth));
            write_block(out, statements, inner.as_str(), Ghost(depth + 1));
            out.append(indent);
            out.append("until ");
            write_expr(out, test, indent, Ghost(depth));
        },
        Statement::For { vars, iterator, statements } => {
            out.append(indent);
            out.append("for ");
            write_names(out, vars);
            out.append(" in ");
            write_expr(out, iterator, indent, Ghost(depth));
            out.append(" do\n");
            let inner = deeper(indent, Ghost(depth));
            write_block(out, statements, inner.as_str(), Ghost(depth + 1));
            out.append(indent);
            out.append("end");
        },
        Statement::ForI { var, start, end, increment, statements } => {
            out.append(indent);
            out.append("for ");
            out.append(var.as_str());
            out.append(" = ");
            write_expr(out, start, indent, Ghost(depth));
            out.append(", ");
            write_expr(out, end, indent, Ghost(depth));
            out.append(", ");
            match increment {
                Some(step) => {
                    write_expr(out, step, indent, Ghost(depth));
                },
                None => {
                    out.append("1");
                },
            }
            out.append(" do\n");
            let inner = deeper(indent, Ghost(depth));
            write_block(out, statements, inner.as_str(), Ghost(depth + 1));
            out.append(indent);
            out.append("end");
        },
        Statement::FunCall { fun, params } => {
            out.append(indent);
            write_expr(out, fun, indent, Ghost(depth));
            out.append("( ");
            write_list(out, params, indent, Ghost(depth));
            out.append(" )");
        },
        Statement::CallSystemFun { fun, params } => {
            out.append(indent);
            out.append(fun.as_str());
            out.append("( ");
            write_list(out, params, indent, Ghost(depth));
            out.append(" )");
        },
    }
}

/// Renders a program: every statement at nesting level 0, each followed by
/// one line break. Only a program without statements gives no text.
pub fn gen_code(ast: Vec<Statement>) -> (text: String)
    ensures
        text@ == program_text(ast@),
        text@.len() == 0 <==> ast@.len() == 0,
{
    let mut text = String::new();
    proof {
        lemma_program_text_empty(ast@);
        lemma_indentation_step(0);
        reveal_strlit("");
        assert(""@ =~= indentation(0));
    }
    write_block(&mut text, &ast, "", Ghost(0));
    text
}

/// Renders one statement at nesting level `tab`, without a line break after
/// it. The text is never empty. Unless a text that the statement carries
/// holds a line break, every line of the result begins with four spaces for
/// each level.
pub fn gen_statement(statement: Statement, tab: usize) -> (text: String)
    ensures
        text@ == statement_text(statement, tab as nat),
        text@.len() > 0,
        unbroken_statement(statement) ==> lines_indented(text@, 4 * (tab as nat)),
{
    proof {
        lemma_statement_text_nonempty(statement, tab as nat);
        if unbroken_statement(statement) {
            lemma_statement_lines_indented(statement, tab as nat);
        }
    }
    let indent = indent_text(tab);
    let mut text = String::new();
    write_statement(&mut text, &statement, indent.as_str(), Ghost(tab as nat));
    text
}

/// Renders what follows the keyword of one clause of a conditional that
/// stands at nesting level `tab`.
pub fn gen_if(if_statement: If, tab: usize) -> (text: String)
    ensures
        text@ == if_text(if_statement, tab as nat),
{
    let indent = indent_text(tab);
    let mut text = String::new();
    write_if(&mut text, &if_statement, indent.as_str(), Ghost(tab as nat));
    text
}

/// Renders one expression that stands in a statement at nesting level `tab`.
/// The text is empty only for a `blank` expression. Unless a text that the
/// expression carries holds a line break, the result does not end with one,
/// goes on behind four spaces for each level where it breaks the line, and
/// breaks the line only for the statements of a function literal.
pub fn gen_expr(expr: Expr, tab: usize) -> (text: String)
    ensures
        text@ == expr_text(expr, tab as nat),
        text@.len() == 0 <==> blank(expr),
        unbroken_expr(expr) ==> fits_line(text@, 4 * (tab as nat)),
        unbroken_expr(expr) && lambda_free(expr) ==> single_line(text@),
{
    proof {
        lemma_expr_text_empty(expr, tab as nat);
        if unbroken_expr(expr) {
            lemma_expr_fits_line(expr, tab as nat);
            if lambda_free(expr) {
                lemma_expr_single_line(expr, tab as nat);
            }
        }
    }
    let indent = indent_text(tab);
    let mut text = String::new();
    write_expr(&mut text, &expr, indent.as_str(), Ghost(tab as nat));
    text
}

/// Rendering is a function of what the tree says: two programs of the same
/// content, and so the same program given twice, render as the same text,
/// character by character, whatever `gen_code` returns for each.
pub proof fn lemma_gen_code_deterministic(
    one: Vec<Statement>,
    other: Vec<Statement>,
    first: String,
    second: String,
)
    requires
        same_statements(one@, other@),
        first@ == program_text(one@),
        second@ == program_text(other@),
    ensures
        first@ == second@,
{
    lemma_same_program_text(one@, other@);
}

/// Two statements of the same content at one nesting level, and so the same
/// statement given twice, render as the same text, whatever `gen_statement`
/// returns for each.
pub proof fn lemma_gen_statement_deterministic(
    one: Statement,
    other: Statement,
    tab: usize,
    first: String,
    second: String,
)
    requires
        same_statement(one, other),
        first@ == statement_text(one, tab as nat),
        second@ == statement_text(other, tab as nat),
    ensures
        first@ == second@,
{
    lemma_same_statement_text(one, other, tab as nat);
}

/// Two expressions of the same content at one nesting level, and so the same
/// expression given twice, render as the same text, whatever `gen_expr`
/// returns for each.
pub proof fn lemma_gen_expr_deterministic(
    one: Expr,
    other: Expr,
    tab: usize,
    first: String,
    second: String,
)
    requires
        same_expr(one, other),
        first@ == expr_text(one, tab as nat),
        second@ == expr_text(other, tab as nat),
    ensures
        first@ == second@,
{
    lemma_same_expr_text(one, other, tab as nat);
}

} // verus!
