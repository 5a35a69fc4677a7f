//! Trees of the same content: built apart, but with the same shape and the
//! same text at every place. Their renderings are the same text, so a
//! rendering depends on nothing but what the tree says.

use vstd::prelude::*;
use super::ast::{Expr, If, InlineTableAssign, Statement};
use super::text::{
    block_text, clauses_text, else_text, entries_text, entry_text, expr_text, if_text, list_text,
    names_text, program_text, statement_text, step_text,
};

verus! {

/// As many names on both sides, and each name the same text on both.
pub open spec fn same_names(a: Seq<String>, b: Seq<String>) -> bool {
    a.len() == b.len() && forall|i: int| 0 <= i < a.len() ==> (#[trigger] a[i])@ == b[i]@
}

/// Two expressions of the same form, with the same text and the same parts.
pub open spec fn same_expr(a: Expr, b: Expr) -> bool
    decreases a,
{
    match (a, b) {
        (Expr::Nil, Expr::Nil) => true,
        (Expr::Number(x), Expr::Number(y)) => x@ == y@,
        (Expr::String(x), Expr::String(y)) => x@ == y@,
        (Expr::Bool(x), Expr::Bool(y)) => x == y,
        (Expr::Var(x), Expr::Var(y)) => x@ == y@,
        (Expr::TableCons(x), Expr::TableCons(y)) => same_entries(x@, y@),
        (Expr::TableAccess { expr: x, slot: s }, Expr::TableAccess { expr: y, slot: t }) => {
            same_expr(*x, *y) && s@ == t@
        },
        (Expr::ListCons(x), Expr::ListCons(y)) => same_exprs(x@, y@),
        (Expr::ListAccess { expr: x, index: i }, Expr::ListAccess { expr: y, index: j }) => {
            same_expr(*x, *y) && same_expr(*i, *j)
        },
        (Expr::FunCall { fun: f, params: p }, Expr::FunCall { fun: g, params: q }) => {
            same_expr(*f, *g) && same_exprs(p@, q@)
        },
        (
            Expr::Lambda { params: p, statements: s },
            Expr::Lambda { params: q, statements: t },
        ) => same_names(p@, q@) && same_statements(s@, t@),
        (Expr::Paren(x), Expr::Paren(y)) => same_expr(*x, *y),
        (
            Expr::CallSystemFun { fun: f, params: p },
            Expr::CallSystemFun { fun: g, params: q },
        ) => f@ == g@ && same_exprs(p@, q@),
        (Expr::CallBinFun { fun: f, a: x, b: u }, Expr::CallBinFun { fun: g, a: y, b: v }) => {
            f@ == g@ && same_expr(*x, *y) && same_expr(*u, *v)
        },
        (Expr::CallUniFun { fun: f, a: x }, Expr::CallUniFun { fun: g, a: y }) => {
            f@ == g@ && same_expr(*x, *y)
        },
        _ => false,
    }
}

/// As many expressions on both sides, each of the same content as its
/// counterpart.
pub open spec fn same_exprs(a: Seq<Expr>, b: Seq<Expr>) -> bool
    decreases a,
{
    a.len() == b.len() && forall|i: int| 0 <= i < a.len() ==> same_expr(#[trigger] a[i], b[i])
}

/// As many table entries on both sides, each with the key and the value of
/// its counterpart.
pub open spec fn same_entries(a: Seq<InlineTableAssign>, b: Seq<InlineTableAssign>) -> bool
    decreases a,
{
    a.len() == b.len() && forall|i: int|
        0 <= i < a.len() ==> (#[trigger] a[i]).key@ == b[i].key@ && same_expr(
            a[i].value,
            b[i].value,
        )
}

/// The same step of a numeric loop: none, or expressions of the same content.
pub open spec fn same_step(a: Option<Expr>, b: Option<Expr>) -> bool
    decreases a,
{
    match (a, b) {
        (Some(x), Some(y)) => same_expr(x, y),
        (None, None) => true,
        _ => false,
    }
}

/// Two statements of the same form, with the same text and the same parts.
pub open spec fn same_statement(a: Statement, b: Statement) -> bool
    decreases a,
{
    match (a, b) {
        (Statement::LocalVarDeclare(x), Statement::LocalVarDeclare(y)) => x@ == y@,
        (Statement::Return(x), Statement::Return(y)) => same_exprs(x@, y@),
        (Statement::Break, Statement::Break) => true,
        (
            Statement::If { if_statements: c, else_statement: e },
            Statement::If { if_statements: d, else_statement: f },
        ) => same_clauses(c@, d@) && same_statements(e@, f@),
        (
            Statement::AssignVar { vars: n, exprs: x },
            Statement::AssignVar { vars: m, exprs: y },
        ) => same_names(n@, m@) && same_exprs(x@, y@),
        (
            Statement::AssignListAccess { target: t, index: i, new_value: v },
            Statement::AssignListAccess { target: u, index: j, new_value: w },
        ) => same_expr(t, u) && same_expr(i, j) && same_expr(v, w),
        (
            Statement::AssignTableAccess { target: t, slot: s, new_value: v },
            Statement::AssignTableAccess { target: u, slot: r, new_value: w },
        ) => same_expr(t, u) && s@ == r@ && same_expr(v, w),
        (
            Statement::While { test: t, statements: s },
            Statement::While { test: u, statements: r },
        ) => same_expr(t, u) && same_statements(s@, r@),
        (
            Statement::Repeat { test: t, statements: s },
            Statement::Repeat { test: u, statements: r },
        ) => same_expr(t, u) && same_statements(s@, r@),
        (
            Statement::For { vars: n, iterator: i, statements: s },
            Statement::For { vars: m, iterator: j, statements: r },
        ) => same_names(n@, m@) && same_expr(i, j) && same_statements(s@, r@),
        (
            Statement::ForI { var: n, start: x, end: y, increment: i, statements: s },
            Statement::ForI { var: m, start: u, end: v, increment: j, statements: r },
        ) => n@ == m@ && same_expr(x, u) && same_expr(y, v) && same_step(i, j)
            && same_statements(s@, r@),
        (Statement::FunCall { fun: f, params: p }, Statement::FunCall { fun: g, params: q }) => {
            same_expr(f, g) && same_exprs(p@, q@)
        },
        (
            Statement::CallSystemFun { fun: f, params: p },
            Statement::CallSystemFun { fun: g, params: q },
        ) => f@ == g@ && same_exprs(p@, q@),
        _ => false,
    }
}

/// As many statements on both sides, each of the same content as its
/// counterpart.
pub open spec fn same_statements(a: Seq<Statement>, b: Seq<Statement>) -> bool
    decreases a,
{
    a.len() == b.len() && forall|i: int|
        0 <= i < a.len() ==> same_statement(#[trigger] a[i], b[i])
}

/// As many clauses on both sides, each with the test and the statements of
/// its counterpart.
pub open spec fn same_clauses(a: Seq<If>, b: Seq<If>) -> bool
    decreases a,
{
    a.len() == b.len() && forall|i: int|
        0 <= i < a.len() ==> same_expr((#[trigger] a[i]).test, b[i].test) && same_statements(
            a[i].statements@,
            b[i].statements@,
        )
}

/// Every expression has the same content as itself.
pub proof fn lemma_same_expr_reflexive(a: Expr)
    ensures
        same_expr(a, a),
    decreases a,
{
    match a {
        Expr::TableCons(x) => {
            lemma_same_entries_reflexive(x@);
        },
        Expr::TableAccess { expr, slot } => {
            lemma_same_expr_reflexive(*expr);
        },
        Expr::ListCons(x) => {
            lemma_same_exprs_reflexive(x@);
        },
        Expr::ListAccess { expr, index } => {
            lemma_same_expr_reflexive(*expr);
            lemma_same_expr_reflexive(*index);
        },
        Expr::FunCall { fun, params } => {
            lemma_same_expr_reflexive(*fun);
            lemma_same_exprs_reflexive(params@);
        },
        Expr::Lambda { params, statements } => {
            lemma_same_statements_reflexive(statements@);
        },
        Expr::Paren(inner) => {
            lemma_same_expr_reflexive(*inner);
        },
        Expr::CallSystemFun { fun, params } => {
            lemma_same_exprs_reflexive(params@);
        },
        Expr::CallBinFun { fun, a, b } => {
            lemma_same_expr_reflexive(*a);
            lemma_same_expr_reflexive(*b);
        },
        Expr::CallUniFun { fun, a } => {
            lemma_same_expr_reflexive(*a);
        },
        _ => {},
    }
}

/// Every list of expressions has the same content as itself.
proof fn lemma_same_exprs_reflexive(a: Seq<Expr>)
    ensures
        same_exprs(a, a),
    decreases a,
{
    assert forall|i: int| 0 <= i < a.len() implies same_expr(#[trigger] a[i], a[i]) by {
        lemma_same_expr_reflexive(a[i]);
    }
}

/// Every list of table entries has the same content as itself.
proof fn lemma_same_entries_reflexive(a: Seq<InlineTableAssign>)
    ensures
        same_entries(a, a),
    decreases a,
{
    assert forall|i: int| 0 <= i < a.len() implies (#[trigger] a[i]).key@ == a[i].key@
        && same_expr(a[i].value, a[i].value) by {
        lemma_same_expr_reflexive(a[i].value);
    }
}

/// Every statement has the same content as itself.
pub proof fn lemma_same_statement_reflexive(a: Statement)
    ensures
        same_statement(a, a),
    decreases a,
{
    match a {
        Statement::Return(exprs) => {
            lemma_same_exprs_reflexive(exprs@);
        },
        Statement::If { if_statements, else_statement } => {
            let clauses = if_statements@;
            assert forall|i: int| 0 <= i < clauses.len() implies same_expr(
                (#[trigger] clauses[i]).test,
                clauses[i].test,
            ) && same_statements(clauses[i].statements@, clauses[i].statements@) by {
                lemma_same_expr_reflexive(clauses[i].test);
                lemma_same_statements_reflexive(clauses[i].statements@);
            }
            lemma_same_statements_reflexive(else_statement@);
        },
        Statement::AssignVar { vars, exprs } => {
            lemma_same_exprs_reflexive(exprs@);
        },
        Statement::AssignListAccess { target, index, new_value } => {
            lemma_same_expr_reflexive(target);
            lemma_same_expr_reflexive(index);
            lemma_same_expr_reflexive(new_value);
        },
        Statement::AssignTableAccess { target, slot, new_value } => {
            lemma_same_expr_reflexive(target);
            lemma_same_expr_reflexive(new_value);
        },
        Statement::While { test, statements } => {
            lemma_same_expr_reflexive(test);
            lemma_same_statements_reflexive(statements@);
        },
        Statement::Repeat { test, statements } => {
            lemma_same_expr_reflexive(test);
            lemma_same_statements_reflexive(statements@);
        },
        Statement::For { vars, iterator, statements } => {
            lemma_same_expr_reflexive(iterator);
            lemma_same_statements_reflexive(statements@);
        },
        Statement::ForI { var, start, end, increment, statements } => {
            lemma_same_expr_reflexive(start);
            lemma_same_expr_reflexive(end);
            match increment {
                Some(step) => {
                    lemma_same_expr_reflexive(step);
                },
                None => {},
            }
            lemma_same_statements_reflexive(statements@);
        },
        Statement::FunCall { fun, params } => {
            lemma_same_expr_reflexive(fun);
            lemma_same_exprs_reflexive(params@);
        },
        Statement::CallSystemFun { fun, params } => {
            lemma_same_exprs_reflexive(params@);
        },
        _ => {},
    }
}

/// Every list of statements has the same content as itself.
pub proof fn lemma_same_statements_reflexive(a: Seq<Statement>)
    ensures
        same_statements(a, a),
    decreases a,
{
    assert forall|i: int| 0 <= i < a.len() implies same_statement(#[trigger] a[i], a[i]) by {
        lemma_same_statement_reflexive(a[i]);
    }
}

/// The same names give the same list of names.
proof fn lemma_same_names_text(a: Seq<String>, b: Seq<String>)
    requires
        same_names(a, b),
    ensures
        names_text(a) == names_text(b),
    decreases a.len(),
{
    if a.len() >= 2 {
        assert(same_names(a.drop_last(), b.drop_last())) by {
            assert forall|i: int| 0 <= i < a.drop_last().len() implies (
            #[trigger] a.drop_last()[i])@ == b.drop_last()[i]@ by {
                assert(a[i]@ == b[i]@);
            }
        }
        lemma_same_names_text(a.drop_last(), b.drop_last());
        assert(a.last()@ == b.last()@) by {
            assert(a[a.len() - 1]@ == b[a.len() - 1]@);
        }
    } else if a.len() == 1 {
        assert(a[0]@ == b[0]@);
    }
}

/// Expressions of the same content render as the same text.
pub proof fn lemma_same_expr_text(a: Expr, b: Expr, depth: nat)
    requires
        same_expr(a, b),
    ensures
        expr_text(a, depth) == expr_text(b, depth),
    decreases a,
{
    match (a, b) {
        (Expr::TableCons(x), Expr::TableCons(y)) => {
            lemma_same_entries_text(x@, y@, depth);
        },
        (Expr::TableAccess { expr: x, slot: s }, Expr::TableAccess { expr: y, slot: t }) => {
            lemma_same_expr_text(*x, *y, depth);
        },
        (Expr::ListCons(x), Expr::ListCons(y)) => {
            lemma_same_list_text(x@, y@, depth);
        },
        (Expr::ListAccess { expr: x, index: i }, Expr::ListAccess { expr: y, index: j }) => {
            lemma_same_expr_text(*x, *y, depth);
            lemma_same_expr_text(*i, *j, depth);
        },
        (Expr::FunCall { fun: f, params: p }, Expr::FunCall { fun: g, params: q }) => {
            lemma_same_expr_text(*f, *g, depth);
            lemma_same_list_text(p@, q@, depth);
        },
        (
            Expr::Lambda { params: p, statements: s },
            Expr::Lambda { params: q, statements: t },
        ) => {
            lemma_same_names_text(p@, q@);
            lemma_same_block_text(s@, t@, depth + 1);
        },
        (Expr::Paren(x), Expr::Paren(y)) => {
            lemma_same_expr_text(*x, *y, depth);
        },
        (
            Expr::CallSystemFun { fun: f, params: p },
            Expr::CallSystemFun { fun: g, params: q },
        ) => {
            lemma_same_list_text(p@, q@, depth);
        },
        (Expr::CallBinFun { fun: f, a: x, b: u }, Expr::CallBinFun { fun: g, a: y, b: v }) => {
            lemma_same_expr_text(*x, *y, depth);
            lemma_same_expr_text(*u, *v, depth);
        },
        (Expr::CallUniFun { fun: f, a: x }, Expr::CallUniFun { fun: g, a: y }) => {
            lemma_same_expr_text(*x, *y, depth);
        },
        _ => {},
    }
}

/// Lists of expressions of the same content render as the same text.
proof fn lemma_same_list_text(a: Seq<Expr>, b: Seq<Expr>, depth: nat)
    requires
        same_exprs(a, b),
    ensures
        list_text(a, depth) == list_text(b, depth),
    decreases a,
{
    if a.len() >= 2 {
        assert(same_exprs(a.drop_last(), b.drop_last())) by {
            assert forall|i: int| 0 <= i < a.drop_last().len() implies same_expr(
                #[trigger] a.drop_last()[i],
                b.drop_last()[i],
            ) by {
                assert(same_expr(a[i], b[i]));
            }
        }
        lemma_same_list_text(a.drop_last(), b.drop_last(), depth);
        assert(same_expr(a[a.len() - 1], b[a.len() - 1]));
        lemma_same_expr_text(a.last(), b.last(), depth);
    } else if a.len() == 1 {
        assert(same_expr(a[0], b[0]));
        lemma_same_expr_text(a[0], b[0], depth);
    }
}

/// Table entries of the same content render as the same text.
proof fn lemma_same_entries_text(
    a: Seq<InlineTableAssign>,
    b: Seq<InlineTableAssign>,
    depth: nat,
)
    requires
        same_entries(a, b),
    ensures
        entries_text(a, depth) == entries_text(b, depth),
    decreases a,
{
    if a.len() >= 2 {
        assert(same_entries(a.drop_last(), b.drop_last())) by {
            assert forall|i: int| 0 <= i < a.drop_last().len() implies (
            #[trigger] a.drop_last()[i]).key@ == b.drop_last()[i].key@ && same_expr(
                a.drop_last()[i].value,
                b.drop_last()[i].value,
            ) by {
                assert(a[i].key@ == b[i].key@);
            }
        }
        lemma_same_entries_text(a.drop_last(), b.drop_last(), depth);
        assert(a[a.len() - 1].key@ == b[a.len() - 1].key@);
        lemma_same_expr_text(a.last().value, b.last().value, depth);
        assert(entry_text(a.last(), depth) == entry_text(b.last(), depth));
    } else if a.len() == 1 {
        assert(a[0].key@ == b[0].key@);
        lemma_same_expr_text(a[0].value, b[0].value, depth);
        assert(entry_text(a[0], depth) == entry_text(b[0], depth));
    }
}

/// Enclosed statements of the same content render as the same text.
pub proof fn lemma_same_block_text(a: Seq<Statement>, b: Seq<Statement>, depth: nat)
    requires
        same_statements(a, b),
    ensures
        block_text(a, depth) == block_text(b, depth),
    decreases a,
{
    if a.len() >= 1 {
        assert(same_statements(a.drop_last(), b.drop_last())) by {
            assert forall|i: int| 0 <= i < a.drop_last().len() implies same_statement(
                #[trigger] a.drop_last()[i],
                b.drop_last()[i],
            ) by {
                assert(same_statement(a[i], b[i]));
            }
        }
        lemma_same_block_text(a.drop_last(), b.drop_last(), depth);
        assert(same_statement(a[a.len() - 1], b[a.len() - 1]));
        lemma_same_statement_text(a.last(), b.last(), depth);
    }
}

/// Clauses of the same content render as the same text.
proof fn lemma_same_clauses_text(a: Seq<If>, b: Seq<If>, depth: nat)
    requires
        same_clauses(a, b),
    ensures
        clauses_text(a, depth) == clauses_text(b, depth),
    decreases a,
{
    if a.len() >= 1 {
        if a.len() >= 2 {
            assert(same_clauses(a.drop_last(), b.drop_last())) by {
                assert forall|i: int| 0 <= i < a.drop_last().len() implies same_expr(
                    (#[trigger] a.drop_last()[i]).test,
                    b.drop_last()[i].test,
                ) && same_statements(
                    a.drop_last()[i].statements@,
                    b.drop_last()[i].statements@,
                ) by {
                    assert(same_expr(a[i].test, b[i].test));
                }
            }
            lemma_same_clauses_text(a.drop_last(), b.drop_last(), depth);
        }
        assert(same_expr(a[a.len() - 1].test, b[a.len() - 1].test));
        lemma_same_expr_text(a.last().test, b.last().test, depth);
        lemma_same_block_text(a.last().statements@, b.last().statements@, depth + 1);
        assert(if_text(a.last(), depth) == if_text(b.last(), depth));
    }
}

/// Statements of the same content render as the same text.
pub proof fn lemma_same_statement_text(a: Statement, b: Statement, depth: nat)
    requires
        same_statement(a, b),
    ensures
        statement_text(a, depth) == statement_text(b, depth),
    decreases a,
{
    match (a, b) {
        (Statement::Return(x), Statement::Return(y)) => {
            lemma_same_list_text(x@, y@, depth);
        },
        (
            Statement::If { if_statements: c, else_statement: e },
            Statement::If { if_statements: d, else_statement: f },
        ) => {
            lemma_same_clauses_text(c@, d@, depth);
            lemma_same_block_text(e@, f@, depth + 1);
            assert(else_text(e, depth) == else_text(f, depth));
        },
        (
            Statement::AssignVar { vars: n, exprs: x },
            Statement::AssignVar { vars: m, exprs: y },
        ) => {
            lemma_same_names_text(n@, m@);
            lemma_same_list_text(x@, y@, depth);
        },
        (
            Statement::AssignListAccess { target: t, index: i, new_value: v },
            Statement::AssignListAccess { target: u, index: j, new_value: w },
        ) => {
            lemma_same_expr_text(t, u, depth);
            lemma_same_expr_text(i, j, depth);
            lemma_same_expr_text(v, w, depth);
        },
        (
            Statement::AssignTableAccess { target: t, slot: s, new_value: v },
            Statement::AssignTableAccess { target: u, slot: r, new_value: w },
        ) => {
            lemma_same_expr_text(t, u, depth);
            lemma_same_expr_text(v, w, depth);
        },
        (
            Statement::While { test: t, statements: s },
            Statement::While { test: u, statements: r },
        ) => {
            lemma_same_expr_text(t, u, depth);
            lemma_same_block_text(s@, r@, depth + 1);
        },
        (
            Statement::Repeat { test: t, statements: s },
            Statement::Repeat { test: u, statements: r },
        ) => {
            lemma_same_expr_text(t, u, depth);
            lemma_same_block_text(s@, r@, depth + 1);
        },
        (
            Statement::For { vars: n, iterator: i, statements: s },
            Statement::For { vars: m, iterator: j, statements: r },
        ) => {
            lemma_same_names_text(n@, m@);
            lemma_same_expr_text(i, j, depth);
            lemma_same_block_text(s@, r@, depth + 1);
        },
        (
            Statement::ForI { var: n, start: x, end: y, increment: i, statements: s },
            Statement::ForI { var: m, start: u, end: v, increment: j, statements: r },
        ) => {
            lemma_same_expr_text(x, u, depth);
            lemma_same_expr_text(y, v, depth);
            match (i, j) {
                (Some(p), Some(q)) => {
                    lemma_same_expr_text(p, q, depth);
                },
                _ => {},
            }
            assert(step_text(i, depth) == step_text(j, depth));
            lemma_same_block_text(s@, r@, depth + 1);
        },
        (Statement::FunCall { fun: f, params: p }, Statement::FunCall { fun: g, params: q }) => {
            lemma_same_expr_text(f, g, depth);
            lemma_same_list_text(p@, q@, depth);
        },
        (
            Statement::CallSystemFun { fun: f, params: p },
            Statement::CallSystemFun { fun: g, params: q },
        ) => {
            lemma_same_list_text(p@, q@, depth);
        },
        _ => {},
    }
}

/// Programs of the same content render as the same text: the rendering of a
/// tree depends on what the tree says and on nothing else.
pub proof fn lemma_same_program_text(a: Seq<Statement>, b: Seq<Statement>)
    requires
        same_statements(a, b),
    ensures
        program_text(a) == program_text(b),
{
    lemma_same_block_text(a, b, 0);
}

} // verus!
