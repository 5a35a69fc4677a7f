//! The conditional: how its clauses end, and what becomes of `else` where
//! there are no statements for it.

use vstd::prelude::*;
use super::ast::{If, Statement};
use super::lines::{occurs, occurs_at};
use super::text::{
    block_text, clauses_text, else_text, if_text, indentation, lemma_concat_assoc,
    statement_text,
};

verus! {

/// Enclosed statements, where there are any, end with a line break.
pub proof fn lemma_block_text_ends_line(statements: Seq<Statement>, depth: nat)
    requires
        statements.len() > 0,
    ensures
        block_text(statements, depth).len() > 0,
        block_text(statements, depth).last() == '\n',
{
    reveal_strlit("\n");
}

/// What follows the keyword of a clause ends with a line break: the one after
/// `then`, or the one after the last guarded statement.
pub proof fn lemma_if_text_ends_line(clause: If, depth: nat)
    ensures
        if_text(clause, depth).len() > 0,
        if_text(clause, depth).last() == '\n',
{
    reveal_strlit(" then\n");
    if clause.statements@.len() > 0 {
        lemma_block_text_ends_line(clause.statements@, depth + 1);
    }
}

/// The closing line of a block at nesting level `depth` does not hold the
/// word `else`.
proof fn lemma_no_else_in_end(depth: nat, at: int)
    ensures
        !occurs_at(indentation(depth) + "end"@, "else"@, at),
{
    reveal_strlit("end");
    reveal_strlit("else");
    let line = indentation(depth) + "end"@;
    if occurs_at(line, "else"@, at) {
        assert(line[at + 0] == "else"@[0]);
        assert(line[at + 1] == "else"@[1]);
    }
}

/// A conditional without statements for `else` has no `else` line: after its
/// last clause comes `end`.
pub proof fn lemma_else_omitted(statement: Statement, depth: nat)
    requires
        statement matches Statement::If { else_statement, .. } && else_statement@.len() == 0,
    ensures
        statement matches Statement::If { if_statements, .. } && statement_text(statement, depth)
            == clauses_text(if_statements@, depth) + indentation(depth) + "end"@,
{
    match statement {
        Statement::If { if_statements, else_statement } => {
            assert(else_text(else_statement, depth) =~= Seq::<char>::empty());
            assert(clauses_text(if_statements@, depth) + Seq::<char>::empty() =~= clauses_text(
                if_statements@,
                depth,
            ));
        },
        _ => {},
    }
}

/// Between `if` and `end`, the word `else` stands only inside what lies
/// between them, provided that ends with a line break.
proof fn lemma_else_within(inner: Seq<char>, depth: nat)
    requires
        inner.len() > 0,
        inner.last() == '\n',
    ensures
        occurs(indentation(depth) + "if "@ + inner + indentation(depth) + "end"@, "else"@)
            <==> occurs(inner, "else"@),
{
    reveal_strlit("else");
    reveal_strlit("if ");
    let word = "else"@;
    let margin = indentation(depth);
    let head = margin + "if "@;
    let line = margin + "end"@;
    let text = margin + "if "@ + inner + margin + "end"@;
    assert(text =~= head + inner + line);
    let from = head.len() as int;
    let to = from + inner.len();
    if occurs(inner, word) {
        let at = choose|at: int| occurs_at(inner, word, at);
        assert forall|k: int| 0 <= k < word.len() implies text[from + at + k]
            == #[trigger] word[k] by {
            assert(inner[at + k] == word[k]);
        }
        assert(occurs_at(text, word, from + at));
    }
    if occurs(text, word) {
        let at = choose|at: int| occurs_at(text, word, at);
        assert(text[at + 0] == word[0]);
        assert(text[at + 1] == word[1]);
        assert(text[at + 2] == word[2]);
        assert(text[at + 3] == word[3]);
        assert(text[from - 1] == head[from - 1]);
        assert(text[to - 1] == inner[inner.len() - 1]);
        if at < from {
            assert(text[at] == head[at]);
            assert(false);
        } else if at + 4 <= to {
            assert forall|k: int| 0 <= k < word.len() implies inner[at - from + k]
                == #[trigger] word[k] by {
                assert(text[at + k] == word[k]);
            }
            assert(occurs_at(inner, word, at - from));
        } else if at < to {
            assert(false);
        } else {
            assert forall|k: int| 0 <= k < word.len() implies line[at - to + k]
                == #[trigger] word[k] by {
                assert(text[at + k] == word[k]);
            }
            assert(occurs_at(line, word, at - to));
            lemma_no_else_in_end(depth, at - to);
        }
    }
}

/// A text that goes on with `elseif` holds the word `else`.
proof fn lemma_else_in_elseif(before: Seq<char>, after: Seq<char>)
    ensures
        occurs(before + "elseif "@ + after, "else"@),
{
    reveal_strlit("else");
    reveal_strlit("elseif ");
    let word = "else"@;
    let text = before + "elseif "@ + after;
    let at = before.len() as int;
    assert forall|k: int| 0 <= k < word.len() implies text[at + k] == #[trigger] word[k] by {
        assert(text[at + k] == "elseif "@[k]);
    }
    assert(occurs_at(text, word, at));
}

/// In the rendering of a conditional without statements for `else`, the word
/// `else` occurs in two cases only: as the beginning of an `elseif`, where
/// the conditional has a second clause; or, where it has one clause, inside
/// that clause's own test or statements.
pub proof fn lemma_else_only_from_clauses(statement: Statement, depth: nat)
    requires
        statement matches Statement::If { else_statement, .. } && else_statement@.len() == 0,
    ensures
        statement matches Statement::If { if_statements, .. } && (occurs(
            statement_text(statement, depth),
            "else"@,
        ) <==> (if_statements@.len() >= 2 || (if_statements@.len() == 1 && occurs(
            if_text(if_statements@[0], depth),
            "else"@,
        )))),
{
    lemma_else_omitted(statement, depth);
    let text = statement_text(statement, depth);
    let margin = indentation(depth);
    match statement {
        Statement::If { if_statements, else_statement } => {
            let clauses = if_statements@;
            if clauses.len() == 0 {
                assert(text =~= margin + "end"@);
                assert forall|at: int| !occurs_at(text, "else"@, at) by {
                    lemma_no_else_in_end(depth, at);
                }
            } else if clauses.len() == 1 {
                let inner = if_text(clauses[0], depth);
                lemma_if_text_ends_line(clauses[0], depth);
                lemma_else_within(inner, depth);
            } else {
                let before = clauses_text(clauses.drop_last(), depth) + margin;
                let after = if_text(clauses.last(), depth) + margin + "end"@;
                lemma_else_in_elseif(before, after);
                assert(text =~= before + "elseif "@ + after);
            }
        },
        _ => {},
    }
}

/// A conditional with statements for `else` has the `else` line, at the
/// nesting level of the conditional, right after its last clause.
pub proof fn lemma_else_present(statement: Statement, depth: nat)
    requires
        statement matches Statement::If { else_statement, .. } && else_statement@.len() > 0,
    ensures
        statement matches Statement::If { if_statements, .. } && occurs_at(
            statement_text(statement, depth),
            indentation(depth) + "else\n"@,
            clauses_text(if_statements@, depth).len() as int,
        ),
{
    broadcast use lemma_concat_assoc;

    match statement {
        Statement::If { if_statements, else_statement } => {
            let before = clauses_text(if_statements@, depth);
            let line = indentation(depth) + "else\n"@;
            let rest = block_text(else_statement@, depth + 1) + (indentation(depth) + "end"@);
            let text = statement_text(statement, depth);
            assert(text == before + (line + rest));
            assert forall|k: int| 0 <= k < line.len() implies text[before.len() + k]
                == #[trigger] line[k] by {}
        },
        _ => {},
    }
}

} // verus!
