use lua_gen::lua_5_2::ast::{Expr, If, Statement};
use lua_gen::lua_5_2::gen::{gen_if, indent_text};

#[test]
fn clause_is_test_then_and_body_one_level_deeper() {
    let clause = If {
        test: Expr::Number("0".to_string()),
        statements: vec![Statement::Break, Statement::Break],
    };
    assert_eq!(gen_if(clause, 0), "0 then\n    break\n    break\n");
}

#[test]
fn clause_of_a_nested_conditional() {
    let clause = If { test: Expr::Var("ok".to_string()), statements: vec![Statement::Break] };
    assert_eq!(gen_if(clause, 2), "ok then\n            break\n");
}

#[test]
fn clause_without_statements_ends_after_then() {
    let clause = If { test: Expr::Bool(true), statements: vec![] };
    assert_eq!(gen_if(clause, 1), "true then\n");
}

#[test]
fn indentation_is_four_spaces_a_level() {
    assert_eq!(indent_text(0), "");
    assert_eq!(indent_text(1), "    ");
    assert_eq!(indent_text(3), "            ");
    assert_eq!(indent_text(25).len(), 100);
    assert!(indent_text(25).chars().all(|c| c == ' '));
}
