use lua_gen::lua_5_2::ast::{Expr, Statement};
use lua_gen::lua_5_2::gen::{gen_code, gen_statement};

fn var(name: &str) -> Expr {
    Expr::Var(name.to_string())
}

fn number(text: &str) -> Expr {
    Expr::Number(text.to_string())
}

#[test]
fn local_declaration() {
    assert_eq!(gen_statement(Statement::LocalVarDeclare("x".to_string()), 0), "local x");
    assert_eq!(gen_statement(Statement::LocalVarDeclare("x".to_string()), 2), "        local x");
}

#[test]
fn return_of_nothing_keeps_its_space() {
    assert_eq!(gen_statement(Statement::Return(vec![]), 0), "return ");
}

#[test]
fn return_of_values() {
    assert_eq!(gen_statement(Statement::Return(vec![number("1")]), 0), "return 1");
    assert_eq!(
        gen_statement(Statement::Return(vec![number("1"), var("x"), Expr::Nil]), 1),
        "    return 1, x, nil"
    );
}

#[test]
fn break_statement() {
    assert_eq!(gen_statement(Statement::Break, 0), "break");
    assert_eq!(gen_statement(Statement::Break, 1), "    break");
}

#[test]
fn assignment_to_variables() {
    let statement = Statement::AssignVar {
        vars: vec!["a".to_string(), "b".to_string()],
        exprs: vec![number("1"), number("2")],
    };
    assert_eq!(gen_statement(statement, 0), "a, b = 1, 2");
}

#[test]
fn assignment_does_not_check_arity() {
    let statement = Statement::AssignVar {
        vars: vec!["a".to_string()],
        exprs: vec![number("1"), number("2"), number("3")],
    };
    assert_eq!(gen_statement(statement, 1), "    a = 1, 2, 3");
    let empty = Statement::AssignVar { vars: vec![], exprs: vec![] };
    assert_eq!(gen_statement(empty, 0), " = ");
}

#[test]
fn assignment_is_followed_by_one_line_break_in_a_program() {
    let ast = vec![
        Statement::AssignVar { vars: vec!["a".to_string()], exprs: vec![number("1")] },
        Statement::Break,
    ];
    assert_eq!(gen_code(ast), "a = 1\nbreak\n");
}

#[test]
fn assignment_to_list_element() {
    let statement = Statement::AssignListAccess {
        target: var("t"),
        index: number("1"),
        new_value: Expr::Nil,
    };
    assert_eq!(gen_statement(statement, 0), "t[ 1 ] = nil");
}

#[test]
fn assignment_to_table_field() {
    let statement = Statement::AssignTableAccess {
        target: var("t"),
        slot: "x".to_string(),
        new_value: Expr::Bool(false),
    };
    assert_eq!(gen_statement(statement, 1), "    t.x = false");
}

#[test]
fn while_loop() {
    let statement = Statement::While { test: Expr::Bool(true), statements: vec![Statement::Break] };
    assert_eq!(gen_statement(statement, 0), "while true do\n    break\nend");
}

#[test]
fn while_loop_without_statements() {
    let statement = Statement::While { test: var("x"), statements: vec![] };
    assert_eq!(gen_statement(statement, 1), "    while x do\n    end");
}

#[test]
fn repeat_loop_closes_with_until() {
    let statement = Statement::Repeat {
        test: var("done"),
        statements: vec![Statement::Break, Statement::Break],
    };
    assert_eq!(gen_statement(statement, 0), "repeat\n    break\n    break\nuntil done");
}

#[test]
fn repeat_loop_nested() {
    let statement = Statement::Repeat { test: var("done"), statements: vec![Statement::Break] };
    assert_eq!(gen_statement(statement, 1), "    repeat\n        break\n    until done");
}

#[test]
fn generic_for_loop() {
    let statement = Statement::For {
        vars: vec!["k".to_string(), "v".to_string()],
        iterator: Expr::FunCall { fun: Box::new(var("pairs")), params: vec![var("t")] },
        statements: vec![Statement::Break],
    };
    assert_eq!(gen_statement(statement, 0), "for k, v in pairs( t ) do\n    break\nend");
}

#[test]
fn generic_for_loop_with_one_name() {
    let statement =
        Statement::For { vars: vec!["x".to_string()], iterator: var("it"), statements: vec![] };
    assert_eq!(gen_statement(statement, 0), "for x in it do\nend");
}

#[test]
fn numeric_for_loop_without_step_counts_by_one() {
    let ast = vec![Statement::ForI {
        var: "i".to_string(),
        start: number("1"),
        end: number("10"),
        increment: None,
        statements: vec![Statement::Break],
    }];
    assert_eq!(gen_code(ast), "for i = 1, 10, 1 do\n    break\nend\n");
}

#[test]
fn numeric_for_loop_with_step() {
    let statement = Statement::ForI {
        var: "i".to_string(),
        start: number("10"),
        end: number("1"),
        increment: Some(number("-2")),
        statements: vec![Statement::Break],
    };
    assert_eq!(gen_statement(statement, 1), "    for i = 10, 1, -2 do\n        break\n    end");
}

#[test]
fn call_statement() {
    let statement = Statement::FunCall { fun: var("f"), params: vec![number("1"), number("2")] };
    assert_eq!(gen_statement(statement, 0), "f( 1, 2 )");
    let bare = Statement::FunCall { fun: var("f"), params: vec![] };
    assert_eq!(gen_statement(bare, 1), "    f(  )");
}

#[test]
fn system_call_statement() {
    let statement = Statement::CallSystemFun { fun: "print".to_string(), params: vec![var("x")] };
    assert_eq!(gen_statement(statement, 0), "print( x )");
}

#[test]
fn loops_nest_one_level_at_a_time() {
    let innermost = Statement::Repeat { test: var("c"), statements: vec![Statement::Break] };
    let inner = Statement::While { test: var("b"), statements: vec![innermost] };
    let outer = Statement::While { test: var("a"), statements: vec![inner] };
    assert_eq!(
        gen_statement(outer, 0),
        "while a do\n    while b do\n        repeat\n            break\n        until c\n    end\nend"
    );
}

#[test]
fn function_literal_in_a_statement_closes_at_the_level_of_the_statement() {
    let literal = Expr::Lambda { params: vec![], statements: vec![Statement::Break] };
    let assign = Statement::AssignVar { vars: vec!["f".to_string()], exprs: vec![literal] };
    let ast = vec![Statement::While { test: Expr::Bool(true), statements: vec![assign] }];
    assert_eq!(
        gen_code(ast),
        "while true do\n    f = function ()         break\n    end\nend\n"
    );
}
