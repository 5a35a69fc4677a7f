use lua_gen::lua_5_2::ast::{Expr, If, Statement};
use lua_gen::lua_5_2::gen::{gen_code, gen_expr, gen_statement};

fn var(name: &str) -> Expr {
    Expr::Var(name.to_string())
}

fn sample() -> Vec<Statement> {
    let condition = Statement::If {
        if_statements: vec![
            If { test: var("a"), statements: vec![Statement::Return(vec![var("a")])] },
            If { test: var("b"), statements: vec![Statement::Break] },
        ],
        else_statement: vec![Statement::CallSystemFun {
            fun: "print".to_string(),
            params: vec![Expr::String("\"none\"".to_string())],
        }],
    };
    let body = vec![Statement::LocalVarDeclare("a".to_string()), condition];
    vec![
        Statement::LocalVarDeclare("n".to_string()),
        Statement::While { test: Expr::Bool(true), statements: body },
    ]
}

const SAMPLE_TEXT: &str = "local n\nwhile true do\n    local a\n    if a then\n        return a\n    elseif b then\n        break\n    else\n        print( \"none\" )\n    end\nend\n";

fn leading_spaces(line: &str) -> usize {
    line.chars().take_while(|c| *c == ' ').count()
}

#[test]
fn program_without_statements_is_empty() {
    assert_eq!(gen_code(vec![]), "");
}

#[test]
fn each_statement_of_a_program_ends_its_line() {
    let ast = vec![Statement::LocalVarDeclare("x".to_string()), Statement::Break];
    assert_eq!(gen_code(ast), "local x\nbreak\n");
}

#[test]
fn program_of_nested_statements() {
    assert_eq!(gen_code(sample()), SAMPLE_TEXT);
}

#[test]
fn program_is_its_statements_at_level_zero() {
    let mut expected = String::new();
    for statement in sample() {
        expected.push_str(&gen_statement(statement, 0));
        expected.push('\n');
    }
    assert_eq!(gen_code(sample()), expected);
}

#[test]
fn rendering_twice_gives_the_same_text() {
    assert_eq!(gen_code(sample()), gen_code(sample()));
    let statement = || Statement::Repeat { test: var("x"), statements: sample() };
    assert_eq!(gen_statement(statement(), 2), gen_statement(statement(), 2));
    let literal = || Expr::Lambda { params: vec!["p".to_string()], statements: sample() };
    assert_eq!(gen_expr(literal(), 1), gen_expr(literal(), 1));
}

#[test]
fn every_statement_renders_as_some_text() {
    let statements = vec![
        Statement::LocalVarDeclare("".to_string()),
        Statement::Return(vec![]),
        Statement::Break,
        Statement::If { if_statements: vec![], else_statement: vec![] },
        Statement::AssignVar { vars: vec![], exprs: vec![] },
        Statement::AssignListAccess { target: var(""), index: var(""), new_value: var("") },
        Statement::AssignTableAccess {
            target: var(""),
            slot: "".to_string(),
            new_value: var(""),
        },
        Statement::While { test: var(""), statements: vec![] },
        Statement::Repeat { test: var(""), statements: vec![] },
        Statement::For { vars: vec![], iterator: var(""), statements: vec![] },
        Statement::ForI {
            var: "".to_string(),
            start: var(""),
            end: var(""),
            increment: None,
            statements: vec![],
        },
        Statement::FunCall { fun: var(""), params: vec![] },
        Statement::CallSystemFun { fun: "".to_string(), params: vec![] },
    ];
    for statement in statements {
        assert!(!gen_statement(statement, 0).is_empty());
    }
}

#[test]
fn lines_of_a_body_are_four_spaces_deeper_than_its_opening_line() {
    let text = gen_code(sample());
    let lines: Vec<&str> = text.lines().collect();
    assert_eq!(lines.len(), 11);
    // `while` opens at level 0 on line 1 and closes on line 10.
    assert_eq!(leading_spaces(lines[1]), 0);
    assert_eq!(leading_spaces(lines[10]), 0);
    for line in &lines[2..10] {
        assert!(leading_spaces(line) >= 4);
    }
    // Its own statements begin with exactly four spaces.
    assert_eq!(leading_spaces(lines[2]), 4);
    assert_eq!(leading_spaces(lines[3]), 4);
    // `if` opens at level 1; `elseif`, `else` and `end` stand at the same level.
    assert_eq!(lines[3], "    if a then");
    assert_eq!(lines[5], "    elseif b then");
    assert_eq!(lines[7], "    else");
    assert_eq!(lines[9], "    end");
    for index in [4, 6, 8] {
        assert_eq!(leading_spaces(lines[index]), 8);
    }
}

#[test]
fn nested_statement_is_indented_at_every_line() {
    let statement = Statement::While { test: var("x"), statements: sample() };
    let text = gen_statement(statement, 3);
    for line in text.lines() {
        assert!(leading_spaces(line) >= 12);
    }
    assert_eq!(leading_spaces(text.lines().next().unwrap()), 12);
    assert_eq!(text.lines().last().unwrap(), "            end");
}

#[test]
fn conditional_without_else_statements_has_no_else() {
    let ast = vec![Statement::If {
        if_statements: vec![If { test: var("a"), statements: vec![Statement::Break] }],
        else_statement: vec![],
    }];
    let text = gen_code(ast);
    assert_eq!(text, "if a then\n    break\nend\n");
    assert!(!text.contains("else"));
}

#[test]
fn elseif_brings_the_word_else_but_no_else_line() {
    let ast = vec![Statement::If {
        if_statements: vec![
            If { test: var("a"), statements: vec![Statement::Break] },
            If { test: var("b"), statements: vec![Statement::Break] },
        ],
        else_statement: vec![],
    }];
    let text = gen_code(ast);
    assert!(text.contains("elseif"));
    assert!(text.lines().all(|line| line.trim() != "else"));
}

#[test]
fn conditional_with_else_statements_has_the_else_line() {
    let ast = vec![Statement::If {
        if_statements: vec![If { test: var("a"), statements: vec![] }],
        else_statement: vec![Statement::Break],
    }];
    let text = gen_code(ast);
    assert_eq!(text.lines().filter(|line| *line == "else").count(), 1);
}
