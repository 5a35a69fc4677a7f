use lua_gen::lua_5_2::ast::{Expr, If, Statement};
use lua_gen::lua_5_2::gen::gen_code;

#[test]
fn should_handle_if() {
    let if_statements = vec![If {
        test: Expr::Number("0".to_string()),
        statements: vec![Statement::Break, Statement::Break],
    }];

    let ast = vec![Statement::If { if_statements, else_statement: vec![] }];

    let output = gen_code(ast);

    assert_eq!(
        output,
        r#"if 0 then
    break
    break
end
"#
    );
}

#[test]
fn should_handle_if_with_elseif() {
    let if_statements = vec![
        If {
            test: Expr::Number("0".to_string()),
            statements: vec![Statement::Break, Statement::Break],
        },
        If {
            test: Expr::Number("1".to_string()),
            statements: vec![Statement::Break, Statement::Break],
        },
    ];

    let ast = vec![Statement::If { if_statements, else_statement: vec![] }];

    let output = gen_code(ast);

    assert_eq!(
        output,
        r#"if 0 then
    break
    break
elseif 1 then
    break
    break
end
"#
    );
}

#[test]
fn should_handle_if_with_elseif_with_elseif() {
    let if_statements = vec![
        If {
            test: Expr::Number("0".to_string()),
            statements: vec![Statement::Break, Statement::Break],
        },
        If {
            test: Expr::Number("1".to_string()),
            statements: vec![Statement::Break, Statement::Break],
        },
        If {
            test: Expr::Number("2".to_string()),
            statements: vec![Statement::Break, Statement::Break],
        },
    ];

    let ast = vec![Statement::If { if_statements, else_statement: vec![] }];

    let output = gen_code(ast);

    assert_eq!(
        output,
        r#"if 0 then
    break
    break
elseif 1 then
    break
    break
elseif 2 then
    break
    break
end
"#
    );
}

#[test]
fn should_handle_if_with_elseif_with_elseif_with_else() {
    let if_statements = vec![
        If {
            test: Expr::Number("0".to_string()),
            statements: vec![Statement::Break, Statement::Break],
        },
        If {
            test: Expr::Number("1".to_string()),
            statements: vec![Statement::Break, Statement::Break],
        },
        If {
            test: Expr::Number("2".to_string()),
            statements: vec![Statement::Break, Statement::Break],
        },
    ];

    let ast = vec![Statement::If {
        if_statements,
        else_statement: vec![Statement::Break, Statement::Break],
    }];

    let output = gen_code(ast);

    assert_eq!(
        output,
        r#"if 0 then
    break
    break
elseif 1 then
    break
    break
elseif 2 then
    break
    break
else
    break
    break
end
"#
    );
}

#[test]
fn should_handle_if_with_else() {
    let if_statements = vec![If {
        test: Expr::Number("0".to_string()),
        statements: vec![Statement::Break, Statement::Break],
    }];

    let ast = vec![Statement::If {
        if_statements,
        else_statement: vec![Statement::Break, Statement::Break],
    }];

    let output = gen_code(ast);

    assert_eq!(
        output,
        r#"if 0 then
    break
    break
else
    break
    break
end
"#
    );
}

#[test]
fn should_handle_if_with_nested_if() {
    let if_statements = vec![If {
        test: Expr::Number("0".to_string()),
        statements: vec![Statement::If {
            if_statements: vec![If {
                test: Expr::Number("1".to_string()),
                statements: vec![Statement::Break, Statement::Break],
            }],
            else_statement: vec![],
        }],
    }];

    let ast = vec![Statement::If { if_statements, else_statement: vec![] }];

    let output = gen_code(ast);

    assert_eq!(
        output,
        r#"if 0 then
    if 1 then
        break
        break
    end
end
"#
    );
}

fn number(text: &str) -> Expr {
    Expr::Number(text.to_string())
}

#[test]
fn if_with_empty_body_goes_straight_to_end() {
    let ast = vec![Statement::If {
        if_statements: vec![If { test: number("0"), statements: vec![] }],
        else_statement: vec![],
    }];
    assert_eq!(gen_code(ast), "if 0 then\nend\n");
}

#[test]
fn elseif_with_empty_bodies() {
    let ast = vec![Statement::If {
        if_statements: vec![
            If { test: number("0"), statements: vec![] },
            If { test: number("1"), statements: vec![] },
        ],
        else_statement: vec![Statement::Break],
    }];
    assert_eq!(gen_code(ast), "if 0 then\nelseif 1 then\nelse\n    break\nend\n");
}

#[test]
fn if_without_clauses_is_only_its_end() {
    let ast = vec![Statement::If { if_statements: vec![], else_statement: vec![] }];
    assert_eq!(gen_code(ast), "end\n");
}

#[test]
fn if_without_clauses_keeps_its_else() {
    let ast = vec![Statement::If {
        if_statements: vec![],
        else_statement: vec![Statement::Break],
    }];
    assert_eq!(gen_code(ast), "else\n    break\nend\n");
}

#[test]
fn nested_if_with_else_at_each_level() {
    let inner = Statement::If {
        if_statements: vec![If { test: number("1"), statements: vec![Statement::Break] }],
        else_statement: vec![Statement::LocalVarDeclare("x".to_string())],
    };
    let ast = vec![Statement::If {
        if_statements: vec![If { test: number("0"), statements: vec![inner] }],
        else_statement: vec![Statement::Break],
    }];
    assert_eq!(
        gen_code(ast),
        "if 0 then\n    if 1 then\n        break\n    else\n        local x\n    end\nelse\n    break\nend\n"
    );
}
