use lua_gen::lua_5_2::ast::{Expr, InlineTableAssign, Statement};
use lua_gen::lua_5_2::gen::gen_expr;

fn var(name: &str) -> Expr {
    Expr::Var(name.to_string())
}

fn number(text: &str) -> Expr {
    Expr::Number(text.to_string())
}

#[test]
fn literals_are_written_as_given() {
    assert_eq!(gen_expr(Expr::Nil, 0), "nil");
    assert_eq!(gen_expr(number("0x1F"), 0), "0x1F");
    assert_eq!(gen_expr(Expr::String("\"a\\nb\"".to_string()), 0), "\"a\\nb\"");
    assert_eq!(gen_expr(Expr::Bool(true), 0), "true");
    assert_eq!(gen_expr(Expr::Bool(false), 0), "false");
    assert_eq!(gen_expr(var("x"), 3), "x");
}

#[test]
fn text_without_characters_renders_as_nothing() {
    assert_eq!(gen_expr(var(""), 0), "");
    assert_eq!(gen_expr(number(""), 0), "");
    assert_eq!(gen_expr(Expr::String("".to_string()), 0), "");
    let postfix = Expr::CallUniFun { fun: "".to_string(), a: Box::new(var("")) };
    assert_eq!(gen_expr(postfix, 0), "");
}

#[test]
fn table_constructor() {
    let table = Expr::TableCons(vec![
        InlineTableAssign { key: "a".to_string(), value: number("1") },
        InlineTableAssign { key: "b".to_string(), value: Expr::Nil },
    ]);
    assert_eq!(gen_expr(table, 0), "{ [\"a\"] = 1; [\"b\"] = nil }");
}

#[test]
fn table_constructor_with_one_entry_and_with_none() {
    let one = Expr::TableCons(vec![InlineTableAssign { key: "k".to_string(), value: var("v") }]);
    assert_eq!(gen_expr(one, 0), "{ [\"k\"] = v }");
    assert_eq!(gen_expr(Expr::TableCons(vec![]), 0), "{  }");
}

#[test]
fn table_access_has_no_spaces() {
    let access = Expr::TableAccess { expr: Box::new(var("t")), slot: "x".to_string() };
    assert_eq!(gen_expr(access, 0), "t.x");
}

#[test]
fn list_constructor() {
    let list = Expr::ListCons(vec![number("1"), number("2"), number("3")]);
    assert_eq!(gen_expr(list, 0), "{ 1, 2, 3 }");
    assert_eq!(gen_expr(Expr::ListCons(vec![]), 0), "{  }");
}

#[test]
fn list_access_pads_its_brackets() {
    let access = Expr::ListAccess { expr: Box::new(var("t")), index: Box::new(number("1")) };
    assert_eq!(gen_expr(access, 0), "t[ 1 ]");
}

#[test]
fn call_pads_its_parentheses() {
    let call = Expr::FunCall { fun: Box::new(var("f")), params: vec![number("1"), var("x")] };
    assert_eq!(gen_expr(call, 0), "f( 1, x )");
    let bare = Expr::FunCall { fun: Box::new(var("f")), params: vec![] };
    assert_eq!(gen_expr(bare, 0), "f(  )");
}

#[test]
fn system_call() {
    let call = Expr::CallSystemFun { fun: "print".to_string(), params: vec![var("x"), var("y")] };
    assert_eq!(gen_expr(call, 0), "print( x, y )");
}

#[test]
fn function_literal_at_the_top_level() {
    let literal = Expr::Lambda {
        params: vec!["a".to_string(), "b".to_string()],
        statements: vec![Statement::Return(vec![var("a")])],
    };
    assert_eq!(gen_expr(literal, 0), "function (a, b)     return a\nend");
}

#[test]
fn function_literal_closes_at_the_level_it_is_given() {
    let literal = Expr::Lambda {
        params: vec!["a".to_string()],
        statements: vec![Statement::Break, Statement::Break],
    };
    assert_eq!(gen_expr(literal, 1), "function (a)         break\n        break\n    end");
}

#[test]
fn function_literal_without_statements() {
    let literal = Expr::Lambda { params: vec![], statements: vec![] };
    assert_eq!(gen_expr(literal, 0), "function () end");
    let nested = Expr::Lambda { params: vec![], statements: vec![] };
    assert_eq!(gen_expr(nested, 2), "function ()         end");
}

#[test]
fn parentheses_are_padded() {
    assert_eq!(gen_expr(Expr::Paren(Box::new(var("x"))), 0), "( x )");
}

#[test]
fn binary_operator_stands_between_spaces() {
    let sum = Expr::CallBinFun {
        fun: "+".to_string(),
        a: Box::new(var("a")),
        b: Box::new(number("1")),
    };
    assert_eq!(gen_expr(sum, 0), "a + 1");
}

#[test]
fn binary_operators_are_not_parenthesised_by_themselves() {
    let sum = Expr::CallBinFun {
        fun: "+".to_string(),
        a: Box::new(var("a")),
        b: Box::new(var("b")),
    };
    let product =
        Expr::CallBinFun { fun: "*".to_string(), a: Box::new(sum), b: Box::new(var("c")) };
    assert_eq!(gen_expr(product, 0), "a + b * c");

    let sum = Expr::CallBinFun {
        fun: "+".to_string(),
        a: Box::new(var("a")),
        b: Box::new(var("b")),
    };
    let product = Expr::CallBinFun {
        fun: "*".to_string(),
        a: Box::new(Expr::Paren(Box::new(sum))),
        b: Box::new(var("c")),
    };
    assert_eq!(gen_expr(product, 0), "( a + b ) * c");
}

#[test]
fn unary_operator_follows_without_a_space() {
    let postfix = Expr::CallUniFun { fun: "#".to_string(), a: Box::new(var("t")) };
    assert_eq!(gen_expr(postfix, 0), "t#");
}

#[test]
fn expressions_nest() {
    let inner = Expr::TableAccess {
        expr: Box::new(Expr::ListAccess { expr: Box::new(var("t")), index: Box::new(var("i")) }),
        slot: "name".to_string(),
    };
    let call = Expr::FunCall {
        fun: Box::new(inner),
        params: vec![Expr::ListCons(vec![Expr::Nil]), Expr::TableCons(vec![])],
    };
    assert_eq!(gen_expr(call, 0), "t[ i ].name( { nil }, {  } )");
}

#[test]
fn expression_without_function_literal_stays_on_one_line() {
    let call = Expr::FunCall {
        fun: Box::new(var("f")),
        params: vec![
            Expr::TableCons(vec![InlineTableAssign { key: "k".to_string(), value: var("v") }]),
            Expr::CallBinFun {
                fun: "..".to_string(),
                a: Box::new(var("a")),
                b: Box::new(Expr::Paren(Box::new(number("1")))),
            },
        ],
    };
    let text = gen_expr(call, 4);
    assert_eq!(text, "f( { [\"k\"] = v }, a .. ( 1 ) )");
    assert!(!text.contains('\n'));
}

#[test]
fn function_literal_as_argument_goes_on_behind_the_indentation() {
    let literal = Expr::Lambda { params: vec![], statements: vec![Statement::Break] };
    let call = Expr::FunCall { fun: Box::new(var("f")), params: vec![literal, var("x")] };
    let text = gen_expr(call, 1);
    assert_eq!(text, "f( function ()         break\n    end, x )");
    assert!(!text.ends_with('\n'));
}
