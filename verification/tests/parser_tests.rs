use bo_lang::parser::Expression;
use bo_lang::parser::Parser;
use bo_lang::parser::Statement;
use bo_lang::common::Value;
use bo_lang::scanner::Scanner;

fn parse_src(src: &str) -> Result<Vec<Statement>, bo_lang::bo_error::BoError> {
    let toks = Scanner::scan(src).unwrap();
    Parser::parse(toks).map(|m| m.statements)
}

#[test]
fn let_statement_parses() {
    let stmts = parse_src("let a = 5;").unwrap();
    assert_eq!(stmts.len(), 1);
    assert_eq!(
        stmts[0],
        Statement::Let("a".to_string(), Expression::Literal(Value::Int(5)))
    );
}

#[test]
fn bare_return_parses() {
    let stmts = parse_src("return;").unwrap();
    assert_eq!(stmts.len(), 1);
    assert_eq!(stmts[0], Statement::Return(None));
}

#[test]
fn return_with_value_parses() {
    let stmts = parse_src("return 5;").unwrap();
    assert_eq!(stmts.len(), 1);
    assert_eq!(
        stmts[0],
        Statement::Return(Some(Expression::Literal(Value::Int(5))))
    );
}

#[test]
fn loop_with_block_parses() {
    let stmts = parse_src("loop{let a = 5;};").unwrap();
    assert_eq!(stmts.len(), 1);
    assert_eq!(
        stmts[0],
        Statement::Loop(Box::new(Statement::Block(vec![Statement::Let(
            "a".to_string(),
            Expression::Literal(Value::Int(5))
        )])))
    );
}

#[test]
fn missing_semicolon_is_reported() {
    let e = parse_src("let a = 5").unwrap_err();
    assert_eq!(e.message, "Expected semicolon");
    assert_eq!(e.char_idx, 8);
}

#[test]
fn expression_statement_parses() {
    let stmts = parse_src("5;").unwrap();
    assert_eq!(stmts.len(), 1);
    assert_eq!(stmts[0], Statement::Expr(Expression::Literal(Value::Int(5))));
}

#[test]
fn string_expression_statement_parses() {
    let stmts = parse_src("\"hi\";").unwrap();
    assert_eq!(
        stmts[0],
        Statement::Expr(Expression::Literal(Value::Str("hi".to_string())))
    );
}

#[test]
fn while_statement_parses() {
    let stmts = parse_src("while true{};").unwrap();
    assert_eq!(stmts.len(), 1);
    assert_eq!(
        stmts[0],
        Statement::While(
            Expression::Literal(Value::Bool(true)),
            Box::new(Statement::Block(vec![]))
        )
    );
}

#[test]
fn if_without_else_parses() {
    let stmts = parse_src("if true{};").unwrap();
    assert_eq!(
        stmts[0],
        Statement::If(
            Expression::Literal(Value::Bool(true)),
            Box::new(Statement::Block(vec![])),
            None
        )
    );
}

#[test]
fn if_with_else_parses() {
    let stmts = parse_src("if false{}else{let b = 1;};").unwrap();
    assert_eq!(
        stmts[0],
        Statement::If(
            Expression::Literal(Value::Bool(false)),
            Box::new(Statement::Block(vec![])),
            Some(Box::new(Statement::Block(vec![Statement::Let(
                "b".to_string(),
                Expression::Literal(Value::Int(1))
            )])))
        )
    );
}

#[test]
fn nested_blocks_parse() {
    let stmts = parse_src("loop{loop{};};").unwrap();
    assert_eq!(
        stmts[0],
        Statement::Loop(Box::new(Statement::Block(vec![Statement::Loop(
            Box::new(Statement::Block(vec![]))
        )])))
    );
}

#[test]
fn several_statements_parse_in_order() {
    let stmts = parse_src("let a = 1; let b = 2; return;").unwrap();
    assert_eq!(stmts.len(), 3);
    assert_eq!(
        stmts[0],
        Statement::Let("a".to_string(), Expression::Literal(Value::Int(1)))
    );
    assert_eq!(
        stmts[1],
        Statement::Let("b".to_string(), Expression::Literal(Value::Int(2)))
    );
    assert_eq!(stmts[2], Statement::Return(None));
}

#[test]
fn empty_input_parses_to_empty_module() {
    let stmts = parse_src("").unwrap();
    assert_eq!(stmts.len(), 0);
}

#[test]
fn missing_identifier_is_reported() {
    let e = parse_src("let 5 = 3;").unwrap_err();
    assert_eq!(e.message, "Expected identifier");
    assert_eq!(e.char_idx, 4);
}

#[test]
fn missing_equals_is_reported() {
    let e = parse_src("let a 5;").unwrap_err();
    assert_eq!(e.message, "Expected equals sign");
    assert_eq!(e.char_idx, 6);
}

#[test]
fn missing_literal_is_reported() {
    let e = parse_src("return let;").unwrap_err();
    assert_eq!(e.message, "Expected literal");
    assert_eq!(e.char_idx, 7);
}

#[test]
fn keyword_without_statement_form_is_reported() {
    let e = parse_src("break;").unwrap_err();
    assert_eq!(e.message, "Unexpected keyword");
    assert_eq!(e.char_idx, 0);
    let e = parse_src("else;").unwrap_err();
    assert_eq!(e.message, "Unexpected keyword");
    assert_eq!(e.char_idx, 0);
}

#[test]
fn non_block_body_is_reported() {
    let e = parse_src("loop 5;").unwrap_err();
    assert_eq!(e.message, "Expected block");
    assert_eq!(e.char_idx, 5);
}

#[test]
fn first_parse_error_wins() {
    let e = parse_src("let 5 = 3; let 6 = 4;").unwrap_err();
    assert_eq!(e.message, "Expected identifier");
    assert_eq!(e.char_idx, 4);
}

#[test]
fn errors_at_end_of_input_point_at_last_token() {
    let e = parse_src("let").unwrap_err();
    assert_eq!(e.message, "Expected identifier");
    assert_eq!(e.char_idx, 0);
    let e = parse_src("let a =").unwrap_err();
    assert_eq!(e.message, "Expected literal");
    assert_eq!(e.char_idx, 6);
    let e = parse_src("return").unwrap_err();
    assert_eq!(e.message, "Expected literal");
    assert_eq!(e.char_idx, 0);
}

#[test]
fn unterminated_block_is_complete_but_needs_semicolon() {
    let e = parse_src("loop{").unwrap_err();
    assert_eq!(e.message, "Expected semicolon");
    assert_eq!(e.char_idx, 4);
    let e = parse_src("loop{;").unwrap_err();
    assert_eq!(e.message, "Expected literal");
}

#[test]
fn literal_value_reaches_the_tree_unchanged() {
    let stmts = parse_src("let pi = 3.14;").unwrap();
    assert_eq!(
        stmts[0],
        Statement::Let(
            "pi".to_string(),
            Expression::Literal(Value::Float("3".to_string(), "14".to_string()))
        )
    );
}
