use bo_lang::common::Keyword;
use bo_lang::common::Op;
use bo_lang::common::TokenType;
use bo_lang::common::Value;
use bo_lang::scanner::Scanner;

#[test]
fn whitespace_only_yields_no_tokens() {
    let toks = Scanner::scan("").unwrap();
    assert_eq!(toks.len(), 0);
    let toks = Scanner::scan("   \t\r\n \u{c} ").unwrap();
    assert_eq!(toks.len(), 0);
}

#[test]
fn multi_char_operators_scan_as_one_token() {
    let cases = [
        ("+=", Op::PlusEqual),
        ("-=", Op::MinusEqual),
        ("*=", Op::StarEqual),
        ("/=", Op::FrontSlashEqual),
        ("%=", Op::PercentEqual),
        ("!=", Op::BangEqual),
        ("==", Op::EqualEqual),
        ("<=", Op::LessEqual),
        ("<<", Op::LessLess),
        (">=", Op::GreaterEqual),
        (">>", Op::GreaterGreater),
        ("^=", Op::CarrotEqual),
        ("~=", Op::TildeEqual),
        ("..", Op::StopStop),
        ("||", Op::PipePipe),
        ("|=", Op::PipeEqual),
        ("&&", Op::AndAnd),
        ("&=", Op::AndEqual),
        ("::", Op::ColonColon),
    ];
    for (src, op) in cases {
        let toks = Scanner::scan(src).unwrap();
        assert_eq!(toks.len(), 1, "scanning {:?}", src);
        assert_eq!(toks[0].token_type, TokenType::Op(op));
        assert_eq!(toks[0].idx, 0);
    }
}

#[test]
fn single_char_operators_scan() {
    let cases = [
        ("+", Op::Plus),
        ("-", Op::Minus),
        ("*", Op::Star),
        ("/", Op::FrontSlash),
        ("%", Op::Percent),
        ("!", Op::Bang),
        ("=", Op::Equal),
        ("<", Op::Less),
        (">", Op::Greater),
        ("^", Op::Carrot),
        ("~", Op::Tilde),
        (".", Op::Stop),
        ("|", Op::Pipe),
        ("&", Op::And),
        (",", Op::Comma),
        (":", Op::Colon),
        (";", Op::Semicolon),
        ("(", Op::LeftParen),
        (")", Op::RightParen),
        ("[", Op::LeftBracket),
        ("]", Op::RightBracket),
        ("{", Op::LeftBrace),
        ("}", Op::RightBrace),
    ];
    for (src, op) in cases {
        let toks = Scanner::scan(src).unwrap();
        assert_eq!(toks.len(), 1, "scanning {:?}", src);
        assert_eq!(toks[0].token_type, TokenType::Op(op));
    }
}

#[test]
fn longest_operator_wins_in_context() {
    let toks = Scanner::scan("a<<b").unwrap();
    assert_eq!(toks.len(), 3);
    assert_eq!(toks[0].token_type, TokenType::Identifier("a".to_string()));
    assert_eq!(toks[1].token_type, TokenType::Op(Op::LessLess));
    assert_eq!(toks[2].token_type, TokenType::Identifier("b".to_string()));
    let toks = Scanner::scan("<=<").unwrap();
    assert_eq!(toks.len(), 2);
    assert_eq!(toks[0].token_type, TokenType::Op(Op::LessEqual));
    assert_eq!(toks[1].token_type, TokenType::Op(Op::Less));
}

#[test]
fn string_literal_scans() {
    let toks = Scanner::scan("\"abc\"").unwrap();
    assert_eq!(toks.len(), 1);
    assert_eq!(
        toks[0].token_type,
        TokenType::Literal(Value::Str("abc".to_string()))
    );
    assert_eq!(toks[0].idx, 0);
}

#[test]
fn unclosed_string_fails_at_opening_quote() {
    let e = Scanner::scan("\"abc").unwrap_err();
    assert_eq!(e.message, "Unclosed string");
    assert_eq!(e.char_idx, 0);
    let e = Scanner::scan("  \"abc").unwrap_err();
    assert_eq!(e.message, "Unclosed string");
    assert_eq!(e.char_idx, 2);
}

#[test]
fn integer_literal_scans() {
    let toks = Scanner::scan("123").unwrap();
    assert_eq!(toks.len(), 1);
    assert_eq!(toks[0].token_type, TokenType::Literal(Value::Int(123)));
}

#[test]
fn float_literal_scans() {
    let toks = Scanner::scan("123.5").unwrap();
    assert_eq!(toks.len(), 1);
    match &toks[0].token_type {
        TokenType::Literal(Value::Float(whole, frac)) => {
            assert_eq!(whole, "123");
            assert_eq!(frac, "5");
            let v: f64 = format!("{}.{}", whole, frac).parse().unwrap();
            assert_eq!(v, 123.5f64);
        }
        other => panic!("expected a float literal, found {:?}", other),
    }
}

#[test]
fn dot_without_digit_is_not_part_of_a_number() {
    let toks = Scanner::scan("1.").unwrap();
    assert_eq!(toks.len(), 2);
    assert_eq!(toks[0].token_type, TokenType::Literal(Value::Int(1)));
    assert_eq!(toks[0].idx, 0);
    assert_eq!(toks[1].token_type, TokenType::Op(Op::Stop));
    assert_eq!(toks[1].idx, 1);
}

#[test]
fn digit_run_before_a_range_stays_an_integer() {
    let toks = Scanner::scan("1..2").unwrap();
    assert_eq!(toks.len(), 3);
    assert_eq!(toks[0].token_type, TokenType::Literal(Value::Int(1)));
    assert_eq!(toks[1].token_type, TokenType::Op(Op::StopStop));
    assert_eq!(toks[1].idx, 1);
    assert_eq!(toks[2].token_type, TokenType::Literal(Value::Int(2)));
    assert_eq!(toks[2].idx, 3);
}

#[test]
fn unicode_letters_form_identifiers() {
    let toks = Scanner::scan("héllo").unwrap();
    assert_eq!(toks.len(), 1);
    assert_eq!(
        toks[0].token_type,
        TokenType::Identifier("héllo".to_string())
    );
    let toks = Scanner::scan("π;").unwrap();
    assert_eq!(toks.len(), 2);
    assert_eq!(toks[0].token_type, TokenType::Identifier("π".to_string()));
    assert_eq!(toks[0].idx, 0);
    assert_eq!(toks[1].token_type, TokenType::Op(Op::Semicolon));
    assert_eq!(toks[1].idx, 1);
}

#[test]
fn booleans_are_literals_not_identifiers() {
    let toks = Scanner::scan("true").unwrap();
    assert_eq!(toks.len(), 1);
    assert_eq!(toks[0].token_type, TokenType::Literal(Value::Bool(true)));
    let toks = Scanner::scan("false").unwrap();
    assert_eq!(toks.len(), 1);
    assert_eq!(toks[0].token_type, TokenType::Literal(Value::Bool(false)));
    let toks = Scanner::scan("truex").unwrap();
    assert_eq!(toks.len(), 1);
    assert_eq!(
        toks[0].token_type,
        TokenType::Identifier("truex".to_string())
    );
}

#[test]
fn keywords_always_scan_as_keywords() {
    let cases = [
        ("let", Keyword::Let),
        ("pub", Keyword::Pub),
        ("struct", Keyword::Struct),
        ("import", Keyword::Import),
        ("from", Keyword::From),
        ("if", Keyword::If),
        ("else", Keyword::Else),
        ("while", Keyword::While),
        ("loop", Keyword::Loop),
        ("break", Keyword::Break),
        ("continue", Keyword::Continue),
        ("return", Keyword::Return),
    ];
    for (src, kw) in cases {
        let toks = Scanner::scan(src).unwrap();
        assert_eq!(toks.len(), 1, "scanning {:?}", src);
        assert_eq!(toks[0].token_type, TokenType::Keyword(kw));
    }
}

#[test]
fn keyword_prefix_is_an_identifier() {
    let toks = Scanner::scan("letter").unwrap();
    assert_eq!(toks.len(), 1);
    assert_eq!(
        toks[0].token_type,
        TokenType::Identifier("letter".to_string())
    );
}

#[test]
fn token_positions_slice_back_to_their_text() {
    let src = "let foo = 123;";
    let toks = Scanner::scan(src).unwrap();
    assert_eq!(toks.len(), 5);
    let expected = [(0, "let"), (4, "foo"), (8, "="), (10, "123"), (13, ";")];
    for (tok, (idx, text)) in toks.iter().zip(expected) {
        assert_eq!(tok.idx, idx);
        assert_eq!(&src[tok.idx..tok.idx + text.len()], text);
    }
}

#[test]
fn string_position_slices_back_to_opening_quote() {
    let src = " \"hi\" ";
    let toks = Scanner::scan(src).unwrap();
    assert_eq!(toks.len(), 1);
    assert_eq!(toks[0].idx, 1);
    assert_eq!(&src[1..5], "\"hi\"");
}

#[test]
fn unexpected_character_fails_at_its_position() {
    let e = Scanner::scan("@").unwrap_err();
    assert_eq!(e.message, "Unexpected character");
    assert_eq!(e.char_idx, 0);
    let e = Scanner::scan("  @").unwrap_err();
    assert_eq!(e.message, "Unexpected character");
    assert_eq!(e.char_idx, 2);
}

#[test]
fn oversized_integer_is_malformed() {
    let e = Scanner::scan("99999999999999999999").unwrap_err();
    assert_eq!(e.message, "Malformed number");
    assert_eq!(e.char_idx, 0);
}

#[test]
fn integer_boundary_values() {
    let toks = Scanner::scan("9223372036854775807").unwrap();
    assert_eq!(
        toks[0].token_type,
        TokenType::Literal(Value::Int(i64::MAX))
    );
    let e = Scanner::scan("9223372036854775808").unwrap_err();
    assert_eq!(e.message, "Malformed number");
    assert_eq!(e.char_idx, 0);
}

#[test]
fn first_scan_error_wins() {
    let e = Scanner::scan("\"abc @ $").unwrap_err();
    assert_eq!(e.message, "Unclosed string");
    assert_eq!(e.char_idx, 0);
    let e = Scanner::scan("@ \"abc").unwrap_err();
    assert_eq!(e.message, "Unexpected character");
    assert_eq!(e.char_idx, 0);
}

#[test]
fn underscore_is_an_identifier() {
    let toks = Scanner::scan("_").unwrap();
    assert_eq!(toks.len(), 1);
    assert_eq!(toks[0].token_type, TokenType::Identifier("_".to_string()));
}

#[test]
fn whitespace_separates_tokens() {
    let toks = Scanner::scan(" 1 2 ").unwrap();
    assert_eq!(toks.len(), 2);
    assert_eq!(toks[0].token_type, TokenType::Literal(Value::Int(1)));
    assert_eq!(toks[0].idx, 1);
    assert_eq!(toks[1].token_type, TokenType::Literal(Value::Int(2)));
    assert_eq!(toks[1].idx, 3);
}

#[test]
fn token_accessors_report_their_kind() {
    let toks = Scanner::scan("let x = 5;").unwrap();
    assert_eq!(toks[0].is_keyword(), Some(Keyword::Let));
    assert_eq!(toks[0].is_ident(), None);
    assert_eq!(toks[1].is_ident(), Some("x".to_string()));
    assert_eq!(toks[1].is_op(), None);
    assert_eq!(toks[2].is_op(), Some(Op::Equal));
    assert_eq!(toks[3].is_value(), Some(Value::Int(5)));
    assert_eq!(toks[3].is_keyword(), None);
    assert_eq!(toks[4].is_op(), Some(Op::Semicolon));
    assert_eq!(toks[4].is_value(), None);
}
