use gemstone::{
    Module, ModuleManager, OperatorComplexity, OperatorKind, PunctuationKind, ReservedKind, Scanner, ScannerError,
    ScannerPrimKind, Span, Token, TokenKind,
};

fn lex(src: &str) -> Result<Vec<Token>, ScannerError> {
    let manager = ModuleManager::with_modules(vec![Module {
        src: src.to_string(),
        path: "main.gem".to_string(),
    }]);
    let scanner = Scanner::new(&manager);
    scanner.scan().map(|mut streams| streams.remove(0).tokens)
}

fn kinds(tokens: &[Token]) -> Vec<TokenKind> {
    tokens.iter().map(|t| t.kind).collect()
}

#[test]
fn type_qualifier_is_one_token() {
    let tokens = lex("x::s32").unwrap();
    assert_eq!(
        kinds(&tokens),
        vec![
            TokenKind::Identifier,
            TokenKind::Operator(OperatorKind::TypeQualifier),
            TokenKind::Reserved(ReservedKind::PrimTy(ScannerPrimKind::S32)),
        ]
    );
    assert_eq!(tokens[0].content, "x");
    assert_eq!(tokens[1].content, "::");
    assert_eq!(tokens[2].content, "s32");
}

#[test]
fn every_complex_operator_is_one_token() {
    let cases = [
        ("::", OperatorKind::TypeQualifier),
        ("->", OperatorKind::TypeArrow),
        ("+=", OperatorKind::AssignPlus),
        ("-=", OperatorKind::AssignSub),
        ("*=", OperatorKind::AssignMul),
        ("/=", OperatorKind::AssignDiv),
        ("<=", OperatorKind::LTE),
        ("==", OperatorKind::Eq),
    ];
    for (lexeme, kind) in cases {
        let tokens = lex(lexeme).unwrap();
        assert_eq!(tokens.len(), 1, "{lexeme}");
        assert_eq!(tokens[0].kind, TokenKind::Operator(kind));
        assert_eq!(tokens[0].content, lexeme);
    }
}

#[test]
fn simple_operators_stand_alone() {
    let tokens = lex("a + b - c * d / e = f < g > h").unwrap();
    let ops: Vec<TokenKind> = kinds(&tokens).into_iter().filter(|k| matches!(k, TokenKind::Operator(_))).collect();
    assert_eq!(
        ops,
        vec![
            TokenKind::Operator(OperatorKind::Plus),
            TokenKind::Operator(OperatorKind::Sub),
            TokenKind::Operator(OperatorKind::Mul),
            TokenKind::Operator(OperatorKind::Div),
            TokenKind::Operator(OperatorKind::Assign),
            TokenKind::Operator(OperatorKind::LT),
            TokenKind::Operator(OperatorKind::GT),
        ]
    );
}

#[test]
fn greater_equal_is_two_tokens() {
    let tokens = lex(">=").unwrap();
    assert_eq!(
        kinds(&tokens),
        vec![TokenKind::Operator(OperatorKind::GT), TokenKind::Operator(OperatorKind::Assign)]
    );
}

#[test]
fn operators_split_words() {
    let tokens = lex("a+=b").unwrap();
    assert_eq!(
        kinds(&tokens),
        vec![
            TokenKind::Identifier,
            TokenKind::Operator(OperatorKind::AssignPlus),
            TokenKind::Identifier,
        ]
    );
}

#[test]
fn spans_are_in_order() {
    let src = "point :: struct {\n    x :: s32,\n  y :: s32\n}";
    let tokens = lex(src).unwrap();
    for pair in tokens.windows(2) {
        let (a, b) = (pair[0].span, pair[1].span);
        assert!((a.line_num, a.col_num) <= (b.line_num, b.col_num));
    }
    assert_eq!(tokens[0].span, Span::new_with(1, 1));
    assert_eq!(tokens[1].span, Span::new_with(1, 7));
    assert_eq!(tokens[2].span, Span::new_with(1, 10));
    assert_eq!(tokens[3].span, Span::new_with(1, 17));
    assert_eq!(tokens[4].span, Span::new_with(2, 5));
    assert_eq!(tokens[8].span, Span::new_with(3, 3));
    assert_eq!(tokens[11].span, Span::new_with(4, 1));
}

#[test]
fn tab_moves_four_columns() {
    let tokens = lex("\ta").unwrap();
    assert_eq!(tokens[0].span, Span::new_with(1, 5));
}

#[test]
fn punctuation_tokens() {
    let tokens = lex("( ) [ ] { } , ; .").unwrap();
    assert_eq!(
        kinds(&tokens),
        vec![
            TokenKind::Punctuation(PunctuationKind::OpenParen),
            TokenKind::Punctuation(PunctuationKind::CloseParen),
            TokenKind::Punctuation(PunctuationKind::OpenBracket),
            TokenKind::Punctuation(PunctuationKind::CloseBracket),
            TokenKind::Punctuation(PunctuationKind::OpenBrace),
            TokenKind::Punctuation(PunctuationKind::CloseBrace),
            TokenKind::Punctuation(PunctuationKind::Comma),
            TokenKind::Punctuation(PunctuationKind::Semicolon),
            TokenKind::Punctuation(PunctuationKind::Dot),
        ]
    );
}

#[test]
fn words_touching_punctuation() {
    let tokens = lex("f(a,b)").unwrap();
    assert_eq!(tokens.len(), 6);
    assert_eq!(tokens[0].content, "f");
    assert_eq!(tokens[2].content, "a");
    assert_eq!(tokens[4].content, "b");
}

#[test]
fn reserved_words_and_identifiers() {
    let tokens = lex("struct enum proc and or if else main bool u8 u64 s16 structs").unwrap();
    assert_eq!(
        kinds(&tokens),
        vec![
            TokenKind::Reserved(ReservedKind::Struct),
            TokenKind::Reserved(ReservedKind::Enum),
            TokenKind::Reserved(ReservedKind::Proc),
            TokenKind::Reserved(ReservedKind::And),
            TokenKind::Reserved(ReservedKind::Or),
            TokenKind::Reserved(ReservedKind::If),
            TokenKind::Reserved(ReservedKind::Else),
            TokenKind::Reserved(ReservedKind::Main),
            TokenKind::Reserved(ReservedKind::PrimTy(ScannerPrimKind::Bool)),
            TokenKind::Reserved(ReservedKind::PrimTy(ScannerPrimKind::U8)),
            TokenKind::Reserved(ReservedKind::PrimTy(ScannerPrimKind::U64)),
            TokenKind::Reserved(ReservedKind::PrimTy(ScannerPrimKind::S16)),
            TokenKind::Identifier,
        ]
    );
}

#[test]
fn number_literals() {
    let tokens = lex("42 42u8 3.14 3.14f64 7s64 1.").unwrap();
    assert_eq!(
        kinds(&tokens),
        vec![
            TokenKind::IntLiteral,
            TokenKind::IntLiteral,
            TokenKind::FloatLiteral,
            TokenKind::FloatLiteral,
            TokenKind::IntLiteral,
            TokenKind::FloatLiteral,
        ]
    );
}

#[test]
fn empty_text_has_no_tokens() {
    assert!(lex("").unwrap().is_empty());
    assert!(lex(" \n\t ").unwrap().is_empty());
}

#[test]
fn lone_colon_fails() {
    assert_eq!(lex("x:s32").unwrap_err(), ScannerError::MalformedTQualifier);
    assert_eq!(lex("x :").unwrap_err(), ScannerError::MalformedTQualifier);
}

#[test]
fn unknown_token_touching_punctuation_fails() {
    assert_eq!(lex("a :: struct { %}").unwrap_err(), ScannerError::UnknownTokenTouchingPunctuation);
    assert_eq!(lex("!(").unwrap_err(), ScannerError::UnknownTokenTouchingPunctuation);
}

#[test]
fn unknown_token_before_whitespace_fails() {
    assert_eq!(lex("% x").unwrap_err(), ScannerError::UnknownToken);
    assert_eq!(lex("x ? y").unwrap_err(), ScannerError::UnknownToken);
}

#[test]
fn word_starting_with_dot_is_punctuation() {
    let tokens = lex(".5 .").unwrap();
    assert_eq!(
        kinds(&tokens),
        vec![
            TokenKind::Punctuation(PunctuationKind::Dot),
            TokenKind::Punctuation(PunctuationKind::Dot),
        ]
    );
    assert_eq!(tokens[0].content, ".5");
}

#[test]
fn malformed_number_literals_fail() {
    assert_eq!(lex("12ab").unwrap_err(), ScannerError::MalformedNumLit);
    assert_eq!(lex("1.2.3").unwrap_err(), ScannerError::MalformedNumLit);
    assert_eq!(lex("3.x").unwrap_err(), ScannerError::MalformedNumLit);
    assert_eq!(lex("3f32").unwrap_err(), ScannerError::MalformedNumLit);
    assert_eq!(lex("3.0u8").unwrap_err(), ScannerError::MalformedNumLit);
}

#[test]
fn first_failing_module_decides() {
    let manager = ModuleManager::with_modules(vec![
        Module { src: "a :: enum {}".to_string(), path: "a".to_string() },
        Module { src: "b:".to_string(), path: "b".to_string() },
        Module { src: "12ab".to_string(), path: "c".to_string() },
    ]);
    let scanner = Scanner::new(&manager);
    assert_eq!(scanner.scan().unwrap_err(), ScannerError::MalformedTQualifier);
}

#[test]
fn streams_follow_modules() {
    let manager = ModuleManager::with_modules(vec![
        Module { src: "a".to_string(), path: "a".to_string() },
        Module { src: "b c".to_string(), path: "b".to_string() },
    ]);
    let scanner = Scanner::new(&manager);
    let streams = scanner.scan().unwrap();
    assert_eq!(streams.len(), 2);
    assert_eq!(streams[0].module.path, "a");
    assert_eq!(streams[1].tokens.len(), 2);
    assert_eq!(streams[1].cursor, 0);
}

#[test]
fn operator_complexity_matches_lexeme_width() {
    for lexeme in ["::", "->", "+=", "-=", "*=", "/=", "<=", "=="] {
        let tokens = lex(lexeme).unwrap();
        match tokens[0].kind {
            TokenKind::Operator(k) => assert_eq!(OperatorComplexity::from(k), OperatorComplexity::Complex),
            other => panic!("expected an operator, got {other:?}"),
        }
    }
    for lexeme in ["+", "-", "*", "/", "=", "<", ">"] {
        let tokens = lex(lexeme).unwrap();
        match tokens[0].kind {
            TokenKind::Operator(k) => assert_eq!(OperatorComplexity::from(k), OperatorComplexity::Simple),
            other => panic!("expected an operator, got {other:?}"),
        }
    }
}
