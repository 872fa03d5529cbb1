use gemstone::{
    eval_ty_from_token, Ast, Declaration, DeclarationDef, Module, ModuleManager, ModuleTokenStream,
    OperatorKind, ParseError, Primitive, PunctuationKind, ReservedKind, Scanner, ScannerPrimKind,
    Span, Token, TokenKind, Type, Unsupported,
};

fn manager(src: &str) -> ModuleManager {
    ModuleManager::with_modules(vec![Module { src: src.to_string(), path: "main.gem".to_string() }])
}

fn parse(src: &str) -> Result<Vec<Declaration>, ParseError> {
    let manager = manager(src);
    let streams = Scanner::new(&manager).scan().unwrap();
    let mut ast = Ast::new(streams)?;
    Ok(ast.program.modules.remove(0).declarations)
}

/// Lexes `src` and resolves the type that its first token starts.
fn resolve(src: &str, allow_proc: bool) -> Result<Type, ParseError> {
    let manager = manager(src);
    let mut streams = Scanner::new(&manager).scan().unwrap();
    let mut stream: ModuleTokenStream = streams.remove(0);
    let token = stream.get_token().unwrap();
    eval_ty_from_token(token, &mut stream, allow_proc)
}

fn s32() -> Type {
    Type::Prim(Primitive::S32)
}

#[test]
fn literal_default_types() {
    assert_eq!(resolve("42", false).unwrap(), Type::Prim(Primitive::U32));
    assert_eq!(resolve("42u8", false).unwrap(), Type::Prim(Primitive::U8));
    assert_eq!(resolve("3.14", false).unwrap(), Type::Prim(Primitive::F32));
    assert_eq!(resolve("3.14f64", false).unwrap(), Type::Prim(Primitive::F64));
}

#[test]
fn literal_postfixes() {
    assert_eq!(resolve("1u16", false).unwrap(), Type::Prim(Primitive::U16));
    assert_eq!(resolve("1u32", false).unwrap(), Type::Prim(Primitive::U32));
    assert_eq!(resolve("1u64", false).unwrap(), Type::Prim(Primitive::U64));
    assert_eq!(resolve("1s8", false).unwrap(), Type::Prim(Primitive::S8));
    assert_eq!(resolve("1s16", false).unwrap(), Type::Prim(Primitive::S16));
    assert_eq!(resolve("1s32", false).unwrap(), Type::Prim(Primitive::S32));
    assert_eq!(resolve("1s64", false).unwrap(), Type::Prim(Primitive::S64));
    assert_eq!(resolve("1.5f32", false).unwrap(), Type::Prim(Primitive::F32));
}

#[test]
fn postfix_of_other_family_is_refused() {
    let manager = manager("x");
    let mut streams = Scanner::new(&manager).scan().unwrap();
    let mut stream = streams.remove(0);
    let token = Token { content: "1f32".to_string(), kind: TokenKind::IntLiteral, span: Span::new() };
    assert_eq!(
        eval_ty_from_token(token, &mut stream, false).unwrap_err(),
        ParseError::BadLiteralPostfix { found: TokenKind::IntLiteral, span: Span::new() }
    );
}

#[test]
fn primitive_keywords_resolve() {
    assert_eq!(resolve("bool", false).unwrap(), Type::Prim(Primitive::Bool));
    assert_eq!(resolve("u64", false).unwrap(), Type::Prim(Primitive::U64));
    assert_eq!(resolve("struct", false).unwrap(), Type::Struct);
    assert_eq!(resolve("enum", false).unwrap(), Type::Enum);
}

#[test]
fn identifier_type_is_not_supported() {
    assert_eq!(resolve("foo", true).unwrap_err(), ParseError::NotSupported(Unsupported::IdentifierType));
    assert_eq!(resolve("+", true).unwrap_err(), ParseError::NotSupported(Unsupported::OperatorType));
    assert_eq!(
        resolve(";", true).unwrap_err(),
        ParseError::NoType { found: TokenKind::Punctuation(PunctuationKind::Semicolon), span: Span::new() }
    );
    assert_eq!(
        resolve("if", true).unwrap_err(),
        ParseError::NoType { found: TokenKind::Reserved(ReservedKind::If), span: Span::new() }
    );
}

#[test]
fn struct_round_trip() {
    let decls = parse("point :: struct { x :: s32, y :: s32 }").unwrap();
    assert_eq!(decls.len(), 1);
    assert_eq!(decls[0].sig.name.content, "point");
    assert_eq!(decls[0].sig.ty, Type::Struct);
    match &decls[0].def {
        DeclarationDef::Struct { fields } => {
            assert_eq!(fields.len(), 2);
            assert_eq!(fields[0].name.content, "x");
            assert_eq!(fields[0].ty, s32());
            assert_eq!(fields[1].name.content, "y");
            assert_eq!(fields[1].ty, s32());
        }
        other => panic!("expected a struct, got {other:?}"),
    }
}

#[test]
fn struct_fields_without_commas() {
    let decls = parse("p :: struct { a :: bool b :: 42u8, }").unwrap();
    match &decls[0].def {
        DeclarationDef::Struct { fields } => {
            assert_eq!(fields.len(), 2);
            assert_eq!(fields[0].ty, Type::Prim(Primitive::Bool));
            assert_eq!(fields[1].ty, Type::Prim(Primitive::U8));
        }
        other => panic!("expected a struct, got {other:?}"),
    }
}

#[test]
fn empty_struct() {
    let decls = parse("unit :: struct {}").unwrap();
    match &decls[0].def {
        DeclarationDef::Struct { fields } => assert!(fields.is_empty()),
        other => panic!("expected a struct, got {other:?}"),
    }
}

#[test]
fn enum_round_trip() {
    let decls = parse("color :: enum { red, green, blue }").unwrap();
    assert_eq!(decls.len(), 1);
    assert_eq!(decls[0].sig.name.content, "color");
    assert_eq!(decls[0].sig.ty, Type::Enum);
    match &decls[0].def {
        DeclarationDef::Enum { variants } => {
            let names: Vec<&str> = variants.iter().map(|v| v.name.content.as_str()).collect();
            assert_eq!(names, vec!["red", "green", "blue"]);
        }
        other => panic!("expected an enum, got {other:?}"),
    }
}

#[test]
fn empty_enum() {
    let decls = parse("color :: enum {}").unwrap();
    match &decls[0].def {
        DeclarationDef::Enum { variants } => assert!(variants.is_empty()),
        other => panic!("expected an enum, got {other:?}"),
    }
}

#[test]
fn function_type_of_proc() {
    let src = "f :: proc(a :: s32, b :: s32) { }";
    let manager = manager(src);
    let mut streams = Scanner::new(&manager).scan().unwrap();
    let mut stream: ModuleTokenStream = streams.remove(0);
    assert_eq!(stream.get_token().unwrap().content, "f");
    assert_eq!(stream.get_token().unwrap().content, "::");
    let proc_token = stream.get_token().unwrap();
    assert_eq!(
        eval_ty_from_token(proc_token, &mut stream, true).unwrap(),
        Type::Function {
            inputs: vec![("a".to_string(), s32()), ("b".to_string(), s32())],
            output: None,
        }
    );
    assert_eq!(stream.peek_token().unwrap().kind, TokenKind::Punctuation(PunctuationKind::OpenBrace));
    assert_eq!(parse(src).unwrap_err(), ParseError::NotSupported(Unsupported::ProcBody));
}

#[test]
fn nested_function_types() {
    let ty = resolve("proc(f :: proc(x :: s32) g :: u8,)", true).unwrap();
    assert_eq!(
        ty,
        Type::Function {
            inputs: vec![
                (
                    "f".to_string(),
                    Type::Function { inputs: vec![("x".to_string(), s32())], output: None },
                ),
                ("g".to_string(), Type::Prim(Primitive::U8)),
            ],
            output: None,
        }
    );
}

#[test]
fn proc_without_parameters() {
    assert_eq!(resolve("proc() {}", true).unwrap(), Type::Function { inputs: vec![], output: None });
    assert_eq!(parse("main :: proc() {}").unwrap_err(), ParseError::NotSupported(Unsupported::ProcBody));
}

#[test]
fn several_declarations_in_order() {
    let decls = parse("a :: struct {} b :: enum { x } c :: struct { y :: u8 }").unwrap();
    let names: Vec<&str> = decls.iter().map(|d| d.sig.name.content.as_str()).collect();
    assert_eq!(names, vec!["a", "b", "c"]);
    assert_eq!(decls[0].sig.name.kind, TokenKind::Identifier);
}

#[test]
fn main_may_name_a_declaration() {
    let decls = parse("main :: enum { a }").unwrap();
    assert_eq!(decls[0].sig.name.kind, TokenKind::Reserved(ReservedKind::Main));
}

#[test]
fn declaration_after_proc_is_not_reached() {
    assert_eq!(
        parse("a :: struct {} f :: proc() {} b :: enum {}").unwrap_err(),
        ParseError::NotSupported(Unsupported::ProcBody)
    );
}

#[test]
fn failed_type_leaves_stream_in_place() {
    let manager = manager("foo bar");
    let mut streams = Scanner::new(&manager).scan().unwrap();
    let mut stream = streams.remove(0);
    let token = stream.get_token().unwrap();
    assert_eq!(
        eval_ty_from_token(token, &mut stream, true).unwrap_err(),
        ParseError::NotSupported(Unsupported::IdentifierType)
    );
    assert_eq!(stream.cursor, 1);
}

#[test]
fn proc_body_is_not_supported() {
    assert_eq!(
        parse("f :: proc() { x }").unwrap_err(),
        ParseError::NotSupported(Unsupported::ProcBody)
    );
}

#[test]
fn proc_return_type_is_not_supported() {
    assert_eq!(
        parse("f :: proc() -> s32 {}").unwrap_err(),
        ParseError::NotSupported(Unsupported::ProcReturnType)
    );
}

#[test]
fn proc_field_type_is_not_supported() {
    assert_eq!(
        parse("s :: struct { a :: proc }").unwrap_err(),
        ParseError::NotSupported(Unsupported::ProcFieldType)
    );
}

#[test]
fn identifier_field_type_is_not_supported() {
    assert_eq!(
        parse("s :: struct { a :: other }").unwrap_err(),
        ParseError::NotSupported(Unsupported::IdentifierType)
    );
}

#[test]
fn wrong_declaration_keyword() {
    assert_eq!(
        parse("x :: s32 {}").unwrap_err(),
        ParseError::UnexpectedKind {
            expected: vec![
                TokenKind::Reserved(ReservedKind::Struct),
                TokenKind::Reserved(ReservedKind::Enum),
                TokenKind::Reserved(ReservedKind::Proc),
            ],
            found: TokenKind::Reserved(ReservedKind::PrimTy(ScannerPrimKind::S32)),
            span: Span::new_with(1, 6),
        }
    );
}

#[test]
fn wrong_declaration_name() {
    assert_eq!(
        parse("42 :: struct {}").unwrap_err(),
        ParseError::UnexpectedKind {
            expected: vec![TokenKind::Identifier, TokenKind::Reserved(ReservedKind::Main)],
            found: TokenKind::IntLiteral,
            span: Span::new(),
        }
    );
}

#[test]
fn missing_type_qualifier() {
    assert_eq!(
        parse("x struct {}").unwrap_err(),
        ParseError::UnexpectedKind {
            expected: vec![TokenKind::Operator(OperatorKind::TypeQualifier)],
            found: TokenKind::Reserved(ReservedKind::Struct),
            span: Span::new_with(1, 3),
        }
    );
}

#[test]
fn enum_variant_must_be_identifier() {
    assert_eq!(
        parse("c :: enum { red, 1 }").unwrap_err(),
        ParseError::UnexpectedKind {
            expected: vec![TokenKind::Identifier],
            found: TokenKind::IntLiteral,
            span: Span::new_with(1, 18),
        }
    );
}

#[test]
fn unexpected_end() {
    assert_eq!(parse("x :: struct {").unwrap_err(), ParseError::UnexpectedEnd);
    assert_eq!(parse("x :: enum { a").unwrap_err(), ParseError::UnexpectedEnd);
    assert_eq!(parse("f :: proc(a :: s32").unwrap_err(), ParseError::UnexpectedEnd);
    assert_eq!(parse("").unwrap_err(), ParseError::UnexpectedEnd);
}

#[test]
fn first_failing_module_stops_the_parse() {
    let manager = ModuleManager::with_modules(vec![
        Module { src: "a :: enum {}".to_string(), path: "a".to_string() },
        Module { src: "b :: enum".to_string(), path: "b".to_string() },
    ]);
    let streams = Scanner::new(&manager).scan().unwrap();
    assert_eq!(Ast::new(streams).unwrap_err(), ParseError::UnexpectedEnd);
}

#[test]
fn stream_cursor_moves_one_token_at_a_time() {
    let manager = manager("a b");
    let mut streams = Scanner::new(&manager).scan().unwrap();
    let mut stream = streams.remove(0);
    assert_eq!(stream.peek_token().unwrap().content, "a");
    assert_eq!(stream.get_token().unwrap().content, "a");
    assert!(gemstone::next_token_is(&stream, TokenKind::Identifier));
    gemstone::consume_next_token(&mut stream);
    assert!(stream.get_token().is_none());
    assert!(stream.peek_token().is_none());
    assert_eq!(stream.cursor, 2);
}

#[test]
fn token_kind_checks() {
    let token = Token { content: "x".to_string(), kind: TokenKind::Identifier, span: Span::new() };
    assert!(token.assert_kind(TokenKind::Identifier).is_ok());
    assert_eq!(
        token.assert_kind(TokenKind::IntLiteral).unwrap_err(),
        ParseError::UnexpectedKind {
            expected: vec![TokenKind::IntLiteral],
            found: TokenKind::Identifier,
            span: Span::new(),
        }
    );
    let token = token.assert_allowed_kinds(&[TokenKind::IntLiteral, TokenKind::Identifier]).unwrap();
    assert_eq!(token.content, "x");
    assert!(TokenKind::IntLiteral.is_int_literal());
    assert!(!TokenKind::IntLiteral.is_float_literal());
    assert!(TokenKind::FloatLiteral.is_float_literal());
}
