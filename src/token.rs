use vstd::prelude::*;

use crate::module_manager::Module;
use crate::span::Span;

verus! {

/// Primitive type keywords.
#[derive(Debug, Clone, Copy, PartialEq, Eq, Structural)]
pub enum ScannerPrimKind {
    Bool,
    S8,
    S16,
    S32,
    S64,
    U8,
    U16,
    U32,
    U64,
}

/// Reserved words of the language.
#[derive(Debug, Clone, Copy, PartialEq, Eq, Structural)]
pub enum ReservedKind {
    Struct,
    Enum,
    And,
    Or,
    If,
    Else,
    Main,
    Proc,
    PrimTy(ScannerPrimKind),
}

#[derive(Debug, Clone, Copy, PartialEq, Eq, Structural)]
pub enum PunctuationKind {
    OpenParen,
    CloseParen,
    OpenBracket,
    CloseBracket,
    OpenBrace,
    CloseBrace,
    Comma,
    Dot,
    Semicolon,
}

#[derive(Debug, Clone, Copy, PartialEq, Eq, Structural)]
pub enum OperatorKind {
    TypeArrow,
    Plus,
    Sub,
    Mul,
    Div,
    TypeQualifier,
    Assign,
    AssignPlus,
    AssignSub,
    AssignMul,
    AssignDiv,
    LT,
    LTE,
    GT,
    Eq,
}

#[derive(Debug, Clone, Copy, PartialEq, Eq, Structural)]
pub enum TokenKind {
    IntLiteral,
    FloatLiteral,
    Identifier,
    Reserved(ReservedKind),
    Punctuation(PunctuationKind),
    Operator(OperatorKind),
}

impl TokenKind {
    #[must_use]
    pub fn is_int_literal(&self) -> (r: bool)
        ensures
            r == (*self is IntLiteral),
    {
        matches!(self, TokenKind::IntLiteral)
    }

    #[must_use]
    pub fn is_float_literal(&self) -> (r: bool)
        ensures
            r == (*self is FloatLiteral),
    {
        matches!(self, TokenKind::FloatLiteral)
    }
}

/// A classified lexeme: its text, its kind and the position of its first character.
#[derive(Debug)]
pub struct Token {
    pub content: String,
    pub kind: TokenKind,
    pub span: Span,
}

pub struct TokenView {
    pub content: Seq<char>,
    pub kind: TokenKind,
    pub span: Span,
}

impl View for Token {
    type V = TokenView;

    open spec fn view(&self) -> TokenView {
        TokenView { content: self.content@, kind: self.kind, span: self.span }
    }
}

impl Clone for Token {
    fn clone(&self) -> (r: Self)
        ensures
            r@ == self@,
    {
        Token { content: self.content.clone(), kind: self.kind, span: self.span }
    }
}

/// Why a function type or a declaration could not be built.
#[derive(Debug, Clone, Copy, PartialEq, Eq, Structural)]
pub enum Unsupported {
    /// A type named by an identifier: there is no symbol table yet.
    IdentifierType,
    /// An operator in the place of a type.
    OperatorType,
    /// A `proc` type where only a single-token type may stand (a struct field).
    ProcFieldType,
    /// A `->` return type after a `proc` parameter list.
    ProcReturnType,
    /// A `proc` declaration whose body is not empty.
    ProcBody,
    /// A declaration of a primitive type.
    PrimitiveDeclaration,
}

/// A failure of the declaration parser or the type resolver.
#[derive(Debug, Clone, PartialEq, Eq)]
pub enum ParseError {
    /// A token of another kind than the grammar allows at this place.
    UnexpectedKind { expected: Vec<TokenKind>, found: TokenKind, span: Span },
    /// The stream ended where a token was required.
    UnexpectedEnd,
    /// A token that has no type (punctuation, or a reserved word that names none).
    NoType { found: TokenKind, span: Span },
    /// A number literal whose postfix names a type of the other family (`1f32` as an integer).
    BadLiteralPostfix { found: TokenKind, span: Span },
    /// A construct that is recognised but not handled yet.
    NotSupported(Unsupported),
}

pub enum ParseErrorView {
    UnexpectedKind { expected: Seq<TokenKind>, found: TokenKind, span: Span },
    UnexpectedEnd,
    NoType { found: TokenKind, span: Span },
    BadLiteralPostfix { found: TokenKind, span: Span },
    NotSupported(Unsupported),
}

impl View for ParseError {
    type V = ParseErrorView;

    open spec fn view(&self) -> ParseErrorView {
        match self {
            ParseError::UnexpectedKind { expected, found, span } => ParseErrorView::UnexpectedKind {
                expected: expected@,
                found: *found,
                span: *span,
            },
            ParseError::UnexpectedEnd => ParseErrorView::UnexpectedEnd,
            ParseError::NoType { found, span } => ParseErrorView::NoType { found: *found, span: *span },
            ParseError::BadLiteralPostfix { found, span } => ParseErrorView::BadLiteralPostfix {
                found: *found,
                span: *span,
            },
            ParseError::NotSupported(u) => ParseErrorView::NotSupported(*u),
        }
    }
}

/// The error for `t` standing where one of `kinds` was required.
pub open spec fn unexpected(kinds: Seq<TokenKind>, t: TokenView) -> ParseErrorView {
    ParseErrorView::UnexpectedKind { expected: kinds, found: t.kind, span: t.span }
}

impl Token {
    /// Succeeds exactly when the token is of kind `kind`.
    pub fn assert_kind(&self, kind: TokenKind) -> (r: Result<(), ParseError>)
        ensures
            r is Ok <==> self.kind == kind,
            r matches Err(e) ==> e@ == unexpected(seq![kind], self@),
    {
        if self.kind == kind {
            Ok(())
        } else {
            let mut expected: Vec<TokenKind> = Vec::new();
            expected.push(kind);
            proof {
                assert(expected@ =~= seq![kind]);
            }
            Err(ParseError::UnexpectedKind { expected, found: self.kind, span: self.span })
        }
    }

    /// Hands the token back when its kind is one of `kinds`.
    pub fn assert_allowed_kinds(self, kinds: &[TokenKind]) -> (r: Result<Token, ParseError>)
        ensures
            r is Ok <==> kinds@.contains(self.kind),
            r matches Ok(t) ==> t@ == self@,
            r matches Err(e) ==> e@ == unexpected(kinds@, self@),
    {
        let mut match_found = false;
        let mut expected: Vec<TokenKind> = Vec::new();
        let mut i: usize = 0;
        while i < kinds.len()
            invariant
                i <= kinds@.len(),
                expected@ == kinds@.take(i as int),
                match_found <==> kinds@.take(i as int).contains(self.kind),
            decreases kinds@.len() - i,
        {
            if kinds[i] == self.kind {
                match_found = true;
            }
            expected.push(kinds[i]);
            proof {
                let prev = kinds@.take(i as int);
                let next = kinds@.take(i + 1);
                assert(next =~= prev.push(kinds@[i as int]));
                if next.contains(self.kind) && !prev.contains(self.kind) {
                    let j = choose|j: int| 0 <= j < next.len() && next[j] == self.kind;
                    if j < i {
                        assert(prev[j] == self.kind);
                    }
                }
                if prev.contains(self.kind) {
                    let j = choose|j: int| 0 <= j < prev.len() && prev[j] == self.kind;
                    assert(next[j] == self.kind);
                }
                if kinds@[i as int] == self.kind {
                    assert(next[i as int] == self.kind);
                }
            }
            i = i + 1;
        }
        proof {
            assert(kinds@.take(i as int) =~= kinds@);
        }
        if match_found {
            Ok(self)
        } else {
            Err(ParseError::UnexpectedKind { expected, found: self.kind, span: self.span })
        }
    }
}

/// One module's tokens and a cursor into them.
#[derive(Debug)]
pub struct ModuleTokenStream<'scanner> {
    pub module: &'scanner Module,
    pub tokens: Vec<Token>,
    pub cursor: usize,
}

/// The views of a sequence of tokens.
pub open spec fn token_views(ts: Seq<Token>) -> Seq<TokenView> {
    ts.map_values(|t: Token| t@)
}

impl<'scanner> ModuleTokenStream<'scanner> {
    pub open spec fn toks(&self) -> Seq<TokenView> {
        token_views(self.tokens@)
    }

    /// Reads the token at the cursor and moves past it; `None` at the end.
    pub fn get_token(&mut self) -> (r: Option<Token>)
        ensures
            final(self).tokens == old(self).tokens,
            final(self).module == old(self).module,
            old(self).cursor < old(self).tokens.len() ==> {
                &&& r matches Some(t) && t@ == old(self).toks()[old(self).cursor as int]
                &&& final(self).cursor == old(self).cursor + 1
            },
            old(self).cursor >= old(self).tokens.len() ==> r is None && final(self).cursor
                == old(self).cursor,
    {
        if self.cursor < self.tokens.len() {
            let tok = self.tokens[self.cursor].clone();
            self.cursor = self.cursor + 1;
            Some(tok)
        } else {
            None
        }
    }

    /// The token at the cursor, without moving; `None` at the end.
    pub fn peek_token(&self) -> (r: Option<Token>)
        ensures
            self.cursor < self.tokens.len() ==> (r matches Some(t) && t@ == self.toks()[self.cursor as int]),
            self.cursor >= self.tokens.len() ==> r is None,
    {
        if self.cursor < self.tokens.len() {
            Some(self.tokens[self.cursor].clone())
        } else {
            None
        }
    }
}

/// Whether the token at the cursor is of kind `token_kind`; false at the end.
pub fn next_token_is(module_tokens: &ModuleTokenStream, token_kind: TokenKind) -> (r: bool)
    ensures
        r == (module_tokens.cursor < module_tokens.tokens.len() && module_tokens.toks()[module_tokens.cursor as int].kind == token_kind),
{
    if module_tokens.cursor < module_tokens.tokens.len() {
        module_tokens.tokens[module_tokens.cursor].kind == token_kind
    } else {
        false
    }
}

/// Moves the cursor past one token.
pub fn consume_next_token(module_tokens: &mut ModuleTokenStream)
    requires
        old(module_tokens).cursor < old(module_tokens).tokens.len(),
    ensures
        final(module_tokens).tokens == old(module_tokens).tokens,
        final(module_tokens).module == old(module_tokens).module,
        final(module_tokens).cursor == old(module_tokens).cursor + 1,
{
    module_tokens.cursor = module_tokens.cursor + 1;
}

} // verus!
