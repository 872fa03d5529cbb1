use vstd::prelude::*;

use crate::lexer::{chars_of, tail_is};
use crate::span::Span;
use crate::token::{
    consume_next_token, next_token_is, unexpected, ModuleTokenStream, OperatorKind, ParseError, ParseErrorView, PunctuationKind,
    ReservedKind, ScannerPrimKind, Token, TokenKind, TokenView, Unsupported,
};

verus! {

broadcast use vstd::std_specs::vec::axiom_vec_index_decreases, vstd::seq::axiom_seq_index_decreases;

#[derive(Debug, Clone, Copy, PartialEq, Eq, Structural)]
pub enum Primitive {
    Bool,
    U8,
    U16,
    U32,
    U64,
    S8,
    S16,
    S32,
    S64,
    F32,
    F64,
}

/// The type of a declaration, a field or a parameter.
#[derive(Debug, PartialEq, Eq)]
pub enum Type {
    Prim(Primitive),
    Struct,
    Enum,
    Function { inputs: Vec<(String, Type)>, output: Option<Box<Type>> },
}

pub enum TypeView {
    Prim(Primitive),
    Struct,
    Enum,
    Function { inputs: Seq<(Seq<char>, TypeView)>, output: Option<Box<TypeView>> },
}

pub open spec fn type_view(t: Type) -> TypeView
    decreases t,
{
    match t {
        Type::Prim(p) => TypeView::Prim(p),
        Type::Struct => TypeView::Struct,
        Type::Enum => TypeView::Enum,
        Type::Function { inputs, output } => TypeView::Function {
            inputs: Seq::new(
                inputs@.len(),
                |i: int|
                    if 0 <= i < inputs@.len() {
                        (inputs@[i].0@, type_view(inputs@[i].1))
                    } else {
                        (Seq::empty(), TypeView::Struct)
                    },
            ),
            output: match output {
                Some(b) => Some(Box::new(type_view(*b))),
                None => None,
            },
        },
    }
}

impl View for Type {
    type V = TypeView;

    open spec fn view(&self) -> TypeView {
        type_view(*self)
    }
}

impl Type {
    /// Appends a parameter to a function type; other types stay as they are.
    fn push_input(&mut self, parameter_name: String, parameter_type: Type)
        ensures
            match type_view(*old(self)) {
                TypeView::Function { inputs, output } => type_view(*final(self)) == (TypeView::Function {
                    inputs: inputs.push((parameter_name@, type_view(parameter_type))),
                    output,
                }),
                _ => *final(self) == *old(self),
            },
    {
        if let Type::Function { inputs, .. } = self {
            inputs.push((parameter_name, parameter_type));
        }
        proof {
            if let TypeView::Function { inputs, output } = type_view(*old(self)) {
                assert(type_view(*self)->inputs =~= inputs.push(
                    (parameter_name@, type_view(parameter_type)),
                ));
            }
        }
    }
}

// ---- literal types ----

#[derive(Debug, Clone, Copy, PartialEq, Eq, Structural)]
pub enum NumPostfix {
    U8,
    U16,
    U32,
    U64,
    S8,
    S16,
    S32,
    S64,
    F32,
    F64,
}

pub open spec fn ends_with(w: Seq<char>, p: Seq<char>) -> bool {
    p.len() <= w.len() && w.subrange(w.len() - p.len(), w.len() as int) == p
}

/// The type postfix that a literal's text ends with.
pub open spec fn postfix_of(w: Seq<char>) -> Option<NumPostfix> {
    if ends_with(w, seq!['u', '8']) {
        Some(NumPostfix::U8)
    } else if ends_with(w, seq!['u', '1', '6']) {
        Some(NumPostfix::U16)
    } else if ends_with(w, seq!['u', '3', '2']) {
        Some(NumPostfix::U32)
    } else if ends_with(w, seq!['u', '6', '4']) {
        Some(NumPostfix::U64)
    } else if ends_with(w, seq!['s', '8']) {
        Some(NumPostfix::S8)
    } else if ends_with(w, seq!['s', '1', '6']) {
        Some(NumPostfix::S16)
    } else if ends_with(w, seq!['s', '3', '2']) {
        Some(NumPostfix::S32)
    } else if ends_with(w, seq!['s', '6', '4']) {
        Some(NumPostfix::S64)
    } else if ends_with(w, seq!['f', '3', '2']) {
        Some(NumPostfix::F32)
    } else if ends_with(w, seq!['f', '6', '4']) {
        Some(NumPostfix::F64)
    } else {
        None
    }
}

/// The type of an integer literal: `U32` without a postfix.
pub open spec fn int_literal_ty(t: TokenView) -> Result<TypeView, ParseErrorView> {
    match postfix_of(t.content) {
        None => Ok(TypeView::Prim(Primitive::U32)),
        Some(NumPostfix::U8) => Ok(TypeView::Prim(Primitive::U8)),
        Some(NumPostfix::U16) => Ok(TypeView::Prim(Primitive::U16)),
        Some(NumPostfix::U32) => Ok(TypeView::Prim(Primitive::U32)),
        Some(NumPostfix::U64) => Ok(TypeView::Prim(Primitive::U64)),
        Some(NumPostfix::S8) => Ok(TypeView::Prim(Primitive::S8)),
        Some(NumPostfix::S16) => Ok(TypeView::Prim(Primitive::S16)),
        Some(NumPostfix::S32) => Ok(TypeView::Prim(Primitive::S32)),
        Some(NumPostfix::S64) => Ok(TypeView::Prim(Primitive::S64)),
        Some(_) => Err(ParseErrorView::BadLiteralPostfix { found: t.kind, span: t.span }),
    }
}

/// The type of a float literal: `F32` without a postfix.
pub open spec fn float_literal_ty(t: TokenView) -> Result<TypeView, ParseErrorView> {
    match postfix_of(t.content) {
        None => Ok(TypeView::Prim(Primitive::F32)),
        Some(NumPostfix::F32) => Ok(TypeView::Prim(Primitive::F32)),
        Some(NumPostfix::F64) => Ok(TypeView::Prim(Primitive::F64)),
        Some(_) => Err(ParseErrorView::BadLiteralPostfix { found: t.kind, span: t.span }),
    }
}

pub open spec fn prim_of(p: ScannerPrimKind) -> Primitive {
    match p {
        ScannerPrimKind::Bool => Primitive::Bool,
        ScannerPrimKind::S8 => Primitive::S8,
        ScannerPrimKind::S16 => Primitive::S16,
        ScannerPrimKind::S32 => Primitive::S32,
        ScannerPrimKind::S64 => Primitive::S64,
        ScannerPrimKind::U8 => Primitive::U8,
        ScannerPrimKind::U16 => Primitive::U16,
        ScannerPrimKind::U32 => Primitive::U32,
        ScannerPrimKind::U64 => Primitive::U64,
    }
}

// ---- types read from a token sequence ----

pub open spec fn with_pos(r: Result<TypeView, ParseErrorView>, p: int) -> Result<(TypeView, int), ParseErrorView> {
    match r {
        Ok(t) => Ok((t, p)),
        Err(e) => Err(e),
    }
}

pub open spec fn is_kind_at(ts: Seq<TokenView>, p: int, k: TokenKind) -> bool {
    0 <= p < ts.len() && ts[p].kind == k
}

/// The type that the token `t` starts, where the tokens after it begin at index `p`
/// of `ts`, and the index after the type. A `proc` type reads its parameter list
/// from `ts`; it is refused where `allow_proc` is false.
pub open spec fn ty_at(ts: Seq<TokenView>, t: TokenView, p: int, allow_proc: bool) -> Result<
    (TypeView, int),
    ParseErrorView,
>
    decreases ts.len() - p, 2int,
{
    match t.kind {
        TokenKind::IntLiteral => with_pos(int_literal_ty(t), p),
        TokenKind::FloatLiteral => with_pos(float_literal_ty(t), p),
        TokenKind::Identifier => Err(ParseErrorView::NotSupported(Unsupported::IdentifierType)),
        TokenKind::Reserved(r) => match r {
            ReservedKind::Struct => Ok((TypeView::Struct, p)),
            ReservedKind::Enum => Ok((TypeView::Enum, p)),
            ReservedKind::PrimTy(k) => Ok((TypeView::Prim(prim_of(k)), p)),
            ReservedKind::Proc => if !allow_proc {
                Err(ParseErrorView::NotSupported(Unsupported::ProcFieldType))
            } else if 0 <= p <= ts.len() {
                proc_ty_at(ts, p)
            } else {
                Err(ParseErrorView::UnexpectedEnd)
            },
            _ => Err(ParseErrorView::NoType { found: t.kind, span: t.span }),
        },
        TokenKind::Punctuation(_) => Err(ParseErrorView::NoType { found: t.kind, span: t.span }),
        TokenKind::Operator(_) => Err(ParseErrorView::NotSupported(Unsupported::OperatorType)),
    }
}

/// A parameter list `( name :: type, ... )` that starts at index `p`.
pub open spec fn proc_ty_at(ts: Seq<TokenView>, p: int) -> Result<(TypeView, int), ParseErrorView>
    decreases ts.len() - p, 1int,
{
    if p < 0 || p >= ts.len() {
        Err(ParseErrorView::UnexpectedEnd)
    } else if ts[p].kind != TokenKind::Punctuation(PunctuationKind::OpenParen) {
        Err(unexpected(seq![TokenKind::Punctuation(PunctuationKind::OpenParen)], ts[p]))
    } else {
        match params_at(ts, p + 1) {
            Ok((ps, q)) => if is_kind_at(ts, q, TokenKind::Operator(OperatorKind::TypeArrow)) {
                Err(ParseErrorView::NotSupported(Unsupported::ProcReturnType))
            } else {
                Ok((TypeView::Function { inputs: ps, output: None }, q))
            },
            Err(e) => Err(e),
        }
    }
}

/// Parameters from index `p` up to and including the closing `)`.
pub open spec fn params_at(ts: Seq<TokenView>, p: int) -> Result<
    (Seq<(Seq<char>, TypeView)>, int),
    ParseErrorView,
>
    decreases ts.len() - p, 0int,
{
    if p < 0 || p >= ts.len() {
        Err(ParseErrorView::UnexpectedEnd)
    } else if ts[p].kind == TokenKind::Punctuation(PunctuationKind::CloseParen) {
        Ok((Seq::empty(), p + 1))
    } else if ts[p].kind != TokenKind::Identifier {
        Err(unexpected(seq![TokenKind::Identifier], ts[p]))
    } else if p + 1 >= ts.len() {
        Err(ParseErrorView::UnexpectedEnd)
    } else if ts[p + 1].kind != TokenKind::Operator(OperatorKind::TypeQualifier) {
        Err(unexpected(seq![TokenKind::Operator(OperatorKind::TypeQualifier)], ts[p + 1]))
    } else if p + 2 >= ts.len() {
        Err(ParseErrorView::UnexpectedEnd)
    } else {
        match ty_at(ts, ts[p + 2], p + 3, true) {
            Ok((ty, q)) => {
                let q2 = if is_kind_at(ts, q, TokenKind::Punctuation(PunctuationKind::Comma)) {
                    q + 1
                } else {
                    q
                };
                if q2 <= p || q2 > ts.len() {
                    Err(ParseErrorView::UnexpectedEnd)
                } else {
                    match params_at(ts, q2) {
                        Ok((rest, r)) => Ok((seq![(ts[p].content, ty)] + rest, r)),
                        Err(e) => Err(e),
                    }
                }
            },
            Err(e) => Err(e),
        }
    }
}

/// What a resolver call returned agrees with `spec`, the cursor ending at its index.
pub open spec fn ty_agrees(
    r: Result<Type, ParseError>,
    spec: Result<(TypeView, int), ParseErrorView>,
    cursor: int,
) -> bool {
    match spec {
        Ok((t, q)) => r matches Ok(x) && x@ == t && cursor == q,
        Err(e) => r matches Err(x) && x@ == e,
    }
}

pub open spec fn lit_agrees(r: Result<Type, ParseError>, spec: Result<TypeView, ParseErrorView>) -> bool {
    match spec {
        Ok(t) => r matches Ok(x) && x@ == t,
        Err(e) => r matches Err(x) && x@ == e,
    }
}

fn ends_with_lit(w: &Vec<char>, lit: &[char]) -> (r: bool)
    ensures
        r == ends_with(w@, lit@),
{
    if lit.len() > w.len() {
        false
    } else {
        tail_is(w, w.len() - lit.len(), lit)
    }
}

/// The type postfix that the literal's text ends with, if any.
fn get_postfix_from_num_literal(token: &Token) -> (r: Option<NumPostfix>)
    ensures
        r == postfix_of(token@.content),
{
    let w = chars_of(token.content.as_str());
    if ends_with_lit(&w, &['u', '8']) {
        Some(NumPostfix::U8)
    } else if ends_with_lit(&w, &['u', '1', '6']) {
        Some(NumPostfix::U16)
    } else if ends_with_lit(&w, &['u', '3', '2']) {
        Some(NumPostfix::U32)
    } else if ends_with_lit(&w, &['u', '6', '4']) {
        Some(NumPostfix::U64)
    } else if ends_with_lit(&w, &['s', '8']) {
        Some(NumPostfix::S8)
    } else if ends_with_lit(&w, &['s', '1', '6']) {
        Some(NumPostfix::S16)
    } else if ends_with_lit(&w, &['s', '3', '2']) {
        Some(NumPostfix::S32)
    } else if ends_with_lit(&w, &['s', '6', '4']) {
        Some(NumPostfix::S64)
    } else if ends_with_lit(&w, &['f', '3', '2']) {
        Some(NumPostfix::F32)
    } else if ends_with_lit(&w, &['f', '6', '4']) {
        Some(NumPostfix::F64)
    } else {
        None
    }
}

fn eval_int_ty_from_literal(token: &Token) -> (r: Result<Type, ParseError>)
    ensures
        lit_agrees(r, int_literal_ty(token@)),
{
    match get_postfix_from_num_literal(token) {
        None => Ok(Type::Prim(Primitive::U32)),
        Some(NumPostfix::U8) => Ok(Type::Prim(Primitive::U8)),
        Some(NumPostfix::U16) => Ok(Type::Prim(Primitive::U16)),
        Some(NumPostfix::U32) => Ok(Type::Prim(Primitive::U32)),
        Some(NumPostfix::U64) => Ok(Type::Prim(Primitive::U64)),
        Some(NumPostfix::S8) => Ok(Type::Prim(Primitive::S8)),
        Some(NumPostfix::S16) => Ok(Type::Prim(Primitive::S16)),
        Some(NumPostfix::S32) => Ok(Type::Prim(Primitive::S32)),
        Some(NumPostfix::S64) => Ok(Type::Prim(Primitive::S64)),
        Some(_) => Err(ParseError::BadLiteralPostfix { found: token.kind, span: token.span }),
    }
}

fn eval_float_ty_from_literal(token: &Token) -> (r: Result<Type, ParseError>)
    ensures
        lit_agrees(r, float_literal_ty(token@)),
{
    match get_postfix_from_num_literal(token) {
        None => Ok(Type::Prim(Primitive::F32)),
        Some(NumPostfix::F32) => Ok(Type::Prim(Primitive::F32)),
        Some(NumPostfix::F64) => Ok(Type::Prim(Primitive::F64)),
        Some(_) => Err(ParseError::BadLiteralPostfix { found: token.kind, span: token.span }),
    }
}

/// Resolves the type that `token` (already taken from `token_stream`) starts.
/// A `proc` type goes on to read its parameter list from the stream, and is
/// refused where `allow_proc` is false; any other token leaves the stream as it
/// was, whether it has a type or not.
pub fn eval_ty_from_token(token: Token, token_stream: &mut ModuleTokenStream, allow_proc: bool) -> (r:
    Result<Type, ParseError>)
    requires
        old(token_stream).cursor <= old(token_stream).tokens.len(),
    ensures
        final(token_stream).tokens == old(token_stream).tokens,
        final(token_stream).module == old(token_stream).module,
        old(token_stream).cursor <= final(token_stream).cursor <= final(token_stream).tokens.len(),
        !(allow_proc && token.kind == TokenKind::Reserved(ReservedKind::Proc)) ==> final(token_stream).cursor == old(token_stream).cursor,
        ty_agrees(
            r,
            ty_at(old(token_stream).toks(), token@, old(token_stream).cursor as int, allow_proc),
            final(token_stream).cursor as int,
        ),
    decreases old(token_stream).tokens.len() - old(token_stream).cursor, 2int,
{
    match token.kind {
        TokenKind::IntLiteral => eval_int_ty_from_literal(&token),
        TokenKind::FloatLiteral => eval_float_ty_from_literal(&token),
        TokenKind::Identifier => Err(ParseError::NotSupported(Unsupported::IdentifierType)),
        TokenKind::Reserved(reserved_kind) => eval_ty_from_reserved_word(
            reserved_kind,
            &token,
            token_stream,
            allow_proc,
        ),
        TokenKind::Punctuation(_) => Err(ParseError::NoType { found: token.kind, span: token.span }),
        TokenKind::Operator(_) => Err(ParseError::NotSupported(Unsupported::OperatorType)),
    }
}

fn eval_ty_from_reserved_word(
    reserved_kind: ReservedKind,
    token: &Token,
    token_stream: &mut ModuleTokenStream,
    allow_proc: bool,
) -> (r: Result<Type, ParseError>)
    requires
        token.kind == TokenKind::Reserved(reserved_kind),
        old(token_stream).cursor <= old(token_stream).tokens.len(),
    ensures
        final(token_stream).tokens == old(token_stream).tokens,
        final(token_stream).module == old(token_stream).module,
        old(token_stream).cursor <= final(token_stream).cursor <= final(token_stream).tokens.len(),
        !(allow_proc && token.kind == TokenKind::Reserved(ReservedKind::Proc)) ==> final(token_stream).cursor == old(token_stream).cursor,
        ty_agrees(
            r,
            ty_at(old(token_stream).toks(), token@, old(token_stream).cursor as int, allow_proc),
            final(token_stream).cursor as int,
        ),
    decreases old(token_stream).tokens.len() - old(token_stream).cursor, 1int,
{
    match reserved_kind {
        ReservedKind::Struct => Ok(Type::Struct),
        ReservedKind::Enum => Ok(Type::Enum),
        ReservedKind::PrimTy(prim_ty) => {
            let p = match prim_ty {
                ScannerPrimKind::Bool => Primitive::Bool,
                ScannerPrimKind::S8 => Primitive::S8,
                ScannerPrimKind::S16 => Primitive::S16,
                ScannerPrimKind::S32 => Primitive::S32,
                ScannerPrimKind::S64 => Primitive::S64,
                ScannerPrimKind::U8 => Primitive::U8,
                ScannerPrimKind::U16 => Primitive::U16,
                ScannerPrimKind::U32 => Primitive::U32,
                ScannerPrimKind::U64 => Primitive::U64,
            };
            Ok(Type::Prim(p))
        },
        ReservedKind::Proc => {
            if allow_proc {
                eval_proc_ty(token_stream)
            } else {
                Err(ParseError::NotSupported(Unsupported::ProcFieldType))
            }
        },
        _ => Err(ParseError::NoType { found: token.kind, span: token.span }),
    }
}

pub open spec fn prepend_params(
    acc: Seq<(Seq<char>, TypeView)>,
    r: Result<(Seq<(Seq<char>, TypeView)>, int), ParseErrorView>,
) -> Result<(Seq<(Seq<char>, TypeView)>, int), ParseErrorView> {
    match r {
        Ok((ps, q)) => Ok((acc + ps, q)),
        Err(e) => Err(e),
    }
}

proof fn lemma_params_err(
    ts: Seq<TokenView>,
    p_start: int,
    acc: Seq<(Seq<char>, TypeView)>,
    c: int,
    e: ParseErrorView,
)
    requires
        0 <= p_start < ts.len(),
        ts[p_start].kind == TokenKind::Punctuation(PunctuationKind::OpenParen),
        params_at(ts, p_start + 1) == prepend_params(acc, params_at(ts, c)),
        params_at(ts, c) == Err::<(Seq<(Seq<char>, TypeView)>, int), ParseErrorView>(e),
    ensures
        proc_ty_at(ts, p_start) == Err::<(TypeView, int), ParseErrorView>(e),
{
}

fn eval_proc_ty(token_stream: &mut ModuleTokenStream) -> (r: Result<Type, ParseError>)
    requires
        old(token_stream).cursor <= old(token_stream).tokens.len(),
    ensures
        final(token_stream).tokens == old(token_stream).tokens,
        final(token_stream).module == old(token_stream).module,
        old(token_stream).cursor <= final(token_stream).cursor <= final(token_stream).tokens.len(),
        ty_agrees(
            r,
            proc_ty_at(old(token_stream).toks(), old(token_stream).cursor as int),
            final(token_stream).cursor as int,
        ),
    decreases old(token_stream).tokens.len() - old(token_stream).cursor, 0int,
{
    let ghost ts = token_stream.toks();
    let ghost p_start = token_stream.cursor as int;
    let l_parn = match token_stream.get_token() {
        Some(t) => t,
        None => return Err(ParseError::UnexpectedEnd),
    };
    match l_parn.assert_kind(TokenKind::Punctuation(PunctuationKind::OpenParen)) {
        Ok(()) => {},
        Err(e) => return Err(e),
    }
    let ghost p0 = token_stream.cursor as int;
    let mut function_type = Type::Function { inputs: Vec::new(), output: None };
    let ghost mut acc: Seq<(Seq<char>, TypeView)> = Seq::empty();
    proof {
        assert(acc + Seq::<(Seq<char>, TypeView)>::empty() =~= acc);
        assert(type_view(function_type)->inputs =~= acc);
    }
    loop
        invariant_except_break
            params_at(ts, p0) == prepend_params(acc, params_at(ts, token_stream.cursor as int)),
        invariant
            token_stream.toks() == ts,
            token_stream.tokens.len() == ts.len(),
            token_stream.module == old(token_stream).module,
            token_stream.tokens == old(token_stream).tokens,
            p_start < p0 <= token_stream.cursor <= ts.len(),
            p_start == old(token_stream).cursor,
            p0 == p_start + 1,
            ts[p_start].kind == TokenKind::Punctuation(PunctuationKind::OpenParen),
            type_view(function_type) == (TypeView::Function { inputs: acc, output: None }),
        ensures
            p_start <= token_stream.cursor,
            token_stream.toks() == ts,
            token_stream.module == old(token_stream).module,
            token_stream.tokens == old(token_stream).tokens,
            token_stream.cursor <= ts.len(),
            type_view(function_type) == (TypeView::Function { inputs: acc, output: None }),
            params_at(ts, p0) == Ok::<(Seq<(Seq<char>, TypeView)>, int), ParseErrorView>((acc, token_stream.cursor as int)),
        decreases ts.len() - token_stream.cursor,
    {
        let ghost c = token_stream.cursor as int;
        let current_token = match token_stream.get_token() {
            Some(t) => t,
            None => {
                proof {
                    lemma_params_err(ts, p_start, acc, c, ParseErrorView::UnexpectedEnd);
                }
                return Err(ParseError::UnexpectedEnd);
            },
        };
        if current_token.kind == TokenKind::Punctuation(PunctuationKind::CloseParen) {
            proof {
                assert(acc + Seq::<(Seq<char>, TypeView)>::empty() =~= acc);
            }
            break;
        }
        match current_token.assert_kind(TokenKind::Identifier) {
            Ok(()) => {},
            Err(e) => {
                proof {
                    lemma_params_err(ts, p_start, acc, c, e@);
                }
                return Err(e);
            },
        }
        let ty_punc = match token_stream.get_token() {
            Some(t) => t,
            None => {
                proof {
                    lemma_params_err(ts, p_start, acc, c, ParseErrorView::UnexpectedEnd);
                }
                return Err(ParseError::UnexpectedEnd);
            },
        };
        match ty_punc.assert_kind(TokenKind::Operator(OperatorKind::TypeQualifier)) {
            Ok(()) => {},
            Err(e) => {
                proof {
                    lemma_params_err(ts, p_start, acc, c, e@);
                }
                return Err(e);
            },
        }
        let next_token = match token_stream.get_token() {
            Some(t) => t,
            None => {
                proof {
                    lemma_params_err(ts, p_start, acc, c, ParseErrorView::UnexpectedEnd);
                }
                return Err(ParseError::UnexpectedEnd);
            },
        };
        let parameter_type = match eval_ty_from_token(next_token, token_stream, true) {
            Ok(t) => t,
            Err(e) => {
                proof {
                    lemma_params_err(ts, p_start, acc, c, e@);
                }
                return Err(e);
            },
        };
        let ghost name = current_token.content@;
        let ghost tyv = type_view(parameter_type);
        function_type.push_input(current_token.content, parameter_type);
        if next_token_is(token_stream, TokenKind::Punctuation(PunctuationKind::Comma)) {
            consume_next_token(token_stream);
        }
        proof {
            let rest = params_at(ts, token_stream.cursor as int);
            assert(params_at(ts, c) == match rest {
                Ok((ps, q)) => Ok((seq![(name, tyv)] + ps, q)),
                Err(e) => Err(e),
            });
            if let Ok((ps, q)) = rest {
                assert(acc + (seq![(name, tyv)] + ps) =~= acc.push((name, tyv)) + ps);
            }
            acc = acc.push((name, tyv));
        }
    }
    if next_token_is(token_stream, TokenKind::Operator(OperatorKind::TypeArrow)) {
        return Err(ParseError::NotSupported(Unsupported::ProcReturnType));
    }
    Ok(function_type)
}

} // verus!
