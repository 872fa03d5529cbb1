use vstd::prelude::*;

use crate::token::{
    consume_next_token, next_token_is, token_views, unexpected, ModuleTokenStream, OperatorKind,
    ParseError, ParseErrorView, PunctuationKind, ReservedKind, Token, TokenKind, TokenView,
    Unsupported,
};
use crate::typer::{eval_ty_from_token, is_kind_at, ty_at, type_view, Type, TypeView};

verus! {

/// A field of a struct: its name and type.
#[derive(Debug)]
pub struct Field {
    pub name: Token,
    pub ty: Type,
}

impl Field {
    pub fn new(name: Token, ty: Type) -> (r: Field)
        ensures
            r.name@ == name@,
            r.ty@ == ty@,
    {
        Field { name, ty }
    }
}

/// A variant of an enum: its name.
#[derive(Debug)]
pub struct Variant {
    pub name: Token,
}

/// The definition of a `proc`. Bodies are not parsed yet, so the parser never builds one.
#[derive(Debug)]
pub struct FunctionDef {}

#[derive(Debug)]
pub enum DeclarationDef {
    Struct { fields: Vec<Field> },
    Enum { variants: Vec<Variant> },
    Function { def: FunctionDef },
}

#[derive(Debug)]
pub struct DeclarationSignature {
    pub name: Token,
    pub ty: Type,
}

impl DeclarationSignature {
    pub fn new(name: Token, ty: Type) -> (r: DeclarationSignature)
        ensures
            r.name@ == name@,
            r.ty@ == ty@,
    {
        DeclarationSignature { name, ty }
    }
}

/// A named, typed top-level construct.
#[derive(Debug)]
pub struct Declaration {
    pub sig: DeclarationSignature,
    pub def: DeclarationDef,
}

pub enum DefView {
    Struct(Seq<(TokenView, TypeView)>),
    Enum(Seq<TokenView>),
    Function,
}

pub struct DeclView {
    pub name: TokenView,
    pub ty: TypeView,
    pub def: DefView,
}

pub open spec fn field_views(fs: Seq<Field>) -> Seq<(TokenView, TypeView)> {
    fs.map_values(|f: Field| (f.name@, f.ty@))
}

pub open spec fn variant_views(vs: Seq<Variant>) -> Seq<TokenView> {
    vs.map_values(|v: Variant| v.name@)
}

impl View for DeclarationDef {
    type V = DefView;

    open spec fn view(&self) -> DefView {
        match self {
            DeclarationDef::Struct { fields } => DefView::Struct(field_views(fields@)),
            DeclarationDef::Enum { variants } => DefView::Enum(variant_views(variants@)),
            DeclarationDef::Function { .. } => DefView::Function,
        }
    }
}

impl View for Declaration {
    type V = DeclView;

    open spec fn view(&self) -> DeclView {
        DeclView { name: self.sig.name@, ty: self.sig.ty@, def: self.def@ }
    }
}

pub open spec fn decl_views(ds: Seq<Declaration>) -> Seq<DeclView> {
    ds.map_values(|d: Declaration| d@)
}

// ---- the grammar over a token sequence ----

pub open spec fn prepend_items<A>(acc: Seq<A>, r: Result<(Seq<A>, int), ParseErrorView>) -> Result<
    (Seq<A>, int),
    ParseErrorView,
> {
    match r {
        Ok((xs, q)) => Ok((acc + xs, q)),
        Err(e) => Err(e),
    }
}

/// The index after an optional comma at `q`.
pub open spec fn skip_comma(ts: Seq<TokenView>, q: int) -> int {
    if is_kind_at(ts, q, TokenKind::Punctuation(PunctuationKind::Comma)) {
        q + 1
    } else {
        q
    }
}

/// Fields `name :: type`, each optionally followed by `,`, from index `p` up to
/// (not including) the closing `}`.
pub open spec fn fields_at(ts: Seq<TokenView>, p: int) -> Result<
    (Seq<(TokenView, TypeView)>, int),
    ParseErrorView,
>
    decreases ts.len() - p,
{
    if p < 0 || p >= ts.len() {
        Err(ParseErrorView::UnexpectedEnd)
    } else if ts[p].kind != TokenKind::Identifier {
        Err(unexpected(seq![TokenKind::Identifier], ts[p]))
    } else if p + 1 >= ts.len() {
        Err(ParseErrorView::UnexpectedEnd)
    } else if ts[p + 1].kind != TokenKind::Operator(OperatorKind::TypeQualifier) {
        Err(unexpected(seq![TokenKind::Operator(OperatorKind::TypeQualifier)], ts[p + 1]))
    } else if p + 2 >= ts.len() {
        Err(ParseErrorView::UnexpectedEnd)
    } else {
        match ty_at(ts, ts[p + 2], p + 3, false) {
            Ok((ty, q)) => {
                let q2 = skip_comma(ts, q);
                if q2 <= p || q2 >= ts.len() {
                    Err(ParseErrorView::UnexpectedEnd)
                } else if ts[q2].kind == TokenKind::Punctuation(PunctuationKind::CloseBrace) {
                    Ok((seq![(ts[p], ty)], q2))
                } else {
                    prepend_items(seq![(ts[p], ty)], fields_at(ts, q2))
                }
            },
            Err(e) => Err(e),
        }
    }
}

/// Variant names, each optionally followed by `,`, from index `p` up to (not
/// including) the closing `}`.
pub open spec fn variants_at(ts: Seq<TokenView>, p: int) -> Result<(Seq<TokenView>, int), ParseErrorView>
    decreases ts.len() - p,
{
    if p < 0 || p >= ts.len() {
        Err(ParseErrorView::UnexpectedEnd)
    } else if ts[p].kind != TokenKind::Identifier {
        Err(unexpected(seq![TokenKind::Identifier], ts[p]))
    } else {
        let q2 = skip_comma(ts, p + 1);
        if q2 >= ts.len() {
            Err(ParseErrorView::UnexpectedEnd)
        } else if ts[q2].kind == TokenKind::Punctuation(PunctuationKind::CloseBrace) {
            Ok((seq![ts[p]], q2))
        } else {
            prepend_items(seq![ts[p]], variants_at(ts, q2))
        }
    }
}

/// The body of a declaration of type `ty` from index `p`, and the index of its closing `}`.
/// The body of a `proc` is not parsed yet: it is refused whatever it holds.
pub open spec fn def_at(ts: Seq<TokenView>, ty: TypeView, p: int) -> Result<(DefView, int), ParseErrorView> {
    match ty {
        TypeView::Function { .. } => Err(ParseErrorView::NotSupported(Unsupported::ProcBody)),
        TypeView::Prim(_) => Err(ParseErrorView::NotSupported(Unsupported::PrimitiveDeclaration)),
        _ => if p < 0 || p >= ts.len() {
            Err(ParseErrorView::UnexpectedEnd)
        } else {
            let empty = ts[p].kind == TokenKind::Punctuation(PunctuationKind::CloseBrace);
            if ty is Struct {
                if empty {
                    Ok((DefView::Struct(Seq::empty()), p))
                } else {
                    match fields_at(ts, p) {
                        Ok((fs, q)) => Ok((DefView::Struct(fs), q)),
                        Err(e) => Err(e),
                    }
                }
            } else if empty {
                Ok((DefView::Enum(Seq::empty()), p))
            } else {
                match variants_at(ts, p) {
                    Ok((vs, q)) => Ok((DefView::Enum(vs), q)),
                    Err(e) => Err(e),
                }
            }
        },
    }
}

pub open spec fn name_kinds() -> Seq<TokenKind> {
    seq![TokenKind::Identifier, TokenKind::Reserved(ReservedKind::Main)]
}

pub open spec fn decl_kinds() -> Seq<TokenKind> {
    seq![
        TokenKind::Reserved(ReservedKind::Struct),
        TokenKind::Reserved(ReservedKind::Enum),
        TokenKind::Reserved(ReservedKind::Proc),
    ]
}

/// One declaration `name :: keyword ... { body }` from index `p`, and the index after it.
pub open spec fn decl_at(ts: Seq<TokenView>, p: int) -> Result<(DeclView, int), ParseErrorView> {
    if p < 0 || p >= ts.len() {
        Err(ParseErrorView::UnexpectedEnd)
    } else if !name_kinds().contains(ts[p].kind) {
        Err(unexpected(name_kinds(), ts[p]))
    } else if p + 1 >= ts.len() {
        Err(ParseErrorView::UnexpectedEnd)
    } else if ts[p + 1].kind != TokenKind::Operator(OperatorKind::TypeQualifier) {
        Err(unexpected(seq![TokenKind::Operator(OperatorKind::TypeQualifier)], ts[p + 1]))
    } else if p + 2 >= ts.len() {
        Err(ParseErrorView::UnexpectedEnd)
    } else if !decl_kinds().contains(ts[p + 2].kind) {
        Err(unexpected(decl_kinds(), ts[p + 2]))
    } else {
        match ty_at(ts, ts[p + 2], p + 3, true) {
            Ok((ty, q)) => if q < 0 || q >= ts.len() {
                Err(ParseErrorView::UnexpectedEnd)
            } else if ts[q].kind != TokenKind::Punctuation(PunctuationKind::OpenBrace) {
                Err(unexpected(seq![TokenKind::Punctuation(PunctuationKind::OpenBrace)], ts[q]))
            } else {
                match def_at(ts, ty, q + 1) {
                    Ok((d, r)) => if r < 0 || r >= ts.len() {
                        Err(ParseErrorView::UnexpectedEnd)
                    } else if ts[r].kind != TokenKind::Punctuation(PunctuationKind::CloseBrace) {
                        Err(unexpected(seq![TokenKind::Punctuation(PunctuationKind::CloseBrace)], ts[r]))
                    } else {
                        Ok((DeclView { name: ts[p], ty, def: d }, r + 1))
                    },
                    Err(e) => Err(e),
                }
            },
            Err(e) => Err(e),
        }
    }
}

/// Declarations from index `p` until the tokens run out; there is at least one.
pub open spec fn decls_at(ts: Seq<TokenView>, p: int) -> Result<Seq<DeclView>, ParseErrorView>
    decreases ts.len() - p,
{
    match decl_at(ts, p) {
        Ok((d, q)) => if q >= ts.len() {
            Ok(seq![d])
        } else if q <= p {
            Err(ParseErrorView::UnexpectedEnd)
        } else {
            match decls_at(ts, q) {
                Ok(ds) => Ok(seq![d] + ds),
                Err(e) => Err(e),
            }
        },
        Err(e) => Err(e),
    }
}

// ---- the parser ----

/// What a parser call returned agrees with `spec`, the cursor ending at its index.
pub open spec fn def_agrees(
    r: Result<DeclarationDef, ParseError>,
    spec: Result<(DefView, int), ParseErrorView>,
    cursor: int,
) -> bool {
    match spec {
        Ok((d, q)) => r matches Ok(x) && x@ == d && cursor == q,
        Err(e) => r matches Err(x) && x@ == e,
    }
}

/// A stream that parsing only moved forward, from `before` to `after`.
pub open spec fn advanced(before: ModuleTokenStream, after: ModuleTokenStream) -> bool {
    &&& after.tokens == before.tokens
    &&& after.module == before.module
    &&& before.cursor <= after.cursor <= after.tokens.len()
}

proof fn lemma_fields_err(
    ts: Seq<TokenView>,
    p0: int,
    acc: Seq<(TokenView, TypeView)>,
    c: int,
    e: ParseErrorView,
)
    requires
        0 <= p0 < ts.len(),
        ts[p0].kind != TokenKind::Punctuation(PunctuationKind::CloseBrace),
        fields_at(ts, p0) == prepend_items(acc, fields_at(ts, c)),
        fields_at(ts, c) == Err::<(Seq<(TokenView, TypeView)>, int), ParseErrorView>(e),
    ensures
        def_at(ts, TypeView::Struct, p0) == Err::<(DefView, int), ParseErrorView>(e),
{
}

fn parse_struct_decl_def(module_tokens: &mut ModuleTokenStream) -> (r: Result<DeclarationDef, ParseError>)
    requires
        old(module_tokens).cursor <= old(module_tokens).tokens.len(),
    ensures
        advanced(*old(module_tokens), *final(module_tokens)),
        def_agrees(
            r,
            def_at(old(module_tokens).toks(), TypeView::Struct, old(module_tokens).cursor as int),
            final(module_tokens).cursor as int,
        ),
{
    let ghost ts = module_tokens.toks();
    let ghost p0 = module_tokens.cursor as int;
    let mut fields: Vec<Field> = Vec::new();
    if module_tokens.cursor >= module_tokens.tokens.len() {
        return Err(ParseError::UnexpectedEnd);
    }
    if next_token_is(module_tokens, TokenKind::Punctuation(PunctuationKind::CloseBrace)) {
        proof {
            assert(field_views(fields@) =~= Seq::<(TokenView, TypeView)>::empty());
        }
        return Ok(DeclarationDef::Struct { fields });
    }
    let ghost mut acc: Seq<(TokenView, TypeView)> = Seq::empty();
    proof {
        assert(field_views(fields@) =~= acc);
        assert(acc + fields_at(ts, p0)->Ok_0.0 =~= fields_at(ts, p0)->Ok_0.0);
    }
    loop
        invariant_except_break
            fields_at(ts, p0) == prepend_items(acc, fields_at(ts, module_tokens.cursor as int)),
        invariant
            module_tokens.toks() == ts,
            module_tokens.tokens.len() == ts.len(),
            module_tokens.tokens == old(module_tokens).tokens,
            module_tokens.module == old(module_tokens).module,
            p0 == old(module_tokens).cursor,
            p0 <= module_tokens.cursor <= ts.len(),
            p0 < ts.len(),
            ts[p0].kind != TokenKind::Punctuation(PunctuationKind::CloseBrace),
            field_views(fields@) == acc,
        ensures
            module_tokens.tokens == old(module_tokens).tokens,
            module_tokens.module == old(module_tokens).module,
            p0 <= module_tokens.cursor <= ts.len(),
            field_views(fields@) == acc,
            fields_at(ts, p0) == Ok::<(Seq<(TokenView, TypeView)>, int), ParseErrorView>((acc, module_tokens.cursor as int)),
        decreases ts.len() - module_tokens.cursor,
    {
        let ghost c = module_tokens.cursor as int;
        let token = match module_tokens.get_token() {
            Some(t) => t,
            None => {
                proof {
                    lemma_fields_err(ts, p0, acc, c, ParseErrorView::UnexpectedEnd);
                }
                return Err(ParseError::UnexpectedEnd);
            },
        };
        match token.assert_kind(TokenKind::Identifier) {
            Ok(()) => {},
            Err(e) => {
                proof {
                    lemma_fields_err(ts, p0, acc, c, e@);
                }
                return Err(e);
            },
        }
        let qualifier = match module_tokens.get_token() {
            Some(t) => t,
            None => {
                proof {
                    lemma_fields_err(ts, p0, acc, c, ParseErrorView::UnexpectedEnd);
                }
                return Err(ParseError::UnexpectedEnd);
            },
        };
        match qualifier.assert_kind(TokenKind::Operator(OperatorKind::TypeQualifier)) {
            Ok(()) => {},
            Err(e) => {
                proof {
                    lemma_fields_err(ts, p0, acc, c, e@);
                }
                return Err(e);
            },
        }
        let ty_tok = match module_tokens.get_token() {
            Some(t) => t,
            None => {
                proof {
                    lemma_fields_err(ts, p0, acc, c, ParseErrorView::UnexpectedEnd);
                }
                return Err(ParseError::UnexpectedEnd);
            },
        };
        let ty = match eval_ty_from_token(ty_tok, module_tokens, false) {
            Ok(t) => t,
            Err(e) => {
                proof {
                    lemma_fields_err(ts, p0, acc, c, e@);
                }
                return Err(e);
            },
        };
        let ghost item = (token@, type_view(ty));
        let field = Field::new(token, ty);
        fields.push(field);
        if next_token_is(module_tokens, TokenKind::Punctuation(PunctuationKind::Comma)) {
            consume_next_token(module_tokens);
        }
        if module_tokens.cursor >= module_tokens.tokens.len() {
            proof {
                lemma_fields_err(ts, p0, acc, c, ParseErrorView::UnexpectedEnd);
            }
            return Err(ParseError::UnexpectedEnd);
        }
        proof {
            assert(field_views(fields@) =~= acc.push(item));
            let q2 = module_tokens.cursor as int;
            if ts[q2].kind == TokenKind::Punctuation(PunctuationKind::CloseBrace) {
                assert(fields_at(ts, c) == Ok::<(Seq<(TokenView, TypeView)>, int), ParseErrorView>((seq![item], q2)));
                assert(acc + seq![item] =~= acc.push(item));
            } else {
                assert(fields_at(ts, c) == prepend_items(seq![item], fields_at(ts, q2)));
                if let Ok((xs, q)) = fields_at(ts, q2) {
                    assert(acc + (seq![item] + xs) =~= acc.push(item) + xs);
                }
            }
            acc = acc.push(item);
        }
        if next_token_is(module_tokens, TokenKind::Punctuation(PunctuationKind::CloseBrace)) {
            break;
        }
    }
    Ok(DeclarationDef::Struct { fields })
}

proof fn lemma_variants_err(ts: Seq<TokenView>, p0: int, acc: Seq<TokenView>, c: int, e: ParseErrorView)
    requires
        0 <= p0 < ts.len(),
        ts[p0].kind != TokenKind::Punctuation(PunctuationKind::CloseBrace),
        variants_at(ts, p0) == prepend_items(acc, variants_at(ts, c)),
        variants_at(ts, c) == Err::<(Seq<TokenView>, int), ParseErrorView>(e),
    ensures
        def_at(ts, TypeView::Enum, p0) == Err::<(DefView, int), ParseErrorView>(e),
{
}

fn parse_enum_decl_def(module_tokens: &mut ModuleTokenStream) -> (r: Result<DeclarationDef, ParseError>)
    requires
        old(module_tokens).cursor <= old(module_tokens).tokens.len(),
    ensures
        advanced(*old(module_tokens), *final(module_tokens)),
        def_agrees(
            r,
            def_at(old(module_tokens).toks(), TypeView::Enum, old(module_tokens).cursor as int),
            final(module_tokens).cursor as int,
        ),
{
    let ghost ts = module_tokens.toks();
    let ghost p0 = module_tokens.cursor as int;
    let mut variants: Vec<Variant> = Vec::new();
    if module_tokens.cursor >= module_tokens.tokens.len() {
        return Err(ParseError::UnexpectedEnd);
    }
    if next_token_is(module_tokens, TokenKind::Punctuation(PunctuationKind::CloseBrace)) {
        proof {
            assert(variant_views(variants@) =~= Seq::<TokenView>::empty());
        }
        return Ok(DeclarationDef::Enum { variants });
    }
    let ghost mut acc: Seq<TokenView> = Seq::empty();
    proof {
        assert(variant_views(variants@) =~= acc);
        assert(acc + variants_at(ts, p0)->Ok_0.0 =~= variants_at(ts, p0)->Ok_0.0);
    }
    loop
        invariant_except_break
            variants_at(ts, p0) == prepend_items(acc, variants_at(ts, module_tokens.cursor as int)),
        invariant
            module_tokens.toks() == ts,
            module_tokens.tokens.len() == ts.len(),
            module_tokens.tokens == old(module_tokens).tokens,
            module_tokens.module == old(module_tokens).module,
            p0 == old(module_tokens).cursor,
            p0 <= module_tokens.cursor <= ts.len(),
            p0 < ts.len(),
            ts[p0].kind != TokenKind::Punctuation(PunctuationKind::CloseBrace),
            variant_views(variants@) == acc,
        ensures
            module_tokens.tokens == old(module_tokens).tokens,
            module_tokens.module == old(module_tokens).module,
            p0 <= module_tokens.cursor <= ts.len(),
            variant_views(variants@) == acc,
            variants_at(ts, p0) == Ok::<(Seq<TokenView>, int), ParseErrorView>((acc, module_tokens.cursor as int)),
        decreases ts.len() - module_tokens.cursor,
    {
        let ghost c = module_tokens.cursor as int;
        let token = match module_tokens.get_token() {
            Some(t) => t,
            None => {
                proof {
                    lemma_variants_err(ts, p0, acc, c, ParseErrorView::UnexpectedEnd);
                }
                return Err(ParseError::UnexpectedEnd);
            },
        };
        match token.assert_kind(TokenKind::Identifier) {
            Ok(()) => {},
            Err(e) => {
                proof {
                    lemma_variants_err(ts, p0, acc, c, e@);
                }
                return Err(e);
            },
        }
        let ghost item = token@;
        variants.push(Variant { name: token });
        if next_token_is(module_tokens, TokenKind::Punctuation(PunctuationKind::Comma)) {
            consume_next_token(module_tokens);
        }
        if module_tokens.cursor >= module_tokens.tokens.len() {
            proof {
                lemma_variants_err(ts, p0, acc, c, ParseErrorView::UnexpectedEnd);
            }
            return Err(ParseError::UnexpectedEnd);
        }
        proof {
            assert(variant_views(variants@) =~= acc.push(item));
            let q2 = module_tokens.cursor as int;
            if ts[q2].kind == TokenKind::Punctuation(PunctuationKind::CloseBrace) {
                assert(acc + seq![item] =~= acc.push(item));
            } else {
                assert(variants_at(ts, c) == prepend_items(seq![item], variants_at(ts, q2)));
                if let Ok((xs, q)) = variants_at(ts, q2) {
                    assert(acc + (seq![item] + xs) =~= acc.push(item) + xs);
                }
            }
            acc = acc.push(item);
        }
        if next_token_is(module_tokens, TokenKind::Punctuation(PunctuationKind::CloseBrace)) {
            break;
        }
    }
    Ok(DeclarationDef::Enum { variants })
}

fn parse_declaration_def(module_tokens: &mut ModuleTokenStream, decl_ty: &Type) -> (r: Result<
    DeclarationDef,
    ParseError,
>)
    requires
        old(module_tokens).cursor <= old(module_tokens).tokens.len(),
    ensures
        advanced(*old(module_tokens), *final(module_tokens)),
        def_agrees(
            r,
            def_at(old(module_tokens).toks(), decl_ty@, old(module_tokens).cursor as int),
            final(module_tokens).cursor as int,
        ),
{
    match decl_ty {
        Type::Prim(_) => Err(ParseError::NotSupported(Unsupported::PrimitiveDeclaration)),
        Type::Function { .. } => Err(ParseError::NotSupported(Unsupported::ProcBody)),
        Type::Struct => parse_struct_decl_def(module_tokens),
        Type::Enum => parse_enum_decl_def(module_tokens),
    }
}

/// Takes the next token, or fails with `UnexpectedEnd`.
fn expect_token(module_tokens: &mut ModuleTokenStream) -> (r: Result<Token, ParseError>)
    ensures
        final(module_tokens).tokens == old(module_tokens).tokens,
        final(module_tokens).module == old(module_tokens).module,
        old(module_tokens).cursor < old(module_tokens).tokens.len() ==> {
            &&& r matches Ok(t) && t@ == old(module_tokens).toks()[old(module_tokens).cursor as int]
            &&& final(module_tokens).cursor == old(module_tokens).cursor + 1
        },
        old(module_tokens).cursor >= old(module_tokens).tokens.len() ==> r == Err::<Token, ParseError>(
            ParseError::UnexpectedEnd,
        ) && final(module_tokens).cursor == old(module_tokens).cursor,
{
    match module_tokens.get_token() {
        Some(t) => Ok(t),
        None => Err(ParseError::UnexpectedEnd),
    }
}

/// Parses one declaration; on success the cursor stands after its closing `}`.
fn parse_declaration(module_tokens: &mut ModuleTokenStream) -> (r: Result<Declaration, ParseError>)
    requires
        old(module_tokens).cursor <= old(module_tokens).tokens.len(),
    ensures
        advanced(*old(module_tokens), *final(module_tokens)),
        r is Ok ==> final(module_tokens).cursor > old(module_tokens).cursor,
        match decl_at(old(module_tokens).toks(), old(module_tokens).cursor as int) {
            Ok((d, q)) => r matches Ok(x) && x@ == d && final(module_tokens).cursor == q,
            Err(e) => r matches Err(x) && x@ == e,
        },
{
    let ghost ts = module_tokens.toks();
    let ghost p = module_tokens.cursor as int;
    let name_kinds_arr: [TokenKind; 2] = [TokenKind::Identifier, TokenKind::Reserved(ReservedKind::Main)];
    let decl_kinds_arr: [TokenKind; 3] = [
        TokenKind::Reserved(ReservedKind::Struct),
        TokenKind::Reserved(ReservedKind::Enum),
        TokenKind::Reserved(ReservedKind::Proc),
    ];
    proof {
        assert(name_kinds_arr@ =~= name_kinds());
        assert(decl_kinds_arr@ =~= decl_kinds());
    }
    let name = match expect_token(module_tokens) {
        Ok(t) => t,
        Err(e) => return Err(e),
    };
    let name = match name.assert_allowed_kinds(&name_kinds_arr) {
        Ok(t) => t,
        Err(e) => return Err(e),
    };
    let qualifier = match expect_token(module_tokens) {
        Ok(t) => t,
        Err(e) => return Err(e),
    };
    match qualifier.assert_kind(TokenKind::Operator(OperatorKind::TypeQualifier)) {
        Ok(()) => {},
        Err(e) => return Err(e),
    }
    let ty_tok = match expect_token(module_tokens) {
        Ok(t) => t,
        Err(e) => return Err(e),
    };
    let ty_tok = match ty_tok.assert_allowed_kinds(&decl_kinds_arr) {
        Ok(t) => t,
        Err(e) => return Err(e),
    };
    let ty = match eval_ty_from_token(ty_tok, module_tokens, true) {
        Ok(t) => t,
        Err(e) => return Err(e),
    };
    let l_brace = match expect_token(module_tokens) {
        Ok(t) => t,
        Err(e) => return Err(e),
    };
    match l_brace.assert_kind(TokenKind::Punctuation(PunctuationKind::OpenBrace)) {
        Ok(()) => {},
        Err(e) => return Err(e),
    }
    let decl_def = match parse_declaration_def(module_tokens, &ty) {
        Ok(d) => d,
        Err(e) => return Err(e),
    };
    let r_brace = match expect_token(module_tokens) {
        Ok(t) => t,
        Err(e) => return Err(e),
    };
    match r_brace.assert_kind(TokenKind::Punctuation(PunctuationKind::CloseBrace)) {
        Ok(()) => {},
        Err(e) => return Err(e),
    }
    let decl_signature = DeclarationSignature::new(name, ty);
    Ok(Declaration { sig: decl_signature, def: decl_def })
}

pub open spec fn decls_agree(r: Result<Vec<Declaration>, ParseError>, spec: Result<Seq<DeclView>, ParseErrorView>) -> bool {
    match spec {
        Ok(ds) => r matches Ok(x) && decl_views(x@) == ds,
        Err(e) => r matches Err(x) && x@ == e,
    }
}

pub open spec fn prepend_decls(acc: Seq<DeclView>, r: Result<Seq<DeclView>, ParseErrorView>) -> Result<
    Seq<DeclView>,
    ParseErrorView,
> {
    match r {
        Ok(ds) => Ok(acc + ds),
        Err(e) => Err(e),
    }
}

proof fn lemma_decls_step(ts: Seq<TokenView>, p0: int, acc: Seq<DeclView>, c: int, d: DeclView, q: int)
    requires
        decls_at(ts, p0) == prepend_decls(acc, decls_at(ts, c)),
        decl_at(ts, c) == Ok::<(DeclView, int), ParseErrorView>((d, q)),
        c < q <= ts.len(),
    ensures
        q >= ts.len() ==> decls_at(ts, p0) == Ok::<Seq<DeclView>, ParseErrorView>(acc.push(d)),
        q < ts.len() ==> decls_at(ts, p0) == prepend_decls(acc.push(d), decls_at(ts, q)),
{
    if q >= ts.len() {
        assert(acc + seq![d] =~= acc.push(d));
    } else if let Ok(ds) = decls_at(ts, q) {
        assert(acc + (seq![d] + ds) =~= acc.push(d) + ds);
    }
}

/// Parses declarations until the stream is exhausted; at least one is required.
fn parse_declarations(module_tokens: &mut ModuleTokenStream) -> (r: Result<Vec<Declaration>, ParseError>)
    requires
        old(module_tokens).cursor <= old(module_tokens).tokens.len(),
    ensures
        decls_agree(r, decls_at(old(module_tokens).toks(), old(module_tokens).cursor as int)),
{
    let ghost ts = module_tokens.toks();
    let ghost p0 = module_tokens.cursor as int;
    let mut declarations: Vec<Declaration> = Vec::new();
    let ghost mut acc: Seq<DeclView> = Seq::empty();
    proof {
        assert(decl_views(declarations@) =~= acc);
        if let Ok(ds) = decls_at(ts, p0) {
            assert(acc + ds =~= ds);
        }
    }
    loop
        invariant_except_break
            decls_at(ts, p0) == prepend_decls(acc, decls_at(ts, module_tokens.cursor as int)),
        invariant
            module_tokens.toks() == ts,
            module_tokens.tokens.len() == ts.len(),
            module_tokens.tokens == old(module_tokens).tokens,
            module_tokens.module == old(module_tokens).module,
            p0 == old(module_tokens).cursor,
            ts == old(module_tokens).toks(),
            p0 <= module_tokens.cursor <= ts.len(),
            decl_views(declarations@) == acc,
        ensures
            decl_views(declarations@) == acc,
            decls_at(ts, p0) == Ok::<Seq<DeclView>, ParseErrorView>(acc),
        decreases ts.len() - module_tokens.cursor,
    {
        let ghost c = module_tokens.cursor as int;
        let decl = match parse_declaration(module_tokens) {
            Ok(d) => d,
            Err(e) => {
                proof {
                    assert(decls_at(ts, c) == Err::<Seq<DeclView>, ParseErrorView>(e@));
                }
                return Err(e);
            },
        };
        let ghost d = decl@;
        declarations.push(decl);
        proof {
            assert(decl_views(declarations@) =~= acc.push(d));
            lemma_decls_step(ts, p0, acc, c, d, module_tokens.cursor as int);
            acc = acc.push(d);
        }
        if module_tokens.peek_token().is_none() {
            break;
        }
    }
    Ok(declarations)
}

/// The declarations of one module.
#[derive(Debug)]
pub struct Module {
    pub declarations: Vec<Declaration>,
}

impl Module {
    /// Parses the whole stream from its cursor.
    pub fn new(module: ModuleTokenStream) -> (r: Result<Module, ParseError>)
        requires
            module.cursor <= module.tokens.len(),
        ensures
            match decls_at(module.toks(), module.cursor as int) {
                Ok(ds) => r matches Ok(m) && decl_views(m.declarations@) == ds,
                Err(e) => r matches Err(x) && x@ == e,
            },
    {
        let mut module = module;
        match parse_declarations(&mut module) {
            Ok(declarations) => Ok(Module { declarations }),
            Err(e) => Err(e),
        }
    }
}

pub open spec fn stream_decls(s: ModuleTokenStream) -> Result<Seq<DeclView>, ParseErrorView> {
    decls_at(s.toks(), s.cursor as int)
}

/// The modules of a program, in the order they were given.
#[derive(Debug)]
pub struct Program {
    pub modules: Vec<Module>,
}

impl Program {
    /// Parses every stream; fails with the error of the first module that does not parse.
    pub fn new(module_token_streams: Vec<ModuleTokenStream>) -> (r: Result<Program, ParseError>)
        requires
            forall|k: int|
                0 <= k < module_token_streams@.len() ==> (#[trigger] module_token_streams@[k]).cursor
                    <= module_token_streams@[k].tokens.len(),
        ensures
            r is Ok <==> forall|k: int|
                0 <= k < module_token_streams@.len() ==> (#[trigger] stream_decls(module_token_streams@[k])) is Ok,
            r matches Ok(p) ==> {
                &&& p.modules@.len() == module_token_streams@.len()
                &&& forall|k: int|
                    0 <= k < p.modules@.len() ==> decl_views((#[trigger] p.modules@[k]).declarations@)
                        == stream_decls(module_token_streams@[k])->Ok_0
            },
            r matches Err(e) ==> exists|k: int| {
                &&& 0 <= k < module_token_streams@.len()
                &&& stream_decls(#[trigger] module_token_streams@[k]) == Err::<Seq<DeclView>, ParseErrorView>(e@)
                &&& forall|j: int| 0 <= j < k ==> (#[trigger] stream_decls(module_token_streams@[j])) is Ok
            },
    {
        let ghost orig = module_token_streams@;
        let n = module_token_streams.len();
        let mut streams = module_token_streams;
        let mut modules: Vec<Module> = Vec::new();
        let mut k: usize = 0;
        while streams.len() > 0
            invariant
                orig == module_token_streams@,
                orig.len() == n,
                k <= orig.len(),
                streams@ == orig.subrange(k as int, orig.len() as int),
                forall|m: int| 0 <= m < orig.len() ==> (#[trigger] orig[m]).cursor <= orig[m].tokens.len(),
                modules@.len() == k,
                forall|m: int| 0 <= m < k ==> (#[trigger] stream_decls(orig[m])) is Ok,
                forall|m: int|
                    0 <= m < k ==> decl_views((#[trigger] modules@[m]).declarations@) == stream_decls(orig[m])->Ok_0,
            decreases streams@.len(),
        {
            let stream = streams.remove(0);
            assert(stream == orig[k as int]);
            let module = match Module::new(stream) {
                Ok(m) => m,
                Err(e) => {
                    assert(stream_decls(orig[k as int]) == Err::<Seq<DeclView>, ParseErrorView>(e@));
                    assert(!(stream_decls(module_token_streams@[k as int]) is Ok));
                    assert(forall|j: int| 0 <= j < k ==> (#[trigger] stream_decls(module_token_streams@[j])) is Ok);
                    return Err(e);
                },
            };
            modules.push(module);
            proof {
                assert(streams@ =~= orig.subrange(k + 1, orig.len() as int));
            }
            k = k + 1;
        }
        Ok(Program { modules })
    }
}

/// The parsed program.
#[derive(Debug)]
pub struct Ast {
    pub program: Program,
}

impl Ast {
    /// Parses the token stream of every module.
    pub fn new(program: Vec<ModuleTokenStream>) -> (r: Result<Ast, ParseError>)
        requires
            forall|k: int| 0 <= k < program@.len() ==> (#[trigger] program@[k]).cursor <= program@[k].tokens.len(),
        ensures
            r is Ok <==> forall|k: int| 0 <= k < program@.len() ==> (#[trigger] stream_decls(program@[k])) is Ok,
            r matches Ok(a) ==> {
                &&& a.program.modules@.len() == program@.len()
                &&& forall|k: int|
                    0 <= k < program@.len() ==> decl_views((#[trigger] a.program.modules@[k]).declarations@)
                        == stream_decls(program@[k])->Ok_0
            },
            r matches Err(e) ==> exists|k: int| {
                &&& 0 <= k < program@.len()
                &&& stream_decls(#[trigger] program@[k]) == Err::<Seq<DeclView>, ParseErrorView>(e@)
                &&& forall|j: int| 0 <= j < k ==> (#[trigger] stream_decls(program@[j])) is Ok
            },
    {
        match Program::new(program) {
            Ok(program) => Ok(Ast { program }),
            Err(e) => Err(e),
        }
    }
}

} // verus!
