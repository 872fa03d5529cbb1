use vstd::prelude::*;

use crate::module_manager::{Module, ModuleManager};
use crate::span::{lemma_pos_at_bounds, lemma_pos_at_monotone, pos_at, pos_le, Span};
use crate::token::{
    token_views, ModuleTokenStream, OperatorKind, PunctuationKind, ReservedKind,
    ScannerPrimKind, Token, TokenKind, TokenView,
};

verus! {

/// Why a module's text could not be split into tokens.
#[derive(Debug, Clone, Copy, PartialEq, Eq, Structural)]
pub enum ScannerError {
    /// A number literal that is not digits, an optional fraction and an optional type postfix.
    MalformedNumLit,
    /// A `:` that is not followed by a second `:`.
    MalformedTQualifier,
    /// A lexeme right before punctuation that is no kind of token.
    UnknownTokenTouchingPunctuation,
    /// A lexeme before whitespace, an operator or the end of the text that is no kind of token.
    UnknownToken,
}

// ---- character classes ----

pub open spec fn is_space(c: char) -> bool {
    c == ' ' || c == '\t' || c == '\n' || c == '\r' || c == '\x0C'
}

/// Characters that always end a lexeme and form a token of their own.
pub open spec fn is_punct_char(c: char) -> bool {
    c == '(' || c == ')' || c == '[' || c == ']' || c == '{' || c == '}' || c == ',' || c == ';'
}

/// Characters that start an operator.
pub open spec fn is_op_atom(c: char) -> bool {
    c == '+' || c == '-' || c == '*' || c == '/' || c == '=' || c == '>' || c == '<' || c == ':'
}

/// Characters that are gathered into a word (identifiers, keywords, literals).
pub open spec fn is_word_char(c: char) -> bool {
    !is_space(c) && !is_punct_char(c) && !is_op_atom(c)
}

pub open spec fn is_alpha(c: char) -> bool {
    ('a' <= c && c <= 'z') || ('A' <= c && c <= 'Z')
}

pub open spec fn is_digit(c: char) -> bool {
    '0' <= c && c <= '9'
}

pub open spec fn punct_kind(c: char) -> PunctuationKind {
    if c == '(' {
        PunctuationKind::OpenParen
    } else if c == ')' {
        PunctuationKind::CloseParen
    } else if c == '[' {
        PunctuationKind::OpenBracket
    } else if c == ']' {
        PunctuationKind::CloseBracket
    } else if c == '{' {
        PunctuationKind::OpenBrace
    } else if c == '}' {
        PunctuationKind::CloseBrace
    } else if c == ',' {
        PunctuationKind::Comma
    } else if c == '.' {
        PunctuationKind::Dot
    } else {
        PunctuationKind::Semicolon
    }
}

/// The two-character operators.
pub open spec fn complex_op(a: char, b: char) -> Option<OperatorKind> {
    if a == ':' && b == ':' {
        Some(OperatorKind::TypeQualifier)
    } else if a == '=' && b == '=' {
        Some(OperatorKind::Eq)
    } else if a == '+' && b == '=' {
        Some(OperatorKind::AssignPlus)
    } else if a == '-' && b == '=' {
        Some(OperatorKind::AssignSub)
    } else if a == '*' && b == '=' {
        Some(OperatorKind::AssignMul)
    } else if a == '/' && b == '=' {
        Some(OperatorKind::AssignDiv)
    } else if a == '-' && b == '>' {
        Some(OperatorKind::TypeArrow)
    } else if a == '<' && b == '=' {
        Some(OperatorKind::LTE)
    } else {
        None
    }
}

/// The one-character operators (`:` has none).
pub open spec fn simple_op(a: char) -> OperatorKind {
    if a == '+' {
        OperatorKind::Plus
    } else if a == '-' {
        OperatorKind::Sub
    } else if a == '*' {
        OperatorKind::Mul
    } else if a == '/' {
        OperatorKind::Div
    } else if a == '=' {
        OperatorKind::Assign
    } else if a == '<' {
        OperatorKind::LT
    } else {
        OperatorKind::GT
    }
}

/// How many characters an operator's lexeme has.
#[derive(Debug, Clone, Copy, PartialEq, Eq, Structural)]
pub enum OperatorComplexity {
    /// One character.
    Simple,
    /// Two characters.
    Complex,
}

pub open spec fn complexity_of(k: OperatorKind) -> OperatorComplexity {
    match k {
        OperatorKind::TypeQualifier | OperatorKind::Eq | OperatorKind::AssignPlus
        | OperatorKind::AssignSub | OperatorKind::AssignMul | OperatorKind::AssignDiv
        | OperatorKind::TypeArrow | OperatorKind::LTE => OperatorComplexity::Complex,
        _ => OperatorComplexity::Simple,
    }
}

/// The operators whose lexeme has two characters.
pub open spec fn is_complex_op(k: OperatorKind) -> bool {
    complexity_of(k) == OperatorComplexity::Complex
}

impl From<OperatorKind> for OperatorComplexity {
    fn from(value: OperatorKind) -> (r: OperatorComplexity) {
        match value {
            OperatorKind::TypeArrow => OperatorComplexity::Complex,
            OperatorKind::Plus => OperatorComplexity::Simple,
            OperatorKind::Sub => OperatorComplexity::Simple,
            OperatorKind::Mul => OperatorComplexity::Simple,
            OperatorKind::Div => OperatorComplexity::Simple,
            OperatorKind::TypeQualifier => OperatorComplexity::Complex,
            OperatorKind::Assign => OperatorComplexity::Simple,
            OperatorKind::AssignPlus => OperatorComplexity::Complex,
            OperatorKind::AssignSub => OperatorComplexity::Complex,
            OperatorKind::AssignMul => OperatorComplexity::Complex,
            OperatorKind::AssignDiv => OperatorComplexity::Complex,
            OperatorKind::LT => OperatorComplexity::Simple,
            OperatorKind::LTE => OperatorComplexity::Complex,
            OperatorKind::GT => OperatorComplexity::Simple,
            OperatorKind::Eq => OperatorComplexity::Complex,
        }
    }
}

impl vstd::std_specs::convert::FromSpecImpl<OperatorKind> for OperatorComplexity {
    open spec fn obeys_from_spec() -> bool {
        true
    }

    open spec fn from_spec(v: OperatorKind) -> OperatorComplexity {
        complexity_of(v)
    }
}

/// Every operator that the lexer forms from two characters is `Complex`, every
/// one that it forms from one is `Simple`.
pub proof fn lemma_operator_widths(a: char, b: char)
    ensures
        complex_op(a, b) matches Some(k) ==> complexity_of(k) == OperatorComplexity::Complex,
        is_op_atom(a) && a != ':' ==> complexity_of(simple_op(a)) == OperatorComplexity::Simple,
{
}

pub open spec fn reserved_of(w: Seq<char>) -> Option<ReservedKind> {
    if w == seq!['a', 'n', 'd'] {
        Some(ReservedKind::And)
    } else if w == seq!['o', 'r'] {
        Some(ReservedKind::Or)
    } else if w == seq!['i', 'f'] {
        Some(ReservedKind::If)
    } else if w == seq!['e', 'l', 's', 'e'] {
        Some(ReservedKind::Else)
    } else if w == seq!['m', 'a', 'i', 'n'] {
        Some(ReservedKind::Main)
    } else if w == seq!['s', 't', 'r', 'u', 'c', 't'] {
        Some(ReservedKind::Struct)
    } else if w == seq!['e', 'n', 'u', 'm'] {
        Some(ReservedKind::Enum)
    } else if w == seq!['p', 'r', 'o', 'c'] {
        Some(ReservedKind::Proc)
    } else if w == seq!['b', 'o', 'o', 'l'] {
        Some(ReservedKind::PrimTy(ScannerPrimKind::Bool))
    } else if w == seq!['s', '8'] {
        Some(ReservedKind::PrimTy(ScannerPrimKind::S8))
    } else if w == seq!['s', '1', '6'] {
        Some(ReservedKind::PrimTy(ScannerPrimKind::S16))
    } else if w == seq!['s', '3', '2'] {
        Some(ReservedKind::PrimTy(ScannerPrimKind::S32))
    } else if w == seq!['s', '6', '4'] {
        Some(ReservedKind::PrimTy(ScannerPrimKind::S64))
    } else if w == seq!['u', '8'] {
        Some(ReservedKind::PrimTy(ScannerPrimKind::U8))
    } else if w == seq!['u', '1', '6'] {
        Some(ReservedKind::PrimTy(ScannerPrimKind::U16))
    } else if w == seq!['u', '3', '2'] {
        Some(ReservedKind::PrimTy(ScannerPrimKind::U32))
    } else if w == seq!['u', '6', '4'] {
        Some(ReservedKind::PrimTy(ScannerPrimKind::U64))
    } else {
        None
    }
}

/// The kind of a word, decided by its first character; one that starts with `.` is
/// punctuation.
pub open spec fn classify(w: Seq<char>) -> Option<TokenKind> {
    if w.len() == 0 {
        None
    } else if is_alpha(w[0]) {
        match reserved_of(w) {
            Some(k) => Some(TokenKind::Reserved(k)),
            None => Some(TokenKind::Identifier),
        }
    } else if is_digit(w[0]) {
        if w.contains('.') {
            Some(TokenKind::FloatLiteral)
        } else {
            Some(TokenKind::IntLiteral)
        }
    } else if w[0] == '.' {
        Some(TokenKind::Punctuation(PunctuationKind::Dot))
    } else {
        None
    }
}

// ---- the token sequence of a text ----

/// The end of the word that starts at `i`.
pub open spec fn word_end(s: Seq<char>, i: int) -> int
    decreases s.len() - i,
{
    if 0 <= i < s.len() && is_word_char(s[i]) {
        word_end(s, i + 1)
    } else {
        i
    }
}

/// The token made of `s[i..j]`.
pub open spec fn tok(s: Seq<char>, i: int, j: int, k: TokenKind) -> TokenView {
    TokenView {
        content: s.subrange(i, j),
        kind: k,
        span: Span { line_num: pos_at(s, i).0 as usize, col_num: pos_at(s, i).1 as usize },
    }
}

pub open spec fn prepend_all<E>(p: Seq<TokenView>, r: Result<Seq<TokenView>, E>) -> Result<
    Seq<TokenView>,
    E,
> {
    match r {
        Ok(ts) => Ok(p + ts),
        Err(e) => Err(e),
    }
}

/// The tokens of `s` from index `i` on, or the first lexical error there.
pub open spec fn lex_at(s: Seq<char>, i: int) -> Result<Seq<TokenView>, ScannerError>
    decreases s.len() - i,
{
    if i < 0 || i >= s.len() {
        Ok(Seq::empty())
    } else {
        let c = s[i];
        if is_space(c) {
            lex_at(s, i + 1)
        } else if is_punct_char(c) {
            prepend_all(seq![tok(s, i, i + 1, TokenKind::Punctuation(punct_kind(c)))], lex_at(s, i + 1))
        } else if is_op_atom(c) {
            if i + 1 < s.len() && complex_op(c, s[i + 1]) is Some {
                prepend_all(
                    seq![tok(s, i, i + 2, TokenKind::Operator(complex_op(c, s[i + 1])->0))],
                    lex_at(s, i + 2),
                )
            } else if c == ':' {
                Err(ScannerError::MalformedTQualifier)
            } else {
                prepend_all(seq![tok(s, i, i + 1, TokenKind::Operator(simple_op(c)))], lex_at(s, i + 1))
            }
        } else {
            let j = word_end(s, i);
            if j <= i || j > s.len() {
                Ok(Seq::empty())
            } else {
                match classify(s.subrange(i, j)) {
                    Some(k) => prepend_all(seq![tok(s, i, j, k)], lex_at(s, j)),
                    None => if j < s.len() && is_punct_char(s[j]) {
                        Err(ScannerError::UnknownTokenTouchingPunctuation)
                    } else {
                        Err(ScannerError::UnknownToken)
                    },
                }
            }
        }
    }
}

// ---- number literals ----

/// The end of the run of digits that starts at `i`.
pub open spec fn digits_end(w: Seq<char>, i: int) -> int
    decreases w.len() - i,
{
    if 0 <= i < w.len() && is_digit(w[i]) {
        digits_end(w, i + 1)
    } else {
        i
    }
}

pub open spec fn is_int_postfix(p: Seq<char>) -> bool {
    p == seq!['u', '8'] || p == seq!['u', '1', '6'] || p == seq!['u', '3', '2'] || p == seq![
        'u',
        '6',
        '4',
    ] || p == seq!['s', '8'] || p == seq!['s', '1', '6'] || p == seq!['s', '3', '2'] || p
        == seq!['s', '6', '4']
}

pub open spec fn is_float_postfix(p: Seq<char>) -> bool {
    p == seq!['f', '3', '2'] || p == seq!['f', '6', '4']
}

/// Digits, then nothing or an integer postfix.
pub open spec fn int_literal_ok(w: Seq<char>) -> bool {
    let d = digits_end(w, 0);
    d > 0 && (d == w.len() || is_int_postfix(w.subrange(d, w.len() as int)))
}

/// Digits, a `.`, digits, then nothing or a float postfix.
pub open spec fn float_literal_ok(w: Seq<char>) -> bool {
    let d = digits_end(w, 0);
    let e = digits_end(w, d + 1);
    d > 0 && d < w.len() && w[d] == '.' && (e == w.len() || is_float_postfix(
        w.subrange(e, w.len() as int),
    ))
}

pub open spec fn literal_ok(t: TokenView) -> bool {
    match t.kind {
        TokenKind::IntLiteral => int_literal_ok(t.content),
        TokenKind::FloatLiteral => float_literal_ok(t.content),
        _ => true,
    }
}

pub open spec fn literals_ok(ts: Seq<TokenView>) -> bool {
    forall|i: int| 0 <= i < ts.len() ==> #[trigger] literal_ok(ts[i])
}

/// The tokens of a module's text, or the error that lexing it ends in.
pub open spec fn lex(s: Seq<char>) -> Result<Seq<TokenView>, ScannerError> {
    match lex_at(s, 0) {
        Ok(ts) => if literals_ok(ts) {
            Ok(ts)
        } else {
            Err(ScannerError::MalformedNumLit)
        },
        Err(e) => Err(e),
    }
}

pub open spec fn result_views(r: Result<Vec<Token>, ScannerError>) -> Result<
    Seq<TokenView>,
    ScannerError,
> {
    match r {
        Ok(ts) => Ok(token_views(ts@)),
        Err(e) => Err(e),
    }
}

/// The longest text whose positions the scanner can count in a `usize`.
pub open spec fn scannable(s: Seq<char>) -> bool {
    s.len() < usize::MAX / 8
}

// ---- executable counterparts ----

/// Relies on std's `FromIterator<&char>` for `String`: the string holds the characters in order.
#[verifier::external_body]
pub(crate) fn string_from_chars(cs: &Vec<char>) -> (r: String)
    ensures
        r@ == cs@,
{
    cs.iter().collect()
}

/// The characters of `s`, in order.
pub fn chars_of(s: &str) -> (r: Vec<char>)
    ensures
        r@ == s@,
{
    let mut v: Vec<char> = Vec::new();
    for c in it: s.chars()
        invariant
            v@ == it.seq().take(it.index() as int),
    {
        v.push(c);
    }
    v
}

fn char_is_space(c: char) -> (r: bool)
    ensures
        r == is_space(c),
{
    c == ' ' || c == '\t' || c == '\n' || c == '\r' || c == '\x0C'
}

fn char_is_punct(c: char) -> (r: bool)
    ensures
        r == is_punct_char(c),
{
    c == '(' || c == ')' || c == '[' || c == ']' || c == '{' || c == '}' || c == ',' || c == ';'
}

fn char_is_op_atom(c: char) -> (r: bool)
    ensures
        r == is_op_atom(c),
{
    c == '+' || c == '-' || c == '*' || c == '/' || c == '=' || c == '>' || c == '<' || c == ':'
}

fn char_is_word(c: char) -> (r: bool)
    ensures
        r == is_word_char(c),
{
    !char_is_space(c) && !char_is_punct(c) && !char_is_op_atom(c)
}

fn char_is_digit(c: char) -> (r: bool)
    ensures
        r == is_digit(c),
{
    '0' <= c && c <= '9'
}

impl PunctuationKind {
    /// The punctuation kind of `value`.
    pub fn from_char(value: char) -> (r: PunctuationKind)
        requires
            is_punct_char(value) || value == '.',
        ensures
            r == punct_kind(value),
    {
        match value {
            '(' => PunctuationKind::OpenParen,
            ')' => PunctuationKind::CloseParen,
            '[' => PunctuationKind::OpenBracket,
            ']' => PunctuationKind::CloseBracket,
            '{' => PunctuationKind::OpenBrace,
            '}' => PunctuationKind::CloseBrace,
            ',' => PunctuationKind::Comma,
            '.' => PunctuationKind::Dot,
            _ => PunctuationKind::Semicolon,
        }
    }
}

fn complex_op_of(a: char, b: char) -> (r: Option<OperatorKind>)
    ensures
        r == complex_op(a, b),
{
    match (a, b) {
        (':', ':') => Some(OperatorKind::TypeQualifier),
        ('=', '=') => Some(OperatorKind::Eq),
        ('+', '=') => Some(OperatorKind::AssignPlus),
        ('-', '=') => Some(OperatorKind::AssignSub),
        ('*', '=') => Some(OperatorKind::AssignMul),
        ('/', '=') => Some(OperatorKind::AssignDiv),
        ('-', '>') => Some(OperatorKind::TypeArrow),
        ('<', '=') => Some(OperatorKind::LTE),
        _ => None,
    }
}

fn simple_op_of(a: char) -> (r: OperatorKind)
    ensures
        r == simple_op(a),
{
    match a {
        '+' => OperatorKind::Plus,
        '-' => OperatorKind::Sub,
        '*' => OperatorKind::Mul,
        '/' => OperatorKind::Div,
        '=' => OperatorKind::Assign,
        '<' => OperatorKind::LT,
        _ => OperatorKind::GT,
    }
}

/// Whether `w[start..]` spells `lit`.
pub(crate) fn tail_is(w: &Vec<char>, start: usize, lit: &[char]) -> (r: bool)
    requires
        start <= w@.len(),
    ensures
        r == (w@.subrange(start as int, w@.len() as int) == lit@),
{
    if w.len() - start != lit.len() {
        return false;
    }
    let n = w.len();
    let mut i: usize = 0;
    while i < lit.len()
        invariant
            n == w@.len(),
            w@.len() - start == lit@.len(),
            start <= w@.len(),
            i <= lit@.len(),
            forall|k: int| 0 <= k < i ==> w@[start + k] == lit@[k],
        decreases lit@.len() - i,
    {
        assert(start + i < w@.len());
        if w[start + i] != lit[i] {
            return false;
        }
        i = i + 1;
    }
    proof {
        assert(w@.subrange(start as int, w@.len() as int) =~= lit@);
    }
    true
}

fn word_is(w: &Vec<char>, lit: &[char]) -> (r: bool)
    ensures
        r == (w@ == lit@),
{
    proof {
        assert(w@.subrange(0, w@.len() as int) =~= w@);
    }
    tail_is(w, 0, lit)
}

impl ReservedKind {
    /// The reserved word that `w` spells, if any.
    pub fn from_word(w: &Vec<char>) -> (r: Option<ReservedKind>)
        ensures
            r == reserved_of(w@),
    {
        if word_is(w, &['a', 'n', 'd']) {
            Some(ReservedKind::And)
        } else if word_is(w, &['o', 'r']) {
            Some(ReservedKind::Or)
        } else if word_is(w, &['i', 'f']) {
            Some(ReservedKind::If)
        } else if word_is(w, &['e', 'l', 's', 'e']) {
            Some(ReservedKind::Else)
        } else if word_is(w, &['m', 'a', 'i', 'n']) {
            Some(ReservedKind::Main)
        } else if word_is(w, &['s', 't', 'r', 'u', 'c', 't']) {
            Some(ReservedKind::Struct)
        } else if word_is(w, &['e', 'n', 'u', 'm']) {
            Some(ReservedKind::Enum)
        } else if word_is(w, &['p', 'r', 'o', 'c']) {
            Some(ReservedKind::Proc)
        } else if word_is(w, &['b', 'o', 'o', 'l']) {
            Some(ReservedKind::PrimTy(ScannerPrimKind::Bool))
        } else if word_is(w, &['s', '8']) {
            Some(ReservedKind::PrimTy(ScannerPrimKind::S8))
        } else if word_is(w, &['s', '1', '6']) {
            Some(ReservedKind::PrimTy(ScannerPrimKind::S16))
        } else if word_is(w, &['s', '3', '2']) {
            Some(ReservedKind::PrimTy(ScannerPrimKind::S32))
        } else if word_is(w, &['s', '6', '4']) {
            Some(ReservedKind::PrimTy(ScannerPrimKind::S64))
        } else if word_is(w, &['u', '8']) {
            Some(ReservedKind::PrimTy(ScannerPrimKind::U8))
        } else if word_is(w, &['u', '1', '6']) {
            Some(ReservedKind::PrimTy(ScannerPrimKind::U16))
        } else if word_is(w, &['u', '3', '2']) {
            Some(ReservedKind::PrimTy(ScannerPrimKind::U32))
        } else if word_is(w, &['u', '6', '4']) {
            Some(ReservedKind::PrimTy(ScannerPrimKind::U64))
        } else {
            None
        }
    }
}

fn contains_dot(w: &Vec<char>) -> (r: bool)
    ensures
        r == w@.contains('.'),
{
    let mut i: usize = 0;
    while i < w.len()
        invariant
            i <= w@.len(),
            forall|k: int| 0 <= k < i ==> w@[k] != '.',
        decreases w@.len() - i,
    {
        if w[i] == '.' {
            assert(w@[i as int] == '.');
            return true;
        }
        i = i + 1;
    }
    false
}

/// The kind of a gathered word.
fn determine_token_kind(w: &Vec<char>) -> (r: Option<TokenKind>)
    ensures
        r == classify(w@),
{
    if w.len() == 0 {
        return None;
    }
    let c = w[0];
    if ('a' <= c && c <= 'z') || ('A' <= c && c <= 'Z') {
        assert(is_alpha(w@[0]));
        match ReservedKind::from_word(w) {
            Some(k) => Some(TokenKind::Reserved(k)),
            None => Some(TokenKind::Identifier),
        }
    } else if char_is_digit(c) {
        assert(is_digit(w@[0]));
        if contains_dot(w) {
            Some(TokenKind::FloatLiteral)
        } else {
            Some(TokenKind::IntLiteral)
        }
    } else if c == '.' {
        Some(TokenKind::Punctuation(PunctuationKind::Dot))
    } else {
        None
    }
}

proof fn lemma_prepend_push<E>(p: Seq<TokenView>, t: TokenView, r: Result<Seq<TokenView>, E>)
    ensures
        prepend_all(p, prepend_all(seq![t], r)) == prepend_all(p.push(t), r),
{
    if let Ok(ts) = r {
        assert(p + (seq![t] + ts) =~= p.push(t) + ts);
    }
}

proof fn lemma_views_push(ts: Seq<Token>, t: Token)
    ensures
        token_views(ts.push(t)) == token_views(ts).push(t@),
{
    assert(token_views(ts.push(t)) =~= token_views(ts).push(t@));
}

proof fn lemma_word_end_bounds(s: Seq<char>, i: int)
    requires
        0 <= i <= s.len(),
    ensures
        i <= word_end(s, i) <= s.len(),
    decreases s.len() - i,
{
    if i < s.len() && is_word_char(s[i]) {
        lemma_word_end_bounds(s, i + 1);
    }
}

pub(crate) fn one_char(c: char) -> (r: Vec<char>)
    ensures
        r@ == seq![c],
{
    let mut v: Vec<char> = Vec::new();
    v.push(c);
    proof {
        assert(v@ =~= seq![c]);
    }
    v
}

/// Splits one module's text into tokens, each with the position of its first
/// character; a number literal is not checked here.
fn scan_tokens(cs: &Vec<char>) -> (r: Result<Vec<Token>, ScannerError>)
    requires
        scannable(cs@),
    ensures
        result_views(r) == lex_at(cs@, 0),
{
    let n = cs.len();
    let mut tokens: Vec<Token> = Vec::new();
    let mut span = Span::new();
    let mut i: usize = 0;
    while i < n
        invariant
            n == cs@.len(),
            scannable(cs@),
            i <= n,
            span@ == pos_at(cs@, i as int),
            lex_at(cs@, 0) == prepend_all(token_views(tokens@), lex_at(cs@, i as int)),
        decreases n - i,
    {
        proof {
            lemma_pos_at_bounds(cs@, i as int);
            lemma_pos_at_bounds(cs@, i + 1);
        }
        let c = cs[i];
        if char_is_space(c) {
            span.incre_from_char(c);
            i = i + 1;
        } else if char_is_punct(c) {
            let t = Token {
                content: string_from_chars(&one_char(c)),
                kind: TokenKind::Punctuation(PunctuationKind::from_char(c)),
                span,
            };
            proof {
                assert(cs@.subrange(i as int, i + 1) =~= seq![c]);
                assert(t@ == tok(cs@, i as int, i + 1, TokenKind::Punctuation(punct_kind(c))));
                lemma_prepend_push(token_views(tokens@), t@, lex_at(cs@, i + 1));
                lemma_views_push(tokens@, t);
            }
            tokens.push(t);
            span.incre_from_char(c);
            i = i + 1;
        } else if char_is_op_atom(c) {
            let two = if i + 1 < n {
                complex_op_of(c, cs[i + 1])
            } else {
                None
            };
            match two {
                Some(k) => {
                    let d = cs[i + 1];
                    let mut lexeme = one_char(c);
                    lexeme.push(d);
                    let t = Token { content: string_from_chars(&lexeme), kind: TokenKind::Operator(k), span };
                    proof {
                        assert(cs@.subrange(i as int, i + 2) =~= lexeme@);
                        assert(t@ == tok(cs@, i as int, i + 2, TokenKind::Operator(k)));
                        lemma_prepend_push(token_views(tokens@), t@, lex_at(cs@, i + 2));
                        lemma_views_push(tokens@, t);
                    }
                    tokens.push(t);
                    span.incre_from_char(c);
                    span.incre_from_char(d);
                    i = i + 2;
                },
                None => {
                    if c == ':' {
                        return Err(ScannerError::MalformedTQualifier);
                    }
                    let t = Token {
                        content: string_from_chars(&one_char(c)),
                        kind: TokenKind::Operator(simple_op_of(c)),
                        span,
                    };
                    proof {
                        assert(cs@.subrange(i as int, i + 1) =~= seq![c]);
                        assert(t@ == tok(cs@, i as int, i + 1, TokenKind::Operator(simple_op(c))));
                        lemma_prepend_push(token_views(tokens@), t@, lex_at(cs@, i + 1));
                        lemma_views_push(tokens@, t);
                    }
                    tokens.push(t);
                    span.incre_from_char(c);
                    i = i + 1;
                },
            }
        } else {
            let start = i;
            let start_span = span;
            let mut word: Vec<char> = Vec::new();
            proof {
                lemma_word_end_bounds(cs@, i as int);
            }
            while i < n && char_is_word(cs[i])
                invariant
                    n == cs@.len(),
                    scannable(cs@),
                    start <= i <= n,
                    word@ == cs@.subrange(start as int, i as int),
                    span@ == pos_at(cs@, i as int),
                    word_end(cs@, start as int) == word_end(cs@, i as int),
                decreases n - i,
            {
                proof {
                    lemma_pos_at_bounds(cs@, i as int);
                }
                let d = cs[i];
                word.push(d);
                proof {
                    assert(word@ =~= cs@.subrange(start as int, i + 1));
                }
                span.incre_from_char(d);
                i = i + 1;
            }
            proof {
                lemma_word_end_bounds(cs@, start as int);
                assert(i > start);
            }
            match determine_token_kind(&word) {
                Some(k) => {
                    let t = Token { content: string_from_chars(&word), kind: k, span: start_span };
                    proof {
                        assert(t@ == tok(cs@, start as int, i as int, k));
                        lemma_prepend_push(token_views(tokens@), t@, lex_at(cs@, i as int));
                        lemma_views_push(tokens@, t);
                    }
                    tokens.push(t);
                },
                None => {
                    if i < n && char_is_punct(cs[i]) {
                        return Err(ScannerError::UnknownTokenTouchingPunctuation);
                    } else {
                        return Err(ScannerError::UnknownToken);
                    }
                },
            }
        }
    }
    proof {
        assert(token_views(tokens@) + Seq::<TokenView>::empty() =~= token_views(tokens@));
    }
    Ok(tokens)
}

fn digits_end_of(w: &Vec<char>, i: usize) -> (r: usize)
    requires
        i <= w@.len(),
    ensures
        r == digits_end(w@, i as int),
        i <= r <= w@.len(),
{
    let mut j = i;
    while j < w.len() && char_is_digit(w[j])
        invariant
            i <= j <= w@.len(),
            digits_end(w@, i as int) == digits_end(w@, j as int),
        decreases w@.len() - j,
    {
        j = j + 1;
    }
    j
}

fn int_literal_is_ok(w: &Vec<char>) -> (r: bool)
    ensures
        r == int_literal_ok(w@),
{
    let d = digits_end_of(w, 0);
    d > 0 && (d == w.len() || tail_is(w, d, &['u', '8']) || tail_is(w, d, &['u', '1', '6'])
        || tail_is(w, d, &['u', '3', '2']) || tail_is(w, d, &['u', '6', '4']) || tail_is(
        w,
        d,
        &['s', '8'],
    ) || tail_is(w, d, &['s', '1', '6']) || tail_is(w, d, &['s', '3', '2']) || tail_is(
        w,
        d,
        &['s', '6', '4'],
    ))
}

fn float_literal_is_ok(w: &Vec<char>) -> (r: bool)
    ensures
        r == float_literal_ok(w@),
{
    let d = digits_end_of(w, 0);
    if d == 0 || d >= w.len() || w[d] != '.' {
        return false;
    }
    let e = digits_end_of(w, d + 1);
    e == w.len() || tail_is(w, e, &['f', '3', '2']) || tail_is(w, e, &['f', '6', '4'])
}

/// Whether every number literal among `tokens` is well formed.
fn literals_are_ok(tokens: &Vec<Token>) -> (r: bool)
    ensures
        r == literals_ok(token_views(tokens@)),
{
    let mut i: usize = 0;
    while i < tokens.len()
        invariant
            i <= tokens@.len(),
            forall|k: int| 0 <= k < i ==> #[trigger] literal_ok(token_views(tokens@)[k]),
        decreases tokens@.len() - i,
    {
        let t = &tokens[i];
        assert(token_views(tokens@)[i as int] == t@);
        if t.kind.is_int_literal() {
            if !int_literal_is_ok(&chars_of(t.content.as_str())) {
                assert(!literal_ok(token_views(tokens@)[i as int]));
                return false;
            }
        } else if t.kind.is_float_literal() {
            if !float_literal_is_ok(&chars_of(t.content.as_str())) {
                assert(!literal_ok(token_views(tokens@)[i as int]));
                return false;
            }
        }
        i = i + 1;
    }
    true
}

/// Splits the text of each module of a `ModuleManager` into tokens.
pub struct Scanner<'scanner> {
    module_manager: &'scanner ModuleManager,
}

impl<'scanner> Scanner<'scanner> {
    pub closed spec fn sources(&self) -> Seq<Module> {
        self.module_manager.modules()
    }

    pub fn new(module_manager: &'scanner ModuleManager) -> (r: Scanner<'scanner>)
        ensures
            r.sources() == module_manager.modules(),
    {
        Scanner { module_manager }
    }

    /// Fails with `MalformedNumLit` exactly when a number literal of the stream is malformed.
    fn check_module_token_stream(tok_stream: &ModuleTokenStream) -> (r: Result<(), ScannerError>)
        ensures
            r is Ok <==> literals_ok(tok_stream.toks()),
            r is Err ==> r == Err::<(), ScannerError>(ScannerError::MalformedNumLit),
    {
        Scanner::check_num_tokens(tok_stream)
    }

    fn check_num_tokens(tok_stream: &ModuleTokenStream) -> (r: Result<(), ScannerError>)
        ensures
            r is Ok <==> literals_ok(tok_stream.toks()),
            r is Err ==> r == Err::<(), ScannerError>(ScannerError::MalformedNumLit),
    {
        if literals_are_ok(&tok_stream.tokens) {
            Ok(())
        } else {
            Err(ScannerError::MalformedNumLit)
        }
    }

    /// The token stream of each module, in order, or the error of the first
    /// module that does not lex.
    pub fn scan(&self) -> (r: Result<Vec<ModuleTokenStream<'scanner>>, ScannerError>)
        requires
            forall|k: int| 0 <= k < self.sources().len() ==> scannable(#[trigger] self.sources()[k].src@),
        ensures
            r is Ok <==> forall|k: int| 0 <= k < self.sources().len() ==> (#[trigger] lex(self.sources()[k].src@)) is Ok,
            r matches Ok(streams) ==> {
                &&& streams@.len() == self.sources().len()
                &&& forall|k: int| 0 <= k < streams@.len() ==> {
                    &&& (#[trigger] streams@[k]).toks() == lex(self.sources()[k].src@)->Ok_0
                    &&& streams@[k].cursor == 0
                    &&& *streams@[k].module == self.sources()[k]
                }
            },
            r matches Err(e) ==> exists|k: int| {
                &&& 0 <= k < self.sources().len()
                &&& lex(#[trigger] self.sources()[k].src@) == Err::<Seq<TokenView>, ScannerError>(e)
                &&& forall|j: int| 0 <= j < k ==> (#[trigger] lex(self.sources()[j].src@)) is Ok
            },
    {
        let mm: &'scanner ModuleManager = self.module_manager;
        let modules: &'scanner Vec<Module> = mm.get_ref();
        let mut streams: Vec<ModuleTokenStream<'scanner>> = Vec::new();
        let mut k: usize = 0;
        while k < modules.len()
            invariant
                modules@ == self.sources(),
                k <= modules@.len(),
                forall|m: int| 0 <= m < modules@.len() ==> scannable(#[trigger] modules@[m].src@),
                streams@.len() == k,
                forall|m: int| 0 <= m < k ==> (#[trigger] lex(modules@[m].src@)) is Ok,
                forall|m: int| 0 <= m < k ==> {
                    &&& (#[trigger] streams@[m]).toks() == lex(modules@[m].src@)->Ok_0
                    &&& streams@[m].cursor == 0
                    &&& *streams@[m].module == modules@[m]
                },
            decreases modules@.len() - k,
        {
            let module: &'scanner Module = &modules[k];
            let cs = chars_of(module.src.as_str());
            let tokens = match scan_tokens(&cs) {
                Ok(tokens) => tokens,
                Err(e) => {
                    assert(lex(modules@[k as int].src@) == Err::<Seq<TokenView>, ScannerError>(e));
                    return Err(e);
                },
            };
            let stream = ModuleTokenStream { module, tokens, cursor: 0 };
            match Scanner::check_module_token_stream(&stream) {
                Ok(()) => {},
                Err(e) => {
                    assert(lex(modules@[k as int].src@) == Err::<Seq<TokenView>, ScannerError>(e));
                    return Err(e);
                },
            }
            streams.push(stream);
            k = k + 1;
        }
        Ok(streams)
    }
}

/// Maximal munch: wherever lexing reaches the first character of a two-character
/// operator, both characters become one operator token, of a kind whose lexeme has
/// two characters; and the lexeme alone lexes to that single token.
pub proof fn lemma_maximal_munch(s: Seq<char>, i: int)
    requires
        0 <= i,
        i + 1 < s.len(),
        complex_op(s[i], s[i + 1]) is Some,
    ensures
        lex_at(s, i) == prepend_all(
            seq![tok(s, i, i + 2, TokenKind::Operator(complex_op(s[i], s[i + 1])->0))],
            lex_at(s, i + 2),
        ),
        is_complex_op(complex_op(s[i], s[i + 1])->0),
        lex(seq![s[i], s[i + 1]]) == Ok::<Seq<TokenView>, ScannerError>(
            seq![tok(seq![s[i], s[i + 1]], 0, 2, TokenKind::Operator(complex_op(s[i], s[i + 1])->0))],
        ),
{
    let w = seq![s[i], s[i + 1]];
    let k = complex_op(s[i], s[i + 1])->0;
    assert(lex_at(w, 2) == Ok::<Seq<TokenView>, ScannerError>(Seq::empty()));
    let ts = seq![tok(w, 0, 2, TokenKind::Operator(k))];
    assert(lex_at(w, 0) == prepend_all(ts, lex_at(w, 2)));
    assert(ts + Seq::<TokenView>::empty() =~= ts);
    assert(literal_ok(ts[0]));
}

pub open spec fn spans_sorted(ts: Seq<TokenView>) -> bool {
    forall|a: int, b: int| 0 <= a < b < ts.len() ==> pos_le(ts[a].span@, ts[b].span@)
}

proof fn lemma_tok_span(s: Seq<char>, i: int, j: int, k: TokenKind)
    requires
        scannable(s),
        0 <= i < s.len(),
    ensures
        tok(s, i, j, k).span@ == pos_at(s, i),
{
    lemma_pos_at_bounds(s, i);
}

proof fn lemma_lex_at_sorted(s: Seq<char>, i: int)
    requires
        scannable(s),
        0 <= i,
        lex_at(s, i) is Ok,
    ensures
        spans_sorted(lex_at(s, i)->Ok_0),
        forall|a: int|
            0 <= a < lex_at(s, i)->Ok_0.len() ==> pos_le(pos_at(s, i), #[trigger] lex_at(s, i)->Ok_0[a].span@),
    decreases s.len() - i,
{
    if i < s.len() {
        let c = s[i];
        let ts = lex_at(s, i)->Ok_0;
        if is_space(c) {
            lemma_lex_at_sorted(s, i + 1);
            lemma_pos_at_monotone(s, i, i + 1);
        } else {
            let next = if is_punct_char(c) {
                i + 1
            } else if is_op_atom(c) {
                if i + 1 < s.len() && complex_op(c, s[i + 1]) is Some {
                    i + 2
                } else {
                    i + 1
                }
            } else {
                lemma_word_end_bounds(s, i + 1);
                word_end(s, i)
            };
            let k = if is_punct_char(c) {
                TokenKind::Punctuation(punct_kind(c))
            } else if is_op_atom(c) {
                if i + 1 < s.len() && complex_op(c, s[i + 1]) is Some {
                    TokenKind::Operator(complex_op(c, s[i + 1])->0)
                } else {
                    TokenKind::Operator(simple_op(c))
                }
            } else {
                classify(s.subrange(i, next))->0
            };
            assert(i < next <= s.len());
            assert(lex_at(s, i) == prepend_all(seq![tok(s, i, next, k)], lex_at(s, next)));
            lemma_lex_at_sorted(s, next);
            lemma_pos_at_monotone(s, i, next);
            let rest = lex_at(s, next)->Ok_0;
            assert(ts.len() == rest.len() + 1);
            assert(ts.drop_first() =~= rest);
            lemma_tok_span(s, i, next, ts[0].kind);
            assert(ts[0].span@ == pos_at(s, i));
            assert forall|a: int, b: int| 0 <= a < b < ts.len() implies pos_le(
                ts[a].span@,
                ts[b].span@,
            ) by {
                assert(ts[b] == rest[b - 1]);
                if a > 0 {
                    assert(ts[a] == rest[a - 1]);
                }
            }
            assert forall|a: int| 0 <= a < ts.len() implies pos_le(pos_at(s, i), #[trigger] ts[a].span@) by {
                if a > 0 {
                    assert(ts[a] == rest[a - 1]);
                }
            }
        }
    }
}

/// The tokens of any module come in order of position: by line, then by column.
pub proof fn lemma_spans_non_decreasing(s: Seq<char>)
    requires
        scannable(s),
        lex(s) is Ok,
    ensures
        spans_sorted(lex(s)->Ok_0),
{
    lemma_lex_at_sorted(s, 0);
}

/// Lexing reaches index `i` of `s`: the tokens before it are `p`.
pub open spec fn reaches(s: Seq<char>, i: int, p: Seq<TokenView>) -> bool {
    lex_at(s, 0) == prepend_all(p, lex_at(s, i))
}

/// A `:` not followed by a second `:` makes lexing fail with `MalformedTQualifier`
/// wherever lexing reaches it; it never becomes an operator token.
pub proof fn lemma_lone_colon_fails(s: Seq<char>, i: int, p: Seq<TokenView>)
    requires
        0 <= i < s.len(),
        s[i] == ':',
        !(i + 1 < s.len() && s[i + 1] == ':'),
        reaches(s, i, p),
    ensures
        lex_at(s, i) == Err::<Seq<TokenView>, ScannerError>(ScannerError::MalformedTQualifier),
        lex(s) == Err::<Seq<TokenView>, ScannerError>(ScannerError::MalformedTQualifier),
{
}

/// A word right before punctuation that is no kind of token makes lexing fail with
/// `UnknownTokenTouchingPunctuation` wherever lexing reaches it; it is never dropped.
pub proof fn lemma_unknown_before_punctuation_fails(s: Seq<char>, i: int, p: Seq<TokenView>)
    requires
        0 <= i < s.len(),
        is_word_char(s[i]),
        word_end(s, i) < s.len(),
        is_punct_char(s[word_end(s, i)]),
        classify(s.subrange(i, word_end(s, i))) is None,
        reaches(s, i, p),
    ensures
        lex_at(s, i) == Err::<Seq<TokenView>, ScannerError>(ScannerError::UnknownTokenTouchingPunctuation),
        lex(s) == Err::<Seq<TokenView>, ScannerError>(ScannerError::UnknownTokenTouchingPunctuation),
{
    lemma_word_end_bounds(s, i + 1);
}

/// A `:` with no `:` on either side.
pub open spec fn lone_colon_at(s: Seq<char>, p: int) -> bool {
    &&& 0 <= p < s.len()
    &&& s[p] == ':'
    &&& !(p > 0 && s[p - 1] == ':')
    &&& !(p + 1 < s.len() && s[p + 1] == ':')
}

proof fn lemma_word_end_stops(s: Seq<char>, i: int, p: int)
    requires
        0 <= i <= p < s.len(),
        !is_word_char(s[p]),
    ensures
        word_end(s, i) <= p,
    decreases p - i,
{
    if i < p && is_word_char(s[i]) {
        lemma_word_end_stops(s, i + 1, p);
    }
}

proof fn lemma_lex_at_fails_before(s: Seq<char>, i: int, p: int)
    requires
        0 <= i <= p,
        lone_colon_at(s, p),
    ensures
        lex_at(s, i) is Err,
    decreases p - i,
{
    if i < p {
        let c = s[i];
        if is_space(c) || is_punct_char(c) {
            lemma_lex_at_fails_before(s, i + 1, p);
        } else if is_op_atom(c) {
            if i + 1 < s.len() && complex_op(c, s[i + 1]) is Some {
                assert(i + 1 < p);
                lemma_lex_at_fails_before(s, i + 2, p);
            } else if c != ':' {
                lemma_lex_at_fails_before(s, i + 1, p);
            }
        } else {
            lemma_word_end_bounds(s, i + 1);
            lemma_word_end_stops(s, i, p);
            let j = word_end(s, i);
            if classify(s.subrange(i, j)) is Some {
                lemma_lex_at_fails_before(s, j, p);
            }
        }
    }
}

/// A text that holds a lone `:` anywhere never lexes: lexing cannot step over it,
/// so it fails there with `MalformedTQualifier` or at an earlier fault.
pub proof fn lemma_lone_colon_anywhere_fails(s: Seq<char>, p: int)
    requires
        lone_colon_at(s, p),
    ensures
        lex(s) is Err,
{
    lemma_lex_at_fails_before(s, 0, p);
}

/// The index in `s` where each token of `lex_at(s, i)` starts.
pub open spec fn token_starts(s: Seq<char>, i: int) -> Seq<int>
    decreases s.len() - i,
{
    if i < 0 || i >= s.len() {
        Seq::empty()
    } else {
        let c = s[i];
        if is_space(c) {
            token_starts(s, i + 1)
        } else if is_punct_char(c) {
            seq![i] + token_starts(s, i + 1)
        } else if is_op_atom(c) {
            if i + 1 < s.len() && complex_op(c, s[i + 1]) is Some {
                seq![i] + token_starts(s, i + 2)
            } else {
                seq![i] + token_starts(s, i + 1)
            }
        } else {
            let j = word_end(s, i);
            if j <= i || j > s.len() {
                Seq::empty()
            } else {
                seq![i] + token_starts(s, j)
            }
        }
    }
}

/// Each token is the text at its start, tokens do not overlap, and a one-character
/// operator never stands before a character it could form a two-character operator with.
pub open spec fn munched(s: Seq<char>, ts: Seq<TokenView>, st: Seq<int>) -> bool {
    &&& st.len() == ts.len()
    &&& forall|k: int|
        0 <= k < ts.len() ==> {
            &&& 0 <= #[trigger] st[k]
            &&& st[k] + ts[k].content.len() <= s.len()
            &&& ts[k].content == s.subrange(st[k], st[k] + ts[k].content.len())
            &&& ts[k].kind is Operator && ts[k].content.len() == 1 && st[k] + 1 < s.len()
                ==> complex_op(s[st[k]], s[st[k] + 1]) is None
        }
    &&& forall|k: int| 0 < k < ts.len() ==> st[k - 1] + ts[k - 1].content.len() <= #[trigger] st[k]
}

proof fn lemma_munched(s: Seq<char>, i: int)
    requires
        0 <= i,
        lex_at(s, i) is Ok,
    ensures
        munched(s, lex_at(s, i)->Ok_0, token_starts(s, i)),
        forall|k: int| 0 <= k < token_starts(s, i).len() ==> i <= #[trigger] token_starts(s, i)[k],
    decreases s.len() - i,
{
    if i < s.len() {
        let c = s[i];
        if is_space(c) {
            lemma_munched(s, i + 1);
        } else {
            let next = if is_punct_char(c) {
                i + 1
            } else if is_op_atom(c) {
                if i + 1 < s.len() && complex_op(c, s[i + 1]) is Some {
                    i + 2
                } else {
                    i + 1
                }
            } else {
                lemma_word_end_bounds(s, i + 1);
                word_end(s, i)
            };
            let k0 = if is_punct_char(c) {
                TokenKind::Punctuation(punct_kind(c))
            } else if is_op_atom(c) {
                if i + 1 < s.len() && complex_op(c, s[i + 1]) is Some {
                    TokenKind::Operator(complex_op(c, s[i + 1])->0)
                } else {
                    TokenKind::Operator(simple_op(c))
                }
            } else {
                classify(s.subrange(i, next))->0
            };
            assert(i < next <= s.len());
            assert(lex_at(s, i) == prepend_all(seq![tok(s, i, next, k0)], lex_at(s, next)));
            assert(token_starts(s, i) == seq![i] + token_starts(s, next));
            lemma_munched(s, next);
            let ts = lex_at(s, i)->Ok_0;
            let st = token_starts(s, i);
            let rest = lex_at(s, next)->Ok_0;
            let rst = token_starts(s, next);
            assert(ts.len() == rest.len() + 1);
            assert(ts[0].content.len() == next - i);
            assert forall|k: int| 0 <= k < ts.len() implies {
                &&& 0 <= #[trigger] st[k]
                &&& st[k] + ts[k].content.len() <= s.len()
                &&& ts[k].content == s.subrange(st[k], st[k] + ts[k].content.len())
                &&& ts[k].kind is Operator && ts[k].content.len() == 1 && st[k] + 1 < s.len()
                    ==> complex_op(s[st[k]], s[st[k] + 1]) is None
            } && i <= st[k] by {
                if k > 0 {
                    assert(ts[k] == rest[k - 1]);
                    assert(st[k] == rst[k - 1]);
                }
            }
            assert forall|k: int| 0 < k < ts.len() implies st[k - 1] + ts[k - 1].content.len()
                <= #[trigger] st[k] by {
                assert(ts[k] == rest[k - 1]);
                assert(st[k] == rst[k - 1]);
                assert(next <= rst[k - 1]);
                if k > 1 {
                    assert(ts[k - 1] == rest[k - 2]);
                    assert(st[k - 1] == rst[k - 2]);
                    assert(rst[k - 2] + rest[k - 2].content.len() <= rst[k - 1]);
                }
            }
        }
    }
}

/// Maximal munch over a whole text: of two consecutive tokens of `lex(s)` that are
/// one-character operators standing side by side, the two characters never form a
/// two-character operator (`::`, `->`, `+=`, `-=`, `*=`, `/=`, `<=`, `==`).
pub proof fn lemma_no_split_operator(s: Seq<char>, k: int)
    requires
        lex(s) is Ok,
        0 <= k < lex(s)->Ok_0.len() - 1,
    ensures
        ({
            let ts = lex(s)->Ok_0;
            let st = token_starts(s, 0);
            ts[k].kind is Operator && ts[k + 1].kind is Operator && ts[k].content.len() == 1
                && ts[k + 1].content.len() == 1 && st[k + 1] == st[k] + 1
                ==> complex_op(ts[k].content[0], ts[k + 1].content[0]) is None
        }),
{
    lemma_munched(s, 0);
    let ts = lex(s)->Ok_0;
    let st = token_starts(s, 0);
    assert(0 <= st[k] && 0 <= st[k + 1]);
    assert(st[k] + ts[k].content.len() <= st[k + 1]);
    if ts[k].content.len() == 1 && ts[k + 1].content.len() == 1 {
        assert(ts[k].content[0] == s[st[k]]);
        assert(ts[k + 1].content[0] == s[st[k + 1]]);
    }
}

} // verus!
