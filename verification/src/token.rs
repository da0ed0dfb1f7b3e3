use vstd::prelude::*;
use crate::source::Span;

verus! {

/// A lexical token with its exact source byte span.
#[derive(Debug, PartialEq, Eq)]
pub struct Token {
    pub kind: TokenKind,
    pub span: Span,
}

/// Token kinds recognized by the extractor lexer.
#[derive(Debug, PartialEq, Eq)]
pub enum TokenKind {
    Identifier(String),
    Number(String),
    String(String),
    InterpolatedString(Vec<InterpolatedTokenPart>),
    Dot,
    At,
    Bang,
    Equal,
    EqualEqual,
    BangEqual,
    AmpAmp,
    PipePipe,
    Less,
    LessEqual,
    Greater,
    GreaterEqual,
    FatArrow,
    Plus,
    PlusEqual,
    Minus,
    MinusEqual,
    Star,
    Slash,
    Percent,
    LeftParen,
    RightParen,
    LeftBrace,
    RightBrace,
    LeftBracket,
    RightBracket,
    Comma,
    Colon,
    Eof,
}

/// A literal or embedded expression inside an interpolated string token.
#[derive(Debug, PartialEq, Eq)]
pub enum InterpolatedTokenPart {
    Literal(String),
    Expression(Vec<Token>),
}

/// Token content, with text as character sequences.
pub enum TokenKindV {
    Identifier(Seq<char>),
    Number(Seq<char>),
    Str(Seq<char>),
    InterpolatedString(Seq<PartV>),
    Dot,
    At,
    Bang,
    Equal,
    EqualEqual,
    BangEqual,
    AmpAmp,
    PipePipe,
    Less,
    LessEqual,
    Greater,
    GreaterEqual,
    FatArrow,
    Plus,
    PlusEqual,
    Minus,
    MinusEqual,
    Star,
    Slash,
    Percent,
    LeftParen,
    RightParen,
    LeftBrace,
    RightBrace,
    LeftBracket,
    RightBracket,
    Comma,
    Colon,
    Eof,
}

pub enum PartV {
    Literal(Seq<char>),
    Expression(Seq<TokenV>),
}

pub struct TokenV {
    pub kind: TokenKindV,
    pub span: Span,
}

pub open spec fn kind_view(k: TokenKind) -> TokenKindV
    decreases k,
{
    match k {
        TokenKind::Identifier(s) => TokenKindV::Identifier(s@),
        TokenKind::Number(s) => TokenKindV::Number(s@),
        TokenKind::String(s) => TokenKindV::Str(s@),
        TokenKind::InterpolatedString(parts) => TokenKindV::InterpolatedString(parts_view(parts@)),
        TokenKind::Dot => TokenKindV::Dot,
        TokenKind::At => TokenKindV::At,
        TokenKind::Bang => TokenKindV::Bang,
        TokenKind::Equal => TokenKindV::Equal,
        TokenKind::EqualEqual => TokenKindV::EqualEqual,
        TokenKind::BangEqual => TokenKindV::BangEqual,
        TokenKind::AmpAmp => TokenKindV::AmpAmp,
        TokenKind::PipePipe => TokenKindV::PipePipe,
        TokenKind::Less => TokenKindV::Less,
        TokenKind::LessEqual => TokenKindV::LessEqual,
        TokenKind::Greater => TokenKindV::Greater,
        TokenKind::GreaterEqual => TokenKindV::GreaterEqual,
        TokenKind::FatArrow => TokenKindV::FatArrow,
        TokenKind::Plus => TokenKindV::Plus,
        TokenKind::PlusEqual => TokenKindV::PlusEqual,
        TokenKind::Minus => TokenKindV::Minus,
        TokenKind::MinusEqual => TokenKindV::MinusEqual,
        TokenKind::Star => TokenKindV::Star,
        TokenKind::Slash => TokenKindV::Slash,
        TokenKind::Percent => TokenKindV::Percent,
        TokenKind::LeftParen => TokenKindV::LeftParen,
        TokenKind::RightParen => TokenKindV::RightParen,
        TokenKind::LeftBrace => TokenKindV::LeftBrace,
        TokenKind::RightBrace => TokenKindV::RightBrace,
        TokenKind::LeftBracket => TokenKindV::LeftBracket,
        TokenKind::RightBracket => TokenKindV::RightBracket,
        TokenKind::Comma => TokenKindV::Comma,
        TokenKind::Colon => TokenKindV::Colon,
        TokenKind::Eof => TokenKindV::Eof,
    }
}

pub open spec fn part_view(p: InterpolatedTokenPart) -> PartV
    decreases p,
{
    match p {
        InterpolatedTokenPart::Literal(s) => PartV::Literal(s@),
        InterpolatedTokenPart::Expression(ts) => PartV::Expression(tokens_view(ts@)),
    }
}

pub open spec fn parts_view(s: Seq<InterpolatedTokenPart>) -> Seq<PartV>
    decreases s,
{
    if s.len() == 0 {
        seq![]
    } else {
        proof {
            assert(decreases_to!(s => s.drop_last()));
        }
        parts_view(s.drop_last()).push(part_view(s.last()))
    }
}

pub open spec fn token_view(t: Token) -> TokenV
    decreases t,
{
    TokenV { kind: kind_view(t.kind), span: t.span }
}

pub open spec fn tokens_view(s: Seq<Token>) -> Seq<TokenV>
    decreases s,
{
    if s.len() == 0 {
        seq![]
    } else {
        proof {
            assert(decreases_to!(s => s.drop_last()));
        }
        tokens_view(s.drop_last()).push(token_view(s.last()))
    }
}

pub proof fn lemma_tokens_view_push(s: Seq<Token>, t: Token)
    ensures
        tokens_view(s.push(t)) == tokens_view(s).push(token_view(t)),
{
    assert(s.push(t).drop_last() =~= s);
}

pub proof fn lemma_tokens_view_len(s: Seq<Token>)
    ensures
        tokens_view(s).len() == s.len(),
    decreases s.len(),
{
    if s.len() > 0 {
        lemma_tokens_view_len(s.drop_last());
    }
}

pub proof fn lemma_tokens_view_index(s: Seq<Token>, i: int)
    requires
        0 <= i < s.len(),
    ensures
        tokens_view(s)[i] == token_view(s[i]),
        tokens_view(s).len() == s.len(),
    decreases s.len(),
{
    lemma_tokens_view_len(s);
    if i < s.len() - 1 {
        lemma_tokens_view_index(s.drop_last(), i);
    }
}

pub proof fn lemma_parts_view_push(s: Seq<InterpolatedTokenPart>, p: InterpolatedTokenPart)
    ensures
        parts_view(s.push(p)) == parts_view(s).push(part_view(p)),
{
    assert(s.push(p).drop_last() =~= s);
}

pub proof fn lemma_parts_view_len(s: Seq<InterpolatedTokenPart>)
    ensures
        parts_view(s).len() == s.len(),
    decreases s.len(),
{
    if s.len() > 0 {
        lemma_parts_view_len(s.drop_last());
    }
}

pub proof fn lemma_parts_view_index(s: Seq<InterpolatedTokenPart>, i: int)
    requires
        0 <= i < s.len(),
    ensures
        parts_view(s)[i] == part_view(s[i]),
        parts_view(s).len() == s.len(),
    decreases s.len(),
{
    lemma_parts_view_len(s);
    if i < s.len() - 1 {
        lemma_parts_view_index(s.drop_last(), i);
    }
}

impl Token {
    pub fn new(kind: TokenKind, span: Span) -> (t: Self)
        ensures
            t.kind == kind,
            t.span == span,
    {
        Token { kind, span }
    }

    pub fn kind(&self) -> (r: &TokenKind)
        ensures
            r == self.kind,
    {
        &self.kind
    }

    pub fn span(&self) -> (r: Span)
        ensures
            r == self.span,
    {
        self.span
    }
}

/// A copy of the tokens `s`.
pub fn copy_tokens(s: &Vec<Token>) -> (r: Vec<Token>)
    ensures
        tokens_view(r@) == tokens_view(s@),
    decreases s,
{
    let mut r: Vec<Token> = Vec::new();
    let mut i: usize = 0;
    while i < s.len()
        invariant
            i <= s@.len(),
            tokens_view(r@) == tokens_view(s@.take(i as int)),
        decreases s@.len() - i,
    {
        proof {
            assert(decreases_to!(s => s@));
            assert(decreases_to!(s@ => s@[i as int]));
        }
        let t = copy_token(&s[i]);
        proof {
            lemma_tokens_view_push(r@, t);
            lemma_tokens_view_push(s@.take(i as int), s@[i as int]);
            assert(s@.take(i + 1) =~= s@.take(i as int).push(s@[i as int]));
        }
        r.push(t);
        i = i + 1;
    }
    proof {
        assert(s@.take(s@.len() as int) =~= s@);
    }
    r
}

/// A copy of the token `t`.
pub fn copy_token(t: &Token) -> (r: Token)
    ensures
        token_view(r) == token_view(*t),
    decreases t,
{
    Token { kind: copy_kind(&t.kind), span: t.span }
}

/// A copy of the token kind `k`.
pub fn copy_kind(k: &TokenKind) -> (r: TokenKind)
    ensures
        kind_view(r) == kind_view(*k),
    decreases k,
{
    match k {
        TokenKind::Identifier(s) => TokenKind::Identifier(s.clone()),
        TokenKind::Number(s) => TokenKind::Number(s.clone()),
        TokenKind::String(s) => TokenKind::String(s.clone()),
        TokenKind::InterpolatedString(parts) => {
            let mut r: Vec<InterpolatedTokenPart> = Vec::new();
            let mut i: usize = 0;
            while i < parts.len()
                invariant
                    *k == TokenKind::InterpolatedString(*parts),
                    i <= parts@.len(),
                    parts_view(r@) == parts_view(parts@.take(i as int)),
                decreases parts@.len() - i,
            {
                proof {
                    assert(decreases_to!(*k => (*k)->InterpolatedString_0));
                    assert(decreases_to!(*parts => parts@));
                    assert(decreases_to!(parts@ => parts@[i as int]));
                }
                let p = match &parts[i] {
                    InterpolatedTokenPart::Literal(s) => InterpolatedTokenPart::Literal(s.clone()),
                    InterpolatedTokenPart::Expression(ts) => {
                        proof {
                            assert(decreases_to!(parts@[i as int] => *ts));
                        }
                        InterpolatedTokenPart::Expression(copy_tokens(ts))
                    },
                };
                proof {
                    lemma_parts_view_push(r@, p);
                    lemma_parts_view_push(parts@.take(i as int), parts@[i as int]);
                    assert(parts@.take(i + 1) =~= parts@.take(i as int).push(parts@[i as int]));
                }
                r.push(p);
                i = i + 1;
            }
            proof {
                assert(parts@.take(parts@.len() as int) =~= parts@);
            }
            TokenKind::InterpolatedString(r)
        },
        TokenKind::Dot => TokenKind::Dot,
        TokenKind::At => TokenKind::At,
        TokenKind::Bang => TokenKind::Bang,
        TokenKind::Equal => TokenKind::Equal,
        TokenKind::EqualEqual => TokenKind::EqualEqual,
        TokenKind::BangEqual => TokenKind::BangEqual,
        TokenKind::AmpAmp => TokenKind::AmpAmp,
        TokenKind::PipePipe => TokenKind::PipePipe,
        TokenKind::Less => TokenKind::Less,
        TokenKind::LessEqual => TokenKind::LessEqual,
        TokenKind::Greater => TokenKind::Greater,
        TokenKind::GreaterEqual => TokenKind::GreaterEqual,
        TokenKind::FatArrow => TokenKind::FatArrow,
        TokenKind::Plus => TokenKind::Plus,
        TokenKind::PlusEqual => TokenKind::PlusEqual,
        TokenKind::Minus => TokenKind::Minus,
        TokenKind::MinusEqual => TokenKind::MinusEqual,
        TokenKind::Star => TokenKind::Star,
        TokenKind::Slash => TokenKind::Slash,
        TokenKind::Percent => TokenKind::Percent,
        TokenKind::LeftParen => TokenKind::LeftParen,
        TokenKind::RightParen => TokenKind::RightParen,
        TokenKind::LeftBrace => TokenKind::LeftBrace,
        TokenKind::RightBrace => TokenKind::RightBrace,
        TokenKind::LeftBracket => TokenKind::LeftBracket,
        TokenKind::RightBracket => TokenKind::RightBracket,
        TokenKind::Comma => TokenKind::Comma,
        TokenKind::Colon => TokenKind::Colon,
        TokenKind::Eof => TokenKind::Eof,
    }
}

impl Clone for TokenKind {
    fn clone(&self) -> (r: Self)
        ensures
            kind_view(r) == kind_view(*self),
    {
        copy_kind(self)
    }
}

impl Clone for Token {
    fn clone(&self) -> (r: Self)
        ensures
            token_view(r) == token_view(*self),
    {
        copy_token(self)
    }
}

} // verus!

