//! The extractor lexer: converts source text into source-spanned tokens.

use vstd::prelude::*;
use crate::diagnostic::{CompileError, Diagnostic, DiagnosticV, diag};
use crate::source::Span;
use crate::text::{
    byte_offset, byte_len, char_is_alphabetic, char_is_alphanumeric, char_is_digit,
    char_is_whitespace, char_offsets, chars_of, is_digit, offsets_ok, str_byte_len,
    string_from_range, string_push, string_push_str, unicode_alphabetic, unicode_alphanumeric,
    unicode_whitespace, lemma_byte_offset_mono,
};
use crate::token::{
    InterpolatedTokenPart, PartV, Token, TokenKind, TokenKindV, TokenV, kind_view,
    lemma_parts_view_push, lemma_tokens_view_push, part_view, parts_view, token_view,
    tokens_view,
};

verus! {

/// Byte offset of character `i`, as a `usize`.
pub open spec fn off(s: Seq<char>, i: int) -> usize {
    byte_offset(s, i) as usize
}

/// The span between character indices `a` and `b`.
pub open spec fn span_of(s: Seq<char>, a: int, b: int) -> Span {
    Span { start: off(s, a), end: off(s, b) }
}

pub open spec fn tok(kind: TokenKindV, s: Seq<char>, a: int, b: int) -> TokenV {
    TokenV { kind, span: span_of(s, a, b) }
}

/// Whether the character after the one at `p` is `c`, within the window
/// ending at `e`.
pub open spec fn next_is(s: Seq<char>, e: int, p: int, c: char) -> bool {
    p + 1 < e && s[p + 1] == c
}

/// An identifier starts with `_` or a letter: an ASCII letter, or beyond
/// ASCII an alphabetic character.
pub open spec fn is_ident_start(c: char) -> bool {
    c == '_' || if (c as u32) < 128 {
        crate::text::ascii_letter(c)
    } else {
        unicode_alphabetic(c)
    }
}

/// An identifier goes on with `_`, an ASCII letter or digit, or beyond ASCII
/// an alphanumeric character.
pub open spec fn is_ident_continue(c: char) -> bool {
    c == '_' || if (c as u32) < 128 {
        crate::text::ascii_letter(c) || ('0' <= c && c <= '9')
    } else {
        unicode_alphanumeric(c)
    }
}

/// The character a supported string escape `\c` stands for.
pub open spec fn escape(c: char) -> Option<char> {
    if c == '"' {
        Some('"')
    } else if c == '\\' {
        Some('\\')
    } else if c == 'n' {
        Some('\n')
    } else if c == 'r' {
        Some('\r')
    } else if c == 't' {
        Some('\t')
    } else {
        None
    }
}

/// What the lexer finds at one position: skipped text, a token, or an error.
pub enum Scan {
    Skip(int),
    Tok(TokenV, int),
    Fail(DiagnosticV),
}

/// An end position or an error.
pub enum Step {
    Done(int),
    Fail(DiagnosticV),
}

pub open spec fn unexpected_message(c: char) -> Seq<char> {
    "unexpected character `"@ + seq![c] + "`"@
}

pub open spec fn escape_message(c: char) -> Seq<char> {
    "unsupported string escape `\\"@ + seq![c] + "`"@
}

/// End of a line comment whose text starts at `q`: the next line break or
/// the end of the window.
pub open spec fn line_comment_end(s: Seq<char>, e: int, q: int) -> int
    decreases e - q,
{
    if q >= e || s[q] == '\n' {
        q
    } else {
        line_comment_end(s, e, q + 1)
    }
}

/// Position after the `*/` that closes a block comment whose text starts at
/// `q`, if there is one.
pub open spec fn block_comment_end(s: Seq<char>, e: int, q: int) -> Option<int>
    decreases e - q,
{
    if q >= e {
        None
    } else if s[q] == '*' && next_is(s, e, q, '/') {
        Some(q + 2)
    } else {
        block_comment_end(s, e, q + 1)
    }
}

pub open spec fn digits_end(s: Seq<char>, e: int, q: int) -> int
    decreases e - q,
{
    if q < e && is_digit(s[q]) {
        digits_end(s, e, q + 1)
    } else {
        q
    }
}

pub open spec fn ident_end(s: Seq<char>, e: int, q: int) -> int
    decreases e - q,
{
    if q < e && is_ident_continue(s[q]) {
        ident_end(s, e, q + 1)
    } else {
        q
    }
}

/// End of a number starting at `p`: digits, then optionally a decimal point
/// followed by at least one digit and the digits after it.
pub open spec fn number_end(s: Seq<char>, e: int, p: int) -> int {
    let q = digits_end(s, e, p);
    if q < e && s[q] == '.' && q + 1 < e && is_digit(s[q + 1]) {
        digits_end(s, e, q + 1)
    } else {
        q
    }
}

/// The rest of a string literal opened at `start`, with `val` decoded so far
/// and the next character at `q`.
pub open spec fn string_lit(s: Seq<char>, e: int, start: int, q: int, val: Seq<char>) -> Scan
    decreases e - q,
{
    if q >= e {
        Scan::Fail(diag("unterminated string literal"@, span_of(s, start, start + 1)))
    } else if s[q] == '"' {
        Scan::Tok(tok(TokenKindV::Str(val), s, start, q + 1), q + 1)
    } else if s[q] == '\\' {
        if q + 1 >= e {
            Scan::Fail(diag("unterminated string literal"@, span_of(s, start, start + 1)))
        } else {
            match escape(s[q + 1]) {
                Some(d) => string_lit(s, e, start, q + 2, val.push(d)),
                None => Scan::Fail(diag(escape_message(s[q + 1]), span_of(s, q, q + 2))),
            }
        }
    } else {
        string_lit(s, e, start, q + 1, val.push(s[q]))
    }
}

/// Skips a string inside an interpolation expression; the result is the
/// position after its closing quote.
pub open spec fn skip_quoted(s: Seq<char>, e: int, istart: int, q: int) -> Step
    decreases e - q,
{
    if q >= e {
        Step::Fail(diag("unterminated interpolation expression"@, span_of(s, istart, istart + 1)))
    } else if s[q] == '"' {
        Step::Done(q + 1)
    } else if s[q] == '\\' {
        if q + 1 >= e {
            Step::Fail(
                diag("unterminated interpolation expression"@, span_of(s, istart, istart + 1)),
            )
        } else {
            skip_quoted(s, e, istart, q + 2)
        }
    } else {
        skip_quoted(s, e, istart, q + 1)
    }
}

/// The position of the `}` that closes the interpolation opened at
/// `istart`, scanning from `q` at nesting `depth`.
pub open spec fn interp_end(s: Seq<char>, e: int, istart: int, q: int, depth: nat) -> Step
    decreases e - q,
{
    if q >= e {
        Step::Fail(diag("unterminated interpolation expression"@, span_of(s, istart, istart + 1)))
    } else if s[q] == '"' {
        match skip_quoted(s, e, istart, q + 1) {
            Step::Done(q2) => {
                proof {
                    lemma_skip_quoted(s, e, istart, q + 1);
                }
                interp_end(s, e, istart, q2, depth)
            },
            Step::Fail(d) => Step::Fail(d),
        }
    } else if s[q] == '/' && next_is(s, e, q, '/') {
        proof {
            lemma_line_comment_end(s, e, q + 2);
        }
        interp_end(s, e, istart, line_comment_end(s, e, q + 2), depth)
    } else if s[q] == '/' && next_is(s, e, q, '*') {
        match block_comment_end(s, e, q + 2) {
            Some(q2) => {
                proof {
                    lemma_block_comment_end(s, e, q + 2);
                }
                interp_end(s, e, istart, q2, depth)
            },
            None => Step::Fail(diag("unterminated block comment"@, span_of(s, q, q + 2))),
        }
    } else if s[q] == '{' {
        interp_end(s, e, istart, q + 1, depth + 1)
    } else if s[q] == '}' {
        if depth <= 1 {
            Step::Done(q)
        } else {
            interp_end(s, e, istart, q + 1, (depth - 1) as nat)
        }
    } else {
        interp_end(s, e, istart, q + 1, depth)
    }
}

pub proof fn lemma_line_comment_end(s: Seq<char>, e: int, q: int)
    requires
        q <= e,
    ensures
        q <= line_comment_end(s, e, q) <= e,
    decreases e - q,
{
    if q < e && s[q] != '\n' {
        lemma_line_comment_end(s, e, q + 1);
    }
}

pub proof fn lemma_block_comment_end(s: Seq<char>, e: int, q: int)
    requires
        q <= e,
    ensures
        block_comment_end(s, e, q) matches Some(r) ==> q + 2 <= r <= e,
    decreases e - q,
{
    if q < e && !(s[q] == '*' && next_is(s, e, q, '/')) {
        lemma_block_comment_end(s, e, q + 1);
    }
}

pub proof fn lemma_digits_end(s: Seq<char>, e: int, q: int)
    requires
        q <= e,
    ensures
        q <= digits_end(s, e, q) <= e,
    decreases e - q,
{
    if q < e && is_digit(s[q]) {
        lemma_digits_end(s, e, q + 1);
    }
}

pub proof fn lemma_ident_end(s: Seq<char>, e: int, q: int)
    requires
        q <= e,
    ensures
        q <= ident_end(s, e, q) <= e,
    decreases e - q,
{
    if q < e && is_ident_continue(s[q]) {
        lemma_ident_end(s, e, q + 1);
    }
}

pub proof fn lemma_skip_quoted(s: Seq<char>, e: int, istart: int, q: int)
    requires
        q <= e,
    ensures
        skip_quoted(s, e, istart, q) matches Step::Done(r) ==> q < r <= e,
    decreases e - q,
{
    if q < e && s[q] != '"' {
        if s[q] == '\\' {
            if q + 1 < e {
                lemma_skip_quoted(s, e, istart, q + 2);
            }
        } else {
            lemma_skip_quoted(s, e, istart, q + 1);
        }
    }
}

pub proof fn lemma_interp_end(s: Seq<char>, e: int, istart: int, q: int, depth: nat)
    requires
        q <= e,
    ensures
        interp_end(s, e, istart, q, depth) matches Step::Done(r) ==> q <= r < e,
    decreases e - q,
{
    if q < e {
        if s[q] == '"' {
            lemma_skip_quoted(s, e, istart, q + 1);
            if let Step::Done(q2) = skip_quoted(s, e, istart, q + 1) {
                lemma_interp_end(s, e, istart, q2, depth);
            }
        } else if s[q] == '/' && next_is(s, e, q, '/') {
            lemma_line_comment_end(s, e, q + 2);
            lemma_interp_end(s, e, istart, line_comment_end(s, e, q + 2), depth);
        } else if s[q] == '/' && next_is(s, e, q, '*') {
            lemma_block_comment_end(s, e, q + 2);
            if let Some(q2) = block_comment_end(s, e, q + 2) {
                lemma_interp_end(s, e, istart, q2, depth);
            }
        } else if s[q] == '{' {
            lemma_interp_end(s, e, istart, q + 1, depth + 1);
        } else if s[q] == '}' {
            if depth > 1 {
                lemma_interp_end(s, e, istart, q + 1, (depth - 1) as nat);
            }
        } else {
            lemma_interp_end(s, e, istart, q + 1, depth);
        }
    }
}

/// Appends the pending literal text to the parts, when there is any.
pub open spec fn push_literal(parts: Seq<PartV>, lit: Seq<char>) -> Seq<PartV> {
    if lit.len() == 0 {
        parts
    } else {
        parts.push(PartV::Literal(lit))
    }
}

/// Tokens of the window `p..e`, ending with an end-of-input token.
pub open spec fn lex_from(s: Seq<char>, e: int, p: int) -> Result<Seq<TokenV>, DiagnosticV>
    decreases e - p, 2int,
{
    if p >= e {
        Ok(seq![tok(TokenKindV::Eof, s, e, e)])
    } else {
        match scan(s, e, p) {
            Scan::Skip(q) => if p < q <= e {
                lex_from(s, e, q)
            } else {
                Ok(seq![])
            },
            Scan::Tok(t, q) => if p < q <= e {
                match lex_from(s, e, q) {
                    Ok(ts) => Ok(seq![t] + ts),
                    Err(d) => Err(d),
                }
            } else {
                Ok(seq![])
            },
            Scan::Fail(d) => Err(d),
        }
    }
}

/// The rest of an interpolated string opened at `start`, with the parts and
/// pending literal found so far and the next character at `q`.
pub open spec fn interp_lit(
    s: Seq<char>,
    e: int,
    start: int,
    q: int,
    parts: Seq<PartV>,
    lit: Seq<char>,
) -> Scan
    decreases e - q, 0int,
{
    if q >= e {
        Scan::Fail(
            diag("unterminated interpolated string literal"@, span_of(s, start, start + 2)),
        )
    } else if s[q] == '"' {
        Scan::Tok(
            tok(TokenKindV::InterpolatedString(push_literal(parts, lit)), s, start, q + 1),
            q + 1,
        )
    } else if s[q] == '\\' {
        if q + 1 >= e {
            Scan::Fail(
                diag("unterminated interpolated string literal"@, span_of(s, start, start + 2)),
            )
        } else {
            match escape(s[q + 1]) {
                Some(d) => interp_lit(s, e, start, q + 2, parts, lit.push(d)),
                None => Scan::Fail(diag(escape_message(s[q + 1]), span_of(s, q, q + 2))),
            }
        }
    } else if s[q] == '{' && next_is(s, e, q, '{') {
        interp_lit(s, e, start, q + 2, parts, lit.push('{'))
    } else if s[q] == '}' && next_is(s, e, q, '}') {
        interp_lit(s, e, start, q + 2, parts, lit.push('}'))
    } else if s[q] == '{' {
        let parts2 = push_literal(parts, lit);
        match interp_end(s, e, q, q + 1, 1) {
            Step::Fail(d) => Scan::Fail(d),
            Step::Done(b) => if b == q + 1 {
                Scan::Fail(diag("empty interpolation expression"@, span_of(s, q, b + 1)))
            } else {
                proof {
                    lemma_interp_end(s, e, q, q + 1, 1);
                }
                match lex_from(s, b, q + 1) {
                    Err(d) => Scan::Fail(d),
                    Ok(ts) => interp_lit(
                        s,
                        e,
                        start,
                        b + 1,
                        parts2.push(PartV::Expression(ts)),
                        seq![],
                    ),
                }
            },
        }
    } else if s[q] == '}' {
        Scan::Fail(diag("unmatched `}` in interpolated string"@, span_of(s, q, q + 1)))
    } else {
        interp_lit(s, e, start, q + 1, parts, lit.push(s[q]))
    }
}

/// The one- or two-character operator at `p`: `double` when the next
/// character is `second`.
pub open spec fn one_or_two(
    s: Seq<char>,
    e: int,
    p: int,
    single: TokenKindV,
    second: char,
    double: TokenKindV,
) -> Scan {
    if next_is(s, e, p, second) {
        Scan::Tok(tok(double, s, p, p + 2), p + 2)
    } else {
        Scan::Tok(tok(single, s, p, p + 1), p + 1)
    }
}

pub open spec fn single(s: Seq<char>, p: int, kind: TokenKindV) -> Scan {
    Scan::Tok(tok(kind, s, p, p + 1), p + 1)
}

/// What the lexer finds at position `p` of the window ending at `e`.
pub open spec fn scan(s: Seq<char>, e: int, p: int) -> Scan
    decreases e - p, 1int,
{
    let c = s[p];
    if unicode_whitespace(c) {
        Scan::Skip(p + 1)
    } else if c == '/' && next_is(s, e, p, '/') {
        Scan::Skip(line_comment_end(s, e, p + 2))
    } else if c == '/' && next_is(s, e, p, '*') {
        match block_comment_end(s, e, p + 2) {
            Some(q) => Scan::Skip(q),
            None => Scan::Fail(diag("unterminated block comment"@, span_of(s, p, p + 2))),
        }
    } else if c == '"' {
        string_lit(s, e, p, p + 1, seq![])
    } else if c == 'f' && next_is(s, e, p, '"') {
        interp_lit(s, e, p, p + 2, seq![], seq![])
    } else if is_digit(c) {
        let q = number_end(s, e, p);
        Scan::Tok(tok(TokenKindV::Number(s.subrange(p, q)), s, p, q), q)
    } else if is_ident_start(c) {
        let q = ident_end(s, e, p + 1);
        Scan::Tok(tok(TokenKindV::Identifier(s.subrange(p, q)), s, p, q), q)
    } else if c == '.' {
        single(s, p, TokenKindV::Dot)
    } else if c == '@' {
        single(s, p, TokenKindV::At)
    } else if c == '+' {
        one_or_two(s, e, p, TokenKindV::Plus, '=', TokenKindV::PlusEqual)
    } else if c == '-' {
        one_or_two(s, e, p, TokenKindV::Minus, '=', TokenKindV::MinusEqual)
    } else if c == '*' {
        single(s, p, TokenKindV::Star)
    } else if c == '%' {
        single(s, p, TokenKindV::Percent)
    } else if c == '/' {
        single(s, p, TokenKindV::Slash)
    } else if c == '(' {
        single(s, p, TokenKindV::LeftParen)
    } else if c == ')' {
        single(s, p, TokenKindV::RightParen)
    } else if c == '{' {
        single(s, p, TokenKindV::LeftBrace)
    } else if c == '}' {
        single(s, p, TokenKindV::RightBrace)
    } else if c == '[' {
        single(s, p, TokenKindV::LeftBracket)
    } else if c == ']' {
        single(s, p, TokenKindV::RightBracket)
    } else if c == ',' {
        single(s, p, TokenKindV::Comma)
    } else if c == ':' {
        single(s, p, TokenKindV::Colon)
    } else if c == '!' {
        one_or_two(s, e, p, TokenKindV::Bang, '=', TokenKindV::BangEqual)
    } else if c == '&' && next_is(s, e, p, '&') {
        Scan::Tok(tok(TokenKindV::AmpAmp, s, p, p + 2), p + 2)
    } else if c == '|' && next_is(s, e, p, '|') {
        Scan::Tok(tok(TokenKindV::PipePipe, s, p, p + 2), p + 2)
    } else if c == '<' {
        one_or_two(s, e, p, TokenKindV::Less, '=', TokenKindV::LessEqual)
    } else if c == '>' {
        one_or_two(s, e, p, TokenKindV::Greater, '=', TokenKindV::GreaterEqual)
    } else if c == '=' {
        if next_is(s, e, p, '=') {
            Scan::Tok(tok(TokenKindV::EqualEqual, s, p, p + 2), p + 2)
        } else if next_is(s, e, p, '>') {
            Scan::Tok(tok(TokenKindV::FatArrow, s, p, p + 2), p + 2)
        } else {
            single(s, p, TokenKindV::Equal)
        }
    } else {
        Scan::Fail(diag(unexpected_message(c), span_of(s, p, p + 1)))
    }
}

/// The tokens of `source`, or the diagnostic of the first lexical error.
pub open spec fn spec_lex(source: Seq<char>) -> Result<Seq<TokenV>, DiagnosticV> {
    lex_from(source, source.len() as int, 0)
}


/// Result of scanning one position.
pub enum ScanOut {
    Skip(usize),
    Tok(Token, usize),
    Fail(Diagnostic),
}

pub open spec fn scan_view(o: ScanOut) -> Scan {
    match o {
        ScanOut::Skip(q) => Scan::Skip(q as int),
        ScanOut::Tok(t, q) => Scan::Tok(token_view(t), q as int),
        ScanOut::Fail(d) => Scan::Fail(d@),
    }
}

pub open spec fn step_view(r: Result<usize, Diagnostic>) -> Step {
    match r {
        Ok(q) => Step::Done(q as int),
        Err(d) => Step::Fail(d@),
    }
}

/// The characters being lexed, their byte offsets and the window end.
pub open spec fn lexable(chars: Seq<char>, offs: Seq<usize>, e: int) -> bool {
    &&& offsets_ok(chars, offs)
    &&& 0 <= e <= chars.len()
}

fn mk_span(chars: &Vec<char>, offs: &Vec<usize>, a: usize, b: usize) -> (r: Span)
    requires
        offsets_ok(chars@, offs@),
        a <= chars@.len(),
        b <= chars@.len(),
    ensures
        r == span_of(chars@, a as int, b as int),
{
    Span::new(offs[a], offs[b])
}

fn mk_token(chars: &Vec<char>, offs: &Vec<usize>, kind: TokenKind, a: usize, b: usize) -> (r: Token)
    requires
        offsets_ok(chars@, offs@),
        a <= chars@.len(),
        b <= chars@.len(),
    ensures
        token_view(r) == tok(kind_view(kind), chars@, a as int, b as int),
{
    Token::new(kind, mk_span(chars, offs, a, b))
}

fn fail(chars: &Vec<char>, offs: &Vec<usize>, message: &str, a: usize, b: usize) -> (r: Diagnostic)
    requires
        offsets_ok(chars@, offs@),
        a <= chars@.len(),
        b <= chars@.len(),
    ensures
        r@ == diag(message@, span_of(chars@, a as int, b as int)),
{
    Diagnostic::new(message, mk_span(chars, offs, a, b))
}

fn next_is_exec(chars: &Vec<char>, e: usize, p: usize, c: char) -> (r: bool)
    requires
        e <= chars@.len(),
    ensures
        r == next_is(chars@, e as int, p as int, c),
{
    p < e && p + 1 < e && chars[p + 1] == c
}

fn line_comment_end_exec(chars: &Vec<char>, e: usize, q: usize) -> (r: usize)
    requires
        e <= chars@.len(),
        q <= e,
    ensures
        r == line_comment_end(chars@, e as int, q as int),
{
    let mut i = q;
    while i < e && chars[i] != '\n'
        invariant
            q <= i <= e <= chars@.len(),
            line_comment_end(chars@, e as int, q as int) == line_comment_end(chars@, e as int, i as int),
        decreases e - i,
    {
        i = i + 1;
    }
    i
}

fn block_comment_end_exec(chars: &Vec<char>, e: usize, q: usize) -> (r: Option<usize>)
    requires
        e <= chars@.len(),
        q <= e,
    ensures
        r matches Some(x) ==> block_comment_end(chars@, e as int, q as int) == Some(x as int),
        r is None ==> block_comment_end(chars@, e as int, q as int) is None,
{
    let mut i = q;
    while i < e
        invariant
            q <= i <= e <= chars@.len(),
            block_comment_end(chars@, e as int, q as int) == block_comment_end(chars@, e as int, i as int),
        decreases e - i,
    {
        if chars[i] == '*' && next_is_exec(chars, e, i, '/') {
            return Some(i + 2);
        }
        i = i + 1;
    }
    None
}

fn digits_end_exec(chars: &Vec<char>, e: usize, q: usize) -> (r: usize)
    requires
        e <= chars@.len(),
        q <= e,
    ensures
        r == digits_end(chars@, e as int, q as int),
{
    let mut i = q;
    while i < e && char_is_digit(chars[i])
        invariant
            q <= i <= e <= chars@.len(),
            digits_end(chars@, e as int, q as int) == digits_end(chars@, e as int, i as int),
        decreases e - i,
    {
        i = i + 1;
    }
    i
}

fn ident_end_exec(chars: &Vec<char>, e: usize, q: usize) -> (r: usize)
    requires
        e <= chars@.len(),
        q <= e,
    ensures
        r == ident_end(chars@, e as int, q as int),
{
    let mut i = q;
    while i < e && (chars[i] == '_' || char_is_alphanumeric(chars[i]))
        invariant
            q <= i <= e <= chars@.len(),
            ident_end(chars@, e as int, q as int) == ident_end(chars@, e as int, i as int),
        decreases e - i,
    {
        i = i + 1;
    }
    i
}

fn escape_exec(c: char) -> (r: Option<char>)
    ensures
        r == escape(c),
{
    if c == '"' {
        Some('"')
    } else if c == '\\' {
        Some('\\')
    } else if c == 'n' {
        Some('\n')
    } else if c == 'r' {
        Some('\r')
    } else if c == 't' {
        Some('\t')
    } else {
        None
    }
}

fn escape_message_exec(c: char) -> (r: String)
    ensures
        r@ == escape_message(c),
{
    let mut m = "unsupported string escape `\\".to_owned();
    string_push(&mut m, c);
    string_push_str(&mut m, "`");
    proof {
        assert(m@ =~= escape_message(c));
    }
    m
}

fn unexpected_message_exec(c: char) -> (r: String)
    ensures
        r@ == unexpected_message(c),
{
    let mut m = "unexpected character `".to_owned();
    string_push(&mut m, c);
    string_push_str(&mut m, "`");
    proof {
        assert(m@ =~= unexpected_message(c));
    }
    m
}

fn skip_quoted_exec(chars: &Vec<char>, offs: &Vec<usize>, e: usize, istart: usize, q: usize) -> (r: Result<usize, Diagnostic>)
    requires
        lexable(chars@, offs@, e as int),
        istart < e,
        q <= e,
    ensures
        step_view(r) == skip_quoted(chars@, e as int, istart as int, q as int),
{
    let mut i = q;
    while i < e
        invariant
            lexable(chars@, offs@, e as int),
            istart < e,
            q <= i <= e,
            skip_quoted(chars@, e as int, istart as int, q as int) == skip_quoted(chars@, e as int, istart as int, i as int),
        decreases e - i,
    {
        if chars[i] == '"' {
            return Ok(i + 1);
        } else if chars[i] == '\\' {
            if i + 1 >= e {
                return Err(fail(chars, offs, "unterminated interpolation expression", istart, istart + 1));
            }
            i = i + 2;
        } else {
            i = i + 1;
        }
    }
    Err(fail(chars, offs, "unterminated interpolation expression", istart, istart + 1))
}

fn interp_end_exec(chars: &Vec<char>, offs: &Vec<usize>, e: usize, istart: usize) -> (r: Result<usize, Diagnostic>)
    requires
        lexable(chars@, offs@, e as int),
        istart < e,
    ensures
        step_view(r) == interp_end(chars@, e as int, istart as int, istart + 1, 1),
{
    let mut i = istart + 1;
    let mut depth: usize = 1;
    while i < e
        invariant
            lexable(chars@, offs@, e as int),
            istart < e,
            istart + 1 <= i <= e,
            1 <= depth <= i,
            interp_end(chars@, e as int, istart as int, istart + 1, 1) == interp_end(chars@, e as int, istart as int, i as int, depth as nat),
        decreases e - i,
    {
        let c = chars[i];
        if c == '"' {
            let r = skip_quoted_exec(chars, offs, e, istart, i + 1);
            proof {
                lemma_skip_quoted(chars@, e as int, istart as int, i + 1);
            }
            match r {
                Ok(q2) => {
                    i = q2;
                },
                Err(d) => {
                    return Err(d);
                },
            }
        } else if c == '/' && next_is_exec(chars, e, i, '/') {
            proof {
                lemma_line_comment_end(chars@, e as int, i + 2);
            }
            i = line_comment_end_exec(chars, e, i + 2);
        } else if c == '/' && next_is_exec(chars, e, i, '*') {
            proof {
                lemma_block_comment_end(chars@, e as int, i + 2);
            }
            match block_comment_end_exec(chars, e, i + 2) {
                Some(q2) => {
                    i = q2;
                },
                None => {
                    return Err(fail(chars, offs, "unterminated block comment", i, i + 2));
                },
            }
        } else if c == '{' {
            depth = depth + 1;
            i = i + 1;
        } else if c == '}' {
            if depth <= 1 {
                return Ok(i);
            }
            depth = depth - 1;
            i = i + 1;
        } else {
            i = i + 1;
        }
    }
    Err(fail(chars, offs, "unterminated interpolation expression", istart, istart + 1))
}

fn lex_string_exec(chars: &Vec<char>, offs: &Vec<usize>, e: usize, start: usize) -> (r: ScanOut)
    requires
        lexable(chars@, offs@, e as int),
        start < e,
    ensures
        scan_view(r) == string_lit(chars@, e as int, start as int, start + 1, seq![]),
{
    let mut i = start + 1;
    let mut val = String::new();
    while i < e
        invariant
            lexable(chars@, offs@, e as int),
            start < e,
            start + 1 <= i <= e,
            string_lit(chars@, e as int, start as int, start + 1, seq![]) == string_lit(chars@, e as int, start as int, i as int, val@),
        decreases e - i,
    {
        let c = chars[i];
        if c == '"' {
            return ScanOut::Tok(mk_token(chars, offs, TokenKind::String(val), start, i + 1), i + 1);
        } else if c == '\\' {
            if i + 1 >= e {
                return ScanOut::Fail(fail(chars, offs, "unterminated string literal", start, start + 1));
            }
            match escape_exec(chars[i + 1]) {
                Some(d) => {
                    string_push(&mut val, d);
                    i = i + 2;
                },
                None => {
                    let m = escape_message_exec(chars[i + 1]);
                    return ScanOut::Fail(Diagnostic::from_message(m, mk_span(chars, offs, i, i + 2)));
                },
            }
        } else {
            string_push(&mut val, c);
            i = i + 1;
        }
    }
    ScanOut::Fail(fail(chars, offs, "unterminated string literal", start, start + 1))
}

/// Appends the pending literal to the parts, when there is any.
fn push_literal_exec(parts: &mut Vec<InterpolatedTokenPart>, literal: &mut String)
    ensures
        parts_view(final(parts)@) == push_literal(parts_view(old(parts)@), old(literal)@),
        final(literal)@ == Seq::<char>::empty(),
{
    if !literal.as_str().is_empty() {
        let mut taken = String::new();
        std::mem::swap(&mut taken, literal);
        proof {
            lemma_parts_view_push(parts@, InterpolatedTokenPart::Literal(taken));
        }
        parts.push(InterpolatedTokenPart::Literal(taken));
    }
}


fn lex_interp_exec(chars: &Vec<char>, offs: &Vec<usize>, e: usize, start: usize) -> (r: ScanOut)
    requires
        lexable(chars@, offs@, e as int),
        start + 2 <= e,
    ensures
        scan_view(r) == interp_lit(chars@, e as int, start as int, start + 2, seq![], seq![]),
    decreases e - start, 0int,
{
    let mut i = start + 2;
    let mut parts: Vec<InterpolatedTokenPart> = Vec::new();
    let mut literal = String::new();
    while i < e
        invariant
            lexable(chars@, offs@, e as int),
            start + 2 <= i <= e,
            interp_lit(chars@, e as int, start as int, start + 2, seq![], seq![]) == interp_lit(
                chars@,
                e as int,
                start as int,
                i as int,
                parts_view(parts@),
                literal@,
            ),
        decreases e - i,
    {
        let c = chars[i];
        if c == '"' {
            push_literal_exec(&mut parts, &mut literal);
            return ScanOut::Tok(
                mk_token(chars, offs, TokenKind::InterpolatedString(parts), start, i + 1),
                i + 1,
            );
        } else if c == '\\' {
            if i + 1 >= e {
                return ScanOut::Fail(
                    fail(chars, offs, "unterminated interpolated string literal", start, start + 2),
                );
            }
            match escape_exec(chars[i + 1]) {
                Some(d) => {
                    string_push(&mut literal, d);
                    i = i + 2;
                },
                None => {
                    let m = escape_message_exec(chars[i + 1]);
                    return ScanOut::Fail(Diagnostic::from_message(m, mk_span(chars, offs, i, i + 2)));
                },
            }
        } else if c == '{' && next_is_exec(chars, e, i, '{') {
            string_push(&mut literal, '{');
            i = i + 2;
        } else if c == '}' && next_is_exec(chars, e, i, '}') {
            string_push(&mut literal, '}');
            i = i + 2;
        } else if c == '{' {
            let ghost old_parts = parts_view(parts@);
            let ghost old_lit = literal@;
            push_literal_exec(&mut parts, &mut literal);
            proof {
                lemma_interp_end(chars@, e as int, i as int, i + 1, 1);
            }
            match interp_end_exec(chars, offs, e, i) {
                Err(d) => {
                    return ScanOut::Fail(d);
                },
                Ok(b) => {
                    if b == i + 1 {
                        return ScanOut::Fail(
                            fail(chars, offs, "empty interpolation expression", i, b + 1),
                        );
                    }
                    match lex_window(chars, offs, i + 1, b) {
                        Err(d) => {
                            return ScanOut::Fail(d);
                        },
                        Ok(ts) => {
                            proof {
                                lemma_parts_view_push(parts@, InterpolatedTokenPart::Expression(ts));
                            }
                            parts.push(InterpolatedTokenPart::Expression(ts));
                            i = b + 1;
                        },
                    }
                },
            }
        } else if c == '}' {
            return ScanOut::Fail(
                fail(chars, offs, "unmatched `}` in interpolated string", i, i + 1),
            );
        } else {
            string_push(&mut literal, c);
            i = i + 1;
        }
    }
    ScanOut::Fail(fail(chars, offs, "unterminated interpolated string literal", start, start + 2))
}

fn one_or_two_exec(
    chars: &Vec<char>,
    offs: &Vec<usize>,
    e: usize,
    p: usize,
    single: TokenKind,
    second: char,
    double: TokenKind,
) -> (r: ScanOut)
    requires
        lexable(chars@, offs@, e as int),
        p < e,
    ensures
        scan_view(r) == one_or_two(chars@, e as int, p as int, kind_view(single), second, kind_view(double)),
{
    if next_is_exec(chars, e, p, second) {
        ScanOut::Tok(mk_token(chars, offs, double, p, p + 2), p + 2)
    } else {
        ScanOut::Tok(mk_token(chars, offs, single, p, p + 1), p + 1)
    }
}

fn single_exec(chars: &Vec<char>, offs: &Vec<usize>, e: usize, p: usize, kind: TokenKind) -> (r: ScanOut)
    requires
        lexable(chars@, offs@, e as int),
        p < e,
    ensures
        scan_view(r) == single(chars@, p as int, kind_view(kind)),
{
    ScanOut::Tok(mk_token(chars, offs, kind, p, p + 1), p + 1)
}

fn scan_exec(chars: &Vec<char>, offs: &Vec<usize>, e: usize, p: usize) -> (r: ScanOut)
    requires
        lexable(chars@, offs@, e as int),
        p < e,
    ensures
        scan_view(r) == scan(chars@, e as int, p as int),
    decreases e - p, 1int,
{
    let c = chars[p];
    if char_is_whitespace(c) {
        ScanOut::Skip(p + 1)
    } else if c == '/' && next_is_exec(chars, e, p, '/') {
        ScanOut::Skip(line_comment_end_exec(chars, e, p + 2))
    } else if c == '/' && next_is_exec(chars, e, p, '*') {
        match block_comment_end_exec(chars, e, p + 2) {
            Some(q) => ScanOut::Skip(q),
            None => ScanOut::Fail(fail(chars, offs, "unterminated block comment", p, p + 2)),
        }
    } else if c == '"' {
        lex_string_exec(chars, offs, e, p)
    } else if c == 'f' && next_is_exec(chars, e, p, '"') {
        lex_interp_exec(chars, offs, e, p)
    } else if char_is_digit(c) {
        let q1 = digits_end_exec(chars, e, p);
        proof {
            lemma_digits_end(chars@, e as int, p as int);
        }
        let q = if q1 < e && chars[q1] == '.' && q1 + 1 < e && char_is_digit(chars[q1 + 1]) {
            proof {
                lemma_digits_end(chars@, e as int, q1 + 1);
            }
            digits_end_exec(chars, e, q1 + 1)
        } else {
            q1
        };
        let text = string_from_range(chars, p, q);
        ScanOut::Tok(mk_token(chars, offs, TokenKind::Number(text), p, q), q)
    } else if c == '_' || char_is_alphabetic(c) {
        proof {
            lemma_ident_end(chars@, e as int, p + 1);
        }
        let q = ident_end_exec(chars, e, p + 1);
        let text = string_from_range(chars, p, q);
        ScanOut::Tok(mk_token(chars, offs, TokenKind::Identifier(text), p, q), q)
    } else if c == '.' {
        single_exec(chars, offs, e, p, TokenKind::Dot)
    } else if c == '@' {
        single_exec(chars, offs, e, p, TokenKind::At)
    } else if c == '+' {
        one_or_two_exec(chars, offs, e, p, TokenKind::Plus, '=', TokenKind::PlusEqual)
    } else if c == '-' {
        one_or_two_exec(chars, offs, e, p, TokenKind::Minus, '=', TokenKind::MinusEqual)
    } else if c == '*' {
        single_exec(chars, offs, e, p, TokenKind::Star)
    } else if c == '%' {
        single_exec(chars, offs, e, p, TokenKind::Percent)
    } else if c == '/' {
        single_exec(chars, offs, e, p, TokenKind::Slash)
    } else if c == '(' {
        single_exec(chars, offs, e, p, TokenKind::LeftParen)
    } else if c == ')' {
        single_exec(chars, offs, e, p, TokenKind::RightParen)
    } else if c == '{' {
        single_exec(chars, offs, e, p, TokenKind::LeftBrace)
    } else if c == '}' {
        single_exec(chars, offs, e, p, TokenKind::RightBrace)
    } else if c == '[' {
        single_exec(chars, offs, e, p, TokenKind::LeftBracket)
    } else if c == ']' {
        single_exec(chars, offs, e, p, TokenKind::RightBracket)
    } else if c == ',' {
        single_exec(chars, offs, e, p, TokenKind::Comma)
    } else if c == ':' {
        single_exec(chars, offs, e, p, TokenKind::Colon)
    } else if c == '!' {
        one_or_two_exec(chars, offs, e, p, TokenKind::Bang, '=', TokenKind::BangEqual)
    } else if c == '&' && next_is_exec(chars, e, p, '&') {
        ScanOut::Tok(mk_token(chars, offs, TokenKind::AmpAmp, p, p + 2), p + 2)
    } else if c == '|' && next_is_exec(chars, e, p, '|') {
        ScanOut::Tok(mk_token(chars, offs, TokenKind::PipePipe, p, p + 2), p + 2)
    } else if c == '<' {
        one_or_two_exec(chars, offs, e, p, TokenKind::Less, '=', TokenKind::LessEqual)
    } else if c == '>' {
        one_or_two_exec(chars, offs, e, p, TokenKind::Greater, '=', TokenKind::GreaterEqual)
    } else if c == '=' {
        if next_is_exec(chars, e, p, '=') {
            ScanOut::Tok(mk_token(chars, offs, TokenKind::EqualEqual, p, p + 2), p + 2)
        } else if next_is_exec(chars, e, p, '>') {
            ScanOut::Tok(mk_token(chars, offs, TokenKind::FatArrow, p, p + 2), p + 2)
        } else {
            single_exec(chars, offs, e, p, TokenKind::Equal)
        }
    } else {
        let m = unexpected_message_exec(c);
        ScanOut::Fail(Diagnostic::from_message(m, mk_span(chars, offs, p, p + 1)))
    }
}

/// What a scan makes of the rest of the input: `acc` followed by the
/// tokens found from there.
pub open spec fn after(acc: Seq<TokenV>, rest: Result<Seq<TokenV>, DiagnosticV>) -> Result<Seq<TokenV>, DiagnosticV> {
    match rest {
        Ok(ts) => Ok(acc + ts),
        Err(d) => Err(d),
    }
}

proof fn lemma_scan_progress(s: Seq<char>, e: int, p: int)
    requires
        0 <= p < e <= s.len(),
    ensures
        scan(s, e, p) matches Scan::Skip(q) ==> p < q <= e,
        scan(s, e, p) matches Scan::Tok(_, q) ==> p < q <= e,
{
    if p + 2 <= e {
        lemma_line_comment_end(s, e, p + 2);
        lemma_block_comment_end(s, e, p + 2);
    }
    lemma_digits_end(s, e, p);
    if digits_end(s, e, p) + 1 <= e {
        lemma_digits_end(s, e, digits_end(s, e, p) + 1);
    }
    lemma_ident_end(s, e, p + 1);
    lemma_string_lit_progress(s, e, p, p + 1, seq![]);
    if s[p] == 'f' && next_is(s, e, p, '"') {
        lemma_interp_lit_progress(s, e, p, p + 2, seq![], seq![]);
    }
}

proof fn lemma_string_lit_progress(s: Seq<char>, e: int, start: int, q: int, val: Seq<char>)
    requires
        start < q <= e,
    ensures
        string_lit(s, e, start, q, val) matches Scan::Tok(_, r) ==> q < r <= e,
        string_lit(s, e, start, q, val) is Skip ==> false,
    decreases e - q,
{
    if q < e && s[q] != '"' {
        if s[q] == '\\' {
            if q + 1 < e {
                if let Some(d) = escape(s[q + 1]) {
                    lemma_string_lit_progress(s, e, start, q + 2, val.push(d));
                }
            }
        } else {
            lemma_string_lit_progress(s, e, start, q + 1, val.push(s[q]));
        }
    }
}

proof fn lemma_interp_lit_progress(s: Seq<char>, e: int, start: int, q: int, parts: Seq<PartV>, lit: Seq<char>)
    requires
        start < q <= e,
    ensures
        interp_lit(s, e, start, q, parts, lit) matches Scan::Tok(_, r) ==> q < r <= e,
        interp_lit(s, e, start, q, parts, lit) is Skip ==> false,
    decreases e - q,
{
    if q < e && s[q] != '"' {
        if s[q] == '\\' {
            if q + 1 < e {
                if let Some(d) = escape(s[q + 1]) {
                    lemma_interp_lit_progress(s, e, start, q + 2, parts, lit.push(d));
                }
            }
        } else if s[q] == '{' && next_is(s, e, q, '{') {
            lemma_interp_lit_progress(s, e, start, q + 2, parts, lit.push('{'));
        } else if s[q] == '}' && next_is(s, e, q, '}') {
            lemma_interp_lit_progress(s, e, start, q + 2, parts, lit.push('}'));
        } else if s[q] == '{' {
            lemma_interp_end(s, e, q, q + 1, 1);
            if let Step::Done(b) = interp_end(s, e, q, q + 1, 1) {
                if b != q + 1 {
                    if let Ok(ts) = lex_from(s, b, q + 1) {
                        lemma_interp_lit_progress(
                            s,
                            e,
                            start,
                            b + 1,
                            push_literal(parts, lit).push(PartV::Expression(ts)),
                            seq![],
                        );
                    }
                }
            }
        } else if s[q] != '}' {
            lemma_interp_lit_progress(s, e, start, q + 1, parts, lit.push(s[q]));
        }
    }
}

/// Lexes the window `p0..e` of `chars`.
fn lex_window(chars: &Vec<char>, offs: &Vec<usize>, p0: usize, e: usize) -> (r: Result<Vec<Token>, Diagnostic>)
    requires
        lexable(chars@, offs@, e as int),
        p0 <= e,
    ensures
        match r {
            Ok(ts) => lex_from(chars@, e as int, p0 as int) == Ok::<Seq<TokenV>, DiagnosticV>(tokens_view(ts@)),
            Err(d) => lex_from(chars@, e as int, p0 as int) == Err::<Seq<TokenV>, DiagnosticV>(d@),
        },
    decreases e - p0, 2int,
{
    let mut toks: Vec<Token> = Vec::new();
    let mut p = p0;
    while p < e
        invariant
            lexable(chars@, offs@, e as int),
            p0 <= p <= e,
            lex_from(chars@, e as int, p0 as int) == after(tokens_view(toks@), lex_from(chars@, e as int, p as int)),
        decreases e - p,
    {
        proof {
            lemma_scan_progress(chars@, e as int, p as int);
        }
        match scan_exec(chars, offs, e, p) {
            ScanOut::Skip(q) => {
                p = q;
            },
            ScanOut::Tok(t, q) => {
                proof {
                    lemma_tokens_view_push(toks@, t);
                    let ghost rest = lex_from(chars@, e as int, q as int);
                    if let Ok(ts) = rest {
                        assert(tokens_view(toks@) + (seq![token_view(t)] + ts) =~= tokens_view(toks@).push(token_view(t)) + ts);
                    }
                }
                toks.push(t);
                p = q;
            },
            ScanOut::Fail(d) => {
                return Err(d);
            },
        }
    }
    let eof = mk_token(chars, offs, TokenKind::Eof, e, e);
    proof {
        lemma_tokens_view_push(toks@, eof);
        assert(tokens_view(toks@) + seq![token_view(eof)] =~= tokens_view(toks@).push(token_view(eof)));
    }
    toks.push(eof);
    Ok(toks)
}

/// Converts extractor source into source-spanned tokens, ending with an
/// end-of-input token.
pub fn lex(source: &str) -> (r: Result<Vec<Token>, CompileError>)
    ensures
        match r {
            Ok(ts) => spec_lex(source@) == Ok::<Seq<TokenV>, DiagnosticV>(tokens_view(ts@)),
            Err(err) => spec_lex(source@) == Err::<Seq<TokenV>, DiagnosticV>(err@[0]) && err@.len() == 1,
        },
{
    let chars = chars_of(source);
    let total = str_byte_len(source);
    let offs = char_offsets(&chars, total);
    match lex_window(&chars, &offs, 0, chars.len()) {
        Ok(ts) => Ok(ts),
        Err(d) => Err(CompileError::new(d)),
    }
}

} // verus!
