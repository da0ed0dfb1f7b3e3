use vstd::prelude::*;
use crate::text::{byte_offset, byte_len, char_len_utf8, chars_of, lemma_byte_offset_mono, lemma_byte_offset_step, lemma_char_width_encode, str_byte_len};

verus! {

/// A half-open byte range into retained extractor source.
#[derive(Clone, Copy, Debug, PartialEq, Eq, Hash)]
pub struct Span {
    pub start: usize,
    pub end: usize,
}

/// The default span is the empty one at the start of the source.
impl Default for Span {
    fn default() -> (span: Self)
        ensures
            span.start == 0,
            span.end == 0,
    {
        Span { start: 0, end: 0 }
    }
}

impl Span {
    pub fn new(start: usize, end: usize) -> (span: Self)
        ensures
            span.start == start,
            span.end == end,
    {
        Span { start, end }
    }

    pub fn start(self) -> (r: usize)
        ensures
            r == self.start,
    {
        self.start
    }

    pub fn end(self) -> (r: usize)
        ensures
            r == self.end,
    {
        self.end
    }
}

/// A one-based source position suitable for user-facing diagnostics.
#[derive(Clone, Copy, Debug, PartialEq, Eq)]
pub struct SourceLocation {
    pub line: usize,
    pub column: usize,
}

impl SourceLocation {
    pub fn new(line: usize, column: usize) -> (loc: Self)
        ensures
            loc.line == line,
            loc.column == column,
    {
        SourceLocation { line, column }
    }

    pub fn line(self) -> (r: usize)
        ensures
            r == self.line,
    {
        self.line
    }

    pub fn column(self) -> (r: usize)
        ensures
            r == self.column,
    {
        self.column
    }
}

} // verus!

verus! {

/// Number of line breaks in `s`.
pub open spec fn newline_count(s: Seq<char>) -> nat
    decreases s.len(),
{
    if s.len() == 0 {
        0
    } else {
        newline_count(s.drop_last()) + if s.last() == '\n' { 1nat } else { 0nat }
    }
}

/// Number of characters after the last line break of `s`.
pub open spec fn trailing_columns(s: Seq<char>) -> nat
    decreases s.len(),
{
    if s.len() == 0 {
        0
    } else if s.last() == '\n' {
        0
    } else {
        trailing_columns(s.drop_last()) + 1
    }
}

/// Whether some character boundary of `s` lies at byte `offset`.
pub open spec fn is_boundary(s: Seq<char>, offset: int) -> bool {
    exists|k: int| 0 <= k <= s.len() && byte_offset(s, k) == offset
}

/// The character index whose byte offset is `offset`.
pub open spec fn boundary_index(s: Seq<char>, offset: int) -> int {
    choose|k: int| 0 <= k <= s.len() && byte_offset(s, k) == offset
}

/// The one-based location of the character boundary at character index `k`.
pub open spec fn location_at(s: Seq<char>, k: int) -> (nat, nat) {
    (newline_count(s.take(k)) + 1, trailing_columns(s.take(k)) + 1)
}

/// Immutable extractor source retained by compiled programs.
#[derive(Clone, Debug, PartialEq, Eq)]
pub struct SourceText {
    pub text: String,
}

impl View for SourceText {
    type V = Seq<char>;

    open spec fn view(&self) -> Seq<char> {
        self.text@
    }
}

/// A `SourceText` made from a string slice retains exactly that text.
impl<'a> From<&'a str> for SourceText {
    fn from(source: &'a str) -> (r: SourceText)
        ensures
            r@ == source@,
    {
        SourceText::new(source)
    }
}

/// Source texts are told apart by their text alone, which `from` states;
/// no single value is named for it beyond that.
impl<'a> vstd::std_specs::convert::FromSpecImpl<&'a str> for SourceText {
    open spec fn obeys_from_spec() -> bool {
        false
    }

    open spec fn from_spec(v: &'a str) -> SourceText {
        choose|t: SourceText| t@ == v@
    }
}

impl SourceText {
    pub fn new(source: &str) -> (r: Self)
        ensures
            r@ == source@,
    {
        SourceText { text: source.to_owned() }
    }

    pub fn as_str(&self) -> (r: &str)
        ensures
            r@ == self@,
    {
        self.text.as_str()
    }

    /// The source text between the two byte offsets of `span`, or `None`
    /// when the span is reversed, out of range or splits a character.
    pub fn slice(&self, span: Span) -> (r: Option<&str>)
        ensures
            r is Some <==> (span.start <= span.end && is_boundary(self@, span.start as int)
                && is_boundary(self@, span.end as int)),
            r matches Some(piece) ==> piece@ == self@.subrange(
                boundary_index(self@, span.start as int),
                boundary_index(self@, span.end as int),
            ),
    {
        if span.start > span.end {
            return None;
        }
        let s = self.text.as_str();
        let chars = chars_of(s);
        let a = char_index_of(&chars, span.start);
        let b = char_index_of(&chars, span.end);
        match (a, b) {
            (Some(i), Some(j)) => {
                let r = str_byte_range(s, span.start, span.end);
                proof {
                    lemma_boundary_unique(self@, i as int, boundary_index(self@, span.start as int));
                    lemma_boundary_unique(self@, j as int, boundary_index(self@, span.end as int));
                }
                Some(r)
            },
            _ => None,
        }
    }

    /// The one-based line and column of the character that starts at byte
    /// `offset`, or `None` when no character boundary lies there.
    pub fn location(&self, offset: usize) -> (r: Option<SourceLocation>)
        requires
            self@.len() < usize::MAX,
        ensures
            r is Some <==> is_boundary(self@, offset as int),
            r matches Some(loc) ==> (loc.line as nat, loc.column as nat) == location_at(
                self@,
                boundary_index(self@, offset as int),
            ),
    {
        let s = self.text.as_str();
        let chars = chars_of(s);
        let _total = str_byte_len(s);
        let mut i: usize = 0;
        let mut bytes: usize = 0;
        let mut line: usize = 1;
        let mut column: usize = 1;
        while i < chars.len()
            invariant
                chars@ == self@,
                byte_len(self@) <= usize::MAX,
                self@.len() < usize::MAX,
                line <= i + 1,
                column <= i + 1,
                i <= chars.len(),
                bytes == byte_offset(self@, i as int),
                (line as nat, column as nat) == location_at(self@, i as int),
                forall|k: int| 0 <= k < i ==> byte_offset(self@, k) != offset,
            decreases chars.len() - i,
        {
            if bytes == offset {
                proof {
                    lemma_boundary_unique(self@, i as int, boundary_index(self@, offset as int));
                }
                return Some(SourceLocation::new(line, column));
            }
            let c = chars[i];
            proof {
                lemma_byte_offset_step(self@, i as int);
                lemma_byte_offset_mono(self@, i as int + 1, self@.len() as int);
                assert(self@.take(self@.len() as int) =~= self@);
                assert(self@.take(i + 1).drop_last() =~= self@.take(i as int));
                lemma_newline_bound(self@.take(i + 1));
                lemma_byte_offset_mono(self@, 0, i as int + 1);
            }
            bytes = bytes + char_len_utf8(c);
            if c == '\n' {
                line = line + 1;
                column = 1;
            } else {
                column = column + 1;
            }
            i = i + 1;
        }
        if bytes == offset {
            proof {
                lemma_boundary_unique(self@, i as int, boundary_index(self@, offset as int));
            }
            return Some(SourceLocation::new(line, column));
        }
        proof {
            if is_boundary(self@, offset as int) {
                let k = boundary_index(self@, offset as int);
                assert(0 <= k <= self@.len() && byte_offset(self@, k) == offset);
            }
        }
        None
    }
}

/// Line and column counts never exceed the number of characters, nor the
/// number of bytes.
proof fn lemma_newline_bound(s: Seq<char>)
    ensures
        newline_count(s) <= s.len(),
        trailing_columns(s) <= s.len(),
    decreases s.len(),
{
    if s.len() > 0 {
        lemma_newline_bound(s.drop_last());
    }
}

/// At most one character index has a given byte offset.
pub proof fn lemma_boundary_unique(s: Seq<char>, i: int, j: int)
    requires
        0 <= i <= s.len(),
        0 <= j <= s.len(),
        byte_offset(s, i) == byte_offset(s, j),
    ensures
        i == j,
{
    if i < j {
        lemma_byte_offset_mono(s, i + 1, j);
        lemma_byte_offset_step(s, i);
        lemma_char_width_encode(s[i]);
    } else if j < i {
        lemma_byte_offset_mono(s, j + 1, i);
        lemma_byte_offset_step(s, j);
        lemma_char_width_encode(s[j]);
    }
}

/// The character index whose byte offset is `offset`, if any.
fn char_index_of(chars: &Vec<char>, offset: usize) -> (r: Option<usize>)
    ensures
        r is Some <==> is_boundary(chars@, offset as int),
        r matches Some(k) ==> k <= chars@.len() && byte_offset(chars@, k as int) == offset,
{
    let mut i: usize = 0;
    let mut bytes: usize = 0;
    while i <= chars.len()
        invariant
            i <= chars.len() + 1,
            i <= chars.len() ==> bytes == byte_offset(chars@, i as int),
            forall|k: int| 0 <= k < i ==> byte_offset(chars@, k) != offset,
        decreases chars.len() + 1 - i,
    {
        if bytes == offset {
            return Some(i);
        }
        if bytes > offset || i == chars.len() {
            proof {
                assert forall|k: int| i <= k <= chars@.len() implies byte_offset(chars@, k) != offset by {
                    lemma_byte_offset_mono(chars@, i as int, k);
                }
                assert forall|k: int| 0 <= k <= chars@.len() implies byte_offset(chars@, k) != offset by {
                    if k >= i {
                        lemma_byte_offset_mono(chars@, i as int, k);
                    }
                }
            }
            return None;
        }
        let c = chars[i];
        proof {
            lemma_byte_offset_step(chars@, i as int);
        }
        let w = char_len_utf8(c);
        if offset - bytes < w {
            proof {
                assert forall|k: int| 0 <= k <= chars@.len() implies byte_offset(chars@, k) != offset by {
                    if k > i {
                        lemma_byte_offset_mono(chars@, i as int + 1, k);
                    }
                }
            }
            return None;
        }
        bytes = bytes + w;
        i = i + 1;
    }
    None
}

/// `&s[start..end]` for offsets that lie on character boundaries.
#[verifier::external_body]
fn str_byte_range<'a>(s: &'a str, start: usize, end: usize) -> (r: &'a str)
    requires
        start <= end,
        is_boundary(s@, start as int),
        is_boundary(s@, end as int),
    ensures
        r@ == s@.subrange(boundary_index(s@, start as int), boundary_index(s@, end as int)),
{
    &s[start..end]
}

} // verus!
