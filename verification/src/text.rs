//! Character-level helpers shared by the lexer, the formatter and source
//! positions: UTF-8 widths, byte offsets and the std string operations that
//! the library relies on.

use vstd::prelude::*;
use vstd::utf8::{encode_utf8, encode_scalar, char_is_scalar};
use vstd::string::StringSliceAdditionalSpecFns;

verus! {

/// Number of bytes in the UTF-8 encoding of `c`.
pub open spec fn char_width(c: char) -> nat {
    if (c as u32) < 0x80 {
        1
    } else if (c as u32) < 0x800 {
        2
    } else if (c as u32) < 0x10000 {
        3
    } else {
        4
    }
}

/// Number of bytes in the UTF-8 encoding of `s`.
pub open spec fn byte_len(s: Seq<char>) -> nat
    decreases s.len(),
{
    if s.len() == 0 {
        0
    } else {
        byte_len(s.drop_last()) + char_width(s.last())
    }
}

/// Byte offset of the character at index `i` of `s`.
pub open spec fn byte_offset(s: Seq<char>, i: int) -> nat {
    byte_len(s.take(i))
}

pub proof fn lemma_char_width_encode(c: char)
    ensures
        encode_scalar(c as u32).len() == char_width(c),
        1 <= char_width(c) <= 4,
{
    char_is_scalar(c);
}

pub proof fn lemma_encode_utf8_concat(a: Seq<char>, b: Seq<char>)
    ensures
        encode_utf8(a + b) == encode_utf8(a) + encode_utf8(b),
    decreases a.len(),
{
    if a.len() == 0 {
        assert(a + b =~= b);
        assert(encode_utf8(a) =~= Seq::<u8>::empty());
        assert(encode_utf8(a) + encode_utf8(b) =~= encode_utf8(b));
    } else {
        lemma_encode_utf8_concat(a.drop_first(), b);
        assert((a + b).drop_first() =~= a.drop_first() + b);
        assert(encode_utf8(a + b) =~= encode_scalar(a[0] as u32) + encode_utf8(a.drop_first() + b));
        assert(encode_utf8(a) =~= encode_scalar(a[0] as u32) + encode_utf8(a.drop_first()));
    }
}

/// The length of the UTF-8 encoding that vstd gives a `str` agrees with
/// `byte_len`.
pub proof fn lemma_byte_len_encode(s: Seq<char>)
    ensures
        encode_utf8(s).len() == byte_len(s),
    decreases s.len(),
{
    if s.len() > 0 {
        let p = s.drop_last();
        lemma_byte_len_encode(p);
        assert(s =~= p + seq![s.last()]);
        lemma_encode_utf8_concat(p, seq![s.last()]);
        lemma_char_width_encode(s.last());
        assert(seq![s.last()].drop_first() =~= Seq::<char>::empty());
        assert(encode_utf8(seq![s.last()]) =~= encode_scalar(s.last() as u32) + encode_utf8(
            Seq::<char>::empty(),
        ));
    }
}

pub proof fn lemma_byte_len_push(s: Seq<char>, c: char)
    ensures
        byte_len(s.push(c)) == byte_len(s) + char_width(c),
{
    assert(s.push(c).drop_last() =~= s);
}

/// Byte offsets grow with the character index.
pub proof fn lemma_byte_offset_mono(s: Seq<char>, i: int, j: int)
    requires
        0 <= i <= j <= s.len(),
    ensures
        byte_offset(s, i) + (j - i) <= byte_offset(s, j),
    decreases j - i,
{
    if i < j {
        lemma_byte_offset_mono(s, i, j - 1);
        assert(s.take(j).drop_last() =~= s.take(j - 1));
        lemma_char_width_encode(s[j - 1]);
    }
}

pub proof fn lemma_byte_offset_step(s: Seq<char>, i: int)
    requires
        0 <= i < s.len(),
    ensures
        byte_offset(s, i + 1) == byte_offset(s, i) + char_width(s[i]),
{
    assert(s.take(i + 1).drop_last() =~= s.take(i));
}

/// The byte length of a `str` is the byte length of its characters.
pub fn str_byte_len(s: &str) -> (n: usize)
    ensures
        n == byte_len(s@),
{
    let bytes = s.as_bytes();
    proof {
        lemma_byte_len_encode(s@);
    }
    bytes.len()
}

/// `c.len_utf8()`.
pub fn char_len_utf8(c: char) -> (n: usize)
    ensures
        n == char_width(c),
{
    let v = c as u32;
    if v < 0x80 {
        1
    } else if v < 0x800 {
        2
    } else if v < 0x10000 {
        3
    } else {
        4
    }
}

/// The characters of `s`, in order.
pub fn chars_of(s: &str) -> (v: Vec<char>)
    ensures
        v@ == s@,
{
    let mut v: Vec<char> = Vec::new();
    for c in iter: s.chars()
        invariant
            v@ == iter.seq().take(iter.index() as int),
    {
        proof {
            assert(iter.seq().take(iter.index() as int + 1) =~= iter.seq().take(iter.index() as int).push(c));
        }
        v.push(c);
    }
    proof {
        assert(v@ =~= s@);
    }
    v
}

/// Appends `c` to `s` (`String::push`).
#[verifier::external_body]
pub fn string_push(s: &mut String, c: char)
    ensures
        final(s)@ == old(s)@.push(c),
{
    s.push(c);
}

/// Appends `t` to `s` (`String::push_str`).
#[verifier::external_body]
pub fn string_push_str(s: &mut String, t: &str)
    ensures
        final(s)@ == old(s)@ + t@,
{
    s.push_str(t);
}

/// Compares two string slices (`str == str`).
#[verifier::external_body]
pub fn str_eq(a: &str, b: &str) -> (r: bool)
    ensures
        r == (a@ == b@),
{
    a == b
}

/// The string made of characters `a..b` of `chars`.
pub fn string_from_range(chars: &Vec<char>, a: usize, b: usize) -> (r: String)
    requires
        a <= b <= chars@.len(),
    ensures
        r@ == chars@.subrange(a as int, b as int),
{
    let mut r = String::new();
    let mut i = a;
    while i < b
        invariant
            a <= i <= b <= chars@.len(),
            r@ == chars@.subrange(a as int, i as int),
        decreases b - i,
    {
        string_push(&mut r, chars[i]);
        proof {
            assert(chars@.subrange(a as int, i + 1) =~= chars@.subrange(a as int, i as int).push(chars@[i as int]));
        }
        i = i + 1;
    }
    r
}

/// Whether `c` is an ASCII decimal digit.
pub open spec fn is_digit(c: char) -> bool {
    '0' <= c <= '9'
}

pub fn char_is_digit(c: char) -> (r: bool)
    ensures
        r == is_digit(c),
{
    let v = c as u32;
    v >= 48 && v <= 57
}

/// Unicode `White_Space` property of `c`, as `char::is_whitespace` reports
/// it: tab to carriage return, space, next line, no-break space, ogham space
/// mark, the spaces from en quad to hair space, line and paragraph
/// separators, narrow no-break space, medium mathematical space and
/// ideographic space.
pub open spec fn unicode_whitespace(c: char) -> bool {
    let v = c as u32;
    (0x9 <= v && v <= 0xd) || v == 0x20 || v == 0x85 || v == 0xa0 || v == 0x1680
        || (0x2000 <= v && v <= 0x200a) || v == 0x2028 || v == 0x2029 || v == 0x202f
        || v == 0x205f || v == 0x3000
}

/// Whether `c` is an ASCII letter.
pub open spec fn ascii_letter(c: char) -> bool {
    ('a' <= c && c <= 'z') || ('A' <= c && c <= 'Z')
}

/// Unicode `Alphabetic` property of `c`, as `char::is_alphabetic` reports it.
pub uninterp spec fn unicode_alphabetic(c: char) -> bool;

/// `Alphabetic` or `Numeric` property of `c`, as `char::is_alphanumeric`
/// reports it.
pub uninterp spec fn unicode_alphanumeric(c: char) -> bool;

/// `char::is_whitespace`: whether `c` has the `White_Space` property
/// (`unicode_whitespace`).
#[verifier::external_body]
pub fn char_is_whitespace(c: char) -> (r: bool)
    ensures
        r == unicode_whitespace(c),
{
    c.is_whitespace()
}

/// `char::is_alphabetic`: its result is a function of `c` named
/// `unicode_alphabetic`; among ASCII characters exactly the letters are
/// alphabetic. The Unicode table beyond ASCII is not restated.
#[verifier::external_body]
pub fn char_is_alphabetic(c: char) -> (r: bool)
    ensures
        r == unicode_alphabetic(c),
        (c as u32) < 128 ==> (r == ascii_letter(c)),
{
    c.is_alphabetic()
}

/// `char::is_alphanumeric`: its result is a function of `c` named
/// `unicode_alphanumeric`; among ASCII characters exactly the letters and
/// digits are alphanumeric. The Unicode tables beyond ASCII are not
/// restated.
#[verifier::external_body]
pub fn char_is_alphanumeric(c: char) -> (r: bool)
    ensures
        r == unicode_alphanumeric(c),
        (c as u32) < 128 ==> (r == (ascii_letter(c) || ('0' <= c && c <= '9'))),
{
    c.is_alphanumeric()
}

/// Byte offsets of every character boundary of `chars`: entry `i` is the
/// offset of character `i`, the last entry the total length.
pub open spec fn offsets_ok(chars: Seq<char>, offs: Seq<usize>) -> bool {
    &&& offs.len() == chars.len() + 1
    &&& forall|i: int| 0 <= i <= chars.len() ==> #[trigger] offs[i] == byte_offset(chars, i)
}

pub fn char_offsets(chars: &Vec<char>, total: usize) -> (offs: Vec<usize>)
    requires
        total == byte_len(chars@),
    ensures
        offsets_ok(chars@, offs@),
{
    let mut offs: Vec<usize> = Vec::new();
    offs.push(0);
    let mut i: usize = 0;
    let mut b: usize = 0;
    proof {
        assert(chars@.take(0) =~= Seq::<char>::empty());
        assert(chars@.take(chars@.len() as int) =~= chars@);
    }
    while i < chars.len()
        invariant
            i <= chars@.len(),
            total == byte_len(chars@),
            chars@.take(chars@.len() as int) == chars@,
            b == byte_offset(chars@, i as int),
            offs@.len() == i + 1,
            forall|k: int| 0 <= k <= i ==> #[trigger] offs@[k] == byte_offset(chars@, k),
        decreases chars@.len() - i,
    {
        proof {
            lemma_byte_offset_step(chars@, i as int);
            lemma_byte_offset_mono(chars@, i as int + 1, chars@.len() as int);
        }
        b = b + char_len_utf8(chars[i]);
        offs.push(b);
        i = i + 1;
    }
    offs
}

/// The decimal digit for `d < 10`.
pub open spec fn digit_char(d: nat) -> char {
    if d == 0 {
        '0'
    } else if d == 1 {
        '1'
    } else if d == 2 {
        '2'
    } else if d == 3 {
        '3'
    } else if d == 4 {
        '4'
    } else if d == 5 {
        '5'
    } else if d == 6 {
        '6'
    } else if d == 7 {
        '7'
    } else if d == 8 {
        '8'
    } else {
        '9'
    }
}

/// The decimal notation of `n`, without leading zeros.
pub open spec fn decimal(n: nat) -> Seq<char>
    decreases n,
{
    if n < 10 {
        seq![digit_char(n)]
    } else {
        decimal(n / 10).push(digit_char(n % 10))
    }
}

fn digit_exec(d: usize) -> (c: char)
    requires
        d < 10,
    ensures
        c == digit_char(d as nat),
{
    if d == 0 {
        '0'
    } else if d == 1 {
        '1'
    } else if d == 2 {
        '2'
    } else if d == 3 {
        '3'
    } else if d == 4 {
        '4'
    } else if d == 5 {
        '5'
    } else if d == 6 {
        '6'
    } else if d == 7 {
        '7'
    } else if d == 8 {
        '8'
    } else {
        '9'
    }
}

/// Appends the decimal notation of `n` to `out`.
pub fn push_decimal(out: &mut String, n: usize)
    ensures
        final(out)@ == old(out)@ + decimal(n as nat),
    decreases n,
{
    if n < 10 {
        string_push(out, digit_exec(n));
        proof {
            assert(old(out)@.push(digit_char(n as nat)) =~= old(out)@ + seq![digit_char(n as nat)]);
        }
    } else {
        push_decimal(out, n / 10);
        string_push(out, digit_exec(n % 10));
        proof {
            assert(old(out)@ + decimal((n / 10) as nat).push(digit_char((n % 10) as nat))
                =~= (old(out)@ + decimal((n / 10) as nat)).push(digit_char((n % 10) as nat)));
        }
    }
}


/// `s` with each occurrence of the non-empty `from`, found left to right
/// without overlap, replaced by `to` (`str::replace`).
pub open spec fn replaced(s: Seq<char>, from: Seq<char>, to: Seq<char>) -> Seq<char>
    decreases s.len(),
{
    if from.len() == 0 || s.len() < from.len() {
        s
    } else if s.take(from.len() as int) == from {
        to + replaced(s.skip(from.len() as int), from, to)
    } else {
        seq![s[0]] + replaced(s.skip(1), from, to)
    }
}

/// Whether `w` occurs in `s` at `i`.
fn chars_match_at(s: &Vec<char>, i: usize, w: &Vec<char>) -> (r: bool)
    requires
        i + w@.len() <= s@.len(),
    ensures
        r == (s@.skip(i as int).take(w@.len() as int) == w@),
{
    let _n = s.len();
    let mut k: usize = 0;
    while k < w.len()
        invariant
            i + w@.len() <= s@.len(),
            s@.len() <= usize::MAX,
            k <= w@.len(),
            forall|j: int| 0 <= j < k ==> s@[i + j] == w@[j],
        decreases w@.len() - k,
    {
        if s[i + k] != w[k] {
            proof {
                assert(s@.skip(i as int).take(w@.len() as int)[k as int] != w@[k as int]);
            }
            return false;
        }
        k = k + 1;
    }
    proof {
        assert(s@.skip(i as int).take(w@.len() as int) =~= w@);
    }
    true
}

/// Replaces each occurrence of `from` in `s` by `to` (see `replaced`).
pub fn replace_all(s: &str, from: &str, to: &str) -> (r: String)
    requires
        from@.len() > 0,
    ensures
        r@ == replaced(s@, from@, to@),
{
    let cs = chars_of(s);
    let fs = chars_of(from);
    let mut out = String::new();
    let mut i: usize = 0;
    proof {
        assert(cs@.skip(0) =~= cs@);
        assert(out@ + replaced(cs@.skip(0), fs@, to@) =~= replaced(cs@, fs@, to@));
    }
    while i < cs.len()
        invariant
            cs@ == s@,
            fs@ == from@,
            fs@.len() > 0,
            i <= cs@.len(),
            out@ + replaced(cs@.skip(i as int), fs@, to@) == replaced(cs@, fs@, to@),
        decreases cs@.len() - i,
    {
        let ghost rest = cs@.skip(i as int);
        if fs.len() <= cs.len() - i && chars_match_at(&cs, i, &fs) {
            proof {
                assert(rest.skip(fs@.len() as int) =~= cs@.skip(i + fs@.len()));
                assert(out@ + to@ + replaced(cs@.skip(i + fs@.len()), fs@, to@) =~= out@ + replaced(rest, fs@, to@));
            }
            string_push_str(&mut out, to);
            i = i + fs.len();
        } else {
            proof {
                if rest.len() >= fs@.len() {
                    assert(rest.take(fs@.len() as int) != fs@);
                    assert(rest.skip(1) =~= cs@.skip(i + 1));
                    assert(out@.push(cs@[i as int]) + replaced(cs@.skip(i + 1), fs@, to@) =~= out@ + replaced(rest, fs@, to@));
                } else {
                    assert(replaced(rest, fs@, to@) == rest);
                    assert(rest.skip(1) =~= cs@.skip(i + 1));
                    assert(replaced(rest.skip(1), fs@, to@) == rest.skip(1));
                    assert(out@.push(cs@[i as int]) + replaced(cs@.skip(i + 1), fs@, to@) =~= out@ + replaced(rest, fs@, to@));
                }
            }
            string_push(&mut out, cs[i]);
            i = i + 1;
        }
    }
    proof {
        assert(cs@.skip(cs@.len() as int) =~= Seq::<char>::empty());
        assert(out@ + Seq::<char>::empty() =~= out@);
    }
    out
}


/// `to` before each character of `s` and after the last (`str::replace`
/// with an empty pattern).
pub open spec fn replaced_empty(s: Seq<char>, to: Seq<char>) -> Seq<char>
    decreases s.len(),
{
    if s.len() == 0 {
        to
    } else {
        to + seq![s[0]] + replaced_empty(s.skip(1), to)
    }
}

/// `str::replace`: `replaced`, or `replaced_empty` for an empty pattern.
pub open spec fn str_replaced(s: Seq<char>, from: Seq<char>, to: Seq<char>) -> Seq<char> {
    if from.len() == 0 {
        replaced_empty(s, to)
    } else {
        replaced(s, from, to)
    }
}

/// Replaces each occurrence of `from` in `s` by `to` (see `str_replaced`).
pub fn str_replace(s: &str, from: &str, to: &str) -> (r: String)
    ensures
        r@ == str_replaced(s@, from@, to@),
{
    let fs = chars_of(from);
    if fs.len() > 0 {
        return replace_all(s, from, to);
    }
    let cs = chars_of(s);
    let mut out = String::new();
    let mut i: usize = 0;
    proof {
        assert(cs@.skip(0) =~= cs@);
        assert(out@ + replaced_empty(cs@.skip(0), to@) =~= replaced_empty(cs@, to@));
    }
    while i < cs.len()
        invariant
            cs@ == s@,
            i <= cs@.len(),
            out@ + replaced_empty(cs@.skip(i as int), to@) == replaced_empty(cs@, to@),
        decreases cs@.len() - i,
    {
        proof {
            assert(cs@.skip(i as int).skip(1) =~= cs@.skip(i + 1));
            assert(out@ + to@ + seq![cs@[i as int]] + replaced_empty(cs@.skip(i + 1), to@)
                =~= out@ + replaced_empty(cs@.skip(i as int), to@));
        }
        string_push_str(&mut out, to);
        string_push(&mut out, cs[i]);
        i = i + 1;
    }
    string_push_str(&mut out, to);
    proof {
        assert(cs@.skip(i as int) =~= Seq::<char>::empty());
    }
    out
}

} // verus!
