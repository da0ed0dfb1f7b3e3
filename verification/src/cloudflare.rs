//! Cloudflare handling: recognizing a challenge page, reading `Set-Cookie`
//! headers, and the per-domain store of user agents and cookies.

use vstd::prelude::*;
use crate::runtime::{ExecutionError, Response, parse_url, parsed_url_of, trim, trimmed_range};
use crate::text::{chars_of, str_eq, string_from_range, string_push_str};
use crate::input::field_get;
use crate::value::{
    Json, JsonV, json_bytes_of, json_field, json_parse_bytes, jfields_view, lemma_jfields_index,
    lemma_jfields_len, lemma_jfields_push, serde_value,
};

verus! {

// ---------------------------------------------------------------------------
// Challenge pages
// ---------------------------------------------------------------------------

/// How many leading bytes of a body are searched for a challenge page.
pub open spec fn challenge_window() -> nat {
    512
}

/// The bytes of `<!DOCTYPE html>`.
pub open spec fn doctype_bytes() -> Seq<u8> {
    seq![60u8, 33, 68, 79, 67, 84, 89, 80, 69, 32, 104, 116, 109, 108, 62]
}

/// The bytes of `<title>Just a moment...</title>`.
pub open spec fn challenge_title_bytes() -> Seq<u8> {
    seq![
        60u8, 116, 105, 116, 108, 101, 62, 74, 117, 115, 116, 32, 97, 32, 109, 111, 109, 101, 110,
        116, 46, 46, 46, 60, 47, 116, 105, 116, 108, 101, 62,
    ]
}

pub open spec fn starts_with_bytes(s: Seq<u8>, p: Seq<u8>) -> bool {
    p.len() <= s.len() && s.take(p.len() as int) == p
}

pub open spec fn has_window(s: Seq<u8>, w: Seq<u8>, i: int) -> bool {
    0 <= i && i + w.len() <= s.len() && s.subrange(i, i + w.len()) == w
}

/// Whether the first bytes of a body are a Cloudflare challenge page: they
/// start with the doctype and hold the challenge title.
pub open spec fn spec_is_cloudflare_challenge(body: Seq<u8>) -> bool {
    &&& starts_with_bytes(challenge_prefix(body), doctype_bytes())
    &&& exists|i: int| #[trigger] has_window(challenge_prefix(body), challenge_title_bytes(), i)
}

/// The bytes of a body that are searched: at most the first 512.
pub open spec fn challenge_prefix(body: Seq<u8>) -> Seq<u8> {
    if body.len() <= challenge_window() {
        body
    } else {
        body.take(challenge_window() as int)
    }
}

fn doctype() -> (r: Vec<u8>)
    ensures
        r@ == doctype_bytes(),
{
    let r = vec![60u8, 33, 68, 79, 67, 84, 89, 80, 69, 32, 104, 116, 109, 108, 62];
    proof {
        assert(r@ =~= doctype_bytes());
    }
    r
}

fn challenge_title() -> (r: Vec<u8>)
    ensures
        r@ == challenge_title_bytes(),
{
    let r = vec![
        60u8, 116, 105, 116, 108, 101, 62, 74, 117, 115, 116, 32, 97, 32, 109, 111, 109, 101, 110,
        116, 46, 46, 46, 60, 47, 116, 105, 116, 108, 101, 62,
    ];
    proof {
        assert(r@ =~= challenge_title_bytes());
    }
    r
}

/// Whether `w` occurs in `s` at `i`.
fn window_at(s: &[u8], n: usize, w: &Vec<u8>, i: usize) -> (r: bool)
    requires
        n <= s@.len(),
        i + w@.len() <= n,
    ensures
        r == (s@.take(n as int).subrange(i as int, i + w@.len()) == w@),
{
    let mut k: usize = 0;
    while k < w.len()
        invariant
            n <= s@.len(),
            i + w@.len() <= n,
            k <= w@.len(),
            forall|j: int| 0 <= j < k ==> s@[i + j] == w@[j],
        decreases w@.len() - k,
    {
        if s[i + k] != w[k] {
            proof {
                assert(s@.take(n as int).subrange(i as int, i + w@.len())[k as int] != w@[k as int]);
            }
            return false;
        }
        k = k + 1;
    }
    proof {
        assert(s@.take(n as int).subrange(i as int, i + w@.len()) =~= w@);
    }
    true
}

/// Whether a response body is a Cloudflare challenge page; only its first
/// 512 bytes are looked at.
pub fn is_cloudflare_challenge(body: &[u8]) -> (r: bool)
    ensures
        r == spec_is_cloudflare_challenge(body@),
{
    let n: usize = if body.len() <= 512 { body.len() } else { 512 };
    let ghost prefix = body@.take(n as int);
    proof {
        if body@.len() <= 512 {
            assert(prefix =~= body@);
        }
    }
    let d = doctype();
    if n < d.len() || !window_at(body, n, &d, 0) {
        proof {
            if n >= d@.len() {
                assert(prefix.take(d@.len() as int) =~= prefix.subrange(0, d@.len() as int));
            }
        }
        return false;
    }
    proof {
        assert(prefix.take(d@.len() as int) =~= prefix.subrange(0, d@.len() as int));
        if body@.len() > 512 {
            assert(n == 512);
        }
    }
    let t = challenge_title();
    if n < t.len() {
        return false;
    }
    let mut i: usize = 0;
    while i + t.len() <= n
        invariant
            n <= body@.len(),
            n <= 512,
            prefix == body@.take(n as int),
            prefix == challenge_prefix(body@),
            starts_with_bytes(prefix, doctype_bytes()),
            t@ == challenge_title_bytes(),
            t@.len() <= n,
            i <= n,
            forall|j: int| 0 <= j < i ==> !has_window(prefix, t@, j),
        decreases n - i,
    {
        if window_at(body, n, &t, i) {
            proof {
                assert(has_window(challenge_prefix(body@), challenge_title_bytes(), i as int));
            }
            return true;
        }
        i = i + 1;
    }
    proof {
        assert forall|j: int| !has_window(prefix, t@, j) by {
            if 0 <= j && j + t@.len() <= prefix.len() {
                assert(j < i);
            }
        }
    }
    false
}

// ---------------------------------------------------------------------------
// Set-Cookie headers and domains
// ---------------------------------------------------------------------------

/// The position of the first `c` in `s`, if any.
pub open spec fn first_index(s: Seq<char>, c: char) -> Option<int> {
    if exists|i: int| 0 <= i < s.len() && s[i] == c {
        Some(choose|i: int| 0 <= i < s.len() && s[i] == c && forall|j: int| 0 <= j < i ==> s[j] != c)
    } else {
        None
    }
}

/// `s` up to its first `c` (all of `s` without one).
pub open spec fn before_first(s: Seq<char>, c: char) -> Seq<char> {
    match first_index(s, c) {
        Some(i) => s.take(i),
        None => s,
    }
}

/// The cookie that a `Set-Cookie` header sets: its first `;`-separated
/// part, trimmed, split at the first `=` into a non-empty name and a value.
pub open spec fn spec_parse_set_cookie(header: Seq<char>) -> Option<(Seq<char>, Seq<char>)> {
    let pair = trim(before_first(header, ';'));
    match first_index(pair, '=') {
        Some(i) => if i == 0 {
            None
        } else {
            Some((pair.take(i), pair.skip(i + 1)))
        },
        None => None,
    }
}

/// The first position at or after `from` where `chars` holds `c`, or the
/// length.
fn find_char(chars: &Vec<char>, c: char, from: usize) -> (r: usize)
    requires
        from <= chars@.len(),
    ensures
        from <= r <= chars@.len(),
        forall|j: int| from <= j < r ==> chars@[j] != c,
        r < chars@.len() ==> chars@[r as int] == c,
{
    let mut i = from;
    while i < chars.len() && chars[i] != c
        invariant
            from <= i <= chars@.len(),
            forall|j: int| from <= j < i ==> chars@[j] != c,
        decreases chars@.len() - i,
    {
        i = i + 1;
    }
    i
}

proof fn lemma_first_index(s: Seq<char>, c: char, r: int)
    requires
        0 <= r <= s.len(),
        forall|j: int| 0 <= j < r ==> s[j] != c,
        r < s.len() ==> s[r] == c,
    ensures
        first_index(s, c) == (if r < s.len() { Some(r) } else { None::<int> }),
{
    if r < s.len() {
        let k = choose|i: int| 0 <= i < s.len() && s[i] == c && forall|j: int| 0 <= j < i ==> s[j] != c;
        assert(0 <= r < s.len() && s[r] == c && forall|j: int| 0 <= j < r ==> s[j] != c);
        if k < r {
            assert(s[k] != c);
        }
        if k > r {
            assert(s[r] != c);
        }
    }
}

/// Reads the cookie a `Set-Cookie` header sets (see `spec_parse_set_cookie`).
pub fn parse_set_cookie(header: &str) -> (r: Option<(String, String)>)
    ensures
        match spec_parse_set_cookie(header@) {
            Some((name, value)) => r matches Some(p) && p.0@ == name && p.1@ == value,
            None => r is None,
        },
{
    let chars = chars_of(header);
    let end = find_char(&chars, ';', 0);
    proof {
        lemma_first_index(header@, ';', end as int);
        assert(before_first(header@, ';') =~= chars@.subrange(0, end as int));
    }
    let pair_text = trimmed_range(&chars, 0, end);
    let pair = chars_of(pair_text.as_str());
    let eq = find_char(&pair, '=', 0);
    proof {
        lemma_first_index(pair@, '=', eq as int);
    }
    if eq == pair.len() || eq == 0 {
        return None;
    }
    let name = string_from_range(&pair, 0, eq);
    let value = string_from_range(&pair, eq + 1, pair.len());
    proof {
        assert(pair@.take(eq as int) =~= pair@.subrange(0, eq as int));
        assert(pair@.skip(eq + 1) =~= pair@.subrange(eq + 1, pair@.len() as int));
    }
    Some((name, value))
}

/// `c` lower-cased when it is an ASCII capital.
pub open spec fn ascii_lower(c: char) -> char {
    if 'A' <= c && c <= 'Z' {
        ((c as u32) + 32) as char
    } else {
        c
    }
}

pub open spec fn ascii_lowercase(s: Seq<char>) -> Seq<char> {
    s.map_values(|c: char| ascii_lower(c))
}

fn ascii_lower_exec(c: char) -> (r: char)
    ensures
        r == ascii_lower(c),
{
    if 'A' <= c && c <= 'Z' {
        let code: u32 = (c as u32) + 32;
        proof {
            assert(0x61 <= code <= 0x7a);
        }
        char_from_ascii(code)
    } else {
        c
    }
}

/// The character with ASCII code `code`.
fn char_from_ascii(code: u32) -> (r: char)
    requires
        code < 128,
    ensures
        r == code as char,
{
    let b: u8 = code as u8;
    b as char
}

/// `s` with ASCII capitals lower-cased (`str::to_ascii_lowercase`).
pub fn to_ascii_lowercase(s: &str) -> (r: String)
    ensures
        r@ == ascii_lowercase(s@),
{
    let chars = chars_of(s);
    let mut out: Vec<char> = Vec::new();
    let mut i: usize = 0;
    while i < chars.len()
        invariant
            chars@ == s@,
            i <= chars@.len(),
            out@ == ascii_lowercase(chars@.take(i as int)),
        decreases chars@.len() - i,
    {
        out.push(ascii_lower_exec(chars[i]));
        proof {
            assert(ascii_lowercase(chars@.take(i + 1)) =~= ascii_lowercase(chars@.take(i as int)).push(ascii_lower(chars@[i as int])));
        }
        i = i + 1;
    }
    proof {
        assert(chars@.take(chars@.len() as int) =~= chars@);
    }
    string_from_range(&out, 0, out.len())
}

/// The key a URL's cookies are stored under: its host, lower-cased.
pub open spec fn spec_domain_key(url: Seq<char>) -> Result<Seq<char>, Seq<char>> {
    match parsed_url_of(url) {
        Ok((_, Some(host))) => Ok(ascii_lowercase(host)),
        Ok((_, None)) => Err("URL has no host"@),
        Err(text) => Err("invalid URL: "@ + text),
    }
}

/// The store key of `url` (see `spec_domain_key`); a failure is an error
/// without a span.
pub fn domain_key(url: &str) -> (r: Result<String, ExecutionError>)
    ensures
        match spec_domain_key(url@) {
            Ok(key) => r matches Ok(k) && k@ == key,
            Err(message) => r matches Err(e) && e@ == (message, None::<crate::source::Span>),
        },
{
    match parse_url(url) {
        Ok((_, Some(host))) => Ok(to_ascii_lowercase(host.as_str())),
        Ok((_, None)) => Err(ExecutionError::new("URL has no host", None)),
        Err(text) => {
            let mut m = "invalid URL: ".to_owned();
            string_push_str(&mut m, text.as_str());
            Err(ExecutionError::from_message(m, None))
        },
    }
}


// ---------------------------------------------------------------------------
// Maps with string keys, kept in key order
// ---------------------------------------------------------------------------

/// The order of `String`s: lexicographic by character.
pub open spec fn key_less(a: Seq<char>, b: Seq<char>) -> bool
    decreases a.len(),
{
    if b.len() == 0 {
        false
    } else if a.len() == 0 {
        true
    } else if a[0] != b[0] {
        a[0] < b[0]
    } else {
        key_less(a.drop_first(), b.drop_first())
    }
}

proof fn lemma_key_less_irreflexive(a: Seq<char>)
    ensures
        !key_less(a, a),
    decreases a.len(),
{
    if a.len() > 0 {
        lemma_key_less_irreflexive(a.drop_first());
    }
}

proof fn lemma_key_less_asymmetric(a: Seq<char>, b: Seq<char>)
    ensures
        !(key_less(a, b) && key_less(b, a)),
    decreases a.len(),
{
    if a.len() > 0 && b.len() > 0 && a[0] == b[0] {
        lemma_key_less_asymmetric(a.drop_first(), b.drop_first());
    }
}

proof fn lemma_key_less_transitive(a: Seq<char>, b: Seq<char>, c: Seq<char>)
    requires
        key_less(a, b),
        key_less(b, c),
    ensures
        key_less(a, c),
    decreases a.len(),
{
    if a.len() > 0 && b.len() > 0 && c.len() > 0 && a[0] == b[0] && b[0] == c[0] {
        lemma_key_less_transitive(a.drop_first(), b.drop_first(), c.drop_first());
    }
}

proof fn lemma_key_less_total(a: Seq<char>, b: Seq<char>)
    requires
        a != b,
    ensures
        key_less(a, b) || key_less(b, a),
    decreases a.len(),
{
    if a.len() == 0 && b.len() == 0 {
        assert(a =~= b);
    } else if a.len() > 0 && b.len() > 0 && a[0] == b[0] {
        if a.drop_first() == b.drop_first() {
            assert(a =~= seq![a[0]] + a.drop_first());
            assert(b =~= seq![b[0]] + b.drop_first());
        }
        lemma_key_less_total(a.drop_first(), b.drop_first());
    }
}

/// Entries whose keys strictly increase.
pub open spec fn keys_sorted<V>(m: Seq<(Seq<char>, V)>) -> bool {
    forall|i: int, j: int| 0 <= i < j < m.len() ==> key_less(m[i].0, m[j].0)
}

/// The value under `k`.
pub open spec fn lookup<V>(m: Seq<(Seq<char>, V)>, k: Seq<char>) -> Option<V>
    decreases m.len(),
{
    if m.len() == 0 {
        None
    } else if m[0].0 == k {
        Some(m[0].1)
    } else {
        lookup(m.drop_first(), k)
    }
}

/// `m` with `k` mapped to `v`: the entry replaced, or a new one in key order.
pub open spec fn upsert<V>(m: Seq<(Seq<char>, V)>, k: Seq<char>, v: V) -> Seq<(Seq<char>, V)>
    decreases m.len(),
{
    if m.len() == 0 {
        seq![(k, v)]
    } else if m[0].0 == k {
        seq![(k, v)] + m.drop_first()
    } else if key_less(k, m[0].0) {
        seq![(k, v)] + m
    } else {
        seq![m[0]] + upsert(m.drop_first(), k, v)
    }
}

/// `m` without the entry under `k`.
pub open spec fn remove_key<V>(m: Seq<(Seq<char>, V)>, k: Seq<char>) -> Seq<(Seq<char>, V)>
    decreases m.len(),
{
    if m.len() == 0 {
        m
    } else if m[0].0 == k {
        m.drop_first()
    } else {
        seq![m[0]] + remove_key(m.drop_first(), k)
    }
}

proof fn lemma_sorted_rest<V>(m: Seq<(Seq<char>, V)>)
    requires
        keys_sorted(m),
        m.len() > 0,
    ensures
        keys_sorted(m.drop_first()),
        forall|j: int| 0 <= j < m.drop_first().len() ==> key_less(m[0].0, #[trigger] m.drop_first()[j].0),
{
    assert forall|j: int| 0 <= j < m.drop_first().len() implies key_less(m[0].0, #[trigger] m.drop_first()[j].0) by {
        assert(m.drop_first()[j] == m[j + 1]);
    }
}

proof fn lemma_lookup_absent<V>(m: Seq<(Seq<char>, V)>, k: Seq<char>)
    requires
        forall|i: int| 0 <= i < m.len() ==> (#[trigger] m[i]).0 != k,
    ensures
        lookup(m, k) is None,
        remove_key(m, k) == m,
    decreases m.len(),
{
    if m.len() > 0 {
        assert forall|i: int| 0 <= i < m.drop_first().len() implies (#[trigger] m.drop_first()[i]).0 != k by {
            assert(m.drop_first()[i] == m[i + 1]);
        }
        lemma_lookup_absent(m.drop_first(), k);
        assert(m =~= seq![m[0]] + m.drop_first());
    }
}

/// With every key before `p` below `k` and the key at `p` (if any) not,
/// `k` is at `p` or nowhere.
proof fn lemma_slot<V>(m: Seq<(Seq<char>, V)>, k: Seq<char>, v: V, p: int)
    requires
        keys_sorted(m),
        0 <= p <= m.len(),
        forall|i: int| 0 <= i < p ==> key_less((#[trigger] m[i]).0, k),
        p < m.len() ==> !key_less(m[p].0, k),
    ensures
        p < m.len() && m[p].0 == k ==> {
            &&& upsert(m, k, v) == m.update(p, (k, v))
            &&& lookup(m, k) == Some(m[p].1)
            &&& remove_key(m, k) == m.remove(p)
        },
        !(p < m.len() && m[p].0 == k) ==> {
            &&& upsert(m, k, v) == m.insert(p, (k, v))
            &&& lookup(m, k) is None
            &&& remove_key(m, k) == m
        },
    decreases p,
{
    if p == 0 {
        if m.len() == 0 {
            assert(upsert(m, k, v) =~= m.insert(0, (k, v)));
            lemma_lookup_absent(m, k);
        } else if m[0].0 == k {
            assert(upsert(m, k, v) =~= m.update(0, (k, v)));
            assert(remove_key(m, k) =~= m.remove(0));
        } else {
            lemma_key_less_total(m[0].0, k);
            assert(key_less(k, m[0].0));
            assert(upsert(m, k, v) =~= m.insert(0, (k, v)));
            assert forall|i: int| 0 <= i < m.len() implies (#[trigger] m[i]).0 != k by {
                if i > 0 {
                    lemma_key_less_transitive(k, m[0].0, m[i].0);
                    lemma_key_less_irreflexive(k);
                }
            }
            lemma_lookup_absent(m, k);
        }
    } else {
        let rest = m.drop_first();
        lemma_sorted_rest(m);
        lemma_key_less_irreflexive(k);
        assert(key_less(m[0].0, k));
        lemma_key_less_asymmetric(m[0].0, k);
        assert(m[0].0 != k);
        assert forall|i: int| 0 <= i < p - 1 implies key_less((#[trigger] rest[i]).0, k) by {
            assert(rest[i] == m[i + 1]);
        }
        if p - 1 < rest.len() {
            assert(rest[p - 1] == m[p]);
        }
        lemma_slot(rest, k, v, p - 1);
        if p < m.len() && m[p].0 == k {
            assert(upsert(m, k, v) =~= m.update(p, (k, v)));
            assert(remove_key(m, k) =~= m.remove(p));
        } else {
            assert(upsert(m, k, v) =~= m.insert(p, (k, v)));
            assert(remove_key(m, k) =~= m);
        }
    }
}

/// Writing a key keeps the keys in order.
pub proof fn law_upsert_sorted<V>(m: Seq<(Seq<char>, V)>, k: Seq<char>, v: V)
    requires
        keys_sorted(m),
    ensures
        keys_sorted(upsert(m, k, v)),
    decreases m.len(),
{
    if m.len() > 0 && m[0].0 != k && !key_less(k, m[0].0) {
        lemma_sorted_rest(m);
        law_upsert_sorted(m.drop_first(), k, v);
        lemma_key_less_total(m[0].0, k);
        let u = upsert(m.drop_first(), k, v);
        law_lookup_upsert_keys(m.drop_first(), k, v);
        let r = seq![m[0]] + u;
        assert forall|i: int, j: int| 0 <= i < j < r.len() implies key_less(r[i].0, r[j].0) by {
            if i == 0 {
                assert(r[j] == u[j - 1]);
                let kj = u[j - 1].0;
                if kj != k {
                    let q = choose|q: int| 0 <= q < m.drop_first().len() && m.drop_first()[q].0 == kj;
                    assert(key_less(m[0].0, m.drop_first()[q].0));
                }
            }
        }
    } else if m.len() > 0 && m[0].0 == k {
        let r = seq![(k, v)] + m.drop_first();
        assert forall|i: int, j: int| 0 <= i < j < r.len() implies key_less(r[i].0, r[j].0) by {
            assert(r[j] == m[j]);
            if i > 0 {
                assert(r[i] == m[i]);
            }
        }
    } else if m.len() > 0 {
        let r = seq![(k, v)] + m;
        assert forall|i: int, j: int| 0 <= i < j < r.len() implies key_less(r[i].0, r[j].0) by {
            assert(r[j] == m[j - 1]);
            if i > 0 {
                assert(r[i] == m[i - 1]);
            } else if j > 1 {
                lemma_key_less_transitive(k, m[0].0, m[j - 1].0);
            }
        }
    }
}

/// The keys after a write: the old ones and `k`.
proof fn law_lookup_upsert_keys<V>(m: Seq<(Seq<char>, V)>, k: Seq<char>, v: V)
    ensures
        forall|i: int| 0 <= i < upsert(m, k, v).len() ==>
            (#[trigger] upsert(m, k, v)[i]).0 == k || exists|q: int| 0 <= q < m.len() && m[q].0 == upsert(m, k, v)[i].0,
    decreases m.len(),
{
    let u = upsert(m, k, v);
    if m.len() > 0 && m[0].0 != k && !key_less(k, m[0].0) {
        law_lookup_upsert_keys(m.drop_first(), k, v);
        assert forall|i: int| 0 <= i < u.len() implies (#[trigger] u[i]).0 == k || exists|q: int| 0 <= q < m.len() && m[q].0 == u[i].0 by {
            if i == 0 {
                assert(m[0].0 == u[0].0);
            } else {
                let w = upsert(m.drop_first(), k, v);
                assert(u[i] == w[i - 1]);
                if w[i - 1].0 != k {
                    let q = choose|q: int| 0 <= q < m.drop_first().len() && m.drop_first()[q].0 == w[i - 1].0;
                    assert(m[q + 1].0 == u[i].0);
                }
            }
        }
    } else if m.len() > 0 && m[0].0 == k {
        assert forall|i: int| 0 <= i < u.len() implies (#[trigger] u[i]).0 == k || exists|q: int| 0 <= q < m.len() && m[q].0 == u[i].0 by {
            if i > 0 {
                assert(m[i].0 == u[i].0);
            }
        }
    } else if m.len() > 0 {
        assert forall|i: int| 0 <= i < u.len() implies (#[trigger] u[i]).0 == k || exists|q: int| 0 <= q < m.len() && m[q].0 == u[i].0 by {
            if i > 0 {
                assert(m[i - 1].0 == u[i].0);
            }
        }
    }
}

/// What a read gives back after a write: the written value under the
/// written key, and the old value under every other key.
pub proof fn law_lookup_upsert<V>(m: Seq<(Seq<char>, V)>, k: Seq<char>, v: V, other: Seq<char>)
    ensures
        lookup(upsert(m, k, v), k) == Some(v),
        other != k ==> lookup(upsert(m, k, v), other) == lookup(m, other),
    decreases m.len(),
{
    if m.len() == 0 {
        let r = seq![(k, v)];
        assert(r.drop_first() =~= Seq::<(Seq<char>, V)>::empty());
        assert(r[0].0 == k);
        if other != k {
            assert(lookup(r, other) == lookup(r.drop_first(), other));
            assert(lookup(r, other) == lookup(m, other));
        }
    } else if m[0].0 == k {
        let r = seq![(k, v)] + m.drop_first();
        assert(r.drop_first() =~= m.drop_first());
        assert(r[0] == (k, v));
        if other != k {
            assert(lookup(r, other) == lookup(m.drop_first(), other));
            assert(lookup(m, other) == lookup(m.drop_first(), other));
        }
    } else if key_less(k, m[0].0) {
        let r = seq![(k, v)] + m;
        assert(r.drop_first() =~= m);
        assert(r[0] == (k, v));
        if other != k {
            assert(lookup(r, other) == lookup(m, other));
        }
    } else {
        law_lookup_upsert(m.drop_first(), k, v, other);
        let u = upsert(m.drop_first(), k, v);
        let r = seq![m[0]] + u;
        assert(r.drop_first() =~= u);
        assert(r[0] == m[0]);
        assert(lookup(r, k) == lookup(u, k));
        if other != k {
            if m[0].0 == other {
                assert(lookup(r, other) == Some(m[0].1));
            } else {
                assert(lookup(r, other) == lookup(u, other));
                assert(lookup(m, other) == lookup(m.drop_first(), other));
            }
        }
    }
}

/// After a removal the key reads as absent and every other key as before.
pub proof fn law_lookup_remove<V>(m: Seq<(Seq<char>, V)>, k: Seq<char>, other: Seq<char>)
    requires
        keys_sorted(m),
    ensures
        lookup(remove_key(m, k), k) is None,
        other != k ==> lookup(remove_key(m, k), other) == lookup(m, other),
    decreases m.len(),
{
    if m.len() > 0 {
        lemma_sorted_rest(m);
        if m[0].0 == k {
            assert forall|i: int| 0 <= i < m.drop_first().len() implies (#[trigger] m.drop_first()[i]).0 != k by {
                lemma_key_less_irreflexive(k);
            }
            lemma_lookup_absent(m.drop_first(), k);
        } else {
            law_lookup_remove(m.drop_first(), k, other);
            assert((seq![m[0]] + remove_key(m.drop_first(), k)).drop_first() =~= remove_key(m.drop_first(), k));
        }
    }
}

/// Whether `a` sorts before `b` (see `key_less`).
fn str_less(a: &str, b: &str) -> (r: bool)
    ensures
        r == key_less(a@, b@),
{
    let x = chars_of(a);
    let y = chars_of(b);
    let mut i: usize = 0;
    proof {
        assert(x@.skip(0) =~= x@);
        assert(y@.skip(0) =~= y@);
    }
    while i < x.len() && i < y.len() && x[i] == y[i]
        invariant
            x@ == a@,
            y@ == b@,
            i <= x@.len(),
            i <= y@.len(),
            key_less(a@, b@) == key_less(x@.skip(i as int), y@.skip(i as int)),
        decreases x@.len() - i,
    {
        proof {
            assert(x@.skip(i as int).drop_first() =~= x@.skip(i + 1));
            assert(y@.skip(i as int).drop_first() =~= y@.skip(i + 1));
        }
        i = i + 1;
    }
    if i == y.len() {
        false
    } else if i == x.len() {
        true
    } else {
        x[i] < y[i]
    }
}


/// The first position whose key does not sort before `k`.
fn slot<V>(m: &Vec<(String, V)>, k: &str) -> (p: usize)
    ensures
        p <= m@.len(),
        forall|i: int| 0 <= i < p ==> key_less((#[trigger] m@[i]).0@, k@),
        p < m@.len() ==> !key_less(m@[p as int].0@, k@),
{
    let mut i: usize = 0;
    while i < m.len() && str_less(m[i].0.as_str(), k)
        invariant
            i <= m@.len(),
            forall|j: int| 0 <= j < i ==> key_less((#[trigger] m@[j]).0@, k@),
        decreases m@.len() - i,
    {
        i = i + 1;
    }
    i
}

// ---------------------------------------------------------------------------
// The cookie store
// ---------------------------------------------------------------------------

/// What the store keeps for a domain: the user agent that passed the
/// challenge, and the cookies by name in name order.
pub struct DomainV {
    pub user_agent: Option<Seq<char>>,
    pub cookies: Seq<(Seq<char>, Seq<char>)>,
}

pub open spec fn cookie_pairs(v: Seq<(String, String)>) -> Seq<(Seq<char>, Seq<char>)> {
    v.map_values(|e: (String, String)| (e.0@, e.1@))
}

/// A domain's user agent and cookies.
#[derive(Debug, PartialEq, Eq)]
pub struct CloudflareDomain {
    user_agent: Option<String>,
    cookies: Vec<(String, String)>,
}

impl View for CloudflareDomain {
    type V = DomainV;

    closed spec fn view(&self) -> DomainV {
        DomainV {
            user_agent: match self.user_agent {
                Some(u) => Some(u@),
                None => None,
            },
            cookies: cookie_pairs(self.cookies@),
        }
    }
}

impl CloudflareDomain {
    pub fn new() -> (r: Self)
        ensures
            r@ == empty_domain(),
    {
        let r = CloudflareDomain { user_agent: None, cookies: Vec::new() };
        proof {
            assert(r@.cookies =~= Seq::<(Seq<char>, Seq<char>)>::empty());
        }
        r
    }
}

pub open spec fn empty_domain() -> DomainV {
    DomainV { user_agent: None, cookies: Seq::empty() }
}

pub open spec fn domain_or_empty(m: Seq<(Seq<char>, DomainV)>, key: Seq<char>) -> DomainV {
    match lookup(m, key) {
        Some(d) => d,
        None => empty_domain(),
    }
}

pub open spec fn domains_view(v: Seq<(String, CloudflareDomain)>) -> Seq<(Seq<char>, DomainV)> {
    v.map_values(|e: (String, CloudflareDomain)| (e.0@, e.1@))
}

/// Domains in key order, each with its cookies in name order.
pub open spec fn store_wf(m: Seq<(Seq<char>, DomainV)>) -> bool {
    &&& keys_sorted(m)
    &&& forall|i: int| 0 <= i < m.len() ==> keys_sorted((#[trigger] m[i]).1.cookies)
}

/// `name=value` pairs joined with `; `.
pub open spec fn cookie_line(c: Seq<(Seq<char>, Seq<char>)>) -> Seq<char>
    decreases c.len(),
{
    if c.len() == 0 {
        seq![]
    } else if c.len() == 1 {
        c[0].0 + "="@ + c[0].1
    } else {
        cookie_line(c.drop_last()) + "; "@ + c.last().0 + "="@ + c.last().1
    }
}

pub open spec fn spec_user_agent(m: Seq<(Seq<char>, DomainV)>, url: Seq<char>) -> Result<Option<Seq<char>>, Seq<char>> {
    match spec_domain_key(url) {
        Ok(key) => Ok(domain_or_empty(m, key).user_agent),
        Err(e) => Err(e),
    }
}

pub open spec fn spec_cookie_header(m: Seq<(Seq<char>, DomainV)>, url: Seq<char>) -> Result<Option<Seq<char>>, Seq<char>> {
    match spec_domain_key(url) {
        Ok(key) => {
            let cookies = domain_or_empty(m, key).cookies;
            Ok(if cookies.len() > 0 { Some(cookie_line(cookies)) } else { None })
        },
        Err(e) => Err(e),
    }
}

/// The store after a bypass for the domain `key`: its user agent, and its
/// `cf_clearance` cookie.
pub open spec fn spec_set_bypass(
    m: Seq<(Seq<char>, DomainV)>,
    key: Seq<char>,
    user_agent: Seq<char>,
    clearance: Seq<char>,
) -> Seq<(Seq<char>, DomainV)> {
    upsert(m, key, DomainV {
        user_agent: Some(user_agent),
        cookies: upsert(domain_or_empty(m, key).cookies, "cf_clearance"@, clearance),
    })
}

/// Whether a header is `Set-Cookie`, in any ASCII case.
pub open spec fn is_set_cookie(name: Seq<char>) -> bool {
    ascii_lowercase(name) == ascii_lowercase("set-cookie"@)
}

/// The cookies after the `Set-Cookie` headers from `i` on.
pub open spec fn apply_set_cookies(
    c: Seq<(Seq<char>, Seq<char>)>,
    headers: Seq<(Seq<char>, Seq<char>)>,
    i: int,
) -> Seq<(Seq<char>, Seq<char>)>
    decreases headers.len() - i,
{
    if i < 0 || i >= headers.len() {
        c
    } else {
        let next = if is_set_cookie(headers[i].0) {
            match spec_parse_set_cookie(headers[i].1) {
                Some((name, value)) => upsert(c, name, value),
                None => c,
            }
        } else {
            c
        };
        apply_set_cookies(next, headers, i + 1)
    }
}

/// The store after a response to a request for `request_url`: a challenge
/// page forgets the request's domain; any other response records its
/// cookies under the response URL's domain (the request's when the
/// response URL has none).
pub open spec fn spec_store_response_cookies(
    m: Seq<(Seq<char>, DomainV)>,
    request_url: Seq<char>,
    response: crate::runtime::ResponseV,
) -> Result<Seq<(Seq<char>, DomainV)>, Seq<char>> {
    if spec_is_cloudflare_challenge(response.body) {
        match spec_domain_key(request_url) {
            Ok(key) => Ok(remove_key(m, key)),
            Err(e) => Err(e),
        }
    } else {
        let key = match spec_domain_key(response.url) {
            Ok(k) => Ok(k),
            Err(_) => spec_domain_key(request_url),
        };
        match key {
            Ok(k) => {
                let d = domain_or_empty(m, k);
                Ok(upsert(m, k, DomainV { cookies: apply_set_cookies(d.cookies, response.headers, 0), ..d }))
            },
            Err(e) => Err(e),
        }
    }
}

/// Sets the cookie `name` to `value`.
fn set_cookie(cookies: &mut Vec<(String, String)>, name: &str, value: &str)
    requires
        keys_sorted(cookie_pairs(old(cookies)@)),
    ensures
        cookie_pairs(final(cookies)@) == upsert(cookie_pairs(old(cookies)@), name@, value@),
        keys_sorted(cookie_pairs(final(cookies)@)),
{
    let ghost before = cookie_pairs(cookies@);
    let p = slot(cookies, name);
    proof {
        assert forall|i: int| 0 <= i < p implies key_less((#[trigger] before[i]).0, name@) by {
            assert(before[i].0 == cookies@[i].0@);
        }
        lemma_slot(before, name@, value@, p as int);
        law_upsert_sorted(before, name@, value@);
    }
    if p < cookies.len() && str_eq(cookies[p].0.as_str(), name) {
        cookies.remove(p);
        cookies.insert(p, (name.to_owned(), value.to_owned()));
        proof {
            assert(cookie_pairs(cookies@) =~= before.update(p as int, (name@, value@)));
        }
    } else {
        cookies.insert(p, (name.to_owned(), value.to_owned()));
        proof {
            assert(cookie_pairs(cookies@) =~= before.insert(p as int, (name@, value@)));
        }
    }
}

/// Whether a header name is `Set-Cookie` in any ASCII case.
fn is_set_cookie_exec(name: &str) -> (r: bool)
    ensures
        r == is_set_cookie(name@),
{
    let a = to_ascii_lowercase(name);
    let b = to_ascii_lowercase("set-cookie");
    str_eq(a.as_str(), b.as_str())
}

/// Applies the `Set-Cookie` headers to `cookies`.
fn apply_headers(cookies: &mut Vec<(String, String)>, headers: &[(String, String)])
    requires
        keys_sorted(cookie_pairs(old(cookies)@)),
    ensures
        cookie_pairs(final(cookies)@) == apply_set_cookies(cookie_pairs(old(cookies)@), cookie_pairs(headers@), 0),
        keys_sorted(cookie_pairs(final(cookies)@)),
{
    let ghost hv = cookie_pairs(headers@);
    let mut i: usize = 0;
    while i < headers.len()
        invariant
            hv == cookie_pairs(headers@),
            i <= headers@.len(),
            keys_sorted(cookie_pairs(cookies@)),
            apply_set_cookies(cookie_pairs(old(cookies)@), hv, 0) == apply_set_cookies(cookie_pairs(cookies@), hv, i as int),
        decreases headers@.len() - i,
    {
        let (name, value) = &headers[i];
        proof {
            assert(hv[i as int] == (name@, value@));
        }
        if is_set_cookie_exec(name.as_str()) {
            match parse_set_cookie(value.as_str()) {
                Some((n, v)) => set_cookie(cookies, n.as_str(), v.as_str()),
                None => {},
            }
        }
        i = i + 1;
    }
}

/// User agents and cookies by domain, for requests that go through
/// Cloudflare. Writing the store to disk is the caller's part.
#[derive(Debug, PartialEq, Eq)]
pub struct CloudflareStore {
    domains: Vec<(String, CloudflareDomain)>,
}

impl View for CloudflareStore {
    type V = Seq<(Seq<char>, DomainV)>;

    closed spec fn view(&self) -> Seq<(Seq<char>, DomainV)> {
        domains_view(self.domains@)
    }
}

impl CloudflareStore {
    /// An empty store.
    pub fn new() -> (r: Self)
        ensures
            r@ == Seq::<(Seq<char>, DomainV)>::empty(),
            store_wf(r@),
    {
        let r = CloudflareStore { domains: Vec::new() };
        proof {
            assert(r@ =~= Seq::<(Seq<char>, DomainV)>::empty());
        }
        r
    }

    /// Where `key` is, or would go.
    fn find(&self, key: &str) -> (r: (usize, bool))
        requires
            store_wf(self@),
        ensures
            r.0 <= self@.len(),
            r.1 ==> r.0 < self@.len() && self@[r.0 as int].0 == key@,
            r.1 ==> lookup(self@, key@) == Some(self@[r.0 as int].1),
            !r.1 ==> lookup(self@, key@) is None,
            forall|v: DomainV| r.1 ==> upsert(self@, key@, v) == #[trigger] self@.update(r.0 as int, (key@, v)),
            forall|v: DomainV| !r.1 ==> upsert(self@, key@, v) == #[trigger] self@.insert(r.0 as int, (key@, v)),
            r.1 ==> remove_key(self@, key@) == self@.remove(r.0 as int),
            !r.1 ==> remove_key(self@, key@) == self@,
    {
        let p = slot(&self.domains, key);
        let found = p < self.domains.len() && str_eq(self.domains[p].0.as_str(), key);
        proof {
            let m = self@;
            assert forall|i: int| 0 <= i < p implies key_less((#[trigger] m[i]).0, key@) by {
                assert(m[i].0 == self.domains@[i].0@);
            }
            assert forall|v: DomainV| found ==> upsert(m, key@, v) == #[trigger] m.update(p as int, (key@, v)) by {
                lemma_slot(m, key@, v, p as int);
            }
            assert forall|v: DomainV| !found ==> upsert(m, key@, v) == #[trigger] m.insert(p as int, (key@, v)) by {
                lemma_slot(m, key@, v, p as int);
            }
            lemma_slot(m, key@, empty_domain(), p as int);
        }
        (p, found)
    }

    /// The user agent that passed the challenge for `url`'s domain.
    pub fn user_agent(&self, url: &str) -> (r: Result<Option<String>, ExecutionError>)
        requires
            store_wf(self@),
        ensures
            match spec_user_agent(self@, url@) {
                Ok(u) => r matches Ok(x) && match x {
                    Some(s) => u == Some(s@),
                    None => u is None,
                },
                Err(m) => r matches Err(e) && e@ == (m, None::<crate::source::Span>),
            },
    {
        let key = domain_key(url)?;
        let (p, found) = self.find(key.as_str());
        if found {
            match &self.domains[p].1.user_agent {
                Some(u) => Ok(Some(u.clone())),
                None => Ok(None),
            }
        } else {
            Ok(None)
        }
    }

    /// The `Cookie` header for requests to `url`'s domain, when it has
    /// cookies.
    pub fn cookie_header(&self, url: &str) -> (r: Result<Option<String>, ExecutionError>)
        requires
            store_wf(self@),
        ensures
            match spec_cookie_header(self@, url@) {
                Ok(h) => r matches Ok(x) && match x {
                    Some(s) => h == Some(s@),
                    None => h is None,
                },
                Err(m) => r matches Err(e) && e@ == (m, None::<crate::source::Span>),
            },
    {
        let key = domain_key(url)?;
        let (p, found) = self.find(key.as_str());
        if !found {
            return Ok(None);
        }
        let cookies = &self.domains[p].1.cookies;
        let ghost cv = cookie_pairs(cookies@);
        if cookies.len() == 0 {
            return Ok(None);
        }
        let mut line = String::new();
        let mut i: usize = 0;
        proof {
            assert(cv.take(0) =~= Seq::<(Seq<char>, Seq<char>)>::empty());
        }
        while i < cookies.len()
            invariant
                cv == cookie_pairs(cookies@),
                i <= cookies@.len(),
                line@ == cookie_line(cv.take(i as int)),
            decreases cookies@.len() - i,
        {
            if i > 0 {
                string_push_str(&mut line, "; ");
            }
            string_push_str(&mut line, cookies[i].0.as_str());
            string_push_str(&mut line, "=");
            string_push_str(&mut line, cookies[i].1.as_str());
            proof {
                let next = cv.take(i + 1);
                assert(next.drop_last() =~= cv.take(i as int));
                assert(next.last() == (cookies@[i as int].0@, cookies@[i as int].1@));
                assert(line@ =~= cookie_line(next));
            }
            i = i + 1;
        }
        proof {
            assert(cv.take(cv.len() as int) =~= cv);
        }
        Ok(Some(line))
    }

    /// Records a passed challenge for `url`'s domain: its user agent and
    /// its `cf_clearance` cookie.
    pub fn set_bypass(&mut self, url: &str, user_agent: &str, cf_clearance: &str) -> (r: Result<(), ExecutionError>)
        requires
            store_wf(old(self)@),
        ensures
            store_wf(final(self)@),
            match spec_domain_key(url@) {
                Ok(key) => r is Ok && final(self)@ == spec_set_bypass(old(self)@, key, user_agent@, cf_clearance@),
                Err(m) => r matches Err(e) && e@ == (m, None::<crate::source::Span>) && final(self)@ == old(self)@,
            },
    {
        let key = domain_key(url)?;
        let ghost before = self@;
        let (p, found) = self.find(key.as_str());
        let mut domain = if found {
            self.domains.remove(p).1
        } else {
            CloudflareDomain::new()
        };
        proof {
            assert(domain@ == domain_or_empty(before, key@));
            if found {
                assert(keys_sorted(before[p as int].1.cookies));
            }
        }
        domain.user_agent = Some(user_agent.to_owned());
        set_cookie(&mut domain.cookies, "cf_clearance", cf_clearance);
        let ghost dv = domain@;
        self.domains.insert(p, (key, domain));
        proof {
            if found {
                assert(self@ =~= before.update(p as int, (key@, dv)));
            } else {
                assert(self@ =~= before.insert(p as int, (key@, dv)));
            }
            law_upsert_sorted(before, key@, dv);
            assert forall|i: int| 0 <= i < self@.len() implies keys_sorted((#[trigger] self@[i]).1.cookies) by {
                if i != p {
                    if found || i < p {
                        assert(self@[i] == before[i]);
                    } else {
                        assert(self@[i] == before[i - 1]);
                    }
                }
            }
        }
        Ok(())
    }

    /// Forgets `url`'s domain.
    pub fn clear_domain(&mut self, url: &str) -> (r: Result<(), ExecutionError>)
        requires
            store_wf(old(self)@),
        ensures
            store_wf(final(self)@),
            match spec_domain_key(url@) {
                Ok(key) => r is Ok && final(self)@ == remove_key(old(self)@, key),
                Err(m) => r matches Err(e) && e@ == (m, None::<crate::source::Span>) && final(self)@ == old(self)@,
            },
    {
        let key = domain_key(url)?;
        let ghost before = self@;
        let (p, found) = self.find(key.as_str());
        if found {
            self.domains.remove(p);
            proof {
                assert(self@ =~= before.remove(p as int));
                assert forall|i: int, j: int| 0 <= i < j < self@.len() implies key_less(self@[i].0, self@[j].0) by {
                    let a = if i < p { i } else { i + 1 };
                    let b = if j < p { j } else { j + 1 };
                    assert(self@[i] == before[a]);
                    assert(self@[j] == before[b]);
                }
                assert forall|i: int| 0 <= i < self@.len() implies keys_sorted((#[trigger] self@[i]).1.cookies) by {
                    let a = if i < p { i } else { i + 1 };
                    assert(self@[i] == before[a]);
                }
            }
        }
        Ok(())
    }

    /// Records what a response for a request to `request_url` says about
    /// cookies (see `spec_store_response_cookies`).
    pub fn store_response_cookies(&mut self, request_url: &str, response: &Response) -> (r: Result<(), ExecutionError>)
        requires
            store_wf(old(self)@),
        ensures
            store_wf(final(self)@),
            match spec_store_response_cookies(old(self)@, request_url@, response@) {
                Ok(m) => r is Ok && final(self)@ == m,
                Err(m) => r matches Err(e) && e@ == (m, None::<crate::source::Span>) && final(self)@ == old(self)@,
            },
    {
        if is_cloudflare_challenge(response.body()) {
            return self.clear_domain(request_url);
        }
        let key = match domain_key(response.url()) {
            Ok(k) => k,
            Err(_) => domain_key(request_url)?,
        };
        let ghost before = self@;
        let (p, found) = self.find(key.as_str());
        let mut domain = if found {
            self.domains.remove(p).1
        } else {
            CloudflareDomain::new()
        };
        proof {
            assert(domain@ == domain_or_empty(before, key@));
            if found {
                assert(keys_sorted(before[p as int].1.cookies));
            }
        }
        let ghost d0 = domain@;
        apply_headers(&mut domain.cookies, response.headers());
        let ghost dv = domain@;
        proof {
            assert(dv == DomainV { cookies: apply_set_cookies(d0.cookies, response@.headers, 0), ..d0 });
        }
        self.domains.insert(p, (key, domain));
        proof {
            if found {
                assert(self@ =~= before.update(p as int, (key@, dv)));
            } else {
                assert(self@ =~= before.insert(p as int, (key@, dv)));
            }
            law_upsert_sorted(before, key@, dv);
            assert forall|i: int| 0 <= i < self@.len() implies keys_sorted((#[trigger] self@[i]).1.cookies) by {
                if i != p {
                    if found || i < p {
                        assert(self@[i] == before[i]);
                    } else {
                        assert(self@[i] == before[i - 1]);
                    }
                }
            }
        }
        Ok(())
    }
}

// ---------------------------------------------------------------------------
// The store as JSON
// ---------------------------------------------------------------------------

/// The cookies of a JSON object: each field whose value is a string, set in
/// order.
pub open spec fn cookies_of_json(c: Seq<(Seq<char>, JsonV)>) -> Seq<(Seq<char>, Seq<char>)>
    decreases c.len(),
{
    if c.len() == 0 {
        seq![]
    } else {
        let before = cookies_of_json(c.drop_last());
        match c.last().1 {
            JsonV::Str(v) => upsert(before, c.last().0, v),
            _ => before,
        }
    }
}

/// What a domain's JSON holds: a string `user_agent`, and the string fields
/// of an object `cookies`; anything else is left out.
pub open spec fn domain_of_json(v: JsonV) -> DomainV {
    let fields = match v {
        JsonV::Object(f) => f,
        _ => Seq::empty(),
    };
    DomainV {
        user_agent: match field_get(fields, "user_agent"@) {
            Some(JsonV::Str(u)) => Some(u),
            _ => None,
        },
        cookies: match field_get(fields, "cookies"@) {
            Some(JsonV::Object(c)) => cookies_of_json(c),
            _ => Seq::empty(),
        },
    }
}

/// The domains of a JSON object, set in order.
pub open spec fn store_of_json(hosts: Seq<(Seq<char>, JsonV)>) -> Seq<(Seq<char>, DomainV)>
    decreases hosts.len(),
{
    if hosts.len() == 0 {
        seq![]
    } else {
        upsert(store_of_json(hosts.drop_last()), hosts.last().0, domain_of_json(hosts.last().1))
    }
}

/// The store that the bytes of a store file hold: the domains of a JSON
/// object (none, for any other JSON value), or the error of reading them.
pub open spec fn parsed_store(bytes: Seq<u8>) -> Result<Seq<(Seq<char>, DomainV)>, Seq<char>> {
    match json_bytes_of(bytes) {
        Err(e) => Err("failed to parse Cloudflare cookie store: "@ + e),
        Ok(JsonV::Object(hosts)) => Ok(store_of_json(hosts)),
        Ok(_) => Ok(seq![]),
    }
}

/// The JSON a store is written as: each domain with its user agent (null
/// when there is none) and its cookies, in key order.
pub open spec fn store_json(m: Seq<(Seq<char>, DomainV)>) -> JsonV {
    JsonV::Object(Seq::new(m.len(), |i: int| (m[i].0, domain_json(m[i].1))))
}

pub open spec fn domain_json(d: DomainV) -> JsonV {
    JsonV::Object(seq![
        ("user_agent"@, match d.user_agent {
            Some(u) => JsonV::Str(u),
            None => JsonV::Null,
        }),
        ("cookies"@, JsonV::Object(Seq::new(d.cookies.len(), |i: int| (d.cookies[i].0, JsonV::Str(d.cookies[i].1))))),
    ])
}

/// What `serde_json::to_vec_pretty` writes for a JSON value (objects in
/// insertion order), or the text of its error.
pub uninterp spec fn json_pretty_of(j: JsonV) -> Result<Seq<u8>, Seq<char>>;

/// Encodes `j` with `serde_json::to_vec_pretty`. The contract claims only
/// that the outcome is a function of the JSON value, named `json_pretty_of`.
#[verifier::external_body]
fn json_encode_pretty(j: &Json) -> (r: Result<Vec<u8>, String>)
    ensures
        match r {
            Ok(b) => json_pretty_of(j@) == Ok::<Seq<u8>, Seq<char>>(b@),
            Err(e) => json_pretty_of(j@) == Err::<Seq<u8>, Seq<char>>(e@),
        },
{
    match serde_json::to_vec_pretty(&serde_value(j)) {
        Ok(bytes) => Ok(bytes),
        Err(error) => Err(error.to_string()),
    }
}

fn domain_from_json(v: &Json) -> (r: CloudflareDomain)
    ensures
        r@ == domain_of_json(v@),
        keys_sorted(r@.cookies),
{
    let empty: Vec<(String, Json)> = Vec::new();
    proof {
        lemma_jfields_len(empty@);
        assert(jfields_view(empty@) =~= Seq::<(Seq<char>, JsonV)>::empty());
    }
    let fields = match v {
        Json::Object(f) => f,
        _ => &empty,
    };
    let user_agent = match json_field(fields, "user_agent") {
        Some(Json::String(u)) => Some(u.clone()),
        _ => None,
    };
    let mut cookies: Vec<(String, String)> = Vec::new();
    proof {
        assert(cookie_pairs(cookies@) =~= Seq::<(Seq<char>, Seq<char>)>::empty());
    }
    match json_field(fields, "cookies") {
        Some(Json::Object(c)) => {
            let ghost cv = jfields_view(c@);
            proof {
                lemma_jfields_len(c@);
                assert(cv.take(0) =~= Seq::<(Seq<char>, JsonV)>::empty());
            }
            let mut i: usize = 0;
            while i < c.len()
                invariant
                    cv == jfields_view(c@),
                    cv.len() == c@.len(),
                    i <= c@.len(),
                    cookie_pairs(cookies@) == cookies_of_json(cv.take(i as int)),
                    keys_sorted(cookie_pairs(cookies@)),
                decreases c@.len() - i,
            {
                proof {
                    lemma_jfields_index(c@, i as int);
                    assert(cv.take(i + 1).drop_last() =~= cv.take(i as int));
                    assert(cv.take(i + 1).last() == cv[i as int]);
                }
                match &c[i].1 {
                    Json::String(value) => {
                        set_cookie(&mut cookies, c[i].0.as_str(), value.as_str());
                    },
                    _ => {},
                }
                i = i + 1;
            }
            proof {
                assert(cv.take(i as int) =~= cv);
            }
        },
        _ => {},
    }
    CloudflareDomain { user_agent, cookies }
}

impl CloudflareStore {
    /// Sets the domain `key` to `domain`.
    fn put_domain(&mut self, key: String, domain: CloudflareDomain)
        requires
            store_wf(old(self)@),
            keys_sorted(domain@.cookies),
        ensures
            store_wf(final(self)@),
            final(self)@ == upsert(old(self)@, key@, domain@),
    {
        let ghost before = self@;
        let ghost dv = domain@;
        let (p, found) = self.find(key.as_str());
        if found {
            self.domains.remove(p);
        }
        self.domains.insert(p, (key, domain));
        proof {
            if found {
                assert(self@ =~= before.update(p as int, (key@, dv)));
            } else {
                assert(self@ =~= before.insert(p as int, (key@, dv)));
            }
            law_upsert_sorted(before, key@, dv);
            assert forall|i: int| 0 <= i < self@.len() implies keys_sorted((#[trigger] self@[i]).1.cookies) by {
                if i != p {
                    if found || i < p {
                        assert(self@[i] == before[i]);
                    } else {
                        assert(self@[i] == before[i - 1]);
                    }
                }
            }
        }
    }

    /// The store that a store file's bytes hold (see `parsed_store`).
    pub fn from_bytes(bytes: &[u8]) -> (r: Result<Self, ExecutionError>)
        ensures
            match parsed_store(bytes@) {
                Ok(m) => r matches Ok(s) && s@ == m && store_wf(s@),
                Err(m) => r matches Err(e) && e@ == (m, None::<crate::source::Span>),
            },
    {
        let value = match json_parse_bytes(bytes) {
            Ok(v) => v,
            Err(error) => {
                let mut message = "failed to parse Cloudflare cookie store: ".to_owned();
                string_push_str(&mut message, error.as_str());
                return Err(ExecutionError::from_message(message, None));
            },
        };
        let mut store = CloudflareStore::new();
        match &value {
            Json::Object(hosts) => {
                let ghost hv = jfields_view(hosts@);
                proof {
                    lemma_jfields_len(hosts@);
                    assert(hv.take(0) =~= Seq::<(Seq<char>, JsonV)>::empty());
                }
                let mut i: usize = 0;
                while i < hosts.len()
                    invariant
                        hv == jfields_view(hosts@),
                        hv.len() == hosts@.len(),
                        i <= hosts@.len(),
                        store@ == store_of_json(hv.take(i as int)),
                        store_wf(store@),
                    decreases hosts@.len() - i,
                {
                    proof {
                        lemma_jfields_index(hosts@, i as int);
                        assert(hv.take(i + 1).drop_last() =~= hv.take(i as int));
                        assert(hv.take(i + 1).last() == hv[i as int]);
                    }
                    let domain = domain_from_json(&hosts[i].1);
                    store.put_domain(hosts[i].0.clone(), domain);
                    i = i + 1;
                }
                proof {
                    assert(hv.take(i as int) =~= hv);
                }
            },
            _ => {},
        }
        Ok(store)
    }

    /// The bytes of the store file for this store (see `store_json`).
    pub fn to_bytes(&self) -> (r: Result<Vec<u8>, String>)
        ensures
            match json_pretty_of(store_json(self@)) {
                Ok(b) => r matches Ok(x) && x@ == b,
                Err(e) => r matches Err(x) && x@ == e,
            },
    {
        let mut hosts: Vec<(String, Json)> = Vec::new();
        let ghost target = store_json(self@)->Object_0;
        let mut i: usize = 0;
        proof {
            lemma_jfields_len(hosts@);
        }
        while i < self.domains.len()
            invariant
                target == store_json(self@)->Object_0,
                self@ == domains_view(self.domains@),
                i <= self.domains@.len(),
                jfields_view(hosts@) == target.take(i as int),
            decreases self.domains@.len() - i,
        {
            let domain = &self.domains[i].1;
            let ua = match &domain.user_agent {
                Some(u) => Json::String(u.clone()),
                None => Json::Null,
            };
            let mut cookies: Vec<(String, Json)> = Vec::new();
            let ghost cv = domain@.cookies;
            let mut k: usize = 0;
            proof {
                lemma_jfields_len(cookies@);
                assert(jfields_view(cookies@) =~= Seq::<(Seq<char>, JsonV)>::empty());
            }
            while k < domain.cookies.len()
                invariant
                    cv == cookie_pairs(domain.cookies@),
                    k <= domain.cookies@.len(),
                    jfields_view(cookies@) == Seq::new(cv.len(), |j: int| (cv[j].0, JsonV::Str(cv[j].1))).take(k as int),
                decreases domain.cookies@.len() - k,
            {
                let entry = (domain.cookies[k].0.clone(), Json::String(domain.cookies[k].1.clone()));
                let ghost e = entry;
                proof {
                    lemma_jfields_push(cookies@, e);
                }
                cookies.push(entry);
                proof {
                    assert(jfields_view(cookies@) =~= Seq::new(cv.len(), |j: int| (cv[j].0, JsonV::Str(cv[j].1))).take(k + 1));
                }
                k = k + 1;
            }
            proof {
                assert(Seq::new(cv.len(), |j: int| (cv[j].0, JsonV::Str(cv[j].1))).take(k as int)
                    =~= Seq::new(cv.len(), |j: int| (cv[j].0, JsonV::Str(cv[j].1))));
            }
            let f0 = ("user_agent".to_owned(), ua);
            let f1 = ("cookies".to_owned(), Json::Object(cookies));
            let ghost (g0, g1) = (f0, f1);
            let mut fields: Vec<(String, Json)> = Vec::new();
            fields.push(f0);
            fields.push(f1);
            proof {
                assert(fields@ =~= seq![g0, g1]);
                assert(seq![g0, g1] =~= seq![g0].push(g1));
                assert(seq![g0] =~= Seq::<(String, Json)>::empty().push(g0));
                lemma_jfields_push(Seq::<(String, Json)>::empty(), g0);
                lemma_jfields_push(seq![g0], g1);
                assert(jfields_view(Seq::<(String, Json)>::empty()) =~= Seq::<(Seq<char>, JsonV)>::empty());
                assert(jfields_view(fields@) =~= domain_json(self@[i as int].1)->Object_0);
            }
            let entry = (self.domains[i].0.clone(), Json::Object(fields));
            let ghost e = entry;
            proof {
                lemma_jfields_push(hosts@, e);
            }
            hosts.push(entry);
            proof {
                assert(jfields_view(hosts@) =~= target.take(i + 1));
            }
            i = i + 1;
        }
        proof {
            assert(target.take(i as int) =~= target);
        }
        let json = Json::Object(hosts);
        json_encode_pretty(&json)
    }
}

} // verus!
