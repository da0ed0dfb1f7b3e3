//! What the command-line tool computes: its errors, the rendering of a
//! failed compile, and the key under which it caches HTTP responses.

use vstd::prelude::*;
use vstd::utf8::encode_utf8;
use crate::diagnostic::{CompileError, DiagnosticV};
use crate::formatter::fmt_program;
use crate::program::{CompiledProgram, compile, spec_compile};
use crate::render::{render, rendered};
use crate::input::{InputError, field_get};
use crate::runtime::{ExecutionError, HttpMethod, HttpRequest, HttpRequestV, Response, ResponseV};
use crate::source::Span;
use crate::text::string_push_str;
use crate::value::{
    Json, JsonV, json_bytes_of, json_encoding_of, json_parse_bytes, json_view, jfields_view, jsons_view,
    json_field, lemma_jfields_len, lemma_jfields_push, lemma_jsons_index, lemma_jsons_len,
    lemma_jsons_push, number_as_u64, number_from_usize, number_of_usize, number_u64,
};

verus! {

// ---------------------------------------------------------------------------
// Errors
// ---------------------------------------------------------------------------

/// A command-line failure: the message to print and the process exit code.
#[derive(Debug, PartialEq, Eq)]
pub struct CliError {
    message: String,
    exit_code: u8,
}

impl View for CliError {
    type V = (Seq<char>, u8);

    closed spec fn view(&self) -> (Seq<char>, u8) {
        (self.message@, self.exit_code)
    }
}

impl CliError {
    pub fn new(message: String, exit_code: u8) -> (r: Self)
        ensures
            r@ == (message@, exit_code),
    {
        CliError { message, exit_code }
    }

    /// Reading standard input failed with `error`.
    pub fn stdin(error: &str) -> (r: Self)
        ensures
            r@ == ("stdin: error: failed to read input: "@ + error@, 1u8),
    {
        let mut message = "stdin: error: failed to read input: ".to_owned();
        string_push_str(&mut message, error);
        CliError { message, exit_code: 1 }
    }

    pub fn exit_code(&self) -> (r: u8)
        ensures
            r == self@.1,
    {
        self.exit_code
    }

    /// The message, as the error displays itself.
    pub fn message(&self) -> (r: &str)
        ensures
            r@ == self@.0,
    {
        self.message.as_str()
    }
}

/// `path: error: message`.
pub fn file_error(path: &str, message: &str) -> (r: String)
    ensures
        r@ == path@ + ": error: "@ + message@,
{
    let mut r = path.to_owned();
    string_push_str(&mut r, ": error: ");
    string_push_str(&mut r, message);
    r
}

/// Writing to `stream` failed with `error`.
pub fn stream_error(stream: &str, error: &str) -> (r: CliError)
    ensures
        r@ == (stream@ + ": error: failed to write output: "@ + error@, 1u8),
{
    let mut message = stream.to_owned();
    string_push_str(&mut message, ": error: failed to write output: ");
    string_push_str(&mut message, error);
    CliError { message, exit_code: 1 }
}

// ---------------------------------------------------------------------------
// Failed compiles
// ---------------------------------------------------------------------------

/// Each diagnostic rendered as an error at its span, one per line.
pub open spec fn rendered_errors(path: Seq<char>, source: Seq<char>, ds: Seq<DiagnosticV>) -> Seq<char>
    decreases ds.len(),
{
    if ds.len() == 0 {
        seq![]
    } else if ds.len() == 1 {
        rendered(path, source, "error"@, ds[0].message, Some(ds[0].span))
    } else {
        rendered_errors(path, source, ds.drop_last()) + "\n"@
            + rendered(path, source, "error"@, ds.last().message, Some(ds.last().span))
    }
}

/// A failed compile as the command-line error it is reported as.
fn compile_failure(path: &str, source: &str, error: &CompileError) -> (r: CliError)
    ensures
        r@ == (rendered_errors(path@, source@, error@), 1u8),
{
    let ds = error.diagnostics();
    let mut message = String::new();
    let mut i: usize = 0;
    proof {
        assert(error@.take(0) =~= Seq::<DiagnosticV>::empty());
    }
    while i < ds.len()
        invariant
            error@ == crate::diagnostic::diags_view(ds@),
            i <= ds@.len(),
            message@ == rendered_errors(path@, source@, error@.take(i as int)),
        decreases ds@.len() - i,
    {
        if i > 0 {
            string_push_str(&mut message, "\n");
        }
        let line = render(path, source, "error", ds[i].message(), Some(ds[i].primary_span()));
        string_push_str(&mut message, line.as_str());
        proof {
            let next = error@.take(i + 1);
            assert(next.drop_last() =~= error@.take(i as int));
            assert(next.last() == ds@[i as int]@);
            if i == 0 {
                assert(next.len() == 1);
                assert(message@ =~= rendered_errors(path@, source@, next));
            } else {
                assert(message@ =~= rendered_errors(path@, source@, next));
            }
        }
        i = i + 1;
    }
    proof {
        assert(error@.take(ds@.len() as int) =~= error@);
    }
    CliError { message, exit_code: 1 }
}

/// Compiles `source`, read from `path`; a failure renders every diagnostic.
pub fn compile_source(path: &str, source: &str) -> (r: Result<CompiledProgram, CliError>)
    ensures
        match spec_compile(source@) {
            Ok((p, reqs)) => r matches Ok(c) && c@ == (source@, p, reqs),
            Err(ds) => r matches Err(e) && e@ == (rendered_errors(path@, source@, ds), 1u8),
        },
{
    match compile(source) {
        Ok(program) => Ok(program),
        Err(error) => Err(compile_failure(path, source, &error)),
    }
}

/// The text `fmt` prints for `source`, read from `path`; a failure renders
/// every diagnostic.
pub fn format_source(path: &str, source: &str) -> (r: Result<String, CliError>)
    ensures
        match spec_compile(source@) {
            Ok((p, _)) => r matches Ok(text) && text@ == fmt_program(p),
            Err(ds) => r matches Err(e) && e@ == (rendered_errors(path@, source@, ds), 1u8),
        },
{
    match crate::formatter::format(source) {
        Ok(text) => Ok(text),
        Err(error) => Err(compile_failure(path, source, &error)),
    }
}

// ---------------------------------------------------------------------------
// Response cache keys
// ---------------------------------------------------------------------------

/// One step of the 64-bit FNV-1a hash.
pub open spec fn fnv_step(h: u64, b: u8) -> u64 {
    (h ^ (b as u64)).wrapping_mul(0x100000001b3u64)
}

/// The FNV-1a hash of `bytes`, starting from `h`.
pub open spec fn fnv(h: u64, bytes: Seq<u8>) -> u64
    decreases bytes.len(),
{
    if bytes.len() == 0 {
        h
    } else {
        fnv_step(fnv(h, bytes.drop_last()), bytes.last())
    }
}

pub open spec fn method_name(m: HttpMethod) -> Seq<char> {
    match m {
        HttpMethod::Get => "GET"@,
        HttpMethod::Post => "POST"@,
    }
}

/// The cache key of a request: the hash of its method, URL, content type
/// and body, in that order, from the FNV offset basis.
pub open spec fn spec_request_hash(r: HttpRequestV) -> u64 {
    let h = fnv(0xcbf29ce484222325u64, encode_utf8(method_name(r.method)));
    let h = fnv(h, encode_utf8(r.url));
    let h = match r.content_type {
        Some(c) => fnv(h, encode_utf8(c)),
        None => h,
    };
    match r.body {
        Some(b) => fnv(h, b),
        None => h,
    }
}

/// Folds `bytes` into `hash`.
pub fn update_hash(hash: &mut u64, bytes: &[u8])
    ensures
        *final(hash) == fnv(*old(hash), bytes@),
{
    let mut i: usize = 0;
    while i < bytes.len()
        invariant
            i <= bytes@.len(),
            *hash == fnv(*old(hash), bytes@.take(i as int)),
        decreases bytes@.len() - i,
    {
        proof {
            assert(bytes@.take(i + 1).drop_last() =~= bytes@.take(i as int));
        }
        *hash = *hash ^ (bytes[i] as u64);
        *hash = hash.wrapping_mul(0x100000001b3u64);
        i = i + 1;
    }
    proof {
        assert(bytes@.take(bytes@.len() as int) =~= bytes@);
    }
}

/// The key under which a request's response is cached.
pub fn request_hash(request: &HttpRequest) -> (r: u64)
    ensures
        r == spec_request_hash(request@),
{
    let mut hash: u64 = 0xcbf29ce484222325u64;
    let method = match request.method() {
        HttpMethod::Get => "GET",
        HttpMethod::Post => "POST",
    };
    update_hash(&mut hash, method.as_bytes());
    update_hash(&mut hash, request.url().as_bytes());
    if let Some(content_type) = request.content_type() {
        update_hash(&mut hash, content_type.as_bytes());
    }
    if let Some(body) = request.body() {
        update_hash(&mut hash, body);
    }
    hash
}

/// Hashing two pieces one after the other is hashing them joined, so a key
/// may be computed piece by piece.
pub proof fn law_fnv_concat(h: u64, a: Seq<u8>, b: Seq<u8>)
    ensures
        fnv(fnv(h, a), b) == fnv(h, a + b),
    decreases b.len(),
{
    if b.len() == 0 {
        assert(a + b =~= a);
    } else {
        law_fnv_concat(h, a, b.drop_last());
        assert((a + b).drop_last() =~= a + b.drop_last());
        assert((a + b).last() == b.last());
    }
}

/// An assignment or `--variables` that cannot be read: exit code 2.
pub fn variable_error(error: InputError) -> (r: CliError)
    ensures
        r@ == (error.0@, 2u8),
{
    CliError::new(error.0, 2)
}

// ---------------------------------------------------------------------------
// Cached responses
// ---------------------------------------------------------------------------

/// The JSON a response is cached as: its status, URL and body bytes.
pub open spec fn cached_json_of(r: ResponseV) -> JsonV {
    JsonV::Object(seq![
        ("status"@, JsonV::Number(number_of_usize(r.status as usize))),
        ("url"@, JsonV::Str(r.url)),
        ("body"@, JsonV::Array(Seq::new(r.body.len(), |i: int| JsonV::Number(number_of_usize(r.body[i] as usize))))),
    ])
}

/// The bytes a response is cached as, or the error of encoding them.
pub open spec fn cached_bytes_of(r: ResponseV) -> Result<Seq<u8>, Seq<char>> {
    match json_encoding_of(cached_json_of(r)) {
        Ok(b) => Ok(b),
        Err(e) => Err("failed to encode cached response: "@ + e),
    }
}

/// Encodes `response` for the cache (see `cached_bytes_of`).
pub fn cached_response_bytes(response: &Response) -> (r: Result<Vec<u8>, ExecutionError>)
    ensures
        match cached_bytes_of(response@) {
            Ok(b) => r matches Ok(x) && x@ == b,
            Err(m) => r matches Err(e) && e@ == (m, None::<Span>),
        },
{
    let body = response.body();
    let mut bytes: Vec<Json> = Vec::new();
    let ghost expected = Seq::new(response@.body.len(), |i: int| JsonV::Number(number_of_usize(response@.body[i] as usize)));
    let mut i: usize = 0;
    while i < body.len()
        invariant
            body@ == response@.body,
            i <= body@.len(),
            expected == Seq::new(response@.body.len(), |i: int| JsonV::Number(number_of_usize(response@.body[i] as usize))),
            jsons_view(bytes@) == expected.take(i as int),
        decreases body@.len() - i,
    {
        let n = Json::Number(number_from_usize(body[i] as usize));
        proof {
            lemma_jsons_push(bytes@, n);
            assert(expected.take(i + 1) =~= expected.take(i as int).push(json_view(n)));
        }
        bytes.push(n);
        i = i + 1;
    }
    proof {
        assert(expected.take(i as int) =~= expected);
    }
    let status = Json::Number(number_from_usize(response.status() as usize));
    let url = Json::String(response.url().to_owned());
    let body_json = Json::Array(bytes);
    let mut fields: Vec<(String, Json)> = Vec::new();
    let f0 = ("status".to_owned(), status);
    let f1 = ("url".to_owned(), url);
    let f2 = ("body".to_owned(), body_json);
    let ghost (g0, g1, g2) = (f0, f1, f2);
    fields.push(f0);
    fields.push(f1);
    fields.push(f2);
    proof {
        assert(fields@ =~= seq![g0, g1, g2]);
        lemma_jfields_push(seq![], g0);
        lemma_jfields_push(seq![g0], g1);
        lemma_jfields_push(seq![g0, g1], g2);
        assert(seq![g0, g1, g2] =~= seq![g0, g1].push(g2));
        assert(seq![g0, g1] =~= seq![g0].push(g1));
        assert(seq![g0] =~= Seq::<(String, Json)>::empty().push(g0));
        assert(jfields_view(Seq::<(String, Json)>::empty()) =~= Seq::<(Seq<char>, JsonV)>::empty());
    }
    proof {
        let jf = jfields_view(fields@);
        assert(jf =~= seq![(g0.0@, json_view(g0.1)), (g1.0@, json_view(g1.1)), (g2.0@, json_view(g2.1))]);
        assert(json_view(g2.1) == JsonV::Array(expected));
        assert(jf =~= cached_json_of(response@)->Object_0);
    }
    let json = Json::Object(fields);
    match json.to_bytes() {
        Ok(b) => Ok(b),
        Err(error) => {
            let mut message = "failed to encode cached response: ".to_owned();
            string_push_str(&mut message, error.as_str());
            Err(ExecutionError::from_message(message, None))
        },
    }
}

/// The status a cached field holds: an integer that fits a `u16`.
pub open spec fn cached_status(v: Option<JsonV>) -> Option<u16> {
    match v {
        Some(JsonV::Number(n)) => match number_u64(n) {
            Some(u) => if u <= 0xffff { Some(u as u16) } else { None },
            None => None,
        },
        _ => None,
    }
}

/// The bytes cached items hold, when each is an integer that fits a `u8`.
pub open spec fn cached_body(items: Seq<JsonV>) -> Option<Seq<u8>>
    decreases items.len(),
{
    if items.len() == 0 {
        Some(seq![])
    } else {
        match cached_body(items.drop_last()) {
            None => None,
            Some(bytes) => match items.last() {
                JsonV::Number(n) => match number_u64(n) {
                    Some(u) => if u <= 0xff { Some(bytes.push(u as u8)) } else { None },
                    None => None,
                },
                _ => None,
            },
        }
    }
}

/// The response cached as `bytes`, or why it cannot be read back.
pub open spec fn cached_response_of(bytes: Seq<u8>) -> Result<ResponseV, Seq<char>> {
    match json_bytes_of(bytes) {
        Err(e) => Err("failed to parse cached response: "@ + e),
        Ok(v) => {
            let fields = match v {
                JsonV::Object(f) => f,
                _ => Seq::empty(),
            };
            match cached_status(field_get(fields, "status"@)) {
                None => Err("cached response status is invalid"@),
                Some(status) => match field_get(fields, "url"@) {
                    Some(JsonV::Str(url)) => match field_get(fields, "body"@) {
                        Some(JsonV::Array(items)) => match cached_body(items) {
                            Some(body) => Ok(ResponseV { status, url, headers: Seq::empty(), body }),
                            None => Err("cached response body byte is invalid"@),
                        },
                        _ => Err("cached response body is invalid"@),
                    },
                    _ => Err("cached response url is invalid"@),
                },
            }
        },
    }
}

fn cached_status_of(v: Option<&Json>) -> (r: Option<u16>)
    ensures
        r == cached_status(match v {
            Some(j) => Some(j@),
            None => None,
        }),
{
    match v {
        Some(Json::Number(n)) => match number_as_u64(n) {
            Some(u) => if u <= 0xffff { Some(u as u16) } else { None },
            None => None,
        },
        _ => None,
    }
}

fn cached_body_of(items: &Vec<Json>) -> (r: Option<Vec<u8>>)
    ensures
        match cached_body(jsons_view(items@)) {
            Some(b) => r matches Some(x) && x@ == b,
            None => r is None,
        },
{
    let ghost iv = jsons_view(items@);
    proof {
        lemma_jsons_len(items@);
        assert(iv.take(0) =~= Seq::<JsonV>::empty());
    }
    let mut out: Vec<u8> = Vec::new();
    let mut i: usize = 0;
    while i < items.len()
        invariant
            iv == jsons_view(items@),
            iv.len() == items@.len(),
            i <= items@.len(),
            cached_body(iv.take(i as int)) == Some(out@),
        decreases items@.len() - i,
    {
        proof {
            lemma_jsons_index(items@, i as int);
            assert(iv.take(i + 1).drop_last() =~= iv.take(i as int));
            assert(iv.take(i + 1).last() == iv[i as int]);
        }
        let byte = match &items[i] {
            Json::Number(n) => match number_as_u64(n) {
                Some(u) => if u <= 0xff { Some(u as u8) } else { None },
                None => None,
            },
            _ => None,
        };
        match byte {
            Some(b) => {
                out.push(b);
            },
            None => {
                proof {
                    lemma_cached_body_prefix(iv, i + 1);
                }
                return None;
            },
        }
        i = i + 1;
    }
    proof {
        assert(iv.take(i as int) =~= iv);
    }
    Some(out)
}

/// A byte that cannot be read among the first `k` items is one of them all.
proof fn lemma_cached_body_prefix(items: Seq<JsonV>, k: int)
    requires
        0 <= k <= items.len(),
        cached_body(items.take(k)) is None,
    ensures
        cached_body(items) is None,
    decreases items.len() - k,
{
    if k < items.len() {
        assert(items.take(k + 1).drop_last() =~= items.take(k));
        lemma_cached_body_prefix(items, k + 1);
    } else {
        assert(items.take(k) =~= items);
    }
}

/// Reads back a cached response (see `cached_response_of`).
pub fn cached_response_from_bytes(bytes: &[u8]) -> (r: Result<Response, ExecutionError>)
    ensures
        match cached_response_of(bytes@) {
            Ok(v) => r matches Ok(x) && x@ == v,
            Err(m) => r matches Err(e) && e@ == (m, None::<Span>),
        },
{
    let value = match json_parse_bytes(bytes) {
        Ok(value) => value,
        Err(error) => {
            let mut message = "failed to parse cached response: ".to_owned();
            string_push_str(&mut message, error.as_str());
            return Err(ExecutionError::from_message(message, None));
        },
    };
    let empty: Vec<(String, Json)> = Vec::new();
    proof {
        lemma_jfields_len(empty@);
        assert(jfields_view(empty@) =~= Seq::<(Seq<char>, JsonV)>::empty());
    }
    let fields = match &value {
        Json::Object(f) => f,
        _ => &empty,
    };
    let status = match cached_status_of(json_field(fields, "status")) {
        Some(s) => s,
        None => {
            return Err(ExecutionError::new("cached response status is invalid", None));
        },
    };
    let url = match json_field(fields, "url") {
        Some(Json::String(url)) => url,
        _ => {
            return Err(ExecutionError::new("cached response url is invalid", None));
        },
    };
    let items = match json_field(fields, "body") {
        Some(Json::Array(items)) => items,
        _ => {
            return Err(ExecutionError::new("cached response body is invalid", None));
        },
    };
    let body = match cached_body_of(items) {
        Some(b) => b,
        None => {
            return Err(ExecutionError::new("cached response body byte is invalid", None));
        },
    };
    Ok(Response::new(status, url.as_str(), body))
}

} // verus!
