//! The runtime's value kinds, errors, test report, HTTP request and policy
//! types, and the reading of the Cloudflare bypass helper's output.

use vstd::prelude::*;
use vstd::utf8::{valid_utf8, decode_utf8};
use crate::source::Span;
use crate::text::{
    char_is_whitespace, chars_of, push_decimal, decimal, replace_all, replaced, str_eq, string_from_range,
    string_push_str, unicode_whitespace,
};

verus! {

// ---------------------------------------------------------------------------
// Value kinds and errors
// ---------------------------------------------------------------------------

/// The kind of a runtime value.
#[derive(Clone, Copy, Debug, PartialEq, Eq, Structural)]
pub enum ValueKind {
    Null,
    Boolean,
    Number,
    String,
    Array,
    Object,
    HtmlDocument,
    HtmlNode,
    Response,
}

/// How a value kind is named in messages.
pub open spec fn kind_name(k: ValueKind) -> Seq<char> {
    match k {
        ValueKind::Null => "null"@,
        ValueKind::Boolean => "boolean"@,
        ValueKind::Number => "number"@,
        ValueKind::String => "string"@,
        ValueKind::Array => "array"@,
        ValueKind::Object => "object"@,
        ValueKind::HtmlDocument => "HTML document"@,
        ValueKind::HtmlNode => "HTML node"@,
        ValueKind::Response => "HTTP response"@,
    }
}

impl ValueKind {
    /// The name of the kind, as messages show it.
    pub fn name(self) -> (r: &'static str)
        ensures
            r@ == kind_name(self),
    {
        match self {
            ValueKind::Null => "null",
            ValueKind::Boolean => "boolean",
            ValueKind::Number => "number",
            ValueKind::String => "string",
            ValueKind::Array => "array",
            ValueKind::Object => "object",
            ValueKind::HtmlDocument => "HTML document",
            ValueKind::HtmlNode => "HTML node",
            ValueKind::Response => "HTTP response",
        }
    }

    pub fn to_string(self) -> (r: String)
        ensures
            r@ == kind_name(self),
    {
        self.name().to_owned()
    }
}

/// A value of the wrong kind.
#[derive(Clone, Debug, PartialEq, Eq)]
pub struct TypeError {
    expected: &'static str,
    actual: ValueKind,
}

impl View for TypeError {
    type V = (Seq<char>, ValueKind);

    closed spec fn view(&self) -> (Seq<char>, ValueKind) {
        (self.expected@, self.actual)
    }
}

impl TypeError {
    pub fn new(expected: &'static str, actual: ValueKind) -> (r: Self)
        ensures
            r@ == (expected@, actual),
    {
        TypeError { expected, actual }
    }

    /// `expected <what>, got <kind>`.
    pub fn to_string(&self) -> (r: String)
        ensures
            r@ == "expected "@ + self@.0 + ", got "@ + kind_name(self@.1),
    {
        let mut out = String::new();
        string_push_str(&mut out, "expected ");
        string_push_str(&mut out, self.expected);
        string_push_str(&mut out, ", got ");
        string_push_str(&mut out, self.actual.name());
        proof {
            assert(out@ =~= "expected "@ + self@.0 + ", got "@ + kind_name(self@.1));
        }
        out
    }
}

/// A value that cannot be serialized, with the path where it was found.
#[derive(Clone, Debug, PartialEq, Eq)]
pub struct SerializationError {
    path: String,
    kind: ValueKind,
}

impl View for SerializationError {
    type V = (Seq<char>, ValueKind);

    closed spec fn view(&self) -> (Seq<char>, ValueKind) {
        (self.path@, self.kind)
    }
}

impl SerializationError {
    pub fn unsupported(path: String, kind: ValueKind) -> (r: Self)
        ensures
            r@ == (path@, kind),
    {
        SerializationError { path, kind }
    }

    pub fn path(&self) -> (r: &str)
        ensures
            r@ == self@.0,
    {
        self.path.as_str()
    }

    pub fn kind(&self) -> (r: ValueKind)
        ensures
            r == self@.1,
    {
        self.kind
    }

    /// `cannot serialize <kind> at <path>`.
    pub fn to_string(&self) -> (r: String)
        ensures
            r@ == "cannot serialize "@ + kind_name(self@.1) + " at "@ + self@.0,
    {
        let mut out = String::new();
        string_push_str(&mut out, "cannot serialize ");
        string_push_str(&mut out, self.kind.name());
        string_push_str(&mut out, " at ");
        string_push_str(&mut out, self.path.as_str());
        proof {
            assert(out@ =~= "cannot serialize "@ + kind_name(self@.1) + " at "@ + self@.0);
        }
        out
    }
}

/// A message reported while running a program, with its place in the
/// source when it has one.
#[derive(Clone, Debug, PartialEq)]
pub struct Diagnostic {
    message: String,
    span: Option<Span>,
}

impl View for Diagnostic {
    type V = (Seq<char>, Option<Span>);

    closed spec fn view(&self) -> (Seq<char>, Option<Span>) {
        (self.message@, self.span)
    }
}

impl Diagnostic {
    pub fn new(message: &str, span: Option<Span>) -> (r: Self)
        ensures
            r@ == (message@, span),
    {
        Diagnostic { message: message.to_owned(), span }
    }

    pub fn message(&self) -> (r: &str)
        ensures
            r@ == self@.0,
    {
        self.message.as_str()
    }

    pub fn span(&self) -> (r: Option<Span>)
        ensures
            r == self@.1,
    {
        self.span
    }
}

/// An error that stopped a program.
#[derive(Clone, Debug, PartialEq)]
pub struct ExecutionError {
    message: String,
    span: Option<Span>,
}

impl View for ExecutionError {
    type V = (Seq<char>, Option<Span>);

    closed spec fn view(&self) -> (Seq<char>, Option<Span>) {
        (self.message@, self.span)
    }
}

impl ExecutionError {
    pub fn new(message: &str, span: Option<Span>) -> (r: Self)
        ensures
            r@ == (message@, span),
    {
        ExecutionError { message: message.to_owned(), span }
    }

    pub fn from_message(message: String, span: Option<Span>) -> (r: Self)
        ensures
            r@ == (message@, span),
    {
        ExecutionError { message, span }
    }

    /// The error a type error becomes: its message, with no span.
    pub fn from_type_error(error: TypeError) -> (r: Self)
        ensures
            r@ == ("expected "@ + error@.0 + ", got "@ + kind_name(error@.1), None::<Span>),
    {
        ExecutionError { message: error.to_string(), span: None }
    }

    pub fn message(&self) -> (r: &str)
        ensures
            r@ == self@.0,
    {
        self.message.as_str()
    }

    pub fn span(&self) -> (r: Option<Span>)
        ensures
            r == self@.1,
    {
        self.span
    }

    /// The message, as the error displays.
    pub fn to_string(&self) -> (r: String)
        ensures
            r@ == self@.0,
    {
        self.message.clone()
    }
}

/// How many of a program's tests ran and how many passed.
#[derive(Clone, Copy, Debug, PartialEq, Eq)]
pub struct TestReport {
    total: usize,
    passed: usize,
}

impl View for TestReport {
    type V = (usize, usize);

    closed spec fn view(&self) -> (usize, usize) {
        (self.total, self.passed)
    }
}

impl TestReport {
    pub fn new(total: usize, passed: usize) -> (r: Self)
        ensures
            r@ == (total, passed),
    {
        TestReport { total, passed }
    }

    pub fn total(&self) -> (r: usize)
        ensures
            r == self@.0,
    {
        self.total
    }

    pub fn passed(&self) -> (r: usize)
        ensures
            r == self@.1,
    {
        self.passed
    }
}

// ---------------------------------------------------------------------------
// HTML values
// ---------------------------------------------------------------------------

/// An HTML document, kept as its source text.
#[derive(Clone, Debug, PartialEq, Eq)]
pub struct HtmlDocument {
    source: String,
}

impl View for HtmlDocument {
    type V = Seq<char>;

    closed spec fn view(&self) -> Seq<char> {
        self.source@
    }
}

impl HtmlDocument {
    pub fn parse(source: &str) -> (r: Self)
        ensures
            r@ == source@,
    {
        HtmlDocument { source: source.to_owned() }
    }

    pub fn source(&self) -> (r: &str)
        ensures
            r@ == self@,
    {
        self.source.as_str()
    }
}

/// A fragment of HTML with the tag of its root element.
#[derive(Clone, Debug, PartialEq, Eq)]
pub struct HtmlNode {
    fragment: String,
    root_tag: String,
}

impl View for HtmlNode {
    type V = (Seq<char>, Seq<char>);

    closed spec fn view(&self) -> (Seq<char>, Seq<char>) {
        (self.fragment@, self.root_tag@)
    }
}

impl HtmlNode {
    pub fn new(fragment: &str, root_tag: &str) -> (r: Self)
        ensures
            r@ == (fragment@, root_tag@),
    {
        HtmlNode { fragment: fragment.to_owned(), root_tag: root_tag.to_owned() }
    }

    pub fn fragment(&self) -> (r: &str)
        ensures
            r@ == self@.0,
    {
        self.fragment.as_str()
    }

    pub fn root_tag(&self) -> (r: &str)
        ensures
            r@ == self@.1,
    {
        self.root_tag.as_str()
    }
}

// ---------------------------------------------------------------------------
// HTTP requests and policy
// ---------------------------------------------------------------------------

#[derive(Clone, Copy, Debug, PartialEq, Eq, Structural)]
pub enum HttpMethod {
    Get,
    Post,
}

pub struct HttpRequestV {
    pub url: Seq<char>,
    pub method: HttpMethod,
    pub body: Option<Seq<u8>>,
    pub content_type: Option<Seq<char>>,
    pub headers: Option<Seq<(Seq<char>, Seq<char>)>>,
    pub cloudflare: bool,
}

pub open spec fn opt_headers(h: Option<Vec<(String, String)>>) -> Option<Seq<(Seq<char>, Seq<char>)>> {
    match h {
        Some(v) => Some(header_pairs(v@)),
        None => None,
    }
}

/// A request that a program asks the host to send.
#[derive(Clone, Debug, PartialEq, Eq)]
pub struct HttpRequest {
    url: String,
    method: HttpMethod,
    body: Option<Vec<u8>>,
    content_type: Option<String>,
    headers: Option<Vec<(String, String)>>,
    cloudflare: bool,
}

impl View for HttpRequest {
    type V = HttpRequestV;

    closed spec fn view(&self) -> HttpRequestV {
        HttpRequestV {
            url: self.url@,
            method: self.method,
            body: match self.body {
                Some(b) => Some(b@),
                None => None,
            },
            content_type: match self.content_type {
                Some(c) => Some(c@),
                None => None,
            },
            headers: opt_headers(self.headers),
            cloudflare: self.cloudflare,
        }
    }
}

impl HttpRequest {
    /// A GET request for `url`, with no body, not through Cloudflare.
    pub fn get(url: &str, headers: Option<Vec<(String, String)>>) -> (r: Self)
        ensures
            r@ == (HttpRequestV {
                url: url@,
                method: HttpMethod::Get,
                body: None,
                content_type: None,
                headers: opt_headers(headers),
                cloudflare: false,
            }),
    {
        HttpRequest { url: url.to_owned(), method: HttpMethod::Get, body: None, content_type: None, headers, cloudflare: false }
    }

    /// A POST request for `url` with the given body and content type.
    pub fn post(
        url: &str,
        body: Option<Vec<u8>>,
        headers: Option<Vec<(String, String)>>,
        content_type: Option<String>,
    ) -> (r: Self)
        ensures
            r@.url == url@,
            r@.method == HttpMethod::Post,
            r@.body == (match body {
                Some(b) => Some(b@),
                None => None::<Seq<u8>>,
            }),
            r@.content_type == (match content_type {
                Some(c) => Some(c@),
                None => None::<Seq<char>>,
            }),
            r@.headers == opt_headers(headers),
            !r@.cloudflare,
    {
        HttpRequest { url: url.to_owned(), method: HttpMethod::Post, body, content_type, headers, cloudflare: false }
    }

    /// The same request, sent through Cloudflare or not.
    pub fn with_cloudflare(self, cloudflare: bool) -> (r: Self)
        ensures
            r@ == (HttpRequestV { cloudflare, ..self@ }),
    {
        HttpRequest {
            url: self.url,
            method: self.method,
            body: self.body,
            content_type: self.content_type,
            headers: self.headers,
            cloudflare,
        }
    }

    pub fn url(&self) -> (r: &str)
        ensures
            r@ == self@.url,
    {
        self.url.as_str()
    }

    pub fn method(&self) -> (r: HttpMethod)
        ensures
            r == self@.method,
    {
        self.method
    }

    pub fn body(&self) -> (r: Option<&[u8]>)
        ensures
            match r {
                Some(b) => self@.body == Some(b@),
                None => self@.body is None,
            },
    {
        match &self.body {
            Some(b) => Some(b.as_slice()),
            None => None,
        }
    }

    pub fn content_type(&self) -> (r: Option<&str>)
        ensures
            match r {
                Some(c) => self@.content_type == Some(c@),
                None => self@.content_type is None,
            },
    {
        match &self.content_type {
            Some(c) => Some(c.as_str()),
            None => None,
        }
    }

    pub fn cloudflare(&self) -> (r: bool)
        ensures
            r == self@.cloudflare,
    {
        self.cloudflare
    }
}

/// Choosing whether a request goes through Cloudflare keeps everything
/// else about it, and choosing the same again changes nothing.
pub proof fn law_with_cloudflare_keeps_the_request(r: HttpRequestV, cloudflare: bool)
    ensures
        (HttpRequestV { cloudflare, ..r }).url == r.url,
        (HttpRequestV { cloudflare, ..r }).method == r.method,
        (HttpRequestV { cloudflare, ..r }).body == r.body,
        (HttpRequestV { cloudflare, ..r }).content_type == r.content_type,
        (HttpRequestV { cloudflare, ..r }).headers == r.headers,
        (HttpRequestV { cloudflare, ..r }).cloudflare == cloudflare,
        (HttpRequestV { cloudflare, ..(HttpRequestV { cloudflare, ..r }) }) == (HttpRequestV { cloudflare, ..r }),
{
}

pub struct HttpPolicyV {
    pub allowed_schemes: Set<Seq<char>>,
    pub max_response_bytes: usize,
}

/// Which URL schemes a program may fetch and how large a response may be.
#[derive(Clone, Debug)]
pub struct HttpPolicy {
    allowed_schemes: Vec<String>,
    max_response_bytes: usize,
}

/// Whether some string of `v` has the characters `x`.
pub open spec fn in_strings(v: Seq<String>, x: Seq<char>) -> bool {
    exists|i: int| 0 <= i < v.len() && v[i]@ == x
}

proof fn lemma_in_strings_push(v: Seq<String>, s: String, x: Seq<char>)
    ensures
        in_strings(v.push(s), x) <==> (in_strings(v, x) || s@ == x),
{
    let w = v.push(s);
    if in_strings(w, x) {
        let j = choose|j: int| 0 <= j < w.len() && w[j]@ == x;
        if j < v.len() {
            assert(v[j]@ == x);
        }
    }
    if in_strings(v, x) {
        let j = choose|j: int| 0 <= j < v.len() && v[j]@ == x;
        assert(w[j]@ == x);
    }
    if s@ == x {
        assert(w[v.len() as int]@ == x);
    }
}

/// The character sequences of the strings of `v`.
pub open spec fn strings_set(v: Seq<String>) -> Set<Seq<char>> {
    Set::new(|x: Seq<char>| in_strings(v, x))
}

impl View for HttpPolicy {
    type V = HttpPolicyV;

    closed spec fn view(&self) -> HttpPolicyV {
        HttpPolicyV {
            allowed_schemes: strings_set(self.allowed_schemes@),
            max_response_bytes: self.max_response_bytes,
        }
    }
}

/// The default response limit, 8 MiB.
pub const DEFAULT_MAX_RESPONSE_BYTES: usize = 8388608;

impl Default for HttpPolicy {
    /// `http` and `https`, and responses of at most 8 MiB.
    fn default() -> (r: Self)
        ensures
            r@.allowed_schemes == set!["http"@, "https"@],
            r@.max_response_bytes == DEFAULT_MAX_RESPONSE_BYTES,
    {
        let mut allowed_schemes: Vec<String> = Vec::new();
        allowed_schemes.push("http".to_owned());
        allowed_schemes.push("https".to_owned());
        let r = HttpPolicy { allowed_schemes, max_response_bytes: DEFAULT_MAX_RESPONSE_BYTES };
        proof {
            assert(r@.allowed_schemes =~= set!["http"@, "https"@]) by {
                assert(r.allowed_schemes@[0]@ == "http"@);
                assert(r.allowed_schemes@[1]@ == "https"@);
            }
        }
        r
    }
}

fn contains_str(v: &Vec<String>, s: &str) -> (r: bool)
    ensures
        r == in_strings(v@, s@),
{
    let mut i: usize = 0;
    while i < v.len()
        invariant
            i <= v@.len(),
            forall|j: int| 0 <= j < i ==> v@[j]@ != s@,
        decreases v@.len() - i,
    {
        if str_eq(v[i].as_str(), s) {
            return true;
        }
        i = i + 1;
    }
    false
}

impl HttpPolicy {
    /// The same policy allowing exactly the given schemes.
    pub fn allow_schemes(self, schemes: Vec<String>) -> (r: Self)
        ensures
            r@.allowed_schemes == strings_set(schemes@),
            r@.max_response_bytes == self@.max_response_bytes,
    {
        let mut allowed: Vec<String> = Vec::new();
        let mut i: usize = 0;
        while i < schemes.len()
            invariant
                i <= schemes@.len(),
                forall|x: Seq<char>| #[trigger] in_strings(allowed@, x) <==> in_strings(schemes@.take(i as int), x),
            decreases schemes@.len() - i,
        {
            let s = schemes[i].as_str();
            let present = contains_str(&allowed, s);
            let ghost before = allowed@;
            if !present {
                allowed.push(s.to_owned());
            }
            proof {
                let pre = schemes@.take(i as int);
                let post = schemes@.take(i + 1);
                assert(post =~= pre.push(schemes@[i as int]));
                assert forall|x: Seq<char>| #[trigger] in_strings(allowed@, x) <==> in_strings(post, x) by {
                    lemma_in_strings_push(pre, schemes@[i as int], x);
                    if !present {
                        lemma_in_strings_push(before, allowed@.last(), x);
                        assert(allowed@ =~= before.push(allowed@.last()));
                    }
                }
            }
            i = i + 1;
        }
        let r = HttpPolicy { allowed_schemes: allowed, max_response_bytes: self.max_response_bytes };
        proof {
            assert(schemes@.take(schemes@.len() as int) =~= schemes@);
            assert(r@.allowed_schemes =~= strings_set(schemes@));
        }
        r
    }

    /// The same policy with another response limit.
    pub fn max_response_bytes(self, bytes: usize) -> (r: Self)
        ensures
            r@.allowed_schemes == self@.allowed_schemes,
            r@.max_response_bytes == bytes,
    {
        let r = HttpPolicy { allowed_schemes: self.allowed_schemes, max_response_bytes: bytes };
        proof {
            assert(r@.allowed_schemes =~= self@.allowed_schemes);
        }
        r
    }

    /// Accepts a parsed URL whose scheme the policy allows: the verdict on
    /// the outcome of parsing (its scheme, or the parse error's text).
    pub fn scheme_verdict(&self, parsed: Result<String, String>) -> (r: Result<(), ExecutionError>)
        ensures
            match parsed {
                Ok(scheme) => if self@.allowed_schemes.contains(scheme@) {
                    r is Ok
                } else {
                    r matches Err(e) && e@ == ("URL scheme `"@ + scheme@ + "` is not allowed"@, None::<Span>)
                },
                Err(text) => r matches Err(e) && e@ == ("invalid URL: "@ + text@, None::<Span>),
            },
    {
        match parsed {
            Ok(scheme) => {
                if contains_str(&self.allowed_schemes, scheme.as_str()) {
                    Ok(())
                } else {
                    let mut m = String::new();
                    string_push_str(&mut m, "URL scheme `");
                    string_push_str(&mut m, scheme.as_str());
                    string_push_str(&mut m, "` is not allowed");
                    proof {
                        assert(m@ =~= "URL scheme `"@ + scheme@ + "` is not allowed"@);
                    }
                    Err(ExecutionError::from_message(m, None))
                }
            },
            Err(text) => {
                let mut m = String::new();
                string_push_str(&mut m, "invalid URL: ");
                string_push_str(&mut m, text.as_str());
                proof {
                    assert(m@ =~= "invalid URL: "@ + text@);
                }
                Err(ExecutionError::from_message(m, None))
            },
        }
    }

    /// Checks that `url` parses and that the policy allows its scheme.
    pub fn validate_url(&self, url: &str) -> (r: Result<(), ExecutionError>)
        ensures
            match parsed_url_of(url@) {
                Ok((scheme, _)) => if self@.allowed_schemes.contains(scheme) {
                    r is Ok
                } else {
                    r matches Err(e) && e@ == ("URL scheme `"@ + scheme + "` is not allowed"@, None::<Span>)
                },
                Err(text) => r matches Err(e) && e@ == ("invalid URL: "@ + text, None::<Span>),
            },
    {
        let parsed = match parse_url(url) {
            Ok((scheme, _)) => Ok(scheme),
            Err(text) => Err(text),
        };
        self.scheme_verdict(parsed)
    }

    /// Accepts a response body no longer than the policy's limit.
    pub fn validate_response(&self, body: &[u8]) -> (r: Result<(), ExecutionError>)
        ensures
            body@.len() <= self@.max_response_bytes ==> r is Ok,
            body@.len() > self@.max_response_bytes ==> (r matches Err(e) && e@ == (
                "response body exceeds "@ + decimal(self@.max_response_bytes as nat) + " byte limit"@,
                None::<Span>,
            )),
    {
        if body.len() <= self.max_response_bytes {
            Ok(())
        } else {
            let mut m = String::new();
            string_push_str(&mut m, "response body exceeds ");
            push_decimal(&mut m, self.max_response_bytes);
            string_push_str(&mut m, " byte limit");
            proof {
                assert(m@ =~= "response body exceeds "@ + decimal(self@.max_response_bytes as nat) + " byte limit"@);
            }
            Err(ExecutionError::from_message(m, None))
        }
    }
}

/// What `reqwest::Url::parse` makes of a URL: its scheme and host, or the
/// text of the parse error.
pub uninterp spec fn parsed_url_of(url: Seq<char>) -> Result<(Seq<char>, Option<Seq<char>>), Seq<char>>;

/// Parses `url` with `reqwest::Url::parse` and reads the parsed URL's
/// `scheme` and `host_str`. The contract claims only that the outcome (the
/// scheme and host, or the displayed parse error) is a function of the URL
/// text, named `parsed_url_of`; what the parser accepts is left unsaid.
#[verifier::external_body]
pub(crate) fn parse_url(url: &str) -> (r: Result<(String, Option<String>), String>)
    ensures
        match r {
            Ok((scheme, host)) => parsed_url_of(url@) == Ok::<(Seq<char>, Option<Seq<char>>), Seq<char>>((
                scheme@,
                match host {
                    Some(h) => Some(h@),
                    None => None,
                },
            )),
            Err(e) => parsed_url_of(url@) == Err::<(Seq<char>, Option<Seq<char>>), Seq<char>>(e@),
        },
{
    match reqwest::Url::parse(url) {
        Ok(parsed) => {
            let host = match parsed.host_str() {
                Some(h) => Some(h.to_owned()),
                None => None,
            };
            Ok((parsed.scheme().to_owned(), host))
        },
        Err(error) => Err(format!("{error}")),
    }
}

// ---------------------------------------------------------------------------
// The Cloudflare bypass helper's output
// ---------------------------------------------------------------------------

/// The clearance cookie and user agent that the bypass helper prints.
#[derive(Clone, Debug, PartialEq, Eq)]
pub struct CloudflareBypass {
    pub cf_clearance: String,
    pub user_agent: String,
}

/// `s` without leading whitespace.
pub open spec fn trim_start(s: Seq<char>) -> Seq<char>
    decreases s.len(),
{
    if s.len() > 0 && unicode_whitespace(s[0]) {
        trim_start(s.drop_first())
    } else {
        s
    }
}

/// `s` without trailing whitespace.
pub open spec fn trim_end(s: Seq<char>) -> Seq<char>
    decreases s.len(),
{
    if s.len() > 0 && unicode_whitespace(s.last()) {
        trim_end(s.drop_last())
    } else {
        s
    }
}

/// `s` without leading and trailing whitespace (`str::trim`).
pub open spec fn trim(s: Seq<char>) -> Seq<char> {
    trim_end(trim_start(s))
}

/// The position of the first line break of `s` at or after `i`, or the
/// length of `s`.
pub open spec fn line_end(s: Seq<char>, i: int) -> int
    decreases s.len() - i,
{
    if i < 0 || i >= s.len() {
        s.len() as int
    } else if s[i] == '\n' {
        i
    } else {
        line_end(s, i + 1)
    }
}

/// The first line of `s` (empty when `s` is), without its line ending.
pub open spec fn first_line(s: Seq<char>) -> Seq<char> {
    let e = line_end(s, 0);
    let line = s.take(e);
    if e < s.len() && line.len() > 0 && line.last() == '\r' {
        line.drop_last()
    } else {
        line
    }
}

/// What follows the first line break of `s` (empty when there is none).
pub open spec fn after_first_line(s: Seq<char>) -> Seq<char> {
    let e = line_end(s, 0);
    if e < s.len() {
        s.skip(e + 1)
    } else {
        seq![]
    }
}

/// The message when a line is missing.
pub open spec fn bypass_missing_message() -> Seq<char> {
    "Cloudflare bypass output must contain cf_clearance and user agent"@
}

/// What the bypass helper's output gives: the trimmed first line as the
/// clearance cookie and the trimmed second line as the user agent, both
/// required to be nonempty.
pub open spec fn bypass_result(text: Seq<char>) -> Result<(Seq<char>, Seq<char>), Seq<char>> {
    let cf = trim(first_line(text));
    let ua = trim(first_line(after_first_line(text)));
    if cf.len() == 0 || ua.len() == 0 {
        Err(bypass_missing_message())
    } else {
        Ok((cf, ua))
    }
}

/// The text of the error that `std::str::from_utf8` reports for bytes that
/// are not UTF-8.
pub uninterp spec fn utf8_error_text(bytes: Seq<u8>) -> Seq<char>;

/// Decodes UTF-8 (`std::str::from_utf8`). The contract claims that decoding
/// succeeds exactly on valid UTF-8, giving the decoded characters, and that
/// a failure's displayed text is a function of the bytes.
#[verifier::external_body]
fn utf8_text(bytes: &[u8]) -> (r: Result<String, String>)
    ensures
        match r {
            Ok(t) => valid_utf8(bytes@) && t@ == decode_utf8(bytes@),
            Err(e) => !valid_utf8(bytes@) && e@ == utf8_error_text(bytes@),
        },
{
    match std::str::from_utf8(bytes) {
        Ok(text) => Ok(text.to_owned()),
        Err(error) => Err(format!("{error}")),
    }
}

/// The trimmed characters `a..b` of `chars`.
pub(crate) fn trimmed_range(chars: &Vec<char>, a: usize, b: usize) -> (r: String)
    requires
        a <= b <= chars@.len(),
    ensures
        r@ == trim(chars@.subrange(a as int, b as int)),
{
    let ghost s = chars@.subrange(a as int, b as int);
    let mut i = a;
    while i < b && char_is_whitespace(chars[i])
        invariant
            a <= i <= b <= chars@.len(),
            s == chars@.subrange(a as int, b as int),
            trim_start(s) == trim_start(chars@.subrange(i as int, b as int)),
        decreases b - i,
    {
        proof {
            assert(chars@.subrange(i as int, b as int).drop_first() =~= chars@.subrange(i + 1, b as int));
        }
        i = i + 1;
    }
    proof {
        assert(trim_start(chars@.subrange(i as int, b as int)) == chars@.subrange(i as int, b as int));
    }
    let mut j = b;
    while j > i && char_is_whitespace(chars[j - 1])
        invariant
            a <= i <= j <= b <= chars@.len(),
            trim(s) == trim_end(chars@.subrange(i as int, j as int)),
        decreases j - i,
    {
        proof {
            assert(chars@.subrange(i as int, j as int).drop_last() =~= chars@.subrange(i as int, j - 1));
        }
        j = j - 1;
    }
    string_from_range(chars, i, j)
}

fn line_end_exec(chars: &Vec<char>, i: usize) -> (r: usize)
    requires
        i <= chars@.len(),
    ensures
        r as int == line_end(chars@, i as int),
        i <= r <= chars@.len(),
{
    let mut k = i;
    while k < chars.len() && chars[k] != '\n'
        invariant
            i <= k <= chars@.len(),
            line_end(chars@, i as int) == line_end(chars@, k as int),
        decreases chars@.len() - k,
    {
        k = k + 1;
    }
    k
}

/// Reads the bypass helper's output: the clearance cookie on the first
/// line and the user agent on the second, each trimmed.
pub fn parse_bypass_output(stdout: &[u8]) -> (r: Result<CloudflareBypass, ExecutionError>)
    ensures
        !valid_utf8(stdout@) ==> (r matches Err(e) && e@ == (
            "Cloudflare bypass output is not UTF-8: "@ + utf8_error_text(stdout@),
            None::<Span>,
        )),
        valid_utf8(stdout@) ==> match bypass_result(decode_utf8(stdout@)) {
            Ok((cf, ua)) => r matches Ok(b) && b.cf_clearance@ == cf && b.user_agent@ == ua,
            Err(m) => r matches Err(e) && e@ == (m, None::<Span>),
        },
{
    let text = match utf8_text(stdout) {
        Ok(t) => t,
        Err(error) => {
            let mut m = String::new();
            string_push_str(&mut m, "Cloudflare bypass output is not UTF-8: ");
            string_push_str(&mut m, error.as_str());
            proof {
                assert(m@ =~= "Cloudflare bypass output is not UTF-8: "@ + utf8_error_text(stdout@));
            }
            return Err(ExecutionError::from_message(m, None));
        },
    };
    let chars = chars_of(text.as_str());
    let ghost s = chars@;
    let e1 = line_end_exec(&chars, 0);
    let end1 = if e1 < chars.len() && e1 > 0 && chars[e1 - 1] == '\r' {
        e1 - 1
    } else {
        e1
    };
    proof {
        assert(s.take(e1 as int) =~= s.subrange(0, e1 as int));
        if e1 < s.len() && e1 > 0 && s[e1 - 1] == '\r' {
            assert(s.take(e1 as int).drop_last() =~= s.subrange(0, end1 as int));
        }
        assert(first_line(s) =~= s.subrange(0, end1 as int));
    }
    let clearance = trimmed_range(&chars, 0, end1);
    let start2 = if e1 < chars.len() {
        e1 + 1
    } else {
        chars.len()
    };
    let e2 = line_end_exec(&chars, start2);
    let ghost rest = after_first_line(s);
    proof {
        assert(rest =~= s.subrange(start2 as int, s.len() as int));
        assert forall|k: int| 0 <= k <= rest.len() implies line_end(rest, k) == line_end(s, start2 + k) - start2 by {
            lemma_line_end_shift(s, start2 as int, k);
        }
        assert(line_end(rest, 0) == e2 - start2);
    }
    let end2 = if e2 < chars.len() && e2 > start2 && chars[e2 - 1] == '\r' {
        e2 - 1
    } else {
        e2
    };
    proof {
        assert(rest.take(e2 - start2) =~= s.subrange(start2 as int, e2 as int));
        if e2 < s.len() && e2 > start2 && s[e2 - 1] == '\r' {
            assert(rest.take(e2 - start2).drop_last() =~= s.subrange(start2 as int, end2 as int));
        }
        assert(first_line(rest) =~= s.subrange(start2 as int, end2 as int));
    }
    let agent = trimmed_range(&chars, start2, end2);
    if clearance.as_str().is_empty() || agent.as_str().is_empty() {
        return Err(ExecutionError::new("Cloudflare bypass output must contain cf_clearance and user agent", None));
    }
    Ok(CloudflareBypass { cf_clearance: clearance, user_agent: agent })
}

/// Line ends in a suffix of `s` are those of `s`, shifted.
proof fn lemma_line_end_shift(s: Seq<char>, a: int, k: int)
    requires
        0 <= a <= s.len(),
        0 <= k <= s.len() - a,
    ensures
        line_end(s.subrange(a, s.len() as int), k) == line_end(s, a + k) - a,
    decreases s.len() - a - k,
{
    let r = s.subrange(a, s.len() as int);
    if k < r.len() {
        assert(r[k] == s[a + k]);
        if s[a + k] != '\n' {
            lemma_line_end_shift(s, a, k + 1);
        }
    }
}


// ---------------------------------------------------------------------------
// HTTP responses
// ---------------------------------------------------------------------------

pub struct ResponseV {
    pub status: u16,
    pub url: Seq<char>,
    pub headers: Seq<(Seq<char>, Seq<char>)>,
    pub body: Seq<u8>,
}

pub open spec fn header_pairs(headers: Seq<(String, String)>) -> Seq<(Seq<char>, Seq<char>)> {
    headers.map_values(|h: (String, String)| (h.0@, h.1@))
}

/// A response that a fetch received.
#[derive(Clone, Debug, PartialEq, Eq)]
pub struct Response {
    status: u16,
    url: String,
    headers: Vec<(String, String)>,
    body: Vec<u8>,
}

impl View for Response {
    type V = ResponseV;

    closed spec fn view(&self) -> ResponseV {
        ResponseV { status: self.status, url: self.url@, headers: header_pairs(self.headers@), body: self.body@ }
    }
}

/// The text of a body: its UTF-8 decoding, or the message of the failure.
pub open spec fn response_text(body: Seq<u8>) -> Result<Seq<char>, Seq<char>> {
    if valid_utf8(body) {
        Ok(decode_utf8(body))
    } else {
        Err("response is not UTF-8: "@ + utf8_error_text(body))
    }
}

/// The source a response's HTML document is parsed from: its text with
/// `noscript` elements renamed, so their content is parsed as markup.
pub open spec fn html_source(text: Seq<char>) -> Seq<char> {
    replaced(replaced(text, "<noscript>"@, "<notscript>"@), "</noscript>"@, "</notscript>"@)
}

impl Response {
    pub fn new(status: u16, url: &str, body: Vec<u8>) -> (r: Self)
        ensures
            r@ == (ResponseV { status, url: url@, headers: Seq::empty(), body: body@ }),
    {
        let r = Response { status, url: url.to_owned(), headers: Vec::new(), body };
        proof {
            assert(r@.headers =~= Seq::<(Seq<char>, Seq<char>)>::empty());
        }
        r
    }

    pub fn new_with_headers(status: u16, url: &str, body: Vec<u8>, headers: Vec<(String, String)>) -> (r: Self)
        ensures
            r@ == (ResponseV { status, url: url@, headers: header_pairs(headers@), body: body@ }),
    {
        Response { status, url: url.to_owned(), headers, body }
    }

    pub fn status(&self) -> (r: u16)
        ensures
            r == self@.status,
    {
        self.status
    }

    pub fn url(&self) -> (r: &str)
        ensures
            r@ == self@.url,
    {
        self.url.as_str()
    }

    pub fn body(&self) -> (r: &[u8])
        ensures
            r@ == self@.body,
    {
        self.body.as_slice()
    }

    pub fn headers(&self) -> (r: &[(String, String)])
        ensures
            header_pairs(r@) == self@.headers,
    {
        self.headers.as_slice()
    }

    /// A response with the same status, URL, headers and body.
    pub fn duplicate(&self) -> (r: Self)
        ensures
            r@ == self@,
    {
        let mut headers: Vec<(String, String)> = Vec::new();
        let mut i: usize = 0;
        while i < self.headers.len()
            invariant
                i <= self.headers@.len(),
                headers@.len() == i,
                forall|k: int| 0 <= k < i ==> (#[trigger] headers@[k]).0@ == self.headers@[k].0@ && headers@[k].1@ == self.headers@[k].1@,
            decreases self.headers@.len() - i,
        {
            let pair = (self.headers[i].0.clone(), self.headers[i].1.clone());
            headers.push(pair);
            i = i + 1;
        }
        let mut body: Vec<u8> = Vec::new();
        let mut j: usize = 0;
        while j < self.body.len()
            invariant
                j <= self.body@.len(),
                body@ == self.body@.take(j as int),
            decreases self.body@.len() - j,
        {
            body.push(self.body[j]);
            proof {
                assert(body@ =~= self.body@.take(j + 1));
            }
            j = j + 1;
        }
        proof {
            assert(header_pairs(headers@) =~= header_pairs(self.headers@));
            assert(self.body@.take(j as int) =~= self.body@);
        }
        Response { status: self.status, url: self.url.clone(), headers, body }
    }

    /// The body decoded as UTF-8 (see `response_text`).
    pub fn text(&self) -> (r: Result<String, ExecutionError>)
        ensures
            match response_text(self@.body) {
                Ok(t) => r matches Ok(s) && s@ == t,
                Err(m) => r matches Err(e) && e@ == (m, None::<Span>),
            },
    {
        match utf8_text(self.body.as_slice()) {
            Ok(t) => Ok(t),
            Err(text) => {
                let mut m = "response is not UTF-8: ".to_owned();
                string_push_str(&mut m, text.as_str());
                Err(ExecutionError::from_message(m, None))
            },
        }
    }

    /// The body's text as an HTML document (see `html_source`).
    pub fn html(&self) -> (r: Result<HtmlDocument, ExecutionError>)
        ensures
            match response_text(self@.body) {
                Ok(t) => r matches Ok(d) && d@ == html_source(t),
                Err(m) => r matches Err(e) && e@ == (m, None::<Span>),
            },
    {
        let text = self.text()?;
        proof {
            reveal_strlit("<noscript>");
            reveal_strlit("</noscript>");
        }
        let renamed = replace_all(text.as_str(), "<noscript>", "<notscript>");
        let renamed = replace_all(renamed.as_str(), "</noscript>", "</notscript>");
        Ok(HtmlDocument::parse(renamed.as_str()))
    }
}

} // verus!
