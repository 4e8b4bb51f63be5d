use vstd::prelude::*;
use vstd::utf8::{decode_utf8, valid_utf8};

use crate::text::{
    decimal, index_of, is_digit, lemma_decimal, lemma_trim_space_digits, chars_of, contains_exec, contains_text, parse_unsigned, parse_unsigned_exec, split_char,
    split_crlf, split_crlf_exec, split_on, split_once, split_once_char, trim, trimmed,
};

verus! {

/// The request methods this server knows.
#[derive(Debug, Clone, Copy, PartialEq, Eq, Structural)]
pub enum HTTPMethod {
    POST,
    GET,
    PATCH,
    DELETE,
    PUT,
    OPTIONS,
}

/// The method whose upper-case name is `u`; any other text stands for `GET`.
pub open spec fn method_named(u: Seq<char>) -> HTTPMethod {
    if u == seq!['P', 'O', 'S', 'T'] {
        HTTPMethod::POST
    } else if u == seq!['P', 'A', 'T', 'C', 'H'] {
        HTTPMethod::PATCH
    } else if u == seq!['D', 'E', 'L', 'E', 'T', 'E'] {
        HTTPMethod::DELETE
    } else if u == seq!['P', 'U', 'T'] {
        HTTPMethod::PUT
    } else if u == seq!['O', 'P', 'T', 'I', 'O', 'N', 'S'] {
        HTTPMethod::OPTIONS
    } else {
        HTTPMethod::GET
    }
}

/// The name of a method, in upper case.
pub open spec fn method_name(m: HTTPMethod) -> Seq<char> {
    match m {
        HTTPMethod::POST => seq!['P', 'O', 'S', 'T'],
        HTTPMethod::GET => seq!['G', 'E', 'T'],
        HTTPMethod::PATCH => seq!['P', 'A', 'T', 'C', 'H'],
        HTTPMethod::DELETE => seq!['D', 'E', 'L', 'E', 'T', 'E'],
        HTTPMethod::PUT => seq!['P', 'U', 'T'],
        HTTPMethod::OPTIONS => seq!['O', 'P', 'T', 'I', 'O', 'N', 'S'],
    }
}

/// What `str::to_uppercase` makes of a text.
pub uninterp spec fn uppercase_of(s: Seq<char>) -> Seq<char>;

/// Relies on `str::to_uppercase`: the upper-case form of `s`, which depends on its
/// characters alone.
#[verifier::external_body]
fn to_uppercase(s: &str) -> (r: String)
    ensures
        r@ == uppercase_of(s@),
{
    s.to_uppercase()
}

impl HTTPMethod {
    /// The method whose name is `u`, already in upper case; unknown names give `GET`.
    pub fn from_upper(u: &str) -> (r: HTTPMethod)
        ensures
            r == method_named(u@),
    {
        proof {
            reveal_strlit("POST");
            assert("POST"@ =~= seq!['P', 'O', 'S', 'T']);
            reveal_strlit("PATCH");
            assert("PATCH"@ =~= seq!['P', 'A', 'T', 'C', 'H']);
            reveal_strlit("DELETE");
            assert("DELETE"@ =~= seq!['D', 'E', 'L', 'E', 'T', 'E']);
            reveal_strlit("PUT");
            assert("PUT"@ =~= seq!['P', 'U', 'T']);
            reveal_strlit("OPTIONS");
            assert("OPTIONS"@ =~= seq!['O', 'P', 'T', 'I', 'O', 'N', 'S']);
        }
        let s = u.to_owned();
        if s == String::from_str("POST") {
            HTTPMethod::POST
        } else if s == String::from_str("PATCH") {
            HTTPMethod::PATCH
        } else if s == String::from_str("DELETE") {
            HTTPMethod::DELETE
        } else if s == String::from_str("PUT") {
            HTTPMethod::PUT
        } else if s == String::from_str("OPTIONS") {
            HTTPMethod::OPTIONS
        } else {
            HTTPMethod::GET
        }
    }

    /// The name of the method, in upper case.
    pub fn to_string(&self) -> (r: String)
        ensures
            r@ == method_name(*self),
    {
        proof {
            reveal_strlit("POST");
            assert("POST"@ =~= seq!['P', 'O', 'S', 'T']);
            reveal_strlit("GET");
            assert("GET"@ =~= seq!['G', 'E', 'T']);
            reveal_strlit("PATCH");
            assert("PATCH"@ =~= seq!['P', 'A', 'T', 'C', 'H']);
            reveal_strlit("DELETE");
            assert("DELETE"@ =~= seq!['D', 'E', 'L', 'E', 'T', 'E']);
            reveal_strlit("PUT");
            assert("PUT"@ =~= seq!['P', 'U', 'T']);
            reveal_strlit("OPTIONS");
            assert("OPTIONS"@ =~= seq!['O', 'P', 'T', 'I', 'O', 'N', 'S']);
        }
        match self {
            HTTPMethod::POST => String::from_str("POST"),
            HTTPMethod::GET => String::from_str("GET"),
            HTTPMethod::PATCH => String::from_str("PATCH"),
            HTTPMethod::DELETE => String::from_str("DELETE"),
            HTTPMethod::PUT => String::from_str("PUT"),
            HTTPMethod::OPTIONS => String::from_str("OPTIONS"),
        }
    }
}

impl<'a> From<&'a str> for HTTPMethod {
    /// The method named `value` in any case; unknown names give `GET`.
    fn from(value: &'a str) -> (r: HTTPMethod) {
        let upper = to_uppercase(value);
        HTTPMethod::from_upper(upper.as_str())
    }
}

impl<'a> vstd::std_specs::convert::FromSpecImpl<&'a str> for HTTPMethod {
    open spec fn obeys_from_spec() -> bool {
        true
    }

    open spec fn from_spec(v: &'a str) -> HTTPMethod {
        method_named(uppercase_of(v@))
    }
}

/// A header line: name and value, both trimmed.
#[derive(Debug, Clone)]
pub struct HTTPHeader(pub String, pub String);

impl View for HTTPHeader {
    type V = (Seq<char>, Seq<char>);

    open spec fn view(&self) -> (Seq<char>, Seq<char>) {
        (self.0@, self.1@)
    }
}

/// A `key=value` pair of the query string.
#[derive(Debug, Clone)]
pub struct HTTPQuery(pub String, pub String);

impl View for HTTPQuery {
    type V = (Seq<char>, Seq<char>);

    open spec fn view(&self) -> (Seq<char>, Seq<char>) {
        (self.0@, self.1@)
    }
}

/// A parsed request.
#[derive(Debug)]
pub struct HTTPContext {
    pub method: HTTPMethod,
    pub http_version: String,
    pub headers: Vec<HTTPHeader>,
    pub path: String,
    pub queries: Vec<HTTPQuery>,
    pub body: Option<String>,
}

/// What a request holds, as plain values.
pub struct ContextView {
    pub method: HTTPMethod,
    pub http_version: Seq<char>,
    pub headers: Seq<(Seq<char>, Seq<char>)>,
    pub path: Seq<char>,
    pub queries: Seq<(Seq<char>, Seq<char>)>,
    pub body: Option<Seq<char>>,
}

pub open spec fn opt_text(o: Option<String>) -> Option<Seq<char>> {
    match o {
        Some(s) => Some(s@),
        None => None,
    }
}

impl View for HTTPContext {
    type V = ContextView;

    open spec fn view(&self) -> ContextView {
        ContextView {
            method: self.method,
            http_version: self.http_version@,
            headers: self.headers@.map_values(|h: HTTPHeader| h@),
            path: self.path@,
            queries: self.queries@.map_values(|q: HTTPQuery| q@),
            body: opt_text(self.body),
        }
    }
}

/// The header a line stands for: the text before and after its first `:`, trimmed.
pub open spec fn header_of(line: Seq<char>) -> Option<(Seq<char>, Seq<char>)> {
    match split_once(line, ':') {
        Some((k, v)) => Some((trim(k), trim(v))),
        None => None,
    }
}

/// The headers of `lines`, in order; lines without `:` are dropped.
pub open spec fn headers_of(lines: Seq<Seq<char>>) -> Seq<(Seq<char>, Seq<char>)>
    decreases lines.len(),
{
    if lines.len() == 0 {
        Seq::empty()
    } else {
        let p = headers_of(lines.drop_last());
        match header_of(lines.last()) {
            Some(h) => p.push(h),
            None => p,
        }
    }
}

/// The `key=value` pairs of `pieces`, in order; pieces without `=` are dropped.
pub open spec fn queries_of(pieces: Seq<Seq<char>>) -> Seq<(Seq<char>, Seq<char>)>
    decreases pieces.len(),
{
    if pieces.len() == 0 {
        Seq::empty()
    } else {
        let p = queries_of(pieces.drop_last());
        match split_once(pieces.last(), '=') {
            Some(q) => p.push(q),
            None => p,
        }
    }
}

/// A request target cut at its first `?`: the path, and the `&`-separated pieces
/// of the query string (none without a `?`).
pub open spec fn target_of(raw: Seq<char>) -> (Seq<char>, Seq<Seq<char>>) {
    match split_once(raw, '?') {
        Some((p, q)) => (p, split_on(q, '&')),
        None => (raw, Seq::empty()),
    }
}

/// The request that header text and body text stand for, if the start line has
/// at least three space-separated tokens.
pub open spec fn request_of(raw_headers: Seq<char>, raw_body: Seq<char>) -> Option<ContextView> {
    let lines = split_crlf(raw_headers);
    let start = split_on(lines[0], ' ');
    if start.len() < 3 {
        None
    } else {
        Some(
            ContextView {
                method: method_named(uppercase_of(start[0])),
                http_version: start[2],
                headers: headers_of(lines.drop_first()),
                path: target_of(start[1]).0,
                queries: queries_of(target_of(start[1]).1),
                body: if raw_body.len() == 0 {
                    None
                } else {
                    Some(raw_body)
                },
            },
        )
    }
}

/// The value of a `Content-Length` line: the number after its first `:`, or 0.
pub open spec fn content_length_of_line(line: Seq<char>) -> nat {
    match split_once(line, ':') {
        Some((_, v)) => match parse_unsigned(trim(v), usize::MAX as nat) {
            Some(n) => n,
            None => 0,
        },
        None => 0,
    }
}

pub open spec fn content_length_marker() -> Seq<char> {
    seq!['C', 'o', 'n', 't', 'e', 'n', 't', '-', 'L', 'e', 'n', 'g', 't', 'h']
}

/// The body length that header text announces: the value of the last line that
/// holds `Content-Length`, or 0 without such a line.
pub open spec fn content_length_in(lines: Seq<Seq<char>>) -> nat
    decreases lines.len(),
{
    if lines.len() == 0 {
        0
    } else if contains_text(lines.last(), content_length_marker()) {
        content_length_of_line(lines.last())
    } else {
        content_length_in(lines.drop_last())
    }
}

/// Only the line that holds `Content-Length` decides the body length: where exactly
/// one line holds it, the length is that line's value, whatever the other lines are
/// and in whatever order they come.
pub proof fn lemma_content_length_single_line(lines: Seq<Seq<char>>, k: int)
    requires
        0 <= k < lines.len(),
        contains_text(lines[k], content_length_marker()),
        forall|j: int|
            0 <= j < lines.len() && j != k ==> !contains_text(
                #[trigger] lines[j],
                content_length_marker(),
            ),
    ensures
        content_length_in(lines) == content_length_of_line(lines[k]),
    decreases lines.len(),
{
    if k != lines.len() - 1 {
        let t = lines.drop_last();
        assert forall|j: int|
            0 <= j < t.len() && j != k implies !contains_text(
            #[trigger] t[j],
            content_length_marker(),
        ) by {
            assert(t[j] == lines[j]);
        }
        assert(!contains_text(lines[lines.len() - 1], content_length_marker()));
        lemma_content_length_single_line(t, k);
    }
}

/// A line `Content-Length: <n>` announces `n` bytes, for any `n` that fits in `usize`.
pub proof fn lemma_content_length_value(n: nat)
    requires
        n <= usize::MAX,
    ensures
        content_length_of_line(content_length_marker() + seq![':', ' '] + decimal(n)) == n,
{
    let d = decimal(n);
    let line = content_length_marker() + seq![':', ' '] + d;
    lemma_decimal(n);
    let head = content_length_marker() + seq![':'];
    assert(line.take(15) =~= head);
    assert(index_of(head, ':') == Some(14int)) by {
        reveal_with_fuel(index_of, 16);
        assert(head.drop_last() =~= content_length_marker());
    }
    crate::text::lemma_index_of_extends(line, ':', 15);
    assert(line.subrange(15, line.len() as int) =~= seq![' '] + d);
    lemma_trim_space_digits(d);
    assert(d[0] != '+') by {
        assert(is_digit(d[0]));
    }
}

/// Header lines of which exactly one holds `Content-Length`, written
/// `Content-Length: <n>`, announce a body of exactly `n` bytes, whatever the other
/// lines say and in whatever order they come.
pub proof fn lemma_announced_length(lines: Seq<Seq<char>>, k: int, n: nat)
    requires
        n <= usize::MAX,
        0 <= k < lines.len(),
        lines[k] == content_length_marker() + seq![':', ' '] + decimal(n),
        forall|j: int|
            0 <= j < lines.len() && j != k ==> !contains_text(
                #[trigger] lines[j],
                content_length_marker(),
            ),
    ensures
        content_length_in(lines) == n,
{
    let line = lines[k];
    assert(line.subrange(0, 14) =~= content_length_marker());
    assert(crate::text::occurs_at(line, content_length_marker(), 0));
    lemma_content_length_single_line(lines, k);
    lemma_content_length_value(n);
}

/// A line read from the connection that ends the header block: one shorter than
/// three bytes.
pub open spec fn ends_headers(line_len: nat) -> bool {
    line_len < 3
}

/// Whether a line of `line_len` bytes ends the header block.
pub fn ends_header_block(line_len: usize) -> (r: bool)
    ensures
        r == ends_headers(line_len as nat),
{
    line_len < 3
}

/// The header a `(name, value)` pair stands for, both sides trimmed.
pub fn to_header(pair: Option<(&str, &str)>) -> (r: Option<HTTPHeader>)
    ensures
        match pair {
            Some((k, v)) => r matches Some(h) && h@ == (trim(k@), trim(v@)),
            None => r is None,
        },
{
    match pair {
        Some((key, value)) => Some(HTTPHeader(trimmed(key), trimmed(value))),
        None => None,
    }
}

/// The headers of the given lines, in order; lines without `:` are dropped.
pub fn parse_headers(raw_headers: &Vec<String>) -> (r: Vec<HTTPHeader>)
    ensures
        r@.map_values(|h: HTTPHeader| h@) == headers_of(raw_headers.deep_view()),
{
    let mut r: Vec<HTTPHeader> = Vec::new();
    let mut i: usize = 0;
    while i < raw_headers.len()
        invariant
            i <= raw_headers@.len(),
            r@.map_values(|h: HTTPHeader| h@) == headers_of(raw_headers.deep_view().take(i as int)),
        decreases raw_headers.len() - i,
    {
        let ghost prev = r@.map_values(|h: HTTPHeader| h@);
        assert(raw_headers.deep_view().take(i + 1).drop_last() =~= raw_headers.deep_view().take(
            i as int,
        ));
        assert(raw_headers.deep_view().take(i + 1).last() == raw_headers@[i as int]@);
        match split_once_char(raw_headers[i].as_str(), ':') {
            Some((k, v)) => {
                let h = to_header(Some((k.as_str(), v.as_str())));
                match h {
                    Some(h) => {
                        r.push(h);
                        assert(r@.map_values(|h: HTTPHeader| h@) =~= prev.push(r@.last()@));
                    },
                    None => {},
                }
            },
            None => {},
        }
        i = i + 1;
    }
    assert(raw_headers.deep_view().take(i as int) =~= raw_headers.deep_view());
    r
}

/// The `key=value` pairs of the given pieces, in order; pieces without `=` are dropped.
pub fn parse_queries(raw_query: &Vec<String>) -> (r: Vec<HTTPQuery>)
    ensures
        r@.map_values(|q: HTTPQuery| q@) == queries_of(raw_query.deep_view()),
{
    let mut r: Vec<HTTPQuery> = Vec::new();
    let mut i: usize = 0;
    while i < raw_query.len()
        invariant
            i <= raw_query@.len(),
            r@.map_values(|q: HTTPQuery| q@) == queries_of(raw_query.deep_view().take(i as int)),
        decreases raw_query.len() - i,
    {
        let ghost prev = r@.map_values(|q: HTTPQuery| q@);
        assert(raw_query.deep_view().take(i + 1).drop_last() =~= raw_query.deep_view().take(
            i as int,
        ));
        assert(raw_query.deep_view().take(i + 1).last() == raw_query@[i as int]@);
        match split_once_char(raw_query[i].as_str(), '=') {
            Some((k, v)) => {
                r.push(HTTPQuery(k, v));
                assert(r@.map_values(|q: HTTPQuery| q@) =~= prev.push(r@.last()@));
            },
            None => {},
        }
        i = i + 1;
    }
    assert(raw_query.deep_view().take(i as int) =~= raw_query.deep_view());
    r
}

/// A request target cut into its path and the pieces of its query string.
pub fn parse_path(raw_path: &str) -> (r: (String, Vec<String>))
    ensures
        r.0@ == target_of(raw_path@).0,
        r.1.deep_view() == target_of(raw_path@).1,
{
    match split_once_char(raw_path, '?') {
        Some((path, query)) => (path, split_char(query.as_str(), '&')),
        None => {
            let r = (raw_path.to_owned(), Vec::new());
            assert(r.1.deep_view() =~= Seq::<Seq<char>>::empty());
            r
        },
    }
}

/// Builds a request from its header text and its body text; `None` when the start
/// line has fewer than three space-separated tokens.
pub fn build_request(raw_headers: &str, raw_body: &str) -> (r: Option<HTTPContext>)
    ensures
        match request_of(raw_headers@, raw_body@) {
            Some(v) => r matches Some(ctx) && ctx@ == v,
            None => r is None,
        },
{
    let mut lines = split_crlf_exec(raw_headers);
    let ghost all = lines.deep_view();
    proof {
        crate::text::lemma_split_crlf_len(raw_headers@);
    }
    let start_line = lines.remove(0);
    assert(start_line@ == all[0]);
    proof {
        crate::text::lemma_split_on_len(start_line@, ' ');
    }
    assert(lines.deep_view() =~= all.drop_first());
    let start_parts = split_char(start_line.as_str(), ' ');
    if start_parts.len() < 3 {
        return None;
    }
    let method = HTTPMethod::from(start_parts[0].as_str());
    let (path, raw_queries) = parse_path(start_parts[1].as_str());
    let queries = parse_queries(&raw_queries);
    let headers = parse_headers(&lines);
    let body = if !raw_body.is_empty() {
        Some(raw_body.to_owned())
    } else {
        None
    };
    let ctx = HTTPContext {
        method,
        http_version: start_parts[2].clone(),
        headers,
        path,
        queries,
        body,
    };
    assert(ctx@.body == (if raw_body@.len() == 0 {
        None
    } else {
        Some(raw_body@)
    }));
    Some(ctx)
}

/// Builds a request from a header block as read off the connection, terminating
/// lines included: the block is trimmed first, then built as `build_request` does.
pub fn parse_request(raw_headers: &str, raw_body: &str) -> (r: Option<HTTPContext>)
    ensures
        match request_of(trim(raw_headers@), raw_body@) {
            Some(v) => r matches Some(ctx) && ctx@ == v,
            None => r is None,
        },
{
    let text = trimmed(raw_headers);
    build_request(text.as_str(), raw_body)
}

/// What `String::from_utf8_lossy` makes of some bytes.
pub uninterp spec fn lossy_text_of(bytes: Seq<u8>) -> Seq<char>;

/// Relies on `String::from_utf8_lossy`: the bytes decoded as UTF-8, each invalid
/// sequence replaced; valid UTF-8 decodes as it is.
#[verifier::external_body]
fn from_utf8_lossy(bytes: &[u8]) -> (r: String)
    ensures
        r@ == lossy_text_of(bytes@),
        valid_utf8(bytes@) ==> r@ == decode_utf8(bytes@),
{
    String::from_utf8_lossy(bytes).to_string()
}

/// The body text for the bytes read after the header block: UTF-8, with each
/// invalid sequence replaced rather than refused.
pub fn decode_body(bytes: &[u8]) -> (r: String)
    ensures
        r@ == lossy_text_of(bytes@),
        valid_utf8(bytes@) ==> r@ == decode_utf8(bytes@),
{
    from_utf8_lossy(bytes)
}

/// The number after the first `:` of a header line, trimmed; 0 when there is no
/// `:` or the rest is not a number that fits in `usize`.
pub fn get_content_length(header: &str) -> (r: usize)
    ensures
        r as nat == content_length_of_line(header@),
{
    match split_once_char(header, ':') {
        Some((_, value)) => {
            let t = trimmed(value.as_str());
            let cs = chars_of(t.as_str());
            match parse_unsigned_exec(&cs, usize::MAX) {
                Some(n) => n,
                None => 0,
            }
        },
        None => 0,
    }
}

/// The body length that the header block announces: the value of its last line
/// (lines end at `\n`) that holds `Content-Length`, or 0 without one.
pub fn content_length(raw_headers: &str) -> (r: usize)
    ensures
        r as nat == content_length_in(split_on(raw_headers@, '\n')),
{
    proof {
        reveal_strlit("Content-Length");
    }
    let marker = chars_of("Content-Length");
    assert(marker@ == content_length_marker());
    let lines = split_char(raw_headers, '\n');
    let mut r: usize = 0;
    let mut i: usize = lines.len();
    assert(lines.deep_view().take(i as int) =~= lines.deep_view());
    while i > 0
        invariant
            i <= lines@.len(),
            lines.deep_view() == split_on(raw_headers@, '\n'),
            marker@ == content_length_marker(),
            content_length_in(lines.deep_view()) == content_length_in(
                lines.deep_view().take(i as int),
            ),
        decreases i,
    {
        let ghost pre = lines.deep_view().take(i as int);
        assert(pre.drop_last() =~= lines.deep_view().take(i - 1));
        assert(pre.last() == lines@[i - 1]@);
        let cs = chars_of(lines[i - 1].as_str());
        if contains_exec(&cs, &marker) {
            return get_content_length(lines[i - 1].as_str());
        }
        i = i - 1;
    }
    assert(lines.deep_view().take(0) =~= Seq::<Seq<char>>::empty());
    0
}

} // verus!
