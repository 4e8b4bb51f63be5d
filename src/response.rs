use vstd::prelude::*;

use crate::text::{decimal, decimal_string};
use vstd::utf8::encode_utf8;

verus! {

/// A response: status code, headers in the order they were set, optional body.
#[derive(Debug)]
pub struct HttpResponse {
    status_code: u16,
    headers: Vec<(String, String)>,
    body: Option<String>,
}

/// What a response holds, as plain values.
pub struct ResponseView {
    pub status: u16,
    pub headers: Seq<(Seq<char>, Seq<char>)>,
    pub body: Option<Seq<char>>,
}

impl View for HttpResponse {
    type V = ResponseView;

    closed spec fn view(&self) -> ResponseView {
        ResponseView {
            status: self.status_code,
            headers: self.headers@.map_values(|h: (String, String)| (h.0@, h.1@)),
            body: match self.body {
                Some(b) => Some(b@),
                None => None,
            },
        }
    }
}

/// The canonical reason phrase that the `http` crate gives a status code.
pub uninterp spec fn reason_phrase_of(code: u16) -> Option<Seq<char>>;

/// Relies on `http::StatusCode::from_u16` and `StatusCode::canonical_reason`: the
/// reason phrase registered for `code`, `None` for a code without one or outside
/// `100..=999`.
#[verifier::external_body]
fn canonical_reason(code: u16) -> (r: Option<String>)
    ensures
        match r {
            Some(s) => reason_phrase_of(code) == Some(s@),
            None => reason_phrase_of(code) is None,
        },
{
    http::StatusCode::from_u16(code).ok().and_then(|s| s.canonical_reason()).map(|s| s.to_string())
}

/// The phrase written after the code: the canonical one, or `Unknown status code`.
pub open spec fn reason_text(reason: Option<Seq<char>>) -> Seq<char> {
    match reason {
        Some(r) => r,
        None => seq![
            'U', 'n', 'k', 'n', 'o', 'w', 'n', ' ', 's', 't', 'a', 't', 'u', 's', ' ', 'c', 'o',
            'd', 'e'
        ],
    }
}

pub open spec fn crlf() -> Seq<char> {
    seq!['\r', '\n']
}

/// `HTTP/1.1 <code> <reason>\r\n`.
pub open spec fn status_line_of(code: u16, reason: Seq<char>) -> Seq<char> {
    seq!['H', 'T', 'T', 'P', '/', '1', '.', '1', ' '] + decimal(code as nat) + seq![' '] + reason
        + crlf()
}

/// Each header as `<name>: <value>\r\n\r\n`, in order.
pub open spec fn headers_wire(hs: Seq<(Seq<char>, Seq<char>)>) -> Seq<char>
    decreases hs.len(),
{
    if hs.len() == 0 {
        Seq::empty()
    } else {
        headers_wire(hs.drop_last()) + hs.last().0 + seq![':', ' '] + hs.last().1 + crlf()
            + crlf()
    }
}

/// The body text; empty when there is no body.
pub open spec fn body_text(body: Option<Seq<char>>) -> Seq<char> {
    match body {
        Some(b) => b,
        None => Seq::empty(),
    }
}

/// `Content-Length: <n>\r\n\r\n<body>`, with `n` the body's length in UTF-8 bytes.
pub open spec fn body_wire(body: Option<Seq<char>>) -> Seq<char> {
    seq!['C', 'o', 'n', 't', 'e', 'n', 't', '-', 'L', 'e', 'n', 'g', 't', 'h', ':', ' ']
        + decimal(encode_utf8(body_text(body)).len()) + crlf() + crlf() + body_text(body)
}

/// The whole response as it goes on the wire, with `reason` as its reason phrase.
pub open spec fn wire_of(r: ResponseView, reason: Seq<char>) -> Seq<char> {
    status_line_of(r.status, reason) + headers_wire(r.headers) + body_wire(r.body)
}

/// The response a request gets when no mapping answers it.
pub open spec fn not_found_view() -> ResponseView {
    ResponseView { status: 404, headers: Seq::empty(), body: None }
}

/// A response that no mapping answered goes out as its status line followed by
/// `Content-Length: 0` and a blank line: no headers and an empty body.
pub proof fn lemma_not_found_wire(reason: Seq<char>)
    ensures
        wire_of(not_found_view(), reason) == status_line_of(404, reason) + seq![
            'C', 'o', 'n', 't', 'e', 'n', 't', '-', 'L', 'e', 'n', 'g', 't', 'h', ':', ' ', '0',
            '\r', '\n', '\r', '\n'
        ],
{
    assert(encode_utf8(Seq::<char>::empty()) =~= Seq::<u8>::empty());
    assert(decimal(0) == seq!['0']);
    assert(headers_wire(Seq::empty()) == Seq::<char>::empty());
    assert(wire_of(not_found_view(), reason) =~= status_line_of(404, reason) + seq![
        'C', 'o', 'n', 't', 'e', 'n', 't', '-', 'L', 'e', 'n', 'g', 't', 'h', ':', ' ', '0',
        '\r', '\n', '\r', '\n'
    ]);
}

fn push_str(s: &mut String, t: &str)
    ensures
        final(s)@ == old(s)@ + t@,
{
    s.append(t);
}

impl HttpResponse {
    /// A `200` response with no headers and no body.
    pub fn new() -> (r: HttpResponse)
        ensures
            r@ == (ResponseView { status: 200, headers: Seq::empty(), body: None }),
    {
        let r = HttpResponse { status_code: 200, headers: Vec::new(), body: None };
        assert(r@.headers =~= Seq::empty());
        r
    }

    /// A `404` response with no headers and no body.
    pub fn not_found() -> (r: HttpResponse)
        ensures
            r@ == not_found_view(),
    {
        let r = HttpResponse { status_code: 404, headers: Vec::new(), body: None };
        assert(r@.headers =~= Seq::empty());
        r
    }

    /// Sets the status code to the number `code` (an `http::StatusCode` gives it with
    /// `as_u16`); headers and body stay.
    pub fn set_status(&mut self, code: u16)
        requires
            100 <= code <= 999,
        ensures
            final(self)@ == (ResponseView { status: code, ..old(self)@ }),
    {
        self.status_code = code;
    }

    /// Sets the body; status and headers stay.
    pub fn set_body(&mut self, body: &str)
        ensures
            final(self)@ == (ResponseView { body: Some(body@), ..old(self)@ }),
    {
        self.body = Some(body.to_owned());
    }

    /// Appends a header after those already set; status and body stay.
    pub fn set_header(&mut self, key: &str, value: &str)
        ensures
            final(self)@ == (ResponseView {
                headers: old(self)@.headers.push((key@, value@)),
                ..old(self)@
            }),
    {
        let ghost prev = self@.headers;
        self.headers.push((key.to_owned(), value.to_owned()));
        assert(self@.headers =~= prev.push((key@, value@)));
    }

    /// The status code.
    pub fn status(&self) -> (r: u16)
        ensures
            r == self@.status,
    {
        self.status_code
    }

    /// The body, if one was set.
    pub fn body(&self) -> (r: Option<&String>)
        ensures
            match r {
                Some(b) => self@.body == Some(b@),
                None => self@.body is None,
            },
    {
        match &self.body {
            Some(b) => Some(b),
            None => None,
        }
    }

    /// The number of headers set.
    pub fn header_count(&self) -> (r: usize)
        ensures
            r == self@.headers.len(),
    {
        self.headers.len()
    }

    /// The name and value of the header at position `i`.
    pub fn header(&self, i: usize) -> (r: (&String, &String))
        requires
            i < self@.headers.len(),
        ensures
            (r.0@, r.1@) == self@.headers[i as int],
    {
        (&self.headers[i].0, &self.headers[i].1)
    }

    /// The status line, with `reason` as the reason phrase.
    pub fn status_line_with(&self, reason: &str) -> (r: String)
        ensures
            r@ == status_line_of(self@.status, reason@),
    {
        proof {
            reveal_strlit("HTTP/1.1 ");
            reveal_strlit(" ");
            reveal_strlit("\r\n");
        }
        let mut s = String::from_str("HTTP/1.1 ");
        let code = decimal_string(self.status_code as usize);
        push_str(&mut s, code.as_str());
        push_str(&mut s, " ");
        push_str(&mut s, reason);
        push_str(&mut s, "\r\n");
        assert(s@ =~= status_line_of(self@.status, reason@));
        s
    }

    /// The status line: `HTTP/1.1 <code> <reason>\r\n`, where the reason is the
    /// canonical phrase of the code, or `Unknown status code`.
    pub fn status_line(&self) -> (r: String)
        ensures
            r@ == status_line_of(self@.status, reason_text(reason_phrase_of(self@.status))),
    {
        proof {
            reveal_strlit("Unknown status code");
        }
        match canonical_reason(self.status_code) {
            Some(reason) => self.status_line_with(reason.as_str()),
            None => {
                let unknown = "Unknown status code";
                assert(unknown@ =~= reason_text(None));
                self.status_line_with(unknown)
            },
        }
    }

    /// The header lines, each followed by a blank line.
    pub fn headers_text(&self) -> (r: String)
        ensures
            r@ == headers_wire(self@.headers),
    {
        proof {
            reveal_strlit(": ");
            reveal_strlit("\r\n\r\n");
            assert(": "@ =~= seq![':', ' ']);
            assert("\r\n\r\n"@ =~= crlf() + crlf());
        }
        let mut s = String::new();
        let mut i: usize = 0;
        assert(self@.headers.take(0) =~= Seq::empty());
        while i < self.headers.len()
            invariant
                i <= self@.headers.len(),
                s@ == headers_wire(self@.headers.take(i as int)),
                ": "@ == seq![':', ' '],
                "\r\n\r\n"@ == crlf() + crlf(),
            decreases self.headers.len() - i,
        {
            assert(self@.headers.take(i + 1).drop_last() =~= self@.headers.take(i as int));
            let ghost before = s@;
            let ghost k = self.headers@[i as int].0@;
            let ghost v = self.headers@[i as int].1@;
            assert(self@.headers[i as int] == (k, v));
            push_str(&mut s, self.headers[i].0.as_str());
            push_str(&mut s, ": ");
            push_str(&mut s, self.headers[i].1.as_str());
            push_str(&mut s, "\r\n\r\n");
            assert(s@ =~= before + k + seq![':', ' '] + v + crlf() + crlf());
            let ghost hs = self@.headers.take(i + 1);
            assert(hs.last() == self@.headers[i as int]);
            assert(hs.drop_last() =~= self@.headers.take(i as int));
            assert(headers_wire(hs) == headers_wire(hs.drop_last()) + hs.last().0 + seq![':', ' ']
                + hs.last().1 + crlf() + crlf());
            i = i + 1;
            assert(s@ =~= headers_wire(self@.headers.take(i as int)));
        }
        assert(self@.headers.take(i as int) =~= self@.headers);
        s
    }

    /// `Content-Length: <n>\r\n\r\n` followed by the body.
    pub fn body_text(&self) -> (r: String)
        ensures
            r@ == body_wire(self@.body),
    {
        proof {
            reveal_strlit("Content-Length: ");
            reveal_strlit("\r\n\r\n");
            reveal_strlit("");
            assert("Content-Length: "@ =~= seq![
                'C', 'o', 'n', 't', 'e', 'n', 't', '-', 'L', 'e', 'n', 'g', 't', 'h', ':', ' '
            ]);
            assert("\r\n\r\n"@ =~= crlf() + crlf());
        }
        let body: &str = match &self.body {
            Some(b) => b.as_str(),
            None => "",
        };
        assert(body@ == body_text(self@.body));
        let mut s = String::from_str("Content-Length: ");
        let bytes = body.as_bytes();
        assert(bytes@.len() == encode_utf8(body_text(self@.body)).len());
        let n = decimal_string(bytes.len());
        push_str(&mut s, n.as_str());
        push_str(&mut s, "\r\n\r\n");
        push_str(&mut s, body);
        assert(s@ =~= body_wire(self@.body));
        s
    }

    /// The response on the wire, with `reason` as the reason phrase.
    pub fn to_wire_with(&self, reason: &str) -> (r: String)
        ensures
            r@ == wire_of(self@, reason@),
    {
        let mut s = self.status_line_with(reason);
        let h = self.headers_text();
        let b = self.body_text();
        push_str(&mut s, h.as_str());
        push_str(&mut s, b.as_str());
        assert(s@ =~= wire_of(self@, reason@));
        s
    }

    /// The response on the wire: status line, headers, then the body block.
    pub fn to_wire(&self) -> (r: String)
        ensures
            r@ == wire_of(self@, reason_text(reason_phrase_of(self@.status))),
    {
        let mut s = self.status_line();
        let h = self.headers_text();
        let b = self.body_text();
        push_str(&mut s, h.as_str());
        push_str(&mut s, b.as_str());
        assert(s@ =~= wire_of(self@, reason_text(reason_phrase_of(self@.status))));
        s
    }
}

} // verus!
