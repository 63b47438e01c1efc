//! The head of an HTTP request: where it ends, its request line and its
//! header fields; and the head of a response.
use vstd::prelude::*;
use crate::text::{chars_of, string_of, views, split_str, split_str_exec, words, words_exec,
    ascii_upper, ascii_upper_exec, ascii_lower, ascii_lower_exec, trim, trim_exec, split_once_char,
    split_once_char_exec, push_str};
use crate::percent::{lossy_text, string_from_utf8_lossy};
use crate::strmap::StrMap;
use crate::range::pairs_view;

verus! {

broadcast use vstd::string::group_string_axioms;

/// `\r\n\r\n` starts at index `i` of `b`.
pub open spec fn blank_line_at(b: Seq<u8>, i: int) -> bool {
    0 <= i && i + 4 <= b.len() && b[i] == 13 && b[i + 1] == 10 && b[i + 2] == 13 && b[i + 3] == 10
}

/// The index where the head of a request ends: the first `\r\n\r\n`.
pub fn header_end(bytes: &[u8]) -> (r: Option<usize>)
    ensures
        r matches Some(i) ==> blank_line_at(bytes@, i as int) && forall|j: int|
            0 <= j < i ==> !blank_line_at(bytes@, j),
        r is None ==> forall|j: int| !blank_line_at(bytes@, j),
{
    let n = bytes.len();
    if n < 4 {
        return None;
    }
    let mut i: usize = 0;
    while i <= n - 4
        invariant
            n == bytes@.len(),
            n >= 4,
            i <= n - 3,
            forall|j: int| 0 <= j < i ==> !blank_line_at(bytes@, j),
        decreases n - 3 - i,
    {
        if bytes[i] == 13 && bytes[i + 1] == 10 && bytes[i + 2] == 13 && bytes[i + 3] == 10 {
            return Some(i);
        }
        i += 1;
    }
    None
}

/// Why a request head was refused.
#[derive(Clone, Copy, Debug, PartialEq, Eq, Structural)]
pub enum RequestError {
    /// The head has no blank line.
    BadHeader,
    /// The request line has no method.
    MissingMethod,
    /// The request line has no target.
    MissingTarget,
}

/// The text of a `RequestError`.
pub fn request_error_message(e: RequestError) -> (r: &'static str)
    ensures
        r@ == (match e {
            RequestError::BadHeader => "bad request header"@,
            RequestError::MissingMethod => "missing method"@,
            RequestError::MissingTarget => "missing target"@,
        }),
{
    match e {
        RequestError::BadHeader => "bad request header",
        RequestError::MissingMethod => "missing method",
        RequestError::MissingTarget => "missing target",
    }
}

/// A request's head.
pub struct Request {
    /// The method, in upper case.
    pub method: String,
    /// The target, as sent.
    pub target: String,
    /// The header fields: names in lower case, values trimmed; a later field
    /// replaces an earlier one of the same name.
    pub headers: StrMap,
    /// The bytes after the head that arrived with it (the start of the body).
    pub body_prefix: Vec<u8>,
}

/// The header fields of the lines after the request line: a line with a colon
/// sets the lower-case trimmed name to the trimmed value; other lines are
/// skipped.
pub open spec fn header_fold(lines: Seq<Seq<char>>) -> Map<Seq<char>, Seq<char>>
    decreases lines.len(),
{
    if lines.len() == 0 {
        Map::empty()
    } else {
        let m = header_fold(lines.drop_last());
        match split_once_char(lines.last(), ':') {
            Some((name, value)) => m.insert(ascii_lower(trim(name)), trim(value)),
            None => m,
        }
    }
}

/// The lines of the head of a request (the bytes before `end`, read as UTF-8
/// with replacement, split at `\r\n`).
pub open spec fn head_lines(b: Seq<u8>, end: int) -> Seq<Seq<char>> {
    split_str(lossy_text(b.take(end)), "\r\n"@)
}

/// What a request head holds: method (upper case), target, header fields and
/// the start of the body; or why it is refused.
pub open spec fn parse_request_spec(b: Seq<u8>, end: Option<int>) -> Result<
    (Seq<char>, Seq<char>, Map<Seq<char>, Seq<char>>, Seq<u8>),
    RequestError,
> {
    match end {
        None => Err(RequestError::BadHeader),
        Some(e) => {
            let lines = head_lines(b, e);
            let ws = words(lines[0]);
            if ws.len() == 0 {
                Err(RequestError::MissingMethod)
            } else if ws.len() == 1 {
                Err(RequestError::MissingTarget)
            } else {
                Ok(
                    (
                        ascii_upper(ws[0]),
                        ws[1],
                        header_fold(lines.drop_first()),
                        if e + 4 < b.len() {
                            b.skip(e + 4)
                        } else {
                            Seq::empty()
                        },
                    ),
                )
            }
        },
    }
}

/// The index of the first `\r\n\r\n` of `b`, as a spec value.
pub open spec fn header_end_spec(b: Seq<u8>) -> Option<int> {
    if exists|i: int| blank_line_at(b, i) {
        Some(choose|i: int| blank_line_at(b, i) && forall|j: int| 0 <= j < i ==> !blank_line_at(b, j))
    } else {
        None
    }
}

fn bytes_from(b: &[u8], start: usize) -> (r: Vec<u8>)
    requires
        start <= b@.len(),
    ensures
        r@ == b@.skip(start as int),
{
    let mut r: Vec<u8> = Vec::new();
    let mut i: usize = start;
    while i < b.len()
        invariant
            start <= i <= b@.len(),
            r@ == b@.subrange(start as int, i as int),
        decreases b.len() - i,
    {
        r.push(b[i]);
        i += 1;
        assert(r@ =~= b@.subrange(start as int, i as int));
    }
    assert(b@.subrange(start as int, b@.len() as int) =~= b@.skip(start as int));
    r
}

fn bytes_to(b: &[u8], end: usize) -> (r: Vec<u8>)
    requires
        end <= b@.len(),
    ensures
        r@ == b@.take(end as int),
{
    let mut r: Vec<u8> = Vec::new();
    let mut i: usize = 0;
    while i < end
        invariant
            i <= end <= b@.len(),
            r@ == b@.take(i as int),
        decreases end - i,
    {
        r.push(b[i]);
        i += 1;
        assert(r@ =~= b@.take(i as int));
    }
    r
}

/// Reads a request head from the bytes received: the head ends at the first
/// `\r\n\r\n`; it is read as UTF-8 with replacement and split at `\r\n`; the
/// first line's first two words are the method (made upper case) and the
/// target; every later line with a colon is a header field, its name trimmed
/// and lower-cased, its value trimmed; the bytes after the blank line are the
/// start of the body.
pub fn parse_request(buffer: &[u8]) -> (r: Result<Request, RequestError>)
    ensures
        r matches Ok(req) ==> parse_request_spec(buffer@, header_end_spec(buffer@)) == Ok::<
            _,
            RequestError,
        >((req.method@, req.target@, req.headers@, req.body_prefix@)),
        r matches Err(e) ==> parse_request_spec(buffer@, header_end_spec(buffer@)) == Err::<
            (Seq<char>, Seq<char>, Map<Seq<char>, Seq<char>>, Seq<u8>),
            RequestError,
        >(e),
{
    let end = match header_end(buffer) {
        Some(e) => e,
        None => {
            assert(header_end_spec(buffer@) is None);
            return Err(RequestError::BadHeader);
        },
    };
    assert(header_end_spec(buffer@) == Some(end as int)) by {
        let c = choose|i: int| blank_line_at(buffer@, i) && forall|j: int|
            0 <= j < i ==> !blank_line_at(buffer@, j);
        if c < end {
        } else if c > end {
            assert(!blank_line_at(buffer@, end as int));
        }
    }
    let head = bytes_to(buffer, end);
    let text = string_from_utf8_lossy(head.as_slice());
    let body_prefix = if end < buffer.len() && buffer.len() - end > 4 {
        bytes_from(buffer, end + 4)
    } else {
        Vec::new()
    };
    let tv = chars_of(text.as_str());
    let sep = chars_of("\r\n");
    proof {
        reveal_strlit("\r\n");
    }
    let lines = split_str_exec(&tv, &sep);
    proof {
        assert(split_str(tv@, sep@).len() >= 1) by {
            reveal_with_fuel(split_str, 2);
        }
    }
    let ws = words_exec(&lines[0]);
    if ws.len() == 0 {
        return Err(RequestError::MissingMethod);
    }
    if ws.len() == 1 {
        return Err(RequestError::MissingTarget);
    }
    let method = string_of(&ascii_upper_exec(&ws[0]));
    let target = string_of(&ws[1]);
    let ghost ls = views(lines@);
    let mut headers = StrMap::new();
    let mut i: usize = 1;
    assert(ls.drop_first().take(0) =~= Seq::<Seq<char>>::empty());
    while i < lines.len()
        invariant
            1 <= i <= lines.len(),
            ls == views(lines@),
            headers@ == header_fold(ls.drop_first().take(i - 1)),
        decreases lines.len() - i,
    {
        let ghost pre = ls.drop_first().take(i - 1);
        assert(ls.drop_first().take(i as int).drop_last() =~= pre);
        assert(ls.drop_first().take(i as int).last() == ls[i as int]);
        if let Some((name, value)) = split_once_char_exec(&lines[i], ':') {
            let n = ascii_lower_exec(&trim_exec(&name));
            let v = trim_exec(&value);
            let ns = string_of(&n);
            let vs = string_of(&v);
            headers.insert(ns.as_str(), vs.as_str());
        }
        i += 1;
    }
    assert(ls.drop_first().take(lines.len() - 1) =~= ls.drop_first());
    Ok(Request { method, target, headers, body_prefix })
}

impl Request {
    /// The value of a header field, by its lower-case name.
    pub fn header(&self, name: &str) -> (r: Option<String>)
        ensures
            r matches Some(v) ==> self.headers@.dom().contains(name@) && v@ == self.headers@[name@],
            r is None ==> !self.headers@.dom().contains(name@),
    {
        self.headers.get(name)
    }
}

/// The header lines of a response, each `name: value` and CRLF.
pub open spec fn header_lines(h: Seq<(Seq<char>, Seq<char>)>) -> Seq<char>
    decreases h.len(),
{
    if h.len() == 0 {
        Seq::empty()
    } else {
        header_lines(h.drop_last()) + h.last().0 + ": "@ + h.last().1 + "\r\n"@
    }
}

/// The head of a response: the status line, the server's fixed headers
/// (server name, connection, CORS with the allowed methods, byte ranges), the
/// given headers in order, and a blank line.
pub open spec fn response_head_spec(
    status: u16,
    reason: Seq<char>,
    headers: Seq<(Seq<char>, Seq<char>)>,
    keep_alive: bool,
    uploads_enabled: bool,
) -> Seq<char> {
    "HTTP/1.1 "@ + crate::decimal::decimal(status as nat) + " "@ + reason + "\r\n"@
        + "Server: StaticDock/1.0\r\n"@ + "Connection: "@ + (if keep_alive {
        "keep-alive"@
    } else {
        "close"@
    }) + "\r\n"@ + "Access-Control-Allow-Origin: *\r\n"@ + "Access-Control-Allow-Methods: "@
        + (if uploads_enabled {
        "GET, HEAD, OPTIONS, POST"@
    } else {
        "GET, HEAD, OPTIONS"@
    }) + "\r\n"@
        + "Access-Control-Allow-Headers: Origin, X-Requested-With, Content-Type, Accept, Range, If-Range, If-None-Match, X-Upload-Id, X-Chunk-Offset\r\n"@
        + "Accept-Ranges: bytes\r\n"@ + header_lines(headers) + "\r\n"@
}

/// The head of a response with the given status, reason and headers.
pub fn response_head(
    status: u16,
    reason: &str,
    headers: &Vec<(String, String)>,
    keep_alive: bool,
    uploads_enabled: bool,
) -> (r: String)
    ensures
        r@ == response_head_spec(status, reason@, pairs_view(headers@), keep_alive, uploads_enabled),
{
    let mut out: Vec<char> = Vec::new();
    push_str(&mut out, "HTTP/1.1 ");
    crate::decimal::push_decimal(&mut out, status as u64);
    push_str(&mut out, " ");
    push_str(&mut out, reason);
    push_str(&mut out, "\r\n");
    push_str(&mut out, "Server: StaticDock/1.0\r\n");
    push_str(&mut out, "Connection: ");
    push_str(&mut out, if keep_alive { "keep-alive" } else { "close" });
    push_str(&mut out, "\r\n");
    push_str(&mut out, "Access-Control-Allow-Origin: *\r\n");
    push_str(&mut out, "Access-Control-Allow-Methods: ");
    push_str(&mut out, crate::config::cors_methods(uploads_enabled));
    push_str(&mut out, "\r\n");
    push_str(
        &mut out,
        "Access-Control-Allow-Headers: Origin, X-Requested-With, Content-Type, Accept, Range, If-Range, If-None-Match, X-Upload-Id, X-Chunk-Offset\r\n",
    );
    push_str(&mut out, "Accept-Ranges: bytes\r\n");
    let ghost fixed = out@;
    let ghost hs = pairs_view(headers@);
    let mut i: usize = 0;
    assert(hs.take(0) =~= Seq::<(Seq<char>, Seq<char>)>::empty());
    while i < headers.len()
        invariant
            i <= headers.len(),
            hs == pairs_view(headers@),
            out@ == fixed + header_lines(hs.take(i as int)),
        decreases headers.len() - i,
    {
        assert(hs.take(i + 1).drop_last() =~= hs.take(i as int));
        assert(hs.take(i + 1).last() == hs[i as int]);
        push_str(&mut out, headers[i].0.as_str());
        push_str(&mut out, ": ");
        push_str(&mut out, headers[i].1.as_str());
        push_str(&mut out, "\r\n");
        i += 1;
        assert(out@ =~= fixed + header_lines(hs.take(i as int)));
    }
    assert(hs.take(headers.len() as int) =~= hs);
    push_str(&mut out, "\r\n");
    assert(out@ =~= response_head_spec(status, reason@, hs, keep_alive, uploads_enabled));
    string_of(&out)
}

/// The most bytes a request head may take.
pub const MAX_HEAD_BYTES: usize = 65536;

/// How far the bytes received so far go towards a request head.
#[derive(Clone, Copy, Debug, PartialEq, Eq, Structural)]
pub enum HeadProgress {
    /// No blank line yet: read on.
    NeedMore,
    /// The head is complete.
    Complete,
    /// More than `MAX_HEAD_BYTES` arrived without the head being read.
    TooLarge,
}

/// How far `buffer` goes towards a request head: too large past
/// `MAX_HEAD_BYTES`, complete once it holds a blank line, else not yet.
pub fn head_progress(buffer: &[u8]) -> (r: HeadProgress)
    ensures
        r == (if buffer@.len() > MAX_HEAD_BYTES {
            HeadProgress::TooLarge
        } else if header_end_spec(buffer@) is Some {
            HeadProgress::Complete
        } else {
            HeadProgress::NeedMore
        }),
{
    if buffer.len() > MAX_HEAD_BYTES {
        return HeadProgress::TooLarge;
    }
    match header_end(buffer) {
        Some(end) => {
            assert(blank_line_at(buffer@, end as int));
            HeadProgress::Complete
        },
        None => {
            assert(header_end_spec(buffer@) is None);
            HeadProgress::NeedMore
        },
    }
}

} // verus!
