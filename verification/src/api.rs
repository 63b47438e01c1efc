//! The small JSON and image endpoints: server information and QR codes.
use vstd::prelude::*;
use vstd::utf8::encode_utf8;
use crate::text::{chars_of, string_of, push_str, chars_eq_str};
use crate::escape::{json_escape, json_escape_spec};
use crate::paths::{display_path, display_path_spec};
use crate::request::{query_param, query_param_spec};
use crate::qr::{qr_svg, qr_bmp, qr_svg_spec, qr_bmp_spec, qr_text_modules, is_square};

verus! {

broadcast use vstd::string::group_string_axioms;

/// The body of `/api/info`: the server's name and its root folder as shown.
pub open spec fn api_info_body_spec(root: Seq<char>) -> Seq<char> {
    "{\"name\":\"StaticDock\",\"root\":\""@ + json_escape_spec(display_path_spec(root)) + "\"}"@
}

/// The body of `/api/info` for a root folder shown as `root`.
pub fn api_info_body(root: &str) -> (r: String)
    ensures
        r@ == api_info_body_spec(root@),
{
    let shown = display_path(root);
    let mut v: Vec<char> = Vec::new();
    push_str(&mut v, "{\"name\":\"StaticDock\",\"root\":\"");
    push_str(&mut v, json_escape(shown.as_str()).as_str());
    push_str(&mut v, "\"}");
    string_of(&v)
}

/// The answer to a QR request.
pub enum QrReply {
    /// The code as an SVG image.
    Svg(String),
    /// The code as a BMP image.
    Bmp(Vec<u8>),
    /// The text does not fit (answered `400`).
    TooLong,
}

/// The text that a QR request encodes: its `text` parameter, `/` by default.
pub open spec fn qr_text_spec(target: Seq<char>) -> Seq<char> {
    match query_param_spec(target, "text"@) {
        Some(t) => t,
        None => "/"@,
    }
}

/// Whether a QR request asks for a BMP image (its `format` parameter is
/// `bmp`; any other value, or none, asks for SVG).
pub open spec fn qr_wants_bmp(target: Seq<char>) -> bool {
    query_param_spec(target, "format"@) == Some("bmp"@)
}

/// The answer to the QR request `target`.
pub fn qr_reply(target: &str) -> (r: QrReply)
    ensures
        (r is TooLong) <==> encode_utf8(qr_text_spec(target@)).len() > 512,
        r matches QrReply::Svg(s) ==> !qr_wants_bmp(target@) && s@ == qr_svg_spec(
            qr_text_modules(qr_text_spec(target@)),
        ),
        r matches QrReply::Bmp(b) ==> qr_wants_bmp(target@) && b@ == qr_bmp_spec(
            qr_text_modules(qr_text_spec(target@)),
        ),
        !(r is TooLong) ==> is_square(qr_text_modules(qr_text_spec(target@)))
            && 21 <= qr_text_modules(qr_text_spec(target@)).len() <= 177,
{
    let text = match query_param(target, "text") {
        Some(t) => t,
        None => "/".to_owned(),
    };
    let bmp = match query_param(target, "format") {
        Some(f) => {
            let fc = chars_of(f.as_str());
            chars_eq_str(&fc, "bmp")
        },
        None => false,
    };
    if bmp {
        match qr_bmp(text.as_str()) {
            Some(b) => QrReply::Bmp(b),
            None => QrReply::TooLong,
        }
    } else {
        match qr_svg(text.as_str()) {
            Some(s) => QrReply::Svg(s),
            None => QrReply::TooLong,
        }
    }
}

fn bytes_of(b: &[u8]) -> (r: Vec<u8>)
    ensures
        r@ == b@,
{
    let mut v: Vec<u8> = Vec::new();
    let mut i: usize = 0;
    while i < b.len()
        invariant
            i <= b.len(),
            v@ == b@.take(i as int),
        decreases b.len() - i,
    {
        v.push(b[i]);
        i += 1;
        assert(v@ =~= b@.take(i as int));
    }
    assert(b@.take(b.len() as int) =~= b@);
    v
}

impl QrReply {
    /// The status, reason and content type of the answer.
    pub fn head(&self) -> (r: (u16, &'static str, &'static str))
        ensures
            self is Svg ==> r.0 == 200 && r.1@ == "OK"@ && r.2@ == "image/svg+xml; charset=utf-8"@,
            self is Bmp ==> r.0 == 200 && r.1@ == "OK"@ && r.2@ == "image/bmp"@,
            self is TooLong ==> r.0 == 400 && r.1@ == "Bad Request"@ && r.2@
                == "text/plain; charset=utf-8"@,
    {
        match self {
            QrReply::Svg(_) => (200, "OK", "image/svg+xml; charset=utf-8"),
            QrReply::Bmp(_) => (200, "OK", "image/bmp"),
            QrReply::TooLong => (400, "Bad Request", "text/plain; charset=utf-8"),
        }
    }

    /// The body of the answer.
    pub fn body(&self) -> (r: Vec<u8>)
        ensures
            self matches QrReply::Svg(s) ==> r@ == encode_utf8(s@),
            self matches QrReply::Bmp(b) ==> r@ == b@,
            self is TooLong ==> r@ == encode_utf8("QR text is too long."@),
    {
        match self {
            QrReply::Svg(s) => bytes_of(s.as_str().as_bytes()),
            QrReply::Bmp(b) => bytes_of(b.as_slice()),
            QrReply::TooLong => bytes_of("QR text is too long.".as_bytes()),
        }
    }
}

} // verus!
