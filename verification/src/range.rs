//! Byte ranges (`Range: bytes=...`), weak entity tags, and the decision of how a
//! file is answered: `304`, `416`, `206` or `200`, with its headers.
use vstd::prelude::*;
use crate::text::{chars_of, string_of, starts_with, starts_with_str, index_of,
    contains_char, trim, trim_exec, split_char, split_char_exec, split_once_char,
    split_once_char_exec, slice_of, views, chars_eq, push_str, is_ws,
    lemma_trim_unchanged, lemma_split_char_without, lemma_index_of_at, lemma_index_of_absent};
use crate::decimal::{parse_unsigned, parse_u64, decimal, push_decimal, hex_fixed, push_hex,
    lemma_hex_fixed_digits, all_digits, is_digit, lemma_decimal_digits, lemma_parse_decimal};

verus! {

broadcast use vstd::string::group_string_axioms;

/// A range that the file cannot serve (answered with `416`).
#[derive(Clone, Copy, Debug, PartialEq, Eq, Structural)]
pub struct RangeNotSatisfiable {
    /// The length of the file that the range was asked of.
    pub file_len: u64,
}

impl RangeNotSatisfiable {
    /// The error's text: `range not satisfiable for file length N`.
    pub fn message(&self) -> (r: String)
        ensures
            r@ == "range not satisfiable for file length "@ + decimal(self.file_len as nat),
    {
        let mut v: Vec<char> = Vec::new();
        push_str(&mut v, "range not satisfiable for file length ");
        push_decimal(&mut v, self.file_len);
        string_of(&v)
    }
}

/// The error for a range that a file of `file_len` bytes cannot serve.
pub fn range_not_satisfiable(file_len: u64) -> (r: RangeNotSatisfiable)
    ensures
        r.file_len == file_len,
{
    RangeNotSatisfiable { file_len }
}

/// std's `u64::from_str`.
pub open spec fn parse_u64_spec(s: Seq<char>) -> Option<u64> {
    match parse_unsigned(s, u64::MAX as nat) {
        Some(v) => Some(v as u64),
        None => None,
    }
}

/// The outcome of a `Range` header for a file of `file_len` bytes: `None` when
/// the header is ignored (not `bytes=`, several ranges, or not numbers),
/// `Some(Err)` when the range cannot be served, else the first and last byte.
pub open spec fn parse_range_spec(value: Seq<char>, file_len: u64) -> Option<Result<(u64, u64), ()>> {
    let v = trim(value);
    if !starts_with(v, "bytes="@) {
        None
    } else {
        let range_spec = v.skip("bytes="@.len() as int);
        if index_of(range_spec, ',') is Some {
            None
        } else if file_len == 0 {
            Some(Err(()))
        } else {
            match split_once_char(trim(range_spec), '-') {
                None => None,
                Some((start_text, end_text)) => if start_text.len() == 0 {
                    match parse_u64_spec(end_text) {
                        None => None,
                        Some(n) => if n == 0 {
                            Some(Err(()))
                        } else {
                            Some(
                                Ok(
                                    (
                                        if n >= file_len {
                                            0u64
                                        } else {
                                            (file_len - n) as u64
                                        },
                                        (file_len - 1) as u64,
                                    ),
                                ),
                            )
                        },
                    }
                } else {
                    match parse_u64_spec(start_text) {
                        None => None,
                        Some(start) => {
                            let end0 = if end_text.len() == 0 {
                                Some((file_len - 1) as u64)
                            } else {
                                parse_u64_spec(end_text)
                            };
                            match end0 {
                                None => None,
                                Some(e) => {
                                    let end = if e >= file_len {
                                        (file_len - 1) as u64
                                    } else {
                                        e
                                    };
                                    if start >= file_len || start > end {
                                        Some(Err(()))
                                    } else {
                                        Some(Ok((start, end)))
                                    }
                                },
                            }
                        },
                    }
                },
            }
        }
    }
}

/// The spec outcome of a range parse, with the error's file length dropped.
pub open spec fn range_outcome(r: Option<Result<(u64, u64), RangeNotSatisfiable>>) -> Option<
    Result<(u64, u64), ()>,
> {
    match r {
        Some(Ok(p)) => Some(Ok(p)),
        Some(Err(_)) => Some(Err(())),
        None => None,
    }
}

fn parse_u64_chars(s: &Vec<char>) -> (r: Option<u64>)
    ensures
        r == parse_u64_spec(s@),
{
    match parse_u64(s) {
        Some(v) => Some(v),
        None => None,
    }
}

/// Reads a `Range` header for a file of `file_len` bytes. `None`: the header is
/// ignored (it does not start with `bytes=`, names several ranges, or holds no
/// number where one belongs). `Some(Err)`: the file is empty, a suffix range is
/// empty, or the first byte lies past the end or after the last. Else the
/// first and last byte to send, the last clipped to the end of the file; a
/// suffix range `-n` names the last `n` bytes.
pub fn parse_range(value: &str, file_len: u64) -> (r: Option<Result<(u64, u64), RangeNotSatisfiable>>)
    ensures
        range_outcome(r) == parse_range_spec(value@, file_len),
        r matches Some(Err(e)) ==> e.file_len == file_len,
        r matches Some(Ok((s, e))) ==> s <= e < file_len,
{
    let raw = chars_of(value);
    let v = trim_exec(&raw);
    if !starts_with_str(&v, "bytes=") {
        return None;
    }
    let prefix = chars_of("bytes=");
    let n = v.len();
    let range_text = slice_of(&v, prefix.len(), n);
    assert(range_text@ == v@.skip("bytes="@.len() as int));
    if contains_char(&range_text, ',') {
        return None;
    }
    if file_len == 0 {
        return Some(Err(range_not_satisfiable(file_len)));
    }
    let first_range = trim_exec(&range_text);
    let (start_text, end_text) = match split_once_char_exec(&first_range, '-') {
        Some(p) => p,
        None => {
            return None;
        },
    };
    if start_text.len() == 0 {
        let suffix_len = match parse_u64_chars(&end_text) {
            Some(x) => x,
            None => {
                return None;
            },
        };
        if suffix_len == 0 {
            Some(Err(range_not_satisfiable(file_len)))
        } else {
            let start = file_len.saturating_sub(suffix_len);
            Some(Ok((start, file_len - 1)))
        }
    } else {
        let start = match parse_u64_chars(&start_text) {
            Some(x) => x,
            None => {
                return None;
            },
        };
        let mut end = if end_text.len() == 0 {
            file_len - 1
        } else {
            match parse_u64_chars(&end_text) {
                Some(x) => x,
                None => {
                    return None;
                },
            }
        };
        if end >= file_len {
            end = file_len - 1;
        }
        if start >= file_len || start > end {
            Some(Err(range_not_satisfiable(file_len)))
        } else {
            Some(Ok((start, end)))
        }
    }
}

// ---------------------------------------------------------------------------
// Entity tags
// ---------------------------------------------------------------------------

/// One step of 64-bit FNV-1a.
pub open spec fn fnv_step(h: u64, b: u8) -> u64 {
    (h ^ (b as u64)).wrapping_mul(0x100000001b3)
}

/// FNV-1a over the `k` low bytes of `n`, least significant first.
pub open spec fn fnv_le_bytes(h: u64, n: nat, k: nat) -> u64
    decreases k,
{
    if k == 0 {
        h
    } else {
        fnv_le_bytes(fnv_step(h, (n % 256) as u8), n / 256, (k - 1) as nat)
    }
}

/// The FNV-1a hash of the little-endian bytes of `size`, then of `mtime_secs`.
pub open spec fn etag_hash(size: u64, mtime_secs: u64) -> u64 {
    fnv_le_bytes(fnv_le_bytes(0xcbf29ce484222325, size as nat, 8), mtime_secs as nat, 8)
}

/// The weak entity tag of a file: `W/"` and sixteen lower-case hex digits of
/// `etag_hash`, then `"`.
pub open spec fn etag_spec(size: u64, mtime_secs: u64) -> Seq<char> {
    seq!['W', '/', '"'] + hex_fixed(etag_hash(size, mtime_secs) as nat, 16, false) + seq!['"']
}

fn fnv_fold(h: u64, n: u64) -> (r: u64)
    ensures
        r == fnv_le_bytes(h, n as nat, 8),
{
    let mut hash = h;
    let mut v = n;
    let mut i: usize = 0;
    while i < 8
        invariant
            i <= 8,
            fnv_le_bytes(h, n as nat, 8) == fnv_le_bytes(hash, v as nat, (8 - i) as nat),
        decreases 8 - i,
    {
        let byte = (v % 256) as u8;
        hash = hash ^ (byte as u64);
        hash = hash.wrapping_mul(0x100000001b3);
        v = v / 256;
        i += 1;
    }
    hash
}

/// The weak entity tag of a file of `size` bytes last modified `mtime_secs`
/// seconds after the Unix epoch.
pub fn generate_etag(size: u64, mtime_secs: u64) -> (r: String)
    ensures
        r@ == etag_spec(size, mtime_secs),
{
    let h1 = fnv_fold(0xcbf29ce484222325, size);
    let h2 = fnv_fold(h1, mtime_secs);
    let mut out: Vec<char> = Vec::new();
    out.push('W');
    out.push('/');
    out.push('"');
    push_hex(&mut out, h2, 16, false);
    out.push('"');
    assert(out@ =~= etag_spec(size, mtime_secs));
    string_of(&out)
}

/// `s` without a leading `W/`.
pub open spec fn strip_weak_spec(s: Seq<char>) -> Seq<char> {
    if starts_with(s, seq!['W', '/']) {
        s.skip(2)
    } else {
        s
    }
}

fn strip_weak_chars(s: &Vec<char>) -> (r: Vec<char>)
    ensures
        r@ == strip_weak_spec(s@),
{
    let mut p: Vec<char> = Vec::new();
    p.push('W');
    p.push('/');
    assert(p@ =~= seq!['W', '/']);
    let n = s.len();
    if crate::text::starts_with_exec(s, &p) {
        slice_of(s, 2, n)
    } else {
        crate::text::copy(s)
    }
}

/// `s` without a leading `W/` (the weak marker of an entity tag).
pub fn strip_weak_prefix(s: &str) -> (r: String)
    ensures
        r@ == strip_weak_spec(s@),
{
    let v = chars_of(s);
    let r = strip_weak_chars(&v);
    string_of(&r)
}

/// Whether an `If-None-Match` value names `etag`: `*`, or one of its
/// comma-separated tags equal to `etag` once both lose a `W/` prefix.
pub open spec fn etag_matches_spec(header_value: Seq<char>, etag: Seq<char>) -> bool {
    let v = trim(header_value);
    ||| v == seq!['*']
    ||| exists|i: int|
        0 <= i < split_char(v, ',').len() && strip_weak_spec(trim(#[trigger] split_char(v, ',')[i]))
            == strip_weak_spec(etag)
}

/// Whether an `If-None-Match` value names `etag` (weak comparison).
pub fn etag_matches(header_value: &str, etag: &str) -> (r: bool)
    ensures
        r == etag_matches_spec(header_value@, etag@),
{
    let raw = chars_of(header_value);
    let v = trim_exec(&raw);
    let mut star: Vec<char> = Vec::new();
    star.push('*');
    assert(star@ =~= seq!['*']);
    if chars_eq(&v, &star) {
        return true;
    }
    let e = chars_of(etag);
    let a = strip_weak_chars(&e);
    let parts = split_char_exec(&v, ',');
    let ghost ps = views(parts@);
    let mut i: usize = 0;
    while i < parts.len()
        invariant
            i <= parts.len(),
            ps == views(parts@),
            ps == split_char(v@, ','),
            v@ == trim(header_value@),
            a@ == strip_weak_spec(etag@),
            forall|j: int| 0 <= j < i ==> strip_weak_spec(trim(#[trigger] ps[j])) != a@,
        decreases parts.len() - i,
    {
        let tag = trim_exec(&parts[i]);
        let b = strip_weak_chars(&tag);
        assert(parts@[i as int]@ == ps[i as int]);
        if chars_eq(&a, &b) {
            assert(strip_weak_spec(trim(split_char(v@, ',')[i as int])) == strip_weak_spec(etag@));
            return true;
        }
        i += 1;
    }
    false
}

// ---------------------------------------------------------------------------
// Answering a file request
// ---------------------------------------------------------------------------

/// The character sequences of a list of header pairs.
pub open spec fn pairs_view(v: Seq<(String, String)>) -> Seq<(Seq<char>, Seq<char>)> {
    v.map_values(|p: (String, String)| (p.0@, p.1@))
}

/// How a file request is answered.
pub struct FilePlan {
    /// The status code.
    pub status: u16,
    /// The reason phrase.
    pub reason: String,
    /// The response headers, in order.
    pub headers: Vec<(String, String)>,
    /// The offset of the first byte of the body in the file.
    pub start: u64,
    /// The number of bytes of the file that follow the headers (before a
    /// `HEAD` request drops them).
    pub body_len: u64,
}

/// The request headers that decide how a file is answered.
pub struct FileConditions {
    /// The `If-None-Match` header.
    pub if_none_match: Option<String>,
    /// The `Range` header.
    pub range: Option<String>,
    /// The `If-Range` header.
    pub if_range: Option<String>,
}

/// The character sequence of an optional string.
pub open spec fn opt_view(o: Option<String>) -> Option<Seq<char>> {
    match o {
        Some(s) => Some(s@),
        None => None,
    }
}

/// A `(name, value)` header with literal name.
pub open spec fn hdr(name: &str, value: Seq<char>) -> (Seq<char>, Seq<char>) {
    (name@, value)
}

/// Whether an `If-Range` value lets the range apply: it equals the file's
/// `Last-Modified` date or its (non-empty) entity tag, after trimming.
pub open spec fn if_range_allows(if_range: Option<Seq<char>>, last_modified: Option<Seq<char>>, etag: Seq<char>) -> bool {
    match if_range {
        Some(ir) => {
            let v = trim(ir);
            (last_modified == Some(v)) || (etag.len() > 0 && v == etag)
        },
        None => true,
    }
}

/// The answer to a file request, as (status, reason, headers, start, body length).
pub open spec fn file_plan_spec(
    file_len: u64,
    content_type: Seq<char>,
    last_modified: Option<Seq<char>>,
    etag: Seq<char>,
    if_none_match: Option<Seq<char>>,
    range: Option<Seq<char>>,
    if_range: Option<Seq<char>>,
) -> (u16, Seq<char>, Seq<(Seq<char>, Seq<char>)>, u64, u64) {
    let cache = hdr("Cache-Control", "public, max-age=3600"@);
    if etag.len() > 0 && (if_none_match matches Some(v) && etag_matches_spec(v, etag)) {
        (304, "Not Modified"@, seq![hdr("ETag", etag), cache], 0, 0)
    } else if range is Some && file_len == 0 {
        (
            416,
            "Range Not Satisfiable"@,
            seq![hdr("Content-Range", "bytes */0"@), hdr("Content-Length", "0"@)],
            0,
            0,
        )
    } else {
        let parsed = if if_range_allows(if_range, last_modified, etag) {
            match range {
                Some(r) => parse_range_spec(r, file_len),
                None => None,
            }
        } else {
            None
        };
        if parsed matches Some(Err(_)) {
            (
                416,
                "Range Not Satisfiable"@,
                seq![
                    hdr("Content-Range", "bytes */"@ + decimal(file_len as nat)),
                    hdr("Content-Length", "0"@),
                ],
                0,
                0,
            )
        } else {
            let (status, reason, start, end) = match parsed {
                Some(Ok((s, e))) => (206u16, "Partial Content"@, s, e),
                _ => (
                    200u16,
                    "OK"@,
                    0u64,
                    if file_len == 0 {
                        0u64
                    } else {
                        (file_len - 1) as u64
                    },
                ),
            };
            let content_len: u64 = if file_len == 0 {
                0
            } else {
                (end - start + 1) as u64
            };
            let base = seq![
                hdr("Content-Type", content_type),
                hdr("Content-Length", decimal(content_len as nat)),
                cache,
            ];
            let with_lm = match last_modified {
                Some(lm) => base.push(hdr("Last-Modified", lm)),
                None => base,
            };
            let with_etag = if etag.len() > 0 {
                with_lm.push(hdr("ETag", etag))
            } else {
                with_lm
            };
            let all = if status == 206 {
                with_etag.push(
                    hdr(
                        "Content-Range",
                        "bytes "@ + decimal(start as nat) + seq!['-'] + decimal(end as nat)
                            + seq!['/'] + decimal(file_len as nat),
                    ),
                )
            } else {
                with_etag
            };
            (status, reason, all, start, content_len)
        }
    }
}

fn pair(name: &str, value: Vec<char>) -> (r: (String, String))
    ensures
        r.0@ == name@,
        r.1@ == value@,
{
    (name.to_owned(), string_of(&value))
}

fn text_of(s: &str) -> (r: Vec<char>)
    ensures
        r@ == s@,
{
    chars_of(s)
}

/// Decides how a file of `file_len` bytes is answered, given its content type,
/// `Last-Modified` date, entity tag (empty when unknown) and the request's
/// conditional and range headers: `304` when `If-None-Match` names the tag;
/// `416` for a range on an empty file or a range it cannot serve; `206` with
/// `Content-Range` for a range that `If-Range` (if any) allows; else `200`.
pub fn plan_file_response(
    file_len: u64,
    content_type: &str,
    last_modified: &Option<String>,
    etag: &str,
    conditions: &FileConditions,
) -> (p: FilePlan)
    ensures
        (p.status, p.reason@, pairs_view(p.headers@), p.start, p.body_len) == file_plan_spec(
            file_len,
            content_type@,
            opt_view(*last_modified),
            etag@,
            opt_view(conditions.if_none_match),
            opt_view(conditions.range),
            opt_view(conditions.if_range),
        ),
        p.status == 206 ==> p.start + p.body_len <= file_len && p.body_len > 0,
        p.status == 200 ==> p.start == 0 && p.body_len == file_len,
        p.status == 304 || p.status == 416 ==> p.body_len == 0,
{
    let e = chars_of(etag);
    let cache = pair("Cache-Control", text_of("public, max-age=3600"));
    if e.len() > 0 {
        if let Some(inm) = &conditions.if_none_match {
            if etag_matches(inm.as_str(), etag) {
                let mut headers: Vec<(String, String)> = Vec::new();
                headers.push(pair("ETag", text_of(etag)));
                headers.push(cache);
                assert(pairs_view(headers@) =~= seq![hdr("ETag", etag@), hdr("Cache-Control", "public, max-age=3600"@)]);
                return FilePlan { status: 304, reason: "Not Modified".to_owned(), headers, start: 0, body_len: 0 };
            }
        }
    }
    if conditions.range.is_some() && file_len == 0 {
        let mut headers: Vec<(String, String)> = Vec::new();
        headers.push(pair("Content-Range", text_of("bytes */0")));
        headers.push(pair("Content-Length", text_of("0")));
        assert(pairs_view(headers@) =~= seq![hdr("Content-Range", "bytes */0"@), hdr("Content-Length", "0"@)]);
        return FilePlan {
            status: 416,
            reason: "Range Not Satisfiable".to_owned(),
            headers,
            start: 0,
            body_len: 0,
        };
    }
    let allowed = match &conditions.if_range {
        Some(ir) => {
            let raw = chars_of(ir.as_str());
            let v = trim_exec(&raw);
            let lm_match = match last_modified {
                Some(lm) => {
                    let lmv = chars_of(lm.as_str());
                    chars_eq(&lmv, &v)
                },
                None => false,
            };
            lm_match || (e.len() > 0 && chars_eq(&v, &e))
        },
        None => true,
    };
    assert(allowed == if_range_allows(opt_view(conditions.if_range), opt_view(*last_modified), etag@));
    let parsed = if allowed {
        match &conditions.range {
            Some(r) => parse_range(r.as_str(), file_len),
            None => None,
        }
    } else {
        None
    };
    let (status, start, end) = match parsed {
        Some(Ok((s, en))) => (206u16, s, en),
        Some(Err(_)) => {
            let mut cr: Vec<char> = text_of("bytes */");
            push_decimal(&mut cr, file_len);
            let mut headers: Vec<(String, String)> = Vec::new();
            headers.push(pair("Content-Range", cr));
            headers.push(pair("Content-Length", text_of("0")));
            assert(pairs_view(headers@) =~= seq![
                hdr("Content-Range", "bytes */"@ + decimal(file_len as nat)),
                hdr("Content-Length", "0"@),
            ]);
            return FilePlan {
                status: 416,
                reason: "Range Not Satisfiable".to_owned(),
                headers,
                start: 0,
                body_len: 0,
            };
        },
        None => (200u16, 0u64, if file_len == 0 { 0u64 } else { file_len - 1 }),
    };
    let content_len: u64 = if file_len == 0 { 0 } else { end - start + 1 };
    let mut cl: Vec<char> = Vec::new();
    push_decimal(&mut cl, content_len);
    let mut headers: Vec<(String, String)> = Vec::new();
    headers.push(pair("Content-Type", text_of(content_type)));
    headers.push(pair("Content-Length", cl));
    headers.push(cache);
    let ghost base = pairs_view(headers@);
    if let Some(lm) = last_modified {
        headers.push(pair("Last-Modified", chars_of(lm.as_str())));
    }
    let ghost with_lm = pairs_view(headers@);
    if e.len() > 0 {
        headers.push(pair("ETag", text_of(etag)));
    }
    let ghost with_etag = pairs_view(headers@);
    if status == 206 {
        let mut cr: Vec<char> = text_of("bytes ");
        push_decimal(&mut cr, start);
        cr.push('-');
        push_decimal(&mut cr, end);
        cr.push('/');
        push_decimal(&mut cr, file_len);
        assert(cr@ =~= "bytes "@ + decimal(start as nat) + seq!['-'] + decimal(end as nat) + seq!['/']
            + decimal(file_len as nat));
        let ghost before = pairs_view(headers@);
        let cr_pair = pair("Content-Range", cr);
        headers.push(cr_pair);
        assert(pairs_view(headers@) =~= before.push((cr_pair.0@, cr_pair.1@)));
    }
    let reason = if status == 206 { "Partial Content".to_owned() } else { "OK".to_owned() };
    proof {
        let lmv = opt_view(*last_modified);
        assert(base =~= seq![
            hdr("Content-Type", content_type@),
            hdr("Content-Length", decimal(content_len as nat)),
            hdr("Cache-Control", "public, max-age=3600"@),
        ]);
        assert(with_lm =~= (match lmv {
            Some(lm) => base.push(hdr("Last-Modified", lm)),
            None => base,
        }));
        assert(with_etag =~= (if etag@.len() > 0 {
            with_lm.push(hdr("ETag", etag@))
        } else {
            with_lm
        }));
        if status == 206 {
            assert(pairs_view(headers@) =~= with_etag.push(
                hdr(
                    "Content-Range",
                    "bytes "@ + decimal(start as nat) + seq!['-'] + decimal(end as nat) + seq!['/']
                        + decimal(file_len as nat),
                ),
            ));
        } else {
            assert(pairs_view(headers@) =~= with_etag);
        }
    }
    FilePlan { status, reason, headers, start, body_len: content_len }
}

proof fn lemma_tag_matches(t: Seq<char>, e: Seq<char>)
    requires
        t.len() > 0,
        !is_ws(t[0]),
        !is_ws(t.last()),
        forall|k: int| 0 <= k < t.len() ==> t[k] != ',',
        strip_weak_spec(t) == strip_weak_spec(e),
    ensures
        etag_matches_spec(t, e),
{
    lemma_trim_unchanged(t);
    lemma_split_char_without(t, ',');
    let parts = split_char(t, ',');
    assert(parts[0] == t);
    assert(strip_weak_spec(trim(parts[0])) == strip_weak_spec(e));
}

/// A client that sends back the entity tag it was given, with or without the
/// weak marker `W/`, names the file's tag.
pub proof fn law_etag_matches_itself(size: u64, mtime_secs: u64)
    ensures
        etag_matches_spec(etag_spec(size, mtime_secs), etag_spec(size, mtime_secs)),
        etag_matches_spec(strip_weak_spec(etag_spec(size, mtime_secs)), etag_spec(size, mtime_secs)),
{
    let e = etag_spec(size, mtime_secs);
    let h = hex_fixed(etag_hash(size, mtime_secs) as nat, 16, false);
    lemma_hex_fixed_digits(etag_hash(size, mtime_secs) as nat, 16, false);
    assert(e.len() == 20);
    assert forall|k: int| 0 <= k < e.len() implies e[k] != ',' by {
        if 3 <= k < 19 {
            assert(e[k] == h[k - 3]);
        }
    }
    assert(e.subrange(0, 2) =~= seq!['W', '/']);
    assert(starts_with(e, seq!['W', '/']));
    let s = e.skip(2);
    assert(strip_weak_spec(e) == s);
    assert(s[0] == '"');
    assert(!starts_with(s, seq!['W', '/']));
    assert(strip_weak_spec(s) == s);
    lemma_tag_matches(e, e);
    assert forall|k: int| 0 <= k < s.len() implies s[k] != ',' by {
        assert(s[k] == e[k + 2]);
    }
    lemma_tag_matches(s, e);
}

/// A range that can be served lies inside the file: its first byte is at or
/// before its last, and its last is before the end.
pub proof fn law_range_within_file(value: Seq<char>, file_len: u64)
    ensures
        parse_range_spec(value, file_len) matches Some(Ok((s, e))) ==> s <= e < file_len,
{
}

/// A file is answered `200` with the whole file, `206` with a non-empty part
/// of it, or `304`/`416` with no body.
pub proof fn law_file_body_within_file(
    file_len: u64,
    content_type: Seq<char>,
    last_modified: Option<Seq<char>>,
    etag: Seq<char>,
    if_none_match: Option<Seq<char>>,
    range: Option<Seq<char>>,
    if_range: Option<Seq<char>>,
)
    ensures
        ({
            let (status, _, _, start, len) = file_plan_spec(
                file_len,
                content_type,
                last_modified,
                etag,
                if_none_match,
                range,
                if_range,
            );
            &&& status == 200 || status == 206 || status == 304 || status == 416
            &&& status == 200 ==> start == 0 && len == file_len
            &&& status == 206 ==> 1 <= len && start + len <= file_len
            &&& (status == 304 || status == 416) ==> len == 0
        }),
{
    match range {
        Some(r) => law_range_within_file(r, file_len),
        None => {},
    }
}

/// A request that sends back the entity tag of the file, with or without the
/// weak marker, is answered `304 Not Modified` with no body, whatever its
/// range headers.
pub proof fn law_revalidation_not_modified(
    file_len: u64,
    mtime_secs: u64,
    content_type: Seq<char>,
    last_modified: Option<Seq<char>>,
    range: Option<Seq<char>>,
    if_range: Option<Seq<char>>,
    weak: bool,
)
    ensures
        ({
            let etag = etag_spec(file_len, mtime_secs);
            let sent = if weak {
                etag
            } else {
                strip_weak_spec(etag)
            };
            let plan = file_plan_spec(
                file_len,
                content_type,
                last_modified,
                etag,
                Some(sent),
                range,
                if_range,
            );
            plan.0 == 304 && plan.4 == 0
        }),
{
    law_etag_matches_itself(file_len, mtime_secs);
    assert(etag_spec(file_len, mtime_secs).len() > 0);
}

/// How `parse_range_spec` takes apart `bytes=X-Y` with `X` and `Y` digits.
proof fn lemma_range_text(x: Seq<char>, y: Seq<char>)
    requires
        all_digits(x),
        all_digits(y),
    ensures
        ({
            let v = "bytes="@ + x + seq!['-'] + y;
            let r = x + seq!['-'] + y;
            &&& trim(v) == v
            &&& starts_with(v, "bytes="@)
            &&& v.skip("bytes="@.len() as int) == r
            &&& index_of(r, ',') is None
            &&& trim(r) == r
            &&& split_once_char(r, '-') == Some((x, y))
        }),
{
    reveal_strlit("bytes=");
    let v = "bytes="@ + x + seq!['-'] + y;
    let r = x + seq!['-'] + y;
    assert(v[0] == 'b');
    if y.len() > 0 {
        assert(is_digit(y[y.len() - 1]));
        assert(v.last() == y[y.len() - 1]);
        assert(r.last() == y[y.len() - 1]);
    } else {
        assert(v.last() == '-');
        assert(r.last() == '-');
    }
    lemma_trim_unchanged(v);
    assert(v.subrange(0, 6) =~= "bytes="@);
    assert(v.skip(6) =~= r);
    assert forall|i: int| 0 <= i < r.len() implies r[i] != ',' by {
        if i < x.len() {
            assert(r[i] == x[i]);
            assert(is_digit(x[i]));
        } else if i > x.len() {
            assert(r[i] == y[i - x.len() - 1]);
            assert(is_digit(y[i - x.len() - 1]));
        }
    }
    lemma_index_of_absent(r, ',');
    if x.len() > 0 {
        assert(r[0] == x[0]);
        assert(is_digit(x[0]));
    }
    lemma_trim_unchanged(r);
    assert forall|i: int| 0 <= i < x.len() implies r[i] != '-' by {
        assert(r[i] == x[i]);
        assert(is_digit(x[i]));
    }
    lemma_index_of_at(r, '-', x.len() as int);
    assert(r.take(x.len() as int) =~= x);
    assert(r.skip(x.len() as int + 1) =~= y);
}

/// A `Range` header `bytes=a-b` on a non-empty file names the bytes from `a`
/// to `b`, cut at the end of the file: it is served exactly when `a` is in the
/// file and not after `b`, and is refused (`416`) otherwise. `bytes=a-` names
/// the bytes from `a` to the end; `bytes=-n` the last `n` bytes (all of them
/// when the file is shorter), and is refused for `n` = 0.
pub proof fn law_range_forms(a: u64, b: u64, file_len: u64)
    requires
        file_len > 0,
    ensures
        ({
            let r = parse_range_spec("bytes="@ + decimal(a as nat) + seq!['-'] + decimal(b as nat), file_len);
            &&& r is Some
            &&& (r matches Some(Ok(_))) <==> (a < file_len && a <= b)
            &&& r matches Some(Ok((s, e))) ==> s == a && e <= b && e < file_len && (e == b || e
                == file_len - 1)
        }),
        ({
            let r = parse_range_spec("bytes="@ + decimal(a as nat) + seq!['-'], file_len);
            &&& r is Some
            &&& (r matches Some(Ok(_))) <==> a < file_len
            &&& r matches Some(Ok((s, e))) ==> s == a && e == file_len - 1
        }),
        ({
            let r = parse_range_spec("bytes=-"@ + decimal(b as nat), file_len);
            &&& r is Some
            &&& (r matches Some(Ok(_))) <==> b > 0
            &&& r matches Some(Ok((s, e))) ==> e == file_len - 1 && (e - s + 1 == b || (b
                >= file_len && s == 0))
        }),
{
    reveal_strlit("bytes=-");
    reveal_strlit("bytes=");
    lemma_decimal_digits(a as nat);
    lemma_decimal_digits(b as nat);
    lemma_parse_decimal(a as nat, u64::MAX as nat);
    lemma_parse_decimal(b as nat, u64::MAX as nat);
    let da = decimal(a as nat);
    let db = decimal(b as nat);
    let empty = Seq::<char>::empty();
    assert(all_digits(empty));
    lemma_range_text(da, db);
    lemma_range_text(da, empty);
    lemma_range_text(empty, db);
    assert("bytes="@ + da + seq!['-'] + empty =~= "bytes="@ + da + seq!['-']);
    assert("bytes="@ + empty + seq!['-'] + db =~= "bytes=-"@ + db);
}

/// A range request whose `If-Range` is the file's own `Last-Modified` date, or
/// its own entity tag, is answered `206` with exactly the range asked for, its
/// `Content-Range` last among the headers; so is one without `If-Range`. One
/// whose `If-Range` is neither is answered `200` with the whole file.
/// (Unless `If-None-Match` names the file, which answers `304` first.)
pub proof fn law_if_range(
    file_len: u64,
    content_type: Seq<char>,
    last_modified: Option<Seq<char>>,
    etag: Seq<char>,
    if_none_match: Option<Seq<char>>,
    range: Seq<char>,
    if_range: Option<Seq<char>>,
)
    requires
        !(etag.len() > 0 && (if_none_match matches Some(v) && etag_matches_spec(v, etag))),
        file_len > 0,
    ensures
        ({
            let plan = file_plan_spec(
                file_len,
                content_type,
                last_modified,
                etag,
                if_none_match,
                Some(range),
                if_range,
            );
            let allowed = match if_range {
                None => true,
                Some(ir) => last_modified == Some(trim(ir)) || (etag.len() > 0 && trim(ir) == etag),
            };
            &&& allowed ==> (parse_range_spec(range, file_len) matches Some(Ok((s, e))) ==> {
                &&& plan.0 == 206
                &&& plan.3 == s
                &&& plan.4 == e - s + 1
                &&& plan.2.last() == hdr(
                    "Content-Range",
                    "bytes "@ + decimal(s as nat) + seq!['-'] + decimal(e as nat) + seq!['/'] + decimal(
                        file_len as nat,
                    ),
                )
            })
            &&& allowed ==> (parse_range_spec(range, file_len) matches Some(Err(_)) ==> plan.0 == 416
                && plan.4 == 0)
            &&& allowed ==> (parse_range_spec(range, file_len) is None ==> plan.0 == 200 && plan.3 == 0
                && plan.4 == file_len)
            &&& !allowed ==> plan.0 == 200 && plan.3 == 0 && plan.4 == file_len
        }),
{
}

/// A range asked of an empty file is answered `416` with `bytes */0`, whatever
/// `If-Range` says (unless `If-None-Match` names the file).
pub proof fn law_empty_file_range(
    content_type: Seq<char>,
    last_modified: Option<Seq<char>>,
    etag: Seq<char>,
    if_none_match: Option<Seq<char>>,
    range: Seq<char>,
    if_range: Option<Seq<char>>,
)
    requires
        !(etag.len() > 0 && (if_none_match matches Some(v) && etag_matches_spec(v, etag))),
    ensures
        ({
            let plan = file_plan_spec(0, content_type, last_modified, etag, if_none_match, Some(range), if_range);
            plan.0 == 416 && plan.4 == 0 && plan.2[0] == hdr("Content-Range", "bytes */0"@)
        }),
{
}

/// The headers of a file answer: a `200` or `206` names the content type and
/// the body's length first, and carries the file's `Last-Modified` date and
/// entity tag when known; a `416` names the file's length in `Content-Range`
/// and an empty body; a `304` carries the entity tag.
pub proof fn law_file_headers(
    file_len: u64,
    content_type: Seq<char>,
    last_modified: Option<Seq<char>>,
    etag: Seq<char>,
    if_none_match: Option<Seq<char>>,
    range: Option<Seq<char>>,
    if_range: Option<Seq<char>>,
)
    ensures
        ({
            let (status, reason, headers, start, len) = file_plan_spec(
                file_len,
                content_type,
                last_modified,
                etag,
                if_none_match,
                range,
                if_range,
            );
            &&& (status == 200 || status == 206) ==> {
                &&& headers.len() >= 3
                &&& headers[0] == hdr("Content-Type", content_type)
                &&& headers[1] == hdr("Content-Length", decimal(len as nat))
                &&& (last_modified matches Some(lm) ==> headers.contains(hdr("Last-Modified", lm)))
                &&& (etag.len() > 0 ==> headers.contains(hdr("ETag", etag)))
                &&& (status == 200 ==> reason == "OK"@)
                &&& (status == 206 ==> reason == "Partial Content"@)
            }
            &&& status == 416 ==> reason == "Range Not Satisfiable"@ && headers == seq![
                hdr("Content-Range", "bytes */"@ + decimal(file_len as nat)),
                hdr("Content-Length", "0"@),
            ]
            &&& status == 304 ==> reason == "Not Modified"@ && headers[0] == hdr("ETag", etag)
        }),
{
    reveal_strlit("bytes */");
    reveal_strlit("bytes */0");
    lemma_decimal_digits(0);
    assert("bytes */"@ + decimal(0) =~= "bytes */0"@);
    let plan = file_plan_spec(file_len, content_type, last_modified, etag, if_none_match, range, if_range);
    let headers = plan.2;
    if plan.0 == 200 || plan.0 == 206 {
        match last_modified {
            Some(lm) => {
                assert(headers[3] == hdr("Last-Modified", lm));
                if etag.len() > 0 {
                    assert(headers[4] == hdr("ETag", etag));
                }
            },
            None => {
                if etag.len() > 0 {
                    assert(headers[3] == hdr("ETag", etag));
                }
            },
        }
    }
}

/// A `Range` header is ignored unless, trimmed, it starts with `bytes=` and
/// names one range; any range asked of an empty file is refused.
pub proof fn law_range_ignored(value: Seq<char>, file_len: u64)
    ensures
        !starts_with(trim(value), "bytes="@) ==> parse_range_spec(value, file_len) is None,
        (starts_with(trim(value), "bytes="@) && (exists|i: int| 6 <= i < trim(value).len() && #[trigger] trim(value)[i] == ','))
            ==> parse_range_spec(value, file_len) is None,
        (starts_with(trim(value), "bytes="@) && (forall|i: int| 6 <= i < trim(value).len() ==> #[trigger] trim(value)[i] != ','))
            && file_len == 0 ==> parse_range_spec(value, file_len) == Some(Err::<(u64, u64), ()>(())),
{
    reveal_strlit("bytes=");
    let v = trim(value);
    let r = v.skip(6);
    if starts_with(v, "bytes="@) {
        if exists|i: int| 6 <= i < v.len() && #[trigger] v[i] == ',' {
            let i = choose|i: int| 6 <= i < v.len() && #[trigger] v[i] == ',';
            assert(r[i - 6] == ',');
            crate::text::lemma_find_from_bounds(r, seq![','], 0);
            assert(r.subrange(i - 6, i - 5) =~= seq![',']);
            assert(crate::text::occurs_at(r, seq![','], i - 6));
        } else {
            assert forall|j: int| 0 <= j < r.len() implies r[j] != ',' by {
                assert(r[j] == v[j + 6]);
            }
            lemma_index_of_absent(r, ',');
        }
    }
}

} // verus!
