//! The decisions and texts of the chunked upload API: which endpoint a
//! request names, the session metadata and its file format, chunk names,
//! expiry, and the JSON answers.
use vstd::prelude::*;
use vstd::utf8::{encode_utf8, is_ascii_chars, is_ascii_chars_encode_utf8};
use crate::text::{index_of, occurs_at, is_ws, lemma_trim_unchanged, lemma_split_char_without,
    lemma_split_char_nonempty, lemma_find_from_bounds, chars_of, string_of, views, contains, contains_str, trim,
    trim_exec, split_char, split_char_exec, split_once_char, split_once_char_exec, starts_with,
    starts_with_str, ascii_lower, ascii_lower_exec, push_str, push_all, slice_of, contains_char,
    replace_all, lemma_contains_char, lemma_contains_pair};
use crate::decimal::{hex_digit, digit_char, parse_unsigned, parse_u64, decimal, push_decimal, zero_pad,
    push_decimal_padded};
use crate::escape::{json_escape, json_escape_spec, json_field, json_field_spec, is_control,
    json_escape_char};
use crate::percent::{lossy_text, string_from_utf8_lossy};
use crate::request::{resolve_request_path, resolve_request_path_spec};
use crate::paths::{display_path, display_path_spec};
use crate::strmap::{StrMap, map_of, distinct_keys};
use crate::range::{pairs_view, parse_u64_spec};
use crate::sorting::{chars_lt, bytes_lt, bytes_lt_exec, stable_sort, insert_pos, sorted_by,
    law_stable_sort_sorted_permutation, law_bytes_lt_strict_order};

verus! {

broadcast use vstd::string::group_string_axioms;

/// The size of an upload chunk: 1 MiB.
pub const CHUNK_SIZE: u64 = 1048576;

/// How long an upload session lives: 24 hours, in seconds.
pub const UPLOAD_EXPIRY_SECS: u64 = 86400;

/// An endpoint of the upload API.
#[derive(Clone, Copy, Debug, PartialEq, Eq, Structural)]
pub enum UploadEndpoint {
    Init,
    Chunk,
    Finish,
    Status,
    Cancel,
    Unknown,
}

/// The upload endpoint that a target names, by the first of `/upload/init`,
/// `/upload/chunk`, `/upload/finish`, `/upload/status`, `/upload/cancel` that
/// it contains.
pub open spec fn upload_endpoint_spec(target: Seq<char>) -> UploadEndpoint {
    if contains(target, "/upload/init"@) {
        UploadEndpoint::Init
    } else if contains(target, "/upload/chunk"@) {
        UploadEndpoint::Chunk
    } else if contains(target, "/upload/finish"@) {
        UploadEndpoint::Finish
    } else if contains(target, "/upload/status"@) {
        UploadEndpoint::Status
    } else if contains(target, "/upload/cancel"@) {
        UploadEndpoint::Cancel
    } else {
        UploadEndpoint::Unknown
    }
}

/// The upload endpoint that a target names.
pub fn upload_endpoint(target: &str) -> (r: UploadEndpoint)
    ensures
        r == upload_endpoint_spec(target@),
{
    let t = chars_of(target);
    if contains_str(&t, "/upload/init") {
        UploadEndpoint::Init
    } else if contains_str(&t, "/upload/chunk") {
        UploadEndpoint::Chunk
    } else if contains_str(&t, "/upload/finish") {
        UploadEndpoint::Finish
    } else if contains_str(&t, "/upload/status") {
        UploadEndpoint::Status
    } else if contains_str(&t, "/upload/cancel") {
        UploadEndpoint::Cancel
    } else {
        UploadEndpoint::Unknown
    }
}

/// Whether an `Expect` header asks for `100 Continue` (it contains
/// `100-continue` in any case).
pub fn expects_continue(expect: Option<&str>) -> (r: bool)
    ensures
        r == (match expect {
            Some(v) => contains(ascii_lower(v@), "100-continue"@),
            None => false,
        }),
{
    match expect {
        Some(v) => {
            let c = chars_of(v);
            contains_str(&ascii_lower_exec(&c), "100-continue")
        },
        None => false,
    }
}

/// The body length that a `Content-Length` header gives: its number, or 0 when
/// it is missing or not a number.
pub fn content_length(header: Option<&str>) -> (r: usize)
    ensures
        r == (match header {
            Some(v) => match parse_unsigned(v@, usize::MAX as nat) {
                Some(n) => n as usize,
                None => 0usize,
            },
            None => 0usize,
        }),
{
    match header {
        Some(v) => {
            let c = chars_of(v);
            match crate::decimal::parse_unsigned_exec(&c, usize::MAX as u64) {
                Some(n) => n as usize,
                None => 0,
            }
        },
        None => 0,
    }
}

/// The number that metadata field `key` holds (std's `u64::from_str`), or 0.
pub open spec fn meta_number_spec(meta: Map<Seq<char>, Seq<char>>, key: Seq<char>) -> u64 {
    if meta.dom().contains(key) {
        match parse_u64_spec(meta[key]) {
            Some(v) => v,
            None => 0,
        }
    } else {
        0
    }
}

/// The number that metadata field `key` holds, or 0 when it is missing or not
/// a number.
pub fn meta_number(meta: &StrMap, key: &str) -> (r: u64)
    ensures
        r == meta_number_spec(meta@, key@),
{
    match meta.get(key) {
        Some(v) => {
            let c = chars_of(v.as_str());
            match parse_u64(&c) {
                Some(n) => n,
                None => 0,
            }
        },
        None => 0,
    }
}

/// The text that metadata field `key` holds, or the empty text.
pub open spec fn meta_text_spec(meta: Map<Seq<char>, Seq<char>>, key: Seq<char>) -> Seq<char> {
    if meta.dom().contains(key) {
        meta[key]
    } else {
        Seq::empty()
    }
}

/// The text that metadata field `key` holds, or the empty text.
pub fn meta_text(meta: &StrMap, key: &str) -> (r: String)
    ensures
        r@ == meta_text_spec(meta@, key@),
{
    match meta.get(key) {
        Some(v) => v,
        None => String::new(),
    }
}

/// Why an upload could not start.
#[derive(Clone, Copy, Debug, PartialEq, Eq, Structural)]
pub enum UploadInitError {
    /// The file name is empty or holds `..`, `/`, `\\` or NUL (answered `400`).
    InvalidFilename,
    /// The target folder is not under the root (answered `403`).
    PathNotAllowed,
}

/// Whether an upload's file name is refused.
pub open spec fn bad_filename(f: Seq<char>) -> bool {
    f.len() == 0 || contains(f, ".."@) || contains(f, "/"@) || contains(f, "\\"@) || contains(
        f,
        seq!['\0'],
    )
}

/// The fields that an upload's init request sets, from the body's JSON text.
pub open spec fn init_fields(body: Seq<char>) -> Map<Seq<char>, Seq<char>> {
    let m0 = Map::<Seq<char>, Seq<char>>::empty();
    let m1 = match json_field_spec(body, "path"@) {
        Some(v) => m0.insert("path"@, v),
        None => m0,
    };
    let m2 = match json_field_spec(body, "filename"@) {
        Some(v) => m1.insert("filename"@, v),
        None => m1,
    };
    let m3 = match json_field_spec(body, "size"@) {
        Some(v) => m2.insert("size"@, v),
        None => m2,
    };
    match json_field_spec(body, "mime"@) {
        Some(v) => m3.insert("mime"@, v),
        None => m3,
    }
}

/// How much of a request body is already at hand: the bytes that came with
/// the head, up to the body's length; the rest is still to be read.
pub fn body_prefix_split(prefix_len: usize, content_length: usize) -> (r: (usize, usize))
    ensures
        r.0 == (if prefix_len < content_length {
            prefix_len
        } else {
            content_length
        }),
        r.0 + r.1 == content_length,
{
    let used = if prefix_len < content_length {
        prefix_len
    } else {
        content_length
    };
    (used, content_length - used)
}

/// How a chunk body is split between the bytes that came with the head and
/// the bytes still to read: the bytes at hand are written only when they all
/// belong to the chunk; what is left to read is the length minus the bytes at
/// hand (none when they are more).
pub fn chunk_prefix_split(prefix_len: u64, content_length: u64) -> (r: (u64, u64))
    ensures
        r.0 == (if prefix_len <= content_length {
            prefix_len
        } else {
            0
        }),
        r.1 == (if prefix_len <= content_length {
            content_length - prefix_len
        } else {
            0
        }),
{
    if prefix_len <= content_length {
        (prefix_len, content_length - prefix_len)
    } else {
        (0, 0)
    }
}

/// The session and offset that a chunk request names: the `X-Upload-Id`
/// header trimmed (the request is refused without one) and the
/// `X-Chunk-Offset` header trimmed and read as a number (0 when missing or not
/// a number).
pub fn chunk_request(upload_id: Option<&str>, offset: Option<&str>) -> (r: Option<(String, u64)>)
    ensures
        upload_id is None ==> r is None,
        upload_id matches Some(id) ==> (r matches Some((rid, roff)) && rid@ == trim(id@) && roff == (
        match offset {
            Some(o) => match parse_u64_spec(trim(o@)) {
                Some(n) => n,
                None => 0,
            },
            None => 0,
        })),
{
    let id = match upload_id {
        Some(id) => string_of(&trim_exec(&chars_of(id))),
        None => {
            return None;
        },
    };
    let off = match offset {
        Some(o) => match parse_u64(&trim_exec(&chars_of(o))) {
            Some(n) => n,
            None => 0,
        },
        None => 0,
    };
    Some((id, off))
}

/// The lower-case hexadecimal numeral of `n` (`{:x}`).
pub open spec fn hex_lower(n: nat) -> Seq<char>
    decreases n,
{
    if n < 16 {
        seq![hex_digit(n, false)]
    } else {
        hex_lower(n / 16).push(hex_digit(n % 16, false))
    }
}

fn push_hex_lower(out: &mut Vec<char>, n: u128)
    ensures
        final(out)@ == old(out)@ + hex_lower(n as nat),
    decreases n,
{
    if n >= 16 {
        push_hex_lower(out, n / 16);
    }
    let d = (n % 16) as u8;
    let c: u8 = if d < 10 {
        48u8 + d
    } else {
        87u8 + d
    };
    out.push(c as char);
}

/// The id of a new upload session, from the time in nanoseconds and the
/// debug text of the thread's id: the time in lower-case hexadecimal (at least
/// sixteen digits) followed by the thread text, with `ThreadId(` and `)`
/// removed, cut to its first 32 characters.
pub open spec fn upload_id_spec(nanos: u128, thread: Seq<char>) -> Seq<char> {
    let raw = zero_pad(hex_lower(nanos as nat), 16) + thread;
    let cleaned = replace_all(replace_all(raw, "ThreadId("@, Seq::empty()), ")"@, Seq::empty());
    if cleaned.len() <= 32 {
        cleaned
    } else {
        cleaned.take(32)
    }
}

/// The id of a new upload session (see `upload_id_spec`).
pub fn upload_id(nanos: u128, thread: &str) -> (r: String)
    ensures
        r@ == upload_id_spec(nanos, thread@),
{
    let mut digits: Vec<char> = Vec::new();
    push_hex_lower(&mut digits, nanos);
    let mut raw: Vec<char> = Vec::new();
    let mut k: usize = digits.len();
    while k < 16
        invariant
            digits.len() <= k,
            k <= 16 || k == digits.len(),
            raw@ == Seq::new((k - digits.len()) as nat, |i: int| '0'),
        decreases 16 - k,
    {
        raw.push('0');
        k += 1;
        assert(raw@ =~= Seq::new((k - digits.len()) as nat, |i: int| '0'));
    }
    push_all(&mut raw, &digits);
    assert(raw@ =~= zero_pad(hex_lower(nanos as nat), 16));
    push_all(&mut raw, &chars_of(thread));
    let open = chars_of("ThreadId(");
    let close = chars_of(")");
    proof {
        reveal_strlit("ThreadId(");
        reveal_strlit(")");
    }
    let empty: Vec<char> = Vec::new();
    let a = crate::text::replace_exec(&raw, &open, &empty);
    let b = crate::text::replace_exec(&a, &close, &empty);
    assert(empty@ =~= Seq::<char>::empty());
    let n = b.len();
    if n <= 32 {
        string_of(&b)
    } else {
        string_of(&slice_of(&b, 0, 32))
    }
}

/// The metadata of a new upload session, or why it is refused: the body's
/// `path`, `filename`, `size` and `mime` fields; the file name must be
/// acceptable and the path (default `/`) must name a folder under the root;
/// then the session's id, `received_bytes` 0, its creation time, and the target
/// folder as shown.
pub open spec fn upload_init_spec(body: Seq<u8>, root: Seq<char>, id: Seq<char>, now_secs: u64) -> Result<
    Map<Seq<char>, Seq<char>>,
    UploadInitError,
> {
    let fields = init_fields(lossy_text(body));
    let filename = meta_text_spec(fields, "filename"@);
    let path = if fields.dom().contains("path"@) {
        fields["path"@]
    } else {
        "/"@
    };
    if bad_filename(filename) {
        Err(UploadInitError::InvalidFilename)
    } else {
        match resolve_request_path_spec(root, path) {
            None => Err(UploadInitError::PathNotAllowed),
            Some(resolved) => Ok(
                fields.insert("id"@, id).insert("received_bytes"@, "0"@).insert(
                    "created_at"@,
                    decimal(now_secs as nat),
                ).insert("target_dir"@, display_path_spec(resolved)),
            ),
        }
    }
}

fn set_field(meta: &mut StrMap, body: &str, key: &str)
    ensures
        final(meta)@ == (match json_field_spec(body@, key@) {
            Some(v) => old(meta)@.insert(key@, v),
            None => old(meta)@,
        }),
{
    match json_field(body, key) {
        Some(v) => meta.insert(key, v.as_str()),
        None => {},
    }
}

/// The metadata of a new upload session (see `upload_init_spec`), given the
/// request body, the root, and the session's id and creation time.
pub fn upload_init_meta(body: &[u8], root: &str, id: &str, now_secs: u64) -> (r: Result<
    StrMap,
    UploadInitError,
>)
    ensures
        r matches Ok(m) ==> upload_init_spec(body@, root@, id@, now_secs) == Ok::<
            _,
            UploadInitError,
        >(m@),
        r matches Err(e) ==> upload_init_spec(body@, root@, id@, now_secs) == Err::<
            Map<Seq<char>, Seq<char>>,
            UploadInitError,
        >(e),
{
    let text = string_from_utf8_lossy(body);
    let t = text.as_str();
    let mut meta = StrMap::new();
    set_field(&mut meta, t, "path");
    set_field(&mut meta, t, "filename");
    set_field(&mut meta, t, "size");
    set_field(&mut meta, t, "mime");
    assert(meta@ == init_fields(lossy_text(body@)));
    let filename = meta_text(&meta, "filename");
    let path = match meta.get("path") {
        Some(p) => p,
        None => "/".to_owned(),
    };
    let f = chars_of(filename.as_str());
    if f.len() == 0 || contains_str(&f, "..") || contains_str(&f, "/") || contains_str(&f, "\\")
        || contains_char(&f, '\0') {
        return Err(UploadInitError::InvalidFilename);
    }
    let resolved = match resolve_request_path(root, path.as_str()) {
        Some(p) => p,
        None => {
            return Err(UploadInitError::PathNotAllowed);
        },
    };
    meta.insert("id", id);
    meta.insert("received_bytes", "0");
    let created = crate::decimal::decimal_string(now_secs);
    meta.insert("created_at", created.as_str());
    let shown = display_path(resolved.as_str());
    meta.insert("target_dir", shown.as_str());
    Ok(meta)
}

/// The file form of upload metadata: `{`, then `"key":"value"` for each field
/// (the value JSON-escaped, the key as is) joined by commas, then `}`.
pub open spec fn meta_json(pairs: Seq<(Seq<char>, Seq<char>)>) -> Seq<char>
    decreases pairs.len(),
{
    if pairs.len() == 0 {
        Seq::empty()
    } else {
        let init = meta_json(pairs.drop_last());
        let sep = if pairs.len() > 1 {
            seq![',']
        } else {
            Seq::empty()
        };
        init + sep + seq!['"'] + pairs.last().0 + seq!['"', ':', '"'] + json_escape_spec(
            pairs.last().1,
        ) + seq!['"']
    }
}

/// The text of the metadata file of an upload session: each field once, in the
/// order the fields were first set (a `HashMap` gives no order to keep).
pub fn format_upload_meta(meta: &StrMap) -> (r: String)
    ensures
        exists|pairs: Seq<(Seq<char>, Seq<char>)>|
            map_of(pairs) == meta@ && distinct_keys(pairs) && r@ == seq!['{'] + meta_json(pairs)
                + seq!['}'],
{
    let pairs = meta.pairs();
    let ghost ps = pairs_view(pairs@);
    let mut out: Vec<char> = Vec::new();
    out.push('{');
    let mut i: usize = 0;
    assert(ps.take(0) =~= Seq::<(Seq<char>, Seq<char>)>::empty());
    while i < pairs.len()
        invariant
            i <= pairs.len(),
            ps == pairs_view(pairs@),
            out@ == seq!['{'] + meta_json(ps.take(i as int)),
        decreases pairs.len() - i,
    {
        assert(ps.take(i + 1).drop_last() =~= ps.take(i as int));
        assert(ps.take(i + 1).last() == ps[i as int]);
        let ghost before = out@;
        if i > 0 {
            out.push(',');
        }
        out.push('"');
        push_str(&mut out, pairs[i].0.as_str());
        out.push('"');
        out.push(':');
        out.push('"');
        let v = json_escape(pairs[i].1.as_str());
        push_str(&mut out, v.as_str());
        out.push('"');
        i += 1;
        assert(out@ =~= seq!['{'] + meta_json(ps.take(i as int)));
    }
    assert(ps.take(pairs.len() as int) =~= ps);
    out.push('}');
    string_of(&out)
}

/// `s` without the leading characters that `cs` holds.
pub open spec fn trim_start_by(s: Seq<char>, cs: Seq<char>) -> Seq<char>
    decreases s.len(),
{
    if s.len() > 0 && cs.contains(s[0]) {
        trim_start_by(s.drop_first(), cs)
    } else {
        s
    }
}

/// `s` without the trailing characters that `cs` holds.
pub open spec fn trim_end_by(s: Seq<char>, cs: Seq<char>) -> Seq<char>
    decreases s.len(),
{
    if s.len() > 0 && cs.contains(s.last()) {
        trim_end_by(s.drop_last(), cs)
    } else {
        s
    }
}

/// `s` without the characters that `cs` holds at either end (std's
/// `trim_matches` with a set of characters).
pub open spec fn trim_by(s: Seq<char>, cs: Seq<char>) -> Seq<char> {
    trim_end_by(trim_start_by(s, cs), cs)
}

fn is_one_of(cs: &Vec<char>, x: char) -> (b: bool)
    ensures
        b == cs@.contains(x),
{
    let mut i: usize = 0;
    while i < cs.len()
        invariant
            i <= cs.len(),
            forall|k: int| 0 <= k < i ==> cs@[k] != x,
        decreases cs.len() - i,
    {
        if cs[i] == x {
            assert(cs@[i as int] == x);
            return true;
        }
        i += 1;
    }
    false
}

fn trim_by_exec(s: &Vec<char>, cs: &Vec<char>) -> (r: Vec<char>)
    ensures
        r@ == trim_by(s@, cs@),
{
    let mut i: usize = 0;
    assert(s@.skip(0) == s@);
    while i < s.len() && is_one_of(cs, s[i])
        invariant
            i <= s.len(),
            trim_start_by(s@, cs@) == trim_start_by(s@.skip(i as int), cs@),
        decreases s.len() - i,
    {
        assert(s@.skip(i as int)[0] == s@[i as int]);
        assert(s@.skip(i as int).drop_first() == s@.skip(i + 1));
        i += 1;
    }
    let n = s.len();
    let t = slice_of(s, i, n);
    assert(t@ == trim_start_by(s@, cs@));
    let mut j: usize = t.len();
    assert(t@.take(t.len() as int) == t@);
    while j > 0 && is_one_of(cs, t[j - 1])
        invariant
            j <= t.len(),
            trim_end_by(t@, cs@) == trim_end_by(t@.take(j as int), cs@),
        decreases j,
    {
        assert(t@.take(j as int).last() == t@[j - 1]);
        assert(t@.take(j as int).drop_last() == t@.take(j - 1));
        j -= 1;
    }
    slice_of(&t, 0, j)
}

/// One `key:value` piece of a metadata file: key and value trimmed and
/// stripped of quotes at their ends; a piece without a colon is skipped.
pub open spec fn meta_piece(m: Map<Seq<char>, Seq<char>>, piece: Seq<char>) -> Map<Seq<char>, Seq<char>> {
    match split_once_char(piece, ':') {
        Some((k, v)) => m.insert(
            trim_by(trim(k), seq!['"']),
            trim_by(trim(v), seq!['"']),
        ),
        None => m,
    }
}

/// The fields of the pieces, in order.
pub open spec fn meta_pieces(pieces: Seq<Seq<char>>) -> Map<Seq<char>, Seq<char>>
    decreases pieces.len(),
{
    if pieces.len() == 0 {
        Map::empty()
    } else {
        meta_piece(meta_pieces(pieces.drop_last()), pieces.last())
    }
}

/// The fields of a metadata file's text: braces and spaces trimmed from its
/// ends, split at commas, each piece read by `meta_piece`.
pub open spec fn parse_upload_meta_spec(content: Seq<char>) -> Map<Seq<char>, Seq<char>> {
    meta_pieces(split_char(trim_by(content, seq!['{', '}', ' ']), ','))
}

/// Reads the fields of an upload session's metadata file.
pub fn parse_upload_meta(content: &str) -> (r: StrMap)
    ensures
        r@ == parse_upload_meta_spec(content@),
{
    let c = chars_of(content);
    let braces = vec!['{', '}', ' '];
    let quotes = vec!['"'];
    assert(braces@ == seq!['{', '}', ' ']);
    assert(quotes@ == seq!['"']);
    let body = trim_by_exec(&c, &braces);
    let pieces = split_char_exec(&body, ',');
    let ghost ps = views(pieces@);
    let mut map = StrMap::new();
    let mut i: usize = 0;
    assert(ps.take(0) =~= Seq::<Seq<char>>::empty());
    while i < pieces.len()
        invariant
            i <= pieces.len(),
            ps == views(pieces@),
            quotes@ == seq!['"'],
            map@ == meta_pieces(ps.take(i as int)),
        decreases pieces.len() - i,
    {
        assert(ps.take(i + 1).drop_last() =~= ps.take(i as int));
        assert(ps.take(i + 1).last() == ps[i as int]);
        if let Some((k, v)) = split_once_char_exec(&pieces[i], ':') {
            let kk = trim_by_exec(&trim_exec(&k), &quotes);
            let vv = trim_by_exec(&trim_exec(&v), &quotes);
            let ks = string_of(&kk);
            let vs = string_of(&vv);
            map.insert(ks.as_str(), vs.as_str());
        }
        i += 1;
    }
    assert(ps.take(pieces.len() as int) =~= ps);
    map
}

/// The file name of the chunk that starts at `offset`: `chunk-` and its index
/// (offset over `CHUNK_SIZE`) with at least six digits.
pub open spec fn chunk_name(offset: u64) -> Seq<char> {
    "chunk-"@ + zero_pad(decimal((offset / CHUNK_SIZE) as nat), 6)
}

/// The file name of the chunk that starts at `offset`.
pub fn chunk_file_name(offset: u64) -> (r: String)
    ensures
        r@ == chunk_name(offset),
{
    let mut v: Vec<char> = Vec::new();
    push_str(&mut v, "chunk-");
    push_decimal_padded(&mut v, offset / CHUNK_SIZE, 6);
    string_of(&v)
}

/// Adds `written` bytes to the session's `received_bytes`.
pub fn record_chunk(meta: &mut StrMap, written: u64)
    requires
        meta_number_spec(old(meta)@, "received_bytes"@) + written <= u64::MAX,
    ensures
        final(meta)@ == old(meta)@.insert(
            "received_bytes"@,
            decimal((meta_number_spec(old(meta)@, "received_bytes"@) + written) as nat),
        ),
{
    let prev = meta_number(meta, "received_bytes");
    let total = crate::decimal::decimal_string(prev + written);
    meta.insert("received_bytes", total.as_str());
}

/// Whether an upload session has expired at `now`: more than a day after its
/// `created_at` (0 when missing).
pub fn upload_expired(now: u64, meta: &StrMap) -> (r: bool)
    ensures
        r == (now >= meta_number_spec(meta@, "created_at"@) && now - meta_number_spec(
            meta@,
            "created_at"@,
        ) > UPLOAD_EXPIRY_SECS),
{
    let created = meta_number(meta, "created_at");
    now.saturating_sub(created) > UPLOAD_EXPIRY_SECS
}

/// The chunk files of a session, in name order: the names that start with
/// `chunk-`.
pub open spec fn is_chunk_name(name: Seq<char>) -> bool {
    starts_with(name, "chunk-"@)
}

/// A file in a session folder: its name (ill-formed UTF-8 replaced) and the
/// bytes of its name as the file system gives them.
pub type SessionFile = (String, Vec<u8>);

/// The views of session files.
pub open spec fn file_views(v: Seq<SessionFile>) -> Seq<(Seq<char>, Seq<u8>)> {
    v.map_values(|f: SessionFile| (f.0@, f.1@))
}

/// The session files that hold chunks, in their order.
pub open spec fn chunk_files(fs: Seq<(Seq<char>, Seq<u8>)>) -> Seq<(Seq<char>, Seq<u8>)>
    decreases fs.len(),
{
    if fs.len() == 0 {
        Seq::empty()
    } else if is_chunk_name(fs.last().0) {
        chunk_files(fs.drop_last()).push(fs.last())
    } else {
        chunk_files(fs.drop_last())
    }
}

/// Merge order of chunk files: by the bytes of their names.
pub open spec fn chunk_order() -> spec_fn((Seq<char>, Seq<u8>), (Seq<char>, Seq<u8>)) -> bool {
    |a: (Seq<char>, Seq<u8>), b: (Seq<char>, Seq<u8>)| bytes_lt(a.1, b.1)
}

/// The chunk files of a session folder in the order they are merged: the
/// files whose names start with `chunk-`, sorted by name.
pub fn chunk_merge_order(files: Vec<SessionFile>) -> (r: Vec<SessionFile>)
    ensures
        file_views(r@) == stable_sort(chunk_files(file_views(files@)), chunk_order()),
{
    let ghost ins = file_views(files@);
    let mut rest = files;
    let mut out: Vec<SessionFile> = Vec::new();
    let mut i: usize = 0;
    let n = rest.len();
    assert(ins.take(0) =~= Seq::<(Seq<char>, Seq<u8>)>::empty());
    while rest.len() > 0
        invariant
            i + rest.len() == n,
            n == ins.len(),
            file_views(rest@) == ins.skip(i as int),
            file_views(out@) == stable_sort(chunk_files(ins.take(i as int)), chunk_order()),
        decreases rest.len(),
    {
        let ghost old_rest = rest@;
        assert(file_views(old_rest)[0] == (old_rest[0].0@, old_rest[0].1@));
        let x = rest.remove(0);
        assert forall|j: int| 0 <= j < rest@.len() implies #[trigger] file_views(rest@)[j]
            == ins.skip(i + 1)[j] by {
            assert(rest@[j] == old_rest[j + 1]);
            assert(file_views(old_rest)[j + 1] == ins.skip(i as int)[j + 1]);
        }
        assert(file_views(rest@) =~= ins.skip(i + 1));
        let ghost xs = (x.0@, x.1@);
        assert(ins.take(i + 1).drop_last() =~= ins.take(i as int));
        assert(ins.take(i + 1).last() == xs);
        let ghost c = chunk_files(ins.take(i as int));
        assert(chunk_files(ins.take(i + 1)) == if is_chunk_name(xs.0) {
            c.push(xs)
        } else {
            c
        });
        let name = chars_of(x.0.as_str());
        if starts_with_str(&name, "chunk-") {
            assert(c.push(xs).drop_last() =~= c);
            assert(c.push(xs).last() == xs);
            let ghost sorted = file_views(out@);
            let mut p: usize = 0;
            while p < out.len() && !bytes_lt_exec(&x.1, &out[p].1)
                invariant
                    p <= out.len(),
                    sorted == file_views(out@),
                    xs == (x.0@, x.1@),
                    insert_pos(sorted, xs, chunk_order(), 0) == insert_pos(
                        sorted,
                        xs,
                        chunk_order(),
                        p as int,
                    ),
                decreases out.len() - p,
            {
                assert(sorted[p as int] == (out@[p as int].0@, out@[p as int].1@));
                p += 1;
            }
            proof {
                if p < out.len() {
                    assert(sorted[p as int] == (out@[p as int].0@, out@[p as int].1@));
                }
            }
            out.insert(p, x);
            proof {
                assert(file_views(out@) =~= sorted.take(p as int).push(xs) + sorted.skip(p as int));
            }
        }
        i += 1;
    }
    assert(ins.take(n as int) =~= ins);
    out
}

/// The answer to an upload init: the session id and the chunk size.
pub fn upload_init_response(id: &str) -> (r: String)
    ensures
        r@ == "{\"id\":\""@ + json_escape_spec(id@) + "\",\"chunk_size\":1048576}"@,
{
    let mut v: Vec<char> = Vec::new();
    push_str(&mut v, "{\"id\":\"");
    push_str(&mut v, json_escape(id).as_str());
    push_str(&mut v, "\",\"chunk_size\":1048576}");
    string_of(&v)
}

/// The answer to a stored chunk: its offset and the bytes written.
pub fn upload_chunk_response(offset: u64, written: u64) -> (r: String)
    ensures
        r@ == "{\"ok\":true,\"offset\":"@ + decimal(offset as nat) + ",\"written\":"@ + decimal(
            written as nat,
        ) + "}"@,
{
    let mut v: Vec<char> = Vec::new();
    push_str(&mut v, "{\"ok\":true,\"offset\":");
    push_decimal(&mut v, offset);
    push_str(&mut v, ",\"written\":");
    push_decimal(&mut v, written);
    push_str(&mut v, "}");
    string_of(&v)
}

/// The answer to a finished upload: the file name and the bytes merged.
pub fn upload_finish_response(filename: &str, bytes: u64) -> (r: String)
    ensures
        r@ == "{\"ok\":true,\"filename\":\""@ + json_escape_spec(filename@) + "\",\"bytes\":"@
            + decimal(bytes as nat) + "}"@,
{
    let mut v: Vec<char> = Vec::new();
    push_str(&mut v, "{\"ok\":true,\"filename\":\"");
    push_str(&mut v, json_escape(filename).as_str());
    push_str(&mut v, "\",\"bytes\":");
    push_decimal(&mut v, bytes);
    push_str(&mut v, "}");
    string_of(&v)
}

/// The answer to a status query: the id, the file name, the bytes received and
/// the announced size (0 when missing or not a number).
pub fn upload_status_response(id: &str, meta: &StrMap) -> (r: String)
    ensures
        r@ == "{\"id\":\""@ + json_escape_spec(id@) + "\",\"filename\":\""@ + json_escape_spec(
            meta_text_spec(meta@, "filename"@),
        ) + "\",\"received_bytes\":"@ + decimal(meta_number_spec(meta@, "received_bytes"@) as nat)
            + ",\"total_size\":"@ + decimal(meta_number_spec(meta@, "size"@) as nat) + "}"@,
{
    let received = meta_number(meta, "received_bytes");
    let total = meta_number(meta, "size");
    let filename = meta_text(meta, "filename");
    let mut v: Vec<char> = Vec::new();
    push_str(&mut v, "{\"id\":\"");
    push_str(&mut v, json_escape(id).as_str());
    push_str(&mut v, "\",\"filename\":\"");
    push_str(&mut v, json_escape(filename.as_str()).as_str());
    push_str(&mut v, "\",\"received_bytes\":");
    push_decimal(&mut v, received);
    push_str(&mut v, ",\"total_size\":");
    push_decimal(&mut v, total);
    push_str(&mut v, "}");
    string_of(&v)
}

/// The answer to an error: `{"error":"..."}` with the message JSON-escaped.
pub fn json_error(message: &str) -> (r: String)
    ensures
        r@ == "{\"error\":\""@ + json_escape_spec(message@) + "\"}"@,
{
    let mut v: Vec<char> = Vec::new();
    push_str(&mut v, "{\"error\":\"");
    push_str(&mut v, json_escape(message).as_str());
    push_str(&mut v, "\"}");
    string_of(&v)
}

proof fn lemma_chunk_files_names(fs: Seq<(Seq<char>, Seq<u8>)>)
    ensures
        forall|i: int| 0 <= i < chunk_files(fs).len() ==> is_chunk_name(#[trigger] chunk_files(fs)[i].0),
    decreases fs.len(),
{
    if fs.len() > 0 {
        let prev = chunk_files(fs.drop_last());
        lemma_chunk_files_names(fs.drop_last());
        assert forall|i: int| 0 <= i < chunk_files(fs).len() implies is_chunk_name(
            #[trigger] chunk_files(fs)[i].0,
        ) by {
            if i < prev.len() {
                assert(chunk_files(fs)[i] == prev[i]);
            }
        }
    }
}

/// The chunks of a session are merged in the order of their names' bytes,
/// each chunk file once, and nothing else is merged.
pub proof fn law_chunk_merge_order(fs: Seq<(Seq<char>, Seq<u8>)>)
    ensures
        sorted_by(stable_sort(chunk_files(fs), chunk_order()), chunk_order()),
        stable_sort(chunk_files(fs), chunk_order()).to_multiset() == chunk_files(fs).to_multiset(),
        forall|i: int|
            0 <= i < stable_sort(chunk_files(fs), chunk_order()).len() ==> is_chunk_name(
                #[trigger] stable_sort(chunk_files(fs), chunk_order())[i].0,
            ),
{
    law_bytes_lt_strict_order();
    let blt = |a: Seq<u8>, b: Seq<u8>| bytes_lt(a, b);
    let lt = chunk_order();
    assert forall|a: (Seq<char>, Seq<u8>)| !(#[trigger] lt(a, a)) by {
        assert(!blt(a.1, a.1));
    }
    assert forall|a: (Seq<char>, Seq<u8>), b: (Seq<char>, Seq<u8>), c: (Seq<char>, Seq<u8>)|
        #[trigger] lt(a, b) && #[trigger] lt(b, c) implies lt(a, c) by {
        assert(blt(a.1, b.1) && blt(b.1, c.1));
    }
    let c = chunk_files(fs);
    law_stable_sort_sorted_permutation(c, lt);
    lemma_chunk_files_names(fs);
    let r = stable_sort(c, lt);
    assert forall|i: int| 0 <= i < r.len() implies is_chunk_name(#[trigger] r[i].0) by {
        r.to_multiset_ensures();
        c.to_multiset_ensures();
        assert(r.contains(r[i]));
        assert(r.to_multiset().count(r[i]) > 0);
        assert(c.to_multiset().count(r[i]) > 0);
        assert(c.contains(r[i]));
        let k = choose|k: int| 0 <= k < c.len() && c[k] == r[i];
        assert(is_chunk_name(c[k].0));
    }
}

/// A metadata key that its file form keeps apart: no `,`, `:` or `"`.
pub open spec fn plain_key(k: Seq<char>) -> bool {
    forall|i: int| 0 <= i < k.len() ==> k[i] != ',' && k[i] != ':' && k[i] != '"'
}

/// A metadata value that its file form keeps as it is: no `,`, `"`, `\` or
/// control character.
pub open spec fn plain_value(v: Seq<char>) -> bool {
    forall|i: int| 0 <= i < v.len() ==> v[i] != ',' && v[i] != '"' && v[i] != '\\' && !is_control(v[i])
}

/// Every key and value is plain.
pub open spec fn plain_pairs(pairs: Seq<(Seq<char>, Seq<char>)>) -> bool {
    forall|i: int| 0 <= i < pairs.len() ==> plain_key(#[trigger] pairs[i].0) && plain_value(pairs[i].1)
}

/// The text of one field in a metadata file.
pub open spec fn meta_field_text(k: Seq<char>, v: Seq<char>) -> Seq<char> {
    seq!['"'] + k + seq!['"', ':', '"'] + v + seq!['"']
}

/// The texts of the fields, in order.
pub open spec fn meta_field_texts(pairs: Seq<(Seq<char>, Seq<char>)>) -> Seq<Seq<char>>
    decreases pairs.len(),
{
    if pairs.len() == 0 {
        Seq::empty()
    } else {
        meta_field_texts(pairs.drop_last()).push(meta_field_text(pairs.last().0, pairs.last().1))
    }
}

proof fn lemma_plain_pairs_init(pairs: Seq<(Seq<char>, Seq<char>)>)
    requires
        pairs.len() > 0,
        plain_pairs(pairs),
    ensures
        plain_pairs(pairs.drop_last()),
        plain_key(pairs.last().0),
        plain_value(pairs.last().1),
{
    let init = pairs.drop_last();
    assert forall|i: int| 0 <= i < init.len() implies plain_key(#[trigger] init[i].0) && plain_value(
        init[i].1,
    ) by {
        assert(init[i] == pairs[i]);
        assert(plain_key(pairs[i].0));
    }
    assert(plain_key(pairs[pairs.len() - 1].0));
}

proof fn lemma_json_escape_plain(v: Seq<char>)
    requires
        plain_value(v),
    ensures
        json_escape_spec(v) == v,
    decreases v.len(),
{
    if v.len() > 0 {
        lemma_json_escape_plain(v.drop_last());
        assert(v.drop_last().push(v.last()) =~= v);
        assert(json_escape_char(v.last()) == seq![v.last()]);
    }
}

proof fn lemma_split_char_join(x: Seq<char>, y: Seq<char>, c: char)
    ensures
        split_char(x + seq![c] + y, c) == split_char(x, c) + split_char(y, c),
    decreases y.len(),
{
    let z = x + seq![c] + y;
    if y.len() == 0 {
        assert(z.drop_last() =~= x);
        assert(split_char(z, c) =~= split_char(x, c) + split_char(y, c));
    } else {
        lemma_split_char_join(x, y.drop_last(), c);
        assert(z.drop_last() =~= x + seq![c] + y.drop_last());
        lemma_split_char_nonempty(y.drop_last(), c);
        lemma_split_char_nonempty(x, c);
        let a = split_char(x, c);
        let b = split_char(y.drop_last(), c);
        if y.last() == c {
            assert(split_char(z, c) =~= a + split_char(y, c));
        } else {
            assert((a + b).last() == b.last());
            assert((a + b).update((a + b).len() - 1, b.last().push(y.last())) =~= a + b.update(
                b.len() - 1,
                b.last().push(y.last()),
            ));
            assert(split_char(z, c) =~= a + split_char(y, c));
        }
    }
}

proof fn lemma_meta_json_split(pairs: Seq<(Seq<char>, Seq<char>)>)
    requires
        pairs.len() > 0,
        plain_pairs(pairs),
    ensures
        split_char(meta_json(pairs), ',') == meta_field_texts(pairs),
        meta_json(pairs).len() > 0,
        meta_json(pairs)[0] == '"',
        meta_json(pairs).last() == '"',
    decreases pairs.len(),
{
    let init = pairs.drop_last();
    let (k, v) = pairs.last();
    assert(plain_key(pairs[pairs.len() - 1].0));
    lemma_json_escape_plain(v);
    let t = meta_field_text(k, v);
    assert forall|i: int| 0 <= i < t.len() implies t[i] != ',' by {
        if 1 <= i < 1 + k.len() {
            assert(t[i] == k[i - 1]);
        } else if 4 + k.len() <= i < 4 + k.len() + v.len() {
            assert(t[i] == v[i - 4 - k.len()]);
        }
    }
    lemma_split_char_without(t, ',');
    if init.len() == 0 {
        assert(meta_json(init) =~= Seq::<char>::empty());
        assert(meta_field_texts(init) =~= Seq::<Seq<char>>::empty());
        assert(meta_json(pairs) =~= t);
        assert(meta_field_texts(pairs) =~= seq![t]);
    } else {
        lemma_plain_pairs_init(pairs);
        lemma_meta_json_split(init);
        assert(meta_json(pairs) =~= meta_json(init) + seq![','] + t);
        lemma_split_char_join(meta_json(init), t, ',');
        assert(meta_field_texts(pairs) =~= meta_field_texts(init) + seq![t]);
    }
}

proof fn lemma_index_of_first(s: Seq<char>, c: char, j: int)
    requires
        0 <= j < s.len(),
        s[j] == c,
        forall|i: int| 0 <= i < j ==> s[i] != c,
    ensures
        index_of(s, c) == Some(j),
{
    lemma_find_from_bounds(s, seq![c], 0);
    assert(s.subrange(j, j + 1) =~= seq![c]);
    assert(occurs_at(s, seq![c], j));
    match index_of(s, c) {
        Some(k) => {
            assert(occurs_at(s, seq![c], k));
            assert(s.subrange(k, k + 1)[0] == s[k]);
            if k < j {
                assert(s[k] == c);
            }
        },
        None => {},
    }
}

proof fn lemma_trim_quotes(k: Seq<char>)
    requires
        forall|i: int| 0 <= i < k.len() ==> k[i] != '"',
    ensures
        trim_by(seq!['"'] + k + seq!['"'], seq!['"']) == k,
{
    let q = seq!['"'];
    let s = q + k + q;
    assert(q[0] == '"');
    assert(q.contains('"'));
    assert(s.drop_first() =~= k + q);
    assert(trim_start_by(s, q) == trim_start_by(k + q, q));
    if k.len() == 0 {
        assert((k + q).drop_first() =~= Seq::<char>::empty());
        assert(trim_start_by(k + q, q) == trim_start_by(Seq::<char>::empty(), q));
        assert(trim_start_by(s, q) =~= Seq::<char>::empty());
    } else {
        assert((k + q)[0] == k[0]);
        assert(!q.contains(k[0]));
        assert(trim_start_by(k + q, q) == k + q);
        assert(trim_start_by(s, q) == k + q);
        assert((k + q).drop_last() =~= k);
        assert(!q.contains(k.last()));
        assert((k + q).last() == '"');
        assert(trim_end_by(k + q, q) == trim_end_by(k, q));
        assert(trim_end_by(k, q) == k);
        assert(trim_end_by(k + q, q) == k);
    }
}

proof fn lemma_meta_piece_field(m: Map<Seq<char>, Seq<char>>, k: Seq<char>, v: Seq<char>)
    requires
        plain_key(k),
        plain_value(v),
    ensures
        meta_piece(m, meta_field_text(k, v)) == m.insert(k, v),
{
    let t = meta_field_text(k, v);
    let j: int = k.len() as int + 2;
    assert(t[j] == ':');
    assert forall|i: int| 0 <= i < j implies t[i] != ':' by {
        if 1 <= i < 1 + k.len() {
            assert(t[i] == k[i - 1]);
        }
    }
    lemma_index_of_first(t, ':', j);
    let a = t.take(j);
    let b = t.skip(j + 1);
    assert(a =~= seq!['"'] + k + seq!['"']);
    assert(b =~= seq!['"'] + v + seq!['"']);
    assert(!is_ws('"'));
    lemma_trim_unchanged(a);
    lemma_trim_unchanged(b);
    lemma_trim_quotes(k);
    lemma_trim_quotes(v);
}

proof fn lemma_meta_pieces_fields(pairs: Seq<(Seq<char>, Seq<char>)>)
    requires
        plain_pairs(pairs),
    ensures
        meta_pieces(meta_field_texts(pairs)) == map_of(pairs),
    decreases pairs.len(),
{
    if pairs.len() > 0 {
        let init = pairs.drop_last();
        lemma_plain_pairs_init(pairs);
        lemma_meta_pieces_fields(init);
        assert(plain_key(pairs[pairs.len() - 1].0));
        let texts = meta_field_texts(pairs);
        assert(texts.drop_last() =~= meta_field_texts(init));
        lemma_meta_piece_field(map_of(init), pairs.last().0, pairs.last().1);
    }
}

/// Metadata read back from the file it was written to is the metadata written,
/// when no key holds `,`, `:` or `"` and no value holds `,`, `"`, `\` or a
/// control character.
pub proof fn law_upload_meta_round_trip(pairs: Seq<(Seq<char>, Seq<char>)>)
    requires
        plain_pairs(pairs),
    ensures
        parse_upload_meta_spec(seq!['{'] + meta_json(pairs) + seq!['}']) == map_of(pairs),
{
    let braces = seq!['{', '}', ' '];
    let content = seq!['{'] + meta_json(pairs) + seq!['}'];
    assert(braces[0] == '{');
    assert(braces[1] == '}');
    assert(braces.contains('{'));
    assert(braces.contains('}'));
    if pairs.len() == 0 {
        assert(meta_json(pairs) =~= Seq::<char>::empty());
        assert(content.drop_first() =~= seq!['}']);
        assert(seq!['}'].drop_first() =~= Seq::<char>::empty());
        assert(trim_start_by(content, braces) == trim_start_by(seq!['}'], braces));
        assert(trim_start_by(seq!['}'], braces) == trim_start_by(Seq::<char>::empty(), braces));
        assert(trim_by(content, braces) =~= Seq::<char>::empty());
        assert(split_char(Seq::<char>::empty(), ',') =~= seq![Seq::<char>::empty()]);
        let ps = seq![Seq::<char>::empty()];
        assert(ps.drop_last() =~= Seq::<Seq<char>>::empty());
        assert(meta_pieces(ps.drop_last()) == Map::<Seq<char>, Seq<char>>::empty());
        assert(ps.last() == Seq::<char>::empty());
        assert(meta_pieces(ps) == meta_piece(
            Map::<Seq<char>, Seq<char>>::empty(),
            Seq::<char>::empty(),
        ));
        assert(index_of(Seq::<char>::empty(), ':') is None);
        assert(map_of(pairs) =~= Map::<Seq<char>, Seq<char>>::empty());
    } else {
        lemma_meta_json_split(pairs);
        let j = meta_json(pairs);
        assert(content.drop_first() =~= j + seq!['}']);
        assert((j + seq!['}'])[0] == '"');
        assert(!braces.contains('"'));
        assert(trim_start_by(content, braces) == trim_start_by(j + seq!['}'], braces));
        assert(trim_start_by(content, braces) == j + seq!['}']);
        assert((j + seq!['}']).drop_last() =~= j);
        assert((j + seq!['}']).last() == '}');
        assert(trim_end_by(j + seq!['}'], braces) == trim_end_by(j, braces));
        assert(j.last() == '"');
        assert(trim_end_by(j, braces) == j);
        assert(trim_end_by(j + seq!['}'], braces) == j);
        lemma_meta_pieces_fields(pairs);
    }
}

/// Ten to the power `w`.
pub open spec fn pow10(w: nat) -> nat
    decreases w,
{
    if w == 0 {
        1
    } else {
        10 * pow10((w - 1) as nat)
    }
}

/// The last `w` decimal digits of `n`.
pub open spec fn fixed_digits(n: nat, w: nat) -> Seq<char>
    decreases w,
{
    if w == 0 {
        Seq::empty()
    } else {
        fixed_digits(n / 10, (w - 1) as nat).push(digit_char(n % 10))
    }
}

proof fn lemma_fixed_zero(w: nat)
    ensures
        fixed_digits(0, w) == Seq::new(w, |i: int| '0'),
    decreases w,
{
    if w > 0 {
        lemma_fixed_zero((w - 1) as nat);
        assert(fixed_digits(0, w) =~= Seq::new(w, |i: int| '0'));
    } else {
        assert(fixed_digits(0, w) =~= Seq::new(w, |i: int| '0'));
    }
}

proof fn lemma_fixed_len(n: nat, w: nat)
    ensures
        fixed_digits(n, w).len() == w,
        forall|i: int| 0 <= i < w ==> '0' <= #[trigger] fixed_digits(n, w)[i] <= '9',
    decreases w,
{
    if w > 0 {
        lemma_fixed_len(n / 10, (w - 1) as nat);
        let prev = fixed_digits(n / 10, (w - 1) as nat);
        assert forall|i: int| 0 <= i < w implies '0' <= #[trigger] fixed_digits(n, w)[i] <= '9' by {
            if i < w - 1 {
                assert(fixed_digits(n, w)[i] == prev[i]);
            }
        }
    }
}

proof fn lemma_zero_pad_fixed(n: nat, w: nat)
    requires
        1 <= w,
        n < pow10(w),
    ensures
        zero_pad(decimal(n), w) == fixed_digits(n, w),
    decreases w,
{
    if n < 10 {
        lemma_fixed_zero((w - 1) as nat);
        assert(decimal(n) == seq![digit_char(n)]);
        assert(fixed_digits(n, w) == fixed_digits(0, (w - 1) as nat).push(digit_char(n)));
        assert(zero_pad(decimal(n), w) =~= fixed_digits(n, w));
    } else {
        assert(w >= 2) by {
            if w == 1 {
                assert(pow10(1) == 10 * pow10(0));
            }
        }
        assert(pow10(w) == 10 * pow10((w - 1) as nat));
        lemma_zero_pad_fixed(n / 10, (w - 1) as nat);
        let d = decimal(n / 10);
        assert(decimal(n) == d.push(digit_char(n % 10)));
        if d.len() >= w - 1 {
            assert(zero_pad(decimal(n), w) =~= fixed_digits(n, w));
        } else {
            assert(zero_pad(decimal(n), w) =~= fixed_digits(n, w));
        }
    }
}

proof fn lemma_chars_lt_push(x: Seq<char>, y: Seq<char>, p: char, q: char)
    requires
        x.len() == y.len(),
    ensures
        chars_lt(x.push(p), y.push(q)) == (chars_lt(x, y) || (x == y && (p as u32) < (q as u32))),
    decreases x.len(),
{
    let xp = x.push(p);
    let yq = y.push(q);
    if x.len() == 0 {
        assert(x =~= y);
        assert(xp[0] == p && yq[0] == q);
        assert(xp.drop_first() =~= Seq::<char>::empty());
        assert(yq.drop_first() =~= Seq::<char>::empty());
        assert(!chars_lt(Seq::<char>::empty(), Seq::<char>::empty()));
    } else {
        assert(xp[0] == x[0] && yq[0] == y[0]);
        assert(xp.drop_first() =~= x.drop_first().push(p));
        assert(yq.drop_first() =~= y.drop_first().push(q));
        lemma_chars_lt_push(x.drop_first(), y.drop_first(), p, q);
        if x[0] == y[0] {
            if x.drop_first() == y.drop_first() {
                assert forall|i: int| 0 <= i < x.len() implies x[i] == y[i] by {
                    if i > 0 {
                        assert(x[i] == x.drop_first()[i - 1]);
                        assert(y[i] == y.drop_first()[i - 1]);
                    }
                }
                assert(x =~= y);
            }
            if x == y {
                assert(x.drop_first() =~= y.drop_first());
            }
        } else {
            assert(x != y);
        }
    }
}

proof fn lemma_chars_lt_prefix(pre: Seq<char>, x: Seq<char>, y: Seq<char>)
    ensures
        chars_lt(pre + x, pre + y) == chars_lt(x, y),
    decreases pre.len(),
{
    if pre.len() > 0 {
        assert((pre + x).drop_first() =~= pre.drop_first() + x);
        assert((pre + y).drop_first() =~= pre.drop_first() + y);
        lemma_chars_lt_prefix(pre.drop_first(), x, y);
    } else {
        assert(pre + x =~= x);
        assert(pre + y =~= y);
    }
}

proof fn lemma_fixed_lt(a: nat, b: nat, w: nat)
    requires
        a < b < pow10(w),
    ensures
        chars_lt(fixed_digits(a, w), fixed_digits(b, w)),
    decreases w,
{
    if w == 0 {
        assert(pow10(0) == 1);
    } else {
        assert(pow10(w) == 10 * pow10((w - 1) as nat));
        lemma_fixed_len(a / 10, (w - 1) as nat);
        lemma_fixed_len(b / 10, (w - 1) as nat);
        lemma_chars_lt_push(
            fixed_digits(a / 10, (w - 1) as nat),
            fixed_digits(b / 10, (w - 1) as nat),
            digit_char(a % 10),
            digit_char(b % 10),
        );
        if a / 10 < b / 10 {
            lemma_fixed_lt(a / 10, b / 10, (w - 1) as nat);
        } else {
            assert(a / 10 == b / 10);
            assert(a % 10 < b % 10);
        }
    }
}

proof fn lemma_ascii_bytes_lt(x: Seq<char>, y: Seq<char>)
    requires
        is_ascii_chars(x),
        is_ascii_chars(y),
    ensures
        bytes_lt(encode_utf8(x), encode_utf8(y)) == chars_lt(x, y),
    decreases x.len(),
{
    is_ascii_chars_encode_utf8(x);
    is_ascii_chars_encode_utf8(y);
    let bx = encode_utf8(x);
    let by = encode_utf8(y);
    if x.len() > 0 && y.len() > 0 {
        assert(is_ascii_chars(x.drop_first()));
        assert(is_ascii_chars(y.drop_first()));
        is_ascii_chars_encode_utf8(x.drop_first());
        is_ascii_chars_encode_utf8(y.drop_first());
        assert(encode_utf8(x.drop_first()) =~= bx.drop_first());
        assert(encode_utf8(y.drop_first()) =~= by.drop_first());
        lemma_ascii_bytes_lt(x.drop_first(), y.drop_first());
        assert(bx[0] == x[0] as u8);
        assert(by[0] == y[0] as u8);
        assert((x[0] != y[0]) == (bx[0] != by[0]));
    }
}

/// The chunk that starts at an earlier offset has a name whose bytes sort
/// first, so merging chunk files in name order merges them in offset order,
/// for fewer than a million chunks.
pub proof fn law_chunk_names_follow_offsets(a: u64, b: u64)
    requires
        a / CHUNK_SIZE < b / CHUNK_SIZE < 1000000,
    ensures
        bytes_lt(encode_utf8(chunk_name(a)), encode_utf8(chunk_name(b))),
{
    let ia = (a / CHUNK_SIZE) as nat;
    let ib = (b / CHUNK_SIZE) as nat;
    assert(pow10(6) == 1000000) by {
        reveal_with_fuel(pow10, 7);
    }
    lemma_zero_pad_fixed(ia, 6);
    lemma_zero_pad_fixed(ib, 6);
    lemma_fixed_lt(ia, ib, 6);
    let pre = "chunk-"@;
    lemma_chars_lt_prefix(pre, fixed_digits(ia, 6), fixed_digits(ib, 6));
    reveal_strlit("chunk-");
    lemma_fixed_len(ia, 6);
    lemma_fixed_len(ib, 6);
    let na = chunk_name(a);
    let nb = chunk_name(b);
    assert(na == pre + fixed_digits(ia, 6));
    assert(nb == pre + fixed_digits(ib, 6));
    assert(is_ascii_chars(na)) by {
        assert forall|i: int| 0 <= i < na.len() implies '\0' <= #[trigger] na[i] <= '\u{7f}' by {
            if i >= 6 {
                assert(na[i] == fixed_digits(ia, 6)[i - 6]);
            }
        }
    }
    assert(is_ascii_chars(nb)) by {
        assert forall|i: int| 0 <= i < nb.len() implies '\0' <= #[trigger] nb[i] <= '\u{7f}' by {
            if i >= 6 {
                assert(nb[i] == fixed_digits(ib, 6)[i - 6]);
            }
        }
    }
    lemma_ascii_bytes_lt(na, nb);
}

/// An upload's file name is refused (`InvalidFilename`) exactly when it is
/// empty or holds two dots in a row, a `/`, a `\\` or a NUL character. Any
/// other name starts a session whenever the target folder lies under the root
/// (`PathNotAllowed` otherwise), and the session keeps the name as given.
pub proof fn law_upload_filename(body: Seq<u8>, root: Seq<char>, id: Seq<char>, now_secs: u64)
    ensures
        ({
            let fields = init_fields(lossy_text(body));
            let f = meta_text_spec(fields, "filename"@);
            let path = if fields.dom().contains("path"@) {
                fields["path"@]
            } else {
                "/"@
            };
            let refused = f.len() == 0 || (exists|i: int|
                0 <= i && i + 1 < f.len() && #[trigger] f[i] == '.' && f[i + 1] == '.') || (exists|i: int|
                0 <= i < f.len() && (#[trigger] f[i] == '/' || f[i] == '\\' || f[i] == '\0'));
            let r = upload_init_spec(body, root, id, now_secs);
            &&& (r == Err::<Map<Seq<char>, Seq<char>>, UploadInitError>(UploadInitError::InvalidFilename))
                <==> refused
            &&& !refused ==> ((r is Ok) <==> resolve_request_path_spec(root, path) is Some)
            &&& !refused ==> (r matches Err(e) ==> e == UploadInitError::PathNotAllowed)
            &&& r matches Ok(m) ==> m.dom().contains("filename"@) && m["filename"@] == f
            &&& r matches Ok(m) ==> (resolve_request_path_spec(root, path) matches Some(resolved) && m["id"@] == id
                && m["received_bytes"@] == "0"@ && m["created_at"@] == decimal(now_secs as nat)
                && m["target_dir"@] == display_path_spec(resolved))
        }),
{
    reveal_strlit("..");
    reveal_strlit("/");
    reveal_strlit("\\");
    let fields = init_fields(lossy_text(body));
    let f = meta_text_spec(fields, "filename"@);
    assert(".."@ =~= seq!['.', '.']);
    assert("/"@ =~= seq!['/']);
    assert("\\"@ =~= seq!['\\']);
    lemma_contains_pair(f, '.', '.');
    lemma_contains_char(f, '/');
    lemma_contains_char(f, '\\');
    lemma_contains_char(f, '\0');
    if exists|i: int| 0 <= i < f.len() && (#[trigger] f[i] == '/' || f[i] == '\\' || f[i] == '\0') {
        let i = choose|i: int| 0 <= i < f.len() && (#[trigger] f[i] == '/' || f[i] == '\\' || f[i] == '\0');
        assert(f[i] == '/' || f[i] == '\\' || f[i] == '\0');
    }
    reveal_strlit("filename");
    reveal_strlit("id");
    reveal_strlit("received_bytes");
    reveal_strlit("created_at");
    reveal_strlit("target_dir");
    reveal_strlit("0");
    assert("id"@.len() == 2 && "received_bytes"@.len() == 14 && "filename"@.len() == 8);
    assert("created_at"@.len() == 10 && "target_dir"@.len() == 10);
    assert("created_at"@[0] == 'c' && "target_dir"@[0] == 't');
}

} // verus!
