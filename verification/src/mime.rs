//! What a file is, from its name: its extension, the kind shown in listings,
//! the icon for that kind, and the `Content-Type` it is served with.
use vstd::prelude::*;
use crate::text::{chars_of, ascii_lower, ascii_lower_exec, chars_eq_str, slice_of};

verus! {

broadcast use vstd::string::group_string_axioms;

/// The index of the last `c` in `s`.
pub open spec fn last_index_of(s: Seq<char>, c: char) -> Option<int>
    decreases s.len(),
{
    if s.len() == 0 {
        None
    } else if s.last() == c {
        Some(s.len() - 1)
    } else {
        last_index_of(s.drop_last(), c)
    }
}

/// std's `Path::extension` of a file name: the text after the last `.`, unless
/// there is none, it is the first character, or the name is `..`.
pub open spec fn extension_spec(name: Seq<char>) -> Option<Seq<char>> {
    if name == ".."@ {
        None
    } else {
        match last_index_of(name, '.') {
            Some(k) => if k == 0 {
                None
            } else {
                Some(name.skip(k + 1))
            },
            None => None,
        }
    }
}

/// The lower-case extension of a file name, empty when it has none.
pub open spec fn lower_extension(name: Seq<char>) -> Seq<char> {
    match extension_spec(name) {
        Some(e) => ascii_lower(e),
        None => Seq::empty(),
    }
}

fn last_index_of_exec(s: &Vec<char>, c: char) -> (r: Option<usize>)
    ensures
        r matches Some(k) ==> last_index_of(s@, c) == Some(k as int) && k < s@.len(),
        r is None ==> last_index_of(s@, c) is None,
{
    let mut j: usize = s.len();
    assert(s@.take(s.len() as int) == s@);
    while j > 0
        invariant
            j <= s.len(),
            last_index_of(s@, c) == last_index_of(s@.take(j as int), c),
        decreases j,
    {
        if s[j - 1] == c {
            return Some(j - 1);
        }
        assert(s@.take(j as int).drop_last() == s@.take(j - 1));
        j -= 1;
    }
    None
}

/// The extension of a file name (std's `Path::extension`), as characters.
pub fn extension_chars(name: &Vec<char>) -> (r: Option<Vec<char>>)
    ensures
        r matches Some(e) ==> extension_spec(name@) == Some(e@),
        r is None ==> extension_spec(name@) is None,
{
    if chars_eq_str(name, "..") {
        return None;
    }
    let n = name.len();
    match last_index_of_exec(name, '.') {
        Some(k) => if k == 0 {
            None
        } else {
            Some(slice_of(name, k + 1, n))
        },
        None => None,
    }
}

/// The lower-case extension of a file name, empty when it has none.
pub fn lower_extension_chars(name: &Vec<char>) -> (r: Vec<char>)
    ensures
        r@ == lower_extension(name@),
{
    match extension_chars(name) {
        Some(e) => ascii_lower_exec(&e),
        None => Vec::new(),
    }
}

/// The kind of an entry in a listing, from its lower-case extension.
pub open spec fn kind_of_extension(e: Seq<char>) -> Seq<char> {
    if e == "png"@ || e == "jpg"@ || e == "jpeg"@ || e == "gif"@ || e == "webp"@ || e == "svg"@ || e == "bmp"@ || e == "ico"@ {
        "image"@
    } else if e == "mp4"@ || e == "webm"@ || e == "mov"@ || e == "m4v"@ || e == "avi"@ || e == "mkv"@ {
        "video"@
    } else if e == "mp3"@ || e == "wav"@ || e == "flac"@ || e == "ogg"@ || e == "m4a"@ {
        "audio"@
    } else if e == "zip"@ || e == "rar"@ || e == "7z"@ || e == "tar"@ || e == "gz"@ {
        "archive"@
    } else if e == "exe"@ || e == "msi"@ || e == "apk"@ || e == "dmg"@ {
        "app"@
    } else if e == "pdf"@ {
        "pdf"@
    } else if e == "doc"@ || e == "docx"@ || e == "xls"@ || e == "xlsx"@ || e == "ppt"@ || e == "pptx"@ {
        "doc"@
    } else if e == "rs"@ || e == "js"@ || e == "ts"@ || e == "tsx"@ || e == "jsx"@ || e == "cs"@ || e == "py"@ || e == "java"@ || e == "go"@ || e == "cpp"@ || e == "c"@ || e == "h"@ || e == "css"@ || e == "toml"@ || e == "yaml"@ || e == "yml"@ {
        "code"@
    } else if e == "json"@ {
        "json"@
    } else if e == "html"@ || e == "htm"@ {
        "html"@
    } else {
        "file"@
    }
}
/// The kind of a listing entry: `dir` for a directory, else by its extension
/// (any case): `image`, `video`, `audio`, `archive`, `app`, `pdf`, `doc`,
/// `code`, `json`, `html`, or `file`.
pub fn entry_kind(file_name: &str, is_dir: bool) -> (r: &'static str)
    ensures
        r@ == (if is_dir {
            "dir"@
        } else {
            kind_of_extension(lower_extension(file_name@))
        }),
{
    if is_dir {
        return "dir";
    }
    let name = chars_of(file_name);
    let e = lower_extension_chars(&name);
    if chars_eq_str(&e, "png") || chars_eq_str(&e, "jpg") || chars_eq_str(&e, "jpeg") || chars_eq_str(&e, "gif") || chars_eq_str(&e, "webp") || chars_eq_str(&e, "svg") || chars_eq_str(&e, "bmp") || chars_eq_str(&e, "ico") {
        "image"
    } else if chars_eq_str(&e, "mp4") || chars_eq_str(&e, "webm") || chars_eq_str(&e, "mov") || chars_eq_str(&e, "m4v") || chars_eq_str(&e, "avi") || chars_eq_str(&e, "mkv") {
        "video"
    } else if chars_eq_str(&e, "mp3") || chars_eq_str(&e, "wav") || chars_eq_str(&e, "flac") || chars_eq_str(&e, "ogg") || chars_eq_str(&e, "m4a") {
        "audio"
    } else if chars_eq_str(&e, "zip") || chars_eq_str(&e, "rar") || chars_eq_str(&e, "7z") || chars_eq_str(&e, "tar") || chars_eq_str(&e, "gz") {
        "archive"
    } else if chars_eq_str(&e, "exe") || chars_eq_str(&e, "msi") || chars_eq_str(&e, "apk") || chars_eq_str(&e, "dmg") {
        "app"
    } else if chars_eq_str(&e, "pdf") {
        "pdf"
    } else if chars_eq_str(&e, "doc") || chars_eq_str(&e, "docx") || chars_eq_str(&e, "xls") || chars_eq_str(&e, "xlsx") || chars_eq_str(&e, "ppt") || chars_eq_str(&e, "pptx") {
        "doc"
    } else if chars_eq_str(&e, "rs") || chars_eq_str(&e, "js") || chars_eq_str(&e, "ts") || chars_eq_str(&e, "tsx") || chars_eq_str(&e, "jsx") || chars_eq_str(&e, "cs") || chars_eq_str(&e, "py") || chars_eq_str(&e, "java") || chars_eq_str(&e, "go") || chars_eq_str(&e, "cpp") || chars_eq_str(&e, "c") || chars_eq_str(&e, "h") || chars_eq_str(&e, "css") || chars_eq_str(&e, "toml") || chars_eq_str(&e, "yaml") || chars_eq_str(&e, "yml") {
        "code"
    } else if chars_eq_str(&e, "json") {
        "json"
    } else if chars_eq_str(&e, "html") || chars_eq_str(&e, "htm") {
        "html"
    } else {
        "file"
    }
}
/// The icon shown for a kind of listing entry.
pub open spec fn icon_of_kind(kind: Seq<char>) -> Seq<char> {
    if kind == "dir"@ {
        "📁"@
    } else if kind == "image"@ {
        "🖼️"@
    } else if kind == "video"@ {
        "🎬"@
    } else if kind == "audio"@ {
        "🎧"@
    } else if kind == "archive"@ {
        "🗜️"@
    } else if kind == "app"@ {
        "📦"@
    } else if kind == "doc"@ {
        "📝"@
    } else if kind == "pdf"@ {
        "📕"@
    } else if kind == "code"@ {
        "⌘"@
    } else if kind == "json"@ {
        "{}"@
    } else if kind == "html"@ {
        "🌐"@
    } else {
        "📄"@
    }
}
/// The icon shown for a kind of listing entry (`📄` for an unknown kind).
pub fn file_icon(kind: &str) -> (r: &'static str)
    ensures
        r@ == icon_of_kind(kind@),
{
    let k = chars_of(kind);
    if chars_eq_str(&k, "dir") {
        "📁"
    } else if chars_eq_str(&k, "image") {
        "🖼️"
    } else if chars_eq_str(&k, "video") {
        "🎬"
    } else if chars_eq_str(&k, "audio") {
        "🎧"
    } else if chars_eq_str(&k, "archive") {
        "🗜️"
    } else if chars_eq_str(&k, "app") {
        "📦"
    } else if chars_eq_str(&k, "doc") {
        "📝"
    } else if chars_eq_str(&k, "pdf") {
        "📕"
    } else if chars_eq_str(&k, "code") {
        "⌘"
    } else if chars_eq_str(&k, "json") {
        "{}"
    } else if chars_eq_str(&k, "html") {
        "🌐"
    } else {
        "📄"
    }
}
/// The `Content-Type` for a lower-case extension.
pub open spec fn content_type_of_extension(e: Seq<char>) -> Seq<char> {
    if e == "html"@ || e == "htm"@ {
        "text/html; charset=utf-8"@
    } else if e == "css"@ {
        "text/css; charset=utf-8"@
    } else if e == "js"@ {
        "application/javascript; charset=utf-8"@
    } else if e == "json"@ {
        "application/json; charset=utf-8"@
    } else if e == "txt"@ {
        "text/plain; charset=utf-8"@
    } else if e == "xml"@ {
        "application/xml; charset=utf-8"@
    } else if e == "png"@ {
        "image/png"@
    } else if e == "jpg"@ || e == "jpeg"@ {
        "image/jpeg"@
    } else if e == "gif"@ {
        "image/gif"@
    } else if e == "webp"@ {
        "image/webp"@
    } else if e == "svg"@ {
        "image/svg+xml"@
    } else if e == "ico"@ {
        "image/x-icon"@
    } else if e == "mp4"@ {
        "video/mp4"@
    } else if e == "webm"@ {
        "video/webm"@
    } else if e == "mov"@ {
        "video/quicktime"@
    } else if e == "m4v"@ {
        "video/x-m4v"@
    } else if e == "mp3"@ {
        "audio/mpeg"@
    } else if e == "wav"@ {
        "audio/wav"@
    } else if e == "m3u8"@ {
        "application/vnd.apple.mpegurl"@
    } else if e == "ts"@ {
        "video/mp2t"@
    } else if e == "webmanifest"@ {
        "application/manifest+json"@
    } else if e == "wasm"@ {
        "application/wasm"@
    } else {
        "application/octet-stream"@
    }
}
/// The `Content-Type` that a file is served with, from the extension of its
/// name (any case); `application/octet-stream` when it is not known.
pub fn content_type(file_name: &str) -> (r: String)
    ensures
        r@ == content_type_of_extension(lower_extension(file_name@)),
{
    let name = chars_of(file_name);
    let e = lower_extension_chars(&name);
    let t: &str = if chars_eq_str(&e, "html") || chars_eq_str(&e, "htm") {
        "text/html; charset=utf-8"
    } else if chars_eq_str(&e, "css") {
        "text/css; charset=utf-8"
    } else if chars_eq_str(&e, "js") {
        "application/javascript; charset=utf-8"
    } else if chars_eq_str(&e, "json") {
        "application/json; charset=utf-8"
    } else if chars_eq_str(&e, "txt") {
        "text/plain; charset=utf-8"
    } else if chars_eq_str(&e, "xml") {
        "application/xml; charset=utf-8"
    } else if chars_eq_str(&e, "png") {
        "image/png"
    } else if chars_eq_str(&e, "jpg") || chars_eq_str(&e, "jpeg") {
        "image/jpeg"
    } else if chars_eq_str(&e, "gif") {
        "image/gif"
    } else if chars_eq_str(&e, "webp") {
        "image/webp"
    } else if chars_eq_str(&e, "svg") {
        "image/svg+xml"
    } else if chars_eq_str(&e, "ico") {
        "image/x-icon"
    } else if chars_eq_str(&e, "mp4") {
        "video/mp4"
    } else if chars_eq_str(&e, "webm") {
        "video/webm"
    } else if chars_eq_str(&e, "mov") {
        "video/quicktime"
    } else if chars_eq_str(&e, "m4v") {
        "video/x-m4v"
    } else if chars_eq_str(&e, "mp3") {
        "audio/mpeg"
    } else if chars_eq_str(&e, "wav") {
        "audio/wav"
    } else if chars_eq_str(&e, "m3u8") {
        "application/vnd.apple.mpegurl"
    } else if chars_eq_str(&e, "ts") {
        "video/mp2t"
    } else if chars_eq_str(&e, "webmanifest") {
        "application/manifest+json"
    } else if chars_eq_str(&e, "wasm") {
        "application/wasm"
    } else {
        "application/octet-stream"
    };
    t.to_owned()
}

/// The extension of `stem.ext` (a non-empty stem, an extension without dots)
/// is `ext`, in lower case.
pub proof fn lemma_lower_extension_of(stem: Seq<char>, ext: Seq<char>)
    requires
        stem.len() > 0,
        ext.len() > 0,
        forall|i: int| 0 <= i < ext.len() ==> ext[i] != '.',
    ensures
        lower_extension(stem + seq!['.'] + ext) == ascii_lower(ext),
{
    reveal_strlit("..");
    let name = stem + seq!['.'] + ext;
    assert(name.len() != 2);
    lemma_last_dot(stem, ext, ext.len() as int);
    assert(name.take(name.len() as int) =~= name);
    assert(name.skip(stem.len() as int + 1) =~= ext);
}

proof fn lemma_last_dot(stem: Seq<char>, ext: Seq<char>, k: int)
    requires
        0 <= k <= ext.len(),
        forall|i: int| 0 <= i < ext.len() ==> ext[i] != '.',
    ensures
        last_index_of((stem + seq!['.'] + ext).take(stem.len() + 1 + k), '.') == Some(stem.len() as int),
    decreases k,
{
    let name = stem + seq!['.'] + ext;
    let t = name.take(stem.len() + 1 + k);
    if k == 0 {
        assert(t.last() == '.');
    } else {
        assert(t.last() == ext[k - 1]);
        assert(t.drop_last() =~= name.take(stem.len() + 1 + k - 1));
        lemma_last_dot(stem, ext, k - 1);
    }
}

/// A file named `stem.ext` is served with the `Content-Type` that its
/// extension names in any case: HTML, CSS, JavaScript, JSON, plain text and
/// XML as UTF-8 text, the usual image, video and audio types, HLS playlists,
/// web manifests and WebAssembly; anything else as `application/octet-stream`.
#[verifier::spinoff_prover]
#[verifier::rlimit(60)]
pub proof fn law_content_types(stem: Seq<char>, ext: Seq<char>)
    requires
        stem.len() > 0,
        ext.len() > 0,
        forall|i: int| 0 <= i < ext.len() ==> ext[i] != '.',
    ensures
        ascii_lower(ext) == "html"@ ==> content_type_of_extension(lower_extension(stem + seq!['.'] + ext)) == "text/html; charset=utf-8"@,
        ascii_lower(ext) == "htm"@ ==> content_type_of_extension(lower_extension(stem + seq!['.'] + ext)) == "text/html; charset=utf-8"@,
        ascii_lower(ext) == "css"@ ==> content_type_of_extension(lower_extension(stem + seq!['.'] + ext)) == "text/css; charset=utf-8"@,
        ascii_lower(ext) == "js"@ ==> content_type_of_extension(lower_extension(stem + seq!['.'] + ext)) == "application/javascript; charset=utf-8"@,
        ascii_lower(ext) == "json"@ ==> content_type_of_extension(lower_extension(stem + seq!['.'] + ext)) == "application/json; charset=utf-8"@,
        ascii_lower(ext) == "txt"@ ==> content_type_of_extension(lower_extension(stem + seq!['.'] + ext)) == "text/plain; charset=utf-8"@,
        ascii_lower(ext) == "xml"@ ==> content_type_of_extension(lower_extension(stem + seq!['.'] + ext)) == "application/xml; charset=utf-8"@,
        ascii_lower(ext) == "png"@ ==> content_type_of_extension(lower_extension(stem + seq!['.'] + ext)) == "image/png"@,
        ascii_lower(ext) == "jpg"@ ==> content_type_of_extension(lower_extension(stem + seq!['.'] + ext)) == "image/jpeg"@,
        ascii_lower(ext) == "jpeg"@ ==> content_type_of_extension(lower_extension(stem + seq!['.'] + ext)) == "image/jpeg"@,
        ascii_lower(ext) == "gif"@ ==> content_type_of_extension(lower_extension(stem + seq!['.'] + ext)) == "image/gif"@,
        ascii_lower(ext) == "webp"@ ==> content_type_of_extension(lower_extension(stem + seq!['.'] + ext)) == "image/webp"@,
        ascii_lower(ext) == "svg"@ ==> content_type_of_extension(lower_extension(stem + seq!['.'] + ext)) == "image/svg+xml"@,
        ascii_lower(ext) == "ico"@ ==> content_type_of_extension(lower_extension(stem + seq!['.'] + ext)) == "image/x-icon"@,
        ascii_lower(ext) == "mp4"@ ==> content_type_of_extension(lower_extension(stem + seq!['.'] + ext)) == "video/mp4"@,
        ascii_lower(ext) == "webm"@ ==> content_type_of_extension(lower_extension(stem + seq!['.'] + ext)) == "video/webm"@,
        ascii_lower(ext) == "mov"@ ==> content_type_of_extension(lower_extension(stem + seq!['.'] + ext)) == "video/quicktime"@,
        ascii_lower(ext) == "m4v"@ ==> content_type_of_extension(lower_extension(stem + seq!['.'] + ext)) == "video/x-m4v"@,
        ascii_lower(ext) == "mp3"@ ==> content_type_of_extension(lower_extension(stem + seq!['.'] + ext)) == "audio/mpeg"@,
        ascii_lower(ext) == "wav"@ ==> content_type_of_extension(lower_extension(stem + seq!['.'] + ext)) == "audio/wav"@,
        ascii_lower(ext) == "m3u8"@ ==> content_type_of_extension(lower_extension(stem + seq!['.'] + ext)) == "application/vnd.apple.mpegurl"@,
        ascii_lower(ext) == "ts"@ ==> content_type_of_extension(lower_extension(stem + seq!['.'] + ext)) == "video/mp2t"@,
        ascii_lower(ext) == "webmanifest"@ ==> content_type_of_extension(lower_extension(stem + seq!['.'] + ext)) == "application/manifest+json"@,
        ascii_lower(ext) == "wasm"@ ==> content_type_of_extension(lower_extension(stem + seq!['.'] + ext)) == "application/wasm"@,
        (ascii_lower(ext) != "html"@ && ascii_lower(ext) != "htm"@ && ascii_lower(ext) != "css"@ && ascii_lower(ext) != "js"@ && ascii_lower(ext) != "json"@ && ascii_lower(ext) != "txt"@ && ascii_lower(ext) != "xml"@ && ascii_lower(ext) != "png"@ && ascii_lower(ext) != "jpg"@ && ascii_lower(ext) != "jpeg"@ && ascii_lower(ext) != "gif"@ && ascii_lower(ext) != "webp"@ && ascii_lower(ext) != "svg"@ && ascii_lower(ext) != "ico"@ && ascii_lower(ext) != "mp4"@ && ascii_lower(ext) != "webm"@ && ascii_lower(ext) != "mov"@ && ascii_lower(ext) != "m4v"@ && ascii_lower(ext) != "mp3"@ && ascii_lower(ext) != "wav"@ && ascii_lower(ext) != "m3u8"@ && ascii_lower(ext) != "ts"@ && ascii_lower(ext) != "webmanifest"@ && ascii_lower(ext) != "wasm"@) ==> content_type_of_extension(lower_extension(stem + seq!['.'] + ext)) == "application/octet-stream"@,
{
    reveal_strlit("html");
    reveal_strlit("htm");
    reveal_strlit("css");
    reveal_strlit("js");
    reveal_strlit("json");
    reveal_strlit("txt");
    reveal_strlit("xml");
    reveal_strlit("png");
    reveal_strlit("jpg");
    reveal_strlit("jpeg");
    reveal_strlit("gif");
    reveal_strlit("webp");
    reveal_strlit("svg");
    reveal_strlit("ico");
    reveal_strlit("mp4");
    reveal_strlit("webm");
    reveal_strlit("mov");
    reveal_strlit("m4v");
    reveal_strlit("mp3");
    reveal_strlit("wav");
    reveal_strlit("m3u8");
    reveal_strlit("ts");
    reveal_strlit("webmanifest");
    reveal_strlit("wasm");
    lemma_lower_extension_of(stem, ext);
    assert("html"@.len() == 4 && "html"@[0] == 'h' && "html"@[1] == 't' && "html"@[2] == 'm' && "html"@[3] == 'l');
    assert("htm"@.len() == 3 && "htm"@[0] == 'h' && "htm"@[1] == 't' && "htm"@[2] == 'm');
    assert("css"@.len() == 3 && "css"@[0] == 'c' && "css"@[1] == 's' && "css"@[2] == 's');
    assert("js"@.len() == 2 && "js"@[0] == 'j' && "js"@[1] == 's');
    assert("json"@.len() == 4 && "json"@[0] == 'j' && "json"@[1] == 's' && "json"@[2] == 'o' && "json"@[3] == 'n');
    assert("txt"@.len() == 3 && "txt"@[0] == 't' && "txt"@[1] == 'x' && "txt"@[2] == 't');
    assert("xml"@.len() == 3 && "xml"@[0] == 'x' && "xml"@[1] == 'm' && "xml"@[2] == 'l');
    assert("png"@.len() == 3 && "png"@[0] == 'p' && "png"@[1] == 'n' && "png"@[2] == 'g');
    assert("jpg"@.len() == 3 && "jpg"@[0] == 'j' && "jpg"@[1] == 'p' && "jpg"@[2] == 'g');
    assert("jpeg"@.len() == 4 && "jpeg"@[0] == 'j' && "jpeg"@[1] == 'p' && "jpeg"@[2] == 'e' && "jpeg"@[3] == 'g');
    assert("gif"@.len() == 3 && "gif"@[0] == 'g' && "gif"@[1] == 'i' && "gif"@[2] == 'f');
    assert("webp"@.len() == 4 && "webp"@[0] == 'w' && "webp"@[1] == 'e' && "webp"@[2] == 'b' && "webp"@[3] == 'p');
    assert("svg"@.len() == 3 && "svg"@[0] == 's' && "svg"@[1] == 'v' && "svg"@[2] == 'g');
    assert("ico"@.len() == 3 && "ico"@[0] == 'i' && "ico"@[1] == 'c' && "ico"@[2] == 'o');
    assert("mp4"@.len() == 3 && "mp4"@[0] == 'm' && "mp4"@[1] == 'p' && "mp4"@[2] == '4');
    assert("webm"@.len() == 4 && "webm"@[0] == 'w' && "webm"@[1] == 'e' && "webm"@[2] == 'b' && "webm"@[3] == 'm');
    assert("mov"@.len() == 3 && "mov"@[0] == 'm' && "mov"@[1] == 'o' && "mov"@[2] == 'v');
    assert("m4v"@.len() == 3 && "m4v"@[0] == 'm' && "m4v"@[1] == '4' && "m4v"@[2] == 'v');
    assert("mp3"@.len() == 3 && "mp3"@[0] == 'm' && "mp3"@[1] == 'p' && "mp3"@[2] == '3');
    assert("wav"@.len() == 3 && "wav"@[0] == 'w' && "wav"@[1] == 'a' && "wav"@[2] == 'v');
    assert("m3u8"@.len() == 4 && "m3u8"@[0] == 'm' && "m3u8"@[1] == '3' && "m3u8"@[2] == 'u' && "m3u8"@[3] == '8');
    assert("ts"@.len() == 2 && "ts"@[0] == 't' && "ts"@[1] == 's');
    assert("webmanifest"@.len() == 11 && "webmanifest"@[0] == 'w' && "webmanifest"@[1] == 'e' && "webmanifest"@[2] == 'b' && "webmanifest"@[3] == 'm' && "webmanifest"@[4] == 'a' && "webmanifest"@[5] == 'n' && "webmanifest"@[6] == 'i' && "webmanifest"@[7] == 'f' && "webmanifest"@[8] == 'e' && "webmanifest"@[9] == 's' && "webmanifest"@[10] == 't');
    assert("wasm"@.len() == 4 && "wasm"@[0] == 'w' && "wasm"@[1] == 'a' && "wasm"@[2] == 's' && "wasm"@[3] == 'm');
    let e = ascii_lower(ext);
    assert(e.len() > 0 ==> e[0] == e[0]);
    assert(e.len() > 1 ==> e[1] == e[1]);
    assert(e.len() > 2 ==> e[2] == e[2]);
    assert(e.len() > 3 ==> e[3] == e[3]);
    assert(e.len() > 4 ==> e[4] == e[4]);
    assert(e.len() > 5 ==> e[5] == e[5]);
    assert(e.len() > 6 ==> e[6] == e[6]);
    assert(e.len() > 7 ==> e[7] == e[7]);
    assert(e.len() > 8 ==> e[8] == e[8]);
    assert(e.len() > 9 ==> e[9] == e[9]);
    assert(e.len() > 10 ==> e[10] == e[10]);
    if e == "html"@ {
        assert(content_type_of_extension(e) == "text/html; charset=utf-8"@);
    }
    if e == "htm"@ {
        assert(content_type_of_extension(e) == "text/html; charset=utf-8"@);
    }
    if e == "css"@ {
        assert(content_type_of_extension(e) == "text/css; charset=utf-8"@);
    }
    if e == "js"@ {
        assert(content_type_of_extension(e) == "application/javascript; charset=utf-8"@);
    }
    if e == "json"@ {
        assert(content_type_of_extension(e) == "application/json; charset=utf-8"@);
    }
    if e == "txt"@ {
        assert(content_type_of_extension(e) == "text/plain; charset=utf-8"@);
    }
    if e == "xml"@ {
        assert(content_type_of_extension(e) == "application/xml; charset=utf-8"@);
    }
    if e == "png"@ {
        assert(content_type_of_extension(e) == "image/png"@);
    }
    if e == "jpg"@ {
        assert(content_type_of_extension(e) == "image/jpeg"@);
    }
    if e == "jpeg"@ {
        assert(content_type_of_extension(e) == "image/jpeg"@);
    }
    if e == "gif"@ {
        assert(content_type_of_extension(e) == "image/gif"@);
    }
    if e == "webp"@ {
        assert(content_type_of_extension(e) == "image/webp"@);
    }
    if e == "svg"@ {
        assert(content_type_of_extension(e) == "image/svg+xml"@);
    }
    if e == "ico"@ {
        assert(content_type_of_extension(e) == "image/x-icon"@);
    }
    if e == "mp4"@ {
        assert(content_type_of_extension(e) == "video/mp4"@);
    }
    if e == "webm"@ {
        assert(content_type_of_extension(e) == "video/webm"@);
    }
    if e == "mov"@ {
        assert(content_type_of_extension(e) == "video/quicktime"@);
    }
    if e == "m4v"@ {
        assert(content_type_of_extension(e) == "video/x-m4v"@);
    }
    if e == "mp3"@ {
        assert(content_type_of_extension(e) == "audio/mpeg"@);
    }
    if e == "wav"@ {
        assert(content_type_of_extension(e) == "audio/wav"@);
    }
    if e == "m3u8"@ {
        assert(content_type_of_extension(e) == "application/vnd.apple.mpegurl"@);
    }
    if e == "ts"@ {
        assert(content_type_of_extension(e) == "video/mp2t"@);
    }
    if e == "webmanifest"@ {
        assert(content_type_of_extension(e) == "application/manifest+json"@);
    }
    if e == "wasm"@ {
        assert(content_type_of_extension(e) == "application/wasm"@);
    }
}

/// A file named `stem.ext` is listed with the kind that its extension names
/// in any case (`file` for any other extension).
#[verifier::spinoff_prover]
#[verifier::rlimit(60)]
pub proof fn law_entry_kinds(stem: Seq<char>, ext: Seq<char>)
    requires
        stem.len() > 0,
        ext.len() > 0,
        forall|i: int| 0 <= i < ext.len() ==> ext[i] != '.',
    ensures
        ascii_lower(ext) == "png"@ ==> kind_of_extension(lower_extension(stem + seq!['.'] + ext)) == "image"@,
        ascii_lower(ext) == "jpg"@ ==> kind_of_extension(lower_extension(stem + seq!['.'] + ext)) == "image"@,
        ascii_lower(ext) == "jpeg"@ ==> kind_of_extension(lower_extension(stem + seq!['.'] + ext)) == "image"@,
        ascii_lower(ext) == "gif"@ ==> kind_of_extension(lower_extension(stem + seq!['.'] + ext)) == "image"@,
        ascii_lower(ext) == "webp"@ ==> kind_of_extension(lower_extension(stem + seq!['.'] + ext)) == "image"@,
        ascii_lower(ext) == "svg"@ ==> kind_of_extension(lower_extension(stem + seq!['.'] + ext)) == "image"@,
        ascii_lower(ext) == "bmp"@ ==> kind_of_extension(lower_extension(stem + seq!['.'] + ext)) == "image"@,
        ascii_lower(ext) == "ico"@ ==> kind_of_extension(lower_extension(stem + seq!['.'] + ext)) == "image"@,
        ascii_lower(ext) == "mp4"@ ==> kind_of_extension(lower_extension(stem + seq!['.'] + ext)) == "video"@,
        ascii_lower(ext) == "webm"@ ==> kind_of_extension(lower_extension(stem + seq!['.'] + ext)) == "video"@,
        ascii_lower(ext) == "mov"@ ==> kind_of_extension(lower_extension(stem + seq!['.'] + ext)) == "video"@,
        ascii_lower(ext) == "m4v"@ ==> kind_of_extension(lower_extension(stem + seq!['.'] + ext)) == "video"@,
        ascii_lower(ext) == "avi"@ ==> kind_of_extension(lower_extension(stem + seq!['.'] + ext)) == "video"@,
        ascii_lower(ext) == "mkv"@ ==> kind_of_extension(lower_extension(stem + seq!['.'] + ext)) == "video"@,
        ascii_lower(ext) == "mp3"@ ==> kind_of_extension(lower_extension(stem + seq!['.'] + ext)) == "audio"@,
        ascii_lower(ext) == "wav"@ ==> kind_of_extension(lower_extension(stem + seq!['.'] + ext)) == "audio"@,
        ascii_lower(ext) == "flac"@ ==> kind_of_extension(lower_extension(stem + seq!['.'] + ext)) == "audio"@,
        ascii_lower(ext) == "ogg"@ ==> kind_of_extension(lower_extension(stem + seq!['.'] + ext)) == "audio"@,
        ascii_lower(ext) == "m4a"@ ==> kind_of_extension(lower_extension(stem + seq!['.'] + ext)) == "audio"@,
        ascii_lower(ext) == "zip"@ ==> kind_of_extension(lower_extension(stem + seq!['.'] + ext)) == "archive"@,
        ascii_lower(ext) == "rar"@ ==> kind_of_extension(lower_extension(stem + seq!['.'] + ext)) == "archive"@,
        ascii_lower(ext) == "7z"@ ==> kind_of_extension(lower_extension(stem + seq!['.'] + ext)) == "archive"@,
        ascii_lower(ext) == "tar"@ ==> kind_of_extension(lower_extension(stem + seq!['.'] + ext)) == "archive"@,
        ascii_lower(ext) == "gz"@ ==> kind_of_extension(lower_extension(stem + seq!['.'] + ext)) == "archive"@,
        ascii_lower(ext) == "exe"@ ==> kind_of_extension(lower_extension(stem + seq!['.'] + ext)) == "app"@,
        ascii_lower(ext) == "msi"@ ==> kind_of_extension(lower_extension(stem + seq!['.'] + ext)) == "app"@,
        ascii_lower(ext) == "apk"@ ==> kind_of_extension(lower_extension(stem + seq!['.'] + ext)) == "app"@,
        ascii_lower(ext) == "dmg"@ ==> kind_of_extension(lower_extension(stem + seq!['.'] + ext)) == "app"@,
        ascii_lower(ext) == "pdf"@ ==> kind_of_extension(lower_extension(stem + seq!['.'] + ext)) == "pdf"@,
        ascii_lower(ext) == "doc"@ ==> kind_of_extension(lower_extension(stem + seq!['.'] + ext)) == "doc"@,
        ascii_lower(ext) == "docx"@ ==> kind_of_extension(lower_extension(stem + seq!['.'] + ext)) == "doc"@,
        ascii_lower(ext) == "xls"@ ==> kind_of_extension(lower_extension(stem + seq!['.'] + ext)) == "doc"@,
        ascii_lower(ext) == "xlsx"@ ==> kind_of_extension(lower_extension(stem + seq!['.'] + ext)) == "doc"@,
        ascii_lower(ext) == "ppt"@ ==> kind_of_extension(lower_extension(stem + seq!['.'] + ext)) == "doc"@,
        ascii_lower(ext) == "pptx"@ ==> kind_of_extension(lower_extension(stem + seq!['.'] + ext)) == "doc"@,
        ascii_lower(ext) == "rs"@ ==> kind_of_extension(lower_extension(stem + seq!['.'] + ext)) == "code"@,
        ascii_lower(ext) == "js"@ ==> kind_of_extension(lower_extension(stem + seq!['.'] + ext)) == "code"@,
        ascii_lower(ext) == "ts"@ ==> kind_of_extension(lower_extension(stem + seq!['.'] + ext)) == "code"@,
        ascii_lower(ext) == "tsx"@ ==> kind_of_extension(lower_extension(stem + seq!['.'] + ext)) == "code"@,
        ascii_lower(ext) == "jsx"@ ==> kind_of_extension(lower_extension(stem + seq!['.'] + ext)) == "code"@,
        ascii_lower(ext) == "cs"@ ==> kind_of_extension(lower_extension(stem + seq!['.'] + ext)) == "code"@,
        ascii_lower(ext) == "py"@ ==> kind_of_extension(lower_extension(stem + seq!['.'] + ext)) == "code"@,
        ascii_lower(ext) == "java"@ ==> kind_of_extension(lower_extension(stem + seq!['.'] + ext)) == "code"@,
        ascii_lower(ext) == "go"@ ==> kind_of_extension(lower_extension(stem + seq!['.'] + ext)) == "code"@,
        ascii_lower(ext) == "cpp"@ ==> kind_of_extension(lower_extension(stem + seq!['.'] + ext)) == "code"@,
        ascii_lower(ext) == "c"@ ==> kind_of_extension(lower_extension(stem + seq!['.'] + ext)) == "code"@,
        ascii_lower(ext) == "h"@ ==> kind_of_extension(lower_extension(stem + seq!['.'] + ext)) == "code"@,
        ascii_lower(ext) == "css"@ ==> kind_of_extension(lower_extension(stem + seq!['.'] + ext)) == "code"@,
        ascii_lower(ext) == "toml"@ ==> kind_of_extension(lower_extension(stem + seq!['.'] + ext)) == "code"@,
        ascii_lower(ext) == "yaml"@ ==> kind_of_extension(lower_extension(stem + seq!['.'] + ext)) == "code"@,
        ascii_lower(ext) == "yml"@ ==> kind_of_extension(lower_extension(stem + seq!['.'] + ext)) == "code"@,
        ascii_lower(ext) == "json"@ ==> kind_of_extension(lower_extension(stem + seq!['.'] + ext)) == "json"@,
        ascii_lower(ext) == "html"@ ==> kind_of_extension(lower_extension(stem + seq!['.'] + ext)) == "html"@,
        ascii_lower(ext) == "htm"@ ==> kind_of_extension(lower_extension(stem + seq!['.'] + ext)) == "html"@,
        (ascii_lower(ext) != "png"@ && ascii_lower(ext) != "jpg"@ && ascii_lower(ext) != "jpeg"@ && ascii_lower(ext) != "gif"@ && ascii_lower(ext) != "webp"@ && ascii_lower(ext) != "svg"@ && ascii_lower(ext) != "bmp"@ && ascii_lower(ext) != "ico"@ && ascii_lower(ext) != "mp4"@ && ascii_lower(ext) != "webm"@ && ascii_lower(ext) != "mov"@ && ascii_lower(ext) != "m4v"@ && ascii_lower(ext) != "avi"@ && ascii_lower(ext) != "mkv"@ && ascii_lower(ext) != "mp3"@ && ascii_lower(ext) != "wav"@ && ascii_lower(ext) != "flac"@ && ascii_lower(ext) != "ogg"@ && ascii_lower(ext) != "m4a"@ && ascii_lower(ext) != "zip"@ && ascii_lower(ext) != "rar"@ && ascii_lower(ext) != "7z"@ && ascii_lower(ext) != "tar"@ && ascii_lower(ext) != "gz"@ && ascii_lower(ext) != "exe"@ && ascii_lower(ext) != "msi"@ && ascii_lower(ext) != "apk"@ && ascii_lower(ext) != "dmg"@ && ascii_lower(ext) != "pdf"@ && ascii_lower(ext) != "doc"@ && ascii_lower(ext) != "docx"@ && ascii_lower(ext) != "xls"@ && ascii_lower(ext) != "xlsx"@ && ascii_lower(ext) != "ppt"@ && ascii_lower(ext) != "pptx"@ && ascii_lower(ext) != "rs"@ && ascii_lower(ext) != "js"@ && ascii_lower(ext) != "ts"@ && ascii_lower(ext) != "tsx"@ && ascii_lower(ext) != "jsx"@ && ascii_lower(ext) != "cs"@ && ascii_lower(ext) != "py"@ && ascii_lower(ext) != "java"@ && ascii_lower(ext) != "go"@ && ascii_lower(ext) != "cpp"@ && ascii_lower(ext) != "c"@ && ascii_lower(ext) != "h"@ && ascii_lower(ext) != "css"@ && ascii_lower(ext) != "toml"@ && ascii_lower(ext) != "yaml"@ && ascii_lower(ext) != "yml"@ && ascii_lower(ext) != "json"@ && ascii_lower(ext) != "html"@ && ascii_lower(ext) != "htm"@) ==> kind_of_extension(lower_extension(stem + seq!['.'] + ext)) == "file"@,
{
    reveal_strlit("png");
    reveal_strlit("jpg");
    reveal_strlit("jpeg");
    reveal_strlit("gif");
    reveal_strlit("webp");
    reveal_strlit("svg");
    reveal_strlit("bmp");
    reveal_strlit("ico");
    reveal_strlit("mp4");
    reveal_strlit("webm");
    reveal_strlit("mov");
    reveal_strlit("m4v");
    reveal_strlit("avi");
    reveal_strlit("mkv");
    reveal_strlit("mp3");
    reveal_strlit("wav");
    reveal_strlit("flac");
    reveal_strlit("ogg");
    reveal_strlit("m4a");
    reveal_strlit("zip");
    reveal_strlit("rar");
    reveal_strlit("7z");
    reveal_strlit("tar");
    reveal_strlit("gz");
    reveal_strlit("exe");
    reveal_strlit("msi");
    reveal_strlit("apk");
    reveal_strlit("dmg");
    reveal_strlit("pdf");
    reveal_strlit("doc");
    reveal_strlit("docx");
    reveal_strlit("xls");
    reveal_strlit("xlsx");
    reveal_strlit("ppt");
    reveal_strlit("pptx");
    reveal_strlit("rs");
    reveal_strlit("js");
    reveal_strlit("ts");
    reveal_strlit("tsx");
    reveal_strlit("jsx");
    reveal_strlit("cs");
    reveal_strlit("py");
    reveal_strlit("java");
    reveal_strlit("go");
    reveal_strlit("cpp");
    reveal_strlit("c");
    reveal_strlit("h");
    reveal_strlit("css");
    reveal_strlit("toml");
    reveal_strlit("yaml");
    reveal_strlit("yml");
    reveal_strlit("json");
    reveal_strlit("html");
    reveal_strlit("htm");
    lemma_lower_extension_of(stem, ext);
    assert("png"@.len() == 3 && "png"@[0] == 'p' && "png"@[1] == 'n' && "png"@[2] == 'g');
    assert("jpg"@.len() == 3 && "jpg"@[0] == 'j' && "jpg"@[1] == 'p' && "jpg"@[2] == 'g');
    assert("jpeg"@.len() == 4 && "jpeg"@[0] == 'j' && "jpeg"@[1] == 'p' && "jpeg"@[2] == 'e' && "jpeg"@[3] == 'g');
    assert("gif"@.len() == 3 && "gif"@[0] == 'g' && "gif"@[1] == 'i' && "gif"@[2] == 'f');
    assert("webp"@.len() == 4 && "webp"@[0] == 'w' && "webp"@[1] == 'e' && "webp"@[2] == 'b' && "webp"@[3] == 'p');
    assert("svg"@.len() == 3 && "svg"@[0] == 's' && "svg"@[1] == 'v' && "svg"@[2] == 'g');
    assert("bmp"@.len() == 3 && "bmp"@[0] == 'b' && "bmp"@[1] == 'm' && "bmp"@[2] == 'p');
    assert("ico"@.len() == 3 && "ico"@[0] == 'i' && "ico"@[1] == 'c' && "ico"@[2] == 'o');
    assert("mp4"@.len() == 3 && "mp4"@[0] == 'm' && "mp4"@[1] == 'p' && "mp4"@[2] == '4');
    assert("webm"@.len() == 4 && "webm"@[0] == 'w' && "webm"@[1] == 'e' && "webm"@[2] == 'b' && "webm"@[3] == 'm');
    assert("mov"@.len() == 3 && "mov"@[0] == 'm' && "mov"@[1] == 'o' && "mov"@[2] == 'v');
    assert("m4v"@.len() == 3 && "m4v"@[0] == 'm' && "m4v"@[1] == '4' && "m4v"@[2] == 'v');
    assert("avi"@.len() == 3 && "avi"@[0] == 'a' && "avi"@[1] == 'v' && "avi"@[2] == 'i');
    assert("mkv"@.len() == 3 && "mkv"@[0] == 'm' && "mkv"@[1] == 'k' && "mkv"@[2] == 'v');
    assert("mp3"@.len() == 3 && "mp3"@[0] == 'm' && "mp3"@[1] == 'p' && "mp3"@[2] == '3');
    assert("wav"@.len() == 3 && "wav"@[0] == 'w' && "wav"@[1] == 'a' && "wav"@[2] == 'v');
    assert("flac"@.len() == 4 && "flac"@[0] == 'f' && "flac"@[1] == 'l' && "flac"@[2] == 'a' && "flac"@[3] == 'c');
    assert("ogg"@.len() == 3 && "ogg"@[0] == 'o' && "ogg"@[1] == 'g' && "ogg"@[2] == 'g');
    assert("m4a"@.len() == 3 && "m4a"@[0] == 'm' && "m4a"@[1] == '4' && "m4a"@[2] == 'a');
    assert("zip"@.len() == 3 && "zip"@[0] == 'z' && "zip"@[1] == 'i' && "zip"@[2] == 'p');
    assert("rar"@.len() == 3 && "rar"@[0] == 'r' && "rar"@[1] == 'a' && "rar"@[2] == 'r');
    assert("7z"@.len() == 2 && "7z"@[0] == '7' && "7z"@[1] == 'z');
    assert("tar"@.len() == 3 && "tar"@[0] == 't' && "tar"@[1] == 'a' && "tar"@[2] == 'r');
    assert("gz"@.len() == 2 && "gz"@[0] == 'g' && "gz"@[1] == 'z');
    assert("exe"@.len() == 3 && "exe"@[0] == 'e' && "exe"@[1] == 'x' && "exe"@[2] == 'e');
    assert("msi"@.len() == 3 && "msi"@[0] == 'm' && "msi"@[1] == 's' && "msi"@[2] == 'i');
    assert("apk"@.len() == 3 && "apk"@[0] == 'a' && "apk"@[1] == 'p' && "apk"@[2] == 'k');
    assert("dmg"@.len() == 3 && "dmg"@[0] == 'd' && "dmg"@[1] == 'm' && "dmg"@[2] == 'g');
    assert("pdf"@.len() == 3 && "pdf"@[0] == 'p' && "pdf"@[1] == 'd' && "pdf"@[2] == 'f');
    assert("doc"@.len() == 3 && "doc"@[0] == 'd' && "doc"@[1] == 'o' && "doc"@[2] == 'c');
    assert("docx"@.len() == 4 && "docx"@[0] == 'd' && "docx"@[1] == 'o' && "docx"@[2] == 'c' && "docx"@[3] == 'x');
    assert("xls"@.len() == 3 && "xls"@[0] == 'x' && "xls"@[1] == 'l' && "xls"@[2] == 's');
    assert("xlsx"@.len() == 4 && "xlsx"@[0] == 'x' && "xlsx"@[1] == 'l' && "xlsx"@[2] == 's' && "xlsx"@[3] == 'x');
    assert("ppt"@.len() == 3 && "ppt"@[0] == 'p' && "ppt"@[1] == 'p' && "ppt"@[2] == 't');
    assert("pptx"@.len() == 4 && "pptx"@[0] == 'p' && "pptx"@[1] == 'p' && "pptx"@[2] == 't' && "pptx"@[3] == 'x');
    assert("rs"@.len() == 2 && "rs"@[0] == 'r' && "rs"@[1] == 's');
    assert("js"@.len() == 2 && "js"@[0] == 'j' && "js"@[1] == 's');
    assert("ts"@.len() == 2 && "ts"@[0] == 't' && "ts"@[1] == 's');
    assert("tsx"@.len() == 3 && "tsx"@[0] == 't' && "tsx"@[1] == 's' && "tsx"@[2] == 'x');
    assert("jsx"@.len() == 3 && "jsx"@[0] == 'j' && "jsx"@[1] == 's' && "jsx"@[2] == 'x');
    assert("cs"@.len() == 2 && "cs"@[0] == 'c' && "cs"@[1] == 's');
    assert("py"@.len() == 2 && "py"@[0] == 'p' && "py"@[1] == 'y');
    assert("java"@.len() == 4 && "java"@[0] == 'j' && "java"@[1] == 'a' && "java"@[2] == 'v' && "java"@[3] == 'a');
    assert("go"@.len() == 2 && "go"@[0] == 'g' && "go"@[1] == 'o');
    assert("cpp"@.len() == 3 && "cpp"@[0] == 'c' && "cpp"@[1] == 'p' && "cpp"@[2] == 'p');
    assert("c"@.len() == 1 && "c"@[0] == 'c');
    assert("h"@.len() == 1 && "h"@[0] == 'h');
    assert("css"@.len() == 3 && "css"@[0] == 'c' && "css"@[1] == 's' && "css"@[2] == 's');
    assert("toml"@.len() == 4 && "toml"@[0] == 't' && "toml"@[1] == 'o' && "toml"@[2] == 'm' && "toml"@[3] == 'l');
    assert("yaml"@.len() == 4 && "yaml"@[0] == 'y' && "yaml"@[1] == 'a' && "yaml"@[2] == 'm' && "yaml"@[3] == 'l');
    assert("yml"@.len() == 3 && "yml"@[0] == 'y' && "yml"@[1] == 'm' && "yml"@[2] == 'l');
    assert("json"@.len() == 4 && "json"@[0] == 'j' && "json"@[1] == 's' && "json"@[2] == 'o' && "json"@[3] == 'n');
    assert("html"@.len() == 4 && "html"@[0] == 'h' && "html"@[1] == 't' && "html"@[2] == 'm' && "html"@[3] == 'l');
    assert("htm"@.len() == 3 && "htm"@[0] == 'h' && "htm"@[1] == 't' && "htm"@[2] == 'm');
    let e = ascii_lower(ext);
    assert(e.len() > 0 ==> e[0] == e[0]);
    assert(e.len() > 1 ==> e[1] == e[1]);
    assert(e.len() > 2 ==> e[2] == e[2]);
    assert(e.len() > 3 ==> e[3] == e[3]);
    if e == "png"@ {
        assert(kind_of_extension(e) == "image"@);
    }
    if e == "jpg"@ {
        assert(kind_of_extension(e) == "image"@);
    }
    if e == "jpeg"@ {
        assert(kind_of_extension(e) == "image"@);
    }
    if e == "gif"@ {
        assert(kind_of_extension(e) == "image"@);
    }
    if e == "webp"@ {
        assert(kind_of_extension(e) == "image"@);
    }
    if e == "svg"@ {
        assert(kind_of_extension(e) == "image"@);
    }
    if e == "bmp"@ {
        assert(kind_of_extension(e) == "image"@);
    }
    if e == "ico"@ {
        assert(kind_of_extension(e) == "image"@);
    }
    if e == "mp4"@ {
        assert(kind_of_extension(e) == "video"@);
    }
    if e == "webm"@ {
        assert(kind_of_extension(e) == "video"@);
    }
    if e == "mov"@ {
        assert(kind_of_extension(e) == "video"@);
    }
    if e == "m4v"@ {
        assert(kind_of_extension(e) == "video"@);
    }
    if e == "avi"@ {
        assert(kind_of_extension(e) == "video"@);
    }
    if e == "mkv"@ {
        assert(kind_of_extension(e) == "video"@);
    }
    if e == "mp3"@ {
        assert(kind_of_extension(e) == "audio"@);
    }
    if e == "wav"@ {
        assert(kind_of_extension(e) == "audio"@);
    }
    if e == "flac"@ {
        assert(kind_of_extension(e) == "audio"@);
    }
    if e == "ogg"@ {
        assert(kind_of_extension(e) == "audio"@);
    }
    if e == "m4a"@ {
        assert(kind_of_extension(e) == "audio"@);
    }
    if e == "zip"@ {
        assert(kind_of_extension(e) == "archive"@);
    }
    if e == "rar"@ {
        assert(kind_of_extension(e) == "archive"@);
    }
    if e == "7z"@ {
        assert(kind_of_extension(e) == "archive"@);
    }
    if e == "tar"@ {
        assert(kind_of_extension(e) == "archive"@);
    }
    if e == "gz"@ {
        assert(kind_of_extension(e) == "archive"@);
    }
    if e == "exe"@ {
        assert(kind_of_extension(e) == "app"@);
    }
    if e == "msi"@ {
        assert(kind_of_extension(e) == "app"@);
    }
    if e == "apk"@ {
        assert(kind_of_extension(e) == "app"@);
    }
    if e == "dmg"@ {
        assert(kind_of_extension(e) == "app"@);
    }
    if e == "pdf"@ {
        assert(kind_of_extension(e) == "pdf"@);
    }
    if e == "doc"@ {
        assert(kind_of_extension(e) == "doc"@);
    }
    if e == "docx"@ {
        assert(kind_of_extension(e) == "doc"@);
    }
    if e == "xls"@ {
        assert(kind_of_extension(e) == "doc"@);
    }
    if e == "xlsx"@ {
        assert(kind_of_extension(e) == "doc"@);
    }
    if e == "ppt"@ {
        assert(kind_of_extension(e) == "doc"@);
    }
    if e == "pptx"@ {
        assert(kind_of_extension(e) == "doc"@);
    }
    if e == "rs"@ {
        assert(kind_of_extension(e) == "code"@);
    }
    if e == "js"@ {
        assert(kind_of_extension(e) == "code"@);
    }
    if e == "ts"@ {
        assert(kind_of_extension(e) == "code"@);
    }
    if e == "tsx"@ {
        assert(kind_of_extension(e) == "code"@);
    }
    if e == "jsx"@ {
        assert(kind_of_extension(e) == "code"@);
    }
    if e == "cs"@ {
        assert(kind_of_extension(e) == "code"@);
    }
    if e == "py"@ {
        assert(kind_of_extension(e) == "code"@);
    }
    if e == "java"@ {
        assert(kind_of_extension(e) == "code"@);
    }
    if e == "go"@ {
        assert(kind_of_extension(e) == "code"@);
    }
    if e == "cpp"@ {
        assert(kind_of_extension(e) == "code"@);
    }
    if e == "c"@ {
        assert(kind_of_extension(e) == "code"@);
    }
    if e == "h"@ {
        assert(kind_of_extension(e) == "code"@);
    }
    if e == "css"@ {
        assert(kind_of_extension(e) == "code"@);
    }
    if e == "toml"@ {
        assert(kind_of_extension(e) == "code"@);
    }
    if e == "yaml"@ {
        assert(kind_of_extension(e) == "code"@);
    }
    if e == "yml"@ {
        assert(kind_of_extension(e) == "code"@);
    }
    if e == "json"@ {
        assert(kind_of_extension(e) == "json"@);
    }
    if e == "html"@ {
        assert(kind_of_extension(e) == "html"@);
    }
    if e == "htm"@ {
        assert(kind_of_extension(e) == "html"@);
    }
}

/// Each kind of listing entry has its own icon: a folder for `dir`, a picture
/// for `image`, and so on; a page for any other kind.
pub proof fn law_file_icons(kind: Seq<char>)
    ensures
        kind == "dir"@ ==> icon_of_kind(kind) == "📁"@,
        kind == "image"@ ==> icon_of_kind(kind) == "🖼️"@,
        kind == "video"@ ==> icon_of_kind(kind) == "🎬"@,
        kind == "audio"@ ==> icon_of_kind(kind) == "🎧"@,
        kind == "archive"@ ==> icon_of_kind(kind) == "🗜️"@,
        kind == "app"@ ==> icon_of_kind(kind) == "📦"@,
        kind == "doc"@ ==> icon_of_kind(kind) == "📝"@,
        kind == "pdf"@ ==> icon_of_kind(kind) == "📕"@,
        kind == "code"@ ==> icon_of_kind(kind) == "⌘"@,
        kind == "json"@ ==> icon_of_kind(kind) == "{}"@,
        kind == "html"@ ==> icon_of_kind(kind) == "🌐"@,
        (kind != "dir"@ && kind != "image"@ && kind != "video"@ && kind != "audio"@ && kind != "archive"@ && kind != "app"@ && kind != "doc"@ && kind != "pdf"@ && kind != "code"@ && kind != "json"@ && kind != "html"@) ==> icon_of_kind(kind) == "📄"@,
{
    reveal_strlit("dir");
    reveal_strlit("image");
    reveal_strlit("video");
    reveal_strlit("audio");
    reveal_strlit("archive");
    reveal_strlit("app");
    reveal_strlit("doc");
    reveal_strlit("pdf");
    reveal_strlit("code");
    reveal_strlit("json");
    reveal_strlit("html");
    assert("dir"@.len() == 3 && "dir"@[0] == 'd' && "dir"@[1] == 'i' && "dir"@[2] == 'r');
    assert("image"@.len() == 5 && "image"@[0] == 'i' && "image"@[1] == 'm' && "image"@[2] == 'a' && "image"@[3] == 'g' && "image"@[4] == 'e');
    assert("video"@.len() == 5 && "video"@[0] == 'v' && "video"@[1] == 'i' && "video"@[2] == 'd' && "video"@[3] == 'e' && "video"@[4] == 'o');
    assert("audio"@.len() == 5 && "audio"@[0] == 'a' && "audio"@[1] == 'u' && "audio"@[2] == 'd' && "audio"@[3] == 'i' && "audio"@[4] == 'o');
    assert("archive"@.len() == 7 && "archive"@[0] == 'a' && "archive"@[1] == 'r' && "archive"@[2] == 'c' && "archive"@[3] == 'h' && "archive"@[4] == 'i' && "archive"@[5] == 'v' && "archive"@[6] == 'e');
    assert("app"@.len() == 3 && "app"@[0] == 'a' && "app"@[1] == 'p' && "app"@[2] == 'p');
    assert("doc"@.len() == 3 && "doc"@[0] == 'd' && "doc"@[1] == 'o' && "doc"@[2] == 'c');
    assert("pdf"@.len() == 3 && "pdf"@[0] == 'p' && "pdf"@[1] == 'd' && "pdf"@[2] == 'f');
    assert("code"@.len() == 4 && "code"@[0] == 'c' && "code"@[1] == 'o' && "code"@[2] == 'd' && "code"@[3] == 'e');
    assert("json"@.len() == 4 && "json"@[0] == 'j' && "json"@[1] == 's' && "json"@[2] == 'o' && "json"@[3] == 'n');
    assert("html"@.len() == 4 && "html"@[0] == 'h' && "html"@[1] == 't' && "html"@[2] == 'm' && "html"@[3] == 'l');
    assert(kind.len() > 0 ==> kind[0] == kind[0]);
    assert(kind.len() > 1 ==> kind[1] == kind[1]);
    assert(kind.len() > 2 ==> kind[2] == kind[2]);
    assert(kind.len() > 3 ==> kind[3] == kind[3]);
    assert(kind.len() > 4 ==> kind[4] == kind[4]);
    assert(kind.len() > 5 ==> kind[5] == kind[5]);
    assert(kind.len() > 6 ==> kind[6] == kind[6]);
}

} // verus!
