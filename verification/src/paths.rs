//! Paths as text: how a path is shown, and the folders of upload sessions.
use vstd::prelude::*;
use crate::text::{chars_of, string_of, starts_with, slice_of, copy};
use crate::request::{join_path, join_path_exec};

verus! {

broadcast use vstd::string::group_string_axioms;

/// The shown form of a path: without Windows' verbatim `\\?\` prefix.
pub open spec fn display_path_spec(text: Seq<char>) -> Seq<char> {
    if starts_with(text, "\\\\?\\"@) {
        text.skip("\\\\?\\"@.len() as int)
    } else {
        text
    }
}

/// The shown form of a path (its text, as `Path::display` gives it), without
/// Windows' verbatim `\\?\` prefix.
pub fn display_path(text: &str) -> (r: String)
    ensures
        r@ == display_path_spec(text@),
{
    let t = chars_of(text);
    let p = chars_of("\\\\?\\");
    if crate::text::starts_with_exec(&t, &p) {
        let n = t.len();
        string_of(&slice_of(&t, p.len(), n))
    } else {
        string_of(&t)
    }
}

/// `base` joined with `c` as std's `PathBuf::push` does on Unix: an absolute `c`
/// replaces `base`, else it is appended with one `/` between.
pub open spec fn push_path(base: Seq<char>, c: Seq<char>) -> Seq<char> {
    if c.len() > 0 && c[0] == '/' {
        c
    } else {
        join_path(base, c)
    }
}

fn push_path_exec(base: &Vec<char>, c: &Vec<char>) -> (r: Vec<char>)
    ensures
        r@ == push_path(base@, c@),
{
    if c.len() > 0 && c[0] == '/' {
        copy(c)
    } else {
        let mut b = copy(base);
        join_path_exec(&mut b, c);
        b
    }
}

/// The folder that holds upload sessions, under the root.
pub open spec fn uploads_dir_spec(root: Seq<char>) -> Seq<char> {
    push_path(root, ".staticdock-uploads"@)
}

/// The folder that holds upload sessions: `.staticdock-uploads` under the root.
pub fn uploads_dir(root: &str) -> (r: String)
    ensures
        r@ == uploads_dir_spec(root@),
{
    let r = chars_of(root);
    let d = chars_of(".staticdock-uploads");
    string_of(&push_path_exec(&r, &d))
}

/// The folder of upload session `id`: `id` joined to the uploads folder.
pub fn session_dir(root: &str, id: &str) -> (r: String)
    ensures
        r@ == push_path(uploads_dir_spec(root@), id@),
{
    let u = uploads_dir(root);
    let uv = chars_of(u.as_str());
    let iv = chars_of(id);
    string_of(&push_path_exec(&uv, &iv))
}

} // verus!
