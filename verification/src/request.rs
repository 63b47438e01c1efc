//! Request targets: the path part of a target (origin or absolute form), its
//! normal form, its mapping to a path under the resource root, query
//! parameters, and the routing decision of a request.
use vstd::prelude::*;
use crate::text::{chars_of, string_of, views, starts_with, starts_with_str, contains, contains_str,
    contains_char, index_of, index_of_exec, find, find_exec, ascii_lower, ascii_lower_exec,
    split_char, split_char_exec, split_once_char, split_once_char_exec, trim_start_char,
    trim_start_char_exec, replace_all, replace_exec, slice_of, push_all, chars_eq, chars_eq_str,
    copy};
use crate::percent::{percent_decode, percent_decode_spec, query_percent_decode,
    query_percent_decode_spec};

verus! {

broadcast use vstd::string::group_string_axioms;

/// The part of `t` before the first `c` (all of `t` when there is none).
pub open spec fn take_before(t: Seq<char>, c: char) -> Seq<char> {
    match index_of(t, c) {
        Some(k) => t.take(k),
        None => t,
    }
}

/// The path part of a request target: for an absolute `http://` or `https://`
/// target (scheme in any case), the text from the first `/` after the
/// authority (`/` when there is none); no path for another scheme; else the
/// text before the query.
pub open spec fn request_path_part_spec(t: Seq<char>) -> Option<Seq<char>> {
    let bq = take_before(t, '?');
    let lower = ascii_lower(bq);
    if starts_with(lower, "http://"@) || starts_with(lower, "https://"@) {
        match find(lower, "://"@) {
            Some(k) => {
                let rest = bq.skip(k + "://"@.len());
                match index_of(rest, '/') {
                    Some(i) => Some(rest.skip(i)),
                    None => Some(seq!['/']),
                }
            },
            None => None,
        }
    } else if contains(bq, "://"@) {
        None
    } else {
        Some(bq)
    }
}

/// The normal form of a request target: its path part (the target itself when
/// it has none), then `?` and the query when the query is not empty.
pub open spec fn normalize_request_target_spec(t: Seq<char>) -> Seq<char> {
    let (bq, q) = match split_once_char(t, '?') {
        Some(p) => p,
        None => (t, Seq::<char>::empty()),
    };
    let path = match request_path_part_spec(bq) {
        Some(p) => p,
        None => bq,
    };
    if q.len() == 0 {
        path
    } else {
        path + seq!['?'] + q
    }
}

/// The components of a decoded path that name something under the root: empty
/// pieces and `.` are skipped; a `..` or a piece holding NUL refuses the path.
pub open spec fn path_components(parts: Seq<Seq<char>>) -> Option<Seq<Seq<char>>>
    decreases parts.len(),
{
    if parts.len() == 0 {
        Some(Seq::empty())
    } else {
        let c = parts[0];
        if c.len() == 0 || c == "."@ {
            path_components(parts.drop_first())
        } else if c == ".."@ || index_of(c, '\0') is Some {
            None
        } else {
            match path_components(parts.drop_first()) {
                Some(r) => Some(seq![c] + r),
                None => None,
            }
        }
    }
}

/// The path components that a request target names under the root.
pub open spec fn request_components_spec(target: Seq<char>) -> Option<Seq<Seq<char>>> {
    match request_path_part_spec(target) {
        Some(pp) => {
            let decoded = percent_decode_spec(trim_start_char(pp, '/'));
            let normalized = replace_all(decoded, "\\"@, "/"@);
            path_components(split_char(normalized, '/'))
        },
        None => None,
    }
}

/// `base` extended by one component, with a `/` between them where `base` does
/// not already end in one: how `PathBuf::push` joins a plain component on
/// Unix. (On Windows std joins with `\` and lets a component with a drive
/// prefix, such as `C:`, replace the path; this library follows Unix.)
pub open spec fn join_path(base: Seq<char>, c: Seq<char>) -> Seq<char> {
    if base.len() == 0 {
        c
    } else if base.last() == '/' {
        base + c
    } else {
        base + seq!['/'] + c
    }
}

/// `base` extended by each component in turn.
pub open spec fn join_all(base: Seq<char>, cs: Seq<Seq<char>>) -> Seq<char>
    decreases cs.len(),
{
    if cs.len() == 0 {
        base
    } else {
        join_path(join_all(base, cs.drop_last()), cs.last())
    }
}

/// The path under `root` that a request target names, if it names one.
pub open spec fn resolve_request_path_spec(root: Seq<char>, target: Seq<char>) -> Option<Seq<char>> {
    match request_components_spec(target) {
        Some(cs) => Some(join_all(root, cs)),
        None => None,
    }
}

/// The text before the first `c`.
pub fn take_before_exec(t: &Vec<char>, c: char) -> (r: Vec<char>)
    ensures
        r@ == take_before(t@, c),
{
    let n = t.len();
    match index_of_exec(t, c) {
        Some(k) => {
            assert(k < n);
            slice_of(t, 0, k)
        },
        None => copy(t),
    }
}

/// The path part of a request target, as characters.
pub fn request_path_part_chars(t: &Vec<char>) -> (r: Option<Vec<char>>)
    ensures
        r matches Some(v) ==> request_path_part_spec(t@) == Some(v@),
        r is None ==> request_path_part_spec(t@) is None,
{
    let bq = take_before_exec(t, '?');
    let lower = ascii_lower_exec(&bq);
    if starts_with_str(&lower, "http://") || starts_with_str(&lower, "https://") {
        let sep = chars_of("://");
        let n = bq.len();
        let found = find_exec(&lower, &sep);
        match found {
            Some(k) => {
                assert(lower@.len() == bq@.len());
                let rest = slice_of(&bq, k + sep.len(), n);
                assert(rest@ == bq@.skip(k + "://"@.len()));
                let m = rest.len();
                match index_of_exec(&rest, '/') {
                    Some(i) => {
                        let r = slice_of(&rest, i, m);
                        assert(r@ == rest@.skip(i as int));
                        Some(r)
                    },
                    None => {
                        let mut r: Vec<char> = Vec::new();
                        r.push('/');
                        assert(r@ == seq!['/']);
                        Some(r)
                    },
                }
            },
            None => None,
        }
    } else if contains_str(&bq, "://") {
        None
    } else {
        Some(bq)
    }
}

/// The path part of a request target: for an `http://` or `https://` target
/// the path after the authority (`/` when it has none), no path for another
/// scheme, else the text before the query.
pub fn request_path_part(target: &str) -> (r: Option<String>)
    ensures
        r matches Some(v) ==> request_path_part_spec(target@) == Some(v@),
        r is None ==> request_path_part_spec(target@) is None,
{
    let t = chars_of(target);
    match request_path_part_chars(&t) {
        Some(v) => Some(string_of(&v)),
        None => None,
    }
}

/// The normal form of a request target, as characters.
pub fn normalize_request_target_chars(t: &Vec<char>) -> (r: Vec<char>)
    ensures
        r@ == normalize_request_target_spec(t@),
{
    let (bq, q) = match split_once_char_exec(t, '?') {
        Some(p) => p,
        None => (copy(t), Vec::new()),
    };
    assert(bq@ == (match split_once_char(t@, '?') {
        Some(p) => p,
        None => (t@, Seq::<char>::empty()),
    }).0);
    let mut path = match request_path_part_chars(&bq) {
        Some(p) => p,
        None => bq,
    };
    if q.len() == 0 {
        path
    } else {
        path.push('?');
        push_all(&mut path, &q);
        path
    }
}

/// The normal form of a request target: the path part of the text before `?`
/// (that text itself when it has none), then `?` and the query if non-empty.
pub fn normalize_request_target(target: &str) -> (r: String)
    ensures
        r@ == normalize_request_target_spec(target@),
{
    let t = chars_of(target);
    let r = normalize_request_target_chars(&t);
    string_of(&r)
}

proof fn lemma_path_components_step(parts: Seq<Seq<char>>, i: int)
    requires
        0 <= i < parts.len(),
    ensures
        parts.skip(i)[0] == parts[i],
        parts.skip(i).drop_first() == parts.skip(i + 1),
{
    assert(parts.skip(i).drop_first() =~= parts.skip(i + 1));
}

/// The components that name something under the root, from the pieces of a
/// decoded path.
pub fn path_components_exec(parts: &Vec<Vec<char>>) -> (r: Option<Vec<Vec<char>>>)
    ensures
        r matches Some(v) ==> path_components(views(parts@)) == Some(views(v@)),
        r is None ==> path_components(views(parts@)) is None,
{
    let ghost ps = views(parts@);
    let mut kept: Vec<Vec<char>> = Vec::new();
    let mut i: usize = 0;
    assert(ps.skip(0) == ps);
    assert(views(kept@) =~= Seq::<Seq<char>>::empty());
    while i < parts.len()
        invariant
            i <= parts.len(),
            ps == views(parts@),
            path_components(ps) == (match path_components(ps.skip(i as int)) {
                Some(r) => Some(views(kept@) + r),
                None => None,
            }),
        decreases parts.len() - i,
    {
        proof {
            lemma_path_components_step(ps, i as int);
        }
        let c = &parts[i];
        assert(c@ == ps[i as int]);
        if c.len() == 0 || chars_eq_str(c, ".") {
        } else if chars_eq_str(c, "..") || contains_char(c, '\0') {
            return None;
        } else {
            let ghost before = views(kept@);
            kept.push(copy(c));
            assert(views(kept@) =~= before + seq![c@]);
            assert forall|r: Seq<Seq<char>>| true implies before + (seq![c@] + r) == views(kept@) + r by {
                assert(before + (seq![c@] + r) =~= views(kept@) + r);
            }
        }
        i += 1;
    }
    assert(ps.skip(i as int) =~= Seq::<Seq<char>>::empty());
    assert(views(kept@) + Seq::<Seq<char>>::empty() =~= views(kept@));
    Some(kept)
}

/// The path components that a request target names under the root: the path
/// part, without leading slashes, percent-decoded, backslashes read as slashes,
/// split at slashes; `None` when there is no path part, or a component is `..`
/// or holds NUL.
pub fn request_components(target: &str) -> (r: Option<Vec<Vec<char>>>)
    ensures
        r matches Some(v) ==> request_components_spec(target@) == Some(views(v@)),
        r is None ==> request_components_spec(target@) is None,
{
    let t = chars_of(target);
    let pp = match request_path_part_chars(&t) {
        Some(p) => p,
        None => {
            return None;
        },
    };
    let trimmed = trim_start_char_exec(&pp, '/');
    let trimmed_text = string_of(&trimmed);
    let decoded_text = percent_decode(trimmed_text.as_str());
    let decoded = chars_of(decoded_text.as_str());
    let backslash = chars_of("\\");
    let slash = chars_of("/");
    proof {
        reveal_strlit("\\");
    }
    let normalized = replace_exec(&decoded, &backslash, &slash);
    let parts = split_char_exec(&normalized, '/');
    path_components_exec(&parts)
}

/// `base` extended by one component.
pub fn join_path_exec(base: &mut Vec<char>, c: &Vec<char>)
    ensures
        final(base)@ == join_path(old(base)@, c@),
{
    if base.len() == 0 {
        push_all(base, c);
    } else if base[base.len() - 1] == '/' {
        push_all(base, c);
    } else {
        base.push('/');
        push_all(base, c);
    }
}

/// The path under `root` that a request target names: `root` extended by each
/// component of `request_components`, or `None` when those are refused.
pub fn resolve_request_path(root: &str, target: &str) -> (r: Option<String>)
    ensures
        r matches Some(v) ==> resolve_request_path_spec(root@, target@) == Some(v@),
        r is None ==> resolve_request_path_spec(root@, target@) is None,
{
    let cs = match request_components(target) {
        Some(cs) => cs,
        None => {
            return None;
        },
    };
    let mut path = chars_of(root);
    let mut i: usize = 0;
    assert(views(cs@).take(0) =~= Seq::<Seq<char>>::empty());
    while i < cs.len()
        invariant
            i <= cs.len(),
            path@ == join_all(root@, views(cs@).take(i as int)),
        decreases cs.len() - i,
    {
        assert(views(cs@).take(i + 1).drop_last() =~= views(cs@).take(i as int));
        join_path_exec(&mut path, &cs[i]);
        i += 1;
    }
    assert(views(cs@).take(cs.len() as int) =~= views(cs@));
    Some(string_of(&path))
}

/// The decoded value of the first query part whose decoded key is `name`.
pub open spec fn query_lookup(parts: Seq<Seq<char>>, name: Seq<char>) -> Option<Seq<char>>
    decreases parts.len(),
{
    if parts.len() == 0 {
        None
    } else {
        let part = parts[0];
        let (key, value) = match split_once_char(part, '=') {
            Some(kv) => kv,
            None => (part, Seq::<char>::empty()),
        };
        if query_percent_decode_spec(key) == name {
            Some(query_percent_decode_spec(value))
        } else {
            query_lookup(parts.drop_first(), name)
        }
    }
}

/// The value of query parameter `name` in a request target.
pub open spec fn query_param_spec(target: Seq<char>, name: Seq<char>) -> Option<Seq<char>> {
    match split_once_char(target, '?') {
        Some((_, q)) => query_lookup(split_char(q, '&'), name),
        None => None,
    }
}

/// The value of query parameter `name` in a request target: the query is the
/// text after the first `?`, split at `&`; a part without `=` has an empty
/// value; keys and values are decoded with `+` read as a space; the first part
/// whose decoded key is `name` gives the value.
pub fn query_param(target: &str, name: &str) -> (r: Option<String>)
    ensures
        r matches Some(v) ==> query_param_spec(target@, name@) == Some(v@),
        r is None ==> query_param_spec(target@, name@) is None,
{
    let t = chars_of(target);
    let nm = chars_of(name);
    let q = match split_once_char_exec(&t, '?') {
        Some((_, q)) => q,
        None => {
            return None;
        },
    };
    let parts = split_char_exec(&q, '&');
    let ghost ps = views(parts@);
    let mut i: usize = 0;
    assert(ps.skip(0) == ps);
    while i < parts.len()
        invariant
            i <= parts.len(),
            ps == views(parts@),
            nm@ == name@,
            query_param_spec(target@, name@) == query_lookup(ps, name@),
            query_lookup(ps, nm@) == query_lookup(ps.skip(i as int), nm@),
        decreases parts.len() - i,
    {
        proof {
            lemma_path_components_step(ps, i as int);
        }
        let part = &parts[i];
        assert(part@ == ps[i as int]);
        let (key, value) = match split_once_char_exec(part, '=') {
            Some(kv) => kv,
            None => (copy(part), Vec::new()),
        };
        assert((key@, value@) == (match split_once_char(part@, '=') {
            Some(kv) => kv,
            None => (part@, Seq::<char>::empty()),
        }));
        let key_text = string_of(&key);
        let decoded_key = query_percent_decode(key_text.as_str());
        let dk = chars_of(decoded_key.as_str());
        if chars_eq(&dk, &nm) {
            let value_text = string_of(&value);
            return Some(query_percent_decode(value_text.as_str()));
        }
        i += 1;
    }
    assert(ps.skip(i as int) =~= Seq::<Seq<char>>::empty());
    None
}

/// Whether a client keeps the connection open, given its `Connection` header:
/// yes unless the header's value, in lower case, contains `close`.
pub open spec fn keep_alive_spec(connection: Option<Seq<char>>) -> bool {
    match connection {
        Some(v) => !contains(ascii_lower(v), "close"@),
        None => true,
    }
}

/// Whether a client keeps the connection open, given its `Connection` header.
pub fn keep_alive_requested(connection: Option<&str>) -> (r: bool)
    ensures
        r == keep_alive_spec(match connection {
            Some(v) => Some(v@),
            None => None,
        }),
{
    match connection {
        Some(v) => {
            let c = chars_of(v);
            let lower = ascii_lower_exec(&c);
            !contains_str(&lower, "close")
        },
        None => true,
    }
}

/// Where a request goes.
#[derive(Clone, Copy, Debug, PartialEq, Eq, Structural)]
pub enum Route {
    /// A CORS preflight: `204` with the allowed methods.
    Options,
    /// The upload API.
    Upload,
    /// The upload API while uploads are off: `403`.
    UploadsDisabled,
    /// Any method but `GET` and `HEAD` outside the upload API: `405`.
    MethodNotAllowed,
    /// The directory listing API.
    ApiList,
    /// The server information API.
    ApiInfo,
    /// The QR code API.
    ApiQr,
    /// A static file or directory.
    Static,
}

/// Where a request with this method and normalized target goes.
pub open spec fn route_spec(method: Seq<char>, target: Seq<char>, uploads_enabled: bool) -> Route {
    if method == "OPTIONS"@ {
        Route::Options
    } else if starts_with(target, "/__staticdock/api/upload/"@) {
        if uploads_enabled {
            Route::Upload
        } else {
            Route::UploadsDisabled
        }
    } else if method != "GET"@ && method != "HEAD"@ {
        Route::MethodNotAllowed
    } else if starts_with(target, "/__staticdock/api/list"@) {
        Route::ApiList
    } else if starts_with(target, "/__staticdock/api/info"@) {
        Route::ApiInfo
    } else if starts_with(target, "/__staticdock/api/qr"@) {
        Route::ApiQr
    } else {
        Route::Static
    }
}

/// Where a request goes, from its (upper-case) method, its normalized target and
/// whether uploads are on: `OPTIONS` first, then the upload API for any method,
/// then `405` for methods other than `GET` and `HEAD`, then the list, info and
/// QR APIs by prefix, else static content.
pub fn route_request(method: &str, target: &str, uploads_enabled: bool) -> (r: Route)
    ensures
        r == route_spec(method@, target@, uploads_enabled),
{
    let m = chars_of(method);
    let t = chars_of(target);
    if chars_eq_str(&m, "OPTIONS") {
        Route::Options
    } else if starts_with_str(&t, "/__staticdock/api/upload/") {
        if uploads_enabled {
            Route::Upload
        } else {
            Route::UploadsDisabled
        }
    } else if !chars_eq_str(&m, "GET") && !chars_eq_str(&m, "HEAD") {
        Route::MethodNotAllowed
    } else if starts_with_str(&t, "/__staticdock/api/list") {
        Route::ApiList
    } else if starts_with_str(&t, "/__staticdock/api/info") {
        Route::ApiInfo
    } else if starts_with_str(&t, "/__staticdock/api/qr") {
        Route::ApiQr
    } else {
        Route::Static
    }
}

proof fn lemma_split_char_pieces(s: Seq<char>, c: char)
    ensures
        forall|i: int|
            0 <= i < split_char(s, c).len() ==> index_of(#[trigger] split_char(s, c)[i], c) is None,
    decreases s.len(),
{
    crate::text::lemma_split_char_nonempty(s, c);
    if s.len() == 0 {
        let e = Seq::<char>::empty();
        assert(split_char(s, c)[0] == e);
        crate::text::lemma_find_from_bounds(e, seq![c], 0);
    } else {
        let init = split_char(s.drop_last(), c);
        lemma_split_char_pieces(s.drop_last(), c);
        crate::text::lemma_split_char_nonempty(s.drop_last(), c);
        let r = split_char(s, c);
        assert forall|i: int| 0 <= i < r.len() implies index_of(#[trigger] r[i], c) is None by {
            if s.last() == c {
                if i < init.len() {
                    assert(r[i] == init[i]);
                } else {
                    let e = Seq::<char>::empty();
                    assert(r[i] == e);
                    crate::text::lemma_find_from_bounds(e, seq![c], 0);
                }
            } else if i < init.len() - 1 {
                assert(r[i] == init[i]);
            } else {
                let piece = init.last().push(s.last());
                assert(r[i] == piece);
                lemma_index_of_push(init.last(), s.last(), c);
            }
        }
    }
}

proof fn lemma_index_of_push(s: Seq<char>, x: char, c: char)
    requires
        index_of(s, c) is None,
        x != c,
    ensures
        index_of(s.push(x), c) is None,
{
    let t = s.push(x);
    crate::text::lemma_find_from_bounds(s, seq![c], 0);
    crate::text::lemma_find_from_bounds(t, seq![c], 0);
    if index_of(t, c) is Some {
        let k = index_of(t, c)->0;
        assert(crate::text::occurs_at(t, seq![c], k));
        assert(t.subrange(k, k + 1)[0] == t[k]);
        if k < s.len() {
            assert(s.subrange(k, k + 1) =~= t.subrange(k, k + 1));
            assert(crate::text::occurs_at(s, seq![c], k));
        }
    }
}

proof fn lemma_path_components_safe(parts: Seq<Seq<char>>)
    ensures
        path_components(parts) matches Some(cs) ==> forall|i: int|
            0 <= i < cs.len() ==> {
                &&& (#[trigger] cs[i]).len() > 0
                &&& cs[i] != "."@
                &&& cs[i] != ".."@
                &&& index_of(cs[i], '\0') is None
                &&& exists|j: int| 0 <= j < parts.len() && parts[j] == cs[i]
            },
    decreases parts.len(),
{
    if parts.len() > 0 {
        lemma_path_components_safe(parts.drop_first());
        if let Some(cs) = path_components(parts) {
            let c = parts[0];
            if c.len() == 0 || c == "."@ {
                assert forall|i: int| 0 <= i < cs.len() implies exists|j: int|
                    0 <= j < parts.len() && parts[j] == #[trigger] cs[i] by {
                    let j = choose|j: int|
                        0 <= j < parts.drop_first().len() && parts.drop_first()[j] == cs[i];
                    assert(parts[j + 1] == cs[i]);
                }
            } else {
                let rest = path_components(parts.drop_first())->0;
                assert(cs == seq![c] + rest);
                assert forall|i: int| 0 <= i < cs.len() implies exists|j: int|
                    0 <= j < parts.len() && parts[j] == #[trigger] cs[i] by {
                    if i == 0 {
                        assert(parts[0] == cs[0]);
                    } else {
                        assert(cs[i] == rest[i - 1]);
                        let j = choose|j: int|
                            0 <= j < parts.drop_first().len() && parts.drop_first()[j] == rest[i - 1];
                        assert(parts[j + 1] == cs[i]);
                    }
                }
                assert forall|i: int| 0 <= i < cs.len() implies (#[trigger] cs[i]).len() > 0 && cs[i]
                    != "."@ && cs[i] != ".."@ && index_of(cs[i], '\0') is None by {
                    if i > 0 {
                        assert(cs[i] == rest[i - 1]);
                    }
                }
            }
        }
    }
}

/// A request target never leads out of the root: when it names a path, that
/// path is the root extended by components none of which is empty, `.` or
/// `..`, or holds a slash or NUL.
pub proof fn law_resolved_path_stays_under_root(root: Seq<char>, target: Seq<char>)
    ensures
        resolve_request_path_spec(root, target) matches Some(p) ==> exists|cs: Seq<Seq<char>>|
            {
                &&& p == join_all(root, cs)
                &&& forall|i: int|
                    0 <= i < cs.len() ==> {
                        &&& (#[trigger] cs[i]).len() > 0
                        &&& cs[i] != "."@
                        &&& cs[i] != ".."@
                        &&& index_of(cs[i], '/') is None
                        &&& index_of(cs[i], '\0') is None
                    }
            },
{
    if let Some(pp) = request_path_part_spec(target) {
        let decoded = percent_decode_spec(trim_start_char(pp, '/'));
        let normalized = replace_all(decoded, "\\"@, "/"@);
        let parts = split_char(normalized, '/');
        lemma_path_components_safe(parts);
        lemma_split_char_pieces(normalized, '/');
        if let Some(cs) = path_components(parts) {
            assert forall|i: int| 0 <= i < cs.len() implies index_of(#[trigger] cs[i], '/') is None by {
                let j = choose|j: int| 0 <= j < parts.len() && parts[j] == cs[i];
                assert(index_of(parts[j], '/') is None);
            }
        }
    }
}

} // verus!
