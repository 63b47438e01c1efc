//! Escaping for JSON strings, HTML text and attributes, and single-quoted
//! JavaScript strings; the small JSON field reader that the upload API uses.
use vstd::prelude::*;
use crate::decimal::{hex_fixed, lemma_hex_fixed_digits};
use crate::decimal::push_hex;
use crate::text::{lemma_flat_map_chars_all, chars_of, string_of, flat_map_chars, replace_all, replace_exec, find, find_exec, index_of, index_of_exec, trim_start, trim_start_exec, slice_of, push_all};

verus! {

broadcast use vstd::string::group_string_axioms;

/// std's `char::is_control`: the general category `Cc`.
pub open spec fn is_control(c: char) -> bool {
    (c as u32) <= 0x1f || (0x7f <= (c as u32) && (c as u32) <= 0x9f)
}

/// How `json_escape` writes one character.
pub open spec fn json_escape_char(c: char) -> Seq<char> {
    if c == '\\' {
        seq!['\\', '\\']
    } else if c == '"' {
        seq!['\\', '"']
    } else if c == '\n' {
        seq!['\\', 'n']
    } else if c == '\r' {
        seq!['\\', 'r']
    } else if c == '\t' {
        seq!['\\', 't']
    } else if is_control(c) {
        seq!['\\', 'u'] + hex_fixed(c as nat, 4, false)
    } else {
        seq![c]
    }
}

/// The JSON string body for `s`.
pub open spec fn json_escape_spec(s: Seq<char>) -> Seq<char> {
    flat_map_chars(s, |c: char| json_escape_char(c))
}

/// How `html_escape` writes one character.
pub open spec fn html_escape_char(c: char) -> Seq<char> {
    if c == '&' {
        seq!['&', 'a', 'm', 'p', ';']
    } else if c == '<' {
        seq!['&', 'l', 't', ';']
    } else if c == '>' {
        seq!['&', 'g', 't', ';']
    } else if c == '"' {
        seq!['&', 'q', 'u', 'o', 't', ';']
    } else {
        seq![c]
    }
}

/// `s` with `&`, `<`, `>` and `"` written as HTML entities.
pub open spec fn html_escape_spec(s: Seq<char>) -> Seq<char> {
    flat_map_chars(s, |c: char| html_escape_char(c))
}

/// How `js_escape` writes one character.
pub open spec fn js_escape_char(c: char) -> Seq<char> {
    if c == '\\' {
        seq!['\\', '\\']
    } else if c == '\'' {
        seq!['\\', '\'']
    } else if c == '\n' {
        seq!['\\', 'n']
    } else if c == '\r' {
        Seq::empty()
    } else {
        seq![c]
    }
}

/// `s` made safe inside a single-quoted JavaScript string.
pub open spec fn js_escape_spec(s: Seq<char>) -> Seq<char> {
    flat_map_chars(s, |c: char| js_escape_char(c))
}

/// The replacements that `json_unescape` makes, one after the other.
pub open spec fn json_unescape_spec(s: Seq<char>) -> Seq<char> {
    let a = replace_all(s, seq!['\\', '"'], seq!['"']);
    let b = replace_all(a, seq!['\\', '\\'], seq!['\\']);
    let c = replace_all(b, seq!['\\', 'n'], seq!['\n']);
    let d = replace_all(c, seq!['\\', 'r'], Seq::empty());
    replace_all(d, seq!['\\', 't'], seq!['\t'])
}

/// The text after the first `"field"` in `json`, its colon and its opening quote.
pub open spec fn json_field_rest(json: Seq<char>, field: Seq<char>) -> Option<Seq<char>> {
    let pattern = seq!['"'] + field + seq!['"'];
    match find(json, pattern) {
        Some(idx) => {
            let r1 = trim_start(json.skip(idx + pattern.len()));
            if r1.len() > 0 && r1[0] == ':' {
                let r2 = trim_start(r1.drop_first());
                if r2.len() > 0 && r2[0] == '"' {
                    Some(r2.drop_first())
                } else {
                    None
                }
            } else {
                None
            }
        },
        None => None,
    }
}

/// The string value of the first `"field": "..."` in `json`, unescaped.
pub open spec fn json_field_spec(json: Seq<char>, field: Seq<char>) -> Option<Seq<char>> {
    match json_field_rest(json, field) {
        Some(rest) => match index_of(rest, '"') {
            Some(end) => Some(json_unescape_spec(rest.take(end))),
            None => None,
        },
        None => None,
    }
}

proof fn lemma_flat_map_step(s: Seq<char>, i: int, f: spec_fn(char) -> Seq<char>)
    requires
        0 <= i < s.len(),
    ensures
        flat_map_chars(s.take(i + 1), f) == flat_map_chars(s.take(i), f) + f(s[i]),
{
    assert(s.take(i + 1).drop_last() == s.take(i));
}

fn push_json_escaped_char(out: &mut Vec<char>, c: char)
    ensures
        final(out)@ == old(out)@ + json_escape_char(c),
{
    if c == '\\' {
        out.push('\\');
        out.push('\\');
    } else if c == '"' {
        out.push('\\');
        out.push('"');
    } else if c == '\n' {
        out.push('\\');
        out.push('n');
    } else if c == '\r' {
        out.push('\\');
        out.push('r');
    } else if c == '\t' {
        out.push('\\');
        out.push('t');
    } else if (c as u32) <= 0x1f || (0x7f <= (c as u32) && (c as u32) <= 0x9f) {
        out.push('\\');
        out.push('u');
        push_hex(out, c as u64, 4, false);
    } else {
        out.push(c);
    }
    assert(final(out)@ =~= old(out)@ + json_escape_char(c));
}

/// Escapes `input` for use inside a JSON string: backslash, quote, newline,
/// carriage return and tab by their short forms, other control characters as
/// `\u` and four lower-case hex digits.
pub fn json_escape(input: &str) -> (r: String)
    ensures
        r@ == json_escape_spec(input@),
{
    let s = chars_of(input);
    let mut out: Vec<char> = Vec::new();
    let mut i: usize = 0;
    while i < s.len()
        invariant
            i <= s.len(),
            out@ == json_escape_spec(s@.take(i as int)),
        decreases s.len() - i,
    {
        proof {
            lemma_flat_map_step(s@, i as int, |c: char| json_escape_char(c));
        }
        push_json_escaped_char(&mut out, s[i]);
        i += 1;
    }
    assert(s@.take(s.len() as int) == s@);
    string_of(&out)
}

/// The HTML-escaped form of `s`, as characters.
pub fn html_escape_chars(s: &Vec<char>) -> (out: Vec<char>)
    ensures
        out@ == html_escape_spec(s@),
{
    let mut out: Vec<char> = Vec::new();
    let mut i: usize = 0;
    while i < s.len()
        invariant
            i <= s.len(),
            out@ == html_escape_spec(s@.take(i as int)),
        decreases s.len() - i,
    {
        proof {
            lemma_flat_map_step(s@, i as int, |c: char| html_escape_char(c));
        }
        let c = s[i];
        let ghost before = out@;
        if c == '&' {
            out.push('&');
            out.push('a');
            out.push('m');
            out.push('p');
            out.push(';');
        } else if c == '<' {
            out.push('&');
            out.push('l');
            out.push('t');
            out.push(';');
        } else if c == '>' {
            out.push('&');
            out.push('g');
            out.push('t');
            out.push(';');
        } else if c == '"' {
            out.push('&');
            out.push('q');
            out.push('u');
            out.push('o');
            out.push('t');
            out.push(';');
        } else {
            out.push(c);
        }
        assert(out@ =~= before + html_escape_char(c));
        i += 1;
    }
    assert(s@.take(s.len() as int) == s@);
    out
}

/// Escapes `&`, `<`, `>` and `"` as HTML entities.
pub fn html_escape(input: &str) -> (r: String)
    ensures
        r@ == html_escape_spec(input@),
{
    let s = chars_of(input);
    let out = html_escape_chars(&s);
    string_of(&out)
}

/// The form of `s` that is safe inside a single-quoted JavaScript string, as characters.
pub fn js_escape_chars(s: &Vec<char>) -> (out: Vec<char>)
    ensures
        out@ == js_escape_spec(s@),
{
    let mut out: Vec<char> = Vec::new();
    let mut i: usize = 0;
    while i < s.len()
        invariant
            i <= s.len(),
            out@ == js_escape_spec(s@.take(i as int)),
        decreases s.len() - i,
    {
        proof {
            lemma_flat_map_step(s@, i as int, |c: char| js_escape_char(c));
        }
        let c = s[i];
        let ghost before = out@;
        if c == '\\' {
            out.push('\\');
            out.push('\\');
        } else if c == '\'' {
            out.push('\\');
            out.push('\'');
        } else if c == '\n' {
            out.push('\\');
            out.push('n');
        } else if c == '\r' {
        } else {
            out.push(c);
        }
        assert(out@ =~= before + js_escape_char(c));
        i += 1;
    }
    assert(s@.take(s.len() as int) == s@);
    out
}

/// Escapes backslash, single quote and newline, and drops carriage returns, for
/// use inside a single-quoted JavaScript string.
pub fn js_escape(input: &str) -> (r: String)
    ensures
        r@ == js_escape_spec(input@),
{
    let s = chars_of(input);
    let out = js_escape_chars(&s);
    string_of(&out)
}

fn one(a: char) -> (r: Vec<char>)
    ensures
        r@ == seq![a],
{
    let mut r: Vec<char> = Vec::new();
    r.push(a);
    assert(r@ =~= seq![a]);
    r
}

fn two(a: char, b: char) -> (r: Vec<char>)
    ensures
        r@ == seq![a, b],
{
    let mut r: Vec<char> = Vec::new();
    r.push(a);
    r.push(b);
    assert(r@ =~= seq![a, b]);
    r
}

/// The replacements of `json_unescape`, on characters.
pub fn json_unescape_chars(s: &Vec<char>) -> (r: Vec<char>)
    ensures
        r@ == json_unescape_spec(s@),
{
    let a = replace_exec(s, &two('\\', '"'), &one('"'));
    let b = replace_exec(&a, &two('\\', '\\'), &one('\\'));
    let c = replace_exec(&b, &two('\\', 'n'), &one('\n'));
    let d = replace_exec(&c, &two('\\', 'r'), &Vec::new());
    let e = replace_exec(&d, &two('\\', 't'), &one('\t'));
    assert(e@ =~= json_unescape_spec(s@));
    e
}

/// Undoes the escapes `\"`, `\\`, `\n`, `\r` (dropped) and `\t`, each over the
/// whole text in that order.
pub fn json_unescape(s: &str) -> (r: String)
    ensures
        r@ == json_unescape_spec(s@),
{
    let v = chars_of(s);
    let r = json_unescape_chars(&v);
    string_of(&r)
}

/// The string value of the first `"field"` key in `json`, unescaped.
pub fn json_field_chars(json: &Vec<char>, field: &Vec<char>) -> (r: Option<Vec<char>>)
    ensures
        r matches Some(v) ==> json_field_spec(json@, field@) == Some(v@),
        r is None ==> json_field_spec(json@, field@) is None,
{
    let mut pattern: Vec<char> = Vec::new();
    pattern.push('"');
    push_all(&mut pattern, field);
    pattern.push('"');
    assert(pattern@ =~= seq!['"'] + field@ + seq!['"']);
    let n = json.len();
    let found = find_exec(json, &pattern);
    let idx = match found {
        Some(k) => k,
        None => {
            return None;
        },
    };
    let after = slice_of(json, idx + pattern.len(), n);
    assert(after@ == json@.skip(idx + pattern@.len()));
    let r1 = trim_start_exec(&after);
    if !(r1.len() > 0 && r1[0] == ':') {
        return None;
    }
    let r1b = slice_of(&r1, 1, r1.len());
    assert(r1b@ == r1@.drop_first());
    let r2 = trim_start_exec(&r1b);
    if !(r2.len() > 0 && r2[0] == '"') {
        return None;
    }
    let rest = slice_of(&r2, 1, r2.len());
    assert(rest@ == r2@.drop_first());
    assert(json_field_rest(json@, field@) == Some(rest@));
    let end_found = index_of_exec(&rest, '"');
    match end_found {
        Some(end) => {
            let value = slice_of(&rest, 0, end);
            assert(value@ == rest@.take(end as int));
            Some(json_unescape_chars(&value))
        },
        None => None,
    }
}

/// The string value of the first `"field": "..."` in `json`, unescaped: the
/// key's first occurrence, optional whitespace, a colon, optional whitespace,
/// then the text up to the next quote.
pub fn json_field(json: &str, field: &str) -> (r: Option<String>)
    ensures
        r matches Some(v) ==> json_field_spec(json@, field@) == Some(v@),
        r is None ==> json_field_spec(json@, field@) is None,
{
    let j = chars_of(json);
    let f = chars_of(field);
    match json_field_chars(&j, &f) {
        Some(v) => Some(string_of(&v)),
        None => None,
    }
}

/// HTML-escaped text holds no `<`, `>` or `"`, so it cannot open or close a
/// tag or an attribute value.
pub proof fn law_html_escape_inert(s: Seq<char>)
    ensures
        forall|i: int|
            0 <= i < html_escape_spec(s).len() ==> {
                let c = #[trigger] html_escape_spec(s)[i];
                c != '<' && c != '>' && c != '"'
            },
{
    let f = |c: char| html_escape_char(c);
    let p = |c: char| c != '<' && c != '>' && c != '"';
    assert forall|c: char, j: int| 0 <= j < f(c).len() implies p(#[trigger] f(c)[j]) by {}
    lemma_flat_map_chars_all(s, f, p);
}

/// JavaScript-escaped text holds no line break, so it stays on one line of a
/// string literal.
pub proof fn law_js_escape_one_line(s: Seq<char>)
    ensures
        forall|i: int|
            0 <= i < js_escape_spec(s).len() ==> {
                let c = #[trigger] js_escape_spec(s)[i];
                c != '\n' && c != '\r'
            },
{
    let f = |c: char| js_escape_char(c);
    let p = |c: char| c != '\n' && c != '\r';
    assert forall|c: char, j: int| 0 <= j < f(c).len() implies p(#[trigger] f(c)[j]) by {}
    lemma_flat_map_chars_all(s, f, p);
}

/// JSON-escaped text holds no control character.
pub proof fn law_json_escape_no_control(s: Seq<char>)
    ensures
        forall|i: int| 0 <= i < json_escape_spec(s).len() ==> !is_control(#[trigger] json_escape_spec(s)[i]),
{
    let f = |c: char| json_escape_char(c);
    let p = |c: char| !is_control(c);
    assert forall|c: char, j: int| 0 <= j < f(c).len() implies p(#[trigger] f(c)[j]) by {
        if is_control(c) && c != '\n' && c != '\r' && c != '\t' {
            lemma_hex_fixed_digits(c as nat, 4, false);
            if j >= 2 {
                assert(f(c)[j] == hex_fixed(c as nat, 4, false)[j - 2]);
            }
        }
    }
    lemma_flat_map_chars_all(s, f, p);
}

/// The text that undoing the entities of `html_escape` gives: `&lt;`, `&gt;`,
/// `&quot;` and then `&amp;` replaced, each over the whole text in turn, by the
/// characters they stand for.
pub open spec fn html_unescape_spec(t: Seq<char>) -> Seq<char> {
    let a = replace_all(t, seq!['&', 'l', 't', ';'], seq!['<']);
    let b = replace_all(a, seq!['&', 'g', 't', ';'], seq!['>']);
    let c = replace_all(b, seq!['&', 'q', 'u', 'o', 't', ';'], seq!['"']);
    replace_all(c, seq!['&', 'a', 'm', 'p', ';'], seq!['&'])
}

proof fn lemma_flat_map_front(s: Seq<char>, f: spec_fn(char) -> Seq<char>)
    requires
        s.len() > 0,
    ensures
        flat_map_chars(s, f) == f(s[0]) + flat_map_chars(s.drop_first(), f),
    decreases s.len(),
{
    if s.len() == 1 {
        assert(s.drop_last() =~= Seq::<char>::empty());
        assert(s.drop_first() =~= Seq::<char>::empty());
        assert(flat_map_chars(s, f) =~= f(s[0]) + flat_map_chars(s.drop_first(), f));
    } else {
        lemma_flat_map_front(s.drop_last(), f);
        assert(s.drop_last().drop_first() =~= s.drop_first().drop_last());
        assert(s.drop_first().last() == s.last());
        assert(s.drop_last()[0] == s[0]);
        assert(flat_map_chars(s, f) =~= f(s[0]) + flat_map_chars(s.drop_first(), f));
    }
}

proof fn lemma_replace_plain(y: Seq<char>, t: Seq<char>, p: Seq<char>, r: Seq<char>)
    requires
        p.len() > 0,
        forall|i: int| 0 <= i < y.len() ==> y[i] != p[0],
    ensures
        replace_all(y + t, p, r) == y + replace_all(t, p, r),
    decreases y.len(),
{
    let s = y + t;
    if y.len() == 0 {
        assert(s =~= t);
    } else {
        if s.len() < p.len() {
            assert(replace_all(t, p, r) == t);
            assert(replace_all(s, p, r) == s);
        } else {
            assert(s.take(p.len() as int)[0] == y[0]);
            assert(s.take(p.len() as int) != p);
            assert(s.drop_first() =~= y.drop_first() + t);
            lemma_replace_plain(y.drop_first(), t, p, r);
            assert(seq![y[0]] + y.drop_first() =~= y);
        }
    }
}

/// A piece of escaped text that replacing `p` handles as a whole: only its
/// first character may start `p`, and when it does, the piece is `p` or
/// parts from `p` at its second character.
pub open spec fn whole_piece(x: Seq<char>, p: Seq<char>) -> bool {
    &&& x.len() > 0
    &&& forall|i: int| 1 <= i < x.len() ==> x[i] != p[0]
    &&& (x == p || x[0] != p[0] || (x.len() >= 2 && p.len() >= 2 && x[1] != p[1]))
}

proof fn lemma_replace_piece(x: Seq<char>, t: Seq<char>, p: Seq<char>, r: Seq<char>)
    requires
        p.len() > 0,
        whole_piece(x, p),
    ensures
        replace_all(x + t, p, r) == (if x == p {
            r
        } else {
            x
        }) + replace_all(t, p, r),
{
    let s = x + t;
    if x == p {
        assert(s.take(p.len() as int) =~= p);
        assert(s.skip(p.len() as int) =~= t);
    } else if x[0] != p[0] {
        lemma_replace_plain(x, t, p, r);
    } else if s.len() < p.len() {
        assert(replace_all(t, p, r) == t);
    } else {
        assert(s.take(p.len() as int)[1] == x[1]);
        assert(s.take(p.len() as int) != p);
        assert(s.drop_first() =~= x.drop_first() + t);
        lemma_replace_plain(x.drop_first(), t, p, r);
        assert(seq![x[0]] + x.drop_first() =~= x);
    }
}

proof fn lemma_replace_pieces(
    s: Seq<char>,
    f: spec_fn(char) -> Seq<char>,
    g: spec_fn(char) -> Seq<char>,
    p: Seq<char>,
    r: Seq<char>,
)
    requires
        p.len() > 0,
        forall|c: char| #[trigger] whole_piece(f(c), p),
        forall|c: char| #[trigger] g(c) == if f(c) == p {
            r
        } else {
            f(c)
        },
    ensures
        replace_all(flat_map_chars(s, f), p, r) == flat_map_chars(s, g),
    decreases s.len(),
{
    if s.len() == 0 {
        assert(replace_all(Seq::<char>::empty(), p, r) == Seq::<char>::empty());
    } else {
        lemma_flat_map_front(s, f);
        lemma_flat_map_front(s, g);
        assert(whole_piece(f(s[0]), p));
        lemma_replace_piece(f(s[0]), flat_map_chars(s.drop_first(), f), p, r);
        lemma_replace_pieces(s.drop_first(), f, g, p, r);
        assert(g(s[0]) == if f(s[0]) == p {
            r
        } else {
            f(s[0])
        });
    }
}

proof fn lemma_flat_map_identity(s: Seq<char>)
    ensures
        flat_map_chars(s, |c: char| seq![c]) == s,
    decreases s.len(),
{
    if s.len() > 0 {
        lemma_flat_map_identity(s.drop_last());
        assert(s.drop_last().push(s.last()) =~= s);
        assert(s.drop_last() + seq![s.last()] =~= s);
    }
}

/// Undoing the entities of HTML-escaped text gives the text back.
pub proof fn law_html_escape_undone(s: Seq<char>)
    ensures
        html_unescape_spec(html_escape_spec(s)) == s,
{
    let lt = seq!['&', 'l', 't', ';'];
    let gt = seq!['&', 'g', 't', ';'];
    let quot = seq!['&', 'q', 'u', 'o', 't', ';'];
    let amp = seq!['&', 'a', 'm', 'p', ';'];
    let f0 = |c: char| html_escape_char(c);
    let f1 = |c: char| if c == '<' {
        seq![c]
    } else {
        html_escape_char(c)
    };
    let f2 = |c: char| if c == '<' || c == '>' {
        seq![c]
    } else {
        html_escape_char(c)
    };
    let f3 = |c: char| if c == '<' || c == '>' || c == '"' {
        seq![c]
    } else {
        html_escape_char(c)
    };
    let f4 = |c: char| seq![c];
    assert(lt[0] == '&' && lt[1] == 'l');
    assert(gt[0] == '&' && gt[1] == 'g');
    assert(quot[0] == '&' && quot[1] == 'q');
    assert(amp[0] == '&' && amp[1] == 'a');
    assert forall|c: char| #[trigger] whole_piece(f0(c), lt) by {
        assert(f0(c).len() > 0);
    }
    assert forall|c: char| #[trigger] f1(c) == if f0(c) == lt {
        seq!['<']
    } else {
        f0(c)
    } by {
        if c == '<' {
            assert(f0(c) =~= lt);
        } else if c == '>' || c == '"' || c == '&' {
            assert(f0(c)[1] != lt[1]);
        }
    }
    lemma_replace_pieces(s, f0, f1, lt, seq!['<']);
    assert forall|c: char| #[trigger] whole_piece(f1(c), gt) by {
        assert(f1(c).len() > 0);
    }
    assert forall|c: char| #[trigger] f2(c) == if f1(c) == gt {
        seq!['>']
    } else {
        f1(c)
    } by {
        if c == '>' {
            assert(f1(c) =~= gt);
        } else if c == '"' || c == '&' {
            assert(f1(c)[1] != gt[1]);
        }
    }
    lemma_replace_pieces(s, f1, f2, gt, seq!['>']);
    assert forall|c: char| #[trigger] whole_piece(f2(c), quot) by {
        assert(f2(c).len() > 0);
    }
    assert forall|c: char| #[trigger] f3(c) == if f2(c) == quot {
        seq!['"']
    } else {
        f2(c)
    } by {
        if c == '"' {
            assert(f2(c) =~= quot);
        } else if c == '&' {
            assert(f2(c)[1] != quot[1]);
        }
    }
    lemma_replace_pieces(s, f2, f3, quot, seq!['"']);
    assert forall|c: char| #[trigger] whole_piece(f3(c), amp) by {
        assert(f3(c).len() > 0);
    }
    assert forall|c: char| #[trigger] f4(c) == if f3(c) == amp {
        seq!['&']
    } else {
        f3(c)
    } by {
        if c == '&' {
            assert(f3(c) =~= amp);
        }
    }
    lemma_replace_pieces(s, f3, f4, amp, seq!['&']);
    lemma_flat_map_identity(s);
    assert(html_escape_spec(s) == flat_map_chars(s, f0));
}

} // verus!
