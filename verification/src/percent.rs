//! Percent-encoding of names in links, and the decoding of request paths and
//! query strings.
use vstd::prelude::*;
use vstd::utf8::valid_utf8;
use vstd::utf8::decode_utf8;
use vstd::utf8::encode_utf8;
use crate::decimal::hex_digit;
use crate::text::chars_of;
use crate::text::string_of;
use crate::text::replace_all;
use crate::text::replace_exec;

verus! {

broadcast use vstd::string::group_string_axioms;

/// What std's `String::from_utf8_lossy` makes of bytes that are not valid UTF-8
/// (each maximal ill-formed subsequence replaced by U+FFFD).
pub uninterp spec fn utf8_lossy(bytes: Seq<u8>) -> Seq<char>;

/// The text that std's `String::from_utf8_lossy` gives for `bytes`: their
/// decoding when they are valid UTF-8.
pub open spec fn lossy_text(bytes: Seq<u8>) -> Seq<char> {
    if valid_utf8(bytes) {
        decode_utf8(bytes)
    } else {
        utf8_lossy(bytes)
    }
}

/// Calls std's `String::from_utf8_lossy` and makes the text owned. Claimed:
/// valid UTF-8 is decoded as is; for other bytes the text is `utf8_lossy` of
/// them, the same for the same bytes. How ill-formed sequences are replaced is
/// not stated.
#[verifier::external_body]
pub(crate) fn string_from_utf8_lossy(bytes: &[u8]) -> (s: String)
    ensures
        s@ == (if valid_utf8(bytes@) {
            decode_utf8(bytes@)
        } else {
            utf8_lossy(bytes@)
        }),
{
    String::from_utf8_lossy(bytes).into_owned()
}

/// The value of an ASCII hexadecimal digit.
pub open spec fn hex_value_spec(b: u8) -> Option<u8> {
    if 48 <= b <= 57 {
        Some((b - 48) as u8)
    } else if 97 <= b <= 102 {
        Some((b - 97 + 10) as u8)
    } else if 65 <= b <= 70 {
        Some((b - 65 + 10) as u8)
    } else {
        None
    }
}

/// The value of an ASCII hexadecimal digit, either case.
pub fn hex_value(byte: u8) -> (r: Option<u8>)
    ensures
        r == hex_value_spec(byte),
{
    if 48 <= byte && byte <= 57 {
        Some(byte - 48)
    } else if 97 <= byte && byte <= 102 {
        Some(byte - 97 + 10)
    } else if 65 <= byte && byte <= 70 {
        Some(byte - 65 + 10)
    } else {
        None
    }
}

/// Bytes with every `%` followed by two hex digits replaced by the byte they
/// denote; any other byte, a lone `%` among them, is kept.
pub open spec fn percent_decode_bytes(b: Seq<u8>) -> Seq<u8>
    decreases b.len(),
{
    if b.len() == 0 {
        Seq::empty()
    } else if b[0] == 37 && b.len() > 2 && hex_value_spec(b[1]) is Some && hex_value_spec(b[2]) is Some {
        seq![(hex_value_spec(b[1])->0 * 16 + hex_value_spec(b[2])->0) as u8] + percent_decode_bytes(b.skip(3))
    } else {
        seq![b[0]] + percent_decode_bytes(b.drop_first())
    }
}

/// The text that `percent_decode` gives for `s`.
pub open spec fn percent_decode_spec(s: Seq<char>) -> Seq<char> {
    lossy_text(percent_decode_bytes(encode_utf8(s)))
}

/// The text that `query_percent_decode` gives for `s`: `+` read as a space.
pub open spec fn query_percent_decode_spec(s: Seq<char>) -> Seq<char> {
    percent_decode_spec(replace_all(s, seq!['+'], seq![' ']))
}

/// The bytes that `percent_encode` keeps as they are.
pub open spec fn is_unreserved(b: u8) -> bool {
    (48 <= b <= 57) || (65 <= b <= 90) || (97 <= b <= 122) || b == 45 || b == 95 || b == 46 || b
        == 126
}

/// How `percent_encode` writes one byte.
pub open spec fn percent_encode_byte(b: u8) -> Seq<char> {
    if is_unreserved(b) {
        seq![b as char]
    } else {
        seq!['%', hex_digit((b / 16) as nat, true), hex_digit((b % 16) as nat, true)]
    }
}

/// The percent-encoding of bytes.
pub open spec fn percent_encode_bytes(b: Seq<u8>) -> Seq<char>
    decreases b.len(),
{
    if b.len() == 0 {
        Seq::empty()
    } else {
        percent_encode_byte(b[0]) + percent_encode_bytes(b.drop_first())
    }
}

/// The text that `percent_encode` gives for `s`.
pub open spec fn percent_encode_spec(s: Seq<char>) -> Seq<char> {
    percent_encode_bytes(encode_utf8(s))
}

proof fn lemma_pdb_step(b: Seq<u8>, i: int)
    requires
        0 <= i < b.len(),
    ensures
        ({
            let t = b.skip(i);
            &&& t.skip(3) == b.skip(i + 3) || !(t.len() > 2)
            &&& t.drop_first() == b.skip(i + 1)
            &&& t[0] == b[i]
            &&& (t.len() > 2 ==> t[1] == b[i + 1] && t[2] == b[i + 2])
        }),
{
    let t = b.skip(i);
    if t.len() > 2 {
        assert(t.skip(3) =~= b.skip(i + 3));
    }
    assert(t.drop_first() =~= b.skip(i + 1));
}

/// Decodes `%XX` escapes (any case of hex digit) in the UTF-8 bytes of `input`
/// and reads the result as UTF-8, replacing ill-formed sequences.
pub fn percent_decode(input: &str) -> (r: String)
    ensures
        r@ == percent_decode_spec(input@),
{
    let bytes = input.as_bytes();
    let mut output: Vec<u8> = Vec::new();
    let mut i: usize = 0;
    assert(bytes@.skip(0) == bytes@);
    while i < bytes.len()
        invariant
            i <= bytes@.len(),
            output@ + percent_decode_bytes(bytes@.skip(i as int)) == percent_decode_bytes(bytes@),
        decreases bytes.len() - i,
    {
        proof {
            lemma_pdb_step(bytes@, i as int);
        }
        if bytes[i] == 37 && bytes.len() - i > 2 {
            let high = hex_value(bytes[i + 1]);
            let low = hex_value(bytes[i + 2]);
            if high.is_some() && low.is_some() {
                let h = high.unwrap();
                let l = low.unwrap();
                let v: u8 = h * 16 + l;
                let ghost before = output@;
                output.push(v);
                assert(output@ == before + seq![v]);
                i += 3;
                continue;
            }
        }
        let ghost before = output@;
        output.push(bytes[i]);
        assert(output@ == before + seq![bytes@[i as int]]);
        i += 1;
    }
    assert(bytes@.skip(i as int) == Seq::<u8>::empty());
    assert(output@ == percent_decode_bytes(bytes@));
    string_from_utf8_lossy(output.as_slice())
}

/// `percent_decode` after reading every `+` as a space (form encoding).
pub fn query_percent_decode(input: &str) -> (r: String)
    ensures
        r@ == query_percent_decode_spec(input@),
{
    let s = chars_of(input);
    let mut p: Vec<char> = Vec::new();
    p.push('+');
    let mut q: Vec<char> = Vec::new();
    q.push(' ');
    assert(p@ =~= seq!['+']);
    assert(q@ =~= seq![' ']);
    let replaced = replace_exec(&s, &p, &q);
    let text = string_of(&replaced);
    percent_decode(text.as_str())
}

fn hex_digit_upper(n: u8) -> (c: char)
    requires
        n < 16,
    ensures
        c == hex_digit(n as nat, true),
{
    if n < 10 {
        (48u8 + n) as char
    } else {
        (55u8 + n) as char
    }
}

/// Keeps ASCII letters, digits and `-`, `_`, `.`, `~`; writes every other byte
/// of the UTF-8 form of `input` as `%` and two upper-case hex digits.
pub fn percent_encode(input: &str) -> (r: String)
    ensures
        r@ == percent_encode_spec(input@),
{
    let bytes = input.as_bytes();
    let mut out: Vec<char> = Vec::new();
    let mut i: usize = 0;
    assert(bytes@.skip(0) == bytes@);
    while i < bytes.len()
        invariant
            i <= bytes@.len(),
            out@ + percent_encode_bytes(bytes@.skip(i as int)) == percent_encode_bytes(bytes@),
        decreases bytes.len() - i,
    {
        let b = bytes[i];
        assert(bytes@.skip(i as int).drop_first() =~= bytes@.skip(i + 1));
        let ghost before = out@;
        if (48 <= b && b <= 57) || (65 <= b && b <= 90) || (97 <= b && b <= 122) || b == 45 || b
            == 95 || b == 46 || b == 126 {
            out.push(b as char);
        } else {
            out.push('%');
            out.push(hex_digit_upper(b / 16));
            out.push(hex_digit_upper(b % 16));
        }
        assert(out@ =~= before + percent_encode_byte(b));
        i += 1;
    }
    assert(bytes@.skip(i as int) == Seq::<u8>::empty());
    string_of(&out)
}

/// The ASCII bytes of an ASCII character sequence.
pub open spec fn ascii_bytes(cs: Seq<char>) -> Seq<u8> {
    cs.map_values(|c: char| c as u8)
}

proof fn lemma_encode_byte_ascii(b: u8)
    ensures
        vstd::utf8::is_ascii_chars(percent_encode_byte(b)),
        percent_encode_byte(b).len() >= 1,
        percent_decode_bytes(ascii_bytes(percent_encode_byte(b))) == seq![b],
{
    let e = percent_encode_byte(b);
    if is_unreserved(b) {
        assert(ascii_bytes(e) =~= seq![b]);
        assert(seq![b].drop_first() =~= Seq::<u8>::empty());
        assert(percent_decode_bytes(Seq::<u8>::empty()) == Seq::<u8>::empty());
    } else {
        let hi = (b / 16) as u8;
        let lo = (b % 16) as u8;
        let h = if hi < 10 { (48 + hi) as u8 } else { (55 + hi) as u8 };
        let l = if lo < 10 { (48 + lo) as u8 } else { (55 + lo) as u8 };
        assert(ascii_bytes(e) =~= seq![37u8, h, l]);
        assert(hex_value_spec(h) == Some(hi));
        assert(hex_value_spec(l) == Some(lo));
        assert(seq![37u8, h, l].skip(3) =~= Seq::<u8>::empty());
        assert(percent_decode_bytes(Seq::<u8>::empty()) == Seq::<u8>::empty());
        assert((hi * 16 + lo) as u8 == b);
    }
}

proof fn lemma_encode_bytes_ascii(b: Seq<u8>)
    ensures
        vstd::utf8::is_ascii_chars(percent_encode_bytes(b)),
        percent_decode_bytes(ascii_bytes(percent_encode_bytes(b))) == b,
    decreases b.len(),
{
    if b.len() == 0 {
        assert(ascii_bytes(Seq::<char>::empty()) =~= Seq::<u8>::empty());
    } else {
        let head = percent_encode_byte(b[0]);
        let tail = percent_encode_bytes(b.drop_first());
        lemma_encode_byte_ascii(b[0]);
        lemma_encode_bytes_ascii(b.drop_first());
        let all = percent_encode_bytes(b);
        assert(all == head + tail);
        assert(vstd::utf8::is_ascii_chars(all)) by {
            assert forall|i: int| 0 <= i < all.len() implies '\0' <= #[trigger] all[i] <= '\u{7f}' by {
                if i < head.len() {
                    assert(all[i] == head[i]);
                } else {
                    assert(all[i] == tail[i - head.len()]);
                }
            }
        }
        let hb = ascii_bytes(head);
        let tb = ascii_bytes(tail);
        assert(ascii_bytes(all) =~= hb + tb);
        if is_unreserved(b[0]) {
            assert(hb =~= seq![b[0]]);
            assert((hb + tb).drop_first() =~= tb);
        } else {
            assert(hb.len() == 3);
            assert((hb + tb).skip(3) =~= tb);
            assert((hb + tb)[0] == hb[0]);
            assert((hb + tb)[1] == hb[1]);
            assert((hb + tb)[2] == hb[2]);
            assert(hb.skip(3) =~= Seq::<u8>::empty());
        }
        assert(seq![b[0]] + b.drop_first() =~= b);
    }
}

/// Decoding what `percent_encode` wrote gives back the text it was given: a link
/// that a listing writes for a name leads back to that name.
pub proof fn law_percent_decode_inverts_encode(s: Seq<char>)
    ensures
        percent_decode_spec(percent_encode_spec(s)) == s,
{
    let b = encode_utf8(s);
    let e = percent_encode_bytes(b);
    lemma_encode_bytes_ascii(b);
    vstd::utf8::is_ascii_chars_encode_utf8(e);
    assert(encode_utf8(e) =~= ascii_bytes(e));
    vstd::utf8::encode_utf8_valid_utf8(s);
    vstd::utf8::encode_utf8_decode_utf8(s);
}

} // verus!
