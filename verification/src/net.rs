//! IPv4 address classes, and the LAN addresses read from the output of
//! `ipconfig` or from `ip|alias` lines.
use vstd::prelude::*;
use crate::text::{chars_of, string_of, views, split_char, split_char_exec, trim, trim_exec,
    starts_with, starts_with_str, ends_with, contains, contains_str, split_once_char,
    split_once_char_exec, lines_spec, lines_exec, slice_of, copy, chars_eq, words, words_exec};
use crate::decimal::{parse_unsigned, parse_unsigned_exec};
use crate::percent::{lossy_text, string_from_utf8_lossy};
use crate::range::pairs_view;
use crate::sorting::{stable_sort, insert_pos, chars_lt, chars_lt_exec,
    lemma_insert_pos_bounds, strict_order, sorted_by, law_stable_sort_sorted_permutation,
    law_chars_lt_strict_order};

verus! {

broadcast use vstd::string::group_string_axioms;

/// The pieces that read as a `u8`, in order (the others are dropped).
pub open spec fn u8_parts(pieces: Seq<Seq<char>>) -> Seq<u8>
    decreases pieces.len(),
{
    if pieces.len() == 0 {
        Seq::empty()
    } else {
        let rest = u8_parts(pieces.drop_last());
        match parse_unsigned(pieces.last(), 255) {
            Some(v) => rest.push(v as u8),
            None => rest,
        }
    }
}

/// The numbers between the dots of `ip`, dropping pieces that are not a `u8`.
pub open spec fn octets(ip: Seq<char>) -> Seq<u8> {
    u8_parts(split_char(ip, '.'))
}

/// Whether `ip` is not a usable LAN address: not four numbers, or "this
/// network", loopback, link-local, benchmarking (198.18/15), or multicast and
/// above.
pub open spec fn is_special_ipv4_spec(ip: Seq<char>) -> bool {
    let p = octets(ip);
    p.len() != 4 || p[0] == 0 || p[0] == 127 || (p[0] == 169 && p[1] == 254) || (p[0] == 198 && (
    p[1] == 18 || p[1] == 19)) || p[0] >= 224
}

/// Whether `ip` is in a private range: 10/8, 172.16/12 or 192.168/16.
pub open spec fn is_private_ipv4_spec(ip: Seq<char>) -> bool {
    let p = octets(ip);
    p.len() == 4 && (p[0] == 10 || (p[0] == 172 && 16 <= p[1] <= 31) || (p[0] == 192 && p[1]
        == 168))
}

fn octets_exec(ip: &Vec<char>) -> (r: Vec<u8>)
    ensures
        r@ == octets(ip@),
{
    let pieces = split_char_exec(ip, '.');
    let ghost ps = views(pieces@);
    let mut r: Vec<u8> = Vec::new();
    let mut i: usize = 0;
    assert(ps.take(0) =~= Seq::<Seq<char>>::empty());
    while i < pieces.len()
        invariant
            i <= pieces.len(),
            ps == views(pieces@),
            r@ == u8_parts(ps.take(i as int)),
        decreases pieces.len() - i,
    {
        assert(ps.take(i + 1).drop_last() =~= ps.take(i as int));
        assert(ps.take(i + 1).last() == ps[i as int]);
        match parse_unsigned_exec(&pieces[i], 255) {
            Some(v) => r.push(v as u8),
            None => {},
        }
        i += 1;
    }
    assert(ps.take(pieces.len() as int) =~= ps);
    r
}

/// Whether `ip` is not a usable LAN address (see `is_special_ipv4_spec`).
pub fn is_special_ipv4(ip: &str) -> (r: bool)
    ensures
        r == is_special_ipv4_spec(ip@),
{
    let v = chars_of(ip);
    is_special_chars(&v)
}

fn is_special_chars(ip: &Vec<char>) -> (r: bool)
    ensures
        r == is_special_ipv4_spec(ip@),
{
    let p = octets_exec(ip);
    if p.len() != 4 {
        return true;
    }
    let a = p[0];
    let b = p[1];
    a == 0 || a == 127 || (a == 169 && b == 254) || (a == 198 && (b == 18 || b == 19)) || a >= 224
}

fn is_private_chars(ip: &Vec<char>) -> (r: bool)
    ensures
        r == is_private_ipv4_spec(ip@),
{
    let p = octets_exec(ip);
    if p.len() != 4 {
        return false;
    }
    let a = p[0];
    let b = p[1];
    a == 10 || (a == 172 && 16 <= b && b <= 31) || (a == 192 && b == 168)
}

/// Whether `ip` is in a private range (10/8, 172.16/12, 192.168/16).
pub fn is_private_ipv4(ip: &str) -> (r: bool)
    ensures
        r == is_private_ipv4_spec(ip@),
{
    let v = chars_of(ip);
    is_private_chars(&v)
}

/// An address found by the LAN scan, with the name of its adapter.
pub type LanEntry = (Seq<char>, Seq<char>);

/// Whether one of `results` has address `ip`.
pub open spec fn has_ip(results: Seq<LanEntry>, ip: Seq<char>) -> bool {
    exists|k: int| 0 <= k < results.len() && (#[trigger] results[k]).0 == ip
}

/// One line of `ipconfig` output: a blank line ends the adapter; a line ending
/// in `:` that mentions `adapter` or `Adapter` starts one; an `IPv4 Address`
/// line adds the text after its last `:`, if usable and new.
pub open spec fn ipconfig_step(st: (Seq<char>, Seq<LanEntry>), line: Seq<char>) -> (Seq<char>, Seq<LanEntry>) {
    let (adapter, results) = st;
    let t = trim(line);
    if t.len() == 0 {
        (Seq::empty(), results)
    } else if ends_with(t, seq![':']) && (contains(t.drop_last(), "adapter"@) || contains(
        t.drop_last(),
        "Adapter"@,
    )) {
        (t.drop_last(), results)
    } else if starts_with(t, "IPv4 Address"@) || starts_with(t, "ipv4 address"@) {
        let ip = trim(split_char(t, ':').last());
        if ip.len() > 0 && !is_special_ipv4_spec(ip) && !has_ip(results, ip) {
            let alias = if adapter.len() == 0 {
                "network"@
            } else {
                adapter
            };
            (adapter, results.push((ip, alias)))
        } else {
            (adapter, results)
        }
    } else {
        (adapter, results)
    }
}

/// The state after reading `lines` of `ipconfig` output.
pub open spec fn ipconfig_fold(lines: Seq<Seq<char>>) -> (Seq<char>, Seq<LanEntry>)
    decreases lines.len(),
{
    if lines.len() == 0 {
        (Seq::empty(), Seq::empty())
    } else {
        ipconfig_step(ipconfig_fold(lines.drop_last()), lines.last())
    }
}

/// Whether LAN entry `a` is listed before `b`: private addresses first, then by
/// adapter name.
pub open spec fn lan_lt(a: LanEntry, b: LanEntry) -> bool {
    (is_private_ipv4_spec(a.0) && !is_private_ipv4_spec(b.0)) || (is_private_ipv4_spec(a.0)
        == is_private_ipv4_spec(b.0) && chars_lt(a.1, b.1))
}

/// The order of LAN entries.
pub open spec fn lan_order() -> spec_fn(LanEntry, LanEntry) -> bool {
    |a: LanEntry, b: LanEntry| lan_lt(a, b)
}

/// The LAN addresses found in `ipconfig` output.
pub open spec fn parse_ipconfig_spec(bytes: Option<Seq<u8>>) -> Seq<LanEntry> {
    match bytes {
        Some(b) => stable_sort(ipconfig_fold(lines_spec(lossy_text(b))).1, lan_order()),
        None => Seq::empty(),
    }
}

fn lan_lt_exec(a: &(Vec<char>, Vec<char>), b: &(Vec<char>, Vec<char>)) -> (r: bool)
    ensures
        r == lan_lt((a.0@, a.1@), (b.0@, b.1@)),
{
    let pa = is_private_chars(&a.0);
    let pb = is_private_chars(&b.0);
    (pa && !pb) || (pa == pb && chars_lt_exec(&a.1, &b.1))
}

/// The views of a list of character-vector pairs.
pub open spec fn entry_views(v: Seq<(Vec<char>, Vec<char>)>) -> Seq<LanEntry> {
    v.map_values(|p: (Vec<char>, Vec<char>)| (p.0@, p.1@))
}

fn sort_lan_entries(input: &Vec<(Vec<char>, Vec<char>)>) -> (r: Vec<(Vec<char>, Vec<char>)>)
    ensures
        entry_views(r@) == stable_sort(entry_views(input@), lan_order()),
{
    let ghost ins = entry_views(input@);
    let mut out: Vec<(Vec<char>, Vec<char>)> = Vec::new();
    let mut i: usize = 0;
    assert(ins.take(0) =~= Seq::<LanEntry>::empty());
    while i < input.len()
        invariant
            i <= input.len(),
            ins == entry_views(input@),
            entry_views(out@) == stable_sort(ins.take(i as int), lan_order()),
        decreases input.len() - i,
    {
        let x = &input[i];
        let ghost xs = (x.0@, x.1@);
        assert(ins[i as int] == xs);
        let ghost sorted = entry_views(out@);
        let mut p: usize = 0;
        while p < out.len() && !lan_lt_exec(x, &out[p])
            invariant
                p <= out.len(),
                sorted == entry_views(out@),
                xs == (x.0@, x.1@),
                insert_pos(sorted, xs, lan_order(), 0) == insert_pos(sorted, xs, lan_order(), p as int),
            decreases out.len() - p,
        {
            assert(sorted[p as int] == (out@[p as int].0@, out@[p as int].1@));
            assert(!(lan_order())(xs, sorted[p as int]));
            p += 1;
        }
        proof {
            if p < out.len() {
                assert(sorted[p as int] == (out@[p as int].0@, out@[p as int].1@));
            }
        }
        let item = (copy(&x.0), copy(&x.1));
        out.insert(p, item);
        proof {
            assert(ins.take(i + 1).drop_last() =~= ins.take(i as int));
            assert(ins.take(i + 1).last() == xs);
            assert(entry_views(out@) =~= sorted.take(p as int).push(xs) + sorted.skip(p as int));
        }
        i += 1;
    }
    assert(ins.take(input.len() as int) =~= ins);
    out
}

fn entries_to_strings(v: &Vec<(Vec<char>, Vec<char>)>) -> (r: Vec<(String, String)>)
    ensures
        pairs_view(r@) == entry_views(v@),
{
    let mut r: Vec<(String, String)> = Vec::new();
    let mut i: usize = 0;
    while i < v.len()
        invariant
            i <= v.len(),
            pairs_view(r@) == entry_views(v@).take(i as int),
        decreases v.len() - i,
    {
        let ghost before = pairs_view(r@);
        let item = (string_of(&v[i].0), string_of(&v[i].1));
        r.push(item);
        assert(pairs_view(r@) =~= before.push((item.0@, item.1@)));
        i += 1;
        assert(pairs_view(r@) =~= entry_views(v@).take(i as int));
    }
    assert(entry_views(v@).take(v.len() as int) =~= entry_views(v@));
    r
}

fn has_ip_exec(results: &Vec<(Vec<char>, Vec<char>)>, ip: &Vec<char>) -> (r: bool)
    ensures
        r == has_ip(entry_views(results@), ip@),
{
    let mut k: usize = 0;
    while k < results.len()
        invariant
            k <= results.len(),
            forall|j: int| 0 <= j < k ==> results@[j].0@ != ip@,
        decreases results.len() - k,
    {
        if chars_eq(&results[k].0, ip) {
            assert(entry_views(results@)[k as int].0 == ip@);
            return true;
        }
        k += 1;
    }
    assert forall|j: int| 0 <= j < entry_views(results@).len() implies (#[trigger] entry_views(
        results@,
    )[j]).0 != ip@ by {
        assert(entry_views(results@)[j].0 == results@[j].0@);
    }
    false
}

/// The LAN addresses in the output of Windows `ipconfig` (read as UTF-8 with
/// replacement), each with the name of its adapter (`network` when none was
/// seen): usable IPv4 addresses only, each once, private ones first, then by
/// adapter name, otherwise in the order found. No output gives no addresses.
pub fn parse_ipconfig_output(bytes: Option<&[u8]>) -> (r: Vec<(String, String)>)
    ensures
        pairs_view(r@) == parse_ipconfig_spec(match bytes {
            Some(b) => Some(b@),
            None => None,
        }),
{
    let b = match bytes {
        Some(b) => b,
        None => {
            return Vec::new();
        },
    };
    let text = string_from_utf8_lossy(b);
    let tv = chars_of(text.as_str());
    let lines = lines_exec(&tv);
    let ghost ls = views(lines@);
    let mut adapter: Vec<char> = Vec::new();
    let mut results: Vec<(Vec<char>, Vec<char>)> = Vec::new();
    let mut i: usize = 0;
    assert(ls.take(0) =~= Seq::<Seq<char>>::empty());
    while i < lines.len()
        invariant
            i <= lines.len(),
            ls == views(lines@),
            (adapter@, entry_views(results@)) == ipconfig_fold(ls.take(i as int)),
        decreases lines.len() - i,
    {
        assert(ls.take(i + 1).drop_last() =~= ls.take(i as int));
        assert(ls.take(i + 1).last() == ls[i as int]);
        let t = trim_exec(&lines[i]);
        let n = t.len();
        if n == 0 {
            adapter = Vec::new();
        } else if t[n - 1] == ':' && (contains_str(&slice_of(&t, 0, n - 1), "adapter")
            || contains_str(&slice_of(&t, 0, n - 1), "Adapter")) {
            assert(t@.drop_last() == t@.subrange(0, n - 1));
            assert(ends_with(t@, seq![':'])) by {
                assert(t@.subrange(t@.len() - 1, t@.len() as int) =~= seq![':']);
            }
            adapter = slice_of(&t, 0, n - 1);
        } else if starts_with_str(&t, "IPv4 Address") || starts_with_str(&t, "ipv4 address") {
            proof {
                if n > 0 && t@[n - 1] != ':' {
                    assert(!ends_with(t@, seq![':'])) by {
                        if ends_with(t@, seq![':']) {
                            assert(t@.subrange(t@.len() - 1, t@.len() as int)[0] == t@[n - 1]);
                        }
                    }
                }
            }
            let pieces = split_char_exec(&t, ':');
            proof {
                crate::text::lemma_split_char_nonempty(t@, ':');
            }
            let ip = trim_exec(&pieces[pieces.len() - 1]);
            assert(ip@ == trim(split_char(t@, ':').last()));
            if ip.len() > 0 && !is_special_chars(&ip) && !has_ip_exec(&results, &ip) {
                let alias = if adapter.len() == 0 {
                    chars_of("network")
                } else {
                    copy(&adapter)
                };
                let ghost before = entry_views(results@);
                results.push((ip, alias));
                assert(entry_views(results@) =~= before.push((ip@, alias@)));
            }
        } else {
            proof {
                if t@[n - 1] != ':' {
                    assert(!ends_with(t@, seq![':'])) by {
                        if ends_with(t@, seq![':']) {
                            assert(t@.subrange(t@.len() - 1, t@.len() as int)[0] == t@[n - 1]);
                        }
                    }
                }
            }
        }
        i += 1;
    }
    assert(ls.take(lines.len() as int) =~= ls);
    let sorted = sort_lan_entries(&results);
    entries_to_strings(&sorted)
}

/// The `ip|alias` lines of a text: trimmed, split at the first `|`, the address
/// trimmed and non-empty and not seen before, the alias trimmed.
pub open spec fn address_lines_step(results: Seq<LanEntry>, line: Seq<char>) -> Seq<LanEntry> {
    match split_once_char(trim(line), '|') {
        Some((ip0, alias)) => {
            let ip = trim(ip0);
            if ip.len() > 0 && !has_ip(results, ip) {
                results.push((ip, trim(alias)))
            } else {
                results
            }
        },
        None => results,
    }
}

/// The entries after reading `lines` of `ip|alias` text.
pub open spec fn address_lines_fold(lines: Seq<Seq<char>>) -> Seq<LanEntry>
    decreases lines.len(),
{
    if lines.len() == 0 {
        Seq::empty()
    } else {
        address_lines_step(address_lines_fold(lines.drop_last()), lines.last())
    }
}

/// The addresses of `ip|alias` lines (read as UTF-8 with replacement), each
/// address once, in order; no text gives none.
pub fn parse_address_lines(bytes: Option<&[u8]>) -> (r: Vec<(String, String)>)
    ensures
        pairs_view(r@) == (match bytes {
            Some(b) => address_lines_fold(lines_spec(lossy_text(b@))),
            None => Seq::empty(),
        }),
{
    let b = match bytes {
        Some(b) => b,
        None => {
            return Vec::new();
        },
    };
    let text = string_from_utf8_lossy(b);
    let tv = chars_of(text.as_str());
    let lines = lines_exec(&tv);
    let ghost ls = views(lines@);
    let mut results: Vec<(Vec<char>, Vec<char>)> = Vec::new();
    let mut i: usize = 0;
    assert(ls.take(0) =~= Seq::<Seq<char>>::empty());
    while i < lines.len()
        invariant
            i <= lines.len(),
            ls == views(lines@),
            entry_views(results@) == address_lines_fold(ls.take(i as int)),
        decreases lines.len() - i,
    {
        assert(ls.take(i + 1).drop_last() =~= ls.take(i as int));
        assert(ls.take(i + 1).last() == ls[i as int]);
        let t = trim_exec(&lines[i]);
        if let Some((ip0, alias)) = split_once_char_exec(&t, '|') {
            let ip = trim_exec(&ip0);
            if ip.len() > 0 && !has_ip_exec(&results, &ip) {
                let al = trim_exec(&alias);
                let ghost before = entry_views(results@);
                results.push((ip, al));
                assert(entry_views(results@) =~= before.push((ip@, al@)));
            }
        }
        i += 1;
    }
    assert(ls.take(lines.len() as int) =~= ls);
    entries_to_strings(&results)
}

/// No address occurs twice.
pub open spec fn distinct_ips(s: Seq<LanEntry>) -> bool {
    forall|i: int, j: int| 0 <= i < j < s.len() ==> (#[trigger] s[i]).0 != (#[trigger] s[j]).0
}

/// Every address is non-empty and not of a special range.
pub open spec fn usable_ips(s: Seq<LanEntry>) -> bool {
    forall|i: int| 0 <= i < s.len() ==> (#[trigger] s[i]).0.len() > 0 && !is_special_ipv4_spec(s[i].0)
}

proof fn lemma_ipconfig_fold_usable(lines: Seq<Seq<char>>)
    ensures
        distinct_ips(ipconfig_fold(lines).1),
        usable_ips(ipconfig_fold(lines).1),
    decreases lines.len(),
{
    if lines.len() > 0 {
        lemma_ipconfig_fold_usable(lines.drop_last());
        let prev = ipconfig_fold(lines.drop_last()).1;
        let now = ipconfig_fold(lines).1;
        if now.len() != prev.len() {
            let ip = now.last().0;
            assert(now == prev.push(now.last()));
            assert(!has_ip(prev, ip));
            assert forall|i: int, j: int| 0 <= i < j < now.len() implies (#[trigger] now[i]).0
                != (#[trigger] now[j]).0 by {
                if j == now.len() - 1 {
                    assert(now[i] == prev[i]);
                    if prev[i].0 == ip {
                        assert(has_ip(prev, ip));
                    }
                } else {
                    assert(now[i] == prev[i] && now[j] == prev[j]);
                }
            }
            assert forall|i: int| 0 <= i < now.len() implies (#[trigger] now[i]).0.len() > 0
                && !is_special_ipv4_spec(now[i].0) by {
                if i < prev.len() {
                    assert(now[i] == prev[i]);
                }
            }
        }
    }
}

proof fn lemma_address_lines_distinct(lines: Seq<Seq<char>>)
    ensures
        distinct_ips(address_lines_fold(lines)),
    decreases lines.len(),
{
    if lines.len() > 0 {
        lemma_address_lines_distinct(lines.drop_last());
        let prev = address_lines_fold(lines.drop_last());
        let now = address_lines_fold(lines);
        if now.len() != prev.len() {
            let ip = now.last().0;
            assert(now == prev.push(now.last()));
            assert(!has_ip(prev, ip));
            assert forall|i: int, j: int| 0 <= i < j < now.len() implies (#[trigger] now[i]).0
                != (#[trigger] now[j]).0 by {
                if j == now.len() - 1 {
                    assert(now[i] == prev[i]);
                    if prev[i].0 == ip {
                        assert(has_ip(prev, ip));
                    }
                } else {
                    assert(now[i] == prev[i] && now[j] == prev[j]);
                }
            }
        }
    }
}

proof fn lemma_sort_keeps_usable(s: Seq<LanEntry>)
    requires
        distinct_ips(s),
        usable_ips(s),
    ensures
        distinct_ips(stable_sort(s, lan_order())),
        usable_ips(stable_sort(s, lan_order())),
        stable_sort(s, lan_order()).len() == s.len(),
        forall|i: int|
            0 <= i < s.len() ==> s.contains(#[trigger] stable_sort(s, lan_order())[i]),
    decreases s.len(),
{
    if s.len() > 0 {
        let init = s.drop_last();
        let x = s.last();
        assert(distinct_ips(init)) by {
            assert forall|i: int, j: int| 0 <= i < j < init.len() implies (#[trigger] init[i]).0
                != (#[trigger] init[j]).0 by {
                assert(init[i] == s[i] && init[j] == s[j]);
            }
        }
        assert(usable_ips(init)) by {
            assert forall|i: int| 0 <= i < init.len() implies (#[trigger] init[i]).0.len() > 0
                && !is_special_ipv4_spec(init[i].0) by {
                assert(init[i] == s[i]);
            }
        }
        lemma_sort_keeps_usable(init);
        let r0 = stable_sort(init, lan_order());
        let p = insert_pos(r0, x, lan_order(), 0);
        lemma_insert_pos_bounds(r0, x, lan_order(), 0);
        let r = stable_sort(s, lan_order());
        assert(r =~= r0.insert(p, x));
        assert forall|i: int| 0 <= i < r.len() implies s.contains(#[trigger] r[i]) by {
            if i < p {
                assert(r[i] == r0[i]);
                let k = choose|k: int| 0 <= k < init.len() && init[k] == r0[i];
                assert(s[k] == r[i]);
            } else if i == p {
                assert(s[s.len() - 1] == r[i]);
            } else {
                assert(r[i] == r0[i - 1]);
                let k = choose|k: int| 0 <= k < init.len() && init[k] == r0[i - 1];
                assert(s[k] == r[i]);
            }
        }
        assert forall|i: int| 0 <= i < r.len() implies (#[trigger] r[i]).0.len() > 0
            && !is_special_ipv4_spec(r[i].0) by {
            assert(s.contains(r[i]));
            let k = choose|k: int| 0 <= k < s.len() && s[k] == r[i];
        }
        assert forall|i: int, j: int| 0 <= i < j < r.len() implies (#[trigger] r[i]).0
            != (#[trigger] r[j]).0 by {
            if i != p && j != p {
                let a = if i < p { i } else { i - 1 };
                let b = if j < p { j } else { j - 1 };
                assert(r[i] == r0[a] && r[j] == r0[b]);
                assert(a < b);
            } else {
                let o = if i == p { j } else { i };
                let a = if o < p { o } else { o - 1 };
                assert(r[o] == r0[a]);
                assert(r[p] == x);
                assert(init.contains(r0[a]));
                let k = choose|k: int| 0 <= k < init.len() && init[k] == r0[a];
                assert(s[k] == init[k]);
                assert(s[s.len() - 1] == x);
            }
        }
    }
}

/// The order of LAN entries is a strict order.
proof fn lemma_lan_order_strict()
    ensures
        strict_order(lan_order()),
{
    law_chars_lt_strict_order();
    let clt = |a: Seq<char>, b: Seq<char>| chars_lt(a, b);
    let lt = lan_order();
    assert forall|a: LanEntry| !(#[trigger] lt(a, a)) by {
        assert(!clt(a.1, a.1));
    }
    assert forall|a: LanEntry, b: LanEntry, c: LanEntry| #[trigger] lt(a, b) && #[trigger] lt(b, c)
        implies lt(a, c) by {
        if is_private_ipv4_spec(a.0) == is_private_ipv4_spec(b.0) && is_private_ipv4_spec(b.0)
            == is_private_ipv4_spec(c.0) {
            assert(clt(a.1, b.1) && clt(b.1, c.1));
        }
    }
}

/// The LAN addresses read from `ipconfig` output are usable (not empty, not of
/// a special range), each is listed once, and private addresses come first,
/// each group by adapter name.
pub proof fn law_lan_addresses(bytes: Option<Seq<u8>>)
    ensures
        distinct_ips(parse_ipconfig_spec(bytes)),
        usable_ips(parse_ipconfig_spec(bytes)),
        sorted_by(parse_ipconfig_spec(bytes), lan_order()),
        forall|i: int, j: int|
            0 <= i < j < parse_ipconfig_spec(bytes).len() && is_private_ipv4_spec(
                (#[trigger] parse_ipconfig_spec(bytes)[j]).0,
            ) ==> is_private_ipv4_spec((#[trigger] parse_ipconfig_spec(bytes)[i]).0),
{
    lemma_lan_order_strict();
    match bytes {
        Some(b) => {
            let found = ipconfig_fold(lines_spec(lossy_text(b))).1;
            lemma_ipconfig_fold_usable(lines_spec(lossy_text(b)));
            lemma_sort_keeps_usable(found);
            law_stable_sort_sorted_permutation(found, lan_order());
            let r = parse_ipconfig_spec(bytes);
            assert forall|i: int, j: int| 0 <= i < j < r.len() && is_private_ipv4_spec(
                (#[trigger] r[j]).0,
            ) implies is_private_ipv4_spec((#[trigger] r[i]).0) by {
                assert(!(lan_order())(r[j], r[i]));
            }
        },
        None => {},
    }
}

/// The addresses read from `ip|alias` lines are each listed once.
pub proof fn law_address_lines_distinct(bytes: Seq<u8>)
    ensures
        distinct_ips(address_lines_fold(lines_spec(lossy_text(bytes)))),
{
    lemma_address_lines_distinct(lines_spec(lossy_text(bytes)));
}

/// The addresses that `hostname -I` prints, kept when they are not loopback
/// (`127.`) or link-local (`169.254.`), in order.
pub open spec fn hostname_addresses(ws: Seq<Seq<char>>) -> Seq<LanEntry>
    decreases ws.len(),
{
    if ws.len() == 0 {
        Seq::empty()
    } else {
        let init = hostname_addresses(ws.drop_last());
        let ip = ws.last();
        if starts_with(ip, "127."@) || starts_with(ip, "169.254."@) {
            init
        } else {
            init.push((ip, "network"@))
        }
    }
}

/// The LAN addresses in the output of `hostname -I` (read as UTF-8 with
/// replacement): its words, without loopback and link-local ones, each named
/// `network`.
pub fn parse_hostname_output(bytes: &[u8]) -> (r: Vec<(String, String)>)
    ensures
        pairs_view(r@) == hostname_addresses(words(lossy_text(bytes@))),
{
    let text = string_from_utf8_lossy(bytes);
    let tv = chars_of(text.as_str());
    let ws = words_exec(&tv);
    let ghost wv = views(ws@);
    let mut out: Vec<(String, String)> = Vec::new();
    let mut i: usize = 0;
    assert(wv.take(0) =~= Seq::<Seq<char>>::empty());
    while i < ws.len()
        invariant
            i <= ws.len(),
            wv == views(ws@),
            pairs_view(out@) == hostname_addresses(wv.take(i as int)),
        decreases ws.len() - i,
    {
        assert(wv.take(i + 1).drop_last() =~= wv.take(i as int));
        assert(wv.take(i + 1).last() == ws@[i as int]@);
        if !starts_with_str(&ws[i], "127.") && !starts_with_str(&ws[i], "169.254.") {
            let ghost before = pairs_view(out@);
            let ip = string_of(&ws[i]);
            let name = "network".to_owned();
            out.push((ip, name));
            assert(pairs_view(out@) =~= before.push((ws@[i as int]@, "network"@)));
        }
        i += 1;
    }
    assert(wv.take(ws.len() as int) =~= wv);
    out
}

/// The LAN addresses to show: those the platform scan found; when it found
/// none, the address of the default route under the name `default route`,
/// unless it is of a special range.
pub fn get_lan_addresses(found: Vec<(String, String)>, route_ip: Option<String>) -> (r: Vec<(String, String)>)
    ensures
        found@.len() > 0 ==> r@ == found@,
        found@.len() == 0 ==> pairs_view(r@) == (match route_ip {
            Some(ip) => if is_special_ipv4_spec(ip@) {
                Seq::<LanEntry>::empty()
            } else {
                seq![(ip@, "default route"@)]
            },
            None => Seq::<LanEntry>::empty(),
        }),
{
    if found.len() > 0 {
        return found;
    }
    let mut r: Vec<(String, String)> = Vec::new();
    if let Some(ip) = route_ip {
        if !is_special_ipv4(ip.as_str()) {
            r.push((ip, "default route".to_owned()));
            assert(pairs_view(r@) =~= seq![(ip@, "default route"@)]);
        }
    }
    assert(pairs_view(r@) == (match route_ip {
        Some(ip) => if is_special_ipv4_spec(ip@) {
            Seq::<LanEntry>::empty()
        } else {
            seq![(ip@, "default route"@)]
        },
        None => Seq::<LanEntry>::empty(),
    }));
    r
}

} // verus!
