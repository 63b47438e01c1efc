//! Stable insertion: the order of a stable sort by a strict "less than", and
//! the lexicographic order of character sequences and byte strings.
use vstd::prelude::*;

verus! {

/// The first index at or after `i` where `x` goes before `s[index]`.
pub open spec fn insert_pos<A>(s: Seq<A>, x: A, lt: spec_fn(A, A) -> bool, i: int) -> int
    decreases s.len() - i,
{
    if i < 0 || i >= s.len() {
        s.len() as int
    } else if lt(x, s[i]) {
        i
    } else {
        insert_pos(s, x, lt, i + 1)
    }
}

/// `x` inserted into `s` after every element that it does not go before.
pub open spec fn insert_sorted<A>(s: Seq<A>, x: A, lt: spec_fn(A, A) -> bool) -> Seq<A> {
    let p = insert_pos(s, x, lt, 0);
    s.take(p).push(x) + s.skip(p)
}

/// The stable sort of `s` by `lt`: each element, in order, inserted after the
/// elements before it that it does not go before.
pub open spec fn stable_sort<A>(s: Seq<A>, lt: spec_fn(A, A) -> bool) -> Seq<A>
    decreases s.len(),
{
    if s.len() == 0 {
        s
    } else {
        insert_sorted(stable_sort(s.drop_last(), lt), s.last(), lt)
    }
}

pub proof fn lemma_insert_pos_bounds<A>(s: Seq<A>, x: A, lt: spec_fn(A, A) -> bool, i: int)
    requires
        0 <= i <= s.len(),
    ensures
        i <= insert_pos(s, x, lt, i) <= s.len(),
        forall|j: int| i <= j < insert_pos(s, x, lt, i) ==> !lt(x, #[trigger] s[j]),
        insert_pos(s, x, lt, i) < s.len() ==> lt(x, s[insert_pos(s, x, lt, i)]),
    decreases s.len() - i,
{
    if i < s.len() && !lt(x, s[i]) {
        lemma_insert_pos_bounds(s, x, lt, i + 1);
    }
}

/// Lexicographic order of character sequences by code point (the order of
/// their UTF-8 bytes, which std's `String` comparison uses).
pub open spec fn chars_lt(a: Seq<char>, b: Seq<char>) -> bool
    decreases a.len(),
{
    if a.len() == 0 {
        b.len() > 0
    } else if b.len() == 0 {
        false
    } else if a[0] != b[0] {
        (a[0] as u32) < (b[0] as u32)
    } else {
        chars_lt(a.drop_first(), b.drop_first())
    }
}

/// Lexicographic order of byte strings.
pub open spec fn bytes_lt(a: Seq<u8>, b: Seq<u8>) -> bool
    decreases a.len(),
{
    if a.len() == 0 {
        b.len() > 0
    } else if b.len() == 0 {
        false
    } else if a[0] != b[0] {
        a[0] < b[0]
    } else {
        bytes_lt(a.drop_first(), b.drop_first())
    }
}

/// Whether `a` comes before `b`, by code point.
pub fn chars_lt_exec(a: &Vec<char>, b: &Vec<char>) -> (r: bool)
    ensures
        r == chars_lt(a@, b@),
{
    let mut i: usize = 0;
    assert(a@.skip(0) == a@);
    assert(b@.skip(0) == b@);
    while i < a.len() && i < b.len() && a[i] == b[i]
        invariant
            i <= a.len(),
            i <= b.len(),
            chars_lt(a@, b@) == chars_lt(a@.skip(i as int), b@.skip(i as int)),
        decreases a.len() - i,
    {
        assert(a@.skip(i as int).drop_first() == a@.skip(i + 1));
        assert(b@.skip(i as int).drop_first() == b@.skip(i + 1));
        i += 1;
    }
    if i == a.len() {
        i < b.len()
    } else if i == b.len() {
        false
    } else {
        (a[i] as u32) < (b[i] as u32)
    }
}

/// Whether byte string `a` comes before `b`.
pub fn bytes_lt_exec(a: &Vec<u8>, b: &Vec<u8>) -> (r: bool)
    ensures
        r == bytes_lt(a@, b@),
{
    let mut i: usize = 0;
    assert(a@.skip(0) == a@);
    assert(b@.skip(0) == b@);
    while i < a.len() && i < b.len() && a[i] == b[i]
        invariant
            i <= a.len(),
            i <= b.len(),
            bytes_lt(a@, b@) == bytes_lt(a@.skip(i as int), b@.skip(i as int)),
        decreases a.len() - i,
    {
        assert(a@.skip(i as int).drop_first() == a@.skip(i + 1));
        assert(b@.skip(i as int).drop_first() == b@.skip(i + 1));
        i += 1;
    }
    if i == a.len() {
        i < b.len()
    } else if i == b.len() {
        false
    } else {
        a[i] < b[i]
    }
}

/// `lt` is a strict order: no element goes before itself, and going before
/// is transitive.
pub open spec fn strict_order<A>(lt: spec_fn(A, A) -> bool) -> bool {
    &&& forall|a: A| !(#[trigger] lt(a, a))
    &&& forall|a: A, b: A, c: A| #[trigger] lt(a, b) && #[trigger] lt(b, c) ==> lt(a, c)
}

/// No element of `s` goes before an element ahead of it.
pub open spec fn sorted_by<A>(s: Seq<A>, lt: spec_fn(A, A) -> bool) -> bool {
    forall|i: int, j: int| 0 <= i < j < s.len() ==> !lt(#[trigger] s[j], #[trigger] s[i])
}

proof fn lemma_insert_sorted<A>(s: Seq<A>, x: A, lt: spec_fn(A, A) -> bool)
    requires
        strict_order(lt),
        sorted_by(s, lt),
    ensures
        sorted_by(insert_sorted(s, x, lt), lt),
        insert_sorted(s, x, lt).to_multiset() == s.to_multiset().insert(x),
{
    let p = insert_pos(s, x, lt, 0);
    lemma_insert_pos_bounds(s, x, lt, 0);
    let r = insert_sorted(s, x, lt);
    assert(r =~= s.insert(p, x));
    assert(r.len() == s.len() + 1);
    assert forall|i: int, j: int| 0 <= i < j < r.len() implies !lt(#[trigger] r[j], #[trigger] r[i]) by {
        if j < p {
            assert(r[i] == s[i] && r[j] == s[j]);
        } else if j == p {
            assert(r[i] == s[i] && r[j] == x);
        } else if i < p {
            assert(r[i] == s[i] && r[j] == s[j - 1]);
        } else if i == p {
            assert(r[i] == x && r[j] == s[j - 1]);
            assert(lt(x, s[p]));
            if lt(s[j - 1], x) {
                assert(lt(s[j - 1], s[p]));
                if j - 1 > p {
                    assert(!lt(s[j - 1], s[p]));
                }
            }
        } else {
            assert(r[i] == s[i - 1] && r[j] == s[j - 1]);
        }
    }
    vstd::seq_lib::to_multiset_insert(s, p, x);
}

/// The stable sort of `s` by a strict order is sorted, and holds the same
/// elements as `s`, each as often.
pub proof fn law_stable_sort_sorted_permutation<A>(s: Seq<A>, lt: spec_fn(A, A) -> bool)
    requires
        strict_order(lt),
    ensures
        sorted_by(stable_sort(s, lt), lt),
        stable_sort(s, lt).to_multiset() == s.to_multiset(),
    decreases s.len(),
{
    if s.len() > 0 {
        law_stable_sort_sorted_permutation(s.drop_last(), lt);
        lemma_insert_sorted(stable_sort(s.drop_last(), lt), s.last(), lt);
        vstd::seq_lib::to_multiset_build(s.drop_last(), s.last());
        s.lemma_add_last_back();
    }
}

proof fn lemma_bytes_lt_irreflexive(a: Seq<u8>)
    ensures
        !bytes_lt(a, a),
    decreases a.len(),
{
    if a.len() > 0 {
        lemma_bytes_lt_irreflexive(a.drop_first());
    }
}

proof fn lemma_bytes_lt_transitive(a: Seq<u8>, b: Seq<u8>, c: Seq<u8>)
    requires
        bytes_lt(a, b),
        bytes_lt(b, c),
    ensures
        bytes_lt(a, c),
    decreases a.len(),
{
    if a.len() > 0 && b.len() > 0 && c.len() > 0 && a[0] == b[0] && b[0] == c[0] {
        lemma_bytes_lt_transitive(a.drop_first(), b.drop_first(), c.drop_first());
    }
}

/// The lexicographic order of byte strings is a strict order.
pub proof fn law_bytes_lt_strict_order()
    ensures
        strict_order(|a: Seq<u8>, b: Seq<u8>| bytes_lt(a, b)),
{
    let lt = |a: Seq<u8>, b: Seq<u8>| bytes_lt(a, b);
    assert forall|a: Seq<u8>| !(#[trigger] lt(a, a)) by {
        lemma_bytes_lt_irreflexive(a);
    }
    assert forall|a: Seq<u8>, b: Seq<u8>, c: Seq<u8>| #[trigger] lt(a, b) && #[trigger] lt(b, c) implies lt(a, c) by {
        lemma_bytes_lt_transitive(a, b, c);
    }
}

proof fn lemma_chars_lt_irreflexive(a: Seq<char>)
    ensures
        !chars_lt(a, a),
    decreases a.len(),
{
    if a.len() > 0 {
        lemma_chars_lt_irreflexive(a.drop_first());
    }
}

proof fn lemma_chars_lt_transitive(a: Seq<char>, b: Seq<char>, c: Seq<char>)
    requires
        chars_lt(a, b),
        chars_lt(b, c),
    ensures
        chars_lt(a, c),
    decreases a.len(),
{
    if a.len() > 0 && b.len() > 0 && c.len() > 0 && a[0] == b[0] && b[0] == c[0] {
        lemma_chars_lt_transitive(a.drop_first(), b.drop_first(), c.drop_first());
    }
}

/// The code-point order of character sequences is a strict order.
pub proof fn law_chars_lt_strict_order()
    ensures
        strict_order(|a: Seq<char>, b: Seq<char>| chars_lt(a, b)),
{
    let lt = |a: Seq<char>, b: Seq<char>| chars_lt(a, b);
    assert forall|a: Seq<char>| !(#[trigger] lt(a, a)) by {
        lemma_chars_lt_irreflexive(a);
    }
    assert forall|a: Seq<char>, b: Seq<char>, c: Seq<char>| #[trigger] lt(a, b) && #[trigger] lt(b, c) implies lt(a, c) by {
        lemma_chars_lt_transitive(a, b, c);
    }
}

} // verus!
