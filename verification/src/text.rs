//! The order in which texts are listed: that of their UTF-8 bytes, which is
//! the order of Rust's strings and lists code points by their value.

use vstd::prelude::*;

verus! {

/// The two sequences hold the same bytes at the first `k` places.
pub open spec fn agree(a: Seq<u8>, b: Seq<u8>, k: int) -> bool {
    &&& 0 <= k <= a.len()
    &&& k <= b.len()
    &&& forall|i: int| 0 <= i < k ==> a[i] == b[i]
}

/// After `k` equal bytes `a` ends, or has the smaller byte.
pub open spec fn le_at(a: Seq<u8>, b: Seq<u8>, k: int) -> bool {
    agree(a, b, k) && (k == a.len() || (k < b.len() && a[k] < b[k]))
}

/// `a` is `b` or comes before it: `a` is a prefix of `b`, or has the smaller
/// byte at the first place where the two differ.
pub open spec fn bytes_le(a: Seq<u8>, b: Seq<u8>) -> bool {
    exists|k: int| le_at(a, b, k)
}

/// `a` is `b` or comes before it, by their UTF-8 bytes.
pub open spec fn text_le(a: Seq<char>, b: Seq<char>) -> bool {
    bytes_le(vstd::utf8::encode_utf8(a), vstd::utf8::encode_utf8(b))
}

/// The bytes of `tail` stand at the end of `bytes`.
pub open spec fn ends_with(bytes: Seq<u8>, tail: Seq<u8>) -> bool {
    tail.len() <= bytes.len() && bytes.subrange(bytes.len() - tail.len(), bytes.len() as int)
        == tail
}

/// The text ends with `tail`, as Rust's strings do: by their UTF-8 bytes.
pub open spec fn text_ends_with(text: Seq<char>, tail: Seq<char>) -> bool {
    ends_with(vstd::utf8::encode_utf8(text), vstd::utf8::encode_utf8(tail))
}

/// Each text is listed no later than those that follow it.
pub open spec fn ascending(texts: Seq<Seq<char>>) -> bool {
    forall|i: int, j: int|
        #![trigger texts[i], texts[j]]
        0 <= i < j < texts.len() ==> text_le(texts[i], texts[j])
}

/// Where `a` goes on after `k` equal bytes and `b` ends or has the smaller
/// byte, `b` comes first and `a` does not.
pub proof fn lemma_differ(a: Seq<u8>, b: Seq<u8>, k: int)
    requires
        agree(a, b, k),
        k < a.len(),
        k == b.len() || a[k] > b[k],
    ensures
        !bytes_le(a, b),
        bytes_le(b, a),
{
    assert(le_at(b, a, k));
    assert forall|j: int| !le_at(a, b, j) by {}
}

/// Every sequence is no later than itself.
pub proof fn lemma_bytes_le_reflexive(a: Seq<u8>)
    ensures
        bytes_le(a, a),
{
    assert(le_at(a, a, a.len() as int));
}

/// Of two sequences one is no later than the other.
pub proof fn lemma_bytes_le_total(a: Seq<u8>, b: Seq<u8>)
    ensures
        bytes_le(a, b) || bytes_le(b, a),
{
    lemma_scan(a, b, 0);
}

proof fn lemma_scan(a: Seq<u8>, b: Seq<u8>, k: int)
    requires
        agree(a, b, k),
    ensures
        bytes_le(a, b) || bytes_le(b, a),
    decreases a.len() - k,
{
    if k == a.len() {
        assert(le_at(a, b, k));
    } else if k == b.len() || a[k] > b[k] {
        lemma_differ(a, b, k);
    } else if a[k] < b[k] {
        assert(le_at(a, b, k));
    } else {
        lemma_scan(a, b, k + 1);
    }
}

/// What is no later than a sequence is no later than what follows it.
pub proof fn lemma_bytes_le_transitive(a: Seq<u8>, b: Seq<u8>, c: Seq<u8>)
    requires
        bytes_le(a, b),
        bytes_le(b, c),
    ensures
        bytes_le(a, c),
{
    let k1 = choose|k: int| le_at(a, b, k);
    let k2 = choose|k: int| le_at(b, c, k);
    let k = if k1 <= k2 {
        k1
    } else {
        k2
    };
    assert(le_at(a, c, k));
}

/// Two sequences that are each no later than the other are one.
pub proof fn lemma_bytes_le_antisymmetric(a: Seq<u8>, b: Seq<u8>)
    requires
        bytes_le(a, b),
        bytes_le(b, a),
    ensures
        a == b,
{
    let k1 = choose|k: int| le_at(a, b, k);
    let k2 = choose|k: int| le_at(b, a, k);
    if k1 < k2 {
        assert(b[k1] == a[k1]);
    } else if k2 < k1 {
        assert(a[k2] == b[k2]);
    }
    assert(a =~= b);
}

/// The order of texts is total: reflexive, transitive, antisymmetric, and
/// any two texts are comparable.
pub proof fn lemma_text_le_is_total_order(a: Seq<char>, b: Seq<char>, c: Seq<char>)
    ensures
        text_le(a, a),
        text_le(a, b) || text_le(b, a),
        text_le(a, b) && text_le(b, c) ==> text_le(a, c),
        text_le(a, b) && text_le(b, a) ==> a == b,
{
    let x = vstd::utf8::encode_utf8(a);
    let y = vstd::utf8::encode_utf8(b);
    let z = vstd::utf8::encode_utf8(c);
    lemma_bytes_le_reflexive(x);
    lemma_bytes_le_total(x, y);
    if bytes_le(x, y) && bytes_le(y, z) {
        lemma_bytes_le_transitive(x, y, z);
    }
    if bytes_le(x, y) && bytes_le(y, x) {
        lemma_bytes_le_antisymmetric(x, y);
        vstd::utf8::encode_utf8_decode_utf8(a);
        vstd::utf8::encode_utf8_decode_utf8(b);
    }
}

/// An ascending list is determined by what it lists: two ascending lists of
/// the same texts, each as often as in the other, are one list.
pub proof fn lemma_ascending_is_determined(a: Seq<Seq<char>>, b: Seq<Seq<char>>)
    requires
        ascending(a),
        ascending(b),
        a.to_multiset() == b.to_multiset(),
    ensures
        a == b,
{
    let leq = |x: Seq<char>, y: Seq<char>| text_le(x, y);
    assert(vstd::relations::total_ordering(leq)) by {
        assert forall|x: Seq<char>| #[trigger] leq(x, x) by {
            lemma_text_le_is_total_order(x, x, x);
        }
        assert forall|x: Seq<char>, y: Seq<char>| #[trigger] leq(x, y) || #[trigger] leq(y, x) by {
            lemma_text_le_is_total_order(x, y, x);
        }
        assert forall|x: Seq<char>, y: Seq<char>| #[trigger]
            leq(x, y) && #[trigger] leq(y, x) implies x == y by {
            lemma_text_le_is_total_order(x, y, x);
        }
        assert forall|x: Seq<char>, y: Seq<char>, z: Seq<char>| #[trigger]
            leq(x, y) && #[trigger] leq(y, z) implies leq(x, z) by {
            lemma_text_le_is_total_order(x, y, z);
        }
    }
    assert(vstd::relations::sorted_by(a, leq));
    assert(vstd::relations::sorted_by(b, leq));
    vstd::seq_lib::lemma_sorted_unique(a, b, leq);
}

/// Tells whether the text ends with `tail`.
pub fn has_suffix(text: &str, tail: &str) -> (r: bool)
    ensures
        r == text_ends_with(text@, tail@),
{
    let x = text.as_bytes();
    let y = tail.as_bytes();
    if y.len() > x.len() {
        return false;
    }
    let skip: usize = x.len() - y.len();
    let mut i: usize = 0;
    while i < y.len()
        invariant
            i <= y.len(),
            skip + y.len() == x.len(),
            x@ == vstd::utf8::encode_utf8(text@),
            y@ == vstd::utf8::encode_utf8(tail@),
            forall|k: int| 0 <= k < i ==> x@[skip + k] == y@[k],
        decreases y.len() - i,
    {
        if x[skip + i] != y[i] {
            return false;
        }
        i += 1;
    }
    assert(x@.subrange(skip as int, x@.len() as int) =~= y@);
    true
}

/// Tells whether `a` is `b` or comes before it.
pub fn precedes(a: &str, b: &str) -> (r: bool)
    ensures
        r == text_le(a@, b@),
        !r ==> text_le(b@, a@),
{
    let x = a.as_bytes();
    let y = b.as_bytes();
    let mut i: usize = 0;
    while i < x.len() && i < y.len() && x[i] == y[i]
        invariant
            agree(x@, y@, i as int),
        decreases x.len() - i,
    {
        i += 1;
    }
    if i == x.len() {
        assert(le_at(x@, y@, i as int));
        true
    } else if i == y.len() {
        proof {
            lemma_differ(x@, y@, i as int);
        }
        false
    } else if x[i] < y[i] {
        assert(le_at(x@, y@, i as int));
        true
    } else {
        proof {
            lemma_differ(x@, y@, i as int);
        }
        false
    }
}

} // verus!
