use std::cmp::Ordering;
use vstd::prelude::*;
use vstd::utf8::{encode_utf8, encode_utf8_decode_utf8};

verus! {

/// A key type of a grouped view: its view carries a strict total order, and
/// values can be compared at run time in agreement with it.
pub trait OrderedKey: View + Sized {
    /// Whether key `a` comes strictly before key `b`.
    spec fn precedes(a: Self::V, b: Self::V) -> bool;

    proof fn lemma_irreflexive(a: Self::V)
        ensures
            !Self::precedes(a, a),
    ;

    proof fn lemma_transitive(a: Self::V, b: Self::V, c: Self::V)
        requires
            Self::precedes(a, b),
            Self::precedes(b, c),
        ensures
            Self::precedes(a, c),
    ;

    proof fn lemma_total(a: Self::V, b: Self::V)
        ensures
            a == b || Self::precedes(a, b) || Self::precedes(b, a),
    ;

    fn compare(&self, other: &Self) -> (c: Ordering)
        ensures
            c == Ordering::Less <==> Self::precedes(self@, other@),
            c == Ordering::Equal <==> self@ == other@,
            c == Ordering::Greater <==> Self::precedes(other@, self@),
    ;

    /// A copy of the key.
    fn duplicate(&self) -> (r: Self)
        ensures
            r@ == self@,
    ;
}

/// Lexicographic order on byte strings (a proper prefix comes first).
pub open spec fn bytes_precede(a: Seq<u8>, b: Seq<u8>) -> bool
    decreases a.len(),
{
    if b.len() == 0 {
        false
    } else if a.len() == 0 {
        true
    } else if a[0] != b[0] {
        a[0] < b[0]
    } else {
        bytes_precede(a.drop_first(), b.drop_first())
    }
}

pub proof fn lemma_bytes_irreflexive(a: Seq<u8>)
    ensures
        !bytes_precede(a, a),
    decreases a.len(),
{
    if a.len() > 0 {
        lemma_bytes_irreflexive(a.drop_first());
    }
}

pub proof fn lemma_bytes_transitive(a: Seq<u8>, b: Seq<u8>, c: Seq<u8>)
    requires
        bytes_precede(a, b),
        bytes_precede(b, c),
    ensures
        bytes_precede(a, c),
    decreases a.len(),
{
    if a.len() > 0 && a[0] == b[0] && b[0] == c[0] {
        lemma_bytes_transitive(a.drop_first(), b.drop_first(), c.drop_first());
    }
}

pub proof fn lemma_bytes_total(a: Seq<u8>, b: Seq<u8>)
    ensures
        a == b || bytes_precede(a, b) || bytes_precede(b, a),
    decreases a.len(),
{
    if a.len() > 0 && b.len() > 0 && a[0] == b[0] {
        lemma_bytes_total(a.drop_first(), b.drop_first());
        if a.drop_first() == b.drop_first() {
            assert(a =~= seq![a[0]] + a.drop_first());
            assert(b =~= seq![b[0]] + b.drop_first());
        }
    } else if a.len() == 0 && b.len() == 0 {
        assert(a =~= b);
    }
}

/// Past a common prefix of length `i`, the order is decided by the rest.
proof fn lemma_bytes_precede_skip(a: Seq<u8>, b: Seq<u8>, i: int)
    requires
        0 <= i <= a.len(),
        i <= b.len(),
        forall|j: int| 0 <= j < i ==> a[j] == b[j],
    ensures
        bytes_precede(a, b) == bytes_precede(a.skip(i), b.skip(i)),
    decreases i,
{
    if i > 0 {
        lemma_bytes_precede_skip(a.drop_first(), b.drop_first(), i - 1);
        assert(a.drop_first().skip(i - 1) =~= a.skip(i));
        assert(b.drop_first().skip(i - 1) =~= b.skip(i));
    } else {
        assert(a.skip(0) =~= a);
        assert(b.skip(0) =~= b);
    }
}

/// Compares two byte slices lexicographically.
pub fn compare_bytes(a: &[u8], b: &[u8]) -> (c: Ordering)
    ensures
        c == Ordering::Less <==> bytes_precede(a@, b@),
        c == Ordering::Equal <==> a@ == b@,
        c == Ordering::Greater <==> bytes_precede(b@, a@),
{
    let mut i: usize = 0;
    while i < a.len() && i < b.len()
        invariant
            i <= a@.len(),
            i <= b@.len(),
            forall|j: int| 0 <= j < i ==> a@[j] == b@[j],
        decreases a@.len() - i,
    {
        if a[i] != b[i] {
            proof {
                lemma_bytes_precede_skip(a@, b@, i as int);
                lemma_bytes_precede_skip(b@, a@, i as int);
            }
            if a[i] < b[i] {
                return Ordering::Less;
            } else {
                return Ordering::Greater;
            }
        }
        i = i + 1;
    }
    proof {
        lemma_bytes_precede_skip(a@, b@, i as int);
        lemma_bytes_precede_skip(b@, a@, i as int);
    }
    if i < b.len() {
        Ordering::Less
    } else if i < a.len() {
        Ordering::Greater
    } else {
        assert(a@ =~= b@);
        Ordering::Equal
    }
}

impl OrderedKey for u64 {
    open spec fn precedes(a: u64, b: u64) -> bool {
        a < b
    }

    proof fn lemma_irreflexive(a: u64) {
    }

    proof fn lemma_transitive(a: u64, b: u64, c: u64) {
    }

    proof fn lemma_total(a: u64, b: u64) {
    }

    fn duplicate(&self) -> (r: u64) {
        *self
    }

    fn compare(&self, other: &u64) -> (c: Ordering) {
        if *self < *other {
            Ordering::Less
        } else if *self == *other {
            Ordering::Equal
        } else {
            Ordering::Greater
        }
    }
}

impl OrderedKey for (u32, u32) {
    open spec fn precedes(a: (u32, u32), b: (u32, u32)) -> bool {
        a.0 < b.0 || (a.0 == b.0 && a.1 < b.1)
    }

    proof fn lemma_irreflexive(a: (u32, u32)) {
    }

    proof fn lemma_transitive(a: (u32, u32), b: (u32, u32), c: (u32, u32)) {
    }

    proof fn lemma_total(a: (u32, u32), b: (u32, u32)) {
    }

    fn duplicate(&self) -> (r: (u32, u32)) {
        *self
    }

    fn compare(&self, other: &(u32, u32)) -> (c: Ordering) {
        if self.0 < other.0 || (self.0 == other.0 && self.1 < other.1) {
            Ordering::Less
        } else if self.0 == other.0 && self.1 == other.1 {
            Ordering::Equal
        } else {
            Ordering::Greater
        }
    }
}

/// Order of strings: that of their UTF-8 bytes, as for Rust's `str`.
pub open spec fn text_precedes(a: Seq<char>, b: Seq<char>) -> bool {
    bytes_precede(encode_utf8(a), encode_utf8(b))
}

proof fn lemma_text_total(a: Seq<char>, b: Seq<char>)
    ensures
        a == b || text_precedes(a, b) || text_precedes(b, a),
{
    lemma_bytes_total(encode_utf8(a), encode_utf8(b));
    encode_utf8_decode_utf8(a);
    encode_utf8_decode_utf8(b);
}

/// Compares two strings in the order of `text_precedes`.
pub fn compare_text(a: &String, b: &String) -> (c: Ordering)
    ensures
        c == Ordering::Less <==> text_precedes(a@, b@),
        c == Ordering::Equal <==> a@ == b@,
        c == Ordering::Greater <==> text_precedes(b@, a@),
{
    let c = compare_bytes(a.as_str().as_bytes(), b.as_str().as_bytes());
    proof {
        encode_utf8_decode_utf8(a@);
        encode_utf8_decode_utf8(b@);
        lemma_bytes_irreflexive(encode_utf8(a@));
    }
    c
}

impl OrderedKey for String {
    open spec fn precedes(a: Seq<char>, b: Seq<char>) -> bool {
        text_precedes(a, b)
    }

    proof fn lemma_irreflexive(a: Seq<char>) {
        lemma_bytes_irreflexive(encode_utf8(a));
    }

    proof fn lemma_transitive(a: Seq<char>, b: Seq<char>, c: Seq<char>) {
        lemma_bytes_transitive(encode_utf8(a), encode_utf8(b), encode_utf8(c));
    }

    proof fn lemma_total(a: Seq<char>, b: Seq<char>) {
        lemma_text_total(a, b);
    }

    fn duplicate(&self) -> (r: String) {
        self.clone()
    }

    fn compare(&self, other: &String) -> (c: Ordering) {
        compare_text(self, other)
    }
}

/// Order of pairs of strings: by the first, then by the second.
pub open spec fn text_pair_precedes(a: (Seq<char>, Seq<char>), b: (Seq<char>, Seq<char>)) -> bool {
    text_precedes(a.0, b.0) || (a.0 == b.0 && text_precedes(a.1, b.1))
}

pub proof fn lemma_text_pair_irreflexive(a: (Seq<char>, Seq<char>))
    ensures
        !text_pair_precedes(a, a),
{
    lemma_bytes_irreflexive(encode_utf8(a.0));
    lemma_bytes_irreflexive(encode_utf8(a.1));
}

pub proof fn lemma_text_pair_transitive(
    a: (Seq<char>, Seq<char>),
    b: (Seq<char>, Seq<char>),
    c: (Seq<char>, Seq<char>),
)
    requires
        text_pair_precedes(a, b),
        text_pair_precedes(b, c),
    ensures
        text_pair_precedes(a, c),
{
    lemma_bytes_irreflexive(encode_utf8(a.0));
    lemma_bytes_irreflexive(encode_utf8(b.0));
    if text_precedes(a.0, b.0) && text_precedes(b.0, c.0) {
        lemma_bytes_transitive(encode_utf8(a.0), encode_utf8(b.0), encode_utf8(c.0));
    }
    if a.0 == b.0 && b.0 == c.0 {
        lemma_bytes_irreflexive(encode_utf8(a.0));
        lemma_bytes_transitive(encode_utf8(a.1), encode_utf8(b.1), encode_utf8(c.1));
    }
}

pub proof fn lemma_text_pair_total(a: (Seq<char>, Seq<char>), b: (Seq<char>, Seq<char>))
    ensures
        a == b || text_pair_precedes(a, b) || text_pair_precedes(b, a),
{
    lemma_text_total(a.0, b.0);
    lemma_text_total(a.1, b.1);
}

/// Compares two pairs of strings in the order of `text_pair_precedes`.
pub fn compare_text_pair(a0: &String, a1: &String, b0: &String, b1: &String) -> (c: Ordering)
    ensures
        c == Ordering::Less <==> text_pair_precedes((a0@, a1@), (b0@, b1@)),
        c == Ordering::Equal <==> (a0@, a1@) == (b0@, b1@),
        c == Ordering::Greater <==> text_pair_precedes((b0@, b1@), (a0@, a1@)),
{
    proof {
        lemma_text_pair_irreflexive((a0@, a1@));
        lemma_text_pair_irreflexive((b0@, b1@));
        lemma_bytes_irreflexive(encode_utf8(a0@));
        lemma_bytes_irreflexive(encode_utf8(b0@));
    }
    let first = compare_text(a0, b0);
    match first {
        Ordering::Equal => compare_text(a1, b1),
        _ => first,
    }
}

} // verus!
