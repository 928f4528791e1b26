use vstd::prelude::*;
use vstd::utf8::*;

verus! {

/// `a` and `b` agree on the first `i` bytes and `a` is smaller at position `i`
/// (either `a` ends there while `b` goes on, or its byte is smaller).
pub open spec fn first_difference_at(a: Seq<u8>, b: Seq<u8>, i: int) -> bool {
    &&& 0 <= i <= a.len()
    &&& i <= b.len()
    &&& forall|j: int| 0 <= j < i ==> a[j] == b[j]
    &&& ((i == a.len() && i < b.len()) || (i < a.len() && i < b.len() && a[i] < b[i]))
}

/// Strict lexicographic order on byte strings.
pub open spec fn bytes_lt(a: Seq<u8>, b: Seq<u8>) -> bool {
    exists|i: int| #[trigger] first_difference_at(a, b, i)
}

/// The order of string keys: lexicographic on their UTF-8 bytes, which is the
/// order of `str` in Rust.
pub open spec fn key_lt(a: Seq<char>, b: Seq<char>) -> bool {
    bytes_lt(encode_utf8(a), encode_utf8(b))
}

/// The outcome of comparing two keys.
pub enum KeyOrder {
    Less,
    Equal,
    Greater,
}

/// No key is smaller than itself.
pub proof fn lemma_key_lt_irreflexive(a: Seq<char>)
    ensures
        !key_lt(a, a),
{
    let e = encode_utf8(a);
    assert forall|i: int| !first_difference_at(e, e, i) by {}
}

/// The order of byte strings is transitive.
pub proof fn lemma_bytes_lt_transitive(a: Seq<u8>, b: Seq<u8>, c: Seq<u8>)
    requires
        bytes_lt(a, b),
        bytes_lt(b, c),
    ensures
        bytes_lt(a, c),
{
    let i = choose|i: int| first_difference_at(a, b, i);
    let j = choose|j: int| first_difference_at(b, c, j);
    let k = if i < j { i } else { j };
    assert(first_difference_at(a, c, k));
}

/// The order of keys is transitive.
pub proof fn lemma_key_lt_transitive(a: Seq<char>, b: Seq<char>, c: Seq<char>)
    requires
        key_lt(a, b),
        key_lt(b, c),
    ensures
        key_lt(a, c),
{
    lemma_bytes_lt_transitive(encode_utf8(a), encode_utf8(b), encode_utf8(c));
}

/// Two keys with equal UTF-8 encodings are equal.
pub proof fn lemma_encoding_injective(a: Seq<char>, b: Seq<char>)
    requires
        encode_utf8(a) == encode_utf8(b),
    ensures
        a == b,
{
    encode_utf8_decode_utf8(a);
    encode_utf8_decode_utf8(b);
}

/// Compares two keys in the order of `str`.
pub fn compare_keys(a: &str, b: &str) -> (r: KeyOrder)
    ensures
        match r {
            KeyOrder::Less => key_lt(a@, b@),
            KeyOrder::Equal => a@ == b@,
            KeyOrder::Greater => key_lt(b@, a@),
        },
{
    let x = a.as_bytes();
    let y = b.as_bytes();
    let mut i: usize = 0;
    while i < x.len() && i < y.len()
        invariant
            i <= x@.len(),
            i <= y@.len(),
            x@ == encode_utf8(a@),
            y@ == encode_utf8(b@),
            forall|j: int| 0 <= j < i ==> x@[j] == y@[j],
        decreases x@.len() - i,
    {
        if x[i] < y[i] {
            assert(first_difference_at(x@, y@, i as int));
            return KeyOrder::Less;
        }
        if x[i] > y[i] {
            assert(first_difference_at(y@, x@, i as int));
            return KeyOrder::Greater;
        }
        i = i + 1;
    }
    if x.len() < y.len() {
        assert(first_difference_at(x@, y@, i as int));
        KeyOrder::Less
    } else if x.len() > y.len() {
        assert(first_difference_at(y@, x@, i as int));
        KeyOrder::Greater
    } else {
        assert(x@ =~= y@);
        proof {
            lemma_encoding_injective(a@, b@);
        }
        KeyOrder::Equal
    }
}

/// Whether two strings hold the same characters.
pub fn same_text(a: &str, b: &str) -> (r: bool)
    ensures
        r == (a@ == b@),
{
    match compare_keys(a, b) {
        KeyOrder::Equal => true,
        KeyOrder::Less => {
            proof {
                lemma_key_lt_irreflexive(a@);
            }
            false
        },
        KeyOrder::Greater => {
            proof {
                lemma_key_lt_irreflexive(a@);
            }
            false
        },
    }
}

} // verus!
