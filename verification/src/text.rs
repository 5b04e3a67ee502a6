//! Text helpers: strings as sequences of characters, and the order of keys.
//!
//! Keys are ordered by the bytes of their UTF-8 form, first difference first,
//! a proper prefix before anything that it starts.

use vstd::prelude::*;
use vstd::utf8::{encode_utf8, encode_utf8_decode_utf8};

verus! {

/// `String::push` appends one character.
pub assume_specification[ std::string::String::push ](s: &mut std::string::String, c: char)
    ensures
        final(s)@ == old(s)@.push(c),
;

/// `a` and `b` agree before position `i`, and at `i` the first one is smaller:
/// it has ended, or holds a smaller byte.
pub open spec fn smaller_at(a: Seq<u8>, b: Seq<u8>, i: int) -> bool {
    &&& 0 <= i <= a.len()
    &&& i < b.len()
    &&& forall|j: int| 0 <= j < i ==> a[j] == b[j]
    &&& i == a.len() || a[i] < b[i]
}

/// Strict lexicographic order of byte sequences.
pub open spec fn bytes_before(a: Seq<u8>, b: Seq<u8>) -> bool {
    exists|i: int| smaller_at(a, b, i)
}

/// Strict order of keys: that of their UTF-8 bytes.
pub open spec fn key_before(a: Seq<char>, b: Seq<char>) -> bool {
    bytes_before(encode_utf8(a), encode_utf8(b))
}

/// The order of keys is transitive.
pub proof fn lemma_key_before_transitive(a: Seq<char>, b: Seq<char>, c: Seq<char>)
    requires
        key_before(a, b),
        key_before(b, c),
    ensures
        key_before(a, c),
{
    let (x, y, z) = (encode_utf8(a), encode_utf8(b), encode_utf8(c));
    let i = choose|i: int| smaller_at(x, y, i);
    let j = choose|j: int| smaller_at(y, z, j);
    let k = if i < j { i } else { j };
    assert(smaller_at(x, z, k));
}

/// No key comes before itself.
pub proof fn lemma_key_before_irreflexive(a: Seq<char>)
    ensures
        !key_before(a, a),
{
}

/// How two keys stand to each other.
pub enum KeyOrder {
    /// The first key comes first.
    Before,
    /// The keys are equal.
    Same,
    /// The second key comes first.
    After,
}

/// Order two keys.
pub fn order_keys(a: &str, b: &str) -> (r: KeyOrder)
    ensures
        (r is Before) == key_before(a@, b@),
        (r is Same) == (a@ == b@),
        (r is After) == key_before(b@, a@),
{
    let x = a.as_bytes();
    let y = b.as_bytes();
    let ghost u = encode_utf8(a@);
    let ghost v = encode_utf8(b@);
    let mut i: usize = 0;
    while i < x.len() && i < y.len() && x[i] == y[i]
        invariant
            x@ == u,
            y@ == v,
            i <= x@.len(),
            i <= y@.len(),
            forall|j: int| 0 <= j < i ==> u[j] == v[j],
        decreases x@.len() - i,
    {
        i = i + 1;
    }
    proof {
        lemma_first_difference(u, v, i as int);
        encode_utf8_decode_utf8(a@);
        encode_utf8_decode_utf8(b@);
    }
    if i < y.len() && (i == x.len() || x[i] < y[i]) {
        KeyOrder::Before
    } else if i < x.len() {
        KeyOrder::After
    } else {
        assert(u =~= v);
        KeyOrder::Same
    }
}

/// The first position at which two byte sequences differ decides their order.
proof fn lemma_first_difference(a: Seq<u8>, b: Seq<u8>, i: int)
    requires
        0 <= i <= a.len(),
        i <= b.len(),
        forall|j: int| 0 <= j < i ==> a[j] == b[j],
        i < a.len() && i < b.len() ==> a[i] != b[i],
    ensures
        bytes_before(a, b) == smaller_at(a, b, i),
        bytes_before(b, a) == smaller_at(b, a, i),
{
    if bytes_before(a, b) {
        let k = choose|k: int| smaller_at(a, b, k);
        assert(k == i);
    }
    if bytes_before(b, a) {
        let k = choose|k: int| smaller_at(b, a, k);
        assert(k == i);
    }
}

/// Whether two texts are equal.
pub fn same_text(a: &str, b: &str) -> (r: bool)
    ensures
        r == (a@ == b@),
{
    match order_keys(a, b) {
        KeyOrder::Same => true,
        _ => false,
    }
}

/// The characters of `s`, in order.
pub fn chars_of(s: &str) -> (r: Vec<char>)
    ensures
        r@ == s@,
{
    let mut out: Vec<char> = Vec::new();
    for c in it: s.chars()
        invariant
            it.seq() == s@,
            out@ == it.seq().take(it.index() as int),
    {
        out.push(c);
    }
    out
}

/// The text of the characters from `from` up to, and without, `to`.
pub fn text_of(chars: &Vec<char>, from: usize, to: usize) -> (r: String)
    requires
        from <= to <= chars@.len(),
    ensures
        r@ == chars@.subrange(from as int, to as int),
{
    let mut out = String::new();
    let mut i: usize = from;
    while i < to
        invariant
            from <= i <= to <= chars@.len(),
            out@ == chars@.subrange(from as int, i as int),
        decreases to - i,
    {
        out.push(chars[i]);
        i = i + 1;
        assert(chars@.subrange(from as int, i as int) =~= chars@.subrange(
            from as int,
            i - 1,
        ).push(chars@[i - 1]));
    }
    out
}

/// The text that `{:?}` gives of a string: in quotes, with escapes.
pub uninterp spec fn quoted(s: Seq<char>) -> Seq<char>;

/// The text that `format!("{:?}", s)` gives.
#[verifier::external_body]
pub(crate) fn quote(s: &str) -> (r: String)
    ensures
        r@ == quoted(s@),
{
    format!("{s:?}")
}

/// Keys are ordered by their bytes as words are in a dictionary: the first byte in
/// which they differ decides, and a key comes before every longer one that starts
/// with it.
pub proof fn law_keys_stand_in_dictionary_order(
    start: Seq<u8>,
    x: u8,
    y: u8,
    rest: Seq<u8>,
    more: Seq<u8>,
)
    ensures
        x != y ==> (bytes_before(start + seq![x] + rest, start + seq![y] + more) <==> x < y),
        bytes_before(start, start + rest) <==> rest.len() > 0,
        !bytes_before(start + rest, start),
{
    let a = start + seq![x] + rest;
    let b = start + seq![y] + more;
    let n = start.len() as int;
    assert(a[n] == x && b[n] == y);
    assert(a.take(n) =~= start && b.take(n) =~= start);
    if x < y {
        assert(smaller_at(a, b, n));
    }
    if x > y && bytes_before(a, b) {
        let i = choose|i: int| smaller_at(a, b, i);
        if i < n {
            assert(a[i] == start[i] && b[i] == start[i]);
        } else if i > n {
            assert(a.take(i)[n] == x && b.take(i)[n] == y);
        }
    }
    let longer = start + rest;
    if rest.len() > 0 {
        assert(longer.take(n) =~= start.take(n));
        assert(smaller_at(start, longer, n));
    } else {
        assert(longer =~= start);
    }
    if bytes_before(start, longer) {
        let i = choose|i: int| smaller_at(start, longer, i);
        if rest.len() == 0 {
            assert(start[i] == longer[i]);
        }
    }
    if bytes_before(longer, start) {
        let i = choose|i: int| smaller_at(longer, start, i);
        if i < n {
            assert(longer[i] == start[i]);
        }
    }
}

/// Keys are ordered by the bytes of their UTF-8 form.
pub proof fn law_keys_are_ordered_by_their_bytes(a: Seq<char>, b: Seq<char>)
    ensures
        key_before(a, b) <==> bytes_before(encode_utf8(a), encode_utf8(b)),
{
}

} // verus!
