//! Node ids: a hash of the author's id where there is one, a counter elsewhere.

use vstd::prelude::*;
use vstd::utf8::encode_utf8;

verus! {

/// The id of a node in the accessibility tree.
#[derive(Debug, Clone, Copy, PartialEq, Eq, PartialOrd, Ord, Hash, Structural)]
pub struct NodeId(pub u64);

/// The first id of the space of anonymous nodes: those with the high bit set.
pub const EPHEMERAL_NODE_ID_BASE: u64 = 0x8000_0000_0000_0000;

/// The id of the window that holds the scene.
pub open spec fn spec_root_node_id() -> NodeId {
    NodeId(0)
}

/// The id of the window that holds the scene.
pub fn root_node_id() -> (r: NodeId)
    ensures
        r == spec_root_node_id(),
{
    NodeId(0)
}

/// The 64-bit FNV-1a hash.
pub open spec fn fnv1a(bytes: Seq<u8>) -> u64
    decreases bytes.len(),
{
    if bytes.len() == 0 {
        0xcbf2_9ce4_8422_2325
    } else {
        (((fnv1a(bytes.drop_last()) ^ (bytes.last() as u64)) * 0x100_0000_01b3)
            % 0x1_0000_0000_0000_0000) as u64
    }
}

/// FNV-1a 64-bit hash: the same in every process.
pub fn fnv1a_64(bytes: &[u8]) -> (r: u64)
    ensures
        r == fnv1a(bytes@),
{
    let mut h: u64 = 0xcbf2_9ce4_8422_2325;
    let mut i: usize = 0;
    assert(bytes@.take(0) =~= Seq::<u8>::empty());
    while i < bytes.len()
        invariant
            i <= bytes@.len(),
            h == fnv1a(bytes@.take(i as int)),
        decreases bytes@.len() - i,
    {
        let x: u64 = h ^ (bytes[i] as u64);
        let wide: u128 = x as u128 * 0x100_0000_01b3u128;
        let next: u64 = (wide % 0x1_0000_0000_0000_0000u128) as u64;
        proof {
            let upto = bytes@.take(i + 1);
            assert(upto.drop_last() =~= bytes@.take(i as int));
        }
        h = next;
        i = i + 1;
    }
    assert(bytes@.take(i as int) =~= bytes@);
    h
}

/// The id of a node that its author named: the hash of the name without its
/// high bit, and never that of the window.
pub open spec fn named_id(name: Seq<char>) -> NodeId {
    let raw = fnv1a(encode_utf8(name)) % EPHEMERAL_NODE_ID_BASE;
    if raw == 0 {
        NodeId(1)
    } else {
        NodeId(raw)
    }
}

/// The id of the anonymous node with the number `counter`.
pub open spec fn ephemeral_id(counter: nat) -> NodeId {
    NodeId((EPHEMERAL_NODE_ID_BASE + counter % 0x8000_0000_0000_0000) as u64)
}

/// The id of a node: by its name, or by the number of anonymous nodes before.
pub open spec fn minted_id(name: Option<Seq<char>>, counter: nat) -> NodeId {
    match name {
        Some(s) => named_id(s),
        None => ephemeral_id(counter),
    }
}

/// Derive the stable id of a named node.
pub fn node_id_from_string(s: &str) -> (r: NodeId)
    ensures
        r == named_id(s@),
{
    let raw: u64 = fnv1a_64(s.as_bytes()) % EPHEMERAL_NODE_ID_BASE;
    let safe: u64 = if raw == 0 {
        1
    } else {
        raw
    };
    NodeId(safe)
}

/// Mint the id of a node: from its name if it has one, else from the counter,
/// which goes up by one.
pub fn mint_node_id(author_id: &Option<String>, next_ephemeral: &mut u128) -> (r: NodeId)
    requires
        author_id is None ==> *old(next_ephemeral) < u128::MAX,
    ensures
        r == minted_id(crate::scene::opt_text(*author_id), *old(next_ephemeral) as nat),
        *final(next_ephemeral) == *old(next_ephemeral) + (if author_id is None {
            1int
        } else {
            0int
        }),
{
    match author_id {
        Some(s) => node_id_from_string(s.as_str()),
        None => {
            let counter: u128 = *next_ephemeral;
            *next_ephemeral = counter + 1;
            let low: u64 = (counter % 0x8000_0000_0000_0000) as u64;
            NodeId(EPHEMERAL_NODE_ID_BASE + low)
        },
    }
}

/// Whether an id has the high bit, which marks the ids of anonymous nodes.
pub open spec fn is_ephemeral(id: NodeId) -> bool {
    id.0 >= EPHEMERAL_NODE_ID_BASE
}

/// Ids of named and anonymous nodes never meet, and neither is the id of the
/// window.
pub proof fn law_id_spaces_are_disjoint(name: Seq<char>, counter: nat)
    ensures
        !is_ephemeral(named_id(name)),
        is_ephemeral(ephemeral_id(counter)),
        named_id(name) != ephemeral_id(counter),
        named_id(name) != spec_root_node_id(),
        ephemeral_id(counter) != spec_root_node_id(),
{
}

/// Different anonymous nodes of one scene have different ids.
pub proof fn law_ephemeral_ids_are_distinct(a: nat, b: nat)
    requires
        a < 0x8000_0000_0000_0000,
        b < 0x8000_0000_0000_0000,
        a != b,
    ensures
        ephemeral_id(a) != ephemeral_id(b),
{
}

/// The hash of bytes is that of FNV-1a: it starts from the offset basis, and each
/// byte is joined in and the whole multiplied by the prime, in 64 bits.
pub proof fn law_the_hash_takes_byte_after_byte(bytes: Seq<u8>, b: u8)
    ensures
        fnv1a(Seq::empty()) == 14695981039346656037u64,
        fnv1a(bytes.push(b)) == ((fnv1a(bytes) ^ (b as u64)) * 1099511628211)
            % 18446744073709551616,
{
    assert(bytes.push(b).drop_last() =~= bytes);
}

/// The id of a named node is the hash of the bytes of its name without the high
/// bit, and one where that is zero. The ids of anonymous nodes count up from the
/// first with the high bit.
pub proof fn law_ids_are_hashes_and_numbers(name: Seq<char>, counter: nat)
    ensures
        named_id(name).0 as int == (if fnv1a(encode_utf8(name)) % 0x8000_0000_0000_0000 == 0 {
            1
        } else {
            fnv1a(encode_utf8(name)) % 0x8000_0000_0000_0000
        }),
        minted_id(Some(name), counter) == named_id(name),
        minted_id(None, counter) == ephemeral_id(counter),
        counter < 0x8000_0000_0000_0000 ==> ephemeral_id(counter).0 as int == 0x8000_0000_0000_0000
            + counter,
{
}

} // verus!
