use vstd::prelude::*;
use crate::ring::{id_compare, id_value, NodeId};
use sha1::{Digest, Sha1};
use vstd::string::StringSliceAdditionalSpecFns;

verus! {

/// The SHA-1 digest of a byte string, 20 bytes.
pub uninterp spec fn sha1_of(bytes: Seq<u8>) -> Seq<u8>;

/// SHA-1 of a byte string (`Sha1::new`, `update`, `finalize`).
#[verifier::external_body]
pub(crate) fn sha1_digest(bytes: &[u8]) -> (r: NodeId)
    ensures
        r@ == sha1_of(bytes@),
{
    let mut hasher = Sha1::new();
    hasher.update(bytes);
    hasher.finalize().into()
}

/// The decimal digits of `n`, most significant first, as ASCII bytes.
pub open spec fn decimal_bytes(n: nat) -> Seq<u8>
    decreases n,
{
    if n < 10 {
        seq![(48 + n) as u8]
    } else {
        decimal_bytes(n / 10).push((48 + n % 10) as u8)
    }
}

/// Writes `n` in decimal ASCII digits.
pub fn decimal_text(n: usize) -> (r: Vec<u8>)
    ensures
        r@ == decimal_bytes(n as nat),
    decreases n,
{
    if n < 10 {
        let d: u8 = (48 + n) as u8;
        let mut v: Vec<u8> = Vec::new();
        v.push(d);
        assert(v@ =~= seq![d]);
        v
    } else {
        let mut v = decimal_text(n / 10);
        let d: u8 = (48 + n % 10) as u8;
        v.push(d);
        v
    }
}

/// The bytes hashed for virtual node `i` of the node at `address`: the address,
/// a colon, and `i` in decimal.
pub open spec fn virtual_node_key(address: Seq<u8>, i: nat) -> Seq<u8> {
    address + seq![58u8] + decimal_bytes(i)
}

/// Builds the key hashed for virtual node `i`.
pub fn virtual_key_bytes(address: &[u8], i: usize) -> (r: Vec<u8>)
    ensures
        r@ == virtual_node_key(address@, i as nat),
{
    let mut key: Vec<u8> = Vec::new();
    let mut k: usize = 0;
    while k < address.len()
        invariant
            k <= address@.len(),
            key@ == address@.subrange(0, k as int),
        decreases address@.len() - k,
    {
        key.push(address[k]);
        k = k + 1;
        assert(key@ =~= address@.subrange(0, k as int));
    }
    key.push(58u8);
    let digits = decimal_text(i);
    let mut j: usize = 0;
    let ghost prefix = key@;
    assert(prefix =~= address@ + seq![58u8]);
    while j < digits.len()
        invariant
            j <= digits@.len(),
            key@ == prefix + digits@.subrange(0, j as int),
        decreases digits@.len() - j,
    {
        key.push(digits[j]);
        j = j + 1;
        assert(key@ =~= prefix + digits@.subrange(0, j as int));
    }
    assert(digits@.subrange(0, digits@.len() as int) =~= digits@);
    key
}

/// Whether the identifiers are in ascending ring order.
pub open spec fn ids_ascending(s: Seq<NodeId>) -> bool {
    forall|a: int, b: int| 0 <= a < b < s.len() ==> id_value(s[a]) <= id_value(s[b])
}

/// Inserts `id` into an ascending sequence, after every identifier not above it.
pub fn insert_ascending(v: &mut Vec<NodeId>, id: NodeId)
    requires
        ids_ascending(old(v)@),
    ensures
        ids_ascending(final(v)@),
        final(v)@.to_multiset() == old(v)@.to_multiset().insert(id),
        final(v)@.len() == old(v)@.len() + 1,
{
    let mut pos: usize = 0;
    while pos < v.len()
        invariant
            pos <= v@.len(),
            v@ == old(v)@,
            forall|a: int| 0 <= a < pos ==> id_value(#[trigger] v@[a]) <= id_value(id),
        ensures
            pos <= v@.len(),
            v@ == old(v)@,
            forall|a: int| 0 <= a < pos ==> id_value(#[trigger] v@[a]) <= id_value(id),
            pos < v@.len() ==> id_value(id) < id_value(v@[pos as int]),
        decreases v@.len() - pos,
    {
        let c = id_compare(&v[pos], &id);
        if c > 0 {
            break;
        }
        pos = pos + 1;
    }
    proof {
        if pos < v@.len() {
            assert forall|a: int| pos <= a < v@.len() implies id_value(id) < id_value(
                #[trigger] v@[a],
            ) by {
                assert(id_value(v@[pos as int]) <= id_value(v@[a]));
            }
        }
    }
    let ghost before = v@;
    v.insert(pos, id);
    proof {
        before.insert_ensures(pos as int, id);
        assert(v@ == before.insert(pos as int, id));
        assert forall|a: int, b: int| 0 <= a < b < v@.len() implies id_value(v@[a]) <= id_value(
            v@[b],
        ) by {
            if a < pos && b > pos {
                assert(v@[b] == before[b - 1]);
            } else if a == pos as int {
                assert(v@[b] == before[b - 1]);
            } else if b == pos as int {
            } else if a > pos {
                assert(v@[a] == before[a - 1]);
                assert(v@[b] == before[b - 1]);
            }
        }
        assert(v@.remove(pos as int) =~= before);
        v@.to_multiset_ensures();
        assert(v@.to_multiset().remove(id) == before.to_multiset());
        assert(v@.to_multiset().count(id) > 0) by {
            assert(v@.contains(id)) by {
                assert(v@[pos as int] == id);
            }
        }
        assert(v@.to_multiset() =~= before.to_multiset().insert(id));
    }
}

/// The 32 virtual node identifiers of the node whose address has the bytes
/// `address`, in ascending order: a reordering of the SHA-1 digests of `address:0`
/// to `address:31`.
pub open spec fn is_virtual_node_set(address: Seq<u8>, r: Seq<NodeId>) -> bool {
    &&& r.len() == 32
    &&& ids_ascending(r)
    &&& exists|made: Seq<NodeId>|
        {
            &&& made.len() == 32
            &&& forall|k: int| 0 <= k < 32 ==> (#[trigger] made[k])@ == sha1_of(virtual_node_key(address, k as nat))
            &&& r.to_multiset() == made.to_multiset()
        }
}

/// Generates the virtual node identifiers of the node at `address`.
pub fn generate_virtual_nodes(address: &str) -> (r: Vec<NodeId>)
    ensures
        is_virtual_node_set(address.spec_bytes(), r@),
{
    let bytes = address.as_bytes();
    let mut nodes: Vec<NodeId> = Vec::new();
    let ghost mut made: Seq<NodeId> = Seq::empty();
    let mut i: usize = 0;
    while i < 32
        invariant
            i <= 32,
            nodes@.len() == i,
            made.len() == i,
            ids_ascending(nodes@),
            forall|k: int| 0 <= k < i ==> (#[trigger] made[k])@ == sha1_of(virtual_node_key(bytes@, k as nat)),
            nodes@.to_multiset() == made.to_multiset(),
        decreases 32 - i,
    {
        let key = virtual_key_bytes(bytes, i);
        let id = sha1_digest(key.as_slice());
        insert_ascending(&mut nodes, id);
        proof {
            made.to_multiset_ensures();
            made = made.push(id);
        }
        i = i + 1;
    }
    nodes
}

} // verus!
