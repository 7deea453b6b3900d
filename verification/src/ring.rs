use vstd::prelude::*;
use vstd::arithmetic::power2::*;
use vstd::arithmetic::div_mod::*;

verus! {

/// A 160-bit identifier on the Chord ring, in big-endian byte order.
pub type NodeId = [u8; 20];

/// The number of bits of an identifier.
pub const ID_BITS: usize = 160;

/// The number of bytes of an identifier.
pub const ID_BYTES: usize = 20;

/// The value of a big-endian byte sequence.
pub open spec fn be_value(s: Seq<u8>) -> nat
    decreases s.len(),
{
    if s.len() == 0 {
        0
    } else {
        s[0] as nat * pow256((s.len() - 1) as nat) + be_value(s.skip(1))
    }
}

/// 256 to the power `n`.
pub open spec fn pow256(n: nat) -> nat
    decreases n,
{
    if n == 0 {
        1
    } else {
        256 * pow256((n - 1) as nat)
    }
}

/// The position of an identifier on the ring.
pub open spec fn id_value(id: NodeId) -> nat {
    be_value(id@)
}

/// Whether `x` lies in the half-open ring interval `(start, end]`; the interval is
/// empty when `start == end`.
pub open spec fn in_interval(x: nat, start: nat, end: nat) -> bool {
    if start == end {
        false
    } else if start < end {
        start < x && x <= end
    } else {
        start < x || x <= end
    }
}

pub proof fn lemma_be_value_bound(s: Seq<u8>)
    ensures
        be_value(s) < pow256(s.len()),
    decreases s.len(),
{
    if s.len() > 0 {
        let p = pow256((s.len() - 1) as nat);
        lemma_be_value_bound(s.skip(1));
        let a = s[0] as nat;
        let r = be_value(s.skip(1));
        assert(a * p + r < 256 * p) by (nonlinear_arith)
            requires
                a <= 255,
                r < p,
        ;
    }
}

/// Compares two byte sequences of equal length as big-endian numbers:
/// a smaller first differing byte gives a smaller value.
proof fn lemma_be_first_byte_order(a: Seq<u8>, b: Seq<u8>)
    requires
        a.len() == b.len(),
        a.len() > 0,
        a[0] < b[0],
    ensures
        be_value(a) < be_value(b),
{
    let p = pow256((a.len() - 1) as nat);
    lemma_be_value_bound(a.skip(1));
    let x = a[0] as nat;
    let y = b[0] as nat;
    let ra = be_value(a.skip(1));
    let rb = be_value(b.skip(1));
    assert(x * p + ra < y * p + rb) by (nonlinear_arith)
        requires
            x < y,
            ra < p,
    ;
}

/// Compares two identifiers: -1 when `a` precedes `b`, 0 when they are equal,
/// 1 when `a` follows `b`.
pub fn id_compare(a: &NodeId, b: &NodeId) -> (r: i8)
    ensures
        r == -1 || r == 0 || r == 1,
        (r == 0) <==> (a@ == b@),
        (r == -1) <==> id_value(*a) < id_value(*b),
        (r == 1) <==> id_value(*a) > id_value(*b),
{
    let mut i: usize = 0;
    assert(a@.skip(0) =~= a@);
    assert(b@.skip(0) =~= b@);
    while i < ID_BYTES
        invariant
            0 <= i <= 20,
            a@.len() == 20,
            b@.len() == 20,
            forall|j: int| 0 <= j < i ==> a@[j] == b@[j],
            be_value(a@.skip(i as int)) < be_value(b@.skip(i as int)) <==> id_value(*a) < id_value(*b),
            be_value(a@.skip(i as int)) > be_value(b@.skip(i as int)) <==> id_value(*a) > id_value(*b),
        decreases 20 - i,
    {
        let x = a[i];
        let y = b[i];
        proof {
            let sa = a@.skip(i as int);
            let sb = b@.skip(i as int);
            assert(sa.skip(1) =~= a@.skip(i + 1));
            assert(sb.skip(1) =~= b@.skip(i + 1));
            assert(sa[0] == x);
            assert(sb[0] == y);
            if x < y {
                lemma_be_first_byte_order(sa, sb);
            } else if x > y {
                lemma_be_first_byte_order(sb, sa);
            }
        }
        if x < y {
            return -1;
        }
        if x > y {
            return 1;
        }
        i = i + 1;
    }
    assert(a@ =~= b@);
    0
}

/// Whether `id` lies in the ring interval `(start, end]`.
pub fn is_between(id: &NodeId, start: &NodeId, end: &NodeId) -> (r: bool)
    ensures
        r == in_interval(id_value(*id), id_value(*start), id_value(*end)),
{
    let se = id_compare(start, end);
    if se == 0 {
        return false;
    }
    let si = id_compare(start, id);
    let ie = id_compare(id, end);
    if se < 0 {
        si < 0 && ie <= 0
    } else {
        si < 0 || ie <= 0
    }
}


/// The number of positions on the ring, 2^160.
pub open spec fn ring_size() -> nat {
    pow2(160)
}

pub proof fn lemma_pow256_is_pow2(n: nat)
    ensures
        pow256(n) == pow2(8 * n),
    decreases n,
{
    if n == 0 {
        lemma2_to64();
    } else {
        lemma_pow256_is_pow2((n - 1) as nat);
        lemma2_to64();
        lemma_pow2_adds(8, 8 * (n - 1) as nat);
        assert(8 + 8 * (n - 1) as nat == 8 * n);
    }
}

/// A byte sequence of zeros has value zero.
proof fn lemma_be_zeros(s: Seq<u8>)
    requires
        forall|k: int| 0 <= k < s.len() ==> s[k] == 0,
    ensures
        be_value(s) == 0,
    decreases s.len(),
{
    if s.len() > 0 {
        lemma_be_zeros(s.skip(1));
    }
}

/// Leading zero bytes do not change the value.
pub proof fn lemma_be_leading_zeros(z: Seq<u8>, s: Seq<u8>)
    requires
        forall|k: int| 0 <= k < z.len() ==> z[k] == 0,
    ensures
        be_value(z + s) == be_value(s),
    decreases z.len(),
{
    if z.len() > 0 {
        assert((z + s).skip(1) =~= z.skip(1) + s);
        lemma_be_leading_zeros(z.skip(1), s);
    } else {
        assert(z + s =~= s);
    }
}

/// A byte sequence with a single non-zero byte at `p`.
proof fn lemma_be_single_byte(s: Seq<u8>, p: int)
    requires
        0 <= p < s.len(),
        forall|k: int| 0 <= k < s.len() && k != p ==> s[k] == 0,
    ensures
        be_value(s) == s[p] as nat * pow256((s.len() - 1 - p) as nat),
    decreases s.len(),
{
    if p == 0 {
        lemma_be_zeros(s.skip(1));
    } else {
        lemma_be_single_byte(s.skip(1), p - 1);
    }
}

/// Byte-wise complement gives `256^n - 1 - value`.
proof fn lemma_be_complement(s: Seq<u8>, c: Seq<u8>)
    requires
        s.len() == c.len(),
        forall|k: int| 0 <= k < s.len() ==> c[k] == 255 - s[k],
    ensures
        be_value(c) + be_value(s) + 1 == pow256(s.len()),
    decreases s.len(),
{
    if s.len() > 0 {
        lemma_be_complement(s.skip(1), c.skip(1));
        let p = pow256((s.len() - 1) as nat);
        let x = s[0] as nat;
        let y = c[0] as nat;
        let rs = be_value(s.skip(1));
        let rc = be_value(c.skip(1));
        assert(y * p + rc + x * p + rs + 1 == 256 * p) by (nonlinear_arith)
            requires
                x + y == 255,
                rc + rs + 1 == p,
        ;
    }
}

/// Adds two identifiers and a carry bit, modulo the ring size.
fn add_ids_with_carry(a: &NodeId, b: &NodeId, carry_in: bool) -> (r: NodeId)
    ensures
        id_value(r) == (id_value(*a) + id_value(*b) + (if carry_in { 1nat } else { 0nat })) % ring_size(),
{
    let mut r: NodeId = [0u8; 20];
    let mut carry: u16 = if carry_in { 1 } else { 0 };
    let ghost cin: nat = if carry_in { 1nat } else { 0nat };
    let mut j: usize = 20;
    assert(a@.skip(20).len() == 0);
    assert(b@.skip(20).len() == 0);
    assert(r@.skip(20).len() == 0);
    while j > 0
        invariant
            j <= 20,
            carry <= 1,
            a@.len() == 20,
            b@.len() == 20,
            r@.len() == 20,
            be_value(a@.skip(j as int)) + be_value(b@.skip(j as int)) + cin == carry as nat * pow256(
                (20 - j) as nat,
            ) + be_value(r@.skip(j as int)),
        decreases j,
    {
        let ghost old_r = r@;
        j = j - 1;
        let sum: u16 = a[j] as u16 + b[j] as u16 + carry;
        let byte: u8 = (sum % 256) as u8;
        let next: u16 = sum / 256;
        r[j] = byte;
        let ghost old_carry = carry;
        carry = next;
        proof {
            let p = pow256((19 - j) as nat);
            assert(a@.skip(j as int).skip(1) =~= a@.skip(j + 1));
            assert(b@.skip(j as int).skip(1) =~= b@.skip(j + 1));
            assert(r@.skip(j as int).skip(1) =~= old_r.skip(j + 1));
            assert(a@.skip(j as int)[0] == a@[j as int]);
            assert(b@.skip(j as int)[0] == b@[j as int]);
            assert(r@.skip(j as int)[0] == byte);
            let x = a@[j as int] as nat;
            let y = b@[j as int] as nat;
            let c = old_carry as nat;
            let ra = be_value(a@.skip(j + 1));
            let rb = be_value(b@.skip(j + 1));
            let rr = be_value(old_r.skip(j + 1));
            assert(sum as nat == next as nat * 256 + byte as nat);
            assert(x * p + ra + y * p + rb + cin == next as nat * (256 * p) + (byte as nat * p + rr))
                by (nonlinear_arith)
                requires
                    ra + rb + cin == c * p + rr,
                    x + y + c == next as nat * 256 + byte as nat,
            ;
        }
    }
    proof {
        assert(a@.skip(0) =~= a@);
        assert(b@.skip(0) =~= b@);
        assert(r@.skip(0) =~= r@);
        lemma_be_value_bound(r@);
        lemma_pow256_is_pow2(20);
        lemma_pow2_pos(160);
        lemma_fundamental_div_mod_converse(
            (id_value(*a) + id_value(*b) + cin) as int,
            ring_size() as int,
            carry as int,
            id_value(r) as int,
        );
    }
    r
}

/// Computes `(id + 2^i) mod 2^160`.
pub fn add_id_power_of_2(id: &NodeId, i: usize) -> (r: NodeId)
    ensures
        id_value(r) == (id_value(*id) + pow2(i as nat)) % ring_size(),
{
    proof {
        lemma_be_value_bound(id@);
        lemma_pow256_is_pow2(20);
        lemma_pow2_pos(160);
    }
    if i >= ID_BITS {
        proof {
            lemma_pow2_adds(160, (i - 160) as nat);
            assert(160 + (i - 160) as nat == i as nat);
            lemma_mod_multiples_vanish(
                pow2((i - 160) as nat) as int,
                id_value(*id) as int,
                ring_size() as int,
            );
            lemma_small_mod(id_value(*id), ring_size());
            assert(pow2((i - 160) as nat) * pow2(160) == pow2(160) * pow2((i - 160) as nat))
                by (nonlinear_arith);
        }
        return *id;
    }
    let byte_index: usize = i / 8;
    let bit: usize = i % 8;
    let mut v: u8 = 1;
    let mut k: usize = 0;
    proof {
        lemma2_to64();
    }
    while k < bit
        invariant
            k <= bit,
            bit < 8,
            v as nat == pow2(k as nat),
        decreases bit - k,
    {
        proof {
            lemma_pow2_unfold((k + 1) as nat);
            lemma2_to64();
            lemma_pow2_strictly_increases(k as nat, 7);
        }
        v = v * 2;
        k = k + 1;
    }
    let mut addend: NodeId = [0u8; 20];
    let pos: usize = 19 - byte_index;
    addend[pos] = v;
    proof {
        lemma_be_single_byte(addend@, pos as int);
        lemma_pow256_is_pow2(byte_index as nat);
        lemma_pow2_adds(bit as nat, 8 * byte_index as nat);
        assert(bit + 8 * byte_index == i);
        assert((20 - 1 - pos) as nat == byte_index as nat);
    }
    add_ids_with_carry(id, &addend, false)
}

/// The clockwise distance from `from` to `to`: `(to - from) mod 2^160`.
pub fn ring_distance(from: &NodeId, to: &NodeId) -> (r: NodeId)
    ensures
        id_value(r) == (id_value(*to) + ring_size() - id_value(*from)) % (ring_size() as int),
{
    let mut complement: NodeId = [0u8; 20];
    let mut k: usize = 0;
    while k < ID_BYTES
        invariant
            k <= 20,
            complement@.len() == 20,
            from@.len() == 20,
            forall|m: int| 0 <= m < k ==> complement@[m] == 255 - from@[m],
        decreases 20 - k,
    {
        complement[k] = 255 - from[k];
        k = k + 1;
    }
    proof {
        lemma_be_complement(from@, complement@);
        lemma_pow256_is_pow2(20);
    }
    add_ids_with_carry(to, &complement, true)
}

/// Pads a big-endian byte string of at most 20 bytes with leading zeros.
pub fn node_id_from_be_bytes(bytes: &[u8]) -> (r: NodeId)
    requires
        bytes@.len() <= 20,
    ensures
        id_value(r) == be_value(bytes@),
        r@.subrange(20 - bytes@.len(), 20) == bytes@,
        forall|k: int| 0 <= k < 20 - bytes@.len() ==> r@[k] == 0,
{
    let mut r: NodeId = [0u8; 20];
    let start: usize = 20 - bytes.len();
    let mut k: usize = 0;
    while k < bytes.len()
        invariant
            k <= bytes@.len(),
            start == 20 - bytes@.len(),
            r@.len() == 20,
            forall|m: int| 0 <= m < start ==> r@[m] == 0,
            forall|m: int| 0 <= m < k ==> r@[start + m] == bytes@[m],
        decreases bytes@.len() - k,
    {
        r[start + k] = bytes[k];
        k = k + 1;
    }
    proof {
        assert(r@.subrange(start as int, 20) =~= bytes@);
        assert(r@ =~= r@.subrange(0, start as int) + bytes@);
        lemma_be_leading_zeros(r@.subrange(0, start as int), bytes@);
    }
    r
}

} // verus!
