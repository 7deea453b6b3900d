use vstd::prelude::*;
use crate::node::{same_id, LoadTable, NodeInfo};
use crate::ring::{id_compare, id_value, NodeId};

verus! {

/// Whether `pool[j]` is the first entry of `pool` with its identifier.
pub open spec fn first_with_id(pool: Seq<NodeInfo>, j: int) -> bool {
    &&& 0 <= j < pool.len()
    &&& forall|k: int| 0 <= k < j ==> (#[trigger] pool[k]).id != pool[j].id
}

/// Whether `x` is in `pool` as the first entry with its identifier.
#[verifier::opaque]
pub open spec fn is_first_entry(pool: Seq<NodeInfo>, x: NodeInfo) -> bool {
    exists|j: int| first_with_id(pool, j) && pool[j] == x
}

/// Whether `id` is one of `ids`.
pub open spec fn id_listed(ids: Seq<NodeId>, id: NodeId) -> bool {
    exists|k: int| 0 <= k < ids.len() && ids[k] == id
}

/// Whether `r` lists, in ascending identifier order, one entry for each identifier of
/// `pool` that is not in `exclude`: the first entry of `pool` with that identifier.
pub open spec fn is_unique_sorted_of(r: Seq<NodeInfo>, pool: Seq<NodeInfo>, exclude: Seq<NodeId>) -> bool {
    &&& strictly_ascending(r)
    &&& forall|a: int| 0 <= a < r.len() ==> is_first_entry(pool, #[trigger] r[a])
    &&& forall|a: int| 0 <= a < r.len() ==> !id_listed(exclude, (#[trigger] r[a]).id)
    &&& forall|j: int|
        0 <= j < pool.len() && !id_listed(exclude, pool[j].id) ==> exists|a: int|
            0 <= a < r.len() && (#[trigger] r[a]).id == (#[trigger] pool[j]).id
}

/// Whether `id` is among `ids`.
pub fn id_in(ids: &Vec<NodeId>, id: &NodeId) -> (r: bool)
    ensures
        r == id_listed(ids@, *id),
{
    let mut k: usize = 0;
    while k < ids.len()
        invariant
            k <= ids@.len(),
            forall|m: int| 0 <= m < k ==> ids@[m] != *id,
        decreases ids@.len() - k,
    {
        if same_id(&ids[k], id) {
            return true;
        }
        k = k + 1;
    }
    false
}

/// Whether the identifiers of `r` strictly ascend.
pub open spec fn strictly_ascending(r: Seq<NodeInfo>) -> bool {
    forall|a: int, b: int| 0 <= a < b < r.len() ==> id_value(r[a].id) < id_value(r[b].id)
}

/// Inserts `candidate` into a list in strictly ascending identifier order unless its
/// identifier is already there; returns whether it was inserted.
fn insert_unique_sorted(r: &mut Vec<NodeInfo>, candidate: &NodeInfo) -> (inserted: bool)
    requires
        strictly_ascending(old(r)@),
    ensures
        strictly_ascending(final(r)@),
        inserted <==> forall|a: int| 0 <= a < old(r)@.len() ==> (#[trigger] old(r)@[a]).id != candidate.id,
        !inserted ==> final(r)@ == old(r)@,
        inserted ==> exists|pos: int| 0 <= pos <= old(r)@.len() && final(r)@ == old(r)@.insert(pos, *candidate),
{
    let mut pos: usize = 0;
    let mut present = false;
    while pos < r.len()
        invariant_except_break
            !present,
        invariant
            pos <= r@.len(),
            r@ == old(r)@,
            strictly_ascending(r@),
            forall|a: int| 0 <= a < pos ==> id_value(#[trigger] r@[a].id) < id_value(candidate.id),
        ensures
            pos <= r@.len(),
            r@ == old(r)@,
            present ==> pos < r@.len() && r@[pos as int].id == candidate.id,
            !present ==> forall|a: int| 0 <= a < pos ==> id_value(#[trigger] r@[a].id) < id_value(candidate.id),
            !present && pos < r@.len() ==> id_value(candidate.id) < id_value(r@[pos as int].id),
        decreases r@.len() - pos,
    {
        let c = id_compare(&r[pos].id, &candidate.id);
        if c == 0 {
            present = true;
            assert(r@[pos as int].id =~= candidate.id);
            break;
        }
        if c > 0 {
            break;
        }
        pos = pos + 1;
    }
    if present {
        return false;
    }
    proof {
        assert forall|a: int| 0 <= a < r@.len() implies (#[trigger] r@[a]).id != candidate.id by {
            if a >= pos {
                assert(id_value(r@[pos as int].id) <= id_value(r@[a].id));
            }
        }
    }
    let ghost before = r@;
    r.insert(pos, candidate.copied());
    proof {
        before.insert_ensures(pos as int, *candidate);
        assert(r@ == before.insert(pos as int, *candidate));
        assert forall|a: int, b: int| 0 <= a < b < r@.len() implies id_value(r@[a].id) < id_value(r@[b].id) by {
            if a < pos && b > pos {
                assert(r@[b] == before[b - 1]);
            } else if a == pos as int {
                assert(r@[b] == before[b - 1]);
                assert(id_value(before[pos as int].id) <= id_value(before[b - 1].id));
            } else if b == pos as int {
            } else if a > pos {
                assert(r@[a] == before[a - 1]);
                assert(r@[b] == before[b - 1]);
            }
        }
    }
    true
}

/// What `unique_by_id` has built after looking at the first `j` entries of `pool`:
/// `src[a]` is where `r[a]` comes from in `pool`, and `w[i]` is where the identifier of
/// `pool[i]` sits in `r`.
pub open spec fn unique_prefix(
    r: Seq<NodeInfo>,
    pool: Seq<NodeInfo>,
    exclude: Seq<NodeId>,
    j: int,
    src: Seq<int>,
    w: Seq<int>,
) -> bool {
    &&& strictly_ascending(r)
    &&& src.len() == r.len()
    &&& w.len() == j
    &&& forall|a: int|
        0 <= a < r.len() ==> {
            &&& 0 <= #[trigger] src[a] < j
            &&& first_with_id(pool, src[a])
            &&& pool[src[a]] == r[a]
            &&& !id_listed(exclude, r[a].id)
        }
    &&& forall|i: int|
        0 <= i < j && !id_listed(exclude, pool[i].id) ==> 0 <= #[trigger] w[i] < r.len() && r[w[i]].id == pool[i].id
}

proof fn lemma_unique_step_inserted(
    r: Seq<NodeInfo>,
    before: Seq<NodeInfo>,
    pool: Seq<NodeInfo>,
    exclude: Seq<NodeId>,
    j: int,
    pos: int,
    src: Seq<int>,
    w: Seq<int>,
) -> (res: (Seq<int>, Seq<int>))
    requires
        0 <= j < pool.len(),
        unique_prefix(before, pool, exclude, j, src, w),
        strictly_ascending(r),
        !id_listed(exclude, pool[j].id),
        forall|a: int| 0 <= a < before.len() ==> (#[trigger] before[a]).id != pool[j].id,
        0 <= pos <= before.len(),
        r == before.insert(pos, pool[j]),
    ensures
        unique_prefix(r, pool, exclude, j + 1, res.0, res.1),
{
    before.insert_ensures(pos, pool[j]);
    assert(first_with_id(pool, j)) by {
        assert forall|k: int| 0 <= k < j implies (#[trigger] pool[k]).id != pool[j].id by {
            if pool[k].id == pool[j].id {
                assert(before[w[k]].id == pool[k].id);
            }
        }
    }
    let src2 = src.insert(pos, j);
    src.insert_ensures(pos, j);
    let w2 = Seq::new(j as nat, |i: int| if w[i] >= pos { w[i] + 1 } else { w[i] }).push(pos);
    assert forall|a: int| 0 <= a < r.len() implies {
        &&& 0 <= #[trigger] src2[a] < j + 1
        &&& first_with_id(pool, src2[a])
        &&& pool[src2[a]] == r[a]
        &&& !id_listed(exclude, r[a].id)
    } by {
        if a < pos {
            assert(r[a] == before[a]);
            assert(src2[a] == src[a]);
        } else if a > pos {
            assert(r[a] == before[a - 1]);
            assert(src2[a] == src[a - 1]);
        }
    }
    assert forall|i: int|
        0 <= i < j + 1 && !id_listed(exclude, pool[i].id) implies 0 <= #[trigger] w2[i] < r.len() && r[w2[i]].id
            == pool[i].id by {
        if i < j {
            if w[i] >= pos {
                assert(r[w[i] + 1] == before[w[i]]);
            } else {
                assert(r[w[i]] == before[w[i]]);
            }
        }
    }
    (src2, w2)
}

proof fn lemma_unique_step_kept(
    r: Seq<NodeInfo>,
    pool: Seq<NodeInfo>,
    exclude: Seq<NodeId>,
    j: int,
    src: Seq<int>,
    w: Seq<int>,
    at: int,
) -> (w2: Seq<int>)
    requires
        0 <= j < pool.len(),
        unique_prefix(r, pool, exclude, j, src, w),
        id_listed(exclude, pool[j].id) || (0 <= at < r.len() && r[at].id == pool[j].id),
    ensures
        unique_prefix(r, pool, exclude, j + 1, src, w2),
{
    let w2 = w.push(at);
    assert forall|i: int|
        0 <= i < j + 1 && !id_listed(exclude, pool[i].id) implies 0 <= #[trigger] w2[i] < r.len() && r[w2[i]].id
            == pool[i].id by {
        if i < j {
            assert(w2[i] == w[i]);
        }
    }
    w2
}

proof fn lemma_unique_done(r: Seq<NodeInfo>, pool: Seq<NodeInfo>, exclude: Seq<NodeId>, src: Seq<int>, w: Seq<int>)
    requires
        unique_prefix(r, pool, exclude, pool.len() as int, src, w),
    ensures
        is_unique_sorted_of(r, pool, exclude),
{
    assert forall|a: int| 0 <= a < r.len() implies is_first_entry(pool, #[trigger] r[a]) by {
        reveal(is_first_entry);
        let k = src[a];
        assert(first_with_id(pool, k) && pool[k] == r[a]);
    }
    assert forall|a: int| 0 <= a < r.len() implies !id_listed(exclude, (#[trigger] r[a]).id) by {
        assert(0 <= src[a]);
    }
    assert forall|i: int|
        0 <= i < pool.len() && !id_listed(exclude, pool[i].id) implies exists|a: int|
            0 <= a < r.len() && (#[trigger] r[a]).id == (#[trigger] pool[i]).id by {
        assert(r[w[i]].id == pool[i].id);
    }
}

/// The entries of `pool` with distinct identifiers outside `exclude`, in ascending
/// identifier order, keeping the first entry for each identifier.
pub fn unique_by_id(pool: &Vec<NodeInfo>, exclude: &Vec<NodeId>) -> (r: Vec<NodeInfo>)
    ensures
        is_unique_sorted_of(r@, pool@, exclude@),
{
    let mut r: Vec<NodeInfo> = Vec::new();
    let ghost mut src: Seq<int> = Seq::empty();
    let ghost mut w: Seq<int> = Seq::empty();
    let mut j: usize = 0;
    while j < pool.len()
        invariant
            j <= pool@.len(),
            unique_prefix(r@, pool@, exclude@, j as int, src, w),
        decreases pool@.len() - j,
    {
        let candidate = &pool[j];
        let ghost before = r@;
        if !id_in(exclude, &candidate.id) {
            let inserted = insert_unique_sorted(&mut r, candidate);
            proof {
                if inserted {
                    let pos = choose|pos: int| 0 <= pos <= before.len() && r@ == before.insert(pos, *candidate);
                    let res = lemma_unique_step_inserted(r@, before, pool@, exclude@, j as int, pos, src, w);
                    src = res.0;
                    w = res.1;
                } else {
                    let a = choose|a: int| 0 <= a < before.len() && !((#[trigger] before[a]).id != candidate.id);
                    w = lemma_unique_step_kept(r@, pool@, exclude@, j as int, src, w, a);
                }
            }
        } else {
            proof {
                w = lemma_unique_step_kept(r@, pool@, exclude@, j as int, src, w, 0);
            }
        }
        j = j + 1;
    }
    proof {
        lemma_unique_done(r@, pool@, exclude@, src, w);
    }
    r
}

/// The load key of a node, or `default` when no load was reported for it.
pub open spec fn load_key(loads: Map<NodeId, u32>, id: NodeId, default: u32) -> u32 {
    if loads.dom().contains(id) {
        loads[id]
    } else {
        default
    }
}

/// Whether `r` is `s` stably sorted by load: `r[a] == s[p[a]]` for a permutation `p`,
/// and entries come in ascending load order, ties in their order in `s`.
pub open spec fn is_load_order_by(
    p: Seq<int>,
    r: Seq<NodeInfo>,
    s: Seq<NodeInfo>,
    loads: Map<NodeId, u32>,
    default: u32,
) -> bool {
    &&& p.len() == s.len()
    &&& r.len() == s.len()
    &&& forall|a: int| 0 <= a < p.len() ==> 0 <= #[trigger] p[a] < s.len()
    &&& forall|a: int, b: int| 0 <= a < b < p.len() ==> p[a] != p[b]
    &&& forall|a: int| 0 <= a < r.len() ==> #[trigger] r[a] == s[p[a]]
    &&& forall|a: int, b: int|
        0 <= a < b < r.len() ==> load_key(loads, r[a].id, default) < load_key(loads, r[b].id, default)
            || (load_key(loads, r[a].id, default) == load_key(loads, r[b].id, default) && p[a] < p[b])
}

/// Whether `r` is `s` stably sorted by load.
pub open spec fn is_load_order(r: Seq<NodeInfo>, s: Seq<NodeInfo>, loads: Map<NodeId, u32>, default: u32) -> bool {
    exists|p: Seq<int>| is_load_order_by(p, r, s, loads, default)
}

/// Sorts `s` stably by load, least loaded first; a node with no reported load counts
/// as `default`.
pub fn order_by_load(s: &Vec<NodeInfo>, loads: &LoadTable, default: u32) -> (r: Vec<NodeInfo>)
    requires
        loads.wf(),
    ensures
        is_load_order(r@, s@, loads@, default),
{
    let n = s.len();
    let mut keys: Vec<u32> = Vec::new();
    let mut i: usize = 0;
    while i < n
        invariant
            loads.wf(),
            n == s@.len(),
            i <= n,
            keys@.len() == i,
            forall|k: int| 0 <= k < i ==> keys@[k] == load_key(loads@, s@[k].id, default),
        decreases n - i,
    {
        keys.push(loads.key_or(&s[i].id, default));
        i = i + 1;
    }
    let mut used: Vec<bool> = Vec::new();
    let mut k: usize = 0;
    while k < n
        invariant
            k <= n,
            used@.len() == k,
            forall|m: int| 0 <= m < k ==> !used@[m],
        decreases n - k,
    {
        used.push(false);
        k = k + 1;
    }
    let mut r: Vec<NodeInfo> = Vec::new();
    let ghost mut p: Seq<int> = Seq::empty();
    let mut round: usize = 0;
    while round < n
        invariant
            n == s@.len(),
            round <= n,
            keys@.len() == n,
            used@.len() == n,
            forall|k: int| 0 <= k < n ==> keys@[k] == load_key(loads@, s@[k].id, default),
            p.len() == round,
            r@.len() == round,
            forall|a: int| 0 <= a < round ==> 0 <= #[trigger] p[a] < n && used@[p[a]],
            forall|a: int, b: int| 0 <= a < b < round ==> p[a] != p[b],
            forall|m: int| 0 <= m < n && used@[m] ==> exists|a: int| 0 <= a < round && #[trigger] p[a] == m,
            forall|a: int| 0 <= a < round ==> #[trigger] r@[a] == s@[p[a]],
            forall|a: int, b: int|
                0 <= a < b < round ==> keys@[p[a]] < keys@[p[b]] || (keys@[p[a]] == keys@[p[b]] && p[a] < p[b]),
            forall|a: int, m: int|
                #![trigger p[a], used@[m]]
                0 <= a < round && 0 <= m < n && !used@[m] ==> keys@[p[a]] < keys@[m] || (keys@[p[a]] == keys@[m] && p[a] < m),
        decreases n - round,
    {
        let mut best: usize = n;
        let mut m: usize = 0;
        while m < n
            invariant
                n == s@.len(),
                keys@.len() == n,
                used@.len() == n,
                m <= n,
                best == n || (best < m && !used@[best as int]),
                best == n ==> forall|x: int| 0 <= x < m ==> used@[x],
                best < n ==> forall|x: int|
                    0 <= x < m && !used@[x] ==> keys@[best as int] < keys@[x] || (keys@[best as int] == keys@[x] && best <= x),
            decreases n - m,
        {
            if !used[m] {
                if best == n || keys[m] < keys[best] {
                    best = m;
                }
            }
            m = m + 1;
        }
        proof {
            if best == n {
                let x = lemma_injective_misses(p, round as int, n as int);
                assert(used@[x]);
            }
        }
        let ghost old_used = used@;
        let ghost old_p = p;
        used.set(best, true);
        r.push(s[best].copied());
        proof {
            p = p.push(best as int);
            assert forall|a: int, mm: int|
                #![trigger p[a], used@[mm]]
                0 <= a < round + 1 && 0 <= mm < n && !used@[mm] implies keys@[p[a]] < keys@[mm]
                    || (keys@[p[a]] == keys@[mm] && p[a] < mm) by {
                assert(!old_used[mm]);
                if a < round {
                } else {
                    assert(p[a] == best as int);
                    assert(mm != best as int);
                }
            }
            assert forall|mm: int| 0 <= mm < n && used@[mm] implies exists|a: int| 0 <= a < round + 1 && #[trigger] p[a] == mm by {
                if mm == best as int {
                    assert(p[round as int] == mm);
                } else {
                    assert(old_used[mm]);
                    let a = choose|a: int| 0 <= a < round && #[trigger] old_p[a] == mm;
                    assert(p[a] == mm);
                }
            }
            assert forall|a: int, b: int| 0 <= a < b < round + 1 implies p[a] != p[b] by {
                if b == round as int {
                    assert(old_used[p[a]]);
                }
            }
        }
        round = round + 1;
    }
    proof {
        assert(is_load_order_by(p, r@, s@, loads@, default));
    }
    r
}

spec fn hits(p: Seq<int>, count: int, x: int) -> bool {
    exists|a: int| 0 <= a < count && #[trigger] p[a] == x
}

/// An injective map from `0..count` into `0..bound` with `count < bound` misses some
/// value below `bound`.
proof fn lemma_injective_misses(p: Seq<int>, count: int, bound: int) -> (x: int)
    requires
        0 <= count,
        count < bound,
        p.len() == count,
        forall|a: int| 0 <= a < count ==> 0 <= #[trigger] p[a] < bound,
        forall|a: int, b: int| 0 <= a < b < count ==> p[a] != p[b],
    ensures
        0 <= x < bound,
        forall|a: int| 0 <= a < count ==> #[trigger] p[a] != x,
{
    if forall|x: int| 0 <= x < bound ==> #[trigger] hits(p, count, x) {
        let vals = p.to_set();
        let full = Set::new(|x: int| 0 <= x < bound);
        assert(full =~= vstd::set_lib::set_int_range(0, bound));
        vstd::set_lib::lemma_int_range(0, bound);
        assert forall|x: int| full.contains(x) implies vals.contains(x) by {
            assert(hits(p, count, x));
            let a = choose|a: int| 0 <= a < count && #[trigger] p[a] == x;
            assert(p.contains(x));
        }
        p.lemma_cardinality_of_set();
        vstd::seq_lib::seq_to_set_is_finite(p);
        vstd::set_lib::lemma_len_subset(full, vals);
    }
    let x = choose|x: int| !(0 <= x < bound ==> #[trigger] hits(p, count, x));
    x
}


/// Whether `r` lists, in the order of `pool`, the first entry of `pool` for each
/// identifier that is not in `exclude`.
pub open spec fn is_first_occurrences_of(r: Seq<NodeInfo>, pool: Seq<NodeInfo>, exclude: Seq<NodeId>) -> bool {
    exists|src: Seq<int>|
        {
            &&& src.len() == r.len()
            &&& forall|a: int, b: int| 0 <= a < b < src.len() ==> src[a] < src[b]
            &&& forall|a: int|
                0 <= a < r.len() ==> {
                    &&& first_with_id(pool, #[trigger] src[a])
                    &&& pool[src[a]] == r[a]
                    &&& !id_listed(exclude, r[a].id)
                }
            &&& forall|i: int|
                0 <= i < pool.len() && first_with_id(pool, i) && !id_listed(exclude, pool[i].id) ==> exists|a: int|
                    0 <= a < src.len() && #[trigger] src[a] == i
        }
}

/// The first entry of `pool` for each identifier outside `exclude`, in pool order.
pub fn first_occurrences(pool: &Vec<NodeInfo>, exclude: &Vec<NodeId>) -> (r: Vec<NodeInfo>)
    ensures
        is_first_occurrences_of(r@, pool@, exclude@),
{
    let mut r: Vec<NodeInfo> = Vec::new();
    let ghost mut src: Seq<int> = Seq::empty();
    let ghost mut w: Seq<int> = Seq::empty();
    let mut j: usize = 0;
    while j < pool.len()
        invariant
            j <= pool@.len(),
            src.len() == r@.len(),
            w.len() == j,
            forall|a: int, b: int| 0 <= a < b < src.len() ==> src[a] < src[b],
            forall|a: int|
                0 <= a < r@.len() ==> {
                    &&& 0 <= #[trigger] src[a] < j
                    &&& first_with_id(pool@, src[a])
                    &&& pool@[src[a]] == r@[a]
                    &&& !id_listed(exclude@, r@[a].id)
                },
            forall|i: int|
                0 <= i < j && !id_listed(exclude@, pool@[i].id) ==> 0 <= #[trigger] w[i] < r@.len() && r@[w[i]].id
                    == pool@[i].id && (first_with_id(pool@, i) ==> src[w[i]] == i),
        decreases pool@.len() - j,
    {
        let candidate = &pool[j];
        if id_in(exclude, &candidate.id) {
            proof {
                w = w.push(0);
            }
        } else {
            let mut k: usize = 0;
            let mut found = false;
            while k < r.len()
                invariant_except_break
                    !found,
                invariant
                    k <= r@.len(),
                    forall|a: int| 0 <= a < k ==> (#[trigger] r@[a]).id != candidate.id,
                ensures
                    k <= r@.len(),
                    found ==> k < r@.len() && r@[k as int].id == candidate.id,
                    !found ==> forall|a: int| 0 <= a < r@.len() ==> (#[trigger] r@[a]).id != candidate.id,
                decreases r@.len() - k,
            {
                if same_id(&r[k].id, &candidate.id) {
                    found = true;
                    break;
                }
                k = k + 1;
            }
            if found {
                proof {
                    let ghost old_w = w;
                    w = w.push(k as int);
                    assert(!first_with_id(pool@, j as int)) by {
                        let s = src[k as int];
                        assert(pool@[s].id == pool@[j as int].id);
                    }
                    assert forall|i: int|
                        0 <= i < j + 1 && !id_listed(exclude@, pool@[i].id) implies 0 <= #[trigger] w[i] < r@.len()
                            && r@[w[i]].id == pool@[i].id && (first_with_id(pool@, i) ==> src[w[i]] == i) by {
                        if i < j {
                            assert(w[i] == old_w[i]);
                        }
                    }
                }
            } else {
                proof {
                    assert(first_with_id(pool@, j as int)) by {
                        assert forall|i: int| 0 <= i < j implies (#[trigger] pool@[i]).id != pool@[j as int].id by {
                            if pool@[i].id == pool@[j as int].id {
                                assert(r@[w[i]].id == pool@[i].id);
                            }
                        }
                    }
                }
                let ghost old_r = r@;
                let ghost old_w = w;
                let ghost old_src = src;
                r.push(candidate.copied());
                proof {
                    src = src.push(j as int);
                    w = w.push(old_r.len() as int);
                    assert forall|a: int| 0 <= a < r@.len() implies {
                        &&& 0 <= #[trigger] src[a] < j + 1
                        &&& first_with_id(pool@, src[a])
                        &&& pool@[src[a]] == r@[a]
                        &&& !id_listed(exclude@, r@[a].id)
                    } by {
                        if a < old_r.len() {
                            assert(src[a] == old_src[a]);
                            assert(r@[a] == old_r[a]);
                        }
                    }
                    assert forall|i: int|
                        0 <= i < j + 1 && !id_listed(exclude@, pool@[i].id) implies 0 <= #[trigger] w[i] < r@.len()
                            && r@[w[i]].id == pool@[i].id && (first_with_id(pool@, i) ==> src[w[i]] == i) by {
                        if i < j {
                            assert(w[i] == old_w[i]);
                            assert(r@[old_w[i]] == old_r[old_w[i]]);
                            assert(src[old_w[i]] == old_src[old_w[i]]);
                        }
                    }
                }
            }
        }
        j = j + 1;
    }
    proof {
        assert forall|i: int|
            0 <= i < pool@.len() && first_with_id(pool@, i) && !id_listed(exclude@, pool@[i].id) implies exists|a: int|
                0 <= a < src.len() && #[trigger] src[a] == i by {
            assert(src[w[i]] == i);
        }
    }
    r
}

} // verus!
