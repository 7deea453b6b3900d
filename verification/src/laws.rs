use vstd::prelude::*;
use vstd::arithmetic::power2::{lemma_pow2_pos, lemma_pow2_strictly_increases, pow2};
use vstd::arithmetic::div_mod::{lemma_mod_add_multiples_vanish, lemma_small_mod};
use crate::api::{answers_challenge, find_param, next_index_of, param_prefix, query_public_key_spec, DeliverMessage, DeliveryOutcome};
use crate::limiter::{counted_down, counted_up, host_index, lemma_host_index, lemma_host_index_update, HostStats};
use crate::maintenance::{merged, padded, CheckPredecessor, FixFingers, SuccessorListUpdate};
use crate::lookup::{MAX_LOOKUP_ROUNDS, after_backup, backup_started, call_to, probe_from, search_started, Event, LookupPhase, NodeCall, PredecessorSearch, Step, SuccessorSearch};
use crate::storage::{lemma_next_other, RetrieveOp, StoreOp};
use crate::messages::DhtMessage;
use crate::node::{last_preceding, ChordNode, NodeInfo, SUCCESSOR_LIST_SIZE, ZERO_LOAD_KEY};
use crate::selection::{id_listed, is_load_order, is_load_order_by, is_unique_sorted_of};
use crate::ring::{id_value, in_interval, ring_size, ID_BITS};
use crate::store::{byte_lists, values_at};
use crate::ring::NodeId;
use crate::hex::{hex_text_bytes, is_hex_text};
use crate::keys::p256_signature_valid;

verus! {

/// For two distinct points `a` and `b`, every point of the ring lies in exactly one of
/// the intervals `(a, b]` and `(b, a]`: the ring is split between the two nodes.
pub proof fn law_intervals_split_ring(x: nat, a: nat, b: nat)
    requires
        a != b,
    ensures
        in_interval(x, a, b) != in_interval(x, b, a),
{
}

/// The point `b` always lies in a nonempty interval `(a, b]`, and the point `a` never
/// does.
pub proof fn law_interval_ends(a: nat, b: nat)
    requires
        a != b,
    ensures
        in_interval(b, a, b),
        !in_interval(a, a, b),
{
}

/// Stepping `2^i` forward from an identifier, then measuring the clockwise distance
/// back from the identifier, gives `2^i` (for `i < 160`).
pub proof fn law_finger_start_distance(id: nat, i: nat)
    requires
        id < ring_size(),
        i < 160,
    ensures
        ((id + pow2(i)) % ring_size() + ring_size() - id) % (ring_size() as int) == pow2(i),
{
    let r = ring_size() as int;
    lemma_pow2_pos(160);
    lemma_pow2_strictly_increases(i, 160);
    lemma_pow2_pos(i);
    let s: int = (id + pow2(i)) as int;
    if s < r {
        lemma_small_mod(s as nat, r as nat);
        assert(s - id + r == pow2(i) + r);
        lemma_mod_add_multiples_vanish(pow2(i) as int, r);
        lemma_small_mod(pow2(i), r as nat);
    } else {
        assert(s % r == s - r) by {
            lemma_mod_add_multiples_vanish((s - r) as int, r);
            lemma_small_mod((s - r) as nat, r as nat);
        }
        lemma_small_mod(pow2(i), r as nat);
    }
}

/// Storing a value under a key keeps the values already there, puts the new one last,
/// and leaves every other key as it was.
pub proof fn law_store_appends(m: Map<NodeId, Seq<Seq<u8>>>, key: NodeId, value: Seq<u8>, other: NodeId)
    requires
        other != key,
    ensures
        values_at(m.insert(key, values_at(m, key).push(value)), key) == values_at(m, key).push(value),
        values_at(m.insert(key, values_at(m, key).push(value)), other) == values_at(m, other),
{
}

/// A challenge answers once: after a successful answer has used it up, no answer for
/// that public key is accepted until a new challenge is issued.
pub proof fn law_challenge_single_use(
    book: Map<Seq<char>, (Seq<u8>, u64)>,
    public_key: Seq<char>,
    nonce: Seq<u8>,
    signature: Seq<u8>,
    second_nonce: Seq<u8>,
    second_signature: Seq<u8>,
)
    requires
        answers_challenge(book, public_key, nonce, signature),
    ensures
        !answers_challenge(book.remove(public_key), public_key, second_nonce, second_signature),
{
}

/// A freshly issued challenge is answered by exactly the signatures of its nonce that
/// verify under the public key it was issued to.
pub proof fn law_issued_challenge_answers(
    book: Map<Seq<char>, (Seq<u8>, u64)>,
    public_key: Seq<char>,
    nonce: Seq<u8>,
    issued_at: u64,
    signature: Seq<u8>,
)
    ensures
        answers_challenge(book.insert(public_key, (nonce, issued_at)), public_key, nonce, signature)
            <==> is_hex_text(public_key) && p256_signature_valid(hex_text_bytes(public_key), nonce, signature),
{
}

/// Counting a connection to a host as opened and then as closed gives back the hosts
/// as they were.
pub proof fn law_increment_then_decrement(hosts: Seq<HostStats>, address: Seq<char>)
    requires
        host_index(hosts, address) >= 0 ==> hosts[host_index(hosts, address)].active_count < usize::MAX,
    ensures
        counted_down(counted_up(hosts, address), address) == hosts,
{
    let i = host_index(hosts, address);
    if i >= 0 {
        lemma_host_index(hosts, address);
        let up = counted_up(hosts, address);
        lemma_host_index_update(hosts, i, up[i], address);
        assert(counted_down(up, address) =~= hosts);
    }
}

/// A refreshed successor list always has three entries and starts with the successor
/// it was built from.
pub proof fn law_successor_list_full(list: Seq<NodeInfo>)
    requires
        1 <= list.len() <= SUCCESSOR_LIST_SIZE,
    ensures
        padded(list, SUCCESSOR_LIST_SIZE as nat).len() == SUCCESSOR_LIST_SIZE,
        padded(list, SUCCESSOR_LIST_SIZE as nat)[0] == list[0],
        forall|k: int| 0 <= k < list.len() ==> padded(list, SUCCESSOR_LIST_SIZE as nat)[k] == list[k],
{
}

/// A query that is just `public_key=` followed by a value without `&` or `=` names
/// that value.
pub proof fn law_query_names_its_key(value: Seq<char>)
    requires
        forall|k: int| 0 <= k < value.len() ==> value[k] != '&' && value[k] != '=',
    ensures
        query_public_key_spec(param_prefix() + value) == Some(value),
{
    let q = param_prefix() + value;
    assert forall|k: int| 0 <= k < q.len() implies q[k] != '&' by {
        if k >= 11 {
            assert(q[k] == value[k - 11]);
        }
    }
    lemma_no_char_from(q, '&', 0);
    assert(next_index_of(q, '&', 0) == q.len());
    assert(q.subrange(0, 11) =~= param_prefix());
    assert(find_param(q, 0) == Some(0int));
    assert forall|k: int| 11 <= k < q.len() implies q[k] != '=' by {
        assert(q[k] == value[k - 11]);
    }
    lemma_no_char_from(q, '=', 11);
    assert(q.subrange(11, q.len() as int) =~= value);
}

proof fn lemma_no_char_from(q: Seq<char>, c: char, from: int)
    requires
        0 <= from <= q.len(),
        forall|k: int| from <= k < q.len() ==> q[k] != c,
    ensures
        next_index_of(q, c, from) == q.len(),
    decreases q.len() - from,
{
    if from < q.len() {
        lemma_no_char_from(q, c, from + 1);
    }
}


proof fn lemma_unique_facts(u: Seq<NodeInfo>, pool: Seq<NodeInfo>, excl: Seq<NodeId>)
    requires
        is_unique_sorted_of(u, pool, excl),
    ensures
        forall|a: int, b: int| 0 <= a < b < u.len() ==> crate::ring::id_value(u[a].id) < crate::ring::id_value(u[b].id),
        forall|a: int| 0 <= a < u.len() ==> !id_listed(excl, (#[trigger] u[a]).id),
{
}

proof fn lemma_order_facts(o: Seq<NodeInfo>, u: Seq<NodeInfo>, loads: Map<NodeId, u32>) -> (p: Seq<int>)
    requires
        is_load_order(o, u, loads, ZERO_LOAD_KEY),
    ensures
        p.len() == o.len(),
        o.len() == u.len(),
        forall|a: int| 0 <= a < p.len() ==> 0 <= #[trigger] p[a] < u.len() && o[a] == u[p[a]],
        forall|a: int, b: int| 0 <= a < b < p.len() ==> p[a] != p[b],
{
    choose|p: Seq<int>| is_load_order_by(p, o, u, loads, ZERO_LOAD_KEY)
}

proof fn lemma_choice_parts(node: ChordNode, primary: NodeInfo, r: Seq<NodeInfo>) -> (res: (Seq<NodeInfo>, Seq<NodeInfo>, Seq<int>))
    requires
        node.is_replica_choice(primary, r),
    ensures
        forall|a: int, b: int| 0 <= a < b < res.0.len() ==> crate::ring::id_value(res.0[a].id) < crate::ring::id_value(res.0[b].id),
        forall|a: int| 0 <= a < res.0.len() ==> (#[trigger] res.0[a]).id != node.info.id && res.0[a].id != primary.id,
        res.2.len() == res.1.len(),
        res.1.len() == res.0.len(),
        forall|a: int| 0 <= a < res.2.len() ==> 0 <= #[trigger] res.2[a] < res.0.len() && res.1[a] == res.0[res.2[a]],
        forall|a: int, b: int| 0 <= a < b < res.2.len() ==> res.2[a] != res.2[b],
        r == seq![primary] + res.1.take(if res.1.len() < 2 { res.1.len() as int } else { 2 }),
{
    let (u, o) = choose|u: Seq<NodeInfo>, o: Seq<NodeInfo>|
        {
            &&& is_unique_sorted_of(u, node.replica_pool(), seq![node.info.id, primary.id])
            &&& is_load_order(o, u, node.node_loads@, ZERO_LOAD_KEY)
            &&& r == seq![primary] + o.take(if o.len() < 2 { o.len() as int } else { 2 })
        };
    let excl = seq![node.info.id, primary.id];
    lemma_unique_facts(u, node.replica_pool(), excl);
    assert forall|a: int| 0 <= a < u.len() implies (#[trigger] u[a]).id != node.info.id && u[a].id != primary.id by {
        assert(!id_listed(excl, u[a].id));
        if u[a].id == node.info.id {
            assert(excl[0] == node.info.id);
        }
        if u[a].id == primary.id {
            assert(excl[1] == primary.id);
        }
    }
    let p = lemma_order_facts(o, u, node.node_loads@);
    (u, o, p)
}

/// The replicas chosen for a key are the primary followed by at most two other
/// nodes, each different from this node, from the primary and from one another.
pub proof fn law_replicas_are_distinct(node: ChordNode, primary: NodeInfo, r: Seq<NodeInfo>)
    requires
        node.is_replica_choice(primary, r),
    ensures
        1 <= r.len() <= 3,
        r[0] == primary,
        forall|a: int| 1 <= a < r.len() ==> r[a].id != node.info.id && r[a].id != primary.id,
        forall|a: int, b: int| 1 <= a < b < r.len() ==> r[a].id != r[b].id,
{
    let (u, o, p) = lemma_choice_parts(node, primary, r);
    assert forall|a: int| 1 <= a < r.len() implies r[a].id != node.info.id && r[a].id != primary.id by {
        assert(r[a] == o[a - 1]);
        let x = p[a - 1];
        assert(o[a - 1] == u[x]);
    }
    assert forall|a: int, b: int| 1 <= a < b < r.len() implies r[a].id != r[b].id by {
        assert(r[a] == o[a - 1]);
        assert(r[b] == o[b - 1]);
        let x = p[a - 1];
        let y = p[b - 1];
        assert(x != y);
        assert(o[a - 1] == u[x]);
        assert(o[b - 1] == u[y]);
        if x < y {
            assert(crate::ring::id_value(u[x].id) < crate::ring::id_value(u[y].id));
        } else {
            assert(crate::ring::id_value(u[y].id) < crate::ring::id_value(u[x].id));
        }
    }
}

/// What holds after step `i` of a successor-list refresh: the list starts with the
/// successor, every later entry is the other node named in reply to the call made to
/// the entry before it, and the node is as it was until the refresh ends.
#[verifier::opaque]
pub open spec fn refresh_so_far(
    nodes: Seq<ChordNode>,
    ups: Seq<SuccessorListUpdate>,
    steps: Seq<Step<()>>,
    events: Seq<Event>,
    i: int,
) -> bool {
    let l = ups[i].list@;
    &&& 1 <= l.len() <= i + 1
    &&& l[0] == nodes[0].successor
    &&& forall|k: int|
        1 <= k < l.len() ==> {
            &&& steps[k - 1] == call_to::<()>(l[k - 1], DhtMessage::GetSuccessor)
            &&& events[k - 1] == Event::Reply(
                DhtMessage::FoundSuccessor { id: (#[trigger] l[k]).id, address: l[k].address, api_address: l[k].api_address },
            )
            &&& l[k].id != nodes[0].info.id
        }
    &&& steps[i] is Call ==> {
        &&& nodes[i + 1] == nodes[0]
        &&& ups[i].waiting
        &&& l.len() == i + 1
        &&& steps[i] == call_to::<()>(l.last(), DhtMessage::GetSuccessor)
        &&& l.len() < SUCCESSOR_LIST_SIZE
        &&& l.last().id != nodes[0].info.id
    }
    &&& steps[i] is Done ==> {
        &&& nodes[i + 1].successor_list@ == padded(l, SUCCESSOR_LIST_SIZE as nat)
        &&& nodes[i + 1].info == nodes[0].info
        &&& nodes[i + 1].successor == nodes[0].successor
        &&& nodes[i + 1].predecessor == nodes[0].predecessor
        &&& nodes[i + 1].finger_table == nodes[0].finger_table
        &&& nodes[i + 1].data == nodes[0].data
        &&& (l.len() < SUCCESSOR_LIST_SIZE ==> l.last().id == nodes[0].info.id || l.len() == i)
    }
}

/// Whether `nodes`, `ups`, `steps` and `events` are a whole successor-list refresh: it
/// begins at `nodes[0]`, each call but the last step's is answered by the next event,
/// and the last step ends it.
pub open spec fn is_refresh_run(
    nodes: Seq<ChordNode>,
    ups: Seq<SuccessorListUpdate>,
    steps: Seq<Step<()>>,
    events: Seq<Event>,
) -> bool {
    &&& ups.len() >= 1
    &&& nodes.len() == ups.len() + 1
    &&& steps.len() == ups.len()
    &&& events.len() + 1 == ups.len()
    &&& SuccessorListUpdate::began(nodes[0], ups[0], nodes[1], steps[0])
    &&& forall|i: int| 0 <= i < events.len() ==> steps[i] is Call && #[trigger] ups[i].stepped(nodes[i + 1], events[i], ups[i + 1], nodes[i + 2], steps[i + 1])
    &&& steps.last() is Done
    &&& forall|i: int| 0 <= i < ups.len() ==> #[trigger] ups[i].inv()
}

proof fn lemma_refresh_start(
    nodes: Seq<ChordNode>,
    ups: Seq<SuccessorListUpdate>,
    steps: Seq<Step<()>>,
    events: Seq<Event>,
)
    requires
        ups.len() >= 1,
        nodes.len() == ups.len() + 1,
        steps.len() == ups.len(),
        SuccessorListUpdate::began(nodes[0], ups[0], nodes[1], steps[0]),
        ups[0].inv(),
    ensures
        refresh_so_far(nodes, ups, steps, events, 0),
{
    reveal(refresh_so_far);
}

#[verifier::rlimit(50)]
proof fn lemma_refresh_next(
    nodes: Seq<ChordNode>,
    ups: Seq<SuccessorListUpdate>,
    steps: Seq<Step<()>>,
    events: Seq<Event>,
    j: int,
)
    requires
        0 <= j,
        j + 1 < ups.len(),
        nodes.len() == ups.len() + 1,
        steps.len() == ups.len(),
        events.len() + 1 == ups.len(),
        refresh_so_far(nodes, ups, steps, events, j),
        steps[j] is Call,
        ups[j].stepped(nodes[j + 1], events[j], ups[j + 1], nodes[j + 2], steps[j + 1]),
        ups[j + 1].inv(),
    ensures
        refresh_so_far(nodes, ups, steps, events, j + 1),
{
    reveal(refresh_so_far);
    let i = j + 1;
    let l0 = ups[j].list@;
    let l = ups[i].list@;
    if l.len() > l0.len() {
        assert(l == l0.push(l.last()));
        assert forall|k: int| 1 <= k < l.len() implies {
            &&& steps[k - 1] == call_to::<()>(l[k - 1], DhtMessage::GetSuccessor)
            &&& events[k - 1] == Event::Reply(
                DhtMessage::FoundSuccessor { id: (#[trigger] l[k]).id, address: l[k].address, api_address: l[k].api_address },
            )
            &&& l[k].id != nodes[0].info.id
        } by {
            if k < l0.len() {
                assert(l[k] == l0[k]);
                assert(l[k - 1] == l0[k - 1]);
            } else {
                assert(l[k - 1] == l0.last());
            }
        }
    } else {
        assert(l == l0);
    }
}

proof fn lemma_refresh_so_far(
    nodes: Seq<ChordNode>,
    ups: Seq<SuccessorListUpdate>,
    steps: Seq<Step<()>>,
    events: Seq<Event>,
    i: int,
)
    requires
        is_refresh_run(nodes, ups, steps, events),
        0 <= i < ups.len(),
    ensures
        refresh_so_far(nodes, ups, steps, events, i),
    decreases i,
{
    if i == 0 {
        assert(ups[0].inv());
        lemma_refresh_start(nodes, ups, steps, events);
    } else {
        lemma_refresh_so_far(nodes, ups, steps, events, i - 1);
        let j = i - 1;
        assert(ups[j].stepped(nodes[j + 1], events[j], ups[j + 1], nodes[j + 2], steps[j + 1]));
        assert(steps[j] is Call);
        assert(ups[i].inv());
        lemma_refresh_next(nodes, ups, steps, events, j);
    }
}

/// Over a whole refresh, the successor list becomes three entries starting with the
/// successor: each later entry is the other node named in reply to the call made to
/// the entry before it, and once a call fails or names this node the last entry found
/// is repeated. A node that is its own successor lists only itself; otherwise this node
/// is not listed. The node is otherwise unchanged.
pub proof fn law_successor_list_refresh(
    nodes: Seq<ChordNode>,
    ups: Seq<SuccessorListUpdate>,
    steps: Seq<Step<()>>,
    events: Seq<Event>,
)
    requires
        is_refresh_run(nodes, ups, steps, events),
    ensures
        ({
            let l = ups.last().list@;
            let fin = nodes.last().successor_list@;
            &&& fin == padded(l, SUCCESSOR_LIST_SIZE as nat)
            &&& fin.len() == SUCCESSOR_LIST_SIZE
            &&& fin[0] == nodes[0].successor
            &&& forall|k: int|
                1 <= k < l.len() ==> {
                    &&& steps[k - 1] == call_to::<()>(l[k - 1], DhtMessage::GetSuccessor)
                    &&& events[k - 1] == Event::Reply(
                        DhtMessage::FoundSuccessor { id: (#[trigger] l[k]).id, address: l[k].address, api_address: l[k].api_address },
                    )
                }
            &&& forall|k: int| l.len() <= k < SUCCESSOR_LIST_SIZE ==> #[trigger] fin[k] == l.last()
            &&& nodes[0].successor.id == nodes[0].info.id ==> forall|k: int| 0 <= k < SUCCESSOR_LIST_SIZE ==> #[trigger] fin[k] == nodes[0].successor
            &&& nodes[0].successor.id != nodes[0].info.id ==> forall|k: int| 0 <= k < SUCCESSOR_LIST_SIZE ==> (#[trigger] fin[k]).id != nodes[0].info.id
            &&& nodes.last().info == nodes[0].info
            &&& nodes.last().successor == nodes[0].successor
            &&& nodes.last().predecessor == nodes[0].predecessor
            &&& nodes.last().finger_table == nodes[0].finger_table
            &&& nodes.last().data == nodes[0].data
        }),
{
    let n = ups.len() - 1;
    lemma_refresh_so_far(nodes, ups, steps, events, n);
    reveal(refresh_so_far);
    assert(nodes.last() == nodes[n + 1]);
    assert(steps[n] is Done);
    let l = ups[n].list@;
    let fin = nodes.last().successor_list@;
    assert(ups[n].inv());
    law_successor_list_full(l);
    assert forall|k: int| l.len() <= k < SUCCESSOR_LIST_SIZE implies #[trigger] fin[k] == l.last() by {}
    if nodes[0].successor.id == nodes[0].info.id {
        if l.len() > 1 {
            assert(l[1].id != nodes[0].info.id);
        }
        assert(l.len() == 1) by {
            if l.len() > 1 {
                assert(steps[0] == call_to::<()>(l[0], DhtMessage::GetSuccessor));
                assert(ups[0].list@ == seq![nodes[0].successor]);
            }
        }
    } else {
        assert forall|k: int| 0 <= k < SUCCESSOR_LIST_SIZE implies (#[trigger] fin[k]).id != nodes[0].info.id by {
            if k < l.len() {
                assert(fin[k] == l[k]);
            } else {
                assert(fin[k] == l.last());
                assert(l.last() == l[l.len() - 1]);
            }
        }
    }
}

/// Whether `nodes`, `ops`, `steps` and `events` are a whole refresh of a finger: it
/// begins at `nodes[0]` on a finger picked at random, each call but the last step's is
/// answered by the next event, and the last step ends it.
pub open spec fn is_finger_run(nodes: Seq<ChordNode>, ops: Seq<FixFingers>, steps: Seq<Step<()>>, events: Seq<Event>) -> bool {
    &&& ops.len() >= 1
    &&& nodes.len() == ops.len() + 1
    &&& steps.len() == ops.len()
    &&& events.len() + 1 == ops.len()
    &&& nodes[0].wf()
    &&& FixFingers::started_random(nodes[0], ops[0], nodes[1], steps[0])
    &&& forall|i: int| 0 <= i < events.len() ==> #[trigger] ops[i].stepped(nodes[i + 1], events[i], ops[i + 1], nodes[i + 2], steps[i + 1])
    &&& forall|i: int| 0 <= i < events.len() ==> #[trigger] steps[i] is Call
    &&& steps.last() is Done
}

/// What holds after step `i` of a finger refresh.
#[verifier::opaque]
pub open spec fn finger_so_far(nodes: Seq<ChordNode>, ops: Seq<FixFingers>, steps: Seq<Step<()>>, i: int) -> bool {
    &&& ops[i].index == ops[0].index
    &&& ops[i].target == ops[0].target
    &&& steps[i] is Call ==> nodes[i + 1] == nodes[0]
    &&& steps[i] is Done ==> {
        &&& nodes[i + 1].finger_table@ == nodes[0].finger_table@.update(ops[0].index as int, ops[i].search.answer)
        &&& nodes[i + 1].info == nodes[0].info
        &&& nodes[i + 1].successor == nodes[0].successor
        &&& nodes[i + 1].successor_list == nodes[0].successor_list
        &&& nodes[i + 1].predecessor == nodes[0].predecessor
        &&& nodes[i + 1].data@ == nodes[0].data@
    }
}

proof fn lemma_finger_so_far(nodes: Seq<ChordNode>, ops: Seq<FixFingers>, steps: Seq<Step<()>>, events: Seq<Event>, i: int)
    requires
        is_finger_run(nodes, ops, steps, events),
        0 <= i < ops.len(),
    ensures
        finger_so_far(nodes, ops, steps, i),
    decreases i,
{
    reveal(finger_so_far);
    if i > 0 {
        lemma_finger_so_far(nodes, ops, steps, events, i - 1);
        let j = i - 1;
        assert(ops[j].stepped(nodes[j + 1], events[j], ops[j + 1], nodes[j + 2], steps[j + 1]));
        assert(steps[j] is Call);
    }
}

/// Over a whole refresh of a finger picked at random, the finger `index` drawn from
/// `1..160` becomes the answer of the search for the successor of `self + 2^index`, and
/// nothing else of the node changes, the table's first entry included.
pub proof fn law_fix_finger_refresh(nodes: Seq<ChordNode>, ops: Seq<FixFingers>, steps: Seq<Step<()>>, events: Seq<Event>)
    requires
        is_finger_run(nodes, ops, steps, events),
    ensures
        1 <= ops[0].index < ID_BITS,
        id_value(ops.last().target) == (id_value(nodes[0].info.id) + pow2(ops[0].index as nat)) % ring_size(),
        ops.last().index == ops[0].index,
        nodes.last().finger_table@ == nodes[0].finger_table@.update(ops[0].index as int, ops.last().search.answer),
        nodes.last().finger_table@.len() == nodes[0].finger_table@.len(),
        nodes.last().finger_table@[0] == nodes[0].finger_table@[0],
        nodes.last().info == nodes[0].info,
        nodes.last().successor == nodes[0].successor,
        nodes.last().successor_list == nodes[0].successor_list,
        nodes.last().predecessor == nodes[0].predecessor,
        nodes.last().data@ == nodes[0].data@,
{
    let n = ops.len() - 1;
    lemma_finger_so_far(nodes, ops, steps, events, n);
    reveal(finger_so_far);
    assert(nodes.last() == nodes[n + 1]);
}

/// The first round of the search for the predecessor of `target`, taken at `node`.
pub open spec fn first_round(node: ChordNode, target: NodeId) -> (PredecessorSearch, Step<NodeInfo>) {
    (PredecessorSearch {
        target,
        candidate: node.info,
        candidate_successor: node.successor,
        rounds: 0,
        phase: LookupPhase::Done,
    }).decide(node)
}

/// The first round of a successor search is taken at this node: either it makes the
/// first call of the predecessor search, or it finds no node closer to the target than
/// this node, which is then the predecessor, and the answer is this node's own
/// successor.
pub proof fn law_successor_search_start(node: ChordNode, target: NodeId, s: SuccessorSearch, st: Step<NodeInfo>)
    requires
        search_started(node, target, s, st),
    ensures
        first_round(node, target).1 matches Step::Done(p) ==> p == node.info && st == Step::Done(node.successor)
            && s.answer == node.successor,
        first_round(node, target).1 matches Step::Call(c) ==> st == Step::<NodeInfo>::Call(c) && s.phase is Predecessor,
{
}

/// When a later round of the predecessor search ends at a node `p` other than this
/// one, the successor search asks `p` for its successor; the search answers with what
/// the predecessor it waits on replies, and with this node's own successor straight
/// from the predecessor search only when `p` is this node.
pub proof fn law_successor_search_step_asks_predecessor(
    node: ChordNode,
    s: SuccessorSearch,
    event: Event,
    after: SuccessorSearch,
    r: Step<NodeInfo>,
)
    requires
        s.stepped(node, event, after, r),
    ensures
        s.phase is Predecessor ==> match s.lookup.next(node, event).1 {
            Step::Done(p) => {
                &&& p.id != node.info.id ==> {
                    &&& r == Step::<NodeInfo>::Call(NodeCall { address: p.address, message: DhtMessage::GetSuccessor })
                    &&& after.phase is AwaitSuccessor
                    &&& after.predecessor == p
                }
                &&& p.id == node.info.id ==> r == Step::Done(node.successor)
            },
            Step::Call(c) => r == Step::<NodeInfo>::Call(c),
        },
        s.phase is AwaitSuccessor ==> match event {
            Event::Reply(DhtMessage::FoundSuccessor { id, address, api_address }) => {
                &&& r == Step::Done(NodeInfo { id, address, api_address })
                &&& after.answer == NodeInfo { id, address, api_address }
            },
            _ => true,
        },
{
}

/// Whether `r` asks the first replica of `order` from `from` on that is not `me`,
/// which `index` then points at, for the values of `key`, or, when there is none, ends
/// the retrieval with no values.
pub open spec fn asks_first_other(
    order: Seq<NodeInfo>,
    me: NodeId,
    key: NodeId,
    from: int,
    index: int,
    r: Step<Option<Vec<Vec<u8>>>>,
) -> bool {
    &&& r is Call ==> {
        &&& from <= index < order.len()
        &&& order[index].id != me
        &&& forall|k: int| from <= k < index ==> order[k].id == me
        &&& r == Step::<Option<Vec<Vec<u8>>>>::Call(
            NodeCall { address: order[index].address, message: DhtMessage::Retrieve { key } },
        )
    }
    &&& r is Done ==> {
        &&& r->Done_0 is None
        &&& forall|k: int| from <= k < order.len() ==> order[k].id == me
    }
}

/// A retrieval of a key this node holds answers with the local values. Otherwise, once
/// the order of the replicas is known, it asks the first replica in that order that is
/// not this node; it ends at once, with no values, only when every replica is this
/// node.
pub proof fn law_retrieve_starts_with_first_other(node: ChordNode, key: NodeId, op: RetrieveOp, r: Step<Option<Vec<Vec<u8>>>>)
    requires
        RetrieveOp::started(node, key, op, r),
    ensures
        node.data@.dom().contains(key) ==> (r matches Step::Done(Some(v)) && byte_lists(v@) == node.data@[key]),
        !node.data@.dom().contains(key) && op.phase !is Locating ==> asks_first_other(
            op.order@,
            node.info.id,
            key,
            0,
            op.index as int,
            r,
        ),
{
    lemma_next_other(op.order@, node.info.id, 0);
}

/// After a replica answers a retrieval without values, or fails to answer, the next
/// replica in the order that is not this node is asked for the key; the retrieval
/// ends, with no values, only when no such replica is left. Values in the answer end
/// it with those values. When the replicas are found by a search, the asking starts in
/// the same way from the first of them.
pub proof fn law_retrieve_asks_next_replica(
    node: ChordNode,
    op: RetrieveOp,
    event: Event,
    after: RetrieveOp,
    r: Step<Option<Vec<Vec<u8>>>>,
)
    requires
        op.inv(),
        op.stepped(node, event, after, r),
    ensures
        op.phase is Asking ==> match event {
            Event::Reply(DhtMessage::Retrieved { value: Some(v), .. }) => r == Step::Done(Some(v)),
            _ => after.order == op.order && asks_first_other(
                op.order@,
                node.info.id,
                op.key,
                op.index + 1,
                after.index as int,
                r,
            ),
        },
        op.phase is Locating && after.phase !is Locating ==> asks_first_other(
            after.order@,
            node.info.id,
            op.key,
            0,
            after.index as int,
            r,
        ),
{
    if op.phase is Asking {
        lemma_next_other(op.order@, node.info.id, op.index + 1);
    }
    if op.phase is Locating && after.phase !is Locating {
        lemma_next_other(after.order@, node.info.id, 0);
    }
}

/// Whether `r` sends replica `k` of `replicas`, a node other than `me`, the key and the
/// value of a store, under the replica number `k + 1`.
pub open spec fn replicates_to(replicas: Seq<NodeInfo>, me: NodeId, key: NodeId, value: Seq<u8>, k: int, r: Step<()>) -> bool {
    &&& 0 <= k < replicas.len()
    &&& replicas[k].id != me
    &&& r is Call
    &&& r->Call_0.address == replicas[k].address
    &&& r->Call_0.message is ReplicateData
    &&& r->Call_0.message->ReplicateData_key == key
    &&& byte_lists(r->Call_0.message->ReplicateData_values@) == seq![value]
    &&& r->Call_0.message->ReplicateData_replica_id == k + 1
}

/// Whether `r` sends the value of a store to the first replica from `from` on that is
/// not `me`, which `index` then points at, or, when there is none, ends the store.
pub open spec fn sends_to_first_other(
    replicas: Seq<NodeInfo>,
    me: NodeId,
    key: NodeId,
    value: Seq<u8>,
    from: int,
    index: int,
    r: Step<()>,
) -> bool {
    &&& r is Call ==> {
        &&& from <= index
        &&& forall|k: int| from <= k < index ==> replicas[k].id == me
        &&& replicates_to(replicas, me, key, value, index, r)
    }
    &&& r is Done ==> forall|k: int| from <= k < replicas.len() ==> replicas[k].id == me
}

/// Once its replicas are known, a store sends the key and value to the first replica
/// that is not this node, under that replica's number; it finishes at once only when
/// every replica is this node.
pub proof fn law_store_starts_replication(before: ChordNode, after: ChordNode, key: NodeId, value: Seq<u8>, op: StoreOp, r: Step<()>)
    requires
        StoreOp::started(before, after, key, value, op, r),
        op.phase !is Locating,
    ensures
        sends_to_first_other(op.replicas@, before.info.id, key, value, 0, op.index as int, r),
{
    lemma_next_other(op.replicas@, before.info.id, 0);
}

/// After a store has sent the value to one replica, it sends it to the next replica
/// that is not this node, under that replica's number; it finishes only when no such
/// replica is left. When the replicas are found by a search, replication starts in the
/// same way from the first of them.
pub proof fn law_store_replicates_to_next_replica(node: ChordNode, op: StoreOp, event: Event, after: StoreOp, r: Step<()>)
    requires
        op.inv(),
        op.stepped(node, event, after, r),
    ensures
        op.phase is Replicating ==> after.replicas == op.replicas && sends_to_first_other(
            op.replicas@,
            node.info.id,
            op.key,
            op.value@,
            op.index + 1,
            after.index as int,
            r,
        ),
        op.phase is Locating && after.phase !is Locating ==> sends_to_first_other(
            after.replicas@,
            node.info.id,
            op.key,
            op.value@,
            0,
            after.index as int,
            r,
        ),
{
    if op.phase is Replicating {
        lemma_next_other(op.replicas@, node.info.id, op.index + 1);
    }
    if op.phase is Locating && after.phase !is Locating {
        lemma_next_other(after.replicas@, node.info.id, 0);
    }
}

/// A predecessor check whose ping is answered ends with the node unchanged. When the
/// ping fails, the predecessor is forgotten and the sources are asked one after another,
/// each for the replicas of the range from the failed predecessor's id to this node's
/// own id, which is kept for the calls that follow; the check ends when no source is
/// left.
pub proof fn law_reconcile_asks_for_failed_range(
    before: ChordNode,
    op: CheckPredecessor,
    event: Event,
    after: CheckPredecessor,
    after_node: ChordNode,
    r: Step<()>,
)
    requires
        op.phase is Pinging || (op.phase is Reconciling && op.start == op.failed.id),
        op.stepped(before, event, after, after_node, r),
    ensures
        r is Call ==> r->Call_0.message == (DhtMessage::RequestReplicas {
            key_range_start: op.failed.id,
            key_range_end: before.info.id,
        }),
        r is Call ==> after.failed == op.failed && after.start == after.failed.id,
        op.phase is Pinging && event == Event::Reply(DhtMessage::Pong) ==> r == Step::<()>::Done(()) && after_node == before,
        op.phase is Pinging && event != Event::Reply(DhtMessage::Pong) ==> {
            &&& after_node.predecessor is None
            &&& r is Call ==> after.index == 0 && r->Call_0.address == after.sources@[0].address
            &&& r is Done ==> after.sources@.len() == 0
        },
        op.phase is Reconciling ==> {
            &&& after.sources == op.sources
            &&& r is Call ==> after.index == op.index + 1 && r->Call_0.address == op.sources@[op.index + 1].address
            &&& r is Done ==> op.index + 1 >= op.sources@.len()
        },
{
}

/// When the node found responsible for the key of a delivery is another node, the
/// delivery sends that node, at its address, a `Store` call of the key and the message,
/// and leaves this node unchanged.
pub proof fn law_delivery_stores_at_responsible_node(
    key: NodeId,
    value: Seq<u8>,
    before: ChordNode,
    after: ChordNode,
    n: NodeInfo,
    op: DeliverMessage,
    r: Step<DeliveryOutcome>,
)
    requires
        DeliverMessage::routed(key, value, before, after, n, op, r),
        n.id != before.info.id,
    ensures
        after == before,
        (r is Call),
        r->Call_0.address == n.address,
        (r->Call_0.message is Store),
        r->Call_0.message->Store_key == key,
        r->Call_0.message->Store_value@ == value,
{
}

/// Whether `ops`, `steps` and `events` are a whole replication of a store of `value`
/// under `key`, begun at `before`, which became `node`, with its replicas known at once:
/// each call but the last step's is answered by the next event, and the last step ends
/// the store.
pub open spec fn is_replication_run(
    before: ChordNode,
    node: ChordNode,
    key: NodeId,
    value: Seq<u8>,
    ops: Seq<StoreOp>,
    steps: Seq<Step<()>>,
    events: Seq<Event>,
) -> bool {
    &&& ops.len() >= 1
    &&& steps.len() == ops.len()
    &&& events.len() + 1 == ops.len()
    &&& StoreOp::started(before, node, key, value, ops[0], steps[0])
    &&& ops[0].phase !is Locating
    &&& forall|i: int| 0 <= i < events.len() ==> #[trigger] ops[i].stepped(node, events[i], ops[i + 1], steps[i + 1])
    &&& forall|i: int| 0 <= i < events.len() ==> #[trigger] steps[i] is Call
    &&& steps.last() is Done
}

/// Where replication goes on from at step `m` of a replication run.
pub open spec fn replication_from(ops: Seq<StoreOp>, m: int) -> int {
    if m == 0 { 0 } else { ops[m - 1].index + 1 }
}

proof fn lemma_replication_so_far(
    before: ChordNode,
    node: ChordNode,
    key: NodeId,
    value: Seq<u8>,
    ops: Seq<StoreOp>,
    steps: Seq<Step<()>>,
    events: Seq<Event>,
    m: int,
)
    requires
        is_replication_run(before, node, key, value, ops, steps, events),
        0 <= m < ops.len(),
    ensures
        ops[m].replicas == ops[0].replicas,
        ops[m].key == key,
        ops[m].value@ == value,
        ops[m].replicate_from(node.info.id, replication_from(ops, m), steps[m]),
        forall|i: int| #![trigger ops[i].index] 0 <= i < m ==> ops[i].index < ops[m].index || steps[m] is Done,
        forall|k: int| 0 <= k < replication_from(ops, m) && ops[0].replicas@[k].id != node.info.id
            ==> exists|i: int| 0 <= i < m && ops[i].index == k,
    decreases m,
{
    let me = node.info.id;
    if m == 0 {
        assert(before.info == node.info);
    } else {
        let p = m - 1;
        lemma_replication_so_far(before, node, key, value, ops, steps, events, p);
        assert(steps[p] is Call);
        assert(ops[p].stepped(node, events[p], ops[p + 1], steps[p + 1]));
        lemma_next_other(ops[p].replicas@, me, replication_from(ops, p));
        lemma_next_other(ops[m].replicas@, me, replication_from(ops, m));
        assert forall|k: int| 0 <= k < replication_from(ops, m) && ops[0].replicas@[k].id != me
            implies exists|i: int| 0 <= i < m && ops[i].index == k by {
            if k == ops[p].index {
                assert(0 <= p < m && ops[p].index == k);
            } else {
                assert(k < replication_from(ops, p));
                let i = choose|i: int| 0 <= i < p && ops[i].index == k;
                assert(0 <= i < m && ops[i].index == k);
            }
        }
        assert forall|i: int| #![trigger ops[i].index] 0 <= i < m implies ops[i].index < ops[m].index || steps[m] is Done by {
            if i < p {
                assert(ops[i].index < ops[p].index);
            }
        }
    }
}

/// Over a whole replication, each replica that is not this node is sent the key and
/// the value exactly once, under its replica number, one replica after another in the
/// order of the list; no other call is made, and the store ends only after the last
/// such replica has been sent its copy.
pub proof fn law_store_replicates_once_to_each_other_replica(
    before: ChordNode,
    node: ChordNode,
    key: NodeId,
    value: Seq<u8>,
    ops: Seq<StoreOp>,
    steps: Seq<Step<()>>,
    events: Seq<Event>,
)
    requires
        is_replication_run(before, node, key, value, ops, steps, events),
    ensures
        forall|i: int| 0 <= i < events.len() ==> replicates_to(
            ops[0].replicas@,
            node.info.id,
            key,
            value,
            ops[i].index as int,
            #[trigger] steps[i],
        ),
        forall|i: int, j: int| #![trigger ops[i].index, ops[j].index] 0 <= i < j < events.len() ==> ops[i].index < ops[j].index,
        forall|k: int| 0 <= k < ops[0].replicas@.len() && ops[0].replicas@[k].id != node.info.id
            ==> exists|i: int| 0 <= i < events.len() && ops[i].index == k,
        ops.last().phase is Done,
{
    let me = node.info.id;
    let n = events.len() as int;
    assert forall|i: int| 0 <= i < n implies replicates_to(ops[0].replicas@, me, key, value, ops[i].index as int, #[trigger] steps[i]) by {
        lemma_replication_so_far(before, node, key, value, ops, steps, events, i);
        lemma_next_other(ops[i].replicas@, me, replication_from(ops, i));
        assert(steps[i] is Call);
    }
    assert forall|i: int, j: int| #![trigger ops[i].index, ops[j].index] 0 <= i < j < n implies ops[i].index < ops[j].index by {
        lemma_replication_so_far(before, node, key, value, ops, steps, events, j);
        assert(steps[j] is Call);
    }
    lemma_replication_so_far(before, node, key, value, ops, steps, events, n);
    lemma_next_other(ops[n].replicas@, me, replication_from(ops, n));
    assert(steps[n] is Done);
    assert forall|k: int| 0 <= k < ops[0].replicas@.len() && ops[0].replicas@[k].id != me
        implies exists|i: int| 0 <= i < n && ops[i].index == k by {
        if k >= replication_from(ops, n) {
            assert(ops[n].replicas@[k].id == me);
        }
    }
    assert(ops.last() == ops[n]);
}

/// Whether `r` pings the first entry of `candidates` from `from` on that is not `me`,
/// which `index` then points at, or, when there is none, answers `fallback`.
pub open spec fn probes_first_other(
    candidates: Seq<NodeInfo>,
    me: NodeId,
    from: int,
    index: int,
    fallback: NodeInfo,
    r: Step<NodeInfo>,
) -> bool {
    &&& r is Call ==> {
        &&& from <= index < candidates.len()
        &&& candidates[index].id != me
        &&& forall|k: int| from <= k < index ==> candidates[k].id == me
        &&& r == Step::<NodeInfo>::Call(NodeCall { address: candidates[index].address, message: DhtMessage::Ping })
    }
    &&& r is Done ==> {
        &&& r == Step::Done(fallback)
        &&& forall|k: int| from <= k < candidates.len() ==> candidates[k].id == me
    }
}

proof fn lemma_probe_from(candidates: Seq<NodeInfo>, me: NodeId, i: int)
    requires
        0 <= i,
    ensures
        ({
            let (index, b) = probe_from(candidates, me, i);
            &&& b is Call ==> {
                &&& i <= index < candidates.len()
                &&& candidates[index].id != me
                &&& forall|k: int| i <= k < index ==> candidates[k].id == me
                &&& b == call_to::<Option<NodeInfo>>(candidates[index], DhtMessage::Ping)
            }
            &&& b is Done ==> {
                &&& b == Step::<Option<NodeInfo>>::Done(None)
                &&& forall|k: int| i <= k < candidates.len() ==> candidates[k].id == me
            }
        }),
    decreases candidates.len() - i,
{
    if i < candidates.len() && candidates[i].id == me {
        lemma_probe_from(candidates, me, i + 1);
    }
}

/// When the predecessor it waits on does not answer with its successor, a successor
/// search pings the entries of the successor list other than this node one after
/// another and answers with the first that answers the ping; when none is left, it
/// answers with this node's successor.
pub proof fn law_successor_search_falls_back_to_list(
    node: ChordNode,
    s: SuccessorSearch,
    event: Event,
    after: SuccessorSearch,
    r: Step<NodeInfo>,
)
    requires
        s.stepped(node, event, after, r),
    ensures
        s.phase is AwaitSuccessor && !(event matches Event::Reply(DhtMessage::FoundSuccessor { .. })) ==> {
            &&& after.backup.candidates@ == node.successor_list@
            &&& probes_first_other(node.successor_list@, node.info.id, 0, after.backup.index as int, node.successor, r)
        },
        s.phase is Backup && !s.backup.waiting ==> r == Step::Done(node.successor),
        s.phase is Backup && s.backup.waiting && event == Event::Reply(DhtMessage::Pong) ==> r == Step::Done(
            s.backup.candidates@[s.backup.index as int],
        ),
        s.phase is Backup && s.backup.waiting && event != Event::Reply(DhtMessage::Pong) ==> {
            &&& after.backup.candidates == s.backup.candidates
            &&& probes_first_other(
                s.backup.candidates@,
                node.info.id,
                s.backup.index + 1,
                after.backup.index as int,
                node.successor,
                r,
            )
        },
{
    if s.phase is AwaitSuccessor && !(event matches Event::Reply(DhtMessage::FoundSuccessor { .. })) {
        let b = choose|b: Step<Option<NodeInfo>>| backup_started(node, after, b) && after_backup(node, after, b, r);
        lemma_probe_from(node.successor_list@, node.info.id, 0);
    }
    if s.phase is Backup && s.backup.waiting && event != Event::Reply(DhtMessage::Pong) {
        lemma_probe_from(s.backup.candidates@, node.info.id, s.backup.index + 1);
    }
}

/// Whether `f` lies strictly between `me` and `target` on the ring.
pub open spec fn strictly_between(f: NodeId, me: NodeId, target: NodeId) -> bool {
    in_interval(id_value(f), id_value(me), id_value(target)) && f != target
}

proof fn lemma_last_preceding(fingers: Seq<NodeInfo>, me: NodeId, target: NodeId, n: int)
    requires
        0 <= n <= fingers.len(),
    ensures
        -1 <= last_preceding(fingers, me, target, n) < n,
        last_preceding(fingers, me, target, n) >= 0 ==> strictly_between(
            fingers[last_preceding(fingers, me, target, n)].id,
            me,
            target,
        ),
        forall|j: int| last_preceding(fingers, me, target, n) < j < n ==> !strictly_between(
            #[trigger] fingers[j].id,
            me,
            target,
        ),
    decreases n,
{
    if n > 0 {
        lemma_last_preceding(fingers, me, target, n - 1);
    }
}

/// The closest preceding node of `target` is the last finger that lies strictly between
/// this node and `target`; when no finger does, it is this node itself.
pub proof fn law_closest_preceding_is_last_finger_between(node: ChordNode, target: NodeId)
    requires
        node.wf(),
    ensures
        ({
            let r = node.closest_preceding(target);
            ||| exists|k: int|
                #![trigger node.finger_table@[k]]
                {
                    &&& 0 <= k < ID_BITS
                    &&& r == node.finger_table@[k]
                    &&& strictly_between(r.id, node.info.id, target)
                    &&& forall|j: int| k < j < ID_BITS ==> !strictly_between(
                        #[trigger] node.finger_table@[j].id,
                        node.info.id,
                        target,
                    )
                }
            ||| {
                &&& r == node.info
                &&& forall|j: int| 0 <= j < ID_BITS ==> !strictly_between(
                    #[trigger] node.finger_table@[j].id,
                    node.info.id,
                    target,
                )
            }
        }),
{
    lemma_last_preceding(node.finger_table@, node.info.id, target, ID_BITS as int);
    let k = last_preceding(node.finger_table@, node.info.id, target, ID_BITS as int);
    if k >= 0 {
        assert(node.closest_preceding(target) == node.finger_table@[k]);
    }
}

/// A round of a predecessor search ends the search only at its current candidate: when
/// the target lies between the candidate and its successor, when the round limit is
/// reached, or when the candidate is this node and none of its fingers lies strictly
/// between it and the target. Otherwise it asks the candidate for its closest preceding
/// node of the target, or, at this node, moves to the closest preceding finger and asks
/// it for its successor; each such call uses up one round.
pub proof fn law_predecessor_round(node: ChordNode, s: PredecessorSearch)
    requires
        node.wf(),
        s.rounds <= MAX_LOOKUP_ROUNDS,
    ensures
        ({
            let (after, r) = s.decide(node);
            let me = node.info.id;
            let between = in_interval(id_value(s.target), id_value(s.candidate.id), id_value(s.candidate_successor.id));
            &&& between ==> r == Step::Done(s.candidate)
            &&& r is Done ==> {
                &&& r == Step::Done(s.candidate)
                &&& between || s.rounds >= MAX_LOOKUP_ROUNDS || (s.candidate.id == me && forall|j: int|
                    0 <= j < ID_BITS ==> !strictly_between(#[trigger] node.finger_table@[j].id, me, s.target))
            }
            &&& r is Call ==> after.rounds == s.rounds + 1 && after.target == s.target
            &&& r is Call && s.candidate.id != me ==> r == Step::<NodeInfo>::Call(
                NodeCall { address: s.candidate.address, message: DhtMessage::ClosestPrecedingNode { id: s.target } },
            )
            &&& r is Call && s.candidate.id == me ==> {
                &&& after.candidate == node.closest_preceding(s.target)
                &&& strictly_between(after.candidate.id, me, s.target)
                &&& r == Step::<NodeInfo>::Call(NodeCall { address: after.candidate.address, message: DhtMessage::GetSuccessor })
            }
        }),
{
    law_closest_preceding_is_last_finger_between(node, s.target);
    let n = node.closest_preceding(s.target);
    if n != node.info {
        let k = choose|k: int|
            #![trigger node.finger_table@[k]]
            {
                &&& 0 <= k < ID_BITS
                &&& n == node.finger_table@[k]
                &&& strictly_between(n.id, node.info.id, s.target)
                &&& forall|j: int| k < j < ID_BITS ==> !strictly_between(
                    #[trigger] node.finger_table@[j].id,
                    node.info.id,
                    s.target,
                )
            };
        assert(n.id != node.info.id);
    }
}

/// Merging received replicas into a store keeps every value a key already had, in
/// front and in order; every received value of the key follows them; and a key that
/// was not received keeps exactly what it had.
pub proof fn law_merge_keeps_and_appends(m: Map<NodeId, Seq<Seq<u8>>>, t: Seq<(NodeId, Vec<Vec<u8>>)>, key: NodeId)
    ensures
        values_at(m, key).is_prefix_of(values_at(merged(m, t), key)),
        forall|i: int, j: int|
            0 <= i < t.len() && t[i].0 == key && 0 <= j < t[i].1@.len() ==> values_at(merged(m, t), key).subrange(
                values_at(m, key).len() as int,
                values_at(merged(m, t), key).len() as int,
            ).contains(#[trigger] t[i].1@[j]@),
        (forall|i: int| 0 <= i < t.len() ==> (#[trigger] t[i]).0 != key) ==> {
            &&& values_at(merged(m, t), key) == values_at(m, key)
            &&& merged(m, t).dom().contains(key) == m.dom().contains(key)
        },
    decreases t.len(),
{
    if t.len() > 0 {
        let u = t.drop_last();
        law_merge_keeps_and_appends(m, u, key);
        let before = merged(m, u);
        let old_len = values_at(m, key).len() as int;
        let mid = values_at(before, key);
        let fin = values_at(merged(m, t), key);
        assert(forall|i: int| 0 <= i < u.len() ==> u[i] == t[i]);
        if t.last().0 == key {
            let added = byte_lists(t.last().1@);
            assert(fin == mid + added);
            assert(values_at(m, key).is_prefix_of(fin)) by {
                assert(forall|k: int| 0 <= k < old_len ==> fin[k] == mid[k]);
            }
            assert forall|i: int, j: int|
                0 <= i < t.len() && t[i].0 == key && 0 <= j < t[i].1@.len() implies fin.subrange(
                    old_len,
                    fin.len() as int,
                ).contains(#[trigger] t[i].1@[j]@) by {
                if i < u.len() {
                    let w = mid.subrange(old_len, mid.len() as int);
                    assert(u[i] == t[i]);
                    assert(w.contains(u[i].1@[j]@));
                    let q = choose|q: int| 0 <= q < w.len() && w[q] == u[i].1@[j]@;
                    assert(fin.subrange(old_len, fin.len() as int)[q] == w[q]);
                } else {
                    assert(i == t.len() - 1);
                    let q = (mid.len() - old_len) + j;
                    assert(added[j] == t[i].1@[j]@);
                    assert(fin.subrange(old_len, fin.len() as int)[q] == fin[mid.len() + j]);
                }
            }
        } else {
            assert(fin == mid);
            assert forall|i: int, j: int|
                0 <= i < t.len() && t[i].0 == key && 0 <= j < t[i].1@.len() implies fin.subrange(
                    old_len,
                    fin.len() as int,
                ).contains(#[trigger] t[i].1@[j]@) by {
                assert(i < u.len());
                assert(u[i] == t[i]);
            }
            if forall|i: int| 0 <= i < t.len() ==> (#[trigger] t[i]).0 != key {
                assert(forall|i: int| 0 <= i < u.len() ==> (#[trigger] u[i]).0 != key);
            }
        }
    }
}

} // verus!
