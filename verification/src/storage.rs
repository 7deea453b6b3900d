use vstd::prelude::*;
use crate::lookup::{call_to, info_of, is_alone, lemma_alone_search, search_started, search_step, Event, NodeCall, Step, SuccessorSearch};
use crate::messages::DhtMessage;
use crate::node::{same_id, ChordNode, NodeInfo, SUCCESSOR_LIST_SIZE, ZERO_LOAD_KEY};
use crate::ring::{id_value, in_interval, NodeId};
use crate::selection::{id_listed, is_first_entry, is_load_order, is_load_order_by, is_unique_sorted_of, order_by_load};
use crate::node::every_nth;
use crate::store::{byte_lists, copy_bytes, values_at};

verus! {

/// The first index from `i` on whose node is not `me`, or the length when none is.
pub open spec fn next_other(nodes: Seq<NodeInfo>, me: NodeId, i: int) -> int
    decreases nodes.len() - i,
{
    if i < 0 || i >= nodes.len() {
        if i < 0 { 0 } else { i }
    } else if nodes[i].id != me {
        i
    } else {
        next_other(nodes, me, i + 1)
    }
}

/// From `i` on, `next_other` skips only entries that are `me`, and stops at one that
/// is not, or at the end.
pub proof fn lemma_next_other(nodes: Seq<NodeInfo>, me: NodeId, i: int)
    requires
        0 <= i,
    ensures
        i <= next_other(nodes, me, i),
        next_other(nodes, me, i) <= nodes.len() || next_other(nodes, me, i) == i,
        next_other(nodes, me, i) < nodes.len() ==> nodes[next_other(nodes, me, i)].id != me,
        forall|k: int| i <= k < next_other(nodes, me, i) && k < nodes.len() ==> nodes[k].id == me,
    decreases nodes.len() - i,
{
    if i < nodes.len() && nodes[i].id == me {
        lemma_next_other(nodes, me, i + 1);
    }
}

/// Finds the first index from `from` on whose node is not `me`.
fn find_other(nodes: &Vec<NodeInfo>, me: &NodeId, from: usize) -> (r: usize)
    requires
        from <= nodes@.len(),
    ensures
        r as int == next_other(nodes@, *me, from as int),
        r <= nodes@.len(),
{
    let mut i = from;
    while i < nodes.len()
        invariant
            from <= i <= nodes@.len(),
            next_other(nodes@, *me, from as int) == next_other(nodes@, *me, i as int),
        decreases nodes@.len() - i,
    {
        if !same_id(&nodes[i].id, me) {
            return i;
        }
        i = i + 1;
    }
    i
}

/// Whether `node` places `key` on one of its own virtual nodes, so that it is the
/// primary holder of the key itself.
pub open spec fn covers(node: ChordNode, key: NodeId) -> bool {
    exists|k: int|
        0 <= k < node.virtual_nodes@.len() && (in_interval(
            id_value(key),
            id_value(node.info.id),
            id_value(#[trigger] node.virtual_nodes@[k]),
        ) || key == node.virtual_nodes@[k])
}

/// The search for the nodes that hold a key: its primary (this node when one of its
/// virtual nodes covers the key, else the key's successor), then the two least loaded
/// other known nodes.
pub struct ReplicaLookup {
    pub searching: bool,
    pub search: SuccessorSearch,
}

impl ReplicaLookup {
    pub open spec fn inv(&self) -> bool {
        self.search.inv()
    }

    /// Starts looking for the replicas of `key`.
    pub fn begin(node: &ChordNode, key: NodeId) -> (r: (ReplicaLookup, Step<Vec<NodeInfo>>))
        requires
            node.wf(),
        ensures
            r.0.inv(),
            covers(*node, key) ==> (r.1 matches Step::Done(v) && node.is_replica_choice(node.info, v@)),
            covers(*node, key) ==> !r.0.searching,
            !covers(*node, key) ==> r.0.searching == r.1 is Call,
            !covers(*node, key) ==> search_started(*node, key, r.0.search, search_step(r.0.searching, r.1, r.0.search.answer)),
            !covers(*node, key) ==> (r.1 matches Step::Done(v) ==> node.is_replica_choice(r.0.search.answer, v@)),
            r.1 matches Step::Done(v) ==> node.is_replica_choice(v@[0], v@),
    {
        if node.virtual_nodes_cover(&key) {
            let replicas = node.select_replicas(&node.info);
            assert(node.is_replica_choice(node.info, replicas@));
            let search = SuccessorSearch::begin(node, key).0;
            return (ReplicaLookup { searching: false, search }, Step::Done(replicas));
        }
        let (search, s) = SuccessorSearch::begin(node, key);
        match s {
            Step::Call(c) => (ReplicaLookup { searching: true, search }, Step::Call(c)),
            Step::Done(p) => {
                let replicas = node.select_replicas(&p);
                assert(node.is_replica_choice(p, replicas@));
                (ReplicaLookup { searching: false, search }, Step::Done(replicas))
            },
        }
    }

    /// Goes on with the search after `event`; the replicas come from the primary it
    /// finds.
    pub fn step(&mut self, node: &ChordNode, event: Event) -> (r: Step<Vec<NodeInfo>>)
        requires
            node.wf(),
            old(self).inv(),
        ensures
            final(self).inv(),
            final(self).searching == r is Call,
            r matches Step::Done(v) ==> node.is_replica_choice(v@[0], v@),
            old(self).searching ==> old(self).search.stepped(*node, event, final(self).search, search_step(final(self).searching, r, final(self).search.answer)),
            old(self).searching ==> (r matches Step::Done(v) ==> node.is_replica_choice(final(self).search.answer, v@)),
    {
        if !self.searching {
            let replicas = node.select_replicas(&node.successor);
            assert(node.is_replica_choice(node.successor, replicas@));
            return Step::Done(replicas);
        }
        match self.search.step(node, event) {
            Step::Call(c) => Step::Call(c),
            Step::Done(p) => {
                self.searching = false;
                let replicas = node.select_replicas(&p);
                assert(node.is_replica_choice(p, replicas@));
                Step::Done(replicas)
            },
        }
    }
}

/// The node that holds `key` first: this node when one of its virtual nodes covers the
/// key, else the answer of the successor search `search` for the key.
pub open spec fn key_primary(node: ChordNode, key: NodeId, search: SuccessorSearch) -> NodeInfo {
    if covers(node, key) {
        node.info
    } else {
        search.answer
    }
}

/// Every node a node alone on the ring knows of is itself.
proof fn lemma_alone_pool(node: ChordNode)
    requires
        is_alone(node),
    ensures
        forall|j: int| 0 <= j < node.replica_pool().len() ==> (#[trigger] node.replica_pool()[j]).id == node.info.id,
{
    let pool = node.replica_pool();
    let f = node.finger_table@;
    assert forall|j: int| 0 <= j < pool.len() implies (#[trigger] pool[j]).id == node.info.id by {
        if j < node.successor_list@.len() {
            assert(pool[j] == node.successor_list@[j]);
        } else {
            let k = j - node.successor_list@.len();
            let n = every_nth(f, 3).len();
            assert(0 <= k < n);
            assert(3 * k < f.len()) by (nonlinear_arith)
                requires
                    0 <= k,
                    k < n,
                    n == (f.len() + 3 - 1) / 3,
            ;
            assert(pool[j] == f[3 * k]);
        }
    }
}

/// When every node of `pool` has an excluded identifier, nothing is left.
proof fn lemma_nothing_unique(u: Seq<NodeInfo>, pool: Seq<NodeInfo>, excl: Seq<NodeId>, id: NodeId)
    requires
        forall|j: int| 0 <= j < pool.len() ==> (#[trigger] pool[j]).id == id,
        excl.len() > 0,
        excl[0] == id,
        is_unique_sorted_of(u, pool, excl),
    ensures
        u.len() == 0,
{
    if u.len() > 0 {
        assert(is_first_entry(pool, u[0]));
        reveal(is_first_entry);
        let j = choose|j: int| crate::selection::first_with_id(pool, j) && pool[j] == u[0];
        assert(pool[j].id == id);
        assert(id_listed(excl, u[0].id));
    }
}

/// A load order of nothing is empty.
proof fn lemma_order_of_nothing(o: Seq<NodeInfo>, u: Seq<NodeInfo>, loads: Map<NodeId, u32>)
    requires
        u.len() == 0,
        is_load_order(o, u, loads, ZERO_LOAD_KEY),
    ensures
        o.len() == 0,
{
    let p = choose|p: Seq<int>| is_load_order_by(p, o, u, loads, ZERO_LOAD_KEY);
}

/// A node alone on the ring has no replica but itself.
pub proof fn lemma_alone_replicas(node: ChordNode, r: Seq<NodeInfo>)
    requires
        is_alone(node),
        node.is_replica_choice(node.info, r),
    ensures
        r == seq![node.info],
{
    let (u, o) = choose|u: Seq<NodeInfo>, o: Seq<NodeInfo>|
        {
            &&& is_unique_sorted_of(u, node.replica_pool(), seq![node.info.id, node.info.id])
            &&& is_load_order(o, u, node.node_loads@, ZERO_LOAD_KEY)
            &&& r == seq![node.info] + o.take(if o.len() < 2 { o.len() as int } else { 2 })
        };
    lemma_alone_pool(node);
    lemma_nothing_unique(u, node.replica_pool(), seq![node.info.id, node.info.id], node.info.id);
    lemma_order_of_nothing(o, u, node.node_loads@);
    assert(r =~= seq![node.info]);
}

/// Where a store waits.
pub enum StorePhase {
    Locating,
    Replicating,
    Done,
}

/// Storing a value: it is kept locally at once, then sent to each replica other than
/// this node, replica `i` under the replica number `i + 1`.
pub struct StoreOp {
    pub key: NodeId,
    pub value: Vec<u8>,
    pub phase: StorePhase,
    pub lookup: ReplicaLookup,
    pub replicas: Vec<NodeInfo>,
    pub index: usize,
}

impl StoreOp {
    pub open spec fn inv(&self) -> bool {
        &&& self.lookup.inv()
        &&& self.replicas@.len() <= 3
        &&& self.phase is Replicating ==> self.index < self.replicas@.len()
        &&& self.phase is Locating ==> self.lookup.searching
    }

    /// Whether `r` is the call that sends the value to replica `i` of `replicas`.
    pub open spec fn replicate_call(key: NodeId, value: Seq<u8>, replicas: Seq<NodeInfo>, i: int, r: Step<()>) -> bool {
        &&& r matches Step::Call(c)
        &&& r->Call_0.address == replicas[i].address
        &&& r->Call_0.message matches DhtMessage::ReplicateData { key: k, values, replica_id }
        &&& r->Call_0.message->ReplicateData_key == key
        &&& byte_lists(r->Call_0.message->ReplicateData_values@) == seq![value]
        &&& r->Call_0.message->ReplicateData_replica_id == i + 1
    }

    /// Whether `r` is how replication goes on from replica `i` on.
    pub open spec fn replicate_from(self, me: NodeId, i: int, r: Step<()>) -> bool {
        let j = next_other(self.replicas@, me, i);
        if j < self.replicas@.len() {
            self.phase is Replicating && self.index == j && StoreOp::replicate_call(
                self.key,
                self.value@,
                self.replicas@,
                j,
                r,
            )
        } else {
            self.phase is Done && r == Step::<()>::Done(())
        }
    }

    /// How storing `value` under `key` starts: the node `before` becomes `after`, which
    /// holds the value last among those of the key; the replicas are those chosen
    /// around the key's primary, found at once or by the search the step `r` goes on
    /// with; replication starts from the first of them.
    pub open spec fn started(before: ChordNode, after: ChordNode, key: NodeId, value: Seq<u8>, op: StoreOp, r: Step<()>) -> bool {
        &&& after.data@ == before.data@.insert(key, values_at(before.data@, key).push(value))
        &&& after.info == before.info
        &&& after.successor == before.successor
        &&& after.successor_list == before.successor_list
        &&& after.predecessor == before.predecessor
        &&& after.finger_table == before.finger_table
        &&& after.virtual_nodes == before.virtual_nodes
        &&& after.node_loads == before.node_loads
        &&& op.key == key
        &&& op.value@ == value
        &&& covers(after, key) ==> op.phase !is Locating
        &&& !covers(after, key) ==> search_started(after, key, op.lookup.search, search_step(op.phase is Locating, r, op.lookup.search.answer))
        &&& op.phase is Locating ==> r is Call
        &&& op.phase !is Locating ==> after.is_replica_choice(key_primary(after, key, op.lookup.search), op.replicas@)
        &&& op.phase !is Locating ==> op.replicate_from(after.info.id, 0, r)
    }

    /// How the store `self` goes on after `event` at `node`: it becomes `after` and
    /// takes the step `r`.
    pub open spec fn stepped(self, node: ChordNode, event: Event, after: StoreOp, r: Step<()>) -> bool {
        &&& after.key == self.key
        &&& after.value == self.value
        &&& self.phase is Replicating ==> after.replicas == self.replicas && after.replicate_from(node.info.id, self.index + 1, r)
        &&& self.phase is Locating ==> self.lookup.search.stepped(node, event, after.lookup.search, search_step(after.phase is Locating, r, after.lookup.search.answer))
        &&& self.phase is Locating && after.phase !is Locating ==> node.is_replica_choice(after.lookup.search.answer, after.replicas@)
            && after.replicate_from(node.info.id, 0, r)
        &&& self.phase is Done ==> r == Step::<()>::Done(())
    }

    fn send_from(&mut self, me: &NodeId, from: usize) -> (r: Step<()>)
        requires
            from <= old(self).replicas@.len(),
            old(self).replicas@.len() <= 3,
            old(self).lookup.inv(),
            old(self).phase !is Locating,
        ensures
            final(self).inv(),
            final(self).key == old(self).key,
            final(self).value == old(self).value,
            final(self).replicas == old(self).replicas,
            final(self).lookup == old(self).lookup,
            final(self).replicate_from(*me, from as int, r),
    {
        let j = find_other(&self.replicas, me, from);
        if j < self.replicas.len() {
            self.index = j;
            self.phase = StorePhase::Replicating;
            let mut values: Vec<Vec<u8>> = Vec::new();
            let copy = copy_bytes(&self.value);
            values.push(copy);
            assert(byte_lists(values@) =~= seq![self.value@]);
            let replica_id: u8 = (j + 1) as u8;
            Step::Call(NodeCall {
                address: self.replicas[j].address.clone(),
                message: DhtMessage::ReplicateData { key: self.key, values, replica_id },
            })
        } else {
            self.phase = StorePhase::Done;
            Step::Done(())
        }
    }

    /// Stores `value` under `key` on this node and starts replicating it.
    pub fn begin(node: &mut ChordNode, key: NodeId, value: Vec<u8>) -> (r: (StoreOp, Step<()>))
        requires
            old(node).wf(),
        ensures
            final(node).wf(),
            r.0.inv(),
            StoreOp::started(*old(node), *final(node), key, value@, r.0, r.1),
            is_alone(*old(node)) ==> r.1 == Step::<()>::Done(()),
    {
        let ghost v = value@;
        let kept = copy_bytes(&value);
        node.store_local(key, value);
        let (lookup, s) = ReplicaLookup::begin(node, key);
        let mut op = StoreOp { key, value: kept, phase: StorePhase::Locating, lookup, replicas: Vec::new(), index: 0 };
        let r = match s {
            Step::Call(c) => {
                if !op.lookup.searching {
                    op.lookup.searching = true;
                }
                Step::Call(c)
            },
            Step::Done(replicas) => {
                op.replicas = replicas;
                op.phase = StorePhase::Done;
                op.send_from(&node.info.id, 0)
            },
        };
        proof {
            if is_alone(*old(node)) {
                lemma_alone_store(*old(node), *node, key, v, op, r);
            }
        }
        (op, r)
    }

    /// Goes on after `event`: the answer of a replica is not waited on for anything.
    pub fn step(&mut self, node: &ChordNode, event: Event) -> (r: Step<()>)
        requires
            node.wf(),
            old(self).inv(),
        ensures
            final(self).inv(),
            old(self).stepped(*node, event, *final(self), r),
    {
        match self.phase {
            StorePhase::Locating => match self.lookup.step(node, event) {
                Step::Call(c) => Step::Call(c),
                Step::Done(replicas) => {
                    self.replicas = replicas;
                    self.phase = StorePhase::Done;
                    self.send_from(&node.info.id, 0)
                },
            },
            StorePhase::Replicating => {
                let from = self.index + 1;
                self.send_from(&node.info.id, from)
            },
            StorePhase::Done => Step::Done(()),
        }
    }
}

/// On a node alone on the ring, a store finishes at once: there is no other node to
/// replicate to.
pub proof fn lemma_alone_store(before: ChordNode, after: ChordNode, key: NodeId, value: Seq<u8>, op: StoreOp, r: Step<()>)
    requires
        after.wf(),
        is_alone(before),
        StoreOp::started(before, after, key, value, op, r),
    ensures
        r == Step::<()>::Done(()),
        op.phase is Done,
{
    assert(is_alone(after));
    if !covers(after, key) {
        lemma_alone_search(after, key, op.lookup.search, search_step(op.phase is Locating, r, op.lookup.search.answer));
    }
    lemma_alone_replicas(after, op.replicas@);
    reveal_with_fuel(next_other, 3);
}

/// On a node alone on the ring, retrieving a key it does not hold finds nothing,
/// without a call.
pub proof fn lemma_alone_retrieve(node: ChordNode, key: NodeId, op: RetrieveOp, r: Step<Option<Vec<Vec<u8>>>>)
    requires
        node.wf(),
        is_alone(node),
        !node.data@.dom().contains(key),
        RetrieveOp::started(node, key, op, r),
    ensures
        r == Step::<Option<Vec<Vec<u8>>>>::Done(None),
{
    if !covers(node, key) {
        lemma_alone_search(node, key, op.lookup.search, search_step(op.phase is Locating, r, op.lookup.search.answer));
    }
    let reps = choose|reps: Seq<NodeInfo>|
        node.is_replica_choice(key_primary(node, key, op.lookup.search), reps)
            && #[trigger] is_load_order(op.order@, reps, node.node_loads@, ZERO_LOAD_KEY);
    lemma_alone_replicas(node, reps);
    let p = choose|p: Seq<int>| is_load_order_by(p, op.order@, reps, node.node_loads@, ZERO_LOAD_KEY);
    assert(op.order@.len() == 1);
    assert(op.order@[0] == reps[p[0]]);
    reveal_with_fuel(next_other, 3);
}

/// Where a retrieval waits.
pub enum RetrievePhase {
    Locating,
    Asking,
    Done,
}

/// Retrieving the values of a key: the local values when there are any, else the
/// first answer with values from the replicas other than this node, least loaded
/// first.
pub struct RetrieveOp {
    pub key: NodeId,
    pub phase: RetrievePhase,
    pub lookup: ReplicaLookup,
    pub order: Vec<NodeInfo>,
    pub index: usize,
}

impl RetrieveOp {
    pub open spec fn inv(&self) -> bool {
        &&& self.lookup.inv()
        &&& self.phase is Asking ==> self.index < self.order@.len()
        &&& self.phase is Locating ==> self.lookup.searching
    }

    /// Whether `r` is how the retrieval goes on from position `i` of the order.
    pub open spec fn ask_from(self, me: NodeId, i: int, r: Step<Option<Vec<Vec<u8>>>>) -> bool {
        let j = next_other(self.order@, me, i);
        if j < self.order@.len() {
            self.phase is Asking && self.index == j && r == call_to::<Option<Vec<Vec<u8>>>>(
                self.order@[j],
                DhtMessage::Retrieve { key: self.key },
            )
        } else {
            self.phase is Done && r is Done && r->Done_0 is None
        }
    }

    /// How retrieving `key` starts at `node`: the local values when there are any;
    /// else the replicas chosen around the key's primary, found at once or by the
    /// search the step `r` goes on with, are asked least loaded first.
    pub open spec fn started(node: ChordNode, key: NodeId, op: RetrieveOp, r: Step<Option<Vec<Vec<u8>>>>) -> bool {
        &&& op.key == key
        &&& op.phase is Locating ==> r is Call
        &&& node.data@.dom().contains(key) ==> (r matches Step::Done(Some(v)) && byte_lists(v@) == node.data@[key])
        &&& !node.data@.dom().contains(key) ==> {
            &&& covers(node, key) ==> op.phase !is Locating
            &&& !covers(node, key) ==> search_started(node, key, op.lookup.search, search_step(op.phase is Locating, r, op.lookup.search.answer))
            &&& op.phase !is Locating ==> {
                &&& exists|reps: Seq<NodeInfo>|
                    node.is_replica_choice(key_primary(node, key, op.lookup.search), reps)
                        && #[trigger] is_load_order(op.order@, reps, node.node_loads@, ZERO_LOAD_KEY)
                &&& op.ask_from(node.info.id, 0, r)
            }
        }
    }

    /// How the retrieval `self` goes on after `event` at `node`: it becomes `after` and
    /// takes the step `r`.
    pub open spec fn stepped(self, node: ChordNode, event: Event, after: RetrieveOp, r: Step<Option<Vec<Vec<u8>>>>) -> bool {
        &&& after.key == self.key
        &&& self.phase is Asking ==> match event {
            Event::Reply(DhtMessage::Retrieved { value: Some(v), .. }) => r == Step::Done(Some(v)) && after.phase is Done,
            _ => after.order == self.order && after.ask_from(node.info.id, self.index + 1, r),
        }
        &&& self.phase is Locating ==> self.lookup.search.stepped(node, event, after.lookup.search, search_step(after.phase is Locating, r, after.lookup.search.answer))
        &&& self.phase is Locating && after.phase !is Locating ==> {
            &&& exists|reps: Seq<NodeInfo>|
                node.is_replica_choice(after.lookup.search.answer, reps) && #[trigger] is_load_order(after.order@, reps, node.node_loads@, ZERO_LOAD_KEY)
            &&& after.ask_from(node.info.id, 0, r)
        }
        &&& self.phase is Done ==> r matches Step::Done(None)
    }

    fn ask_from_exec(&mut self, me: &NodeId, from: usize) -> (r: Step<Option<Vec<Vec<u8>>>>)
        requires
            from <= old(self).order@.len(),
            old(self).lookup.inv(),
            old(self).phase !is Locating,
        ensures
            final(self).inv(),
            final(self).key == old(self).key,
            final(self).order == old(self).order,
            final(self).lookup == old(self).lookup,
            final(self).ask_from(*me, from as int, r),
    {
        let j = find_other(&self.order, me, from);
        if j < self.order.len() {
            self.index = j;
            self.phase = RetrievePhase::Asking;
            Step::Call(NodeCall { address: self.order[j].address.clone(), message: DhtMessage::Retrieve { key: self.key } })
        } else {
            self.phase = RetrievePhase::Done;
            Step::Done(None)
        }
    }

    fn ordered(&mut self, node: &ChordNode, replicas: Vec<NodeInfo>) -> (r: Step<Option<Vec<Vec<u8>>>>)
        requires
            node.wf(),
            old(self).lookup.inv(),
        ensures
            final(self).inv(),
            final(self).key == old(self).key,
            is_load_order(final(self).order@, replicas@, node.node_loads@, ZERO_LOAD_KEY),
            final(self).lookup == old(self).lookup,
            final(self).ask_from(node.info.id, 0, r),
    {
        self.order = order_by_load(&replicas, &node.node_loads, ZERO_LOAD_KEY);
        self.phase = RetrievePhase::Done;
        self.ask_from_exec(&node.info.id, 0)
    }

    /// Starts retrieving the values of `key`.
    pub fn begin(node: &ChordNode, key: NodeId) -> (r: (RetrieveOp, Step<Option<Vec<Vec<u8>>>>))
        requires
            node.wf(),
        ensures
            r.0.inv(),
            RetrieveOp::started(*node, key, r.0, r.1),
            is_alone(*node) && !node.data@.dom().contains(key) ==> r.1 == Step::<Option<Vec<Vec<u8>>>>::Done(None),
    {
        let local = node.data.get(&key);
        let (lookup, s) = ReplicaLookup::begin(node, key);
        let mut op = RetrieveOp { key, phase: RetrievePhase::Done, lookup, order: Vec::new(), index: 0 };
        if let Some(v) = local {
            return (op, Step::Done(Some(v)));
        }
        let r = match s {
            Step::Call(c) => {
                op.phase = RetrievePhase::Locating;
                op.lookup.searching = true;
                Step::Call(c)
            },
            Step::Done(replicas) => op.ordered(node, replicas),
        };
        proof {
            if is_alone(*node) {
                lemma_alone_retrieve(*node, key, op, r);
            }
        }
        (op, r)
    }

    /// Goes on after `event`: values from the asked replica end the retrieval,
    /// anything else moves on to the next replica.
    pub fn step(&mut self, node: &ChordNode, event: Event) -> (r: Step<Option<Vec<Vec<u8>>>>)
        requires
            node.wf(),
            old(self).inv(),
        ensures
            final(self).inv(),
            old(self).stepped(*node, event, *final(self), r),
    {
        match self.phase {
            RetrievePhase::Locating => match self.lookup.step(node, event) {
                Step::Call(c) => Step::Call(c),
                Step::Done(replicas) => self.ordered(node, replicas),
            },
            RetrievePhase::Asking => match event {
                Event::Reply(DhtMessage::Retrieved { value: Some(v), .. }) => {
                    self.phase = RetrievePhase::Done;
                    Step::Done(Some(v))
                },
                _ => {
                    let len = self.order.len();
                    assert(self.index < len);
                    let from = self.index + 1;
                    self.ask_from_exec(&node.info.id, from)
                },
            },
            RetrievePhase::Done => Step::Done(None),
        }
    }
}


/// The (key, value) pairs of a list of entries, entry by entry, each entry's values in
/// order.
pub open spec fn flatten_entries(t: Seq<(NodeId, Vec<Vec<u8>>)>) -> Seq<(NodeId, Seq<u8>)>
    decreases t.len(),
{
    if t.len() == 0 {
        Seq::empty()
    } else {
        flatten_entries(t.drop_last()) + t.last().1@.map_values(|v: Vec<u8>| (t.last().0, v@))
    }
}

/// The (key, value) pairs of `entries`, entry by entry.
pub fn flatten(entries: &Vec<(NodeId, Vec<Vec<u8>>)>) -> (r: Vec<(NodeId, Vec<u8>)>)
    ensures
        r@.map_values(|p: (NodeId, Vec<u8>)| (p.0, p.1@)) == flatten_entries(entries@),
{
    let mut r: Vec<(NodeId, Vec<u8>)> = Vec::new();
    let mut i: usize = 0;
    while i < entries.len()
        invariant
            i <= entries@.len(),
            r@.map_values(|p: (NodeId, Vec<u8>)| (p.0, p.1@)) == flatten_entries(entries@.take(i as int)),
        decreases entries@.len() - i,
    {
        let key = entries[i].0;
        let values = &entries[i].1;
        let ghost base = r@.map_values(|p: (NodeId, Vec<u8>)| (p.0, p.1@));
        let mut k: usize = 0;
        while k < values.len()
            invariant
                k <= values@.len(),
                r@.map_values(|p: (NodeId, Vec<u8>)| (p.0, p.1@)) == base + values@.take(k as int).map_values(
                    |v: Vec<u8>| (key, v@),
                ),
            decreases values@.len() - k,
        {
            let ghost before = r@;
            let c = copy_bytes(&values[k]);
            r.push((key, c));
            assert(r@.map_values(|p: (NodeId, Vec<u8>)| (p.0, p.1@)) =~= before.map_values(
                |p: (NodeId, Vec<u8>)| (p.0, p.1@),
            ).push((key, c@)));
            assert(values@.take(k + 1).map_values(|v: Vec<u8>| (key, v@)) =~= values@.take(k as int).map_values(
                |v: Vec<u8>| (key, v@),
            ).push((key, values@[k as int]@)));
            k = k + 1;
            assert(r@.map_values(|p: (NodeId, Vec<u8>)| (p.0, p.1@)) =~= base + values@.take(k as int).map_values(
                |v: Vec<u8>| (key, v@),
            ));
        }
        assert(values@.take(k as int) =~= values@);
        assert(entries@.take(i + 1).drop_last() =~= entries@.take(i as int));
        assert(entries@.take(i + 1).last() == entries@[i as int]);
        i = i + 1;
    }
    assert(entries@.take(i as int) =~= entries@);
    r
}


/// `m` with each pair's value appended under its key, pair by pair.
pub open spec fn appended_pairs(m: Map<NodeId, Seq<Seq<u8>>>, pairs: Seq<(NodeId, Seq<u8>)>) -> Map<NodeId, Seq<Seq<u8>>>
    decreases pairs.len(),
{
    if pairs.len() == 0 {
        m
    } else {
        let before = appended_pairs(m, pairs.drop_last());
        before.insert(pairs.last().0, values_at(before, pairs.last().0).push(pairs.last().1))
    }
}

/// Where joining waits.
pub enum JoinPhase {
    FindingSuccessor,
    FetchingData,
    Storing,
    Done,
}

/// Joining a ring: without a bootstrap node this node starts a ring of its own;
/// otherwise the bootstrap node is asked for this node's successor, the successor for
/// the data in `(self, successor]`, and each value received is stored as by `StoreOp`.
pub struct Join {
    pub phase: JoinPhase,
    pub items: Vec<(NodeId, Vec<u8>)>,
    pub index: usize,
    pub store: Option<StoreOp>,
}

impl Join {
    /// The received pairs as mathematical values.
    pub open spec fn pairs(&self) -> Seq<(NodeId, Seq<u8>)> {
        self.items@.map_values(|p: (NodeId, Vec<u8>)| (p.0, p.1@))
    }

    pub open spec fn inv(&self) -> bool {
        &&& self.phase is Storing ==> self.index < self.items@.len() && self.store is Some && self.store->Some_0.inv()
    }

    /// How far storing the received pairs got: through pair `index` while a store is
    /// under way, through all of them when done.
    pub open spec fn stored_upto(&self) -> int {
        if self.phase is Storing {
            self.index + 1
        } else {
            self.items@.len() as int
        }
    }

    /// Whether `r` goes on storing as `StoreOp` does: a call is the first step of the
    /// store of the pair at `index`, made on the node, which became `node`; the end
    /// means every pair is stored.
    pub open spec fn storing(self, node: ChordNode, r: Step<()>) -> bool {
        &&& r is Call ==> {
            &&& self.phase is Storing
            &&& self.store is Some
            &&& exists|mid: ChordNode|
                #[trigger] StoreOp::started(
                    mid,
                    node,
                    self.items@[self.index as int].0,
                    self.items@[self.index as int].1@,
                    self.store->Some_0,
                    r,
                )
        }
        &&& r is Done ==> self.phase is Done
    }

    fn store_from(&mut self, node: &mut ChordNode, from: usize) -> (r: Step<()>)
        requires
            old(node).wf(),
            from <= old(self).items@.len(),
        ensures
            final(node).wf(),
            final(self).inv(),
            final(self).items == old(self).items,
            from <= final(self).stored_upto() <= final(self).items@.len(),
            final(node).data@ == appended_pairs(old(node).data@, final(self).pairs().subrange(from as int, final(self).stored_upto())),
            final(self).storing(*final(node), r),
            final(self).phase is Storing ==> final(self).index >= from,
            final(node).info == old(node).info,
            final(node).successor == old(node).successor,
            final(node).successor_list == old(node).successor_list,
            final(node).predecessor == old(node).predecessor,
            final(node).finger_table == old(node).finger_table,
    {
        let mut j = from;
        while j < self.items.len()
            invariant
                node.wf(),
                from <= j <= self.items@.len(),
                self.items == old(self).items,
                node.data@ == appended_pairs(old(node).data@, self.pairs().subrange(from as int, j as int)),
                node.info == old(node).info,
                node.successor == old(node).successor,
                node.successor_list == old(node).successor_list,
                node.predecessor == old(node).predecessor,
                node.finger_table == old(node).finger_table,
            decreases self.items@.len() - j,
        {
            let key = self.items[j].0;
            let value = copy_bytes(&self.items[j].1);
            let ghost before = node.data@;
            let (op, st) = StoreOp::begin(node, key, value);
            proof {
                let p = self.pairs();
                assert(p.subrange(from as int, j + 1).drop_last() =~= p.subrange(from as int, j as int));
                assert(p.subrange(from as int, j + 1).last() == p[j as int]);
            }
            match st {
                Step::Call(c) => {
                    self.store = Some(op);
                    self.index = j;
                    self.phase = JoinPhase::Storing;
                    return Step::Call(c);
                },
                Step::Done(()) => {},
            }
            j = j + 1;
        }
        self.phase = JoinPhase::Done;
        Step::Done(())
    }

    /// Starts joining through `bootstrap`, or starts a new ring without one.
    pub fn begin(node: &mut ChordNode, bootstrap: Option<String>) -> (r: (Join, Step<()>))
        requires
            old(node).wf(),
        ensures
            final(node).wf(),
            r.0.inv(),
            bootstrap is None ==> {
                &&& r.1 == Step::<()>::Done(())
                &&& final(node).successor == old(node).info
                &&& forall|k: int| 0 <= k < SUCCESSOR_LIST_SIZE ==> final(node).successor_list@[k] == old(node).info
                &&& final(node).predecessor is None
                &&& final(node).data@ == old(node).data@
                &&& final(node).finger_table == old(node).finger_table
            },
            bootstrap matches Some(a) ==> {
                &&& *final(node) == *old(node)
                &&& r.1 == Step::<()>::Call(NodeCall { address: a, message: DhtMessage::FindSuccessor { id: old(node).info.id } })
                &&& r.0.phase is FindingSuccessor
            },
            final(node).info == old(node).info,
    {
        let join = Join { phase: JoinPhase::Done, items: Vec::new(), index: 0, store: None };
        match bootstrap {
            None => {
                node.start_new_network();
                (join, Step::Done(()))
            },
            Some(address) => {
                let join = Join { phase: JoinPhase::FindingSuccessor, ..join };
                (join, Step::Call(NodeCall { address, message: DhtMessage::FindSuccessor { id: node.info.id } }))
            },
        }
    }

    /// Goes on after `event`.
    pub fn step(&mut self, node: &mut ChordNode, event: Event) -> (r: Step<()>)
        requires
            old(node).wf(),
            old(self).inv(),
        ensures
            final(node).wf(),
            final(self).inv(),
            final(node).info == old(node).info,
            final(node).predecessor == old(node).predecessor,
            final(node).successor_list == old(node).successor_list,
            final(node).finger_table == old(node).finger_table,
            old(self).phase is FindingSuccessor ==> match event {
                Event::Reply(DhtMessage::FoundSuccessor { id, address, api_address }) => {
                    &&& final(node).successor == info_of(id, address, api_address)
                    &&& final(node).data@ == old(node).data@
                    &&& r == call_to::<()>(
                        info_of(id, address, api_address),
                        DhtMessage::GetDataRange { start: old(node).info.id, end: id },
                    )
                    &&& final(self).phase is FetchingData
                },
                _ => r == Step::<()>::Done(()) && *final(node) == *old(node),
            },
            old(self).phase is FetchingData ==> final(node).successor == old(node).successor && match event {
                Event::Reply(DhtMessage::DataRange { data }) => {
                    &&& final(self).pairs() == flatten_entries(data@)
                    &&& final(node).data@ == appended_pairs(old(node).data@, final(self).pairs().subrange(0, final(self).stored_upto()))
                    &&& final(self).storing(*final(node), r)
                },
                _ => r == Step::<()>::Done(()) && *final(node) == *old(node),
            },
            old(self).phase is Storing ==> {
                &&& final(node).successor == old(node).successor
                &&& final(self).items == old(self).items
                &&& final(self).stored_upto() >= old(self).stored_upto()
                &&& final(node).data@ == appended_pairs(
                    old(node).data@,
                    final(self).pairs().subrange(old(self).stored_upto(), final(self).stored_upto()),
                )
                &&& final(self).phase is Storing && final(self).index == old(self).index ==> {
                    &&& r is Call
                    &&& *final(node) == *old(node)
                    &&& final(self).store is Some
                    &&& old(self).store->Some_0.stepped(*old(node), event, final(self).store->Some_0, r)
                }
                &&& !(final(self).phase is Storing && final(self).index == old(self).index) ==> {
                    &&& exists|s: StoreOp| #[trigger] old(self).store->Some_0.stepped(*old(node), event, s, Step::<()>::Done(()))
                    &&& final(self).storing(*final(node), r)
                }
            },
            old(self).phase is Done ==> r == Step::<()>::Done(()) && *final(node) == *old(node),
            r is Done ==> final(self).phase is Done,
    {
        match self.phase {
            JoinPhase::FindingSuccessor => match event {
                Event::Reply(DhtMessage::FoundSuccessor { id, address, api_address }) => {
                    let succ = NodeInfo { id, address, api_address };
                    let call = NodeCall {
                        address: succ.address.clone(),
                        message: DhtMessage::GetDataRange { start: node.info.id, end: succ.id },
                    };
                    node.successor = succ;
                    self.phase = JoinPhase::FetchingData;
                    Step::Call(call)
                },
                _ => {
                    self.phase = JoinPhase::Done;
                    Step::Done(())
                },
            },
            JoinPhase::FetchingData => match event {
                Event::Reply(DhtMessage::DataRange { data }) => {
                    self.items = flatten(&data);
                    self.store_from(node, 0)
                },
                _ => {
                    self.phase = JoinPhase::Done;
                    Step::Done(())
                },
            },
            JoinPhase::Storing => {
                let mut op = self.store.take().unwrap();
                let ghost before = op;
                assert(before == old(self).store->Some_0);
                let st = op.step(node, event);
                let ghost after = op;
                self.store = Some(op);
                match st {
                    Step::Call(c) => Step::Call(c),
                    Step::Done(()) => {
                        assert(before.stepped(*old(node), event, after, Step::<()>::Done(())));
                        let len = self.items.len();
                        assert(self.index < len);
                        let next = self.index + 1;
                        let r = self.store_from(node, next);
                        proof {
                            assert(self.pairs().subrange(old(self).stored_upto(), self.stored_upto()) =~= self.pairs().subrange(
                                next as int,
                                self.stored_upto(),
                            ));
                        }
                        r
                    },
                }
            },
            JoinPhase::Done => Step::Done(()),
        }
    }
}

} // verus!
