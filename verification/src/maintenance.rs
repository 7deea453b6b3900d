use vstd::prelude::*;
use crate::lookup::{call_to, info_of, probe_from, search_started, Event, LiveSuccessorSearch, NodeCall, Step, SuccessorSearch};
use crate::messages::DhtMessage;
use crate::node::{same_id, ChordNode, NodeInfo, FULL_LOAD_KEY, SUCCESSOR_LIST_SIZE, ZERO_LOAD_KEY};
use crate::selection::{is_load_order, load_key, order_by_load};
use crate::storage::ReplicaLookup;
use crate::ring::{add_id_power_of_2, id_value, in_interval, is_between, ring_size, NodeId, ID_BITS};
use crate::store::{byte_lists, values_at};
use vstd::arithmetic::power2::pow2;
use crate::storage::{flatten, flatten_entries};
use crate::store::{copy_bytes, entry_view, in_transfer_range, keys_distinct, map_of};

verus! {

/// Whether `r` is the call that stores `value` under `key` on the node `to`.
pub open spec fn store_call<T>(r: Step<T>, to: NodeInfo, key: NodeId, value: Seq<u8>) -> bool {
    &&& r matches Step::Call(c)
    &&& r->Call_0.address == to.address
    &&& r->Call_0.message matches DhtMessage::Store { key: k, value: v }
    &&& r->Call_0.message->Store_key == key
    &&& r->Call_0.message->Store_value@ == value
}

/// Sending a list of (key, value) pairs, one `Store` call each, to one node.
pub struct Transfer {
    pub to: NodeInfo,
    pub items: Vec<(NodeId, Vec<u8>)>,
    pub index: usize,
}

impl Transfer {
    /// The pairs as mathematical values.
    pub open spec fn pairs(&self) -> Seq<(NodeId, Seq<u8>)> {
        self.items@.map_values(|p: (NodeId, Vec<u8>)| (p.0, p.1@))
    }

    /// Whether `r` sends pair `i`, or finishes when there is none.
    pub open spec fn sends(&self, i: int, r: Step<()>) -> bool {
        if 0 <= i < self.pairs().len() {
            store_call(r, self.to, self.pairs()[i].0, self.pairs()[i].1)
        } else {
            r == Step::<()>::Done(())
        }
    }

    /// Sends pair `index`.
    pub fn send(&self) -> (r: Step<()>)
        ensures
            self.sends(self.index as int, r),
    {
        if self.index < self.items.len() {
            let (key, value) = (&self.items[self.index].0, &self.items[self.index].1);
            Step::Call(NodeCall {
                address: self.to.address.clone(),
                message: DhtMessage::Store { key: *key, value: copy_bytes(value) },
            })
        } else {
            Step::Done(())
        }
    }

    /// Moves on to the next pair, whatever the answer to the last one was.
    pub fn advance(&mut self) -> (r: Step<()>)
        ensures
            final(self).to == old(self).to,
            final(self).items == old(self).items,
            old(self).index < old(self).items@.len() ==> final(self).index == old(self).index + 1,
            old(self).index >= old(self).items@.len() ==> final(self).index == old(self).index,
            final(self).sends(final(self).index as int, r),
    {
        if self.index < self.items.len() {
            self.index = self.index + 1;
        }
        self.send()
    }
}

/// Handling a notification from a node that believes it is this node's predecessor:
/// it is accepted when there is no predecessor or it lies between the predecessor and
/// this node, and then every stored value whose key lies in `(candidate, self]` is sent
/// to it.
pub struct NotifyOp {
    pub accepted: bool,
    pub transfer: Transfer,
}

impl NotifyOp {
    /// How the notification from `candidate` is taken at `before`: it is accepted when
    /// there is no predecessor or the candidate lies between the predecessor and this
    /// node, and then becomes the predecessor (and the successor of a node alone), and
    /// the values whose keys lie in `(candidate, self]` start going to it. The node
    /// becomes `after`, the operation `op`, and the step is `r`.
    pub open spec fn started(before: ChordNode, candidate: NodeInfo, op: NotifyOp, after: ChordNode, r: Step<()>) -> bool {
        &&& op.accepted == (match before.predecessor {
            None => true,
            Some(p) => in_interval(id_value(candidate.id), id_value(p.id), id_value(before.info.id)),
        })
        &&& op.accepted ==> after.predecessor == Some(candidate)
        &&& !op.accepted ==> after.predecessor == before.predecessor
        &&& op.accepted && before.successor.id == before.info.id ==> after.successor == candidate
        &&& !(op.accepted && before.successor.id == before.info.id) ==> after.successor == before.successor
        &&& after.info == before.info
        &&& after.successor_list == before.successor_list
        &&& after.finger_table == before.finger_table
        &&& after.data@ == before.data@
        &&& !op.accepted ==> r == Step::<()>::Done(())
        &&& op.accepted ==> {
            &&& op.transfer.to == candidate
            &&& op.transfer.index == 0
            &&& exists|range: Seq<(NodeId, Vec<Vec<u8>>)>|
                {
                    &&& keys_distinct(range)
                    &&& map_of(range.map_values(|e: (NodeId, Vec<Vec<u8>>)| entry_view(e))) == before.data@.restrict(
                        Set::new(|k: NodeId| in_transfer_range(k, candidate.id, before.info.id)),
                    )
                    &&& #[trigger] flatten_entries(range) == op.transfer.pairs()
                }
            &&& op.transfer.sends(0, r)
        }
    }

    /// How the transfer of `self` goes on after the answer to the last value sent: the
    /// operation becomes `op` and the step is `r`.
    pub open spec fn stepped(self, event: Event, op: NotifyOp, r: Step<()>) -> bool {
        &&& op.accepted == self.accepted
        &&& op.transfer.to == self.transfer.to
        &&& op.transfer.items == self.transfer.items
        &&& self.transfer.index < self.transfer.items@.len() ==> op.transfer.index == self.transfer.index + 1
        &&& op.transfer.sends(op.transfer.index as int, r)
    }

    /// Takes the notification from `candidate`.
    pub fn begin(node: &mut ChordNode, candidate: NodeInfo) -> (r: (NotifyOp, Step<()>))
        requires
            old(node).wf(),
        ensures
            final(node).wf(),
            NotifyOp::started(*old(node), candidate, r.0, *final(node), r.1),
    {
        let accepted = node.accept_predecessor(&candidate);
        if !accepted {
            let op = NotifyOp { accepted, transfer: Transfer { to: candidate, items: Vec::new(), index: 0 } };
            return (op, Step::Done(()));
        }
        let range = node.get_data_range(&candidate.id, &node.info.id);
        let items = flatten(&range);
        let op = NotifyOp { accepted, transfer: Transfer { to: candidate, items, index: 0 } };
        let r = op.transfer.send();
        proof {
            assert(flatten_entries(range@) == op.transfer.pairs());
        }
        (op, r)
    }

    /// Goes on with the transfer after the answer to the last value sent.
    pub fn step(&mut self, event: Event) -> (r: Step<()>)
        ensures
            old(self).stepped(event, *final(self), r),
    {
        self.transfer.advance()
    }
}

/// `list` filled up to `n` entries with copies of its last entry.
pub open spec fn padded(list: Seq<NodeInfo>, n: nat) -> Seq<NodeInfo> {
    if list.len() >= n || list.len() == 0 {
        list
    } else {
        list + Seq::new((n - list.len()) as nat, |k: int| list.last())
    }
}

/// Refreshing the successor list: starting from the successor, each listed node is
/// asked for its successor until the list is full, this node comes round again, or a
/// node does not answer; the rest is filled with the last node found.
pub struct SuccessorListUpdate {
    pub list: Vec<NodeInfo>,
    pub waiting: bool,
}

impl SuccessorListUpdate {
    pub open spec fn inv(&self) -> bool {
        &&& 1 <= self.list@.len() <= SUCCESSOR_LIST_SIZE
        &&& self.waiting ==> self.list@.len() < SUCCESSOR_LIST_SIZE
    }

    /// An upper bound on the calls still to come.
    pub open spec fn budget(&self) -> nat {
        if self.waiting {
            (SUCCESSOR_LIST_SIZE - self.list@.len()) as nat
        } else {
            0
        }
    }

    /// Whether `r` asks the last node found for its successor, or the update finished
    /// by installing the padded list on `node`.
    pub open spec fn went_on(self, old_node: ChordNode, node: ChordNode, r: Step<()>) -> bool {
        if self.list@.len() < SUCCESSOR_LIST_SIZE && self.list@.last().id != old_node.info.id {
            &&& self.waiting
            &&& r == call_to::<()>(self.list@.last(), DhtMessage::GetSuccessor)
            &&& node == old_node
        } else {
            &&& !self.waiting
            &&& r == Step::<()>::Done(())
            &&& node.successor_list@ == padded(self.list@, SUCCESSOR_LIST_SIZE as nat)
            &&& node.info == old_node.info
            &&& node.successor == old_node.successor
            &&& node.predecessor == old_node.predecessor
            &&& node.finger_table == old_node.finger_table
            &&& node.data == old_node.data
            &&& node.node_loads == old_node.node_loads
            &&& node.virtual_nodes == old_node.virtual_nodes
        }
    }

    /// How a refresh starts at `before`: the list holds the successor, and the refresh
    /// goes on from it, the node becoming `after` and the step being `r`.
    pub open spec fn began(before: ChordNode, u: SuccessorListUpdate, after: ChordNode, r: Step<()>) -> bool {
        &&& u.list@ == seq![before.successor]
        &&& u.went_on(before, after, r)
    }

    /// How the refresh `self` goes on after `event` at `before`: it becomes `u`, the node
    /// becomes `after`, and the step is `r`. A reply naming another node extends the
    /// list; any other event ends the refresh with the list as it is.
    pub open spec fn stepped(self, before: ChordNode, event: Event, u: SuccessorListUpdate, after: ChordNode, r: Step<()>) -> bool {
        &&& self.waiting ==> match event {
            Event::Reply(DhtMessage::FoundSuccessor { id, address, api_address }) => if id == before.info.id {
                u.list == self.list && !u.waiting && r == Step::<()>::Done(()) && after.successor_list@ == padded(
                    self.list@,
                    SUCCESSOR_LIST_SIZE as nat,
                )
            } else {
                u.list@ == self.list@.push(info_of(id, address, api_address)) && u.went_on(before, after, r)
            },
            _ => u.list == self.list && !u.waiting && r == Step::<()>::Done(()) && after.successor_list@ == padded(
                self.list@,
                SUCCESSOR_LIST_SIZE as nat,
            ),
        }
        &&& !self.waiting ==> r == Step::<()>::Done(()) && after == before
        &&& r is Done ==> !u.waiting
        &&& after.info == before.info
        &&& after.successor == before.successor
        &&& after.predecessor == before.predecessor
        &&& after.finger_table == before.finger_table
        &&& after.data == before.data
        &&& after.node_loads == before.node_loads
        &&& after.virtual_nodes == before.virtual_nodes
    }

    fn go_on(&mut self, node: &mut ChordNode) -> (r: Step<()>)
        requires
            old(node).wf(),
            1 <= old(self).list@.len() <= SUCCESSOR_LIST_SIZE,
        ensures
            final(node).wf(),
            final(self).inv(),
            final(self).list == old(self).list,
            final(self).went_on(*old(node), *final(node), r),
    {
        let n = self.list.len();
        if n < SUCCESSOR_LIST_SIZE && !same_id(&self.list[n - 1].id, &node.info.id) {
            self.waiting = true;
            return Step::Call(NodeCall { address: self.list[n - 1].address.clone(), message: DhtMessage::GetSuccessor });
        }
        self.finish_now(node)
    }

    /// Starts refreshing the successor list from the current successor.
    pub fn begin(node: &mut ChordNode) -> (r: (SuccessorListUpdate, Step<()>))
        requires
            old(node).wf(),
        ensures
            final(node).wf(),
            r.0.inv(),
            SuccessorListUpdate::began(*old(node), r.0, *final(node), r.1),
    {
        let mut list: Vec<NodeInfo> = Vec::new();
        list.push(node.successor.copied());
        assert(list@ =~= seq![node.successor]);
        let mut u = SuccessorListUpdate { list, waiting: false };
        let r = u.go_on(node);
        (u, r)
    }

    /// Goes on after the answer of the node last asked.
    pub fn step(&mut self, node: &mut ChordNode, event: Event) -> (r: Step<()>)
        requires
            old(node).wf(),
            old(self).inv(),
        ensures
            final(node).wf(),
            final(self).inv(),
            old(self).stepped(*old(node), event, *final(self), *final(node), r),
            r is Call ==> final(self).budget() < old(self).budget(),
    {
        if !self.waiting {
            return Step::Done(());
        }
        match event {
            Event::Reply(DhtMessage::FoundSuccessor { id, address, api_address }) => {
                if !same_id(&id, &node.info.id) {
                    self.list.push(NodeInfo { id, address, api_address });
                    return self.go_on(node);
                }
            },
            _ => {},
        }
        self.finish_now(node)
    }

    fn finish_now(&mut self, node: &mut ChordNode) -> (r: Step<()>)
        requires
            old(node).wf(),
            1 <= old(self).list@.len() <= SUCCESSOR_LIST_SIZE,
        ensures
            final(node).wf(),
            final(self).inv(),
            final(self).list == old(self).list,
            !final(self).waiting,
            r == Step::<()>::Done(()),
            final(node).successor_list@ == padded(old(self).list@, SUCCESSOR_LIST_SIZE as nat),
            final(node).info == old(node).info,
            final(node).successor == old(node).successor,
            final(node).predecessor == old(node).predecessor,
            final(node).finger_table == old(node).finger_table,
            final(node).data == old(node).data,
            final(node).node_loads == old(node).node_loads,
            final(node).virtual_nodes == old(node).virtual_nodes,
    {
        self.waiting = false;
        let n = self.list.len();
        let last = self.list[n - 1].copied();
        let mut full: Vec<NodeInfo> = Vec::new();
        let mut k: usize = 0;
        while k < n
            invariant
                k <= n,
                n == self.list@.len(),
                full@ == self.list@.subrange(0, k as int),
            decreases n - k,
        {
            full.push(self.list[k].copied());
            k = k + 1;
            assert(full@ =~= self.list@.subrange(0, k as int));
        }
        while full.len() < SUCCESSOR_LIST_SIZE
            invariant
                n == self.list@.len(),
                1 <= n <= SUCCESSOR_LIST_SIZE,
                n <= full@.len() <= SUCCESSOR_LIST_SIZE,
                last == self.list@.last(),
                full@ == self.list@ + Seq::new((full@.len() - n) as nat, |j: int| self.list@.last()),
            decreases SUCCESSOR_LIST_SIZE - full@.len(),
        {
            full.push(last.copied());
            assert(full@ =~= self.list@ + Seq::new((full@.len() - n) as nat, |j: int| self.list@.last()));
        }
        proof {
            if n >= SUCCESSOR_LIST_SIZE {
                assert(full@ =~= self.list@);
            }
        }
        node.successor_list = full;
        Step::Done(())
    }
}


/// Where a stabilization round waits.
pub enum StabilizePhase {
    AskPredecessor,
    Backup,
    Notifying,
    Refreshing,
    Done,
}

/// The call that tells this node's successor that this node may be its predecessor.
pub open spec fn notify_call<T>(node: ChordNode) -> Step<T> {
    call_to(
        node.successor,
        DhtMessage::Notify { id: node.info.id, address: node.info.address, api_address: node.info.api_address },
    )
}

/// Whether `new` is `old` with at most the successor, successor list and predecessor
/// changed.
pub open spec fn only_links_changed(old: ChordNode, new: ChordNode) -> bool {
    &&& new.info == old.info
    &&& new.finger_table == old.finger_table
    &&& new.data == old.data
    &&& new.node_loads == old.node_loads
    &&& new.virtual_nodes == old.virtual_nodes
}

/// One round of stabilization: the successor is asked for its predecessor, which
/// becomes the new successor when it lies between this node and the successor; the
/// successor is then notified and the successor list refreshed. When the successor
/// does not answer, the first live node of the successor list takes its place.
pub struct Stabilize {
    pub phase: StabilizePhase,
    pub successor: NodeInfo,
    pub backup: LiveSuccessorSearch,
    pub refresh: SuccessorListUpdate,
}

impl Stabilize {
    pub open spec fn inv(&self) -> bool {
        &&& self.backup.inv()
        &&& self.refresh.inv()
    }

    /// Starts a round.
    pub fn begin(node: &mut ChordNode) -> (r: (Stabilize, Step<()>))
        requires
            old(node).wf(),
        ensures
            final(node).wf(),
            r.0.inv(),
            only_links_changed(*old(node), *final(node)),
            r.0.successor == old(node).successor,
            old(node).successor.id == old(node).info.id ==> {
                &&& final(node).predecessor is None
                &&& final(node).successor == old(node).successor
                &&& final(node).successor_list == old(node).successor_list
                &&& r.1 == Step::<()>::Done(())
                &&& r.0.phase is Done
            },
            old(node).successor.id != old(node).info.id ==> {
                &&& *final(node) == *old(node)
                &&& r.1 == call_to::<()>(old(node).successor, DhtMessage::GetPredecessor)
                &&& r.0.phase is AskPredecessor
            },
    {
        let mut list: Vec<NodeInfo> = Vec::new();
        list.push(node.info.copied());
        let st = Stabilize {
            phase: StabilizePhase::Done,
            successor: node.successor.copied(),
            backup: LiveSuccessorSearch { candidates: Vec::new(), index: 0, waiting: false },
            refresh: SuccessorListUpdate { list, waiting: false },
        };
        if same_id(&node.successor.id, &node.info.id) {
            node.predecessor = None;
            return (st, Step::Done(()));
        }
        let st = Stabilize { phase: StabilizePhase::AskPredecessor, ..st };
        let r = Step::Call(NodeCall { address: node.successor.address.clone(), message: DhtMessage::GetPredecessor });
        (st, r)
    }

    fn notify_successor(&mut self, node: &ChordNode) -> (r: Step<()>)
        ensures
            final(self).phase is Notifying,
            final(self).successor == old(self).successor,
            final(self).backup == old(self).backup,
            final(self).refresh == old(self).refresh,
            r == notify_call::<()>(*node),
    {
        self.phase = StabilizePhase::Notifying;
        Step::Call(NodeCall {
            address: node.successor.address.clone(),
            message: DhtMessage::Notify {
                id: node.info.id,
                address: node.info.address.clone(),
                api_address: node.info.api_address.clone(),
            },
        })
    }

    fn start_refresh(&mut self, node: &mut ChordNode) -> (r: Step<()>)
        requires
            old(node).wf(),
            old(self).inv(),
        ensures
            final(node).wf(),
            final(self).inv(),
            final(self).successor == old(self).successor,
            final(self).backup == old(self).backup,
            final(self).refresh.list@ == seq![old(node).successor],
            final(self).refresh.went_on(*old(node), *final(node), r),
            r is Call ==> final(self).phase is Refreshing,
            r is Done ==> final(self).phase is Done,
    {
        let (refresh, r) = SuccessorListUpdate::begin(node);
        self.refresh = refresh;
        match r {
            Step::Call(c) => {
                self.phase = StabilizePhase::Refreshing;
                Step::Call(c)
            },
            Step::Done(()) => {
                self.phase = StabilizePhase::Done;
                Step::Done(())
            },
        }
    }

    fn after_backup(&mut self, node: &mut ChordNode, b: Step<Option<NodeInfo>>) -> (r: Step<()>)
        requires
            old(node).wf(),
            old(self).inv(),
        ensures
            final(node).wf(),
            final(self).inv(),
            only_links_changed(*old(node), *final(node)),
            final(self).successor == old(self).successor,
            final(self).backup == old(self).backup,
            r is Done <==> final(self).phase is Done,
            b is Done && r is Call ==> final(self).phase is Refreshing,
            b matches Step::Call(c) ==> r == Step::<()>::Call(c) && final(self).phase is Backup && *final(node)
                == *old(node) && final(self).backup == old(self).backup,
            b matches Step::Done(None) ==> r == Step::<()>::Done(()) && *final(node) == *old(node),
            b matches Step::Done(Some(n)) ==> final(self).refresh.list@ == seq![n] && exists|mid: ChordNode|
                {
                    &&& mid == ChordNode { successor: n, ..*old(node) }
                    &&& #[trigger] final(self).refresh.went_on(mid, *final(node), r)
                },
    {
        match b {
            Step::Call(c) => {
                self.phase = StabilizePhase::Backup;
                Step::Call(c)
            },
            Step::Done(None) => {
                self.phase = StabilizePhase::Done;
                Step::Done(())
            },
            Step::Done(Some(n)) => {
                node.successor = n;
                let ghost mid = *node;
                let r = self.start_refresh(node);
                proof {
                    assert(final(self).refresh.went_on(mid, *node, r));
                }
                r
            },
        }
    }

    /// Goes on with the round after `event`.
    pub fn step(&mut self, node: &mut ChordNode, event: Event) -> (r: Step<()>)
        requires
            old(node).wf(),
            old(self).inv(),
        ensures
            final(node).wf(),
            final(self).inv(),
            only_links_changed(*old(node), *final(node)),
            old(self).phase is AskPredecessor ==> match event {
                Event::Failure => exists|b: Step<Option<NodeInfo>>|
                    {
                        &&& final(self).backup.candidates@ == old(node).successor_list@
                        &&& (final(self).backup.index as int, b) == probe_from(
                            old(node).successor_list@,
                            old(node).info.id,
                            0,
                        )
                        &&& #[trigger] stabilize_backup_outcome(*old(node), *final(node), *final(self), b, r)
                    },
                Event::Reply(msg) => {
                    &&& final(node).predecessor == old(node).predecessor
                    &&& final(node).successor_list == old(node).successor_list
                    &&& (match msg {
                        DhtMessage::Predecessor { id: Some(x), address: Some(a), api_address: Some(api) } =>
                            if in_interval(id_value(x), id_value(old(node).info.id), id_value(old(self).successor.id)) {
                            final(node).successor == info_of(x, a, api)
                        } else {
                            final(node).successor == old(node).successor
                        },
                        _ => final(node).successor == old(node).successor,
                    })
                    &&& r == notify_call::<()>(*final(node))
                    &&& final(self).phase is Notifying
                },
            },
            old(self).phase is Backup ==> exists|b: Step<Option<NodeInfo>>|
                {
                    &&& final(self).backup.candidates == old(self).backup.candidates
                    &&& (!old(self).backup.waiting ==> b == Step::<Option<NodeInfo>>::Done(None))
                    &&& (old(self).backup.waiting && event == Event::Reply(DhtMessage::Pong) ==> b == Step::Done(
                        Some(old(self).backup.candidates@[old(self).backup.index as int]),
                    ))
                    &&& (old(self).backup.waiting && event != Event::Reply(DhtMessage::Pong) ==> (
                        final(self).backup.index as int,
                        b,
                    ) == probe_from(old(self).backup.candidates@, old(node).info.id, old(self).backup.index + 1))
                    &&& #[trigger] stabilize_backup_outcome(*old(node), *final(node), *final(self), b, r)
                },
            old(self).phase is Notifying ==> {
                &&& final(self).refresh.list@ == seq![old(node).successor]
                &&& final(self).refresh.went_on(*old(node), *final(node), r)
                &&& r is Call ==> final(self).phase is Refreshing
            },
            old(self).phase is Refreshing ==> {
                &&& old(self).refresh.stepped(*old(node), event, final(self).refresh, *final(node), r)
                &&& r is Call ==> final(self).phase is Refreshing
            },
            old(self).phase is Done ==> r == Step::<()>::Done(()) && *final(node) == *old(node),
            r is Done <==> final(self).phase is Done,
    {
        match self.phase {
            StabilizePhase::AskPredecessor => match event {
                Event::Failure => {
                    let (backup, b) = LiveSuccessorSearch::begin(node);
                    self.backup = backup;
                    let ghost bk = self.backup;
                    let ghost n0 = *node;
                    let r = self.after_backup(node, b);
                    proof {
                        assert(stabilize_backup_outcome(n0, *node, *self, b, r));
                    }
                    r
                },
                Event::Reply(msg) => {
                    match msg {
                        DhtMessage::Predecessor { id: Some(x), address: Some(a), api_address: Some(api) } => {
                            if is_between(&x, &node.info.id, &self.successor.id) {
                                node.successor = NodeInfo { id: x, address: a, api_address: api };
                            }
                        },
                        _ => {},
                    }
                    self.notify_successor(node)
                },
            },
            StabilizePhase::Backup => {
                let ghost n0 = *node;
                let b = self.backup.step(&node.info.id, event);
                let r = self.after_backup(node, b);
                proof {
                    assert(stabilize_backup_outcome(n0, *node, *self, b, r));
                }
                r
            },
            StabilizePhase::Notifying => self.start_refresh(node),
            StabilizePhase::Refreshing => {
                match self.refresh.step(node, event) {
                    Step::Call(c) => Step::Call(c),
                    Step::Done(()) => {
                        self.phase = StabilizePhase::Done;
                        Step::Done(())
                    },
                }
            },
            StabilizePhase::Done => Step::Done(()),
        }
    }
}

/// How a round goes on from a step `b` of its search for a live successor.
pub open spec fn stabilize_backup_outcome(
    old_node: ChordNode,
    node: ChordNode,
    s: Stabilize,
    b: Step<Option<NodeInfo>>,
    r: Step<()>,
) -> bool {
    match b {
        Step::Call(c) => r == Step::<()>::Call(c) && s.phase is Backup && node == old_node,
        Step::Done(None) => r == Step::<()>::Done(()) && node == old_node,
        Step::Done(Some(n)) => s.refresh.list@ == seq![n] && s.refresh.went_on(
            ChordNode { successor: n, ..old_node },
            node,
            r,
        ) && (r is Call ==> s.phase is Refreshing),
    }
}


/// Refreshing finger `index`: it becomes the successor of `self + 2^index`.
pub struct FixFingers {
    pub index: usize,
    pub target: NodeId,
    pub search: SuccessorSearch,
}

/// The step of a finger's successor search that a refresh step `r` stands for: the
/// same call, or the search's answer when the refresh is done.
pub open spec fn search_step_of(r: Step<()>, answer: NodeInfo) -> Step<NodeInfo> {
    match r {
        Step::Call(c) => Step::Call(c),
        Step::Done(_) => Step::Done(answer),
    }
}

/// A finger index drawn at random from `1..160` (`Rng::gen_range` with `thread_rng`).
/// Which index comes out is chance; it always lies in that range.
#[verifier::external_body]
fn random_finger_index() -> (r: usize)
    ensures
        1 <= r < ID_BITS,
{
    rand::Rng::gen_range(&mut rand::thread_rng(), 1..ID_BITS)
}

impl FixFingers {
    pub open spec fn inv(&self) -> bool {
        self.search.inv()
    }

    /// How refreshing finger `index` starts at `before`: the search for the successor of
    /// `before + 2^index` starts, and when it ends at once its answer becomes the finger.
    /// The refresh becomes `op`, the node `after`, and the step is `r`.
    pub open spec fn started(before: ChordNode, index: usize, op: FixFingers, after: ChordNode, r: Step<()>) -> bool {
        &&& op.index == index
        &&& id_value(op.target) == (id_value(before.info.id) + pow2(index as nat)) % ring_size()
        &&& search_started(before, op.target, op.search, search_step_of(r, op.search.answer))
        &&& r is Call ==> after == before
        &&& r is Done ==> index < ID_BITS ==> after.finger_table@ == before.finger_table@.update(
            index as int,
            op.search.answer,
        )
        &&& r is Done ==> index >= ID_BITS ==> after.finger_table@ == before.finger_table@
        &&& after.info == before.info
        &&& after.data@ == before.data@
        &&& after.successor == before.successor
        &&& after.successor_list == before.successor_list
        &&& after.predecessor == before.predecessor
    }

    /// How refreshing a finger picked at random starts: the index drawn lies in `1..160`,
    /// and the refresh of that finger starts as `started` says.
    pub open spec fn started_random(before: ChordNode, op: FixFingers, after: ChordNode, r: Step<()>) -> bool {
        &&& 1 <= op.index < ID_BITS
        &&& FixFingers::started(before, op.index, op, after, r)
    }

    /// How the refresh `self` goes on after `event` at `before`: the search goes on, and
    /// when it ends its answer becomes the finger. The refresh becomes `op`, the node
    /// `after`, and the step is `r`.
    pub open spec fn stepped(self, before: ChordNode, event: Event, op: FixFingers, after: ChordNode, r: Step<()>) -> bool {
        &&& op.index == self.index
        &&& op.target == self.target
        &&& self.search.stepped(before, event, op.search, search_step_of(r, op.search.answer))
        &&& r is Call ==> after == before
        &&& r is Done ==> self.index < ID_BITS ==> after.finger_table@ == before.finger_table@.update(
            self.index as int,
            op.search.answer,
        )
        &&& r is Done ==> self.index >= ID_BITS ==> after.finger_table@ == before.finger_table@
        &&& after.info == before.info
        &&& after.successor == before.successor
        &&& after.successor_list == before.successor_list
        &&& after.predecessor == before.predecessor
        &&& after.data@ == before.data@
    }

    /// Starts refreshing a finger picked at random, any but the first (which is kept by
    /// stabilization).
    pub fn begin_random(node: &mut ChordNode) -> (r: (FixFingers, Step<()>))
        requires
            old(node).wf(),
        ensures
            final(node).wf(),
            r.0.inv(),
            FixFingers::started_random(*old(node), r.0, *final(node), r.1),
    {
        let index = random_finger_index();
        FixFingers::begin(node, index)
    }

    /// Starts refreshing finger `index`.
    pub fn begin(node: &mut ChordNode, index: usize) -> (r: (FixFingers, Step<()>))
        requires
            old(node).wf(),
        ensures
            final(node).wf(),
            r.0.inv(),
            FixFingers::started(*old(node), index, r.0, *final(node), r.1),
    {
        let target = add_id_power_of_2(&node.info.id, index);
        let (search, s) = SuccessorSearch::begin(node, target);
        let op = FixFingers { index, target, search };
        match s {
            Step::Call(c) => (op, Step::Call(c)),
            Step::Done(n) => {
                node.set_finger(index, n);
                (op, Step::Done(()))
            },
        }
    }

    /// Goes on with the search after `event`; when it ends, its answer becomes the
    /// finger.
    pub fn step(&mut self, node: &mut ChordNode, event: Event) -> (r: Step<()>)
        requires
            old(node).wf(),
            old(self).inv(),
        ensures
            final(node).wf(),
            final(self).inv(),
            old(self).stepped(*old(node), event, *final(self), *final(node), r),
    {
        match self.search.step(node, event) {
            Step::Call(c) => Step::Call(c),
            Step::Done(n) => {
                node.set_finger(self.index, n);
                Step::Done(())
            },
        }
    }
}

/// `m` with the values of each entry of `t` appended under its key, entry by entry.
pub open spec fn merged(m: Map<NodeId, Seq<Seq<u8>>>, t: Seq<(NodeId, Vec<Vec<u8>>)>) -> Map<NodeId, Seq<Seq<u8>>>
    decreases t.len(),
{
    if t.len() == 0 {
        m
    } else {
        let before = merged(m, t.drop_last());
        before.insert(t.last().0, values_at(before, t.last().0) + byte_lists(t.last().1@))
    }
}

/// Where a predecessor check waits.
pub enum CheckPhase {
    Pinging,
    Reconciling,
    Done,
}

/// Checking that the predecessor is alive. When it does not answer, it is forgotten,
/// and the replicas for the range this node now answers for, `(failed, self]`, are
/// requested from the distinct nodes of the successor list and every fourth finger;
/// what they send is merged into the store.
pub struct CheckPredecessor {
    pub phase: CheckPhase,
    pub failed: NodeInfo,
    pub start: NodeId,
    pub sources: Vec<NodeInfo>,
    pub index: usize,
}

impl CheckPredecessor {
    pub open spec fn inv(&self) -> bool {
        self.phase is Reconciling ==> self.index < self.sources@.len()
    }

    /// Whether `r` asks source `i` for replicas, or finishes when there is none.
    pub open spec fn asks(&self, me: NodeInfo, i: int, r: Step<()>) -> bool {
        if 0 <= i < self.sources@.len() {
            &&& self.phase is Reconciling
            &&& self.index == i
            &&& r == call_to::<()>(
                self.sources@[i],
                DhtMessage::RequestReplicas { key_range_start: self.start, key_range_end: me.id },
            )
        } else {
            self.phase is Done && r == Step::<()>::Done(())
        }
    }

    fn ask(&mut self, me: &NodeInfo, i: usize) -> (r: Step<()>)
        ensures
            final(self).failed == old(self).failed,
            final(self).start == old(self).start,
            final(self).sources == old(self).sources,
            final(self).inv(),
            final(self).asks(*me, i as int, r),
    {
        if i < self.sources.len() {
            self.index = i;
            self.phase = CheckPhase::Reconciling;
            Step::Call(NodeCall {
                address: self.sources[i].address.clone(),
                message: DhtMessage::RequestReplicas { key_range_start: self.start, key_range_end: me.id },
            })
        } else {
            self.phase = CheckPhase::Done;
            Step::Done(())
        }
    }

    /// How the check `self` goes on after `event` at `before`: it becomes `after`, the
    /// node `after_node`, and the step is `r`.
    pub open spec fn stepped(self, before: ChordNode, event: Event, after: CheckPredecessor, after_node: ChordNode, r: Step<()>) -> bool {
        &&& after_node.info == before.info
        &&& after_node.successor == before.successor
        &&& after_node.successor_list == before.successor_list
        &&& after_node.finger_table == before.finger_table
        &&& self.phase is Pinging ==> match event {
            Event::Reply(DhtMessage::Pong) => r == Step::<()>::Done(()) && after_node == before,
            _ => {
                &&& after_node.predecessor is None
                &&& after_node.data@ == before.data@
                &&& after.failed == self.failed
                &&& after.start == self.failed.id
                &&& crate::selection::is_unique_sorted_of(after.sources@, before.reconcile_pool(), seq![before.info.id])
                &&& after.asks(before.info, 0, r)
            },
        }
        &&& self.phase is Reconciling ==> {
            &&& after_node.predecessor == before.predecessor
            &&& after.failed == self.failed
            &&& after.sources == self.sources
            &&& after.start == self.start
            &&& (match event {
                Event::Reply(DhtMessage::ReplicaData { replicas }) => after_node.data@ == merged(before.data@, replicas@),
                _ => after_node.data@ == before.data@,
            })
            &&& after.asks(before.info, self.index + 1, r)
        }
        &&& self.phase is Done ==> r == Step::<()>::Done(()) && after_node == before
    }

    /// Starts the check: the predecessor, if any, is pinged.
    pub fn begin(node: &ChordNode) -> (r: (CheckPredecessor, Step<()>))
        ensures
            r.0.inv(),
            node.predecessor is None ==> r.1 == Step::<()>::Done(()) && r.0.phase is Done,
            node.predecessor matches Some(p) ==> r.1 == call_to::<()>(p, DhtMessage::Ping) && r.0.phase is Pinging
                && r.0.failed == p,
    {
        match &node.predecessor {
            None => (
                CheckPredecessor {
                    phase: CheckPhase::Done,
                    failed: node.info.copied(),
                    start: node.info.id,
                    sources: Vec::new(),
                    index: 0,
                },
                Step::Done(()),
            ),
            Some(p) => (
                CheckPredecessor {
                    phase: CheckPhase::Pinging,
                    failed: p.copied(),
                    start: p.id,
                    sources: Vec::new(),
                    index: 0,
                },
                Step::Call(NodeCall { address: p.address.clone(), message: DhtMessage::Ping }),
            ),
        }
    }

    /// Goes on after `event`.
    pub fn step(&mut self, node: &mut ChordNode, event: Event) -> (r: Step<()>)
        requires
            old(node).wf(),
            old(self).inv(),
        ensures
            final(node).wf(),
            final(self).inv(),
            old(self).stepped(*old(node), event, *final(self), *final(node), r),
    {
        match self.phase {
            CheckPhase::Pinging => {
                let pong = match event {
                    Event::Reply(DhtMessage::Pong) => true,
                    _ => false,
                };
                if pong {
                    self.phase = CheckPhase::Done;
                    return Step::Done(());
                }
                node.predecessor = None;
                self.start = match &node.predecessor {
                    Some(p) => p.id,
                    None => self.failed.id,
                };
                self.sources = node.reconcile_sources();
                self.ask(&node.info, 0)
            },
            CheckPhase::Reconciling => {
                match event {
                    Event::Reply(DhtMessage::ReplicaData { replicas }) => {
                        let mut i: usize = 0;
                        while i < replicas.len()
                            invariant
                                node.wf(),
                                i <= replicas@.len(),
                                node.data@ == merged(old(node).data@, replicas@.take(i as int)),
                                node.info == old(node).info,
                                node.successor == old(node).successor,
                                node.successor_list == old(node).successor_list,
                                node.finger_table == old(node).finger_table,
                                node.predecessor == old(node).predecessor,
                            decreases replicas@.len() - i,
                        {
                            let key = replicas[i].0;
                            let values = crate::store::copy_values(&replicas[i].1);
                            node.data.extend(key, values);
                            proof {
                                assert(replicas@.take(i + 1).drop_last() =~= replicas@.take(i as int));
                                assert(replicas@.take(i + 1).last() == replicas@[i as int]);
                            }
                            i = i + 1;
                        }
                        assert(replicas@.take(i as int) =~= replicas@);
                    },
                    _ => {},
                }
                let len = self.sources.len();
                assert(self.index < len);
                let next = self.index + 1;
                self.ask(&node.info, next)
            },
            CheckPhase::Done => Step::Done(()),
        }
    }
}


/// The number of keys looked at in one rebalancing round.
pub const REBALANCE_BATCH: usize = 10;

/// What a rebalancing round does next: send a call, ask whether the least loaded
/// replica is loaded well enough below this node to take a key (comparing their load
/// keys), or finish.
pub enum RebalanceStep {
    Call(NodeCall),
    Judge { target_load: u32, own_load: u32 },
    Done,
}

/// Where a rebalancing round waits.
pub enum RebalancePhase {
    Locating,
    Judging,
    Migrating,
    Done,
}

/// The nodes of `reps` other than `me`.
pub open spec fn others(reps: Seq<NodeInfo>, me: NodeId) -> Seq<NodeInfo> {
    reps.filter(|n: NodeInfo| n.id != me)
}

/// Whether `t` is the least loaded node of `reps` other than this node, a node with no
/// reported load counting as fully loaded (ties go to the earlier node).
pub open spec fn is_migration_target(node: ChordNode, t: NodeInfo, reps: Seq<NodeInfo>) -> bool {
    exists|o: Seq<NodeInfo>|
        #[trigger] is_load_order(o, others(reps, node.info.id), node.node_loads@, FULL_LOAD_KEY) && o.len() > 0
            && o[0] == t
}

/// The nodes of `reps` other than `me`.
fn without(reps: &Vec<NodeInfo>, me: &NodeId) -> (r: Vec<NodeInfo>)
    ensures
        r@ == others(reps@, *me),
{
    let mut r: Vec<NodeInfo> = Vec::new();
    let mut i: usize = 0;
    while i < reps.len()
        invariant
            i <= reps@.len(),
            r@ == others(reps@.take(i as int), *me),
        decreases reps@.len() - i,
    {
        proof {
            assert(reps@.take(i + 1) =~= reps@.take(i as int).push(reps@[i as int]));
            reps@.take(i as int).lemma_filter_push(reps@[i as int], |n: NodeInfo| n.id != *me);
        }
        if !same_id(&reps[i].id, me) {
            r.push(reps[i].copied());
        }
        i = i + 1;
    }
    assert(reps@.take(i as int) =~= reps@);
    r
}

/// Moving load off this node: for each of the first ten stored keys, its least loaded
/// replica other than this node is found; when it is loaded well enough below this
/// node, the key's values are removed here and stored there, a value whose transfer
/// fails being kept here.
pub struct Rebalance {
    pub phase: RebalancePhase,
    pub keys: Vec<NodeId>,
    pub index: usize,
    pub lookup: Option<ReplicaLookup>,
    pub target: NodeInfo,
    pub transfer: Transfer,
}

impl Rebalance {
    pub open spec fn inv(&self) -> bool {
        &&& self.phase !is Done ==> self.index < self.keys@.len()
        &&& self.phase is Locating ==> self.lookup is Some && self.lookup->Some_0.inv()
        &&& self.phase is Migrating ==> self.transfer.index < self.transfer.items@.len()
    }

    /// Whether `r` asks about moving key `index` to `target`, chosen from `reps`.
    pub open spec fn judging(&self, node: ChordNode, r: RebalanceStep) -> bool {
        &&& self.phase is Judging
        &&& r == RebalanceStep::Judge {
            target_load: load_key(node.node_loads@, self.target.id, FULL_LOAD_KEY),
            own_load: load_key(node.node_loads@, node.info.id, ZERO_LOAD_KEY),
        }
        &&& exists|reps: Seq<NodeInfo>|
            node.is_replica_choice(reps[0], reps) && #[trigger] is_migration_target(node, self.target, reps)
    }

    fn judge(&mut self, node: &ChordNode, reps: Vec<NodeInfo>) -> (r: Option<RebalanceStep>)
        requires
            node.wf(),
            node.is_replica_choice(reps@[0], reps@),
            old(self).index < old(self).keys@.len(),
        ensures
            final(self).keys == old(self).keys,
            final(self).index == old(self).index,
            final(self).lookup == old(self).lookup,
            final(self).transfer == old(self).transfer,
            r is None ==> others(reps@, node.info.id).len() == 0 && final(self).phase == old(self).phase,
            r matches Some(s) ==> final(self).judging(*node, s),
    {
        let cands = without(&reps, &node.info.id);
        if cands.len() == 0 {
            return None;
        }
        let ordered = order_by_load(&cands, &node.node_loads, FULL_LOAD_KEY);
        let target = ordered[0].copied();
        let target_load = node.node_loads.key_or(&target.id, FULL_LOAD_KEY);
        let own_load = node.node_loads.key_or(&node.info.id, ZERO_LOAD_KEY);
        self.target = target;
        self.phase = RebalancePhase::Judging;
        proof {
            assert(is_migration_target(*node, self.target, reps@));
        }
        Some(RebalanceStep::Judge { target_load, own_load })
    }

    fn next_key(&mut self, node: &ChordNode, from: usize) -> (r: RebalanceStep)
        requires
            node.wf(),
            from <= old(self).keys@.len(),
        ensures
            final(self).inv(),
            final(self).keys == old(self).keys,
            final(self).phase !is Done ==> final(self).index >= from,
            r is Done ==> final(self).phase is Done,
            r is Call ==> final(self).phase is Locating,
            r is Judge ==> final(self).judging(*node, r),
    {
        let mut j = from;
        while j < self.keys.len()
            invariant
                node.wf(),
                from <= j <= self.keys@.len(),
                self.keys == old(self).keys,
            decreases self.keys@.len() - j,
        {
            let (lookup, st) = ReplicaLookup::begin(node, self.keys[j]);
            self.index = j;
            match st {
                Step::Call(c) => {
                    self.lookup = Some(lookup);
                    self.phase = RebalancePhase::Locating;
                    return RebalanceStep::Call(c);
                },
                Step::Done(reps) => {
                    match self.judge(node, reps) {
                        Some(s) => return s,
                        None => {},
                    }
                },
            }
            j = j + 1;
        }
        self.phase = RebalancePhase::Done;
        RebalanceStep::Done
    }

    /// Starts a round with the first ten keys in the store.
    pub fn begin(node: &ChordNode) -> (r: (Rebalance, RebalanceStep))
        requires
            node.wf(),
        ensures
            r.0.inv(),
            r.0.keys@ == node.data.key_order().take(
                if REBALANCE_BATCH <= node.data.key_order().len() { REBALANCE_BATCH as int } else { node.data.key_order().len() as int },
            ),
            r.1 is Done ==> r.0.phase is Done,
            r.1 is Call ==> r.0.phase is Locating,
            r.1 is Judge ==> r.0.judging(*node, r.1),
    {
        let keys = node.data.first_keys(REBALANCE_BATCH);
        let mut op = Rebalance {
            phase: RebalancePhase::Done,
            keys,
            index: 0,
            lookup: None,
            target: node.info.copied(),
            transfer: Transfer { to: node.info.copied(), items: Vec::new(), index: 0 },
        };
        let r = op.next_key(node, 0);
        (op, r)
    }

    /// Goes on after `event` while locating replicas or migrating.
    pub fn step(&mut self, node: &mut ChordNode, event: Event) -> (r: RebalanceStep)
        requires
            old(node).wf(),
            old(self).inv(),
            old(self).phase !is Judging,
        ensures
            final(node).wf(),
            final(self).inv(),
            final(self).keys == old(self).keys,
            final(node).info == old(node).info,
            final(node).successor == old(node).successor,
            final(node).successor_list == old(node).successor_list,
            final(node).predecessor == old(node).predecessor,
            final(node).finger_table == old(node).finger_table,
            old(self).phase is Locating ==> final(node).data@ == old(node).data@,
            old(self).phase is Migrating ==> match event {
                Event::Failure => final(node).data@ == old(node).data@.insert(
                    old(self).transfer.pairs()[old(self).transfer.index as int].0,
                    values_at(old(node).data@, old(self).transfer.pairs()[old(self).transfer.index as int].0).push(
                        old(self).transfer.pairs()[old(self).transfer.index as int].1,
                    ),
                ),
                _ => final(node).data@ == old(node).data@,
            },
            old(self).phase is Migrating && final(self).phase is Migrating ==> final(self).transfer.items
                == old(self).transfer.items && final(self).transfer.index == old(self).transfer.index + 1
                && final(self).transfer.sends(final(self).transfer.index as int, Step::<()>::Call(r->Call_0)),
            r is Judge ==> final(self).judging(*final(node), r),
            old(self).phase is Done ==> r is Done && *final(node) == *old(node),
    {
        match self.phase {
            RebalancePhase::Locating => {
                let mut lookup = self.lookup.take().unwrap();
                let st = lookup.step(node, event);
                self.lookup = Some(lookup);
                match st {
                    Step::Call(c) => RebalanceStep::Call(c),
                    Step::Done(reps) => {
                        match self.judge(node, reps) {
                            Some(s) => s,
                            None => {
                                let len = self.keys.len();
                                assert(self.index < len);
                                let next = self.index + 1;
                                self.next_key(node, next)
                            },
                        }
                    },
                }
            },
            RebalancePhase::Migrating => {
                match event {
                    Event::Failure => {
                        let key = self.transfer.items[self.transfer.index].0;
                        let value = copy_bytes(&self.transfer.items[self.transfer.index].1);
                        node.data.append(key, value);
                    },
                    _ => {},
                }
                match self.transfer.advance() {
                    Step::Call(c) => RebalanceStep::Call(c),
                    Step::Done(()) => {
                        let len = self.keys.len();
                        assert(self.index < len);
                        let next = self.index + 1;
                        self.next_key(node, next)
                    },
                }
            },
            RebalancePhase::Judging => RebalanceStep::Done,
            RebalancePhase::Done => RebalanceStep::Done,
        }
    }

    /// Acts on the verdict about the key under consideration: when the key is to
    /// move, its values are removed here and sent to the target.
    pub fn decide(&mut self, node: &mut ChordNode, migrate: bool) -> (r: RebalanceStep)
        requires
            old(node).wf(),
            old(self).inv(),
            old(self).phase is Judging,
        ensures
            final(node).wf(),
            final(self).inv(),
            final(self).keys == old(self).keys,
            final(node).info == old(node).info,
            final(node).successor == old(node).successor,
            final(node).successor_list == old(node).successor_list,
            final(node).predecessor == old(node).predecessor,
            final(node).finger_table == old(node).finger_table,
            !migrate ==> final(node).data@ == old(node).data@,
            migrate ==> final(node).data@ == old(node).data@.remove(old(self).keys@[old(self).index as int]),
            migrate && final(self).phase is Migrating ==> {
                &&& final(self).transfer.to == old(self).target
                &&& final(self).transfer.index == 0
                &&& final(self).transfer.pairs() == values_at(old(node).data@, old(self).keys@[old(self).index as int]).map_values(
                    |v: Seq<u8>| (old(self).keys@[old(self).index as int], v),
                )
                &&& final(self).transfer.sends(0, Step::<()>::Call(r->Call_0))
            },
            r is Judge ==> final(self).judging(*final(node), r),
    {
        let key = self.keys[self.index];
        let len = self.keys.len();
        assert(self.index < len);
        let next = self.index + 1;
        if !migrate {
            return self.next_key(node, next);
        }
        match node.data.remove(&key) {
            Some(values) => {
                let mut items: Vec<(NodeId, Vec<u8>)> = Vec::new();
                let mut k: usize = 0;
                while k < values.len()
                    invariant
                        k <= values@.len(),
                        items@.map_values(|p: (NodeId, Vec<u8>)| (p.0, p.1@)) == byte_lists(values@).take(k as int).map_values(
                            |v: Seq<u8>| (key, v),
                        ),
                    decreases values@.len() - k,
                {
                    let ghost before = items@;
                    let c = copy_bytes(&values[k]);
                    items.push((key, c));
                    proof {
                        assert(items@.map_values(|p: (NodeId, Vec<u8>)| (p.0, p.1@)) =~= before.map_values(
                            |p: (NodeId, Vec<u8>)| (p.0, p.1@),
                        ).push((key, c@)));
                        assert(byte_lists(values@).take(k + 1).map_values(|v: Seq<u8>| (key, v)) =~= byte_lists(
                            values@,
                        ).take(k as int).map_values(|v: Seq<u8>| (key, v)).push((key, values@[k as int]@)));
                    }
                    k = k + 1;
                }
                assert(byte_lists(values@).take(k as int) =~= byte_lists(values@));
                self.transfer = Transfer { to: self.target.copied(), items, index: 0 };
                match self.transfer.send() {
                    Step::Call(c) => {
                        self.phase = RebalancePhase::Migrating;
                        RebalanceStep::Call(c)
                    },
                    Step::Done(()) => self.next_key(node, next),
                }
            },
            None => self.next_key(node, next),
        }
    }
}

} // verus!
