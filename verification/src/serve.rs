use vstd::prelude::*;
use crate::lookup::{info_of, search_started, Event, LookupPhase, NodeCall, PredecessorSearch, Step, SuccessorSearch};
use crate::maintenance::NotifyOp;
use crate::messages::{DhtMessage, MetricsBits};
use crate::node::{ChordNode, NodeInfo};
use crate::ring::NodeId;
use crate::storage::{RetrieveOp, StoreOp};
use crate::store::{byte_lists, entry_view, in_transfer_range, keys_distinct, map_of, values_at};

verus! {

/// The most connections a node serves at once.
pub const MAX_CONNECTIONS: u32 = 100;

/// The largest request a node reads, in bytes.
pub const MAX_MESSAGE_SIZE: usize = 1048576;

/// Whether a new connection is served, given how many are being served.
pub fn admit_connection(active: u32) -> (r: bool)
    ensures
        r == (active < MAX_CONNECTIONS),
{
    active < MAX_CONNECTIONS
}

/// Whether `incoming` more bytes still fit in a request of which `buffered` bytes
/// were read.
pub fn fits_message(buffered: usize, incoming: usize) -> (r: bool)
    ensures
        r == (buffered + incoming <= MAX_MESSAGE_SIZE),
{
    buffered <= MAX_MESSAGE_SIZE && incoming <= MAX_MESSAGE_SIZE - buffered
}

/// What serving a request does next: send a call, answer, or have the metrics merged
/// (the answer is then the merged metrics).
pub enum ServeStep {
    Call(NodeCall),
    Reply(DhtMessage),
    MergeMetrics(MetricsBits),
}

/// The procedure a request runs while it waits for calls.
pub enum Serving {
    Successor(SuccessorSearch),
    Predecessor(PredecessorSearch),
    Store(StoreOp),
    Retrieve(RetrieveOp),
    Notify(NotifyOp),
    Finished,
}

/// The answer naming a node found for a `FindSuccessor` request.
pub open spec fn found_successor(n: NodeInfo) -> DhtMessage {
    DhtMessage::FoundSuccessor { id: n.id, address: n.address, api_address: n.api_address }
}

/// The answer naming a node found for a `FindPredecessor` request.
pub open spec fn found_predecessor(n: NodeInfo) -> DhtMessage {
    DhtMessage::FoundPredecessor { id: n.id, address: n.address, api_address: n.api_address }
}

/// The step of a request's procedure that a serving step `r` stands for: the same call,
/// or the procedure's result `done` when it answers.
pub open spec fn as_step<T>(r: ServeStep, done: T) -> Step<T> {
    match r {
        ServeStep::Call(c) => Step::Call(c),
        _ => Step::Done(done),
    }
}

/// Whether `node` is `old` with at most its data and links changed.
pub open spec fn same_identity(old: ChordNode, node: ChordNode) -> bool {
    &&& node.info == old.info
    &&& node.finger_table == old.finger_table
}

/// Serving one request of another node.
pub struct ServeRequest {
    pub task: Serving,
}

impl ServeRequest {
    pub open spec fn inv(&self) -> bool {
        match self.task {
            Serving::Successor(s) => s.inv(),
            Serving::Predecessor(p) => p.inv(),
            Serving::Store(s) => s.inv(),
            Serving::Retrieve(r) => r.inv(),
            _ => true,
        }
    }

    fn from_successor(s: SuccessorSearch, st: Step<NodeInfo>) -> (r: (ServeRequest, ServeStep))
        requires
            st matches Step::Done(n) ==> s.answer == n,
        ensures
            r.0.task == Serving::Successor(s),
            st matches Step::Call(c) ==> r.1 == ServeStep::Call(c),
            st is Done ==> r.1 == ServeStep::Reply(found_successor(s.answer)),
    {
        match st {
            Step::Call(c) => (ServeRequest { task: Serving::Successor(s) }, ServeStep::Call(c)),
            Step::Done(n) => (
                ServeRequest { task: Serving::Successor(s) },
                ServeStep::Reply(DhtMessage::FoundSuccessor { id: n.id, address: n.address, api_address: n.api_address }),
            ),
        }
    }

    /// Starts serving `message`.
    pub fn begin(node: &mut ChordNode, message: DhtMessage) -> (r: (ServeRequest, ServeStep))
        requires
            old(node).wf(),
        ensures
            final(node).wf(),
            r.0.inv(),
            same_identity(*old(node), *final(node)),
            match message {
                DhtMessage::FindSuccessor { id } => {
                    &&& r.0.task is Successor
                    &&& *final(node) == *old(node)
                    &&& search_started(*old(node), id, r.0.task->Successor_0, as_step(r.1, r.0.task->Successor_0.answer))
                    &&& (r.1 is Call || r.1 == ServeStep::Reply(found_successor(r.0.task->Successor_0.answer)))
                },
                DhtMessage::FindPredecessor { id } => {
                    &&& r.0.task is Predecessor
                    &&& *final(node) == *old(node)
                    &&& (r.0.task->Predecessor_0, as_step(r.1, r.0.task->Predecessor_0.candidate)) == (PredecessorSearch {
                        target: id,
                        candidate: old(node).info,
                        candidate_successor: old(node).successor,
                        rounds: 0,
                        phase: LookupPhase::Done,
                    }).decide(*old(node))
                    &&& (r.1 is Call || r.1 == ServeStep::Reply(found_predecessor(r.0.task->Predecessor_0.candidate)))
                },
                DhtMessage::GetSuccessor => *final(node) == *old(node) && r.1 == ServeStep::Reply(
                    found_successor(old(node).successor),
                ),
                DhtMessage::ClosestPrecedingNode { id } => *final(node) == *old(node) && r.1 == ServeStep::Reply(
                    DhtMessage::FoundClosestPrecedingNode {
                        id: old(node).closest_preceding(id).id,
                        address: old(node).closest_preceding(id).address,
                        api_address: old(node).closest_preceding(id).api_address,
                    },
                ),
                DhtMessage::Store { key, value } => {
                    &&& final(node).data@ == old(node).data@.insert(key, values_at(old(node).data@, key).push(value@))
                    &&& final(node).successor == old(node).successor
                    &&& final(node).predecessor == old(node).predecessor
                    &&& r.0.task is Store
                    &&& StoreOp::started(*old(node), *final(node), key, value@, r.0.task->Store_0, as_step(r.1, ()))
                    &&& (r.1 is Call || r.1 == ServeStep::Reply(DhtMessage::Pong))
                },
                DhtMessage::Retrieve { key } => {
                    &&& *final(node) == *old(node)
                    &&& r.0.task is Retrieve
                    &&& (r.1 is Call || (r.1 matches ServeStep::Reply(m) && m matches DhtMessage::Retrieved { key: k, value } && k == key))
                    &&& RetrieveOp::started(*old(node), key, r.0.task->Retrieve_0, as_step(r.1, r.1->Reply_0->Retrieved_value))
                    &&& (old(node).data@.dom().contains(key) ==> (r.1 matches ServeStep::Reply(
                        DhtMessage::Retrieved { value: Some(v), .. },
                    ) && byte_lists(v@) == old(node).data@[key]))
                },
                DhtMessage::GetPredecessor => *final(node) == *old(node) && r.1 == ServeStep::Reply(
                    match old(node).predecessor {
                        Some(p) => DhtMessage::Predecessor {
                            id: Some(p.id),
                            address: Some(p.address),
                            api_address: Some(p.api_address),
                        },
                        None => DhtMessage::Predecessor { id: None, address: None, api_address: None },
                    },
                ),
                DhtMessage::Notify { id, address, api_address } => {
                    &&& r.0.task is Notify
                    &&& NotifyOp::started(*old(node), info_of(id, address, api_address), r.0.task->Notify_0, *final(node), as_step(r.1, ()))
                    &&& (r.1 is Call || r.1 == ServeStep::Reply(DhtMessage::Pong))
                },
                DhtMessage::Ping => *final(node) == *old(node) && r.1 == ServeStep::Reply(DhtMessage::Pong),
                DhtMessage::GetDataRange { start, end } => {
                    &&& *final(node) == *old(node)
                    &&& r.1 matches ServeStep::Reply(DhtMessage::DataRange { data })
                    &&& keys_distinct(r.1->Reply_0->DataRange_data@)
                    &&& map_of(r.1->Reply_0->DataRange_data@.map_values(|e: (NodeId, Vec<Vec<u8>>)| entry_view(e)))
                        == old(node).data@.restrict(Set::new(|k: NodeId| in_transfer_range(k, start, end)))
                },
                DhtMessage::ShareMetrics { metrics } => *final(node) == *old(node) && r.1 == ServeStep::MergeMetrics(metrics),
                DhtMessage::ReplicateData { key, values, replica_id } => {
                    &&& final(node).data@ == old(node).data@.insert(key, values_at(old(node).data@, key) + byte_lists(values@))
                    &&& final(node).successor == old(node).successor
                    &&& final(node).predecessor == old(node).predecessor
                    &&& r.1 == ServeStep::Reply(DhtMessage::ReplicationAck { key, success: true })
                },
                DhtMessage::RequestReplicas { key_range_start, key_range_end } => {
                    &&& *final(node) == *old(node)
                    &&& r.1 matches ServeStep::Reply(DhtMessage::ReplicaData { replicas })
                    &&& keys_distinct(r.1->Reply_0->ReplicaData_replicas@)
                    &&& map_of(r.1->Reply_0->ReplicaData_replicas@.map_values(|e: (NodeId, Vec<Vec<u8>>)| entry_view(e)))
                        == old(node).data@.restrict(
                        Set::new(|k: NodeId| in_transfer_range(k, key_range_start, key_range_end)),
                    )
                },
                _ => *final(node) == *old(node) && (r.1 matches ServeStep::Reply(DhtMessage::Error { message })
                    && message@ == "Unsupported message type"@),
            },
    {
        match message {
            DhtMessage::FindSuccessor { id } => {
                let (s, st) = SuccessorSearch::begin(node, id);
                ServeRequest::from_successor(s, st)
            },
            DhtMessage::FindPredecessor { id } => {
                let (p, st) = PredecessorSearch::begin(node, id);
                match st {
                    Step::Call(c) => (ServeRequest { task: Serving::Predecessor(p) }, ServeStep::Call(c)),
                    Step::Done(n) => (
                        ServeRequest { task: Serving::Predecessor(p) },
                        ServeStep::Reply(DhtMessage::FoundPredecessor { id: n.id, address: n.address, api_address: n.api_address }),
                    ),
                }
            },
            DhtMessage::GetSuccessor => (ServeRequest { task: Serving::Finished }, ServeStep::Reply(node.successor_message())),
            DhtMessage::ClosestPrecedingNode { id } => {
                let n = node.closest_preceding_node(&id);
                (
                    ServeRequest { task: Serving::Finished },
                    ServeStep::Reply(DhtMessage::FoundClosestPrecedingNode { id: n.id, address: n.address, api_address: n.api_address }),
                )
            },
            DhtMessage::Store { key, value } => {
                let (op, st) = StoreOp::begin(node, key, value);
                match st {
                    Step::Call(c) => (ServeRequest { task: Serving::Store(op) }, ServeStep::Call(c)),
                    Step::Done(()) => (ServeRequest { task: Serving::Store(op) }, ServeStep::Reply(DhtMessage::Pong)),
                }
            },
            DhtMessage::Retrieve { key } => {
                let (op, st) = RetrieveOp::begin(node, key);
                match st {
                    Step::Call(c) => (ServeRequest { task: Serving::Retrieve(op) }, ServeStep::Call(c)),
                    Step::Done(value) => (
                        ServeRequest { task: Serving::Retrieve(op) },
                        ServeStep::Reply(DhtMessage::Retrieved { key, value }),
                    ),
                }
            },
            DhtMessage::GetPredecessor => (ServeRequest { task: Serving::Finished }, ServeStep::Reply(node.predecessor_message())),
            DhtMessage::Notify { id, address, api_address } => {
                let (op, st) = NotifyOp::begin(node, NodeInfo { id, address, api_address });
                match st {
                    Step::Call(c) => (ServeRequest { task: Serving::Notify(op) }, ServeStep::Call(c)),
                    Step::Done(()) => (ServeRequest { task: Serving::Notify(op) }, ServeStep::Reply(DhtMessage::Pong)),
                }
            },
            DhtMessage::Ping => (ServeRequest { task: Serving::Finished }, ServeStep::Reply(DhtMessage::Pong)),
            DhtMessage::GetDataRange { start, end } => {
                let data = node.get_data_range(&start, &end);
                (ServeRequest { task: Serving::Finished }, ServeStep::Reply(DhtMessage::DataRange { data }))
            },
            DhtMessage::ShareMetrics { metrics } => (ServeRequest { task: Serving::Finished }, ServeStep::MergeMetrics(metrics)),
            DhtMessage::ReplicateData { key, values, replica_id } => {
                let success = node.handle_replicate_data(key, values, replica_id);
                (ServeRequest { task: Serving::Finished }, ServeStep::Reply(DhtMessage::ReplicationAck { key, success }))
            },
            DhtMessage::RequestReplicas { key_range_start, key_range_end } => {
                let replicas = node.handle_request_replicas(&key_range_start, &key_range_end);
                (ServeRequest { task: Serving::Finished }, ServeStep::Reply(DhtMessage::ReplicaData { replicas }))
            },
            _ => (
                ServeRequest { task: Serving::Finished },
                ServeStep::Reply(DhtMessage::Error { message: "Unsupported message type".to_owned() }),
            ),
        }
    }

    /// Goes on serving after `event`.
    pub fn step(&mut self, node: &mut ChordNode, event: Event) -> (r: ServeStep)
        requires
            old(node).wf(),
            old(self).inv(),
        ensures
            final(node).wf(),
            final(self).inv(),
            same_identity(*old(node), *final(node)),
            old(self).task is Successor ==> {
                &&& final(self).task is Successor
                &&& *final(node) == *old(node)
                &&& old(self).task->Successor_0.stepped(*old(node), event, final(self).task->Successor_0, as_step(r, final(self).task->Successor_0.answer))
                &&& (r is Call || r == ServeStep::Reply(found_successor(final(self).task->Successor_0.answer)))
            },
            old(self).task is Predecessor ==> {
                &&& final(self).task is Predecessor
                &&& *final(node) == *old(node)
                &&& (final(self).task->Predecessor_0, as_step(r, final(self).task->Predecessor_0.candidate))
                    == old(self).task->Predecessor_0.next(*old(node), event)
                &&& (r is Call || r == ServeStep::Reply(found_predecessor(final(self).task->Predecessor_0.candidate)))
            },
            old(self).task is Store ==> {
                &&& final(self).task is Store
                &&& *final(node) == *old(node)
                &&& old(self).task->Store_0.stepped(*old(node), event, final(self).task->Store_0, as_step(r, ()))
                &&& (r is Call || r == ServeStep::Reply(DhtMessage::Pong))
            },
            old(self).task is Retrieve ==> {
                &&& final(self).task is Retrieve
                &&& *final(node) == *old(node)
                &&& (r is Call || (r matches ServeStep::Reply(m) && m matches DhtMessage::Retrieved { key: k, .. } && k == old(self).task->Retrieve_0.key))
                &&& old(self).task->Retrieve_0.stepped(*old(node), event, final(self).task->Retrieve_0, as_step(r, r->Reply_0->Retrieved_value))
            },
            old(self).task is Notify ==> {
                &&& final(self).task is Notify
                &&& *final(node) == *old(node)
                &&& old(self).task->Notify_0.stepped(event, final(self).task->Notify_0, as_step(r, ()))
                &&& (r is Call || r == ServeStep::Reply(DhtMessage::Pong))
            },
            old(self).task is Finished ==> *final(node) == *old(node) && r is Reply,
    {
        let mut task = Serving::Finished;
        std::mem::swap(&mut task, &mut self.task);
        match task {
            Serving::Successor(mut s) => {
                let st = s.step(node, event);
                let answer = s.answer.copied();
                self.task = Serving::Successor(s);
                match st {
                    Step::Call(c) => ServeStep::Call(c),
                    Step::Done(n) => ServeStep::Reply(DhtMessage::FoundSuccessor { id: n.id, address: n.address, api_address: n.api_address }),
                }
            },
            Serving::Predecessor(mut p) => {
                let st = p.step(node, event);
                self.task = Serving::Predecessor(p);
                match st {
                    Step::Call(c) => ServeStep::Call(c),
                    Step::Done(n) => ServeStep::Reply(DhtMessage::FoundPredecessor { id: n.id, address: n.address, api_address: n.api_address }),
                }
            },
            Serving::Store(mut op) => {
                let st = op.step(node, event);
                self.task = Serving::Store(op);
                match st {
                    Step::Call(c) => ServeStep::Call(c),
                    Step::Done(()) => ServeStep::Reply(DhtMessage::Pong),
                }
            },
            Serving::Retrieve(mut op) => {
                let key = op.key;
                let st = op.step(node, event);
                self.task = Serving::Retrieve(op);
                match st {
                    Step::Call(c) => ServeStep::Call(c),
                    Step::Done(value) => ServeStep::Reply(DhtMessage::Retrieved { key, value }),
                }
            },
            Serving::Notify(mut op) => {
                let st = op.step(event);
                self.task = Serving::Notify(op);
                match st {
                    Step::Call(c) => ServeStep::Call(c),
                    Step::Done(()) => ServeStep::Reply(DhtMessage::Pong),
                }
            },
            Serving::Finished => ServeStep::Reply(DhtMessage::Error { message: "Request already answered".to_owned() }),
        }
    }
}

} // verus!
