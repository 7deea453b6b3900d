use vstd::prelude::*;
use crate::messages::DhtMessage;
use crate::node::{same_id, ChordNode, NodeInfo};
use crate::ring::{id_value, in_interval, is_between, NodeId};

verus! {

/// A message to send to the node at `address`.
pub struct NodeCall {
    pub address: String,
    pub message: DhtMessage,
}

/// What came of a call: the reply, or a failure to get one.
pub enum Event {
    Reply(DhtMessage),
    Failure,
}

/// What a procedure does next: send a call and wait for its event, or finish.
pub enum Step<T> {
    Call(NodeCall),
    Done(T),
}

/// The number of rounds after which a predecessor search stops.
pub const MAX_LOOKUP_ROUNDS: u32 = 10;

/// A call of `message` to the node `to`.
pub open spec fn call_to<T>(to: NodeInfo, message: DhtMessage) -> Step<T> {
    Step::Call(NodeCall { address: to.address, message })
}

/// The node described by the three fields of a message.
pub open spec fn info_of(id: NodeId, address: String, api_address: String) -> NodeInfo {
    NodeInfo { id, address, api_address }
}

/// Where a predecessor search waits.
pub enum LookupPhase {
    /// Waiting for the candidate's closest preceding node.
    Closest,
    /// Waiting for the candidate's successor.
    Successor,
    /// Finished.
    Done,
}

/// The search for the predecessor of `target`: starting at this node, the candidate
/// moves to ever closer preceding nodes until `target` lies between the candidate and
/// its successor, a node makes no progress or fails, or ten rounds have passed.
pub struct PredecessorSearch {
    pub target: NodeId,
    pub candidate: NodeInfo,
    pub candidate_successor: NodeInfo,
    pub rounds: u32,
    pub phase: LookupPhase,
}

impl PredecessorSearch {
    /// Whether the search is well under way.
    pub open spec fn inv(&self) -> bool {
        self.rounds <= MAX_LOOKUP_ROUNDS
    }

    /// An upper bound on the calls the search may still make.
    pub open spec fn budget(&self) -> nat {
        (2 * (MAX_LOOKUP_ROUNDS - self.rounds) + match self.phase {
            LookupPhase::Closest => 2int,
            LookupPhase::Successor => 1int,
            LookupPhase::Done => 0int,
        }) as nat
    }

    /// One round of the search, taken from the current candidate.
    pub open spec fn decide(self, node: ChordNode) -> (PredecessorSearch, Step<NodeInfo>) {
        if in_interval(id_value(self.target), id_value(self.candidate.id), id_value(self.candidate_successor.id)) {
            (PredecessorSearch { phase: LookupPhase::Done, ..self }, Step::Done(self.candidate))
        } else if self.rounds >= MAX_LOOKUP_ROUNDS {
            (PredecessorSearch { phase: LookupPhase::Done, ..self }, Step::Done(self.candidate))
        } else if self.candidate.id == node.info.id {
            let next = node.closest_preceding(self.target);
            if next.id == self.candidate.id {
                (
                    PredecessorSearch { rounds: (self.rounds + 1) as u32, phase: LookupPhase::Done, ..self },
                    Step::Done(self.candidate),
                )
            } else {
                (
                    PredecessorSearch {
                        candidate: next,
                        rounds: (self.rounds + 1) as u32,
                        phase: LookupPhase::Successor,
                        ..self
                    },
                    call_to(next, DhtMessage::GetSuccessor),
                )
            }
        } else {
            (
                PredecessorSearch { rounds: (self.rounds + 1) as u32, phase: LookupPhase::Closest, ..self },
                call_to(self.candidate, DhtMessage::ClosestPrecedingNode { id: self.target }),
            )
        }
    }

    /// How the search goes on from `event`.
    pub open spec fn next(self, node: ChordNode, event: Event) -> (PredecessorSearch, Step<NodeInfo>) {
        let done = (PredecessorSearch { phase: LookupPhase::Done, ..self }, Step::Done(self.candidate));
        match self.phase {
            LookupPhase::Closest => match event {
                Event::Reply(DhtMessage::FoundClosestPrecedingNode { id, address, api_address }) => {
                    let next = info_of(id, address, api_address);
                    if id == self.candidate.id {
                        done
                    } else if id == node.info.id {
                        PredecessorSearch { candidate: next, candidate_successor: node.successor, ..self }.decide(
                            node,
                        )
                    } else {
                        (
                            PredecessorSearch { candidate: next, phase: LookupPhase::Successor, ..self },
                            call_to(next, DhtMessage::GetSuccessor),
                        )
                    }
                },
                _ => done,
            },
            LookupPhase::Successor => match event {
                Event::Reply(DhtMessage::FoundSuccessor { id, address, api_address }) => PredecessorSearch {
                    candidate_successor: info_of(id, address, api_address),
                    ..self
                }.decide(node),
                _ => done,
            },
            LookupPhase::Done => done,
        }
    }

    fn decide_exec(&mut self, node: &ChordNode) -> (r: Step<NodeInfo>)
        requires
            node.wf(),
            old(self).rounds <= MAX_LOOKUP_ROUNDS,
        ensures
            (*final(self), r) == old(self).decide(*node),
            final(self).rounds <= MAX_LOOKUP_ROUNDS,
            r is Call ==> final(self).budget() + 2 <= 2 * (MAX_LOOKUP_ROUNDS - old(self).rounds) + 2,
    {
        if is_between(&self.target, &self.candidate.id, &self.candidate_successor.id) {
            self.phase = LookupPhase::Done;
            return Step::Done(self.candidate.copied());
        }
        if self.rounds >= MAX_LOOKUP_ROUNDS {
            self.phase = LookupPhase::Done;
            return Step::Done(self.candidate.copied());
        }
        if same_id(&self.candidate.id, &node.info.id) {
            let next = node.closest_preceding_node(&self.target);
            if same_id(&next.id, &self.candidate.id) {
                self.rounds = self.rounds + 1;
                self.phase = LookupPhase::Done;
                return Step::Done(self.candidate.copied());
            }
            let address = next.address.clone();
            self.candidate = next;
            self.rounds = self.rounds + 1;
            self.phase = LookupPhase::Successor;
            return Step::Call(NodeCall { address, message: DhtMessage::GetSuccessor });
        }
        self.rounds = self.rounds + 1;
        self.phase = LookupPhase::Closest;
        Step::Call(NodeCall {
            address: self.candidate.address.clone(),
            message: DhtMessage::ClosestPrecedingNode { id: self.target },
        })
    }

    /// Starts the search for the predecessor of `target` at this node.
    pub fn begin(node: &ChordNode, target: NodeId) -> (r: (PredecessorSearch, Step<NodeInfo>))
        requires
            node.wf(),
        ensures
            r == (PredecessorSearch {
                target,
                candidate: node.info,
                candidate_successor: node.successor,
                rounds: 0,
                phase: LookupPhase::Done,
            }).decide(*node),
            r.0.inv(),
            r.1 is Call ==> r.0.budget() <= 2 * MAX_LOOKUP_ROUNDS,
    {
        let mut s = PredecessorSearch {
            target,
            candidate: node.info.copied(),
            candidate_successor: node.successor.copied(),
            rounds: 0,
            phase: LookupPhase::Done,
        };
        let step = s.decide_exec(node);
        (s, step)
    }

    /// Goes on with the search after `event`. Each call it asks for lowers its
    /// budget, so the search ends after at most twenty calls.
    pub fn step(&mut self, node: &ChordNode, event: Event) -> (r: Step<NodeInfo>)
        requires
            node.wf(),
            old(self).inv(),
        ensures
            (*final(self), r) == old(self).next(*node, event),
            final(self).inv(),
            r is Call ==> final(self).budget() < old(self).budget(),
    {
        match self.phase {
            LookupPhase::Closest => match event {
                Event::Reply(DhtMessage::FoundClosestPrecedingNode { id, address, api_address }) => {
                    if same_id(&id, &self.candidate.id) {
                        self.phase = LookupPhase::Done;
                        return Step::Done(self.candidate.copied());
                    }
                    if same_id(&id, &node.info.id) {
                        self.candidate = NodeInfo { id, address, api_address };
                        self.candidate_successor = node.successor.copied();
                        return self.decide_exec(node);
                    }
                    let call_address = address.clone();
                    self.candidate = NodeInfo { id, address, api_address };
                    self.phase = LookupPhase::Successor;
                    Step::Call(NodeCall { address: call_address, message: DhtMessage::GetSuccessor })
                },
                _ => {
                    self.phase = LookupPhase::Done;
                    Step::Done(self.candidate.copied())
                },
            },
            LookupPhase::Successor => match event {
                Event::Reply(DhtMessage::FoundSuccessor { id, address, api_address }) => {
                    self.candidate_successor = NodeInfo { id, address, api_address };
                    self.decide_exec(node)
                },
                _ => {
                    self.phase = LookupPhase::Done;
                    Step::Done(self.candidate.copied())
                },
            },
            LookupPhase::Done => Step::Done(self.candidate.copied()),
        }
    }
}


/// Where the next live successor is probed: the first entry from `i` on that is not
/// this node, pinged; none left means there is no live successor.
pub open spec fn probe_from(candidates: Seq<NodeInfo>, me: NodeId, i: int) -> (int, Step<Option<NodeInfo>>)
    decreases candidates.len() - i,
{
    if i < 0 || i >= candidates.len() {
        (i, Step::Done(None))
    } else if candidates[i].id != me {
        (i, call_to(candidates[i], DhtMessage::Ping))
    } else {
        probe_from(candidates, me, i + 1)
    }
}

proof fn lemma_probe_from_bounds(candidates: Seq<NodeInfo>, me: NodeId, i: int)
    requires
        0 <= i,
    ensures
        probe_from(candidates, me, i).0 >= i,
        probe_from(candidates, me, i).1 is Call ==> probe_from(candidates, me, i).0 < candidates.len(),
    decreases candidates.len() - i,
{
    if i < candidates.len() && candidates[i].id == me {
        lemma_probe_from_bounds(candidates, me, i + 1);
    }
}

/// The search, among a snapshot of the successor list, for the first successor other
/// than this node that answers a ping.
pub struct LiveSuccessorSearch {
    pub candidates: Vec<NodeInfo>,
    pub index: usize,
    pub waiting: bool,
}

impl LiveSuccessorSearch {
    /// An upper bound on the calls the search may still make.
    pub open spec fn budget(&self) -> nat {
        if self.waiting {
            (self.candidates@.len() - self.index) as nat
        } else {
            0
        }
    }

    pub open spec fn inv(&self) -> bool {
        self.waiting ==> self.index < self.candidates@.len()
    }

    fn probe(&mut self, me: &NodeId, from: usize) -> (r: Step<Option<NodeInfo>>)
        requires
            from <= old(self).candidates@.len(),
        ensures
            final(self).candidates == old(self).candidates,
            (final(self).index as int, r) == probe_from(old(self).candidates@, *me, from as int),
            final(self).waiting == r is Call,
            final(self).inv(),
            final(self).index >= from,
    {
        let mut i: usize = from;
        while i < self.candidates.len()
            invariant
                from <= i <= self.candidates@.len(),
                self.candidates == old(self).candidates,
                probe_from(self.candidates@, *me, from as int) == probe_from(self.candidates@, *me, i as int),
            decreases self.candidates@.len() - i,
        {
            if !same_id(&self.candidates[i].id, me) {
                self.index = i;
                self.waiting = true;
                return Step::Call(NodeCall { address: self.candidates[i].address.clone(), message: DhtMessage::Ping });
            }
            i = i + 1;
        }
        self.index = i;
        self.waiting = false;
        Step::Done(None)
    }

    /// Starts probing a snapshot of the successor list.
    pub fn begin(node: &ChordNode) -> (r: (LiveSuccessorSearch, Step<Option<NodeInfo>>))
        ensures
            r.0.candidates@ == node.successor_list@,
            (r.0.index as int, r.1) == probe_from(node.successor_list@, node.info.id, 0),
            r.0.waiting == r.1 is Call,
            r.0.inv(),
            r.1 is Call ==> r.0.budget() <= node.successor_list@.len(),
    {
        let mut candidates: Vec<NodeInfo> = Vec::new();
        let mut k: usize = 0;
        while k < node.successor_list.len()
            invariant
                k <= node.successor_list@.len(),
                candidates@ == node.successor_list@.subrange(0, k as int),
            decreases node.successor_list@.len() - k,
        {
            candidates.push(node.successor_list[k].copied());
            k = k + 1;
            assert(candidates@ =~= node.successor_list@.subrange(0, k as int));
        }
        assert(node.successor_list@.subrange(0, k as int) =~= node.successor_list@);
        let mut s = LiveSuccessorSearch { candidates, index: 0, waiting: false };
        let step = s.probe(&node.info.id, 0);
        (s, step)
    }

    /// Goes on after the ping: a pong ends the search with that successor; anything
    /// else moves on to the next candidate.
    pub fn step(&mut self, me: &NodeId, event: Event) -> (r: Step<Option<NodeInfo>>)
        requires
            old(self).inv(),
        ensures
            final(self).candidates == old(self).candidates,
            final(self).inv(),
            !old(self).waiting ==> r == Step::<Option<NodeInfo>>::Done(None) && !final(self).waiting,
            old(self).waiting && event == Event::Reply(DhtMessage::Pong) ==> r == Step::Done(
                Some(old(self).candidates@[old(self).index as int]),
            ) && !final(self).waiting,
            old(self).waiting && event != Event::Reply(DhtMessage::Pong) ==> {
                &&& (final(self).index as int, r) == probe_from(old(self).candidates@, *me, old(self).index + 1)
                &&& final(self).waiting == r is Call
            },
            r is Call ==> final(self).budget() < old(self).budget(),
    {
        if !self.waiting {
            return Step::Done(None);
        }
        let pong = match event {
            Event::Reply(DhtMessage::Pong) => true,
            _ => false,
        };
        if pong {
            self.waiting = false;
            return Step::Done(Some(self.candidates[self.index].copied()));
        }
        let len = self.candidates.len();
        assert(self.index < len);
        let from = self.index + 1;
        let r = self.probe(me, from);
        proof {
            lemma_probe_from_bounds(self.candidates@, *me, from as int);
        }
        r
    }
}

/// Where a successor search waits.
pub enum SuccessorPhase {
    /// Searching for the predecessor of the target.
    Predecessor,
    /// Asking the predecessor for its successor.
    AwaitSuccessor,
    /// Probing the successor list after the predecessor failed to answer.
    Backup,
    /// Finished.
    Done,
}

/// The search for the successor of a target: the successor of its predecessor, or,
/// when that node does not answer, the first live entry of the successor list, or at
/// last this node's successor.
pub struct SuccessorSearch {
    pub phase: SuccessorPhase,
    pub lookup: PredecessorSearch,
    pub predecessor: NodeInfo,
    pub backup: LiveSuccessorSearch,
    pub answer: NodeInfo,
}

/// How a successor search goes on once the predecessor `p` is known.
pub open spec fn after_predecessor(node: ChordNode, p: NodeInfo, s: SuccessorSearch, r: Step<NodeInfo>) -> bool {
    if p.id == node.info.id {
        s.phase is Done && r == Step::Done(node.successor)
    } else {
        s.phase is AwaitSuccessor && s.predecessor == p && r == call_to::<NodeInfo>(p, DhtMessage::GetSuccessor)
    }
}

/// How a successor search goes on from a step of its backup search.
pub open spec fn after_backup(node: ChordNode, s: SuccessorSearch, b: Step<Option<NodeInfo>>, r: Step<NodeInfo>) -> bool {
    match b {
        Step::Call(c) => s.phase is Backup && r == Step::<NodeInfo>::Call(c),
        Step::Done(Some(n)) => s.phase is Done && r == Step::Done(n),
        Step::Done(None) => s.phase is Done && r == Step::Done(node.successor),
    }
}

/// How a successor search goes on from a step of its predecessor search.
pub open spec fn after_lookup(node: ChordNode, l: (PredecessorSearch, Step<NodeInfo>), s: SuccessorSearch, r: Step<NodeInfo>) -> bool {
    match l.1 {
        Step::Call(c) => s.phase is Predecessor && s.lookup == l.0 && r == Step::<NodeInfo>::Call(c),
        Step::Done(p) => after_predecessor(node, p, s, r),
    }
}

/// Whether `s` has just started probing the successor list of `node`, giving `b`.
pub open spec fn backup_started(node: ChordNode, s: SuccessorSearch, b: Step<Option<NodeInfo>>) -> bool {
    &&& s.backup.candidates@ == node.successor_list@
    &&& (s.backup.index as int, b) == probe_from(node.successor_list@, node.info.id, 0)
    &&& s.backup.waiting == b is Call
}

/// How a search for the successor of `target` starts at `node`: it becomes `s` and
/// takes the step `st`.
pub open spec fn search_started(node: ChordNode, target: NodeId, s: SuccessorSearch, st: Step<NodeInfo>) -> bool {
    &&& st matches Step::Done(n) ==> s.answer == n
    &&& after_lookup(
        node,
        (PredecessorSearch {
            target,
            candidate: node.info,
            candidate_successor: node.successor,
            rounds: 0,
            phase: LookupPhase::Done,
        }).decide(node),
        s,
        st,
    )
}

/// The step of a successor search that a procedure's step `r` stands for: the same
/// call while the procedure is still `searching`, else the search's `answer`.
pub open spec fn search_step<T>(searching: bool, r: Step<T>, answer: NodeInfo) -> Step<NodeInfo> {
    if searching && r is Call {
        Step::Call(r->Call_0)
    } else {
        Step::Done(answer)
    }
}

/// Whether `node` is alone on the ring: it is its own successor, and every finger and
/// every entry of its successor list is itself.
pub open spec fn is_alone(node: ChordNode) -> bool {
    &&& node.successor == node.info
    &&& forall|k: int| 0 <= k < node.finger_table@.len() ==> (#[trigger] node.finger_table@[k]).id == node.info.id
    &&& forall|k: int| 0 <= k < node.successor_list@.len() ==> #[trigger] node.successor_list@[k] == node.info
}

proof fn lemma_no_finger_precedes(node: ChordNode, target: NodeId, n: int)
    requires
        forall|k: int| 0 <= k < node.finger_table@.len() ==> (#[trigger] node.finger_table@[k]).id == node.info.id,
        n <= node.finger_table@.len(),
    ensures
        crate::node::last_preceding(node.finger_table@, node.info.id, target, n) == -1,
    decreases n,
{
    if n > 0 {
        assert(node.finger_table@[n - 1].id == node.info.id);
        lemma_no_finger_precedes(node, target, n - 1);
    }
}

/// On a node alone on the ring, every successor search ends at once with the node
/// itself.
pub proof fn lemma_alone_search(node: ChordNode, target: NodeId, s: SuccessorSearch, st: Step<NodeInfo>)
    requires
        node.wf(),
        is_alone(node),
        search_started(node, target, s, st),
    ensures
        st == Step::Done(node.info),
        s.answer == node.info,
{
    lemma_no_finger_precedes(node, target, crate::ring::ID_BITS as int);
}

impl SuccessorSearch {
    pub open spec fn inv(&self) -> bool {
        &&& self.lookup.inv()
        &&& self.backup.inv()
    }

    fn finish_lookup(&mut self, node: &ChordNode, l: Step<NodeInfo>) -> (r: Step<NodeInfo>)
        requires
            node.wf(),
            old(self).inv(),
        ensures
            final(self).inv(),
            final(self).lookup == old(self).lookup,
            final(self).backup == old(self).backup,
            l is Call ==> final(self).phase is Predecessor && r == l,
            l matches Step::Done(p) ==> after_predecessor(*node, p, *final(self), r),
            r matches Step::Done(n) ==> final(self).answer == n,
    {
        match l {
            Step::Call(c) => {
                self.phase = SuccessorPhase::Predecessor;
                Step::Call(c)
            },
            Step::Done(p) => {
                if same_id(&p.id, &node.info.id) {
                    self.phase = SuccessorPhase::Done;
                    self.answer = node.successor.copied();
                    Step::Done(node.successor.copied())
                } else {
                    let address = p.address.clone();
                    self.predecessor = p;
                    self.phase = SuccessorPhase::AwaitSuccessor;
                    Step::Call(NodeCall { address, message: DhtMessage::GetSuccessor })
                }
            },
        }
    }

    fn finish_backup(&mut self, node: &ChordNode, b: Step<Option<NodeInfo>>) -> (r: Step<NodeInfo>)
        ensures
            final(self).lookup == old(self).lookup,
            final(self).backup == old(self).backup,
            final(self).predecessor == old(self).predecessor,
            after_backup(*node, *final(self), b, r),
            r matches Step::Done(n) ==> final(self).answer == n,
    {
        match b {
            Step::Call(c) => {
                self.phase = SuccessorPhase::Backup;
                Step::Call(c)
            },
            Step::Done(Some(n)) => {
                self.phase = SuccessorPhase::Done;
                self.answer = n.copied();
                Step::Done(n)
            },
            Step::Done(None) => {
                self.phase = SuccessorPhase::Done;
                self.answer = node.successor.copied();
                Step::Done(node.successor.copied())
            },
        }
    }

    /// Starts the search for the successor of `target`.
    pub fn begin(node: &ChordNode, target: NodeId) -> (r: (SuccessorSearch, Step<NodeInfo>))
        requires
            node.wf(),
        ensures
            r.0.inv(),
            search_started(*node, target, r.0, r.1),
    {
        let (lookup, l) = PredecessorSearch::begin(node, target);
        let mut s = SuccessorSearch {
            phase: SuccessorPhase::Done,
            lookup,
            predecessor: node.info.copied(),
            backup: LiveSuccessorSearch { candidates: Vec::new(), index: 0, waiting: false },
            answer: node.info.copied(),
        };
        let ghost lk = s.lookup;
        let r = s.finish_lookup(node, l);
        proof {
            assert(s.lookup == lk);
        }
        (s, r)
    }

    /// How the search `self` goes on after `event` at `node`: it becomes `after` and
    /// answers `r`.
    pub open spec fn stepped(self, node: ChordNode, event: Event, after: SuccessorSearch, r: Step<NodeInfo>) -> bool {
        &&& self.phase is Predecessor ==> after_lookup(node, self.lookup.next(node, event), after, r)
        &&& self.phase is AwaitSuccessor ==> match event {
            Event::Reply(DhtMessage::FoundSuccessor { id, address, api_address }) => after.phase is Done
                && r == Step::Done(info_of(id, address, api_address)),
            _ => exists|b: Step<Option<NodeInfo>>| backup_started(node, after, b) && after_backup(node, after, b, r),
        }
        &&& self.phase is Backup ==> exists|b: Step<Option<NodeInfo>>|
            {
                &&& after.backup.candidates == self.backup.candidates
                &&& (!self.backup.waiting ==> b == Step::<Option<NodeInfo>>::Done(None))
                &&& (self.backup.waiting && event == Event::Reply(DhtMessage::Pong) ==> b == Step::Done(
                    Some(self.backup.candidates@[self.backup.index as int]),
                ))
                &&& (self.backup.waiting && event != Event::Reply(DhtMessage::Pong) ==> (after.backup.index as int, b)
                    == probe_from(self.backup.candidates@, node.info.id, self.backup.index + 1))
                &&& after_backup(node, after, b, r)
            }
        &&& self.phase is Done ==> r == Step::Done(self.answer) && after.phase is Done
        &&& r matches Step::Done(n) ==> after.answer == n
    }

    /// Goes on with the search after `event`.
    pub fn step(&mut self, node: &ChordNode, event: Event) -> (r: Step<NodeInfo>)
        requires
            node.wf(),
            old(self).inv(),
        ensures
            final(self).inv(),
            old(self).stepped(*node, event, *final(self), r),
    {
        match self.phase {
            SuccessorPhase::Predecessor => {
                let l = self.lookup.step(node, event);
                self.finish_lookup(node, l)
            },
            SuccessorPhase::AwaitSuccessor => match event {
                Event::Reply(DhtMessage::FoundSuccessor { id, address, api_address }) => {
                    self.phase = SuccessorPhase::Done;
                    let n = NodeInfo { id, address, api_address };
                    self.answer = n.copied();
                    Step::Done(n)
                },
                _ => {
                    let (backup, b) = LiveSuccessorSearch::begin(node);
                    self.backup = backup;
                    let ghost bk = self.backup;
                    let r = self.finish_backup(node, b);
                    proof {
                        assert(backup_started(*node, *self, b));
                    }
                    r
                },
            },
            SuccessorPhase::Backup => {
                let b = self.backup.step(&node.info.id, event);
                self.finish_backup(node, b)
            },
            SuccessorPhase::Done => Step::Done(self.answer.copied()),
        }
    }
}

} // verus!
