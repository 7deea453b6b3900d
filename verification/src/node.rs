use vstd::prelude::*;
use vstd::utf8::encode_utf8;
use crate::digest::{generate_virtual_nodes, is_virtual_node_set, sha1_digest, sha1_of};
use crate::ring::{id_compare, id_value, in_interval, is_between, NodeId, ID_BITS};
use crate::messages::DhtMessage;
use crate::selection::{
    first_occurrences, is_first_occurrences_of, is_load_order, is_unique_sorted_of, order_by_load, unique_by_id,
};
use crate::store::{
    entry_view, in_transfer_range, keys_distinct, lemma_map_of_dom, lemma_map_of_index, lemma_map_of_update,
    map_of, values_at, DataStore,
};

verus! {

/// How many successors a node keeps for fault tolerance.
pub const SUCCESSOR_LIST_SIZE: usize = 3;

/// How many nodes hold each stored value: the primary and its replicas.
pub const REPLICATION_FACTOR: usize = 3;

/// How many virtual nodes each physical node places on the ring.
pub const VIRTUAL_NODES_PER_NODE: usize = 32;

/// The order key of a load of zero.
pub const ZERO_LOAD_KEY: u32 = 0x8000_0000;

/// The order key of a full load (1.0).
pub const FULL_LOAD_KEY: u32 = 0xBF80_0000;

/// A node's identity: its ring identifier, its peer address and its API address.
#[derive(Debug, Clone)]
pub struct NodeInfo {
    pub id: NodeId,
    pub address: String,
    pub api_address: String,
}

impl NodeInfo {
    /// A copy of this node's identity.
    pub fn copied(&self) -> (r: NodeInfo)
        ensures
            r == *self,
    {
        NodeInfo { id: self.id, address: self.address.clone(), api_address: self.api_address.clone() }
    }
}

/// Whether two identifiers are the same.
pub fn same_id(a: &NodeId, b: &NodeId) -> (r: bool)
    ensures
        r == (*a == *b),
{
    let c = id_compare(a, b);
    if c == 0 {
        assert(*a =~= *b);
    }
    c == 0
}

/// The last load reported for each node, by an order key of the load: a smaller key
/// is a smaller load.
pub struct LoadTable {
    entries: Vec<(NodeId, u32)>,
}

impl View for LoadTable {
    type V = Map<NodeId, u32>;

    closed spec fn view(&self) -> Map<NodeId, u32> {
        map_of(self.entries@)
    }
}

impl LoadTable {
    /// Whether no node is listed twice.
    pub closed spec fn wf(&self) -> bool {
        keys_distinct(self.entries@)
    }

    /// An empty table.
    pub fn new() -> (r: LoadTable)
        ensures
            r.wf(),
            r@ == Map::<NodeId, u32>::empty(),
    {
        LoadTable { entries: Vec::new() }
    }

    /// The load key of `id`, or `default` when none was reported.
    pub fn key_or(&self, id: &NodeId, default: u32) -> (r: u32)
        requires
            self.wf(),
        ensures
            r == (if self@.dom().contains(*id) { self@[*id] } else { default }),
    {
        let mut i: usize = 0;
        while i < self.entries.len()
            invariant
                keys_distinct(self.entries@),
                i <= self.entries@.len(),
                forall|j: int| 0 <= j < i ==> self.entries@[j].0 != *id,
            decreases self.entries@.len() - i,
        {
            if same_id(&self.entries[i].0, id) {
                proof {
                    lemma_map_of_index(self.entries@, i as int);
                }
                return self.entries[i].1;
            }
            i = i + 1;
        }
        proof {
            lemma_map_of_dom(self.entries@, *id);
        }
        default
    }

    /// Records the load key of `id`.
    pub fn set(&mut self, id: NodeId, key: u32)
        requires
            old(self).wf(),
        ensures
            final(self).wf(),
            final(self)@ == old(self)@.insert(id, key),
    {
        let mut i: usize = 0;
        while i < self.entries.len()
            invariant
                keys_distinct(self.entries@),
                i <= self.entries@.len(),
                self.entries@ == old(self).entries@,
                forall|j: int| 0 <= j < i ==> self.entries@[j].0 != id,
            decreases self.entries@.len() - i,
        {
            if same_id(&self.entries[i].0, &id) {
                let ghost before = self.entries@;
                proof {
                    lemma_map_of_update(before, i as int, key);
                }
                self.entries.set(i, (id, key));
                return;
            }
            i = i + 1;
        }
        let ghost before = self.entries@;
        proof {
            lemma_map_of_dom(before, id);
        }
        self.entries.push((id, key));
        proof {
            assert(self.entries@.drop_last() =~= before);
            assert forall|a: int, b: int| 0 <= a < b < self.entries@.len() implies self.entries@[a].0
                != self.entries@[b].0 by {
                assert(self.entries@[a] == before[a]);
                if b < before.len() {
                    assert(self.entries@[b] == before[b]);
                }
            }
        }
    }
}

/// The state of a Chord node.
pub struct ChordNode {
    pub info: NodeInfo,
    pub successor: NodeInfo,
    pub successor_list: Vec<NodeInfo>,
    pub predecessor: Option<NodeInfo>,
    pub finger_table: Vec<NodeInfo>,
    pub data: DataStore,
    pub virtual_nodes: Vec<NodeId>,
    pub node_loads: LoadTable,
}

/// How the peer and API addresses of a node are configured, with an optional fixed
/// identifier.
pub struct Config {
    pub p2p_address: String,
    pub api_address: String,
    pub node_id: Option<NodeId>,
}

impl Config {
    /// The default configuration: peers on 127.0.0.1:8000, the API on 127.0.0.1:9000,
    /// and the identifier hashed from the address.
    pub fn default() -> (r: Config)
        ensures
            r.p2p_address@ == "127.0.0.1:8000"@,
            r.api_address@ == "127.0.0.1:9000"@,
            r.node_id is None,
    {
        Config { p2p_address: "127.0.0.1:8000".to_owned(), api_address: "127.0.0.1:9000".to_owned(), node_id: None }
    }
}

/// `n` copies of `info`.
pub fn repeat_info(info: &NodeInfo, n: usize) -> (r: Vec<NodeInfo>)
    ensures
        r@.len() == n,
        forall|k: int| 0 <= k < n ==> r@[k] == *info,
{
    let mut r: Vec<NodeInfo> = Vec::new();
    let mut i: usize = 0;
    while i < n
        invariant
            i <= n,
            r@.len() == i,
            forall|k: int| 0 <= k < i ==> r@[k] == *info,
        decreases n - i,
    {
        r.push(info.copied());
        i = i + 1;
    }
    r
}

impl ChordNode {
    /// The invariant every node state keeps: three successors, one finger per bit of
    /// the identifier, and well-formed tables.
    pub open spec fn wf(&self) -> bool {
        &&& self.successor_list@.len() == SUCCESSOR_LIST_SIZE
        &&& self.finger_table@.len() == ID_BITS
        &&& self.data.wf()
        &&& self.node_loads.wf()
    }

    /// Whether `self` is a freshly created node: alone on the ring, with no data.
    pub open spec fn is_fresh(&self, id: NodeId, address: Seq<char>, api_address: Seq<char>) -> bool {
        &&& self.wf()
        &&& self.info.id == id
        &&& self.info.address@ == address
        &&& self.info.api_address@ == api_address
        &&& self.successor == self.info
        &&& forall|k: int| 0 <= k < SUCCESSOR_LIST_SIZE ==> self.successor_list@[k] == self.info
        &&& forall|k: int| 0 <= k < ID_BITS ==> self.finger_table@[k] == self.info
        &&& self.predecessor is None
        &&& self.data@ == Map::<NodeId, Seq<Seq<u8>>>::empty()
        &&& self.node_loads@ == Map::<NodeId, u32>::empty()
    }

    fn fresh(id: NodeId, address: String, api_address: String) -> (r: ChordNode)
        ensures
            r.is_fresh(id, address@, api_address@),
            is_virtual_node_set(encode_utf8(address@), r.virtual_nodes@),
    {
        let virtual_nodes = generate_virtual_nodes(address.as_str());
        let info = NodeInfo { id, address, api_address };
        let successor = info.copied();
        let successor_list = repeat_info(&info, SUCCESSOR_LIST_SIZE);
        let finger_table = repeat_info(&info, ID_BITS);
        ChordNode {
            info,
            successor,
            successor_list,
            predecessor: None,
            finger_table,
            data: DataStore::new(),
            virtual_nodes,
            node_loads: LoadTable::new(),
        }
    }

    /// A new node at `address`, alone on its own ring, whose identifier is the SHA-1
    /// digest of the address.
    pub fn new(address: String, api_address: String) -> (r: ChordNode)
        ensures
            r.is_fresh(r.info.id, address@, api_address@),
            r.info.id@ == sha1_of(encode_utf8(address@)),
            is_virtual_node_set(encode_utf8(address@), r.virtual_nodes@),
    {
        let id = sha1_digest(address.as_str().as_bytes());
        ChordNode::fresh(id, address, api_address)
    }

    /// A new node whose API address is its peer address.
    pub fn new_for_test(address: String) -> (r: ChordNode)
        ensures
            r.is_fresh(r.info.id, address@, address@),
            r.info.id@ == sha1_of(encode_utf8(address@)),
            is_virtual_node_set(encode_utf8(address@), r.virtual_nodes@),
    {
        let api_address = address.clone();
        ChordNode::new(address, api_address)
    }

    /// A new node from a configuration; a configured identifier replaces the hashed one.
    pub fn from_config(config: Config) -> (r: ChordNode)
        ensures
            r.is_fresh(r.info.id, config.p2p_address@, config.api_address@),
            config.node_id matches Some(id) ==> r.info.id == id,
            config.node_id is None ==> r.info.id@ == sha1_of(encode_utf8(config.p2p_address@)),
            is_virtual_node_set(encode_utf8(config.p2p_address@), r.virtual_nodes@),
    {
        let id = match config.node_id {
            Some(id) => id,
            None => sha1_digest(config.p2p_address.as_str().as_bytes()),
        };
        ChordNode::fresh(id, config.p2p_address, config.api_address)
    }
}


/// Every `n`-th entry of `s`, starting with the first.
pub open spec fn every_nth(s: Seq<NodeInfo>, n: nat) -> Seq<NodeInfo>
    recommends
        n > 0,
{
    Seq::new(((s.len() + n - 1) / n as int) as nat, |k: int| s[n * k])
}

/// The index of the last finger below `n` that lies strictly between `me` and
/// `target` on the ring, or -1 when there is none.
pub open spec fn last_preceding(fingers: Seq<NodeInfo>, me: NodeId, target: NodeId, n: int) -> int
    decreases n,
{
    if n <= 0 {
        -1
    } else if in_interval(id_value(fingers[n - 1].id), id_value(me), id_value(target)) && fingers[n - 1].id
        != target {
        n - 1
    } else {
        last_preceding(fingers, me, target, n - 1)
    }
}

/// The number of entries of `s` whose identifier is not `me`.
pub open spec fn count_others(s: Seq<NodeInfo>, me: NodeId) -> nat
    decreases s.len(),
{
    if s.len() == 0 {
        0
    } else {
        count_others(s.drop_last(), me) + if s.last().id != me { 1nat } else { 0nat }
    }
}

impl ChordNode {
    /// The nodes from which replicas of a key are chosen: the successor list, then every
    /// third finger.
    pub open spec fn replica_pool(&self) -> Seq<NodeInfo> {
        self.successor_list@ + every_nth(self.finger_table@, 3)
    }

    /// The nodes asked for replicas after a predecessor fails: the successor list, then
    /// every fourth finger.
    pub open spec fn reconcile_pool(&self) -> Seq<NodeInfo> {
        self.successor_list@ + every_nth(self.finger_table@, 4)
    }

    /// Whether `r` is what `select_replicas` chooses for `primary`: the primary, then
    /// the two least loaded other known nodes.
    pub open spec fn is_replica_choice(&self, primary: NodeInfo, r: Seq<NodeInfo>) -> bool {
        exists|u: Seq<NodeInfo>, o: Seq<NodeInfo>|
            {
                &&& is_unique_sorted_of(u, self.replica_pool(), seq![self.info.id, primary.id])
                &&& is_load_order(o, u, self.node_loads@, ZERO_LOAD_KEY)
                &&& r == seq![primary] + o.take(if o.len() < 2 { o.len() as int } else { 2 })
            }
    }

    /// The finger closest before `id`, or this node.
    pub open spec fn closest_preceding(&self, id: NodeId) -> NodeInfo {
        let k = last_preceding(self.finger_table@, self.info.id, id, ID_BITS as int);
        if k >= 0 {
            self.finger_table@[k]
        } else {
            self.info
        }
    }

    /// The finger closest before `id`: the last finger in the open interval
    /// `(self, id)`, or this node itself when none is.
    pub fn closest_preceding_node(&self, id: &NodeId) -> (r: NodeInfo)
        requires
            self.wf(),
        ensures
            r == self.closest_preceding(*id),
    {
        let mut i: usize = self.finger_table.len();
        while i > 0
            invariant
                i <= self.finger_table@.len(),
                self.finger_table@.len() == ID_BITS,
                last_preceding(self.finger_table@, self.info.id, *id, ID_BITS as int)
                    == last_preceding(self.finger_table@, self.info.id, *id, i as int),
            decreases i,
        {
            let f = &self.finger_table[i - 1];
            if is_between(&f.id, &self.info.id, id) && !same_id(&f.id, id) {
                return f.copied();
            }
            i = i - 1;
        }
        self.info.copied()
    }

    /// The entries whose keys lie in `(start, end]` or equal `end`.
    pub fn get_data_range(&self, start: &NodeId, end: &NodeId) -> (r: Vec<(NodeId, Vec<Vec<u8>>)>)
        requires
            self.wf(),
        ensures
            keys_distinct(r@),
            map_of(r@.map_values(|e: (NodeId, Vec<Vec<u8>>)| entry_view(e))) == self.data@.restrict(
                Set::new(|k: NodeId| in_transfer_range(k, *start, *end)),
            ),
    {
        self.data.entries_in_range(start, end)
    }

    /// The replicas this node holds for the range `(start, end]`.
    pub fn handle_request_replicas(&self, start: &NodeId, end: &NodeId) -> (r: Vec<(NodeId, Vec<Vec<u8>>)>)
        requires
            self.wf(),
        ensures
            keys_distinct(r@),
            map_of(r@.map_values(|e: (NodeId, Vec<Vec<u8>>)| entry_view(e))) == self.data@.restrict(
                Set::new(|k: NodeId| in_transfer_range(k, *start, *end)),
            ),
    {
        self.data.entries_in_range(start, end)
    }

    /// Stores a replica: the values are appended to those held under `key`.
    pub fn handle_replicate_data(&mut self, key: NodeId, values: Vec<Vec<u8>>, replica_id: u8) -> (r: bool)
        requires
            old(self).wf(),
        ensures
            final(self).wf(),
            r,
            final(self).data@ == old(self).data@.insert(
                key,
                values_at(old(self).data@, key) + crate::store::byte_lists(values@),
            ),
            final(self).info == old(self).info,
            final(self).successor == old(self).successor,
            final(self).successor_list == old(self).successor_list,
            final(self).predecessor == old(self).predecessor,
            final(self).finger_table == old(self).finger_table,
    {
        self.data.extend(key, values);
        true
    }

    /// Stores one value locally under `key`.
    pub fn store_local(&mut self, key: NodeId, value: Vec<u8>)
        requires
            old(self).wf(),
        ensures
            final(self).wf(),
            final(self).data@ == old(self).data@.insert(key, values_at(old(self).data@, key).push(value@)),
            final(self).info == old(self).info,
            final(self).successor == old(self).successor,
            final(self).successor_list == old(self).successor_list,
            final(self).predecessor == old(self).predecessor,
            final(self).finger_table == old(self).finger_table,
            final(self).virtual_nodes == old(self).virtual_nodes,
            final(self).node_loads == old(self).node_loads,
    {
        self.data.append(key, value);
    }

    /// Makes this node the only node of a new ring.
    pub fn start_new_network(&mut self)
        requires
            old(self).wf(),
        ensures
            final(self).wf(),
            final(self).successor == old(self).info,
            forall|k: int| 0 <= k < SUCCESSOR_LIST_SIZE ==> final(self).successor_list@[k] == old(self).info,
            final(self).predecessor is None,
            final(self).info == old(self).info,
            final(self).finger_table == old(self).finger_table,
            final(self).data@ == old(self).data@,
    {
        self.successor = self.info.copied();
        self.successor_list = repeat_info(&self.info, SUCCESSOR_LIST_SIZE);
        self.predecessor = None;
    }

    /// The answer to a request for this node's successor.
    pub fn successor_message(&self) -> (r: DhtMessage)
        ensures
            r == (DhtMessage::FoundSuccessor {
                id: self.successor.id,
                address: self.successor.address,
                api_address: self.successor.api_address,
            }),
    {
        let s = self.successor.copied();
        DhtMessage::FoundSuccessor { id: s.id, address: s.address, api_address: s.api_address }
    }

    /// The answer to a request for this node's predecessor.
    pub fn predecessor_message(&self) -> (r: DhtMessage)
        ensures
            r == (match self.predecessor {
                Some(p) => DhtMessage::Predecessor {
                    id: Some(p.id),
                    address: Some(p.address),
                    api_address: Some(p.api_address),
                },
                None => DhtMessage::Predecessor { id: None, address: None, api_address: None },
            }),
    {
        match &self.predecessor {
            Some(p) => {
                let p = p.copied();
                DhtMessage::Predecessor { id: Some(p.id), address: Some(p.address), api_address: Some(p.api_address) }
            },
            None => DhtMessage::Predecessor { id: None, address: None, api_address: None },
        }
    }

    /// Considers `candidate` as predecessor: it is taken when there is none or it lies
    /// in `(predecessor, self)`; a node that was alone also takes it as successor.
    /// Returns whether it was taken.
    pub fn accept_predecessor(&mut self, candidate: &NodeInfo) -> (r: bool)
        requires
            old(self).wf(),
        ensures
            final(self).wf(),
            r == (match old(self).predecessor {
                None => true,
                Some(p) => in_interval(id_value(candidate.id), id_value(p.id), id_value(old(self).info.id)),
            }),
            r ==> final(self).predecessor == Some(*candidate),
            !r ==> final(self).predecessor == old(self).predecessor,
            r && old(self).successor.id == old(self).info.id ==> final(self).successor == *candidate,
            !(r && old(self).successor.id == old(self).info.id) ==> final(self).successor == old(self).successor,
            final(self).info == old(self).info,
            final(self).successor_list == old(self).successor_list,
            final(self).finger_table == old(self).finger_table,
            final(self).data@ == old(self).data@,
    {
        let take = match &self.predecessor {
            None => true,
            Some(p) => is_between(&candidate.id, &p.id, &self.info.id),
        };
        if take {
            self.predecessor = Some(candidate.copied());
            if same_id(&self.successor.id, &self.info.id) {
                self.successor = candidate.copied();
            }
        }
        take
    }

    /// Replaces finger `i` when there is one.
    pub fn set_finger(&mut self, i: usize, info: NodeInfo)
        requires
            old(self).wf(),
        ensures
            final(self).wf(),
            i < ID_BITS ==> final(self).finger_table@ == old(self).finger_table@.update(i as int, info),
            i >= ID_BITS ==> final(self).finger_table@ == old(self).finger_table@,
            final(self).info == old(self).info,
            final(self).successor == old(self).successor,
            final(self).successor_list == old(self).successor_list,
            final(self).predecessor == old(self).predecessor,
            final(self).data@ == old(self).data@,
    {
        if i < self.finger_table.len() {
            self.finger_table.set(i, info);
        }
    }

    /// The successor list, then every `step`-th finger.
    fn pool_with_every(&self, step: usize) -> (r: Vec<NodeInfo>)
        requires
            step > 0,
        ensures
            r@ == self.successor_list@ + every_nth(self.finger_table@, step as nat),
    {
        let mut r: Vec<NodeInfo> = Vec::new();
        let mut k: usize = 0;
        while k < self.successor_list.len()
            invariant
                k <= self.successor_list@.len(),
                r@ == self.successor_list@.subrange(0, k as int),
            decreases self.successor_list@.len() - k,
        {
            r.push(self.successor_list[k].copied());
            k = k + 1;
            assert(r@ =~= self.successor_list@.subrange(0, k as int));
        }
        let ghost base = r@;
        let mut i: usize = 0;
        let ghost mut taken: nat = 0;
        proof {
            let st = step as int;
            assert((0 + st - 1) / st == 0) by (nonlinear_arith)
                requires
                    st > 0,
            ;
        }
        while i < self.finger_table.len()
            invariant
                step > 0,
                i <= self.finger_table@.len(),
                base == self.successor_list@,
                taken == (i + step - 1) / (step as int),
                r@ == base + every_nth(self.finger_table@, step as nat).subrange(0, taken as int),
                taken <= every_nth(self.finger_table@, step as nat).len(),
            decreases self.finger_table@.len() - i,
        {
            let ghost all = every_nth(self.finger_table@, step as nat);
            let ghost ii = i as int;
            let ghost st = step as int;
            if i % step == 0 {
                proof {
                    assert((ii + st - 1) / st == ii / st) by (nonlinear_arith)
                        requires
                            ii % st == 0,
                            st > 0,
                            ii >= 0,
                    ;
                    assert(((ii + 1) + st - 1) / st == ii / st + 1) by (nonlinear_arith)
                        requires
                            ii % st == 0,
                            st > 0,
                            ii >= 0,
                    ;
                    assert(st * (ii / st) == ii) by (nonlinear_arith)
                        requires
                            ii % st == 0,
                            st > 0,
                    ;
                    assert(ii / st < all.len()) by (nonlinear_arith)
                        requires
                            ii < self.finger_table@.len(),
                            ii >= 0,
                            ii % st == 0,
                            st > 0,
                            all.len() == (self.finger_table@.len() + st - 1) / st,
                    ;
                }
                r.push(self.finger_table[i].copied());
                proof {
                    assert(all[taken as int] == self.finger_table@[i as int]);
                    taken = taken + 1;
                    assert(r@ =~= base + all.subrange(0, taken as int));
                }
            } else {
                proof {
                    assert(((ii + 1) + st - 1) / st == (ii + st - 1) / st) by (nonlinear_arith)
                        requires
                            ii % st != 0,
                            st > 0,
                            ii >= 0,
                    ;
                }
            }
            i = i + 1;
        }
        proof {
            let all = every_nth(self.finger_table@, step as nat);
            assert(all.subrange(0, taken as int) =~= all);
        }
        r
    }

    /// The replicas for a key whose primary node is `primary`: the primary, then the
    /// two least loaded distinct nodes of the successor list and every third finger,
    /// other than this node and the primary (ties broken by identifier).
    pub fn select_replicas(&self, primary: &NodeInfo) -> (r: Vec<NodeInfo>)
        requires
            self.wf(),
        ensures
            self.is_replica_choice(*primary, r@),
    {
        let pool = self.pool_with_every(3);
        let mut exclude: Vec<NodeId> = Vec::new();
        exclude.push(self.info.id);
        exclude.push(primary.id);
        assert(exclude@ =~= seq![self.info.id, primary.id]);
        let unique = unique_by_id(&pool, &exclude);
        let ordered = order_by_load(&unique, &self.node_loads, ZERO_LOAD_KEY);
        let mut r: Vec<NodeInfo> = Vec::new();
        r.push(primary.copied());
        let limit: usize = if ordered.len() < 2 { ordered.len() } else { 2 };
        let mut k: usize = 0;
        while k < limit
            invariant
                k <= limit,
                limit <= ordered@.len(),
                r@ == seq![*primary] + ordered@.take(k as int),
            decreases limit - k,
        {
            r.push(ordered[k].copied());
            k = k + 1;
            assert(r@ =~= seq![*primary] + ordered@.take(k as int));
        }
        r
    }

    /// The nodes asked for replicas when the predecessor fails: the distinct nodes of
    /// the successor list and every fourth finger other than this node, by identifier.
    pub fn reconcile_sources(&self) -> (r: Vec<NodeInfo>)
        requires
            self.wf(),
        ensures
            is_unique_sorted_of(r@, self.reconcile_pool(), seq![self.info.id]),
    {
        let pool = self.pool_with_every(4);
        let mut exclude: Vec<NodeId> = Vec::new();
        exclude.push(self.info.id);
        assert(exclude@ =~= seq![self.info.id]);
        unique_by_id(&pool, &exclude)
    }

    /// The peers metrics can be shared with: none when this node is alone, else the
    /// successor and then each other finger, every node once, in that order.
    pub fn gossip_candidates(&self) -> (r: Vec<NodeInfo>)
        ensures
            self.successor.id == self.info.id ==> r@.len() == 0,
            self.successor.id != self.info.id ==> is_first_occurrences_of(
                r@,
                seq![self.successor] + self.finger_table@,
                seq![self.info.id],
            ),
    {
        if same_id(&self.successor.id, &self.info.id) {
            return Vec::new();
        }
        let mut pool: Vec<NodeInfo> = Vec::new();
        pool.push(self.successor.copied());
        let mut k: usize = 0;
        while k < self.finger_table.len()
            invariant
                k <= self.finger_table@.len(),
                pool@ == seq![self.successor] + self.finger_table@.subrange(0, k as int),
            decreases self.finger_table@.len() - k,
        {
            pool.push(self.finger_table[k].copied());
            k = k + 1;
            assert(pool@ =~= seq![self.successor] + self.finger_table@.subrange(0, k as int));
        }
        assert(self.finger_table@.subrange(0, k as int) =~= self.finger_table@);
        let mut exclude: Vec<NodeId> = Vec::new();
        exclude.push(self.info.id);
        assert(exclude@ =~= seq![self.info.id]);
        first_occurrences(&pool, &exclude)
    }

    /// The number of fingers that point to another node.
    pub fn filled_finger_count(&self) -> (r: usize)
        ensures
            r == count_others(self.finger_table@, self.info.id),
    {
        let mut count: usize = 0;
        let mut k: usize = 0;
        while k < self.finger_table.len()
            invariant
                k <= self.finger_table@.len(),
                count == count_others(self.finger_table@.subrange(0, k as int), self.info.id),
                count <= k,
            decreases self.finger_table@.len() - k,
        {
            let ghost prefix = self.finger_table@.subrange(0, k as int);
            assert(self.finger_table@.subrange(0, k + 1).drop_last() =~= prefix);
            if !same_id(&self.finger_table[k].id, &self.info.id) {
                count = count + 1;
            }
            k = k + 1;
        }
        assert(self.finger_table@.subrange(0, k as int) =~= self.finger_table@);
        count
    }

    /// Whether one of this node's virtual nodes covers `key`: `key` lies in
    /// `(self, vnode]` for some virtual node.
    pub fn virtual_nodes_cover(&self, key: &NodeId) -> (r: bool)
        ensures
            r == exists|k: int|
                0 <= k < self.virtual_nodes@.len() && (in_interval(
                    id_value(*key),
                    id_value(self.info.id),
                    id_value(#[trigger] self.virtual_nodes@[k]),
                ) || *key == self.virtual_nodes@[k]),
    {
        let mut k: usize = 0;
        while k < self.virtual_nodes.len()
            invariant
                k <= self.virtual_nodes@.len(),
                forall|j: int|
                    0 <= j < k ==> !(in_interval(
                        id_value(*key),
                        id_value(self.info.id),
                        id_value(#[trigger] self.virtual_nodes@[j]),
                    ) || *key == self.virtual_nodes@[j]),
            decreases self.virtual_nodes@.len() - k,
        {
            let v = &self.virtual_nodes[k];
            if is_between(key, &self.info.id, v) || same_id(key, v) {
                return true;
            }
            k = k + 1;
        }
        false
    }

    /// Whether the ring looks consistent around this node: alone, with predecessor
    /// and successor the same node, or lying between them. Unknown without a
    /// predecessor.
    pub fn ring_check(&self) -> (r: Option<bool>)
        ensures
            self.predecessor is None ==> r is None,
            self.predecessor matches Some(p) ==> r == Some(
                p.id == self.successor.id || in_interval(
                    id_value(self.info.id),
                    id_value(p.id),
                    id_value(self.successor.id),
                ),
            ),
    {
        match &self.predecessor {
            None => None,
            Some(p) => {
                let same = same_id(&p.id, &self.successor.id);
                if same {
                    Some(true)
                } else {
                    Some(is_between(&self.info.id, &p.id, &self.successor.id))
                }
            },
        }
    }
}

} // verus!
