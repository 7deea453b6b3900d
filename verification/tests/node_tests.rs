use std::collections::{HashMap, HashSet};

use tace::lookup::{Event, PredecessorSearch, Step, SuccessorSearch};
use tace::maintenance::{CheckPredecessor, FixFingers, NotifyOp, Rebalance, RebalanceStep, Stabilize};
use tace::messages::DhtMessage;
use tace::node::{ChordNode, Config, NodeInfo, FULL_LOAD_KEY};
use tace::ring::{add_id_power_of_2, node_id_from_be_bytes, NodeId};
use tace::serve::{admit_connection, fits_message, ServeRequest, ServeStep};
use tace::storage::{Join, RetrieveOp, StoreOp};

fn hex_to_node_id(hex_str: &str) -> NodeId {
    node_id_from_be_bytes(&hex::decode(hex_str).unwrap())
}

fn info(id: &str, address: &str) -> NodeInfo {
    NodeInfo { id: hex_to_node_id(id), address: address.to_string(), api_address: address.to_string() }
}

/// Runs a procedure to its end, answering each call with `respond`.
fn run<T>(
    first: Step<T>,
    mut advance: impl FnMut(Event) -> Step<T>,
    mut respond: impl FnMut(&str, &DhtMessage) -> Event,
) -> T {
    let mut step = first;
    loop {
        match step {
            Step::Done(v) => return v,
            Step::Call(c) => {
                let ev = respond(&c.address, &c.message);
                step = advance(ev);
            }
        }
    }
}

fn no_network(_: &str, _: &DhtMessage) -> Event {
    Event::Failure
}

/// Nodes that answer each other in process; a node busy with its own procedure, or
/// marked down, does not answer.
struct Net {
    nodes: HashMap<String, ChordNode>,
    down: HashSet<String>,
}

impl Net {
    fn new() -> Self {
        Net { nodes: HashMap::new(), down: HashSet::new() }
    }

    fn add(&mut self, node: ChordNode) {
        self.nodes.insert(node.info.address.clone(), node);
    }

    fn call(&mut self, address: &str, message: DhtMessage) -> Event {
        if self.down.contains(address) {
            return Event::Failure;
        }
        let mut node = match self.nodes.remove(address) {
            Some(n) => n,
            None => return Event::Failure,
        };
        let (mut req, mut st) = ServeRequest::begin(&mut node, message);
        let reply = loop {
            match st {
                ServeStep::Call(c) => {
                    let ev = self.call(&c.address, c.message);
                    st = req.step(&mut node, ev);
                }
                ServeStep::Reply(m) => break m,
                ServeStep::MergeMetrics(m) => break DhtMessage::MetricsShared { metrics: m },
            }
        };
        self.nodes.insert(address.to_string(), node);
        Event::Reply(reply)
    }

    fn stabilize(&mut self, address: &str) {
        let mut node = self.nodes.remove(address).unwrap();
        let (mut op, mut st) = Stabilize::begin(&mut node);
        while let Step::Call(c) = st {
            let ev = self.call(&c.address, c.message);
            st = op.step(&mut node, ev);
        }
        self.nodes.insert(address.to_string(), node);
    }

    fn join(&mut self, address: &str, bootstrap: Option<String>) {
        let mut node = self.nodes.remove(address).unwrap();
        let (mut op, mut st) = Join::begin(&mut node, bootstrap);
        while let Step::Call(c) = st {
            let ev = self.call(&c.address, c.message);
            st = op.step(&mut node, ev);
        }
        self.nodes.insert(address.to_string(), node);
    }

    fn find_successor(&mut self, address: &str, id: NodeId) -> NodeInfo {
        let node = self.nodes.remove(address).unwrap();
        let (mut op, mut st) = SuccessorSearch::begin(&node, id);
        let found = loop {
            match st {
                Step::Done(n) => break n,
                Step::Call(c) => {
                    let ev = self.call(&c.address, c.message);
                    st = op.step(&node, ev);
                }
            }
        };
        self.nodes.insert(address.to_string(), node);
        found
    }

    fn node(&self, address: &str) -> &ChordNode {
        &self.nodes[address]
    }
}

#[test]
fn start_new_network_leaves_the_node_alone() {
    let mut node = ChordNode::new_for_test("127.0.0.1:8000".to_string());
    node.predecessor = Some(info("01", "127.0.0.1:8001"));
    let (_op, st) = Join::begin(&mut node, None);
    assert!(matches!(st, Step::Done(())));
    assert_eq!(node.successor.id, node.info.id);
    assert!(node.predecessor.is_none());
    assert!(node.successor_list.iter().all(|n| n.id == node.info.id));
}

#[test]
fn node_identifier_is_the_sha1_of_the_address() {
    let node = ChordNode::new_for_test("127.0.0.1:9000".to_string());
    assert_eq!(node.info.id, hex_to_node_id("70bacfa8e44a0929dddd31d0b9d78164e8cbfba5"));
    assert_eq!(node.successor_list.len(), 3);
    assert_eq!(node.finger_table.len(), 160);
    assert_eq!(node.virtual_nodes.len(), 32);
    assert!(node.virtual_nodes.windows(2).all(|w| w[0] <= w[1]));
}

#[test]
fn configured_identifier_replaces_the_hash() {
    let id = hex_to_node_id("0102");
    let config = Config { p2p_address: "10.0.0.1:1".to_string(), api_address: "10.0.0.1:2".to_string(), node_id: Some(id) };
    let node = ChordNode::from_config(config);
    assert_eq!(node.info.id, id);
    assert_eq!(node.info.api_address, "10.0.0.1:2");
    let default = Config::default();
    assert_eq!(default.p2p_address, "127.0.0.1:8000");
    assert_eq!(default.api_address, "127.0.0.1:9000");
    assert!(default.node_id.is_none());
}

#[test]
fn store_then_retrieve_locally() {
    let mut node = ChordNode::new_for_test("127.0.0.1:9000".to_string());
    let key = hex_to_node_id("1234567890123456789012345678901234567890");
    let (mut op, st) = StoreOp::begin(&mut node, key, b"test_value".to_vec());
    run(st, |ev| op.step(&node, ev), no_network);
    let (_r, st) = RetrieveOp::begin(&node, key);
    match st {
        Step::Done(Some(values)) => assert_eq!(values, vec![b"test_value".to_vec()]),
        _ => panic!("expected the local value"),
    }
    let (mut op2, st2) = StoreOp::begin(&mut node, key, b"second".to_vec());
    run(st2, |ev| op2.step(&node, ev), no_network);
    assert_eq!(node.data.get(&key).unwrap(), vec![b"test_value".to_vec(), b"second".to_vec()]);
}

#[test]
fn retrieve_asks_replicas_when_missing_locally() {
    let mut node = ChordNode::new_for_test("127.0.0.1:9000".to_string());
    let other = info("0100000000000000000000000000000000000000", "127.0.0.1:9100");
    node.successor = other.clone();
    for s in node.successor_list.iter_mut() {
        *s = other.clone();
    }
    let key = hex_to_node_id("ff00000000000000000000000000000000000000");
    let (mut op, st) = RetrieveOp::begin(&node, key);
    let got = run(st, |ev| op.step(&node, ev), |addr, msg| match msg {
        DhtMessage::Retrieve { key: k } if addr == "127.0.0.1:9100" => {
            Event::Reply(DhtMessage::Retrieved { key: *k, value: Some(vec![b"remote".to_vec()]) })
        }
        DhtMessage::GetSuccessor => Event::Reply(DhtMessage::FoundSuccessor {
            id: other.id,
            address: other.address.clone(),
            api_address: other.api_address.clone(),
        }),
        DhtMessage::ClosestPrecedingNode { .. } => Event::Failure,
        _ => Event::Failure,
    });
    assert_eq!(got, Some(vec![b"remote".to_vec()]));
}

#[test]
fn check_predecessor_keeps_a_live_predecessor() {
    let mut node = ChordNode::new_for_test("127.0.0.1:9000".to_string());
    node.predecessor = Some(info("01", "127.0.0.1:9001"));
    let (mut op, _st) = CheckPredecessor::begin(&node);
    let step = op.step(&mut node, Event::Reply(DhtMessage::Pong));
    assert!(matches!(step, Step::Done(())));
    assert_eq!(node.predecessor.as_ref().unwrap().id, hex_to_node_id("01"));
}

#[test]
fn reconcile_merges_replicas_after_predecessor_failure() {
    let mut node = ChordNode::new_for_test("127.0.0.1:9000".to_string());
    let succ = info("ff00000000000000000000000000000000000000", "127.0.0.1:9200");
    for s in node.successor_list.iter_mut() {
        *s = succ.clone();
    }
    node.predecessor = Some(info("01", "127.0.0.1:9001"));
    let key = hex_to_node_id("05");
    let (mut op, st) = CheckPredecessor::begin(&node);
    let mut asked = Vec::new();
    run(st, |ev| op.step(&mut node, ev), |addr, msg| match msg {
        DhtMessage::Ping => Event::Failure,
        DhtMessage::RequestReplicas { key_range_start, .. } => {
            asked.push(addr.to_string());
            assert_eq!(*key_range_start, hex_to_node_id("01"));
            Event::Reply(DhtMessage::ReplicaData { replicas: vec![(key, vec![b"r".to_vec()])] })
        }
        _ => Event::Failure,
    });
    assert_eq!(asked, vec!["127.0.0.1:9200".to_string()]);
    assert_eq!(node.data.get(&key).unwrap(), vec![b"r".to_vec()]);
}

#[test]
fn notify_transfers_the_keys_the_new_predecessor_owns() {
    let mut node = ChordNode::new_for_test("127.0.0.1:9000".to_string());
    node.info.id = hex_to_node_id("80");
    node.predecessor = Some(info("10", "127.0.0.1:9010"));
    node.data.append(hex_to_node_id("20"), b"a".to_vec());
    node.data.append(hex_to_node_id("60"), b"b".to_vec());
    node.data.append(hex_to_node_id("60"), b"c".to_vec());
    let cand = info("40", "127.0.0.1:9040");
    let (mut op, st) = NotifyOp::begin(&mut node, cand);
    assert!(op.accepted);
    let mut sent = Vec::new();
    run(st, |ev| op.step(ev), |addr, msg| {
        if let DhtMessage::Store { key, value } = msg {
            sent.push((addr.to_string(), *key, value.clone()));
        }
        Event::Reply(DhtMessage::Pong)
    });
    assert_eq!(
        sent,
        vec![
            ("127.0.0.1:9040".to_string(), hex_to_node_id("60"), b"b".to_vec()),
            ("127.0.0.1:9040".to_string(), hex_to_node_id("60"), b"c".to_vec()),
        ]
    );
}

#[test]
fn find_predecessor_gives_up_after_ten_rounds() {
    let mut node = ChordNode::new_for_test("127.0.0.1:9000".to_string());
    node.info.id = hex_to_node_id("00");
    node.successor = node.info.clone();
    let me = node.info.clone();
    for f in node.finger_table.iter_mut() {
        *f = me.clone();
    }
    node.finger_table[0] = info("01", "127.0.0.1:1");
    let target = hex_to_node_id("8000000000000000000000000000000000000000");
    let (mut op, st) = PredecessorSearch::begin(&node, target);
    let mut calls = 0u32;
    let mut counter: u8 = 1;
    run(st, |ev| op.step(&node, ev), |_addr, msg| {
        calls += 1;
        match msg {
            // every node names a new closer node, whose successor is just after it
            DhtMessage::ClosestPrecedingNode { .. } | DhtMessage::GetSuccessor => {
                counter += 1;
                let mut id = [0u8; 20];
                id[19] = counter;
                Event::Reply(if matches!(msg, DhtMessage::GetSuccessor) {
                    DhtMessage::FoundSuccessor { id, address: format!("n{}", counter), api_address: String::new() }
                } else {
                    DhtMessage::FoundClosestPrecedingNode { id, address: format!("n{}", counter), api_address: String::new() }
                })
            }
            _ => Event::Failure,
        }
    });
    assert!(calls <= 20);
    assert_eq!(op.rounds, 10);
}

#[test]
fn fix_fingers_sets_the_successor_of_the_finger_start() {
    let mut node = ChordNode::new_for_test("127.0.0.1:9000".to_string());
    let target = add_id_power_of_2(&node.info.id, 5);
    let (mut op, st) = FixFingers::begin(&mut node, 5);
    assert_eq!(op.target, target);
    run(st, |ev| op.step(&mut node, ev), no_network);
    // alone on the ring, every finger is this node
    assert_eq!(node.finger_table[5].id, node.info.id);
}

#[test]
fn stabilize_forms_a_two_node_ring() {
    let mut net = Net::new();
    let a = ChordNode::new_for_test("127.0.0.1:7001".to_string());
    let b = ChordNode::new_for_test("127.0.0.1:7002".to_string());
    let (a_id, b_id) = (a.info.id, b.info.id);
    net.add(a);
    net.add(b);
    net.join("127.0.0.1:7001", None);
    net.join("127.0.0.1:7002", Some("127.0.0.1:7001".to_string()));
    assert_eq!(net.node("127.0.0.1:7002").successor.id, a_id);
    for _ in 0..3 {
        net.stabilize("127.0.0.1:7002");
        net.stabilize("127.0.0.1:7001");
    }
    assert_eq!(net.node("127.0.0.1:7001").successor.id, b_id);
    assert_eq!(net.node("127.0.0.1:7002").successor.id, a_id);
    assert_eq!(net.node("127.0.0.1:7001").predecessor.as_ref().unwrap().id, b_id);
    assert_eq!(net.node("127.0.0.1:7002").predecessor.as_ref().unwrap().id, a_id);
    assert_eq!(net.node("127.0.0.1:7001").ring_check(), Some(true));
    let found = net.find_successor("127.0.0.1:7001", b_id);
    assert_eq!(found.id, b_id);
}

#[test]
fn stabilize_replaces_an_unreachable_successor() {
    let mut node = ChordNode::new_for_test("127.0.0.1:9000".to_string());
    let dead = info("10", "127.0.0.1:9010");
    let backup = info("20", "127.0.0.1:9020");
    node.successor = dead.clone();
    node.successor_list = vec![dead.clone(), backup.clone(), backup.clone()];
    let (mut op, st) = Stabilize::begin(&mut node);
    run(st, |ev| op.step(&mut node, ev), |addr, msg| match (addr, msg) {
        ("127.0.0.1:9020", DhtMessage::Ping) => Event::Reply(DhtMessage::Pong),
        ("127.0.0.1:9020", DhtMessage::GetSuccessor) => Event::Failure,
        _ => Event::Failure,
    });
    assert_eq!(node.successor.id, backup.id);
    assert!(node.successor_list.iter().all(|n| n.id == backup.id));
}

#[test]
fn serve_answers_local_requests() {
    let mut node = ChordNode::new_for_test("127.0.0.1:9000".to_string());
    let (_r, st) = ServeRequest::begin(&mut node, DhtMessage::Ping);
    assert!(matches!(st, ServeStep::Reply(DhtMessage::Pong)));
    let (_r, st) = ServeRequest::begin(&mut node, DhtMessage::GetPredecessor);
    assert!(matches!(st, ServeStep::Reply(DhtMessage::Predecessor { id: None, address: None, api_address: None })));
    let (_r, st) = ServeRequest::begin(&mut node, DhtMessage::Pong);
    match st {
        ServeStep::Reply(DhtMessage::Error { message }) => assert_eq!(message, "Unsupported message type"),
        _ => panic!("expected an error"),
    }
    let key = hex_to_node_id("05");
    let (_r, st) = ServeRequest::begin(
        &mut node,
        DhtMessage::ReplicateData { key, values: vec![b"x".to_vec(), b"y".to_vec()], replica_id: 1 },
    );
    assert!(matches!(st, ServeStep::Reply(DhtMessage::ReplicationAck { success: true, .. })));
    assert_eq!(node.data.get(&key).unwrap(), vec![b"x".to_vec(), b"y".to_vec()]);
    let (_r, st) = ServeRequest::begin(&mut node, DhtMessage::GetDataRange { start: key, end: key });
    match st {
        ServeStep::Reply(DhtMessage::DataRange { data }) => assert_eq!(data.len(), 1),
        _ => panic!("expected data"),
    }
}

#[test]
fn rebalance_asks_before_moving_a_key() {
    let mut node = ChordNode::new_for_test("127.0.0.1:9000".to_string());
    let other = info("ff00000000000000000000000000000000000000", "127.0.0.1:9300");
    for s in node.successor_list.iter_mut() {
        *s = other.clone();
    }
    node.successor = other.clone();
    node.node_loads.set(node.info.id, 0xBF00_0000);
    let key = node.virtual_nodes[0];
    node.data.append(key, b"v".to_vec());
    let (mut op, st) = Rebalance::begin(&node);
    match st {
        RebalanceStep::Judge { target_load, own_load } => {
            assert_eq!(target_load, FULL_LOAD_KEY);
            assert_eq!(own_load, 0xBF00_0000);
        }
        _ => panic!("expected a judgement"),
    }
    let st = op.decide(&mut node, true);
    assert!(node.data.get(&key).is_none());
    match st {
        RebalanceStep::Call(c) => {
            assert_eq!(c.address, "127.0.0.1:9300");
            assert!(matches!(c.message, DhtMessage::Store { .. }));
        }
        _ => panic!("expected the key to be sent"),
    }
    // the transfer fails, so the value is kept here
    let st = op.step(&mut node, Event::Failure);
    assert!(matches!(st, RebalanceStep::Done));
    assert_eq!(node.data.get(&key).unwrap(), vec![b"v".to_vec()]);
}

#[test]
fn connection_admission_and_message_size() {
    assert!(admit_connection(0));
    assert!(admit_connection(99));
    assert!(!admit_connection(100));
    assert!(fits_message(0, 1024));
    assert!(fits_message(1048576 - 1024, 1024));
    assert!(!fits_message(1048576 - 1023, 1024));
}
