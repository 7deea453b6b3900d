//! Node scenarios, driven through the step machines with scripted replies in place
//! of a network.

use tace::lookup::{Event, PredecessorSearch, Step, SuccessorSearch};
use tace::maintenance::{CheckPredecessor, FixFingers, NotifyOp, Stabilize};
use tace::messages::DhtMessage;
use tace::node::{ChordNode, NodeInfo};
use tace::ring::{is_between, node_id_from_be_bytes, NodeId};
use tace::storage::{Join, RetrieveOp, StoreOp};

fn hex_to_node_id(hex_str: &str) -> NodeId {
    node_id_from_be_bytes(&hex::decode(hex_str).unwrap())
}

fn info(id: &str, address: &str) -> NodeInfo {
    NodeInfo { id: hex_to_node_id(id), address: address.to_string(), api_address: address.to_string() }
}

/// Drives a procedure to its end, answering each call with `respond`.
fn drive<T>(
    first: Step<T>,
    mut advance: impl FnMut(Event) -> Step<T>,
    mut respond: impl FnMut(&str, &DhtMessage) -> Event,
) -> T {
    let mut step = first;
    loop {
        match step {
            Step::Done(v) => return v,
            Step::Call(c) => {
                let ev = respond(&c.address, &c.message);
                step = advance(ev);
            }
        }
    }
}

/// A network that must not be used.
fn no_calls(address: &str, message: &DhtMessage) -> Event {
    panic!("unexpected call to {}: {:?}", address, message)
}

fn store(node: &mut ChordNode, key: NodeId, value: Vec<u8>, respond: impl FnMut(&str, &DhtMessage) -> Event) {
    let (mut op, st) = StoreOp::begin(node, key, value);
    drive(st, |ev| op.step(node, ev), respond);
}

fn retrieve(
    node: &ChordNode,
    key: NodeId,
    respond: impl FnMut(&str, &DhtMessage) -> Event,
) -> Option<Vec<Vec<u8>>> {
    let (mut op, st) = RetrieveOp::begin(node, key);
    drive(st, |ev| op.step(node, ev), respond)
}

fn find_successor(node: &ChordNode, id: NodeId, respond: impl FnMut(&str, &DhtMessage) -> Event) -> NodeInfo {
    let (mut op, st) = SuccessorSearch::begin(node, id);
    drive(st, |ev| op.step(node, ev), respond)
}

fn stabilize(node: &mut ChordNode, respond: impl FnMut(&str, &DhtMessage) -> Event) {
    let (mut op, st) = Stabilize::begin(node);
    drive(st, |ev| op.step(node, ev), respond)
}

fn check_predecessor(node: &mut ChordNode, respond: impl FnMut(&str, &DhtMessage) -> Event) {
    let (mut op, st) = CheckPredecessor::begin(node);
    drive(st, |ev| op.step(node, ev), respond)
}

fn fix_finger(node: &mut ChordNode, index: usize, respond: impl FnMut(&str, &DhtMessage) -> Event) {
    let (mut op, st) = FixFingers::begin(node, index);
    drive(st, |ev| op.step(node, ev), respond)
}

fn join(node: &mut ChordNode, bootstrap: Option<String>, respond: impl FnMut(&str, &DhtMessage) -> Event) {
    let (mut op, st) = Join::begin(node, bootstrap);
    drive(st, |ev| op.step(node, ev), respond)
}

fn notify(node: &mut ChordNode, candidate: NodeInfo, respond: impl FnMut(&str, &DhtMessage) -> Event) {
    let (mut op, st) = NotifyOp::begin(node, candidate);
    drive(st, |ev| op.step(ev), respond)
}

#[test]
fn test_start_new_network() {
    let mut node = ChordNode::new_for_test("127.0.0.1:9000".to_string());
    node.start_new_network();
    assert_eq!(node.successor.id, node.info.id);
    assert_eq!(node.successor.address, node.info.address);
    assert!(node.predecessor.is_none());
}

#[test]
fn test_closest_preceding_node() {
    let node_id = hex_to_node_id("0000000000000000000000000000000000000000");
    let node_info = NodeInfo { id: node_id, address: "127.0.0.1:8000".to_string(), api_address: "127.0.0.1:8000".to_string() };
    let mut node = ChordNode::new_for_test("127.0.0.1:8000".to_string());
    node.info = node_info.clone();
    node.successor = node_info.clone();
    node.successor_list = vec![node_info.clone(); 3];
    node.finger_table = vec![node_info.clone(); 160];
    node.finger_table[0] = info("0000000000000000000000000000000000000001", "127.0.0.1:8001");
    node.finger_table[1] = info("0000000000000000000000000000000000000002", "127.0.0.1:8002");
    node.finger_table[159] = info("7FFFFFFFFFFFFFFFFFFFFFFFFFFFFFFFFFFFFFFF", "127.0.0.1:8003");

    let cpn = node.closest_preceding_node(&hex_to_node_id("8000000000000000000000000000000000000000"));
    assert_eq!(cpn.id, hex_to_node_id("7FFFFFFFFFFFFFFFFFFFFFFFFFFFFFFFFFFFFFFF"));

    let cpn_close = node.closest_preceding_node(&hex_to_node_id("0000000000000000000000000000000000000003"));
    assert_eq!(cpn_close.id, hex_to_node_id("0000000000000000000000000000000000000002"));

    let cpn_very_close = node.closest_preceding_node(&hex_to_node_id("0000000000000000000000000000000000000000"));
    assert_eq!(cpn_very_close.id, node_id);
}

#[test]
fn test_store_and_retrieve() {
    let mut node = ChordNode::new_for_test("127.0.0.1:9000".to_string());
    let key = hex_to_node_id("1234567890123456789012345678901234567890");
    let value = vec![1, 2, 3, 4, 5];

    store(&mut node, key, value.clone(), no_calls);

    let retrieved_value = retrieve(&node, key, no_calls);
    assert_eq!(retrieved_value, Some(vec![value]));

    let non_existent_key = hex_to_node_id("0000000000000000000000000000000000000000");
    let retrieved_none = retrieve(&node, non_existent_key, no_calls);
    assert_eq!(retrieved_none, None);
}

#[test]
fn test_check_predecessor_dead() {
    let mut node = ChordNode::new_for_test("127.0.0.1:9000".to_string());
    node.predecessor = Some(info("1111111111111111111111111111111111111111", "127.0.0.1:9999"));
    let mut pings = 0;
    check_predecessor(&mut node, |address, message| {
        assert_eq!(address, "127.0.0.1:9999");
        assert!(matches!(message, DhtMessage::Ping));
        pings += 1;
        Event::Failure
    });
    assert_eq!(pings, 1);
    assert!(node.predecessor.is_none());
}

#[test]
fn test_notify() {
    let mut node = ChordNode::new_for_test("127.0.0.1:9000".to_string());

    // Case 1: no predecessor yet
    let n_prime_1 = info("0000000000000000000000000000000000000001", "127.0.0.1:9001");
    notify(&mut node, n_prime_1.clone(), |_, _| Event::Reply(DhtMessage::Pong));
    assert_eq!(node.predecessor.clone().unwrap().id, n_prime_1.id);
    // a node that was alone takes its first predecessor as successor too
    assert_eq!(node.successor.id, n_prime_1.id);

    // Case 2: the candidate does not lie between the predecessor and this node
    let n_prime_2 = info("0000000000000000000000000000000000000000", "127.0.0.1:9002");
    notify(&mut node, n_prime_2, |_, _| Event::Reply(DhtMessage::Pong));
    assert_eq!(node.predecessor.clone().unwrap().id, n_prime_1.id);

    // Case 3: the candidate lies between the predecessor and this node
    let n_prime_3 = info("0000000000000000000000000000000000000000", "127.0.0.1:9003");
    node.predecessor = Some(info("FFFFFFFFFFFFFFFFFFFFFFFFFFFFFFFFFFFFFFFF", "127.0.0.1:9004"));
    notify(&mut node, n_prime_3.clone(), |_, _| Event::Reply(DhtMessage::Pong));
    assert_eq!(node.predecessor.clone().unwrap().id, n_prime_3.id);
}

#[test]
fn test_join() {
    let bootstrap_node_id = hex_to_node_id("2222222222222222222222222222222222222222");
    let mut node = ChordNode::new_for_test("127.0.0.1:9000".to_string());
    let mut calls = 0;
    join(&mut node, Some("127.0.0.1:8001".to_string()), |address, message| {
        assert_eq!(address, "127.0.0.1:8001");
        calls += 1;
        match message {
            DhtMessage::FindSuccessor { .. } => Event::Reply(DhtMessage::FoundSuccessor {
                id: bootstrap_node_id,
                address: "127.0.0.1:8001".to_string(),
                api_address: "127.0.0.1:8001".to_string(),
            }),
            DhtMessage::GetDataRange { start, end } => {
                assert_eq!(*start, hex_to_node_id("70bacfa8e44a0929dddd31d0b9d78164e8cbfba5"));
                assert_eq!(*end, bootstrap_node_id);
                Event::Reply(DhtMessage::DataRange {
                    data: vec![
                        (hex_to_node_id("1234567890123456789012345678901234567890"), vec![vec![1, 2, 3], vec![4, 5, 6]]),
                        (hex_to_node_id("1234567890123456789012345678901234567891"), vec![vec![4, 5, 6]]),
                    ],
                })
            }
            _ => panic!("unexpected message"),
        }
    });
    assert_eq!(calls, 2);
    assert_eq!(node.successor.id, bootstrap_node_id);
    assert_eq!(node.successor.address, "127.0.0.1:8001");
    assert_eq!(node.data.len(), 2);
    assert_eq!(node.data.get(&hex_to_node_id("1234567890123456789012345678901234567890")).unwrap().len(), 2);
}

#[test]
fn test_find_successor() {
    let successor_id = hex_to_node_id("3333333333333333333333333333333333333333");
    let mut node = ChordNode::new_for_test("127.0.0.1:9000".to_string());
    node.finger_table[0] = info("2222222222222222222222222222222222222222", "127.0.0.1:8001");
    let mut calls = 0;
    let successor = find_successor(&node, hex_to_node_id("4444444444444444444444444444444444444444"), |_, _| {
        calls += 1;
        Event::Reply(DhtMessage::FoundSuccessor {
            id: successor_id,
            address: "127.0.0.1:8002".to_string(),
            api_address: "127.0.0.1:8002".to_string(),
        })
    });
    assert!((1..=3).contains(&calls));
    assert_eq!(successor.id, successor_id);
    assert_eq!(successor.address, "127.0.0.1:8002");
}

#[test]
fn test_find_predecessor_message_handling() {
    let mut node = ChordNode::new_for_test("127.0.0.1:9000".to_string());
    node.finger_table[0] = info("2222222222222222222222222222222222222222", "127.0.0.1:8001");
    let (mut op, st) = PredecessorSearch::begin(&node, hex_to_node_id("1111111111111111111111111111111111111111"));
    let predecessor = drive(st, |ev| op.step(&node, ev), no_calls);
    assert_eq!(predecessor.id, node.info.id);
    assert_eq!(predecessor.address, node.info.address);
}

#[test]
fn test_find_predecessor_retry_logic() {
    let node = ChordNode::new_for_test("127.0.0.1:9000".to_string());
    let (mut op, st) = PredecessorSearch::begin(&node, hex_to_node_id("7000000000000000000000000000000000000000"));
    let result = drive(st, |ev| op.step(&node, ev), |_, _| Event::Failure);
    assert_eq!(result.id, node.info.id);
}

#[test]
fn test_id_space_wraparound() {
    let high_id = hex_to_node_id("FFFFFFFFFFFFFFFFFFFFFFFFFFFFFFFFFFFFFFFE");
    let node_info = NodeInfo { id: high_id, address: "127.0.0.1:9000".to_string(), api_address: "127.0.0.1:9000".to_string() };
    let first = info("0000000000000000000000000000000000000001", "127.0.0.1:8001");
    let mut node = ChordNode::new_for_test("127.0.0.1:9000".to_string());
    node.info = node_info.clone();
    node.successor = first.clone();
    node.successor_list = vec![first.clone(); 3];
    node.finger_table = vec![node_info.clone(); 160];

    let successor = find_successor(&node, hex_to_node_id("0000000000000000000000000000000000000000"), |_, _| {
        Event::Reply(DhtMessage::FoundSuccessor {
            id: first.id,
            address: first.address.clone(),
            api_address: first.api_address.clone(),
        })
    });
    assert_eq!(successor.id, hex_to_node_id("0000000000000000000000000000000000000001"));

    let low_id = hex_to_node_id("FFFFFFFFFFFFFFFFFFFFFFFFFFFFFFFFFFFFFFFE");
    let mid_id = hex_to_node_id("0000000000000000000000000000000000000000");
    let high = hex_to_node_id("0000000000000000000000000000000000000001");
    assert!(is_between(&mid_id, &low_id, &high), "ID 0 should be between FFFE and 0001 (wraparound)");
}

#[test]
fn test_fix_fingers() {
    let mut node = ChordNode::new_for_test("127.0.0.1:9000".to_string());
    let initial_len = node.finger_table.len();
    node.finger_table[5] = info("1111111111111111111111111111111111111111", "127.0.0.1:8001");
    let (mut op, st) = FixFingers::begin_random(&mut node);
    assert!((1..160).contains(&op.index));
    drive(st, |ev| op.step(&mut node, ev), no_calls);
    assert_eq!(node.finger_table.len(), 160);
    assert_eq!(initial_len, node.finger_table.len());
    for finger in &node.finger_table {
        assert!(!finger.address.is_empty());
        assert!(!finger.api_address.is_empty());
    }
}

#[test]
fn test_network_partition_recovery() {
    let mut node = ChordNode::new_for_test("127.0.0.1:9000".to_string());
    node.successor = info("1111111111111111111111111111111111111111", "127.0.0.1:8001");
    let mut call_count = 0;
    let mut respond = |_: &str, _: &DhtMessage| {
        call_count += 1;
        if call_count <= 2 {
            Event::Failure
        } else {
            Event::Reply(DhtMessage::FoundSuccessor {
                id: hex_to_node_id("2222222222222222222222222222222222222222"),
                address: "127.0.0.1:8002".to_string(),
                api_address: "127.0.0.1:8002".to_string(),
            })
        }
    };
    stabilize(&mut node, &mut respond);
    stabilize(&mut node, &mut respond);
    stabilize(&mut node, &mut respond);
    let result = find_successor(&node, hex_to_node_id("3333333333333333333333333333333333333333"), &mut respond);
    assert!(!result.address.is_empty());
}

#[test]
fn test_data_consistency_during_network_changes() {
    let mut respond = |_: &str, message: &DhtMessage| match message {
        DhtMessage::GetDataRange { .. } => Event::Reply(DhtMessage::DataRange {
            data: vec![(hex_to_node_id("1111111111111111111111111111111111111111"), vec![b"test_value".to_vec()])],
        }),
        _ => Event::Reply(DhtMessage::FoundSuccessor {
            id: hex_to_node_id("2222222222222222222222222222222222222222"),
            address: "127.0.0.1:8002".to_string(),
            api_address: "127.0.0.1:8002".to_string(),
        }),
    };
    let mut node = ChordNode::new_for_test("127.0.0.1:9000".to_string());
    let test_key = hex_to_node_id("1111111111111111111111111111111111111111");
    let test_value = b"initial_value".to_vec();
    store(&mut node, test_key, test_value.clone(), &mut respond);
    assert!(node.data.contains_key(&test_key), "Data should be stored");
    assert_eq!(node.data.get(&test_key).unwrap()[0], test_value);

    node.successor = info("3333333333333333333333333333333333333333", "127.0.0.1:8003");
    let retrieved_after_change = retrieve(&node, test_key, &mut respond);
    assert!(retrieved_after_change.is_some(), "Data should still be accessible after network changes");
    assert_eq!(retrieved_after_change.unwrap()[0], test_value);

    store(&mut node, test_key, test_value.clone(), &mut respond);
    join(&mut node, Some("127.0.0.1:8001".to_string()), &mut respond);
    let final_retrieved = retrieve(&node, test_key, &mut respond);
    assert!(final_retrieved.is_some(), "Data should persist through join operations");
}

#[test]
fn test_malformed_message_handling() {
    let mut node = ChordNode::new_for_test("127.0.0.1:9000".to_string());
    let result = find_successor(&node, hex_to_node_id("1111111111111111111111111111111111111111"), no_calls);
    assert!(!result.address.is_empty(), "Should return a valid result even with network issues");

    store(&mut node, hex_to_node_id("2222222222222222222222222222222222222222"), b"test_value".to_vec(), no_calls);
    let missing = retrieve(&node, hex_to_node_id("9999999999999999999999999999999999999999"), no_calls);
    assert!(missing.is_none());

    stabilize(&mut node, |_, _| Event::Failure);
    fix_finger(&mut node, 7, |_, _| Event::Failure);
    check_predecessor(&mut node, |_, _| Event::Failure);
}

#[test]
fn test_stabilize() {
    let successor_predecessor_id = hex_to_node_id("5555555555555555555555555555555555555555");
    let mut node = ChordNode::new_for_test("127.0.0.1:9000".to_string());
    node.successor = info("6666666666666666666666666666666666666666", "127.0.0.1:8004");
    let (mut get_predecessor, mut notified, mut successors_asked) = (0, 0, Vec::new());
    stabilize(&mut node, |address, message| match message {
        DhtMessage::GetPredecessor => {
            get_predecessor += 1;
            Event::Reply(DhtMessage::Predecessor {
                id: Some(successor_predecessor_id),
                address: Some("127.0.0.1:8003".to_string()),
                api_address: Some("127.0.0.1:8003".to_string()),
            })
        }
        DhtMessage::Notify { .. } => {
            notified += 1;
            Event::Reply(DhtMessage::Pong)
        }
        DhtMessage::GetSuccessor if address == "127.0.0.1:8003" => {
            successors_asked.push(address.to_string());
            Event::Reply(DhtMessage::FoundSuccessor {
                id: hex_to_node_id("7777777777777777777777777777777777777777"),
                address: "127.0.0.1:8005".to_string(),
                api_address: "127.0.0.1:8005".to_string(),
            })
        }
        DhtMessage::GetSuccessor if address == "127.0.0.1:8005" => {
            successors_asked.push(address.to_string());
            Event::Reply(DhtMessage::FoundSuccessor {
                id: hex_to_node_id("8888888888888888888888888888888888888888"),
                address: "127.0.0.1:8006".to_string(),
                api_address: "127.0.0.1:8006".to_string(),
            })
        }
        _ => panic!("unexpected call to {}: {:?}", address, message),
    });
    assert_eq!(get_predecessor, 1);
    assert_eq!(notified, 1);
    assert_eq!(node.successor.id, successor_predecessor_id);
    assert_eq!(node.successor.address, "127.0.0.1:8003");
    assert_eq!(node.successor_list[0].address, "127.0.0.1:8003");
    assert_eq!(node.successor_list[1].address, "127.0.0.1:8005");
    assert_eq!(node.successor_list[2].address, "127.0.0.1:8006");
}
