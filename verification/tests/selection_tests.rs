use tace::node::{ChordNode, LoadTable, NodeInfo, ZERO_LOAD_KEY};
use tace::ring::{node_id_from_be_bytes, NodeId};
use tace::selection::{first_occurrences, order_by_load, unique_by_id};
use tace::store::DataStore;

fn id(hex_str: &str) -> NodeId {
    node_id_from_be_bytes(&hex::decode(hex_str).unwrap())
}

fn info(hex_str: &str, address: &str) -> NodeInfo {
    NodeInfo { id: id(hex_str), address: address.to_string(), api_address: address.to_string() }
}

fn ids(v: &[NodeInfo]) -> Vec<NodeId> {
    v.iter().map(|n| n.id).collect()
}

#[test]
fn unique_by_id_sorts_and_drops_repeats_and_exclusions() {
    let pool = vec![info("30", "c"), info("10", "a"), info("30", "c2"), info("20", "b"), info("05", "x")];
    let r = unique_by_id(&pool, &vec![id("05")]);
    assert_eq!(ids(&r), vec![id("10"), id("20"), id("30")]);
}

#[test]
fn first_occurrences_keeps_the_order_of_the_pool() {
    let pool = vec![info("30", "c"), info("10", "a"), info("30", "c2"), info("20", "b"), info("05", "x")];
    let r = first_occurrences(&pool, &vec![id("05")]);
    assert_eq!(ids(&r), vec![id("30"), id("10"), id("20")]);
    assert_eq!(r[0].address, "c");
}

#[test]
fn order_by_load_is_stable_and_uses_the_default_for_unknown_nodes() {
    let mut loads = LoadTable::new();
    loads.set(id("10"), 0xC000_0000);
    loads.set(id("30"), 0x1000_0000);
    let s = vec![info("10", "a"), info("20", "b"), info("30", "c"), info("40", "d")];
    let r = order_by_load(&s, &loads, ZERO_LOAD_KEY);
    // 30 is the least loaded; 20 and 40 have the default and keep their order
    assert_eq!(ids(&r), vec![id("30"), id("20"), id("40"), id("10")]);
}

#[test]
fn replicas_are_the_primary_and_the_two_least_loaded_others() {
    let mut node = ChordNode::new_for_test("127.0.0.1:9000".to_string());
    let me = node.info.clone();
    let a = info("10", "a");
    let b = info("20", "b");
    let c = info("30", "c");
    node.successor_list = vec![a.clone(), b.clone(), c.clone()];
    for f in node.finger_table.iter_mut() {
        *f = me.clone();
    }
    node.finger_table[3] = a.clone();
    node.node_loads.set(a.id, 0xF000_0000);
    let replicas = node.select_replicas(&c);
    assert_eq!(ids(&replicas), vec![c.id, b.id, a.id]);
    // the primary is never listed twice, nor this node
    let alone = ChordNode::new_for_test("127.0.0.1:9001".to_string());
    let only = alone.select_replicas(&alone.info);
    assert_eq!(ids(&only), vec![alone.info.id]);
}

#[test]
fn accept_predecessor_follows_the_interval_rule() {
    let mut node = ChordNode::new_for_test("127.0.0.1:9000".to_string());
    node.info.id = id("80");
    node.successor = info("c0", "s");
    node.predecessor = Some(info("40", "p"));
    assert!(!node.accept_predecessor(&info("90", "late")));
    assert_eq!(node.predecessor.as_ref().unwrap().id, id("40"));
    assert!(node.accept_predecessor(&info("60", "closer")));
    assert_eq!(node.predecessor.as_ref().unwrap().id, id("60"));
    // the successor is left alone when this node was not alone
    assert_eq!(node.successor.id, id("c0"));
}

#[test]
fn ring_check_and_finger_statistics() {
    let mut node = ChordNode::new_for_test("127.0.0.1:9000".to_string());
    assert_eq!(node.ring_check(), None);
    assert_eq!(node.filled_finger_count(), 0);
    node.info.id = id("80");
    node.successor = info("c0", "s");
    node.predecessor = Some(info("40", "p"));
    assert_eq!(node.ring_check(), Some(true));
    node.predecessor = Some(info("90", "p"));
    assert_eq!(node.ring_check(), Some(false));
    let mut fresh = ChordNode::new_for_test("127.0.0.1:9001".to_string());
    fresh.set_finger(3, info("c0", "s"));
    fresh.set_finger(7, info("d0", "t"));
    fresh.set_finger(500, info("e0", "ignored"));
    assert_eq!(fresh.filled_finger_count(), 2);
    assert_eq!(fresh.finger_table.len(), 160);
    assert_eq!(fresh.finger_table[3].id, id("c0"));
}

#[test]
fn virtual_nodes_cover_keys_up_to_each_virtual_node() {
    let mut node = ChordNode::new_for_test("127.0.0.1:9000".to_string());
    let v = node.virtual_nodes[0];
    assert!(node.virtual_nodes_cover(&v));
    node.virtual_nodes = vec![id("40")];
    node.info.id = id("10");
    assert!(node.virtual_nodes_cover(&id("20")));
    assert!(node.virtual_nodes_cover(&id("40")));
    assert!(!node.virtual_nodes_cover(&id("50")));
    assert!(!node.virtual_nodes_cover(&id("10")));
}

#[test]
fn data_ranges_take_the_keys_in_the_interval_and_its_end() {
    let mut node = ChordNode::new_for_test("127.0.0.1:9000".to_string());
    for (k, v) in [("10", "a"), ("20", "b"), ("30", "c"), ("20", "d")] {
        node.store_local(id(k), v.as_bytes().to_vec());
    }
    let mut range = node.get_data_range(&id("10"), &id("20"));
    range.sort();
    assert_eq!(range, vec![(id("20"), vec![b"b".to_vec(), b"d".to_vec()])]);
    let wrapped = node.handle_request_replicas(&id("25"), &id("15"));
    let mut keys: Vec<NodeId> = wrapped.iter().map(|e| e.0).collect();
    keys.sort();
    assert_eq!(keys, vec![id("10"), id("30")]);
}

#[test]
fn data_store_appends_and_removes() {
    let mut store = DataStore::new();
    assert_eq!(store.len(), 0);
    store.append(id("01"), b"x".to_vec());
    store.append(id("01"), b"y".to_vec());
    assert!(store.contains_key(&id("01")));
    assert_eq!(store.get(&id("01")).unwrap(), vec![b"x".to_vec(), b"y".to_vec()]);
    let removed = store.remove(&id("01"));
    assert_eq!(removed, Some(vec![b"x".to_vec(), b"y".to_vec()]));
    assert!(!store.contains_key(&id("01")));
    assert_eq!(store.remove(&id("01")), None);
}
