use tace::ring::{add_id_power_of_2, is_between, node_id_from_be_bytes, ring_distance, NodeId};

fn hex_to_node_id(hex_str: &str) -> NodeId {
    let bytes = hex::decode(hex_str).unwrap();
    node_id_from_be_bytes(&bytes)
}

#[test]
fn test_add_id_power_of_2() {
    let id = hex_to_node_id("0000000000000000000000000000000000000000");
    let expected_id_1 = hex_to_node_id("0000000000000000000000000000000000000001");
    let expected_id_2 = hex_to_node_id("0000000000000000000000000000000000000002");
    let expected_id_4 = hex_to_node_id("0000000000000000000000000000000000000004");
    assert_eq!(add_id_power_of_2(&id, 0), expected_id_1);
    assert_eq!(add_id_power_of_2(&id, 1), expected_id_2);
    assert_eq!(add_id_power_of_2(&id, 2), expected_id_4);
    let max_id = hex_to_node_id("FFFFFFFFFFFFFFFFFFFFFFFFFFFFFFFFFFFFFFFF");
    let wrapped_id = add_id_power_of_2(&max_id, 0);
    assert_eq!(
        wrapped_id,
        hex_to_node_id("0000000000000000000000000000000000000000")
    );
}

#[test]
fn test_is_between_no_wrap() {
    let start = hex_to_node_id("0000000000000000000000000000000000000000");
    let end = hex_to_node_id("FFFFFFFFFFFFFFFFFFFFFFFFFFFFFFFFFFFFFFFF");
    let id_in = hex_to_node_id("8000000000000000000000000000000000000000");
    let id_out = hex_to_node_id("0000000000000000000000000000000000000000");
    assert!(is_between(&id_in, &start, &end));
    assert!(!is_between(&id_out, &start, &end));
    assert!(is_between(&end, &start, &end));
}

#[test]
fn test_is_between_wrap_around() {
    let start = hex_to_node_id("FFFFFFFFFFFFFFFFFFFFFFFFFFFFFFFFFFFFFFFF");
    let end = hex_to_node_id("0000000000000000000000000000000000000000");
    let id_in_end = hex_to_node_id("0000000000000000000000000000000000000000");
    let id_out_start = hex_to_node_id("FFFFFFFFFFFFFFFFFFFFFFFFFFFFFFFFFFFFFFFF");
    assert!(is_between(&id_in_end, &start, &end));
    assert!(!is_between(&id_out_start, &start, &end));
    let start2 = hex_to_node_id("8000000000000000000000000000000000000000");
    let end2 = hex_to_node_id("2000000000000000000000000000000000000000");
    let id_in_between = hex_to_node_id("9000000000000000000000000000000000000000");
    let id_in_other_side = hex_to_node_id("1000000000000000000000000000000000000000");
    assert!(is_between(&id_in_between, &start2, &end2));
    assert!(is_between(&id_in_other_side, &start2, &end2));
}

#[test]
fn empty_interval_when_start_equals_end() {
    let x = hex_to_node_id("05");
    assert!(!is_between(&x, &x, &x));
    assert!(!is_between(&hex_to_node_id("06"), &x, &x));
}

#[test]
fn add_power_of_two_carries_across_bytes() {
    let id = hex_to_node_id("00ff");
    assert_eq!(add_id_power_of_2(&id, 0), hex_to_node_id("0100"));
    assert_eq!(add_id_power_of_2(&id, 8), hex_to_node_id("01ff"));
    let top = hex_to_node_id("0000000000000000000000000000000000000000");
    assert_eq!(
        add_id_power_of_2(&top, 159),
        hex_to_node_id("8000000000000000000000000000000000000000")
    );
    // 2^160 and beyond vanish modulo the ring size
    assert_eq!(add_id_power_of_2(&id, 160), id);
}

#[test]
fn ring_distance_wraps() {
    let a = hex_to_node_id("10");
    let b = hex_to_node_id("30");
    assert_eq!(ring_distance(&a, &b), hex_to_node_id("20"));
    assert_eq!(
        ring_distance(&b, &a),
        hex_to_node_id("ffffffffffffffffffffffffffffffffffffffe0")
    );
    assert_eq!(ring_distance(&a, &a), hex_to_node_id("00"));
}

#[test]
fn short_identifiers_are_zero_padded() {
    let id = node_id_from_be_bytes(&[1, 2]);
    let mut expected = [0u8; 20];
    expected[18] = 1;
    expected[19] = 2;
    assert_eq!(id, expected);
}
