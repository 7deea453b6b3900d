use rand_core::RngCore;
use tace::api::{
    generate_key, get_challenge, pick_gossip_peer, query_public_key, ChallengeBook, ConnectSearch, DeliverMessage,
    DeliveryOutcome, PollMessages, PollOutcome,
};
use tace::keys::{generate_keypair, sign};
use tace::limiter::{retry_delay, ConnectionLimiter};
use tace::lookup::{Event, Step};
use tace::node::ChordNode;

#[test]
fn query_parameter_is_found_among_others() {
    assert_eq!(query_public_key("public_key=abc"), Some("abc".to_string()));
    assert_eq!(query_public_key("x=1&public_key=abc&y=2"), Some("abc".to_string()));
    assert_eq!(query_public_key("public_key=a=b"), Some("a".to_string()));
    assert_eq!(query_public_key("public_key="), Some(String::new()));
    assert_eq!(query_public_key("key=abc"), None);
    assert_eq!(query_public_key(""), None);
    assert_eq!(query_public_key("xpublic_key=abc"), None);
}

#[test]
fn challenge_is_issued_and_used_once() {
    let keys = generate_keypair();
    let mut book = ChallengeBook::new();
    let query = format!("public_key={}", keys.public_key);
    let nonce_hex = get_challenge(&mut book, &query, 1_000).expect("a challenge");
    assert_eq!(nonce_hex.len(), 64);
    let nonce = hex::decode(&nonce_hex).unwrap();
    let signature = sign(&keys.private_key, &nonce).unwrap();
    assert!(book.redeem(&keys.public_key, &nonce, &signature));
    // used up
    assert!(!book.redeem(&keys.public_key, &nonce, &signature));
}

#[test]
fn challenge_refuses_a_wrong_signature() {
    let keys = generate_keypair();
    let mut book = ChallengeBook::new();
    let nonce = vec![7u8; 32];
    book.issue(keys.public_key.clone(), nonce.clone(), 0);
    let bad = sign(&keys.private_key, b"wrong message").unwrap();
    assert!(!book.redeem(&keys.public_key, &nonce, &bad));
    let good = sign(&keys.private_key, &nonce).unwrap();
    assert!(!book.redeem(&keys.public_key, &[1u8; 32].to_vec(), &good));
    assert!(book.redeem(&keys.public_key, &nonce, &good));
}

#[test]
fn expired_challenges_are_dropped_when_a_new_one_is_issued() {
    let keys = generate_keypair();
    let mut book = ChallengeBook::new();
    let nonce = vec![3u8; 32];
    book.issue(keys.public_key.clone(), nonce.clone(), 0);
    let _ = get_challenge(&mut book, "public_key=someone", 60_000_000_000);
    let good = sign(&keys.private_key, &nonce).unwrap();
    assert!(!book.redeem(&keys.public_key, &nonce, &good));
}

#[test]
fn missing_public_key_gets_no_challenge() {
    let mut book = ChallengeBook::new();
    assert!(get_challenge(&mut book, "nothing=here", 0).is_none());
}

#[test]
fn test_connect_handler_basic() {
    let node = ChordNode::new_for_test("127.0.0.1:8000".to_string());
    let (_op, st) = ConnectSearch::begin(&node);
    match st {
        Step::Done(Some(api)) => assert_eq!(api, "127.0.0.1:8000"),
        _ => panic!("expected this node"),
    }
}

#[test]
fn a_message_for_a_local_key_is_stored_here() {
    let mut node = ChordNode::new_for_test("127.0.0.1:8000".to_string());
    let (_op, st) = DeliverMessage::begin(&mut node, "recipient", b"stored".to_vec());
    // alone on the ring, the node stores the message itself without a call
    assert!(matches!(st, Step::Done(DeliveryOutcome::Delivered)));
    let key = generate_key("recipient");
    assert_eq!(node.data.get(&key).unwrap(), vec![b"stored".to_vec()]);
}

#[test]
fn alone_a_node_polls_its_own_store() {
    let keys = generate_keypair();
    let mut node = ChordNode::new_for_test("127.0.0.1:8000".to_string());
    let mut book = ChallengeBook::new();
    let nonce = vec![5u8; 32];
    book.issue(keys.public_key.clone(), nonce.clone(), 0);
    let signature = sign(&keys.private_key, &nonce).unwrap();
    let (_op, st) = PollMessages::begin(&node, &mut book, keys.public_key.clone(), nonce.clone(), signature.clone());
    match st {
        Step::Done(PollOutcome::Messages(m)) => assert!(m.is_empty()),
        _ => panic!("expected no messages at once"),
    }
    let key = generate_key(&keys.public_key);
    node.data.append(key, b"m".to_vec());
    book.issue(keys.public_key.clone(), nonce.clone(), 0);
    let (_op, st) = PollMessages::begin(&node, &mut book, keys.public_key.clone(), nonce, signature);
    match st {
        Step::Done(PollOutcome::Messages(m)) => assert_eq!(m, vec![b"m".to_vec()]),
        _ => panic!("expected the stored message"),
    }
}
#[test]
fn poll_returns_the_stored_messages_after_a_valid_answer() {
    let keys = generate_keypair();
    let mut node = ChordNode::new_for_test("0.0.0.0:0".to_string());
    let key = generate_key(&keys.public_key);
    node.data.append(key, b"m1".to_vec());
    let mut book = ChallengeBook::new();
    let nonce = vec![9u8; 32];
    book.issue(keys.public_key.clone(), nonce.clone(), 0);
    let signature = sign(&keys.private_key, &nonce).unwrap();
    let (_op, st) = PollMessages::begin(&node, &mut book, keys.public_key.clone(), nonce.clone(), signature.clone());
    match st {
        Step::Done(PollOutcome::Messages(m)) => assert_eq!(m, vec![b"m1".to_vec()]),
        _ => panic!("expected the messages"),
    }
    let (_op, st) = PollMessages::begin(&node, &mut book, keys.public_key.clone(), nonce, signature);
    assert!(matches!(st, Step::Done(PollOutcome::Unauthorized)));
}

#[test]
fn poll_is_refused_with_a_bad_signature() {
    let keys = generate_keypair();
    let node = ChordNode::new_for_test("0.0.0.0:0".to_string());
    let mut book = ChallengeBook::new();
    let nonce = vec![9u8; 32];
    book.issue(keys.public_key.clone(), nonce.clone(), 0);
    let bad = sign(&keys.private_key, b"wrong message").unwrap();
    let (_op, st) = PollMessages::begin(&node, &mut book, keys.public_key.clone(), nonce, bad);
    assert!(matches!(st, Step::Done(PollOutcome::Unauthorized)));
}

#[test]
fn message_key_is_the_sha1_of_the_public_key() {
    let key = generate_key("abc");
    assert_eq!(hex::encode(key), "a9993e364706816aba3e25717850c26c9cd0d89d");
}

#[test]
fn limiter_counts_per_host() {
    let mut limiter = ConnectionLimiter::new(2);
    assert!(limiter.can_connect_at("a:1", 0));
    limiter.increment_count("a:1");
    assert!(limiter.can_connect_at("a:1", 10));
    limiter.increment_count("a:1");
    assert!(!limiter.can_connect_at("a:1", 20));
    assert!(limiter.can_connect_at("b:1", 20));
    limiter.decrement_count("a:1");
    assert!(limiter.can_connect_at("a:1", 30));
    limiter.decrement_count("a:1");
    limiter.decrement_count("a:1");
    assert!(limiter.can_connect_at("a:1", 40));
}

#[test]
fn limiter_checks_by_the_clock() {
    let mut limiter = ConnectionLimiter::new(1);
    assert!(limiter.can_connect("host:1"));
    limiter.increment_count("host:1");
    assert!(!limiter.can_connect("host:1"));
    limiter.decrement_count("host:1");
    assert!(limiter.can_connect("host:1"));
}

#[test]
fn limiter_forgets_idle_hosts_after_two_intervals() {
    let mut limiter = ConnectionLimiter::new(1);
    assert!(limiter.can_connect_at("idle:1", 0));
    assert!(limiter.can_connect_at("busy:1", 0));
    limiter.increment_count("busy:1");
    // more than one interval later a cleanup is due; two intervals have not passed yet
    limiter.cleanup_old_entries(59_999_999_999);
    assert!(!limiter.can_connect_at("busy:1", 59_999_999_999));
    limiter.cleanup_old_entries(60_000_000_000);
    // the busy host is kept with its count
    assert!(!limiter.can_connect_at("busy:1", 60_000_000_000));
    limiter.decrement_count("busy:1");
    assert!(limiter.can_connect_at("busy:1", 60_000_000_001));
}

#[test]
fn retries_back_off_exponentially() {
    assert_eq!(retry_delay(0), Some(0));
    assert_eq!(retry_delay(1), Some(100));
    assert_eq!(retry_delay(2), Some(200));
    assert_eq!(retry_delay(3), None);
}

#[test]
fn gossip_peer_is_a_candidate_other_than_this_node() {
    let node = ChordNode::new_for_test("127.0.0.1:1".to_string());
    assert!(node.gossip_candidates().is_empty());
    assert!(pick_gossip_peer(&node).is_none());
    let mut other = ChordNode::new_for_test("127.0.0.1:2".to_string());
    let first = ChordNode::new_for_test("127.0.0.1:3".to_string()).info;
    other.successor = first.clone();
    let cands = other.gossip_candidates();
    assert_eq!(cands.len(), 1);
    for _ in 0..5 {
        let peer = pick_gossip_peer(&other).unwrap();
        assert_eq!(peer.id, first.id);
        assert_eq!(peer.address, "127.0.0.1:3");
    }
    let second = ChordNode::new_for_test("127.0.0.1:4".to_string()).info;
    other.finger_table[9] = second.clone();
    for _ in 0..5 {
        let peer = pick_gossip_peer(&other).unwrap();
        assert!(peer.id == first.id || peer.id == second.id);
    }
}

#[test]
fn test_get_challenge_handler() {
    let keypair = generate_keypair();
    let mut book = ChallengeBook::new();
    let query = format!("public_key={}", keypair.public_key);
    let nonce_hex = get_challenge(&mut book, &query, 0).expect("a challenge");
    assert_eq!(nonce_hex.len(), 64);
}

fn random_nonce() -> Vec<u8> {
    let mut nonce = vec![0u8; 32];
    rand_core::OsRng.fill_bytes(&mut nonce);
    nonce
}

#[test]
fn test_poll_handler_success() {
    let keypair = generate_keypair();
    let node = ChordNode::new_for_test("0.0.0.0:0".to_string());
    let mut book = ChallengeBook::new();
    let nonce = random_nonce();
    book.issue(keypair.public_key.clone(), nonce.clone(), 0);
    let signature = sign(&keypair.private_key, &nonce).unwrap();
    let (mut op, mut st) =
        PollMessages::begin(&node, &mut book, keypair.public_key.clone(), nonce.clone(), signature.clone());
    let outcome = loop {
        match st {
            Step::Done(o) => break o,
            Step::Call(_) => st = op.step(&node, Event::Failure),
        }
    };
    assert!(matches!(outcome, PollOutcome::Messages(_)));
    // the challenge was used up
    assert!(!book.redeem(&keypair.public_key, &nonce, &signature));
}

#[test]
fn test_poll_handler_invalid_signature() {
    let keypair = generate_keypair();
    let node = ChordNode::new_for_test("0.0.0.0:0".to_string());
    let mut book = ChallengeBook::new();
    let nonce = random_nonce();
    book.issue(keypair.public_key.clone(), nonce.clone(), 0);
    let bad_signature = sign(&keypair.private_key, b"wrong message").unwrap();
    let (_op, st) = PollMessages::begin(&node, &mut book, keypair.public_key.clone(), nonce, bad_signature);
    assert!(matches!(st, Step::Done(PollOutcome::Unauthorized)));
}
