use vpngate2socks::automatic_tests::{select_automatic_tests, AutomaticTestCandidate};
use vpngate2socks::domain::NodeId;

fn node_id(value: char) -> NodeId {
    NodeId::parse(&value.to_string().repeat(64)).expect("test node id is valid")
}

fn candidate(value: char, score: u64, ping_ms: Option<u32>) -> AutomaticTestCandidate {
    AutomaticTestCandidate { node_id: node_id(value), score, ping_ms, eligible: true }
}

fn ids(v: &[NodeId]) -> Vec<String> {
    v.iter().map(|n| n.as_str().to_owned()).collect()
}

#[test]
fn selects_only_missing_eligible_nodes_in_quality_order() {
    let tested = vec![node_id('a')];
    let known = vec![node_id('b')];
    let mut unavailable = candidate('c', 10_000, Some(1));
    unavailable.eligible = false;

    let selected = select_automatic_tests(
        vec![
            candidate('a', 9_000, Some(10)),
            candidate('b', 8_000, Some(12)),
            unavailable,
            candidate('d', 4_000, Some(30)),
            candidate('e', 5_000, None),
            candidate('f', 5_000, Some(40)),
        ],
        &tested,
        &known,
        2,
    );

    assert_eq!(ids(&selected), ids(&[node_id('f'), node_id('e')]));
}

#[test]
fn respects_zero_queue_capacity() {
    let selected = select_automatic_tests(vec![candidate('a', 1, Some(1))], &[], &[], 0);

    assert!(selected.is_empty());
}

#[test]
fn equal_score_and_ping_are_ordered_by_node_id() {
    let selected = select_automatic_tests(
        vec![candidate('b', 7, Some(5)), candidate('a', 7, Some(5)), candidate('c', 8, None)],
        &[],
        &[],
        10,
    );
    assert_eq!(ids(&selected), ids(&[node_id('c'), node_id('a'), node_id('b')]));
}
