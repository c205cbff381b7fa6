use vpngate2socks::domain::{NodeId, OperationId, TestRecord, TestState, Timestamp};
use vpngate2socks::test_registry::{QueueRegistration, TestRegistry};

fn node_id(value: char) -> NodeId {
    NodeId::parse(&value.to_string().repeat(64)).expect("test node id is valid")
}

fn at(secs: i64) -> Timestamp {
    Timestamp { secs, nanos: 0 }
}

fn failed(node_id: &NodeId, secs: i64) -> TestState {
    TestState::Failed {
        node_id: node_id.duplicate(),
        record: TestRecord {
            node_id: node_id.duplicate(),
            result: None,
            duration_ms: 12,
            tested_at: at(secs),
            error: Some("test failure".to_owned()),
        },
    }
}

#[test]
fn returns_the_existing_operation_for_duplicate_in_flight_tests() {
    let mut registry = TestRegistry::new();
    let node_id = node_id('a');
    let first = registry.queue(node_id.duplicate(), at(1));
    let QueueRegistration::New { operation_id, .. } = first else {
        panic!("first registration must be new");
    };

    let duplicate = registry.queue(node_id, at(2));

    assert!(matches!(duplicate, QueueRegistration::Existing(id) if id == operation_id));
}

#[test]
fn completed_nodes_are_known_but_can_be_manually_queued_again() {
    let mut registry = TestRegistry::new();
    let node_id = node_id('b');
    let QueueRegistration::New { operation_id, .. } = registry.queue(node_id.duplicate(), at(1)) else {
        panic!("first registration must be new");
    };
    registry.complete(operation_id, node_id.duplicate(), failed(&node_id, 1_700_000_000), 10);

    assert!(registry.known_nodes().iter().any(|n| n.as_str() == node_id.as_str()));
    assert!(matches!(registry.queue(node_id, at(2)), QueueRegistration::New { .. }));
}

#[test]
fn rollback_forgets_the_registration() {
    let mut registry = TestRegistry::new();
    let id = node_id('c');
    let QueueRegistration::New { operation_id, .. } = registry.queue(id.duplicate(), at(1)) else {
        panic!("first registration must be new");
    };
    registry.rollback_queued(&id, operation_id);
    assert!(registry.state(operation_id).is_none());
    assert!(registry.known_nodes().is_empty());
}

#[test]
fn oldest_completed_operations_are_pruned_beyond_the_limit() {
    let mut registry = TestRegistry::new();
    let mut ops: Vec<OperationId> = Vec::new();
    for (value, secs) in [('d', 30), ('e', 10), ('f', 20)] {
        let id = node_id(value);
        let QueueRegistration::New { operation_id, .. } = registry.queue(id.duplicate(), at(1)) else {
            panic!("first registration must be new");
        };
        registry.complete(operation_id, id.duplicate(), failed(&id, secs), 2);
        ops.push(operation_id);
    }
    assert!(registry.state(ops[0]).is_some());
    assert!(registry.state(ops[1]).is_none());
    assert!(registry.state(ops[2]).is_some());
}

#[test]
fn running_state_replaces_queued_state() {
    let mut registry = TestRegistry::new();
    let id = node_id('a');
    let QueueRegistration::New { operation_id, .. } = registry.queue(id.duplicate(), at(1)) else {
        panic!("first registration must be new");
    };
    registry.mark_running(operation_id, id.duplicate(), at(5));
    assert!(matches!(registry.state(operation_id), Some(TestState::Running { started_at, .. }) if started_at == at(5)));
}
