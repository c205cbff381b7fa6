use vpngate2socks::domain::{ConnectionState, NodeId, Timestamp, UpstreamState, WorkerId};
use vpngate2socks::service::{
    next_backoff_ms, refresh_delay, service_ready, shown_upstream_state, upstream_state_for,
    worker_lost, ActiveConnection, AutoConnectPlanner, AutoConnectStep, RefreshOutcome, ServiceError,
};
use vpngate2socks::socks::UpstreamProbeError;

fn node_id(value: char) -> NodeId {
    NodeId::parse(&value.to_string().repeat(64)).expect("test node id is valid")
}

#[test]
fn backoff_doubles_up_to_the_maximum() {
    assert_eq!(next_backoff_ms(1000, 30_000), 2000);
    assert_eq!(next_backoff_ms(20_000, 30_000), 30_000);
    assert_eq!(next_backoff_ms(u64::MAX, 30_000), 30_000);
}

#[test]
fn refresh_delay_follows_the_outcome() {
    assert_eq!(refresh_delay(RefreshOutcome::Done, 20_000, 600_000), (600_000, 5000));
    assert_eq!(refresh_delay(RefreshOutcome::Busy, 20_000, 600_000), (1000, 20_000));
    assert_eq!(refresh_delay(RefreshOutcome::Failed, 20_000, 600_000), (20_000, 40_000));
}

#[test]
fn upstream_state_and_readiness() {
    assert_eq!(upstream_state_for(Ok(())), UpstreamState::Ready);
    assert_eq!(upstream_state_for(Err(UpstreamProbeError::Authentication)), UpstreamState::AuthenticationFailed);
    assert_eq!(shown_upstream_state(false, UpstreamState::Ready), UpstreamState::NetdUnavailable);
    assert!(service_ready(true, true, UpstreamState::Ready));
    assert!(!service_ready(true, false, UpstreamState::Ready));
}

#[test]
fn service_error_messages() {
    assert_eq!(ServiceError::QueueFull.message(), "test queue is full");
    assert_eq!(
        ServiceError::InvalidAutoConnectConfig("bad region").message(),
        "invalid automatic connection configuration: bad region"
    );
}

#[test]
fn planner_connects_backs_off_and_waits_for_cooldowns() {
    let mut planner = AutoConnectPlanner::new();
    assert!(matches!(planner.plan(false, Some(node_id('a')), true, None), AutoConnectStep::Disabled));
    match planner.plan(true, Some(node_id('a')), true, None) {
        AutoConnectStep::Connect(n) => assert_eq!(n.as_str(), node_id('a').as_str()),
        other => panic!("unexpected step {other:?}"),
    }
    assert_eq!(planner.record_failure(node_id('a'), 1000), 2000);
    assert_eq!(planner.retry_later(5000), 7000);
    assert_eq!(planner.excluded().len(), 1);
    assert_eq!(planner.earliest_retry(), Some(61_000));
    assert!(matches!(planner.plan(true, None, true, None), AutoConnectStep::Wait(Some(61_000))));
    assert!(matches!(planner.plan(true, None, false, None), AutoConnectStep::Wait(None)));
    planner.prune(61_000);
    assert!(planner.excluded().is_empty());
}

#[test]
fn lost_tunnel_fails_closed() {
    let at = Timestamp { secs: 1_700_000_000, nanos: 0 };
    let worker = WorkerId { value: 7 };
    let mut planner = AutoConnectPlanner::new();
    let mut active = Some(ActiveConnection { worker_id: worker, node_id: node_id('a'), connected_at: at });
    let loss = worker_lost(&mut active, &mut planner, true, 1000, at).expect("an active worker was lost");
    assert!(active.is_none());
    assert_eq!(loss.worker_id, worker);
    assert_eq!(loss.retry_at, Some(2000));
    match loss.state {
        ConnectionState::Failed { node_id: failed, message, at: when } => {
            assert!(failed.same(&node_id('a')));
            assert_eq!(message, "VPN 隧道已断开；代理已闭锁");
            assert_eq!(when, at);
        }
        other => panic!("unexpected state {other:?}"),
    }
    assert_eq!(planner.excluded().len(), 1);
    assert_eq!(planner.earliest_retry(), Some(61_000));
    assert!(worker_lost(&mut active, &mut planner, true, 2000, at).is_none());

    let mut manual = AutoConnectPlanner::new();
    let mut active = Some(ActiveConnection { worker_id: worker, node_id: node_id('b'), connected_at: at });
    let loss = worker_lost(&mut active, &mut manual, false, 1000, at).expect("an active worker was lost");
    assert_eq!(loss.retry_at, None);
    assert_eq!(manual.earliest_retry(), Some(61_000));
}
