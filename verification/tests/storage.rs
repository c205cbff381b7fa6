use vpngate2socks::domain::{IpPureResult, IpTypeFilter, Ipv4Addr, NodeId, ResidentialFilter, TestRecord, Timestamp};
use vpngate2socks::storage::{config_from_stored, record_from_row, row_for_record, stale_node_ids, StoreError, StoredTest};

fn node_id(value: u8) -> NodeId {
    NodeId::parse(&format!("{value:064x}")).expect("generated node id is valid")
}

fn in_range(score: f64) -> bool {
    score.is_finite() && (0.0..=100.0).contains(&score)
}

fn success(score: f64) -> TestRecord {
    TestRecord {
        node_id: node_id(1),
        result: Some(IpPureResult {
            fraud_score_bits: score.to_bits(),
            is_residential: true,
            is_broadcast: false,
            exit_ip: Some(Ipv4Addr::new(1, 1, 1, 1)),
        }),
        duration_ms: 20,
        tested_at: Timestamp { secs: 1_700_000_001, nanos: 0 },
        error: None,
    }
}

#[test]
fn stored_records_read_back_unchanged() {
    let failure = TestRecord {
        node_id: node_id(1),
        result: None,
        duration_ms: 10,
        tested_at: Timestamp { secs: 1_700_000_000, nanos: 0 },
        error: Some("timeout".to_owned()),
    };
    for record in [failure, success(7.0)] {
        let score_ok = record.result.map_or(true, |r| in_range(f64::from_bits(r.fraud_score_bits)));
        let row = row_for_record(&record, score_ok).expect("record can be stored");
        let back = record_from_row(&row).expect("row reads back");
        assert_eq!(back.node_id, record.node_id);
        assert_eq!(back.result, record.result);
        assert_eq!(back.duration_ms, record.duration_ms);
        assert_eq!(back.tested_at, record.tested_at);
        assert_eq!(back.error, record.error);
    }
    let row = row_for_record(&success(7.0), true).expect("record can be stored");
    assert_eq!(row.exit_ip.as_deref(), Some("1.1.1.1"));
}

#[test]
fn rejects_out_of_range_scores_and_ambiguous_records() {
    assert_eq!(row_for_record(&success(101.0), in_range(101.0)).err(), Some(StoreError::InvalidRecord));
    let mut both = success(7.0);
    both.error = Some("also failed".to_owned());
    assert_eq!(row_for_record(&both, true).err(), Some(StoreError::InvalidRecord));
    let mut neither = success(7.0);
    neither.result = None;
    assert_eq!(row_for_record(&neither, true).err(), Some(StoreError::InvalidRecord));
    let mut long = success(7.0);
    long.duration_ms = u64::MAX;
    assert_eq!(row_for_record(&long, true).err(), Some(StoreError::DurationOverflow));
}

fn row() -> StoredTest {
    StoredTest {
        node_id: format!("{:064x}", 3),
        fraud_score_bits: Some(5.0f64.to_bits()),
        fraud_score_in_range: true,
        is_residential: Some(false),
        is_broadcast: Some(true),
        exit_ip: None,
        duration_ms: 5,
        tested_at: Timestamp { secs: 1, nanos: 0 },
        error: None,
    }
}

#[test]
fn invalid_rows_name_the_broken_rule() {
    let mut r = row();
    r.node_id = "X".repeat(64);
    assert_eq!(record_from_row(&r).err(), Some(StoreError::InvalidNodeId));
    let mut r = row();
    r.exit_ip = Some("not an ip".to_owned());
    assert_eq!(record_from_row(&r).err(), Some(StoreError::InvalidIp));
    let mut r = row();
    r.fraud_score_in_range = false;
    assert_eq!(record_from_row(&r).err(), Some(StoreError::InvalidRecord));
    let mut r = row();
    r.is_broadcast = None;
    assert_eq!(record_from_row(&r).err(), Some(StoreError::InvalidRecord));
    let mut r = row();
    r.duration_ms = -1;
    assert_eq!(record_from_row(&r).err(), Some(StoreError::DurationOverflow));
    let mut r = row();
    r.error = Some("both".to_owned());
    assert_eq!(record_from_row(&r).err(), Some(StoreError::InvalidRecord));
    assert!(record_from_row(&row()).is_ok());
}

#[test]
fn automatic_connection_config_is_validated_on_load() {
    let config = config_from_stored(true, Some(" jp ".to_owned()), "native", "residential").expect("valid config");
    assert!(config.enabled);
    assert_eq!(config.region.as_deref(), Some("JP"));
    assert_eq!(config.ip_type, IpTypeFilter::Native);
    assert_eq!(config.residential, ResidentialFilter::Residential);
    assert_eq!(config.ip_type.as_str(), "native");
    assert_eq!(config.residential.as_str(), "residential");
    let default = config_from_stored(false, None, "any", "any").expect("default config");
    assert!(!default.enabled && default.region.is_none());
    assert_eq!(config_from_stored(false, None, "bogus", "any").err(), Some(StoreError::InvalidAutoConnectConfig));
    assert_eq!(
        config_from_stored(false, Some("not a region!".to_owned()), "any", "any").err(),
        Some(StoreError::InvalidAutoConnectConfig)
    );
}

#[test]
fn stale_results_are_those_of_unknown_or_invalid_nodes() {
    let current = vec![node_id(1)];
    let candidates = vec![node_id(1).as_str().to_owned(), node_id(2).as_str().to_owned(), "junk".to_owned()];
    let stale = stale_node_ids(&candidates, &current);
    assert_eq!(stale, vec![node_id(2).as_str().to_owned(), "junk".to_owned()]);
}

#[test]
fn store_errors_have_stable_messages() {
    assert_eq!(StoreError::InvalidRecord.message(), "test record violates persistence invariants");
    assert_eq!(StoreError::DurationOverflow.message(), "duration does not fit in SQLite INTEGER");
}
