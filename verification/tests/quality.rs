use vpngate2socks::domain::Ipv4Addr;
use vpngate2socks::quality::{parse_ippure_document, IpPureDocument, JsonScalar};

fn number(value: f64) -> JsonScalar {
    JsonScalar::Number { bits: value.to_bits(), in_range: value.is_finite() && (0.0..=100.0).contains(&value) }
}

fn object(members: Vec<(&str, JsonScalar)>) -> Vec<(String, JsonScalar)> {
    members.into_iter().map(|(name, value)| (name.to_owned(), value)).collect()
}

#[test]
fn parses_documented_fields() {
    let document = IpPureDocument {
        root: object(vec![
            ("fraudScore", number(12.0)),
            ("isResidential", JsonScalar::Bool(true)),
            ("isBroadcast", JsonScalar::Bool(false)),
            ("ip", JsonScalar::Text("1.1.1.1".to_owned())),
        ]),
        data: None,
    };
    let parsed = parse_ippure_document(&document).expect("valid payload");
    assert!((f64::from_bits(parsed.fraud_score_bits) - 12.0).abs() < f64::EPSILON);
    assert!(parsed.is_residential);
    assert!(!parsed.is_broadcast);
    assert_eq!(parsed.exit_ip, Some(Ipv4Addr::new(1, 1, 1, 1)));
}

#[test]
fn rejects_each_missing_required_field() {
    for root in [
        object(vec![("isResidential", JsonScalar::Bool(true)), ("isBroadcast", JsonScalar::Bool(false))]),
        object(vec![("fraudScore", number(12.0)), ("isBroadcast", JsonScalar::Bool(false))]),
        object(vec![("fraudScore", number(12.0)), ("isResidential", JsonScalar::Bool(true))]),
    ] {
        assert!(parse_ippure_document(&IpPureDocument { root, data: None }).is_err());
    }
}

#[test]
fn accepts_nested_data_and_snake_case() {
    let document = IpPureDocument {
        root: object(vec![("data", JsonScalar::Other)]),
        data: Some(object(vec![
            ("fraud_score", number(1.5)),
            ("is_residential", JsonScalar::Bool(false)),
            ("is_broadcast", JsonScalar::Bool(true)),
        ])),
    };
    let parsed = parse_ippure_document(&document).expect("valid nested payload");
    assert!((f64::from_bits(parsed.fraud_score_bits) - 1.5).abs() < f64::EPSILON);
    assert!(parsed.is_broadcast);
}

#[test]
fn invalid_fields_are_named() {
    let base = |score: JsonScalar, ip: JsonScalar| IpPureDocument {
        root: object(vec![
            ("fraudScore", score),
            ("isResidential", JsonScalar::Bool(true)),
            ("isBroadcast", JsonScalar::Bool(false)),
            ("query", ip),
        ]),
        data: None,
    };
    assert_eq!(parse_ippure_document(&base(number(101.0), JsonScalar::Other)).err(), Some("fraudScore"));
    assert_eq!(
        parse_ippure_document(&base(number(5.0), JsonScalar::Text("not an ip".to_owned()))).err(),
        Some("ip")
    );
    let parsed = parse_ippure_document(&base(number(5.0), JsonScalar::Other)).expect("an address that is no text is ignored");
    assert_eq!(parsed.exit_ip, None);
    let flags = IpPureDocument {
        root: object(vec![("fraudScore", number(5.0)), ("isResidential", JsonScalar::Text("yes".to_owned()))]),
        data: None,
    };
    assert_eq!(parse_ippure_document(&flags).err(), Some("isResidential"));
}
