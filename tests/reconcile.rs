use settler_kernel::{
    build_match_key, build_variance, compute_variances, hash_string, hex_string, parse_selector,
    AttributeMap, KernelError, NormalizedRecord, RoundingMode, RoundingRule, Ruleset, Selector,
    SCHEMA_VERSION,
};

fn record(id: &str, invoice: &str, amount: i64, currency: &str) -> NormalizedRecord {
    let mut attrs = AttributeMap::new();
    if !invoice.is_empty() {
        attrs.insert("invoice".to_string(), invoice.to_string());
    }
    NormalizedRecord {
        record_id: id.to_string(),
        source: "src".to_string(),
        timestamp: "2024-01-02T10:00:00Z".to_string(),
        amount_minor_units: amount,
        currency: currency.to_string(),
        attributes: attrs,
        schema_version: SCHEMA_VERSION.to_string(),
    }
}

fn ruleset(match_keys: &[&str], compare_keys: &[&str], increment: i64) -> Ruleset {
    Ruleset {
        match_keys: match_keys.iter().map(|s| s.to_string()).collect(),
        compare_keys: compare_keys.iter().map(|s| s.to_string()).collect(),
        tolerance_minor_units: 0,
        rounding: RoundingRule {
            mode: RoundingMode::Nearest,
            increment_minor_units: increment,
        },
        timezone: "UTC".to_string(),
        schema_version: SCHEMA_VERSION.to_string(),
    }
}

#[test]
fn unmatched_records_are_reported_on_their_side() {
    let left = vec![record("l1", "a", 1, "USD"), record("l2", "b", 1, "USD"), record("l3", "c", 1, "USD")];
    let right = vec![record("r1", "c", 1, "USD"), record("r2", "d", 1, "USD")];
    let rs = ruleset(&["attributes.invoice"], &["amount_minor_units"], 1);
    let report = compute_variances(&left, &right, &rs).unwrap();
    let missing_right: Vec<_> = report.variances.iter().filter(|v| v.variance_type == "missing_right").collect();
    let missing_left: Vec<_> = report.variances.iter().filter(|v| v.variance_type == "missing_left").collect();
    assert_eq!(missing_right.len(), 2);
    assert_eq!(missing_left.len(), 1);
    for v in &missing_right {
        assert!(v.left_record_id.is_some() && v.right_record_id.is_none());
        assert_eq!(v.severity, "high");
        assert_eq!(v.amount_delta_minor_units, 0);
    }
    assert_eq!(missing_left[0].right_record_id.as_deref(), Some("r2"));
    assert!(missing_left[0].left_record_id.is_none());
    assert_eq!(report.variances.len(), 3);
}

#[test]
fn duplicate_keys_pair_in_record_id_order() {
    let left = vec![record("l2", "k", 20, "USD"), record("l1", "k", 10, "USD")];
    let right = vec![record("r1", "k", 10, "USD")];
    let rs = ruleset(&["attributes.invoice"], &["amount_minor_units"], 1);
    let report = compute_variances(&left, &right, &rs).unwrap();
    assert_eq!(report.variances.len(), 1);
    assert_eq!(report.variances[0].variance_type, "missing_right");
    assert_eq!(report.variances[0].left_record_id.as_deref(), Some("l2"));
}

#[test]
fn field_mismatch_carries_unrounded_delta() {
    let left = vec![record("l1", "k", 107, "USD")];
    let right = vec![record("r1", "k", 100, "EUR")];
    let rs = ruleset(&["attributes.invoice"], &["currency", "attributes.invoice"], 10);
    let report = compute_variances(&left, &right, &rs).unwrap();
    assert_eq!(report.variances.len(), 1);
    let v = &report.variances[0];
    assert_eq!(v.variance_type, "field_mismatch");
    assert_eq!(v.severity, "low");
    assert_eq!(v.amount_delta_minor_units, 7);
    assert_eq!(v.rationale, "Field 'currency' differs after canonicalization.");
}

#[test]
fn unknown_match_key_is_rejected() {
    let rs = ruleset(&["timestamp", "colour"], &["currency"], 1);
    assert_eq!(
        compute_variances(&[], &[], &rs).unwrap_err(),
        KernelError::MissingMatchKey("colour".to_string())
    );
}

#[test]
fn unknown_compare_key_is_rejected() {
    let rs = ruleset(&["timestamp"], &["currency", "weight"], 1);
    let left = vec![record("l1", "", 1, "USD")];
    assert_eq!(
        compute_variances(&left, &left, &rs).unwrap_err(),
        KernelError::MissingCompareKey("weight".to_string())
    );
}

#[test]
fn bad_increment_is_reported_first() {
    let rs = ruleset(&["colour"], &["weight"], 0);
    assert_eq!(
        compute_variances(&[], &[], &rs).unwrap_err(),
        KernelError::InvalidRoundingIncrement
    );
}

#[test]
fn match_key_joins_selected_fields() {
    let rec = record("id-9", "inv-7", -105, "USD");
    let sels = vec![
        parse_selector("record_id").unwrap(),
        parse_selector("amount_minor_units").unwrap(),
        parse_selector("attributes.invoice").unwrap(),
        parse_selector("attributes.missing").unwrap(),
        parse_selector("currency").unwrap(),
    ];
    assert_eq!(build_match_key(&rec, &sels), "id-9|-105|inv-7||USD");
    assert_eq!(parse_selector("attributes.x"), Some(Selector::Attribute("x".to_string())));
    assert_eq!(parse_selector("amount"), None);
}

#[test]
fn attribute_map_keeps_keys_sorted() {
    let mut m = AttributeMap::new();
    m.insert("zeta".to_string(), "1".to_string());
    m.insert("alpha".to_string(), "2".to_string());
    m.insert("mid".to_string(), "3".to_string());
    m.insert("alpha".to_string(), "4".to_string());
    assert_eq!(m.len(), 3);
    let keys: Vec<String> = (0..m.len()).map(|i| m.entry(i).0.clone()).collect();
    assert_eq!(keys, vec!["alpha", "mid", "zeta"]);
    assert_eq!(m.get_or_empty("alpha"), "4");
    assert_eq!(m.get_or_empty("nope"), "");
}

#[test]
fn hashing_known_values() {
    assert_eq!(
        hash_string("abc"),
        "ba7816bf8f01cfea414140de5dae2223b00361a396177a9cb410ff61f20015ad"
    );
    assert_eq!(hex_string(&[0x00, 0x0f, 0xa5, 0xff]), "000fa5ff");
}

#[test]
fn variance_identity_follows_content() {
    let a = build_variance("missing_right", "high", Some("l1".to_string()), None, 0, "why");
    let b = build_variance("missing_right", "low", Some("l1".to_string()), None, 0, "why");
    let c = build_variance("missing_right", "high", Some("l1".to_string()), None, 1, "why");
    assert_eq!(a.variance_id, b.variance_id);
    assert_ne!(a.variance_id, c.variance_id);
    assert_eq!(a.variance_id, hash_string("missing_right|l1||0|why"));
}
