use settler_kernel::{
    compute_manifest, compute_variances, AttributeMap, NormalizedRecord, RoundingMode,
    RoundingRule, Ruleset, SCHEMA_VERSION,
};

fn sample_records() -> (Vec<NormalizedRecord>, Vec<NormalizedRecord>) {
    let mut left_attrs = AttributeMap::new();
    left_attrs.insert("invoice".to_string(), "inv-100".to_string());

    let mut right_attrs = AttributeMap::new();
    right_attrs.insert("invoice".to_string(), "inv-100".to_string());

    let left = NormalizedRecord {
        record_id: "left-1".to_string(),
        source: "ledger".to_string(),
        timestamp: "2024-01-02T10:00:00Z".to_string(),
        amount_minor_units: 105,
        currency: "USD".to_string(),
        attributes: left_attrs,
        schema_version: SCHEMA_VERSION.to_string(),
    };

    let right = NormalizedRecord {
        record_id: "right-1".to_string(),
        source: "bank".to_string(),
        timestamp: "2024-01-02T10:00:00Z".to_string(),
        amount_minor_units: 100,
        currency: "USD".to_string(),
        attributes: right_attrs,
        schema_version: SCHEMA_VERSION.to_string(),
    };

    (vec![left], vec![right])
}

fn sample_ruleset() -> Ruleset {
    Ruleset {
        match_keys: vec!["timestamp".to_string(), "attributes.invoice".to_string()],
        compare_keys: vec!["amount_minor_units".to_string(), "currency".to_string()],
        tolerance_minor_units: 2,
        rounding: RoundingRule {
            mode: RoundingMode::Nearest,
            increment_minor_units: 10,
        },
        timezone: "UTC".to_string(),
        schema_version: SCHEMA_VERSION.to_string(),
    }
}

#[test]
fn deterministic_variance_and_manifest() {
    let (left, right) = sample_records();
    let ruleset = sample_ruleset();

    let report_a = compute_variances(&left, &right, &ruleset).expect("report a");
    let report_b = compute_variances(&left, &right, &ruleset).expect("report b");

    assert_eq!(report_a, report_b);

    let manifest_a = compute_manifest(
        &left,
        &right,
        &ruleset,
        &report_a,
        "left.json",
        "right.json",
        "ruleset.json",
        "variance.json",
    )
    .expect("manifest a");

    let manifest_b = compute_manifest(
        &left,
        &right,
        &ruleset,
        &report_b,
        "left.json",
        "right.json",
        "ruleset.json",
        "variance.json",
    )
    .expect("manifest b");

    assert_eq!(manifest_a, manifest_b);
}

#[test]
fn amount_beyond_tolerance_after_rounding() {
    let (left, right) = sample_records();
    let ruleset = sample_ruleset();
    let report = compute_variances(&left, &right, &ruleset).unwrap();
    assert_eq!(report.variances.len(), 1);
    let v = &report.variances[0];
    assert_eq!(v.variance_type, "amount_mismatch");
    assert_eq!(v.severity, "medium");
    assert_eq!(v.amount_delta_minor_units, 10);
    assert_eq!(v.left_record_id.as_deref(), Some("left-1"));
    assert_eq!(v.right_record_id.as_deref(), Some("right-1"));
    assert_eq!(v.variance_id.len(), 64);
    assert_eq!(report.summary_hash.len(), 64);
    assert_eq!(report.schema_version, "v1");
}

#[test]
fn amounts_within_tolerance_give_empty_report() {
    let (mut left, right) = sample_records();
    left[0].amount_minor_units = 101;
    let ruleset = sample_ruleset();
    let report = compute_variances(&left, &right, &ruleset).unwrap();
    assert!(report.variances.is_empty());
    // SHA-256 of "[]"
    assert_eq!(
        report.summary_hash,
        "4f53cda18c2baa0c0354bb5f9a3ecbe5ed12ab4d8e11ba873c2f11161202b945"
    );
}

#[test]
fn permuted_inputs_give_the_same_report() {
    let mut left = Vec::new();
    let mut right = Vec::new();
    for (id, amount) in [("a", 100i64), ("b", 250), ("c", 300)] {
        let mut attrs = AttributeMap::new();
        attrs.insert("invoice".to_string(), format!("inv-{id}"));
        left.push(NormalizedRecord {
            record_id: format!("l-{id}"),
            source: "ledger".to_string(),
            timestamp: "t".to_string(),
            amount_minor_units: amount,
            currency: "USD".to_string(),
            attributes: attrs.clone(),
            schema_version: SCHEMA_VERSION.to_string(),
        });
        right.push(NormalizedRecord {
            record_id: format!("r-{id}"),
            source: "bank".to_string(),
            timestamp: "t".to_string(),
            amount_minor_units: amount + 20,
            currency: "USD".to_string(),
            attributes: attrs,
            schema_version: SCHEMA_VERSION.to_string(),
        });
    }
    let ruleset = sample_ruleset();
    let a = compute_variances(&left, &right, &ruleset).unwrap();
    left.reverse();
    right.swap(0, 2);
    let b = compute_variances(&left, &right, &ruleset).unwrap();
    assert_eq!(a, b);
    assert_eq!(a.variances.len(), 3);
    for w in a.variances.windows(2) {
        assert!(w[0].variance_id < w[1].variance_id);
    }
}
