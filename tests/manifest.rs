use settler_kernel::json::write_json_str;
use settler_kernel::{
    compute_manifest, compute_variances, hash_string, verify_manifest_files, AttributeMap,
    KernelError, NormalizedRecord, RoundingMode, RoundingRule, Ruleset, SCHEMA_VERSION,
};

fn setup() -> (Vec<NormalizedRecord>, Vec<NormalizedRecord>, Ruleset) {
    let mut attrs = AttributeMap::new();
    attrs.insert("invoice".to_string(), "inv \"1\"".to_string());
    let rec = |id: &str, amount: i64| NormalizedRecord {
        record_id: id.to_string(),
        source: "s".to_string(),
        timestamp: "t".to_string(),
        amount_minor_units: amount,
        currency: "USD".to_string(),
        attributes: attrs.clone(),
        schema_version: SCHEMA_VERSION.to_string(),
    };
    let rs = Ruleset {
        match_keys: vec!["attributes.invoice".to_string()],
        compare_keys: vec!["amount_minor_units".to_string()],
        tolerance_minor_units: 0,
        rounding: RoundingRule {
            mode: RoundingMode::Down,
            increment_minor_units: 1,
        },
        timezone: "UTC".to_string(),
        schema_version: SCHEMA_VERSION.to_string(),
    };
    (vec![rec("l", 5)], vec![rec("r", 6)], rs)
}

#[test]
fn manifest_hashes_canonical_json() {
    let (left, right, rs) = setup();
    let report = compute_variances(&left, &right, &rs).unwrap();
    let m = compute_manifest(&left, &right, &rs, &report, "l.json", "r.json", "rs.json", "v.json").unwrap();
    let left_json = "[{\"record_id\":\"l\",\"source\":\"s\",\"timestamp\":\"t\",\"amount_minor_units\":5,\"currency\":\"USD\",\"attributes\":{\"invoice\":\"inv \\\"1\\\"\"},\"schema_version\":\"v1\"}]";
    assert_eq!(m.inputs.left_records.sha256, hash_string(left_json));
    let rs_json = "{\"match_keys\":[\"attributes.invoice\"],\"compare_keys\":[\"amount_minor_units\"],\"tolerance_minor_units\":0,\"rounding\":{\"mode\":\"down\",\"increment_minor_units\":1},\"timezone\":\"UTC\",\"schema_version\":\"v1\"}";
    assert_eq!(m.ruleset.sha256, hash_string(rs_json));
    assert_eq!(m.inputs.left_records.file_name, "l.json");
    assert_eq!(m.outputs.variance_summary_hash, report.summary_hash);
    assert_eq!(m.kernel_version, "0.1.0");
    assert!(!m.deterministic_statement.is_empty());
}

#[test]
fn manifest_rejects_unknown_match_key() {
    let (left, right, mut rs) = setup();
    let report = compute_variances(&left, &right, &rs).unwrap();
    rs.match_keys.push("nope".to_string());
    assert_eq!(
        compute_manifest(&left, &right, &rs, &report, "a", "b", "c", "d").unwrap_err(),
        KernelError::MissingMatchKey("nope".to_string())
    );
}

#[test]
fn json_strings_are_escaped() {
    let mut out = String::new();
    write_json_str(&mut out, "a\"b\\c\n\u{1}");
    assert_eq!(out, "\"a\\\"b\\\\c\\n\\u0001\"");
}

fn files(contents: &[(&str, &[u8])]) -> Vec<(String, Vec<u8>)> {
    contents.iter().map(|(n, b)| (n.to_string(), b.to_vec())).collect()
}

fn manifest_over(l: &[u8], r: &[u8], rs: &[u8], v: &[u8]) -> settler_kernel::EvidenceManifest {
    let (left, right, ruleset) = setup();
    let report = compute_variances(&left, &right, &ruleset).unwrap();
    let mut m = compute_manifest(&left, &right, &ruleset, &report, "l", "r", "rs", "v").unwrap();
    let digest = |b: &[u8]| hash_string(std::str::from_utf8(b).unwrap());
    m.inputs.left_records.sha256 = digest(l);
    m.inputs.right_records.sha256 = digest(r);
    m.ruleset.sha256 = digest(rs);
    m.outputs.variance_report.sha256 = digest(v);
    m
}

#[test]
fn untouched_files_verify() {
    let m = manifest_over(b"L", b"R", b"S", b"V");
    let res = verify_manifest_files(&m, &files(&[("l", b"L"), ("r", b"R"), ("rs", b"S"), ("v", b"V")]));
    assert!(res.ok);
    assert!(res.errors.is_empty());
}

#[test]
fn flipped_byte_is_reported_for_that_file() {
    let m = manifest_over(b"L", b"R", b"S", b"V");
    let res = verify_manifest_files(&m, &files(&[("l", b"L"), ("r", b"Q"), ("rs", b"S"), ("v", b"V")]));
    assert!(!res.ok);
    assert_eq!(res.errors.len(), 1);
    assert!(res.errors[0].starts_with("hash mismatch for r: expected "));
}

#[test]
fn missing_file_and_blank_statement_are_all_reported() {
    let mut m = manifest_over(b"L", b"R", b"S", b"V");
    m.deterministic_statement = "  ".to_string();
    let res = verify_manifest_files(&m, &files(&[("l", b"L"), ("r", b"R"), ("v", b"V")]));
    assert!(!res.ok);
    assert_eq!(
        res.errors,
        vec!["deterministic_statement must be present".to_string(), "missing file: rs".to_string()]
    );
}
