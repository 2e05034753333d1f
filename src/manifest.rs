use vstd::prelude::*;
use crate::canonical::{canonicalize_and_sort, keyed_sorted, keyed_view, records_view};
use crate::json::{
    records_json, records_to_json, report_json, report_to_json, ruleset_json, ruleset_to_json,
};
use crate::model::{KernelError, SCHEMA_VERSION};
use crate::reconcile::VarianceReport;
use crate::record::{
    NormalizedRecord, RecordModel, Ruleset, Selector, all_selectors, parse_selectors, parsed_as,
    reports_first_unknown,
};
use crate::text::{digest_hex, hash_string};

verus! {

/// Version of this engine, written into every manifest.
pub const KERNEL_VERSION: &'static str = "0.1.0";

/// The fixed statement every manifest carries.
pub const DETERMINISTIC_STATEMENT: &'static str = "Deterministic output is achieved by stable ordering, explicit rounding, and explicit timezone handling; the kernel surfaces discrepancies and does not modify input data.";

/// A file name with the hex SHA-256 of its canonical content.
#[derive(Debug, Clone, PartialEq, Eq)]
pub struct ManifestFileHash {
    pub file_name: String,
    pub sha256: String,
}

#[derive(Debug, Clone, PartialEq, Eq)]
pub struct ManifestInputs {
    pub left_records: ManifestFileHash,
    pub right_records: ManifestFileHash,
}

#[derive(Debug, Clone, PartialEq, Eq)]
pub struct ManifestOutputs {
    pub variance_report: ManifestFileHash,
    pub variance_summary_hash: String,
}

/// Digests of the inputs, ruleset and report of one reconciliation.
#[derive(Debug, Clone, PartialEq, Eq)]
pub struct EvidenceManifest {
    pub schema_version: String,
    pub kernel_version: String,
    pub inputs: ManifestInputs,
    pub ruleset: ManifestFileHash,
    pub outputs: ManifestOutputs,
    pub deterministic_statement: String,
}

/// The records in canonical order, match keys dropped.
pub open spec fn canonical_records(s: Seq<RecordModel>, ms: Seq<Selector>) -> Seq<RecordModel> {
    keyed_sorted(s, ms).map_values(|e: (Seq<char>, RecordModel)| e.1)
}

/// Canonicalizes and sorts records as reconciliation does, keeping only the
/// records.
pub fn canonicalize_for_hash(records: &[NormalizedRecord], ms: &[Selector]) -> (r: Vec<NormalizedRecord>)
    ensures
        records_view(r@) == canonical_records(records_view(records@), ms@),
{
    let ghost target = canonical_records(records_view(records@), ms@);
    let mut rest = canonicalize_and_sort(records, ms);
    let ghost ks = keyed_view(rest@);
    let n = rest.len();
    let mut out: Vec<NormalizedRecord> = Vec::new();
    let mut i: usize = 0;
    while i < n
        invariant
            i <= n,
            n == ks.len(),
            ks == keyed_sorted(records_view(records@), ms@),
            target == canonical_records(records_view(records@), ms@),
            rest@.len() == n - i,
            forall|m: int| 0 <= m < n - i ==> (#[trigger] rest@[m]).1@ == ks[m + i].1,
            out@.len() == i,
            forall|m: int| 0 <= m < i ==> (#[trigger] out@[m])@ == ks[m].1,
        decreases n - i,
    {
        let ghost old_rest = rest@;
        let (_, rec) = rest.remove(0);
        proof {
            assert(rest@ =~= old_rest.remove(0));
            assert forall|m: int| 0 <= m < n - i - 1 implies (#[trigger] rest@[m]).1@ == ks[m + i
                + 1].1 by {
                assert(rest@[m] == old_rest[m + 1]);
            }
        }
        out.push(rec);
        i = i + 1;
    }
    proof {
        assert(records_view(out@) =~= target);
    }
    out
}

/// Builds the evidence manifest of a report. The only error is an unknown
/// match key, the first one of the ruleset.
pub fn compute_manifest(
    records_left: &[NormalizedRecord],
    records_right: &[NormalizedRecord],
    ruleset: &Ruleset,
    report: &VarianceReport,
    left_file_name: &str,
    right_file_name: &str,
    ruleset_file_name: &str,
    report_file_name: &str,
) -> (r: Result<EvidenceManifest, KernelError>)
    ensures
        r is Ok <==> all_selectors(ruleset.match_keys@),
        r is Err ==> reports_first_unknown(ruleset.match_keys@, r->Err_0, true),
        r is Ok ==> exists|ms: Seq<Selector>|
            parsed_as(ms, ruleset.match_keys@) && (#[trigger] r->Ok_0.inputs).left_records.sha256@
                == digest_hex(records_json(canonical_records(records_view(records_left@), ms)))
                && r->Ok_0.inputs.right_records.sha256@ == digest_hex(
                records_json(canonical_records(records_view(records_right@), ms)),
            ),
        r is Ok ==> {
            let m = r->Ok_0;
            &&& m.schema_version@ == SCHEMA_VERSION@
            &&& m.kernel_version@ == KERNEL_VERSION@
            &&& m.inputs.left_records.file_name@ == left_file_name@
            &&& m.inputs.right_records.file_name@ == right_file_name@
            &&& m.ruleset.file_name@ == ruleset_file_name@
            &&& m.ruleset.sha256@ == digest_hex(ruleset_json(*ruleset))
            &&& m.outputs.variance_report.file_name@ == report_file_name@
            &&& m.outputs.variance_report.sha256@ == digest_hex(report_json(*report))
            &&& m.outputs.variance_summary_hash@ == report.summary_hash@
            &&& m.deterministic_statement@ == DETERMINISTIC_STATEMENT@
        },
{
    let ms = match parse_selectors(ruleset.match_keys.as_slice(), true) {
        Ok(v) => v,
        Err(e) => {
            return Err(e);
        },
    };
    let left_sorted = canonicalize_for_hash(records_left, ms.as_slice());
    let right_sorted = canonicalize_for_hash(records_right, ms.as_slice());
    let left_json = records_to_json(left_sorted.as_slice());
    let right_json = records_to_json(right_sorted.as_slice());
    let ruleset_json_text = ruleset_to_json(ruleset);
    let report_json_text = report_to_json(report);
    let inputs = ManifestInputs {
        left_records: ManifestFileHash {
            file_name: left_file_name.to_owned(),
            sha256: hash_string(left_json.as_str()),
        },
        right_records: ManifestFileHash {
            file_name: right_file_name.to_owned(),
            sha256: hash_string(right_json.as_str()),
        },
    };
    let ruleset_hash = ManifestFileHash {
        file_name: ruleset_file_name.to_owned(),
        sha256: hash_string(ruleset_json_text.as_str()),
    };
    let outputs = ManifestOutputs {
        variance_report: ManifestFileHash {
            file_name: report_file_name.to_owned(),
            sha256: hash_string(report_json_text.as_str()),
        },
        variance_summary_hash: report.summary_hash.clone(),
    };
    Ok(
        EvidenceManifest {
            schema_version: SCHEMA_VERSION.to_owned(),
            kernel_version: KERNEL_VERSION.to_owned(),
            inputs,
            ruleset: ruleset_hash,
            outputs,
            deterministic_statement: DETERMINISTIC_STATEMENT.to_owned(),
        },
    )
}

/// The canonical records hashed into a manifest depend on the match keys only
/// through their text, so two runs on one ruleset hash the same records.
pub proof fn lemma_canonical_records_deterministic(
    s: Seq<RecordModel>,
    ruleset: Ruleset,
    m1: Seq<Selector>,
    m2: Seq<Selector>,
)
    requires
        parsed_as(m1, ruleset.match_keys@),
        parsed_as(m2, ruleset.match_keys@),
    ensures
        canonical_records(s, m1) == canonical_records(s, m2),
{
    crate::reconcile::lemma_keyed_sorted_by_text(s, m1, m2);
}

} // verus!
