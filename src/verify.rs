use vstd::prelude::*;
use crate::manifest::{EvidenceManifest, ManifestFileHash};
use crate::text::{hex_of, hex_string, push_text, sha256, sha256_of, text_eq};

verus! {

/// Outcome of checking a manifest against the files it names.
#[derive(Debug, Clone, PartialEq, Eq)]
pub struct VerificationResult {
    pub ok: bool,
    pub errors: Vec<String>,
}

/// What `str::trim` leaves of a string.
pub uninterp spec fn trimmed(s: Seq<char>) -> Seq<char>;

/// Relies on `str::trim`: the string without leading and trailing whitespace.
#[verifier::external_body]
fn trim(s: &str) -> (r: &str)
    ensures
        r@ == trimmed(s@),
{
    s.trim()
}

pub open spec fn files_view(files: Seq<(String, Vec<u8>)>) -> Seq<(Seq<char>, Seq<u8>)> {
    files.map_values(|f: (String, Vec<u8>)| (f.0@, f.1@))
}

/// The bytes of the first file called `name`, if any.
pub open spec fn find_file(files: Seq<(Seq<char>, Seq<u8>)>, name: Seq<char>) -> Option<Seq<u8>>
    decreases files.len(),
{
    if files.len() == 0 {
        None
    } else if files[0].0 == name {
        Some(files[0].1)
    } else {
        find_file(files.drop_first(), name)
    }
}

pub open spec fn missing_message(name: Seq<char>) -> Seq<char> {
    "missing file: "@ + name
}

pub open spec fn mismatch_message(name: Seq<char>, expected: Seq<char>, got: Seq<char>) -> Seq<char> {
    "hash mismatch for "@ + name + ": expected "@ + expected + ", got "@ + got
}

pub const STATEMENT_MESSAGE: &'static str = "deterministic_statement must be present";

/// The findings for one file entry of a manifest.
pub open spec fn file_errors(fh: ManifestFileHash, files: Seq<(Seq<char>, Seq<u8>)>) -> Seq<Seq<char>> {
    match find_file(files, fh.file_name@) {
        None => seq![missing_message(fh.file_name@)],
        Some(b) => if hex_of(sha256_of(b)) == fh.sha256@ {
            Seq::empty()
        } else {
            seq![mismatch_message(fh.file_name@, fh.sha256@, hex_of(sha256_of(b)))]
        },
    }
}

pub open spec fn statement_errors(m: EvidenceManifest) -> Seq<Seq<char>> {
    if trimmed(m.deterministic_statement@).len() == 0 {
        seq![STATEMENT_MESSAGE@]
    } else {
        Seq::empty()
    }
}

/// Every finding on a manifest: the statement, then the left records, the
/// right records, the ruleset and the report.
pub open spec fn manifest_errors(m: EvidenceManifest, files: Seq<(Seq<char>, Seq<u8>)>) -> Seq<Seq<char>> {
    statement_errors(m) + file_errors(m.inputs.left_records, files) + file_errors(
        m.inputs.right_records,
        files,
    ) + file_errors(m.ruleset, files) + file_errors(m.outputs.variance_report, files)
}

pub open spec fn strings_view(s: Seq<String>) -> Seq<Seq<char>> {
    s.map_values(|e: String| e@)
}

fn find_file_index(files: &[(String, Vec<u8>)], name: &str) -> (r: Option<usize>)
    ensures
        match find_file(files_view(files@), name@) {
            None => r is None,
            Some(b) => r is Some && r->0 < files@.len() && files@[r->0 as int].1@ == b,
        },
{
    let ghost fv = files_view(files@);
    let mut i: usize = 0;
    proof {
        assert(fv.skip(0) =~= fv);
    }
    while i < files.len()
        invariant
            fv == files_view(files@),
            i <= files@.len(),
            find_file(fv, name@) == find_file(fv.skip(i as int), name@),
        decreases files@.len() - i,
    {
        proof {
            assert(fv.skip(i as int)[0] == fv[i as int]);
        }
        if text_eq(files[i].0.as_str(), name) {
            return Some(i);
        }
        proof {
            assert(fv.skip(i as int).drop_first() =~= fv.skip(i + 1));
        }
        i = i + 1;
    }
    None
}

fn check_file(fh: &ManifestFileHash, files: &[(String, Vec<u8>)], errors: &mut Vec<String>)
    ensures
        strings_view(final(errors)@) == strings_view(old(errors)@) + file_errors(
            *fh,
            files_view(files@),
        ),
{
    let ghost before = strings_view(errors@);
    match find_file_index(files, fh.file_name.as_str()) {
        None => {
            let mut msg = "missing file: ".to_owned();
            push_text(&mut msg, fh.file_name.as_str());
            errors.push(msg);
        },
        Some(i) => {
            let digest = sha256(files[i].1.as_slice());
            let got = hex_string(digest.as_slice());
            if !text_eq(got.as_str(), fh.sha256.as_str()) {
                let mut msg = "hash mismatch for ".to_owned();
                push_text(&mut msg, fh.file_name.as_str());
                push_text(&mut msg, ": expected ");
                push_text(&mut msg, fh.sha256.as_str());
                push_text(&mut msg, ", got ");
                push_text(&mut msg, got.as_str());
                errors.push(msg);
            }
        },
    }
    proof {
        assert(strings_view(errors@) =~= before + file_errors(*fh, files_view(files@)));
    }
}

/// Checks a manifest against named file contents, gathering every finding
/// rather than stopping at the first; `ok` exactly when there is none.
pub fn verify_manifest_files(manifest: &EvidenceManifest, files: &[(String, Vec<u8>)]) -> (r: VerificationResult)
    ensures
        strings_view(r.errors@) == manifest_errors(*manifest, files_view(files@)),
        r.ok == (r.errors@.len() == 0),
{
    let mut errors: Vec<String> = Vec::new();
    if trim(manifest.deterministic_statement.as_str()).is_empty() {
        errors.push(STATEMENT_MESSAGE.to_owned());
    }
    proof {
        assert(strings_view(errors@) =~= statement_errors(*manifest));
    }
    check_file(&manifest.inputs.left_records, files, &mut errors);
    check_file(&manifest.inputs.right_records, files, &mut errors);
    check_file(&manifest.ruleset, files, &mut errors);
    check_file(&manifest.outputs.variance_report, files, &mut errors);
    let ok = errors.len() == 0;
    VerificationResult { ok, errors }
}

/// Whether the file named by `fh` is present and digests to what `fh` records.
pub open spec fn file_intact(fh: ManifestFileHash, files: Seq<(Seq<char>, Seq<u8>)>) -> bool {
    match find_file(files, fh.file_name@) {
        None => false,
        Some(b) => hex_of(sha256_of(b)) == fh.sha256@,
    }
}

/// The `k`-th file entry of a manifest: left records, right records, ruleset, report.
pub open spec fn manifest_entry(m: EvidenceManifest, k: int) -> ManifestFileHash {
    if k == 0 {
        m.inputs.left_records
    } else if k == 1 {
        m.inputs.right_records
    } else if k == 2 {
        m.ruleset
    } else {
        m.outputs.variance_report
    }
}

/// Checking a manifest against files that all digest to what it records, with
/// a statement that is not blank, finds nothing.
pub proof fn lemma_untouched_files_pass(m: EvidenceManifest, files: Seq<(Seq<char>, Seq<u8>)>)
    requires
        trimmed(m.deterministic_statement@).len() > 0,
        forall|k: int| 0 <= k < 4 ==> file_intact(#[trigger] manifest_entry(m, k), files),
    ensures
        manifest_errors(m, files).len() == 0,
{
    assert(file_intact(manifest_entry(m, 0), files));
    assert(file_intact(manifest_entry(m, 1), files));
    assert(file_intact(manifest_entry(m, 2), files));
    assert(file_intact(manifest_entry(m, 3), files));
}

/// Where exactly one file is present but no longer digests to what the
/// manifest records, the findings are one hash mismatch, for that file.
pub proof fn lemma_changed_file_reported(m: EvidenceManifest, files: Seq<(Seq<char>, Seq<u8>)>, k: int, b: Seq<u8>)
    requires
        0 <= k < 4,
        trimmed(m.deterministic_statement@).len() > 0,
        forall|j: int| 0 <= j < 4 && j != k ==> file_intact(#[trigger] manifest_entry(m, j), files),
        find_file(files, manifest_entry(m, k).file_name@) == Some(b),
        hex_of(sha256_of(b)) != manifest_entry(m, k).sha256@,
    ensures
        manifest_errors(m, files) == seq![
            mismatch_message(
                manifest_entry(m, k).file_name@,
                manifest_entry(m, k).sha256@,
                hex_of(sha256_of(b)),
            ),
        ],
{
    assert(k == 0 || file_intact(manifest_entry(m, 0), files));
    assert(k == 1 || file_intact(manifest_entry(m, 1), files));
    assert(k == 2 || file_intact(manifest_entry(m, 2), files));
    assert(k == 3 || file_intact(manifest_entry(m, 3), files));
    assert(manifest_errors(m, files) =~= seq![
        mismatch_message(
            manifest_entry(m, k).file_name@,
            manifest_entry(m, k).sha256@,
            hex_of(sha256_of(b)),
        ),
    ]);
}

} // verus!
