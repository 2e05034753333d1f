pub mod model;
pub mod rounding;
pub mod text;
pub mod attributes;
pub mod record;
pub mod canonical;
pub mod variance;
pub mod json;
pub mod reconcile;
pub mod manifest;
pub mod verify;

pub use attributes::AttributeMap;
pub use canonical::{canonicalize_and_sort, canonicalize_record};
pub use manifest::{
    canonicalize_for_hash, compute_manifest, EvidenceManifest, ManifestFileHash, ManifestInputs,
    ManifestOutputs, KERNEL_VERSION,
};
pub use model::{KernelError, RoundingMode, RoundingRule, SCHEMA_VERSION};
pub use reconcile::{compute_variances, reconcile, VarianceReport};
pub use record::{build_match_key, parse_selector, parse_selectors, NormalizedRecord, Ruleset, Selector};
pub use rounding::round_amount;
pub use text::{hash_string, hex_string};
pub use variance::{build_variance, compare_records, compare_simple, Variance};
pub use verify::{verify_manifest_files, VerificationResult};
