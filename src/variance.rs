use vstd::prelude::*;
use crate::model::RoundingRule;
use crate::record::{
    NormalizedRecord, RecordModel, Selector, field_value, lemma_selector_text_determines, read_field,
    selector_text,
};
use crate::rounding::{abs, fits_i64, round_amount, rounded, rounding_fits};
use crate::text::{decimal, decimal_string, digest_hex, hash_string, push_char, push_text, text_eq};

verus! {

pub const MISSING_RIGHT: &'static str = "missing_right";
pub const MISSING_LEFT: &'static str = "missing_left";
pub const FIELD_MISMATCH: &'static str = "field_mismatch";
pub const AMOUNT_MISMATCH: &'static str = "amount_mismatch";
pub const HIGH: &'static str = "high";
pub const MEDIUM: &'static str = "medium";
pub const LOW: &'static str = "low";
pub const MISSING_RIGHT_RATIONALE: &'static str = "No matching record on right side for deterministic match key.";
pub const MISSING_LEFT_RATIONALE: &'static str = "No matching record on left side for deterministic match key.";
pub const AMOUNT_RATIONALE: &'static str = "Amount delta exceeds tolerance after deterministic rounding.";
pub const FIELD_RATIONALE_START: &'static str = "Field '";
pub const FIELD_RATIONALE_END: &'static str = "' differs after canonicalization.";

/// One detected discrepancy.
#[derive(Debug, Clone, PartialEq, Eq)]
pub struct Variance {
    pub variance_id: String,
    pub variance_type: String,
    pub severity: String,
    pub left_record_id: Option<String>,
    pub right_record_id: Option<String>,
    pub amount_delta_minor_units: i64,
    pub rationale: String,
}

/// What a variance holds, as plain mathematical values.
pub struct VarianceModel {
    pub variance_id: Seq<char>,
    pub variance_type: Seq<char>,
    pub severity: Seq<char>,
    pub left_record_id: Option<Seq<char>>,
    pub right_record_id: Option<Seq<char>>,
    pub amount_delta_minor_units: i64,
    pub rationale: Seq<char>,
}

pub open spec fn opt_view(o: Option<String>) -> Option<Seq<char>> {
    match o {
        Some(s) => Some(s@),
        None => None,
    }
}

pub open spec fn or_empty(o: Option<Seq<char>>) -> Seq<char> {
    match o {
        Some(s) => s,
        None => Seq::empty(),
    }
}

impl View for Variance {
    type V = VarianceModel;

    open spec fn view(&self) -> VarianceModel {
        VarianceModel {
            variance_id: self.variance_id@,
            variance_type: self.variance_type@,
            severity: self.severity@,
            left_record_id: opt_view(self.left_record_id),
            right_record_id: opt_view(self.right_record_id),
            amount_delta_minor_units: self.amount_delta_minor_units,
            rationale: self.rationale@,
        }
    }
}

pub open spec fn variances_view(s: Seq<Variance>) -> Seq<VarianceModel> {
    s.map_values(|v: Variance| v@)
}

/// The text whose digest identifies a variance: type, left id, right id,
/// delta and rationale, joined by `|` (an absent id is empty).
pub open spec fn identity_text(
    t: Seq<char>,
    l: Option<Seq<char>>,
    r: Option<Seq<char>>,
    delta: i64,
    rationale: Seq<char>,
) -> Seq<char> {
    t + seq!['|'] + or_empty(l) + seq!['|'] + or_empty(r) + seq!['|'] + decimal(delta as int)
        + seq!['|'] + rationale
}

pub open spec fn make_variance(
    t: Seq<char>,
    severity: Seq<char>,
    l: Option<Seq<char>>,
    r: Option<Seq<char>>,
    delta: i64,
    rationale: Seq<char>,
) -> VarianceModel {
    VarianceModel {
        variance_id: digest_hex(identity_text(t, l, r, delta, rationale)),
        variance_type: t,
        severity,
        left_record_id: l,
        right_record_id: r,
        amount_delta_minor_units: delta,
        rationale,
    }
}

/// Builds a variance whose id is the hex SHA-256 of its identity text.
pub fn build_variance(
    variance_type: &str,
    severity: &str,
    left_record_id: Option<String>,
    right_record_id: Option<String>,
    amount_delta_minor_units: i64,
    rationale: &str,
) -> (v: Variance)
    ensures
        v@ == make_variance(
            variance_type@,
            severity@,
            opt_view(left_record_id),
            opt_view(right_record_id),
            amount_delta_minor_units,
            rationale@,
        ),
{
    let mut h = String::new();
    push_text(&mut h, variance_type);
    push_char(&mut h, '|');
    match &left_record_id {
        Some(s) => push_text(&mut h, s.as_str()),
        None => {},
    }
    push_char(&mut h, '|');
    match &right_record_id {
        Some(s) => push_text(&mut h, s.as_str()),
        None => {},
    }
    push_char(&mut h, '|');
    let d = decimal_string(amount_delta_minor_units);
    push_text(&mut h, d.as_str());
    push_char(&mut h, '|');
    push_text(&mut h, rationale);
    proof {
        assert(h@ =~= identity_text(
            variance_type@,
            opt_view(left_record_id),
            opt_view(right_record_id),
            amount_delta_minor_units,
            rationale@,
        ));
    }
    Variance {
        variance_id: hash_string(h.as_str()),
        variance_type: variance_type.to_owned(),
        severity: severity.to_owned(),
        left_record_id,
        right_record_id,
        amount_delta_minor_units,
        rationale: rationale.to_owned(),
    }
}

/// Whether every amount computed for the pair fits in an `i64`.
pub open spec fn pair_fits(l: i64, r: i64, rule: RoundingRule) -> bool {
    &&& fits_i64(l - r)
    &&& rounding_fits(l as int, rule)
    &&& rounding_fits(r as int, rule)
    &&& rule.increment_minor_units > 0 ==> fits_i64(
        rounded(l as int, rule.mode, rule.increment_minor_units as int) - rounded(
            r as int,
            rule.mode,
            rule.increment_minor_units as int,
        ),
    )
}

pub open spec fn field_rationale(sel: Selector) -> Seq<char> {
    FIELD_RATIONALE_START@ + selector_text(sel) + FIELD_RATIONALE_END@
}

/// The variances one compare key yields on a matched pair.
pub open spec fn compare_one(
    l: RecordModel,
    r: RecordModel,
    sel: Selector,
    rule: RoundingRule,
    tolerance: i64,
) -> Seq<VarianceModel> {
    match sel {
        Selector::AmountMinorUnits => {
            let inc = rule.increment_minor_units as int;
            let delta = rounded(l.amount_minor_units as int, rule.mode, inc) - rounded(
                r.amount_minor_units as int,
                rule.mode,
                inc,
            );
            if abs(delta) > tolerance {
                seq![
                    make_variance(
                        AMOUNT_MISMATCH@,
                        MEDIUM@,
                        Some(l.record_id),
                        Some(r.record_id),
                        delta as i64,
                        AMOUNT_RATIONALE@,
                    ),
                ]
            } else {
                Seq::empty()
            }
        },
        _ => if field_value(l, sel) != field_value(r, sel) {
            seq![
                make_variance(
                    FIELD_MISMATCH@,
                    LOW@,
                    Some(l.record_id),
                    Some(r.record_id),
                    (l.amount_minor_units - r.amount_minor_units) as i64,
                    field_rationale(sel),
                ),
            ]
        } else {
            Seq::empty()
        },
    }
}

/// The variances of a matched pair, in compare-key order.
pub open spec fn compare_spec(
    l: RecordModel,
    r: RecordModel,
    sels: Seq<Selector>,
    rule: RoundingRule,
    tolerance: i64,
) -> Seq<VarianceModel>
    decreases sels.len(),
{
    if sels.len() == 0 {
        Seq::empty()
    } else {
        compare_spec(l, r, sels.drop_last(), rule, tolerance) + compare_one(
            l,
            r,
            sels.last(),
            rule,
            tolerance,
        )
    }
}

/// The wire text of a selector.
pub fn selector_string(sel: &Selector) -> (r: String)
    ensures
        r@ == selector_text(*sel),
{
    match sel {
        Selector::RecordId => "record_id".to_owned(),
        Selector::Source => "source".to_owned(),
        Selector::Timestamp => "timestamp".to_owned(),
        Selector::AmountMinorUnits => "amount_minor_units".to_owned(),
        Selector::Currency => "currency".to_owned(),
        Selector::Attribute(name) => {
            let mut s = "attributes.".to_owned();
            push_text(&mut s, name.as_str());
            s
        },
    }
}

/// Compares one non-amount field; a difference yields a `field_mismatch`
/// carrying the unrounded amount delta.
pub fn compare_simple(
    key: &Selector,
    left_value: &str,
    right_value: &str,
    left: &NormalizedRecord,
    right: &NormalizedRecord,
    variances: &mut Vec<Variance>,
)
    requires
        fits_i64(left.amount_minor_units - right.amount_minor_units),
    ensures
        variances_view(final(variances)@) == variances_view(old(variances)@) + if left_value@
            == right_value@ {
            Seq::empty()
        } else {
            seq![
                make_variance(
                    FIELD_MISMATCH@,
                    LOW@,
                    Some(left.record_id@),
                    Some(right.record_id@),
                    (left.amount_minor_units - right.amount_minor_units) as i64,
                    field_rationale(*key),
                ),
            ]
        },
{
    let ghost before = variances_view(variances@);
    if !text_eq(left_value, right_value) {
        let name = selector_string(key);
        let mut rationale = FIELD_RATIONALE_START.to_owned();
        push_text(&mut rationale, name.as_str());
        push_text(&mut rationale, FIELD_RATIONALE_END);
        let v = build_variance(
            FIELD_MISMATCH,
            LOW,
            Some(left.record_id.clone()),
            Some(right.record_id.clone()),
            left.amount_minor_units - right.amount_minor_units,
            rationale.as_str(),
        );
        variances.push(v);
    }
    proof {
        assert(variances_view(variances@) =~= before + if left_value@ == right_value@ {
            Seq::empty()
        } else {
            seq![
                make_variance(
                    FIELD_MISMATCH@,
                    LOW@,
                    Some(left.record_id@),
                    Some(right.record_id@),
                    (left.amount_minor_units - right.amount_minor_units) as i64,
                    field_rationale(*key),
                ),
            ]
        });
    }
}

fn compare_key(
    left: &NormalizedRecord,
    right: &NormalizedRecord,
    sel: &Selector,
    rule: &RoundingRule,
    tolerance: i64,
    out: &mut Vec<Variance>,
)
    requires
        rule.increment_minor_units > 0,
        pair_fits(left.amount_minor_units, right.amount_minor_units, *rule),
    ensures
        variances_view(final(out)@) == variances_view(old(out)@) + compare_one(
            left@,
            right@,
            *sel,
            *rule,
            tolerance,
        ),
{
    let ghost before = variances_view(out@);
    match sel {
        Selector::AmountMinorUnits => {
            let la = match round_amount(left.amount_minor_units, rule) {
                Ok(v) => v,
                Err(_) => 0,
            };
            let ra = match round_amount(right.amount_minor_units, rule) {
                Ok(v) => v,
                Err(_) => 0,
            };
            let delta = la - ra;
            let d = delta as i128;
            let delta_abs: i128 = if d >= 0 { d } else { -d };
            if delta_abs > tolerance as i128 {
                let v = build_variance(
                    AMOUNT_MISMATCH,
                    MEDIUM,
                    Some(left.record_id.clone()),
                    Some(right.record_id.clone()),
                    delta,
                    AMOUNT_RATIONALE,
                );
                out.push(v);
            }
        },
        _ => {
            let lv = read_field(left, sel);
            let rv = read_field(right, sel);
            compare_simple(sel, lv.as_str(), rv.as_str(), left, right, out);
        },
    }
    proof {
        assert(variances_view(out@) =~= before + compare_one(left@, right@, *sel, *rule, tolerance));
    }
}

/// Compares a matched pair under every compare key, in declared order.
pub fn compare_records(
    left: &NormalizedRecord,
    right: &NormalizedRecord,
    sels: &[Selector],
    rule: &RoundingRule,
    tolerance: i64,
) -> (r: Vec<Variance>)
    requires
        rule.increment_minor_units > 0,
        pair_fits(left.amount_minor_units, right.amount_minor_units, *rule),
    ensures
        variances_view(r@) == compare_spec(left@, right@, sels@, *rule, tolerance),
{
    let mut out: Vec<Variance> = Vec::new();
    let mut i: usize = 0;
    proof {
        assert(variances_view(out@) =~= compare_spec(left@, right@, sels@.take(0), *rule, tolerance));
    }
    while i < sels.len()
        invariant
            i <= sels@.len(),
            rule.increment_minor_units > 0,
            pair_fits(left.amount_minor_units, right.amount_minor_units, *rule),
            variances_view(out@) == compare_spec(left@, right@, sels@.take(i as int), *rule, tolerance),
        decreases sels@.len() - i,
    {
        compare_key(left, right, &sels[i], rule, tolerance, &mut out);
        proof {
            assert(sels@.take(i + 1).drop_last() =~= sels@.take(i as int));
        }
        i = i + 1;
    }
    proof {
        assert(sels@.take(i as int) =~= sels@);
    }
    out
}

/// Compare selectors spelled alike give the same variances.
pub proof fn lemma_compare_by_text(
    l: RecordModel,
    r: RecordModel,
    s1: Seq<Selector>,
    s2: Seq<Selector>,
    rule: RoundingRule,
    tolerance: i64,
)
    requires
        s1.len() == s2.len(),
        forall|j: int| 0 <= j < s1.len() ==> selector_text(#[trigger] s1[j]) == selector_text(s2[j]),
    ensures
        compare_spec(l, r, s1, rule, tolerance) == compare_spec(l, r, s2, rule, tolerance),
    decreases s1.len(),
{
    if s1.len() > 0 {
        lemma_compare_by_text(l, r, s1.drop_last(), s2.drop_last(), rule, tolerance);
        lemma_selector_text_determines(s1.last(), s2.last(), l);
        lemma_selector_text_determines(s1.last(), s2.last(), r);
    }
}

/// Variances that agree on type, left id, right id, delta and rationale share
/// their id, whatever else differs.
pub proof fn lemma_same_identity_same_id(
    t: Seq<char>,
    s1: Seq<char>,
    s2: Seq<char>,
    l: Option<Seq<char>>,
    r: Option<Seq<char>>,
    delta: i64,
    rationale: Seq<char>,
)
    ensures
        make_variance(t, s1, l, r, delta, rationale).variance_id == make_variance(
            t,
            s2,
            l,
            r,
            delta,
            rationale,
        ).variance_id,
{
}

/// A matched pair only ever yields `field_mismatch` or `amount_mismatch`
/// variances, each naming both records.
pub proof fn lemma_compare_names_both(
    l: RecordModel,
    r: RecordModel,
    sels: Seq<Selector>,
    rule: RoundingRule,
    tolerance: i64,
    k: int,
)
    requires
        0 <= k < compare_spec(l, r, sels, rule, tolerance).len(),
    ensures
        ({
            let v = compare_spec(l, r, sels, rule, tolerance)[k];
            &&& v.variance_type == FIELD_MISMATCH@ || v.variance_type == AMOUNT_MISMATCH@
            &&& v.left_record_id == Some(l.record_id)
            &&& v.right_record_id == Some(r.record_id)
        }),
    decreases sels.len(),
{
    let prev = compare_spec(l, r, sels.drop_last(), rule, tolerance);
    if k < prev.len() {
        lemma_compare_names_both(l, r, sels.drop_last(), rule, tolerance, k);
    }
}

} // verus!
