use vstd::prelude::*;
use crate::canonical::{
    keyed_lt, lemma_map_multiset, lemma_sort_by_multiset, lemma_sort_by_sorted, lemma_sorted_unique,
    total_on,
    canonicalize_and_sort, insert_by, keyed, keyed_sorted, keyed_view, lemma_insert_by_at,
    lemma_sort_by_from, records_view, sort_by,
};
use crate::json::{variances_json, variances_to_json};
use crate::model::{KernelError, RoundingRule, SCHEMA_VERSION};
use crate::record::{
    lemma_match_key_by_text, match_key,
    NormalizedRecord, RecordModel, Ruleset, Selector, all_selectors, parse_selectors, parsed_as,
    reports_first_unknown,
};
use crate::text::{digest_hex, hash_string, text_less, text_lt};
use crate::variance::{
    Variance, VarianceModel, build_variance, compare_records, compare_spec, make_variance,
    pair_fits, variances_view, lemma_compare_by_text, lemma_compare_names_both, AMOUNT_MISMATCH,
    FIELD_MISMATCH, HIGH, MISSING_LEFT, MISSING_LEFT_RATIONALE, MISSING_RIGHT,
    MISSING_RIGHT_RATIONALE,
};

verus! {

/// The variance for a left record that found no right partner.
pub open spec fn missing_right(l: RecordModel) -> VarianceModel {
    make_variance(MISSING_RIGHT@, HIGH@, Some(l.record_id), None, 0, MISSING_RIGHT_RATIONALE@)
}

/// The variance for a right record that found no left partner.
pub open spec fn missing_left(r: RecordModel) -> VarianceModel {
    make_variance(MISSING_LEFT@, HIGH@, None, Some(r.record_id), 0, MISSING_LEFT_RATIONALE@)
}

/// Greedy join of two sides sorted by (key, record id): within one key the
/// k-th left record pairs with the k-th right record and the pair is
/// compared; whatever is left over on either side is reported missing.
pub open spec fn join(
    l: Seq<(Seq<char>, RecordModel)>,
    r: Seq<(Seq<char>, RecordModel)>,
    cs: Seq<Selector>,
    rule: RoundingRule,
    tolerance: i64,
) -> Seq<VarianceModel>
    decreases l.len() + r.len(),
{
    if l.len() == 0 && r.len() == 0 {
        Seq::empty()
    } else if l.len() == 0 || (r.len() > 0 && text_lt(r[0].0, l[0].0)) {
        seq![missing_left(r[0].1)] + join(l, r.drop_first(), cs, rule, tolerance)
    } else if r.len() == 0 || text_lt(l[0].0, r[0].0) {
        seq![missing_right(l[0].1)] + join(l.drop_first(), r, cs, rule, tolerance)
    } else {
        compare_spec(l[0].1, r[0].1, cs, rule, tolerance) + join(
            l.drop_first(),
            r.drop_first(),
            cs,
            rule,
            tolerance,
        )
    }
}

/// Report order: ascending variance id.
pub open spec fn variance_lt(a: VarianceModel, b: VarianceModel) -> bool {
    text_lt(a.variance_id, b.variance_id)
}

/// The variances of a reconciliation, in report order.
pub open spec fn report_variances(
    left: Seq<RecordModel>,
    right: Seq<RecordModel>,
    ms: Seq<Selector>,
    cs: Seq<Selector>,
    rule: RoundingRule,
    tolerance: i64,
) -> Seq<VarianceModel> {
    sort_by(
        join(keyed_sorted(left, ms), keyed_sorted(right, ms), cs, rule, tolerance),
        |a, b| variance_lt(a, b),
    )
}

/// Every amount computed for any left/right pair fits in an `i64`.
pub open spec fn amounts_fit(left: Seq<RecordModel>, right: Seq<RecordModel>, rule: RoundingRule) -> bool {
    forall|a: int, b: int|
        0 <= a < left.len() && 0 <= b < right.len() ==> pair_fits(
            #[trigger] left[a].amount_minor_units,
            #[trigger] right[b].amount_minor_units,
            rule,
        )
}

/// The outcome of one reconciliation.
#[derive(Debug, Clone, PartialEq, Eq)]
pub struct VarianceReport {
    pub schema_version: String,
    pub variances: Vec<Variance>,
    pub summary_hash: String,
}

/// Sorts variances by id, keeping the order of equal ids.
pub fn sort_variances(vs: Vec<Variance>) -> (r: Vec<Variance>)
    ensures
        variances_view(r@) == sort_by(variances_view(vs@), |a, b| variance_lt(a, b)),
{
    let ghost lt = |a: VarianceModel, b: VarianceModel| variance_lt(a, b);
    let ghost input = variances_view(vs@);
    let n = vs.len();
    let mut rest = vs;
    let mut out: Vec<Variance> = Vec::new();
    let mut i: usize = 0;
    proof {
        assert(variances_view(out@) =~= sort_by(input.take(0), lt));
        assert(variances_view(rest@) =~= input.skip(0));
    }
    while i < n
        invariant
            i <= n,
            n == input.len(),
            variances_view(rest@) == input.skip(i as int),
            rest@.len() == n - i,
            lt == (|a: VarianceModel, b: VarianceModel| variance_lt(a, b)),
            variances_view(out@) == sort_by(input.take(i as int), lt),
        decreases n - i,
    {
        let ghost old_rest = rest@;
        let item = rest.remove(0);
        let ghost s = variances_view(out@);
        let ghost x = item@;
        proof {
            assert(variances_view(old_rest)[0] == old_rest[0]@);
            assert(x == input.skip(i as int)[0]);
            assert(input.take(i + 1).drop_last() =~= input.take(i as int));
            assert(rest@ =~= old_rest.remove(0));
            assert forall|m: int| 0 <= m < rest@.len() implies variances_view(rest@)[m] == input.skip(
                i + 1,
            )[m] by {
                assert(rest@[m] == old_rest[m + 1]);
                assert(variances_view(old_rest)[m + 1] == input.skip(i as int)[m + 1]);
            }
            assert(variances_view(rest@) =~= input.skip(i + 1));
        }
        let mut j: usize = out.len();
        while j > 0 && text_less(item.variance_id.as_str(), out[j - 1].variance_id.as_str())
            invariant
                j <= out@.len(),
                s == variances_view(out@),
                x == item@,
                lt == (|a: VarianceModel, b: VarianceModel| variance_lt(a, b)),
                forall|m: int| j <= m < s.len() ==> lt(x, #[trigger] s[m]),
            decreases j,
        {
            j = j - 1;
        }
        proof {
            lemma_insert_by_at(s, x, lt, j as int);
        }
        out.insert(j, item);
        proof {
            assert(variances_view(out@) =~= s.insert(j as int, x));
        }
        i = i + 1;
    }
    proof {
        assert(input.take(i as int) =~= input);
    }
    out
}

proof fn lemma_sorted_amounts_fit(
    left: Seq<RecordModel>,
    right: Seq<RecordModel>,
    ms: Seq<Selector>,
    rule: RoundingRule,
)
    requires
        amounts_fit(left, right, rule),
    ensures
        forall|a: int, b: int|
            0 <= a < keyed_sorted(left, ms).len() && 0 <= b < keyed_sorted(right, ms).len()
                ==> pair_fits(
                #[trigger] keyed_sorted(left, ms)[a].1.amount_minor_units,
                #[trigger] keyed_sorted(right, ms)[b].1.amount_minor_units,
                rule,
            ),
{
    let lt = |a: (Seq<char>, RecordModel), b: (Seq<char>, RecordModel)|
        crate::canonical::keyed_lt(a, b);
    assert forall|a: int, b: int|
        0 <= a < keyed_sorted(left, ms).len() && 0 <= b < keyed_sorted(right, ms).len()
            implies pair_fits(
            #[trigger] keyed_sorted(left, ms)[a].1.amount_minor_units,
            #[trigger] keyed_sorted(right, ms)[b].1.amount_minor_units,
            rule,
        ) by {
        lemma_sort_by_from(keyed(left, ms), lt, a);
        lemma_sort_by_from(keyed(right, ms), lt, b);
        let x = keyed_sorted(left, ms)[a];
        let y = keyed_sorted(right, ms)[b];
        let p = choose|p: int| 0 <= p < keyed(left, ms).len() && keyed(left, ms)[p] == x;
        let q = choose|q: int| 0 <= q < keyed(right, ms).len() && keyed(right, ms)[q] == y;
        assert(pair_fits(left[p].amount_minor_units, right[q].amount_minor_units, rule));
    }
}

/// Reconciles two sides under parsed match selectors `ms` and compare
/// selectors `cs`, and assembles the report.
pub fn reconcile(
    left: &[NormalizedRecord],
    right: &[NormalizedRecord],
    ms: &[Selector],
    cs: &[Selector],
    rule: &RoundingRule,
    tolerance: i64,
) -> (r: VarianceReport)
    requires
        rule.increment_minor_units > 0,
        amounts_fit(records_view(left@), records_view(right@), *rule),
    ensures
        r.schema_version@ == SCHEMA_VERSION@,
        variances_view(r.variances@) == report_variances(
            records_view(left@),
            records_view(right@),
            ms@,
            cs@,
            *rule,
            tolerance,
        ),
        r.summary_hash@ == digest_hex(variances_json(variances_view(r.variances@))),
{
    let ls = canonicalize_and_sort(left, ms);
    let rs = canonicalize_and_sort(right, ms);
    let ghost lv = keyed_view(ls@);
    let ghost rv = keyed_view(rs@);
    proof {
        lemma_sorted_amounts_fit(records_view(left@), records_view(right@), ms@, *rule);
        assert(lv.skip(0) =~= lv);
        assert(rv.skip(0) =~= rv);
    }
    let mut out: Vec<Variance> = Vec::new();
    let mut i: usize = 0;
    let mut j: usize = 0;
    while i < ls.len() || j < rs.len()
        invariant
            lv == keyed_view(ls@),
            rv == keyed_view(rs@),
            lv == keyed_sorted(records_view(left@), ms@),
            rv == keyed_sorted(records_view(right@), ms@),
            i <= lv.len(),
            j <= rv.len(),
            rule.increment_minor_units > 0,
            forall|a: int, b: int|
                0 <= a < lv.len() && 0 <= b < rv.len() ==> pair_fits(
                    #[trigger] lv[a].1.amount_minor_units,
                    #[trigger] rv[b].1.amount_minor_units,
                    *rule,
                ),
            variances_view(out@) + join(lv.skip(i as int), rv.skip(j as int), cs@, *rule, tolerance)
                == join(lv, rv, cs@, *rule, tolerance),
        decreases lv.len() - i + rv.len() - j,
    {
        let ghost before = variances_view(out@);
        let ghost a = lv.skip(i as int);
        let ghost b = rv.skip(j as int);
        proof {
            if i < lv.len() {
                assert(a[0] == lv[i as int]);
                assert(a.drop_first() =~= lv.skip(i + 1));
            }
            if j < rv.len() {
                assert(b[0] == rv[j as int]);
                assert(b.drop_first() =~= rv.skip(j + 1));
            }
        }
        if i == ls.len() || (j < rs.len() && text_less(rs[j].0.as_str(), ls[i].0.as_str())) {
            let v = build_variance(
                MISSING_LEFT,
                HIGH,
                None,
                Some(rs[j].1.record_id.clone()),
                0,
                MISSING_LEFT_RATIONALE,
            );
            out.push(v);
            proof {
                assert(variances_view(out@) =~= before + seq![missing_left(b[0].1)]);
            }
            j = j + 1;
        } else if j == rs.len() || text_less(ls[i].0.as_str(), rs[j].0.as_str()) {
            let v = build_variance(
                MISSING_RIGHT,
                HIGH,
                Some(ls[i].1.record_id.clone()),
                None,
                0,
                MISSING_RIGHT_RATIONALE,
            );
            out.push(v);
            proof {
                assert(variances_view(out@) =~= before + seq![missing_right(a[0].1)]);
            }
            i = i + 1;
        } else {
            let mut vs = compare_records(&ls[i].1, &rs[j].1, cs, rule, tolerance);
            let ghost added = variances_view(vs@);
            out.append(&mut vs);
            proof {
                assert(variances_view(out@) =~= before + added);
            }
            i = i + 1;
            j = j + 1;
        }
    }
    proof {
        assert(lv.skip(i as int) =~= Seq::<(Seq<char>, RecordModel)>::empty());
        assert(rv.skip(j as int) =~= Seq::<(Seq<char>, RecordModel)>::empty());
        assert(variances_view(out@) =~= join(lv, rv, cs@, *rule, tolerance));
    }
    let sorted = sort_variances(out);
    let json = variances_to_json(sorted.as_slice());
    let summary_hash = hash_string(json.as_str());
    VarianceReport { schema_version: SCHEMA_VERSION.to_owned(), variances: sorted, summary_hash }
}

/// Whether a ruleset can be applied: a positive rounding increment, and
/// every match key and compare key names a field.
pub open spec fn ruleset_valid(rs: Ruleset) -> bool {
    rs.rounding.increment_minor_units > 0 && all_selectors(rs.match_keys@) && all_selectors(
        rs.compare_keys@,
    )
}

/// Reconciles two sides under `ruleset`. A configuration error aborts the
/// whole computation: first a non-positive increment, then the first unknown
/// match key, then the first unknown compare key.
pub fn compute_variances(
    records_left: &[NormalizedRecord],
    records_right: &[NormalizedRecord],
    ruleset: &Ruleset,
) -> (r: Result<VarianceReport, KernelError>)
    requires
        amounts_fit(records_view(records_left@), records_view(records_right@), ruleset.rounding),
    ensures
        r is Ok <==> ruleset_valid(*ruleset),
        ruleset.rounding.increment_minor_units <= 0 ==> r == Err::<VarianceReport, KernelError>(
            KernelError::InvalidRoundingIncrement,
        ),
        ruleset.rounding.increment_minor_units > 0 && !all_selectors(ruleset.match_keys@)
            ==> reports_first_unknown(ruleset.match_keys@, r->Err_0, true),
        ruleset.rounding.increment_minor_units > 0 && all_selectors(ruleset.match_keys@)
            && !all_selectors(ruleset.compare_keys@) ==> reports_first_unknown(
            ruleset.compare_keys@,
            r->Err_0,
            false,
        ),
        r is Ok ==> exists|ms: Seq<Selector>, cs: Seq<Selector>|
            parsed_as(ms, ruleset.match_keys@) && parsed_as(cs, ruleset.compare_keys@)
                && variances_view(#[trigger] r->Ok_0.variances@) == report_variances(
                records_view(records_left@),
                records_view(records_right@),
                ms,
                cs,
                ruleset.rounding,
                ruleset.tolerance_minor_units,
            ),
        r is Ok ==> r->Ok_0.schema_version@ == SCHEMA_VERSION@,
        r is Ok ==> r->Ok_0.summary_hash@ == digest_hex(
            variances_json(variances_view(r->Ok_0.variances@)),
        ),
{
    if ruleset.rounding.increment_minor_units <= 0 {
        return Err(KernelError::InvalidRoundingIncrement);
    }
    let ms = match parse_selectors(ruleset.match_keys.as_slice(), true) {
        Ok(v) => v,
        Err(e) => {
            return Err(e);
        },
    };
    let cs = match parse_selectors(ruleset.compare_keys.as_slice(), false) {
        Ok(v) => v,
        Err(e) => {
            return Err(e);
        },
    };
    let report = reconcile(
        records_left,
        records_right,
        ms.as_slice(),
        cs.as_slice(),
        &ruleset.rounding,
        ruleset.tolerance_minor_units,
    );
    Ok(report)
}

proof fn lemma_join_by_text(
    l: Seq<(Seq<char>, RecordModel)>,
    r: Seq<(Seq<char>, RecordModel)>,
    c1: Seq<Selector>,
    c2: Seq<Selector>,
    rule: RoundingRule,
    tolerance: i64,
)
    requires
        c1.len() == c2.len(),
        forall|j: int| 0 <= j < c1.len() ==> crate::record::selector_text(#[trigger] c1[j])
            == crate::record::selector_text(c2[j]),
    ensures
        join(l, r, c1, rule, tolerance) == join(l, r, c2, rule, tolerance),
    decreases l.len() + r.len(),
{
    if l.len() == 0 && r.len() == 0 {
    } else if l.len() == 0 || (r.len() > 0 && text_lt(r[0].0, l[0].0)) {
        lemma_join_by_text(l, r.drop_first(), c1, c2, rule, tolerance);
    } else if r.len() == 0 || text_lt(l[0].0, r[0].0) {
        lemma_join_by_text(l.drop_first(), r, c1, c2, rule, tolerance);
    } else {
        lemma_join_by_text(l.drop_first(), r.drop_first(), c1, c2, rule, tolerance);
        lemma_compare_by_text(l[0].1, r[0].1, c1, c2, rule, tolerance);
    }
}

/// Canonical ordering depends on the match keys only through their text.
pub proof fn lemma_keyed_sorted_by_text(s: Seq<RecordModel>, m1: Seq<Selector>, m2: Seq<Selector>)
    requires
        m1.len() == m2.len(),
        forall|j: int| 0 <= j < m1.len() ==> crate::record::selector_text(#[trigger] m1[j])
            == crate::record::selector_text(m2[j]),
    ensures
        keyed_sorted(s, m1) == keyed_sorted(s, m2),
{
    assert forall|k: int| 0 <= k < s.len() implies #[trigger] keyed(s, m1)[k] == keyed(s, m2)[k] by {
        lemma_match_key_by_text(s[k], m1, m2);
    }
    assert(keyed(s, m1) =~= keyed(s, m2));
}

/// Determinism: whatever selectors two runs parse from one ruleset, the
/// variances of the report agree, so do the summary hashes computed over them.
pub proof fn lemma_report_deterministic(
    left: Seq<RecordModel>,
    right: Seq<RecordModel>,
    ruleset: Ruleset,
    m1: Seq<Selector>,
    c1: Seq<Selector>,
    m2: Seq<Selector>,
    c2: Seq<Selector>,
)
    requires
        parsed_as(m1, ruleset.match_keys@),
        parsed_as(m2, ruleset.match_keys@),
        parsed_as(c1, ruleset.compare_keys@),
        parsed_as(c2, ruleset.compare_keys@),
    ensures
        report_variances(left, right, m1, c1, ruleset.rounding, ruleset.tolerance_minor_units)
            == report_variances(left, right, m2, c2, ruleset.rounding, ruleset.tolerance_minor_units),
        digest_hex(variances_json(report_variances(left, right, m1, c1, ruleset.rounding, ruleset.tolerance_minor_units)))
            == digest_hex(variances_json(report_variances(left, right, m2, c2, ruleset.rounding, ruleset.tolerance_minor_units))),
{
    lemma_keyed_sorted_by_text(left, m1, m2);
    lemma_keyed_sorted_by_text(right, m1, m2);
    lemma_join_by_text(
        keyed_sorted(left, m1),
        keyed_sorted(right, m1),
        c1,
        c2,
        ruleset.rounding,
        ruleset.tolerance_minor_units,
    );
}

/// Whether some entry of `s` has match key `key`.
pub open spec fn has_key(s: Seq<(Seq<char>, RecordModel)>, key: Seq<char>) -> bool {
    exists|m: int| 0 <= m < s.len() && (#[trigger] s[m]).0 == key
}

/// Every `missing_right` variance names one left record of `l` and no right
/// record; every `missing_left` variance names one right record of `r` and no
/// left record.
pub proof fn lemma_missing_name_one_side(
    l: Seq<(Seq<char>, RecordModel)>,
    r: Seq<(Seq<char>, RecordModel)>,
    cs: Seq<Selector>,
    rule: RoundingRule,
    tolerance: i64,
    k: int,
)
    requires
        0 <= k < join(l, r, cs, rule, tolerance).len(),
    ensures
        ({
            let v = join(l, r, cs, rule, tolerance)[k];
            &&& v.variance_type == MISSING_RIGHT@ ==> v.right_record_id is None && exists|m: int|
                0 <= m < l.len() && v.left_record_id == Some((#[trigger] l[m]).1.record_id)
            &&& v.variance_type == MISSING_LEFT@ ==> v.left_record_id is None && exists|m: int|
                0 <= m < r.len() && v.right_record_id == Some((#[trigger] r[m]).1.record_id)
        }),
    decreases l.len() + r.len(),
{
    reveal_strlit("missing_right");
    reveal_strlit("missing_left");
    reveal_strlit("field_mismatch");
    reveal_strlit("amount_mismatch");
    assert(MISSING_RIGHT@[0] == 'm' && MISSING_LEFT@[0] == 'm');
    assert(FIELD_MISMATCH@[0] == 'f' && AMOUNT_MISMATCH@[0] == 'a');
    let v = join(l, r, cs, rule, tolerance)[k];
    if l.len() == 0 && r.len() == 0 {
    } else if l.len() == 0 || (r.len() > 0 && text_lt(r[0].0, l[0].0)) {
        if k > 0 {
            lemma_missing_name_one_side(l, r.drop_first(), cs, rule, tolerance, k - 1);
            let w = join(l, r.drop_first(), cs, rule, tolerance)[k - 1];
            assert(v == w);
            if w.variance_type == MISSING_LEFT@ {
                let m = choose|m: int|
                    0 <= m < r.drop_first().len() && w.right_record_id == Some(
                        (#[trigger] r.drop_first()[m]).1.record_id,
                    );
                assert(r[m + 1] == r.drop_first()[m]);
            }
        } else {
            assert(v == missing_left(r[0].1));
            assert(MISSING_LEFT@[8] == 'l' && MISSING_RIGHT@[8] == 'r');
        }
    } else if r.len() == 0 || text_lt(l[0].0, r[0].0) {
        if k > 0 {
            lemma_missing_name_one_side(l.drop_first(), r, cs, rule, tolerance, k - 1);
            let w = join(l.drop_first(), r, cs, rule, tolerance)[k - 1];
            assert(v == w);
            if w.variance_type == MISSING_RIGHT@ {
                let m = choose|m: int|
                    0 <= m < l.drop_first().len() && w.left_record_id == Some(
                        (#[trigger] l.drop_first()[m]).1.record_id,
                    );
                assert(l[m + 1] == l.drop_first()[m]);
            }
        } else {
            assert(v == missing_right(l[0].1));
            assert(MISSING_LEFT@[8] == 'l' && MISSING_RIGHT@[8] == 'r');
        }
    } else {
        let c = compare_spec(l[0].1, r[0].1, cs, rule, tolerance);
        if k < c.len() {
            lemma_compare_names_both(l[0].1, r[0].1, cs, rule, tolerance, k);
        } else {
            lemma_missing_name_one_side(l.drop_first(), r.drop_first(), cs, rule, tolerance, k - c.len());
            let w = join(l.drop_first(), r.drop_first(), cs, rule, tolerance)[k - c.len()];
            assert(v == w);
            if w.variance_type == MISSING_RIGHT@ {
                let m = choose|m: int|
                    0 <= m < l.drop_first().len() && w.left_record_id == Some(
                        (#[trigger] l.drop_first()[m]).1.record_id,
                    );
                assert(l[m + 1] == l.drop_first()[m]);
            }
            if w.variance_type == MISSING_LEFT@ {
                let m = choose|m: int|
                    0 <= m < r.drop_first().len() && w.right_record_id == Some(
                        (#[trigger] r.drop_first()[m]).1.record_id,
                    );
                assert(r[m + 1] == r.drop_first()[m]);
            }
        }
    }
}

/// A left record whose match key no right record has is reported
/// `missing_right`; a right record whose key no left record has is reported
/// `missing_left`.
pub proof fn lemma_unmatched_reported(
    l: Seq<(Seq<char>, RecordModel)>,
    r: Seq<(Seq<char>, RecordModel)>,
    cs: Seq<Selector>,
    rule: RoundingRule,
    tolerance: i64,
)
    ensures
        forall|m: int|
            0 <= m < l.len() && !has_key(r, #[trigger] l[m].0) ==> join(l, r, cs, rule, tolerance).contains(
                missing_right(l[m].1),
            ),
        forall|m: int|
            0 <= m < r.len() && !has_key(l, #[trigger] r[m].0) ==> join(l, r, cs, rule, tolerance).contains(
                missing_left(r[m].1),
            ),
    decreases l.len() + r.len(),
{
    let j = join(l, r, cs, rule, tolerance);
    if l.len() == 0 && r.len() == 0 {
    } else if l.len() == 0 || (r.len() > 0 && text_lt(r[0].0, l[0].0)) {
        let rest = join(l, r.drop_first(), cs, rule, tolerance);
        lemma_unmatched_reported(l, r.drop_first(), cs, rule, tolerance);
        assert(j == seq![missing_left(r[0].1)] + rest);
        assert forall|m: int| 0 <= m < l.len() && !has_key(r, #[trigger] l[m].0) implies j.contains(
            missing_right(l[m].1),
        ) by {
            if has_key(r.drop_first(), l[m].0) {
                let q = choose|q: int| 0 <= q < r.drop_first().len() && (#[trigger] r.drop_first()[q]).0 == l[m].0;
                assert(r[q + 1].0 == l[m].0);
            }
            let p = choose|p: int| 0 <= p < rest.len() && rest[p] == missing_right(l[m].1);
            assert(j[p + 1] == rest[p]);
        }
        assert forall|m: int| 0 <= m < r.len() && !has_key(l, #[trigger] r[m].0) implies j.contains(
            missing_left(r[m].1),
        ) by {
            if m == 0 {
                assert(j[0] == missing_left(r[0].1));
            } else {
                assert(r.drop_first()[m - 1] == r[m]);
                let p = choose|p: int| 0 <= p < rest.len() && rest[p] == missing_left(r[m].1);
                assert(j[p + 1] == rest[p]);
            }
        }
    } else if r.len() == 0 || text_lt(l[0].0, r[0].0) {
        let rest = join(l.drop_first(), r, cs, rule, tolerance);
        lemma_unmatched_reported(l.drop_first(), r, cs, rule, tolerance);
        assert(j == seq![missing_right(l[0].1)] + rest);
        assert forall|m: int| 0 <= m < l.len() && !has_key(r, #[trigger] l[m].0) implies j.contains(
            missing_right(l[m].1),
        ) by {
            if m == 0 {
                assert(j[0] == missing_right(l[0].1));
            } else {
                assert(l.drop_first()[m - 1] == l[m]);
                let p = choose|p: int| 0 <= p < rest.len() && rest[p] == missing_right(l[m].1);
                assert(j[p + 1] == rest[p]);
            }
        }
        assert forall|m: int| 0 <= m < r.len() && !has_key(l, #[trigger] r[m].0) implies j.contains(
            missing_left(r[m].1),
        ) by {
            if has_key(l.drop_first(), r[m].0) {
                let q = choose|q: int| 0 <= q < l.drop_first().len() && (#[trigger] l.drop_first()[q]).0 == r[m].0;
                assert(l[q + 1].0 == r[m].0);
            }
            let p = choose|p: int| 0 <= p < rest.len() && rest[p] == missing_left(r[m].1);
            assert(j[p + 1] == rest[p]);
        }
    } else {
        let c = compare_spec(l[0].1, r[0].1, cs, rule, tolerance);
        let rest = join(l.drop_first(), r.drop_first(), cs, rule, tolerance);
        lemma_unmatched_reported(l.drop_first(), r.drop_first(), cs, rule, tolerance);
        assert(j == c + rest);
        assert(l[0].0 == r[0].0) by {
            if l[0].0 != r[0].0 {
                crate::text::lemma_text_lt_total(l[0].0, r[0].0);
            }
        }
        assert forall|m: int| 0 <= m < l.len() && !has_key(r, #[trigger] l[m].0) implies j.contains(
            missing_right(l[m].1),
        ) by {
            assert(r[0].0 == l[0].0);
            if m == 0 {
                assert(has_key(r, l[0].0));
            }
            assert(l.drop_first()[m - 1] == l[m]);
            if has_key(r.drop_first(), l[m].0) {
                let q = choose|q: int| 0 <= q < r.drop_first().len() && (#[trigger] r.drop_first()[q]).0 == l[m].0;
                assert(r[q + 1].0 == l[m].0);
            }
            let p = choose|p: int| 0 <= p < rest.len() && rest[p] == missing_right(l[m].1);
            assert(j[c.len() + p] == rest[p]);
        }
        assert forall|m: int| 0 <= m < r.len() && !has_key(l, #[trigger] r[m].0) implies j.contains(
            missing_left(r[m].1),
        ) by {
            if m == 0 {
                assert(has_key(l, r[0].0));
            }
            assert(r.drop_first()[m - 1] == r[m]);
            if has_key(l.drop_first(), r[m].0) {
                let q = choose|q: int| 0 <= q < l.drop_first().len() && (#[trigger] l.drop_first()[q]).0 == r[m].0;
                assert(l[q + 1].0 == r[m].0);
            }
            let p = choose|p: int| 0 <= p < rest.len() && rest[p] == missing_left(r[m].1);
            assert(j[c.len() + p] == rest[p]);
        }
    }
}

/// No two records of the sequence share a record id.
pub open spec fn ids_unique(s: Seq<RecordModel>) -> bool {
    forall|i: int, j: int| 0 <= i < j < s.len() ==> (#[trigger] s[i]).record_id != (#[trigger] s[j]).record_id
}

proof fn lemma_keyed_total(s: Seq<RecordModel>, ms: Seq<Selector>)
    requires
        ids_unique(s),
    ensures
        total_on(keyed(s, ms), |a, b| keyed_lt(a, b)),
{
    let lt = |a: (Seq<char>, RecordModel), b: (Seq<char>, RecordModel)| keyed_lt(a, b);
    let k = keyed(s, ms);
    assert forall|a: (Seq<char>, RecordModel), b: (Seq<char>, RecordModel), c: (Seq<char>, RecordModel)|
        #[trigger] lt(a, b) && #[trigger] lt(b, c) implies lt(a, c) by {
        if text_lt(a.0, b.0) && text_lt(b.0, c.0) {
            crate::text::lemma_text_lt_transitive(a.0, b.0, c.0);
        }
        if a.0 == b.0 && b.0 == c.0 && text_lt(a.1.record_id, b.1.record_id) && text_lt(b.1.record_id, c.1.record_id) {
            crate::text::lemma_text_lt_transitive(a.1.record_id, b.1.record_id, c.1.record_id);
        }
    }
    assert forall|a: (Seq<char>, RecordModel)| !#[trigger] lt(a, a) by {
        crate::text::lemma_text_lt_irreflexive(a.0);
        crate::text::lemma_text_lt_irreflexive(a.1.record_id);
    }
    assert forall|a: (Seq<char>, RecordModel), b: (Seq<char>, RecordModel)|
        #[trigger] k.contains(a) && #[trigger] k.contains(b) && a != b implies lt(a, b) || lt(b, a) by {
        let i = choose|i: int| 0 <= i < k.len() && k[i] == a;
        let j = choose|j: int| 0 <= j < k.len() && k[j] == b;
        assert(i != j);
        if i < j {
            assert(s[i].record_id != s[j].record_id);
        } else {
            assert(s[j].record_id != s[i].record_id);
        }
        if a.0 != b.0 {
            crate::text::lemma_text_lt_total(a.0, b.0);
        } else {
            crate::text::lemma_text_lt_total(a.1.record_id, b.1.record_id);
        }
    }
}

proof fn lemma_keyed_sorted_permutation(s1: Seq<RecordModel>, s2: Seq<RecordModel>, ms: Seq<Selector>)
    requires
        s1.to_multiset() == s2.to_multiset(),
        ids_unique(s1),
    ensures
        keyed_sorted(s1, ms) == keyed_sorted(s2, ms),
{
    broadcast use vstd::seq_lib::group_to_multiset_ensures;

    let lt = |a: (Seq<char>, RecordModel), b: (Seq<char>, RecordModel)| keyed_lt(a, b);
    let f = |r: RecordModel| (match_key(r, ms), r);
    let k1 = keyed(s1, ms);
    let k2 = keyed(s2, ms);
    assert(k1 =~= s1.map_values(f));
    assert(k2 =~= s2.map_values(f));
    lemma_map_multiset(s1, s2, f);
    lemma_keyed_total(s1, ms);
    assert forall|a: (Seq<char>, RecordModel)| #[trigger] k2.contains(a) <==> k1.contains(a) by {
        assert(k1.to_multiset().count(a) == k2.to_multiset().count(a));
    }
    assert(total_on(k2, lt));
    lemma_sort_by_sorted(k1, lt);
    lemma_sort_by_sorted(k2, lt);
    lemma_sort_by_multiset(k1, lt);
    lemma_sort_by_multiset(k2, lt);
    let t1 = sort_by(k1, lt);
    assert forall|a: (Seq<char>, RecordModel)| #[trigger] t1.contains(a) <==> k1.contains(a) by {
        assert(k1.to_multiset().count(a) == t1.to_multiset().count(a));
    }
    assert(total_on(t1, lt));
    lemma_sorted_unique(t1, sort_by(k2, lt), lt);
}

/// Order independence: reordering the records of either side, each side's
/// record ids being distinct, leaves the report unchanged.
pub proof fn lemma_order_independent(
    left1: Seq<RecordModel>,
    left2: Seq<RecordModel>,
    right1: Seq<RecordModel>,
    right2: Seq<RecordModel>,
    ms: Seq<Selector>,
    cs: Seq<Selector>,
    rule: RoundingRule,
    tolerance: i64,
)
    requires
        left1.to_multiset() == left2.to_multiset(),
        right1.to_multiset() == right2.to_multiset(),
        ids_unique(left1),
        ids_unique(right1),
    ensures
        report_variances(left1, right1, ms, cs, rule, tolerance) == report_variances(
            left2,
            right2,
            ms,
            cs,
            rule,
            tolerance,
        ),
{
    lemma_keyed_sorted_permutation(left1, left2, ms);
    lemma_keyed_sorted_permutation(right1, right2, ms);
}

/// How many variances of type `t` the sequence holds.
pub open spec fn count_type(vs: Seq<VarianceModel>, t: Seq<char>) -> nat
    decreases vs.len(),
{
    if vs.len() == 0 {
        0
    } else {
        (if vs[0].variance_type == t { 1nat } else { 0nat }) + count_type(vs.drop_first(), t)
    }
}

/// How many entries of `l` have a match key that no entry of `r` has.
pub open spec fn count_unmatched(l: Seq<(Seq<char>, RecordModel)>, r: Seq<(Seq<char>, RecordModel)>) -> nat
    decreases l.len(),
{
    if l.len() == 0 {
        0
    } else {
        (if has_key(r, l[0].0) { 0nat } else { 1nat }) + count_unmatched(l.drop_first(), r)
    }
}

/// Match keys strictly ascending.
pub open spec fn keys_increasing(s: Seq<(Seq<char>, RecordModel)>) -> bool {
    forall|i: int, j: int| 0 <= i < j < s.len() ==> text_lt((#[trigger] s[i]).0, (#[trigger] s[j]).0)
}

/// No two records of the sequence share a match key under `ms`.
pub open spec fn keys_unique(s: Seq<RecordModel>, ms: Seq<Selector>) -> bool {
    forall|i: int, j: int|
        0 <= i < j < s.len() ==> match_key(#[trigger] s[i], ms) != match_key(#[trigger] s[j], ms)
}

proof fn lemma_count_type_concat(a: Seq<VarianceModel>, b: Seq<VarianceModel>, t: Seq<char>)
    ensures
        count_type(a + b, t) == count_type(a, t) + count_type(b, t),
    decreases a.len(),
{
    if a.len() > 0 {
        lemma_count_type_concat(a.drop_first(), b, t);
        assert((a + b).drop_first() =~= a.drop_first() + b);
    } else {
        assert(a + b =~= b);
    }
}

proof fn lemma_count_type_none(vs: Seq<VarianceModel>, t: Seq<char>)
    requires
        forall|k: int| 0 <= k < vs.len() ==> (#[trigger] vs[k]).variance_type != t,
    ensures
        count_type(vs, t) == 0,
    decreases vs.len(),
{
    if vs.len() > 0 {
        assert(vs[0].variance_type != t);
        assert forall|k: int| 0 <= k < vs.drop_first().len() implies (#[trigger] vs.drop_first()[k]).variance_type != t by {
            assert(vs.drop_first()[k] == vs[k + 1]);
        }
        lemma_count_type_none(vs.drop_first(), t);
    }
}

proof fn lemma_count_type_insert_by(s: Seq<VarianceModel>, x: VarianceModel, t: Seq<char>)
    ensures
        count_type(insert_by(s, x, |a, b| variance_lt(a, b)), t) == count_type(s, t) + count_type(seq![x], t),
    decreases s.len(),
{
    let lt = |a: VarianceModel, b: VarianceModel| variance_lt(a, b);
    if s.len() == 0 {
    } else if lt(x, s.last()) {
        lemma_count_type_insert_by(s.drop_last(), x, t);
        lemma_count_type_concat(insert_by(s.drop_last(), x, lt), seq![s.last()], t);
        lemma_count_type_concat(s.drop_last(), seq![s.last()], t);
        assert(s.drop_last() + seq![s.last()] =~= s);
        assert(insert_by(s.drop_last(), x, lt) + seq![s.last()] =~= insert_by(s.drop_last(), x, lt).push(s.last()));
    } else {
        lemma_count_type_concat(s, seq![x], t);
        assert(s + seq![x] =~= s.push(x));
    }
}

proof fn lemma_count_type_sort(s: Seq<VarianceModel>, t: Seq<char>)
    ensures
        count_type(sort_by(s, |a, b| variance_lt(a, b)), t) == count_type(s, t),
    decreases s.len(),
{
    let lt = |a: VarianceModel, b: VarianceModel| variance_lt(a, b);
    if s.len() > 0 {
        lemma_count_type_sort(s.drop_last(), t);
        lemma_count_type_insert_by(sort_by(s.drop_last(), lt), s.last(), t);
        lemma_count_type_concat(s.drop_last(), seq![s.last()], t);
        assert(s.drop_last() + seq![s.last()] =~= s);
    }
}

proof fn lemma_count_unmatched_drop_right(l: Seq<(Seq<char>, RecordModel)>, r: Seq<(Seq<char>, RecordModel)>)
    requires
        r.len() > 0,
        forall|i: int| 0 <= i < l.len() ==> (#[trigger] l[i]).0 != r[0].0,
    ensures
        count_unmatched(l, r) == count_unmatched(l, r.drop_first()),
    decreases l.len(),
{
    if l.len() > 0 {
        assert(has_key(r, l[0].0) == has_key(r.drop_first(), l[0].0)) by {
            if has_key(r, l[0].0) {
                let m = choose|m: int| 0 <= m < r.len() && (#[trigger] r[m]).0 == l[0].0;
                assert(m != 0);
                assert(r.drop_first()[m - 1] == r[m]);
            }
            if has_key(r.drop_first(), l[0].0) {
                let m = choose|m: int| 0 <= m < r.drop_first().len() && (#[trigger] r.drop_first()[m]).0 == l[0].0;
                assert(r[m + 1] == r.drop_first()[m]);
            }
        }
        assert forall|i: int| 0 <= i < l.drop_first().len() implies (#[trigger] l.drop_first()[i]).0 != r[0].0 by {
            assert(l.drop_first()[i] == l[i + 1]);
        }
        lemma_count_unmatched_drop_right(l.drop_first(), r);
    }
}

proof fn lemma_join_counts_missing_right(
    l: Seq<(Seq<char>, RecordModel)>,
    r: Seq<(Seq<char>, RecordModel)>,
    cs: Seq<Selector>,
    rule: RoundingRule,
    tolerance: i64,
)
    requires
        keys_increasing(l),
        keys_increasing(r),
    ensures
        count_type(join(l, r, cs, rule, tolerance), MISSING_RIGHT@) == count_unmatched(l, r),
    decreases l.len() + r.len(),
{
    reveal_strlit("missing_right");
    reveal_strlit("missing_left");
    assert(MISSING_LEFT@[8] == 'l' && MISSING_RIGHT@[8] == 'r');
    if l.len() > 0 {
        assert forall|i: int, j: int| 0 <= i < j < l.drop_first().len() implies text_lt(
            (#[trigger] l.drop_first()[i]).0,
            (#[trigger] l.drop_first()[j]).0,
        ) by {
            assert(l.drop_first()[i] == l[i + 1] && l.drop_first()[j] == l[j + 1]);
        }
    }
    if r.len() > 0 {
        assert forall|i: int, j: int| 0 <= i < j < r.drop_first().len() implies text_lt(
            (#[trigger] r.drop_first()[i]).0,
            (#[trigger] r.drop_first()[j]).0,
        ) by {
            assert(r.drop_first()[i] == r[i + 1] && r.drop_first()[j] == r[j + 1]);
        }
    }
    if l.len() == 0 && r.len() == 0 {
    } else if l.len() == 0 || (r.len() > 0 && text_lt(r[0].0, l[0].0)) {
        lemma_join_counts_missing_right(l, r.drop_first(), cs, rule, tolerance);
        lemma_count_type_concat(seq![missing_left(r[0].1)], join(l, r.drop_first(), cs, rule, tolerance), MISSING_RIGHT@);
        assert(seq![missing_left(r[0].1)].drop_first() =~= Seq::<VarianceModel>::empty());
        assert(count_type(Seq::<VarianceModel>::empty(), MISSING_RIGHT@) == 0);
        assert(MISSING_LEFT@ != MISSING_RIGHT@);
        assert(count_type(seq![missing_left(r[0].1)], MISSING_RIGHT@) == 0);
        assert forall|i: int| 0 <= i < l.len() implies (#[trigger] l[i]).0 != r[0].0 by {
            if i > 0 {
                crate::text::lemma_text_lt_transitive(r[0].0, l[0].0, l[i].0);
            }
            crate::text::lemma_text_lt_irreflexive(r[0].0);
        }
        lemma_count_unmatched_drop_right(l, r);
    } else if r.len() == 0 || text_lt(l[0].0, r[0].0) {
        lemma_join_counts_missing_right(l.drop_first(), r, cs, rule, tolerance);
        lemma_count_type_concat(seq![missing_right(l[0].1)], join(l.drop_first(), r, cs, rule, tolerance), MISSING_RIGHT@);
        assert(seq![missing_right(l[0].1)].drop_first() =~= Seq::<VarianceModel>::empty());
        assert(count_type(Seq::<VarianceModel>::empty(), MISSING_RIGHT@) == 0);
        assert(count_type(seq![missing_right(l[0].1)], MISSING_RIGHT@) == 1);
        assert(!has_key(r, l[0].0)) by {
            if has_key(r, l[0].0) {
                let m = choose|m: int| 0 <= m < r.len() && (#[trigger] r[m]).0 == l[0].0;
                if m > 0 {
                    crate::text::lemma_text_lt_transitive(l[0].0, r[0].0, r[m].0);
                }
                crate::text::lemma_text_lt_irreflexive(l[0].0);
            }
        }
    } else {
        assert(l[0].0 == r[0].0) by {
            if l[0].0 != r[0].0 {
                crate::text::lemma_text_lt_total(l[0].0, r[0].0);
            }
        }
        let c = compare_spec(l[0].1, r[0].1, cs, rule, tolerance);
        lemma_join_counts_missing_right(l.drop_first(), r.drop_first(), cs, rule, tolerance);
        lemma_count_type_concat(c, join(l.drop_first(), r.drop_first(), cs, rule, tolerance), MISSING_RIGHT@);
        reveal_strlit("field_mismatch");
        reveal_strlit("amount_mismatch");
        assert forall|k: int| 0 <= k < c.len() implies (#[trigger] c[k]).variance_type != MISSING_RIGHT@ by {
            lemma_compare_names_both(l[0].1, r[0].1, cs, rule, tolerance, k);
            assert(FIELD_MISMATCH@[0] == 'f' && AMOUNT_MISMATCH@[0] == 'a' && MISSING_RIGHT@[0] == 'm');
        }
        lemma_count_type_none(c, MISSING_RIGHT@);
        assert(has_key(r, l[0].0));
        assert forall|i: int| 0 <= i < l.drop_first().len() implies (#[trigger] l.drop_first()[i]).0 != r[0].0 by {
            assert(l.drop_first()[i] == l[i + 1]);
            crate::text::lemma_text_lt_irreflexive(r[0].0);
        }
        lemma_count_unmatched_drop_right(l.drop_first(), r);
    }
}

proof fn lemma_join_counts_missing_left(
    l: Seq<(Seq<char>, RecordModel)>,
    r: Seq<(Seq<char>, RecordModel)>,
    cs: Seq<Selector>,
    rule: RoundingRule,
    tolerance: i64,
)
    requires
        keys_increasing(l),
        keys_increasing(r),
    ensures
        count_type(join(l, r, cs, rule, tolerance), MISSING_LEFT@) == count_unmatched(r, l),
    decreases l.len() + r.len(),
{
    reveal_strlit("missing_right");
    reveal_strlit("missing_left");
    assert(MISSING_LEFT@[8] == 'l' && MISSING_RIGHT@[8] == 'r');
    if l.len() > 0 {
        assert forall|i: int, j: int| 0 <= i < j < l.drop_first().len() implies text_lt(
            (#[trigger] l.drop_first()[i]).0,
            (#[trigger] l.drop_first()[j]).0,
        ) by {
            assert(l.drop_first()[i] == l[i + 1] && l.drop_first()[j] == l[j + 1]);
        }
    }
    if r.len() > 0 {
        assert forall|i: int, j: int| 0 <= i < j < r.drop_first().len() implies text_lt(
            (#[trigger] r.drop_first()[i]).0,
            (#[trigger] r.drop_first()[j]).0,
        ) by {
            assert(r.drop_first()[i] == r[i + 1] && r.drop_first()[j] == r[j + 1]);
        }
    }
    assert(count_type(Seq::<VarianceModel>::empty(), MISSING_LEFT@) == 0);
    if l.len() == 0 && r.len() == 0 {
    } else if l.len() == 0 || (r.len() > 0 && text_lt(r[0].0, l[0].0)) {
        lemma_join_counts_missing_left(l, r.drop_first(), cs, rule, tolerance);
        lemma_count_type_concat(seq![missing_left(r[0].1)], join(l, r.drop_first(), cs, rule, tolerance), MISSING_LEFT@);
        assert(seq![missing_left(r[0].1)].drop_first() =~= Seq::<VarianceModel>::empty());
        assert(count_type(seq![missing_left(r[0].1)], MISSING_LEFT@) == 1);
        assert(!has_key(l, r[0].0)) by {
            if has_key(l, r[0].0) {
                let m = choose|m: int| 0 <= m < l.len() && (#[trigger] l[m]).0 == r[0].0;
                if m > 0 {
                    crate::text::lemma_text_lt_transitive(r[0].0, l[0].0, l[m].0);
                }
                crate::text::lemma_text_lt_irreflexive(r[0].0);
            }
        }
    } else if r.len() == 0 || text_lt(l[0].0, r[0].0) {
        lemma_join_counts_missing_left(l.drop_first(), r, cs, rule, tolerance);
        lemma_count_type_concat(seq![missing_right(l[0].1)], join(l.drop_first(), r, cs, rule, tolerance), MISSING_LEFT@);
        assert(seq![missing_right(l[0].1)].drop_first() =~= Seq::<VarianceModel>::empty());
        assert(MISSING_LEFT@ != MISSING_RIGHT@);
        assert(count_type(seq![missing_right(l[0].1)], MISSING_LEFT@) == 0);
        assert forall|i: int| 0 <= i < r.len() implies (#[trigger] r[i]).0 != l[0].0 by {
            if i > 0 {
                crate::text::lemma_text_lt_transitive(l[0].0, r[0].0, r[i].0);
            }
            crate::text::lemma_text_lt_irreflexive(l[0].0);
        }
        lemma_count_unmatched_drop_right(r, l);
    } else {
        assert(l[0].0 == r[0].0) by {
            if l[0].0 != r[0].0 {
                crate::text::lemma_text_lt_total(l[0].0, r[0].0);
            }
        }
        let c = compare_spec(l[0].1, r[0].1, cs, rule, tolerance);
        lemma_join_counts_missing_left(l.drop_first(), r.drop_first(), cs, rule, tolerance);
        lemma_count_type_concat(c, join(l.drop_first(), r.drop_first(), cs, rule, tolerance), MISSING_LEFT@);
        reveal_strlit("field_mismatch");
        reveal_strlit("amount_mismatch");
        assert forall|k: int| 0 <= k < c.len() implies (#[trigger] c[k]).variance_type != MISSING_LEFT@ by {
            lemma_compare_names_both(l[0].1, r[0].1, cs, rule, tolerance, k);
            assert(FIELD_MISMATCH@[0] == 'f' && AMOUNT_MISMATCH@[0] == 'a' && MISSING_LEFT@[0] == 'm');
        }
        lemma_count_type_none(c, MISSING_LEFT@);
        assert(has_key(l, r[0].0));
        assert forall|i: int| 0 <= i < r.drop_first().len() implies (#[trigger] r.drop_first()[i]).0 != l[0].0 by {
            assert(r.drop_first()[i] == r[i + 1]);
            crate::text::lemma_text_lt_irreflexive(l[0].0);
        }
        lemma_count_unmatched_drop_right(r.drop_first(), l);
    }
}

proof fn lemma_sorted_keys_increasing(s: Seq<RecordModel>, ms: Seq<Selector>)
    requires
        ids_unique(s),
        keys_unique(s, ms),
    ensures
        keys_increasing(keyed_sorted(s, ms)),
{
    broadcast use vstd::seq_lib::group_to_multiset_ensures;

    let lt = |a: (Seq<char>, RecordModel), b: (Seq<char>, RecordModel)| keyed_lt(a, b);
    let k = keyed(s, ms);
    let t = keyed_sorted(s, ms);
    lemma_keyed_total(s, ms);
    lemma_sort_by_sorted(k, lt);
    lemma_sort_by_multiset(k, lt);
    assert(k.no_duplicates()) by {
        assert forall|i: int, j: int| 0 <= i < k.len() && 0 <= j < k.len() && i != j implies k[i] != k[j] by {
            if i < j {
                assert(match_key(s[i], ms) != match_key(s[j], ms));
            } else {
                assert(match_key(s[j], ms) != match_key(s[i], ms));
            }
        }
    }
    k.lemma_multiset_has_no_duplicates();
    assert forall|x: (Seq<char>, RecordModel)| t.to_multiset().contains(x) implies t.to_multiset().count(x) == 1 by {
        assert(k.to_multiset().contains(x));
    }
    t.lemma_multiset_has_no_duplicates_conv();
    assert forall|i: int, j: int| 0 <= i < j < t.len() implies text_lt((#[trigger] t[i]).0, (#[trigger] t[j]).0) by {
        assert(t.contains(t[i]) && t.contains(t[j]));
        assert(t.to_multiset().count(t[i]) > 0 && t.to_multiset().count(t[j]) > 0);
        assert(k.contains(t[i]) && k.contains(t[j]));
        let p = choose|p: int| 0 <= p < k.len() && k[p] == t[i];
        let q = choose|q: int| 0 <= q < k.len() && k[q] == t[j];
        if p == q {
            assert(t[i] == t[j]);
        }
        if p < q {
            assert(match_key(s[p], ms) != match_key(s[q], ms));
        } else {
            assert(match_key(s[q], ms) != match_key(s[p], ms));
        }
        assert(!lt(t[j], t[i]));
        crate::text::lemma_text_lt_total(t[i].0, t[j].0);
    }
}

/// Unmatched counts: where no two records of a side share a match key (nor a
/// record id), the report holds exactly one `missing_right` variance per left
/// record whose key no right record has, and one `missing_left` variance per
/// right record whose key no left record has (each names one record of its
/// side and none of the other: `lemma_missing_name_one_side`).
pub proof fn lemma_unmatched_count(
    left: Seq<RecordModel>,
    right: Seq<RecordModel>,
    ms: Seq<Selector>,
    cs: Seq<Selector>,
    rule: RoundingRule,
    tolerance: i64,
)
    requires
        ids_unique(left),
        ids_unique(right),
        keys_unique(left, ms),
        keys_unique(right, ms),
    ensures
        count_type(report_variances(left, right, ms, cs, rule, tolerance), MISSING_RIGHT@)
            == count_unmatched(keyed_sorted(left, ms), keyed_sorted(right, ms)),
        count_type(report_variances(left, right, ms, cs, rule, tolerance), MISSING_LEFT@)
            == count_unmatched(keyed_sorted(right, ms), keyed_sorted(left, ms)),
{
    lemma_sorted_keys_increasing(left, ms);
    lemma_sorted_keys_increasing(right, ms);
    lemma_join_counts_missing_right(keyed_sorted(left, ms), keyed_sorted(right, ms), cs, rule, tolerance);
    lemma_count_type_sort(join(keyed_sorted(left, ms), keyed_sorted(right, ms), cs, rule, tolerance), MISSING_RIGHT@);
    lemma_join_counts_missing_left(keyed_sorted(left, ms), keyed_sorted(right, ms), cs, rule, tolerance);
    lemma_count_type_sort(join(keyed_sorted(left, ms), keyed_sorted(right, ms), cs, rule, tolerance), MISSING_LEFT@);
}

} // verus!
