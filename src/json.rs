use vstd::prelude::*;
use crate::text::{decimal, decimal_string, json_quote, json_string, push_char, push_text};
use crate::variance::{Variance, VarianceModel, variances_view};
use crate::attributes::AttributeMap;
use crate::model::{RoundingMode, RoundingRule};
use crate::record::{NormalizedRecord, RecordModel, Ruleset};
use crate::reconcile::VarianceReport;

verus! {

/// A JSON string, or `null` where there is none.
pub open spec fn opt_json(o: Option<Seq<char>>) -> Seq<char> {
    match o {
        Some(s) => json_quote(s),
        None => "null"@,
    }
}

/// The parts joined by `,`.
pub open spec fn comma_joined(parts: Seq<Seq<char>>) -> Seq<char>
    decreases parts.len(),
{
    if parts.len() == 0 {
        Seq::empty()
    } else if parts.len() == 1 {
        parts[0]
    } else {
        comma_joined(parts.drop_last()).push(',') + parts.last()
    }
}

/// A JSON array of already serialised elements.
pub open spec fn json_array(parts: Seq<Seq<char>>) -> Seq<char> {
    seq!['['] + comma_joined(parts) + seq![']']
}

/// A variance as a JSON object, fields in declaration order, no whitespace.
pub open spec fn variance_json(v: VarianceModel) -> Seq<char> {
    "{\"variance_id\":"@ + json_quote(v.variance_id) + ",\"variance_type\":"@ + json_quote(
        v.variance_type,
    ) + ",\"severity\":"@ + json_quote(v.severity) + ",\"left_record_id\":"@ + opt_json(
        v.left_record_id,
    ) + ",\"right_record_id\":"@ + opt_json(v.right_record_id)
        + ",\"amount_delta_minor_units\":"@ + decimal(v.amount_delta_minor_units as int)
        + ",\"rationale\":"@ + json_quote(v.rationale) + "}"@
}

pub open spec fn variances_json(vs: Seq<VarianceModel>) -> Seq<char> {
    json_array(vs.map_values(|v: VarianceModel| variance_json(v)))
}

/// Appends `s` as a JSON string literal.
pub fn write_json_str(out: &mut String, s: &str)
    ensures
        final(out)@ == old(out)@ + json_quote(s@),
{
    let q = json_string(s);
    push_text(out, q.as_str());
}

fn write_opt_str(out: &mut String, o: &Option<String>)
    ensures
        final(out)@ == old(out)@ + opt_json(crate::variance::opt_view(*o)),
{
    match o {
        Some(s) => write_json_str(out, s.as_str()),
        None => push_text(out, "null"),
    }
}

/// Appends a variance as a JSON object.
pub fn write_variance(out: &mut String, v: &Variance)
    ensures
        final(out)@ == old(out)@ + variance_json(v@),
{
    let ghost start = out@;
    push_text(out, "{\"variance_id\":");
    write_json_str(out, v.variance_id.as_str());
    push_text(out, ",\"variance_type\":");
    write_json_str(out, v.variance_type.as_str());
    push_text(out, ",\"severity\":");
    write_json_str(out, v.severity.as_str());
    push_text(out, ",\"left_record_id\":");
    write_opt_str(out, &v.left_record_id);
    push_text(out, ",\"right_record_id\":");
    write_opt_str(out, &v.right_record_id);
    push_text(out, ",\"amount_delta_minor_units\":");
    let d = decimal_string(v.amount_delta_minor_units);
    push_text(out, d.as_str());
    push_text(out, ",\"rationale\":");
    write_json_str(out, v.rationale.as_str());
    push_text(out, "}");
    proof {
        assert(out@ =~= start + variance_json(v@));
    }
}

/// Serialises a list of variances as a JSON array.
pub fn variances_to_json(vs: &[Variance]) -> (r: String)
    ensures
        r@ == variances_json(variances_view(vs@)),
{
    let ghost parts = variances_view(vs@).map_values(|v: VarianceModel| variance_json(v));
    let mut out = String::new();
    push_char(&mut out, '[');
    let mut i: usize = 0;
    while i < vs.len()
        invariant
            i <= vs@.len(),
            parts == variances_view(vs@).map_values(|v: VarianceModel| variance_json(v)),
            out@ == seq!['['] + comma_joined(parts.take(i as int)),
        decreases vs@.len() - i,
    {
        proof {
            assert(parts.take(i + 1).drop_last() =~= parts.take(i as int));
        }
        if i > 0 {
            push_char(&mut out, ',');
        }
        write_variance(&mut out, &vs[i]);
        proof {
            if i == 0 {
                assert(comma_joined(parts.take(1)) == parts[0]);
            }
            assert(out@ =~= seq!['['] + comma_joined(parts.take(i + 1)));
        }
        i = i + 1;
    }
    push_char(&mut out, ']');
    proof {
        assert(parts.take(i as int) =~= parts);
        assert(out@ =~= json_array(parts));
    }
    out
}

/// Attributes as a JSON object, in entry order.
pub open spec fn attributes_json(attrs: Seq<(Seq<char>, Seq<char>)>) -> Seq<char> {
    seq!['{'] + comma_joined(
        attrs.map_values(|e: (Seq<char>, Seq<char>)| json_quote(e.0) + seq![':'] + json_quote(e.1)),
    ) + seq!['}']
}

/// A record as a JSON object, fields in declaration order.
pub open spec fn record_json(r: RecordModel) -> Seq<char> {
    "{\"record_id\":"@ + json_quote(r.record_id) + ",\"source\":"@ + json_quote(r.source)
        + ",\"timestamp\":"@ + json_quote(r.timestamp) + ",\"amount_minor_units\":"@ + decimal(
        r.amount_minor_units as int,
    ) + ",\"currency\":"@ + json_quote(r.currency) + ",\"attributes\":"@ + attributes_json(
        r.attributes,
    ) + ",\"schema_version\":"@ + json_quote(r.schema_version) + "}"@
}

pub open spec fn records_json(rs: Seq<RecordModel>) -> Seq<char> {
    json_array(rs.map_values(|r: RecordModel| record_json(r)))
}

pub open spec fn strings_json(ss: Seq<String>) -> Seq<char> {
    json_array(ss.map_values(|s: String| json_quote(s@)))
}

/// The wire name of a rounding mode.
pub open spec fn mode_text(m: RoundingMode) -> Seq<char> {
    match m {
        RoundingMode::Down => "down"@,
        RoundingMode::Up => "up"@,
        RoundingMode::Nearest => "nearest"@,
        RoundingMode::TowardZero => "toward_zero"@,
        RoundingMode::AwayFromZero => "away_from_zero"@,
    }
}

pub open spec fn rule_json(r: RoundingRule) -> Seq<char> {
    "{\"mode\":"@ + json_quote(mode_text(r.mode)) + ",\"increment_minor_units\":"@ + decimal(
        r.increment_minor_units as int,
    ) + "}"@
}

/// A ruleset as a JSON object, fields in declaration order.
pub open spec fn ruleset_json(rs: Ruleset) -> Seq<char> {
    "{\"match_keys\":"@ + strings_json(rs.match_keys@) + ",\"compare_keys\":"@ + strings_json(
        rs.compare_keys@,
    ) + ",\"tolerance_minor_units\":"@ + decimal(rs.tolerance_minor_units as int)
        + ",\"rounding\":"@ + rule_json(rs.rounding) + ",\"timezone\":"@ + json_quote(rs.timezone@)
        + ",\"schema_version\":"@ + json_quote(rs.schema_version@) + "}"@
}

/// A report as a JSON object, fields in declaration order.
pub open spec fn report_json(rep: VarianceReport) -> Seq<char> {
    "{\"schema_version\":"@ + json_quote(rep.schema_version@) + ",\"variances\":"@
        + variances_json(variances_view(rep.variances@)) + ",\"summary_hash\":"@ + json_quote(
        rep.summary_hash@,
    ) + "}"@
}

fn write_attributes(out: &mut String, attrs: &AttributeMap)
    ensures
        final(out)@ == old(out)@ + attributes_json(attrs@),
{
    let ghost start = out@;
    let ghost parts = attrs@.map_values(
        |e: (Seq<char>, Seq<char>)| json_quote(e.0) + seq![':'] + json_quote(e.1),
    );
    push_char(out, '{');
    let mut i: usize = 0;
    while i < attrs.len()
        invariant
            i <= attrs@.len(),
            parts == attrs@.map_values(
                |e: (Seq<char>, Seq<char>)| json_quote(e.0) + seq![':'] + json_quote(e.1),
            ),
            out@ == start + seq!['{'] + comma_joined(parts.take(i as int)),
        decreases attrs@.len() - i,
    {
        proof {
            assert(parts.take(i + 1).drop_last() =~= parts.take(i as int));
        }
        if i > 0 {
            push_char(out, ',');
        }
        let (k, v) = attrs.entry(i);
        write_json_str(out, k.as_str());
        push_char(out, ':');
        write_json_str(out, v.as_str());
        proof {
            if i == 0 {
                assert(comma_joined(parts.take(1)) == parts[0]);
            }
            assert(out@ =~= start + seq!['{'] + comma_joined(parts.take(i + 1)));
        }
        i = i + 1;
    }
    push_char(out, '}');
    proof {
        assert(parts.take(i as int) =~= parts);
        assert(out@ =~= start + attributes_json(attrs@));
    }
}

/// Appends a record as a JSON object.
pub fn write_record(out: &mut String, r: &NormalizedRecord)
    ensures
        final(out)@ == old(out)@ + record_json(r@),
{
    let ghost start = out@;
    push_text(out, "{\"record_id\":");
    write_json_str(out, r.record_id.as_str());
    push_text(out, ",\"source\":");
    write_json_str(out, r.source.as_str());
    push_text(out, ",\"timestamp\":");
    write_json_str(out, r.timestamp.as_str());
    push_text(out, ",\"amount_minor_units\":");
    let d = decimal_string(r.amount_minor_units);
    push_text(out, d.as_str());
    push_text(out, ",\"currency\":");
    write_json_str(out, r.currency.as_str());
    push_text(out, ",\"attributes\":");
    write_attributes(out, &r.attributes);
    push_text(out, ",\"schema_version\":");
    write_json_str(out, r.schema_version.as_str());
    push_text(out, "}");
    proof {
        assert(out@ =~= start + record_json(r@));
    }
}

/// Serialises a list of records as a JSON array.
pub fn records_to_json(rs: &[NormalizedRecord]) -> (r: String)
    ensures
        r@ == records_json(crate::canonical::records_view(rs@)),
{
    let ghost parts = crate::canonical::records_view(rs@).map_values(|r: RecordModel| record_json(r));
    let mut out = String::new();
    push_char(&mut out, '[');
    let mut i: usize = 0;
    while i < rs.len()
        invariant
            i <= rs@.len(),
            parts == crate::canonical::records_view(rs@).map_values(|r: RecordModel| record_json(r)),
            out@ == seq!['['] + comma_joined(parts.take(i as int)),
        decreases rs@.len() - i,
    {
        proof {
            assert(parts.take(i + 1).drop_last() =~= parts.take(i as int));
        }
        if i > 0 {
            push_char(&mut out, ',');
        }
        write_record(&mut out, &rs[i]);
        proof {
            if i == 0 {
                assert(comma_joined(parts.take(1)) == parts[0]);
            }
            assert(out@ =~= seq!['['] + comma_joined(parts.take(i + 1)));
        }
        i = i + 1;
    }
    push_char(&mut out, ']');
    proof {
        assert(parts.take(i as int) =~= parts);
    }
    out
}

fn write_strings(out: &mut String, ss: &[String])
    ensures
        final(out)@ == old(out)@ + strings_json(ss@),
{
    let ghost start = out@;
    let ghost parts = ss@.map_values(|s: String| json_quote(s@));
    push_char(out, '[');
    let mut i: usize = 0;
    while i < ss.len()
        invariant
            i <= ss@.len(),
            parts == ss@.map_values(|s: String| json_quote(s@)),
            out@ == start + seq!['['] + comma_joined(parts.take(i as int)),
        decreases ss@.len() - i,
    {
        proof {
            assert(parts.take(i + 1).drop_last() =~= parts.take(i as int));
        }
        if i > 0 {
            push_char(out, ',');
        }
        write_json_str(out, ss[i].as_str());
        proof {
            if i == 0 {
                assert(comma_joined(parts.take(1)) == parts[0]);
            }
            assert(out@ =~= start + seq!['['] + comma_joined(parts.take(i + 1)));
        }
        i = i + 1;
    }
    push_char(out, ']');
    proof {
        assert(parts.take(i as int) =~= parts);
        assert(out@ =~= start + strings_json(ss@));
    }
}

fn mode_str(m: RoundingMode) -> (r: &'static str)
    ensures
        r@ == mode_text(m),
{
    match m {
        RoundingMode::Down => "down",
        RoundingMode::Up => "up",
        RoundingMode::Nearest => "nearest",
        RoundingMode::TowardZero => "toward_zero",
        RoundingMode::AwayFromZero => "away_from_zero",
    }
}

/// Serialises a ruleset as a JSON object.
pub fn ruleset_to_json(rs: &Ruleset) -> (r: String)
    ensures
        r@ == ruleset_json(*rs),
{
    let mut out = String::new();
    push_text(&mut out, "{\"match_keys\":");
    write_strings(&mut out, rs.match_keys.as_slice());
    push_text(&mut out, ",\"compare_keys\":");
    write_strings(&mut out, rs.compare_keys.as_slice());
    push_text(&mut out, ",\"tolerance_minor_units\":");
    let t = decimal_string(rs.tolerance_minor_units);
    push_text(&mut out, t.as_str());
    push_text(&mut out, ",\"rounding\":{\"mode\":");
    write_json_str(&mut out, mode_str(rs.rounding.mode));
    push_text(&mut out, ",\"increment_minor_units\":");
    let inc = decimal_string(rs.rounding.increment_minor_units);
    push_text(&mut out, inc.as_str());
    push_text(&mut out, "},\"timezone\":");
    write_json_str(&mut out, rs.timezone.as_str());
    push_text(&mut out, ",\"schema_version\":");
    write_json_str(&mut out, rs.schema_version.as_str());
    push_text(&mut out, "}");
    proof {
        reveal_strlit(",\"rounding\":{\"mode\":");
        reveal_strlit(",\"rounding\":");
        reveal_strlit("{\"mode\":");
        reveal_strlit("},\"timezone\":");
        reveal_strlit("}");
        reveal_strlit(",\"timezone\":");
        assert(",\"rounding\":{\"mode\":"@ =~= ",\"rounding\":"@ + "{\"mode\":"@);
        assert("},\"timezone\":"@ =~= "}"@ + ",\"timezone\":"@);
        assert(out@ =~= ruleset_json(*rs));
    }
    out
}

/// Serialises a report as a JSON object.
pub fn report_to_json(rep: &VarianceReport) -> (r: String)
    ensures
        r@ == report_json(*rep),
{
    let mut out = String::new();
    push_text(&mut out, "{\"schema_version\":");
    write_json_str(&mut out, rep.schema_version.as_str());
    push_text(&mut out, ",\"variances\":");
    let vs = variances_to_json(rep.variances.as_slice());
    push_text(&mut out, vs.as_str());
    push_text(&mut out, ",\"summary_hash\":");
    write_json_str(&mut out, rep.summary_hash.as_str());
    push_text(&mut out, "}");
    proof {
        assert(out@ =~= report_json(*rep));
    }
    out
}

} // verus!
