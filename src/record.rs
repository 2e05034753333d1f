use vstd::prelude::*;
use crate::attributes::{AttributeMap, lookup};
use crate::model::{KernelError, RoundingRule};
use crate::text::{decimal, decimal_string, push_char, push_text, strip_prefix, text_eq};

verus! {

/// One financial record of either side.
#[derive(Debug, Clone, PartialEq, Eq)]
pub struct NormalizedRecord {
    pub record_id: String,
    pub source: String,
    pub timestamp: String,
    pub amount_minor_units: i64,
    pub currency: String,
    pub attributes: AttributeMap,
    pub schema_version: String,
}

/// What a record holds, as plain mathematical values.
pub struct RecordModel {
    pub record_id: Seq<char>,
    pub source: Seq<char>,
    pub timestamp: Seq<char>,
    pub amount_minor_units: i64,
    pub currency: Seq<char>,
    pub attributes: Seq<(Seq<char>, Seq<char>)>,
    pub schema_version: Seq<char>,
}

impl View for NormalizedRecord {
    type V = RecordModel;

    open spec fn view(&self) -> RecordModel {
        RecordModel {
            record_id: self.record_id@,
            source: self.source@,
            timestamp: self.timestamp@,
            amount_minor_units: self.amount_minor_units,
            currency: self.currency@,
            attributes: self.attributes@,
            schema_version: self.schema_version@,
        }
    }
}

/// How two sides are joined and compared.
#[derive(Debug, Clone, PartialEq, Eq)]
pub struct Ruleset {
    pub match_keys: Vec<String>,
    pub compare_keys: Vec<String>,
    pub tolerance_minor_units: i64,
    pub rounding: RoundingRule,
    pub timezone: String,
    pub schema_version: String,
}

/// A field of a record that a ruleset can name.
#[derive(Debug, Clone, PartialEq, Eq)]
pub enum Selector {
    RecordId,
    Source,
    Timestamp,
    AmountMinorUnits,
    Currency,
    Attribute(String),
}

/// The wire text of a selector.
pub open spec fn selector_text(sel: Selector) -> Seq<char> {
    match sel {
        Selector::RecordId => "record_id"@,
        Selector::Source => "source"@,
        Selector::Timestamp => "timestamp"@,
        Selector::AmountMinorUnits => "amount_minor_units"@,
        Selector::Currency => "currency"@,
        Selector::Attribute(name) => "attributes."@ + name@,
    }
}

/// Whether `s` names a field: one of the five fixed names, or `attributes.`
/// followed by an attribute name.
pub open spec fn is_selector(s: Seq<char>) -> bool {
    s == "record_id"@ || s == "source"@ || s == "timestamp"@ || s == "amount_minor_units"@
        || s == "currency"@ || ("attributes."@.len() <= s.len() && s.take(
        "attributes."@.len() as int,
    ) == "attributes."@)
}

/// Reads a selector from its wire text.
pub fn parse_selector(s: &str) -> (r: Option<Selector>)
    ensures
        r is Some <==> is_selector(s@),
        r is Some ==> selector_text(r->0) == s@,
{
    if text_eq(s, "record_id") {
        Some(Selector::RecordId)
    } else if text_eq(s, "source") {
        Some(Selector::Source)
    } else if text_eq(s, "timestamp") {
        Some(Selector::Timestamp)
    } else if text_eq(s, "amount_minor_units") {
        Some(Selector::AmountMinorUnits)
    } else if text_eq(s, "currency") {
        Some(Selector::Currency)
    } else {
        match strip_prefix(s, "attributes.") {
            Some(name) => {
                let n = name.to_owned();
                proof {
                    assert(s@ =~= "attributes."@ + n@);
                }
                Some(Selector::Attribute(n))
            },
            None => None,
        }
    }
}

/// Whether every key names a field.
pub open spec fn all_selectors(keys: Seq<String>) -> bool {
    forall|j: int| 0 <= j < keys.len() ==> is_selector(#[trigger] keys[j]@)
}

/// Whether `sels` are the selectors that `keys` spell, one for one.
pub open spec fn parsed_as(sels: Seq<Selector>, keys: Seq<String>) -> bool {
    sels.len() == keys.len() && forall|j: int|
        0 <= j < keys.len() ==> selector_text(#[trigger] sels[j]) == keys[j]@
}

/// Whether `e` reports the first key of `keys` that names no field, as a
/// match key or as a compare key according to `for_match`.
pub open spec fn reports_first_unknown(keys: Seq<String>, e: KernelError, for_match: bool) -> bool {
    exists|j: int|
        0 <= j < keys.len() && !is_selector(#[trigger] keys[j]@) && (forall|m: int|
            0 <= m < j ==> is_selector(#[trigger] keys[m]@)) && (match e {
            KernelError::MissingMatchKey(t) => for_match && t@ == keys[j]@,
            KernelError::MissingCompareKey(t) => !for_match && t@ == keys[j]@,
            KernelError::InvalidRoundingIncrement => false,
        })
}

/// Parses every selector of `keys`; the first one that names no field is
/// reported, as a match key or as a compare key according to `for_match`.
pub fn parse_selectors(keys: &[String], for_match: bool) -> (r: Result<Vec<Selector>, KernelError>)
    ensures
        r is Ok <==> all_selectors(keys@),
        r is Ok ==> parsed_as(r->Ok_0@, keys@),
        r is Err ==> reports_first_unknown(keys@, r->Err_0, for_match),
{
    let mut out: Vec<Selector> = Vec::new();
    let mut i: usize = 0;
    while i < keys.len()
        invariant
            i <= keys@.len(),
            out@.len() == i,
            forall|m: int| 0 <= m < i ==> is_selector(#[trigger] keys@[m]@),
            forall|m: int| 0 <= m < i ==> selector_text(#[trigger] out@[m]) == keys@[m]@,
        decreases keys@.len() - i,
    {
        match parse_selector(keys[i].as_str()) {
            Some(sel) => {
                out.push(sel);
            },
            None => {
                let t = keys[i].clone();
                if for_match {
                    return Err(KernelError::MissingMatchKey(t));
                } else {
                    return Err(KernelError::MissingCompareKey(t));
                }
            },
        }
        i = i + 1;
    }
    Ok(out)
}

/// The text a selector reads from a record; a missing attribute reads as empty.
pub open spec fn field_value(rec: RecordModel, sel: Selector) -> Seq<char> {
    match sel {
        Selector::RecordId => rec.record_id,
        Selector::Source => rec.source,
        Selector::Timestamp => rec.timestamp,
        Selector::AmountMinorUnits => decimal(rec.amount_minor_units as int),
        Selector::Currency => rec.currency,
        Selector::Attribute(name) => lookup(rec.attributes, name@),
    }
}

/// Reads the field that `sel` names.
pub fn read_field(rec: &NormalizedRecord, sel: &Selector) -> (r: String)
    ensures
        r@ == field_value(rec@, *sel),
{
    match sel {
        Selector::RecordId => rec.record_id.clone(),
        Selector::Source => rec.source.clone(),
        Selector::Timestamp => rec.timestamp.clone(),
        Selector::AmountMinorUnits => decimal_string(rec.amount_minor_units),
        Selector::Currency => rec.currency.clone(),
        Selector::Attribute(name) => rec.attributes.get_or_empty(name.as_str()),
    }
}

/// The match key: the selected field values joined by `|`.
pub open spec fn match_key(rec: RecordModel, sels: Seq<Selector>) -> Seq<char>
    decreases sels.len(),
{
    if sels.len() == 0 {
        Seq::empty()
    } else if sels.len() == 1 {
        field_value(rec, sels[0])
    } else {
        match_key(rec, sels.drop_last()).push('|') + field_value(rec, sels.last())
    }
}

/// Builds the match key of `rec` under the parsed selectors `sels`.
pub fn build_match_key(rec: &NormalizedRecord, sels: &[Selector]) -> (r: String)
    ensures
        r@ == match_key(rec@, sels@),
{
    let mut out = String::new();
    let mut i: usize = 0;
    while i < sels.len()
        invariant
            i <= sels@.len(),
            out@ == match_key(rec@, sels@.take(i as int)),
        decreases sels@.len() - i,
    {
        let v = read_field(rec, &sels[i]);
        proof {
            assert(sels@.take(i + 1).drop_last() =~= sels@.take(i as int));
        }
        if i > 0 {
            push_char(&mut out, '|');
        }
        push_text(&mut out, v.as_str());
        proof {
            if i == 0 {
                assert(out@ =~= v@);
            }
        }
        i = i + 1;
    }
    proof {
        assert(sels@.take(i as int) =~= sels@);
    }
    out
}

/// Two selectors with the same wire text read the same field.
pub proof fn lemma_selector_text_determines(a: Selector, b: Selector, rec: RecordModel)
    requires
        selector_text(a) == selector_text(b),
    ensures
        field_value(rec, a) == field_value(rec, b),
        (a is AmountMinorUnits) == (b is AmountMinorUnits),
{
    reveal_strlit("record_id");
    reveal_strlit("source");
    reveal_strlit("timestamp");
    reveal_strlit("amount_minor_units");
    reveal_strlit("currency");
    reveal_strlit("attributes.");
    let p = "attributes."@;
    assert("record_id"@[0] == 'r');
    assert("source"@[0] == 's');
    assert("timestamp"@[0] == 't');
    assert("amount_minor_units"@[0] == 'a' && "amount_minor_units"@[1] == 'm');
    assert("currency"@[0] == 'c');
    assert(p[0] == 'a' && p[1] == 't');
    match (a, b) {
        (Selector::Attribute(x), Selector::Attribute(y)) => {
            assert(x@ =~= (p + x@).skip(11));
            assert(y@ =~= (p + y@).skip(11));
        },
        (Selector::Attribute(x), _) => {
            assert((p + x@)[1] == 't');
            assert((p + x@).len() >= 11);
        },
        (_, Selector::Attribute(y)) => {
            assert((p + y@)[1] == 't');
            assert((p + y@).len() >= 11);
        },
        _ => {
            assert(selector_text(a)[0] == selector_text(b)[0]);
        },
    }
}

/// Selectors spelled alike build the same match key.
pub proof fn lemma_match_key_by_text(rec: RecordModel, s1: Seq<Selector>, s2: Seq<Selector>)
    requires
        s1.len() == s2.len(),
        forall|j: int| 0 <= j < s1.len() ==> selector_text(#[trigger] s1[j]) == selector_text(s2[j]),
    ensures
        match_key(rec, s1) == match_key(rec, s2),
    decreases s1.len(),
{
    if s1.len() > 0 {
        lemma_match_key_by_text(rec, s1.drop_last(), s2.drop_last());
        lemma_selector_text_determines(s1.last(), s2.last(), rec);
        if s1.len() == 1 {
            lemma_selector_text_determines(s1[0], s2[0], rec);
        }
    }
}

} // verus!
