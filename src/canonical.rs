use vstd::prelude::*;
use std::cmp::Ordering;
use crate::record::{NormalizedRecord, RecordModel, Selector, build_match_key, match_key};
use crate::text::{text_cmp, text_less, text_lt};

verus! {

/// `x` placed into `s` after every element that does not come after it.
pub open spec fn insert_by<A>(s: Seq<A>, x: A, lt: spec_fn(A, A) -> bool) -> Seq<A>
    decreases s.len(),
{
    if s.len() == 0 {
        seq![x]
    } else if lt(x, s.last()) {
        insert_by(s.drop_last(), x, lt).push(s.last())
    } else {
        s.push(x)
    }
}

/// Stable insertion sort of `s` under the strict order `lt`: elements that
/// neither precedes keep their order in `s`.
pub open spec fn sort_by<A>(s: Seq<A>, lt: spec_fn(A, A) -> bool) -> Seq<A>
    decreases s.len(),
{
    if s.len() == 0 {
        Seq::empty()
    } else {
        insert_by(sort_by(s.drop_last(), lt), s.last(), lt)
    }
}

/// Where `x` goes in `s`: after `s[..j]`, before the tail that comes after it.
pub proof fn lemma_insert_by_at<A>(s: Seq<A>, x: A, lt: spec_fn(A, A) -> bool, j: int)
    requires
        0 <= j <= s.len(),
        forall|m: int| j <= m < s.len() ==> lt(x, #[trigger] s[m]),
        j == 0 || !lt(x, s[j - 1]),
    ensures
        insert_by(s, x, lt) == s.insert(j, x),
    decreases s.len(),
{
    if s.len() == 0 {
        assert(s.insert(j, x) =~= seq![x]);
    } else if j == s.len() {
        assert(s.insert(j, x) =~= s.push(x));
    } else {
        lemma_insert_by_at(s.drop_last(), x, lt, j);
        assert(s.insert(j, x) =~= s.drop_last().insert(j, x).push(s.last()));
    }
}

pub proof fn lemma_insert_by_multiset<A>(s: Seq<A>, x: A, lt: spec_fn(A, A) -> bool)
    ensures
        insert_by(s, x, lt).to_multiset() =~= s.to_multiset().insert(x),
    decreases s.len(),
{
    broadcast use vstd::seq_lib::group_to_multiset_ensures;

    if s.len() > 0 {
        assert(s =~= s.drop_last().push(s.last()));
        if lt(x, s.last()) {
            lemma_insert_by_multiset(s.drop_last(), x, lt);
        }
    }
}

/// Sorting only reorders: the result holds the same elements, as often.
pub proof fn lemma_sort_by_multiset<A>(s: Seq<A>, lt: spec_fn(A, A) -> bool)
    ensures
        sort_by(s, lt).to_multiset() =~= s.to_multiset(),
    decreases s.len(),
{
    broadcast use vstd::seq_lib::group_to_multiset_ensures;

    if s.len() > 0 {
        lemma_sort_by_multiset(s.drop_last(), lt);
        lemma_insert_by_multiset(sort_by(s.drop_last(), lt), s.last(), lt);
        assert(s =~= s.drop_last().push(s.last()));
    }
}

/// Every element of the sorted sequence is an element of the input.
pub proof fn lemma_sort_by_from<A>(s: Seq<A>, lt: spec_fn(A, A) -> bool, k: int)
    requires
        0 <= k < sort_by(s, lt).len(),
    ensures
        s.contains(sort_by(s, lt)[k]),
{
    broadcast use vstd::seq_lib::group_to_multiset_ensures;

    lemma_sort_by_multiset(s, lt);
    let x = sort_by(s, lt)[k];
    assert(sort_by(s, lt).contains(x));
    assert(sort_by(s, lt).to_multiset().count(x) > 0);
    assert(s.to_multiset().count(x) > 0);
}

/// No element is followed by one that comes before it.
pub open spec fn sorted_by<A>(s: Seq<A>, lt: spec_fn(A, A) -> bool) -> bool {
    forall|i: int, j: int| 0 <= i < j < s.len() ==> !lt(#[trigger] s[j], #[trigger] s[i])
}

/// `lt` is a strict order, and any two different elements of `s` are ordered.
pub open spec fn total_on<A>(s: Seq<A>, lt: spec_fn(A, A) -> bool) -> bool {
    &&& forall|a: A, b: A, c: A| #[trigger] lt(a, b) && #[trigger] lt(b, c) ==> lt(a, c)
    &&& forall|a: A| !#[trigger] lt(a, a)
    &&& forall|a: A, b: A| #[trigger] s.contains(a) && #[trigger] s.contains(b) && a != b ==> lt(a, b) || lt(b, a)
}

proof fn lemma_insert_by_sorted<A>(s: Seq<A>, x: A, lt: spec_fn(A, A) -> bool, whole: Seq<A>)
    requires
        sorted_by(s, lt),
        total_on(whole, lt),
        whole.contains(x),
        forall|k: int| 0 <= k < s.len() ==> whole.contains(#[trigger] s[k]),
    ensures
        sorted_by(insert_by(s, x, lt), lt),
        forall|k: int| 0 <= k < insert_by(s, x, lt).len() ==> whole.contains(#[trigger] insert_by(s, x, lt)[k]),
    decreases s.len(),
{
    broadcast use vstd::seq_lib::group_to_multiset_ensures;

    if s.len() == 0 {
    } else if lt(x, s.last()) {
        let t = insert_by(s.drop_last(), x, lt);
        lemma_insert_by_sorted(s.drop_last(), x, lt, whole);
        lemma_insert_by_multiset(s.drop_last(), x, lt);
        let last = s.last();
        assert forall|i: int| 0 <= i < t.len() implies !lt(last, #[trigger] t[i]) by {
            assert(t.contains(t[i]));
            assert(t.to_multiset().count(t[i]) > 0);
            if t[i] != x {
                assert(s.drop_last().to_multiset().count(t[i]) > 0);
                assert(s.drop_last().contains(t[i]));
                let m = choose|m: int| 0 <= m < s.drop_last().len() && s.drop_last()[m] == t[i];
                assert(s[m] == t[i]);
                assert(!lt(s[s.len() - 1], s[m]));
            }
        }
        assert forall|i: int, j: int| 0 <= i < j < t.push(last).len() implies !lt(
            #[trigger] t.push(last)[j],
            #[trigger] t.push(last)[i],
        ) by {
            if j < t.len() {
                assert(t.push(last)[j] == t[j] && t.push(last)[i] == t[i]);
            }
        }
        assert(whole.contains(s[s.len() - 1]));
    } else {
        assert forall|i: int, j: int| 0 <= i < j < s.push(x).len() implies !lt(
            #[trigger] s.push(x)[j],
            #[trigger] s.push(x)[i],
        ) by {
            if j == s.len() {
                let y = s[i];
                let z = s[s.len() - 1];
                assert(whole.contains(y) && whole.contains(z));
                if i < s.len() - 1 {
                    assert(!lt(z, y));
                }
                if lt(x, y) {
                    if y == z {
                    } else {
                        assert(lt(y, z) || lt(z, y));
                        if lt(y, z) {
                            assert(lt(x, z));
                        }
                    }
                }
            } else {
                assert(s.push(x)[j] == s[j] && s.push(x)[i] == s[i]);
            }
        }
    }
}

/// The sort's result is sorted, where the order is total on the input.
pub proof fn lemma_sort_by_sorted<A>(s: Seq<A>, lt: spec_fn(A, A) -> bool)
    requires
        total_on(s, lt),
    ensures
        sorted_by(sort_by(s, lt), lt),
    decreases s.len(),
{
    lemma_sort_by_sorted_in(s, lt, s);
}

proof fn lemma_sort_by_sorted_in<A>(s: Seq<A>, lt: spec_fn(A, A) -> bool, whole: Seq<A>)
    requires
        total_on(whole, lt),
        forall|k: int| 0 <= k < s.len() ==> whole.contains(#[trigger] s[k]),
    ensures
        sorted_by(sort_by(s, lt), lt),
        forall|k: int| 0 <= k < sort_by(s, lt).len() ==> whole.contains(#[trigger] sort_by(s, lt)[k]),
    decreases s.len(),
{
    if s.len() > 0 {
        assert forall|k: int| 0 <= k < s.drop_last().len() implies whole.contains(
            #[trigger] s.drop_last()[k],
        ) by {
            assert(s.drop_last()[k] == s[k]);
        }
        lemma_sort_by_sorted_in(s.drop_last(), lt, whole);
        assert(whole.contains(s[s.len() - 1]));
        lemma_insert_by_sorted(sort_by(s.drop_last(), lt), s.last(), lt, whole);
    }
}

/// Two sorted sequences with the same elements, under an order total on
/// them, are the same sequence.
pub proof fn lemma_sorted_unique<A>(a: Seq<A>, b: Seq<A>, lt: spec_fn(A, A) -> bool)
    requires
        sorted_by(a, lt),
        sorted_by(b, lt),
        a.to_multiset() == b.to_multiset(),
        total_on(a, lt),
    ensures
        a == b,
    decreases a.len(),
{
    broadcast use vstd::seq_lib::group_to_multiset_ensures;

    vstd::seq_lib::to_multiset_len(a);
    vstd::seq_lib::to_multiset_len(b);
    if a.len() == 0 {
        assert(b.len() == 0);
        assert(a =~= b);
    } else {
        assert(b.len() == a.len());
        let x = a[0];
        let y = b[0];
        assert(a.contains(x));
        assert(b.contains(y));
        assert(b.to_multiset().count(y) > 0);
        assert(a.contains(y));
        assert(a.to_multiset().count(x) > 0);
        assert(b.contains(x));
        let p = choose|p: int| 0 <= p < a.len() && a[p] == y;
        let q = choose|q: int| 0 <= q < b.len() && b[q] == x;
        if p > 0 {
            assert(!lt(a[p], a[0]));
        }
        if q > 0 {
            assert(!lt(b[q], b[0]));
        }
        assert(x == y);
        let a1 = a.drop_first();
        let b1 = b.drop_first();
        assert(a.remove(0) =~= a1);
        assert(b.remove(0) =~= b1);
        assert(a1.to_multiset() == b1.to_multiset());
        assert forall|i: int, j: int| 0 <= i < j < a1.len() implies !lt(#[trigger] a1[j], #[trigger] a1[i]) by {
            assert(a1[j] == a[j + 1] && a1[i] == a[i + 1]);
        }
        assert forall|i: int, j: int| 0 <= i < j < b1.len() implies !lt(#[trigger] b1[j], #[trigger] b1[i]) by {
            assert(b1[j] == b[j + 1] && b1[i] == b[i + 1]);
        }
        assert forall|u: A, v: A| a1.contains(u) && a1.contains(v) && u != v implies lt(u, v) || lt(v, u) by {
            let i = choose|i: int| 0 <= i < a1.len() && a1[i] == u;
            let j = choose|j: int| 0 <= j < a1.len() && a1[j] == v;
            assert(a[i + 1] == u && a[j + 1] == v);
            assert(a.contains(u) && a.contains(v));
        }
        lemma_sorted_unique(a1, b1, lt);
        assert(a =~= b) by {
            assert forall|i: int| 0 <= i < a.len() implies a[i] == b[i] by {
                if i > 0 {
                    assert(a[i] == a1[i - 1] && b[i] == b1[i - 1]);
                }
            }
        }
    }
}

/// Mapping a function over two sequences with the same elements gives two
/// sequences with the same elements.
pub proof fn lemma_map_multiset<A, B>(s1: Seq<A>, s2: Seq<A>, f: spec_fn(A) -> B)
    requires
        s1.to_multiset() == s2.to_multiset(),
    ensures
        s1.map_values(f).to_multiset() == s2.map_values(f).to_multiset(),
    decreases s1.len(),
{
    broadcast use vstd::seq_lib::group_to_multiset_ensures;
    broadcast use vstd::multiset::group_multiset_axioms;

    vstd::seq_lib::to_multiset_len(s1);
    vstd::seq_lib::to_multiset_len(s2);
    if s1.len() == 0 {
        assert(s1.map_values(f) =~= Seq::<B>::empty());
        assert(s2.map_values(f) =~= Seq::<B>::empty());
    } else {
        let x = s1.last();
        assert(s1.contains(x));
        assert(s1.to_multiset().count(x) > 0);
        assert(s2.contains(x));
        let k = choose|k: int| 0 <= k < s2.len() && s2[k] == x;
        let s1p = s1.drop_last();
        let s2p = s2.remove(k);
        assert(s1 =~= s1p.push(x));
        assert(s1p.to_multiset() =~= s2p.to_multiset());
        lemma_map_multiset(s1p, s2p, f);
        let m1 = s1.map_values(f);
        let m2 = s2.map_values(f);
        assert(m1 =~= s1p.map_values(f).push(f(x)));
        assert(s2p.map_values(f) =~= m2.remove(k));
        assert(m2[k] == f(x));
        assert(m2.contains(f(x)));
        assert(m2.to_multiset().count(f(x)) > 0);
        assert(m1.to_multiset() =~= m2.to_multiset());
    }
}

/// Order of (match key, record) pairs: by key, then by record id.
pub open spec fn keyed_lt(a: (Seq<char>, RecordModel), b: (Seq<char>, RecordModel)) -> bool {
    text_lt(a.0, b.0) || (a.0 == b.0 && text_lt(a.1.record_id, b.1.record_id))
}

pub open spec fn keyed_view(s: Seq<(String, NormalizedRecord)>) -> Seq<(Seq<char>, RecordModel)> {
    s.map_values(|e: (String, NormalizedRecord)| (e.0@, e.1@))
}

pub open spec fn records_view(s: Seq<NormalizedRecord>) -> Seq<RecordModel> {
    s.map_values(|r: NormalizedRecord| r@)
}

/// Each record paired with its match key, in input order.
pub open spec fn keyed(s: Seq<RecordModel>, sels: Seq<Selector>) -> Seq<(Seq<char>, RecordModel)> {
    s.map_values(|r: RecordModel| (match_key(r, sels), r))
}

/// The records paired with their match keys, sorted by key and then record id.
pub open spec fn keyed_sorted(s: Seq<RecordModel>, sels: Seq<Selector>) -> Seq<(Seq<char>, RecordModel)> {
    sort_by(keyed(s, sels), |a, b| keyed_lt(a, b))
}

/// A value-equal copy of `rec`, its attributes in ascending key order.
pub fn canonicalize_record(rec: &NormalizedRecord) -> (r: NormalizedRecord)
    ensures
        r@ == rec@,
{
    NormalizedRecord {
        record_id: rec.record_id.clone(),
        source: rec.source.clone(),
        timestamp: rec.timestamp.clone(),
        amount_minor_units: rec.amount_minor_units,
        currency: rec.currency.clone(),
        attributes: rec.attributes.copy(),
        schema_version: rec.schema_version.clone(),
    }
}

fn keyed_less(a: &(String, NormalizedRecord), b: &(String, NormalizedRecord)) -> (r: bool)
    ensures
        r == keyed_lt((a.0@, a.1@), (b.0@, b.1@)),
{
    proof {
        crate::text::lemma_bytes_lt_asymmetric(
            vstd::utf8::encode_utf8(a.0@),
            vstd::utf8::encode_utf8(b.0@),
        );
        crate::text::lemma_bytes_lt_irreflexive(vstd::utf8::encode_utf8(a.0@));
    }
    match text_cmp(a.0.as_str(), b.0.as_str()) {
        Ordering::Less => true,
        Ordering::Greater => false,
        Ordering::Equal => text_less(a.1.record_id.as_str(), b.1.record_id.as_str()),
    }
}

/// Canonicalizes every record, pairs it with its match key under `sels`, and
/// sorts by (key, record id).
pub fn canonicalize_and_sort(records: &[NormalizedRecord], sels: &[Selector]) -> (r: Vec<(String, NormalizedRecord)>)
    ensures
        keyed_view(r@) == keyed_sorted(records_view(records@), sels@),
{
    let ghost lt = |a: (Seq<char>, RecordModel), b: (Seq<char>, RecordModel)| keyed_lt(a, b);
    let ghost input = keyed(records_view(records@), sels@);
    let mut out: Vec<(String, NormalizedRecord)> = Vec::new();
    let mut i: usize = 0;
    proof {
        assert(keyed_view(out@) =~= sort_by(input.take(0), lt));
    }
    while i < records.len()
        invariant
            i <= records@.len(),
            input == keyed(records_view(records@), sels@),
            input.len() == records@.len(),
            lt == (|a: (Seq<char>, RecordModel), b: (Seq<char>, RecordModel)| keyed_lt(a, b)),
            keyed_view(out@) == sort_by(input.take(i as int), lt),
        decreases records@.len() - i,
    {
        let canonical = canonicalize_record(&records[i]);
        let key = build_match_key(&canonical, sels);
        let item = (key, canonical);
        let ghost s = keyed_view(out@);
        let ghost x = (item.0@, item.1@);
        proof {
            assert(x == input[i as int]);
            assert(input.take(i + 1).drop_last() =~= input.take(i as int));
        }
        let mut j: usize = out.len();
        while j > 0 && keyed_less(&item, &out[j - 1])
            invariant
                j <= out@.len(),
                s == keyed_view(out@),
                x == (item.0@, item.1@),
                lt == (|a: (Seq<char>, RecordModel), b: (Seq<char>, RecordModel)| keyed_lt(a, b)),
                forall|m: int| j <= m < s.len() ==> lt(x, #[trigger] s[m]),
            decreases j,
        {
            j = j - 1;
        }
        proof {
            lemma_insert_by_at(s, x, lt, j as int);
        }
        out.insert(j, item);
        proof {
            assert(keyed_view(out@) =~= s.insert(j as int, x));
        }
        i = i + 1;
    }
    proof {
        assert(input.take(i as int) =~= input);
    }
    out
}

} // verus!
