use vstd::prelude::*;
use crate::text::{text_less, text_eq, lemma_text_lt_total, text_lt, lemma_bytes_lt_irreflexive};

verus! {

/// The value stored under `k` in a list of entries: the first entry with that
/// key, or the empty string where there is none.
pub open spec fn lookup(s: Seq<(Seq<char>, Seq<char>)>, k: Seq<char>) -> Seq<char>
    decreases s.len(),
{
    if s.len() == 0 {
        Seq::empty()
    } else if s[0].0 == k {
        s[0].1
    } else {
        lookup(s.drop_first(), k)
    }
}

/// Keys strictly ascending in the order of `String`, so each key occurs once.
pub open spec fn keys_ascending(s: Seq<(Seq<char>, Seq<char>)>) -> bool {
    forall|j: int| 0 <= j < s.len() - 1 ==> #[trigger] text_lt(s[j].0, s[j + 1].0)
}

/// A string-to-string map whose entries always stand in ascending key order,
/// so that iterating it is the same on every run and platform.
#[derive(Debug, Clone, PartialEq, Eq)]
pub struct AttributeMap {
    entries: Vec<(String, String)>,
}

impl View for AttributeMap {
    type V = Seq<(Seq<char>, Seq<char>)>;

    closed spec fn view(&self) -> Seq<(Seq<char>, Seq<char>)> {
        self.entries@.map_values(|e: (String, String)| (e.0@, e.1@))
    }
}

proof fn lemma_lookup_skip(s: Seq<(Seq<char>, Seq<char>)>, k: Seq<char>, i: int)
    requires
        0 <= i <= s.len(),
        forall|m: int| 0 <= m < i ==> s[m].0 != k,
    ensures
        lookup(s, k) == lookup(s.skip(i), k),
    decreases i,
{
    if i > 0 {
        lemma_lookup_skip(s.drop_first(), k, i - 1);
        assert(s.drop_first().skip(i - 1) =~= s.skip(i));
    } else {
        assert(s.skip(0) =~= s);
    }
}

proof fn lemma_lookup_insert(
    s: Seq<(Seq<char>, Seq<char>)>,
    i: int,
    e: (Seq<char>, Seq<char>),
    k: Seq<char>,
)
    requires
        0 <= i <= s.len(),
        e.0 != k,
    ensures
        lookup(s.insert(i, e), k) == lookup(s, k),
    decreases i,
{
    if i == 0 {
        assert(s.insert(0, e).drop_first() =~= s);
    } else {
        lemma_lookup_insert(s.drop_first(), i - 1, e, k);
        assert(s.insert(i, e).drop_first() =~= s.drop_first().insert(i - 1, e));
    }
}

proof fn lemma_lookup_update(
    s: Seq<(Seq<char>, Seq<char>)>,
    i: int,
    e: (Seq<char>, Seq<char>),
    k: Seq<char>,
)
    requires
        0 <= i < s.len(),
        e.0 == s[i].0,
        e.0 != k,
    ensures
        lookup(s.update(i, e), k) == lookup(s, k),
    decreases i,
{
    if i > 0 {
        lemma_lookup_update(s.drop_first(), i - 1, e, k);
        assert(s.update(i, e).drop_first() =~= s.drop_first().update(i - 1, e));
    } else {
        assert(s.update(0, e).drop_first() =~= s.drop_first());
    }
}

impl AttributeMap {
    /// An empty map.
    pub fn new() -> (r: AttributeMap)
        ensures
            r@.len() == 0,
    {
        let r = AttributeMap { entries: Vec::new() };
        proof {
            assert(r@ =~= Seq::<(Seq<char>, Seq<char>)>::empty());
        }
        r
    }

    /// Number of entries.
    pub fn len(&self) -> (r: usize)
        ensures
            r == self@.len(),
    {
        self.entries.len()
    }

    /// Key and value of the entry at `i`, in ascending key order.
    pub fn entry(&self, i: usize) -> (r: (&String, &String))
        requires
            i < self@.len(),
        ensures
            r.0@ == self@[i as int].0,
            r.1@ == self@[i as int].1,
    {
        let e = &self.entries[i];
        (&e.0, &e.1)
    }

    /// Sets `key` to `value`, replacing an earlier value of the same key and
    /// keeping the entries in ascending key order.
    pub fn insert(&mut self, key: String, value: String)
        requires
            keys_ascending(old(self)@),
        ensures
            keys_ascending(final(self)@),
            lookup(final(self)@, key@) == value@,
            forall|k: Seq<char>| k != key@ ==> lookup(#[trigger] final(self)@, k) == lookup(old(self)@, k),
    {
        let ghost s = self@;
        let mut i: usize = 0;
        let n = self.entries.len();
        while i < n && text_less(self.entries[i].0.as_str(), key.as_str())
            invariant
                s == self@,
                n == self@.len(),
                i <= n,
                forall|m: int| 0 <= m < i ==> text_lt(#[trigger] s[m].0, key@),
            decreases n - i,
        {
            i = i + 1;
        }
        let ghost e = (key@, value@);
        proof {
            assert forall|m: int| 0 <= m < i implies s[m].0 != key@ by {
                if s[m].0 == key@ {
                    lemma_bytes_lt_irreflexive(vstd::utf8::encode_utf8(key@));
                }
            }
            lemma_lookup_skip(s, key@, i as int);
        }
        if i < n && text_eq(self.entries[i].0.as_str(), key.as_str()) {
            self.entries.set(i, (key, value));
            proof {
                assert(self@ =~= s.update(i as int, e));
                lemma_lookup_skip(self@, e.0, i as int);
                assert forall|k: Seq<char>| k != e.0 implies lookup(self@, k) == lookup(s, k) by {
                    lemma_lookup_update(s, i as int, e, k);
                }
            }
        } else {
            self.entries.insert(i, (key, value));
            proof {
                assert(self@ =~= s.insert(i as int, e));
                assert(forall|m: int| 0 <= m < i ==> self@[m].0 != e.0);
                lemma_lookup_skip(self@, e.0, i as int);
                assert(self@.skip(i as int)[0] == e);
                assert forall|k: Seq<char>| k != e.0 implies lookup(self@, k) == lookup(s, k) by {
                    lemma_lookup_insert(s, i as int, e, k);
                }
                assert forall|j: int| 0 <= j < self@.len() - 1 implies #[trigger] text_lt(
                    self@[j].0,
                    self@[j + 1].0,
                ) by {
                    if j < i - 1 {
                        assert(text_lt(s[j].0, s[j + 1].0));
                    } else if j == i - 1 {
                    } else if j == i {
                        lemma_text_lt_total(key@, s[j].0);
                    } else {
                        assert(text_lt(s[j - 1].0, s[(j - 1) + 1].0));
                    }
                }
            }
        }
    }

    /// An entry-for-entry copy.
    pub fn copy(&self) -> (r: AttributeMap)
        ensures
            r@ == self@,
    {
        let mut entries: Vec<(String, String)> = Vec::new();
        let mut i: usize = 0;
        while i < self.entries.len()
            invariant
                i <= self.entries@.len(),
                entries@.len() == i,
                forall|m: int| 0 <= m < i ==> (#[trigger] entries@[m]).0@ == self.entries@[m].0@
                    && entries@[m].1@ == self.entries@[m].1@,
            decreases self.entries@.len() - i,
        {
            let e = &self.entries[i];
            entries.push((e.0.clone(), e.1.clone()));
            i = i + 1;
        }
        let r = AttributeMap { entries };
        proof {
            assert(r@ =~= self@);
        }
        r
    }

    /// The value stored under `key`, or the empty string.
    pub fn get_or_empty(&self, key: &str) -> (r: String)
        ensures
            r@ == lookup(self@, key@),
    {
        let ghost s = self@;
        let mut i: usize = 0;
        proof {
            assert(s.skip(0) =~= s);
        }
        while i < self.entries.len()
            invariant
                s == self@,
                i <= s.len(),
                lookup(s, key@) == lookup(s.skip(i as int), key@),
            decreases s.len() - i,
        {
            let e = &self.entries[i];
            if text_eq(e.0.as_str(), key) {
                return e.1.clone();
            }
            proof {
                assert(s.skip(i as int).drop_first() =~= s.skip(i + 1));
            }
            i = i + 1;
        }
        String::new()
    }
}

} // verus!
