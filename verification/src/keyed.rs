//! Lists of records keyed by text, in which each key occurs once: the
//! model of the maps from paths to records that the commands build.
use vstd::prelude::*;

verus! {

/// No key occurs twice.
pub open spec fn distinct_keys<T>(s: Seq<(Seq<char>, T)>) -> bool {
    forall|i: int, j: int| 0 <= i < s.len() && 0 <= j < s.len() && i != j ==> #[trigger] s[i].0 != #[trigger] s[j].0
}

/// Some record has key `k`.
pub open spec fn has_key<T>(s: Seq<(Seq<char>, T)>, k: Seq<char>) -> bool {
    exists|i: int| 0 <= i < s.len() && #[trigger] s[i].0 == k
}

/// The position of a record with key `k`.
pub open spec fn key_index<T>(s: Seq<(Seq<char>, T)>, k: Seq<char>) -> int {
    choose|i: int| 0 <= i < s.len() && #[trigger] s[i].0 == k
}

/// The list after setting the record of `k` to `v`: it replaces the
/// record of `k` in place, else comes last (a map's `insert`).
pub open spec fn upsert<T>(s: Seq<(Seq<char>, T)>, k: Seq<char>, v: T) -> Seq<(Seq<char>, T)> {
    if has_key(s, k) {
        s.update(key_index(s, k), (k, v))
    } else {
        s.push((k, v))
    }
}

/// The list after setting each record of `recs` in turn.
pub open spec fn upsert_all<T>(s: Seq<(Seq<char>, T)>, recs: Seq<(Seq<char>, T)>) -> Seq<(Seq<char>, T)>
    decreases recs.len(),
{
    if recs.len() == 0 {
        s
    } else {
        let r = recs.last();
        upsert(upsert_all(s, recs.drop_last()), r.0, r.1)
    }
}

/// In a list of distinct keys, a record with key `k` at `i` is the one that
/// `key_index` picks, and setting a record keeps the keys distinct.
pub proof fn lemma_key_index_unique<T>(s: Seq<(Seq<char>, T)>, k: Seq<char>, i: int)
    requires
        distinct_keys(s),
        0 <= i < s.len(),
        s[i].0 == k,
    ensures
        has_key(s, k),
        key_index(s, k) == i,
{
    assert(has_key(s, k));
    let j = key_index(s, k);
    assert(s[j].0 == k);
}

/// Setting a record keeps the keys distinct.
pub proof fn lemma_upsert_distinct<T>(s: Seq<(Seq<char>, T)>, k: Seq<char>, v: T)
    requires
        distinct_keys(s),
    ensures
        distinct_keys(upsert(s, k, v)),
{
    let t = upsert(s, k, v);
    if has_key(s, k) {
        let j = key_index(s, k);
        assert(s[j].0 == k);
        assert forall|a: int, b: int| 0 <= a < t.len() && 0 <= b < t.len() && a != b implies #[trigger] t[a].0 != #[trigger] t[b].0 by {
            assert(t[a].0 == s[a].0);
            assert(t[b].0 == s[b].0);
        }
    } else {
        assert forall|a: int, b: int| 0 <= a < t.len() && 0 <= b < t.len() && a != b implies #[trigger] t[a].0 != #[trigger] t[b].0 by {
            if a == s.len() {
                assert(t[b].0 == s[b].0);
            } else if b == s.len() {
                assert(t[a].0 == s[a].0);
            } else {
                assert(t[a].0 == s[a].0 && t[b].0 == s[b].0);
            }
        }
    }
}

/// The record of key `k`, if any.
pub open spec fn lookup<T>(s: Seq<(Seq<char>, T)>, k: Seq<char>) -> Option<T> {
    if has_key(s, k) {
        Some(s[key_index(s, k)].1)
    } else {
        None
    }
}

/// The value of the last record with key `k`, if any.
pub open spec fn last_value<T>(recs: Seq<(Seq<char>, T)>, k: Seq<char>) -> Option<T>
    decreases recs.len(),
{
    if recs.len() == 0 {
        None
    } else if recs.last().0 == k {
        Some(recs.last().1)
    } else {
        last_value(recs.drop_last(), k)
    }
}

/// After setting the record of `k`, `k` has that record and other keys
/// keep theirs.
pub proof fn lemma_lookup_upsert<T>(s: Seq<(Seq<char>, T)>, k: Seq<char>, v: T, q: Seq<char>)
    requires
        distinct_keys(s),
    ensures
        lookup(upsert(s, k, v), q) == (if q == k { Some(v) } else { lookup(s, q) }),
{
    let t = upsert(s, k, v);
    lemma_upsert_distinct(s, k, v);
    if has_key(s, k) {
        let j = key_index(s, k);
        assert(s[j].0 == k);
        if q == k {
            lemma_key_index_unique(t, k, j);
        } else if has_key(s, q) {
            let i = key_index(s, q);
            assert(s[i].0 == q);
            assert(t[i] == s[i]);
            lemma_key_index_unique(t, q, i);
        } else {
            if has_key(t, q) {
                let i = key_index(t, q);
                assert(t[i].0 == q);
                assert(s[i].0 == q);
            }
        }
    } else {
        if q == k {
            lemma_key_index_unique(t, k, s.len() as int);
        } else if has_key(s, q) {
            let i = key_index(s, q);
            assert(s[i].0 == q);
            assert(t[i] == s[i]);
            lemma_key_index_unique(t, q, i);
        } else {
            if has_key(t, q) {
                let i = key_index(t, q);
                assert(t[i].0 == q);
                if i < s.len() {
                    assert(s[i].0 == q);
                }
            }
        }
    }
}

/// After setting records in turn, a key has the value of its last record,
/// else the one it had.
pub proof fn lemma_lookup_upsert_all<T>(s: Seq<(Seq<char>, T)>, recs: Seq<(Seq<char>, T)>, q: Seq<char>)
    requires
        distinct_keys(s),
    ensures
        distinct_keys(upsert_all(s, recs)),
        lookup(upsert_all(s, recs), q) == (match last_value(recs, q) {
            Some(v) => Some(v),
            None => lookup(s, q),
        }),
    decreases recs.len(),
{
    if recs.len() > 0 {
        lemma_lookup_upsert_all(s, recs.drop_last(), q);
        let r = recs.last();
        lemma_lookup_upsert(upsert_all(s, recs.drop_last()), r.0, r.1, q);
        lemma_upsert_distinct(upsert_all(s, recs.drop_last()), r.0, r.1);
    }
}

/// A map from texts to texts (a `HashMap<String, String>`), keeping the
/// order in which keys first came.
pub struct TextMap {
    entries: Vec<(String, String)>,
}

impl View for TextMap {
    type V = Seq<(Seq<char>, Seq<char>)>;

    closed spec fn view(&self) -> Seq<(Seq<char>, Seq<char>)> {
        self.entries@.map_values(|e: (String, String)| (e.0@, e.1@))
    }
}

impl TextMap {
    /// No key occurs twice.
    pub open spec fn wf(&self) -> bool {
        distinct_keys(self@)
    }

    /// An empty map.
    pub fn new() -> (m: Self)
        ensures
            m@ == Seq::<(Seq<char>, Seq<char>)>::empty(),
            m.wf(),
    {
        let m = TextMap { entries: Vec::new() };
        assert(m@ =~= Seq::<(Seq<char>, Seq<char>)>::empty());
        m
    }

    /// Where the record of `k` stands.
    fn position(&self, k: &str) -> (r: Option<usize>)
        requires
            self.wf(),
        ensures
            r matches Some(i) ==> i < self@.len() && self@[i as int].0 == k@ && key_index(self@, k@) == i,
            r is Some <==> has_key(self@, k@),
    {
        let mut i: usize = 0;
        while i < self.entries.len()
            invariant
                i <= self.entries@.len(),
                self@.len() == self.entries@.len(),
                self.wf(),
                forall|j: int| 0 <= j < i ==> #[trigger] self@[j].0 != k@,
            decreases self.entries@.len() - i,
        {
            assert(self@[i as int].0 == self.entries@[i as int].0@);
            if crate::text::str_eq(self.entries[i].0.as_str(), k) {
                proof {
                    lemma_key_index_unique(self@, k@, i as int);
                }
                return Some(i);
            }
            i += 1;
        }
        None
    }

    /// Sets the value of `k`.
    pub fn insert(&mut self, k: String, v: String)
        requires
            old(self).wf(),
        ensures
            final(self).wf(),
            final(self)@ == upsert(old(self)@, k@, v@),
    {
        proof {
            lemma_upsert_distinct(self@, k@, v@);
        }
        let ghost kv = (k@, v@);
        match self.position(k.as_str()) {
            Some(i) => {
                self.entries.set(i, (k, v));
            },
            None => {
                self.entries.push((k, v));
            },
        }
        assert(self@ =~= upsert(old(self)@, kv.0, kv.1));
    }

    /// The value of `k`.
    pub fn get(&self, k: &str) -> (r: Option<&String>)
        requires
            self.wf(),
        ensures
            r is Some <==> has_key(self@, k@),
            r matches Some(v) ==> v@ == self@[key_index(self@, k@)].1,
    {
        match self.position(k) {
            Some(i) => Some(&self.entries[i].1),
            None => None,
        }
    }

    /// Whether `k` has a value.
    pub fn contains_key(&self, k: &str) -> (r: bool)
        requires
            self.wf(),
        ensures
            r == has_key(self@, k@),
    {
        self.position(k).is_some()
    }

    /// How many keys have a value.
    pub fn len(&self) -> (n: usize)
        ensures
            n == self@.len(),
    {
        self.entries.len()
    }

    /// The keys and values, in the order keys first came.
    pub fn entries(&self) -> (r: &Vec<(String, String)>)
        ensures
            r@.map_values(|e: (String, String)| (e.0@, e.1@)) == self@,
    {
        &self.entries
    }
}

} // verus!
