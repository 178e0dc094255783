//! Tables keyed by slugs, kept sorted by key.
//!
//! Every keyed collection in the library iterates in lexicographic key
//! order, so that anything rendered from one comes out the same on every
//! run. An [`IdMap`] is a vector of entries whose keys strictly ascend; its
//! abstract view is a finite map from key text to value, and its key
//! sequence says in which order iteration visits them.

use vstd::prelude::*;

use crate::text::{seq_lt, str_eq, str_lt, lemma_seq_lt_total, lemma_seq_lt_transitive};

verus! {

/// Something identified by a slug: its key text.
pub trait Slug: Sized {
    /// The key text.
    spec fn slug(&self) -> Seq<char>;

    /// The key text, borrowed.
    fn slug_str(&self) -> (r: &str)
        ensures
            r@ == self.slug(),
    ;
}

impl Slug for String {
    open spec fn slug(&self) -> Seq<char> {
        self@
    }

    fn slug_str(&self) -> (r: &str) {
        self.as_str()
    }
}

/// The keys of a sequence of entries.
pub open spec fn keys_of<K: Slug, V>(s: Seq<(K, V)>) -> Seq<Seq<char>> {
    s.map_values(|e: (K, V)| e.0.slug())
}

/// Keys strictly ascending.
pub open spec fn strictly_sorted(ks: Seq<Seq<char>>) -> bool {
    forall|i: int, j: int| 0 <= i < j < ks.len() ==> seq_lt(#[trigger] ks[i], #[trigger] ks[j])
}

/// The finite map a sequence of entries denotes (later entries win, which
/// never matters for distinct keys).
pub open spec fn to_map<K: Slug, V>(s: Seq<(K, V)>) -> Map<Seq<char>, V>
    decreases s.len(),
{
    if s.len() == 0 {
        Map::empty()
    } else {
        to_map(s.drop_last()).insert(s.last().0.slug(), s.last().1)
    }
}

/// A sorted table of entries keyed by slug.
#[derive(Debug)]
pub struct IdMap<K, V> {
    entries: Vec<(K, V)>,
}

impl<K: Slug, V> IdMap<K, V> {
    /// The entries, in key order.
    pub closed spec fn entries(&self) -> Seq<(K, V)> {
        self.entries@
    }

    /// The key texts, in iteration order.
    pub open spec fn keys(&self) -> Seq<Seq<char>> {
        keys_of(self.entries())
    }

    /// The value stored with the `i`-th key.
    pub open spec fn value_at_spec(&self, i: int) -> V {
        self.entries()[i].1
    }

    /// The table as a finite map from key text to value.
    pub open spec fn view(&self) -> Map<Seq<char>, V> {
        to_map(self.entries())
    }

    /// Keys strictly ascend (so no key occurs twice).
    pub open spec fn wf(&self) -> bool {
        strictly_sorted(self.keys())
    }

    /// An empty table.
    pub fn new() -> (r: Self)
        ensures
            r.wf(),
            r.entries().len() == 0,
            r.view() == Map::<Seq<char>, V>::empty(),
    {
        IdMap { entries: Vec::new() }
    }

    /// How many entries.
    pub fn len(&self) -> (r: usize)
        ensures
            r == self.entries().len(),
    {
        self.entries.len()
    }

    /// The `i`-th key, in ascending order.
    pub fn key_at(&self, i: usize) -> (r: &K)
        requires
            i < self.entries().len(),
        ensures
            *r == self.entries()[i as int].0,
    {
        &self.entries[i].0
    }

    /// The value stored with the `i`-th key.
    pub fn value_at(&self, i: usize) -> (r: &V)
        requires
            i < self.entries().len(),
        ensures
            *r == self.entries()[i as int].1,
    {
        &self.entries[i].1
    }

    /// Position of the entry with the key `k`, if present.
    pub fn position(&self, k: &str) -> (r: Option<usize>)
        requires
            self.wf(),
        ensures
            match r {
                Some(i) => i < self.entries().len() && self.keys()[i as int] == k@,
                None => !self.keys().contains(k@),
            },
            r is Some <==> self.view().contains_key(k@),
            r is Some ==> self.view()[k@] == self.entries()[r->0 as int].1,
    {
        proof {
            lemma_to_map_entries(self.entries());
        }
        let mut i: usize = 0;
        while i < self.entries.len()
            invariant
                i <= self.entries@.len(),
                self.entries@ == self.entries(),
                self.wf(),
                forall|j: int| 0 <= j < i ==> self.keys()[j] != k@,
            decreases self.entries@.len() - i,
        {
            if str_eq(self.entries[i].0.slug_str(), k) {
                proof {
                    lemma_keys_of(self.entries());
                    lemma_to_map_entries(self.entries());
                    assert(self.keys()[i as int] == k@);
                    assert(self.view().contains_key(self.keys()[i as int]));
                }
                return Some(i);
            }
            i = i + 1;
        }
        proof {
            if self.keys().contains(k@) {
                let j = choose|j: int| 0 <= j < self.keys().len() && self.keys()[j] == k@;
                assert(self.keys()[j] != k@);
            }
        }
        None
    }

    /// The value stored under `k`.
    pub fn get(&self, k: &str) -> (r: Option<&V>)
        requires
            self.wf(),
        ensures
            match r {
                Some(v) => self.view().contains_key(k@) && *v == self.view()[k@],
                None => !self.view().contains_key(k@),
            },
    {
        match self.position(k) {
            Some(i) => Some(&self.entries[i].1),
            None => None,
        }
    }

    /// Whether `k` has an entry.
    pub fn contains_key(&self, k: &str) -> (r: bool)
        requires
            self.wf(),
        ensures
            r == self.view().contains_key(k@),
    {
        self.position(k).is_some()
    }

    /// Stores `v` under `k`, replacing any previous value, and keeps the
    /// keys in order.
    pub fn insert(&mut self, k: K, v: V)
        requires
            old(self).wf(),
        ensures
            final(self).wf(),
            final(self).view() == old(self).view().insert(k.slug(), v),
            final(self).keys().to_set() == old(self).keys().to_set().insert(k.slug()),
    {
        proof {
            lemma_to_map_entries(self.entries());
        }
        let mut i: usize = 0;
        while i < self.entries.len()
            invariant
                i <= self.entries@.len(),
                self.entries@ == old(self).entries(),
                forall|j: int| 0 <= j < i ==> seq_lt(#[trigger] self.keys()[j], k.slug()),
            ensures
                i <= self.entries@.len(),
                self.entries@ == old(self).entries(),
                forall|j: int| 0 <= j < i ==> seq_lt(#[trigger] self.keys()[j], k.slug()),
                i < self.entries@.len() ==> !seq_lt(self.keys()[i as int], k.slug()),
            decreases self.entries@.len() - i,
        {
            if !str_lt(self.entries[i].0.slug_str(), k.slug_str()) {
                break;
            }
            i = i + 1;
        }
        let ghost old_entries = self.entries@;
        let ghost kk = k.slug();
        if i < self.entries.len() && str_eq(self.entries[i].0.slug_str(), k.slug_str()) {
            self.entries.set(i, (k, v));
            proof {
                assert(self.entries() == old_entries.update(i as int, (k, v)));
                assert forall|a: int, b: int| 0 <= a < b < self.keys().len() implies seq_lt(
                    #[trigger] self.keys()[a],
                    #[trigger] self.keys()[b],
                ) by {
                    assert(self.keys()[a] == keys_of(old_entries)[a]);
                    assert(self.keys()[b] == keys_of(old_entries)[b]);
                }
                lemma_to_map_replace(old_entries, i as int, k, v);
                lemma_keys_of(old_entries);
                lemma_keys_of(self.entries());
                assert(self.keys() =~= keys_of(old_entries));
                assert(keys_of(old_entries)[i as int] == kk);
                assert(self.keys().to_set() =~= keys_of(old_entries).to_set().insert(kk));
            }
        } else {
            proof {
                if i < old_entries.len() {
                    lemma_seq_lt_total(keys_of(old_entries)[i as int], kk);
                }
                lemma_keys_of(old_entries);
                assert(!keys_of(old_entries).contains(kk)) by {
                    if keys_of(old_entries).contains(kk) {
                        let j = choose|j: int| 0 <= j < keys_of(old_entries).len() && keys_of(old_entries)[j] == kk;
                        if j < i {
                            assert(self.keys()[j] == kk);
                            lemma_seq_lt_total(kk, kk);
                        } else if j > i {
                            assert(seq_lt(keys_of(old_entries)[i as int], keys_of(old_entries)[j]));
                        }
                    }
                }
            }
            self.entries.insert(i, (k, v));
            proof {
                let ne = self.entries();
                assert(ne == old_entries.insert(i as int, (k, v)));
                assert forall|a: int, b: int| 0 <= a < b < self.keys().len() implies seq_lt(
                    #[trigger] self.keys()[a],
                    #[trigger] self.keys()[b],
                ) by {
                    let ok = keys_of(old_entries);
                    if b < i {
                        assert(self.keys()[a] == ok[a]);
                        assert(self.keys()[b] == ok[b]);
                    } else if b == i {
                        assert(self.keys()[b] == kk);
                        assert(self.keys()[a] == ok[a]);
                    } else if a == i {
                        assert(self.keys()[a] == kk);
                        assert(self.keys()[b] == ok[b - 1]);
                        if b - 1 > i {
                            lemma_seq_lt_total(ok[i as int], kk);
                            lemma_seq_lt_transitive(kk, ok[i as int], ok[b - 1]);
                        } else {
                            lemma_seq_lt_total(ok[i as int], kk);
                        }
                    } else if a < i {
                        assert(self.keys()[a] == ok[a]);
                        assert(self.keys()[b] == ok[b - 1]);
                    } else {
                        assert(self.keys()[a] == ok[a - 1]);
                        assert(self.keys()[b] == ok[b - 1]);
                    }
                }
                lemma_to_map_insert(old_entries, i as int, k, v);
                lemma_keys_of(old_entries);
                lemma_keys_of(self.entries());
                let ok = keys_of(old_entries);
                let nk = self.keys();
                assert(nk =~= ok.insert(i as int, kk));
                assert forall|x: Seq<char>| nk.to_set().contains(x) <==> ok.to_set().insert(kk).contains(x) by {
                    if nk.contains(x) {
                        let j = choose|j: int| 0 <= j < nk.len() && nk[j] == x;
                        if j < i {
                            assert(ok[j] == x);
                        } else if j > i {
                            assert(ok[j - 1] == x);
                        }
                    }
                    if ok.contains(x) {
                        let j = choose|j: int| 0 <= j < ok.len() && ok[j] == x;
                        if j < i {
                            assert(nk[j] == x);
                        } else {
                            assert(nk[j + 1] == x);
                        }
                    }
                    if x == kk {
                        assert(nk[i as int] == x);
                    }
                }
                assert(nk.to_set() =~= ok.to_set().insert(kk));
            }
        }
    }
}

impl<K: Slug, V> IdMap<K, V> {
    /// Takes the entry with key `k` out of the table, if present.
    pub fn remove(&mut self, k: &str) -> (r: Option<V>)
        requires
            old(self).wf(),
        ensures
            final(self).wf(),
            final(self).view() == old(self).view().remove(k@),
            r is Some <==> old(self).view().contains_key(k@),
            r is Some ==> r->0 == old(self).view()[k@],
    {
        proof {
            lemma_to_map_entries(self.entries());
            lemma_keys_of(self.entries());
        }
        match self.position(k) {
            Some(i) => {
                let ghost s = self.entries@;
                let e = self.entries.remove(i);
                proof {
                    let t = self.entries@;
                    assert(t == s.remove(i as int));
                    assert(t.insert(i as int, e) =~= s);
                    lemma_to_map_insert(t, i as int, e.0, e.1);
                    lemma_keys_of(t);
                    lemma_to_map_entries(t);
                    assert(e.0.slug() == k@);
                    assert(!to_map(t).contains_key(k@)) by {
                        if keys_of(t).contains(k@) {
                            let j = choose|j: int| 0 <= j < keys_of(t).len() && keys_of(t)[j] == k@;
                            if j < i {
                                assert(keys_of(s)[j] == k@);
                                assert(seq_lt(keys_of(s)[j], keys_of(s)[i as int]));
                                lemma_lt_ne(keys_of(s)[j], keys_of(s)[i as int]);
                            } else {
                                assert(keys_of(s)[j + 1] == k@);
                                assert(seq_lt(keys_of(s)[i as int], keys_of(s)[j + 1]));
                                lemma_lt_ne(keys_of(s)[i as int], keys_of(s)[j + 1]);
                            }
                        }
                    }
                    assert(to_map(t) =~= to_map(s).remove(k@));
                }
                Some(e.1)
            },
            None => {
                proof {
                    assert(self.view() =~= self.view().remove(k@));
                }
                None
            },
        }
    }
}

/// Strictly smaller keys are different keys.
pub proof fn lemma_lt_ne(a: Seq<char>, b: Seq<char>)
    requires
        seq_lt(a, b),
    ensures
        a != b,
{
    lemma_seq_lt_total(a, a);
}

/// The keys of a sequence of entries, position by position.
pub proof fn lemma_keys_of<K: Slug, V>(s: Seq<(K, V)>)
    ensures
        keys_of(s).len() == s.len(),
        forall|i: int| 0 <= i < s.len() ==> #[trigger] keys_of(s)[i] == s[i].0.slug(),
{
}

/// With distinct keys, the map holds every entry's value under its key, and
/// holds nothing else.
pub proof fn lemma_to_map_entries<K: Slug, V>(s: Seq<(K, V)>)
    requires
        strictly_sorted(keys_of(s)),
    ensures
        forall|i: int| 0 <= i < s.len() ==> #[trigger] to_map(s).contains_key(keys_of(s)[i]) && to_map(s)[keys_of(s)[i]] == s[i].1,
        forall|k: Seq<char>| #[trigger] to_map(s).contains_key(k) <==> keys_of(s).contains(k),
    decreases s.len(),
{
    lemma_keys_of(s);
    if s.len() > 0 {
        let p = s.drop_last();
        let n = s.len() - 1;
        lemma_keys_of(p);
        assert(keys_of(p) =~= keys_of(s).drop_last());
        lemma_to_map_entries(p);
        let lk = keys_of(s)[n];
        assert(to_map(s) == to_map(p).insert(lk, s[n].1));
        assert forall|i: int| 0 <= i < s.len() implies #[trigger] to_map(s).contains_key(keys_of(s)[i]) && to_map(s)[keys_of(s)[i]] == s[i].1 by {
            if i < n {
                assert(keys_of(p)[i] == keys_of(s)[i]);
                assert(seq_lt(keys_of(s)[i], keys_of(s)[n]));
                lemma_lt_ne(keys_of(s)[i], lk);
            }
        }
        assert forall|k: Seq<char>| #[trigger] to_map(s).contains_key(k) <==> keys_of(s).contains(k) by {
            if keys_of(s).contains(k) {
                let j = choose|j: int| 0 <= j < keys_of(s).len() && keys_of(s)[j] == k;
                if j < n {
                    assert(keys_of(p)[j] == k);
                    assert(keys_of(p).contains(k));
                }
            }
            if keys_of(p).contains(k) {
                let j = choose|j: int| 0 <= j < keys_of(p).len() && keys_of(p)[j] == k;
                assert(keys_of(s)[j] == k);
            }
            if k == lk {
                assert(keys_of(s)[n] == k);
            }
        }
    }
}

proof fn lemma_to_map_replace<K: Slug, V>(s: Seq<(K, V)>, i: int, k: K, v: V)
    requires
        strictly_sorted(keys_of(s)),
        0 <= i < s.len(),
        s[i].0.slug() == k.slug(),
    ensures
        to_map(s.update(i, (k, v))) == to_map(s).insert(k.slug(), v),
{
    let t = s.update(i, (k, v));
    lemma_keys_of(s);
    lemma_keys_of(t);
    assert(keys_of(t) =~= keys_of(s));
    lemma_to_map_entries(s);
    lemma_to_map_entries(t);
    let m = to_map(s).insert(k.slug(), v);
    assert forall|key: Seq<char>| #[trigger] to_map(t).contains_key(key) <==> m.contains_key(key) by {
        if key == k.slug() {
            assert(keys_of(s)[i] == key);
        }
    }
    assert forall|key: Seq<char>| #[trigger] to_map(t).contains_key(key) implies to_map(t)[key] == m[key] by {
        let j = choose|j: int| 0 <= j < keys_of(t).len() && keys_of(t)[j] == key;
        if j != i {
            assert(s[j] == t[j]);
            if j < i {
                assert(seq_lt(keys_of(s)[j], keys_of(s)[i]));
                lemma_lt_ne(keys_of(s)[j], keys_of(s)[i]);
            } else {
                assert(seq_lt(keys_of(s)[i], keys_of(s)[j]));
                lemma_lt_ne(keys_of(s)[i], keys_of(s)[j]);
            }
        }
    }
    assert(to_map(t) =~= m);
}

proof fn lemma_to_map_insert<K: Slug, V>(s: Seq<(K, V)>, i: int, k: K, v: V)
    requires
        strictly_sorted(keys_of(s.insert(i, (k, v)))),
        0 <= i <= s.len(),
    ensures
        to_map(s.insert(i, (k, v))) == to_map(s).insert(k.slug(), v),
        strictly_sorted(keys_of(s)),
{
    let t = s.insert(i, (k, v));
    lemma_keys_of(s);
    lemma_keys_of(t);
    assert forall|j: int| 0 <= j < t.len() implies #[trigger] t[j] == (if j < i { s[j] } else if j == i { (k, v) } else { s[j - 1] }) by {
    }
    assert(strictly_sorted(keys_of(s))) by {
        assert forall|a: int, b: int| 0 <= a < b < keys_of(s).len() implies seq_lt(
            #[trigger] keys_of(s)[a],
            #[trigger] keys_of(s)[b],
        ) by {
            let a2 = if a < i { a } else { a + 1 };
            let b2 = if b < i { b } else { b + 1 };
            assert(t[a2] == s[a]);
            assert(t[b2] == s[b]);
            assert(keys_of(t)[a2] == keys_of(s)[a]);
            assert(keys_of(t)[b2] == keys_of(s)[b]);
        }
    }
    lemma_to_map_entries(s);
    lemma_to_map_entries(t);
    let m = to_map(s).insert(k.slug(), v);
    assert(keys_of(t)[i] == k.slug());
    assert forall|key: Seq<char>| #[trigger] to_map(t).contains_key(key) <==> m.contains_key(key) by {
        if keys_of(t).contains(key) {
            let j = choose|j: int| 0 <= j < keys_of(t).len() && keys_of(t)[j] == key;
            if j < i {
                assert(t[j] == s[j]);
                assert(keys_of(s)[j] == key);
            } else if j > i {
                assert(t[j] == s[j - 1]);
                assert(keys_of(s)[j - 1] == key);
            }
        }
        if keys_of(s).contains(key) {
            let j = choose|j: int| 0 <= j < keys_of(s).len() && keys_of(s)[j] == key;
            if j < i {
                assert(t[j] == s[j]);
                assert(keys_of(t)[j] == key);
            } else {
                assert(t[j + 1] == s[j]);
                assert(keys_of(t)[j + 1] == key);
            }
        }
    }
    assert forall|key: Seq<char>| #[trigger] to_map(t).contains_key(key) implies to_map(t)[key] == m[key] by {
        let j = choose|j: int| 0 <= j < keys_of(t).len() && keys_of(t)[j] == key;
        if j < i {
            assert(t[j] == s[j]);
            assert(keys_of(s)[j] == key);
            assert(seq_lt(keys_of(t)[j], keys_of(t)[i]));
            lemma_lt_ne(key, k.slug());
        } else if j > i {
            assert(t[j] == s[j - 1]);
            assert(keys_of(s)[j - 1] == key);
            assert(seq_lt(keys_of(t)[i], keys_of(t)[j]));
            lemma_lt_ne(k.slug(), key);
        }
    }
    assert(to_map(t) =~= m);
}

} // verus!
