//! Who saw what.
//!
//! The dataset says what is true; this says why anyone thinks so. Nothing
//! here promotes anything: it assembles evidence and reports what that
//! evidence would support, and a person edits the grade.

use vstd::prelude::*;

use crate::submission::Method;
use crate::table::IdMap;
use crate::text::{owned, str_eq};

verus! {

/// One person, having seen one field, once.
#[derive(Debug)]
pub struct Attestation {
    /// The handle that told the submissions apart.
    pub observer: String,
    /// The date the observer wrote, unparsed: a string a person wrote is
    /// what a person can check.
    pub at: String,
    /// How they saw it. This is what decides whether it corroborates.
    pub method: Method,
}

impl Clone for Attestation {
    /// The same observer, date and method.
    fn clone(&self) -> (r: Self)
        ensures
            r.observer@ == self.observer@,
            r.at@ == self.at@,
            r.method == self.method,
    {
        Attestation { observer: owned(self.observer.as_str()), at: owned(self.at.as_str()), method: self.method }
    }
}

impl Attestation {
    /// Whether this reading can count toward corroborating another.
    /// `documented` cannot: a hundred people reading one wiki page is one
    /// source, and a grade that rose because a number was popular would
    /// launder repetition into verification.
    pub fn is_independent(&self) -> (r: bool)
        ensures
            r == (self.method != Method::Documented),
    {
        self.method != Method::Documented
    }
}

/// A field's readings, keyed by the observer who made each one.
pub open spec fn keyed_by_observer(m: IdMap<String, Attestation>) -> bool {
    &&& m.wf()
    &&& forall|o: Seq<char>| #[trigger] m.view().contains_key(o) ==> m.view()[o].observer@ == o
}

/// The observers whose reading of a field is independent.
pub open spec fn independent_set(m: Map<Seq<char>, Attestation>) -> Set<Seq<char>> {
    m.dom().filter(|o: Seq<char>| m[o].method != Method::Documented)
}

/// Every attestation, by item and then by the field it is about, then by
/// observer. A field here is a graded group — the object that carries a
/// `confidence` — so the evidence is about the same thing the grade is.
#[derive(Debug)]
pub struct Ledger {
    /// item id → field → observer → what they saw.
    pub items: IdMap<String, IdMap<String, IdMap<String, Attestation>>>,
}

impl Default for Ledger {
    /// A ledger with no evidence: every build starts without any.
    fn default() -> (r: Ledger)
        ensures
            r.wf(),
            forall|i: Seq<char>, f: Seq<char>| #[trigger] r.readings(i, f) == Map::<Seq<char>, Attestation>::empty(),
            forall|i: Seq<char>| #[trigger] r.field_set(i) == Set::<Seq<char>>::empty(),
    {
        let r = Ledger { items: IdMap::new() };
        proof {
            assert forall|i: Seq<char>| #[trigger] r.field_set(i) == Set::<Seq<char>>::empty() by {
                assert(!r.items.view().contains_key(i));
            }
        }
        r
    }
}

impl Ledger {
    /// The tables are in order and every reading sits under its observer.
    pub open spec fn wf(&self) -> bool {
        &&& self.items.wf()
        &&& forall|i: Seq<char>| #[trigger] self.items.view().contains_key(i) ==> self.items.view()[i].wf()
        &&& forall|i: Seq<char>, f: Seq<char>| self.items.view().contains_key(i) && #[trigger] self.items.view()[i].view().contains_key(f)
            ==> keyed_by_observer(self.items.view()[i].view()[f])
    }

    /// Who saw a field of an item, by observer.
    pub open spec fn readings(&self, item: Seq<char>, field: Seq<char>) -> Map<Seq<char>, Attestation> {
        if self.items.view().contains_key(item) && self.items.view()[item].view().contains_key(field) {
            self.items.view()[item].view()[field].view()
        } else {
            Map::empty()
        }
    }

    /// The fields of an item that have any evidence.
    pub open spec fn field_set(&self, item: Seq<char>) -> Set<Seq<char>> {
        if self.items.view().contains_key(item) {
            self.items.view()[item].view().dom()
        } else {
            Set::empty()
        }
    }

    /// Records that someone saw a field. A second reading from the same
    /// observer replaces their first rather than adding to it: one person
    /// reading a card twice is one witness. Returns whether anything
    /// changed, so a caller can tell new evidence from a repeat.
    pub fn record(&mut self, item: &str, field: &str, attestation: Attestation) -> (r: bool)
        requires
            old(self).wf(),
        ensures
            final(self).wf(),
            r == !(old(self).readings(item@, field@).contains_key(attestation.observer@)
                && old(self).readings(item@, field@)[attestation.observer@].at@ == attestation.at@
                && old(self).readings(item@, field@)[attestation.observer@].method == attestation.method),
            final(self).readings(item@, field@) == old(self).readings(item@, field@).insert(attestation.observer@, attestation),
            forall|i: Seq<char>, f: Seq<char>| !(i == item@ && f == field@) ==> #[trigger] final(self).readings(i, f) == old(self).readings(i, f),
            final(self).field_set(item@) == old(self).field_set(item@).insert(field@),
            forall|i: Seq<char>| i != item@ ==> #[trigger] final(self).field_set(i) == old(self).field_set(i),
    {
        let ghost before = *self;
        let mut fields = match self.items.remove(item) {
            Some(f) => f,
            None => IdMap::new(),
        };
        let ghost fields0 = fields;
        let mut readings = match fields.remove(field) {
            Some(x) => x,
            None => IdMap::new(),
        };
        let ghost readings0 = readings;
        proof {
            assert(readings0.view() == before.readings(item@, field@));
        }
        let changed = match readings.get(attestation.observer.as_str()) {
            Some(prev) => !(str_eq(prev.at.as_str(), attestation.at.as_str()) && prev.method == attestation.method),
            None => true,
        };
        let ghost obs = attestation.observer@;
        let ghost att = attestation;
        readings.insert(owned(attestation.observer.as_str()), attestation);
        proof {
            assert(readings.view() == readings0.view().insert(obs, att));
            assert forall|o: Seq<char>| #[trigger] readings.view().contains_key(o) implies readings.view()[o].observer@ == o by {
                if o != obs {
                    assert(readings0.view().contains_key(o));
                }
            }
        }
        let ghost readings1 = readings;
        fields.insert(owned(field), readings);
        let ghost fields1 = fields;
        self.items.insert(owned(item), fields);
        proof {
            assert(fields1.view() == fields0.view().remove(field@).insert(field@, readings1));
            assert forall|i: Seq<char>| #[trigger] self.items.view().contains_key(i) implies self.items.view()[i].wf() by {
                if i != item@ {
                    assert(before.items.view().contains_key(i));
                }
            }
            assert forall|i: Seq<char>, f: Seq<char>| self.items.view().contains_key(i) && #[trigger] self.items.view()[i].view().contains_key(f)
                implies keyed_by_observer(self.items.view()[i].view()[f]) by {
                if i != item@ {
                    assert(before.items.view().contains_key(i));
                } else if f != field@ {
                    assert(fields0.view().contains_key(f));
                    assert(before.items.view().contains_key(i));
                }
            }
            assert forall|i: Seq<char>, f: Seq<char>| !(i == item@ && f == field@) implies #[trigger] self.readings(i, f) == before.readings(i, f) by {
                if i == item@ {
                    if before.items.view().contains_key(i) {
                        assert(fields0 == before.items.view()[i]);
                    }
                }
            }
            assert(self.field_set(item@) =~= before.field_set(item@).insert(field@));
            assert forall|i: Seq<char>| i != item@ implies #[trigger] self.field_set(i) == before.field_set(i) by {
            }
        }
        changed
    }

    /// How many independent observers have seen this field: distinct
    /// observers, none of them `documented`. Both halves matter: the same
    /// person twice, or several people quoting one page, fool the count.
    pub fn independent(&self, item: &str, field: &str) -> (r: usize)
        requires
            self.wf(),
        ensures
            r == independent_set(self.readings(item@, field@)).len(),
            independent_set(self.readings(item@, field@)).finite(),
    {
        let fields = match self.items.get(item) {
            Some(f) => f,
            None => {
                proof {
                    assert(independent_set(self.readings(item@, field@)) =~= Set::<Seq<char>>::empty());
                }
                return 0;
            },
        };
        let readings = match fields.get(field) {
            Some(x) => x,
            None => {
                proof {
                    assert(independent_set(self.readings(item@, field@)) =~= Set::<Seq<char>>::empty());
                }
                return 0;
            },
        };
        proof {
            crate::table::lemma_to_map_entries(readings.entries());
            crate::table::lemma_keys_of(readings.entries());
        }
        let ghost keys = readings.keys();
        let ghost mut seen: Set<Seq<char>> = Set::empty();
        let mut count: usize = 0;
        let mut i: usize = 0;
        while i < readings.len()
            invariant
                i <= readings.entries().len(),
                readings.wf(),
                keys == readings.keys(),
                keys.len() == readings.entries().len(),
                forall|j: int| 0 <= j < keys.len() ==> #[trigger] keys[j] == readings.entries()[j].0@,
                seen.finite(),
                count == seen.len(),
                count <= i,
                forall|o: Seq<char>| seen.contains(o) <==> exists|j: int| 0 <= j < i && #[trigger] keys[j] == o
                    && readings.entries()[j].1.method != Method::Documented,
            decreases readings.entries().len() - i,
        {
            let a = readings.value_at(i);
            if a.is_independent() {
                proof {
                    assert(!seen.contains(keys[i as int])) by {
                        if seen.contains(keys[i as int]) {
                            let j = choose|j: int| 0 <= j < i && #[trigger] keys[j] == keys[i as int]
                                && readings.entries()[j].1.method != Method::Documented;
                            assert(crate::text::seq_lt(keys[j], keys[i as int]));
                            crate::table::lemma_lt_ne(keys[j], keys[i as int]);
                        }
                    }
                    seen = seen.insert(keys[i as int]);
                }
                count = count + 1;
            }
            proof {
                assert forall|o: Seq<char>| seen.contains(o) <==> exists|j: int| 0 <= j < i + 1 && #[trigger] keys[j] == o
                    && readings.entries()[j].1.method != Method::Documented by {
                    if exists|j: int| 0 <= j < i + 1 && #[trigger] keys[j] == o && readings.entries()[j].1.method != Method::Documented {
                        let j = choose|j: int| 0 <= j < i + 1 && #[trigger] keys[j] == o && readings.entries()[j].1.method != Method::Documented;
                        if j < i {
                            assert(exists|j: int| 0 <= j < i && #[trigger] keys[j] == o && readings.entries()[j].1.method != Method::Documented);
                        }
                    }
                }
            }
            i = i + 1;
        }
        proof {
            let m = readings.view();
            assert(m == self.readings(item@, field@));
            assert forall|o: Seq<char>| #[trigger] independent_set(m).contains(o) <==> seen.contains(o) by {
                if m.contains_key(o) {
                    assert(keys.contains(o));
                    let j = choose|j: int| 0 <= j < keys.len() && keys[j] == o;
                    assert(m[keys[j]] == readings.entries()[j].1);
                }
                if seen.contains(o) {
                    let j = choose|j: int| 0 <= j < i && #[trigger] keys[j] == o && readings.entries()[j].1.method != Method::Documented;
                    assert(m.contains_key(keys[j]) && m[keys[j]] == readings.entries()[j].1);
                }
            }
            assert(independent_set(m) =~= seen);
        }
        count
    }

    /// Whether the evidence would support raising this field to
    /// `verified`: at least two independent observers. It says *would*:
    /// nothing here changes a grade.
    pub fn supports_verified(&self, item: &str, field: &str) -> (r: bool)
        requires
            self.wf(),
        ensures
            r == (independent_set(self.readings(item@, field@)).len() >= 2),
    {
        self.independent(item, field) >= 2
    }

    /// Every field of an item that has any evidence, in order.
    pub fn fields(&self, item: &str) -> (r: Vec<String>)
        requires
            self.wf(),
        ensures
            self.items.view().contains_key(item@) ==> crate::text::string_views(r@) == self.items.view()[item@].keys(),
            !self.items.view().contains_key(item@) ==> r@.len() == 0,
    {
        let mut out: Vec<String> = Vec::new();
        let fields = match self.items.get(item) {
            Some(f) => f,
            None => return out,
        };
        proof {
            crate::table::lemma_keys_of(fields.entries());
        }
        let mut i: usize = 0;
        while i < fields.len()
            invariant
                i <= fields.entries().len(),
                fields.keys().len() == fields.entries().len(),
                forall|j: int| 0 <= j < fields.entries().len() ==> #[trigger] fields.keys()[j] == fields.entries()[j].0@,
                crate::text::string_views(out@) == fields.keys().subrange(0, i as int),
            decreases fields.entries().len() - i,
        {
            let ghost before = out@;
            let k = owned(fields.key_at(i).as_str());
            out.push(k);
            proof {
                assert(out@ == before.push(k));
                assert(k@ == fields.keys()[i as int]);
                let got = crate::text::string_views(out@);
                let had = crate::text::string_views(before);
                assert(had == fields.keys().subrange(0, i as int));
                assert(had.len() == before.len());
                assert(before.len() == i);
                assert(got.len() == i + 1);
                assert forall|j: int| 0 <= j < i + 1 implies #[trigger] got[j] == fields.keys()[j] by {
                    if j < i {
                        assert(had[j] == fields.keys().subrange(0, i as int)[j]);
                        assert(out@[j] == before[j]);
                    }
                }
                assert(got =~= fields.keys().subrange(0, i + 1));
            }
            i = i + 1;
        }
        proof {
            assert(fields.keys().subrange(0, fields.keys().len() as int) =~= fields.keys());
        }
        out
    }
}

// ── Laws ────────────────────────────────────────────────────────────────

/// One person reading a field twice is one witness: recording the same
/// observer again never raises the independent count above what one
/// reading from them gives.
pub proof fn law_one_person_twice_is_one(m: Map<Seq<char>, Attestation>, first: Attestation, second: Attestation)
    requires
        m.dom().finite(),
        first.observer@ == second.observer@,
    ensures
        independent_set(m.insert(first.observer@, first).insert(second.observer@, second))
            == independent_set(m.insert(second.observer@, second)),
{
    assert(m.insert(first.observer@, first).insert(second.observer@, second) =~= m.insert(second.observer@, second));
}

/// A documented reading never corroborates: adding one never raises the
/// independent count.
pub proof fn law_a_wiki_never_corroborates(m: Map<Seq<char>, Attestation>, a: Attestation)
    requires
        m.dom().finite(),
        a.method == Method::Documented,
        !m.contains_key(a.observer@),
    ensures
        independent_set(m.insert(a.observer@, a)) == independent_set(m),
{
    assert(independent_set(m.insert(a.observer@, a)) =~= independent_set(m));
}

} // verus!
