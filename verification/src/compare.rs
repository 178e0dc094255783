//! Two resolved loadouts, side by side.
//!
//! The subtraction happens here rather than in the page: a delta computed
//! on the other side of the boundary would be a float away from the error
//! class this project exists to prevent, and a second implementation of
//! arithmetic the library already does exactly. A stat present in only one
//! of the two is reported as appearing or vanishing, never as a difference
//! from zero, because those are different facts.

use vstd::prelude::*;

use crate::card::{after, after_prefix};
use crate::confidence::{Confidence, ConfidenceLevel, min_level};
use crate::diff::{merge, merged_keys};
use crate::doc::opt_view;
use crate::fixed::{Fixed, in_micro_range};
use crate::ids::DerivedStatId;
use crate::resolve::Resolved;
use crate::table::{IdMap, keys_of};
use crate::text::{owned, string_views};

verus! {

/// One derived stat in two resolutions.
#[derive(Debug)]
pub struct StatComparison {
    /// Derived stat id.
    pub id: String,
    /// The id without its `derived.` prefix.
    pub label: String,
    /// The value in the first, when it has the stat.
    pub from: Option<Fixed>,
    /// The value in the second, when it has the stat.
    pub to: Option<Fixed>,
    /// `to - from`, when both have the stat and the difference is in range.
    pub delta: Option<Fixed>,
    /// The weaker grade of the two values, or the one value's grade: a
    /// comparison is only as trustworthy as its worse half.
    pub confidence: ConfidenceLevel,
}

/// The ids of a comparison, in order.
pub open spec fn compared_ids(s: Seq<StatComparison>) -> Seq<Seq<char>> {
    s.map_values(|c: StatComparison| c.id@)
}

/// A stat's value in a table, if it has one.
pub open spec fn value_in(m: Map<Seq<char>, Confidence<Fixed>>, k: Seq<char>) -> Option<int> {
    if m.contains_key(k) { Some(m[k].spec_value()@) } else { None }
}

/// A fixed-point value, as a number.
pub open spec fn opt_fixed(v: Option<Fixed>) -> Option<int> {
    match v {
        Some(x) => Some(x@),
        None => None,
    }
}

/// One stat compared between two tables.
pub open spec fn compared_as(c: StatComparison, a: Map<Seq<char>, Confidence<Fixed>>, b: Map<Seq<char>, Confidence<Fixed>>) -> bool {
    let k = c.id@;
    &&& c.label@ == match after(k, "derived."@) {
        Some(rest) => rest,
        None => k,
    }
    &&& opt_fixed(c.from) == value_in(a, k)
    &&& opt_fixed(c.to) == value_in(b, k)
    &&& opt_fixed(c.delta) == match (value_in(a, k), value_in(b, k)) {
        (Some(x), Some(y)) => if in_micro_range(y - x) { Some(y - x) } else { None },
        _ => None,
    }
    &&& c.confidence == if a.contains_key(k) && b.contains_key(k) {
        min_level(a[k].spec_level(), b[k].spec_level())
    } else if a.contains_key(k) {
        a[k].spec_level()
    } else {
        b[k].spec_level()
    }
}

/// Compares one stat present in at least one table.
fn compare_one(id: String, a: &IdMap<DerivedStatId, Confidence<Fixed>>, b: &IdMap<DerivedStatId, Confidence<Fixed>>) -> (r: StatComparison)
    requires
        a.wf(),
        b.wf(),
        a.view().contains_key(id@) || b.view().contains_key(id@),
    ensures
        r.id@ == id@,
        compared_as(r, a.view(), b.view()),
{
    let label = match after_prefix(id.as_str(), "derived.") {
        Some(rest) => rest,
        None => owned(id.as_str()),
    };
    let x = a.get(id.as_str());
    let y = b.get(id.as_str());
    let (from, to, delta, confidence) = match (x, y) {
        (Some(f), Some(t)) => {
            let fv = *f.value();
            let tv = *t.value();
            (Some(fv), Some(tv), tv.checked_minus(fv), f.level().lowest(t.level()))
        },
        (Some(f), None) => (Some(*f.value()), None, None, f.level()),
        (None, Some(t)) => (None, Some(*t.value()), None, t.level()),
        (None, None) => (None, None, None, ConfidenceLevel::Unknown),
    };
    StatComparison { id, label, from, to, delta, confidence }
}

/// Every derived stat of two resolutions, in id order: the union of the
/// two tables, each id once.
pub fn compare_stats(a: &Resolved, b: &Resolved) -> (r: Vec<StatComparison>)
    requires
        a.derived.wf(),
        b.derived.wf(),
    ensures
        compared_ids(r@) == merge(keys_of(a.derived.entries()), keys_of(b.derived.entries())),
        forall|i: int| 0 <= i < r@.len() ==> compared_as(#[trigger] r@[i], a.derived.view(), b.derived.view()),
{
    let ids = merged_keys(&a.derived, &b.derived);
    let ghost ks = merge(keys_of(a.derived.entries()), keys_of(b.derived.entries()));
    proof {
        crate::diff::lemma_merge_members(keys_of(a.derived.entries()), keys_of(b.derived.entries()));
        crate::table::lemma_to_map_entries(a.derived.entries());
        crate::table::lemma_to_map_entries(b.derived.entries());
    }
    let mut out: Vec<StatComparison> = Vec::new();
    let mut i: usize = 0;
    while i < ids.len()
        invariant
            i <= ids@.len(),
            a.derived.wf(),
            b.derived.wf(),
            string_views(ids@) == ks,
            ks == merge(keys_of(a.derived.entries()), keys_of(b.derived.entries())),
            forall|k: Seq<char>| #[trigger] ks.contains(k) ==> a.derived.view().contains_key(k) || b.derived.view().contains_key(k),
            compared_ids(out@) == ks.subrange(0, i as int),
            forall|j: int| 0 <= j < out@.len() ==> compared_as(#[trigger] out@[j], a.derived.view(), b.derived.view()),
        decreases ids@.len() - i,
    {
        let id = owned(ids[i].as_str());
        proof {
            assert(string_views(ids@)[i as int] == ids@[i as int]@);
            assert(ks[i as int] == id@);
            assert(ks.contains(id@));
        }
        let c = compare_one(id, &a.derived, &b.derived);
        let ghost before = out@;
        out.push(c);
        proof {
            assert(compared_ids(out@) =~= compared_ids(before).push(ks[i as int]));
            assert(compared_ids(out@) =~= ks.subrange(0, i + 1));
            assert forall|j: int| 0 <= j < out@.len() implies compared_as(#[trigger] out@[j], a.derived.view(), b.derived.view()) by {
                if j < before.len() {
                    assert(out@[j] == before[j]);
                }
            }
        }
        i = i + 1;
    }
    proof {
        assert(ks.subrange(0, ks.len() as int) =~= ks);
    }
    out
}

} // verus!
