//! Differences between two dataset versions.
//!
//! Two levels, one machine. The **dataset diff** says what changed in the
//! data: entities added, removed, renamed, or fields modified. Renames are
//! explicit, set by a human under review, never inferred: heuristic rename
//! detection is a source of quietly wrong diffs. The **impact diff** says
//! what changed for a set of builds: each loadout resolves against both
//! versions and the stat deltas are reported.
//!
//! Fields are compared as rendered strings rather than by walking typed
//! structures: every value has an exact, lossless rendering, and the
//! renderings carry grades, so a value that stayed equal but was downgraded
//! from verified to unverified shows up as the change it is.

use vstd::prelude::*;

use crate::confidence::Confidence;
use crate::dataset::{Dataset, EntityKind};
use crate::fixed::{Fixed, in_micro_range};
use crate::ids::DerivedStatId;
use crate::loadout::Loadout;
use crate::resolve::{ResolveError, Resolved, error_explained, resolve, resolve_error_text, resolved_as};
use crate::schema::InMemoryDataset;
use crate::table::{IdMap, keys_of, lemma_keys_of, lemma_to_map_entries, strictly_sorted};
use crate::fields::{fields, fields_as, text_map};
use crate::table::Slug;
use crate::text::{append_chars, owned, seq_lt, str_eq, str_lt, string_of};

verus! {

/// One change to one entity.
#[derive(Debug)]
pub enum Change {
    /// The entity is new in the later version.
    Added {
        /// Entity id.
        id: String,
        /// Which table it lives in.
        kind: EntityKind,
    },
    /// The entity is gone from the later version.
    Removed {
        /// Entity id.
        id: String,
        /// Which table it lived in.
        kind: EntityKind,
    },
    /// The entity kept its identity under a new id, stated explicitly.
    Renamed {
        /// Id in the earlier version.
        from_id: String,
        /// Id in the later version.
        to_id: String,
    },
    /// A field changed value. Absence is rendered as `—`, which is distinct
    /// from a zero.
    Modified {
        /// Entity id, in the later version.
        id: String,
        /// Field name.
        field: String,
        /// Rendering in the earlier version.
        from: String,
        /// Rendering in the later version.
        to: String,
    },
}

/// The name of a table, as a change prints it.
pub open spec fn kind_label(k: EntityKind) -> Seq<char> {
    match k {
        EntityKind::Class => "Class"@,
        EntityKind::Curve => "Curve"@,
        EntityKind::Item => "Item"@,
        EntityKind::Perk => "Perk"@,
        EntityKind::Skill => "Skill"@,
    }
}

impl EntityKind {
    /// The name of the table, as a change prints it.
    pub fn label(self) -> (r: &'static str)
        ensures
            r@ == kind_label(self),
    {
        match self {
            EntityKind::Class => "Class",
            EntityKind::Curve => "Curve",
            EntityKind::Item => "Item",
            EntityKind::Perk => "Perk",
            EntityKind::Skill => "Skill",
        }
    }
}

/// How a change prints: `+ id (Kind)`, `- id (Kind)`, `~ old -> new`,
/// `  id.field: from -> to`.
pub open spec fn change_text(c: Change) -> Seq<char> {
    match c {
        Change::Added { id, kind } => "+ "@ + id@ + " ("@ + kind_label(kind) + ")"@,
        Change::Removed { id, kind } => "- "@ + id@ + " ("@ + kind_label(kind) + ")"@,
        Change::Renamed { from_id, to_id } => "~ "@ + from_id@ + " -> "@ + to_id@,
        Change::Modified { id, field, from, to } => "  "@ + id@ + "."@ + field@ + ": "@ + from@ + " -> "@ + to@,
    }
}

impl Change {
    /// The line a reader sees.
    pub fn to_string(&self) -> (r: String)
        ensures
            r@ == change_text(*self),
    {
        let mut out: Vec<char> = Vec::new();
        match self {
            Change::Added { id, kind } => {
                append_chars(&mut out, "+ ");
                append_chars(&mut out, id.as_str());
                append_chars(&mut out, " (");
                append_chars(&mut out, kind.label());
                append_chars(&mut out, ")");
            },
            Change::Removed { id, kind } => {
                append_chars(&mut out, "- ");
                append_chars(&mut out, id.as_str());
                append_chars(&mut out, " (");
                append_chars(&mut out, kind.label());
                append_chars(&mut out, ")");
            },
            Change::Renamed { from_id, to_id } => {
                append_chars(&mut out, "~ ");
                append_chars(&mut out, from_id.as_str());
                append_chars(&mut out, " -> ");
                append_chars(&mut out, to_id.as_str());
            },
            Change::Modified { id, field, from, to } => {
                append_chars(&mut out, "  ");
                append_chars(&mut out, id.as_str());
                append_chars(&mut out, ".");
                append_chars(&mut out, field.as_str());
                append_chars(&mut out, ": ");
                append_chars(&mut out, from.as_str());
                append_chars(&mut out, " -> ");
                append_chars(&mut out, to.as_str());
            },
        }
        proof {
            assert(out@ =~= change_text(*self));
        }
        string_of(&out)
    }
}

/// How one derived stat moved.
#[derive(Debug)]
pub struct StatDelta {
    /// Derived stat id.
    pub id: String,
    /// Value in the earlier version.
    pub from: Fixed,
    /// Value in the later version.
    pub to: Fixed,
}

impl StatDelta {
    /// True when the value moved at all.
    pub fn changed(&self) -> (r: bool)
        ensures
            r == (self.from@ != self.to@),
    {
        self.from.micro() != self.to.micro()
    }

    /// The signed difference.
    pub fn delta(&self) -> (r: Fixed)
        requires
            in_micro_range(self.to@ - self.from@),
        ensures
            r@ == self.to@ - self.from@,
    {
        self.to.minus(self.from)
    }
}

/// One loadout's stat deltas between two versions.
#[derive(Debug)]
pub struct Impact {
    /// The loadout's name.
    pub name: String,
    /// Per derived stat present in both versions: before and after, by id.
    pub stats: Vec<StatDelta>,
    /// Set when the loadout stops resolving in one of the versions — itself
    /// useful information.
    pub error: Option<String>,
}

/// What resolving a loadout against a dataset may give.
pub open spec fn resolve_outcome(l: Loadout, data: InMemoryDataset, r: Result<Resolved, ResolveError>) -> bool {
    &&& (!data.classes().contains_key(l.class@) <==> r matches Err(ResolveError::UnknownClass(_)))
    &&& match r {
        Ok(res) => resolved_as(l, data, res),
        Err(e) => error_explained(l, data, e),
    }
}

/// The ids of stat deltas.
pub open spec fn stat_ids(s: Seq<StatDelta>) -> Seq<Seq<char>> {
    s.map_values(|d: StatDelta| d.id@)
}

/// Deltas for exactly the stats both tables hold, in id order.
pub open spec fn deltas_as(s: Seq<StatDelta>, a: Map<Seq<char>, Confidence<Fixed>>, b: Map<Seq<char>, Confidence<Fixed>>) -> bool {
    &&& strictly_sorted(stat_ids(s))
    &&& forall|k: Seq<char>| #[trigger] stat_ids(s).contains(k) <==> (a.contains_key(k) && b.contains_key(k))
    &&& forall|i: int| 0 <= i < s.len() ==> (#[trigger] s[i]).from@ == a[s[i].id@].spec_value()@ && s[i].to@ == b[s[i].id@].spec_value()@
}

/// A loadout's impact, from its two resolutions: the first failure names
/// the error, and a stat in only one version is the dataset diff's to
/// report, not a fake delta.
pub open spec fn impact_as(imp: Impact, l: Loadout, old: Result<Resolved, ResolveError>, new: Result<Resolved, ResolveError>) -> bool {
    &&& imp.name@ == l.name@
    &&& match (old, new) {
        (Ok(a), Ok(b)) => imp.error is None && deltas_as(imp.stats@, a.derived.view(), b.derived.view()),
        (Err(e), _) => imp.stats@.len() == 0 && (imp.error matches Some(m) && m@ == resolve_error_text(e)),
        (Ok(_), Err(e)) => imp.stats@.len() == 0 && (imp.error matches Some(m) && m@ == resolve_error_text(e)),
    }
}

/// A loadout's impact is the one its two resolutions give.
pub open spec fn impact_between(imp: Impact, l: Loadout, before: InMemoryDataset, after: InMemoryDataset) -> bool {
    exists|old: Result<Resolved, ResolveError>, new: Result<Resolved, ResolveError>|
        resolve_outcome(l, before, old) && resolve_outcome(l, after, new) && #[trigger] impact_as(imp, l, old, new)
}

/// The deltas between two stat tables.
fn deltas(a: &IdMap<DerivedStatId, Confidence<Fixed>>, b: &IdMap<DerivedStatId, Confidence<Fixed>>) -> (r: Vec<StatDelta>)
    requires
        a.wf(),
        b.wf(),
    ensures
        deltas_as(r@, a.view(), b.view()),
{
    let mut out: Vec<StatDelta> = Vec::new();
    let mut i: usize = 0;
    let ghost ks = keys_of(a.entries());
    proof {
        lemma_keys_of(a.entries());
    }
    while i < a.len()
        invariant
            i <= a.entries().len(),
            a.wf(),
            b.wf(),
            ks == keys_of(a.entries()),
            ks.len() == a.entries().len(),
            forall|j: int| 0 <= j < a.entries().len() ==> #[trigger] ks[j] == a.entries()[j].0@,
            strictly_sorted(stat_ids(out@)),
            out@.len() > 0 && i < a.entries().len() ==> seq_lt(stat_ids(out@).last(), ks[i as int]),
            forall|k: Seq<char>| #[trigger] stat_ids(out@).contains(k) <==> in_prefix(ks, i as int, k) && b.view().contains_key(k),
            forall|j: int| 0 <= j < out@.len() ==> (#[trigger] out@[j]).from@ == a.view()[out@[j].id@].spec_value()@
                && out@[j].to@ == b.view()[out@[j].id@].spec_value()@,
        decreases a.entries().len() - i,
    {
        let key = a.key_at(i);
        let ghost k = ks[i as int];
        proof {
            lemma_to_map_entries(a.entries());
            assert(a.view().contains_key(ks[i as int]));
            lemma_in_prefix_step(ks, i as int);
        }
        match b.get(key.as_str()) {
            Some(v) => {
                let from = *a.value_at(i).value();
                let to = *v.value();
                let ghost before = out@;
                out.push(StatDelta { id: owned(key.as_str()), from, to });
                proof {
                    assert(stat_ids(out@) =~= stat_ids(before).push(k));
                    assert forall|x: int, y: int| 0 <= x < y < stat_ids(out@).len() implies seq_lt(#[trigger] stat_ids(out@)[x], #[trigger] stat_ids(out@)[y]) by {
                        if y == stat_ids(out@).len() - 1 {
                            if x < stat_ids(before).len() - 1 {
                                crate::text::lemma_seq_lt_transitive(stat_ids(before)[x], stat_ids(before).last(), k);
                            }
                        } else {
                            assert(stat_ids(before)[x] == stat_ids(out@)[x]);
                            assert(stat_ids(before)[y] == stat_ids(out@)[y]);
                        }
                    }
                    assert forall|k2: Seq<char>| #[trigger] stat_ids(out@).contains(k2) <==> in_prefix(ks, i + 1, k2) && b.view().contains_key(k2) by {
                        if stat_ids(out@).contains(k2) && k2 != k {
                            let w = choose|w: int| 0 <= w < stat_ids(out@).len() && stat_ids(out@)[w] == k2;
                            assert(stat_ids(before)[w] == k2);
                            assert(stat_ids(before).contains(k2));
                        }
                        if k2 != k && stat_ids(before).contains(k2) {
                            let w = choose|w: int| 0 <= w < stat_ids(before).len() && stat_ids(before)[w] == k2;
                            assert(stat_ids(out@)[w] == k2);
                        }
                        if k2 == k {
                            assert(stat_ids(out@)[stat_ids(out@).len() - 1] == k);
                        }
                    }
                    assert forall|j: int| 0 <= j < out@.len() implies (#[trigger] out@[j]).from@ == a.view()[out@[j].id@].spec_value()@
                        && out@[j].to@ == b.view()[out@[j].id@].spec_value()@ by {
                        if j < before.len() {
                            assert(out@[j] == before[j]);
                        } else {
                            assert(out@[j].id@ == k);
                            assert(a.view()[k] == a.entries()[i as int].1);
                        }
                    }
                }
            },
            None => {},
        }
        proof {
            if out@.len() > 0 && i + 1 < a.entries().len() {
                assert(seq_lt(ks[i as int], ks[i + 1]));
                if stat_ids(out@).last() != k {
                    crate::text::lemma_seq_lt_transitive(stat_ids(out@).last(), k, ks[i + 1]);
                }
            }
        }
        i = i + 1;
    }
    proof {
        lemma_to_map_entries(a.entries());
        assert forall|k: Seq<char>| #[trigger] stat_ids(out@).contains(k) <==> (a.view().contains_key(k) && b.view().contains_key(k)) by {
            if a.view().contains_key(k) {
                assert(ks.contains(k));
                let j = choose|j: int| 0 <= j < ks.len() && ks[j] == k;
                assert(in_prefix(ks, i as int, k));
            }
            if in_prefix(ks, i as int, k) {
                let j = choose|j: int| 0 <= j < i && ks[j] == k;
                assert(ks.contains(k));
            }
        }
    }
    out
}

/// Some key below `n` is `k`.
pub open spec fn in_prefix(ks: Seq<Seq<char>>, n: int, k: Seq<char>) -> bool {
    exists|j: int| 0 <= j < n && ks[j] == k
}

/// A prefix grows by its next key.
pub(crate) proof fn lemma_in_prefix_step(ks: Seq<Seq<char>>, n: int)
    requires
        0 <= n < ks.len(),
    ensures
        forall|k: Seq<char>| #[trigger] in_prefix(ks, n + 1, k) <==> in_prefix(ks, n, k) || k == ks[n],
{
    assert forall|k: Seq<char>| #[trigger] in_prefix(ks, n + 1, k) <==> in_prefix(ks, n, k) || k == ks[n] by {
        if in_prefix(ks, n + 1, k) {
            let j = choose|j: int| 0 <= j < n + 1 && ks[j] == k;
            if j < n {
                assert(in_prefix(ks, n, k));
            }
        }
        if in_prefix(ks, n, k) {
            let j = choose|j: int| 0 <= j < n && ks[j] == k;
            assert(0 <= j < n + 1 && ks[j] == k);
        }
        if k == ks[n] {
            assert(0 <= n < n + 1 && ks[n] == k);
        }
    }
}

/// Resolves each loadout against both versions and reports the deltas.
pub fn impact_diff(before: &Dataset, after: &Dataset, loadouts: &Vec<Loadout>) -> (r: Vec<Impact>)
    requires
        before.entities.wf(),
        after.entities.wf(),
        forall|i: int| 0 <= i < loadouts@.len() ==> (#[trigger] loadouts@[i]).stacks.wf(),
    ensures
        r@.len() == loadouts@.len(),
        forall|i: int| 0 <= i < loadouts@.len() ==> #[trigger] impact_between(r@[i], loadouts@[i], before.entities, after.entities),
{
    let mut out: Vec<Impact> = Vec::new();
    let mut i: usize = 0;
    while i < loadouts.len()
        invariant
            i <= loadouts@.len(),
            out@.len() == i,
            before.entities.wf(),
            after.entities.wf(),
            forall|j: int| 0 <= j < loadouts@.len() ==> (#[trigger] loadouts@[j]).stacks.wf(),
            forall|j: int| 0 <= j < i ==> #[trigger] impact_between(out@[j], loadouts@[j], before.entities, after.entities),
        decreases loadouts@.len() - i,
    {
        let l = &loadouts[i];
        let old = resolve(l, &before.entities);
        let new = resolve(l, &after.entities);
        let impact = match (&old, &new) {
            (Ok(a), Ok(b)) => Impact { name: owned(l.name.as_str()), stats: deltas(&a.derived, &b.derived), error: None },
            (Err(e), _) => Impact { name: owned(l.name.as_str()), stats: Vec::new(), error: Some(e.to_string()) },
            (Ok(_), Err(e)) => Impact { name: owned(l.name.as_str()), stats: Vec::new(), error: Some(e.to_string()) },
        };
        let ghost prev = out@;
        out.push(impact);
        proof {
            assert(resolve_outcome(loadouts@[i as int], before.entities, old));
            assert(resolve_outcome(loadouts@[i as int], after.entities, new));
            assert(impact_as(out@[i as int], loadouts@[i as int], old, new));
            assert(impact_between(out@[i as int], loadouts@[i as int], before.entities, after.entities));
            assert forall|j: int| 0 <= j < i + 1 implies #[trigger] impact_between(out@[j], loadouts@[j], before.entities, after.entities) by {
                if j < i {
                    assert(out@[j] == prev[j]);
                }
            }
        }
        i = i + 1;
    }
    out
}

// ── The dataset diff ────────────────────────────────────────────────────

/// A change as plain values.
pub enum ChangeView {
    /// New in the later version.
    Added(Seq<char>, EntityKind),
    /// Gone from the later version.
    Removed(Seq<char>, EntityKind),
    /// Renamed, from the earlier id to the later.
    Renamed(Seq<char>, Seq<char>),
    /// An entity's field, from one rendering to another.
    Modified(Seq<char>, Seq<char>, Seq<char>, Seq<char>),
}

/// A change as plain values.
pub open spec fn change_view(c: Change) -> ChangeView {
    match c {
        Change::Added { id, kind } => ChangeView::Added(id@, kind),
        Change::Removed { id, kind } => ChangeView::Removed(id@, kind),
        Change::Renamed { from_id, to_id } => ChangeView::Renamed(from_id@, to_id@),
        Change::Modified { id, field, from, to } => ChangeView::Modified(id@, field@, from@, to@),
    }
}

/// Changes as plain values.
pub open spec fn change_views(s: Seq<Change>) -> Seq<ChangeView> {
    s.map_values(|c: Change| change_view(c))
}

/// Two ascending key lists merged into one ascending list, each key once.
pub open spec fn merge(a: Seq<Seq<char>>, b: Seq<Seq<char>>) -> Seq<Seq<char>>
    decreases a.len() + b.len(),
{
    if a.len() == 0 {
        b
    } else if b.len() == 0 {
        a
    } else if a[0] == b[0] {
        seq![a[0]] + merge(a.drop_first(), b.drop_first())
    } else if seq_lt(a[0], b[0]) {
        seq![a[0]] + merge(a.drop_first(), b)
    } else {
        seq![b[0]] + merge(a, b.drop_first())
    }
}

/// A merged list holds only keys of the two lists it merged.
pub proof fn lemma_merge_members(a: Seq<Seq<char>>, b: Seq<Seq<char>>)
    ensures
        forall|k: Seq<char>| #[trigger] merge(a, b).contains(k) ==> a.contains(k) || b.contains(k),
    decreases a.len() + b.len(),
{
    if a.len() > 0 && b.len() > 0 {
        let m = merge(a, b);
        if a[0] == b[0] {
            lemma_merge_members(a.drop_first(), b.drop_first());
        } else if seq_lt(a[0], b[0]) {
            lemma_merge_members(a.drop_first(), b);
        } else {
            lemma_merge_members(a, b.drop_first());
        }
        assert forall|k: Seq<char>| #[trigger] m.contains(k) implies a.contains(k) || b.contains(k) by {
            let j = choose|j: int| 0 <= j < m.len() && m[j] == k;
            if j == 0 {
                if a[0] == b[0] || seq_lt(a[0], b[0]) {
                    assert(a[0] == k);
                } else {
                    assert(b[0] == k);
                }
            } else {
                let t = m.drop_first();
                assert(t[j - 1] == k);
                assert(t.contains(k));
                if a[0] == b[0] {
                    assert(t == merge(a.drop_first(), b.drop_first()));
                    if a.drop_first().contains(k) {
                        let x = choose|x: int| 0 <= x < a.drop_first().len() && a.drop_first()[x] == k;
                        assert(a[x + 1] == k);
                    } else {
                        let x = choose|x: int| 0 <= x < b.drop_first().len() && b.drop_first()[x] == k;
                        assert(b[x + 1] == k);
                    }
                } else if seq_lt(a[0], b[0]) {
                    assert(t == merge(a.drop_first(), b));
                    if a.drop_first().contains(k) {
                        let x = choose|x: int| 0 <= x < a.drop_first().len() && a.drop_first()[x] == k;
                        assert(a[x + 1] == k);
                    }
                } else {
                    assert(t == merge(a, b.drop_first()));
                    if b.drop_first().contains(k) {
                        let x = choose|x: int| 0 <= x < b.drop_first().len() && b.drop_first()[x] == k;
                        assert(b[x + 1] == k);
                    }
                }
            }
        }
    }
}

/// The keys of two tables, merged.
pub(crate) fn merged_keys<K: Slug, V, L: Slug, W>(a: &IdMap<K, V>, b: &IdMap<L, W>) -> (r: Vec<String>)
    ensures
        crate::text::string_views(r@) == merge(keys_of(a.entries()), keys_of(b.entries())),
{
    let ghost ka = keys_of(a.entries());
    let ghost kb = keys_of(b.entries());
    proof {
        lemma_keys_of(a.entries());
        lemma_keys_of(b.entries());
        assert(ka.subrange(0, ka.len() as int) =~= ka);
        assert(kb.subrange(0, kb.len() as int) =~= kb);
    }
    let mut out: Vec<String> = Vec::new();
    let mut i: usize = 0;
    let mut j: usize = 0;
    while i < a.len() || j < b.len()
        invariant
            i <= ka.len(),
            j <= kb.len(),
            ka == keys_of(a.entries()),
            kb == keys_of(b.entries()),
            ka.len() == a.entries().len(),
            kb.len() == b.entries().len(),
            forall|x: int| 0 <= x < ka.len() ==> #[trigger] ka[x] == a.entries()[x].0.slug(),
            forall|x: int| 0 <= x < kb.len() ==> #[trigger] kb[x] == b.entries()[x].0.slug(),
            crate::text::string_views(out@) + merge(ka.subrange(i as int, ka.len() as int), kb.subrange(j as int, kb.len() as int))
                == merge(ka, kb),
        decreases ka.len() - i + kb.len() - j,
    {
        let ghost sa = ka.subrange(i as int, ka.len() as int);
        let ghost sb = kb.subrange(j as int, kb.len() as int);
        let ghost before = crate::text::string_views(out@);
        if i < a.len() && j < b.len() {
            let x = a.key_at(i);
            let y = b.key_at(j);
            assert(sa[0] == x.slug() && sb[0] == y.slug());
            assert(sa.drop_first() =~= ka.subrange(i + 1, ka.len() as int));
            assert(sb.drop_first() =~= kb.subrange(j + 1, kb.len() as int));
            if str_eq(x.slug_str(), y.slug_str()) {
                out.push(owned(x.slug_str()));
                i = i + 1;
                j = j + 1;
            } else if str_lt(x.slug_str(), y.slug_str()) {
                out.push(owned(x.slug_str()));
                i = i + 1;
            } else {
                out.push(owned(y.slug_str()));
                j = j + 1;
            }
            proof {
                assert(crate::text::string_views(out@) =~= before.push(merge(sa, sb)[0]));
                assert(merge(sa, sb) =~= seq![merge(sa, sb)[0]] + merge(ka.subrange(i as int, ka.len() as int), kb.subrange(j as int, kb.len() as int)));
                assert(crate::text::string_views(out@) + merge(ka.subrange(i as int, ka.len() as int), kb.subrange(j as int, kb.len() as int))
                    =~= before + merge(sa, sb));
            }
        } else if i < a.len() {
            let x = a.key_at(i);
            assert(sb.len() == 0);
            assert(sa[0] == x.slug());
            out.push(owned(x.slug_str()));
            i = i + 1;
            proof {
                assert(sa =~= seq![sa[0]] + ka.subrange(i as int, ka.len() as int));
                assert(crate::text::string_views(out@) + ka.subrange(i as int, ka.len() as int) =~= before + sa);
                assert(merge(ka.subrange(i as int, ka.len() as int), kb.subrange(j as int, kb.len() as int)) == ka.subrange(i as int, ka.len() as int));
            }
        } else {
            let y = b.key_at(j);
            assert(sa.len() == 0);
            assert(sb[0] == y.slug());
            out.push(owned(y.slug_str()));
            j = j + 1;
            proof {
                assert(sb =~= seq![sb[0]] + kb.subrange(j as int, kb.len() as int));
                assert(crate::text::string_views(out@) + kb.subrange(j as int, kb.len() as int) =~= before + sb);
                assert(ka.subrange(i as int, ka.len() as int).len() == 0);
            }
        }
    }
    proof {
        assert(ka.subrange(i as int, ka.len() as int).len() == 0);
        assert(kb.subrange(j as int, kb.len() as int).len() == 0);
        assert(crate::text::string_views(out@) + Seq::<Seq<char>>::empty() =~= crate::text::string_views(out@));
    }
    out
}

/// The later id that names `old` as its previous one, among the first `n`
/// renames; the last such wins.
pub open spec fn renamed_to(r: Seq<(String, String)>, n: int, old: Seq<char>) -> Option<Seq<char>>
    decreases n,
{
    if n <= 0 {
        None
    } else if r[n - 1].1@ == old {
        Some(r[n - 1].0@)
    } else {
        renamed_to(r, n - 1, old)
    }
}

/// Which later id continues `old`, if any rename says so.
fn find_renamed_to(renames: &IdMap<String, String>, old: &str) -> (r: Option<String>)
    ensures
        opt_view(r) == renamed_to(renames.entries(), renames.entries().len() as int, old@),
{
    let mut i: usize = renames.len();
    while i > 0
        invariant
            i <= renames.entries().len(),
            forall|j: int| i <= j < renames.entries().len() ==> (#[trigger] renames.entries()[j]).1@ != old@,
            renamed_to(renames.entries(), renames.entries().len() as int, old@) == renamed_to(renames.entries(), i as int, old@),
        decreases i,
    {
        let v = renames.value_at(i - 1);
        if str_eq(v.as_str(), old) {
            return Some(owned(renames.key_at(i - 1).as_str()));
        }
        i = i - 1;
    }
    None
}

/// An optional string as text.
pub open spec fn opt_view(s: Option<String>) -> Option<Seq<char>> {
    match s {
        Some(x) => Some(x@),
        None => None,
    }
}

/// The change an id heads the list with: added, renamed or removed, if any.
pub open spec fn head_changes(before: Dataset, after: Dataset, x: Seq<char>) -> Seq<ChangeView> {
    let a = after.ids.view();
    let b = before.ids.view();
    if a.contains_key(x) && !b.contains_key(x) && !after.renames.view().contains_key(x) {
        seq![ChangeView::Added(x, a[x])]
    } else if b.contains_key(x) {
        match renamed_to(after.renames.entries(), after.renames.entries().len() as int, x) {
            Some(y) => seq![ChangeView::Renamed(x, y)],
            None => if !a.contains_key(x) {
                seq![ChangeView::Removed(x, b[x])]
            } else {
                Seq::empty()
            },
        }
    } else {
        Seq::empty()
    }
}

/// A field's rendering, or `—` when the entity has no such field.
pub open spec fn rendering(m: Map<Seq<char>, Seq<char>>, name: Seq<char>) -> Seq<char> {
    if m.contains_key(name) {
        m[name]
    } else {
        "—"@
    }
}

/// The modifications among the first `n` field names.
pub open spec fn field_changes(
    x: Seq<char>,
    names: Seq<Seq<char>>,
    n: int,
    from: Map<Seq<char>, Seq<char>>,
    to: Map<Seq<char>, Seq<char>>,
) -> Seq<ChangeView>
    decreases n,
{
    if n <= 0 {
        Seq::empty()
    } else {
        let name = names[n - 1];
        field_changes(x, names, n - 1, from, to) + if rendering(from, name) != rendering(to, name) {
            seq![ChangeView::Modified(x, name, rendering(from, name), rendering(to, name))]
        } else {
            Seq::empty()
        }
    }
}

/// The modifications an id shows: its fields against those of the id it
/// continues, following a rename.
pub open spec fn mod_changes(
    after: Dataset,
    fb: IdMap<String, IdMap<String, String>>,
    fa: IdMap<String, IdMap<String, String>>,
    x: Seq<char>,
) -> Seq<ChangeView> {
    let old = if after.renames.view().contains_key(x) { after.renames.view()[x]@ } else { x };
    if fa.view().contains_key(x) && fb.view().contains_key(old) {
        let bm = fb.view()[old];
        let am = fa.view()[x];
        let names = merge(keys_of(bm.entries()), keys_of(am.entries()));
        field_changes(x, names, names.len() as int, text_map(bm.view()), text_map(am.view()))
    } else {
        Seq::empty()
    }
}

/// The changes of the first `n` ids, each id's head change before its
/// modifications.
pub open spec fn diff_over(
    before: Dataset,
    after: Dataset,
    fb: IdMap<String, IdMap<String, String>>,
    fa: IdMap<String, IdMap<String, String>>,
    us: Seq<Seq<char>>,
    n: int,
) -> Seq<ChangeView>
    decreases n,
{
    if n <= 0 {
        Seq::empty()
    } else {
        diff_over(before, after, fb, fa, us, n - 1) + head_changes(before, after, us[n - 1]) + mod_changes(after, fb, fa, us[n - 1])
    }
}

/// Every id of either version, in order.
pub open spec fn all_ids(before: Dataset, after: Dataset) -> Seq<Seq<char>> {
    merge(keys_of(before.ids.entries()), keys_of(after.ids.entries()))
}

/// The diff of two versions, given their field tables.
pub open spec fn diff_as(r: Seq<Change>, before: Dataset, after: Dataset, fb: IdMap<String, IdMap<String, String>>, fa: IdMap<String, IdMap<String, String>>) -> bool {
    change_views(r) == diff_over(before, after, fb, fa, all_ids(before, after), all_ids(before, after).len() as int)
}

/// Appends an id's head change, if it has one.
fn push_head(out: &mut Vec<Change>, before: &Dataset, after: &Dataset, x: &str)
    requires
        before.ids.wf(),
        after.ids.wf(),
        after.renames.wf(),
    ensures
        change_views(final(out)@) == change_views(old(out)@) + head_changes(*before, *after, x@),
{
    let ghost o = change_views(out@);
    match after.ids.get(x) {
        Some(kind) => {
            if !before.ids.contains_key(x) && !after.renames.contains_key(x) {
                out.push(Change::Added { id: owned(x), kind: *kind });
                proof {
                    assert(change_views(out@) =~= o + head_changes(*before, *after, x@));
                }
                return;
            }
        },
        None => {},
    }
    match before.ids.get(x) {
        Some(kind) => match find_renamed_to(&after.renames, x) {
            Some(y) => {
                out.push(Change::Renamed { from_id: owned(x), to_id: y });
            },
            None => {
                if !after.ids.contains_key(x) {
                    out.push(Change::Removed { id: owned(x), kind: *kind });
                }
            },
        },
        None => {},
    }
    proof {
        assert(change_views(out@) =~= o + head_changes(*before, *after, x@));
    }
}

/// Appends an id's modifications.
fn push_mods(
    out: &mut Vec<Change>,
    after: &Dataset,
    fb: &IdMap<String, IdMap<String, String>>,
    fa: &IdMap<String, IdMap<String, String>>,
    x: &str,
)
    requires
        after.renames.wf(),
        fb.wf(),
        fa.wf(),
        forall|k: Seq<char>| #[trigger] fb.view().contains_key(k) ==> fb.view()[k].wf(),
        forall|k: Seq<char>| #[trigger] fa.view().contains_key(k) ==> fa.view()[k].wf(),
    ensures
        change_views(final(out)@) == change_views(old(out)@) + mod_changes(*after, *fb, *fa, x@),
{
    let ghost o = change_views(out@);
    let am = match fa.get(x) {
        Some(m) => m,
        None => {
            assert(change_views(out@) =~= o + mod_changes(*after, *fb, *fa, x@));
            return;
        },
    };
    let old: String = match after.renames.get(x) {
        Some(v) => owned(v.as_str()),
        None => owned(x),
    };
    let bm = match fb.get(old.as_str()) {
        Some(m) => m,
        None => {
            assert(change_views(out@) =~= o + mod_changes(*after, *fb, *fa, x@));
            return;
        },
    };
    let names = merged_keys(bm, am);
    let ghost nv = crate::text::string_views(names@);
    let mut i: usize = 0;
    while i < names.len()
        invariant
            i <= names@.len(),
            nv == crate::text::string_views(names@),
            bm.wf(),
            am.wf(),
            change_views(out@) == o + field_changes(x@, nv, i as int, text_map(bm.view()), text_map(am.view())),
        decreases names@.len() - i,
    {
        let name = names[i].as_str();
        let from: String = match bm.get(name) {
            Some(v) => owned(v.as_str()),
            None => owned("—"),
        };
        let to: String = match am.get(name) {
            Some(v) => owned(v.as_str()),
            None => owned("—"),
        };
        proof {
            assert(nv[i as int] == name@);
            assert(from@ == rendering(text_map(bm.view()), name@));
            assert(to@ == rendering(text_map(am.view()), name@));
        }
        let ghost before = change_views(out@);
        let ghost step = field_changes(x@, nv, i + 1, text_map(bm.view()), text_map(am.view()));
        assert(step == field_changes(x@, nv, i as int, text_map(bm.view()), text_map(am.view())) + if from@ != to@ {
            seq![ChangeView::Modified(x@, name@, from@, to@)]
        } else {
            Seq::<ChangeView>::empty()
        });
        if !str_eq(from.as_str(), to.as_str()) {
            out.push(Change::Modified { id: owned(x), field: owned(name), from, to });
            proof {
                assert(change_views(out@) =~= before.push(change_view(out@[out@.len() - 1])));
            }
        } else {
            assert(change_views(out@) =~= before + Seq::<ChangeView>::empty());
        }
        proof {
            assert(change_views(out@) =~= o + field_changes(x@, nv, i + 1, text_map(bm.view()), text_map(am.view())));
        }
        i = i + 1;
    }
}

/// Compares two dataset versions structurally. Changes come back ordered
/// by entity id, then by field name; an entity's added, removed or renamed
/// line comes before its field changes.
pub fn dataset_diff(before: &Dataset, after: &Dataset) -> (r: Vec<Change>)
    requires
        before.entities.wf(),
        before.ids.wf(),
        after.entities.wf(),
        after.ids.wf(),
        after.renames.wf(),
    ensures
        exists|fb: IdMap<String, IdMap<String, String>>, fa: IdMap<String, IdMap<String, String>>|
            fields_as(fb, *before) && fields_as(fa, *after) && #[trigger] diff_as(r@, *before, *after, fb, fa),
{
    let fb = fields(before);
    let fa = fields(after);
    let us = merged_keys(&before.ids, &after.ids);
    let ghost uv = crate::text::string_views(us@);
    let mut out: Vec<Change> = Vec::new();
    let mut i: usize = 0;
    while i < us.len()
        invariant
            i <= us@.len(),
            uv == crate::text::string_views(us@),
            uv == all_ids(*before, *after),
            before.ids.wf(),
            after.ids.wf(),
            after.renames.wf(),
            fields_as(fb, *before),
            fields_as(fa, *after),
            change_views(out@) == diff_over(*before, *after, fb, fa, uv, i as int),
        decreases us@.len() - i,
    {
        let x = us[i].as_str();
        assert(uv[i as int] == x@);
        push_head(&mut out, before, after, x);
        push_mods(&mut out, after, &fb, &fa, x);
        proof {
            assert(change_views(out@) =~= diff_over(*before, *after, fb, fa, uv, i + 1));
        }
        i = i + 1;
    }
    proof {
        assert(diff_as(out@, *before, *after, fb, fa));
    }
    out
}

// ── Laws ────────────────────────────────────────────────────────────────

/// A strictly ascending list merged with itself is itself.
proof fn lemma_merge_self(a: Seq<Seq<char>>)
    ensures
        merge(a, a) == a,
    decreases a.len(),
{
    if a.len() > 0 {
        lemma_merge_self(a.drop_first());
        assert(seq![a[0]] + a.drop_first() =~= a);
    }
}

/// A rename found names an entry whose old id is the one asked about.
proof fn lemma_renamed_to_entry(r: Seq<(String, String)>, n: int, old: Seq<char>)
    requires
        0 <= n <= r.len(),
        renamed_to(r, n, old) is Some,
    ensures
        exists|j: int| 0 <= j < n && (#[trigger] r[j]).1@ == old,
    decreases n,
{
    if r[n - 1].1@ != old {
        lemma_renamed_to_entry(r, n - 1, old);
        let j = choose|j: int| 0 <= j < n - 1 && (#[trigger] r[j]).1@ == old;
        assert(0 <= j < n && r[j].1@ == old);
    }
}

/// Identical field tables show no modification.
proof fn lemma_no_field_changes(x: Seq<char>, names: Seq<Seq<char>>, n: int, m: Map<Seq<char>, Seq<char>>)
    ensures
        field_changes(x, names, n, m, m) == Seq::<ChangeView>::empty(),
    decreases n,
{
    if n > 0 {
        lemma_no_field_changes(x, names, n - 1, m);
        assert(field_changes(x, names, n, m, m) =~= Seq::<ChangeView>::empty());
    }
}

/// A version compared with itself shows no change, as long as its renames
/// retire their old ids (which loading a version checks).
pub proof fn law_a_version_equals_itself(d: Dataset, fb: IdMap<String, IdMap<String, String>>, fa: IdMap<String, IdMap<String, String>>)
    requires
        d.ids.wf(),
        d.renames.wf(),
        fields_as(fb, d),
        fields_as(fa, d),
        forall|k: Seq<char>| #[trigger] d.renames.view().contains_key(k) ==> !d.ids.view().contains_key(d.renames.view()[k]@),
    ensures
        diff_over(d, d, fb, fa, all_ids(d, d), all_ids(d, d).len() as int) == Seq::<ChangeView>::empty(),
{
    let ks = keys_of(d.ids.entries());
    lemma_merge_self(ks);
    lemma_keys_of(d.ids.entries());
    lemma_to_map_entries(d.ids.entries());
    lemma_keys_of(d.renames.entries());
    lemma_to_map_entries(d.renames.entries());
    let us = all_ids(d, d);
    assert(us == ks);
    assert forall|n: int| 0 <= n <= us.len() implies #[trigger] diff_over(d, d, fb, fa, us, n) == Seq::<ChangeView>::empty() by {
        lemma_diff_self_prefix(d, fb, fa, us, n);
    }
}

/// Each id of a version compared with itself contributes nothing.
proof fn lemma_diff_self_prefix(d: Dataset, fb: IdMap<String, IdMap<String, String>>, fa: IdMap<String, IdMap<String, String>>, us: Seq<Seq<char>>, n: int)
    requires
        d.ids.wf(),
        d.renames.wf(),
        fields_as(fb, d),
        fields_as(fa, d),
        forall|k: Seq<char>| #[trigger] d.renames.view().contains_key(k) ==> !d.ids.view().contains_key(d.renames.view()[k]@),
        us == keys_of(d.ids.entries()),
        0 <= n <= us.len(),
    ensures
        diff_over(d, d, fb, fa, us, n) == Seq::<ChangeView>::empty(),
    decreases n,
{
    if n > 0 {
        lemma_diff_self_prefix(d, fb, fa, us, n - 1);
        let x = us[n - 1];
        lemma_keys_of(d.ids.entries());
        lemma_to_map_entries(d.ids.entries());
        assert(d.ids.view().contains_key(x));
        let rn = d.renames.entries();
        if renamed_to(rn, rn.len() as int, x) is Some {
            lemma_renamed_to_entry(rn, rn.len() as int, x);
            let j = choose|j: int| 0 <= j < rn.len() && (#[trigger] rn[j]).1@ == x;
            lemma_keys_of(rn);
            lemma_to_map_entries(rn);
            assert(d.renames.view().contains_key(keys_of(rn)[j]));
            assert(d.renames.view()[keys_of(rn)[j]] == rn[j].1);
        }
        assert(head_changes(d, d, x) =~= Seq::<ChangeView>::empty());
        if d.renames.view().contains_key(x) {
            assert(!fb.view().contains_key(d.renames.view()[x]@));
            assert(mod_changes(d, fb, fa, x) =~= Seq::<ChangeView>::empty());
        } else {
            assert(fb.view().contains_key(x));
            assert(fa.view().contains_key(x));
            let bm = fb.view()[x];
            let am = fa.view()[x];
            let names = merge(keys_of(bm.entries()), keys_of(am.entries()));
            assert(text_map(bm.view()) == text_map(am.view()));
            lemma_no_field_changes(x, names, names.len() as int, text_map(bm.view()));
            assert(mod_changes(d, fb, fa, x) =~= Seq::<ChangeView>::empty());
        }
        assert(diff_over(d, d, fb, fa, us, n) =~= Seq::<ChangeView>::empty());
    }
}

/// What a reported line says of one change, checked against the two
/// versions: an added id is in the later version only and is no rename's
/// target; a removed id is in the earlier version only and no rename
/// continues it; a renamed id is in the earlier version and a rename of the
/// later version continues it under the reported id; a modified field shows
/// two different renderings.
pub open spec fn change_true(before: Dataset, after: Dataset, c: ChangeView) -> bool {
    match c {
        ChangeView::Added(x, k) => after.ids.view().contains_key(x) && after.ids.view()[x] == k
            && !before.ids.view().contains_key(x) && !after.renames.view().contains_key(x),
        ChangeView::Removed(x, k) => before.ids.view().contains_key(x) && before.ids.view()[x] == k
            && !after.ids.view().contains_key(x)
            && renamed_to(after.renames.entries(), after.renames.entries().len() as int, x) is None,
        ChangeView::Renamed(x, y) => before.ids.view().contains_key(x)
            && renamed_to(after.renames.entries(), after.renames.entries().len() as int, x) == Some(y),
        ChangeView::Modified(_, _, from, to) => from != to,
    }
}

/// Every field change among the first `n` names shows two different
/// renderings.
proof fn lemma_field_changes_true(
    before: Dataset,
    after: Dataset,
    x: Seq<char>,
    names: Seq<Seq<char>>,
    n: int,
    from: Map<Seq<char>, Seq<char>>,
    to: Map<Seq<char>, Seq<char>>,
)
    ensures
        forall|c: ChangeView| #[trigger] field_changes(x, names, n, from, to).contains(c) ==> change_true(before, after, c),
    decreases n,
{
    if n > 0 {
        lemma_field_changes_true(before, after, x, names, n - 1, from, to);
        let p = field_changes(x, names, n - 1, from, to);
        let name = names[n - 1];
        let tail = if rendering(from, name) != rendering(to, name) {
            seq![ChangeView::Modified(x, name, rendering(from, name), rendering(to, name))]
        } else {
            Seq::empty()
        };
        assert forall|c: ChangeView| #[trigger] field_changes(x, names, n, from, to).contains(c) implies change_true(before, after, c) by {
            let all = field_changes(x, names, n, from, to);
            assert(all == p + tail);
            let j = choose|j: int| 0 <= j < all.len() && all[j] == c;
            if j < p.len() {
                assert(p[j] == c);
                assert(p.contains(c));
            } else {
                assert(tail[j - p.len()] == c);
            }
        }
    }
}

/// Every line the diff reports is true of the two versions: what it calls
/// added, removed, renamed or modified is so.
pub proof fn law_every_reported_change_is_true(
    before: Dataset,
    after: Dataset,
    fb: IdMap<String, IdMap<String, String>>,
    fa: IdMap<String, IdMap<String, String>>,
    us: Seq<Seq<char>>,
    n: int,
)
    requires
        0 <= n <= us.len(),
    ensures
        forall|c: ChangeView| #[trigger] diff_over(before, after, fb, fa, us, n).contains(c) ==> change_true(before, after, c),
    decreases n,
{
    if n > 0 {
        law_every_reported_change_is_true(before, after, fb, fa, us, n - 1);
        let x = us[n - 1];
        let p = diff_over(before, after, fb, fa, us, n - 1);
        let h = head_changes(before, after, x);
        let m = mod_changes(after, fb, fa, x);
        let earlier = if after.renames.view().contains_key(x) { after.renames.view()[x]@ } else { x };
        if fa.view().contains_key(x) && fb.view().contains_key(earlier) {
            let bm = fb.view()[earlier];
            let am = fa.view()[x];
            let names = merge(keys_of(bm.entries()), keys_of(am.entries()));
            lemma_field_changes_true(before, after, x, names, names.len() as int, text_map(bm.view()), text_map(am.view()));
        }
        assert forall|c: ChangeView| #[trigger] diff_over(before, after, fb, fa, us, n).contains(c) implies change_true(before, after, c) by {
            let all = diff_over(before, after, fb, fa, us, n);
            assert(all == p + h + m);
            let j = choose|j: int| 0 <= j < all.len() && all[j] == c;
            if j < p.len() {
                assert(p[j] == c);
                assert(p.contains(c));
            } else if j < p.len() + h.len() {
                assert(h[j - p.len()] == c);
            } else {
                assert(m[j - p.len() - h.len()] == c);
                assert(m.contains(c));
            }
        }
    }
}

/// A merged list holds every key of the two lists it merged.
pub proof fn lemma_merge_complete(a: Seq<Seq<char>>, b: Seq<Seq<char>>)
    ensures
        forall|k: Seq<char>| a.contains(k) || b.contains(k) ==> #[trigger] merge(a, b).contains(k),
    decreases a.len() + b.len(),
{
    if a.len() > 0 && b.len() > 0 {
        let m = merge(a, b);
        if a[0] == b[0] {
            lemma_merge_complete(a.drop_first(), b.drop_first());
        } else if seq_lt(a[0], b[0]) {
            lemma_merge_complete(a.drop_first(), b);
        } else {
            lemma_merge_complete(a, b.drop_first());
        }
        assert forall|k: Seq<char>| a.contains(k) || b.contains(k) implies #[trigger] merge(a, b).contains(k) by {
            let t = m.drop_first();
            if a[0] == b[0] {
                assert(t == merge(a.drop_first(), b.drop_first()));
                if k == a[0] {
                    assert(m[0] == k);
                } else if a.contains(k) {
                    let x = choose|x: int| 0 <= x < a.len() && a[x] == k;
                    assert(a.drop_first()[x - 1] == k);
                    assert(t.contains(k));
                    let y = choose|y: int| 0 <= y < t.len() && t[y] == k;
                    assert(m[y + 1] == k);
                } else {
                    let x = choose|x: int| 0 <= x < b.len() && b[x] == k;
                    assert(b.drop_first()[x - 1] == k);
                    assert(t.contains(k));
                    let y = choose|y: int| 0 <= y < t.len() && t[y] == k;
                    assert(m[y + 1] == k);
                }
            } else if seq_lt(a[0], b[0]) {
                assert(t == merge(a.drop_first(), b));
                if k == a[0] {
                    assert(m[0] == k);
                } else {
                    if a.contains(k) {
                        let x = choose|x: int| 0 <= x < a.len() && a[x] == k;
                        assert(a.drop_first()[x - 1] == k);
                    }
                    assert(t.contains(k));
                    let y = choose|y: int| 0 <= y < t.len() && t[y] == k;
                    assert(m[y + 1] == k);
                }
            } else {
                assert(t == merge(a, b.drop_first()));
                if k == b[0] {
                    assert(m[0] == k);
                } else {
                    if b.contains(k) {
                        let x = choose|x: int| 0 <= x < b.len() && b[x] == k;
                        assert(b.drop_first()[x - 1] == k);
                    }
                    assert(t.contains(k));
                    let y = choose|y: int| 0 <= y < t.len() && t[y] == k;
                    assert(m[y + 1] == k);
                }
            }
        }
    }
}

/// Every id's head change appears among the first `n` ids' changes once
/// the id is among them.
proof fn lemma_heads_reported(
    before: Dataset,
    after: Dataset,
    fb: IdMap<String, IdMap<String, String>>,
    fa: IdMap<String, IdMap<String, String>>,
    us: Seq<Seq<char>>,
    n: int,
    i: int,
    c: ChangeView,
)
    requires
        0 <= i < n <= us.len(),
        head_changes(before, after, us[i]).contains(c),
    ensures
        diff_over(before, after, fb, fa, us, n).contains(c),
    decreases n,
{
    let p = diff_over(before, after, fb, fa, us, n - 1);
    let h = head_changes(before, after, us[n - 1]);
    let m = mod_changes(after, fb, fa, us[n - 1]);
    let all = diff_over(before, after, fb, fa, us, n);
    assert(all == p + h + m);
    if i < n - 1 {
        lemma_heads_reported(before, after, fb, fa, us, n - 1, i, c);
        let j = choose|j: int| 0 <= j < p.len() && p[j] == c;
        assert(all[j] == c);
    } else {
        let j = choose|j: int| 0 <= j < h.len() && h[j] == c;
        assert(all[p.len() + j] == c);
    }
}

/// Every id the later version adds, every id it renames and every id it
/// drops is reported as such.
pub proof fn law_every_head_change_is_reported(
    before: Dataset,
    after: Dataset,
    fb: IdMap<String, IdMap<String, String>>,
    fa: IdMap<String, IdMap<String, String>>,
    x: Seq<char>,
)
    requires
        before.ids.wf(),
        after.ids.wf(),
    ensures
        ({
            let d = diff_over(before, after, fb, fa, all_ids(before, after), all_ids(before, after).len() as int);
            let a = after.ids.view();
            let b = before.ids.view();
            let rn = renamed_to(after.renames.entries(), after.renames.entries().len() as int, x);
            &&& a.contains_key(x) && !b.contains_key(x) && !after.renames.view().contains_key(x) ==> d.contains(ChangeView::Added(x, a[x]))
            &&& b.contains_key(x) && rn is Some ==> d.contains(ChangeView::Renamed(x, rn->0))
            &&& b.contains_key(x) && rn is None && !a.contains_key(x) ==> d.contains(ChangeView::Removed(x, b[x]))
        }),
{
    let us = all_ids(before, after);
    let a = after.ids.view();
    let b = before.ids.view();
    lemma_keys_of(before.ids.entries());
    lemma_to_map_entries(before.ids.entries());
    lemma_keys_of(after.ids.entries());
    lemma_to_map_entries(after.ids.entries());
    lemma_merge_complete(keys_of(before.ids.entries()), keys_of(after.ids.entries()));
    if a.contains_key(x) || b.contains_key(x) {
        assert(keys_of(before.ids.entries()).contains(x) || keys_of(after.ids.entries()).contains(x));
        assert(us.contains(x));
        let i = choose|i: int| 0 <= i < us.len() && us[i] == x;
        let h = head_changes(before, after, x);
        if h.len() > 0 {
            lemma_heads_reported(before, after, fb, fa, us, us.len() as int, i, h[0]);
        }
    }
}

/// A stat delta's difference is what separates its two values, and it is
/// zero exactly when the value did not move, wherever that difference fits
/// the fixed-point range (beyond it, there is no difference to report).
pub proof fn law_delta_is_the_move(s: StatDelta)
    requires
        in_micro_range(s.to@ - s.from@),
    ensures
        s.from@ + (s.to@ - s.from@) == s.to@,
        (s.to@ - s.from@ != 0) <==> (s.from@ != s.to@),
{
}


/// Among the first `n` field names, every one whose renderings differ
/// (absence rendering as `—`) has its modification listed.
proof fn lemma_field_changes_complete(
    x: Seq<char>,
    names: Seq<Seq<char>>,
    n: int,
    from: Map<Seq<char>, Seq<char>>,
    to: Map<Seq<char>, Seq<char>>,
    i: int,
)
    requires
        0 <= i < n <= names.len(),
        ({
            let a = if from.contains_key(names[i]) { from[names[i]] } else { "—"@ };
            let b = if to.contains_key(names[i]) { to[names[i]] } else { "—"@ };
            a != b
        }),
    ensures
        ({
            let a = if from.contains_key(names[i]) { from[names[i]] } else { "—"@ };
            let b = if to.contains_key(names[i]) { to[names[i]] } else { "—"@ };
            field_changes(x, names, n, from, to).contains(ChangeView::Modified(x, names[i], a, b))
        }),
    decreases n,
{
    let a = if from.contains_key(names[i]) { from[names[i]] } else { "—"@ };
    let b = if to.contains_key(names[i]) { to[names[i]] } else { "—"@ };
    let c = ChangeView::Modified(x, names[i], a, b);
    let p = field_changes(x, names, n - 1, from, to);
    let all = field_changes(x, names, n, from, to);
    if i < n - 1 {
        lemma_field_changes_complete(x, names, n - 1, from, to, i);
        let j = choose|j: int| 0 <= j < p.len() && p[j] == c;
        assert(all[j] == c);
    } else {
        assert(all[p.len() as int] == c);
    }
}

/// The changes of the first `n` ids hold every modification of each.
proof fn lemma_mods_reported(
    before: Dataset,
    after: Dataset,
    fb: IdMap<String, IdMap<String, String>>,
    fa: IdMap<String, IdMap<String, String>>,
    us: Seq<Seq<char>>,
    n: int,
    i: int,
    c: ChangeView,
)
    requires
        0 <= i < n <= us.len(),
        mod_changes(after, fb, fa, us[i]).contains(c),
    ensures
        diff_over(before, after, fb, fa, us, n).contains(c),
    decreases n,
{
    let p = diff_over(before, after, fb, fa, us, n - 1);
    let h = head_changes(before, after, us[n - 1]);
    let m = mod_changes(after, fb, fa, us[n - 1]);
    let all = diff_over(before, after, fb, fa, us, n);
    assert(all == p + h + m);
    if i < n - 1 {
        lemma_mods_reported(before, after, fb, fa, us, n - 1, i, c);
        let j = choose|j: int| 0 <= j < p.len() && p[j] == c;
        assert(all[j] == c);
    } else {
        let j = choose|j: int| 0 <= j < m.len() && m[j] == c;
        assert(all[p.len() + h.len() + j] == c);
    }
}

/// **Every field change is reported.** For an entity the later version
/// holds, compared with the entity it continues (through a rename, if
/// any): every field name either version carries whose text differs,
/// absence reading as `—`, appears in the diff as a modification from the
/// earlier text to the later. A field that appears or disappears is a
/// change like any other.
pub proof fn law_every_field_change_is_reported(
    before: Dataset,
    after: Dataset,
    fb: IdMap<String, IdMap<String, String>>,
    fa: IdMap<String, IdMap<String, String>>,
    x: Seq<char>,
    name: Seq<char>,
)
    requires
        before.ids.wf(),
        after.ids.wf(),
        after.ids.view().contains_key(x),
        fa.view().contains_key(x),
        fb.view().contains_key(if after.renames.view().contains_key(x) { after.renames.view()[x]@ } else { x }),
        fb.view()[if after.renames.view().contains_key(x) { after.renames.view()[x]@ } else { x }].wf(),
        fa.view()[x].wf(),
    ensures
        ({
            let old = if after.renames.view().contains_key(x) { after.renames.view()[x]@ } else { x };
            let bm = fb.view()[old].view();
            let am = fa.view()[x].view();
            let from = if bm.contains_key(name) { bm[name]@ } else { "—"@ };
            let to = if am.contains_key(name) { am[name]@ } else { "—"@ };
            (bm.contains_key(name) || am.contains_key(name)) && from != to ==> diff_over(
                before, after, fb, fa, all_ids(before, after), all_ids(before, after).len() as int,
            ).contains(ChangeView::Modified(x, name, from, to))
        }),
{
    let old = if after.renames.view().contains_key(x) { after.renames.view()[x]@ } else { x };
    let bmap = fb.view()[old];
    let amap = fa.view()[x];
    let bm = bmap.view();
    let am = amap.view();
    let from = if bm.contains_key(name) { bm[name]@ } else { "—"@ };
    let to = if am.contains_key(name) { am[name]@ } else { "—"@ };
    if (bm.contains_key(name) || am.contains_key(name)) && from != to {
        let c = ChangeView::Modified(x, name, from, to);
        lemma_keys_of(bmap.entries());
        lemma_to_map_entries(bmap.entries());
        lemma_keys_of(amap.entries());
        lemma_to_map_entries(amap.entries());
        let names = merge(keys_of(bmap.entries()), keys_of(amap.entries()));
        lemma_merge_complete(keys_of(bmap.entries()), keys_of(amap.entries()));
        assert(names.contains(name));
        let i = choose|i: int| 0 <= i < names.len() && names[i] == name;
        let tb = text_map(bm);
        let ta = text_map(am);
        assert(tb.contains_key(name) == bm.contains_key(name));
        assert(ta.contains_key(name) == am.contains_key(name));
        if bm.contains_key(name) {
            assert(tb[name] == bm[name]@);
        }
        if am.contains_key(name) {
            assert(ta[name] == am[name]@);
        }
        lemma_field_changes_complete(x, names, names.len() as int, tb, ta, i);
        assert(mod_changes(after, fb, fa, x) == field_changes(x, names, names.len() as int, tb, ta));
        let us = all_ids(before, after);
        lemma_keys_of(after.ids.entries());
        lemma_to_map_entries(after.ids.entries());
        lemma_merge_complete(keys_of(before.ids.entries()), keys_of(after.ids.entries()));
        assert(keys_of(after.ids.entries()).contains(x));
        assert(us.contains(x));
        let k = choose|k: int| 0 <= k < us.len() && us[k] == x;
        lemma_mods_reported(before, after, fb, fa, us, us.len() as int, k, c);
    }
}
} // verus!
