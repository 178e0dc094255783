//! Reading a versioned dataset: the graded values its files carry, and the
//! errors a file can be refused with.
//!
//! An unrecognised key is a dataset error, not something to skip silently,
//! and an `unknown` grade must say what was assumed.

use vstd::prelude::*;

use crate::confidence::{Confidence, ConfidenceLevel};
use crate::curve::Curve;
use crate::dataset_file::{
    classes_file_fits, classes_file_read, curves_file_fits, curves_file_read, decode_classes_file, decode_curves_file,
    decode_items_file, decode_manifest, decode_perks_file, decode_skills_file, items_file_fits, items_file_read, manifest_fits,
    manifest_read, perks_file_fits, perks_file_read, skills_file_fits, skills_file_read, ClassDto, ComboDto, CurveDto, DerivedDto, EffectDto, EffectKind, GradedPoints, ItemDto, PerkDto, SkillDto, StrikeDto, WeaponDto,
    WeightDto, WeightKind, point_views,
};
use crate::doc::{Doc, json_doc, opt_view, parse_json};
use crate::fixed::Fixed;
use crate::derived::{DerivedStatDef, RatingInput, distinct_ids};
use crate::ids::{ClassId, CurveId, DerivedStatId, ItemId, PerkId, SkillId};
use crate::loadout::{Slot, slot_name};
use crate::schema::{
    AttributeBlock, AttributeKind, ClassDef, ComboHit, Effect, EffectView, InMemoryDataset, ItemDef, PerkDef, SkillDef,
    StackedEffect, StrikeProfile, WeaponProfile, attribute_name, block_get, lemma_attribute_names_differ, names_attribute,
};
use crate::stats::{DamageTag, Rarity, rarity_name, tag_name, tag_named};
use crate::text::str_eq;
use crate::table::{IdMap, lemma_keys_of, lemma_to_map_entries};
use crate::text::{append_chars, owned, string_of};

verus! {

/// Provenance for one dataset file: where it came from, when, and whether
/// a human has approved it. Unreviewed data never reaches the resolver.
#[derive(Debug)]
pub struct SourceRecord {
    /// File this record describes.
    pub file: String,
    /// Where the values came from (`wiki:spellsandguns`, `patch-notes`, …).
    pub origin: String,
    /// When the source was read.
    pub scraped: String,
    /// Whether a human approved it.
    pub reviewed: bool,
}

/// A dataset version's manifest.
#[derive(Debug)]
pub struct Manifest {
    /// The game's build id — the version key.
    pub build: String,
    /// Human-friendly alias (`hotfix-123`).
    pub label: String,
    /// Release date of the build.
    pub released: String,
    /// Predecessor build, if any.
    pub previous: Option<String>,
    /// Per-file provenance.
    pub sources: Vec<SourceRecord>,
}

/// Why a dataset could not be loaded.
#[derive(Debug)]
pub enum LoadError {
    /// A file could not be read.
    Io {
        /// The file.
        path: String,
        /// What the system said.
        message: String,
    },
    /// A file is not the shape the format defines: malformed, an unknown
    /// field, a missing mandatory field, a bad enum value.
    Schema {
        /// The file, by its stem (`items` for the items file).
        path: String,
        /// What is wrong with it.
        message: String,
    },
    /// Structurally valid but semantically wrong.
    Invalid(String),
}

/// The message a load error renders to.
pub open spec fn load_error_text(e: LoadError) -> Seq<char> {
    match e {
        LoadError::Io { path, message } => path@ + ": "@ + message@,
        LoadError::Schema { path, message } => path@ + ": "@ + message@,
        LoadError::Invalid(m) => m@,
    }
}

impl LoadError {
    /// The message a reader sees.
    pub fn to_string(&self) -> (r: String)
        ensures
            r@ == load_error_text(*self),
    {
        match self {
            LoadError::Io { path, message } | LoadError::Schema { path, message } => {
                let mut out: Vec<char> = Vec::new();
                append_chars(&mut out, path.as_str());
                append_chars(&mut out, ": ");
                append_chars(&mut out, message.as_str());
                string_of(&out)
            },
            LoadError::Invalid(m) => owned(m.as_str()),
        }
    }
}

/// A grade as a file writes it.
#[derive(Copy, Clone, PartialEq, Eq, Structural, Debug)]
pub enum ConfidenceDto {
    /// `verified`
    Verified,
    /// `unverified`
    Unverified,
    /// `unknown`
    Unknown,
}

/// The grade a name names.
pub open spec fn grade_named(text: Seq<char>) -> Option<ConfidenceDto> {
    if text == "verified"@ {
        Some(ConfidenceDto::Verified)
    } else if text == "unverified"@ {
        Some(ConfidenceDto::Unverified)
    } else if text == "unknown"@ {
        Some(ConfidenceDto::Unknown)
    } else {
        None
    }
}

/// The message an unexplained assumption is refused with.
pub open spec fn missing_note_text() -> Seq<char> {
    "an `unknown` value must carry a `note` saying what was assumed"@
}

impl ConfidenceDto {
    /// Reads a grade's name; anything else is no grade.
    pub fn parse(text: &str) -> (r: Option<ConfidenceDto>)
        ensures
            r == grade_named(text@),
    {
        if crate::text::str_eq(text, "verified") {
            Some(ConfidenceDto::Verified)
        } else if crate::text::str_eq(text, "unverified") {
            Some(ConfidenceDto::Unverified)
        } else if crate::text::str_eq(text, "unknown") {
            Some(ConfidenceDto::Unknown)
        } else {
            None
        }
    }

    /// Wraps a value in its grade. `unknown` without a note is refused: an
    /// assumption must say why, and dropping the note would defeat the
    /// grade.
    pub fn wrap_with_note<T>(self, value: T, note: Option<&str>) -> (r: Result<Confidence<T>, LoadError>)
        ensures
            self == ConfidenceDto::Unknown && note is None <==> r is Err,
            r is Err ==> r->Err_0 == LoadError::Invalid(r->Err_0->Invalid_0) && r->Err_0->Invalid_0@ == missing_note_text(),
            r is Ok ==> r->Ok_0.spec_value() == value,
            r is Ok ==> r->Ok_0.spec_level() == match self {
                ConfidenceDto::Verified => ConfidenceLevel::Verified,
                ConfidenceDto::Unverified => ConfidenceLevel::Unverified,
                ConfidenceDto::Unknown => ConfidenceLevel::Unknown,
            },
            r is Ok && self == ConfidenceDto::Unknown ==> r->Ok_0.spec_note() == Some(note->0@),
    {
        match self {
            ConfidenceDto::Verified => Ok(Confidence::Verified(value)),
            ConfidenceDto::Unverified => Ok(Confidence::Unverified(value)),
            ConfidenceDto::Unknown => match note {
                Some(n) => Ok(Confidence::Unknown { assumed: value, note: owned(n) }),
                None => Err(LoadError::Invalid(owned("an `unknown` value must carry a `note` saying what was assumed"))),
            },
        }
    }
}

/// A graded fixed-point value as a file writes it: the grade, the micro
/// count, and the note an `unknown` grade needs.
#[derive(Debug)]
pub struct GradedMicro {
    /// The grade.
    pub confidence: ConfidenceDto,
    /// The value in micro-units.
    pub micro: i64,
    /// Why, when the grade is `unknown`.
    pub note: Option<String>,
}

impl GradedMicro {
    /// The graded value, or the refusal of an unexplained assumption.
    pub fn into_fixed(self) -> (r: Result<Confidence<Fixed>, LoadError>)
        ensures
            self.confidence == ConfidenceDto::Unknown && self.note is None <==> r is Err,
            r is Ok ==> r->Ok_0.spec_value()@ == self.micro,
            r is Ok ==> r->Ok_0.spec_level() == match self.confidence {
                ConfidenceDto::Verified => ConfidenceLevel::Verified,
                ConfidenceDto::Unverified => ConfidenceLevel::Unverified,
                ConfidenceDto::Unknown => ConfidenceLevel::Unknown,
            },
            r is Ok && self.confidence == ConfidenceDto::Unknown ==> r->Ok_0.spec_note() == Some(self.note->0@),
    {
        let note: Option<&str> = match &self.note {
            Some(n) => Some(n.as_str()),
            None => None,
        };
        self.confidence.wrap_with_note(Fixed::from_micro(self.micro), note)
    }
}

// ── Turning the files into a dataset ──────────────────────────────────

/// Which table an id lives in.
#[derive(Copy, Clone, PartialEq, Eq, Structural, Debug)]
pub enum EntityKind {
    /// A playable class.
    Class,
    /// A curve definition.
    Curve,
    /// An item.
    Item,
    /// A perk.
    Perk,
    /// A skill.
    Skill,
}

/// The grade a file's grade names.
pub open spec fn level_of(g: ConfidenceDto) -> ConfidenceLevel {
    match g {
        ConfidenceDto::Verified => ConfidenceLevel::Verified,
        ConfidenceDto::Unverified => ConfidenceLevel::Unverified,
        ConfidenceDto::Unknown => ConfidenceLevel::Unknown,
    }
}

/// An assumption carries the note that explains it.
pub open spec fn note_ok(g: ConfidenceDto, note: Option<String>) -> bool {
    !(g == ConfidenceDto::Unknown && note is None)
}

/// A graded value carries the file's grade, and an assumption its note.
pub open spec fn grade_as<T>(c: Confidence<T>, g: ConfidenceDto, note: Option<String>) -> bool {
    &&& c.spec_level() == level_of(g)
    &&& g == ConfidenceDto::Unknown ==> c.spec_note() == opt_view(note)
}

/// The last position below `n` holding `k`, or `-1`.
pub open spec fn last_below(ids: Seq<Seq<char>>, n: int, k: Seq<char>) -> int
    decreases n,
{
    if n <= 0 {
        -1
    } else if ids[n - 1] == k {
        n - 1
    } else {
        last_below(ids, n - 1, k)
    }
}

/// `last_below` finds `k` exactly when it occurs below `n`.
pub proof fn lemma_last_below(ids: Seq<Seq<char>>, n: int, k: Seq<char>)
    requires
        0 <= n <= ids.len(),
    ensures
        -1 <= last_below(ids, n, k) < n,
        last_below(ids, n, k) >= 0 ==> ids[last_below(ids, n, k)] == k,
        last_below(ids, n, k) < 0 ==> forall|j: int| 0 <= j < n ==> ids[j] != k,
    decreases n,
{
    if n > 0 && ids[n - 1] != k {
        lemma_last_below(ids, n - 1, k);
    }
}

/// Marks each of the first `n` ids with `kind`.
pub open spec fn tag_ids(m: Map<Seq<char>, EntityKind>, ids: Seq<Seq<char>>, n: int, kind: EntityKind) -> Map<Seq<char>, EntityKind>
    decreases n,
{
    if n <= 0 {
        m
    } else {
        tag_ids(m, ids, n - 1, kind).insert(ids[n - 1], kind)
    }
}

/// Records the renames among the first `n` of `(id, previous id)` pairs.
pub open spec fn rename_ids(m: Map<Seq<char>, Seq<char>>, pairs: Seq<(Seq<char>, Option<Seq<char>>)>, n: int) -> Map<Seq<char>, Seq<char>>
    decreases n,
{
    if n <= 0 {
        m
    } else {
        match pairs[n - 1].1 {
            Some(old) => rename_ids(m, pairs, n - 1).insert(pairs[n - 1].0, old),
            None => rename_ids(m, pairs, n - 1),
        }
    }
}

/// A rename table's previous ids as texts.
pub open spec fn rename_view(m: Map<Seq<char>, String>) -> Map<Seq<char>, Seq<char>> {
    m.map_values(|v: String| v@)
}

/// Curve points, as whole numbers, make a usable curve.
pub open spec fn int_points_valid(p: Seq<(int, int)>) -> bool {
    &&& p.len() > 0
    &&& forall|i: int| 0 <= i < p.len() - 1 ==> (#[trigger] p[i]).0 < p[i + 1].0
}

/// Fixed-point pairs as whole numbers.
pub open spec fn fixed_point_views(p: Seq<(Fixed, Fixed)>) -> Seq<(int, int)> {
    p.map_values(|e: (Fixed, Fixed)| (e.0@, e.1@))
}

/// The ids of curve records.
pub open spec fn curve_ids(s: Seq<CurveDto>) -> Seq<Seq<char>> {
    s.map_values(|c: CurveDto| c.id@)
}

/// The renames curve records declare.
pub open spec fn curve_renames(s: Seq<CurveDto>) -> Seq<(Seq<char>, Option<Seq<char>>)> {
    s.map_values(|c: CurveDto| (c.id@, opt_view(c.renamed_from)))
}

/// A curve record can be loaded.
pub open spec fn curve_ok(d: CurveDto) -> bool {
    &&& int_points_valid(point_views(d.points@))
    &&& note_ok(d.confidence, d.note)
}

/// A loaded curve is the record's.
pub open spec fn curve_as(c: Confidence<Curve>, d: CurveDto) -> bool {
    &&& fixed_point_views(c.spec_value().points_spec()) == point_views(d.points@)
    &&& grade_as(c, d.confidence, d.note)
    &&& c.spec_value().wf()
}

/// The message a refused record carries: what, then why.
fn refusal(what: &str, id: &str, why: &str) -> (r: LoadError)
    ensures
        r matches LoadError::Invalid(m) && m@ == what@ + id@ + why@,
{
    let mut m: Vec<char> = Vec::new();
    append_chars(&mut m, what);
    append_chars(&mut m, id);
    append_chars(&mut m, why);
    LoadError::Invalid(string_of(&m))
}

/// A curve record as a curve, graded.
fn curve_of(d: &CurveDto) -> (r: Result<Confidence<Curve>, LoadError>)
    ensures
        r is Ok <==> curve_ok(*d),
        r is Err ==> r->Err_0 is Invalid,
        r is Ok ==> curve_as(r->Ok_0, *d),
{
    let mut points: Vec<(Fixed, Fixed)> = Vec::new();
    let mut i: usize = 0;
    while i < d.points.len()
        invariant
            i <= d.points@.len(),
            points@.len() == i,
            forall|j: int| 0 <= j < i ==> #[trigger] fixed_point_views(points@)[j] == point_views(d.points@)[j],
        decreases d.points@.len() - i,
    {
        let ghost before = points@;
        points.push((Fixed::from_micro(d.points[i].0), Fixed::from_micro(d.points[i].1)));
        proof {
            assert forall|j: int| 0 <= j < i + 1 implies #[trigger] fixed_point_views(points@)[j] == point_views(d.points@)[j] by {
                if j < i {
                    assert(points@[j] == before[j]);
                    assert(fixed_point_views(before)[j] == point_views(d.points@)[j]);
                }
            }
        }
        i = i + 1;
    }
    let ghost views = point_views(d.points@);
    assert(fixed_point_views(points@) =~= views);
    let curve = match Curve::linear(points) {
        Ok(c) => c,
        Err(e) => {
            proof {
                if int_points_valid(views) {
                    assert(crate::curve::ascending(points@)) by {
                        assert forall|j: int| 0 <= j < points@.len() - 1 implies #[trigger] points@[j].0@ < points@[j + 1].0@ by {
                            assert(fixed_point_views(points@)[j] == views[j]);
                            assert(fixed_point_views(points@)[j + 1] == views[j + 1]);
                        }
                    }
                }
            }
            let reason = e.to_string();
            return Err(refusal("curve ", d.id.as_str(), reason.as_str()));
        },
    };
    proof {
        let ps = curve.points_spec();
        assert(fixed_point_views(ps) == views);
        assert forall|j: int| 0 <= j < views.len() - 1 implies (#[trigger] views[j]).0 < views[j + 1].0 by {
            assert(fixed_point_views(ps)[j] == views[j]);
            assert(fixed_point_views(ps)[j + 1] == views[j + 1]);
        }
    }
    let note: Option<&str> = match &d.note {
        Some(n) => Some(n.as_str()),
        None => None,
    };
    d.confidence.wrap_with_note(curve, note)
}

/// The curves loaded so far: each id holds the last record with it.
pub open spec fn curves_loaded(data: InMemoryDataset, s: Seq<CurveDto>, n: int) -> bool {
    &&& forall|k: Seq<char>| #[trigger] data.curves().contains_key(k) <==> last_below(curve_ids(s), n, k) >= 0
    &&& forall|k: Seq<char>| #[trigger] data.curves().contains_key(k) ==> curve_as(data.curves()[k], s[last_below(curve_ids(s), n, k)])
}

/// Every curve record can be loaded.
pub open spec fn curves_ok(s: Seq<CurveDto>) -> bool {
    forall|i: int| 0 <= i < s.len() ==> curve_ok(#[trigger] s[i])
}

/// Loads the curves into an empty dataset, marking their ids and renames.
fn load_curves(
    s: &Vec<CurveDto>,
    data: &mut InMemoryDataset,
    ids: &mut IdMap<String, EntityKind>,
    renames: &mut IdMap<String, String>,
) -> (r: Result<(), LoadError>)
    requires
        old(data).wf(),
        old(data).curves() == Map::<Seq<char>, Confidence<Curve>>::empty(),
        old(ids).wf(),
        old(renames).wf(),
    ensures
        r is Ok <==> curves_ok(s@),
        r is Err ==> r->Err_0 is Invalid,
        r is Ok ==> {
            &&& final(data).wf()
            &&& curves_loaded(*final(data), s@, s@.len() as int)
            &&& final(data).classes() == old(data).classes()
            &&& final(data).items() == old(data).items()
            &&& final(data).perks() == old(data).perks()
            &&& final(data).skills() == old(data).skills()
            &&& final(data).build_spec() == old(data).build_spec()
            &&& final(ids).wf()
            &&& final(ids).view() == tag_ids(old(ids).view(), curve_ids(s@), s@.len() as int, EntityKind::Curve)
            &&& final(renames).wf()
            &&& rename_view(final(renames).view()) == rename_ids(rename_view(old(renames).view()), curve_renames(s@), s@.len() as int)
        },
{
    let ghost data0 = *data;
    let ghost ids0 = ids.view();
    let ghost renames0 = rename_view(renames.view());
    let mut i: usize = 0;
    while i < s.len()
        invariant
            i <= s@.len(),
            data.wf(),
            curves_loaded(*data, s@, i as int),
            data.classes() == data0.classes(),
            data.items() == data0.items(),
            data.perks() == data0.perks(),
            data.skills() == data0.skills(),
            data.build_spec() == data0.build_spec(),
            ids.wf(),
            ids.view() == tag_ids(ids0, curve_ids(s@), i as int, EntityKind::Curve),
            renames.wf(),
            rename_view(renames.view()) == rename_ids(renames0, curve_renames(s@), i as int),
            forall|j: int| 0 <= j < i ==> curve_ok(#[trigger] s@[j]),
        decreases s@.len() - i,
    {
        let d = &s[i];
        let c = match curve_of(d) {
            Ok(c) => c,
            Err(e) => return Err(e),
        };
        let ghost before = *data;
        ids.insert(owned(d.id.as_str()), EntityKind::Curve);
        match &d.renamed_from {
            Some(from) => {
                let ghost r0 = renames.view();
                renames.insert(owned(d.id.as_str()), owned(from.as_str()));
                proof {
                    assert(rename_view(renames.view()) =~= rename_view(r0).insert(d.id@, from@));
                }
            },
            None => {},
        }
        data.insert_curve(CurveId::new(d.id.as_str()), c);
        proof {
            assert(curve_ids(s@)[i as int] == d.id@);
            assert(curve_renames(s@)[i as int] == (d.id@, opt_view(d.renamed_from)));
            assert forall|k: Seq<char>| #[trigger] data.curves().contains_key(k) <==> last_below(curve_ids(s@), i + 1, k) >= 0 by {
                lemma_last_below(curve_ids(s@), i as int, k);
            }
            assert forall|k: Seq<char>| #[trigger] data.curves().contains_key(k) implies curve_as(data.curves()[k], s@[last_below(curve_ids(s@), i + 1, k)]) by {
                if k != d.id@ {
                    assert(before.curves().contains_key(k));
                }
            }
        }
        i = i + 1;
    }
    Ok(())
}

// ── Classes ─────────────────────────────────────────────────────────────

/// The points the first `n` entries give attribute `k`.
pub open spec fn points_total(p: Seq<(String, i32)>, n: int, k: AttributeKind) -> int
    decreases n,
{
    if n <= 0 {
        0
    } else {
        points_total(p, n - 1, k) + if p[n - 1].0@ == attribute_name(k) { p[n - 1].1 as int } else { 0 }
    }
}

/// Every entry names an attribute, and every running total fits.
pub open spec fn points_ok(p: Seq<(String, i32)>) -> bool {
    &&& forall|j: int| 0 <= j < p.len() ==> names_attribute((#[trigger] p[j]).0@)
    &&& forall|n: int, k: AttributeKind| 0 < n <= p.len() ==> i32::MIN <= #[trigger] points_total(p, n, k) <= i32::MAX
}

/// A block holds exactly the points the entries give.
pub open spec fn block_as(b: AttributeBlock, p: Seq<(String, i32)>) -> bool {
    forall|k: AttributeKind| #[trigger] block_get(b, k) == points_total(p, p.len() as int, k)
}

/// A block of points adds up.
fn block_of(p: &Vec<(String, i32)>) -> (r: Result<AttributeBlock, LoadError>)
    ensures
        r is Ok <==> points_ok(p@),
        r is Err ==> r->Err_0 is Invalid,
        r is Ok ==> block_as(r->Ok_0, p@),
{
    let mut block = AttributeBlock::default();
    let mut i: usize = 0;
    while i < p.len()
        invariant
            i <= p@.len(),
            forall|k: AttributeKind| #[trigger] block_get(block, k) == points_total(p@, i as int, k),
            forall|j: int| 0 <= j < i ==> names_attribute((#[trigger] p@[j]).0@),
            forall|n: int, k: AttributeKind| 0 < n <= i ==> i32::MIN <= #[trigger] points_total(p@, n, k) <= i32::MAX,
        decreases p@.len() - i,
    {
        let kind = match AttributeKind::parse(p[i].0.as_str()) {
            Some(k) => k,
            None => {
                proof {
                    assert(!names_attribute(p@[i as int].0@));
                }
                return Err(refusal("unknown attribute: ", p[i].0.as_str(), ""));
            },
        };
        if !block.fits_add(kind, p[i].1) {
            proof {
                assert(points_total(p@, i + 1, kind) == block_get(block, kind) + p@[i as int].1);
            }
            return Err(refusal("attribute points out of range: ", p[i].0.as_str(), ""));
        }
        let ghost before = block;
        block.add(kind, p[i].1);
        proof {
            assert forall|k: AttributeKind| #[trigger] block_get(block, k) == points_total(p@, i + 1, k) by {
                lemma_attribute_names_differ(k, kind);
            }
            assert(names_attribute(p@[i as int].0@));
            assert forall|n: int, k: AttributeKind| 0 < n <= i + 1 implies i32::MIN <= #[trigger] points_total(p@, n, k) <= i32::MAX by {
                if n == i + 1 {
                    assert(block_get(block, k) == points_total(p@, i + 1, k));
                }
            }
        }
        i = i + 1;
    }
    Ok(block)
}

/// Two weights read the same input.
pub open spec fn same_input(a: WeightDto, b: WeightDto) -> bool {
    a.kind == b.kind && a.reference@ == b.reference@
}

/// A weight reads something that exists.
pub open spec fn weight_ok(w: WeightDto) -> bool {
    w.kind == WeightKind::Attribute ==> names_attribute(w.reference@)
}

/// A derived stat's definition can be loaded against the version's curves.
pub open spec fn derived_ok(d: DerivedDto, curves: Seq<CurveDto>) -> bool {
    &&& curve_ids(curves).contains(d.curve@)
    &&& d.weights@.len() > 0
    &&& forall|j: int| 0 <= j < d.weights@.len() ==> weight_ok(#[trigger] d.weights@[j])
    &&& forall|i: int, j: int| 0 <= i < j < d.weights@.len() ==> !same_input(#[trigger] d.weights@[i], #[trigger] d.weights@[j])
}

/// A weight is the record's.
pub open spec fn weight_as(w: (RatingInput, Fixed), d: WeightDto) -> bool {
    &&& w.1@ == d.weight
    &&& match d.kind {
        WeightKind::Attribute => w.0 matches RatingInput::Attribute(k) && attribute_name(k) == d.reference@,
        WeightKind::Derived => w.0 matches RatingInput::Derived(id) && id@ == d.reference@,
    }
}

/// An optional bound is the record's.
pub open spec fn bound_as(b: Option<Fixed>, d: Option<i64>) -> bool {
    match (b, d) {
        (Some(x), Some(v)) => x@ == v,
        (None, None) => true,
        _ => false,
    }
}

/// A derived stat's definition is the record's.
pub open spec fn derived_as(x: DerivedStatDef, d: DerivedDto) -> bool {
    &&& x.id@ == d.id@
    &&& x.curve@ == d.curve@
    &&& x.offset@ == match d.offset {
        Some(v) => v as int,
        None => 0,
    }
    &&& bound_as(x.floor, d.floor)
    &&& bound_as(x.cap, d.cap)
    &&& x.weights@.len() == d.weights@.len()
    &&& forall|j: int| 0 <= j < d.weights@.len() ==> weight_as(#[trigger] x.weights@[j], d.weights@[j])
}

/// Whether the version defines a curve with the id.
fn has_curve(curves: &Vec<CurveDto>, id: &str) -> (r: bool)
    ensures
        r == curve_ids(curves@).contains(id@),
{
    let mut i: usize = 0;
    while i < curves.len()
        invariant
            i <= curves@.len(),
            forall|j: int| 0 <= j < i ==> #[trigger] curve_ids(curves@)[j] != id@,
        decreases curves@.len() - i,
    {
        if str_eq(curves[i].id.as_str(), id) {
            assert(curve_ids(curves@)[i as int] == id@);
            return true;
        }
        i = i + 1;
    }
    false
}

/// Whether an earlier weight reads the same input as weight `j`.
fn weighted_before(ws: &Vec<WeightDto>, j: usize) -> (r: bool)
    requires
        j < ws@.len(),
    ensures
        r == exists|i: int| 0 <= i < j && #[trigger] same_input(ws@[i], ws@[j as int]),
{
    let mut i: usize = 0;
    while i < j
        invariant
            i <= j < ws@.len(),
            forall|k: int| 0 <= k < i ==> !#[trigger] same_input(ws@[k], ws@[j as int]),
        decreases j - i,
    {
        if ws[i].kind == ws[j].kind && str_eq(ws[i].reference.as_str(), ws[j].reference.as_str()) {
            assert(same_input(ws@[i as int], ws@[j as int]));
            return true;
        }
        i = i + 1;
    }
    false
}

/// A derived stat's definition from its record.
fn derived_of(d: &DerivedDto, curves: &Vec<CurveDto>) -> (r: Result<DerivedStatDef, LoadError>)
    ensures
        r is Ok <==> derived_ok(*d, curves@),
        r is Err ==> r->Err_0 is Invalid,
        r is Ok ==> derived_as(r->Ok_0, *d),
{
    if !has_curve(curves, d.curve.as_str()) {
        return Err(refusal(d.id.as_str(), " references a curve this version does not define: ", d.curve.as_str()));
    }
    let mut weights: Vec<(RatingInput, Fixed)> = Vec::new();
    let mut j: usize = 0;
    while j < d.weights.len()
        invariant
            j <= d.weights@.len(),
            weights@.len() == j,
            forall|k: int| 0 <= k < j ==> weight_ok(#[trigger] d.weights@[k]),
            forall|a: int, b: int| 0 <= a < b < j ==> !same_input(#[trigger] d.weights@[a], #[trigger] d.weights@[b]),
            forall|k: int| 0 <= k < j ==> weight_as(#[trigger] weights@[k], d.weights@[k]),
        decreases d.weights@.len() - j,
    {
        let w = &d.weights[j];
        let input = match w.kind {
            WeightKind::Attribute => match AttributeKind::parse(w.reference.as_str()) {
                Some(k) => RatingInput::Attribute(k),
                None => {
                    proof {
                        assert(!weight_ok(d.weights@[j as int]));
                    }
                    return Err(refusal("unknown attribute: ", w.reference.as_str(), ""));
                },
            },
            WeightKind::Derived => RatingInput::Derived(DerivedStatId::new(w.reference.as_str())),
        };
        if weighted_before(&d.weights, j) {
            return Err(refusal(d.id.as_str(), " weights an input twice: ", w.reference.as_str()));
        }
        let ghost before = weights@;
        weights.push((input, Fixed::from_micro(w.weight)));
        proof {
            assert forall|k: int| 0 <= k < j + 1 implies weight_as(#[trigger] weights@[k], d.weights@[k]) by {
                if k < j {
                    assert(weights@[k] == before[k]);
                }
            }
            assert forall|a: int, b: int| 0 <= a < b < j + 1 implies !same_input(#[trigger] d.weights@[a], #[trigger] d.weights@[b]) by {
                if b == j {
                    if same_input(d.weights@[a], d.weights@[b]) {
                        assert(exists|i: int| 0 <= i < j && #[trigger] same_input(d.weights@[i], d.weights@[j as int]));
                    }
                }
            }
        }
        j = j + 1;
    }
    if weights.len() == 0 {
        return Err(refusal(d.id.as_str(), " has no weights", ""));
    }
    let offset = match d.offset {
        Some(v) => Fixed::from_micro(v),
        None => Fixed::zero(),
    };
    let floor = match d.floor {
        Some(v) => Some(Fixed::from_micro(v)),
        None => None,
    };
    let cap = match d.cap {
        Some(v) => Some(Fixed::from_micro(v)),
        None => None,
    };
    Ok(DerivedStatDef { id: DerivedStatId::new(d.id.as_str()), weights, curve: CurveId::new(d.curve.as_str()), offset, floor, cap })
}

/// A class record can be loaded against the version's curves.
pub open spec fn class_ok(d: ClassDto, curves: Seq<CurveDto>) -> bool {
    &&& forall|i: int| 0 <= i < d.derived@.len() ==> derived_ok(#[trigger] d.derived@[i], curves)
    &&& forall|i: int, j: int| 0 <= i < j < d.derived@.len() ==> (#[trigger] d.derived@[i]).id@ != (#[trigger] d.derived@[j]).id@
    &&& points_ok(d.base_attributes.points@)
    &&& note_ok(d.base_attributes.confidence, d.base_attributes.note)
}

/// A loaded class is the record's.
pub open spec fn class_as(c: ClassDef, d: ClassDto) -> bool {
    &&& c.id@ == d.id@
    &&& c.name@ == d.name@
    &&& grade_as(c.base_attributes, d.base_attributes.confidence, d.base_attributes.note)
    &&& block_as(c.base_attributes.spec_value(), d.base_attributes.points@)
    &&& c.derived@.len() == d.derived@.len()
    &&& forall|i: int| 0 <= i < d.derived@.len() ==> derived_as(#[trigger] c.derived@[i], d.derived@[i])
    &&& distinct_ids(c.derived@)
}

/// Whether an earlier definition of a class has the id of definition `j`.
fn defined_before(ds: &Vec<DerivedDto>, j: usize) -> (r: bool)
    requires
        j < ds@.len(),
    ensures
        r == exists|i: int| 0 <= i < j && (#[trigger] ds@[i]).id@ == ds@[j as int].id@,
{
    let mut i: usize = 0;
    while i < j
        invariant
            i <= j < ds@.len(),
            forall|k: int| 0 <= k < i ==> (#[trigger] ds@[k]).id@ != ds@[j as int].id@,
        decreases j - i,
    {
        if str_eq(ds[i].id.as_str(), ds[j].id.as_str()) {
            return true;
        }
        i = i + 1;
    }
    false
}

/// A class from its record.
fn class_of(d: &ClassDto, curves: &Vec<CurveDto>) -> (r: Result<ClassDef, LoadError>)
    ensures
        r is Ok <==> class_ok(*d, curves@),
        r is Err ==> r->Err_0 is Invalid,
        r is Ok ==> class_as(r->Ok_0, *d),
{
    let mut derived: Vec<DerivedStatDef> = Vec::new();
    let mut i: usize = 0;
    while i < d.derived.len()
        invariant
            i <= d.derived@.len(),
            derived@.len() == i,
            forall|k: int| 0 <= k < i ==> derived_ok(#[trigger] d.derived@[k], curves@),
            forall|a: int, b: int| 0 <= a < b < i ==> (#[trigger] d.derived@[a]).id@ != (#[trigger] d.derived@[b]).id@,
            forall|k: int| 0 <= k < i ==> derived_as(#[trigger] derived@[k], d.derived@[k]),
        decreases d.derived@.len() - i,
    {
        let x = derived_of(&d.derived[i], curves)?;
        if defined_before(&d.derived, i) {
            return Err(refusal(d.id.as_str(), " defines a derived stat twice: ", d.derived[i].id.as_str()));
        }
        let ghost before = derived@;
        derived.push(x);
        proof {
            assert forall|k: int| 0 <= k < i + 1 implies derived_as(#[trigger] derived@[k], d.derived@[k]) by {
                if k < i {
                    assert(derived@[k] == before[k]);
                }
            }
            assert forall|a: int, b: int| 0 <= a < b < i + 1 implies (#[trigger] d.derived@[a]).id@ != (#[trigger] d.derived@[b]).id@ by {
                if b == i && d.derived@[a].id@ == d.derived@[b].id@ {
                    assert(exists|k: int| 0 <= k < i && (#[trigger] d.derived@[k]).id@ == d.derived@[i as int].id@);
                }
            }
        }
        i = i + 1;
    }
    proof {
        assert forall|a: int, b: int| 0 <= a < b < derived@.len() implies (#[trigger] derived@[a]).id@ != (#[trigger] derived@[b]).id@ by {
            assert(derived_as(derived@[a], d.derived@[a]));
            assert(derived_as(derived@[b], d.derived@[b]));
        }
    }
    let block = block_of(&d.base_attributes.points)?;
    let note: Option<&str> = match &d.base_attributes.note {
        Some(n) => Some(n.as_str()),
        None => None,
    };
    let base_attributes = d.base_attributes.confidence.wrap_with_note(block, note)?;
    Ok(ClassDef { id: ClassId::new(d.id.as_str()), name: owned(d.name.as_str()), base_attributes, derived })
}

// ── Items ───────────────────────────────────────────────────────────────

/// A graded value is the record's.
pub open spec fn graded_as(c: Confidence<Fixed>, g: GradedMicro) -> bool {
    c.spec_value()@ == g.micro && grade_as(c, g.confidence, g.note)
}

/// An optional graded value is the record's.
pub open spec fn opt_graded_as(c: Option<Confidence<Fixed>>, g: Option<GradedMicro>) -> bool {
    match (c, g) {
        (Some(x), Some(y)) => graded_as(x, y),
        (None, None) => true,
        _ => false,
    }
}

/// An optional graded value can be loaded.
pub open spec fn opt_note_ok(g: Option<GradedMicro>) -> bool {
    match g {
        Some(x) => note_ok(x.confidence, x.note),
        None => true,
    }
}

/// A graded value from its record.
fn graded_of(g: &GradedMicro) -> (r: Result<Confidence<Fixed>, LoadError>)
    ensures
        r is Ok <==> note_ok(g.confidence, g.note),
        r is Err ==> r->Err_0 is Invalid,
        r is Ok ==> graded_as(r->Ok_0, *g),
{
    let note: Option<&str> = match &g.note {
        Some(n) => Some(n.as_str()),
        None => None,
    };
    g.confidence.wrap_with_note(Fixed::from_micro(g.micro), note)
}

/// An optional graded value from its record.
fn opt_graded_of(g: &Option<GradedMicro>) -> (r: Result<Option<Confidence<Fixed>>, LoadError>)
    ensures
        r is Ok <==> opt_note_ok(*g),
        r is Err ==> r->Err_0 is Invalid,
        r is Ok ==> opt_graded_as(r->Ok_0, *g),
{
    match g {
        Some(x) => {
            let v = graded_of(x)?;
            Ok(Some(v))
        },
        None => Ok(None),
    }
}

/// The slugs of class ids.
pub open spec fn class_slugs(s: Seq<ClassId>) -> Seq<Seq<char>> {
    s.map_values(|c: ClassId| c@)
}

/// Class ids for slugs, in order.
fn class_ids_of(v: &Vec<String>) -> (r: Vec<ClassId>)
    ensures
        class_slugs(r@) == crate::text::string_views(v@),
{
    let mut out: Vec<ClassId> = Vec::new();
    let mut i: usize = 0;
    while i < v.len()
        invariant
            i <= v@.len(),
            class_slugs(out@) == crate::text::string_views(v@.subrange(0, i as int)),
        decreases v@.len() - i,
    {
        let ghost before = out@;
        out.push(ClassId::new(v[i].as_str()));
        proof {
            assert(class_slugs(out@) =~= class_slugs(before).push(v@[i as int]@));
            assert(crate::text::string_views(v@.subrange(0, i + 1)) =~= crate::text::string_views(v@.subrange(0, i as int)).push(v@[i as int]@));
        }
        i = i + 1;
    }
    proof {
        assert(v@.subrange(0, v@.len() as int) =~= v@);
    }
    out
}

/// Printed attributes are the record's, entry for entry.
pub open spec fn attrs_as(v: Seq<(AttributeKind, i32)>, p: Seq<(String, i32)>) -> bool {
    &&& v.len() == p.len()
    &&& forall|i: int| 0 <= i < p.len() ==> attribute_name((#[trigger] v[i]).0) == p[i].0@ && v[i].1 == p[i].1
}

/// Printed attributes from their record; every name must be an attribute's.
fn attrs_of(p: &Vec<(String, i32)>) -> (r: Result<Vec<(AttributeKind, i32)>, LoadError>)
    ensures
        r is Ok <==> forall|j: int| 0 <= j < p@.len() ==> names_attribute((#[trigger] p@[j]).0@),
        r is Err ==> r->Err_0 is Invalid,
        r is Ok ==> attrs_as(r->Ok_0@, p@),
{
    let mut out: Vec<(AttributeKind, i32)> = Vec::new();
    let mut i: usize = 0;
    while i < p.len()
        invariant
            i <= p@.len(),
            out@.len() == i,
            forall|j: int| 0 <= j < i ==> names_attribute((#[trigger] p@[j]).0@),
            forall|j: int| 0 <= j < i ==> attribute_name((#[trigger] out@[j]).0) == p@[j].0@ && out@[j].1 == p@[j].1,
        decreases p@.len() - i,
    {
        let kind = match AttributeKind::parse(p[i].0.as_str()) {
            Some(k) => k,
            None => {
                proof {
                    assert(!names_attribute(p@[i as int].0@));
                }
                return Err(refusal("unknown attribute: ", p[i].0.as_str(), ""));
            },
        };
        out.push((kind, p[i].1));
        i = i + 1;
    }
    Ok(out)
}

/// The ids of a table's entries.
pub open spec fn grant_ids(s: Seq<(String, GradedMicro)>) -> Seq<Seq<char>> {
    s.map_values(|e: (String, GradedMicro)| e.0@)
}

/// The stat whose value has a field of its own on a weapon.
pub open spec fn weapon_damage_id() -> Seq<char> {
    "derived.weapon_damage"@
}

/// The grants can be loaded: no stat that has a field of its own, every
/// assumption explained.
pub open spec fn grants_ok(s: Seq<(String, GradedMicro)>) -> bool {
    forall|i: int| 0 <= i < s.len() ==> (#[trigger] s[i]).0@ != weapon_damage_id() && note_ok(s[i].1.confidence, s[i].1.note)
}

/// A grant table holds, for each stat, the last record that names it.
pub open spec fn grants_as(m: IdMap<DerivedStatId, Confidence<Fixed>>, s: Seq<(String, GradedMicro)>) -> bool {
    &&& m.wf()
    &&& forall|k: Seq<char>| #[trigger] m.view().contains_key(k) <==> last_below(grant_ids(s), s.len() as int, k) >= 0
    &&& forall|k: Seq<char>| #[trigger] m.view().contains_key(k) ==> graded_as(m.view()[k], s[last_below(grant_ids(s), s.len() as int, k)].1)
}

/// An item's grants from their records.
fn grants_of(s: &Vec<(String, GradedMicro)>) -> (r: Result<IdMap<DerivedStatId, Confidence<Fixed>>, LoadError>)
    ensures
        r is Ok <==> grants_ok(s@),
        r is Err ==> r->Err_0 is Invalid,
        r is Ok ==> grants_as(r->Ok_0, s@),
{
    let mut m: IdMap<DerivedStatId, Confidence<Fixed>> = IdMap::new();
    let mut i: usize = 0;
    while i < s.len()
        invariant
            i <= s@.len(),
            m.wf(),
            forall|j: int| 0 <= j < i ==> (#[trigger] s@[j]).0@ != weapon_damage_id() && note_ok(s@[j].1.confidence, s@[j].1.note),
            forall|k: Seq<char>| #[trigger] m.view().contains_key(k) <==> last_below(grant_ids(s@), i as int, k) >= 0,
            forall|k: Seq<char>| #[trigger] m.view().contains_key(k) ==> graded_as(m.view()[k], s@[last_below(grant_ids(s@), i as int, k)].1),
        decreases s@.len() - i,
    {
        if str_eq(s[i].0.as_str(), "derived.weapon_damage") {
            return Err(refusal(s[i].0.as_str(), " is not a grant: a weapon's damage belongs in weapon.base_damage", ""));
        }
        let v = graded_of(&s[i].1)?;
        let ghost before = m.view();
        m.insert(DerivedStatId::new(s[i].0.as_str()), v);
        proof {
            assert(grant_ids(s@)[i as int] == s@[i as int].0@);
            assert forall|k: Seq<char>| #[trigger] m.view().contains_key(k) <==> last_below(grant_ids(s@), i + 1, k) >= 0 by {
                lemma_last_below(grant_ids(s@), i as int, k);
            }
            assert forall|k: Seq<char>| #[trigger] m.view().contains_key(k) implies graded_as(m.view()[k], s@[last_below(grant_ids(s@), i + 1, k)].1) by {
                if k != s@[i as int].0@ {
                    assert(before.contains_key(k));
                }
            }
        }
        i = i + 1;
    }
    Ok(m)
}

/// A swing can be loaded: its kind is a blow's name, its grade explained.
pub open spec fn combo_ok(c: ComboDto) -> bool {
    tag_named(c.kind@) is Some && note_ok(c.scaling.confidence, c.scaling.note)
}

/// A swing is the record's.
pub open spec fn combo_as(h: ComboHit, c: ComboDto) -> bool {
    tag_name(h.kind) == c.kind@ && graded_as(h.scaling, c.scaling)
}

/// A weapon can be loaded.
pub open spec fn weapon_ok(w: WeaponDto) -> bool {
    &&& note_ok(w.base_damage.confidence, w.base_damage.note)
    &&& note_ok(w.armor_pen.confidence, w.armor_pen.note)
    &&& forall|i: int| 0 <= i < w.combo@.len() ==> combo_ok(#[trigger] w.combo@[i])
    &&& opt_note_ok(w.swing_time)
}

/// A weapon is the record's.
pub open spec fn weapon_as(p: WeaponProfile, w: WeaponDto) -> bool {
    &&& graded_as(p.base_damage, w.base_damage)
    &&& graded_as(p.armor_pen, w.armor_pen)
    &&& p.combo@.len() == w.combo@.len()
    &&& forall|i: int| 0 <= i < w.combo@.len() ==> combo_as(#[trigger] p.combo@[i], w.combo@[i])
    &&& opt_graded_as(p.swing_time, w.swing_time)
}

/// A weapon from its record.
fn weapon_of(w: &WeaponDto) -> (r: Result<WeaponProfile, LoadError>)
    ensures
        r is Ok <==> weapon_ok(*w),
        r is Err ==> r->Err_0 is Invalid,
        r is Ok ==> weapon_as(r->Ok_0, *w),
{
    let base_damage = graded_of(&w.base_damage)?;
    let armor_pen = graded_of(&w.armor_pen)?;
    let mut combo: Vec<ComboHit> = Vec::new();
    let mut i: usize = 0;
    while i < w.combo.len()
        invariant
            i <= w.combo@.len(),
            combo@.len() == i,
            forall|j: int| 0 <= j < i ==> combo_ok(#[trigger] w.combo@[j]),
            forall|j: int| 0 <= j < i ==> combo_as(#[trigger] combo@[j], w.combo@[j]),
        decreases w.combo@.len() - i,
    {
        let c = &w.combo[i];
        let kind = match DamageTag::parse(c.kind.as_str()) {
            Some(k) => k,
            None => return Err(refusal("unknown kind of blow: ", c.kind.as_str(), "")),
        };
        let scaling = graded_of(&c.scaling)?;
        let ghost before = combo@;
        combo.push(ComboHit { kind, scaling });
        proof {
            assert forall|j: int| 0 <= j < i + 1 implies combo_as(#[trigger] combo@[j], w.combo@[j]) by {
                if j < i {
                    assert(combo@[j] == before[j]);
                }
            }
        }
        i = i + 1;
    }
    let swing_time = opt_graded_of(&w.swing_time)?;
    Ok(WeaponProfile { base_damage, armor_pen, combo, swing_time })
}

/// An item record can be loaded.
pub open spec fn item_ok(d: ItemDto) -> bool {
    &&& (d.rarity matches Some(r) ==> exists|x: Rarity| #[trigger] rarity_name(x) == r@)
    &&& (d.slot matches Some(n) ==> exists|x: Slot| #[trigger] slot_name(x) == n@)
    &&& (d.attributes matches Some(a) ==> (forall|j: int| 0 <= j < a.points@.len() ==> names_attribute((#[trigger] a.points@[j]).0@))
        && note_ok(a.confidence, a.note))
    &&& grants_ok(d.grants@)
    &&& opt_note_ok(d.move_speed_add)
    &&& (d.weapon matches Some(w) ==> weapon_ok(w))
}

/// A loaded item is the record's.
pub open spec fn item_as(def: ItemDef, d: ItemDto) -> bool {
    &&& def.id@ == d.id@
    &&& def.name@ == d.name@
    &&& match (def.rarity, d.rarity) {
        (Some(x), Some(r)) => rarity_name(x) == r@,
        (None, None) => true,
        _ => false,
    }
    &&& class_slugs(def.required_classes@) == crate::text::string_views(d.required_classes@)
    &&& match (def.slot, d.slot) {
        (Some(x), Some(n)) => slot_name(x) == n@,
        (None, None) => true,
        _ => false,
    }
    &&& match (def.attributes, d.attributes) {
        (Some(c), Some(a)) => grade_as(c, a.confidence, a.note) && attrs_as(c.spec_value()@, a.points@),
        (None, None) => true,
        _ => false,
    }
    &&& grants_as(def.grants, d.grants@)
    &&& opt_graded_as(def.move_speed_add, d.move_speed_add)
    &&& match (def.weapon, d.weapon) {
        (Some(p), Some(w)) => weapon_as(p, w),
        (None, None) => true,
        _ => false,
    }
}

/// An item from its record.
fn item_of(d: &ItemDto) -> (r: Result<ItemDef, LoadError>)
    ensures
        r is Ok <==> item_ok(*d),
        r is Err ==> r->Err_0 is Invalid,
        r is Ok ==> item_as(r->Ok_0, *d),
{
    let rarity = match &d.rarity {
        Some(n) => match Rarity::parse(n.as_str()) {
            Some(x) => Some(x),
            None => return Err(refusal("unknown rarity: ", n.as_str(), "")),
        },
        None => None,
    };
    let slot = match &d.slot {
        Some(n) => match Slot::parse(n.as_str()) {
            Some(x) => Some(x),
            None => return Err(refusal("unknown slot: ", n.as_str(), "")),
        },
        None => None,
    };
    let attributes = match &d.attributes {
        Some(a) => {
            let v = attrs_of(&a.points)?;
            let note: Option<&str> = match &a.note {
                Some(n) => Some(n.as_str()),
                None => None,
            };
            let c = a.confidence.wrap_with_note(v, note)?;
            Some(c)
        },
        None => None,
    };
    let grants = grants_of(&d.grants)?;
    let move_speed_add = opt_graded_of(&d.move_speed_add)?;
    let weapon = match &d.weapon {
        Some(w) => {
            let p = weapon_of(w)?;
            Some(p)
        },
        None => None,
    };
    Ok(ItemDef {
        id: ItemId::new(d.id.as_str()),
        name: owned(d.name.as_str()),
        rarity,
        required_classes: class_ids_of(&d.required_classes),
        slot,
        attributes,
        grants,
        move_speed_add,
        weapon,
    })
}

// ── Perks and skills ────────────────────────────────────────────────────

/// An effect record can be loaded: the fields its kind needs are there.
pub open spec fn effect_ok(d: EffectDto) -> bool {
    &&& note_ok(d.confidence, d.note)
    &&& match d.kind {
        EffectKind::AllAttributes => d.points is Some,
        EffectKind::Attribute => d.attribute matches Some(a) && names_attribute(a@) && d.points is Some,
        EffectKind::RaiseCap | EffectKind::DerivedBonus => d.target is Some && d.micro is Some,
        _ => d.micro is Some,
    }
    &&& (d.when matches Some(w) ==> tag_named(w@) is Some)
}

/// The effect a record describes.
pub open spec fn effect_view_as(e: EffectView, d: EffectDto) -> bool {
    match d.kind {
        EffectKind::AllAttributes => e == EffectView::AllAttributes(d.points->0 as int),
        EffectKind::Attribute => e matches EffectView::Attribute(k, p) && attribute_name(k) == d.attribute->0@ && p == d.points->0,
        EffectKind::RaiseCap => e == EffectView::RaiseCap(d.target->0@, d.micro->0 as int),
        EffectKind::DerivedBonus => e == EffectView::DerivedBonus(d.target->0@, d.micro->0 as int),
        EffectKind::ItemArmorBonus => e == EffectView::ItemArmorBonus(d.micro->0 as int),
        EffectKind::MoveSpeedAdd => e == EffectView::MoveSpeedAdd(d.micro->0 as int),
        EffectKind::MoveSpeedBonus => e == EffectView::MoveSpeedBonus(d.micro->0 as int),
    }
}

/// The record name of the kind an effect is.
pub open spec fn effect_view_name(e: EffectView) -> Seq<char> {
    match e {
        EffectView::AllAttributes(_) => "all_attributes"@,
        EffectView::Attribute(_, _) => "attribute"@,
        EffectView::RaiseCap(_, _) => "raise_cap"@,
        EffectView::DerivedBonus(_, _) => "derived_bonus"@,
        EffectView::ItemArmorBonus(_) => "item_armor_bonus"@,
        EffectView::MoveSpeedAdd(_) => "move_speed_add"@,
        EffectView::MoveSpeedBonus(_) => "move_speed_bonus"@,
    }
}

/// **A loaded effect is of the kind its record names.** The effect a
/// record loads as is of the kind whose record name the record carries: a
/// `move_speed_bonus` record loads as a percentage bonus, never as a flat
/// add, and the same for every other kind.
pub proof fn law_a_loaded_effect_is_the_named_kind(e: EffectView, d: EffectDto)
    requires
        effect_view_as(e, d),
    ensures
        effect_view_name(e) == crate::dataset_file::effect_kind_name(d.kind),
{
}

/// A loaded effect is the record's.
pub open spec fn effect_as(e: StackedEffect, d: EffectDto) -> bool {
    &&& grade_as(e.effect, d.confidence, d.note)
    &&& effect_view_as(e.effect.spec_value()@, d)
    &&& e.max_stacks == d.max_stacks
    &&& match (e.when_tag, d.when) {
        (Some(t), Some(w)) => tag_name(t) == w@,
        (None, None) => true,
        _ => false,
    }
}

/// A message for an effect missing a field its kind needs.
fn effect_needs(what: &str) -> (r: LoadError)
    ensures
        r matches LoadError::Invalid(m) && m@ == "an effect of this kind needs `"@ + what@ + "`"@,
{
    refusal("an effect of this kind needs `", what, "`")
}

/// An effect from its record.
fn effect_of(d: &EffectDto) -> (r: Result<StackedEffect, LoadError>)
    ensures
        r is Ok <==> effect_ok(*d),
        r is Err ==> r->Err_0 is Invalid,
        r is Ok ==> effect_as(r->Ok_0, *d),
{
    let effect = match d.kind {
        EffectKind::AllAttributes => match d.points {
            Some(p) => Effect::AllAttributes(p),
            None => return Err(effect_needs("points")),
        },
        EffectKind::Attribute => {
            let name = match &d.attribute {
                Some(a) => a,
                None => return Err(effect_needs("attribute")),
            };
            let kind = match AttributeKind::parse(name.as_str()) {
                Some(k) => k,
                None => return Err(refusal("unknown attribute: ", name.as_str(), "")),
            };
            match d.points {
                Some(p) => Effect::Attribute(kind, p),
                None => return Err(effect_needs("points")),
            }
        },
        EffectKind::RaiseCap | EffectKind::DerivedBonus => {
            let target = match &d.target {
                Some(t) => t,
                None => return Err(effect_needs("target")),
            };
            let v = match d.micro {
                Some(m) => Fixed::from_micro(m),
                None => return Err(effect_needs("micro")),
            };
            if d.kind == EffectKind::RaiseCap {
                Effect::RaiseCap(DerivedStatId::new(target.as_str()), v)
            } else {
                Effect::DerivedBonus(DerivedStatId::new(target.as_str()), v)
            }
        },
        _ => {
            let v = match d.micro {
                Some(m) => Fixed::from_micro(m),
                None => return Err(effect_needs("micro")),
            };
            match d.kind {
                EffectKind::ItemArmorBonus => Effect::ItemArmorBonus(v),
                EffectKind::MoveSpeedAdd => Effect::MoveSpeedAdd(v),
                _ => Effect::MoveSpeedBonus(v),
            }
        },
    };
    let note: Option<&str> = match &d.note {
        Some(n) => Some(n.as_str()),
        None => None,
    };
    let graded = d.confidence.wrap_with_note(effect, note)?;
    let when_tag = match &d.when {
        Some(w) => match DamageTag::parse(w.as_str()) {
            Some(t) => Some(t),
            None => return Err(refusal("unknown kind of blow: ", w.as_str(), "")),
        },
        None => None,
    };
    Ok(StackedEffect { effect: graded, max_stacks: d.max_stacks, when_tag })
}

/// Every effect record can be loaded.
pub open spec fn effects_ok(s: Seq<EffectDto>) -> bool {
    forall|i: int| 0 <= i < s.len() ==> effect_ok(#[trigger] s[i])
}

/// Loaded effects are the records', in order.
pub open spec fn effects_as(v: Seq<StackedEffect>, s: Seq<EffectDto>) -> bool {
    &&& v.len() == s.len()
    &&& forall|i: int| 0 <= i < s.len() ==> effect_as(#[trigger] v[i], s[i])
}

/// Effects from their records.
fn effects_of(s: &Vec<EffectDto>) -> (r: Result<Vec<StackedEffect>, LoadError>)
    ensures
        r is Ok <==> effects_ok(s@),
        r is Err ==> r->Err_0 is Invalid,
        r is Ok ==> effects_as(r->Ok_0@, s@),
{
    let mut out: Vec<StackedEffect> = Vec::new();
    let mut i: usize = 0;
    while i < s.len()
        invariant
            i <= s@.len(),
            out@.len() == i,
            forall|j: int| 0 <= j < i ==> effect_ok(#[trigger] s@[j]),
            forall|j: int| 0 <= j < i ==> effect_as(#[trigger] out@[j], s@[j]),
        decreases s@.len() - i,
    {
        let e = effect_of(&s[i])?;
        let ghost before = out@;
        out.push(e);
        proof {
            assert forall|j: int| 0 <= j < i + 1 implies effect_as(#[trigger] out@[j], s@[j]) by {
                if j < i {
                    assert(out@[j] == before[j]);
                }
            }
        }
        i = i + 1;
    }
    Ok(out)
}

/// A loaded perk is the record's.
pub open spec fn perk_as(p: PerkDef, d: PerkDto) -> bool {
    &&& p.id@ == d.id@
    &&& p.name@ == d.name@
    &&& class_slugs(p.required_classes@) == crate::text::string_views(d.required_classes@)
    &&& effects_as(p.effects@, d.effects@)
}

/// A perk from its record.
fn perk_of(d: &PerkDto) -> (r: Result<PerkDef, LoadError>)
    ensures
        r is Ok <==> effects_ok(d.effects@),
        r is Err ==> r->Err_0 is Invalid,
        r is Ok ==> perk_as(r->Ok_0, *d),
{
    let effects = effects_of(&d.effects)?;
    Ok(PerkDef {
        id: PerkId::new(d.id.as_str()),
        name: owned(d.name.as_str()),
        required_classes: class_ids_of(&d.required_classes),
        effects,
    })
}

/// A strike can be loaded.
pub open spec fn strike_ok(s: StrikeDto) -> bool {
    &&& opt_note_ok(s.base)
    &&& opt_note_ok(s.scaling)
    &&& opt_note_ok(s.flat_bonus)
    &&& opt_note_ok(s.penetration)
    &&& opt_note_ok(s.true_damage)
}

/// A strike is the record's.
pub open spec fn strike_as(p: StrikeProfile, s: StrikeDto) -> bool {
    &&& opt_view(p.damage_type) == opt_view(s.damage_type)
    &&& opt_graded_as(p.base, s.base)
    &&& opt_graded_as(p.scaling, s.scaling)
    &&& opt_graded_as(p.flat_bonus, s.flat_bonus)
    &&& opt_graded_as(p.penetration, s.penetration)
    &&& opt_graded_as(p.true_damage, s.true_damage)
}

/// A skill record can be loaded.
pub open spec fn skill_ok(d: SkillDto) -> bool {
    &&& effects_ok(d.effects@)
    &&& (d.strike matches Some(s) ==> strike_ok(s))
}

/// A loaded skill is the record's.
pub open spec fn skill_as(p: SkillDef, d: SkillDto) -> bool {
    &&& p.id@ == d.id@
    &&& p.name@ == d.name@
    &&& class_slugs(p.required_classes@) == crate::text::string_views(d.required_classes@)
    &&& effects_as(p.effects@, d.effects@)
    &&& match (p.strike, d.strike) {
        (Some(x), Some(s)) => strike_as(x, s),
        (None, None) => true,
        _ => false,
    }
}

/// A skill from its record.
fn skill_of(d: &SkillDto) -> (r: Result<SkillDef, LoadError>)
    ensures
        r is Ok <==> skill_ok(*d),
        r is Err ==> r->Err_0 is Invalid,
        r is Ok ==> skill_as(r->Ok_0, *d),
{
    let effects = effects_of(&d.effects)?;
    let strike = match &d.strike {
        Some(s) => {
            let damage_type = match &s.damage_type {
                Some(t) => Some(owned(t.as_str())),
                None => None,
            };
            let base = opt_graded_of(&s.base)?;
            let scaling = opt_graded_of(&s.scaling)?;
            let flat_bonus = opt_graded_of(&s.flat_bonus)?;
            let penetration = opt_graded_of(&s.penetration)?;
            let true_damage = opt_graded_of(&s.true_damage)?;
            Some(StrikeProfile { damage_type, base, scaling, flat_bonus, penetration, true_damage })
        },
        None => None,
    };
    Ok(SkillDef {
        id: SkillId::new(d.id.as_str()),
        name: owned(d.name.as_str()),
        required_classes: class_ids_of(&d.required_classes),
        effects,
        strike,
    })
}

// ── Loading each table ──────────────────────────────────────────────────

/// The ids of class records.
pub open spec fn class_ids(s: Seq<ClassDto>) -> Seq<Seq<char>> {
    s.map_values(|c: ClassDto| c.id@)
}

/// The renames class records declare.
pub open spec fn class_renames(s: Seq<ClassDto>) -> Seq<(Seq<char>, Option<Seq<char>>)> {
    s.map_values(|c: ClassDto| (c.id@, opt_view(c.renamed_from)))
}

/// The classes loaded so far: each id holds the last record with it.
pub open spec fn classes_loaded(data: InMemoryDataset, s: Seq<ClassDto>, n: int) -> bool {
    &&& forall|k: Seq<char>| #[trigger] data.classes().contains_key(k) <==> last_below(class_ids(s), n, k) >= 0
    &&& forall|k: Seq<char>| #[trigger] data.classes().contains_key(k) ==> class_as(data.classes()[k], s[last_below(class_ids(s), n, k)])
}

/// Every class record can be loaded.
pub open spec fn classes_ok(s: Seq<ClassDto>, curves: Seq<CurveDto>) -> bool {
    forall|i: int| 0 <= i < s.len() ==> class_ok(#[trigger] s[i], curves)
}

/// Loads the classes into a dataset that has none yet, marking their ids
/// and renames.
fn load_classes(
    s: &Vec<ClassDto>,
    curves: &Vec<CurveDto>,
    data: &mut InMemoryDataset,
    ids: &mut IdMap<String, EntityKind>,
    renames: &mut IdMap<String, String>,
) -> (r: Result<(), LoadError>)
    requires
        old(data).wf(),
        old(data).classes() == Map::<Seq<char>, ClassDef>::empty(),
        old(ids).wf(),
        old(renames).wf(),
    ensures
        r is Ok <==> classes_ok(s@, curves@),
        r is Err ==> r->Err_0 is Invalid,
        r is Ok ==> {
            &&& final(data).wf()
            &&& classes_loaded(*final(data), s@, s@.len() as int)
            &&& final(data).items() == old(data).items()
            &&& final(data).perks() == old(data).perks()
            &&& final(data).skills() == old(data).skills()
            &&& final(data).curves() == old(data).curves()
            &&& final(data).build_spec() == old(data).build_spec()
            &&& final(ids).wf()
            &&& final(ids).view() == tag_ids(old(ids).view(), class_ids(s@), s@.len() as int, EntityKind::Class)
            &&& final(renames).wf()
            &&& rename_view(final(renames).view()) == rename_ids(rename_view(old(renames).view()), class_renames(s@), s@.len() as int)
        },
{
    let ghost data0 = *data;
    let ghost ids0 = ids.view();
    let ghost renames0 = rename_view(renames.view());
    let mut i: usize = 0;
    while i < s.len()
        invariant
            i <= s@.len(),
            data.wf(),
            classes_loaded(*data, s@, i as int),
            data.items() == data0.items(),
            data.perks() == data0.perks(),
            data.skills() == data0.skills(),
            data.curves() == data0.curves(),
            data.build_spec() == data0.build_spec(),
            ids.wf(),
            ids.view() == tag_ids(ids0, class_ids(s@), i as int, EntityKind::Class),
            renames.wf(),
            rename_view(renames.view()) == rename_ids(renames0, class_renames(s@), i as int),
            forall|j: int| 0 <= j < i ==> class_ok(#[trigger] s@[j], curves@),
        decreases s@.len() - i,
    {
        let d = &s[i];
        let def = match class_of(d, curves) {
            Ok(c) => c,
            Err(e) => return Err(e),
        };
        let ghost before = *data;
        ids.insert(owned(d.id.as_str()), EntityKind::Class);
        match &d.renamed_from {
            Some(from) => {
                let ghost r0 = renames.view();
                renames.insert(owned(d.id.as_str()), owned(from.as_str()));
                proof {
                    assert(rename_view(renames.view()) =~= rename_view(r0).insert(d.id@, from@));
                }
            },
            None => {},
        }
        data.insert_class(def);
        proof {
            assert(class_ids(s@)[i as int] == d.id@);
            assert(class_renames(s@)[i as int] == (d.id@, opt_view(d.renamed_from)));
            assert forall|k: Seq<char>| #[trigger] data.classes().contains_key(k) <==> last_below(class_ids(s@), i + 1, k) >= 0 by {
                lemma_last_below(class_ids(s@), i as int, k);
            }
            assert forall|k: Seq<char>| #[trigger] data.classes().contains_key(k) implies class_as(data.classes()[k], s@[last_below(class_ids(s@), i + 1, k)]) by {
                if k != d.id@ {
                    assert(before.classes().contains_key(k));
                }
            }
        }
        i = i + 1;
    }
    Ok(())
}

/// The ids of item records.
pub open spec fn item_ids(s: Seq<ItemDto>) -> Seq<Seq<char>> {
    s.map_values(|c: ItemDto| c.id@)
}

/// The renames item records declare.
pub open spec fn item_renames(s: Seq<ItemDto>) -> Seq<(Seq<char>, Option<Seq<char>>)> {
    s.map_values(|c: ItemDto| (c.id@, opt_view(c.renamed_from)))
}

/// The items loaded so far: each id holds the last record with it.
pub open spec fn items_loaded(data: InMemoryDataset, s: Seq<ItemDto>, n: int) -> bool {
    &&& forall|k: Seq<char>| #[trigger] data.items().contains_key(k) <==> last_below(item_ids(s), n, k) >= 0
    &&& forall|k: Seq<char>| #[trigger] data.items().contains_key(k) ==> item_as(data.items()[k], s[last_below(item_ids(s), n, k)])
}

/// Every item record can be loaded.
pub open spec fn items_ok(s: Seq<ItemDto>) -> bool {
    forall|i: int| 0 <= i < s.len() ==> item_ok(#[trigger] s[i])
}

/// Loads the items into a dataset that has none yet, marking their ids
/// and renames.
fn load_items(
    s: &Vec<ItemDto>,
    data: &mut InMemoryDataset,
    ids: &mut IdMap<String, EntityKind>,
    renames: &mut IdMap<String, String>,
) -> (r: Result<(), LoadError>)
    requires
        old(data).wf(),
        old(data).items() == Map::<Seq<char>, ItemDef>::empty(),
        old(ids).wf(),
        old(renames).wf(),
    ensures
        r is Ok <==> items_ok(s@),
        r is Err ==> r->Err_0 is Invalid,
        r is Ok ==> {
            &&& final(data).wf()
            &&& items_loaded(*final(data), s@, s@.len() as int)
            &&& final(data).classes() == old(data).classes()
            &&& final(data).perks() == old(data).perks()
            &&& final(data).skills() == old(data).skills()
            &&& final(data).curves() == old(data).curves()
            &&& final(data).build_spec() == old(data).build_spec()
            &&& final(ids).wf()
            &&& final(ids).view() == tag_ids(old(ids).view(), item_ids(s@), s@.len() as int, EntityKind::Item)
            &&& final(renames).wf()
            &&& rename_view(final(renames).view()) == rename_ids(rename_view(old(renames).view()), item_renames(s@), s@.len() as int)
        },
{
    let ghost data0 = *data;
    let ghost ids0 = ids.view();
    let ghost renames0 = rename_view(renames.view());
    let mut i: usize = 0;
    while i < s.len()
        invariant
            i <= s@.len(),
            data.wf(),
            items_loaded(*data, s@, i as int),
            data.classes() == data0.classes(),
            data.perks() == data0.perks(),
            data.skills() == data0.skills(),
            data.curves() == data0.curves(),
            data.build_spec() == data0.build_spec(),
            ids.wf(),
            ids.view() == tag_ids(ids0, item_ids(s@), i as int, EntityKind::Item),
            renames.wf(),
            rename_view(renames.view()) == rename_ids(renames0, item_renames(s@), i as int),
            forall|j: int| 0 <= j < i ==> item_ok(#[trigger] s@[j]),
        decreases s@.len() - i,
    {
        let d = &s[i];
        let def = match item_of(d) {
            Ok(c) => c,
            Err(e) => return Err(e),
        };
        let ghost before = *data;
        ids.insert(owned(d.id.as_str()), EntityKind::Item);
        match &d.renamed_from {
            Some(from) => {
                let ghost r0 = renames.view();
                renames.insert(owned(d.id.as_str()), owned(from.as_str()));
                proof {
                    assert(rename_view(renames.view()) =~= rename_view(r0).insert(d.id@, from@));
                }
            },
            None => {},
        }
        data.insert_item(def);
        proof {
            assert(item_ids(s@)[i as int] == d.id@);
            assert(item_renames(s@)[i as int] == (d.id@, opt_view(d.renamed_from)));
            assert forall|k: Seq<char>| #[trigger] data.items().contains_key(k) <==> last_below(item_ids(s@), i + 1, k) >= 0 by {
                lemma_last_below(item_ids(s@), i as int, k);
            }
            assert forall|k: Seq<char>| #[trigger] data.items().contains_key(k) implies item_as(data.items()[k], s@[last_below(item_ids(s@), i + 1, k)]) by {
                if k != d.id@ {
                    assert(before.items().contains_key(k));
                }
            }
        }
        i = i + 1;
    }
    Ok(())
}

/// The ids of perk records.
pub open spec fn perk_ids(s: Seq<PerkDto>) -> Seq<Seq<char>> {
    s.map_values(|c: PerkDto| c.id@)
}

/// The renames perk records declare.
pub open spec fn perk_renames(s: Seq<PerkDto>) -> Seq<(Seq<char>, Option<Seq<char>>)> {
    s.map_values(|c: PerkDto| (c.id@, opt_view(c.renamed_from)))
}

/// The perks loaded so far: each id holds the last record with it.
pub open spec fn perks_loaded(data: InMemoryDataset, s: Seq<PerkDto>, n: int) -> bool {
    &&& forall|k: Seq<char>| #[trigger] data.perks().contains_key(k) <==> last_below(perk_ids(s), n, k) >= 0
    &&& forall|k: Seq<char>| #[trigger] data.perks().contains_key(k) ==> perk_as(data.perks()[k], s[last_below(perk_ids(s), n, k)])
}

/// Every perk record can be loaded.
pub open spec fn perks_ok(s: Seq<PerkDto>) -> bool {
    forall|i: int| 0 <= i < s.len() ==> effects_ok((#[trigger] s[i]).effects@)
}

/// Loads the perks into a dataset that has none yet, marking their ids
/// and renames.
fn load_perks(
    s: &Vec<PerkDto>,
    data: &mut InMemoryDataset,
    ids: &mut IdMap<String, EntityKind>,
    renames: &mut IdMap<String, String>,
) -> (r: Result<(), LoadError>)
    requires
        old(data).wf(),
        old(data).perks() == Map::<Seq<char>, PerkDef>::empty(),
        old(ids).wf(),
        old(renames).wf(),
    ensures
        r is Ok <==> perks_ok(s@),
        r is Err ==> r->Err_0 is Invalid,
        r is Ok ==> {
            &&& final(data).wf()
            &&& perks_loaded(*final(data), s@, s@.len() as int)
            &&& final(data).classes() == old(data).classes()
            &&& final(data).items() == old(data).items()
            &&& final(data).skills() == old(data).skills()
            &&& final(data).curves() == old(data).curves()
            &&& final(data).build_spec() == old(data).build_spec()
            &&& final(ids).wf()
            &&& final(ids).view() == tag_ids(old(ids).view(), perk_ids(s@), s@.len() as int, EntityKind::Perk)
            &&& final(renames).wf()
            &&& rename_view(final(renames).view()) == rename_ids(rename_view(old(renames).view()), perk_renames(s@), s@.len() as int)
        },
{
    let ghost data0 = *data;
    let ghost ids0 = ids.view();
    let ghost renames0 = rename_view(renames.view());
    let mut i: usize = 0;
    while i < s.len()
        invariant
            i <= s@.len(),
            data.wf(),
            perks_loaded(*data, s@, i as int),
            data.classes() == data0.classes(),
            data.items() == data0.items(),
            data.skills() == data0.skills(),
            data.curves() == data0.curves(),
            data.build_spec() == data0.build_spec(),
            ids.wf(),
            ids.view() == tag_ids(ids0, perk_ids(s@), i as int, EntityKind::Perk),
            renames.wf(),
            rename_view(renames.view()) == rename_ids(renames0, perk_renames(s@), i as int),
            forall|j: int| 0 <= j < i ==> effects_ok((#[trigger] s@[j]).effects@),
        decreases s@.len() - i,
    {
        let d = &s[i];
        let def = match perk_of(d) {
            Ok(c) => c,
            Err(e) => return Err(e),
        };
        let ghost before = *data;
        ids.insert(owned(d.id.as_str()), EntityKind::Perk);
        match &d.renamed_from {
            Some(from) => {
                let ghost r0 = renames.view();
                renames.insert(owned(d.id.as_str()), owned(from.as_str()));
                proof {
                    assert(rename_view(renames.view()) =~= rename_view(r0).insert(d.id@, from@));
                }
            },
            None => {},
        }
        data.insert_perk(def);
        proof {
            assert(perk_ids(s@)[i as int] == d.id@);
            assert(perk_renames(s@)[i as int] == (d.id@, opt_view(d.renamed_from)));
            assert forall|k: Seq<char>| #[trigger] data.perks().contains_key(k) <==> last_below(perk_ids(s@), i + 1, k) >= 0 by {
                lemma_last_below(perk_ids(s@), i as int, k);
            }
            assert forall|k: Seq<char>| #[trigger] data.perks().contains_key(k) implies perk_as(data.perks()[k], s@[last_below(perk_ids(s@), i + 1, k)]) by {
                if k != d.id@ {
                    assert(before.perks().contains_key(k));
                }
            }
        }
        i = i + 1;
    }
    Ok(())
}

/// The ids of skill records.
pub open spec fn skill_ids(s: Seq<SkillDto>) -> Seq<Seq<char>> {
    s.map_values(|c: SkillDto| c.id@)
}

/// The renames skill records declare.
pub open spec fn skill_renames(s: Seq<SkillDto>) -> Seq<(Seq<char>, Option<Seq<char>>)> {
    s.map_values(|c: SkillDto| (c.id@, opt_view(c.renamed_from)))
}

/// The skills loaded so far: each id holds the last record with it.
pub open spec fn skills_loaded(data: InMemoryDataset, s: Seq<SkillDto>, n: int) -> bool {
    &&& forall|k: Seq<char>| #[trigger] data.skills().contains_key(k) <==> last_below(skill_ids(s), n, k) >= 0
    &&& forall|k: Seq<char>| #[trigger] data.skills().contains_key(k) ==> skill_as(data.skills()[k], s[last_below(skill_ids(s), n, k)])
}

/// Every skill record can be loaded.
pub open spec fn skills_ok(s: Seq<SkillDto>) -> bool {
    forall|i: int| 0 <= i < s.len() ==> skill_ok(#[trigger] s[i])
}

/// Loads the skills into a dataset that has none yet, marking their ids
/// and renames.
fn load_skills(
    s: &Vec<SkillDto>,
    data: &mut InMemoryDataset,
    ids: &mut IdMap<String, EntityKind>,
    renames: &mut IdMap<String, String>,
) -> (r: Result<(), LoadError>)
    requires
        old(data).wf(),
        old(data).skills() == Map::<Seq<char>, SkillDef>::empty(),
        old(ids).wf(),
        old(renames).wf(),
    ensures
        r is Ok <==> skills_ok(s@),
        r is Err ==> r->Err_0 is Invalid,
        r is Ok ==> {
            &&& final(data).wf()
            &&& skills_loaded(*final(data), s@, s@.len() as int)
            &&& final(data).classes() == old(data).classes()
            &&& final(data).items() == old(data).items()
            &&& final(data).perks() == old(data).perks()
            &&& final(data).curves() == old(data).curves()
            &&& final(data).build_spec() == old(data).build_spec()
            &&& final(ids).wf()
            &&& final(ids).view() == tag_ids(old(ids).view(), skill_ids(s@), s@.len() as int, EntityKind::Skill)
            &&& final(renames).wf()
            &&& rename_view(final(renames).view()) == rename_ids(rename_view(old(renames).view()), skill_renames(s@), s@.len() as int)
        },
{
    let ghost data0 = *data;
    let ghost ids0 = ids.view();
    let ghost renames0 = rename_view(renames.view());
    let mut i: usize = 0;
    while i < s.len()
        invariant
            i <= s@.len(),
            data.wf(),
            skills_loaded(*data, s@, i as int),
            data.classes() == data0.classes(),
            data.items() == data0.items(),
            data.perks() == data0.perks(),
            data.curves() == data0.curves(),
            data.build_spec() == data0.build_spec(),
            ids.wf(),
            ids.view() == tag_ids(ids0, skill_ids(s@), i as int, EntityKind::Skill),
            renames.wf(),
            rename_view(renames.view()) == rename_ids(renames0, skill_renames(s@), i as int),
            forall|j: int| 0 <= j < i ==> skill_ok(#[trigger] s@[j]),
        decreases s@.len() - i,
    {
        let d = &s[i];
        let def = match skill_of(d) {
            Ok(c) => c,
            Err(e) => return Err(e),
        };
        let ghost before = *data;
        ids.insert(owned(d.id.as_str()), EntityKind::Skill);
        match &d.renamed_from {
            Some(from) => {
                let ghost r0 = renames.view();
                renames.insert(owned(d.id.as_str()), owned(from.as_str()));
                proof {
                    assert(rename_view(renames.view()) =~= rename_view(r0).insert(d.id@, from@));
                }
            },
            None => {},
        }
        data.insert_skill(def);
        proof {
            assert(skill_ids(s@)[i as int] == d.id@);
            assert(skill_renames(s@)[i as int] == (d.id@, opt_view(d.renamed_from)));
            assert forall|k: Seq<char>| #[trigger] data.skills().contains_key(k) <==> last_below(skill_ids(s@), i + 1, k) >= 0 by {
                lemma_last_below(skill_ids(s@), i as int, k);
            }
            assert forall|k: Seq<char>| #[trigger] data.skills().contains_key(k) implies skill_as(data.skills()[k], s@[last_below(skill_ids(s@), i + 1, k)]) by {
                if k != d.id@ {
                    assert(before.skills().contains_key(k));
                }
            }
        }
        i = i + 1;
    }
    Ok(())
}

// ── A whole version ─────────────────────────────────────────────────────

/// The entity files of a version, read.
#[derive(Debug)]
pub struct DatasetFiles {
    /// The classes file.
    pub classes: Vec<ClassDto>,
    /// The curves file.
    pub curves: Vec<CurveDto>,
    /// The items file.
    pub items: Vec<ItemDto>,
    /// The perks file.
    pub perks: Vec<PerkDto>,
    /// The skills file.
    pub skills: Vec<SkillDto>,
}

/// A loaded dataset version: the manifest plus everything the resolver
/// needs.
#[derive(Debug)]
pub struct Dataset {
    /// The version's manifest.
    pub manifest: Manifest,
    /// Entities, ready for the resolver.
    pub entities: InMemoryDataset,
    /// Explicit renames, new id to old id. Set by a human under review; the
    /// diff never guesses that two ids are the same thing.
    pub renames: IdMap<String, String>,
    /// Every entity id this version defines, so a diff can spot additions
    /// and removals without reaching back into the files.
    pub ids: IdMap<String, EntityKind>,
}

/// Every id the files define, by table: curves, then classes, items, perks
/// and skills, a later table winning an id it shares.
pub open spec fn all_ids(f: DatasetFiles) -> Map<Seq<char>, EntityKind> {
    let m0 = tag_ids(Map::empty(), curve_ids(f.curves@), f.curves@.len() as int, EntityKind::Curve);
    let m1 = tag_ids(m0, class_ids(f.classes@), f.classes@.len() as int, EntityKind::Class);
    let m2 = tag_ids(m1, item_ids(f.items@), f.items@.len() as int, EntityKind::Item);
    let m3 = tag_ids(m2, perk_ids(f.perks@), f.perks@.len() as int, EntityKind::Perk);
    tag_ids(m3, skill_ids(f.skills@), f.skills@.len() as int, EntityKind::Skill)
}

/// Every rename the files declare, in the same order.
pub open spec fn all_renames(f: DatasetFiles) -> Map<Seq<char>, Seq<char>> {
    let m0 = rename_ids(Map::empty(), curve_renames(f.curves@), f.curves@.len() as int);
    let m1 = rename_ids(m0, class_renames(f.classes@), f.classes@.len() as int);
    let m2 = rename_ids(m1, item_renames(f.items@), f.items@.len() as int);
    let m3 = rename_ids(m2, perk_renames(f.perks@), f.perks@.len() as int);
    rename_ids(m3, skill_renames(f.skills@), f.skills@.len() as int)
}

/// A rename's old id must be gone from the version that renames it.
pub open spec fn renames_ok(f: DatasetFiles) -> bool {
    forall|k: Seq<char>| #[trigger] all_renames(f).contains_key(k) ==> !all_ids(f).contains_key(all_renames(f)[k])
}

/// Every record of every file can be loaded.
pub open spec fn files_ok(f: DatasetFiles) -> bool {
    &&& curves_ok(f.curves@)
    &&& classes_ok(f.classes@, f.curves@)
    &&& items_ok(f.items@)
    &&& perks_ok(f.perks@)
    &&& skills_ok(f.skills@)
    &&& renames_ok(f)
}

/// A dataset holds exactly what the files describe.
pub open spec fn dataset_as(ds: Dataset, build: Seq<char>, f: DatasetFiles) -> bool {
    &&& ds.entities.wf()
    &&& ds.entities.build_spec() == build
    &&& curves_loaded(ds.entities, f.curves@, f.curves@.len() as int)
    &&& classes_loaded(ds.entities, f.classes@, f.classes@.len() as int)
    &&& items_loaded(ds.entities, f.items@, f.items@.len() as int)
    &&& perks_loaded(ds.entities, f.perks@, f.perks@.len() as int)
    &&& skills_loaded(ds.entities, f.skills@, f.skills@.len() as int)
    &&& ds.ids.wf()
    &&& ds.ids.view() == all_ids(f)
    &&& ds.renames.wf()
    &&& rename_view(ds.renames.view()) == all_renames(f)
}

/// Refuses a rename whose old id is still defined.
fn check_renames(renames: &IdMap<String, String>, ids: &IdMap<String, EntityKind>) -> (r: Result<(), LoadError>)
    requires
        renames.wf(),
        ids.wf(),
    ensures
        r is Ok <==> forall|k: Seq<char>| #[trigger] renames.view().contains_key(k) ==> !ids.view().contains_key(renames.view()[k]@),
        r is Err ==> r->Err_0 is Invalid,
{
    let mut i: usize = 0;
    while i < renames.len()
        invariant
            i <= renames.entries().len(),
            renames.wf(),
            ids.wf(),
            forall|j: int| 0 <= j < i ==> !ids.view().contains_key((#[trigger] renames.entries()[j]).1@),
        decreases renames.entries().len() - i,
    {
        let old = renames.value_at(i);
        if ids.contains_key(old.as_str()) {
            proof {
                lemma_to_map_entries(renames.entries());
                lemma_keys_of(renames.entries());
                let k = crate::table::keys_of(renames.entries())[i as int];
                assert(renames.view().contains_key(k) && renames.view()[k] == renames.entries()[i as int].1);
            }
            let new = renames.key_at(i);
            return Err(refusal(new.as_str(), " claims to be renamed from an id this version still defines: ", old.as_str()));
        }
        i = i + 1;
    }
    proof {
        lemma_to_map_entries(renames.entries());
        lemma_keys_of(renames.entries());
        assert forall|k: Seq<char>| #[trigger] renames.view().contains_key(k) implies !ids.view().contains_key(renames.view()[k]@) by {
            let ks = crate::table::keys_of(renames.entries());
            assert(ks.contains(k));
            let j = choose|j: int| 0 <= j < ks.len() && ks[j] == k;
            assert(renames.view()[ks[j]] == renames.entries()[j].1);
        }
    }
    Ok(())
}

/// Builds a version's dataset from its read files: curves first, so that
/// classes can be checked against them, then classes, items, perks and
/// skills, then the renames against every id.
pub fn assemble(build: &str, manifest: Manifest, files: &DatasetFiles) -> (r: Result<Dataset, LoadError>)
    ensures
        r is Ok <==> files_ok(*files),
        r is Err ==> r->Err_0 is Invalid,
        r is Ok ==> r->Ok_0.manifest == manifest && dataset_as(r->Ok_0, build@, *files),
{
    let mut data = InMemoryDataset::new(build);
    let mut ids: IdMap<String, EntityKind> = IdMap::new();
    let mut renames: IdMap<String, String> = IdMap::new();
    proof {
        assert(rename_view(renames.view()) =~= Map::<Seq<char>, Seq<char>>::empty());
    }
    load_curves(&files.curves, &mut data, &mut ids, &mut renames)?;
    load_classes(&files.classes, &files.curves, &mut data, &mut ids, &mut renames)?;
    load_items(&files.items, &mut data, &mut ids, &mut renames)?;
    load_perks(&files.perks, &mut data, &mut ids, &mut renames)?;
    load_skills(&files.skills, &mut data, &mut ids, &mut renames)?;
    match check_renames(&renames, &ids) {
        Ok(()) => {},
        Err(e) => {
            proof {
                assert(rename_view(renames.view()) == all_renames(*files));
                assert(ids.view() == all_ids(*files));
                let k = choose|k: Seq<char>| #[trigger] renames.view().contains_key(k) && ids.view().contains_key(renames.view()[k]@);
                assert(rename_view(renames.view()).contains_key(k));
                assert(rename_view(renames.view())[k] == renames.view()[k]@);
                assert(!renames_ok(*files));
            }
            return Err(e);
        },
    }
    proof {
        assert forall|k: Seq<char>| #[trigger] all_renames(*files).contains_key(k) implies !all_ids(*files).contains_key(all_renames(*files)[k]) by {
            assert(rename_view(renames.view()).contains_key(k));
            assert(renames.view().contains_key(k));
        }
    }
    Ok(Dataset { manifest, entities: data, renames, ids })
}

/// A manifest is the build's, and every file it lists was reviewed.
pub open spec fn manifest_ok(m: Manifest, build: Seq<char>) -> bool {
    &&& m.build@ == build
    &&& forall|i: int| 0 <= i < m.sources@.len() ==> (#[trigger] m.sources@[i]).reviewed
}

/// Refuses a manifest of another build, or one listing unreviewed data:
/// unreviewed data must not reach the resolver.
pub fn check_manifest(m: &Manifest, build: &str) -> (r: Result<(), LoadError>)
    ensures
        r is Ok <==> manifest_ok(*m, build@),
        r is Err ==> r->Err_0 is Invalid,
{
    if !str_eq(m.build.as_str(), build) {
        return Err(refusal("manifest build does not match the directory it lives in: ", m.build.as_str(), ""));
    }
    let mut i: usize = 0;
    while i < m.sources.len()
        invariant
            i <= m.sources@.len(),
            forall|j: int| 0 <= j < i ==> (#[trigger] m.sources@[j]).reviewed,
        decreases m.sources@.len() - i,
    {
        if !m.sources[i].reviewed {
            return Err(refusal(m.sources[i].file.as_str(), " is not reviewed; unreviewed data must not reach the resolver", ""));
        }
        i = i + 1;
    }
    Ok(())
}

/// The texts of a version's six files.
#[derive(Debug)]
pub struct DatasetText {
    /// The manifest.
    pub manifest: String,
    /// The classes file.
    pub classes: String,
    /// The curves file.
    pub curves: String,
    /// The items file.
    pub items: String,
    /// The perks file.
    pub perks: String,
    /// The skills file.
    pub skills: String,
}

/// A schema refusal naming its file.
fn schema_error(path: &str, message: String) -> (r: LoadError)
    ensures
        r matches LoadError::Schema { path: p, message: m } && p@ == path@ && m@ == message@,
{
    LoadError::Schema { path: owned(path), message }
}

/// What reading the manifest's text gives.
pub open spec fn manifest_read_as(text: Seq<char>, r: Result<Manifest, LoadError>) -> bool {
    &&& r is Err ==> (r->Err_0 matches LoadError::Schema { path, .. } && path@ == "manifest"@)
    &&& match json_doc(text) {
        Err(m) => r matches Err(LoadError::Schema { message, .. }) && message@ == m,
        Ok(d) => (r is Ok <==> manifest_fits(d)) && (r is Ok ==> manifest_read(r->Ok_0, d)),
    }
}

/// Reads a manifest's text.
pub fn read_manifest(text: &str) -> (r: Result<Manifest, LoadError>)
    ensures
        manifest_read_as(text@, r),
{
    let d = match parse_json(text) {
        Ok(d) => d,
        Err(m) => return Err(schema_error("manifest", m)),
    };
    match decode_manifest(&d) {
        Ok(m) => Ok(m),
        Err(m) => Err(schema_error("manifest", m)),
    }
}

/// Each entity file's text is a JSON document of its shape.
pub open spec fn file_fits(text: Seq<char>, which: int) -> bool {
    match json_doc(text) {
        Ok(d) => if which == 0 {
            classes_file_fits(d)
        } else if which == 1 {
            curves_file_fits(d)
        } else if which == 2 {
            items_file_fits(d)
        } else if which == 3 {
            perks_file_fits(d)
        } else {
            skills_file_fits(d)
        },
        Err(_) => false,
    }
}

/// The entity files' texts, in the order they are read.
pub open spec fn entity_texts(t: DatasetText) -> Seq<Seq<char>> {
    seq![t.classes@, t.curves@, t.items@, t.perks@, t.skills@]
}

/// The entity files' names, in the same order.
pub open spec fn entity_paths() -> Seq<Seq<char>> {
    seq!["classes"@, "curves"@, "items"@, "perks"@, "skills"@]
}

/// Every entity file fits its shape.
pub open spec fn files_fit(t: DatasetText) -> bool {
    forall|w: int| 0 <= w < 5 ==> #[trigger] file_fits(entity_texts(t)[w], w)
}

/// The records are the ones the files' documents hold.
pub open spec fn files_read(f: DatasetFiles, t: DatasetText) -> bool {
    &&& classes_file_read(f.classes@, json_doc(t.classes@)->Ok_0)
    &&& curves_file_read(f.curves@, json_doc(t.curves@)->Ok_0)
    &&& items_file_read(f.items@, json_doc(t.items@)->Ok_0)
    &&& perks_file_read(f.perks@, json_doc(t.perks@)->Ok_0)
    &&& skills_file_read(f.skills@, json_doc(t.skills@)->Ok_0)
}

/// The first entity file, in reading order, that does not fit names the
/// refusal.
pub open spec fn first_misfit(t: DatasetText, path: Seq<char>) -> bool {
    exists|w: int| 0 <= w < 5 && !file_fits(entity_texts(t)[w], w) && path == entity_paths()[w]
        && forall|v: int| 0 <= v < w ==> #[trigger] file_fits(entity_texts(t)[v], v)
}

/// Reads the five entity files, in order; the first that is not a JSON
/// document of its shape is refused, naming it.
pub fn read_files(t: &DatasetText) -> (r: Result<DatasetFiles, LoadError>)
    ensures
        r is Ok <==> files_fit(*t),
        r is Ok ==> files_read(r->Ok_0, *t),
        r is Err ==> (r->Err_0 matches LoadError::Schema { path, .. } && first_misfit(*t, path@)),
{
    let classes = match parse_json(t.classes.as_str()) {
        Ok(d) => match decode_classes_file(&d) {
            Ok(v) => v,
            Err(m) => {
                proof {
                    assert(!file_fits(entity_texts(*t)[0], 0));
                    assert(entity_paths()[0] == "classes"@);
                }
                return Err(schema_error("classes", m));
            },
        },
        Err(m) => {
            proof {
                assert(!file_fits(entity_texts(*t)[0], 0));
                assert(entity_paths()[0] == "classes"@);
            }
            return Err(schema_error("classes", m));
        },
    };
    assert(file_fits(entity_texts(*t)[0], 0));
    let curves = match parse_json(t.curves.as_str()) {
        Ok(d) => match decode_curves_file(&d) {
            Ok(v) => v,
            Err(m) => {
                proof {
                    assert(!file_fits(entity_texts(*t)[1], 1));
                    assert(entity_paths()[1] == "curves"@);
                }
                return Err(schema_error("curves", m));
            },
        },
        Err(m) => {
            proof {
                assert(!file_fits(entity_texts(*t)[1], 1));
                assert(entity_paths()[1] == "curves"@);
            }
            return Err(schema_error("curves", m));
        },
    };
    assert(file_fits(entity_texts(*t)[1], 1));
    let items = match parse_json(t.items.as_str()) {
        Ok(d) => match decode_items_file(&d) {
            Ok(v) => v,
            Err(m) => {
                proof {
                    assert(!file_fits(entity_texts(*t)[2], 2));
                    assert(entity_paths()[2] == "items"@);
                }
                return Err(schema_error("items", m));
            },
        },
        Err(m) => {
            proof {
                assert(!file_fits(entity_texts(*t)[2], 2));
                assert(entity_paths()[2] == "items"@);
            }
            return Err(schema_error("items", m));
        },
    };
    assert(file_fits(entity_texts(*t)[2], 2));
    let perks = match parse_json(t.perks.as_str()) {
        Ok(d) => match decode_perks_file(&d) {
            Ok(v) => v,
            Err(m) => {
                proof {
                    assert(!file_fits(entity_texts(*t)[3], 3));
                    assert(entity_paths()[3] == "perks"@);
                }
                return Err(schema_error("perks", m));
            },
        },
        Err(m) => {
            proof {
                assert(!file_fits(entity_texts(*t)[3], 3));
                assert(entity_paths()[3] == "perks"@);
            }
            return Err(schema_error("perks", m));
        },
    };
    assert(file_fits(entity_texts(*t)[3], 3));
    let skills = match parse_json(t.skills.as_str()) {
        Ok(d) => match decode_skills_file(&d) {
            Ok(v) => v,
            Err(m) => {
                proof {
                    assert(!file_fits(entity_texts(*t)[4], 4));
                    assert(entity_paths()[4] == "skills"@);
                }
                return Err(schema_error("skills", m));
            },
        },
        Err(m) => {
            proof {
                assert(!file_fits(entity_texts(*t)[4], 4));
                assert(entity_paths()[4] == "skills"@);
            }
            return Err(schema_error("skills", m));
        },
    };
    assert(file_fits(entity_texts(*t)[4], 4));
    let f = DatasetFiles { classes, curves, items, perks, skills };
    proof {
        assert forall|w: int| 0 <= w < 5 implies #[trigger] file_fits(entity_texts(*t)[w], w) by {
            if w == 0 {
            } else if w == 1 {
            } else if w == 2 {
            } else if w == 3 {
            } else {
            }
        }
    }
    Ok(f)
}

/// What decoding a version's texts gives: the manifest, its checks, the
/// five entity files, and the dataset they describe.
pub open spec fn decoded_as(t: DatasetText, build: Seq<char>, r: Result<Dataset, LoadError>) -> bool {
    match json_doc(t.manifest@) {
        Err(m) => r matches Err(LoadError::Schema { path, message }) && path@ == "manifest"@ && message@ == m,
        Ok(md) => if !manifest_fits(md) {
            r matches Err(LoadError::Schema { path, .. }) && path@ == "manifest"@
        } else {
            exists|m: Manifest| #[trigger] manifest_read(m, md) && if !manifest_ok(m, build) {
                r matches Err(LoadError::Invalid(_))
            } else if !files_fit(t) {
                r matches Err(LoadError::Schema { path, .. }) && first_misfit(t, path@)
            } else {
                exists|f: DatasetFiles| #[trigger] files_read(f, t) && match r {
                    Ok(ds) => files_ok(f) && ds.manifest == m && dataset_as(ds, build, f),
                    Err(e) => e is Invalid && !files_ok(f),
                }
            }
        },
    }
}

/// Decodes a version from its files' texts. A missing file is the
/// caller's to report; everything the texts say is checked here.
pub fn decode(t: &DatasetText, build: &str) -> (r: Result<Dataset, LoadError>)
    ensures
        decoded_as(*t, build@, r),
{
    let manifest = read_manifest(t.manifest.as_str())?;
    check_manifest(&manifest, build)?;
    let files = read_files(t)?;
    let ghost m = manifest;
    let r = assemble(build, manifest, &files);
    proof {
        assert(manifest_read(m, json_doc(t.manifest@)->Ok_0));
        assert(files_read(files, *t));
    }
    r
}

/// A loaded version's renames retire their old ids: no rename points at an
/// id the version still defines.
pub proof fn law_loaded_renames_retire(ds: Dataset, build: Seq<char>, f: DatasetFiles)
    requires
        files_ok(f),
        dataset_as(ds, build, f),
    ensures
        forall|k: Seq<char>| #[trigger] ds.renames.view().contains_key(k) ==> !ds.ids.view().contains_key(ds.renames.view()[k]@),
{
    assert forall|k: Seq<char>| #[trigger] ds.renames.view().contains_key(k) implies !ds.ids.view().contains_key(ds.renames.view()[k]@) by {
        assert(rename_view(ds.renames.view()).contains_key(k));
        assert(all_renames(f).contains_key(k));
        assert(all_renames(f)[k] == ds.renames.view()[k]@);
    }
}

} // verus!
