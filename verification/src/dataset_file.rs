//! The dataset's files as they are written: JSON documents, read field by
//! field into plain records.
//!
//! An unrecognised key is a dataset error, not something to skip silently;
//! a field that must be there and is not, or has the wrong type, is one
//! too. A `null` reads as an absent field.

use vstd::prelude::*;

use crate::dataset::{ConfidenceDto, GradedMicro, Manifest, SourceRecord, grade_named};
use crate::doc::{
    Doc, field_error, get, has_int, has_text, int_at, int_entries, integer_in, keys_within, lookup, may_int, may_int_field,
    may_points, may_text, may_text_field, opt_i64_view, opt_integer, opt_list, opt_table, opt_table_with_integers, opt_text,
    opt_text_at, opt_int_at, opt_text_list, opt_view, points_views, req_bool, req_int, req_list, req_points, req_text, strs, table_field,
    text_at, text_field, may_text_list, only_keys, opt_bool, items_or_empty, integer_of,
};
use crate::text::{owned, string_views};

verus! {

// ── Names the format spells ─────────────────────────────────────────────

/// A present grade field's grade.
pub open spec fn grade_of(d: Option<Doc>) -> Option<ConfidenceDto> {
    match opt_text(d) {
        Some(Some(s)) => grade_named(s),
        _ => None,
    }
}

/// Reads a required grade field.
fn req_grade(t: &Vec<(String, Doc)>, key: &str) -> (r: Result<ConfidenceDto, String>)
    ensures
        r is Ok <==> grade_of(lookup(t@, key@)) is Some,
        r is Ok ==> Some(r->Ok_0) == grade_of(lookup(t@, key@)),
{
    match text_field(t, key) {
        Some(Some(s)) => match ConfidenceDto::parse(s.as_str()) {
            Some(g) => Ok(g),
            None => Err(field_error(key)),
        },
        _ => Err(field_error(key)),
    }
}

/// What a derived stat's weight reads.
#[derive(Copy, Clone, PartialEq, Eq, Structural, Debug)]
pub enum WeightKind {
    /// `attribute`: one of the seven attributes.
    Attribute,
    /// `derived`: another derived stat.
    Derived,
}

/// The weight kind a name names.
pub open spec fn weight_kind_named(text: Seq<char>) -> Option<WeightKind> {
    if text == "attribute"@ {
        Some(WeightKind::Attribute)
    } else if text == "derived"@ {
        Some(WeightKind::Derived)
    } else {
        None
    }
}

/// What kind of effect a record describes.
#[derive(Copy, Clone, PartialEq, Eq, Structural, Debug)]
pub enum EffectKind {
    /// `all_attributes`
    AllAttributes,
    /// `attribute`
    Attribute,
    /// `raise_cap`
    RaiseCap,
    /// `derived_bonus`
    DerivedBonus,
    /// `item_armor_bonus`
    ItemArmorBonus,
    /// `move_speed_add`
    MoveSpeedAdd,
    /// `move_speed_bonus`
    MoveSpeedBonus,
}

/// The effect kind a name names.
pub open spec fn effect_kind_named(text: Seq<char>) -> Option<EffectKind> {
    if text == "all_attributes"@ {
        Some(EffectKind::AllAttributes)
    } else if text == "attribute"@ {
        Some(EffectKind::Attribute)
    } else if text == "raise_cap"@ {
        Some(EffectKind::RaiseCap)
    } else if text == "derived_bonus"@ {
        Some(EffectKind::DerivedBonus)
    } else if text == "item_armor_bonus"@ {
        Some(EffectKind::ItemArmorBonus)
    } else if text == "move_speed_add"@ {
        Some(EffectKind::MoveSpeedAdd)
    } else if text == "move_speed_bonus"@ {
        Some(EffectKind::MoveSpeedBonus)
    } else {
        None
    }
}

/// The record name of each effect kind, as a dataset file writes it.
pub open spec fn effect_kind_name(k: EffectKind) -> Seq<char> {
    match k {
        EffectKind::AllAttributes => "all_attributes"@,
        EffectKind::Attribute => "attribute"@,
        EffectKind::RaiseCap => "raise_cap"@,
        EffectKind::DerivedBonus => "derived_bonus"@,
        EffectKind::ItemArmorBonus => "item_armor_bonus"@,
        EffectKind::MoveSpeedAdd => "move_speed_add"@,
        EffectKind::MoveSpeedBonus => "move_speed_bonus"@,
    }
}

/// **Each effect name reads as its own kind.** A name reads as a kind
/// exactly when it is that kind's record name, so names are read
/// injectively: two names that read as the same kind are the same name,
/// and `move_speed_bonus` is a percentage bonus, never a flat add.
pub proof fn law_effect_kind_names_read_as_their_kind(text: Seq<char>, k: EffectKind)
    ensures
        effect_kind_named(text) == Some(k) <==> text == effect_kind_name(k),
{
    reveal_strlit("all_attributes");
    reveal_strlit("attribute");
    reveal_strlit("raise_cap");
    reveal_strlit("derived_bonus");
    reveal_strlit("item_armor_bonus");
    reveal_strlit("move_speed_add");
    reveal_strlit("move_speed_bonus");
    let names = seq![
        "all_attributes"@, "attribute"@, "raise_cap"@, "derived_bonus"@, "item_armor_bonus"@,
        "move_speed_add"@, "move_speed_bonus"@,
    ];
    assert forall|i: int, j: int| 0 <= i < j < 7 implies #[trigger] names[i] != #[trigger] names[j] by {
        if names[i].len() == names[j].len() {
            assert(names[i][0] != names[j][0] || names[i][11] != names[j][11]);
        }
    }
    if text == effect_kind_name(k) {
        assert(names.contains(text));
    }
}

/// A present weight-kind field's kind.
pub open spec fn weight_kind_of(d: Option<Doc>) -> Option<WeightKind> {
    match opt_text(d) {
        Some(Some(s)) => weight_kind_named(s),
        _ => None,
    }
}

/// A present effect-kind field's kind.
pub open spec fn effect_kind_of(d: Option<Doc>) -> Option<EffectKind> {
    match opt_text(d) {
        Some(Some(s)) => effect_kind_named(s),
        _ => None,
    }
}

/// Reads a required weight-kind field.
fn req_weight_kind(t: &Vec<(String, Doc)>, key: &str) -> (r: Result<WeightKind, String>)
    ensures
        r is Ok <==> weight_kind_of(lookup(t@, key@)) is Some,
        r is Ok ==> Some(r->Ok_0) == weight_kind_of(lookup(t@, key@)),
{
    match text_field(t, key) {
        Some(Some(s)) => {
            if crate::text::str_eq(s.as_str(), "attribute") {
                Ok(WeightKind::Attribute)
            } else if crate::text::str_eq(s.as_str(), "derived") {
                Ok(WeightKind::Derived)
            } else {
                Err(field_error(key))
            }
        },
        _ => Err(field_error(key)),
    }
}

/// Reads a required effect-kind field.
fn req_effect_kind(t: &Vec<(String, Doc)>, key: &str) -> (r: Result<EffectKind, String>)
    ensures
        r is Ok <==> effect_kind_of(lookup(t@, key@)) is Some,
        r is Ok ==> Some(r->Ok_0) == effect_kind_of(lookup(t@, key@)),
{
    match text_field(t, key) {
        Some(Some(s)) => {
            let n = s.as_str();
            if crate::text::str_eq(n, "all_attributes") {
                Ok(EffectKind::AllAttributes)
            } else if crate::text::str_eq(n, "attribute") {
                Ok(EffectKind::Attribute)
            } else if crate::text::str_eq(n, "raise_cap") {
                Ok(EffectKind::RaiseCap)
            } else if crate::text::str_eq(n, "derived_bonus") {
                Ok(EffectKind::DerivedBonus)
            } else if crate::text::str_eq(n, "item_armor_bonus") {
                Ok(EffectKind::ItemArmorBonus)
            } else if crate::text::str_eq(n, "move_speed_add") {
                Ok(EffectKind::MoveSpeedAdd)
            } else if crate::text::str_eq(n, "move_speed_bonus") {
                Ok(EffectKind::MoveSpeedBonus)
            } else {
                Err(field_error(key))
            }
        },
        _ => Err(field_error(key)),
    }
}

/// An optional whole number as a whole number.
pub open spec fn opt_i32_view(v: Option<i32>) -> Option<int> {
    match v {
        Some(x) => Some(x as int),
        None => None,
    }
}

/// An optional count as a whole number.
pub open spec fn opt_u32_view(v: Option<u32>) -> Option<int> {
    match v {
        Some(x) => Some(x as int),
        None => None,
    }
}

/// Reads an optional list field; `None` when absent.
fn list_or_none<'a>(t: &'a Vec<(String, Doc)>, key: &str) -> (r: Result<Option<&'a Vec<Doc>>, String>)
    ensures
        r is Ok <==> opt_list(lookup(t@, key@)) is Some,
        r is Ok ==> match r->Ok_0 {
            Some(x) => opt_list(lookup(t@, key@)) == Some(Some(x@)) && items_or_empty(lookup(t@, key@)) == x@,
            None => opt_list(lookup(t@, key@)) == Some(None::<Seq<Doc>>),
        },
{
    match crate::doc::list_field(t, key) {
        Some(v) => Ok(v),
        None => Err(field_error(key)),
    }
}

/// Whether a document is a graded value.
pub open spec fn graded_micro_fits(d: Doc) -> bool {
    let t = d->Table_0@;
    &&& d is Table
    &&& keys_within(t, seq!["confidence"@, "micro"@, "note"@])
    &&& grade_of(lookup(t, "confidence"@)) is Some
    &&& has_int(t, "micro"@, i64::MIN as int, i64::MAX as int)
    &&& may_text(t, "note"@)
}

/// GradedMicro's fields, as read from a fitting document.
pub open spec fn graded_micro_read(x: GradedMicro, d: Doc) -> bool {
    let t = d->Table_0@;
    &&& Some(x.confidence) == grade_of(lookup(t, "confidence"@))
    &&& x.micro == int_at(t, "micro"@, i64::MIN as int, i64::MAX as int)
    &&& opt_view(x.note) == opt_text_at(t, "note"@)
}

/// Reads a graded value: its grade, its micro count and its note.
pub fn decode_graded_micro(d: &Doc) -> (r: Result<GradedMicro, String>)
    ensures
        r is Ok <==> graded_micro_fits(*d),
        r is Ok ==> graded_micro_read(r->Ok_0, *d),
{
    let t = match d {
        Doc::Table(t) => t,
        _ => return Err(owned("a graded value is an object")),
    };
    let keys: [&str; 3] = ["confidence", "micro", "note"];
    proof {
        assert(strs(keys@) =~= seq!["confidence"@, "micro"@, "note"@]);
    }
    only_keys(t, &keys)?;
    let confidence = req_grade(t, "confidence")?;
    let micro = req_int(t, "micro", i64::MIN, i64::MAX)?;
    let note = may_text_field(t, "note")?;
    Ok(GradedMicro { confidence, micro, note })
}
/// An optional field holds graded micro, or nothing.
pub open spec fn may_graded_micro(d: Option<Doc>) -> bool {
    match d {
        None => true,
        Some(Doc::Null) => true,
        Some(x) => graded_micro_fits(x),
    }
}

/// An optional record, as read from an optional field.
pub open spec fn opt_graded_micro_read(x: Option<GradedMicro>, d: Option<Doc>) -> bool {
    match d {
        None => x is None,
        Some(Doc::Null) => x is None,
        Some(y) => x is Some && graded_micro_read(x->0, y),
    }
}

/// Reads an optional record field.
fn may_graded_micro_field(t: &Vec<(String, Doc)>, key: &str) -> (r: Result<Option<GradedMicro>, String>)
    ensures
        r is Ok <==> may_graded_micro(lookup(t@, key@)),
        r is Ok ==> opt_graded_micro_read(r->Ok_0, lookup(t@, key@)),
{
    match get(t, key) {
        None => Ok(None),
        Some(Doc::Null) => Ok(None),
        Some(x) => {
            let v = decode_graded_micro(x)?;
            Ok(Some(v))
        },
    }
}
/// Reads a required record field.
fn req_graded_micro(t: &Vec<(String, Doc)>, key: &str) -> (r: Result<GradedMicro, String>)
    ensures
        r is Ok <==> (lookup(t@, key@) matches Some(x) && graded_micro_fits(x)),
        r is Ok ==> graded_micro_read(r->Ok_0, lookup(t@, key@)->0),
{
    match get(t, key) {
        Some(x) => decode_graded_micro(x),
        None => Err(field_error(key)),
    }
}
/// A graded block of attribute points as a file writes it.
#[derive(Debug)]
pub struct GradedPoints {
    /// The grade.
    pub confidence: ConfidenceDto,
    /// Whole points by attribute name, in key order.
    pub points: Vec<(String, i32)>,
    /// Why, when the grade is `unknown`.
    pub note: Option<String>,
}

/// Whether a document is a graded block of points.
pub open spec fn graded_points_fits(d: Doc) -> bool {
    let t = d->Table_0@;
    &&& d is Table
    &&& keys_within(t, seq!["confidence"@, "points"@, "note"@])
    &&& grade_of(lookup(t, "confidence"@)) is Some
    &&& opt_table(lookup(t, "points"@)) matches Some(Some(_))
    &&& opt_table_with_integers(lookup(t, "points"@), i32::MIN as int, i32::MAX as int)
    &&& may_text(t, "note"@)
}

/// GradedPoints's fields, as read from a fitting document.
pub open spec fn graded_points_read(x: GradedPoints, d: Doc) -> bool {
    let t = d->Table_0@;
    &&& Some(x.confidence) == grade_of(lookup(t, "confidence"@))
    &&& points_views(x.points@) == int_entries(lookup(t, "points"@))
    &&& opt_view(x.note) == opt_text_at(t, "note"@)
}

/// Reads a graded block of attribute points.
pub fn decode_graded_points(d: &Doc) -> (r: Result<GradedPoints, String>)
    ensures
        r is Ok <==> graded_points_fits(*d),
        r is Ok ==> graded_points_read(r->Ok_0, *d),
{
    let t = match d {
        Doc::Table(t) => t,
        _ => return Err(owned("a graded block of points is an object")),
    };
    let keys: [&str; 3] = ["confidence", "points", "note"];
    proof {
        assert(strs(keys@) =~= seq!["confidence"@, "points"@, "note"@]);
    }
    only_keys(t, &keys)?;
    let confidence = req_grade(t, "confidence")?;
    let points = req_points(t, "points")?;
    let note = may_text_field(t, "note")?;
    Ok(GradedPoints { confidence, points, note })
}
/// An optional field holds graded points, or nothing.
pub open spec fn may_graded_points(d: Option<Doc>) -> bool {
    match d {
        None => true,
        Some(Doc::Null) => true,
        Some(x) => graded_points_fits(x),
    }
}

/// An optional record, as read from an optional field.
pub open spec fn opt_graded_points_read(x: Option<GradedPoints>, d: Option<Doc>) -> bool {
    match d {
        None => x is None,
        Some(Doc::Null) => x is None,
        Some(y) => x is Some && graded_points_read(x->0, y),
    }
}

/// Reads an optional record field.
fn may_graded_points_field(t: &Vec<(String, Doc)>, key: &str) -> (r: Result<Option<GradedPoints>, String>)
    ensures
        r is Ok <==> may_graded_points(lookup(t@, key@)),
        r is Ok ==> opt_graded_points_read(r->Ok_0, lookup(t@, key@)),
{
    match get(t, key) {
        None => Ok(None),
        Some(Doc::Null) => Ok(None),
        Some(x) => {
            let v = decode_graded_points(x)?;
            Ok(Some(v))
        },
    }
}
/// Reads a required record field.
fn req_graded_points(t: &Vec<(String, Doc)>, key: &str) -> (r: Result<GradedPoints, String>)
    ensures
        r is Ok <==> (lookup(t@, key@) matches Some(x) && graded_points_fits(x)),
        r is Ok ==> graded_points_read(r->Ok_0, lookup(t@, key@)->0),
{
    match get(t, key) {
        Some(x) => decode_graded_points(x),
        None => Err(field_error(key)),
    }
}
/// Whether a document is a source record.
pub open spec fn source_record_fits(d: Doc) -> bool {
    let t = d->Table_0@;
    &&& d is Table
    &&& keys_within(t, seq!["file"@, "origin"@, "scraped"@, "reviewed"@])
    &&& has_text(t, "file"@)
    &&& has_text(t, "origin"@)
    &&& has_text(t, "scraped"@)
    &&& opt_bool(lookup(t, "reviewed"@)) matches Some(Some(_))
}

/// SourceRecord's fields, as read from a fitting document.
pub open spec fn source_record_read(x: SourceRecord, d: Doc) -> bool {
    let t = d->Table_0@;
    &&& x.file@ == text_at(t, "file"@)
    &&& x.origin@ == text_at(t, "origin"@)
    &&& x.scraped@ == text_at(t, "scraped"@)
    &&& Some(x.reviewed) == opt_bool(lookup(t, "reviewed"@))->0
}

/// Reads one file's provenance.
pub fn decode_source_record(d: &Doc) -> (r: Result<SourceRecord, String>)
    ensures
        r is Ok <==> source_record_fits(*d),
        r is Ok ==> source_record_read(r->Ok_0, *d),
{
    let t = match d {
        Doc::Table(t) => t,
        _ => return Err(owned("a source record is an object")),
    };
    let keys: [&str; 4] = ["file", "origin", "scraped", "reviewed"];
    proof {
        assert(strs(keys@) =~= seq!["file"@, "origin"@, "scraped"@, "reviewed"@]);
    }
    only_keys(t, &keys)?;
    let file = req_text(t, "file")?;
    let origin = req_text(t, "origin")?;
    let scraped = req_text(t, "scraped")?;
    let reviewed = req_bool(t, "reviewed")?;
    Ok(SourceRecord { file, origin, scraped, reviewed })
}
/// Every document of a list is source record.
pub open spec fn source_records_fit(items: Seq<Doc>) -> bool {
    forall|i: int| 0 <= i < items.len() ==> source_record_fits(#[trigger] items[i])
}

/// A list's records, one per document, in order.
pub open spec fn source_records_read(v: Seq<SourceRecord>, items: Seq<Doc>) -> bool {
    &&& v.len() == items.len()
    &&& forall|i: int| 0 <= i < items.len() ==> source_record_read(#[trigger] v[i], items[i])
}

/// Reads a list of records, refusing the first that does not fit.
pub fn decode_source_records(items: &Vec<Doc>) -> (r: Result<Vec<SourceRecord>, String>)
    ensures
        r is Ok <==> source_records_fit(items@),
        r is Ok ==> source_records_read(r->Ok_0@, items@),
{
    let mut out: Vec<SourceRecord> = Vec::new();
    let mut i: usize = 0;
    while i < items.len()
        invariant
            i <= items@.len(),
            out@.len() == i,
            forall|j: int| 0 <= j < i ==> source_record_fits(#[trigger] items@[j]),
            forall|j: int| 0 <= j < i ==> source_record_read(#[trigger] out@[j], items@[j]),
        decreases items@.len() - i,
    {
        let x = decode_source_record(&items[i])?;
        let ghost before = out@;
        out.push(x);
        proof {
            assert forall|j: int| 0 <= j < i + 1 implies source_record_read(#[trigger] out@[j], items@[j]) by {
                if j < i {
                    assert(out@[j] == before[j]);
                }
            }
        }
        i = i + 1;
    }
    Ok(out)
}
/// A required list field of source records.
pub open spec fn has_source_records(t: Seq<(String, Doc)>, key: Seq<char>) -> bool {
    opt_list(lookup(t, key)) matches Some(Some(items)) && source_records_fit(items)
}

/// Reads a required list field of records.
fn req_source_records(t: &Vec<(String, Doc)>, key: &str) -> (r: Result<Vec<SourceRecord>, String>)
    ensures
        r is Ok <==> has_source_records(t@, key@),
        r is Ok ==> source_records_read(r->Ok_0@, opt_list(lookup(t@, key@))->0->0),
{
    let items = req_list(t, key)?;
    decode_source_records(items)
}
/// Whether a document is a manifest.
pub open spec fn manifest_fits(d: Doc) -> bool {
    let t = d->Table_0@;
    &&& d is Table
    &&& keys_within(t, seq!["build"@, "label"@, "released"@, "previous"@, "sources"@])
    &&& has_text(t, "build"@)
    &&& has_text(t, "label"@)
    &&& has_text(t, "released"@)
    &&& may_text(t, "previous"@)
    &&& has_source_records(t, "sources"@)
}

/// Manifest's fields, as read from a fitting document.
pub open spec fn manifest_read(x: Manifest, d: Doc) -> bool {
    let t = d->Table_0@;
    &&& x.build@ == text_at(t, "build"@)
    &&& x.label@ == text_at(t, "label"@)
    &&& x.released@ == text_at(t, "released"@)
    &&& opt_view(x.previous) == opt_text_at(t, "previous"@)
    &&& source_records_read(x.sources@, opt_list(lookup(t, "sources"@))->0->0)
}

/// Reads a version's manifest.
pub fn decode_manifest(d: &Doc) -> (r: Result<Manifest, String>)
    ensures
        r is Ok <==> manifest_fits(*d),
        r is Ok ==> manifest_read(r->Ok_0, *d),
{
    let t = match d {
        Doc::Table(t) => t,
        _ => return Err(owned("a manifest is an object")),
    };
    let keys: [&str; 5] = ["build", "label", "released", "previous", "sources"];
    proof {
        assert(strs(keys@) =~= seq!["build"@, "label"@, "released"@, "previous"@, "sources"@]);
    }
    only_keys(t, &keys)?;
    let build = req_text(t, "build")?;
    let label = req_text(t, "label")?;
    let released = req_text(t, "released")?;
    let previous = may_text_field(t, "previous")?;
    let sources = req_source_records(t, "sources")?;
    Ok(Manifest { build, label, released, previous, sources })
}
/// A curve point as a file writes it: a list of two whole numbers.
pub open spec fn point_of(d: Doc) -> Option<(int, int)> {
    match d {
        Doc::List(xs) => if xs@.len() == 2 {
            match (opt_integer(Some(xs@[0]), i64::MIN as int, i64::MAX as int), opt_integer(Some(xs@[1]), i64::MIN as int, i64::MAX as int)) {
                (Some(Some(a)), Some(Some(b))) => Some((a, b)),
                _ => None,
            }
        } else {
            None
        },
        _ => None,
    }
}

/// A whole number document in the `i64` range.
fn whole_of(d: &Doc) -> (r: Option<i64>)
    ensures
        match opt_integer(Some(*d), i64::MIN as int, i64::MAX as int) {
            Some(Some(v)) => r == Some(v as i64),
            _ => r is None,
        },
{
    match d {
        Doc::Number(s) => integer_of(s.as_str(), i64::MIN, i64::MAX),
        _ => None,
    }
}

/// Reads one curve point.
fn read_point(d: &Doc) -> (r: Option<(i64, i64)>)
    ensures
        r is Some <==> point_of(*d) is Some,
        r matches Some(p) ==> point_of(*d) == Some((p.0 as int, p.1 as int)),
{
    match d {
        Doc::List(xs) => {
            if xs.len() != 2 {
                return None;
            }
            match (whole_of(&xs[0]), whole_of(&xs[1])) {
                (Some(a), Some(b)) => Some((a, b)),
                _ => None,
            }
        },
        _ => None,
    }
}

/// Points as whole numbers.
pub open spec fn point_views(p: Seq<(i64, i64)>) -> Seq<(int, int)> {
    p.map_values(|e: (i64, i64)| (e.0 as int, e.1 as int))
}

/// Every document of a list is a point.
pub open spec fn points_fit(items: Seq<Doc>) -> bool {
    forall|i: int| 0 <= i < items.len() ==> (#[trigger] point_of(items[i])) is Some
}

/// Reads a required list of curve points.
fn req_curve_points(t: &Vec<(String, Doc)>, key: &str) -> (r: Result<Vec<(i64, i64)>, String>)
    ensures
        r is Ok <==> (opt_list(lookup(t@, key@)) matches Some(Some(items)) && points_fit(items)),
        r is Ok ==> point_views(r->Ok_0@).len() == opt_list(lookup(t@, key@))->0->0.len(),
        r is Ok ==> forall|i: int| 0 <= i < r->Ok_0@.len()
            ==> Some(#[trigger] point_views(r->Ok_0@)[i]) == point_of(opt_list(lookup(t@, key@))->0->0[i]),
{
    let items = req_list(t, key)?;
    let mut out: Vec<(i64, i64)> = Vec::new();
    let mut i: usize = 0;
    while i < items.len()
        invariant
            i <= items@.len(),
            out@.len() == i,
            opt_list(lookup(t@, key@)) == Some(Some(items@)),
            forall|j: int| 0 <= j < i ==> (#[trigger] point_of(items@[j])) is Some,
            forall|j: int| 0 <= j < i ==> Some(#[trigger] point_views(out@)[j]) == point_of(items@[j]),
        decreases items@.len() - i,
    {
        let p = match read_point(&items[i]) {
            Some(p) => p,
            None => return Err(field_error(key)),
        };
        let ghost before = out@;
        out.push(p);
        proof {
            assert forall|j: int| 0 <= j < i + 1 implies Some(#[trigger] point_views(out@)[j]) == point_of(items@[j]) by {
                if j < i {
                    assert(out@[j] == before[j]);
                    assert(point_views(before)[j] == point_views(out@)[j]);
                }
            }
        }
        i = i + 1;
    }
    Ok(out)
}

/// A curve as a file writes it.
#[derive(Debug)]
pub struct CurveDto {
    /// The curve's id.
    pub id: String,
    /// The id this curve had in the previous version, if it was renamed.
    pub renamed_from: Option<String>,
    /// The grade.
    pub confidence: ConfidenceDto,
    /// Breakpoints in micro-units, input then output.
    pub points: Vec<(i64, i64)>,
    /// Why, when the grade is `unknown`.
    pub note: Option<String>,
}

/// Whether a document is a curve.
pub open spec fn curve_fits(d: Doc) -> bool {
    let t = d->Table_0@;
    &&& d is Table
    &&& keys_within(t, seq!["id"@, "renamed_from"@, "confidence"@, "points"@, "note"@])
    &&& has_text(t, "id"@)
    &&& may_text(t, "renamed_from"@)
    &&& grade_of(lookup(t, "confidence"@)) is Some
    &&& opt_list(lookup(t, "points"@)) matches Some(Some(items)) && points_fit(items)
    &&& may_text(t, "note"@)
}

/// CurveDto's fields, as read from a fitting document.
pub open spec fn curve_read(x: CurveDto, d: Doc) -> bool {
    let t = d->Table_0@;
    &&& x.id@ == text_at(t, "id"@)
    &&& opt_view(x.renamed_from) == opt_text_at(t, "renamed_from"@)
    &&& Some(x.confidence) == grade_of(lookup(t, "confidence"@))
    &&& x.points@.len() == opt_list(lookup(t, "points"@))->0->0.len()
    &&& forall|i: int| 0 <= i < x.points@.len() ==> Some(#[trigger] point_views(x.points@)[i]) == point_of(opt_list(lookup(t, "points"@))->0->0[i])
    &&& opt_view(x.note) == opt_text_at(t, "note"@)
}

/// Reads one curve.
pub fn decode_curve(d: &Doc) -> (r: Result<CurveDto, String>)
    ensures
        r is Ok <==> curve_fits(*d),
        r is Ok ==> curve_read(r->Ok_0, *d),
{
    let t = match d {
        Doc::Table(t) => t,
        _ => return Err(owned("a curve is an object")),
    };
    let keys: [&str; 5] = ["id", "renamed_from", "confidence", "points", "note"];
    proof {
        assert(strs(keys@) =~= seq!["id"@, "renamed_from"@, "confidence"@, "points"@, "note"@]);
    }
    only_keys(t, &keys)?;
    let id = req_text(t, "id")?;
    let renamed_from = may_text_field(t, "renamed_from")?;
    let confidence = req_grade(t, "confidence")?;
    let points = req_curve_points(t, "points")?;
    let note = may_text_field(t, "note")?;
    Ok(CurveDto { id, renamed_from, confidence, points, note })
}
/// Every document of a list is curve.
pub open spec fn curves_fit(items: Seq<Doc>) -> bool {
    forall|i: int| 0 <= i < items.len() ==> curve_fits(#[trigger] items[i])
}

/// A list's records, one per document, in order.
pub open spec fn curves_read(v: Seq<CurveDto>, items: Seq<Doc>) -> bool {
    &&& v.len() == items.len()
    &&& forall|i: int| 0 <= i < items.len() ==> curve_read(#[trigger] v[i], items[i])
}

/// Reads a list of records, refusing the first that does not fit.
pub fn decode_curves(items: &Vec<Doc>) -> (r: Result<Vec<CurveDto>, String>)
    ensures
        r is Ok <==> curves_fit(items@),
        r is Ok ==> curves_read(r->Ok_0@, items@),
{
    let mut out: Vec<CurveDto> = Vec::new();
    let mut i: usize = 0;
    while i < items.len()
        invariant
            i <= items@.len(),
            out@.len() == i,
            forall|j: int| 0 <= j < i ==> curve_fits(#[trigger] items@[j]),
            forall|j: int| 0 <= j < i ==> curve_read(#[trigger] out@[j], items@[j]),
        decreases items@.len() - i,
    {
        let x = decode_curve(&items[i])?;
        let ghost before = out@;
        out.push(x);
        proof {
            assert forall|j: int| 0 <= j < i + 1 implies curve_read(#[trigger] out@[j], items@[j]) by {
                if j < i {
                    assert(out@[j] == before[j]);
                }
            }
        }
        i = i + 1;
    }
    Ok(out)
}
/// A required list field of curves.
pub open spec fn has_curves(t: Seq<(String, Doc)>, key: Seq<char>) -> bool {
    opt_list(lookup(t, key)) matches Some(Some(items)) && curves_fit(items)
}

/// Reads a required list field of records.
fn req_curves(t: &Vec<(String, Doc)>, key: &str) -> (r: Result<Vec<CurveDto>, String>)
    ensures
        r is Ok <==> has_curves(t@, key@),
        r is Ok ==> curves_read(r->Ok_0@, opt_list(lookup(t@, key@))->0->0),
{
    let items = req_list(t, key)?;
    decode_curves(items)
}
/// One weight of a derived stat as a file writes it.
#[derive(Debug)]
pub struct WeightDto {
    /// What the weight reads.
    pub kind: WeightKind,
    /// The attribute's name or the derived stat's id (`ref`).
    pub reference: String,
    /// The weight in micro-units.
    pub weight: i64,
}

/// Whether a document is a weight.
pub open spec fn weight_fits(d: Doc) -> bool {
    let t = d->Table_0@;
    &&& d is Table
    &&& keys_within(t, seq!["kind"@, "ref"@, "weight"@])
    &&& weight_kind_of(lookup(t, "kind"@)) is Some
    &&& has_text(t, "ref"@)
    &&& has_int(t, "weight"@, i64::MIN as int, i64::MAX as int)
}

/// WeightDto's fields, as read from a fitting document.
pub open spec fn weight_read(x: WeightDto, d: Doc) -> bool {
    let t = d->Table_0@;
    &&& Some(x.kind) == weight_kind_of(lookup(t, "kind"@))
    &&& x.reference@ == text_at(t, "ref"@)
    &&& x.weight == int_at(t, "weight"@, i64::MIN as int, i64::MAX as int)
}

/// Reads one weight.
pub fn decode_weight(d: &Doc) -> (r: Result<WeightDto, String>)
    ensures
        r is Ok <==> weight_fits(*d),
        r is Ok ==> weight_read(r->Ok_0, *d),
{
    let t = match d {
        Doc::Table(t) => t,
        _ => return Err(owned("a weight is an object")),
    };
    let keys: [&str; 3] = ["kind", "ref", "weight"];
    proof {
        assert(strs(keys@) =~= seq!["kind"@, "ref"@, "weight"@]);
    }
    only_keys(t, &keys)?;
    let kind = req_weight_kind(t, "kind")?;
    let reference = req_text(t, "ref")?;
    let weight = req_int(t, "weight", i64::MIN, i64::MAX)?;
    Ok(WeightDto { kind, reference, weight })
}
/// Every document of a list is weight.
pub open spec fn weights_fit(items: Seq<Doc>) -> bool {
    forall|i: int| 0 <= i < items.len() ==> weight_fits(#[trigger] items[i])
}

/// A list's records, one per document, in order.
pub open spec fn weights_read(v: Seq<WeightDto>, items: Seq<Doc>) -> bool {
    &&& v.len() == items.len()
    &&& forall|i: int| 0 <= i < items.len() ==> weight_read(#[trigger] v[i], items[i])
}

/// Reads a list of records, refusing the first that does not fit.
pub fn decode_weights(items: &Vec<Doc>) -> (r: Result<Vec<WeightDto>, String>)
    ensures
        r is Ok <==> weights_fit(items@),
        r is Ok ==> weights_read(r->Ok_0@, items@),
{
    let mut out: Vec<WeightDto> = Vec::new();
    let mut i: usize = 0;
    while i < items.len()
        invariant
            i <= items@.len(),
            out@.len() == i,
            forall|j: int| 0 <= j < i ==> weight_fits(#[trigger] items@[j]),
            forall|j: int| 0 <= j < i ==> weight_read(#[trigger] out@[j], items@[j]),
        decreases items@.len() - i,
    {
        let x = decode_weight(&items[i])?;
        let ghost before = out@;
        out.push(x);
        proof {
            assert forall|j: int| 0 <= j < i + 1 implies weight_read(#[trigger] out@[j], items@[j]) by {
                if j < i {
                    assert(out@[j] == before[j]);
                }
            }
        }
        i = i + 1;
    }
    Ok(out)
}
/// A required list field of weights.
pub open spec fn has_weights(t: Seq<(String, Doc)>, key: Seq<char>) -> bool {
    opt_list(lookup(t, key)) matches Some(Some(items)) && weights_fit(items)
}

/// Reads a required list field of records.
fn req_weights(t: &Vec<(String, Doc)>, key: &str) -> (r: Result<Vec<WeightDto>, String>)
    ensures
        r is Ok <==> has_weights(t@, key@),
        r is Ok ==> weights_read(r->Ok_0@, opt_list(lookup(t@, key@))->0->0),
{
    let items = req_list(t, key)?;
    decode_weights(items)
}
/// A derived stat's definition as a file writes it.
#[derive(Debug)]
pub struct DerivedDto {
    /// The stat's id.
    pub id: String,
    /// Weighted inputs, in the order they are summed.
    pub weights: Vec<WeightDto>,
    /// The curve's id.
    pub curve: String,
    /// Flat offset after the curve, in micro-units.
    pub offset: Option<i64>,
    /// Lower clamp, in micro-units.
    pub floor: Option<i64>,
    /// Upper clamp, in micro-units.
    pub cap: Option<i64>,
}

/// Whether a document is a derived stat.
pub open spec fn derived_fits(d: Doc) -> bool {
    let t = d->Table_0@;
    &&& d is Table
    &&& keys_within(t, seq!["id"@, "weights"@, "curve"@, "offset"@, "floor"@, "cap"@])
    &&& has_text(t, "id"@)
    &&& has_weights(t, "weights"@)
    &&& has_text(t, "curve"@)
    &&& may_int(t, "offset"@, i64::MIN as int, i64::MAX as int)
    &&& may_int(t, "floor"@, i64::MIN as int, i64::MAX as int)
    &&& may_int(t, "cap"@, i64::MIN as int, i64::MAX as int)
}

/// DerivedDto's fields, as read from a fitting document.
pub open spec fn derived_read(x: DerivedDto, d: Doc) -> bool {
    let t = d->Table_0@;
    &&& x.id@ == text_at(t, "id"@)
    &&& weights_read(x.weights@, opt_list(lookup(t, "weights"@))->0->0)
    &&& x.curve@ == text_at(t, "curve"@)
    &&& opt_i64_view(x.offset) == opt_int_at(t, "offset"@, i64::MIN as int, i64::MAX as int)
    &&& opt_i64_view(x.floor) == opt_int_at(t, "floor"@, i64::MIN as int, i64::MAX as int)
    &&& opt_i64_view(x.cap) == opt_int_at(t, "cap"@, i64::MIN as int, i64::MAX as int)
}

/// Reads one derived stat's definition.
pub fn decode_derived(d: &Doc) -> (r: Result<DerivedDto, String>)
    ensures
        r is Ok <==> derived_fits(*d),
        r is Ok ==> derived_read(r->Ok_0, *d),
{
    let t = match d {
        Doc::Table(t) => t,
        _ => return Err(owned("a derived stat is an object")),
    };
    let keys: [&str; 6] = ["id", "weights", "curve", "offset", "floor", "cap"];
    proof {
        assert(strs(keys@) =~= seq!["id"@, "weights"@, "curve"@, "offset"@, "floor"@, "cap"@]);
    }
    only_keys(t, &keys)?;
    let id = req_text(t, "id")?;
    let weights = req_weights(t, "weights")?;
    let curve = req_text(t, "curve")?;
    let offset = may_int_field(t, "offset", i64::MIN, i64::MAX)?;
    let floor = may_int_field(t, "floor", i64::MIN, i64::MAX)?;
    let cap = may_int_field(t, "cap", i64::MIN, i64::MAX)?;
    Ok(DerivedDto { id, weights, curve, offset, floor, cap })
}
/// Every document of a list is derived.
pub open spec fn deriveds_fit(items: Seq<Doc>) -> bool {
    forall|i: int| 0 <= i < items.len() ==> derived_fits(#[trigger] items[i])
}

/// A list's records, one per document, in order.
pub open spec fn deriveds_read(v: Seq<DerivedDto>, items: Seq<Doc>) -> bool {
    &&& v.len() == items.len()
    &&& forall|i: int| 0 <= i < items.len() ==> derived_read(#[trigger] v[i], items[i])
}

/// Reads a list of records, refusing the first that does not fit.
pub fn decode_deriveds(items: &Vec<Doc>) -> (r: Result<Vec<DerivedDto>, String>)
    ensures
        r is Ok <==> deriveds_fit(items@),
        r is Ok ==> deriveds_read(r->Ok_0@, items@),
{
    let mut out: Vec<DerivedDto> = Vec::new();
    let mut i: usize = 0;
    while i < items.len()
        invariant
            i <= items@.len(),
            out@.len() == i,
            forall|j: int| 0 <= j < i ==> derived_fits(#[trigger] items@[j]),
            forall|j: int| 0 <= j < i ==> derived_read(#[trigger] out@[j], items@[j]),
        decreases items@.len() - i,
    {
        let x = decode_derived(&items[i])?;
        let ghost before = out@;
        out.push(x);
        proof {
            assert forall|j: int| 0 <= j < i + 1 implies derived_read(#[trigger] out@[j], items@[j]) by {
                if j < i {
                    assert(out@[j] == before[j]);
                }
            }
        }
        i = i + 1;
    }
    Ok(out)
}
/// A required list field of deriveds.
pub open spec fn has_deriveds(t: Seq<(String, Doc)>, key: Seq<char>) -> bool {
    opt_list(lookup(t, key)) matches Some(Some(items)) && deriveds_fit(items)
}

/// Reads a required list field of records.
fn req_deriveds(t: &Vec<(String, Doc)>, key: &str) -> (r: Result<Vec<DerivedDto>, String>)
    ensures
        r is Ok <==> has_deriveds(t@, key@),
        r is Ok ==> deriveds_read(r->Ok_0@, opt_list(lookup(t@, key@))->0->0),
{
    let items = req_list(t, key)?;
    decode_deriveds(items)
}
/// A class as a file writes it.
#[derive(Debug)]
pub struct ClassDto {
    /// The class's id.
    pub id: String,
    /// The id this class had in the previous version, if it was renamed.
    pub renamed_from: Option<String>,
    /// Display name.
    pub name: String,
    /// Base attributes.
    pub base_attributes: GradedPoints,
    /// Derived-stat definitions.
    pub derived: Vec<DerivedDto>,
}

/// Whether a document is a class.
pub open spec fn class_fits(d: Doc) -> bool {
    let t = d->Table_0@;
    &&& d is Table
    &&& keys_within(t, seq!["id"@, "renamed_from"@, "name"@, "base_attributes"@, "derived"@])
    &&& has_text(t, "id"@)
    &&& may_text(t, "renamed_from"@)
    &&& has_text(t, "name"@)
    &&& lookup(t, "base_attributes"@) matches Some(b) && graded_points_fits(b)
    &&& has_deriveds(t, "derived"@)
}

/// ClassDto's fields, as read from a fitting document.
pub open spec fn class_read(x: ClassDto, d: Doc) -> bool {
    let t = d->Table_0@;
    &&& x.id@ == text_at(t, "id"@)
    &&& opt_view(x.renamed_from) == opt_text_at(t, "renamed_from"@)
    &&& x.name@ == text_at(t, "name"@)
    &&& graded_points_read(x.base_attributes, lookup(t, "base_attributes"@)->0)
    &&& deriveds_read(x.derived@, opt_list(lookup(t, "derived"@))->0->0)
}

/// Reads one class.
pub fn decode_class(d: &Doc) -> (r: Result<ClassDto, String>)
    ensures
        r is Ok <==> class_fits(*d),
        r is Ok ==> class_read(r->Ok_0, *d),
{
    let t = match d {
        Doc::Table(t) => t,
        _ => return Err(owned("a class is an object")),
    };
    let keys: [&str; 5] = ["id", "renamed_from", "name", "base_attributes", "derived"];
    proof {
        assert(strs(keys@) =~= seq!["id"@, "renamed_from"@, "name"@, "base_attributes"@, "derived"@]);
    }
    only_keys(t, &keys)?;
    let id = req_text(t, "id")?;
    let renamed_from = may_text_field(t, "renamed_from")?;
    let name = req_text(t, "name")?;
    let base_attributes = req_graded_points(t, "base_attributes")?;
    let derived = req_deriveds(t, "derived")?;
    Ok(ClassDto { id, renamed_from, name, base_attributes, derived })
}
/// Every document of a list is class.
pub open spec fn classes_fit(items: Seq<Doc>) -> bool {
    forall|i: int| 0 <= i < items.len() ==> class_fits(#[trigger] items[i])
}

/// A list's records, one per document, in order.
pub open spec fn classes_read(v: Seq<ClassDto>, items: Seq<Doc>) -> bool {
    &&& v.len() == items.len()
    &&& forall|i: int| 0 <= i < items.len() ==> class_read(#[trigger] v[i], items[i])
}

/// Reads a list of records, refusing the first that does not fit.
pub fn decode_classes(items: &Vec<Doc>) -> (r: Result<Vec<ClassDto>, String>)
    ensures
        r is Ok <==> classes_fit(items@),
        r is Ok ==> classes_read(r->Ok_0@, items@),
{
    let mut out: Vec<ClassDto> = Vec::new();
    let mut i: usize = 0;
    while i < items.len()
        invariant
            i <= items@.len(),
            out@.len() == i,
            forall|j: int| 0 <= j < i ==> class_fits(#[trigger] items@[j]),
            forall|j: int| 0 <= j < i ==> class_read(#[trigger] out@[j], items@[j]),
        decreases items@.len() - i,
    {
        let x = decode_class(&items[i])?;
        let ghost before = out@;
        out.push(x);
        proof {
            assert forall|j: int| 0 <= j < i + 1 implies class_read(#[trigger] out@[j], items@[j]) by {
                if j < i {
                    assert(out@[j] == before[j]);
                }
            }
        }
        i = i + 1;
    }
    Ok(out)
}
/// A required list field of classes.
pub open spec fn has_classes(t: Seq<(String, Doc)>, key: Seq<char>) -> bool {
    opt_list(lookup(t, key)) matches Some(Some(items)) && classes_fit(items)
}

/// Reads a required list field of records.
fn req_classes(t: &Vec<(String, Doc)>, key: &str) -> (r: Result<Vec<ClassDto>, String>)
    ensures
        r is Ok <==> has_classes(t@, key@),
        r is Ok ==> classes_read(r->Ok_0@, opt_list(lookup(t@, key@))->0->0),
{
    let items = req_list(t, key)?;
    decode_classes(items)
}
/// One swing of a weapon's chain as a file writes it.
#[derive(Debug)]
pub struct ComboDto {
    /// The blow's kind: `slash`, `pierce` or `blunt`.
    pub kind: String,
    /// The swing's scaling in percentage points.
    pub scaling: GradedMicro,
}

/// Whether a document is a swing.
pub open spec fn combo_fits(d: Doc) -> bool {
    let t = d->Table_0@;
    &&& d is Table
    &&& keys_within(t, seq!["kind"@, "scaling"@])
    &&& has_text(t, "kind"@)
    &&& lookup(t, "scaling"@) matches Some(s) && graded_micro_fits(s)
}

/// ComboDto's fields, as read from a fitting document.
pub open spec fn combo_read(x: ComboDto, d: Doc) -> bool {
    let t = d->Table_0@;
    &&& x.kind@ == text_at(t, "kind"@)
    &&& graded_micro_read(x.scaling, lookup(t, "scaling"@)->0)
}

/// Reads one swing.
pub fn decode_combo(d: &Doc) -> (r: Result<ComboDto, String>)
    ensures
        r is Ok <==> combo_fits(*d),
        r is Ok ==> combo_read(r->Ok_0, *d),
{
    let t = match d {
        Doc::Table(t) => t,
        _ => return Err(owned("a swing is an object")),
    };
    let keys: [&str; 2] = ["kind", "scaling"];
    proof {
        assert(strs(keys@) =~= seq!["kind"@, "scaling"@]);
    }
    only_keys(t, &keys)?;
    let kind = req_text(t, "kind")?;
    let scaling = req_graded_micro(t, "scaling")?;
    Ok(ComboDto { kind, scaling })
}
/// Every document of a list is combo.
pub open spec fn combos_fit(items: Seq<Doc>) -> bool {
    forall|i: int| 0 <= i < items.len() ==> combo_fits(#[trigger] items[i])
}

/// A list's records, one per document, in order.
pub open spec fn combos_read(v: Seq<ComboDto>, items: Seq<Doc>) -> bool {
    &&& v.len() == items.len()
    &&& forall|i: int| 0 <= i < items.len() ==> combo_read(#[trigger] v[i], items[i])
}

/// Reads a list of records, refusing the first that does not fit.
pub fn decode_combos(items: &Vec<Doc>) -> (r: Result<Vec<ComboDto>, String>)
    ensures
        r is Ok <==> combos_fit(items@),
        r is Ok ==> combos_read(r->Ok_0@, items@),
{
    let mut out: Vec<ComboDto> = Vec::new();
    let mut i: usize = 0;
    while i < items.len()
        invariant
            i <= items@.len(),
            out@.len() == i,
            forall|j: int| 0 <= j < i ==> combo_fits(#[trigger] items@[j]),
            forall|j: int| 0 <= j < i ==> combo_read(#[trigger] out@[j], items@[j]),
        decreases items@.len() - i,
    {
        let x = decode_combo(&items[i])?;
        let ghost before = out@;
        out.push(x);
        proof {
            assert forall|j: int| 0 <= j < i + 1 implies combo_read(#[trigger] out@[j], items@[j]) by {
                if j < i {
                    assert(out@[j] == before[j]);
                }
            }
        }
        i = i + 1;
    }
    Ok(out)
}
/// An optional list field of combos, absent meaning none.
pub open spec fn may_combos(t: Seq<(String, Doc)>, key: Seq<char>) -> bool {
    opt_list(lookup(t, key)) is Some && combos_fit(items_or_empty(lookup(t, key)))
}

/// Reads an optional list field of records; absent is the empty list.
fn may_combos_field(t: &Vec<(String, Doc)>, key: &str) -> (r: Result<Vec<ComboDto>, String>)
    ensures
        r is Ok <==> may_combos(t@, key@),
        r is Ok ==> combos_read(r->Ok_0@, items_or_empty(lookup(t@, key@))),
{
    match list_or_none(t, key)? {
        Some(items) => decode_combos(items),
        None => {
            proof {
                assert(items_or_empty(lookup(t@, key@)) =~= Seq::<Doc>::empty());
            }
            Ok(Vec::new())
        },
    }
}
/// A weapon as a file writes it.
#[derive(Debug)]
pub struct WeaponDto {
    /// Base weapon damage.
    pub base_damage: GradedMicro,
    /// Armor penetration in percentage points.
    pub armor_pen: GradedMicro,
    /// The chain of swings, in order.
    pub combo: Vec<ComboDto>,
    /// Seconds between swings, when measured.
    pub swing_time: Option<GradedMicro>,
}

/// Whether a document is a weapon.
pub open spec fn weapon_fits(d: Doc) -> bool {
    let t = d->Table_0@;
    &&& d is Table
    &&& keys_within(t, seq!["base_damage"@, "armor_pen"@, "combo"@, "swing_time"@])
    &&& lookup(t, "base_damage"@) matches Some(b) && graded_micro_fits(b)
    &&& lookup(t, "armor_pen"@) matches Some(p) && graded_micro_fits(p)
    &&& may_combos(t, "combo"@)
    &&& may_graded_micro(lookup(t, "swing_time"@))
}

/// WeaponDto's fields, as read from a fitting document.
pub open spec fn weapon_read(x: WeaponDto, d: Doc) -> bool {
    let t = d->Table_0@;
    &&& graded_micro_read(x.base_damage, lookup(t, "base_damage"@)->0)
    &&& graded_micro_read(x.armor_pen, lookup(t, "armor_pen"@)->0)
    &&& combos_read(x.combo@, items_or_empty(lookup(t, "combo"@)))
    &&& opt_graded_micro_read(x.swing_time, lookup(t, "swing_time"@))
}

/// Reads a weapon.
pub fn decode_weapon(d: &Doc) -> (r: Result<WeaponDto, String>)
    ensures
        r is Ok <==> weapon_fits(*d),
        r is Ok ==> weapon_read(r->Ok_0, *d),
{
    let t = match d {
        Doc::Table(t) => t,
        _ => return Err(owned("a weapon is an object")),
    };
    let keys: [&str; 4] = ["base_damage", "armor_pen", "combo", "swing_time"];
    proof {
        assert(strs(keys@) =~= seq!["base_damage"@, "armor_pen"@, "combo"@, "swing_time"@]);
    }
    only_keys(t, &keys)?;
    let base_damage = req_graded_micro(t, "base_damage")?;
    let armor_pen = req_graded_micro(t, "armor_pen")?;
    let combo = may_combos_field(t, "combo")?;
    let swing_time = may_graded_micro_field(t, "swing_time")?;
    Ok(WeaponDto { base_damage, armor_pen, combo, swing_time })
}
/// An optional field holds weapon, or nothing.
pub open spec fn may_weapon(d: Option<Doc>) -> bool {
    match d {
        None => true,
        Some(Doc::Null) => true,
        Some(x) => weapon_fits(x),
    }
}

/// An optional record, as read from an optional field.
pub open spec fn opt_weapon_read(x: Option<WeaponDto>, d: Option<Doc>) -> bool {
    match d {
        None => x is None,
        Some(Doc::Null) => x is None,
        Some(y) => x is Some && weapon_read(x->0, y),
    }
}

/// Reads an optional record field.
fn may_weapon_field(t: &Vec<(String, Doc)>, key: &str) -> (r: Result<Option<WeaponDto>, String>)
    ensures
        r is Ok <==> may_weapon(lookup(t@, key@)),
        r is Ok ==> opt_weapon_read(r->Ok_0, lookup(t@, key@)),
{
    match get(t, key) {
        None => Ok(None),
        Some(Doc::Null) => Ok(None),
        Some(x) => {
            let v = decode_weapon(x)?;
            Ok(Some(v))
        },
    }
}
/// Every value of a table is a graded value.
pub open spec fn grants_fit(t: Seq<(String, Doc)>) -> bool {
    forall|i: int| 0 <= i < t.len() ==> graded_micro_fits((#[trigger] t[i]).1)
}

/// A table's graded values, by key, in order.
pub open spec fn grants_read(v: Seq<(String, GradedMicro)>, t: Seq<(String, Doc)>) -> bool {
    &&& v.len() == t.len()
    &&& forall|i: int| 0 <= i < t.len() ==> (#[trigger] v[i]).0@ == t[i].0@ && graded_micro_read(v[i].1, t[i].1)
}

/// An optional table of graded values.
pub open spec fn may_grants(d: Option<Doc>) -> bool {
    match opt_table(d) {
        None => false,
        Some(None) => true,
        Some(Some(t)) => grants_fit(t),
    }
}

/// The entries of an optional table of graded values.
pub open spec fn grants_of(v: Seq<(String, GradedMicro)>, d: Option<Doc>) -> bool {
    match opt_table(d) {
        Some(Some(t)) => grants_read(v, t),
        _ => v.len() == 0,
    }
}

/// Reads an optional table of graded values.
fn may_grants_field(t: &Vec<(String, Doc)>, key: &str) -> (r: Result<Vec<(String, GradedMicro)>, String>)
    ensures
        r is Ok <==> may_grants(lookup(t@, key@)),
        r is Ok ==> grants_of(r->Ok_0@, lookup(t@, key@)),
{
    let g = match table_field(t, key) {
        None => return Err(field_error(key)),
        Some(None) => return Ok(Vec::new()),
        Some(Some(g)) => g,
    };
    let mut out: Vec<(String, GradedMicro)> = Vec::new();
    let mut i: usize = 0;
    while i < g.len()
        invariant
            i <= g@.len(),
            out@.len() == i,
            opt_table(lookup(t@, key@)) == Some(Some(g@)),
            forall|j: int| 0 <= j < i ==> graded_micro_fits((#[trigger] g@[j]).1),
            forall|j: int| 0 <= j < i ==> (#[trigger] out@[j]).0@ == g@[j].0@ && graded_micro_read(out@[j].1, g@[j].1),
        decreases g@.len() - i,
    {
        let v = decode_graded_micro(&g[i].1)?;
        let ghost before = out@;
        out.push((owned(g[i].0.as_str()), v));
        proof {
            assert forall|j: int| 0 <= j < i + 1 implies (#[trigger] out@[j]).0@ == g@[j].0@ && graded_micro_read(out@[j].1, g@[j].1) by {
                if j < i {
                    assert(out@[j] == before[j]);
                }
            }
        }
        i = i + 1;
    }
    Ok(out)
}

/// An item as a file writes it.
#[derive(Debug)]
pub struct ItemDto {
    /// The item's id.
    pub id: String,
    /// The id this item had in the previous version, if it was renamed.
    pub renamed_from: Option<String>,
    /// Display name.
    pub name: String,
    /// The rarity of the copy transcribed, by name.
    pub rarity: Option<String>,
    /// Classes allowed to equip it; empty means anyone.
    pub required_classes: Vec<String>,
    /// Where it is worn, by name.
    pub slot: Option<String>,
    /// Attributes printed on the item.
    pub attributes: Option<GradedPoints>,
    /// Derived stats printed on the item, by stat id.
    pub grants: Vec<(String, GradedMicro)>,
    /// Flat move speed.
    pub move_speed_add: Option<GradedMicro>,
    /// Present when the item is a weapon.
    pub weapon: Option<WeaponDto>,
}

/// Whether a document is an item.
pub open spec fn item_fits(d: Doc) -> bool {
    let t = d->Table_0@;
    &&& d is Table
    &&& keys_within(t, seq!["id"@, "renamed_from"@, "name"@, "rarity"@, "required_classes"@, "slot"@, "attributes"@, "grants"@, "move_speed_add"@, "weapon"@])
    &&& has_text(t, "id"@)
    &&& may_text(t, "renamed_from"@)
    &&& has_text(t, "name"@)
    &&& may_text(t, "rarity"@)
    &&& opt_text_list(lookup(t, "required_classes"@)) is Some
    &&& may_text(t, "slot"@)
    &&& may_graded_points(lookup(t, "attributes"@))
    &&& may_grants(lookup(t, "grants"@))
    &&& may_graded_micro(lookup(t, "move_speed_add"@))
    &&& may_weapon(lookup(t, "weapon"@))
}

/// ItemDto's fields, as read from a fitting document.
pub open spec fn item_read(x: ItemDto, d: Doc) -> bool {
    let t = d->Table_0@;
    &&& x.id@ == text_at(t, "id"@)
    &&& opt_view(x.renamed_from) == opt_text_at(t, "renamed_from"@)
    &&& x.name@ == text_at(t, "name"@)
    &&& opt_view(x.rarity) == opt_text_at(t, "rarity"@)
    &&& string_views(x.required_classes@) == opt_text_list(lookup(t, "required_classes"@))->0
    &&& opt_view(x.slot) == opt_text_at(t, "slot"@)
    &&& opt_graded_points_read(x.attributes, lookup(t, "attributes"@))
    &&& grants_of(x.grants@, lookup(t, "grants"@))
    &&& opt_graded_micro_read(x.move_speed_add, lookup(t, "move_speed_add"@))
    &&& opt_weapon_read(x.weapon, lookup(t, "weapon"@))
}

/// Reads one item.
pub fn decode_item(d: &Doc) -> (r: Result<ItemDto, String>)
    ensures
        r is Ok <==> item_fits(*d),
        r is Ok ==> item_read(r->Ok_0, *d),
{
    let t = match d {
        Doc::Table(t) => t,
        _ => return Err(owned("an item is an object")),
    };
    let keys: [&str; 10] = ["id", "renamed_from", "name", "rarity", "required_classes", "slot", "attributes", "grants", "move_speed_add", "weapon"];
    proof {
        assert(strs(keys@) =~= seq!["id"@, "renamed_from"@, "name"@, "rarity"@, "required_classes"@, "slot"@, "attributes"@, "grants"@, "move_speed_add"@, "weapon"@]);
    }
    only_keys(t, &keys)?;
    let id = req_text(t, "id")?;
    let renamed_from = may_text_field(t, "renamed_from")?;
    let name = req_text(t, "name")?;
    let rarity = may_text_field(t, "rarity")?;
    let required_classes = may_text_list(t, "required_classes")?;
    let slot = may_text_field(t, "slot")?;
    let attributes = may_graded_points_field(t, "attributes")?;
    let grants = may_grants_field(t, "grants")?;
    let move_speed_add = may_graded_micro_field(t, "move_speed_add")?;
    let weapon = may_weapon_field(t, "weapon")?;
    Ok(ItemDto { id, renamed_from, name, rarity, required_classes, slot, attributes, grants, move_speed_add, weapon })
}
/// Every document of a list is item.
pub open spec fn items_fit(items: Seq<Doc>) -> bool {
    forall|i: int| 0 <= i < items.len() ==> item_fits(#[trigger] items[i])
}

/// A list's records, one per document, in order.
pub open spec fn items_read(v: Seq<ItemDto>, items: Seq<Doc>) -> bool {
    &&& v.len() == items.len()
    &&& forall|i: int| 0 <= i < items.len() ==> item_read(#[trigger] v[i], items[i])
}

/// Reads a list of records, refusing the first that does not fit.
pub fn decode_items(items: &Vec<Doc>) -> (r: Result<Vec<ItemDto>, String>)
    ensures
        r is Ok <==> items_fit(items@),
        r is Ok ==> items_read(r->Ok_0@, items@),
{
    let mut out: Vec<ItemDto> = Vec::new();
    let mut i: usize = 0;
    while i < items.len()
        invariant
            i <= items@.len(),
            out@.len() == i,
            forall|j: int| 0 <= j < i ==> item_fits(#[trigger] items@[j]),
            forall|j: int| 0 <= j < i ==> item_read(#[trigger] out@[j], items@[j]),
        decreases items@.len() - i,
    {
        let x = decode_item(&items[i])?;
        let ghost before = out@;
        out.push(x);
        proof {
            assert forall|j: int| 0 <= j < i + 1 implies item_read(#[trigger] out@[j], items@[j]) by {
                if j < i {
                    assert(out@[j] == before[j]);
                }
            }
        }
        i = i + 1;
    }
    Ok(out)
}
/// A required list field of items.
pub open spec fn has_items(t: Seq<(String, Doc)>, key: Seq<char>) -> bool {
    opt_list(lookup(t, key)) matches Some(Some(items)) && items_fit(items)
}

/// Reads a required list field of records.
fn req_items(t: &Vec<(String, Doc)>, key: &str) -> (r: Result<Vec<ItemDto>, String>)
    ensures
        r is Ok <==> has_items(t@, key@),
        r is Ok ==> items_read(r->Ok_0@, opt_list(lookup(t@, key@))->0->0),
{
    let items = req_list(t, key)?;
    decode_items(items)
}
/// An effect as a file writes it.
#[derive(Debug)]
pub struct EffectDto {
    /// The grade.
    pub confidence: ConfidenceDto,
    /// What the effect does.
    pub kind: EffectKind,
    /// Whole points, for attribute effects.
    pub points: Option<i32>,
    /// A magnitude in micro-units, for the others.
    pub micro: Option<i64>,
    /// The attribute's name, for a single-attribute effect.
    pub attribute: Option<String>,
    /// The derived stat's id, for a cap raise or a bonus.
    pub target: Option<String>,
    /// Why, when the grade is `unknown`.
    pub note: Option<String>,
    /// The most stacks the effect reaches, when it stacks.
    pub max_stacks: Option<u32>,
    /// The kind of blow the effect waits for, when it is gated.
    pub when: Option<String>,
}

/// Whether a document is an effect.
pub open spec fn effect_fits(d: Doc) -> bool {
    let t = d->Table_0@;
    &&& d is Table
    &&& keys_within(t, seq!["confidence"@, "kind"@, "points"@, "micro"@, "attribute"@, "target"@, "note"@, "max_stacks"@, "when"@])
    &&& grade_of(lookup(t, "confidence"@)) is Some
    &&& effect_kind_of(lookup(t, "kind"@)) is Some
    &&& may_int(t, "points"@, i32::MIN as int, i32::MAX as int)
    &&& may_int(t, "micro"@, i64::MIN as int, i64::MAX as int)
    &&& may_text(t, "attribute"@)
    &&& may_text(t, "target"@)
    &&& may_text(t, "note"@)
    &&& may_int(t, "max_stacks"@, 0, u32::MAX as int)
    &&& may_text(t, "when"@)
}

/// EffectDto's fields, as read from a fitting document.
pub open spec fn effect_read(x: EffectDto, d: Doc) -> bool {
    let t = d->Table_0@;
    &&& Some(x.confidence) == grade_of(lookup(t, "confidence"@))
    &&& Some(x.kind) == effect_kind_of(lookup(t, "kind"@))
    &&& opt_i32_view(x.points) == opt_int_at(t, "points"@, i32::MIN as int, i32::MAX as int)
    &&& opt_i64_view(x.micro) == opt_int_at(t, "micro"@, i64::MIN as int, i64::MAX as int)
    &&& opt_view(x.attribute) == opt_text_at(t, "attribute"@)
    &&& opt_view(x.target) == opt_text_at(t, "target"@)
    &&& opt_view(x.note) == opt_text_at(t, "note"@)
    &&& opt_u32_view(x.max_stacks) == opt_int_at(t, "max_stacks"@, 0, u32::MAX as int)
    &&& opt_view(x.when) == opt_text_at(t, "when"@)
}

/// Reads one effect.
pub fn decode_effect(d: &Doc) -> (r: Result<EffectDto, String>)
    ensures
        r is Ok <==> effect_fits(*d),
        r is Ok ==> effect_read(r->Ok_0, *d),
{
    let t = match d {
        Doc::Table(t) => t,
        _ => return Err(owned("an effect is an object")),
    };
    let keys: [&str; 9] = ["confidence", "kind", "points", "micro", "attribute", "target", "note", "max_stacks", "when"];
    proof {
        assert(strs(keys@) =~= seq!["confidence"@, "kind"@, "points"@, "micro"@, "attribute"@, "target"@, "note"@, "max_stacks"@, "when"@]);
    }
    only_keys(t, &keys)?;
    let confidence = req_grade(t, "confidence")?;
    let kind = req_effect_kind(t, "kind")?;
    let points = match may_int_field(t, "points", i32::MIN as i64, i32::MAX as i64)? {
        Some(v) => Some(v as i32),
        None => None,
    };
    let micro = may_int_field(t, "micro", i64::MIN, i64::MAX)?;
    let attribute = may_text_field(t, "attribute")?;
    let target = may_text_field(t, "target")?;
    let note = may_text_field(t, "note")?;
    let max_stacks = match may_int_field(t, "max_stacks", 0, u32::MAX as i64)? {
        Some(v) => Some(v as u32),
        None => None,
    };
    let when = may_text_field(t, "when")?;
    Ok(EffectDto { confidence, kind, points, micro, attribute, target, note, max_stacks, when })
}
/// Every document of a list is effect.
pub open spec fn effects_fit(items: Seq<Doc>) -> bool {
    forall|i: int| 0 <= i < items.len() ==> effect_fits(#[trigger] items[i])
}

/// A list's records, one per document, in order.
pub open spec fn effects_read(v: Seq<EffectDto>, items: Seq<Doc>) -> bool {
    &&& v.len() == items.len()
    &&& forall|i: int| 0 <= i < items.len() ==> effect_read(#[trigger] v[i], items[i])
}

/// Reads a list of records, refusing the first that does not fit.
pub fn decode_effects(items: &Vec<Doc>) -> (r: Result<Vec<EffectDto>, String>)
    ensures
        r is Ok <==> effects_fit(items@),
        r is Ok ==> effects_read(r->Ok_0@, items@),
{
    let mut out: Vec<EffectDto> = Vec::new();
    let mut i: usize = 0;
    while i < items.len()
        invariant
            i <= items@.len(),
            out@.len() == i,
            forall|j: int| 0 <= j < i ==> effect_fits(#[trigger] items@[j]),
            forall|j: int| 0 <= j < i ==> effect_read(#[trigger] out@[j], items@[j]),
        decreases items@.len() - i,
    {
        let x = decode_effect(&items[i])?;
        let ghost before = out@;
        out.push(x);
        proof {
            assert forall|j: int| 0 <= j < i + 1 implies effect_read(#[trigger] out@[j], items@[j]) by {
                if j < i {
                    assert(out@[j] == before[j]);
                }
            }
        }
        i = i + 1;
    }
    Ok(out)
}
/// A required list field of effects.
pub open spec fn has_effects(t: Seq<(String, Doc)>, key: Seq<char>) -> bool {
    opt_list(lookup(t, key)) matches Some(Some(items)) && effects_fit(items)
}

/// Reads a required list field of records.
fn req_effects(t: &Vec<(String, Doc)>, key: &str) -> (r: Result<Vec<EffectDto>, String>)
    ensures
        r is Ok <==> has_effects(t@, key@),
        r is Ok ==> effects_read(r->Ok_0@, opt_list(lookup(t@, key@))->0->0),
{
    let items = req_list(t, key)?;
    decode_effects(items)
}
/// A perk as a file writes it.
#[derive(Debug)]
pub struct PerkDto {
    /// The perk's id.
    pub id: String,
    /// The id this perk had in the previous version, if it was renamed.
    pub renamed_from: Option<String>,
    /// Display name.
    pub name: String,
    /// Classes that may slot it; empty means anyone.
    pub required_classes: Vec<String>,
    /// Effects while slotted.
    pub effects: Vec<EffectDto>,
}

/// Whether a document is a perk.
pub open spec fn perk_fits(d: Doc) -> bool {
    let t = d->Table_0@;
    &&& d is Table
    &&& keys_within(t, seq!["id"@, "renamed_from"@, "name"@, "required_classes"@, "effects"@])
    &&& has_text(t, "id"@)
    &&& may_text(t, "renamed_from"@)
    &&& has_text(t, "name"@)
    &&& opt_text_list(lookup(t, "required_classes"@)) is Some
    &&& has_effects(t, "effects"@)
}

/// PerkDto's fields, as read from a fitting document.
pub open spec fn perk_read(x: PerkDto, d: Doc) -> bool {
    let t = d->Table_0@;
    &&& x.id@ == text_at(t, "id"@)
    &&& opt_view(x.renamed_from) == opt_text_at(t, "renamed_from"@)
    &&& x.name@ == text_at(t, "name"@)
    &&& string_views(x.required_classes@) == opt_text_list(lookup(t, "required_classes"@))->0
    &&& effects_read(x.effects@, opt_list(lookup(t, "effects"@))->0->0)
}

/// Reads one perk.
pub fn decode_perk(d: &Doc) -> (r: Result<PerkDto, String>)
    ensures
        r is Ok <==> perk_fits(*d),
        r is Ok ==> perk_read(r->Ok_0, *d),
{
    let t = match d {
        Doc::Table(t) => t,
        _ => return Err(owned("a perk is an object")),
    };
    let keys: [&str; 5] = ["id", "renamed_from", "name", "required_classes", "effects"];
    proof {
        assert(strs(keys@) =~= seq!["id"@, "renamed_from"@, "name"@, "required_classes"@, "effects"@]);
    }
    only_keys(t, &keys)?;
    let id = req_text(t, "id")?;
    let renamed_from = may_text_field(t, "renamed_from")?;
    let name = req_text(t, "name")?;
    let required_classes = may_text_list(t, "required_classes")?;
    let effects = req_effects(t, "effects")?;
    Ok(PerkDto { id, renamed_from, name, required_classes, effects })
}
/// Every document of a list is perk.
pub open spec fn perks_fit(items: Seq<Doc>) -> bool {
    forall|i: int| 0 <= i < items.len() ==> perk_fits(#[trigger] items[i])
}

/// A list's records, one per document, in order.
pub open spec fn perks_read(v: Seq<PerkDto>, items: Seq<Doc>) -> bool {
    &&& v.len() == items.len()
    &&& forall|i: int| 0 <= i < items.len() ==> perk_read(#[trigger] v[i], items[i])
}

/// Reads a list of records, refusing the first that does not fit.
pub fn decode_perks(items: &Vec<Doc>) -> (r: Result<Vec<PerkDto>, String>)
    ensures
        r is Ok <==> perks_fit(items@),
        r is Ok ==> perks_read(r->Ok_0@, items@),
{
    let mut out: Vec<PerkDto> = Vec::new();
    let mut i: usize = 0;
    while i < items.len()
        invariant
            i <= items@.len(),
            out@.len() == i,
            forall|j: int| 0 <= j < i ==> perk_fits(#[trigger] items@[j]),
            forall|j: int| 0 <= j < i ==> perk_read(#[trigger] out@[j], items@[j]),
        decreases items@.len() - i,
    {
        let x = decode_perk(&items[i])?;
        let ghost before = out@;
        out.push(x);
        proof {
            assert forall|j: int| 0 <= j < i + 1 implies perk_read(#[trigger] out@[j], items@[j]) by {
                if j < i {
                    assert(out@[j] == before[j]);
                }
            }
        }
        i = i + 1;
    }
    Ok(out)
}
/// A required list field of perks.
pub open spec fn has_perks(t: Seq<(String, Doc)>, key: Seq<char>) -> bool {
    opt_list(lookup(t, key)) matches Some(Some(items)) && perks_fit(items)
}

/// Reads a required list field of records.
fn req_perks(t: &Vec<(String, Doc)>, key: &str) -> (r: Result<Vec<PerkDto>, String>)
    ensures
        r is Ok <==> has_perks(t@, key@),
        r is Ok ==> perks_read(r->Ok_0@, opt_list(lookup(t@, key@))->0->0),
{
    let items = req_list(t, key)?;
    decode_perks(items)
}
/// How a skill attacks, as a file writes it.
#[derive(Debug)]
pub struct StrikeDto {
    /// `physical` or `magic` (`type`).
    pub damage_type: Option<String>,
    /// Base damage of its own.
    pub base: Option<GradedMicro>,
    /// Scaling in percentage points.
    pub scaling: Option<GradedMicro>,
    /// Flat weapon damage.
    pub flat_bonus: Option<GradedMicro>,
    /// Penetration of its own.
    pub penetration: Option<GradedMicro>,
    /// True damage.
    pub true_damage: Option<GradedMicro>,
}

/// Whether a document is a strike.
pub open spec fn strike_fits(d: Doc) -> bool {
    let t = d->Table_0@;
    &&& d is Table
    &&& keys_within(t, seq!["type"@, "base"@, "scaling"@, "flat_bonus"@, "penetration"@, "true_damage"@])
    &&& may_text(t, "type"@)
    &&& may_graded_micro(lookup(t, "base"@))
    &&& may_graded_micro(lookup(t, "scaling"@))
    &&& may_graded_micro(lookup(t, "flat_bonus"@))
    &&& may_graded_micro(lookup(t, "penetration"@))
    &&& may_graded_micro(lookup(t, "true_damage"@))
}

/// StrikeDto's fields, as read from a fitting document.
pub open spec fn strike_read(x: StrikeDto, d: Doc) -> bool {
    let t = d->Table_0@;
    &&& opt_view(x.damage_type) == opt_text_at(t, "type"@)
    &&& opt_graded_micro_read(x.base, lookup(t, "base"@))
    &&& opt_graded_micro_read(x.scaling, lookup(t, "scaling"@))
    &&& opt_graded_micro_read(x.flat_bonus, lookup(t, "flat_bonus"@))
    &&& opt_graded_micro_read(x.penetration, lookup(t, "penetration"@))
    &&& opt_graded_micro_read(x.true_damage, lookup(t, "true_damage"@))
}

/// Reads how a skill attacks.
pub fn decode_strike(d: &Doc) -> (r: Result<StrikeDto, String>)
    ensures
        r is Ok <==> strike_fits(*d),
        r is Ok ==> strike_read(r->Ok_0, *d),
{
    let t = match d {
        Doc::Table(t) => t,
        _ => return Err(owned("a strike is an object")),
    };
    let keys: [&str; 6] = ["type", "base", "scaling", "flat_bonus", "penetration", "true_damage"];
    proof {
        assert(strs(keys@) =~= seq!["type"@, "base"@, "scaling"@, "flat_bonus"@, "penetration"@, "true_damage"@]);
    }
    only_keys(t, &keys)?;
    let damage_type = may_text_field(t, "type")?;
    let base = may_graded_micro_field(t, "base")?;
    let scaling = may_graded_micro_field(t, "scaling")?;
    let flat_bonus = may_graded_micro_field(t, "flat_bonus")?;
    let penetration = may_graded_micro_field(t, "penetration")?;
    let true_damage = may_graded_micro_field(t, "true_damage")?;
    Ok(StrikeDto { damage_type, base, scaling, flat_bonus, penetration, true_damage })
}
/// An optional field holds strike, or nothing.
pub open spec fn may_strike(d: Option<Doc>) -> bool {
    match d {
        None => true,
        Some(Doc::Null) => true,
        Some(x) => strike_fits(x),
    }
}

/// An optional record, as read from an optional field.
pub open spec fn opt_strike_read(x: Option<StrikeDto>, d: Option<Doc>) -> bool {
    match d {
        None => x is None,
        Some(Doc::Null) => x is None,
        Some(y) => x is Some && strike_read(x->0, y),
    }
}

/// Reads an optional record field.
fn may_strike_field(t: &Vec<(String, Doc)>, key: &str) -> (r: Result<Option<StrikeDto>, String>)
    ensures
        r is Ok <==> may_strike(lookup(t@, key@)),
        r is Ok ==> opt_strike_read(r->Ok_0, lookup(t@, key@)),
{
    match get(t, key) {
        None => Ok(None),
        Some(Doc::Null) => Ok(None),
        Some(x) => {
            let v = decode_strike(x)?;
            Ok(Some(v))
        },
    }
}
/// A skill as a file writes it.
#[derive(Debug)]
pub struct SkillDto {
    /// The skill's id.
    pub id: String,
    /// The id this skill had in the previous version, if it was renamed.
    pub renamed_from: Option<String>,
    /// Display name.
    pub name: String,
    /// Classes that may slot it; empty means anyone.
    pub required_classes: Vec<String>,
    /// Stat effects while active.
    pub effects: Vec<EffectDto>,
    /// How it attacks, if it does.
    pub strike: Option<StrikeDto>,
}

/// Whether a document is a skill.
pub open spec fn skill_fits(d: Doc) -> bool {
    let t = d->Table_0@;
    &&& d is Table
    &&& keys_within(t, seq!["id"@, "renamed_from"@, "name"@, "required_classes"@, "effects"@, "strike"@])
    &&& has_text(t, "id"@)
    &&& may_text(t, "renamed_from"@)
    &&& has_text(t, "name"@)
    &&& opt_text_list(lookup(t, "required_classes"@)) is Some
    &&& has_effects(t, "effects"@)
    &&& may_strike(lookup(t, "strike"@))
}

/// SkillDto's fields, as read from a fitting document.
pub open spec fn skill_read(x: SkillDto, d: Doc) -> bool {
    let t = d->Table_0@;
    &&& x.id@ == text_at(t, "id"@)
    &&& opt_view(x.renamed_from) == opt_text_at(t, "renamed_from"@)
    &&& x.name@ == text_at(t, "name"@)
    &&& string_views(x.required_classes@) == opt_text_list(lookup(t, "required_classes"@))->0
    &&& effects_read(x.effects@, opt_list(lookup(t, "effects"@))->0->0)
    &&& opt_strike_read(x.strike, lookup(t, "strike"@))
}

/// Reads one skill.
pub fn decode_skill(d: &Doc) -> (r: Result<SkillDto, String>)
    ensures
        r is Ok <==> skill_fits(*d),
        r is Ok ==> skill_read(r->Ok_0, *d),
{
    let t = match d {
        Doc::Table(t) => t,
        _ => return Err(owned("a skill is an object")),
    };
    let keys: [&str; 6] = ["id", "renamed_from", "name", "required_classes", "effects", "strike"];
    proof {
        assert(strs(keys@) =~= seq!["id"@, "renamed_from"@, "name"@, "required_classes"@, "effects"@, "strike"@]);
    }
    only_keys(t, &keys)?;
    let id = req_text(t, "id")?;
    let renamed_from = may_text_field(t, "renamed_from")?;
    let name = req_text(t, "name")?;
    let required_classes = may_text_list(t, "required_classes")?;
    let effects = req_effects(t, "effects")?;
    let strike = may_strike_field(t, "strike")?;
    Ok(SkillDto { id, renamed_from, name, required_classes, effects, strike })
}
/// Every document of a list is skill.
pub open spec fn skills_fit(items: Seq<Doc>) -> bool {
    forall|i: int| 0 <= i < items.len() ==> skill_fits(#[trigger] items[i])
}

/// A list's records, one per document, in order.
pub open spec fn skills_read(v: Seq<SkillDto>, items: Seq<Doc>) -> bool {
    &&& v.len() == items.len()
    &&& forall|i: int| 0 <= i < items.len() ==> skill_read(#[trigger] v[i], items[i])
}

/// Reads a list of records, refusing the first that does not fit.
pub fn decode_skills(items: &Vec<Doc>) -> (r: Result<Vec<SkillDto>, String>)
    ensures
        r is Ok <==> skills_fit(items@),
        r is Ok ==> skills_read(r->Ok_0@, items@),
{
    let mut out: Vec<SkillDto> = Vec::new();
    let mut i: usize = 0;
    while i < items.len()
        invariant
            i <= items@.len(),
            out@.len() == i,
            forall|j: int| 0 <= j < i ==> skill_fits(#[trigger] items@[j]),
            forall|j: int| 0 <= j < i ==> skill_read(#[trigger] out@[j], items@[j]),
        decreases items@.len() - i,
    {
        let x = decode_skill(&items[i])?;
        let ghost before = out@;
        out.push(x);
        proof {
            assert forall|j: int| 0 <= j < i + 1 implies skill_read(#[trigger] out@[j], items@[j]) by {
                if j < i {
                    assert(out@[j] == before[j]);
                }
            }
        }
        i = i + 1;
    }
    Ok(out)
}
/// A required list field of skills.
pub open spec fn has_skills(t: Seq<(String, Doc)>, key: Seq<char>) -> bool {
    opt_list(lookup(t, key)) matches Some(Some(items)) && skills_fit(items)
}

/// Reads a required list field of records.
fn req_skills(t: &Vec<(String, Doc)>, key: &str) -> (r: Result<Vec<SkillDto>, String>)
    ensures
        r is Ok <==> has_skills(t@, key@),
        r is Ok ==> skills_read(r->Ok_0@, opt_list(lookup(t@, key@))->0->0),
{
    let items = req_list(t, key)?;
    decode_skills(items)
}
/// Whether a document is a curves file: an object with the one list.
pub open spec fn curves_file_fits(d: Doc) -> bool {
    &&& d is Table
    &&& keys_within(d->Table_0@, seq!["curves"@])
    &&& has_curves(d->Table_0@, "curves"@)
}

/// A curves file's records.
pub open spec fn curves_file_read(v: Seq<CurveDto>, d: Doc) -> bool {
    curves_read(v, opt_list(lookup(d->Table_0@, "curves"@))->0->0)
}

/// Reads a curves file.
pub fn decode_curves_file(d: &Doc) -> (r: Result<Vec<CurveDto>, String>)
    ensures
        r is Ok <==> curves_file_fits(*d),
        r is Ok ==> curves_file_read(r->Ok_0@, *d),
{
    let t = match d {
        Doc::Table(t) => t,
        _ => return Err(owned("the file is an object")),
    };
    let keys: [&str; 1] = ["curves"];
    proof {
        assert(strs(keys@) =~= seq!["curves"@]);
    }
    only_keys(t, &keys)?;
    req_curves(t, "curves")
}
/// Whether a document is a classes file: an object with the one list.
pub open spec fn classes_file_fits(d: Doc) -> bool {
    &&& d is Table
    &&& keys_within(d->Table_0@, seq!["classes"@])
    &&& has_classes(d->Table_0@, "classes"@)
}

/// A classes file's records.
pub open spec fn classes_file_read(v: Seq<ClassDto>, d: Doc) -> bool {
    classes_read(v, opt_list(lookup(d->Table_0@, "classes"@))->0->0)
}

/// Reads a classes file.
pub fn decode_classes_file(d: &Doc) -> (r: Result<Vec<ClassDto>, String>)
    ensures
        r is Ok <==> classes_file_fits(*d),
        r is Ok ==> classes_file_read(r->Ok_0@, *d),
{
    let t = match d {
        Doc::Table(t) => t,
        _ => return Err(owned("the file is an object")),
    };
    let keys: [&str; 1] = ["classes"];
    proof {
        assert(strs(keys@) =~= seq!["classes"@]);
    }
    only_keys(t, &keys)?;
    req_classes(t, "classes")
}
/// Whether a document is a items file: an object with the one list.
pub open spec fn items_file_fits(d: Doc) -> bool {
    &&& d is Table
    &&& keys_within(d->Table_0@, seq!["items"@])
    &&& has_items(d->Table_0@, "items"@)
}

/// A items file's records.
pub open spec fn items_file_read(v: Seq<ItemDto>, d: Doc) -> bool {
    items_read(v, opt_list(lookup(d->Table_0@, "items"@))->0->0)
}

/// Reads a items file.
pub fn decode_items_file(d: &Doc) -> (r: Result<Vec<ItemDto>, String>)
    ensures
        r is Ok <==> items_file_fits(*d),
        r is Ok ==> items_file_read(r->Ok_0@, *d),
{
    let t = match d {
        Doc::Table(t) => t,
        _ => return Err(owned("the file is an object")),
    };
    let keys: [&str; 1] = ["items"];
    proof {
        assert(strs(keys@) =~= seq!["items"@]);
    }
    only_keys(t, &keys)?;
    req_items(t, "items")
}
/// Whether a document is a perks file: an object with the one list.
pub open spec fn perks_file_fits(d: Doc) -> bool {
    &&& d is Table
    &&& keys_within(d->Table_0@, seq!["perks"@])
    &&& has_perks(d->Table_0@, "perks"@)
}

/// A perks file's records.
pub open spec fn perks_file_read(v: Seq<PerkDto>, d: Doc) -> bool {
    perks_read(v, opt_list(lookup(d->Table_0@, "perks"@))->0->0)
}

/// Reads a perks file.
pub fn decode_perks_file(d: &Doc) -> (r: Result<Vec<PerkDto>, String>)
    ensures
        r is Ok <==> perks_file_fits(*d),
        r is Ok ==> perks_file_read(r->Ok_0@, *d),
{
    let t = match d {
        Doc::Table(t) => t,
        _ => return Err(owned("the file is an object")),
    };
    let keys: [&str; 1] = ["perks"];
    proof {
        assert(strs(keys@) =~= seq!["perks"@]);
    }
    only_keys(t, &keys)?;
    req_perks(t, "perks")
}
/// Whether a document is a skills file: an object with the one list.
pub open spec fn skills_file_fits(d: Doc) -> bool {
    &&& d is Table
    &&& keys_within(d->Table_0@, seq!["skills"@])
    &&& has_skills(d->Table_0@, "skills"@)
}

/// A skills file's records.
pub open spec fn skills_file_read(v: Seq<SkillDto>, d: Doc) -> bool {
    skills_read(v, opt_list(lookup(d->Table_0@, "skills"@))->0->0)
}

/// Reads a skills file.
pub fn decode_skills_file(d: &Doc) -> (r: Result<Vec<SkillDto>, String>)
    ensures
        r is Ok <==> skills_file_fits(*d),
        r is Ok ==> skills_file_read(r->Ok_0@, *d),
{
    let t = match d {
        Doc::Table(t) => t,
        _ => return Err(owned("the file is an object")),
    };
    let keys: [&str; 1] = ["skills"];
    proof {
        assert(strs(keys@) =~= seq!["skills"@]);
    }
    only_keys(t, &keys)?;
    req_skills(t, "skills")
}
} // verus!
