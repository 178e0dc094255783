//! What the browser page calls: each entry point takes the page's JSON text
//! and returns JSON text, a failure included, so the page shows a result
//! instead of catching an exception. The dataset is handed in by whoever
//! embeds the page.
//!
//! Replies are objects with their keys in ascending order: `{"error":..,
//! "ok":false}` for a failure. Every number in a reply is a decimal string,
//! never a JSON number, with the one exception of whole counts.

use vstd::prelude::*;

use crate::browser::{build_situation, page_context_as, page_loadout_as, page_loadout_ok, page_named, page_situation_ok, page_strike_as, parse_loadout};
use crate::exchange::{Exchange, ExchangeContext, ExchangeError, ExchangeOutcome, Strike, damage_outcome, exchange_error_text};
use crate::card::{after, after_prefix, card_submission, card_submission_as};
use crate::confidence::{Confidence, ConfidenceLevel, level_name};
use crate::doc::{Doc, json_doc, parse_json};
use crate::fixed::{Fixed, int_render, render_spec};
use crate::json_text::{compact_text, json_compact, pretty};
use crate::loadout::Loadout;
use crate::resolve::{Resolved, ResolveError, StageNote, error_explained, resolve, resolve_error_text, resolved_as};
use crate::derived::StatBreakdown;
use crate::ids::DerivedStatId;
use crate::dataset::{Dataset, EntityKind};
use crate::table::IdMap;
use crate::schema::{AttributeBlock, AttributeKind, InMemoryDataset, block_get};
use crate::submission::{Submission, method_named};
use crate::submission_text::submission_doc_as;
use crate::text::{append_chars, owned, string_of};

verus! {

// ── Replies ─────────────────────────────────────────────────────────────

/// The document of a failure: `{"error":…,"ok":false}`.
pub open spec fn error_doc_as(d: Doc, m: Seq<char>) -> bool {
    d matches Doc::Table(fs) && fs@.len() == 2 && text_field(fs@[0], "error"@, m)
        && fs@[1].0@ == "ok"@ && fs@[1].1 == Doc::Bool(false)
}

/// `r` is the reply to a failure with the message `m`.
pub open spec fn error_reply(r: Seq<char>, m: Seq<char>) -> bool {
    exists|d: Doc| #[trigger] error_doc_as(d, m) && r == json_compact(d)
}

/// The document carrying a written text: `{"ok":true,"text":…}`.
pub open spec fn text_doc_as(d: Doc, t: Seq<char>) -> bool {
    d matches Doc::Table(fs) && fs@.len() == 2 && fs@[0].0@ == "ok"@ && fs@[0].1 == Doc::Bool(true)
        && text_field(fs@[1], "text"@, t)
}

/// `r` is the reply carrying the text `t`.
pub open spec fn text_reply(r: Seq<char>, t: Seq<char>) -> bool {
    exists|d: Doc| #[trigger] text_doc_as(d, t) && r == json_compact(d)
}

/// Writes the reply to a failure.
pub fn error_json(m: &str) -> (r: String)
    ensures
        error_reply(r@, m@),
{
    let mut f: Vec<(String, Doc)> = Vec::new();
    f.push(text_entry("error", m));
    f.push((owned("ok"), Doc::Bool(false)));
    let d = Doc::Table(f);
    assert(error_doc_as(d, m@));
    compact_text(&d)
}

/// Writes the reply carrying a text.
fn text_json(t: &str) -> (r: String)
    ensures
        text_reply(r@, t@),
{
    let mut f: Vec<(String, Doc)> = Vec::new();
    f.push((owned("ok"), Doc::Bool(true)));
    f.push(text_entry("text", t));
    let d = Doc::Table(f);
    assert(text_doc_as(d, t@));
    compact_text(&d)
}

// ── Submissions ─────────────────────────────────────────────────────────

/// Writes a submission from a card the page read, observed by `observer`
/// on `observed_at` by `method` under `build`.
///
/// The format is written here rather than in the page, so there is one
/// writer and one reader of it: a page that wrote the JSON itself would be
/// a second implementation of the format, free to drift from the reader.
pub fn submission_json(card_json: &str, observer: &str, observed_at: &str, method: &str, build: &str) -> (r: String)
    ensures
        match json_doc(card_json@) {
            Err(m) => error_reply(r@, m),
            Ok(card) => match method_named(method@) {
                None => error_reply(r@, "unknown method: "@ + method@),
                Some(meth) => exists|s: Submission, d: Doc|
                    card_submission_as(s, card, observer@, observed_at@, meth, build@)
                    && #[trigger] submission_doc_as(d, s)
                    && text_reply(r@, pretty(d, 0) + seq!['\n']),
            },
        },
{
    let card = match parse_json(card_json) {
        Ok(d) => d,
        Err(m) => return error_json(m.as_str()),
    };
    let submission = match card_submission(&card, observer, observed_at, method, build) {
        Ok(s) => s,
        Err(m) => return error_json(m.as_str()),
    };
    let text = submission.encode();
    text_json(text.as_str())
}

// ── Resolving a loadout ─────────────────────────────────────────────────

/// The field `f` is `key` holding a string whose text is `text`.
pub open spec fn text_field(f: (String, Doc), key: Seq<char>, text: Seq<char>) -> bool {
    f.0@ == key && (f.1 matches Doc::Str(s) && s@ == text)
}

/// `g` is a graded number: `{"confidence":…,"value":…}`, the value as its
/// exact decimal text.
pub open spec fn graded_as(g: Doc, v: Confidence<Fixed>) -> bool {
    g matches Doc::Table(fs) && fs@.len() == 2
        && text_field(fs@[0], "confidence"@, level_name(v.spec_level()))
        && text_field(fs@[1], "value"@, render_spec(v.spec_value()@, false))
}

/// The field `f` is `key` holding the graded number `v`.
pub open spec fn graded_field(f: (String, Doc), key: Seq<char>, v: Confidence<Fixed>) -> bool {
    f.0@ == key && graded_as(f.1, v)
}

/// A stat's label: its id without the `derived.` prefix.
pub open spec fn stat_label(id: Seq<char>) -> Seq<char> {
    match after(id, "derived."@) {
        Some(l) => l,
        None => id,
    }
}

/// The character sheet's decomposition of a stat: rating, from-rating and
/// from-bonuses rows, their sum before stages 5 and 6 adjust move speed,
/// and whether the value shown differs from that sum.
pub open spec fn breakdown_as(b: Doc, p: StatBreakdown, total: Confidence<Fixed>) -> bool {
    let sum = p.from_rating.spec_value()@ + p.from_bonuses.spec_value()@;
    b matches Doc::Table(fs) && fs@.len() == 5
        && text_field(fs@[0], "beforeMove"@, render_spec(sum, false))
        && graded_field(fs@[1], "fromBonuses"@, p.from_bonuses)
        && graded_field(fs@[2], "fromRating"@, p.from_rating)
        && fs@[3].0@ == "movedLater"@ && fs@[3].1 == Doc::Bool(sum != total.spec_value()@)
        && graded_field(fs@[4], "rating"@, p.rating)
}

/// One derived stat's row: its breakdown where it has one, grade, id,
/// label, the note of an assumed value, and the value.
pub open spec fn stat_row_as(row: Doc, id: Seq<char>, v: Confidence<Fixed>, bd: Option<StatBreakdown>) -> bool {
    let nb: int = if bd is Some { 1 } else { 0 };
    let nn: int = if v.spec_note() is Some { 1 } else { 0 };
    row matches Doc::Table(fs) && {
        let f = fs@;
        &&& f.len() == 4 + nb + nn
        &&& nb == 1 ==> f[0].0@ == "breakdown"@ && breakdown_as(f[0].1, bd->0, v)
        &&& text_field(f[nb], "confidence"@, level_name(v.spec_level()))
        &&& text_field(f[nb + 1], "id"@, id)
        &&& text_field(f[nb + 2], "label"@, stat_label(id))
        &&& nn == 1 ==> text_field(f[nb + 3], "note"@, v.spec_note()->0)
        &&& text_field(f[nb + 3 + nn], "value"@, render_spec(v.spec_value()@, false))
    }
}

/// The attribute names in ascending order, with the kind each names.
pub open spec fn sorted_kinds() -> Seq<AttributeKind> {
    seq![
        AttributeKind::Agility,
        AttributeKind::Dexterity,
        AttributeKind::Knowledge,
        AttributeKind::Resourcefulness,
        AttributeKind::Strength,
        AttributeKind::Vigor,
        AttributeKind::Will,
    ]
}

/// The attribute block: its grade and each attribute's whole points.
pub open spec fn attributes_as(a: Doc, v: Confidence<AttributeBlock>) -> bool {
    a matches Doc::Table(fs) && fs@.len() == 2
        && text_field(fs@[0], "confidence"@, level_name(v.spec_level()))
        && fs@[1].0@ == "points"@
        && (fs@[1].1 matches Doc::Table(ps) && ps@.len() == 7
            && forall|j: int| 0 <= j < 7 ==> (#[trigger] ps@[j]).0@ == crate::schema::attribute_name(sorted_kinds()[j])
                && (ps@[j].1 matches Doc::Number(t) && t@ == int_render(block_get(v.spec_value(), sorted_kinds()[j]))))
}

/// One trace note: detail, label and stage.
pub open spec fn note_as(d: Doc, n: StageNote) -> bool {
    d matches Doc::Table(fs) && fs@.len() == 3
        && text_field(fs@[0], "detail"@, n.detail@)
        && text_field(fs@[1], "label"@, n.label@)
        && fs@[2].0@ == "stage"@ && (fs@[2].1 matches Doc::Number(t) && t@ == int_render(n.stage as int))
}

/// The page's view of a resolution: armour composition, attributes,
/// build, every derived stat in id order, the loadout's name, and the
/// trace.
pub open spec fn rendered_as(d: Doc, r: Resolved, name: Seq<char>) -> bool {
    d matches Doc::Table(fs) && {
        let f = fs@;
        &&& f.len() == 7
        &&& f[0].0@ == "armor"@ && (f[0].1 matches Doc::Table(a) && a@.len() == 3
            && graded_field(a@[0], "bonus"@, r.armor.bonus)
            && graded_field(a@[1], "item"@, r.armor.item)
            && graded_field(a@[2], "other"@, r.armor.other))
        &&& f[1].0@ == "attributes"@ && attributes_as(f[1].1, r.attributes)
        &&& text_field(f[2], "build"@, r.build@)
        &&& f[3].0@ == "derived"@ && (f[3].1 matches Doc::List(rows) && rows@.len() == r.derived.keys().len()
            && forall|j: int| 0 <= j < rows@.len() ==> stat_row_as(#[trigger] rows@[j], r.derived.keys()[j], r.derived.value_at_spec(j),
                if r.breakdown.view().contains_key(r.derived.keys()[j]) { Some(r.breakdown.view()[r.derived.keys()[j]]) } else { None }))
        &&& text_field(f[4], "name"@, name)
        &&& f[5].0@ == "ok"@ && f[5].1 == Doc::Bool(true)
        &&& f[6].0@ == "trace"@ && (f[6].1 matches Doc::List(ns) && ns@.len() == r.trace@.len()
            && forall|j: int| 0 <= j < ns@.len() ==> note_as(#[trigger] ns@[j], r.trace@[j]))
    }
}

/// Whether every shown stat's breakdown has from-rating and from-bonuses
/// rows that sum inside the fixed-point range.
pub open spec fn breakdowns_fit(r: Resolved) -> bool {
    forall|k: Seq<char>| r.derived.view().contains_key(k) && #[trigger] r.breakdown.view().contains_key(k) ==> crate::fixed::in_micro_range(
        r.breakdown.view()[k].from_rating.spec_value()@ + r.breakdown.view()[k].from_bonuses.spec_value()@)
}

/// A string field.
fn text_entry(key: &str, v: &str) -> (r: (String, Doc))
    ensures
        text_field(r, key@, v@),
{
    (owned(key), Doc::Str(owned(v)))
}

/// A whole number as a document.
fn number(n: i64) -> (r: Doc)
    ensures
        r matches Doc::Number(t) && t@ == int_render(n as int),
{
    let mut out: Vec<char> = Vec::new();
    crate::fixed::push_int(n, &mut out);
    Doc::Number(string_of(&out))
}

/// A graded number as a document.
fn graded(v: &Confidence<Fixed>) -> (r: Doc)
    ensures
        graded_as(r, *v),
{
    let mut f: Vec<(String, Doc)> = Vec::new();
    f.push(text_entry("confidence", v.level().as_str()));
    let value = v.value().to_string();
    f.push(text_entry("value", value.as_str()));
    Doc::Table(f)
}

/// A graded field.
fn graded_entry(key: &str, v: &Confidence<Fixed>) -> (r: (String, Doc))
    ensures
        graded_field(r, key@, *v),
{
    (owned(key), graded(v))
}

/// A stat's breakdown; nothing when its rows do not sum inside the range.
fn breakdown(p: &StatBreakdown, total: &Confidence<Fixed>) -> (r: Option<Doc>)
    ensures
        r is Some <==> crate::fixed::in_micro_range(p.from_rating.spec_value()@ + p.from_bonuses.spec_value()@),
        r matches Some(b) ==> breakdown_as(b, *p, *total),
{
    let sum = p.from_rating.value().checked_plus(*p.from_bonuses.value())?;
    let mut f: Vec<(String, Doc)> = Vec::new();
    let before = sum.to_string();
    f.push(text_entry("beforeMove", before.as_str()));
    f.push(graded_entry("fromBonuses", &p.from_bonuses));
    f.push(graded_entry("fromRating", &p.from_rating));
    f.push((owned("movedLater"), Doc::Bool(sum.micro() != total.value().micro())));
    f.push(graded_entry("rating", &p.rating));
    Some(Doc::Table(f))
}

/// One derived stat's row; nothing when its breakdown does not fit.
fn stat_row(id: &str, v: &Confidence<Fixed>, bd: Option<&StatBreakdown>) -> (r: Option<Doc>)
    ensures
        r is Some <==> (bd matches Some(p) ==> crate::fixed::in_micro_range(p.from_rating.spec_value()@ + p.from_bonuses.spec_value()@)),
        r matches Some(row) ==> stat_row_as(row, id@, *v, match bd { Some(p) => Some(*p), None => None }),
{
    let mut f: Vec<(String, Doc)> = Vec::new();
    if let Some(p) = bd {
        let b = breakdown(p, v)?;
        f.push((owned("breakdown"), b));
    }
    f.push(text_entry("confidence", v.level().as_str()));
    f.push(text_entry("id", id));
    let label = match after_prefix(id, "derived.") {
        Some(l) => l,
        None => owned(id),
    };
    f.push(text_entry("label", label.as_str()));
    if let Some(n) = v.note() {
        f.push(text_entry("note", n));
    }
    let value = v.value().to_string();
    f.push(text_entry("value", value.as_str()));
    Some(Doc::Table(f))
}

/// The attribute block as a document.
fn attributes_doc(v: &Confidence<AttributeBlock>) -> (r: Doc)
    ensures
        attributes_as(r, *v),
{
    let kinds = [
        AttributeKind::Agility,
        AttributeKind::Dexterity,
        AttributeKind::Knowledge,
        AttributeKind::Resourcefulness,
        AttributeKind::Strength,
        AttributeKind::Vigor,
        AttributeKind::Will,
    ];
    assert(kinds@ == sorted_kinds());
    let mut ps: Vec<(String, Doc)> = Vec::new();
    let mut j: usize = 0;
    while j < 7
        invariant
            j <= 7,
            kinds@ == sorted_kinds(),
            ps@.len() == j,
            forall|x: int| 0 <= x < j ==> (#[trigger] ps@[x]).0@ == crate::schema::attribute_name(sorted_kinds()[x])
                && (ps@[x].1 matches Doc::Number(t) && t@ == int_render(block_get(v.spec_value(), sorted_kinds()[x]))),
        decreases 7 - j,
    {
        let k = kinds[j];
        let points = v.value().get(k).points();
        ps.push((owned(k.as_str()), number(points as i64)));
        j = j + 1;
    }
    let mut f: Vec<(String, Doc)> = Vec::new();
    f.push(text_entry("confidence", v.level().as_str()));
    f.push((owned("points"), Doc::Table(ps)));
    Doc::Table(f)
}

/// The page's view of a resolution; nothing when a breakdown's rows do
/// not sum inside the range.
pub fn render(r: &Resolved, name: &str) -> (out: Option<Doc>)
    requires
        r.derived.wf(),
        r.breakdown.wf(),
    ensures
        out is Some <==> breakdowns_fit(*r),
        out matches Some(d) ==> rendered_as(d, *r, name@),
{
    let mut rows: Vec<Doc> = Vec::new();
    let mut j: usize = 0;
    proof {
        crate::table::lemma_keys_of(r.derived.entries());
        crate::table::lemma_to_map_entries(r.derived.entries());
    }
    while j < r.derived.len()
        invariant
            j <= r.derived.entries().len(),
            r.derived.wf(),
            r.breakdown.wf(),
            rows@.len() == j,
            r.derived.keys().len() == r.derived.entries().len(),
            forall|x: int| 0 <= x < j && #[trigger] r.breakdown.view().contains_key(r.derived.keys()[x]) ==> crate::fixed::in_micro_range(
                r.breakdown.view()[r.derived.keys()[x]].from_rating.spec_value()@ + r.breakdown.view()[r.derived.keys()[x]].from_bonuses.spec_value()@),
            forall|x: int| 0 <= x < j ==> stat_row_as(#[trigger] rows@[x], r.derived.keys()[x], r.derived.value_at_spec(x),
                if r.breakdown.view().contains_key(r.derived.keys()[x]) { Some(r.breakdown.view()[r.derived.keys()[x]]) } else { None }),
        decreases r.derived.entries().len() - j,
    {
        let id = r.derived.key_at(j).as_str();
        proof {
            crate::table::lemma_keys_of(r.derived.entries());
        }
        assert(id@ == r.derived.keys()[j as int]);
        let bd = r.breakdown.get(id);
        let row = match stat_row(id, r.derived.value_at(j), bd) {
            Some(row) => row,
            None => {
                proof {
                    crate::table::lemma_to_map_entries(r.derived.entries());
                    assert(r.derived.view().contains_key(r.derived.keys()[j as int]));
                }
                return None;
            },
        };
        rows.push(row);
        j = j + 1;
    }
    proof {
        crate::table::lemma_to_map_entries(r.derived.entries());
        assert forall|k: Seq<char>| r.derived.view().contains_key(k) && #[trigger] r.breakdown.view().contains_key(k) implies crate::fixed::in_micro_range(
            r.breakdown.view()[k].from_rating.spec_value()@ + r.breakdown.view()[k].from_bonuses.spec_value()@) by {
            assert(r.derived.keys().contains(k));
            let x = choose|x: int| 0 <= x < r.derived.keys().len() && r.derived.keys()[x] == k;
        }
    }
    let mut a: Vec<(String, Doc)> = Vec::new();
    a.push(graded_entry("bonus", &r.armor.bonus));
    a.push(graded_entry("item", &r.armor.item));
    a.push(graded_entry("other", &r.armor.other));
    let mut notes: Vec<Doc> = Vec::new();
    let mut j: usize = 0;
    while j < r.trace.len()
        invariant
            j <= r.trace@.len(),
            notes@.len() == j,
            forall|x: int| 0 <= x < j ==> note_as(#[trigger] notes@[x], r.trace@[x]),
        decreases r.trace@.len() - j,
    {
        let n = &r.trace[j];
        let mut f: Vec<(String, Doc)> = Vec::new();
        f.push(text_entry("detail", n.detail.as_str()));
        f.push(text_entry("label", n.label));
        f.push((owned("stage"), number(n.stage as i64)));
        notes.push(Doc::Table(f));
        j = j + 1;
    }
    let mut f: Vec<(String, Doc)> = Vec::new();
    f.push((owned("armor"), Doc::Table(a)));
    f.push((owned("attributes"), attributes_doc(&r.attributes)));
    f.push(text_entry("build", r.build.as_str()));
    f.push((owned("derived"), Doc::List(rows)));
    f.push(text_entry("name", name));
    f.push((owned("ok"), Doc::Bool(true)));
    f.push((owned("trace"), Doc::List(notes)));
    Some(Doc::Table(f))
}

/// What `resolve` may give for a loadout: what its contract states.
pub open spec fn resolution(l: Loadout, data: InMemoryDataset, rr: Result<Resolved, ResolveError>) -> bool {
    &&& (!data.classes().contains_key(l.class@) <==> rr matches Err(ResolveError::UnknownClass(_)))
    &&& match rr {
        Ok(res) => resolved_as(l, data, res),
        Err(e) => error_explained(l, data, e),
    }
}

/// The message for a resolution whose breakdown rows do not sum inside
/// the range.
pub open spec fn unsummable() -> Seq<char> {
    "a stat's breakdown leaves the fixed-point range"@
}

/// What the page gets for a loadout it wrote: the resolution and its
/// view, or the message of whatever failed first — the JSON, the page's
/// loadout shape, the resolution, or a breakdown that does not sum.
pub open spec fn page_outcome(data: InMemoryDataset, text: Seq<char>, out: Result<(Resolved, Doc), Seq<char>>) -> bool {
    match json_doc(text) {
        Err(m) => out == Err::<(Resolved, Doc), Seq<char>>(m),
        Ok(node) => if page_loadout_ok(node) {
            exists|l: Loadout, rr: Result<Resolved, ResolveError>| page_loadout_as(l, node) && #[trigger] resolution(l, data, rr)
                && match rr {
                    Err(e) => out == Err::<(Resolved, Doc), Seq<char>>(resolve_error_text(e)),
                    Ok(res) => if breakdowns_fit(res) {
                        out matches Ok(p) && p.0 == res && rendered_as(p.1, res, l.name@)
                    } else {
                        out == Err::<(Resolved, Doc), Seq<char>>(unsummable())
                    },
                }
        } else {
            out is Err
        },
    }
}

/// A page outcome with its message as text.
pub open spec fn outcome_view(r: Result<(Resolved, Doc), String>) -> Result<(Resolved, Doc), Seq<char>> {
    match r {
        Ok(p) => Ok(p),
        Err(m) => Err(m@),
    }
}

/// `r` is the reply to a page outcome.
pub open spec fn outcome_reply(r: Seq<char>, out: Result<(Resolved, Doc), Seq<char>>) -> bool {
    match out {
        Ok(p) => r == json_compact(p.1),
        Err(m) => error_reply(r, m),
    }
}

/// Reads and resolves one loadout the page wrote.
fn page_resolution(data: &InMemoryDataset, loadout_json: &str) -> (r: Result<(Resolved, Doc), String>)
    requires
        data.wf(),
    ensures
        page_outcome(*data, loadout_json@, outcome_view(r)),
{
    let node = match parse_json(loadout_json) {
        Ok(d) => d,
        Err(m) => return Err(m),
    };
    let loadout = match parse_loadout(&node) {
        Ok(l) => l,
        Err(m) => return Err(m),
    };
    let rr = resolve(&loadout, data);
    proof {
        assert(resolution(loadout, *data, rr));
    }
    match rr {
        Ok(res) => match render(&res, loadout.name.as_str()) {
            Some(d) => Ok((res, d)),
            None => Err(owned("a stat's breakdown leaves the fixed-point range")),
        },
        Err(e) => Err(e.to_string()),
    }
}

/// Resolves one loadout the page wrote, against `data`, and replies with
/// the page's view of it or with the error.
pub fn resolve_loadout(data: &InMemoryDataset, loadout_json: &str) -> (r: String)
    requires
        data.wf(),
    ensures
        exists|out: Result<(Resolved, Doc), Seq<char>>| #[trigger] page_outcome(*data, loadout_json@, out) && outcome_reply(r@, out),
{
    let out = page_resolution(data, loadout_json);
    let ghost v = outcome_view(out);
    match out {
        Ok(p) => compact_text(&p.1),
        Err(m) => error_json(m.as_str()),
    }
}

// ── Comparing two loadouts ──────────────────────────────────────────────

/// The document of a failure on one side: `{"error":…,"ok":false,"side":…}`.
pub open spec fn side_error_doc_as(d: Doc, m: Seq<char>, side: Seq<char>) -> bool {
    d matches Doc::Table(fs) && fs@.len() == 3 && text_field(fs@[0], "error"@, m)
        && fs@[1].0@ == "ok"@ && fs@[1].1 == Doc::Bool(false) && text_field(fs@[2], "side"@, side)
}

/// `r` is the reply to a failure on one side.
pub open spec fn side_error(r: Seq<char>, m: Seq<char>, side: Seq<char>) -> bool {
    exists|d: Doc| #[trigger] side_error_doc_as(d, m, side) && r == json_compact(d)
}

/// Writes the reply to a failure on one side.
fn side_error_json(m: &str, side: &str) -> (r: String)
    ensures
        side_error(r@, m@, side@),
{
    let mut f: Vec<(String, Doc)> = Vec::new();
    f.push(text_entry("error", m));
    f.push((owned("ok"), Doc::Bool(false)));
    f.push(text_entry("side", side));
    let d = Doc::Table(f);
    assert(side_error_doc_as(d, m@, side@));
    compact_text(&d)
}

/// The message for a difference that leaves the range.
pub open spec fn undiffable() -> Seq<char> {
    "a difference leaves the fixed-point range"@
}

/// Every stat both sides carry has a difference inside the range.
pub open spec fn differences_fit(a: Map<Seq<char>, Confidence<Fixed>>, b: Map<Seq<char>, Confidence<Fixed>>) -> bool {
    forall|k: Seq<char>| #[trigger] a.contains_key(k) && b.contains_key(k) ==> crate::fixed::in_micro_range(b[k].spec_value()@ - a[k].spec_value()@)
}

/// One row of the difference: a stat both sides carry, with its change
/// written with its sign; a stat only the first side carries, gone; or a
/// stat only the second carries, new. The grade is the weaker of the two.
pub open spec fn delta_as(e: Doc, id: Seq<char>, left: Option<Confidence<Fixed>>, right: Option<Confidence<Fixed>>) -> bool {
    e matches Doc::Table(fs) && match (left, right) {
        (Some(a), Some(b)) => {
            let change = b.spec_value()@ - a.spec_value()@;
            &&& fs@.len() == 7
            &&& text_field(fs@[0], "confidence"@, level_name(crate::confidence::min_level(a.spec_level(), b.spec_level())))
            &&& text_field(fs@[1], "delta"@, render_spec(change, true))
            &&& text_field(fs@[2], "from"@, render_spec(a.spec_value()@, false))
            &&& text_field(fs@[3], "id"@, id)
            &&& text_field(fs@[4], "label"@, stat_label(id))
            &&& fs@[5].0@ == "same"@ && fs@[5].1 == Doc::Bool(change == 0)
            &&& text_field(fs@[6], "to"@, render_spec(b.spec_value()@, false))
        },
        (Some(a), None) => {
            &&& fs@.len() == 6
            &&& text_field(fs@[0], "confidence"@, level_name(a.spec_level()))
            &&& text_field(fs@[1], "from"@, render_spec(a.spec_value()@, false))
            &&& fs@[2].0@ == "gone"@ && fs@[2].1 == Doc::Bool(true)
            &&& text_field(fs@[3], "id"@, id)
            &&& text_field(fs@[4], "label"@, stat_label(id))
            &&& fs@[5].0@ == "to"@ && fs@[5].1 == Doc::Null
        },
        (None, Some(b)) => {
            &&& fs@.len() == 6
            &&& text_field(fs@[0], "confidence"@, level_name(b.spec_level()))
            &&& fs@[1].0@ == "from"@ && fs@[1].1 == Doc::Null
            &&& text_field(fs@[2], "id"@, id)
            &&& text_field(fs@[3], "label"@, stat_label(id))
            &&& fs@[4].0@ == "new"@ && fs@[4].1 == Doc::Bool(true)
            &&& text_field(fs@[5], "to"@, render_spec(b.spec_value()@, false))
        },
        (None, None) => false,
    }
}

/// The value a map holds under `k`, if any.
pub open spec fn entry(m: Map<Seq<char>, Confidence<Fixed>>, k: Seq<char>) -> Option<Confidence<Fixed>> {
    if m.contains_key(k) { Some(m[k]) } else { None }
}

/// The difference between two sides' stats: one row per stat either side
/// carries, in ascending id order.
pub open spec fn deltas_as(ds: Seq<Doc>, a: Map<Seq<char>, Confidence<Fixed>>, b: Map<Seq<char>, Confidence<Fixed>>) -> bool {
    exists|ids: Seq<Seq<char>>| {
        &&& #[trigger] crate::table::strictly_sorted(ids)
        &&& ids.len() == ds.len()
        &&& forall|k: Seq<char>| ids.contains(k) <==> (#[trigger] a.contains_key(k) || b.contains_key(k))
        &&& forall|j: int| 0 <= j < ds.len() ==> delta_as(#[trigger] ds[j], ids[j], entry(a, ids[j]), entry(b, ids[j]))
    }
}

/// The comparison's reply: both sides' views and the difference.
pub open spec fn comparison_as(d: Doc, a: (Resolved, Doc), b: (Resolved, Doc)) -> bool {
    d matches Doc::Table(fs) && fs@.len() == 4
        && fs@[0].0@ == "a"@ && fs@[0].1 == a.1
        && fs@[1].0@ == "b"@ && fs@[1].1 == b.1
        && fs@[2].0@ == "delta"@ && (fs@[2].1 matches Doc::List(ds) && deltas_as(ds@, a.0.derived.view(), b.0.derived.view()))
        && fs@[3].0@ == "ok"@ && fs@[3].1 == Doc::Bool(true)
}

/// The reply comparing two page outcomes.
pub open spec fn comparison_reply(oa: Result<(Resolved, Doc), Seq<char>>, ob: Result<(Resolved, Doc), Seq<char>>, reply: Seq<char>) -> bool {
    match (oa, ob) {
        (Err(m), _) => side_error(reply, m, "a"@),
        (Ok(_), Err(m)) => side_error(reply, m, "b"@),
        (Ok(a), Ok(b)) => if differences_fit(a.0.derived.view(), b.0.derived.view()) {
            exists|d: Doc| #[trigger] comparison_as(d, a, b) && reply == json_compact(d)
        } else {
            error_reply(reply, undiffable())
        },
    }
}

/// A graded text field.
fn level_entry(key: &str, l: ConfidenceLevel) -> (r: (String, Doc))
    ensures
        text_field(r, key@, level_name(l)),
{
    text_entry(key, l.as_str())
}

/// A stat's label as a field.
fn label_entry(id: &str) -> (r: (String, Doc))
    ensures
        text_field(r, "label"@, stat_label(id@)),
{
    let label = match after_prefix(id, "derived.") {
        Some(l) => l,
        None => owned(id),
    };
    text_entry("label", label.as_str())
}

/// One row of the difference; nothing when the change leaves the range.
fn delta_row(id: &str, left: Option<&Confidence<Fixed>>, right: Option<&Confidence<Fixed>>) -> (r: Option<Doc>)
    requires
        left is Some || right is Some,
    ensures
        r is None <==> (left matches Some(a) && right matches Some(b) && !crate::fixed::in_micro_range(b.spec_value()@ - a.spec_value()@)),
        r matches Some(e) ==> delta_as(e, id@, match left { Some(a) => Some(*a), None => None }, match right { Some(b) => Some(*b), None => None }),
{
    let mut f: Vec<(String, Doc)> = Vec::new();
    match (left, right) {
        (Some(a), Some(b)) => {
            let change = b.value().checked_minus(*a.value())?;
            f.push(level_entry("confidence", a.level().lowest(b.level())));
            let d = change.to_string_signed();
            f.push(text_entry("delta", d.as_str()));
            let from = a.value().to_string();
            f.push(text_entry("from", from.as_str()));
            f.push(text_entry("id", id));
            f.push(label_entry(id));
            f.push((owned("same"), Doc::Bool(change.micro() == 0)));
            let to = b.value().to_string();
            f.push(text_entry("to", to.as_str()));
        },
        (Some(a), None) => {
            f.push(level_entry("confidence", a.level()));
            let from = a.value().to_string();
            f.push(text_entry("from", from.as_str()));
            f.push((owned("gone"), Doc::Bool(true)));
            f.push(text_entry("id", id));
            f.push(label_entry(id));
            f.push((owned("to"), Doc::Null));
        },
        (None, Some(b)) => {
            f.push(level_entry("confidence", b.level()));
            f.push((owned("from"), Doc::Null));
            f.push(text_entry("id", id));
            f.push(label_entry(id));
            f.push((owned("new"), Doc::Bool(true)));
            let to = b.value().to_string();
            f.push(text_entry("to", to.as_str()));
        },
        (None, None) => {},
    }
    Some(Doc::Table(f))
}

/// Every id either table carries, in ascending order.
fn union_ids(a: &IdMap<DerivedStatId, Confidence<Fixed>>, b: &IdMap<DerivedStatId, Confidence<Fixed>>) -> (u: IdMap<DerivedStatId, bool>)
    requires
        a.wf(),
        b.wf(),
    ensures
        u.wf(),
        forall|k: Seq<char>| #[trigger] u.view().contains_key(k) <==> (a.view().contains_key(k) || b.view().contains_key(k)),
{
    let mut u: IdMap<DerivedStatId, bool> = IdMap::new();
    proof {
        crate::table::lemma_keys_of(a.entries());
        crate::table::lemma_to_map_entries(a.entries());
        crate::table::lemma_keys_of(b.entries());
        crate::table::lemma_to_map_entries(b.entries());
    }
    let mut i: usize = 0;
    while i < a.len()
        invariant
            i <= a.entries().len(),
            a.wf(),
            u.wf(),
            a.keys().len() == a.entries().len(),
            forall|k: Seq<char>| #[trigger] u.view().contains_key(k) <==> exists|x: int| 0 <= x < i && a.keys()[x] == k,
        decreases a.entries().len() - i,
    {
        let k = a.key_at(i).clone();
        proof { crate::table::lemma_keys_of(a.entries()); }
        u.insert(k, true);
        proof {
            assert forall|key: Seq<char>| #[trigger] u.view().contains_key(key) <==> exists|x: int| 0 <= x < i + 1 && a.keys()[x] == key by {
                if key == a.keys()[i as int] {
                    assert(a.keys()[i as int] == key);
                }
            }
        }
        i = i + 1;
    }
    let mut j: usize = 0;
    while j < b.len()
        invariant
            j <= b.entries().len(),
            a.wf(),
            b.wf(),
            u.wf(),
            a.keys().len() == a.entries().len(),
            b.keys().len() == b.entries().len(),
            forall|k: Seq<char>| #[trigger] u.view().contains_key(k) <==> (a.keys().contains(k) || exists|x: int| 0 <= x < j && b.keys()[x] == k),
        decreases b.entries().len() - j,
    {
        let k = b.key_at(j).clone();
        proof { crate::table::lemma_keys_of(b.entries()); }
        u.insert(k, true);
        proof {
            assert forall|key: Seq<char>| #[trigger] u.view().contains_key(key) <==> (a.keys().contains(key) || exists|x: int| 0 <= x < j + 1 && b.keys()[x] == key) by {
                if key == b.keys()[j as int] {
                    assert(b.keys()[j as int] == key);
                }
            }
        }
        j = j + 1;
    }
    proof {
        crate::table::lemma_to_map_entries(a.entries());
        crate::table::lemma_to_map_entries(b.entries());
        assert forall|k: Seq<char>| #[trigger] u.view().contains_key(k) <==> (a.view().contains_key(k) || b.view().contains_key(k)) by {
            if b.keys().contains(k) {
                let x = choose|x: int| 0 <= x < b.keys().len() && b.keys()[x] == k;
            }
        }
    }
    u
}

/// Resolves two loadouts and states the difference between them.
///
/// The subtraction happens here rather than in the page: a difference
/// computed there would be a float away from the error this project exists
/// to prevent. A stat only one side carries is reported as appearing or
/// vanishing rather than as a difference from zero.
pub fn compare_loadouts(data: &InMemoryDataset, a_json: &str, b_json: &str) -> (r: String)
    requires
        data.wf(),
    ensures
        exists|oa: Result<(Resolved, Doc), Seq<char>>, ob: Result<(Resolved, Doc), Seq<char>>|
            #[trigger] page_outcome(*data, a_json@, oa) && #[trigger] page_outcome(*data, b_json@, ob) && comparison_reply(oa, ob, r@),
{
    let oa = page_resolution(data, a_json);
    let ob = page_resolution(data, b_json);
    let ghost va = outcome_view(oa);
    let ghost vb = outcome_view(ob);
    let (a, da) = match oa {
        Ok(p) => p,
        Err(m) => return side_error_json(m.as_str(), "a"),
    };
    let (b, db) = match ob {
        Ok(p) => p,
        Err(m) => return side_error_json(m.as_str(), "b"),
    };
    proof {
        lemma_outcome_ok(*data, a_json@, va);
        lemma_outcome_ok(*data, b_json@, vb);
    }
    let u = union_ids(&a.derived, &b.derived);
    let ghost ma = a.derived.view();
    let ghost mb = b.derived.view();
    proof {
        crate::table::lemma_keys_of(u.entries());
        crate::table::lemma_to_map_entries(u.entries());
    }
    let mut ds: Vec<Doc> = Vec::new();
    let mut i: usize = 0;
    while i < u.len()
        invariant
            i <= u.entries().len(),
            u.wf(),
            a.derived.wf(),
            b.derived.wf(),
            ma == a.derived.view(),
            mb == b.derived.view(),
            page_outcome(*data, a_json@, va),
            page_outcome(*data, b_json@, vb),
            va == Ok::<(Resolved, Doc), Seq<char>>((a, da)),
            vb == Ok::<(Resolved, Doc), Seq<char>>((b, db)),
            u.keys().len() == u.entries().len(),
            forall|k: Seq<char>| #[trigger] u.view().contains_key(k) <==> (ma.contains_key(k) || mb.contains_key(k)),
            forall|x: int| 0 <= x < u.keys().len() ==> #[trigger] u.view().contains_key(u.keys()[x]),
            ds@.len() == i,
            forall|j: int| 0 <= j < i ==> delta_as(#[trigger] ds@[j], u.keys()[j], entry(ma, u.keys()[j]), entry(mb, u.keys()[j])),
            forall|j: int| 0 <= j < i && ma.contains_key(#[trigger] u.keys()[j]) && mb.contains_key(u.keys()[j])
                ==> crate::fixed::in_micro_range(mb[u.keys()[j]].spec_value()@ - ma[u.keys()[j]].spec_value()@),
        decreases u.entries().len() - i,
    {
        proof { crate::table::lemma_keys_of(u.entries()); }
        let id = u.key_at(i).as_str();
        assert(id@ == u.keys()[i as int]);
        assert(u.view().contains_key(u.keys()[i as int]));
        let left = a.derived.get(id);
        let right = b.derived.get(id);
        let row = match delta_row(id, left, right) {
            Some(e) => e,
            None => {
                proof {
                    assert(ma.contains_key(id@) && mb.contains_key(id@));
                    assert(!differences_fit(ma, mb));
                    assert(page_outcome(*data, a_json@, va));
                    assert(page_outcome(*data, b_json@, vb));
                }
                let r = error_json("a difference leaves the fixed-point range");
                proof {
                    assert(comparison_reply(va, vb, r@));
                }
                return r;
            },
        };
        ds.push(row);
        i = i + 1;
    }
    let ghost dsv = ds@;
    let mut f: Vec<(String, Doc)> = Vec::new();
    f.push((owned("a"), da));
    f.push((owned("b"), db));
    f.push((owned("delta"), Doc::List(ds)));
    f.push((owned("ok"), Doc::Bool(true)));
    let d = Doc::Table(f);
    proof {
        assert(crate::table::strictly_sorted(u.keys()));
        assert forall|k: Seq<char>| u.keys().contains(k) <==> (#[trigger] ma.contains_key(k) || mb.contains_key(k)) by {
            crate::table::lemma_to_map_entries(u.entries());
            assert(u.view().contains_key(k) <==> u.keys().contains(k));
            assert(u.view().contains_key(k) <==> (ma.contains_key(k) || mb.contains_key(k)));
        }
        assert(deltas_as(dsv, ma, mb));
        assert forall|k: Seq<char>| #[trigger] ma.contains_key(k) && mb.contains_key(k) implies crate::fixed::in_micro_range(mb[k].spec_value()@ - ma[k].spec_value()@) by {
            crate::table::lemma_to_map_entries(u.entries());
            assert(u.keys().contains(k));
            let x = choose|x: int| 0 <= x < u.keys().len() && u.keys()[x] == k;
        }
        assert(comparison_as(d, (a, da), (b, db)));
        assert(page_outcome(*data, a_json@, va));
        assert(page_outcome(*data, b_json@, vb));
    }
    compact_text(&d)
}

/// A page outcome that succeeded carries a well-formed resolution.
proof fn lemma_outcome_ok(data: InMemoryDataset, text: Seq<char>, out: Result<(Resolved, Doc), Seq<char>>)
    requires
        page_outcome(data, text, out),
        out is Ok,
    ensures
        out->Ok_0.0.derived.wf(),
        out->Ok_0.0.breakdown.wf(),
{
    let node = json_doc(text)->Ok_0;
    let (l, rr) = choose|l: Loadout, rr: Result<Resolved, ResolveError>| page_loadout_as(l, node) && #[trigger] resolution(l, data, rr)
        && match rr {
            Err(e) => out == Err::<(Resolved, Doc), Seq<char>>(resolve_error_text(e)),
            Ok(res) => if breakdowns_fit(res) {
                out matches Ok(p) && p.0 == res && rendered_as(p.1, res, l.name@)
            } else {
                out == Err::<(Resolved, Doc), Seq<char>>(unsummable())
            },
        };
}

// ── One attack ──────────────────────────────────────────────────────────

/// A loadout one side of an exchange wrote: the loadout, the JSON's own
/// message, or the shape's message under the side's name.
pub open spec fn side_read(text: Seq<char>, side: Seq<char>, out: Result<Loadout, Seq<char>>) -> bool {
    match json_doc(text) {
        Err(m) => out == Err::<Loadout, Seq<char>>(m),
        Ok(node) => if page_loadout_ok(node) {
            out matches Ok(l) && page_loadout_as(l, node)
        } else {
            exists|e: Seq<char>| out == Err::<Loadout, Seq<char>>(side + ": "@ + e)
        },
    }
}

/// `g` is a graded number given by its grade and value.
pub open spec fn graded_parts_as(g: Doc, l: ConfidenceLevel, v: int) -> bool {
    g matches Doc::Table(fs) && fs@.len() == 2
        && text_field(fs@[0], "confidence"@, level_name(l))
        && text_field(fs@[1], "value"@, render_spec(v, false))
}

/// `n` is a count, or `null`.
pub open spec fn count_as(n: Doc, v: Option<i64>) -> bool {
    match v {
        Some(k) => n matches Doc::Number(t) && t@ == int_render(k as int),
        None => n == Doc::Null,
    }
}

/// `g` is a graded number, or `null`.
pub open spec fn opt_graded_as(g: Doc, v: Option<Confidence<Fixed>>) -> bool {
    match v {
        Some(c) => graded_as(g, c),
        None => g == Doc::Null,
    }
}

/// One step of the exchange's trail: detail, label and step number.
pub open spec fn step_as(d: Doc, n: StageNote) -> bool {
    d matches Doc::Table(fs) && fs@.len() == 3
        && text_field(fs@[0], "detail"@, n.detail@)
        && text_field(fs@[1], "label"@, n.label@)
        && fs@[2].0@ == "step"@ && (fs@[2].1 matches Doc::Number(t) && t@ == int_render(n.stage as int))
}

/// The page's view of one attack: the chain and its time, the damage, the
/// effective PDR, hits to kill, the skill the strike came from, every
/// step, the time to kill and the weapon's name.
pub open spec fn attack_as(d: Doc, out: ExchangeOutcome, skill: Option<Seq<char>>, weapon: Seq<char>) -> bool {
    d matches Doc::Table(fs) && {
        let f = fs@;
        &&& f.len() == 10
        &&& f[0].0@ == "chainTimeToKill"@ && opt_graded_as(f[0].1, out.chain_time_to_kill)
        &&& f[1].0@ == "chainToKill"@ && count_as(f[1].1, out.chain_to_kill)
        &&& f[2].0@ == "damage"@ && graded_parts_as(f[2].1, out.damage.spec_level(), out.damage.spec_value()@)
        &&& f[3].0@ == "effectivePdr"@ && graded_parts_as(f[3].1, out.effective_pdr.spec_level(), out.effective_pdr.spec_value()@)
        &&& f[4].0@ == "hitsToKill"@ && count_as(f[4].1, out.hits_to_kill)
        &&& f[5].0@ == "ok"@ && f[5].1 == Doc::Bool(true)
        &&& f[6].0@ == "skill"@ && match skill {
            Some(n) => f[6].1 matches Doc::Str(t) && t@ == n,
            None => f[6].1 == Doc::Null,
        }
        &&& f[7].0@ == "steps"@ && (f[7].1 matches Doc::List(ns) && ns@.len() == out.trace@.len()
            && forall|j: int| 0 <= j < ns@.len() ==> step_as(#[trigger] ns@[j], out.trace@[j]))
        &&& f[8].0@ == "timeToKill"@ && opt_graded_as(f[8].1, out.time_to_kill)
        &&& f[9].0@ == "weapon"@ && (f[9].1 matches Doc::Str(t) && t@ == weapon)
    }
}

/// The message when the attacker holds nothing.
pub open spec fn no_weapon() -> Seq<char> {
    "the attacker has no weapon, so there is nothing to swing"@
}

/// The reply to an attack by resolved combatants, the attacker's loadout
/// saying what it holds, in the situation the page wrote.
pub open spec fn swing_reply(data: InMemoryDataset, la: Loadout, a: Resolved, d: Resolved, st: Seq<char>, reply: Seq<char>) -> bool {
    match la.weapons.main_hand {
        None => error_reply(reply, no_weapon()),
        Some(w) => if !(data.items().contains_key(w@) && data.items()[w@].weapon is Some) {
            error_reply(reply, w@ + " is not a weapon in this dataset"@)
        } else {
            let profile = data.items()[w@].weapon->0;
            match json_doc(st) {
                Err(m) => error_reply(reply, m),
                Ok(node) => if !page_situation_ok(node, data) {
                    exists|e: Seq<char>| #[trigger] error_reply(reply, e)
                } else {
                    exists|s: Strike, c: ExchangeContext, rx: Result<ExchangeOutcome, ExchangeError>|
                        page_strike_as(s, node, w, profile, data) && page_context_as(c, node) && #[trigger] damage_outcome(a, d, s, c, data, rx)
                        && match rx {
                            Err(e) => error_reply(reply, exchange_error_text(e)),
                            Ok(out) => exists|doc: Doc| #[trigger] attack_as(doc, out, page_named(node, data), data.items()[w@].name@)
                                && reply == json_compact(doc),
                        }
                },
            }
        },
    }
}

/// The reply to one attack the page asked for.
pub open spec fn exchange_reply(data: InMemoryDataset, at: Seq<char>, dt: Seq<char>, st: Seq<char>, reply: Seq<char>) -> bool {
    exists|ra: Result<Loadout, Seq<char>>, rd: Result<Loadout, Seq<char>>|
        #[trigger] side_read(at, "attacker"@, ra) && #[trigger] side_read(dt, "defender"@, rd) && match (ra, rd) {
            (Err(m), _) => error_reply(reply, m),
            (Ok(_), Err(m)) => error_reply(reply, m),
            (Ok(la), Ok(ld)) => exists|xa: Result<Resolved, ResolveError>, xd: Result<Resolved, ResolveError>|
                #[trigger] resolution(la, data, xa) && #[trigger] resolution(ld, data, xd) && match (xa, xd) {
                    (Err(e), _) => error_reply(reply, "attacker"@ + ": "@ + resolve_error_text(e)),
                    (Ok(_), Err(e)) => error_reply(reply, "defender"@ + ": "@ + resolve_error_text(e)),
                    (Ok(a), Ok(d)) => swing_reply(data, la, a, d, st, reply),
                },
        }
}

/// A side's loadout with its message as text.
pub open spec fn read_view(r: Result<Loadout, String>) -> Result<Loadout, Seq<char>> {
    match r {
        Ok(l) => Ok(l),
        Err(m) => Err(m@),
    }
}

/// Reads one side's loadout.
fn read_side(text: &str, side: &str) -> (r: Result<Loadout, String>)
    ensures
        side_read(text@, side@, read_view(r)),
{
    let node = match parse_json(text) {
        Ok(d) => d,
        Err(m) => return Err(m),
    };
    match parse_loadout(&node) {
        Ok(l) => Ok(l),
        Err(e) => {
            let mut out: Vec<char> = Vec::new();
            append_chars(&mut out, side);
            append_chars(&mut out, ": ");
            append_chars(&mut out, e.as_str());
            assert(out@ =~= side@ + ": "@ + e@);
            Err(string_of(&out))
        },
    }
}

/// A message under a side's name.
fn sided(side: &str, m: &str) -> (r: String)
    ensures
        r@ == side@ + ": "@ + m@,
{
    let mut out: Vec<char> = Vec::new();
    append_chars(&mut out, side);
    append_chars(&mut out, ": ");
    append_chars(&mut out, m);
    string_of(&out)
}

/// A graded number by grade and value.
fn graded_parts(l: ConfidenceLevel, v: Fixed) -> (r: Doc)
    ensures
        graded_parts_as(r, l, v@),
{
    let mut f: Vec<(String, Doc)> = Vec::new();
    f.push(text_entry("confidence", l.as_str()));
    let t = v.to_string();
    f.push(text_entry("value", t.as_str()));
    Doc::Table(f)
}

/// A count, or `null`.
fn count(v: Option<i64>) -> (r: Doc)
    ensures
        count_as(r, v),
{
    match v {
        Some(k) => number(k),
        None => Doc::Null,
    }
}

/// A graded number, or `null`.
fn opt_graded(v: &Option<Confidence<Fixed>>) -> (r: Doc)
    ensures
        opt_graded_as(r, *v),
{
    match v {
        Some(c) => graded(c),
        None => Doc::Null,
    }
}

/// The page's view of one attack.
fn attack_doc(out: &ExchangeOutcome, skill: &Option<String>, weapon: &str) -> (r: Doc)
    ensures
        attack_as(r, *out, match skill { Some(n) => Some(n@), None => None }, weapon@),
{
    let mut steps: Vec<Doc> = Vec::new();
    let mut j: usize = 0;
    while j < out.trace.len()
        invariant
            j <= out.trace@.len(),
            steps@.len() == j,
            forall|x: int| 0 <= x < j ==> step_as(#[trigger] steps@[x], out.trace@[x]),
        decreases out.trace@.len() - j,
    {
        let n = &out.trace[j];
        let mut f: Vec<(String, Doc)> = Vec::new();
        f.push(text_entry("detail", n.detail.as_str()));
        f.push(text_entry("label", n.label));
        f.push((owned("step"), number(n.stage as i64)));
        steps.push(Doc::Table(f));
        j = j + 1;
    }
    let mut f: Vec<(String, Doc)> = Vec::new();
    f.push((owned("chainTimeToKill"), opt_graded(&out.chain_time_to_kill)));
    f.push((owned("chainToKill"), count(out.chain_to_kill)));
    f.push((owned("damage"), graded_parts(out.damage.level(), out.damage.value().value())));
    f.push((owned("effectivePdr"), graded_parts(out.effective_pdr.level(), out.effective_pdr.value().value())));
    f.push((owned("hitsToKill"), count(out.hits_to_kill)));
    f.push((owned("ok"), Doc::Bool(true)));
    let sk = match skill {
        Some(n) => Doc::Str(n.clone()),
        None => Doc::Null,
    };
    f.push((owned("skill"), sk));
    f.push((owned("steps"), Doc::List(steps)));
    f.push((owned("timeToKill"), opt_graded(&out.time_to_kill)));
    f.push(text_entry("weapon", weapon));
    Doc::Table(f)
}

/// One attack, with all nine steps: the attacker and defender as loadouts
/// the page wrote, and the situation as its own object, since it is a
/// fact about the attack rather than about either character. Omitted
/// situation fields fall back to the weapon simply swinging.
pub fn exchange(data: &InMemoryDataset, attacker_json: &str, defender_json: &str, situation_json: &str) -> (r: String)
    requires
        data.wf(),
    ensures
        exchange_reply(*data, attacker_json@, defender_json@, situation_json@, r@),
{
    let ra = read_side(attacker_json, "attacker");
    let rd = read_side(defender_json, "defender");
    let ghost va = read_view(ra);
    let ghost vd = read_view(rd);
    let la = match ra {
        Ok(l) => l,
        Err(m) => {
            assert(side_read(attacker_json@, "attacker"@, va) && side_read(defender_json@, "defender"@, vd));
            return error_json(m.as_str());
        },
    };
    let ld = match rd {
        Ok(l) => l,
        Err(m) => {
            assert(side_read(attacker_json@, "attacker"@, va) && side_read(defender_json@, "defender"@, vd));
            return error_json(m.as_str());
        },
    };
    proof {
        assert(side_read(attacker_json@, "attacker"@, va) && side_read(defender_json@, "defender"@, vd));
    }
    let xa = resolve(&la, data);
    let xd = resolve(&ld, data);
    proof {
        assert(resolution(la, *data, xa) && resolution(ld, *data, xd));
    }
    let attacker = match xa {
        Ok(a) => a,
        Err(e) => {
            let m = e.to_string();
            return error_json(sided("attacker", m.as_str()).as_str());
        },
    };
    let defender = match xd {
        Ok(d) => d,
        Err(e) => {
            let m = e.to_string();
            return error_json(sided("defender", m.as_str()).as_str());
        },
    };
    let weapon_id = match &la.weapons.main_hand {
        Some(w) => w,
        None => return error_json("the attacker has no weapon, so there is nothing to swing"),
    };
    let item = match data.item(weapon_id) {
        Some(it) => it,
        None => {
            let m = sided_after(weapon_id.as_str(), " is not a weapon in this dataset");
            return error_json(m.as_str());
        },
    };
    let profile = match &item.weapon {
        Some(p) => p,
        None => {
            let m = sided_after(weapon_id.as_str(), " is not a weapon in this dataset");
            return error_json(m.as_str());
        },
    };
    let node = match parse_json(situation_json) {
        Ok(d) => d,
        Err(m) => return error_json(m.as_str()),
    };
    let (strike, context, named) = match build_situation(&node, weapon_id, profile, data) {
        Ok(parts) => parts,
        Err(e) => return error_json(e.as_str()),
    };
    let ex = Exchange::new(&attacker, &defender, &strike, &context, data);
    let rx = ex.damage();
    proof {
        assert(damage_outcome(attacker, defender, strike, context, *data, rx));
    }
    match rx {
        Ok(out) => {
            let d = attack_doc(&out, &named, item.name.as_str());
            compact_text(&d)
        },
        Err(e) => {
            let m = e.to_string();
            error_json(m.as_str())
        },
    }
}

/// Two texts one after the other.
fn sided_after(a: &str, b: &str) -> (r: String)
    ensures
        r@ == a@ + b@,
{
    let mut out: Vec<char> = Vec::new();
    append_chars(&mut out, a);
    append_chars(&mut out, b);
    string_of(&out)
}

// ── The catalog ─────────────────────────────────────────────────────────

/// The ids of one kind, in id order, whose entity the dataset holds.
pub open spec fn kind_ids(s: Seq<(String, EntityKind)>, k: EntityKind, data: InMemoryDataset) -> Seq<Seq<char>>
    decreases s.len(),
{
    if s.len() == 0 {
        Seq::empty()
    } else {
        let e = s.last();
        kind_ids(s.drop_last(), k, data) + if e.1 == k && holds(data, k, e.0@) { seq![e.0@] } else { Seq::empty() }
    }
}

/// Whether the dataset holds an entity of kind `k` under `id`.
pub open spec fn holds(data: InMemoryDataset, k: EntityKind, id: Seq<char>) -> bool {
    match k {
        EntityKind::Class => data.classes().contains_key(id),
        EntityKind::Item => data.items().contains_key(id),
        EntityKind::Perk => data.perks().contains_key(id),
        EntityKind::Skill => data.skills().contains_key(id),
        EntityKind::Curve => false,
    }
}

/// A named row: `{"id":…,"name":…}`.
pub open spec fn named_row_as(d: Doc, id: Seq<char>, name: Seq<char>) -> bool {
    d matches Doc::Table(fs) && fs@.len() == 2 && text_field(fs@[0], "id"@, id) && text_field(fs@[1], "name"@, name)
}

/// A skill's row: whether it attacks, its id and its name.
pub open spec fn skill_row_as(d: Doc, id: Seq<char>, sk: crate::schema::SkillDef) -> bool {
    d matches Doc::Table(fs) && fs@.len() == 3
        && fs@[0].0@ == "attacks"@ && fs@[0].1 == Doc::Bool(sk.strike is Some)
        && text_field(fs@[1], "id"@, id) && text_field(fs@[2], "name"@, sk.name@)
}

/// The attribute points an item prints, by attribute name; a later entry
/// for the same attribute wins.
pub open spec fn printed_points(d: Seq<(AttributeKind, i32)>) -> Map<Seq<char>, int>
    decreases d.len(),
{
    if d.len() == 0 {
        Map::empty()
    } else {
        printed_points(d.drop_last()).insert(crate::schema::attribute_name(d.last().0), d.last().1 as int)
    }
}

/// `t` is a table of whole numbers: keys ascending, each with its number.
pub open spec fn number_table_as(t: Doc, m: Map<Seq<char>, int>) -> bool {
    t matches Doc::Table(es) && {
        &&& crate::table::strictly_sorted(es@.map_values(|e: (String, Doc)| e.0@))
        &&& forall|k: Seq<char>| #[trigger] m.contains_key(k) <==> es@.map_values(|e: (String, Doc)| e.0@).contains(k)
        &&& forall|j: int| 0 <= j < es@.len() ==> ((#[trigger] es@[j]).1 matches Doc::Number(n) && n@ == int_render(m[es@[j].0@]))
    }
}

/// A string, or `null`.
pub open spec fn opt_text_as(d: Doc, t: Option<Seq<char>>) -> bool {
    match t {
        Some(x) => d matches Doc::Str(s) && s@ == x,
        None => d == Doc::Null,
    }
}

/// A weapon's card: armour penetration, base damage, the chain of swings
/// with each swing's kind and scaling, and the swing time.
pub open spec fn weapon_as(d: Doc, w: Option<crate::schema::WeaponProfile>) -> bool {
    match w {
        None => d == Doc::Null,
        Some(w) => d matches Doc::Table(fs) && fs@.len() == 4
            && graded_field(fs@[0], "armorPen"@, w.armor_pen)
            && graded_field(fs@[1], "baseDamage"@, w.base_damage)
            && fs@[2].0@ == "combo"@ && (fs@[2].1 matches Doc::List(hits) && hits@.len() == w.combo@.len()
                && forall|j: int| 0 <= j < hits@.len() ==> (#[trigger] hits@[j] matches Doc::Table(hf) && hf@.len() == 2
                    && text_field(hf@[0], "kind"@, crate::stats::tag_name(w.combo@[j].kind))
                    && graded_field(hf@[1], "scaling"@, w.combo@[j].scaling)))
            && fs@[3].0@ == "swingTime"@ && opt_graded_as(fs@[3].1, w.swing_time),
    }
}

/// Everything an item card prints: its printed attributes and their
/// grade, its grants, id, move speed, name, rarity, the classes it is
/// restricted to, its slot, and its weapon profile.
pub open spec fn item_row_as(d: Doc, id: Seq<char>, it: crate::schema::ItemDef) -> bool {
    d matches Doc::Table(fs) && {
        let f = fs@;
        &&& f.len() == 10
        &&& f[0].0@ == "attributes"@ && number_table_as(f[0].1, match it.attributes {
            Some(c) => printed_points(c.spec_value()@),
            None => Map::empty(),
        })
        &&& f[1].0@ == "attributesGrade"@ && opt_text_as(f[1].1, match it.attributes {
            Some(c) => Some(level_name(c.spec_level())),
            None => None,
        })
        &&& f[2].0@ == "grants"@ && (f[2].1 matches Doc::Table(gs) && gs@.len() == it.grants.keys().len()
            && forall|j: int| 0 <= j < gs@.len() ==> (#[trigger] gs@[j]).0@ == it.grants.keys()[j] && graded_as(gs@[j].1, it.grants.value_at_spec(j)))
        &&& text_field(f[3], "id"@, id)
        &&& f[4].0@ == "moveSpeedAdd"@ && opt_graded_as(f[4].1, it.move_speed_add)
        &&& text_field(f[5], "name"@, it.name@)
        &&& f[6].0@ == "rarity"@ && opt_text_as(f[6].1, match it.rarity { Some(r) => Some(crate::stats::rarity_name(r)), None => None })
        &&& f[7].0@ == "requiredClasses"@ && (f[7].1 matches Doc::List(cs) && cs@.len() == it.required_classes@.len()
            && forall|j: int| 0 <= j < cs@.len() ==> (#[trigger] cs@[j] matches Doc::Str(t) && t@ == it.required_classes@[j]@))
        &&& f[8].0@ == "slot"@ && opt_text_as(f[8].1, match it.slot { Some(sl) => Some(crate::loadout::slot_name(sl)), None => None })
        &&& f[9].0@ == "weapon"@ && weapon_as(f[9].1, it.weapon)
    }
}

/// The rows of one kind: one per id of that kind the dataset holds, in id
/// order.
pub open spec fn rows_as(rows: Seq<Doc>, ids: Seq<Seq<char>>, data: InMemoryDataset, k: EntityKind) -> bool {
    &&& rows.len() == ids.len()
    &&& forall|j: int| 0 <= j < rows.len() ==> match k {
        EntityKind::Class => named_row_as(#[trigger] rows[j], ids[j], data.classes()[ids[j]].name@),
        EntityKind::Perk => named_row_as(rows[j], ids[j], data.perks()[ids[j]].name@),
        EntityKind::Skill => skill_row_as(rows[j], ids[j], data.skills()[ids[j]]),
        EntityKind::Item => item_row_as(rows[j], ids[j], data.items()[ids[j]]),
        EntityKind::Curve => false,
    }
}

/// What the page can offer: the attribute names, the build and its label,
/// the classes, items, perks and skills, and every slot with its capacity.
pub open spec fn catalog_as(d: Doc, data: Dataset) -> bool {
    let ids = data.ids.entries();
    let e = data.entities;
    d matches Doc::Table(fs) && {
        let f = fs@;
        &&& f.len() == 9
        &&& f[0].0@ == "attributes"@ && (f[0].1 matches Doc::List(a) && a@.len() == 7
            && forall|j: int| 0 <= j < 7 ==> (#[trigger] a@[j] matches Doc::Str(t) && t@ == crate::schema::attribute_name(crate::schema::all_attributes()[j])))
        &&& text_field(f[1], "build"@, data.manifest.build@)
        &&& f[2].0@ == "classes"@ && (f[2].1 matches Doc::List(r) && rows_as(r@, kind_ids(ids, EntityKind::Class, e), e, EntityKind::Class))
        &&& f[3].0@ == "items"@ && (f[3].1 matches Doc::List(r) && rows_as(r@, kind_ids(ids, EntityKind::Item, e), e, EntityKind::Item))
        &&& text_field(f[4], "label"@, data.manifest.label@)
        &&& f[5].0@ == "ok"@ && f[5].1 == Doc::Bool(true)
        &&& f[6].0@ == "perks"@ && (f[6].1 matches Doc::List(r) && rows_as(r@, kind_ids(ids, EntityKind::Perk, e), e, EntityKind::Perk))
        &&& f[7].0@ == "skills"@ && (f[7].1 matches Doc::List(r) && rows_as(r@, kind_ids(ids, EntityKind::Skill, e), e, EntityKind::Skill))
        &&& f[8].0@ == "slots"@ && (f[8].1 matches Doc::List(sl) && sl@.len() == 9
            && forall|j: int| 0 <= j < 9 ==> (#[trigger] sl@[j] matches Doc::Table(t) && t@.len() == 2
                && t@[0].0@ == "capacity"@ && (t@[0].1 matches Doc::Number(n) && n@ == int_render(crate::loadout::slot_capacity(crate::loadout::all_slots()[j]) as int))
                && text_field(t@[1], "id"@, crate::loadout::slot_name(crate::loadout::all_slots()[j]))))
    }
}

/// The printed attributes as a table.
fn printed_table(d: &Vec<(AttributeKind, i32)>) -> (r: Doc)
    ensures
        number_table_as(r, printed_points(d@)),
{
    let mut m: IdMap<String, i32> = IdMap::new();
    let mut j: usize = 0;
    while j < d.len()
        invariant
            j <= d@.len(),
            m.wf(),
            forall|k: Seq<char>| #[trigger] m.view().contains_key(k) <==> printed_points(d@.subrange(0, j as int)).contains_key(k),
            forall|k: Seq<char>| #[trigger] m.view().contains_key(k) ==> m.view()[k] as int == printed_points(d@.subrange(0, j as int))[k],
        decreases d@.len() - j,
    {
        proof {
            assert(d@.subrange(0, j + 1).drop_last() =~= d@.subrange(0, j as int));
        }
        m.insert(owned(d[j].0.as_str()), d[j].1);
        j = j + 1;
    }
    proof {
        assert(d@.subrange(0, d@.len() as int) =~= d@);
        crate::table::lemma_keys_of(m.entries());
        crate::table::lemma_to_map_entries(m.entries());
    }
    let mut es: Vec<(String, Doc)> = Vec::new();
    let mut i: usize = 0;
    while i < m.len()
        invariant
            i <= m.entries().len(),
            m.wf(),
            m.keys().len() == m.entries().len(),
            forall|k: Seq<char>| #[trigger] m.view().contains_key(k) <==> printed_points(d@).contains_key(k),
            forall|k: Seq<char>| #[trigger] m.view().contains_key(k) ==> m.view()[k] as int == printed_points(d@)[k],
            forall|x: int| 0 <= x < m.keys().len() ==> #[trigger] m.view().contains_key(m.keys()[x]) && m.view()[m.keys()[x]] == m.value_at_spec(x),
            es@.len() == i,
            forall|x: int| 0 <= x < i ==> (#[trigger] es@[x]).0@ == m.keys()[x]
                && (es@[x].1 matches Doc::Number(n) && n@ == int_render(printed_points(d@)[m.keys()[x]])),
        decreases m.entries().len() - i,
    {
        proof { crate::table::lemma_keys_of(m.entries()); }
        let k = m.key_at(i).clone();
        let v = *m.value_at(i);
        assert(k@ == m.keys()[i as int]);
        assert(m.view().contains_key(m.keys()[i as int]) && m.view()[m.keys()[i as int]] == m.value_at_spec(i as int));
        assert(v as int == printed_points(d@)[k@]);
        es.push((k, number(v as i64)));
        i = i + 1;
    }
    proof {
        let ks = es@.map_values(|e: (String, Doc)| e.0@);
        assert(ks =~= m.keys());
        crate::table::lemma_to_map_entries(m.entries());
        assert forall|k: Seq<char>| #[trigger] printed_points(d@).contains_key(k) <==> ks.contains(k) by {
            assert(m.view().contains_key(k) <==> printed_points(d@).contains_key(k));
        }
        assert forall|x: int| 0 <= x < es@.len() implies ((#[trigger] es@[x]).1 matches Doc::Number(n) && n@ == int_render(printed_points(d@)[es@[x].0@])) by {
            assert(es@[x].0@ == m.keys()[x]);
        }
    }
    Doc::Table(es)
}

/// A weapon's card.
fn weapon_doc(w: &Option<crate::schema::WeaponProfile>) -> (r: Doc)
    ensures
        weapon_as(r, *w),
{
    match w {
        None => Doc::Null,
        Some(w) => {
            let mut hits: Vec<Doc> = Vec::new();
            let mut j: usize = 0;
            while j < w.combo.len()
                invariant
                    j <= w.combo@.len(),
                    hits@.len() == j,
                    forall|x: int| 0 <= x < j ==> (#[trigger] hits@[x] matches Doc::Table(hf) && hf@.len() == 2
                        && text_field(hf@[0], "kind"@, crate::stats::tag_name(w.combo@[x].kind))
                        && graded_field(hf@[1], "scaling"@, w.combo@[x].scaling)),
                decreases w.combo@.len() - j,
            {
                let mut hf: Vec<(String, Doc)> = Vec::new();
                hf.push(text_entry("kind", w.combo[j].kind.as_str()));
                hf.push(graded_entry("scaling", &w.combo[j].scaling));
                hits.push(Doc::Table(hf));
                j = j + 1;
            }
            let mut f: Vec<(String, Doc)> = Vec::new();
            f.push(graded_entry("armorPen", &w.armor_pen));
            f.push(graded_entry("baseDamage", &w.base_damage));
            f.push((owned("combo"), Doc::List(hits)));
            f.push((owned("swingTime"), opt_graded(&w.swing_time)));
            Doc::Table(f)
        },
    }
}

/// An item card.
fn item_row(id: &str, it: &crate::schema::ItemDef) -> (r: Doc)
    requires
        it.grants.wf(),
    ensures
        item_row_as(r, id@, *it),
{
    let mut f: Vec<(String, Doc)> = Vec::new();
    let (printed, grade) = match &it.attributes {
        Some(c) => (printed_table(c.value()), Doc::Str(owned(c.level().as_str()))),
        None => {
            let none: Vec<(AttributeKind, i32)> = Vec::new();
            assert(printed_points(none@) == Map::<Seq<char>, int>::empty());
            (printed_table(&none), Doc::Null)
        },
    };
    f.push((owned("attributes"), printed));
    f.push((owned("attributesGrade"), grade));
    let mut gs: Vec<(String, Doc)> = Vec::new();
    let mut j: usize = 0;
    proof { crate::table::lemma_keys_of(it.grants.entries()); }
    while j < it.grants.len()
        invariant
            j <= it.grants.entries().len(),
            it.grants.keys().len() == it.grants.entries().len(),
            gs@.len() == j,
            forall|x: int| 0 <= x < j ==> (#[trigger] gs@[x]).0@ == it.grants.keys()[x] && graded_as(gs@[x].1, it.grants.value_at_spec(x)),
        decreases it.grants.entries().len() - j,
    {
        proof { crate::table::lemma_keys_of(it.grants.entries()); }
        let k = owned(it.grants.key_at(j).as_str());
        let g = graded(it.grants.value_at(j));
        gs.push((k, g));
        j = j + 1;
    }
    f.push((owned("grants"), Doc::Table(gs)));
    f.push(text_entry("id", id));
    f.push((owned("moveSpeedAdd"), opt_graded(&it.move_speed_add)));
    f.push(text_entry("name", it.name.as_str()));
    let rarity = match it.rarity {
        Some(r) => Doc::Str(owned(r.as_str())),
        None => Doc::Null,
    };
    f.push((owned("rarity"), rarity));
    let mut cs: Vec<Doc> = Vec::new();
    let mut j: usize = 0;
    while j < it.required_classes.len()
        invariant
            j <= it.required_classes@.len(),
            cs@.len() == j,
            forall|x: int| 0 <= x < j ==> (#[trigger] cs@[x] matches Doc::Str(t) && t@ == it.required_classes@[x]@),
        decreases it.required_classes@.len() - j,
    {
        cs.push(Doc::Str(owned(it.required_classes[j].as_str())));
        j = j + 1;
    }
    f.push((owned("requiredClasses"), Doc::List(cs)));
    let slot = match it.slot {
        Some(sl) => Doc::Str(owned(sl.as_str())),
        None => Doc::Null,
    };
    f.push((owned("slot"), slot));
    f.push((owned("weapon"), weapon_doc(&it.weapon)));
    Doc::Table(f)
}

/// Everything the page needs to offer choices: the classes, the items and
/// everything their cards print, the perks, the skills and whether each
/// attacks, the slots with their capacities, and the attribute names.
pub fn catalog(data: &Dataset) -> (r: String)
    requires
        data.entities.wf(),
        data.ids.wf(),
    ensures
        exists|d: Doc| #[trigger] catalog_as(d, *data) && r@ == json_compact(d),
{
    let e = &data.entities;
    let ghost ids = data.ids.entries();
    let mut classes: Vec<Doc> = Vec::new();
    let mut items: Vec<Doc> = Vec::new();
    let mut perks: Vec<Doc> = Vec::new();
    let mut skills: Vec<Doc> = Vec::new();
    let mut i: usize = 0;
    proof { crate::table::lemma_keys_of(ids); }
    while i < data.ids.len()
        invariant
            i <= ids.len(),
            ids == data.ids.entries(),
            e == &data.entities,
            e.wf(),
            rows_as(classes@, kind_ids(ids.subrange(0, i as int), EntityKind::Class, *e), *e, EntityKind::Class),
            rows_as(items@, kind_ids(ids.subrange(0, i as int), EntityKind::Item, *e), *e, EntityKind::Item),
            rows_as(perks@, kind_ids(ids.subrange(0, i as int), EntityKind::Perk, *e), *e, EntityKind::Perk),
            rows_as(skills@, kind_ids(ids.subrange(0, i as int), EntityKind::Skill, *e), *e, EntityKind::Skill),
        decreases ids.len() - i,
    {
        let ghost pre = ids.subrange(0, i as int);
        let ghost cur = ids.subrange(0, i + 1);
        proof {
            assert(cur.drop_last() =~= pre);
            assert(cur.last() == ids[i as int]);
            crate::table::lemma_keys_of(ids);
        }
        let id = data.ids.key_at(i).as_str();
        let kind = *data.ids.value_at(i);
        match kind {
            EntityKind::Class => {
                if let Some(c) = e.class(&crate::ids::ClassId::new(id)) {
                    let mut f: Vec<(String, Doc)> = Vec::new();
                    f.push(text_entry("id", id));
                    f.push(text_entry("name", c.name.as_str()));
                    classes.push(Doc::Table(f));
                }
            },
            EntityKind::Item => {
                if let Some(it) = e.item(&crate::ids::ItemId::new(id)) {
                    items.push(item_row(id, it));
                }
            },
            EntityKind::Perk => {
                if let Some(pk) = e.perk(&crate::ids::PerkId::new(id)) {
                    let mut f: Vec<(String, Doc)> = Vec::new();
                    f.push(text_entry("id", id));
                    f.push(text_entry("name", pk.name.as_str()));
                    perks.push(Doc::Table(f));
                }
            },
            EntityKind::Skill => {
                if let Some(sk) = e.skill(&crate::ids::SkillId::new(id)) {
                    let mut f: Vec<(String, Doc)> = Vec::new();
                    f.push((owned("attacks"), Doc::Bool(sk.strike.is_some())));
                    f.push(text_entry("id", id));
                    f.push(text_entry("name", sk.name.as_str()));
                    skills.push(Doc::Table(f));
                }
            },
            EntityKind::Curve => {},
        }
        i = i + 1;
    }
    proof {
        assert(ids.subrange(0, ids.len() as int) =~= ids);
    }
    let kinds = AttributeKind::all();
    let mut a: Vec<Doc> = Vec::new();
    let mut j: usize = 0;
    while j < 7
        invariant
            j <= 7,
            kinds@ == crate::schema::all_attributes(),
            a@.len() == j,
            forall|x: int| 0 <= x < j ==> (#[trigger] a@[x] matches Doc::Str(t) && t@ == crate::schema::attribute_name(crate::schema::all_attributes()[x])),
        decreases 7 - j,
    {
        a.push(Doc::Str(owned(kinds[j].as_str())));
        j = j + 1;
    }
    let slots = crate::loadout::Slot::all();
    let mut sl: Vec<Doc> = Vec::new();
    let mut j: usize = 0;
    while j < 9
        invariant
            j <= 9,
            slots@ == crate::loadout::all_slots(),
            sl@.len() == j,
            forall|x: int| 0 <= x < j ==> (#[trigger] sl@[x] matches Doc::Table(t) && t@.len() == 2
                && t@[0].0@ == "capacity"@ && (t@[0].1 matches Doc::Number(n) && n@ == int_render(crate::loadout::slot_capacity(crate::loadout::all_slots()[x]) as int))
                && text_field(t@[1], "id"@, crate::loadout::slot_name(crate::loadout::all_slots()[x]))),
        decreases 9 - j,
    {
        let mut t: Vec<(String, Doc)> = Vec::new();
        t.push((owned("capacity"), number(slots[j].capacity() as i64)));
        t.push(text_entry("id", slots[j].as_str()));
        sl.push(Doc::Table(t));
        j = j + 1;
    }
    let mut f: Vec<(String, Doc)> = Vec::new();
    f.push((owned("attributes"), Doc::List(a)));
    f.push(text_entry("build", data.manifest.build.as_str()));
    f.push((owned("classes"), Doc::List(classes)));
    f.push((owned("items"), Doc::List(items)));
    f.push(text_entry("label", data.manifest.label.as_str()));
    f.push((owned("ok"), Doc::Bool(true)));
    f.push((owned("perks"), Doc::List(perks)));
    f.push((owned("skills"), Doc::List(skills)));
    f.push((owned("slots"), Doc::List(sl)));
    let d = Doc::Table(f);
    assert(catalog_as(d, *data));
    compact_text(&d)
}

} // verus!
