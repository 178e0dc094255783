//! A card the page read, written as a submission.
//!
//! The page reads an item card line by line and hands over what it saw; the
//! submission is assembled here so that there is one writer of the format
//! and one reader of it, both in this library. A line is `attr:<name>`,
//! `stat:<derived stat id>` or `move:` followed by what the card printed.

use vstd::prelude::*;

use crate::browser::{field, text_of, texts_of};
use crate::doc::{Doc, integer_in, integer_of, opt_view};
use crate::submission::{FORMAT, ItemObservation, Method, Submission, method_named};
use crate::table::{IdMap, keys_of, strictly_sorted, to_map};
use crate::text::{append_chars, chars_of, owned, string_of, string_views};
use crate::fields::text_map;

verus! {

// ── What the card says ──────────────────────────────────────────────────

/// A text, or the empty text when there is none.
pub open spec fn text_or_empty(t: Option<Seq<char>>) -> Seq<char> {
    match t {
        Some(s) => s,
        None => Seq::empty(),
    }
}

/// A text, unless it is empty.
pub open spec fn filled(t: Option<Seq<char>>) -> Option<Seq<char>> {
    match t {
        Some(s) => if s.len() > 0 { Some(s) } else { None },
        None => None,
    }
}

/// What follows a prefix, when the text starts with it.
pub open spec fn after(s: Seq<char>, p: Seq<char>) -> Option<Seq<char>> {
    if p.len() <= s.len() && s.subrange(0, p.len() as int) == p {
        Some(s.subrange(p.len() as int, s.len() as int))
    } else {
        None
    }
}

/// The `i32` a text spells the way Rust reads one: an optional sign, then
/// digits, in range.
pub open spec fn i32_text(s: Seq<char>) -> Option<int> {
    if s.len() > 1 && s[0] == '+' && s[1] != '-' {
        integer_in(s.drop_first(), i32::MIN as int, i32::MAX as int)
    } else if s.len() > 0 && s[0] == '+' {
        None
    } else {
        integer_in(s, i32::MIN as int, i32::MAX as int)
    }
}

/// A text field of a node, empty when absent or not a string.
pub open spec fn card_text(d: Doc, key: Seq<char>) -> Seq<char> {
    text_or_empty(text_of(field(d, key)))
}

/// The lines the card lists; none when `lines` is not a list.
pub open spec fn card_lines(d: Doc) -> Seq<Doc> {
    match field(d, "lines"@) {
        Some(Doc::List(items)) => items@,
        _ => Seq::empty(),
    }
}

/// The attribute points the lines print, summed per attribute in `i32`
/// arithmetic that wraps. A line whose amount is not a whole number is
/// skipped.
pub open spec fn card_attrs(rows: Seq<Doc>) -> Map<Seq<char>, i32>
    decreases rows.len(),
{
    if rows.len() == 0 {
        Map::empty()
    } else {
        let m = card_attrs(rows.drop_last());
        let row = rows.last();
        match after(card_text(row, "what"@), "attr:"@) {
            Some(a) => match i32_text(card_text(row, "amount"@)) {
                Some(p) => m.insert(a, (if m.contains_key(a) { m[a] } else { 0i32 }).wrapping_add(p as i32)),
                None => m,
            },
            None => m,
        }
    }
}

/// The derived stats the lines print, later lines winning.
pub open spec fn card_grants(rows: Seq<Doc>) -> Map<Seq<char>, Seq<char>>
    decreases rows.len(),
{
    if rows.len() == 0 {
        Map::empty()
    } else {
        let m = card_grants(rows.drop_last());
        let row = rows.last();
        let what = card_text(row, "what"@);
        if after(what, "attr:"@) is Some {
            m
        } else {
            match after(what, "stat:"@) {
                Some(s) => m.insert(s, card_text(row, "amount"@)),
                None => m,
            }
        }
    }
}

/// The move speed the lines print, the last such line winning.
pub open spec fn card_move(rows: Seq<Doc>) -> Option<Seq<char>>
    decreases rows.len(),
{
    if rows.len() == 0 {
        None
    } else {
        let row = rows.last();
        let what = card_text(row, "what"@);
        if after(what, "attr:"@) is None && after(what, "stat:"@) is None && after(what, "move:"@) is Some {
            Some(card_text(row, "amount"@))
        } else {
            card_move(rows.drop_last())
        }
    }
}

/// The observation a card is: its texts as printed, empty texts read as
/// absent for the rarity and the slot, and its lines gathered by kind.
pub open spec fn observation_as(o: ItemObservation, d: Doc) -> bool {
    let rows = card_lines(d);
    &&& o.id@ == card_text(d, "id"@)
    &&& o.name@ == card_text(d, "name"@)
    &&& opt_view(o.rarity) == filled(text_of(field(d, "rarity"@)))
    &&& opt_view(o.slot) == filled(text_of(field(d, "slot"@)))
    &&& string_views(o.required_classes@) == texts_of(field(d, "requiredClasses"@))
    &&& strictly_sorted(keys_of(o.grants@))
    &&& text_map(to_map(o.grants@)) == card_grants(rows)
    &&& strictly_sorted(keys_of(o.attributes@))
    &&& to_map(o.attributes@) == card_attrs(rows)
    &&& opt_view(o.move_speed_add) == card_move(rows)
}

/// The submission a card is, observed by someone, at some date, in some
/// way, under a build.
pub open spec fn card_submission_as(s: Submission, d: Doc, observer: Seq<char>, observed_at: Seq<char>, method: Method, build: Seq<char>) -> bool {
    &&& s.submission == FORMAT
    &&& s.observer@ == observer
    &&& s.observed_at@ == observed_at
    &&& s.build@ == build
    &&& s.method == method
    &&& opt_view(s.note) == filled(text_of(field(d, "note"@)))
    &&& s.items@.len() == 1
    &&& observation_as(s.items@[0], d)
    &&& string_views(s.unrecognised@) == texts_of(field(d, "unrecognised"@))
}

// ── Reading the card ────────────────────────────────────────────────────

/// The characters from position `k` on.
fn chars_from(cs: &Vec<char>, k: usize) -> (r: Vec<char>)
    requires
        k <= cs@.len(),
    ensures
        r@ == cs@.subrange(k as int, cs@.len() as int),
{
    let mut out: Vec<char> = Vec::new();
    let mut i: usize = k;
    while i < cs.len()
        invariant
            k <= i <= cs@.len(),
            out@ == cs@.subrange(k as int, i as int),
        decreases cs@.len() - i,
    {
        out.push(cs[i]);
        proof {
            assert(out@ =~= cs@.subrange(k as int, i + 1));
        }
        i = i + 1;
    }
    out
}

/// What follows a prefix, when the text starts with it.
pub(crate) fn after_prefix(s: &str, p: &str) -> (r: Option<String>)
    ensures
        opt_view(r) == after(s@, p@),
{
    let cs = chars_of(s);
    let ps = chars_of(p);
    if ps.len() > cs.len() {
        return None;
    }
    let mut i: usize = 0;
    while i < ps.len()
        invariant
            i <= ps@.len() <= cs@.len(),
            cs@ == s@,
            ps@ == p@,
            forall|j: int| 0 <= j < i ==> cs@[j] == ps@[j],
        decreases ps@.len() - i,
    {
        if cs[i] != ps[i] {
            proof {
                assert(s@.subrange(0, p@.len() as int)[i as int] != p@[i as int]);
            }
            return None;
        }
        i = i + 1;
    }
    proof {
        assert(s@.subrange(0, p@.len() as int) =~= p@);
    }
    let rest = chars_from(&cs, ps.len());
    Some(string_of(&rest))
}

/// The `i32` a text spells, the way Rust reads one.
fn i32_of(s: &str) -> (r: Option<i32>)
    ensures
        match i32_text(s@) {
            Some(v) => r == Some(v as i32),
            None => r is None,
        },
{
    let cs = chars_of(s);
    if cs.len() > 1 && cs[0] == '+' && cs[1] != '-' {
        let rest = string_of(&chars_from(&cs, 1));
        proof {
            assert(rest@ =~= s@.drop_first());
        }
        match integer_of(rest.as_str(), i32::MIN as i64, i32::MAX as i64) {
            Some(v) => Some(v as i32),
            None => None,
        }
    } else if cs.len() > 0 && cs[0] == '+' {
        None
    } else {
        match integer_of(s, i32::MIN as i64, i32::MAX as i64) {
            Some(v) => Some(v as i32),
            None => None,
        }
    }
}

/// A field of an object node.
pub(crate) fn field_in<'a>(d: &'a Doc, key: &str) -> (r: Option<&'a Doc>)
    ensures
        match r {
            Some(x) => field(*d, key@) == Some(*x),
            None => field(*d, key@) is None,
        },
{
    match d {
        Doc::Table(t) => crate::doc::get(t, key),
        _ => None,
    }
}

/// A text field, empty when absent or not a string.
fn text_or_blank(d: &Doc, key: &str) -> (r: String)
    ensures
        r@ == card_text(*d, key@),
{
    match field_in(d, key) {
        Some(Doc::Str(s)) => owned(s.as_str()),
        _ => String::new(),
    }
}

/// A text field, unless absent, not a string or empty.
fn filled_text(d: &Doc, key: &str) -> (r: Option<String>)
    ensures
        opt_view(r) == filled(text_of(field(*d, key@))),
{
    match field_in(d, key) {
        Some(Doc::Str(s)) => if chars_of(s.as_str()).len() > 0 { Some(owned(s.as_str())) } else { None },
        _ => None,
    }
}

/// The strings of a list field, skipping anything else.
fn strings_in(d: &Doc, key: &str) -> (r: Vec<String>)
    ensures
        string_views(r@) == texts_of(field(*d, key@)),
{
    let items = match field_in(d, key) {
        Some(Doc::List(items)) => items,
        _ => return Vec::new(),
    };
    let mut out: Vec<String> = Vec::new();
    let mut i: usize = 0;
    proof {
        assert(items@.subrange(0, 0) =~= Seq::<Doc>::empty());
    }
    while i < items.len()
        invariant
            i <= items@.len(),
            string_views(out@) == crate::browser::texts_in(items@.subrange(0, i as int)),
        decreases items@.len() - i,
    {
        let ghost before = string_views(out@);
        proof {
            assert(items@.subrange(0, i + 1).drop_last() =~= items@.subrange(0, i as int));
        }
        match &items[i] {
            Doc::Str(s) => {
                out.push(owned(s.as_str()));
                proof {
                    assert(string_views(out@) =~= before.push(s@));
                }
            },
            _ => {},
        }
        i = i + 1;
    }
    proof {
        assert(items@.subrange(0, items@.len() as int) =~= items@);
    }
    out
}

/// A sorted table of texts, as pairs in key order.
fn text_entries(m: &IdMap<String, String>) -> (r: Vec<(String, String)>)
    ensures
        r@ == m.entries(),
{
    let mut out: Vec<(String, String)> = Vec::new();
    let mut i: usize = 0;
    while i < m.len()
        invariant
            i <= m.entries().len(),
            out@ == m.entries().subrange(0, i as int),
        decreases m.entries().len() - i,
    {
        out.push((m.key_at(i).clone(), m.value_at(i).clone()));
        proof {
            assert(out@ =~= m.entries().subrange(0, i + 1));
        }
        i = i + 1;
    }
    proof {
        assert(m.entries().subrange(0, m.entries().len() as int) =~= m.entries());
    }
    out
}

/// A sorted table of points, as pairs in key order.
fn point_entries(m: &IdMap<String, i32>) -> (r: Vec<(String, i32)>)
    ensures
        r@ == m.entries(),
{
    let mut out: Vec<(String, i32)> = Vec::new();
    let mut i: usize = 0;
    while i < m.len()
        invariant
            i <= m.entries().len(),
            out@ == m.entries().subrange(0, i as int),
        decreases m.entries().len() - i,
    {
        out.push((m.key_at(i).clone(), *m.value_at(i)));
        proof {
            assert(out@ =~= m.entries().subrange(0, i + 1));
        }
        i = i + 1;
    }
    proof {
        assert(m.entries().subrange(0, m.entries().len() as int) =~= m.entries());
    }
    out
}

/// The observation a card the page read is.
pub fn card_observation(d: &Doc) -> (r: ItemObservation)
    ensures
        observation_as(r, *d),
{
    let no_rows: Vec<Doc> = Vec::new();
    let rows: &Vec<Doc> = match field_in(d, "lines") {
        Some(Doc::List(items)) => items,
        _ => &no_rows,
    };
    assert(rows@ == card_lines(*d));
    let mut grants: IdMap<String, String> = IdMap::new();
    let mut attributes: IdMap<String, i32> = IdMap::new();
    let mut move_speed_add: Option<String> = None;
    let mut i: usize = 0;
    proof {
        assert(rows@.subrange(0, 0) =~= Seq::<Doc>::empty());
        assert(text_map(grants.view()) =~= Map::<Seq<char>, Seq<char>>::empty());
    }
    while i < rows.len()
        invariant
            i <= rows@.len(),
            rows@ == card_lines(*d),
            grants.wf(),
            attributes.wf(),
            text_map(grants.view()) == card_grants(rows@.subrange(0, i as int)),
            attributes.view() == card_attrs(rows@.subrange(0, i as int)),
            opt_view(move_speed_add) == card_move(rows@.subrange(0, i as int)),
        decreases rows@.len() - i,
    {
        let row = &rows[i];
        let what = text_or_blank(row, "what");
        let amount = text_or_blank(row, "amount");
        let ghost before_grants = grants.view();
        proof {
            let next = rows@.subrange(0, i + 1);
            assert(next.drop_last() =~= rows@.subrange(0, i as int));
            assert(next.last() == rows@[i as int]);
        }
        if let Some(attr) = after_prefix(what.as_str(), "attr:") {
            if let Some(points) = i32_of(amount.as_str()) {
                let now: i32 = match attributes.get(attr.as_str()) {
                    Some(v) => *v,
                    None => 0,
                };
                attributes.insert(attr, now.wrapping_add(points));
            }
        } else if let Some(stat) = after_prefix(what.as_str(), "stat:") {
            grants.insert(stat, amount);
            proof {
                assert(text_map(grants.view()) =~= text_map(before_grants).insert(stat@, amount@));
            }
        } else if after_prefix(what.as_str(), "move:").is_some() {
            move_speed_add = Some(amount);
        }
        i = i + 1;
    }
    proof {
        assert(rows@.subrange(0, rows@.len() as int) =~= rows@);
    }
    let o = ItemObservation {
        id: text_or_blank(d, "id"),
        name: text_or_blank(d, "name"),
        rarity: filled_text(d, "rarity"),
        required_classes: strings_in(d, "requiredClasses"),
        slot: filled_text(d, "slot"),
        grants: text_entries(&grants),
        attributes: point_entries(&attributes),
        move_speed_add,
    };
    o
}

/// The submission a card the page read makes, observed by `observer` on
/// `observed_at` under `build`. The method is written by its name, and a
/// name this format does not know is refused.
pub fn card_submission(card: &Doc, observer: &str, observed_at: &str, method: &str, build: &str) -> (r: Result<Submission, String>)
    ensures
        r is Ok <==> method_named(method@) is Some,
        r matches Ok(s) ==> card_submission_as(s, *card, observer@, observed_at@, method_named(method@)->0, build@),
        r matches Err(m) ==> m@ == "unknown method: "@ + method@,
{
    let m = match Method::parse(method) {
        Some(m) => m,
        None => {
            let mut text: Vec<char> = Vec::new();
            append_chars(&mut text, "unknown method: ");
            append_chars(&mut text, method);
            return Err(string_of(&text));
        },
    };
    let mut items: Vec<ItemObservation> = Vec::new();
    items.push(card_observation(card));
    Ok(Submission {
        submission: FORMAT,
        observer: owned(observer),
        observed_at: owned(observed_at),
        build: owned(build),
        method: m,
        note: filled_text(card, "note"),
        items,
        unrecognised: strings_in(card, "unrecognised"),
    })
}

} // verus!
