//! The browser page's JSON shapes: a loadout and a situation as the page
//! sends them, read as leniently as the page expects.
//!
//! Every number crosses from the page as a decimal string, never as a JSON
//! number: a float on the other side of the boundary would reintroduce the
//! error class this project exists to prevent. Whole counts (attribute
//! points, stack counts) are the one exception, and are read as whole
//! numbers or refused.

use vstd::prelude::*;

use crate::confidence::{Confidence, ConfidenceLevel};
use crate::doc::{Doc, count_of_text, get, integer_in, integer_of, lookup, opt_view};
use crate::exchange::{ExchangeContext, Strike};
use crate::fixed::{Fixed, ParseFixedError, parse_spec};
use crate::ids::{AbilityId, ClassId, DerivedStatId, ItemId, PerkId, SkillId};
use crate::loadout::{GearPiece, Loadout, PartyBuffs, Roll, Slot, Weapons, slot_name};
use crate::loadout_file::{perk_slugs, skill_slugs};
use crate::schema::{AttributeKind, InMemoryDataset, StrikeProfile, WeaponProfile, attribute_name, names_attribute};
use crate::situation::same;
use crate::stats::{ArmorPen, Damage, DamageTag, DamageType, PdrMod, ScalingCoefficient, TrueDamage, hundred};
use crate::submission::{blank, is_blank};
use crate::table::IdMap;
use crate::text::{append_chars, chars_of, owned, str_eq, string_of};

verus! {

// ── Reading a node the way the page writes it ───────────────────────────

/// A field of an object; nothing for anything else.
pub open spec fn field(d: Doc, key: Seq<char>) -> Option<Doc> {
    match d {
        Doc::Table(t) => lookup(t@, key),
        _ => None,
    }
}

/// A string's text; nothing for anything else.
pub open spec fn text_of(d: Option<Doc>) -> Option<Seq<char>> {
    match d {
        Some(Doc::Str(s)) => Some(s@),
        _ => None,
    }
}

/// The strings of a list, skipping anything else.
pub open spec fn texts_in(items: Seq<Doc>) -> Seq<Seq<char>>
    decreases items.len(),
{
    if items.len() == 0 {
        Seq::empty()
    } else {
        match items.last() {
            Doc::Str(s) => texts_in(items.drop_last()).push(s@),
            _ => texts_in(items.drop_last()),
        }
    }
}

/// The strings of a list field; none when it is not a list.
pub open spec fn texts_of(d: Option<Doc>) -> Seq<Seq<char>> {
    match d {
        Some(Doc::List(items)) => texts_in(items@),
        _ => Seq::empty(),
    }
}

/// The entries of an object field; none when it is not an object.
pub open spec fn entries_of(d: Option<Doc>) -> Seq<(String, Doc)> {
    match d {
        Some(Doc::Table(t)) => t@,
        _ => Seq::empty(),
    }
}

/// A whole number in the `i64` range.
pub open spec fn whole_of(d: Doc) -> Option<int> {
    match d {
        Doc::Number(s) => integer_in(s@, i64::MIN as int, i64::MAX as int),
        _ => None,
    }
}

/// A non-negative whole number in the `u64` range.
pub open spec fn count_of(d: Doc) -> Option<int> {
    match d {
        Doc::Number(s) => integer_in(s@, 0, u64::MAX as int),
        _ => None,
    }
}

/// An exact decimal, written as a string.
pub open spec fn decimal_of(d: Doc) -> Option<int> {
    match d {
        Doc::Str(s) => match parse_spec(s@) {
            Ok(v) => Some(v),
            Err(_) => None,
        },
        _ => None,
    }
}

/// A field of a node.
fn field_of<'a>(d: &'a Doc, key: &str) -> (r: Option<&'a Doc>)
    ensures
        match r {
            Some(x) => field(*d, key@) == Some(*x),
            None => field(*d, key@) is None,
        },
{
    match d {
        Doc::Table(t) => get(t, key),
        _ => None,
    }
}

/// A string's text, owned.
fn text_in(d: Option<&Doc>) -> (r: Option<String>)
    ensures
        r matches Some(s) ==> d matches Some(x) && text_of(Some(*x)) == Some(s@),
        r is None ==> match d {
            Some(x) => text_of(Some(*x)) is None,
            None => true,
        },
{
    match d {
        Some(Doc::Str(s)) => Some(owned(s.as_str())),
        _ => None,
    }
}

/// The strings of a list, skipping anything else.
fn texts(d: Option<&Doc>) -> (r: Vec<String>)
    ensures
        crate::text::string_views(r@) == match d {
            Some(x) => texts_of(Some(*x)),
            None => texts_of(None),
        },
{
    let items = match d {
        Some(Doc::List(items)) => items,
        _ => return Vec::new(),
    };
    let mut out: Vec<String> = Vec::new();
    let mut i: usize = 0;
    proof {
        assert(items@.subrange(0, 0) =~= Seq::<Doc>::empty());
    }
    while i < items.len()
        invariant
            i <= items@.len(),
            crate::text::string_views(out@) == texts_in(items@.subrange(0, i as int)),
        decreases items@.len() - i,
    {
        let ghost before = crate::text::string_views(out@);
        proof {
            assert(items@.subrange(0, i + 1).drop_last() =~= items@.subrange(0, i as int));
            assert(items@.subrange(0, i + 1).last() == items@[i as int]);
        }
        match &items[i] {
            Doc::Str(s) => {
                out.push(owned(s.as_str()));
                proof {
                    assert(crate::text::string_views(out@) =~= before.push(s@));
                }
            },
            _ => {},
        }
        i = i + 1;
    }
    proof {
        assert(items@.subrange(0, items@.len() as int) =~= items@);
    }
    out
}

/// A decimal string's value, or the refusal naming what it was for.
fn decimal(d: &Doc, what: &str) -> (r: Result<Fixed, String>)
    ensures
        r is Ok <==> decimal_of(*d) is Some,
        r matches Ok(x) ==> x@ == decimal_of(*d)->0,
{
    let text = match d {
        Doc::Str(s) => s,
        _ => {
            let mut m: Vec<char> = Vec::new();
            append_chars(&mut m, what);
            append_chars(&mut m, " must be a decimal string, not a number");
            return Err(string_of(&m));
        },
    };
    match Fixed::parse_decimal(text.as_str()) {
        Ok(x) => Ok(x),
        Err(e) => {
            let mut m: Vec<char> = Vec::new();
            append_chars(&mut m, what);
            append_chars(&mut m, ": ");
            append_chars(&mut m, match e {
                ParseFixedError::Malformed => "Malformed",
                ParseFixedError::TooPrecise => "TooPrecise",
                ParseFixedError::OutOfRange => "OutOfRange",
            });
            Err(string_of(&m))
        },
    }
}

// ── A loadout ───────────────────────────────────────────────────────────

/// An attribute entry names an attribute and holds whole points in range.
pub open spec fn points_entry_ok(e: (String, Doc)) -> bool {
    names_attribute(e.0@) && (whole_of(e.1) matches Some(v) && i32::MIN <= v <= i32::MAX)
}

/// A gear piece the page sent can be read: a known slot, known attribute
/// names with whole points in range, and exact decimals everywhere else.
pub open spec fn piece_ok(p: Doc) -> bool {
    let at = entries_of(field(p, "attributes"@));
    let ad = entries_of(field(p, "additional"@));
    &&& text_of(field(p, "slot"@)) matches Some(n) && exists|s: Slot| #[trigger] slot_name(s) == n
    &&& forall|k: int| 0 <= k < at.len() ==> points_entry_ok(#[trigger] at[k])
    &&& forall|k: int| 0 <= k < ad.len() ==> decimal_of((#[trigger] ad[k]).1) is Some
    &&& (field(p, "moveSpeedAdd"@) matches Some(m) ==> decimal_of(m) is Some)
}

/// How many rolls a piece's move speed adds.
pub open spec fn speed_count(p: Doc) -> int {
    if field(p, "moveSpeedAdd"@) is Some { 1 } else { 0 }
}

/// A roll is the attribute points an entry writes.
pub open spec fn points_roll_is(r: Roll, e: (String, Doc)) -> bool {
    match r {
        Roll::Attribute(a, v) => attribute_name(a) == e.0@ && v == whole_of(e.1)->0,
        _ => false,
    }
}

/// A roll is the derived stat an entry writes.
pub open spec fn stat_roll_is(r: Roll, e: (String, Doc)) -> bool {
    match r {
        Roll::Derived(id, x) => id@ == e.0@ && x@ == decimal_of(e.1)->0,
        _ => false,
    }
}

/// A piece's rolls, in the page's order: attributes, then additional
/// stats, then move speed.
pub open spec fn page_rolls_as(rolls: Seq<Roll>, p: Doc) -> bool {
    let at = entries_of(field(p, "attributes"@));
    let ad = entries_of(field(p, "additional"@));
    &&& rolls.len() == at.len() + ad.len() + speed_count(p)
    &&& forall|k: int| 0 <= k < at.len() ==> #[trigger] points_roll_is(rolls[k], at[k])
    &&& forall|k: int| 0 <= k < ad.len() ==> stat_roll_is(rolls[at.len() + k], #[trigger] ad[k])
    &&& (field(p, "moveSpeedAdd"@) matches Some(m) ==> rolls[at.len() + ad.len() as int] matches Roll::MoveSpeedAdd(x) && x@ == decimal_of(m)->0)
}

/// A piece is the one the page sent. A missing id reads as empty.
pub open spec fn page_piece_as(g: GearPiece, p: Doc) -> bool {
    &&& slot_name(g.slot) == text_of(field(p, "slot"@))->0
    &&& g.id@ == match text_of(field(p, "id"@)) {
        Some(s) => s,
        None => Seq::empty(),
    }
    &&& page_rolls_as(g.rolls@, p)
}

/// The pieces a loadout node lists; none when `gear` is not a list.
pub open spec fn gear_docs(d: Doc) -> Seq<Doc> {
    match field(d, "gear"@) {
        Some(Doc::List(items)) => items@,
        _ => Seq::empty(),
    }
}

/// The stacks a node lists, later entries winning; counts that are not
/// whole numbers are skipped, and counts past `u32::MAX` saturate.
pub open spec fn page_stacks(es: Seq<(String, Doc)>, n: int) -> Map<Seq<char>, u32>
    decreases n,
{
    if n <= 0 {
        Map::empty()
    } else {
        match count_of(es[n - 1].1) {
            Some(c) => page_stacks(es, n - 1).insert(es[n - 1].0@, if c > u32::MAX { u32::MAX } else { c as u32 }),
            None => page_stacks(es, n - 1),
        }
    }
}

/// A loadout node can be read: every piece can, and the class is named.
pub open spec fn page_loadout_ok(d: Doc) -> bool {
    &&& forall|i: int| 0 <= i < gear_docs(d).len() ==> piece_ok(#[trigger] gear_docs(d)[i])
    &&& text_of(field(d, "class"@)) is Some
}

/// An optional field of an optional node.
pub open spec fn sub_field(d: Option<Doc>, key: Seq<char>) -> Option<Doc> {
    match d {
        Some(x) => field(x, key),
        None => None,
    }
}

/// The loadout is the one the page sent: a missing name reads as
/// `loadout`, and lists that are not lists read as empty.
pub open spec fn page_loadout_as(l: Loadout, d: Doc) -> bool {
    let es = entries_of(field(d, "stacks"@));
    &&& l.name@ == match text_of(field(d, "name"@)) {
        Some(s) => s,
        None => "loadout"@,
    }
    &&& l.class@ == text_of(field(d, "class"@))->0
    &&& perk_slugs(l.perks@) == texts_of(field(d, "perks"@))
    &&& skill_slugs(l.skills@) == texts_of(field(d, "skills"@))
    &&& l.gear@.len() == gear_docs(d).len()
    &&& forall|i: int| 0 <= i < gear_docs(d).len() ==> page_piece_as(#[trigger] l.gear@[i], gear_docs(d)[i])
    &&& match (l.weapons.main_hand, text_of(sub_field(field(d, "weapons"@), "mainHand"@))) {
        (Some(a), Some(b)) => a@ == b,
        (None, None) => true,
        _ => false,
    }
    &&& l.stacks.wf()
    &&& l.stacks.view() == page_stacks(es, es.len() as int)
    &&& perk_slugs(l.party.perks@) == texts_of(sub_field(field(d, "party"@), "perks"@))
    &&& skill_slugs(l.party.skills@) == texts_of(sub_field(field(d, "party"@), "skills"@))
}

/// A message naming what was wrong.
fn message(before: &str, name: &str, after: &str) -> (r: String)
    ensures
        r@ == before@ + name@ + after@,
{
    let mut m: Vec<char> = Vec::new();
    append_chars(&mut m, before);
    append_chars(&mut m, name);
    append_chars(&mut m, after);
    string_of(&m)
}

/// Reads one gear piece.
fn page_piece(p: &Doc) -> (r: Result<GearPiece, String>)
    ensures
        r is Ok <==> piece_ok(*p),
        r is Ok ==> page_piece_as(r->Ok_0, *p),
{
    let slot_name_text = match text_in(field_of(p, "slot")) {
        Some(s) => s,
        None => return Err(owned("a gear piece needs a slot")),
    };
    let slot = match Slot::parse(slot_name_text.as_str()) {
        Some(s) => s,
        None => return Err(message("unknown slot: ", slot_name_text.as_str(), "")),
    };
    let no_entries: Vec<(String, Doc)> = Vec::new();
    let at: &Vec<(String, Doc)> = match field_of(p, "attributes") {
        Some(Doc::Table(t)) => t,
        _ => &no_entries,
    };
    assert(at@ == entries_of(field(*p, "attributes"@)));
    let mut rolls: Vec<Roll> = Vec::new();
    let mut k: usize = 0;
    while k < at.len()
        invariant
            k <= at@.len(),
            at@ == entries_of(field(*p, "attributes"@)),
            rolls@.len() == k,
            forall|j: int| 0 <= j < k ==> points_entry_ok(#[trigger] at@[j]),
            forall|j: int| 0 <= j < k ==> #[trigger] points_roll_is(rolls@[j], at@[j]),
        decreases at@.len() - k,
    {
        let name = &at[k].0;
        let kind = match AttributeKind::parse(name.as_str()) {
            Some(x) => x,
            None => {
                assert(!points_entry_ok(at@[k as int]));
                return Err(message("unknown attribute: ", name.as_str(), ""));
            },
        };
        let points = match &at[k].1 {
            Doc::Number(s) => match integer_of(s.as_str(), i64::MIN, i64::MAX) {
                Some(v) => v,
                None => {
                    assert(!points_entry_ok(at@[k as int]));
                    return Err(message("", name.as_str(), " must be whole points"));
                },
            },
            _ => {
                assert(!points_entry_ok(at@[k as int]));
                return Err(message("", name.as_str(), " must be whole points"));
            },
        };
        if points < i32::MIN as i64 || points > i32::MAX as i64 {
            assert(!points_entry_ok(at@[k as int]));
            return Err(message("", name.as_str(), " is out of range"));
        }
        let ghost before = rolls@;
        rolls.push(Roll::Attribute(kind, points as i32));
        proof {
            assert forall|j: int| 0 <= j < k + 1 implies #[trigger] points_roll_is(rolls@[j], at@[j]) by {
                if j < k {
                    assert(rolls@[j] == before[j]);
                }
            }
        }
        k = k + 1;
    }
    let ad: &Vec<(String, Doc)> = match field_of(p, "additional") {
        Some(Doc::Table(t)) => t,
        _ => &no_entries,
    };
    assert(ad@ == entries_of(field(*p, "additional"@)));
    let ghost base = rolls@;
    let mut j: usize = 0;
    while j < ad.len()
        invariant
            j <= ad@.len(),
            ad@ == entries_of(field(*p, "additional"@)),
            base.len() == at@.len(),
            rolls@.len() == base.len() + j,
            rolls@.subrange(0, base.len() as int) == base,
            forall|x: int| 0 <= x < j ==> decimal_of((#[trigger] ad@[x]).1) is Some,
            forall|x: int| 0 <= x < j ==> stat_roll_is(rolls@[base.len() + x], #[trigger] ad@[x]),
        decreases ad@.len() - j,
    {
        let x = match decimal(&ad[j].1, ad[j].0.as_str()) {
            Ok(x) => x,
            Err(e) => {
                assert(decimal_of(ad@[j as int].1) is None);
                return Err(e);
            },
        };
        let ghost prev = rolls@;
        rolls.push(Roll::Derived(DerivedStatId::new(ad[j].0.as_str()), x));
        proof {
            assert(rolls@.subrange(0, base.len() as int) =~= prev.subrange(0, base.len() as int));
            assert forall|y: int| 0 <= y < j + 1 implies stat_roll_is(rolls@[base.len() + y], #[trigger] ad@[y]) by {
                if y < j {
                    assert(rolls@[base.len() + y] == prev[base.len() + y]);
                }
            }
        }
        j = j + 1;
    }
    let ghost mid = rolls@;
    match field_of(p, "moveSpeedAdd") {
        Some(m) => {
            let x = decimal(m, "moveSpeedAdd")?;
            rolls.push(Roll::MoveSpeedAdd(x));
        },
        None => {},
    }
    proof {
        assert forall|y: int| 0 <= y < at@.len() implies #[trigger] points_roll_is(rolls@[y], at@[y]) by {
            assert(rolls@[y] == rolls@.subrange(0, base.len() as int)[y]);
            assert(rolls@.subrange(0, base.len() as int) == base);
            assert(base[y] == mid[y]);
        }
        assert forall|y: int| 0 <= y < ad@.len() implies stat_roll_is(rolls@[at@.len() + y], #[trigger] ad@[y]) by {
            assert(rolls@[at@.len() + y] == mid[at@.len() + y]);
        }
    }
    let id = match text_in(field_of(p, "id")) {
        Some(s) => s,
        None => String::new(),
    };
    let g = GearPiece { slot, id: ItemId::new(id.as_str()), rolls };
    Ok(g)
}

/// Reads a loadout node the way the page sends it.
pub fn parse_loadout(node: &Doc) -> (r: Result<Loadout, String>)
    ensures
        r is Ok <==> page_loadout_ok(*node),
        r is Ok ==> page_loadout_as(r->Ok_0, *node),
{
    let no_gear: Vec<Doc> = Vec::new();
    let pieces: &Vec<Doc> = match field_of(node, "gear") {
        Some(Doc::List(items)) => items,
        _ => &no_gear,
    };
    assert(pieces@ == gear_docs(*node));
    let mut gear: Vec<GearPiece> = Vec::new();
    let mut i: usize = 0;
    while i < pieces.len()
        invariant
            i <= pieces@.len(),
            gear@.len() == i,
            pieces@ == gear_docs(*node),
            forall|j: int| 0 <= j < i ==> piece_ok(#[trigger] pieces@[j]),
            forall|j: int| 0 <= j < i ==> page_piece_as(#[trigger] gear@[j], pieces@[j]),
        decreases pieces@.len() - i,
    {
        let g = match page_piece(&pieces[i]) {
            Ok(g) => g,
            Err(e) => {
                assert(!piece_ok(gear_docs(*node)[i as int]));
                return Err(e);
            },
        };
        let ghost before = gear@;
        gear.push(g);
        proof {
            assert forall|j: int| 0 <= j < i + 1 implies page_piece_as(#[trigger] gear@[j], pieces@[j]) by {
                if j < i {
                    assert(gear@[j] == before[j]);
                }
            }
        }
        i = i + 1;
    }
    let no_entries: Vec<(String, Doc)> = Vec::new();
    let es: &Vec<(String, Doc)> = match field_of(node, "stacks") {
        Some(Doc::Table(t)) => t,
        _ => &no_entries,
    };
    assert(es@ == entries_of(field(*node, "stacks"@)));
    let mut stacks: IdMap<String, u32> = IdMap::new();
    let mut k: usize = 0;
    while k < es.len()
        invariant
            k <= es@.len(),
            stacks.wf(),
            stacks.view() == page_stacks(es@, k as int),
        decreases es@.len() - k,
    {
        match &es[k].1 {
            Doc::Number(s) => match count_of_text(s.as_str()) {
                Some(n) => {
                    let c: u32 = if n > u32::MAX as u64 { u32::MAX } else { n as u32 };
                    stacks.insert(owned(es[k].0.as_str()), c);
                },
                None => {},
            },
            _ => {},
        }
        k = k + 1;
    }
    let name = match text_in(field_of(node, "name")) {
        Some(s) => s,
        None => owned("loadout"),
    };
    let class = match text_in(field_of(node, "class")) {
        Some(s) => s,
        None => return Err(owned("loadout needs a class")),
    };
    let main_hand = match field_of(node, "weapons") {
        Some(w) => match text_in(field_of(w, "mainHand")) {
            Some(m) => Some(ItemId::new(m.as_str())),
            None => None,
        },
        None => None,
    };
    let party = field_of(node, "party");
    let (party_perks, party_skills) = match party {
        Some(p) => (texts(field_of(p, "perks")), texts(field_of(p, "skills"))),
        None => (Vec::new(), Vec::new()),
    };
    let l = Loadout {
        name,
        class: ClassId::new(class.as_str()),
        perks: perk_ids(&texts(field_of(node, "perks"))),
        skills: skill_ids(&texts(field_of(node, "skills"))),
        gear,
        weapons: Weapons { main_hand },
        stacks,
        party: PartyBuffs { skills: skill_ids(&party_skills), perks: perk_ids(&party_perks) },
    };
    proof {
        assert(l.name@ == match text_of(field(*node, "name"@)) {
            Some(s) => s,
            None => "loadout"@,
        });
        assert(perk_slugs(l.perks@) == texts_of(field(*node, "perks"@)));
        assert(l.stacks.view() == page_stacks(es@, es@.len() as int));
        assert(perk_slugs(l.party.perks@) == texts_of(sub_field(field(*node, "party"@), "perks"@)));
    }
    Ok(l)
}

/// Perk ids for slugs, in order.
fn perk_ids(v: &Vec<String>) -> (r: Vec<PerkId>)
    ensures
        perk_slugs(r@) == crate::text::string_views(v@),
{
    let mut out: Vec<PerkId> = Vec::new();
    let mut i: usize = 0;
    while i < v.len()
        invariant
            i <= v@.len(),
            perk_slugs(out@) == crate::text::string_views(v@.subrange(0, i as int)),
        decreases v@.len() - i,
    {
        let ghost before = out@;
        out.push(PerkId::new(v[i].as_str()));
        proof {
            assert(perk_slugs(out@) =~= perk_slugs(before).push(v@[i as int]@));
            assert(crate::text::string_views(v@.subrange(0, i + 1)) =~= crate::text::string_views(v@.subrange(0, i as int)).push(v@[i as int]@));
        }
        i = i + 1;
    }
    proof {
        assert(v@.subrange(0, v@.len() as int) =~= v@);
    }
    out
}

/// Skill ids for slugs, in order.
fn skill_ids(v: &Vec<String>) -> (r: Vec<SkillId>)
    ensures
        skill_slugs(r@) == crate::text::string_views(v@),
{
    let mut out: Vec<SkillId> = Vec::new();
    let mut i: usize = 0;
    while i < v.len()
        invariant
            i <= v@.len(),
            skill_slugs(out@) == crate::text::string_views(v@.subrange(0, i as int)),
        decreases v@.len() - i,
    {
        let ghost before = out@;
        out.push(SkillId::new(v[i].as_str()));
        proof {
            assert(skill_slugs(out@) =~= skill_slugs(before).push(v@[i as int]@));
            assert(crate::text::string_views(v@.subrange(0, i + 1)) =~= crate::text::string_views(v@.subrange(0, i as int)).push(v@[i as int]@));
        }
        i = i + 1;
    }
    proof {
        assert(v@.subrange(0, v@.len() as int) =~= v@);
    }
    out
}

// ── A situation ─────────────────────────────────────────────────────────

/// A field of one section of a situation node.
pub open spec fn section_field(d: Doc, section: Seq<char>, key: Seq<char>) -> Option<Doc> {
    sub_field(field(d, section), key)
}

/// What a decimal field of the page says: absent or blank is `Some(None)`,
/// an exact decimal string is `Some(Some(v))`, and anything else is refused
/// (`None`).
pub open spec fn page_decimal(raw: Option<Doc>) -> Option<Option<int>> {
    match raw {
        None => Some(None),
        Some(Doc::Str(s)) => if blank(s@) {
            Some(None)
        } else {
            match parse_spec(s@) {
                Ok(v) => Some(Some(v)),
                Err(_) => None,
            }
        },
        Some(_) => None,
    }
}

/// A decimal field of a section.
pub open spec fn page_value(d: Doc, section: Seq<char>, key: Seq<char>) -> Option<Option<int>> {
    page_decimal(section_field(d, section, key))
}

/// The skill the page names; an empty name names none.
pub open spec fn page_skill(d: Doc) -> Option<Seq<char>> {
    match text_of(field(d, "skill"@)) {
        Some(s) => if s.len() > 0 { Some(s) } else { None },
        None => None,
    }
}

/// The named skill's strike profile, when the dataset has one.
pub open spec fn page_profile(d: Doc, data: InMemoryDataset) -> Option<StrikeProfile> {
    match page_skill(d) {
        Some(id) => if data.skills().contains_key(id) { data.skills()[id].strike } else { None },
        None => None,
    }
}

/// The debuffs the page lists, as entries.
pub open spec fn page_mods(d: Doc) -> Seq<(String, Doc)> {
    entries_of(section_field(d, "context"@, "itemArmorBonusMods"@))
}

/// A situation node can be read against a dataset: a named skill exists
/// and attacks, the type is known, and every number is an exact decimal
/// string (blank meaning absent, except in the debuffs).
pub open spec fn page_situation_ok(d: Doc, data: InMemoryDataset) -> bool {
    &&& (page_skill(d) matches Some(id) ==> data.skills().contains_key(id) && data.skills()[id].strike is Some)
    &&& (text_of(field(d, "type"@)) matches Some(t) ==> t == "magic"@ || t == "physical"@)
    &&& page_value(d, "strike"@, "base"@) is Some
    &&& page_value(d, "strike"@, "scaling"@) is Some
    &&& page_value(d, "strike"@, "flatBonus"@) is Some
    &&& page_value(d, "strike"@, "penetration"@) is Some
    &&& page_value(d, "strike"@, "trueDamage"@) is Some
    &&& forall|i: int| 0 <= i < page_mods(d).len() ==> decimal_of((#[trigger] page_mods(d)[i]).1) is Some
    &&& page_value(d, "context"@, "powerBonusAdjust"@) is Some
    &&& page_value(d, "context"@, "pdrMod"@) is Some
    &&& page_value(d, "context"@, "hitLocationBonus"@) is Some
}

/// A value as the page layers it: the page's, verified; else the skill's;
/// else the fallback.
pub open spec fn page_layered(v: Option<Option<int>>, skill: Option<Confidence<Fixed>>, fallback: (int, ConfidenceLevel)) -> (int, ConfidenceLevel) {
    match v {
        Some(Some(x)) => (x, ConfidenceLevel::Verified),
        _ => match skill {
            Some(c) => (c.spec_value()@, c.spec_level()),
            None => fallback,
        },
    }
}

/// The skill profile's base damage.
pub open spec fn skill_base(p: Option<StrikeProfile>) -> Option<Confidence<Fixed>> {
    match p { Some(q) => q.base, None => None }
}

/// The skill profile's scaling.
pub open spec fn skill_scaling(p: Option<StrikeProfile>) -> Option<Confidence<Fixed>> {
    match p { Some(q) => q.scaling, None => None }
}

/// The skill profile's flat bonus.
pub open spec fn skill_flat(p: Option<StrikeProfile>) -> Option<Confidence<Fixed>> {
    match p { Some(q) => q.flat_bonus, None => None }
}

/// The skill profile's penetration.
pub open spec fn skill_pen(p: Option<StrikeProfile>) -> Option<Confidence<Fixed>> {
    match p { Some(q) => q.penetration, None => None }
}

/// The skill profile's true damage.
pub open spec fn skill_true(p: Option<StrikeProfile>) -> Option<Confidence<Fixed>> {
    match p { Some(q) => q.true_damage, None => None }
}

/// The debuffs as a map from ability to value, later entries winning.
pub open spec fn page_mods_map(es: Seq<(String, Doc)>) -> Map<Seq<char>, int>
    decreases es.len(),
{
    if es.len() == 0 {
        Map::empty()
    } else {
        page_mods_map(es.drop_last()).insert(es.last().0@, decimal_of(es.last().1)->0)
    }
}

/// The debuff table holds the page's debuffs, every one verified.
pub open spec fn page_mods_as(m: IdMap<AbilityId, Confidence<Fixed>>, es: Seq<(String, Doc)>) -> bool {
    &&& m.wf()
    &&& m.view().dom() == page_mods_map(es).dom()
    &&& forall|k: Seq<char>| #[trigger] m.view().contains_key(k) ==> m.view()[k].spec_value()@ == page_mods_map(es)[k]
        && m.view()[k].spec_level() == ConfidenceLevel::Verified
}

/// The strike the page's situation describes, layered over the weapon's
/// plain swing.
pub open spec fn page_strike_as(st: Strike, d: Doc, weapon_id: ItemId, weapon: WeaponProfile, data: InMemoryDataset) -> bool {
    let prof = page_profile(d, data);
    &&& st.damage_type == match text_of(field(d, "type"@)) {
        Some(t) => if t == "magic"@ { DamageType::Magic } else { DamageType::Physical },
        None => if prof matches Some(p) && opt_view(p.damage_type) == Some("magic"@) { DamageType::Magic } else { DamageType::Physical },
    }
    &&& same(st.base.spec_value()@, st.base.spec_level(), page_layered(page_value(d, "strike"@, "base"@),
        skill_base(prof), (weapon.base_damage.spec_value()@, weapon.base_damage.spec_level())))
    &&& same(st.scaling.spec_value()@, st.scaling.spec_level(), page_layered(page_value(d, "strike"@, "scaling"@),
        skill_scaling(prof), (hundred(), ConfidenceLevel::Verified)))
    &&& same(st.flat_bonus.spec_value()@, st.flat_bonus.spec_level(), page_layered(page_value(d, "strike"@, "flatBonus"@),
        skill_flat(prof), (0, ConfidenceLevel::Verified)))
    &&& same(st.penetration.spec_value()@, st.penetration.spec_level(), page_layered(page_value(d, "strike"@, "penetration"@),
        skill_pen(prof), (weapon.armor_pen.spec_value()@, weapon.armor_pen.spec_level())))
    &&& same(st.true_damage.spec_value()@, st.true_damage.spec_level(), page_layered(page_value(d, "strike"@, "trueDamage"@),
        skill_true(prof), (0, ConfidenceLevel::Verified)))
    &&& st.weapon matches Some(w) && w@ == weapon_id@
    &&& st.pinned == (page_value(d, "strike"@, "scaling"@) matches Some(Some(_)) || page_value(d, "strike"@, "base"@) matches Some(Some(_)))
    &&& st.tags@ == if weapon.combo@.len() > 0 { seq![weapon.combo@[0].kind] } else { Seq::<DamageTag>::empty() }
}

/// The circumstances the page's situation describes.
pub open spec fn page_context_as(c: ExchangeContext, d: Doc) -> bool {
    &&& same(c.power_bonus_adjust.spec_value()@, c.power_bonus_adjust.spec_level(),
        page_layered(page_value(d, "context"@, "powerBonusAdjust"@), None, (0, ConfidenceLevel::Verified)))
    &&& same(c.pdr_mod.spec_value()@, c.pdr_mod.spec_level(),
        page_layered(page_value(d, "context"@, "pdrMod"@), None, (0, ConfidenceLevel::Verified)))
    &&& same(c.hit_location_bonus.spec_value()@, c.hit_location_bonus.spec_level(),
        page_layered(page_value(d, "context"@, "hitLocationBonus"@), None, (0, ConfidenceLevel::Verified)))
    &&& page_mods_as(c.item_armor_bonus_mods, page_mods(d))
}

/// The name of the skill the strike came from, when one was named.
pub open spec fn page_named(d: Doc, data: InMemoryDataset) -> Option<Seq<char>> {
    match page_skill(d) {
        Some(id) => Some(data.skills()[id].name@),
        None => None,
    }
}

/// An optional borrowed node, as a node.
pub open spec fn opt_doc(d: Option<&Doc>) -> Option<Doc> {
    match d {
        Some(x) => Some(*x),
        None => None,
    }
}

/// A field of a section.
fn section_of<'a>(d: &'a Doc, section: &str, key: &str) -> (r: Option<&'a Doc>)
    ensures
        opt_doc(r) == section_field(*d, section@, key@),
{
    match field_of(d, section) {
        Some(s) => field_of(s, key),
        None => None,
    }
}

/// The name of a parse error, as `{:?}` writes it.
pub open spec fn error_name(e: ParseFixedError) -> Seq<char> {
    match e {
        ParseFixedError::Malformed => "Malformed"@,
        ParseFixedError::TooPrecise => "TooPrecise"@,
        ParseFixedError::OutOfRange => "OutOfRange"@,
    }
}

/// A refusal naming a field and its text.
fn bad_text(key: &str, text: &str, e: ParseFixedError) -> (r: String)
    ensures
        r@ == key@ + " \""@ + text@ + "\": "@ + error_name(e),
{
    let mut m: Vec<char> = Vec::new();
    append_chars(&mut m, key);
    append_chars(&mut m, " \"");
    append_chars(&mut m, text);
    append_chars(&mut m, "\": ");
    append_chars(&mut m, match e {
        ParseFixedError::Malformed => "Malformed",
        ParseFixedError::TooPrecise => "TooPrecise",
        ParseFixedError::OutOfRange => "OutOfRange",
    });
    string_of(&m)
}

/// Reads one decimal field of the page.
fn page_fixed(raw: Option<&Doc>, key: &str) -> (r: Result<Option<Fixed>, String>)
    ensures
        r is Ok <==> page_decimal(opt_doc(raw)) is Some,
        r matches Ok(v) ==> match v {
            Some(x) => page_decimal(opt_doc(raw)) == Some(Some(x@)),
            None => page_decimal(opt_doc(raw)) == Some(None::<int>),
        },
{
    let text = match raw {
        None => return Ok(None),
        Some(Doc::Str(s)) => s,
        Some(_) => return Err(message("", key, " must be a decimal string, not a number")),
    };
    if is_blank(text.as_str()) {
        return Ok(None);
    }
    match Fixed::parse_decimal(text.as_str()) {
        Ok(x) => Ok(Some(x)),
        Err(e) => Err(bad_text(key, text.as_str(), e)),
    }
}

/// A value layered by the page over the current one.
fn over(v: Option<Fixed>, current: Confidence<Fixed>) -> (r: Confidence<Fixed>)
    ensures
        match v {
            Some(x) => r.spec_value() == x && r.spec_level() == ConfidenceLevel::Verified,
            None => r == current,
        },
{
    match v {
        Some(x) => Confidence::Verified(x),
        None => current,
    }
}

/// Reads the debuffs the page lists: each ability's value, verified.
fn page_mods_from(es: &Vec<(String, Doc)>) -> (r: Result<IdMap<AbilityId, Confidence<Fixed>>, String>)
    ensures
        r is Ok <==> forall|i: int| 0 <= i < es@.len() ==> decimal_of((#[trigger] es@[i]).1) is Some,
        r is Ok ==> page_mods_as(r->Ok_0, es@),
{
    let mut m: IdMap<AbilityId, Confidence<Fixed>> = IdMap::new();
    let mut i: usize = 0;
    proof {
        assert(es@.subrange(0, 0) =~= Seq::<(String, Doc)>::empty());
        assert(m.view().dom() =~= page_mods_map(es@.subrange(0, 0)).dom());
    }
    while i < es.len()
        invariant
            i <= es@.len(),
            page_mods_as(m, es@.subrange(0, i as int)),
            forall|j: int| 0 <= j < i ==> decimal_of((#[trigger] es@[j]).1) is Some,
        decreases es@.len() - i,
    {
        let text = match &es[i].1 {
            Doc::Str(s) => s,
            _ => return Err(message("", es[i].0.as_str(), " must be a decimal string")),
        };
        let v = match Fixed::parse_decimal(text.as_str()) {
            Ok(v) => v,
            Err(e) => return Err(bad_text(es[i].0.as_str(), text.as_str(), e)),
        };
        let ghost before = m;
        m.insert(AbilityId::new(es[i].0.as_str()), Confidence::Verified(v));
        proof {
            let pre = es@.subrange(0, i as int);
            let next = es@.subrange(0, i + 1);
            assert(next.drop_last() =~= pre);
            assert(next.last() == es@[i as int]);
            assert(m.view().dom() =~= page_mods_map(next).dom());
        }
        i = i + 1;
    }
    proof {
        assert(es@.subrange(0, es@.len() as int) =~= es@);
    }
    Ok(m)
}

/// The attack and circumstances a situation node from the page describes,
/// and the name of the skill it came from. Three layers, as in the file
/// form: the weapon is what you hold, the skill is what the game says it
/// does, and a field the page fills in is what you asked.
pub fn build_situation(node: &Doc, weapon_id: &ItemId, weapon: &WeaponProfile, data: &InMemoryDataset)
    -> (r: Result<(Strike, ExchangeContext, Option<String>), String>)
    requires
        data.wf(),
    ensures
        r is Ok <==> page_situation_ok(*node, *data),
        r matches Ok(parts) ==> page_strike_as(parts.0, *node, *weapon_id, *weapon, *data)
            && page_context_as(parts.1, *node)
            && opt_view(parts.2) == page_named(*node, *data),
{
    let basic = Strike::basic_swing(weapon_id, weapon);
    let mut base = basic.base.with_value(basic.base.value().value());
    let mut scaling = basic.scaling.with_value(basic.scaling.value().value());
    let mut flat = basic.flat_bonus.with_value(basic.flat_bonus.value().value());
    let mut pen = basic.penetration.with_value(basic.penetration.value().value());
    let mut true_damage = basic.true_damage.with_value(basic.true_damage.value().value());
    let mut damage_type = basic.damage_type;
    let mut named: Option<String> = None;
    let skill_name = match text_in(field_of(node, "skill")) {
        Some(s) => if chars_of(s.as_str()).len() > 0 { Some(s) } else { None },
        None => None,
    };
    if let Some(id) = &skill_name {
        let skill = match data.skill(&SkillId::new(id.as_str())) {
            Some(sk) => sk,
            None => return Err(message("no such skill: ", id.as_str(), "")),
        };
        let profile = match &skill.strike {
            Some(p) => p,
            None => return Err(message("", skill.name.as_str(), " is not an attack")),
        };
        if let Some(v) = &profile.base {
            base = v.copied();
        }
        if let Some(v) = &profile.scaling {
            scaling = v.copied();
        }
        if let Some(v) = &profile.flat_bonus {
            flat = v.copied();
        }
        if let Some(v) = &profile.penetration {
            pen = v.copied();
        }
        if let Some(v) = &profile.true_damage {
            true_damage = v.copied();
        }
        if let Some(t) = &profile.damage_type {
            if str_eq(t.as_str(), "magic") {
                damage_type = DamageType::Magic;
            }
        }
        named = Some(owned(skill.name.as_str()));
    }
    let scaling_v = page_fixed(section_of(node, "strike", "scaling"), "scaling")?;
    let base_v = page_fixed(section_of(node, "strike", "base"), "base")?;
    let damage_type = match text_in(field_of(node, "type")) {
        Some(t) => if str_eq(t.as_str(), "magic") {
            DamageType::Magic
        } else if str_eq(t.as_str(), "physical") {
            DamageType::Physical
        } else {
            return Err(message("unknown damage type: ", t.as_str(), ""));
        },
        None => damage_type,
    };
    let flat_v = page_fixed(section_of(node, "strike", "flatBonus"), "flatBonus")?;
    let pen_v = page_fixed(section_of(node, "strike", "penetration"), "penetration")?;
    let true_v = page_fixed(section_of(node, "strike", "trueDamage"), "trueDamage")?;
    let no_entries: Vec<(String, Doc)> = Vec::new();
    let es: &Vec<(String, Doc)> = match section_of(node, "context", "itemArmorBonusMods") {
        Some(Doc::Table(t)) => t,
        _ => &no_entries,
    };
    assert(es@ == page_mods(*node));
    let mods = page_mods_from(es)?;
    let power_v = page_fixed(section_of(node, "context", "powerBonusAdjust"), "powerBonusAdjust")?;
    let pdr_v = page_fixed(section_of(node, "context", "pdrMod"), "pdrMod")?;
    let hit_v = page_fixed(section_of(node, "context", "hitLocationBonus"), "hitLocationBonus")?;
    let pinned = scaling_v.is_some() || base_v.is_some();
    let base = over(base_v, base);
    let scaling = over(scaling_v, scaling);
    let flat = over(flat_v, flat);
    let pen = over(pen_v, pen);
    let true_damage = over(true_v, true_damage);
    let power = over(power_v, Confidence::Verified(Fixed::zero()));
    let pdr_mod = over(pdr_v, Confidence::Verified(Fixed::zero()));
    let hit = over(hit_v, Confidence::Verified(Fixed::zero()));
    let strike = Strike {
        damage_type,
        base: base.with_value(Damage::new(*base.value())),
        scaling: scaling.with_value(ScalingCoefficient::new(*scaling.value())),
        flat_bonus: flat.with_value(Damage::new(*flat.value())),
        tags: basic.tags,
        pinned,
        weapon: basic.weapon,
        penetration: pen.with_value(ArmorPen::new(*pen.value())),
        true_damage: true_damage.with_value(TrueDamage::new(*true_damage.value())),
    };
    let context = ExchangeContext {
        power_bonus_adjust: power,
        pdr_mod: pdr_mod.with_value(PdrMod::new(*pdr_mod.value())),
        item_armor_bonus_mods: mods,
        hit_location_bonus: hit,
    };
    Ok((strike, context, named))
}

} // verus!
