//! The loadout file format.
//!
//! TOML, human-writable, and **version-agnostic**: a loadout names entity
//! ids only and never pins a dataset version, so the same file can resolve
//! against two versions to say what a patch did to it.
//!
//! ```toml
//! name  = "rogue-lethal-artillery"
//! class = "class.rogue"
//! perks  = ["perk.rogue.jokester"]
//!
//! [[gear]]
//! slot = "legs"
//! id = "item.dark_leather_leggings"
//! attributes = { dexterity = 4 }
//! move_speed_add = "2"
//! additional = { "derived.armor_rating" = "5" }
//!
//! [weapons]
//! main_hand = "item.flanged_mace"
//!
//! [stacks]
//! "skill.fighter.sprint" = 3
//!
//! [party]
//! skills = ["skill.fighter.fortified_ground"]
//! ```
//!
//! Party buffs are id lists, not booleans; only the main hand is accepted,
//! and rarity and roll levels are refused, because accepting a field that
//! changes nothing would be a silent lie.

use vstd::prelude::*;

use crate::doc::{
    Doc, get, int_entries, opt_table_with_strings, str_entries, str_pair_views, string_pairs, int_pair_views, integer_pairs, integer_pairs_of, keys_within, lookup, narrow_points, opt_table,
    opt_table_with_integers, opt_text, opt_text_list, opt_view, parse_toml, points_views, strs, table_field, text_field,
    text_list_field, toml_doc, unknown_key,
};
use crate::fixed::{Fixed, ParseFixedError, parse_spec, push_decimal};
use crate::ids::{ClassId, DerivedStatId, ItemId, PerkId, SkillId};
use crate::loadout::{GearPiece, Loadout, PartyBuffs, Roll, Slot, Weapons, lemma_names_slot_unique, names_slot, slot_capacity, slot_name};
use crate::schema::{AttributeKind, attribute_name, names_attribute};
use crate::table::IdMap;
use crate::text::{append_chars, owned, str_eq, string_of, string_views};

verus! {

/// Why a loadout file could not be read.
#[derive(Debug)]
pub enum LoadoutError {
    /// Not valid TOML, or a field the format does not define or types
    /// differently.
    Syntax(String),
    /// Structurally valid but semantically wrong.
    Invalid(String),
}

impl LoadoutError {
    /// The message a reader sees.
    pub fn to_string(&self) -> (r: String)
        ensures
            r@ == match *self {
                LoadoutError::Syntax(m) => m@,
                LoadoutError::Invalid(m) => m@,
            },
    {
        match self {
            LoadoutError::Syntax(m) => owned(m.as_str()),
            LoadoutError::Invalid(m) => owned(m.as_str()),
        }
    }
}

/// One `[[gear]]` entry as the file writes it.
#[derive(Debug)]
pub struct GearFields {
    /// Where the piece is worn.
    pub slot: String,
    /// The item.
    pub id: String,
    /// Whole attribute points rolled on this copy, by name, in key order.
    pub attributes: Vec<(String, i32)>,
    /// Flat move speed rolled on this copy, as an exact decimal string.
    pub move_speed_add: Option<String>,
    /// Derived stats rolled onto this copy, by stat id, in key order.
    pub additional: Vec<(String, String)>,
}

/// A loadout file's fields.
#[derive(Debug)]
pub struct LoadoutFile {
    /// The loadout's name.
    pub name: String,
    /// The class id.
    pub class: String,
    /// Slotted perk ids.
    pub perks: Vec<String>,
    /// Slotted skill ids.
    pub skills: Vec<String>,
    /// Equipped pieces.
    pub gear: Vec<GearFields>,
    /// The main hand's item id.
    pub main_hand: Option<String>,
    /// Active stacks per stacking source, in key order.
    pub stacks: Vec<(String, u32)>,
    /// Party members' perks.
    pub party_perks: Vec<String>,
    /// Party members' skills.
    pub party_skills: Vec<String>,
}

// ── The shape of the file ───────────────────────────────────────────────

/// The keys of the top level.
pub open spec fn loadout_keys() -> Seq<Seq<char>> {
    seq!["name"@, "class"@, "perks"@, "skills"@, "gear"@, "weapons"@, "stacks"@, "party"@]
}

/// The keys of a `[[gear]]` entry.
pub open spec fn gear_keys() -> Seq<Seq<char>> {
    seq!["slot"@, "id"@, "attributes"@, "move_speed_add"@, "additional"@]
}





/// Whether a document is a `[[gear]]` entry.
pub open spec fn gear_fits(d: Doc) -> bool {
    &&& d is Table
    &&& keys_within(d->Table_0@, gear_keys())
    &&& opt_text(lookup(d->Table_0@, "slot"@)) matches Some(Some(_))
    &&& opt_text(lookup(d->Table_0@, "id"@)) matches Some(Some(_))
    &&& opt_table_with_integers(lookup(d->Table_0@, "attributes"@), i32::MIN as int, i32::MAX as int)
    &&& opt_text(lookup(d->Table_0@, "move_speed_add"@)) is Some
    &&& opt_table_with_strings(lookup(d->Table_0@, "additional"@))
}








/// Pairs of a string and a count as texts and numbers.
pub open spec fn count_views(p: Seq<(String, u32)>) -> Seq<(Seq<char>, int)> {
    p.map_values(|e: (String, u32)| (e.0@, e.1 as int))
}


/// A gear entry's fields, as read from a fitting document.
pub open spec fn gear_read_from(g: GearFields, d: Doc) -> bool {
    let t = d->Table_0@;
    &&& Some(g.slot@) == opt_text(lookup(t, "slot"@))->0
    &&& Some(g.id@) == opt_text(lookup(t, "id"@))->0
    &&& points_views(g.attributes@) == int_entries(lookup(t, "attributes"@))
    &&& opt_view(g.move_speed_add) == opt_text(lookup(t, "move_speed_add"@))->0
    &&& str_pair_views(g.additional@) == str_entries(lookup(t, "additional"@))
}

/// The documents of an optional list, empty when absent.
pub open spec fn list_items(d: Option<Doc>) -> Option<Seq<Doc>> {
    match d {
        None => Some(Seq::empty()),
        Some(Doc::Null) => Some(Seq::empty()),
        Some(Doc::List(items)) => Some(items@),
        _ => None,
    }
}

/// An optional sub-table's keys are allowed and its named text lists are
/// lists of texts.
pub open spec fn party_fits(d: Option<Doc>) -> bool {
    match opt_table(d) {
        None => false,
        Some(None) => true,
        Some(Some(t)) => keys_within(t, seq!["perks"@, "skills"@]) && opt_text_list(lookup(t, "perks"@)) is Some
            && opt_text_list(lookup(t, "skills"@)) is Some,
    }
}

/// `[weapons]` allows only the main hand, as a text.
pub open spec fn weapons_fit(d: Option<Doc>) -> bool {
    match opt_table(d) {
        None => false,
        Some(None) => true,
        Some(Some(t)) => keys_within(t, seq!["main_hand"@]) && opt_text(lookup(t, "main_hand"@)) is Some,
    }
}

/// A text list of an optional sub-table, empty when absent.
pub open spec fn sub_list(d: Option<Doc>, key: Seq<char>) -> Seq<Seq<char>> {
    match opt_table(d) {
        Some(Some(t)) => opt_text_list(lookup(t, key))->0,
        _ => Seq::empty(),
    }
}

/// Whether a document is a loadout file.
pub open spec fn loadout_fits(d: Doc) -> bool {
    let t = d->Table_0@;
    &&& d is Table
    &&& keys_within(t, loadout_keys())
    &&& opt_text(lookup(t, "name"@)) matches Some(Some(_))
    &&& opt_text(lookup(t, "class"@)) matches Some(Some(_))
    &&& opt_text_list(lookup(t, "perks"@)) is Some
    &&& opt_text_list(lookup(t, "skills"@)) is Some
    &&& list_items(lookup(t, "gear"@)) is Some
    &&& forall|i: int| 0 <= i < list_items(lookup(t, "gear"@))->0.len() ==> gear_fits(#[trigger] list_items(lookup(t, "gear"@))->0[i])
    &&& weapons_fit(lookup(t, "weapons"@))
    &&& opt_table_with_integers(lookup(t, "stacks"@), 0, u32::MAX as int)
    &&& party_fits(lookup(t, "party"@))
}

/// A loadout file's fields, as read from a fitting document.
pub open spec fn loadout_read_from(f: LoadoutFile, d: Doc) -> bool {
    let t = d->Table_0@;
    let gear = list_items(lookup(t, "gear"@))->0;
    let w = lookup(t, "weapons"@);
    &&& Some(f.name@) == opt_text(lookup(t, "name"@))->0
    &&& Some(f.class@) == opt_text(lookup(t, "class"@))->0
    &&& string_views(f.perks@) == opt_text_list(lookup(t, "perks"@))->0
    &&& string_views(f.skills@) == opt_text_list(lookup(t, "skills"@))->0
    &&& f.gear@.len() == gear.len()
    &&& forall|i: int| 0 <= i < gear.len() ==> gear_read_from(#[trigger] f.gear@[i], gear[i])
    &&& opt_view(f.main_hand) == match opt_table(w) {
        Some(Some(wt)) => opt_text(lookup(wt, "main_hand"@))->0,
        _ => None,
    }
    &&& count_views(f.stacks@) == int_entries(lookup(t, "stacks"@))
    &&& string_views(f.party_perks@) == sub_list(lookup(t, "party"@), "perks"@)
    &&& string_views(f.party_skills@) == sub_list(lookup(t, "party"@), "skills"@)
}

// ── Typed reads ─────────────────────────────────────────────────────────

/// An unknown-field message.
fn unknown_field(k: &str) -> (r: String)
    ensures
        r@ == "unknown field `"@ + k@ + "`"@,
{
    let mut m: Vec<char> = Vec::new();
    append_chars(&mut m, "unknown field `");
    append_chars(&mut m, k);
    append_chars(&mut m, "`");
    string_of(&m)
}

/// A wrong-type or missing-field message.
fn wrong_type(k: &str, expected: &str) -> (r: String)
    ensures
        r@ == "invalid or missing `"@ + k@ + "`, expected "@ + expected@,
{
    let mut m: Vec<char> = Vec::new();
    append_chars(&mut m, "invalid or missing `");
    append_chars(&mut m, k);
    append_chars(&mut m, "`, expected ");
    append_chars(&mut m, expected);
    string_of(&m)
}




/// The same pairs with counts.
fn narrow_counts(p: Vec<(String, i64)>) -> (r: Vec<(String, u32)>)
    requires
        forall|j: int| 0 <= j < p@.len() ==> 0 <= (#[trigger] p@[j]).1 <= u32::MAX,
    ensures
        count_views(r@) == int_pair_views(p@),
{
    let mut out: Vec<(String, u32)> = Vec::new();
    let mut i: usize = 0;
    while i < p.len()
        invariant
            i <= p@.len(),
            out@.len() == i,
            forall|j: int| 0 <= j < p@.len() ==> 0 <= (#[trigger] p@[j]).1 <= u32::MAX,
            forall|j: int| 0 <= j < i ==> #[trigger] count_views(out@)[j] == int_pair_views(p@)[j],
        decreases p@.len() - i,
    {
        let ghost before = out@;
        out.push((owned(p[i].0.as_str()), p[i].1 as u32));
        proof {
            assert forall|j: int| 0 <= j < i + 1 implies #[trigger] count_views(out@)[j] == int_pair_views(p@)[j] by {
                if j < i {
                    assert(out@[j] == before[j]);
                    assert(count_views(before)[j] == int_pair_views(p@)[j]);
                }
            }
        }
        i = i + 1;
    }
    proof {
        assert(count_views(out@) =~= int_pair_views(p@));
    }
    out
}

/// Reads one `[[gear]]` entry.
fn decode_gear(d: &Doc) -> (r: Result<GearFields, LoadoutError>)
    ensures
        r is Ok <==> gear_fits(*d),
        r is Ok ==> gear_read_from(r->Ok_0, *d),
        r is Err ==> r->Err_0 is Syntax,
{
    let t = match d {
        Doc::Table(t) => t,
        _ => return Err(LoadoutError::Syntax(wrong_type("gear", "a table"))),
    };
    let keys: [&str; 5] = ["slot", "id", "attributes", "move_speed_add", "additional"];
    proof {
        assert(strs(keys@) =~= gear_keys());
    }
    if let Some(k) = unknown_key(t, &keys) {
        return Err(LoadoutError::Syntax(unknown_field(k.as_str())));
    }
    let slot = match text_field(t, "slot") {
        Some(Some(s)) => s,
        _ => return Err(LoadoutError::Syntax(wrong_type("slot", "a string"))),
    };
    let id = match text_field(t, "id") {
        Some(Some(s)) => s,
        _ => return Err(LoadoutError::Syntax(wrong_type("id", "a string"))),
    };
    let attributes = match table_field(t, "attributes") {
        None => return Err(LoadoutError::Syntax(wrong_type("attributes", "a table"))),
        Some(None) => Vec::new(),
        Some(Some(a)) => match integer_pairs(a, i32::MIN as i64, i32::MAX as i64) {
            Some(p) => narrow_points(p),
            None => return Err(LoadoutError::Syntax(wrong_type("attributes", "whole points"))),
        },
    };
    let move_speed_add = match text_field(t, "move_speed_add") {
        Some(v) => v,
        None => return Err(LoadoutError::Syntax(wrong_type("move_speed_add", "a string"))),
    };
    let additional = match table_field(t, "additional") {
        None => return Err(LoadoutError::Syntax(wrong_type("additional", "a table"))),
        Some(None) => Vec::new(),
        Some(Some(a)) => match string_pairs(a) {
            Some(p) => p,
            None => return Err(LoadoutError::Syntax(wrong_type("additional", "strings"))),
        },
    };
    let g = GearFields { slot, id, attributes, move_speed_add, additional };
    proof {
        assert(points_views(g.attributes@) =~= int_entries(lookup(t@, "attributes"@)));
        assert(str_pair_views(g.additional@) =~= str_entries(lookup(t@, "additional"@)));
    }
    Ok(g)
}

/// Reads a loadout file's fields from its document.
pub fn decode_loadout(d: &Doc) -> (r: Result<LoadoutFile, LoadoutError>)
    ensures
        r is Ok <==> loadout_fits(*d),
        r is Ok ==> loadout_read_from(r->Ok_0, *d),
        r is Err ==> r->Err_0 is Syntax,
{
    let t = match d {
        Doc::Table(t) => t,
        _ => return Err(LoadoutError::Syntax(owned("a loadout is a table"))),
    };
    let top: [&str; 8] = ["name", "class", "perks", "skills", "gear", "weapons", "stacks", "party"];
    proof {
        assert(strs(top@) =~= loadout_keys());
    }
    if let Some(k) = unknown_key(t, &top) {
        return Err(LoadoutError::Syntax(unknown_field(k.as_str())));
    }
    let name = match text_field(t, "name") {
        Some(Some(s)) => s,
        _ => return Err(LoadoutError::Syntax(wrong_type("name", "a string"))),
    };
    let class = match text_field(t, "class") {
        Some(Some(s)) => s,
        _ => return Err(LoadoutError::Syntax(wrong_type("class", "a string"))),
    };
    let perks = match text_list_field(t, "perks") {
        Some(v) => v,
        None => return Err(LoadoutError::Syntax(wrong_type("perks", "a list of strings"))),
    };
    let skills = match text_list_field(t, "skills") {
        Some(v) => v,
        None => return Err(LoadoutError::Syntax(wrong_type("skills", "a list of strings"))),
    };
    let no_gear: Vec<Doc> = Vec::new();
    let items: &Vec<Doc> = match get(t, "gear") {
        None => &no_gear,
        Some(Doc::Null) => &no_gear,
        Some(Doc::List(x)) => x,
        Some(_) => return Err(LoadoutError::Syntax(wrong_type("gear", "a list of tables"))),
    };
    assert(items@ == list_items(lookup(t@, "gear"@))->0);
    let mut gear: Vec<GearFields> = Vec::new();
    let mut i: usize = 0;
    while i < items.len()
        invariant
            i <= items@.len(),
            gear@.len() == i,
            items@ == list_items(lookup(t@, "gear"@))->0,
            *d is Table,
            d->Table_0@ == t@,
            forall|j: int| 0 <= j < i ==> gear_fits(#[trigger] items@[j]),
            forall|j: int| 0 <= j < i ==> gear_read_from(#[trigger] gear@[j], items@[j]),
        decreases items@.len() - i,
    {
        match decode_gear(&items[i]) {
            Ok(g) => {
                gear.push(g);
            },
            Err(e) => {
                proof {
                    let ghost gs = list_items(lookup(d->Table_0@, "gear"@))->0;
                    assert(d->Table_0@ == t@);
                    assert(!gear_fits(gs[i as int]));
                    assert(!loadout_fits(*d));
                }
                return Err(e);
            },
        }
        i = i + 1;
    }
    let main_hand = match table_field(t, "weapons") {
        None => return Err(LoadoutError::Syntax(wrong_type("weapons", "a table"))),
        Some(None) => None,
        Some(Some(w)) => {
            let wk: [&str; 1] = ["main_hand"];
            proof {
                assert(strs(wk@) =~= seq!["main_hand"@]);
            }
            if let Some(k) = unknown_key(w, &wk) {
                return Err(LoadoutError::Syntax(unknown_field(k.as_str())));
            }
            match text_field(w, "main_hand") {
                Some(v) => v,
                None => return Err(LoadoutError::Syntax(wrong_type("main_hand", "a string"))),
            }
        },
    };
    let stacks = match table_field(t, "stacks") {
        None => return Err(LoadoutError::Syntax(wrong_type("stacks", "a table"))),
        Some(None) => Vec::new(),
        Some(Some(a)) => match integer_pairs(a, 0, u32::MAX as i64) {
            Some(p) => narrow_counts(p),
            None => return Err(LoadoutError::Syntax(wrong_type("stacks", "whole counts"))),
        },
    };
    let (party_perks, party_skills) = match table_field(t, "party") {
        None => return Err(LoadoutError::Syntax(wrong_type("party", "a table"))),
        Some(None) => (Vec::new(), Vec::new()),
        Some(Some(p)) => {
            let pk: [&str; 2] = ["perks", "skills"];
            proof {
                assert(strs(pk@) =~= seq!["perks"@, "skills"@]);
            }
            if let Some(k) = unknown_key(p, &pk) {
                return Err(LoadoutError::Syntax(unknown_field(k.as_str())));
            }
            let pp = match text_list_field(p, "perks") {
                Some(v) => v,
                None => return Err(LoadoutError::Syntax(wrong_type("perks", "a list of strings"))),
            };
            let ps = match text_list_field(p, "skills") {
                Some(v) => v,
                None => return Err(LoadoutError::Syntax(wrong_type("skills", "a list of strings"))),
            };
            (pp, ps)
        },
    };
    let f = LoadoutFile { name, class, perks, skills, gear, main_hand, stacks, party_perks, party_skills };
    proof {
        assert(count_views(f.stacks@) =~= int_entries(lookup(t@, "stacks"@)));
        assert(string_views(f.party_perks@) =~= sub_list(lookup(t@, "party"@), "perks"@));
        assert(string_views(f.party_skills@) =~= sub_list(lookup(t@, "party"@), "skills"@));
    }
    Ok(f)
}

// ── The loadout a file describes ───────────────────────────────────────

/// How many of the first `i` pieces are worn in the slot named `name`.
pub open spec fn worn_before(gear: Seq<GearFields>, i: int, s: Slot) -> nat
    decreases i,
{
    if i <= 0 {
        0
    } else {
        worn_before(gear, i - 1, s) + if names_slot(s, gear[i - 1].slot@) { 1nat } else { 0nat }
    }
}

/// Every roll a piece writes reads: known attribute names, exact decimals.
pub open spec fn rolls_ok(g: GearFields) -> bool {
    &&& forall|k: int| 0 <= k < g.attributes@.len() ==> names_attribute((#[trigger] g.attributes@[k]).0@)
    &&& (g.move_speed_add matches Some(m) ==> parse_spec(m@) is Ok)
    &&& forall|k: int| 0 <= k < g.additional@.len() ==> parse_spec((#[trigger] g.additional@[k]).1@) is Ok
}

/// Piece `i` names a slot that still has room for it, and its rolls read.
pub open spec fn piece_ok(gear: Seq<GearFields>, i: int) -> bool {
    &&& exists|s: Slot| #[trigger] names_slot(s, gear[i].slot@) && worn_before(gear, i, s) < slot_capacity(s)
    &&& rolls_ok(gear[i])
}

/// Every piece of a file is in order.
pub open spec fn file_ok(f: LoadoutFile) -> bool {
    forall|i: int| 0 <= i < f.gear@.len() ==> #[trigger] piece_ok(f.gear@, i)
}

/// A roll is the attribute points an entry writes.
pub open spec fn attribute_roll_is(r: Roll, e: (String, i32)) -> bool {
    match r {
        Roll::Attribute(a, p) => attribute_name(a) == e.0@ && p == e.1,
        _ => false,
    }
}

/// A roll is the move speed a text writes.
pub open spec fn speed_roll_is(r: Roll, m: String) -> bool {
    match r {
        Roll::MoveSpeedAdd(x) => x@ == parse_spec(m@)->Ok_0,
        _ => false,
    }
}

/// A roll is the derived stat an entry writes.
pub open spec fn derived_roll_is(r: Roll, e: (String, String)) -> bool {
    match r {
        Roll::Derived(id, x) => id@ == e.0@ && x@ == parse_spec(e.1@)->Ok_0,
        _ => false,
    }
}

/// How many rolls the move speed adds.
pub open spec fn speed_rolls(g: GearFields) -> int {
    if g.move_speed_add is Some { 1 } else { 0 }
}

/// The rolls of a piece, in the file's order: attributes, then move speed,
/// then the additional derived stats.
pub open spec fn rolls_as(rolls: Seq<Roll>, g: GearFields) -> bool {
    let na = g.attributes@.len() as int;
    &&& rolls.len() == na + speed_rolls(g) + g.additional@.len()
    &&& forall|k: int| 0 <= k < na ==> #[trigger] attribute_roll_is(rolls[k], g.attributes@[k])
    &&& (g.move_speed_add matches Some(m) ==> speed_roll_is(rolls[na], m))
    &&& forall|k: int| 0 <= k < g.additional@.len() ==> derived_roll_is(rolls[na + speed_rolls(g) + k], #[trigger] g.additional@[k])
}

/// An equipped piece is the entry that wrote it.
pub open spec fn piece_as(p: GearPiece, g: GearFields) -> bool {
    &&& names_slot(p.slot, g.slot@)
    &&& p.id@ == g.id@
    &&& rolls_as(p.rolls@, g)
}

/// The stacks as a map, later entries winning.
pub open spec fn stack_map(p: Seq<(String, u32)>) -> Map<Seq<char>, u32>
    decreases p.len(),
{
    if p.len() == 0 {
        Map::empty()
    } else {
        stack_map(p.drop_last()).insert(p.last().0@, p.last().1)
    }
}

/// The slugs of perk ids.
pub open spec fn perk_slugs(s: Seq<PerkId>) -> Seq<Seq<char>> {
    s.map_values(|p: PerkId| p@)
}

/// The slugs of skill ids.
pub open spec fn skill_slugs(s: Seq<SkillId>) -> Seq<Seq<char>> {
    s.map_values(|p: SkillId| p@)
}

/// The loadout is the one the file's fields describe.
pub open spec fn loadout_as(l: Loadout, f: LoadoutFile) -> bool {
    &&& l.name@ == f.name@
    &&& l.class@ == f.class@
    &&& perk_slugs(l.perks@) == string_views(f.perks@)
    &&& skill_slugs(l.skills@) == string_views(f.skills@)
    &&& l.gear@.len() == f.gear@.len()
    &&& forall|i: int| 0 <= i < f.gear@.len() ==> piece_as(#[trigger] l.gear@[i], f.gear@[i])
    &&& match (l.weapons.main_hand, f.main_hand) {
        (Some(a), Some(b)) => a@ == b@,
        (None, None) => true,
        _ => false,
    }
    &&& l.stacks.wf()
    &&& l.stacks.view() == stack_map(f.stacks@)
    &&& perk_slugs(l.party.perks@) == string_views(f.party_perks@)
    &&& skill_slugs(l.party.skills@) == string_views(f.party_skills@)
}

/// Perk ids for slugs, in order.
fn perks_of(v: &Vec<String>) -> (r: Vec<PerkId>)
    ensures
        perk_slugs(r@) == string_views(v@),
{
    let mut out: Vec<PerkId> = Vec::new();
    let mut i: usize = 0;
    while i < v.len()
        invariant
            i <= v@.len(),
            perk_slugs(out@) == string_views(v@.subrange(0, i as int)),
        decreases v@.len() - i,
    {
        let ghost before = out@;
        out.push(PerkId::new(v[i].as_str()));
        proof {
            assert(perk_slugs(out@) =~= perk_slugs(before).push(v@[i as int]@));
            assert(string_views(v@.subrange(0, i + 1)) =~= string_views(v@.subrange(0, i as int)).push(v@[i as int]@));
        }
        i = i + 1;
    }
    proof {
        assert(v@.subrange(0, v@.len() as int) =~= v@);
    }
    out
}

/// Skill ids for slugs, in order.
fn skills_of(v: &Vec<String>) -> (r: Vec<SkillId>)
    ensures
        skill_slugs(r@) == string_views(v@),
{
    let mut out: Vec<SkillId> = Vec::new();
    let mut i: usize = 0;
    while i < v.len()
        invariant
            i <= v@.len(),
            skill_slugs(out@) == string_views(v@.subrange(0, i as int)),
        decreases v@.len() - i,
    {
        let ghost before = out@;
        out.push(SkillId::new(v[i].as_str()));
        proof {
            assert(skill_slugs(out@) =~= skill_slugs(before).push(v@[i as int]@));
            assert(string_views(v@.subrange(0, i + 1)) =~= string_views(v@.subrange(0, i as int)).push(v@[i as int]@));
        }
        i = i + 1;
    }
    proof {
        assert(v@.subrange(0, v@.len() as int) =~= v@);
    }
    out
}

/// How many of the first `i` pieces are worn in slot `s`.
fn count_worn(gear: &Vec<GearFields>, i: usize, s: Slot) -> (r: usize)
    requires
        i <= gear@.len(),
    ensures
        r == worn_before(gear@, i as int, s),
        r <= i,
{
    let mut n: usize = 0;
    let mut j: usize = 0;
    while j < i
        invariant
            j <= i <= gear@.len(),
            n == worn_before(gear@, j as int, s),
            n <= j,
        decreases i - j,
    {
        match Slot::from_file_name(gear[j].slot.as_str()) {
            Some(t) => {
                if t == s {
                    n = n + 1;
                } else {
                    proof {
                        if names_slot(s, gear@[j as int].slot@) {
                            lemma_names_slot_unique(s, t, gear@[j as int].slot@);
                        }
                    }
                }
            },
            None => {},
        }
        j = j + 1;
    }
    n
}

/// The stacks, keyed by source.
fn stacks_of(p: &Vec<(String, u32)>) -> (r: IdMap<String, u32>)
    ensures
        r.wf(),
        r.view() == stack_map(p@),
{
    let mut m: IdMap<String, u32> = IdMap::new();
    let mut i: usize = 0;
    proof {
        assert(p@.subrange(0, 0) =~= Seq::<(String, u32)>::empty());
    }
    while i < p.len()
        invariant
            i <= p@.len(),
            m.wf(),
            m.view() == stack_map(p@.subrange(0, i as int)),
        decreases p@.len() - i,
    {
        m.insert(owned(p[i].0.as_str()), p[i].1);
        proof {
            let next = p@.subrange(0, i + 1);
            assert(next.drop_last() =~= p@.subrange(0, i as int));
            assert(next.last() == p@[i as int]);
        }
        i = i + 1;
    }
    proof {
        assert(p@.subrange(0, p@.len() as int) =~= p@);
    }
    m
}

/// A message naming what could not be read.
fn named_message(before: &str, name: &str, after: &str) -> (r: String)
    ensures
        r@ == before@ + name@ + after@,
{
    let mut m: Vec<char> = Vec::new();
    append_chars(&mut m, before);
    append_chars(&mut m, name);
    append_chars(&mut m, after);
    string_of(&m)
}

/// A message for a decimal a piece writes that does not read.
fn decimal_message(id: &str, what: &str, text: &str, e: ParseFixedError) -> (r: String)
    ensures
        r@ == id@ + ": "@ + what@ + " \""@ + text@ + "\": "@ + crate::fixed::parse_error_text(e),
{
    let mut m: Vec<char> = Vec::new();
    append_chars(&mut m, id);
    append_chars(&mut m, ": ");
    append_chars(&mut m, what);
    append_chars(&mut m, " \"");
    append_chars(&mut m, text);
    append_chars(&mut m, "\": ");
    let reason = e.to_string();
    append_chars(&mut m, reason.as_str());
    string_of(&m)
}

/// The message for a slot holding `count` pieces, more than it has room
/// for.
pub open spec fn full_slot_text(count: nat, s: Slot) -> Seq<char> {
    crate::fixed::decimal_digits(count) + " pieces in the "@ + slot_name(s) + " slot, which holds "@
        + crate::fixed::decimal_digits(crate::loadout::slot_capacity(s))
}

/// Why a file's pieces were refused with the message `m`: the first piece
/// out of order names no slot, and `m` names what it wrote; or its slot is
/// full, and `m` says how many pieces that makes and how many the slot
/// holds; or its rolls do not read.
pub open spec fn refusal_explained(f: LoadoutFile, m: Seq<char>) -> bool {
    exists|i: int| 0 <= i < f.gear@.len() && (forall|j: int| 0 <= j < i ==> #[trigger] piece_ok(f.gear@, j))
        && !piece_ok(f.gear@, i)
        && ((forall|s: Slot| !names_slot(s, f.gear@[i].slot@)) ==> m == "unknown slot \""@ + f.gear@[i].slot@ + "\""@)
        && (forall|s: Slot| #[trigger] names_slot(s, f.gear@[i].slot@) && worn_before(f.gear@, i, s) >= slot_capacity(s)
            ==> m == full_slot_text(worn_before(f.gear@, i, s) + 1, s))
}

/// A message for a slot holding more pieces than it has room for.
fn full_slot_message(count: usize, s: Slot) -> (r: String)
    ensures
        r@ == full_slot_text(count as nat, s),
{
    let mut m: Vec<char> = Vec::new();
    push_decimal(count as u64, &mut m);
    append_chars(&mut m, " pieces in the ");
    append_chars(&mut m, s.as_str());
    append_chars(&mut m, " slot, which holds ");
    push_decimal(s.capacity() as u64, &mut m);
    string_of(&m)
}

/// The rolls a piece writes, in the file's order.
fn rolls_of(g: &GearFields) -> (r: Result<Vec<Roll>, LoadoutError>)
    ensures
        r is Ok <==> rolls_ok(*g),
        r is Err ==> r->Err_0 is Invalid,
        r is Ok ==> rolls_as(r->Ok_0@, *g),
{
    let mut rolls: Vec<Roll> = Vec::new();
    let mut i: usize = 0;
    while i < g.attributes.len()
        invariant
            i <= g.attributes@.len(),
            rolls@.len() == i,
            forall|k: int| 0 <= k < i ==> names_attribute((#[trigger] g.attributes@[k]).0@),
            forall|k: int| 0 <= k < i ==> #[trigger] attribute_roll_is(rolls@[k], g.attributes@[k]),
        decreases g.attributes@.len() - i,
    {
        let kind = match AttributeKind::parse(g.attributes[i].0.as_str()) {
            Some(k) => k,
            None => {
                proof {
                    assert(!names_attribute(g.attributes@[i as int].0@));
                }
                return Err(LoadoutError::Invalid(named_message("unknown attribute: ", g.attributes[i].0.as_str(), "")));
            },
        };
        let ghost before = rolls@;
        rolls.push(Roll::Attribute(kind, g.attributes[i].1));
        proof {
            assert(names_attribute(g.attributes@[i as int].0@));
            assert forall|k: int| 0 <= k < i + 1 implies #[trigger] attribute_roll_is(rolls@[k], g.attributes@[k]) by {
                if k < i {
                    assert(rolls@[k] == before[k]);
                }
            }
        }
        i = i + 1;
    }
    let ghost na = g.attributes@.len() as int;
    match &g.move_speed_add {
        Some(m) => match Fixed::parse_decimal(m.as_str()) {
            Ok(x) => {
                rolls.push(Roll::MoveSpeedAdd(x));
            },
            Err(e) => {
                return Err(LoadoutError::Invalid(decimal_message(g.id.as_str(), "move_speed_add", m.as_str(), e)));
            },
        },
        None => {},
    }
    let ghost base = rolls@;
    assert(base.len() == na + speed_rolls(*g));
    let mut j: usize = 0;
    while j < g.additional.len()
        invariant
            j <= g.additional@.len(),
            na == g.attributes@.len(),
            base.len() == na + speed_rolls(*g),
            rolls@.len() == base.len() + j,
            rolls@.subrange(0, base.len() as int) == base,
            forall|k: int| 0 <= k < j ==> parse_spec((#[trigger] g.additional@[k]).1@) is Ok,
            forall|k: int| 0 <= k < j ==> derived_roll_is(rolls@[na + speed_rolls(*g) + k], #[trigger] g.additional@[k]),
        decreases g.additional@.len() - j,
    {
        let x = match Fixed::parse_decimal(g.additional[j].1.as_str()) {
            Ok(x) => x,
            Err(e) => {
                return Err(LoadoutError::Invalid(decimal_message(g.id.as_str(), "additional", g.additional[j].1.as_str(), e)));
            },
        };
        let ghost prev = rolls@;
        rolls.push(Roll::Derived(DerivedStatId::new(g.additional[j].0.as_str()), x));
        proof {
            assert(rolls@.subrange(0, base.len() as int) =~= prev.subrange(0, base.len() as int));
            assert forall|k: int| 0 <= k < j + 1 implies derived_roll_is(rolls@[na + speed_rolls(*g) + k], #[trigger] g.additional@[k]) by {
                if k < j {
                    assert(rolls@[na + speed_rolls(*g) + k] == prev[na + speed_rolls(*g) + k]);
                }
            }
        }
        j = j + 1;
    }
    proof {
        assert forall|k: int| 0 <= k < na implies #[trigger] attribute_roll_is(rolls@[k], g.attributes@[k]) by {
            assert(rolls@[k] == rolls@.subrange(0, base.len() as int)[k]);
        }
        if g.move_speed_add is Some {
            assert(rolls@[na] == rolls@.subrange(0, base.len() as int)[na]);
        }
    }
    Ok(rolls)
}

/// The loadout a file's fields describe. Each piece, in order, must name a
/// slot that still has room for it and write rolls that read; the first
/// that does not is refused, naming what was wrong.
pub fn loadout_from(f: &LoadoutFile) -> (r: Result<Loadout, LoadoutError>)
    ensures
        r is Ok <==> file_ok(*f),
        r is Err ==> r->Err_0 is Invalid,
        r is Ok ==> loadout_as(r->Ok_0, *f),
        r matches Err(LoadoutError::Invalid(m)) ==> refusal_explained(*f, m@),
{
    let mut gear: Vec<GearPiece> = Vec::new();
    let mut i: usize = 0;
    while i < f.gear.len()
        invariant
            i <= f.gear@.len(),
            gear@.len() == i,
            forall|j: int| 0 <= j < i ==> #[trigger] piece_ok(f.gear@, j),
            forall|j: int| 0 <= j < i ==> piece_as(#[trigger] gear@[j], f.gear@[j]),
        decreases f.gear@.len() - i,
    {
        let g = &f.gear[i];
        let slot = match Slot::from_file_name(g.slot.as_str()) {
            Some(s) => s,
            None => {
                let m = named_message("unknown slot \"", g.slot.as_str(), "\"");
                proof {
                    assert(!piece_ok(f.gear@, i as int));
                    assert(!(exists|s: Slot| #[trigger] names_slot(s, f.gear@[i as int].slot@) && worn_before(f.gear@, i as int, s) >= slot_capacity(s)));
                    assert(refusal_explained(*f, m@));
                }
                return Err(LoadoutError::Invalid(m));
            },
        };
        let before = count_worn(&f.gear, i, slot);
        if before >= slot.capacity() {
            proof {
                assert forall|s: Slot| #[trigger] names_slot(s, g.slot@) implies worn_before(f.gear@, i as int, s) >= slot_capacity(s) by {
                    lemma_names_slot_unique(s, slot, g.slot@);
                }
                assert(!piece_ok(f.gear@, i as int));
            }
            let m = full_slot_message(before + 1, slot);
            proof {
                assert(names_slot(slot, f.gear@[i as int].slot@));
                assert forall|s: Slot| #[trigger] names_slot(s, f.gear@[i as int].slot@) && worn_before(f.gear@, i as int, s) >= slot_capacity(s)
                    implies m@ == full_slot_text(worn_before(f.gear@, i as int, s) + 1, s) by {
                    lemma_names_slot_unique(s, slot, g.slot@);
                }
                assert(refusal_explained(*f, m@));
            }
            return Err(LoadoutError::Invalid(m));
        }
        let rolls = match rolls_of(g) {
            Ok(r) => r,
            Err(e) => {
                proof {
                    assert(!piece_ok(f.gear@, i as int));
                    assert(names_slot(slot, f.gear@[i as int].slot@));
                    assert forall|s: Slot| #[trigger] names_slot(s, f.gear@[i as int].slot@) implies worn_before(f.gear@, i as int, s) < slot_capacity(s) by {
                        lemma_names_slot_unique(s, slot, g.slot@);
                    }
                    if e is Invalid {
                        assert(refusal_explained(*f, e->Invalid_0@));
                    }
                }
                return Err(e);
            },
        };
        let ghost prev = gear@;
        gear.push(GearPiece { slot, id: ItemId::new(g.id.as_str()), rolls });
        proof {
            assert(piece_ok(f.gear@, i as int));
            assert forall|j: int| 0 <= j < i + 1 implies piece_as(#[trigger] gear@[j], f.gear@[j]) by {
                if j < i {
                    assert(gear@[j] == prev[j]);
                }
            }
        }
        i = i + 1;
    }
    let main_hand = match &f.main_hand {
        Some(m) => Some(ItemId::new(m.as_str())),
        None => None,
    };
    let l = Loadout {
        name: owned(f.name.as_str()),
        class: ClassId::new(f.class.as_str()),
        perks: perks_of(&f.perks),
        skills: skills_of(&f.skills),
        gear,
        weapons: Weapons { main_hand },
        stacks: stacks_of(&f.stacks),
        party: PartyBuffs { skills: skills_of(&f.party_skills), perks: perks_of(&f.party_perks) },
    };
    Ok(l)
}

/// What `parse` reads a loadout text as: the TOML document, then the
/// file's fields, then the loadout they describe.
pub open spec fn loadout_parsed_as(text: Seq<char>, r: Result<Loadout, LoadoutError>) -> bool {
    match toml_doc(text) {
        Err(m) => r matches Err(LoadoutError::Syntax(x)) && x@ == m,
        Ok(d) => if !loadout_fits(d) {
            r matches Err(LoadoutError::Syntax(_))
        } else {
            exists|f: LoadoutFile| #[trigger] loadout_read_from(f, d) && match r {
                Ok(l) => file_ok(f) && loadout_as(l, f),
                Err(e) => e is Invalid && !file_ok(f) && refusal_explained(f, e->Invalid_0@),
            }
        },
    }
}

/// Parses a loadout file into the library's loadout.
pub fn parse(text: &str) -> (r: Result<Loadout, LoadoutError>)
    ensures
        loadout_parsed_as(text@, r),
{
    let d = match parse_toml(text) {
        Ok(d) => d,
        Err(m) => return Err(LoadoutError::Syntax(m)),
    };
    let f = decode_loadout(&d)?;
    let r = loadout_from(&f);
    proof {
        assert(loadout_read_from(f, d));
    }
    r
}


/// **Two weapons fit.** A file whose gear is two pieces in the weapon slot
/// (a primary and a secondary weapon), each with rolls that read, is in
/// order: its loadout is read with both pieces.
pub proof fn law_two_weapon_pieces_fit(f: LoadoutFile)
    requires
        f.gear@.len() == 2,
        f.gear@[0].slot@ == slot_name(Slot::Weapon),
        f.gear@[1].slot@ == slot_name(Slot::Weapon),
        rolls_ok(f.gear@[0]),
        rolls_ok(f.gear@[1]),
    ensures
        file_ok(f),
{
    let g = f.gear@;
    assert(names_slot(Slot::Weapon, g[0].slot@));
    assert(names_slot(Slot::Weapon, g[1].slot@));
    assert(worn_before(g, 0, Slot::Weapon) == 0);
    assert(worn_before(g, 1, Slot::Weapon) == 1);
    assert(piece_ok(g, 0));
    assert(piece_ok(g, 1));
}
} // verus!
