//! The situation file: what makes one attack different from another.
//!
//! A situation is a fact about **this attack**, not about either character,
//! which is why it is a third file rather than a section of a loadout.
//! Every value is an exact decimal string: floats are banned, and a TOML
//! float here would reintroduce the error class at the one place a person
//! types numbers by hand.
//!
//! Three layers fill the strike, and the order is the point: the weapon is
//! what you are holding, the skill is what the game says it does, and an
//! explicit field is what you are asking about. The most specific wins.

use vstd::prelude::*;

use crate::confidence::{Confidence, ConfidenceLevel};
use crate::doc::{
    Doc, integer_field, keys_within, lookup, opt_integer, opt_table, opt_text, opt_view, parse_toml, strs,
    table_field, text_field, toml_doc, unknown_key,
};
use crate::exchange::{ExchangeContext, Strike};
use crate::fixed::{Fixed, parse_spec};
use crate::ids::{AbilityId, ItemId, SkillId};
use crate::schema::{InMemoryDataset, StrikeProfile, WeaponProfile};
use crate::stats::{ArmorPen, Damage, DamageType, PdrMod, ScalingCoefficient, TrueDamage, hundred};
use crate::table::IdMap;
use crate::text::{append_chars, owned, str_eq, string_of};

verus! {

/// Why a situation file could not be read.
#[derive(Debug)]
pub enum SituationError {
    /// Not valid TOML, or a field the format does not define or types
    /// differently.
    Syntax(String),
    /// Structurally valid but semantically wrong.
    Invalid(String),
}

impl SituationError {
    /// The message a reader sees.
    pub fn to_string(&self) -> (r: String)
        ensures
            r@ == match *self {
                SituationError::Syntax(m) => m@,
                SituationError::Invalid(m) => m@,
            },
    {
        match self {
            SituationError::Syntax(m) => owned(m.as_str()),
            SituationError::Invalid(m) => owned(m.as_str()),
        }
    }
}

/// The attack itself, as the file writes it. Every field is optional and
/// falls back to the skill, then the weapon.
#[derive(Debug)]
pub struct StrikeFields {
    /// `physical` or `magic`, written `type`.
    pub damage_type: Option<String>,
    /// Base damage.
    pub base: Option<String>,
    /// Scaling coefficient in percent; Sneak Attack is `"0"`.
    pub scaling: Option<String>,
    /// Flat Buff Weapon Damage.
    pub flat_bonus: Option<String>,
    /// Penetration.
    pub penetration: Option<String>,
    /// True damage.
    pub true_damage: Option<String>,
}

/// The circumstances, as the file writes them.
#[derive(Debug)]
pub struct ContextFields {
    /// Percentage-point adjustment to the power bonus: a back attack is
    /// `"30"`, leaving Hide is `"-30"`.
    pub power_bonus_adjust: Option<String>,
    /// Multiplicative PDR Mod: Lethal Mark is `"-30"`.
    pub pdr_mod: Option<String>,
    /// Hit location, in percentage points over 100.
    pub hit_location_bonus: Option<String>,
    /// Item Armor Rating Bonus imposed on the defender, by the ability
    /// that imposed it, in key order.
    pub item_armor_bonus_mods: Vec<(String, String)>,
}

/// A situation file's fields.
#[derive(Debug)]
pub struct SituationFile {
    /// What to call it in the readout.
    pub name: Option<String>,
    /// Which swing in the weapon's chain, counting from 1.
    pub combo_hit: Option<i64>,
    /// A skill to take the attack's numbers from.
    pub skill: Option<String>,
    /// The attack.
    pub strike: StrikeFields,
    /// The circumstances.
    pub context: ContextFields,
}

/// A parsed situation: the strike, and the circumstances around it.
#[derive(Debug)]
pub struct Situation {
    /// The attack.
    pub strike: Strike,
    /// The circumstances.
    pub context: ExchangeContext,
    /// What to call it in the readout.
    pub name: String,
}

// ── The shape of the file ───────────────────────────────────────────────

/// The keys of the top level.
pub open spec fn situation_keys() -> Seq<Seq<char>> {
    seq!["name"@, "combo_hit"@, "skill"@, "strike"@, "context"@]
}

/// The keys of `[strike]`.
pub open spec fn strike_keys() -> Seq<Seq<char>> {
    seq!["type"@, "base"@, "scaling"@, "flat_bonus"@, "penetration"@, "true_damage"@]
}

/// The keys of `[context]`.
pub open spec fn context_keys() -> Seq<Seq<char>> {
    seq!["power_bonus_adjust"@, "pdr_mod"@, "hit_location_bonus"@, "item_armor_bonus_mods"@]
}

/// The text keys of `[context]`.
pub open spec fn context_text_keys() -> Seq<Seq<char>> {
    seq!["power_bonus_adjust"@, "pdr_mod"@, "hit_location_bonus"@]
}

/// Every value of a table is a string.
pub open spec fn all_texts(t: Seq<(String, Doc)>) -> bool {
    forall|i: int| 0 <= i < t.len() ==> (#[trigger] t[i]).1 is Str
}

/// A table of strings as key and value texts.
pub open spec fn text_pairs_of(t: Seq<(String, Doc)>) -> Seq<(Seq<char>, Seq<char>)> {
    t.map_values(|e: (String, Doc)| (e.0@, e.1->Str_0@))
}

/// Pairs of strings as pairs of texts.
pub open spec fn pair_views(p: Seq<(String, String)>) -> Seq<(Seq<char>, Seq<char>)> {
    p.map_values(|e: (String, String)| (e.0@, e.1@))
}

/// A table whose keys are allowed and whose named fields are optional
/// texts.
pub open spec fn texts_fit(t: Seq<(String, Doc)>, allowed: Seq<Seq<char>>, wanted: Seq<Seq<char>>) -> bool {
    &&& keys_within(t, allowed)
    &&& forall|i: int| 0 <= i < wanted.len() ==> #[trigger] opt_text(lookup(t, wanted[i])) is Some
}

/// Whether `[context]`, when present, is a context table.
pub open spec fn context_fits(ct: Seq<(String, Doc)>) -> bool {
    &&& texts_fit(ct, context_keys(), context_text_keys())
    &&& opt_table(lookup(ct, "item_armor_bonus_mods"@)) is Some
    &&& (opt_table(lookup(ct, "item_armor_bonus_mods"@)) matches Some(Some(m)) ==> all_texts(m))
}

/// Whether a document is a situation file: a table of the defined keys,
/// each of its type.
pub open spec fn situation_fits(d: Doc) -> bool {
    &&& d is Table
    &&& keys_within(d->Table_0@, situation_keys())
    &&& opt_text(lookup(d->Table_0@, "name"@)) is Some
    &&& opt_integer(lookup(d->Table_0@, "combo_hit"@), 0, i64::MAX as int) is Some
    &&& opt_text(lookup(d->Table_0@, "skill"@)) is Some
    &&& opt_table(lookup(d->Table_0@, "strike"@)) is Some
    &&& (opt_table(lookup(d->Table_0@, "strike"@)) matches Some(Some(st)) ==> texts_fit(st, strike_keys(), strike_keys()))
    &&& opt_table(lookup(d->Table_0@, "context"@)) is Some
    &&& (opt_table(lookup(d->Table_0@, "context"@)) matches Some(Some(ct)) ==> context_fits(ct))
}

/// An optional text field of an optional table.
pub open spec fn sub_text(d: Option<Doc>, key: Seq<char>) -> Option<Seq<char>> {
    match opt_table(d) {
        Some(Some(t)) => opt_text(lookup(t, key))->0,
        _ => None,
    }
}

/// The debuffs a context table writes, as key and value texts.
pub open spec fn mods_of(c: Option<Doc>) -> Seq<(Seq<char>, Seq<char>)> {
    match opt_table(c) {
        Some(Some(t)) => match opt_table(lookup(t, "item_armor_bonus_mods"@)) {
            Some(Some(m)) => text_pairs_of(m),
            _ => Seq::empty(),
        },
        _ => Seq::empty(),
    }
}

/// A file's fields as texts, the way the format reads them from a fitting
/// document.
pub open spec fn file_read_from(f: SituationFile, d: Doc) -> bool {
    let t = d->Table_0@;
    let s = lookup(t, "strike"@);
    let c = lookup(t, "context"@);
    &&& opt_view(f.name) == opt_text(lookup(t, "name"@))->0
    &&& (match f.combo_hit {
        Some(n) => opt_integer(lookup(t, "combo_hit"@), 0, i64::MAX as int)->0 == Some(n as int),
        None => opt_integer(lookup(t, "combo_hit"@), 0, i64::MAX as int)->0 is None,
    })
    &&& opt_view(f.skill) == opt_text(lookup(t, "skill"@))->0
    &&& opt_view(f.strike.damage_type) == sub_text(s, "type"@)
    &&& opt_view(f.strike.base) == sub_text(s, "base"@)
    &&& opt_view(f.strike.scaling) == sub_text(s, "scaling"@)
    &&& opt_view(f.strike.flat_bonus) == sub_text(s, "flat_bonus"@)
    &&& opt_view(f.strike.penetration) == sub_text(s, "penetration"@)
    &&& opt_view(f.strike.true_damage) == sub_text(s, "true_damage"@)
    &&& opt_view(f.context.power_bonus_adjust) == sub_text(c, "power_bonus_adjust"@)
    &&& opt_view(f.context.pdr_mod) == sub_text(c, "pdr_mod"@)
    &&& opt_view(f.context.hit_location_bonus) == sub_text(c, "hit_location_bonus"@)
    &&& pair_views(f.context.item_armor_bonus_mods@) == mods_of(c)
}

/// A copy of an optional string.
fn copy_opt(s: &Option<String>) -> (r: Option<String>)
    ensures
        opt_view(r) == opt_view(*s),
{
    match s {
        Some(x) => Some(owned(x.as_str())),
        None => None,
    }
}

/// The key and value texts of a table of strings; `None` when a value is
/// not a string.
fn text_pairs(m: &Vec<(String, Doc)>) -> (r: Option<Vec<(String, String)>>)
    ensures
        r is Some <==> all_texts(m@),
        r is Some ==> pair_views(r->0@) == text_pairs_of(m@),
{
    let mut out: Vec<(String, String)> = Vec::new();
    let mut i: usize = 0;
    while i < m.len()
        invariant
            i <= m@.len(),
            out@.len() == i,
            forall|j: int| 0 <= j < i ==> (#[trigger] m@[j]).1 is Str,
            forall|j: int| 0 <= j < i ==> #[trigger] pair_views(out@)[j] == text_pairs_of(m@)[j],
        decreases m@.len() - i,
    {
        match &m[i].1 {
            Doc::Str(v) => {
                let ghost before = out@;
                out.push((owned(m[i].0.as_str()), owned(v.as_str())));
                proof {
                    assert forall|j: int| 0 <= j < i + 1 implies #[trigger] pair_views(out@)[j] == text_pairs_of(m@)[j] by {
                        if j < i {
                            assert(out@[j] == before[j]);
                            assert(pair_views(before)[j] == text_pairs_of(m@)[j]);
                        }
                    }
                }
            },
            _ => return None,
        }
        i = i + 1;
    }
    proof {
        assert(pair_views(out@) =~= text_pairs_of(m@));
    }
    Some(out)
}

/// An unknown-field message.
fn unknown_field(k: &str) -> (r: String)
    ensures
        r@ == "unknown field `"@ + k@ + "`"@,
{
    let mut m: Vec<char> = Vec::new();
    append_chars(&mut m, "unknown field `");
    append_chars(&mut m, k);
    append_chars(&mut m, "`");
    string_of(&m)
}

/// A wrong-type message.
fn wrong_type(k: &str, expected: &str) -> (r: String)
    ensures
        r@ == "invalid type for `"@ + k@ + "`, expected "@ + expected@,
{
    let mut m: Vec<char> = Vec::new();
    append_chars(&mut m, "invalid type for `");
    append_chars(&mut m, k);
    append_chars(&mut m, "`, expected ");
    append_chars(&mut m, expected);
    string_of(&m)
}

/// Reads a table of optional texts, refusing keys it does not allow.
fn text_fields(t: &Vec<(String, Doc)>, allowed: &[&str], wanted: &[&str]) -> (r: Result<Vec<Option<String>>, String>)
    ensures
        r is Ok <==> keys_within(t@, strs(allowed@)) && forall|i: int| 0 <= i < wanted@.len() ==> #[trigger] opt_text(lookup(t@, strs(wanted@)[i])) is Some,
        r is Ok ==> r->Ok_0@.len() == wanted@.len(),
        r is Ok ==> forall|i: int| 0 <= i < wanted@.len() ==> opt_view(#[trigger] r->Ok_0@[i]) == opt_text(lookup(t@, strs(wanted@)[i]))->0,
{
    let mut out: Vec<Option<String>> = Vec::new();
    if let Some(k) = unknown_key(t, allowed) {
        let mut m: Vec<char> = Vec::new();
        append_chars(&mut m, "unknown field `");
        append_chars(&mut m, k.as_str());
        append_chars(&mut m, "`");
        return Err(string_of(&m));
    }
    let mut i: usize = 0;
    while i < wanted.len()
        invariant
            i <= wanted@.len(),
            out@.len() == i,
            keys_within(t@, strs(allowed@)),
            forall|j: int| 0 <= j < i ==> #[trigger] opt_text(lookup(t@, strs(wanted@)[j])) is Some,
            forall|j: int| 0 <= j < i ==> opt_text(lookup(t@, strs(wanted@)[j])) is Some
                && opt_view(#[trigger] out@[j]) == opt_text(lookup(t@, strs(wanted@)[j]))->0,
        decreases wanted@.len() - i,
    {
        let w = wanted[i];
        proof {
            assert(strs(wanted@)[i as int] == w@);
        }
        match text_field(t, w) {
            Some(v) => {
                let ghost before = out@;
                out.push(v);
                proof {
                    assert forall|j: int| 0 <= j < i + 1 implies opt_text(lookup(t@, strs(wanted@)[j])) is Some
                        && opt_view(#[trigger] out@[j]) == opt_text(lookup(t@, strs(wanted@)[j]))->0 by {
                        if j < i {
                            assert(out@[j] == before[j]);
                        }
                    }
                    assert forall|j: int| 0 <= j < i + 1 implies #[trigger] opt_text(lookup(t@, strs(wanted@)[j])) is Some by {
                        if j < i {
                            assert(out@[j] == before[j]);
                        }
                    }
                }
            },
            None => {
                proof {
                    assert(opt_text(lookup(t@, strs(wanted@)[i as int])) is None);
                }
                let mut m: Vec<char> = Vec::new();
                append_chars(&mut m, "invalid type for `");
                append_chars(&mut m, w);
                append_chars(&mut m, "`, expected a string");
                return Err(string_of(&m));
            },
        }
        i = i + 1;
    }
    Ok(out)
}

/// Reads a situation file's fields from a parsed document, refusing a
/// field the format does not define and a value of the wrong type.
pub fn decode_situation(d: &Doc) -> (r: Result<SituationFile, SituationError>)
    ensures
        r is Ok <==> situation_fits(*d),
        r is Ok ==> file_read_from(r->Ok_0, *d),
        r is Err ==> r->Err_0 is Syntax,
{
    let t = match d {
        Doc::Table(t) => t,
        _ => return Err(SituationError::Syntax(owned("a situation is a table"))),
    };
    let top: [&str; 5] = ["name", "combo_hit", "skill", "strike", "context"];
    proof {
        assert(strs(top@) =~= situation_keys());
    }
    if let Some(k) = unknown_key(t, &top) {
        return Err(SituationError::Syntax(unknown_field(k.as_str())));
    }
    let name = match text_field(t, "name") {
        Some(v) => v,
        None => return Err(SituationError::Syntax(wrong_type("name", "a string"))),
    };
    let combo_hit = match integer_field(t, "combo_hit", 0, i64::MAX) {
        Some(v) => v,
        None => return Err(SituationError::Syntax(wrong_type("combo_hit", "a non-negative integer"))),
    };
    let skill = match text_field(t, "skill") {
        Some(v) => v,
        None => return Err(SituationError::Syntax(wrong_type("skill", "a string"))),
    };
    let strike_keys_exec: [&str; 6] = ["type", "base", "scaling", "flat_bonus", "penetration", "true_damage"];
    proof {
        assert(strs(strike_keys_exec@) =~= strike_keys());
    }
    let strike = match table_field(t, "strike") {
        None => return Err(SituationError::Syntax(wrong_type("strike", "a table"))),
        Some(None) => StrikeFields { damage_type: None, base: None, scaling: None, flat_bonus: None, penetration: None, true_damage: None },
        Some(Some(st)) => {
            let v = match text_fields(st, &strike_keys_exec, &strike_keys_exec) {
                Ok(v) => v,
                Err(m) => return Err(SituationError::Syntax(m)),
            };
            proof {
                assert(strike_keys()[0] == "type"@);
                assert(strike_keys()[1] == "base"@);
                assert(strike_keys()[2] == "scaling"@);
                assert(strike_keys()[3] == "flat_bonus"@);
                assert(strike_keys()[4] == "penetration"@);
                assert(strike_keys()[5] == "true_damage"@);
            }
            StrikeFields {
                damage_type: copy_opt(&v[0]),
                base: copy_opt(&v[1]),
                scaling: copy_opt(&v[2]),
                flat_bonus: copy_opt(&v[3]),
                penetration: copy_opt(&v[4]),
                true_damage: copy_opt(&v[5]),
            }
        },
    };
    let context_all: [&str; 4] = ["power_bonus_adjust", "pdr_mod", "hit_location_bonus", "item_armor_bonus_mods"];
    let context_texts: [&str; 3] = ["power_bonus_adjust", "pdr_mod", "hit_location_bonus"];
    proof {
        assert(strs(context_all@) =~= context_keys());
        assert(strs(context_texts@) =~= context_text_keys());
    }
    let context = match table_field(t, "context") {
        None => return Err(SituationError::Syntax(wrong_type("context", "a table"))),
        Some(None) => ContextFields { power_bonus_adjust: None, pdr_mod: None, hit_location_bonus: None, item_armor_bonus_mods: Vec::new() },
        Some(Some(ct)) => {
            let v = match text_fields(ct, &context_all, &context_texts) {
                Ok(v) => v,
                Err(m) => return Err(SituationError::Syntax(m)),
            };
            proof {
                assert(context_text_keys()[0] == "power_bonus_adjust"@);
                assert(context_text_keys()[1] == "pdr_mod"@);
                assert(context_text_keys()[2] == "hit_location_bonus"@);
            }
            let mods = match table_field(ct, "item_armor_bonus_mods") {
                None => return Err(SituationError::Syntax(wrong_type("item_armor_bonus_mods", "a table"))),
                Some(None) => Vec::new(),
                Some(Some(m)) => match text_pairs(m) {
                    Some(p) => p,
                    None => return Err(SituationError::Syntax(wrong_type("item_armor_bonus_mods", "a table of strings"))),
                },
            };
            ContextFields {
                power_bonus_adjust: copy_opt(&v[0]),
                pdr_mod: copy_opt(&v[1]),
                hit_location_bonus: copy_opt(&v[2]),
                item_armor_bonus_mods: mods,
            }
        },
    };
    let f = SituationFile { name, combo_hit, skill, strike, context };
    proof {
        assert(pair_views(f.context.item_armor_bonus_mods@) =~= mods_of(lookup(t@, "context"@)));
    }
    Ok(f)
}

// ── From the file to the attack ────────────────────────────────────────

/// An optional text is absent or an exact decimal.
pub open spec fn decimal_ok(t: Option<Seq<char>>) -> bool {
    t matches Some(x) ==> parse_spec(x) is Ok
}

/// A value as the file layers it: written in the file, it is what the file
/// says, verified; otherwise the skill's, when it has one; otherwise the
/// fallback.
pub open spec fn layered(text: Option<Seq<char>>, skill: Option<Confidence<Fixed>>, fallback: (int, ConfidenceLevel)) -> (int, ConfidenceLevel) {
    match text {
        Some(t) => (parse_spec(t)->Ok_0, ConfidenceLevel::Verified),
        None => match skill {
            Some(c) => (c.spec_value()@, c.spec_level()),
            None => fallback,
        },
    }
}

/// The named skill's strike profile, when the file names one the dataset
/// has.
pub open spec fn profile_of(f: SituationFile, data: InMemoryDataset) -> Option<StrikeProfile> {
    match f.skill {
        Some(id) => if data.skills().contains_key(id@) { data.skills()[id@].strike } else { None },
        None => None,
    }
}

/// A field of the named skill's profile.
pub open spec fn profile_base(f: SituationFile, data: InMemoryDataset) -> Option<Confidence<Fixed>> {
    match profile_of(f, data) { Some(p) => p.base, None => None }
}

/// The profile's scaling.
pub open spec fn profile_scaling(f: SituationFile, data: InMemoryDataset) -> Option<Confidence<Fixed>> {
    match profile_of(f, data) { Some(p) => p.scaling, None => None }
}

/// The profile's flat bonus.
pub open spec fn profile_flat(f: SituationFile, data: InMemoryDataset) -> Option<Confidence<Fixed>> {
    match profile_of(f, data) { Some(p) => p.flat_bonus, None => None }
}

/// The profile's penetration.
pub open spec fn profile_pen(f: SituationFile, data: InMemoryDataset) -> Option<Confidence<Fixed>> {
    match profile_of(f, data) { Some(p) => p.penetration, None => None }
}

/// The profile's true damage.
pub open spec fn profile_true(f: SituationFile, data: InMemoryDataset) -> Option<Confidence<Fixed>> {
    match profile_of(f, data) { Some(p) => p.true_damage, None => None }
}

/// The scaling the weapon gives: the picked swing's, or 100%.
pub open spec fn swing_scaling(f: SituationFile, weapon: WeaponProfile) -> (int, ConfidenceLevel) {
    match f.combo_hit {
        Some(n) => (weapon.combo@[n - 1].scaling.spec_value()@, weapon.combo@[n - 1].scaling.spec_level()),
        None => (hundred(), ConfidenceLevel::Verified),
    }
}

/// What a situation file can be read as against a weapon and a dataset:
/// a swing the chain has, counting from 1; a named skill the dataset has
/// and that attacks; a known damage type; exact decimals.
pub open spec fn situation_ok(f: SituationFile, weapon: WeaponProfile, data: InMemoryDataset) -> bool {
    &&& (f.combo_hit matches Some(n) ==> 1 <= n <= weapon.combo@.len())
    &&& (f.skill matches Some(id) ==> data.skills().contains_key(id@) && data.skills()[id@].strike is Some)
    &&& (f.strike.damage_type matches Some(t) ==> t@ == "magic"@ || t@ == "physical"@)
    &&& decimal_ok(opt_view(f.strike.base))
    &&& decimal_ok(opt_view(f.strike.scaling))
    &&& decimal_ok(opt_view(f.strike.flat_bonus))
    &&& decimal_ok(opt_view(f.strike.penetration))
    &&& decimal_ok(opt_view(f.strike.true_damage))
    &&& forall|i: int| 0 <= i < f.context.item_armor_bonus_mods@.len() ==> parse_spec((#[trigger] f.context.item_armor_bonus_mods@[i]).1@) is Ok
    &&& decimal_ok(opt_view(f.context.power_bonus_adjust))
    &&& decimal_ok(opt_view(f.context.pdr_mod))
    &&& decimal_ok(opt_view(f.context.hit_location_bonus))
}

/// The debuffs, as a map from ability to value, later entries winning.
pub open spec fn mods_map(p: Seq<(String, String)>) -> Map<Seq<char>, int>
    decreases p.len(),
{
    if p.len() == 0 {
        Map::empty()
    } else {
        mods_map(p.drop_last()).insert(p.last().0@, parse_spec(p.last().1@)->Ok_0)
    }
}

/// The debuff table holds the file's debuffs, every one verified.
pub open spec fn mods_as(m: IdMap<AbilityId, Confidence<Fixed>>, p: Seq<(String, String)>) -> bool {
    &&& m.wf()
    &&& m.view().dom() == mods_map(p).dom()
    &&& forall|k: Seq<char>| #[trigger] m.view().contains_key(k) ==> m.view()[k].spec_value()@ == mods_map(p)[k]
        && m.view()[k].spec_level() == ConfidenceLevel::Verified
}

/// A value and grade are the model's pair.
pub open spec fn same(v: int, l: ConfidenceLevel, g: (int, ConfidenceLevel)) -> bool {
    v == g.0 && l == g.1
}

/// What a situation is, read from a file against a weapon and a dataset.
pub open spec fn situation_as(s: Situation, f: SituationFile, weapon_id: ItemId, weapon: WeaponProfile, data: InMemoryDataset) -> bool {
    let st = s.strike;
    let prof = profile_of(f, data);
    &&& st.damage_type == match opt_view(f.strike.damage_type) {
        Some(t) => if t == "magic"@ { DamageType::Magic } else { DamageType::Physical },
        None => if prof matches Some(p) && opt_view(p.damage_type) == Some("magic"@) { DamageType::Magic } else { DamageType::Physical },
    }
    &&& same(st.base.spec_value()@, st.base.spec_level(), layered(opt_view(f.strike.base), profile_base(f, data),
        (weapon.base_damage.spec_value()@, weapon.base_damage.spec_level())))
    &&& same(st.scaling.spec_value()@, st.scaling.spec_level(), layered(opt_view(f.strike.scaling), profile_scaling(f, data),
        swing_scaling(f, weapon)))
    &&& same(st.flat_bonus.spec_value()@, st.flat_bonus.spec_level(), layered(opt_view(f.strike.flat_bonus), profile_flat(f, data),
        (0, ConfidenceLevel::Verified)))
    &&& same(st.penetration.spec_value()@, st.penetration.spec_level(), layered(opt_view(f.strike.penetration), profile_pen(f, data),
        (weapon.armor_pen.spec_value()@, weapon.armor_pen.spec_level())))
    &&& same(st.true_damage.spec_value()@, st.true_damage.spec_level(), layered(opt_view(f.strike.true_damage), profile_true(f, data),
        (0, ConfidenceLevel::Verified)))
    &&& st.weapon matches Some(w) && w@ == weapon_id@
    &&& st.pinned == (f.combo_hit is Some || f.skill is Some)
    &&& st.tags@ == match f.combo_hit {
        Some(n) => seq![weapon.combo@[n - 1].kind],
        None => if weapon.combo@.len() > 0 { seq![weapon.combo@[0].kind] } else { Seq::<crate::stats::DamageTag>::empty() },
    }
    &&& same(s.context.power_bonus_adjust.spec_value()@, s.context.power_bonus_adjust.spec_level(),
        layered(opt_view(f.context.power_bonus_adjust), None, (0, ConfidenceLevel::Verified)))
    &&& same(s.context.pdr_mod.spec_value()@, s.context.pdr_mod.spec_level(),
        layered(opt_view(f.context.pdr_mod), None, (0, ConfidenceLevel::Verified)))
    &&& same(s.context.hit_location_bonus.spec_value()@, s.context.hit_location_bonus.spec_level(),
        layered(opt_view(f.context.hit_location_bonus), None, (0, ConfidenceLevel::Verified)))
    &&& mods_as(s.context.item_armor_bonus_mods, f.context.item_armor_bonus_mods@)
    &&& s.name@ == match opt_view(f.name) {
        Some(n) => n,
        None => match f.skill {
            Some(id) => data.skills()[id@].name@,
            None => "situation"@,
        },
    }
}

/// A parse-error message.
fn bad_decimal(what: &str, text: &str) -> (r: String)
    ensures
        r@ == what@ + " \""@ + text@ + "\": not an exact decimal of at most six fraction digits"@,
{
    let mut m: Vec<char> = Vec::new();
    append_chars(&mut m, what);
    append_chars(&mut m, " \"");
    append_chars(&mut m, text);
    append_chars(&mut m, "\": not an exact decimal of at most six fraction digits");
    string_of(&m)
}

/// A value as the file layers it over `current`: the file's exact decimal,
/// verified, when it writes one.
fn layer(text: &Option<String>, what: &str, current: Confidence<Fixed>) -> (r: Result<Confidence<Fixed>, SituationError>)
    ensures
        r is Ok <==> decimal_ok(opt_view(*text)),
        r is Err ==> r->Err_0 is Invalid,
        r is Ok ==> same(r->Ok_0.spec_value()@, r->Ok_0.spec_level(),
            layered(opt_view(*text), None, (current.spec_value()@, current.spec_level()))),
{
    match text {
        None => Ok(current),
        Some(t) => match Fixed::parse_decimal(t.as_str()) {
            Ok(v) => Ok(Confidence::Verified(v)),
            Err(_) => Err(SituationError::Invalid(bad_decimal(what, t.as_str()))),
        },
    }
}

/// A graded number under a newtype's value.
fn fixed_of_damage(c: &Confidence<Damage>) -> (r: Confidence<Fixed>)
    ensures
        r.spec_value()@ == c.spec_value()@,
        r.spec_level() == c.spec_level(),
{
    c.with_value(c.value().value())
}

/// Reads the debuffs: each ability's value, verified, keyed by ability.
fn mods_from(p: &Vec<(String, String)>) -> (r: Result<IdMap<AbilityId, Confidence<Fixed>>, SituationError>)
    ensures
        r is Ok <==> forall|i: int| 0 <= i < p@.len() ==> parse_spec((#[trigger] p@[i]).1@) is Ok,
        r is Err ==> r->Err_0 is Invalid,
        r is Ok ==> mods_as(r->Ok_0, p@),
{
    let mut m: IdMap<AbilityId, Confidence<Fixed>> = IdMap::new();
    let mut i: usize = 0;
    proof {
        assert(p@.subrange(0, 0) =~= Seq::<(String, String)>::empty());
        assert(m.view().dom() =~= mods_map(p@.subrange(0, 0)).dom());
    }
    while i < p.len()
        invariant
            i <= p@.len(),
            mods_as(m, p@.subrange(0, i as int)),
            forall|j: int| 0 <= j < i ==> parse_spec((#[trigger] p@[j]).1@) is Ok,
        decreases p@.len() - i,
    {
        let v = match Fixed::parse_decimal(p[i].1.as_str()) {
            Ok(v) => v,
            Err(_) => return Err(SituationError::Invalid(bad_decimal(p[i].0.as_str(), p[i].1.as_str()))),
        };
        let ghost before = m;
        m.insert(AbilityId::new(p[i].0.as_str()), Confidence::Verified(v));
        proof {
            let pre = p@.subrange(0, i as int);
            let next = p@.subrange(0, i + 1);
            assert(next.drop_last() =~= pre);
            assert(next.last() == p@[i as int]);
            assert(m.view().dom() =~= mods_map(next).dom());
        }
        i = i + 1;
    }
    proof {
        assert(p@.subrange(0, p@.len() as int) =~= p@);
    }
    Ok(m)
}


/// The attack and circumstances a situation file describes against a
/// weapon and a dataset. Omitting a field means "as the weapon swings", not
/// zero; a named skill fills in what it knows over the weapon, and the file
/// wins over both.
pub fn situation_from(f: &SituationFile, weapon_id: &ItemId, weapon: &WeaponProfile, data: &InMemoryDataset) -> (r: Result<Situation, SituationError>)
    requires
        data.wf(),
    ensures
        r is Ok <==> situation_ok(*f, *weapon, *data),
        r is Err ==> r->Err_0 is Invalid,
        r is Ok ==> situation_as(r->Ok_0, *f, *weapon_id, *weapon, *data),
{
    // Which swing in the chain. A weapon is a sequence, and asking for the
    // third swing is a different question from asking for the first.
    let mut scaling: Confidence<Fixed> = Confidence::Verified(percent_scale_fixed());
    let mut tags: Vec<crate::stats::DamageTag> = Vec::new();
    if weapon.combo.len() > 0 {
        tags.push(weapon.combo[0].kind);
    }
    let mut pinned = false;
    if let Some(n) = f.combo_hit {
        if n <= 0 {
            return Err(SituationError::Invalid(owned("combo_hit counts from 1: the first swing is 1, not 0")));
        }
        if n as u64 > weapon.combo.len() as u64 {
            if weapon.combo.len() == 0 {
                return Err(SituationError::Invalid(owned("this weapon has no chain recorded, so there is no swing to pick")));
            }
            let mut m: Vec<char> = Vec::new();
            append_chars(&mut m, "this weapon's chain is ");
            crate::fixed::push_int(weapon.combo.len() as i64, &mut m);
            append_chars(&mut m, " swings long, so there is no swing ");
            crate::fixed::push_int(n, &mut m);
            return Err(SituationError::Invalid(string_of(&m)));
        }
        let hit = &weapon.combo[(n - 1) as usize];
        scaling = hit.scaling.copied();
        tags = Vec::new();
        tags.push(hit.kind);
        pinned = true;
    }

    // A named skill replaces the swing rather than joining the chain.
    let mut base = weapon.base_damage.copied();
    let mut flat: Confidence<Fixed> = Confidence::Verified(Fixed::zero());
    let mut pen = weapon.armor_pen.copied();
    let mut true_damage: Confidence<Fixed> = Confidence::Verified(Fixed::zero());
    let mut damage_type = DamageType::Physical;
    let mut named: Option<String> = None;
    if let Some(id) = &f.skill {
        let skill = match data.skill(&SkillId::new(id.as_str())) {
            Some(sk) => sk,
            None => {
                let mut m: Vec<char> = Vec::new();
                append_chars(&mut m, "no such skill: ");
                append_chars(&mut m, id.as_str());
                return Err(SituationError::Invalid(string_of(&m)));
            },
        };
        let profile = match &skill.strike {
            Some(p) => p,
            None => {
                let mut m: Vec<char> = Vec::new();
                append_chars(&mut m, id.as_str());
                append_chars(&mut m, " is not an attack: it has no strike profile, so there is nothing for a situation to take from it");
                return Err(SituationError::Invalid(string_of(&m)));
            },
        };
        if let Some(v) = &profile.base {
            base = v.copied();
        }
        if let Some(v) = &profile.scaling {
            scaling = v.copied();
        }
        if let Some(v) = &profile.flat_bonus {
            flat = v.copied();
        }
        if let Some(v) = &profile.penetration {
            pen = v.copied();
        }
        if let Some(v) = &profile.true_damage {
            true_damage = v.copied();
        }
        if let Some(t) = &profile.damage_type {
            if str_eq(t.as_str(), "magic") {
                damage_type = DamageType::Magic;
            }
        }
        pinned = true;
        named = Some(owned(skill.name.as_str()));
    }

    // The file is the question, and a question is always more specific
    // than what is generally true.
    let damage_type = match &f.strike.damage_type {
        Some(t) => if str_eq(t.as_str(), "magic") {
            DamageType::Magic
        } else if str_eq(t.as_str(), "physical") {
            DamageType::Physical
        } else {
            let mut m: Vec<char> = Vec::new();
            append_chars(&mut m, "unknown damage type: ");
            append_chars(&mut m, t.as_str());
            append_chars(&mut m, ". It is `physical` or `magic`; true damage is a field, not a type");
            return Err(SituationError::Invalid(string_of(&m)));
        },
        None => damage_type,
    };
    let base = layer(&f.strike.base, "base", base)?;
    let scaling = layer(&f.strike.scaling, "scaling", scaling)?;
    let flat = layer(&f.strike.flat_bonus, "flat_bonus", flat)?;
    let pen = layer(&f.strike.penetration, "penetration", pen)?;
    let true_damage = layer(&f.strike.true_damage, "true_damage", true_damage)?;
    let mods = mods_from(&f.context.item_armor_bonus_mods)?;
    let power = layer(&f.context.power_bonus_adjust, "power_bonus_adjust", Confidence::Verified(Fixed::zero()))?;
    let pdr_mod = layer(&f.context.pdr_mod, "pdr_mod", Confidence::Verified(Fixed::zero()))?;
    let hit = layer(&f.context.hit_location_bonus, "hit_location_bonus", Confidence::Verified(Fixed::zero()))?;
    let name = match &f.name {
        Some(n) => owned(n.as_str()),
        None => match named {
            Some(n) => n,
            None => owned("situation"),
        },
    };
    let strike = Strike {
        damage_type,
        base: base.with_value(Damage::new(*base.value())),
        scaling: scaling.with_value(ScalingCoefficient::new(*scaling.value())),
        flat_bonus: flat.with_value(Damage::new(*flat.value())),
        tags,
        pinned,
        weapon: Some(weapon_id.clone()),
        penetration: pen.with_value(ArmorPen::new(*pen.value())),
        true_damage: true_damage.with_value(TrueDamage::new(*true_damage.value())),
    };
    let context = ExchangeContext {
        power_bonus_adjust: power,
        pdr_mod: pdr_mod.with_value(PdrMod::new(*pdr_mod.value())),
        item_armor_bonus_mods: mods,
        hit_location_bonus: hit,
    };
    Ok(Situation { strike, context, name })
}

/// One hundred percent.
fn percent_scale_fixed() -> (r: Fixed)
    ensures
        r@ == hundred(),
{
    crate::stats::percent_scale()
}

/// What `parse` reads a situation text as: the TOML document, then the
/// file's fields, then the attack against the weapon and the dataset.
pub open spec fn parsed_as(text: Seq<char>, r: Result<Situation, SituationError>, weapon_id: ItemId, weapon: WeaponProfile, data: InMemoryDataset) -> bool {
    match toml_doc(text) {
        Err(m) => r matches Err(SituationError::Syntax(x)) && x@ == m,
        Ok(d) => if !situation_fits(d) {
            r matches Err(SituationError::Syntax(_))
        } else {
            exists|f: SituationFile| #[trigger] file_read_from(f, d) && match r {
                Ok(s) => situation_ok(f, weapon, data) && situation_as(s, f, weapon_id, weapon, data),
                Err(e) => e is Invalid && !situation_ok(f, weapon, data),
            }
        },
    }
}

/// Reads a situation text against the weapon that swings and the dataset
/// that holds the skills.
pub fn parse(text: &str, weapon_id: &ItemId, weapon: &WeaponProfile, data: &InMemoryDataset) -> (r: Result<Situation, SituationError>)
    requires
        data.wf(),
    ensures
        parsed_as(text@, r, *weapon_id, *weapon, *data),
{
    let d = match parse_toml(text) {
        Ok(d) => d,
        Err(m) => return Err(SituationError::Syntax(m)),
    };
    let f = decode_situation(&d)?;
    let r = situation_from(&f, weapon_id, weapon, data);
    proof {
        assert(file_read_from(f, d));
    }
    r
}

/// What an attack swings: the attacker's main-hand item and its weapon
/// profile, or why there is nothing to swing.
pub open spec fn held_as(l: crate::loadout::Loadout, data: InMemoryDataset, r: Result<(ItemId, WeaponProfile), Seq<char>>) -> bool {
    match l.weapons.main_hand {
        None => r == Err::<(ItemId, WeaponProfile), Seq<char>>(l.name@ + " has no [weapons] main_hand, so there is nothing to swing"@),
        Some(w) => if !data.items().contains_key(w@) {
            r == Err::<(ItemId, WeaponProfile), Seq<char>>("item not in dataset: "@ + w@)
        } else if data.items()[w@].weapon is None {
            r == Err::<(ItemId, WeaponProfile), Seq<char>>(data.items()[w@].name@ + " is not a weapon"@)
        } else {
            r == Ok::<(ItemId, WeaponProfile), Seq<char>>((w, data.items()[w@].weapon->0))
        },
    }
}

/// The weapon the attacker holds, for an exchange on the command line.
pub fn held_weapon<'a>(l: &'a crate::loadout::Loadout, data: &'a InMemoryDataset) -> (r: Result<(&'a ItemId, &'a WeaponProfile), String>)
    requires
        data.wf(),
    ensures
        held_as(*l, *data, match r { Ok(p) => Ok((*p.0, *p.1)), Err(m) => Err(m@) }),
{
    let weapon_id = match &l.weapons.main_hand {
        Some(w) => w,
        None => {
            let mut out: Vec<char> = Vec::new();
            append_chars(&mut out, l.name.as_str());
            append_chars(&mut out, " has no [weapons] main_hand, so there is nothing to swing");
            return Err(string_of(&out));
        },
    };
    let item = match data.item(weapon_id) {
        Some(it) => it,
        None => {
            let mut out: Vec<char> = Vec::new();
            append_chars(&mut out, "item not in dataset: ");
            append_chars(&mut out, weapon_id.as_str());
            return Err(string_of(&out));
        },
    };
    match &item.weapon {
        Some(p) => Ok((weapon_id, p)),
        None => {
            let mut out: Vec<char> = Vec::new();
            append_chars(&mut out, item.name.as_str());
            append_chars(&mut out, " is not a weapon");
            Err(string_of(&out))
        },
    }
}

} // verus!
