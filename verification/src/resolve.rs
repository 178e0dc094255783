//! The resolution pipeline. **The stage order is locked.**
//!
//! ```text
//! 1.  class base attributes
//! 2.  + attributes from gear (printed, then rolled)
//! 3.  + attributes from perks/skills/party      ← attribute sum FINAL here
//! 4a. attributes → ratings                      weighted sums
//! 4b. ratings    → derived stats                curve → offset → bonus → clamp
//! 5.  + flat adds                               (move speed add, …)
//! 6.  + percentage bonuses
//! 7.  defensive chain: armor rating seeds the PDR stat, caps may be raised
//! 8.  situational mods stay SEPARATE            (PDR Mod — exchange layer)
//! ```
//!
//! Stage 3 before stage 4 is not negotiable: a rating folds several
//! attributes into one number, so applying party buffs late corrupts it.
//! Every stage leaves a [`StageNote`] on the trail `--explain` renders.

use vstd::prelude::*;

use crate::confidence::{Confidence, ConfidenceLevel, grade_of, grade_join, min_level};
use crate::derived::{
    DerivedError, DerivedStatDef, Evaluated, StatBreakdown, evaluate_all, evaluated_as, broken_down_as, derived_error_explained, evaluation_as, no_weight_gaps, inputs_known, curves_known, ranked,
    weighted, plain_seed, clamp_spec, from_rating_spec, rating_sum, rating_level, rating_grade, cap_in_force,
};
use crate::fixed::{Fixed, in_micro_range};
use crate::ids::{ClassId, DerivedStatId, ItemId, PerkId, SkillId};
use crate::loadout::{GearPiece, Loadout, Roll, Slot};
use crate::schema::{
    AttributeBlock, AttributeKind, ClassDef, Effect, EffectView, InMemoryDataset, ItemDef, StackedEffect,
    all_attributes, block_get, delta_total, scale_fits, scaled_view, attribute_name,
};
use crate::stats::{DamageTag, apply_item_armor_bonus, with_percent, hundred};
use crate::table::{IdMap, Slug};
use crate::text::{append_chars, owned, string_of, str_eq};
use crate::well_known;

verus! {

/// Why a loadout could not be resolved against a dataset. An unknown entity
/// is useful information in itself: an id can vanish in a later patch, and
/// naming it is part of the answer.
#[derive(Debug)]
pub enum ResolveError {
    /// The loadout's class id is not in the dataset.
    UnknownClass(ClassId),
    /// An equipped item id is not in the dataset.
    UnknownItem(ItemId),
    /// A slotted or party perk id is not in the dataset.
    UnknownPerk(PerkId),
    /// A slotted or party skill id is not in the dataset.
    UnknownSkill(SkillId),
    /// The derived-stat graph could not be evaluated.
    Derived(DerivedError),
    /// A piece is restricted to classes this character is not.
    WrongClass {
        /// The item in question.
        item: ItemId,
        /// The classes its card allows.
        allowed: Vec<ClassId>,
    },
    /// A perk slotted by a class that cannot take it.
    WrongClassPerk {
        /// The perk in question.
        perk: PerkId,
        /// The classes it belongs to.
        allowed: Vec<ClassId>,
    },
    /// A skill slotted by a class that cannot take it.
    WrongClassSkill {
        /// The skill in question.
        skill: SkillId,
        /// The classes it belongs to.
        allowed: Vec<ClassId>,
    },
    /// A piece is worn in a slot its own card does not name.
    WrongSlot {
        /// The item in question.
        item: ItemId,
        /// Where the loadout put it.
        worn: Slot,
        /// Where its card says it goes.
        belongs: Slot,
    },
    /// The loadout claims more stacks than the effect can carry.
    TooManyStacks {
        /// The perk or skill the stacks belong to.
        source: String,
        /// What the loadout asked for.
        requested: u32,
        /// What the dataset allows.
        max: u32,
    },
    /// A sum the pipeline forms leaves the representable range.
    OutOfRange,
}

/// Class slugs joined by `, `.
pub open spec fn joined_classes(s: Seq<ClassId>) -> Seq<char>
    decreases s.len(),
{
    if s.len() == 0 {
        Seq::empty()
    } else if s.len() == 1 {
        s[0]@
    } else {
        joined_classes(s.drop_last()) + ", "@ + s.last()@
    }
}

/// The message a resolution error renders to.
pub open spec fn resolve_error_text(e: ResolveError) -> Seq<char> {
    match e {
        ResolveError::UnknownClass(id) => "class not in dataset: "@ + id@,
        ResolveError::UnknownItem(id) => "item not in dataset: "@ + id@,
        ResolveError::UnknownPerk(id) => "perk not in dataset: "@ + id@,
        ResolveError::UnknownSkill(id) => "skill not in dataset: "@ + id@,
        ResolveError::Derived(d) => "derived stats: "@ + crate::derived::derived_error_text(d),
        ResolveError::WrongClass { item, allowed } => item@ + " may only be carried by "@ + joined_classes(allowed@),
        ResolveError::WrongClassPerk { perk, allowed } => perk@ + " may only be slotted by "@ + joined_classes(allowed@),
        ResolveError::WrongClassSkill { skill, allowed } => skill@ + " may only be slotted by "@ + joined_classes(allowed@),
        ResolveError::WrongSlot { item, worn, belongs } => item@ + " goes in the "@ + crate::loadout::slot_name(belongs)
            + " slot, not "@ + crate::loadout::slot_name(worn),
        ResolveError::TooManyStacks { source, requested, max } => source@ + " stacks at most "@ + crate::fixed::decimal_digits(
            max as nat,
        ) + " times, not "@ + crate::fixed::decimal_digits(requested as nat),
        ResolveError::OutOfRange => "a sum leaves the fixed-point range"@,
    }
}

/// Appends class slugs joined by `, `.
fn push_classes(out: &mut Vec<char>, s: &Vec<ClassId>)
    ensures
        final(out)@ == old(out)@ + joined_classes(s@),
{
    let mut i: usize = 0;
    proof {
        assert(s@.subrange(0, 0) =~= Seq::<ClassId>::empty());
        assert(out@ =~= old(out)@ + joined_classes(s@.subrange(0, 0)));
    }
    while i < s.len()
        invariant
            i <= s@.len(),
            out@ == old(out)@ + joined_classes(s@.subrange(0, i as int)),
        decreases s@.len() - i,
    {
        let ghost before = out@;
        if i > 0 {
            append_chars(out, ", ");
        }
        append_chars(out, s[i].as_str());
        proof {
            let next = s@.subrange(0, i + 1);
            assert(next.drop_last() =~= s@.subrange(0, i as int));
            assert(next.last() == s@[i as int]);
            if i == 0 {
                assert(joined_classes(next) == s@[0]@);
                assert(out@ =~= old(out)@ + joined_classes(next));
            } else {
                assert(out@ =~= old(out)@ + joined_classes(next));
            }
        }
        i = i + 1;
    }
    proof {
        assert(s@.subrange(0, s@.len() as int) =~= s@);
    }
}

impl ResolveError {
    /// The message a reader sees.
    pub fn to_string(&self) -> (r: String)
        ensures
            r@ == resolve_error_text(*self),
    {
        let mut out: Vec<char> = Vec::new();
        match self {
            ResolveError::UnknownClass(id) => {
                append_chars(&mut out, "class not in dataset: ");
                append_chars(&mut out, id.as_str());
            },
            ResolveError::UnknownItem(id) => {
                append_chars(&mut out, "item not in dataset: ");
                append_chars(&mut out, id.as_str());
            },
            ResolveError::UnknownPerk(id) => {
                append_chars(&mut out, "perk not in dataset: ");
                append_chars(&mut out, id.as_str());
            },
            ResolveError::UnknownSkill(id) => {
                append_chars(&mut out, "skill not in dataset: ");
                append_chars(&mut out, id.as_str());
            },
            ResolveError::Derived(d) => {
                append_chars(&mut out, "derived stats: ");
                let m = d.to_string();
                append_chars(&mut out, m.as_str());
            },
            ResolveError::WrongClass { item, allowed } => {
                append_chars(&mut out, item.as_str());
                append_chars(&mut out, " may only be carried by ");
                push_classes(&mut out, allowed);
            },
            ResolveError::WrongClassPerk { perk, allowed } => {
                append_chars(&mut out, perk.as_str());
                append_chars(&mut out, " may only be slotted by ");
                push_classes(&mut out, allowed);
            },
            ResolveError::WrongClassSkill { skill, allowed } => {
                append_chars(&mut out, skill.as_str());
                append_chars(&mut out, " may only be slotted by ");
                push_classes(&mut out, allowed);
            },
            ResolveError::WrongSlot { item, worn, belongs } => {
                append_chars(&mut out, item.as_str());
                append_chars(&mut out, " goes in the ");
                append_chars(&mut out, belongs.as_str());
                append_chars(&mut out, " slot, not ");
                append_chars(&mut out, worn.as_str());
            },
            ResolveError::TooManyStacks { source, requested, max } => {
                append_chars(&mut out, source.as_str());
                append_chars(&mut out, " stacks at most ");
                crate::fixed::push_decimal(*max as u64, &mut out);
                append_chars(&mut out, " times, not ");
                crate::fixed::push_decimal(*requested as u64, &mut out);
            },
            ResolveError::OutOfRange => {
                append_chars(&mut out, "a sum leaves the fixed-point range");
            },
        }
        proof {
            assert(out@ =~= resolve_error_text(*self));
        }
        string_of(&out)
    }
}

/// One inspectable pipeline step for `--explain`.
#[derive(Debug)]
pub struct StageNote {
    /// Stage number (1–8; the exchange uses 1–9 for its steps).
    pub stage: u8,
    /// Short stage label.
    pub label: &'static str,
    /// What happened, rendered with exact decimals.
    pub detail: String,
}

/// What stage 7 combined into the armour rating, kept apart so an exchange
/// can re-compose it at a different Item Armor Rating Bonus.
#[derive(Debug)]
pub struct ArmorComposition {
    /// Armour from the equipped pieces themselves: the multiplier's base.
    pub item: Confidence<Fixed>,
    /// The defender's own Item Armor Rating Bonus, in percentage points.
    pub bonus: Confidence<Fixed>,
    /// Every other source, enchantment rolls and ability bonuses included.
    pub other: Confidence<Fixed>,
}

/// A derived-stat bonus that only applies to one kind of swing.
#[derive(Debug)]
pub struct ConditionalBonus {
    /// The ability it came from, so a trace can name it.
    pub source: String,
    /// The stat it adds to.
    pub stat: DerivedStatId,
    /// The tag that switches it on.
    pub tag: DamageTag,
    /// How much, at the stack count already resolved.
    pub value: Confidence<Fixed>,
}

/// The resolved stat block. The trace is presentation, not state.
#[derive(Debug)]
pub struct Resolved {
    /// The class this block resolved.
    pub class: ClassId,
    /// The dataset build this was resolved against.
    pub build: String,
    /// Final attribute block after stage 3.
    pub attributes: Confidence<AttributeBlock>,
    /// Every derived stat by id: the class's computed stats and the
    /// gear-sourced seeds.
    pub derived: IdMap<DerivedStatId, Confidence<Fixed>>,
    /// The cap in force per capped stat, after any perk raised it.
    pub caps: IdMap<DerivedStatId, Fixed>,
    /// What stage 7 combined to reach the armour rating.
    pub armor: ArmorComposition,
    /// How each computed stat reached its value.
    pub breakdown: IdMap<DerivedStatId, StatBreakdown>,
    /// Bonuses that depend on the swing rather than on the character.
    pub conditional: Vec<ConditionalBonus>,
    /// The `--explain` trail, in stage order.
    pub trace: Vec<StageNote>,
}

impl Resolved {
    /// Looks up one derived stat. A missing stat is never silently zero.
    pub fn stat(&self, id: &str) -> (r: Option<&Confidence<Fixed>>)
        requires
            self.derived.wf(),
        ensures
            match r {
                Some(v) => self.derived.view().contains_key(id@) && *v == self.derived.view()[id@],
                None => !self.derived.view().contains_key(id@),
            },
    {
        self.derived.get(id)
    }
}

/// An effect with the display name of whatever granted it (for the trace),
/// already scaled to the number of stacks in force, and the kind of blow it
/// waits for, if any.
#[derive(Debug)]
pub struct SourcedEffect {
    /// The granting ability's display name, with ` (party)` when a party
    /// member brings it.
    pub name: String,
    /// The effect at its stack count, with its grade.
    pub effect: Confidence<Effect>,
    /// The kind of blow that switches it on, when it is gated.
    pub when_tag: Option<DamageTag>,
}

/// Everything the loadout's abilities contribute, and what was left out.
#[derive(Debug)]
pub struct CollectedEffects {
    /// The effects, in application order.
    pub effects: Vec<SourcedEffect>,
    /// Abilities skipped because the same one was already in force, by
    /// display name.
    pub ignored: Vec<String>,
}

// ── Specification of the stages ─────────────────────────────────────────

/// A graded number as plain values.
pub open spec fn graded(c: Confidence<Fixed>) -> (int, ConfidenceLevel) {
    (c.spec_value()@, c.spec_level())
}

/// The sum of graded parts, left to right; `None` when a partial sum
/// leaves the range.
pub open spec fn sum_parts(p: Seq<(int, ConfidenceLevel)>) -> Option<int>
    decreases p.len(),
{
    if p.len() == 0 {
        Some(0)
    } else {
        match sum_parts(p.drop_last()) {
            None => None,
            Some(acc) => if in_micro_range(acc + p.last().0) { Some(acc + p.last().0) } else { None },
        }
    }
}

/// The grade of a sum: the lowest among its parts, `Verified` for none.
pub open spec fn parts_level(p: Seq<(int, ConfidenceLevel)>) -> ConfidenceLevel
    decreases p.len(),
{
    if p.len() == 0 {
        ConfidenceLevel::Verified
    } else {
        min_level(parts_level(p.drop_last()), p.last().1)
    }
}

/// The item a piece instantiates.
pub open spec fn piece_item(data: InMemoryDataset, piece: GearPiece) -> ItemDef {
    data.items()[piece.id@]
}

/// What the pieces print for stat `id`: the item bucket.
pub open spec fn item_grant_parts(gear: Seq<GearPiece>, data: InMemoryDataset, id: Seq<char>) -> Seq<(int, ConfidenceLevel)>
    decreases gear.len(),
{
    if gear.len() == 0 {
        Seq::empty()
    } else {
        let it = piece_item(data, gear.last());
        item_grant_parts(gear.drop_last(), data, id) + if it.grants.view().contains_key(id) {
            seq![graded(it.grants.view()[id])]
        } else {
            Seq::empty()
        }
    }
}

/// What one piece's rolls add to stat `id`: verified facts.
pub open spec fn roll_parts(rolls: Seq<Roll>, id: Seq<char>) -> Seq<(int, ConfidenceLevel)>
    decreases rolls.len(),
{
    if rolls.len() == 0 {
        Seq::empty()
    } else {
        roll_parts(rolls.drop_last(), id) + match rolls.last() {
            Roll::Derived(rid, v) => if rid@ == id { seq![(v@, ConfidenceLevel::Verified)] } else { Seq::empty() },
            _ => Seq::empty(),
        }
    }
}

/// What every piece's rolls add to stat `id`.
pub open spec fn gear_roll_parts(gear: Seq<GearPiece>, id: Seq<char>) -> Seq<(int, ConfidenceLevel)>
    decreases gear.len(),
{
    if gear.len() == 0 {
        Seq::empty()
    } else {
        gear_roll_parts(gear.drop_last(), id) + roll_parts(gear.last().rolls@, id)
    }
}

/// Flat move speed rolled on one piece.
pub open spec fn move_roll_parts(rolls: Seq<Roll>) -> Seq<(int, ConfidenceLevel)>
    decreases rolls.len(),
{
    if rolls.len() == 0 {
        Seq::empty()
    } else {
        move_roll_parts(rolls.drop_last()) + match rolls.last() {
            Roll::MoveSpeedAdd(v) => seq![(v@, ConfidenceLevel::Verified)],
            _ => Seq::empty(),
        }
    }
}

/// Flat move speed from gear: each item's own, then its rolls.
pub open spec fn gear_move_parts(gear: Seq<GearPiece>, data: InMemoryDataset) -> Seq<(int, ConfidenceLevel)>
    decreases gear.len(),
{
    if gear.len() == 0 {
        Seq::empty()
    } else {
        let it = piece_item(data, gear.last());
        gear_move_parts(gear.drop_last(), data) + match it.move_speed_add {
            Some(c) => seq![graded(c)],
            None => Seq::empty(),
        } + move_roll_parts(gear.last().rolls@)
    }
}

/// Attribute points one piece's rolls add to `k`.
pub open spec fn roll_points(rolls: Seq<Roll>, k: AttributeKind) -> int
    decreases rolls.len(),
{
    if rolls.len() == 0 {
        0
    } else {
        roll_points(rolls.drop_last(), k) + match rolls.last() {
            Roll::Attribute(rk, p) => if rk == k { p as int } else { 0 },
            _ => 0,
        }
    }
}

/// Attribute points the gear adds to `k`: printed, then rolled.
pub open spec fn gear_points(gear: Seq<GearPiece>, data: InMemoryDataset, k: AttributeKind) -> int
    decreases gear.len(),
{
    if gear.len() == 0 {
        0
    } else {
        let it = piece_item(data, gear.last());
        gear_points(gear.drop_last(), data, k) + match it.attributes {
            Some(c) => delta_total(c.spec_value()@, k),
            None => 0,
        } + roll_points(gear.last().rolls@, k)
    }
}

/// The grade the gear leaves the attribute block at: printed attributes
/// carry the item's grade, rolls are verified facts.
pub open spec fn gear_attr_level(gear: Seq<GearPiece>, data: InMemoryDataset, base: ConfidenceLevel) -> ConfidenceLevel
    decreases gear.len(),
{
    if gear.len() == 0 {
        base
    } else {
        let it = piece_item(data, gear.last());
        let prior = gear_attr_level(gear.drop_last(), data, base);
        match it.attributes {
            Some(c) => min_level(prior, c.spec_level()),
            None => prior,
        }
    }
}

/// One collected effect as plain values: the effect, its grade, and the
/// kind of blow it waits for, if any.
pub open spec fn row_of(e: SourcedEffect) -> (EffectView, ConfidenceLevel, Option<DamageTag>) {
    (e.effect.spec_value()@, e.effect.spec_level(), e.when_tag)
}

/// Attribute points the abilities add to `k`.
pub open spec fn effect_points(rows: Seq<(EffectView, ConfidenceLevel, Option<DamageTag>)>, k: AttributeKind) -> int
    decreases rows.len(),
{
    if rows.len() == 0 {
        0
    } else {
        effect_points(rows.drop_last(), k) + match rows.last().0 {
            EffectView::AllAttributes(p) => p,
            EffectView::Attribute(rk, p) => if rk == k { p } else { 0 },
            _ => 0,
        }
    }
}

/// The grade the abilities leave the attribute block at.
pub open spec fn effect_attr_level(rows: Seq<(EffectView, ConfidenceLevel, Option<DamageTag>)>, prior: ConfidenceLevel) -> ConfidenceLevel
    decreases rows.len(),
{
    if rows.len() == 0 {
        prior
    } else {
        let before = effect_attr_level(rows.drop_last(), prior);
        match rows.last().0 {
            EffectView::AllAttributes(_) | EffectView::Attribute(_, _) => min_level(before, rows.last().1),
            _ => before,
        }
    }
}

/// The Item Armor Rating Bonus terms the abilities contribute.
pub open spec fn armor_bonus_parts(rows: Seq<(EffectView, ConfidenceLevel, Option<DamageTag>)>) -> Seq<(int, ConfidenceLevel)>
    decreases rows.len(),
{
    if rows.len() == 0 {
        Seq::empty()
    } else {
        armor_bonus_parts(rows.drop_last()) + match rows.last().0 {
            EffectView::ItemArmorBonus(v) => seq![(v, rows.last().1)],
            _ => Seq::empty(),
        }
    }
}

/// The unconditional bonuses the abilities add to stat `id`.
pub open spec fn ability_bonus_parts(rows: Seq<(EffectView, ConfidenceLevel, Option<DamageTag>)>, id: Seq<char>) -> Seq<(int, ConfidenceLevel)>
    decreases rows.len(),
{
    if rows.len() == 0 {
        Seq::empty()
    } else {
        ability_bonus_parts(rows.drop_last(), id) + match rows.last().0 {
            EffectView::DerivedBonus(sid, v) => if sid == id && rows.last().2 is None { seq![(v, rows.last().1)] } else { Seq::empty() },
            _ => Seq::empty(),
        }
    }
}

/// Flat move speed the abilities add.
pub open spec fn ability_move_parts(rows: Seq<(EffectView, ConfidenceLevel, Option<DamageTag>)>) -> Seq<(int, ConfidenceLevel)>
    decreases rows.len(),
{
    if rows.len() == 0 {
        Seq::empty()
    } else {
        ability_move_parts(rows.drop_last()) + match rows.last().0 {
            EffectView::MoveSpeedAdd(v) => seq![(v, rows.last().1)],
            _ => Seq::empty(),
        }
    }
}

/// Percentage move speed the abilities add.
pub open spec fn ability_move_bonus_parts(rows: Seq<(EffectView, ConfidenceLevel, Option<DamageTag>)>) -> Seq<(int, ConfidenceLevel)>
    decreases rows.len(),
{
    if rows.len() == 0 {
        Seq::empty()
    } else {
        ability_move_bonus_parts(rows.drop_last()) + match rows.last().0 {
            EffectView::MoveSpeedBonus(v) => seq![(v, rows.last().1)],
            _ => Seq::empty(),
        }
    }
}

/// The highest cap any ability raises stat `id` to, if any does.
pub open spec fn raised_cap(rows: Seq<(EffectView, ConfidenceLevel, Option<DamageTag>)>, id: Seq<char>) -> Option<int>
    decreases rows.len(),
{
    if rows.len() == 0 {
        None
    } else {
        let prior = raised_cap(rows.drop_last(), id);
        match rows.last().0 {
            EffectView::RaiseCap(sid, v) => if sid == id {
                match prior {
                    Some(p) => Some(if v > p { v } else { p }),
                    None => Some(v),
                }
            } else {
                prior
            },
            _ => prior,
        }
    }
}

// ── Effect collection, specified ────────────────────────────────────────

/// One ability the loadout brings: perk or skill, its id, and whether a
/// party member brings it.
pub struct AbilityRef {
    /// A perk rather than a skill.
    pub perk: bool,
    /// The ability's id.
    pub id: Seq<char>,
    /// Brought by a party member.
    pub party: bool,
}

/// Every ability in application order: own perks, own skills, party perks,
/// party skills, each list in declaration order.
pub open spec fn abilities(l: Loadout) -> Seq<AbilityRef> {
    l.perks@.map_values(|p: PerkId| AbilityRef { perk: true, id: p@, party: false })
        + l.skills@.map_values(|s: SkillId| AbilityRef { perk: false, id: s@, party: false })
        + l.party.perks@.map_values(|p: PerkId| AbilityRef { perk: true, id: p@, party: true })
        + l.party.skills@.map_values(|s: SkillId| AbilityRef { perk: false, id: s@, party: true })
}

/// Whether a class list admits the class: empty admits everyone.
pub open spec fn admits(required: Seq<ClassId>, class: Seq<char>) -> bool {
    required.len() == 0 || exists|i: int| 0 <= i < required.len() && (#[trigger] required[i])@ == class
}

/// One dataset effect at the loadout's stack count: a non-stacking effect
/// as it is; a stacking one at the stated count (refused above its
/// maximum), or at its maximum graded `Unknown` when the count is unstated.
pub open spec fn entry_row(e: StackedEffect, source: Seq<char>, stacks: Map<Seq<char>, u32>) -> Option<(EffectView, ConfidenceLevel, Option<DamageTag>)> {
    let v = e.effect.spec_value()@;
    match e.max_stacks {
        None => Some((v, e.effect.spec_level(), e.when_tag)),
        Some(max) => if stacks.contains_key(source) {
            let s = stacks[source];
            if s > max || !scale_fits(v, s) { None } else { Some((scaled_view(v, s), e.effect.spec_level(), e.when_tag)) }
        } else {
            if !scale_fits(v, max) { None } else { Some((scaled_view(v, max), ConfidenceLevel::Unknown, e.when_tag)) }
        },
    }
}

/// All of one ability's effects at the loadout's stack counts.
pub open spec fn entries_rows(es: Seq<StackedEffect>, source: Seq<char>, stacks: Map<Seq<char>, u32>) -> Option<Seq<(EffectView, ConfidenceLevel, Option<DamageTag>)>>
    decreases es.len(),
{
    if es.len() == 0 {
        Some(Seq::empty())
    } else {
        match (entries_rows(es.drop_last(), source, stacks), entry_row(es.last(), source, stacks)) {
            (Some(p), Some(r)) => Some(p.push(r)),
            _ => None,
        }
    }
}

/// Prepends collected rows to a later result.
pub open spec fn prepend(p: Seq<(EffectView, ConfidenceLevel, Option<DamageTag>)>, rest: Option<Seq<(EffectView, ConfidenceLevel, Option<DamageTag>)>>) -> Option<Seq<(EffectView, ConfidenceLevel, Option<DamageTag>)>> {
    match rest {
        Some(r) => Some(p + r),
        None => None,
    }
}

/// The effects of abilities `k..`, given which ids are already in force.
/// An ability applies once, however many people bring it; the first holder
/// counts. `None` when an ability is unknown, refused for the class, or
/// asks for an impossible stack count.
pub open spec fn collect_from(abs: Seq<AbilityRef>, k: int, data: InMemoryDataset, class: Seq<char>, stacks: Map<Seq<char>, u32>, seen: Set<Seq<char>>) -> Option<Seq<(EffectView, ConfidenceLevel, Option<DamageTag>)>>
    decreases abs.len() - k,
{
    if k < 0 || k >= abs.len() {
        Some(Seq::empty())
    } else {
        let a = abs[k];
        if a.perk {
            if !data.perks().contains_key(a.id) {
                None
            } else {
                let def = data.perks()[a.id];
                if !admits(def.required_classes@, class) {
                    None
                } else if seen.contains(a.id) {
                    collect_from(abs, k + 1, data, class, stacks, seen)
                } else {
                    match entries_rows(def.effects@, a.id, stacks) {
                        Some(rows) => prepend(rows, collect_from(abs, k + 1, data, class, stacks, seen.insert(a.id))),
                        None => None,
                    }
                }
            }
        } else {
            if !data.skills().contains_key(a.id) {
                None
            } else {
                let def = data.skills()[a.id];
                if !a.party && !admits(def.required_classes@, class) {
                    None
                } else if seen.contains(a.id) {
                    collect_from(abs, k + 1, data, class, stacks, seen)
                } else {
                    match entries_rows(def.effects@, a.id, stacks) {
                        Some(rows) => prepend(rows, collect_from(abs, k + 1, data, class, stacks, seen.insert(a.id))),
                        None => None,
                    }
                }
            }
        }
    }
}

/// Every effect the loadout's abilities contribute, in application order.
pub open spec fn collected(l: Loadout, data: InMemoryDataset) -> Option<Seq<(EffectView, ConfidenceLevel, Option<DamageTag>)>> {
    collect_from(abilities(l), 0, data, l.class@, l.stacks.view(), Set::empty())
}

/// How the trace names an ability: its name, marked when a party member
/// brings it.
pub open spec fn ability_display(data: InMemoryDataset, a: AbilityRef) -> Seq<char> {
    let name = if a.perk { data.perks()[a.id].name@ } else { data.skills()[a.id].name@ };
    if a.party { name + " (party)"@ } else { name }
}

/// The abilities from `k` on that are skipped because the same one is
/// already in force, by display name, in order.
pub open spec fn ignored_from(abs: Seq<AbilityRef>, k: int, data: InMemoryDataset, seen: Set<Seq<char>>) -> Seq<Seq<char>>
    decreases abs.len() - k,
{
    if k < 0 || k >= abs.len() {
        Seq::empty()
    } else if seen.contains(abs[k].id) {
        seq![ability_display(data, abs[k])] + ignored_from(abs, k + 1, data, seen)
    } else {
        ignored_from(abs, k + 1, data, seen.insert(abs[k].id))
    }
}

/// Every ability of the loadout that is skipped as already in force.
pub open spec fn ignored_names(l: Loadout, data: InMemoryDataset) -> Seq<Seq<char>> {
    ignored_from(abilities(l), 0, data, Set::empty())
}

/// Names separated by `", "`.
pub open spec fn comma_joined(names: Seq<Seq<char>>) -> Seq<char>
    decreases names.len(),
{
    if names.len() == 0 {
        Seq::empty()
    } else {
        (if names.len() == 1 { Seq::empty() } else { comma_joined(names.drop_last()) + ", "@ }) + names.last()
    }
}

/// What stage 3 says of duplicates: that there are none, or which
/// abilities contributed nothing.
pub open spec fn duplicates_text(names: Seq<Seq<char>>) -> Seq<char> {
    if names.len() == 0 {
        "none: every ability in the loadout is distinct"@
    } else {
        "already in force, so contributed nothing: "@ + comma_joined(names)
    }
}

/// The trace holds stage 3's note on duplicate abilities, naming `names`.
pub open spec fn duplicates_noted(t: Seq<StageNote>, names: Seq<Seq<char>>) -> bool {
    exists|j: int| 0 <= j < t.len() && (#[trigger] t[j]).stage == 3 && t[j].label@ == "duplicate abilities"@
        && t[j].detail@ == duplicates_text(names)
}

/// Whether a party member's copy of an ability gets past the checks that
/// come before the duplicate test: the ability is known and, for a perk,
/// open to the class (a party member's skill is not held to the class).
pub open spec fn party_copy_passes(x: AbilityRef, data: InMemoryDataset, class: Seq<char>) -> bool {
    if x.perk {
        data.perks().contains_key(x.id) && admits(data.perks()[x.id].required_classes@, class)
    } else {
        data.skills().contains_key(x.id)
    }
}

/// The list `s` with `x` put in at position `m`.
pub open spec fn inserted(s: Seq<AbilityRef>, m: int, x: AbilityRef) -> Seq<AbilityRef> {
    s.take(m).push(x) + s.skip(m)
}

/// Two lists that agree from positions `a` and `b` on collect the same
/// effects from there.
proof fn lemma_collect_same_tail(
    t: Seq<AbilityRef>,
    a: int,
    s: Seq<AbilityRef>,
    b: int,
    data: InMemoryDataset,
    class: Seq<char>,
    stacks: Map<Seq<char>, u32>,
    seen: Set<Seq<char>>,
)
    requires
        0 <= a,
        0 <= b <= s.len(),
        t.len() - a == s.len() - b,
        forall|d: int| 0 <= d < s.len() - b ==> #[trigger] t[a + d] == s[b + d],
    ensures
        collect_from(t, a, data, class, stacks, seen) == collect_from(s, b, data, class, stacks, seen),
    decreases s.len() - b,
{
    if b < s.len() {
        assert(t[a + 0] == s[b + 0]);
        assert(t[a] == s[b]);
        assert forall|d: int| 0 <= d < s.len() - (b + 1) implies #[trigger] t[(a + 1) + d] == s[(b + 1) + d] by {
            assert(t[a + (d + 1)] == s[b + (d + 1)]);
        }
        lemma_collect_same_tail(t, a + 1, s, b + 1, data, class, stacks, seen);
        lemma_collect_same_tail(t, a + 1, s, b + 1, data, class, stacks, seen.insert(s[b].id));
    }
}

/// A party member's copy `x` of an ability, put in at position `m`, adds
/// nothing when the same ability comes earlier (between `k` and `m`), or is
/// already in force and gets past its checks.
proof fn lemma_party_copy_skipped(
    s: Seq<AbilityRef>,
    m: int,
    x: AbilityRef,
    k: int,
    data: InMemoryDataset,
    class: Seq<char>,
    stacks: Map<Seq<char>, u32>,
    seen: Set<Seq<char>>,
)
    requires
        0 <= k <= m <= s.len(),
        x.party,
        (exists|j: int| k <= j < m && (#[trigger] s[j]).perk == x.perk && s[j].id == x.id)
            || (seen.contains(x.id) && party_copy_passes(x, data, class)),
    ensures
        collect_from(inserted(s, m, x), k, data, class, stacks, seen) == collect_from(s, k, data, class, stacks, seen),
    decreases m - k,
{
    let t = inserted(s, m, x);
    assert(t.len() == s.len() + 1);
    assert forall|i: int| 0 <= i < m implies #[trigger] t[i] == s[i] by {}
    assert(t[m] == x);
    if k == m {
        assert forall|d: int| 0 <= d < s.len() - m implies #[trigger] t[(m + 1) + d] == s[m + d] by {}
        lemma_collect_same_tail(t, m + 1, s, m, data, class, stacks, seen);
    } else {
        let a = s[k];
        assert(t[k] == a);
        let passes = if a.perk {
            data.perks().contains_key(a.id) && admits(data.perks()[a.id].required_classes@, class)
        } else {
            data.skills().contains_key(a.id) && (a.party || admits(data.skills()[a.id].required_classes@, class))
        };
        if passes {
            let here = a.perk == x.perk && a.id == x.id;
            let later = exists|j: int| k + 1 <= j < m && (#[trigger] s[j]).perk == x.perk && s[j].id == x.id;
            if !here && !later && !(seen.contains(x.id) && party_copy_passes(x, data, class)) {
                let j = choose|j: int| k <= j < m && (#[trigger] s[j]).perk == x.perk && s[j].id == x.id;
                if j > k {
                    assert(later);
                }
            }
            lemma_party_copy_skipped(s, m, x, k + 1, data, class, stacks, seen.insert(a.id));
            if seen.contains(a.id) {
                lemma_party_copy_skipped(s, m, x, k + 1, data, class, stacks, seen);
            }
        }
    }
}

/// The abilities of a loadout that has one party perk more than another,
/// the two being otherwise alike: the new one comes after the party's
/// earlier perks.
proof fn lemma_abilities_with_party_perk(solo: Loadout, shared: Loadout, p: PerkId)
    requires
        shared.perks@ == solo.perks@,
        shared.skills@ == solo.skills@,
        shared.party.skills@ == solo.party.skills@,
        shared.party.perks@ == solo.party.perks@.push(p),
    ensures
        abilities(shared) =~= inserted(
            abilities(solo),
            (solo.perks@.len() + solo.skills@.len() + solo.party.perks@.len()) as int,
            AbilityRef { perk: true, id: p@, party: true },
        ),
{
    let x = AbilityRef { perk: true, id: p@, party: true };
    let own = solo.perks@.map_values(|q: PerkId| AbilityRef { perk: true, id: q@, party: false })
        + solo.skills@.map_values(|q: SkillId| AbilityRef { perk: false, id: q@, party: false });
    let pp = solo.party.perks@.map_values(|q: PerkId| AbilityRef { perk: true, id: q@, party: true });
    let ps = solo.party.skills@.map_values(|q: SkillId| AbilityRef { perk: false, id: q@, party: true });
    assert(shared.party.perks@.map_values(|q: PerkId| AbilityRef { perk: true, id: q@, party: true }) =~= pp.push(x));
    let m: int = (own.len() + pp.len()) as int;
    assert(abilities(solo) =~= own + pp + ps);
    assert(abilities(shared) =~= own + pp.push(x) + ps);
    assert(abilities(solo).take(m) =~= own + pp);
    assert(abilities(solo).skip(m) =~= ps);
}

/// The abilities of a loadout that has one party skill more than another,
/// the two being otherwise alike: the new one comes last.
proof fn lemma_abilities_with_party_skill(solo: Loadout, shared: Loadout, k: SkillId)
    requires
        shared.perks@ == solo.perks@,
        shared.skills@ == solo.skills@,
        shared.party.perks@ == solo.party.perks@,
        shared.party.skills@ == solo.party.skills@.push(k),
    ensures
        abilities(shared) =~= inserted(
            abilities(solo),
            abilities(solo).len() as int,
            AbilityRef { perk: false, id: k@, party: true },
        ),
{
    let x = AbilityRef { perk: false, id: k@, party: true };
    let front = solo.perks@.map_values(|q: PerkId| AbilityRef { perk: true, id: q@, party: false })
        + solo.skills@.map_values(|q: SkillId| AbilityRef { perk: false, id: q@, party: false })
        + solo.party.perks@.map_values(|q: PerkId| AbilityRef { perk: true, id: q@, party: true });
    let ps = solo.party.skills@.map_values(|q: SkillId| AbilityRef { perk: false, id: q@, party: true });
    assert(shared.party.skills@.map_values(|q: SkillId| AbilityRef { perk: false, id: q@, party: true }) =~= ps.push(x));
    assert(abilities(solo) =~= front + ps);
    assert(abilities(shared) =~= front + ps.push(x));
    let n = abilities(solo).len() as int;
    assert(abilities(solo).take(n) =~= abilities(solo));
    assert(abilities(solo).skip(n) =~= Seq::<AbilityRef>::empty());
}

/// A party member's copy `x` of an ability, put in at position `m`, is
/// named among the skipped ones when the same id comes earlier (between
/// `k` and `m`) or is already in force.
proof fn lemma_party_copy_named(
    s: Seq<AbilityRef>,
    m: int,
    x: AbilityRef,
    k: int,
    data: InMemoryDataset,
    seen: Set<Seq<char>>,
)
    requires
        0 <= k <= m <= s.len(),
        (exists|j: int| k <= j < m && (#[trigger] s[j]).id == x.id) || seen.contains(x.id),
    ensures
        ignored_from(inserted(s, m, x), k, data, seen).contains(ability_display(data, x)),
    decreases m - k,
{
    let t = inserted(s, m, x);
    assert(t.len() == s.len() + 1);
    assert forall|i: int| 0 <= i < m implies #[trigger] t[i] == s[i] by {}
    assert(t[m] == x);
    if k == m {
        let r = ignored_from(t, m, data, seen);
        assert(r == seq![ability_display(data, x)] + ignored_from(t, m + 1, data, seen));
        assert(r[0] == ability_display(data, x));
    } else {
        let a = s[k];
        assert(t[k] == a);
        let seen2 = if seen.contains(a.id) { seen } else { seen.insert(a.id) };
        if !seen2.contains(x.id) {
            let j = choose|j: int| k <= j < m && (#[trigger] s[j]).id == x.id;
            if j == k {
                assert(seen2.contains(a.id));
            }
            assert(k + 1 <= j < m && s[j].id == x.id);
        }
        lemma_party_copy_named(s, m, x, k + 1, data, seen2);
        let rest = ignored_from(t, k + 1, data, seen2);
        let i = choose|i: int| 0 <= i < rest.len() && rest[i] == ability_display(data, x);
        if seen.contains(a.id) {
            let r = seq![ability_display(data, a)] + rest;
            assert(r[i + 1] == ability_display(data, x));
            assert(r.contains(ability_display(data, x)));
        } else {
            assert(rest.contains(ability_display(data, x)));
        }
    }
}

/// **A shared skill applies once.** A party member who brings a skill the
/// character already slots changes nothing: the collected effects are the
/// same, and so is everything a resolution states of the result but its
/// trace, whose stage 3 note names the party's copy as contributing
/// nothing.
pub proof fn law_a_shared_skill_applies_once(solo: Loadout, shared: Loadout, k: SkillId, data: InMemoryDataset, r: Resolved)
    requires
        shared.class@ == solo.class@,
        shared.perks@ == solo.perks@,
        shared.skills@ == solo.skills@,
        shared.gear@ == solo.gear@,
        shared.stacks.view() == solo.stacks.view(),
        shared.party.perks@ == solo.party.perks@,
        shared.party.skills@ == solo.party.skills@.push(k),
        exists|i: int| 0 <= i < solo.skills@.len() && (#[trigger] solo.skills@[i])@ == k@,
    ensures
        collected(shared, data) == collected(solo, data),
        resolved_from(shared.class@, shared.gear@, collected(shared, data), data, r)
            == resolved_from(solo.class@, solo.gear@, collected(solo, data), data, r),
        ignored_names(shared, data).contains(ability_display(data, AbilityRef { perk: false, id: k@, party: true })),
{
    let x = AbilityRef { perk: false, id: k@, party: true };
    let s = abilities(solo);
    lemma_abilities_with_party_skill(solo, shared, k);
    let i = choose|i: int| 0 <= i < solo.skills@.len() && (#[trigger] solo.skills@[i])@ == k@;
    let j = solo.perks@.len() + i;
    assert(s[j] == AbilityRef { perk: false, id: solo.skills@[i]@, party: false });
    assert(s[j].perk == x.perk && s[j].id == x.id);
    lemma_party_copy_skipped(s, s.len() as int, x, 0, data, solo.class@, solo.stacks.view(), Set::empty());
    lemma_party_copy_named(s, s.len() as int, x, 0, data, Set::empty());
}

/// **A shared perk applies once.** A party member who brings a perk the
/// character already slots changes nothing: the collected effects are the
/// same, and so is everything a resolution states of the result but its
/// trace, whose stage 3 note names the party's copy as contributing
/// nothing.
pub proof fn law_a_shared_perk_applies_once(solo: Loadout, shared: Loadout, p: PerkId, data: InMemoryDataset, r: Resolved)
    requires
        shared.class@ == solo.class@,
        shared.perks@ == solo.perks@,
        shared.skills@ == solo.skills@,
        shared.gear@ == solo.gear@,
        shared.stacks.view() == solo.stacks.view(),
        shared.party.skills@ == solo.party.skills@,
        shared.party.perks@ == solo.party.perks@.push(p),
        exists|i: int| 0 <= i < solo.perks@.len() && (#[trigger] solo.perks@[i])@ == p@,
    ensures
        collected(shared, data) == collected(solo, data),
        resolved_from(shared.class@, shared.gear@, collected(shared, data), data, r)
            == resolved_from(solo.class@, solo.gear@, collected(solo, data), data, r),
        ignored_names(shared, data).contains(ability_display(data, AbilityRef { perk: true, id: p@, party: true })),
{
    let x = AbilityRef { perk: true, id: p@, party: true };
    let s = abilities(solo);
    let m: int = (solo.perks@.len() + solo.skills@.len() + solo.party.perks@.len()) as int;
    lemma_abilities_with_party_perk(solo, shared, p);
    let i = choose|i: int| 0 <= i < solo.perks@.len() && (#[trigger] solo.perks@[i])@ == p@;
    assert(s[i] == AbilityRef { perk: true, id: solo.perks@[i]@, party: false });
    assert(s[i].perk == x.perk && s[i].id == x.id);
    lemma_party_copy_skipped(s, m, x, 0, data, solo.class@, solo.stacks.view(), Set::empty());
    lemma_party_copy_named(s, m, x, 0, data, Set::empty());
}

// ── Sums and parts ──────────────────────────────────────────────────────

/// Graded numbers as plain values.
pub open spec fn graded_seq(v: Seq<Confidence<Fixed>>) -> Seq<(int, ConfidenceLevel)> {
    v.map_values(|c: Confidence<Fixed>| graded(c))
}

/// Collected effects as plain rows.
pub open spec fn rows_of(v: Seq<SourcedEffect>) -> Seq<(EffectView, ConfidenceLevel, Option<DamageTag>)> {
    v.map_values(|e: SourcedEffect| row_of(e))
}

proof fn lemma_graded_push(v: Seq<Confidence<Fixed>>, c: Confidence<Fixed>)
    ensures
        graded_seq(v.push(c)) == graded_seq(v).push(graded(c)),
{
    assert(graded_seq(v.push(c)) =~= graded_seq(v).push(graded(c)));
}

proof fn lemma_rows_push(v: Seq<SourcedEffect>, e: SourcedEffect)
    ensures
        rows_of(v.push(e)) == rows_of(v).push(row_of(e)),
{
    assert(rows_of(v.push(e)) =~= rows_of(v).push(row_of(e)));
}

/// Sums graded values; the sum's grade is the minimum over the inputs. An
/// empty sum is `Verified(0)` — the absence of modifiers is a certain fact.
/// `None` when a partial sum leaves the range.
fn fold_sum(parts: &Vec<Confidence<Fixed>>) -> (r: Option<Confidence<Fixed>>)
    ensures
        sum_parts(graded_seq(parts@)) is None ==> r is None,
        sum_parts(graded_seq(parts@)) is Some ==> r is Some
            && r->0.spec_value()@ == sum_parts(graded_seq(parts@))->0
            && r->0.spec_level() == parts_level(graded_seq(parts@)),
{
    let mut acc: Confidence<Fixed> = Confidence::Verified(Fixed::zero());
    let mut i: usize = 0;
    while i < parts.len()
        invariant
            i <= parts@.len(),
            sum_parts(graded_seq(parts@.subrange(0, i as int))) == Some(acc.spec_value()@),
            parts_level(graded_seq(parts@.subrange(0, i as int))) == acc.spec_level(),
        decreases parts@.len() - i,
    {
        let ghost pre = parts@.subrange(0, i as int);
        proof {
            assert(parts@.subrange(0, i + 1) == pre.push(parts@[i as int]));
            lemma_graded_push(pre, parts@[i as int]);
            assert(graded_seq(pre.push(parts@[i as int])).drop_last() == graded_seq(pre));
        }
        let next = match acc.value().checked_plus(*parts[i].value()) {
            Some(v) => v,
            None => {
                proof {
                    assert(graded_seq(parts@).subrange(0, i + 1) =~= graded_seq(parts@.subrange(0, i + 1)));
                    lemma_sum_none_extends(graded_seq(parts@), i as int + 1);
                }
                return None;
            },
        };
        acc = acc.join(&parts[i], next);
        i = i + 1;
    }
    assert(parts@.subrange(0, parts@.len() as int) =~= parts@);
    Some(acc)
}

/// Once a prefix overflows, so does the whole sum.
pub proof fn lemma_sum_none_extends(p: Seq<(int, ConfidenceLevel)>, k: int)
    requires
        0 <= k <= p.len(),
        sum_parts(p.subrange(0, k)) is None,
    ensures
        sum_parts(p) is None,
    decreases p.len() - k,
{
    if k < p.len() {
        assert(p.subrange(0, k + 1).drop_last() =~= p.subrange(0, k));
        lemma_sum_none_extends(p, k + 1);
    } else {
        assert(p.subrange(0, k) =~= p);
    }
}

/// Whether every piece's item is in the dataset.
pub open spec fn gear_known(gear: Seq<GearPiece>, data: InMemoryDataset) -> bool {
    forall|i: int| 0 <= i < gear.len() ==> data.items().contains_key((#[trigger] gear[i]).id@)
}

/// Appends what the pieces print for stat `id`.
fn push_grant_parts(gear: &Vec<GearPiece>, data: &InMemoryDataset, id: &str, parts: &mut Vec<Confidence<Fixed>>)
    requires
        data.wf(),
        gear_known(gear@, *data),
    ensures
        graded_seq(final(parts)@) == graded_seq(old(parts)@) + item_grant_parts(gear@, *data, id@),
{
    let mut i: usize = 0;
    while i < gear.len()
        invariant
            i <= gear@.len(),
            data.wf(),
            gear_known(gear@, *data),
            graded_seq(parts@) == graded_seq(old(parts)@) + item_grant_parts(gear@.subrange(0, i as int), *data, id@),
        decreases gear@.len() - i,
    {
        let ghost pre = gear@.subrange(0, i as int);
        proof {
            assert(gear@.subrange(0, i + 1).drop_last() == pre);
            assert(gear@.subrange(0, i + 1).last() == gear@[i as int]);
        }
        let item = data.item(&gear[i].id).unwrap();
        let ghost before = parts@;
        match item.grants.get(id) {
            Some(v) => {
                let c = v.copied();
                parts.push(c);
                proof { lemma_graded_push(before, *v); }
            },
            None => {},
        }
        proof {
            assert(graded_seq(parts@) =~= graded_seq(old(parts)@) + item_grant_parts(gear@.subrange(0, i + 1), *data, id@));
        }
        i = i + 1;
    }
    assert(gear@.subrange(0, gear@.len() as int) =~= gear@);
}

/// Appends what one piece's rolls add to stat `id`.
fn push_roll_parts(rolls: &Vec<Roll>, id: &str, parts: &mut Vec<Confidence<Fixed>>)
    ensures
        graded_seq(final(parts)@) == graded_seq(old(parts)@) + roll_parts(rolls@, id@),
{
    let mut i: usize = 0;
    while i < rolls.len()
        invariant
            i <= rolls@.len(),
            graded_seq(parts@) == graded_seq(old(parts)@) + roll_parts(rolls@.subrange(0, i as int), id@),
        decreases rolls@.len() - i,
    {
        proof {
            assert(rolls@.subrange(0, i + 1).drop_last() == rolls@.subrange(0, i as int));
            assert(rolls@.subrange(0, i + 1).last() == rolls@[i as int]);
        }
        let ghost before = parts@;
        if let Roll::Derived(rid, v) = &rolls[i] {
            if str_eq(rid.as_str(), id) {
                parts.push(Confidence::Verified(*v));
                proof { lemma_graded_push(before, Confidence::Verified(*v)); }
            }
        }
        proof {
            assert(graded_seq(parts@) =~= graded_seq(old(parts)@) + roll_parts(rolls@.subrange(0, i + 1), id@));
        }
        i = i + 1;
    }
    assert(rolls@.subrange(0, rolls@.len() as int) =~= rolls@);
}

/// Appends what every piece's rolls add to stat `id`.
fn push_gear_roll_parts(gear: &Vec<GearPiece>, id: &str, parts: &mut Vec<Confidence<Fixed>>)
    ensures
        graded_seq(final(parts)@) == graded_seq(old(parts)@) + gear_roll_parts(gear@, id@),
{
    let mut i: usize = 0;
    while i < gear.len()
        invariant
            i <= gear@.len(),
            graded_seq(parts@) == graded_seq(old(parts)@) + gear_roll_parts(gear@.subrange(0, i as int), id@),
        decreases gear@.len() - i,
    {
        proof {
            assert(gear@.subrange(0, i + 1).drop_last() == gear@.subrange(0, i as int));
            assert(gear@.subrange(0, i + 1).last() == gear@[i as int]);
        }
        push_roll_parts(&gear[i].rolls, id, parts);
        proof {
            assert(graded_seq(parts@) =~= graded_seq(old(parts)@) + gear_roll_parts(gear@.subrange(0, i + 1), id@));
        }
        i = i + 1;
    }
    assert(gear@.subrange(0, gear@.len() as int) =~= gear@);
}

/// Appends the unconditional bonuses the abilities add to stat `id`.
fn push_ability_parts(effects: &Vec<SourcedEffect>, id: &str, parts: &mut Vec<Confidence<Fixed>>)
    ensures
        graded_seq(final(parts)@) == graded_seq(old(parts)@) + ability_bonus_parts(rows_of(effects@), id@),
{
    let mut i: usize = 0;
    while i < effects.len()
        invariant
            i <= effects@.len(),
            graded_seq(parts@) == graded_seq(old(parts)@) + ability_bonus_parts(rows_of(effects@.subrange(0, i as int)), id@),
        decreases effects@.len() - i,
    {
        proof {
            assert(effects@.subrange(0, i + 1) == effects@.subrange(0, i as int).push(effects@[i as int]));
            lemma_rows_push(effects@.subrange(0, i as int), effects@[i as int]);
            assert(rows_of(effects@.subrange(0, i + 1)).drop_last() == rows_of(effects@.subrange(0, i as int)));
        }
        let ghost before = parts@;
        let e = &effects[i];
        if let Effect::DerivedBonus(sid, v) = e.effect.value() {
            if str_eq(sid.as_str(), id) && e.when_tag.is_none() {
                let c = e.effect.with_value(*v);
                let ghost gc = c;
                parts.push(c);
                proof { lemma_graded_push(before, gc); }
            }
        }
        proof {
            assert(graded_seq(parts@) =~= graded_seq(old(parts)@) + ability_bonus_parts(rows_of(effects@.subrange(0, i + 1)), id@));
        }
        i = i + 1;
    }
    assert(effects@.subrange(0, effects@.len() as int) =~= effects@);
}

/// The Item Armor Rating Bonus terms the abilities contribute.
fn armor_bonus_list(effects: &Vec<SourcedEffect>) -> (parts: Vec<Confidence<Fixed>>)
    ensures
        graded_seq(parts@) == armor_bonus_parts(rows_of(effects@)),
{
    let mut parts: Vec<Confidence<Fixed>> = Vec::new();
    let mut i: usize = 0;
    while i < effects.len()
        invariant
            i <= effects@.len(),
            graded_seq(parts@) == armor_bonus_parts(rows_of(effects@.subrange(0, i as int))),
        decreases effects@.len() - i,
    {
        proof {
            assert(effects@.subrange(0, i + 1) == effects@.subrange(0, i as int).push(effects@[i as int]));
            lemma_rows_push(effects@.subrange(0, i as int), effects@[i as int]);
            assert(rows_of(effects@.subrange(0, i + 1)).drop_last() == rows_of(effects@.subrange(0, i as int)));
        }
        let ghost before = parts@;
        let e = &effects[i];
        if let Effect::ItemArmorBonus(v) = e.effect.value() {
            let c = e.effect.with_value(*v);
            let ghost gc = c;
            parts.push(c);
            proof { lemma_graded_push(before, gc); }
        }
        proof {
            assert(graded_seq(parts@) =~= armor_bonus_parts(rows_of(effects@.subrange(0, i + 1))));
        }
        i = i + 1;
    }
    assert(effects@.subrange(0, effects@.len() as int) =~= effects@);
    parts
}

/// Flat move speed: the gear's (item, then rolls, per piece), then the
/// abilities'.
fn move_parts(gear: &Vec<GearPiece>, data: &InMemoryDataset, effects: &Vec<SourcedEffect>) -> (parts: Vec<Confidence<Fixed>>)
    requires
        data.wf(),
        gear_known(gear@, *data),
    ensures
        graded_seq(parts@) == gear_move_parts(gear@, *data) + ability_move_parts(rows_of(effects@)),
{
    let mut parts: Vec<Confidence<Fixed>> = Vec::new();
    let mut i: usize = 0;
    while i < gear.len()
        invariant
            i <= gear@.len(),
            data.wf(),
            gear_known(gear@, *data),
            graded_seq(parts@) == gear_move_parts(gear@.subrange(0, i as int), *data),
        decreases gear@.len() - i,
    {
        proof {
            assert(gear@.subrange(0, i + 1).drop_last() == gear@.subrange(0, i as int));
            assert(gear@.subrange(0, i + 1).last() == gear@[i as int]);
        }
        let item = data.item(&gear[i].id).unwrap();
        let ghost before = parts@;
        match &item.move_speed_add {
            Some(c) => {
                parts.push(c.copied());
                proof { lemma_graded_push(before, *c); }
            },
            None => {},
        }
        let ghost mid = parts@;
        let rolls = &gear[i].rolls;
        let mut j: usize = 0;
        while j < rolls.len()
            invariant
                j <= rolls@.len(),
                graded_seq(parts@) == graded_seq(mid) + move_roll_parts(rolls@.subrange(0, j as int)),
            decreases rolls@.len() - j,
        {
            proof {
                assert(rolls@.subrange(0, j + 1).drop_last() == rolls@.subrange(0, j as int));
                assert(rolls@.subrange(0, j + 1).last() == rolls@[j as int]);
            }
            let ghost b2 = parts@;
            if let Roll::MoveSpeedAdd(v) = &rolls[j] {
                parts.push(Confidence::Verified(*v));
                proof { lemma_graded_push(b2, Confidence::Verified(*v)); }
            }
            proof {
                assert(graded_seq(parts@) =~= graded_seq(mid) + move_roll_parts(rolls@.subrange(0, j + 1)));
            }
            j = j + 1;
        }
        proof {
            assert(rolls@.subrange(0, rolls@.len() as int) =~= rolls@);
            assert(graded_seq(parts@) =~= gear_move_parts(gear@.subrange(0, i + 1), *data));
        }
        i = i + 1;
    }
    assert(gear@.subrange(0, gear@.len() as int) =~= gear@);
    let ghost gear_part = parts@;
    let mut i: usize = 0;
    while i < effects.len()
        invariant
            i <= effects@.len(),
            graded_seq(parts@) == graded_seq(gear_part) + ability_move_parts(rows_of(effects@.subrange(0, i as int))),
        decreases effects@.len() - i,
    {
        proof {
            assert(effects@.subrange(0, i + 1) == effects@.subrange(0, i as int).push(effects@[i as int]));
            lemma_rows_push(effects@.subrange(0, i as int), effects@[i as int]);
            assert(rows_of(effects@.subrange(0, i + 1)).drop_last() == rows_of(effects@.subrange(0, i as int)));
        }
        let ghost before = parts@;
        let e = &effects[i];
        if let Effect::MoveSpeedAdd(v) = e.effect.value() {
            let c = e.effect.with_value(*v);
            let ghost gc = c;
            parts.push(c);
            proof { lemma_graded_push(before, gc); }
        }
        proof {
            assert(graded_seq(parts@) =~= graded_seq(gear_part) + ability_move_parts(rows_of(effects@.subrange(0, i + 1))));
        }
        i = i + 1;
    }
    assert(effects@.subrange(0, effects@.len() as int) =~= effects@);
    parts
}

/// Percentage move speed the abilities add.
fn move_bonus_list(effects: &Vec<SourcedEffect>) -> (parts: Vec<Confidence<Fixed>>)
    ensures
        graded_seq(parts@) == ability_move_bonus_parts(rows_of(effects@)),
{
    let mut parts: Vec<Confidence<Fixed>> = Vec::new();
    let mut i: usize = 0;
    while i < effects.len()
        invariant
            i <= effects@.len(),
            graded_seq(parts@) == ability_move_bonus_parts(rows_of(effects@.subrange(0, i as int))),
        decreases effects@.len() - i,
    {
        proof {
            assert(effects@.subrange(0, i + 1) == effects@.subrange(0, i as int).push(effects@[i as int]));
            lemma_rows_push(effects@.subrange(0, i as int), effects@[i as int]);
            assert(rows_of(effects@.subrange(0, i + 1)).drop_last() == rows_of(effects@.subrange(0, i as int)));
        }
        let ghost before = parts@;
        let e = &effects[i];
        if let Effect::MoveSpeedBonus(v) = e.effect.value() {
            let c = e.effect.with_value(*v);
            let ghost gc = c;
            parts.push(c);
            proof { lemma_graded_push(before, gc); }
        }
        proof {
            assert(graded_seq(parts@) =~= ability_move_bonus_parts(rows_of(effects@.subrange(0, i + 1))));
        }
        i = i + 1;
    }
    assert(effects@.subrange(0, effects@.len() as int) =~= effects@);
    parts
}

/// The highest cap each stat is raised to by an ability. A cap-raiser lifts
/// the ceiling; it never lowers it.
fn raised_caps(effects: &Vec<SourcedEffect>) -> (caps: IdMap<DerivedStatId, Fixed>)
    ensures
        caps.wf(),
        forall|id: Seq<char>| #[trigger] caps.view().contains_key(id) <==> raised_cap(rows_of(effects@), id) is Some,
        forall|id: Seq<char>| #[trigger] caps.view().contains_key(id) ==> caps.view()[id]@ == raised_cap(rows_of(effects@), id)->0,
{
    let mut caps: IdMap<DerivedStatId, Fixed> = IdMap::new();
    let mut i: usize = 0;
    while i < effects.len()
        invariant
            i <= effects@.len(),
            caps.wf(),
            forall|id: Seq<char>| #[trigger] caps.view().contains_key(id) <==> raised_cap(rows_of(effects@.subrange(0, i as int)), id) is Some,
            forall|id: Seq<char>| #[trigger] caps.view().contains_key(id) ==> caps.view()[id]@ == raised_cap(rows_of(effects@.subrange(0, i as int)), id)->0,
        decreases effects@.len() - i,
    {
        let ghost pre = rows_of(effects@.subrange(0, i as int));
        let ghost cur = rows_of(effects@.subrange(0, i + 1));
        proof {
            assert(effects@.subrange(0, i + 1) == effects@.subrange(0, i as int).push(effects@[i as int]));
            lemma_rows_push(effects@.subrange(0, i as int), effects@[i as int]);
            assert(cur.drop_last() == pre);
            assert(cur.last() == row_of(effects@[i as int]));
        }
        let ghost before = caps.view();
        if let Effect::RaiseCap(id, raised) = effects[i].effect.value() {
            let entry = match caps.get(id.as_str()) {
                Some(existing) => existing.max_of(*raised),
                None => *raised,
            };
            caps.insert(id.clone(), entry);
        }
        proof {
            assert forall|k: Seq<char>| #[trigger] caps.view().contains_key(k) <==> raised_cap(cur, k) is Some by {
                assert(raised_cap(cur, k) == raised_cap(cur, k));
            }
        }
        i = i + 1;
    }
    assert(effects@.subrange(0, effects@.len() as int) =~= effects@);
    caps
}

// ── Rendering for the trace ─────────────────────────────────────────────

/// A whole number with its sign always written: `+2`, `-3`.
pub open spec fn signed_int_text(n: int) -> Seq<char> {
    (if n >= 0 { seq!['+'] } else { Seq::<char>::empty() }) + crate::fixed::int_render(n)
}

/// Appends a whole number with its sign always written: `+2`, `-3`.
fn push_signed(n: i64, out: &mut Vec<char>)
    ensures
        final(out)@ == old(out)@ + signed_int_text(n as int),
{
    let ghost start = out@;
    if n >= 0 {
        out.push('+');
    }
    crate::fixed::push_int(n, out);
    proof {
        assert(out@ =~= start + signed_int_text(n as int));
    }
}

/// One attribute and its points, as the trace writes them.
pub open spec fn points_text(k: AttributeKind, n: int) -> Seq<char> {
    attribute_name(k) + seq![' '] + crate::fixed::int_render(n)
}

/// The first `n` attributes of a block, space-separated.
pub open spec fn block_text(b: AttributeBlock, n: int) -> Seq<char>
    decreases n,
{
    if n <= 0 {
        Seq::empty()
    } else if n == 1 {
        points_text(all_attributes()[0], block_get(b, all_attributes()[0]))
    } else {
        block_text(b, n - 1) + seq![' '] + points_text(all_attributes()[n - 1], block_get(b, all_attributes()[n - 1]))
    }
}

/// Renders an attribute block for the trace: `strength 9 vigor 6 …`.
fn render_block(block: &AttributeBlock) -> (r: String)
    ensures
        r@ == block_text(*block, 7),
{
    let mut out: Vec<char> = Vec::new();
    let all = AttributeKind::all();
    let mut i: usize = 0;
    while i < 7
        invariant
            i <= 7,
            all@ == all_attributes(),
            out@ == block_text(*block, i as int),
        decreases 7 - i,
    {
        let ghost before = out@;
        if i > 0 {
            out.push(' ');
        }
        append_chars(&mut out, all[i].as_str());
        out.push(' ');
        crate::fixed::push_int(block.get(all[i]).points() as i64, &mut out);
        proof {
            if i == 0 {
                assert(out@ =~= block_text(*block, 1));
            } else {
                assert(out@ =~= before + seq![' '] + points_text(all_attributes()[i as int], block_get(*block, all_attributes()[i as int])));
            }
        }
        i = i + 1;
    }
    string_of(&out)
}

/// One entry of a sparse delta, as the trace writes it.
pub open spec fn delta_entry_text(e: (AttributeKind, i32)) -> Seq<char> {
    attribute_name(e.0) + seq![' '] + signed_int_text(e.1 as int)
}

/// The entries of a sparse delta, space-separated.
pub open spec fn delta_entries_text(d: Seq<(AttributeKind, i32)>) -> Seq<char>
    decreases d.len(),
{
    if d.len() == 0 {
        Seq::empty()
    } else if d.len() == 1 {
        delta_entry_text(d[0])
    } else {
        delta_entries_text(d.drop_last()) + seq![' '] + delta_entry_text(d.last())
    }
}

/// A sparse delta as the trace writes it: `strength +2 will +9`, or
/// `nothing`.
pub open spec fn delta_text(d: Seq<(AttributeKind, i32)>) -> Seq<char> {
    if d.len() == 0 { "nothing"@ } else { delta_entries_text(d) }
}

/// Renders a sparse attribute delta: `strength +2 will +9`, or `nothing`.
fn render_delta(delta: &Vec<(AttributeKind, i32)>) -> (r: String)
    ensures
        r@ == delta_text(delta@),
{
    let mut out: Vec<char> = Vec::new();
    let mut i: usize = 0;
    while i < delta.len()
        invariant
            i <= delta@.len(),
            out@ == delta_entries_text(delta@.subrange(0, i as int)),
        decreases delta@.len() - i,
    {
        let ghost before = out@;
        if i > 0 {
            out.push(' ');
        }
        append_chars(&mut out, delta[i].0.as_str());
        out.push(' ');
        push_signed(delta[i].1 as i64, &mut out);
        proof {
            let next = delta@.subrange(0, i + 1);
            assert(next.drop_last() =~= delta@.subrange(0, i as int));
            assert(next.last() == delta@[i as int]);
            if i == 0 {
                assert(out@ =~= delta_entries_text(next));
            } else {
                assert(out@ =~= before + seq![' '] + delta_entry_text(delta@[i as int]));
            }
        }
        i = i + 1;
    }
    proof {
        assert(delta@.subrange(0, delta@.len() as int) =~= delta@);
    }
    if delta.len() == 0 {
        append_chars(&mut out, "nothing");
        proof {
            assert(out@ =~= "nothing"@);
        }
    }
    string_of(&out)
}

/// A trace note from parts.
fn note(stage: u8, label: &'static str, detail: String) -> (r: StageNote)
    ensures
        r.stage == stage,
        r.label == label,
        r.detail == detail,
{
    StageNote { stage, label, detail }
}

/// Whether a class list admits the class: empty admits everyone.
fn admits_class(required: &Vec<ClassId>, class: &ClassId) -> (r: bool)
    ensures
        r == admits(required@, class@),
{
    if required.len() == 0 {
        return true;
    }
    let mut i: usize = 0;
    while i < required.len()
        invariant
            i <= required@.len(),
            forall|j: int| 0 <= j < i ==> (#[trigger] required@[j])@ != class@,
        decreases required@.len() - i,
    {
        if str_eq(required[i].as_str(), class.as_str()) {
            return true;
        }
        i = i + 1;
    }
    false
}

/// Two class lists name the same classes, in the same order.
pub open spec fn same_classes(a: Seq<ClassId>, b: Seq<ClassId>) -> bool {
    a.len() == b.len() && forall|i: int| 0 <= i < a.len() ==> (#[trigger] a[i])@ == b[i]@
}

/// The ability `a`'s dataset entries allow at most `max` stacks in one of
/// them.
pub open spec fn caps_stacks_at(data: InMemoryDataset, a: AbilityRef, max: u32) -> bool {
    exists|j: int| 0 <= j < ability_effects(data, a).len() && (#[trigger] ability_effects(data, a)[j]).max_stacks == Some(max)
}

/// A copy of a class list.
fn copy_ids(ids: &Vec<ClassId>) -> (r: Vec<ClassId>)
    ensures
        same_classes(r@, ids@),
{
    let mut out: Vec<ClassId> = Vec::new();
    let mut i: usize = 0;
    while i < ids.len()
        invariant
            i <= ids@.len(),
            out@.len() == i,
            forall|j: int| 0 <= j < i ==> (#[trigger] out@[j])@ == ids@[j]@,
        decreases ids@.len() - i,
    {
        out.push(ids[i].clone());
        i = i + 1;
    }
    out
}

// ── Stage 2: gear ───────────────────────────────────────────────────────

/// Whether a trace only grew.
pub open spec fn extends(before: Seq<StageNote>, after: Seq<StageNote>) -> bool {
    before.len() <= after.len() && after.subrange(0, before.len() as int) == before
}

proof fn lemma_extends_refl(a: Seq<StageNote>)
    ensures
        extends(a, a),
{
    assert(a.subrange(0, a.len() as int) =~= a);
}

proof fn lemma_extends_push(a: Seq<StageNote>, b: Seq<StageNote>, x: StageNote)
    requires
        extends(a, b),
    ensures
        extends(a, b.push(x)),
{
    assert(b.push(x).subrange(0, a.len() as int) =~= b.subrange(0, a.len() as int));
}

/// Appends a note; the trace only grows.
fn push_note(trace: &mut Vec<StageNote>, n: StageNote)
    ensures
        final(trace)@ == old(trace)@.push(n),
{
    trace.push(n);
}

/// Stage 2: every piece is checked against the dataset, then what it prints
/// and what is rolled on it are added. Two sources with different grades:
/// printed attributes carry the item's grade, rolls are verified facts.
/// A piece's printed attribute deltas: none when its item prints none.
pub open spec fn printed_deltas(p: GearPiece, data: InMemoryDataset) -> Seq<(AttributeKind, i32)> {
    match piece_item(data, p).attributes {
        Some(c) => c.spec_value()@,
        None => Seq::empty(),
    }
}

/// Stage 2's additions for piece `p`, after the pieces `g`, stay in range:
/// each printed delta in turn, then each attribute roll in turn.
pub open spec fn piece_fits(base: AttributeBlock, g: Seq<GearPiece>, p: GearPiece, data: InMemoryDataset) -> bool {
    let d = printed_deltas(p, data);
    &&& forall|j: int| 0 <= j < d.len() ==> i32::MIN <= block_get(base, d[j].0) + gear_points(g, data, d[j].0)
        + #[trigger] delta_total(d.subrange(0, j), d[j].0) + d[j].1 <= i32::MAX
    &&& forall|j: int| 0 <= j < p.rolls@.len() ==> (#[trigger] p.rolls@[j] matches Roll::Attribute(k, v) ==> i32::MIN <= block_get(base, k)
        + gear_points(g, data, k) + delta_total(d, k) + roll_points(p.rolls@.subrange(0, j), k) + v <= i32::MAX)
}

/// Stage 2's additions, piece by piece, keep every attribute in range.
pub open spec fn gear_fits(base: AttributeBlock, gear: Seq<GearPiece>, data: InMemoryDataset) -> bool {
    forall|i: int| 0 <= i < gear.len() ==> #[trigger] piece_fits(base, gear.subrange(0, i), gear[i], data)
}

/// The piece's item is in the dataset, admits the class, and is worn
/// where it belongs.
pub open spec fn piece_ok(p: GearPiece, data: InMemoryDataset, class: Seq<char>) -> bool {
    &&& data.items().contains_key(p.id@)
    &&& admits(data.items()[p.id@].required_classes@, class)
    &&& (data.items()[p.id@].slot matches Some(b) ==> b == p.slot)
}

/// Every piece before the `i`-th passes stage 2: its item is in order and
/// its additions stay in range.
pub open spec fn gear_clear_before(base: AttributeBlock, gear: Seq<GearPiece>, data: InMemoryDataset, class: Seq<char>, i: int) -> bool {
    forall|j: int| 0 <= j < i ==> piece_ok(#[trigger] gear[j], data, class) && piece_fits(base, gear.subrange(0, j), gear[j], data)
}

/// Stage 2 stops at the `i`-th piece: every earlier piece passes it.
pub open spec fn gear_stops_at(base: AttributeBlock, gear: Seq<GearPiece>, data: InMemoryDataset, class: Seq<char>, i: int) -> bool {
    0 <= i < gear.len() && gear_clear_before(base, gear, data, class, i)
}

/// Every piece's item is in the dataset, admits the class, and is worn
/// where it belongs.
pub open spec fn gear_ok(gear: Seq<GearPiece>, data: InMemoryDataset, class: Seq<char>) -> bool {
    forall|i: int| 0 <= i < gear.len() ==> {
        let id = (#[trigger] gear[i]).id@;
        &&& data.items().contains_key(id)
        &&& admits(data.items()[id].required_classes@, class)
        &&& (data.items()[id].slot matches Some(b) ==> b == gear[i].slot)
    }
}

/// The error stage 2 stops with, at the first piece that fails it: an
/// unknown item, then an item the class may not carry, then a piece worn
/// in the wrong slot, then additions that leave the range.
pub open spec fn gear_error(base: AttributeBlock, gear: Seq<GearPiece>, data: InMemoryDataset, class: Seq<char>, e: ResolveError) -> bool {
    match e {
        ResolveError::UnknownItem(id) => exists|i: int| #[trigger] gear_stops_at(base, gear, data, class, i)
            && gear[i].id@ == id@ && !data.items().contains_key(id@),
        ResolveError::WrongClass { item, allowed } => exists|i: int| #[trigger] gear_stops_at(base, gear, data, class, i)
            && gear[i].id@ == item@ && data.items().contains_key(item@) && !admits(data.items()[item@].required_classes@, class),
        ResolveError::WrongSlot { item, worn, belongs } => exists|i: int| #[trigger] gear_stops_at(base, gear, data, class, i)
            && gear[i].id@ == item@ && gear[i].slot == worn && data.items().contains_key(item@)
            && admits(data.items()[item@].required_classes@, class)
            && data.items()[item@].slot == Some(belongs) && belongs != worn,
        ResolveError::OutOfRange => exists|i: int| #[trigger] gear_stops_at(base, gear, data, class, i)
            && piece_ok(gear[i], data, class) && !piece_fits(base, gear.subrange(0, i), gear[i], data),
        _ => false,
    }
}

fn gear_stage(loadout: &Loadout, data: &InMemoryDataset, base: &Confidence<AttributeBlock>, trace: &mut Vec<StageNote>)
    -> (r: Result<Confidence<AttributeBlock>, ResolveError>)
    requires
        data.wf(),
    ensures
        extends(old(trace)@, final(trace)@),
        match r {
            Ok(b) => gear_known(loadout.gear@, *data)
                && (forall|k: AttributeKind| block_get(b.spec_value(), k) == block_get(base.spec_value(), k) + gear_points(loadout.gear@, *data, k))
                && b.spec_level() == gear_attr_level(loadout.gear@, *data, base.spec_level()),
            Err(e) => gear_error(base.spec_value(), loadout.gear@, *data, loadout.class@, e),
        },
        r is Ok <==> gear_ok(loadout.gear@, *data, loadout.class@) && gear_fits(base.spec_value(), loadout.gear@, *data),
{
    let gear = &loadout.gear;
    proof { lemma_extends_refl(trace@); }
    let mut attrs: Confidence<AttributeBlock> = base.with_value(*base.value());
    let mut i: usize = 0;
    while i < gear.len()
        invariant
            i <= gear@.len(),
            data.wf(),
            gear == &loadout.gear,
            extends(old(trace)@, trace@),
            gear_known(gear@.subrange(0, i as int), *data),
            forall|k: AttributeKind| block_get(attrs.spec_value(), k) == block_get(base.spec_value(), k) + gear_points(gear@.subrange(0, i as int), *data, k),
            attrs.spec_level() == gear_attr_level(gear@.subrange(0, i as int), *data, base.spec_level()),
            gear_ok(gear@.subrange(0, i as int), *data, loadout.class@),
            gear_clear_before(base.spec_value(), gear@, *data, loadout.class@, i as int),
            forall|x: int| 0 <= x < i ==> #[trigger] piece_fits(base.spec_value(), gear@.subrange(0, x), gear@[x], *data),
        decreases gear@.len() - i,
    {
        let ghost pre = gear@.subrange(0, i as int);
        let ghost cur = gear@.subrange(0, i + 1);
        proof {
            assert(cur.drop_last() == pre);
            assert(cur.last() == gear@[i as int]);
        }
        let piece = &gear[i];
        let item = match data.item(&piece.id) {
            Some(it) => it,
            None => {
                proof {
                    assert(!gear_ok(gear@, *data, loadout.class@)) by { assert(gear@[i as int] == *piece); }
                    assert(gear_stops_at(base.spec_value(), gear@, *data, loadout.class@, i as int));
                }
                return Err(ResolveError::UnknownItem(piece.id.clone()));
            },
        };
        if !admits_class(&item.required_classes, &loadout.class) {
            proof {
                    assert(!gear_ok(gear@, *data, loadout.class@)) by { assert(gear@[i as int] == *piece); }
                    assert(gear_stops_at(base.spec_value(), gear@, *data, loadout.class@, i as int));
                }
            return Err(ResolveError::WrongClass { item: piece.id.clone(), allowed: copy_ids(&item.required_classes) });
        }
        if let Some(belongs) = item.slot {
            if belongs != piece.slot {
                proof {
                    assert(!gear_ok(gear@, *data, loadout.class@)) by { assert(gear@[i as int] == *piece); }
                    assert(gear_stops_at(base.spec_value(), gear@, *data, loadout.class@, i as int));
                }
                return Err(ResolveError::WrongSlot { item: piece.id.clone(), worn: piece.slot, belongs });
            }
        }
        proof {
            assert(piece_item(*data, *piece) == *item);
            assert(piece_ok(*piece, *data, loadout.class@));
        }
        let ghost start = attrs;
        if let Some(printed) = &item.attributes {
            let delta = printed.value();
            let mut block = *attrs.value();
            proof {
                assert(printed_deltas(*piece, *data) == delta@);
            }
            let mut j: usize = 0;
            while j < delta.len()
                invariant
                    j <= delta@.len(),
                    extends(old(trace)@, trace@),
                    forall|k: AttributeKind| block_get(block, k) == block_get(start.spec_value(), k) + delta_total(delta@.subrange(0, j as int), k),
                    i < gear@.len(),
                    gear == &loadout.gear,
                    gear@[i as int] == *piece,
                    printed_deltas(*piece, *data) == delta@,
                    gear_clear_before(base.spec_value(), gear@, *data, loadout.class@, i as int),
                    piece_ok(*piece, *data, loadout.class@),
                    forall|k: AttributeKind| block_get(start.spec_value(), k) == block_get(base.spec_value(), k) + gear_points(gear@.subrange(0, i as int), *data, k),
                    forall|x: int| 0 <= x < j ==> i32::MIN <= block_get(base.spec_value(), delta@[x].0) + gear_points(gear@.subrange(0, i as int), *data, delta@[x].0)
                        + #[trigger] delta_total(delta@.subrange(0, x), delta@[x].0) + delta@[x].1 <= i32::MAX,
                decreases delta@.len() - j,
            {
                proof {
                    assert(delta@.subrange(0, j + 1).drop_last() == delta@.subrange(0, j as int));
                    assert(delta@.subrange(0, j + 1).last() == delta@[j as int]);
                }
                let (kind, points) = delta[j];
                if !block.fits_add(kind, points) {
                    proof {
                        assert(printed_deltas(*piece, *data) == delta@);
                        assert(gear@[i as int] == *piece);
                        assert(!piece_fits(base.spec_value(), gear@.subrange(0, i as int), gear@[i as int], *data));
                        assert(gear_stops_at(base.spec_value(), gear@, *data, loadout.class@, i as int));
                    }
                    return Err(ResolveError::OutOfRange);
                }
                block.add(kind, points);
                j = j + 1;
            }
            proof {
                assert(delta@.subrange(0, delta@.len() as int) =~= delta@);
            }
            attrs = attrs.join(printed, block);
            let mut d: Vec<char> = Vec::new();
            append_chars(&mut d, item.name.as_str());
            append_chars(&mut d, ": ");
            let rendered = render_delta(delta);
            append_chars(&mut d, rendered.as_str());
            let ghost tb = trace@;
            push_note(trace, note(2, "gear attributes", string_of(&d)));
            proof { lemma_extends_push(old(trace)@, tb, trace@.last()); }
        }
        let ghost mid = attrs;
        proof {
            assert forall|k: AttributeKind| block_get(mid.spec_value(), k) == block_get(base.spec_value(), k)
                + gear_points(gear@.subrange(0, i as int), *data, k) + delta_total(printed_deltas(*piece, *data), k) by {
                if item.attributes is None {
                    assert(printed_deltas(*piece, *data) =~= Seq::<(AttributeKind, i32)>::empty());
                }
            }
        }
        let rolls = &piece.rolls;
        let mut j: usize = 0;
        while j < rolls.len()
            invariant
                j <= rolls@.len(),
                extends(old(trace)@, trace@),
                attrs.spec_level() == mid.spec_level(),
                forall|k: AttributeKind| block_get(attrs.spec_value(), k) == block_get(mid.spec_value(), k) + roll_points(rolls@.subrange(0, j as int), k),
                i < gear@.len(),
                gear == &loadout.gear,
                gear@[i as int] == *piece,
                gear_clear_before(base.spec_value(), gear@, *data, loadout.class@, i as int),
                piece_ok(*piece, *data, loadout.class@),
                forall|k: AttributeKind| block_get(mid.spec_value(), k) == block_get(base.spec_value(), k)
                    + gear_points(gear@.subrange(0, i as int), *data, k) + delta_total(printed_deltas(*piece, *data), k),
                rolls == &piece.rolls,
                forall|x: int| 0 <= x < j ==> (#[trigger] rolls@[x] matches Roll::Attribute(k, v) ==> i32::MIN <= block_get(base.spec_value(), k)
                    + gear_points(gear@.subrange(0, i as int), *data, k) + delta_total(printed_deltas(*piece, *data), k) + roll_points(rolls@.subrange(0, x), k) + v <= i32::MAX),
            decreases rolls@.len() - j,
        {
            proof {
                assert(rolls@.subrange(0, j + 1).drop_last() == rolls@.subrange(0, j as int));
                assert(rolls@.subrange(0, j + 1).last() == rolls@[j as int]);
            }
            if let Roll::Attribute(kind, points) = &rolls[j] {
                let mut block = *attrs.value();
                if !block.fits_add(*kind, *points) {
                    proof {
                        assert(gear@[i as int] == *piece);
                        assert(!piece_fits(base.spec_value(), gear@.subrange(0, i as int), gear@[i as int], *data));
                        assert(gear_stops_at(base.spec_value(), gear@, *data, loadout.class@, i as int));
                    }
                    return Err(ResolveError::OutOfRange);
                }
                block.add(*kind, *points);
                attrs = attrs.with_value(block);
                let mut d: Vec<char> = Vec::new();
                append_chars(&mut d, item.name.as_str());
                append_chars(&mut d, ": ");
                append_chars(&mut d, kind.as_str());
                d.push(' ');
                push_signed(*points as i64, &mut d);
                let ghost tb = trace@;
                push_note(trace, note(2, "gear attribute roll", string_of(&d)));
                proof { lemma_extends_push(old(trace)@, tb, trace@.last()); }
            }
            j = j + 1;
        }
        proof {
            assert(rolls@.subrange(0, rolls@.len() as int) =~= rolls@);
            assert(piece_item(*data, cur.last()) == *item);
            assert(gear@[i as int] == *piece);
            assert(piece_fits(base.spec_value(), gear@.subrange(0, i as int), gear@[i as int], *data));
            assert(gear_ok(cur, *data, loadout.class@)) by {
                assert forall|x: int| 0 <= x < cur.len() implies #[trigger] cur[x] == gear@[x] by {}
            }
            assert(gear_clear_before(base.spec_value(), gear@, *data, loadout.class@, i + 1)) by {
                assert forall|j: int| 0 <= j < i + 1 implies piece_ok(#[trigger] gear@[j], *data, loadout.class@)
                    && piece_fits(base.spec_value(), gear@.subrange(0, j), gear@[j], *data) by {
                    if j < i {
                        assert(gear_clear_before(base.spec_value(), gear@, *data, loadout.class@, i as int));
                    }
                }
            }
            assert forall|x: int| 0 <= x < cur.len() implies data.items().contains_key((#[trigger] cur[x]).id@) by {
                if x < i {
                    assert(cur[x] == pre[x]);
                }
            }
        }
        i = i + 1;
    }
    proof {
        assert(gear@.subrange(0, gear@.len() as int) =~= gear@);
    }
    Ok(attrs)
}


// ── Stage 3: effects ────────────────────────────────────────────────────

/// One ability the loadout brings, as the exec side holds it.
struct AbilityEntry {
    perk: bool,
    id: String,
    party: bool,
}

/// The ability an entry names.
spec fn entry_ref(e: AbilityEntry) -> AbilityRef {
    AbilityRef { perk: e.perk, id: e.id@, party: e.party }
}

/// The entries as ability references.
spec fn refs_of(v: Seq<AbilityEntry>) -> Seq<AbilityRef> {
    v.map_values(|e: AbilityEntry| entry_ref(e))
}

proof fn lemma_refs_push(v: Seq<AbilityEntry>, e: AbilityEntry)
    ensures
        refs_of(v.push(e)) == refs_of(v).push(entry_ref(e)),
{
    assert(refs_of(v.push(e)) =~= refs_of(v).push(entry_ref(e)));
}

/// Every ability in application order: own perks, own skills, party perks,
/// party skills.
fn ability_list(l: &Loadout) -> (r: Vec<AbilityEntry>)
    ensures
        refs_of(r@) == abilities(*l),
{
    let mut out: Vec<AbilityEntry> = Vec::new();
    let ghost a = l.perks@.map_values(|p: PerkId| AbilityRef { perk: true, id: p@, party: false });
    let ghost b = l.skills@.map_values(|s: SkillId| AbilityRef { perk: false, id: s@, party: false });
    let ghost c = l.party.perks@.map_values(|p: PerkId| AbilityRef { perk: true, id: p@, party: true });
    let ghost d = l.party.skills@.map_values(|s: SkillId| AbilityRef { perk: false, id: s@, party: true });
    let mut i: usize = 0;
    while i < l.perks.len()
        invariant
            i <= l.perks@.len(),
            a == l.perks@.map_values(|p: PerkId| AbilityRef { perk: true, id: p@, party: false }),
            refs_of(out@) == a.subrange(0, i as int),
        decreases l.perks@.len() - i,
    {
        let ghost ov = out@;
        let e = AbilityEntry { perk: true, id: owned(l.perks[i].as_str()), party: false };
        let ghost ge = e;
        out.push(e);
        proof {
            lemma_refs_push(ov, ge);
            assert(entry_ref(ge) == a[i as int]);
            assert(refs_of(out@) =~= a.subrange(0, i + 1));
        }
        i = i + 1;
    }
    assert(a.subrange(0, a.len() as int) =~= a);
    let mut i: usize = 0;
    while i < l.skills.len()
        invariant
            i <= l.skills@.len(),
            b == l.skills@.map_values(|s: SkillId| AbilityRef { perk: false, id: s@, party: false }),
            refs_of(out@) == a + b.subrange(0, i as int),
        decreases l.skills@.len() - i,
    {
        let ghost ov = out@;
        let e = AbilityEntry { perk: false, id: owned(l.skills[i].as_str()), party: false };
        let ghost ge = e;
        out.push(e);
        proof {
            lemma_refs_push(ov, ge);
            assert(entry_ref(ge) == b[i as int]);
            assert(refs_of(out@) =~= a + b.subrange(0, i + 1));
        }
        i = i + 1;
    }
    assert(b.subrange(0, b.len() as int) =~= b);
    let mut i: usize = 0;
    while i < l.party.perks.len()
        invariant
            i <= l.party.perks@.len(),
            c == l.party.perks@.map_values(|p: PerkId| AbilityRef { perk: true, id: p@, party: true }),
            refs_of(out@) == a + b + c.subrange(0, i as int),
        decreases l.party.perks@.len() - i,
    {
        let ghost ov = out@;
        let e = AbilityEntry { perk: true, id: owned(l.party.perks[i].as_str()), party: true };
        let ghost ge = e;
        out.push(e);
        proof {
            lemma_refs_push(ov, ge);
            assert(entry_ref(ge) == c[i as int]);
            assert(refs_of(out@) =~= a + b + c.subrange(0, i + 1));
        }
        i = i + 1;
    }
    assert(c.subrange(0, c.len() as int) =~= c);
    let mut i: usize = 0;
    while i < l.party.skills.len()
        invariant
            i <= l.party.skills@.len(),
            d == l.party.skills@.map_values(|s: SkillId| AbilityRef { perk: false, id: s@, party: true }),
            refs_of(out@) == a + b + c + d.subrange(0, i as int),
        decreases l.party.skills@.len() - i,
    {
        let ghost ov = out@;
        let e = AbilityEntry { perk: false, id: owned(l.party.skills[i].as_str()), party: true };
        let ghost ge = e;
        out.push(e);
        proof {
            lemma_refs_push(ov, ge);
            assert(entry_ref(ge) == d[i as int]);
            assert(refs_of(out@) =~= a + b + c + d.subrange(0, i + 1));
        }
        i = i + 1;
    }
    assert(d.subrange(0, d.len() as int) =~= d);
    out
}

/// Resolves one dataset effect against the loadout's stack counts.
///
/// A non-stacking effect applies once. A stacking one applies at the count
/// the loadout states; if it states none, it applies at the maximum and the
/// value is downgraded to `Unknown` with the assumption written out.
fn apply_stacks(entry: &StackedEffect, source_id: &str, source_name: &str, stacks: &IdMap<String, u32>)
    -> (r: Result<Confidence<Effect>, ResolveError>)
    requires
        stacks.wf(),
    ensures
        match r {
            Ok(e) => entry_row(*entry, source_id@, stacks.view()) == Some((e.spec_value()@, e.spec_level(), entry.when_tag)),
            Err(ResolveError::TooManyStacks { source, requested, max }) => entry_row(*entry, source_id@, stacks.view()) is None
                && source@ == source_id@ && stacks.view().contains_key(source_id@) && requested == stacks.view()[source_id@]
                && entry.max_stacks == Some(max) && requested > max,
            Err(ResolveError::OutOfRange) => entry_row(*entry, source_id@, stacks.view()) is None
                && scale_overflows(*entry, source_id@, stacks.view()),
            Err(_) => false,
        },
{
    let max = match entry.max_stacks {
        None => return Ok(entry.effect.with_value(entry.effect.value().clone())),
        Some(m) => m,
    };
    match stacks.get(source_id) {
        Some(requested) => {
            let requested = *requested;
            if requested > max {
                return Err(ResolveError::TooManyStacks { source: owned(source_id), requested, max });
            }
            if !entry.effect.value().fits_scale(requested) {
                return Err(ResolveError::OutOfRange);
            }
            Ok(entry.effect.with_value(entry.effect.value().scaled(requested)))
        },
        None => {
            if !entry.effect.value().fits_scale(max) {
                return Err(ResolveError::OutOfRange);
            }
            let assumed = entry.effect.value().scaled(max);
            let mut text: Vec<char> = Vec::new();
            if let Some(existing) = entry.effect.note() {
                append_chars(&mut text, existing);
                append_chars(&mut text, "; ");
            }
            append_chars(&mut text, source_name);
            append_chars(&mut text, " resolved at ");
            crate::fixed::push_int(max as i64, &mut text);
            append_chars(&mut text, " of ");
            crate::fixed::push_int(max as i64, &mut text);
            append_chars(&mut text, " stacks; the loadout does not say how many are active");
            Ok(Confidence::Unknown { assumed, note: string_of(&text) })
        },
    }
}

/// The ids already in force.
spec fn seen_of(v: Seq<String>) -> Set<Seq<char>> {
    Set::new(|s: Seq<char>| exists|i: int| 0 <= i < v.len() && (#[trigger] v[i])@ == s)
}

/// Whether an id is already in force.
fn is_seen(seen: &Vec<String>, id: &str) -> (r: bool)
    ensures
        r == seen_of(seen@).contains(id@),
{
    let mut i: usize = 0;
    while i < seen.len()
        invariant
            i <= seen@.len(),
            forall|j: int| 0 <= j < i ==> (#[trigger] seen@[j])@ != id@,
        decreases seen@.len() - i,
    {
        if str_eq(seen[i].as_str(), id) {
            return true;
        }
        i = i + 1;
    }
    false
}

/// Scaling `e` by the loadout's stack count for `source`, or by its
/// maximum when the loadout gives none, leaves the range, the count itself
/// being allowed.
pub open spec fn scale_overflows(e: StackedEffect, source: Seq<char>, stacks: Map<Seq<char>, u32>) -> bool {
    match e.max_stacks {
        None => false,
        Some(max) => if stacks.contains_key(source) {
            stacks[source] <= max && !crate::schema::scale_fits(e.effect.spec_value()@, stacks[source])
        } else {
            !crate::schema::scale_fits(e.effect.spec_value()@, max)
        },
    }
}

/// The dataset entries of an ability.
pub open spec fn ability_effects(data: InMemoryDataset, a: AbilityRef) -> Seq<StackedEffect> {
    if a.perk { data.perks()[a.id].effects@ } else { data.skills()[a.id].effects@ }
}

/// Some ability of the loadout, known to the dataset, has an entry whose
/// stack scaling leaves the range.
pub open spec fn stacks_overflow(l: Loadout, data: InMemoryDataset) -> bool {
    exists|k: int, j: int| 0 <= k < abilities(l).len() && 0 <= j < ability_effects(data, abilities(l)[k]).len()
        && (if abilities(l)[k].perk { data.perks().contains_key(abilities(l)[k].id) } else { data.skills().contains_key(abilities(l)[k].id) })
        && #[trigger] scale_overflows(ability_effects(data, abilities(l)[k])[j], abilities(l)[k].id, l.stacks.view())
}

/// The effects of one ability's dataset entries, at the loadout's stacks.
fn entry_effects(es: &Vec<StackedEffect>, id: &str, name: &String, stacks: &IdMap<String, u32>)
    -> (r: Result<Vec<SourcedEffect>, ResolveError>)
    requires
        stacks.wf(),
    ensures
        match r {
            Ok(rows) => entries_rows(es@, id@, stacks.view()) == Some(rows_of(rows@)),
            Err(ResolveError::TooManyStacks { source, requested, max }) => entries_rows(es@, id@, stacks.view()) is None
                && source@ == id@ && stacks.view().contains_key(id@) && requested == stacks.view()[id@] && requested > max
                && exists|j: int| 0 <= j < es@.len() && (#[trigger] es@[j]).max_stacks == Some(max),
            Err(ResolveError::OutOfRange) => entries_rows(es@, id@, stacks.view()) is None
                && exists|j: int| 0 <= j < es@.len() && #[trigger] scale_overflows(es@[j], id@, stacks.view()),
            Err(_) => false,
        },
{
    let mut out: Vec<SourcedEffect> = Vec::new();
    let mut j: usize = 0;
    while j < es.len()
        invariant
            j <= es@.len(),
            stacks.wf(),
            entries_rows(es@.subrange(0, j as int), id@, stacks.view()) == Some(rows_of(out@)),
        decreases es@.len() - j,
    {
        proof {
            assert(es@.subrange(0, j + 1).drop_last() == es@.subrange(0, j as int));
            assert(es@.subrange(0, j + 1).last() == es@[j as int]);
        }
        let effect = match apply_stacks(&es[j], id, name.as_str(), stacks) {
            Ok(e) => e,
            Err(e) => {
                proof {
                    lemma_entries_none_extends(es@, id@, stacks.view(), j as int + 1);
                    if e is TooManyStacks {
                        assert(es@[j as int].max_stacks == Some(e->max));
                    }
                }
                return Err(e);
            },
        };
        let sourced = SourcedEffect { name: owned(name.as_str()), effect, when_tag: es[j].when_tag };
        let ghost before = out@;
        out.push(sourced);
        proof {
            lemma_rows_push(before, sourced);
        }
        j = j + 1;
    }
    assert(es@.subrange(0, es@.len() as int) =~= es@);
    Ok(out)
}

proof fn lemma_entries_none_extends(es: Seq<StackedEffect>, id: Seq<char>, stacks: Map<Seq<char>, u32>, k: int)
    requires
        0 <= k <= es.len(),
        entries_rows(es.subrange(0, k), id, stacks) is None,
    ensures
        entries_rows(es, id, stacks) is None,
    decreases es.len() - k,
{
    if k < es.len() {
        assert(es.subrange(0, k + 1).drop_last() =~= es.subrange(0, k));
        lemma_entries_none_extends(es, id, stacks, k + 1);
    } else {
        assert(es.subrange(0, k) =~= es);
    }
}

/// Display name of an ability, marked when a party member brings it.
fn display_name(name: &String, party: bool) -> (r: String)
    ensures
        r@ == if party { name@ + " (party)"@ } else { name@ },
{
    if party {
        let mut t: Vec<char> = Vec::new();
        append_chars(&mut t, name.as_str());
        append_chars(&mut t, " (party)");
        string_of(&t)
    } else {
        owned(name.as_str())
    }
}

/// Resolves one ability: checks it exists and the class may take it, then
/// either skips it as already in force or resolves its effects.
fn process_ability(
    a: &AbilityEntry,
    loadout: &Loadout,
    data: &InMemoryDataset,
    seen: &Vec<String>,
    Ghost(abs): Ghost<Seq<AbilityRef>>,
    Ghost(k): Ghost<int>,
) -> (r: Result<(String, Option<Vec<SourcedEffect>>), ResolveError>)
    requires
        data.wf(),
        loadout.stacks.wf(),
        0 <= k < abs.len(),
        abs[k] == entry_ref(*a),
    ensures
        match r {
            Ok((name, Some(rows))) => name@ == ability_display(*data, abs[k]) && !seen_of(seen@).contains(a.id@)
                && collect_from(abs, k, *data, loadout.class@, loadout.stacks.view(), seen_of(seen@))
                    == prepend(rows_of(rows@), collect_from(abs, k + 1, *data, loadout.class@, loadout.stacks.view(), seen_of(seen@).insert(a.id@))),
            Ok((name, None)) => name@ == ability_display(*data, abs[k]) && seen_of(seen@).contains(a.id@)
                && collect_from(abs, k, *data, loadout.class@, loadout.stacks.view(), seen_of(seen@))
                == collect_from(abs, k + 1, *data, loadout.class@, loadout.stacks.view(), seen_of(seen@)),
            Err(e) => collect_from(abs, k, *data, loadout.class@, loadout.stacks.view(), seen_of(seen@)) is None && match e {
                ResolveError::UnknownPerk(id) => a.perk && id@ == a.id@ && !data.perks().contains_key(a.id@),
                ResolveError::WrongClassPerk { perk, allowed } => a.perk && perk@ == a.id@ && data.perks().contains_key(a.id@)
                    && !admits(data.perks()[a.id@].required_classes@, loadout.class@)
                    && same_classes(allowed@, data.perks()[a.id@].required_classes@),
                ResolveError::UnknownSkill(id) => !a.perk && id@ == a.id@ && !data.skills().contains_key(a.id@),
                ResolveError::WrongClassSkill { skill, allowed } => !a.perk && !a.party && skill@ == a.id@ && data.skills().contains_key(a.id@)
                    && !admits(data.skills()[a.id@].required_classes@, loadout.class@)
                    && same_classes(allowed@, data.skills()[a.id@].required_classes@),
                ResolveError::TooManyStacks { source, requested, max } => source@ == a.id@ && loadout.stacks.view().contains_key(a.id@)
                    && requested == loadout.stacks.view()[a.id@] && requested > max
                    && (if a.perk { data.perks().contains_key(a.id@) } else { data.skills().contains_key(a.id@) })
                    && caps_stacks_at(*data, abs[k], max),
                ResolveError::OutOfRange => (if a.perk { data.perks().contains_key(a.id@) } else { data.skills().contains_key(a.id@) })
                    && exists|j: int| 0 <= j < ability_effects(*data, abs[k]).len()
                        && #[trigger] scale_overflows(ability_effects(*data, abs[k])[j], a.id@, loadout.stacks.view()),
                _ => false,
            },
        },
{
    let (name, effects) = if a.perk {
        let id = PerkId::new(a.id.as_str());
        let perk = match data.perk(&id) {
            Some(p) => p,
            None => return Err(ResolveError::UnknownPerk(id)),
        };
        if !admits_class(&perk.required_classes, &loadout.class) {
            return Err(ResolveError::WrongClassPerk { perk: id, allowed: copy_ids(&perk.required_classes) });
        }
        (display_name(&perk.name, a.party), &perk.effects)
    } else {
        let id = SkillId::new(a.id.as_str());
        let skill = match data.skill(&id) {
            Some(s) => s,
            None => return Err(ResolveError::UnknownSkill(id)),
        };
        // A party member's skill is theirs to have, so only what this
        // character slots is checked against this character's class.
        if !a.party && !admits_class(&skill.required_classes, &loadout.class) {
            return Err(ResolveError::WrongClassSkill { skill: id, allowed: copy_ids(&skill.required_classes) });
        }
        (display_name(&skill.name, a.party), &skill.effects)
    };
    if is_seen(seen, a.id.as_str()) {
        return Ok((name, None));
    }
    proof {
        assert(effects@ == ability_effects(*data, abs[k]));
    }
    let rows = entry_effects(effects, a.id.as_str(), &name, &loadout.stacks)?;
    Ok((name, Some(rows)))
}

/// Gathers every effect from own perks, own skills, party perks and party
/// skills — in that order, each list in declaration order.
///
/// **An ability applies once, however many people bring it.** Two Jokesters
/// in a party are +2 All Attributes, not +4. Order gives precedence: your
/// own copy is the one that counts, and a later copy is named as ignored.
fn collect_effects(loadout: &Loadout, data: &InMemoryDataset) -> (r: Result<CollectedEffects, ResolveError>)
    requires
        data.wf(),
        loadout.stacks.wf(),
    ensures
        match r {
            Ok(c) => collected(*loadout, *data) == Some(rows_of(c.effects@))
                && c.ignored@.map_values(|n: String| n@) == ignored_names(*loadout, *data),
            Err(e) => collected(*loadout, *data) is None && match e {
                ResolveError::UnknownPerk(id) => exists|k: int| 0 <= k < abilities(*loadout).len() && (#[trigger] abilities(*loadout)[k]).perk
                    && abilities(*loadout)[k].id == id@ && !data.perks().contains_key(id@),
                ResolveError::WrongClassPerk { perk, allowed } => data.perks().contains_key(perk@) && !admits(data.perks()[perk@].required_classes@, loadout.class@)
                    && same_classes(allowed@, data.perks()[perk@].required_classes@)
                    && exists|k: int| 0 <= k < abilities(*loadout).len() && (#[trigger] abilities(*loadout)[k]).perk && abilities(*loadout)[k].id == perk@,
                ResolveError::UnknownSkill(id) => exists|k: int| 0 <= k < abilities(*loadout).len() && !(#[trigger] abilities(*loadout)[k]).perk
                    && abilities(*loadout)[k].id == id@ && !data.skills().contains_key(id@),
                ResolveError::WrongClassSkill { skill, allowed } => data.skills().contains_key(skill@) && !admits(data.skills()[skill@].required_classes@, loadout.class@)
                    && same_classes(allowed@, data.skills()[skill@].required_classes@)
                    && exists|k: int| 0 <= k < abilities(*loadout).len() && !(#[trigger] abilities(*loadout)[k]).perk && !abilities(*loadout)[k].party && abilities(*loadout)[k].id == skill@,
                ResolveError::TooManyStacks { source, requested, max } => loadout.stacks.view().contains_key(source@)
                    && requested == loadout.stacks.view()[source@] && requested > max
                    && exists|k: int| 0 <= k < abilities(*loadout).len() && (#[trigger] abilities(*loadout)[k]).id == source@
                        && (if abilities(*loadout)[k].perk { data.perks().contains_key(source@) } else { data.skills().contains_key(source@) })
                        && caps_stacks_at(*data, abilities(*loadout)[k], max),
                ResolveError::OutOfRange => stacks_overflow(*loadout, *data),
                _ => false,
            },
        },
{
    let list = ability_list(loadout);
    let ghost abs = abilities(*loadout);
    let mut out: Vec<SourcedEffect> = Vec::new();
    let mut seen: Vec<String> = Vec::new();
    let mut ignored: Vec<String> = Vec::new();
    proof {
        assert(seen_of(seen@) =~= Set::<Seq<char>>::empty());
        assert(ignored@.map_values(|n: String| n@) + ignored_from(abs, 0, *data, seen_of(seen@)) =~= ignored_names(*loadout, *data));
        assert(rows_of(out@) =~= Seq::<(EffectView, ConfidenceLevel, Option<DamageTag>)>::empty());
        assert(prepend(Seq::empty(), collected(*loadout, *data)) == collected(*loadout, *data)) by {
            if let Some(x) = collected(*loadout, *data) {
                assert(Seq::<(EffectView, ConfidenceLevel, Option<DamageTag>)>::empty() + x =~= x);
            }
        }
    }
    let mut k: usize = 0;
    while k < list.len()
        invariant
            k <= list@.len(),
            refs_of(list@) == abs,
            abs == abilities(*loadout),
            data.wf(),
            loadout.stacks.wf(),
            collected(*loadout, *data) == prepend(rows_of(out@), collect_from(abs, k as int, *data, loadout.class@, loadout.stacks.view(), seen_of(seen@))),
            ignored_names(*loadout, *data) == ignored@.map_values(|n: String| n@) + ignored_from(abs, k as int, *data, seen_of(seen@)),
        decreases list@.len() - k,
    {
        proof {
            assert(abs[k as int] == entry_ref(list@[k as int]));
        }
        let step = process_ability(&list[k], loadout, data, &seen, Ghost(abs), Ghost(k as int));
        match step {
            Ok((name, Some(rows))) => {
                let ghost before = out@;
                let ghost new_rows = rows_of(rows@);
                let ghost old_seen = seen_of(seen@);
                let mut rows = rows;
                out.append(&mut rows);
                let ghost os = seen@;
                let newid = owned(list[k].id.as_str());
                seen.push(newid);
                proof {
                    assert(rows_of(out@) =~= rows_of(before) + new_rows);
                    assert(seen@ == os.push(newid));
                    let idv = list@[k as int].id@;
                    assert forall|x: Seq<char>| seen_of(seen@).contains(x) <==> seen_of(os).insert(idv).contains(x) by {
                        if seen_of(seen@).contains(x) {
                            let i = choose|i: int| 0 <= i < seen@.len() && (#[trigger] seen@[i])@ == x;
                            if i < os.len() {
                                assert(os[i] == seen@[i]);
                                assert(seen_of(os).contains(x));
                            }
                        }
                        if seen_of(os).contains(x) {
                            let i = choose|i: int| 0 <= i < os.len() && (#[trigger] os[i])@ == x;
                            assert(seen@[i] == os[i]);
                            assert(seen_of(seen@).contains(x));
                        }
                        if x == idv {
                            assert(seen@[os.len() as int]@ == x);
                            assert(seen_of(seen@).contains(x));
                        }
                    }
                    assert(seen_of(seen@) =~= old_seen.insert(idv));
                    assert(abs[k as int].id == idv);
                    assert(ignored_from(abs, k as int, *data, old_seen) == ignored_from(abs, k as int + 1, *data, seen_of(seen@)));
                    let rest = collect_from(abs, k as int + 1, *data, loadout.class@, loadout.stacks.view(), seen_of(seen@));
                    if let Some(x) = rest {
                        assert(rows_of(before) + (new_rows + x) =~= (rows_of(before) + new_rows) + x);
                    }
                }
            },
            Ok((name, None)) => {
                let ghost before = ignored@;
                let ghost nm = name;
                ignored.push(name);
                proof {
                    assert(abs[k as int].id == list@[k as int].id@);
                    assert(ignored@.map_values(|n: String| n@) =~= before.map_values(|n: String| n@).push(nm@));
                    assert(ignored_from(abs, k as int, *data, seen_of(seen@))
                        == seq![ability_display(*data, abs[k as int])] + ignored_from(abs, k as int + 1, *data, seen_of(seen@)));
                    assert(before.map_values(|n: String| n@) + ignored_from(abs, k as int, *data, seen_of(seen@))
                        =~= ignored@.map_values(|n: String| n@) + ignored_from(abs, k as int + 1, *data, seen_of(seen@)));
                }
            },
            Err(e) => {
                proof {
                    assert(abs[k as int].perk == list@[k as int].perk);
                    if e is OutOfRange {
                        let j = choose|j: int| 0 <= j < ability_effects(*data, abs[k as int]).len()
                            && #[trigger] scale_overflows(ability_effects(*data, abs[k as int])[j], list@[k as int].id@, loadout.stacks.view());
                        assert(abs[k as int].id == list@[k as int].id@);
                        assert(scale_overflows(ability_effects(*data, abilities(*loadout)[k as int])[j], abilities(*loadout)[k as int].id, loadout.stacks.view()));
                    }
                }
                return Err(e);
            },
        }
        k = k + 1;
    }
    proof {
        assert(rows_of(out@) + Seq::empty() =~= rows_of(out@));
        assert(ignored@.map_values(|n: String| n@) + Seq::<Seq<char>>::empty() =~= ignored@.map_values(|n: String| n@));
    }
    Ok(CollectedEffects { effects: out, ignored })
}

/// Adding the `n`-th ability's points to the block the earlier ones left
/// keeps every attribute it touches in range.
pub open spec fn effect_step_fits(start: AttributeBlock, rows: Seq<(EffectView, ConfidenceLevel, Option<DamageTag>)>, n: int) -> bool {
    let prior = rows.subrange(0, n);
    match rows[n].0 {
        EffectView::AllAttributes(p) => forall|k: AttributeKind|
            i32::MIN <= block_get(start, k) + #[trigger] effect_points(prior, k) + p <= i32::MAX,
        EffectView::Attribute(k, p) => i32::MIN <= block_get(start, k) + effect_points(prior, k) + p <= i32::MAX,
        _ => true,
    }
}

/// The abilities' points, added one at a time, keep every attribute in
/// range.
pub open spec fn effects_fit(start: AttributeBlock, rows: Seq<(EffectView, ConfidenceLevel, Option<DamageTag>)>) -> bool {
    forall|n: int| 0 <= n < rows.len() ==> #[trigger] effect_step_fits(start, rows, n)
}

/// Stage 3: the abilities' attribute effects, on the block the gear left.
fn effect_attributes(attrs: &Confidence<AttributeBlock>, effects: &Vec<SourcedEffect>, trace: &mut Vec<StageNote>)
    -> (r: Result<Confidence<AttributeBlock>, ResolveError>)
    ensures
        extends(old(trace)@, final(trace)@),
        match r {
            Ok(b) => (forall|k: AttributeKind| block_get(b.spec_value(), k) == block_get(attrs.spec_value(), k) + effect_points(rows_of(effects@), k))
                && b.spec_level() == effect_attr_level(rows_of(effects@), attrs.spec_level()),
            Err(ResolveError::OutOfRange) => !effects_fit(attrs.spec_value(), rows_of(effects@)),
            Err(_) => false,
        },
        r is Ok <==> effects_fit(attrs.spec_value(), rows_of(effects@)),
{
    proof { lemma_extends_refl(trace@); }
    let mut out = attrs.with_value(*attrs.value());
    let mut i: usize = 0;
    while i < effects.len()
        invariant
            i <= effects@.len(),
            extends(old(trace)@, trace@),
            forall|k: AttributeKind| block_get(out.spec_value(), k) == block_get(attrs.spec_value(), k) + effect_points(rows_of(effects@.subrange(0, i as int)), k),
            out.spec_level() == effect_attr_level(rows_of(effects@.subrange(0, i as int)), attrs.spec_level()),
            forall|n: int| 0 <= n < i ==> #[trigger] effect_step_fits(attrs.spec_value(), rows_of(effects@), n),
        decreases effects@.len() - i,
    {
        proof {
            assert(rows_of(effects@.subrange(0, i as int)) =~= rows_of(effects@).subrange(0, i as int));
            assert(rows_of(effects@)[i as int] == row_of(effects@[i as int]));
        }
        proof {
            assert(effects@.subrange(0, i + 1) == effects@.subrange(0, i as int).push(effects@[i as int]));
            lemma_rows_push(effects@.subrange(0, i as int), effects@[i as int]);
            assert(rows_of(effects@.subrange(0, i + 1)).drop_last() == rows_of(effects@.subrange(0, i as int)));
        }
        let sourced = &effects[i];
        match sourced.effect.value() {
            Effect::AllAttributes(points) => {
                let mut block = *out.value();
                if !block.fits_add_all(*points) {
                    proof {
                        let k = choose|k: AttributeKind| !crate::schema::can_add(block, k, *points as int);
                        assert(!effect_step_fits(attrs.spec_value(), rows_of(effects@), i as int)) by {
                            assert(effect_points(rows_of(effects@).subrange(0, i as int), k) == effect_points(rows_of(effects@.subrange(0, i as int)), k));
                        }
                    }
                    return Err(ResolveError::OutOfRange);
                }
                proof {
                    assert forall|k: AttributeKind| i32::MIN <= block_get(attrs.spec_value(), k)
                        + #[trigger] effect_points(rows_of(effects@).subrange(0, i as int), k) + *points as int <= i32::MAX by {
                        assert(crate::schema::can_add(block, k, *points as int));
                    }
                    assert(effect_step_fits(attrs.spec_value(), rows_of(effects@), i as int));
                }
                block.add_all(*points);
                out = out.join(&sourced.effect, block);
                let mut d: Vec<char> = Vec::new();
                append_chars(&mut d, sourced.name.as_str());
                append_chars(&mut d, ": ");
                push_signed(*points as i64, &mut d);
                append_chars(&mut d, " all attributes");
                let ghost tb = trace@;
                push_note(trace, note(3, "perk/skill/party attributes", string_of(&d)));
                proof { lemma_extends_push(old(trace)@, tb, trace@.last()); }
            },
            Effect::Attribute(kind, points) => {
                let mut block = *out.value();
                if !block.fits_add(*kind, *points) {
                    proof {
                        assert(!effect_step_fits(attrs.spec_value(), rows_of(effects@), i as int));
                    }
                    return Err(ResolveError::OutOfRange);
                }
                proof {
                    assert(effect_step_fits(attrs.spec_value(), rows_of(effects@), i as int));
                }
                block.add(*kind, *points);
                out = out.join(&sourced.effect, block);
                let mut d: Vec<char> = Vec::new();
                append_chars(&mut d, sourced.name.as_str());
                append_chars(&mut d, ": ");
                append_chars(&mut d, kind.as_str());
                d.push(' ');
                push_signed(*points as i64, &mut d);
                let ghost tb = trace@;
                push_note(trace, note(3, "perk/skill/party attributes", string_of(&d)));
                proof { lemma_extends_push(old(trace)@, tb, trace@.last()); }
            },
            _ => {
                proof {
                    assert(effect_step_fits(attrs.spec_value(), rows_of(effects@), i as int));
                }
            },
        }
        i = i + 1;
    }
    assert(effects@.subrange(0, effects@.len() as int) =~= effects@);
    Ok(out)
}

// ── Stage 7 preparation: seeds, gated bonuses, caps ─────────────────────

/// Everything that seeds stat `id`: the item bucket, then the rolls and the
/// abilities' unconditional bonuses.
pub open spec fn seed_parts(gear: Seq<GearPiece>, data: InMemoryDataset, rows: Seq<(EffectView, ConfidenceLevel, Option<DamageTag>)>, id: Seq<char>) -> Seq<(int, ConfidenceLevel)> {
    item_grant_parts(gear, data, id) + gear_roll_parts(gear, id) + ability_bonus_parts(rows, id)
}

/// The armour rating's *other* bucket: rolls, then abilities.
pub open spec fn other_armor_parts(gear: Seq<GearPiece>, rows: Seq<(EffectView, ConfidenceLevel, Option<DamageTag>)>) -> Seq<(int, ConfidenceLevel)> {
    gear_roll_parts(gear, well_known::armor_rating()) + ability_bonus_parts(rows, well_known::armor_rating())
}

/// No stat outside `ids` is seeded by the pieces so far.
pub open spec fn gear_seeds_within(gear: Seq<GearPiece>, data: InMemoryDataset, ids: Map<Seq<char>, bool>) -> bool {
    forall|id: Seq<char>| !ids.contains_key(id) ==> (#[trigger] item_grant_parts(gear, data, id)).len() == 0
        && gear_roll_parts(gear, id).len() == 0
}

/// The ids some source seeds.
fn seed_ids(gear: &Vec<GearPiece>, data: &InMemoryDataset, effects: &Vec<SourcedEffect>) -> (ids: IdMap<DerivedStatId, bool>)
    requires
        data.wf(),
        gear_known(gear@, *data),
    ensures
        ids.wf(),
        forall|id: Seq<char>| !ids.view().contains_key(id) ==> (#[trigger] seed_parts(gear@, *data, rows_of(effects@), id)).len() == 0,
{
    let mut ids: IdMap<DerivedStatId, bool> = IdMap::new();
    let mut i: usize = 0;
    while i < gear.len()
        invariant
            i <= gear@.len(),
            data.wf(),
            gear_known(gear@, *data),
            ids.wf(),
            gear_seeds_within(gear@.subrange(0, i as int), *data, ids.view()),
        decreases gear@.len() - i,
    {
        proof {
            assert(gear@.subrange(0, i + 1).drop_last() == gear@.subrange(0, i as int));
            assert(gear@.subrange(0, i + 1).last() == gear@[i as int]);
        }
        let item = data.item(&gear[i].id).unwrap();
        let ghost before_ids = ids.view();
        let mut j: usize = 0;
        while j < item.grants.len()
            invariant
                j <= item.grants.entries().len(),
                item.grants.wf(),
                ids.wf(),
                forall|id: Seq<char>| #[trigger] before_ids.contains_key(id) ==> ids.view().contains_key(id),
                forall|x: int| 0 <= x < j ==> ids.view().contains_key(#[trigger] item.grants.keys()[x]),
            decreases item.grants.entries().len() - j,
        {
            proof { crate::table::lemma_keys_of(item.grants.entries()); }
            let key = item.grants.key_at(j);
            ids.insert(key.clone(), true);
            j = j + 1;
        }
        let rolls = &gear[i].rolls;
        let mut j: usize = 0;
        while j < rolls.len()
            invariant
                j <= rolls@.len(),
                ids.wf(),
                forall|id: Seq<char>| #[trigger] before_ids.contains_key(id) ==> ids.view().contains_key(id),
                forall|x: int| 0 <= x < item.grants.entries().len() ==> ids.view().contains_key(#[trigger] item.grants.keys()[x]),
                forall|id: Seq<char>| !ids.view().contains_key(id) ==> (#[trigger] roll_parts(rolls@.subrange(0, j as int), id)).len() == 0,
            decreases rolls@.len() - j,
        {
            proof {
                assert(rolls@.subrange(0, j + 1).drop_last() == rolls@.subrange(0, j as int));
                assert(rolls@.subrange(0, j + 1).last() == rolls@[j as int]);
            }
            let ghost old_view = ids.view();
            if let Roll::Derived(rid, _) = &rolls[j] {
                ids.insert(rid.clone(), true);
            }
            proof {
                assert forall|id: Seq<char>| !ids.view().contains_key(id) implies (#[trigger] roll_parts(rolls@.subrange(0, j + 1), id)).len() == 0 by {
                    assert(!old_view.contains_key(id));
                    assert(roll_parts(rolls@.subrange(0, j as int), id).len() == 0);
                }
            }
            j = j + 1;
        }
        proof {
            assert(rolls@.subrange(0, rolls@.len() as int) =~= rolls@);
            crate::table::lemma_to_map_entries(item.grants.entries());
            assert forall|id: Seq<char>| !ids.view().contains_key(id) implies (#[trigger] item_grant_parts(gear@.subrange(0, i + 1), *data, id)).len() == 0
                && gear_roll_parts(gear@.subrange(0, i + 1), id).len() == 0 by {
                assert(!before_ids.contains_key(id));
                assert(item_grant_parts(gear@.subrange(0, i as int), *data, id).len() == 0);
                assert(gear_roll_parts(gear@.subrange(0, i as int), id).len() == 0);
                if item.grants.view().contains_key(id) {
                    let x = choose|x: int| 0 <= x < item.grants.keys().len() && item.grants.keys()[x] == id;
                }
                assert(piece_item(*data, gear@[i as int]) == *item);
                assert(roll_parts(rolls@, id).len() == 0);
            }
            assert(gear_seeds_within(gear@.subrange(0, i + 1), *data, ids.view()));
        }
        i = i + 1;
    }
    assert(gear@.subrange(0, gear@.len() as int) =~= gear@);
    let ghost after_gear = ids.view();
    let mut i: usize = 0;
    while i < effects.len()
        invariant
            i <= effects@.len(),
            ids.wf(),
            forall|id: Seq<char>| #[trigger] after_gear.contains_key(id) ==> ids.view().contains_key(id),
            forall|id: Seq<char>| !ids.view().contains_key(id) ==> (#[trigger] ability_bonus_parts(rows_of(effects@.subrange(0, i as int)), id)).len() == 0,
        decreases effects@.len() - i,
    {
        proof {
            assert(effects@.subrange(0, i + 1) == effects@.subrange(0, i as int).push(effects@[i as int]));
            lemma_rows_push(effects@.subrange(0, i as int), effects@[i as int]);
            assert(rows_of(effects@.subrange(0, i + 1)).drop_last() == rows_of(effects@.subrange(0, i as int)));
        }
        let e = &effects[i];
        let ghost old_view = ids.view();
        if let Effect::DerivedBonus(sid, _) = e.effect.value() {
            if e.when_tag.is_none() {
                ids.insert(sid.clone(), true);
            }
        }
        proof {
            assert forall|id: Seq<char>| !ids.view().contains_key(id) implies (#[trigger] ability_bonus_parts(rows_of(effects@.subrange(0, i + 1)), id)).len() == 0 by {
                assert(!old_view.contains_key(id));
                assert(ability_bonus_parts(rows_of(effects@.subrange(0, i as int)), id).len() == 0);
            }
        }
        i = i + 1;
    }
    assert(effects@.subrange(0, effects@.len() as int) =~= effects@);
    ids
}

/// The seeds: every seeded stat's sum of parts, and the armour rating as
/// stage 7 composed it.
fn build_seeds(
    ids: &IdMap<DerivedStatId, bool>,
    gear: &Vec<GearPiece>,
    data: &InMemoryDataset,
    effects: &Vec<SourcedEffect>,
    armor_rating: Confidence<Fixed>,
) -> (r: Result<IdMap<DerivedStatId, Confidence<Fixed>>, ResolveError>)
    requires
        data.wf(),
        ids.wf(),
        gear_known(gear@, *data),
        forall|id: Seq<char>| !ids.view().contains_key(id) ==> (#[trigger] seed_parts(gear@, *data, rows_of(effects@), id)).len() == 0,
    ensures
        match r {
            Ok(m) => {
                &&& m.wf()
                &&& m.view().contains_key(well_known::armor_rating())
                &&& m.view()[well_known::armor_rating()] == armor_rating
                &&& forall|id: Seq<char>| id != well_known::armor_rating() ==> (#[trigger] m.view().contains_key(id)
                    <==> seed_parts(gear@, *data, rows_of(effects@), id).len() > 0)
                &&& forall|id: Seq<char>| id != well_known::armor_rating() && #[trigger] m.view().contains_key(id) ==>
                    sum_parts(seed_parts(gear@, *data, rows_of(effects@), id)) == Some(m.view()[id].spec_value()@)
                    && parts_level(seed_parts(gear@, *data, rows_of(effects@), id)) == m.view()[id].spec_level()
            },
            Err(ResolveError::OutOfRange) => exists|id: Seq<char>| id != well_known::armor_rating()
                && sum_parts(seed_parts(gear@, *data, rows_of(effects@), id)) is None,
            Err(_) => false,
        },
{
    let mut m: IdMap<DerivedStatId, Confidence<Fixed>> = IdMap::new();
    let armor = well_known::ARMOR_RATING;
    let mut i: usize = 0;
    while i < ids.len()
        invariant
            i <= ids.entries().len(),
            data.wf(),
            ids.wf(),
            gear_known(gear@, *data),
            forall|id: Seq<char>| !ids.view().contains_key(id) ==> (#[trigger] seed_parts(gear@, *data, rows_of(effects@), id)).len() == 0,
            m.wf(),
            armor@ == well_known::armor_rating(),
            !m.view().contains_key(well_known::armor_rating()),
            forall|id: Seq<char>| #[trigger] m.view().contains_key(id) ==> ids.view().contains_key(id)
                && seed_parts(gear@, *data, rows_of(effects@), id).len() > 0
                && sum_parts(seed_parts(gear@, *data, rows_of(effects@), id)) == Some(m.view()[id].spec_value()@)
                && parts_level(seed_parts(gear@, *data, rows_of(effects@), id)) == m.view()[id].spec_level(),
            forall|x: int| 0 <= x < i && #[trigger] ids.keys()[x] != well_known::armor_rating()
                && seed_parts(gear@, *data, rows_of(effects@), ids.keys()[x]).len() > 0 ==> m.view().contains_key(ids.keys()[x]),
        decreases ids.entries().len() - i,
    {
        proof {
            crate::table::lemma_keys_of(ids.entries());
            crate::table::lemma_to_map_entries(ids.entries());
        }
        let key = ids.key_at(i);
        let mut parts: Vec<Confidence<Fixed>> = Vec::new();
        if !str_eq(key.as_str(), armor) {
            push_grant_parts(gear, data, key.as_str(), &mut parts);
            push_gear_roll_parts(gear, key.as_str(), &mut parts);
            push_ability_parts(effects, key.as_str(), &mut parts);
            proof {
                assert(graded_seq(Seq::<Confidence<Fixed>>::empty()) =~= Seq::<(int, ConfidenceLevel)>::empty());
                assert(graded_seq(parts@) =~= seed_parts(gear@, *data, rows_of(effects@), key@));
            }
        }
        // A stat with no part is not seeded: nothing gives it a value.
        if !str_eq(key.as_str(), armor) && parts.len() > 0 {
            let sum = match fold_sum(&parts) {
                Some(v) => v,
                None => {
                    proof {
                        assert(key@ != well_known::armor_rating());
                        assert(sum_parts(seed_parts(gear@, *data, rows_of(effects@), key@)) is None);
                    }
                    return Err(ResolveError::OutOfRange);
                },
            };
            let ghost old_m = m.view();
            let ghost gs = sum;
            m.insert(key.clone(), sum);
            proof {
                assert(ids.keys()[i as int] == key@);
                assert(ids.view().contains_key(ids.keys()[i as int]));
                assert forall|id: Seq<char>| #[trigger] m.view().contains_key(id) implies ids.view().contains_key(id)
                    && seed_parts(gear@, *data, rows_of(effects@), id).len() > 0
                    && sum_parts(seed_parts(gear@, *data, rows_of(effects@), id)) == Some(m.view()[id].spec_value()@)
                    && parts_level(seed_parts(gear@, *data, rows_of(effects@), id)) == m.view()[id].spec_level() by {
                    if id != key@ {
                        assert(old_m.contains_key(id));
                    }
                }
            }
        }
        i = i + 1;
    }
    proof {
        crate::table::lemma_keys_of(ids.entries());
        crate::table::lemma_to_map_entries(ids.entries());
        assert forall|id: Seq<char>| id != well_known::armor_rating() implies (#[trigger] m.view().contains_key(id)
            <==> seed_parts(gear@, *data, rows_of(effects@), id).len() > 0) by {
            if seed_parts(gear@, *data, rows_of(effects@), id).len() > 0 {
                assert(ids.view().contains_key(id));
                let x = choose|x: int| 0 <= x < ids.keys().len() && ids.keys()[x] == id;
            }
        }
    }
    m.insert(DerivedStatId::new(armor), armor_rating);
    Ok(m)
}

/// A gated bonus as plain values: the stat, the tag, the value, the grade.
pub open spec fn gated_view(c: ConditionalBonus) -> (Seq<char>, DamageTag, int, ConfidenceLevel) {
    (c.stat@, c.tag, c.value.spec_value()@, c.value.spec_level())
}

/// The bonuses that wait for a kind of blow, in application order.
pub open spec fn gated_rows(rows: Seq<(EffectView, ConfidenceLevel, Option<DamageTag>)>) -> Seq<(Seq<char>, DamageTag, int, ConfidenceLevel)>
    decreases rows.len(),
{
    if rows.len() == 0 {
        Seq::empty()
    } else {
        gated_rows(rows.drop_last()) + match (rows.last().0, rows.last().2) {
            (EffectView::DerivedBonus(sid, v), Some(t)) => seq![(sid, t, v, rows.last().1)],
            _ => Seq::empty(),
        }
    }
}

/// A gated bonus is not a property of the character, so it must not reach
/// the curve or the clamp. It waits for a strike.
fn gated_bonuses(effects: &Vec<SourcedEffect>) -> (r: Vec<ConditionalBonus>)
    ensures
        r@.map_values(|c: ConditionalBonus| gated_view(c)) == gated_rows(rows_of(effects@)),
{
    let mut out: Vec<ConditionalBonus> = Vec::new();
    let mut i: usize = 0;
    while i < effects.len()
        invariant
            i <= effects@.len(),
            out@.map_values(|c: ConditionalBonus| gated_view(c)) == gated_rows(rows_of(effects@.subrange(0, i as int))),
        decreases effects@.len() - i,
    {
        proof {
            assert(effects@.subrange(0, i + 1) == effects@.subrange(0, i as int).push(effects@[i as int]));
            lemma_rows_push(effects@.subrange(0, i as int), effects@[i as int]);
            assert(rows_of(effects@.subrange(0, i + 1)).drop_last() == rows_of(effects@.subrange(0, i as int)));
        }
        let e = &effects[i];
        let ghost before = out@;
        if let Effect::DerivedBonus(sid, v) = e.effect.value() {
            if let Some(tag) = e.when_tag {
                let c = ConditionalBonus { source: owned(e.name.as_str()), stat: sid.clone(), tag, value: e.effect.with_value(*v) };
                let ghost gc = c;
                out.push(c);
                proof {
                    assert(out@.map_values(|c: ConditionalBonus| gated_view(c)) =~= before.map_values(|c: ConditionalBonus| gated_view(c)).push(gated_view(gc)));
                }
            }
        }
        proof {
            assert(out@.map_values(|c: ConditionalBonus| gated_view(c)) =~= gated_rows(rows_of(effects@.subrange(0, i + 1))));
        }
        i = i + 1;
    }
    assert(effects@.subrange(0, effects@.len() as int) =~= effects@);
    out
}

/// The cap in force for a definition: the highest raise when an ability
/// raises it, its own cap otherwise.
pub open spec fn cap_value(d: DerivedStatDef, rows: Seq<(EffectView, ConfidenceLevel, Option<DamageTag>)>) -> Option<int> {
    match raised_cap(rows, d.id@) {
        Some(v) => Some(v),
        None => match d.cap {
            Some(c) => Some(c@),
            None => None,
        },
    }
}

/// `v` raised to the floor and lowered to the cap, when they exist.
pub open spec fn clamp_with(v: int, floor: Option<Fixed>, cap: Option<int>) -> int {
    let a = match floor {
        Some(f) => if v < f@ { f@ } else { v },
        None => v,
    };
    match cap {
        Some(c) => if a > c { c } else { a },
        None => a,
    }
}

/// The cap in force per capped definition.
fn caps_in_force(defs: &Vec<DerivedStatDef>, overrides: &IdMap<DerivedStatId, Fixed>) -> (caps: IdMap<DerivedStatId, Fixed>)
    requires
        overrides.wf(),
        crate::derived::distinct_ids(defs@),
    ensures
        caps.wf(),
        forall|i: int| 0 <= i < defs@.len() ==> match cap_in_force(#[trigger] defs@[i], overrides.view()) {
            Some(c) => caps.view().contains_key(defs@[i].id@) && caps.view()[defs@[i].id@] == c,
            None => !caps.view().contains_key(defs@[i].id@),
        },
        forall|id: Seq<char>| #[trigger] caps.view().contains_key(id) ==> crate::derived::defines(defs@, id),
{
    let mut caps: IdMap<DerivedStatId, Fixed> = IdMap::new();
    let mut i: usize = 0;
    while i < defs.len()
        invariant
            i <= defs@.len(),
            overrides.wf(),
            caps.wf(),
            crate::derived::distinct_ids(defs@),
            forall|x: int| 0 <= x < i ==> match cap_in_force(#[trigger] defs@[x], overrides.view()) {
                Some(c) => caps.view().contains_key(defs@[x].id@) && caps.view()[defs@[x].id@] == c,
                None => !caps.view().contains_key(defs@[x].id@),
            },
            forall|id: Seq<char>| #[trigger] caps.view().contains_key(id) ==> exists|x: int| 0 <= x < i && (#[trigger] defs@[x]).id@ == id,
        decreases defs@.len() - i,
    {
        let d = &defs[i];
        let cap = match overrides.get(d.id.as_str()) {
            Some(c) => Some(*c),
            None => d.cap,
        };
        if let Some(c) = cap {
            caps.insert(d.id.clone(), c);
        }
        proof {
            assert forall|x: int| 0 <= x < i implies (#[trigger] defs@[x]).id@ != d.id@ by {
                assert(defs@[i as int] == *d);
            }
        }
        i = i + 1;
    }
    caps
}

// ── The pipeline ────────────────────────────────────────────────────────

/// Whether a definition reads stat `id` as an input.
pub open spec fn reads(d: DerivedStatDef, id: Seq<char>) -> bool {
    exists|i: int| 0 <= i < d.weights@.len() && ((#[trigger] d.weights@[i]).0 matches crate::derived::RatingInput::Derived(x) && x@ == id)
}

/// The value a computed stat reached before stage 5: the breakdown's rows
/// summed and clamped.
pub open spec fn computed_value(d: DerivedStatDef, rows: Seq<(EffectView, ConfidenceLevel, Option<DamageTag>)>, bd: StatBreakdown) -> int {
    clamp_with(bd.from_rating.spec_value()@ + bd.from_bonuses.spec_value()@, d.floor, cap_value(d, rows))
}

/// What stages 4 to 7 establish about the stats: the two armour buckets and
/// the bonus; the armour rating composed from them; every computed stat as
/// its definition evaluates on the final values; plain seeds as their sums;
/// move speed after its flat and percentage stages; the caps in force; the
/// gated bonuses waiting for a strike.
#[verifier::opaque]
pub open spec fn stats_as(
    class_id: Seq<char>,
    gear: Seq<GearPiece>,
    data: InMemoryDataset,
    rows: Seq<(EffectView, ConfidenceLevel, Option<DamageTag>)>,
    attrs: Confidence<AttributeBlock>,
    derived: Map<Seq<char>, Confidence<Fixed>>,
    breakdown: Map<Seq<char>, StatBreakdown>,
    armor_parts: ArmorComposition,
    caps: Map<Seq<char>, Fixed>,
    conditional: Seq<ConditionalBonus>,
) -> bool {
    let class = data.classes()[class_id];
    let defs = class.derived@;
    let armor = well_known::armor_rating();
    let ms = well_known::move_speed();
    &&& sum_parts(item_grant_parts(gear, data, armor)) == Some(armor_parts.item.spec_value()@)
    &&& sum_parts(armor_bonus_parts(rows)) == Some(armor_parts.bonus.spec_value()@)
    &&& sum_parts(other_armor_parts(gear, rows)) == Some(armor_parts.other.spec_value()@)
    &&& plain_seed(defs, armor) ==> derived.contains_key(armor)
        && derived[armor].spec_value()@ == with_percent(armor_parts.item.spec_value()@, armor_parts.bonus.spec_value()@) + armor_parts.other.spec_value()@
    &&& forall|i: int| 0 <= i < defs.len() && weighted(#[trigger] defs[i]) ==> {
        let d = defs[i];
        let bd = breakdown[d.id@];
        &&& breakdown.contains_key(d.id@)
        &&& bd.from_rating.spec_value()@ == from_rating_spec(d, data.curves()[d.curve@].spec_value(), bd.rating.spec_value()@)
        &&& (d.id@ != armor ==> sum_parts(seed_parts(gear, data, rows, d.id@)) == Some(bd.from_bonuses.spec_value()@))
        &&& (d.id@ != ms ==> derived.contains_key(d.id@) && derived[d.id@].spec_value()@ == computed_value(d, rows, bd))
        &&& (!reads(d, ms) ==> rating_sum(d.weights@, attrs.spec_value(), derived) == Some(bd.rating.spec_value()@))
    }
    &&& forall|id: Seq<char>| id != armor && id != ms && plain_seed(defs, id) && (#[trigger] seed_parts(gear, data, rows, id)).len() > 0 ==>
        derived.contains_key(id) && sum_parts(seed_parts(gear, data, rows, id)) == Some(derived[id].spec_value()@)
    &&& forall|i: int| 0 <= i < defs.len() && weighted(#[trigger] defs[i]) && defs[i].id@ == ms ==>
        derived.contains_key(ms) && derived[ms].spec_value()@ == with_percent(
            computed_value(defs[i], rows, breakdown[ms]) + sum_parts(gear_move_parts(gear, data) + ability_move_parts(rows))->0,
            sum_parts(ability_move_bonus_parts(rows))->0)
    &&& forall|i: int| 0 <= i < defs.len() ==> match cap_value(#[trigger] defs[i], rows) {
        Some(c) => caps.contains_key(defs[i].id@) && caps[defs[i].id@]@ == c,
        None => !caps.contains_key(defs[i].id@),
    }
    &&& conditional.map_values(|c: ConditionalBonus| gated_view(c)) == gated_rows(rows)
}

/// The grade and note of every derived stat, and which stats there are.
/// The armour buckets are graded as the lowest of their parts, and the
/// armour rating carries the three buckets' grades and notes joined. A
/// computed stat carries its two rows joined: the curve row is the rating
/// joined with the curve, the rating carries its inputs' grades and notes
/// joined, and the bonus row carries its seed's grade and note (`Verified`
/// when nothing seeds it). A plain seed is graded as the lowest of its parts.
/// Move speed is graded as the lowest of its value before stage 5, its
/// flat adds and its percentage bonuses. No stat is there but the armour
/// rating, the class's definitions and the stats some part seeds.
#[verifier::opaque]
pub open spec fn grades_as(
    class_id: Seq<char>,
    gear: Seq<GearPiece>,
    data: InMemoryDataset,
    rows: Seq<(EffectView, ConfidenceLevel, Option<DamageTag>)>,
    attrs: Confidence<AttributeBlock>,
    derived: Map<Seq<char>, Confidence<Fixed>>,
    breakdown: Map<Seq<char>, StatBreakdown>,
    armor_parts: ArmorComposition,
) -> bool {
    let defs = data.classes()[class_id].derived@;
    let armor = well_known::armor_rating();
    let ms = well_known::move_speed();
    let armor_grade = grade_join(grade_join(grade_of(armor_parts.item), grade_of(armor_parts.bonus)), grade_of(armor_parts.other));
    let flat_parts = gear_move_parts(gear, data) + ability_move_parts(rows);
    let pct_parts = ability_move_bonus_parts(rows);
    &&& armor_parts.item.spec_level() == parts_level(item_grant_parts(gear, data, armor))
    &&& armor_parts.bonus.spec_level() == parts_level(armor_bonus_parts(rows))
    &&& armor_parts.other.spec_level() == parts_level(other_armor_parts(gear, rows))
    &&& plain_seed(defs, armor) ==> derived.contains_key(armor) && grade_of(derived[armor]) == armor_grade
    &&& forall|i: int| 0 <= i < defs.len() && weighted(#[trigger] defs[i]) ==> {
        let d = defs[i];
        let bd = breakdown[d.id@];
        &&& grade_of(bd.from_rating) == grade_join(grade_of(bd.rating), grade_of(data.curves()[d.curve@]))
        &&& (!reads(d, ms) ==> bd.rating.spec_level() == rating_level(d.weights@, attrs.spec_level(), derived)
            && grade_of(bd.rating) == rating_grade(d.weights@, grade_of(attrs), derived))
        &&& (d.id@ == armor ==> grade_of(bd.from_bonuses) == armor_grade)
        &&& (d.id@ != armor && seed_parts(gear, data, rows, d.id@).len() > 0 ==>
            bd.from_bonuses.spec_level() == parts_level(seed_parts(gear, data, rows, d.id@)))
        &&& (d.id@ != armor && seed_parts(gear, data, rows, d.id@).len() == 0 ==>
            grade_of(bd.from_bonuses) == (ConfidenceLevel::Verified, None::<Seq<char>>))
        &&& (d.id@ != ms ==> derived.contains_key(d.id@) && grade_of(derived[d.id@]) == grade_join(grade_of(bd.from_rating), grade_of(bd.from_bonuses)))
        &&& (d.id@ == ms ==> derived.contains_key(ms) && derived[ms].spec_level() == min_level(min_level(
            min_level(bd.from_rating.spec_level(), bd.from_bonuses.spec_level()), parts_level(flat_parts)), parts_level(pct_parts)))
    }
    &&& forall|id: Seq<char>| id != armor && id != ms && plain_seed(defs, id) && (#[trigger] seed_parts(gear, data, rows, id)).len() > 0 ==>
        derived.contains_key(id) && derived[id].spec_level() == parts_level(seed_parts(gear, data, rows, id))
    &&& plain_seed(defs, ms) && seed_parts(gear, data, rows, ms).len() > 0 ==> derived.contains_key(ms)
        && derived[ms].spec_value()@ == with_percent(sum_parts(seed_parts(gear, data, rows, ms))->0 + sum_parts(flat_parts)->0, sum_parts(pct_parts)->0)
        && derived[ms].spec_level() == min_level(min_level(parts_level(seed_parts(gear, data, rows, ms)), parts_level(flat_parts)), parts_level(pct_parts))
    &&& forall|k: Seq<char>| #[trigger] derived.contains_key(k) ==> k == armor || crate::derived::defines(defs, k)
        || seed_parts(gear, data, rows, k).len() > 0
}

/// Two maps that agree on every stat the weights read give the same
/// rating grade.
proof fn lemma_rating_level_agree(
    ws: Seq<(crate::derived::RatingInput, Fixed)>,
    lvl: ConfidenceLevel,
    m1: Map<Seq<char>, Confidence<Fixed>>,
    m2: Map<Seq<char>, Confidence<Fixed>>,
)
    requires
        forall|i: int| 0 <= i < ws.len() ==> ((#[trigger] ws[i]).0 matches crate::derived::RatingInput::Derived(x) ==> m1[x@] == m2[x@]),
    ensures
        rating_level(ws, lvl, m1) == rating_level(ws, lvl, m2),
    decreases ws.len(),
{
    if ws.len() > 0 {
        let p = ws.drop_last();
        assert forall|i: int| 0 <= i < p.len() implies ((#[trigger] p[i]).0 matches crate::derived::RatingInput::Derived(x) ==> m1[x@] == m2[x@]) by {
            assert(p[i] == ws[i]);
        }
        lemma_rating_level_agree(p, lvl, m1, m2);
        assert(ws.last() == ws[ws.len() - 1]);
    }
}

/// Two maps that agree on every stat the weights read give the same
/// rating grade and note.
proof fn lemma_rating_grade_agree(
    ws: Seq<(crate::derived::RatingInput, Fixed)>,
    ag: (ConfidenceLevel, Option<Seq<char>>),
    m1: Map<Seq<char>, Confidence<Fixed>>,
    m2: Map<Seq<char>, Confidence<Fixed>>,
)
    requires
        forall|i: int| 0 <= i < ws.len() ==> ((#[trigger] ws[i]).0 matches crate::derived::RatingInput::Derived(x) ==> m1[x@] == m2[x@]),
    ensures
        rating_grade(ws, ag, m1) == rating_grade(ws, ag, m2),
    decreases ws.len(),
{
    if ws.len() > 0 {
        let p = ws.drop_last();
        assert forall|i: int| 0 <= i < p.len() implies ((#[trigger] p[i]).0 matches crate::derived::RatingInput::Derived(x) ==> m1[x@] == m2[x@]) by {
            assert(p[i] == ws[i]);
        }
        lemma_rating_grade_agree(p, ag, m1, m2);
        assert(ws.last() == ws[ws.len() - 1]);
    }
}

/// What stages 4 to 7 compute, graded, is what [`grades_as`] states.
#[verifier::rlimit(40)]
proof fn lemma_grades(
    l: Loadout,
    data: InMemoryDataset,
    rows: Seq<(EffectView, ConfidenceLevel, Option<DamageTag>)>,
    attrs: Confidence<AttributeBlock>,
    armor_parts: ArmorComposition,
    armor_rating: Confidence<Fixed>,
    seeded: Map<Seq<char>, Confidence<Fixed>>,
    ev_values: Map<Seq<char>, Confidence<Fixed>>,
    ev_breakdown: Map<Seq<char>, StatBreakdown>,
    derived: Map<Seq<char>, Confidence<Fixed>>,
    flat: int,
    pct: int,
    flat_level: ConfidenceLevel,
    pct_level: ConfidenceLevel,
)
    requires
        data.classes().contains_key(l.class@),
        armor_parts.item.spec_level() == parts_level(item_grant_parts(l.gear@, data, well_known::armor_rating())),
        armor_parts.bonus.spec_level() == parts_level(armor_bonus_parts(rows)),
        armor_parts.other.spec_level() == parts_level(other_armor_parts(l.gear@, rows)),
        grade_of(armor_rating) == grade_join(grade_join(grade_of(armor_parts.item), grade_of(armor_parts.bonus)), grade_of(armor_parts.other)),
        seeded.contains_key(well_known::armor_rating()),
        seeded[well_known::armor_rating()] == armor_rating,
        forall|id: Seq<char>| id != well_known::armor_rating() ==> (#[trigger] seeded.contains_key(id) <==> seed_parts(l.gear@, data, rows, id).len() > 0),
        forall|id: Seq<char>| id != well_known::armor_rating() && #[trigger] seeded.contains_key(id) ==>
            sum_parts(seed_parts(l.gear@, data, rows, id)) == Some(seeded[id].spec_value()@)
            && parts_level(seed_parts(l.gear@, data, rows, id)) == seeded[id].spec_level(),
        ({
            let defs = data.classes()[l.class@].derived@;
            &&& forall|i: int| 0 <= i < defs.len() && weighted(#[trigger] defs[i]) ==> broken_down_as(
                defs[i], attrs, ev_values, ev_breakdown, seeded, data.curves())
            &&& forall|k: Seq<char>| #[trigger] seeded.contains_key(k) && plain_seed(defs, k) ==> ev_values.contains_key(k) && ev_values[k] == seeded[k]
            &&& forall|k: Seq<char>| #[trigger] ev_values.contains_key(k) ==> (seeded.contains_key(k) && plain_seed(defs, k))
                || exists|i: int| 0 <= i < defs.len() && (#[trigger] defs[i]).id@ == k && weighted(defs[i])
        }),
        sum_parts(gear_move_parts(l.gear@, data) + ability_move_parts(rows)) == Some(flat),
        sum_parts(ability_move_bonus_parts(rows)) == Some(pct),
        flat_level == parts_level(gear_move_parts(l.gear@, data) + ability_move_parts(rows)),
        pct_level == parts_level(ability_move_bonus_parts(rows)),
        ev_values.contains_key(well_known::move_speed()) ==> derived.contains_key(well_known::move_speed())
            && derived == ev_values.insert(well_known::move_speed(), derived[well_known::move_speed()])
            && derived[well_known::move_speed()].spec_value()@ == with_percent(ev_values[well_known::move_speed()].spec_value()@ + flat, pct)
            && derived[well_known::move_speed()].spec_level() == min_level(min_level(ev_values[well_known::move_speed()].spec_level(), flat_level), pct_level),
        !ev_values.contains_key(well_known::move_speed()) ==> derived == ev_values,
    ensures
        grades_as(l.class@, l.gear@, data, rows, attrs, derived, ev_breakdown, armor_parts),
{
    reveal(grades_as);
    let defs = data.classes()[l.class@].derived@;
    let armor = well_known::armor_rating();
    let ms = well_known::move_speed();
    lemma_armor_is_not_move_speed();
    assert forall|k: Seq<char>| k != ms && #[trigger] ev_values.contains_key(k) implies derived.contains_key(k) && derived[k] == ev_values[k] by {
    }
    if plain_seed(defs, armor) {
        assert(ev_values.contains_key(armor));
    }
    assert forall|i: int| 0 <= i < defs.len() && weighted(#[trigger] defs[i]) implies {
        let d = defs[i];
        let bd = ev_breakdown[d.id@];
        let armor_grade = grade_join(grade_join(grade_of(armor_parts.item), grade_of(armor_parts.bonus)), grade_of(armor_parts.other));
        &&& grade_of(bd.from_rating) == grade_join(grade_of(bd.rating), grade_of(data.curves()[d.curve@]))
        &&& (!reads(d, ms) ==> bd.rating.spec_level() == rating_level(d.weights@, attrs.spec_level(), derived)
            && grade_of(bd.rating) == rating_grade(d.weights@, grade_of(attrs), derived))
        &&& (d.id@ == armor ==> grade_of(bd.from_bonuses) == armor_grade)
        &&& (d.id@ != armor && seed_parts(l.gear@, data, rows, d.id@).len() > 0 ==>
            bd.from_bonuses.spec_level() == parts_level(seed_parts(l.gear@, data, rows, d.id@)))
        &&& (d.id@ != armor && seed_parts(l.gear@, data, rows, d.id@).len() == 0 ==>
            grade_of(bd.from_bonuses) == (ConfidenceLevel::Verified, None::<Seq<char>>))
        &&& (d.id@ != ms ==> derived.contains_key(d.id@) && grade_of(derived[d.id@]) == grade_join(grade_of(bd.from_rating), grade_of(bd.from_bonuses)))
        &&& (d.id@ == ms ==> derived.contains_key(ms) && derived[ms].spec_level() == min_level(min_level(
            min_level(bd.from_rating.spec_level(), bd.from_bonuses.spec_level()), parts_level(gear_move_parts(l.gear@, data) + ability_move_parts(rows))),
            parts_level(ability_move_bonus_parts(rows))))
    } by {
        let d = defs[i];
        assert(broken_down_as(d, attrs, ev_values, ev_breakdown, seeded, data.curves()));
        if !reads(d, ms) {
            assert forall|j: int| 0 <= j < d.weights@.len() implies ((#[trigger] d.weights@[j]).0 matches crate::derived::RatingInput::Derived(x) ==> ev_values[x@] == derived[x@]) by {
                if let crate::derived::RatingInput::Derived(x) = d.weights@[j].0 {
                    assert(x@ != ms);
                    if ev_values.contains_key(x@) {
                    } else {
                        assert(!derived.contains_key(x@) || x@ == ms);
                    }
                }
            }
            lemma_rating_level_agree(d.weights@, attrs.spec_level(), ev_values, derived);
            lemma_rating_grade_agree(d.weights@, grade_of(attrs), ev_values, derived);
        }
    }
    assert forall|id: Seq<char>| id != armor && id != ms && plain_seed(defs, id) && (#[trigger] seed_parts(l.gear@, data, rows, id)).len() > 0 implies
        derived.contains_key(id) && derived[id].spec_level() == parts_level(seed_parts(l.gear@, data, rows, id)) by {
        assert(seeded.contains_key(id));
        assert(ev_values.contains_key(id));
    }
    if plain_seed(defs, ms) && seed_parts(l.gear@, data, rows, ms).len() > 0 {
        assert(seeded.contains_key(ms));
        assert(ev_values.contains_key(ms));
    }
    assert forall|k: Seq<char>| #[trigger] derived.contains_key(k) implies k == armor || crate::derived::defines(defs, k)
        || seed_parts(l.gear@, data, rows, k).len() > 0 by {
        assert(ev_values.contains_key(k));
        if !(seeded.contains_key(k) && plain_seed(defs, k)) {
            let i = choose|i: int| 0 <= i < defs.len() && (#[trigger] defs[i]).id@ == k && weighted(defs[i]);
        }
    }
}

/// What a successful resolution states: the class and build; the attribute
/// block as base plus gear plus abilities; the stats as [`stats_as`] states
/// them and graded as [`grades_as`] states; a note for every stage, stage
/// 3's naming every ability skipped as already in force.
pub open spec fn resolved_as(l: Loadout, data: InMemoryDataset, r: Resolved) -> bool {
    &&& resolved_from(l.class@, l.gear@, collected(l, data), data, r)
    &&& duplicates_noted(r.trace@, ignored_names(l, data))
}

/// What a successful resolution states, given the class, the gear and the
/// effects the abilities contribute (`None` when they could not be
/// collected).
pub open spec fn resolved_from(
    class_id: Seq<char>,
    gear: Seq<GearPiece>,
    found: Option<Seq<(EffectView, ConfidenceLevel, Option<DamageTag>)>>,
    data: InMemoryDataset,
    r: Resolved,
) -> bool {
    let class = data.classes()[class_id];
    let rows = found->0;
    &&& data.classes().contains_key(class_id)
    &&& found is Some
    &&& gear_known(gear, data)
    &&& r.class@ == class_id
    &&& r.build@ == data.build_spec()
    &&& r.derived.wf() && r.caps.wf() && r.breakdown.wf()
    &&& forall|k: AttributeKind| #[trigger] block_get(r.attributes.spec_value(), k) == block_get(class.base_attributes.spec_value(), k)
        + gear_points(gear, data, k) + effect_points(rows, k)
    &&& r.attributes.spec_level() == effect_attr_level(rows, gear_attr_level(gear, data, class.base_attributes.spec_level()))
    &&& stats_as(class_id, gear, data, rows, r.attributes, r.derived.view(), r.breakdown.view(), r.armor, r.caps.view(), r.conditional@)
    &&& grades_as(class_id, gear, data, rows, r.attributes, r.derived.view(), r.breakdown.view(), r.armor)
    &&& forall|st: u8| 1 <= st <= 8 ==> #[trigger] has_stage(r.trace@, st)
}

/// Whether a trace holds a note for a stage.
pub open spec fn has_stage(t: Seq<StageNote>, st: u8) -> bool {
    exists|j: int| 0 <= j < t.len() && (#[trigger] t[j]).stage == st
}

/// The seeds stage 4 hands the evaluation: the armour rating, and every
/// other stat's summed parts from gear and abilities; a stat that is not
/// seeded has no parts.
pub open spec fn seeds_as(m: Map<Seq<char>, Confidence<Fixed>>, l: Loadout, data: InMemoryDataset, rows: Seq<(EffectView, ConfidenceLevel, Option<DamageTag>)>) -> bool {
    &&& m.contains_key(well_known::armor_rating())
    &&& forall|id: Seq<char>| id != well_known::armor_rating() && #[trigger] m.contains_key(id) ==>
        sum_parts(seed_parts(l.gear@, data, rows, id)) == Some(m[id].spec_value()@)
    &&& forall|id: Seq<char>| id != well_known::armor_rating() && !m.contains_key(id) ==>
        (#[trigger] seed_parts(l.gear@, data, rows, id)).len() == 0
}

/// The caps perks raise, by stat.
pub open spec fn caps_as(c: Map<Seq<char>, Fixed>, rows: Seq<(EffectView, ConfidenceLevel, Option<DamageTag>)>) -> bool {
    &&& forall|id: Seq<char>| #[trigger] c.contains_key(id) <==> raised_cap(rows, id) is Some
    &&& forall|id: Seq<char>| #[trigger] c.contains_key(id) ==> c[id]@ == raised_cap(rows, id)->0
}

/// The attribute block after stage 3: base plus gear plus abilities.
pub open spec fn final_attributes_as(a: Confidence<AttributeBlock>, l: Loadout, data: InMemoryDataset, rows: Seq<(EffectView, ConfidenceLevel, Option<DamageTag>)>) -> bool {
    let class = data.classes()[l.class@];
    &&& forall|k: AttributeKind| #[trigger] block_get(a.spec_value(), k) == block_get(class.base_attributes.spec_value(), k)
        + gear_points(l.gear@, data, k) + effect_points(rows, k)
    &&& a.spec_level() == effect_attr_level(rows, gear_attr_level(l.gear@, data, class.base_attributes.spec_level()))
}

/// Stage 7's armour arithmetic stays in range: the item, other and bonus
/// sums, the multiplier `100 + bonus`, the item bucket scaled by it, and
/// that plus the rest.
pub open spec fn armor_fits(l: Loadout, data: InMemoryDataset, rows: Seq<(EffectView, ConfidenceLevel, Option<DamageTag>)>) -> bool {
    let item = sum_parts(item_grant_parts(l.gear@, data, well_known::armor_rating()));
    let other = sum_parts(other_armor_parts(l.gear@, rows));
    let bonus = sum_parts(armor_bonus_parts(rows));
    &&& item is Some && other is Some && bonus is Some
    &&& in_micro_range(hundred() + bonus->0)
    &&& in_micro_range(with_percent(item->0, bonus->0))
    &&& in_micro_range(with_percent(item->0, bonus->0) + other->0)
}

/// Every seeded stat's parts sum inside the range.
pub open spec fn seeds_fit(l: Loadout, data: InMemoryDataset, rows: Seq<(EffectView, ConfidenceLevel, Option<DamageTag>)>) -> bool {
    forall|id: Seq<char>| id != well_known::armor_rating() ==> #[trigger] sum_parts(seed_parts(l.gear@, data, rows, id)) is Some
}

/// Stages 5 and 6's sums stay in range: the flat adds and the percentage
/// bonuses.
pub open spec fn move_fits(l: Loadout, data: InMemoryDataset, rows: Seq<(EffectView, ConfidenceLevel, Option<DamageTag>)>) -> bool {
    &&& sum_parts(gear_move_parts(l.gear@, data) + ability_move_parts(rows)) is Some
    &&& sum_parts(ability_move_bonus_parts(rows)) is Some
}

/// Stages 5 and 6 applied to a move speed of `v` stay in range: `v` plus
/// the flat adds, the multiplier `100 + bonus`, and the scaled result.
pub open spec fn move_value_fits(v: int, l: Loadout, data: InMemoryDataset, rows: Seq<(EffectView, ConfidenceLevel, Option<DamageTag>)>) -> bool {
    let flat = sum_parts(gear_move_parts(l.gear@, data) + ability_move_parts(rows))->0;
    let bonus = sum_parts(ability_move_bonus_parts(rows))->0;
    &&& in_micro_range(v + flat)
    &&& in_micro_range(hundred() + bonus)
    &&& in_micro_range(with_percent(v + flat, bonus))
}

/// The class is known and stage 2 passes: every piece is in order and its
/// additions stay in range.
pub open spec fn gear_passes(l: Loadout, data: InMemoryDataset) -> bool {
    &&& data.classes().contains_key(l.class@)
    &&& gear_ok(l.gear@, data, l.class@)
    &&& gear_fits(data.classes()[l.class@].base_attributes.spec_value(), l.gear@, data)
}

/// What a failed resolution states: the first failure in stage order. An
/// unknown class; the first piece of gear that fails stage 2; with the
/// gear passing, an ability the dataset lacks or refuses, or a count it
/// cannot carry; with the gear, armour and seeds passing, a derived-stat
/// failure; or a sum that leaves the range at its stage.
pub open spec fn error_explained(l: Loadout, data: InMemoryDataset, e: ResolveError) -> bool {
    match e {
        ResolveError::UnknownClass(id) => id@ == l.class@ && !data.classes().contains_key(l.class@),
        ResolveError::UnknownItem(_) | ResolveError::WrongClass { .. } | ResolveError::WrongSlot { .. } =>
            data.classes().contains_key(l.class@) && gear_error(data.classes()[l.class@].base_attributes.spec_value(), l.gear@, data, l.class@, e),
        ResolveError::UnknownPerk(id) => gear_passes(l, data) && collected(l, data) is None && exists|k: int| 0 <= k < abilities(l).len() && (#[trigger] abilities(l)[k]).perk
            && abilities(l)[k].id == id@ && !data.perks().contains_key(id@),
        ResolveError::WrongClassPerk { perk, allowed } => gear_passes(l, data) && collected(l, data) is None && data.perks().contains_key(perk@)
            && !admits(data.perks()[perk@].required_classes@, l.class@) && same_classes(allowed@, data.perks()[perk@].required_classes@)
            && exists|k: int| 0 <= k < abilities(l).len() && (#[trigger] abilities(l)[k]).perk && abilities(l)[k].id == perk@,
        ResolveError::UnknownSkill(id) => gear_passes(l, data) && collected(l, data) is None && exists|k: int| 0 <= k < abilities(l).len() && !(#[trigger] abilities(l)[k]).perk
            && abilities(l)[k].id == id@ && !data.skills().contains_key(id@),
        ResolveError::WrongClassSkill { skill, allowed } => gear_passes(l, data) && collected(l, data) is None && data.skills().contains_key(skill@)
            && !admits(data.skills()[skill@].required_classes@, l.class@) && same_classes(allowed@, data.skills()[skill@].required_classes@)
            && exists|k: int| 0 <= k < abilities(l).len() && !(#[trigger] abilities(l)[k]).perk && !abilities(l)[k].party && abilities(l)[k].id == skill@,
        ResolveError::TooManyStacks { source, requested, max } => gear_passes(l, data) && collected(l, data) is None && l.stacks.view().contains_key(source@)
            && requested == l.stacks.view()[source@] && requested > max
            && exists|k: int| 0 <= k < abilities(l).len() && (#[trigger] abilities(l)[k]).id == source@
                && (if abilities(l)[k].perk { data.perks().contains_key(source@) } else { data.skills().contains_key(source@) })
                && caps_stacks_at(data, abilities(l)[k], max),
        ResolveError::Derived(de) => gear_passes(l, data) && collected(l, data) is Some
            && armor_fits(l, data, collected(l, data)->0) && seeds_fit(l, data, collected(l, data)->0)
            && exists|a: Confidence<AttributeBlock>, seeded: Map<Seq<char>, Confidence<Fixed>>, caps: Map<Seq<char>, Fixed>|
                final_attributes_as(a, l, data, collected(l, data)->0) && seeds_as(seeded, l, data, collected(l, data)->0)
                && caps_as(caps, collected(l, data)->0)
                && #[trigger] derived_error_explained(data.classes()[l.class@].derived@, a, seeded, caps, data.curves(), de),
        ResolveError::OutOfRange => data.classes().contains_key(l.class@) && sums_overflow(l, data),
    }
}

/// Some stage's arithmetic leaves the range: stage 2's attribute sums; an
/// ability's stack scaling; or, with every piece in order and every
/// ability collected, stage 3's sums, the armour, a seed, the move speed
/// sums, or stages 5 and 6 applied to the move speed the evaluation
/// reaches.
pub open spec fn sums_overflow(l: Loadout, data: InMemoryDataset) -> bool {
    let class = data.classes()[l.class@];
    let rows = collected(l, data)->0;
    ||| gear_error(class.base_attributes.spec_value(), l.gear@, data, l.class@, ResolveError::OutOfRange)
    ||| gear_passes(l, data) && stacks_overflow(l, data)
    ||| gear_passes(l, data) && collected(l, data) is Some && {
        ||| exists|b: AttributeBlock| (forall|k: AttributeKind| #[trigger] block_get(b, k) == block_get(class.base_attributes.spec_value(), k)
            + gear_points(l.gear@, data, k)) && #[trigger] effects_fit(b, rows) == false
        ||| !armor_fits(l, data, rows)
        ||| !seeds_fit(l, data, rows)
        ||| !move_fits(l, data, rows)
        ||| exists|a: Confidence<AttributeBlock>, seeded: Map<Seq<char>, Confidence<Fixed>>, caps: Map<Seq<char>, Fixed>, m: Map<Seq<char>, Confidence<Fixed>>|
            final_attributes_as(a, l, data, rows) && seeds_as(seeded, l, data, rows) && caps_as(caps, rows)
            && #[trigger] evaluation_as(class.derived@, a, seeded, caps, data.curves(), m)
            && m.contains_key(well_known::move_speed())
            && !move_value_fits(m[well_known::move_speed()].spec_value()@, l, data, rows)
    }
}

proof fn lemma_extends_trans(a: Seq<StageNote>, b: Seq<StageNote>, c: Seq<StageNote>)
    requires
        extends(a, b),
        extends(b, c),
    ensures
        extends(a, c),
{
    assert(c.subrange(0, a.len() as int) =~= b.subrange(0, a.len() as int));
}

proof fn lemma_extends_keeps(a: Seq<StageNote>, b: Seq<StageNote>, j: int)
    requires
        extends(a, b),
        0 <= j < a.len(),
    ensures
        b[j] == a[j],
{
    assert(b.subrange(0, a.len() as int)[j] == b[j]);
}

/// A rating only reads its inputs: two value maps that agree on them give
/// the same rating.
proof fn lemma_rating_agree(
    ws: Seq<(crate::derived::RatingInput, Fixed)>,
    attrs: AttributeBlock,
    m1: Map<Seq<char>, Confidence<Fixed>>,
    m2: Map<Seq<char>, Confidence<Fixed>>,
)
    requires
        forall|i: int| 0 <= i < ws.len() ==> ((#[trigger] ws[i]).0 matches crate::derived::RatingInput::Derived(x) ==> m1[x@] == m2[x@]),
    ensures
        rating_sum(ws, attrs, m1) == rating_sum(ws, attrs, m2),
    decreases ws.len(),
{
    if ws.len() > 0 {
        let p = ws.drop_last();
        assert forall|i: int| 0 <= i < p.len() implies ((#[trigger] p[i]).0 matches crate::derived::RatingInput::Derived(x) ==> m1[x@] == m2[x@]) by {
            assert(p[i] == ws[i]);
        }
        lemma_rating_agree(p, attrs, m1, m2);
        assert(ws.last() == ws[ws.len() - 1]);
    }
}

/// The two ids stages 5 and 7 single out are different stats.
proof fn lemma_armor_is_not_move_speed()
    ensures
        well_known::armor_rating() != well_known::move_speed(),
{
    reveal_strlit("derived.armor_rating");
    reveal_strlit("derived.move_speed");
    assert(well_known::armor_rating().len() != well_known::move_speed().len());
}

/// Whether the class's definition of `id` has weights of its own.
fn is_weighted_def(defs: &Vec<DerivedStatDef>, id: &str) -> (r: bool)
    requires
        crate::derived::distinct_ids(defs@),
    ensures
        r == !plain_seed(defs@, id@),
{
    let mut i: usize = 0;
    while i < defs.len()
        invariant
            i <= defs@.len(),
            forall|j: int| 0 <= j < i ==> !((#[trigger] defs@[j]).id@ == id@ && weighted(defs@[j])),
        decreases defs@.len() - i,
    {
        if str_eq(defs[i].id.as_str(), id) && defs[i].weights.len() > 0 {
            return true;
        }
        i = i + 1;
    }
    false
}

/// One derived stat as the trace writes it: its id and its value.
pub open spec fn stat_entry_text(e: (DerivedStatId, Confidence<Fixed>)) -> Seq<char> {
    e.0@ + seq![' '] + crate::fixed::render_spec(e.1.spec_value()@, false)
}

/// Derived stats as the trace writes them, ` · `-separated, in table order.
pub open spec fn derived_text(es: Seq<(DerivedStatId, Confidence<Fixed>)>) -> Seq<char>
    decreases es.len(),
{
    if es.len() == 0 {
        Seq::empty()
    } else if es.len() == 1 {
        stat_entry_text(es[0])
    } else {
        derived_text(es.drop_last()) + " · "@ + stat_entry_text(es.last())
    }
}

/// Renders the derived map for the trace, in sorted id order.
fn render_derived(derived: &IdMap<DerivedStatId, Confidence<Fixed>>) -> (r: String)
    ensures
        r@ == derived_text(derived.entries()),
{
    let mut out: Vec<char> = Vec::new();
    let mut i: usize = 0;
    while i < derived.len()
        invariant
            i <= derived.entries().len(),
            out@ == derived_text(derived.entries().subrange(0, i as int)),
        decreases derived.entries().len() - i,
    {
        let ghost before = out@;
        if i > 0 {
            append_chars(&mut out, " · ");
        }
        append_chars(&mut out, derived.key_at(i).as_str());
        out.push(' ');
        let v = derived.value_at(i).value().to_string();
        append_chars(&mut out, v.as_str());
        proof {
            let es = derived.entries();
            let next = es.subrange(0, i + 1);
            assert(next.drop_last() =~= es.subrange(0, i as int));
            assert(next.last() == es[i as int]);
            if i == 0 {
                assert(out@ =~= derived_text(next));
            } else {
                assert(out@ =~= before + " · "@ + stat_entry_text(es[i as int]));
            }
        }
        i = i + 1;
    }
    proof {
        assert(derived.entries().subrange(0, derived.entries().len() as int) =~= derived.entries());
    }
    string_of(&out)
}

/// The cap a definition is clamped to, read from the overrides, is the cap
/// [`cap_value`] names.
proof fn lemma_cap_equiv(d: DerivedStatDef, rows: Seq<(EffectView, ConfidenceLevel, Option<DamageTag>)>, ov: Map<Seq<char>, Fixed>, v: int)
    requires
        forall|id: Seq<char>| #[trigger] ov.contains_key(id) <==> raised_cap(rows, id) is Some,
        forall|id: Seq<char>| #[trigger] ov.contains_key(id) ==> ov[id]@ == raised_cap(rows, id)->0,
    ensures
        clamp_spec(v, d.floor, cap_in_force(d, ov)) == clamp_with(v, d.floor, cap_value(d, rows)),
        match cap_in_force(d, ov) {
            Some(c) => cap_value(d, rows) == Some(c@),
            None => cap_value(d, rows) is None,
        },
{
    if ov.contains_key(d.id@) {
        assert(raised_cap(rows, d.id@) is Some);
    } else {
        assert(raised_cap(rows, d.id@) is None);
    }
}

/// What stages 4 to 7 compute, put together, is what [`stats_as`] states.
#[verifier::rlimit(40)]
proof fn lemma_stats(
    l: Loadout,
    data: InMemoryDataset,
    rows: Seq<(EffectView, ConfidenceLevel, Option<DamageTag>)>,
    attrs: Confidence<AttributeBlock>,
    armor_parts: ArmorComposition,
    armor_rating: Confidence<Fixed>,
    ids: Map<Seq<char>, bool>,
    seeded: Map<Seq<char>, Confidence<Fixed>>,
    overrides: Map<Seq<char>, Fixed>,
    ev_values: Map<Seq<char>, Confidence<Fixed>>,
    ev_breakdown: Map<Seq<char>, StatBreakdown>,
    derived: Map<Seq<char>, Confidence<Fixed>>,
    flat: int,
    pct: int,
    caps: Map<Seq<char>, Fixed>,
    conditional: Seq<ConditionalBonus>,
)
    requires
        data.classes().contains_key(l.class@),
        sum_parts(item_grant_parts(l.gear@, data, well_known::armor_rating())) == Some(armor_parts.item.spec_value()@),
        sum_parts(armor_bonus_parts(rows)) == Some(armor_parts.bonus.spec_value()@),
        sum_parts(other_armor_parts(l.gear@, rows)) == Some(armor_parts.other.spec_value()@),
        armor_rating.spec_value()@ == with_percent(armor_parts.item.spec_value()@, armor_parts.bonus.spec_value()@) + armor_parts.other.spec_value()@,
        forall|id: Seq<char>| !ids.contains_key(id) ==> (#[trigger] seed_parts(l.gear@, data, rows, id)).len() == 0,
        seeded.contains_key(well_known::armor_rating()),
        seeded[well_known::armor_rating()] == armor_rating,
        forall|id: Seq<char>| id != well_known::armor_rating() ==> (#[trigger] seeded.contains_key(id) <==> seed_parts(l.gear@, data, rows, id).len() > 0),
        forall|id: Seq<char>| id != well_known::armor_rating() && #[trigger] seeded.contains_key(id) ==>
            sum_parts(seed_parts(l.gear@, data, rows, id)) == Some(seeded[id].spec_value()@),
        forall|id: Seq<char>| #[trigger] overrides.contains_key(id) <==> raised_cap(rows, id) is Some,
        forall|id: Seq<char>| #[trigger] overrides.contains_key(id) ==> overrides[id]@ == raised_cap(rows, id)->0,
        ({
            let defs = data.classes()[l.class@].derived@;
            &&& forall|i: int| 0 <= i < defs.len() && weighted(#[trigger] defs[i]) ==> evaluated_as(
                defs[i], attrs, ev_values, seeded, overrides, data.curves())
            &&& forall|i: int| 0 <= i < defs.len() && weighted(#[trigger] defs[i]) ==> broken_down_as(
                defs[i], attrs, ev_values, ev_breakdown, seeded, data.curves())
            &&& forall|k: Seq<char>| #[trigger] seeded.contains_key(k) && plain_seed(defs, k) ==> ev_values.contains_key(k) && ev_values[k] == seeded[k]
        }),
        sum_parts(gear_move_parts(l.gear@, data) + ability_move_parts(rows)) == Some(flat),
        sum_parts(ability_move_bonus_parts(rows)) == Some(pct),
        ev_values.contains_key(well_known::move_speed()) ==> derived.contains_key(well_known::move_speed())
            && derived == ev_values.insert(well_known::move_speed(), derived[well_known::move_speed()])
            && derived[well_known::move_speed()].spec_value()@ == with_percent(ev_values[well_known::move_speed()].spec_value()@ + flat, pct),
        !ev_values.contains_key(well_known::move_speed()) ==> derived == ev_values,
        forall|i: int| 0 <= i < data.classes()[l.class@].derived@.len() ==> match cap_in_force(#[trigger] data.classes()[l.class@].derived@[i], overrides) {
            Some(c) => caps.contains_key(data.classes()[l.class@].derived@[i].id@) && caps[data.classes()[l.class@].derived@[i].id@] == c,
            None => !caps.contains_key(data.classes()[l.class@].derived@[i].id@),
        },
        conditional.map_values(|c: ConditionalBonus| gated_view(c)) == gated_rows(rows),
    ensures
        stats_as(l.class@, l.gear@, data, rows, attrs, derived, ev_breakdown, armor_parts, caps, conditional),
{
    reveal(stats_as);
    let defs = data.classes()[l.class@].derived@;
    let armor = well_known::armor_rating();
    let ms = well_known::move_speed();
    lemma_armor_is_not_move_speed();
    assert forall|k: Seq<char>| k != ms && #[trigger] ev_values.contains_key(k) implies derived.contains_key(k) && derived[k] == ev_values[k] by {
    }
    if plain_seed(defs, armor) {
        assert(ev_values.contains_key(armor));
    }
    assert forall|i: int| 0 <= i < defs.len() && weighted(#[trigger] defs[i]) implies {
        let d = defs[i];
        let bd = ev_breakdown[d.id@];
        &&& ev_breakdown.contains_key(d.id@)
        &&& bd.from_rating.spec_value()@ == from_rating_spec(d, data.curves()[d.curve@].spec_value(), bd.rating.spec_value()@)
        &&& (d.id@ != armor ==> sum_parts(seed_parts(l.gear@, data, rows, d.id@)) == Some(bd.from_bonuses.spec_value()@))
        &&& (d.id@ != ms ==> derived.contains_key(d.id@) && derived[d.id@].spec_value()@ == computed_value(d, rows, bd))
        &&& (!reads(d, ms) ==> rating_sum(d.weights@, attrs.spec_value(), derived) == Some(bd.rating.spec_value()@))
    } by {
        let d = defs[i];
        assert(evaluated_as(d, attrs, ev_values, seeded, overrides, data.curves()));
        assert(broken_down_as(d, attrs, ev_values, ev_breakdown, seeded, data.curves()));
        let bd = ev_breakdown[d.id@];
        if d.id@ != armor {
            if !seeded.contains_key(d.id@) {
                assert(seed_parts(l.gear@, data, rows, d.id@).len() == 0);
            }
        }
        lemma_cap_equiv(d, rows, overrides, bd.from_rating.spec_value()@ + bd.from_bonuses.spec_value()@);
        if !reads(d, ms) {
            assert forall|j: int| 0 <= j < d.weights@.len() implies ((#[trigger] d.weights@[j]).0 matches crate::derived::RatingInput::Derived(x) ==> ev_values[x@] == derived[x@]) by {
                if let crate::derived::RatingInput::Derived(x) = d.weights@[j].0 {
                    assert(x@ != ms);
                    assert(ev_values.contains_key(x@));
                }
            }
            lemma_rating_agree(d.weights@, attrs.spec_value(), ev_values, derived);
        }
    }
    assert forall|id: Seq<char>| id != armor && id != ms && plain_seed(defs, id) && (#[trigger] seed_parts(l.gear@, data, rows, id)).len() > 0 implies
        derived.contains_key(id) && sum_parts(seed_parts(l.gear@, data, rows, id)) == Some(derived[id].spec_value()@) by {
        assert(seeded.contains_key(id));
        assert(ev_values.contains_key(id));
    }
    assert forall|i: int| 0 <= i < defs.len() && weighted(#[trigger] defs[i]) && defs[i].id@ == ms implies
        derived.contains_key(ms) && derived[ms].spec_value()@ == with_percent(
            computed_value(defs[i], rows, ev_breakdown[ms]) + sum_parts(gear_move_parts(l.gear@, data) + ability_move_parts(rows))->0,
            sum_parts(ability_move_bonus_parts(rows))->0) by {
        let d = defs[i];
        assert(evaluated_as(d, attrs, ev_values, seeded, overrides, data.curves()));
        assert(broken_down_as(d, attrs, ev_values, ev_breakdown, seeded, data.curves()));
        let bd = ev_breakdown[d.id@];
        if !seeded.contains_key(d.id@) {
            assert(seed_parts(l.gear@, data, rows, d.id@).len() == 0);
        }
        lemma_cap_equiv(d, rows, overrides, bd.from_rating.spec_value()@ + bd.from_bonuses.spec_value()@);
    }
    assert forall|i: int| 0 <= i < defs.len() implies match cap_value(#[trigger] defs[i], rows) {
        Some(c) => caps.contains_key(defs[i].id@) && caps[defs[i].id@]@ == c,
        None => !caps.contains_key(defs[i].id@),
    } by {
        lemma_cap_equiv(defs[i], rows, overrides, 0);
    }
}

/// What stages 4 to 8 produce.
struct Derivation {
    derived: IdMap<DerivedStatId, Confidence<Fixed>>,
    breakdown: IdMap<DerivedStatId, StatBreakdown>,
    armor: ArmorComposition,
    caps: IdMap<DerivedStatId, Fixed>,
    conditional: Vec<ConditionalBonus>,
}

/// Stages 4 to 8: the armour buckets, the seeds, the derived graph, the
/// move speed stages, the defensive chain and the caps in force.
fn derive_stats(
    loadout: &Loadout,
    data: &InMemoryDataset,
    class: &ClassDef,
    attrs: &Confidence<AttributeBlock>,
    effects: &Vec<SourcedEffect>,
    trace: &mut Vec<StageNote>,
) -> (r: Result<Derivation, ResolveError>)
    requires
        data.wf(),
        data.classes().contains_key(loadout.class@),
        *class == data.classes()[loadout.class@],
        crate::derived::distinct_ids(class.derived@),
        gear_known(loadout.gear@, *data),
    ensures
        extends(old(trace)@, final(trace)@),
        match r {
            Ok(dv) => {
                &&& dv.derived.wf() && dv.caps.wf() && dv.breakdown.wf()
                &&& stats_as(loadout.class@, loadout.gear@, *data, rows_of(effects@), *attrs, dv.derived.view(), dv.breakdown.view(), dv.armor, dv.caps.view(), dv.conditional@)
                &&& grades_as(loadout.class@, loadout.gear@, *data, rows_of(effects@), *attrs, dv.derived.view(), dv.breakdown.view(), dv.armor)
                &&& forall|st: u8| 4 <= st <= 8 ==> #[trigger] has_stage(final(trace)@, st)
            },
            Err(e) => e is Derived || e is OutOfRange,
        },
        r matches Err(ResolveError::Derived(_)) ==> armor_fits(*loadout, *data, rows_of(effects@)) && seeds_fit(*loadout, *data, rows_of(effects@)),
        r matches Err(ResolveError::Derived(de)) ==> exists|seeded: Map<Seq<char>, Confidence<Fixed>>, caps: Map<Seq<char>, Fixed>|
            seeds_as(seeded, *loadout, *data, rows_of(effects@)) && caps_as(caps, rows_of(effects@))
            && #[trigger] derived_error_explained(class.derived@, *attrs, seeded, caps, data.curves(), de),
        r matches Err(ResolveError::OutOfRange) ==> !armor_fits(*loadout, *data, rows_of(effects@))
            || !seeds_fit(*loadout, *data, rows_of(effects@)) || !move_fits(*loadout, *data, rows_of(effects@))
            || exists|seeded: Map<Seq<char>, Confidence<Fixed>>, caps: Map<Seq<char>, Fixed>, m: Map<Seq<char>, Confidence<Fixed>>|
                seeds_as(seeded, *loadout, *data, rows_of(effects@)) && caps_as(caps, rows_of(effects@))
                && #[trigger] evaluation_as(class.derived@, *attrs, seeded, caps, data.curves(), m)
                && m.contains_key(well_known::move_speed())
                && !move_value_fits(m[well_known::move_speed()].spec_value()@, *loadout, *data, rows_of(effects@)),
{
    let ghost t0 = trace@;
    proof { lemma_extends_refl(trace@); }
    let gear = &loadout.gear;
    let armor_key = well_known::ARMOR_RATING;
    // Two buckets, kept apart on purpose: an Item Armor Rating Bonus
    // multiplies armour that came from the pieces themselves and nothing
    // else.
    let mut item_list: Vec<Confidence<Fixed>> = Vec::new();
    push_grant_parts(gear, data, armor_key, &mut item_list);
    let mut other_list: Vec<Confidence<Fixed>> = Vec::new();
    push_gear_roll_parts(gear, armor_key, &mut other_list);
    push_ability_parts(effects, armor_key, &mut other_list);
    let bonus_list = armor_bonus_list(effects);
    proof {
        assert(graded_seq(Seq::<Confidence<Fixed>>::empty()) =~= Seq::<(int, ConfidenceLevel)>::empty());
        assert(graded_seq(item_list@) =~= item_grant_parts(gear@, *data, well_known::armor_rating()));
        assert(graded_seq(other_list@) =~= other_armor_parts(gear@, rows_of(effects@)));
    }
    let item_ar = match fold_sum(&item_list) {
        Some(v) => v,
        None => return Err(ResolveError::OutOfRange),
    };
    let other_ar = match fold_sum(&other_list) {
        Some(v) => v,
        None => return Err(ResolveError::OutOfRange),
    };
    let item_bonus = match fold_sum(&bonus_list) {
        Some(v) => v,
        None => return Err(ResolveError::OutOfRange),
    };
    // The multiplier's base is the item bucket and nothing else.
    let factor = match crate::stats::percent_scale().checked_plus(*item_bonus.value()) {
        Some(v) => v,
        None => return Err(ResolveError::OutOfRange),
    };
    let scaled = match item_ar.value().checked_mul_div_half_even(factor, crate::stats::percent_scale()) {
        Some(v) => v,
        None => return Err(ResolveError::OutOfRange),
    };
    let armor_total = match scaled.checked_plus(*other_ar.value()) {
        Some(v) => v,
        None => return Err(ResolveError::OutOfRange),
    };
    let armor_rating = item_ar.join(&item_bonus, ()).join(&other_ar, armor_total);
    let cap_overrides = raised_caps(effects);
    let conditional = gated_bonuses(effects);
    let ids = seed_ids(gear, data, effects);
    let seeded = match build_seeds(&ids, gear, data, effects, armor_rating.copied()) {
        Ok(m) => m,
        Err(e) => {
            proof {
                let id = choose|id: Seq<char>| id != well_known::armor_rating() && sum_parts(seed_parts(gear@, *data, rows_of(effects@), id)) is None;
                assert(!seeds_fit(*loadout, *data, rows_of(effects@)));
            }
            return Err(e);
        },
    };
    let ghost seeded_view = seeded.view();

    // Ratings read the attribute sum AFTER stage 3.
    let evaluated = match evaluate_all(&class.derived, attrs, seeded, &cap_overrides, data.curve_table()) {
        Ok(ev) => ev,
        Err(e) => {
            proof {
                assert(seeds_as(seeded_view, *loadout, *data, rows_of(effects@)));
                assert(caps_as(cap_overrides.view(), rows_of(effects@)));
                assert(armor_fits(*loadout, *data, rows_of(effects@)));
                assert forall|id: Seq<char>| id != well_known::armor_rating() implies
                    #[trigger] sum_parts(seed_parts(gear@, *data, rows_of(effects@), id)) is Some by {
                    if !seeded_view.contains_key(id) {
                        assert(seed_parts(gear@, *data, rows_of(effects@), id).len() == 0);
                    }
                }
                assert(seeds_fit(*loadout, *data, rows_of(effects@)));
                assert(derived_error_explained(class.derived@, *attrs, seeded_view, cap_overrides.view(), data.curves(), e));
            }
            return Err(ResolveError::Derived(e));
        },
    };
    let Evaluated { values: mut derived, breakdown } = evaluated;
    let ghost ev_values = derived.view();
    let rd = render_derived(&derived);
    push_note(trace, note(4, "ratings → derived stats", rd));
    let ghost k4 = trace@.len() - 1;
    proof { lemma_extends_push(t0, t0, trace@.last()); }

    // ── Stage 5: flat adds ──────────────────────────────────────────────
    let adds = move_parts(gear, data, effects);
    let flat_adds = match fold_sum(&adds) {
        Some(v) => v,
        None => return Err(ResolveError::OutOfRange),
    };
    let ms_key = well_known::MOVE_SPEED;
    let pct_list = move_bonus_list(effects);
    let bonus_sum = match fold_sum(&pct_list) {
        Some(v) => v,
        None => return Err(ResolveError::OutOfRange),
    };
    let mut d5: Vec<char> = Vec::new();
    let mut d6: Vec<char> = Vec::new();
    match derived.get(ms_key) {
        Some(ms) => {
            let sum = match ms.value().checked_plus(*flat_adds.value()) {
                Some(v) => v,
                None => {
                    proof {
                        assert(seeds_as(seeded_view, *loadout, *data, rows_of(effects@)));
                        assert(caps_as(cap_overrides.view(), rows_of(effects@)));
                        assert(evaluation_as(class.derived@, *attrs, seeded_view, cap_overrides.view(), data.curves(), ev_values));
                        assert(ev_values.contains_key(well_known::move_speed()));
                    }
                    return Err(ResolveError::OutOfRange);
                },
            };
            let after_flat = ms.join(&flat_adds, sum);
            append_chars(&mut d5, "move speed ");
            let t = flat_adds.value().to_string_signed();
            append_chars(&mut d5, t.as_str());
            append_chars(&mut d5, " → ");
            let t = after_flat.value().to_string();
            append_chars(&mut d5, t.as_str());
            // percent points: ms × (100 + Σ) / 100, one rounding.
            let hundred_pct = crate::stats::percent_scale();
            let pct_factor = match hundred_pct.checked_plus(*bonus_sum.value()) {
                Some(v) => v,
                None => {
                    proof {
                        assert(seeds_as(seeded_view, *loadout, *data, rows_of(effects@)));
                        assert(caps_as(cap_overrides.view(), rows_of(effects@)));
                        assert(evaluation_as(class.derived@, *attrs, seeded_view, cap_overrides.view(), data.curves(), ev_values));
                        assert(ev_values.contains_key(well_known::move_speed()));
                    }
                    return Err(ResolveError::OutOfRange);
                },
            };
            let v = match after_flat.value().checked_mul_div_half_even(pct_factor, hundred_pct) {
                Some(v) => v,
                None => {
                    proof {
                        assert(seeds_as(seeded_view, *loadout, *data, rows_of(effects@)));
                        assert(caps_as(cap_overrides.view(), rows_of(effects@)));
                        assert(evaluation_as(class.derived@, *attrs, seeded_view, cap_overrides.view(), data.curves(), ev_values));
                        assert(ev_values.contains_key(well_known::move_speed()));
                    }
                    return Err(ResolveError::OutOfRange);
                },
            };
            let adjusted = after_flat.join(&bonus_sum, v);
            append_chars(&mut d6, "move speed ×(100");
            let t = bonus_sum.value().to_string_signed();
            append_chars(&mut d6, t.as_str());
            append_chars(&mut d6, ")% → ");
            let t = adjusted.value().to_string();
            append_chars(&mut d6, t.as_str());
            derived.insert(DerivedStatId::new(ms_key), adjusted);
        },
        None => {
            append_chars(&mut d5, "no move speed stat defined; nothing to adjust");
            append_chars(&mut d6, "no move speed stat defined; nothing to adjust");
        },
    }
    push_note(trace, note(5, "flat adds", string_of(&d5)));
    let ghost k5 = trace@.len() - 1;
    push_note(trace, note(6, "percentage bonuses", string_of(&d6)));
    let ghost k6 = trace@.len() - 1;

    // ── Stage 7: defensive chain (evaluated at 4b, reported here) ───────
    let pdr_key = well_known::PDR;
    let mut d: Vec<char> = Vec::new();
    append_chars(&mut d, "armor rating ");
    let t = armor_rating.value().to_string();
    append_chars(&mut d, t.as_str());
    match derived.get(pdr_key) {
        Some(pdr) => {
            append_chars(&mut d, " = item ");
            let t = item_ar.value().to_string();
            append_chars(&mut d, t.as_str());
            append_chars(&mut d, " ×(100");
            let t = item_bonus.value().to_string_signed();
            append_chars(&mut d, t.as_str());
            append_chars(&mut d, ")% + other ");
            let t = other_ar.value().to_string();
            append_chars(&mut d, t.as_str());
            append_chars(&mut d, " → PDR ");
            let t = pdr.value().to_string();
            append_chars(&mut d, t.as_str());
            if let Some(cap) = cap_overrides.get(pdr_key) {
                append_chars(&mut d, " (cap raised to ");
                let t = cap.to_string();
                append_chars(&mut d, t.as_str());
                append_chars(&mut d, ")");
            }
        },
        None => append_chars(&mut d, "; no PDR stat defined"),
    }
    push_note(trace, note(7, "defensive chain", string_of(&d)));
    let ghost k7 = trace@.len() - 1;

    // ── Stage 8: situational mods stay separate ─────────────────────────
    push_note(trace, note(8, "situational mods", owned("kept separate: PDR Mod, healing mods and debuff durations are exchange-layer")));
    let ghost k8 = trace@.len() - 1;

    // The cap in force is the definition's own, unless a perk raised it.
    let caps = caps_in_force(&class.derived, &cap_overrides);
    let armor = ArmorComposition { item: item_ar, bonus: item_bonus, other: other_ar };
    proof {
        assert(trace@[k4].stage == 4 && trace@[k5].stage == 5 && trace@[k6].stage == 6 && trace@[k7].stage == 7 && trace@[k8].stage == 8);
        assert forall|st: u8| 4 <= st <= 8 implies #[trigger] has_stage(trace@, st) by {
            if st == 4 { assert(trace@[k4].stage == st); }
            else if st == 5 { assert(trace@[k5].stage == st); }
            else if st == 6 { assert(trace@[k6].stage == st); }
            else if st == 7 { assert(trace@[k7].stage == st); }
            else { assert(trace@[k8].stage == st); }
        }
        assert(extends(t0, trace@)) by {
            assert(trace@.subrange(0, t0.len() as int) =~= t0);
        }
        let ms = well_known::move_speed();
        if ev_values.contains_key(ms) {
            assert(derived.view() =~= ev_values.insert(ms, derived.view()[ms]));
        }
        lemma_stats(*loadout, *data, rows_of(effects@), *attrs, armor, armor_rating, ids.view(), seeded_view, cap_overrides.view(),
            ev_values, breakdown.view(), derived.view(), flat_adds.spec_value()@, bonus_sum.spec_value()@, caps.view(), conditional@);
        lemma_grades(*loadout, *data, rows_of(effects@), *attrs, armor, armor_rating, seeded_view,
            ev_values, breakdown.view(), derived.view(), flat_adds.spec_value()@, bonus_sum.spec_value()@,
            flat_adds.spec_level(), bonus_sum.spec_level());
    }
    Ok(Derivation { derived, breakdown, armor, caps, conditional })
}

/// The class's derived graph is sound under the seeds this loadout makes:
/// weights or seeds throughout, every named input defined or seeded, every
/// curve known, and a ranking of the dependencies.
pub open spec fn graph_sound(l: Loadout, data: InMemoryDataset) -> bool {
    let defs = data.classes()[l.class@].derived@;
    let rows = collected(l, data)->0;
    forall|seeded: Map<Seq<char>, Confidence<Fixed>>| #[trigger] seeds_as(seeded, l, data, rows) ==>
        no_weight_gaps(defs, seeded) && inputs_known(defs, seeded) && curves_known(defs, data.curves())
        && exists|rank: spec_fn(Seq<char>) -> nat| #[trigger] ranked(defs, seeded, rank)
}

/// With a known class, every piece in order, every ability collected, no
/// stage's sum leaving the range and a sound derived graph, the only error
/// left is a derived stat's own arithmetic leaving the range.
proof fn lemma_errors_excluded(l: Loadout, data: InMemoryDataset, e: ResolveError)
    requires
        data.wf(),
        error_explained(l, data, e),
        data.classes().contains_key(l.class@),
        gear_ok(l.gear@, data, l.class@),
        collected(l, data) is Some,
        !sums_overflow(l, data),
        graph_sound(l, data),
    ensures
        e matches ResolveError::Derived(DerivedError::OutOfRange(_)),
{
    match e {
        ResolveError::UnknownItem(id) => {
            let i = choose|i: int| 0 <= i < l.gear@.len() && (#[trigger] l.gear@[i]).id@ == id@ && !data.items().contains_key(id@);
        },
        ResolveError::WrongClass { item, allowed } => {
            let i = choose|i: int| 0 <= i < l.gear@.len() && (#[trigger] l.gear@[i]).id@ == item@
                && data.items().contains_key(item@) && !admits(data.items()[item@].required_classes@, l.class@);
        },
        ResolveError::WrongSlot { item, worn, belongs } => {
            let i = choose|i: int| 0 <= i < l.gear@.len() && (#[trigger] l.gear@[i]).id@ == item@
                && l.gear@[i].slot == worn && data.items().contains_key(item@) && data.items()[item@].slot == Some(belongs) && belongs != worn;
        },
        ResolveError::Derived(de) => {
            let rows = collected(l, data)->0;
            let (a, seeded, caps) = choose|a: Confidence<AttributeBlock>, seeded: Map<Seq<char>, Confidence<Fixed>>, caps: Map<Seq<char>, Fixed>|
                final_attributes_as(a, l, data, rows) && seeds_as(seeded, l, data, rows) && caps_as(caps, rows)
                && #[trigger] derived_error_explained(data.classes()[l.class@].derived@, a, seeded, caps, data.curves(), de);
            assert(seeds_as(seeded, l, data, rows));
            data.lemma_class_ids_distinct(l.class@);
            crate::derived::law_sound_graph_fails_only_by_range(data.classes()[l.class@].derived@, a, seeded, caps, data.curves(), de);
        },
        _ => {},
    }
}

/// Resolves a loadout against a dataset, in the locked stage order.
pub fn resolve(loadout: &Loadout, data: &InMemoryDataset) -> (r: Result<Resolved, ResolveError>)
    requires
        data.wf(),
        loadout.stacks.wf(),
    ensures
        !data.classes().contains_key(loadout.class@) <==> r matches Err(ResolveError::UnknownClass(_)),
        match r {
            Ok(res) => resolved_as(*loadout, *data, res),
            Err(e) => error_explained(*loadout, *data, e),
        },
        data.classes().contains_key(loadout.class@) && gear_ok(loadout.gear@, *data, loadout.class@) && collected(*loadout, *data) is Some
            && !sums_overflow(*loadout, *data) && graph_sound(*loadout, *data)
            ==> r is Ok || r matches Err(ResolveError::Derived(DerivedError::OutOfRange(_))),
{
    let r = run_stages(loadout, data);
    proof {
        if r is Err && data.classes().contains_key(loadout.class@) && gear_ok(loadout.gear@, *data, loadout.class@)
            && collected(*loadout, *data) is Some && !sums_overflow(*loadout, *data) && graph_sound(*loadout, *data) {
            lemma_errors_excluded(*loadout, *data, r->Err_0);
        }
    }
    r
}

/// The eight stages, in order.
fn run_stages(loadout: &Loadout, data: &InMemoryDataset) -> (r: Result<Resolved, ResolveError>)
    requires
        data.wf(),
        loadout.stacks.wf(),
    ensures
        !data.classes().contains_key(loadout.class@) <==> r matches Err(ResolveError::UnknownClass(_)),
        match r {
            Ok(res) => resolved_as(*loadout, *data, res),
            Err(e) => error_explained(*loadout, *data, e),
        },
{
    let mut trace: Vec<StageNote> = Vec::new();
    let class = match data.class(&loadout.class) {
        Some(c) => c,
        None => return Err(ResolveError::UnknownClass(loadout.class.clone())),
    };

    // ── Stage 1: class base attributes ──────────────────────────────────
    let base = class.base_attributes.with_value(*class.base_attributes.value());
    let mut d: Vec<char> = Vec::new();
    append_chars(&mut d, class.name.as_str());
    append_chars(&mut d, " base block: ");
    let rb = render_block(base.value());
    append_chars(&mut d, rb.as_str());
    push_note(&mut trace, note(1, "class base attributes", string_of(&d)));
    let ghost k1 = trace@.len() - 1;
    let ghost t1 = trace@;

    // ── Stage 2: attributes from gear ───────────────────────────────────
    let after_gear = gear_stage(loadout, data, &base, &mut trace)?;
    proof { lemma_extends_keeps(t1, trace@, k1); }
    let rb = render_block(after_gear.value());
    push_note(&mut trace, note(2, "gear rolls applied", rb));
    let ghost k2 = trace@.len() - 1;

    // ── Stage 3: attributes from perks/skills/party ─────────────────────
    let collected_effects = collect_effects(loadout, data)?;
    let effects = &collected_effects.effects;
    let ignored = &collected_effects.ignored;
    let ghost names = ignored@.map_values(|n: String| n@);
    let mut d: Vec<char> = Vec::new();
    if ignored.len() == 0 {
        append_chars(&mut d, "none: every ability in the loadout is distinct");
    } else {
        append_chars(&mut d, "already in force, so contributed nothing: ");
        let ghost lead = d@;
        let mut i: usize = 0;
        while i < ignored.len()
            invariant
                i <= ignored@.len(),
                names == ignored@.map_values(|n: String| n@),
                d@ == lead + comma_joined(names.subrange(0, i as int)),
            decreases ignored@.len() - i,
        {
            proof {
                let cur = names.subrange(0, i + 1);
                assert(cur.drop_last() =~= names.subrange(0, i as int));
                assert(cur.last() == ignored@[i as int]@);
            }
            if i > 0 {
                append_chars(&mut d, ", ");
            }
            append_chars(&mut d, ignored[i].as_str());
            proof {
                let cur = names.subrange(0, i + 1);
                if i == 0 {
                    assert(comma_joined(names.subrange(0, 0)) =~= Seq::<char>::empty());
                }
                assert(d@ =~= lead + comma_joined(cur));
            }
            i = i + 1;
        }
        proof {
            assert(names.subrange(0, names.len() as int) =~= names);
        }
    }
    let dtext = string_of(&d);
    proof {
        assert(dtext@ == duplicates_text(ignored_names(*loadout, *data)));
    }
    push_note(&mut trace, note(3, "duplicate abilities", dtext));
    let ghost k3 = trace@.len() - 1;
    let ghost t3 = trace@;
    let attributes_final = effect_attributes(&after_gear, effects, &mut trace)?;
    proof {
        lemma_extends_keeps(t3, trace@, k1);
        lemma_extends_keeps(t3, trace@, k2);
        lemma_extends_keeps(t3, trace@, k3);
    }
    let rb = render_block(attributes_final.value());
    push_note(&mut trace, note(3, "attribute sum final", rb));
    let ghost t3b = trace@;

    // ── Stages 4 to 8 ───────────────────────────────────────────────────
    let dv = match derive_stats(loadout, data, class, &attributes_final, effects, &mut trace) {
        Ok(dv) => dv,
        Err(e) => return Err(e),
    };
    proof {
        lemma_extends_keeps(t3b, trace@, k1);
        lemma_extends_keeps(t3b, trace@, k2);
        lemma_extends_keeps(t3b, trace@, k3);
        assert forall|st: u8| 1 <= st <= 8 implies #[trigger] has_stage(trace@, st) by {
            if st == 1 { assert(trace@[k1].stage == st); }
            else if st == 2 { assert(trace@[k2].stage == st); }
            else if st == 3 { assert(trace@[k3].stage == st); }
        }
        reveal_strlit("duplicate abilities");
        assert(trace@[k3].label@ == "duplicate abilities"@);
        assert(duplicates_noted(trace@, ignored_names(*loadout, *data)));
    }
    let Derivation { derived, breakdown, armor, caps, conditional } = dv;
    Ok(Resolved {
        class: loadout.class.clone(),
        build: owned(data.build()),
        attributes: attributes_final,
        derived,
        caps,
        breakdown,
        armor,
        conditional,
        trace,
    })
}


/// **Percentage move-speed bonuses all count.** The stage-6 percentage
/// terms are exactly the abilities' move-speed bonus rows: every such row
/// gives a term with its value and grade, every term comes from such a
/// row, and a bonus row added at the end adds its value to the sum.
pub proof fn law_move_speed_bonuses_all_count(
    rows: Seq<(EffectView, ConfidenceLevel, Option<DamageTag>)>,
    v: int,
    l: ConfidenceLevel,
    tag: Option<DamageTag>,
)
    ensures
        forall|i: int| 0 <= i < rows.len() && (#[trigger] rows[i]).0 is MoveSpeedBonus ==>
            ability_move_bonus_parts(rows).contains((rows[i].0->MoveSpeedBonus_0, rows[i].1)),
        forall|p: (int, ConfidenceLevel)| #[trigger] ability_move_bonus_parts(rows).contains(p) ==>
            exists|i: int| 0 <= i < rows.len() && (#[trigger] rows[i]).0 == EffectView::MoveSpeedBonus(p.0) && rows[i].1 == p.1,
        ability_move_bonus_parts(rows.push((EffectView::MoveSpeedBonus(v), l, tag))) == ability_move_bonus_parts(rows).push((v, l)),
        sum_parts(ability_move_bonus_parts(rows)) is Some && in_micro_range(sum_parts(ability_move_bonus_parts(rows))->0 + v) ==>
            sum_parts(ability_move_bonus_parts(rows.push((EffectView::MoveSpeedBonus(v), l, tag))))
                == Some(sum_parts(ability_move_bonus_parts(rows))->0 + v),
    decreases rows.len(),
{
    let r2 = rows.push((EffectView::MoveSpeedBonus(v), l, tag));
    assert(r2.drop_last() =~= rows);
    let parts = ability_move_bonus_parts(rows);
    assert(ability_move_bonus_parts(r2) =~= parts.push((v, l)));
    assert(parts.push((v, l)).drop_last() =~= parts);
    if rows.len() > 0 {
        let p = rows.drop_last();
        law_move_speed_bonuses_all_count(p, v, l, tag);
        let pp = ability_move_bonus_parts(p);
        let tail: Seq<(int, ConfidenceLevel)> = match rows.last().0 {
            EffectView::MoveSpeedBonus(w) => seq![(w, rows.last().1)],
            _ => Seq::empty(),
        };
        assert(parts == pp + tail);
        assert forall|i: int| 0 <= i < rows.len() && (#[trigger] rows[i]).0 is MoveSpeedBonus implies
            parts.contains((rows[i].0->MoveSpeedBonus_0, rows[i].1)) by {
            if i < rows.len() - 1 {
                assert(p[i] == rows[i]);
                let j = choose|j: int| 0 <= j < pp.len() && pp[j] == (p[i].0->MoveSpeedBonus_0, p[i].1);
                assert(parts[j] == pp[j]);
            } else {
                assert(parts[pp.len() as int] == (rows[i].0->MoveSpeedBonus_0, rows[i].1));
            }
        }
        assert forall|q: (int, ConfidenceLevel)| #[trigger] parts.contains(q) implies
            exists|i: int| 0 <= i < rows.len() && (#[trigger] rows[i]).0 == EffectView::MoveSpeedBonus(q.0) && rows[i].1 == q.1 by {
            let j = choose|j: int| 0 <= j < parts.len() && parts[j] == q;
            if j < pp.len() {
                assert(pp.contains(q));
                let i = choose|i: int| 0 <= i < p.len() && (#[trigger] p[i]).0 == EffectView::MoveSpeedBonus(q.0) && p[i].1 == q.1;
                assert(rows[i] == p[i]);
            } else {
                assert(rows[rows.len() - 1].0 == EffectView::MoveSpeedBonus(q.0));
            }
        }
    } else {
        assert(parts =~= Seq::<(int, ConfidenceLevel)>::empty());
    }
}

/// **A percentage bonus raises move speed.** A positive bonus on a
/// positive move speed, large enough to move it by a micro-unit, strictly
/// raises it; a larger bonus never lowers it.
pub proof fn law_a_move_speed_bonus_raises_it(ms: int, pct: int, more: int)
    requires
        ms > 0,
        pct <= more,
    ensures
        ms * pct >= hundred() ==> with_percent(ms, pct) > ms,
        with_percent(ms, pct) <= with_percent(ms, more),
{
    assert(ms * (hundred() + pct) <= ms * (hundred() + more)) by (nonlinear_arith) requires ms > 0, pct <= more;
    crate::fixed::law_mul_div_is_monotone(ms, hundred() + pct, ms, hundred() + more, hundred());
    if ms * pct >= hundred() {
        let n = ms * (hundred() + pct);
        let k = ms + 1;
        assert(n >= k * hundred()) by (nonlinear_arith) requires n == ms * (hundred() + pct), ms * pct >= hundred(), k == ms + 1;
        crate::fixed::law_rounding_is_monotone(k * hundred(), n, hundred());
        vstd::arithmetic::div_mod::lemma_fundamental_div_mod(k * hundred(), hundred());
        vstd::arithmetic::div_mod::lemma_div_multiples_vanish(k, hundred());
        vstd::arithmetic::div_mod::lemma_mod_multiples_basic(k, hundred());
        assert(k * hundred() == hundred() * k) by (nonlinear_arith);
        assert(crate::fixed::round_half_even(k * hundred(), hundred()) == k);
    }
}

/// **Every ability bonus lands in its own sum.** A row added at the end of
/// the collected effects adds its value and grade to the one sum its kind
/// feeds, and to no other: a flat move-speed add to the stage-5 adds, an
/// Item Armor Rating Bonus to the armour multiplier, an unconditional stat
/// bonus to that stat's seed.
pub proof fn law_each_bonus_feeds_its_own_sum(
    rows: Seq<(EffectView, ConfidenceLevel, Option<DamageTag>)>,
    e: EffectView,
    l: ConfidenceLevel,
    tag: Option<DamageTag>,
    id: Seq<char>,
)
    ensures
        ability_move_parts(rows.push((e, l, tag))) == ability_move_parts(rows) + match e {
            EffectView::MoveSpeedAdd(v) => seq![(v, l)],
            _ => Seq::empty(),
        },
        ability_move_bonus_parts(rows.push((e, l, tag))) == ability_move_bonus_parts(rows) + match e {
            EffectView::MoveSpeedBonus(v) => seq![(v, l)],
            _ => Seq::empty(),
        },
        armor_bonus_parts(rows.push((e, l, tag))) == armor_bonus_parts(rows) + match e {
            EffectView::ItemArmorBonus(v) => seq![(v, l)],
            _ => Seq::empty(),
        },
        ability_bonus_parts(rows.push((e, l, tag)), id) == ability_bonus_parts(rows, id) + match e {
            EffectView::DerivedBonus(sid, v) => if sid == id && tag is None { seq![(v, l)] } else { Seq::empty() },
            _ => Seq::empty(),
        },
{
    let r2 = rows.push((e, l, tag));
    assert(r2.drop_last() =~= rows);
    assert(r2.last() == (e, l, tag));
}
} // verus!
