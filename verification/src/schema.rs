//! Schema types for versioned datasets.
//!
//! The loader hands owned structures in; this module defines what those
//! structures are. Everything the resolver needs from the outside world
//! passes through an [`InMemoryDataset`]; the resolver does not know that
//! files exist.

use vstd::prelude::*;

use crate::confidence::Confidence;
use crate::curve::Curve;
use crate::derived::DerivedStatDef;
use crate::fixed::{Fixed, SCALE, in_micro_range};
use crate::ids::{ClassId, CurveId, DerivedStatId, ItemId, PerkId, SkillId};
use crate::loadout::Slot;
use crate::stats::{Attribute, DamageTag, Rarity};
use crate::table::IdMap;
use crate::text::owned;

verus! {

/// The game's seven character attributes.
#[derive(Copy, Clone, PartialEq, Eq, Structural, PartialOrd, Ord, Debug)]
pub enum AttributeKind {
    /// Physical damage scaling.
    Strength,
    /// Health.
    Vigor,
    /// Action speed and move speed.
    Agility,
    /// Interaction and equip speed.
    Dexterity,
    /// Buff duration and magical resistance scaling.
    Will,
    /// Spell capacity and casting.
    Knowledge,
    /// Interaction range and loot.
    Resourcefulness,
}

/// The stable lowercase name of an attribute.
pub open spec fn attribute_name(k: AttributeKind) -> Seq<char> {
    match k {
        AttributeKind::Strength => "strength"@,
        AttributeKind::Vigor => "vigor"@,
        AttributeKind::Agility => "agility"@,
        AttributeKind::Dexterity => "dexterity"@,
        AttributeKind::Will => "will"@,
        AttributeKind::Knowledge => "knowledge"@,
        AttributeKind::Resourcefulness => "resourcefulness"@,
    }
}

/// Some attribute carries the name.
pub open spec fn names_attribute(name: Seq<char>) -> bool {
    exists|a: AttributeKind| #[trigger] attribute_name(a) == name
}

/// Two attributes never share a name.
pub proof fn lemma_attribute_names_differ(a: AttributeKind, b: AttributeKind)
    ensures
        attribute_name(a) == attribute_name(b) ==> a == b,
{
    reveal_strlit("strength");
    reveal_strlit("vigor");
    reveal_strlit("agility");
    reveal_strlit("dexterity");
    reveal_strlit("will");
    reveal_strlit("knowledge");
    reveal_strlit("resourcefulness");
    if attribute_name(a) == attribute_name(b) {
        assert(attribute_name(a).len() == attribute_name(b).len());
        assert(attribute_name(a)[0] == attribute_name(b)[0]);
    }
}

/// All seven kinds in canonical (declaration) order.
pub open spec fn all_attributes() -> Seq<AttributeKind> {
    seq![
        AttributeKind::Strength, AttributeKind::Vigor, AttributeKind::Agility, AttributeKind::Dexterity,
        AttributeKind::Will, AttributeKind::Knowledge, AttributeKind::Resourcefulness,
    ]
}

/// The position of a kind in declaration order.
pub open spec fn attribute_rank(k: AttributeKind) -> int {
    match k {
        AttributeKind::Strength => 0,
        AttributeKind::Vigor => 1,
        AttributeKind::Agility => 2,
        AttributeKind::Dexterity => 3,
        AttributeKind::Will => 4,
        AttributeKind::Knowledge => 5,
        AttributeKind::Resourcefulness => 6,
    }
}

impl AttributeKind {
    /// All seven kinds in canonical (declaration) order.
    pub fn all() -> (r: [AttributeKind; 7])
        ensures
            r@ == all_attributes(),
    {
        let r = [
            AttributeKind::Strength, AttributeKind::Vigor, AttributeKind::Agility, AttributeKind::Dexterity,
            AttributeKind::Will, AttributeKind::Knowledge, AttributeKind::Resourcefulness,
        ];
        assert(r@ =~= all_attributes());
        r
    }

    /// Stable lowercase name, used in canonical encodings and datasets.
    pub fn as_str(self) -> (r: &'static str)
        ensures
            r@ == attribute_name(self),
    {
        match self {
            AttributeKind::Strength => "strength",
            AttributeKind::Vigor => "vigor",
            AttributeKind::Agility => "agility",
            AttributeKind::Dexterity => "dexterity",
            AttributeKind::Will => "will",
            AttributeKind::Knowledge => "knowledge",
            AttributeKind::Resourcefulness => "resourcefulness",
        }
    }

    /// The kind a file's text names; unknown names are refused.
    pub fn parse(name: &str) -> (r: Option<AttributeKind>)
        ensures
            r matches Some(k) ==> attribute_name(k) == name@,
            r is None ==> forall|k: AttributeKind| attribute_name(k) != name@,
    {
        let all = AttributeKind::all();
        let mut i: usize = 0;
        while i < 7
            invariant
                i <= 7,
                all@ == all_attributes(),
                forall|j: int| 0 <= j < i ==> attribute_name(#[trigger] all_attributes()[j]) != name@,
            decreases 7 - i,
        {
            if crate::text::str_eq(all[i].as_str(), name) {
                return Some(all[i]);
            }
            i = i + 1;
        }
        proof {
            assert forall|k: AttributeKind| attribute_name(k) != name@ by {
                assert(all_attributes()[attribute_rank(k)] == k);
            }
        }
        None
    }
}

/// One value per attribute. The block is the unit the pipeline sums before
/// any curve lookup.
#[derive(Copy, Clone, PartialEq, Eq, Structural, Debug)]
pub struct AttributeBlock {
    /// Physical damage scaling.
    pub strength: Attribute,
    /// Health.
    pub vigor: Attribute,
    /// Action speed and move speed.
    pub agility: Attribute,
    /// Interaction and equip speed.
    pub dexterity: Attribute,
    /// Buff duration and magical resistance scaling.
    pub will: Attribute,
    /// Spell capacity and casting.
    pub knowledge: Attribute,
    /// Interaction range and loot.
    pub resourcefulness: Attribute,
}

/// One attribute of a block, as a whole number.
pub open spec fn block_get(b: AttributeBlock, k: AttributeKind) -> int {
    match k {
        AttributeKind::Strength => b.strength@,
        AttributeKind::Vigor => b.vigor@,
        AttributeKind::Agility => b.agility@,
        AttributeKind::Dexterity => b.dexterity@,
        AttributeKind::Will => b.will@,
        AttributeKind::Knowledge => b.knowledge@,
        AttributeKind::Resourcefulness => b.resourcefulness@,
    }
}

/// Whether adding `points` to attribute `k` stays in the `i32` range.
pub open spec fn can_add(b: AttributeBlock, k: AttributeKind, points: int) -> bool {
    i32::MIN <= block_get(b, k) + points <= i32::MAX
}

/// Whether adding `points` to every attribute stays in range.
pub open spec fn can_add_all(b: AttributeBlock, points: int) -> bool {
    forall|k: AttributeKind| can_add(b, k, points)
}

impl Default for AttributeBlock {
    /// Every attribute at zero.
    fn default() -> (r: AttributeBlock)
        ensures
            forall|k: AttributeKind| block_get(r, k) == 0,
    {
        AttributeBlock {
            strength: Attribute::new(0),
            vigor: Attribute::new(0),
            agility: Attribute::new(0),
            dexterity: Attribute::new(0),
            will: Attribute::new(0),
            knowledge: Attribute::new(0),
            resourcefulness: Attribute::new(0),
        }
    }
}

impl AttributeBlock {
    /// Reads one attribute by kind.
    pub fn get(&self, kind: AttributeKind) -> (r: Attribute)
        ensures
            r@ == block_get(*self, kind),
    {
        match kind {
            AttributeKind::Strength => self.strength,
            AttributeKind::Vigor => self.vigor,
            AttributeKind::Agility => self.agility,
            AttributeKind::Dexterity => self.dexterity,
            AttributeKind::Will => self.will,
            AttributeKind::Knowledge => self.knowledge,
            AttributeKind::Resourcefulness => self.resourcefulness,
        }
    }

    /// Whether adding `points` to `kind` stays in range.
    pub fn fits_add(&self, kind: AttributeKind, points: i32) -> (r: bool)
        ensures
            r == can_add(*self, kind, points as int),
    {
        let v = self.get(kind).points() as i64 + points as i64;
        i32::MIN as i64 <= v && v <= i32::MAX as i64
    }

    /// Whether adding `points` to every attribute stays in range.
    pub fn fits_add_all(&self, points: i32) -> (r: bool)
        ensures
            r == can_add_all(*self, points as int),
    {
        let all = AttributeKind::all();
        let mut i: usize = 0;
        while i < 7
            invariant
                i <= 7,
                all@ == all_attributes(),
                forall|j: int| 0 <= j < i ==> can_add(*self, #[trigger] all_attributes()[j], points as int),
            decreases 7 - i,
        {
            if !self.fits_add(all[i], points) {
                return false;
            }
            i = i + 1;
        }
        proof {
            assert forall|k: AttributeKind| can_add(*self, k, points as int) by {
                assert(all_attributes()[attribute_rank(k)] == k);
            }
        }
        true
    }

    /// Adds whole points to one attribute; the others are unchanged.
    pub fn add(&mut self, kind: AttributeKind, points: i32)
        requires
            can_add(*old(self), kind, points as int),
        ensures
            block_get(*final(self), kind) == block_get(*old(self), kind) + points,
            forall|k: AttributeKind| k != kind ==> block_get(*final(self), k) == block_get(*old(self), k),
    {
        match kind {
            AttributeKind::Strength => self.strength = self.strength.plus(Attribute::new(points)),
            AttributeKind::Vigor => self.vigor = self.vigor.plus(Attribute::new(points)),
            AttributeKind::Agility => self.agility = self.agility.plus(Attribute::new(points)),
            AttributeKind::Dexterity => self.dexterity = self.dexterity.plus(Attribute::new(points)),
            AttributeKind::Will => self.will = self.will.plus(Attribute::new(points)),
            AttributeKind::Knowledge => self.knowledge = self.knowledge.plus(Attribute::new(points)),
            AttributeKind::Resourcefulness => self.resourcefulness = self.resourcefulness.plus(Attribute::new(points)),
        }
    }

    /// Adds whole points to every attribute (Fortified Ground +3, Jokester
    /// +2).
    pub fn add_all(&mut self, points: i32)
        requires
            can_add_all(*old(self), points as int),
        ensures
            forall|k: AttributeKind| block_get(*final(self), k) == block_get(*old(self), k) + points,
    {
        let all = AttributeKind::all();
        let ghost start = *self;
        let mut i: usize = 0;
        while i < 7
            invariant
                i <= 7,
                all@ == all_attributes(),
                can_add_all(start, points as int),
                forall|j: int| 0 <= j < i ==> block_get(*self, #[trigger] all_attributes()[j]) == block_get(start, all_attributes()[j]) + points,
                forall|j: int| i <= j < 7 ==> block_get(*self, #[trigger] all_attributes()[j]) == block_get(start, all_attributes()[j]),
            decreases 7 - i,
        {
            assert(can_add(start, all_attributes()[i as int], points as int));
            self.add(all[i], points);
            i = i + 1;
        }
        proof {
            assert forall|k: AttributeKind| block_get(*self, k) == block_get(start, k) + points by {
                assert(all_attributes()[attribute_rank(k)] == k);
            }
        }
    }
}

/// What a piece of gear adds to attributes: sparse, an attribute the item
/// does not grant is absent rather than zero.
pub open spec fn delta_total(d: Seq<(AttributeKind, i32)>, k: AttributeKind) -> int
    decreases d.len(),
{
    if d.len() == 0 {
        0
    } else {
        delta_total(d.drop_last(), k) + if d.last().0 == k { d.last().1 as int } else { 0 }
    }
}

/// A playable class: base attributes and the derived stats computed from
/// them. Definitions are referenced per class.
#[derive(Debug)]
pub struct ClassDef {
    /// Stable identity (`class.rogue`).
    pub id: ClassId,
    /// Display name; may change between patches without changing identity.
    pub name: String,
    /// Base attribute block (stage 1).
    pub base_attributes: Confidence<AttributeBlock>,
    /// Derived-stat definitions, evaluated in dependency order at stage 4.
    pub derived: Vec<DerivedStatDef>,
}

/// One swing of a weapon's chain: the kind of blow and its scaling.
#[derive(Debug)]
pub struct ComboHit {
    /// What the swing is: Slash, Pierce or Blunt.
    pub kind: DamageTag,
    /// The swing's scaling coefficient in percentage points.
    pub scaling: Confidence<Fixed>,
}

/// What an item contributes when it is wielded rather than worn. Values are
/// the Rarity I base.
#[derive(Debug)]
pub struct WeaponProfile {
    /// Physical base weapon damage (step 1).
    pub base_damage: Confidence<Fixed>,
    /// Armor penetration in percentage points (step 5).
    pub armor_pen: Confidence<Fixed>,
    /// The weapon's chain of swings, in order: an Arming Sword runs
    /// Slash/Slash/Pierce at 100%/105%/110%. Empty when not recorded.
    pub combo: Vec<ComboHit>,
    /// Seconds between swings at 0% Action Speed, when something has
    /// measured it. Absent means time-to-kill is unavailable and says so.
    pub swing_time: Option<Confidence<Fixed>>,
}

/// How a skill attacks: the parts of the first eight steps that belong to
/// the skill rather than to the weapon or the circumstances. Absence means
/// "as the weapon swings"; Sneak Attack's zero scaling has to be written
/// down, because the zero is the mechanic and not a missing value.
#[derive(Debug)]
pub struct StrikeProfile {
    /// `physical` or `magic`. Absent means physical.
    pub damage_type: Option<String>,
    /// Base damage, if the skill has its own rather than the weapon's.
    pub base: Option<Confidence<Fixed>>,
    /// Scaling coefficient in percentage points (step 2).
    pub scaling: Option<Confidence<Fixed>>,
    /// Flat Buff Weapon Damage (step 4).
    pub flat_bonus: Option<Confidence<Fixed>>,
    /// Penetration, if the skill differs from the weapon (step 5).
    pub penetration: Option<Confidence<Fixed>>,
    /// True damage, which lands after the whole reduction chain (step 8).
    pub true_damage: Option<Confidence<Fixed>>,
}

impl StrikeProfile {
    /// A profile that says nothing: the skill simply swings.
    pub fn empty() -> (r: StrikeProfile)
        ensures
            r.damage_type is None,
            r.base is None,
            r.scaling is None,
            r.flat_bonus is None,
            r.penetration is None,
            r.true_damage is None,
    {
        StrikeProfile { damage_type: None, base: None, scaling: None, flat_bonus: None, penetration: None, true_damage: None }
    }
}

/// Fixed stats granted by an item. Explicit loadout rolls come in on top.
#[derive(Debug)]
pub struct ItemDef {
    /// Stable identity (`item.dark_leather_leggings`).
    pub id: ItemId,
    /// Display name.
    pub name: String,
    /// The rarity of this copy, when recorded.
    pub rarity: Option<Rarity>,
    /// Classes allowed to equip it, if the card restricts it. Empty means
    /// anyone.
    pub required_classes: Vec<ClassId>,
    /// Where the item is worn, when transcribed.
    pub slot: Option<Slot>,
    /// Attributes printed on the item, on every copy of it. Sparse.
    pub attributes: Option<Confidence<Vec<(AttributeKind, i32)>>>,
    /// Derived stats printed on the item — the *item* bucket of stage 7.
    pub grants: IdMap<DerivedStatId, Confidence<Fixed>>,
    /// Flat move speed contribution; negative for armour penalties.
    pub move_speed_add: Option<Confidence<Fixed>>,
    /// Present when the item is a weapon.
    pub weapon: Option<WeaponProfile>,
}

impl ItemDef {
    /// An item with a name and nothing else: no restriction, no slot, no
    /// attributes, no grants, no move speed, not a weapon.
    pub fn plain(id: ItemId, name: &str) -> (r: ItemDef)
        ensures
            r.id@ == id@,
            r.name@ == name@,
            r.rarity is None,
            r.required_classes@.len() == 0,
            r.slot is None,
            r.attributes is None,
            r.grants.wf(),
            r.grants.view() == Map::<Seq<char>, Confidence<Fixed>>::empty(),
            r.move_speed_add is None,
            r.weapon is None,
    {
        ItemDef {
            id,
            name: owned(name),
            rarity: None,
            required_classes: Vec::new(),
            slot: None,
            attributes: None,
            grants: IdMap::new(),
            move_speed_add: None,
            weapon: None,
        }
    }
}

/// One effect of a perk or skill, in the vocabulary the resolver handles.
#[derive(Debug)]
pub enum Effect {
    /// Whole points to every attribute (Jokester +2, Fortified Ground +3).
    AllAttributes(i32),
    /// Whole points to one attribute.
    Attribute(AttributeKind, i32),
    /// Raises a derived stat's cap (Defense Mastery: PDR 60% → 75%).
    RaiseCap(DerivedStatId, Fixed),
    /// A flat contribution to a derived stat's result — the `From Bonuses`
    /// row of the character sheet. Lands after the curve and before the
    /// clamp.
    DerivedBonus(DerivedStatId, Fixed),
    /// Percentage bonus to armour rating from equipped armour pieces
    /// (Defense Mastery: +15%), applied to the item bucket only.
    ItemArmorBonus(Fixed),
    /// Flat move speed (stage 5).
    MoveSpeedAdd(Fixed),
    /// Percentage move speed bonus (stage 6).
    MoveSpeedBonus(Fixed),
}

/// An effect as plain values: ids as their slugs, magnitudes as micro
/// counts.
pub enum EffectView {
    /// Points to every attribute.
    AllAttributes(int),
    /// Points to one attribute.
    Attribute(AttributeKind, int),
    /// A cap raise on a stat.
    RaiseCap(Seq<char>, int),
    /// A bonus to a stat.
    DerivedBonus(Seq<char>, int),
    /// An Item Armor Rating Bonus.
    ItemArmorBonus(int),
    /// Flat move speed.
    MoveSpeedAdd(int),
    /// Percentage move speed.
    MoveSpeedBonus(int),
}

impl View for Effect {
    type V = EffectView;

    open spec fn view(&self) -> EffectView {
        match self {
            Effect::AllAttributes(p) => EffectView::AllAttributes(*p as int),
            Effect::Attribute(k, p) => EffectView::Attribute(*k, *p as int),
            Effect::RaiseCap(id, v) => EffectView::RaiseCap(id@, v@),
            Effect::DerivedBonus(id, v) => EffectView::DerivedBonus(id@, v@),
            Effect::ItemArmorBonus(v) => EffectView::ItemArmorBonus(v@),
            Effect::MoveSpeedAdd(v) => EffectView::MoveSpeedAdd(v@),
            Effect::MoveSpeedBonus(v) => EffectView::MoveSpeedBonus(v@),
        }
    }
}

/// A stack count read as a signed whole number, the way two's complement
/// reads its bits.
pub open spec fn signed_count(stacks: u32) -> int {
    if stacks <= i32::MAX { stacks as int } else { stacks as int - 0x1_0000_0000 }
}

/// `v` saturated to the `i32` range.
pub open spec fn saturate_i32(v: int) -> int {
    if v < i32::MIN { i32::MIN as int } else if v > i32::MAX { i32::MAX as int } else { v }
}

/// Whether scaling an effect by `stacks` keeps every magnitude in range.
pub open spec fn scale_fits(e: EffectView, stacks: u32) -> bool {
    match e {
        EffectView::DerivedBonus(_, v) => in_micro_range(v * stacks),
        EffectView::ItemArmorBonus(v) => in_micro_range(v * stacks),
        EffectView::MoveSpeedAdd(v) => in_micro_range(v * stacks),
        EffectView::MoveSpeedBonus(v) => in_micro_range(v * stacks),
        _ => true,
    }
}

/// An effect at a stack count: a stacking effect's value is per stack, so
/// its magnitude multiplies; a cap raise does not stack.
pub open spec fn scaled_view(e: EffectView, stacks: u32) -> EffectView {
    match e {
        EffectView::AllAttributes(p) => EffectView::AllAttributes(saturate_i32(p * signed_count(stacks))),
        EffectView::Attribute(k, p) => EffectView::Attribute(k, saturate_i32(p * signed_count(stacks))),
        EffectView::RaiseCap(id, v) => EffectView::RaiseCap(id, v),
        EffectView::DerivedBonus(id, v) => EffectView::DerivedBonus(id, v * stacks),
        EffectView::ItemArmorBonus(v) => EffectView::ItemArmorBonus(v * stacks),
        EffectView::MoveSpeedAdd(v) => EffectView::MoveSpeedAdd(v * stacks),
        EffectView::MoveSpeedBonus(v) => EffectView::MoveSpeedBonus(v * stacks),
    }
}

/// `points × stacks`, saturating, with the count read as signed.
fn scale_points(points: i32, stacks: u32) -> (r: i32)
    ensures
        r as int == saturate_i32(points as int * signed_count(stacks)),
{
    let s: i64 = if stacks <= 0x7fff_ffffu32 { stacks as i64 } else { stacks as i64 - 0x1_0000_0000i64 };
    assert(-0x8000_0000 <= s <= 0x7fff_ffff);
    assert(-0x4000_0000_0000_0000 <= points as int * s <= 0x4000_0000_0000_0000) by (nonlinear_arith)
        requires -0x8000_0000 <= s <= 0x7fff_ffff, -0x8000_0000 <= points <= 0x7fff_ffff;
    let v: i64 = points as i64 * s;
    if v < i32::MIN as i64 {
        i32::MIN
    } else if v > i32::MAX as i64 {
        i32::MAX
    } else {
        v as i32
    }
}

/// `value × stacks`, exactly.
fn scale_fixed(value: Fixed, stacks: u32) -> (r: Fixed)
    requires
        in_micro_range(value@ * stacks),
    ensures
        r@ == value@ * stacks,
{
    let count = Fixed::from_int(stacks as i64);
    proof {
        crate::fixed::law_mul_by_one(value);
        assert(value@ * (stacks * SCALE) == (value@ * stacks) * SCALE) by (nonlinear_arith);
        vstd::arithmetic::div_mod::lemma_div_multiples_vanish(value@ * stacks, SCALE as int);
        vstd::arithmetic::div_mod::lemma_mod_multiples_basic(value@ * stacks, SCALE as int);
        assert((value@ * stacks) * SCALE == SCALE * (value@ * stacks)) by (nonlinear_arith);
    }
    value.times(count)
}

impl Effect {
    /// Whether scaling this effect by `stacks` keeps it in range.
    pub fn fits_scale(&self, stacks: u32) -> (r: bool)
        ensures
            r == scale_fits(self@, stacks),
    {
        let v: i128 = match self {
            Effect::DerivedBonus(_, v) => v.micro() as i128,
            Effect::ItemArmorBonus(v) => v.micro() as i128,
            Effect::MoveSpeedAdd(v) => v.micro() as i128,
            Effect::MoveSpeedBonus(v) => v.micro() as i128,
            _ => return true,
        };
        assert(-0x8000_0000_0000_0000_0000_0000 <= v * stacks as int <= 0x8000_0000_0000_0000_0000_0000) by (nonlinear_arith)
            requires -0x8000_0000_0000_0000 <= v <= 0x8000_0000_0000_0000, 0 <= stacks <= 0xffff_ffff;
        let p = v * stacks as i128;
        i64::MIN as i128 <= p && p <= i64::MAX as i128
    }

    /// This effect at `stacks` stacks. A stacking effect's value is per
    /// stack, so the magnitude multiplies; `RaiseCap` is returned unchanged
    /// because a raised ceiling does not stack.
    pub fn scaled(&self, stacks: u32) -> (r: Effect)
        requires
            scale_fits(self@, stacks),
        ensures
            r@ == scaled_view(self@, stacks),
    {
        match self {
            Effect::AllAttributes(points) => Effect::AllAttributes(scale_points(*points, stacks)),
            Effect::Attribute(kind, points) => Effect::Attribute(*kind, scale_points(*points, stacks)),
            Effect::RaiseCap(id, value) => Effect::RaiseCap(id.clone(), *value),
            Effect::DerivedBonus(id, value) => Effect::DerivedBonus(id.clone(), scale_fixed(*value, stacks)),
            Effect::ItemArmorBonus(value) => Effect::ItemArmorBonus(scale_fixed(*value, stacks)),
            Effect::MoveSpeedAdd(value) => Effect::MoveSpeedAdd(scale_fixed(*value, stacks)),
            Effect::MoveSpeedBonus(value) => Effect::MoveSpeedBonus(scale_fixed(*value, stacks)),
        }
    }

    /// Whether stacking this effect is meaningful. A cap raise is a ceiling,
    /// not a quantity.
    pub fn can_stack(&self) -> (r: bool)
        ensures
            r == !(self is RaiseCap),
    {
        !matches!(self, Effect::RaiseCap(_, _))
    }
}

impl Clone for Effect {
    /// The same effect.
    fn clone(&self) -> (r: Self)
        ensures
            r@ == self@,
    {
        match self {
            Effect::AllAttributes(p) => Effect::AllAttributes(*p),
            Effect::Attribute(k, p) => Effect::Attribute(*k, *p),
            Effect::RaiseCap(id, v) => Effect::RaiseCap(id.clone(), *v),
            Effect::DerivedBonus(id, v) => Effect::DerivedBonus(id.clone(), *v),
            Effect::ItemArmorBonus(v) => Effect::ItemArmorBonus(*v),
            Effect::MoveSpeedAdd(v) => Effect::MoveSpeedAdd(*v),
            Effect::MoveSpeedBonus(v) => Effect::MoveSpeedBonus(*v),
        }
    }
}

/// One effect together with whether it stacks and what switches it on.
///
/// A stacking effect's value is **per stack** — Sprint grants 13 move speed
/// *each*, up to three — so the resolved contribution depends on how many
/// stacks are active, a fact about the moment that the loadout states.
#[derive(Debug)]
pub struct StackedEffect {
    /// The effect, with its own confidence grade.
    pub effect: Confidence<Effect>,
    /// Present when the effect stacks, carrying the maximum stack count.
    pub max_stacks: Option<u32>,
    /// Present when the effect only applies to one kind of blow (Blunt
    /// Weapon Mastery): it then waits for a strike of that kind.
    pub when_tag: Option<DamageTag>,
}

impl StackedEffect {
    /// A plain, non-stacking, unconditional effect.
    pub fn once(effect: Confidence<Effect>) -> (r: StackedEffect)
        ensures
            r.effect == effect,
            r.max_stacks is None,
            r.when_tag is None,
    {
        StackedEffect { effect, max_stacks: None, when_tag: None }
    }
}

/// A perk: passive, always on when slotted.
#[derive(Debug)]
pub struct PerkDef {
    /// Stable identity (`perk.rogue.jokester`).
    pub id: PerkId,
    /// Display name.
    pub name: String,
    /// Classes that may slot it; empty means anyone.
    pub required_classes: Vec<ClassId>,
    /// Effects granted while slotted.
    pub effects: Vec<StackedEffect>,
}

/// A skill, as far as resolution cares: its stat effects, and how it
/// attacks if it attacks.
#[derive(Debug)]
pub struct SkillDef {
    /// Stable identity (`skill.fighter.fortified_ground`).
    pub id: SkillId,
    /// Display name.
    pub name: String,
    /// Classes that may slot it; empty means anyone.
    pub required_classes: Vec<ClassId>,
    /// Stat effects while active.
    pub effects: Vec<StackedEffect>,
    /// How it attacks, if it attacks. A buff has none.
    pub strike: Option<StrikeProfile>,
}

/// An in-memory dataset over sorted tables — what the loader produces from
/// a versioned dataset directory, and what tests build by hand.
#[derive(Debug)]
pub struct InMemoryDataset {
    build: String,
    classes: IdMap<ClassId, ClassDef>,
    items: IdMap<ItemId, ItemDef>,
    perks: IdMap<PerkId, PerkDef>,
    skills: IdMap<SkillId, SkillDef>,
    curves: IdMap<CurveId, Confidence<Curve>>,
}

impl InMemoryDataset {
    /// The build id.
    pub closed spec fn build_spec(&self) -> Seq<char> {
        self.build@
    }

    /// The classes, by id.
    pub closed spec fn classes(&self) -> Map<Seq<char>, ClassDef> {
        self.classes.view()
    }

    /// The items, by id.
    pub closed spec fn items(&self) -> Map<Seq<char>, ItemDef> {
        self.items.view()
    }

    /// The perks, by id.
    pub closed spec fn perks(&self) -> Map<Seq<char>, PerkDef> {
        self.perks.view()
    }

    /// The skills, by id.
    pub closed spec fn skills(&self) -> Map<Seq<char>, SkillDef> {
        self.skills.view()
    }

    /// The curves, by id.
    pub closed spec fn curves(&self) -> Map<Seq<char>, Confidence<Curve>> {
        self.curves.view()
    }

    /// The tables are in order and every curve is usable.
    pub closed spec fn wf(&self) -> bool {
        &&& self.classes.wf()
        &&& self.items.wf()
        &&& self.perks.wf()
        &&& self.skills.wf()
        &&& self.curves.wf()
        &&& forall|k: Seq<char>| #[trigger] self.curves.view().contains_key(k) ==> self.curves.view()[k].spec_value().wf()
        &&& forall|k: Seq<char>| #[trigger] self.items.view().contains_key(k) ==> self.items.view()[k].grants.wf()
        &&& forall|k: Seq<char>| #[trigger] self.classes.view().contains_key(k) ==> crate::derived::distinct_ids(self.classes.view()[k].derived@)
    }

    /// A well-formed dataset's curves are well formed.
    pub proof fn lemma_curve_wf(self, k: Seq<char>)
        requires
            self.wf(),
            self.curves().contains_key(k),
        ensures
            self.curves()[k].spec_value().wf(),
    {
    }

    /// A well-formed dataset's classes define each derived stat once.
    pub proof fn lemma_class_ids_distinct(self, k: Seq<char>)
        requires
            self.wf(),
            self.classes().contains_key(k),
        ensures
            crate::derived::distinct_ids(self.classes()[k].derived@),
    {
    }

    /// An empty dataset for the named build.
    pub fn new(build: &str) -> (r: InMemoryDataset)
        ensures
            r.wf(),
            r.build_spec() == build@,
            r.classes() == Map::<Seq<char>, ClassDef>::empty(),
            r.items() == Map::<Seq<char>, ItemDef>::empty(),
            r.perks() == Map::<Seq<char>, PerkDef>::empty(),
            r.skills() == Map::<Seq<char>, SkillDef>::empty(),
            r.curves() == Map::<Seq<char>, Confidence<Curve>>::empty(),
    {
        InMemoryDataset {
            build: owned(build),
            classes: IdMap::new(),
            items: IdMap::new(),
            perks: IdMap::new(),
            skills: IdMap::new(),
            curves: IdMap::new(),
        }
    }

    /// The build id.
    pub fn build(&self) -> (r: &str)
        ensures
            r@ == self.build_spec(),
    {
        self.build.as_str()
    }

    /// Inserts a class definition, replacing any previous one with the id.
    pub fn insert_class(&mut self, def: ClassDef)
        requires
            old(self).wf(),
            crate::derived::distinct_ids(def.derived@),
        ensures
            final(self).wf(),
            final(self).classes() == old(self).classes().insert(def.id@, def),
            final(self).items() == old(self).items(),
            final(self).perks() == old(self).perks(),
            final(self).skills() == old(self).skills(),
            final(self).curves() == old(self).curves(),
            final(self).build_spec() == old(self).build_spec(),
    {
        let id = def.id.clone();
        self.classes.insert(id, def);
    }

    /// Inserts an item definition, replacing any previous one with the id.
    pub fn insert_item(&mut self, def: ItemDef)
        requires
            old(self).wf(),
            def.grants.wf(),
        ensures
            final(self).wf(),
            final(self).items() == old(self).items().insert(def.id@, def),
            final(self).classes() == old(self).classes(),
            final(self).perks() == old(self).perks(),
            final(self).skills() == old(self).skills(),
            final(self).curves() == old(self).curves(),
            final(self).build_spec() == old(self).build_spec(),
    {
        let id = def.id.clone();
        self.items.insert(id, def);
    }

    /// Inserts a perk definition, replacing any previous one with the id.
    pub fn insert_perk(&mut self, def: PerkDef)
        requires
            old(self).wf(),
        ensures
            final(self).wf(),
            final(self).perks() == old(self).perks().insert(def.id@, def),
            final(self).classes() == old(self).classes(),
            final(self).items() == old(self).items(),
            final(self).skills() == old(self).skills(),
            final(self).curves() == old(self).curves(),
            final(self).build_spec() == old(self).build_spec(),
    {
        let id = def.id.clone();
        self.perks.insert(id, def);
    }

    /// Inserts a skill definition, replacing any previous one with the id.
    pub fn insert_skill(&mut self, def: SkillDef)
        requires
            old(self).wf(),
        ensures
            final(self).wf(),
            final(self).skills() == old(self).skills().insert(def.id@, def),
            final(self).classes() == old(self).classes(),
            final(self).items() == old(self).items(),
            final(self).perks() == old(self).perks(),
            final(self).curves() == old(self).curves(),
            final(self).build_spec() == old(self).build_spec(),
    {
        let id = def.id.clone();
        self.skills.insert(id, def);
    }

    /// Inserts a curve with its review-assigned grade.
    pub fn insert_curve(&mut self, id: CurveId, curve: Confidence<Curve>)
        requires
            old(self).wf(),
            curve.spec_value().wf(),
        ensures
            final(self).wf(),
            final(self).curves() == old(self).curves().insert(id@, curve),
            final(self).classes() == old(self).classes(),
            final(self).items() == old(self).items(),
            final(self).perks() == old(self).perks(),
            final(self).skills() == old(self).skills(),
            final(self).build_spec() == old(self).build_spec(),
    {
        self.curves.insert(id, curve);
    }

    /// Looks up a class definition.
    pub fn class(&self, id: &ClassId) -> (r: Option<&ClassDef>)
        requires
            self.wf(),
        ensures
            match r {
                Some(c) => self.classes().contains_key(id@) && *c == self.classes()[id@] && crate::derived::distinct_ids(c.derived@),
                None => !self.classes().contains_key(id@),
            },
    {
        self.classes.get(id.as_str())
    }

    /// Looks up an item definition.
    pub fn item(&self, id: &ItemId) -> (r: Option<&ItemDef>)
        requires
            self.wf(),
        ensures
            match r {
                Some(c) => self.items().contains_key(id@) && *c == self.items()[id@] && c.grants.wf(),
                None => !self.items().contains_key(id@),
            },
    {
        self.items.get(id.as_str())
    }

    /// Looks up a perk definition.
    pub fn perk(&self, id: &PerkId) -> (r: Option<&PerkDef>)
        requires
            self.wf(),
        ensures
            match r {
                Some(c) => self.perks().contains_key(id@) && *c == self.perks()[id@],
                None => !self.perks().contains_key(id@),
            },
    {
        self.perks.get(id.as_str())
    }

    /// Looks up a skill definition.
    pub fn skill(&self, id: &SkillId) -> (r: Option<&SkillDef>)
        requires
            self.wf(),
        ensures
            match r {
                Some(c) => self.skills().contains_key(id@) && *c == self.skills()[id@],
                None => !self.skills().contains_key(id@),
            },
    {
        self.skills.get(id.as_str())
    }

    /// Looks up a curve with the grade its dataset review assigned; every
    /// curve found is usable.
    pub fn curve(&self, id: &CurveId) -> (r: Option<&Confidence<Curve>>)
        requires
            self.wf(),
        ensures
            match r {
                Some(c) => self.curves().contains_key(id@) && *c == self.curves()[id@] && c.spec_value().wf(),
                None => !self.curves().contains_key(id@),
            },
    {
        self.curves.get(id.as_str())
    }

    /// The ids of every class, in order.
    pub fn class_table(&self) -> (r: &IdMap<ClassId, ClassDef>)
        requires
            self.wf(),
        ensures
            r.wf(),
            r.view() == self.classes(),
    {
        &self.classes
    }

    /// The ids of every item, in order.
    pub fn item_table(&self) -> (r: &IdMap<ItemId, ItemDef>)
        requires
            self.wf(),
        ensures
            r.wf(),
            r.view() == self.items(),
    {
        &self.items
    }

    /// The ids of every perk, in order.
    pub fn perk_table(&self) -> (r: &IdMap<PerkId, PerkDef>)
        requires
            self.wf(),
        ensures
            r.wf(),
            r.view() == self.perks(),
    {
        &self.perks
    }

    /// The ids of every skill, in order.
    pub fn skill_table(&self) -> (r: &IdMap<SkillId, SkillDef>)
        requires
            self.wf(),
        ensures
            r.wf(),
            r.view() == self.skills(),
    {
        &self.skills
    }

    /// The ids of every curve, in order.
    pub fn curve_table(&self) -> (r: &IdMap<CurveId, Confidence<Curve>>)
        requires
            self.wf(),
        ensures
            r.wf(),
            r.view() == self.curves(),
            forall|k: Seq<char>| #[trigger] r.view().contains_key(k) ==> r.view()[k].spec_value().wf(),
    {
        &self.curves
    }
}


/// Everything the core needs from a dataset: the build it describes and a
/// lookup for each kind of definition. The core does not know that files
/// exist.
pub trait DatasetSource {
    /// Whether the source can answer lookups.
    spec fn source_wf(&self) -> bool;

    /// The build the source describes.
    spec fn source_build(&self) -> Seq<char>;

    /// The class definitions by id.
    spec fn source_classes(&self) -> Map<Seq<char>, ClassDef>;

    /// The item definitions by id.
    spec fn source_items(&self) -> Map<Seq<char>, ItemDef>;

    /// The perk definitions by id.
    spec fn source_perks(&self) -> Map<Seq<char>, PerkDef>;

    /// The skill definitions by id.
    spec fn source_skills(&self) -> Map<Seq<char>, SkillDef>;

    /// The graded curves by id.
    spec fn source_curves(&self) -> Map<Seq<char>, Confidence<Curve>>;

    /// Which game build this dataset describes.
    fn build(&self) -> (r: &str)
        ensures
            r@ == self.source_build(),
    ;

    /// Looks up a class definition.
    fn class(&self, id: &ClassId) -> (r: Option<&ClassDef>)
        requires
            self.source_wf(),
        ensures
            match r {
                Some(c) => self.source_classes().contains_key(id@) && *c == self.source_classes()[id@],
                None => !self.source_classes().contains_key(id@),
            },
    ;

    /// Looks up an item definition.
    fn item(&self, id: &ItemId) -> (r: Option<&ItemDef>)
        requires
            self.source_wf(),
        ensures
            match r {
                Some(c) => self.source_items().contains_key(id@) && *c == self.source_items()[id@],
                None => !self.source_items().contains_key(id@),
            },
    ;

    /// Looks up a perk definition.
    fn perk(&self, id: &PerkId) -> (r: Option<&PerkDef>)
        requires
            self.source_wf(),
        ensures
            match r {
                Some(c) => self.source_perks().contains_key(id@) && *c == self.source_perks()[id@],
                None => !self.source_perks().contains_key(id@),
            },
    ;

    /// Looks up a skill definition.
    fn skill(&self, id: &SkillId) -> (r: Option<&SkillDef>)
        requires
            self.source_wf(),
        ensures
            match r {
                Some(c) => self.source_skills().contains_key(id@) && *c == self.source_skills()[id@],
                None => !self.source_skills().contains_key(id@),
            },
    ;

    /// Looks up a curve with the grade its dataset review assigned.
    fn curve(&self, id: &CurveId) -> (r: Option<&Confidence<Curve>>)
        requires
            self.source_wf(),
        ensures
            match r {
                Some(c) => self.source_curves().contains_key(id@) && *c == self.source_curves()[id@],
                None => !self.source_curves().contains_key(id@),
            },
    ;
}

impl DatasetSource for InMemoryDataset {
    open spec fn source_wf(&self) -> bool {
        self.wf()
    }

    open spec fn source_build(&self) -> Seq<char> {
        self.build_spec()
    }

    open spec fn source_classes(&self) -> Map<Seq<char>, ClassDef> {
        self.classes()
    }

    open spec fn source_items(&self) -> Map<Seq<char>, ItemDef> {
        self.items()
    }

    open spec fn source_perks(&self) -> Map<Seq<char>, PerkDef> {
        self.perks()
    }

    open spec fn source_skills(&self) -> Map<Seq<char>, SkillDef> {
        self.skills()
    }

    open spec fn source_curves(&self) -> Map<Seq<char>, Confidence<Curve>> {
        self.curves()
    }

    fn build(&self) -> (r: &str) {
        InMemoryDataset::build(self)
    }

    fn class(&self, id: &ClassId) -> (r: Option<&ClassDef>) {
        InMemoryDataset::class(self, id)
    }

    fn item(&self, id: &ItemId) -> (r: Option<&ItemDef>) {
        InMemoryDataset::item(self, id)
    }

    fn perk(&self, id: &PerkId) -> (r: Option<&PerkDef>) {
        InMemoryDataset::perk(self, id)
    }

    fn skill(&self, id: &SkillId) -> (r: Option<&SkillDef>) {
        InMemoryDataset::skill(self, id)
    }

    fn curve(&self, id: &CurveId) -> (r: Option<&Confidence<Curve>>) {
        InMemoryDataset::curve(self, id)
    }
}

} // verus!
