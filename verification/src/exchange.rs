//! The damage application model.
//!
//! Damage is not a method on the attacker or the defender — it is an
//! [`Exchange`]: a pure value over attacker, defender, strike, context and
//! dataset. The step order is locked:
//!
//! ```text
//! 1. base damage from weapon/skill
//! 2. × scaling coefficient        Sneak Attack 0% · Rupture 75% · Caltrops 100%
//! 3. + Physical Power Bonus       Back Attack +30% applies here
//! 4. + flat Buff Weapon Damage    Slayer +5 · Sword Mastery +2
//! 5. − defender's Armor Rating, reduced by attacker's Armor Penetration
//! 6. → PDR from the curve, capped
//! 7. × PDR Mod (multiplicative on the PDR)   Lethal Mark −30%
//! 8. + True Damage (untouched by 5–7)         Dagger Mastery +1
//! 9. × hit location multiplier    headshot / airborne
//! ```
//!
//! Step 2 comes before step 3, so a 0% coefficient (Sneak Attack) is immune
//! to any power adjustment. Step 8 comes after the reduction, so armour
//! never eats true damage. The PDR Mod is a layer on the PDR: Lethal Mark
//! (−30%) against 60% PDR gives an effective 42%, and damage × 0.58.
//!
//! Every sum and product is checked: where a value would leave the
//! fixed-point range the exchange answers [`ExchangeError::OutOfRange`].

use vstd::prelude::*;

use crate::confidence::{Confidence, ConfidenceLevel, min_level};
use crate::curve::Curve;
use crate::derived::{DerivedStatDef, clamp_spec, cap_in_force, defines, distinct_ids};
use crate::fixed::{Fixed, SCALE, in_micro_range, mul_div_spec};
use crate::ids::{AbilityId, ClassId, CurveId, DerivedStatId, ItemId};
use crate::resolve::{ConditionalBonus, Resolved, StageNote, graded, sum_parts, parts_level, extends, has_stage};
use crate::schema::{InMemoryDataset, WeaponProfile};
use crate::stats::{
    ArmorPen, Damage, DamageTag, DamageType, EffectivePdr, PdrMod, ScalingCoefficient, TrueDamage,
    hundred, less_percent, penetrated, percent_of, percent_scale, power_bonus_of, rating_of, reduction_of,
    with_percent,
};
use crate::table::IdMap;
use crate::text::{append_chars, string_of, str_eq};
use crate::well_known;

verus! {

/// What the attacker brings to one exchange: the strike being made, as
/// opposed to the attacker's standing stat block.
#[derive(Clone, Debug)]
pub struct Strike {
    /// What kind of damage this is, which decides the stats steps 3 and
    /// 5 through 7 read.
    pub damage_type: DamageType,
    /// Base damage of the weapon or skill (step 1).
    pub base: Confidence<Damage>,
    /// The skill's scaling coefficient (step 2). 100% for a plain weapon
    /// swing; 0% for Sneak Attack.
    pub scaling: Confidence<ScalingCoefficient>,
    /// Flat Buff Weapon Damage (step 4).
    pub flat_bonus: Confidence<Damage>,
    /// What this blow is made of: a kind if it is physical, one or more
    /// schools if it is magical. Empty means nothing is known about the
    /// blow, and then no gated bonus fires.
    pub tags: Vec<DamageTag>,
    /// Whether this attack is one specific blow rather than the weapon
    /// simply swinging: a named skill, or a swing picked out of the chain.
    /// Set, the chain count stays quiet.
    pub pinned: bool,
    /// Which weapon this came from, when it came from one: the swing time
    /// and the chain are looked up through it.
    pub weapon: Option<ItemId>,
    /// Penetration carried by the strike (step 5): of armour rating for a
    /// physical strike, of magic resistance for a magic one.
    pub penetration: Confidence<ArmorPen>,
    /// True damage, applied after the whole reduction chain (step 8).
    pub true_damage: Confidence<TrueDamage>,
}

/// A percentage as a graded coefficient.
fn hundred_percent() -> (r: Confidence<ScalingCoefficient>)
    ensures
        r.spec_level() == ConfidenceLevel::Verified,
        r.spec_value()@ == hundred(),
{
    Confidence::Verified(ScalingCoefficient::new(percent_scale()))
}

impl Strike {
    /// A spell cast with nothing behind it: zero base, 100% scaling, no
    /// flat bonus, penetration or true damage, one pinned blow of unknown
    /// kind from no weapon.
    pub fn cast() -> (r: Strike)
        ensures
            r.damage_type == DamageType::Physical,
            r.pinned,
            r.tags@.len() == 0,
            r.weapon is None,
            r.base.spec_level() == ConfidenceLevel::Verified && r.base.spec_value()@ == 0,
            r.scaling.spec_level() == ConfidenceLevel::Verified && r.scaling.spec_value()@ == hundred(),
            r.flat_bonus.spec_level() == ConfidenceLevel::Verified && r.flat_bonus.spec_value()@ == 0,
            r.penetration.spec_level() == ConfidenceLevel::Verified && r.penetration.spec_value()@ == 0,
            r.true_damage.spec_level() == ConfidenceLevel::Verified && r.true_damage.spec_value()@ == 0,
    {
        Strike {
            damage_type: DamageType::Physical,
            pinned: true,
            tags: Vec::new(),
            weapon: None,
            base: Confidence::Verified(Damage::new(Fixed::zero())),
            scaling: hundred_percent(),
            flat_bonus: Confidence::Verified(Damage::new(Fixed::zero())),
            penetration: Confidence::Verified(ArmorPen::new(Fixed::zero())),
            true_damage: Confidence::Verified(TrueDamage::new(Fixed::zero())),
        }
    }

    /// The blow a weapon makes, unmodified: its own damage and penetration
    /// with their grades, 100% scaling, the kind of its chain's first swing,
    /// and nothing else.
    pub fn basic_swing(id: &ItemId, weapon: &WeaponProfile) -> (r: Strike)
        ensures
            r.damage_type == DamageType::Physical,
            !r.pinned,
            r.tags@ == (if weapon.combo@.len() > 0 { seq![weapon.combo@[0].kind] } else { Seq::<DamageTag>::empty() }),
            r.weapon is Some && r.weapon->0@ == id@,
            r.base.spec_level() == weapon.base_damage.spec_level(),
            r.base.spec_value()@ == weapon.base_damage.spec_value()@,
            r.scaling.spec_level() == ConfidenceLevel::Verified && r.scaling.spec_value()@ == hundred(),
            r.flat_bonus.spec_level() == ConfidenceLevel::Verified && r.flat_bonus.spec_value()@ == 0,
            r.penetration.spec_level() == weapon.armor_pen.spec_level(),
            r.penetration.spec_value()@ == weapon.armor_pen.spec_value()@,
            r.true_damage.spec_level() == ConfidenceLevel::Verified && r.true_damage.spec_value()@ == 0,
    {
        let mut tags: Vec<DamageTag> = Vec::new();
        if weapon.combo.len() > 0 {
            tags.push(weapon.combo[0].kind);
        }
        Strike {
            damage_type: DamageType::Physical,
            pinned: false,
            tags,
            weapon: Some(id.clone()),
            base: weapon.base_damage.with_value(Damage::new(*weapon.base_damage.value())),
            scaling: hundred_percent(),
            flat_bonus: Confidence::Verified(Damage::new(Fixed::zero())),
            penetration: weapon.armor_pen.with_value(ArmorPen::new(*weapon.armor_pen.value())),
            true_damage: Confidence::Verified(TrueDamage::new(Fixed::zero())),
        }
    }
}

/// Situational modifiers that belong to the exchange, not to either stat
/// block.
#[derive(Debug)]
pub struct ExchangeContext {
    /// Percentage-point adjustment to the attacker's power bonus for this
    /// strike: Back Attack +30, Hide-exit −30 (step 3).
    pub power_bonus_adjust: Confidence<Fixed>,
    /// Multiplicative PDR Mod on the defender (step 7): Lethal Mark −30.
    pub pdr_mod: Confidence<PdrMod>,
    /// Item Armor Rating Bonus the attacker imposes on the defender for
    /// this strike, in percentage points, keyed by the ability that imposed
    /// it. Keyed rather than summed because the same ability never stacks
    /// across the people carrying it: a key cannot appear twice. Different
    /// abilities are different keys and do sum.
    pub item_armor_bonus_mods: IdMap<AbilityId, Confidence<Fixed>>,
    /// Hit location multiplier in percentage points relative to 100
    /// (step 9): headshot and airborne bonuses.
    pub hit_location_bonus: Confidence<Fixed>,
}

impl Default for ExchangeContext {
    /// A neutral exchange: no positional bonus, no debuff, body shot.
    fn default() -> (r: ExchangeContext)
        ensures
            r.power_bonus_adjust.spec_level() == ConfidenceLevel::Verified && r.power_bonus_adjust.spec_value()@ == 0,
            r.pdr_mod.spec_level() == ConfidenceLevel::Verified && r.pdr_mod.spec_value()@ == 0,
            r.item_armor_bonus_mods.wf() && r.item_armor_bonus_mods.entries().len() == 0,
            r.hit_location_bonus.spec_level() == ConfidenceLevel::Verified && r.hit_location_bonus.spec_value()@ == 0,
    {
        ExchangeContext {
            power_bonus_adjust: Confidence::Verified(Fixed::zero()),
            pdr_mod: Confidence::Verified(PdrMod::new(Fixed::zero())),
            item_armor_bonus_mods: IdMap::new(),
            hit_location_bonus: Confidence::Verified(Fixed::zero()),
        }
    }
}

/// Why an exchange could not be computed. A missing stat is an explicit
/// error, never a silent zero, and a dataset from another build is refused.
#[derive(Debug)]
pub enum ExchangeError {
    /// A derived stat the exchange reads is not defined.
    MissingStat(DerivedStatId),
    /// The dataset is not the one a combatant was resolved against.
    DatasetMismatch {
        /// The build the combatant was resolved against.
        resolved_against: String,
        /// The build of the dataset handed to the exchange.
        given: String,
    },
    /// The defender's class is not in the dataset.
    UnknownClass(ClassId),
    /// The defender's reduction definition names a curve the dataset lacks.
    UnknownCurve(CurveId),
    /// The defender's class defines no reduction stat for the strike's
    /// type, so its rating cannot be re-sampled.
    NoPdrDefinition(ClassId),
    /// A value the exchange forms leaves the fixed-point range.
    OutOfRange,
}

/// The message an exchange error renders to.
pub open spec fn exchange_error_text(e: ExchangeError) -> Seq<char> {
    match e {
        ExchangeError::MissingStat(id) => "exchange needs derived stat "@ + id@ + ", which the loadout does not define"@,
        ExchangeError::DatasetMismatch { resolved_against, given } => "combatant was resolved against build "@
            + resolved_against@ + ", but the exchange was given build "@ + given@
            + "; damage would silently use the wrong curves"@,
        ExchangeError::UnknownClass(id) => "class not in dataset: "@ + id@,
        ExchangeError::UnknownCurve(id) => "curve not in dataset: "@ + id@,
        ExchangeError::NoPdrDefinition(id) => id@ + " defines no "@ + well_known::pdr() + " stat"@,
        ExchangeError::OutOfRange => "a value in the exchange leaves the fixed-point range"@,
    }
}

impl ExchangeError {
    /// The message a reader sees.
    pub fn to_string(&self) -> (r: String)
        ensures
            r@ == exchange_error_text(*self),
    {
        let mut out: Vec<char> = Vec::new();
        match self {
            ExchangeError::MissingStat(id) => {
                append_chars(&mut out, "exchange needs derived stat ");
                append_chars(&mut out, id.as_str());
                append_chars(&mut out, ", which the loadout does not define");
            },
            ExchangeError::DatasetMismatch { resolved_against, given } => {
                append_chars(&mut out, "combatant was resolved against build ");
                append_chars(&mut out, resolved_against.as_str());
                append_chars(&mut out, ", but the exchange was given build ");
                append_chars(&mut out, given.as_str());
                append_chars(&mut out, "; damage would silently use the wrong curves");
            },
            ExchangeError::UnknownClass(id) => {
                append_chars(&mut out, "class not in dataset: ");
                append_chars(&mut out, id.as_str());
            },
            ExchangeError::UnknownCurve(id) => {
                append_chars(&mut out, "curve not in dataset: ");
                append_chars(&mut out, id.as_str());
            },
            ExchangeError::NoPdrDefinition(id) => {
                append_chars(&mut out, id.as_str());
                append_chars(&mut out, " defines no ");
                append_chars(&mut out, well_known::PDR);
                append_chars(&mut out, " stat");
            },
            ExchangeError::OutOfRange => {
                append_chars(&mut out, "a value in the exchange leaves the fixed-point range");
            },
        }
        string_of(&out)
    }
}

/// The outcome of an exchange, with the same inspectable trail the
/// resolution pipeline produces.
#[derive(Debug)]
pub struct ExchangeOutcome {
    /// Final damage dealt.
    pub damage: Confidence<Damage>,
    /// The defender's effective PDR for this exchange, after the mod layer.
    pub effective_pdr: Confidence<EffectivePdr>,
    /// How many of this strike the defender takes before dying; `None`
    /// when the defender has no health stat or the strike cannot kill.
    pub hits_to_kill: Option<i64>,
    /// How many swings of the weapon's chain it takes, when this is the
    /// weapon simply swinging and the chain is known.
    pub chain_to_kill: Option<i64>,
    /// Seconds to land the chain's swings.
    pub chain_time_to_kill: Option<Confidence<Fixed>>,
    /// Seconds to land `hits_to_kill` hits, when the weapon's swing time
    /// and the attacker's action speed are known.
    pub time_to_kill: Option<Confidence<Fixed>>,
    /// The `--explain` trail, in step order.
    pub trace: Vec<StageNote>,
}

// ── The model, over plain values ────────────────────────────────────────

/// The gated bonuses a blow with these tags switches on for stat `id`, as
/// graded parts in the order they were resolved.
pub open spec fn gate_parts(cs: Seq<ConditionalBonus>, tags: Seq<DamageTag>, id: Seq<char>) -> Seq<(int, ConfidenceLevel)>
    decreases cs.len(),
{
    if cs.len() == 0 {
        Seq::empty()
    } else {
        gate_parts(cs.drop_last(), tags, id) + if tags.contains(cs.last().tag) && cs.last().stat@ == id {
            seq![graded(cs.last().value)]
        } else {
            Seq::<(int, ConfidenceLevel)>::empty()
        }
    }
}

/// A stat as a strike reads it: the resolved value, then every gated bonus
/// the strike's tags switch on.
pub open spec fn gated_parts(who: Resolved, tags: Seq<DamageTag>, id: Seq<char>) -> Seq<(int, ConfidenceLevel)> {
    seq![graded(who.derived.view()[id])] + gate_parts(who.conditional@, tags, id)
}

/// The first `n` debuffs of a table's entries, as graded parts.
pub open spec fn mod_prefix(all: Seq<(AbilityId, Confidence<Fixed>)>, n: int) -> Seq<(int, ConfidenceLevel)>
    decreases n,
{
    if n <= 0 {
        Seq::empty()
    } else {
        mod_prefix(all, n - 1).push(graded(all[n - 1].1))
    }
}

/// The debuffs of a context, in key order.
pub open spec fn mod_parts(m: IdMap<AbilityId, Confidence<Fixed>>) -> Seq<(int, ConfidenceLevel)> {
    mod_prefix(m.entries(), m.entries().len() as int)
}

/// The Item Armor Rating Bonus in force for a strike: the defender's own,
/// then every debuff in key order.
pub open spec fn net_bonus_parts(d: Resolved, c: ExchangeContext) -> Seq<(int, ConfidenceLevel)> {
    seq![graded(d.armor.bonus)] + mod_parts(c.item_armor_bonus_mods)
}

/// The definition carrying `id`; with distinct ids there is at most one.
pub open spec fn def_with(defs: Seq<DerivedStatDef>, id: Seq<char>) -> DerivedStatDef {
    defs[choose|i: int| 0 <= i < defs.len() && (#[trigger] defs[i]).id@ == id]
}

/// The defender's reduction definition for the strike's type.
pub open spec fn pdr_def(d: Resolved, s: Strike, data: InMemoryDataset) -> DerivedStatDef {
    def_with(data.classes()[d.class@].derived@, reduction_of(s.damage_type))
}

/// The curve that definition samples.
pub open spec fn pdr_curve(d: Resolved, s: Strike, data: InMemoryDataset) -> Confidence<Curve> {
    data.curves()[pdr_def(d, s, data).curve@]
}

/// Everything an exchange looks up is there: both combatants were resolved
/// against this dataset's build, the three stats it reads exist, and the
/// defender's class, reduction definition and curve are in the dataset.
pub open spec fn ready(a: Resolved, d: Resolved, s: Strike, data: InMemoryDataset) -> bool {
    &&& a.build@ == data.build_spec()
    &&& d.build@ == data.build_spec()
    &&& a.derived.view().contains_key(power_bonus_of(s.damage_type))
    &&& d.derived.view().contains_key(rating_of(s.damage_type))
    &&& d.derived.view().contains_key(reduction_of(s.damage_type))
    &&& data.classes().contains_key(d.class@)
    &&& defines(data.classes()[d.class@].derived@, reduction_of(s.damage_type))
    &&& data.curves().contains_key(pdr_def(d, s, data).curve@)
}

/// Steps 2 to 4: scaled, powered, plus the flat bonus.
pub open spec fn before_reduction(base: int, scaling: int, power: int, flat: int) -> int {
    with_percent(percent_of(base, scaling), power) + flat
}

/// A physical strike's armour before penetration: the item bucket under
/// the net bonus, plus every other source.
pub open spec fn debuffed_armor(item: int, net_bonus: int, other: int) -> int {
    with_percent(item, net_bonus) + other
}

/// Step 6: the reduction curve re-sampled at a rating, offset and clamped
/// exactly as resolution would have, under the cap in force.
pub open spec fn resampled_pdr(curve: Curve, def: DerivedStatDef, caps: Map<Seq<char>, Fixed>, armor: int) -> int {
    clamp_spec(curve.at(armor) + def.offset@, def.floor, cap_in_force(def, caps))
}

/// Steps 7 to 9: reduced by the effective PDR, plus true damage, times the
/// hit location.
pub open spec fn after_reduction(damage: int, effective_pdr: int, true_damage: int, hit: int) -> int {
    with_percent(less_percent(damage, effective_pdr) + true_damage, hit)
}

/// The attacker's power bonus for the strike, with the context's
/// adjustment.
pub open spec fn power_value(a: Resolved, s: Strike, c: ExchangeContext) -> int {
    sum_parts(gated_parts(a, s.tags@, power_bonus_of(s.damage_type)))->0 + c.power_bonus_adjust.spec_value()@
}

/// The defender's rating before penetration: recomposed under the net
/// bonus for a physical strike, as the strike reads it for a magic one.
pub open spec fn armor_before_pen(d: Resolved, s: Strike, c: ExchangeContext) -> int {
    match s.damage_type {
        DamageType::Physical => debuffed_armor(
            d.armor.item.spec_value()@,
            sum_parts(net_bonus_parts(d, c))->0,
            d.armor.other.spec_value()@,
        ),
        DamageType::Magic => sum_parts(gated_parts(d, s.tags@, rating_of(s.damage_type)))->0,
    }
}

/// The rating the strike meets after penetration.
pub open spec fn armor_after_pen(d: Resolved, s: Strike, c: ExchangeContext) -> int {
    penetrated(armor_before_pen(d, s, c), s.penetration.spec_value()@)
}

/// The defender's reduction at the penetrated rating.
pub open spec fn pdr_value(d: Resolved, s: Strike, c: ExchangeContext, data: InMemoryDataset) -> int {
    resampled_pdr(pdr_curve(d, s, data).spec_value(), pdr_def(d, s, data), d.caps.view(), armor_after_pen(d, s, c))
}

/// The effective reduction after the PDR Mod layer.
pub open spec fn effective_value(d: Resolved, s: Strike, c: ExchangeContext, data: InMemoryDataset) -> int {
    with_percent(pdr_value(d, s, c, data), c.pdr_mod.spec_value()@)
}

/// The damage one swing deals at a scaling coefficient.
pub open spec fn swing_value(a: Resolved, d: Resolved, s: Strike, c: ExchangeContext, data: InMemoryDataset, scaling: int) -> int {
    after_reduction(
        before_reduction(s.base.spec_value()@, scaling, power_value(a, s, c), s.flat_bonus.spec_value()@),
        effective_value(d, s, c, data),
        s.true_damage.spec_value()@,
        c.hit_location_bonus.spec_value()@,
    )
}

/// Steps 2 to 4 stay in range: the scaled damage, the power bonus with its
/// adjustment, the powered damage and the flat sum.
pub open spec fn offence_fits(base: int, scaling: int, power: int, flat: int) -> bool {
    let scaled = percent_of(base, scaling);
    &&& in_micro_range(scaled)
    &&& in_micro_range(power)
    &&& in_micro_range(hundred() + power)
    &&& in_micro_range(with_percent(scaled, power))
    &&& in_micro_range(with_percent(scaled, power) + flat)
}

/// Step 5 stays in range: the net bonus and the recomposed armour for a
/// physical strike, then the penetrated rating.
pub open spec fn defence_fits(d: Resolved, s: Strike, c: ExchangeContext) -> bool {
    let before = armor_before_pen(d, s, c);
    let pen = s.penetration.spec_value()@;
    &&& (s.damage_type == DamageType::Physical ==> {
        let net = sum_parts(net_bonus_parts(d, c));
        &&& net is Some
        &&& in_micro_range(hundred() + net->0)
        &&& in_micro_range(with_percent(d.armor.item.spec_value()@, net->0))
        &&& in_micro_range(before)
    })
    &&& in_micro_range(hundred() - pen)
    &&& in_micro_range(less_percent(before, pen))
}

/// Steps 7 to 9 stay in range.
pub open spec fn finish_fits(damage: int, pdr: int, m: int, true_damage: int, hit: int) -> bool {
    let eff = with_percent(pdr, m);
    let reduced = less_percent(damage, eff);
    &&& in_micro_range(hundred() + m)
    &&& in_micro_range(eff)
    &&& in_micro_range(hundred() - eff)
    &&& in_micro_range(reduced)
    &&& in_micro_range(reduced + true_damage)
    &&& in_micro_range(hundred() + hit)
    &&& in_micro_range(with_percent(reduced + true_damage, hit))
}

/// Every value steps 1 to 9 form lies in the fixed-point range.
pub open spec fn swing_fits(a: Resolved, d: Resolved, s: Strike, c: ExchangeContext, data: InMemoryDataset, scaling: int) -> bool {
    &&& sum_parts(gated_parts(a, s.tags@, power_bonus_of(s.damage_type))) is Some
    &&& sum_parts(gated_parts(d, s.tags@, rating_of(s.damage_type))) is Some
    &&& sum_parts(gated_parts(d, s.tags@, reduction_of(s.damage_type))) is Some
    &&& offence_fits(s.base.spec_value()@, scaling, power_value(a, s, c), s.flat_bonus.spec_value()@)
    &&& defence_fits(d, s, c)
    &&& in_micro_range(pdr_curve(d, s, data).spec_value().at(armor_after_pen(d, s, c)) + pdr_def(d, s, data).offset@)
    &&& finish_fits(
        before_reduction(s.base.spec_value()@, scaling, power_value(a, s, c), s.flat_bonus.spec_value()@),
        pdr_value(d, s, c, data),
        c.pdr_mod.spec_value()@,
        s.true_damage.spec_value()@,
        c.hit_location_bonus.spec_value()@,
    )
}

/// The grade of the rating the strike meets after penetration.
pub open spec fn armor_level(d: Resolved, s: Strike, c: ExchangeContext) -> ConfidenceLevel {
    let before = match s.damage_type {
        DamageType::Physical => min_level(
            min_level(d.armor.item.spec_level(), parts_level(net_bonus_parts(d, c))),
            d.armor.other.spec_level(),
        ),
        DamageType::Magic => parts_level(gated_parts(d, s.tags@, rating_of(s.damage_type))),
    };
    min_level(before, s.penetration.spec_level())
}

/// The grade of the effective reduction: the rating's, the curve's and the
/// mod's.
pub open spec fn effective_level(d: Resolved, s: Strike, c: ExchangeContext, data: InMemoryDataset) -> ConfidenceLevel {
    min_level(min_level(armor_level(d, s, c), pdr_curve(d, s, data).spec_level()), c.pdr_mod.spec_level())
}

/// The grade of one swing's damage: the lowest of every input that reached
/// it.
pub open spec fn swing_level(a: Resolved, d: Resolved, s: Strike, c: ExchangeContext, data: InMemoryDataset, scaling: ConfidenceLevel) -> ConfidenceLevel {
    let scaled = min_level(s.base.spec_level(), scaling);
    let power = min_level(parts_level(gated_parts(a, s.tags@, power_bonus_of(s.damage_type))), c.power_bonus_adjust.spec_level());
    let with_flat = min_level(min_level(scaled, power), s.flat_bonus.spec_level());
    let reduced = min_level(with_flat, effective_level(d, s, c, data));
    min_level(min_level(reduced, s.true_damage.spec_level()), c.hit_location_bonus.spec_level())
}

/// The first error an exchange that is not [`ready`] answers.
pub open spec fn first_error(a: Resolved, d: Resolved, s: Strike, data: InMemoryDataset, e: ExchangeError) -> bool {
    let kind = s.damage_type;
    if a.build@ != data.build_spec() {
        e matches ExchangeError::DatasetMismatch { resolved_against, given } && resolved_against@ == a.build@ && given@ == data.build_spec()
    } else if d.build@ != data.build_spec() {
        e matches ExchangeError::DatasetMismatch { resolved_against, given } && resolved_against@ == d.build@ && given@ == data.build_spec()
    } else if !a.derived.view().contains_key(power_bonus_of(kind)) {
        e matches ExchangeError::MissingStat(id) && id@ == power_bonus_of(kind)
    } else if !d.derived.view().contains_key(rating_of(kind)) {
        e matches ExchangeError::MissingStat(id) && id@ == rating_of(kind)
    } else if !d.derived.view().contains_key(reduction_of(kind)) {
        e matches ExchangeError::MissingStat(id) && id@ == reduction_of(kind)
    } else if !data.classes().contains_key(d.class@) {
        e matches ExchangeError::UnknownClass(id) && id@ == d.class@
    } else if !defines(data.classes()[d.class@].derived@, reduction_of(kind)) {
        e matches ExchangeError::NoPdrDefinition(id) && id@ == d.class@
    } else {
        e matches ExchangeError::UnknownCurve(id) && id@ == pdr_def(d, s, data).curve@
    }
}


// ── The fight, rather than the hit ──────────────────────────────────────

/// The defender's health, when its class defines one.
pub open spec fn health_of(d: Resolved) -> Option<int> {
    if d.derived.view().contains_key(well_known::health()) {
        Some(d.derived.view()[well_known::health()].spec_value()@)
    } else {
        None
    }
}

/// How many blows of `step` cover `total`, rounded up: `None` for a blow
/// that takes nothing off, none at all when nothing is left to cover.
pub open spec fn cover(step: int, total: int) -> Option<int> {
    if step <= 0 {
        None
    } else if total <= 0 {
        Some(0)
    } else {
        Some(crate::fixed::ceil_div(total, step))
    }
}

/// The weapon profile a strike came from, when the dataset has it.
pub open spec fn weapon_of(s: Strike, data: InMemoryDataset) -> Option<WeaponProfile> {
    match s.weapon {
        Some(w) => if data.items().contains_key(w@) { data.items()[w@].weapon } else { None },
        None => None,
    }
}

/// Whether the time of a fight is askable: the weapon's swing time is
/// recorded and the attacker has an action speed.
pub open spec fn timed(a: Resolved, s: Strike, data: InMemoryDataset) -> bool {
    &&& weapon_of(s, data) is Some
    &&& weapon_of(s, data)->0.swing_time is Some
    &&& a.derived.view().contains_key(well_known::action_speed())
}

/// Seconds for `hits` swings of `t` seconds at `speed` percent action
/// speed: action speed divides, so +100% halves the time.
pub open spec fn time_value(t: int, hits: int, speed: int) -> int {
    mul_div_spec(t * hits, hundred(), hundred() + speed)
}

/// The timing stays in range, and the divisor is not zero.
pub open spec fn time_fits(t: int, hits: int, speed: int) -> bool {
    &&& in_micro_range(hits * SCALE)
    &&& in_micro_range(t * hits)
    &&& in_micro_range(hundred() + speed)
    &&& hundred() + speed != 0
    &&& in_micro_range(time_value(t, hits, speed))
}

/// The time for a number of hits, with its grade, when it is askable.
pub open spec fn time_spec(a: Resolved, s: Strike, data: InMemoryDataset, hits: Option<int>) -> Option<(int, ConfidenceLevel)> {
    if hits is Some && timed(a, s, data) {
        let t = weapon_of(s, data)->0.swing_time->0;
        let speed = a.derived.view()[well_known::action_speed()];
        Some((time_value(t.spec_value()@, hits->0, speed.spec_value()@), min_level(t.spec_level(), speed.spec_level())))
    } else {
        None
    }
}

/// Timing a number of hits stays in range, when it is askable at all.
pub open spec fn time_ok(a: Resolved, s: Strike, data: InMemoryDataset, hits: Option<int>) -> bool {
    hits is Some && timed(a, s, data) ==> time_fits(
        weapon_of(s, data)->0.swing_time->0.spec_value()@,
        hits->0,
        a.derived.view()[well_known::action_speed()].spec_value()@,
    )
}

/// Whether a chain count is askable: the weapon simply swinging, and its
/// chain recorded.
pub open spec fn chained(s: Strike, data: InMemoryDataset) -> bool {
    &&& !s.pinned
    &&& weapon_of(s, data) is Some
    &&& weapon_of(s, data)->0.combo@.len() > 0
}

/// The damage of the first `n` swings of a chain: the strike at each
/// swing's scaling coefficient.
pub open spec fn swings_of(a: Resolved, d: Resolved, s: Strike, c: ExchangeContext, data: InMemoryDataset, combo: Seq<crate::schema::ComboHit>, n: int) -> Seq<int> {
    Seq::new(n as nat, |i: int| swing_value(a, d, s, c, data, combo[i].scaling.spec_value()@))
}

/// The damage of each swing of the weapon's chain.
pub open spec fn chain_values(a: Resolved, d: Resolved, s: Strike, c: ExchangeContext, data: InMemoryDataset) -> Seq<int> {
    let combo = weapon_of(s, data)->0.combo@;
    swings_of(a, d, s, c, data, combo, combo.len() as int)
}

/// Fixed-point values as their micro counts.
pub open spec fn micros(p: Seq<Fixed>) -> Seq<int> {
    p.map_values(|f: Fixed| f@)
}

/// Every swing of the chain stays in range.
pub open spec fn chain_swings_fit(a: Resolved, d: Resolved, s: Strike, c: ExchangeContext, data: InMemoryDataset) -> bool {
    let combo = weapon_of(s, data)->0.combo@;
    forall|i: int| 0 <= i < combo.len() ==> swing_fits(a, d, s, c, data, (#[trigger] combo[i]).scaling.spec_value()@)
}

/// The sum of a run of values.
pub open spec fn int_sum(p: Seq<int>) -> int
    decreases p.len(),
{
    if p.len() == 0 {
        0
    } else {
        int_sum(p.drop_last()) + p.last()
    }
}

/// The first count of swings, from `j` on, after which `start` plus their
/// damage covers `health`; the whole lap when none does.
pub open spec fn reach(per: Seq<int>, start: int, health: int, j: int) -> int
    decreases per.len() - j,
{
    if j >= per.len() || start + int_sum(per.subrange(0, j)) >= health {
        j
    } else {
        reach(per, start, health, j + 1)
    }
}

/// Whole laps of the chain that fit in the health.
pub open spec fn laps_of(cycle: int, health: int) -> int {
    if health <= 0 { 0 } else { health / cycle }
}

/// How many swings a chain's length counts for.
pub open spec fn lap_len(n: int) -> int {
    if n > i64::MAX { i64::MAX as int } else { n }
}

/// How many swings of a repeating chain cover `health`: whole laps by
/// division, then the swings of one more lap until it is covered. `None`
/// when a whole lap takes nothing off.
pub open spec fn chain_count(per: Seq<int>, health: int) -> Option<int> {
    let cycle = int_sum(per);
    if cycle <= 0 {
        None
    } else {
        let laps = laps_of(cycle, health);
        let n = laps * lap_len(per.len() as int) + reach(per, cycle * laps, health, 0);
        Some(if n > i64::MAX { i64::MAX as int } else { n })
    }
}

/// Counting the chain stays in range: every partial sum of a lap, the laps
/// in micro-units, the whole laps, and every step of the last lap's walk.
pub open spec fn chain_count_fits(per: Seq<int>, health: int) -> bool {
    let cycle = int_sum(per);
    &&& forall|k: int| 0 <= k <= per.len() ==> in_micro_range(#[trigger] int_sum(per.subrange(0, k)))
    &&& (cycle > 0 ==> {
        let laps = laps_of(cycle, health);
        let start = cycle * laps;
        &&& in_micro_range(laps * SCALE)
        &&& in_micro_range(start)
        &&& forall|k: int| 0 <= k <= reach(per, start, health, 0) ==> in_micro_range(start + #[trigger] int_sum(per.subrange(0, k)))
    })
}

/// The main strike's damage.
pub open spec fn strike_value(a: Resolved, d: Resolved, s: Strike, c: ExchangeContext, data: InMemoryDataset) -> int {
    swing_value(a, d, s, c, data, s.scaling.spec_value()@)
}

/// How many of the strike the defender takes, when it has health.
pub open spec fn hits_spec(a: Resolved, d: Resolved, s: Strike, c: ExchangeContext, data: InMemoryDataset) -> Option<int> {
    match health_of(d) {
        Some(h) => cover(strike_value(a, d, s, c, data), h),
        None => None,
    }
}

/// How many swings of the weapon's chain the defender takes, when it has
/// health and the chain is askable.
pub open spec fn chain_spec(a: Resolved, d: Resolved, s: Strike, c: ExchangeContext, data: InMemoryDataset) -> Option<int> {
    match health_of(d) {
        Some(h) => if chained(s, data) { chain_count(chain_values(a, d, s, c, data), h) } else { None },
        None => None,
    }
}

/// Everything a fight forms stays in range: the strike, timing its hits,
/// every swing of the chain and its count, and timing the chain.
pub open spec fn fight_fits(a: Resolved, d: Resolved, s: Strike, c: ExchangeContext, data: InMemoryDataset) -> bool {
    &&& swing_fits(a, d, s, c, data, s.scaling.spec_value()@)
    &&& time_ok(a, s, data, hits_spec(a, d, s, c, data))
    &&& (health_of(d) is Some && chained(s, data) ==> chain_swings_fit(a, d, s, c, data)
        && chain_count_fits(chain_values(a, d, s, c, data), health_of(d)->0))
    &&& time_ok(a, s, data, chain_spec(a, d, s, c, data))
}

/// What one attack comes to: with everything it looks up present and
/// everything it forms in range, the damage, the effective reduction, hits
/// and chain to kill and their times, and a note for every step;
/// otherwise the first missing thing, or the range left.
pub open spec fn damage_outcome(a: Resolved, d: Resolved, s: Strike, c: ExchangeContext, data: InMemoryDataset, r: Result<ExchangeOutcome, ExchangeError>) -> bool {
    match r {
        Ok(out) => {
            &&& ready(a, d, s, data)
            &&& fight_fits(a, d, s, c, data)
            &&& out.damage.spec_value()@ == strike_value(a, d, s, c, data)
            &&& out.damage.spec_level() == swing_level(a, d, s, c, data, s.scaling.spec_level())
            &&& out.effective_pdr.spec_value()@ == effective_value(d, s, c, data)
            &&& out.effective_pdr.spec_level() == effective_level(d, s, c, data)
            &&& opt_is(out.hits_to_kill, hits_spec(a, d, s, c, data))
            &&& graded_opt_is(out.time_to_kill, time_spec(a, s, data, hits_spec(a, d, s, c, data)))
            &&& opt_is(out.chain_to_kill, chain_spec(a, d, s, c, data))
            &&& graded_opt_is(out.chain_time_to_kill, time_spec(a, s, data, chain_spec(a, d, s, c, data)))
            &&& forall|st: u8| 1 <= st <= 9 ==> #[trigger] has_stage(out.trace@, st)
        },
        Err(e) => if ready(a, d, s, data) {
            e is OutOfRange && !fight_fits(a, d, s, c, data)
        } else {
            first_error(a, d, s, data, e)
        },
    }
}

/// An optional count, as the model's optional integer.
pub open spec fn opt_is(x: Option<i64>, y: Option<int>) -> bool {
    match (x, y) {
        (Some(a), Some(b)) => a == b,
        (None, None) => true,
        _ => false,
    }
}

/// An optional graded number, as the model's value and grade.
pub open spec fn graded_opt_is(x: Option<Confidence<Fixed>>, y: Option<(int, ConfidenceLevel)>) -> bool {
    match (x, y) {
        (Some(a), Some(b)) => a.spec_value()@ == b.0 && a.spec_level() == b.1,
        (None, None) => true,
        _ => false,
    }
}

/// One line of an explanation: `stage. label: detail`.
pub open spec fn note_line(n: StageNote) -> Seq<char> {
    crate::fixed::int_render(n.stage as int) + ". "@ + n.label@ + ": "@ + n.detail@ + "\n"@
}

/// A trace rendered line by line.
pub open spec fn explain_text(t: Seq<StageNote>) -> Seq<char>
    decreases t.len(),
{
    if t.len() == 0 {
        Seq::empty()
    } else {
        explain_text(t.drop_last()) + note_line(t.last())
    }
}

// ── Checked steps over graded numbers ───────────────────────────────────

/// `a + b` with the lower grade, when the sum is in range.
fn plus_graded(a: &Confidence<Fixed>, b: &Confidence<Fixed>) -> (r: Option<Confidence<Fixed>>)
    ensures
        r is Some <==> in_micro_range(a.spec_value()@ + b.spec_value()@),
        r is Some ==> r->0.spec_value()@ == a.spec_value()@ + b.spec_value()@
            && r->0.spec_level() == min_level(a.spec_level(), b.spec_level()),
{
    match a.value().checked_plus(*b.value()) {
        Some(v) => Some(a.join(b, v)),
        None => None,
    }
}

/// `v × (100 + pct) / 100` with the lower grade, when every value it forms
/// is in range.
fn percent_graded(v: &Confidence<Fixed>, pct: &Confidence<Fixed>) -> (r: Option<Confidence<Fixed>>)
    ensures
        r is Some <==> in_micro_range(hundred() + pct.spec_value()@) && in_micro_range(with_percent(v.spec_value()@, pct.spec_value()@)),
        r is Some ==> r->0.spec_value()@ == with_percent(v.spec_value()@, pct.spec_value()@)
            && r->0.spec_level() == min_level(v.spec_level(), pct.spec_level()),
{
    let p = percent_scale();
    let factor = match p.checked_plus(*pct.value()) {
        Some(f) => f,
        None => return None,
    };
    match v.value().checked_mul_div_half_even(factor, p) {
        Some(x) => Some(v.join(pct, x)),
        None => None,
    }
}

/// `v × (100 − pct) / 100` with the lower grade, when every value it forms
/// is in range.
fn less_graded(v: &Confidence<Fixed>, pct: &Confidence<Fixed>) -> (r: Option<Confidence<Fixed>>)
    ensures
        r is Some <==> in_micro_range(hundred() - pct.spec_value()@) && in_micro_range(less_percent(v.spec_value()@, pct.spec_value()@)),
        r is Some ==> r->0.spec_value()@ == less_percent(v.spec_value()@, pct.spec_value()@)
            && r->0.spec_level() == min_level(v.spec_level(), pct.spec_level()),
{
    let p = percent_scale();
    let factor = match p.checked_minus(*pct.value()) {
        Some(f) => f,
        None => return None,
    };
    match v.value().checked_mul_div_half_even(factor, p) {
        Some(x) => Some(v.join(pct, x)),
        None => None,
    }
}

/// `v × coefficient / 100` with the lower grade, when it is in range.
fn part_graded(v: &Confidence<Fixed>, coefficient: &Confidence<Fixed>) -> (r: Option<Confidence<Fixed>>)
    ensures
        r is Some <==> in_micro_range(percent_of(v.spec_value()@, coefficient.spec_value()@)),
        r is Some ==> r->0.spec_value()@ == percent_of(v.spec_value()@, coefficient.spec_value()@)
            && r->0.spec_level() == min_level(v.spec_level(), coefficient.spec_level()),
{
    match v.value().checked_mul_div_half_even(*coefficient.value(), percent_scale()) {
        Some(x) => Some(v.join(coefficient, x)),
        None => None,
    }
}

/// Whether a blow carries a tag.
fn has_tag(tags: &Vec<DamageTag>, t: DamageTag) -> (r: bool)
    ensures
        r == tags@.contains(t),
{
    let mut i: usize = 0;
    while i < tags.len()
        invariant
            i <= tags@.len(),
            forall|j: int| 0 <= j < i ==> tags@[j] != t,
        decreases tags@.len() - i,
    {
        if tags[i] == t {
            return true;
        }
        i = i + 1;
    }
    false
}

/// A sum that has already left the range stays out of it, whatever follows.
proof fn lemma_sum_none_append(p: Seq<(int, ConfidenceLevel)>, q: Seq<(int, ConfidenceLevel)>)
    requires
        sum_parts(p) is None,
    ensures
        sum_parts(p + q) is None,
    decreases q.len(),
{
    if q.len() == 0 {
        assert(p + q =~= p);
    } else {
        assert((p + q).drop_last() =~= p + q.drop_last());
        lemma_sum_none_append(p, q.drop_last());
    }
}

/// The gated parts of two runs of bonuses are the parts of each, in order.
proof fn lemma_gate_split(x: Seq<ConditionalBonus>, y: Seq<ConditionalBonus>, tags: Seq<DamageTag>, id: Seq<char>)
    ensures
        gate_parts(x + y, tags, id) == gate_parts(x, tags, id) + gate_parts(y, tags, id),
    decreases y.len(),
{
    if y.len() == 0 {
        assert(x + y =~= x);
        assert(gate_parts(x, tags, id) + gate_parts(y, tags, id) =~= gate_parts(x, tags, id));
    } else {
        assert((x + y).drop_last() =~= x + y.drop_last());
        lemma_gate_split(x, y.drop_last(), tags, id);
        assert((x + y).last() == y.last());
        let extra = if tags.contains(y.last().tag) && y.last().stat@ == id {
            seq![graded(y.last().value)]
        } else {
            Seq::<(int, ConfidenceLevel)>::empty()
        };
        assert(gate_parts(x, tags, id) + gate_parts(y.drop_last(), tags, id) + extra
            =~= gate_parts(x, tags, id) + (gate_parts(y.drop_last(), tags, id) + extra));
    }
}

/// Whether a trace keeps a note for a stage once it has one.
proof fn lemma_stage_kept(a: Seq<StageNote>, b: Seq<StageNote>, st: u8)
    requires
        extends(a, b),
        has_stage(a, st),
    ensures
        has_stage(b, st),
{
    let j = choose|j: int| 0 <= j < a.len() && (#[trigger] a[j]).stage == st;
    assert(b.subrange(0, a.len() as int)[j] == b[j]);
}

/// Appends a note; the trace only grows.
fn push_note(trace: &mut Vec<StageNote>, stage: u8, label: &'static str, detail: String)
    ensures
        extends(old(trace)@, final(trace)@),
        has_stage(final(trace)@, stage),
        final(trace)@.len() == old(trace)@.len() + 1,
        final(trace)@.last().label == label,
{
    let ghost before = trace@;
    trace.push(StageNote { stage, label, detail });
    proof {
        assert(trace@.subrange(0, before.len() as int) =~= before);
        assert(trace@[before.len() as int].stage == stage);
    }
}

/// Appends a value's decimal text.
fn put(out: &mut Vec<char>, v: Fixed)
    ensures
        final(out)@ == old(out)@ + crate::fixed::render_spec(v@, false),
{
    append_chars(out, v.to_string().as_str());
}

/// Appends a value's decimal text with its sign always shown.
fn put_signed(out: &mut Vec<char>, v: Fixed)
    ensures
        final(out)@ == old(out)@ + crate::fixed::render_spec(v@, true),
{
    append_chars(out, v.to_string_signed().as_str());
}

/// A stat as a strike reads it: the resolved value plus every gated bonus
/// the strike's tags switch on, each leaving a note at `stage`. `None` when
/// the sum leaves the range.
fn read_gated(who: &Resolved, tags: &Vec<DamageTag>, id: &str, stage: u8, trace: &mut Vec<StageNote>) -> (r: Option<Confidence<Fixed>>)
    requires
        who.derived.wf(),
        who.derived.view().contains_key(id@),
    ensures
        r is Some <==> sum_parts(gated_parts(*who, tags@, id@)) is Some,
        r is Some ==> r->0.spec_value()@ == sum_parts(gated_parts(*who, tags@, id@))->0
            && r->0.spec_level() == parts_level(gated_parts(*who, tags@, id@)),
        extends(old(trace)@, final(trace)@),
{
    let stat = who.stat(id).unwrap();
    let mut acc: Confidence<Fixed> = stat.copied();
    let cs = &who.conditional;
    let ghost g0 = seq![graded(who.derived.view()[id@])];
    let ghost start = trace@;
    proof {
        crate::fixed::lemma_fixed_view(acc.spec_value(), acc.spec_value());
        assert(cs@.subrange(0, 0) =~= Seq::<ConditionalBonus>::empty());
        assert(g0 + gate_parts(Seq::<ConditionalBonus>::empty(), tags@, id@) =~= g0);
        assert(g0.drop_last() =~= Seq::<(int, ConfidenceLevel)>::empty());
        assert(sum_parts(Seq::<(int, ConfidenceLevel)>::empty()) == Some(0int));
        assert(parts_level(Seq::<(int, ConfidenceLevel)>::empty()) == ConfidenceLevel::Verified);
        assert(sum_parts(g0) == Some(acc.spec_value()@));
        assert(parts_level(g0) == acc.spec_level());
        assert(trace@.subrange(0, start.len() as int) =~= start);
    }
    let mut i: usize = 0;
    while i < cs.len()
        invariant
            i <= cs@.len(),
            *cs == who.conditional,
            g0 == seq![graded(who.derived.view()[id@])],
            sum_parts(g0 + gate_parts(cs@.subrange(0, i as int), tags@, id@)) == Some(acc.spec_value()@),
            parts_level(g0 + gate_parts(cs@.subrange(0, i as int), tags@, id@)) == acc.spec_level(),
            extends(start, trace@),
            start == old(trace)@,
        decreases cs@.len() - i,
    {
        let c = &cs[i];
        let ghost pre = g0 + gate_parts(cs@.subrange(0, i as int), tags@, id@);
        proof {
            assert(cs@.subrange(0, i + 1).drop_last() =~= cs@.subrange(0, i as int));
            assert(cs@.subrange(0, i + 1).last() == cs@[i as int]);
        }
        if has_tag(tags, c.tag) && str_eq(c.stat.as_str(), id) {
            proof {
                assert(g0 + gate_parts(cs@.subrange(0, i + 1), tags@, id@) =~= pre.push(graded(c.value)));
                assert(pre.push(graded(c.value)).drop_last() =~= pre);
            }
            let before = *acc.value();
            let next = match plus_graded(&acc, &c.value) {
                Some(v) => v,
                None => {
                    proof {
                        assert(cs@ =~= cs@.subrange(0, i + 1) + cs@.subrange(i + 1, cs@.len() as int));
                        lemma_gate_split(cs@.subrange(0, i + 1), cs@.subrange(i + 1, cs@.len() as int), tags@, id@);
                        lemma_sum_none_append(g0 + gate_parts(cs@.subrange(0, i + 1), tags@, id@),
                            gate_parts(cs@.subrange(i + 1, cs@.len() as int), tags@, id@));
                        assert(g0 + gate_parts(cs@, tags@, id@) =~= g0 + gate_parts(cs@.subrange(0, i + 1), tags@, id@)
                            + gate_parts(cs@.subrange(i + 1, cs@.len() as int), tags@, id@));
                    }
                    return None;
                },
            };
            acc = next;
            let mut d: Vec<char> = Vec::new();
            append_chars(&mut d, c.source.as_str());
            append_chars(&mut d, " applies to a ");
            append_chars(&mut d, c.tag.as_str());
            append_chars(&mut d, " blow: ");
            append_chars(&mut d, id);
            append_chars(&mut d, " ");
            put(&mut d, before);
            append_chars(&mut d, " +");
            put(&mut d, *c.value.value());
            append_chars(&mut d, " → ");
            put(&mut d, *acc.value());
            let ghost mid = trace@;
            push_note(trace, stage, "gated bonus", string_of(&d));
            proof {
                assert(extends(start, trace@)) by {
                    assert(trace@.subrange(0, start.len() as int) =~= mid.subrange(0, start.len() as int));
                }
            }
        } else {
            proof {
                assert(g0 + gate_parts(cs@.subrange(0, i + 1), tags@, id@) =~= pre);
            }
        }
        i = i + 1;
    }
    proof {
        assert(cs@.subrange(0, cs@.len() as int) =~= cs@);
    }
    Some(acc)
}

/// The first `j` debuffs are a prefix of the first `n`.
proof fn lemma_mod_prefix(all: Seq<(AbilityId, Confidence<Fixed>)>, n: int, j: int)
    requires
        0 <= j <= n,
    ensures
        mod_prefix(all, n).len() == n,
        mod_prefix(all, n).subrange(0, j) == mod_prefix(all, j),
    decreases n,
{
    if n > 0 {
        lemma_mod_prefix(all, n - 1, if j == n { n - 1 } else { j });
        if j == n {
            assert(mod_prefix(all, n).subrange(0, j) =~= mod_prefix(all, n));
        } else {
            assert(mod_prefix(all, n).subrange(0, j) =~= mod_prefix(all, n - 1).subrange(0, j));
        }
    } else {
        assert(mod_prefix(all, n).subrange(0, j) =~= mod_prefix(all, j));
    }
}

/// The net Item Armor Rating Bonus: the defender's own, then every debuff
/// in key order. `None` when the sum leaves the range.
fn net_bonus(d: &Resolved, c: &ExchangeContext) -> (r: Option<Confidence<Fixed>>)
    ensures
        r is Some <==> sum_parts(net_bonus_parts(*d, *c)) is Some,
        r is Some ==> r->0.spec_value()@ == sum_parts(net_bonus_parts(*d, *c))->0
            && r->0.spec_level() == parts_level(net_bonus_parts(*d, *c)),
{
    let mods = &c.item_armor_bonus_mods;
    let mut acc: Confidence<Fixed> = d.armor.bonus.copied();
    let ghost g0 = seq![graded(d.armor.bonus)];
    let ghost all = mods.entries();
    proof {
        crate::fixed::lemma_fixed_view(acc.spec_value(), acc.spec_value());
        assert(g0 + mod_prefix(all, 0) =~= g0);
        assert(g0.drop_last() =~= Seq::<(int, ConfidenceLevel)>::empty());
        assert(sum_parts(Seq::<(int, ConfidenceLevel)>::empty()) == Some(0int));
        assert(parts_level(Seq::<(int, ConfidenceLevel)>::empty()) == ConfidenceLevel::Verified);
        assert(sum_parts(g0) == Some(acc.spec_value()@));
        assert(parts_level(g0) == acc.spec_level());
    }
    let mut i: usize = 0;
    while i < mods.len()
        invariant
            i <= all.len(),
            all == mods.entries(),
            *mods == c.item_armor_bonus_mods,
            g0 == seq![graded(d.armor.bonus)],
            sum_parts(g0 + mod_prefix(all, i as int)) == Some(acc.spec_value()@),
            parts_level(g0 + mod_prefix(all, i as int)) == acc.spec_level(),
        decreases all.len() - i,
    {
        let v = mods.value_at(i);
        let ghost pre = g0 + mod_prefix(all, i as int);
        proof {
            assert(g0 + mod_prefix(all, i + 1) =~= pre.push(graded(*v)));
            assert(pre.push(graded(*v)).drop_last() =~= pre);
        }
        acc = match plus_graded(&acc, v) {
            Some(x) => x,
            None => {
                proof {
                    let whole = g0 + mod_prefix(all, all.len() as int);
                    lemma_mod_prefix(all, all.len() as int, i + 1);
                    assert(whole.subrange(0, i + 2) =~= g0 + mod_prefix(all, i + 1));
                    crate::resolve::lemma_sum_none_extends(whole, i + 2);
                }
                return None;
            },
        };
        i = i + 1;
    }
    Some(acc)
}


// ── The steps ───────────────────────────────────────────────────────────

/// Steps 1 to 4: base, scaling coefficient, power bonus with its
/// adjustment, flat bonus. `None` when a value leaves the range.
fn offence(
    s: &Strike,
    scaling: &Confidence<Fixed>,
    power: &Confidence<Fixed>,
    c: &ExchangeContext,
    trace: &mut Vec<StageNote>,
) -> (r: Option<Confidence<Fixed>>)
    ensures
        r is Some <==> offence_fits(
            s.base.spec_value()@,
            scaling.spec_value()@,
            power.spec_value()@ + c.power_bonus_adjust.spec_value()@,
            s.flat_bonus.spec_value()@,
        ),
        r is Some ==> r->0.spec_value()@ == before_reduction(
            s.base.spec_value()@,
            scaling.spec_value()@,
            power.spec_value()@ + c.power_bonus_adjust.spec_value()@,
            s.flat_bonus.spec_value()@,
        ),
        r is Some ==> r->0.spec_level() == min_level(
            min_level(
                min_level(s.base.spec_level(), scaling.spec_level()),
                min_level(power.spec_level(), c.power_bonus_adjust.spec_level()),
            ),
            s.flat_bonus.spec_level(),
        ),
        extends(old(trace)@, final(trace)@),
        r is Some ==> has_stage(final(trace)@, 1) && has_stage(final(trace)@, 2) && has_stage(final(trace)@, 3)
            && has_stage(final(trace)@, 4),
{
    let ghost t0 = trace@;
    let base = s.base.with_value(s.base.value().value());
    let mut d1: Vec<char> = Vec::new();
    put(&mut d1, *base.value());
    push_note(trace, 1, "base damage", string_of(&d1));
    let ghost t1 = trace@;

    // A 0% coefficient means the damage does not scale at all, which is why
    // Sneak Attack ignores the Hide-exit penalty.
    let scaled = match part_graded(&base, scaling) {
        Some(v) => v,
        None => return None,
    };
    let mut d2: Vec<char> = Vec::new();
    append_chars(&mut d2, "× ");
    put(&mut d2, *scaling.value());
    append_chars(&mut d2, "% → ");
    put(&mut d2, *scaled.value());
    push_note(trace, 2, "scaling coefficient", string_of(&d2));
    let ghost t2 = trace@;
    proof { lemma_extends_chain(t0, t1, t2); }

    let pw = match plus_graded(power, &c.power_bonus_adjust) {
        Some(v) => v,
        None => return None,
    };
    let powered = match percent_graded(&scaled, &pw) {
        Some(v) => v,
        None => return None,
    };
    let mut d3: Vec<char> = Vec::new();
    append_chars(&mut d3, "× (100");
    put_signed(&mut d3, *pw.value());
    append_chars(&mut d3, ")% → ");
    put(&mut d3, *powered.value());
    let label: &'static str = match s.damage_type {
        DamageType::Physical => "physical power bonus",
        DamageType::Magic => "magic power bonus",
    };
    push_note(trace, 3, label, string_of(&d3));
    let ghost t3 = trace@;
    proof { lemma_extends_chain(t0, t2, t3); }

    let flat = s.flat_bonus.with_value(s.flat_bonus.value().value());
    let with_flat = match plus_graded(&powered, &flat) {
        Some(v) => v,
        None => return None,
    };
    let mut d4: Vec<char> = Vec::new();
    put_signed(&mut d4, *flat.value());
    append_chars(&mut d4, " → ");
    put(&mut d4, *with_flat.value());
    push_note(trace, 4, "flat weapon damage", string_of(&d4));
    proof {
        lemma_extends_chain(t0, t1, t2);
        lemma_extends_chain(t0, t2, t3);
        lemma_extends_chain(t0, t3, trace@);
        lemma_extends_chain(t1, t2, t3);
        lemma_extends_chain(t1, t3, trace@);
        lemma_extends_chain(t2, t3, trace@);
        lemma_stage_kept(t1, trace@, 1);
        lemma_stage_kept(t2, trace@, 2);
        lemma_stage_kept(t3, trace@, 3);
    }
    Some(with_flat)
}

/// Every trace extends itself.
proof fn lemma_extends_refl(a: Seq<StageNote>)
    ensures
        extends(a, a),
{
    assert(a.subrange(0, a.len() as int) =~= a);
}

/// Extending is transitive.
proof fn lemma_extends_chain(a: Seq<StageNote>, b: Seq<StageNote>, c: Seq<StageNote>)
    requires
        extends(a, b),
        extends(b, c),
    ensures
        extends(a, c),
        extends(b, c),
{
    assert(c.subrange(0, a.len() as int) =~= b.subrange(0, a.len() as int));
}

/// Step 5: the defender's rating, recomposed under the net Item Armor
/// Rating Bonus for a physical strike, then penetrated. `None` when a value
/// leaves the range.
fn defence(d: &Resolved, s: &Strike, c: &ExchangeContext, rating: &Confidence<Fixed>, trace: &mut Vec<StageNote>) -> (r: Option<Confidence<Fixed>>)
    requires
        sum_parts(gated_parts(*d, s.tags@, rating_of(s.damage_type))) == Some(rating.spec_value()@),
        parts_level(gated_parts(*d, s.tags@, rating_of(s.damage_type))) == rating.spec_level(),
    ensures
        r is Some <==> defence_fits(*d, *s, *c),
        r is Some ==> r->0.spec_value()@ == armor_after_pen(*d, *s, *c) && r->0.spec_level() == armor_level(*d, *s, *c),
        extends(old(trace)@, final(trace)@),
        r is Some ==> has_stage(final(trace)@, 5),
{
    let ghost t0 = trace@;
    proof { lemma_extends_refl(t0); }
    // The bonus is defender-side state, so it composes first; penetration
    // is a property of the strike and subtracts from whatever armour it
    // meets. An Item Armor Rating Bonus applies to armour, so a magic
    // strike meets its rating as it resolved.
    let debuffed = match s.damage_type {
        DamageType::Physical => {
            let net = match net_bonus(d, c) {
                Some(v) => v,
                None => return None,
            };
            let scaled = match percent_graded(&d.armor.item, &net) {
                Some(v) => v,
                None => return None,
            };
            let sum = match plus_graded(&scaled, &d.armor.other) {
                Some(v) => v,
                None => return None,
            };
            if c.item_armor_bonus_mods.len() > 0 {
                let mut dd: Vec<char> = Vec::new();
                append_chars(&mut dd, "armor = item ");
                put(&mut dd, *d.armor.item.value());
                append_chars(&mut dd, " ×(100");
                put_signed(&mut dd, *net.value());
                append_chars(&mut dd, ")% + other ");
                put(&mut dd, *d.armor.other.value());
                append_chars(&mut dd, " → ");
                put(&mut dd, *sum.value());
                append_chars(&mut dd, " [");
                let mods = &c.item_armor_bonus_mods;
                let mut i: usize = 0;
                while i < mods.len()
                    decreases mods.entries().len() - i,
                {
                    if i > 0 {
                        append_chars(&mut dd, ", ");
                    }
                    append_chars(&mut dd, mods.key_at(i).as_str());
                    append_chars(&mut dd, ": ");
                    put(&mut dd, *mods.value_at(i).value());
                    i = i + 1;
                }
                append_chars(&mut dd, "]");
                push_note(trace, 5, "armor debuffed", string_of(&dd));
            }
            sum
        },
        DamageType::Magic => rating.copied(),
    };
    let ghost t1 = trace@;
    let pen = s.penetration.with_value(s.penetration.value().value());
    let reduced = match less_graded(&debuffed, &pen) {
        Some(v) => v,
        None => return None,
    };
    let armor = reduced.with_value(reduced.value().max_of(Fixed::zero()));
    let mut dp: Vec<char> = Vec::new();
    match s.damage_type {
        DamageType::Physical => append_chars(&mut dp, "armor "),
        DamageType::Magic => append_chars(&mut dp, "magic resistance "),
    }
    put(&mut dp, *debuffed.value());
    append_chars(&mut dp, " − pen ");
    put(&mut dp, *pen.value());
    append_chars(&mut dp, "% → ");
    put(&mut dp, *armor.value());
    push_note(trace, 5, "penetration", string_of(&dp));
    proof {
        lemma_extends_chain(t0, t1, trace@);
    }
    Some(armor)
}

/// Step 6: the reduction curve re-sampled at the penetrated rating, offset
/// and clamped as resolution would have, under the cap in force. `None`
/// when the offset sum leaves the range.
fn resample(
    curve: &Confidence<Curve>,
    def: &DerivedStatDef,
    caps: &IdMap<DerivedStatId, Fixed>,
    armor: &Confidence<Fixed>,
    resolved: &Confidence<Fixed>,
    kind: DamageType,
    trace: &mut Vec<StageNote>,
) -> (r: Option<Confidence<Fixed>>)
    requires
        curve.spec_value().wf(),
        caps.wf(),
    ensures
        r is Some <==> in_micro_range(curve.spec_value().at(armor.spec_value()@) + def.offset@),
        r is Some ==> r->0.spec_value()@ == resampled_pdr(curve.spec_value(), *def, caps.view(), armor.spec_value()@)
            && r->0.spec_level() == min_level(armor.spec_level(), curve.spec_level()),
        extends(old(trace)@, final(trace)@),
        r is Some ==> has_stage(final(trace)@, 6),
{
    proof { lemma_extends_refl(trace@); }
    let sampled = curve.value().sample(*armor.value());
    let mut v = match sampled.checked_plus(def.offset) {
        Some(x) => x,
        None => return None,
    };
    if let Some(floor) = def.floor {
        v = v.max_of(floor);
    }
    let cap = match caps.get(def.id.as_str()) {
        Some(c) => Some(*c),
        None => def.cap,
    };
    if let Some(c) = cap {
        v = v.min_of(c);
    }
    let pdr = armor.join(curve, v);
    let mut d6: Vec<char> = Vec::new();
    put(&mut d6, *resolved.value());
    append_chars(&mut d6, " → ");
    put(&mut d6, *pdr.value());
    append_chars(&mut d6, " re-sampled at the penetrated rating");
    let label: &'static str = match kind {
        DamageType::Physical => "PDR from curve",
        DamageType::Magic => "magical DR from curve",
    };
    push_note(trace, 6, label, string_of(&d6));
    Some(pdr)
}

/// What steps 7 to 9 come to: the damage and the effective reduction.
struct Reduced {
    damage: Confidence<Fixed>,
    effective: Confidence<Fixed>,
}

/// Steps 7 to 9: the PDR Mod layer, the reduction, true damage after it,
/// and the hit location. Gives the damage and the effective reduction;
/// `None` when a value leaves the range.
fn finish(
    with_flat: &Confidence<Fixed>,
    pdr: &Confidence<Fixed>,
    s: &Strike,
    c: &ExchangeContext,
    trace: &mut Vec<StageNote>,
) -> (r: Option<Reduced>)
    ensures
        r is Some <==> finish_fits(
            with_flat.spec_value()@,
            pdr.spec_value()@,
            c.pdr_mod.spec_value()@,
            s.true_damage.spec_value()@,
            c.hit_location_bonus.spec_value()@,
        ),
        r is Some ==> r->0.effective.spec_value()@ == with_percent(pdr.spec_value()@, c.pdr_mod.spec_value()@)
            && r->0.effective.spec_level() == min_level(pdr.spec_level(), c.pdr_mod.spec_level()),
        r is Some ==> r->0.damage.spec_value()@ == after_reduction(
            with_flat.spec_value()@,
            with_percent(pdr.spec_value()@, c.pdr_mod.spec_value()@),
            s.true_damage.spec_value()@,
            c.hit_location_bonus.spec_value()@,
        ),
        r is Some ==> r->0.damage.spec_level() == min_level(
            min_level(min_level(with_flat.spec_level(), r->0.effective.spec_level()), s.true_damage.spec_level()),
            c.hit_location_bonus.spec_level(),
        ),
        extends(old(trace)@, final(trace)@),
        r is Some ==> has_stage(final(trace)@, 7) && has_stage(final(trace)@, 8) && has_stage(final(trace)@, 9),
{
    let ghost t0 = trace@;
    proof { lemma_extends_refl(t0); }
    // The mod multiplies the PDR, producing an effective PDR that reduces
    // damage once.
    let m = c.pdr_mod.with_value(c.pdr_mod.value().value());
    let eff = match percent_graded(pdr, &m) {
        Some(v) => v,
        None => return None,
    };
    let reduced = match less_graded(with_flat, &eff) {
        Some(v) => v,
        None => return None,
    };
    let mut d7: Vec<char> = Vec::new();
    append_chars(&mut d7, "PDR mod ");
    put(&mut d7, *m.value());
    append_chars(&mut d7, "% → effective PDR ");
    put(&mut d7, *eff.value());
    append_chars(&mut d7, "% → ");
    put(&mut d7, *reduced.value());
    let label: &'static str = match s.damage_type {
        DamageType::Physical => "PDR mod",
        DamageType::Magic => "magical DR mod",
    };
    push_note(trace, 7, label, string_of(&d7));
    let ghost t7 = trace@;

    // True damage bypasses the armour chain, so it joins only once the
    // reduction is done.
    let t = s.true_damage.with_value(s.true_damage.value().value());
    let with_true = match plus_graded(&reduced, &t) {
        Some(v) => v,
        None => return None,
    };
    let mut d8: Vec<char> = Vec::new();
    put_signed(&mut d8, *t.value());
    append_chars(&mut d8, " (bypasses the reduction) → ");
    put(&mut d8, *with_true.value());
    push_note(trace, 8, "true damage", string_of(&d8));
    let ghost t8 = trace@;
    proof { lemma_extends_chain(t0, t7, t8); }

    let fin = match percent_graded(&with_true, &c.hit_location_bonus) {
        Some(v) => v,
        None => return None,
    };
    let mut d9: Vec<char> = Vec::new();
    append_chars(&mut d9, "× (100");
    put_signed(&mut d9, *c.hit_location_bonus.value());
    append_chars(&mut d9, ")% → ");
    put(&mut d9, *fin.value());
    push_note(trace, 9, "hit location", string_of(&d9));
    proof {
        lemma_extends_chain(t0, t7, t8);
        lemma_extends_chain(t0, t8, trace@);
        lemma_extends_chain(t7, t8, trace@);
        lemma_stage_kept(t7, trace@, 7);
        lemma_stage_kept(t8, trace@, 8);
    }
    Some(Reduced { damage: fin, effective: eff })
}


/// A whole count of units multiplies exactly.
proof fn lemma_times_whole(t: int, h: int)
    ensures
        mul_div_spec(t, h * SCALE, SCALE as int) == t * h,
{
    assert(t * (h * SCALE) == SCALE * (t * h)) by (nonlinear_arith);
    vstd::arithmetic::div_mod::lemma_div_multiples_vanish(t * h, SCALE as int);
    vstd::arithmetic::div_mod::lemma_mod_multiples_basic(t * h, SCALE as int);
    assert((t * h) * SCALE == SCALE * (t * h)) by (nonlinear_arith);
}

/// The walk ends no earlier than it starts and no later than the lap.
proof fn lemma_reach_bounds(per: Seq<int>, start: int, health: int, j: int)
    requires
        0 <= j <= per.len(),
    ensures
        j <= reach(per, start, health, j) <= per.len(),
    decreases per.len() - j,
{
    if j < per.len() && start + int_sum(per.subrange(0, j)) < health {
        lemma_reach_bounds(per, start, health, j + 1);
    }
}

/// How many swings of a repeating chain cover `health`, each swing
/// dealing its own damage: whole laps by division rather than by walking
/// them, then the swings of one more lap. `Ok(None)` when a whole lap takes
/// nothing off: such a chain does not kill eventually, it does not kill.
fn chain_count_of(per: &Vec<Fixed>, health: Fixed) -> (r: Result<Option<i64>, ExchangeError>)
    ensures
        ({
            let vals = micros(per@);
            &&& chain_count_fits(vals, health@) ==> r is Ok
                && (r->Ok_0 is Some <==> chain_count(vals, health@) is Some)
                && (r->Ok_0 is Some ==> r->Ok_0->0 == chain_count(vals, health@)->0)
            &&& !chain_count_fits(vals, health@) ==> r matches Err(ExchangeError::OutOfRange)
        }),
{
    let ghost vals = micros(per@);
    // The cycle is checked whole, so a chain that only lands on its last
    // blow still counts.
    let mut cycle = Fixed::zero();
    let mut i: usize = 0;
    proof {
        assert(vals.subrange(0, 0) =~= Seq::<int>::empty());
    }
    while i < per.len()
        invariant
            i <= per@.len(),
            vals == micros(per@),
            cycle@ == int_sum(vals.subrange(0, i as int)),
            forall|k: int| 0 <= k <= i ==> in_micro_range(#[trigger] int_sum(vals.subrange(0, k))),
        decreases per@.len() - i,
    {
        proof {
            assert(vals.subrange(0, i + 1).drop_last() =~= vals.subrange(0, i as int));
        }
        cycle = match cycle.checked_plus(per[i]) {
            Some(x) => x,
            None => {
                proof {
                    assert(vals[i as int] == per@[i as int]@);
                    assert(!in_micro_range(int_sum(vals.subrange(0, i + 1))));
                }
                return Err(ExchangeError::OutOfRange);
            },
        };
        proof {
            crate::fixed::lemma_fixed_view(cycle, cycle);
            assert forall|k: int| 0 <= k <= i + 1 implies in_micro_range(#[trigger] int_sum(vals.subrange(0, k))) by {
                if k == i + 1 {
                    assert(int_sum(vals.subrange(0, k)) == cycle@);
                }
            }
        }
        i = i + 1;
    }
    proof {
        assert(vals.subrange(0, vals.len() as int) =~= vals);
    }
    if cycle.micro() <= 0 {
        return Ok(None);
    }
    let laps = cycle.whole_multiples_in(health).unwrap();
    let laps_micro = match laps.checked_mul(SCALE) {
        Some(x) => x,
        None => return Err(ExchangeError::OutOfRange),
    };
    let start = match cycle.checked_mul_div_half_even(Fixed::from_micro(laps_micro), Fixed::one()) {
        Some(x) => x,
        None => {
            proof { lemma_times_whole(cycle@, laps as int); }
            return Err(ExchangeError::OutOfRange);
        },
    };
    proof {
        lemma_times_whole(cycle@, laps as int);
        lemma_reach_bounds(vals, start@, health@, 0);
        assert(vals.subrange(0, 0) =~= Seq::<int>::empty());
    }
    let per_lap: i64 = if per.len() as u64 > 9_223_372_036_854_775_807u64 {
        i64::MAX
    } else {
        per.len() as i64
    };
    let mut swings: i64 = match laps.checked_mul(per_lap) {
        Some(x) => x,
        None => i64::MAX,
    };
    let ghost base: int = laps * per_lap;
    proof {
        assert(laps >= 0);
        assert(base >= 0) by (nonlinear_arith)
            requires laps >= 0, per_lap >= 0, base == laps * per_lap;
        assert(per_lap == lap_len(vals.len() as int));
        assert(int_sum(vals) == cycle@);
    }
    let mut dealt = start;
    let mut j: usize = 0;
    while j < per.len()
        invariant_except_break
            j <= per@.len(),
            vals == micros(per@),
            dealt@ == start@ + int_sum(vals.subrange(0, j as int)),
            reach(vals, start@, health@, 0) == reach(vals, start@, health@, j as int),
            swings == (if base + j > i64::MAX { i64::MAX as int } else { base + j }),
            base >= 0,
            forall|k: int| 0 <= k <= j ==> in_micro_range(start@ + #[trigger] int_sum(vals.subrange(0, k))),
            int_sum(vals) == cycle@,
            cycle@ > 0,
            laps == laps_of(cycle@, health@),
            start@ == cycle@ * laps,
            in_micro_range(laps * SCALE),
        ensures
            forall|k: int| 0 <= k <= j ==> in_micro_range(start@ + #[trigger] int_sum(vals.subrange(0, k))),
            j <= per@.len(),
            j == reach(vals, start@, health@, 0),
            swings == (if base + j > i64::MAX { i64::MAX as int } else { base + j }),
        decreases per@.len() - j,
    {
        if dealt.micro() >= health.micro() {
            break;
        }
        proof {
            lemma_reach_bounds(vals, start@, health@, j as int + 1);
            assert(vals.subrange(0, j + 1).drop_last() =~= vals.subrange(0, j as int));
        }
        dealt = match dealt.checked_plus(per[j]) {
            Some(x) => x,
            None => {
                proof {
                    assert(vals[j as int] == per@[j as int]@);
                    assert(reach(vals, start@, health@, j as int) == reach(vals, start@, health@, j as int + 1));
                    assert(!in_micro_range(start@ + int_sum(vals.subrange(0, j + 1))));
                    assert(j + 1 <= reach(vals, start@, health@, 0));
                    assert(!chain_count_fits(vals, health@));
                }
                return Err(ExchangeError::OutOfRange);
            },
        };
        swings = if swings == i64::MAX { i64::MAX } else { swings + 1 };
        proof {
            crate::fixed::lemma_fixed_view(dealt, dealt);
            assert(vals[j as int] == per@[j as int]@);
        }
        j = j + 1;
    }
    proof {
        let n = laps * lap_len(vals.len() as int) + reach(vals, start@, health@, 0);
        assert(n == base + j);
        assert(chain_count(vals, health@) == Some(if n > i64::MAX { i64::MAX as int } else { n }));
    }
    Ok(Some(swings))
}

/// With distinct ids, the definition found carrying an id is the one the
/// model names.
proof fn lemma_def_with(defs: Seq<DerivedStatDef>, id: Seq<char>, i: int)
    requires
        distinct_ids(defs),
        0 <= i < defs.len(),
        defs[i].id@ == id,
    ensures
        def_with(defs, id) == defs[i],
{
    assert(defs[i].id@ == id);
    let j = choose|j: int| 0 <= j < defs.len() && (#[trigger] defs[j]).id@ == id;
    assert(0 <= j < defs.len() && defs[j].id@ == id);
    if j < i {
        assert(defs[j].id@ != defs[i].id@);
    } else if i < j {
        assert(defs[i].id@ != defs[j].id@);
    }
}

/// One damage exchange: attacker, defender, strike, context, and the
/// dataset both combatants were resolved against. The defender's reduction
/// curve is re-sampled at the penetrated rating, and that curve lives in
/// the dataset. The exchange owns nothing and changes nothing.
pub struct Exchange<'a> {
    attacker: &'a Resolved,
    defender: &'a Resolved,
    strike: &'a Strike,
    context: &'a ExchangeContext,
    data: &'a InMemoryDataset,
}

/// What one swing came to: the nine steps' output, before anything asks
/// how many of them a fight takes.
struct Swing {
    damage: Confidence<Damage>,
    effective_pdr: Confidence<EffectivePdr>,
    trace: Vec<StageNote>,
}

impl<'a> Exchange<'a> {
    /// The attacker's resolved block.
    pub closed spec fn attacker_view(&self) -> Resolved {
        *self.attacker
    }

    /// The defender's resolved block.
    pub closed spec fn defender_view(&self) -> Resolved {
        *self.defender
    }

    /// The strike being made.
    pub closed spec fn strike_view(&self) -> Strike {
        *self.strike
    }

    /// The circumstances.
    pub closed spec fn context_view(&self) -> ExchangeContext {
        *self.context
    }

    /// The dataset.
    pub closed spec fn data_view(&self) -> InMemoryDataset {
        *self.data
    }

    /// The inputs are well formed: a well-formed dataset, and stat, cap and
    /// debuff tables in key order.
    pub open spec fn valid(&self) -> bool {
        &&& self.data_view().wf()
        &&& self.attacker_view().derived.wf()
        &&& self.defender_view().derived.wf()
        &&& self.defender_view().caps.wf()
        &&& self.context_view().item_armor_bonus_mods.wf()
    }

    /// Builds an exchange from two resolved stat blocks, a strike, a context
    /// and the dataset both combatants were resolved against.
    pub fn new(
        attacker: &'a Resolved,
        defender: &'a Resolved,
        strike: &'a Strike,
        context: &'a ExchangeContext,
        data: &'a InMemoryDataset,
    ) -> (r: Exchange<'a>)
        ensures
            r.attacker_view() == *attacker,
            r.defender_view() == *defender,
            r.strike_view() == *strike,
            r.context_view() == *context,
            r.data_view() == *data,
    {
        Exchange { attacker, defender, strike, context, data }
    }

    /// Runs the nine steps in the locked order for one swing at a scaling
    /// coefficient: the strike's own, or one swing of its weapon's chain.
    fn steps(&self, scaling: &Confidence<Fixed>) -> (r: Result<Swing, ExchangeError>)
        requires
            self.valid(),
        ensures
            ({
                let (a, d, s, c, data) = (self.attacker_view(), self.defender_view(), self.strike_view(), self.context_view(), self.data_view());
                match r {
                    Ok(sw) => {
                        &&& ready(a, d, s, data)
                        &&& swing_fits(a, d, s, c, data, scaling.spec_value()@)
                        &&& sw.damage.spec_value()@ == swing_value(a, d, s, c, data, scaling.spec_value()@)
                        &&& sw.damage.spec_level() == swing_level(a, d, s, c, data, scaling.spec_level())
                        &&& sw.effective_pdr.spec_value()@ == effective_value(d, s, c, data)
                        &&& sw.effective_pdr.spec_level() == effective_level(d, s, c, data)
                        &&& forall|st: u8| 1 <= st <= 9 ==> #[trigger] has_stage(sw.trace@, st)
                    },
                    Err(e) => if ready(a, d, s, data) {
                        e is OutOfRange && !swing_fits(a, d, s, c, data, scaling.spec_value()@)
                    } else {
                        first_error(a, d, s, data, e)
                    },
                }
            }),
    {
        let a = self.attacker;
        let d = self.defender;
        let s = self.strike;
        let c = self.context;
        let data = self.data;
        let build = data.build();
        // A dataset from another build would silently use another patch's
        // curves.
        if !str_eq(a.build.as_str(), build) {
            return Err(ExchangeError::DatasetMismatch { resolved_against: crate::text::owned(a.build.as_str()), given: crate::text::owned(build) });
        }
        if !str_eq(d.build.as_str(), build) {
            return Err(ExchangeError::DatasetMismatch { resolved_against: crate::text::owned(d.build.as_str()), given: crate::text::owned(build) });
        }
        let kind = s.damage_type;
        if a.stat(kind.power_bonus()).is_none() {
            return Err(ExchangeError::MissingStat(DerivedStatId::new(kind.power_bonus())));
        }
        if d.stat(kind.rating()).is_none() {
            return Err(ExchangeError::MissingStat(DerivedStatId::new(kind.rating())));
        }
        if d.stat(kind.reduction()).is_none() {
            return Err(ExchangeError::MissingStat(DerivedStatId::new(kind.reduction())));
        }
        let class = match data.class(&d.class) {
            Some(x) => x,
            None => return Err(ExchangeError::UnknownClass(d.class.clone())),
        };
        let idx = match crate::derived::find_def(&class.derived, kind.reduction()) {
            Some(i) => i,
            None => return Err(ExchangeError::NoPdrDefinition(d.class.clone())),
        };
        let def = &class.derived[idx];
        proof {
            lemma_def_with(class.derived@, reduction_of(kind), idx as int);
        }
        let curve = match data.curve(&def.curve) {
            Some(x) => x,
            None => return Err(ExchangeError::UnknownCurve(def.curve.clone())),
        };
        assert(ready(*a, *d, *s, *data));

        // Each read picks up the gates that fire for this swing, at the step
        // that uses it.
        let mut trace: Vec<StageNote> = Vec::new();
        let power = match read_gated(a, &s.tags, kind.power_bonus(), 3, &mut trace) {
            Some(v) => v,
            None => return Err(ExchangeError::OutOfRange),
        };
        let rating = match read_gated(d, &s.tags, kind.rating(), 5, &mut trace) {
            Some(v) => v,
            None => return Err(ExchangeError::OutOfRange),
        };
        let reduction = match read_gated(d, &s.tags, kind.reduction(), 6, &mut trace) {
            Some(v) => v,
            None => return Err(ExchangeError::OutOfRange),
        };
        let ghost t0 = trace@;
        let with_flat = match offence(s, scaling, &power, c, &mut trace) {
            Some(v) => v,
            None => return Err(ExchangeError::OutOfRange),
        };
        let ghost t1 = trace@;
        let armor = match defence(d, s, c, &rating, &mut trace) {
            Some(v) => v,
            None => return Err(ExchangeError::OutOfRange),
        };
        let ghost t2 = trace@;
        let pdr = match resample(curve, def, &d.caps, &armor, &reduction, kind, &mut trace) {
            Some(v) => v,
            None => return Err(ExchangeError::OutOfRange),
        };
        let ghost t3 = trace@;
        let reduced = match finish(&with_flat, &pdr, s, c, &mut trace) {
            Some(v) => v,
            None => return Err(ExchangeError::OutOfRange),
        };
        proof {
            lemma_extends_chain(t1, t2, t3);
            lemma_extends_chain(t1, t3, trace@);
            lemma_extends_chain(t2, t3, trace@);
            assert forall|st: u8| 1 <= st <= 9 implies #[trigger] has_stage(trace@, st) by {
                if st <= 4 {
                    lemma_stage_kept(t1, trace@, st);
                } else if st == 5 {
                    lemma_stage_kept(t2, trace@, st);
                } else if st == 6 {
                    lemma_stage_kept(t3, trace@, st);
                }
            }
        }
        Ok(Swing {
            damage: reduced.damage.with_value(Damage::new(*reduced.damage.value())),
            effective_pdr: reduced.effective.with_value(EffectivePdr::new(*reduced.effective.value())),
            trace,
        })
    }
}


impl<'a> Exchange<'a> {
    /// How long `hits` swings take, when the weapon's swing time and the
    /// attacker's action speed are known. Action speed divides: at +100% a
    /// swing takes half the time.
    fn time_for(&self, hits: i64) -> (r: Result<Option<Confidence<Fixed>>, ExchangeError>)
        requires
            self.valid(),
        ensures
            ({
                let (a, s, data) = (self.attacker_view(), self.strike_view(), self.data_view());
                &&& time_ok(a, s, data, Some(hits as int)) ==> r is Ok
                    && graded_opt_is(r->Ok_0, time_spec(a, s, data, Some(hits as int)))
                &&& !time_ok(a, s, data, Some(hits as int)) ==> (r is Err && r->Err_0 is OutOfRange)
            }),
    {
        let a = self.attacker;
        let s = self.strike;
        let data = self.data;
        let w = match &s.weapon {
            Some(w) => w,
            None => return Ok(None),
        };
        let item = match data.item(w) {
            Some(i) => i,
            None => return Ok(None),
        };
        let profile = match &item.weapon {
            Some(p) => p,
            None => return Ok(None),
        };
        let swing = match &profile.swing_time {
            Some(t) => t,
            None => return Ok(None),
        };
        let speed = match a.stat(well_known::ACTION_SPEED) {
            Some(v) => v,
            None => return Ok(None),
        };
        let ghost t = swing.spec_value()@;
        let count = match hits.checked_mul(SCALE) {
            Some(x) => x,
            None => return Err(ExchangeError::OutOfRange),
        };
        proof {
            lemma_times_whole(t, hits as int);
        }
        let total = match swing.value().checked_mul_div_half_even(Fixed::from_micro(count), Fixed::one()) {
            Some(x) => x,
            None => return Err(ExchangeError::OutOfRange),
        };
        let p = percent_scale();
        let den = match p.checked_plus(*speed.value()) {
            Some(x) => x,
            None => return Err(ExchangeError::OutOfRange),
        };
        if den.is_zero() {
            return Err(ExchangeError::OutOfRange);
        }
        let v = match total.checked_mul_div_half_even(p, den) {
            Some(x) => x,
            None => return Err(ExchangeError::OutOfRange),
        };
        Ok(Some(swing.join(speed, v)))
    }

    /// How many swings of the weapon's own chain it takes to cover
    /// `health`: `None` when this is not the weapon simply swinging, when
    /// the weapon has no chain recorded, or when the chain cannot kill.
    /// Each swing runs its own nine steps, since they differ in scaling and
    /// the flat bonus is added after the multiply. The chain repeats.
    fn chain_to_kill(&self, health: Fixed) -> (r: Result<Option<i64>, ExchangeError>)
        requires
            self.valid(),
            ready(self.attacker_view(), self.defender_view(), self.strike_view(), self.data_view()),
        ensures
            ({
                let (a, d, s, c, data) = (self.attacker_view(), self.defender_view(), self.strike_view(), self.context_view(), self.data_view());
                &&& !chained(s, data) ==> (r is Ok && r->Ok_0 is None)
                &&& chained(s, data) && chain_swings_fit(a, d, s, c, data) && chain_count_fits(chain_values(a, d, s, c, data), health@)
                    ==> r is Ok && opt_is(r->Ok_0, chain_count(chain_values(a, d, s, c, data), health@))
                &&& chained(s, data) && !(chain_swings_fit(a, d, s, c, data) && chain_count_fits(chain_values(a, d, s, c, data), health@))
                    ==> (r is Err && r->Err_0 is OutOfRange)
            }),
    {
        let s = self.strike;
        let data = self.data;
        if s.pinned {
            return Ok(None);
        }
        let w = match &s.weapon {
            Some(w) => w,
            None => return Ok(None),
        };
        let item = match data.item(w) {
            Some(i) => i,
            None => return Ok(None),
        };
        let profile = match &item.weapon {
            Some(p) => p,
            None => return Ok(None),
        };
        let combo = &profile.combo;
        if combo.len() == 0 {
            return Ok(None);
        }
        let ghost (a, d, c) = (self.attacker_view(), self.defender_view(), self.context_view());
        let mut per: Vec<Fixed> = Vec::new();
        let mut i: usize = 0;
        while i < combo.len()
            invariant
                i <= combo@.len(),
                self.valid(),
                ready(a, d, *s, *data),
                a == self.attacker_view() && d == self.defender_view() && c == self.context_view(),
                *s == self.strike_view() && *data == self.data_view(),
                combo@ == weapon_of(*s, *data)->0.combo@,
                !s.pinned,
                weapon_of(*s, *data) is Some,
                micros(per@) == swings_of(a, d, *s, c, *data, combo@, i as int),
                forall|k: int| 0 <= k < i ==> swing_fits(a, d, *s, c, *data, (#[trigger] combo@[k]).scaling.spec_value()@),
            decreases combo@.len() - i,
        {
            let sw = match self.steps(&combo[i].scaling) {
                Ok(sw) => sw,
                Err(e) => {
                    proof {
                        assert(!swing_fits(a, d, *s, c, *data, combo@[i as int].scaling.spec_value()@));
                        assert(weapon_of(*s, *data)->0.combo@[i as int] == combo@[i as int]);
                        assert(!chain_swings_fit(a, d, *s, c, *data));
                        assert(e is OutOfRange);
                        assert(chained(*s, *data));
                    }
                    return Err(e);
                },
            };
            let ghost before = per@;
            let v = sw.damage.value().value();
            per.push(v);
            proof {
                assert(per@ == before.push(v));
                assert(v@ == swing_value(a, d, *s, c, *data, combo@[i as int].scaling.spec_value()@));
                let want = swings_of(a, d, *s, c, *data, combo@, i + 1);
                let had = swings_of(a, d, *s, c, *data, combo@, i as int);
                let got = micros(per@);
                assert(micros(before).len() == before.len());
                assert(before.len() == i);
                assert forall|k: int| 0 <= k < i + 1 implies #[trigger] got[k] == want[k] by {
                    if k < i {
                        assert(micros(before)[k] == had[k]);
                        assert(per@[k] == before[k]);
                    }
                }
                assert(got =~= want);
            }
            i = i + 1;
        }
        proof {
            assert(micros(per@) =~= chain_values(a, d, *s, c, *data));
        }
        chain_count_of(&per, health)
    }

    /// Runs the nine steps, then answers the question a player is asking:
    /// how many of these, and how long. Health is not required to compute
    /// damage: without it the fight is simply not askable.
    pub fn damage(&self) -> (r: Result<ExchangeOutcome, ExchangeError>)
        requires
            self.valid(),
        ensures
            damage_outcome(self.attacker_view(), self.defender_view(), self.strike_view(), self.context_view(), self.data_view(), r),
    {
        let d = self.defender;
        let s = self.strike;
        let scaling = s.scaling.with_value(s.scaling.value().value());
        let sw = match self.steps(&scaling) {
            Ok(sw) => sw,
            Err(e) => return Err(e),
        };
        let Swing { damage: final_damage, effective_pdr, trace: mut trace } = sw;
        let dealt = final_damage.value().value();
        let health: Option<Fixed> = match d.stat(well_known::HEALTH) {
            Some(h) => Some(*h.value()),
            None => None,
        };
        let hits = match health {
            Some(h) => dealt.hits_to_cover(h),
            None => None,
        };
        let time = match hits {
            Some(n) => match self.time_for(n) {
                Ok(t) => t,
                Err(e) => return Err(e),
            },
            None => None,
        };
        // The same fight with the weapon doing what it actually does: a
        // chained weapon never lands the same blow twice in a row.
        let chain = match health {
            Some(h) => match self.chain_to_kill(h) {
                Ok(x) => x,
                Err(e) => return Err(e),
            },
            None => None,
        };
        let chain_time = match chain {
            Some(n) => match self.time_for(n) {
                Ok(t) => t,
                Err(e) => return Err(e),
            },
            None => None,
        };
        let ghost t0 = trace@;
        if let (Some(n), Some(h)) = (hits, health) {
            let mut dh: Vec<char> = Vec::new();
            put(&mut dh, h);
            append_chars(&mut dh, " health ÷ ");
            put(&mut dh, dealt);
            append_chars(&mut dh, " → ");
            crate::fixed::push_int(n, &mut dh);
            match &time {
                Some(t) => {
                    append_chars(&mut dh, " hit(s), ");
                    put(&mut dh, *t.value());
                    append_chars(&mut dh, "s");
                },
                None => {
                    append_chars(&mut dh, " hit(s); no swing time for this weapon, so how long that takes is unknown");
                },
            }
            push_note(&mut trace, 9, "hits to kill", string_of(&dh));
        }
        let ghost t1 = trace@;
        if let Some(n) = chain {
            let mut dc: Vec<char> = Vec::new();
            append_chars(&mut dc, "running the weapon's chain: ");
            crate::fixed::push_int(n, &mut dc);
            append_chars(&mut dc, " swing(s)");
            if let Some(t) = &chain_time {
                append_chars(&mut dc, ", ");
                put(&mut dc, *t.value());
                append_chars(&mut dc, "s");
            }
            push_note(&mut trace, 9, "swings to kill", string_of(&dc));
        }
        proof {
            lemma_extends_refl(t0);
            lemma_extends_refl(t1);
            assert(extends(t0, t1));
            assert(extends(t1, trace@));
            lemma_extends_chain(t0, t1, trace@);
            assert forall|st: u8| 1 <= st <= 9 implies #[trigger] has_stage(trace@, st) by {
                lemma_stage_kept(t0, trace@, st);
            }
        }
        Ok(ExchangeOutcome {
            damage: final_damage,
            effective_pdr,
            hits_to_kill: hits,
            chain_to_kill: chain,
            chain_time_to_kill: chain_time,
            time_to_kill: time,
            trace,
        })
    }
}

/// Renders an exchange outcome's trace for `--explain`: one line per note,
/// `stage. label: detail`.
pub fn explain(outcome: &ExchangeOutcome) -> (r: String)
    ensures
        r@ == explain_text(outcome.trace@),
{
    let mut out: Vec<char> = Vec::new();
    let notes = &outcome.trace;
    let mut i: usize = 0;
    while i < notes.len()
        invariant
            i <= notes@.len(),
            out@ == explain_text(notes@.subrange(0, i as int)),
        decreases notes@.len() - i,
    {
        let n = &notes[i];
        crate::fixed::push_int(n.stage as i64, &mut out);
        append_chars(&mut out, ". ");
        append_chars(&mut out, n.label);
        append_chars(&mut out, ": ");
        append_chars(&mut out, n.detail.as_str());
        append_chars(&mut out, "\n");
        proof {
            assert(notes@.subrange(0, i + 1).drop_last() =~= notes@.subrange(0, i as int));
            assert(out@ =~= explain_text(notes@.subrange(0, i + 1)));
        }
        i = i + 1;
    }
    proof {
        assert(notes@.subrange(0, notes@.len() as int) =~= notes@);
    }
    string_of(&out)
}


// ── Laws of the damage model ────────────────────────────────────────────

/// A value under a percentage never moves against its input, when the
/// percentage leaves a non-negative factor.
proof fn lemma_with_percent_monotone(v1: int, v2: int, p: int)
    requires
        v1 <= v2,
        hundred() + p >= 0,
    ensures
        with_percent(v1, p) <= with_percent(v2, p),
{
    assert(v1 * (hundred() + p) <= v2 * (hundred() + p)) by (nonlinear_arith)
        requires v1 <= v2, hundred() + p >= 0;
    crate::fixed::law_mul_div_is_monotone(v1, hundred() + p, v2, hundred() + p, hundred());
}

/// More effective reduction never deals more: steps 7 to 9 are antitone in
/// the effective PDR for a non-negative hit and a non-negative hit factor.
proof fn lemma_after_reduction_antitone(damage: int, e1: int, e2: int, t: int, h: int)
    requires
        damage >= 0,
        e1 <= e2,
        hundred() + h >= 0,
    ensures
        after_reduction(damage, e2, t, h) <= after_reduction(damage, e1, t, h),
{
    crate::stats::law_more_reduction_never_deals_more(damage, e1, e2);
    lemma_with_percent_monotone(less_percent(damage, e2) + t, less_percent(damage, e1) + t, h);
}

/// The re-sampled reduction never falls as the rating rises, on a curve
/// whose outputs never fall.
proof fn lemma_resampled_monotone(curve: Curve, def: DerivedStatDef, caps: Map<Seq<char>, Fixed>, x1: int, x2: int)
    requires
        curve.wf(),
        crate::curve::non_decreasing(curve.points_spec()),
        x1 <= x2,
    ensures
        resampled_pdr(curve, def, caps, x1) <= resampled_pdr(curve, def, caps, x2),
{
    crate::curve::law_monotone_points_give_monotone_samples(curve, x1, x2);
}

/// A 0% scaling coefficient leaves only the flat bonus, whatever the power
/// bonus: Sneak Attack is immune to the Hide-exit penalty, and to every
/// other adjustment of step 3.
pub proof fn law_zero_scaling_ignores_power(base: int, power: int, flat: int)
    ensures
        before_reduction(base, 0, power, flat) == flat,
{
    assert(base * 0 == 0);
    assert(0 * (hundred() + power) == 0);
}

/// More penetration never deals less damage: against a non-negative
/// rating and a reduction curve that never falls, with a non-negative hit
/// before reduction and non-negative mod and hit-location factors, the
/// damage at the higher penetration is at least the damage at the lower.
pub proof fn law_more_penetration_never_deals_less(
    curve: Curve,
    def: DerivedStatDef,
    caps: Map<Seq<char>, Fixed>,
    armor: int,
    low: int,
    high: int,
    damage: int,
    pdr_mod: int,
    true_damage: int,
    hit: int,
)
    requires
        curve.wf(),
        crate::curve::non_decreasing(curve.points_spec()),
        armor >= 0,
        low <= high,
        damage >= 0,
        hundred() + pdr_mod >= 0,
        hundred() + hit >= 0,
    ensures
        after_reduction(damage, with_percent(resampled_pdr(curve, def, caps, penetrated(armor, low)), pdr_mod), true_damage, hit)
            <= after_reduction(damage, with_percent(resampled_pdr(curve, def, caps, penetrated(armor, high)), pdr_mod), true_damage, hit),
{
    crate::stats::law_more_penetration_never_raises_armor(armor, low, high);
    lemma_resampled_monotone(curve, def, caps, penetrated(armor, high), penetrated(armor, low));
    lemma_with_percent_monotone(
        resampled_pdr(curve, def, caps, penetrated(armor, high)),
        resampled_pdr(curve, def, caps, penetrated(armor, low)),
        pdr_mod,
    );
    lemma_after_reduction_antitone(
        damage,
        with_percent(resampled_pdr(curve, def, caps, penetrated(armor, high)), pdr_mod),
        with_percent(resampled_pdr(curve, def, caps, penetrated(armor, low)), pdr_mod),
        true_damage,
        hit,
    );
}

/// More penetration never deals less damage, for the attack itself: of two
/// successful attacks by the same combatants in the same context, whose
/// strikes differ only in penetration, the one with more deals at least as
/// much, as long as the rating before penetration is not negative, the
/// reduction curve never falls, the hit before reduction is not negative,
/// and the mod and hit-location factors are not negative.
pub proof fn law_more_penetration_never_deals_less_damage(
    a: Resolved,
    d: Resolved,
    low: Strike,
    high: Strike,
    c: ExchangeContext,
    data: InMemoryDataset,
    weaker: ExchangeOutcome,
    stronger: ExchangeOutcome,
)
    requires
        data.wf(),
        damage_outcome(a, d, low, c, data, Ok(weaker)),
        damage_outcome(a, d, high, c, data, Ok(stronger)),
        high.damage_type == low.damage_type,
        high.base == low.base,
        high.scaling == low.scaling,
        high.flat_bonus == low.flat_bonus,
        high.tags@ == low.tags@,
        high.true_damage == low.true_damage,
        low.penetration.spec_value()@ <= high.penetration.spec_value()@,
        armor_before_pen(d, low, c) >= 0,
        crate::curve::non_decreasing(pdr_curve(d, low, data).spec_value().points_spec()),
        before_reduction(low.base.spec_value()@, low.scaling.spec_value()@, power_value(a, low, c), low.flat_bonus.spec_value()@) >= 0,
        hundred() + c.pdr_mod.spec_value()@ >= 0,
        hundred() + c.hit_location_bonus.spec_value()@ >= 0,
    ensures
        weaker.damage.spec_value()@ <= stronger.damage.spec_value()@,
{
    data.lemma_curve_wf(pdr_def(d, low, data).curve@);
    assert(power_value(a, high, c) == power_value(a, low, c));
    assert(armor_before_pen(d, high, c) == armor_before_pen(d, low, c));
    law_more_penetration_never_deals_less(
        pdr_curve(d, low, data).spec_value(),
        pdr_def(d, low, data),
        d.caps.view(),
        armor_before_pen(d, low, c),
        low.penetration.spec_value()@,
        high.penetration.spec_value()@,
        before_reduction(low.base.spec_value()@, low.scaling.spec_value()@, power_value(a, low, c), low.flat_bonus.spec_value()@),
        c.pdr_mod.spec_value()@,
        low.true_damage.spec_value()@,
        c.hit_location_bonus.spec_value()@,
    );
}

/// A bigger debuff never deals less damage: with a non-negative item
/// bucket, a penetration of at most 100%, a reduction curve that never
/// falls, a non-negative hit before reduction and non-negative mod and
/// hit-location factors, a lower net Item Armor Rating Bonus never lowers
/// the damage.
pub proof fn law_bigger_debuff_never_deals_less(
    curve: Curve,
    def: DerivedStatDef,
    caps: Map<Seq<char>, Fixed>,
    item: int,
    other: int,
    net_low: int,
    net_high: int,
    pen: int,
    damage: int,
    pdr_mod: int,
    true_damage: int,
    hit: int,
)
    requires
        curve.wf(),
        crate::curve::non_decreasing(curve.points_spec()),
        item >= 0,
        net_low <= net_high,
        hundred() - pen >= 0,
        damage >= 0,
        hundred() + pdr_mod >= 0,
        hundred() + hit >= 0,
    ensures
        after_reduction(damage, with_percent(resampled_pdr(curve, def, caps, penetrated(debuffed_armor(item, net_high, other), pen)), pdr_mod), true_damage, hit)
            <= after_reduction(damage, with_percent(resampled_pdr(curve, def, caps, penetrated(debuffed_armor(item, net_low, other), pen)), pdr_mod), true_damage, hit),
{
    let lo = debuffed_armor(item, net_low, other);
    let hi = debuffed_armor(item, net_high, other);
    crate::stats::law_bigger_bonus_never_lowers(item, net_low, net_high);
    assert(lo <= hi);
    assert(lo * (hundred() - pen) <= hi * (hundred() - pen)) by (nonlinear_arith)
        requires lo <= hi, hundred() - pen >= 0;
    crate::fixed::law_mul_div_is_monotone(lo, hundred() - pen, hi, hundred() - pen, hundred());
    assert(penetrated(lo, pen) <= penetrated(hi, pen));
    lemma_resampled_monotone(curve, def, caps, penetrated(lo, pen), penetrated(hi, pen));
    lemma_with_percent_monotone(
        resampled_pdr(curve, def, caps, penetrated(lo, pen)),
        resampled_pdr(curve, def, caps, penetrated(hi, pen)),
        pdr_mod,
    );
    lemma_after_reduction_antitone(
        damage,
        with_percent(resampled_pdr(curve, def, caps, penetrated(lo, pen)), pdr_mod),
        with_percent(resampled_pdr(curve, def, caps, penetrated(hi, pen)), pdr_mod),
        true_damage,
        hit,
    );
}

/// Confidence degrades through the exchange: a swing's damage is never
/// graded above its base, its scaling, its flat bonus, its true damage, the
/// curve it was reduced by, or any circumstance of the context.
pub proof fn law_exchange_never_raises_a_grade(
    a: Resolved,
    d: Resolved,
    s: Strike,
    c: ExchangeContext,
    data: InMemoryDataset,
    scaling: ConfidenceLevel,
)
    ensures
        ({
            let r = crate::confidence::level_rank(swing_level(a, d, s, c, data, scaling));
            &&& r <= crate::confidence::level_rank(scaling)
            &&& r <= crate::confidence::level_rank(s.base.spec_level())
            &&& r <= crate::confidence::level_rank(s.flat_bonus.spec_level())
            &&& r <= crate::confidence::level_rank(s.penetration.spec_level())
            &&& r <= crate::confidence::level_rank(s.true_damage.spec_level())
            &&& r <= crate::confidence::level_rank(pdr_curve(d, s, data).spec_level())
            &&& r <= crate::confidence::level_rank(c.power_bonus_adjust.spec_level())
            &&& r <= crate::confidence::level_rank(c.pdr_mod.spec_level())
            &&& r <= crate::confidence::level_rank(c.hit_location_bonus.spec_level())
        }),
{
}


/// Rounding by two divisors: a dividend rounds to no more under the larger
/// one.
proof fn lemma_rounding_shrinks_with_the_divisor(n: int, d1: int, d2: int)
    requires
        n >= 0,
        0 < d1 <= d2,
    ensures
        crate::fixed::round_half_even(n, d2) <= crate::fixed::round_half_even(n, d1),
{
    let r1 = crate::fixed::round_half_even(n, d1);
    let r2 = crate::fixed::round_half_even(n, d2);
    crate::fixed::law_rounding_error_at_most_half(n, d1);
    crate::fixed::law_rounding_error_at_most_half(n, d2);
    if d1 < d2 && r2 > r1 {
        assert(2 * n <= d1 * (2 * r1 + 1)) by (nonlinear_arith)
            requires 2 * crate::fixed::abs(n - d1 * r1) <= d1;
        assert(2 * n >= d2 * (2 * r2 - 1)) by (nonlinear_arith)
            requires 2 * crate::fixed::abs(n - d2 * r2) <= d2;
        assert(r1 >= 0) by (nonlinear_arith)
            requires 2 * n <= d1 * (2 * r1 + 1), n >= 0, d1 > 0;
        assert(false) by (nonlinear_arith)
            requires
                2 * n <= d1 * (2 * r1 + 1),
                2 * n >= d2 * (2 * r2 - 1),
                r2 >= r1 + 1,
                r1 >= 0,
                0 < d1 < d2;
    }
}

/// **Action speed divides the time to kill.** For a fixed number of hits
/// of a fixed swing time: the time at action speed `speed`, times
/// `100 + speed` percent, is the zero-speed time `swing × hits` to within
/// half a step of rounding; a faster attacker never takes longer; and at
/// +100% the time is half the zero-speed time (to within one micro-unit
/// of rounding).
pub proof fn law_action_speed_divides_the_time(t: int, hits: int, slow: int, fast: int)
    requires
        t >= 0,
        hits >= 0,
        hundred() + slow > 0,
        slow <= fast,
    ensures
        2 * crate::fixed::abs(time_value(t, hits, slow) * (hundred() + slow) - t * hits * hundred()) <= hundred() + slow,
        time_value(t, hits, fast) <= time_value(t, hits, slow),
        time_value(t, hits, 0) == t * hits,
        crate::fixed::abs(2 * time_value(t, hits, hundred()) - time_value(t, hits, 0)) <= 1,
{
    let th = t * hits;
    assert(t * hits >= 0) by (nonlinear_arith) requires t >= 0, hits >= 0;
    let n = th * hundred();
    assert(th * hundred() >= 0) by (nonlinear_arith) requires th >= 0, hundred() == 100000000;
    crate::fixed::law_rounding_error_at_most_half(n, hundred() + slow);
    assert(time_value(t, hits, slow) * (hundred() + slow) == (hundred() + slow) * time_value(t, hits, slow)) by (nonlinear_arith);
    lemma_rounding_shrinks_with_the_divisor(n, hundred() + slow, hundred() + fast);
    // At zero speed the division is exact.
    vstd::arithmetic::div_mod::lemma_fundamental_div_mod(n, hundred());
    vstd::arithmetic::div_mod::lemma_div_multiples_vanish(th, hundred());
    assert(n / hundred() == th) by {
        assert(n == hundred() * th) by (nonlinear_arith) requires n == th * hundred();
    }
    vstd::arithmetic::div_mod::lemma_mod_multiples_basic(th, hundred());
    assert(n % hundred() == 0);
    assert(time_value(t, hits, 0) == th);
    // At +100% the divisor is twice the hundred.
    let h2 = crate::fixed::round_half_even(n, 2 * hundred());
    crate::fixed::law_rounding_error_at_most_half(n, 2 * hundred());
    assert(time_value(t, hits, hundred()) == h2);
    assert(crate::fixed::abs(2 * h2 - th) <= 1) by (nonlinear_arith)
        requires
            2 * crate::fixed::abs(n - (2 * hundred()) * h2) <= 2 * hundred(),
            n == th * hundred(),
            hundred() == 100000000;
}
} // verus!
