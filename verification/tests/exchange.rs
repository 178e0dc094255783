use assay::canonical::{canonical_exchange, canonical_statblock};
use assay::confidence::{Confidence, ConfidenceLevel};
use assay::curve::Curve;
use assay::derived::{DerivedStatDef, RatingInput};
use assay::exchange::{explain, Exchange, ExchangeContext, ExchangeError, ExchangeOutcome, Strike};
use assay::ids::{AbilityId, ClassId, CurveId, DerivedStatId, ItemId, PerkId};
use assay::loadout::{GearPiece, Loadout, PartyBuffs, Roll, Slot, Weapons};
use assay::resolve::{resolve, Resolved};
use assay::schema::{AttributeBlock, AttributeKind, ClassDef, ComboHit, Effect, InMemoryDataset, ItemDef, PerkDef, StackedEffect, WeaponProfile};
use assay::stats::{ArmorPen, Damage, DamageTag, DamageType, PdrMod, ScalingCoefficient, TrueDamage};
use assay::table::IdMap;
use assay::well_known;
use assay::Fixed;

const BUILD: &str = "test.build";

fn fx(units: i64) -> Fixed {
    Fixed::from_int(units)
}

fn pdr_curve() -> Curve {
    Curve::linear(vec![(fx(0), fx(-20)), (fx(100), fx(30)), (fx(400), fx(90))]).unwrap()
}

fn grants(stat: &str, value: i64) -> IdMap<DerivedStatId, Confidence<Fixed>> {
    let mut m = IdMap::new();
    m.insert(DerivedStatId::new(stat), Confidence::Verified(fx(value)));
    m
}

fn dataset() -> InMemoryDataset {
    let mut data = InMemoryDataset::new(BUILD);
    data.insert_class(ClassDef {
        id: ClassId::new("class.test"),
        name: "Test".to_string(),
        base_attributes: Confidence::Verified(AttributeBlock::default()),
        derived: vec![
            DerivedStatDef {
                id: DerivedStatId::new(well_known::PDR),
                weights: vec![(RatingInput::Derived(DerivedStatId::new(well_known::ARMOR_RATING)), Fixed::one())],
                curve: CurveId::new("curve.pdr"),
                offset: Fixed::zero(),
                floor: None,
                cap: Some(fx(60)),
            },
            DerivedStatDef {
                id: DerivedStatId::new(well_known::PHYSICAL_POWER_BONUS),
                weights: vec![(RatingInput::Attribute(AttributeKind::Strength), Fixed::one())],
                curve: CurveId::new("curve.flat"),
                offset: Fixed::zero(),
                floor: None,
                cap: None,
            },
        ],
    });
    data.insert_curve(CurveId::new("curve.pdr"), Confidence::Verified(pdr_curve()));
    data.insert_curve(
        CurveId::new("curve.flat"),
        Confidence::Verified(Curve::linear(vec![(fx(0), fx(0)), (fx(100), fx(0))]).unwrap()),
    );
    data.insert_perk(PerkDef {
        id: PerkId::new("perk.test.mastery"),
        name: "Test Mastery".to_string(),
        required_classes: Vec::new(),
        effects: vec![StackedEffect::once(Confidence::Verified(Effect::ItemArmorBonus(fx(15))))],
    });
    for rating in [0i64, 40, 150, 200, 250] {
        let mut item = ItemDef::plain(ItemId::new(&format!("item.armor_{rating}")), &format!("Armor {rating}"));
        item.grants = grants(well_known::ARMOR_RATING, rating);
        data.insert_item(item);
    }
    data
}

fn loadout(name: &str, perks: Vec<PerkId>, gear: Vec<GearPiece>) -> Loadout {
    Loadout {
        name: name.to_string(),
        class: ClassId::new("class.test"),
        perks,
        skills: vec![],
        gear,
        weapons: Weapons { main_hand: None },
        stacks: IdMap::new(),
        party: PartyBuffs::none(),
    }
}

fn combatant(data: &InMemoryDataset, armor: i64) -> Resolved {
    let piece = GearPiece { slot: Slot::Legs, id: ItemId::new(&format!("item.armor_{armor}")), rolls: vec![] };
    resolve(&loadout(&format!("armor-{armor}"), vec![], vec![piece]), data).expect("test loadout resolves")
}

fn layered(data: &InMemoryDataset, armor: i64, enchant: i64, mastery: bool) -> Resolved {
    let piece = GearPiece {
        slot: Slot::Legs,
        id: ItemId::new(&format!("item.armor_{armor}")),
        rolls: vec![Roll::Derived(DerivedStatId::new(well_known::ARMOR_RATING), fx(enchant))],
    };
    let perks = if mastery { vec![PerkId::new("perk.test.mastery")] } else { vec![] };
    resolve(&loadout(&format!("layered-{armor}-{enchant}"), perks, vec![piece]), data).expect("layered loadout resolves")
}

fn weakpoint(points: i64) -> IdMap<AbilityId, Confidence<Fixed>> {
    let mut m = IdMap::new();
    m.insert(AbilityId::new("skill.rogue.weakpoint_attack"), Confidence::Verified(fx(points)));
    m
}

fn debuff(mods: IdMap<AbilityId, Confidence<Fixed>>) -> ExchangeContext {
    ExchangeContext { item_armor_bonus_mods: mods, ..ExchangeContext::default() }
}

fn strike(base: i64, scaling: i64, flat: i64, pen: i64, true_dmg: i64) -> Strike {
    Strike {
        pinned: false,
        tags: Vec::new(),
        weapon: None,
        damage_type: DamageType::Physical,
        base: Confidence::Verified(Damage::new(fx(base))),
        scaling: Confidence::Verified(ScalingCoefficient::new(fx(scaling))),
        flat_bonus: Confidence::Verified(Damage::new(fx(flat))),
        penetration: Confidence::Verified(ArmorPen::new(fx(pen))),
        true_damage: Confidence::Verified(TrueDamage::new(fx(true_dmg))),
    }
}

fn outcome(data: &InMemoryDataset, a: &Resolved, d: &Resolved, s: &Strike, c: &ExchangeContext) -> ExchangeOutcome {
    Exchange::new(a, d, s, c, data).damage().expect("test combatants carry every required stat")
}

fn damage_of(data: &InMemoryDataset, a: &Resolved, d: &Resolved, s: &Strike, c: &ExchangeContext) -> Fixed {
    outcome(data, a, d, s, c).damage.value().value()
}

#[test]
fn plain_swing_walks_the_whole_chain() {
    let data = dataset();
    let (a, d) = (combatant(&data, 0), combatant(&data, 40));
    assert_eq!(damage_of(&data, &a, &d, &strike(20, 100, 0, 0, 0), &ExchangeContext::default()), fx(20));
}

#[test]
fn sneak_attack_zero_scaling_ignores_the_hide_penalty() {
    let data = dataset();
    let (a, d) = (combatant(&data, 0), combatant(&data, 40));
    let sneak = strike(10, 0, 15, 0, 0);
    let neutral = ExchangeContext::default();
    let hide_exit = ExchangeContext { power_bonus_adjust: Confidence::Verified(fx(-30)), ..ExchangeContext::default() };
    let without = damage_of(&data, &a, &d, &sneak, &neutral);
    let with_penalty = damage_of(&data, &a, &d, &sneak, &hide_exit);
    assert_eq!(without, fx(15), "0% scaling: only the flat 15 survives");
    assert_eq!(with_penalty, without, "0% scaling must be immune to the Hide-exit power penalty");
    let scaling_strike = strike(15, 100, 0, 0, 0);
    assert!(damage_of(&data, &a, &d, &scaling_strike, &hide_exit) < damage_of(&data, &a, &d, &scaling_strike, &neutral));
}

#[test]
fn true_damage_lands_after_reduction() {
    let data = dataset();
    let (a, d) = (combatant(&data, 0), combatant(&data, 200));
    assert_eq!(damage_of(&data, &a, &d, &strike(20, 100, 0, 0, 5), &ExchangeContext::default()), fx(15));
}

#[test]
fn pdr_mod_is_multiplicative_not_additive() {
    let data = dataset();
    let (a, d) = (combatant(&data, 0), combatant(&data, 250));
    let marked = ExchangeContext { pdr_mod: Confidence::Verified(PdrMod::new(fx(-30))), ..ExchangeContext::default() };
    let out = outcome(&data, &a, &d, &strike(100, 100, 0, 0, 0), &marked);
    assert_eq!(out.effective_pdr.value().value(), fx(42));
    assert_eq!(out.damage.value().value(), fx(58));
}

#[test]
fn penetration_re_samples_the_curve() {
    let data = dataset();
    let (a, d) = (combatant(&data, 0), combatant(&data, 200));
    let out = outcome(&data, &a, &d, &strike(100, 100, 0, 15, 0), &ExchangeContext::default());
    assert_eq!(out.effective_pdr.value().value(), fx(44));
    assert_eq!(out.damage.value().value(), fx(56));
}

#[test]
fn penetration_never_helps_a_defender_with_negative_pdr() {
    let data = dataset();
    let (a, d) = (combatant(&data, 0), combatant(&data, 0));
    let none = damage_of(&data, &a, &d, &strike(100, 100, 0, 0, 0), &ExchangeContext::default());
    let some = damage_of(&data, &a, &d, &strike(100, 100, 0, 50, 0), &ExchangeContext::default());
    assert_eq!(none, fx(120), "−20% PDR amplifies the hit");
    assert!(some >= none, "penetration made a hit smaller: {some:?} < {none:?}");
}

#[test]
fn back_attack_and_headshot_apply_at_their_steps() {
    let data = dataset();
    let (a, d) = (combatant(&data, 0), combatant(&data, 40));
    let context = ExchangeContext {
        power_bonus_adjust: Confidence::Verified(fx(30)),
        hit_location_bonus: Confidence::Verified(fx(2)),
        ..ExchangeContext::default()
    };
    assert_eq!(damage_of(&data, &a, &d, &strike(100, 100, 0, 0, 0), &context), "132.6".parse::<Fixed>().unwrap());
}

#[test]
fn negative_pdr_increases_damage() {
    let data = dataset();
    let (a, d) = (combatant(&data, 0), combatant(&data, 0));
    assert_eq!(damage_of(&data, &a, &d, &strike(100, 100, 0, 0, 0), &ExchangeContext::default()), fx(120));
}

#[test]
fn the_defenders_bonus_and_the_attackers_debuff_are_one_quantity() {
    let data = dataset();
    let attacker = combatant(&data, 0);
    let defender = layered(&data, 200, 0, true);
    let s = strike(100, 100, 0, 0, 0);
    let neutral = ExchangeContext::default();
    let debuffed = debuff(weakpoint(-30));
    assert!(
        damage_of(&data, &attacker, &defender, &s, &debuffed) > damage_of(&data, &attacker, &defender, &s, &neutral),
        "a debuff on the defender must help the attacker"
    );
    let unperked = layered(&data, 200, 0, false);
    assert!(
        damage_of(&data, &attacker, &unperked, &s, &debuffed) > damage_of(&data, &attacker, &defender, &s, &debuffed),
        "the perk must still be worth something under the debuff"
    );
}

#[test]
fn the_debuff_reaches_worn_armour_and_not_its_enchantments() {
    let data = dataset();
    let attacker = combatant(&data, 0);
    let split = layered(&data, 200, 50, false);
    let all_item = layered(&data, 250, 0, false);
    let s = strike(100, 100, 0, 0, 0);
    let debuffed = debuff(weakpoint(-30));
    assert_eq!(
        split.stat(well_known::ARMOR_RATING).unwrap().value(),
        all_item.stat(well_known::ARMOR_RATING).unwrap().value()
    );
    assert!(
        damage_of(&data, &attacker, &split, &s, &debuffed) < damage_of(&data, &attacker, &all_item, &s, &debuffed),
        "an enchantment must survive a debuff that worn armour does not"
    );
}

#[test]
fn the_same_ability_cannot_be_applied_twice() {
    let data = dataset();
    let attacker = combatant(&data, 0);
    let defender = layered(&data, 200, 0, false);
    let s = strike(100, 100, 0, 0, 0);
    let mut twice = weakpoint(-30);
    twice.insert(AbilityId::new("skill.rogue.weakpoint_attack"), Confidence::Verified(fx(-30)));
    assert_eq!(twice.len(), 1, "one ability, one entry");
    assert_eq!(
        damage_of(&data, &attacker, &defender, &s, &debuff(twice)),
        damage_of(&data, &attacker, &defender, &s, &debuff(weakpoint(-30))),
        "a second rogue with the same skill adds nothing"
    );
    let mut two_abilities = weakpoint(-30);
    two_abilities.insert(AbilityId::new("perk.other.sunder"), Confidence::Verified(fx(-10)));
    assert!(
        damage_of(&data, &attacker, &defender, &s, &debuff(two_abilities))
            > damage_of(&data, &attacker, &defender, &s, &debuff(weakpoint(-30))),
        "a different ability is a different debuff and must sum"
    );
}

#[test]
fn a_magic_strike_reads_the_magic_chain() {
    let data = dataset();
    let attacker = combatant(&data, 0);
    let defender = layered(&data, 200, 0, false);
    let s = strike(100, 100, 0, 0, 0);
    let neutral = ExchangeContext::default();
    let physical = Exchange::new(&attacker, &defender, &s, &neutral, &data).damage().expect("physical resolves");
    let magic_strike = Strike { damage_type: DamageType::Magic, ..s.clone() };
    let refused = Exchange::new(&attacker, &defender, &magic_strike, &neutral, &data).damage();
    assert!(matches!(refused, Err(ExchangeError::MissingStat(_))), "a class with no magic chain must say so: {refused:?}");
    assert!(physical.damage.value().value() > Fixed::zero());
}

#[test]
fn every_step_names_the_stat_it_actually_read() {
    let data = dataset();
    let attacker = combatant(&data, 0);
    let defender = layered(&data, 200, 0, false);
    let out = outcome(&data, &attacker, &defender, &strike(100, 100, 0, 0, 0), &ExchangeContext::default());
    let five = out.trace.iter().find(|n| n.stage == 5).expect("step 5");
    assert!(five.detail.starts_with("armor "), "{}", five.detail);
    let three = out.trace.iter().find(|n| n.stage == 3).expect("step 3");
    assert_eq!(three.label, "physical power bonus");
}

#[test]
fn a_fight_is_a_race_and_not_a_damage_comparison() {
    let data = dataset();
    let attacker = combatant(&data, 0);
    let defender = combatant(&data, 0);
    let out = outcome(&data, &attacker, &defender, &strike(20, 100, 0, 0, 0), &ExchangeContext::default());
    assert_eq!(out.hits_to_kill, None);
    assert_eq!(out.time_to_kill.is_none(), true);
    assert!(out.damage.value().value() > Fixed::zero());
}

#[test]
fn exchange_an_attack_that_takes_nothing_off_never_finishes() {
    let data = dataset();
    let attacker = combatant(&data, 0);
    let defender = combatant(&data, 250);
    let out = outcome(&data, &attacker, &defender, &strike(0, 100, 0, 0, 0), &ExchangeContext::default());
    assert_eq!(out.hits_to_kill, None);
}

#[test]
fn a_dataset_from_another_build_is_refused() {
    let data = dataset();
    let (a, d) = (combatant(&data, 0), combatant(&data, 40));
    let other = InMemoryDataset::new("other.build");
    let s = strike(20, 100, 0, 0, 0);
    let err = Exchange::new(&a, &d, &s, &ExchangeContext::default(), &other).damage().unwrap_err();
    assert!(matches!(err, ExchangeError::DatasetMismatch { .. }), "{}", err.to_string());
}

fn with_health(data: &mut InMemoryDataset, hp: i64) {
    let class = data.class(&ClassId::new("class.test")).expect("test class");
    let mut derived = Vec::new();
    for d in &class.derived {
        derived.push(DerivedStatDef {
            id: d.id.clone(),
            weights: d.weights.iter().map(|(i, w)| (match i {
                RatingInput::Attribute(k) => RatingInput::Attribute(*k),
                RatingInput::Derived(id) => RatingInput::Derived(id.clone()),
            }, *w)).collect(),
            curve: d.curve.clone(),
            offset: d.offset,
            floor: d.floor,
            cap: d.cap,
        });
    }
    derived.push(DerivedStatDef {
        id: DerivedStatId::new(well_known::HEALTH),
        weights: vec![(RatingInput::Attribute(AttributeKind::Strength), Fixed::one())],
        curve: CurveId::new("curve.flat"),
        offset: fx(hp),
        floor: None,
        cap: None,
    });
    let rebuilt = ClassDef {
        id: ClassId::new("class.test"),
        name: "Test".to_string(),
        base_attributes: Confidence::Verified(AttributeBlock::default()),
        derived,
    };
    data.insert_class(rebuilt);
}

fn chained_weapon(data: &mut InMemoryDataset, id: &str, base: i64) -> ItemId {
    let item = ItemId::new(id);
    let mut def = ItemDef::plain(item.clone(), "Chained");
    def.weapon = Some(WeaponProfile {
        base_damage: Confidence::Verified(fx(base)),
        armor_pen: Confidence::Verified(Fixed::zero()),
        combo: [100i64, 105, 110]
            .into_iter()
            .map(|pct| ComboHit { kind: DamageTag::Blunt, scaling: Confidence::Unverified(fx(pct)) })
            .collect(),
        swing_time: None,
    });
    data.insert_item(def);
    item
}

#[test]
fn the_chain_kills_sooner_than_the_same_blow_repeated() {
    let mut data = dataset();
    with_health(&mut data, 90);
    let weapon = chained_weapon(&mut data, "item.chained", 24);
    let (a, d) = (combatant(&data, 0), combatant(&data, 0));
    let mut s = strike(24, 100, 0, 0, 0);
    s.weapon = Some(weapon);
    let out = outcome(&data, &a, &d, &s, &ExchangeContext::default());
    assert_eq!(out.damage.value().value(), fx(288).div_half_even(fx(10)));
    assert_eq!(out.hits_to_kill, Some(4));
    assert_eq!(out.chain_to_kill, Some(3));
}

#[test]
fn a_pinned_blow_is_not_asked_about_the_chain() {
    let mut data = dataset();
    with_health(&mut data, 100);
    let weapon = chained_weapon(&mut data, "item.chained", 24);
    let (a, d) = (combatant(&data, 0), combatant(&data, 0));
    let mut s = strike(24, 110, 0, 0, 0);
    s.weapon = Some(weapon);
    s.pinned = true;
    let out = outcome(&data, &a, &d, &s, &ExchangeContext::default());
    assert_eq!(out.chain_to_kill, None);
    assert!(out.hits_to_kill.is_some());
}

#[test]
fn a_chain_that_takes_nothing_off_does_not_kill_eventually() {
    let mut data = dataset();
    with_health(&mut data, 100);
    let weapon = chained_weapon(&mut data, "item.chained", 0);
    let (a, d) = (combatant(&data, 0), combatant(&data, 250));
    let mut s = strike(0, 100, 0, 0, 0);
    s.weapon = Some(weapon);
    let out = outcome(&data, &a, &d, &s, &ExchangeContext::default());
    assert_eq!(out.chain_to_kill, None);
    assert_eq!(out.hits_to_kill, None);
}

#[test]
fn the_fight_is_timed_when_the_weapon_has_a_swing_time() {
    let mut data = dataset();
    with_health(&mut data, 90);
    let item = ItemId::new("item.timed");
    let mut def = ItemDef::plain(item.clone(), "Timed");
    def.weapon = Some(WeaponProfile {
        base_damage: Confidence::Verified(fx(24)),
        armor_pen: Confidence::Verified(Fixed::zero()),
        combo: vec![],
        swing_time: Some(Confidence::Verified("1.5".parse().unwrap())),
    });
    data.insert_item(def);
    let (a, d) = (combatant(&data, 0), combatant(&data, 0));
    let mut s = strike(24, 100, 0, 0, 0);
    s.weapon = Some(item);
    let out = outcome(&data, &a, &d, &s, &ExchangeContext::default());
    // The test class has no action speed, so time stays unknown.
    assert_eq!(out.hits_to_kill, Some(4));
    assert!(out.time_to_kill.is_none());
}

fn gated_perk(data: &mut InMemoryDataset, tag: DamageTag) {
    data.insert_perk(PerkDef {
        id: PerkId::new("perk.test.mastery"),
        name: "Test Mastery".to_string(),
        required_classes: Vec::new(),
        effects: vec![StackedEffect {
            effect: Confidence::Verified(Effect::DerivedBonus(DerivedStatId::new(well_known::PHYSICAL_POWER_BONUS), fx(5))),
            max_stacks: None,
            when_tag: Some(tag),
        }],
    });
}

fn gated_attacker(data: &InMemoryDataset) -> Resolved {
    resolve(&loadout("gated", vec![PerkId::new("perk.test.mastery")], vec![]), data).expect("gated loadout resolves")
}

#[test]
fn a_gate_fires_on_its_kind_and_stays_shut_on_the_others() {
    let mut data = dataset();
    gated_perk(&mut data, DamageTag::Blunt);
    let (a, d) = (gated_attacker(&data), combatant(&data, 0));
    let mut blunt = strike(20, 100, 0, 0, 0);
    blunt.tags = vec![DamageTag::Blunt];
    let hit = outcome(&data, &a, &d, &blunt, &ExchangeContext::default());
    let mut slash = strike(20, 100, 0, 0, 0);
    slash.tags = vec![DamageTag::Slash];
    let miss = outcome(&data, &a, &d, &slash, &ExchangeContext::default());
    assert!(
        hit.damage.value().value() > miss.damage.value().value(),
        "blunt {:?} against slash {:?}",
        hit.damage.value().value(),
        miss.damage.value().value()
    );
    assert!(explain(&hit).contains("Test Mastery applies to a blunt blow"));
    assert!(!explain(&miss).contains("gated bonus"));
}

#[test]
fn a_swing_of_unknown_kind_switches_nothing_on() {
    let mut data = dataset();
    gated_perk(&mut data, DamageTag::Blunt);
    let (a, d) = (gated_attacker(&data), combatant(&data, 0));
    let unknown = strike(20, 100, 0, 0, 0);
    assert!(unknown.tags.is_empty());
    let out = outcome(&data, &a, &d, &unknown, &ExchangeContext::default());
    assert!(!explain(&out).contains("gated bonus"));
}

#[test]
fn a_gated_bonus_never_reaches_the_character_sheet() {
    let mut data = dataset();
    gated_perk(&mut data, DamageTag::Blunt);
    let a = gated_attacker(&data);
    assert_eq!(a.stat(well_known::PHYSICAL_POWER_BONUS).map(|v| *v.value()), Some(Fixed::zero()));
    assert_eq!(a.conditional.len(), 1);
    assert_eq!(a.conditional[0].tag, DamageTag::Blunt);
}

#[test]
fn confidence_degrades_through_the_exchange() {
    let data = dataset();
    let (a, d) = (combatant(&data, 0), combatant(&data, 40));
    let mut s = strike(20, 100, 0, 0, 0);
    s.scaling = Confidence::Unverified(ScalingCoefficient::new(fx(100)));
    let out = outcome(&data, &a, &d, &s, &ExchangeContext::default());
    assert_eq!(out.damage.level(), ConfidenceLevel::Unverified);
}

#[test]
fn every_step_leaves_a_trace() {
    let data = dataset();
    let (a, d) = (combatant(&data, 0), combatant(&data, 40));
    let out = outcome(&data, &a, &d, &strike(20, 100, 0, 0, 0), &ExchangeContext::default());
    for step in 1..=9u8 {
        assert!(out.trace.iter().any(|n| n.stage == step), "step {step} missing from trace");
    }
    assert!(explain(&out).contains("scaling coefficient"));
}

#[test]
fn a_bigger_debuff_never_deals_less_damage() {
    let data = dataset();
    let attacker = combatant(&data, 0);
    for enchant in [0i64, 25, 99] {
        for mastery in [false, true] {
            let defender = layered(&data, 200, enchant, mastery);
            let s = strike(100, 100, 0, 0, 0);
            let at = |points: i64| damage_of(&data, &attacker, &defender, &s, &debuff(weakpoint(-points)));
            for small in [0i64, 10, 39] {
                for extra in [0i64, 5, 39] {
                    assert!(at(small + extra) >= at(small));
                }
            }
        }
    }
}

#[test]
fn more_penetration_never_deals_less_damage() {
    let data = dataset();
    let attacker = combatant(&data, 0);
    for armor in [0i64, 40, 150, 200, 250] {
        let defender = combatant(&data, armor);
        for (low, high) in [(0i64, 0i64), (0, 100), (15, 30), (50, 51), (99, 100)] {
            let c = ExchangeContext::default();
            let less = damage_of(&data, &attacker, &defender, &strike(100, 100, 0, low, 0), &c);
            let more = damage_of(&data, &attacker, &defender, &strike(100, 100, 0, high, 0), &c);
            assert!(more >= less, "armor {armor}: pen {high} dealt {more:?}, less than pen {low:?} at {less:?}");
        }
    }
}

#[test]
fn the_canonical_exchange_is_damage_and_effective_pdr() {
    let data = dataset();
    let (a, d) = (combatant(&data, 0), combatant(&data, 250));
    let marked = ExchangeContext { pdr_mod: Confidence::Verified(PdrMod::new(fx(-30))), ..ExchangeContext::default() };
    let out = outcome(&data, &a, &d, &strike(100, 100, 0, 0, 0), &marked);
    assert_eq!(
        canonical_exchange(&out),
        "{\"damage\":{\"confidence\":\"verified\",\"micro\":58000000},\"effective_pdr\":{\"confidence\":\"verified\",\"micro\":42000000}}"
    );
}

#[test]
fn the_canonical_statblock_carries_no_whitespace_and_sorted_keys() {
    let data = dataset();
    let r = combatant(&data, 40);
    let canon = canonical_statblock(&r);
    assert!(!canon.contains(' '));
    assert!(canon.starts_with("{\"attributes\":{\"confidence\":\"verified\",\"points\":{\"agility\":0,"));
    assert!(canon.contains("\"derived.armor_rating\":{\"confidence\":\"verified\",\"micro\":40000000}"));
    let a = canon.find("derived.armor_rating").unwrap();
    let p = canon.find("derived.pdr").unwrap();
    assert!(a < p);
    assert_eq!(canonical_statblock(&r), canon);
}

#[test]
fn basic_swing_takes_the_weapons_numbers_and_its_first_kind() {
    let profile = WeaponProfile {
        base_damage: Confidence::Unverified(fx(24)),
        armor_pen: Confidence::Verified(fx(5)),
        combo: vec![ComboHit { kind: DamageTag::Slash, scaling: Confidence::Verified(fx(100)) }],
        swing_time: None,
    };
    let s = Strike::basic_swing(&ItemId::new("item.sword"), &profile);
    assert_eq!(s.base.value().value(), fx(24));
    assert_eq!(s.base.level(), ConfidenceLevel::Unverified);
    assert_eq!(s.penetration.value().value(), fx(5));
    assert_eq!(s.tags, vec![DamageTag::Slash]);
    assert!(!s.pinned);
    let c = Strike::cast();
    assert!(c.pinned);
    assert_eq!(c.base.value().value(), Fixed::zero());
}
