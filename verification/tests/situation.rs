use assay::confidence::Confidence;
use assay::ids::{AbilityId, ItemId, SkillId};
use assay::schema::{ComboHit, InMemoryDataset, SkillDef, StrikeProfile, WeaponProfile};
use assay::situation::{parse, SituationError};
use assay::stats::{DamageTag, DamageType};
use assay::Fixed;

fn data() -> InMemoryDataset {
    let mut data = InMemoryDataset::new("test.build");
    let mut profile = StrikeProfile::empty();
    profile.scaling = Some(Confidence::Verified(Fixed::zero()));
    profile.flat_bonus = Some(Confidence::Verified(Fixed::from_int(15)));
    profile.true_damage = Some(Confidence::Verified(Fixed::from_int(1)));
    data.insert_skill(SkillDef {
        id: SkillId::new("skill.rogue.sneak_attack"),
        name: "Sneak Attack".to_string(),
        required_classes: Vec::new(),
        effects: Vec::new(),
        strike: Some(profile),
    });
    data.insert_skill(SkillDef {
        id: SkillId::new("skill.fighter.sprint"),
        name: "Sprint".to_string(),
        required_classes: Vec::new(),
        effects: Vec::new(),
        strike: None,
    });
    data
}

fn weapon() -> WeaponProfile {
    WeaponProfile {
        base_damage: Confidence::Verified(Fixed::from_int(32)),
        armor_pen: Confidence::Verified(Fixed::from_int(15)),
        combo: Vec::new(),
        swing_time: None,
    }
}

fn chained() -> WeaponProfile {
    WeaponProfile {
        combo: [("slash", 100), ("slash", 105), ("pierce", 110)]
            .into_iter()
            .map(|(kind, pct)| ComboHit {
                kind: DamageTag::parse(kind).unwrap(),
                scaling: Confidence::Unverified(Fixed::from_int(pct)),
            })
            .collect(),
        ..weapon()
    }
}

#[test]
fn the_third_swing_hits_harder_than_the_first() {
    let d = data();
    let id = ItemId::new("item.test");
    let first = parse("combo_hit = 1", &id, &chained(), &d).unwrap();
    let third = parse("combo_hit = 3", &id, &chained(), &d).unwrap();
    assert_eq!(first.strike.scaling.value().value(), Fixed::from_int(100));
    assert_eq!(third.strike.scaling.value().value(), Fixed::from_int(110));
    assert!(matches!(third.strike.scaling, Confidence::Unverified(_)));
}

#[test]
fn a_skill_replaces_the_swing_rather_than_joining_the_chain() {
    let s = parse(
        "combo_hit = 3
skill = \"skill.rogue.sneak_attack\"",
        &ItemId::new("item.test"),
        &chained(),
        &data(),
    )
    .unwrap();
    assert_eq!(s.strike.scaling.value().value(), Fixed::zero());
}

#[test]
fn asking_for_a_swing_the_weapon_does_not_have_says_so() {
    let d = data();
    let id = ItemId::new("item.test");
    let err = parse("combo_hit = 4", &id, &chained(), &d).err().unwrap();
    assert!(err.to_string().contains("3 swings long"), "{}", err.to_string());
    let err = parse("combo_hit = 0", &id, &chained(), &d).err().unwrap();
    assert!(err.to_string().contains("counts from 1"), "{}", err.to_string());
    let err = parse("combo_hit = 1", &id, &weapon(), &d).err().unwrap();
    assert!(err.to_string().contains("no chain recorded"), "{}", err.to_string());
}

#[test]
fn an_empty_situation_is_the_weapon_swinging() {
    let s = parse("", &ItemId::new("item.test"), &weapon(), &data()).unwrap();
    assert_eq!(s.strike.base.value().value(), Fixed::from_int(32));
    assert_eq!(s.strike.penetration.value().value(), Fixed::from_int(15));
    assert_eq!(s.strike.scaling.value().value(), Fixed::from_int(100));
    assert_eq!(s.name, "situation");
    assert!(!s.strike.pinned);
}

#[test]
fn sneak_attack_can_finally_be_asked_about() {
    let s = parse(
        "name = \"sneak-attack\"\n\
         [strike]\nscaling = \"0\"\nflat_bonus = \"15\"\ntrue_damage = \"1\"\n\
         [context]\npower_bonus_adjust = \"-30\"\n",
        &ItemId::new("item.test"),
        &weapon(),
        &data(),
    )
    .unwrap();
    assert_eq!(s.strike.scaling.value().value(), Fixed::zero());
    assert_eq!(s.strike.flat_bonus.value().value(), Fixed::from_int(15));
    assert_eq!(*s.context.power_bonus_adjust.value(), Fixed::from_int(-30));
    assert_eq!(s.strike.base.value().value(), Fixed::from_int(32));
    assert_eq!(s.name, "sneak-attack");
}

#[test]
fn a_debuff_is_keyed_by_the_ability_that_imposed_it() {
    let s = parse(
        "[context.item_armor_bonus_mods]\n\
         \"skill.rogue.weakpoint_attack\" = \"-30\"\n",
        &ItemId::new("item.test"),
        &weapon(),
        &data(),
    )
    .unwrap();
    assert_eq!(s.context.item_armor_bonus_mods.len(), 1);
    let key = AbilityId::new("skill.rogue.weakpoint_attack");
    assert_eq!(*s.context.item_armor_bonus_mods.get(key.as_str()).unwrap().value(), Fixed::from_int(-30));
}

#[test]
fn a_float_is_refused_the_way_it_is_everywhere_else() {
    assert!(matches!(
        parse("[strike]\nbase = 2.5\n", &ItemId::new("item.test"), &weapon(), &data()),
        Err(SituationError::Syntax(_))
    ));
    assert!(matches!(
        parse("[strike]\nbase = \"2.1234567\"\n", &ItemId::new("item.test"), &weapon(), &data()),
        Err(SituationError::Invalid(_))
    ));
}

#[test]
fn an_unmodelled_field_is_rejected_rather_than_ignored() {
    assert!(matches!(
        parse("[context]\nlucky = \"yes\"\n", &ItemId::new("item.test"), &weapon(), &data()),
        Err(SituationError::Syntax(_))
    ));
}

#[test]
fn a_named_skill_names_the_situation_and_a_buff_cannot_attack() {
    let s = parse("skill = \"skill.rogue.sneak_attack\"", &ItemId::new("item.test"), &weapon(), &data()).unwrap();
    assert_eq!(s.name, "Sneak Attack");
    assert!(s.strike.pinned);
    assert_eq!(s.strike.true_damage.value().value(), Fixed::from_int(1));
    let err = parse("skill = \"skill.fighter.sprint\"", &ItemId::new("item.test"), &weapon(), &data()).err().unwrap();
    assert!(err.to_string().contains("is not an attack"));
    let err = parse("skill = \"skill.nobody\"", &ItemId::new("item.test"), &weapon(), &data()).err().unwrap();
    assert!(err.to_string().contains("no such skill"));
    let magic = parse("[strike]\ntype = \"magic\"\n", &ItemId::new("item.test"), &weapon(), &data()).unwrap();
    assert_eq!(magic.strike.damage_type, DamageType::Magic);
    assert!(parse("[strike]\ntype = \"true\"\n", &ItemId::new("item.test"), &weapon(), &data()).is_err());
}
