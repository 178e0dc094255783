use assay::browser::{build_situation, parse_loadout};
use assay::confidence::Confidence;
use assay::doc::{parse_json, Doc};
use assay::ids::{ItemId, SkillId};
use assay::loadout::{Roll, Slot};
use assay::schema::{AttributeKind, ComboHit, InMemoryDataset, SkillDef, StrikeProfile, WeaponProfile};
use assay::stats::{DamageTag, DamageType};
use assay::Fixed;

fn node(text: &str) -> Doc {
    parse_json(text).unwrap()
}

fn data() -> InMemoryDataset {
    let mut data = InMemoryDataset::new("test.build");
    let mut profile = StrikeProfile::empty();
    profile.scaling = Some(Confidence::Verified(Fixed::zero()));
    profile.flat_bonus = Some(Confidence::Verified(Fixed::from_int(15)));
    profile.damage_type = Some("magic".to_string());
    data.insert_skill(SkillDef {
        id: SkillId::new("skill.rogue.sneak_attack"),
        name: "Sneak Attack".to_string(),
        required_classes: Vec::new(),
        effects: Vec::new(),
        strike: Some(profile),
    });
    data.insert_skill(SkillDef {
        id: SkillId::new("skill.fighter.sprint"),
        name: "Sprint".to_string(),
        required_classes: Vec::new(),
        effects: Vec::new(),
        strike: None,
    });
    data
}

fn weapon() -> WeaponProfile {
    WeaponProfile {
        base_damage: Confidence::Unverified(Fixed::from_int(32)),
        armor_pen: Confidence::Verified(Fixed::from_int(15)),
        combo: vec![ComboHit {
            kind: DamageTag::parse("slash").unwrap(),
            scaling: Confidence::Verified(Fixed::from_int(100)),
        }],
        swing_time: None,
    }
}

#[test]
fn a_page_loadout_reads_its_gear_in_page_order() {
    let l = parse_loadout(&node(
        r#"{"class": "class.fighter",
            "gear": [{"slot": "chest", "id": "item.test",
                      "attributes": {"strength": 2, "agility": -1},
                      "additional": {"derived.armor_rating": "11"},
                      "moveSpeedAdd": "-2.5"}],
            "weapons": {"mainHand": "item.sword"},
            "perks": ["perk.a", 7, "perk.b"],
            "party": {"skills": ["skill.x"]}}"#,
    ))
    .unwrap();
    assert_eq!(l.name, "loadout");
    assert_eq!(l.class.as_str(), "class.fighter");
    assert_eq!(l.perks.len(), 2);
    assert_eq!(l.perks[1].as_str(), "perk.b");
    assert!(l.skills.is_empty());
    assert_eq!(l.weapons.main_hand.as_ref().unwrap().as_str(), "item.sword");
    assert_eq!(l.party.skills.len(), 1);
    assert!(l.party.perks.is_empty());
    let g = &l.gear[0];
    assert!(g.slot == Slot::Chest);
    assert_eq!(g.id.as_str(), "item.test");
    assert_eq!(g.rolls.len(), 4);
    // serde_json keeps object keys in order, so agility comes first.
    assert!(matches!(g.rolls[0], Roll::Attribute(AttributeKind::Agility, -1)));
    assert!(matches!(g.rolls[1], Roll::Attribute(AttributeKind::Strength, 2)));
    match &g.rolls[2] {
        Roll::Derived(id, x) => {
            assert_eq!(id.as_str(), "derived.armor_rating");
            assert_eq!(*x, Fixed::from_int(11));
        }
        _ => panic!("expected a derived roll"),
    }
    match &g.rolls[3] {
        Roll::MoveSpeedAdd(x) => assert_eq!(*x, Fixed::from_micro(-2_500_000)),
        _ => panic!("expected move speed"),
    }
}

#[test]
fn a_page_loadout_needs_a_class() {
    let e = parse_loadout(&node(r#"{"name": "x"}"#)).unwrap_err();
    assert_eq!(e, "loadout needs a class");
}

#[test]
fn a_page_piece_needs_a_known_slot_and_known_attributes() {
    let e = parse_loadout(&node(r#"{"class": "c", "gear": [{"id": "i"}]}"#)).unwrap_err();
    assert_eq!(e, "a gear piece needs a slot");
    let e = parse_loadout(&node(r#"{"class": "c", "gear": [{"slot": "tail"}]}"#)).unwrap_err();
    assert_eq!(e, "unknown slot: tail");
    let e = parse_loadout(&node(r#"{"class": "c", "gear": [{"slot": "chest", "attributes": {"luck": 1}}]}"#))
        .unwrap_err();
    assert_eq!(e, "unknown attribute: luck");
    let e = parse_loadout(&node(r#"{"class": "c", "gear": [{"slot": "chest", "attributes": {"strength": 1.5}}]}"#))
        .unwrap_err();
    assert_eq!(e, "strength must be whole points");
    let e = parse_loadout(&node(
        r#"{"class": "c", "gear": [{"slot": "chest", "attributes": {"strength": 3000000000}}]}"#,
    ))
    .unwrap_err();
    assert_eq!(e, "strength is out of range");
}

#[test]
fn a_page_number_must_be_a_decimal_string() {
    let e = parse_loadout(&node(r#"{"class": "c", "gear": [{"slot": "chest", "moveSpeedAdd": 2}]}"#)).unwrap_err();
    assert_eq!(e, "moveSpeedAdd must be a decimal string, not a number");
    let e = parse_loadout(&node(r#"{"class": "c", "gear": [{"slot": "chest", "moveSpeedAdd": "0.0000001"}]}"#))
        .unwrap_err();
    assert_eq!(e, "moveSpeedAdd: TooPrecise");
}

#[test]
fn page_stacks_saturate_and_skip_what_is_not_a_count() {
    let l = parse_loadout(&node(
        r#"{"class": "c", "name": "mine", "stacks": {"a": 5, "b": -1, "c": "3", "d": 99999999999}}"#,
    ))
    .unwrap();
    assert_eq!(l.name, "mine");
    assert_eq!(l.stacks.get("a"), Some(&5));
    assert_eq!(l.stacks.get("b"), None);
    assert_eq!(l.stacks.get("c"), None);
    assert_eq!(l.stacks.get("d"), Some(&u32::MAX));
}

#[test]
fn an_empty_page_situation_is_the_weapon_swinging() {
    let (strike, context, named) =
        build_situation(&node("{}"), &ItemId::new("item.sword"), &weapon(), &data()).unwrap();
    assert!(named.is_none());
    assert!(!strike.pinned);
    assert!(strike.damage_type == DamageType::Physical);
    assert!(matches!(strike.base, Confidence::Unverified(_)));
    assert_eq!(strike.base.value().value(), Fixed::from_int(32));
    assert_eq!(strike.scaling.value().value(), Fixed::from_int(100));
    assert_eq!(strike.penetration.value().value(), Fixed::from_int(15));
    assert_eq!(strike.tags.len(), 1);
    assert_eq!(strike.weapon.as_ref().unwrap().as_str(), "item.sword");
    assert_eq!(context.pdr_mod.value().value(), Fixed::zero());
    assert_eq!(context.item_armor_bonus_mods.len(), 0);
}

#[test]
fn a_page_skill_layers_over_the_weapon_and_a_field_over_both() {
    let (strike, context, named) = build_situation(
        &node(
            r#"{"skill": "skill.rogue.sneak_attack",
                "strike": {"flatBonus": "20", "base": "  "},
                "context": {"pdrMod": "-30", "itemArmorBonusMods": {"ability.x": "-10"}}}"#,
        ),
        &ItemId::new("item.sword"),
        &weapon(),
        &data(),
    )
    .unwrap();
    assert_eq!(named.as_deref(), Some("Sneak Attack"));
    assert!(strike.damage_type == DamageType::Magic);
    assert_eq!(strike.scaling.value().value(), Fixed::zero());
    assert_eq!(strike.flat_bonus.value().value(), Fixed::from_int(20));
    // A blank field means the field was left empty, not zero.
    assert_eq!(strike.base.value().value(), Fixed::from_int(32));
    assert!(!strike.pinned);
    assert_eq!(context.pdr_mod.value().value(), Fixed::from_int(-30));
    assert_eq!(*context.item_armor_bonus_mods.get("ability.x").unwrap().value(), Fixed::from_int(-10));
}

#[test]
fn a_page_field_for_the_blow_itself_pins_it() {
    let (strike, _, _) = build_situation(
        &node(r#"{"strike": {"scaling": "50"}, "type": "physical"}"#),
        &ItemId::new("item.sword"),
        &weapon(),
        &data(),
    )
    .unwrap();
    assert!(strike.pinned);
    assert!(matches!(strike.scaling, Confidence::Verified(_)));
    assert_eq!(strike.scaling.value().value(), Fixed::from_int(50));
}

#[test]
fn a_page_situation_refuses_what_it_cannot_read() {
    let id = ItemId::new("item.sword");
    let e = build_situation(&node(r#"{"skill": "skill.nope"}"#), &id, &weapon(), &data()).unwrap_err();
    assert_eq!(e, "no such skill: skill.nope");
    let e = build_situation(&node(r#"{"skill": "skill.fighter.sprint"}"#), &id, &weapon(), &data()).unwrap_err();
    assert_eq!(e, "Sprint is not an attack");
    let e = build_situation(&node(r#"{"type": "true"}"#), &id, &weapon(), &data()).unwrap_err();
    assert_eq!(e, "unknown damage type: true");
    let e = build_situation(&node(r#"{"strike": {"base": 30}}"#), &id, &weapon(), &data()).unwrap_err();
    assert_eq!(e, "base must be a decimal string, not a number");
    let e = build_situation(&node(r#"{"context": {"itemArmorBonusMods": {"a": 1}}}"#), &id, &weapon(), &data())
        .unwrap_err();
    assert_eq!(e, "a must be a decimal string");
    assert!(build_situation(&node(r#"{"skill": ""}"#), &id, &weapon(), &data()).unwrap().2.is_none());
}
