use assay::confidence::{Confidence, ConfidenceLevel};
use assay::curve::Curve;
use assay::derived::{DerivedStatDef, RatingInput};
use assay::ids::{ClassId, CurveId, DerivedStatId, ItemId, PerkId, SkillId};
use assay::loadout::{GearPiece, Loadout, PartyBuffs, Roll, Slot, Weapons};
use assay::resolve::{resolve, ResolveError};
use assay::schema::{AttributeBlock, AttributeKind, ClassDef, DatasetSource, Effect, InMemoryDataset, ItemDef, PerkDef, SkillDef, StackedEffect};
use assay::table::IdMap;
use assay::well_known;
use assay::Fixed;

fn fx(units: i64) -> Fixed {
    Fixed::from_int(units)
}

fn dec(s: &str) -> Fixed {
    s.parse().unwrap()
}

fn weights(pairs: Vec<(RatingInput, &str)>) -> Vec<(RatingInput, Fixed)> {
    pairs.into_iter().map(|(input, w)| (input, dec(w))).collect()
}

fn armor(value: Confidence<Fixed>) -> IdMap<DerivedStatId, Confidence<Fixed>> {
    let mut m = IdMap::new();
    m.insert(DerivedStatId::new(well_known::ARMOR_RATING), value);
    m
}

fn item(id: &str, name: &str, grants: IdMap<DerivedStatId, Confidence<Fixed>>) -> ItemDef {
    let mut def = ItemDef::plain(ItemId::new(id), name);
    def.grants = grants;
    def
}

fn perk(id: &str, name: &str, effects: Vec<StackedEffect>) -> PerkDef {
    PerkDef { id: PerkId::new(id), name: name.to_string(), required_classes: Vec::new(), effects }
}

/// The real Patch 6.12 / Hotfix 123 shapes, so the tests assert against the
/// game rather than against invented curves.
fn test_dataset() -> InMemoryDataset {
    let mut data = InMemoryDataset::new("test.build");
    let mut rogue_base = AttributeBlock::default();
    for (kind, points) in [
        (AttributeKind::Strength, 9),
        (AttributeKind::Vigor, 6),
        (AttributeKind::Agility, 25),
        (AttributeKind::Dexterity, 20),
        (AttributeKind::Will, 10),
        (AttributeKind::Knowledge, 10),
        (AttributeKind::Resourcefulness, 25),
    ] {
        rogue_base.add(kind, points);
    }
    data.insert_class(ClassDef {
        id: ClassId::new("class.rogue"),
        name: "Rogue".to_string(),
        base_attributes: Confidence::Unverified(rogue_base),
        derived: vec![
            DerivedStatDef {
                id: DerivedStatId::new(well_known::PHYSICAL_POWER_BONUS),
                weights: weights(vec![(RatingInput::Attribute(AttributeKind::Strength), "1")]),
                curve: CurveId::new("curve.ppb"),
                offset: Fixed::zero(),
                floor: Some(fx(-100)),
                cap: None,
            },
            DerivedStatDef {
                id: DerivedStatId::new(well_known::ACTION_SPEED),
                weights: weights(vec![
                    (RatingInput::Attribute(AttributeKind::Agility), "0.25"),
                    (RatingInput::Attribute(AttributeKind::Dexterity), "0.75"),
                ]),
                curve: CurveId::new("curve.action_speed"),
                offset: Fixed::zero(),
                floor: None,
                cap: None,
            },
            DerivedStatDef {
                id: DerivedStatId::new(well_known::MOVE_SPEED),
                weights: weights(vec![(RatingInput::Attribute(AttributeKind::Agility), "1")]),
                curve: CurveId::new("curve.move_speed"),
                offset: fx(300),
                floor: None,
                cap: Some(fx(330)),
            },
            DerivedStatDef {
                id: DerivedStatId::new(well_known::HEALTH),
                weights: weights(vec![
                    (RatingInput::Attribute(AttributeKind::Strength), "0.25"),
                    (RatingInput::Attribute(AttributeKind::Vigor), "0.75"),
                ]),
                curve: CurveId::new("curve.health"),
                offset: fx(25),
                floor: None,
                cap: None,
            },
            DerivedStatDef {
                id: DerivedStatId::new(well_known::PDR),
                weights: weights(vec![(RatingInput::Derived(DerivedStatId::new(well_known::ARMOR_RATING)), "1")]),
                curve: CurveId::new("curve.pdr"),
                offset: Fixed::zero(),
                floor: None,
                cap: Some(fx(60)),
            },
        ],
    });
    let curve = |points: Vec<(Fixed, Fixed)>| Confidence::Unverified(Curve::linear(points).unwrap());
    data.insert_curve(
        CurveId::new("curve.ppb"),
        curve(vec![
            (fx(0), fx(-80)),
            (fx(5), fx(-30)),
            (fx(7), fx(-20)),
            (fx(11), fx(-8)),
            (fx(15), fx(0)),
            (fx(50), fx(35)),
            (fx(60), fx(40)),
            (fx(100), fx(50)),
        ]),
    );
    data.insert_curve(
        CurveId::new("curve.action_speed"),
        curve(vec![
            (fx(0), fx(-38)),
            (fx(10), fx(-8)),
            (fx(13), fx(-2)),
            (fx(15), fx(0)),
            (fx(33), dec("22.5")),
            (fx(45), dec("34.5")),
            (fx(49), dec("37.5")),
            (fx(100), fx(63)),
        ]),
    );
    data.insert_curve(
        CurveId::new("curve.move_speed"),
        curve(vec![(fx(0), fx(-10)), (fx(10), fx(-5)), (fx(15), fx(0)), (fx(75), fx(36)), (fx(100), dec("43.5"))]),
    );
    data.insert_curve(
        CurveId::new("curve.health"),
        curve(vec![
            (fx(0), fx(70)),
            (fx(15), fx(100)),
            (fx(21), dec("110.5")),
            (fx(44), fx(145)),
            (fx(48), fx(150)),
            (fx(64), fx(166)),
            (fx(100), fx(184)),
        ]),
    );
    // Placeholder: the exact armour-to-reduction table is not extracted yet.
    data.insert_curve(CurveId::new("curve.pdr"), curve(vec![(fx(0), fx(-22)), (fx(100), fx(20)), (fx(400), fx(83))]));

    let mut leggings = item("item.dark_leather_leggings", "Dark Leather Leggings", armor(Confidence::Unverified(fx(36))));
    leggings.move_speed_add = Some(Confidence::Unverified(fx(-4)));
    data.insert_item(leggings);

    data.insert_perk(perk(
        "perk.rogue.jokester",
        "Jokester",
        vec![StackedEffect::once(Confidence::Unverified(Effect::AllAttributes(2)))],
    ));
    data.insert_perk(perk(
        "perk.fighter.defense_mastery",
        "Defense Mastery",
        vec![
            StackedEffect::once(Confidence::Verified(Effect::RaiseCap(DerivedStatId::new(well_known::PDR), fx(75)))),
            StackedEffect::once(Confidence::Unverified(Effect::ItemArmorBonus(fx(15)))),
        ],
    ));
    data.insert_skill(SkillDef {
        id: SkillId::new("skill.fighter.fortified_ground"),
        name: "Fortified Ground".to_string(),
        required_classes: Vec::new(),
        effects: vec![StackedEffect::once(Confidence::Unverified(Effect::AllAttributes(3)))],
        strike: None,
    });
    data
}

fn naked_rogue() -> Loadout {
    Loadout {
        name: "naked-rogue".to_string(),
        class: ClassId::new("class.rogue"),
        perks: vec![],
        skills: vec![],
        gear: vec![],
        weapons: Weapons { main_hand: None },
        stacks: IdMap::new(),
        party: PartyBuffs::none(),
    }
}

fn legs(id: &str, rolls: Vec<Roll>) -> GearPiece {
    GearPiece { slot: Slot::Legs, id: ItemId::new(id), rolls }
}

#[test]
fn naked_baseline_matches_the_games_character_sheet() {
    let resolved = resolve(&naked_rogue(), &test_dataset()).unwrap();
    assert_eq!(*resolved.stat(well_known::PHYSICAL_POWER_BONUS).unwrap().value(), fx(-14));
    assert_eq!(
        *resolved.stat(well_known::ACTION_SPEED).unwrap().value(),
        dec("7.8125"),
        "the hybrid rating 0.25 AGI + 0.75 DEX is what produces this"
    );
    assert_eq!(*resolved.stat(well_known::HEALTH).unwrap().value(), dec("108.5"));
    assert_eq!(*resolved.stat(well_known::MOVE_SPEED).unwrap().value(), fx(306));
}

#[test]
fn action_speed_needs_dexterity_not_just_agility() {
    let data = test_dataset();
    let base = resolve(&naked_rogue(), &data).unwrap();
    let mut dex_loadout = naked_rogue();
    dex_loadout.gear = vec![legs("item.dark_leather_leggings", vec![Roll::Attribute(AttributeKind::Dexterity, 4)])];
    let with_dex = resolve(&dex_loadout, &data).unwrap();
    assert!(with_dex.stat(well_known::ACTION_SPEED).unwrap().value() > base.stat(well_known::ACTION_SPEED).unwrap().value());
    // 0.75 × 4 = +3 rating × 1.25%/pt = +3.75 points.
    assert_eq!(*with_dex.stat(well_known::ACTION_SPEED).unwrap().value(), dec("11.5625"));
}

#[test]
fn party_buffs_shift_rating_inputs() {
    let mut loadout = naked_rogue();
    loadout.perks = vec![PerkId::new("perk.rogue.jokester")];
    loadout.party.skills = vec![SkillId::new("skill.fighter.fortified_ground")];
    let resolved = resolve(&loadout, &test_dataset()).unwrap();
    assert_eq!(resolved.attributes.value().get(AttributeKind::Strength).points(), 14);
    assert_eq!(*resolved.stat(well_known::PHYSICAL_POWER_BONUS).unwrap().value(), fx(-2));
    let naked = resolve(&naked_rogue(), &test_dataset()).unwrap();
    assert!(
        resolved.stat(well_known::PHYSICAL_POWER_BONUS).unwrap().value()
            > naked.stat(well_known::PHYSICAL_POWER_BONUS).unwrap().value(),
        "party attributes must raise derived output through a rising curve"
    );
}

#[test]
fn gear_rolls_and_flat_move_speed_apply_at_their_stages() {
    let mut loadout = naked_rogue();
    loadout.gear = vec![legs(
        "item.dark_leather_leggings",
        vec![Roll::Attribute(AttributeKind::Dexterity, 4), Roll::MoveSpeedAdd(fx(2))],
    )];
    let resolved = resolve(&loadout, &test_dataset()).unwrap();
    assert_eq!(resolved.attributes.value().get(AttributeKind::Dexterity).points(), 24);
    // Curve 306, item −4, roll +2 → 304 (stage 5).
    assert_eq!(*resolved.stat(well_known::MOVE_SPEED).unwrap().value(), fx(304));
    assert_eq!(*resolved.stat(well_known::ARMOR_RATING).unwrap().value(), fx(36));
}

#[test]
fn pdr_is_capped_and_defense_mastery_raises_it_to_75() {
    let mut data = test_dataset();
    data.insert_item(item("item.test_plate", "Test Plate", armor(Confidence::Unverified(fx(400)))));
    let mut loadout = naked_rogue();
    loadout.gear = vec![legs("item.test_plate", vec![])];
    let capped = resolve(&loadout, &data).unwrap();
    assert_eq!(*capped.stat(well_known::PDR).unwrap().value(), fx(60));
    loadout.perks = vec![PerkId::new("perk.fighter.defense_mastery")];
    let raised = resolve(&loadout, &data).unwrap();
    assert_eq!(*raised.stat(well_known::PDR).unwrap().value(), fx(75));
}

#[test]
fn the_item_bonus_multiplies_worn_armour_and_not_its_enchantments() {
    let mut data = test_dataset();
    data.insert_item(item("item.test_cuirass", "Test Cuirass", armor(Confidence::Verified(fx(100)))));
    data.insert_perk(perk(
        "perk.test.armor_bonus",
        "Test Armor Bonus",
        vec![StackedEffect::once(Confidence::Verified(Effect::ItemArmorBonus(fx(50))))],
    ));
    let mut loadout = naked_rogue();
    loadout.gear = vec![legs(
        "item.test_cuirass",
        vec![Roll::Derived(DerivedStatId::new(well_known::ARMOR_RATING), fx(100))],
    )];
    loadout.perks = vec![PerkId::new("perk.test.armor_bonus")];
    let resolved = resolve(&loadout, &data).unwrap();
    assert_eq!(*resolved.stat(well_known::ARMOR_RATING).unwrap().value(), fx(250));
}

#[test]
fn the_defensive_trace_shows_both_buckets() {
    let mut data = test_dataset();
    data.insert_item(item("item.test_cuirass", "Test Cuirass", armor(Confidence::Verified(fx(100)))));
    let mut loadout = naked_rogue();
    loadout.gear = vec![legs(
        "item.test_cuirass",
        vec![Roll::Derived(DerivedStatId::new(well_known::ARMOR_RATING), fx(10))],
    )];
    loadout.perks = vec![PerkId::new("perk.fighter.defense_mastery")];
    let resolved = resolve(&loadout, &data).unwrap();
    let note = resolved.trace.iter().find(|n| n.stage == 7).expect("defensive chain leaves a note");
    assert!(
        note.detail.contains("item 100") && note.detail.contains("other 10"),
        "stage 7 must show what it multiplied and what it did not: {}",
        note.detail
    );
    assert!(note.detail.contains("+15"), "and the bonus it applied: {}", note.detail);
}

#[test]
fn more_item_bonus_never_means_less_armour() {
    let build = |item_ar: i64, other_ar: i64, bonus: i64| {
        let mut data = test_dataset();
        data.insert_item(item("item.prop_plate", "Prop Plate", armor(Confidence::Verified(fx(item_ar)))));
        data.insert_perk(perk(
            "perk.prop.bonus",
            "Prop Bonus",
            vec![StackedEffect::once(Confidence::Verified(Effect::ItemArmorBonus(fx(bonus))))],
        ));
        let mut loadout = naked_rogue();
        loadout.gear = vec![legs(
            "item.prop_plate",
            vec![Roll::Derived(DerivedStatId::new(well_known::ARMOR_RATING), fx(other_ar))],
        )];
        loadout.perks = vec![PerkId::new("perk.prop.bonus")];
        *resolve(&loadout, &data).unwrap().stat(well_known::ARMOR_RATING).unwrap().value()
    };
    for (item_ar, other_ar, low, extra) in [(0, 0, 0, 0), (37, 1999, 3, 197), (1500, 12, 150, 1), (999, 999, 0, 199)] {
        assert!(build(item_ar, other_ar, low + extra) >= build(item_ar, other_ar, low));
    }
}

#[test]
fn one_ability_applies_once_however_many_people_bring_it() {
    let data = test_dataset();
    let mut solo = naked_rogue();
    solo.perks = vec![PerkId::new("perk.rogue.jokester")];
    let mut shared = naked_rogue();
    shared.perks = vec![PerkId::new("perk.rogue.jokester")];
    shared.party.perks = vec![PerkId::new("perk.rogue.jokester")];
    assert_eq!(
        resolve(&shared, &data).unwrap().attributes.value().strength.points(),
        resolve(&solo, &data).unwrap().attributes.value().strength.points(),
        "a teammate holding your own perk must change nothing"
    );
    let resolved = resolve(&shared, &data).unwrap();
    let note = resolved.trace.iter().find(|n| n.label == "duplicate abilities").expect("stage 3 reports duplicates");
    assert!(note.detail.contains("Jokester (party)"), "the ignored ability must be named: {}", note.detail);
}

#[test]
fn a_teammate_bringing_your_own_skill_changes_nothing() {
    let data = test_dataset();
    let mut solo = naked_rogue();
    solo.skills = vec![SkillId::new("skill.fighter.fortified_ground")];
    let mut shared = naked_rogue();
    shared.skills = vec![SkillId::new("skill.fighter.fortified_ground")];
    shared.party.skills = vec![SkillId::new("skill.fighter.fortified_ground")];
    let one = resolve(&solo, &data).unwrap();
    let two = resolve(&shared, &data).unwrap();
    assert_eq!(two.attributes.value().strength.points(), one.attributes.value().strength.points());
    let bare = resolve(&naked_rogue(), &data).unwrap();
    assert_eq!(two.attributes.value().strength.points(), bare.attributes.value().strength.points() + 3);
}

#[test]
fn distinct_abilities_still_both_apply() {
    let data = test_dataset();
    let mut loadout = naked_rogue();
    loadout.perks = vec![PerkId::new("perk.rogue.jokester")];
    loadout.party.skills = vec![SkillId::new("skill.fighter.fortified_ground")];
    let both = resolve(&loadout, &data).unwrap();
    let mut alone = naked_rogue();
    alone.perks = vec![PerkId::new("perk.rogue.jokester")];
    let one = resolve(&alone, &data).unwrap();
    assert!(
        both.attributes.value().strength.points() > one.attributes.value().strength.points(),
        "Fortified Ground is a different ability and must still land"
    );
}

#[test]
fn every_computed_stat_can_say_what_it_was_made_of() {
    let data = test_dataset();
    let resolved = resolve(&naked_rogue(), &data).unwrap();
    for i in 0..resolved.breakdown.len() {
        let id = resolved.breakdown.key_at(i);
        let parts = resolved.breakdown.value_at(i);
        let value = resolved.stat(id.as_str()).expect("stat exists");
        assert_eq!(*parts.from_bonuses.value(), Fixed::zero(), "{} has bonuses from nowhere", id.as_str());
        assert_eq!(*parts.from_rating.value(), *value.value(), "{}", id.as_str());
    }
    assert!(resolved.breakdown.len() > 0, "a class with derived stats must produce a breakdown");
}

#[test]
fn an_ability_grants_the_from_bonuses_row() {
    let mut data = test_dataset();
    data.insert_perk(perk(
        "perk.test.tough",
        "Tough",
        vec![StackedEffect::once(Confidence::Verified(Effect::DerivedBonus(DerivedStatId::new(well_known::PDR), fx(7))))],
    ));
    let mut loadout = naked_rogue();
    loadout.perks = vec![PerkId::new("perk.test.tough")];
    let resolved = resolve(&loadout, &data).unwrap();
    let parts = resolved.breakdown.get(well_known::PDR).expect("pdr breakdown");
    assert_eq!(*parts.from_bonuses.value(), fx(7));
    let bare = resolve(&naked_rogue(), &data).unwrap();
    assert_eq!(
        *resolved.stat(well_known::PDR).unwrap().value(),
        *bare.stat(well_known::PDR).unwrap().value() + fx(7)
    );
}

#[test]
fn a_bonus_cannot_push_a_stat_past_its_cap() {
    let mut data = test_dataset();
    data.insert_perk(perk(
        "perk.test.enormous",
        "Enormous",
        vec![StackedEffect::once(Confidence::Verified(Effect::DerivedBonus(DerivedStatId::new(well_known::PDR), fx(500))))],
    ));
    let mut loadout = naked_rogue();
    loadout.perks = vec![PerkId::new("perk.test.enormous")];
    let resolved = resolve(&loadout, &data).unwrap();
    assert_eq!(*resolved.stat(well_known::PDR).unwrap().value(), fx(60));
}

#[test]
fn unknown_ids_are_named_errors() {
    let data = test_dataset();
    let mut loadout = naked_rogue();
    loadout.class = ClassId::new("class.bard");
    match resolve(&loadout, &data) {
        Err(ResolveError::UnknownClass(id)) => assert_eq!(id.as_str(), "class.bard"),
        _ => panic!("expected an unknown class"),
    }
    let mut loadout = naked_rogue();
    loadout.perks = vec![PerkId::new("perk.rogue.creep")];
    match resolve(&loadout, &data) {
        Err(ResolveError::UnknownPerk(id)) => assert_eq!(id.as_str(), "perk.rogue.creep"),
        _ => panic!("expected an unknown perk"),
    }
}

#[test]
fn confidence_survives_the_rating_model() {
    let resolved = resolve(&naked_rogue(), &test_dataset()).unwrap();
    assert_eq!(resolved.stat(well_known::ACTION_SPEED).unwrap().level(), ConfidenceLevel::Unverified);
    assert_eq!(resolved.stat(well_known::ARMOR_RATING).unwrap().level(), ConfidenceLevel::Verified);
}

#[test]
fn every_stage_leaves_a_trace() {
    let mut loadout = naked_rogue();
    loadout.perks = vec![PerkId::new("perk.rogue.jokester")];
    let resolved = resolve(&loadout, &test_dataset()).unwrap();
    for stage in 1..=8u8 {
        assert!(resolved.trace.iter().any(|n| n.stage == stage), "stage {stage} missing from trace");
    }
}

#[test]
fn an_attribute_roll_past_the_range_is_refused_as_out_of_range() {
    let mut loadout = naked_rogue();
    loadout.gear = vec![legs("item.dark_leather_leggings", vec![Roll::Attribute(AttributeKind::Dexterity, i32::MAX)])];
    assert!(matches!(resolve(&loadout, &test_dataset()), Err(ResolveError::OutOfRange)));
}

#[test]
fn an_unknown_item_is_named_even_with_sums_in_range() {
    let mut loadout = naked_rogue();
    loadout.gear = vec![legs("item.nothing", vec![])];
    assert!(matches!(resolve(&loadout, &test_dataset()), Err(ResolveError::UnknownItem(id)) if id.as_str() == "item.nothing"));
}

#[test]
fn the_first_failing_piece_is_the_one_named() {
    let mut loadout = naked_rogue();
    loadout.gear = vec![legs("item.first_missing", vec![]), legs("item.second_missing", vec![])];
    assert!(matches!(resolve(&loadout, &test_dataset()), Err(ResolveError::UnknownItem(id)) if id.as_str() == "item.first_missing"));
    let mut data = test_dataset();
    let mut boots = item("item.boots", "Boots", IdMap::new());
    boots.slot = Some(Slot::Feet);
    data.insert_item(boots);
    let mut loadout = naked_rogue();
    loadout.gear = vec![legs("item.boots", vec![]), legs("item.missing", vec![])];
    assert!(matches!(resolve(&loadout, &data), Err(ResolveError::WrongSlot { .. })));
    let mut loadout = naked_rogue();
    loadout.gear = vec![legs("item.missing", vec![]), legs("item.boots", vec![])];
    assert!(matches!(resolve(&loadout, &data), Err(ResolveError::UnknownItem(id)) if id.as_str() == "item.missing"));
}

#[test]
fn an_unknown_item_comes_before_an_unknown_perk() {
    let mut loadout = naked_rogue();
    loadout.gear = vec![legs("item.missing", vec![])];
    loadout.perks = vec![PerkId::new("perk.nobody")];
    assert!(matches!(resolve(&loadout, &test_dataset()), Err(ResolveError::UnknownItem(_))));
}

fn skill_name_through<S: DatasetSource>(source: &S, id: &str) -> Option<String> {
    source.skill(&SkillId::new(id)).map(|s| s.name.clone())
}

#[test]
fn a_dataset_answers_through_its_source_trait() {
    let data = test_dataset();
    assert_eq!(DatasetSource::build(&data), "test.build");
    assert_eq!(skill_name_through(&data, "skill.fighter.fortified_ground").as_deref(), Some("Fortified Ground"));
    assert_eq!(skill_name_through(&data, "skill.nobody.nothing"), None);
    assert!(DatasetSource::class(&data, &ClassId::new("class.rogue")).is_some());
    assert!(DatasetSource::perk(&data, &PerkId::new("perk.rogue.jokester")).is_some());
    assert!(DatasetSource::item(&data, &ItemId::new("item.nothing")).is_none());
    assert!(DatasetSource::curve(&data, &CurveId::new("curve.nothing")).is_none());
}

#[test]
fn an_unknown_armour_piece_leaves_the_armour_and_what_reads_it_unknown() {
    let mut data = test_dataset();
    data.insert_item(item(
        "item.guess_plate",
        "Guess Plate",
        armor(Confidence::Unknown { assumed: fx(40), note: "read off a video".to_string() }),
    ));
    let mut loadout = naked_rogue();
    loadout.gear = vec![legs("item.guess_plate", vec![])];
    let resolved = resolve(&loadout, &data).unwrap();
    let ar = resolved.stat(well_known::ARMOR_RATING).unwrap();
    assert_eq!(ar.level(), ConfidenceLevel::Unknown);
    assert_eq!(ar.note(), Some("read off a video"));
    let pdr = resolved.stat(well_known::PDR).unwrap();
    assert_eq!(pdr.level(), ConfidenceLevel::Unknown);
    assert!(pdr.note().unwrap().contains("read off a video"), "{:?}", pdr.note());
    // Stats that do not read the armour keep their own grade.
    assert_eq!(resolved.stat(well_known::HEALTH).unwrap().level(), ConfidenceLevel::Unverified);
}

#[test]
fn a_naked_character_has_verified_armour_and_no_stat_it_does_not_define() {
    let resolved = resolve(&naked_rogue(), &test_dataset()).unwrap();
    assert_eq!(resolved.stat(well_known::ARMOR_RATING).unwrap().level(), ConfidenceLevel::Verified);
    assert!(resolved.stat("derived.not_a_stat").is_none());
    assert!(resolved.stat(well_known::MOVE_SPEED).is_some());
}
