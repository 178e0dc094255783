use assay::attestations::{Attestation, Ledger};
use assay::confidence::{Confidence, ConfidenceLevel};
use assay::curve::Curve;
use assay::dataset::{ConfidenceDto, GradedMicro, LoadError};
use assay::derived::{evaluate_all, DerivedError, DerivedStatDef, RatingInput};
use assay::ids::{ClassId, CurveId, DerivedStatId, ItemId, PerkId};
use assay::schema::{AttributeBlock, AttributeKind, Effect, InMemoryDataset, PerkDef, StackedEffect};
use assay::stats::{ArmorPen, ArmorRating, Attribute, PdrPercent};
use assay::submission::Method;
use assay::table::IdMap;
use assay::well_known;
use assay::Fixed;
use std::collections::BTreeMap;

fn fx(units: i64) -> Fixed {
    Fixed::from_int(units)
}

// ── confidence ──────────────────────────────────────────────────────────

#[test]
fn propagation_is_minimum_over_all_nine_combinations() {
    let levels = [ConfidenceLevel::Verified, ConfidenceLevel::Unverified, ConfidenceLevel::Unknown];
    let graded = |l: ConfidenceLevel, v: i32| match l {
        ConfidenceLevel::Verified => Confidence::Verified(v),
        ConfidenceLevel::Unverified => Confidence::Unverified(v),
        ConfidenceLevel::Unknown => Confidence::Unknown { assumed: v, note: "n".to_string() },
    };
    let rank = |l: ConfidenceLevel| match l {
        ConfidenceLevel::Unknown => 0,
        ConfidenceLevel::Unverified => 1,
        ConfidenceLevel::Verified => 2,
    };
    for a in levels {
        for b in levels {
            let combined = graded(a, 2).zip_with(graded(b, 3), |x, y| x + y);
            let expected = if rank(a) <= rank(b) { a } else { b };
            assert_eq!(combined.level(), expected, "{a:?} ⊕ {b:?}");
            assert_eq!(*combined.value(), 5);
        }
    }
}

#[test]
fn one_unverified_input_degrades_a_verified_result() {
    let verified = Confidence::Verified(10);
    let unverified = Confidence::Unverified(1);
    let result = verified.zip_with(unverified, |a, b| a + b);
    assert_eq!(result.level(), ConfidenceLevel::Unverified);
}

#[test]
fn unknown_notes_are_carried_and_joined() {
    let a = Confidence::Unknown { assumed: 1, note: "Ambush buff consumption".to_string() };
    let b = Confidence::Unknown { assumed: 2, note: "Trickster on non-knives".to_string() };
    let combined = a.zip_with(b, |x, y| x + y);
    assert_eq!(combined.note(), Some("Ambush buff consumption; Trickster on non-knives"));
}

#[test]
fn map_preserves_grade_and_note() {
    let unknown = Confidence::Unknown { assumed: 4, note: "guess".to_string() };
    let mapped = unknown.map(|v| v * 2);
    assert_eq!(*mapped.value(), 8);
    assert_eq!(mapped.level(), ConfidenceLevel::Unknown);
    assert_eq!(mapped.note(), Some("guess"));
}

// ── derived ─────────────────────────────────────────────────────────────

fn rogue_block() -> Confidence<AttributeBlock> {
    let mut block = AttributeBlock::default();
    block.add(AttributeKind::Strength, 9);
    block.add(AttributeKind::Vigor, 6);
    block.add(AttributeKind::Agility, 25);
    block.add(AttributeKind::Dexterity, 20);
    Confidence::Unverified(block)
}

fn quarter_weights() -> Vec<(RatingInput, Fixed)> {
    vec![
        (RatingInput::Attribute(AttributeKind::Agility), "0.25".parse().unwrap()),
        (RatingInput::Attribute(AttributeKind::Dexterity), "0.75".parse().unwrap()),
    ]
}

fn action_speed_curve() -> Confidence<Curve> {
    Confidence::Unverified(
        Curve::linear(vec![
            (fx(0), fx(-38)),
            (fx(10), fx(-8)),
            (fx(13), fx(-2)),
            (fx(15), fx(0)),
            (fx(33), "22.5".parse().unwrap()),
            (fx(45), "34.5".parse().unwrap()),
            (fx(49), "37.5".parse().unwrap()),
            (fx(100), fx(63)),
        ])
        .unwrap(),
    )
}

fn curves(id: &str, curve: Confidence<Curve>) -> IdMap<CurveId, Confidence<Curve>> {
    let mut m = IdMap::new();
    m.insert(CurveId::new(id), curve);
    m
}

fn stat_value(values: &IdMap<DerivedStatId, Confidence<Fixed>>, id: &str) -> Fixed {
    *values.get(id).expect("stat present").value()
}

#[test]
fn hybrid_rating_reproduces_the_games_action_speed() {
    let def = DerivedStatDef {
        id: DerivedStatId::new(well_known::ACTION_SPEED),
        weights: quarter_weights(),
        curve: CurveId::new("curve.action_speed"),
        offset: Fixed::zero(),
        floor: None,
        cap: None,
    };
    let out = evaluate_all(
        &vec![def],
        &rogue_block(),
        IdMap::new(),
        &IdMap::new(),
        &curves("curve.action_speed", action_speed_curve()),
    )
    .unwrap();
    assert_eq!(stat_value(&out.values, well_known::ACTION_SPEED), "7.8125".parse::<Fixed>().unwrap());
}

fn move_speed_def() -> DerivedStatDef {
    DerivedStatDef {
        id: DerivedStatId::new(well_known::MOVE_SPEED),
        weights: vec![(RatingInput::Attribute(AttributeKind::Agility), Fixed::one())],
        curve: CurveId::new("curve.move_speed"),
        offset: fx(300),
        floor: None,
        cap: Some(fx(330)),
    }
}

fn move_speed_curve() -> Confidence<Curve> {
    Confidence::Unverified(Curve::linear(vec![(fx(0), fx(-10)), (fx(15), fx(0)), (fx(75), fx(36))]).unwrap())
}

#[test]
fn offset_and_cap_apply_after_the_curve() {
    let out = evaluate_all(
        &vec![move_speed_def()],
        &rogue_block(),
        IdMap::new(),
        &IdMap::new(),
        &curves("curve.move_speed", move_speed_curve()),
    )
    .unwrap();
    assert_eq!(stat_value(&out.values, well_known::MOVE_SPEED), fx(306));

    let mut fast = AttributeBlock::default();
    fast.add(AttributeKind::Agility, 75);
    let capped = evaluate_all(
        &vec![move_speed_def()],
        &Confidence::Unverified(fast),
        IdMap::new(),
        &IdMap::new(),
        &curves("curve.move_speed", move_speed_curve()),
    )
    .unwrap();
    assert_eq!(stat_value(&capped.values, well_known::MOVE_SPEED), fx(330), "336 must clamp to the 330 hard cap");
}

fn pdr_def(cap: i64) -> DerivedStatDef {
    DerivedStatDef {
        id: DerivedStatId::new(well_known::PDR),
        weights: vec![(RatingInput::Derived(DerivedStatId::new(well_known::ARMOR_RATING)), Fixed::one())],
        curve: CurveId::new("curve.pdr"),
        offset: Fixed::zero(),
        floor: None,
        cap: Some(fx(cap)),
    }
}

fn seeded_armor(rating: i64) -> IdMap<DerivedStatId, Confidence<Fixed>> {
    let mut seeded = IdMap::new();
    seeded.insert(DerivedStatId::new(well_known::ARMOR_RATING), Confidence::Verified(fx(rating)));
    seeded
}

#[test]
fn seeded_inputs_feed_dependent_stats() {
    let curve = Confidence::Unverified(Curve::linear(vec![(fx(0), fx(-22)), (fx(100), fx(20)), (fx(400), fx(83))]).unwrap());
    let out = evaluate_all(&vec![pdr_def(60)], &rogue_block(), seeded_armor(100), &IdMap::new(), &curves("curve.pdr", curve))
        .unwrap();
    assert_eq!(stat_value(&out.values, well_known::PDR), fx(20));
}

#[test]
fn cap_overrides_raise_the_ceiling() {
    let curve = || Confidence::Unverified(Curve::linear(vec![(fx(0), fx(0)), (fx(400), fx(90))]).unwrap());
    let base = evaluate_all(&vec![pdr_def(60)], &rogue_block(), seeded_armor(400), &IdMap::new(), &curves("curve.pdr", curve()))
        .unwrap();
    assert_eq!(stat_value(&base.values, well_known::PDR), fx(60));

    let mut overrides = IdMap::new();
    overrides.insert(DerivedStatId::new(well_known::PDR), fx(75));
    let raised = evaluate_all(&vec![pdr_def(60)], &rogue_block(), seeded_armor(400), &overrides, &curves("curve.pdr", curve()))
        .unwrap();
    assert_eq!(stat_value(&raised.values, well_known::PDR), fx(75), "the curve must be able to exceed 65% - confirmed in game");
}

#[test]
fn cycles_and_dangling_references_are_dataset_errors() {
    let link = |from: &str, to: &str| DerivedStatDef {
        id: DerivedStatId::new(from),
        weights: vec![(RatingInput::Derived(DerivedStatId::new(to)), Fixed::one())],
        curve: CurveId::new("curve.any"),
        offset: Fixed::zero(),
        floor: None,
        cap: None,
    };
    let curve = || Confidence::Unverified(Curve::linear(vec![(fx(0), fx(0)), (fx(1), fx(1))]).unwrap());
    let cyclic = vec![link("derived.a", "derived.b"), link("derived.b", "derived.a")];
    assert!(matches!(
        evaluate_all(&cyclic, &rogue_block(), IdMap::new(), &IdMap::new(), &curves("curve.any", curve())),
        Err(DerivedError::CyclicDependency(_))
    ));
    let dangling = vec![link("derived.a", "derived.missing")];
    assert!(matches!(
        evaluate_all(&dangling, &rogue_block(), IdMap::new(), &IdMap::new(), &curves("curve.any", curve())),
        Err(DerivedError::UnknownInput(_, _))
    ));
}

// ── ids ─────────────────────────────────────────────────────────────────

#[test]
fn ids_order_lexicographically_as_btree_keys() {
    let mut map: BTreeMap<ItemId, i32> = BTreeMap::new();
    map.insert(ItemId::new("item.rondel_dagger"), 1);
    map.insert(ItemId::new("item.castillon_dagger"), 2);
    map.insert(ItemId::new("item.dark_leather_leggings"), 3);
    let keys: Vec<&str> = map.keys().map(|k| k.as_str()).collect();
    assert_eq!(keys, ["item.castillon_dagger", "item.dark_leather_leggings", "item.rondel_dagger"]);
}

#[test]
fn display_is_the_slug() {
    assert_eq!(ClassId::new("class.rogue").to_string(), "class.rogue");
}

#[test]
fn id_tables_iterate_in_key_order() {
    let mut map: IdMap<ItemId, i32> = IdMap::new();
    map.insert(ItemId::new("item.rondel_dagger"), 1);
    map.insert(ItemId::new("item.castillon_dagger"), 2);
    map.insert(ItemId::new("item.dark_leather_leggings"), 3);
    map.insert(ItemId::new("item.castillon_dagger"), 4);
    assert_eq!(map.len(), 3);
    assert_eq!(map.key_at(0).as_str(), "item.castillon_dagger");
    assert_eq!(*map.value_at(0), 4);
    assert_eq!(map.key_at(2).as_str(), "item.rondel_dagger");
    assert_eq!(map.remove("item.rondel_dagger"), Some(1));
    assert_eq!(map.len(), 2);
    assert!(map.get("item.rondel_dagger").is_none());
}

// ── schema ──────────────────────────────────────────────────────────────

#[test]
fn attribute_block_sums_before_curves() {
    let mut block = AttributeBlock::default();
    block.add(AttributeKind::Strength, 9);
    block.add(AttributeKind::Agility, 25);
    block.add_all(2);
    block.add_all(3);
    assert_eq!(block.get(AttributeKind::Strength).points(), 14);
    assert_eq!(block.get(AttributeKind::Agility).points(), 30);
    assert_eq!(block.get(AttributeKind::Vigor).points(), 5);
}

#[test]
fn dataset_lookups_are_by_id() {
    let mut data = InMemoryDataset::new("test.build");
    data.insert_perk(PerkDef {
        id: PerkId::new("perk.rogue.jokester"),
        name: "Jokester".to_string(),
        required_classes: Vec::new(),
        effects: vec![StackedEffect::once(Confidence::Unverified(Effect::AllAttributes(2)))],
    });
    assert!(data.perk(&PerkId::new("perk.rogue.jokester")).is_some());
    assert!(data.perk(&PerkId::new("perk.rogue.creep")).is_none());
}

// ── stats ───────────────────────────────────────────────────────────────

#[test]
fn summable_magnitudes_sum_within_their_type() {
    let a = PdrPercent::new("12.5".parse().unwrap());
    let b = PdrPercent::new("7.5".parse().unwrap());
    assert_eq!((a + b).value(), Fixed::from_int(20));
    let fortified = Attribute::new(3);
    let jokester = Attribute::new(2);
    assert_eq!((fortified + jokester).points(), 5);
}

#[test]
fn newtypes_do_not_compare_across_types() {
    let rating = ArmorRating::new(Fixed::from_int(30));
    let pen = ArmorPen::new(Fixed::from_int(30));
    assert_eq!(rating.value(), pen.value());
}

// ── attestations ────────────────────────────────────────────────────────

fn saw(observer: &str, method: Method) -> Attestation {
    Attestation { observer: observer.to_string(), at: "2026-08-21".to_string(), method }
}

#[test]
fn two_people_are_two_and_one_person_twice_is_one() {
    let mut led = Ledger::default();
    assert!(led.record("item.cap", "grants.derived.armor_rating", saw("piper", Method::InGame)));
    assert!(!led.record("item.cap", "grants.derived.armor_rating", saw("piper", Method::InGame)));
    assert_eq!(led.independent("item.cap", "grants.derived.armor_rating"), 1);
    assert!(!led.supports_verified("item.cap", "grants.derived.armor_rating"));
    led.record("item.cap", "grants.derived.armor_rating", saw("friend", Method::ScreenshotOcr));
    assert_eq!(led.independent("item.cap", "grants.derived.armor_rating"), 2);
    assert!(led.supports_verified("item.cap", "grants.derived.armor_rating"));
}

#[test]
fn a_wiki_never_corroborates_however_many_people_quote_it() {
    let mut led = Ledger::default();
    for who in ["a", "b", "c", "d"] {
        led.record("item.cap", "grants.derived.armor_rating", saw(who, Method::Documented));
    }
    assert_eq!(led.independent("item.cap", "grants.derived.armor_rating"), 0);
    assert!(!led.supports_verified("item.cap", "grants.derived.armor_rating"));
    led.record("item.cap", "grants.derived.armor_rating", saw("piper", Method::InGame));
    assert_eq!(led.independent("item.cap", "grants.derived.armor_rating"), 1);
    assert!(!led.supports_verified("item.cap", "grants.derived.armor_rating"));
}

#[test]
fn changing_your_mind_replaces_your_reading() {
    let mut led = Ledger::default();
    led.record("item.cap", "name", saw("piper", Method::ScreenshotOcr));
    assert!(led.record("item.cap", "name", saw("piper", Method::InGame)));
    let list = led.items.get("item.cap").unwrap().get("name").unwrap();
    assert_eq!(list.len(), 1);
    assert_eq!(list.value_at(0).method, Method::InGame);
}

#[test]
fn evidence_is_about_one_field_and_does_not_spread() {
    let mut led = Ledger::default();
    led.record("item.cap", "name", saw("piper", Method::InGame));
    led.record("item.cap", "name", saw("friend", Method::InGame));
    assert!(led.supports_verified("item.cap", "name"));
    assert!(!led.supports_verified("item.cap", "grants.derived.armor_rating"));
    assert!(!led.supports_verified("item.other", "name"));
}

#[test]
fn fields_with_evidence_come_back_in_order() {
    let mut led = Ledger::default();
    led.record("item.cap", "name", saw("piper", Method::InGame));
    led.record("item.cap", "grants.derived.armor_rating", saw("piper", Method::InGame));
    assert_eq!(led.fields("item.cap"), vec!["grants.derived.armor_rating".to_string(), "name".to_string()]);
    assert!(led.fields("item.other").is_empty());
}

#[test]
fn only_seeing_the_game_offers_verified() {
    assert_eq!(Method::InGame.offered_grade(), "verified");
    assert_eq!(Method::ScreenshotTyped.offered_grade(), "verified");
    assert_eq!(Method::ScreenshotOcr.offered_grade(), "unverified");
    assert_eq!(Method::Documented.offered_grade(), "unverified");
    assert_eq!(Method::parse("in-game"), Some(Method::InGame));
    assert_eq!(Method::parse("in_game"), None);
}

// ── dataset grades ──────────────────────────────────────────────────────

#[test]
fn unknown_without_a_note_is_rejected() {
    let dto = GradedMicro { confidence: ConfidenceDto::Unknown, micro: 1, note: None };
    assert!(dto.into_fixed().is_err());
    let explained = GradedMicro { confidence: ConfidenceDto::Unknown, micro: 1, note: Some("guess".to_string()) };
    let value = explained.into_fixed().unwrap();
    assert_eq!(value.level(), ConfidenceLevel::Unknown);
    assert_eq!(value.note(), Some("guess"));
    assert_eq!(*value.value(), Fixed::from_micro(1));
    let err = ConfidenceDto::Unknown.wrap_with_note(3, None).unwrap_err();
    assert!(matches!(err, LoadError::Invalid(_)));
    assert!(err.to_string().contains("note"));
    assert_eq!(ConfidenceDto::parse("probably"), None);
    assert_eq!(ConfidenceDto::parse("unverified"), Some(ConfidenceDto::Unverified));
}
