use assay::dataset::{decode, DatasetText, EntityKind, LoadError};
use assay::dataset_file::decode_curves_file;
use assay::doc::parse_json;
use assay::ids::{ClassId, ItemId, SkillId};
use assay::loadout::Loadout;
use assay::resolve::resolve;
use assay::schema::AttributeKind;
use assay::Fixed;

fn text(classes: &str, curves: &str, items: &str, perks: &str, skills: &str) -> DatasetText {
    DatasetText {
        manifest: r#"{"build":"x","label":"t","released":"2026-01-01","sources":[
            {"file":"items","origin":"wiki","scraped":"2026-01-01","reviewed":true}]}"#
            .to_string(),
        classes: classes.to_string(),
        curves: curves.to_string(),
        items: items.to_string(),
        perks: perks.to_string(),
        skills: skills.to_string(),
    }
}

const CURVES: &str = r#"{"curves":[
    {"id":"curve.health","confidence":"unverified","points":[[0,0],[100000000,100000000]]}]}"#;

const CLASSES: &str = r#"{"classes":[{"id":"class.rogue","name":"Rogue",
    "base_attributes":{"confidence":"verified","points":{"strength":10,"vigor":6,"agility":24,
        "dexterity":20,"will":10,"knowledge":10,"resourcefulness":25}},
    "derived":[{"id":"derived.health","weights":[{"kind":"attribute","ref":"strength","weight":250000},
        {"kind":"attribute","ref":"vigor","weight":750000}],"curve":"curve.health","offset":25000000}]}]}"#;

const ITEMS: &str = r#"{"items":[{"id":"item.arming_sword","name":"Arming Sword","rarity":"common",
    "slot":"weapon","attributes":{"confidence":"unverified","points":{"strength":1}},
    "grants":{"derived.armor_rating":{"confidence":"verified","micro":3000000}},
    "weapon":{"base_damage":{"confidence":"unverified","micro":32000000},
        "armor_pen":{"confidence":"unverified","micro":0},
        "combo":[{"kind":"slash","scaling":{"confidence":"unverified","micro":100000000}},
                 {"kind":"pierce","scaling":{"confidence":"unverified","micro":110000000}}]}}]}"#;

const PERKS: &str = r#"{"perks":[{"id":"perk.rogue.jokester","name":"Jokester",
    "effects":[{"confidence":"unverified","kind":"all_attributes","points":2}]}]}"#;

const SKILLS: &str = r#"{"skills":[{"id":"skill.rogue.sneak_attack","renamed_from":"skill.rogue.backstab",
    "name":"Sneak Attack","effects":[],
    "strike":{"scaling":{"confidence":"verified","micro":0},"flat_bonus":{"confidence":"verified","micro":15000000}}}]}"#;

fn good() -> DatasetText {
    text(CLASSES, CURVES, ITEMS, PERKS, SKILLS)
}

#[test]
fn a_stat_with_a_field_of_its_own_cannot_hide_in_grants() {
    let text = DatasetText {
        manifest: r#"{"build":"x","label":"t","released":"2026-01-01","sources":[]}"#.to_string(),
        classes: r#"{"classes":[]}"#.to_string(),
        curves: r#"{"curves":[]}"#.to_string(),
        items: r#"{"items":[{"id":"item.x","name":"X","grants":{
            "derived.weapon_damage":{"confidence":"verified","micro":32000000}}}]}"#
            .to_string(),
        perks: r#"{"perks":[]}"#.to_string(),
        skills: r#"{"skills":[]}"#.to_string(),
    };
    let refused = decode(&text, "x");
    let message = match refused {
        Err(e) => e.to_string(),
        Ok(_) => panic!("a grant with a field of its own was accepted"),
    };
    assert!(message.contains("weapon.base_damage"), "{message}");
}

#[test]
fn unknown_fields_are_rejected() {
    let bad = r#"{"curves":[{"id":"c","confidence":"verified","points":[[0,0],[1,1]],"typo":1}]}"#;
    let err = decode_curves_file(&parse_json(bad).unwrap()).unwrap_err();
    assert!(err.contains("typo"), "{err}");
}

#[test]
fn unknown_confidence_grade_is_rejected() {
    let bad = r#"{"curves":[{"id":"c","confidence":"probably","points":[[0,0],[1,1]]}]}"#;
    assert!(decode_curves_file(&parse_json(bad).unwrap()).is_err());
}

#[test]
fn a_small_version_decodes_into_every_table() {
    let ds = decode(&good(), "x").unwrap();
    assert_eq!(ds.manifest.label, "t");
    assert_eq!(ds.entities.build(), "x");
    assert_eq!(ds.ids.get("curve.health"), Some(&EntityKind::Curve));
    assert_eq!(ds.ids.get("class.rogue"), Some(&EntityKind::Class));
    assert_eq!(ds.ids.get("item.arming_sword"), Some(&EntityKind::Item));
    assert_eq!(ds.ids.get("perk.rogue.jokester"), Some(&EntityKind::Perk));
    assert_eq!(ds.ids.get("skill.rogue.sneak_attack"), Some(&EntityKind::Skill));
    assert_eq!(ds.renames.get("skill.rogue.sneak_attack").map(|s| s.as_str()), Some("skill.rogue.backstab"));

    let sword = ds.entities.item(&ItemId::new("item.arming_sword")).unwrap();
    let weapon = sword.weapon.as_ref().unwrap();
    assert_eq!(*weapon.base_damage.value(), Fixed::from_int(32));
    assert_eq!(weapon.combo.len(), 2);
    assert_eq!(*weapon.combo[1].scaling.value(), Fixed::from_int(110));
    assert_eq!(sword.grants.len(), 1);
    let printed = sword.attributes.as_ref().unwrap().value();
    assert_eq!(printed.len(), 1);
    assert_eq!(printed[0].0, AttributeKind::Strength);

    let skill = ds.entities.skill(&SkillId::new("skill.rogue.sneak_attack")).unwrap();
    let strike = skill.strike.as_ref().unwrap();
    assert_eq!(*strike.flat_bonus.as_ref().unwrap().value(), Fixed::from_int(15));
    assert!(strike.base.is_none());
}

#[test]
fn a_decoded_version_resolves() {
    let ds = decode(&good(), "x").unwrap();
    let loadout = Loadout::bare("naked", ClassId::new("class.rogue"));
    let resolved = resolve(&loadout, &ds.entities).unwrap();
    // 10 x 0.25 + 6 x 0.75 = 7, through the identity curve, plus 25.
    assert_eq!(*resolved.stat("derived.health").unwrap().value(), Fixed::from_int(32));
}

#[test]
fn a_manifest_of_another_build_is_refused() {
    let err = decode(&good(), "y").unwrap_err();
    assert!(matches!(err, LoadError::Invalid(_)), "{}", err.to_string());
}

#[test]
fn unreviewed_data_never_reaches_the_resolver() {
    let mut t = good();
    t.manifest = r#"{"build":"x","label":"t","released":"2026-01-01","sources":[
        {"file":"perks","origin":"wiki","scraped":"2026-01-01","reviewed":false}]}"#
        .to_string();
    let err = decode(&t, "x").unwrap_err();
    assert!(err.to_string().contains("perks"), "{}", err.to_string());
}

#[test]
fn a_broken_file_is_named_in_the_refusal() {
    let mut t = good();
    t.items = r#"{"items":[{"id":"item.x"}]}"#.to_string();
    match decode(&t, "x") {
        Err(LoadError::Schema { path, message }) => {
            assert_eq!(path, "items");
            assert!(message.contains("name"), "{message}");
        }
        other => panic!("expected a schema error, got {other:?}"),
    }
    let mut t = good();
    t.manifest = "{".to_string();
    match decode(&t, "x") {
        Err(LoadError::Schema { path, .. }) => assert_eq!(path, "manifest"),
        other => panic!("expected a schema error, got {other:?}"),
    }
}

#[test]
fn an_assumption_without_a_note_is_refused() {
    let curves = r#"{"curves":[{"id":"curve.health","confidence":"unknown","points":[[0,0],[1,1]]}]}"#;
    let err = decode(&text(CLASSES, curves, ITEMS, PERKS, SKILLS), "x").unwrap_err();
    assert!(err.to_string().contains("note"));
    let noted = r#"{"curves":[{"id":"curve.health","confidence":"unknown","points":[[0,0],[1,1]],"note":"a guess"}]}"#;
    assert!(decode(&text(CLASSES, noted, ITEMS, PERKS, SKILLS), "x").is_ok());
}

#[test]
fn curves_must_ascend() {
    let curves = r#"{"curves":[{"id":"curve.health","confidence":"verified","points":[[5,0],[5,1]]}]}"#;
    let err = decode(&text(CLASSES, curves, ITEMS, PERKS, SKILLS), "x").unwrap_err();
    assert!(matches!(err, LoadError::Invalid(_)));
}

#[test]
fn a_class_cannot_use_a_curve_the_version_lacks() {
    let classes = CLASSES.replace("\"curve\":\"curve.health\"", "\"curve\":\"curve.missing\"");
    let err = decode(&text(&classes, CURVES, ITEMS, PERKS, SKILLS), "x").unwrap_err();
    assert!(err.to_string().contains("curve.missing"));
}

#[test]
fn weights_are_unique_and_present() {
    let twice = CLASSES.replace("\"ref\":\"vigor\"", "\"ref\":\"strength\"");
    assert!(decode(&text(&twice, CURVES, ITEMS, PERKS, SKILLS), "x").is_err());
    let none = r#"{"classes":[{"id":"class.rogue","name":"Rogue",
        "base_attributes":{"confidence":"verified","points":{}},
        "derived":[{"id":"derived.health","weights":[],"curve":"curve.health"}]}]}"#;
    let err = decode(&text(none, CURVES, ITEMS, PERKS, SKILLS), "x").unwrap_err();
    assert!(err.to_string().contains("no weights"));
}

#[test]
fn a_rename_must_retire_the_old_id() {
    let skills = SKILLS.replace("skill.rogue.backstab", "perk.rogue.jokester");
    let err = decode(&text(CLASSES, CURVES, ITEMS, PERKS, &skills), "x").unwrap_err();
    assert!(err.to_string().contains("perk.rogue.jokester"));
}

#[test]
fn effects_need_the_fields_their_kind_reads() {
    let perks = r#"{"perks":[{"id":"perk.x","name":"X","effects":[{"confidence":"verified","kind":"raise_cap","micro":1}]}]}"#;
    let err = decode(&text(CLASSES, CURVES, ITEMS, perks, SKILLS), "x").unwrap_err();
    assert!(err.to_string().contains("target"));
    let gated = r#"{"perks":[{"id":"perk.x","name":"X","effects":[
        {"confidence":"verified","kind":"derived_bonus","target":"derived.physical_power_bonus","micro":10000000,"when":"blunt"}]}]}"#;
    assert!(decode(&text(CLASSES, CURVES, ITEMS, gated, SKILLS), "x").is_ok());
}
