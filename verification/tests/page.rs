use assay::dataset::{decode, Dataset, DatasetText};
use assay::doc::Doc;
use assay::json_text::pretty_text;
use assay::page::{catalog, compare_loadouts, exchange, resolve_loadout, submission_json};
use assay::submission::Submission;
use assay::situation::held_weapon;
use assay::ids::{ClassId, ItemId};
use assay::loadout::Loadout;

fn text(classes: &str, curves: &str, items: &str, perks: &str, skills: &str) -> DatasetText {
    DatasetText {
        manifest: r#"{"build":"x","label":"t","released":"2026-01-01","sources":[
            {"file":"items","origin":"wiki","scraped":"2026-01-01","reviewed":true}]}"#
            .to_string(),
        classes: classes.to_string(),
        curves: curves.to_string(),
        items: items.to_string(),
        perks: perks.to_string(),
        skills: skills.to_string(),
    }
}

const CURVES: &str = r#"{"curves":[
    {"id":"curve.health","confidence":"unverified","points":[[0,0],[100000000,100000000]]}]}"#;

const CLASSES: &str = r#"{"classes":[{"id":"class.rogue","name":"Rogue",
    "base_attributes":{"confidence":"verified","points":{"strength":10,"vigor":6,"agility":24,
        "dexterity":20,"will":10,"knowledge":10,"resourcefulness":25}},
    "derived":[{"id":"derived.health","weights":[{"kind":"attribute","ref":"strength","weight":250000},
        {"kind":"attribute","ref":"vigor","weight":750000}],"curve":"curve.health","offset":25000000}]}]}"#;

const ITEMS: &str = r#"{"items":[{"id":"item.arming_sword","name":"Arming Sword","rarity":"common",
    "slot":"weapon","attributes":{"confidence":"unverified","points":{"strength":1}},
    "grants":{"derived.armor_rating":{"confidence":"verified","micro":3000000}},
    "weapon":{"base_damage":{"confidence":"unverified","micro":32000000},
        "armor_pen":{"confidence":"unverified","micro":0},
        "combo":[{"kind":"slash","scaling":{"confidence":"unverified","micro":100000000}},
                 {"kind":"pierce","scaling":{"confidence":"unverified","micro":110000000}}]}},
    {"id":"item.cap","name":"Cap","rarity":"common"}]}"#;

const PERKS: &str = r#"{"perks":[{"id":"perk.rogue.jokester","name":"Jokester",
    "effects":[{"confidence":"unverified","kind":"all_attributes","points":2}]}]}"#;

const SKILLS: &str = r#"{"skills":[{"id":"skill.rogue.sneak_attack","name":"Sneak Attack","effects":[],
    "strike":{"scaling":{"confidence":"verified","micro":0},"flat_bonus":{"confidence":"verified","micro":15000000}}}]}"#;

fn dataset() -> Dataset {
    decode(&text(CLASSES, CURVES, ITEMS, PERKS, SKILLS), "x").unwrap()
}

fn reply(text: &str) -> serde_json::Value {
    serde_json::from_str(text).unwrap()
}

#[test]
fn a_failure_reply_is_compact_json_with_its_keys_in_order() {
    let data = dataset();
    assert_eq!(
        resolve_loadout(&data.entities, "{"),
        r#"{"error":"EOF while parsing an object at line 1 column 1","ok":false}"#
    );
}

#[test]
fn the_catalog_offers_every_choice_the_dataset_holds() {
    let data = dataset();
    let text = catalog(&data);
    assert!(text.starts_with(r#"{"attributes":["#), "{text}");
    let out = reply(&text);
    assert_eq!(out["ok"], serde_json::Value::Bool(true));
    assert_eq!(out["build"], "x");
    assert_eq!(out["label"], "t");
    assert_eq!(out["attributes"].as_array().unwrap().len(), 7);
    assert_eq!(out["classes"][0]["id"], "class.rogue");
    assert_eq!(out["classes"][0]["name"], "Rogue");
    let items = out["items"].as_array().unwrap();
    assert_eq!(items.len(), 2);
    assert_eq!(items[0]["id"], "item.arming_sword");
    assert_eq!(items[0]["slot"], "weapon");
    assert_eq!(items[0]["attributes"]["strength"], 1);
    assert_eq!(items[0]["attributesGrade"], "unverified");
    assert_eq!(items[0]["grants"]["derived.armor_rating"]["value"], "3");
    assert_eq!(items[0]["weapon"]["baseDamage"]["value"], "32");
    assert_eq!(items[0]["weapon"]["combo"].as_array().unwrap().len(), 2);
    assert_eq!(items[0]["weapon"]["combo"][1]["kind"], "pierce");
    assert_eq!(items[1]["id"], "item.cap");
    assert_eq!(items[1]["weapon"], serde_json::Value::Null);
    assert_eq!(items[1]["slot"], serde_json::Value::Null);
    assert_eq!(out["perks"][0]["name"], "Jokester");
    assert_eq!(out["skills"][0]["attacks"], serde_json::Value::Bool(true));
    let slots = out["slots"].as_array().unwrap();
    assert_eq!(slots.len(), 9);
}

#[test]
fn a_catalog_name_is_escaped_in_the_reply() {
    let perks = r#"{"perks":[{"id":"perk.rogue.jokester","name":"Jo\"ke\nster",
    "effects":[{"confidence":"unverified","kind":"all_attributes","points":2}]}]}"#;
    let data = decode(&text(CLASSES, CURVES, ITEMS, perks, SKILLS), "x").unwrap();
    let out = catalog(&data);
    assert!(out.contains(r#"{"id":"perk.rogue.jokester","name":"Jo\"ke\nster"}"#), "{out}");
}

#[test]
fn pretty_json_indents_two_spaces_a_level() {
    let d = Doc::Table(vec![
        ("a".to_string(), Doc::List(vec![Doc::Number("1".to_string()), Doc::List(vec![])])),
        ("b".to_string(), Doc::Str("x".to_string())),
    ]);
    assert_eq!(pretty_text(&d), "{\n  \"a\": [\n    1,\n    []\n  ],\n  \"b\": \"x\"\n}");
}

#[test]
fn a_submission_from_a_card_is_read_back_by_the_reader() {
    let card = r#"{"id":"item.leather_cap","name":"Leather Cap","rarity":"common","slot":"head",
        "lines":[{"what":"attr:strength","amount":"2"},{"what":"stat:derived.armor_rating","amount":"11"}],
        "unrecognised":["+1 luck"]}"#;
    let out = reply(&submission_json(card, "ann", "2026-02-01", "in-game", "x"));
    assert_eq!(out["ok"], serde_json::Value::Bool(true));
    let written = out["text"].as_str().unwrap();
    assert!(written.starts_with("{\n  \"submission\": 1,\n  \"observer\": \"ann\",\n  \"observedAt\": \"2026-02-01\","));
    assert!(written.ends_with("}\n"));
    let back = Submission::decode(written).unwrap();
    assert_eq!(back.observer, "ann");
    assert_eq!(back.items.len(), 1);
    assert_eq!(back.items[0].id, "item.leather_cap");
    assert_eq!(back.items[0].attributes, vec![("strength".to_string(), 2)]);
    assert_eq!(back.items[0].grants, vec![("derived.armor_rating".to_string(), "11".to_string())]);
    assert_eq!(back.unrecognised, vec!["+1 luck".to_string()]);
}

#[test]
fn a_submission_with_an_unknown_method_is_refused_by_name() {
    let out = submission_json(r#"{"id":"item.x"}"#, "ann", "2026-02-01", "carrier-pigeon", "x");
    assert_eq!(out, r#"{"error":"unknown method: carrier-pigeon","ok":false}"#);
}

#[test]
fn a_card_that_is_not_json_is_refused() {
    let out = submission_json("{not json", "ann", "2026-02-01", "in-game", "x");
    assert!(out.starts_with("{\"error\":"));
    assert!(out.ends_with(",\"ok\":false}"));
}

#[test]
fn a_resolved_loadout_shows_each_stat_as_a_decimal_string() {
    let data = dataset();
    let out = reply(&resolve_loadout(&data.entities, r#"{"name":"naked","class":"class.rogue"}"#));
    assert_eq!(out["ok"], serde_json::Value::Bool(true));
    assert_eq!(out["name"], "naked");
    assert_eq!(out["build"], "x");
    assert_eq!(out["attributes"]["points"]["strength"], 10);
    let rows = out["derived"].as_array().unwrap();
    let health = rows.iter().find(|r| r["id"] == "derived.health").unwrap();
    assert_eq!(health["label"], "health");
    assert_eq!(health["value"], "32");
    assert_eq!(health["breakdown"]["rating"]["value"], "7");
    assert_eq!(health["breakdown"]["beforeMove"], "32");
    assert_eq!(health["breakdown"]["movedLater"], false);
}

#[test]
fn an_unknown_class_is_answered_with_its_error() {
    let data = dataset();
    let out = resolve_loadout(&data.entities, r#"{"class":"class.bard"}"#);
    assert_eq!(out, r#"{"error":"class not in dataset: class.bard","ok":false}"#);
}

#[test]
fn a_comparison_states_each_difference_with_its_sign() {
    let data = dataset();
    let a = r#"{"class":"class.rogue"}"#;
    let b = r#"{"class":"class.rogue","perks":["perk.rogue.jokester"]}"#;
    let out = reply(&compare_loadouts(&data.entities, a, b));
    assert_eq!(out["ok"], serde_json::Value::Bool(true));
    let deltas = out["delta"].as_array().unwrap();
    let health = deltas.iter().find(|r| r["id"] == "derived.health").unwrap();
    // 12 x 0.25 + 8 x 0.75 = 9, plus 25.
    assert_eq!(health["from"], "32");
    assert_eq!(health["to"], "34");
    assert_eq!(health["delta"], "+2");
    assert_eq!(health["same"], false);
    assert_eq!(health["confidence"], "unverified");
}

#[test]
fn a_comparison_names_the_side_that_failed() {
    let data = dataset();
    let out = compare_loadouts(&data.entities, r#"{"class":"class.rogue"}"#, r#"{"class":"class.bard"}"#);
    assert_eq!(out, r#"{"error":"class not in dataset: class.bard","ok":false,"side":"b"}"#);
}

#[test]
fn an_attacker_with_nothing_in_hand_has_nothing_to_swing() {
    let data = dataset();
    let out = exchange(&data.entities, r#"{"class":"class.rogue"}"#, r#"{"class":"class.rogue"}"#, "{}");
    assert_eq!(out, r#"{"error":"the attacker has no weapon, so there is nothing to swing","ok":false}"#);
}

#[test]
fn an_exchange_names_the_side_whose_class_is_unknown() {
    let data = dataset();
    let out = exchange(&data.entities, r#"{"class":"class.rogue"}"#, r#"{"class":"class.bard"}"#, "{}");
    assert_eq!(out, r#"{"error":"defender: class not in dataset: class.bard","ok":false}"#);
}

#[test]
fn a_held_item_that_is_not_a_weapon_is_refused() {
    let data = dataset();
    let attacker = r#"{"class":"class.rogue","weapons":{"mainHand":"item.cap"}}"#;
    let out = exchange(&data.entities, attacker, r#"{"class":"class.rogue"}"#, "{}");
    assert_eq!(out, r#"{"error":"item.cap is not a weapon in this dataset","ok":false}"#);
}

#[test]
fn the_held_weapon_is_the_main_hand_item_when_it_is_a_weapon() {
    let data = dataset();
    let mut l = Loadout::bare("duelist", ClassId::new("class.rogue"));
    assert_eq!(
        held_weapon(&l, &data.entities).unwrap_err(),
        "duelist has no [weapons] main_hand, so there is nothing to swing"
    );
    l.weapons.main_hand = Some(ItemId::new("item.cap"));
    assert_eq!(held_weapon(&l, &data.entities).unwrap_err(), "Cap is not a weapon");
    l.weapons.main_hand = Some(ItemId::new("item.ghost"));
    assert_eq!(held_weapon(&l, &data.entities).unwrap_err(), "item not in dataset: item.ghost");
    l.weapons.main_hand = Some(ItemId::new("item.arming_sword"));
    let (id, _) = held_weapon(&l, &data.entities).unwrap();
    assert_eq!(id.as_str(), "item.arming_sword");
}
