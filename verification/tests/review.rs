use assay::attestations::Ledger;
use assay::doc::{parse_json, Doc};
use assay::review::{attest, compare_items, flattened, grade_of, graded_groups, item_doc, review, with_fresh_items, write_json};
use assay::submission::{Method, Submission};
use assay::versions::{newest, sort_versions};

fn node(text: &str) -> Doc {
    parse_json(text).unwrap()
}

fn json(d: &Doc) -> String {
    let mut out = Vec::new();
    write_json(&mut out, d);
    out.into_iter().collect()
}

fn submission(observer: &str, method: &str) -> Submission {
    Submission::decode(&format!(
        r#"{{
          "submission": 1,
          "observer": "{observer}",
          "observedAt": "2026-08-20",
          "build": "0.17.150.9384",
          "method": "{method}",
          "items": [{{
            "id": "item.leather_cap",
            "name": "Leather Cap",
            "rarity": "uncommon",
            "slot": "head",
            "grants": {{"derived.armor_rating": "33"}},
            "attributes": {{"vigor": 2}}
          }}]
        }}"#
    ))
    .unwrap()
}

#[test]
fn json_text_is_compact_and_escaped_the_way_serde_writes_it() {
    let d = node(r#"{"a": [1, "x\"y\n", null, true], "b": {"c": -2.5}}"#);
    assert_eq!(json(&d), r#"{"a":[1,"x\"y\n",null,true],"b":{"c":-2.5}}"#);
}

#[test]
fn a_proposal_is_rendered_in_the_dataset_item_shape() {
    let s = submission("piper", "screenshot-ocr");
    let def = s.items[0].to_item(s.method).unwrap();
    let d = item_doc(&s.items[0], s.method, &def);
    assert_eq!(
        json(&d),
        [
            r#"{"id":"item.leather_cap","name":"Leather Cap","rarity":"uncommon","slot":"head","#,
            r#""attributes":{"confidence":"unverified","points":{"vigor":2}},"#,
            r#""grants":{"derived.armor_rating":{"confidence":"unverified","micro":33000000}}}"#,
        ]
        .concat()
    );
}

#[test]
fn flattening_walks_objects_and_keeps_leaves_as_json() {
    let f = flattened(&node(r#"{"a": {"b": 1, "c": [1, 2]}, "d": "x"}"#));
    assert_eq!(f.len(), 3);
    assert_eq!(f.get("a.b").map(String::as_str), Some("1"));
    assert_eq!(f.get("a.c").map(String::as_str), Some("[1,2]"));
    assert_eq!(f.get("d").map(String::as_str), Some("\"x\""));
}

#[test]
fn a_grade_is_not_a_disagreement_and_silence_is_not_either() {
    let current = node(r#"{"id": "i", "name": "Cap", "grants": {"x": {"confidence": "verified", "micro": 1}}, "weapon": 3}"#);
    let proposed = node(r#"{"id": "i", "name": "Cape", "grants": {"x": {"confidence": "unverified", "micro": 2}}}"#);
    let cs = compare_items("i", &current, &proposed);
    let fields: Vec<&str> = cs.iter().map(|c| c.field.as_str()).collect();
    assert_eq!(fields, vec!["grants.x.micro", "name"]);
    assert_eq!(cs[1].dataset, "\"Cap\"");
    assert_eq!(cs[1].submitted, "\"Cape\"");
    assert_eq!(cs[0].item, "i");
}

#[test]
fn a_review_sorts_items_into_new_known_and_disagreeing() {
    let s = submission("piper", "in-game");
    let def = s.items[0].to_item(s.method).unwrap();
    let same = item_doc(&s.items[0], s.method, &def);

    let empty = node(r#"{"items": []}"#);
    let r = review(&s, &empty).unwrap();
    assert_eq!(r.fresh.len(), 1);
    assert_eq!(r.fresh[0].0, "item.leather_cap");
    assert!(r.known.is_empty() && r.conflicts.is_empty());

    let file = Doc::Table(vec![("items".to_string(), Doc::List(vec![same]))]);
    let r = review(&s, &file).unwrap();
    assert!(r.fresh.is_empty() && r.conflicts.is_empty());
    assert_eq!(r.known, vec!["item.leather_cap".to_string()]);

    let differing = node(r#"{"items": [{"id": "item.leather_cap", "name": "Leather Hat", "slot": "head"}]}"#);
    let r = review(&s, &differing).unwrap();
    assert_eq!(r.conflicts.len(), 1);
    assert_eq!(r.conflicts[0].field, "name");
}

#[test]
fn a_review_refuses_an_observation_that_cannot_be_an_item() {
    let mut s = submission("piper", "in-game");
    s.items[0].slot = Some("tail".to_string());
    assert!(review(&s, &node("{}")).is_err());
}

#[test]
fn graded_groups_are_the_objects_that_carry_a_grade() {
    let d = node(r#"{"id": "i", "attributes": {"confidence": "verified", "points": {"vigor": 2}}, "grants": {"x": {"confidence": "unverified", "micro": 1}}}"#);
    // The parser keeps object keys in order.
    assert_eq!(graded_groups(&d), vec!["attributes".to_string(), "grants.x".to_string(), "id".to_string()]);
    assert_eq!(grade_of(&d, "grants.x").as_deref(), Some("unverified"));
    assert_eq!(grade_of(&d, "attributes").as_deref(), Some("verified"));
    assert_eq!(grade_of(&d, "id"), None);
    assert_eq!(grade_of(&d, "nowhere.at.all"), None);
}

#[test]
fn a_second_independent_reader_raises_an_unverified_field() {
    let mut ledger = Ledger::default();
    let first = attest(&submission("piper", "screenshot-ocr"), &mut ledger).unwrap();
    assert!(first.is_empty());
    let second = attest(&submission("wren", "screenshot-ocr"), &mut ledger).unwrap();
    let raised: Vec<&str> = second.iter().map(|p| p.field.as_str()).collect();
    // A grant's path runs through its stat id, and the walk to its grade
    // splits at every dot, the id's own included: the grant is recorded but
    // its grade is never found, so only the attributes are raised.
    assert_eq!(raised, vec!["attributes"]);
    assert_eq!(ledger.independent("item.leather_cap", "grants.derived.armor_rating"), 2);
    assert!(second.iter().all(|p| p.observers == 2 && p.item == "item.leather_cap"));
    // The same reader again is no new evidence.
    let again = attest(&submission("wren", "screenshot-ocr"), &mut ledger).unwrap();
    assert!(again.iter().all(|p| p.observers == 2));
}

#[test]
fn a_field_read_in_game_has_nowhere_to_rise() {
    let mut ledger = Ledger::default();
    attest(&submission("piper", "in-game"), &mut ledger).unwrap();
    let second = attest(&submission("wren", "in-game"), &mut ledger).unwrap();
    assert!(second.is_empty());
    assert_eq!(ledger.independent("item.leather_cap", "grants.derived.armor_rating"), 2);
}

#[test]
fn builds_sort_as_text_and_the_last_is_newest() {
    let names = vec!["0.17.150.9384".to_string(), "0.15.134.8480".to_string(), "0.16.0.1".to_string()];
    assert_eq!(
        sort_versions(&names),
        vec!["0.15.134.8480".to_string(), "0.16.0.1".to_string(), "0.17.150.9384".to_string()]
    );
    assert_eq!(newest(&names).as_deref(), Some("0.17.150.9384"));
    assert_eq!(newest(&Vec::new()), None);
}

#[test]
fn fresh_items_are_written_in_id_order() {
    let items = vec![node(r#"{"id":"item.b"}"#), node(r#"{"id":"item.d"}"#)];
    let fresh = vec![
        ("item.c".to_string(), node(r#"{"id":"item.c"}"#)),
        ("item.a".to_string(), node(r#"{"id":"item.a"}"#)),
    ];
    let merged = with_fresh_items(items, fresh);
    let ids: Vec<String> = merged.iter().map(|d| json(d)).collect();
    assert_eq!(ids, vec![r#"{"id":"item.a"}"#, r#"{"id":"item.b"}"#, r#"{"id":"item.c"}"#, r#"{"id":"item.d"}"#]);
}
