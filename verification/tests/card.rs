use assay::card::{card_observation, card_submission};
use assay::doc::{parse_json, Doc};
use assay::submission::{Method, FORMAT};

fn node(text: &str) -> Doc {
    parse_json(text).unwrap()
}

#[test]
fn a_card_gathers_its_lines_by_kind() {
    let o = card_observation(&node(
        r#"{"id": "item.cap", "name": "Cap", "rarity": "", "slot": "head",
            "requiredClasses": ["class.rogue", 3],
            "lines": [
                {"what": "attr:strength", "amount": "2"},
                {"what": "stat:derived.b", "amount": "1.5"},
                {"what": "attr:strength", "amount": "+3"},
                {"what": "attr:agility", "amount": "two"},
                {"what": "stat:derived.a", "amount": "7"},
                {"what": "stat:derived.b", "amount": "2.5"},
                {"what": "move:", "amount": "-1"},
                {"what": "note", "amount": "ignored"}
            ]}"#,
    ));
    assert_eq!(o.id, "item.cap");
    assert_eq!(o.name, "Cap");
    assert_eq!(o.rarity, None);
    assert_eq!(o.slot.as_deref(), Some("head"));
    assert_eq!(o.required_classes, vec!["class.rogue".to_string()]);
    assert_eq!(o.attributes, vec![("strength".to_string(), 5)]);
    assert_eq!(
        o.grants,
        vec![("derived.a".to_string(), "7".to_string()), ("derived.b".to_string(), "2.5".to_string())]
    );
    assert_eq!(o.move_speed_add.as_deref(), Some("-1"));
}

#[test]
fn a_card_with_nothing_on_it_is_an_empty_observation() {
    let o = card_observation(&node("{}"));
    assert_eq!(o.id, "");
    assert!(o.rarity.is_none() && o.slot.is_none() && o.move_speed_add.is_none());
    assert!(o.grants.is_empty() && o.attributes.is_empty() && o.required_classes.is_empty());
}

#[test]
fn card_points_wrap_the_way_the_page_adds_them() {
    let o = card_observation(&node(
        r#"{"lines": [{"what": "attr:vigor", "amount": "2147483647"}, {"what": "attr:vigor", "amount": "1"}]}"#,
    ));
    assert_eq!(o.attributes, vec![("vigor".to_string(), i32::MIN)]);
}

#[test]
fn a_card_submission_carries_who_when_and_how() {
    let s = card_submission(
        &node(r#"{"id": "item.cap", "note": "seen twice", "unrecognised": ["???"]}"#),
        "someone",
        "2025-01-02",
        "in-game",
        "0.17.150.9384",
    )
    .unwrap();
    assert_eq!(s.submission, FORMAT);
    assert_eq!(s.observer, "someone");
    assert_eq!(s.observed_at, "2025-01-02");
    assert_eq!(s.build, "0.17.150.9384");
    assert!(s.method == Method::InGame);
    assert_eq!(s.note.as_deref(), Some("seen twice"));
    assert_eq!(s.items.len(), 1);
    assert_eq!(s.items[0].id, "item.cap");
    assert_eq!(s.unrecognised, vec!["???".to_string()]);
}

#[test]
fn a_card_submission_refuses_an_unknown_method() {
    let e = card_submission(&node("{}"), "a", "b", "telepathy", "x").unwrap_err();
    assert_eq!(e, "unknown method: telepathy");
}
