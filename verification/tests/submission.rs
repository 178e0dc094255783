use assay::confidence::ConfidenceLevel;
use assay::dataset::LoadError;
use assay::loadout::Slot;
use assay::schema::AttributeKind;
use assay::stats::Rarity;
use assay::submission::{check_id, Method, Submission};
use assay::Fixed;

fn one() -> &'static str {
    r#"{
      "submission": 1,
      "observer": "piper",
      "observedAt": "2026-08-20",
      "build": "0.17.150.9384",
      "method": "in-game",
      "items": [{
        "id": "item.leather_cap",
        "name": "Leather Cap",
        "rarity": "uncommon",
        "slot": "head",
        "grants": {"derived.armor_rating": "33"},
        "attributes": {"vigor": 2},
        "moveSpeedAdd": "-3"
      }]
    }"#
}

#[test]
fn the_method_decides_what_grade_is_offered() {
    let seen = Submission::decode(one()).unwrap();
    let item = seen.items[0].to_item(seen.method).unwrap();
    assert_eq!(item.grants.get("derived.armor_rating").unwrap().level(), ConfidenceLevel::Verified);
    let ocr = seen.items[0].to_item(Method::ScreenshotOcr).unwrap();
    assert_eq!(ocr.grants.get("derived.armor_rating").unwrap().level(), ConfidenceLevel::Unverified);
}

#[test]
fn an_anonymous_or_empty_submission_is_refused() {
    let anon = one().replace(r#""observer": "piper""#, r#""observer": " ""#);
    assert!(Submission::decode(&anon).is_err());
    let empty = r#"{"submission":1,"observer":"p","observedAt":"x","build":"y","method":"in-game"}"#;
    assert!(Submission::decode(empty).is_err());
}

#[test]
fn over_precision_is_refused_rather_than_rounded() {
    let too_fine = one().replace(r#""33""#, r#""33.1234567""#);
    let parsed = Submission::decode(&too_fine).unwrap();
    assert!(parsed.items[0].to_item(parsed.method).is_err());
}

#[test]
fn an_id_that_looks_like_another_id_is_refused() {
    for attack in ["item.leather_cap ", " item.leather_cap", "item.leather_сap", "item.Leather_Cap", "item.leather-cap"] {
        let body = one().replace(r#""item.leather_cap""#, &format!("{attack:?}"));
        let refused = Submission::decode(&body);
        assert!(refused.is_err(), "accepted {attack:?}");
    }
    assert!(Submission::decode(one()).is_ok());
}

#[test]
fn a_newer_format_is_refused_rather_than_misread() {
    let ahead = one().replace(r#""submission": 1"#, r#""submission": 99"#);
    assert!(Submission::decode(&ahead).is_err());
}

#[test]
fn an_observation_becomes_the_item_it_describes() {
    let seen = Submission::decode(one()).unwrap();
    assert_eq!(seen.observer, "piper");
    assert_eq!(seen.observed_at, "2026-08-20");
    let item = seen.items[0].to_item(seen.method).unwrap();
    assert_eq!(item.id.as_str(), "item.leather_cap");
    assert_eq!(item.rarity, Some(Rarity::Uncommon));
    assert_eq!(item.slot, Some(Slot::Head));
    let printed = item.attributes.as_ref().unwrap();
    assert_eq!(printed.level(), ConfidenceLevel::Verified);
    assert_eq!(printed.value()[0], (AttributeKind::Vigor, 2));
    assert_eq!(*item.grants.get("derived.armor_rating").unwrap().value(), Fixed::from_int(33));
    assert_eq!(*item.move_speed_add.as_ref().unwrap().value(), Fixed::from_int(-3));
    assert!(item.weapon.is_none());
}

#[test]
fn unknown_names_in_an_observation_are_refused() {
    let bad_slot = one().replace(r#""slot": "head""#, r#""slot": "hat""#);
    let parsed = Submission::decode(&bad_slot).unwrap();
    let err = parsed.items[0].to_item(parsed.method).unwrap_err();
    assert!(err.to_string().contains("hat"));
    let bad_attr = one().replace(r#""vigor""#, r#""luck""#);
    let parsed = Submission::decode(&bad_attr).unwrap();
    assert!(matches!(parsed.items[0].to_item(parsed.method), Err(LoadError::Invalid(_))));
}

#[test]
fn malformed_or_unknown_fields_are_schema_errors() {
    match Submission::decode("{") {
        Err(LoadError::Schema { path, .. }) => assert_eq!(path, "submission"),
        other => panic!("expected a schema error, got {other:?}"),
    }
    let typo = one().replace(r#""build""#, r#""biuld""#);
    assert!(matches!(Submission::decode(&typo), Err(LoadError::Schema { .. })));
}

#[test]
fn ids_name_what_they_refuse() {
    assert!(check_id("item.leather_cap").is_ok());
    assert!(check_id("").is_err());
    let err = check_id("item.Cap").unwrap_err().to_string();
    assert!(err.contains("U+0043"), "{err}");
}

#[test]
fn a_submission_round_trips() {
    let parsed = Submission::decode(one()).unwrap();
    let again = Submission::decode(&parsed.encode()).unwrap();
    assert_eq!(again.items.len(), 1);
    let grant = again.items[0].grants.iter().find(|(k, _)| k == "derived.armor_rating").unwrap();
    assert_eq!(grant.1, "33");
}
