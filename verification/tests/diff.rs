use assay::dataset::{decode, Dataset, DatasetText};
use assay::diff::{dataset_diff, impact_diff, Change, StatDelta};
use assay::ids::{ClassId, PerkId};
use assay::loadout::Loadout;
use assay::Fixed;

/// A version differing from the baseline only where the arguments say.
struct Version {
    leggings_ms: &'static str,
    extra_item: &'static str,
    jokester: bool,
    renamed_from: Option<&'static str>,
}

fn version(build: &str, v: &Version) -> DatasetText {
    let files = ["classes.json", "curves.json", "items.json", "perks.json", "skills.json"];
    let sources: Vec<String> = files
        .iter()
        .map(|f| format!(r#"{{"file":"{f}","origin":"synthetic","scraped":"2026-08-19T00:00:00Z","reviewed":true}}"#))
        .collect();
    let rename = v.renamed_from.map(|from| format!(r#","renamed_from":"{from}""#)).unwrap_or_default();
    let perks = if v.jokester {
        r#"{"perks":[{"id":"perk.rogue.jokester","name":"Jokester",
          "effects":[{"confidence":"unverified","kind":"all_attributes","points":2}]}]}"#
    } else {
        r#"{"perks":[]}"#
    };
    DatasetText {
        manifest: format!(
            r#"{{"build":"{build}","label":"test-{build}","released":"2026-08-13","previous":null,"sources":[{}]}}"#,
            sources.join(",")
        ),
        curves: r#"{"curves":[
          {"id":"curve.ms","confidence":"unverified","points":[[0,0],[100000000,10000000]]}
        ]}"#
        .to_string(),
        classes: r#"{"classes":[{"id":"class.rogue","name":"Rogue",
          "base_attributes":{"confidence":"unverified","points":{"agility":25}},
          "derived":[{"id":"derived.move_speed",
            "weights":[{"kind":"attribute","ref":"agility","weight":1000000}],
            "curve":"curve.ms","offset":300000000}]}]}"#
            .to_string(),
        items: format!(
            r#"{{"items":[{{"id":"item.leggings","name":"Leggings"{rename},
              "move_speed_add":{{"confidence":"unverified","micro":{}}}}}{}]}}"#,
            v.leggings_ms, v.extra_item
        ),
        perks: perks.to_string(),
        skills: r#"{"skills":[]}"#.to_string(),
    }
}

fn load(build: &str, v: &Version) -> Dataset {
    decode(&version(build, v), build).unwrap()
}

fn base() -> Version {
    Version { leggings_ms: "-5000000", extra_item: "", jokester: true, renamed_from: None }
}

fn naked_rogue() -> Loadout {
    Loadout::bare("naked-rogue", ClassId::new("class.rogue"))
}

#[test]
fn reports_adds_removes_and_field_changes() {
    let before = load("1.0.0.0", &base());
    let after = load(
        "1.0.0.1",
        &Version { leggings_ms: "-4000000", extra_item: r#",{"id":"item.boots","name":"Boots"}"#, jokester: false, renamed_from: None },
    );
    let changes = dataset_diff(&before, &after);
    assert!(changes.iter().any(|c| matches!(c, Change::Added { id, .. } if id == "item.boots")), "{changes:#?}");
    assert!(changes.iter().any(|c| matches!(c, Change::Removed { id, .. } if id == "perk.rogue.jokester")), "{changes:#?}");
    assert!(
        changes.iter().any(|c| matches!(
            c,
            Change::Modified { id, field, from, to }
                if id == "item.leggings" && field == "move_speed_add" && from == "-5" && to == "-4"
        )),
        "{changes:#?}"
    );
}

#[test]
fn renames_are_followed_rather_than_reported_as_add_plus_remove() {
    let before = load("2.0.0.0", &Version { jokester: false, ..base() });
    let mut text = version("2.0.0.1", &Version { jokester: false, ..base() });
    text.items = r#"{"items":[{"id":"item.dark_leggings","name":"Leggings","renamed_from":"item.leggings",
          "move_speed_add":{"confidence":"unverified","micro":-4000000}}]}"#
        .to_string();
    let after = decode(&text, "2.0.0.1").unwrap();
    let changes = dataset_diff(&before, &after);
    assert!(
        changes.iter().any(|c| matches!(
            c,
            Change::Renamed { from_id, to_id } if from_id == "item.leggings" && to_id == "item.dark_leggings"
        )),
        "{changes:#?}"
    );
    assert!(
        !changes.iter().any(|c| matches!(c, Change::Added { .. } | Change::Removed { .. })),
        "a rename must not surface as an add plus a remove: {changes:#?}"
    );
    assert!(
        changes.iter().any(|c| matches!(
            c,
            Change::Modified { id, field, .. } if id == "item.dark_leggings" && field == "move_speed_add"
        )),
        "{changes:#?}"
    );
}

#[test]
fn impact_diff_answers_did_my_build_change() {
    let before = load("3.0.0.0", &base());
    let mut text = version("3.0.0.1", &base());
    text.classes = text.classes.replace("300000000", "295000000");
    let after = decode(&text, "3.0.0.1").unwrap();
    let impacts = impact_diff(&before, &after, &vec![naked_rogue()]);
    assert_eq!(impacts.len(), 1);
    let moved: Vec<&StatDelta> = impacts[0].stats.iter().filter(|s| s.changed()).collect();
    assert_eq!(moved.len(), 1, "{:#?}", impacts[0].stats);
    assert_eq!(moved[0].id, "derived.move_speed");
    assert_eq!(moved[0].delta().to_string(), "-5");
    assert!(impacts[0].error.is_none());
}

#[test]
fn a_loadout_that_stops_resolving_is_reported_not_hidden() {
    let before = load("4.0.0.0", &base());
    let after = load("4.0.0.1", &Version { jokester: false, ..base() });
    let mut loadout = naked_rogue();
    loadout.perks = vec![PerkId::new("perk.rogue.jokester")];
    let impacts = impact_diff(&before, &after, &vec![loadout]);
    let error = impacts[0].error.as_ref().expect("the break is reported");
    assert!(error.contains("perk.rogue.jokester"), "{error}");
}

#[test]
fn an_unchanged_version_produces_no_changes() {
    let before = load("5.0.0.0", &base());
    let after = load("5.0.0.1", &base());
    assert!(dataset_diff(&before, &after).is_empty());
}

#[test]
fn changes_come_in_id_order_and_print_as_lines() {
    let before = load("6.0.0.0", &base());
    let after = load(
        "6.0.0.1",
        &Version { leggings_ms: "-4000000", extra_item: r#",{"id":"item.amulet","name":"Amulet"}"#, jokester: false, renamed_from: None },
    );
    let lines: Vec<String> = dataset_diff(&before, &after).iter().map(|c| c.to_string()).collect();
    assert_eq!(
        lines,
        vec![
            "+ item.amulet (Item)".to_string(),
            "  item.leggings.move_speed_add: -5 -> -4".to_string(),
            "- perk.rogue.jokester (Perk)".to_string(),
        ]
    );
}

#[test]
fn a_downgraded_grade_is_a_change() {
    let before = load("7.0.0.0", &base());
    let mut text = version("7.0.0.1", &base());
    text.curves = text.curves.replace("unverified", "verified");
    let after = decode(&text, "7.0.0.1").unwrap();
    let changes = dataset_diff(&before, &after);
    assert_eq!(changes.len(), 1, "{changes:#?}");
    match &changes[0] {
        Change::Modified { id, field, from, to } => {
            assert_eq!(id, "curve.ms");
            assert_eq!(field, "confidence");
            assert_eq!(from, "unverified");
            assert_eq!(to, "verified");
        }
        other => panic!("expected a grade change, got {other:?}"),
    }
}

#[test]
fn a_stat_delta_is_signed() {
    let d = StatDelta { id: "derived.health".to_string(), from: Fixed::from_int(10), to: Fixed::from_micro(7_500_000) };
    assert!(d.changed());
    assert_eq!(d.delta(), Fixed::from_micro(-2_500_000));
    let same = StatDelta { id: "derived.health".to_string(), from: Fixed::from_int(3), to: Fixed::from_int(3) };
    assert!(!same.changed());
}
