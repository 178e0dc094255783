use assay::canonical::canonical_statblock;
use assay::confidence::Confidence;
use assay::ids::{ClassId, DerivedStatId};
use assay::loadout::{Loadout, PartyBuffs, Weapons};
use assay::resolve::{resolve, Resolved, StageNote};
use assay::schema::{AttributeBlock, AttributeKind, ClassDef, InMemoryDataset};
use assay::table::IdMap;
use assay::Fixed;

fn graded(micro: i64) -> Confidence<Fixed> {
    Confidence::Unverified(Fixed::from_micro(micro))
}

/// A resolved block with the stats the grammar is spelled out over. Derived
/// stats are keyed by their full ids, which sort after `attributes`.
fn sample_resolved() -> Resolved {
    let mut data = InMemoryDataset::new("test.build");
    data.insert_class(ClassDef {
        id: ClassId::new("class.test"),
        name: "Test".to_string(),
        base_attributes: Confidence::Verified(AttributeBlock::default()),
        derived: Vec::new(),
    });
    let l = Loadout {
        name: "l".to_string(),
        class: ClassId::new("class.test"),
        perks: vec![],
        skills: vec![],
        gear: vec![],
        weapons: Weapons { main_hand: None },
        stacks: IdMap::new(),
        party: PartyBuffs::none(),
    };
    let mut r = resolve(&l, &data).unwrap();
    let mut block = AttributeBlock::default();
    block.add(AttributeKind::Strength, 9);
    block.add(AttributeKind::Agility, 25);
    r.attributes = Confidence::Unverified(block);
    let mut derived = IdMap::new();
    derived.insert(DerivedStatId::new("derived.physical_power_bonus"), graded(-14_000_000));
    derived.insert(DerivedStatId::new("derived.action_speed"), graded(7_812_500));
    derived.insert(DerivedStatId::new("derived.move_speed"), graded(306_000_000));
    derived.insert(DerivedStatId::new("derived.health"), graded(108_500_000));
    derived.insert(DerivedStatId::new("derived.armor_rating"), Confidence::Verified(Fixed::zero()));
    derived.insert(DerivedStatId::new("derived.pdr"), graded(-22_000_000));
    r.derived = derived;
    r.trace = Vec::new();
    r
}

#[test]
fn canonical_form_is_the_documented_grammar() {
    let expected = [
        "{\"attributes\":{\"confidence\":\"unverified\",\"points\":{",
        "\"agility\":25,\"dexterity\":0,\"knowledge\":0,\"resourcefulness\":0,",
        "\"strength\":9,\"vigor\":0,\"will\":0}},",
        "\"derived.action_speed\":{\"confidence\":\"unverified\",\"micro\":7812500},",
        "\"derived.armor_rating\":{\"confidence\":\"verified\",\"micro\":0},",
        "\"derived.health\":{\"confidence\":\"unverified\",\"micro\":108500000},",
        "\"derived.move_speed\":{\"confidence\":\"unverified\",\"micro\":306000000},",
        "\"derived.pdr\":{\"confidence\":\"unverified\",\"micro\":-22000000},",
        "\"derived.physical_power_bonus\":{\"confidence\":\"unverified\",\"micro\":-14000000}}",
    ]
    .concat();
    assert_eq!(canonical_statblock(&sample_resolved()), expected);
}

#[test]
fn note_key_exists_exactly_for_unknown() {
    let mut resolved = sample_resolved();
    assert!(!canonical_statblock(&resolved).contains("\"note\""));
    resolved.derived.insert(
        DerivedStatId::new("derived.pdr"),
        Confidence::Unknown { assumed: Fixed::from_int(-22), note: "cap interaction untested".to_string() },
    );
    let canon = canonical_statblock(&resolved);
    assert!(canon.contains(
        "\"derived.pdr\":{\"confidence\":\"unknown\",\"micro\":-22000000,\"note\":\"cap interaction untested\"}"
    ));
}

#[test]
fn trace_is_not_part_of_the_canon() {
    let mut a = sample_resolved();
    let mut b = sample_resolved();
    a.trace = vec![];
    b.trace = vec![StageNote { stage: 1, label: "x", detail: "y".to_string() }];
    assert_eq!(canonical_statblock(&a), canonical_statblock(&b));
}

#[test]
fn string_escaping_is_closed_and_unique() {
    let mut resolved = sample_resolved();
    resolved.derived.insert(
        DerivedStatId::new("derived.health"),
        Confidence::Unknown { assumed: Fixed::zero(), note: "quote \" backslash \\ newline \n".to_string() },
    );
    let canon = canonical_statblock(&resolved);
    assert!(canon.contains("quote \\\" backslash \\\\ newline \\u000a"));
}

#[test]
fn encoding_is_deterministic_across_runs() {
    let a = canonical_statblock(&sample_resolved());
    let b = canonical_statblock(&sample_resolved());
    assert_eq!(a, b);
}

#[test]
fn a_canonical_text_has_no_whitespace_and_a_line_break_in_a_note_is_escaped() {
    let mut resolved = sample_resolved();
    assert!(!canonical_statblock(&resolved).chars().any(|c| c.is_whitespace()));
    resolved.derived.insert(
        DerivedStatId::new("derived.pdr"),
        Confidence::Unknown { assumed: Fixed::from_int(-22), note: "first\nsecond\tthird".to_string() },
    );
    let canon = canonical_statblock(&resolved);
    assert!(!canon.contains('\n') && !canon.contains('\t'), "{canon}");
    assert!(canon.contains("first\\u000asecond\\u0009third"), "{canon}");
}

#[test]
fn canonical_keys_ascend_at_every_level() {
    let canon = canonical_statblock(&sample_resolved());
    let at = |k: &str| canon.find(k).unwrap();
    assert!(at("\"attributes\"") < at("\"derived.action_speed\""));
    assert!(at("\"derived.action_speed\"") < at("\"derived.armor_rating\""));
    assert!(at("\"derived.pdr\"") < at("\"derived.physical_power_bonus\""));
    assert!(at("\"agility\"") < at("\"dexterity\"") && at("\"strength\"") < at("\"vigor\""));
}
