use assay::compare::compare_stats;
use assay::confidence::{Confidence, ConfidenceLevel};
use assay::ids::{ClassId, DerivedStatId};
use assay::loadout::{Loadout, PartyBuffs, Weapons};
use assay::resolve::{resolve, Resolved};
use assay::schema::{AttributeBlock, ClassDef, InMemoryDataset};
use assay::table::IdMap;
use assay::Fixed;

fn resolved() -> Resolved {
    let mut data = InMemoryDataset::new("test.build");
    data.insert_class(ClassDef {
        id: ClassId::new("class.test"),
        name: "Test".to_string(),
        base_attributes: Confidence::Verified(AttributeBlock::default()),
        derived: Vec::new(),
    });
    let l = Loadout {
        name: "l".to_string(),
        class: ClassId::new("class.test"),
        perks: vec![],
        skills: vec![],
        gear: vec![],
        weapons: Weapons { main_hand: None },
        stacks: IdMap::new(),
        party: PartyBuffs::none(),
    };
    let mut r = resolve(&l, &data).unwrap();
    r.derived = IdMap::new();
    r
}

#[test]
fn a_comparison_is_the_union_of_both_sides_in_id_order() {
    let mut a = resolved();
    let mut b = resolved();
    a.derived.insert(DerivedStatId::new("derived.health"), Confidence::Verified(Fixed::from_int(100)));
    b.derived.insert(DerivedStatId::new("derived.health"), Confidence::Unverified(Fixed::from_int(97)));
    a.derived.insert(DerivedStatId::new("derived.gone"), Confidence::Verified(Fixed::from_int(1)));
    b.derived.insert(DerivedStatId::new("derived.armor"), Confidence::Verified(Fixed::from_micro(500_000)));
    b.derived.insert(DerivedStatId::new("derived.same"), Confidence::Verified(Fixed::from_int(4)));
    a.derived.insert(DerivedStatId::new("derived.same"), Confidence::Verified(Fixed::from_int(4)));
    let rows = compare_stats(&a, &b);
    let ids: Vec<&str> = rows.iter().map(|r| r.id.as_str()).collect();
    assert_eq!(ids, vec!["derived.armor", "derived.gone", "derived.health", "derived.same"]);

    assert_eq!(rows[0].label, "armor");
    assert!(rows[0].from.is_none());
    assert_eq!(rows[0].to, Some(Fixed::from_micro(500_000)));
    assert!(rows[0].delta.is_none());

    assert_eq!(rows[1].from, Some(Fixed::from_int(1)));
    assert!(rows[1].to.is_none());

    // The weaker grade wins, and the delta carries its sign.
    assert_eq!(rows[2].delta, Some(Fixed::from_int(-3)));
    assert!(rows[2].confidence == ConfidenceLevel::Unverified);
    assert_eq!(rows[2].delta.unwrap().to_string_signed(), "-3");

    assert_eq!(rows[3].delta, Some(Fixed::zero()));
    assert_eq!(rows[3].delta.unwrap().to_string_signed(), "+0");
}

#[test]
fn an_id_without_the_prefix_is_its_own_label() {
    let mut a = resolved();
    let b = resolved();
    a.derived.insert(DerivedStatId::new("health"), Confidence::Verified(Fixed::from_int(1)));
    let rows = compare_stats(&a, &b);
    assert_eq!(rows.len(), 1);
    assert_eq!(rows[0].label, "health");
    assert!(rows[0].confidence == ConfidenceLevel::Verified);
}
