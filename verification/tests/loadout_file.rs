use assay::fixed::ParseFixedError;
use assay::loadout::{Roll, Slot};
use assay::loadout_file::{parse, LoadoutError};
use assay::schema::AttributeKind;

#[test]
fn parses_the_documented_example() {
    let text = r#"
name  = "rogue-duo-buffed"
class = "class.rogue"
perks = ["perk.rogue.jokester"]

[[gear]]
slot = "legs"
id = "item.dark_leather_leggings"
attributes = { dexterity = 4 }
move_speed_add = "2"

[party]
skills = ["skill.fighter.fortified_ground"]
"#;
    let loadout = parse(text).unwrap();
    assert_eq!(loadout.name, "rogue-duo-buffed");
    assert_eq!(loadout.perks.len(), 1);
    assert_eq!(loadout.gear.len(), 1);
    assert_eq!(loadout.gear[0].rolls.len(), 2);
    assert_eq!(loadout.party.skills.len(), 1);
}

#[test]
fn a_minimal_loadout_needs_only_name_and_class() {
    let loadout = parse("name = \"naked\"\nclass = \"class.rogue\"\n").unwrap();
    assert!(loadout.perks.is_empty());
    assert!(loadout.gear.is_empty());
}

#[test]
fn unmodelled_fields_are_rejected_rather_than_ignored() {
    let main_hand = r#"
name  = "x"
class = "class.rogue"
[weapons]
main_hand = "item.flanged_mace"
"#;
    assert!(parse(main_hand).is_ok());

    let off_hand = r#"
name  = "x"
class = "class.rogue"
[weapons]
off_hand = "item.x"
"#;
    assert!(matches!(parse(off_hand), Err(LoadoutError::Syntax(_))));

    let with_rarity = r#"
name  = "x"
class = "class.rogue"
[[gear]]
slot = \"legs\"
id = \"item.x\"
rarity = "epic"
"#;
    assert!(matches!(parse(with_rarity), Err(LoadoutError::Syntax(_))));
}

#[test]
fn move_speed_is_an_exact_decimal_string() {
    let ok = parse(
        "name = \"x\"\nclass = \"class.rogue\"\n[[gear]]\nslot = \"legs\"\nid = \"item.x\"\nmove_speed_add = \"2.5\"\n",
    )
    .unwrap();
    assert_eq!(ok.gear[0].rolls.len(), 1);

    let too_precise = parse(
        "name = \"x\"\nclass = \"class.rogue\"\n[[gear]]\nslot = \"legs\"\nid = \"item.x\"\nmove_speed_add = \"2.1234567\"\n",
    );
    assert!(matches!(too_precise, Err(LoadoutError::Invalid(_))));
}

#[test]
fn a_slot_cannot_hold_more_than_it_has_room_for() {
    let two_rings = parse(
        "name = \"x\"\nclass = \"class.rogue\"\n\
         [[gear]]\nslot = \"ring\"\nid = \"item.x\"\n\
         [[gear]]\nslot = \"ring\"\nid = \"item.x\"\n",
    );
    assert!(two_rings.is_ok(), "{two_rings:?}");

    let three_rings = parse(
        "name = \"x\"\nclass = \"class.rogue\"\n\
         [[gear]]\nslot = \"ring\"\nid = \"item.x\"\n\
         [[gear]]\nslot = \"ring\"\nid = \"item.x\"\n\
         [[gear]]\nslot = \"ring\"\nid = \"item.x\"\n",
    );
    assert!(matches!(three_rings, Err(LoadoutError::Invalid(_))));

    let two_capes = parse(
        "name = \"x\"\nclass = \"class.rogue\"\n\
         [[gear]]\nslot = \"cape\"\nid = \"item.x\"\n\
         [[gear]]\nslot = \"cape\"\nid = \"item.x\"\n",
    );
    assert!(matches!(two_capes, Err(LoadoutError::Invalid(_))));
}

#[test]
fn an_unknown_slot_is_refused_rather_than_defaulted() {
    let bad = parse(
        "name = \"x\"\nclass = \"class.rogue\"\n\
         [[gear]]\nslot = \"backpack\"\nid = \"item.x\"\n",
    );
    match bad {
        Err(LoadoutError::Invalid(msg)) => assert!(msg.contains("backpack"), "{msg}"),
        other => panic!("expected a named error, got {other:?}"),
    }
}

#[test]
fn unknown_attribute_names_are_named_in_the_error() {
    let bad = parse(
        "name = \"x\"\nclass = \"class.rogue\"\n[[gear]]\nslot = \"legs\"\nid = \"item.x\"\nattributes = { luck = 3 }\n",
    );
    match bad {
        Err(LoadoutError::Invalid(msg)) => assert!(msg.contains("luck"), "{msg}"),
        other => panic!("expected a named error, got {other:?}"),
    }
}

#[test]
fn a_full_slot_names_its_count_and_room() {
    let two_backs = parse(
        "name = \"x\"\nclass = \"class.rogue\"\n\
         [[gear]]\nslot = \"back\"\nid = \"item.a\"\n\
         [[gear]]\nslot = \"back\"\nid = \"item.b\"\n",
    );
    match two_backs {
        Err(LoadoutError::Invalid(msg)) => assert_eq!(msg, "2 pieces in the back slot, which holds 1"),
        other => panic!("expected a full slot, got {other:?}"),
    }
}

#[test]
fn rolls_keep_the_file_order_and_values() {
    let l = parse(
        "name = \"x\"\nclass = \"class.rogue\"\nperks = [\"perk.a\", \"perk.b\"]\n\
         [[gear]]\nslot = \"weapon\"\nid = \"item.mace\"\n\
         attributes = { strength = 2, agility = -1 }\nmove_speed_add = \"1.5\"\n\
         additional = { \"derived.armor_rating\" = \"5\" }\n\
         [weapons]\nmain_hand = \"item.mace\"\n\
         [stacks]\n\"skill.fighter.sprint\" = 3\n",
    )
    .unwrap();
    assert_eq!(l.class.as_str(), "class.rogue");
    assert_eq!(l.perks[1].as_str(), "perk.b");
    assert_eq!(l.gear[0].slot, Slot::Weapon);
    assert_eq!(l.gear[0].id.as_str(), "item.mace");
    let rolls = &l.gear[0].rolls;
    assert_eq!(rolls.len(), 4);
    // Attributes come in key order.
    assert!(matches!(rolls[0], Roll::Attribute(AttributeKind::Agility, -1)));
    assert!(matches!(rolls[1], Roll::Attribute(AttributeKind::Strength, 2)));
    match &rolls[2] {
        Roll::MoveSpeedAdd(x) => assert_eq!(x.micro(), 1_500_000),
        other => panic!("expected move speed, got {other:?}"),
    }
    match &rolls[3] {
        Roll::Derived(id, x) => {
            assert_eq!(id.as_str(), "derived.armor_rating");
            assert_eq!(x.micro(), 5_000_000);
        }
        other => panic!("expected a derived roll, got {other:?}"),
    }
    assert_eq!(l.weapons.main_hand.as_ref().map(|m| m.as_str().to_string()), Some("item.mace".to_string()));
    assert_eq!(l.stacks.get("skill.fighter.sprint"), Some(&3));
}

#[test]
fn a_bad_decimal_names_the_piece_and_the_reason() {
    let bad = parse(
        "name = \"x\"\nclass = \"class.rogue\"\n[[gear]]\nslot = \"legs\"\nid = \"item.x\"\n\
         additional = { \"derived.armor_rating\" = \"five\" }\n",
    );
    match bad {
        Err(LoadoutError::Invalid(msg)) => {
            assert_eq!(msg, "item.x: additional \"five\": malformed fixed-point literal");
        }
        other => panic!("expected a bad decimal, got {other:?}"),
    }
    assert_eq!(ParseFixedError::TooPrecise.to_string(), "more than six fraction digits (micro precision)");
}

#[test]
fn stacks_must_be_whole_counts() {
    let negative = parse("name = \"x\"\nclass = \"class.rogue\"\n[stacks]\n\"skill.a\" = -1\n");
    assert!(matches!(negative, Err(LoadoutError::Syntax(_))));
    let missing_class = parse("name = \"x\"\n");
    assert!(matches!(missing_class, Err(LoadoutError::Syntax(_))));
}

#[test]
fn one_cape_is_worn_on_the_back_and_a_second_back_piece_does_not_fit() {
    let one = parse(
        "name = \"x\"\nclass = \"class.rogue\"\n\
         [[gear]]\nslot = \"cape\"\nid = \"item.x\"\n",
    )
    .unwrap();
    assert!(one.gear[0].slot == assay::loadout::Slot::Back);
    let mixed = parse(
        "name = \"x\"\nclass = \"class.rogue\"\n\
         [[gear]]\nslot = \"cape\"\nid = \"item.x\"\n\
         [[gear]]\nslot = \"back\"\nid = \"item.y\"\n",
    );
    assert!(matches!(mixed, Err(LoadoutError::Invalid(_))));
}
