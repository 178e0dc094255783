//! Loadouts as the library sees them.
//!
//! A loadout references entity ids only and never pins a dataset version —
//! the version is supplied at resolve time, which is the whole precondition
//! for the impact diff.

use vstd::prelude::*;

use crate::fixed::Fixed;
use crate::ids::{ClassId, DerivedStatId, ItemId, PerkId, SkillId};
use crate::schema::AttributeKind;
use crate::table::IdMap;

verus! {

/// An explicit gear roll chosen in the loadout. Rolls are part of the
/// *question* ("this exact pair of leggings"), not a wiki claim — so they
/// enter the pipeline as `Verified` facts.
#[derive(Debug)]
pub enum Roll {
    /// Whole attribute points rolled on the piece (`dexterity = 4`).
    Attribute(AttributeKind, i32),
    /// Flat move speed rolled on the piece (`move_speed = 2`).
    MoveSpeedAdd(Fixed),
    /// A derived stat rolled onto this copy — the game prints these as
    /// `+11 Additional Armor Rating`. Lands in stage 7's *other* bucket,
    /// outside any Item Armor Rating Bonus.
    Derived(DerivedStatId, Fixed),
}

/// Where a piece is worn.
#[derive(Copy, Clone, PartialEq, Eq, Structural, PartialOrd, Ord, Debug)]
pub enum Slot {
    /// Helmets and caps.
    Head,
    /// Body armour.
    Chest,
    /// Trousers and leggings.
    Legs,
    /// Gloves and gauntlets.
    Hands,
    /// Boots.
    Feet,
    /// Back slot: cloaks.
    Back,
    /// Neck slot.
    Necklace,
    /// Either ring slot.
    Ring,
    /// A held weapon, which carries stats like anything else.
    Weapon,
}

/// The name of a slot.
pub open spec fn slot_name(s: Slot) -> Seq<char> {
    match s {
        Slot::Head => "head"@,
        Slot::Chest => "chest"@,
        Slot::Legs => "legs"@,
        Slot::Hands => "hands"@,
        Slot::Feet => "feet"@,
        Slot::Back => "back"@,
        Slot::Necklace => "necklace"@,
        Slot::Ring => "ring"@,
        Slot::Weapon => "weapon"@,
    }
}

/// Whether a loadout file's slot text names a slot: the slot's own name,
/// or `cape` for the back slot.
pub open spec fn names_slot(s: Slot, n: Seq<char>) -> bool {
    slot_name(s) == n || (s == Slot::Back && n == "cape"@)
}

/// A slot text names one slot at most.
pub proof fn lemma_names_slot_unique(a: Slot, b: Slot, n: Seq<char>)
    requires
        names_slot(a, n),
        names_slot(b, n),
    ensures
        a == b,
{
    reveal_strlit("head");
    reveal_strlit("chest");
    reveal_strlit("legs");
    reveal_strlit("hands");
    reveal_strlit("feet");
    reveal_strlit("back");
    reveal_strlit("necklace");
    reveal_strlit("ring");
    reveal_strlit("weapon");
    reveal_strlit("cape");
    assert(n.len() > 0);
    if slot_name(a) == n {
        assert(slot_name(a)[0] == n[0]);
    }
    if slot_name(b) == n {
        assert(slot_name(b)[0] == n[0]);
    }
    assert("cape"@[0] == 'c');
    if n.len() == 5 && n[0] == 'c' {
        assert(n == slot_name(a) || n == "cape"@);
    }
}

/// How many pieces a slot holds at once.
pub open spec fn slot_capacity(s: Slot) -> nat {
    match s {
        Slot::Ring | Slot::Weapon => 2,
        _ => 1,
    }
}

/// **How many pieces each slot holds.** The ring and weapon slots hold two
/// pieces each (two rings; a primary and a secondary weapon); every other
/// slot holds one.
pub proof fn law_slot_room(s: Slot)
    ensures
        s == Slot::Ring || s == Slot::Weapon ==> slot_capacity(s) == 2,
        s != Slot::Ring && s != Slot::Weapon ==> slot_capacity(s) == 1,
{
}

/// Every slot, in a fixed order.
pub open spec fn all_slots() -> Seq<Slot> {
    seq![Slot::Head, Slot::Chest, Slot::Legs, Slot::Hands, Slot::Feet, Slot::Back, Slot::Necklace, Slot::Ring, Slot::Weapon]
}

impl Slot {
    /// The name used in loadout files and diffs.
    pub fn as_str(self) -> (r: &'static str)
        ensures
            r@ == slot_name(self),
    {
        match self {
            Slot::Head => "head",
            Slot::Chest => "chest",
            Slot::Legs => "legs",
            Slot::Hands => "hands",
            Slot::Feet => "feet",
            Slot::Back => "back",
            Slot::Necklace => "necklace",
            Slot::Ring => "ring",
            Slot::Weapon => "weapon",
        }
    }

    /// How many of this slot a character may wear at once.
    pub fn capacity(self) -> (r: usize)
        ensures
            r == slot_capacity(self),
    {
        match self {
            Slot::Ring | Slot::Weapon => 2,
            _ => 1,
        }
    }

    /// Every slot, for validation and for iteration in a fixed order.
    pub fn all() -> (r: [Slot; 9])
        ensures
            r@ == all_slots(),
    {
        let r = [Slot::Head, Slot::Chest, Slot::Legs, Slot::Hands, Slot::Feet, Slot::Back, Slot::Necklace, Slot::Ring, Slot::Weapon];
        assert(r@ =~= all_slots());
        r
    }

    /// The slot a file's text names: unknown names are refused rather than
    /// defaulted.
    /// Reads a slot as a loadout file writes it: a slot's own name, or
    /// `cape` for the back slot.
    pub fn from_file_name(name: &str) -> (r: Option<Slot>)
        ensures
            r matches Some(s) ==> names_slot(s, name@),
            r is None ==> forall|s: Slot| !names_slot(s, name@),
    {
        if crate::text::str_eq(name, "cape") {
            return Some(Slot::Back);
        }
        Slot::parse(name)
    }

    pub fn parse(name: &str) -> (r: Option<Slot>)
        ensures
            r matches Some(s) ==> slot_name(s) == name@,
            r is None ==> forall|s: Slot| slot_name(s) != name@,
    {
        let all = Slot::all();
        let mut i: usize = 0;
        while i < 9
            invariant
                i <= 9,
                all@ == all_slots(),
                forall|j: int| 0 <= j < i ==> slot_name(#[trigger] all_slots()[j]) != name@,
            decreases 9 - i,
        {
            if crate::text::str_eq(all[i].as_str(), name) {
                return Some(all[i]);
            }
            i = i + 1;
        }
        proof {
            assert forall|s: Slot| slot_name(s) != name@ by {
                let j: int = match s {
                    Slot::Head => 0,
                    Slot::Chest => 1,
                    Slot::Legs => 2,
                    Slot::Hands => 3,
                    Slot::Feet => 4,
                    Slot::Back => 5,
                    Slot::Necklace => 6,
                    Slot::Ring => 7,
                    Slot::Weapon => 8,
                };
                assert(all_slots()[j] == s);
            }
        }
        None
    }
}

/// One equipped piece: where it is worn, which item it is, and the rolls on
/// this copy.
#[derive(Debug)]
pub struct GearPiece {
    /// Where this piece is worn.
    pub slot: Slot,
    /// Which item definition this piece instantiates.
    pub id: ItemId,
    /// Explicit rolls on this copy.
    pub rolls: Vec<Roll>,
}

/// Buffs granted by party members whose auras cover this character: the
/// *external* sources. Own perks and skills apply through their own lists.
#[derive(Debug)]
pub struct PartyBuffs {
    /// Party members' skills affecting this character.
    pub skills: Vec<SkillId>,
    /// Party members' perks affecting this character.
    pub perks: Vec<PerkId>,
}

impl PartyBuffs {
    /// No party buffs.
    pub fn none() -> (r: PartyBuffs)
        ensures
            r.skills@.len() == 0,
            r.perks@.len() == 0,
    {
        PartyBuffs { skills: Vec::new(), perks: Vec::new() }
    }
}

/// Wielded weapons. Only the main hand is modelled: dual-wield changes how
/// attacks alternate, a mechanic the exchange model does not have.
#[derive(Debug)]
pub struct Weapons {
    /// The weapon an attack comes from.
    pub main_hand: Option<ItemId>,
}

/// A complete loadout: the input to [`crate::resolve::resolve`].
#[derive(Debug)]
pub struct Loadout {
    /// Human-readable name (`rogue-lethal-artillery`).
    pub name: String,
    /// The class being resolved.
    pub class: ClassId,
    /// Slotted perks, in declaration order (applied in this order).
    pub perks: Vec<PerkId>,
    /// Slotted skills, in declaration order.
    pub skills: Vec<SkillId>,
    /// Every equipped piece, in any order.
    pub gear: Vec<GearPiece>,
    /// Wielded weapons.
    pub weapons: Weapons,
    /// Active stacks per stacking source, keyed by perk or skill id. An
    /// unstated count resolves at the maximum and is graded `Unknown`.
    pub stacks: IdMap<String, u32>,
    /// External party buffs.
    pub party: PartyBuffs,
}

impl Loadout {
    /// A loadout of a class with nothing slotted, worn or stacked.
    pub fn bare(name: &str, class: ClassId) -> (r: Loadout)
        ensures
            r.name@ == name@,
            r.class@ == class@,
            r.perks@.len() == 0,
            r.skills@.len() == 0,
            r.gear@.len() == 0,
            r.weapons.main_hand is None,
            r.stacks.wf(),
            r.stacks.view() == Map::<Seq<char>, u32>::empty(),
            r.party.skills@.len() == 0,
            r.party.perks@.len() == 0,
    {
        Loadout {
            name: crate::text::owned(name),
            class,
            perks: Vec::new(),
            skills: Vec::new(),
            gear: Vec::new(),
            weapons: Weapons { main_hand: None },
            stacks: IdMap::new(),
            party: PartyBuffs::none(),
        }
    }
}

} // verus!
