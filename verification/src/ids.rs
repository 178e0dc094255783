//! Stable entity identity.
//!
//! Slug-based ids — `class.rogue`, `item.flanged_mace`,
//! `perk.rogue.lethal_mark` — assigned once and never reused. Ids are
//! ordinary strings wrapped per entity kind so a `PerkId` can never be handed
//! to an item lookup. Each id is viewed as its slug's characters; two ids
//! are equal exactly when their slugs are, and they order as their slugs do.

use vstd::prelude::*;

use crate::table::Slug;
use crate::text::{owned, str_eq};

verus! {

/// Identity of a class definition (`class.rogue`).
#[derive(Debug, Eq, PartialOrd, Ord, Hash)]
pub struct ClassId(String);

impl View for ClassId {
    type V = Seq<char>;

    /// The slug.
    closed spec fn view(&self) -> Seq<char> {
        self.0@
    }
}

impl ClassId {
    /// Wraps a slug.
    pub fn new(slug: &str) -> (r: ClassId)
        ensures
            r@ == slug@,
    {
        ClassId(owned(slug))
    }

    /// The slug as text.
    pub fn as_str(&self) -> (r: &str)
        ensures
            r@ == self@,
    {
        self.0.as_str()
    }

    /// The slug, owned: how the id is displayed.
    pub fn to_string(&self) -> (r: String)
        ensures
            r@ == self@,
    {
        owned(self.0.as_str())
    }
}

impl Clone for ClassId {
    /// The same slug.
    fn clone(&self) -> (r: Self)
        ensures
            r@ == self@,
    {
        ClassId(owned(self.0.as_str()))
    }
}

impl PartialEq for ClassId {
    fn eq(&self, other: &Self) -> (r: bool) {
        str_eq(self.0.as_str(), other.0.as_str())
    }
}

impl vstd::std_specs::cmp::PartialEqSpecImpl for ClassId {
    open spec fn obeys_eq_spec() -> bool {
        true
    }

    open spec fn eq_spec(&self, other: &Self) -> bool {
        self@ == other@
    }
}

impl Slug for ClassId {
    open spec fn slug(&self) -> Seq<char> {
        self@
    }

    fn slug_str(&self) -> (r: &str) {
        self.as_str()
    }
}

/// Identity of an item definition (`item.dark_leather_leggings`).
#[derive(Debug, Eq, PartialOrd, Ord, Hash)]
pub struct ItemId(String);

impl View for ItemId {
    type V = Seq<char>;

    /// The slug.
    closed spec fn view(&self) -> Seq<char> {
        self.0@
    }
}

impl ItemId {
    /// Wraps a slug.
    pub fn new(slug: &str) -> (r: ItemId)
        ensures
            r@ == slug@,
    {
        ItemId(owned(slug))
    }

    /// The slug as text.
    pub fn as_str(&self) -> (r: &str)
        ensures
            r@ == self@,
    {
        self.0.as_str()
    }

    /// The slug, owned: how the id is displayed.
    pub fn to_string(&self) -> (r: String)
        ensures
            r@ == self@,
    {
        owned(self.0.as_str())
    }
}

impl Clone for ItemId {
    /// The same slug.
    fn clone(&self) -> (r: Self)
        ensures
            r@ == self@,
    {
        ItemId(owned(self.0.as_str()))
    }
}

impl PartialEq for ItemId {
    fn eq(&self, other: &Self) -> (r: bool) {
        str_eq(self.0.as_str(), other.0.as_str())
    }
}

impl vstd::std_specs::cmp::PartialEqSpecImpl for ItemId {
    open spec fn obeys_eq_spec() -> bool {
        true
    }

    open spec fn eq_spec(&self, other: &Self) -> bool {
        self@ == other@
    }
}

impl Slug for ItemId {
    open spec fn slug(&self) -> Seq<char> {
        self@
    }

    fn slug_str(&self) -> (r: &str) {
        self.as_str()
    }
}

/// Identity of a perk definition (`perk.rogue.jokester`).
#[derive(Debug, Eq, PartialOrd, Ord, Hash)]
pub struct PerkId(String);

impl View for PerkId {
    type V = Seq<char>;

    /// The slug.
    closed spec fn view(&self) -> Seq<char> {
        self.0@
    }
}

impl PerkId {
    /// Wraps a slug.
    pub fn new(slug: &str) -> (r: PerkId)
        ensures
            r@ == slug@,
    {
        PerkId(owned(slug))
    }

    /// The slug as text.
    pub fn as_str(&self) -> (r: &str)
        ensures
            r@ == self@,
    {
        self.0.as_str()
    }

    /// The slug, owned: how the id is displayed.
    pub fn to_string(&self) -> (r: String)
        ensures
            r@ == self@,
    {
        owned(self.0.as_str())
    }
}

impl Clone for PerkId {
    /// The same slug.
    fn clone(&self) -> (r: Self)
        ensures
            r@ == self@,
    {
        PerkId(owned(self.0.as_str()))
    }
}

impl PartialEq for PerkId {
    fn eq(&self, other: &Self) -> (r: bool) {
        str_eq(self.0.as_str(), other.0.as_str())
    }
}

impl vstd::std_specs::cmp::PartialEqSpecImpl for PerkId {
    open spec fn obeys_eq_spec() -> bool {
        true
    }

    open spec fn eq_spec(&self, other: &Self) -> bool {
        self@ == other@
    }
}

impl Slug for PerkId {
    open spec fn slug(&self) -> Seq<char> {
        self@
    }

    fn slug_str(&self) -> (r: &str) {
        self.as_str()
    }
}

/// Identity of a skill definition (`skill.fighter.fortified_ground`).
#[derive(Debug, Eq, PartialOrd, Ord, Hash)]
pub struct SkillId(String);

impl View for SkillId {
    type V = Seq<char>;

    /// The slug.
    closed spec fn view(&self) -> Seq<char> {
        self.0@
    }
}

impl SkillId {
    /// Wraps a slug.
    pub fn new(slug: &str) -> (r: SkillId)
        ensures
            r@ == slug@,
    {
        SkillId(owned(slug))
    }

    /// The slug as text.
    pub fn as_str(&self) -> (r: &str)
        ensures
            r@ == self@,
    {
        self.0.as_str()
    }

    /// The slug, owned: how the id is displayed.
    pub fn to_string(&self) -> (r: String)
        ensures
            r@ == self@,
    {
        owned(self.0.as_str())
    }
}

impl Clone for SkillId {
    /// The same slug.
    fn clone(&self) -> (r: Self)
        ensures
            r@ == self@,
    {
        SkillId(owned(self.0.as_str()))
    }
}

impl PartialEq for SkillId {
    fn eq(&self, other: &Self) -> (r: bool) {
        str_eq(self.0.as_str(), other.0.as_str())
    }
}

impl vstd::std_specs::cmp::PartialEqSpecImpl for SkillId {
    open spec fn obeys_eq_spec() -> bool {
        true
    }

    open spec fn eq_spec(&self, other: &Self) -> bool {
        self@ == other@
    }
}

impl Slug for SkillId {
    open spec fn slug(&self) -> Seq<char> {
        self@
    }

    fn slug_str(&self) -> (r: &str) {
        self.as_str()
    }
}

/// Identity of a curve definition (`curve.rogue.str_to_physical_power`).
#[derive(Debug, Eq, PartialOrd, Ord, Hash)]
pub struct CurveId(String);

impl View for CurveId {
    type V = Seq<char>;

    /// The slug.
    closed spec fn view(&self) -> Seq<char> {
        self.0@
    }
}

impl CurveId {
    /// Wraps a slug.
    pub fn new(slug: &str) -> (r: CurveId)
        ensures
            r@ == slug@,
    {
        CurveId(owned(slug))
    }

    /// The slug as text.
    pub fn as_str(&self) -> (r: &str)
        ensures
            r@ == self@,
    {
        self.0.as_str()
    }

    /// The slug, owned: how the id is displayed.
    pub fn to_string(&self) -> (r: String)
        ensures
            r@ == self@,
    {
        owned(self.0.as_str())
    }
}

impl Clone for CurveId {
    /// The same slug.
    fn clone(&self) -> (r: Self)
        ensures
            r@ == self@,
    {
        CurveId(owned(self.0.as_str()))
    }
}

impl PartialEq for CurveId {
    fn eq(&self, other: &Self) -> (r: bool) {
        str_eq(self.0.as_str(), other.0.as_str())
    }
}

impl vstd::std_specs::cmp::PartialEqSpecImpl for CurveId {
    open spec fn obeys_eq_spec() -> bool {
        true
    }

    open spec fn eq_spec(&self, other: &Self) -> bool {
        self@ == other@
    }
}

impl Slug for CurveId {
    open spec fn slug(&self) -> Seq<char> {
        self@
    }

    fn slug_str(&self) -> (r: &str) {
        self.as_str()
    }
}

/// Identity of a derived-stat definition (`derived.action_speed`).
#[derive(Debug, Eq, PartialOrd, Ord, Hash)]
pub struct DerivedStatId(String);

impl View for DerivedStatId {
    type V = Seq<char>;

    /// The slug.
    closed spec fn view(&self) -> Seq<char> {
        self.0@
    }
}

impl DerivedStatId {
    /// Wraps a slug.
    pub fn new(slug: &str) -> (r: DerivedStatId)
        ensures
            r@ == slug@,
    {
        DerivedStatId(owned(slug))
    }

    /// The slug as text.
    pub fn as_str(&self) -> (r: &str)
        ensures
            r@ == self@,
    {
        self.0.as_str()
    }

    /// The slug, owned: how the id is displayed.
    pub fn to_string(&self) -> (r: String)
        ensures
            r@ == self@,
    {
        owned(self.0.as_str())
    }
}

impl Clone for DerivedStatId {
    /// The same slug.
    fn clone(&self) -> (r: Self)
        ensures
            r@ == self@,
    {
        DerivedStatId(owned(self.0.as_str()))
    }
}

impl PartialEq for DerivedStatId {
    fn eq(&self, other: &Self) -> (r: bool) {
        str_eq(self.0.as_str(), other.0.as_str())
    }
}

impl vstd::std_specs::cmp::PartialEqSpecImpl for DerivedStatId {
    open spec fn obeys_eq_spec() -> bool {
        true
    }

    open spec fn eq_spec(&self, other: &Self) -> bool {
        self@ == other@
    }
}

impl Slug for DerivedStatId {
    open spec fn slug(&self) -> Seq<char> {
        self@
    }

    fn slug_str(&self) -> (r: &str) {
        self.as_str()
    }
}

/// Identity of an ability, perk or skill, that imposes an effect on an
/// exchange (`skill.rogue.weakpoint_attack`).
#[derive(Debug, Eq, PartialOrd, Ord, Hash)]
pub struct AbilityId(String);

impl View for AbilityId {
    type V = Seq<char>;

    /// The slug.
    closed spec fn view(&self) -> Seq<char> {
        self.0@
    }
}

impl AbilityId {
    /// Wraps a slug.
    pub fn new(slug: &str) -> (r: AbilityId)
        ensures
            r@ == slug@,
    {
        AbilityId(owned(slug))
    }

    /// The slug as text.
    pub fn as_str(&self) -> (r: &str)
        ensures
            r@ == self@,
    {
        self.0.as_str()
    }

    /// The slug, owned: how the id is displayed.
    pub fn to_string(&self) -> (r: String)
        ensures
            r@ == self@,
    {
        owned(self.0.as_str())
    }
}

impl Clone for AbilityId {
    /// The same slug.
    fn clone(&self) -> (r: Self)
        ensures
            r@ == self@,
    {
        AbilityId(owned(self.0.as_str()))
    }
}

impl PartialEq for AbilityId {
    fn eq(&self, other: &Self) -> (r: bool) {
        str_eq(self.0.as_str(), other.0.as_str())
    }
}

impl vstd::std_specs::cmp::PartialEqSpecImpl for AbilityId {
    open spec fn obeys_eq_spec() -> bool {
        true
    }

    open spec fn eq_spec(&self, other: &Self) -> bool {
        self@ == other@
    }
}

impl Slug for AbilityId {
    open spec fn slug(&self) -> Seq<char> {
        self@
    }

    fn slug_str(&self) -> (r: &str) {
        self.as_str()
    }
}

} // verus!
