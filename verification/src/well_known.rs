//! Conventional ids the pipeline and the exchange model look up by name.
//! A dataset may define any derived stats it likes; these are the ones other
//! layers reference, and their absence is an explicit error rather than a
//! silent zero.

use vstd::prelude::*;

verus! {

/// Gear-sourced armour rating; seeded by the pipeline, not computed.
pub const ARMOR_RATING: &'static str = "derived.armor_rating";
/// Physical damage reduction in percentage points.
pub const PDR: &'static str = "derived.pdr";
/// Physical power bonus in percentage points.
pub const PHYSICAL_POWER_BONUS: &'static str = "derived.physical_power_bonus";
/// Magic power bonus in percentage points.
pub const MAGIC_POWER_BONUS: &'static str = "derived.magic_power_bonus";
/// Magic resistance: what a magic strike's penetration reduces.
pub const MAGIC_RESISTANCE: &'static str = "derived.magic_resistance";
/// Magical damage reduction in percentage points.
pub const MAGICAL_DAMAGE_REDUCTION: &'static str = "derived.magical_damage_reduction";
/// Action speed in percentage points.
pub const ACTION_SPEED: &'static str = "derived.action_speed";
/// Absolute move speed; stages 5 and 6 adjust this entry.
pub const MOVE_SPEED: &'static str = "derived.move_speed";
/// Absolute health.
pub const HEALTH: &'static str = "derived.health";

/// The armour rating stat's id.
pub open spec fn armor_rating() -> Seq<char> {
    ARMOR_RATING@
}

/// The physical damage reduction stat's id.
pub open spec fn pdr() -> Seq<char> {
    PDR@
}

/// The physical power bonus stat's id.
pub open spec fn physical_power_bonus() -> Seq<char> {
    PHYSICAL_POWER_BONUS@
}

/// The magic power bonus stat's id.
pub open spec fn magic_power_bonus() -> Seq<char> {
    MAGIC_POWER_BONUS@
}

/// The magic resistance stat's id.
pub open spec fn magic_resistance() -> Seq<char> {
    MAGIC_RESISTANCE@
}

/// The magical damage reduction stat's id.
pub open spec fn magical_damage_reduction() -> Seq<char> {
    MAGICAL_DAMAGE_REDUCTION@
}

/// The action speed stat's id.
pub open spec fn action_speed() -> Seq<char> {
    ACTION_SPEED@
}

/// The move speed stat's id.
pub open spec fn move_speed() -> Seq<char> {
    MOVE_SPEED@
}

/// The health stat's id.
pub open spec fn health() -> Seq<char> {
    HEALTH@
}

} // verus!
