//! Stat magnitudes as distinct newtypes.
//!
//! Several of the game's magnitudes are all "a number with a percent sign"
//! and behave fundamentally differently. Each is a distinct newtype over
//! [`Fixed`]; there is no conversion between them, and operators exist only
//! where they are semantically valid: there is no `PdrPercent + PdrMod`
//! (PDR Mod is a multiplicative layer on top of PDR, never a summable
//! bonus) and no `MoveSpeedAdd + MoveSpeedBonus` (they apply at different
//! pipeline stages). Conversions between magnitudes happen exclusively
//! through named functions that represent an actual game mechanic.

use vstd::prelude::*;

use crate::fixed::{Fixed, SCALE, in_micro_range, mul_div_spec, law_mul_div_is_monotone};
use crate::text::str_eq;
use crate::well_known;

verus! {

/// Raw armor value; input to the PDR curve, never a percentage itself.
/// Sums across gear pieces.
#[derive(Copy, Clone, PartialEq, Eq, Structural, PartialOrd, Ord, Debug)]
pub struct ArmorRating(Fixed);

impl View for ArmorRating {
    type V = int;

    /// The magnitude's micro-unit count.
    closed spec fn view(&self) -> int {
        self.0@
    }
}

impl ArmorRating {
    /// Wraps a fixed-point magnitude. Explicit by design: the ban is on
    /// conversions *between* magnitudes, not on naming the wrap.
    pub fn new(value: Fixed) -> (r: ArmorRating)
        ensures
            r@ == value@,
    {
        ArmorRating(value)
    }

    /// The underlying fixed-point value, surrendered explicitly.
    pub fn value(self) -> (r: Fixed)
        ensures
            r@ == self@,
    {
        self.0
    }

    /// Sum of two magnitudes of this kind.
    pub fn plus(self, rhs: ArmorRating) -> (r: ArmorRating)
        requires
            in_micro_range(self@ + rhs@),
        ensures
            r@ == self@ + rhs@,
    {
        ArmorRating(self.0.plus(rhs.0))
    }

    /// Difference of two magnitudes of this kind.
    pub fn minus(self, rhs: ArmorRating) -> (r: ArmorRating)
        requires
            in_micro_range(self@ - rhs@),
        ensures
            r@ == self@ - rhs@,
    {
        ArmorRating(self.0.minus(rhs.0))
    }
}

impl core::ops::Add for ArmorRating {
    type Output = ArmorRating;

    /// The operator form of [`ArmorRating::plus`].
    fn add(self, rhs: ArmorRating) -> (r: ArmorRating) {
        ArmorRating(self.0 + rhs.0)
    }
}

impl vstd::std_specs::ops::AddSpecImpl for ArmorRating {
    open spec fn obeys_add_spec() -> bool {
        true
    }

    open spec fn add_req(self, rhs: ArmorRating) -> bool {
        in_micro_range(self@ + rhs@)
    }

    closed spec fn add_spec(self, rhs: ArmorRating) -> ArmorRating {
        ArmorRating(vstd::std_specs::ops::AddSpec::add_spec(self.0, rhs.0))
    }
}

impl core::ops::Sub for ArmorRating {
    type Output = ArmorRating;

    /// The operator form of [`ArmorRating::minus`].
    fn sub(self, rhs: ArmorRating) -> (r: ArmorRating) {
        ArmorRating(self.0 - rhs.0)
    }
}

impl vstd::std_specs::ops::SubSpecImpl for ArmorRating {
    open spec fn obeys_sub_spec() -> bool {
        true
    }

    open spec fn sub_req(self, rhs: ArmorRating) -> bool {
        in_micro_range(self@ - rhs@)
    }

    closed spec fn sub_spec(self, rhs: ArmorRating) -> ArmorRating {
        ArmorRating(vstd::std_specs::ops::SubSpec::sub_spec(self.0, rhs.0))
    }
}

/// Physical Damage Reduction as produced by the curve, capped (60%, or
/// 75% with Defense Mastery). Additive with other PDR bonuses.
#[derive(Copy, Clone, PartialEq, Eq, Structural, PartialOrd, Ord, Debug)]
pub struct PdrPercent(Fixed);

impl View for PdrPercent {
    type V = int;

    /// The magnitude's micro-unit count.
    closed spec fn view(&self) -> int {
        self.0@
    }
}

impl PdrPercent {
    /// Wraps a fixed-point magnitude. Explicit by design: the ban is on
    /// conversions *between* magnitudes, not on naming the wrap.
    pub fn new(value: Fixed) -> (r: PdrPercent)
        ensures
            r@ == value@,
    {
        PdrPercent(value)
    }

    /// The underlying fixed-point value, surrendered explicitly.
    pub fn value(self) -> (r: Fixed)
        ensures
            r@ == self@,
    {
        self.0
    }

    /// Sum of two magnitudes of this kind.
    pub fn plus(self, rhs: PdrPercent) -> (r: PdrPercent)
        requires
            in_micro_range(self@ + rhs@),
        ensures
            r@ == self@ + rhs@,
    {
        PdrPercent(self.0.plus(rhs.0))
    }

    /// Difference of two magnitudes of this kind.
    pub fn minus(self, rhs: PdrPercent) -> (r: PdrPercent)
        requires
            in_micro_range(self@ - rhs@),
        ensures
            r@ == self@ - rhs@,
    {
        PdrPercent(self.0.minus(rhs.0))
    }
}

impl core::ops::Add for PdrPercent {
    type Output = PdrPercent;

    /// The operator form of [`PdrPercent::plus`].
    fn add(self, rhs: PdrPercent) -> (r: PdrPercent) {
        PdrPercent(self.0 + rhs.0)
    }
}

impl vstd::std_specs::ops::AddSpecImpl for PdrPercent {
    open spec fn obeys_add_spec() -> bool {
        true
    }

    open spec fn add_req(self, rhs: PdrPercent) -> bool {
        in_micro_range(self@ + rhs@)
    }

    closed spec fn add_spec(self, rhs: PdrPercent) -> PdrPercent {
        PdrPercent(vstd::std_specs::ops::AddSpec::add_spec(self.0, rhs.0))
    }
}

impl core::ops::Sub for PdrPercent {
    type Output = PdrPercent;

    /// The operator form of [`PdrPercent::minus`].
    fn sub(self, rhs: PdrPercent) -> (r: PdrPercent) {
        PdrPercent(self.0 - rhs.0)
    }
}

impl vstd::std_specs::ops::SubSpecImpl for PdrPercent {
    open spec fn obeys_sub_spec() -> bool {
        true
    }

    open spec fn sub_req(self, rhs: PdrPercent) -> bool {
        in_micro_range(self@ - rhs@)
    }

    closed spec fn sub_spec(self, rhs: PdrPercent) -> PdrPercent {
        PdrPercent(vstd::std_specs::ops::SubSpec::sub_spec(self.0, rhs.0))
    }
}

/// Multiplicative layer applied *on top of* resolved PDR (Lethal Mark
/// −30%). Not part of the defender's stat block — a modifier on the
/// exchange. Deliberately has no operators.
#[derive(Copy, Clone, PartialEq, Eq, Structural, PartialOrd, Ord, Debug)]
pub struct PdrMod(Fixed);

impl View for PdrMod {
    type V = int;

    /// The magnitude's micro-unit count.
    closed spec fn view(&self) -> int {
        self.0@
    }
}

impl PdrMod {
    /// Wraps a fixed-point magnitude. Explicit by design: the ban is on
    /// conversions *between* magnitudes, not on naming the wrap.
    pub fn new(value: Fixed) -> (r: PdrMod)
        ensures
            r@ == value@,
    {
        PdrMod(value)
    }

    /// The underlying fixed-point value, surrendered explicitly.
    pub fn value(self) -> (r: Fixed)
        ensures
            r@ == self@,
    {
        self.0
    }
}

/// Reduces the defender's [`ArmorRating`] before the curve lookup
/// (Thrust 15%). Sums across sources.
#[derive(Copy, Clone, PartialEq, Eq, Structural, PartialOrd, Ord, Debug)]
pub struct ArmorPen(Fixed);

impl View for ArmorPen {
    type V = int;

    /// The magnitude's micro-unit count.
    closed spec fn view(&self) -> int {
        self.0@
    }
}

impl ArmorPen {
    /// Wraps a fixed-point magnitude. Explicit by design: the ban is on
    /// conversions *between* magnitudes, not on naming the wrap.
    pub fn new(value: Fixed) -> (r: ArmorPen)
        ensures
            r@ == value@,
    {
        ArmorPen(value)
    }

    /// The underlying fixed-point value, surrendered explicitly.
    pub fn value(self) -> (r: Fixed)
        ensures
            r@ == self@,
    {
        self.0
    }

    /// Sum of two magnitudes of this kind.
    pub fn plus(self, rhs: ArmorPen) -> (r: ArmorPen)
        requires
            in_micro_range(self@ + rhs@),
        ensures
            r@ == self@ + rhs@,
    {
        ArmorPen(self.0.plus(rhs.0))
    }

    /// Difference of two magnitudes of this kind.
    pub fn minus(self, rhs: ArmorPen) -> (r: ArmorPen)
        requires
            in_micro_range(self@ - rhs@),
        ensures
            r@ == self@ - rhs@,
    {
        ArmorPen(self.0.minus(rhs.0))
    }
}

impl core::ops::Add for ArmorPen {
    type Output = ArmorPen;

    /// The operator form of [`ArmorPen::plus`].
    fn add(self, rhs: ArmorPen) -> (r: ArmorPen) {
        ArmorPen(self.0 + rhs.0)
    }
}

impl vstd::std_specs::ops::AddSpecImpl for ArmorPen {
    open spec fn obeys_add_spec() -> bool {
        true
    }

    open spec fn add_req(self, rhs: ArmorPen) -> bool {
        in_micro_range(self@ + rhs@)
    }

    closed spec fn add_spec(self, rhs: ArmorPen) -> ArmorPen {
        ArmorPen(vstd::std_specs::ops::AddSpec::add_spec(self.0, rhs.0))
    }
}

impl core::ops::Sub for ArmorPen {
    type Output = ArmorPen;

    /// The operator form of [`ArmorPen::minus`].
    fn sub(self, rhs: ArmorPen) -> (r: ArmorPen) {
        ArmorPen(self.0 - rhs.0)
    }
}

impl vstd::std_specs::ops::SubSpecImpl for ArmorPen {
    open spec fn obeys_sub_spec() -> bool {
        true
    }

    open spec fn sub_req(self, rhs: ArmorPen) -> bool {
        in_micro_range(self@ - rhs@)
    }

    closed spec fn sub_spec(self, rhs: ArmorPen) -> ArmorPen {
        ArmorPen(vstd::std_specs::ops::SubSpec::sub_spec(self.0, rhs.0))
    }
}

/// Damage that bypasses the whole reduction chain and is added after it
/// (Dagger Mastery +1). Sums across sources.
#[derive(Copy, Clone, PartialEq, Eq, Structural, PartialOrd, Ord, Debug)]
pub struct TrueDamage(Fixed);

impl View for TrueDamage {
    type V = int;

    /// The magnitude's micro-unit count.
    closed spec fn view(&self) -> int {
        self.0@
    }
}

impl TrueDamage {
    /// Wraps a fixed-point magnitude. Explicit by design: the ban is on
    /// conversions *between* magnitudes, not on naming the wrap.
    pub fn new(value: Fixed) -> (r: TrueDamage)
        ensures
            r@ == value@,
    {
        TrueDamage(value)
    }

    /// The underlying fixed-point value, surrendered explicitly.
    pub fn value(self) -> (r: Fixed)
        ensures
            r@ == self@,
    {
        self.0
    }

    /// Sum of two magnitudes of this kind.
    pub fn plus(self, rhs: TrueDamage) -> (r: TrueDamage)
        requires
            in_micro_range(self@ + rhs@),
        ensures
            r@ == self@ + rhs@,
    {
        TrueDamage(self.0.plus(rhs.0))
    }

    /// Difference of two magnitudes of this kind.
    pub fn minus(self, rhs: TrueDamage) -> (r: TrueDamage)
        requires
            in_micro_range(self@ - rhs@),
        ensures
            r@ == self@ - rhs@,
    {
        TrueDamage(self.0.minus(rhs.0))
    }
}

impl core::ops::Add for TrueDamage {
    type Output = TrueDamage;

    /// The operator form of [`TrueDamage::plus`].
    fn add(self, rhs: TrueDamage) -> (r: TrueDamage) {
        TrueDamage(self.0 + rhs.0)
    }
}

impl vstd::std_specs::ops::AddSpecImpl for TrueDamage {
    open spec fn obeys_add_spec() -> bool {
        true
    }

    open spec fn add_req(self, rhs: TrueDamage) -> bool {
        in_micro_range(self@ + rhs@)
    }

    closed spec fn add_spec(self, rhs: TrueDamage) -> TrueDamage {
        TrueDamage(vstd::std_specs::ops::AddSpec::add_spec(self.0, rhs.0))
    }
}

impl core::ops::Sub for TrueDamage {
    type Output = TrueDamage;

    /// The operator form of [`TrueDamage::minus`].
    fn sub(self, rhs: TrueDamage) -> (r: TrueDamage) {
        TrueDamage(self.0 - rhs.0)
    }
}

impl vstd::std_specs::ops::SubSpecImpl for TrueDamage {
    open spec fn obeys_sub_spec() -> bool {
        true
    }

    open spec fn sub_req(self, rhs: TrueDamage) -> bool {
        in_micro_range(self@ - rhs@)
    }

    closed spec fn sub_spec(self, rhs: TrueDamage) -> TrueDamage {
        TrueDamage(vstd::std_specs::ops::SubSpec::sub_spec(self.0, rhs.0))
    }
}

/// Physical/Magical Power Bonus in percent points. Sums across sources.
#[derive(Copy, Clone, PartialEq, Eq, Structural, PartialOrd, Ord, Debug)]
pub struct PowerBonus(Fixed);

impl View for PowerBonus {
    type V = int;

    /// The magnitude's micro-unit count.
    closed spec fn view(&self) -> int {
        self.0@
    }
}

impl PowerBonus {
    /// Wraps a fixed-point magnitude. Explicit by design: the ban is on
    /// conversions *between* magnitudes, not on naming the wrap.
    pub fn new(value: Fixed) -> (r: PowerBonus)
        ensures
            r@ == value@,
    {
        PowerBonus(value)
    }

    /// The underlying fixed-point value, surrendered explicitly.
    pub fn value(self) -> (r: Fixed)
        ensures
            r@ == self@,
    {
        self.0
    }

    /// Sum of two magnitudes of this kind.
    pub fn plus(self, rhs: PowerBonus) -> (r: PowerBonus)
        requires
            in_micro_range(self@ + rhs@),
        ensures
            r@ == self@ + rhs@,
    {
        PowerBonus(self.0.plus(rhs.0))
    }

    /// Difference of two magnitudes of this kind.
    pub fn minus(self, rhs: PowerBonus) -> (r: PowerBonus)
        requires
            in_micro_range(self@ - rhs@),
        ensures
            r@ == self@ - rhs@,
    {
        PowerBonus(self.0.minus(rhs.0))
    }
}

impl core::ops::Add for PowerBonus {
    type Output = PowerBonus;

    /// The operator form of [`PowerBonus::plus`].
    fn add(self, rhs: PowerBonus) -> (r: PowerBonus) {
        PowerBonus(self.0 + rhs.0)
    }
}

impl vstd::std_specs::ops::AddSpecImpl for PowerBonus {
    open spec fn obeys_add_spec() -> bool {
        true
    }

    open spec fn add_req(self, rhs: PowerBonus) -> bool {
        in_micro_range(self@ + rhs@)
    }

    closed spec fn add_spec(self, rhs: PowerBonus) -> PowerBonus {
        PowerBonus(vstd::std_specs::ops::AddSpec::add_spec(self.0, rhs.0))
    }
}

impl core::ops::Sub for PowerBonus {
    type Output = PowerBonus;

    /// The operator form of [`PowerBonus::minus`].
    fn sub(self, rhs: PowerBonus) -> (r: PowerBonus) {
        PowerBonus(self.0 - rhs.0)
    }
}

impl vstd::std_specs::ops::SubSpecImpl for PowerBonus {
    open spec fn obeys_sub_spec() -> bool {
        true
    }

    open spec fn sub_req(self, rhs: PowerBonus) -> bool {
        in_micro_range(self@ - rhs@)
    }

    closed spec fn sub_spec(self, rhs: PowerBonus) -> PowerBonus {
        PowerBonus(vstd::std_specs::ops::SubSpec::sub_spec(self.0, rhs.0))
    }
}

/// Flat move speed. Never mixes with the percentage bonus — different
/// stages.
#[derive(Copy, Clone, PartialEq, Eq, Structural, PartialOrd, Ord, Debug)]
pub struct MoveSpeedAdd(Fixed);

impl View for MoveSpeedAdd {
    type V = int;

    /// The magnitude's micro-unit count.
    closed spec fn view(&self) -> int {
        self.0@
    }
}

impl MoveSpeedAdd {
    /// Wraps a fixed-point magnitude. Explicit by design: the ban is on
    /// conversions *between* magnitudes, not on naming the wrap.
    pub fn new(value: Fixed) -> (r: MoveSpeedAdd)
        ensures
            r@ == value@,
    {
        MoveSpeedAdd(value)
    }

    /// The underlying fixed-point value, surrendered explicitly.
    pub fn value(self) -> (r: Fixed)
        ensures
            r@ == self@,
    {
        self.0
    }

    /// Sum of two magnitudes of this kind.
    pub fn plus(self, rhs: MoveSpeedAdd) -> (r: MoveSpeedAdd)
        requires
            in_micro_range(self@ + rhs@),
        ensures
            r@ == self@ + rhs@,
    {
        MoveSpeedAdd(self.0.plus(rhs.0))
    }

    /// Difference of two magnitudes of this kind.
    pub fn minus(self, rhs: MoveSpeedAdd) -> (r: MoveSpeedAdd)
        requires
            in_micro_range(self@ - rhs@),
        ensures
            r@ == self@ - rhs@,
    {
        MoveSpeedAdd(self.0.minus(rhs.0))
    }
}

impl core::ops::Add for MoveSpeedAdd {
    type Output = MoveSpeedAdd;

    /// The operator form of [`MoveSpeedAdd::plus`].
    fn add(self, rhs: MoveSpeedAdd) -> (r: MoveSpeedAdd) {
        MoveSpeedAdd(self.0 + rhs.0)
    }
}

impl vstd::std_specs::ops::AddSpecImpl for MoveSpeedAdd {
    open spec fn obeys_add_spec() -> bool {
        true
    }

    open spec fn add_req(self, rhs: MoveSpeedAdd) -> bool {
        in_micro_range(self@ + rhs@)
    }

    closed spec fn add_spec(self, rhs: MoveSpeedAdd) -> MoveSpeedAdd {
        MoveSpeedAdd(vstd::std_specs::ops::AddSpec::add_spec(self.0, rhs.0))
    }
}

impl core::ops::Sub for MoveSpeedAdd {
    type Output = MoveSpeedAdd;

    /// The operator form of [`MoveSpeedAdd::minus`].
    fn sub(self, rhs: MoveSpeedAdd) -> (r: MoveSpeedAdd) {
        MoveSpeedAdd(self.0 - rhs.0)
    }
}

impl vstd::std_specs::ops::SubSpecImpl for MoveSpeedAdd {
    open spec fn obeys_sub_spec() -> bool {
        true
    }

    open spec fn sub_req(self, rhs: MoveSpeedAdd) -> bool {
        in_micro_range(self@ - rhs@)
    }

    closed spec fn sub_spec(self, rhs: MoveSpeedAdd) -> MoveSpeedAdd {
        MoveSpeedAdd(vstd::std_specs::ops::SubSpec::sub_spec(self.0, rhs.0))
    }
}

/// Percentage move speed bonus. Never mixes with the flat add — different
/// stages.
#[derive(Copy, Clone, PartialEq, Eq, Structural, PartialOrd, Ord, Debug)]
pub struct MoveSpeedBonus(Fixed);

impl View for MoveSpeedBonus {
    type V = int;

    /// The magnitude's micro-unit count.
    closed spec fn view(&self) -> int {
        self.0@
    }
}

impl MoveSpeedBonus {
    /// Wraps a fixed-point magnitude. Explicit by design: the ban is on
    /// conversions *between* magnitudes, not on naming the wrap.
    pub fn new(value: Fixed) -> (r: MoveSpeedBonus)
        ensures
            r@ == value@,
    {
        MoveSpeedBonus(value)
    }

    /// The underlying fixed-point value, surrendered explicitly.
    pub fn value(self) -> (r: Fixed)
        ensures
            r@ == self@,
    {
        self.0
    }

    /// Sum of two magnitudes of this kind.
    pub fn plus(self, rhs: MoveSpeedBonus) -> (r: MoveSpeedBonus)
        requires
            in_micro_range(self@ + rhs@),
        ensures
            r@ == self@ + rhs@,
    {
        MoveSpeedBonus(self.0.plus(rhs.0))
    }

    /// Difference of two magnitudes of this kind.
    pub fn minus(self, rhs: MoveSpeedBonus) -> (r: MoveSpeedBonus)
        requires
            in_micro_range(self@ - rhs@),
        ensures
            r@ == self@ - rhs@,
    {
        MoveSpeedBonus(self.0.minus(rhs.0))
    }
}

impl core::ops::Add for MoveSpeedBonus {
    type Output = MoveSpeedBonus;

    /// The operator form of [`MoveSpeedBonus::plus`].
    fn add(self, rhs: MoveSpeedBonus) -> (r: MoveSpeedBonus) {
        MoveSpeedBonus(self.0 + rhs.0)
    }
}

impl vstd::std_specs::ops::AddSpecImpl for MoveSpeedBonus {
    open spec fn obeys_add_spec() -> bool {
        true
    }

    open spec fn add_req(self, rhs: MoveSpeedBonus) -> bool {
        in_micro_range(self@ + rhs@)
    }

    closed spec fn add_spec(self, rhs: MoveSpeedBonus) -> MoveSpeedBonus {
        MoveSpeedBonus(vstd::std_specs::ops::AddSpec::add_spec(self.0, rhs.0))
    }
}

impl core::ops::Sub for MoveSpeedBonus {
    type Output = MoveSpeedBonus;

    /// The operator form of [`MoveSpeedBonus::minus`].
    fn sub(self, rhs: MoveSpeedBonus) -> (r: MoveSpeedBonus) {
        MoveSpeedBonus(self.0 - rhs.0)
    }
}

impl vstd::std_specs::ops::SubSpecImpl for MoveSpeedBonus {
    open spec fn obeys_sub_spec() -> bool {
        true
    }

    open spec fn sub_req(self, rhs: MoveSpeedBonus) -> bool {
        in_micro_range(self@ - rhs@)
    }

    closed spec fn sub_spec(self, rhs: MoveSpeedBonus) -> MoveSpeedBonus {
        MoveSpeedBonus(vstd::std_specs::ops::SubSpec::sub_spec(self.0, rhs.0))
    }
}

/// Damage in hit points, at any step of the exchange chain. Sums where
/// several sources contribute flat damage.
#[derive(Copy, Clone, PartialEq, Eq, Structural, PartialOrd, Ord, Debug)]
pub struct Damage(Fixed);

impl View for Damage {
    type V = int;

    /// The magnitude's micro-unit count.
    closed spec fn view(&self) -> int {
        self.0@
    }
}

impl Damage {
    /// Wraps a fixed-point magnitude. Explicit by design: the ban is on
    /// conversions *between* magnitudes, not on naming the wrap.
    pub fn new(value: Fixed) -> (r: Damage)
        ensures
            r@ == value@,
    {
        Damage(value)
    }

    /// The underlying fixed-point value, surrendered explicitly.
    pub fn value(self) -> (r: Fixed)
        ensures
            r@ == self@,
    {
        self.0
    }

    /// Sum of two magnitudes of this kind.
    pub fn plus(self, rhs: Damage) -> (r: Damage)
        requires
            in_micro_range(self@ + rhs@),
        ensures
            r@ == self@ + rhs@,
    {
        Damage(self.0.plus(rhs.0))
    }

    /// Difference of two magnitudes of this kind.
    pub fn minus(self, rhs: Damage) -> (r: Damage)
        requires
            in_micro_range(self@ - rhs@),
        ensures
            r@ == self@ - rhs@,
    {
        Damage(self.0.minus(rhs.0))
    }
}

impl core::ops::Add for Damage {
    type Output = Damage;

    /// The operator form of [`Damage::plus`].
    fn add(self, rhs: Damage) -> (r: Damage) {
        Damage(self.0 + rhs.0)
    }
}

impl vstd::std_specs::ops::AddSpecImpl for Damage {
    open spec fn obeys_add_spec() -> bool {
        true
    }

    open spec fn add_req(self, rhs: Damage) -> bool {
        in_micro_range(self@ + rhs@)
    }

    closed spec fn add_spec(self, rhs: Damage) -> Damage {
        Damage(vstd::std_specs::ops::AddSpec::add_spec(self.0, rhs.0))
    }
}

impl core::ops::Sub for Damage {
    type Output = Damage;

    /// The operator form of [`Damage::minus`].
    fn sub(self, rhs: Damage) -> (r: Damage) {
        Damage(self.0 - rhs.0)
    }
}

impl vstd::std_specs::ops::SubSpecImpl for Damage {
    open spec fn obeys_sub_spec() -> bool {
        true
    }

    open spec fn sub_req(self, rhs: Damage) -> bool {
        in_micro_range(self@ - rhs@)
    }

    closed spec fn sub_spec(self, rhs: Damage) -> Damage {
        Damage(vstd::std_specs::ops::SubSpec::sub_spec(self.0, rhs.0))
    }
}

/// A skill's scaling coefficient in percent (Sneak Attack 0%, Rupture
/// 75%, Caltrops 100%). Deliberately not additive: two coefficients never
/// sum, and 0% is a load-bearing value, not a default.
#[derive(Copy, Clone, PartialEq, Eq, Structural, PartialOrd, Ord, Debug)]
pub struct ScalingCoefficient(Fixed);

impl View for ScalingCoefficient {
    type V = int;

    /// The magnitude's micro-unit count.
    closed spec fn view(&self) -> int {
        self.0@
    }
}

impl ScalingCoefficient {
    /// Wraps a fixed-point magnitude. Explicit by design: the ban is on
    /// conversions *between* magnitudes, not on naming the wrap.
    pub fn new(value: Fixed) -> (r: ScalingCoefficient)
        ensures
            r@ == value@,
    {
        ScalingCoefficient(value)
    }

    /// The underlying fixed-point value, surrendered explicitly.
    pub fn value(self) -> (r: Fixed)
        ensures
            r@ == self@,
    {
        self.0
    }
}

/// PDR after the multiplicative PDR Mod layer. Distinct from
/// [`PdrPercent`] because it belongs to an *exchange*, not to a defender's
/// stat block.
#[derive(Copy, Clone, PartialEq, Eq, Structural, PartialOrd, Ord, Debug)]
pub struct EffectivePdr(Fixed);

impl View for EffectivePdr {
    type V = int;

    /// The magnitude's micro-unit count.
    closed spec fn view(&self) -> int {
        self.0@
    }
}

impl EffectivePdr {
    /// Wraps a fixed-point magnitude. Explicit by design: the ban is on
    /// conversions *between* magnitudes, not on naming the wrap.
    pub fn new(value: Fixed) -> (r: EffectivePdr)
        ensures
            r@ == value@,
    {
        EffectivePdr(value)
    }

    /// The underlying fixed-point value, surrendered explicitly.
    pub fn value(self) -> (r: Fixed)
        ensures
            r@ == self@,
    {
        self.0
    }
}

/// One hundred percent, in micro-units.
pub open spec fn hundred() -> int {
    100 * SCALE
}

/// The percent scale: percentages are stored as points, so 30% is 30.
pub fn percent_scale() -> (r: Fixed)
    ensures
        r@ == hundred(),
{
    Fixed::from_micro(100_000_000)
}

/// `v × (100 + percent) / 100`, one banker's rounding.
pub open spec fn with_percent(v: int, percent: int) -> int {
    mul_div_spec(v, hundred() + percent, hundred())
}

/// `v × coefficient / 100`, one banker's rounding.
pub open spec fn percent_of(v: int, coefficient: int) -> int {
    mul_div_spec(v, coefficient, hundred())
}

/// `v × (100 − percent) / 100`, one banker's rounding.
pub open spec fn less_percent(v: int, percent: int) -> int {
    mul_div_spec(v, hundred() - percent, hundred())
}

/// The armor rating left after penetration: reduced by a percentage of
/// itself, never below zero.
pub open spec fn penetrated(armor: int, pen: int) -> int {
    let reduced = less_percent(armor, pen);
    if reduced < 0 { 0 } else { reduced }
}

/// Applies a percentage to a damage value: `damage × (100 + percent) / 100`,
/// one banker's rounding. The named home for "a percent bonus was applied".
pub fn apply_percent(damage: Damage, percent: Fixed) -> (r: Damage)
    requires
        in_micro_range(hundred() + percent@),
        in_micro_range(with_percent(damage@, percent@)),
    ensures
        r@ == with_percent(damage@, percent@),
{
    let p = percent_scale();
    Damage::new(damage.value().mul_div_half_even(p.plus(percent), p))
}

/// Applies an Item Armor Rating Bonus to the item-sourced armour rating:
/// `item_ar × (100 + bonus) / 100`, one banker's rounding. Only the item
/// bucket is passed in — keeping the other bucket out of this call is how
/// the exclusion is enforced.
pub fn apply_item_armor_bonus(item_ar: Fixed, bonus: Fixed) -> (r: Fixed)
    requires
        in_micro_range(hundred() + bonus@),
        in_micro_range(with_percent(item_ar@, bonus@)),
    ensures
        r@ == with_percent(item_ar@, bonus@),
{
    let p = percent_scale();
    item_ar.mul_div_half_even(p.plus(bonus), p)
}

/// Applies a skill's scaling coefficient: `base × coeff / 100`. A 0%
/// coefficient yields zero scaled damage — that is the mechanic, not a bug.
pub fn apply_scaling(base: Damage, coefficient: ScalingCoefficient) -> (r: Damage)
    requires
        in_micro_range(percent_of(base@, coefficient@)),
    ensures
        r@ == percent_of(base@, coefficient@),
{
    Damage::new(base.value().mul_div_half_even(coefficient.value(), percent_scale()))
}

/// Reduces the defender's armor rating by the attacker's penetration:
/// `armor × (100 − pen) / 100`, floored at zero. Penetration is a percentage
/// of the rating, never a flat subtraction.
pub fn penetrate(armor: ArmorRating, pen: ArmorPen) -> (r: ArmorRating)
    requires
        in_micro_range(hundred() - pen@),
        in_micro_range(less_percent(armor@, pen@)),
    ensures
        r@ == penetrated(armor@, pen@),
{
    let p = percent_scale();
    let reduced = armor.value().mul_div_half_even(p.minus(pen.value()), p);
    ArmorRating::new(reduced.max_of(Fixed::zero()))
}

/// Applies the multiplicative PDR Mod layer: `pdr × (100 + mod) / 100`.
/// Lethal Mark's −30% turns 60% PDR into 42%, never into 30%.
pub fn apply_pdr_mod(base: PdrPercent, m: PdrMod) -> (r: EffectivePdr)
    requires
        in_micro_range(hundred() + m@),
        in_micro_range(with_percent(base@, m@)),
    ensures
        r@ == with_percent(base@, m@),
{
    let p = percent_scale();
    EffectivePdr::new(base.value().mul_div_half_even(p.plus(m.value()), p))
}

/// Applies damage reduction to a damage value: `damage × (100 − pdr) / 100`.
/// Negative PDR (light armor at low ratings) correctly *increases* damage.
pub fn reduce_by_pdr(damage: Damage, pdr: EffectivePdr) -> (r: Damage)
    requires
        in_micro_range(hundred() - pdr@),
        in_micro_range(less_percent(damage@, pdr@)),
    ensures
        r@ == less_percent(damage@, pdr@),
{
    let p = percent_scale();
    Damage::new(damage.value().mul_div_half_even(p.minus(pdr.value()), p))
}

// ── Laws of the named conversions ──────────────────────────────────────────

/// More penetration never leaves a non-negative armour rating higher.
pub proof fn law_more_penetration_never_raises_armor(armor: int, low: int, high: int)
    requires
        armor >= 0,
        low <= high,
    ensures
        penetrated(armor, high) <= penetrated(armor, low),
{
    assert(armor * (hundred() - high) <= armor * (hundred() - low)) by (nonlinear_arith)
        requires armor >= 0, low <= high;
    law_mul_div_is_monotone(armor, hundred() - high, armor, hundred() - low, hundred());
}

/// More reduction never deals more damage to a non-negative hit.
pub proof fn law_more_reduction_never_deals_more(damage: int, low: int, high: int)
    requires
        damage >= 0,
        low <= high,
    ensures
        less_percent(damage, high) <= less_percent(damage, low),
{
    assert(damage * (hundred() - high) <= damage * (hundred() - low)) by (nonlinear_arith)
        requires damage >= 0, low <= high;
    law_mul_div_is_monotone(damage, hundred() - high, damage, hundred() - low, hundred());
}

/// A larger percentage bonus never lowers a non-negative value: the rule
/// behind "a bigger Item Armor Rating Bonus never means less armour".
pub proof fn law_bigger_bonus_never_lowers(v: int, low: int, high: int)
    requires
        v >= 0,
        low <= high,
    ensures
        with_percent(v, low) <= with_percent(v, high),
{
    assert(v * (hundred() + low) <= v * (hundred() + high)) by (nonlinear_arith)
        requires v >= 0, low <= high;
    law_mul_div_is_monotone(v, hundred() + low, v, hundred() + high, hundred());
}

/// A zero scaling coefficient scales any base to exactly nothing, so no
/// power bonus applied afterwards can move it.
pub proof fn law_zero_scaling_is_zero(base: int)
    ensures
        percent_of(base, 0) == 0,
{
    assert(base * 0 == 0);
}

/// A character attribute (Strength, Agility, …). Whole integer by nature —
/// the game rolls and buffs attributes in whole points; only *derived* stats
/// are fractional.
#[derive(Copy, Clone, PartialEq, Eq, Structural, PartialOrd, Ord, Debug)]
pub struct Attribute(i32);

impl View for Attribute {
    type V = int;

    /// The whole-point value.
    closed spec fn view(&self) -> int {
        self.0 as int
    }
}

impl Attribute {
    /// Wraps a whole-point attribute value.
    pub fn new(points: i32) -> (r: Attribute)
        ensures
            r@ == points,
    {
        Attribute(points)
    }

    /// The whole-point value, surrendered explicitly.
    pub fn points(self) -> (r: i32)
        ensures
            r == self@,
    {
        self.0
    }

    /// The sum of two attribute values.
    pub fn plus(self, rhs: Attribute) -> (r: Attribute)
        requires
            i32::MIN <= self@ + rhs@ <= i32::MAX,
        ensures
            r@ == self@ + rhs@,
    {
        Attribute(self.0 + rhs.0)
    }
}

impl Default for Attribute {
    /// Zero points.
    fn default() -> (r: Attribute)
        ensures
            r@ == 0,
    {
        Attribute(0)
    }
}

impl core::ops::Add for Attribute {
    type Output = Attribute;

    /// The operator form of [`Attribute::plus`].
    fn add(self, rhs: Attribute) -> (r: Attribute) {
        Attribute(self.0 + rhs.0)
    }
}

impl vstd::std_specs::ops::AddSpecImpl for Attribute {
    open spec fn obeys_add_spec() -> bool {
        true
    }

    open spec fn add_req(self, rhs: Attribute) -> bool {
        i32::MIN <= self@ + rhs@ <= i32::MAX
    }

    closed spec fn add_spec(self, rhs: Attribute) -> Attribute {
        Attribute((self.0 + rhs.0) as i32)
    }
}

impl core::ops::Sub for Attribute {
    type Output = Attribute;

    /// Exact difference of two attribute values.
    fn sub(self, rhs: Attribute) -> (r: Attribute) {
        Attribute(self.0 - rhs.0)
    }
}

impl vstd::std_specs::ops::SubSpecImpl for Attribute {
    open spec fn obeys_sub_spec() -> bool {
        true
    }

    open spec fn sub_req(self, rhs: Attribute) -> bool {
        i32::MIN <= self@ - rhs@ <= i32::MAX
    }

    closed spec fn sub_spec(self, rhs: Attribute) -> Attribute {
        Attribute((self.0 - rhs.0) as i32)
    }
}

/// What kind of damage a strike deals. It chooses which stats the steps
/// read: Physical Power Bonus or Magic Power Bonus at step 3; Armor Rating
/// or Magic Resistance at step 5; the reduction each converts into at 6
/// and 7. True damage is not a third type: it has its own field.
#[derive(Copy, Clone, PartialEq, Eq, Structural, Debug)]
pub enum DamageType {
    /// Reduced by armour.
    Physical,
    /// Reduced by magic resistance.
    Magic,
}

impl Default for DamageType {
    /// Physical.
    fn default() -> (r: DamageType)
        ensures
            r == DamageType::Physical,
    {
        DamageType::Physical
    }
}

/// The name of a damage type.
pub open spec fn damage_type_name(t: DamageType) -> Seq<char> {
    match t {
        DamageType::Physical => "physical"@,
        DamageType::Magic => "magic"@,
    }
}

/// The attacker's power bonus stat a damage type reads.
pub open spec fn power_bonus_of(t: DamageType) -> Seq<char> {
    match t {
        DamageType::Physical => well_known::physical_power_bonus(),
        DamageType::Magic => well_known::magic_power_bonus(),
    }
}

/// The defender's rating stat a damage type reads.
pub open spec fn rating_of(t: DamageType) -> Seq<char> {
    match t {
        DamageType::Physical => well_known::armor_rating(),
        DamageType::Magic => well_known::magic_resistance(),
    }
}

/// The reduction stat a damage type's rating converts into.
pub open spec fn reduction_of(t: DamageType) -> Seq<char> {
    match t {
        DamageType::Physical => well_known::pdr(),
        DamageType::Magic => well_known::magical_damage_reduction(),
    }
}

impl DamageType {
    /// The name used in files and readouts.
    pub fn as_str(self) -> (r: &'static str)
        ensures
            r@ == damage_type_name(self),
    {
        proof {
            reveal_strlit("physical");
            reveal_strlit("magic");
        }
        match self {
            DamageType::Physical => "physical",
            DamageType::Magic => "magic",
        }
    }

    /// The attacker's power bonus for this type: step 3.
    pub fn power_bonus(self) -> (r: &'static str)
        ensures
            r@ == power_bonus_of(self),
    {
        match self {
            DamageType::Physical => well_known::PHYSICAL_POWER_BONUS,
            DamageType::Magic => well_known::MAGIC_POWER_BONUS,
        }
    }

    /// The defender's rating for this type: step 5.
    pub fn rating(self) -> (r: &'static str)
        ensures
            r@ == rating_of(self),
    {
        match self {
            DamageType::Physical => well_known::ARMOR_RATING,
            DamageType::Magic => well_known::MAGIC_RESISTANCE,
        }
    }

    /// The reduction that rating converts into: steps 6 and 7.
    pub fn reduction(self) -> (r: &'static str)
        ensures
            r@ == reduction_of(self),
    {
        match self {
            DamageType::Physical => well_known::PDR,
            DamageType::Magic => well_known::MAGICAL_DAMAGE_REDUCTION,
        }
    }
}

/// What flavour a blow carries: a kind for physical damage (Slash, Pierce,
/// Blunt), a school for magical damage (Fire, Ice and ten more). Neither
/// changes the number; both exist so that perks and skills can condition on
/// them.
#[derive(Copy, Clone, PartialEq, Eq, Structural, PartialOrd, Ord, Debug)]
pub enum DamageTag {
    /// A cut.
    Slash,
    /// A thrust.
    Pierce,
    /// An impact.
    Blunt,
    /// Fire.
    Fire,
    /// Ice.
    Ice,
    /// Lightning.
    Lightning,
    /// Earth.
    Earth,
    /// Arcane.
    Arcane,
    /// Light.
    Light,
    /// Dark.
    Dark,
    /// Evil.
    Evil,
    /// Curse.
    Curse,
    /// Divine.
    Divine,
    /// Air.
    Air,
    /// Spirit.
    Spirit,
}

/// The name of a damage tag.
pub open spec fn tag_name(t: DamageTag) -> Seq<char> {
    match t {
        DamageTag::Slash => "slash"@,
        DamageTag::Pierce => "pierce"@,
        DamageTag::Blunt => "blunt"@,
        DamageTag::Fire => "fire"@,
        DamageTag::Ice => "ice"@,
        DamageTag::Lightning => "lightning"@,
        DamageTag::Earth => "earth"@,
        DamageTag::Arcane => "arcane"@,
        DamageTag::Light => "light"@,
        DamageTag::Dark => "dark"@,
        DamageTag::Evil => "evil"@,
        DamageTag::Curse => "curse"@,
        DamageTag::Divine => "divine"@,
        DamageTag::Air => "air"@,
        DamageTag::Spirit => "spirit"@,
    }
}

/// The position of a tag in declaration order, which is the order tags
/// compare in.
pub open spec fn tag_rank(t: DamageTag) -> int {
    match t {
        DamageTag::Slash => 0,
        DamageTag::Pierce => 1,
        DamageTag::Blunt => 2,
        DamageTag::Fire => 3,
        DamageTag::Ice => 4,
        DamageTag::Lightning => 5,
        DamageTag::Earth => 6,
        DamageTag::Arcane => 7,
        DamageTag::Light => 8,
        DamageTag::Dark => 9,
        DamageTag::Evil => 10,
        DamageTag::Curse => 11,
        DamageTag::Divine => 12,
        DamageTag::Air => 13,
        DamageTag::Spirit => 14,
    }
}

/// Every tag, in declaration order.
pub open spec fn all_tags() -> Seq<DamageTag> {
    seq![
        DamageTag::Slash, DamageTag::Pierce, DamageTag::Blunt, DamageTag::Fire, DamageTag::Ice,
        DamageTag::Lightning, DamageTag::Earth, DamageTag::Arcane, DamageTag::Light,
        DamageTag::Dark, DamageTag::Evil, DamageTag::Curse, DamageTag::Divine, DamageTag::Air,
        DamageTag::Spirit,
    ]
}

/// The tag a file's text names, if any.
pub open spec fn tag_named(text: Seq<char>) -> Option<DamageTag> {
    if exists|t: DamageTag| tag_name(t) == text {
        Some(choose|t: DamageTag| tag_name(t) == text)
    } else {
        None
    }
}

/// Distinct tags have distinct names.
pub proof fn lemma_tag_names_distinct(a: DamageTag, b: DamageTag)
    ensures
        tag_name(a) == tag_name(b) ==> a == b,
{
    reveal_strlit("slash");
    reveal_strlit("pierce");
    reveal_strlit("blunt");
    reveal_strlit("fire");
    reveal_strlit("ice");
    reveal_strlit("lightning");
    reveal_strlit("earth");
    reveal_strlit("arcane");
    reveal_strlit("light");
    reveal_strlit("dark");
    reveal_strlit("evil");
    reveal_strlit("curse");
    reveal_strlit("divine");
    reveal_strlit("air");
    reveal_strlit("spirit");
    if tag_name(a) == tag_name(b) && a != b {
        assert(tag_name(a).len() != tag_name(b).len() || exists|i: int| 0 <= i < tag_name(a).len() && tag_name(a)[i] != tag_name(b)[i]) by {
            if tag_name(a).len() == tag_name(b).len() {
                let i: int = if tag_name(a)[0] != tag_name(b)[0] { 0 } else if tag_name(a)[1] != tag_name(b)[1] { 1 } else { 2 };
                assert(tag_name(a)[i] != tag_name(b)[i]);
            }
        }
    }
}

impl DamageTag {
    /// Every tag, so a caller can enumerate them without repeating the list.
    pub fn all() -> (r: [DamageTag; 15])
        ensures
            r@ == all_tags(),
    {
        let r = [
            DamageTag::Slash, DamageTag::Pierce, DamageTag::Blunt, DamageTag::Fire, DamageTag::Ice,
            DamageTag::Lightning, DamageTag::Earth, DamageTag::Arcane, DamageTag::Light,
            DamageTag::Dark, DamageTag::Evil, DamageTag::Curse, DamageTag::Divine, DamageTag::Air,
            DamageTag::Spirit,
        ];
        assert(r@ =~= all_tags());
        r
    }

    /// The name used in files and readouts.
    pub fn as_str(self) -> (r: &'static str)
        ensures
            r@ == tag_name(self),
    {
        match self {
            DamageTag::Slash => "slash",
            DamageTag::Pierce => "pierce",
            DamageTag::Blunt => "blunt",
            DamageTag::Fire => "fire",
            DamageTag::Ice => "ice",
            DamageTag::Lightning => "lightning",
            DamageTag::Earth => "earth",
            DamageTag::Arcane => "arcane",
            DamageTag::Light => "light",
            DamageTag::Dark => "dark",
            DamageTag::Evil => "evil",
            DamageTag::Curse => "curse",
            DamageTag::Divine => "divine",
            DamageTag::Air => "air",
            DamageTag::Spirit => "spirit",
        }
    }

    /// Which side of the type this tag belongs to: the three physical kinds
    /// are physical, every school is magic.
    pub fn damage_type(self) -> (r: DamageType)
        ensures
            r == (if tag_rank(self) < 3 { DamageType::Physical } else { DamageType::Magic }),
    {
        match self {
            DamageTag::Slash | DamageTag::Pierce | DamageTag::Blunt => DamageType::Physical,
            _ => DamageType::Magic,
        }
    }

    /// Reads the name a data file writes; `None` for anything else.
    pub fn parse(text: &str) -> (r: Option<DamageTag>)
        ensures
            r == tag_named(text@),
            r matches Some(t) ==> tag_name(t) == text@,
    {
        let all = DamageTag::all();
        let mut i: usize = 0;
        while i < 15
            invariant
                i <= 15,
                all@ == all_tags(),
                forall|j: int| 0 <= j < i ==> tag_name(#[trigger] all_tags()[j]) != text@,
            decreases 15 - i,
        {
            let t = all[i];
            if str_eq(t.as_str(), text) {
                proof {
                    assert forall|u: DamageTag| tag_name(u) == text@ implies u == t by {
                        lemma_tag_names_distinct(u, t);
                    }
                }
                return Some(t);
            }
            i = i + 1;
        }
        proof {
            assert forall|u: DamageTag| tag_name(u) != text@ by {
                let j = tag_rank(u);
                assert(all_tags()[j] == u);
            }
        }
        None
    }
}

/// How good a copy of an item is. A property of the copy rather than of the
/// kind of thing, but every dataset entry is one specific copy, so it
/// belongs on the entry.
#[derive(Copy, Clone, PartialEq, Eq, Structural, PartialOrd, Ord, Debug)]
pub enum Rarity {
    /// Grey.
    Poor,
    /// White.
    Common,
    /// Green.
    Uncommon,
    /// Blue.
    Rare,
    /// Purple.
    Epic,
    /// Orange.
    Legendary,
    /// Red.
    Unique,
}

/// The name of a rarity.
pub open spec fn rarity_name(r: Rarity) -> Seq<char> {
    match r {
        Rarity::Poor => "poor"@,
        Rarity::Common => "common"@,
        Rarity::Uncommon => "uncommon"@,
        Rarity::Rare => "rare"@,
        Rarity::Epic => "epic"@,
        Rarity::Legendary => "legendary"@,
        Rarity::Unique => "unique"@,
    }
}

impl Rarity {
    /// The name used in files and readouts.
    pub fn as_str(self) -> (r: &'static str)
        ensures
            r@ == rarity_name(self),
    {
        match self {
            Rarity::Poor => "poor",
            Rarity::Common => "common",
            Rarity::Uncommon => "uncommon",
            Rarity::Rare => "rare",
            Rarity::Epic => "epic",
            Rarity::Legendary => "legendary",
            Rarity::Unique => "unique",
        }
    }

    /// Reads the name a data file writes; `None` for anything else.
    pub fn parse(text: &str) -> (r: Option<Rarity>)
        ensures
            r matches Some(x) ==> rarity_name(x) == text@,
            r is None ==> forall|x: Rarity| rarity_name(x) != text@,
    {
        let all = [Rarity::Poor, Rarity::Common, Rarity::Uncommon, Rarity::Rare, Rarity::Epic, Rarity::Legendary, Rarity::Unique];
        let mut i: usize = 0;
        while i < 7
            invariant
                i <= 7,
                all@ == seq![Rarity::Poor, Rarity::Common, Rarity::Uncommon, Rarity::Rare, Rarity::Epic, Rarity::Legendary, Rarity::Unique],
                forall|j: int| 0 <= j < i ==> rarity_name(#[trigger] all@[j]) != text@,
            decreases 7 - i,
        {
            if str_eq(all[i].as_str(), text) {
                return Some(all[i]);
            }
            i = i + 1;
        }
        proof {
            assert forall|x: Rarity| rarity_name(x) != text@ by {
                let j: int = match x {
                    Rarity::Poor => 0,
                    Rarity::Common => 1,
                    Rarity::Uncommon => 2,
                    Rarity::Rare => 3,
                    Rarity::Epic => 4,
                    Rarity::Legendary => 5,
                    Rarity::Unique => 6,
                };
                assert(all@[j] == x);
            }
        }
        None
    }
}

} // verus!
