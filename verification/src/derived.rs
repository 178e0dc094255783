//! Derived stats as weighted ratings.
//!
//! A derived stat is a weighted sum of inputs, run through a curve, offset,
//! topped up by flat bonuses and clamped:
//!
//! ```text
//! rating   = Σ (weight × input)     each product rounds half-to-even
//! derived  = curve.sample(rating) + offset      (the "from rating" row)
//! derived += bonuses                            (the "from bonuses" row)
//! derived  = clamp(derived, floor, cap)
//! ```
//!
//! Inputs may name other derived stats, so evaluation runs in dependency
//! order. Cycles are a dataset error, never a runtime loop.

use vstd::prelude::*;

use crate::confidence::{Confidence, ConfidenceLevel, grade_of, grade_join, min_level};
use crate::curve::Curve;
use crate::fixed::{Fixed, SCALE, in_micro_range, mul_div_spec};
use crate::ids::{CurveId, DerivedStatId};
use crate::schema::{AttributeBlock, AttributeKind, block_get};
use crate::table::{IdMap, Slug};

verus! {

/// What feeds a rating.
#[derive(Debug)]
pub enum RatingInput {
    /// One of the seven character attributes, after stage 3.
    Attribute(AttributeKind),
    /// Another derived stat: Armor Rating to PDR, Will to Magic Resistance
    /// to Magical Damage Reduction.
    Derived(DerivedStatId),
}

/// Definition of one derived stat.
#[derive(Debug)]
pub struct DerivedStatDef {
    /// Stable identity (`derived.action_speed`).
    pub id: DerivedStatId,
    /// Weighted inputs, in the order they are summed.
    pub weights: Vec<(RatingInput, Fixed)>,
    /// Curve mapping the rating to the stat.
    pub curve: CurveId,
    /// Flat offset applied after the curve (+25 health, 300 move speed).
    pub offset: Fixed,
    /// Lower clamp, if the stat has one.
    pub floor: Option<Fixed>,
    /// Upper clamp, if the stat has one. Perks may raise it.
    pub cap: Option<Fixed>,
}

/// Why a set of derived-stat definitions could not be evaluated.
#[derive(Debug)]
pub enum DerivedError {
    /// A definition references a curve the dataset does not contain.
    UnknownCurve(CurveId),
    /// A definition references a derived stat that is neither defined nor
    /// seeded: the stat, then the missing input.
    UnknownInput(DerivedStatId, DerivedStatId),
    /// The dependency graph contains a cycle; the listed ids take part.
    CyclicDependency(Vec<DerivedStatId>),
    /// A definition has no weights, so it has no rating to speak of.
    NoWeights(DerivedStatId),
    /// The stat's arithmetic leaves the fixed-point range.
    OutOfRange(DerivedStatId),
}

/// The message a derived-stat error renders to.
pub open spec fn derived_error_text(e: DerivedError) -> Seq<char> {
    match e {
        DerivedError::UnknownCurve(id) => "curve not in dataset: "@ + id@,
        DerivedError::UnknownInput(stat, input) => stat@ + " references undefined derived input: "@ + input@,
        DerivedError::CyclicDependency(ids) => "cyclic derived-stat dependency among "@ + crate::fixed::decimal_digits(
            ids@.len(),
        ) + " stats"@,
        DerivedError::NoWeights(id) => id@ + " has no weights"@,
        DerivedError::OutOfRange(id) => id@ + " leaves the fixed-point range"@,
    }
}

impl DerivedError {
    /// The message a reader sees.
    pub fn to_string(&self) -> (r: String)
        ensures
            r@ == derived_error_text(*self),
    {
        let mut out: Vec<char> = Vec::new();
        match self {
            DerivedError::UnknownCurve(id) => {
                crate::text::append_chars(&mut out, "curve not in dataset: ");
                crate::text::append_chars(&mut out, id.as_str());
            },
            DerivedError::UnknownInput(stat, input) => {
                crate::text::append_chars(&mut out, stat.as_str());
                crate::text::append_chars(&mut out, " references undefined derived input: ");
                crate::text::append_chars(&mut out, input.as_str());
            },
            DerivedError::CyclicDependency(ids) => {
                crate::text::append_chars(&mut out, "cyclic derived-stat dependency among ");
                crate::fixed::push_decimal(ids.len() as u64, &mut out);
                crate::text::append_chars(&mut out, " stats");
            },
            DerivedError::NoWeights(id) => {
                crate::text::append_chars(&mut out, id.as_str());
                crate::text::append_chars(&mut out, " has no weights");
            },
            DerivedError::OutOfRange(id) => {
                crate::text::append_chars(&mut out, id.as_str());
                crate::text::append_chars(&mut out, " leaves the fixed-point range");
            },
        }
        crate::text::string_of(&out)
    }
}

/// How one computed stat reached its value: the rating, what the curve
/// (with its offset) made of it, and the flat bonuses added on top — the
/// decomposition the game's character sheet prints.
#[derive(Debug)]
pub struct StatBreakdown {
    /// The weighted sum fed to the curve.
    pub rating: Confidence<Fixed>,
    /// The curve's answer at that rating, plus the offset.
    pub from_rating: Confidence<Fixed>,
    /// Flat bonuses from gear and abilities.
    pub from_bonuses: Confidence<Fixed>,
}

/// Every derived stat's value, and how each computed one was made.
#[derive(Debug)]
pub struct Evaluated {
    /// Every stat by id: the plain seeds and every computed stat.
    pub values: IdMap<DerivedStatId, Confidence<Fixed>>,
    /// Per computed stat: rating, from-rating and from-bonuses rows.
    pub breakdown: IdMap<DerivedStatId, StatBreakdown>,
}

// ── Specification ───────────────────────────────────────────────────────

/// An input's value: an attribute's whole points, or another stat's value.
pub open spec fn input_value(input: RatingInput, attrs: AttributeBlock, computed: Map<Seq<char>, Confidence<Fixed>>) -> int {
    match input {
        RatingInput::Attribute(k) => block_get(attrs, k) * SCALE,
        RatingInput::Derived(id) => computed[id@].spec_value()@,
    }
}

/// An input's grade.
pub open spec fn input_level(input: RatingInput, attr_level: ConfidenceLevel, computed: Map<Seq<char>, Confidence<Fixed>>) -> ConfidenceLevel {
    match input {
        RatingInput::Attribute(_) => attr_level,
        RatingInput::Derived(id) => computed[id@].spec_level(),
    }
}

/// One weighted term: `input × weight`, one banker's rounding.
pub open spec fn term_value(input: RatingInput, weight: Fixed, attrs: AttributeBlock, computed: Map<Seq<char>, Confidence<Fixed>>) -> int {
    mul_div_spec(input_value(input, attrs, computed), weight@, SCALE as int)
}

/// The weighted sum of the inputs, in order; `None` when a term or a
/// partial sum leaves the fixed-point range.
pub open spec fn rating_sum(ws: Seq<(RatingInput, Fixed)>, attrs: AttributeBlock, computed: Map<Seq<char>, Confidence<Fixed>>) -> Option<int>
    decreases ws.len(),
{
    if ws.len() == 0 {
        Some(0)
    } else {
        match rating_sum(ws.drop_last(), attrs, computed) {
            None => None,
            Some(acc) => {
                let t = term_value(ws.last().0, ws.last().1, attrs, computed);
                if in_micro_range(t) && in_micro_range(acc + t) { Some(acc + t) } else { None }
            },
        }
    }
}

/// The grade of the weighted sum: the lowest grade among its inputs.
pub open spec fn rating_level(ws: Seq<(RatingInput, Fixed)>, attr_level: ConfidenceLevel, computed: Map<Seq<char>, Confidence<Fixed>>) -> ConfidenceLevel
    decreases ws.len(),
{
    if ws.len() == 0 {
        ConfidenceLevel::Verified
    } else {
        min_level(rating_level(ws.drop_last(), attr_level, computed), input_level(ws.last().0, attr_level, computed))
    }
}

/// An input's grade and note: the attribute block's, or the stat's.
pub open spec fn input_grade(
    input: RatingInput,
    attr_grade: (ConfidenceLevel, Option<Seq<char>>),
    computed: Map<Seq<char>, Confidence<Fixed>>,
) -> (ConfidenceLevel, Option<Seq<char>>) {
    match input {
        RatingInput::Attribute(_) => attr_grade,
        RatingInput::Derived(id) => grade_of(computed[id@]),
    }
}

/// A rating's grade and note: its inputs' joined in order, starting from
/// `Verified` with no note.
pub open spec fn rating_grade(
    ws: Seq<(RatingInput, Fixed)>,
    attr_grade: (ConfidenceLevel, Option<Seq<char>>),
    computed: Map<Seq<char>, Confidence<Fixed>>,
) -> (ConfidenceLevel, Option<Seq<char>>)
    decreases ws.len(),
{
    if ws.len() == 0 {
        (ConfidenceLevel::Verified, None)
    } else {
        grade_join(rating_grade(ws.drop_last(), attr_grade, computed), input_grade(ws.last().0, attr_grade, computed))
    }
}

/// `v` raised to the floor and lowered to the cap, when they exist.
pub open spec fn clamp_spec(v: int, floor: Option<Fixed>, cap: Option<Fixed>) -> int {
    let a = match floor {
        Some(f) => if v < f@ { f@ } else { v },
        None => v,
    };
    match cap {
        Some(c) => if a > c@ { c@ } else { a },
        None => a,
    }
}

/// The cap in force: an override wins over the definition's own.
pub open spec fn cap_in_force(def: DerivedStatDef, overrides: Map<Seq<char>, Fixed>) -> Option<Fixed> {
    if overrides.contains_key(def.id@) { Some(overrides[def.id@]) } else { def.cap }
}

/// The flat bonus a definition receives from the seeds: its own seed when
/// seeded, nothing otherwise.
pub open spec fn bonus_of(def: DerivedStatDef, seeded: Map<Seq<char>, Confidence<Fixed>>) -> int {
    if seeded.contains_key(def.id@) { seeded[def.id@].spec_value()@ } else { 0 }
}

/// The "from rating" row: the curve at the rating, plus the offset.
pub open spec fn from_rating_spec(def: DerivedStatDef, curve: Curve, rating: int) -> int {
    curve.at(rating) + def.offset@
}

/// The stat's value: the from-rating row plus bonuses, clamped.
pub open spec fn stat_spec(def: DerivedStatDef, curve: Curve, rating: int, bonus: int, cap: Option<Fixed>) -> int {
    clamp_spec(from_rating_spec(def, curve, rating) + bonus, def.floor, cap)
}

/// Whether a definition's derived inputs are all present in `m`.
pub open spec fn inputs_present(ws: Seq<(RatingInput, Fixed)>, m: Map<Seq<char>, Confidence<Fixed>>) -> bool {
    forall|i: int| 0 <= i < ws.len() ==> ((#[trigger] ws[i]).0 matches RatingInput::Derived(id) ==> m.contains_key(id@))
}

/// Definitions with distinct ids.
pub open spec fn distinct_ids(defs: Seq<DerivedStatDef>) -> bool {
    forall|i: int, j: int| 0 <= i < j < defs.len() ==> (#[trigger] defs[i]).id@ != (#[trigger] defs[j]).id@
}

/// Whether some definition carries the id.
pub open spec fn defines(defs: Seq<DerivedStatDef>, id: Seq<char>) -> bool {
    exists|i: int| 0 <= i < defs.len() && (#[trigger] defs[i]).id@ == id
}

/// A computed stat's entry agrees with its definition, evaluated against
/// the final values: rating, curve, offset, bonus and clamp.
pub open spec fn evaluated_as(
    def: DerivedStatDef,
    attrs: Confidence<AttributeBlock>,
    values: Map<Seq<char>, Confidence<Fixed>>,
    seeded: Map<Seq<char>, Confidence<Fixed>>,
    overrides: Map<Seq<char>, Fixed>,
    curves: Map<Seq<char>, Confidence<Curve>>,
) -> bool {
    &&& inputs_present(def.weights@, values)
    &&& curves.contains_key(def.curve@)
    &&& rating_sum(def.weights@, attrs.spec_value(), values) is Some
    &&& values.contains_key(def.id@)
    &&& values[def.id@].spec_value()@ == stat_spec(
        def,
        curves[def.curve@].spec_value(),
        rating_sum(def.weights@, attrs.spec_value(), values)->0,
        bonus_of(def, seeded),
        cap_in_force(def, overrides),
    )
    &&& values[def.id@].spec_level() == min_level(
        min_level(rating_level(def.weights@, attrs.spec_level(), values), curves[def.curve@].spec_level()),
        if seeded.contains_key(def.id@) { seeded[def.id@].spec_level() } else { ConfidenceLevel::Verified },
    )
}

/// A computed stat's breakdown agrees with its definition: the rating,
/// the curve's answer plus the offset, and the bonus, each with its grade;
/// the stat's own grade and note are those of its two rows joined.
pub open spec fn broken_down_as(
    def: DerivedStatDef,
    attrs: Confidence<AttributeBlock>,
    values: Map<Seq<char>, Confidence<Fixed>>,
    breakdown: Map<Seq<char>, StatBreakdown>,
    seeded: Map<Seq<char>, Confidence<Fixed>>,
    curves: Map<Seq<char>, Confidence<Curve>>,
) -> bool {
    &&& breakdown.contains_key(def.id@)
    &&& rating_sum(def.weights@, attrs.spec_value(), values) is Some
    &&& breakdown[def.id@].rating.spec_value()@ == rating_sum(def.weights@, attrs.spec_value(), values)->0
    &&& breakdown[def.id@].from_rating.spec_value()@ == from_rating_spec(def, curves[def.curve@].spec_value(), rating_sum(def.weights@, attrs.spec_value(), values)->0)
    &&& breakdown[def.id@].from_bonuses.spec_value()@ == bonus_of(def, seeded)
    &&& breakdown[def.id@].rating.spec_level() == rating_level(def.weights@, attrs.spec_level(), values)
    &&& grade_of(breakdown[def.id@].rating) == rating_grade(def.weights@, grade_of(attrs), values)
    &&& grade_of(breakdown[def.id@].from_rating) == grade_join(grade_of(breakdown[def.id@].rating), grade_of(curves[def.curve@]))
    &&& grade_of(breakdown[def.id@].from_bonuses) == bonus_grade(def, seeded)
    &&& values.contains_key(def.id@)
    &&& grade_of(values[def.id@]) == grade_join(grade_of(breakdown[def.id@].from_rating), grade_of(breakdown[def.id@].from_bonuses))
}

/// The grade and note of a definition's flat bonus: its seed's, or
/// `Verified` with no note when nothing seeds it.
pub open spec fn bonus_grade(def: DerivedStatDef, seeded: Map<Seq<char>, Confidence<Fixed>>) -> (ConfidenceLevel, Option<Seq<char>>) {
    if seeded.contains_key(def.id@) { grade_of(seeded[def.id@]) } else { (ConfidenceLevel::Verified, None) }
}

/// A rating's grade reads only its inputs: a larger map that agrees on
/// them gives the same grade and note.
proof fn lemma_rating_grade_depends_on_inputs(
    ws: Seq<(RatingInput, Fixed)>,
    ag: (ConfidenceLevel, Option<Seq<char>>),
    m1: Map<Seq<char>, Confidence<Fixed>>,
    m2: Map<Seq<char>, Confidence<Fixed>>,
)
    requires
        inputs_present(ws, m1),
        forall|k: Seq<char>| #[trigger] m1.contains_key(k) ==> m2.contains_key(k) && m2[k] == m1[k],
    ensures
        rating_grade(ws, ag, m1) == rating_grade(ws, ag, m2),
    decreases ws.len(),
{
    if ws.len() > 0 {
        let p = ws.drop_last();
        assert(inputs_present(p, m1)) by {
            assert forall|i: int| 0 <= i < p.len() implies ((#[trigger] p[i]).0 matches RatingInput::Derived(id) ==> m1.contains_key(id@)) by {
                assert(p[i] == ws[i]);
            }
        }
        lemma_rating_grade_depends_on_inputs(p, ag, m1, m2);
        let last = ws[ws.len() - 1];
        assert(ws.last() == last);
        if let RatingInput::Derived(id) = last.0 {
            assert(m1.contains_key(id@));
        }
        assert(input_grade(last.0, ag, m1) == input_grade(last.0, ag, m2));
    }
}

/// The input ids of a definition's weights.
proof fn lemma_rating_depends_on_inputs(
    ws: Seq<(RatingInput, Fixed)>,
    attrs: AttributeBlock,
    lvl: ConfidenceLevel,
    m1: Map<Seq<char>, Confidence<Fixed>>,
    m2: Map<Seq<char>, Confidence<Fixed>>,
)
    requires
        inputs_present(ws, m1),
        forall|k: Seq<char>| #[trigger] m1.contains_key(k) ==> m2.contains_key(k) && m2[k] == m1[k],
    ensures
        rating_sum(ws, attrs, m1) == rating_sum(ws, attrs, m2),
        rating_level(ws, lvl, m1) == rating_level(ws, lvl, m2),
        inputs_present(ws, m2),
    decreases ws.len(),
{
    if ws.len() > 0 {
        let p = ws.drop_last();
        assert(inputs_present(p, m1)) by {
            assert forall|i: int| 0 <= i < p.len() implies ((#[trigger] p[i]).0 matches RatingInput::Derived(id) ==> m1.contains_key(id@)) by {
                assert(p[i] == ws[i]);
            }
        }
        lemma_rating_depends_on_inputs(p, attrs, lvl, m1, m2);
        let last = ws[ws.len() - 1];
        assert(ws.last() == last);
        if let RatingInput::Derived(id) = last.0 {
            assert(m1.contains_key(id@));
        }
        assert(term_value(last.0, last.1, attrs, m1) == term_value(last.0, last.1, attrs, m2));
        assert(input_level(last.0, lvl, m1) == input_level(last.0, lvl, m2));
        assert forall|i: int| 0 <= i < ws.len() implies ((#[trigger] ws[i]).0 matches RatingInput::Derived(id) ==> m2.contains_key(id@)) by {
        }
    }
}

// ── Evaluation ──────────────────────────────────────────────────────────

/// The weighted sum of a definition's inputs, with the lowest grade among
/// them; `None` when the arithmetic leaves the range.
fn weighted_rating(
    ws: &Vec<(RatingInput, Fixed)>,
    attributes: &Confidence<AttributeBlock>,
    computed: &IdMap<DerivedStatId, Confidence<Fixed>>,
) -> (r: Option<Confidence<Fixed>>)
    requires
        computed.wf(),
        inputs_present(ws@, computed.view()),
    ensures
        rating_sum(ws@, attributes.spec_value(), computed.view()) is None ==> r is None,
        rating_sum(ws@, attributes.spec_value(), computed.view()) is Some ==> r is Some
            && r->0.spec_value()@ == rating_sum(ws@, attributes.spec_value(), computed.view())->0
            && r->0.spec_level() == rating_level(ws@, attributes.spec_level(), computed.view())
            && grade_of(r->0) == rating_grade(ws@, grade_of(*attributes), computed.view()),
{
    let ghost attrs = attributes.spec_value();
    let ghost m = computed.view();
    let mut acc = Fixed::zero();
    let mut grade: Confidence<()> = Confidence::Verified(());
    let mut i: usize = 0;
    while i < ws.len()
        invariant
            i <= ws@.len(),
            computed.wf(),
            m == computed.view(),
            attrs == attributes.spec_value(),
            inputs_present(ws@, m),
            rating_sum(ws@.subrange(0, i as int), attrs, m) == Some(acc@),
            grade.spec_level() == rating_level(ws@.subrange(0, i as int), attributes.spec_level(), m),
            grade_of(grade) == rating_grade(ws@.subrange(0, i as int), grade_of(*attributes), m),
        decreases ws@.len() - i,
    {
        let ghost pre = ws@.subrange(0, i as int);
        let ghost cur = ws@.subrange(0, i + 1);
        assert(cur.drop_last() =~= pre);
        assert(cur.last() == ws@[i as int]);
        let (input, weight) = (&ws[i].0, ws[i].1);
        let (value, g): (Fixed, Confidence<()>) = match input {
            RatingInput::Attribute(kind) => {
                let points = attributes.value().get(*kind).points();
                (Fixed::from_int(points as i64), attributes.with_value(()))
            },
            RatingInput::Derived(id) => {
                assert(ws@[i as int].0 matches RatingInput::Derived(d) ==> m.contains_key(d@));
                let c = computed.get(id.as_str()).unwrap();
                (*c.value(), c.with_value(()))
            },
        };
        let term = match value.checked_mul_div_half_even(weight, Fixed::one()) {
            Some(t) => t,
            None => {
                assert(rating_sum(cur, attrs, m) is None);
                proof { lemma_rating_none_extends(ws@, attrs, m, i as int + 1); }
                return None;
            },
        };
        acc = match acc.checked_plus(term) {
            Some(a) => a,
            None => {
                assert(rating_sum(cur, attrs, m) is None);
                proof { lemma_rating_none_extends(ws@, attrs, m, i as int + 1); }
                return None;
            },
        };
        grade = grade.join(&g, ());
        i = i + 1;
    }
    assert(ws@.subrange(0, ws@.len() as int) =~= ws@);
    Some(grade.with_value(acc))
}

/// Once a prefix of the weights overflows, so does every longer prefix.
proof fn lemma_rating_none_extends(ws: Seq<(RatingInput, Fixed)>, attrs: AttributeBlock, m: Map<Seq<char>, Confidence<Fixed>>, k: int)
    requires
        0 <= k <= ws.len(),
        rating_sum(ws.subrange(0, k), attrs, m) is None,
    ensures
        rating_sum(ws, attrs, m) is None,
    decreases ws.len() - k,
{
    if k < ws.len() {
        let next = ws.subrange(0, k + 1);
        assert(next.drop_last() =~= ws.subrange(0, k));
        lemma_rating_none_extends(ws, attrs, m, k + 1);
    } else {
        assert(ws.subrange(0, k) =~= ws);
    }
}

/// `v` raised to the floor and lowered to the cap.
fn clamp(v: Fixed, floor: Option<Fixed>, cap: Option<Fixed>) -> (r: Fixed)
    ensures
        r@ == clamp_spec(v@, floor, cap),
{
    let a = match floor {
        Some(f) => if v.micro() < f.micro() { f } else { v },
        None => v,
    };
    match cap {
        Some(c) => if a.micro() > c.micro() { c } else { a },
        None => a,
    }
}

/// Evaluates one definition against the final attribute block and the
/// values computed so far: rating, curve, offset, bonus, clamp.
fn evaluate(
    def: &DerivedStatDef,
    attributes: &Confidence<AttributeBlock>,
    computed: &IdMap<DerivedStatId, Confidence<Fixed>>,
    curve: &Confidence<Curve>,
    bonus: &Confidence<Fixed>,
    cap: Option<Fixed>,
) -> (r: Option<(Confidence<Fixed>, StatBreakdown)>)
    requires
        computed.wf(),
        inputs_present(def.weights@, computed.view()),
        curve.spec_value().wf(),
    ensures
        match r {
            Some((value, parts)) => {
                &&& rating_sum(def.weights@, attributes.spec_value(), computed.view()) is Some
                &&& value.spec_value()@ == stat_spec(*def, curve.spec_value(), rating_sum(def.weights@, attributes.spec_value(), computed.view())->0, bonus.spec_value()@, cap)
                &&& value.spec_level() == min_level(min_level(rating_level(def.weights@, attributes.spec_level(), computed.view()), curve.spec_level()), bonus.spec_level())
                &&& parts.rating.spec_value()@ == rating_sum(def.weights@, attributes.spec_value(), computed.view())->0
                &&& parts.from_rating.spec_value()@ == from_rating_spec(*def, curve.spec_value(), rating_sum(def.weights@, attributes.spec_value(), computed.view())->0)
                &&& parts.from_bonuses.spec_value()@ == bonus.spec_value()@
                &&& parts.rating.spec_level() == rating_level(def.weights@, attributes.spec_level(), computed.view())
                &&& grade_of(parts.rating) == rating_grade(def.weights@, grade_of(*attributes), computed.view())
                &&& grade_of(parts.from_rating) == grade_join(grade_of(parts.rating), grade_of(*curve))
                &&& grade_of(parts.from_bonuses) == grade_of(*bonus)
                &&& grade_of(value) == grade_join(grade_of(parts.from_rating), grade_of(parts.from_bonuses))
            },
            None => true,
        },
        r is None <==> (rating_sum(def.weights@, attributes.spec_value(), computed.view()) is None
            || !in_micro_range(from_rating_spec(*def, curve.spec_value(), rating_sum(def.weights@, attributes.spec_value(), computed.view())->0))
            || !in_micro_range(from_rating_spec(*def, curve.spec_value(), rating_sum(def.weights@, attributes.spec_value(), computed.view())->0)
                + bonus.spec_value()@)),
{
    let rating = weighted_rating(&def.weights, attributes, computed)?;
    let sampled = curve.value().sample(*rating.value());
    let from_rating_value = sampled.checked_plus(def.offset)?;
    let total = from_rating_value.checked_plus(*bonus.value())?;
    let value = clamp(total, def.floor, cap);
    let from_rating = rating.join(curve, from_rating_value);
    let graded = from_rating.join(bonus, value);
    let breakdown = StatBreakdown {
        rating: rating,
        from_rating: from_rating,
        from_bonuses: bonus.copied(),
    };
    Some((graded, breakdown))
}

/// The position of the definition carrying `id`, if any.
pub(crate) fn find_def(defs: &Vec<DerivedStatDef>, id: &str) -> (r: Option<usize>)
    ensures
        match r {
            Some(i) => i < defs@.len() && defs@[i as int].id@ == id@,
            None => !defines(defs@, id@),
        },
{
    let mut i: usize = 0;
    while i < defs.len()
        invariant
            i <= defs@.len(),
            forall|j: int| 0 <= j < i ==> (#[trigger] defs@[j]).id@ != id@,
        decreases defs@.len() - i,
    {
        if crate::text::str_eq(defs[i].id.as_str(), id) {
            return Some(i);
        }
        i = i + 1;
    }
    None
}

/// Whether a definition has weights of its own: such a definition is
/// computed, and a seed under its id is a bonus rather than its value.
pub open spec fn weighted(d: DerivedStatDef) -> bool {
    d.weights@.len() > 0
}

/// A seed is plain — a value in its own right — unless a weighted
/// definition carries its id.
pub open spec fn plain_seed(defs: Seq<DerivedStatDef>, id: Seq<char>) -> bool {
    !exists|i: int| 0 <= i < defs.len() && (#[trigger] defs[i]).id@ == id && weighted(defs[i])
}

/// What the evaluation has established so far: every finished definition
/// agrees with its specification against the current values, every value
/// is a plain seed or a finished definition's, and every plain seed is in.
#[verifier::opaque]
pub open spec fn progress_ok(
    defs: Seq<DerivedStatDef>,
    attrs: Confidence<AttributeBlock>,
    seeded: Map<Seq<char>, Confidence<Fixed>>,
    overrides: Map<Seq<char>, Fixed>,
    curves: Map<Seq<char>, Confidence<Curve>>,
    computed: Map<Seq<char>, Confidence<Fixed>>,
    breakdown: Map<Seq<char>, StatBreakdown>,
    done: Set<int>,
) -> bool {
    &&& forall|d: int| #[trigger] done.contains(d) ==> 0 <= d < defs.len() && weighted(defs[d])
        && evaluated_as(defs[d], attrs, computed, seeded, overrides, curves)
        && broken_down_as(defs[d], attrs, computed, breakdown, seeded, curves)
    &&& forall|key: Seq<char>| #[trigger] computed.contains_key(key) ==> (seeded.contains_key(key) && plain_seed(defs, key) && computed[key] == seeded[key])
        || exists|d: int| #[trigger] done.contains(d) && defs[d].id@ == key
    &&& forall|key: Seq<char>| #[trigger] seeded.contains_key(key) && plain_seed(defs, key) ==> computed.contains_key(key)
}

/// The weights of `d` name the derived stat `x` as an input.
pub open spec fn names_input(d: DerivedStatDef, x: Seq<char>) -> bool {
    exists|w: int| 0 <= w < d.weights@.len() && ((#[trigger] d.weights@[w]).0 matches RatingInput::Derived(id) && id@ == x)
}

/// Evaluating `d` against the values `m` leaves the fixed-point range: the
/// rating, the curve's answer plus the offset, or that plus the bonus.
pub open spec fn eval_fails(
    d: DerivedStatDef,
    attrs: Confidence<AttributeBlock>,
    m: Map<Seq<char>, Confidence<Fixed>>,
    seeded: Map<Seq<char>, Confidence<Fixed>>,
    curves: Map<Seq<char>, Confidence<Curve>>,
) -> bool {
    let rating = rating_sum(d.weights@, attrs.spec_value(), m);
    ||| rating is None
    ||| !in_micro_range(from_rating_spec(d, curves[d.curve@].spec_value(), rating->0))
    ||| !in_micro_range(from_rating_spec(d, curves[d.curve@].spec_value(), rating->0) + bonus_of(d, seeded))
}

/// `d` waits on the values `m`: an input is missing, and every missing
/// input is a defined stat, not yet computed.
pub open spec fn blocked(defs: Seq<DerivedStatDef>, d: DerivedStatDef, m: Map<Seq<char>, Confidence<Fixed>>) -> bool {
    &&& !inputs_present(d.weights@, m)
    &&& forall|x: Seq<char>| #[trigger] names_input(d, x) && !m.contains_key(x) ==> defines(defs, x)
}

/// A weighted definition that is not finished in `done`.
pub open spec fn open_def(defs: Seq<DerivedStatDef>, done: Set<int>, i: int) -> bool {
    0 <= i < defs.len() && weighted(defs[i]) && !done.contains(i)
}

/// An evaluation that has run as far as it can: its progress is sound,
/// every unfinished weighted definition waits on another unfinished one,
/// and `ids` names exactly the unfinished definitions.
pub open spec fn stalled(
    defs: Seq<DerivedStatDef>,
    attrs: Confidence<AttributeBlock>,
    seeded: Map<Seq<char>, Confidence<Fixed>>,
    overrides: Map<Seq<char>, Fixed>,
    curves: Map<Seq<char>, Confidence<Curve>>,
    m: Map<Seq<char>, Confidence<Fixed>>,
    bd: Map<Seq<char>, StatBreakdown>,
    done: Set<int>,
    ids: Seq<DerivedStatId>,
) -> bool {
    &&& progress_ok(defs, attrs, seeded, overrides, curves, m, bd, done)
    &&& forall|i: int| #[trigger] open_def(defs, done, i) ==> blocked(defs, defs[i], m)
    &&& forall|j: int| 0 <= j < ids.len() ==> exists|i: int| #[trigger] open_def(defs, done, i) && defs[i].id@ == (#[trigger] ids[j])@
    &&& forall|i: int| #[trigger] open_def(defs, done, i) ==> exists|j: int| 0 <= j < ids.len() && (#[trigger] ids[j])@ == defs[i].id@
}

/// An evaluation reached the unfinished definition carrying `id` with all
/// its inputs computed, and its arithmetic left the fixed-point range.
pub open spec fn fails_at(
    defs: Seq<DerivedStatDef>,
    attrs: Confidence<AttributeBlock>,
    seeded: Map<Seq<char>, Confidence<Fixed>>,
    overrides: Map<Seq<char>, Fixed>,
    curves: Map<Seq<char>, Confidence<Curve>>,
    m: Map<Seq<char>, Confidence<Fixed>>,
    bd: Map<Seq<char>, StatBreakdown>,
    done: Set<int>,
    id: Seq<char>,
) -> bool {
    &&& progress_ok(defs, attrs, seeded, overrides, curves, m, bd, done)
    &&& exists|i: int| #[trigger] open_def(defs, done, i) && defs[i].id@ == id
        && inputs_present(defs[i].weights@, m)
        && curves.contains_key(defs[i].curve@)
        && eval_fails(defs[i], attrs, m, seeded, curves)
}

/// Every definition has weights or a seed.
pub open spec fn no_weight_gaps(defs: Seq<DerivedStatDef>, seeded: Map<Seq<char>, Confidence<Fixed>>) -> bool {
    forall|j: int| 0 <= j < defs.len() ==> weighted(#[trigger] defs[j]) || seeded.contains_key(defs[j].id@)
}

/// Every input a weighted definition names is defined or seeded.
pub open spec fn inputs_known(defs: Seq<DerivedStatDef>, seeded: Map<Seq<char>, Confidence<Fixed>>) -> bool {
    forall|i: int, x: Seq<char>| 0 <= i < defs.len() && weighted(defs[i]) && #[trigger] names_input(defs[i], x) ==> defines(defs, x) || seeded.contains_key(x)
}

/// Every weighted definition's curve is in the table.
pub open spec fn curves_known(defs: Seq<DerivedStatDef>, curves: Map<Seq<char>, Confidence<Curve>>) -> bool {
    forall|i: int| 0 <= i < defs.len() && weighted(#[trigger] defs[i]) ==> curves.contains_key(defs[i].curve@)
}

/// `rank` orders the dependency graph: every input a weighted definition
/// waits on (all but the plain seeds) ranks below the definition itself.
/// Such a ranking exists exactly when the graph has no cycle.
pub open spec fn ranked(defs: Seq<DerivedStatDef>, seeded: Map<Seq<char>, Confidence<Fixed>>, rank: spec_fn(Seq<char>) -> nat) -> bool {
    forall|i: int, x: Seq<char>| 0 <= i < defs.len() && weighted(defs[i]) && #[trigger] names_input(defs[i], x)
        && !(seeded.contains_key(x) && plain_seed(defs, x)) ==> rank(x) < rank(defs[i].id@)
}

/// With a ranked graph, an evaluation cannot stall: every unfinished
/// definition ranks at least `n`, for every `n`.
proof fn lemma_ranked_never_stalls(
    defs: Seq<DerivedStatDef>,
    attrs: Confidence<AttributeBlock>,
    seeded: Map<Seq<char>, Confidence<Fixed>>,
    overrides: Map<Seq<char>, Fixed>,
    curves: Map<Seq<char>, Confidence<Curve>>,
    m: Map<Seq<char>, Confidence<Fixed>>,
    bd: Map<Seq<char>, StatBreakdown>,
    done: Set<int>,
    rank: spec_fn(Seq<char>) -> nat,
    n: nat,
)
    requires
        distinct_ids(defs),
        no_weight_gaps(defs, seeded),
        ranked(defs, seeded, rank),
        progress_ok(defs, attrs, seeded, overrides, curves, m, bd, done),
        forall|i: int| #[trigger] open_def(defs, done, i) ==> blocked(defs, defs[i], m),
    ensures
        forall|i: int| #[trigger] open_def(defs, done, i) ==> rank(defs[i].id@) >= n,
    decreases n,
{
    reveal(progress_ok);
    if n > 0 {
        lemma_ranked_never_stalls(defs, attrs, seeded, overrides, curves, m, bd, done, rank, (n - 1) as nat);
        assert forall|i: int| #[trigger] open_def(defs, done, i) implies rank(defs[i].id@) >= n by {
            let d = defs[i];
            assert(blocked(defs, d, m));
            let w = choose|w: int| 0 <= w < d.weights@.len() && !((#[trigger] d.weights@[w]).0 matches RatingInput::Derived(id) ==> m.contains_key(id@));
            if let RatingInput::Derived(id) = d.weights@[w].0 {
                let x = id@;
                assert(names_input(d, x));
                assert(defines(defs, x));
                let k = choose|k: int| 0 <= k < defs.len() && (#[trigger] defs[k]).id@ == x;
                if seeded.contains_key(x) && plain_seed(defs, x) {
                    assert(m.contains_key(x));
                }
                assert(rank(x) < rank(d.id@));
                if !weighted(defs[k]) {
                    assert(seeded.contains_key(x));
                    assert forall|y: int| 0 <= y < defs.len() && (#[trigger] defs[y]).id@ == x implies !weighted(defs[y]) by {
                        if y < k {
                            assert(defs[y].id@ != defs[k].id@);
                        } else if y > k {
                            assert(defs[k].id@ != defs[y].id@);
                        }
                    }
                    assert(m.contains_key(x));
                }
                if done.contains(k) {
                    assert(evaluated_as(defs[k], attrs, m, seeded, overrides, curves));
                }
                assert(open_def(defs, done, k));
            }
        }
    }
}

/// A pass that finished nothing leaves the evaluation stalled on exactly
/// the definitions it kept, and with a ranked graph no pass does that.
proof fn lemma_stall_named(
    defs: Seq<DerivedStatDef>,
    attrs: Confidence<AttributeBlock>,
    seeded: Map<Seq<char>, Confidence<Fixed>>,
    overrides: Map<Seq<char>, Fixed>,
    curves: Map<Seq<char>, Confidence<Curve>>,
    m: Map<Seq<char>, Confidence<Fixed>>,
    bd: Map<Seq<char>, StatBreakdown>,
    done: Set<int>,
    still: Seq<usize>,
    ids: Seq<DerivedStatId>,
)
    requires
        distinct_ids(defs),
        no_weight_gaps(defs, seeded),
        progress_ok(defs, attrs, seeded, overrides, curves, m, bd, done),
        exists|i: int| #[trigger] open_def(defs, done, i),
        forall|d: int| 0 <= d < defs.len() && weighted(#[trigger] defs[d]) ==> done.contains(d) || still.contains(d as usize),
        forall|x: int| 0 <= x < still.len() ==> (#[trigger] still[x]) < defs.len() && weighted(defs[still[x] as int]) && !done.contains(still[x] as int),
        forall|x: int| 0 <= x < still.len() ==> blocked(defs, defs[(#[trigger] still[x]) as int], m),
        ids.len() == still.len(),
        forall|y: int| 0 <= y < ids.len() ==> (#[trigger] ids[y])@ == defs[still[y] as int].id@,
        defs.len() <= usize::MAX,
    ensures
        ids.len() > 0,
        stalled(defs, attrs, seeded, overrides, curves, m, bd, done, ids),
        !(exists|rank: spec_fn(Seq<char>) -> nat| #[trigger] ranked(defs, seeded, rank)),
{
    assert forall|i: int| #[trigger] open_def(defs, done, i) implies still.contains(i as usize) by {
        assert(weighted(defs[i]));
    }
    assert forall|i: int| #[trigger] open_def(defs, done, i) implies blocked(defs, defs[i], m) by {
        let x = choose|x: int| 0 <= x < still.len() && still[x] == i as usize;
        assert(still[x] as int == i);
        assert(blocked(defs, defs[still[x] as int], m));
    }
    assert forall|j: int| 0 <= j < ids.len() implies exists|i: int| #[trigger] open_def(defs, done, i) && defs[i].id@ == (#[trigger] ids[j])@ by {
        let i = still[j] as int;
        assert(open_def(defs, done, i));
    }
    assert forall|i: int| #[trigger] open_def(defs, done, i) implies exists|j: int| 0 <= j < ids.len() && (#[trigger] ids[j])@ == defs[i].id@ by {
        let x = choose|x: int| 0 <= x < still.len() && still[x] == i as usize;
        assert(still[x] as int == i);
        assert(ids[x]@ == defs[i].id@);
    }
    let i0 = choose|i: int| #[trigger] open_def(defs, done, i);
    assert(still.contains(i0 as usize));
    if exists|rank: spec_fn(Seq<char>) -> nat| #[trigger] ranked(defs, seeded, rank) {
        let rank = choose|rank: spec_fn(Seq<char>) -> nat| #[trigger] ranked(defs, seeded, rank);
        lemma_ranked_never_stalls(defs, attrs, seeded, overrides, curves, m, bd, done, rank, rank(defs[i0].id@) + 1);
    }
}

/// What a successful evaluation states of its values: every weighted
/// definition agrees with its specification, every plain seed is kept as
/// it is, and nothing else is there.
pub open spec fn evaluation_as(
    defs: Seq<DerivedStatDef>,
    attrs: Confidence<AttributeBlock>,
    seeded: Map<Seq<char>, Confidence<Fixed>>,
    overrides: Map<Seq<char>, Fixed>,
    curves: Map<Seq<char>, Confidence<Curve>>,
    values: Map<Seq<char>, Confidence<Fixed>>,
) -> bool {
    &&& forall|i: int| 0 <= i < defs.len() && weighted(#[trigger] defs[i]) ==> evaluated_as(defs[i], attrs, values, seeded, overrides, curves)
    &&& forall|k: Seq<char>| #[trigger] seeded.contains_key(k) && plain_seed(defs, k) ==> values.contains_key(k) && values[k] == seeded[k]
    &&& forall|k: Seq<char>| #[trigger] values.contains_key(k) ==> (seeded.contains_key(k) && plain_seed(defs, k))
        || exists|i: int| 0 <= i < defs.len() && (#[trigger] defs[i]).id@ == k && weighted(defs[i])
}

/// What a failed evaluation states, variant by variant: a definition with
/// no weights and no seed; a weighted definition naming an input that is
/// neither defined nor seeded; a weighted definition whose curve is not in
/// the table; an evaluation that reached a definition with all its inputs
/// and left the range there; or an evaluation stalled on exactly the
/// definitions `ids` names.
pub open spec fn derived_error_explained(
    defs: Seq<DerivedStatDef>,
    attrs: Confidence<AttributeBlock>,
    seeded: Map<Seq<char>, Confidence<Fixed>>,
    overrides: Map<Seq<char>, Fixed>,
    curves: Map<Seq<char>, Confidence<Curve>>,
    e: DerivedError,
) -> bool {
    match e {
        DerivedError::NoWeights(id) => exists|i: int| 0 <= i < defs.len() && (#[trigger] defs[i]).id@ == id@ && !weighted(defs[i]) && !seeded.contains_key(id@),
        DerivedError::UnknownInput(stat, input) => !defines(defs, input@) && !seeded.contains_key(input@)
            && exists|i: int| 0 <= i < defs.len() && weighted(defs[i]) && (#[trigger] defs[i]).id@ == stat@ && names_input(defs[i], input@),
        DerivedError::UnknownCurve(c) => !curves.contains_key(c@)
            && exists|i: int| 0 <= i < defs.len() && weighted(defs[i]) && (#[trigger] defs[i]).curve@ == c@,
        DerivedError::OutOfRange(id) => exists|m: Map<Seq<char>, Confidence<Fixed>>, bd: Map<Seq<char>, StatBreakdown>, done: Set<int>|
            #[trigger] fails_at(defs, attrs, seeded, overrides, curves, m, bd, done, id@),
        DerivedError::CyclicDependency(ids) => ids@.len() > 0
            && exists|m: Map<Seq<char>, Confidence<Fixed>>, bd: Map<Seq<char>, StatBreakdown>, done: Set<int>|
            #[trigger] stalled(defs, attrs, seeded, overrides, curves, m, bd, done, ids@),
    }
}

/// A set of definitions with weights or seeds throughout, every named
/// input defined or seeded, every curve in the table and a ranked
/// dependency graph fails to evaluate only by leaving the range.
pub proof fn law_sound_graph_fails_only_by_range(
    defs: Seq<DerivedStatDef>,
    attrs: Confidence<AttributeBlock>,
    seeded: Map<Seq<char>, Confidence<Fixed>>,
    overrides: Map<Seq<char>, Fixed>,
    curves: Map<Seq<char>, Confidence<Curve>>,
    e: DerivedError,
)
    requires
        distinct_ids(defs),
        derived_error_explained(defs, attrs, seeded, overrides, curves, e),
        no_weight_gaps(defs, seeded),
        inputs_known(defs, seeded),
        curves_known(defs, curves),
        exists|rank: spec_fn(Seq<char>) -> nat| #[trigger] ranked(defs, seeded, rank),
    ensures
        e is OutOfRange,
{
    match e {
        DerivedError::NoWeights(id) => {
            let i = choose|i: int| 0 <= i < defs.len() && (#[trigger] defs[i]).id@ == id@ && !weighted(defs[i]) && !seeded.contains_key(id@);
        },
        DerivedError::UnknownInput(stat, input) => {
            let i = choose|i: int| 0 <= i < defs.len() && weighted(defs[i]) && (#[trigger] defs[i]).id@ == stat@ && names_input(defs[i], input@);
            assert(defines(defs, input@) || seeded.contains_key(input@));
        },
        DerivedError::UnknownCurve(c) => {
            let i = choose|i: int| 0 <= i < defs.len() && weighted(defs[i]) && (#[trigger] defs[i]).curve@ == c@;
        },
        DerivedError::CyclicDependency(ids) => {
            let (m, bd, done) = choose|m: Map<Seq<char>, Confidence<Fixed>>, bd: Map<Seq<char>, StatBreakdown>, done: Set<int>|
                #[trigger] stalled(defs, attrs, seeded, overrides, curves, m, bd, done, ids@);
            let rank = choose|rank: spec_fn(Seq<char>) -> nat| #[trigger] ranked(defs, seeded, rank);
            let j = 0int;
            let i = choose|i: int| #[trigger] open_def(defs, done, i) && defs[i].id@ == ids@[j]@;
            lemma_ranked_never_stalls(defs, attrs, seeded, overrides, curves, m, bd, done, rank, rank(defs[i].id@) + 1);
        },
        DerivedError::OutOfRange(_) => {},
    }
}

/// Every definition needs weights, unless it is supplied outright.
fn check_weights(defs: &Vec<DerivedStatDef>, seeded: &IdMap<DerivedStatId, Confidence<Fixed>>) -> (r: Result<(), DerivedError>)
    requires
        seeded.wf(),
    ensures
        match r {
            Ok(()) => forall|j: int| 0 <= j < defs@.len() ==> weighted(#[trigger] defs@[j]) || seeded.view().contains_key(defs@[j].id@),
            Err(DerivedError::NoWeights(id)) => exists|i: int| 0 <= i < defs@.len() && (#[trigger] defs@[i]).id@ == id@ && !weighted(defs@[i]) && !seeded.view().contains_key(id@),
            Err(_) => false,
        },
{
    let mut i: usize = 0;
    while i < defs.len()
        invariant
            i <= defs@.len(),
            seeded.wf(),
            forall|j: int| 0 <= j < i ==> weighted(#[trigger] defs@[j]) || seeded.view().contains_key(defs@[j].id@),
        decreases defs@.len() - i,
    {
        if defs[i].weights.len() == 0 && !seeded.contains_key(defs[i].id.as_str()) {
            let id = defs[i].id.clone();
            assert(defs@[i as int].id@ == id@);
            return Err(DerivedError::NoWeights(id));
        }
        i = i + 1;
    }
    Ok(())
}

/// The plain seeds: values in their own right.
fn plain_seeds(defs: &Vec<DerivedStatDef>, seeded: &IdMap<DerivedStatId, Confidence<Fixed>>) -> (computed: IdMap<DerivedStatId, Confidence<Fixed>>)
    requires
        seeded.wf(),
        distinct_ids(defs@),
    ensures
        computed.wf(),
        forall|key: Seq<char>| #[trigger] computed.view().contains_key(key) ==> seeded.view().contains_key(key) && plain_seed(defs@, key) && computed.view()[key] == seeded.view()[key],
        forall|key: Seq<char>| #[trigger] seeded.view().contains_key(key) && plain_seed(defs@, key) ==> computed.view().contains_key(key),
{
    let mut computed: IdMap<DerivedStatId, Confidence<Fixed>> = IdMap::new();
    let mut k: usize = 0;
    proof {
        crate::table::lemma_keys_of(seeded.entries());
        crate::table::lemma_to_map_entries(seeded.entries());
    }
    while k < seeded.len()
        invariant
            k <= seeded.entries().len(),
            seeded.wf(),
            computed.wf(),
            distinct_ids(defs@),
            forall|key: Seq<char>| #[trigger] computed.view().contains_key(key) ==> seeded.view().contains_key(key) && plain_seed(defs@, key) && computed.view()[key] == seeded.view()[key],
            forall|j: int| 0 <= j < k && plain_seed(defs@, #[trigger] seeded.keys()[j]) ==> computed.view().contains_key(seeded.keys()[j]),
        decreases seeded.entries().len() - k,
    {
        let key = seeded.key_at(k);
        let found = find_def(defs, key.as_str());
        let is_weighted = match found {
            Some(d) => defs[d].weights.len() > 0,
            None => false,
        };
        proof {
            if !is_weighted {
                assert forall|x: int| 0 <= x < defs@.len() && (#[trigger] defs@[x]).id@ == key@ implies !weighted(defs@[x]) by {
                    if found is Some {
                        let d = found->0 as int;
                        if x != d {
                            if x < d {
                                assert(defs@[x].id@ != defs@[d].id@);
                            } else {
                                assert(defs@[d].id@ != defs@[x].id@);
                            }
                        }
                    }
                }
                assert(plain_seed(defs@, key@));
            }
        }
        proof {
            crate::table::lemma_keys_of(seeded.entries());
            crate::table::lemma_to_map_entries(seeded.entries());
            assert(seeded.keys()[k as int] == key@);
            assert(seeded.view().contains_key(seeded.keys()[k as int]));
        }
        if !is_weighted {
            computed.insert(key.clone(), seeded.value_at(k).copied());
        }
        k = k + 1;
    }
    proof {
        assert forall|key: Seq<char>| #[trigger] seeded.view().contains_key(key) && plain_seed(defs@, key) implies computed.view().contains_key(key) by {
            crate::table::lemma_to_map_entries(seeded.entries());
            let j = choose|j: int| 0 <= j < seeded.keys().len() && seeded.keys()[j] == key;
        }
    }
    computed
}

/// The indices of the weighted definitions, ascending.
fn weighted_indices(defs: &Vec<DerivedStatDef>) -> (pending: Vec<usize>)
    ensures
        forall|j: int| 0 <= j < pending@.len() ==> (#[trigger] pending@[j]) < defs@.len() && weighted(defs@[pending@[j] as int]),
        forall|a: int, b: int| 0 <= a < b < pending@.len() ==> (#[trigger] pending@[a]) != (#[trigger] pending@[b]),
        forall|d: int| 0 <= d < defs@.len() && weighted(#[trigger] defs@[d]) ==> pending@.contains(d as usize),
{
    let mut pending: Vec<usize> = Vec::new();
    let mut i: usize = 0;
    while i < defs.len()
        invariant
            i <= defs@.len(),
            forall|j: int| 0 <= j < pending@.len() ==> (#[trigger] pending@[j]) < i && weighted(defs@[pending@[j] as int]),
            forall|a: int, b: int| 0 <= a < b < pending@.len() ==> (#[trigger] pending@[a]) < (#[trigger] pending@[b]),
            forall|j: int| 0 <= j < i && weighted(#[trigger] defs@[j]) ==> pending@.contains(j as usize),
        decreases defs@.len() - i,
    {
        if defs[i].weights.len() > 0 {
            let ghost old_p = pending@;
            pending.push(i);
            proof {
                assert(pending@ == old_p.push(i));
                assert forall|j: int| 0 <= j < i + 1 && weighted(#[trigger] defs@[j]) implies pending@.contains(j as usize) by {
                    if j < i {
                        let x = choose|x: int| 0 <= x < old_p.len() && old_p[x] == j as usize;
                        assert(pending@[x] == j as usize);
                    } else {
                        assert(pending@[old_p.len() as int] == i);
                    }
                }
            }
        }
        i = i + 1;
    }
    pending
}

/// What trying one pending definition came to.
enum Attempt {
    /// Evaluated and recorded.
    Done,
    /// An input is still missing.
    Waiting,
}

/// Tries to evaluate the definition at `idx`: waits if an input is not yet
/// computed, records it otherwise.
fn attempt(
    defs: &Vec<DerivedStatDef>,
    idx: usize,
    attributes: &Confidence<AttributeBlock>,
    seeded: &IdMap<DerivedStatId, Confidence<Fixed>>,
    cap_overrides: &IdMap<DerivedStatId, Fixed>,
    curves: &IdMap<CurveId, Confidence<Curve>>,
    computed: &mut IdMap<DerivedStatId, Confidence<Fixed>>,
    breakdown: &mut IdMap<DerivedStatId, StatBreakdown>,
    Ghost(done): Ghost<Set<int>>,
) -> (r: Result<Attempt, DerivedError>)
    requires
        idx < defs@.len(),
        weighted(defs@[idx as int]),
        !done.contains(idx as int),
        seeded.wf(),
        cap_overrides.wf(),
        curves.wf(),
        distinct_ids(defs@),
        forall|key: Seq<char>| #[trigger] curves.view().contains_key(key) ==> curves.view()[key].spec_value().wf(),
        old(computed).wf(),
        old(breakdown).wf(),
        progress_ok(defs@, *attributes, seeded.view(), cap_overrides.view(), curves.view(), old(computed).view(), old(breakdown).view(), done),
    ensures
        final(computed).wf(),
        final(breakdown).wf(),
        match r {
            Ok(Attempt::Done) => progress_ok(defs@, *attributes, seeded.view(), cap_overrides.view(), curves.view(), final(computed).view(), final(breakdown).view(), done.insert(idx as int)),
            Ok(Attempt::Waiting) => progress_ok(defs@, *attributes, seeded.view(), cap_overrides.view(), curves.view(), final(computed).view(), final(breakdown).view(), done),
            Err(DerivedError::UnknownInput(stat, input)) => stat@ == defs@[idx as int].id@ && names_input(defs@[idx as int], input@)
                && !defines(defs@, input@) && !seeded.view().contains_key(input@),
            Err(DerivedError::UnknownCurve(c)) => c@ == defs@[idx as int].curve@ && !curves.view().contains_key(c@),
            Err(DerivedError::OutOfRange(id)) => id@ == defs@[idx as int].id@
                && inputs_present(defs@[idx as int].weights@, old(computed).view())
                && curves.view().contains_key(defs@[idx as int].curve@)
                && eval_fails(defs@[idx as int], *attributes, old(computed).view(), seeded.view(), curves.view()),
            Err(_) => false,
        },
        r matches Ok(Attempt::Waiting) ==> blocked(defs@, defs@[idx as int], old(computed).view()),
        inputs_present(defs@[idx as int].weights@, old(computed).view()) ==> !(r matches Ok(Attempt::Waiting)),
        !(r matches Ok(Attempt::Done)) ==> final(computed).view() == old(computed).view()
            && final(breakdown).view() == old(breakdown).view(),
        r matches Ok(Attempt::Done) ==> final(computed).view().dom() == old(computed).view().dom().insert(defs@[idx as int].id@)
            && final(breakdown).view().dom() == old(breakdown).view().dom().insert(defs@[idx as int].id@),
{
    let def = &defs[idx];
    let ghost before = computed.view();
    proof {
        reveal(progress_ok);
    }
    let mut ready = true;
    let mut w: usize = 0;
    while w < def.weights.len()
        invariant
            w <= def.weights@.len(),
            computed.wf(),
            breakdown.wf(),
            seeded.wf(),
            computed.view() == before,
            idx < defs@.len(),
            *def == defs@[idx as int],
            progress_ok(defs@, *attributes, seeded.view(), cap_overrides.view(), curves.view(), before, breakdown.view(), done),
            ready ==> forall|x: int| 0 <= x < w ==> ((#[trigger] def.weights@[x]).0 matches RatingInput::Derived(id) ==> computed.view().contains_key(id@)),
            !ready ==> !inputs_present(def.weights@, computed.view()),
            forall|x: int| 0 <= x < w ==> ((#[trigger] def.weights@[x]).0 matches RatingInput::Derived(id) ==> (computed.view().contains_key(id@) || defines(defs@, id@))),
        decreases def.weights@.len() - w,
    {
        if let RatingInput::Derived(input) = &def.weights[w].0 {
            if !computed.contains_key(input.as_str()) {
                if find_def(defs, input.as_str()).is_none() {
                    proof {
                        assert(names_input(defs@[idx as int], input@)) by {
                            assert(defs@[idx as int].weights@[w as int] == def.weights@[w as int]);
                        }
                        reveal(progress_ok);
                        assert(defs@[idx as int].id@ == def.id@);
                        assert(defines(defs@, def.id@));
                        assert(plain_seed(defs@, input@));
                        if seeded.view().contains_key(input@) {
                            assert(computed.view().contains_key(input@));
                        }
                    }
                    return Err(DerivedError::UnknownInput(def.id.clone(), input.clone()));
                }
                proof {
                    assert(!((def.weights@[w as int]).0 matches RatingInput::Derived(id) ==> computed.view().contains_key(id@)));
                }
                ready = false;
            }
        }
        w = w + 1;
    }
    if !ready {
        proof {
            assert forall|x: Seq<char>| #[trigger] names_input(defs@[idx as int], x) && !computed.view().contains_key(x) implies defines(defs@, x) by {
                let v = choose|v: int| 0 <= v < def.weights@.len() && ((#[trigger] def.weights@[v]).0 matches RatingInput::Derived(id) && id@ == x);
            }
        }
        return Ok(Attempt::Waiting);
    }
    let curve = match curves.get(def.curve.as_str()) {
        Some(c) => c,
        None => {
            assert(defs@[idx as int].curve@ == def.curve@);
            return Err(DerivedError::UnknownCurve(def.curve.clone()));
        },
    };
    let bonus = match seeded.get(def.id.as_str()) {
        Some(b) => b.copied(),
        None => Confidence::Verified(Fixed::zero()),
    };
    let cap = match cap_overrides.get(def.id.as_str()) {
        Some(c) => Some(*c),
        None => def.cap,
    };
    let evaluated = evaluate(def, attributes, computed, curve, &bonus, cap);
    let (value, parts) = match evaluated {
        Some(e) => e,
        None => {
            assert(defs@[idx as int].id@ == def.id@);
            return Err(DerivedError::OutOfRange(def.id.clone()));
        },
    };
    proof {
        reveal(progress_ok);
        if before.contains_key(def.id@) {
            if seeded.view().contains_key(def.id@) && plain_seed(defs@, def.id@) {
                assert(defs@[idx as int].id@ == def.id@ && weighted(defs@[idx as int]));
            } else {
                let d = choose|d: int| #[trigger] done.contains(d) && defs@[d].id@ == def.id@;
                if d < idx {
                    assert(defs@[d].id@ != defs@[idx as int].id@);
                } else if d > idx {
                    assert(defs@[idx as int].id@ != defs@[d].id@);
                }
            }
        }
    }
    computed.insert(def.id.clone(), value);
    breakdown.insert(def.id.clone(), parts);
    proof {
        reveal(progress_ok);
        let after = computed.view();
        assert forall|key: Seq<char>| #[trigger] before.contains_key(key) implies after.contains_key(key) && after[key] == before[key] by {
            if key == def.id@ {
                assert(!before.contains_key(def.id@));
            }
        }
        lemma_rating_depends_on_inputs(def.weights@, attributes.spec_value(), attributes.spec_level(), before, after);
        lemma_rating_grade_depends_on_inputs(def.weights@, grade_of(*attributes), before, after);
        let nd = done.insert(idx as int);
        assert forall|d: int| #[trigger] nd.contains(d) implies 0 <= d < defs@.len() && weighted(defs@[d])
            && evaluated_as(defs@[d], *attributes, after, seeded.view(), cap_overrides.view(), curves.view())
            && broken_down_as(defs@[d], *attributes, after, breakdown.view(), seeded.view(), curves.view()) by {
            if d == idx as int {
                assert(defs@[d] == *def);
            } else {
                assert(done.contains(d));
                lemma_rating_depends_on_inputs(defs@[d].weights@, attributes.spec_value(), attributes.spec_level(), before, after);
                lemma_rating_grade_depends_on_inputs(defs@[d].weights@, grade_of(*attributes), before, after);
                if d < idx {
                    assert(defs@[d].id@ != defs@[idx as int].id@);
                } else {
                    assert(defs@[idx as int].id@ != defs@[d].id@);
                }
            }
        }
        assert forall|key: Seq<char>| #[trigger] after.contains_key(key) implies (seeded.view().contains_key(key) && plain_seed(defs@, key) && after[key] == seeded.view()[key])
            || exists|d: int| #[trigger] nd.contains(d) && defs@[d].id@ == key by {
            if key == def.id@ {
                assert(nd.contains(idx as int) && defs@[idx as int].id@ == key);
            } else {
                assert(before.contains_key(key));
                if !(seeded.view().contains_key(key) && plain_seed(defs@, key) && before[key] == seeded.view()[key]) {
                    let d = choose|d: int| #[trigger] done.contains(d) && defs@[d].id@ == key;
                    assert(nd.contains(d));
                }
            }
        }
    }
    Ok(Attempt::Done)
}

/// Evaluates every definition in dependency order, starting from `seeded`
/// values (gear-sourced quantities such as Armor Rating, and bonuses).
///
/// A seed whose id a weighted definition carries is that stat's flat
/// bonus, landing after the curve and before the clamp; every other seed
/// is a value in its own right. `cap_overrides` carries perk-raised caps;
/// `curves` resolves curve ids.
pub fn evaluate_all(
    defs: &Vec<DerivedStatDef>,
    attributes: &Confidence<AttributeBlock>,
    seeded: IdMap<DerivedStatId, Confidence<Fixed>>,
    cap_overrides: &IdMap<DerivedStatId, Fixed>,
    curves: &IdMap<CurveId, Confidence<Curve>>,
) -> (r: Result<Evaluated, DerivedError>)
    requires
        seeded.wf(),
        cap_overrides.wf(),
        curves.wf(),
        distinct_ids(defs@),
        forall|k: Seq<char>| #[trigger] curves.view().contains_key(k) ==> curves.view()[k].spec_value().wf(),
    ensures
        match r {
            Ok(ev) => {
                &&& ev.values.wf()
                &&& ev.breakdown.wf()
                &&& forall|i: int| 0 <= i < defs@.len() && weighted(#[trigger] defs@[i]) ==> evaluated_as(
                    defs@[i], *attributes, ev.values.view(), seeded.view(), cap_overrides.view(), curves.view())
                &&& forall|i: int| 0 <= i < defs@.len() && weighted(#[trigger] defs@[i]) ==> broken_down_as(
                    defs@[i], *attributes, ev.values.view(), ev.breakdown.view(), seeded.view(), curves.view())
                &&& forall|k: Seq<char>| #[trigger] seeded.view().contains_key(k) && plain_seed(defs@, k) ==> ev.values.view().contains_key(k) && ev.values.view()[k] == seeded.view()[k]
                &&& forall|k: Seq<char>| #[trigger] ev.values.view().contains_key(k) ==> (seeded.view().contains_key(k) && plain_seed(defs@, k)) || exists|i: int| 0 <= i < defs@.len() && (#[trigger] defs@[i]).id@ == k && weighted(defs@[i])
            },
            Err(e) => derived_error_explained(defs@, *attributes, seeded.view(), cap_overrides.view(), curves.view(), e),
        },
        r matches Err(DerivedError::NoWeights(_)) <==> !no_weight_gaps(defs@, seeded.view()),
        no_weight_gaps(defs@, seeded.view()) && inputs_known(defs@, seeded.view()) && curves_known(defs@, curves.view())
            && (exists|rank: spec_fn(Seq<char>) -> nat| #[trigger] ranked(defs@, seeded.view(), rank))
            ==> (r is Ok || r matches Err(DerivedError::OutOfRange(_))),
{
    match check_weights(defs, &seeded) {
        Ok(()) => {},
        Err(e) => {
            return Err(e);
        },
    }
    let mut computed = plain_seeds(defs, &seeded);
    let mut pending = weighted_indices(defs);
    let mut breakdown: IdMap<DerivedStatId, StatBreakdown> = IdMap::new();
    let ghost mut done: Set<int> = Set::empty();
    proof {
        reveal(progress_ok);
    }
    while pending.len() > 0
        invariant
            seeded.wf(),
            cap_overrides.wf(),
            curves.wf(),
            distinct_ids(defs@),
            forall|key: Seq<char>| #[trigger] curves.view().contains_key(key) ==> curves.view()[key].spec_value().wf(),
            computed.wf(),
            breakdown.wf(),
            forall|j: int| 0 <= j < pending@.len() ==> (#[trigger] pending@[j]) < defs@.len() && weighted(defs@[pending@[j] as int]) && !done.contains(pending@[j] as int),
            forall|a: int, b: int| 0 <= a < b < pending@.len() ==> (#[trigger] pending@[a]) != (#[trigger] pending@[b]),
            forall|d: int| 0 <= d < defs@.len() && weighted(#[trigger] defs@[d]) ==> done.contains(d) || pending@.contains(d as usize),
            progress_ok(defs@, *attributes, seeded.view(), cap_overrides.view(), curves.view(), computed.view(), breakdown.view(), done),
            no_weight_gaps(defs@, seeded.view()),
        decreases pending@.len(),
    {
        let mut still: Vec<usize> = Vec::new();
        let mut progressed = false;
        let mut j: usize = 0;
        let ghost start_computed = computed.view();
        let ghost start_breakdown = breakdown.view();
        let ghost start_done = done;
        proof {
            assert(defs@.len() == defs.len());
            assert forall|d: int| 0 <= d < defs@.len() && weighted(#[trigger] defs@[d]) implies done.contains(d) || still@.contains(d as usize)
                || exists|x: int| 0 <= x < pending@.len() && pending@[x] == d by {
                if !done.contains(d) {
                    assert(pending@.contains(d as usize));
                    let x = choose|x: int| 0 <= x < pending@.len() && pending@[x] == d as usize;
                }
            }
        }
        while j < pending.len()
            invariant
                seeded.wf(),
                cap_overrides.wf(),
                curves.wf(),
                distinct_ids(defs@),
                forall|key: Seq<char>| #[trigger] curves.view().contains_key(key) ==> curves.view()[key].spec_value().wf(),
                computed.wf(),
                breakdown.wf(),
                j <= pending@.len(),
                !progressed ==> still@.len() == j,
                progressed ==> still@.len() < j,
                forall|x: int| 0 <= x < pending@.len() ==> (#[trigger] pending@[x]) < defs@.len() && weighted(defs@[pending@[x] as int]),
                forall|a: int, b: int| 0 <= a < b < pending@.len() ==> (#[trigger] pending@[a]) != (#[trigger] pending@[b]),
                forall|x: int| j <= x < pending@.len() ==> !done.contains(#[trigger] pending@[x] as int),
                forall|x: int| 0 <= x < still@.len() ==> (#[trigger] still@[x]) < defs@.len() && weighted(defs@[still@[x] as int]) && !done.contains(still@[x] as int),
                forall|x: int| 0 <= x < still@.len() ==> exists|y: int| 0 <= y < j && pending@[y] == #[trigger] still@[x],
                forall|a: int, b: int| 0 <= a < b < still@.len() ==> (#[trigger] still@[a]) != (#[trigger] still@[b]),
                forall|d: int| 0 <= d < defs@.len() && weighted(#[trigger] defs@[d]) ==> done.contains(d) || still@.contains(d as usize)
                    || exists|x: int| j <= x < pending@.len() && pending@[x] == d,
                progress_ok(defs@, *attributes, seeded.view(), cap_overrides.view(), curves.view(), computed.view(), breakdown.view(), done),
                no_weight_gaps(defs@, seeded.view()),
                !progressed ==> computed.view() == start_computed && breakdown.view() == start_breakdown && done == start_done,
                !progressed ==> forall|x: int| 0 <= x < still@.len() ==> blocked(defs@, defs@[(#[trigger] still@[x]) as int], computed.view()),
            decreases pending@.len() - j,
        {
            let idx = pending[j];
            assert(defs@.len() == defs.len());
            let ghost pre_computed = computed.view();
            let ghost pre_breakdown = breakdown.view();
            let outcome = match attempt(defs, idx, attributes, &seeded, cap_overrides, curves, &mut computed, &mut breakdown, Ghost(done)) {
                Ok(o) => o,
                Err(e) => {
                    proof {
                        assert(open_def(defs@, done, idx as int));
                        if e is OutOfRange {
                            assert(fails_at(defs@, *attributes, seeded.view(), cap_overrides.view(), curves.view(), pre_computed, pre_breakdown, done, e->OutOfRange_0@));
                        }
                        if e is UnknownInput {
                            assert(defs@[idx as int].id@ == e->UnknownInput_0@);
                        }
                        if e is UnknownCurve {
                            assert(defs@[idx as int].curve@ == e->UnknownCurve_0@);
                        }
                    }
                    return Err(e);
                },
            };
            match outcome {
                Attempt::Done => {
                    proof {
                        let od = done;
                        done = done.insert(idx as int);
                        assert forall|d: int| 0 <= d < defs@.len() && weighted(#[trigger] defs@[d]) implies done.contains(d) || still@.contains(d as usize)
                            || exists|x: int| j + 1 <= x < pending@.len() && pending@[x] == d by {
                            if !od.contains(d) && !still@.contains(d as usize) {
                                let x = choose|x: int| j <= x < pending@.len() && pending@[x] == d;
                                if x == j {
                                    assert(done.contains(d));
                                } else {
                                    assert(j + 1 <= x);
                                }
                            }
                        }
                        assert forall|x: int| j + 1 <= x < pending@.len() implies !done.contains(#[trigger] pending@[x] as int) by {
                            assert(pending@[x] != pending@[j as int]);
                        }
                        assert forall|x: int| 0 <= x < still@.len() implies !done.contains((#[trigger] still@[x]) as int) by {
                            let y = choose|y: int| 0 <= y < j && pending@[y] == #[trigger] still@[x];
                            assert(pending@[y] != pending@[j as int]);
                        }
                    }
                    progressed = true;
                },
                Attempt::Waiting => {
                    let ghost os = still@;
                    still.push(idx);
                    proof {
                        assert(still@ == os.push(idx));
                        assert(still@[os.len() as int] == idx);
                        assert forall|x: int| 0 <= x < still@.len() implies exists|y: int| 0 <= y < j + 1 && pending@[y] == #[trigger] still@[x] by {
                            if x == os.len() {
                                assert(pending@[j as int] == still@[x]);
                            } else {
                                assert(still@[x] == os[x]);
                                let y = choose|y: int| 0 <= y < j && pending@[y] == #[trigger] os[x];
                            }
                        }
                        assert forall|a: int, b: int| 0 <= a < b < still@.len() implies (#[trigger] still@[a]) != (#[trigger] still@[b]) by {
                            if b == os.len() {
                                assert(still@[a] == os[a]);
                                let y = choose|y: int| 0 <= y < j && pending@[y] == #[trigger] os[a];
                                assert(pending@[y] != pending@[j as int]);
                            } else {
                                assert(still@[a] == os[a]);
                                assert(still@[b] == os[b]);
                            }
                        }
                        assert forall|d: int| 0 <= d < defs@.len() && weighted(#[trigger] defs@[d]) implies done.contains(d) || still@.contains(d as usize)
                            || exists|x: int| j + 1 <= x < pending@.len() && pending@[x] == d by {
                            if !done.contains(d) && !still@.contains(d as usize) {
                                if os.contains(d as usize) {
                                    let x = choose|x: int| 0 <= x < os.len() && os[x] == d as usize;
                                    assert(still@[x] == d as usize);
                                }
                                let x = choose|x: int| j <= x < pending@.len() && pending@[x] == d;
                                if x == j {
                                    assert(still@[os.len() as int] == d as usize);
                                } else {
                                    assert(j + 1 <= x);
                                }
                            }
                        }
                    }
                },
            }
            j = j + 1;
        }
        if !progressed {
            let mut ids: Vec<DerivedStatId> = Vec::new();
            let mut x: usize = 0;
            while x < still.len()
                invariant
                    x <= still@.len(),
                    ids@.len() == x,
                    forall|y: int| 0 <= y < still@.len() ==> (#[trigger] still@[y]) < defs@.len(),
                    forall|y: int| 0 <= y < x ==> (#[trigger] ids@[y])@ == defs@[still@[y] as int].id@,
                decreases still@.len() - x,
            {
                let d = still[x];
                let id = defs[d].id.clone();
                assert(defs@[d as int].id@ == id@);
                ids.push(id);
                x = x + 1;
            }
            proof {
                assert(open_def(defs@, done, pending@[0] as int));
                lemma_stall_named(defs@, *attributes, seeded.view(), cap_overrides.view(), curves.view(), computed.view(), breakdown.view(), done, still@, ids@);
            }
            return Err(DerivedError::CyclicDependency(ids));
        }
        pending = still;
    }
    proof {
        reveal(progress_ok);
        assert forall|i: int| 0 <= i < defs@.len() && weighted(#[trigger] defs@[i]) implies evaluated_as(
            defs@[i], *attributes, computed.view(), seeded.view(), cap_overrides.view(), curves.view())
            && broken_down_as(defs@[i], *attributes, computed.view(), breakdown.view(), seeded.view(), curves.view()) by {
            assert(done.contains(i));
        }
        assert forall|k: Seq<char>| #[trigger] computed.view().contains_key(k) implies (seeded.view().contains_key(k) && plain_seed(defs@, k)) || exists|i: int| 0 <= i < defs@.len() && (#[trigger] defs@[i]).id@ == k && weighted(defs@[i]) by {
            if !(seeded.view().contains_key(k) && plain_seed(defs@, k) && computed.view()[k] == seeded.view()[k]) {
                let d = choose|d: int| #[trigger] done.contains(d) && defs@[d].id@ == k;
            }
        }
    }
    Ok(Evaluated { values: computed, breakdown })
}

} // verus!
