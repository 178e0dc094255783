//! Every entity of a dataset rendered as named strings, for the dataset
//! diff to compare.
//!
//! Each value has an exact rendering (integers and exact decimals, never
//! floats), and each graded value carries its grade as a field of its own,
//! so a downgrade shows up even where the number stayed put. Absence is
//! `—`, which is not a zero.

use vstd::prelude::*;

use crate::confidence::{Confidence, level_name};
use crate::curve::Curve;
use crate::dataset::{Dataset, EntityKind};
use crate::derived::{DerivedStatDef, RatingInput};
use crate::fixed::{Fixed, decimal_digits, int_render, int_to_string, push_decimal, render_spec};
use crate::ids::{ClassId, CurveId, DerivedStatId, ItemId, PerkId, SkillId};
use crate::loadout::slot_name;
use crate::schema::{
    AttributeKind, ClassDef, ComboHit, EffectView, ItemDef, PerkDef, SkillDef, StackedEffect, StrikeProfile, WeaponProfile,
    all_attributes, attribute_name, block_get,
};
use crate::stats::{rarity_name, tag_name};
use crate::table::{IdMap, keys_of, lemma_keys_of};
use crate::text::{append_chars, owned, string_of};

verus! {

// ── Pairs ───────────────────────────────────────────────────────────────

/// Field names and renderings as texts.
pub open spec fn pair_views(v: Seq<(String, String)>) -> Seq<(Seq<char>, Seq<char>)> {
    v.map_values(|e: (String, String)| (e.0@, e.1@))
}

/// Pairs as a map, later pairs winning.
pub open spec fn pairs_map(p: Seq<(Seq<char>, Seq<char>)>) -> Map<Seq<char>, Seq<char>>
    decreases p.len(),
{
    if p.len() == 0 {
        Map::empty()
    } else {
        pairs_map(p.drop_last()).insert(p.last().0, p.last().1)
    }
}

/// A table of texts as texts.
pub open spec fn text_map(m: Map<Seq<char>, String>) -> Map<Seq<char>, Seq<char>> {
    m.map_values(|v: String| v@)
}

/// Appends one pair.
fn push_pair(out: &mut Vec<(String, String)>, key: String, value: String)
    ensures
        pair_views(final(out)@) == pair_views(old(out)@).push((key@, value@)),
{
    let ghost o = out@;
    out.push((key, value));
    proof {
        assert(pair_views(out@) =~= pair_views(o).push((key@, value@)));
    }
}

/// Two texts, joined.
fn join2(a: &str, b: &str) -> (r: String)
    ensures
        r@ == a@ + b@,
{
    let mut m: Vec<char> = Vec::new();
    append_chars(&mut m, a);
    append_chars(&mut m, b);
    string_of(&m)
}

/// Three texts, joined.
fn join3(a: &str, b: &str, c: &str) -> (r: String)
    ensures
        r@ == a@ + b@ + c@,
{
    let mut m: Vec<char> = Vec::new();
    append_chars(&mut m, a);
    append_chars(&mut m, b);
    append_chars(&mut m, c);
    string_of(&m)
}

/// The exact rendering of a fixed-point value.
pub open spec fn fixed_text(v: Fixed) -> Seq<char> {
    render_spec(v@, false)
}

/// A signed whole number with its sign always written: `+2`, `-1`, `+0`.
pub open spec fn signed_text(n: int) -> Seq<char> {
    if n >= 0 {
        "+"@ + int_render(n)
    } else {
        int_render(n)
    }
}

/// A position as text.
fn index_text(i: usize) -> (r: String)
    ensures
        r@ == decimal_digits(i as nat),
{
    let mut m: Vec<char> = Vec::new();
    push_decimal(i as u64, &mut m);
    string_of(&m)
}

/// A graded value's two fields: the value, then its grade.
pub open spec fn graded_pairs(name: Seq<char>, c: Confidence<Fixed>) -> Seq<(Seq<char>, Seq<char>)> {
    seq![(name, fixed_text(c.spec_value())), (name + ".confidence"@, level_name(c.spec_level()))]
}

/// An optional graded value's fields; none when absent.
pub open spec fn opt_graded_pairs(name: Seq<char>, c: Option<Confidence<Fixed>>) -> Seq<(Seq<char>, Seq<char>)> {
    match c {
        Some(x) => graded_pairs(name, x),
        None => Seq::empty(),
    }
}

/// Appends a graded value's fields.
fn push_graded(out: &mut Vec<(String, String)>, name: &str, c: &Confidence<Fixed>)
    ensures
        pair_views(final(out)@) == pair_views(old(out)@) + graded_pairs(name@, *c),
{
    let ghost o = pair_views(out@);
    push_pair(out, owned(name), c.value().to_string());
    push_pair(out, join2(name, ".confidence"), owned(c.level().as_str()));
    proof {
        assert(pair_views(out@) =~= o + graded_pairs(name@, *c));
    }
}

/// Appends an optional graded value's fields.
fn push_opt_graded(out: &mut Vec<(String, String)>, name: &str, c: &Option<Confidence<Fixed>>)
    ensures
        pair_views(final(out)@) == pair_views(old(out)@) + opt_graded_pairs(name@, *c),
{
    match c {
        Some(x) => push_graded(out, name, x),
        None => {
            assert(pair_views(out@) =~= pair_views(out@) + opt_graded_pairs(name@, *c));
        },
    }
}

/// A table of the pairs, later pairs winning.
fn table_of(p: &Vec<(String, String)>) -> (r: IdMap<String, String>)
    ensures
        r.wf(),
        text_map(r.view()) == pairs_map(pair_views(p@)),
{
    let mut m: IdMap<String, String> = IdMap::new();
    let mut i: usize = 0;
    proof {
        assert(pair_views(p@).subrange(0, 0) =~= Seq::<(Seq<char>, Seq<char>)>::empty());
        assert(text_map(m.view()) =~= Map::<Seq<char>, Seq<char>>::empty());
    }
    while i < p.len()
        invariant
            i <= p@.len(),
            m.wf(),
            text_map(m.view()) == pairs_map(pair_views(p@).subrange(0, i as int)),
        decreases p@.len() - i,
    {
        let ghost before = m.view();
        m.insert(owned(p[i].0.as_str()), owned(p[i].1.as_str()));
        proof {
            let next = pair_views(p@).subrange(0, i + 1);
            assert(next.drop_last() =~= pair_views(p@).subrange(0, i as int));
            assert(next.last() == (p@[i as int].0@, p@[i as int].1@));
            assert(text_map(m.view()) =~= text_map(before).insert(p@[i as int].0@, p@[i as int].1@));
        }
        i = i + 1;
    }
    proof {
        assert(pair_views(p@).subrange(0, p@.len() as int) =~= pair_views(p@));
    }
    m
}

// ── Curves ──────────────────────────────────────────────────────────────

/// Curve points as text: `(x, y)` pairs separated by spaces.
pub open spec fn points_text(p: Seq<(Fixed, Fixed)>, n: int) -> Seq<char>
    decreases n,
{
    if n <= 0 {
        Seq::empty()
    } else {
        points_text(p, n - 1) + (if n > 1 { " "@ } else { Seq::empty() }) + "("@ + fixed_text(p[n - 1].0) + ", "@ + fixed_text(
            p[n - 1].1,
        ) + ")"@
    }
}

/// A curve's fields.
pub open spec fn curve_pairs(c: Confidence<Curve>) -> Seq<(Seq<char>, Seq<char>)> {
    let p = c.spec_value().points_spec();
    seq![("confidence"@, level_name(c.spec_level())), ("points"@, points_text(p, p.len() as int))]
}

/// Appends a curve's fields.
fn push_curve(out: &mut Vec<(String, String)>, c: &Confidence<Curve>)
    ensures
        pair_views(final(out)@) == pair_views(old(out)@) + curve_pairs(*c),
{
    let ghost o = pair_views(out@);
    let p = c.value().points();
    let mut text: Vec<char> = Vec::new();
    let mut i: usize = 0;
    while i < p.len()
        invariant
            i <= p@.len(),
            text@ == points_text(p@, i as int),
        decreases p@.len() - i,
    {
        if i > 0 {
            append_chars(&mut text, " ");
        }
        append_chars(&mut text, "(");
        let x = p[i].0.to_string();
        append_chars(&mut text, x.as_str());
        append_chars(&mut text, ", ");
        let y = p[i].1.to_string();
        append_chars(&mut text, y.as_str());
        append_chars(&mut text, ")");
        proof {
            assert(text@ =~= points_text(p@, i + 1));
        }
        i = i + 1;
    }
    push_pair(out, owned("confidence"), owned(c.level().as_str()));
    push_pair(out, owned("points"), string_of(&text));
    proof {
        assert(pair_views(out@) =~= o + curve_pairs(*c));
    }
}

// ── Classes ─────────────────────────────────────────────────────────────

/// The first `n` base attributes' fields, in declaration order.
pub open spec fn base_pairs(b: crate::schema::AttributeBlock, n: int) -> Seq<(Seq<char>, Seq<char>)>
    decreases n,
{
    if n <= 0 {
        Seq::empty()
    } else {
        base_pairs(b, n - 1).push(("base."@ + attribute_name(all_attributes()[n - 1]), int_render(block_get(b, all_attributes()[n - 1]))))
    }
}

/// What a weight reads, by name.
pub open spec fn input_name(i: RatingInput) -> Seq<char> {
    match i {
        RatingInput::Attribute(k) => attribute_name(k),
        RatingInput::Derived(id) => id@,
    }
}

/// An optional bound as text.
pub open spec fn bound_text(b: Option<Fixed>) -> Seq<char> {
    match b {
        Some(v) => fixed_text(v),
        None => "—"@,
    }
}

/// The first `n` weights' fields under a stat's prefix.
pub open spec fn weight_pairs(prefix: Seq<char>, ws: Seq<(RatingInput, Fixed)>, n: int) -> Seq<(Seq<char>, Seq<char>)>
    decreases n,
{
    if n <= 0 {
        Seq::empty()
    } else {
        weight_pairs(prefix, ws, n - 1).push((prefix + ".weight."@ + input_name(ws[n - 1].0), fixed_text(ws[n - 1].1)))
    }
}

/// One derived stat's fields.
pub open spec fn derived_pairs(d: DerivedStatDef) -> Seq<(Seq<char>, Seq<char>)> {
    seq![
        (d.id@ + ".curve"@, d.curve@),
        (d.id@ + ".offset"@, fixed_text(d.offset)),
        (d.id@ + ".floor"@, bound_text(d.floor)),
        (d.id@ + ".cap"@, bound_text(d.cap)),
    ] + weight_pairs(d.id@, d.weights@, d.weights@.len() as int)
}

/// The first `n` derived stats' fields.
pub open spec fn derived_list_pairs(ds: Seq<DerivedStatDef>, n: int) -> Seq<(Seq<char>, Seq<char>)>
    decreases n,
{
    if n <= 0 {
        Seq::empty()
    } else {
        derived_list_pairs(ds, n - 1) + derived_pairs(ds[n - 1])
    }
}

/// A class's fields.
pub open spec fn class_pairs(c: ClassDef) -> Seq<(Seq<char>, Seq<char>)> {
    seq![("name"@, c.name@)] + base_pairs(c.base_attributes.spec_value(), 7) + seq![
        ("base.confidence"@, level_name(c.base_attributes.spec_level())),
    ] + derived_list_pairs(c.derived@, c.derived@.len() as int)
}

/// An optional bound as text.
fn bound_string(b: &Option<Fixed>) -> (r: String)
    ensures
        r@ == bound_text(*b),
{
    match b {
        Some(v) => v.to_string(),
        None => owned("—"),
    }
}

/// Appends one derived stat's fields.
fn push_derived(out: &mut Vec<(String, String)>, d: &DerivedStatDef)
    ensures
        pair_views(final(out)@) == pair_views(old(out)@) + derived_pairs(*d),
{
    let ghost o = pair_views(out@);
    let id = d.id.as_str();
    push_pair(out, join2(id, ".curve"), owned(d.curve.as_str()));
    push_pair(out, join2(id, ".offset"), d.offset.to_string());
    push_pair(out, join2(id, ".floor"), bound_string(&d.floor));
    push_pair(out, join2(id, ".cap"), bound_string(&d.cap));
    let ghost head = pair_views(out@);
    let mut j: usize = 0;
    while j < d.weights.len()
        invariant
            j <= d.weights@.len(),
            id@ == d.id@,
            pair_views(out@) == head + weight_pairs(d.id@, d.weights@, j as int),
        decreases d.weights@.len() - j,
    {
        let name = match &d.weights[j].0 {
            RatingInput::Attribute(k) => owned(k.as_str()),
            RatingInput::Derived(x) => owned(x.as_str()),
        };
        assert(name@ == input_name(d.weights@[j as int].0));
        let ghost before = pair_views(out@);
        push_pair(out, join3(id, ".weight.", name.as_str()), d.weights[j].1.to_string());
        proof {
            assert(pair_views(out@) =~= head + weight_pairs(d.id@, d.weights@, j + 1));
        }
        j = j + 1;
    }
    proof {
        assert(pair_views(out@) =~= o + derived_pairs(*d));
    }
}

/// Appends a class's fields.
fn push_class(out: &mut Vec<(String, String)>, c: &ClassDef)
    ensures
        pair_views(final(out)@) == pair_views(old(out)@) + class_pairs(*c),
{
    let ghost o = pair_views(out@);
    push_pair(out, owned("name"), owned(c.name.as_str()));
    let all = AttributeKind::all();
    let block = c.base_attributes.value();
    let ghost head = pair_views(out@);
    let mut k: usize = 0;
    while k < 7
        invariant
            k <= 7,
            all@ == all_attributes(),
            *block == c.base_attributes.spec_value(),
            pair_views(out@) == head + base_pairs(c.base_attributes.spec_value(), k as int),
        decreases 7 - k,
    {
        let points = block.get(all[k]).points();
        push_pair(out, join2("base.", all[k].as_str()), int_to_string(points as i64));
        proof {
            assert(pair_views(out@) =~= head + base_pairs(c.base_attributes.spec_value(), k + 1));
        }
        k = k + 1;
    }
    push_pair(out, owned("base.confidence"), owned(c.base_attributes.level().as_str()));
    let ghost mid = pair_views(out@);
    let mut i: usize = 0;
    while i < c.derived.len()
        invariant
            i <= c.derived@.len(),
            pair_views(out@) == mid + derived_list_pairs(c.derived@, i as int),
        decreases c.derived@.len() - i,
    {
        push_derived(out, &c.derived[i]);
        proof {
            assert(pair_views(out@) =~= mid + derived_list_pairs(c.derived@, i + 1));
        }
        i = i + 1;
    }
    proof {
        assert(pair_views(out@) =~= o + class_pairs(*c));
    }
}

// ── Items ───────────────────────────────────────────────────────────────

/// The first `n` printed attributes' fields.
pub open spec fn printed_pairs(v: Seq<(AttributeKind, i32)>, n: int) -> Seq<(Seq<char>, Seq<char>)>
    decreases n,
{
    if n <= 0 {
        Seq::empty()
    } else {
        printed_pairs(v, n - 1).push(("attribute."@ + attribute_name(v[n - 1].0), int_render(v[n - 1].1 as int)))
    }
}

/// The first `n` grants' fields, in key order.
pub open spec fn grant_pairs(es: Seq<(DerivedStatId, Confidence<Fixed>)>, n: int) -> Seq<(Seq<char>, Seq<char>)>
    decreases n,
{
    if n <= 0 {
        Seq::empty()
    } else {
        grant_pairs(es, n - 1) + graded_pairs(es[n - 1].0@, es[n - 1].1)
    }
}

/// The first `n` swings' fields.
pub open spec fn combo_pairs(hs: Seq<ComboHit>, n: int) -> Seq<(Seq<char>, Seq<char>)>
    decreases n,
{
    if n <= 0 {
        Seq::empty()
    } else {
        combo_pairs(hs, n - 1) + seq![
            ("weapon.combo."@ + decimal_digits((n - 1) as nat), tag_name(hs[n - 1].kind) + " "@ + fixed_text(hs[n - 1].scaling.spec_value())),
            ("weapon.combo."@ + decimal_digits((n - 1) as nat) + ".confidence"@, level_name(hs[n - 1].scaling.spec_level())),
        ]
    }
}

/// A weapon's fields.
pub open spec fn weapon_pairs(w: WeaponProfile) -> Seq<(Seq<char>, Seq<char>)> {
    graded_pairs("weapon.base_damage"@, w.base_damage) + graded_pairs("weapon.armor_pen"@, w.armor_pen) + opt_graded_pairs(
        "weapon.swing_time"@,
        w.swing_time,
    ) + combo_pairs(w.combo@, w.combo@.len() as int)
}

/// An item's rarity, slot and printed attributes, as fields.
pub open spec fn item_card_pairs(d: ItemDef) -> Seq<(Seq<char>, Seq<char>)> {
    (match d.rarity {
        Some(r) => seq![("rarity"@, rarity_name(r))],
        None => Seq::empty(),
    }) + (match d.slot {
        Some(x) => seq![("slot"@, slot_name(x))],
        None => Seq::empty(),
    }) + (match d.attributes {
        Some(a) => printed_pairs(a.spec_value()@, a.spec_value()@.len() as int) + seq![("attributes.confidence"@, level_name(a.spec_level()))],
        None => Seq::empty(),
    })
}

/// An item's fields.
pub open spec fn item_pairs(d: ItemDef) -> Seq<(Seq<char>, Seq<char>)> {
    seq![("name"@, d.name@)] + item_card_pairs(d) + grant_pairs(d.grants.entries(), d.grants.entries().len() as int)
        + opt_graded_pairs("move_speed_add"@, d.move_speed_add) + (match d.weapon {
        Some(w) => weapon_pairs(w),
        None => Seq::empty(),
    })
}

/// Appends a weapon's fields.
fn push_weapon(out: &mut Vec<(String, String)>, w: &WeaponProfile)
    ensures
        pair_views(final(out)@) == pair_views(old(out)@) + weapon_pairs(*w),
{
    let ghost o = pair_views(out@);
    push_graded(out, "weapon.base_damage", &w.base_damage);
    push_graded(out, "weapon.armor_pen", &w.armor_pen);
    push_opt_graded(out, "weapon.swing_time", &w.swing_time);
    let ghost head = pair_views(out@);
    let mut i: usize = 0;
    while i < w.combo.len()
        invariant
            i <= w.combo@.len(),
            pair_views(out@) == head + combo_pairs(w.combo@, i as int),
        decreases w.combo@.len() - i,
    {
        let at = index_text(i);
        let h = &w.combo[i];
        let scaling = h.scaling.value().to_string();
        push_pair(out, join2("weapon.combo.", at.as_str()), join3(h.kind.as_str(), " ", scaling.as_str()));
        push_pair(out, join3("weapon.combo.", at.as_str(), ".confidence"), owned(h.scaling.level().as_str()));
        proof {
            assert(pair_views(out@) =~= head + combo_pairs(w.combo@, i + 1));
        }
        i = i + 1;
    }
    proof {
        assert(pair_views(out@) =~= o + weapon_pairs(*w));
    }
}

/// Appends an item's rarity, slot and printed attributes.
fn push_item_card(out: &mut Vec<(String, String)>, d: &ItemDef)
    ensures
        pair_views(final(out)@) == pair_views(old(out)@) + item_card_pairs(*d),
{
    let ghost o = pair_views(out@);
    match d.rarity {
        Some(r) => push_pair(out, owned("rarity"), owned(r.as_str())),
        None => {},
    }
    match d.slot {
        Some(x) => push_pair(out, owned("slot"), owned(x.as_str())),
        None => {},
    }
    let ghost p3 = pair_views(out@);
    match &d.attributes {
        Some(a) => {
            let v = a.value();
            let mut i: usize = 0;
            while i < v.len()
                invariant
                    i <= v@.len(),
                    *v == a.spec_value(),
                    pair_views(out@) == p3 + printed_pairs(v@, i as int),
                decreases v@.len() - i,
            {
                push_pair(out, join2("attribute.", v[i].0.as_str()), int_to_string(v[i].1 as i64));
                proof {
                    assert(pair_views(out@) =~= p3 + printed_pairs(v@, i + 1));
                }
                i = i + 1;
            }
            push_pair(out, owned("attributes.confidence"), owned(a.level().as_str()));
        },
        None => {},
    }
    proof {
        assert(pair_views(out@) =~= o + item_card_pairs(*d));
    }
}

/// Appends an item's grants, in key order.
fn push_grants(out: &mut Vec<(String, String)>, grants: &IdMap<DerivedStatId, Confidence<Fixed>>)
    ensures
        pair_views(final(out)@) == pair_views(old(out)@) + grant_pairs(grants.entries(), grants.entries().len() as int),
{
    let ghost o = pair_views(out@);
    let mut g: usize = 0;
    while g < grants.len()
        invariant
            g <= grants.entries().len(),
            pair_views(out@) == o + grant_pairs(grants.entries(), g as int),
        decreases grants.entries().len() - g,
    {
        let stat = grants.key_at(g);
        push_graded(out, stat.as_str(), grants.value_at(g));
        proof {
            assert(pair_views(out@) =~= o + grant_pairs(grants.entries(), g + 1));
        }
        g = g + 1;
    }
}

/// Appends an item's fields.
fn push_item(out: &mut Vec<(String, String)>, d: &ItemDef)
    ensures
        pair_views(final(out)@) == pair_views(old(out)@) + item_pairs(*d),
{
    let ghost o = pair_views(out@);
    push_pair(out, owned("name"), owned(d.name.as_str()));
    push_item_card(out, d);
    push_grants(out, &d.grants);
    push_opt_graded(out, "move_speed_add", &d.move_speed_add);
    match &d.weapon {
        Some(w) => push_weapon(out, w),
        None => {},
    }
    proof {
        assert(pair_views(out@) =~= o + item_pairs(*d));
    }
}

// ── Perks and skills ────────────────────────────────────────────────────

/// An effect as text.
pub open spec fn effect_text(e: EffectView) -> Seq<char> {
    match e {
        EffectView::AllAttributes(p) => "all_attributes "@ + signed_text(p),
        EffectView::Attribute(k, p) => "attribute "@ + attribute_name(k) + " "@ + signed_text(p),
        EffectView::RaiseCap(id, v) => "raise_cap "@ + id + " "@ + render_spec(v, false),
        EffectView::DerivedBonus(id, v) => "derived_bonus "@ + id + " "@ + render_spec(v, false),
        EffectView::ItemArmorBonus(v) => "item_armor_bonus "@ + render_spec(v, false),
        EffectView::MoveSpeedAdd(v) => "move_speed_add "@ + render_spec(v, false),
        EffectView::MoveSpeedBonus(v) => "move_speed_bonus "@ + render_spec(v, false),
    }
}

/// One effect's fields, at its position.
pub open spec fn effect_pairs(e: StackedEffect, i: nat) -> Seq<(Seq<char>, Seq<char>)> {
    let at = "effect."@ + decimal_digits(i);
    seq![(at, effect_text(e.effect.spec_value()@)), (at + ".confidence"@, level_name(e.effect.spec_level()))] + (match e.max_stacks {
        Some(m) => seq![(at + ".max_stacks"@, decimal_digits(m as nat))],
        None => Seq::empty(),
    }) + (match e.when_tag {
        Some(t) => seq![(at + ".when"@, tag_name(t))],
        None => Seq::empty(),
    })
}

/// The first `n` effects' fields.
pub open spec fn effects_pairs(es: Seq<StackedEffect>, n: int) -> Seq<(Seq<char>, Seq<char>)>
    decreases n,
{
    if n <= 0 {
        Seq::empty()
    } else {
        effects_pairs(es, n - 1) + effect_pairs(es[n - 1], (n - 1) as nat)
    }
}

/// A signed whole number with its sign always written.
fn signed_string(n: i32) -> (r: String)
    ensures
        r@ == signed_text(n as int),
{
    let digits = int_to_string(n as i64);
    if n >= 0 {
        join2("+", digits.as_str())
    } else {
        digits
    }
}

/// An effect as text.
fn effect_string(e: &crate::schema::Effect) -> (r: String)
    ensures
        r@ == effect_text(e@),
{
    match e {
        crate::schema::Effect::AllAttributes(p) => {
            let s = signed_string(*p);
            join2("all_attributes ", s.as_str())
        },
        crate::schema::Effect::Attribute(k, p) => {
            let s = signed_string(*p);
            let mut m: Vec<char> = Vec::new();
            append_chars(&mut m, "attribute ");
            append_chars(&mut m, k.as_str());
            append_chars(&mut m, " ");
            append_chars(&mut m, s.as_str());
            string_of(&m)
        },
        crate::schema::Effect::RaiseCap(id, v) => {
            let x = v.to_string();
            let mut m: Vec<char> = Vec::new();
            append_chars(&mut m, "raise_cap ");
            append_chars(&mut m, id.as_str());
            append_chars(&mut m, " ");
            append_chars(&mut m, x.as_str());
            string_of(&m)
        },
        crate::schema::Effect::DerivedBonus(id, v) => {
            let x = v.to_string();
            let mut m: Vec<char> = Vec::new();
            append_chars(&mut m, "derived_bonus ");
            append_chars(&mut m, id.as_str());
            append_chars(&mut m, " ");
            append_chars(&mut m, x.as_str());
            string_of(&m)
        },
        crate::schema::Effect::ItemArmorBonus(v) => {
            let x = v.to_string();
            join2("item_armor_bonus ", x.as_str())
        },
        crate::schema::Effect::MoveSpeedAdd(v) => {
            let x = v.to_string();
            join2("move_speed_add ", x.as_str())
        },
        crate::schema::Effect::MoveSpeedBonus(v) => {
            let x = v.to_string();
            join2("move_speed_bonus ", x.as_str())
        },
    }
}

/// Appends the effects' fields.
fn push_effects(out: &mut Vec<(String, String)>, es: &Vec<StackedEffect>)
    ensures
        pair_views(final(out)@) == pair_views(old(out)@) + effects_pairs(es@, es@.len() as int),
{
    let ghost o = pair_views(out@);
    let mut i: usize = 0;
    while i < es.len()
        invariant
            i <= es@.len(),
            pair_views(out@) == o + effects_pairs(es@, i as int),
        decreases es@.len() - i,
    {
        let e = &es[i];
        let at = join2("effect.", index_text(i).as_str());
        let ghost before = pair_views(out@);
        push_pair(out, owned(at.as_str()), effect_string(e.effect.value()));
        push_pair(out, join2(at.as_str(), ".confidence"), owned(e.effect.level().as_str()));
        match e.max_stacks {
            Some(m) => {
                let mut t: Vec<char> = Vec::new();
                push_decimal(m as u64, &mut t);
                push_pair(out, join2(at.as_str(), ".max_stacks"), string_of(&t));
            },
            None => {},
        }
        match e.when_tag {
            Some(t) => push_pair(out, join2(at.as_str(), ".when"), owned(t.as_str())),
            None => {},
        }
        proof {
            assert(pair_views(out@) =~= before + effect_pairs(es@[i as int], i as nat));
            assert(pair_views(out@) =~= o + effects_pairs(es@, i + 1));
        }
        i = i + 1;
    }
}

/// A perk's fields.
pub open spec fn perk_pairs(d: PerkDef) -> Seq<(Seq<char>, Seq<char>)> {
    seq![("name"@, d.name@)] + effects_pairs(d.effects@, d.effects@.len() as int)
}

/// A strike's fields.
pub open spec fn strike_pairs(s: StrikeProfile) -> Seq<(Seq<char>, Seq<char>)> {
    (match s.damage_type {
        Some(t) => seq![("strike.type"@, t@)],
        None => Seq::empty(),
    }) + opt_graded_pairs("strike.base"@, s.base) + opt_graded_pairs("strike.scaling"@, s.scaling) + opt_graded_pairs(
        "strike.flat_bonus"@,
        s.flat_bonus,
    ) + opt_graded_pairs("strike.penetration"@, s.penetration) + opt_graded_pairs("strike.true_damage"@, s.true_damage)
}

/// A skill's fields.
pub open spec fn skill_pairs(d: SkillDef) -> Seq<(Seq<char>, Seq<char>)> {
    seq![("name"@, d.name@)] + effects_pairs(d.effects@, d.effects@.len() as int) + (match d.strike {
        Some(s) => strike_pairs(s),
        None => Seq::empty(),
    })
}

/// Appends a strike's fields.
fn push_strike(out: &mut Vec<(String, String)>, s: &StrikeProfile)
    ensures
        pair_views(final(out)@) == pair_views(old(out)@) + strike_pairs(*s),
{
    let ghost o = pair_views(out@);
    match &s.damage_type {
        Some(t) => push_pair(out, owned("strike.type"), owned(t.as_str())),
        None => {},
    }
    push_opt_graded(out, "strike.base", &s.base);
    push_opt_graded(out, "strike.scaling", &s.scaling);
    push_opt_graded(out, "strike.flat_bonus", &s.flat_bonus);
    push_opt_graded(out, "strike.penetration", &s.penetration);
    push_opt_graded(out, "strike.true_damage", &s.true_damage);
    proof {
        assert(pair_views(out@) =~= o + strike_pairs(*s));
    }
}

/// Appends a perk's fields.
fn push_perk(out: &mut Vec<(String, String)>, d: &PerkDef)
    ensures
        pair_views(final(out)@) == pair_views(old(out)@) + perk_pairs(*d),
{
    let ghost o = pair_views(out@);
    push_pair(out, owned("name"), owned(d.name.as_str()));
    push_effects(out, &d.effects);
    proof {
        assert(pair_views(out@) =~= o + perk_pairs(*d));
    }
}

/// Appends a skill's fields.
fn push_skill(out: &mut Vec<(String, String)>, d: &SkillDef)
    ensures
        pair_views(final(out)@) == pair_views(old(out)@) + skill_pairs(*d),
{
    let ghost o = pair_views(out@);
    push_pair(out, owned("name"), owned(d.name.as_str()));
    push_effects(out, &d.effects);
    match &d.strike {
        Some(s) => push_strike(out, s),
        None => {},
    }
    proof {
        assert(pair_views(out@) =~= o + skill_pairs(*d));
    }
}

// ── A whole version ─────────────────────────────────────────────────────

/// An entity's fields, by the table its id lives in; none when the table
/// lacks it.
pub open spec fn entity_pairs(data: crate::schema::InMemoryDataset, id: Seq<char>, kind: EntityKind) -> Seq<(Seq<char>, Seq<char>)> {
    match kind {
        EntityKind::Class => if data.classes().contains_key(id) { class_pairs(data.classes()[id]) } else { Seq::empty() },
        EntityKind::Curve => if data.curves().contains_key(id) { curve_pairs(data.curves()[id]) } else { Seq::empty() },
        EntityKind::Item => if data.items().contains_key(id) { item_pairs(data.items()[id]) } else { Seq::empty() },
        EntityKind::Perk => if data.perks().contains_key(id) { perk_pairs(data.perks()[id]) } else { Seq::empty() },
        EntityKind::Skill => if data.skills().contains_key(id) { skill_pairs(data.skills()[id]) } else { Seq::empty() },
    }
}

/// A field table holds each id's fields, and nothing else.
pub open spec fn fields_as(f: IdMap<String, IdMap<String, String>>, ds: Dataset) -> bool {
    &&& f.wf()
    &&& f.view().dom() == ds.ids.view().dom()
    &&& forall|k: Seq<char>| #[trigger] f.view().contains_key(k) ==> f.view()[k].wf()
        && text_map(f.view()[k].view()) == pairs_map(entity_pairs(ds.entities, k, ds.ids.view()[k]))
}

/// Renders every entity's fields, by id.
pub fn fields(ds: &Dataset) -> (r: IdMap<String, IdMap<String, String>>)
    requires
        ds.entities.wf(),
        ds.ids.wf(),
    ensures
        fields_as(r, *ds),
{
    let mut out: IdMap<String, IdMap<String, String>> = IdMap::new();
    let ghost ks = keys_of(ds.ids.entries());
    proof {
        lemma_keys_of(ds.ids.entries());
        crate::table::lemma_to_map_entries(ds.ids.entries());
    }
    let mut i: usize = 0;
    while i < ds.ids.len()
        invariant
            i <= ds.ids.entries().len(),
            ds.entities.wf(),
            ds.ids.wf(),
            out.wf(),
            ks == keys_of(ds.ids.entries()),
            ks.len() == ds.ids.entries().len(),
            forall|j: int| 0 <= j < ks.len() ==> #[trigger] ks[j] == ds.ids.entries()[j].0@,
            forall|j: int| 0 <= j < ks.len() ==> #[trigger] ds.ids.view().contains_key(ks[j]) && ds.ids.view()[ks[j]] == ds.ids.entries()[j].1,
            forall|k: Seq<char>| #[trigger] ds.ids.view().contains_key(k) <==> ks.contains(k),
            forall|k: Seq<char>| #[trigger] out.view().contains_key(k) <==> exists|j: int| 0 <= j < i && ks[j] == k,
            forall|k: Seq<char>| #[trigger] out.view().contains_key(k) ==> out.view()[k].wf()
                && text_map(out.view()[k].view()) == pairs_map(entity_pairs(ds.entities, k, ds.ids.view()[k])),
        decreases ds.ids.entries().len() - i,
    {
        let id = ds.ids.key_at(i);
        let kind = *ds.ids.value_at(i);
        let ghost k = ks[i as int];
        assert(ds.ids.view().contains_key(ks[i as int]));
        let mut pairs: Vec<(String, String)> = Vec::new();
        match kind {
            EntityKind::Class => match ds.entities.class(&ClassId::new(id.as_str())) {
                Some(def) => push_class(&mut pairs, def),
                None => {},
            },
            EntityKind::Curve => match ds.entities.curve(&CurveId::new(id.as_str())) {
                Some(c) => push_curve(&mut pairs, c),
                None => {},
            },
            EntityKind::Item => match ds.entities.item(&ItemId::new(id.as_str())) {
                Some(def) => push_item(&mut pairs, def),
                None => {},
            },
            EntityKind::Perk => match ds.entities.perk(&PerkId::new(id.as_str())) {
                Some(def) => push_perk(&mut pairs, def),
                None => {},
            },
            EntityKind::Skill => match ds.entities.skill(&SkillId::new(id.as_str())) {
                Some(def) => push_skill(&mut pairs, def),
                None => {},
            },
        }
        assert(pair_views(pairs@) =~= entity_pairs(ds.entities, k, ds.ids.view()[k]));
        let table = table_of(&pairs);
        let ghost before = out.view();
        out.insert(owned(id.as_str()), table);
        proof {
            assert forall|k2: Seq<char>| #[trigger] out.view().contains_key(k2) <==> exists|j: int| 0 <= j < i + 1 && ks[j] == k2 by {
                if before.contains_key(k2) {
                    let j = choose|j: int| 0 <= j < i && ks[j] == k2;
                    assert(0 <= j < i + 1 && ks[j] == k2);
                }
                if exists|j: int| 0 <= j < i + 1 && ks[j] == k2 {
                    let j = choose|j: int| 0 <= j < i + 1 && ks[j] == k2;
                    if j < i {
                        assert(before.contains_key(k2));
                    }
                }
                if k2 == k {
                    assert(0 <= i < i + 1 && ks[i as int] == k2);
                }
            }
        }
        i = i + 1;
    }
    proof {
        assert forall|k: Seq<char>| #[trigger] out.view().contains_key(k) <==> ds.ids.view().contains_key(k) by {
            if ds.ids.view().contains_key(k) {
                assert(ks.contains(k));
                let j = choose|j: int| 0 <= j < ks.len() && ks[j] == k;
            }
            if out.view().contains_key(k) {
                let j = choose|j: int| 0 <= j < i && ks[j] == k;
                assert(ks.contains(k));
            }
        }
        assert(out.view().dom() =~= ds.ids.view().dom());
    }
    out
}

} // verus!
