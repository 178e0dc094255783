//! Confidence as a first-class part of the domain model.
//!
//! Every value carries its grade, and the grade propagates: the result of a
//! computation is at most as trustworthy as its least trustworthy input (the
//! minimum rule). An `Unknown` value carries a note saying what was assumed,
//! and combining values joins their notes so none is dropped.

use vstd::prelude::*;

use crate::fixed::Fixed;
use crate::text::{append_chars, string_of};

verus! {

/// How trustworthy a value is, ordered `Unknown < Unverified < Verified`.
#[derive(Copy, Clone, PartialEq, Eq, Structural, PartialOrd, Ord, Debug)]
pub enum ConfidenceLevel {
    /// An assumption with a stated reason. Lowest.
    Unknown,
    /// Wiki/community sourced, not confirmed.
    Unverified,
    /// Confirmed in patch notes or by an in-game test. Highest.
    Verified,
}

/// The position of a level in the order `Unknown < Unverified < Verified`.
pub open spec fn level_rank(l: ConfidenceLevel) -> int {
    match l {
        ConfidenceLevel::Unknown => 0,
        ConfidenceLevel::Unverified => 1,
        ConfidenceLevel::Verified => 2,
    }
}

/// The lower of two levels.
pub open spec fn min_level(a: ConfidenceLevel, b: ConfidenceLevel) -> ConfidenceLevel {
    if level_rank(a) <= level_rank(b) { a } else { b }
}

impl ConfidenceLevel {
    /// The lower of two levels: the grade a combination of two values
    /// deserves.
    pub fn lowest(self, other: ConfidenceLevel) -> (r: ConfidenceLevel)
        ensures
            r == min_level(self, other),
    {
        let a = match self {
            ConfidenceLevel::Unknown => 0u8,
            ConfidenceLevel::Unverified => 1u8,
            ConfidenceLevel::Verified => 2u8,
        };
        let b = match other {
            ConfidenceLevel::Unknown => 0u8,
            ConfidenceLevel::Unverified => 1u8,
            ConfidenceLevel::Verified => 2u8,
        };
        if a <= b {
            self
        } else {
            other
        }
    }

    /// The name used in canonical encodings and readouts.
    pub fn as_str(self) -> (r: &'static str)
        ensures
            r@ == level_name(self),
    {
        match self {
            ConfidenceLevel::Verified => "verified",
            ConfidenceLevel::Unverified => "unverified",
            ConfidenceLevel::Unknown => "unknown",
        }
    }
}

/// The name of a level.
pub open spec fn level_name(l: ConfidenceLevel) -> Seq<char> {
    match l {
        ConfidenceLevel::Verified => "verified"@,
        ConfidenceLevel::Unverified => "unverified"@,
        ConfidenceLevel::Unknown => "unknown"@,
    }
}

/// A value together with how much it can be trusted.
#[derive(Debug, PartialEq, Eq)]
pub enum Confidence<T> {
    /// Confirmed in patch notes or by an in-game test.
    Verified(T),
    /// Wiki/community sourced, not confirmed.
    Unverified(T),
    /// An assumption; the note says what was assumed and why.
    Unknown {
        /// The value the computation proceeds with.
        assumed: T,
        /// Why this is a guess — surfaced in output, never dropped.
        note: String,
    },
}

/// Joins the notes of up to two `Unknown` inputs with `"; "`, dropping an
/// absent or empty first note.
pub open spec fn join_notes_spec(a: Option<Seq<char>>, b: Option<Seq<char>>) -> Seq<char> {
    match (a, b) {
        (None, None) => Seq::empty(),
        (Some(x), None) => x,
        (None, Some(y)) => y,
        (Some(x), Some(y)) => if x.len() == 0 { y } else { x + "; "@ + y },
    }
}

/// A graded value's grade and note, without the value.
pub open spec fn grade_of<T>(c: Confidence<T>) -> (ConfidenceLevel, Option<Seq<char>>) {
    (c.spec_level(), c.spec_note())
}

/// The grade and note of a combination of two graded values: the lower
/// grade, and, when that is `Unknown`, the two notes joined.
pub open spec fn grade_join(
    a: (ConfidenceLevel, Option<Seq<char>>),
    b: (ConfidenceLevel, Option<Seq<char>>),
) -> (ConfidenceLevel, Option<Seq<char>>) {
    let l = min_level(a.0, b.0);
    (l, if l == ConfidenceLevel::Unknown { Some(join_notes_spec(a.1, b.1)) } else { None })
}

impl<T> Confidence<T> {
    /// The grade of this value.
    pub open spec fn spec_level(self) -> ConfidenceLevel {
        match self {
            Confidence::Verified(_) => ConfidenceLevel::Verified,
            Confidence::Unverified(_) => ConfidenceLevel::Unverified,
            Confidence::Unknown { .. } => ConfidenceLevel::Unknown,
        }
    }

    /// The carried value, regardless of grade.
    pub open spec fn spec_value(self) -> T {
        match self {
            Confidence::Verified(v) => v,
            Confidence::Unverified(v) => v,
            Confidence::Unknown { assumed, .. } => assumed,
        }
    }

    /// The note, exactly when the value is `Unknown`.
    pub open spec fn spec_note(self) -> Option<Seq<char>> {
        match self {
            Confidence::Unknown { note, .. } => Some(note@),
            _ => None,
        }
    }

    /// The grade and note a combination of two values carries.
    pub open spec fn combined_note<U>(self, other: Confidence<U>) -> Option<Seq<char>> {
        if min_level(self.spec_level(), other.spec_level()) == ConfidenceLevel::Unknown {
            Some(join_notes_spec(self.spec_note(), other.spec_note()))
        } else {
            None
        }
    }

    /// The trust grade of this value.
    pub fn level(&self) -> (r: ConfidenceLevel)
        ensures
            r == self.spec_level(),
    {
        match self {
            Confidence::Verified(_) => ConfidenceLevel::Verified,
            Confidence::Unverified(_) => ConfidenceLevel::Unverified,
            Confidence::Unknown { .. } => ConfidenceLevel::Unknown,
        }
    }

    /// Borrows the carried value regardless of grade.
    pub fn value(&self) -> (r: &T)
        ensures
            *r == self.spec_value(),
    {
        match self {
            Confidence::Verified(v) => v,
            Confidence::Unverified(v) => v,
            Confidence::Unknown { assumed, .. } => assumed,
        }
    }

    /// Surrenders the carried value, discarding the grade.
    pub fn into_value(self) -> (r: T)
        ensures
            r == self.spec_value(),
    {
        match self {
            Confidence::Verified(v) => v,
            Confidence::Unverified(v) => v,
            Confidence::Unknown { assumed, .. } => assumed,
        }
    }

    /// The note explaining an assumption, if this is `Unknown`.
    pub fn note(&self) -> (r: Option<&str>)
        ensures
            r is Some <==> self.spec_note() is Some,
            r is Some ==> r->0@ == self.spec_note()->0,
    {
        match self {
            Confidence::Unknown { note, .. } => Some(note.as_str()),
            _ => None,
        }
    }

    /// Transforms the value; the grade and note travel unchanged.
    pub fn map<U, F: FnOnce(T) -> U>(self, f: F) -> (r: Confidence<U>)
        requires
            f.requires((self.spec_value(),)),
        ensures
            r.spec_level() == self.spec_level(),
            r.spec_note() == self.spec_note(),
            f.ensures((self.spec_value(),), r.spec_value()),
    {
        match self {
            Confidence::Verified(v) => Confidence::Verified(f(v)),
            Confidence::Unverified(v) => Confidence::Unverified(f(v)),
            Confidence::Unknown { assumed, note } => Confidence::Unknown { assumed: f(assumed), note },
        }
    }

    /// Combines two graded values: the result's grade is the minimum of the
    /// inputs' grades, and an `Unknown` result carries both inputs' notes,
    /// joined.
    pub fn zip_with<U, V, F: FnOnce(T, U) -> V>(self, other: Confidence<U>, f: F) -> (r: Confidence<V>)
        requires
            f.requires((self.spec_value(), other.spec_value())),
        ensures
            r.spec_level() == min_level(self.spec_level(), other.spec_level()),
            r.spec_note() == self.combined_note(other),
            f.ensures((self.spec_value(), other.spec_value()), r.spec_value()),
    {
        let level = self.level().lowest(other.level());
        let note = join_notes(self.note(), other.note());
        let value = f(self.into_value(), other.into_value());
        match level {
            ConfidenceLevel::Verified => Confidence::Verified(value),
            ConfidenceLevel::Unverified => Confidence::Unverified(value),
            ConfidenceLevel::Unknown => Confidence::Unknown { assumed: value, note },
        }
    }

    /// The grade and note two values combine to, around a value computed
    /// from them: the same rule as [`Confidence::zip_with`], without
    /// consuming either input.
    pub fn join<U, V>(&self, other: &Confidence<U>, value: V) -> (r: Confidence<V>)
        ensures
            r.spec_level() == min_level(self.spec_level(), other.spec_level()),
            r.spec_note() == self.combined_note(*other),
            r.spec_value() == value,
    {
        let level = self.level().lowest(other.level());
        let note = join_notes(self.note(), other.note());
        match level {
            ConfidenceLevel::Verified => Confidence::Verified(value),
            ConfidenceLevel::Unverified => Confidence::Unverified(value),
            ConfidenceLevel::Unknown => Confidence::Unknown { assumed: value, note },
        }
    }

    /// The same grade and note around a new value.
    pub fn with_value<U>(&self, value: U) -> (r: Confidence<U>)
        ensures
            r.spec_level() == self.spec_level(),
            r.spec_note() == self.spec_note(),
            r.spec_value() == value,
    {
        match self {
            Confidence::Verified(_) => Confidence::Verified(value),
            Confidence::Unverified(_) => Confidence::Unverified(value),
            Confidence::Unknown { note, .. } => Confidence::Unknown { assumed: value, note: note.clone() },
        }
    }
}

impl Confidence<Fixed> {
    /// A copy of a graded number.
    pub fn copied(&self) -> (r: Confidence<Fixed>)
        ensures
            r == *self,
    {
        match self {
            Confidence::Verified(v) => Confidence::Verified(*v),
            Confidence::Unverified(v) => Confidence::Unverified(*v),
            Confidence::Unknown { assumed, note } => Confidence::Unknown { assumed: *assumed, note: note.clone() },
        }
    }
}

/// `d` is a clone of `c`: the same grade and note, and a clone of the
/// value.
pub open spec fn clone_of<T: Clone>(c: Confidence<T>, d: Confidence<T>) -> bool {
    &&& d.spec_level() == c.spec_level()
    &&& d.spec_note() == c.spec_note()
    &&& cloned::<T>(c.spec_value(), d.spec_value())
}

impl<T: Clone> Clone for Confidence<T> {
    /// A copy with the same grade and note; the value is cloned.
    fn clone(&self) -> (r: Self)
        ensures
            clone_of(*self, r),
    {
        match self {
            Confidence::Verified(v) => Confidence::Verified(v.clone()),
            Confidence::Unverified(v) => Confidence::Unverified(v.clone()),
            Confidence::Unknown { assumed, note } => Confidence::Unknown { assumed: assumed.clone(), note: note.clone() },
        }
    }
}

/// Joins the notes of up to two `Unknown` inputs. Empty only if neither
/// input was `Unknown` — and then it is never read.
fn join_notes(a: Option<&str>, b: Option<&str>) -> (r: String)
    ensures
        r@ == join_notes_spec(
            match a { Some(x) => Some(x@), None => None },
            match b { Some(y) => Some(y@), None => None },
        ),
{
    let mut out: Vec<char> = Vec::new();
    if let Some(a) = a {
        append_chars(&mut out, a);
    }
    if let Some(b) = b {
        if out.len() > 0 {
            append_chars(&mut out, "; ");
        }
        append_chars(&mut out, b);
    }
    proof {
        reveal_strlit("; ");
        if a is Some {
            assert(out@.len() == 0 ==> a->0@.len() == 0);
        }
        if a is None {
            assert(Seq::<char>::empty() + b->0@ =~= b->0@);
        }
    }
    string_of(&out)
}

// ── Laws ────────────────────────────────────────────────────────────────

/// The propagation rule: combining two graded values gives the lower of
/// their grades, for every one of the nine combinations, whatever the
/// combining function computes.
pub proof fn law_combined_grade_is_the_minimum(a: ConfidenceLevel, b: ConfidenceLevel)
    ensures
        level_rank(min_level(a, b)) <= level_rank(a),
        level_rank(min_level(a, b)) <= level_rank(b),
        min_level(a, b) == a || min_level(a, b) == b,
        min_level(a, b) == min_level(b, a),
{
}

/// One unverified input degrades a verified result, and nothing a
/// combination does can raise a grade above its weakest input.
pub proof fn law_no_combination_raises_a_grade(a: ConfidenceLevel, b: ConfidenceLevel, c: ConfidenceLevel)
    ensures
        min_level(min_level(a, b), c) == min_level(a, min_level(b, c)),
        min_level(ConfidenceLevel::Verified, a) == a,
        min_level(ConfidenceLevel::Unknown, a) == ConfidenceLevel::Unknown,
{
}

/// A note is carried exactly when the grade is `Unknown`, and combining
/// two `Unknown` values keeps both notes, the first one first.
pub proof fn law_notes_are_never_dropped(x: Seq<char>, y: Seq<char>)
    requires
        x.len() > 0,
    ensures
        join_notes_spec(Some(x), Some(y)) == x + "; "@ + y,
        join_notes_spec(Some(x), None) == x,
        join_notes_spec(None, Some(y)) == y,
{
}

/// What a clone surrenders: `into_value` discards only the grade and the
/// note, so a clone gives back a clone of the carried value, and, for a
/// payload whose clone is a copy, the value itself.
pub proof fn law_a_clone_surrenders_the_value<T: Clone>(c: Confidence<T>, d: Confidence<T>)
    requires
        clone_of(c, d),
    ensures
        cloned::<T>(c.spec_value(), d.spec_value()),
        (forall|x: T, y: T| #[trigger] cloned::<T>(x, y) ==> x == y) ==> d.spec_value() == c.spec_value(),
{
}

} // verus!
