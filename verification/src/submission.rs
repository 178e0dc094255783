//! Submissions: what someone observed, offered to the dataset.
//!
//! A submission is a proposal, and something has to promote it. Three
//! things travel with every value: who saw it and when, how they saw it,
//! and what was not understood.

use vstd::prelude::*;

use crate::confidence::{Confidence, ConfidenceLevel};
use crate::dataset::{LoadError, attrs_as, class_slugs};
use crate::diff::opt_view;
use crate::doc::{
    Doc, field_error, get, has_int, has_text, int_at, int_entries, items_or_empty, json_doc, keys_within, lookup, may_int,
    may_points, may_strings, may_text, may_text_field, may_text_list, only_keys, opt_list, opt_table_with_integers,
    opt_table_with_strings, opt_text, opt_text_at, opt_text_list, parse_json, points_views, req_int, req_text, str_entries,
    str_pair_views, strs, text_at, text_field,
};
use crate::fixed::{Fixed, parse_spec};
use crate::ids::{ClassId, DerivedStatId, ItemId};
use crate::loadout::{Slot, slot_name};
use crate::schema::{AttributeKind, ItemDef, attribute_name, names_attribute};
use crate::stats::{Rarity, rarity_name};
use crate::table::IdMap;
use crate::text::{append_chars, chars_of, owned, string_of, string_views};

verus! {

/// How a value was observed. Never inferred from the value itself.
#[derive(Copy, Clone, PartialEq, Eq, Structural, Debug)]
pub enum Method {
    /// Text recognition ran over a screenshot.
    ScreenshotOcr,
    /// A person read a screenshot and typed what it said.
    ScreenshotTyped,
    /// A person read the game and typed what it said.
    InGame,
    /// Taken from patch notes or a wiki page rather than seen.
    Documented,
}

/// The name a method is written with.
pub open spec fn method_name(m: Method) -> Seq<char> {
    match m {
        Method::ScreenshotOcr => "screenshot-ocr"@,
        Method::ScreenshotTyped => "screenshot-typed"@,
        Method::InGame => "in-game"@,
        Method::Documented => "documented"@,
    }
}

/// The method a name denotes, if any.
pub open spec fn method_named(text: Seq<char>) -> Option<Method> {
    if text == method_name(Method::ScreenshotOcr) {
        Some(Method::ScreenshotOcr)
    } else if text == method_name(Method::ScreenshotTyped) {
        Some(Method::ScreenshotTyped)
    } else if text == method_name(Method::InGame) {
        Some(Method::InGame)
    } else if text == method_name(Method::Documented) {
        Some(Method::Documented)
    } else {
        None
    }
}

/// Whether a method offers a value as verified: only seeing the game does.
pub open spec fn offers_verified(m: Method) -> bool {
    m == Method::InGame || m == Method::ScreenshotTyped
}

impl Method {
    /// The name a method is written with.
    pub fn as_str(self) -> (r: &'static str)
        ensures
            r@ == method_name(self),
    {
        match self {
            Method::ScreenshotOcr => "screenshot-ocr",
            Method::ScreenshotTyped => "screenshot-typed",
            Method::InGame => "in-game",
            Method::Documented => "documented",
        }
    }

    /// Reads a method's name.
    pub fn parse(text: &str) -> (r: Option<Method>)
        ensures
            r == method_named(text@),
    {
        if crate::text::str_eq(text, "screenshot-ocr") {
            Some(Method::ScreenshotOcr)
        } else if crate::text::str_eq(text, "screenshot-typed") {
            Some(Method::ScreenshotTyped)
        } else if crate::text::str_eq(text, "in-game") {
            Some(Method::InGame)
        } else if crate::text::str_eq(text, "documented") {
            Some(Method::Documented)
        } else {
            None
        }
    }

    /// The grade a submission of this kind is *offered* at. Review may lower
    /// it and only a person may raise it: nothing here promotes itself.
    pub fn offered_grade(self) -> (r: &'static str)
        ensures
            r@ == (if offers_verified(self) { "verified"@ } else { "unverified"@ }),
    {
        match self {
            Method::InGame | Method::ScreenshotTyped => "verified",
            Method::ScreenshotOcr | Method::Documented => "unverified",
        }
    }
}

// ── The submission format ───────────────────────────────────────────────

/// One observed item, in the shape the dataset stores items.
#[derive(Debug)]
pub struct ItemObservation {
    /// Proposed id (`item.leather_cap`).
    pub id: String,
    /// Name as the card prints it, without the rarity.
    pub name: String,
    /// The rarity read off the card, if it printed one.
    pub rarity: Option<String>,
    /// Classes the card restricts it to, if any.
    pub required_classes: Vec<String>,
    /// Where it is worn, as the card's `Slot Type` names it.
    pub slot: Option<String>,
    /// Derived stats printed on it, as exact decimal strings, by stat id in
    /// key order.
    pub grants: Vec<(String, String)>,
    /// Attributes printed on it, in whole points, by name in key order.
    pub attributes: Vec<(String, i32)>,
    /// Flat move speed printed on it.
    pub move_speed_add: Option<String>,
}

/// One person's observations, offered for review.
#[derive(Debug)]
pub struct Submission {
    /// Format version. Present so a reader can refuse a shape it predates
    /// rather than misread one.
    pub submission: u32,
    /// Who observed this. A handle is enough; the point is that two
    /// submissions can be told apart, not that anyone is identified.
    pub observer: String,
    /// When, as `YYYY-MM-DD`, exactly as a person wrote it.
    pub observed_at: String,
    /// Which game build was running.
    pub build: String,
    /// How it was observed.
    pub method: Method,
    /// Anything the observer wants the person approving it to know.
    pub note: Option<String>,
    /// The items observed.
    pub items: Vec<ItemObservation>,
    /// Lines that were read but had nowhere to go, kept deliberately.
    pub unrecognised: Vec<String>,
}

/// The format this build of the tool writes and understands.
pub const FORMAT: u32 = 1;

/// The most a submission may be, in bytes: generous for anything a person
/// would send, and small enough that a hostile file is refused before it is
/// read.
pub const MAX_BYTES: usize = 1048576;

/// Whether a document is an item observation.
pub open spec fn observation_fits(d: Doc) -> bool {
    let t = d->Table_0@;
    &&& d is Table
    &&& keys_within(t, seq!["id"@, "name"@, "rarity"@, "requiredClasses"@, "slot"@, "grants"@, "attributes"@, "moveSpeedAdd"@])
    &&& has_text(t, "id"@)
    &&& has_text(t, "name"@)
    &&& may_text(t, "rarity"@)
    &&& opt_text_list(lookup(t, "requiredClasses"@)) is Some
    &&& may_text(t, "slot"@)
    &&& opt_table_with_strings(lookup(t, "grants"@))
    &&& opt_table_with_integers(lookup(t, "attributes"@), i32::MIN as int, i32::MAX as int)
    &&& may_text(t, "moveSpeedAdd"@)
}

/// An observation's fields, as read from a fitting document.
pub open spec fn observation_read(x: ItemObservation, d: Doc) -> bool {
    let t = d->Table_0@;
    &&& x.id@ == text_at(t, "id"@)
    &&& x.name@ == text_at(t, "name"@)
    &&& opt_view(x.rarity) == opt_text_at(t, "rarity"@)
    &&& string_views(x.required_classes@) == opt_text_list(lookup(t, "requiredClasses"@))->0
    &&& opt_view(x.slot) == opt_text_at(t, "slot"@)
    &&& str_pair_views(x.grants@) == str_entries(lookup(t, "grants"@))
    &&& points_views(x.attributes@) == int_entries(lookup(t, "attributes"@))
    &&& opt_view(x.move_speed_add) == opt_text_at(t, "moveSpeedAdd"@)
}

/// Reads one item observation.
pub fn decode_observation(d: &Doc) -> (r: Result<ItemObservation, String>)
    ensures
        r is Ok <==> observation_fits(*d),
        r is Ok ==> observation_read(r->Ok_0, *d),
{
    let t = match d {
        Doc::Table(t) => t,
        _ => return Err(owned("an item observation is an object")),
    };
    let keys: [&str; 8] = ["id", "name", "rarity", "requiredClasses", "slot", "grants", "attributes", "moveSpeedAdd"];
    proof {
        assert(strs(keys@) =~= seq!["id"@, "name"@, "rarity"@, "requiredClasses"@, "slot"@, "grants"@, "attributes"@, "moveSpeedAdd"@]);
    }
    only_keys(t, &keys)?;
    let id = req_text(t, "id")?;
    let name = req_text(t, "name")?;
    let rarity = may_text_field(t, "rarity")?;
    let required_classes = may_text_list(t, "requiredClasses")?;
    let slot = may_text_field(t, "slot")?;
    let grants = may_strings(t, "grants")?;
    let attributes = may_points(t, "attributes")?;
    let move_speed_add = may_text_field(t, "moveSpeedAdd")?;
    Ok(ItemObservation { id, name, rarity, required_classes, slot, grants, attributes, move_speed_add })
}

/// Every document of a list is an item observation.
pub open spec fn observations_fit(items: Seq<Doc>) -> bool {
    forall|i: int| 0 <= i < items.len() ==> observation_fits(#[trigger] items[i])
}

/// A list's observations, one per document, in order.
pub open spec fn observations_read(v: Seq<ItemObservation>, items: Seq<Doc>) -> bool {
    &&& v.len() == items.len()
    &&& forall|i: int| 0 <= i < items.len() ==> observation_read(#[trigger] v[i], items[i])
}

/// Reads a list of item observations.
fn decode_observations(items: &Vec<Doc>) -> (r: Result<Vec<ItemObservation>, String>)
    ensures
        r is Ok <==> observations_fit(items@),
        r is Ok ==> observations_read(r->Ok_0@, items@),
{
    let mut out: Vec<ItemObservation> = Vec::new();
    let mut i: usize = 0;
    while i < items.len()
        invariant
            i <= items@.len(),
            out@.len() == i,
            forall|j: int| 0 <= j < i ==> observation_fits(#[trigger] items@[j]),
            forall|j: int| 0 <= j < i ==> observation_read(#[trigger] out@[j], items@[j]),
        decreases items@.len() - i,
    {
        let x = decode_observation(&items[i])?;
        let ghost before = out@;
        out.push(x);
        proof {
            assert forall|j: int| 0 <= j < i + 1 implies observation_read(#[trigger] out@[j], items@[j]) by {
                if j < i {
                    assert(out@[j] == before[j]);
                }
            }
        }
        i = i + 1;
    }
    Ok(out)
}

/// A present method field's method.
pub open spec fn method_of(d: Option<Doc>) -> Option<Method> {
    match opt_text(d) {
        Some(Some(s)) => method_named(s),
        _ => None,
    }
}

/// Whether a document is a submission.
pub open spec fn submission_fits(d: Doc) -> bool {
    let t = d->Table_0@;
    &&& d is Table
    &&& keys_within(t, seq!["submission"@, "observer"@, "observedAt"@, "build"@, "method"@, "note"@, "items"@, "unrecognised"@])
    &&& has_int(t, "submission"@, 0, u32::MAX as int)
    &&& has_text(t, "observer"@)
    &&& has_text(t, "observedAt"@)
    &&& has_text(t, "build"@)
    &&& method_of(lookup(t, "method"@)) is Some
    &&& may_text(t, "note"@)
    &&& opt_list(lookup(t, "items"@)) is Some
    &&& observations_fit(items_or_empty(lookup(t, "items"@)))
    &&& opt_text_list(lookup(t, "unrecognised"@)) is Some
}

/// A submission's fields, as read from a fitting document.
pub open spec fn submission_read(x: Submission, d: Doc) -> bool {
    let t = d->Table_0@;
    &&& x.submission == int_at(t, "submission"@, 0, u32::MAX as int)
    &&& x.observer@ == text_at(t, "observer"@)
    &&& x.observed_at@ == text_at(t, "observedAt"@)
    &&& x.build@ == text_at(t, "build"@)
    &&& Some(x.method) == method_of(lookup(t, "method"@))
    &&& opt_view(x.note) == opt_text_at(t, "note"@)
    &&& observations_read(x.items@, items_or_empty(lookup(t, "items"@)))
    &&& string_views(x.unrecognised@) == opt_text_list(lookup(t, "unrecognised"@))->0
}

/// Reads a submission's fields.
pub fn decode_submission(d: &Doc) -> (r: Result<Submission, String>)
    ensures
        r is Ok <==> submission_fits(*d),
        r is Ok ==> submission_read(r->Ok_0, *d),
{
    let t = match d {
        Doc::Table(t) => t,
        _ => return Err(owned("a submission is an object")),
    };
    let keys: [&str; 8] = ["submission", "observer", "observedAt", "build", "method", "note", "items", "unrecognised"];
    proof {
        assert(strs(keys@) =~= seq!["submission"@, "observer"@, "observedAt"@, "build"@, "method"@, "note"@, "items"@, "unrecognised"@]);
    }
    only_keys(t, &keys)?;
    let submission = req_int(t, "submission", 0, u32::MAX as i64)? as u32;
    let observer = req_text(t, "observer")?;
    let observed_at = req_text(t, "observedAt")?;
    let build = req_text(t, "build")?;
    let method = match text_field(t, "method") {
        Some(Some(m)) => match Method::parse(m.as_str()) {
            Some(x) => x,
            None => return Err(field_error("method")),
        },
        _ => return Err(field_error("method")),
    };
    let note = may_text_field(t, "note")?;
    let items = match crate::doc::list_field(t, "items") {
        None => return Err(field_error("items")),
        Some(None) => {
            assert(items_or_empty(lookup(t@, "items"@)) =~= Seq::<Doc>::empty());
            Vec::new()
        },
        Some(Some(x)) => decode_observations(x)?,
    };
    let unrecognised = may_text_list(t, "unrecognised")?;
    Ok(Submission { submission, observer, observed_at, build, method, note, items, unrecognised })
}

// ── What a submission must be ───────────────────────────────────────────

/// A character an id may hold: lowercase ascii, digits, dots, underscores.
pub open spec fn id_char(c: char) -> bool {
    ('a' <= c && c <= 'z') || ('0' <= c && c <= '9') || c == '.' || c == '_'
}

/// An id nobody approving it can mistake for another: non-empty, and nothing
/// outside the small explicit alphabet.
pub open spec fn id_ok(id: Seq<char>) -> bool {
    id.len() > 0 && forall|i: int| 0 <= i < id.len() ==> id_char(#[trigger] id[i])
}

/// The sixteen uppercase hexadecimal digits.
pub open spec fn upper_hex() -> Seq<char> {
    seq!['0', '1', '2', '3', '4', '5', '6', '7', '8', '9', 'A', 'B', 'C', 'D', 'E', 'F']
}

/// The hexadecimal digits of `n`, least significant first, once `k` have
/// been written: at least four and at most eight in all.
pub open spec fn hex_rev(n: nat, k: nat) -> Seq<char>
    decreases 8 - k,
{
    if k >= 8 || (n == 0 && k >= 4) {
        Seq::empty()
    } else {
        seq![upper_hex()[(n % 16) as int]] + hex_rev(n / 16, k + 1)
    }
}

/// A code point as `U+` and at least four uppercase hexadecimal digits.
pub open spec fn code_point_text(c: char) -> Seq<char> {
    seq!['U', '+'] + hex_rev(c as nat, 0).reverse()
}

/// Appends the code point of a character as `U+` and at least four
/// uppercase hexadecimal digits.
fn push_code_point(out: &mut Vec<char>, c: char)
    ensures
        final(out)@ == old(out)@ + code_point_text(c),
{
    let digits: [char; 16] = ['0', '1', '2', '3', '4', '5', '6', '7', '8', '9', 'A', 'B', 'C', 'D', 'E', 'F'];
    assert(digits@ =~= upper_hex());
    let mut n: u32 = c as u32;
    let mut rev: Vec<char> = Vec::new();
    proof {
        assert(rev@ + hex_rev(n as nat, 0) =~= hex_rev(c as nat, 0));
    }
    while n > 0 || rev.len() < 4
        invariant_except_break
            rev@.len() <= 8,
            digits@ == upper_hex(),
            rev@ + hex_rev(n as nat, rev@.len()) == hex_rev(c as nat, 0),
        ensures
            rev@ == hex_rev(c as nat, 0),
        decreases 8 - rev@.len(),
    {
        if rev.len() >= 8 {
            proof {
                assert(rev@ + hex_rev(n as nat, rev@.len()) =~= rev@);
            }
            break;
        }
        let ghost before = rev@;
        rev.push(digits[(n % 16) as usize]);
        proof {
            assert(hex_rev(n as nat, before.len()) == seq![upper_hex()[(n % 16) as int]] + hex_rev((n / 16) as nat, before.len() + 1));
            assert(rev@ + hex_rev((n / 16) as nat, rev@.len()) =~= before + hex_rev(n as nat, before.len()));
        }
        n = n / 16;
    }
    let ghost start = out@;
    out.push('U');
    out.push('+');
    let mut i: usize = rev.len();
    proof {
        assert(rev@.subrange(i as int, rev@.len() as int).reverse() =~= Seq::<char>::empty());
    }
    while i > 0
        invariant
            i <= rev@.len(),
            out@ == start + seq!['U', '+'] + rev@.subrange(i as int, rev@.len() as int).reverse(),
        decreases i,
    {
        let ghost before = out@;
        out.push(rev[i - 1]);
        proof {
            assert(rev@.subrange(i - 1, rev@.len() as int).reverse()
                =~= rev@.subrange(i as int, rev@.len() as int).reverse().push(rev@[i - 1]));
        }
        i = i - 1;
    }
    proof {
        assert(rev@.subrange(0, rev@.len() as int) =~= rev@);
    }
}

/// Refuses an id that would be indistinguishable from another one on
/// screen: a trailing space, a homoglyph, a capital. The alphabet is small
/// and explicit, so anything outside it is named rather than rendered.
pub fn check_id(id: &str) -> (r: Result<(), LoadError>)
    ensures
        r is Ok <==> id_ok(id@),
        r is Err ==> r->Err_0 is Invalid,
{
    let cs = chars_of(id);
    if cs.len() == 0 {
        return Err(LoadError::Invalid(owned("an item needs an id")));
    }
    let mut bad: Vec<char> = Vec::new();
    let mut found = false;
    let mut i: usize = 0;
    while i < cs.len()
        invariant
            i <= cs@.len(),
            cs@ == id@,
            !found <==> forall|j: int| 0 <= j < i ==> id_char(#[trigger] cs@[j]),
        decreases cs@.len() - i,
    {
        let c = cs[i];
        if !(('a' <= c && c <= 'z') || ('0' <= c && c <= '9') || c == '.' || c == '_') {
            if found {
                append_chars(&mut bad, ", ");
            }
            bad.push('\'');
            bad.push(c);
            bad.push('\'');
            append_chars(&mut bad, " (");
            push_code_point(&mut bad, c);
            append_chars(&mut bad, ")");
            found = true;
        }
        i = i + 1;
    }
    if found {
        let mut m: Vec<char> = Vec::new();
        m.push('"');
        append_chars(&mut m, id);
        append_chars(&mut m, "\": an id is lowercase ascii, digits, dots and underscores. Refused: ");
        let mut k: usize = 0;
        while k < bad.len()
            decreases bad@.len() - k,
        {
            m.push(bad[k]);
            k = k + 1;
        }
        append_chars(&mut m, ". Two ids that look alike and are not is how a bad value gets approved.");
        return Err(LoadError::Invalid(string_of(&m)));
    }
    Ok(())
}

/// A character `str::trim` removes: Unicode white space.
pub open spec fn white(c: char) -> bool {
    let n = c as u32;
    ||| 0x9 <= n <= 0xD
    ||| n == 0x20
    ||| n == 0x85
    ||| n == 0xA0
    ||| n == 0x1680
    ||| 0x2000 <= n <= 0x200A
    ||| n == 0x2028
    ||| n == 0x2029
    ||| n == 0x202F
    ||| n == 0x205F
    ||| n == 0x3000
}

/// Nothing but white space.
pub open spec fn blank(s: Seq<char>) -> bool {
    forall|i: int| 0 <= i < s.len() ==> white(#[trigger] s[i])
}

/// Whether a text is nothing but white space.
pub fn is_blank(s: &str) -> (r: bool)
    ensures
        r == blank(s@),
{
    let cs = chars_of(s);
    let mut i: usize = 0;
    while i < cs.len()
        invariant
            i <= cs@.len(),
            cs@ == s@,
            forall|j: int| 0 <= j < i ==> white(#[trigger] cs@[j]),
        decreases cs@.len() - i,
    {
        let n = cs[i] as u32;
        let w = (0x9 <= n && n <= 0xD) || n == 0x20 || n == 0x85 || n == 0xA0 || n == 0x1680 || (0x2000 <= n && n <= 0x200A)
            || n == 0x2028 || n == 0x2029 || n == 0x202F || n == 0x205F || n == 0x3000;
        if !w {
            assert(!white(cs@[i as int]));
            return false;
        }
        i = i + 1;
    }
    true
}

/// A read submission is one this build accepts: a format it knows, something
/// in it, ids nobody can mistake, and an observer.
pub open spec fn submission_ok(s: Submission) -> bool {
    &&& s.submission <= FORMAT
    &&& (s.items@.len() > 0 || s.unrecognised@.len() > 0)
    &&& forall|i: int| 0 <= i < s.items@.len() ==> id_ok((#[trigger] s.items@[i]).id@)
    &&& !blank(s.observer@)
}

/// What decoding a submission's text gives.
pub open spec fn submission_decoded(text: Seq<char>, r: Result<Submission, LoadError>) -> bool {
    match json_doc(text) {
        Err(m) => r matches Err(LoadError::Schema { path, message }) && path@ == "submission"@ && message@ == m,
        Ok(d) => if !submission_fits(d) {
            r matches Err(LoadError::Schema { path, .. }) && path@ == "submission"@
        } else {
            match r {
                Ok(s) => submission_read(s, d) && submission_ok(s),
                Err(e) => e is Invalid && exists|s: Submission| #[trigger] submission_read(s, d) && !submission_ok(s),
            }
        },
    }
}

/// Refuses the first item whose id could be mistaken for another.
fn check_ids(items: &Vec<ItemObservation>) -> (r: Result<(), LoadError>)
    ensures
        r is Ok <==> forall|i: int| 0 <= i < items@.len() ==> id_ok((#[trigger] items@[i]).id@),
        r is Err ==> r->Err_0 is Invalid,
{
    let mut i: usize = 0;
    while i < items.len()
        invariant
            i <= items@.len(),
            forall|j: int| 0 <= j < i ==> id_ok((#[trigger] items@[j]).id@),
        decreases items@.len() - i,
    {
        check_id(items[i].id.as_str())?;
        i = i + 1;
    }
    Ok(())
}

impl Submission {
    /// Reads a submission, refusing anything it cannot fully understand:
    /// malformed JSON, an unknown field, a format version this build
    /// predates, an empty or anonymous submission, or an id that looks like
    /// another.
    pub fn decode(text: &str) -> (r: Result<Submission, LoadError>)
        ensures
            submission_decoded(text@, r),
    {
        let d = match parse_json(text) {
            Ok(d) => d,
            Err(m) => return Err(LoadError::Schema { path: owned("submission"), message: m }),
        };
        let parsed = match decode_submission(&d) {
            Ok(s) => s,
            Err(m) => return Err(LoadError::Schema { path: owned("submission"), message: m }),
        };
        if parsed.submission > FORMAT {
            return Err(LoadError::Invalid(owned("submission format is newer than this build understands")));
        }
        if parsed.items.len() == 0 && parsed.unrecognised.len() == 0 {
            return Err(LoadError::Invalid(owned("a submission with nothing in it is not a submission")));
        }
        check_ids(&parsed.items)?;
        if is_blank(parsed.observer.as_str()) {
            return Err(LoadError::Invalid(owned(
                "a submission needs an observer: two people agreeing is only evidence if you can tell them apart",
            )));
        }
        Ok(parsed)
    }
}

// ── What an observation proposes ────────────────────────────────────────

/// The grade a method offers.
pub open spec fn offered_level(m: Method) -> ConfidenceLevel {
    if offers_verified(m) {
        ConfidenceLevel::Verified
    } else {
        ConfidenceLevel::Unverified
    }
}

/// An observation can become an item: known names, exact decimals.
pub open spec fn observation_ok(o: ItemObservation) -> bool {
    &&& forall|i: int| 0 <= i < o.grants@.len() ==> parse_spec((#[trigger] o.grants@[i]).1@) is Ok
    &&& forall|i: int| 0 <= i < o.attributes@.len() ==> names_attribute((#[trigger] o.attributes@[i]).0@)
    &&& (o.rarity matches Some(r) ==> exists|x: Rarity| #[trigger] rarity_name(x) == r@)
    &&& (o.slot matches Some(n) ==> exists|x: Slot| #[trigger] slot_name(x) == n@)
    &&& (o.move_speed_add matches Some(m) ==> parse_spec(m@) is Ok)
}

/// The ids of printed grants.
pub open spec fn observed_ids(s: Seq<(String, String)>) -> Seq<Seq<char>> {
    s.map_values(|e: (String, String)| e.0@)
}

/// A grant table holds, for each stat, the last value written for it, at
/// the offered grade.
pub open spec fn observed_grants_as(m: IdMap<DerivedStatId, Confidence<Fixed>>, s: Seq<(String, String)>, level: ConfidenceLevel) -> bool {
    &&& m.wf()
    &&& forall|k: Seq<char>| #[trigger] m.view().contains_key(k) <==> crate::dataset::last_below(observed_ids(s), s.len() as int, k) >= 0
    &&& forall|k: Seq<char>| #[trigger] m.view().contains_key(k) ==> m.view()[k].spec_value()@ == parse_spec(
        s[crate::dataset::last_below(observed_ids(s), s.len() as int, k)].1@,
    )->Ok_0 && m.view()[k].spec_level() == level
}

/// The item an observation proposes.
pub open spec fn proposed_item(def: ItemDef, o: ItemObservation, m: Method) -> bool {
    &&& def.id@ == o.id@
    &&& def.name@ == o.name@
    &&& match (def.rarity, o.rarity) {
        (Some(x), Some(r)) => rarity_name(x) == r@,
        (None, None) => true,
        _ => false,
    }
    &&& class_slugs(def.required_classes@) == string_views(o.required_classes@)
    &&& match (def.slot, o.slot) {
        (Some(x), Some(n)) => slot_name(x) == n@,
        (None, None) => true,
        _ => false,
    }
    &&& if o.attributes@.len() == 0 {
        def.attributes is None
    } else {
        def.attributes matches Some(c) && c.spec_level() == offered_level(m) && attrs_as(c.spec_value()@, o.attributes@)
    }
    &&& observed_grants_as(def.grants, o.grants@, offered_level(m))
    &&& match (def.move_speed_add, o.move_speed_add) {
        (Some(c), Some(t)) => c.spec_value()@ == parse_spec(t@)->Ok_0 && c.spec_level() == offered_level(m),
        (None, None) => true,
        _ => false,
    }
    &&& def.weapon is None
}

/// A value at the grade a method offers.
fn graded(value: Fixed, method: Method) -> (r: Confidence<Fixed>)
    ensures
        r.spec_value() == value,
        r.spec_level() == offered_level(method),
{
    match method {
        Method::InGame | Method::ScreenshotTyped => Confidence::Verified(value),
        Method::ScreenshotOcr | Method::Documented => Confidence::Unverified(value),
    }
}

/// A message for a value that is not an exact decimal.
fn not_exact(id: &str, what: &str, raw: &str) -> (r: LoadError)
    ensures
        r matches LoadError::Invalid(m) && m@ == id@ + ": "@ + what@ + " \""@ + raw@
            + "\" is not an exact decimal of at most six fraction digits"@,
{
    let mut m: Vec<char> = Vec::new();
    append_chars(&mut m, id);
    append_chars(&mut m, ": ");
    append_chars(&mut m, what);
    append_chars(&mut m, " \"");
    append_chars(&mut m, raw);
    append_chars(&mut m, "\" is not an exact decimal of at most six fraction digits");
    LoadError::Invalid(string_of(&m))
}

impl ItemObservation {
    /// Turns an observation into the item definition it proposes, at the
    /// grade its method offers. An unknown attribute, rarity or slot name,
    /// or a value that is not an exact decimal, is refused: over-precision
    /// is refused rather than rounded, here as everywhere.
    pub fn to_item(&self, method: Method) -> (r: Result<ItemDef, LoadError>)
        ensures
            r is Ok <==> observation_ok(*self),
            r is Err ==> r->Err_0 is Invalid,
            r is Ok ==> proposed_item(r->Ok_0, *self, method),
    {
        let mut grants: IdMap<DerivedStatId, Confidence<Fixed>> = IdMap::new();
        let mut i: usize = 0;
        while i < self.grants.len()
            invariant
                i <= self.grants@.len(),
                grants.wf(),
                forall|j: int| 0 <= j < i ==> parse_spec((#[trigger] self.grants@[j]).1@) is Ok,
                forall|k: Seq<char>| #[trigger] grants.view().contains_key(k) <==> crate::dataset::last_below(observed_ids(self.grants@), i as int, k) >= 0,
                forall|k: Seq<char>| #[trigger] grants.view().contains_key(k) ==> grants.view()[k].spec_value()@ == parse_spec(
                    self.grants@[crate::dataset::last_below(observed_ids(self.grants@), i as int, k)].1@,
                )->Ok_0 && grants.view()[k].spec_level() == offered_level(method),
            decreases self.grants@.len() - i,
        {
            let stat = &self.grants[i].0;
            let raw = &self.grants[i].1;
            let v = match Fixed::parse_decimal(raw.as_str()) {
                Ok(v) => v,
                Err(_) => return Err(not_exact(self.id.as_str(), stat.as_str(), raw.as_str())),
            };
            let ghost before = grants.view();
            grants.insert(DerivedStatId::new(stat.as_str()), graded(v, method));
            proof {
                assert(observed_ids(self.grants@)[i as int] == stat@);
                assert forall|k: Seq<char>| #[trigger] grants.view().contains_key(k) <==> crate::dataset::last_below(observed_ids(self.grants@), i + 1, k) >= 0 by {
                    crate::dataset::lemma_last_below(observed_ids(self.grants@), i as int, k);
                }
                assert forall|k: Seq<char>| #[trigger] grants.view().contains_key(k) implies grants.view()[k].spec_value()@ == parse_spec(
                    self.grants@[crate::dataset::last_below(observed_ids(self.grants@), i + 1, k)].1@,
                )->Ok_0 && grants.view()[k].spec_level() == offered_level(method) by {
                    if k != stat@ {
                        assert(before.contains_key(k));
                    }
                }
            }
            i = i + 1;
        }
        let mut attributes: Vec<(AttributeKind, i32)> = Vec::new();
        let mut a: usize = 0;
        while a < self.attributes.len()
            invariant
                a <= self.attributes@.len(),
                attributes@.len() == a,
                forall|j: int| 0 <= j < a ==> names_attribute((#[trigger] self.attributes@[j]).0@),
                forall|j: int| 0 <= j < a ==> attribute_name((#[trigger] attributes@[j]).0) == self.attributes@[j].0@
                    && attributes@[j].1 == self.attributes@[j].1,
            decreases self.attributes@.len() - a,
        {
            let kind = match AttributeKind::parse(self.attributes[a].0.as_str()) {
                Some(k) => k,
                None => {
                    proof {
                        assert(!names_attribute(self.attributes@[a as int].0@));
                    }
                    let mut m: Vec<char> = Vec::new();
                    append_chars(&mut m, "unknown attribute: ");
                    append_chars(&mut m, self.attributes[a].0.as_str());
                    return Err(LoadError::Invalid(string_of(&m)));
                },
            };
            attributes.push((kind, self.attributes[a].1));
            a = a + 1;
        }
        let rarity = match &self.rarity {
            Some(t) => match Rarity::parse(t.as_str()) {
                Some(x) => Some(x),
                None => {
                    let mut m: Vec<char> = Vec::new();
                    append_chars(&mut m, self.id.as_str());
                    append_chars(&mut m, ": unknown rarity \"");
                    append_chars(&mut m, t.as_str());
                    append_chars(&mut m, "\"");
                    return Err(LoadError::Invalid(string_of(&m)));
                },
            },
            None => None,
        };
        let mut required_classes: Vec<ClassId> = Vec::new();
        let mut c: usize = 0;
        while c < self.required_classes.len()
            invariant
                c <= self.required_classes@.len(),
                class_slugs(required_classes@) == string_views(self.required_classes@.subrange(0, c as int)),
            decreases self.required_classes@.len() - c,
        {
            let ghost before = required_classes@;
            required_classes.push(ClassId::new(self.required_classes[c].as_str()));
            proof {
                assert(class_slugs(required_classes@) =~= class_slugs(before).push(self.required_classes@[c as int]@));
                assert(string_views(self.required_classes@.subrange(0, c + 1)) =~= string_views(self.required_classes@.subrange(0, c as int)).push(
                    self.required_classes@[c as int]@,
                ));
            }
            c = c + 1;
        }
        proof {
            assert(self.required_classes@.subrange(0, self.required_classes@.len() as int) =~= self.required_classes@);
        }
        let slot = match &self.slot {
            Some(n) => match Slot::parse(n.as_str()) {
                Some(x) => Some(x),
                None => {
                    let mut m: Vec<char> = Vec::new();
                    append_chars(&mut m, "unknown slot: ");
                    append_chars(&mut m, n.as_str());
                    return Err(LoadError::Invalid(string_of(&m)));
                },
            },
            None => None,
        };
        let move_speed_add = match &self.move_speed_add {
            Some(t) => match Fixed::parse_decimal(t.as_str()) {
                Ok(v) => Some(graded(v, method)),
                Err(_) => return Err(not_exact(self.id.as_str(), "moveSpeedAdd", t.as_str())),
            },
            None => None,
        };
        let printed = if attributes.len() == 0 {
            None
        } else {
            let lv = graded(Fixed::zero(), method);
            Some(match lv {
                Confidence::Verified(_) => Confidence::Verified(attributes),
                _ => Confidence::Unverified(attributes),
            })
        };
        Ok(ItemDef {
            id: ItemId::new(self.id.as_str()),
            name: owned(self.name.as_str()),
            rarity,
            required_classes,
            slot,
            attributes: printed,
            grants,
            move_speed_add,
            weapon: None,
        })
    }
}

} // verus!
