//! Documents: what a TOML or JSON file holds, as plain values, and the
//! typed reads the file formats are made of.
//!
//! The text is parsed by `toml` and `serde_json`; everything the formats
//! then demand of the result — which keys exist, which are required, what
//! type each value has — is checked here.

use vstd::prelude::*;

use crate::fixed::{digits_value, is_digit, digit_value};
use crate::text::{chars_of, owned, str_eq};

verus! {

/// `serde_json::Value`, which both parsers produce.
#[verifier::external_type_specification]
#[verifier::external_body]
pub struct ExJsonValue(serde_json::Value);

/// A parsed document.
#[derive(Debug)]
pub enum Doc {
    /// `null` (JSON only).
    Null,
    /// `true` or `false`.
    Bool(bool),
    /// A number, as the text the parser renders it with: `3`, `-30`, `2.5`.
    Number(String),
    /// A string.
    Str(String),
    /// An array.
    List(Vec<Doc>),
    /// A table, in key order.
    Table(Vec<(String, Doc)>),
}

/// What `serde_json::from_str` makes of a text: the document, or the
/// parser's message.
pub uninterp spec fn json_doc(text: Seq<char>) -> Result<Doc, Seq<char>>;

/// What `toml::from_str` makes of a text: the document, or the parser's
/// message.
pub uninterp spec fn toml_doc(text: Seq<char>) -> Result<Doc, Seq<char>>;

/// Converts a parsed value into a document, variant for variant.
#[verifier::external_body]
fn doc_of(v: &serde_json::Value) -> Doc {
    match v {
        serde_json::Value::Null => Doc::Null,
        serde_json::Value::Bool(b) => Doc::Bool(*b),
        serde_json::Value::Number(n) => Doc::Number(n.to_string()),
        serde_json::Value::String(s) => Doc::Str(s.clone()),
        serde_json::Value::Array(items) => Doc::List(items.iter().map(doc_of).collect()),
        serde_json::Value::Object(fields) => Doc::Table(fields.iter().map(|(k, x)| (k.clone(), doc_of(x))).collect()),
    }
}

/// Parses JSON text with `serde_json::from_str`. The result is the one
/// `serde_json` gives for this text; what that is, the crate decides.
#[verifier::external_body]
pub fn parse_json(text: &str) -> (r: Result<Doc, String>)
    ensures
        match r {
            Ok(d) => json_doc(text@) == Ok::<Doc, Seq<char>>(d),
            Err(m) => json_doc(text@) == Err::<Doc, Seq<char>>(m@),
        },
{
    match serde_json::from_str::<serde_json::Value>(text) {
        Ok(v) => Ok(doc_of(&v)),
        Err(e) => Err(e.to_string()),
    }
}

/// Parses TOML text with `toml::from_str`. The result is the one `toml`
/// gives for this text; what that is, the crate decides.
#[verifier::external_body]
pub fn parse_toml(text: &str) -> (r: Result<Doc, String>)
    ensures
        match r {
            Ok(d) => toml_doc(text@) == Ok::<Doc, Seq<char>>(d),
            Err(m) => toml_doc(text@) == Err::<Doc, Seq<char>>(m@),
        },
{
    match toml::from_str::<serde_json::Value>(text) {
        Ok(v) => Ok(doc_of(&v)),
        Err(e) => Err(e.to_string()),
    }
}

// ── Reading a table ─────────────────────────────────────────────────────

/// The value under a key: the first entry carrying it.
pub open spec fn lookup(t: Seq<(String, Doc)>, key: Seq<char>) -> Option<Doc>
    decreases t.len(),
{
    if t.len() == 0 {
        None
    } else if t[0].0@ == key {
        Some(t[0].1)
    } else {
        lookup(t.drop_first(), key)
    }
}

/// The texts of a run of string slices.
pub open spec fn strs(a: Seq<&str>) -> Seq<Seq<char>> {
    a.map_values(|s: &str| s@)
}

/// Every key of a table is one the format defines.
pub open spec fn keys_within(t: Seq<(String, Doc)>, allowed: Seq<Seq<char>>) -> bool {
    forall|i: int| 0 <= i < t.len() ==> allowed.contains(#[trigger] t[i].0@)
}

/// The value under a key, if any.
pub fn get<'a>(t: &'a Vec<(String, Doc)>, key: &str) -> (r: Option<&'a Doc>)
    ensures
        match r {
            Some(d) => lookup(t@, key@) == Some(*d),
            None => lookup(t@, key@) is None,
        },
{
    let mut i: usize = 0;
    proof {
        assert(t@.subrange(0, t@.len() as int) =~= t@);
    }
    while i < t.len()
        invariant
            i <= t@.len(),
            lookup(t@, key@) == lookup(t@.subrange(i as int, t@.len() as int), key@),
        decreases t@.len() - i,
    {
        let ghost rest = t@.subrange(i as int, t@.len() as int);
        proof {
            assert(rest[0] == t@[i as int]);
        }
        if str_eq(t[i].0.as_str(), key) {
            return Some(&t[i].1);
        }
        proof {
            assert(rest.drop_first() =~= t@.subrange(i + 1, t@.len() as int));
        }
        i = i + 1;
    }
    None
}

/// The first key of a table that the format does not define, if any.
pub fn unknown_key(t: &Vec<(String, Doc)>, allowed: &[&str]) -> (r: Option<String>)
    ensures
        r is None <==> keys_within(t@, strs(allowed@)),
        r is Some ==> !strs(allowed@).contains(r->0@) && exists|i: int| 0 <= i < t@.len() && (#[trigger] t@[i]).0@ == r->0@,
{
    let mut i: usize = 0;
    while i < t.len()
        invariant
            i <= t@.len(),
            forall|j: int| 0 <= j < i ==> strs(allowed@).contains(#[trigger] t@[j].0@),
        decreases t@.len() - i,
    {
        let key = t[i].0.as_str();
        let mut found = false;
        let mut k: usize = 0;
        while k < allowed.len()
            invariant
                k <= allowed@.len(),
                found ==> strs(allowed@).contains(key@),
                !found ==> forall|m: int| 0 <= m < k ==> (#[trigger] allowed@[m])@ != key@,
            decreases allowed@.len() - k,
        {
            if !found && str_eq(allowed[k], key) {
                found = true;
                proof {
                    assert(strs(allowed@)[k as int] == key@);
                }
            }
            k = k + 1;
        }
        if !found {
            proof {
                assert(!strs(allowed@).contains(key@)) by {
                    if strs(allowed@).contains(key@) {
                        let m = choose|m: int| 0 <= m < strs(allowed@).len() && strs(allowed@)[m] == key@;
                        assert(allowed@[m]@ == key@);
                    }
                }
            }
            return Some(owned(key));
        }
        i = i + 1;
    }
    None
}

// ── Typed reads ─────────────────────────────────────────────────────────

/// An optional text: absent or null is none, a string is its text, and
/// anything else is refused.
pub open spec fn opt_text(d: Option<Doc>) -> Option<Option<Seq<char>>> {
    match d {
        None => Some(None),
        Some(Doc::Null) => Some(None),
        Some(Doc::Str(s)) => Some(Some(s@)),
        _ => None,
    }
}

/// An optional string as its text.
pub open spec fn opt_view(s: Option<String>) -> Option<Seq<char>> {
    match s {
        Some(x) => Some(x@),
        None => None,
    }
}

/// Reads an optional text field; `None` when it is present and not a
/// string.
pub fn text_field(t: &Vec<(String, Doc)>, key: &str) -> (r: Option<Option<String>>)
    ensures
        r is Some <==> opt_text(lookup(t@, key@)) is Some,
        r is Some ==> opt_view(r->0) == opt_text(lookup(t@, key@))->0,
{
    match get(t, key) {
        None => Some(None),
        Some(Doc::Null) => Some(None),
        Some(Doc::Str(s)) => Some(Some(owned(s.as_str()))),
        Some(_) => None,
    }
}

/// The texts of a list of strings, if every element is one.
pub open spec fn list_texts(items: Seq<Doc>) -> Option<Seq<Seq<char>>>
    decreases items.len(),
{
    if items.len() == 0 {
        Some(Seq::empty())
    } else {
        match (list_texts(items.drop_last()), items.last()) {
            (Some(prefix), Doc::Str(s)) => Some(prefix.push(s@)),
            _ => None,
        }
    }
}

/// An optional list of texts: absent or null is the empty list.
pub open spec fn opt_text_list(d: Option<Doc>) -> Option<Seq<Seq<char>>> {
    match d {
        None => Some(Seq::empty()),
        Some(Doc::Null) => Some(Seq::empty()),
        Some(Doc::List(items)) => list_texts(items@),
        _ => None,
    }
}

/// Reads an optional list of texts; `None` when it is present and not a
/// list of strings.
pub fn text_list_field(t: &Vec<(String, Doc)>, key: &str) -> (r: Option<Vec<String>>)
    ensures
        r is Some <==> opt_text_list(lookup(t@, key@)) is Some,
        r is Some ==> crate::text::string_views(r->0@) == opt_text_list(lookup(t@, key@))->0,
{
    let found = get(t, key);
    if found.is_none() {
        return Some(Vec::new());
    }
    let d = found.unwrap();
    let items = match d {
        Doc::Null => {
            return Some(Vec::new());
        },
        Doc::List(items) => items,
        _ => {
            return None;
        },
    };
    assert(lookup(t@, key@) == Some(Doc::List(*items)));
    let mut out: Vec<String> = Vec::new();
    let mut i: usize = 0;
    proof {
        assert(items@.subrange(0, 0) =~= Seq::<Doc>::empty());
        assert(crate::text::string_views(out@) =~= Seq::<Seq<char>>::empty());
    }
    while i < items.len()
        invariant
            i <= items@.len(),
            list_texts(items@.subrange(0, i as int)) == Some(crate::text::string_views(out@)),
            lookup(t@, key@) == Some(Doc::List(*items)),
        decreases items@.len() - i,
    {
        proof {
            assert(items@.subrange(0, i + 1).drop_last() =~= items@.subrange(0, i as int));
        }
        match &items[i] {
            Doc::Str(s) => {
                let ghost before = out@;
                let x = owned(s.as_str());
                out.push(x);
                proof {
                    assert(crate::text::string_views(out@) =~= crate::text::string_views(before).push(x@));
                }
            },
            _ => {
                proof {
                    assert(items@.subrange(0, i + 1).last() == items@[i as int]);
                lemma_texts_none_extends(items@, i as int + 1);
                }
                return None;
            },
        }
        i = i + 1;
    }
    proof {
        assert(items@.subrange(0, items@.len() as int) =~= items@);
    }
    Some(out)
}

/// Once a prefix of a list is not all strings, neither is the list.
proof fn lemma_texts_none_extends(items: Seq<Doc>, k: int)
    requires
        0 <= k <= items.len(),
        list_texts(items.subrange(0, k)) is None,
    ensures
        list_texts(items) is None,
    decreases items.len() - k,
{
    if k < items.len() {
        assert(items.subrange(0, k + 1).drop_last() =~= items.subrange(0, k));
        lemma_texts_none_extends(items, k + 1);
    } else {
        assert(items.subrange(0, k) =~= items);
    }
}

/// An optional table: absent or null is none, and anything else but a
/// table is refused.
pub open spec fn opt_table(d: Option<Doc>) -> Option<Option<Seq<(String, Doc)>>> {
    match d {
        None => Some(None),
        Some(Doc::Null) => Some(None),
        Some(Doc::Table(t)) => Some(Some(t@)),
        _ => None,
    }
}

/// Reads an optional table field; `None` when it is present and not a
/// table.
pub fn table_field<'a>(t: &'a Vec<(String, Doc)>, key: &str) -> (r: Option<Option<&'a Vec<(String, Doc)>>>)
    ensures
        r is Some <==> opt_table(lookup(t@, key@)) is Some,
        r is Some ==> match r->0 {
            Some(x) => opt_table(lookup(t@, key@))->0 == Some(x@),
            None => opt_table(lookup(t@, key@))->0 is None,
        },
{
    match get(t, key) {
        None => Some(None),
        Some(Doc::Null) => Some(None),
        Some(Doc::Table(x)) => Some(Some(x)),
        Some(_) => None,
    }
}

// ── Whole numbers ───────────────────────────────────────────────────────

/// The whole number a text spells: an optional `-`, then one or more
/// digits and nothing else.
pub open spec fn integer_text(s: Seq<char>) -> Option<int> {
    let negative = s.len() > 0 && s[0] == '-';
    let ds = if negative { s.drop_first() } else { s };
    if ds.len() == 0 {
        None
    } else {
        match digits_value(ds) {
            Some(v) => Some(if negative { -v } else { v }),
            None => None,
        }
    }
}

/// A whole number in a range, from a number's text.
pub open spec fn integer_in(s: Seq<char>, lo: int, hi: int) -> Option<int> {
    match integer_text(s) {
        Some(v) => if lo <= v <= hi { Some(v) } else { None },
        None => None,
    }
}

/// A digit string's value never falls as digits are added.
proof fn lemma_digits_grow(ds: Seq<char>, k: int)
    requires
        0 <= k <= ds.len(),
        digits_value(ds) is Some,
    ensures
        digits_value(ds.subrange(0, k)) is Some,
        digits_value(ds.subrange(0, k))->0 <= digits_value(ds)->0,
        digits_value(ds)->0 >= 0,
    decreases ds.len(),
{
    if ds.len() > 0 {
        assert(ds.drop_last() =~= ds.subrange(0, ds.len() - 1));
        if k == ds.len() {
            assert(ds.subrange(0, k) =~= ds);
            lemma_digits_grow(ds.drop_last(), 0);
        } else {
            lemma_digits_grow(ds.drop_last(), k);
            assert(ds.drop_last().subrange(0, k) =~= ds.subrange(0, k));
        }
    } else {
        assert(ds.subrange(0, k) =~= ds);
    }
}

/// Reads the whole number a text spells, if it lies in `[lo, hi]`.
pub fn integer_of(s: &str, lo: i64, hi: i64) -> (r: Option<i64>)
    ensures
        match integer_in(s@, lo as int, hi as int) {
            Some(v) => r == Some(v as i64),
            None => r is None,
        },
{
    let cs = chars_of(s);
    let negative = cs.len() > 0 && cs[0] == '-';
    let start: usize = if negative { 1 } else { 0 };
    if cs.len() <= start {
        return None;
    }
    let ghost ds = if negative { s@.drop_first() } else { s@ };
    proof {
        assert(ds =~= cs@.subrange(start as int, cs@.len() as int));
        assert(ds.subrange(0, 0) =~= Seq::<char>::empty());
    }
    // Accumulate in i128; past this bound no whole number fits an i64.
    let bound: i128 = 10_000_000_000_000_000_000;
    let mut acc: i128 = 0;
    let mut i: usize = start;
    while i < cs.len()
        invariant
            start <= i <= cs@.len(),
            cs@ == s@,
            negative == (s@.len() > 0 && s@[0] == '-'),
            start == (if negative { 1usize } else { 0usize }),
            ds == (if negative { s@.drop_first() } else { s@ }),
            bound == 10_000_000_000_000_000_000i128,
            ds == cs@.subrange(start as int, cs@.len() as int),
            digits_value(ds.subrange(0, i - start)) == Some(acc as int),
            0 <= acc <= bound,
        decreases cs@.len() - i,
    {
        let c = cs[i];
        proof {
            assert(ds.subrange(0, i + 1 - start).drop_last() =~= ds.subrange(0, i - start));
            assert(ds.subrange(0, i + 1 - start).last() == c);
        }
        if !('0' <= c && c <= '9') {
            proof {
                lemma_digits_none_extends(ds, i + 1 - start);
            }
            return None;
        }
        let d = (c as u32 - '0' as u32) as i128;
        acc = acc * 10 + d;
        if acc > bound {
            proof {
                if digits_value(ds) is Some {
                    lemma_digits_grow(ds, i + 1 - start);
                }
            }
            return None;
        }
        i = i + 1;
    }
    proof {
        assert(ds.subrange(0, ds.len() as int) =~= ds);
    }
    let v: i128 = if negative { -acc } else { acc };
    if v < lo as i128 || v > hi as i128 {
        return None;
    }
    Some(v as i64)
}

/// Reads a non-negative whole number in the `u64` range.
pub fn count_of_text(s: &str) -> (r: Option<u64>)
    ensures
        match integer_in(s@, 0, u64::MAX as int) {
            Some(v) => r == Some(v as u64),
            None => r is None,
        },
{
    let cs = chars_of(s);
    let negative = cs.len() > 0 && cs[0] == '-';
    let start: usize = if negative { 1 } else { 0 };
    if cs.len() <= start {
        return None;
    }
    let ghost ds = if negative { s@.drop_first() } else { s@ };
    proof {
        assert(ds =~= cs@.subrange(start as int, cs@.len() as int));
        assert(ds.subrange(0, 0) =~= Seq::<char>::empty());
    }
    // Accumulate in i128; past this bound no whole number fits a u64.
    let bound: i128 = 100_000_000_000_000_000_000;
    let mut acc: i128 = 0;
    let mut i: usize = start;
    while i < cs.len()
        invariant
            start <= i <= cs@.len(),
            cs@ == s@,
            negative == (s@.len() > 0 && s@[0] == '-'),
            start == (if negative { 1usize } else { 0usize }),
            ds == (if negative { s@.drop_first() } else { s@ }),
            bound == 100_000_000_000_000_000_000i128,
            ds == cs@.subrange(start as int, cs@.len() as int),
            digits_value(ds.subrange(0, i - start)) == Some(acc as int),
            0 <= acc <= bound,
        decreases cs@.len() - i,
    {
        let c = cs[i];
        proof {
            assert(ds.subrange(0, i + 1 - start).drop_last() =~= ds.subrange(0, i - start));
            assert(ds.subrange(0, i + 1 - start).last() == c);
        }
        if !('0' <= c && c <= '9') {
            proof {
                lemma_digits_none_extends(ds, i + 1 - start);
            }
            return None;
        }
        let d = (c as u32 - '0' as u32) as i128;
        acc = acc * 10 + d;
        if acc > bound {
            proof {
                if digits_value(ds) is Some {
                    lemma_digits_grow(ds, i + 1 - start);
                }
            }
            return None;
        }
        i = i + 1;
    }
    proof {
        assert(ds.subrange(0, ds.len() as int) =~= ds);
    }
    let v: i128 = if negative { -acc } else { acc };
    if v < 0 || v > u64::MAX as i128 {
        return None;
    }
    Some(v as u64)
}

/// Once a prefix is not all digits, neither is the text.
proof fn lemma_digits_none_extends(ds: Seq<char>, k: int)
    requires
        0 <= k <= ds.len(),
        digits_value(ds.subrange(0, k)) is None,
    ensures
        digits_value(ds) is None,
    decreases ds.len() - k,
{
    if k < ds.len() {
        assert(ds.subrange(0, k + 1).drop_last() =~= ds.subrange(0, k));
        lemma_digits_none_extends(ds, k + 1);
    } else {
        assert(ds.subrange(0, k) =~= ds);
    }
}

/// An optional whole number in `[lo, hi]`: absent or null is none, and
/// anything but such a number is refused.
pub open spec fn opt_integer(d: Option<Doc>, lo: int, hi: int) -> Option<Option<int>> {
    match d {
        None => Some(None),
        Some(Doc::Null) => Some(None),
        Some(Doc::Number(s)) => match integer_in(s@, lo, hi) {
            Some(v) => Some(Some(v)),
            None => None,
        },
        _ => None,
    }
}

/// Reads an optional whole-number field in `[lo, hi]`; `None` when it is
/// present and not such a number.
pub fn integer_field(t: &Vec<(String, Doc)>, key: &str, lo: i64, hi: i64) -> (r: Option<Option<i64>>)
    ensures
        r is Some <==> opt_integer(lookup(t@, key@), lo as int, hi as int) is Some,
        r is Some ==> match r->0 {
            Some(v) => opt_integer(lookup(t@, key@), lo as int, hi as int)->0 == Some(v as int),
            None => opt_integer(lookup(t@, key@), lo as int, hi as int)->0 is None,
        },
{
    match get(t, key) {
        None => Some(None),
        Some(Doc::Null) => Some(None),
        Some(Doc::Number(s)) => match integer_of(s.as_str(), lo, hi) {
            Some(v) => Some(Some(v)),
            None => None,
        },
        Some(_) => None,
    }
}

/// An optional truth value: absent or null is none.
pub open spec fn opt_bool(d: Option<Doc>) -> Option<Option<bool>> {
    match d {
        None => Some(None),
        Some(Doc::Null) => Some(None),
        Some(Doc::Bool(b)) => Some(Some(b)),
        _ => None,
    }
}

/// An optional list: absent or null is none.
pub open spec fn opt_list(d: Option<Doc>) -> Option<Option<Seq<Doc>>> {
    match d {
        None => Some(None),
        Some(Doc::Null) => Some(None),
        Some(Doc::List(items)) => Some(Some(items@)),
        _ => None,
    }
}

/// The items of an optional list, empty when absent.
pub open spec fn items_or_empty(d: Option<Doc>) -> Seq<Doc> {
    match opt_list(d) {
        Some(Some(items)) => items,
        _ => Seq::empty(),
    }
}

/// Reads an optional list field; `None` when it is present and not a list.
pub fn list_field<'a>(t: &'a Vec<(String, Doc)>, key: &str) -> (r: Option<Option<&'a Vec<Doc>>>)
    ensures
        r is Some <==> opt_list(lookup(t@, key@)) is Some,
        r is Some ==> match r->0 {
            Some(x) => opt_list(lookup(t@, key@))->0 == Some(x@),
            None => opt_list(lookup(t@, key@))->0 is None,
        },
{
    match get(t, key) {
        None => Some(None),
        Some(Doc::Null) => Some(None),
        Some(Doc::List(x)) => Some(Some(x)),
        Some(_) => None,
    }
}

// ── Required and optional fields, with the message a refusal carries ────

/// A present text field.
pub open spec fn has_text(t: Seq<(String, Doc)>, key: Seq<char>) -> bool {
    opt_text(lookup(t, key)) matches Some(Some(_))
}

/// The text of a present text field.
pub open spec fn text_at(t: Seq<(String, Doc)>, key: Seq<char>) -> Seq<char> {
    opt_text(lookup(t, key))->0->0
}

/// An optional text field, absent or a string.
pub open spec fn may_text(t: Seq<(String, Doc)>, key: Seq<char>) -> bool {
    opt_text(lookup(t, key)) is Some
}

/// The text of an optional text field.
pub open spec fn opt_text_at(t: Seq<(String, Doc)>, key: Seq<char>) -> Option<Seq<char>> {
    opt_text(lookup(t, key))->0
}

/// A present whole-number field in `[lo, hi]`.
pub open spec fn has_int(t: Seq<(String, Doc)>, key: Seq<char>, lo: int, hi: int) -> bool {
    opt_integer(lookup(t, key), lo, hi) matches Some(Some(_))
}

/// The number of a present whole-number field.
pub open spec fn int_at(t: Seq<(String, Doc)>, key: Seq<char>, lo: int, hi: int) -> int {
    opt_integer(lookup(t, key), lo, hi)->0->0
}

/// An optional whole-number field in `[lo, hi]`.
pub open spec fn may_int(t: Seq<(String, Doc)>, key: Seq<char>, lo: int, hi: int) -> bool {
    opt_integer(lookup(t, key), lo, hi) is Some
}

/// The number of an optional whole-number field.
pub open spec fn opt_int_at(t: Seq<(String, Doc)>, key: Seq<char>, lo: int, hi: int) -> Option<int> {
    opt_integer(lookup(t, key), lo, hi)->0
}

/// An optional number as a whole number.
pub open spec fn opt_i64_view(v: Option<i64>) -> Option<int> {
    match v {
        Some(x) => Some(x as int),
        None => None,
    }
}

/// The message a field that is missing or of the wrong type is refused
/// with.
pub open spec fn field_message(key: Seq<char>) -> Seq<char> {
    "missing or invalid `"@ + key + "`"@
}

/// The refusal message for a field.
pub fn field_error(key: &str) -> (r: String)
    ensures
        r@ == field_message(key@),
{
    let mut m: Vec<char> = Vec::new();
    crate::text::append_chars(&mut m, "missing or invalid `");
    crate::text::append_chars(&mut m, key);
    crate::text::append_chars(&mut m, "`");
    crate::text::string_of(&m)
}

/// Reads a required text field.
pub fn req_text(t: &Vec<(String, Doc)>, key: &str) -> (r: Result<String, String>)
    ensures
        r is Ok <==> has_text(t@, key@),
        r is Ok ==> r->Ok_0@ == text_at(t@, key@),
        r is Err ==> r->Err_0@ == field_message(key@),
{
    match text_field(t, key) {
        Some(Some(s)) => Ok(s),
        _ => Err(field_error(key)),
    }
}

/// Reads an optional text field.
pub fn may_text_field(t: &Vec<(String, Doc)>, key: &str) -> (r: Result<Option<String>, String>)
    ensures
        r is Ok <==> may_text(t@, key@),
        r is Ok ==> opt_view(r->Ok_0) == opt_text_at(t@, key@),
        r is Err ==> r->Err_0@ == field_message(key@),
{
    match text_field(t, key) {
        Some(v) => Ok(v),
        None => Err(field_error(key)),
    }
}

/// Reads a required whole-number field in `[lo, hi]`.
pub fn req_int(t: &Vec<(String, Doc)>, key: &str, lo: i64, hi: i64) -> (r: Result<i64, String>)
    ensures
        r is Ok <==> has_int(t@, key@, lo as int, hi as int),
        r is Ok ==> r->Ok_0 == int_at(t@, key@, lo as int, hi as int),
        r is Ok ==> lo <= r->Ok_0 <= hi,
        r is Err ==> r->Err_0@ == field_message(key@),
{
    match integer_field(t, key, lo, hi) {
        Some(Some(v)) => Ok(v),
        _ => Err(field_error(key)),
    }
}

/// Reads an optional whole-number field in `[lo, hi]`.
pub fn may_int_field(t: &Vec<(String, Doc)>, key: &str, lo: i64, hi: i64) -> (r: Result<Option<i64>, String>)
    ensures
        r is Ok <==> may_int(t@, key@, lo as int, hi as int),
        r is Ok ==> opt_i64_view(r->Ok_0) == opt_int_at(t@, key@, lo as int, hi as int),
        r matches Ok(Some(v)) ==> lo <= v <= hi,
        r is Err ==> r->Err_0@ == field_message(key@),
{
    match integer_field(t, key, lo, hi) {
        Some(v) => Ok(v),
        None => Err(field_error(key)),
    }
}

/// Reads a required truth-value field.
pub fn req_bool(t: &Vec<(String, Doc)>, key: &str) -> (r: Result<bool, String>)
    ensures
        r is Ok <==> opt_bool(lookup(t@, key@)) matches Some(Some(_)),
        r is Ok ==> Some(r->Ok_0) == opt_bool(lookup(t@, key@))->0,
        r is Err ==> r->Err_0@ == field_message(key@),
{
    match get(t, key) {
        Some(Doc::Bool(b)) => Ok(*b),
        _ => Err(field_error(key)),
    }
}

/// Reads an optional list of texts, refusing anything else.
pub fn may_text_list(t: &Vec<(String, Doc)>, key: &str) -> (r: Result<Vec<String>, String>)
    ensures
        r is Ok <==> opt_text_list(lookup(t@, key@)) is Some,
        r is Ok ==> crate::text::string_views(r->Ok_0@) == opt_text_list(lookup(t@, key@))->0,
        r is Err ==> r->Err_0@ == field_message(key@),
{
    match text_list_field(t, key) {
        Some(v) => Ok(v),
        None => Err(field_error(key)),
    }
}

/// Refuses a table with a key the format does not define.
pub fn only_keys(t: &Vec<(String, Doc)>, allowed: &[&str]) -> (r: Result<(), String>)
    ensures
        r is Ok <==> keys_within(t@, strs(allowed@)),
{
    match unknown_key(t, allowed) {
        Some(k) => {
            let mut m: Vec<char> = Vec::new();
            crate::text::append_chars(&mut m, "unknown field `");
            crate::text::append_chars(&mut m, k.as_str());
            crate::text::append_chars(&mut m, "`");
            Err(crate::text::string_of(&m))
        },
        None => Ok(()),
    }
}

// ── Tables of whole numbers ─────────────────────────────────────────────

/// Every value of a table is a whole number in `[lo, hi]`.
pub open spec fn all_integers(t: Seq<(String, Doc)>, lo: int, hi: int) -> bool {
    forall|i: int| 0 <= i < t.len() ==> ((#[trigger] t[i]).1 matches Doc::Number(s) && integer_in(s@, lo, hi) is Some)
}

/// The whole number a number document spells.
pub open spec fn integer_text_of(d: Doc) -> int {
    match d {
        Doc::Number(s) => integer_text(s@)->0,
        _ => 0,
    }
}

/// The entries of a table of whole numbers.
pub open spec fn integer_pairs_of(t: Seq<(String, Doc)>) -> Seq<(Seq<char>, int)> {
    t.map_values(|e: (String, Doc)| (e.0@, integer_text_of(e.1)))
}

/// Pairs of a string and a number as texts and numbers.
pub open spec fn int_pair_views(p: Seq<(String, i64)>) -> Seq<(Seq<char>, int)> {
    p.map_values(|e: (String, i64)| (e.0@, e.1 as int))
}

/// Pairs of a string and a signed count as texts and numbers.
pub open spec fn points_views(p: Seq<(String, i32)>) -> Seq<(Seq<char>, int)> {
    p.map_values(|e: (String, i32)| (e.0@, e.1 as int))
}

/// The entries of an optional table of whole numbers, empty when absent.
pub open spec fn int_entries(d: Option<Doc>) -> Seq<(Seq<char>, int)> {
    match opt_table(d) {
        Some(Some(t)) => integer_pairs_of(t),
        _ => Seq::empty(),
    }
}

/// An optional table of whole numbers in `[lo, hi]`.
pub open spec fn opt_table_with_integers(d: Option<Doc>, lo: int, hi: int) -> bool {
    match opt_table(d) {
        None => false,
        Some(None) => true,
        Some(Some(t)) => all_integers(t, lo, hi),
    }
}

/// The entries of a table of whole numbers in `[lo, hi]`; `None` when a
/// value is not one.
pub fn integer_pairs(t: &Vec<(String, Doc)>, lo: i64, hi: i64) -> (r: Option<Vec<(String, i64)>>)
    ensures
        r is Some <==> all_integers(t@, lo as int, hi as int),
        r is Some ==> int_pair_views(r->0@) == integer_pairs_of(t@),
        r is Some ==> forall|j: int| 0 <= j < r->0@.len() ==> lo <= (#[trigger] r->0@[j]).1 <= hi,
{
    let mut out: Vec<(String, i64)> = Vec::new();
    let mut i: usize = 0;
    while i < t.len()
        invariant
            i <= t@.len(),
            out@.len() == i,
            forall|j: int| 0 <= j < i ==> ((#[trigger] t@[j]).1 matches Doc::Number(s) && integer_in(s@, lo as int, hi as int) is Some),
            forall|j: int| 0 <= j < i ==> #[trigger] int_pair_views(out@)[j] == integer_pairs_of(t@)[j],
            forall|j: int| 0 <= j < i ==> lo <= (#[trigger] out@[j]).1 <= hi,
        decreases t@.len() - i,
    {
        match &t[i].1 {
            Doc::Number(s) => match integer_of(s.as_str(), lo, hi) {
                Some(v) => {
                    let ghost before = out@;
                    out.push((owned(t[i].0.as_str()), v));
                    proof {
                        assert forall|j: int| 0 <= j < i + 1 implies #[trigger] int_pair_views(out@)[j] == integer_pairs_of(t@)[j] by {
                            if j < i {
                                assert(out@[j] == before[j]);
                                assert(int_pair_views(before)[j] == integer_pairs_of(t@)[j]);
                            }
                        }
                    }
                },
                None => return None,
            },
            _ => return None,
        }
        i = i + 1;
    }
    proof {
        assert(int_pair_views(out@) =~= integer_pairs_of(t@));
    }
    Some(out)
}

/// The same pairs with signed counts.
pub fn narrow_points(p: Vec<(String, i64)>) -> (r: Vec<(String, i32)>)
    requires
        forall|j: int| 0 <= j < p@.len() ==> i32::MIN <= (#[trigger] p@[j]).1 <= i32::MAX,
    ensures
        points_views(r@) == int_pair_views(p@),
{
    let mut out: Vec<(String, i32)> = Vec::new();
    let mut i: usize = 0;
    while i < p.len()
        invariant
            i <= p@.len(),
            out@.len() == i,
            forall|j: int| 0 <= j < p@.len() ==> i32::MIN <= (#[trigger] p@[j]).1 <= i32::MAX,
            forall|j: int| 0 <= j < i ==> #[trigger] points_views(out@)[j] == int_pair_views(p@)[j],
        decreases p@.len() - i,
    {
        let ghost before = out@;
        out.push((owned(p[i].0.as_str()), p[i].1 as i32));
        proof {
            assert forall|j: int| 0 <= j < i + 1 implies #[trigger] points_views(out@)[j] == int_pair_views(p@)[j] by {
                if j < i {
                    assert(out@[j] == before[j]);
                    assert(points_views(before)[j] == int_pair_views(p@)[j]);
                }
            }
        }
        i = i + 1;
    }
    proof {
        assert(points_views(out@) =~= int_pair_views(p@));
    }
    out
}

/// Reads an optional table of signed counts, refusing anything else.
pub fn may_points(t: &Vec<(String, Doc)>, key: &str) -> (r: Result<Vec<(String, i32)>, String>)
    ensures
        r is Ok <==> opt_table_with_integers(lookup(t@, key@), i32::MIN as int, i32::MAX as int),
        r is Ok ==> points_views(r->Ok_0@) == int_entries(lookup(t@, key@)),
        r is Err ==> r->Err_0@ == field_message(key@),
{
    match table_field(t, key) {
        None => Err(field_error(key)),
        Some(None) => Ok(Vec::new()),
        Some(Some(a)) => match integer_pairs(a, i32::MIN as i64, i32::MAX as i64) {
            Some(p) => {
                let v = narrow_points(p);
                proof {
                    assert(points_views(v@) =~= int_entries(lookup(t@, key@)));
                }
                Ok(v)
            },
            None => Err(field_error(key)),
        },
    }
}

/// Reads a required list field.
pub fn req_list<'a>(t: &'a Vec<(String, Doc)>, key: &str) -> (r: Result<&'a Vec<Doc>, String>)
    ensures
        r is Ok <==> opt_list(lookup(t@, key@)) matches Some(Some(_)),
        r is Ok ==> opt_list(lookup(t@, key@)) == Some(Some(r->Ok_0@)),
        r is Err ==> r->Err_0@ == field_message(key@),
{
    match get(t, key) {
        Some(Doc::List(x)) => Ok(x),
        _ => Err(field_error(key)),
    }
}

/// Reads a required table of signed counts.
pub fn req_points(t: &Vec<(String, Doc)>, key: &str) -> (r: Result<Vec<(String, i32)>, String>)
    ensures
        r is Ok <==> (opt_table(lookup(t@, key@)) matches Some(Some(_))
            && opt_table_with_integers(lookup(t@, key@), i32::MIN as int, i32::MAX as int)),
        r is Ok ==> points_views(r->Ok_0@) == int_entries(lookup(t@, key@)),
        r is Err ==> r->Err_0@ == field_message(key@),
{
    match get(t, key) {
        Some(Doc::Table(_)) => may_points(t, key),
        _ => Err(field_error(key)),
    }
}

// ── Tables of strings ───────────────────────────────────────────────────

/// Every value of a table is a string.
pub open spec fn all_strings(t: Seq<(String, Doc)>) -> bool {
    forall|i: int| 0 <= i < t.len() ==> (#[trigger] t[i]).1 is Str
}

/// An optional table of strings.
pub open spec fn opt_table_with_strings(d: Option<Doc>) -> bool {
    match opt_table(d) {
        None => false,
        Some(None) => true,
        Some(Some(t)) => all_strings(t),
    }
}

/// The entries of a table of strings.
pub open spec fn string_pairs_of(t: Seq<(String, Doc)>) -> Seq<(Seq<char>, Seq<char>)> {
    t.map_values(|e: (String, Doc)| (e.0@, e.1->Str_0@))
}

/// The entries of an optional table of strings, empty when absent.
pub open spec fn str_entries(d: Option<Doc>) -> Seq<(Seq<char>, Seq<char>)> {
    match opt_table(d) {
        Some(Some(t)) => string_pairs_of(t),
        _ => Seq::empty(),
    }
}

/// Pairs of strings as texts.
pub open spec fn str_pair_views(p: Seq<(String, String)>) -> Seq<(Seq<char>, Seq<char>)> {
    p.map_values(|e: (String, String)| (e.0@, e.1@))
}

/// The entries of a table of strings; `None` when a value is not one.
pub fn string_pairs(t: &Vec<(String, Doc)>) -> (r: Option<Vec<(String, String)>>)
    ensures
        r is Some <==> all_strings(t@),
        r is Some ==> str_pair_views(r->0@) == string_pairs_of(t@),
{
    let mut out: Vec<(String, String)> = Vec::new();
    let mut i: usize = 0;
    while i < t.len()
        invariant
            i <= t@.len(),
            out@.len() == i,
            forall|j: int| 0 <= j < i ==> (#[trigger] t@[j]).1 is Str,
            forall|j: int| 0 <= j < i ==> #[trigger] str_pair_views(out@)[j] == string_pairs_of(t@)[j],
        decreases t@.len() - i,
    {
        match &t[i].1 {
            Doc::Str(v) => {
                let ghost before = out@;
                out.push((owned(t[i].0.as_str()), owned(v.as_str())));
                proof {
                    assert forall|j: int| 0 <= j < i + 1 implies #[trigger] str_pair_views(out@)[j] == string_pairs_of(t@)[j] by {
                        if j < i {
                            assert(out@[j] == before[j]);
                            assert(str_pair_views(before)[j] == string_pairs_of(t@)[j]);
                        }
                    }
                }
            },
            _ => return None,
        }
        i = i + 1;
    }
    proof {
        assert(str_pair_views(out@) =~= string_pairs_of(t@));
    }
    Some(out)
}

/// Reads an optional table of strings, refusing anything else.
pub fn may_strings(t: &Vec<(String, Doc)>, key: &str) -> (r: Result<Vec<(String, String)>, String>)
    ensures
        r is Ok <==> opt_table_with_strings(lookup(t@, key@)),
        r is Ok ==> str_pair_views(r->Ok_0@) == str_entries(lookup(t@, key@)),
        r is Err ==> r->Err_0@ == field_message(key@),
{
    match table_field(t, key) {
        None => Err(field_error(key)),
        Some(None) => Ok(Vec::new()),
        Some(Some(a)) => match string_pairs(a) {
            Some(p) => Ok(p),
            None => Err(field_error(key)),
        },
    }
}

} // verus!
