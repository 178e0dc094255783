//! Writing a submission: the document a submission makes, field for field,
//! and its pretty JSON text, the one a person looks at and sends on.
//!
//! Fields come in declaration order under their camelCase names. An absent
//! note, slot or move speed, and an empty list or table, are left out; an
//! absent rarity is written as `null`.

use vstd::prelude::*;

use crate::doc::Doc;
use crate::fixed::int_render;
use crate::json_text::{pretty, pretty_text};
use crate::submission::{ItemObservation, Submission, method_name};
use crate::text::{append_chars, owned, string_of};

verus! {

/// The field `f` is `key` holding the string `v`.
pub open spec fn str_field(f: (String, Doc), key: Seq<char>, v: String) -> bool {
    f.0@ == key && f.1 == Doc::Str(v)
}

/// The field `f` is `key` holding the whole number `n`.
pub open spec fn num_field(f: (String, Doc), key: Seq<char>, n: int) -> bool {
    f.0@ == key && (f.1 matches Doc::Number(t) && t@ == int_render(n))
}

/// The field `f` is `key` holding the strings `v`, in order.
pub open spec fn strs_field(f: (String, Doc), key: Seq<char>, v: Seq<String>) -> bool {
    &&& f.0@ == key
    &&& f.1 matches Doc::List(items) && items@.len() == v.len()
        && forall|j: int| 0 <= j < v.len() ==> items@[j] == Doc::Str(#[trigger] v[j])
}

/// The field `f` is `key` holding a table of strings, entry for entry.
pub open spec fn str_table_field(f: (String, Doc), key: Seq<char>, v: Seq<(String, String)>) -> bool {
    &&& f.0@ == key
    &&& f.1 matches Doc::Table(es) && es@.len() == v.len()
        && forall|j: int| 0 <= j < v.len() ==> (#[trigger] es@[j]).0 == v[j].0 && es@[j].1 == Doc::Str(v[j].1)
}

/// The field `f` is `key` holding a table of whole numbers, entry for entry.
pub open spec fn num_table_field(f: (String, Doc), key: Seq<char>, v: Seq<(String, i32)>) -> bool {
    &&& f.0@ == key
    &&& f.1 matches Doc::Table(es) && es@.len() == v.len()
        && forall|j: int| 0 <= j < v.len() ==> (#[trigger] es@[j]).0 == v[j].0
            && (es@[j].1 matches Doc::Number(t) && t@ == int_render(v[j].1 as int))
}

/// The document an observation makes: `id`, `name`, `rarity` (a string or
/// `null`), then `requiredClasses`, `slot`, `grants`, `attributes` and
/// `moveSpeedAdd` where they hold something.
pub open spec fn observation_doc_as(d: Doc, o: ItemObservation) -> bool {
    let n_classes: int = if o.required_classes@.len() > 0 { 1 } else { 0 };
    let n_slot: int = if o.slot is Some { 1 } else { 0 };
    let n_grants: int = if o.grants@.len() > 0 { 1 } else { 0 };
    let n_attrs: int = if o.attributes@.len() > 0 { 1 } else { 0 };
    let n_move: int = if o.move_speed_add is Some { 1 } else { 0 };
    let c = 3 + n_classes;
    let s = c + n_slot;
    let g = s + n_grants;
    let a = g + n_attrs;
    &&& d matches Doc::Table(fs)
    &&& {
        let f = fs@;
        &&& f.len() == a + n_move
        &&& str_field(f[0], "id"@, o.id)
        &&& str_field(f[1], "name"@, o.name)
        &&& f[2].0@ == "rarity"@ && f[2].1 == match o.rarity {
            Some(r) => Doc::Str(r),
            None => Doc::Null,
        }
        &&& n_classes == 1 ==> strs_field(f[3], "requiredClasses"@, o.required_classes@)
        &&& n_slot == 1 ==> str_field(f[c], "slot"@, o.slot->0)
        &&& n_grants == 1 ==> str_table_field(f[s], "grants"@, o.grants@)
        &&& n_attrs == 1 ==> num_table_field(f[g], "attributes"@, o.attributes@)
        &&& n_move == 1 ==> str_field(f[a], "moveSpeedAdd"@, o.move_speed_add->0)
    }
}

/// The document a submission makes: `submission`, `observer`, `observedAt`,
/// `build` and `method`, then `note`, `items` and `unrecognised` where they
/// hold something.
pub open spec fn submission_doc_as(d: Doc, s: Submission) -> bool {
    let n_note: int = if s.note is Some { 1 } else { 0 };
    let n_items: int = if s.items@.len() > 0 { 1 } else { 0 };
    let n_unrec: int = if s.unrecognised@.len() > 0 { 1 } else { 0 };
    let i = 5 + n_note;
    let u = i + n_items;
    &&& d matches Doc::Table(fs)
    &&& {
        let f = fs@;
        &&& f.len() == u + n_unrec
        &&& num_field(f[0], "submission"@, s.submission as int)
        &&& str_field(f[1], "observer"@, s.observer)
        &&& str_field(f[2], "observedAt"@, s.observed_at)
        &&& str_field(f[3], "build"@, s.build)
        &&& f[4].0@ == "method"@ && (f[4].1 matches Doc::Str(m) && m@ == method_name(s.method))
        &&& n_note == 1 ==> str_field(f[5], "note"@, s.note->0)
        &&& n_items == 1 ==> f[i].0@ == "items"@ && (f[i].1 matches Doc::List(items) && items@.len() == s.items@.len()
            && forall|j: int| 0 <= j < s.items@.len() ==> observation_doc_as(#[trigger] items@[j], s.items@[j]))
        &&& n_unrec == 1 ==> strs_field(f[u], "unrecognised"@, s.unrecognised@)
    }
}

/// A field holding a string.
fn field(key: &str, v: Doc) -> (r: (String, Doc))
    ensures
        r.0@ == key@,
        r.1 == v,
{
    (owned(key), v)
}

/// A whole number as a document.
fn number(n: i64) -> (r: Doc)
    ensures
        r matches Doc::Number(t) && t@ == int_render(n as int),
{
    let mut out: Vec<char> = Vec::new();
    crate::fixed::push_int(n, &mut out);
    Doc::Number(string_of(&out))
}

/// Strings as a list of documents.
fn str_list(v: &Vec<String>) -> (r: Doc)
    ensures
        r matches Doc::List(items) && items@.len() == v@.len()
            && forall|j: int| 0 <= j < v@.len() ==> items@[j] == Doc::Str(#[trigger] v@[j]),
{
    let mut items: Vec<Doc> = Vec::new();
    let mut j: usize = 0;
    while j < v.len()
        invariant
            j <= v@.len(),
            items@.len() == j,
            forall|x: int| 0 <= x < j ==> items@[x] == Doc::Str(#[trigger] v@[x]),
        decreases v@.len() - j,
    {
        items.push(Doc::Str(v[j].clone()));
        j = j + 1;
    }
    Doc::List(items)
}

impl ItemObservation {
    /// The document this observation writes as.
    pub fn to_doc(&self) -> (r: Doc)
        ensures
            observation_doc_as(r, *self),
    {
        let mut f: Vec<(String, Doc)> = Vec::new();
        f.push(field("id", Doc::Str(self.id.clone())));
        f.push(field("name", Doc::Str(self.name.clone())));
        let rarity = match &self.rarity {
            Some(r) => Doc::Str(r.clone()),
            None => Doc::Null,
        };
        f.push(field("rarity", rarity));
        let ghost f3 = f@;
        if self.required_classes.len() > 0 {
            f.push(field("requiredClasses", str_list(&self.required_classes)));
        }
        let ghost fc = f@;
        if let Some(slot) = &self.slot {
            f.push(field("slot", Doc::Str(slot.clone())));
        }
        let ghost fs = f@;
        if self.grants.len() > 0 {
            let mut es: Vec<(String, Doc)> = Vec::new();
            let mut j: usize = 0;
            while j < self.grants.len()
                invariant
                    j <= self.grants@.len(),
                    es@.len() == j,
                    forall|x: int| 0 <= x < j ==> (#[trigger] es@[x]).0 == self.grants@[x].0 && es@[x].1 == Doc::Str(self.grants@[x].1),
                decreases self.grants@.len() - j,
            {
                es.push((self.grants[j].0.clone(), Doc::Str(self.grants[j].1.clone())));
                j = j + 1;
            }
            f.push(field("grants", Doc::Table(es)));
        }
        let ghost fg = f@;
        if self.attributes.len() > 0 {
            let mut es: Vec<(String, Doc)> = Vec::new();
            let mut j: usize = 0;
            while j < self.attributes.len()
                invariant
                    j <= self.attributes@.len(),
                    es@.len() == j,
                    forall|x: int| 0 <= x < j ==> (#[trigger] es@[x]).0 == self.attributes@[x].0
                        && (es@[x].1 matches Doc::Number(t) && t@ == int_render(self.attributes@[x].1 as int)),
                decreases self.attributes@.len() - j,
            {
                es.push((self.attributes[j].0.clone(), number(self.attributes[j].1 as i64)));
                j = j + 1;
            }
            f.push(field("attributes", Doc::Table(es)));
        }
        let ghost fa = f@;
        if let Some(m) = &self.move_speed_add {
            f.push(field("moveSpeedAdd", Doc::Str(m.clone())));
        }
        proof {
            assert(f@.subrange(0, 3) == f3.subrange(0, 3));
            assert(f@[0] == f3[0] && f@[1] == f3[1] && f@[2] == f3[2]);
            let c = fc.len() as int;
            let s = fs.len() as int;
            let g = fg.len() as int;
            let a = fa.len() as int;
            if self.required_classes@.len() > 0 { assert(f@[3] == fc[3]); }
            if self.slot is Some { assert(f@[c] == fs[c]); }
            if self.grants@.len() > 0 { assert(f@[s] == fg[s]); }
            if self.attributes@.len() > 0 { assert(f@[g] == fa[g]); }
        }
        Doc::Table(f)
    }
}

impl Submission {
    /// The document this submission writes as.
    pub fn to_doc(&self) -> (r: Doc)
        ensures
            submission_doc_as(r, *self),
    {
        let mut f: Vec<(String, Doc)> = Vec::new();
        f.push(field("submission", number(self.submission as i64)));
        f.push(field("observer", Doc::Str(self.observer.clone())));
        f.push(field("observedAt", Doc::Str(self.observed_at.clone())));
        f.push(field("build", Doc::Str(self.build.clone())));
        f.push(field("method", Doc::Str(owned(self.method.as_str()))));
        let ghost f5 = f@;
        if let Some(n) = &self.note {
            f.push(field("note", Doc::Str(n.clone())));
        }
        let ghost fi = f@;
        if self.items.len() > 0 {
            let mut items: Vec<Doc> = Vec::new();
            let mut j: usize = 0;
            while j < self.items.len()
                invariant
                    j <= self.items@.len(),
                    items@.len() == j,
                    forall|x: int| 0 <= x < j ==> observation_doc_as(#[trigger] items@[x], self.items@[x]),
                decreases self.items@.len() - j,
            {
                items.push(self.items[j].to_doc());
                j = j + 1;
            }
            f.push(field("items", Doc::List(items)));
        }
        let ghost fu = f@;
        if self.unrecognised.len() > 0 {
            f.push(field("unrecognised", str_list(&self.unrecognised)));
        }
        proof {
            assert(f@[0] == f5[0] && f@[1] == f5[1] && f@[2] == f5[2] && f@[3] == f5[3] && f@[4] == f5[4]);
            let i = fi.len() as int;
            let u = fu.len() as int;
            if self.note is Some { assert(f@[5] == fi[5]); }
            if self.items@.len() > 0 { assert(f@[i] == fu[i]); }
        }
        Doc::Table(f)
    }

    /// Writes the submission as pretty JSON with a final newline: readable,
    /// because a person is going to look at it and send it on.
    pub fn encode(&self) -> (r: String)
        ensures
            exists|d: Doc| submission_doc_as(d, *self) && r@ == #[trigger] pretty(d, 0) + seq!['\n'],
    {
        let d = self.to_doc();
        let text = pretty_text(&d);
        let mut out: Vec<char> = Vec::new();
        append_chars(&mut out, text.as_str());
        out.push('\n');
        assert(out@ =~= pretty(d, 0) + seq!['\n']);
        string_of(&out)
    }
}

} // verus!
