//! Reviewing a submission against the dataset, before anything is applied.
//!
//! Reading a submission is not applying one: the review says what it would
//! change. A submission that disagrees with the dataset is refused whole
//! rather than applied in part, because two people reading the same card
//! differently is evidence that something is wrong, and quietly taking the
//! newer number throws that evidence away at the moment it appeared.
//!
//! Items are compared as rendered JSON rather than through typed structs: a
//! field nobody remembered to compare is a field that silently agrees with
//! everything.

use vstd::prelude::*;

use crate::canonical::hex_digits;
use crate::doc::{Doc, get, lookup};
use crate::fields::text_map;
use crate::table::{IdMap, keys_of, lemma_keys_of, lemma_to_map_entries, strictly_sorted};
use crate::confidence::Confidence;
use crate::diff::{in_prefix, lemma_in_prefix_step};
use crate::fixed::{Fixed, int_render, push_int};
use crate::ids::DerivedStatId;
use crate::loadout::slot_name;
use crate::schema::{AttributeKind, ItemDef, attribute_name};
use crate::stats::rarity_name;
use crate::submission::{ItemObservation, Method, Submission, observation_ok, offers_verified, proposed_item};
use crate::browser::{field, text_of};
use crate::card::field_in;
use crate::attestations::{Attestation, Ledger, independent_set};
use crate::text::{append_chars, chars_of, owned, seq_lt, str_eq, string_of};

verus! {

// ── JSON text ───────────────────────────────────────────────────────────

/// How `serde_json` writes one character inside a string: quote, backslash
/// and the control characters escaped, the common ones by letter.
pub open spec fn json_escape_char(c: char) -> Seq<char> {
    if c == '"' {
        seq!['\\', '"']
    } else if c == '\\' {
        seq!['\\', '\\']
    } else if c == '\u{8}' {
        seq!['\\', 'b']
    } else if c == '\u{c}' {
        seq!['\\', 'f']
    } else if c == '\n' {
        seq!['\\', 'n']
    } else if c == '\r' {
        seq!['\\', 'r']
    } else if c == '\t' {
        seq!['\\', 't']
    } else if (c as u32) < 0x20 {
        seq!['\\', 'u', '0', '0', hex_digits()[(c as u32 / 16) as int], hex_digits()[(c as u32 % 16) as int]]
    } else {
        seq![c]
    }
}

/// A string's characters, each escaped, in order.
pub open spec fn json_escape(s: Seq<char>) -> Seq<char>
    decreases s.len(),
{
    if s.len() == 0 {
        Seq::empty()
    } else {
        json_escape(s.drop_last()) + json_escape_char(s.last())
    }
}

/// A string as JSON: quoted and escaped.
pub open spec fn json_quoted(s: Seq<char>) -> Seq<char> {
    seq!['"'] + json_escape(s) + seq!['"']
}

/// A document as compact JSON text, the way `serde_json` writes a value.
pub open spec fn json_text(d: Doc) -> Seq<char>
    decreases d,
{
    match d {
        Doc::Null => seq!['n', 'u', 'l', 'l'],
        Doc::Bool(b) => if b { seq!['t', 'r', 'u', 'e'] } else { seq!['f', 'a', 'l', 's', 'e'] },
        Doc::Number(s) => s@,
        Doc::Str(s) => json_quoted(s@),
        Doc::List(items) => seq!['['] + list_text(items@) + seq![']'],
        Doc::Table(es) => seq!['{'] + table_text(es@) + seq!['}'],
    }
}

/// The items of a list, comma-separated.
pub open spec fn list_text(items: Seq<Doc>) -> Seq<char>
    decreases items,
{
    if items.len() == 0 {
        Seq::empty()
    } else if items.len() == 1 {
        json_text(items[0])
    } else {
        list_text(items.subrange(0, items.len() - 1)) + seq![','] + json_text(items[items.len() - 1])
    }
}

/// The entries of a table, comma-separated.
pub open spec fn table_text(es: Seq<(String, Doc)>) -> Seq<char>
    decreases es,
{
    if es.len() == 0 {
        Seq::empty()
    } else if es.len() == 1 {
        json_quoted(es[0].0@) + seq![':'] + json_text(es[0].1)
    } else {
        table_text(es.subrange(0, es.len() - 1)) + seq![','] + json_quoted(es[es.len() - 1].0@) + seq![':']
            + json_text(es[es.len() - 1].1)
    }
}

/// Appends a string as JSON.
fn write_quoted(out: &mut Vec<char>, s: &str)
    ensures
        final(out)@ == old(out)@ + json_quoted(s@),
{
    let digits: [char; 16] = ['0', '1', '2', '3', '4', '5', '6', '7', '8', '9', 'a', 'b', 'c', 'd', 'e', 'f'];
    assert(digits@ =~= hex_digits());
    let cs = chars_of(s);
    let ghost start = out@;
    out.push('"');
    let mut i: usize = 0;
    proof {
        assert(cs@.subrange(0, 0) =~= Seq::<char>::empty());
    }
    while i < cs.len()
        invariant
            i <= cs@.len(),
            cs@ == s@,
            digits@ == hex_digits(),
            out@ == start + seq!['"'] + json_escape(cs@.subrange(0, i as int)),
        decreases cs@.len() - i,
    {
        let c = cs[i];
        let ghost before = out@;
        if c == '"' {
            out.push('\\');
            out.push('"');
        } else if c == '\\' {
            out.push('\\');
            out.push('\\');
        } else if c == '\u{8}' {
            out.push('\\');
            out.push('b');
        } else if c == '\u{c}' {
            out.push('\\');
            out.push('f');
        } else if c == '\n' {
            out.push('\\');
            out.push('n');
        } else if c == '\r' {
            out.push('\\');
            out.push('r');
        } else if c == '\t' {
            out.push('\\');
            out.push('t');
        } else if (c as u32) < 0x20 {
            out.push('\\');
            out.push('u');
            out.push('0');
            out.push('0');
            out.push(digits[(c as u32 / 16) as usize]);
            out.push(digits[(c as u32 % 16) as usize]);
        } else {
            out.push(c);
        }
        proof {
            let next = cs@.subrange(0, i + 1);
            assert(next.drop_last() =~= cs@.subrange(0, i as int));
            assert(next.last() == c);
            assert(out@ =~= before + json_escape_char(c));
        }
        i = i + 1;
    }
    out.push('"');
    proof {
        assert(cs@.subrange(0, cs@.len() as int) =~= cs@);
    }
}

/// Appends a document as compact JSON.
pub fn write_json(out: &mut Vec<char>, d: &Doc)
    ensures
        final(out)@ == old(out)@ + json_text(*d),
    decreases d,
{
    match d {
        Doc::Null => {
            out.push('n');
            out.push('u');
            out.push('l');
            out.push('l');
        },
        Doc::Bool(b) => if *b {
            out.push('t');
            out.push('r');
            out.push('u');
            out.push('e');
        } else {
            out.push('f');
            out.push('a');
            out.push('l');
            out.push('s');
            out.push('e');
        },
        Doc::Number(s) => {
            let cs = chars_of(s.as_str());
            crate::text::append_vec(out, &cs);
        },
        Doc::Str(s) => write_quoted(out, s.as_str()),
        Doc::List(items) => {
            let ghost start = out@;
            out.push('[');
            let mut i: usize = 0;
            proof {
                assert(items@.subrange(0, 0) =~= Seq::<Doc>::empty());
            }
            while i < items.len()
                invariant
                    i <= items@.len(),
                    out@ == start + seq!['['] + list_text(items@.subrange(0, i as int)),
                    *d == Doc::List(*items),
                decreases items@.len() - i,
            {
                let ghost before = out@;
                if i > 0 {
                    out.push(',');
                }
                proof {
                    assert((*d)->List_0 == *items);
                    assert(decreases_to!(*d => (*d)->List_0));
                    assert(decreases_to!(*items => items@));
                    assert(decreases_to!(items@ => items@[i as int]));
                }
                write_json(out, &items[i]);
                proof {
                    let next = items@.subrange(0, i + 1);
                    assert(next.subrange(0, next.len() - 1) =~= items@.subrange(0, i as int));
                    assert(next[next.len() - 1] == items@[i as int]);
                    if i == 0 {
                        assert(out@ =~= start + seq!['['] + list_text(next));
                    } else {
                        assert(out@ =~= start + seq!['['] + list_text(next));
                    }
                }
                i = i + 1;
            }
            out.push(']');
            proof {
                assert(items@.subrange(0, items@.len() as int) =~= items@);
            }
        },
        Doc::Table(es) => {
            let ghost start = out@;
            out.push('{');
            let mut i: usize = 0;
            proof {
                assert(es@.subrange(0, 0) =~= Seq::<(String, Doc)>::empty());
            }
            while i < es.len()
                invariant
                    i <= es@.len(),
                    out@ == start + seq!['{'] + table_text(es@.subrange(0, i as int)),
                    *d == Doc::Table(*es),
                decreases es@.len() - i,
            {
                let ghost before = out@;
                if i > 0 {
                    out.push(',');
                }
                write_quoted(out, es[i].0.as_str());
                out.push(':');
                proof {
                    assert((*d)->Table_0 == *es);
                    assert(decreases_to!(*d => (*d)->Table_0));
                    assert(decreases_to!(*es => es@));
                    assert(decreases_to!(es@ => es@[i as int]));
                    assert(decreases_to!(es@[i as int] => es@[i as int].1));
                }
                write_json(out, &es[i].1);
                proof {
                    let next = es@.subrange(0, i + 1);
                    assert(next.subrange(0, next.len() - 1) =~= es@.subrange(0, i as int));
                    assert(next[next.len() - 1] == es@[i as int]);
                    assert(out@ =~= start + seq!['{'] + table_text(next));
                }
                i = i + 1;
            }
            out.push('}');
            proof {
                assert(es@.subrange(0, es@.len() as int) =~= es@);
            }
        },
    }
}

// ── Flattened documents ─────────────────────────────────────────────────

/// A key under a prefix: `prefix.key`, or the key alone at the top.
pub open spec fn joined(prefix: Seq<char>, key: Seq<char>) -> Seq<char> {
    if prefix.len() == 0 { key } else { prefix + seq!['.'] + key }
}

/// A document flattened to dotted paths, each leaf as its JSON text; later
/// entries win. Objects are walked, and everything else is a leaf, lists
/// included.
pub open spec fn flat(prefix: Seq<char>, d: Doc) -> Map<Seq<char>, Seq<char>>
    decreases d,
{
    match d {
        Doc::Table(es) => flat_entries(prefix, es@),
        _ => map![prefix => json_text(d)],
    }
}

/// The entries of an object, flattened under a prefix.
pub open spec fn flat_entries(prefix: Seq<char>, es: Seq<(String, Doc)>) -> Map<Seq<char>, Seq<char>>
    decreases es,
{
    if es.len() == 0 {
        Map::empty()
    } else {
        flat_entries(prefix, es.subrange(0, es.len() - 1)).union_prefer_right(
            flat(joined(prefix, es[es.len() - 1].0@), es[es.len() - 1].1),
        )
    }
}

/// A key under a prefix.
fn join_key(prefix: &str, key: &str) -> (r: String)
    ensures
        r@ == joined(prefix@, key@),
{
    let p = chars_of(prefix);
    if p.len() == 0 {
        return owned(key);
    }
    let mut cs = p;
    cs.push('.');
    append_chars(&mut cs, key);
    string_of(&cs)
}

/// Adds a document's flattened paths to a table.
pub fn flatten(prefix: &str, d: &Doc, out: &mut IdMap<String, String>)
    requires
        old(out).wf(),
    ensures
        final(out).wf(),
        text_map(final(out).view()) == text_map(old(out).view()).union_prefer_right(flat(prefix@, *d)),
    decreases d,
{
    match d {
        Doc::Table(es) => {
            let ghost start = text_map(out.view());
            let mut i: usize = 0;
            proof {
                assert(es@.subrange(0, 0) =~= Seq::<(String, Doc)>::empty());
                assert(start.union_prefer_right(Map::empty()) =~= start);
            }
            while i < es.len()
                invariant
                    i <= es@.len(),
                    *d == Doc::Table(*es),
                    out.wf(),
                    text_map(out.view()) == start.union_prefer_right(flat_entries(prefix@, es@.subrange(0, i as int))),
                decreases es@.len() - i,
            {
                let path = join_key(prefix, es[i].0.as_str());
                let ghost mid = text_map(out.view());
                proof {
                    assert((*d)->Table_0 == *es);
                    assert(decreases_to!(*d => (*d)->Table_0));
                    assert(decreases_to!(*es => es@));
                    assert(decreases_to!(es@ => es@[i as int]));
                    assert(decreases_to!(es@[i as int] => es@[i as int].1));
                }
                flatten(path.as_str(), &es[i].1, out);
                proof {
                    let next = es@.subrange(0, i + 1);
                    assert(next.subrange(0, next.len() - 1) =~= es@.subrange(0, i as int));
                    assert(next[next.len() - 1] == es@[i as int]);
                    assert(text_map(out.view()) =~= start.union_prefer_right(flat_entries(prefix@, next)));
                }
                i = i + 1;
            }
            proof {
                assert(es@.subrange(0, es@.len() as int) =~= es@);
            }
        },
        _ => {
            let mut text: Vec<char> = Vec::new();
            write_json(&mut text, d);
            let ghost before = out.view();
            out.insert(owned(prefix), string_of(&text));
            proof {
                assert(text_map(out.view()) =~= text_map(before).union_prefer_right(flat(prefix@, *d)));
            }
        },
    }
}

/// A document's flattened paths.
pub fn flattened(d: &Doc) -> (r: IdMap<String, String>)
    ensures
        r.wf(),
        text_map(r.view()) == flat(Seq::empty(), *d),
{
    let mut m: IdMap<String, String> = IdMap::new();
    flatten("", d, &mut m);
    proof {
        reveal_strlit("");
        assert(""@ =~= Seq::<char>::empty());
        assert(text_map(Map::<Seq<char>, String>::empty()) =~= Map::empty());
        assert(Map::<Seq<char>, Seq<char>>::empty().union_prefer_right(flat(""@, *d)) =~= flat(Seq::empty(), *d));
    }
    m
}

// ── Disagreements ───────────────────────────────────────────────────────

/// One field on which the dataset and a submission disagree.
#[derive(Debug)]
pub struct Conflict {
    /// The item's id.
    pub item: String,
    /// The dotted path of the field.
    pub field: String,
    /// What the dataset says, as JSON.
    pub dataset: String,
    /// What the submission says, as JSON.
    pub submitted: String,
}

/// Whether a text ends with another.
pub open spec fn ends_with(s: Seq<char>, t: Seq<char>) -> bool {
    t.len() <= s.len() && s.subrange(s.len() - t.len(), s.len() as int) == t
}

/// Whether two flattened readings disagree at a path: the submission says
/// something there, the dataset says something else, and the path is not a
/// grade. A grade is not a disagreement: how each side came to see a value
/// is for the person approving it to weigh, not a contradiction.
pub open spec fn disagrees(a: Map<Seq<char>, Seq<char>>, b: Map<Seq<char>, Seq<char>>, k: Seq<char>) -> bool {
    &&& !ends_with(k, ".confidence"@)
    &&& a.contains_key(k)
    &&& b.contains_key(k)
    &&& a[k] != b[k]
}

/// The fields of a run of conflicts.
pub open spec fn conflict_fields(cs: Seq<Conflict>) -> Seq<Seq<char>> {
    cs.map_values(|c: Conflict| c.field@)
}

/// The conflicts of one item: every path where the readings disagree,
/// once, in path order, with both sides' texts.
pub open spec fn conflicts_as(cs: Seq<Conflict>, item: Seq<char>, a: Map<Seq<char>, Seq<char>>, b: Map<Seq<char>, Seq<char>>) -> bool {
    &&& strictly_sorted(conflict_fields(cs))
    &&& forall|i: int| 0 <= i < cs.len() ==> {
        let c = #[trigger] cs[i];
        &&& c.item@ == item
        &&& disagrees(a, b, c.field@)
        &&& c.dataset@ == a[c.field@]
        &&& c.submitted@ == b[c.field@]
    }
    &&& forall|k: Seq<char>| #[trigger] disagrees(a, b, k) ==> conflict_fields(cs).contains(k)
}

/// Whether a text ends with another.
fn ends_with_str(s: &str, t: &str) -> (r: bool)
    ensures
        r == ends_with(s@, t@),
{
    let cs = chars_of(s);
    let ts = chars_of(t);
    if ts.len() > cs.len() {
        return false;
    }
    let off = cs.len() - ts.len();
    let mut i: usize = 0;
    while i < ts.len()
        invariant
            i <= ts@.len(),
            off + ts@.len() == cs@.len(),
            cs@.len() == cs.len(),
            cs@ == s@,
            ts@ == t@,
            forall|j: int| 0 <= j < i ==> cs@[off + j] == ts@[j],
        decreases ts@.len() - i,
    {
        if cs[off + i] != ts[i] {
            proof {
                assert(s@.subrange(off as int, s@.len() as int)[i as int] != t@[i as int]);
            }
            return false;
        }
        i = i + 1;
    }
    proof {
        assert(s@.subrange(off as int, s@.len() as int) =~= t@);
    }
    true
}

/// Every field on which a dataset item and a proposed item disagree, among
/// the fields the proposal speaks to. A dataset field the submission says
/// nothing about is not a disagreement.
pub fn compare_items(item: &str, current: &Doc, proposed: &Doc) -> (r: Vec<Conflict>)
    ensures
        conflicts_as(r@, item@, flat(Seq::empty(), *current), flat(Seq::empty(), *proposed)),
{
    let fa = flattened(current);
    let fb = flattened(proposed);
    let ghost a = flat(Seq::empty(), *current);
    let ghost b = flat(Seq::empty(), *proposed);
    let ghost ks = keys_of(fb.entries());
    proof {
        lemma_keys_of(fb.entries());
        lemma_to_map_entries(fb.entries());
        lemma_to_map_entries(fa.entries());
    }
    let mut out: Vec<Conflict> = Vec::new();
    let mut i: usize = 0;
    while i < fb.len()
        invariant
            i <= fb.entries().len(),
            fa.wf(),
            fb.wf(),
            text_map(fa.view()) == a,
            text_map(fb.view()) == b,
            ks == keys_of(fb.entries()),
            ks.len() == fb.entries().len(),
            forall|j: int| 0 <= j < ks.len() ==> #[trigger] ks[j] == fb.entries()[j].0@,
            forall|j: int| 0 <= j < ks.len() ==> #[trigger] fb.view().contains_key(ks[j]) && fb.view()[ks[j]] == fb.entries()[j].1,
            forall|k: Seq<char>| #[trigger] fb.view().contains_key(k) <==> ks.contains(k),
            strictly_sorted(ks),
            strictly_sorted(conflict_fields(out@)),
            forall|j: int| 0 <= j < out@.len() ==> in_prefix(ks, i as int, #[trigger] conflict_fields(out@)[j]),
            forall|j: int| 0 <= j < out@.len() ==> {
                let c = #[trigger] out@[j];
                &&& c.item@ == item@
                &&& disagrees(a, b, c.field@)
                &&& c.dataset@ == a[c.field@]
                &&& c.submitted@ == b[c.field@]
            },
            forall|k: Seq<char>| #[trigger] in_prefix(ks, i as int, k) && disagrees(a, b, k) ==> conflict_fields(out@).contains(k),
        decreases fb.entries().len() - i,
    {
        let key = fb.key_at(i);
        let now = fb.value_at(i);
        proof {
            lemma_in_prefix_step(ks, i as int);
            assert(key@ == ks[i as int]);
            assert(fb.view().contains_key(ks[i as int]));
            assert(fb.view()[key@] == *now);
            assert(text_map(fb.view())[key@] == fb.view()[key@]@);
            assert(b[key@] == now@);
        }
        let ghost before = out@;
        if !ends_with_str(key.as_str(), ".confidence") {
            match fa.get(key.as_str()) {
                Some(was) => {
                    if !str_eq(was.as_str(), now.as_str()) {
                        out.push(Conflict {
                            item: owned(item),
                            field: owned(key.as_str()),
                            dataset: owned(was.as_str()),
                            submitted: owned(now.as_str()),
                        });
                        proof {
                            assert(conflict_fields(out@) =~= conflict_fields(before).push(key@));
                            assert forall|x: int, y: int| 0 <= x < y < conflict_fields(out@).len()
                                implies seq_lt(#[trigger] conflict_fields(out@)[x], #[trigger] conflict_fields(out@)[y]) by {
                                if y == before.len() {
                                    let f = conflict_fields(before)[x];
                                    assert(in_prefix(ks, i as int, f));
                                    let j = choose|j: int| 0 <= j < i && ks[j] == f;
                                    assert(seq_lt(ks[j], ks[i as int]));
                                }
                            }
                            assert forall|j: int| 0 <= j < out@.len() implies in_prefix(ks, i + 1, #[trigger] conflict_fields(out@)[j]) by {
                                if j == before.len() {
                                    assert(ks[i as int] == conflict_fields(out@)[j]);
                                } else {
                                    assert(conflict_fields(out@)[j] == conflict_fields(before)[j]);
                                }
                            }
                            assert forall|k: Seq<char>| #[trigger] in_prefix(ks, i + 1, k) && disagrees(a, b, k)
                                implies conflict_fields(out@).contains(k) by {
                                if k == key@ {
                                    assert(conflict_fields(out@)[before.len() as int] == k);
                                } else {
                                    assert(in_prefix(ks, i as int, k));
                                    let j = choose|j: int| 0 <= j < conflict_fields(before).len() && conflict_fields(before)[j] == k;
                                    assert(conflict_fields(out@)[j] == k);
                                }
                            }
                        }
                    }
                },
                None => {},
            }
        }
        proof {
            if out@.len() == before.len() {
                assert(out@ == before);
                assert forall|j: int| 0 <= j < out@.len() implies in_prefix(ks, i + 1, #[trigger] conflict_fields(out@)[j]) by {
                    let f = conflict_fields(out@)[j];
                    assert(in_prefix(ks, i as int, f));
                    let w = choose|w: int| 0 <= w < i && ks[w] == f;
                    assert(0 <= w < i + 1 && ks[w] == f);
                }
                assert forall|k: Seq<char>| #[trigger] in_prefix(ks, i + 1, k) && disagrees(a, b, k)
                    implies conflict_fields(out@).contains(k) by {
                    if k == key@ {
                        assert(!disagrees(a, b, k));
                    } else {
                        assert(in_prefix(ks, i as int, k));
                    }
                }
            }
        }
        i = i + 1;
    }
    proof {
        assert forall|k: Seq<char>| #[trigger] disagrees(a, b, k) implies conflict_fields(out@).contains(k) by {
            assert(fb.view().contains_key(k));
            assert(ks.contains(k));
            let j = choose|j: int| 0 <= j < ks.len() && ks[j] == k;
            assert(in_prefix(ks, ks.len() as int, k));
        }
    }
    out
}

// ── A proposal in the dataset's own shape ───────────────────────────────

/// The grade a method offers, as the dataset writes it.
pub open spec fn grade_text(m: Method) -> Seq<char> {
    if offers_verified(m) { "verified"@ } else { "unverified"@ }
}

/// A string leaf with this text.
pub open spec fn is_text(d: Doc, s: Seq<char>) -> bool {
    d matches Doc::Str(x) && x@ == s
}

/// A number leaf with this whole value.
pub open spec fn is_int(d: Doc, n: int) -> bool {
    d matches Doc::Number(x) && x@ == int_render(n)
}

/// `{"confidence": grade, "micro": n}`.
pub open spec fn graded_micro_as(d: Doc, grade: Seq<char>, n: int) -> bool {
    &&& d is Table
    &&& d->Table_0@.len() == 2
    &&& d->Table_0@[0].0@ == "confidence"@
    &&& is_text(d->Table_0@[0].1, grade)
    &&& d->Table_0@[1].0@ == "micro"@
    &&& is_int(d->Table_0@[1].1, n)
}

/// `{"confidence": grade, "points": {name: points, …}}`, in the block's
/// order.
pub open spec fn graded_points_as(d: Doc, grade: Seq<char>, v: Seq<(AttributeKind, i32)>) -> bool {
    &&& d is Table
    &&& d->Table_0@.len() == 2
    &&& d->Table_0@[0].0@ == "confidence"@
    &&& is_text(d->Table_0@[0].1, grade)
    &&& d->Table_0@[1].0@ == "points"@
    &&& d->Table_0@[1].1 is Table
    &&& d->Table_0@[1].1->Table_0@.len() == v.len()
    &&& forall|i: int| 0 <= i < v.len() ==> {
        let e = #[trigger] d->Table_0@[1].1->Table_0@[i];
        e.0@ == attribute_name(v[i].0) && is_int(e.1, v[i].1 as int)
    }
}

/// `{stat: {"confidence": grade, "micro": n}, …}`, in id order.
pub open spec fn graded_grants_as(d: Doc, grade: Seq<char>, es: Seq<(DerivedStatId, Confidence<Fixed>)>) -> bool {
    &&& d is Table
    &&& d->Table_0@.len() == es.len()
    &&& forall|i: int| 0 <= i < es.len() ==> {
        let e = #[trigger] d->Table_0@[i];
        e.0@ == es[i].0@ && graded_micro_as(e.1, grade, es[i].1.spec_value()@)
    }
}

/// The keys of an item's rendering, in order.
pub open spec fn item_keys(def: ItemDef) -> Seq<Seq<char>> {
    seq!["id"@, "name"@]
        + (if def.rarity is Some { seq!["rarity"@] } else { Seq::empty() })
        + (if def.slot is Some { seq!["slot"@] } else { Seq::empty() })
        + (if def.attributes is Some { seq!["attributes"@] } else { Seq::empty() })
        + seq!["grants"@]
        + (if def.move_speed_add is Some { seq!["moveSpeedAdd"@] } else { Seq::empty() })
}

/// One entry of an item's rendering, by its key.
pub open spec fn item_entry_ok(e: (String, Doc), o: ItemObservation, grade: Seq<char>, def: ItemDef) -> bool {
    let k = e.0@;
    if k == "id"@ {
        is_text(e.1, o.id@)
    } else if k == "name"@ {
        is_text(e.1, o.name@)
    } else if k == "rarity"@ {
        def.rarity matches Some(x) && is_text(e.1, rarity_name(x))
    } else if k == "slot"@ {
        def.slot matches Some(x) && is_text(e.1, slot_name(x))
    } else if k == "attributes"@ {
        def.attributes matches Some(c) && graded_points_as(e.1, grade, c.spec_value()@)
    } else if k == "grants"@ {
        graded_grants_as(e.1, grade, def.grants.entries())
    } else {
        def.move_speed_add matches Some(c) && graded_micro_as(e.1, grade, c.spec_value()@)
    }
}

/// The entries' keys.
pub open spec fn entry_keys(t: Seq<(String, Doc)>) -> Seq<Seq<char>> {
    t.map_values(|e: (String, Doc)| e.0@)
}

/// An observation rendered in the dataset's item shape, so that what is
/// reviewed is exactly what would be written: the observation's id and
/// name, the parsed rarity and slot, and every number at the grade the
/// method offers.
pub open spec fn item_doc_as(d: Doc, o: ItemObservation, m: Method, def: ItemDef) -> bool {
    &&& d is Table
    &&& entry_keys(d->Table_0@) == item_keys(def)
    &&& forall|i: int| 0 <= i < d->Table_0@.len() ==> item_entry_ok(#[trigger] d->Table_0@[i], o, grade_text(m), def)
}

/// A whole number as a number leaf.
fn int_doc(n: i64) -> (r: Doc)
    ensures
        is_int(r, n as int),
{
    let mut cs: Vec<char> = Vec::new();
    push_int(n, &mut cs);
    Doc::Number(string_of(&cs))
}

/// A value and its grade.
fn graded_micro_doc(grade: &str, micro: i64) -> (r: Doc)
    ensures
        graded_micro_as(r, grade@, micro as int),
{
    let mut t: Vec<(String, Doc)> = Vec::new();
    t.push((owned("confidence"), Doc::Str(owned(grade))));
    t.push((owned("micro"), int_doc(micro)));
    Doc::Table(t)
}

/// Attribute points and their grade.
fn graded_points_doc(grade: &str, v: &Vec<(AttributeKind, i32)>) -> (r: Doc)
    ensures
        graded_points_as(r, grade@, v@),
{
    let mut pts: Vec<(String, Doc)> = Vec::new();
    let mut i: usize = 0;
    while i < v.len()
        invariant
            i <= v@.len(),
            pts@.len() == i,
            forall|j: int| 0 <= j < i ==> {
                let e = #[trigger] pts@[j];
                e.0@ == attribute_name(v@[j].0) && is_int(e.1, v@[j].1 as int)
            },
        decreases v@.len() - i,
    {
        let ghost before = pts@;
        pts.push((owned(v[i].0.as_str()), int_doc(v[i].1 as i64)));
        proof {
            assert forall|j: int| 0 <= j < i + 1 implies {
                let e = #[trigger] pts@[j];
                e.0@ == attribute_name(v@[j].0) && is_int(e.1, v@[j].1 as int)
            } by {
                if j < i {
                    assert(pts@[j] == before[j]);
                }
            }
        }
        i = i + 1;
    }
    let mut t: Vec<(String, Doc)> = Vec::new();
    t.push((owned("confidence"), Doc::Str(owned(grade))));
    t.push((owned("points"), Doc::Table(pts)));
    Doc::Table(t)
}

/// Grants and their grade, in id order.
fn graded_grants_doc(grade: &str, m: &IdMap<DerivedStatId, Confidence<Fixed>>) -> (r: Doc)
    ensures
        graded_grants_as(r, grade@, m.entries()),
{
    let mut t: Vec<(String, Doc)> = Vec::new();
    let mut i: usize = 0;
    while i < m.len()
        invariant
            i <= m.entries().len(),
            t@.len() == i,
            forall|j: int| 0 <= j < i ==> {
                let e = #[trigger] t@[j];
                e.0@ == m.entries()[j].0@ && graded_micro_as(e.1, grade@, m.entries()[j].1.spec_value()@)
            },
        decreases m.entries().len() - i,
    {
        let ghost before = t@;
        let id = m.key_at(i);
        let value = m.value_at(i);
        t.push((owned(id.as_str()), graded_micro_doc(grade, value.value().micro())));
        proof {
            assert forall|j: int| 0 <= j < i + 1 implies {
                let e = #[trigger] t@[j];
                e.0@ == m.entries()[j].0@ && graded_micro_as(e.1, grade@, m.entries()[j].1.spec_value()@)
            } by {
                if j < i {
                    assert(t@[j] == before[j]);
                }
            }
        }
        i = i + 1;
    }
    Doc::Table(t)
}

/// Every entry of an item's rendering so far is right.
pub open spec fn entries_ok(t: Seq<(String, Doc)>, o: ItemObservation, grade: Seq<char>, def: ItemDef) -> bool {
    forall|i: int| 0 <= i < t.len() ==> item_entry_ok(#[trigger] t[i], o, grade, def)
}

/// One more right entry keeps every entry right.
proof fn lemma_entries_push(t: Seq<(String, Doc)>, e: (String, Doc), o: ItemObservation, grade: Seq<char>, def: ItemDef)
    requires
        entries_ok(t, o, grade, def),
        item_entry_ok(e, o, grade, def),
    ensures
        entries_ok(t.push(e), o, grade, def),
{
    assert forall|i: int| 0 <= i < t.push(e).len() implies item_entry_ok(#[trigger] t.push(e)[i], o, grade, def) by {
        if i < t.len() {
            assert(t.push(e)[i] == t[i]);
        }
    }
}

/// The keys of an item's rendering are distinct.
proof fn lemma_item_keys_differ()
    ensures
        "name"@ != "id"@,
        "rarity"@ != "id"@ && "rarity"@ != "name"@,
        "slot"@ != "id"@ && "slot"@ != "name"@ && "slot"@ != "rarity"@,
        "attributes"@ != "id"@ && "attributes"@ != "name"@ && "attributes"@ != "rarity"@ && "attributes"@ != "slot"@,
        "grants"@ != "id"@ && "grants"@ != "name"@ && "grants"@ != "rarity"@ && "grants"@ != "slot"@ && "grants"@ != "attributes"@,
        "moveSpeedAdd"@ != "id"@ && "moveSpeedAdd"@ != "name"@ && "moveSpeedAdd"@ != "rarity"@ && "moveSpeedAdd"@ != "slot"@
            && "moveSpeedAdd"@ != "attributes"@ && "moveSpeedAdd"@ != "grants"@,
{
    reveal_strlit("id");
    reveal_strlit("name");
    reveal_strlit("rarity");
    reveal_strlit("slot");
    reveal_strlit("attributes");
    reveal_strlit("grants");
    reveal_strlit("moveSpeedAdd");
    assert("id"@.len() == 2);
    assert("name"@.len() == 4 && "slot"@.len() == 4);
    assert("rarity"@.len() == 6 && "grants"@.len() == 6);
    assert("attributes"@.len() == 10);
    assert("moveSpeedAdd"@.len() == 12);
    assert("name"@[0] != "slot"@[0]);
    assert("rarity"@[0] != "grants"@[0]);
}

/// Renders an observation in the dataset's own item shape.
pub fn item_doc(o: &ItemObservation, m: Method, def: &ItemDef) -> (r: Doc)
    ensures
        item_doc_as(r, *o, m, *def),
{
    proof {
        reveal_strlit("id");
        reveal_strlit("name");
        reveal_strlit("rarity");
        reveal_strlit("slot");
        reveal_strlit("attributes");
        reveal_strlit("grants");
        reveal_strlit("moveSpeedAdd");
        lemma_item_keys_differ();
    }
    let grade = m.offered_grade();
    let ghost g = grade_text(m);
    let mut t: Vec<(String, Doc)> = Vec::new();
    let e = (owned("id"), Doc::Str(owned(o.id.as_str())));
    proof { lemma_entries_push(t@, e, *o, g, *def); }
    t.push(e);
    let e = (owned("name"), Doc::Str(owned(o.name.as_str())));
    proof { lemma_entries_push(t@, e, *o, g, *def); }
    t.push(e);
    if let Some(x) = def.rarity {
        let e = (owned("rarity"), Doc::Str(owned(x.as_str())));
        proof { lemma_entries_push(t@, e, *o, g, *def); }
        t.push(e);
    }
    if let Some(x) = def.slot {
        let e = (owned("slot"), Doc::Str(owned(x.as_str())));
        proof { lemma_entries_push(t@, e, *o, g, *def); }
        t.push(e);
    }
    if let Some(c) = &def.attributes {
        let e = (owned("attributes"), graded_points_doc(grade, c.value()));
        proof { lemma_entries_push(t@, e, *o, g, *def); }
        t.push(e);
    }
    let e = (owned("grants"), graded_grants_doc(grade, &def.grants));
    proof { lemma_entries_push(t@, e, *o, g, *def); }
    t.push(e);
    if let Some(c) = &def.move_speed_add {
        let e = (owned("moveSpeedAdd"), graded_micro_doc(grade, c.value().micro()));
        proof { lemma_entries_push(t@, e, *o, g, *def); }
        t.push(e);
    }
    proof {
        assert(entry_keys(t@) =~= item_keys(*def));
    }
    Doc::Table(t)
}

// ── Reviewing a submission ──────────────────────────────────────────────

/// What reviewing a submission found.
#[derive(Debug)]
pub struct Review {
    /// Items the dataset does not have, rendered as they would be written.
    pub fresh: Vec<(String, Doc)>,
    /// Items already present and identical where the submission speaks.
    pub known: Vec<String>,
    /// Items present and different, field by field.
    pub conflicts: Vec<Conflict>,
}

/// The items of a dataset's items file; none when it has no list.
pub open spec fn file_items(file: Doc) -> Seq<Doc> {
    match field(file, "items"@) {
        Some(Doc::List(v)) => v@,
        _ => Seq::empty(),
    }
}

/// The items of a file by id; an item without a string id is not one, and
/// a later item with the same id wins.
pub open spec fn existing_items(items: Seq<Doc>) -> Map<Seq<char>, Doc>
    decreases items.len(),
{
    if items.len() == 0 {
        Map::empty()
    } else {
        let m = existing_items(items.drop_last());
        match text_of(field(items.last(), "id"@)) {
            Some(id) => m.insert(id, items.last()),
            None => m,
        }
    }
}

/// A rendering of what an observation proposes.
pub open spec fn proposal_for(p: Doc, o: ItemObservation, m: Method) -> bool {
    exists|def: ItemDef| proposed_item(def, o, m) && #[trigger] item_doc_as(p, o, m, def)
}

/// The new items among the first `n` observations, with their renderings.
pub open spec fn fresh_fold(obs: Seq<ItemObservation>, ps: Seq<Doc>, ex: Map<Seq<char>, Doc>, n: int) -> Seq<(Seq<char>, Doc)>
    decreases n,
{
    if n <= 0 {
        Seq::empty()
    } else if ex.contains_key(obs[n - 1].id@) {
        fresh_fold(obs, ps, ex, n - 1)
    } else {
        fresh_fold(obs, ps, ex, n - 1).push((obs[n - 1].id@, ps[n - 1]))
    }
}

/// The known items among the first `n` observations: present, and in
/// agreement.
pub open spec fn known_fold(obs: Seq<ItemObservation>, gs: Seq<Seq<Conflict>>, ex: Map<Seq<char>, Doc>, n: int) -> Seq<Seq<char>>
    decreases n,
{
    if n <= 0 {
        Seq::empty()
    } else if ex.contains_key(obs[n - 1].id@) && gs[n - 1].len() == 0 {
        known_fold(obs, gs, ex, n - 1).push(obs[n - 1].id@)
    } else {
        known_fold(obs, gs, ex, n - 1)
    }
}

/// The conflicts of the first `n` observations, one run after another.
pub open spec fn conflict_fold(gs: Seq<Seq<Conflict>>, n: int) -> Seq<Conflict>
    decreases n,
{
    if n <= 0 {
        Seq::empty()
    } else {
        conflict_fold(gs, n - 1) + gs[n - 1]
    }
}

/// Fresh items as plain values.
pub open spec fn fresh_views(f: Seq<(String, Doc)>) -> Seq<(Seq<char>, Doc)> {
    f.map_values(|e: (String, Doc)| (e.0@, e.1))
}

/// The review of the first `n` observations: each rendered as it would be
/// written, and compared with the dataset's item of the same id where
/// there is one.
pub open spec fn review_upto(rev: Review, obs: Seq<ItemObservation>, m: Method, ex: Map<Seq<char>, Doc>, ps: Seq<Doc>, gs: Seq<Seq<Conflict>>, n: int) -> bool {
    &&& ps.len() == n
    &&& gs.len() == n
    &&& forall|i: int| 0 <= i < n ==> proposal_for(#[trigger] ps[i], obs[i], m)
    &&& forall|i: int| 0 <= i < n ==> (if ex.contains_key(obs[i].id@) {
        conflicts_as(#[trigger] gs[i], obs[i].id@, flat(Seq::empty(), ex[obs[i].id@]), flat(Seq::empty(), ps[i]))
    } else {
        gs[i].len() == 0
    })
    &&& fresh_views(rev.fresh@) == fresh_fold(obs, ps, ex, n)
    &&& crate::text::string_views(rev.known@) == known_fold(obs, gs, ex, n)
    &&& rev.conflicts@ == conflict_fold(gs, n)
}

/// What reviewing a submission against an items file finds.
pub open spec fn review_as(rev: Review, s: Submission, file: Doc) -> bool {
    exists|ps: Seq<Doc>, gs: Seq<Seq<Conflict>>|
        #[trigger] review_upto(rev, s.items@, s.method, existing_items(file_items(file)), ps, gs, s.items@.len() as int)
}

/// Reviews each observation against what the dataset's items file already
/// says. Building the item first is the validation: unknown attributes and
/// slots and over-precise decimals fail here rather than landing in the
/// dataset and failing at load.
pub fn review(s: &Submission, file: &Doc) -> (r: Result<Review, String>)
    ensures
        r is Ok <==> forall|i: int| 0 <= i < s.items@.len() ==> observation_ok(#[trigger] s.items@[i]),
        r matches Ok(rev) ==> review_as(rev, *s, *file),
{
    let no_items: Vec<Doc> = Vec::new();
    let items: &Vec<Doc> = match field_in(file, "items") {
        Some(Doc::List(v)) => v,
        _ => &no_items,
    };
    assert(items@ == file_items(*file));
    let mut index: IdMap<String, usize> = IdMap::new();
    let mut k: usize = 0;
    while k < items.len()
        invariant
            k <= items@.len(),
            index.wf(),
            forall|x: Seq<char>| #[trigger] index.view().contains_key(x) <==> existing_items(items@.subrange(0, k as int)).contains_key(x),
            forall|x: Seq<char>| #[trigger] index.view().contains_key(x) ==> index.view()[x] < items@.len()
                && items@[index.view()[x] as int] == existing_items(items@.subrange(0, k as int))[x],
        decreases items@.len() - k,
    {
        proof {
            let next = items@.subrange(0, k + 1);
            assert(next.drop_last() =~= items@.subrange(0, k as int));
            assert(next.last() == items@[k as int]);
        }
        match field_in(&items[k], "id") {
            Some(Doc::Str(id)) => {
                index.insert(owned(id.as_str()), k);
            },
            _ => {},
        }
        k = k + 1;
    }
    proof {
        assert(items@.subrange(0, items@.len() as int) =~= items@);
    }
    let ghost ex = existing_items(items@);
    let mut rev = Review { fresh: Vec::new(), known: Vec::new(), conflicts: Vec::new() };
    let ghost mut ps: Seq<Doc> = Seq::empty();
    let ghost mut gs: Seq<Seq<Conflict>> = Seq::empty();
    let mut i: usize = 0;
    proof {
        assert(fresh_views(rev.fresh@) =~= Seq::<(Seq<char>, Doc)>::empty());
        assert(crate::text::string_views(rev.known@) =~= Seq::<Seq<char>>::empty());
    }
    while i < s.items.len()
        invariant
            i <= s.items@.len(),
            index.wf(),
            ex == existing_items(file_items(*file)),
            items@ == file_items(*file),
            forall|x: Seq<char>| #[trigger] index.view().contains_key(x) <==> ex.contains_key(x),
            forall|x: Seq<char>| #[trigger] index.view().contains_key(x) ==> index.view()[x] < items@.len()
                && items@[index.view()[x] as int] == ex[x],
            forall|j: int| 0 <= j < i ==> observation_ok(#[trigger] s.items@[j]),
            review_upto(rev, s.items@, s.method, ex, ps, gs, i as int),
        decreases s.items@.len() - i,
    {
        let o = &s.items[i];
        let def = match o.to_item(s.method) {
            Ok(d) => d,
            Err(e) => return Err(e.to_string()),
        };
        let proposed = item_doc(o, s.method, &def);
        let ghost before = rev;
        let ghost ps0 = ps;
        let ghost gs0 = gs;
        let ghost p = proposed;
        proof {
            assert(proposal_for(proposed, *o, s.method));
        }
        match index.get(o.id.as_str()) {
            None => {
                rev.fresh.push((owned(o.id.as_str()), proposed));
                proof {
                    ps = ps.push(p);
                    gs = gs.push(Seq::empty());
                    assert(fresh_views(rev.fresh@) =~= fresh_views(before.fresh@).push((o.id@, p)));
                    assert(rev.conflicts@ =~= before.conflicts@ + gs[i as int]);
                }
            },
            Some(pos) => {
                let cs = compare_items(o.id.as_str(), &items[*pos], &proposed);
                let ghost g = cs@;
                if cs.len() == 0 {
                    rev.known.push(owned(o.id.as_str()));
                    proof {
                        assert(crate::text::string_views(rev.known@) =~= crate::text::string_views(before.known@).push(o.id@));
                        assert(rev.conflicts@ =~= before.conflicts@ + g);
                    }
                } else {
                    let mut cs = cs;
                    rev.conflicts.append(&mut cs);
                }
                proof {
                    ps = ps.push(p);
                    gs = gs.push(g);
                }
            },
        }
        proof {
            assert(ps == ps0.push(p));
            lemma_fresh_fold_same(s.items@, ps, ps0, ex, i as int);
            lemma_known_fold_same(s.items@, gs, gs0, ex, i as int);
            lemma_conflict_fold_same(gs, gs0, i as int);
            assert forall|j: int| 0 <= j < i + 1 implies proposal_for(#[trigger] ps[j], s.items@[j], s.method) by {
                if j < i {
                    assert(ps[j] == ps0[j]);
                }
            }
            assert forall|j: int| 0 <= j < i + 1 implies (if ex.contains_key(s.items@[j].id@) {
                conflicts_as(#[trigger] gs[j], s.items@[j].id@, flat(Seq::empty(), ex[s.items@[j].id@]), flat(Seq::empty(), ps[j]))
            } else {
                gs[j].len() == 0
            }) by {
                if j < i {
                    assert(gs[j] == gs0[j]);
                    assert(ps[j] == ps0[j]);
                }
            }
        }
        i = i + 1;
    }
    proof {
        assert(review_upto(rev, s.items@, s.method, ex, ps, gs, s.items@.len() as int));
    }
    Ok(rev)
}

/// Folds agree where their witnesses do.
proof fn lemma_conflict_fold_same(a: Seq<Seq<Conflict>>, b: Seq<Seq<Conflict>>, m: int)
    requires
        0 <= m <= a.len(),
        m <= b.len(),
        forall|j: int| 0 <= j < m ==> a[j] == b[j],
    ensures
        conflict_fold(a, m) == conflict_fold(b, m),
    decreases m,
{
    if m > 0 {
        lemma_conflict_fold_same(a, b, m - 1);
    }
}

/// Folds agree where their witnesses do.
proof fn lemma_fresh_fold_same(obs: Seq<ItemObservation>, a: Seq<Doc>, b: Seq<Doc>, ex: Map<Seq<char>, Doc>, m: int)
    requires
        0 <= m <= a.len(),
        m <= b.len(),
        forall|j: int| 0 <= j < m ==> a[j] == b[j],
    ensures
        fresh_fold(obs, a, ex, m) == fresh_fold(obs, b, ex, m),
    decreases m,
{
    if m > 0 {
        lemma_fresh_fold_same(obs, a, b, ex, m - 1);
    }
}

/// Folds agree where their witnesses do.
proof fn lemma_known_fold_same(obs: Seq<ItemObservation>, a: Seq<Seq<Conflict>>, b: Seq<Seq<Conflict>>, ex: Map<Seq<char>, Doc>, m: int)
    requires
        0 <= m <= a.len(),
        m <= b.len(),
        forall|j: int| 0 <= j < m ==> a[j] == b[j],
    ensures
        known_fold(obs, a, ex, m) == known_fold(obs, b, ex, m),
    decreases m,
{
    if m > 0 {
        lemma_known_fold_same(obs, a, b, ex, m - 1);
    }
}

// ── Graded groups ───────────────────────────────────────────────────────

/// Whether an object carries a grade.
pub open spec fn has_confidence(es: Seq<(String, Doc)>) -> bool {
    lookup(es, "confidence"@) is Some
}

/// The paths a grade attaches to inside a rendered item. A graded group is
/// an object carrying a `confidence`, and the grade covers the whole group,
/// so the evidence is about the group rather than a leaf inside it; scalars
/// outside any group get a path of their own.
pub open spec fn groups(prefix: Seq<char>, d: Doc) -> Seq<Seq<char>>
    decreases d,
{
    match d {
        Doc::Table(es) => if has_confidence(es@) {
            if prefix.len() > 0 { seq![prefix] } else { Seq::empty() }
        } else {
            groups_in(prefix, es@)
        },
        _ => if prefix.len() > 0 { seq![prefix] } else { Seq::empty() },
    }
}

/// The graded groups of an object's entries, in entry order.
pub open spec fn groups_in(prefix: Seq<char>, es: Seq<(String, Doc)>) -> Seq<Seq<char>>
    decreases es,
{
    if es.len() == 0 {
        Seq::empty()
    } else {
        groups_in(prefix, es.subrange(0, es.len() - 1)) + groups(joined(prefix, es[es.len() - 1].0@), es[es.len() - 1].1)
    }
}

/// Appends the graded groups under a prefix.
fn push_groups(d: &Doc, prefix: &str, out: &mut Vec<String>)
    ensures
        crate::text::string_views(final(out)@) == crate::text::string_views(old(out)@) + groups(prefix@, *d),
    decreases d,
{
    let ghost start = crate::text::string_views(out@);
    match d {
        Doc::Table(es) => {
            if get(es, "confidence").is_some() {
                if chars_of(prefix).len() > 0 {
                    out.push(owned(prefix));
                    proof {
                        assert(crate::text::string_views(out@) =~= start + seq![prefix@]);
                    }
                } else {
                    proof {
                        assert(start + Seq::<Seq<char>>::empty() =~= start);
                    }
                }
                return;
            }
            let mut i: usize = 0;
            proof {
                assert(es@.subrange(0, 0) =~= Seq::<(String, Doc)>::empty());
                assert(start + Seq::<Seq<char>>::empty() =~= start);
            }
            while i < es.len()
                invariant
                    i <= es@.len(),
                    *d == Doc::Table(*es),
                    crate::text::string_views(out@) == start + groups_in(prefix@, es@.subrange(0, i as int)),
                decreases es@.len() - i,
            {
                let path = join_key(prefix, es[i].0.as_str());
                proof {
                    assert((*d)->Table_0 == *es);
                    assert(decreases_to!(*d => (*d)->Table_0));
                    assert(decreases_to!(*es => es@));
                    assert(decreases_to!(es@ => es@[i as int]));
                    assert(decreases_to!(es@[i as int] => es@[i as int].1));
                }
                push_groups(&es[i].1, path.as_str(), out);
                proof {
                    let next = es@.subrange(0, i + 1);
                    assert(next.subrange(0, next.len() - 1) =~= es@.subrange(0, i as int));
                    assert(next[next.len() - 1] == es@[i as int]);
                    assert(crate::text::string_views(out@) =~= start + groups_in(prefix@, next));
                }
                i = i + 1;
            }
            proof {
                assert(es@.subrange(0, es@.len() as int) =~= es@);
            }
        },
        _ => {
            if chars_of(prefix).len() > 0 {
                out.push(owned(prefix));
                proof {
                    assert(crate::text::string_views(out@) =~= start + seq![prefix@]);
                }
            } else {
                proof {
                    assert(start + Seq::<Seq<char>>::empty() =~= start);
                }
            }
        },
    }
}

/// The graded groups of a rendered item, in order.
pub fn graded_groups(d: &Doc) -> (r: Vec<String>)
    ensures
        crate::text::string_views(r@) == groups(Seq::empty(), *d),
{
    let mut out: Vec<String> = Vec::new();
    push_groups(d, "", &mut out);
    proof {
        reveal_strlit("");
        assert(""@ =~= Seq::<char>::empty());
        assert(crate::text::string_views(Seq::<String>::empty()) =~= Seq::<Seq<char>>::empty());
        assert(Seq::<Seq<char>>::empty() + groups(""@, *d) =~= groups(""@, *d));
    }
    out
}

/// A dotted path split at its dots, the way `str::split('.')` splits it:
/// the empty text is one empty segment.
pub open spec fn split_dots(s: Seq<char>) -> Seq<Seq<char>>
    decreases s.len(),
{
    if s.len() == 0 {
        seq![Seq::empty()]
    } else {
        let r = split_dots(s.drop_last());
        if s.last() == '.' {
            r.push(Seq::empty())
        } else {
            r.update(r.len() - 1, r.last().push(s.last()))
        }
    }
}

/// A split is never empty.
proof fn lemma_split_nonempty(s: Seq<char>)
    ensures
        split_dots(s).len() >= 1,
    decreases s.len(),
{
    if s.len() > 0 {
        lemma_split_nonempty(s.drop_last());
    }
}

/// Where a path leads in a document, step by step.
pub open spec fn walk(d: Option<Doc>, path: Seq<Seq<char>>) -> Option<Doc>
    decreases path.len(),
{
    if path.len() == 0 {
        d
    } else {
        match walk(d, path.drop_last()) {
            Some(x) => field(x, path.last()),
            None => None,
        }
    }
}

/// The grade a rendered item carries at a graded-group path.
pub open spec fn grade_at(item: Doc, f: Seq<char>) -> Option<Seq<char>> {
    match walk(Some(item), split_dots(f)) {
        Some(x) => text_of(field(x, "confidence"@)),
        None => None,
    }
}

/// Splits a path at its dots.
fn split_path(s: &str) -> (r: Vec<Vec<char>>)
    ensures
        r@.map_values(|v: Vec<char>| v@) == split_dots(s@),
{
    let cs = chars_of(s);
    let mut out: Vec<Vec<char>> = Vec::new();
    out.push(Vec::new());
    let mut i: usize = 0;
    proof {
        assert(cs@.subrange(0, 0) =~= Seq::<char>::empty());
        assert(out@.map_values(|v: Vec<char>| v@) =~= seq![Seq::<char>::empty()]);
    }
    while i < cs.len()
        invariant
            i <= cs@.len(),
            cs@ == s@,
            out@.len() >= 1,
            out@.map_values(|v: Vec<char>| v@) == split_dots(cs@.subrange(0, i as int)),
        decreases cs@.len() - i,
    {
        let ghost before = out@.map_values(|v: Vec<char>| v@);
        proof {
            let next = cs@.subrange(0, i + 1);
            assert(next.drop_last() =~= cs@.subrange(0, i as int));
            assert(next.last() == cs@[i as int]);
        }
        if cs[i] == '.' {
            out.push(Vec::new());
            proof {
                assert(out@.map_values(|v: Vec<char>| v@) =~= before.push(Seq::empty()));
            }
        } else {
            let n = out.len() - 1;
            let mut last = out.pop().unwrap();
            last.push(cs[i]);
            out.push(last);
            proof {
                assert(out@.map_values(|v: Vec<char>| v@) =~= before.update(n as int, before[n as int].push(cs@[i as int])));
            }
        }
        i = i + 1;
    }
    proof {
        assert(cs@.subrange(0, cs@.len() as int) =~= cs@);
    }
    out
}

/// The grade a rendered item carries at a graded-group path, if any.
pub fn grade_of(item: &Doc, f: &str) -> (r: Option<String>)
    ensures
        crate::doc::opt_view(r) == grade_at(*item, f@),
{
    let steps = split_path(f);
    let ghost path = steps@.map_values(|v: Vec<char>| v@);
    let mut node: &Doc = item;
    let mut i: usize = 0;
    proof {
        assert(path.subrange(0, 0) =~= Seq::<Seq<char>>::empty());
    }
    while i < steps.len()
        invariant
            i <= steps@.len(),
            path == steps@.map_values(|v: Vec<char>| v@),
            path == split_dots(f@),
            walk(Some(*item), path.subrange(0, i as int)) == Some(*node),
        decreases steps@.len() - i,
    {
        let key = string_of(&steps[i]);
        proof {
            let next = path.subrange(0, i + 1);
            assert(next.drop_last() =~= path.subrange(0, i as int));
            assert(next.last() == key@);
        }
        match field_in(node, key.as_str()) {
            Some(x) => node = x,
            None => {
                proof {
                    lemma_walk_stays_none(Some(*item), path, i + 1);
                    assert(path.subrange(0, path.len() as int) =~= path);
                }
                return None;
            },
        }
        i = i + 1;
    }
    proof {
        assert(path.subrange(0, path.len() as int) =~= path);
    }
    match field_in(node, "confidence") {
        Some(Doc::Str(g)) => Some(owned(g.as_str())),
        _ => None,
    }
}

/// Once a walk leaves the document, it stays out.
proof fn lemma_walk_stays_none(d: Option<Doc>, path: Seq<Seq<char>>, n: int)
    requires
        0 <= n <= path.len(),
        walk(d, path.subrange(0, n)) is None,
    ensures
        walk(d, path) is None,
    decreases path.len() - n,
{
    if n < path.len() {
        let next = path.subrange(0, n + 1);
        assert(next.drop_last() =~= path.subrange(0, n));
        lemma_walk_stays_none(d, path, n + 1);
    } else {
        assert(path.subrange(0, n) =~= path);
    }
}

// ── Recording who saw what ──────────────────────────────────────────────

/// A field the evidence would now support raising, and how many
/// independent observers stand behind it.
#[derive(Debug)]
pub struct Promotion {
    /// The item's id.
    pub item: String,
    /// The graded group.
    pub field: String,
    /// Independent observers.
    pub observers: usize,
}

/// What one rendered observation attests: each graded group, and whether
/// the rendering grades it `unverified`.
pub open spec fn rendered_claims(id: Seq<char>, p: Doc) -> Seq<(Seq<char>, Seq<char>, bool)> {
    groups(Seq::empty(), p).map_values(|f: Seq<char>| (id, f, grade_at(p, f) == Some("unverified"@)))
}

/// What the first `n` observations attest, in order.
pub open spec fn claims(obs: Seq<ItemObservation>, ps: Seq<Doc>, n: int) -> Seq<(Seq<char>, Seq<char>, bool)>
    decreases n,
{
    if n <= 0 {
        Seq::empty()
    } else {
        claims(obs, ps, n - 1) + rendered_claims(obs[n - 1].id@, ps[n - 1])
    }
}

/// Whether a run of claims speaks to a field of an item.
pub open spec fn claimed(c: Seq<(Seq<char>, Seq<char>, bool)>, item: Seq<char>, field: Seq<char>) -> bool {
    exists|k: int| 0 <= k < c.len() && #[trigger] c[k].0 == item && c[k].1 == field
}

/// The reading a submission records.
pub open spec fn reading_of(s: Submission) -> Attestation {
    Attestation { observer: s.observer, at: s.observed_at, method: s.method }
}

/// The promotions a run of claims raises against a ledger that held
/// `before`: the claims graded `unverified` that two independent observers
/// now stand behind, once the submission's reading is in.
pub open spec fn promotions_of(c: Seq<(Seq<char>, Seq<char>, bool)>, before: Ledger, a: Attestation) -> Seq<(Seq<char>, Seq<char>, int)>
    decreases c.len(),
{
    if c.len() == 0 {
        Seq::empty()
    } else {
        let r = promotions_of(c.drop_last(), before, a);
        let x = c.last();
        let n = independent_set(before.readings(x.0, x.1).insert(a.observer@, a)).len();
        if n >= 2 && x.2 {
            r.push((x.0, x.1, n as int))
        } else {
            r
        }
    }
}

/// Promotions as plain values.
pub open spec fn promotion_views(p: Seq<Promotion>) -> Seq<(Seq<char>, Seq<char>, int)> {
    p.map_values(|x: Promotion| (x.item@, x.field@, x.observers as int))
}

/// The ledger after a run of claims: the submission's reading added to
/// every field it speaks to, and nothing else touched.
pub open spec fn ledger_after(after: Ledger, before: Ledger, c: Seq<(Seq<char>, Seq<char>, bool)>, a: Attestation) -> bool {
    &&& after.wf()
    &&& forall|i: Seq<char>, f: Seq<char>| #[trigger] after.readings(i, f) == if claimed(c, i, f) {
        before.readings(i, f).insert(a.observer@, a)
    } else {
        before.readings(i, f)
    }
}

/// What recording a submission does, given each observation's rendering.
pub open spec fn attested_with(r: Seq<Promotion>, after: Ledger, before: Ledger, s: Submission, ps: Seq<Doc>) -> bool {
    let n = s.items@.len() as int;
    &&& ps.len() == n
    &&& forall|i: int| 0 <= i < n ==> proposal_for(#[trigger] ps[i], s.items@[i], s.method)
    &&& ledger_after(after, before, claims(s.items@, ps, n), reading_of(s))
    &&& promotion_views(r) == promotions_of(claims(s.items@, ps, n), before, reading_of(s))
}

/// What recording a submission does: for some rendering of each
/// observation as it would be written, the reading lands on every graded
/// group it renders, and the promotions are the ones those claims raise.
pub open spec fn attested(r: Seq<Promotion>, after: Ledger, before: Ledger, s: Submission) -> bool {
    exists|ps: Seq<Doc>| #[trigger] attested_with(r, after, before, s, ps)
}

/// Records who saw what, and returns the fields the ledger now supports
/// raising. Nothing here raises a grade: the machine assembles the
/// evidence and a person decides what it is worth.
pub fn attest(s: &Submission, ledger: &mut Ledger) -> (r: Result<Vec<Promotion>, String>)
    requires
        old(ledger).wf(),
    ensures
        final(ledger).wf(),
        r is Ok <==> forall|i: int| 0 <= i < s.items@.len() ==> observation_ok(#[trigger] s.items@[i]),
        r matches Ok(p) ==> attested(p@, *final(ledger), *old(ledger), *s),
{
    let ghost before = *ledger;
    let ghost a = reading_of(*s);
    let ghost mut ps: Seq<Doc> = Seq::empty();
    let ghost mut c: Seq<(Seq<char>, Seq<char>, bool)> = Seq::empty();
    let mut out: Vec<Promotion> = Vec::new();
    let mut j: usize = 0;
    while j < s.items.len()
        invariant
            j <= s.items@.len(),
            ledger.wf(),
            ps.len() == j,
            forall|i: int| 0 <= i < j ==> proposal_for(#[trigger] ps[i], s.items@[i], s.method),
            forall|i: int| 0 <= i < j ==> observation_ok(#[trigger] s.items@[i]),
            c == claims(s.items@, ps, j as int),
            ledger_after(*ledger, before, c, a),
            promotion_views(out@) == promotions_of(c, before, a),
            a == reading_of(*s),
        decreases s.items@.len() - j,
    {
        let o = &s.items[j];
        let def = match o.to_item(s.method) {
            Ok(d) => d,
            Err(e) => return Err(e.to_string()),
        };
        let rendered = item_doc(o, s.method, &def);
        let fields = graded_groups(&rendered);
        let ghost c0 = c;
        let ghost rc = rendered_claims(o.id@, rendered);
        let mut k: usize = 0;
        proof {
            assert(rc.subrange(0, 0) =~= Seq::<(Seq<char>, Seq<char>, bool)>::empty());
            assert(c =~= c0 + rc.subrange(0, 0));
        }
        while k < fields.len()
            invariant
                k <= fields@.len(),
                crate::text::string_views(fields@) == groups(Seq::empty(), rendered),
                rc == rendered_claims(o.id@, rendered),
                rc.len() == fields@.len(),
                ledger.wf(),
                c == c0 + rc.subrange(0, k as int),
                ledger_after(*ledger, before, c, a),
                promotion_views(out@) == promotions_of(c, before, a),
                a == reading_of(*s),
                *o == s.items@[j as int],
            decreases fields@.len() - k,
        {
            let field = &fields[k];
            let reading = Attestation { observer: s.observer.clone(), at: s.observed_at.clone(), method: s.method };
            proof {
                assert(reading == a);
                assert(crate::text::string_views(fields@)[k as int] == field@);
                assert(rc[k as int] == (o.id@, field@, grade_at(rendered, field@) == Some("unverified"@)));
            }
            let ghost l0 = *ledger;
            ledger.record(o.id.as_str(), field.as_str(), reading);
            let ghost c1 = c0 + rc.subrange(0, k + 1);
            proof {
                assert(c1 =~= c.push(rc[k as int]));
                assert forall|i: Seq<char>, f: Seq<char>| #[trigger] ledger.readings(i, f) == if claimed(c1, i, f) {
                    before.readings(i, f).insert(a.observer@, a)
                } else {
                    before.readings(i, f)
                } by {
                    if i == o.id@ && f == field@ {
                        assert(c1[c.len() as int].0 == i && c1[c.len() as int].1 == f);
                        if claimed(c, i, f) {
                            assert(before.readings(i, f).insert(a.observer@, a).insert(a.observer@, a)
                                =~= before.readings(i, f).insert(a.observer@, a));
                        }
                    } else {
                        if claimed(c1, i, f) {
                            let w = choose|w: int| 0 <= w < c1.len() && #[trigger] c1[w].0 == i && c1[w].1 == f;
                            assert(w < c.len());
                            assert(c[w] == c1[w]);
                        }
                        if claimed(c, i, f) {
                            let w = choose|w: int| 0 <= w < c.len() && #[trigger] c[w].0 == i && c[w].1 == f;
                            assert(c1[w] == c[w]);
                        }
                    }
                }
                assert(ledger.readings(o.id@, field@) == before.readings(o.id@, field@).insert(a.observer@, a));
                assert(c1.drop_last() =~= c);
            }
            let supported = ledger.supports_verified(o.id.as_str(), field.as_str());
            if supported {
                match grade_of(&rendered, field.as_str()) {
                    Some(g) => {
                        if str_eq(g.as_str(), "unverified") {
                            let n = ledger.independent(o.id.as_str(), field.as_str());
                            out.push(Promotion { item: owned(o.id.as_str()), field: owned(field.as_str()), observers: n });
                        }
                    },
                    None => {},
                }
            }
            proof {
                assert(promotion_views(out@) =~= promotions_of(c1, before, a));
                c = c1;
            }
            k = k + 1;
        }
        proof {
            assert(rc.subrange(0, rc.len() as int) =~= rc);
            let ps1 = ps.push(rendered);
            lemma_claims_same(s.items@, ps1, ps, j as int);
            assert(claims(s.items@, ps1, j + 1) == claims(s.items@, ps1, j as int) + rendered_claims(s.items@[j as int].id@, ps1[j as int]));
            assert forall|i: int| 0 <= i < j + 1 implies proposal_for(#[trigger] ps1[i], s.items@[i], s.method) by {
                if i < j {
                    assert(ps1[i] == ps[i]);
                }
            }
            ps = ps1;
        }
        j = j + 1;
    }
    proof {
        assert(before == *old(ledger));
        assert(attested_with(out@, *ledger, *old(ledger), *s, ps));
        assert(attested(out@, *ledger, *old(ledger), *s));
    }
    Ok(out)
}

/// Claims agree where their renderings do.
proof fn lemma_claims_same(obs: Seq<ItemObservation>, a: Seq<Doc>, b: Seq<Doc>, m: int)
    requires
        0 <= m <= a.len(),
        m <= b.len(),
        forall|j: int| 0 <= j < m ==> a[j] == b[j],
    ensures
        claims(obs, a, m) == claims(obs, b, m),
    decreases m,
{
    if m > 0 {
        lemma_claims_same(obs, a, b, m - 1);
    }
}

// ── Writing fresh items in ─────────────────────────────────────────────

/// An item document's id: the text of its `id` field, when it has one.
pub open spec fn item_key(d: Doc) -> Option<Seq<char>> {
    match field(d, "id"@) {
        Some(Doc::Str(s)) => Some(s@),
        _ => None,
    }
}

/// Key order: an item without an id first, then ids in ascending order.
pub open spec fn key_le(a: Option<Seq<char>>, b: Option<Seq<char>>) -> bool {
    match (a, b) {
        (None, _) => true,
        (Some(_), None) => false,
        (Some(x), Some(y)) => !seq_lt(y, x),
    }
}

/// The documents of the fresh items.
pub open spec fn fresh_docs(f: Seq<(String, Doc)>) -> Seq<Doc> {
    f.map_values(|p: (String, Doc)| p.1)
}

/// Items in key order.
pub open spec fn items_sorted(s: Seq<Doc>) -> bool {
    forall|i: int, j: int| 0 <= i < j < s.len() ==> key_le(item_key(#[trigger] s[i]), item_key(#[trigger] s[j]))
}

/// The id of an item document, borrowed.
fn key_of(d: &Doc) -> (r: Option<&str>)
    ensures
        match r {
            Some(s) => item_key(*d) == Some(s@),
            None => item_key(*d) is None,
        },
{
    match field_in(d, "id") {
        Some(Doc::Str(s)) => Some(s.as_str()),
        _ => None,
    }
}

/// Whether key `a` comes strictly before key `b`.
fn key_before(a: Option<&str>, b: Option<&str>) -> (r: bool)
    ensures
        r == !key_le(match b { Some(y) => Some(y@), None => None }, match a { Some(x) => Some(x@), None => None }),
{
    match (a, b) {
        (None, None) => false,
        (None, Some(_)) => true,
        (Some(_), None) => false,
        (Some(x), Some(y)) => crate::text::str_lt(x, y),
    }
}

/// `key_le` is a total preorder.
proof fn lemma_key_order(a: Option<Seq<char>>, b: Option<Seq<char>>, c: Option<Seq<char>>)
    ensures
        key_le(a, a),
        key_le(a, b) || key_le(b, a),
        key_le(a, b) && key_le(b, c) ==> key_le(a, c),
{
    if let (Some(x), Some(y)) = (a, b) {
        crate::text::lemma_seq_lt_total(x, y);
    }
    if let Some(x) = a {
        crate::text::lemma_seq_lt_total(x, x);
    }
    if let (Some(x), Some(y), Some(z)) = (a, b, c) {
        crate::text::lemma_seq_lt_total(x, y);
        crate::text::lemma_seq_lt_total(y, z);
        crate::text::lemma_seq_lt_total(x, z);
        if seq_lt(z, x) && !seq_lt(y, x) && !seq_lt(z, y) {
            if x != y {
                crate::text::lemma_seq_lt_transitive(x, y, z);
            }
        }
    }
}

/// Inserts one item after every item that does not come after it.
fn insert_in_order(out: &mut Vec<Doc>, x: Doc)
    requires
        items_sorted(old(out)@),
    ensures
        items_sorted(final(out)@),
        final(out)@.to_multiset() == old(out)@.to_multiset().insert(x),
{
    let kx = key_of(&x);
    let ghost kxv = item_key(x);
    let mut p: usize = 0;
    while p < out.len()
        invariant
            p <= out@.len(),
            kxv == match kx { Some(s) => Some(s@), None => None },
            kxv == item_key(x),
            forall|j: int| 0 <= j < p ==> key_le(item_key(#[trigger] out@[j]), kxv),
        ensures
            p <= out@.len(),
            forall|j: int| 0 <= j < p ==> key_le(item_key(#[trigger] out@[j]), kxv),
            p < out@.len() ==> !key_le(item_key(out@[p as int]), kxv),
        decreases out@.len() - p,
    {
        let kj = key_of(&out[p]);
        if key_before(kx, kj) {
            break;
        }
        proof { lemma_key_order(item_key(out@[p as int]), kxv, kxv); }
        p = p + 1;
    }
    let ghost before = out@;
    proof {
        if p < before.len() {
            lemma_key_order(kxv, item_key(before[p as int]), kxv);
        }
    }
    out.insert(p, x);
    proof {
        vstd::seq_lib::to_multiset_insert(before, p as int, x);
        assert forall|i: int, j: int| 0 <= i < j < out@.len() implies key_le(item_key(#[trigger] out@[i]), item_key(#[trigger] out@[j])) by {
            if j < p {
                assert(out@[i] == before[i] && out@[j] == before[j]);
            } else if j == p {
                assert(out@[i] == before[i]);
            } else if i < p {
                assert(out@[i] == before[i] && out@[j] == before[j - 1]);
            } else if i == p {
                assert(out@[j] == before[j - 1]);
                lemma_key_order(kxv, item_key(before[p as int]), kxv);
                if j - 1 > p {
                    assert(key_le(item_key(before[p as int]), item_key(before[j - 1])));
                }
                lemma_key_order(kxv, item_key(before[p as int]), item_key(before[j - 1]));
            } else {
                assert(out@[i] == before[i - 1] && out@[j] == before[j - 1]);
            }
        }
    }
}

/// The items list with the fresh items written in, every item in id order,
/// items without an id first.
pub fn with_fresh_items(items: Vec<Doc>, fresh: Vec<(String, Doc)>) -> (r: Vec<Doc>)
    ensures
        items_sorted(r@),
        r@.to_multiset() == (items@ + fresh_docs(fresh@)).to_multiset(),
{
    let ghost all = items@ + fresh_docs(fresh@);
    let ghost n = items@.len();
    let mut out: Vec<Doc> = Vec::new();
    let mut rest = items;
    let ghost mut k: int = 0;
    proof {
        assert(all.subrange(0, 0) =~= Seq::<Doc>::empty());
        assert(out@ =~= Seq::<Doc>::empty());
    }
    while rest.len() > 0
        invariant
            0 <= k,
            k + rest@.len() == n,
            rest@ == all.subrange(k, n as int),
            n <= all.len(),
            all == items@ + fresh_docs(fresh@),
            items_sorted(out@),
            out@.to_multiset() == all.subrange(0, k).to_multiset(),
        decreases rest@.len(),
    {
        let ghost r0 = rest@;
        let x = rest.remove(0);
        proof {
            assert(x == all[k]);
            assert(all.subrange(0, k + 1) =~= all.subrange(0, k).push(x));
            vstd::seq_lib::to_multiset_build(all.subrange(0, k), x);
            assert(rest@ =~= all.subrange(k + 1, n as int));
        }
        insert_in_order(&mut out, x);
        proof { k = k + 1; }
    }
    let mut more = fresh;
    let ghost m = fresh@.len();
    proof {
        assert(rest@.len() == 0);
        assert(fresh_docs(more@) =~= all.subrange(k, (n + m) as int));
    }
    while more.len() > 0
        invariant
            k + more@.len() == n + m,
            n <= k,
            fresh_docs(more@) == all.subrange(k, (n + m) as int),
            all.len() == n + m,
            all == items@ + fresh_docs(fresh@),
            items_sorted(out@),
            out@.to_multiset() == all.subrange(0, k).to_multiset(),
        decreases more@.len(),
    {
        let ghost m0 = more@;
        let (_, x) = more.remove(0);
        proof {
            assert(fresh_docs(m0)[0] == x);
            assert(fresh_docs(m0) == all.subrange(k, (n + m) as int));
            assert(x == all[k]);
            assert(all.subrange(0, k + 1) =~= all.subrange(0, k).push(x));
            vstd::seq_lib::to_multiset_build(all.subrange(0, k), x);
            assert(more@ =~= m0.subrange(1, m0.len() as int));
            assert(fresh_docs(more@) =~= fresh_docs(m0).subrange(1, m0.len() as int));
            assert(fresh_docs(more@) =~= all.subrange(k + 1, (n + m) as int));
        }
        insert_in_order(&mut out, x);
        proof { k = k + 1; }
    }
    proof {
        assert(all.subrange(0, k) =~= all);
    }
    out
}

} // verus!
