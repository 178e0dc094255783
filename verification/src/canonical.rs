//! Canonical encoding of resolved stat blocks and exchange outcomes.
//!
//! A diff compares canonical forms, never text that happened to come out of
//! some serialiser, and this module defines the only one:
//!
//! - JSON-shaped text with **no whitespace**.
//! - Object keys in **lexicographic order** at every level: `attributes`,
//!   then every derived stat by its full id (`derived.…`), in key order.
//! - Numbers are integers only: a [`Fixed`] appears as its raw micro count
//!   (`"micro":7812500`), attributes as whole points.
//! - **Absence and null are distinct**: an absent field is omitted; `null`
//!   never appears.
//! - Every value carries its grade; the `note` key exists exactly when the
//!   grade is `unknown`.
//! - Strings escape `"`, `\` and control characters below `0x20` (as
//!   `\u00XX`); nothing else is escaped, so the encoding of a string is
//!   unique.
//!
//! The trace is presentation, not state: it is not part of the canonical
//! form.

use vstd::prelude::*;

use crate::confidence::{Confidence, ConfidenceLevel, level_name};
use crate::exchange::ExchangeOutcome;
use crate::fixed::{Fixed, int_render, push_int};
use crate::ids::DerivedStatId;
use crate::resolve::Resolved;
use crate::schema::{AttributeBlock, AttributeKind, attribute_name, block_get};
use crate::text::{append_chars, chars_of, string_of};

verus! {

/// The sixteen lowercase hexadecimal digits.
pub open spec fn hex_digits() -> Seq<char> {
    seq!['0', '1', '2', '3', '4', '5', '6', '7', '8', '9', 'a', 'b', 'c', 'd', 'e', 'f']
}

/// How one character is written inside a canonical string.
pub open spec fn escape_char(c: char) -> Seq<char> {
    if c == '"' {
        seq!['\\', '"']
    } else if c == '\\' {
        seq!['\\', '\\']
    } else if (c as u32) < 0x20 {
        seq!['\\', 'u', '0', '0', hex_digits()[(c as u32 / 16) as int], hex_digits()[(c as u32 % 16) as int]]
    } else {
        seq![c]
    }
}

/// A string's characters, each escaped, in order.
pub open spec fn escape(s: Seq<char>) -> Seq<char>
    decreases s.len(),
{
    if s.len() == 0 {
        Seq::empty()
    } else {
        escape_char(s[0]) + escape(s.drop_first())
    }
}

/// A canonical string: quoted and escaped.
pub open spec fn json_string(s: Seq<char>) -> Seq<char> {
    seq!['"'] + escape(s) + seq!['"']
}

/// `,"note":…` for an `Unknown` value; nothing otherwise.
pub open spec fn note_text(note: Option<Seq<char>>) -> Seq<char> {
    match note {
        Some(n) => ","@ + json_string("note"@) + ":"@ + json_string(n),
        None => Seq::empty(),
    }
}

/// `"key":{"confidence":…,"micro":…[,"note":…]}`: the inner keys are
/// already in order.
pub open spec fn value_text(key: Seq<char>, level: ConfidenceLevel, micro: int, note: Option<Seq<char>>) -> Seq<char> {
    json_string(key) + ":{"@ + json_string("confidence"@) + ":"@ + json_string(level_name(level))
        + ","@ + json_string("micro"@) + ":"@ + int_render(micro) + note_text(note) + "}"@
}

/// A graded number under a key.
pub open spec fn graded_fixed_text(key: Seq<char>, c: Confidence<Fixed>) -> Seq<char> {
    value_text(key, c.spec_level(), c.spec_value()@, c.spec_note())
}

/// The attributes in the order of their names.
pub open spec fn lex_attributes() -> Seq<AttributeKind> {
    seq![
        AttributeKind::Agility,
        AttributeKind::Dexterity,
        AttributeKind::Knowledge,
        AttributeKind::Resourcefulness,
        AttributeKind::Strength,
        AttributeKind::Vigor,
        AttributeKind::Will,
    ]
}

/// The first `n` attributes of a block as `"name":points`, comma-separated.
pub open spec fn points_text(b: AttributeBlock, n: int) -> Seq<char>
    decreases n,
{
    if n <= 0 {
        Seq::empty()
    } else {
        let k = lex_attributes()[n - 1];
        points_text(b, n - 1) + (if n > 1 { ","@ } else { Seq::empty() }) + json_string(attribute_name(k)) + ":"@
            + int_render(block_get(b, k))
    }
}

/// `"key":{"confidence":…[,"note":…],"points":{…}}`.
pub open spec fn attributes_text(key: Seq<char>, c: Confidence<AttributeBlock>) -> Seq<char> {
    json_string(key) + ":{"@ + json_string("confidence"@) + ":"@ + json_string(level_name(c.spec_level()))
        + note_text(c.spec_note()) + ","@ + json_string("points"@) + ":{"@ + points_text(c.spec_value(), 7) + "}}"@
}

/// The first `n` derived stats of a table, each preceded by a comma.
pub open spec fn derived_text(es: Seq<(DerivedStatId, Confidence<Fixed>)>, n: int) -> Seq<char>
    decreases n,
{
    if n <= 0 {
        Seq::empty()
    } else {
        derived_text(es, n - 1) + ","@ + graded_fixed_text(es[n - 1].0@, es[n - 1].1)
    }
}

/// The canonical form of a resolved block: its attributes and every
/// derived stat, and nothing else.
pub open spec fn statblock_text(r: Resolved) -> Seq<char> {
    "{"@ + attributes_text("attributes"@, r.attributes) + derived_text(r.derived.entries(), r.derived.entries().len() as int) + "}"@
}

/// The canonical form of an exchange outcome: its damage and effective
/// reduction.
pub open spec fn exchange_text(o: ExchangeOutcome) -> Seq<char> {
    "{"@ + value_text("damage"@, o.damage.spec_level(), o.damage.spec_value()@, o.damage.spec_note()) + ","@
        + value_text("effective_pdr"@, o.effective_pdr.spec_level(), o.effective_pdr.spec_value()@, o.effective_pdr.spec_note())
        + "}"@
}

/// Escaping distributes over concatenation.
proof fn lemma_escape_append(a: Seq<char>, b: Seq<char>)
    ensures
        escape(a + b) == escape(a) + escape(b),
    decreases a.len(),
{
    if a.len() == 0 {
        assert(a + b =~= b);
        assert(escape(a) + escape(b) =~= escape(b));
    } else {
        assert((a + b).drop_first() =~= a.drop_first() + b);
        assert((a + b)[0] == a[0]);
        lemma_escape_append(a.drop_first(), b);
        assert(escape_char(a[0]) + (escape(a.drop_first()) + escape(b)) =~= escape_char(a[0]) + escape(a.drop_first()) + escape(b));
    }
}

/// Appends a canonical string.
fn write_json_string(out: &mut Vec<char>, s: &str)
    ensures
        final(out)@ == old(out)@ + json_string(s@),
{
    let digits: [char; 16] = ['0', '1', '2', '3', '4', '5', '6', '7', '8', '9', 'a', 'b', 'c', 'd', 'e', 'f'];
    assert(digits@ =~= hex_digits());
    let cs = chars_of(s);
    let ghost start = out@;
    out.push('"');
    let mut i: usize = 0;
    proof {
        assert(cs@.subrange(0, 0) =~= Seq::<char>::empty());
    }
    while i < cs.len()
        invariant
            i <= cs@.len(),
            cs@ == s@,
            digits@ == hex_digits(),
            out@ == start.push('"') + escape(cs@.subrange(0, i as int)),
        decreases cs@.len() - i,
    {
        let c = cs[i];
        let ghost before = out@;
        if c == '"' {
            out.push('\\');
            out.push('"');
        } else if c == '\\' {
            out.push('\\');
            out.push('\\');
        } else if (c as u32) < 0x20 {
            out.push('\\');
            out.push('u');
            out.push('0');
            out.push('0');
            out.push(digits[(c as u32 / 16) as usize]);
            out.push(digits[(c as u32 % 16) as usize]);
        } else {
            out.push(c);
        }
        proof {
            assert(out@ =~= before + escape_char(c));
            assert(cs@.subrange(0, i + 1) =~= cs@.subrange(0, i as int) + seq![c]);
            lemma_escape_append(cs@.subrange(0, i as int), seq![c]);
            assert(seq![c].drop_first() =~= Seq::<char>::empty());
            assert(escape(Seq::<char>::empty()) =~= Seq::<char>::empty());
            assert(escape(seq![c]) =~= escape_char(c));
        }
        i = i + 1;
    }
    out.push('"');
    proof {
        assert(cs@.subrange(0, cs@.len() as int) =~= cs@);
        assert(out@ =~= start + json_string(s@));
    }
}

/// Appends a grade's note, when it has one.
fn write_note(out: &mut Vec<char>, note: Option<&str>)
    ensures
        final(out)@ == old(out)@ + note_text(match note { Some(n) => Some(n@), None => None }),
{
    let ghost start = out@;
    if let Some(n) = note {
        append_chars(out, ",");
        write_json_string(out, "note");
        append_chars(out, ":");
        write_json_string(out, n);
        proof {
            assert(out@ =~= start + note_text(Some(n@)));
        }
    } else {
        proof {
            assert(out@ =~= start + note_text(None));
        }
    }
}

/// Appends `"key":{"confidence":…,"micro":…[,"note":…]}`.
fn write_graded_fixed(out: &mut Vec<char>, key: &str, value: &Confidence<Fixed>)
    ensures
        final(out)@ == old(out)@ + graded_fixed_text(key@, *value),
{
    let ghost start = out@;
    write_json_string(out, key);
    append_chars(out, ":{");
    write_json_string(out, "confidence");
    append_chars(out, ":");
    write_json_string(out, value.level().as_str());
    append_chars(out, ",");
    write_json_string(out, "micro");
    append_chars(out, ":");
    push_int(value.value().micro(), out);
    write_note(out, value.note());
    append_chars(out, "}");
    proof {
        assert(out@ =~= start + graded_fixed_text(key@, *value));
    }
}

/// Appends `"key":{"confidence":…[,"note":…],"points":{…}}`, the attribute
/// names in their own order.
#[verifier::rlimit(30)]
fn write_graded_attributes(out: &mut Vec<char>, key: &str, value: &Confidence<AttributeBlock>)
    ensures
        final(out)@ == old(out)@ + attributes_text(key@, *value),
{
    let ghost start = out@;
    write_json_string(out, key);
    append_chars(out, ":{");
    write_json_string(out, "confidence");
    append_chars(out, ":");
    write_json_string(out, value.level().as_str());
    write_note(out, value.note());
    append_chars(out, ",");
    write_json_string(out, "points");
    append_chars(out, ":{");
    let ghost mid = out@;
    let order: [AttributeKind; 7] = [
        AttributeKind::Agility,
        AttributeKind::Dexterity,
        AttributeKind::Knowledge,
        AttributeKind::Resourcefulness,
        AttributeKind::Strength,
        AttributeKind::Vigor,
        AttributeKind::Will,
    ];
    assert(order@ =~= lex_attributes());
    let block = value.value();
    let mut i: usize = 0;
    while i < 7
        invariant
            i <= 7,
            order@ == lex_attributes(),
            *block == value.spec_value(),
            out@ == mid + points_text(*block, i as int),
        decreases 7 - i,
    {
        let ghost before = out@;
        if i > 0 {
            append_chars(out, ",");
        }
        let kind = order[i];
        write_json_string(out, kind.as_str());
        append_chars(out, ":");
        push_int(block.get(kind).points() as i64, out);
        proof {
            assert(out@ =~= mid + points_text(*block, i + 1));
        }
        i = i + 1;
    }
    append_chars(out, "}}");
    proof {
        assert(out@ =~= start + attributes_text(key@, *value));
    }
}

/// The canonical form of a resolved stat block.
pub fn canonical_statblock(resolved: &Resolved) -> (r: String)
    ensures
        r@ == statblock_text(*resolved),
{
    let mut out: Vec<char> = Vec::new();
    out.push('{');
    write_graded_attributes(&mut out, "attributes", &resolved.attributes);
    let ghost mid = out@;
    let table = &resolved.derived;
    let mut i: usize = 0;
    while i < table.len()
        invariant
            i <= table.entries().len(),
            out@ == mid + derived_text(table.entries(), i as int),
        decreases table.entries().len() - i,
    {
        let ghost before = out@;
        append_chars(&mut out, ",");
        write_graded_fixed(&mut out, table.key_at(i).as_str(), table.value_at(i));
        proof {
            assert(out@ =~= mid + derived_text(table.entries(), i + 1));
        }
        i = i + 1;
    }
    out.push('}');
    proof {
        reveal_strlit("{");
        reveal_strlit("}");
        assert(out@ =~= statblock_text(*resolved));
    }
    string_of(&out)
}

/// The canonical form of an exchange outcome, in the same grammar: its
/// damage and effective reduction. The trace is not part of it.
pub fn canonical_exchange(outcome: &ExchangeOutcome) -> (r: String)
    ensures
        r@ == exchange_text(*outcome),
{
    let damage = outcome.damage.with_value(outcome.damage.value().value());
    let effective = outcome.effective_pdr.with_value(outcome.effective_pdr.value().value());
    let mut out: Vec<char> = Vec::new();
    out.push('{');
    write_graded_fixed(&mut out, "damage", &damage);
    append_chars(&mut out, ",");
    write_graded_fixed(&mut out, "effective_pdr", &effective);
    out.push('}');
    proof {
        reveal_strlit("{");
        reveal_strlit("}");
        assert(out@ =~= exchange_text(*outcome));
    }
    string_of(&out)
}


// ── Laws of the encoding ────────────────────────────────────────────────

/// The code of each hexadecimal digit.
proof fn lemma_hex_code(k: int)
    requires
        0 <= k < 16,
    ensures
        hex_digits()[k] as u32 == (if k < 10 { 48 + k } else { 87 + k }),
{
    if k == 0 {
        assert(hex_digits()[0] == '0');
    } else if k == 1 {
        assert(hex_digits()[1] == '1');
    } else if k == 2 {
        assert(hex_digits()[2] == '2');
    } else if k == 3 {
        assert(hex_digits()[3] == '3');
    } else if k == 4 {
        assert(hex_digits()[4] == '4');
    } else if k == 5 {
        assert(hex_digits()[5] == '5');
    } else if k == 6 {
        assert(hex_digits()[6] == '6');
    } else if k == 7 {
        assert(hex_digits()[7] == '7');
    } else if k == 8 {
        assert(hex_digits()[8] == '8');
    } else if k == 9 {
        assert(hex_digits()[9] == '9');
    } else if k == 10 {
        assert(hex_digits()[10] == 'a');
    } else if k == 11 {
        assert(hex_digits()[11] == 'b');
    } else if k == 12 {
        assert(hex_digits()[12] == 'c');
    } else if k == 13 {
        assert(hex_digits()[13] == 'd');
    } else if k == 14 {
        assert(hex_digits()[14] == 'e');
    } else if k == 15 {
        assert(hex_digits()[15] == 'f');
    }
}

/// Two characters whose escapes start two equal texts are the same
/// character: no escape is a prefix of another's start.
proof fn lemma_first_code(x: char, y: char, r1: Seq<char>, r2: Seq<char>)
    requires
        escape_char(x) + r1 == escape_char(y) + r2,
    ensures
        x == y,
        r1 == r2,
{
    let t = escape_char(x) + r1;
    let special_x = x == '"' || x == '\\' || (x as u32) < 0x20;
    let special_y = y == '"' || y == '\\' || (y as u32) < 0x20;
    assert(t[0] == escape_char(x)[0]);
    assert(t[0] == escape_char(y)[0]);
    if !special_x && !special_y {
        assert(x == y);
    } else if special_x && special_y {
        assert(t[1] == escape_char(x)[1]);
        assert(t[1] == escape_char(y)[1]);
        if (x as u32) < 0x20 && (y as u32) < 0x20 {
            assert(t[4] == escape_char(x)[4] && t[4] == escape_char(y)[4]);
            assert(t[5] == escape_char(x)[5] && t[5] == escape_char(y)[5]);
            lemma_hex_code((x as u32 / 16) as int);
            lemma_hex_code((y as u32 / 16) as int);
            lemma_hex_code((x as u32 % 16) as int);
            lemma_hex_code((y as u32 % 16) as int);
            assert(x as u32 / 16 == y as u32 / 16);
            assert(x as u32 % 16 == y as u32 % 16);
            assert(x as u32 == y as u32);
        }
    }
    assert(escape_char(x) == escape_char(y));
    assert(r1 =~= t.subrange(escape_char(x).len() as int, t.len() as int));
    assert(r2 =~= t.subrange(escape_char(y).len() as int, t.len() as int));
}

/// The encoding of a string is unique: two strings with the same escaped
/// form are the same string, so a canonical text names exactly one value.
pub proof fn law_escaping_is_unique(a: Seq<char>, b: Seq<char>)
    requires
        escape(a) == escape(b),
    ensures
        a == b,
    decreases a.len(),
{
    if a.len() == 0 && b.len() == 0 {
        assert(a =~= b);
    } else if a.len() == 0 {
        assert(escape(b).len() >= escape_char(b[0]).len());
        assert(escape(a) =~= Seq::<char>::empty());
    } else if b.len() == 0 {
        assert(escape(a).len() >= escape_char(a[0]).len());
        assert(escape(b) =~= Seq::<char>::empty());
    } else {
        lemma_first_code(a[0], b[0], escape(a.drop_first()), escape(b.drop_first()));
        law_escaping_is_unique(a.drop_first(), b.drop_first());
        assert(a =~= seq![a[0]] + a.drop_first());
        assert(b =~= seq![b[0]] + b.drop_first());
    }
}

/// The note key exists exactly when the grade is `unknown`: an absent note
/// is omitted, never written as null.
pub proof fn law_note_exactly_for_unknown(c: Confidence<Fixed>)
    ensures
        c.spec_level() == ConfidenceLevel::Unknown <==> note_text(c.spec_note()).len() > 0,
{
    if c.spec_level() == ConfidenceLevel::Unknown {
        let n = c.spec_note()->0;
        assert(note_text(c.spec_note()).len() >= ","@.len());
        reveal_strlit(",");
    }
}

/// The trace is presentation, not state: two blocks with the same
/// attributes and derived stats have the same canonical form whatever their
/// traces, caps, breakdowns or gated bonuses say.
pub proof fn law_trace_is_not_part_of_the_canon(r1: Resolved, r2: Resolved)
    requires
        r1.attributes == r2.attributes,
        r1.derived.entries() == r2.derived.entries(),
    ensures
        statblock_text(r1) == statblock_text(r2),
{
}


/// A whitespace character: space, tab, line feed or carriage return.
pub open spec fn is_blank(c: char) -> bool {
    c == ' ' || c == '\t' || c == '\n' || c == '\r'
}

/// No whitespace character anywhere in `s`.
pub open spec fn no_blank(s: Seq<char>) -> bool {
    forall|i: int| 0 <= i < s.len() ==> !is_blank(#[trigger] s[i])
}

/// No space character in `s` (tabs and line breaks are escaped in a
/// string, so a space is the one blank a string can carry through).
pub open spec fn no_space(s: Seq<char>) -> bool {
    forall|i: int| 0 <= i < s.len() ==> #[trigger] s[i] != ' '
}

proof fn lemma_no_blank_concat(a: Seq<char>, b: Seq<char>)
    requires
        no_blank(a),
        no_blank(b),
    ensures
        no_blank(a + b),
{
    assert forall|i: int| 0 <= i < (a + b).len() implies !is_blank(#[trigger] (a + b)[i]) by {
        if i < a.len() {
            assert((a + b)[i] == a[i]);
        } else {
            assert((a + b)[i] == b[i - a.len()]);
        }
    }
}

proof fn lemma_escape_no_blank(s: Seq<char>)
    requires
        no_space(s),
    ensures
        no_blank(escape(s)),
    decreases s.len(),
{
    if s.len() > 0 {
        let c = s[0];
        assert(c != ' ');
        let e = escape_char(c);
        if c != '"' && c != '\\' && (c as u32) < 0x20 {
            let hi = (c as u32 / 16) as int;
            let lo = (c as u32 % 16) as int;
            assert(0 <= hi < 2);
            assert(0 <= lo < 16);
            assert(!is_blank(hex_digits()[hi]));
            assert(!is_blank(hex_digits()[lo]));
            assert(e =~= seq!['\\', 'u', '0', '0', hex_digits()[hi], hex_digits()[lo]]);
        } else if c != '"' && c != '\\' {
            assert(c != '\t' && c != '\n' && c != '\r') by {
                assert(('\t' as u32) < 0x20);
                assert(('\n' as u32) < 0x20);
                assert(('\r' as u32) < 0x20);
            }
        }
        assert(no_blank(e));
        assert forall|i: int| 0 <= i < s.drop_first().len() implies #[trigger] s.drop_first()[i] != ' ' by {
            assert(s.drop_first()[i] == s[i + 1]);
        }
        lemma_escape_no_blank(s.drop_first());
        lemma_no_blank_concat(e, escape(s.drop_first()));
    }
}

proof fn lemma_string_no_blank(s: Seq<char>)
    requires
        no_space(s),
    ensures
        no_blank(json_string(s)),
{
    lemma_escape_no_blank(s);
    lemma_no_blank_concat(seq!['"'], escape(s));
    lemma_no_blank_concat(seq!['"'] + escape(s), seq!['"']);
}

proof fn lemma_digits_no_blank(n: nat)
    ensures
        no_blank(crate::fixed::decimal_digits(n)),
    decreases n,
{
    if n >= 10 {
        lemma_digits_no_blank(n / 10);
        let d = crate::fixed::digit_char((n % 10) as int);
        assert(!is_blank(d));
        lemma_no_blank_concat(crate::fixed::decimal_digits(n / 10), seq![d]);
        assert(crate::fixed::decimal_digits(n / 10).push(d) =~= crate::fixed::decimal_digits(n / 10) + seq![d]);
    } else {
        assert(!is_blank(crate::fixed::digit_char(n as int)));
    }
}

proof fn lemma_int_no_blank(n: int)
    ensures
        no_blank(int_render(n)),
{
    lemma_digits_no_blank(crate::fixed::abs(n) as nat);
    lemma_no_blank_concat(if n < 0 { seq!['-'] } else { Seq::<char>::empty() }, crate::fixed::decimal_digits(crate::fixed::abs(n) as nat));
}

/// The fixed words of the canonical form hold no blank.
proof fn lemma_words_no_space()
    ensures
        no_space("confidence"@),
        no_space("micro"@),
        no_space("note"@),
        no_space("points"@),
        no_space("attributes"@),
        forall|l: ConfidenceLevel| no_space(#[trigger] level_name(l)),
        forall|k: AttributeKind| no_space(#[trigger] attribute_name(k)),
        no_blank(","@),
        no_blank(":"@),
        no_blank(":{"@),
        no_blank("}"@),
        no_blank("}}"@),
        no_blank("{"@),
{
    reveal_strlit("confidence");
    reveal_strlit("micro");
    reveal_strlit("note");
    reveal_strlit("points");
    reveal_strlit("attributes");
    reveal_strlit("verified");
    reveal_strlit("unverified");
    reveal_strlit("unknown");
    reveal_strlit("strength");
    reveal_strlit("vigor");
    reveal_strlit("agility");
    reveal_strlit("dexterity");
    reveal_strlit("will");
    reveal_strlit("knowledge");
    reveal_strlit("resourcefulness");
    reveal_strlit(",");
    reveal_strlit(":");
    reveal_strlit(":{");
    reveal_strlit("}");
    reveal_strlit("}}");
    reveal_strlit("{");
}

proof fn lemma_note_no_blank(note: Option<Seq<char>>)
    requires
        note matches Some(n) ==> no_space(n),
    ensures
        no_blank(note_text(note)),
{
    if let Some(n) = note {
        lemma_words_no_space();
        lemma_string_no_blank("note"@);
        lemma_string_no_blank(n);
        lemma_no_blank_concat(","@, json_string("note"@));
        lemma_no_blank_concat(","@ + json_string("note"@), ":"@);
        lemma_no_blank_concat(","@ + json_string("note"@) + ":"@, json_string(n));
    } else {
        assert(note_text(note) =~= Seq::<char>::empty());
    }
}

proof fn lemma_value_no_blank(key: Seq<char>, level: ConfidenceLevel, micro: int, note: Option<Seq<char>>)
    requires
        no_space(key),
        note matches Some(n) ==> no_space(n),
    ensures
        no_blank(value_text(key, level, micro, note)),
{
    lemma_words_no_space();
    lemma_string_no_blank(key);
    lemma_string_no_blank("confidence"@);
    lemma_string_no_blank(level_name(level));
    lemma_string_no_blank("micro"@);
    lemma_int_no_blank(micro);
    lemma_note_no_blank(note);
    let p1 = json_string(key) + ":{"@;
    lemma_no_blank_concat(json_string(key), ":{"@);
    let p2 = p1 + json_string("confidence"@);
    lemma_no_blank_concat(p1, json_string("confidence"@));
    let p3 = p2 + ":"@;
    lemma_no_blank_concat(p2, ":"@);
    let p4 = p3 + json_string(level_name(level));
    lemma_no_blank_concat(p3, json_string(level_name(level)));
    let p5 = p4 + ","@;
    lemma_no_blank_concat(p4, ","@);
    let p6 = p5 + json_string("micro"@);
    lemma_no_blank_concat(p5, json_string("micro"@));
    let p7 = p6 + ":"@;
    lemma_no_blank_concat(p6, ":"@);
    let p8 = p7 + int_render(micro);
    lemma_no_blank_concat(p7, int_render(micro));
    let p9 = p8 + note_text(note);
    lemma_no_blank_concat(p8, note_text(note));
    lemma_no_blank_concat(p9, "}"@);
}

proof fn lemma_points_no_blank(b: AttributeBlock, n: int)
    requires
        n <= 7,
    ensures
        no_blank(points_text(b, n)),
    decreases n,
{
    if n > 0 {
        lemma_words_no_space();
        lemma_points_no_blank(b, n - 1);
        let k = lex_attributes()[n - 1];
        let sep = if n > 1 { ","@ } else { Seq::<char>::empty() };
        lemma_string_no_blank(attribute_name(k));
        lemma_int_no_blank(block_get(b, k));
        lemma_no_blank_concat(points_text(b, n - 1), sep);
        lemma_no_blank_concat(points_text(b, n - 1) + sep, json_string(attribute_name(k)));
        lemma_no_blank_concat(points_text(b, n - 1) + sep + json_string(attribute_name(k)), ":"@);
        lemma_no_blank_concat(points_text(b, n - 1) + sep + json_string(attribute_name(k)) + ":"@, int_render(block_get(b, k)));
    } else {
        assert(points_text(b, n) =~= Seq::<char>::empty());
    }
}

proof fn lemma_derived_no_blank(es: Seq<(DerivedStatId, Confidence<Fixed>)>, n: int)
    requires
        n <= es.len(),
        forall|i: int| 0 <= i < es.len() ==> no_space((#[trigger] es[i]).0@)
            && (es[i].1.spec_note() matches Some(t) ==> no_space(t)),
    ensures
        no_blank(derived_text(es, n)),
    decreases n,
{
    if n > 0 {
        lemma_words_no_space();
        lemma_derived_no_blank(es, n - 1);
        let e = es[n - 1];
        lemma_value_no_blank(e.0@, e.1.spec_level(), e.1.spec_value()@, e.1.spec_note());
        lemma_no_blank_concat(derived_text(es, n - 1), ","@);
        lemma_no_blank_concat(derived_text(es, n - 1) + ","@, graded_fixed_text(e.0@, e.1));
    } else {
        assert(derived_text(es, n) =~= Seq::<char>::empty());
    }
}

/// **No whitespace.** A canonical text holds no tab or line break at all,
/// and a space only where a stat's id or a note holds one: with none
/// there, the text holds no whitespace character.
pub proof fn law_canonical_text_has_no_whitespace(r: Resolved)
    requires
        r.attributes.spec_note() matches Some(t) ==> no_space(t),
        forall|i: int| 0 <= i < r.derived.entries().len() ==> no_space((#[trigger] r.derived.entries()[i]).0@)
            && (r.derived.entries()[i].1.spec_note() matches Some(t) ==> no_space(t)),
    ensures
        no_blank(statblock_text(r)),
{
    lemma_words_no_space();
    let es = r.derived.entries();
    lemma_derived_no_blank(es, es.len() as int);
    let c = r.attributes;
    lemma_string_no_blank("attributes"@);
    lemma_string_no_blank("confidence"@);
    lemma_string_no_blank(level_name(c.spec_level()));
    lemma_string_no_blank("points"@);
    lemma_note_no_blank(c.spec_note());
    lemma_points_no_blank(c.spec_value(), 7);
    let a1 = json_string("attributes"@) + ":{"@;
    lemma_no_blank_concat(json_string("attributes"@), ":{"@);
    lemma_no_blank_concat(a1, json_string("confidence"@));
    let a2 = a1 + json_string("confidence"@) + ":"@;
    lemma_no_blank_concat(a1 + json_string("confidence"@), ":"@);
    lemma_no_blank_concat(a2, json_string(level_name(c.spec_level())));
    let a3 = a2 + json_string(level_name(c.spec_level())) + note_text(c.spec_note());
    lemma_no_blank_concat(a2 + json_string(level_name(c.spec_level())), note_text(c.spec_note()));
    let a4 = a3 + ","@ + json_string("points"@) + ":{"@;
    lemma_no_blank_concat(a3, ","@);
    lemma_no_blank_concat(a3 + ","@, json_string("points"@));
    lemma_no_blank_concat(a3 + ","@ + json_string("points"@), ":{"@);
    lemma_no_blank_concat(a4, points_text(c.spec_value(), 7));
    lemma_no_blank_concat(a4 + points_text(c.spec_value(), 7), "}}"@);
    let at = attributes_text("attributes"@, c);
    assert(at == a4 + points_text(c.spec_value(), 7) + "}}"@);
    lemma_no_blank_concat("{"@, at);
    lemma_no_blank_concat("{"@ + at, derived_text(es, es.len() as int));
    lemma_no_blank_concat("{"@ + at + derived_text(es, es.len() as int), "}"@);
}

/// **Keys in byte order.** At every level of a canonical text the keys
/// ascend: the attributes' names; the inner keys `confidence`, `micro`,
/// `note` and `points`; the stats' ids; and `attributes` before every id
/// under `derived.`.
pub proof fn law_canonical_keys_ascend(r: Resolved)
    requires
        r.derived.wf(),
    ensures
        forall|i: int, j: int| 0 <= i < j < 7 ==> crate::text::seq_lt(
            attribute_name(#[trigger] lex_attributes()[i]), attribute_name(#[trigger] lex_attributes()[j])),
        crate::text::seq_lt("confidence"@, "micro"@),
        crate::text::seq_lt("micro"@, "note"@),
        crate::text::seq_lt("confidence"@, "note"@),
        crate::text::seq_lt("note"@, "points"@),
        crate::table::strictly_sorted(r.derived.keys()),
        forall|k: Seq<char>| #[trigger] r.derived.keys().contains(k) && k.len() > 0 && k[0] == 'd' ==> crate::text::seq_lt("attributes"@, k),
{
    reveal_strlit("confidence");
    reveal_strlit("micro");
    reveal_strlit("note");
    reveal_strlit("points");
    reveal_strlit("attributes");
    reveal_strlit("strength");
    reveal_strlit("vigor");
    reveal_strlit("agility");
    reveal_strlit("dexterity");
    reveal_strlit("will");
    reveal_strlit("knowledge");
    reveal_strlit("resourcefulness");
    assert forall|i: int, j: int| 0 <= i < j < 7 implies crate::text::seq_lt(
        attribute_name(#[trigger] lex_attributes()[i]), attribute_name(#[trigger] lex_attributes()[j])) by {
        let a = attribute_name(lex_attributes()[i]);
        let b = attribute_name(lex_attributes()[j]);
        assert(a.len() > 0 && b.len() > 0);
        assert((a[0] as int) < (b[0] as int));
    }
}
} // verus!
