//! Writes documents as JSON text: compact, for replies a page reads, and
//! pretty, for files a person reads and sends on.
//!
//! Compact text is what `serde_json` writes for the document turned into a
//! `serde_json::Value`. Pretty text is written here, field for field in the
//! document's own order: a submission keeps its fields in declaration
//! order, which a `serde_json::Value` (whose object keys are kept sorted)
//! cannot hold. Strings escape the quote, the backslash and every control
//! character: the five with a short form use it, the rest use `\u00xx`
//! with lowercase hex. Numbers are written as the text they carry. Pretty
//! text indents two spaces per level, puts `": "` between a key and its
//! value, and writes an empty list or table as `[]` or `{}`.

use vstd::prelude::*;

use crate::doc::Doc;

verus! {

/// A hex digit, lowercase.
pub open spec fn hex_digit(n: int) -> char {
    if n < 10 { (n + 48) as char } else { (n + 87) as char }
}

/// How one character of a string is written inside its quotes.
pub open spec fn escaped_char(c: char) -> Seq<char> {
    if c == '"' {
        seq!['\\', '"']
    } else if c == '\\' {
        seq!['\\', '\\']
    } else if c == '\u{8}' {
        seq!['\\', 'b']
    } else if c == '\t' {
        seq!['\\', 't']
    } else if c == '\n' {
        seq!['\\', 'n']
    } else if c == '\u{c}' {
        seq!['\\', 'f']
    } else if c == '\r' {
        seq!['\\', 'r']
    } else if (c as int) < 32 {
        seq!['\\', 'u', '0', '0', hex_digit((c as int) / 16), hex_digit((c as int) % 16)]
    } else {
        seq![c]
    }
}

/// A string's characters, each escaped.
pub open spec fn escaped(s: Seq<char>) -> Seq<char>
    decreases s.len(),
{
    if s.len() == 0 {
        Seq::empty()
    } else {
        escaped(s.drop_last()) + escaped_char(s.last())
    }
}

/// A string as a JSON string literal.
pub open spec fn quoted(s: Seq<char>) -> Seq<char> {
    seq!['"'] + escaped(s) + seq!['"']
}

/// A scalar: `null`, `true`, `false`, a number's text or a string literal.
/// Lists and tables are written by [`pretty`].
pub open spec fn scalar_text(d: Doc) -> Seq<char> {
    match d {
        Doc::Null => "null"@,
        Doc::Bool(b) => if b { "true"@ } else { "false"@ },
        Doc::Number(n) => n@,
        Doc::Str(s) => quoted(s@),
        _ => Seq::empty(),
    }
}

/// `n` levels of two-space indentation.
pub open spec fn indent(n: nat) -> Seq<char>
    decreases n,
{
    if n == 0 { Seq::empty() } else { indent((n - 1) as nat) + seq![' ', ' '] }
}

/// A document as pretty JSON at nesting level `level`: each item or field
/// on a line of its own, one level deeper, and the closing bracket back at
/// `level`.
pub open spec fn pretty(d: Doc, level: nat) -> Seq<char>
    decreases d, 0nat,
{
    match d {
        Doc::List(items) => if items@.len() == 0 {
            "[]"@
        } else {
            seq!['['] + pretty_items(items@, level + 1) + seq!['\n'] + indent(level) + seq![']']
        },
        Doc::Table(fields) => if fields@.len() == 0 {
            "{}"@
        } else {
            seq!['{'] + pretty_fields(fields@, level + 1) + seq!['\n'] + indent(level) + seq!['}']
        },
        _ => scalar_text(d),
    }
}

/// List items, each on a new line at `level`, comma-separated.
pub open spec fn pretty_items(items: Seq<Doc>, level: nat) -> Seq<char>
    decreases items, 1nat,
{
    if items.len() == 0 {
        Seq::empty()
    } else {
        let rest = items.drop_last();
        proof { assert(decreases_to!(items => items[items.len() - 1])); }
        (if rest.len() == 0 { Seq::empty() } else { pretty_items(rest, level) + seq![','] }) + seq!['\n'] + indent(level)
            + pretty(items[items.len() - 1], level)
    }
}

/// Table fields as `"key": value`, each on a new line at `level`,
/// comma-separated.
pub open spec fn pretty_fields(fields: Seq<(String, Doc)>, level: nat) -> Seq<char>
    decreases fields, 1nat,
{
    if fields.len() == 0 {
        Seq::empty()
    } else {
        let rest = fields.drop_last();
        let f = fields[fields.len() - 1];
        proof { assert(decreases_to!(fields => f)); }
        (if rest.len() == 0 { Seq::empty() } else { pretty_fields(rest, level) + seq![','] }) + seq!['\n'] + indent(level)
            + quoted(f.0@) + seq![':', ' '] + pretty(f.1, level)
    }
}

/// Appends a hex digit.
fn push_hex(n: u32, out: &mut Vec<char>)
    requires
        n < 16,
    ensures
        final(out)@ == old(out)@.push(hex_digit(n as int)),
{
    let c: char = if n < 10 {
        char_of(n + 48)
    } else {
        char_of(n + 87)
    };
    out.push(c);
}

/// The character with code `n`, for an ASCII code.
fn char_of(n: u32) -> (c: char)
    requires
        n < 128,
    ensures
        c == n as char,
{
    let b: u8 = n as u8;
    b as char
}

/// Appends one character of a string, escaped.
fn push_escaped_char(c: char, out: &mut Vec<char>)
    ensures
        final(out)@ == old(out)@ + escaped_char(c),
{
    let ghost start = out@;
    if c == '"' {
        out.push('\\');
        out.push('"');
    } else if c == '\\' {
        out.push('\\');
        out.push('\\');
    } else if c == '\u{8}' {
        out.push('\\');
        out.push('b');
    } else if c == '\t' {
        out.push('\\');
        out.push('t');
    } else if c == '\n' {
        out.push('\\');
        out.push('n');
    } else if c == '\u{c}' {
        out.push('\\');
        out.push('f');
    } else if c == '\r' {
        out.push('\\');
        out.push('r');
    } else if (c as u32) < 32 {
        let n = c as u32;
        out.push('\\');
        out.push('u');
        out.push('0');
        out.push('0');
        push_hex(n / 16, out);
        push_hex(n % 16, out);
    } else {
        out.push(c);
    }
    assert(out@ =~= start + escaped_char(c));
}

/// Appends a string as a JSON string literal.
pub fn push_quoted(s: &str, out: &mut Vec<char>)
    ensures
        final(out)@ == old(out)@ + quoted(s@),
{
    let cs = crate::text::chars_of(s);
    let ghost start = out@;
    out.push('"');
    let mut i: usize = 0;
    while i < cs.len()
        invariant
            i <= cs@.len(),
            cs@ == s@,
            out@ == start + seq!['"'] + escaped(cs@.subrange(0, i as int)),
        decreases cs@.len() - i,
    {
        let ghost pre = out@;
        push_escaped_char(cs[i], out);
        proof {
            let next = cs@.subrange(0, i + 1);
            assert(next.drop_last() =~= cs@.subrange(0, i as int));
            assert(next.last() == cs@[i as int]);
            assert(out@ =~= start + seq!['"'] + escaped(next));
        }
        i = i + 1;
    }
    out.push('"');
    proof {
        assert(cs@.subrange(0, cs@.len() as int) =~= s@);
        assert(out@ =~= old(out)@ + quoted(s@));
    }
}

/// Appends a scalar.
fn push_scalar(d: &Doc, out: &mut Vec<char>)
    ensures
        final(out)@ == old(out)@ + scalar_text(*d),
{
    match d {
        Doc::Null => crate::text::append_chars(out, "null"),
        Doc::Bool(b) => {
            if *b {
                crate::text::append_chars(out, "true");
            } else {
                crate::text::append_chars(out, "false");
            }
        },
        Doc::Number(n) => crate::text::append_chars(out, n.as_str()),
        Doc::Str(s) => push_quoted(s.as_str(), out),
        _ => {
            assert(out@ =~= old(out)@ + scalar_text(*d));
        },
    }
}

/// Appends a document as pretty JSON at nesting level `level`, where `pad`
/// is that level's indentation.
pub fn push_pretty(d: &Doc, pad: &Vec<char>, Ghost(level): Ghost<nat>, out: &mut Vec<char>)
    requires
        pad@ == indent(level),
    ensures
        final(out)@ == old(out)@ + pretty(*d, level),
    decreases d,
{
    match d {
        Doc::List(items) => {
            if items.len() == 0 {
                crate::text::append_chars(out, "[]");
                return;
            }
            let mut inner = pad.clone();
            inner.push(' ');
            inner.push(' ');
            assert(inner@ =~= indent(level + 1));
            out.push('[');
            let ghost start = out@;
            let mut i: usize = 0;
            while i < items.len()
                invariant
                    i <= items@.len(),
                    *d == Doc::List(*items),
                    inner@ == indent(level + 1),
                    out@ == start + pretty_items(items@.subrange(0, i as int), level + 1),
                decreases items@.len() - i,
            {
                if i > 0 {
                    out.push(',');
                }
                out.push('\n');
                crate::text::append_vec(out, &inner);
                proof {
                    assert(decreases_to!(*d => (*d)->List_0));
                    assert((*d)->List_0 == *items);
                    assert(decreases_to!(*items => items@));
                    assert(decreases_to!(items@ => items@[i as int]));
                }
                push_pretty(&items[i], &inner, Ghost(level + 1), out);
                proof {
                    let next = items@.subrange(0, i + 1);
                    assert(next.drop_last() =~= items@.subrange(0, i as int));
                    assert(next[next.len() - 1] == items@[i as int]);
                    assert(out@ =~= start + pretty_items(next, level + 1));
                }
                i = i + 1;
            }
            out.push('\n');
            crate::text::append_vec(out, pad);
            out.push(']');
            proof {
                assert(items@.subrange(0, items@.len() as int) =~= items@);
                assert(out@ =~= old(out)@ + pretty(*d, level));
            }
        },
        Doc::Table(fields) => {
            if fields.len() == 0 {
                crate::text::append_chars(out, "{}");
                return;
            }
            let mut inner = pad.clone();
            inner.push(' ');
            inner.push(' ');
            assert(inner@ =~= indent(level + 1));
            out.push('{');
            let ghost start = out@;
            let mut i: usize = 0;
            while i < fields.len()
                invariant
                    i <= fields@.len(),
                    *d == Doc::Table(*fields),
                    inner@ == indent(level + 1),
                    out@ == start + pretty_fields(fields@.subrange(0, i as int), level + 1),
                decreases fields@.len() - i,
            {
                if i > 0 {
                    out.push(',');
                }
                out.push('\n');
                crate::text::append_vec(out, &inner);
                push_quoted(fields[i].0.as_str(), out);
                out.push(':');
                out.push(' ');
                proof {
                    assert(decreases_to!(*d => (*d)->Table_0));
                    assert((*d)->Table_0 == *fields);
                    assert(decreases_to!(*fields => fields@));
                    assert(decreases_to!(fields@ => fields@[i as int]));
                    assert(decreases_to!(fields@[i as int] => fields@[i as int].1));
                }
                push_pretty(&fields[i].1, &inner, Ghost(level + 1), out);
                proof {
                    let next = fields@.subrange(0, i + 1);
                    assert(next.drop_last() =~= fields@.subrange(0, i as int));
                    assert(next[next.len() - 1] == fields@[i as int]);
                    assert(out@ =~= start + pretty_fields(next, level + 1));
                }
                i = i + 1;
            }
            out.push('\n');
            crate::text::append_vec(out, pad);
            out.push('}');
            proof {
                assert(fields@.subrange(0, fields@.len() as int) =~= fields@);
                assert(out@ =~= old(out)@ + pretty(*d, level));
            }
        },
        _ => push_scalar(d, out),
    }
}

/// What `serde_json` writes (`Value`'s `Display`, as `to_string` uses it)
/// for a document turned into a `serde_json::Value`.
pub uninterp spec fn json_compact(d: Doc) -> Seq<char>;

/// Turns a document into a `serde_json::Value`, variant for variant; a
/// number's text is read by `serde_json` (a text that is no JSON number
/// becomes `null`).
#[verifier::external_body]
fn value_of(d: &Doc) -> serde_json::Value {
    match d {
        Doc::Null => serde_json::Value::Null,
        Doc::Bool(b) => serde_json::Value::Bool(*b),
        Doc::Number(t) => t.parse::<serde_json::Number>().map_or(serde_json::Value::Null, serde_json::Value::Number),
        Doc::Str(s) => serde_json::Value::String(s.clone()),
        Doc::List(items) => serde_json::Value::Array(items.iter().map(value_of).collect()),
        Doc::Table(fields) => serde_json::Value::Object(fields.iter().map(|(k, x)| (k.clone(), value_of(x))).collect()),
    }
}

/// Writes a document as compact JSON with `serde_json`: the document as a
/// `serde_json::Value`, written by its `Display`. The contract claims only
/// that the text is the one `serde_json` gives for this document.
#[verifier::external_body]
pub(crate) fn compact_text(d: &Doc) -> (r: String)
    ensures
        r@ == json_compact(*d),
{
    value_of(d).to_string()
}

/// A document as pretty JSON text.
pub fn pretty_text(d: &Doc) -> (r: String)
    ensures
        r@ == pretty(*d, 0),
{
    let mut out: Vec<char> = Vec::new();
    let pad: Vec<char> = Vec::new();
    assert(pad@ =~= indent(0));
    push_pretty(d, &pad, Ghost(0), &mut out);
    assert(out@ =~= pretty(*d, 0));
    crate::text::string_of(&out)
}

} // verus!
