//! The pieces that the JSON document is written from.

use vstd::prelude::*;
use vstd::string::*;

use crate::container::Container;
use crate::text::{
    decimal, digit, hex, law_digits_are_the_usual, push_decimal, push_hex,
};

verus! {

/// How one character stands inside a JSON string.
pub open spec fn escaped_char(c: char) -> Seq<char> {
    if c == '"' {
        seq!['\\', '"']
    } else if c == '\\' {
        seq!['\\', '\\']
    } else if c == '\n' {
        seq!['\\', 'n']
    } else if c == '\r' {
        seq!['\\', 'r']
    } else if c == '\t' {
        seq!['\\', 't']
    } else if (c as u32) < 0x20 {
        seq!['\\', 'u'] + hex(c as nat, 4)
    } else {
        seq![c]
    }
}

/// How a text stands inside a JSON string.
pub open spec fn escaped(s: Seq<char>) -> Seq<char>
    decreases s.len(),
{
    if s.len() == 0 {
        Seq::empty()
    } else {
        escaped(s.drop_last()) + escaped_char(s.last())
    }
}

/// The document that opens with the four keys every document has, and goes on
/// with `body`.
pub open spec fn envelope_text(
    path: Seq<char>,
    container: Container,
    size_bytes: nat,
    table: Seq<char>,
    body: Seq<char>,
) -> Seq<char> {
    "{\"path\":\""@ + escaped(path) + "\",\"container\":\""@ + container.name()
        + "\",\"container_size_bytes\":"@ + decimal(size_bytes) + ",\"table\":\""@ + table + "\""@
        + body + "}"@
}

/// The pair that reports why a sniff failed, or nothing where it did not.
pub open spec fn error_field_text(key: Seq<char>, detail: Option<Seq<char>>) -> Seq<char> {
    match detail {
        Some(detail) => ",\""@ + key + "\":\""@ + escaped(detail) + "\""@,
        None => Seq::empty(),
    }
}

fn push_escaped(out: &mut String, c: char)
    ensures
        final(out)@ == old(out)@ + escaped_char(c),
{
    if c == '"' {
        out.push('\\');
        out.push('"');
    } else if c == '\\' {
        out.push('\\');
        out.push('\\');
    } else if c == '\n' {
        out.push('\\');
        out.push('n');
    } else if c == '\r' {
        out.push('\\');
        out.push('r');
    } else if c == '\t' {
        out.push('\\');
        out.push('t');
    } else if (c as u32) < 0x20 {
        out.push('\\');
        out.push('u');
        push_hex(out, c as u32, 4);
    } else {
        out.push(c);
    }
    assert(out@ =~= old(out)@ + escaped_char(c));
}

/// Escapes a text for the inside of a JSON string.
///
/// Quotes, backslashes and control characters are escaped, everything else
/// stays as it is.
pub fn json_escape(s: &str) -> (out: String)
    ensures
        out@ == escaped(s@),
{
    let mut out: String = String::new();
    for c in it: s.chars()
        invariant
            it.seq() == s@,
            out@ == escaped(s@.take(it.index())),
    {
        push_escaped(&mut out, c);
        assert(s@.take(it.index() + 1).drop_last() =~= s@.take(it.index()));
    }
    assert(s@.take(s@.len() as int) =~= s@);
    out
}

/// Writes a document: the four keys that every document opens with, in their
/// order, then `body`, which begins with a comma.
pub fn json_envelope(
    path: &str,
    container: Container,
    size_bytes: u64,
    table: &str,
    body: &str,
) -> (out: String)
    ensures
        out@ == envelope_text(path@, container, size_bytes as nat, table@, body@),
{
    let mut out: String = String::new();
    out.append("{\"path\":\"");
    out.append(json_escape(path).as_str());
    out.append("\",\"container\":\"");
    out.append(container.label());
    out.append("\",\"container_size_bytes\":");
    push_decimal(&mut out, size_bytes);
    out.append(",\"table\":\"");
    out.append(table);
    out.append("\"");
    out.append(body);
    out.append("}");
    assert(out@ =~= envelope_text(path@, container, size_bytes as nat, table@, body@));
    out
}

/// Writes the pair that goes with the label of a failed sniff, or nothing at
/// all where the sniff succeeded.
pub fn sniff_error_field(key: &str, detail: Option<&str>) -> (out: String)
    ensures
        out@ == error_field_text(
            key@,
            match detail {
                Some(detail) => Some(detail@),
                None => None,
            },
        ),
{
    let mut out: String = String::new();
    if let Some(detail) = detail {
        out.append(",\"");
        out.append(key);
        out.append("\":\"");
        out.append(json_escape(detail).as_str());
        out.append("\"");
        assert(out@ =~= error_field_text(key@, Some(detail@)));
    }
    out
}

/// Escaping goes character by character, and each character has its own form:
/// a backslash and a letter for quotes, backslashes, line ends and tabs, four
/// hexadecimal digits for every other control character, and itself otherwise.
pub proof fn law_escaping_is_per_character(a: Seq<char>, b: Seq<char>, c: char)
    ensures
        escaped(a + b) == escaped(a) + escaped(b),
        escaped(Seq::empty()) == Seq::<char>::empty(),
        c == '"' ==> escaped(seq![c]) == seq!['\\', '"'],
        c == '\\' ==> escaped(seq![c]) == seq!['\\', '\\'],
        c == '\n' ==> escaped(seq![c]) == seq!['\\', 'n'],
        c == '\r' ==> escaped(seq![c]) == seq!['\\', 'r'],
        c == '\t' ==> escaped(seq![c]) == seq!['\\', 't'],
        (c as u32) < 0x20 && c != '\n' && c != '\r' && c != '\t' ==> escaped(seq![c]) == seq![
            '\\',
            'u',
            '0',
            '0',
            "0123456789abcdef"@[c as int / 16],
            "0123456789abcdef"@[c as int % 16],
        ],
        c as u32 >= 0x20 && c != '"' && c != '\\' ==> escaped(seq![c]) == seq![c],
{
    lemma_escaped_joined(a, b);
    reveal_with_fuel(escaped, 2);
    assert(seq![c].drop_last() =~= Seq::empty());
    assert(escaped(seq![c]) =~= escaped_char(c));
    if (c as u32) < 0x20 {
        reveal_with_fuel(hex, 5);
        let v = c as nat;
        law_digits_are_the_usual(v as int / 16);
        law_digits_are_the_usual(v as int % 16);
        assert(hex(v, 4) =~= seq!['0', '0', digit(v as int / 16), digit(v as int % 16)]);
    }
}

proof fn lemma_escaped_joined(a: Seq<char>, b: Seq<char>)
    ensures
        escaped(a + b) == escaped(a) + escaped(b),
    decreases b.len(),
{
    if b.len() == 0 {
        assert(a + b =~= a);
        assert(escaped(a) + escaped(b) =~= escaped(a));
    } else {
        lemma_escaped_joined(a, b.drop_last());
        assert((a + b).drop_last() =~= a + b.drop_last());
        assert(escaped(a + b) =~= escaped(a) + escaped(b));
    }
}

/// A document is what it is without a table label and a body, with these two
/// put in as they are, and a field is its key and its text in quotes.
pub proof fn law_parts_are_put_in_as_they_are(
    path: Seq<char>,
    container: Container,
    size_bytes: nat,
    table: Seq<char>,
    body: Seq<char>,
    key: Seq<char>,
    detail: Seq<char>,
)
    ensures
        ({
            let without = envelope_text(path, container, size_bytes, Seq::empty(), Seq::empty());
            envelope_text(path, container, size_bytes, table, body) == without.take(
                without.len() - 2,
            ) + table + seq!['"'] + body + seq!['}']
        }),
        error_field_text(key, Some(detail)) == seq![',', '"'] + key + seq!['"', ':', '"'] + escaped(
            detail,
        ) + seq!['"'],
        error_field_text(key, None) == Seq::<char>::empty(),
{
    reveal_strlit("\"");
    assert("\""@ =~= seq!['"']);
    reveal_strlit("}");
    assert("}"@ =~= seq!['}']);
    reveal_strlit(",\"");
    assert(",\""@ =~= seq![',', '"']);
    reveal_strlit("\":\"");
    assert("\":\""@ =~= seq!['"', ':', '"']);
    let without = envelope_text(path, container, size_bytes, Seq::empty(), Seq::empty());
    let open = "{\"path\":\""@ + escaped(path) + "\",\"container\":\""@ + container.name()
        + "\",\"container_size_bytes\":"@ + decimal(size_bytes) + ",\"table\":\""@;
    assert(without =~= open + seq!['"', '}']);
    assert(without.take(without.len() - 2) =~= open);
}

} // verus!
