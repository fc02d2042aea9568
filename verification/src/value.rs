//! JSON values, how they are written, and how they are read back.
//!
//! Everything here is specification: it says what a document means to whoever
//! parses it. The values are those that a document is made of: texts, natural
//! numbers, lists and records, written without any space between them.

use vstd::prelude::*;

use crate::json::{escaped, escaped_char};
use crate::text::{decimal, digit, hex};

verus! {

/// A JSON value.
pub enum Json {
    Text(Seq<char>),
    Number(nat),
    List(Seq<Json>),
    Record(Seq<(Seq<char>, Json)>),
}

/// A text in quotes.
pub open spec fn quoted(s: Seq<char>) -> Seq<char> {
    seq!['"'] + escaped(s) + seq!['"']
}

/// Whether no character of a text needs escaping.
pub open spec fn plain(s: Seq<char>) -> bool {
    forall|i: int| 0 <= i < s.len() ==> escaped_char(#[trigger] s[i]) == seq![s[i]]
}

/// How a value is written.
pub open spec fn written(v: Json) -> Seq<char>
    decreases v,
{
    match v {
        Json::Text(s) => quoted(s),
        Json::Number(n) => decimal(n),
        Json::List(items) => seq!['['] + written_items(items) + seq![']'],
        Json::Record(members) => seq!['{'] + written_members(members) + seq!['}'],
    }
}

/// How the items of a list are written.
pub open spec fn written_items(items: Seq<Json>) -> Seq<char>
    decreases items,
{
    if items.len() == 0 {
        Seq::empty()
    } else if items.len() == 1 {
        written(items[0])
    } else {
        written(items[0]) + seq![','] + written_items(items.drop_first())
    }
}

/// How the members of a record are written.
pub open spec fn written_members(members: Seq<(Seq<char>, Json)>) -> Seq<char>
    decreases members,
{
    if members.len() == 0 {
        Seq::empty()
    } else if members.len() == 1 {
        quoted(members[0].0) + seq![':'] + written(members[0].1)
    } else {
        quoted(members[0].0) + seq![':'] + written(members[0].1) + seq![','] + written_members(
            members.drop_first(),
        )
    }
}

/// The value of a hexadecimal digit.
pub open spec fn digit_value(c: char) -> Option<nat> {
    let u = c as u32;
    if 0x30 <= u <= 0x39 {
        Some((u - 0x30) as nat)
    } else if 0x61 <= u <= 0x66 {
        Some((u - 0x61 + 10) as nat)
    } else if 0x41 <= u <= 0x46 {
        Some((u - 0x41 + 10) as nat)
    } else {
        None
    }
}

/// The character that four hexadecimal digits stand for, surrogates aside.
pub open spec fn unicode_char(s: Seq<char>) -> Option<char>
    recommends
        s.len() == 4,
{
    match (digit_value(s[0]), digit_value(s[1]), digit_value(s[2]), digit_value(s[3])) {
        (Some(a), Some(b), Some(c), Some(d)) => {
            let u = 4096 * a + 256 * b + 16 * c + d;
            if 0xd800 <= u <= 0xdfff {
                None
            } else {
                Some(u as char)
            }
        },
        _ => None,
    }
}

/// The character that a backslash and `c` stand for.
pub open spec fn short_escape(c: char) -> Option<char> {
    if c == '"' || c == '\\' || c == '/' {
        Some(c)
    } else if c == 'b' {
        Some(8u8 as char)
    } else if c == 'f' {
        Some(12u8 as char)
    } else if c == 'n' {
        Some('\n')
    } else if c == 'r' {
        Some('\r')
    } else if c == 't' {
        Some('\t')
    } else {
        None
    }
}

/// A character before what else was read.
pub open spec fn before(c: char, tail: Option<(Seq<char>, Seq<char>)>) -> Option<
    (Seq<char>, Seq<char>),
> {
    match tail {
        Some((text, rest)) => Some((seq![c] + text, rest)),
        None => None,
    }
}

/// Reads the inside of a string up to its closing quote: the text, and what
/// follows the quote.
pub open spec fn read_text(s: Seq<char>) -> Option<(Seq<char>, Seq<char>)>
    decreases s.len(),
{
    if s.len() == 0 {
        None
    } else if s[0] == '"' {
        Some((Seq::empty(), s.skip(1)))
    } else if s[0] == '\\' {
        if s.len() >= 6 && s[1] == 'u' {
            match unicode_char(s.subrange(2, 6)) {
                Some(c) => before(c, read_text(s.skip(6))),
                None => None,
            }
        } else if s.len() >= 2 {
            match short_escape(s[1]) {
                Some(c) => before(c, read_text(s.skip(2))),
                None => None,
            }
        } else {
            None
        }
    } else if (s[0] as u32) < 0x20 {
        None
    } else {
        before(s[0], read_text(s.skip(1)))
    }
}

/// Whether a character is a decimal digit.
pub open spec fn is_digit(c: char) -> bool {
    0x30 <= c as u32 <= 0x39
}

/// How many decimal digits `s` opens with.
pub open spec fn leading_digits(s: Seq<char>) -> nat
    decreases s.len(),
{
    if s.len() > 0 && is_digit(s[0]) {
        1 + leading_digits(s.skip(1))
    } else {
        0
    }
}

/// The number that these decimal digits stand for.
pub open spec fn number_of(digits: Seq<char>) -> nat
    decreases digits.len(),
{
    if digits.len() == 0 {
        0
    } else {
        10 * number_of(digits.drop_last()) + (digits.last() as u32 - 0x30) as nat
    }
}

/// Reads a natural number: its value, and what follows it.
pub open spec fn read_number(s: Seq<char>) -> Option<(nat, Seq<char>)> {
    let n = leading_digits(s) as int;
    if n == 0 || (n > 1 && s[0] == '0') {
        None
    } else {
        Some((number_of(s.take(n)), s.skip(n)))
    }
}

/// Reads a value: the value, and what follows it.
pub open spec fn read_value(s: Seq<char>) -> Option<(Json, Seq<char>)>
    decreases s.len(), 0nat,
{
    if s.len() == 0 {
        None
    } else if s[0] == '"' {
        match read_text(s.skip(1)) {
            Some((text, rest)) => Some((Json::Text(text), rest)),
            None => None,
        }
    } else if s[0] == '[' {
        if s.len() > 1 && s[1] == ']' {
            Some((Json::List(Seq::empty()), s.skip(2)))
        } else {
            match read_items(s.skip(1)) {
                Some((items, rest)) => Some((Json::List(items), rest)),
                None => None,
            }
        }
    } else if s[0] == '{' {
        if s.len() > 1 && s[1] == '}' {
            Some((Json::Record(Seq::empty()), s.skip(2)))
        } else {
            match read_members(s.skip(1)) {
                Some((members, rest)) => Some((Json::Record(members), rest)),
                None => None,
            }
        }
    } else {
        match read_number(s) {
            Some((n, rest)) => Some((Json::Number(n), rest)),
            None => None,
        }
    }
}

/// Reads the items of a list, of which there is at least one, and the bracket
/// that closes it.
pub open spec fn read_items(s: Seq<char>) -> Option<(Seq<Json>, Seq<char>)>
    decreases s.len(), 1nat,
{
    match read_value(s) {
        Some((v, rest)) => if rest.len() == 0 || rest.len() >= s.len() {
            None
        } else if rest[0] == ']' {
            Some((seq![v], rest.skip(1)))
        } else if rest[0] == ',' {
            match read_items(rest.skip(1)) {
                Some((items, rest)) => Some((seq![v] + items, rest)),
                None => None,
            }
        } else {
            None
        },
        None => None,
    }
}

/// Reads the members of a record, of which there is at least one, and the
/// brace that closes it.
pub open spec fn read_members(s: Seq<char>) -> Option<(Seq<(Seq<char>, Json)>, Seq<char>)>
    decreases s.len(), 1nat,
{
    if s.len() == 0 || s[0] != '"' {
        None
    } else {
        match read_text(s.skip(1)) {
            Some((key, colon)) => if colon.len() == 0 || colon.len() >= s.len() || colon[0] != ':' {
                None
            } else {
                match read_value(colon.skip(1)) {
                    Some((v, rest)) => if rest.len() == 0 || rest.len() >= s.len() {
                        None
                    } else if rest[0] == '}' {
                        Some((seq![(key, v)], rest.skip(1)))
                    } else if rest[0] == ',' {
                        match read_members(rest.skip(1)) {
                            Some((members, rest)) => Some((seq![(key, v)] + members, rest)),
                            None => None,
                        }
                    } else {
                        None
                    },
                    None => None,
                }
            },
            None => None,
        }
    }
}

/// The value that a whole document stands for.
pub open spec fn read_document(s: Seq<char>) -> Option<Json> {
    match read_value(s) {
        Some((v, rest)) => if rest.len() == 0 {
            Some(v)
        } else {
            None
        },
        None => None,
    }
}

proof fn lemma_escaped_front(s: Seq<char>)
    requires
        s.len() > 0,
    ensures
        escaped(s) == escaped_char(s[0]) + escaped(s.drop_first()),
    decreases s.len(),
{
    if s.len() == 1 {
        assert(s.drop_last() =~= Seq::empty());
        assert(s.drop_first() =~= Seq::empty());
        assert(escaped(s) =~= escaped_char(s[0]) + escaped(s.drop_first()));
    } else {
        lemma_escaped_front(s.drop_last());
        assert(s.drop_last().drop_first() =~= s.drop_first().drop_last());
        assert(escaped(s) =~= escaped_char(s[0]) + escaped(s.drop_first()));
    }
}

/// Ordinary text stays as it is: only quotes, backslashes and control
/// characters are escaped.
pub proof fn law_ordinary_text_is_untouched(s: Seq<char>)
    requires
        forall|i: int|
            0 <= i < s.len() ==> #[trigger] s[i] as u32 >= 0x20 && s[i] != '"' && s[i] != '\\',
    ensures
        escaped(s) == s,
{
    assert(plain(s));
    lemma_plain_text(s);
}

pub(crate) proof fn lemma_plain_text(s: Seq<char>)
    requires
        plain(s),
    ensures
        escaped(s) == s,
    decreases s.len(),
{
    if s.len() == 0 {
        assert(s =~= Seq::empty());
    } else {
        let init = s.drop_last();
        assert forall|i: int| 0 <= i < init.len() implies escaped_char(#[trigger] init[i]) == seq![
            init[i],
        ] by {
            assert(init[i] == s[i]);
        }
        lemma_plain_text(init);
        assert(escaped_char(s[s.len() - 1]) == seq![s.last()]);
        assert(init + seq![s.last()] =~= s);
    }
}

proof fn lemma_read_escaped_char(c: char, tail: Seq<char>)
    ensures
        read_text(escaped_char(c) + tail) == before(c, read_text(tail)),
{
    let s = escaped_char(c) + tail;
    if c == '"' || c == '\\' || c == '\n' || c == '\r' || c == '\t' {
        assert(s.skip(2) =~= tail);
    } else if (c as u32) < 0x20 {
        let v = c as nat;
        reveal_with_fuel(hex, 5);
        assert(hex(v, 4) =~= seq![digit(0), digit(0), digit(v as int / 16), digit(v as int % 16)]);
        assert(s.subrange(2, 6) =~= hex(v, 4));
        assert(s.skip(6) =~= tail);
        assert(unicode_char(s.subrange(2, 6)) == Some(c));
    } else {
        assert(s.skip(1) =~= tail);
    }
}

/// Escaping loses nothing: whoever reads the string gets the text back,
/// whatever characters it holds.
pub proof fn law_escaped_text_reads_back(text: Seq<char>, rest: Seq<char>)
    ensures
        read_text(escaped(text) + seq!['"'] + rest) == Some((text, rest)),
    decreases text.len(),
{
    let s = escaped(text) + seq!['"'] + rest;
    if text.len() == 0 {
        assert(s.skip(1) =~= rest);
        assert(text =~= Seq::empty());
    } else {
        let tail = escaped(text.drop_first()) + seq!['"'] + rest;
        lemma_escaped_front(text);
        assert(s =~= escaped_char(text[0]) + tail);
        lemma_read_escaped_char(text[0], tail);
        law_escaped_text_reads_back(text.drop_first(), rest);
        assert(seq![text[0]] + text.drop_first() =~= text);
    }
}

proof fn lemma_decimal_digits(n: nat)
    ensures
        decimal(n).len() > 0,
        forall|i: int| 0 <= i < decimal(n).len() ==> is_digit(#[trigger] decimal(n)[i]),
        number_of(decimal(n)) == n,
        n > 0 ==> decimal(n)[0] != '0',
        n == 0 ==> decimal(n).len() == 1,
    decreases n,
{
    if n < 10 {
        assert(decimal(n).drop_last() =~= Seq::empty());
        assert(number_of(Seq::empty()) == 0);
    } else {
        lemma_decimal_digits(n / 10);
        assert(decimal(n).drop_last() =~= decimal(n / 10));
    }
}

proof fn lemma_leading_digits(digits: Seq<char>, rest: Seq<char>)
    requires
        forall|i: int| 0 <= i < digits.len() ==> is_digit(#[trigger] digits[i]),
        rest.len() == 0 || !is_digit(rest[0]),
    ensures
        leading_digits(digits + rest) == digits.len(),
    decreases digits.len(),
{
    if digits.len() == 0 {
        assert(digits + rest =~= rest);
    } else {
        let tail = digits.skip(1);
        assert((digits + rest).skip(1) =~= tail + rest);
        assert(is_digit(digits[0]));
        assert forall|i: int| 0 <= i < tail.len() implies is_digit(#[trigger] tail[i]) by {
            assert(tail[i] == digits[i + 1]);
        }
        lemma_leading_digits(tail, rest);
    }
}

proof fn lemma_read_number(n: nat, rest: Seq<char>)
    requires
        rest.len() == 0 || !is_digit(rest[0]),
    ensures
        read_number(decimal(n) + rest) == Some((n, rest)),
        is_digit((decimal(n) + rest)[0]),
{
    lemma_decimal_digits(n);
    lemma_leading_digits(decimal(n), rest);
    let s = decimal(n) + rest;
    assert(s.take(decimal(n).len() as int) =~= decimal(n));
    assert(s.skip(decimal(n).len() as int) =~= rest);
    assert(s[0] == decimal(n)[0]);
    assert(is_digit(decimal(n)[0]));
}

proof fn lemma_written_is_not_empty(v: Json)
    ensures
        written(v).len() > 0,
        written(v)[0] != ']',
        written(v)[0] != '}',
{
    match v {
        Json::Number(n) => {
            lemma_decimal_digits(n);
            assert(is_digit(decimal(n)[0]));
        },
        _ => {},
    }
}

proof fn lemma_read_quoted(text: Seq<char>, rest: Seq<char>)
    ensures
        read_value(quoted(text) + rest) == Some((Json::Text(text), rest)),
{
    let s = quoted(text) + rest;
    assert(s.skip(1) =~= escaped(text) + seq!['"'] + rest);
    law_escaped_text_reads_back(text, rest);
}

proof fn lemma_read_list(items: Seq<Json>, rest: Seq<char>)
    requires
        items.len() > 0,
        read_items(written_items(items) + seq![']'] + rest) == Some((items, rest)),
    ensures
        read_value(seq!['['] + written_items(items) + seq![']'] + rest) == Some(
            (Json::List(items), rest),
        ),
{
    let s = seq!['['] + written_items(items) + seq![']'] + rest;
    assert(s.skip(1) =~= written_items(items) + seq![']'] + rest);
    lemma_written_is_not_empty(items[0]);
    assert(s[1] == written(items[0])[0]);
}

proof fn lemma_read_record(members: Seq<(Seq<char>, Json)>, rest: Seq<char>)
    requires
        members.len() > 0,
        read_members(written_members(members) + seq!['}'] + rest) == Some((members, rest)),
    ensures
        read_value(seq!['{'] + written_members(members) + seq!['}'] + rest) == Some(
            (Json::Record(members), rest),
        ),
{
    let s = seq!['{'] + written_members(members) + seq!['}'] + rest;
    assert(s.skip(1) =~= written_members(members) + seq!['}'] + rest);
    assert(s[1] == '"');
}

proof fn lemma_read_empty(rest: Seq<char>)
    ensures
        read_value(seq!['[', ']'] + rest) == Some((Json::List(Seq::empty()), rest)),
        read_value(seq!['{', '}'] + rest) == Some((Json::Record(Seq::empty()), rest)),
{
    assert((seq!['[', ']'] + rest).skip(2) =~= rest);
    assert((seq!['{', '}'] + rest).skip(2) =~= rest);
}

proof fn lemma_read_value(v: Json, rest: Seq<char>)
    requires
        rest.len() == 0 || !is_digit(rest[0]),
    ensures
        read_value(written(v) + rest) == Some((v, rest)),
    decreases v,
{
    match v {
        Json::Text(text) => {
            lemma_read_quoted(text, rest);
        },
        Json::Number(n) => {
            lemma_read_number(n, rest);
        },
        Json::List(items) => {
            if items.len() == 0 {
                lemma_read_empty(rest);
                assert(written(v) =~= seq!['[', ']']);
                assert(items =~= Seq::empty());
            } else {
                lemma_read_items(items, rest);
                lemma_read_list(items, rest);
            }
        },
        Json::Record(members) => {
            if members.len() == 0 {
                lemma_read_empty(rest);
                assert(written(v) =~= seq!['{', '}']);
                assert(members =~= Seq::empty());
            } else {
                lemma_read_members(members, rest);
                lemma_read_record(members, rest);
            }
        },
    }
}

proof fn lemma_read_items(items: Seq<Json>, rest: Seq<char>)
    requires
        items.len() > 0,
    ensures
        read_items(written_items(items) + seq![']'] + rest) == Some((items, rest)),
    decreases items,
{
    let s = written_items(items) + seq![']'] + rest;
    lemma_written_is_not_empty(items[0]);
    if items.len() == 1 {
        let tail = seq![']'] + rest;
        assert(s =~= written(items[0]) + tail);
        lemma_read_value(items[0], tail);
        assert(tail.skip(1) =~= rest);
        assert(seq![items[0]] =~= items);
    } else {
        let others = items.drop_first();
        let tail = seq![','] + (written_items(others) + seq![']'] + rest);
        assert(s =~= written(items[0]) + tail);
        lemma_read_value(items[0], tail);
        assert(tail.skip(1) =~= written_items(others) + seq![']'] + rest);
        lemma_read_items(others, rest);
        assert(seq![items[0]] + others =~= items);
    }
}

proof fn lemma_read_members(members: Seq<(Seq<char>, Json)>, rest: Seq<char>)
    requires
        members.len() > 0,
    ensures
        read_members(written_members(members) + seq!['}'] + rest) == Some((members, rest)),
    decreases members,
{
    let s = written_members(members) + seq!['}'] + rest;
    let key = members[0].0;
    let v = members[0].1;
    lemma_written_is_not_empty(v);
    let tail = if members.len() == 1 {
        seq!['}'] + rest
    } else {
        seq![','] + (written_members(members.drop_first()) + seq!['}'] + rest)
    };
    let colon = seq![':'] + written(v) + tail;
    assert(s =~= quoted(key) + colon);
    assert(s.skip(1) =~= escaped(key) + seq!['"'] + colon);
    law_escaped_text_reads_back(key, colon);
    assert(colon.skip(1) =~= written(v) + tail);
    lemma_read_value(v, tail);
    if members.len() == 1 {
        assert(tail.skip(1) =~= rest);
        assert(seq![(key, v)] =~= members);
    } else {
        let others = members.drop_first();
        assert(tail.skip(1) =~= written_members(others) + seq!['}'] + rest);
        lemma_read_members(others, rest);
        assert(seq![(key, v)] + others =~= members);
    }
}

/// Whatever value is written, reading the document gives that value back.
pub proof fn law_written_value_reads_back(v: Json)
    ensures
        read_document(written(v)) == Some(v),
{
    lemma_read_value(v, Seq::empty());
    assert(written(v) + Seq::empty() =~= written(v));
}

} // verus!
