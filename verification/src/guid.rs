//! Writing a GUID the way GPT tools do.

use vstd::prelude::*;
use vstd::string::*;

use crate::text::{digit, hex, law_digits_are_the_usual, push_hex};

verus! {

/// The number whose bytes, least significant first, are these.
pub open spec fn little_endian(bytes: Seq<u8>) -> nat
    decreases bytes.len(),
{
    if bytes.len() == 0 {
        0
    } else {
        bytes[0] as nat + 256 * little_endian(bytes.drop_first())
    }
}

/// Each byte as two hexadecimal digits, in order.
pub open spec fn hex_bytes(bytes: Seq<u8>) -> Seq<char>
    decreases bytes.len(),
{
    if bytes.len() == 0 {
        Seq::empty()
    } else {
        hex_bytes(bytes.drop_last()) + hex(bytes.last() as nat, 2)
    }
}

/// A GUID as text: three numbers that are stored least significant byte first,
/// then two and six bytes in the order in which they are stored.
pub open spec fn guid_text(bytes: Seq<u8>) -> Seq<char> {
    hex(little_endian(bytes.subrange(0, 4)), 8) + seq!['-'] + hex(
        little_endian(bytes.subrange(4, 6)),
        4,
    ) + seq!['-'] + hex(little_endian(bytes.subrange(6, 8)), 4) + seq!['-'] + hex_bytes(
        bytes.subrange(8, 10),
    ) + seq!['-'] + hex_bytes(bytes.subrange(10, 16))
}

fn push_hex_bytes(out: &mut String, bytes: &[u8; 16], from: usize, to: usize)
    requires
        from <= to <= 16,
    ensures
        final(out)@ == old(out)@ + hex_bytes(bytes@.subrange(from as int, to as int)),
    decreases to - from,
{
    if from < to {
        push_hex_bytes(out, bytes, from, to - 1);
        push_hex(out, bytes[to - 1] as u32, 2);
        assert(bytes@.subrange(from as int, to as int).drop_last() =~= bytes@.subrange(
            from as int,
            to - 1,
        ));
    }
}

proof fn lemma_little_endian_pair(bytes: Seq<u8>)
    requires
        bytes.len() == 2,
    ensures
        little_endian(bytes) == bytes[0] + 256 * bytes[1],
{
    reveal_with_fuel(little_endian, 3);
}

proof fn lemma_little_endian_quad(bytes: Seq<u8>)
    requires
        bytes.len() == 4,
    ensures
        little_endian(bytes) == bytes[0] + 256 * bytes[1] + 65536 * bytes[2] + 16777216 * bytes[3],
{
    reveal_with_fuel(little_endian, 5);
}

/// Writes a GUID in the usual form. The first three fields are stored least
/// significant byte first, the rest in the order in which it is read.
pub fn fmt_guid(b: &[u8; 16]) -> (text: String)
    ensures
        text@ == guid_text(b@),
{
    let d1: u32 = b[0] as u32 + 256 * (b[1] as u32) + 65536 * (b[2] as u32) + 16777216 * (
    b[3] as u32);
    let d2: u32 = b[4] as u32 + 256 * (b[5] as u32);
    let d3: u32 = b[6] as u32 + 256 * (b[7] as u32);
    proof {
        lemma_little_endian_quad(b@.subrange(0, 4));
        lemma_little_endian_pair(b@.subrange(4, 6));
        lemma_little_endian_pair(b@.subrange(6, 8));
    }
    let mut text: String = String::new();
    push_hex(&mut text, d1, 8);
    text.push('-');
    push_hex(&mut text, d2, 4);
    text.push('-');
    push_hex(&mut text, d3, 4);
    text.push('-');
    push_hex_bytes(&mut text, b, 8, 10);
    text.push('-');
    push_hex_bytes(&mut text, b, 10, 16);
    assert(text@ =~= guid_text(b@));
    text
}

/// A GUID byte by byte: the first three groups read backwards, the last two
/// forwards.
pub open spec fn guid_by_bytes(b: Seq<u8>) -> Seq<char> {
    hex_bytes(seq![b[3], b[2], b[1], b[0]]) + seq!['-'] + hex_bytes(seq![b[5], b[4]]) + seq!['-']
        + hex_bytes(seq![b[7], b[6]]) + seq!['-'] + hex_bytes(seq![b[8], b[9]]) + seq!['-']
        + hex_bytes(seq![b[10], b[11], b[12], b[13], b[14], b[15]])
}

/// Where the two digits of byte `i` stand in the text of a GUID.
spec fn place_of(i: int) -> int {
    if i < 4 {
        6 - 2 * i
    } else if i < 6 {
        19 - 2 * i
    } else if i < 8 {
        28 - 2 * i
    } else if i < 10 {
        2 * i + 3
    } else {
        2 * i + 4
    }
}

proof fn lemma_hex_of_byte(b: u8)
    ensures
        hex(b as nat, 2) == seq![digit(b as int / 16), digit(b as int % 16)],
{
    reveal_with_fuel(hex, 3);
    assert(hex(b as nat, 2) =~= seq![digit(b as int / 16), digit(b as int % 16)]);
}

proof fn lemma_hex_splits_off_byte(high: nat, low: u8, width: nat)
    ensures
        hex(256 * high + low as nat, width + 2) == hex(high, width) + hex(low as nat, 2),
{
    let value = 256 * high + low as nat;
    assert(value / 16 == 16 * high + low as nat / 16);
    assert(value / 16 / 16 == high);
    assert(value % 16 == low as nat % 16);
    assert((value / 16) % 16 == low as nat / 16);
    reveal_with_fuel(hex, 3);
    lemma_hex_of_byte(low);
    assert(hex(value, width + 2) =~= hex(high, width) + hex(low as nat, 2));
}

proof fn lemma_hex_bytes_of_pair(a: u8, b: u8)
    ensures
        hex_bytes(seq![a, b]) == hex(a as nat, 2) + hex(b as nat, 2),
{
    reveal_with_fuel(hex_bytes, 3);
    assert(seq![a, b].drop_last() =~= seq![a]);
    assert(seq![a].drop_last() =~= Seq::<u8>::empty());
    assert(hex_bytes(seq![a, b]) =~= hex(a as nat, 2) + hex(b as nat, 2));
}

proof fn lemma_hex_bytes_of_quad(a: u8, b: u8, c: u8, d: u8)
    ensures
        hex_bytes(seq![a, b, c, d]) == hex(a as nat, 2) + hex(b as nat, 2) + hex(c as nat, 2) + hex(
            d as nat,
            2,
        ),
{
    assert(seq![a, b, c, d].drop_last() =~= seq![a, b, c]);
    assert(seq![a, b, c].drop_last() =~= seq![a, b]);
    lemma_hex_bytes_of_pair(a, b);
    reveal_with_fuel(hex_bytes, 3);
}

/// The text of a GUID holds its bytes in mixed order: the first three groups
/// read backwards, the last two forwards.
pub proof fn law_guid_mixes_byte_orders(b: Seq<u8>)
    requires
        b.len() == 16,
    ensures
        guid_text(b) == guid_by_bytes(b),
{
    lemma_little_endian_quad(b.subrange(0, 4));
    lemma_little_endian_pair(b.subrange(4, 6));
    lemma_little_endian_pair(b.subrange(6, 8));
    let d1 = little_endian(b.subrange(0, 4));
    let h3 = b[3] as nat;
    let h2 = 256 * h3 + b[2] as nat;
    let h1 = 256 * h2 + b[1] as nat;
    assert(d1 == 256 * h1 + b[0] as nat);
    lemma_hex_splits_off_byte(h1, b[0], 6);
    lemma_hex_splits_off_byte(h2, b[1], 4);
    lemma_hex_splits_off_byte(h3, b[2], 2);
    lemma_hex_bytes_of_quad(b[3], b[2], b[1], b[0]);
    lemma_hex_splits_off_byte(b[5] as nat, b[4], 2);
    lemma_hex_bytes_of_pair(b[5], b[4]);
    lemma_hex_splits_off_byte(b[7] as nat, b[6], 2);
    lemma_hex_bytes_of_pair(b[7], b[6]);
    assert(b.subrange(8, 10) =~= seq![b[8], b[9]]);
    assert(b.subrange(10, 16) =~= seq![b[10], b[11], b[12], b[13], b[14], b[15]]);
}

proof fn lemma_digits_of_pair(a: u8, b: u8)
    ensures
        hex_bytes(seq![a, b]) == seq![
            digit(a as int / 16),
            digit(a as int % 16),
            digit(b as int / 16),
            digit(b as int % 16),
        ],
{
    lemma_hex_bytes_of_pair(a, b);
    lemma_hex_of_byte(a);
    lemma_hex_of_byte(b);
    assert(hex_bytes(seq![a, b]) =~= seq![
        digit(a as int / 16),
        digit(a as int % 16),
        digit(b as int / 16),
        digit(b as int % 16),
    ]);
}

proof fn lemma_digits_of_quad(a: u8, b: u8, c: u8, d: u8)
    ensures
        hex_bytes(seq![a, b, c, d]) == hex_bytes(seq![a, b]) + hex_bytes(seq![c, d]),
        hex_bytes(seq![a, b]).len() == 4,
        hex_bytes(seq![c, d]).len() == 4,
        hex_bytes(seq![a, b, c, d]) == seq![
            digit(a as int / 16),
            digit(a as int % 16),
            digit(b as int / 16),
            digit(b as int % 16),
            digit(c as int / 16),
            digit(c as int % 16),
            digit(d as int / 16),
            digit(d as int % 16),
        ],
{
    lemma_hex_bytes_of_quad(a, b, c, d);
    lemma_hex_bytes_of_pair(c, d);
    lemma_hex_bytes_of_pair(a, b);
    assert(hex_bytes(seq![a, b, c, d]) =~= hex_bytes(seq![a, b]) + hex_bytes(seq![c, d]));
    lemma_digits_of_pair(a, b);
    lemma_digits_of_pair(c, d);
    assert(hex_bytes(seq![a, b, c, d]) =~= seq![
        digit(a as int / 16),
        digit(a as int % 16),
        digit(b as int / 16),
        digit(b as int % 16),
        digit(c as int / 16),
        digit(c as int % 16),
        digit(d as int / 16),
        digit(d as int % 16),
    ]);
}

proof fn lemma_digits_of_six(a: u8, b: u8, c: u8, d: u8, e: u8, f: u8)
    ensures
        hex_bytes(seq![a, b, c, d, e, f]) == seq![
            digit(a as int / 16),
            digit(a as int % 16),
            digit(b as int / 16),
            digit(b as int % 16),
            digit(c as int / 16),
            digit(c as int % 16),
            digit(d as int / 16),
            digit(d as int % 16),
            digit(e as int / 16),
            digit(e as int % 16),
            digit(f as int / 16),
            digit(f as int % 16),
        ],
{
    let all = seq![a, b, c, d, e, f];
    let five = seq![a, b, c, d, e];
    let four = seq![a, b, c, d];
    assert(all.drop_last() =~= five);
    assert(five.drop_last() =~= four);
    assert(hex_bytes(all) == hex_bytes(five) + hex(f as nat, 2));
    assert(hex_bytes(five) == hex_bytes(four) + hex(e as nat, 2));
    lemma_digits_of_quad(a, b, c, d);
    lemma_hex_of_byte(e);
    lemma_hex_of_byte(f);
    assert(hex_bytes(all) =~= seq![
        digit(a as int / 16),
        digit(a as int % 16),
        digit(b as int / 16),
        digit(b as int % 16),
        digit(c as int / 16),
        digit(c as int % 16),
        digit(d as int / 16),
        digit(d as int % 16),
        digit(e as int / 16),
        digit(e as int % 16),
        digit(f as int / 16),
        digit(f as int % 16),
    ]);
}

proof fn lemma_groups(
    g1: Seq<char>,
    g2: Seq<char>,
    g3: Seq<char>,
    g4: Seq<char>,
    g5: Seq<char>,
)
    requires
        g1.len() == 8,
        g2.len() == 4,
        g3.len() == 4,
        g4.len() == 4,
        g5.len() == 12,
    ensures
        ({
            let text = g1 + seq!['-'] + g2 + seq!['-'] + g3 + seq!['-'] + g4 + seq!['-'] + g5;
            &&& text.len() == 36
            &&& text[8] == '-' && text[13] == '-' && text[18] == '-' && text[23] == '-'
            &&& forall|i: int| 0 <= i < 8 ==> #[trigger] text[i] == g1[i]
            &&& forall|i: int| 9 <= i < 13 ==> #[trigger] text[i] == g2[i - 9]
            &&& forall|i: int| 14 <= i < 18 ==> #[trigger] text[i] == g3[i - 14]
            &&& forall|i: int| 19 <= i < 23 ==> #[trigger] text[i] == g4[i - 19]
            &&& forall|i: int| 24 <= i < 36 ==> #[trigger] text[i] == g5[i - 24]
        }),
{
}

proof fn lemma_guid_places(b: Seq<u8>)
    requires
        b.len() == 16,
    ensures
        guid_text(b).len() == 36,
        guid_text(b)[8] == '-',
        guid_text(b)[13] == '-',
        guid_text(b)[18] == '-',
        guid_text(b)[23] == '-',
        forall|i: int|
            0 <= i < 16 ==> guid_text(b)[#[trigger] place_of(i)] == digit(b[i] as int / 16)
                && guid_text(b)[place_of(i) + 1] == digit(b[i] as int % 16),
{
    law_guid_mixes_byte_orders(b);
    lemma_digits_of_quad(b[3], b[2], b[1], b[0]);
    lemma_digits_of_pair(b[5], b[4]);
    lemma_digits_of_pair(b[7], b[6]);
    lemma_digits_of_pair(b[8], b[9]);
    lemma_digits_of_six(b[10], b[11], b[12], b[13], b[14], b[15]);
    let g1 = hex_bytes(seq![b[3], b[2], b[1], b[0]]);
    let g2 = hex_bytes(seq![b[5], b[4]]);
    let g3 = hex_bytes(seq![b[7], b[6]]);
    let g4 = hex_bytes(seq![b[8], b[9]]);
    let g5 = hex_bytes(seq![b[10], b[11], b[12], b[13], b[14], b[15]]);
    let text = guid_text(b);
    lemma_groups(g1, g2, g3, g4, g5);
    assert forall|i: int| 0 <= i < 16 implies text[#[trigger] place_of(i)] == digit(
        b[i] as int / 16,
    ) && text[place_of(i) + 1] == digit(b[i] as int % 16) by {
        let p = place_of(i);
        if i < 4 {
            assert(text[p] == g1[p] && text[p + 1] == g1[p + 1]);
        } else if i < 6 {
            assert(text[p] == g2[p - 9] && text[p + 1] == g2[p - 8]);
        } else if i < 8 {
            assert(text[p] == g3[p - 14] && text[p + 1] == g3[p - 13]);
        } else if i < 10 {
            assert(text[p] == g4[p - 19] && text[p + 1] == g4[p - 18]);
        } else {
            assert(text[p] == g5[p - 24] && text[p + 1] == g5[p - 23]);
        }
    }
}

/// Every GUID is written in 36 characters: groups of 8, 4, 4, 4 and 12 digits,
/// zeros included, with dashes between them.
pub proof fn law_guid_is_padded(b: Seq<u8>)
    requires
        b.len() == 16,
    ensures
        guid_text(b).len() == 36,
        guid_text(b)[8] == '-',
        guid_text(b)[13] == '-',
        guid_text(b)[18] == '-',
        guid_text(b)[23] == '-',
        forall|i: int|
            0 <= i < 36 && i != 8 && i != 13 && i != 18 && i != 23 ==> exists|d: int|
                0 <= d < 16 && #[trigger] guid_text(b)[i] == #[trigger] digit(d),
{
    lemma_guid_places(b);
    assert forall|i: int| 0 <= i < 36 && i != 8 && i != 13 && i != 18 && i != 23 implies exists|
        d: int,
    | 0 <= d < 16 && #[trigger] guid_text(b)[i] == #[trigger] digit(d) by {
        let k = if i < 8 {
            3 - i / 2
        } else if i < 13 {
            5 - (i - 9) / 2
        } else if i < 18 {
            7 - (i - 14) / 2
        } else if i < 23 {
            8 + (i - 19) / 2
        } else {
            10 + (i - 24) / 2
        };
        assert(place_of(k) == i || place_of(k) + 1 == i);
        assert(0 <= k < 16);
        if place_of(k) == i {
            assert(guid_text(b)[i] == digit(b[k] as int / 16));
        } else {
            assert(guid_text(b)[i] == digit(b[k] as int % 16));
        }
    }
}

/// Different GUIDs are written differently.
pub proof fn law_guid_text_is_unique(a: Seq<u8>, b: Seq<u8>)
    requires
        a.len() == 16,
        b.len() == 16,
        guid_text(a) == guid_text(b),
    ensures
        a == b,
{
    lemma_guid_places(a);
    lemma_guid_places(b);
    assert forall|i: int| 0 <= i < 16 implies a[i] == b[i] by {
        let p = place_of(i);
        assert(digit(a[i] as int / 16) == digit(b[i] as int / 16));
        assert(digit(a[i] as int % 16) == digit(b[i] as int % 16));
    }
    assert(a =~= b);
}

/// Whether a text spells a GUID out: 36 characters, dashes behind the first
/// four groups, and the two digits of each byte at its place, which is counted
/// backwards within each of the first three groups.
pub open spec fn spells(text: Seq<char>, guid: Seq<u8>) -> bool {
    let places = seq![6int, 4, 2, 0, 11, 9, 16, 14, 19, 21, 24, 26, 28, 30, 32, 34];
    &&& text.len() == 36
    &&& text[8] == '-' && text[13] == '-' && text[18] == '-' && text[23] == '-'
    &&& forall|i: int|
        0 <= i < 16 ==> text[#[trigger] places[i]] == "0123456789abcdef"@[guid[i] as int / 16]
            && text[places[i] + 1] == "0123456789abcdef"@[guid[i] as int % 16]
}

/// Every GUID is spelled out, digit by digit.
pub proof fn law_guid_is_spelled_out(guid: Seq<u8>)
    requires
        guid.len() == 16,
    ensures
        spells(guid_text(guid), guid),
{
    lemma_guid_places(guid);
    let places = seq![6int, 4, 2, 0, 11, 9, 16, 14, 19, 21, 24, 26, 28, 30, 32, 34];
    let text = guid_text(guid);
    assert forall|i: int| 0 <= i < 16 implies text[#[trigger] places[i]]
        == "0123456789abcdef"@[guid[i] as int / 16] && text[places[i] + 1]
        == "0123456789abcdef"@[guid[i] as int % 16] by {
        assert(places[i] == place_of(i));
        law_digits_are_the_usual(guid[i] as int / 16);
        law_digits_are_the_usual(guid[i] as int % 16);
    }
}

} // verus!
