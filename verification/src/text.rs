//! Text building blocks: comparing and cutting strings, and writing numbers.

use vstd::arithmetic::div_mod::lemma_div_denominator;
use vstd::arithmetic::power::{lemma_pow0, lemma_pow1, lemma_pow_positive, pow};
use vstd::prelude::*;
use vstd::string::*;
use vstd::utf8::encode_utf8_decode_utf8;

verus! {

/// `String::push` appends one character to the end of the string.
pub assume_specification[ String::push ](s: &mut String, c: char)
    ensures
        final(s)@ == old(s)@.push(c),
;

/// The character for one hexadecimal digit, lower case above nine.
pub open spec fn digit(d: int) -> char {
    if d < 10 {
        (48 + d) as char
    } else {
        (87 + d) as char
    }
}

/// A number in decimal, without leading zeros.
pub open spec fn decimal(n: nat) -> Seq<char>
    decreases n,
{
    if n < 10 {
        seq![digit(n as int)]
    } else {
        decimal(n / 10).push(digit((n % 10) as int))
    }
}

/// An integer in decimal, with a minus sign in front where it is negative.
pub open spec fn signed_decimal(n: int) -> Seq<char> {
    if n < 0 {
        seq!['-'] + decimal((-n) as nat)
    } else {
        decimal(n as nat)
    }
}

/// The last `width` hexadecimal digits of a number, padded with zeros.
pub open spec fn hex(value: nat, width: nat) -> Seq<char>
    decreases width,
{
    if width == 0 {
        Seq::empty()
    } else {
        hex(value / 16, (width - 1) as nat).push(digit((value % 16) as int))
    }
}

/// Whether `s` opens with `prefix`.
pub open spec fn begins_with<T>(s: Seq<T>, prefix: Seq<T>) -> bool {
    prefix.len() <= s.len() && s.take(prefix.len() as int) == prefix
}

fn hex_digit(d: u8) -> (c: char)
    requires
        d < 16,
    ensures
        c == digit(d as int),
{
    if d < 10 {
        (48 + d) as char
    } else {
        (87 + d) as char
    }
}

/// Appends `n` in decimal.
pub fn push_decimal(out: &mut String, n: u64)
    ensures
        final(out)@ == old(out)@ + decimal(n as nat),
    decreases n,
{
    if n >= 10 {
        push_decimal(out, n / 10);
    }
    out.push(hex_digit((n % 10) as u8));
}

/// Appends `n` in decimal, with its sign where it is negative.
pub fn push_signed(out: &mut String, n: i32)
    ensures
        final(out)@ == old(out)@ + signed_decimal(n as int),
{
    if n < 0 {
        out.push('-');
        push_decimal(out, (-(n as i64)) as u64);
    } else {
        push_decimal(out, n as u64);
    }
}

/// Appends the last `width` hexadecimal digits of `value`, padded with zeros.
pub fn push_hex(out: &mut String, value: u32, width: usize)
    ensures
        final(out)@ == old(out)@ + hex(value as nat, width as nat),
    decreases width,
{
    if width > 0 {
        push_hex(out, value / 16, width - 1);
        out.push(hex_digit((value % 16) as u8));
    }
}

/// Whether two byte slices hold the same bytes.
pub fn same_bytes(a: &[u8], b: &[u8]) -> (same: bool)
    ensures
        same == (a@ == b@),
{
    if a.len() != b.len() {
        return false;
    }
    let mut i: usize = 0;
    while i < a.len()
        invariant
            a@.len() == b@.len(),
            i <= a@.len(),
            forall|j: int| 0 <= j < i ==> a@[j] == b@[j],
        decreases a@.len() - i,
    {
        if a[i] != b[i] {
            return false;
        }
        i = i + 1;
    }
    assert(a@ =~= b@);
    true
}

/// Whether two strings hold the same characters.
pub fn same_text(a: &str, b: &str) -> (same: bool)
    ensures
        same == (a@ == b@),
{
    proof {
        encode_utf8_decode_utf8(a@);
        encode_utf8_decode_utf8(b@);
    }
    same_bytes(a.as_bytes(), b.as_bytes())
}

/// Two strings, one behind the other.
pub fn joined(a: &str, b: &str) -> (s: String)
    ensures
        s@ == a@ + b@,
{
    let mut s: String = String::new();
    s.append(a);
    s.append(b);
    assert(s@ =~= a@ + b@);
    s
}

/// What follows `prefix` in `s`, where `s` opens with it.
pub fn strip_prefix<'a>(s: &'a str, prefix: &str) -> (rest: Option<&'a str>)
    ensures
        rest is Some <==> begins_with(s@, prefix@),
        rest matches Some(r) ==> r@ == s@.skip(prefix@.len() as int),
{
    let len: usize = s.unicode_len();
    let cut: usize = prefix.unicode_len();
    if cut <= len && same_text(s.substring_char(0, cut), prefix) {
        Some(s.substring_char(cut, len))
    } else {
        None
    }
}

/// A digit is the usual character for its value.
pub proof fn law_digits_are_the_usual(d: int)
    requires
        0 <= d < 16,
    ensures
        digit(d) == "0123456789abcdef"@[d],
{
    reveal_strlit("0123456789abcdef");
    assert("0123456789abcdef"@ =~= seq![
        '0', '1', '2', '3', '4', '5', '6', '7', '8', '9', 'a', 'b', 'c', 'd', 'e', 'f',
    ]);
}

/// A decimal is positional: each digit counts the power of ten of its place,
/// there are as many digits as the number needs, and no more.
pub proof fn law_decimal_is_positional(n: nat)
    ensures
        decimal(n).len() > 0,
        n < pow(10, decimal(n).len()),
        decimal(n).len() > 1 ==> n >= pow(10, (decimal(n).len() - 1) as nat),
        forall|i: int|
            0 <= i < decimal(n).len() ==> #[trigger] decimal(n)[i] == "0123456789abcdef"@[n as int
                / pow(10, (decimal(n).len() - 1 - i) as nat) % 10],
    decreases n,
{
    let len = decimal(n).len();
    lemma_pow0(10);
    lemma_pow1(10);
    if n < 10 {
        law_digits_are_the_usual(n as int);
        assert(n as int / 1 % 10 == n);
    } else {
        let tens = n / 10;
        law_decimal_is_positional(tens);
        let short = decimal(tens).len();
        assert(len == short + 1);
        lemma_pow_step(10, short);
        lemma_pow_step(10, (short - 1) as nat);
        assert forall|i: int| 0 <= i < len implies #[trigger] decimal(n)[i]
            == "0123456789abcdef"@[n as int / pow(10, (len - 1 - i) as nat) % 10] by {
            if i < short {
                let k = (short - 1 - i) as nat;
                assert(decimal(n)[i] == decimal(tens)[i]);
                lemma_pow_step(10, k);
                lemma_pow_positive(10, k);
                lemma_div_denominator(n as int, 10, pow(10, k));
            } else {
                law_digits_are_the_usual(n as int % 10);
                assert(n as int / 1 == n);
            }
        }
    }
}

proof fn lemma_pow_step(b: int, k: nat)
    ensures
        pow(b, k + 1) == b * pow(b, k),
{
    reveal(pow);
}

/// A negative integer is its decimal behind a minus sign.
pub proof fn law_sign_is_in_front(n: int)
    ensures
        n >= 0 ==> signed_decimal(n) == decimal(n as nat),
        n < 0 ==> signed_decimal(n).len() > 0 && signed_decimal(n)[0] == '-' && signed_decimal(
            n,
        ).drop_first() == decimal((-n) as nat),
{
    if n < 0 {
        assert(signed_decimal(n).drop_first() =~= decimal((-n) as nat));
    }
}

/// Hexadecimal digits are positional too, and padded to the width.
pub proof fn law_hex_is_positional(value: nat, width: nat)
    ensures
        hex(value, width).len() == width,
        forall|i: int|
            0 <= i < width ==> #[trigger] hex(value, width)[i] == "0123456789abcdef"@[value as int
                / pow(16, (width - 1 - i) as nat) % 16],
    decreases width,
{
    if width > 0 {
        let short = (width - 1) as nat;
        law_hex_is_positional(value / 16, short);
        lemma_pow0(16);
        assert forall|i: int| 0 <= i < width implies #[trigger] hex(value, width)[i]
            == "0123456789abcdef"@[value as int / pow(16, (width - 1 - i) as nat) % 16] by {
            if i < short {
                let k = (short - 1 - i) as nat;
                assert(hex(value, width)[i] == hex(value / 16, short)[i]);
                lemma_pow_step(16, k);
                lemma_pow_positive(16, k);
                lemma_div_denominator(value as int, 16, pow(16, k));
            } else {
                law_digits_are_the_usual(value as int % 16);
                assert(value as int / 1 == value);
            }
        }
    }
}

/// A sequence opens with a prefix exactly where it is the prefix with something
/// behind it.
pub proof fn law_prefix_has_a_rest<T>(s: Seq<T>, prefix: Seq<T>)
    ensures
        begins_with(s, prefix) <==> exists|rest: Seq<T>| s == #[trigger] (prefix + rest),
{
    if begins_with(s, prefix) {
        assert(s =~= prefix + s.skip(prefix.len() as int));
    }
    if exists|rest: Seq<T>| s == #[trigger] (prefix + rest) {
        let rest = choose|rest: Seq<T>| s == #[trigger] (prefix + rest);
        assert((prefix + rest).take(prefix.len() as int) =~= prefix);
    }
}

} // verus!
