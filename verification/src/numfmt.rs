//! Numbers as text: decimal and hexadecimal digits, what std's formatting and
//! integer parsing produce and accept, and the laws that tie them together.
use vstd::prelude::*;

use crate::text::push_char;

verus! {

/// The ASCII digit for `d < 10`.
pub open spec fn decimal_digit(d: nat) -> char {
    ((48 + d) as u8) as char
}

/// The lower-case hexadecimal digit for `d < 16`.
pub open spec fn lower_hex_digit(d: nat) -> char {
    if d < 10 {
        ((48 + d) as u8) as char
    } else {
        ((87 + d) as u8) as char
    }
}

/// `n` written in decimal, without leading zeros ("0" for zero).
pub open spec fn decimal(n: nat) -> Seq<char>
    decreases n,
{
    if n < 10 {
        seq![decimal_digit(n)]
    } else {
        decimal(n / 10).push(decimal_digit(n % 10))
    }
}

/// `n` written in lower-case hexadecimal, without leading zeros ("0" for zero).
pub open spec fn lower_hex(n: nat) -> Seq<char>
    decreases n,
{
    if n < 16 {
        seq![lower_hex_digit(n)]
    } else {
        lower_hex(n / 16).push(lower_hex_digit(n % 16))
    }
}

/// `c` is one of `0-9`.
pub open spec fn is_decimal_char(c: char) -> bool {
    '0' <= c <= '9'
}

/// `c` is one of `0-9`, `a-f`, `A-F`.
pub open spec fn is_hex_char(c: char) -> bool {
    ('0' <= c <= '9') || ('a' <= c <= 'f') || ('A' <= c <= 'F')
}

/// The value of the hexadecimal digit `c`.
pub open spec fn hex_char_value(c: char) -> nat {
    if '0' <= c <= '9' {
        (c as nat - 48) as nat
    } else if 'a' <= c <= 'f' {
        (c as nat - 87) as nat
    } else {
        (c as nat - 55) as nat
    }
}

/// The value of a run of decimal digits (0 for the empty run).
pub open spec fn decimal_value(s: Seq<char>) -> nat
    decreases s.len(),
{
    if s.len() == 0 {
        0
    } else {
        10 * decimal_value(s.drop_last()) + (s.last() as nat - 48) as nat
    }
}

/// The value of a run of hexadecimal digits (0 for the empty run).
pub open spec fn hex_value(s: Seq<char>) -> nat
    decreases s.len(),
{
    if s.len() == 0 {
        0
    } else {
        16 * hex_value(s.drop_last()) + hex_char_value(s.last())
    }
}

/// The digits of an unsigned integer literal: the text after one optional `+`.
pub open spec fn unsigned_digits(s: Seq<char>) -> Seq<char> {
    if s.len() > 0 && s[0] == '+' {
        s.drop_first()
    } else {
        s
    }
}

/// What `str::parse::<usize>` gives: an optional `+`, then one or more decimal
/// digits whose value fits in `usize`; nothing else is accepted.
pub open spec fn parse_usize_spec(s: Seq<char>) -> Option<usize> {
    let d = unsigned_digits(s);
    if d.len() > 0 && (forall|i: int| 0 <= i < d.len() ==> is_decimal_char(#[trigger] d[i]))
        && decimal_value(d) <= usize::MAX {
        Some(decimal_value(d) as usize)
    } else {
        None
    }
}

/// What `u8::from_str_radix(s, 16)` gives: an optional `+`, then one or more
/// hexadecimal digits whose value is at most 255; nothing else is accepted.
pub open spec fn parse_hex_u8_spec(s: Seq<char>) -> Option<u8> {
    let d = unsigned_digits(s);
    if d.len() > 0 && (forall|i: int| 0 <= i < d.len() ==> is_hex_char(#[trigger] d[i]))
        && hex_value(d) <= 255 {
        Some(hex_value(d) as u8)
    } else {
        None
    }
}

/// The ASCII digit for `d < 10`.
fn decimal_digit_char(d: usize) -> (c: char)
    requires
        d < 10,
    ensures
        c == decimal_digit(d as nat),
{
    ((48 + d) as u8) as char
}

/// The lower-case hexadecimal digit for `d < 16`.
fn lower_hex_digit_char(d: usize) -> (c: char)
    requires
        d < 16,
    ensures
        c == lower_hex_digit(d as nat),
{
    if d < 10 {
        ((48 + d) as u8) as char
    } else {
        ((87 + d) as u8) as char
    }
}

/// `n` written in decimal, without leading zeros.
pub(crate) fn usize_to_decimal(n: usize) -> (s: String)
    ensures
        s@ == decimal(n as nat),
    decreases n,
{
    if n < 10 {
        let mut s = String::new();
        push_char(&mut s, decimal_digit_char(n));
        assert(s@ =~= seq![decimal_digit(n as nat)]);
        s
    } else {
        let mut s = usize_to_decimal(n / 10);
        push_char(&mut s, decimal_digit_char(n % 10));
        s
    }
}

/// `n` written in lower-case hexadecimal, without leading zeros.
pub(crate) fn usize_to_lower_hex(n: usize) -> (s: String)
    ensures
        s@ == lower_hex(n as nat),
    decreases n,
{
    if n < 16 {
        let mut s = String::new();
        push_char(&mut s, lower_hex_digit_char(n));
        assert(s@ =~= seq![lower_hex_digit(n as nat)]);
        s
    } else {
        let mut s = usize_to_lower_hex(n / 16);
        push_char(&mut s, lower_hex_digit_char(n % 16));
        s
    }
}

/// `str::parse::<usize>`: the contract claims the grammar and value that the
/// documentation of `usize::from_str_radix` (radix 10) states; the error value is dropped.
#[verifier::external_body]
pub(crate) fn parse_usize(s: &str) -> (r: Option<usize>)
    ensures
        r == parse_usize_spec(s@),
{
    s.parse::<usize>().ok()
}

/// `u8::from_str_radix(s, 16)`: the contract claims the grammar and value that
/// its documentation states; the error value is dropped.
#[verifier::external_body]
pub(crate) fn parse_hex_u8(s: &str) -> (r: Option<u8>)
    ensures
        r == parse_hex_u8_spec(s@),
{
    u8::from_str_radix(s, 16).ok()
}

/// Powers of sixteen.
pub open spec fn pow16(k: nat) -> nat
    decreases k,
{
    if k == 0 {
        1
    } else {
        16 * pow16((k - 1) as nat)
    }
}

/// A number below `16^k` has at most `k` hexadecimal digits.
pub proof fn lemma_lower_hex_len(n: nat, k: nat)
    requires
        k >= 1,
        n < pow16(k),
    ensures
        1 <= lower_hex(n).len() <= k,
    decreases n,
{
    if n >= 16 {
        assert(k >= 2) by {
            if k == 1 {
                assert(pow16(1) == 16 * pow16(0));
            }
        }
        assert(n / 16 < pow16((k - 1) as nat)) by {
            assert(pow16(k) == 16 * pow16((k - 1) as nat));
        }
        lemma_lower_hex_len(n / 16, (k - 1) as nat);
    }
}

/// Every `usize` has at most 16 hexadecimal digits.
pub proof fn lemma_usize_lower_hex_len(n: usize)
    ensures
        1 <= lower_hex(n as nat).len() <= 16,
{
    assert(pow16(16) == 0x1_0000_0000_0000_0000) by {
        reveal_with_fuel(pow16, 17);
    }
    lemma_lower_hex_len(n as nat, 16);
}

/// A digit character reads back as its value.
pub proof fn lemma_digit_chars(d: nat)
    ensures
        d < 16 ==> is_hex_char(lower_hex_digit(d)) && hex_char_value(lower_hex_digit(d)) == d,
        d < 10 ==> is_decimal_char(decimal_digit(d)) && decimal_digit(d) as nat - 48 == d,
{
}

/// Every digit of `lower_hex(n)` is a hexadecimal digit.
pub proof fn lemma_lower_hex_chars(n: nat)
    ensures
        forall|i: int| 0 <= i < lower_hex(n).len() ==> is_hex_char(#[trigger] lower_hex(n)[i]),
    decreases n,
{
    lemma_digit_chars(n % 16);
    if n >= 16 {
        lemma_lower_hex_chars(n / 16);
        let s = lower_hex(n);
        assert forall|i: int| 0 <= i < s.len() implies is_hex_char(#[trigger] s[i]) by {
            if i < s.len() - 1 {
                assert(s[i] == lower_hex(n / 16)[i]);
            }
        }
    }
}

/// Reading back the hexadecimal digits of `n` gives `n`.
pub proof fn lemma_hex_value_lower_hex(n: nat)
    ensures
        hex_value(lower_hex(n)) == n,
    decreases n,
{
    lemma_digit_chars(n % 16);
    let s = lower_hex(n);
    assert(n == 16 * (n / 16) + n % 16) by (nonlinear_arith);
    if n < 16 {
        assert(s.drop_last() =~= Seq::<char>::empty());
        assert(hex_value(s.drop_last()) == 0);
    } else {
        lemma_hex_value_lower_hex(n / 16);
        assert(s.drop_last() =~= lower_hex(n / 16));
    }
    assert(s.last() == lower_hex_digit(n % 16));
    assert(hex_value(s) == 16 * hex_value(s.drop_last()) + hex_char_value(s.last()));
}

/// Reading back the decimal digits of `n` gives `n`.
pub proof fn lemma_decimal_value_decimal(n: nat)
    ensures
        decimal_value(decimal(n)) == n,
        decimal(n).len() >= 1,
        forall|i: int| 0 <= i < decimal(n).len() ==> is_decimal_char(#[trigger] decimal(n)[i]),
    decreases n,
{
    lemma_digit_chars(n % 10);
    let s = decimal(n);
    assert(n == 10 * (n / 10) + n % 10) by (nonlinear_arith);
    assert(s.last() == decimal_digit(n % 10));
    if n < 10 {
        assert(s.drop_last() =~= Seq::<char>::empty());
        assert(decimal_value(s.drop_last()) == 0);
        assert(decimal_value(s) == 10 * decimal_value(s.drop_last()) + (s.last() as nat - 48) as nat);
    } else {
        lemma_decimal_value_decimal(n / 10);
        assert(s.drop_last() =~= decimal(n / 10));
        assert(decimal_value(s) == 10 * decimal_value(s.drop_last()) + (s.last() as nat - 48) as nat);
        assert forall|i: int| 0 <= i < s.len() implies is_decimal_char(#[trigger] s[i]) by {
            if i < s.len() - 1 {
                assert(s[i] == decimal(n / 10)[i]);
            }
        }
    }
}

/// Leading zeros do not change a hexadecimal value.
pub proof fn lemma_hex_value_leading_zeros(z: Seq<char>, s: Seq<char>)
    requires
        forall|i: int| 0 <= i < z.len() ==> #[trigger] z[i] == '0',
    ensures
        hex_value(z + s) == hex_value(s),
    decreases s.len(),
{
    if s.len() == 0 {
        assert(z + s =~= z);
        lemma_hex_value_zeros(z);
    } else {
        assert((z + s).drop_last() =~= z + s.drop_last());
        lemma_hex_value_leading_zeros(z, s.drop_last());
    }
}

/// A run of zeros has value zero.
pub proof fn lemma_hex_value_zeros(z: Seq<char>)
    requires
        forall|i: int| 0 <= i < z.len() ==> #[trigger] z[i] == '0',
    ensures
        hex_value(z) == 0,
    decreases z.len(),
{
    if z.len() > 0 {
        lemma_hex_value_zeros(z.drop_last());
    }
}

} // verus!
