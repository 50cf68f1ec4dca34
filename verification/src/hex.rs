//! The hexadecimal side of the token contract: the call data that asks for a
//! token's URI, and the decoding of the hex-encoded answer.
use vstd::prelude::*;
use vstd::utf8::{decode_utf8, valid_utf8};

use crate::numfmt::{
    hex_char_value, hex_value, is_hex_char, lemma_digit_chars, lemma_hex_value_leading_zeros,
    lower_hex_digit, unsigned_digits, lemma_hex_value_lower_hex,
    lemma_lower_hex_chars, lemma_usize_lower_hex_len, lower_hex, parse_hex_u8, parse_hex_u8_spec,
    usize_to_lower_hex,
};
use crate::text::{
    chars_of, concat, find_chars_from, find_first, has_prefix, lemma_find_first_unique,
    lemma_find_from, occurs_at, starts_with_chars, string_from_chars,
};

verus! {

/// The length of the call data, in characters.
pub const CALL_DATA_LEN: usize = 74;

/// The call data of `uri(uint256)` for token `n`: the function selector
/// `0x0e89341c`, then `n` in lower-case hexadecimal, zero-padded to 64 digits.
pub open spec fn ar_call_data(n: nat) -> Seq<char> {
    "0x0e89341c"@ + Seq::new((64 - lower_hex(n).len()) as nat, |i: int| '0') + lower_hex(n)
}

/// The call data that asks the token contract for the URI of token `nft_num`.
pub fn usize_to_ar_data(nft_num: usize) -> (r: String)
    ensures
        r@ == ar_call_data(nft_num as nat),
{
    proof {
        lemma_usize_lower_hex_len(nft_num);
        reveal_strlit("0x0e89341c");
    }
    let hex = usize_to_lower_hex(nft_num);
    let hex_chars = chars_of(hex.as_str());
    let selector = chars_of("0x0e89341c");
    let zero_len = CALL_DATA_LEN - hex_chars.len() - selector.len();
    let mut zero = String::new();
    let mut i: usize = 0;
    while i < zero_len
        invariant
            i <= zero_len,
            zero@ == Seq::new(i as nat, |j: int| '0'),
        decreases zero_len - i,
    {
        zero = concat(zero.as_str(), "0");
        proof {
            reveal_strlit("0");
        }
        assert(zero@ =~= Seq::new((i + 1) as nat, |j: int| '0'));
        i = i + 1;
    }
    let head = concat("0x0e89341c", zero.as_str());
    let r = concat(head.as_str(), hex.as_str());
    assert(r@ =~= ar_call_data(nft_num as nat));
    r
}

/// The call data is always 74 characters: the selector, then 64 hexadecimal
/// digits whose value is the token number.
pub proof fn lemma_call_data_encodes_token(n: usize)
    ensures
        ar_call_data(n as nat).len() == CALL_DATA_LEN,
        has_prefix(ar_call_data(n as nat), "0x0e89341c"@),
        forall|i: int|
            10 <= i < CALL_DATA_LEN ==> is_hex_char(#[trigger] ar_call_data(n as nat)[i]),
        hex_value(ar_call_data(n as nat).skip(10)) == n,
{
    reveal_strlit("0x0e89341c");
    lemma_usize_lower_hex_len(n);
    lemma_lower_hex_chars(n as nat);
    lemma_hex_value_lower_hex(n as nat);
    let h = lower_hex(n as nat);
    let z = Seq::new((64 - h.len()) as nat, |i: int| '0');
    let d = ar_call_data(n as nat);
    assert(d.take(10) =~= "0x0e89341c"@);
    assert(d.skip(10) =~= z + h);
    assert forall|i: int| 10 <= i < CALL_DATA_LEN implies is_hex_char(#[trigger] d[i]) by {
        if i < 10 + z.len() {
            assert(d[i] == z[i - 10]);
        } else {
            assert(d[i] == h[i - 10 - z.len()]);
        }
    }
    lemma_hex_value_leading_zeros(z, h);
}

/// Different tokens have different call data.
pub proof fn lemma_call_data_injective(a: usize, b: usize)
    requires
        ar_call_data(a as nat) == ar_call_data(b as nat),
    ensures
        a == b,
{
    lemma_call_data_encodes_token(a);
    lemma_call_data_encodes_token(b);
}

/// `s` without its leading `0x` prefixes, as `trim_start_matches("0x")` removes them.
pub open spec fn strip_0x(s: Seq<char>) -> Seq<char>
    decreases s.len(),
{
    if has_prefix(s, seq!['0', 'x']) {
        strip_0x(s.skip(2))
    } else {
        s
    }
}

/// The two characters that encode byte `k` of a hex string.
pub open spec fn hex_pair(h: Seq<char>, k: int) -> Seq<char> {
    h.subrange(2 * k, 2 * k + 2)
}

/// `h` is a sequence of two-character pieces that each parse as a byte in radix 16.
pub open spec fn hex_pairs_ok(h: Seq<char>) -> bool {
    &&& h.len() % 2 == 0
    &&& forall|k: int| 0 <= k < h.len() / 2 ==> #[trigger] parse_hex_u8_spec(hex_pair(h, k)) is Some
}

/// The bytes that the two-character pieces of `h` encode.
pub open spec fn hex_pairs_bytes(h: Seq<char>) -> Seq<u8> {
    Seq::new((h.len() / 2) as nat, |k: int| parse_hex_u8_spec(hex_pair(h, k))->0)
}

/// The text that `String::from_utf8_lossy` makes of `bytes`.
pub uninterp spec fn utf8_lossy(bytes: Seq<u8>) -> Seq<char>;

/// `String::from_utf8_lossy`: its result is named `utf8_lossy`; of it the
/// contract also claims what the documentation states for valid UTF-8, that
/// the text is the decoding of the bytes. How invalid sequences are replaced is
/// left to the name.
#[verifier::external_body]
fn lossy_string(bytes: &[u8]) -> (s: String)
    ensures
        s@ == utf8_lossy(bytes@),
        valid_utf8(bytes@) ==> s@ == decode_utf8(bytes@),
{
    String::from_utf8_lossy(bytes).into_owned()
}

/// The bytes that a hex answer encodes, after its leading `0x` prefixes.
pub open spec fn h_to_string_bytes(s: Seq<char>) -> Seq<u8> {
    hex_pairs_bytes(strip_0x(s))
}

/// The text that `String::from_utf8_lossy` makes of the bytes of a hex answer.
pub open spec fn h_to_string_text(s: Seq<char>) -> Seq<char> {
    utf8_lossy(h_to_string_bytes(s))
}

/// The inputs on which `h_to_string` decodes: after the leading `0x` prefixes
/// come two-character byte pieces, and the text of the bytes holds a `?`.
pub open spec fn h_to_string_ok(s: Seq<char>) -> bool {
    &&& hex_pairs_ok(strip_0x(s))
    &&& h_to_string_text(s).contains('?')
}

/// The text between the first `?` of `t` and the next `?` (or the end): the
/// second piece of `t` split at `?`.
pub open spec fn second_piece(t: Seq<char>) -> Seq<char> {
    let rest = t.skip(find_first(t, seq!['?'])->0 + 1);
    match find_first(rest, seq!['?']) {
        Some(j) => rest.take(j),
        None => rest,
    }
}

/// The text that `h_to_string` decodes from `s`.
pub open spec fn h_to_string_spec(s: Seq<char>) -> Seq<char> {
    second_piece(h_to_string_text(s))
}

/// Why a hex answer could not be decoded.
#[derive(Debug, PartialEq, Eq, Structural)]
pub enum HashDecodeError {
    /// A two-character piece is not a byte in radix 16, or a piece is cut short.
    InvalidHex,
    /// The decoded bytes hold no `?`.
    MissingSeparator,
}

/// The characters of `s` after its leading `0x` prefixes.
fn strip_0x_exec(s: &[char]) -> (r: Vec<char>)
    ensures
        r@ == strip_0x(s@),
{
    let prefix = chars_of("0x");
    proof {
        reveal_strlit("0x");
        assert(prefix@ =~= seq!['0', 'x']);
    }
    let n = s.len();
    let mut start: usize = 0;
    let mut rest: Vec<char> = string_chars(s, 0);
    assert(s@.skip(0) =~= s@);
    while starts_with_chars(rest.as_slice(), prefix.as_slice())
        invariant
            n == s@.len(),
            start <= s@.len(),
            prefix@ == seq!['0', 'x'],
            rest@ == s@.skip(start as int),
            strip_0x(s@) == strip_0x(rest@),
        decreases s@.len() - start,
    {
        assert(rest@.skip(2) =~= s@.skip(start + 2));
        start = start + 2;
        rest = string_chars(s, start);
    }
    rest
}

/// The characters `s[from..]`.
fn string_chars(s: &[char], from: usize) -> (r: Vec<char>)
    requires
        from <= s@.len(),
    ensures
        r@ == s@.skip(from as int),
{
    let mut r: Vec<char> = Vec::new();
    let mut i: usize = from;
    while i < s.len()
        invariant
            from <= i <= s@.len(),
            r@ == s@.subrange(from as int, i as int),
        decreases s@.len() - i,
    {
        r.push(s[i]);
        assert(s@.subrange(from as int, i + 1) =~= s@.subrange(from as int, i as int).push(
            s@[i as int],
        ));
        i = i + 1;
    }
    assert(s@.subrange(from as int, s@.len() as int) =~= s@.skip(from as int));
    r
}

/// The bytes that the two-character pieces of `h` encode, if each parses.
pub fn decode_hex_pairs(h: &[char]) -> (r: Option<Vec<u8>>)
    ensures
        r is Some <==> hex_pairs_ok(h@),
        r matches Some(b) ==> b@ == hex_pairs_bytes(h@),
{
    if h.len() % 2 != 0 {
        return None;
    }
    let len = h.len();
    let n = h.len() / 2;
    let mut bytes: Vec<u8> = Vec::new();
    let mut k: usize = 0;
    while k < n
        invariant
            len == h@.len(),
            h@.len() % 2 == 0,
            n == h@.len() / 2,
            k <= n,
            bytes@.len() == k,
            forall|j: int| 0 <= j < k ==> #[trigger] parse_hex_u8_spec(hex_pair(h@, j)) is Some,
            forall|j: int| 0 <= j < k ==> bytes@[j] == parse_hex_u8_spec(hex_pair(h@, j))->0,
        decreases n - k,
    {
        assert(2 * k + 2 <= len);
        let piece = string_from_chars(h, 2 * k, 2 * k + 2);
        assert(piece@ == hex_pair(h@, k as int));
        match parse_hex_u8(piece.as_str()) {
            Some(b) => {
                bytes.push(b);
            },
            None => {
                return None;
            },
        }
        k = k + 1;
    }
    assert(bytes@ =~= hex_pairs_bytes(h@));
    Some(bytes)
}

/// The second piece of `t` split at `?`, where `t` holds a `?`.
fn second_piece_exec(t: &str) -> (r: String)
    requires
        t@.contains('?'),
    ensures
        r@ == second_piece(t@),
{
    let cs = chars_of(t);
    let q = ['?'];
    assert(q@ =~= seq!['?']);
    let n = cs.len();
    proof {
        lemma_find_from(cs@, seq!['?'], 0);
        let k = choose|k: int| 0 <= k < cs@.len() && cs@[k] == '?';
        assert(cs@.subrange(k, k + 1) =~= seq!['?']);
        assert(occurs_at(cs@, seq!['?'], k));
    }
    let first = match find_chars_from(cs.as_slice(), q.as_slice(), 0) {
        Some(i) => i,
        None => {
            assert(false);
            0
        },
    };
    assert(first < n);
    let start = first + 1;
    proof {
        lemma_find_from(cs@, seq!['?'], start as int);
    }
    let end = match find_chars_from(cs.as_slice(), q.as_slice(), start) {
        Some(j) => j,
        None => n,
    };
    proof {
        let rest = cs@.skip(start as int);
        assert forall|m: int| 0 <= m implies occurs_at(rest, seq!['?'], m) == occurs_at(
            cs@,
            seq!['?'],
            start + m,
        ) by {
            if 0 <= m && m + 1 <= rest.len() {
                assert(rest.subrange(m, m + 1) =~= cs@.subrange(start + m, start + m + 1));
            }
        }
        if end < n {
            lemma_find_first_unique(rest, seq!['?'], end - start);
            assert(rest.take(end - start) =~= cs@.subrange(start as int, end as int));
        } else {
            lemma_find_from(rest, seq!['?'], 0);
            match find_first(rest, seq!['?']) {
                Some(j) => {
                    assert(occurs_at(cs@, seq!['?'], start + j));
                },
                None => {},
            }
            assert(rest =~= cs@.subrange(start as int, end as int));
        }
    }
    string_from_chars(cs.as_slice(), start, end)
}

/// The bytes that a hex answer encodes, if its pieces parse.
fn hex_answer_bytes(hash_str: &str) -> (r: Option<Vec<u8>>)
    ensures
        r is Some <==> hex_pairs_ok(strip_0x(hash_str@)),
        r matches Some(b) ==> b@ == h_to_string_bytes(hash_str@),
{
    let cs = chars_of(hash_str);
    let h = strip_0x_exec(cs.as_slice());
    decode_hex_pairs(h.as_slice())
}

/// Decodes a hex answer of the token contract: the leading `0x` prefixes are
/// dropped, each two characters give one byte, the bytes are read as UTF-8
/// text (invalid sequences replaced), and the result is the text between the
/// first `?` and the next `?` (or the end). Fails where the pieces are not
/// bytes or the text holds no `?`.
pub fn try_h_to_string(hash_str: &str) -> (r: Result<String, HashDecodeError>)
    ensures
        r matches Ok(t) ==> h_to_string_ok(hash_str@) && t@ == h_to_string_spec(hash_str@),
        r matches Ok(t) ==> (valid_utf8(h_to_string_bytes(hash_str@)) ==> t@ == second_piece(
            decode_utf8(h_to_string_bytes(hash_str@)),
        )),
        r == Err::<String, HashDecodeError>(HashDecodeError::InvalidHex) <==> !hex_pairs_ok(
            strip_0x(hash_str@),
        ),
        r == Err::<String, HashDecodeError>(HashDecodeError::MissingSeparator) <==> (hex_pairs_ok(
            strip_0x(hash_str@),
        ) && !h_to_string_ok(hash_str@)),
{
    let bytes = match hex_answer_bytes(hash_str) {
        Some(b) => b,
        None => return Err(HashDecodeError::InvalidHex),
    };
    let text = lossy_string(bytes.as_slice());
    let tc = chars_of(text.as_str());
    if !contains_char(tc.as_slice(), '?') {
        return Err(HashDecodeError::MissingSeparator);
    }
    Ok(h_to_string(hash_str))
}

/// Whether `c` occurs in `s`.
fn contains_char(s: &[char], c: char) -> (r: bool)
    ensures
        r == s@.contains(c),
{
    let mut i: usize = 0;
    while i < s.len()
        invariant
            i <= s@.len(),
            forall|j: int| 0 <= j < i ==> s@[j] != c,
        decreases s@.len() - i,
    {
        if s[i] == c {
            return true;
        }
        i = i + 1;
    }
    false
}

/// Decodes a hex answer of the token contract (see `try_h_to_string`); only
/// for answers that decode.
pub fn h_to_string(hash_str: &str) -> (r: String)
    requires
        h_to_string_ok(hash_str@),
    ensures
        r@ == h_to_string_spec(hash_str@),
        valid_utf8(h_to_string_bytes(hash_str@)) ==> r@ == second_piece(
            decode_utf8(h_to_string_bytes(hash_str@)),
        ),
{
    let bytes = match hex_answer_bytes(hash_str) {
        Some(b) => b,
        None => {
            assert(false);
            Vec::new()
        },
    };
    let text = lossy_string(bytes.as_slice());
    second_piece_exec(text.as_str())
}

/// Two lower-case hexadecimal digits for each byte of `b`.
pub open spec fn hex_encode(b: Seq<u8>) -> Seq<char> {
    Seq::new(
        2 * b.len(),
        |i: int|
            if i % 2 == 0 {
                lower_hex_digit((b[i / 2] / 16) as nat)
            } else {
                lower_hex_digit((b[i / 2] % 16) as nat)
            },
    )
}

/// Each two-digit piece of a hex encoding parses back to its byte.
proof fn lemma_hex_pair_of_encoding(b: Seq<u8>, k: int)
    requires
        0 <= k < b.len(),
    ensures
        parse_hex_u8_spec(hex_pair(hex_encode(b), k)) == Some(b[k]),
{
    let e = hex_encode(b);
    let x = b[k];
    assert((2 * k) / 2 == k && (2 * k) % 2 == 0 && (2 * k + 1) / 2 == k && (2 * k + 1) % 2 == 1)
        by (nonlinear_arith)
        requires
            0 <= k,
    ;
    let hi = lower_hex_digit((x / 16) as nat);
    let lo = lower_hex_digit((x % 16) as nat);
    lemma_digit_chars((x / 16) as nat);
    lemma_digit_chars((x % 16) as nat);
    let p = hex_pair(e, k);
    assert(p =~= seq![hi, lo]);
    assert(unsigned_digits(p) == p);
    assert(p.drop_last() =~= seq![hi]);
    assert(p.drop_last().drop_last() =~= Seq::<char>::empty());
    assert(hex_value(p.drop_last().drop_last()) == 0);
    assert(p.drop_last().last() == hi);
    assert(hex_value(p.drop_last()) == hex_char_value(hi));
    assert(hex_value(p) == 16 * hex_char_value(hi) + hex_char_value(lo));
    assert(x == 16 * (x / 16) + x % 16);
}

/// Decoding the hex encoding of bytes gives back the bytes.
pub proof fn lemma_hex_pairs_roundtrip(b: Seq<u8>)
    ensures
        hex_pairs_ok(hex_encode(b)),
        hex_pairs_bytes(hex_encode(b)) == b,
{
    let e = hex_encode(b);
    assert((2 * b.len()) % 2 == 0 && (2 * b.len()) / 2 == b.len()) by (nonlinear_arith);
    assert forall|k: int| 0 <= k < e.len() / 2 implies #[trigger] parse_hex_u8_spec(
        hex_pair(e, k),
    ) is Some by {
        lemma_hex_pair_of_encoding(b, k);
    }
    assert forall|k: int| 0 <= k < b.len() implies hex_pairs_bytes(e)[k] == b[k] by {
        lemma_hex_pair_of_encoding(b, k);
    }
    assert(hex_pairs_bytes(e) =~= b);
}

/// A hex encoding has no `0x` prefix of its own, so only a prefix put in front is dropped.
proof fn lemma_strip_0x_encoding(b: Seq<u8>)
    requires
        b.len() >= 1,
    ensures
        strip_0x(hex_encode(b)) == hex_encode(b),
        strip_0x(seq!['0', 'x'] + hex_encode(b)) == hex_encode(b),
{
    let e = hex_encode(b);
    assert(e[1] == lower_hex_digit((b[0] % 16) as nat)) by {
        assert(1int / 2 == 0 && 1int % 2 == 1);
    }
    lemma_digit_chars((b[0] % 16) as nat);
    assert(!has_prefix(e, seq!['0', 'x'])) by {
        if has_prefix(e, seq!['0', 'x']) {
            assert(e.take(2)[1] == 'x');
        }
    }
    let s = seq!['0', 'x'] + e;
    assert(s.take(2) =~= seq!['0', 'x']);
    assert(has_prefix(s, seq!['0', 'x']));
    assert(s.skip(2) =~= e);
    assert(strip_0x(s) == strip_0x(s.skip(2)));
}

/// `h_to_string` reads hex-encoded bytes, with or without a leading `0x`,
/// back as those bytes: it decodes where their text holds a `?`, and gives the
/// second piece of that text split at `?`.
pub proof fn lemma_h_to_string_decodes_encoding(b: Seq<u8>, with_prefix: bool)
    ensures
        ({
            let s = if with_prefix { seq!['0', 'x'] + hex_encode(b) } else { hex_encode(b) };
            &&& hex_pairs_ok(strip_0x(s))
            &&& h_to_string_bytes(s) == b
            &&& h_to_string_ok(s) <==> utf8_lossy(b).contains('?')
            &&& h_to_string_spec(s) == second_piece(utf8_lossy(b))
        }),
{
    lemma_hex_pairs_roundtrip(b);
    let e = hex_encode(b);
    let s = if with_prefix { seq!['0', 'x'] + e } else { e };
    if b.len() >= 1 {
        lemma_strip_0x_encoding(b);
    } else {
        assert(e.len() == 0);
        assert(!has_prefix(e, seq!['0', 'x']));
        if with_prefix {
            assert(s.take(2) =~= seq!['0', 'x']);
            assert(s.skip(2) =~= e);
            assert(strip_0x(s) == strip_0x(s.skip(2)));
        }
    }
    assert(strip_0x(s) == e);
    assert(h_to_string_bytes(s) == b);
}

} // verus!
