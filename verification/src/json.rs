//! Pieces of JSON text: the object inside a text, and the `result` string of a
//! JSON-RPC answer.
use vstd::prelude::*;

use crate::numfmt::lower_hex_digit;

use crate::text::{
    chars_of, find_chars_from, find_first, find_from, last_index_of, lemma_find_from,
    lemma_last_index_of, occurs_at, rfind_char, string_from_chars,
};

verus! {

/// The index of the first `{` of `s`, if any.
pub open spec fn first_open_brace(s: Seq<char>) -> Option<int> {
    find_first(s, seq!['{'])
}

/// The texts on which `parse_json` cuts: they hold a `{` and a `}`, and the
/// last `}` is at most one place before the first `{`.
pub open spec fn parse_json_ok(s: Seq<char>) -> bool {
    &&& first_open_brace(s) is Some
    &&& last_index_of(s, '}') is Some
    &&& last_index_of(s, '}')->0 + 1 >= first_open_brace(s)->0
}

/// The text from the first `{` of `s` through its last `}`.
pub open spec fn parse_json_spec(s: Seq<char>) -> Seq<char> {
    s.subrange(first_open_brace(s)->0, last_index_of(s, '}')->0 + 1)
}

/// The text from the first `{` of `text` through its last `}`: the JSON
/// object inside a text that surrounds it with other characters.
pub fn parse_json(text: &str) -> (r: String)
    requires
        parse_json_ok(text@),
    ensures
        r@ == parse_json_spec(text@),
{
    let cs = chars_of(text);
    let open = ['{'];
    assert(open@ =~= seq!['{']);
    let n = cs.len();
    let start = match find_chars_from(cs.as_slice(), open.as_slice(), 0) {
        Some(i) => i,
        None => {
            assert(false);
            0
        },
    };
    let end = match rfind_char(cs.as_slice(), '}') {
        Some(j) => j,
        None => {
            assert(false);
            0
        },
    };
    proof {
        lemma_last_index_of(cs@, '}');
    }
    assert(end < n);
    string_from_chars(cs.as_slice(), start, end + 1)
}

/// Cutting out the JSON object again changes nothing, as long as the first cut
/// was not empty.
pub proof fn lemma_parse_json_idempotent(s: Seq<char>)
    requires
        parse_json_ok(s),
        parse_json_spec(s).len() > 0,
    ensures
        parse_json_ok(parse_json_spec(s)),
        parse_json_spec(parse_json_spec(s)) == parse_json_spec(s),
{
    let a = first_open_brace(s)->0;
    let b = last_index_of(s, '}')->0;
    let r = parse_json_spec(s);
    lemma_find_from(s, seq!['{'], 0);
    lemma_last_index_of(s, '}');
    assert(occurs_at(s, seq!['{'], a));
    assert(s.subrange(a, a + 1)[0] == s[a]);
    assert(r[0] == '{');
    assert(r.subrange(0, 1) =~= seq!['{']);
    assert(occurs_at(r, seq!['{'], 0));
    crate::text::lemma_find_first_unique(r, seq!['{'], 0);
    assert(r.last() == '}');
    assert(last_index_of(r, '}') == Some(r.len() - 1));
    assert(r.subrange(0, r.len() as int) =~= r);
}

/// What precedes the `result` string in a JSON-RPC answer.
pub open spec fn result_key() -> Seq<char> {
    seq!['"', 'r', 'e', 's', 'u', 'l', 't', '"', ':', '"']
}

/// The `result` string of a JSON-RPC answer, read as text: what follows the
/// first `"result":"` up to the next `"`; none where either is missing.
pub open spec fn rpc_result(s: Seq<char>) -> Option<Seq<char>> {
    match find_first(s, result_key()) {
        Some(i) => {
            let rest = s.skip(i + 10);
            match find_first(rest, seq!['"']) {
                Some(j) => Some(rest.take(j)),
                None => None,
            }
        },
        None => None,
    }
}

/// The `result` string of a JSON-RPC answer (see `rpc_result`).
pub fn extract_rpc_result(text: &str) -> (r: Option<String>)
    ensures
        r matches Some(t) ==> rpc_result(text@) == Some(t@),
        r is None ==> rpc_result(text@) is None,
{
    let cs = chars_of(text);
    let key = ['"', 'r', 'e', 's', 'u', 'l', 't', '"', ':', '"'];
    assert(key@ =~= result_key());
    let i = match find_chars_from(cs.as_slice(), key.as_slice(), 0) {
        Some(i) => i,
        None => return None,
    };
    proof {
        lemma_find_from(cs@, result_key(), 0);
    }
    let n = cs.len();
    assert(i + 10 <= n);
    let start = i + 10;
    let quote = ['"'];
    assert(quote@ =~= seq!['"']);
    let j = match find_chars_from(cs.as_slice(), quote.as_slice(), start) {
        Some(j) => j,
        None => {
            proof {
                lemma_find_from(cs@, seq!['"'], start as int);
                lemma_find_from(cs@.skip(start as int), seq!['"'], 0);
                assert forall|k: int| 0 <= k implies !occurs_at(cs@.skip(start as int), seq!['"'], k) by {
                    if occurs_at(cs@.skip(start as int), seq!['"'], k) {
                        assert(cs@.skip(start as int).subrange(k, k + 1) =~= cs@.subrange(start + k, start + k + 1));
                        assert(occurs_at(cs@, seq!['"'], start + k));
                    }
                }
            }
            return None;
        },
    };
    proof {
        lemma_find_from(cs@, seq!['"'], start as int);
        let rest = cs@.skip(start as int);
        let k = j - start;
        assert(rest.subrange(k, k + 1) =~= cs@.subrange(j as int, j + 1));
        assert forall|m: int| 0 <= m < k implies !occurs_at(rest, seq!['"'], m) by {
            if occurs_at(rest, seq!['"'], m) {
                assert(rest.subrange(m, m + 1) =~= cs@.subrange(start + m, start + m + 1));
                assert(occurs_at(cs@, seq!['"'], start + m));
            }
        }
        crate::text::lemma_find_first_unique(rest, seq!['"'], k);
        assert(rest.take(k) =~= cs@.subrange(start as int, j as int));
    }
    Some(string_from_chars(cs.as_slice(), start, j))
}

/// How `serde_json` writes character `c` inside a JSON string: a quote and a
/// backslash behind a backslash, the usual short escapes for backspace, form
/// feed, line feed, carriage return and tab, other characters below U+0020 as
/// a backslash, `u00` and two lower-case hexadecimal digits, and every other
/// character as itself.
pub open spec fn json_escape(c: char) -> Seq<char> {
    if c == '"' {
        seq!['\\', '"']
    } else if c == '\\' {
        seq!['\\', '\\']
    } else if c == '\u{8}' {
        seq!['\\', 'b']
    } else if c == '\u{c}' {
        seq!['\\', 'f']
    } else if c == '\n' {
        seq!['\\', 'n']
    } else if c == '\r' {
        seq!['\\', 'r']
    } else if c == '\t' {
        seq!['\\', 't']
    } else if (c as nat) < 0x20 {
        seq!['\\', 'u', '0', '0', lower_hex_digit(c as nat / 16), lower_hex_digit(c as nat % 16)]
    } else {
        seq![c]
    }
}

/// The escaped characters of a JSON string holding `s`.
pub open spec fn json_string_contents(s: Seq<char>) -> Seq<char>
    decreases s.len(),
{
    if s.len() == 0 {
        Seq::<char>::empty()
    } else {
        json_string_contents(s.drop_last()) + json_escape(s.last())
    }
}

/// The JSON string that holds `s`, quotes included.
pub open spec fn json_quoted(s: Seq<char>) -> Seq<char> {
    seq!['"'] + json_string_contents(s) + seq!['"']
}

/// `serde_json::to_string` on a string: the contract claims the text that its
/// source (`format_escaped_str` with the compact formatter) writes. Writing
/// into memory cannot fail, so the error arm is never taken.
#[verifier::external_body]
pub(crate) fn to_json_string(s: &str) -> (r: String)
    ensures
        r@ == json_quoted(s@),
{
    match serde_json::to_string(s) {
        Ok(t) => t,
        Err(_) => String::new(),
    }
}

} // verus!
