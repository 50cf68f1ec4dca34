//! Metadata links: the user's choices, the gateway form of a link, and the
//! links of a collection whose metadata lies under one root.
use vstd::prelude::*;

use crate::numfmt::{decimal, parse_usize, parse_usize_spec, usize_to_decimal};
use crate::text::{chars_of, concat, has_prefix, starts_with_chars, string_from_chars};

verus! {

/// The form of the metadata links of a collection.
#[derive(Debug, PartialEq, Eq, Structural)]
pub enum UrlType {
    /// The link of each token is the root link followed by the token number.
    Https,
    /// The links are stored on Arweave and are read from the token contract.
    Ar,
}

/// `c` has the Unicode property White_Space, the definition of whitespace that
/// `str::trim` uses.
pub open spec fn is_white_space(c: char) -> bool {
    ||| '\u{9}' <= c <= '\u{d}'
    ||| c == ' '
    ||| c == '\u{85}'
    ||| c == '\u{a0}'
    ||| c == '\u{1680}'
    ||| '\u{2000}' <= c <= '\u{200a}'
    ||| c == '\u{2028}'
    ||| c == '\u{2029}'
    ||| c == '\u{202f}'
    ||| c == '\u{205f}'
    ||| c == '\u{3000}'
}

/// `s` without its leading whitespace.
pub open spec fn trim_start_spec(s: Seq<char>) -> Seq<char>
    decreases s.len(),
{
    if s.len() > 0 && is_white_space(s[0]) {
        trim_start_spec(s.drop_first())
    } else {
        s
    }
}

/// `s` without its trailing whitespace.
pub open spec fn trim_end_spec(s: Seq<char>) -> Seq<char>
    decreases s.len(),
{
    if s.len() > 0 && is_white_space(s.last()) {
        trim_end_spec(s.drop_last())
    } else {
        s
    }
}

/// `s` without its leading and trailing whitespace.
pub open spec fn trimmed(s: Seq<char>) -> Seq<char> {
    trim_end_spec(trim_start_spec(s))
}

/// `str::trim`: the contract claims what its documentation states, that leading
/// and trailing White_Space characters are removed and nothing else.
#[verifier::external_body]
pub(crate) fn trim(s: &str) -> (r: &str)
    ensures
        r@ == trimmed(s@),
{
    s.trim()
}

/// A line typed by the user, without the whitespace around it.
pub fn trim_input(input: &str) -> (r: String)
    ensures
        r@ == trimmed(input@),
{
    trim(input).to_owned()
}

/// The link form that a menu answer chooses: "1" for per-token links under one
/// root, "2" for Arweave links read from the contract, around whitespace.
pub open spec fn url_type_choice(input: Seq<char>) -> Option<UrlType> {
    if trimmed(input) == seq!['1'] {
        Some(UrlType::Https)
    } else if trimmed(input) == seq!['2'] {
        Some(UrlType::Ar)
    } else {
        None
    }
}

/// Reads the menu answer for the link form; `None` for any other answer.
pub fn url_type_from_choice(input: &str) -> (r: Option<UrlType>)
    ensures
        r == url_type_choice(input@),
{
    let t = chars_of(trim(input));
    if t.len() == 1 && t[0] == '1' {
        assert(t@ =~= seq!['1']);
        Some(UrlType::Https)
    } else if t.len() == 1 && t[0] == '2' {
        assert(t@ =~= seq!['2']);
        Some(UrlType::Ar)
    } else {
        assert(t@ != seq!['1'] && t@ != seq!['2']) by {
            if t@.len() == 1 {
                assert(seq!['1'][0] == '1');
                assert(seq!['2'][0] == '2');
            }
        }
        None
    }
}

/// Reads a count typed by the user (a thread count or the last token number):
/// a decimal number around whitespace; `None` when it is not one.
pub fn count_from_input(input: &str) -> (r: Option<usize>)
    ensures
        r == parse_usize_spec(trimmed(input@)),
{
    parse_usize(trim(input))
}

/// The link that a metadata or image link is downloaded from: `https://` and
/// `http://` links stay as they are, `ipfs://` links go through the public
/// gateway `https://ipfs.io/ipfs/`, and anything else has no such link.
pub open spec fn https_form(s: Seq<char>) -> Option<Seq<char>> {
    if has_prefix(s, "https://"@) || has_prefix(s, "http://"@) {
        Some(s)
    } else if has_prefix(s, "ipfs://"@) {
        Some("https://ipfs.io/ipfs/"@ + s.skip("ipfs://"@.len() as int))
    } else {
        None
    }
}

/// The view of an optional string.
pub open spec fn opt_view(r: Option<String>) -> Option<Seq<char>> {
    match r {
        Some(s) => Some(s@),
        None => None,
    }
}

/// The link that `input` is downloaded from (see `https_form`).
pub fn convert_to_https(input: &str) -> (r: Option<String>)
    ensures
        opt_view(r) == https_form(input@),
{
    let cs = chars_of(input);
    let https = chars_of("https://");
    let http = chars_of("http://");
    if starts_with_chars(cs.as_slice(), https.as_slice()) || starts_with_chars(
        cs.as_slice(),
        http.as_slice(),
    ) {
        return Some(input.to_owned());
    }
    let ipfs = chars_of("ipfs://");
    if !starts_with_chars(cs.as_slice(), ipfs.as_slice()) {
        return None;
    }
    let path = string_from_chars(cs.as_slice(), ipfs.len(), cs.len());
    assert(path@ =~= input@.skip("ipfs://"@.len() as int));
    Some(concat("https://ipfs.io/ipfs/", path.as_str()))
}

/// The metadata links of tokens `1..=end` under a root link typed by the user
/// (whitespace around it ignored): the root's download link followed by the
/// token number; `None` when the root has no download link.
pub fn https_meta_urls(base_input: &str, end: usize) -> (r: Option<Vec<String>>)
    ensures
        r is Some <==> https_form(trimmed(base_input@)) is Some,
        r matches Some(v) ==> {
            &&& v@.len() == end
            &&& forall|i: int|
                0 <= i < end ==> #[trigger] v@[i]@ == https_form(trimmed(base_input@))->0
                    + decimal((i + 1) as nat)
        },
{
    let base = match convert_to_https(trim(base_input)) {
        Some(b) => b,
        None => return None,
    };
    let mut result: Vec<String> = Vec::new();
    for k in 0..end
        invariant
            https_form(trimmed(base_input@)) == Some(base@),
            result@.len() == k,
            forall|i: int|
                0 <= i < k ==> #[trigger] result@[i]@ == base@ + decimal((i + 1) as nat),
    {
        let number = usize_to_decimal(k + 1);
        result.push(concat(base.as_str(), number.as_str()));
    }
    Some(result)
}

/// Every download link is an `https://` or `http://` link.
pub proof fn lemma_convert_to_https_scheme(s: Seq<char>)
    ensures
        https_form(s) matches Some(t) ==> has_prefix(t, "https://"@) || has_prefix(t, "http://"@),
{
    reveal_strlit("https://");
    reveal_strlit("http://");
    reveal_strlit("ipfs://");
    reveal_strlit("https://ipfs.io/ipfs/");
    if let Some(t) = https_form(s) {
        if !(has_prefix(s, "https://"@) || has_prefix(s, "http://"@)) {
            let g = "https://ipfs.io/ipfs/"@;
            assert(t.take(8) =~= g.take(8));
            assert(g.take(8) =~= "https://"@);
        }
    }
}

/// A download link is its own download link: converting twice is converting once.
pub proof fn lemma_convert_to_https_idempotent(s: Seq<char>)
    ensures
        https_form(s) matches Some(t) ==> https_form(t) == Some(t),
{
    lemma_convert_to_https_scheme(s);
}

/// The links built for a collection under one root are download links
/// already: converting one changes nothing.
pub proof fn lemma_meta_urls_are_download_links(base: Seq<char>, id: nat)
    requires
        https_form(base) is Some,
    ensures
        https_form(https_form(base)->0 + decimal(id)) == Some(https_form(base)->0 + decimal(id)),
{
    lemma_convert_to_https_scheme(base);
    let t = https_form(base)->0;
    let u = t + decimal(id);
    if has_prefix(t, "https://"@) {
        assert(u.take("https://"@.len() as int) =~= t.take("https://"@.len() as int));
    } else {
        assert(u.take("http://"@.len() as int) =~= t.take("http://"@.len() as int));
    }
}

} // verus!
