//! Calls into std and outside crates whose contracts are taken on trust.

use rand::Rng;
use regex::Regex;
use vstd::prelude::*;

verus! {

/// Relies on rand 0.7's `Rng::gen_range(low, high)` on the thread-local
/// generator: a value in `[low, high)`; it panics only when `low >= high`.
#[verifier::external_body]
pub(crate) fn random_below(n: usize) -> (r: usize)
    requires
        n > 0,
    ensures
        r < n,
{
    rand::thread_rng().gen_range(0, n)
}

/// Relies on `char::from_u32`: a value is a `char` exactly when it is below
/// 0x110000 and outside the surrogate range 0xD800..=0xDFFF, and the `char`
/// returned has that code.
#[verifier::external_body]
pub(crate) fn char_of_code(v: u32) -> (r: Option<char>)
    ensures
        r is Some <==> (v < 0xD800 || (0xE000 <= v && v < 0x110000)),
        r matches Some(c) ==> c as u32 == v,
{
    char::from_u32(v)
}

/// Relies on `String::push`: the character is appended at the end.
#[verifier::external_body]
pub(crate) fn push_char(s: &mut String, c: char)
    ensures
        final(s)@ == old(s)@.push(c),
{
    s.push(c)
}

/// What base64 0.13's `encode` makes of the UTF-8 bytes of a text: standard
/// alphabet, with padding.
pub uninterp spec fn base64_of(text: Seq<char>) -> Seq<char>;

/// Relies on base64 0.13's `encode`, which encodes the bytes of `text` with
/// the standard alphabet and padding.
#[verifier::external_body]
pub(crate) fn encode_base64(text: &str) -> (r: String)
    ensures
        r@ == base64_of(text@),
{
    base64::encode(text)
}

/// Whether a text matches the identity pattern `^STEAM_[0-5]:[01]:\d+$` of
/// the regex crate, where `\d` is any Unicode decimal digit.
pub uninterp spec fn is_steam_id(text: Seq<char>) -> bool;

/// Relies on regex 1's `Regex::is_match` with the identity pattern; the
/// pattern is a valid one, so `Regex::new` does not fail.
#[verifier::external_body]
pub(crate) fn matches_steam_id(text: &str) -> (r: bool)
    ensures
        r == is_steam_id(text@),
{
    Regex::new("^STEAM_[0-5]:[01]:\\d+$").unwrap().is_match(text)
}

/// The quotation marks that open or close a note.
pub open spec fn is_quote(c: char) -> bool {
    c == '"' || c == '\u{201C}' || c == '\u{201D}'
}

/// `text[i..=j]` is quoted: quotes at both ends, and neither a quote nor a
/// newline between them.
pub open spec fn quoted_at(text: Seq<char>, i: int, j: int) -> bool {
    &&& 0 <= i < j < text.len()
    &&& is_quote(text[i])
    &&& is_quote(text[j])
    &&& forall|k: int| i < k < j ==> !is_quote(#[trigger] text[k]) && text[k] != '\n'
}

/// The text holds a quoted span.
pub open spec fn has_quoted(text: Seq<char>) -> bool {
    exists|i: int, j: int| quoted_at(text, i, j)
}

/// The quoted span that starts leftmost, quotes included.
pub open spec fn quoted_span(text: Seq<char>) -> Seq<char> {
    let (i, j) = choose|i: int, j: int|
        quoted_at(text, i, j) && forall|i2: int, j2: int| quoted_at(text, i2, j2) ==> i <= i2;
    text.subrange(i, j + 1)
}

/// Relies on regex 1's `Regex::find` with the pattern `["\u{201D}\u{201C}](.*?)["\u{201D}\u{201C}]`:
/// the leftmost match, where `.` is any character but a newline and the lazy
/// repetition ends at the first quote that follows.
#[verifier::external_body]
pub(crate) fn find_quoted(text: &str) -> (r: Option<String>)
    ensures
        r is Some <==> has_quoted(text@),
        r matches Some(t) ==> t@ == quoted_span(text@),
{
    match Regex::new("[\"\u{201D}\u{201C}](.*?)[\"\u{201D}\u{201C}]").unwrap().find(text) {
        Some(m) => Some(m.as_str().to_string()),
        None => None,
    }
}

} // verus!
