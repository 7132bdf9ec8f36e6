//! Case-insensitive names: a name's text, upper-cased by Unicode's rules.
use vstd::prelude::*;
use vstd::string::StringExecFns;
use vstd::utf8::{decode_utf8, valid_utf8};

verus! {

/// What `str::to_uppercase` makes of a text.
pub uninterp spec fn uppercase_of(s: Seq<char>) -> Seq<char>;

/// Relies on `str::to_uppercase`: the text with each character replaced by
/// its upper-case mapping; the result depends on the text alone.
#[verifier::external_body]
pub(crate) fn uppercase(s: &str) -> (r: String)
    ensures
        r@ == uppercase_of(s@),
{
    s.to_uppercase()
}

/// Relies on `std::str::from_utf8`: it accepts exactly the valid UTF-8 byte
/// strings, as the text they encode.
#[verifier::external_body]
pub(crate) fn utf8_text(b: &[u8]) -> (r: Option<&str>)
    ensures
        r is Some <==> valid_utf8(b@),
        r matches Some(s) ==> s@ == decode_utf8(b@),
{
    std::str::from_utf8(b).ok()
}

/// Whether the bytes `name` are text that upper-cases to `word`.
pub open spec fn names(name: Seq<u8>, word: Seq<char>) -> bool {
    valid_utf8(name) && uppercase_of(decode_utf8(name)) == word
}

/// Whether an upper-cased text is `word`.
pub fn is_word(upper: &String, word: &str) -> (r: bool)
    ensures
        r == (upper@ == word@),
{
    let w = String::from_str(word);
    *upper == w
}

/// Whether the bytes `name` are text that upper-cases to `word`.
pub fn names_word(name: &[u8], word: &str) -> (r: bool)
    ensures
        r == names(name@, word@),
{
    match utf8_text(name) {
        None => false,
        Some(t) => is_word(&uppercase(t), word),
    }
}

} // verus!
