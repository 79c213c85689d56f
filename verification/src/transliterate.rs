//! Text brought to plain ASCII or to another case.
use vstd::prelude::*;

verus! {

/// A text in ASCII letters that sound or look like it.
pub uninterp spec fn deunicoded(text: Seq<char>) -> Seq<char>;

/// A text in lower case, by Unicode's rules.
pub uninterp spec fn lowercased(text: Seq<char>) -> Seq<char>;

/// A character in upper case, by Unicode's rules; it may become several.
pub uninterp spec fn uppercased(c: char) -> Seq<char>;

/// `deunicode::deunicode`: always ASCII, and the text itself when that is
/// ASCII below the delete character.
#[verifier::external_body]
pub(crate) fn to_ascii(text: &str) -> (r: String)
    ensures
        r@ == deunicoded(text@),
        forall|i: int| 0 <= i < r@.len() ==> (#[trigger] r@[i] as u32) < 128,
        (forall|i: int| 0 <= i < text@.len() ==> (#[trigger] text@[i] as u32) < 0x7F) ==> r@
            == text@,
{
    deunicode::deunicode(text)
}

/// `str::to_lowercase`.
#[verifier::external_body]
pub(crate) fn to_lower(text: &str) -> (r: String)
    ensures
        r@ == lowercased(text@),
{
    text.to_lowercase()
}

/// `char::to_uppercase`.
#[verifier::external_body]
pub(crate) fn to_upper(c: char) -> (r: String)
    ensures
        r@ == uppercased(c),
{
    c.to_uppercase().to_string()
}

} // verus!
