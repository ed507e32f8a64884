//! The lowercase form under which texts are compared when case is ignored.

use vstd::prelude::*;
use vstd::string::*;

verus! {

/// What `str::to_lowercase` returns for a text: the text with each character
/// replaced by its lowercase mapping of the Unicode character database. Some
/// characters map to several, and the mapping of a capital sigma depends on
/// its neighbours, so the form of a text is not the forms of its parts put
/// together.
pub uninterp spec fn lowercase_of(text: Seq<char>) -> Seq<char>;

/// The form under which a text is compared when case is ignored. The empty
/// text is its own form; any other text has its lowercase form.
pub open spec fn folded(text: Seq<char>) -> Seq<char> {
    if text.len() == 0 {
        text
    } else {
        lowercase_of(text)
    }
}

/// Calls `str::to_lowercase`. Trusted: that the result is a function of the
/// characters of `text` alone, which `lowercase_of` names.
#[verifier::external_body]
fn to_lowercase(text: &str) -> (lower: String)
    ensures
        lower@ == lowercase_of(text@),
{
    text.to_lowercase()
}

/// The form of `text` under which it is compared when case is ignored.
pub fn fold_case(text: &str) -> (form: String)
    ensures
        form@ == folded(text@),
{
    if text.is_empty() {
        String::new()
    } else {
        to_lowercase(text)
    }
}

} // verus!
