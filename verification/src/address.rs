//! Addresses as texts.

use vstd::prelude::*;

use crate::text::res_text;

verus! {

/// What `reqwest::Url::parse` makes of a text: an address, told by its scheme,
/// or what is wrong with it.
pub uninterp spec fn read_address(text: Seq<char>) -> Result<Seq<char>, Seq<char>>;

/// `reqwest::Url::parse`, and of an address `Url::scheme`, of an error its
/// `to_string`: a function of the text alone.
#[verifier::external_body]
pub(crate) fn parse_address(text: &str) -> (r: Result<String, String>)
    ensures
        res_text(r) == read_address(text@),
{
    match reqwest::Url::parse(text) {
        Ok(url) => Ok(url.scheme().to_string()),
        Err(err) => Err(err.to_string()),
    }
}

/// The scheme of the address that a text is.
pub open spec fn scheme_of(text: Seq<char>) -> Option<Seq<char>> {
    match read_address(text) {
        Ok(scheme) => Some(scheme),
        Err(_) => None,
    }
}

/// What is wrong with a text that is no address.
pub open spec fn address_error(text: Seq<char>) -> Option<Seq<char>> {
    match read_address(text) {
        Ok(_) => None,
        Err(error) => Some(error),
    }
}

} // verus!
