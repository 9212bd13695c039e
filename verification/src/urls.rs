//! Resolving a rendered path against the router's base address.
//!
//! The resolution itself is done by the `url` crate; the library only
//! relies on it being a function of the two strings involved.

use vstd::prelude::*;

verus! {

#[verifier::external_type_specification]
#[verifier::external_body]
/// The error the `url` crate reports for an address it cannot parse.
pub struct ExParseError(url::ParseError);

/// The address the `url` crate produces when the relative reference `rel`
/// is resolved against the absolute URL `base`, written as a string.
pub uninterp spec fn url_join(base: Seq<char>, rel: Seq<char>) -> Seq<char>;

/// Whether the `url` crate resolves the relative reference `rel` against
/// `base` at all: false exactly when the base does not parse or the
/// resolution fails.
pub uninterp spec fn url_join_ok(base: Seq<char>, rel: Seq<char>) -> bool;

/// Relies on `url::Url::parse` and `url::Url::join`: whether parsing the
/// base address and resolving `rel` against it succeeds, and what address
/// comes out, depend on the two strings alone; the resulting address is
/// read back with `url::Url::as_str`.
#[verifier::external_body]
pub(crate) fn join_base(base: &str, rel: &str) -> (r: Result<String, url::ParseError>)
    ensures
        (r is Ok) == url_join_ok(base@, rel@),
        r matches Ok(u) ==> u@ == url_join(base@, rel@),
{
    match url::Url::parse(base) {
        Ok(b) => match b.join(rel) {
            Ok(u) => Ok(String::from(u.as_str())),
            Err(e) => Err(e),
        },
        Err(e) => Err(e),
    }
}

} // verus!
