//! Which links the reader opens outside itself.
use vstd::prelude::*;
use vstd::string::*;
use crate::text::{ascii_lower_seq, starts_with, to_ascii_lowercase};

verus! {

/// A link may be opened in the system browser or mail client when it is an
/// `http`, `https` or `mailto` URL, in any ASCII case.
pub open spec fn external_url_allowed(url: Seq<char>) -> bool {
    let lower = ascii_lower_seq(url);
    "https://"@.is_prefix_of(lower) || "http://"@.is_prefix_of(lower) || "mailto:"@.is_prefix_of(lower)
}

/// Whether a link may be opened outside the reader.
pub fn is_allowed_external_url(url: &str) -> (r: bool)
    ensures
        r == external_url_allowed(url@),
{
    let lower = to_ascii_lowercase(url);
    starts_with(lower.as_str(), "https://") || starts_with(lower.as_str(), "http://") || starts_with(
        lower.as_str(),
        "mailto:",
    )
}

/// The answer to a request to open a link: refused, with the message the
/// reader shows, unless the link may be opened.
pub fn check_external_link(url: &str) -> (r: Result<(), String>)
    ensures
        external_url_allowed(url@) ==> r is Ok,
        !external_url_allowed(url@) ==> (r matches Err(m)
            && m@ == "Only http, https, and mailto links can be opened externally."@),
{
    if !is_allowed_external_url(url) {
        return Err(String::from_str("Only http, https, and mailto links can be opened externally."));
    }
    Ok(())
}

} // verus!
