//! URLs and regular expressions, as account matching and task intake read them.
use vstd::prelude::*;
use crate::text::opt_view;

verus! {

/// Whether `url::Url::parse` accepts the text.
pub uninterp spec fn spec_url_valid(url: Seq<char>) -> bool;

/// The host of a parsed URL when it is a domain name (`Url::domain`);
/// none when the text does not parse or the host is an address or absent.
pub uninterp spec fn spec_url_domain(url: Seq<char>) -> Option<Seq<char>>;

/// Whether `regex::Regex::new` accepts the pattern.
pub uninterp spec fn spec_regex_compiles(pattern: Seq<char>) -> bool;

/// Whether the compiled pattern matches somewhere in the text (`Regex::is_match`).
pub uninterp spec fn spec_regex_is_match(pattern: Seq<char>, text: Seq<char>) -> bool;

/// `url::Url::parse(url).is_ok()`.
///
/// Claimed: the answer is a function of the text.
#[verifier::external_body]
pub(crate) fn url_is_valid(url: &str) -> (r: bool)
    ensures
        r == spec_url_valid(url@),
{
    url::Url::parse(url).is_ok()
}

/// `url::Url::parse(url)` then `Url::domain`, as an owned string.
///
/// Claimed: the result is a function of the text.
#[verifier::external_body]
pub(crate) fn url_domain(url: &str) -> (r: Option<String>)
    ensures
        opt_view(r) == spec_url_domain(url@),
{
    match url::Url::parse(url) {
        Ok(u) => u.domain().map(|d| d.to_string()),
        Err(_) => None,
    }
}

/// `regex::Regex::new(pattern)` then `Regex::is_match(text)`: none when the
/// pattern does not compile.
///
/// Claimed: both answers are functions of their texts.
#[verifier::external_body]
pub(crate) fn regex_match(pattern: &str, text: &str) -> (r: Option<bool>)
    ensures
        r == (if spec_regex_compiles(pattern@) {
            Some(spec_regex_is_match(pattern@, text@))
        } else {
            None
        }),
{
    match regex::Regex::new(pattern) {
        Ok(re) => Some(re.is_match(text)),
        Err(_) => None,
    }
}

} // verus!
