//! The host component of a URL, as the `url` crate parses it.

use vstd::prelude::*;

verus! {

/// The host that `url::Url::parse` finds in `text`, written as `url::Host`
/// displays it: a domain as it is serialized, an IPv4 address in dotted
/// form, an IPv6 address between brackets. `None` where `text` is no
/// absolute URL or the URL has no host.
pub uninterp spec fn url_host(text: Seq<char>) -> Option<Seq<char>>;

/// Parses `text` with `url::Url::parse` and hands back the host of the
/// parsed URL, which `Url::host` gives, as a string. Nothing is proved of
/// the parser: the result is only given its name, `url_host`.
#[verifier::external_body]
pub(crate) fn parse_host(text: &str) -> (host: Option<String>)
    ensures
        host matches Some(h) ==> url_host(text@) == Some(h@),
        host is None ==> url_host(text@) is None,
{
    match url::Url::parse(text) {
        Ok(parsed) => parsed.host().map(|h| h.to_string()),
        Err(_) => None,
    }
}

} // verus!
