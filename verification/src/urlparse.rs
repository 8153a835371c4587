use vstd::prelude::*;

verus! {

/// The host part of `url`, as the `url` crate reads it: `None` when the
/// string is not an absolute URL or has no host.
pub uninterp spec fn host_of(url: Seq<char>) -> Option<Seq<char>>;

/// The path part of `url`, as the `url` crate reads it: `None` when the
/// string is not an absolute URL.
pub uninterp spec fn path_of(url: Seq<char>) -> Option<Seq<char>>;

/// The absolute URL that `link` resolves to against the base URL `base`,
/// in its serialized form: `None` when `base` does not parse or the
/// resolution fails.
pub uninterp spec fn join_of(base: Seq<char>, link: Seq<char>) -> Option<Seq<char>>;

/// Relies on `url::Url::parse` and `url::Url::host_str`: the host of an
/// absolute URL depends on the URL string alone.
#[verifier::external_body]
pub(crate) fn url_host(url: &str) -> (r: Option<String>)
    ensures
        r.deep_view() == host_of(url@),
{
    match url::Url::parse(url) {
        Ok(u) => u.host_str().map(|h| h.to_string()),
        Err(_) => None,
    }
}

/// Relies on `url::Url::parse` and `url::Url::path`: the path of an
/// absolute URL depends on the URL string alone.
#[verifier::external_body]
pub(crate) fn url_path(url: &str) -> (r: Option<String>)
    ensures
        r.deep_view() == path_of(url@),
{
    match url::Url::parse(url) {
        Ok(u) => Some(u.path().to_string()),
        Err(_) => None,
    }
}

/// Relies on `url::Url::join` (with `url::Url::parse` and
/// `url::Url::as_str`): the resolution of a possibly relative link against
/// a base URL depends on the two strings alone.
#[verifier::external_body]
pub(crate) fn url_join(base: &str, link: &str) -> (r: Option<String>)
    ensures
        r.deep_view() == join_of(base@, link@),
{
    match url::Url::parse(base) {
        Ok(b) => match b.join(link) {
            Ok(u) => Some(u.as_str().to_string()),
            Err(_) => None,
        },
        Err(_) => None,
    }
}

} // verus!
