use vstd::prelude::*;

pub mod args;
pub mod crawl;
pub mod htmlscan;
pub mod mirror;
pub mod rate;
pub mod resolve;
pub mod rewrite;
pub mod urlparse;
pub mod util;

pub use args::{filter_url_lines, Args};
pub use crawl::{run_crawl, SitePage};
pub use mirror::{classify_content, ContentKind, WebsiteMirror};
pub use rewrite::replace_all;
pub use resolve::{candidate_name, expand_home, join_path, resolve_name, vec_contains_string};
pub use rate::{parse_rate_limit, record_chunk, ThrottleDecision, TransferState};

pub use util::add_suffix_before_extension;
pub use util::extract_filename_from_url;
pub use util::format_size;

verus! {

/// The error kinds a fetch or crawl can end in.  `Transport` is a
/// network-level failure, `Status` a non-2xx HTTP response, `Parse` a
/// malformed rate-limit string or URL, and `Filesystem` a failed file or
/// directory operation.
#[derive(Clone, Debug, PartialEq, Eq, Structural)]
pub enum FetchError {
    Transport,
    Status(u16),
    Parse,
    Filesystem,
}

/// Whether an HTTP status code counts as success (the 2xx class).
pub fn status_is_success(code: u16) -> (r: bool)
    ensures
        r == (200 <= code < 300),
{
    200 <= code && code < 300
}

} // verus!
