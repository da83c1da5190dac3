//! The list of recent URLs, kept in a file of its own.
use vstd::prelude::*;
use crate::json;
use crate::storage;
use crate::text;
use crate::util;

verus! {

/// The file of the list.
pub const RECENT_URLS_FILENAME: &'static str = "recent_urls.json";

/// The file of the list: in the data directory, or, without one, in the working
/// directory.
pub fn recent_urls_path(roots: &util::DataRoots) -> (r: String)
    ensures
        r@ == match roots.data_root() {
            Some(root) => util::joined(root, "recent_urls.json"@),
            None => "recent_urls.json"@,
        },
{
    match util::data_root(roots) {
        Some(root) => util::join_path(root.as_str(), RECENT_URLS_FILENAME),
        None => RECENT_URLS_FILENAME.to_owned(),
    }
}

/// The recent URLs that the file holds, the latest first.
pub fn load_recent_urls(file: Option<&str>) -> (r: Vec<String>)
    ensures
        text::texts(r@) == storage::recent_urls(text::opt_str(file)),
{
    storage::load_recent_urls(file)
}

/// What the file is to hold once `url` has been used, where it changes.
pub fn add_recent_url(file: Option<&str>, url: &str) -> (r: Option<String>)
    ensures
        r is Some <==> text::trim(url@).len() > 0,
        r matches Some(value) ==> {
            let list = storage::remembered(storage::recent_urls(text::opt_str(file)), url@);
            &&& value@ == json::json_list(list)
            &&& storage::recent_urls(Some(value@)) == list
        },
{
    storage::add_recent_url(file, url)
}

} // verus!
