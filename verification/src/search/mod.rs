//! Search configuration and the filters applied to search hits.
pub mod url;
use vstd::prelude::*;

use crate::text::{chars_equal, chars_of};
use self::url::{host_of, url_host};

verus! {

/// Search configuration.
#[derive(Debug, Clone)]
pub struct SearchConfig {
    pub index_dir: String,
    pub max_results: usize,
}

impl Default for SearchConfig {
    fn default() -> (c: Self)
        ensures
            c.index_dir@ == "~/.workshadow/index"@,
            c.max_results == 50,
    {
        SearchConfig { index_dir: String::from_str("~/.workshadow/index"), max_results: 50 }
    }
}

/// Filters that can be applied to search queries.
#[derive(Debug, Clone)]
pub struct SearchFilters {
    pub date_from: Option<u64>,
    pub date_to: Option<u64>,
    pub app_ids: Option<Vec<String>>,
    pub url_domains: Option<Vec<String>>,
}

impl Default for SearchFilters {
    fn default() -> (f: Self)
        ensures
            f.date_from is None,
            f.date_to is None,
            f.app_ids is None,
            f.url_domains is None,
    {
        SearchFilters { date_from: None, date_to: None, app_ids: None, url_domains: None }
    }
}

/// A hit passes the filters: it lies within the date bounds that are set;
/// when an application list is set, it belongs to a listed application; and
/// when a URL-domain list is set, it has a browser URL whose host is listed
/// (a hit without a URL does not pass).
pub open spec fn filters_admit(
    f: SearchFilters,
    timestamp_ms: u64,
    app_id: Seq<char>,
    browser_url: Option<Seq<char>>,
) -> bool {
    &&& (f.date_from matches Some(from) ==> timestamp_ms >= from)
    &&& (f.date_to matches Some(to) ==> timestamp_ms <= to)
    &&& (f.app_ids matches Some(ids) ==> exists|i: int|
        0 <= i < ids@.len() && (#[trigger] ids@[i])@ == app_id)
    &&& (f.url_domains matches Some(ds) ==> browser_url matches Some(u) && exists|i: int|
        0 <= i < ds@.len() && (#[trigger] ds@[i])@ == url_host(u))
}

impl SearchFilters {
    /// Whether a hit taken at `timestamp_ms` in application `app_id`, on the
    /// page `browser_url` if any, passes the filters.
    pub fn admits(&self, timestamp_ms: u64, app_id: &str, browser_url: Option<&str>) -> (r: bool)
        ensures
            r == filters_admit(
                *self,
                timestamp_ms,
                app_id@,
                match browser_url {
                    Some(u) => Some(u@),
                    None => None,
                },
            ),
    {
        if let Some(from) = self.date_from {
            if timestamp_ms < from {
                return false;
            }
        }
        if let Some(to) = self.date_to {
            if timestamp_ms > to {
                return false;
            }
        }
        let app_ok = match &self.app_ids {
            Some(ids) => lists_string(ids, app_id),
            None => true,
        };
        if !app_ok {
            return false;
        }
        match &self.url_domains {
            Some(ds) => match browser_url {
                Some(u) => {
                    let host = host_of(u);
                    lists_chars(ds, &host)
                },
                None => false,
            },
            None => true,
        }
    }
}

/// Whether some entry of `ds` is the text `s`.
fn lists_chars(ds: &Vec<String>, s: &Vec<char>) -> (r: bool)
    ensures
        r == exists|i: int| 0 <= i < ds@.len() && (#[trigger] ds@[i])@ == s@,
{
    let mut i: usize = 0;
    while i < ds.len()
        invariant
            i <= ds@.len(),
            forall|j: int| 0 <= j < i ==> (#[trigger] ds@[j])@ != s@,
        decreases ds@.len() - i,
    {
        let d = chars_of(ds[i].as_str());
        if chars_equal(d.as_slice(), s.as_slice()) {
            assert((ds@[i as int])@ == s@);
            return true;
        }
        i = i + 1;
    }
    false
}

/// Whether some entry of `ids` equals `s`.
fn lists_string(ids: &Vec<String>, s: &str) -> (r: bool)
    ensures
        r == exists|i: int| 0 <= i < ids@.len() && (#[trigger] ids@[i])@ == s@,
{
    let target = chars_of(s);
    let mut i: usize = 0;
    while i < ids.len()
        invariant
            i <= ids@.len(),
            target@ == s@,
            forall|j: int| 0 <= j < i ==> (#[trigger] ids@[j])@ != s@,
        decreases ids@.len() - i,
    {
        let id = chars_of(ids[i].as_str());
        if chars_equal(id.as_slice(), target.as_slice()) {
            assert((ids@[i as int])@ == s@);
            return true;
        }
        i = i + 1;
    }
    false
}


} // verus!
