//! Place searches: which queries are answered, where an answer is kept,
//! and where it is fetched from.

use crate::config::{joined, push_path};
use crate::proxy_scrape::texts;
use crate::web_text::{percent_encoded, strfmt_pairs, strfmt_result, urlencode};
use vstd::prelude::*;
use vstd::string::*;
use vstd::utf8::*;

verus! {

/// Shortest and longest query that is answered, in bytes.
pub const QUERY_MIN_BYTES: usize = 2;

pub const QUERY_MAX_BYTES: usize = 128;

/// A search for a place by name.
#[derive(Clone, Debug)]
pub struct OSMGeolocationSearchQuery {
    pub query_str: String,
}

/// A query that is too short or too long.
#[derive(Clone, Copy, Debug, PartialEq, Eq)]
pub struct BadQuery;

/// The search URL template is not one.
#[derive(Clone, Copy, Debug, PartialEq, Eq)]
pub struct BadSearchTemplate;

/// Where the answer to a query is kept: below `tile_location`, in
/// `geojson`, as `<percent-encoded query>.geo.json`.
pub open spec fn search_path(query: Seq<u8>, tile_location: Seq<char>) -> Seq<char> {
    joined(joined(tile_location, "geojson"@), percent_encoded(query) + ".geo.json"@)
}

impl OSMGeolocationSearchQuery {
    /// Version of the cache tables for searches.
    pub fn get_version() -> (v: usize)
        ensures
            v == 0,
    {
        0
    }

    /// Whether the query is answered: it has between `QUERY_MIN_BYTES` and
    /// `QUERY_MAX_BYTES` bytes.
    pub fn is_valid_request(&self) -> (checked: Result<(), BadQuery>)
        ensures
            checked is Ok <==> QUERY_MIN_BYTES <= encode_utf8(self.query_str@).len()
                <= QUERY_MAX_BYTES,
    {
        let n = self.query_str.as_str().as_bytes().len();
        if n >= QUERY_MIN_BYTES && n <= QUERY_MAX_BYTES {
            Ok(())
        } else {
            Err(BadQuery)
        }
    }

    /// Where the answer is kept below `tile_location`.
    pub fn get_final_path(&self, tile_location: &str) -> (path: String)
        ensures
            path@ == search_path(encode_utf8(self.query_str@), tile_location@),
    {
        let mut file = urlencode(self.query_str.as_str());
        file.append(".geo.json");
        let mut path = String::from_str(tile_location);
        push_path(&mut path, "geojson");
        push_path(&mut path, file.as_str());
        path
    }

    /// The URL that answers the query: the search URL template with the
    /// percent-encoded query for `q_urlencoded`.
    pub fn get_random_url(&self, geo_search_url: &str) -> (url: Result<String, BadSearchTemplate>)
        ensures
            url matches Ok(u) ==> strfmt_result(
                geo_search_url@,
                seq!["q_urlencoded"@],
                seq![percent_encoded(encode_utf8(self.query_str@))],
            ) == Some(u@),
            url is Err ==> strfmt_result(
                geo_search_url@,
                seq!["q_urlencoded"@],
                seq![percent_encoded(encode_utf8(self.query_str@))],
            ) is None,
    {
        let mut keys: Vec<String> = Vec::new();
        keys.push(String::from_str("q_urlencoded"));
        let mut values: Vec<String> = Vec::new();
        values.push(urlencode(self.query_str.as_str()));
        proof {
            assert(texts(keys@) =~= seq!["q_urlencoded"@]);
            assert(texts(values@) =~= seq![
                percent_encoded(encode_utf8(self.query_str@)),
            ]);
        }
        match strfmt_pairs(geo_search_url, &keys, &values) {
            Ok(u) => Ok(u),
            Err(_) => Err(BadSearchTemplate),
        }
    }
}

} // verus!
