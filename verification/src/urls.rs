//! Addresses and their queries, as the `url` crate reads and writes them.

use vstd::prelude::*;

verus! {

/// The most characters of an address that is read or appended to, or of a part of a query. What is
/// read and written stays below the two thousand million characters and the four gigabytes beyond
/// which the counters of `url` overflow.
pub const MAX_ADDRESS: usize = 0x100_0000;

/// The most pairs that are appended at a time.
pub const MAX_PAIRS: usize = 8;

/// The texts of named values.
pub open spec fn pairs_of(pairs: Seq<(String, String)>) -> Seq<(Seq<char>, Seq<char>)> {
    pairs.map_values(|pair: (String, String)| (pair.0@, pair.1@))
}

/// What a reading of a query says.
pub open spec fn reading_of(r: Result<Vec<(String, String)>, String>) -> Result<
    Seq<(Seq<char>, Seq<char>)>,
    Seq<char>,
> {
    match r {
        Ok(pairs) => Ok(pairs_of(pairs@)),
        Err(detail) => Err(detail@),
    }
}

/// What a written address says.
pub open spec fn address_of(r: Result<String, String>) -> Result<Seq<char>, Seq<char>> {
    match r {
        Ok(address) => Ok(address@),
        Err(detail) => Err(detail@),
    }
}

/// The decoded names and values in the query of an address, in their order, or what is wrong with
/// the address.
pub uninterp spec fn query_of(address: Seq<char>) -> Result<
    Seq<(Seq<char>, Seq<char>)>,
    Seq<char>,
>;

/// An address with more names and values in its query, or what is wrong with the address.
pub uninterp spec fn with_query(
    address: Seq<char>,
    pairs: Seq<(Seq<char>, Seq<char>)>,
) -> Result<Seq<char>, Seq<char>>;

/// Whether a query ends with some names and values.
pub open spec fn ends_with(
    query: Seq<(Seq<char>, Seq<char>)>,
    pairs: Seq<(Seq<char>, Seq<char>)>,
) -> bool {
    &&& pairs.len() <= query.len()
    &&& query.skip(query.len() - pairs.len()) == pairs
}

/// `Url::parse` and `Url::query_pairs`: the names and values in the query of an address, decoded,
/// or the parser's message where the text is no address. What they are follows from the text
/// alone. How addresses are taken apart and decoded is left to the crate, whose counters overflow
/// on far longer addresses: hence the limit.
#[verifier::external_body]
pub(crate) fn query_pairs(address: &str) -> (r: Result<Vec<(String, String)>, String>)
    requires
        address@.len() <= MAX_ADDRESS,
    ensures
        reading_of(r) == query_of(address@),
{
    match reqwest::Url::parse(address) {
        Ok(url) => Ok(
            url.query_pairs().map(|pair| (pair.0.into_owned(), pair.1.into_owned())).collect(),
        ),
        Err(error) => Err(error.to_string()),
    }
}

/// `Url::parse`, `Url::query_pairs_mut` with `extend_pairs`, and the text of the result: an address
/// with the given names and values appended to its query, encoded, or the parser's message where
/// the text is no address. What it is follows from the arguments alone, and whoever reads the query
/// of the result finds the names and values at its end. How addresses are written and encoded is
/// left to the crate, which panics on addresses of more than four gigabytes: hence the limits.
#[verifier::external_body]
pub(crate) fn append_query(address: &str, pairs: &Vec<(String, String)>) -> (r: Result<
    String,
    String,
>)
    requires
        address@.len() <= MAX_ADDRESS,
        pairs@.len() <= MAX_PAIRS,
        forall|i: int|
            0 <= i < pairs@.len() ==> (#[trigger] pairs@[i]).0@.len() <= MAX_ADDRESS
                && pairs@[i].1@.len() <= MAX_ADDRESS,
    ensures
        address_of(r) == with_query(address@, pairs_of(pairs@)),
        r matches Ok(written) ==> (query_of(written@) matches Ok(query) ==> ends_with(
            query,
            pairs_of(pairs@),
        )),
{
    match reqwest::Url::parse(address) {
        Ok(mut url) => {
            url.query_pairs_mut().extend_pairs(pairs.iter());
            Ok(url.to_string())
        },
        Err(error) => Err(error.to_string()),
    }
}

} // verus!
