//! The check of the URL of a database connection.

use vstd::prelude::*;
use crate::error::{Error, ErrorView};
use crate::text::same_text;

verus! {

/// A parameter of a URL: its name and its value.
pub type Parameter = (Seq<char>, Seq<char>);

/// What the text `u` reads as: the parameters of the query of the URL,
/// in their order; or, where `u` is no URL, what is wrong with it.
pub uninterp spec fn url_reading(u: Seq<char>) -> Result<Seq<Parameter>, Seq<char>>;

/// `s` in lower case.
pub uninterp spec fn lowercase_of(s: Seq<char>) -> Seq<char>;

/// The parameters of a list, each by its value.
pub open spec fn parameters(pairs: Seq<(String, String)>) -> Seq<Parameter> {
    Seq::new(pairs.len(), |i: int| (pairs[i].0@, pairs[i].1@))
}

/// Trusted: `Url::parse` of the url crate, followed by `Url::query_pairs`
/// on the URL it gives, or by the `Debug` text of the error it gives.
/// Whether the text is a URL, which parameters its query has, and what is
/// wrong with it if it is none, depends on the text alone.
#[verifier::external_body]
fn parse_query_pairs(u: &str) -> (r: Result<Vec<(String, String)>, String>)
    ensures
        match r {
            Ok(pairs) => url_reading(u@) == Ok::<Seq<Parameter>, Seq<char>>(parameters(pairs@)),
            Err(fault) => url_reading(u@) == Err::<Seq<Parameter>, Seq<char>>(fault@),
        },
{
    match url::Url::parse(u) {
        Ok(parsed) => Ok(
            parsed.query_pairs().map(|(name, value)| (name.to_string(), value.to_string())).collect(),
        ),
        Err(e) => Err(format!("{:?}", e)),
    }
}

/// Trusted: `str::to_lowercase` of the standard library, a function of the
/// text alone.
#[verifier::external_body]
fn lowercase(s: &str) -> (l: String)
    ensures
        l@ == lowercase_of(s@),
{
    s.to_lowercase()
}

/// What a URL leaves to be desired.
#[derive(Clone, Copy, Debug, PartialEq, Eq, Structural)]
pub struct UrlWarnings {
    /// No compression is set: the transfer of data may be inefficient.
    pub inefficient_transfer: bool,
    /// No `connection_timeout` is set: the default is very short.
    pub short_timeout: bool,
}

/// The value of the parameter `key`, names taken in lower case: that of
/// the last parameter of that name.
pub open spec fn parameter(pairs: Seq<Parameter>, key: Seq<char>) -> Option<Seq<char>>
    decreases pairs.len(),
{
    if pairs.len() == 0 {
        None
    } else if lowercase_of(pairs.last().0) == key {
        Some(pairs.last().1)
    } else {
        parameter(pairs.drop_last(), key)
    }
}

/// What the parameters of a URL leave to be desired.
pub open spec fn warnings_of(pairs: Seq<Parameter>) -> UrlWarnings {
    UrlWarnings {
        inefficient_transfer: match parameter(pairs, "compression"@) {
            Some(v) => v == "none"@,
            None => true,
        },
        short_timeout: parameter(pairs, "connection_timeout"@) is None,
    }
}

/// The place of the last parameter named `key`.
fn find_parameter(pairs: &Vec<(String, String)>, key: &str) -> (at: Option<usize>)
    ensures
        match at {
            Some(i) => i < pairs.len() && parameter(parameters(pairs@), key@) == Some(pairs@[i as int].1@),
            None => parameter(parameters(pairs@), key@) is None,
        },
{
    let ghost all = parameters(pairs@);
    let mut i: usize = pairs.len();
    assert(all.take(i as int) =~= all);
    while i > 0
        invariant
            i <= pairs.len(),
            all == parameters(pairs@),
            parameter(all, key@) == parameter(all.take(i as int), key@),
        decreases i,
    {
        assert(all.take(i as int).drop_last() =~= all.take(i - 1));
        assert(all.take(i as int).last() == all[i - 1]);
        let name = lowercase(pairs[i - 1].0.as_str());
        if same_text(name.as_str(), key) {
            return Some(i - 1);
        }
        i -= 1;
    }
    None
}

/// Says what the parameters of a URL leave to be desired.
pub fn check_parameters(pairs: &Vec<(String, String)>) -> (w: UrlWarnings)
    ensures
        w == warnings_of(parameters(pairs@)),
{
    let inefficient_transfer = match find_parameter(pairs, "compression") {
        Some(i) => same_text(pairs[i].1.as_str(), "none"),
        None => true,
    };
    let short_timeout = find_parameter(pairs, "connection_timeout").is_none();
    UrlWarnings { inefficient_transfer, short_timeout }
}

/// Checks the URL of a database connection. What is no URL is an error;
/// what a URL leaves to be desired is returned, and is no error.
pub fn validate_clickhouse_url(u: &str) -> (r: Result<UrlWarnings, Error>)
    ensures
        match url_reading(u@) {
            Ok(pairs) => r == Ok::<UrlWarnings, Error>(warnings_of(pairs)),
            Err(fault) => r is Err && r->Err_0@ == ErrorView::InvalidUrl(fault),
        },
{
    match parse_query_pairs(u) {
        Ok(pairs) => Ok(check_parameters(&pairs)),
        Err(fault) => Err(Error::InvalidUrl(fault)),
    }
}

} // verus!
