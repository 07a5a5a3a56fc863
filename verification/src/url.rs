//! Request-URL construction for the journey-planning endpoint.

use vstd::prelude::*;

use crate::model::StationPairConfig;

verus! {

/// The percent-encoding of a string, as the encoding collaborator produces
/// it: every byte of the UTF-8 form except ASCII alphanumerics and
/// `-`, `_`, `.`, `~` becomes `%XX`.
pub uninterp spec fn percent_encoded(s: Seq<char>) -> Seq<char>;

/// Relies on `urlencoding::encode`: percent-encodes every byte except
/// alphanumerics and `-`, `_`, `.`, `~`; depends on the string alone.
#[verifier::external_body]
fn url_encode(s: &str) -> (r: String)
    ensures
        r@ == percent_encoded(s@),
{
    urlencoding::encode(s).into_owned()
}

/// The GET URL that queries departures for one station pair: both names
/// percent-encoded, with a fixed over-fetch bound of 16 raw results.
pub open spec fn spec_connection_url(from: Seq<char>, to: Seq<char>) -> Seq<char> {
    "http://transport.opendata.ch/v1/connections?from="@ + percent_encoded(from) + "&to="@
        + percent_encoded(to) + "&limit=16"@
}

/// Builds the request URL for one configured station pair.
pub fn connection_url(pair: &StationPairConfig) -> (r: String)
    ensures
        r@ == spec_connection_url(pair.from_station@, pair.to_station@),
{
    let mut s = String::new().concat("http://transport.opendata.ch/v1/connections?from=");
    let from_enc = url_encode(pair.from_station.as_str());
    s.append(from_enc.as_str());
    s.append("&to=");
    let to_enc = url_encode(pair.to_station.as_str());
    s.append(to_enc.as_str());
    s.append("&limit=16");
    proof {
        assert(s@ =~= spec_connection_url(pair.from_station@, pair.to_station@));
    }
    s
}

} // verus!
