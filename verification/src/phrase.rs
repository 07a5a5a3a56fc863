//! The relative-time phrase: a rough, future-tense English description of
//! the interval between "now" and a departure.

use vstd::prelude::*;

use crate::model::Departure;

verus! {

/// The rough future-tense English phrase for a whole-second interval, as the
/// humanizing collaborator produces it ("in 5 minutes", "in 2 hours", ...).
pub uninterp spec fn rough_future_phrase_of(seconds: u64) -> Seq<char>;

/// Relies on `time_humanize::HumanTime::to_text_en` with `Accuracy::Rough`
/// and `Tense::Future`: the phrase depends on the whole-second duration
/// alone, and never fails.
#[verifier::external_body]
fn rough_future_phrase(seconds: u64) -> (r: String)
    ensures
        r@ == rough_future_phrase_of(seconds),
{
    time_humanize::HumanTime::from(core::time::Duration::from_secs(seconds)).to_text_en(
        time_humanize::Accuracy::Rough,
        time_humanize::Tense::Future,
    )
}

/// The interval, in whole seconds, between two instants, sign discarded.
pub open spec fn spec_abs_diff_seconds(a: i64, b: i64) -> u64 {
    if a >= b {
        (a - b) as u64
    } else {
        (b - a) as u64
    }
}

/// Renders the interval between a departure and the given reference instant
/// as a rough future-tense phrase; the sign of the interval is discarded.
pub fn format_departure_offset(departure: Departure, now_seconds: i64) -> (r: String)
    ensures
        r@ == rough_future_phrase_of(spec_abs_diff_seconds(departure.unix_seconds, now_seconds)),
{
    let a: i128 = departure.unix_seconds as i128;
    let b: i128 = now_seconds as i128;
    let diff: i128 = if a >= b {
        a - b
    } else {
        b - a
    };
    rough_future_phrase(diff as u64)
}

} // verus!
