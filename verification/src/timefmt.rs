//! Clock-time formatting: the departure's local `HH:MM`, zero-padded,
//! 24-hour, taken from the timestamp's own encoded offset.

use vstd::prelude::*;

use crate::digits::digit_char;
use crate::digits::push_digit;
use crate::model::Departure;
use crate::text::push_char;

verus! {

/// Seconds since the epoch on the departure's own local clock.
pub open spec fn spec_local_seconds(d: Departure) -> int {
    d.unix_seconds + d.offset_seconds
}

/// Second within the local day, in `[0, 86400)`.
pub open spec fn spec_second_of_day(d: Departure) -> int {
    spec_local_seconds(d) % 86400
}

/// Local hour of the departure, in `[0, 24)`.
pub open spec fn spec_hour(d: Departure) -> int {
    spec_second_of_day(d) / 3600
}

/// Local minute of the departure, in `[0, 60)`.
pub open spec fn spec_minute(d: Departure) -> int {
    (spec_second_of_day(d) % 3600) / 60
}

/// A value below 100 as exactly two decimal digits.
pub open spec fn spec_two_digits(n: int) -> Seq<char> {
    seq![digit_char(n / 10), digit_char(n % 10)]
}

/// The `HH:MM` clock text of a departure.
pub open spec fn spec_clock_text(d: Departure) -> Seq<char> {
    spec_two_digits(spec_hour(d)) + seq![':'] + spec_two_digits(spec_minute(d))
}

/// What the clock-time column of a departure line holds: the `HH:MM` text,
/// or a fixed notice for a timestamp whose local clock cannot be computed
/// within the machine's integer range.
pub open spec fn spec_time_text(d: Departure) -> Seq<char> {
    if i64::MIN <= spec_local_seconds(d) <= i64::MAX {
        spec_clock_text(d)
    } else {
        "Could not format departure"@
    }
}

/// Appends a value below 100 as two zero-padded digits.
fn push_two_digits(s: &mut String, n: u32)
    requires
        n < 100,
    ensures
        final(s)@ == old(s)@ + spec_two_digits(n as int),
{
    push_digit(s, (n / 10) as u8);
    push_digit(s, (n % 10) as u8);
    assert(old(s)@ + spec_two_digits(n as int) =~= old(s)@.push(digit_char(n as int / 10)).push(
        digit_char(n as int % 10),
    ));
}

/// Renders the departure's local clock time as zero-padded 24-hour `HH:MM`;
/// a timestamp out of formatting range downgrades to a fixed notice instead
/// of failing the render.
pub fn format_departure_time(departure: Departure) -> (r: String)
    ensures
        r@ == spec_time_text(departure),
{
    match departure.unix_seconds.checked_add(departure.offset_seconds as i64) {
        None => {
            let r = String::new().concat("Could not format departure");
            proof {
                assert(r@ =~= "Could not format departure"@);
            }
            r
        },
        Some(local) => {
            let sod_i64 = local.checked_rem_euclid(86400).unwrap();
            assert(0 <= sod_i64 < 86400);
            let sod: u32 = sod_i64 as u32;
            let hour: u32 = sod / 3600;
            let minute: u32 = (sod % 3600) / 60;
            assert(hour as int == spec_hour(departure));
            assert(minute as int == spec_minute(departure));
            let mut s = String::new();
            push_two_digits(&mut s, hour);
            push_char(&mut s, ':');
            push_two_digits(&mut s, minute);
            proof {
                assert(s@ =~= spec_clock_text(departure));
            }
            s
        },
    }
}

} // verus!
