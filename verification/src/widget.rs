//! Widget orchestration and host-facing metadata.
//!
//! One host invocation runs as: short-circuit on the not-yet-configured
//! sentinel (`is_no_config`), decode the configuration at the host
//! boundary, fetch each configured station pair through the host's HTTP
//! collaborator, turn each outcome into its text (`connection_text`), and
//! join the fragments (`run_output`).  The fetching and the configuration
//! decoding are the collaborators'; every other decision and every piece
//! of produced text is made here.

use vstd::prelude::*;

use crate::digits::dec_of;
use crate::digits::push_dec;
use crate::model::FetchOutcome;
use crate::model::WidgetConfig;
use crate::render::get_departure_string;
use crate::render::spec_render;

verus! {

/// Seconds between two host invocations of the widget.
pub const UPDATE_CYCLE_SECONDS: u32 = 90;

/// Display name of the widget.
pub fn get_name() -> (r: String)
    ensures
        r@ == "Public Transport"@,
{
    String::from_str("Public Transport")
}

/// Version of the widget.
pub fn get_version() -> (r: String)
    ensures
        r@ == "1.0.0"@,
{
    String::from_str("1.0.0")
}

/// Interval, in seconds, at which the host should re-invoke the widget.
pub fn get_run_update_cycle_seconds() -> (r: u32)
    ensures
        r == UPDATE_CYCLE_SECONDS,
{
    UPDATE_CYCLE_SECONDS
}

/// What one invocation decides, before any fetch: not yet configured, or a
/// list of pairs to fetch.  A configuration text that is not the sentinel
/// is decoded at the host boundary; a text that does not decode aborts the
/// invocation there — the fatal tier of the error design, unlike the
/// per-pair failures, which become display text.
pub enum RunPlan {
    /// The configuration is the empty-object sentinel: not yet configured.
    NoConfig,
    /// The decoded configuration; each of its pairs is to be fetched.
    Fetch(WidgetConfig),
}

/// Whether the configuration text is the empty-object sentinel, which
/// short-circuits an invocation before any decoding.
pub fn is_no_config(config: &str) -> (r: bool)
    ensures
        r == (config@ == "{}"@),
{
    proof {
        reveal_strlit("{}");
    }
    let n = config.unicode_len();
    if n != 2 {
        return false;
    }
    let c0 = config.get_char(0);
    let c1 = config.get_char(1);
    let r = c0 == '{' && c1 == '}';
    proof {
        if r {
            assert(config@ =~= "{}"@);
        }
    }
    r
}

/// The text shown for one fetched station pair: the rendered departures of
/// a decoded response, or the fixed text of the failure that kept one from
/// arriving.
pub fn connection_text(outcome: &FetchOutcome, want: u8, now_seconds: i64) -> (r: String)
    ensures
        outcome matches FetchOutcome::TransportFailed ==> r@
            == "Failed to make network request"@,
        outcome matches FetchOutcome::BadStatus(st) ==> r@ == "Response status != 200: "@
            + dec_of(st as int),
        outcome matches FetchOutcome::ParseFailed(msg) ==> r@ == "Failed to parse response: "@
            + msg@,
        outcome matches FetchOutcome::Parsed(data) ==> r@ == spec_render(
            data@,
            want as int,
            now_seconds,
        ),
{
    match outcome {
        FetchOutcome::TransportFailed => String::from_str("Failed to make network request"),
        FetchOutcome::BadStatus(st) => {
            let mut s = String::new().concat("Response status != 200: ");
            push_dec(&mut s, *st);
            s
        },
        FetchOutcome::ParseFailed(msg) => {
            let mut s = String::new().concat("Failed to parse response: ");
            s.append(msg.as_str());
            s
        },
        FetchOutcome::Parsed(data) => get_departure_string(data, want as usize, now_seconds),
    }
}

/// The per-pair fragments joined with newlines, in configuration order.
pub open spec fn spec_join_fragments(ts: Seq<Seq<char>>) -> Seq<char>
    decreases ts.len(),
{
    if ts.len() == 0 {
        Seq::empty()
    } else if ts.len() == 1 {
        ts[0]
    } else {
        spec_join_fragments(ts.drop_last()) + seq!['\n'] + ts.last()
    }
}

/// Joins the per-pair fragments with newlines, in configuration order.
pub fn join_fragments(fragments: &Vec<String>) -> (r: String)
    ensures
        r@ == spec_join_fragments(fragments.deep_view()),
{
    let ghost dv = fragments.deep_view();
    let mut s = String::new();
    let n = fragments.len();
    let mut i: usize = 0;
    while i < n
        invariant
            n == fragments@.len(),
            dv == fragments.deep_view(),
            dv.len() == n,
            0 <= i <= n,
            s@ == spec_join_fragments(dv.take(i as int)),
        decreases n - i,
    {
        proof {
            assert(dv.take(i as int + 1).drop_last() =~= dv.take(i as int));
            assert(dv.take(i as int + 1).last() == dv[i as int]);
            assert(dv[i as int] == fragments@[i as int]@);
        }
        if i > 0 {
            crate::text::push_char(&mut s, '\n');
        }
        s.append(fragments[i].as_str());
        proof {
            if i == 0 {
                assert(s@ =~= spec_join_fragments(dv.take(1)));
            } else {
                assert(s@ =~= spec_join_fragments(dv.take(i as int + 1)));
            }
        }
        i = i + 1;
    }
    proof {
        assert(dv.take(n as int) =~= dv);
    }
    s
}

/// Assembles the final invocation output: the fixed notice when no
/// configuration was provided, and otherwise the fetched fragments joined
/// with newlines in configuration order.
pub fn run_output(plan: &RunPlan, fragments: &Vec<String>) -> (r: String)
    ensures
        plan matches RunPlan::NoConfig ==> r@ == "No config provided"@,
        plan matches RunPlan::Fetch(c) ==> r@ == spec_join_fragments(fragments.deep_view()),
{
    match plan {
        RunPlan::NoConfig => String::from_str("No config provided"),
        RunPlan::Fetch(_) => join_fragments(fragments),
    }
}

} // verus!
