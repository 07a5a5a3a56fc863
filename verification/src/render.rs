//! Departure selection and formatting: the core pipeline.
//!
//! Given a decoded response, a desired count and the reference instant, the
//! renderer emits a header line, then keeps the records that depart strictly
//! after the reference instant — in source order, never re-sorted — takes at
//! most the desired count of them, and renders each as a relative phrase
//! plus the departure's local clock time.

use vstd::prelude::*;

use crate::model::ConnectionRecord;
use crate::model::TransportResponse;
use crate::model::TransportResponseView;
use crate::phrase::format_departure_offset;
use crate::phrase::rough_future_phrase_of;
use crate::phrase::spec_abs_diff_seconds;
use crate::text::push_char;
use crate::timefmt::format_departure_time;
use crate::timefmt::spec_time_text;

verus! {

/// The header line `{from} -> {to}`.
pub open spec fn spec_header(v: TransportResponseView) -> Seq<char> {
    v.from_name + " -> "@ + v.to_name
}

/// One departure line: a newline, the relative phrase for the interval to
/// the reference instant, and the local clock time in parentheses.
pub open spec fn spec_departure_line(c: ConnectionRecord, now_seconds: i64) -> Seq<char> {
    seq!['\n'] + rough_future_phrase_of(
        spec_abs_diff_seconds(c.departure.unix_seconds, now_seconds),
    ) + " ("@ + spec_time_text(c.departure) + ")"@
}

/// The records that depart strictly after the reference instant, in source
/// order.
pub open spec fn future_connections(cs: Seq<ConnectionRecord>, now_seconds: i64) -> Seq<
    ConnectionRecord,
>
    decreases cs.len(),
{
    if cs.len() == 0 {
        Seq::empty()
    } else if cs.last().departure.unix_seconds > now_seconds {
        future_connections(cs.drop_last(), now_seconds).push(cs.last())
    } else {
        future_connections(cs.drop_last(), now_seconds)
    }
}

/// The records that are rendered: the first `want` future records, in
/// source order.
pub open spec fn selected_connections(
    cs: Seq<ConnectionRecord>,
    now_seconds: i64,
    want: int,
) -> Seq<ConnectionRecord> {
    let fut = future_connections(cs, now_seconds);
    if want < 0 {
        Seq::empty()
    } else if want <= fut.len() {
        fut.take(want)
    } else {
        fut
    }
}

/// The concatenation of the departure lines of a record sequence.
pub open spec fn spec_lines(cs: Seq<ConnectionRecord>, now_seconds: i64) -> Seq<char>
    decreases cs.len(),
{
    if cs.len() == 0 {
        Seq::empty()
    } else {
        spec_lines(cs.drop_last(), now_seconds) + spec_departure_line(cs.last(), now_seconds)
    }
}

/// The whole render: the header, then either the literal `No departures`
/// line (no records at all), or one line per selected record — possibly
/// none, which leaves the bare header.
pub open spec fn spec_render(v: TransportResponseView, want: int, now_seconds: i64) -> Seq<char> {
    if v.connections.len() == 0 {
        spec_header(v) + "\nNo departures"@
    } else {
        spec_header(v) + spec_lines(selected_connections(v.connections, now_seconds, want), now_seconds)
    }
}

/// Extending the scanned prefix by one record extends its future records by
/// that record exactly when it departs after the reference instant.
proof fn lemma_future_take_step(cs: Seq<ConnectionRecord>, now_seconds: i64, i: int)
    requires
        0 <= i < cs.len(),
    ensures
        future_connections(cs.take(i + 1), now_seconds) == if cs[i].departure.unix_seconds
            > now_seconds {
            future_connections(cs.take(i), now_seconds).push(cs[i])
        } else {
            future_connections(cs.take(i), now_seconds)
        },
{
    assert(cs.take(i + 1).len() == i + 1);
    assert(cs.take(i + 1).last() == cs[i]);
    assert(cs.take(i + 1).drop_last() =~= cs.take(i));
}

/// The future records of a prefix are a prefix of the future records of the
/// whole sequence.
proof fn lemma_future_prefix(cs: Seq<ConnectionRecord>, now_seconds: i64, i: int)
    requires
        0 <= i <= cs.len(),
    ensures
        future_connections(cs.take(i), now_seconds).len() <= future_connections(
            cs,
            now_seconds,
        ).len(),
        future_connections(cs.take(i), now_seconds) == future_connections(cs, now_seconds).take(
            future_connections(cs.take(i), now_seconds).len() as int,
        ),
    decreases cs.len() - i,
{
    if i == cs.len() {
        assert(cs.take(i) =~= cs);
        assert(future_connections(cs, now_seconds) =~= future_connections(cs, now_seconds).take(
            future_connections(cs, now_seconds).len() as int,
        ));
    } else {
        lemma_future_take_step(cs, now_seconds, i);
        lemma_future_prefix(cs, now_seconds, i + 1);
        let fi = future_connections(cs.take(i), now_seconds);
        let fj = future_connections(cs.take(i + 1), now_seconds);
        let f = future_connections(cs, now_seconds);
        assert(fi =~= f.take(fi.len() as int)) by {
            assert(fj == f.take(fj.len() as int));
        }
    }
}

/// Renders a decoded response: the header, a literal notice when the
/// source sent no records at all, and otherwise one line for each of the
/// first `num_departures` records departing strictly after the reference
/// instant, in source order.
pub fn get_departure_string(
    data: &TransportResponse,
    num_departures: usize,
    now_seconds: i64,
) -> (r: String)
    ensures
        r@ == spec_render(data@, num_departures as int, now_seconds),
{
    let mut content = String::new();
    content.append(data.from_name.as_str());
    content.append(" -> ");
    content.append(data.to_name.as_str());
    proof {
        assert(content@ =~= spec_header(data@));
    }
    if data.connections.len() == 0 {
        content.append("\nNo departures");
        return content;
    }
    let ghost cs = data@.connections;
    let mut taken: usize = 0;
    let mut i: usize = 0;
    while i < data.connections.len() && taken < num_departures
        invariant
            0 <= i <= cs.len(),
            cs == data@.connections,
            taken <= num_departures,
            taken as int == ({
                let fl = future_connections(cs.take(i as int), now_seconds).len() as int;
                if num_departures <= fl {
                    num_departures as int
                } else {
                    fl
                }
            }),
            content@ == spec_header(data@) + spec_lines(
                future_connections(cs.take(i as int), now_seconds).take(taken as int),
                now_seconds,
            ),
        decreases cs.len() - i,
    {
        let ghost fut_before = future_connections(cs.take(i as int), now_seconds);
        let c = data.connections[i];
        proof {
            lemma_future_take_step(cs, now_seconds, i as int);
        }
        if c.departure.unix_seconds > now_seconds {
            push_char(&mut content, '\n');
            let offset_text = format_departure_offset(c.departure, now_seconds);
            content.append(offset_text.as_str());
            content.append(" (");
            let time_text = format_departure_time(c.departure);
            content.append(time_text.as_str());
            content.append(")");
            proof {
                let fut_after = future_connections(cs.take(i as int + 1), now_seconds);
                assert(fut_before.take(taken as int) =~= fut_before);
                assert(fut_after.take(taken as int + 1) =~= fut_after);
                assert(fut_after.drop_last() =~= fut_before);
                assert(content@ =~= spec_header(data@) + spec_lines(
                    fut_after.take(taken as int + 1),
                    now_seconds,
                ));
            }
            taken = taken + 1;
        }
        i = i + 1;
    }
    proof {
        let fut = future_connections(cs, now_seconds);
        let fut_i = future_connections(cs.take(i as int), now_seconds);
        if i == cs.len() {
            assert(cs.take(i as int) =~= cs);
        } else {
            lemma_future_prefix(cs, now_seconds, i as int);
            assert(fut_i.take(taken as int) =~= fut.take(taken as int));
        }
        assert(fut_i.take(taken as int) == selected_connections(
            cs,
            now_seconds,
            num_departures as int,
        ));
    }
    content
}

/// Law: a response with no records at all renders as exactly
/// `{from} -> {to}` followed by the literal `No departures` line.
pub proof fn lemma_render_empty(v: TransportResponseView, want: int, now_seconds: i64)
    requires
        v.connections.len() == 0,
    ensures
        spec_render(v, want, now_seconds) == v.from_name + " -> "@ + v.to_name
            + "\nNo departures"@,
{
    assert(spec_render(v, want, now_seconds) =~= v.from_name + " -> "@ + v.to_name
        + "\nNo departures"@);
}

/// The future records of a sequence whose every record departs at or before
/// the reference instant are none.
proof fn lemma_future_none(cs: Seq<ConnectionRecord>, now_seconds: i64)
    requires
        forall|i: int|
            0 <= i < cs.len() ==> cs[i].departure.unix_seconds <= now_seconds,
    ensures
        future_connections(cs, now_seconds) == Seq::<ConnectionRecord>::empty(),
    decreases cs.len(),
{
    if cs.len() > 0 {
        lemma_future_none(cs.drop_last(), now_seconds);
    }
}

/// Law: a response with records that all depart at or before the reference
/// instant renders as the bare header — no departure lines and no
/// `No departures` marker.
pub proof fn lemma_render_all_past(v: TransportResponseView, want: int, now_seconds: i64)
    requires
        v.connections.len() > 0,
        forall|i: int|
            0 <= i < v.connections.len() ==> v.connections[i].departure.unix_seconds
                <= now_seconds,
    ensures
        spec_render(v, want, now_seconds) == spec_header(v),
{
    lemma_future_none(v.connections, now_seconds);
    assert(selected_connections(v.connections, now_seconds, want) =~= Seq::<
        ConnectionRecord,
    >::empty());
    assert(spec_render(v, want, now_seconds) =~= spec_header(v));
}

/// Law: with a desired count of zero, no departure line is ever appended,
/// whatever the records hold: the render is the bare header, or the header
/// plus the `No departures` notice when the source sent no records at all.
pub proof fn lemma_render_want_zero(v: TransportResponseView, now_seconds: i64)
    ensures
        v.connections.len() == 0 ==> spec_render(v, 0, now_seconds) == spec_header(v)
            + "\nNo departures"@,
        v.connections.len() > 0 ==> spec_render(v, 0, now_seconds) == spec_header(v),
{
    if v.connections.len() > 0 {
        assert(selected_connections(v.connections, now_seconds, 0) =~= Seq::<
            ConnectionRecord,
        >::empty());
        assert(spec_render(v, 0, now_seconds) =~= spec_header(v));
    }
}

/// Every record of a sequence that departs after the reference instant is
/// its own future-record sequence.
proof fn lemma_future_all(cs: Seq<ConnectionRecord>, now_seconds: i64)
    requires
        forall|i: int|
            0 <= i < cs.len() ==> cs[i].departure.unix_seconds > now_seconds,
    ensures
        future_connections(cs, now_seconds) == cs,
    decreases cs.len(),
{
    if cs.len() > 0 {
        lemma_future_all(cs.drop_last(), now_seconds);
        assert(future_connections(cs, now_seconds) =~= cs);
    } else {
        assert(future_connections(cs, now_seconds) =~= cs);
    }
}

/// Law: selection is order-preserving and count-bounded.  With `n` future
/// records in source order and a desired count `k < n`, exactly the first
/// `k` records, in source order, are rendered — never re-sorted.
pub proof fn lemma_render_first_k(v: TransportResponseView, k: int, now_seconds: i64)
    requires
        0 <= k < v.connections.len(),
        forall|i: int|
            0 <= i < v.connections.len() ==> v.connections[i].departure.unix_seconds
                > now_seconds,
    ensures
        selected_connections(v.connections, now_seconds, k) == v.connections.take(k),
        spec_render(v, k, now_seconds) == spec_header(v) + spec_lines(
            v.connections.take(k),
            now_seconds,
        ),
{
    lemma_future_all(v.connections, now_seconds);
}

/// Law: each departure line is exactly `\n{relative-phrase} ({HH:MM})`,
/// the clock text two zero-padded digits, a colon, and two zero-padded
/// digits, in 24-hour range — except for a timestamp out of formatting
/// range, where a fixed notice stands in place of the clock text.
pub proof fn lemma_departure_line_format(c: ConnectionRecord, now_seconds: i64)
    ensures
        spec_departure_line(c, now_seconds) == seq!['\n'] + rough_future_phrase_of(
            spec_abs_diff_seconds(c.departure.unix_seconds, now_seconds),
        ) + " ("@ + spec_time_text(c.departure) + ")"@,
        i64::MIN <= crate::timefmt::spec_local_seconds(c.departure) <= i64::MAX ==> {
            let t = spec_time_text(c.departure);
            let h = crate::timefmt::spec_hour(c.departure);
            let m = crate::timefmt::spec_minute(c.departure);
            &&& t.len() == 5
            &&& t[0] == crate::digits::digit_char(h / 10)
            &&& t[1] == crate::digits::digit_char(h % 10)
            &&& t[2] == ':'
            &&& t[3] == crate::digits::digit_char(m / 10)
            &&& t[4] == crate::digits::digit_char(m % 10)
            &&& 0 <= h < 24
            &&& 0 <= m < 60
        },
{
}

} // verus!
