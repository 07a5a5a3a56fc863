use transport_widget::model::ConnectionRecord;
use transport_widget::model::Departure;
use transport_widget::model::FetchOutcome;
use transport_widget::model::TransportResponse;
use transport_widget::render::get_departure_string;
use transport_widget::timefmt::format_departure_time;
use transport_widget::phrase::format_departure_offset;
use transport_widget::widget::connection_text;

fn record(unix_seconds: i64, offset_seconds: i32) -> ConnectionRecord {
    ConnectionRecord { departure: Departure { unix_seconds, offset_seconds } }
}

fn response(connections: Vec<ConnectionRecord>) -> TransportResponse {
    TransportResponse {
        from_name: String::from("A"),
        to_name: String::from("B"),
        connections,
    }
}

// A reference instant whose UTC clock time is 13:00:00.
const NOW: i64 = 86400 * 19000 + 13 * 3600;

#[test]
fn empty_connections_render_no_departures_line() {
    let data = response(vec![]);
    assert_eq!(get_departure_string(&data, 3, NOW), "A -> B\nNo departures");
}

#[test]
fn all_past_departures_render_bare_header() {
    let data = response(vec![record(NOW - 60, 0), record(NOW - 1, 0), record(NOW, 0)]);
    assert_eq!(get_departure_string(&data, 3, NOW), "A -> B");
}

#[test]
fn want_zero_renders_no_departure_lines() {
    let data = response(vec![record(NOW + 300, 0), record(NOW + 600, 0)]);
    assert_eq!(get_departure_string(&data, 0, NOW), "A -> B");
}

#[test]
fn want_zero_with_empty_connections_still_reports_no_departures() {
    let data = response(vec![]);
    assert_eq!(get_departure_string(&data, 0, NOW), "A -> B\nNo departures");
}

#[test]
fn first_k_future_connections_render_in_source_order() {
    // Three future records in source order; want 2 keeps the first two by
    // source order even though a later record departs sooner.
    let data = response(vec![
        record(NOW + 7200, 0),
        record(NOW + 300, 0),
        record(NOW + 600, 0),
    ]);
    assert_eq!(
        get_departure_string(&data, 2, NOW),
        "A -> B\nin 2 hours (15:00)\nin 5 minutes (13:05)"
    );
}

#[test]
fn past_records_are_skipped_not_counted() {
    let data = response(vec![
        record(NOW - 300, 0),
        record(NOW + 300, 0),
        record(NOW - 60, 0),
        record(NOW + 600, 0),
    ]);
    assert_eq!(
        get_departure_string(&data, 2, NOW),
        "A -> B\nin 5 minutes (13:05)\nin 10 minutes (13:10)"
    );
}

#[test]
fn departure_time_is_zero_padded_24_hour() {
    assert_eq!(
        format_departure_time(Departure { unix_seconds: 5 * 3600 + 9 * 60, offset_seconds: 0 }),
        "05:09"
    );
    assert_eq!(
        format_departure_time(Departure { unix_seconds: 0, offset_seconds: 0 }),
        "00:00"
    );
    assert_eq!(
        format_departure_time(Departure { unix_seconds: 86399, offset_seconds: 0 }),
        "23:59"
    );
}

#[test]
fn departure_time_uses_the_encoded_offset() {
    // 13:00 UTC with a +02:00 offset reads 15:00 on the local clock.
    assert_eq!(
        format_departure_time(Departure { unix_seconds: NOW, offset_seconds: 7200 }),
        "15:00"
    );
    // A negative offset crosses midnight backwards.
    assert_eq!(
        format_departure_time(Departure { unix_seconds: 86400 * 19000, offset_seconds: -3600 }),
        "23:00"
    );
}

#[test]
fn departure_time_before_epoch_wraps_into_the_day() {
    assert_eq!(
        format_departure_time(Departure { unix_seconds: -1, offset_seconds: 0 }),
        "23:59"
    );
}

#[test]
fn departure_time_out_of_range_downgrades_to_notice() {
    assert_eq!(
        format_departure_time(Departure { unix_seconds: i64::MAX, offset_seconds: 1 }),
        "Could not format departure"
    );
}

#[test]
fn offset_phrase_is_rough_and_future_tense() {
    let d = Departure { unix_seconds: NOW + 300, offset_seconds: 0 };
    assert_eq!(format_departure_offset(d, NOW), "in 5 minutes");
    let d2 = Departure { unix_seconds: NOW + 7200, offset_seconds: 0 };
    assert_eq!(format_departure_offset(d2, NOW), "in 2 hours");
}

#[test]
fn offset_phrase_discards_the_sign() {
    let d = Departure { unix_seconds: NOW - 300, offset_seconds: 0 };
    assert_eq!(format_departure_offset(d, NOW), "in 5 minutes");
}

#[test]
fn parsed_outcome_renders_one_departure_end_to_end() {
    // One connection departing five minutes after the reference instant,
    // local clock 13:05.
    let data = response(vec![record(NOW + 300, 0)]);
    let text = connection_text(&FetchOutcome::Parsed(data), 1, NOW);
    assert_eq!(text, "A -> B\nin 5 minutes (13:05)");
}
