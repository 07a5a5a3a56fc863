use transport_widget::model::FetchOutcome;
use transport_widget::widget::connection_text;

#[test]
fn transport_failure_text() {
    let text = connection_text(&FetchOutcome::TransportFailed, 3, 0);
    assert_eq!(text, "Failed to make network request");
}

#[test]
fn non_200_status_text() {
    let text = connection_text(&FetchOutcome::BadStatus(404), 3, 0);
    assert_eq!(text, "Response status != 200: 404");
    let text = connection_text(&FetchOutcome::BadStatus(500), 3, 0);
    assert_eq!(text, "Response status != 200: 500");
}

#[test]
fn parse_failure_text_carries_the_detail() {
    let text = connection_text(&FetchOutcome::ParseFailed(String::from("oops")), 3, 0);
    assert!(text.starts_with("Failed to parse response:"));
    assert_eq!(text, "Failed to parse response: oops");
}
