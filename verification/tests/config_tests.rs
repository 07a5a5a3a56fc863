use transport_widget::config::encode_config;
use transport_widget::config::parse_config;
use transport_widget::model::StationPairConfig;
use transport_widget::model::WidgetConfig;
use transport_widget::url::connection_url;
use transport_widget::widget::get_name;
use transport_widget::widget::get_run_update_cycle_seconds;
use transport_widget::widget::get_version;
use transport_widget::widget::is_no_config;
use transport_widget::widget::join_fragments;
use transport_widget::widget::run_output;
use transport_widget::widget::RunPlan;

fn pair(from: &str, to: &str, n: u8) -> StationPairConfig {
    StationPairConfig {
        from_station: String::from(from),
        to_station: String::from(to),
        num_connections: n,
    }
}

#[test]
fn encode_empty_config() {
    let c = WidgetConfig { connections: vec![] };
    assert_eq!(encode_config(&c), "{\"connections\":[]}");
}

#[test]
fn encode_one_pair() {
    let c = WidgetConfig { connections: vec![pair("A", "B", 3)] };
    assert_eq!(
        encode_config(&c),
        "{\"connections\":[{\"from_station\":\"A\",\"to_station\":\"B\",\"num_connections\":3}]}"
    );
}

#[test]
fn round_trip_preserves_the_config() {
    let c = WidgetConfig {
        connections: vec![
            pair("Zürich HB", "Bern", 3),
            pair("a \"quoted\" stop", "back\\slash", 0),
            pair("line\nbreak\ttab", "ctl\u{1}\u{1f}end", 9),
            pair("", "X", 255),
        ],
    };
    let encoded = encode_config(&c);
    let decoded = parse_config(&encoded).expect("canonical text must decode");
    assert_eq!(decoded, c);
}

#[test]
fn encoded_config_is_plain_json() {
    let name = "a \"q\" \\ /\nmix\t\u{1} stop";
    let c = WidgetConfig { connections: vec![pair(name, "B", 2)] };
    let encoded = encode_config(&c);
    let v: serde_json::Value = serde_json::from_str(&encoded).expect("the encoding must be JSON");
    assert_eq!(v["connections"][0]["from_station"], name);
    assert_eq!(v["connections"][0]["to_station"], "B");
    assert_eq!(v["connections"][0]["num_connections"], 2);
}

#[test]
fn parse_rejects_malformed_text() {
    assert!(parse_config("").is_none());
    assert!(parse_config("{}").is_none());
    assert!(parse_config("{\"connections\":[").is_none());
    assert!(parse_config("{\"connections\":[]} ").is_none());
    assert!(parse_config("{\"connections\":[{\"from_station\":\"A\"}]}").is_none());
    // A raw control character inside a string is not JSON.
    assert!(parse_config(
        "{\"connections\":[{\"from_station\":\"a\u{1}b\",\"to_station\":\"B\",\"num_connections\":1}]}"
    )
    .is_none());
}

#[test]
fn parse_reads_the_standard_escapes() {
    let decoded = parse_config(
        "{\"connections\":[{\"from_station\":\"\\u0041\\n\\t\\/\",\"to_station\":\"\\u001F\",\"num_connections\":1}]}"
    )
    .expect("escaped text must decode");
    assert_eq!(decoded.connections[0].from_station, "A\n\t/");
    assert_eq!(decoded.connections[0].to_station, "\u{1f}");
}

#[test]
fn parse_rejects_numbers_that_do_not_fit() {
    assert!(parse_config(
        "{\"connections\":[{\"from_station\":\"A\",\"to_station\":\"B\",\"num_connections\":256}]}"
    )
    .is_none());
    assert!(parse_config(
        "{\"connections\":[{\"from_station\":\"A\",\"to_station\":\"B\",\"num_connections\":007}]}"
    )
    .is_none());
}

#[test]
fn parse_reads_the_canonical_form() {
    let decoded = parse_config(
        "{\"connections\":[{\"from_station\":\"A\",\"to_station\":\"B\",\"num_connections\":1},{\"from_station\":\"C\",\"to_station\":\"D\",\"num_connections\":255}]}"
    )
    .expect("canonical text must decode");
    assert_eq!(decoded.connections.len(), 2);
    assert_eq!(decoded.connections[0], pair("A", "B", 1));
    assert_eq!(decoded.connections[1], pair("C", "D", 255));
}

#[test]
fn empty_object_config_short_circuits() {
    assert!(is_no_config("{}"));
    assert_eq!(run_output(&RunPlan::NoConfig, &vec![]), "No config provided");
}

#[test]
fn only_the_exact_empty_object_is_the_sentinel() {
    assert!(!is_no_config(""));
    assert!(!is_no_config("{ }"));
    assert!(!is_no_config("{}{}"));
    assert!(!is_no_config("{\"connections\":[]}"));
}

#[test]
fn fragments_join_with_newlines_in_order() {
    let plan = RunPlan::Fetch(WidgetConfig { connections: vec![pair("A", "B", 1)] });
    let fragments = vec![String::from("first"), String::from("second"), String::from("third")];
    assert_eq!(run_output(&plan, &fragments), "first\nsecond\nthird");
    assert_eq!(join_fragments(&vec![]), "");
    assert_eq!(join_fragments(&vec![String::from("only")]), "only");
}

#[test]
fn url_percent_encodes_both_station_names() {
    let url = connection_url(&pair("Zürich HB", "Bern", 3));
    assert_eq!(
        url,
        "http://transport.opendata.ch/v1/connections?from=Z%C3%BCrich%20HB&to=Bern&limit=16"
    );
}

#[test]
fn metadata_is_constant() {
    assert_eq!(get_name(), "Public Transport");
    assert_eq!(get_version(), "1.0.0");
    assert_eq!(get_run_update_cycle_seconds(), 90);
}
