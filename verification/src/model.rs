//! Data model: configuration pairs and decoded transport data.
//!
//! Timestamps are held as plain values — seconds since the Unix epoch plus
//! the timezone offset the data source encoded — so that filtering and clock
//! formatting are ordinary integer arithmetic.

use vstd::prelude::*;

verus! {

/// An absolute departure instant, with the timezone offset its source encoded.
#[derive(Clone, Copy, PartialEq, Eq, Structural, Debug)]
pub struct Departure {
    /// Whole seconds since the Unix epoch.
    pub unix_seconds: i64,
    /// Seconds east of UTC, as encoded with the timestamp.
    pub offset_seconds: i32,
}

/// One scheduled journey leg, identified by its origin departure instant.
#[derive(Clone, Copy, PartialEq, Eq, Structural, Debug)]
pub struct ConnectionRecord {
    pub departure: Departure,
}

/// One decoded fetch result from the journey-planning data source.
#[derive(Debug)]
pub struct TransportResponse {
    pub from_name: String,
    pub to_name: String,
    pub connections: Vec<ConnectionRecord>,
}

/// Mathematical image of a `TransportResponse`.
pub struct TransportResponseView {
    pub from_name: Seq<char>,
    pub to_name: Seq<char>,
    pub connections: Seq<ConnectionRecord>,
}

impl View for TransportResponse {
    type V = TransportResponseView;

    open spec fn view(&self) -> TransportResponseView {
        TransportResponseView {
            from_name: self.from_name@,
            to_name: self.to_name@,
            connections: self.connections@,
        }
    }
}

/// One configured origin/destination station pair.
#[derive(Debug, Clone, PartialEq)]
pub struct StationPairConfig {
    pub from_station: String,
    pub to_station: String,
    pub num_connections: u8,
}

/// Mathematical image of a `StationPairConfig`.
pub struct StationPairView {
    pub from_station: Seq<char>,
    pub to_station: Seq<char>,
    pub num_connections: u8,
}

impl View for StationPairConfig {
    type V = StationPairView;

    open spec fn view(&self) -> StationPairView {
        StationPairView {
            from_station: self.from_station@,
            to_station: self.to_station@,
            num_connections: self.num_connections,
        }
    }
}

/// The widget configuration: a list of station pairs to query.
#[derive(Debug, Clone, PartialEq)]
pub struct WidgetConfig {
    pub connections: Vec<StationPairConfig>,
}

/// Mathematical image of a `WidgetConfig`.
pub struct WidgetConfigView {
    pub connections: Seq<StationPairView>,
}

impl View for WidgetConfig {
    type V = WidgetConfigView;

    open spec fn view(&self) -> WidgetConfigView {
        WidgetConfigView {
            connections: Seq::new(self.connections@.len(), |i: int| self.connections@[i]@),
        }
    }
}

/// What one attempted fetch of a station pair came to, as plain values.
#[derive(Debug)]
pub enum FetchOutcome {
    /// The HTTP collaborator itself failed.
    TransportFailed,
    /// The collaborator answered with a status other than 200.
    BadStatus(u16),
    /// The payload did not decode into a `TransportResponse`; the detail
    /// text of the decoder is carried along.
    ParseFailed(String),
    /// A decoded response.
    Parsed(TransportResponse),
}

} // verus!
