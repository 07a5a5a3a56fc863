//! Public-transport departure widget.
//!
//! Given a configuration naming origin/destination station pairs, the widget
//! queries a journey-planning endpoint and renders upcoming departures as a
//! compact multi-line text block.  The departure selection and formatting
//! pipeline, the request-URL construction, the configuration codec and the
//! orchestration decisions are all verified; the host supplies the clock,
//! the HTTP transport and the response decoding.

pub mod config;
pub mod digits;
pub mod model;
pub mod phrase;
pub mod render;
pub mod text;
pub mod timefmt;
pub mod url;
pub mod widget;
