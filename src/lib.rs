//! Resolves named streets into ordered polylines by joining them against the
//! ways and points of a regional map extract.

pub mod geo;
pub mod output;
pub mod render;
pub mod scrape;
