//! The controller's side of a search: what it serves, how its answers are
//! judged, and the engine that walks its sites.

pub mod api;
pub mod devices;
pub mod laws;
pub mod model;
pub mod search;
