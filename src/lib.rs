//! Tracks the on-disk size of container images over time: snapshots of an
//! image, the layer-level diff between two snapshots, the choice of a baseline
//! from the history, and the size policies that decide a CI run.

pub mod baseline;
pub mod budget;
pub mod chart;
pub mod ci;
pub mod diff;
pub mod error;
pub mod github;
pub mod history;
pub mod inspect;
pub mod listing;
pub mod model;
pub mod size;
pub mod store;
pub mod text;
