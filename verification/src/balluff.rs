//! Balluff devices.
pub mod bni008m;
