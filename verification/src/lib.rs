//! StormStorage: the storage control plane across Storm nodes and clusters.
//! Registry, pools, placement, distributed volumes assembled as RAID1 over
//! NVMe-TCP, leg moves, peer replication. Never in the data path.
//!
//! This crate decides; it asks nobody. What has to be asked of engines, peers
//! and the machine is handed out as plain values, and the answers are taken in
//! as plain values.

pub mod api;
pub mod clock;
pub mod components;
pub mod config;
pub mod double;
pub mod engine;
pub mod events;
pub mod inventory;
pub mod json;
pub mod laws;
pub mod model;
pub mod names;
pub mod orchestrate;
pub mod placement;
pub mod registry;
pub mod replicate;
pub mod text;

use vstd::prelude::*;

verus! {

/// The version that the control plane reports.
pub const VERSION: &'static str = "0.3.0";

} // verus!
