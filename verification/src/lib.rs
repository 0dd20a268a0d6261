//! Core logic of the krata zone host: OCI data holders and storage layout,
//! digest validation, CPU topology presentation, automatic zone networking,
//! daemon bootstrap decisions, zone command execution and the 9p ring transport.
use vstd::prelude::*;

pub mod autonet;
pub mod controller;
pub mod cpu_topology;
pub mod daemon;
pub mod digest;
pub mod exec;
pub mod fs9p;
pub mod fs9p_lifecycle;
pub mod oci_data;
pub mod oci_schema;
pub mod platform;
pub mod repository;
pub mod text;

verus! {

} // verus!
