use vstd::prelude::*;

pub mod text;
pub mod env_map;
pub mod adapter;
pub mod backend;
pub mod backend_ffi;
pub mod bootstrap;
pub mod conformance;
pub mod detect;
pub mod doctor;
pub mod host;
pub mod render;
pub mod repo;
pub mod report;
pub mod runner;
pub mod shim;
pub mod workspace_shims;
pub mod cli;
pub mod roundtrip;
pub mod bridge;

verus! {
} // verus!
