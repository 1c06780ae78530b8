use vstd::prelude::*;

pub mod text;
pub mod numtext;
pub mod textmap;
pub mod portable;
pub mod digest;
pub mod adapters;
pub mod raster;
pub mod asset_cli;
pub mod adaptive;
pub mod project_manifest;
pub mod cli;
pub mod build_graph;
pub mod adaptive_plan;
pub mod glb;
pub mod adaptive_publish;
pub mod diagnostics;
pub mod raster_build;
pub mod runtime_contract;
pub mod sorting;
pub mod receipt;
pub mod inputs;
pub mod invocation;
pub mod graph_check;
pub mod rebuild;
pub mod layout;
pub mod cargo_layout;
pub mod cargo_graph;
pub mod cargo_inputs;
pub mod sdk_options;
pub mod benchmark;
pub mod telemetry;

verus! {

} // verus!
