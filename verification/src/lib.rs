use vstd::prelude::*;

pub mod arith;
pub mod machine_data;
pub mod flow_math;
pub mod flow_pattern;
pub mod flow_laws;
pub mod geometry;
pub mod geometry_laws;
pub mod simulation;
pub mod sim_laws;
pub mod graph_simulation;
pub mod deck_geometry;
pub mod deck_laws;
pub mod deck_movers;
pub mod deck_mechanisms;
pub mod deck_conveyors;
pub mod graph_algorithms;
pub mod region_future;
pub mod primitive_machines;
pub mod modules;
pub mod undo_redo;
pub mod sound_data;
pub mod misc;
pub mod terrain;
pub mod canonical;

verus! {
} // verus!
