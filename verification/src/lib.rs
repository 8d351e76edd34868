//! Photos in, gaussian splat and mesh out: the rules of the pipeline.
pub mod cells;
pub mod cli;
pub mod closing;
pub mod cloud_laws;
pub mod colmap;
pub mod ffpose;
pub mod gpu;
pub mod gpu_laws;
pub mod grid;
pub mod ieee;
pub mod inversion;
pub mod mesh;
pub mod mesh_laws;
pub mod message_laws;
pub mod net_laws;
pub mod number_laws;
pub mod ply;
pub mod ply_laws;
pub mod point_cloud;
pub mod point_laws;
pub mod report;
pub mod run;
pub mod run_laws;
pub mod sorting;
pub mod splat_laws;
pub mod splat_ply;
pub mod surface_laws;
pub mod surface_nets;
pub mod text;
pub mod text_laws;
pub mod timing;
pub mod train;
pub mod tsdf;
