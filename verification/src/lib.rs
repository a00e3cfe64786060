//! A voxel world of programmable cells: terrain, the per-cell virtual machine,
//! the exclusion rule that keeps one entity per voxel, and the world tick that
//! ties them together.

pub mod area;
pub mod cell;
pub mod exclusion;
pub mod genesis;
pub mod isa;
pub mod mesh;
pub mod geometry;
pub mod occupancy;
pub mod scan;
pub mod terrain;
pub mod tick;
pub mod vm;
pub mod world;
