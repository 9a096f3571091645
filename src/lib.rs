//! Slicing of 3D scalar volumes into 2D rasters, with the byte-layout,
//! geometry and batching rules that the GPU renderer around it relies on.
pub mod fibers;
pub mod inputs;
pub mod layout;
pub mod render;
pub mod slicer;
pub mod slicing;
pub mod view;
pub mod volume;
