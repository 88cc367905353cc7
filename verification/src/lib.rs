//! Voxel visibility by screen-space ray sampling.
//!
//! A dense voxel chunk stores one material per cell; a visibility raycaster
//! walks a grid of rays from the camera through a sampled far-plane rectangle
//! and returns, once per frame, the deduplicated list of first-hit solid
//! voxels.  All geometry is carried in 16.16 fixed-point integers so that
//! every step of the computation has an exact mathematical model.

pub mod chunk;
pub mod fixed;
pub mod raycast;
pub mod vec3;
