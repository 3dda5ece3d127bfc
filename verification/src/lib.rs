//! Verified game rules for a small first-person prototype: the voxel level
//! laid out from a text map, the pointer-capture toggle, the snapshot of the
//! trailing-pose smoother, and the frames in which an enemy is steered and a
//! view-target marker is moved.

pub mod cursor;
pub mod delayed;
pub mod level;
pub mod steering;
pub mod view_target;
