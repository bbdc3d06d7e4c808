//! Geometric clipmap terrain: the fixed mesh topologies that make up the
//! rings of a clipmap, the per-frame snapping that places every ring
//! instance around the camera, and the assembly of the terrain's shader
//! from named snippets.

pub mod geometry;
pub mod geoclipmap;
pub mod snapping;
pub mod terrain;
pub mod storage;
pub mod shader;
