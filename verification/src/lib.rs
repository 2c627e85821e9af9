//! Chunked 2D terrain core: coordinate mapping between an unbounded world and
//! fixed 64x64 chunks, per-cell occupancy with incrementally maintained
//! neighbour masks, a versioned multi-listener change log, and marching-squares
//! contour extraction for collider generation.

pub mod change_buffer;
pub mod chunk;
pub mod coords;
pub mod input;
pub mod marching_square;
pub mod math;
pub mod painter;
pub mod render;
pub mod segment2i;
pub mod seq_util;
pub mod sync;
pub mod terrain;
pub mod texel;
pub mod vector2i;
pub mod world_gen;

pub use change_buffer::{ChangeBuffer, Event, Listener};
pub use chunk::{Chunk, TexelUpdate};
pub use coords::{global_to_index, global_to_local, index_to_global, local_to_texel_index, texel_index_to_local};
pub use marching_square::{calculate_collisions, extract_islands};
pub use math::{wrapping_quotient, wrapping_remainder};
pub use segment2i::Segment2I;
pub use terrain::{Terrain, TerrainUpdate};
pub use texel::Texel;
pub use vector2i::Vector2I;
