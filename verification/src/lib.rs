//! A verified voxel chunk pipeline: dense padded chunk volumes, procedural
//! terrain population, face-culling quad extraction, geometry buffer
//! expansion, and a chunk streaming controller that decides which chunk
//! coordinates to load or unload around a moving observer.

pub mod chunk;
pub mod color;
pub mod config;
pub mod face;
pub mod mesh;
pub mod position;
pub mod quad;
pub mod side;
pub mod streaming;
pub mod voxel;

pub use chunk::{Chunk, ChunkMesh};
pub use color::Color;
pub use config::{Config, ConfigError};
pub use face::Face;
pub use mesh::MeshBuffers;
pub use position::Position;
pub use quad::{Quad, QuadGroups};
pub use side::{Axis, Side};
pub use streaming::{ChunkLoadEvent, ChunkUnloadEvent, LoadedChunks};
pub use voxel::{Visibility, Voxel};
