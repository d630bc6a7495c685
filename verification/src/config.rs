use vstd::prelude::*;
use crate::chunk::MAX_CHUNK_EDGE;

verus! {

/// The largest supported render distance, in chunks: keeps one tick's
/// required coordinate set of a size a control loop can enumerate.
pub const MAX_RENDER_DISTANCE: i32 = 64;

/// Why a configuration was rejected at startup.
#[derive(Copy, Clone, Debug, PartialEq, Eq, Structural)]
pub enum ConfigError {
    /// The chunk edge length is zero or above the supported maximum.
    InvalidChunkSize,
    /// The render distance is not positive or above the supported maximum.
    InvalidRenderDistance,
}

/// The pipeline's configuration: voxels per chunk axis, render distance in
/// chunks, and the world seed. Built only through `Config::new`, which
/// rejects invalid values up front instead of deep in the pipeline.
#[derive(Copy, Clone, Debug, PartialEq, Eq, Structural)]
pub struct Config {
    pub chunk_edge_voxels: usize,
    pub render_distance: i32,
    pub seed: u32,
}

impl Config {
    /// Validates a configuration: the chunk edge length and the render
    /// distance must both be positive and within the supported maxima.
    /// Each error names the first value that is out of range.
    pub fn new(chunk_edge_voxels: usize, render_distance: i32, seed: u32) -> (r: Result<
        Config,
        ConfigError,
    >)
        ensures
            (r matches Ok(c) ==> c.chunk_edge_voxels == chunk_edge_voxels
                && c.render_distance == render_distance && c.seed == seed),
            (r is Ok) <==> (1 <= chunk_edge_voxels <= MAX_CHUNK_EDGE && 1 <= render_distance
                <= MAX_RENDER_DISTANCE),
            r == Err::<Config, ConfigError>(ConfigError::InvalidChunkSize) <==> !(1
                <= chunk_edge_voxels <= MAX_CHUNK_EDGE),
            r == Err::<Config, ConfigError>(ConfigError::InvalidRenderDistance) <==> (1
                <= chunk_edge_voxels <= MAX_CHUNK_EDGE && !(1 <= render_distance
                <= MAX_RENDER_DISTANCE)),
    {
        if chunk_edge_voxels < 1 || chunk_edge_voxels > MAX_CHUNK_EDGE {
            Err(ConfigError::InvalidChunkSize)
        } else if render_distance < 1 || render_distance > MAX_RENDER_DISTANCE {
            Err(ConfigError::InvalidRenderDistance)
        } else {
            Ok(Config { chunk_edge_voxels, render_distance, seed })
        }
    }
}

} // verus!
