//! Extraction-and-batching core of a chunked 2D tile-grid renderer.
//!
//! Each frame, a snapshot of every visible tilemap (its chunks and tiles) is
//! turned into packed vertex streams and per-chunk uniform records; chunk
//! vertex buffers are reused or rebuilt based on the chunk's change
//! timestamp; and the chunks whose texture has a ready bind group are grouped
//! into minimal contiguous draw batches, one per run of consecutive chunks
//! sharing a texture. The frame-level laws — determinism, timestamp gating,
//! preservation of unvisited entries, and idempotent re-extraction — are
//! stated and proved in [`laws`].

pub mod batch;
pub mod images;
pub mod laws;
pub mod snapshot;
pub mod table;
pub mod vertex;

pub use batch::{queue_batches, BatchRange, TilemapBatch};
pub use images::{BindGroup, ImageBindGroups};
pub use snapshot::{
    AssetEvent, Color, Entity, ExtractedChunk, ExtractedTile, ExtractedTilemap, ExtractedTilemaps,
    IVec2, IVec3, ImageId, Mat4, Rect, TileFlags, TilemapAssetEvents, UVec2, TILE_FLIP_X,
    TILE_FLIP_Y, TILE_HIDDEN,
};
pub use table::{prepare_tilemaps, ChunkDraw, ChunkKey, ChunkMeta, PreparedFrame, TilemapMeta};
pub use vertex::{build_chunk_vertices, pack_color, TilemapGpuData, TilemapVertex};
