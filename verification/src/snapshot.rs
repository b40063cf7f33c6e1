//! The per-frame input model: the extracted snapshot of every visible tilemap
//! and the texture-asset events that accompany it.
//!
//! A snapshot is produced once per frame by the external extraction step and
//! is read-only afterwards; it has no identity beyond one frame. All scalar
//! data the pipeline reads is carried as plain integer values: grid positions
//! and layers as `i32`, sizes and atlas rectangles in whole texels, colors as
//! 8-bit channels, the change timestamp as a monotonic tick count, and the
//! world transform as opaque matrix words that the pipeline copies without
//! inspecting.

use vstd::prelude::*;

verus! {

/// Stable, comparable identity of a texture image asset.
pub type ImageId = u64;

/// Identity of the scene entity that owns a tilemap.
#[derive(Clone, Copy, Debug, PartialEq, Eq, Structural)]
pub struct Entity {
    pub bits: u64,
}

/// A 2D integer grid position.
#[derive(Clone, Copy, Debug, PartialEq, Eq, Structural)]
pub struct IVec2 {
    pub x: i32,
    pub y: i32,
}

/// A chunk origin: a 2D grid position plus a layer (depth) index.
#[derive(Clone, Copy, Debug, PartialEq, Eq, Structural)]
pub struct IVec3 {
    pub x: i32,
    pub y: i32,
    pub z: i32,
}

/// A 2D extent in whole texels.
#[derive(Clone, Copy, Debug, PartialEq, Eq, Structural)]
pub struct UVec2 {
    pub x: u32,
    pub y: u32,
}

/// A sub-rectangle of the tilemap's atlas texture, in texels.
#[derive(Clone, Copy, Debug, PartialEq, Eq, Structural)]
pub struct Rect {
    pub min: UVec2,
    pub max: UVec2,
}

/// RGBA color modulation with 8-bit channels.
#[derive(Clone, Copy, Debug, PartialEq, Eq, Structural)]
pub struct Color {
    pub r: u8,
    pub g: u8,
    pub b: u8,
    pub a: u8,
}

/// Flag bit: mirror the tile's UVs horizontally.
pub const TILE_FLIP_X: u32 = 1;

/// Flag bit: mirror the tile's UVs vertically.
pub const TILE_FLIP_Y: u32 = 2;

/// Flag bit: the tile is hidden and contributes no vertices.
pub const TILE_HIDDEN: u32 = 4;

/// Per-tile bit flags: UV flips and visibility.
#[derive(Clone, Copy, Debug, PartialEq, Eq, Structural)]
pub struct TileFlags {
    pub bits: u32,
}

impl TileFlags {
    /// Whether `flag`'s bit is set.
    pub open spec fn has(self, flag: u32) -> bool {
        self.bits & flag != 0
    }

    /// Test one flag bit.
    pub fn contains(self, flag: u32) -> (r: bool)
        ensures
            r == self.has(flag),
    {
        self.bits & flag != 0
    }
}

/// One grid cell's renderable description: atlas rectangle, color, flags.
/// Immutable once extracted; owned by its chunk.
#[derive(Clone, Copy, Debug, PartialEq, Eq, Structural)]
pub struct ExtractedTile {
    pub pos: IVec2,
    pub rect: Rect,
    pub color: Color,
    pub flags: TileFlags,
}

/// A spatial subdivision of a tilemap: the unit of GPU-buffer granularity and
/// change tracking. `last_change_at` is the dirty timestamp; it is the sole
/// signal the resource table uses to decide whether to rebuild the chunk's
/// vertex buffer.
#[derive(Clone, Debug, PartialEq)]
pub struct ExtractedChunk {
    pub origin: IVec3,
    pub tiles: Vec<ExtractedTile>,
    pub last_change_at: u64,
}

/// The world transform of a tilemap, carried opaquely: the pipeline copies it
/// into the per-chunk uniform record and never inspects it. The sixteen words
/// hold the bit patterns of the 4x4 matrix entries.
#[derive(Clone, Copy, Debug, PartialEq)]
pub struct Mat4 {
    pub words: [u32; 16],
}

/// One visible tilemap: its owning entity, world transform, source texture
/// identity, fixed tile and atlas sizing, its chunks, and the chunk origins
/// currently visible (a subset of `chunks`, determined by external culling).
#[derive(Clone, Debug)]
pub struct ExtractedTilemap {
    pub entity: Entity,
    pub transform: Mat4,
    pub image_handle_id: ImageId,
    pub tile_size: UVec2,
    pub atlas_size: UVec2,
    pub chunks: Vec<ExtractedChunk>,
    pub visible_chunks: Vec<IVec3>,
}

/// The per-frame snapshot root: every tilemap intended to render, in a stable
/// order. Rebuilt from scratch every frame.
#[derive(Clone, Debug)]
pub struct ExtractedTilemaps {
    pub tilemaps: Vec<ExtractedTilemap>,
}

impl Default for ExtractedTilemaps {
    /// An empty snapshot.
    fn default() -> (r: Self)
        ensures
            r.tilemaps@.len() == 0,
    {
        ExtractedTilemaps { tilemaps: Vec::new() }
    }
}

/// A texture-asset lifecycle event, tagged with the texture's identity.
/// Queued once per frame and drained by the image bind-group cache.
#[derive(Clone, Copy, Debug, PartialEq, Eq, Structural)]
pub enum AssetEvent {
    Created { id: ImageId },
    Modified { id: ImageId },
    Removed { id: ImageId },
}

impl AssetEvent {
    /// Whether this event invalidates a cached bind group for texture `id`:
    /// `Modified` and `Removed` evict, `Created` does nothing eagerly.
    pub open spec fn evicts(self, id: ImageId) -> bool {
        match self {
            AssetEvent::Created { .. } => false,
            AssetEvent::Modified { id: eid } => eid == id,
            AssetEvent::Removed { id: eid } => eid == id,
        }
    }
}

/// The image events queued for this frame, fully drained each frame.
#[derive(Clone, Debug)]
pub struct TilemapAssetEvents {
    pub images: Vec<AssetEvent>,
}

impl Default for TilemapAssetEvents {
    /// An empty event queue.
    fn default() -> (r: Self)
        ensures
            r.images@.len() == 0,
    {
        TilemapAssetEvents { images: Vec::new() }
    }
}

} // verus!
