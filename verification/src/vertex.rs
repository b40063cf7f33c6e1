//! The vertex builder: turns a chunk's tile list into a packed vertex stream
//! (one quad per tile, in tile order) plus the per-chunk uniform record.
//!
//! The output is a pure function of the chunk's tile list and the tilemap's
//! fixed sizing, so an unchanged chunk builds to an identical stream on every
//! frame; the resource table relies on that to reuse buffers safely.

use vstd::prelude::*;

use crate::snapshot::{
    Color, ExtractedChunk, ExtractedTile, ExtractedTilemap, IVec3, Mat4, UVec2, TILE_FLIP_X,
    TILE_FLIP_Y, TILE_HIDDEN,
};

verus! {

/// One vertex of a tile quad. Positions are in texels (grid position scaled
/// by the tile size), `uv` is the atlas rectangle's corner in texels, and
/// `tile_uv` is the corner's offset within that rectangle, swapped by the
/// flip flags; the color is packed into one word.
#[derive(Clone, Copy, Debug, PartialEq, Eq, Structural)]
pub struct TilemapVertex {
    pub position_x: i64,
    pub position_y: i64,
    pub position_z: i32,
    pub uv_x: u32,
    pub uv_y: u32,
    pub tile_uv_x: u32,
    pub tile_uv_y: u32,
    pub color: u32,
}

/// The per-chunk uniform record: world transform, tile size, texture size.
/// One is appended to the shared per-frame uniform region for every chunk.
#[derive(Clone, Copy, Debug, PartialEq)]
pub struct TilemapGpuData {
    pub transform: Mat4,
    pub tile_size: UVec2,
    pub texture_size: UVec2,
}

/// The tile's color packed into one word: red in the low byte, then green,
/// blue, and alpha in the high byte.
pub open spec fn packed_color(c: Color) -> u32 {
    (c.r as int + c.g as int * 0x100 + c.b as int * 0x10000 + c.a as int * 0x1000000) as u32
}

/// Pack a color into its fixed-width vertex representation.
pub fn pack_color(c: Color) -> (r: u32)
    ensures
        r == packed_color(c),
{
    c.r as u32 + (c.g as u32) * 0x100 + (c.b as u32) * 0x10000 + (c.a as u32) * 0x1000000
}

/// A degenerate tile: hidden, or its atlas rectangle has no area. Such a tile
/// contributes no vertices.
pub open spec fn tile_skipped(t: ExtractedTile) -> bool {
    t.flags.has(TILE_HIDDEN) || t.rect.max.x <= t.rect.min.x || t.rect.max.y <= t.rect.min.y
}

/// The horizontal UV offset of a quad corner within the tile's atlas
/// rectangle; a horizontal flip swaps the two sides.
pub open spec fn corner_u(t: ExtractedTile, right: bool) -> u32 {
    if right != t.flags.has(TILE_FLIP_X) {
        (t.rect.max.x - t.rect.min.x) as u32
    } else {
        0
    }
}

/// The vertical UV offset of a quad corner within the tile's atlas
/// rectangle; a vertical flip swaps top and bottom.
pub open spec fn corner_v(t: ExtractedTile, bottom: bool) -> u32 {
    if bottom != t.flags.has(TILE_FLIP_Y) {
        (t.rect.max.y - t.rect.min.y) as u32
    } else {
        0
    }
}

/// Whether the tile's quad coordinates fit the vertex representation: the
/// grid position (chunk origin plus tile position) scaled by the tile size
/// must stay within `i64`. This is forced by the machine representation of
/// vertex positions, not by the rendering model.
pub open spec fn tile_fits(tile_size: UVec2, origin: IVec3, t: ExtractedTile) -> bool {
    let bx = (origin.x as int + t.pos.x as int) * (tile_size.x as int);
    let by = (origin.y as int + t.pos.y as int) * (tile_size.y as int);
    &&& i64::MIN as int <= bx
    &&& bx + tile_size.x as int <= i64::MAX as int
    &&& i64::MIN as int <= by
    &&& by + tile_size.y as int <= i64::MAX as int
}

/// One corner of a tile's quad.
pub open spec fn tile_corner(
    tile_size: UVec2,
    origin: IVec3,
    t: ExtractedTile,
    right: bool,
    bottom: bool,
) -> TilemapVertex {
    TilemapVertex {
        position_x: ((origin.x as int + t.pos.x as int) * (tile_size.x as int) + if right {
            tile_size.x as int
        } else {
            0
        }) as i64,
        position_y: ((origin.y as int + t.pos.y as int) * (tile_size.y as int) + if bottom {
            tile_size.y as int
        } else {
            0
        }) as i64,
        position_z: origin.z,
        uv_x: t.rect.min.x,
        uv_y: t.rect.min.y,
        tile_uv_x: corner_u(t, right),
        tile_uv_y: corner_v(t, bottom),
        color: packed_color(t.color),
    }
}

/// The quad a tile emits: four corners in a fixed winding (top-left,
/// top-right, bottom-right, bottom-left), or nothing if the tile is skipped.
pub open spec fn tile_quad(tile_size: UVec2, origin: IVec3, t: ExtractedTile) -> Seq<
    TilemapVertex,
> {
    if tile_skipped(t) {
        Seq::empty()
    } else {
        seq![
            tile_corner(tile_size, origin, t, false, false),
            tile_corner(tile_size, origin, t, true, false),
            tile_corner(tile_size, origin, t, true, true),
            tile_corner(tile_size, origin, t, false, true),
        ]
    }
}

/// The vertex stream of a tile list: each tile's quad, in tile order.
pub open spec fn tiles_vertices(tile_size: UVec2, origin: IVec3, tiles: Seq<ExtractedTile>) -> Seq<
    TilemapVertex,
>
    decreases tiles.len(),
{
    if tiles.len() == 0 {
        Seq::empty()
    } else {
        tiles_vertices(tile_size, origin, tiles.drop_last()) + tile_quad(
            tile_size,
            origin,
            tiles.last(),
        )
    }
}

/// The full vertex buffer content of one chunk.
pub open spec fn chunk_vertices(tile_size: UVec2, c: ExtractedChunk) -> Seq<TilemapVertex> {
    tiles_vertices(tile_size, c.origin, c.tiles@)
}

/// The uniform record the builder emits for a chunk of tilemap `t`: the
/// tilemap's transform, its tile size, and its atlas (texture) size.
pub open spec fn gpu_record(t: ExtractedTilemap) -> TilemapGpuData {
    TilemapGpuData { transform: t.transform, tile_size: t.tile_size, texture_size: t.atlas_size }
}

/// Build the packed vertex stream for one chunk: a quad per tile, in tile
/// emission order (which fixes draw order within the chunk), with hidden and
/// zero-area tiles contributing nothing.
pub fn build_chunk_vertices(tile_size: UVec2, chunk: &ExtractedChunk) -> (verts: Vec<
    TilemapVertex,
>)
    requires
        forall|k: int|
            0 <= k < chunk.tiles@.len() ==> tile_fits(
                tile_size,
                chunk.origin,
                #[trigger] chunk.tiles@[k],
            ),
    ensures
        verts@ == chunk_vertices(tile_size, *chunk),
{
    let mut verts: Vec<TilemapVertex> = Vec::new();
    let mut i: usize = 0;
    while i < chunk.tiles.len()
        invariant
            i <= chunk.tiles@.len(),
            forall|k: int|
                0 <= k < chunk.tiles@.len() ==> tile_fits(
                    tile_size,
                    chunk.origin,
                    #[trigger] chunk.tiles@[k],
                ),
            verts@ == tiles_vertices(tile_size, chunk.origin, chunk.tiles@.take(i as int)),
        decreases chunk.tiles@.len() - i,
    {
        let t = chunk.tiles[i];
        let hidden = t.flags.contains(TILE_HIDDEN);
        let degenerate = t.rect.max.x <= t.rect.min.x || t.rect.max.y <= t.rect.min.y;
        if !hidden && !degenerate {
            proof {
                assert(tile_fits(tile_size, chunk.origin, chunk.tiles@[i as int]));
            }
            let gx: i64 = chunk.origin.x as i64 + t.pos.x as i64;
            let gy: i64 = chunk.origin.y as i64 + t.pos.y as i64;
            let tsx: i64 = tile_size.x as i64;
            let tsy: i64 = tile_size.y as i64;
            let x0: i64 = gx * tsx;
            let x1: i64 = x0 + tsx;
            let y0: i64 = gy * tsy;
            let y1: i64 = y0 + tsy;
            let w: u32 = t.rect.max.x - t.rect.min.x;
            let h: u32 = t.rect.max.y - t.rect.min.y;
            let flip_x = t.flags.contains(TILE_FLIP_X);
            let flip_y = t.flags.contains(TILE_FLIP_Y);
            let u_left: u32 = if flip_x { w } else { 0 };
            let u_right: u32 = if flip_x { 0 } else { w };
            let v_top: u32 = if flip_y { h } else { 0 };
            let v_bottom: u32 = if flip_y { 0 } else { h };
            let color: u32 = pack_color(t.color);
            let z: i32 = chunk.origin.z;
            verts.push(
                TilemapVertex {
                    position_x: x0,
                    position_y: y0,
                    position_z: z,
                    uv_x: t.rect.min.x,
                    uv_y: t.rect.min.y,
                    tile_uv_x: u_left,
                    tile_uv_y: v_top,
                    color,
                },
            );
            verts.push(
                TilemapVertex {
                    position_x: x1,
                    position_y: y0,
                    position_z: z,
                    uv_x: t.rect.min.x,
                    uv_y: t.rect.min.y,
                    tile_uv_x: u_right,
                    tile_uv_y: v_top,
                    color,
                },
            );
            verts.push(
                TilemapVertex {
                    position_x: x1,
                    position_y: y1,
                    position_z: z,
                    uv_x: t.rect.min.x,
                    uv_y: t.rect.min.y,
                    tile_uv_x: u_right,
                    tile_uv_y: v_bottom,
                    color,
                },
            );
            verts.push(
                TilemapVertex {
                    position_x: x0,
                    position_y: y1,
                    position_z: z,
                    uv_x: t.rect.min.x,
                    uv_y: t.rect.min.y,
                    tile_uv_x: u_left,
                    tile_uv_y: v_bottom,
                    color,
                },
            );
        }
        proof {
            assert(chunk.tiles@.take(i as int + 1).drop_last() =~= chunk.tiles@.take(i as int));
            assert(chunk.tiles@.take(i as int + 1).last() == chunk.tiles@[i as int]);
            assert(verts@ =~= tiles_vertices(
                tile_size,
                chunk.origin,
                chunk.tiles@.take(i as int + 1),
            ));
        }
        i = i + 1;
    }
    proof {
        assert(chunk.tiles@.take(chunk.tiles@.len() as int) =~= chunk.tiles@);
    }
    verts
}

} // verus!
