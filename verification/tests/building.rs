use tilemap_render::{
    build_chunk_vertices, pack_color, Color, ExtractedChunk, ExtractedTile, IVec2, IVec3, Rect,
    TileFlags, UVec2, TILE_FLIP_X, TILE_FLIP_Y, TILE_HIDDEN,
};

fn rect16() -> Rect {
    Rect { min: UVec2 { x: 32, y: 48 }, max: UVec2 { x: 48, y: 64 } }
}

fn red() -> Color {
    Color { r: 255, g: 0, b: 0, a: 255 }
}

fn tile_at(x: i32, y: i32, flags: u32) -> ExtractedTile {
    ExtractedTile {
        pos: IVec2 { x, y },
        rect: rect16(),
        color: red(),
        flags: TileFlags { bits: flags },
    }
}

fn chunk_of(tiles: Vec<ExtractedTile>) -> ExtractedChunk {
    ExtractedChunk { origin: IVec3 { x: 0, y: 0, z: 5 }, tiles, last_change_at: 1 }
}

#[test]
fn pack_color_encodes_channels() {
    let c = Color { r: 1, g: 2, b: 3, a: 4 };
    assert_eq!(pack_color(c), 1 + 2 * 0x100 + 3 * 0x10000 + 4 * 0x1000000);
    assert_eq!(pack_color(red()), 255 + 255 * 0x1000000);
    assert_eq!(pack_color(Color { r: 255, g: 255, b: 255, a: 255 }), u32::MAX);
}

#[test]
fn quad_positions_follow_origin_and_tile_size() {
    let ts = UVec2 { x: 16, y: 16 };
    let chunk = ExtractedChunk {
        origin: IVec3 { x: 10, y: -3, z: 5 },
        tiles: vec![tile_at(2, 1, 0)],
        last_change_at: 1,
    };
    let verts = build_chunk_vertices(ts, &chunk);
    assert_eq!(verts.len(), 4);
    // grid position (10 + 2, -3 + 1) scaled by 16, corners one tile apart
    let xs: Vec<i64> = verts.iter().map(|v| v.position_x).collect();
    let ys: Vec<i64> = verts.iter().map(|v| v.position_y).collect();
    assert_eq!(xs, vec![192, 208, 208, 192]);
    assert_eq!(ys, vec![-32, -32, -16, -16]);
    for v in &verts {
        assert_eq!(v.position_z, 5);
        assert_eq!(v.uv_x, 32);
        assert_eq!(v.uv_y, 48);
        assert_eq!(v.color, pack_color(red()));
    }
    let tile_uvs: Vec<(u32, u32)> = verts.iter().map(|v| (v.tile_uv_x, v.tile_uv_y)).collect();
    assert_eq!(tile_uvs, vec![(0, 0), (16, 0), (16, 16), (0, 16)]);
}

#[test]
fn hidden_tile_contributes_no_vertices() {
    let ts = UVec2 { x: 16, y: 16 };
    let chunk = chunk_of(vec![tile_at(0, 0, TILE_HIDDEN), tile_at(1, 0, 0)]);
    let verts = build_chunk_vertices(ts, &chunk);
    assert_eq!(verts.len(), 4);
    assert_eq!(verts[0].position_x, 16);
}

#[test]
fn zero_area_rect_contributes_no_vertices() {
    let ts = UVec2 { x: 16, y: 16 };
    let mut t = tile_at(0, 0, 0);
    t.rect = Rect { min: UVec2 { x: 8, y: 8 }, max: UVec2 { x: 8, y: 24 } };
    let verts = build_chunk_vertices(ts, &chunk_of(vec![t]));
    assert_eq!(verts.len(), 0);
}

#[test]
fn flip_x_swaps_horizontal_uv_offsets() {
    let ts = UVec2 { x: 16, y: 16 };
    let verts = build_chunk_vertices(ts, &chunk_of(vec![tile_at(0, 0, TILE_FLIP_X)]));
    let tile_uvs: Vec<(u32, u32)> = verts.iter().map(|v| (v.tile_uv_x, v.tile_uv_y)).collect();
    assert_eq!(tile_uvs, vec![(16, 0), (0, 0), (0, 16), (16, 16)]);
    // geometry is unchanged by flips
    assert_eq!(verts[0].position_x, 0);
    assert_eq!(verts[1].position_x, 16);
}

#[test]
fn flip_y_swaps_vertical_uv_offsets() {
    let ts = UVec2 { x: 16, y: 16 };
    let verts = build_chunk_vertices(ts, &chunk_of(vec![tile_at(0, 0, TILE_FLIP_Y)]));
    let tile_uvs: Vec<(u32, u32)> = verts.iter().map(|v| (v.tile_uv_x, v.tile_uv_y)).collect();
    assert_eq!(tile_uvs, vec![(0, 16), (16, 16), (16, 0), (0, 0)]);
}

#[test]
fn empty_chunk_builds_empty_buffer() {
    let ts = UVec2 { x: 16, y: 16 };
    let verts = build_chunk_vertices(ts, &chunk_of(vec![]));
    assert_eq!(verts.len(), 0);
}

#[test]
fn unchanged_tiles_build_identical_streams() {
    let ts = UVec2 { x: 16, y: 16 };
    let chunk = chunk_of(vec![tile_at(0, 0, 0), tile_at(3, 2, TILE_FLIP_X)]);
    let a = build_chunk_vertices(ts, &chunk);
    let b = build_chunk_vertices(ts, &chunk);
    assert_eq!(a, b);
}
