use simple_tilemap::atlas::AtlasDescriptor;
use simple_tilemap::atlas::FilterMode;
use simple_tilemap::cache::TextureArrayCache;
use simple_tilemap::chunk::ChunkId;
use simple_tilemap::chunk::ChunkManager;
use simple_tilemap::grid::TileGrid;
use simple_tilemap::mesh::RemeshError;
use simple_tilemap::mesh::Vertex;
use simple_tilemap::mesh::rebuild;
use simple_tilemap::mesh::remesh_pass;
use simple_tilemap::tile::Rgba8;
use simple_tilemap::tile::Tile;
use simple_tilemap::tile::TileCoordinate;

fn populated_cache(atlas_id: u64) -> TextureArrayCache {
    let mut cache = TextureArrayCache::new();
    let d = AtlasDescriptor {
        tile_width: 16,
        tile_height: 16,
        texture_width: 64,
        texture_height: 16,
        padding_x: 0,
        padding_y: 0,
        filter: FilterMode::Nearest,
    };
    cache.add(atlas_id, d).unwrap();
    cache.prepare();
    cache.queue(&vec![atlas_id]);
    cache
}

#[test]
fn rebuild_fails_wholesale_while_texture_not_ready() {
    let grid = TileGrid::new();
    let mut cache = TextureArrayCache::new();
    let id = ChunkId { x: 0, y: 0, layer: 0 };
    assert_eq!(
        rebuild(id, 1, &grid, &cache).unwrap_err(),
        RemeshError::TextureNotReady
    );
    // registered and allocated is still not populated
    let d = AtlasDescriptor {
        tile_width: 16,
        tile_height: 16,
        texture_width: 64,
        texture_height: 16,
        padding_x: 0,
        padding_y: 0,
        filter: FilterMode::Nearest,
    };
    cache.add(1, d).unwrap();
    cache.prepare();
    assert_eq!(
        rebuild(id, 1, &grid, &cache).unwrap_err(),
        RemeshError::TextureNotReady
    );
}

#[test]
fn rebuild_of_empty_chunk_is_empty() {
    let grid = TileGrid::new();
    let cache = populated_cache(1);
    let mesh = rebuild(ChunkId { x: 0, y: 0, layer: 0 }, 1, &grid, &cache).unwrap();
    assert!(mesh.vertices.is_empty());
    assert!(mesh.indices.is_empty());
}

#[test]
fn rebuild_emits_one_quad_per_occupied_cell() {
    let mut grid = TileGrid::new();
    let mut mgr = ChunkManager::new();
    let color = Rgba8 { r: 10, g: 20, b: 30, a: 40 };
    let c = TileCoordinate { x: 2, y: 3, layer: 0 };
    grid.set_tiles(&vec![(c, Some(Tile { sprite_index: 3, color }))], &mut mgr);
    let cache = populated_cache(1);
    let mesh = rebuild(ChunkId { x: 0, y: 0, layer: 0 }, 1, &grid, &cache).unwrap();
    assert_eq!(
        mesh.vertices,
        vec![
            Vertex { x: 2, y: 3, u: 0, v: 0, layer: 3, color },
            Vertex { x: 3, y: 3, u: 1, v: 0, layer: 3, color },
            Vertex { x: 3, y: 4, u: 1, v: 1, layer: 3, color },
            Vertex { x: 2, y: 4, u: 0, v: 1, layer: 3, color },
        ]
    );
    assert_eq!(mesh.indices, vec![0, 1, 2, 0, 2, 3]);
}

#[test]
fn rebuild_skips_cells_of_other_chunks_and_layers() {
    let mut grid = TileGrid::new();
    let mut mgr = ChunkManager::new();
    let color = Rgba8 { r: 1, g: 2, b: 3, a: 4 };
    grid.set_tiles(
        &vec![
            (TileCoordinate { x: 0, y: 0, layer: 0 }, Some(Tile { sprite_index: 0, color })),
            (TileCoordinate { x: 40, y: 0, layer: 0 }, Some(Tile { sprite_index: 1, color })),
            (TileCoordinate { x: 1, y: 0, layer: 7 }, Some(Tile { sprite_index: 2, color })),
        ],
        &mut mgr,
    );
    let cache = populated_cache(1);
    let mesh = rebuild(ChunkId { x: 0, y: 0, layer: 0 }, 1, &grid, &cache).unwrap();
    // only the cell at (0, 0, 0) belongs to this chunk and layer
    assert_eq!(mesh.vertices.len(), 4);
    assert_eq!(mesh.vertices[0].layer, 0);
}

#[test]
fn rebuild_walks_cells_in_row_major_order() {
    let mut grid = TileGrid::new();
    let mut mgr = ChunkManager::new();
    let color = Rgba8 { r: 0, g: 0, b: 0, a: 255 };
    // inserted out of order; the walk is by row, then column
    grid.set_tiles(
        &vec![
            (TileCoordinate { x: 1, y: 1, layer: 0 }, Some(Tile { sprite_index: 9, color })),
            (TileCoordinate { x: 5, y: 0, layer: 0 }, Some(Tile { sprite_index: 8, color })),
        ],
        &mut mgr,
    );
    let cache = populated_cache(1);
    let mesh = rebuild(ChunkId { x: 0, y: 0, layer: 0 }, 1, &grid, &cache).unwrap();
    assert_eq!(mesh.vertices.len(), 8);
    // the cell in row 0 comes first
    assert_eq!(mesh.vertices[0].layer, 8);
    assert_eq!(mesh.vertices[4].layer, 9);
    assert_eq!(mesh.indices, vec![0, 1, 2, 0, 2, 3, 4, 5, 6, 4, 6, 7]);
}

#[test]
fn rebuild_is_deterministic_for_unchanged_state() {
    let mut grid = TileGrid::new();
    let mut mgr = ChunkManager::new();
    let color = Rgba8 { r: 9, g: 8, b: 7, a: 6 };
    grid.set_tiles(
        &vec![
            (TileCoordinate { x: -1, y: -1, layer: 2 }, Some(Tile { sprite_index: 1, color })),
            (TileCoordinate { x: -20, y: -9, layer: 2 }, Some(Tile { sprite_index: 2, color })),
        ],
        &mut mgr,
    );
    let cache = populated_cache(1);
    let id = ChunkId { x: -1, y: -1, layer: 2 };
    let first = rebuild(id, 1, &grid, &cache).unwrap();
    let second = rebuild(id, 1, &grid, &cache).unwrap();
    assert_eq!(first, second);
    assert_eq!(first.vertices.len(), 8);
}

#[test]
fn remesh_pass_defers_until_ready_then_consumes_dirty() {
    let mut grid = TileGrid::new();
    let mut mgr = ChunkManager::new();
    let color = Rgba8 { r: 5, g: 5, b: 5, a: 5 };
    let c = TileCoordinate { x: 7, y: 7, layer: 0 };
    grid.set_tiles(&vec![(c, Some(Tile { sprite_index: 1, color }))], &mut mgr);

    // texture not ready: nothing is rebuilt, the chunk stays dirty
    let cold = TextureArrayCache::new();
    assert_eq!(remesh_pass(&grid, &mut mgr, &cold, 1), 0);

    // texture ready: the dirty chunk is consumed and its mesh stored
    let cache = populated_cache(1);
    assert_eq!(remesh_pass(&grid, &mut mgr, &cache, 1), 1);
    let id = ChunkId { x: 0, y: 0, layer: 0 };
    assert_eq!(mgr.chunk_mesh(id).unwrap().vertices.len(), 4);
    assert!(mgr.drain_dirty().is_empty());
    // nothing left to rebuild on the next pass
    assert_eq!(remesh_pass(&grid, &mut mgr, &cache, 1), 0);
}

#[test]
fn rebuilt_mesh_installs_into_the_manager() {
    let mut grid = TileGrid::new();
    let mut mgr = ChunkManager::new();
    let color = Rgba8 { r: 1, g: 1, b: 1, a: 1 };
    let c = TileCoordinate { x: 0, y: 0, layer: 0 };
    grid.set_tiles(&vec![(c, Some(Tile { sprite_index: 0, color }))], &mut mgr);
    let cache = populated_cache(1);
    let dirty = mgr.drain_dirty();
    assert_eq!(dirty.len(), 1);
    let id = dirty[0];
    let mesh = rebuild(id, 1, &grid, &cache).unwrap();
    mgr.install_mesh(id, mesh.clone());
    assert_eq!(mgr.chunk_mesh(id).unwrap(), &mesh);
}
