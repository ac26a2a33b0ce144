use simple_tilemap::chunk::ChunkId;
use simple_tilemap::chunk::ChunkManager;
use simple_tilemap::chunk::chunk_id_of;
use simple_tilemap::grid::TileGrid;
use simple_tilemap::tile::Rgba8;
use simple_tilemap::tile::Tile;
use simple_tilemap::tile::TileCoordinate;

fn coord(x: i32, y: i32, layer: i32) -> TileCoordinate {
    TileCoordinate { x, y, layer }
}

fn tile(sprite_index: u32) -> Tile {
    Tile { sprite_index, color: Rgba8 { r: 255, g: 255, b: 255, a: 255 } }
}

#[test]
fn coordinate_to_chunk_uses_floor_division() {
    assert_eq!(chunk_id_of(coord(0, 0, 0)), ChunkId { x: 0, y: 0, layer: 0 });
    assert_eq!(chunk_id_of(coord(31, 31, 2)), ChunkId { x: 0, y: 0, layer: 2 });
    assert_eq!(chunk_id_of(coord(32, 33, 0)), ChunkId { x: 1, y: 1, layer: 0 });
    assert_eq!(chunk_id_of(coord(-1, -32, 0)), ChunkId { x: -1, y: -1, layer: 0 });
    assert_eq!(chunk_id_of(coord(-33, 64, 1)), ChunkId { x: -2, y: 2, layer: 1 });
    assert_eq!(
        chunk_id_of(coord(i32::MIN, i32::MAX, 0)),
        ChunkId { x: -0x4000000, y: 0x4000000 - 1, layer: 0 }
    );
}

#[test]
fn set_tiles_upserts_clears_and_dirties_both_chunks() {
    let mut grid = TileGrid::new();
    let mut mgr = ChunkManager::new();
    let c1 = coord(1, 2, 0);
    let c2 = coord(40, 2, 0); // a different chunk on the x axis
    let t1 = tile(7);
    grid.set_tiles(&vec![(c1, Some(t1)), (c2, None)], &mut mgr);
    assert_eq!(grid.get(c1), Some(t1));
    assert_eq!(grid.get(c2), None);
    let drained = mgr.drain_dirty();
    assert_eq!(drained.len(), 2);
    assert!(drained.contains(&chunk_id_of(c1)));
    assert!(drained.contains(&chunk_id_of(c2)));
}

#[test]
fn set_tiles_later_entry_wins() {
    let mut grid = TileGrid::new();
    let mut mgr = ChunkManager::new();
    let c = coord(3, 3, 1);
    grid.set_tiles(&vec![(c, Some(tile(1))), (c, Some(tile(2)))], &mut mgr);
    assert_eq!(grid.get(c), Some(tile(2)));
    grid.set_tiles(&vec![(c, Some(tile(3))), (c, None)], &mut mgr);
    assert_eq!(grid.get(c), None);
}

#[test]
fn clear_layer_removes_only_that_layer_and_dirties_its_chunks() {
    let mut grid = TileGrid::new();
    let mut mgr = ChunkManager::new();
    let on_l1_a = coord(0, 0, 1);
    let on_l1_b = coord(100, 0, 1); // chunk (3, 0, 1)
    let on_l2 = coord(0, 0, 2);
    grid.set_tiles(
        &vec![(on_l1_a, Some(tile(1))), (on_l1_b, Some(tile(2))), (on_l2, Some(tile(3)))],
        &mut mgr,
    );
    mgr.drain_dirty(); // start from a clean dirty set

    grid.clear_layer(1, &mut mgr);
    assert_eq!(grid.get(on_l1_a), None);
    assert_eq!(grid.get(on_l1_b), None);
    assert_eq!(grid.get(on_l2), Some(tile(3)));

    let drained = mgr.drain_dirty();
    assert_eq!(drained.len(), 2);
    assert!(drained.contains(&chunk_id_of(on_l1_a)));
    assert!(drained.contains(&chunk_id_of(on_l1_b)));
    // the chunk of the untouched layer is not re-marked
    assert!(!drained.contains(&chunk_id_of(on_l2)));
}

#[test]
fn clear_layer_on_empty_layer_dirties_nothing() {
    let mut grid = TileGrid::new();
    let mut mgr = ChunkManager::new();
    grid.set_tiles(&vec![(coord(0, 0, 0), Some(tile(1)))], &mut mgr);
    mgr.drain_dirty();
    grid.clear_layer(5, &mut mgr);
    assert!(mgr.drain_dirty().is_empty());
}

#[test]
fn drain_dirty_twice_returns_empty_second_time() {
    let mut mgr = ChunkManager::new();
    mgr.mark_dirty(ChunkId { x: 1, y: 2, layer: 0 });
    mgr.mark_dirty(ChunkId { x: 3, y: 4, layer: 1 });
    let first = mgr.drain_dirty();
    assert_eq!(first.len(), 2);
    let second = mgr.drain_dirty();
    assert!(second.is_empty());
}

#[test]
fn mark_dirty_is_idempotent() {
    let mut mgr = ChunkManager::new();
    let id = ChunkId { x: 0, y: 0, layer: 0 };
    mgr.mark_dirty(id);
    mgr.mark_dirty(id);
    assert_eq!(mgr.drain_dirty().len(), 1);
}

#[test]
fn mark_racing_drain_lands_in_exactly_one_drain() {
    let id = ChunkId { x: 2, y: 2, layer: 0 };
    // order one: the mark lands before the swap
    let mut mgr = ChunkManager::new();
    mgr.mark_dirty(id);
    let first = mgr.drain_dirty();
    let second = mgr.drain_dirty();
    assert!(first.contains(&id) && !second.contains(&id));
    // order two: the mark lands after the swap
    let mut mgr = ChunkManager::new();
    let first = mgr.drain_dirty();
    mgr.mark_dirty(id);
    let second = mgr.drain_dirty();
    assert!(!first.contains(&id) && second.contains(&id));
}

#[test]
fn get_or_create_chunk_creates_once() {
    let mut mgr = ChunkManager::new();
    let id = ChunkId { x: 0, y: 1, layer: 0 };
    assert!(mgr.chunk_mesh(id).is_none());
    assert!(!mgr.get_or_create_chunk(id));
    assert!(mgr.get_or_create_chunk(id));
    let mesh = mgr.chunk_mesh(id).unwrap();
    assert!(mesh.vertices.is_empty());
    assert!(mesh.indices.is_empty());
}
