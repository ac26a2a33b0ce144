use simple_tilemap::atlas::AtlasDescriptor;
use simple_tilemap::atlas::FilterMode;
use simple_tilemap::atlas::layer_count;
use simple_tilemap::atlas::is_valid_geometry;
use simple_tilemap::cache::ArrayTextureHandle;
use simple_tilemap::cache::CacheError;
use simple_tilemap::cache::TextureArrayCache;

fn atlas_64x16() -> AtlasDescriptor {
    AtlasDescriptor {
        tile_width: 16,
        tile_height: 16,
        texture_width: 64,
        texture_height: 16,
        padding_x: 0,
        padding_y: 0,
        filter: FilterMode::Nearest,
    }
}

#[test]
fn invalid_geometry_rejected_at_register() {
    let mut cache = TextureArrayCache::new();
    // 60 is not divisible by 16: malformed on the x axis
    let bad = AtlasDescriptor { texture_width: 60, ..atlas_64x16() };
    assert!(!is_valid_geometry(&bad));
    assert_eq!(cache.add(7, bad), Err(CacheError::InvalidAtlasGeometry));
    // nothing was registered
    assert_eq!(cache.get(7), Err(CacheError::UnknownAtlas));
}

#[test]
fn zero_tile_size_rejected() {
    let mut cache = TextureArrayCache::new();
    let bad = AtlasDescriptor { tile_width: 0, ..atlas_64x16() };
    assert_eq!(cache.add(1, bad), Err(CacheError::InvalidAtlasGeometry));
}

#[test]
fn padded_geometry_rejected_when_not_divisible() {
    // (64 + 2) is not divisible by (16 + 2)
    let bad = AtlasDescriptor { padding_x: 2, ..atlas_64x16() };
    assert!(!is_valid_geometry(&bad));
    let mut cache = TextureArrayCache::new();
    assert_eq!(cache.add(3, bad), Err(CacheError::InvalidAtlasGeometry));
}

#[test]
fn layer_count_64x16_is_4() {
    assert_eq!(layer_count(&atlas_64x16()), 4);
}

#[test]
fn layer_count_with_padding() {
    // (66 + 2) / (16 + 2)  is not integral; use a clean padded layout:
    // texture 52x52, tiles 16x16, padding 2: (52 + 2) / (16 + 2) = 3 per axis
    let d = AtlasDescriptor {
        tile_width: 16,
        tile_height: 16,
        texture_width: 52,
        texture_height: 52,
        padding_x: 2,
        padding_y: 2,
        filter: FilterMode::Linear,
    };
    assert!(is_valid_geometry(&d));
    assert_eq!(layer_count(&d), 9);
}

#[test]
fn get_fails_until_populated_then_returns_handle() {
    let mut cache = TextureArrayCache::new();
    assert_eq!(cache.get(5), Err(CacheError::UnknownAtlas));
    assert_eq!(cache.add(5, atlas_64x16()), Ok(()));
    assert_eq!(cache.get(5), Err(CacheError::NotReady));
    assert!(!cache.contains(5));

    let allocations = cache.prepare();
    assert_eq!(allocations.len(), 1);
    assert_eq!(allocations[0].atlas_id, 5);
    assert_eq!(allocations[0].tile_width, 16);
    assert_eq!(allocations[0].tile_height, 16);
    assert_eq!(allocations[0].layer_count, 4);
    // allocated but not yet populated
    assert_eq!(cache.get(5), Err(CacheError::NotReady));

    // image not loaded yet: stays allocated, retried later, no copies
    let copies = cache.queue(&vec![]);
    assert!(copies.is_empty());
    assert_eq!(cache.get(5), Err(CacheError::NotReady));

    // image arrives: populated
    let copies = cache.queue(&vec![5]);
    assert_eq!(copies.len(), 4);
    assert!(cache.contains(5));
    assert_eq!(
        cache.get(5),
        Ok(ArrayTextureHandle { atlas_id: 5, layer_count: 4, filter: FilterMode::Nearest })
    );
}

#[test]
fn register_is_idempotent_first_wins() {
    let mut cache = TextureArrayCache::new();
    assert_eq!(cache.add(9, atlas_64x16()), Ok(()));
    // later registration with different (even malformed) geometry: silent no-op
    let other = AtlasDescriptor { texture_width: 60, ..atlas_64x16() };
    assert_eq!(cache.add(9, other), Ok(()));
    let allocations = cache.prepare();
    assert_eq!(allocations.len(), 1);
    assert_eq!(allocations[0].layer_count, 4);
}

#[test]
fn queue_emits_row_major_copy_origins() {
    let mut cache = TextureArrayCache::new();
    assert_eq!(cache.add(2, atlas_64x16()), Ok(()));
    cache.prepare();
    let mut copies = cache.queue(&vec![2]);
    copies.sort_by_key(|c| c.dst_layer);
    let origins: Vec<(u32, u32, u32)> =
        copies.iter().map(|c| (c.dst_layer, c.src_x, c.src_y)).collect();
    assert_eq!(origins, vec![(0, 0, 0), (1, 16, 0), (2, 32, 0), (3, 48, 0)]);
    for c in &copies {
        assert_eq!(c.atlas_id, 2);
        assert_eq!(c.width, 16);
        assert_eq!(c.height, 16);
    }
}

#[test]
fn queue_two_rows_copy_origins() {
    // 32x32 texture of 16x16 tiles: layers 0..3 in two rows
    let d = AtlasDescriptor {
        tile_width: 16,
        tile_height: 16,
        texture_width: 32,
        texture_height: 32,
        padding_x: 0,
        padding_y: 0,
        filter: FilterMode::Nearest,
    };
    let mut cache = TextureArrayCache::new();
    assert_eq!(cache.add(1, d), Ok(()));
    cache.prepare();
    let mut copies = cache.queue(&vec![1]);
    copies.sort_by_key(|c| c.dst_layer);
    let origins: Vec<(u32, u32, u32)> =
        copies.iter().map(|c| (c.dst_layer, c.src_x, c.src_y)).collect();
    assert_eq!(origins, vec![(0, 0, 0), (1, 16, 0), (2, 0, 16), (3, 16, 16)]);
}

#[test]
fn retry_does_not_duplicate_allocations() {
    let mut cache = TextureArrayCache::new();
    assert_eq!(cache.add(4, atlas_64x16()), Ok(()));
    assert_eq!(cache.prepare().len(), 1);
    // nothing left to allocate on the next pass
    assert!(cache.prepare().is_empty());
    // image missing: no copies, and the atlas is not re-allocated
    assert!(cache.queue(&vec![]).is_empty());
    assert!(cache.prepare().is_empty());
    // image present on a later pass: populated exactly once
    assert_eq!(cache.queue(&vec![4]).len(), 4);
    assert!(cache.queue(&vec![4]).is_empty());
}
