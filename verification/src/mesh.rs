use vstd::prelude::*;
use crate::tile::Rgba8;
use crate::tile::Tile;
use crate::tile::TileCoordinate;
use crate::chunk::ChunkId;
use crate::chunk::CHUNK_SIZE;
use crate::chunk::chunk_id_in_range;
use crate::cache::TextureArrayCache;
use crate::cache::ArrayTextureState;

verus! {

/// One mesh vertex: a corner of a tile quad. Positions are in tile units
/// (wide enough that no grid coordinate can overflow), `u`/`v` span the unit
/// square of the sprite, `layer` selects the array-texture layer, and the
/// color tints the sprite.
#[derive(Clone, Copy, PartialEq, Eq, Structural, Debug)]
pub struct Vertex {
    pub x: i64,
    pub y: i64,
    pub u: u8,
    pub v: u8,
    pub layer: u32,
    pub color: Rgba8,
}

/// Geometry of one chunk: a vertex buffer and a triangle index buffer.
#[derive(Clone, PartialEq, Eq, Debug)]
pub struct ChunkMesh {
    pub vertices: Vec<Vertex>,
    pub indices: Vec<u32>,
}

/// Mathematical shape of a chunk mesh.
pub struct ChunkMeshView {
    pub vertices: Seq<Vertex>,
    pub indices: Seq<u32>,
}

impl View for ChunkMesh {
    type V = ChunkMeshView;

    open spec fn view(&self) -> ChunkMeshView {
        ChunkMeshView { vertices: self.vertices@, indices: self.indices@ }
    }
}

impl ChunkMesh {
    /// A mesh with no geometry.
    pub fn empty() -> (m: ChunkMesh)
        ensures
            m@.vertices == Seq::<Vertex>::empty(),
            m@.indices == Seq::<u32>::empty(),
    {
        ChunkMesh { vertices: Vec::new(), indices: Vec::new() }
    }
}

/// Why a rebuild could not run. The chunk stays dirty and is retried once
/// the backing atlas reaches `Populated`.
#[derive(Clone, Copy, PartialEq, Eq, Structural, Debug)]
pub enum RemeshError {
    TextureNotReady,
}

/// Cell `k` of a chunk, in the fixed row-major walk the remesher uses:
/// `k % CHUNK_SIZE` across, `k / CHUNK_SIZE` down.
pub open spec fn cell_coord(id: ChunkId, k: int) -> TileCoordinate {
    TileCoordinate {
        x: (id.x as int * CHUNK_SIZE as int + k % (CHUNK_SIZE as int)) as i32,
        y: (id.y as int * CHUNK_SIZE as int + k / (CHUNK_SIZE as int)) as i32,
        layer: id.layer,
    }
}

/// The four corners of the quad for the tile at `c`, in fixed winding:
/// bottom-left, bottom-right, top-right, top-left.
pub open spec fn quad_vertices(c: TileCoordinate, t: Tile) -> Seq<Vertex> {
    seq![
        Vertex { x: c.x as i64, y: c.y as i64, u: 0, v: 0,
                 layer: t.sprite_index, color: t.color },
        Vertex { x: (c.x + 1) as i64, y: c.y as i64, u: 1, v: 0,
                 layer: t.sprite_index, color: t.color },
        Vertex { x: (c.x + 1) as i64, y: (c.y + 1) as i64, u: 1, v: 1,
                 layer: t.sprite_index, color: t.color },
        Vertex { x: c.x as i64, y: (c.y + 1) as i64, u: 0, v: 1,
                 layer: t.sprite_index, color: t.color },
    ]
}

/// The six indices of the two triangles of quad number `q`, with consistent
/// winding.
pub open spec fn quad_indices(q: int) -> Seq<u32> {
    seq![
        (4 * q) as u32, (4 * q + 1) as u32, (4 * q + 2) as u32,
        (4 * q) as u32, (4 * q + 2) as u32, (4 * q + 3) as u32,
    ]
}

/// Vertices of the first `n` cells of the chunk: one quad per occupied cell,
/// in the fixed cell walk.
pub open spec fn mesh_vertices(m: Map<TileCoordinate, Tile>, id: ChunkId, n: int) -> Seq<Vertex>
    decreases n,
{
    if n <= 0 {
        Seq::empty()
    } else {
        let c = cell_coord(id, n - 1);
        mesh_vertices(m, id, n - 1) + if m.contains_key(c) {
            quad_vertices(c, m[c])
        } else {
            Seq::empty()
        }
    }
}

/// Number of occupied cells among the first `n` cells of the chunk.
pub open spec fn quad_count(m: Map<TileCoordinate, Tile>, id: ChunkId, n: int) -> int
    decreases n,
{
    if n <= 0 {
        0
    } else {
        quad_count(m, id, n - 1) + if m.contains_key(cell_coord(id, n - 1)) {
            1int
        } else {
            0int
        }
    }
}

/// Indices of the first `n` cells of the chunk.
pub open spec fn mesh_indices(m: Map<TileCoordinate, Tile>, id: ChunkId, n: int) -> Seq<u32>
    decreases n,
{
    if n <= 0 {
        Seq::empty()
    } else {
        mesh_indices(m, id, n - 1) + if m.contains_key(cell_coord(id, n - 1)) {
            quad_indices(quad_count(m, id, n - 1))
        } else {
            Seq::empty()
        }
    }
}

/// The whole mesh of a chunk under grid contents `m`: a pure function of the
/// grid state, which is what makes rebuilds deterministic.
pub open spec fn spec_mesh(m: Map<TileCoordinate, Tile>, id: ChunkId) -> ChunkMeshView {
    ChunkMeshView {
        vertices: mesh_vertices(m, id, (CHUNK_SIZE * CHUNK_SIZE) as int),
        indices: mesh_indices(m, id, (CHUNK_SIZE * CHUNK_SIZE) as int),
    }
}

/// Law: a chunk's mesh is a pure function of the grid contents and the
/// chunk id, so two rebuilds of an unchanged chunk against a populated
/// cache produce identical output.
pub proof fn lemma_rebuild_deterministic(
    m: Map<TileCoordinate, Tile>,
    id: ChunkId,
    r1: ChunkMeshView,
    r2: ChunkMeshView,
)
    requires
        r1.vertices == spec_mesh(m, id).vertices,
        r1.indices == spec_mesh(m, id).indices,
        r2.vertices == spec_mesh(m, id).vertices,
        r2.indices == spec_mesh(m, id).indices,
    ensures
        r1.vertices == r2.vertices,
        r1.indices == r2.indices,
{
}

/// Regenerates the mesh of chunk `id` from scratch: walks the chunk's cells
/// in a fixed row-major order, emits one quad per occupied cell addressing
/// the tile's sprite layer, and fails wholesale with `TextureNotReady`
/// while the backing atlas is not yet populated -- the chunk then stays
/// dirty and is retried later, never partially meshed.
pub fn rebuild(
    id: ChunkId,
    atlas_id: u64,
    grid: &crate::grid::TileGrid,
    cache: &TextureArrayCache,
) -> (r: Result<ChunkMesh, RemeshError>)
    requires
        grid.wf(),
        cache.wf(),
        chunk_id_in_range(id),
    ensures
        match r {
            Ok(mesh) => cache@.contains_key(atlas_id)
                && cache@[atlas_id].state == ArrayTextureState::Populated
                && mesh@.vertices == spec_mesh(grid@, id).vertices
                && mesh@.indices == spec_mesh(grid@, id).indices,
            Err(e) => e == RemeshError::TextureNotReady
                && !(cache@.contains_key(atlas_id)
                    && cache@[atlas_id].state == ArrayTextureState::Populated),
        },
{
    if !cache.contains(atlas_id) {
        return Err(RemeshError::TextureNotReady);
    }
    let total: usize = (CHUNK_SIZE * CHUNK_SIZE) as usize;
    let mut vertices: Vec<Vertex> = Vec::new();
    let mut indices: Vec<u32> = Vec::new();
    let mut k: usize = 0;
    while k < total
        invariant
            k <= total,
            total == CHUNK_SIZE * CHUNK_SIZE,
            chunk_id_in_range(id),
            grid.wf(),
            vertices@ == mesh_vertices(grid@, id, k as int),
            indices@ == mesh_indices(grid@, id, k as int),
            vertices@.len() == 4 * quad_count(grid@, id, k as int),
        decreases total - k,
    {
        proof {
            lemma_mesh_counts(grid@, id, k as int);
        }
        let dx = (k as u32) % CHUNK_SIZE;
        let dy = (k as u32) / CHUNK_SIZE;
        let cx64: i64 = (id.x as i64) * (CHUNK_SIZE as i64) + (dx as i64);
        let cy64: i64 = (id.y as i64) * (CHUNK_SIZE as i64) + (dy as i64);
        let c = TileCoordinate { x: cx64 as i32, y: cy64 as i32, layer: id.layer };
        proof {
            assert(dx as int == (k as int) % (CHUNK_SIZE as int));
            assert(dy as int == (k as int) / (CHUNK_SIZE as int));
            assert(-0x80000000 <= cx64 <= 0x7fffffff);
            assert(-0x80000000 <= cy64 <= 0x7fffffff);
            assert(c == cell_coord(id, k as int));
        }
        let ghost v_pre = vertices@;
        let ghost i_pre = indices@;
        match grid.get(c) {
            Some(t) => {
                let base: u32 = vertices.len() as u32;
                vertices.push(Vertex { x: cx64, y: cy64, u: 0, v: 0,
                    layer: t.sprite_index, color: t.color });
                vertices.push(Vertex { x: cx64 + 1, y: cy64, u: 1, v: 0,
                    layer: t.sprite_index, color: t.color });
                vertices.push(Vertex { x: cx64 + 1, y: cy64 + 1, u: 1, v: 1,
                    layer: t.sprite_index, color: t.color });
                vertices.push(Vertex { x: cx64, y: cy64 + 1, u: 0, v: 1,
                    layer: t.sprite_index, color: t.color });
                indices.push(base);
                indices.push(base + 1);
                indices.push(base + 2);
                indices.push(base);
                indices.push(base + 2);
                indices.push(base + 3);
                proof {
                    assert(grid@.contains_key(c) && grid@[c] == t);
                    assert(vertices@ =~= v_pre + quad_vertices(c, t));
                    assert(base as int == 4 * quad_count(grid@, id, k as int));
                    assert(indices@ =~= i_pre + quad_indices(quad_count(grid@, id, k as int)));
                    assert(mesh_vertices(grid@, id, k as int + 1)
                        == mesh_vertices(grid@, id, k as int) + quad_vertices(c, t));
                    assert(mesh_indices(grid@, id, k as int + 1)
                        == mesh_indices(grid@, id, k as int)
                            + quad_indices(quad_count(grid@, id, k as int)));
                }
            },
            None => {
                proof {
                    assert(!grid@.contains_key(c));
                    assert(mesh_vertices(grid@, id, k as int + 1)
                        =~= mesh_vertices(grid@, id, k as int));
                    assert(mesh_indices(grid@, id, k as int + 1)
                        =~= mesh_indices(grid@, id, k as int));
                }
            },
        }
        k += 1;
    }
    Ok(ChunkMesh { vertices, indices })
}

/// Whether one of the first `n` drained ids is `id`.
pub open spec fn drained_among(s: Seq<ChunkId>, n: int, id: ChunkId) -> bool {
    exists|j: int| 0 <= j < n && s[j] == id
}

/// Whether a pass over the first `n` drained ids leaves the chunk under
/// `id` untouched: it was not drained, or it cannot be rebuilt at all.
pub open spec fn untouched_by_pass(s: Seq<ChunkId>, n: int, id: ChunkId) -> bool {
    !(drained_among(s, n, id) && chunk_id_in_range(id))
}

/// Decides `chunk_id_in_range`.
pub fn is_chunk_id_in_range(id: ChunkId) -> (b: bool)
    ensures
        b == chunk_id_in_range(id),
{
    -0x4000000 <= id.x && id.x < 0x4000000 && -0x4000000 <= id.y && id.y < 0x4000000
}

/// One remesh pass: consumes the dirty set and rebuilds each drained chunk
/// against the current grid, storing the fresh mesh. While the backing
/// atlas is not populated the dirty set is left untouched, so every chunk
/// is retried later; a drained id outside the representable chunk range is
/// put back as well. Returns how many chunks were rebuilt.
#[verifier::rlimit(50)]
#[verifier::spinoff_prover]
pub fn remesh_pass(
    grid: &crate::grid::TileGrid,
    mgr: &mut crate::chunk::ChunkManager,
    cache: &TextureArrayCache,
    atlas_id: u64,
) -> (rebuilt: usize)
    requires
        grid.wf(),
        cache.wf(),
        old(mgr).wf(),
    ensures
        final(mgr).wf(),
        !(cache@.contains_key(atlas_id)
            && cache@[atlas_id].state == ArrayTextureState::Populated) ==> {
            &&& final(mgr)@.dirty == old(mgr)@.dirty
            &&& final(mgr)@.chunks == old(mgr)@.chunks
            &&& rebuilt == 0
        },
        cache@.contains_key(atlas_id)
            && cache@[atlas_id].state == ArrayTextureState::Populated ==> {
            &&& forall|id: ChunkId| old(mgr)@.dirty.contains(id) && chunk_id_in_range(id)
                ==> final(mgr)@.chunks.contains_key(id)
                    && (#[trigger] final(mgr)@.chunks[id])@.vertices
                        == spec_mesh(grid@, id).vertices
                    && final(mgr)@.chunks[id]@.indices == spec_mesh(grid@, id).indices
            &&& final(mgr)@.dirty == Set::new(|id: ChunkId|
                old(mgr)@.dirty.contains(id) && !chunk_id_in_range(id))
        },
{
    if !cache.contains(atlas_id) {
        return 0;
    }
    let drained = mgr.drain_dirty();
    let ghost ds = drained@;
    let ghost d0 = old(mgr)@.dirty;
    let ghost c0 = old(mgr)@.chunks;
    let n = drained.len();
    let mut rebuilt: usize = 0;
    let mut i: usize = 0;
    proof {
        assert(mgr@.dirty =~= Set::new(|id: ChunkId|
            drained_among(ds, 0, id) && !chunk_id_in_range(id)));
    }
    while i < n
        invariant
            i <= n,
            n == ds.len(),
            drained@ == ds,
            ds.to_set() == d0,
            grid.wf(),
            cache.wf(),
            mgr.wf(),
            rebuilt <= i,
            cache@.contains_key(atlas_id),
            cache@[atlas_id].state == ArrayTextureState::Populated,
            forall|id: ChunkId| #[trigger] drained_among(ds, i as int, id)
                && chunk_id_in_range(id)
                ==> mgr@.chunks.contains_key(id)
                    && mgr@.chunks[id]@.vertices == spec_mesh(grid@, id).vertices
                    && mgr@.chunks[id]@.indices == spec_mesh(grid@, id).indices,
            forall|id: ChunkId| #[trigger] untouched_by_pass(ds, i as int, id)
                ==> {
                    &&& mgr@.chunks.contains_key(id) == c0.contains_key(id)
                    &&& c0.contains_key(id) ==> mgr@.chunks[id] == c0[id]
                },
            mgr@.dirty == Set::new(|id: ChunkId|
                drained_among(ds, i as int, id) && !chunk_id_in_range(id)),
        decreases n - i,
    {
        let ghost pre = mgr@;
        let id = drained[i];
        if is_chunk_id_in_range(id) {
            match rebuild(id, atlas_id, grid, cache) {
                Ok(mesh) => {
                    mgr.install_mesh(id, mesh);
                    rebuilt += 1;
                },
                Err(_) => {
                    mgr.mark_dirty(id);
                },
            }
        } else {
            mgr.mark_dirty(id);
        }
        proof {
            assert forall|x: ChunkId| drained_among(ds, i as int + 1, x)
                implies drained_among(ds, i as int, x) || x == ds[i as int] by {
                let j = choose|j: int| 0 <= j < i + 1 && ds[j] == x;
            }
            assert(drained_among(ds, i as int + 1, ds[i as int]));
            assert(mgr@.dirty =~= Set::new(|x: ChunkId|
                drained_among(ds, i as int + 1, x) && !chunk_id_in_range(x)));
            assert forall|x: ChunkId| #[trigger] drained_among(ds, i as int + 1, x)
                && chunk_id_in_range(x)
                implies mgr@.chunks.contains_key(x)
                    && mgr@.chunks[x]@.vertices == spec_mesh(grid@, x).vertices
                    && mgr@.chunks[x]@.indices == spec_mesh(grid@, x).indices by {
                if drained_among(ds, i as int, x) {
                    assert(pre.chunks.contains_key(x)
                        && pre.chunks[x]@.vertices == spec_mesh(grid@, x).vertices
                        && pre.chunks[x]@.indices == spec_mesh(grid@, x).indices);
                } else {
                    assert(x == ds[i as int]);
                }
            }
            assert forall|x: ChunkId| #[trigger] untouched_by_pass(ds, i as int + 1, x)
                implies mgr@.chunks.contains_key(x) == c0.contains_key(x)
                    && (c0.contains_key(x) ==> mgr@.chunks[x] == c0[x]) by {
                if drained_among(ds, i as int, x) && chunk_id_in_range(x) {
                    let j = choose|j: int| 0 <= j < i && ds[j] == x;
                    assert(0 <= j < i + 1 && ds[j] == x);
                    assert(drained_among(ds, i as int + 1, x));
                }
                assert(untouched_by_pass(ds, i as int, x));
                assert(x != ds[i as int] || !chunk_id_in_range(x));
            }
        }
        i += 1;
    }
    proof {
        assert forall|x: ChunkId| d0.contains(x)
            implies drained_among(ds, n as int, x) by {
            assert(ds.to_set().contains(x));
            let j = choose|j: int| 0 <= j < ds.len() && ds[j] == x;
        }
        assert forall|x: ChunkId| drained_among(ds, n as int, x)
            implies d0.contains(x) by {
            let j = choose|j: int| 0 <= j < n && ds[j] == x;
            assert(ds.to_set().contains(x));
        }
        assert(mgr@.dirty =~= Set::new(|id: ChunkId|
            d0.contains(id) && !chunk_id_in_range(id)));
        assert(mgr@.dirty =~= Set::new(|id: ChunkId|
            old(mgr)@.dirty.contains(id) && !chunk_id_in_range(id)));
        assert forall|id: ChunkId| d0.contains(id) && chunk_id_in_range(id)
            implies mgr@.chunks.contains_key(id)
                && mgr@.chunks[id]@.vertices == spec_mesh(grid@, id).vertices
                && mgr@.chunks[id]@.indices == spec_mesh(grid@, id).indices by {
            assert(drained_among(ds, n as int, id));
        }

    }
    rebuilt
}

/// The vertex count is always four per occupied cell.
pub proof fn lemma_mesh_counts(m: Map<TileCoordinate, Tile>, id: ChunkId, n: int)
    requires
        n >= 0,
    ensures
        mesh_vertices(m, id, n).len() == 4 * quad_count(m, id, n),
        mesh_indices(m, id, n).len() == 6 * quad_count(m, id, n),
        0 <= quad_count(m, id, n) <= n,
    decreases n,
{
    if n > 0 {
        lemma_mesh_counts(m, id, n - 1);
    }
}

} // verus!
