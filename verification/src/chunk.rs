use vstd::prelude::*;
use crate::tile::TileCoordinate;
use crate::mesh::ChunkMesh;
use crate::mesh::Vertex;
use crate::kvmap::map_of;
use crate::kvmap::unique_keys;
use crate::kvmap::lemma_map_of_contains;
use crate::kvmap::lemma_map_of_index;
use crate::kvmap::lemma_map_of_push;
use crate::kvmap::lemma_map_of_remove;
use crate::kvmap::lemma_unique_keys_remove;

verus! {

/// Side length of a chunk, in tiles. A power of two keeps the
/// coordinate-to-chunk mapping cheap.
pub const CHUNK_SIZE: u32 = 32;

/// Identifier of one chunk: the floor-divided x/y cell position and the layer.
#[derive(Clone, Copy, PartialEq, Eq, Structural, Debug)]
pub struct ChunkId {
    pub x: i32,
    pub y: i32,
    pub layer: i32,
}

/// The chunk that owns a cell: floor(x / CHUNK_SIZE), floor(y / CHUNK_SIZE),
/// same layer. Division on `int` rounds toward negative infinity for a
/// positive divisor, so this is the intended floor division.
pub open spec fn spec_chunk_id_of(c: TileCoordinate) -> ChunkId {
    ChunkId {
        x: (c.x as int / CHUNK_SIZE as int) as i32,
        y: (c.y as int / CHUNK_SIZE as int) as i32,
        layer: c.layer,
    }
}

/// Floor division of one signed coordinate axis by `CHUNK_SIZE`, computed by
/// translating into the non-negative range so that unsigned division applies.
fn chunk_axis(v: i32) -> (r: i32)
    ensures
        r as int == v as int / CHUNK_SIZE as int,
{
    let shifted: u64 = ((v as i64) + 0x8000_0000i64) as u64;
    let q: u64 = shifted / (CHUNK_SIZE as u64);
    proof {
        let vi = v as int;
        let d = CHUNK_SIZE as int;
        vstd::arithmetic::div_mod::lemma_fundamental_div_mod(vi, d);
        assert(0 <= vi % d < d);
        assert(shifted as int == d * (vi / d + 0x4000000) + (vi % d)) by {
            assert(d * (vi / d + 0x4000000) == d * (vi / d) + 0x80000000) by (nonlinear_arith)
                requires d == 32;
        }
        vstd::arithmetic::div_mod::lemma_div_multiples_vanish_fancy(
            vi / d + 0x4000000,
            vi % d,
            d,
        );
        assert(shifted as int / d == vi / d + 0x4000000);
        assert(-0x4000000 <= vi / d < 0x4000000) by {
            assert(d * (vi / d) <= vi < d * (vi / d) + d);
            assert(vi / d < 0x4000000) by (nonlinear_arith)
                requires d * (vi / d) <= vi && vi < 0x80000000 && d == 32;
            assert(vi / d >= -0x4000000) by (nonlinear_arith)
                requires vi < d * (vi / d) + d && vi >= -0x80000000 && d == 32;
        }
    }
    ((q as i64) - 0x4000000i64) as i32
}

/// Maps a cell to the chunk that owns it.
pub fn chunk_id_of(c: TileCoordinate) -> (id: ChunkId)
    ensures
        id == spec_chunk_id_of(c),
{
    ChunkId { x: chunk_axis(c.x), y: chunk_axis(c.y), layer: c.layer }
}

/// Chunk ids that arise from real cells: the floor-divided fields stay well
/// inside `i32`, so every cell of the chunk has in-range coordinates.
pub open spec fn chunk_id_in_range(id: ChunkId) -> bool {
    &&& -0x4000000 <= id.x < 0x4000000
    &&& -0x4000000 <= id.y < 0x4000000
}

/// Every chunk id produced by `spec_chunk_id_of` is in range.
pub proof fn lemma_chunk_id_of_in_range(c: TileCoordinate)
    ensures
        chunk_id_in_range(spec_chunk_id_of(c)),
{
    lemma_axis_floor_range(c.x as int);
    lemma_axis_floor_range(c.y as int);
}

/// One atomic drain of a dirty set: what it returns and what it leaves
/// behind.
pub open spec fn spec_drain(d: Set<ChunkId>) -> (Set<ChunkId>, Set<ChunkId>) {
    (d, Set::empty())
}

/// Law: a drain is exhaustive and leaves nothing behind, so a second drain
/// with no intervening mutation returns the empty set.
pub proof fn lemma_drain_twice_empty(d: Set<ChunkId>)
    ensures
        spec_drain(d).0 == d,
        spec_drain(spec_drain(d).1).0 == Set::<ChunkId>::empty(),
{
}

/// Law: one `mark_dirty` racing one `drain_dirty` serializes in one of two
/// orders, and either way a chunk that was not already dirty lands in
/// exactly one of the two adjacent drained sets -- never zero, never both.
pub proof fn lemma_mark_drain_race(d: Set<ChunkId>, c: ChunkId)
    requires
        !d.contains(c),
    ensures
        ({
            let first = spec_drain(d.insert(c));
            let second = spec_drain(first.1);
            first.0.contains(c) && !second.0.contains(c)
        }),
        ({
            let first = spec_drain(d);
            let second = spec_drain(first.1.insert(c));
            !first.0.contains(c) && second.0.contains(c)
        }),
{
}

/// Mathematical state of a `ChunkManager`: the chunks awaiting remesh and
/// the stored per-chunk meshes.
pub struct ChunkManagerView {
    pub dirty: Set<ChunkId>,
    pub chunks: Map<ChunkId, ChunkMesh>,
}

/// Partitions the grid into fixed-size chunks: tracks which chunks were
/// touched since the last remesh pass and owns the per-chunk mesh buffers.
/// Chunks are only ever created, never removed one by one.
pub struct ChunkManager {
    dirty: Vec<ChunkId>,
    chunks: Vec<(ChunkId, ChunkMesh)>,
}

impl View for ChunkManager {
    type V = ChunkManagerView;

    closed spec fn view(&self) -> ChunkManagerView {
        ChunkManagerView { dirty: self.dirty@.to_set(), chunks: map_of(self.chunks@) }
    }
}

impl ChunkManager {
    /// The dirty list holds no duplicates and each chunk id is stored once.
    pub closed spec fn wf(&self) -> bool {
        &&& self.dirty@.no_duplicates()
        &&& unique_keys(self.chunks@)
    }

    /// A manager with no chunks and nothing dirty.
    pub fn new() -> (m: Self)
        ensures
            m.wf(),
            m@.dirty == Set::<ChunkId>::empty(),
            m@.chunks == Map::<ChunkId, ChunkMesh>::empty(),
    {
        let m = ChunkManager { dirty: Vec::new(), chunks: Vec::new() };
        proof {
            assert(m.dirty@.to_set() =~= Set::<ChunkId>::empty());
        }
        m
    }

    /// Whether `id` is awaiting a remesh.
    pub fn is_dirty(&self, id: ChunkId) -> (b: bool)
        ensures
            b == self@.dirty.contains(id),
    {
        let n = self.dirty.len();
        let mut i: usize = 0;
        while i < n
            invariant
                i <= n,
                n == self.dirty@.len(),
                forall|j: int| 0 <= j < i ==> self.dirty@[j] != id,
            decreases n - i,
        {
            if self.dirty[i] == id {
                assert(self.dirty@[i as int] == id);
                return true;
            }
            i += 1;
        }
        proof {
            if self.dirty@.contains(id) {
                let j = choose|j: int| 0 <= j < self.dirty@.len() && self.dirty@[j] == id;
            }
        }
        false
    }

    /// Inserts `id` into the dirty set. Idempotent: marking a chunk that is
    /// already dirty changes nothing.
    pub fn mark_dirty(&mut self, id: ChunkId)
        requires
            old(self).wf(),
        ensures
            final(self).wf(),
            final(self)@.dirty == old(self)@.dirty.insert(id),
            final(self)@.chunks == old(self)@.chunks,
    {
        if !self.is_dirty(id) {
            let ghost s_old = self.dirty@;
            self.dirty.push(id);
            proof {
                assert forall|x: ChunkId|
                    self.dirty@.to_set().contains(x)
                    <==> s_old.to_set().insert(id).contains(x) by {
                    if self.dirty@.contains(x) {
                        let j = choose|j: int| 0 <= j < self.dirty@.len()
                            && self.dirty@[j] == x;
                        if j < s_old.len() {
                            assert(s_old[j] == x);
                        }
                    }
                    if s_old.contains(x) {
                        let j = choose|j: int| 0 <= j < s_old.len() && s_old[j] == x;
                        assert(self.dirty@[j] == x);
                    }
                    if x == id {
                        assert(self.dirty@[s_old.len() as int] == x);
                    }
                }
                assert(self.dirty@.to_set() =~= s_old.to_set().insert(id));
                assert forall|a: int, b: int| 0 <= a < b < self.dirty@.len()
                    implies self.dirty@[a] != self.dirty@[b] by {
                    if b == s_old.len() as int {
                        if s_old[a] == id {
                            assert(s_old.contains(id));
                            assert(s_old.to_set().contains(id));
                        }
                    }
                }
            }
        } else {
            proof {
                assert(old(self)@.dirty.insert(id) =~= old(self)@.dirty);
            }
        }
    }

    /// Atomically swaps the dirty set out: returns exactly the chunks marked
    /// since the previous drain and leaves the set empty. A mark that lands
    /// after the swap goes into the next drain's set.
    pub fn drain_dirty(&mut self) -> (drained: Vec<ChunkId>)
        requires
            old(self).wf(),
        ensures
            final(self).wf(),
            drained@.to_set() == spec_drain(old(self)@.dirty).0,
            drained@.no_duplicates(),
            final(self)@.dirty == spec_drain(old(self)@.dirty).1,
            final(self)@.chunks == old(self)@.chunks,
    {
        let mut taken: Vec<ChunkId> = Vec::new();
        core::mem::swap(&mut taken, &mut self.dirty);
        proof {
            assert(self.dirty@.to_set() =~= Set::<ChunkId>::empty());
        }
        taken
    }

    /// Index of the chunk entry for `id`, if one exists.
    fn find_chunk(&self, id: ChunkId) -> (r: Option<usize>)
        ensures
            match r {
                Some(i) => i < self.chunks@.len() && self.chunks@[i as int].0 == id,
                None => forall|j: int| 0 <= j < self.chunks@.len()
                    ==> (#[trigger] self.chunks@[j]).0 != id,
            },
    {
        let n = self.chunks.len();
        let mut i: usize = 0;
        while i < n
            invariant
                i <= n,
                n == self.chunks@.len(),
                forall|j: int| 0 <= j < i ==> (#[trigger] self.chunks@[j]).0 != id,
            decreases n - i,
        {
            if self.chunks[i].0 == id {
                return Some(i);
            }
            i += 1;
        }
        None
    }

    /// Ensures a chunk exists under `id`, creating one with an empty mesh on
    /// first touch, and reports whether it already existed.
    pub fn get_or_create_chunk(&mut self, id: ChunkId) -> (existed: bool)
        requires
            old(self).wf(),
        ensures
            final(self).wf(),
            existed == old(self)@.chunks.contains_key(id),
            final(self)@.dirty == old(self)@.dirty,
            existed ==> final(self)@.chunks == old(self)@.chunks,
            !existed ==> {
                &&& final(self)@.chunks.dom() == old(self)@.chunks.dom().insert(id)
                &&& forall|k: ChunkId| k != id && #[trigger] old(self)@.chunks.contains_key(k)
                    ==> final(self)@.chunks[k] == old(self)@.chunks[k]
                &&& final(self)@.chunks[id]@.vertices == Seq::<Vertex>::empty()
                &&& final(self)@.chunks[id]@.indices == Seq::<u32>::empty()
            },
    {
        proof {
            lemma_map_of_contains(self.chunks@, id);
        }
        match self.find_chunk(id) {
            Some(_) => true,
            None => {
                let m = ChunkMesh::empty();
                proof {
                    lemma_map_of_push(self.chunks@, id, m);
                }
                self.chunks.push((id, m));
                proof {
                    assert(self@.chunks.dom() =~= old(self)@.chunks.dom().insert(id));
                }
                false
            },
        }
    }

    /// Stores a freshly rebuilt mesh under `id`, creating the chunk when the
    /// first rebuild reaches it before `get_or_create_chunk` did.
    pub fn install_mesh(&mut self, id: ChunkId, mesh: ChunkMesh)
        requires
            old(self).wf(),
        ensures
            final(self).wf(),
            final(self)@.chunks == old(self)@.chunks.insert(id, mesh),
            final(self)@.dirty == old(self)@.dirty,
    {
        proof {
            lemma_map_of_contains(self.chunks@, id);
        }
        match self.find_chunk(id) {
            Some(i) => {
                proof {
                    lemma_map_of_remove(self.chunks@, i as int);
                    lemma_unique_keys_remove(self.chunks@, i as int);
                }
                let ghost s_rm = self.chunks@.remove(i as int);
                let _ = self.chunks.remove(i);
                proof {
                    assert forall|j: int| 0 <= j < s_rm.len()
                        implies (#[trigger] s_rm[j]).0 != id by {
                        let j0 = if j < i as int { j } else { j + 1 };
                        assert(s_rm[j] == old(self).chunks@[j0]);
                        assert(old(self).chunks@[i as int].0 == id);
                    }
                    lemma_map_of_push(self.chunks@, id, mesh);
                }
                self.chunks.push((id, mesh));
                proof {
                    assert(self@.chunks =~= old(self)@.chunks.insert(id, mesh));
                }
            },
            None => {
                proof {
                    lemma_map_of_push(self.chunks@, id, mesh);
                }
                self.chunks.push((id, mesh));
            },
        }
    }

    /// The mesh stored for `id`, if the chunk exists.
    pub fn chunk_mesh(&self, id: ChunkId) -> (r: Option<&ChunkMesh>)
        requires
            self.wf(),
        ensures
            match r {
                Some(m) => self@.chunks.contains_key(id) && *m == self@.chunks[id],
                None => !self@.chunks.contains_key(id),
            },
    {
        proof {
            lemma_map_of_contains(self.chunks@, id);
        }
        match self.find_chunk(id) {
            Some(i) => {
                proof {
                    lemma_map_of_index(self.chunks@, i as int);
                }
                Some(&self.chunks[i].1)
            },
            None => None,
        }
    }
}

proof fn lemma_axis_floor_range(vi: int)
    requires
        -0x80000000 <= vi < 0x80000000,
    ensures
        -0x4000000 <= vi / (CHUNK_SIZE as int) < 0x4000000,
{
    let d = CHUNK_SIZE as int;
    vstd::arithmetic::div_mod::lemma_fundamental_div_mod(vi, d);
    assert(d * (vi / d) <= vi < d * (vi / d) + d);
    assert(vi / d < 0x4000000) by (nonlinear_arith)
        requires d * (vi / d) <= vi && vi < 0x80000000 && d == 32;
    assert(vi / d >= -0x4000000) by (nonlinear_arith)
        requires vi < d * (vi / d) + d && vi >= -0x80000000 && d == 32;
}

} // verus!
