use vstd::prelude::*;
use crate::tile::Tile;
use crate::tile::TileCoordinate;
use crate::chunk::ChunkId;
use crate::chunk::ChunkManager;
use crate::chunk::chunk_id_of;
use crate::chunk::spec_chunk_id_of;
use crate::kvmap::map_of;
use crate::kvmap::unique_keys;
use crate::kvmap::lemma_map_of_contains;
use crate::kvmap::lemma_map_of_index;
use crate::kvmap::lemma_map_of_push;
use crate::kvmap::lemma_map_of_remove;
use crate::kvmap::lemma_unique_keys_remove;

verus! {

/// The grid after a batch of changes, applied left to right: `Some` upserts
/// the cell, `None` clears it.
pub open spec fn apply_changes(
    m: Map<TileCoordinate, Tile>,
    cs: Seq<(TileCoordinate, Option<Tile>)>,
) -> Map<TileCoordinate, Tile>
    decreases cs.len(),
{
    if cs.len() == 0 {
        m
    } else {
        let prev = apply_changes(m, cs.drop_last());
        match cs.last().1 {
            Some(t) => prev.insert(cs.last().0, t),
            None => prev.remove(cs.last().0),
        }
    }
}

/// The dirty set after a batch of changes: the chunk of every touched
/// coordinate joins, whether the cell was written or cleared.
pub open spec fn chunks_of_changes(
    d: Set<ChunkId>,
    cs: Seq<(TileCoordinate, Option<Tile>)>,
) -> Set<ChunkId>
    decreases cs.len(),
{
    if cs.len() == 0 {
        d
    } else {
        chunks_of_changes(d, cs.drop_last()).insert(spec_chunk_id_of(cs.last().0))
    }
}

/// `m` with every cell on `layer` removed; cells on other layers keep their
/// tiles.
pub open spec fn layer_cleared(m: Map<TileCoordinate, Tile>, layer: i32) -> Map<TileCoordinate, Tile> {
    Map::new(|c: TileCoordinate| m.contains_key(c) && c.layer != layer, |c: TileCoordinate| m[c])
}

/// The chunks owning at least one cell of `m` on `layer`.
pub open spec fn layer_chunks(m: Map<TileCoordinate, Tile>, layer: i32) -> Set<ChunkId> {
    Set::new(|k: ChunkId| exists|c: TileCoordinate|
        #[trigger] m.contains_key(c) && c.layer == layer && #[trigger] spec_chunk_id_of(c) == k)
}

/// Sparse, layered store of tile cells keyed by coordinate. The grid is the
/// authoritative tile state; chunk meshes are derived from it. Mutations
/// record the owning chunks as dirty in a `ChunkManager`.
pub struct TileGrid {
    cells: Vec<(TileCoordinate, Tile)>,
}

impl View for TileGrid {
    type V = Map<TileCoordinate, Tile>;

    closed spec fn view(&self) -> Map<TileCoordinate, Tile> {
        map_of(self.cells@)
    }
}

impl TileGrid {
    /// Each coordinate appears at most once.
    pub closed spec fn wf(&self) -> bool {
        unique_keys(self.cells@)
    }

    /// An empty grid.
    pub fn new() -> (g: Self)
        ensures
            g.wf(),
            g@ == Map::<TileCoordinate, Tile>::empty(),
    {
        TileGrid { cells: Vec::new() }
    }

    /// Index of the cell at `c`, if the cell is present.
    fn find(&self, c: TileCoordinate) -> (r: Option<usize>)
        ensures
            match r {
                Some(i) => i < self.cells@.len() && self.cells@[i as int].0 == c,
                None => forall|j: int| 0 <= j < self.cells@.len()
                    ==> (#[trigger] self.cells@[j]).0 != c,
            },
    {
        let n = self.cells.len();
        let mut i: usize = 0;
        while i < n
            invariant
                i <= n,
                n == self.cells@.len(),
                forall|j: int| 0 <= j < i ==> (#[trigger] self.cells@[j]).0 != c,
            decreases n - i,
        {
            let e = self.cells[i];
            if e.0.x == c.x && e.0.y == c.y && e.0.layer == c.layer {
                return Some(i);
            }
            i += 1;
        }
        None
    }

    /// Pure lookup: the tile at `c`, if the cell is occupied. Never mutates
    /// and never marks anything dirty.
    pub fn get(&self, c: TileCoordinate) -> (r: Option<Tile>)
        requires
            self.wf(),
        ensures
            r == if self@.contains_key(c) { Some(self@[c]) } else { None::<Tile> },
    {
        proof {
            lemma_map_of_contains(self.cells@, c);
        }
        match self.find(c) {
            Some(i) => {
                proof {
                    lemma_map_of_index(self.cells@, i as int);
                }
                Some(self.cells[i].1)
            },
            None => None,
        }
    }

    /// Applies one change: upserts the cell on `Some`, clears it on `None`.
    fn set_cell(&mut self, c: TileCoordinate, t: Option<Tile>)
        requires
            old(self).wf(),
        ensures
            final(self).wf(),
            final(self)@ == match t {
                Some(tile) => old(self)@.insert(c, tile),
                None => old(self)@.remove(c),
            },
    {
        proof {
            lemma_map_of_contains(self.cells@, c);
        }
        let found = self.find(c);
        match found {
            Some(i) => {
                proof {
                    lemma_map_of_remove(self.cells@, i as int);
                    lemma_unique_keys_remove(self.cells@, i as int);
                }
                let ghost s_rm = self.cells@.remove(i as int);
                self.cells.remove(i);
                proof {
                    assert forall|j: int| 0 <= j < s_rm.len()
                        implies (#[trigger] s_rm[j]).0 != c by {
                        let j0 = if j < i as int { j } else { j + 1 };
                        assert(s_rm[j] == old(self).cells@[j0]);
                        assert(old(self).cells@[i as int].0 == c);
                    }
                }
                match t {
                    Some(tile) => {
                        proof {
                            lemma_map_of_push(self.cells@, c, tile);
                        }
                        self.cells.push((c, tile));
                        proof {
                            assert(self@ =~= old(self)@.insert(c, tile));
                        }
                    },
                    None => {
                    },
                }
            },
            None => {
                match t {
                    Some(tile) => {
                        proof {
                            lemma_map_of_push(self.cells@, c, tile);
                        }
                        self.cells.push((c, tile));
                    },
                    None => {
                        proof {
                            assert(!old(self)@.contains_key(c));
                            assert(old(self)@.remove(c) =~= old(self)@);
                        }
                    },
                }
            },
        }
    }

    /// Applies a batch of changes in order and marks the chunk of every
    /// touched coordinate dirty, written or cleared alike. Readers between
    /// calls only ever see whole batches.
    pub fn set_tiles(
        &mut self,
        changes: &Vec<(TileCoordinate, Option<Tile>)>,
        mgr: &mut ChunkManager,
    )
        requires
            old(self).wf(),
            old(mgr).wf(),
        ensures
            final(self).wf(),
            final(mgr).wf(),
            final(self)@ == apply_changes(old(self)@, changes@),
            final(mgr)@.dirty == chunks_of_changes(old(mgr)@.dirty, changes@),
            final(mgr)@.chunks == old(mgr)@.chunks,
    {
        let n = changes.len();
        let mut i: usize = 0;
        while i < n
            invariant
                i <= n,
                n == changes@.len(),
                self.wf(),
                mgr.wf(),
                self@ == apply_changes(old(self)@, changes@.take(i as int)),
                mgr@.dirty == chunks_of_changes(old(mgr)@.dirty, changes@.take(i as int)),
                mgr@.chunks == old(mgr)@.chunks,
            decreases n - i,
        {
            let (c, t) = changes[i];
            self.set_cell(c, t);
            mgr.mark_dirty(chunk_id_of(c));
            proof {
                assert(changes@.take(i as int + 1).drop_last() =~= changes@.take(i as int));
                assert(changes@.take(i as int + 1).last() == changes@[i as int]);
            }
            i += 1;
        }
        proof {
            assert(changes@.take(n as int) =~= changes@);
        }
    }

    /// Removes every cell on `layer` in one pass and marks each removed
    /// cell's chunk dirty. Cells on other layers are untouched, and only
    /// cells actually present contribute work and dirt.
    #[verifier::rlimit(50)]
    #[verifier::spinoff_prover]
    pub fn clear_layer(&mut self, layer: i32, mgr: &mut ChunkManager)
        requires
            old(self).wf(),
            old(mgr).wf(),
        ensures
            final(self).wf(),
            final(mgr).wf(),
            final(self)@ == layer_cleared(old(self)@, layer),
            final(mgr)@.dirty == old(mgr)@.dirty.union(layer_chunks(old(self)@, layer)),
            final(mgr)@.chunks == old(mgr)@.chunks,
    {
        let ghost s0 = self.cells@;
        let ghost d0 = old(mgr)@.dirty;
        let n = self.cells.len();
        let mut kept: Vec<(TileCoordinate, Tile)> = Vec::new();
        let mut i: usize = 0;
        while i < n
            invariant
                i <= n,
                n == s0.len(),
                self.cells@ == s0,
                unique_keys(s0),
                unique_keys(kept@),
                mgr.wf(),
                map_of(kept@) == layer_cleared(map_of(s0.take(i as int)), layer),
                mgr@.dirty == d0.union(layer_chunks(map_of(s0.take(i as int)), layer)),
                mgr@.chunks == old(mgr)@.chunks,
            decreases n - i,
        {
            let (c, t) = self.cells[i];
            let ghost m_pre = map_of(s0.take(i as int));
            let ghost m_post = map_of(s0.take(i as int + 1));
            proof {
                assert(s0.take(i as int + 1).drop_last() =~= s0.take(i as int));
                assert(s0.take(i as int + 1).last() == s0[i as int]);
                assert(m_post == m_pre.insert(c, t));
            }
            if c.layer == layer {
                mgr.mark_dirty(chunk_id_of(c));
                proof {
                    // the cleared view ignores cells on the cleared layer
                    assert(layer_cleared(m_post, layer) =~= layer_cleared(m_pre, layer));
                    // its chunk joins the layer's chunk set
                    assert forall|k: ChunkId|
                        layer_chunks(m_post, layer).contains(k)
                        <==> layer_chunks(m_pre, layer).insert(spec_chunk_id_of(c)).contains(k) by {
                        if layer_chunks(m_post, layer).contains(k) {
                            let w = choose|w: TileCoordinate| m_post.contains_key(w)
                                && w.layer == layer && spec_chunk_id_of(w) == k;
                            if w != c {
                                assert(m_pre.contains_key(w));
                            }
                        }
                        if layer_chunks(m_pre, layer).contains(k) {
                            let w = choose|w: TileCoordinate| m_pre.contains_key(w)
                                && w.layer == layer && spec_chunk_id_of(w) == k;
                            if w != c {
                                assert(m_post.contains_key(w));
                                assert(layer_chunks(m_post, layer).contains(k));
                            }
                        }
                        if k == spec_chunk_id_of(c) {
                            assert(m_post.contains_key(c));
                            assert(layer_chunks(m_post, layer).contains(k));
                        }
                    }
                    assert(layer_chunks(m_post, layer)
                        =~= layer_chunks(m_pre, layer).insert(spec_chunk_id_of(c)));
                    assert(d0.union(layer_chunks(m_post, layer))
                        =~= d0.union(layer_chunks(m_pre, layer)).insert(spec_chunk_id_of(c)));
                }
            } else {
                proof {
                    // the kept key is new: it appears among the first i
                    // entries of nothing else, and unique keys rule out i
                    assert forall|j: int| 0 <= j < kept@.len()
                        implies (#[trigger] kept@[j]).0 != c by {
                        lemma_map_of_index(kept@, j);
                        assert(m_pre.contains_key(kept@[j].0));
                        lemma_map_of_contains(s0.take(i as int), kept@[j].0);
                        let j0 = choose|j0: int| 0 <= j0 < s0.take(i as int).len()
                            && s0.take(i as int)[j0].0 == kept@[j].0;
                        assert(s0[j0].0 == kept@[j].0);
                        assert(s0[i as int].0 == c);
                    }
                    lemma_map_of_push(kept@, c, t);
                }
                kept.push((c, t));
                proof {
                    assert(layer_cleared(m_post, layer)
                        =~= layer_cleared(m_pre, layer).insert(c, t));
                    // chunk set unchanged: the new cell is on another layer
                    assert forall|k: ChunkId|
                        layer_chunks(m_post, layer).contains(k)
                        <==> layer_chunks(m_pre, layer).contains(k) by {
                        if layer_chunks(m_post, layer).contains(k) {
                            let w = choose|w: TileCoordinate| m_post.contains_key(w)
                                && w.layer == layer && spec_chunk_id_of(w) == k;
                            assert(w != c);
                            assert(m_pre.contains_key(w));
                        }
                        if layer_chunks(m_pre, layer).contains(k) {
                            let w = choose|w: TileCoordinate| m_pre.contains_key(w)
                                && w.layer == layer && spec_chunk_id_of(w) == k;
                            assert(w != c);
                            assert(m_post.contains_key(w));
                            assert(layer_chunks(m_post, layer).contains(k));
                        }
                    }
                    assert(layer_chunks(m_post, layer) =~= layer_chunks(m_pre, layer));
                }
            }
            i += 1;
        }
        self.cells = kept;
        proof {
            assert(s0.take(n as int) =~= s0);
        }
    }
}

} // verus!
