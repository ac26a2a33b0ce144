use vstd::prelude::*;
use crate::atlas::AtlasDescriptor;
use crate::atlas::FilterMode;
use crate::atlas::valid_geometry;
use crate::atlas::spec_layer_count;
use crate::atlas::is_valid_geometry;
use crate::atlas::layer_count;
use crate::kvmap::map_of;
use crate::kvmap::unique_keys;
use crate::kvmap::lemma_map_of_contains;
use crate::kvmap::lemma_map_of_index;
use crate::kvmap::lemma_map_of_push;

verus! {

/// Readiness pipeline of one registered atlas: storage is reserved in
/// `Allocated`, and every layer's pixels have been copied in `Populated`.
#[derive(Clone, Copy, PartialEq, Eq, Structural, Debug)]
pub enum ArrayTextureState {
    Registered,
    Allocated,
    Populated,
}

/// Per-atlas record: the immutable descriptor and the pipeline state.
#[derive(Clone, Copy, PartialEq, Eq, Structural, Debug)]
pub struct AtlasEntry {
    pub descriptor: AtlasDescriptor,
    pub state: ArrayTextureState,
}

/// Cache failures. `InvalidAtlasGeometry` is final and leaves nothing
/// registered; the other two mean "retry on a later pass".
#[derive(Clone, Copy, PartialEq, Eq, Structural, Debug)]
pub enum CacheError {
    InvalidAtlasGeometry,
    UnknownAtlas,
    NotReady,
}

/// Non-owning reference to a populated array texture: a lookup key plus the
/// derived layer count and sampler filter the draw layer needs.
#[derive(Clone, Copy, PartialEq, Eq, Structural, Debug)]
pub struct ArrayTextureHandle {
    pub atlas_id: u64,
    pub layer_count: u32,
    pub filter: FilterMode,
}

/// A GPU allocation for the driver to perform: a 2D array texture of
/// `layer_count` tile-sized layers, with a matching clamp-to-edge sampler.
#[derive(Clone, Copy, PartialEq, Eq, Structural, Debug)]
pub struct TextureAllocation {
    pub atlas_id: u64,
    pub tile_width: u32,
    pub tile_height: u32,
    pub layer_count: u32,
    pub filter: FilterMode,
}

/// One texture-to-texture copy for the driver to record: a tile-sized rect
/// from the source atlas image at `(src_x, src_y)` into array layer
/// `dst_layer` at origin `(0, 0)`.
#[derive(Clone, Copy, PartialEq, Eq, Structural, Debug)]
pub struct LayerCopy {
    pub atlas_id: u64,
    pub src_x: u32,
    pub src_y: u32,
    pub dst_layer: u32,
    pub width: u32,
    pub height: u32,
}

/// The handle `get` hands out for a populated atlas.
pub open spec fn spec_handle(atlas_id: u64, e: AtlasEntry) -> ArrayTextureHandle {
    ArrayTextureHandle {
        atlas_id,
        layer_count: spec_layer_count(e.descriptor) as u32,
        filter: e.descriptor.filter,
    }
}

/// The allocation `prepare` emits for a registered atlas.
pub open spec fn spec_allocation(atlas_id: u64, d: AtlasDescriptor) -> TextureAllocation {
    TextureAllocation {
        atlas_id,
        tile_width: d.tile_width,
        tile_height: d.tile_height,
        layer_count: spec_layer_count(d) as u32,
        filter: d.filter,
    }
}

/// The copy `queue` emits for array layer `i` of an atlas.
pub open spec fn spec_layer_copy(atlas_id: u64, d: AtlasDescriptor, i: int) -> LayerCopy {
    LayerCopy {
        atlas_id,
        src_x: crate::atlas::spec_copy_src_x(d, i) as u32,
        src_y: crate::atlas::spec_copy_src_y(d, i) as u32,
        dst_layer: i as u32,
        width: d.tile_width,
        height: d.tile_height,
    }
}

/// Whether `acts` holds the allocation for atlas `id` with descriptor `d`.
pub open spec fn has_allocation(acts: Seq<TextureAllocation>, id: u64, d: AtlasDescriptor) -> bool {
    exists|k: int| 0 <= k < acts.len() && acts[k] == spec_allocation(id, d)
}

/// Whether one of the first `n` entries carries key `id`.
pub open spec fn key_among(s: Seq<(u64, AtlasEntry)>, n: int, id: u64) -> bool {
    exists|j: int| 0 <= j < n && s[j].0 == id
}

/// Whether `copies` holds the copy for array layer `i` of atlas `id`.
pub open spec fn has_layer_copy(copies: Seq<LayerCopy>, id: u64, d: AtlasDescriptor, i: int) -> bool {
    exists|k: int| 0 <= k < copies.len() && copies[k] == spec_layer_copy(id, d, i)
}

/// How one `prepare` pass changes an entry: a registered atlas becomes
/// allocated, every other state is left alone.
pub open spec fn after_prepare(e: AtlasEntry) -> AtlasEntry {
    if e.state == ArrayTextureState::Registered {
        AtlasEntry { descriptor: e.descriptor, state: ArrayTextureState::Allocated }
    } else {
        e
    }
}

/// How one `queue` pass changes an entry, given whether the source image is
/// loaded: an allocated atlas with its image present becomes populated;
/// without the image it stays allocated and is retried later.
pub open spec fn after_queue(e: AtlasEntry, loaded: bool) -> AtlasEntry {
    if e.state == ArrayTextureState::Allocated && loaded {
        AtlasEntry { descriptor: e.descriptor, state: ArrayTextureState::Populated }
    } else {
        e
    }
}

/// Law: a freshly registered atlas is populated after one `prepare` pass
/// and one `queue` pass that finds its source image loaded; a `queue` pass
/// without the image leaves it allocated and loses nothing, so a later pass
/// can still populate it.
pub proof fn lemma_pipeline_reaches_populated(e: AtlasEntry)
    requires
        e.state == ArrayTextureState::Registered,
    ensures
        after_queue(after_prepare(e), true).state == ArrayTextureState::Populated,
        after_queue(after_prepare(e), true).descriptor == e.descriptor,
        after_queue(after_prepare(e), false) == after_prepare(e),
{
}

/// Whether `ids` holds `id`.
fn contains_id(ids: &Vec<u64>, id: u64) -> (b: bool)
    ensures
        b == ids@.contains(id),
{
    let n = ids.len();
    let mut i: usize = 0;
    while i < n
        invariant
            i <= n,
            n == ids@.len(),
            forall|j: int| 0 <= j < i ==> ids@[j] != id,
        decreases n - i,
    {
        if ids[i] == id {
            assert(ids@[i as int] == id);
            return true;
        }
        i += 1;
    }
    proof {
        if ids@.contains(id) {
            let j = choose|j: int| 0 <= j < ids@.len() && ids@[j] == id;
        }
    }
    false
}

/// Converts source sprite atlases into GPU array textures through an
/// asynchronous readiness pipeline. GPU work itself is external: `prepare`
/// and `queue` return the commands for a driver to execute.
pub struct TextureArrayCache {
    entries: Vec<(u64, AtlasEntry)>,
}

impl View for TextureArrayCache {
    type V = Map<u64, AtlasEntry>;

    closed spec fn view(&self) -> Map<u64, AtlasEntry> {
        map_of(self.entries@)
    }
}

impl TextureArrayCache {
    /// Each atlas id appears once and every stored descriptor is well formed.
    pub closed spec fn wf(&self) -> bool {
        &&& unique_keys(self.entries@)
        &&& forall|i: int| 0 <= i < self.entries@.len()
            ==> valid_geometry((#[trigger] self.entries@[i]).1.descriptor)
    }

    /// An empty cache.
    pub fn new() -> (c: Self)
        ensures
            c.wf(),
            c@ == Map::<u64, AtlasEntry>::empty(),
    {
        TextureArrayCache { entries: Vec::new() }
    }

    /// Every descriptor held by a well-formed cache has valid geometry.
    pub proof fn lemma_wf_valid_geometry(&self, atlas_id: u64)
        requires
            self.wf(),
            self@.contains_key(atlas_id),
        ensures
            valid_geometry(self@[atlas_id].descriptor),
    {
        lemma_map_of_contains(self.entries@, atlas_id);
        let i = choose|i: int|
            0 <= i < self.entries@.len() && self.entries@[i].0 == atlas_id;
        lemma_map_of_index(self.entries@, i);
    }

    /// Index of the entry for `atlas_id`, if one exists.
    fn find(&self, atlas_id: u64) -> (r: Option<usize>)
        ensures
            match r {
                Some(i) => i < self.entries@.len() && self.entries@[i as int].0 == atlas_id,
                None => forall|j: int| 0 <= j < self.entries@.len()
                    ==> (#[trigger] self.entries@[j]).0 != atlas_id,
            },
    {
        let n = self.entries.len();
        let mut i: usize = 0;
        while i < n
            invariant
                i <= n,
                n == self.entries@.len(),
                forall|j: int| 0 <= j < i ==> (#[trigger] self.entries@[j]).0 != atlas_id,
            decreases n - i,
        {
            if self.entries[i].0 == atlas_id {
                return Some(i);
            }
            i += 1;
        }
        None
    }

    /// Registers an atlas. First registration wins: a known id is left
    /// unchanged and reported as success, whatever descriptor is passed; a
    /// malformed descriptor on a new id is rejected and nothing is stored.
    pub fn add(&mut self, atlas_id: u64, descriptor: AtlasDescriptor) -> (r: Result<(), CacheError>)
        requires
            old(self).wf(),
        ensures
            final(self).wf(),
            old(self)@.contains_key(atlas_id)
                ==> r == Ok::<(), CacheError>(()) && final(self)@ == old(self)@,
            !old(self)@.contains_key(atlas_id) && valid_geometry(descriptor)
                ==> r == Ok::<(), CacheError>(())
                    && final(self)@ == old(self)@.insert(atlas_id,
                        AtlasEntry { descriptor, state: ArrayTextureState::Registered }),
            !old(self)@.contains_key(atlas_id) && !valid_geometry(descriptor)
                ==> r == Err::<(), CacheError>(CacheError::InvalidAtlasGeometry)
                    && final(self)@ == old(self)@,
    {
        proof {
            lemma_map_of_contains(self.entries@, atlas_id);
        }
        match self.find(atlas_id) {
            Some(_) => Ok(()),
            None => {
                if is_valid_geometry(&descriptor) {
                    let entry = AtlasEntry {
                        descriptor,
                        state: ArrayTextureState::Registered,
                    };
                    proof {
                        lemma_map_of_push(self.entries@, atlas_id, entry);
                    }
                    self.entries.push((atlas_id, entry));
                    Ok(())
                } else {
                    Err(CacheError::InvalidAtlasGeometry)
                }
            },
        }
    }

    /// Looks an atlas up: a handle once the atlas is populated, otherwise the
    /// retryable reason it is not available yet.
    pub fn get(&self, atlas_id: u64) -> (r: Result<ArrayTextureHandle, CacheError>)
        requires
            self.wf(),
        ensures
            !self@.contains_key(atlas_id)
                ==> r == Err::<ArrayTextureHandle, CacheError>(CacheError::UnknownAtlas),
            self@.contains_key(atlas_id)
                && self@[atlas_id].state != ArrayTextureState::Populated
                ==> r == Err::<ArrayTextureHandle, CacheError>(CacheError::NotReady),
            self@.contains_key(atlas_id)
                && self@[atlas_id].state == ArrayTextureState::Populated
                ==> r == Ok::<ArrayTextureHandle, CacheError>(
                    spec_handle(atlas_id, self@[atlas_id])),
    {
        proof {
            lemma_map_of_contains(self.entries@, atlas_id);
        }
        match self.find(atlas_id) {
            None => Err(CacheError::UnknownAtlas),
            Some(i) => {
                proof {
                    lemma_map_of_index(self.entries@, i as int);
                }
                let entry = self.entries[i].1;
                match entry.state {
                    ArrayTextureState::Populated => Ok(ArrayTextureHandle {
                        atlas_id,
                        layer_count: layer_count(&entry.descriptor),
                        filter: entry.descriptor.filter,
                    }),
                    _ => Err(CacheError::NotReady),
                }
            },
        }
    }

    /// Drains the allocation stage: every atlas still in `Registered` moves
    /// to `Allocated`, and one `TextureAllocation` per such atlas is returned
    /// for the driver to execute. No pixel data is touched, so the pass never
    /// waits on asset loading.
    #[verifier::rlimit(50)]
    #[verifier::spinoff_prover]
    pub fn prepare(&mut self) -> (actions: Vec<TextureAllocation>)
        requires
            old(self).wf(),
        ensures
            final(self).wf(),
            final(self)@.dom() == old(self)@.dom(),
            forall|id: u64| #[trigger] old(self)@.contains_key(id)
                ==> final(self)@[id] == after_prepare(old(self)@[id]),
            forall|id: u64| old(self)@.contains_key(id)
                && (#[trigger] old(self)@[id]).state == ArrayTextureState::Registered
                ==> has_allocation(actions@, id, old(self)@[id].descriptor),
            forall|k: int| 0 <= k < actions@.len() ==> {
                let a = #[trigger] actions@[k];
                &&& old(self)@.contains_key(a.atlas_id)
                &&& old(self)@[a.atlas_id].state == ArrayTextureState::Registered
                &&& a == spec_allocation(a.atlas_id, old(self)@[a.atlas_id].descriptor)
            },
            forall|k1: int, k2: int| 0 <= k1 < k2 < actions@.len()
                ==> actions@[k1].atlas_id != actions@[k2].atlas_id,
    {
        let ghost s0 = self.entries@;
        let ghost m0 = map_of(s0);
        let n = self.entries.len();
        let mut staged: Vec<(u64, AtlasEntry)> = Vec::new();
        let mut actions: Vec<TextureAllocation> = Vec::new();
        let mut i: usize = 0;
        while i < n
            invariant
                i <= n,
                n == s0.len(),
                self.entries@ == s0,
                m0 == map_of(s0),
                unique_keys(s0),
                forall|j: int| 0 <= j < s0.len()
                    ==> valid_geometry((#[trigger] s0[j]).1.descriptor),
                staged@.len() == i,
                forall|j: int| 0 <= j < i ==> (#[trigger] staged@[j]).0 == s0[j].0
                    && staged@[j].1 == after_prepare(s0[j].1),
                forall|k: int| 0 <= k < actions@.len() ==> {
                    let a = #[trigger] actions@[k];
                    &&& m0.contains_key(a.atlas_id)
                    &&& m0[a.atlas_id].state == ArrayTextureState::Registered
                    &&& a == spec_allocation(a.atlas_id, m0[a.atlas_id].descriptor)
                },
                forall|k: int| 0 <= k < actions@.len()
                    ==> key_among(s0, i as int, (#[trigger] actions@[k]).atlas_id),
                forall|j: int| 0 <= j < i
                    && (#[trigger] s0[j]).1.state == ArrayTextureState::Registered
                    ==> has_allocation(actions@, s0[j].0, s0[j].1.descriptor),
                forall|k1: int, k2: int| 0 <= k1 < k2 < actions@.len()
                    ==> actions@[k1].atlas_id != actions@[k2].atlas_id,
            decreases n - i,
        {
            let (id, entry) = self.entries[i];
            match entry.state {
                ArrayTextureState::Registered => {
                    let alloc = TextureAllocation {
                        atlas_id: id,
                        tile_width: entry.descriptor.tile_width,
                        tile_height: entry.descriptor.tile_height,
                        layer_count: layer_count(&entry.descriptor),
                        filter: entry.descriptor.filter,
                    };
                    proof {
                        lemma_map_of_index(s0, i as int);
                        assert forall|k: int| 0 <= k < actions@.len()
                            implies actions@[k].atlas_id != id by {
                            let j = choose|j: int| 0 <= j < i
                                && s0[j].0 == actions@[k].atlas_id;
                            assert(s0[j].0 != s0[i as int].0);
                        }
                    }
                    let ghost acts0 = actions@;
                    actions.push(alloc);
                    staged.push((id, AtlasEntry {
                        descriptor: entry.descriptor,
                        state: ArrayTextureState::Allocated,
                    }));
                    proof {
                        assert(alloc == spec_allocation(id, entry.descriptor));
                        assert(actions@[acts0.len() as int] == alloc);
                        assert forall|k: int| 0 <= k < actions@.len()
                            implies key_among(s0, i as int + 1,
                                (#[trigger] actions@[k]).atlas_id) by {
                            if k < acts0.len() {
                                assert(actions@[k] == acts0[k]);
                                let j = choose|j: int| 0 <= j < i
                                    && s0[j].0 == acts0[k].atlas_id;
                                assert(0 <= j < i + 1 && s0[j].0 == actions@[k].atlas_id);
                            } else {
                                assert(s0[i as int].0 == actions@[k].atlas_id);
                            }
                        }
                        assert forall|j: int| 0 <= j < i + 1
                            && (#[trigger] s0[j]).1.state == ArrayTextureState::Registered
                            implies has_allocation(actions@, s0[j].0, s0[j].1.descriptor) by {
                            if j < i {
                                let k = choose|k: int| 0 <= k < acts0.len()
                                    && acts0[k] == spec_allocation(s0[j].0, s0[j].1.descriptor);
                                assert(actions@[k] == spec_allocation(s0[j].0, s0[j].1.descriptor));
                            } else {
                                assert(actions@[acts0.len() as int]
                                    == spec_allocation(s0[j].0, s0[j].1.descriptor));
                            }
                        }
                    }
                },
                _ => {
                    staged.push((id, entry));
                    proof {
                        assert forall|k: int| 0 <= k < actions@.len()
                            implies key_among(s0, i as int + 1,
                                (#[trigger] actions@[k]).atlas_id) by {
                            let j = choose|j: int| 0 <= j < i
                                && s0[j].0 == actions@[k].atlas_id;
                            assert(0 <= j < i + 1 && s0[j].0 == actions@[k].atlas_id);
                        }
                    }
                },
            }
            i += 1;
        }
        self.entries = staged;
        proof {
            crate::kvmap::lemma_map_of_pointwise(s0, self.entries@,
                |k: u64, v: AtlasEntry| after_prepare(v));
            assert forall|id: u64| m0.contains_key(id)
                && (#[trigger] m0[id]).state == ArrayTextureState::Registered
                implies has_allocation(actions@, id, m0[id].descriptor) by {
                lemma_map_of_contains(s0, id);
                let j = choose|j: int| 0 <= j < s0.len() && s0[j].0 == id;
                lemma_map_of_index(s0, j);
            }
        }
        actions
    }

    /// Drains the population stage: every `Allocated` atlas whose source
    /// image is among `loaded` becomes `Populated`, and one tile-sized
    /// `LayerCopy` per array layer is returned for the driver to record. An
    /// allocated atlas whose image is still missing stays `Allocated` and is
    /// retried on a later pass; nothing is dropped or duplicated.
    #[verifier::rlimit(100)]
    #[verifier::spinoff_prover]
    pub fn queue(&mut self, loaded: &Vec<u64>) -> (copies: Vec<LayerCopy>)
        requires
            old(self).wf(),
        ensures
            final(self).wf(),
            final(self)@.dom() == old(self)@.dom(),
            forall|id: u64| #[trigger] old(self)@.contains_key(id)
                ==> final(self)@[id] == after_queue(old(self)@[id], loaded@.contains(id)),
            forall|id: u64, i: int|
                old(self)@.contains_key(id)
                && old(self)@[id].state == ArrayTextureState::Allocated
                && loaded@.contains(id)
                && 0 <= i < spec_layer_count(old(self)@[id].descriptor)
                ==> #[trigger] has_layer_copy(copies@, id, old(self)@[id].descriptor, i),
            forall|k: int| 0 <= k < copies@.len() ==> {
                let c = #[trigger] copies@[k];
                &&& old(self)@.contains_key(c.atlas_id)
                &&& old(self)@[c.atlas_id].state == ArrayTextureState::Allocated
                &&& loaded@.contains(c.atlas_id)
                &&& 0 <= c.dst_layer < spec_layer_count(old(self)@[c.atlas_id].descriptor)
                &&& c == spec_layer_copy(c.atlas_id, old(self)@[c.atlas_id].descriptor,
                    c.dst_layer as int)
            },
            forall|k1: int, k2: int| 0 <= k1 < k2 < copies@.len()
                ==> !(copies@[k1].atlas_id == copies@[k2].atlas_id
                    && copies@[k1].dst_layer == copies@[k2].dst_layer),
    {
        let ghost s0 = self.entries@;
        let ghost m0 = map_of(s0);
        let ghost lseq = loaded@;
        let n = self.entries.len();
        let mut staged: Vec<(u64, AtlasEntry)> = Vec::new();
        let mut copies: Vec<LayerCopy> = Vec::new();
        let mut i: usize = 0;
        while i < n
            invariant
                i <= n,
                n == s0.len(),
                self.entries@ == s0,
                m0 == map_of(s0),
                lseq == loaded@,
                unique_keys(s0),
                forall|j: int| 0 <= j < s0.len()
                    ==> valid_geometry((#[trigger] s0[j]).1.descriptor),
                staged@.len() == i,
                forall|j: int| 0 <= j < i ==> (#[trigger] staged@[j]).0 == s0[j].0
                    && staged@[j].1 == after_queue(s0[j].1, lseq.contains(s0[j].0)),
                forall|k: int| 0 <= k < copies@.len() ==> {
                    let c = #[trigger] copies@[k];
                    &&& m0.contains_key(c.atlas_id)
                    &&& m0[c.atlas_id].state == ArrayTextureState::Allocated
                    &&& lseq.contains(c.atlas_id)
                    &&& 0 <= c.dst_layer < spec_layer_count(m0[c.atlas_id].descriptor)
                    &&& c == spec_layer_copy(c.atlas_id, m0[c.atlas_id].descriptor,
                        c.dst_layer as int)
                },
                forall|k: int| 0 <= k < copies@.len()
                    ==> key_among(s0, i as int, (#[trigger] copies@[k]).atlas_id),
                forall|j: int, ii: int|
                    0 <= j < i && s0[j].1.state == ArrayTextureState::Allocated
                    && lseq.contains(s0[j].0)
                    && 0 <= ii < spec_layer_count(s0[j].1.descriptor)
                    ==> #[trigger] has_layer_copy(copies@, s0[j].0, s0[j].1.descriptor, ii),
                forall|k1: int, k2: int| 0 <= k1 < k2 < copies@.len()
                    ==> !(copies@[k1].atlas_id == copies@[k2].atlas_id
                        && copies@[k1].dst_layer == copies@[k2].dst_layer),
            decreases n - i,
        {
            let (id, entry) = self.entries[i];
            let is_loaded = contains_id(loaded, id);
            let is_allocated = match entry.state {
                ArrayTextureState::Allocated => true,
                _ => false,
            };
            if is_allocated && is_loaded {
                proof {
                    lemma_map_of_index(s0, i as int);
                    assert forall|k: int| 0 <= k < copies@.len()
                        implies copies@[k].atlas_id != id by {
                        let j = choose|j: int| 0 <= j < i && s0[j].0 == copies@[k].atlas_id;
                        assert(s0[j].0 != s0[i as int].0);
                    }
                }
                let ghost base = copies@.len() as int;
                let ghost cb = copies@;
                let count = layer_count(&entry.descriptor);
                let mut layer: u32 = 0;
                while layer < count
                    invariant
                        layer <= count,
                        count as int == spec_layer_count(entry.descriptor),
                        valid_geometry(entry.descriptor),
                        m0.contains_key(id),
                        m0[id] == entry,
                        entry.state == ArrayTextureState::Allocated,
                        lseq.contains(id),
                        copies@.len() == base + layer as int,
                        cb.len() == base,
                        forall|k: int| 0 <= k < base ==> #[trigger] copies@[k] == cb[k],
                        forall|k: int| 0 <= k < base ==> (#[trigger] cb[k]).atlas_id != id,
                        forall|k: int| 0 <= k < base ==> {
                            let c = #[trigger] cb[k];
                            &&& m0.contains_key(c.atlas_id)
                            &&& m0[c.atlas_id].state == ArrayTextureState::Allocated
                            &&& lseq.contains(c.atlas_id)
                            &&& 0 <= c.dst_layer < spec_layer_count(m0[c.atlas_id].descriptor)
                            &&& c == spec_layer_copy(c.atlas_id, m0[c.atlas_id].descriptor,
                                c.dst_layer as int)
                        },
                        forall|k1: int, k2: int| 0 <= k1 < k2 < base
                            ==> !(cb[k1].atlas_id == cb[k2].atlas_id
                                && cb[k1].dst_layer == cb[k2].dst_layer),
                        forall|ii: int| 0 <= ii < layer as int
                            ==> #[trigger] copies@[base + ii]
                                == spec_layer_copy(id, entry.descriptor, ii),
                    decreases count - layer,
                {
                    let (sx, sy) = crate::atlas::copy_src_origin(&entry.descriptor, layer);
                    let c = LayerCopy {
                        atlas_id: id,
                        src_x: sx,
                        src_y: sy,
                        dst_layer: layer,
                        width: entry.descriptor.tile_width,
                        height: entry.descriptor.tile_height,
                    };
                    proof {
                        assert(c == spec_layer_copy(id, entry.descriptor, layer as int));
                    }
                    copies.push(c);
                    layer += 1;
                }
                staged.push((id, AtlasEntry {
                    descriptor: entry.descriptor,
                    state: ArrayTextureState::Populated,
                }));
                proof {
                    // soundness of all copies so far
                    assert forall|k: int| 0 <= k < copies@.len() implies {
                        let c = #[trigger] copies@[k];
                        &&& m0.contains_key(c.atlas_id)
                        &&& m0[c.atlas_id].state == ArrayTextureState::Allocated
                        &&& lseq.contains(c.atlas_id)
                        &&& 0 <= c.dst_layer < spec_layer_count(m0[c.atlas_id].descriptor)
                        &&& c == spec_layer_copy(c.atlas_id, m0[c.atlas_id].descriptor,
                            c.dst_layer as int)
                    } by {
                        if k >= base {
                            assert(copies@[base + (k - base)]
                                == spec_layer_copy(id, entry.descriptor, k - base));
                        }
                    }
                    // provenance
                    assert forall|k: int| 0 <= k < copies@.len()
                        implies key_among(s0, i as int + 1,
                            (#[trigger] copies@[k]).atlas_id) by {
                        if k < base {
                            let j = choose|j: int| 0 <= j < i && s0[j].0 == cb[k].atlas_id;
                            assert(0 <= j < i + 1 && s0[j].0 == copies@[k].atlas_id);
                        } else {
                            assert(copies@[base + (k - base)]
                                == spec_layer_copy(id, entry.descriptor, k - base));
                            assert(s0[i as int].0 == copies@[k].atlas_id);
                        }
                    }
                    // completeness
                    assert forall|j: int, ii: int|
                        0 <= j < i + 1 && s0[j].1.state == ArrayTextureState::Allocated
                        && lseq.contains(s0[j].0)
                        && 0 <= ii < spec_layer_count(s0[j].1.descriptor)
                        implies #[trigger] has_layer_copy(copies@, s0[j].0,
                            s0[j].1.descriptor, ii) by {
                        if j < i {
                            assert(has_layer_copy(cb, s0[j].0, s0[j].1.descriptor, ii));
                            let k = choose|k: int| 0 <= k < cb.len()
                                && cb[k] == spec_layer_copy(s0[j].0, s0[j].1.descriptor, ii);
                            assert(copies@[k] == spec_layer_copy(s0[j].0, s0[j].1.descriptor, ii));
                        } else {
                            assert(copies@[base + ii]
                                == spec_layer_copy(s0[j].0, s0[j].1.descriptor, ii));
                        }
                    }
                    // pairwise distinctness
                    assert forall|k1: int, k2: int| 0 <= k1 < k2 < copies@.len()
                        implies !(copies@[k1].atlas_id == copies@[k2].atlas_id
                            && copies@[k1].dst_layer == copies@[k2].dst_layer) by {
                        if k2 >= base {
                            assert(copies@[base + (k2 - base)]
                                == spec_layer_copy(id, entry.descriptor, k2 - base));
                            if k1 >= base {
                                assert(copies@[base + (k1 - base)]
                                    == spec_layer_copy(id, entry.descriptor, k1 - base));
                            } else {
                                assert(copies@[k1].atlas_id != id);
                            }
                        }
                    }
                }
            } else {
                staged.push((id, entry));
                proof {
                    assert forall|k: int| 0 <= k < copies@.len()
                        implies key_among(s0, i as int + 1,
                            (#[trigger] copies@[k]).atlas_id) by {
                        let j = choose|j: int| 0 <= j < i && s0[j].0 == copies@[k].atlas_id;
                        assert(0 <= j < i + 1 && s0[j].0 == copies@[k].atlas_id);
                    }
                    assert(staged@[i as int].1 == after_queue(s0[i as int].1,
                        lseq.contains(s0[i as int].0)));
                }
            }
            i += 1;
        }
        self.entries = staged;
        proof {
            crate::kvmap::lemma_map_of_pointwise(s0, self.entries@,
                |k: u64, v: AtlasEntry| after_queue(v, lseq.contains(k)));
            assert forall|id: u64, ii: int|
                m0.contains_key(id)
                && m0[id].state == ArrayTextureState::Allocated
                && lseq.contains(id)
                && 0 <= ii < spec_layer_count(m0[id].descriptor)
                implies #[trigger] has_layer_copy(copies@, id, m0[id].descriptor, ii) by {
                lemma_map_of_contains(s0, id);
                let j = choose|j: int| 0 <= j < s0.len() && s0[j].0 == id;
                lemma_map_of_index(s0, j);
            }
        }
        copies
    }

    /// Whether `get` would return a handle: the atlas is known and populated.
    pub fn contains(&self, atlas_id: u64) -> (b: bool)
        requires
            self.wf(),
        ensures
            b == (self@.contains_key(atlas_id)
                && self@[atlas_id].state == ArrayTextureState::Populated),
    {
        proof {
            lemma_map_of_contains(self.entries@, atlas_id);
        }
        match self.find(atlas_id) {
            None => false,
            Some(i) => {
                proof {
                    lemma_map_of_index(self.entries@, i as int);
                }
                match self.entries[i].1.state {
                    ArrayTextureState::Populated => true,
                    _ => false,
                }
            },
        }
    }
}

} // verus!
