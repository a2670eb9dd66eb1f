//! The pipeline cache. A pipeline is registered once under its shaders and its
//! configuration, compiled when the frame is prepared, and handed out from
//! then on without further work.
//!
//! Compiling a shader is not done here. The cache says which pipelines want
//! compiling, takes the outcome of each, holds the reflected layouts against
//! the configuration and keeps what results.

use vstd::prelude::*;
use crate::error::CompileError;
use crate::layout::{
    resolve_set_layouts, resolved, set_views, Binding, LayoutMismatch, SetLayout, SetOverride,
};

verus! {

#[derive(Clone, Copy, Debug, PartialEq, Eq, Structural)]
pub enum ShaderStage {
    Compute,
    Vertex,
    Pixel,
}

#[derive(Clone, Copy, Debug, PartialEq, Eq, Structural)]
pub enum RasterStage {
    Vertex,
    Pixel,
}

#[derive(Clone, Copy, Debug, PartialEq, Eq, Structural)]
pub enum PipelineBindPoint {
    Graphics,
    Compute,
}

/// One shader of a pipeline: where its source is, and the stage it is for.
#[derive(Debug)]
pub struct ShaderRef {
    pub path: String,
    pub stage: ShaderStage,
}

/// The configuration of a compute pipeline.
#[derive(Debug)]
pub struct ComputePipelineDesc {
    pub descriptor_set_opts: Vec<SetOverride>,
}

/// One shader of a raster pipeline.
#[derive(Debug)]
pub struct RasterPipelineShader {
    pub code: String,
    pub stage: RasterStage,
}

/// The configuration of a raster pipeline.
#[derive(Debug)]
pub struct RasterPipelineDesc {
    pub render_pass: u64,
    pub face_cull: bool,
    pub descriptor_set_opts: Vec<SetOverride>,
}

/// What a pipeline is registered under.
#[derive(Debug)]
pub struct PipelineKey {
    pub shaders: Vec<ShaderRef>,
    pub bind_point: PipelineBindPoint,
    pub render_pass: u64,
    pub face_cull: bool,
    pub set_overrides: Vec<SetOverride>,
}

/// A key as a value: two keys are the same pipeline exactly when their views
/// are equal.
pub struct KeyView {
    pub shaders: Seq<(Seq<char>, ShaderStage)>,
    pub bind_point: PipelineBindPoint,
    pub render_pass: u64,
    pub face_cull: bool,
    pub overrides: Seq<(u32, Seq<Binding>)>,
}

pub open spec fn shader_views(shaders: Seq<ShaderRef>) -> Seq<(Seq<char>, ShaderStage)> {
    Seq::new(shaders.len(), |i: int| (shaders[i].path@, shaders[i].stage))
}

pub open spec fn override_views(overrides: Seq<SetOverride>) -> Seq<(u32, Seq<Binding>)> {
    Seq::new(overrides.len(), |i: int| (overrides[i].set_index, overrides[i].layout@))
}

pub open spec fn raster_stage(stage: RasterStage) -> ShaderStage {
    match stage {
        RasterStage::Vertex => ShaderStage::Vertex,
        RasterStage::Pixel => ShaderStage::Pixel,
    }
}

pub open spec fn raster_shader_views(shaders: Seq<RasterPipelineShader>) -> Seq<
    (Seq<char>, ShaderStage),
> {
    Seq::new(shaders.len(), |i: int| (shaders[i].code@, raster_stage(shaders[i].stage)))
}

/// The key of the compute pipeline of one shader.
pub open spec fn compute_key_view(path: Seq<char>, desc: ComputePipelineDesc) -> KeyView {
    KeyView {
        shaders: seq![(path, ShaderStage::Compute)],
        bind_point: PipelineBindPoint::Compute,
        render_pass: 0,
        face_cull: false,
        overrides: override_views(desc.descriptor_set_opts@),
    }
}

/// The key of a raster pipeline.
pub open spec fn raster_key_view(
    shaders: Seq<RasterPipelineShader>,
    desc: RasterPipelineDesc,
) -> KeyView {
    KeyView {
        shaders: raster_shader_views(shaders),
        bind_point: PipelineBindPoint::Graphics,
        render_pass: desc.render_pass,
        face_cull: desc.face_cull,
        overrides: override_views(desc.descriptor_set_opts@),
    }
}

fn same_shaders(a: &Vec<ShaderRef>, b: &Vec<ShaderRef>) -> (same: bool)
    ensures
        same == (shader_views(a@) == shader_views(b@)),
{
    if a.len() != b.len() {
        assert(shader_views(a@).len() != shader_views(b@).len());
        return false;
    }
    let mut i: usize = 0;
    while i < a.len()
        invariant
            i <= a.len(),
            a.len() == b.len(),
            forall|j: int| 0 <= j < i ==> shader_views(a@)[j] == shader_views(b@)[j],
        decreases a.len() - i,
    {
        if a[i].path != b[i].path || a[i].stage != b[i].stage {
            assert(shader_views(a@)[i as int] != shader_views(b@)[i as int]);
            return false;
        }
        i += 1;
    }
    assert(shader_views(a@) =~= shader_views(b@));
    true
}

fn same_overrides(a: &Vec<SetOverride>, b: &Vec<SetOverride>) -> (same: bool)
    ensures
        same == (override_views(a@) == override_views(b@)),
{
    if a.len() != b.len() {
        assert(override_views(a@).len() != override_views(b@).len());
        return false;
    }
    let mut i: usize = 0;
    while i < a.len()
        invariant
            i <= a.len(),
            a.len() == b.len(),
            forall|j: int| 0 <= j < i ==> override_views(a@)[j] == override_views(b@)[j],
        decreases a.len() - i,
    {
        if a[i].set_index != b[i].set_index || !a[i].layout.same_as(&b[i].layout) {
            assert(override_views(a@)[i as int] != override_views(b@)[i as int]);
            return false;
        }
        i += 1;
    }
    assert(override_views(a@) =~= override_views(b@));
    true
}

fn duplicate_overrides(overrides: &Vec<SetOverride>) -> (copy: Vec<SetOverride>)
    ensures
        override_views(copy@) == override_views(overrides@),
{
    let mut copy: Vec<SetOverride> = Vec::new();
    let mut i: usize = 0;
    while i < overrides.len()
        invariant
            i <= overrides.len(),
            copy@.len() == i,
            forall|j: int|
                0 <= j < i ==> (#[trigger] copy@[j]).set_index == overrides@[j].set_index
                    && copy@[j].layout@ == overrides@[j].layout@,
        decreases overrides.len() - i,
    {
        let ghost before = copy@;
        copy.push(
            SetOverride {
                set_index: overrides[i].set_index,
                layout: overrides[i].layout.duplicate(),
            },
        );
        assert forall|j: int| 0 <= j < i + 1 implies (#[trigger] copy@[j]).set_index
            == overrides@[j].set_index && copy@[j].layout@ == overrides@[j].layout@ by {
            if j < i {
                assert(copy@[j] == before[j]);
            }
        }
        i += 1;
    }
    assert(override_views(copy@) =~= override_views(overrides@));
    copy
}

impl PipelineKey {
    pub open spec fn view(&self) -> KeyView {
        KeyView {
            shaders: shader_views(self.shaders@),
            bind_point: self.bind_point,
            render_pass: self.render_pass,
            face_cull: self.face_cull,
            overrides: override_views(self.set_overrides@),
        }
    }

    /// Whether both keys name the same pipeline.
    pub fn same_as(&self, other: &PipelineKey) -> (same: bool)
        ensures
            same == (self@ == other@),
    {
        self.bind_point == other.bind_point && self.render_pass == other.render_pass
            && self.face_cull == other.face_cull && same_shaders(&self.shaders, &other.shaders)
            && same_overrides(&self.set_overrides, &other.set_overrides)
    }

    /// The key of the compute pipeline made of the shader at `path`.
    pub fn compute(path: &str, desc: &ComputePipelineDesc) -> (key: PipelineKey)
        ensures
            key@ == compute_key_view(path@, *desc),
    {
        let mut shaders: Vec<ShaderRef> = Vec::new();
        shaders.push(ShaderRef { path: path.to_owned(), stage: ShaderStage::Compute });
        assert(shader_views(shaders@) =~= seq![(path@, ShaderStage::Compute)]);
        PipelineKey {
            shaders,
            bind_point: PipelineBindPoint::Compute,
            render_pass: 0,
            face_cull: false,
            set_overrides: duplicate_overrides(&desc.descriptor_set_opts),
        }
    }

    /// The key of the raster pipeline made of `shaders`.
    pub fn raster(shaders: &[RasterPipelineShader], desc: &RasterPipelineDesc) -> (key: PipelineKey)
        ensures
            key@ == raster_key_view(shaders@, *desc),
    {
        let mut refs: Vec<ShaderRef> = Vec::new();
        let mut i: usize = 0;
        while i < shaders.len()
            invariant
                i <= shaders.len(),
                refs@.len() == i,
                forall|j: int|
                    0 <= j < i ==> (#[trigger] refs@[j]).path@ == shaders@[j].code@ && refs@[j].stage
                        == raster_stage(shaders@[j].stage),
            decreases shaders.len() - i,
        {
            let ghost before = refs@;
            let stage = match shaders[i].stage {
                RasterStage::Vertex => ShaderStage::Vertex,
                RasterStage::Pixel => ShaderStage::Pixel,
            };
            refs.push(ShaderRef { path: shaders[i].code.clone(), stage });
            assert forall|j: int| 0 <= j < i + 1 implies (#[trigger] refs@[j]).path@
                == shaders@[j].code@ && refs@[j].stage == raster_stage(shaders@[j].stage) by {
                if j < i {
                    assert(refs@[j] == before[j]);
                }
            }
            i += 1;
        }
        assert(shader_views(refs@) =~= raster_shader_views(shaders@));
        PipelineKey {
            shaders: refs,
            bind_point: PipelineBindPoint::Graphics,
            render_pass: desc.render_pass,
            face_cull: desc.face_cull,
            set_overrides: duplicate_overrides(&desc.descriptor_set_opts),
        }
    }
}

#[derive(Clone, Copy, Debug, PartialEq, Eq, Structural)]
pub struct DescriptorPoolSize {
    pub ty: u32,
    pub descriptor_count: u32,
}

/// A compiled pipeline: the objects to bind, and the layout of each of its
/// descriptor sets.
#[derive(Debug)]
pub struct ShaderPipelineCommon {
    pub pipeline: u64,
    pub pipeline_layout: u64,
    pub pipeline_bind_point: PipelineBindPoint,
    pub set_layout_info: Vec<SetLayout>,
    pub descriptor_pool_sizes: Vec<DescriptorPoolSize>,
    pub descriptor_set_layouts: Vec<u64>,
}

/// What compiling the shaders of one pipeline gave.
#[derive(Debug)]
pub struct CompiledShader {
    pub pipeline: u64,
    pub pipeline_layout: u64,
    pub reflected_sets: Vec<SetLayout>,
    pub descriptor_pool_sizes: Vec<DescriptorPoolSize>,
    pub descriptor_set_layouts: Vec<u64>,
}

/// Why a shader did not compile.
#[derive(Debug)]
pub struct ShaderFailure {
    pub stage: ShaderStage,
    pub reason: String,
}

/// How compiling the shaders of one pipeline ended.
#[derive(Debug)]
pub enum CompileOutcome {
    Compiled(CompiledShader),
    Failed(ShaderFailure),
}

#[derive(Clone, Copy, Debug, PartialEq, Eq, Structural)]
pub struct ComputePipelineHandle(pub usize);

#[derive(Clone, Copy, Debug, PartialEq, Eq, Structural)]
pub struct RasterPipelineHandle(pub usize);

/// One pipeline of the cache: its key, and the compiled pipeline once there is
/// one.
#[derive(Debug)]
pub struct CacheEntry {
    pub key: PipelineKey,
    pub pipeline: Option<ShaderPipelineCommon>,
}

/// The first entry, at or after `from`, that is registered under `key`, or the
/// number of entries where there is none.
pub open spec fn find_key(entries: Seq<CacheEntry>, key: KeyView, from: int) -> int
    decreases entries.len() - from,
{
    if from < 0 || from >= entries.len() {
        entries.len() as int
    } else if entries[from].key@ == key {
        from
    } else {
        find_key(entries, key, from + 1)
    }
}

/// `find_key` finds the least entry with that key.
pub proof fn lemma_find_key(entries: Seq<CacheEntry>, key: KeyView, from: int)
    requires
        0 <= from <= entries.len(),
    ensures
        from <= find_key(entries, key, from) <= entries.len(),
        find_key(entries, key, from) < entries.len() ==> entries[find_key(
            entries,
            key,
            from,
        )].key@ == key,
        forall|j: int| from <= j < find_key(entries, key, from) ==> entries[j].key@ != key,
    decreases entries.len() - from,
{
    if from < entries.len() && entries[from].key@ != key {
        lemma_find_key(entries, key, from + 1);
    }
}

/// An entry with that key and none before it is what `find_key` finds.
pub proof fn lemma_find_key_is(entries: Seq<CacheEntry>, key: KeyView, i: int)
    requires
        0 <= i <= entries.len(),
        i < entries.len() ==> entries[i].key@ == key,
        forall|j: int| 0 <= j < i ==> entries[j].key@ != key,
    ensures
        find_key(entries, key, 0) == i,
{
    lemma_find_key(entries, key, 0);
}

/// The cache after a pipeline is registered, and its handle: the entry that
/// has the key already, or a new one that waits to be compiled.
pub open spec fn registered(entries: Seq<CacheEntry>, key: PipelineKey) -> (Seq<CacheEntry>, int) {
    let i = find_key(entries, key@, 0);
    if i < entries.len() {
        (entries, i)
    } else {
        (entries.push(CacheEntry { key, pipeline: None }), i)
    }
}

/// Registering a pipeline that is registered already gives the handle it has
/// and leaves the cache as it is: the same shaders with the same configuration
/// are one entry, compiled once.
pub proof fn lemma_registered_once(entries: Seq<CacheEntry>, key: PipelineKey, again: PipelineKey)
    requires
        again@ == key@,
    ensures
        registered(registered(entries, key).0, again) == (
            registered(entries, key).0,
            registered(entries, key).1,
        ),
{
    lemma_find_key(entries, key@, 0);
    let (after, handle) = registered(entries, key);
    assert forall|j: int| 0 <= j < handle implies after[j].key@ != key@ by {
        assert(after[j] == entries[j]);
    }
    lemma_find_key_is(after, again@, handle);
}

/// The handles of the pipelines that wait to be compiled, in rising order.
pub open spec fn pending_handles(entries: Seq<CacheEntry>) -> Seq<usize>
    decreases entries.len(),
{
    if entries.len() == 0 {
        Seq::empty()
    } else {
        let before = pending_handles(entries.drop_last());
        if entries.last().pipeline is None {
            before.push((entries.len() - 1) as usize)
        } else {
            before
        }
    }
}

/// `pending_handles` lists exactly the entries without a pipeline, each once,
/// in rising order.
pub proof fn lemma_pending_handles(entries: Seq<CacheEntry>)
    requires
        entries.len() <= usize::MAX,
    ensures
        pending_handles(entries).len() <= entries.len(),
        forall|j: int|
            0 <= j < pending_handles(entries).len() ==> (#[trigger] pending_handles(entries)[j])
                < entries.len() && entries[pending_handles(entries)[j] as int].pipeline is None,
        forall|j: int, k: int|
            0 <= j < k < pending_handles(entries).len() ==> pending_handles(entries)[j]
                < pending_handles(entries)[k],
        forall|i: int|
            0 <= i < entries.len() && entries[i].pipeline is None ==> exists|j: int|
                0 <= j < pending_handles(entries).len() && pending_handles(entries)[j] == i,
    decreases entries.len(),
{
    if entries.len() > 0 {
        let shorter = entries.drop_last();
        lemma_pending_handles(shorter);
        let before = pending_handles(shorter);
        let all = pending_handles(entries);
        assert forall|i: int| 0 <= i < entries.len() && entries[i].pipeline is None implies exists|
            j: int,
        |
            0 <= j < all.len() && all[j] == i by {
            if i < shorter.len() {
                assert(shorter[i].pipeline is None);
                let j = choose|j: int| 0 <= j < before.len() && before[j] == i;
                assert(all[j] == i);
            } else {
                assert(all[all.len() - 1] == i);
            }
        }
    }
}

/// What is wrong with the outcome of compiling pipeline `handle`, if anything.
pub open spec fn outcome_error(handle: usize, key: PipelineKey, outcome: CompileOutcome) -> Option<
    CompileError,
> {
    match outcome {
        CompileOutcome::Failed(failure) => Some(
            CompileError::ShaderCompileError {
                pipeline: handle,
                stage: failure.stage,
                reason: failure.reason,
            },
        ),
        CompileOutcome::Compiled(shader) => match resolved(
            shader.reflected_sets@,
            key.set_overrides@,
        ) {
            Err(mismatch) => Some(
                CompileError::ReflectionMismatchError {
                    pipeline: handle,
                    set_index: mismatch.set_index,
                    binding: mismatch.binding,
                },
            ),
            Ok(_) => None,
        },
    }
}

/// `after` is `before` with the pipeline that `outcome` brought: the compiled
/// objects as they came, and each set laid out as the configuration and the
/// reflection together say.
pub open spec fn installs(before: CacheEntry, outcome: CompileOutcome, after: CacheEntry) -> bool {
    &&& after.key == before.key
    &&& outcome is Compiled
    &&& after.pipeline is Some
    &&& after.pipeline->0.pipeline == outcome->Compiled_0.pipeline
    &&& after.pipeline->0.pipeline_layout == outcome->Compiled_0.pipeline_layout
    &&& after.pipeline->0.pipeline_bind_point == before.key.bind_point
    &&& after.pipeline->0.descriptor_pool_sizes == outcome->Compiled_0.descriptor_pool_sizes
    &&& after.pipeline->0.descriptor_set_layouts == outcome->Compiled_0.descriptor_set_layouts
    &&& resolved(outcome->Compiled_0.reflected_sets@, before.key.set_overrides@) == Ok::<
        Seq<Seq<Binding>>,
        LayoutMismatch,
    >(set_views(after.pipeline->0.set_layout_info@))
}

/// How many of the outcomes `prepare_frame` gets to install: all that have a
/// pipeline waiting for them, up to the first that is in error.
pub open spec fn installed_count(
    entries: Seq<CacheEntry>,
    outcomes: Seq<CompileOutcome>,
    from: int,
) -> int
    decreases outcomes.len() - from,
{
    let pending = pending_handles(entries);
    if from < 0 || from >= outcomes.len() || from >= pending.len() {
        from
    } else if outcome_error(pending[from], entries[pending[from] as int].key, outcomes[from])
        is Some {
        from
    } else {
        installed_count(entries, outcomes, from + 1)
    }
}

pub struct PipelineCache {
    entries: Vec<CacheEntry>,
}

impl PipelineCache {
    /// The cache's entries; a handle is an index into them.
    pub closed spec fn view(&self) -> Seq<CacheEntry> {
        self.entries@
    }

    /// Every registered pipeline is compiled.
    pub open spec fn all_ready(&self) -> bool {
        forall|i: int| 0 <= i < self@.len() ==> (#[trigger] self@[i]).pipeline is Some
    }

    /// An empty cache.
    pub fn new() -> (cache: Self)
        ensures
            cache@ == Seq::<CacheEntry>::empty(),
    {
        PipelineCache { entries: Vec::new() }
    }

    pub fn len(&self) -> (n: usize)
        ensures
            n == self@.len(),
    {
        self.entries.len()
    }

    /// Registers a pipeline under `key`. Nothing is compiled yet.
    pub fn register(&mut self, key: PipelineKey) -> (handle: usize)
        ensures
            (final(self)@, handle as int) == registered(old(self)@, key),
            handle < final(self)@.len(),
            final(self)@[handle as int].key@ == key@,
            find_key(final(self)@, key@, 0) == handle,
    {
        let mut i: usize = 0;
        while i < self.entries.len()
            invariant
                i <= self.entries.len(),
                self.entries@ == old(self).entries@,
                forall|j: int| 0 <= j < i ==> self.entries@[j].key@ != key@,
            decreases self.entries.len() - i,
        {
            if self.entries[i].key.same_as(&key) {
                proof {
                    lemma_find_key_is(self.entries@, key@, i as int);
                }
                return i;
            }
            i += 1;
        }
        proof {
            lemma_find_key_is(self.entries@, key@, i as int);
        }
        self.entries.push(CacheEntry { key, pipeline: None });
        proof {
            assert forall|j: int| 0 <= j < i implies self.entries@[j].key@ != key@ by {
                assert(self.entries@[j] == old(self).entries@[j]);
            }
            lemma_find_key_is(self.entries@, key@, i as int);
        }
        i
    }

    /// Registers the compute pipeline made of the shader at `path`.
    pub fn register_compute(&mut self, path: &str, desc: &ComputePipelineDesc) -> (handle:
        ComputePipelineHandle)
        ensures
            handle.0 == find_key(old(self)@, compute_key_view(path@, *desc), 0),
            handle.0 < old(self)@.len() ==> final(self)@ == old(self)@,
            handle.0 == old(self)@.len() ==> {
                &&& final(self)@.len() == old(self)@.len() + 1
                &&& final(self)@[handle.0 as int].pipeline is None
                &&& forall|j: int| 0 <= j < old(self)@.len() ==> final(self)@[j] == old(self)@[j]
            },
            handle.0 < final(self)@.len(),
            final(self)@[handle.0 as int].key@ == compute_key_view(path@, *desc),
            find_key(final(self)@, compute_key_view(path@, *desc), 0) == handle.0,
    {
        proof {
            lemma_find_key(self@, compute_key_view(path@, *desc), 0);
        }
        ComputePipelineHandle(self.register(PipelineKey::compute(path, desc)))
    }

    /// Registers the raster pipeline made of `shaders`.
    pub fn register_raster(
        &mut self,
        shaders: &[RasterPipelineShader],
        desc: &RasterPipelineDesc,
    ) -> (handle: RasterPipelineHandle)
        ensures
            handle.0 == find_key(old(self)@, raster_key_view(shaders@, *desc), 0),
            handle.0 < old(self)@.len() ==> final(self)@ == old(self)@,
            handle.0 == old(self)@.len() ==> {
                &&& final(self)@.len() == old(self)@.len() + 1
                &&& final(self)@[handle.0 as int].pipeline is None
                &&& forall|j: int| 0 <= j < old(self)@.len() ==> final(self)@[j] == old(self)@[j]
            },
            handle.0 < final(self)@.len(),
            final(self)@[handle.0 as int].key@ == raster_key_view(shaders@, *desc),
            find_key(final(self)@, raster_key_view(shaders@, *desc), 0) == handle.0,
    {
        proof {
            lemma_find_key(self@, raster_key_view(shaders@, *desc), 0);
        }
        RasterPipelineHandle(self.register(PipelineKey::raster(shaders, desc)))
    }

    /// The compiled pipeline behind a handle, where there is one. The cache is
    /// not changed: asking again gives the same pipeline.
    pub fn get(&self, handle: usize) -> (pipeline: Option<&ShaderPipelineCommon>)
        ensures
            pipeline is Some <==> handle < self@.len() && self@[handle as int].pipeline is Some,
            pipeline is Some ==> *pipeline->0 == self@[handle as int].pipeline->0,
    {
        if handle < self.entries.len() {
            match &self.entries[handle].pipeline {
                Some(pipeline) => Some(pipeline),
                None => None,
            }
        } else {
            None
        }
    }

    /// The compiled pipeline behind a compute handle, where there is one.
    pub fn get_compute(&self, handle: ComputePipelineHandle) -> (pipeline: Option<
        &ShaderPipelineCommon,
    >)
        ensures
            pipeline is Some <==> handle.0 < self@.len() && self@[handle.0 as int].pipeline is Some,
            pipeline is Some ==> *pipeline->0 == self@[handle.0 as int].pipeline->0,
    {
        self.get(handle.0)
    }

    /// The compiled pipeline behind a raster handle, where there is one.
    pub fn get_raster(&self, handle: RasterPipelineHandle) -> (pipeline: Option<
        &ShaderPipelineCommon,
    >)
        ensures
            pipeline is Some <==> handle.0 < self@.len() && self@[handle.0 as int].pipeline is Some,
            pipeline is Some ==> *pipeline->0 == self@[handle.0 as int].pipeline->0,
    {
        self.get(handle.0)
    }

    /// The key a pipeline is registered under.
    pub fn key(&self, handle: usize) -> (key: Option<&PipelineKey>)
        ensures
            key is Some <==> handle < self@.len(),
            key is Some ==> *key->0 == self@[handle as int].key,
    {
        if handle < self.entries.len() {
            Some(&self.entries[handle].key)
        } else {
            None
        }
    }

    /// The handles of the pipelines that wait to be compiled, in rising order.
    pub fn pending(&self) -> (handles: Vec<usize>)
        ensures
            handles@ == pending_handles(self@),
    {
        let mut handles: Vec<usize> = Vec::new();
        let mut i: usize = 0;
        while i < self.entries.len()
            invariant
                i <= self.entries.len(),
                handles@ == pending_handles(self.entries@.take(i as int)),
            decreases self.entries.len() - i,
        {
            proof {
                assert(self.entries@.take(i + 1).drop_last() =~= self.entries@.take(i as int));
            }
            if self.entries[i].pipeline.is_none() {
                handles.push(i);
            }
            i += 1;
        }
        assert(self.entries@.take(i as int) =~= self.entries@);
        handles
    }

    /// Whether every registered pipeline is compiled.
    pub fn is_ready(&self) -> (ready: bool)
        ensures
            ready == self.all_ready(),
    {
        let mut i: usize = 0;
        while i < self.entries.len()
            invariant
                i <= self.entries.len(),
                forall|j: int| 0 <= j < i ==> (#[trigger] self@[j]).pipeline is Some,
            decreases self.entries.len() - i,
        {
            if self.entries[i].pipeline.is_none() {
                return false;
            }
            i += 1;
        }
        true
    }

    /// Drops the compiled pipeline behind a handle, so that it is compiled anew
    /// when the next frame is prepared. Says whether there was one to drop.
    pub fn invalidate(&mut self, handle: usize) -> (dropped: bool)
        ensures
            dropped == (handle < old(self)@.len() && old(self)@[handle as int].pipeline is Some),
            final(self)@.len() == old(self)@.len(),
            forall|j: int|
                0 <= j < old(self)@.len() && j != handle ==> final(self)@[j] == old(self)@[j],
            handle < old(self)@.len() ==> final(self)@[handle as int].key == old(self)@[handle as int].key && final(self)@[handle as int].pipeline is None,
    {
        if handle >= self.entries.len() {
            return false;
        }
        let entry = self.entries.remove(handle);
        let dropped = entry.pipeline.is_some();
        self.entries.insert(handle, CacheEntry { key: entry.key, pipeline: None });
        dropped
    }

    /// Finishes what compiling is outstanding, so that no pipeline has to be
    /// waited for once commands are recorded. `outcomes` holds what compiling
    /// each pipeline of `pending()` gave, in that order. They are taken in turn
    /// up to the first that is in error, which is returned; the pipelines
    /// before it are compiled for good, that one and those after it wait for
    /// the next frame.
    pub fn prepare_frame(&mut self, outcomes: Vec<CompileOutcome>) -> (result: Result<
        (),
        CompileError,
    >)
        ensures
            final(self)@.len() == old(self)@.len(),
            forall|j: int|
                0 <= j < installed_count(old(self)@, outcomes@, 0) ==> installs(
                    old(self)@[pending_handles(old(self)@)[j] as int],
                    outcomes@[j],
                    #[trigger] final(self)@[pending_handles(old(self)@)[j] as int],
                ),
            forall|j: int|
                installed_count(old(self)@, outcomes@, 0) <= j < pending_handles(old(self)@).len()
                    ==> #[trigger] final(self)@[pending_handles(old(self)@)[j] as int] == old(self)@[pending_handles(old(self)@)[j] as int],
            forall|i: int|
                0 <= i < old(self)@.len() && old(self)@[i].pipeline is Some
                    ==> #[trigger] final(self)@[i] == old(self)@[i],
            match result {
                Ok(_) => installed_count(old(self)@, outcomes@, 0) == outcomes@.len()
                    || installed_count(old(self)@, outcomes@, 0) == pending_handles(
                    old(self)@,
                ).len(),
                Err(error) => {
                    let at = installed_count(old(self)@, outcomes@, 0);
                    &&& at < outcomes@.len()
                    &&& at < pending_handles(old(self)@).len()
                    &&& outcome_error(
                        pending_handles(old(self)@)[at],
                        old(self)@[pending_handles(old(self)@)[at] as int].key,
                        outcomes@[at],
                    ) == Some(error)
                },
            },
            result is Ok && outcomes@.len() >= pending_handles(old(self)@).len() ==> final(self).all_ready(),
    {
        let handles = self.pending();
        let total = self.entries.len();
        let mut rest = outcomes;
        let mut k: usize = 0;
        proof {
            assert(self@.len() == total);
            lemma_pending_handles(self@);
        }
        while k < handles.len() && rest.len() > 0
            invariant
                handles@ == pending_handles(old(self)@),
                k <= handles@.len(),
                k <= outcomes@.len(),
                rest@ == outcomes@.skip(k as int),
                self@.len() == old(self)@.len(),
                installed_count(old(self)@, outcomes@, 0) == installed_count(
                    old(self)@,
                    outcomes@,
                    k as int,
                ),
                forall|j: int|
                    0 <= j < handles@.len() ==> (#[trigger] handles@[j]) < old(self)@.len() && old(self)@[handles@[j] as int].pipeline is None,
                forall|j: int, l: int| 0 <= j < l < handles@.len() ==> handles@[j] < handles@[l],
                forall|j: int|
                    0 <= j < k ==> installs(
                        old(self)@[handles@[j] as int],
                        outcomes@[j],
                        #[trigger] self@[handles@[j] as int],
                    ),
                forall|j: int|
                    k <= j < handles@.len() ==> #[trigger] self@[handles@[j] as int] == old(self)@[handles@[j] as int],
                forall|i: int|
                    0 <= i < old(self)@.len() && old(self)@[i].pipeline is Some
                        ==> #[trigger] self@[i] == old(self)@[i],
            decreases handles.len() - k,
        {
            let handle = handles[k];
            let ghost before = self@;
            assert(before[handle as int] == old(self)@[handle as int]);
            let outcome = rest.remove(0);
            assert(outcome == outcomes@[k as int]);
            assert(rest@ =~= outcomes@.skip(k + 1));
            match self.install(handle, outcome) {
                Err(error) => {
                    return Err(error);
                },
                Ok(_) => {},
            }
            proof {
                assert forall|j: int| 0 <= j < k + 1 implies installs(
                    old(self)@[handles@[j] as int],
                    outcomes@[j],
                    #[trigger] self@[handles@[j] as int],
                ) by {
                    if j < k {
                        assert(handles@[j] < handles@[k as int]);
                        assert(self@[handles@[j] as int] == before[handles@[j] as int]);
                    }
                }
                assert forall|j: int| k + 1 <= j < handles@.len() implies #[trigger] self@[handles@[j] as int]
                    == old(self)@[handles@[j] as int] by {
                    assert(handles@[k as int] < handles@[j]);
                    assert(self@[handles@[j] as int] == before[handles@[j] as int]);
                }
                assert forall|i: int|
                    0 <= i < old(self)@.len() && old(self)@[i].pipeline is Some implies #[trigger] self@[i]
                    == old(self)@[i] by {
                    assert(self@[i] == before[i]);
                }
            }
            k += 1;
        }
        proof {
            if outcomes@.len() >= handles@.len() {
                assert forall|i: int| 0 <= i < self@.len() implies (#[trigger] self@[i]).pipeline
                    is Some by {
                    if old(self)@[i].pipeline is None {
                        let j = choose|j: int|
                            0 <= j < pending_handles(old(self)@).len() && pending_handles(
                                old(self)@,
                            )[j] == i;
                        assert(installs(
                            old(self)@[handles@[j] as int],
                            outcomes@[j],
                            self@[handles@[j] as int],
                        ));
                    }
                }
            }
        }
        Ok(())
    }

    /// Takes the outcome of compiling the pipeline behind `handle`.
    fn install(&mut self, handle: usize, outcome: CompileOutcome) -> (result: Result<
        (),
        CompileError,
    >)
        requires
            handle < old(self)@.len(),
        ensures
            final(self)@.len() == old(self)@.len(),
            forall|j: int|
                0 <= j < old(self)@.len() && j != handle ==> final(self)@[j] == old(self)@[j],
            match result {
                Ok(_) => outcome_error(handle, old(self)@[handle as int].key, outcome) is None
                    && installs(old(self)@[handle as int], outcome, final(self)@[handle as int]),
                Err(error) => outcome_error(handle, old(self)@[handle as int].key, outcome) == Some(
                    error,
                ) && final(self)@[handle as int] == old(self)@[handle as int],
            },
    {
        match outcome {
            CompileOutcome::Failed(failure) => Err(
                CompileError::ShaderCompileError {
                    pipeline: handle,
                    stage: failure.stage,
                    reason: failure.reason,
                },
            ),
            CompileOutcome::Compiled(shader) => {
                match resolve_set_layouts(
                    &shader.reflected_sets,
                    &self.entries[handle].key.set_overrides,
                ) {
                    Err(mismatch) => Err(
                        CompileError::ReflectionMismatchError {
                            pipeline: handle,
                            set_index: mismatch.set_index,
                            binding: mismatch.binding,
                        },
                    ),
                    Ok(set_layout_info) => {
                        let entry = self.entries.remove(handle);
                        let pipeline = ShaderPipelineCommon {
                            pipeline: shader.pipeline,
                            pipeline_layout: shader.pipeline_layout,
                            pipeline_bind_point: entry.key.bind_point,
                            set_layout_info,
                            descriptor_pool_sizes: shader.descriptor_pool_sizes,
                            descriptor_set_layouts: shader.descriptor_set_layouts,
                        };
                        self.entries.insert(
                            handle,
                            CacheEntry { key: entry.key, pipeline: Some(pipeline) },
                        );
                        Ok(())
                    },
                }
            },
        }
    }
}

} // verus!
