//! Running a compiled graph. Every resource that the graph creates is checked
//! out of the transient pool, every pass gets the barriers that bring its
//! resources into the accesses it declares, and what comes of it is a record of
//! the run from which the commands are recorded and the outputs are read.

use vstd::prelude::*;
use crate::access::{Barrier, ResourceRef};
use crate::compile::{CompiledPass, CompiledRenderGraph};
use crate::error::ExecutionError;
use crate::graph::{ExportedHandle, GraphResource, PassAccess, ResourceOrigin};
use crate::resource::{
    ResourceDesc, IMAGE_ASPECT_COLOR, IMAGE_ASPECT_DEPTH, IMAGE_ASPECT_STENCIL,
};
use crate::state_tracker::{state_of, transition_barrier, ResourceStateTracker};
use crate::transient_resource_cache::{
    acquired_all, lemma_replay_reuses, lemma_run_hands_out_each_once, released, PhysicalResource,
    PoolEntry, TransientResourceCache,
};
use vk_sync::AccessType;

verus! {

/// The part of a resource that a barrier on it covers: depth, stencil or both
/// for the depth and stencil formats, colour for every other image, nothing for
/// a buffer.
pub open spec fn aspect_of(desc: ResourceDesc) -> u32 {
    match desc {
        ResourceDesc::Buffer(_) => 0,
        ResourceDesc::Image(image) => if 124 <= image.format <= 126 {
            IMAGE_ASPECT_DEPTH
        } else if image.format == 127 {
            IMAGE_ASPECT_STENCIL
        } else if 128 <= image.format <= 130 {
            IMAGE_ASPECT_DEPTH | IMAGE_ASPECT_STENCIL
        } else {
            IMAGE_ASPECT_COLOR
        },
    }
}

pub fn aspect_mask(desc: &ResourceDesc) -> (mask: u32)
    ensures
        mask == aspect_of(*desc),
{
    match desc {
        ResourceDesc::Buffer(_) => 0,
        ResourceDesc::Image(image) => if 124 <= image.format && image.format <= 126 {
            IMAGE_ASPECT_DEPTH
        } else if image.format == 127 {
            IMAGE_ASPECT_STENCIL
        } else if 128 <= image.format && image.format <= 130 {
            IMAGE_ASPECT_DEPTH | IMAGE_ASPECT_STENCIL
        } else {
            IMAGE_ASPECT_COLOR
        },
    }
}

/// The descriptors of the resources that the graph creates, in the order of
/// the resource table.
pub open spec fn transient_descs(resources: Seq<GraphResource>) -> Seq<ResourceDesc>
    decreases resources.len(),
{
    if resources.len() == 0 {
        Seq::empty()
    } else {
        let before = transient_descs(resources.drop_last());
        match resources.last().origin {
            ResourceOrigin::Created => before.push(resources.last().desc),
            ResourceOrigin::Imported { .. } => before,
        }
    }
}

/// The physical resource behind resource `r`: the caller's, where it is
/// imported, else the one that the pool handed out for it.
pub open spec fn physical_ref(resources: Seq<GraphResource>, ids: Seq<int>, r: int) -> ResourceRef {
    match resources[r].origin {
        ResourceOrigin::Imported { raw, .. } => ResourceRef::Imported(raw),
        ResourceOrigin::Created => ResourceRef::Transient(
            ids[transient_descs(resources.take(r)).len() as int] as usize,
        ),
    }
}

/// The physical resource behind every resource of the table.
pub open spec fn physical_refs(resources: Seq<GraphResource>, ids: Seq<int>) -> Seq<ResourceRef> {
    Seq::new(resources.len(), |r: int| physical_ref(resources, ids, r))
}

/// What is known of the resources when the run starts: every import is in the
/// access it was imported with, and nothing else has been touched.
pub open spec fn initial_states(resources: Seq<GraphResource>) -> Map<ResourceRef, AccessType>
    decreases resources.len(),
{
    if resources.len() == 0 {
        Map::empty()
    } else {
        let before = initial_states(resources.drop_last());
        match resources.last().origin {
            ResourceOrigin::Imported { raw, initial_access } => before.insert(
                ResourceRef::Imported(raw),
                initial_access,
            ),
            ResourceOrigin::Created => before,
        }
    }
}

/// The states after the accesses were made in turn.
pub open spec fn states_after(
    states: Map<ResourceRef, AccessType>,
    refs: Seq<ResourceRef>,
    accesses: Seq<PassAccess>,
) -> Map<ResourceRef, AccessType>
    decreases accesses.len(),
{
    if accesses.len() == 0 {
        states
    } else {
        states_after(states, refs, accesses.drop_last()).insert(
            refs[accesses.last().handle.resource as int],
            accesses.last().access,
        )
    }
}

/// The barriers that making the accesses in turn takes: for each access whose
/// resource is in another access at that point, the one barrier from that
/// access to the new one.
pub open spec fn barriers_for(
    states: Map<ResourceRef, AccessType>,
    refs: Seq<ResourceRef>,
    resources: Seq<GraphResource>,
    accesses: Seq<PassAccess>,
) -> Seq<Barrier>
    decreases accesses.len(),
{
    if accesses.len() == 0 {
        Seq::empty()
    } else {
        let before = barriers_for(states, refs, resources, accesses.drop_last());
        let r = accesses.last().handle.resource as int;
        match transition_barrier(
            refs[r],
            aspect_of(resources[r].desc),
            state_of(states_after(states, refs, accesses.drop_last()), refs[r]),
            accesses.last().access,
        ) {
            None => before,
            Some(barrier) => before.push(barrier),
        }
    }
}

/// The states when pass `j` starts.
pub open spec fn states_before(
    resources: Seq<GraphResource>,
    refs: Seq<ResourceRef>,
    passes: Seq<CompiledPass>,
    j: nat,
) -> Map<ResourceRef, AccessType>
    decreases j,
{
    if j == 0 {
        initial_states(resources)
    } else {
        states_after(
            states_before(resources, refs, passes, (j - 1) as nat),
            refs,
            passes[j - 1].accesses@,
        )
    }
}

/// The physical resource of every access of a pass.
pub open spec fn resolved_accesses(refs: Seq<ResourceRef>, accesses: Seq<PassAccess>) -> Seq<
    ResourceRef,
> {
    Seq::new(accesses.len(), |i: int| refs[accesses[i].handle.resource as int])
}

/// Two resources that the graph creates never share a physical resource within
/// a run.
pub proof fn lemma_transients_are_not_aliased(
    pool: Seq<PoolEntry>,
    resources: Seq<GraphResource>,
    generation: u64,
    a: int,
    b: int,
)
    requires
        0 <= a < b < resources.len(),
        resources[a].origin is Created,
        resources[b].origin is Created,
    ensures
        ({
            let ids = acquired_all(pool, transient_descs(resources), generation).1;
            ids[transient_descs(resources.take(a)).len() as int] != ids[transient_descs(
                resources.take(b),
            ).len() as int]
        }),
{
    lemma_transient_rank(resources, b);
    lemma_transient_rank(resources.take(b), a);
    assert(resources.take(b).take(a) =~= resources.take(a));
    lemma_run_hands_out_each_once(
        pool,
        transient_descs(resources),
        generation,
        transient_descs(resources.take(a)).len() as int,
        transient_descs(resources.take(b)).len() as int,
    );
}

/// A pass whose resource is in the access that the pass declares takes no
/// barrier: an import that is read with the access it was imported with is
/// left alone.
pub proof fn lemma_same_access_takes_no_barrier(
    states: Map<ResourceRef, AccessType>,
    refs: Seq<ResourceRef>,
    resources: Seq<GraphResource>,
    access: PassAccess,
)
    requires
        state_of(states, refs[access.handle.resource as int]) == access.access,
    ensures
        barriers_for(states, refs, resources, seq![access]) == Seq::<Barrier>::empty(),
{
    let one = seq![access];
    assert(one.drop_last() =~= Seq::<PassAccess>::empty());
    assert(one.last() == access);
    assert(barriers_for(states, refs, resources, Seq::<PassAccess>::empty()) == Seq::<
        Barrier,
    >::empty());
    assert(states_after(states, refs, Seq::<PassAccess>::empty()) == states);
}

/// What running one pass takes: the barriers to record before its commands,
/// and the physical resource behind each of its accesses.
#[derive(Debug)]
pub struct PassRecording {
    pub barriers: Vec<Barrier>,
    pub resources: Vec<ResourceRef>,
}

/// A graph that has run. It holds what is needed to record the frame and to
/// read its outputs, and gives its transient resources back when it is done
/// with.
#[derive(Debug)]
pub struct RetiredRenderGraph {
    pub graph: CompiledRenderGraph,
    pub generation: u64,
    /// The transient resources of the run, in the order of the resource table.
    pub acquired: Vec<PhysicalResource>,
    /// The physical resource behind each resource of the table.
    pub physical: Vec<ResourceRef>,
    /// One recording for each pass.
    pub recordings: Vec<PassRecording>,
    /// The access each resource of the table is left in.
    pub last_access: Vec<AccessType>,
}

/// The pool's indices of the resources handed out.
pub open spec fn ids_of(acquired: Seq<PhysicalResource>) -> Seq<int> {
    acquired.map_values(|resource: PhysicalResource| resource.id as int)
}

impl RetiredRenderGraph {
    /// The run has a physical resource and a last access for every resource of
    /// the graph, and a recording for every pass.
    pub open spec fn wf(&self) -> bool {
        &&& self.graph.wf()
        &&& self.physical@.len() == self.graph.resources@.len()
        &&& self.last_access@.len() == self.graph.resources@.len()
        &&& self.recordings@.len() == self.graph.passes@.len()
    }

    /// What the run holds is what running its graph comes to: behind every
    /// resource stands the caller's, where it is imported, or the one that the
    /// pool handed out for it; every pass has, access by access, the barrier
    /// that brings its resource into the access declared where it is in
    /// another, and the physical resource of each access; and every resource is
    /// recorded with the access that the last pass left it in.
    pub open spec fn is_run(&self) -> bool {
        &&& self.wf()
        &&& self.acquired@.len() == transient_descs(self.graph.resources@).len()
        &&& self.physical@ == physical_refs(self.graph.resources@, ids_of(self.acquired@))
        &&& forall|j: int|
            0 <= j < self.graph.passes@.len() ==> {
                &&& (#[trigger] self.recordings@[j]).barriers@ == barriers_for(
                    states_before(
                        self.graph.resources@,
                        self.physical@,
                        self.graph.passes@,
                        j as nat,
                    ),
                    self.physical@,
                    self.graph.resources@,
                    self.graph.passes@[j].accesses@,
                )
                &&& self.recordings@[j].resources@ == resolved_accesses(
                    self.physical@,
                    self.graph.passes@[j].accesses@,
                )
            }
        &&& forall|r: int|
            0 <= r < self.graph.resources@.len() ==> #[trigger] self.last_access@[r] == state_of(
                states_before(
                    self.graph.resources@,
                    self.physical@,
                    self.graph.passes@,
                    self.graph.passes@.len(),
                ),
                self.physical@[r],
            )
    }

    /// The transient resources of the run are what a pool that stood as
    /// `before` hands out for the resources that the graph creates, one
    /// `acquire` each in the order of the resource table, which leaves the pool
    /// as `after`. Each comes with the descriptor its pool entry was created
    /// with, which can stand in for the one wanted, and is fresh exactly where
    /// the pool had to grow for it.
    pub open spec fn took_from(&self, before: Seq<PoolEntry>, after: Seq<PoolEntry>) -> bool {
        &&& (after, ids_of(self.acquired@)) == acquired_all(
            before,
            transient_descs(self.graph.resources@),
            self.generation,
        )
        &&& self.acquired@.len() == transient_descs(self.graph.resources@).len()
        &&& forall|k: int|
            0 <= k < self.acquired@.len() ==> {
                &&& (#[trigger] self.acquired@[k]).desc.satisfies(
                    &transient_descs(self.graph.resources@)[k],
                )
                &&& self.acquired@[k].id < after.len()
                &&& self.acquired@[k].desc == after[self.acquired@[k].id as int].desc
                &&& self.acquired@[k].fresh == (self.acquired@[k].id >= before.len())
            }
    }

    /// Whether the run has all that `wf` asks for.
    pub fn is_well_formed(&self) -> (ok: bool)
        ensures
            ok == self.wf(),
    {
        self.graph.is_well_formed() && self.physical.len() == self.graph.resources.len()
            && self.last_access.len() == self.graph.resources.len() && self.recordings.len()
            == self.graph.passes.len()
    }

    /// The physical resource behind an exported handle and the access it was
    /// left in, for the caller to go on from. `None` where the handle is not
    /// of an exported resource of this graph.
    pub fn get_image(&self, exported: ExportedHandle) -> (output: Option<(ResourceRef, AccessType)>)
        requires
            self.wf(),
        ensures
            output is Some <==> exported.resource < self.graph.resources@.len()
                && self.graph.resources@[exported.resource as int].exported is Some,
            output is Some ==> output == Some(
                (
                    self.physical@[exported.resource as int],
                    self.last_access@[exported.resource as int],
                ),
            ),
    {
        if exported.resource < self.graph.resources.len()
            && self.graph.resources[exported.resource].exported.is_some() {
            Some((self.physical[exported.resource], self.last_access[exported.resource]))
        } else {
            None
        }
    }

    /// Gives the transient resources of the run back to the pool. Nothing but
    /// what this run's generation holds is touched, and no memory is given up.
    pub fn release_resources(self, pool: &mut TransientResourceCache)
        ensures
            final(pool)@ == released(old(pool)@, self.generation),
    {
        pool.release_all(self.generation);
    }

    /// Ends a run in which the commands of pass `pass` could not be recorded.
    /// The transient resources go back to the pool as after a run that went
    /// well; the error names the pass.
    pub fn fail(self, pool: &mut TransientResourceCache, pass: usize) -> (error: ExecutionError)
        ensures
            final(pool)@ == released(old(pool)@, self.generation),
            error.pass == pass,
            pass < self.graph.passes@.len() ==> error.pass_name == self.graph.passes@[pass as int].name,
            pass >= self.graph.passes@.len() ==> error.pass_name@ == Seq::<char>::empty(),
    {
        pool.release_all(self.generation);
        let pass_name = if pass < self.graph.passes.len() {
            self.graph.passes[pass].name.clone()
        } else {
            String::new()
        };
        ExecutionError { pass, pass_name }
    }
}

fn wanted_descs(resources: &Vec<GraphResource>) -> (wanted: Vec<ResourceDesc>)
    ensures
        wanted@ == transient_descs(resources@),
{
    let mut wanted: Vec<ResourceDesc> = Vec::new();
    let mut r: usize = 0;
    while r < resources.len()
        invariant
            r <= resources.len(),
            wanted@ == transient_descs(resources@.take(r as int)),
        decreases resources.len() - r,
    {
        proof {
            assert(resources@.take(r + 1).drop_last() =~= resources@.take(r as int));
        }
        match resources[r].origin {
            ResourceOrigin::Created => {
                wanted.push(resources[r].desc);
            },
            ResourceOrigin::Imported { .. } => {},
        }
        r += 1;
    }
    assert(resources@.take(r as int) =~= resources@);
    wanted
}

/// There are no more transient descriptors among the first `r` resources than
/// in the whole table.
proof fn lemma_transient_rank(resources: Seq<GraphResource>, r: int)
    requires
        0 <= r < resources.len(),
        resources[r].origin is Created,
    ensures
        transient_descs(resources.take(r)).len() < transient_descs(resources).len(),
    decreases resources.len(),
{
    let shorter = resources.drop_last();
    if r == resources.len() - 1 {
        assert(resources.take(r) =~= shorter);
    } else {
        lemma_transient_rank(shorter, r);
        assert(shorter.take(r) =~= resources.take(r));
    }
}

fn resolve_resources(resources: &Vec<GraphResource>, acquired: &Vec<PhysicalResource>) -> (physical:
    Vec<ResourceRef>)
    requires
        acquired@.len() == transient_descs(resources@).len(),
    ensures
        physical@ == physical_refs(resources@, ids_of(acquired@)),
{
    let mut physical: Vec<ResourceRef> = Vec::new();
    let total = acquired.len();
    let mut next: usize = 0;
    let mut r: usize = 0;
    while r < resources.len()
        invariant
            r <= resources.len(),
            acquired@.len() == total,
            acquired@.len() == transient_descs(resources@).len(),
            next == transient_descs(resources@.take(r as int)).len(),
            physical@.len() == r,
            forall|k: int|
                0 <= k < r ==> #[trigger] physical@[k] == physical_ref(
                    resources@,
                    ids_of(acquired@),
                    k,
                ),
        decreases resources.len() - r,
    {
        proof {
            assert(resources@.take(r + 1).drop_last() =~= resources@.take(r as int));
        }
        match resources[r].origin {
            ResourceOrigin::Imported { raw, .. } => {
                physical.push(ResourceRef::Imported(raw));
            },
            ResourceOrigin::Created => {
                proof {
                    lemma_transient_rank(resources@, r as int);
                }
                physical.push(ResourceRef::Transient(acquired[next].id));
                next += 1;
            },
        }
        r += 1;
    }
    assert(physical@ =~= physical_refs(resources@, ids_of(acquired@)));
    physical
}

fn start_tracking(resources: &Vec<GraphResource>) -> (tracker: ResourceStateTracker)
    ensures
        tracker.wf(),
        tracker@ == initial_states(resources@),
{
    let mut tracker = ResourceStateTracker::new();
    let mut r: usize = 0;
    while r < resources.len()
        invariant
            r <= resources.len(),
            tracker.wf(),
            tracker@ == initial_states(resources@.take(r as int)),
        decreases resources.len() - r,
    {
        proof {
            assert(resources@.take(r + 1).drop_last() =~= resources@.take(r as int));
        }
        match resources[r].origin {
            ResourceOrigin::Imported { raw, initial_access } => {
                tracker.assume_access(
                    ResourceRef::Imported(raw),
                    aspect_mask(&resources[r].desc),
                    initial_access,
                );
            },
            ResourceOrigin::Created => {},
        }
        r += 1;
    }
    assert(resources@.take(r as int) =~= resources@);
    tracker
}

fn record_pass(
    tracker: &mut ResourceStateTracker,
    resources: &Vec<GraphResource>,
    physical: &Vec<ResourceRef>,
    accesses: &Vec<PassAccess>,
) -> (recording: PassRecording)
    requires
        old(tracker).wf(),
        physical@.len() == resources@.len(),
        forall|i: int|
            0 <= i < accesses@.len() ==> (#[trigger] accesses@[i]).handle.resource
                < resources@.len(),
    ensures
        final(tracker).wf(),
        final(tracker)@ == states_after(old(tracker)@, physical@, accesses@),
        recording.barriers@ == barriers_for(old(tracker)@, physical@, resources@, accesses@),
        recording.resources@ == resolved_accesses(physical@, accesses@),
{
    let mut barriers: Vec<Barrier> = Vec::new();
    let mut refs: Vec<ResourceRef> = Vec::new();
    let mut i: usize = 0;
    while i < accesses.len()
        invariant
            i <= accesses.len(),
            tracker.wf(),
            physical@.len() == resources@.len(),
            forall|k: int|
                0 <= k < accesses@.len() ==> (#[trigger] accesses@[k]).handle.resource
                    < resources@.len(),
            tracker@ == states_after(old(tracker)@, physical@, accesses@.take(i as int)),
            barriers@ == barriers_for(
                old(tracker)@,
                physical@,
                resources@,
                accesses@.take(i as int),
            ),
            refs@ == resolved_accesses(physical@, accesses@).take(i as int),
        decreases accesses.len() - i,
    {
        proof {
            assert(accesses@.take(i + 1).drop_last() =~= accesses@.take(i as int));
            assert(accesses@.take(i + 1).last() == accesses@[i as int]);
        }
        let access = accesses[i];
        let r = access.handle.resource;
        let resource = physical[r];
        match tracker.transition(resource, aspect_mask(&resources[r].desc), access.access) {
            None => {},
            Some(barrier) => {
                barriers.push(barrier);
            },
        }
        refs.push(resource);
        assert(refs@ =~= resolved_accesses(physical@, accesses@).take(i + 1));
        i += 1;
    }
    proof {
        assert(accesses@.take(i as int) =~= accesses@);
        assert(resolved_accesses(physical@, accesses@).take(i as int) =~= resolved_accesses(
            physical@,
            accesses@,
        ));
    }
    PassRecording { barriers, resources: refs }
}

impl CompiledRenderGraph {
    /// Runs the graph on behalf of `generation`. The resources that the graph
    /// creates are checked out of the pool, one `acquire` each in the order of
    /// the resource table. The passes are taken in order; each gets, access by
    /// access, a barrier where its resource is in another access than the one
    /// declared, and none where it is in that access already.
    pub fn execute(self, pool: &mut TransientResourceCache, generation: u64) -> (retired:
        RetiredRenderGraph)
        requires
            self.wf(),
        ensures
            retired.graph == self,
            retired.generation == generation,
            retired.is_run(),
            retired.took_from(old(pool)@, final(pool)@),
            forall|a: int, b: int|
                0 <= a < b < self.resources@.len() && self.resources@[a].origin is Created
                    && self.resources@[b].origin is Created ==> #[trigger] retired.physical@[a]
                    != #[trigger] retired.physical@[b],
    {
        let wanted = wanted_descs(&self.resources);
        let acquired = pool.acquire_all(&wanted, generation);
        let physical = resolve_resources(&self.resources, &acquired);
        proof {
            assert forall|a: int, b: int|
                0 <= a < b < self.resources@.len() && self.resources@[a].origin is Created
                    && self.resources@[b].origin is Created implies #[trigger] physical@[a]
                != #[trigger] physical@[b] by {
                lemma_transients_are_not_aliased(old(pool)@, self.resources@, generation, a, b);
                lemma_transient_rank(self.resources@, a);
                lemma_transient_rank(self.resources@, b);
            }
        }
        let mut tracker = start_tracking(&self.resources);
        let mut recordings: Vec<PassRecording> = Vec::new();
        let mut j: usize = 0;
        while j < self.passes.len()
            invariant
                j <= self.passes.len(),
                self.wf(),
                tracker.wf(),
                physical@.len() == self.resources@.len(),
                recordings@.len() == j,
                tracker@ == states_before(self.resources@, physical@, self.passes@, j as nat),
                forall|k: int|
                    0 <= k < j ==> {
                        &&& (#[trigger] recordings@[k]).barriers@ == barriers_for(
                            states_before(self.resources@, physical@, self.passes@, k as nat),
                            physical@,
                            self.resources@,
                            self.passes@[k].accesses@,
                        )
                        &&& recordings@[k].resources@ == resolved_accesses(
                            physical@,
                            self.passes@[k].accesses@,
                        )
                    },
            decreases self.passes.len() - j,
        {
            let recording = record_pass(
                &mut tracker,
                &self.resources,
                &physical,
                &self.passes[j].accesses,
            );
            recordings.push(recording);
            j += 1;
        }
        let mut last_access: Vec<AccessType> = Vec::new();
        let mut r: usize = 0;
        while r < self.resources.len()
            invariant
                r <= self.resources.len(),
                tracker.wf(),
                physical@.len() == self.resources@.len(),
                last_access@.len() == r,
                forall|k: int|
                    0 <= k < r ==> #[trigger] last_access@[k] == state_of(tracker@, physical@[k]),
            decreases self.resources.len() - r,
        {
            last_access.push(tracker.access(physical[r]));
            r += 1;
        }
        RetiredRenderGraph { graph: self, generation, acquired, physical, recordings, last_access }
    }
}

/// A graph that runs again after its generation was released gets the very
/// same transient resources, and the pool does not grow: the pool reaches its
/// steady state with the first run.
pub proof fn lemma_second_run_allocates_nothing(
    pool: Seq<PoolEntry>,
    graph: CompiledRenderGraph,
    generation: u64,
    next_generation: u64,
)
    requires
        forall|i: int| 0 <= i < pool.len() ==> (#[trigger] pool[i]).held_by != Some(generation),
    ensures
        ({
            let wanted = transient_descs(graph.resources@);
            let (first, ids) = acquired_all(pool, wanted, generation);
            let (second, again) = acquired_all(
                released(first, generation),
                wanted,
                next_generation,
            );
            &&& again == ids
            &&& second.len() == first.len()
            &&& physical_refs(graph.resources@, again) == physical_refs(graph.resources@, ids)
        }),
{
    lemma_replay_reuses(pool, transient_descs(graph.resources@), generation, next_generation);
}

} // verus!
