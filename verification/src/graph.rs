//! Building a render graph. Passes are declared in the order in which they are
//! to run; each names the resources it reads and writes by handle. A write
//! gives the resource a new version, and only the newest version of a resource
//! can be named, so a pass can depend on earlier passes only.

use vstd::prelude::*;
use crate::error::BuildError;
use crate::layout::SetLayout;
use crate::pipeline_cache::PipelineKey;
use crate::resource::{Buffer, Image, ResourceDesc};
use vk_sync::AccessType;

verus! {

/// A virtual resource at one of its versions. Version 0 is the resource as it
/// was created or imported; version `n + 1` is what pass `n` wrote.
#[derive(Clone, Copy, Debug, PartialEq, Eq, Structural)]
pub struct Handle {
    pub resource: usize,
    pub version: usize,
}

/// A resource whose last version leaves the graph.
#[derive(Clone, Copy, Debug, PartialEq, Eq, Structural)]
pub struct ExportedHandle {
    pub resource: usize,
}

/// One use of a resource by a pass.
#[derive(Clone, Copy, Debug)]
pub struct PassAccess {
    pub handle: Handle,
    pub access: AccessType,
}

/// Where a resource of the graph comes from.
#[derive(Clone, Copy, Debug)]
pub enum ResourceOrigin {
    /// The graph creates it; its memory comes from the transient pool.
    Created,
    /// The caller owns it. `raw` is the caller's name for it, 0 where there is
    /// nothing behind the import; `initial_access` is the access it is in when
    /// the graph starts.
    Imported { raw: u64, initial_access: AccessType },
}

/// One entry of the resource table.
#[derive(Clone, Copy, Debug)]
pub struct GraphResource {
    pub desc: ResourceDesc,
    pub origin: ResourceOrigin,
    /// The newest version: 0, or one more than the index of the last pass
    /// that wrote the resource.
    pub version: usize,
    /// The usage it is exported for, where it is exported.
    pub exported: Option<u32>,
}

/// A declared pass.
#[derive(Debug)]
pub struct Pass {
    pub name: String,
    pub reads: Vec<PassAccess>,
    pub writes: Vec<PassAccess>,
    /// The pipeline the pass records with, where it needs one.
    pub pipeline: Option<PipelineKey>,
    /// The caller's name for what records the pass's commands.
    pub callback: usize,
}

/// The pass writes resource `r`.
pub open spec fn writes_resource(pass: Pass, r: int) -> bool {
    exists|i: int| 0 <= i < pass.writes@.len() && (#[trigger] pass.writes@[i]).handle.resource == r
}

/// Some entry of `writes` is for resource `r`.
pub open spec fn written(writes: Seq<PassAccess>, r: int) -> bool {
    exists|i: int| 0 <= i < writes.len() && (#[trigger] writes[i]).handle.resource == r
}

/// A handle named by pass `j` depends on earlier passes only: its resource
/// exists, its version was produced by a pass before `j`, and no pass between
/// that one and `j` has written the resource since.
pub open spec fn depends_on_earlier(passes: Seq<Pass>, resources: int, j: int, handle: Handle) -> bool {
    &&& handle.resource < resources
    &&& handle.version <= j
    &&& handle.version > 0 ==> writes_resource(passes[handle.version - 1], handle.resource as int)
    &&& forall|k: int|
        handle.version <= k < j ==> !writes_resource(#[trigger] passes[k], handle.resource as int)
}

/// `handle` is the newest version of a resource of the table.
pub open spec fn current(resources: Seq<GraphResource>, handle: Handle) -> bool {
    handle.resource < resources.len() && handle.version
        == resources[handle.resource as int].version
}

/// Entry `i` of the reads, or of the writes, of a call can be named: its
/// handle is current, and among writes no earlier entry is for the same
/// resource.
pub open spec fn nameable(
    resources: Seq<GraphResource>,
    accesses: Seq<PassAccess>,
    exclusive: bool,
    i: int,
) -> bool {
    &&& current(resources, accesses[i].handle)
    &&& exclusive ==> forall|k: int|
        0 <= k < i ==> (#[trigger] accesses[k]).handle.resource != accesses[i].handle.resource
}

/// The first entry, at or after `from`, that cannot be named, or the number of
/// entries where all can.
pub open spec fn first_unnameable(
    resources: Seq<GraphResource>,
    accesses: Seq<PassAccess>,
    exclusive: bool,
    from: int,
) -> int
    decreases accesses.len() - from,
{
    if from < 0 || from >= accesses.len() {
        accesses.len() as int
    } else if !nameable(resources, accesses, exclusive, from) {
        from
    } else {
        first_unnameable(resources, accesses, exclusive, from + 1)
    }
}

/// `first_unnameable` finds the least entry that cannot be named.
pub proof fn lemma_first_unnameable(
    resources: Seq<GraphResource>,
    accesses: Seq<PassAccess>,
    exclusive: bool,
    from: int,
)
    requires
        0 <= from <= accesses.len(),
    ensures
        from <= first_unnameable(resources, accesses, exclusive, from) <= accesses.len(),
        first_unnameable(resources, accesses, exclusive, from) < accesses.len() ==> !nameable(
            resources,
            accesses,
            exclusive,
            first_unnameable(resources, accesses, exclusive, from),
        ),
        forall|i: int|
            from <= i < first_unnameable(resources, accesses, exclusive, from) ==> nameable(
                resources,
                accesses,
                exclusive,
                i,
            ),
    decreases accesses.len() - from,
{
    if from < accesses.len() && nameable(resources, accesses, exclusive, from) {
        lemma_first_unnameable(resources, accesses, exclusive, from + 1);
    }
}

/// What is wrong with the reads and writes of a call, if anything: the first
/// read that cannot be named, or else the first such write.
pub open spec fn naming_error(
    resources: Seq<GraphResource>,
    reads: Seq<PassAccess>,
    writes: Seq<PassAccess>,
) -> Option<BuildError> {
    let r = first_unnameable(resources, reads, false, 0);
    let w = first_unnameable(resources, writes, true, 0);
    if r < reads.len() {
        Some(
            BuildError::InvalidHandle {
                resource: reads[r].handle.resource,
                version: reads[r].handle.version,
                written: false,
                index: r as usize,
            },
        )
    } else if w < writes.len() {
        Some(
            BuildError::InvalidHandle {
                resource: writes[w].handle.resource,
                version: writes[w].handle.version,
                written: true,
                index: w as usize,
            },
        )
    } else {
        None
    }
}

/// The resource table after a pass with these writes was added as pass number
/// `pass`: what it writes is at the version the pass produces.
pub open spec fn after_writes(
    resources: Seq<GraphResource>,
    writes: Seq<PassAccess>,
    pass: int,
) -> Seq<GraphResource> {
    Seq::new(
        resources.len(),
        |r: int|
            if written(writes, r) {
                GraphResource { version: (pass + 1) as usize, ..resources[r] }
            } else {
                resources[r]
            },
    )
}

/// The handles that a pass hands back for its writes.
pub open spec fn produced(writes: Seq<PassAccess>, pass: int) -> Seq<Handle> {
    Seq::new(
        writes.len(),
        |i: int| Handle { resource: writes[i].handle.resource, version: (pass + 1) as usize },
    )
}

/// What a handle of an earlier pass depended on is not changed by a pass
/// added at the end.
proof fn lemma_depends_still(earlier: Seq<Pass>, added: Pass, resources: int, j: int, handle: Handle)
    requires
        0 <= j < earlier.len(),
        depends_on_earlier(earlier, resources, j, handle),
    ensures
        depends_on_earlier(earlier.push(added), resources, j, handle),
{
    let longer = earlier.push(added);
    if handle.version > 0 {
        assert(longer[handle.version - 1] == earlier[handle.version - 1]);
    }
    assert forall|k: int| handle.version <= k < j implies !writes_resource(
        #[trigger] longer[k],
        handle.resource as int,
    ) by {
        assert(longer[k] == earlier[k]);
    }
}

/// A handle that is current when a pass is added depends on earlier passes
/// only.
proof fn lemma_current_depends(
    earlier: Seq<Pass>,
    added: Pass,
    resources: Seq<GraphResource>,
    handle: Handle,
)
    requires
        current(resources, handle),
        resources[handle.resource as int].version <= earlier.len(),
        resources[handle.resource as int].version > 0 ==> writes_resource(
            earlier[resources[handle.resource as int].version - 1],
            handle.resource as int,
        ),
        forall|k: int|
            resources[handle.resource as int].version <= k < earlier.len() ==> !writes_resource(
                #[trigger] earlier[k],
                handle.resource as int,
            ),
    ensures
        depends_on_earlier(earlier.push(added), resources.len() as int, earlier.len() as int, handle),
{
    let longer = earlier.push(added);
    if handle.version > 0 {
        assert(longer[handle.version - 1] == earlier[handle.version - 1]);
    }
    assert forall|k: int| handle.version <= k < earlier.len() implies !writes_resource(
        #[trigger] longer[k],
        handle.resource as int,
    ) by {
        assert(longer[k] == earlier[k]);
    }
}

pub struct RenderGraph {
    resources: Vec<GraphResource>,
    passes: Vec<Pass>,
    frame_layout: Option<SetLayout>,
}

impl RenderGraph {
    /// The resource table.
    pub closed spec fn resources(&self) -> Seq<GraphResource> {
        self.resources@
    }

    /// The passes, in the order in which they were declared.
    pub closed spec fn passes(&self) -> Seq<Pass> {
        self.passes@
    }

    /// The layout that every pipeline of the graph gets for the set of the
    /// frame's constants, where there is one.
    pub closed spec fn frame_layout(&self) -> Option<SetLayout> {
        self.frame_layout
    }

    /// What holds of every graph: the version of a resource is the pass that
    /// last wrote it, and every handle that a pass names depends on earlier
    /// passes only.
    pub open spec fn wf(&self) -> bool {
        &&& forall|r: int|
            0 <= r < self.resources().len() ==> {
                &&& (#[trigger] self.resources()[r]).version <= self.passes().len()
                &&& self.resources()[r].version > 0 ==> writes_resource(
                    self.passes()[self.resources()[r].version - 1],
                    r,
                )
                &&& forall|k: int|
                    self.resources()[r].version <= k < self.passes().len() ==> !writes_resource(
                        #[trigger] self.passes()[k],
                        r,
                    )
            }
        &&& forall|j: int, i: int|
            0 <= j < self.passes().len() && 0 <= i < self.passes()[j].reads@.len()
                ==> depends_on_earlier(
                self.passes(),
                self.resources().len() as int,
                j,
                (#[trigger] self.passes()[j].reads@[i]).handle,
            )
        &&& forall|j: int, i: int|
            0 <= j < self.passes().len() && 0 <= i < self.passes()[j].writes@.len()
                ==> depends_on_earlier(
                self.passes(),
                self.resources().len() as int,
                j,
                (#[trigger] self.passes()[j].writes@[i]).handle,
            )
    }

    /// A graph with no resources and no passes.
    pub fn new(frame_layout: Option<SetLayout>) -> (graph: Self)
        ensures
            graph.wf(),
            graph.resources() == Seq::<GraphResource>::empty(),
            graph.passes() == Seq::<Pass>::empty(),
            graph.frame_layout() == frame_layout,
    {
        RenderGraph { resources: Vec::new(), passes: Vec::new(), frame_layout }
    }

    pub fn resource_count(&self) -> (n: usize)
        ensures
            n == self.resources().len(),
    {
        self.resources.len()
    }

    pub fn pass_count(&self) -> (n: usize)
        ensures
            n == self.passes().len(),
    {
        self.passes.len()
    }

    fn add_resource(&mut self, desc: ResourceDesc, origin: ResourceOrigin) -> (result: Result<
        Handle,
        BuildError,
    >)
        requires
            old(self).wf(),
        ensures
            final(self).wf(),
            final(self).passes() == old(self).passes(),
            final(self).frame_layout() == old(self).frame_layout(),
            match result {
                Ok(handle) => {
                    &&& desc.well_formed()
                    &&& handle.resource == old(self).resources().len()
                    &&& handle.version == 0
                    &&& final(self).resources() == old(self).resources().push(
                        GraphResource { desc, origin, version: 0, exported: None },
                    )
                },
                Err(error) => {
                    &&& !desc.well_formed()
                    &&& error == BuildError::MalformedDescriptor
                    &&& final(self).resources() == old(self).resources()
                },
            },
    {
        if !desc.is_well_formed() {
            return Err(BuildError::MalformedDescriptor);
        }
        let resource = self.resources.len();
        self.resources.push(GraphResource { desc, origin, version: 0, exported: None });
        proof {
            let before = old(self).resources();
            assert forall|r: int| 0 <= r < self.resources().len() implies {
                &&& (#[trigger] self.resources()[r]).version <= self.passes().len()
                &&& self.resources()[r].version > 0 ==> writes_resource(
                    self.passes()[self.resources()[r].version - 1],
                    r,
                )
                &&& forall|k: int|
                    self.resources()[r].version <= k < self.passes().len() ==> !writes_resource(
                        #[trigger] self.passes()[k],
                        r,
                    )
            } by {
                if r < before.len() {
                    assert(self.resources()[r] == before[r]);
                } else {
                    assert forall|k: int| 0 <= k < self.passes().len() implies !writes_resource(
                        #[trigger] self.passes()[k],
                        r,
                    ) by {
                        if writes_resource(self.passes()[k], r) {
                            let i = choose|i: int|
                                0 <= i < self.passes()[k].writes@.len() && (
                                #[trigger] self.passes()[k].writes@[i]).handle.resource == r;
                            assert(depends_on_earlier(
                                old(self).passes(),
                                before.len() as int,
                                k,
                                self.passes()[k].writes@[i].handle,
                            ));
                        }
                    }
                }
            }
        }
        Ok(Handle { resource, version: 0 })
    }

    /// Declares a resource that the graph creates.
    pub fn create_resource(&mut self, desc: ResourceDesc) -> (result: Result<Handle, BuildError>)
        requires
            old(self).wf(),
        ensures
            final(self).wf(),
            final(self).passes() == old(self).passes(),
            final(self).frame_layout() == old(self).frame_layout(),
            match result {
                Ok(handle) => {
                    &&& desc.well_formed()
                    &&& handle.resource == old(self).resources().len()
                    &&& handle.version == 0
                    &&& final(self).resources() == old(self).resources().push(
                        GraphResource {
                            desc,
                            origin: ResourceOrigin::Created,
                            version: 0,
                            exported: None,
                        },
                    )
                },
                Err(error) => {
                    &&& !desc.well_formed()
                    &&& error == BuildError::MalformedDescriptor
                    &&& final(self).resources() == old(self).resources()
                },
            },
    {
        self.add_resource(desc, ResourceOrigin::Created)
    }

    /// Takes in an image that the caller owns and that is in `initial_access`.
    pub fn import_image(&mut self, image: Image, initial_access: AccessType) -> (result:
        Result<Handle, BuildError>)
        requires
            old(self).wf(),
        ensures
            final(self).wf(),
            final(self).passes() == old(self).passes(),
            final(self).frame_layout() == old(self).frame_layout(),
            match result {
                Ok(handle) => {
                    &&& image.desc.well_formed()
                    &&& handle.resource == old(self).resources().len()
                    &&& handle.version == 0
                    &&& final(self).resources() == old(self).resources().push(
                        GraphResource {
                            desc: ResourceDesc::Image(image.desc),
                            origin: ResourceOrigin::Imported { raw: image.raw, initial_access },
                            version: 0,
                            exported: None,
                        },
                    )
                },
                Err(error) => {
                    &&& !image.desc.well_formed()
                    &&& error == BuildError::MalformedDescriptor
                    &&& final(self).resources() == old(self).resources()
                },
            },
    {
        self.add_resource(
            ResourceDesc::Image(image.desc),
            ResourceOrigin::Imported { raw: image.raw, initial_access },
        )
    }

    /// Takes in a buffer that the caller owns and that is in `initial_access`.
    pub fn import_buffer(&mut self, buffer: Buffer, initial_access: AccessType) -> (result:
        Result<Handle, BuildError>)
        requires
            old(self).wf(),
        ensures
            final(self).wf(),
            final(self).passes() == old(self).passes(),
            final(self).frame_layout() == old(self).frame_layout(),
            match result {
                Ok(handle) => {
                    &&& buffer.desc.size > 0
                    &&& handle.resource == old(self).resources().len()
                    &&& handle.version == 0
                    &&& final(self).resources() == old(self).resources().push(
                        GraphResource {
                            desc: ResourceDesc::Buffer(buffer.desc),
                            origin: ResourceOrigin::Imported { raw: buffer.raw, initial_access },
                            version: 0,
                            exported: None,
                        },
                    )
                },
                Err(error) => {
                    &&& buffer.desc.size == 0
                    &&& error == BuildError::MalformedDescriptor
                    &&& final(self).resources() == old(self).resources()
                },
            },
    {
        self.add_resource(
            ResourceDesc::Buffer(buffer.desc),
            ResourceOrigin::Imported { raw: buffer.raw, initial_access },
        )
    }

    /// Whether `handle` is the newest version of a resource of the graph.
    pub fn is_current(&self, handle: Handle) -> (current: bool)
        ensures
            current == self::current(self.resources(), handle),
    {
        handle.resource < self.resources.len() && handle.version
            == self.resources[handle.resource].version
    }

    /// Marks the resource behind `handle` as leaving the graph, to be used as
    /// `usage` says.
    pub fn export(&mut self, handle: Handle, usage: u32) -> (result: Result<
        ExportedHandle,
        BuildError,
    >)
        requires
            old(self).wf(),
        ensures
            final(self).wf(),
            final(self).passes() == old(self).passes(),
            final(self).frame_layout() == old(self).frame_layout(),
            match result {
                Ok(exported) => {
                    &&& handle.resource < old(self).resources().len()
                    &&& handle.version == old(self).resources()[handle.resource as int].version
                    &&& exported.resource == handle.resource
                    &&& final(self).resources() == old(self).resources().update(
                        handle.resource as int,
                        GraphResource {
                            exported: Some(usage),
                            ..old(self).resources()[handle.resource as int]
                        },
                    )
                },
                Err(error) => {
                    &&& !(handle.resource < old(self).resources().len() && handle.version == old(self).resources()[handle.resource as int].version)
                    &&& error == (BuildError::InvalidHandle {
                        resource: handle.resource,
                        version: handle.version,
                        written: false,
                        index: 0,
                    })
                    &&& final(self).resources() == old(self).resources()
                },
            },
    {
        if !self.is_current(handle) {
            return Err(
                BuildError::InvalidHandle {
                    resource: handle.resource,
                    version: handle.version,
                    written: false,
                    index: 0,
                },
            );
        }
        let entry = self.resources[handle.resource];
        self.resources.set(handle.resource, GraphResource { exported: Some(usage), ..entry });
        proof {
            let before = old(self).resources();
            assert forall|r: int| 0 <= r < self.resources().len() implies {
                &&& (#[trigger] self.resources()[r]).version <= self.passes().len()
                &&& self.resources()[r].version > 0 ==> writes_resource(
                    self.passes()[self.resources()[r].version - 1],
                    r,
                )
                &&& forall|k: int|
                    self.resources()[r].version <= k < self.passes().len() ==> !writes_resource(
                        #[trigger] self.passes()[k],
                        r,
                    )
            } by {
                assert(self.resources()[r].version == before[r].version);
            }
        }
        Ok(ExportedHandle { resource: handle.resource })
    }

    /// Looks for the first entry of `accesses` that cannot be named.
    fn find_unnameable(&self, accesses: &Vec<PassAccess>, exclusive: bool) -> (bad: Option<usize>)
        ensures
            bad is None <==> first_unnameable(self.resources(), accesses@, exclusive, 0)
                == accesses@.len(),
            bad is Some ==> bad->0 == first_unnameable(self.resources(), accesses@, exclusive, 0),
    {
        let mut i: usize = 0;
        while i < accesses.len()
            invariant
                i <= accesses.len(),
                first_unnameable(self.resources(), accesses@, exclusive, 0) == first_unnameable(
                    self.resources(),
                    accesses@,
                    exclusive,
                    i as int,
                ),
            decreases accesses.len() - i,
        {
            let handle = accesses[i].handle;
            if !self.is_current(handle) {
                return Some(i);
            }
            if exclusive {
                let mut k: usize = 0;
                while k < i
                    invariant
                        k <= i,
                        i < accesses.len(),
                        exclusive,
                        handle == accesses@[i as int].handle,
                        current(self.resources(), handle),
                        first_unnameable(self.resources(), accesses@, exclusive, 0)
                            == first_unnameable(self.resources(), accesses@, exclusive, i as int),
                        forall|l: int|
                            0 <= l < k ==> (#[trigger] accesses@[l]).handle.resource
                                != handle.resource,
                    decreases i - k,
                {
                    if accesses[k].handle.resource == handle.resource {
                        assert(accesses@[k as int].handle.resource == handle.resource);
                        assert(!nameable(self.resources(), accesses@, exclusive, i as int));
                        return Some(i);
                    }
                    k += 1;
                }
            }
            i += 1;
        }
        None
    }

    /// Declares a pass that reads and writes the resources named. Each write
    /// produces a new version of its resource; the handles of the new versions
    /// are handed back in the order of `writes`. Where a handle cannot be
    /// named the graph is left as it was.
    pub fn add_pass(
        &mut self,
        name: &str,
        reads: Vec<PassAccess>,
        writes: Vec<PassAccess>,
        pipeline: Option<PipelineKey>,
        callback: usize,
    ) -> (result: Result<Vec<Handle>, BuildError>)
        requires
            old(self).wf(),
        ensures
            final(self).wf(),
            final(self).frame_layout() == old(self).frame_layout(),
            match result {
                Ok(handles) => {
                    &&& naming_error(old(self).resources(), reads@, writes@) is None
                    &&& final(self).passes().len() == old(self).passes().len() + 1
                    &&& forall|j: int|
                        0 <= j < old(self).passes().len() ==> final(self).passes()[j] == old(self).passes()[j]
                    &&& final(self).passes().last().name@ == name@
                    &&& final(self).passes().last().reads == reads
                    &&& final(self).passes().last().writes == writes
                    &&& final(self).passes().last().pipeline == pipeline
                    &&& final(self).passes().last().callback == callback
                    &&& final(self).resources() == after_writes(
                        old(self).resources(),
                        writes@,
                        old(self).passes().len() as int,
                    )
                    &&& handles@ == produced(writes@, old(self).passes().len() as int)
                },
                Err(error) => {
                    &&& naming_error(old(self).resources(), reads@, writes@) == Some(error)
                    &&& final(self).passes() == old(self).passes()
                    &&& final(self).resources() == old(self).resources()
                },
            },
    {
        proof {
            lemma_first_unnameable(self.resources(), reads@, false, 0);
            lemma_first_unnameable(self.resources(), writes@, true, 0);
        }
        match self.find_unnameable(&reads, false) {
            Some(index) => {
                return Err(
                    BuildError::InvalidHandle {
                        resource: reads[index].handle.resource,
                        version: reads[index].handle.version,
                        written: false,
                        index,
                    },
                );
            },
            None => {},
        }
        match self.find_unnameable(&writes, true) {
            Some(index) => {
                return Err(
                    BuildError::InvalidHandle {
                        resource: writes[index].handle.resource,
                        version: writes[index].handle.version,
                        written: true,
                        index,
                    },
                );
            },
            None => {},
        }
        proof {
            assert forall|l: int| 0 <= l < writes@.len() implies current(
                self.resources@,
                writes@[l].handle,
            ) by {
                assert(nameable(self.resources(), writes@, true, l));
            }
        }
        let pass = self.passes.len();
        self.passes.push(Pass { name: name.to_owned(), reads, writes, pipeline, callback });
        let version = self.passes.len();
        let mut handles: Vec<Handle> = Vec::new();
        let mut i: usize = 0;
        while i < self.passes[pass].writes.len()
            invariant
                pass == old(self).passes@.len(),
                version == pass + 1,
                self.passes@.len() == pass + 1,
                self.passes@[pass as int].writes == writes,
                self.passes@[pass as int].reads == reads,
                self.passes@[pass as int].pipeline == pipeline,
                self.passes@[pass as int].callback == callback,
                self.passes@[pass as int].name@ == name@,
                self.passes@ == old(self).passes@.push(self.passes@[pass as int]),
                old(self).wf(),
                first_unnameable(old(self).resources@, reads@, false, 0) == reads@.len(),
                first_unnameable(old(self).resources@, writes@, true, 0) == writes@.len(),
                self.frame_layout == old(self).frame_layout,
                i <= writes@.len(),
                forall|l: int| 0 <= l < writes@.len() ==> current(old(self).resources@, writes@[l].handle),
                self.resources@ == after_writes(old(self).resources@, writes@.take(i as int), pass as int),
                handles@ == produced(writes@, pass as int).take(i as int),
            decreases writes@.len() - i,
        {
            let written_to = self.passes[pass].writes[i].handle.resource;
            assert(current(old(self).resources@, writes@[i as int].handle));
            let entry = self.resources[written_to];
            self.resources.set(written_to, GraphResource { version, ..entry });
            handles.push(Handle { resource: written_to, version });
            proof {
                let shorter = writes@.take(i as int);
                let longer = writes@.take(i + 1);
                assert(longer[i as int] == writes@[i as int]);
                assert forall|r: int| written(longer, r) <==> (written(shorter, r) || r
                    == written_to) by {
                    if written(longer, r) {
                        let l = choose|l: int|
                            0 <= l < longer.len() && (#[trigger] longer[l]).handle.resource == r;
                        if l < i {
                            assert(shorter[l].handle.resource == r);
                        }
                    }
                    if written(shorter, r) {
                        let l = choose|l: int|
                            0 <= l < shorter.len() && (#[trigger] shorter[l]).handle.resource == r;
                        assert(longer[l].handle.resource == r);
                    }
                }
                assert(self.resources@ =~= after_writes(old(self).resources@, longer, pass as int));
                assert(handles@ =~= produced(writes@, pass as int).take(i + 1));
            }
            i += 1;
        }
        proof {
            assert(writes@.take(i as int) =~= writes@);
            assert(produced(writes@, pass as int).take(i as int) =~= produced(writes@, pass as int));
            let before = old(self).resources();
            let earlier = old(self).passes();
            let added = self.passes()[pass as int];
            lemma_first_unnameable(before, reads@, false, 0);
            lemma_first_unnameable(before, writes@, true, 0);
            assert forall|r: int| 0 <= r < self.resources().len() implies {
                &&& (#[trigger] self.resources()[r]).version <= self.passes().len()
                &&& self.resources()[r].version > 0 ==> writes_resource(
                    self.passes()[self.resources()[r].version - 1],
                    r,
                )
                &&& forall|k: int|
                    self.resources()[r].version <= k < self.passes().len() ==> !writes_resource(
                        #[trigger] self.passes()[k],
                        r,
                    )
            } by {
                if written(writes@, r) {
                    assert(writes_resource(added, r));
                } else {
                    assert(self.resources()[r] == before[r]);
                    assert(!writes_resource(added, r));
                    if before[r].version > 0 {
                        assert(self.passes()[before[r].version - 1] == earlier[before[r].version
                            - 1]);
                    }
                    assert forall|k: int|
                        before[r].version <= k < self.passes().len() implies !writes_resource(
                        #[trigger] self.passes()[k],
                        r,
                    ) by {
                        if k < pass {
                            assert(self.passes()[k] == earlier[k]);
                        }
                    }
                }
            }
            assert forall|j: int, l: int|
                0 <= j < self.passes().len() && 0 <= l < self.passes()[j].reads@.len() implies depends_on_earlier(
                self.passes(),
                self.resources().len() as int,
                j,
                (#[trigger] self.passes()[j].reads@[l]).handle,
            ) by {
                let handle = self.passes()[j].reads@[l].handle;
                if j < pass {
                    assert(self.passes()[j] == earlier[j]);
                    assert(depends_on_earlier(earlier, before.len() as int, j, earlier[j].reads@[l].handle));
                    lemma_depends_still(earlier, added, before.len() as int, j, handle);
                } else {
                    assert(nameable(before, reads@, false, l));
                    lemma_current_depends(earlier, added, before, handle);
                }
            }
            assert forall|j: int, l: int|
                0 <= j < self.passes().len() && 0 <= l < self.passes()[j].writes@.len() implies depends_on_earlier(
                self.passes(),
                self.resources().len() as int,
                j,
                (#[trigger] self.passes()[j].writes@[l]).handle,
            ) by {
                let handle = self.passes()[j].writes@[l].handle;
                if j < pass {
                    assert(self.passes()[j] == earlier[j]);
                    assert(depends_on_earlier(earlier, before.len() as int, j, earlier[j].writes@[l].handle));
                    lemma_depends_still(earlier, added, before.len() as int, j, handle);
                } else {
                    assert(nameable(before, writes@, true, l));
                    lemma_current_depends(earlier, added, before, handle);
                }
            }
        }
        Ok(handles)
    }

    /// Takes the graph apart.
    pub fn into_parts(self) -> (parts: (Vec<GraphResource>, Vec<Pass>, Option<SetLayout>))
        ensures
            parts.0@ == self.resources(),
            parts.1@ == self.passes(),
            parts.2 == self.frame_layout(),
    {
        (self.resources, self.passes, self.frame_layout)
    }
}

/// The order in which passes are declared respects what they depend on: a
/// pass that names a version of a resource which some pass wrote comes after
/// that pass, and no pass between the two has written the resource.
pub proof fn lemma_declaration_order_respects_dependencies(graph: RenderGraph, j: int, i: int)
    requires
        graph.wf(),
        0 <= j < graph.passes().len(),
    ensures
        0 <= i < graph.passes()[j].reads@.len() ==> depends_on_earlier(
            graph.passes(),
            graph.resources().len() as int,
            j,
            graph.passes()[j].reads@[i].handle,
        ),
        0 <= i < graph.passes()[j].writes@.len() ==> depends_on_earlier(
            graph.passes(),
            graph.resources().len() as int,
            j,
            graph.passes()[j].writes@[i].handle,
        ),
{
}

} // verus!
