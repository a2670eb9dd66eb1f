//! Compiling a graph: the passes stay in the order in which they were declared,
//! every resource gets the usage flags that all its uses together call for,
//! and every pipeline is registered with the cache.

use vstd::prelude::*;
use crate::error::CompileError;
use crate::graph::{GraphResource, Pass, PassAccess, RenderGraph, ResourceOrigin};
use crate::layout::{SetLayout, SetOverride};
use crate::pipeline_cache::{find_key, lemma_find_key, KeyView, PipelineCache, PipelineKey};
use crate::resource::{
    lemma_covers_transitive, lemma_union_covers_parts, lemma_usage_covers_itself, usage_covers,
    ResourceDesc,
};
use crate::usage::{required_usage, usage_needed};

verus! {

/// The descriptor set that holds the frame's constants.
pub const FRAME_CONSTANTS_SET: u32 = 2;

/// A pass of a compiled graph.
#[derive(Debug)]
pub struct CompiledPass {
    pub name: String,
    /// What the pass reads, then what it writes.
    pub accesses: Vec<PassAccess>,
    /// The handle of its pipeline in the cache, where it has one.
    pub pipeline: Option<usize>,
    pub callback: usize,
}

/// A graph that is ready to run.
#[derive(Debug)]
pub struct CompiledRenderGraph {
    pub resources: Vec<GraphResource>,
    pub passes: Vec<CompiledPass>,
}

impl CompiledRenderGraph {
    /// Every pass names resources of the graph only.
    pub open spec fn wf(&self) -> bool {
        forall|j: int, i: int|
            0 <= j < self.passes@.len() && 0 <= i < self.passes@[j].accesses@.len() ==> (
            #[trigger] self.passes@[j].accesses@[i]).handle.resource < self.resources@.len()
    }

    /// Whether every pass names resources of the graph only.
    pub fn is_well_formed(&self) -> (ok: bool)
        ensures
            ok == self.wf(),
    {
        let mut j: usize = 0;
        while j < self.passes.len()
            invariant
                j <= self.passes.len(),
                forall|k: int, i: int|
                    0 <= k < j && 0 <= i < self.passes@[k].accesses@.len() ==> (
                    #[trigger] self.passes@[k].accesses@[i]).handle.resource < self.resources@.len(),
            decreases self.passes.len() - j,
        {
            let mut i: usize = 0;
            while i < self.passes[j].accesses.len()
                invariant
                    j < self.passes.len(),
                    i <= self.passes@[j as int].accesses@.len(),
                    forall|l: int|
                        0 <= l < i ==> (#[trigger] self.passes@[j as int].accesses@[l]).handle.resource
                            < self.resources@.len(),
                decreases self.passes@[j as int].accesses@.len() - i,
            {
                if self.passes[j].accesses[i].handle.resource >= self.resources.len() {
                    return false;
                }
                i += 1;
            }
            j += 1;
        }
        true
    }
}

/// Nothing stands behind the import.
pub open spec fn unresolved(resource: GraphResource) -> bool {
    match resource.origin {
        ResourceOrigin::Imported { raw, .. } => raw == 0,
        ResourceOrigin::Created => false,
    }
}

/// The first resource, at or after `from`, that is an import with nothing
/// behind it, or the number of resources.
pub open spec fn first_unresolved(resources: Seq<GraphResource>, from: int) -> int
    decreases resources.len() - from,
{
    if from < 0 || from >= resources.len() {
        resources.len() as int
    } else if unresolved(resources[from]) {
        from
    } else {
        first_unresolved(resources, from + 1)
    }
}

/// The resource can be used as the access says: its kind allows it, and where
/// the resource is imported it was created with the flags that this takes.
pub open spec fn fits(resources: Seq<GraphResource>, access: PassAccess) -> bool {
    &&& access.handle.resource < resources.len()
    &&& match required_usage(resources[access.handle.resource as int].desc, access.access) {
        None => false,
        Some(usage) => resources[access.handle.resource as int].origin is Imported ==> usage_covers(
            resources[access.handle.resource as int].desc.usage(),
            usage,
        ),
    }
}

/// The first access, at or after `from`, that does not fit, or the number of
/// accesses.
pub open spec fn first_misfit(resources: Seq<GraphResource>, accesses: Seq<PassAccess>, from: int) -> int
    decreases accesses.len() - from,
{
    if from < 0 || from >= accesses.len() {
        accesses.len() as int
    } else if !fits(resources, accesses[from]) {
        from
    } else {
        first_misfit(resources, accesses, from + 1)
    }
}

/// The resource of the first access of the pass that does not fit, reads
/// before writes.
pub open spec fn pass_conflict(resources: Seq<GraphResource>, pass: Pass) -> Option<usize> {
    let r = first_misfit(resources, pass.reads@, 0);
    let w = first_misfit(resources, pass.writes@, 0);
    if r < pass.reads@.len() {
        Some(pass.reads@[r].handle.resource)
    } else if w < pass.writes@.len() {
        Some(pass.writes@[w].handle.resource)
    } else {
        None
    }
}

/// The first pass, at or after `from`, with an access that does not fit, or
/// the number of passes.
pub open spec fn first_conflicting(resources: Seq<GraphResource>, passes: Seq<Pass>, from: int) -> int
    decreases passes.len() - from,
{
    if from < 0 || from >= passes.len() {
        passes.len() as int
    } else if pass_conflict(resources, passes[from]) is Some {
        from
    } else {
        first_conflicting(resources, passes, from + 1)
    }
}

/// A resource that is unresolved, with none before it, is what
/// `first_unresolved` finds; where `i` is the number of resources, none is.
pub proof fn lemma_first_unresolved_is(resources: Seq<GraphResource>, i: int)
    requires
        0 <= i <= resources.len(),
        i < resources.len() ==> unresolved(resources[i]),
        forall|r: int| 0 <= r < i ==> !unresolved(#[trigger] resources[r]),
    ensures
        first_unresolved(resources, 0) == i,
{
    lemma_first_unresolved_from(resources, i, 0);
}

proof fn lemma_first_unresolved_from(resources: Seq<GraphResource>, i: int, from: int)
    requires
        0 <= from <= i <= resources.len(),
        i < resources.len() ==> unresolved(resources[i]),
        forall|r: int| 0 <= r < i ==> !unresolved(#[trigger] resources[r]),
    ensures
        first_unresolved(resources, from) == i,
    decreases i - from,
{
    if from < i {
        assert(!unresolved(resources[from]));
        lemma_first_unresolved_from(resources, i, from + 1);
    }
}

/// Where every access of a list fits, `first_misfit` finds none.
pub proof fn lemma_all_fit(resources: Seq<GraphResource>, accesses: Seq<PassAccess>, from: int)
    requires
        0 <= from <= accesses.len(),
        forall|i: int| 0 <= i < accesses.len() ==> fits(resources, #[trigger] accesses[i]),
    ensures
        first_misfit(resources, accesses, from) == accesses.len(),
    decreases accesses.len() - from,
{
    if from < accesses.len() {
        assert(fits(resources, accesses[from]));
        lemma_all_fit(resources, accesses, from + 1);
    }
}

/// Where no pass has a conflict, `first_conflicting` finds none.
pub proof fn lemma_none_conflicting(resources: Seq<GraphResource>, passes: Seq<Pass>, from: int)
    requires
        0 <= from <= passes.len(),
        forall|j: int| 0 <= j < passes.len() ==> pass_conflict(resources, #[trigger] passes[j]) is None,
    ensures
        first_conflicting(resources, passes, from) == passes.len(),
    decreases passes.len() - from,
{
    if from < passes.len() {
        assert(pass_conflict(resources, passes[from]) is None);
        lemma_none_conflicting(resources, passes, from + 1);
    }
}

/// Why a graph does not compile, if it does not: the first import with nothing
/// behind it, or else the first access that does not fit its resource.
pub open spec fn compilation_error(resources: Seq<GraphResource>, passes: Seq<Pass>) -> Option<
    CompileError,
> {
    let u = first_unresolved(resources, 0);
    let c = first_conflicting(resources, passes, 0);
    if u < resources.len() {
        Some(CompileError::UnresolvedImport { resource: u as usize })
    } else if c < passes.len() {
        Some(
            CompileError::DescriptorConflict {
                resource: pass_conflict(resources, passes[c])->0,
                pass: c as usize,
            },
        )
    } else {
        None
    }
}

/// `usage` together with what each of `accesses` that is to resource `r` takes.
pub open spec fn usage_with(usage: u32, desc: ResourceDesc, r: int, accesses: Seq<PassAccess>) -> u32
    decreases accesses.len(),
{
    if accesses.len() == 0 {
        usage
    } else {
        let before = usage_with(usage, desc, r, accesses.drop_last());
        if accesses.last().handle.resource == r {
            match required_usage(desc, accesses.last().access) {
                Some(needed) => before | needed,
                None => before,
            }
        } else {
            before
        }
    }
}

/// `usage` together with what every access of `passes` to resource `r` takes.
pub open spec fn usage_over(usage: u32, desc: ResourceDesc, r: int, passes: Seq<Pass>) -> u32
    decreases passes.len(),
{
    if passes.len() == 0 {
        usage
    } else {
        usage_with(
            usage_with(
                usage_over(usage, desc, r, passes.drop_last()),
                desc,
                r,
                passes.last().reads@,
            ),
            desc,
            r,
            passes.last().writes@,
        )
    }
}

/// Merging the accesses of a list into flags only adds flags.
pub proof fn lemma_usage_with_keeps(usage: u32, desc: ResourceDesc, r: int, accesses: Seq<PassAccess>)
    ensures
        usage_covers(usage_with(usage, desc, r, accesses), usage),
    decreases accesses.len(),
{
    if accesses.len() == 0 {
        lemma_usage_covers_itself(usage);
    } else {
        let before = usage_with(usage, desc, r, accesses.drop_last());
        lemma_usage_with_keeps(usage, desc, r, accesses.drop_last());
        let after = usage_with(usage, desc, r, accesses);
        if after != before {
            let needed = required_usage(desc, accesses.last().access)->0;
            lemma_union_covers_parts(before, needed);
            lemma_covers_transitive(after, before, usage);
        }
    }
}

/// The flags merged from a list of accesses have what each access to the
/// resource takes.
pub proof fn lemma_usage_with_covers(
    usage: u32,
    desc: ResourceDesc,
    r: int,
    accesses: Seq<PassAccess>,
    i: int,
)
    requires
        0 <= i < accesses.len(),
        accesses[i].handle.resource == r,
        required_usage(desc, accesses[i].access) is Some,
    ensures
        usage_covers(
            usage_with(usage, desc, r, accesses),
            required_usage(desc, accesses[i].access)->0,
        ),
    decreases accesses.len(),
{
    let before = usage_with(usage, desc, r, accesses.drop_last());
    let after = usage_with(usage, desc, r, accesses);
    let wanted = required_usage(desc, accesses[i].access)->0;
    if i == accesses.len() - 1 {
        lemma_union_covers_parts(before, wanted);
    } else {
        lemma_usage_with_covers(usage, desc, r, accesses.drop_last(), i);
        if after != before {
            let needed = required_usage(desc, accesses.last().access)->0;
            lemma_union_covers_parts(before, needed);
            lemma_covers_transitive(after, before, wanted);
        }
    }
}

/// Merging the accesses of a list of passes into flags only adds flags.
pub proof fn lemma_usage_over_keeps(usage: u32, desc: ResourceDesc, r: int, passes: Seq<Pass>)
    ensures
        usage_covers(usage_over(usage, desc, r, passes), usage),
    decreases passes.len(),
{
    if passes.len() == 0 {
        lemma_usage_covers_itself(usage);
    } else {
        let before = usage_over(usage, desc, r, passes.drop_last());
        let read = usage_with(before, desc, r, passes.last().reads@);
        let after = usage_with(read, desc, r, passes.last().writes@);
        lemma_usage_over_keeps(usage, desc, r, passes.drop_last());
        lemma_usage_with_keeps(before, desc, r, passes.last().reads@);
        lemma_usage_with_keeps(read, desc, r, passes.last().writes@);
        lemma_covers_transitive(read, before, usage);
        lemma_covers_transitive(after, read, usage);
    }
}

/// The flags merged from a list of passes have what each access to the
/// resource takes, be it entry `i` of the reads of pass `j` or of its writes.
pub proof fn lemma_usage_over_covers(
    usage: u32,
    desc: ResourceDesc,
    r: int,
    passes: Seq<Pass>,
    j: int,
    i: int,
)
    requires
        0 <= j < passes.len(),
    ensures
        0 <= i < passes[j].reads@.len() && passes[j].reads@[i].handle.resource == r
            && required_usage(desc, passes[j].reads@[i].access) is Some ==> usage_covers(
            usage_over(usage, desc, r, passes),
            required_usage(desc, passes[j].reads@[i].access)->0,
        ),
        0 <= i < passes[j].writes@.len() && passes[j].writes@[i].handle.resource == r
            && required_usage(desc, passes[j].writes@[i].access) is Some ==> usage_covers(
            usage_over(usage, desc, r, passes),
            required_usage(desc, passes[j].writes@[i].access)->0,
        ),
    decreases passes.len(),
{
    let before = usage_over(usage, desc, r, passes.drop_last());
    let read = usage_with(before, desc, r, passes.last().reads@);
    let after = usage_with(read, desc, r, passes.last().writes@);
    lemma_usage_with_keeps(before, desc, r, passes.last().reads@);
    lemma_usage_with_keeps(read, desc, r, passes.last().writes@);
    if j == passes.len() - 1 {
        let reads = passes[j].reads@;
        let writes = passes[j].writes@;
        if 0 <= i < reads.len() && reads[i].handle.resource == r && required_usage(
            desc,
            reads[i].access,
        ) is Some {
            lemma_usage_with_covers(before, desc, r, reads, i);
            lemma_covers_transitive(after, read, required_usage(desc, reads[i].access)->0);
        }
        if 0 <= i < writes.len() && writes[i].handle.resource == r && required_usage(
            desc,
            writes[i].access,
        ) is Some {
            lemma_usage_with_covers(read, desc, r, writes, i);
        }
    } else {
        lemma_usage_over_covers(usage, desc, r, passes.drop_last(), j, i);
        assert(passes.drop_last()[j] == passes[j]);
        let reads = passes[j].reads@;
        let writes = passes[j].writes@;
        if 0 <= i < reads.len() && reads[i].handle.resource == r && required_usage(
            desc,
            reads[i].access,
        ) is Some {
            let wanted = required_usage(desc, reads[i].access)->0;
            lemma_covers_transitive(read, before, wanted);
            lemma_covers_transitive(after, read, wanted);
        }
        if 0 <= i < writes.len() && writes[i].handle.resource == r && required_usage(
            desc,
            writes[i].access,
        ) is Some {
            let wanted = required_usage(desc, writes[i].access)->0;
            lemma_covers_transitive(read, before, wanted);
            lemma_covers_transitive(after, read, wanted);
        }
    }
}

/// The flags a resource is exported for, none where it is not exported.
pub open spec fn export_usage(resource: GraphResource) -> u32 {
    match resource.exported {
        Some(usage) => usage,
        None => 0,
    }
}

/// Resource `r` as the compiled graph holds it. An import stays as it is. A
/// resource that the graph creates gets, on top of the flags it was declared
/// with, those it is exported for and those that each access to it takes.
pub open spec fn compiled_resource(resource: GraphResource, r: int, passes: Seq<Pass>) -> GraphResource {
    match resource.origin {
        ResourceOrigin::Imported { .. } => resource,
        ResourceOrigin::Created => GraphResource {
            desc: resource.desc.with_usage(
                usage_over(
                    resource.desc.usage() | export_usage(resource),
                    resource.desc,
                    r,
                    passes,
                ),
            ),
            ..resource
        },
    }
}

/// A resource that the graph creates is created with every flag it needs: the
/// flags it was declared with, those it is exported for, and those that each
/// access of each pass to it takes. In a graph that compiles, every access has
/// flags that it takes, so nothing that a pass does to the resource is left out.
pub proof fn lemma_compiled_usage_covers_every_use(
    resource: GraphResource,
    r: int,
    passes: Seq<Pass>,
    j: int,
    i: int,
)
    requires
        resource.origin is Created,
        0 <= j < passes.len(),
    ensures
        usage_covers(compiled_resource(resource, r, passes).desc.usage(), resource.desc.usage()),
        usage_covers(compiled_resource(resource, r, passes).desc.usage(), export_usage(resource)),
        compiled_resource(resource, r, passes).desc.same_shape(&resource.desc),
        0 <= i < passes[j].reads@.len() && passes[j].reads@[i].handle.resource == r
            && required_usage(resource.desc, passes[j].reads@[i].access) is Some ==> usage_covers(
            compiled_resource(resource, r, passes).desc.usage(),
            required_usage(resource.desc, passes[j].reads@[i].access)->0,
        ),
        0 <= i < passes[j].writes@.len() && passes[j].writes@[i].handle.resource == r
            && required_usage(resource.desc, passes[j].writes@[i].access) is Some ==> usage_covers(
            compiled_resource(resource, r, passes).desc.usage(),
            required_usage(resource.desc, passes[j].writes@[i].access)->0,
        ),
{
    let declared = resource.desc.usage() | export_usage(resource);
    let merged = usage_over(declared, resource.desc, r, passes);
    lemma_usage_over_keeps(declared, resource.desc, r, passes);
    lemma_union_covers_parts(resource.desc.usage(), export_usage(resource));
    lemma_covers_transitive(merged, declared, resource.desc.usage());
    lemma_covers_transitive(merged, declared, export_usage(resource));
    lemma_usage_over_covers(declared, resource.desc, r, passes, j, i);
}

/// The key of a pass's pipeline once the layout of the frame's constants, where
/// the graph has one, is declared for their set. An override that the pass
/// declares for that set itself comes first and so stands.
pub open spec fn framed(key: KeyView, frame_layout: Option<SetLayout>) -> KeyView {
    match frame_layout {
        None => key,
        Some(layout) => KeyView {
            overrides: key.overrides.push((FRAME_CONSTANTS_SET, layout@)),
            ..key
        },
    }
}

/// Pass `compiled` is pass `declared` as compiled against `cache`.
pub open spec fn compiles_to(
    declared: Pass,
    compiled: CompiledPass,
    frame_layout: Option<SetLayout>,
    cache: PipelineCache,
) -> bool {
    &&& compiled.name == declared.name
    &&& compiled.callback == declared.callback
    &&& compiled.accesses@ == declared.reads@ + declared.writes@
    &&& compiled.pipeline is Some <==> declared.pipeline is Some
    &&& compiled.pipeline is Some ==> {
        &&& compiled.pipeline->0 < cache@.len()
        &&& cache@[compiled.pipeline->0 as int].key@ == framed(
            declared.pipeline->0@,
            frame_layout,
        )
        &&& compiled.pipeline->0 == find_key(
            cache@,
            framed(declared.pipeline->0@, frame_layout),
            0,
        )
    }
}

fn find_unresolved(resources: &Vec<GraphResource>) -> (found: Option<usize>)
    ensures
        found is None <==> first_unresolved(resources@, 0) == resources@.len(),
        found is Some ==> found->0 == first_unresolved(resources@, 0) && found->0
            < resources@.len(),
{
    let mut r: usize = 0;
    while r < resources.len()
        invariant
            r <= resources.len(),
            first_unresolved(resources@, 0) == first_unresolved(resources@, r as int),
        decreases resources.len() - r,
    {
        let missing = match resources[r].origin {
            ResourceOrigin::Imported { raw, .. } => raw == 0,
            ResourceOrigin::Created => false,
        };
        if missing {
            return Some(r);
        }
        r += 1;
    }
    None
}

fn find_misfit(resources: &Vec<GraphResource>, accesses: &Vec<PassAccess>) -> (found: Option<usize>)
    ensures
        found is None <==> first_misfit(resources@, accesses@, 0) == accesses@.len(),
        found is Some ==> found->0 == first_misfit(resources@, accesses@, 0) && found->0
            < accesses@.len(),
{
    let mut i: usize = 0;
    while i < accesses.len()
        invariant
            i <= accesses.len(),
            first_misfit(resources@, accesses@, 0) == first_misfit(resources@, accesses@, i as int),
        decreases accesses.len() - i,
    {
        let access = accesses[i];
        let r = access.handle.resource;
        let ok = r < resources.len() && match usage_needed(&resources[r].desc, access.access) {
            None => false,
            Some(usage) => match resources[r].origin {
                ResourceOrigin::Imported { .. } => resources[r].desc.get_usage() & usage == usage,
                ResourceOrigin::Created => true,
            },
        };
        if !ok {
            return Some(i);
        }
        i += 1;
    }
    None
}

/// A pass, and the resource that it uses in a way that does not fit.
struct Conflict {
    resource: usize,
    pass: usize,
}

fn find_conflict(resources: &Vec<GraphResource>, passes: &Vec<Pass>) -> (found: Option<Conflict>)
    ensures
        found is None <==> first_conflicting(resources@, passes@, 0) == passes@.len(),
        found matches Some(conflict) ==> {
            &&& conflict.pass == first_conflicting(resources@, passes@, 0)
            &&& conflict.pass < passes@.len()
            &&& pass_conflict(resources@, passes@[conflict.pass as int]) == Some(conflict.resource)
        },
{
    let mut j: usize = 0;
    while j < passes.len()
        invariant
            j <= passes.len(),
            first_conflicting(resources@, passes@, 0) == first_conflicting(
                resources@,
                passes@,
                j as int,
            ),
        decreases passes.len() - j,
    {
        match find_misfit(resources, &passes[j].reads) {
            Some(i) => {
                return Some(Conflict { resource: passes[j].reads[i].handle.resource, pass: j });
            },
            None => {},
        }
        match find_misfit(resources, &passes[j].writes) {
            Some(i) => {
                return Some(Conflict { resource: passes[j].writes[i].handle.resource, pass: j });
            },
            None => {},
        }
        j += 1;
    }
    None
}

fn merge_accesses(usage: u32, desc: &ResourceDesc, r: usize, accesses: &Vec<PassAccess>) -> (merged:
    u32)
    ensures
        merged == usage_with(usage, *desc, r as int, accesses@),
{
    let mut merged = usage;
    let mut i: usize = 0;
    while i < accesses.len()
        invariant
            i <= accesses.len(),
            merged == usage_with(usage, *desc, r as int, accesses@.take(i as int)),
        decreases accesses.len() - i,
    {
        proof {
            assert(accesses@.take(i + 1).drop_last() =~= accesses@.take(i as int));
        }
        if accesses[i].handle.resource == r {
            match usage_needed(desc, accesses[i].access) {
                Some(needed) => {
                    merged = merged | needed;
                },
                None => {},
            }
        }
        i += 1;
    }
    assert(accesses@.take(i as int) =~= accesses@);
    merged
}

fn merge_passes(usage: u32, desc: &ResourceDesc, r: usize, passes: &Vec<Pass>) -> (merged: u32)
    ensures
        merged == usage_over(usage, *desc, r as int, passes@),
{
    let mut merged = usage;
    let mut j: usize = 0;
    while j < passes.len()
        invariant
            j <= passes.len(),
            merged == usage_over(usage, *desc, r as int, passes@.take(j as int)),
        decreases passes.len() - j,
    {
        proof {
            assert(passes@.take(j + 1).drop_last() =~= passes@.take(j as int));
        }
        merged = merge_accesses(merged, desc, r, &passes[j].reads);
        merged = merge_accesses(merged, desc, r, &passes[j].writes);
        j += 1;
    }
    assert(passes@.take(j as int) =~= passes@);
    merged
}

fn compile_resources(resources: &Vec<GraphResource>, passes: &Vec<Pass>) -> (compiled: Vec<
    GraphResource,
>)
    ensures
        compiled@.len() == resources@.len(),
        forall|r: int|
            0 <= r < resources@.len() ==> #[trigger] compiled@[r] == compiled_resource(
                resources@[r],
                r,
                passes@,
            ),
{
    let mut compiled: Vec<GraphResource> = Vec::new();
    let mut r: usize = 0;
    while r < resources.len()
        invariant
            r <= resources.len(),
            compiled@.len() == r,
            forall|k: int|
                0 <= k < r ==> #[trigger] compiled@[k] == compiled_resource(
                    resources@[k],
                    k,
                    passes@,
                ),
        decreases resources.len() - r,
    {
        let resource = resources[r];
        let entry = match resource.origin {
            ResourceOrigin::Imported { .. } => resource,
            ResourceOrigin::Created => {
                let exported = match resource.exported {
                    Some(usage) => usage,
                    None => 0,
                };
                let usage = merge_passes(
                    resource.desc.get_usage() | exported,
                    &resource.desc,
                    r,
                    passes,
                );
                GraphResource { desc: resource.desc.set_usage(usage), ..resource }
            },
        };
        compiled.push(entry);
        r += 1;
    }
    compiled
}

/// The key with the layout of the frame's constants declared for their set.
fn frame_key(key: PipelineKey, frame_layout: &Option<SetLayout>) -> (framed_key: PipelineKey)
    ensures
        framed_key@ == framed(key@, *frame_layout),
{
    match frame_layout {
        None => key,
        Some(layout) => {
            let mut framed_key = key;
            let ghost before = framed_key.set_overrides@;
            framed_key.set_overrides.push(
                SetOverride { set_index: FRAME_CONSTANTS_SET, layout: layout.duplicate() },
            );
            assert(crate::pipeline_cache::override_views(framed_key.set_overrides@)
                =~= crate::pipeline_cache::override_views(before).push(
                (FRAME_CONSTANTS_SET, layout@),
            ));
            framed_key
        },
    }
}

/// A key that the cache holds is found at the same place once the cache has
/// grown at its end.
proof fn lemma_find_key_grown(
    entries: Seq<crate::pipeline_cache::CacheEntry>,
    grown: Seq<crate::pipeline_cache::CacheEntry>,
    key: KeyView,
)
    requires
        entries.len() <= grown.len(),
        forall|i: int| 0 <= i < entries.len() ==> grown[i] == entries[i],
        find_key(entries, key, 0) < entries.len(),
    ensures
        find_key(grown, key, 0) == find_key(entries, key, 0),
{
    lemma_find_key(entries, key, 0);
    let at = find_key(entries, key, 0);
    assert forall|j: int| 0 <= j < at implies grown[j].key@ != key by {
        assert(grown[j] == entries[j]);
    }
    assert(grown[at] == entries[at]);
    crate::pipeline_cache::lemma_find_key_is(grown, key, at);
}

impl RenderGraph {
    /// Compiles the graph. The passes keep the order in which they were
    /// declared, which respects what they depend on. Every import must have
    /// something behind it and every access must fit its resource; where one
    /// does not, the error says which, and the cache is left as it was. Else
    /// every resource that the graph creates gets the usage flags that all its
    /// uses call for, and the pipeline of every pass is registered with the
    /// cache, to be compiled when the frame is prepared.
    pub fn compile(self, cache: &mut PipelineCache) -> (result: Result<
        CompiledRenderGraph,
        CompileError,
    >)
        requires
            self.wf(),
        ensures
            match result {
                Ok(compiled) => {
                    &&& compilation_error(self.resources(), self.passes()) is None
                    &&& compiled.wf()
                    &&& compiled.resources@.len() == self.resources().len()
                    &&& forall|r: int|
                        0 <= r < self.resources().len() ==> #[trigger] compiled.resources@[r]
                            == compiled_resource(self.resources()[r], r, self.passes())
                    &&& compiled.passes@.len() == self.passes().len()
                    &&& forall|j: int|
                        0 <= j < self.passes().len() ==> compiles_to(
                            self.passes()[j],
                            #[trigger] compiled.passes@[j],
                            self.frame_layout(),
                            *final(cache),
                        )
                    &&& final(cache)@.len() >= old(cache)@.len()
                    &&& forall|i: int|
                        0 <= i < old(cache)@.len() ==> #[trigger] final(cache)@[i] == old(cache)@[i]
                    &&& forall|i: int|
                        old(cache)@.len() <= i < final(cache)@.len() ==> (#[trigger] final(cache)@[i]).pipeline is None
                },
                Err(error) => {
                    &&& compilation_error(self.resources(), self.passes()) == Some(error)
                    &&& final(cache)@ == old(cache)@
                },
            },
    {
        let (resources, passes, frame_layout) = self.into_parts();
        match find_unresolved(&resources) {
            Some(resource) => {
                return Err(CompileError::UnresolvedImport { resource });
            },
            None => {},
        }
        match find_conflict(&resources, &passes) {
            Some(conflict) => {
                return Err(
                    CompileError::DescriptorConflict {
                        resource: conflict.resource,
                        pass: conflict.pass,
                    },
                );
            },
            None => {},
        }
        let compiled_resources = compile_resources(&resources, &passes);
        let ghost declared = passes@;
        let mut rest = passes;
        let mut compiled_passes: Vec<CompiledPass> = Vec::new();
        while rest.len() > 0
            invariant
                self.wf(),
                declared == self.passes(),
                frame_layout == self.frame_layout(),
                compiled_passes@.len() <= declared.len(),
                rest@ == declared.skip(compiled_passes@.len() as int),
                forall|j: int|
                    0 <= j < compiled_passes@.len() ==> compiles_to(
                        declared[j],
                        #[trigger] compiled_passes@[j],
                        frame_layout,
                        *cache,
                    ),
                cache@.len() >= old(cache)@.len(),
                forall|i: int| 0 <= i < old(cache)@.len() ==> #[trigger] cache@[i] == old(cache)@[i],
                forall|i: int|
                    old(cache)@.len() <= i < cache@.len() ==> (#[trigger] cache@[i]).pipeline is None,
            decreases rest.len(),
        {
            let ghost done = compiled_passes@.len() as int;
            let ghost before = *cache;
            let ghost compiled_before = compiled_passes@;
            let pass = rest.remove(0);
            assert(pass == declared[done]);
            assert(rest@ =~= declared.skip(done + 1));
            let Pass { name, reads, writes, pipeline, callback } = pass;
            let mut accesses = reads;
            let mut tail = writes;
            accesses.append(&mut tail);
            let handle = match pipeline {
                None => None,
                Some(key) => Some(cache.register(frame_key(key, &frame_layout))),
            };
            compiled_passes.push(CompiledPass { name, accesses, pipeline: handle, callback });
            proof {
                assert forall|j: int| 0 <= j < compiled_passes@.len() implies compiles_to(
                    declared[j],
                    #[trigger] compiled_passes@[j],
                    frame_layout,
                    *cache,
                ) by {
                    if j < done {
                        assert(compiled_passes@[j] == compiled_before[j]);
                        assert(compiles_to(declared[j], compiled_before[j], frame_layout, before));
                        if compiled_before[j].pipeline is Some {
                            lemma_find_key_grown(
                                before@,
                                cache@,
                                framed(declared[j].pipeline->0@, frame_layout),
                            );
                        }
                    }
                }
            }
        }
        let compiled = CompiledRenderGraph { resources: compiled_resources, passes: compiled_passes };
        proof {
            assert(declared.skip(compiled.passes@.len() as int).len() == 0);
            assert forall|j: int, i: int|
                0 <= j < compiled.passes@.len() && 0 <= i < compiled.passes@[j].accesses@.len() implies (
            #[trigger] compiled.passes@[j].accesses@[i]).handle.resource
                < compiled.resources@.len() by {
                assert(compiles_to(declared[j], compiled.passes@[j], frame_layout, *cache));
                let reads = declared[j].reads@;
                let writes = declared[j].writes@;
                if i < reads.len() {
                    assert((reads + writes)[i] == reads[i]);
                    crate::graph::lemma_declaration_order_respects_dependencies(self, j, i);
                } else {
                    assert((reads + writes)[i] == writes[i - reads.len()]);
                    crate::graph::lemma_declaration_order_respects_dependencies(
                        self,
                        j,
                        i - reads.len(),
                    );
                }
            }
        }
        Ok(compiled)
    }
}

} // verus!
