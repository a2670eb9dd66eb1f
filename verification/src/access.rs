//! Access categories of a resource and the barrier between two of them.
//!
//! The categories are those of `vk_sync`. What a transition between two of them
//! costs in pipeline stages, memory accesses and image layouts is worked out by
//! that crate; this module gives the outcome a name so that contracts can speak
//! of it.

use vstd::prelude::*;

verus! {

/// Makes `vk_sync::AccessType` known to the verifier as the enum that the
/// crate defines: a list of variants that carry no data.
#[verifier::external_type_specification]
pub struct ExAccessType(vk_sync::AccessType);

/// The synchronisation scope of one barrier as raw Vulkan values: pipeline stage
/// masks, access masks and image layouts.
#[derive(Clone, Copy, Debug, PartialEq, Eq, Structural)]
pub struct BarrierScope {
    pub src_stage_mask: u32,
    pub dst_stage_mask: u32,
    pub src_access_mask: u32,
    pub dst_access_mask: u32,
    pub old_layout: i32,
    pub new_layout: i32,
}

/// The scope that `vk_sync::get_image_memory_barrier` derives for a resource
/// that goes from `previous` to `next` with its contents kept.
pub uninterp spec fn image_barrier_scope(
    previous: vk_sync::AccessType,
    next: vk_sync::AccessType,
) -> BarrierScope;

/// Calls `vk_sync::get_image_memory_barrier` with one previous and one next
/// access, optimal layouts and contents kept, and hands back the stage masks,
/// access masks and layouts of what it returns as raw values. The contract
/// claims only that the outcome is a function of the two accesses.
#[verifier::external_body]
fn derive_scope(previous: vk_sync::AccessType, next: vk_sync::AccessType) -> (out: BarrierScope)
    ensures
        out == image_barrier_scope(previous, next),
{
    let barrier = vk_sync::ImageBarrier {
        previous_accesses: &[previous],
        next_accesses: &[next],
        ..Default::default()
    };
    let (src, dst, raw) = vk_sync::get_image_memory_barrier(&barrier);
    BarrierScope {
        src_stage_mask: src.as_raw(),
        dst_stage_mask: dst.as_raw(),
        src_access_mask: raw.src_access_mask.as_raw(),
        dst_access_mask: raw.dst_access_mask.as_raw(),
        old_layout: raw.old_layout.as_raw(),
        new_layout: raw.new_layout.as_raw(),
    }
}

/// Compares two access categories with the `==` that `vk_sync` derives for its
/// enum. The variants carry no data, so the contract claims that it holds
/// exactly when both are the same variant.
#[verifier::external_body]
pub(crate) fn same_access(a: vk_sync::AccessType, b: vk_sync::AccessType) -> (same: bool)
    ensures
        same == (a == b),
{
    a == b
}

/// Which physical resource a barrier or a binding refers to.
#[derive(Clone, Copy, Debug, PartialEq, Eq, Structural)]
pub enum ResourceRef {
    /// An entry of the transient pool, by its index there.
    Transient(usize),
    /// A resource that the caller owns, by the identity the caller gave it.
    Imported(u64),
}

/// One barrier: the resource, the part of it that is affected, the access it
/// leaves and the access it enters, and the scope derived from the two. Of the
/// scope of a barrier on a buffer only the stage and access masks count; a
/// buffer has no layout.
#[derive(Clone, Copy, Debug)]
pub struct Barrier {
    pub resource: ResourceRef,
    pub aspect_mask: u32,
    pub previous: vk_sync::AccessType,
    pub next: vk_sync::AccessType,
    pub scope: BarrierScope,
}

impl Barrier {
    /// The barrier between `previous` and `next` whose scope is the derived one.
    pub open spec fn between(
        resource: ResourceRef,
        aspect_mask: u32,
        previous: vk_sync::AccessType,
        next: vk_sync::AccessType,
    ) -> Barrier {
        Barrier {
            resource,
            aspect_mask,
            previous,
            next,
            scope: image_barrier_scope(previous, next),
        }
    }

    /// Puts a barrier together from a scope that was derived beforehand.
    pub fn with_scope(
        resource: ResourceRef,
        previous: vk_sync::AccessType,
        next: vk_sync::AccessType,
        aspect_mask: u32,
        scope: BarrierScope,
    ) -> (barrier: Barrier)
        ensures
            barrier == (Barrier { resource, aspect_mask, previous, next, scope }),
    {
        Barrier { resource, aspect_mask, previous, next, scope }
    }

    /// The barrier that takes `resource` from `previous` to `next`.
    pub fn new(
        resource: ResourceRef,
        previous: vk_sync::AccessType,
        next: vk_sync::AccessType,
        aspect_mask: u32,
    ) -> (barrier: Barrier)
        ensures
            barrier == Barrier::between(resource, aspect_mask, previous, next),
    {
        let scope = derive_scope(previous, next);
        Barrier::with_scope(resource, previous, next, aspect_mask, scope)
    }
}

} // verus!
