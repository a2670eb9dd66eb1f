use render_graph::access::{Barrier, ResourceRef};
use render_graph::state_tracker::{LocalImageStateTracker, ResourceStateTracker};
use vk_sync::AccessType;

const COLOR: u32 = 1;

#[test]
fn there_and_back_emits_two_barriers() {
    let image = ResourceRef::Imported(7);
    let mut tracker = LocalImageStateTracker::new(image, COLOR, AccessType::ComputeShaderWrite);
    let a = AccessType::ComputeShaderWrite;
    let b = AccessType::AnyShaderReadSampledImageOrUniformTexelBuffer;
    let barriers = tracker.transition_all(&vec![a, b, a]);
    assert_eq!(barriers.len(), 2);
    assert_eq!(barriers[0].previous, a);
    assert_eq!(barriers[0].next, b);
    assert_eq!(barriers[1].previous, b);
    assert_eq!(barriers[1].next, a);
    assert_eq!(barriers[0].resource, image);
    assert_eq!(barriers[0].aspect_mask, COLOR);
    assert_eq!(tracker.current_access(), a);
}

#[test]
fn same_access_is_a_no_op() {
    let mut tracker =
        LocalImageStateTracker::new(ResourceRef::Imported(1), COLOR, AccessType::TransferWrite);
    assert!(tracker.transition(AccessType::TransferWrite).is_none());
    assert_eq!(tracker.current_access(), AccessType::TransferWrite);
}

#[test]
fn first_use_waits_for_nothing() {
    let mut tracker =
        LocalImageStateTracker::new(ResourceRef::Transient(0), COLOR, AccessType::Nothing);
    let barrier = tracker.transition(AccessType::ComputeShaderWrite).unwrap();
    // top of pipe, no access to make available, from the undefined layout
    assert_eq!(barrier.scope.src_stage_mask, 0x1);
    assert_eq!(barrier.scope.src_access_mask, 0);
    assert_eq!(barrier.scope.dst_access_mask, 0);
    assert_eq!(barrier.scope.old_layout, 0);
    // to the compute stage, in the general layout
    assert_eq!(barrier.scope.dst_stage_mask, 0x800);
    assert_eq!(barrier.scope.new_layout, 1);
}

#[test]
fn write_then_read_scope_comes_from_vk_sync() {
    let barrier = Barrier::new(
        ResourceRef::Imported(3),
        AccessType::ComputeShaderWrite,
        AccessType::AnyShaderReadSampledImageOrUniformTexelBuffer,
        COLOR,
    );
    assert_eq!(barrier.previous, AccessType::ComputeShaderWrite);
    assert_eq!(barrier.next, AccessType::AnyShaderReadSampledImageOrUniformTexelBuffer);
    // compute shader -> all commands; shader write -> shader read; general -> read only
    assert_eq!(barrier.scope.src_stage_mask, 0x800);
    assert_eq!(barrier.scope.dst_stage_mask, 0x10000);
    assert_eq!(barrier.scope.src_access_mask, 0x40);
    assert_eq!(barrier.scope.dst_access_mask, 0x20);
    assert_eq!(barrier.scope.old_layout, 1);
    assert_eq!(barrier.scope.new_layout, 5);
}

#[test]
fn keyed_tracker_keeps_resources_apart() {
    let mut tracker = ResourceStateTracker::new();
    let a = ResourceRef::Transient(0);
    let b = ResourceRef::Imported(0);
    assert_eq!(tracker.access(a), AccessType::Nothing);
    tracker.assume_access(b, COLOR, AccessType::TransferWrite);
    assert_eq!(tracker.access(b), AccessType::TransferWrite);
    assert_eq!(tracker.access(a), AccessType::Nothing);

    let first = tracker.transition(a, COLOR, AccessType::ComputeShaderWrite).unwrap();
    assert_eq!(first.previous, AccessType::Nothing);
    assert_eq!(first.next, AccessType::ComputeShaderWrite);
    assert_eq!(first.resource, a);
    assert!(tracker.transition(a, COLOR, AccessType::ComputeShaderWrite).is_none());
    assert!(tracker.transition(b, COLOR, AccessType::TransferWrite).is_none());
    let second = tracker.transition(b, COLOR, AccessType::IndexBuffer).unwrap();
    assert_eq!(second.previous, AccessType::TransferWrite);
    assert_eq!(tracker.access(a), AccessType::ComputeShaderWrite);
    assert_eq!(tracker.access(b), AccessType::IndexBuffer);
}

#[test]
fn untouched_resource_asked_for_nothing_takes_no_barrier() {
    let mut tracker = ResourceStateTracker::new();
    assert!(tracker.transition(ResourceRef::Transient(4), 0, AccessType::Nothing).is_none());
}
