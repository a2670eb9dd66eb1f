//! The last known access of each physical resource, and the barrier that a
//! change of access calls for.

use vstd::prelude::*;
use crate::access::{same_access, Barrier, ResourceRef};
use vk_sync::AccessType;

verus! {

/// What a transition emits: nothing where the access stays the same, else the
/// one barrier from the old access to the new one.
pub open spec fn transition_barrier(
    resource: ResourceRef,
    aspect_mask: u32,
    previous: AccessType,
    next: AccessType,
) -> Option<Barrier> {
    if previous == next {
        None
    } else {
        Some(Barrier::between(resource, aspect_mask, previous, next))
    }
}

/// How many barriers a run of accesses costs a resource whose access is
/// `current` when the run starts.
pub open spec fn barrier_count(current: AccessType, accesses: Seq<AccessType>) -> nat
    decreases accesses.len(),
{
    if accesses.len() == 0 {
        0
    } else {
        let rest = barrier_count(accesses[0], accesses.subrange(1, accesses.len() as int));
        if current == accesses[0] {
            rest
        } else {
            rest + 1
        }
    }
}

/// The access a resource is left in by a run of accesses.
pub open spec fn last_access(current: AccessType, accesses: Seq<AccessType>) -> AccessType {
    if accesses.len() == 0 {
        current
    } else {
        accesses.last()
    }
}

/// The barriers of a run of accesses, in order.
pub open spec fn run_barriers(
    resource: ResourceRef,
    aspect_mask: u32,
    current: AccessType,
    accesses: Seq<AccessType>,
) -> Seq<Barrier>
    decreases accesses.len(),
{
    if accesses.len() == 0 {
        Seq::empty()
    } else {
        let rest = run_barriers(
            resource,
            aspect_mask,
            accesses[0],
            accesses.subrange(1, accesses.len() as int),
        );
        match transition_barrier(resource, aspect_mask, current, accesses[0]) {
            None => rest,
            Some(barrier) => seq![barrier] + rest,
        }
    }
}

/// A run costs as many barriers as `barrier_count` says.
pub proof fn lemma_run_barriers_len(
    resource: ResourceRef,
    aspect_mask: u32,
    current: AccessType,
    accesses: Seq<AccessType>,
)
    ensures
        run_barriers(resource, aspect_mask, current, accesses).len() == barrier_count(
            current,
            accesses,
        ),
    decreases accesses.len(),
{
    if accesses.len() > 0 {
        lemma_run_barriers_len(
            resource,
            aspect_mask,
            accesses[0],
            accesses.subrange(1, accesses.len() as int),
        );
    }
}

/// Appending one access to a run appends the barrier of the last transition.
pub proof fn lemma_run_barriers_push(
    resource: ResourceRef,
    aspect_mask: u32,
    current: AccessType,
    accesses: Seq<AccessType>,
    next: AccessType,
)
    ensures
        run_barriers(resource, aspect_mask, current, accesses.push(next)) == run_barriers(
            resource,
            aspect_mask,
            current,
            accesses,
        ) + match transition_barrier(
            resource,
            aspect_mask,
            last_access(current, accesses),
            next,
        ) {
            None => Seq::<Barrier>::empty(),
            Some(barrier) => seq![barrier],
        },
    decreases accesses.len(),
{
    let longer = accesses.push(next);
    if accesses.len() == 0 {
        assert(longer.subrange(1, longer.len() as int) =~= Seq::<AccessType>::empty());
        assert(run_barriers(resource, aspect_mask, next, Seq::<AccessType>::empty())
            =~= Seq::<Barrier>::empty());
        let tail = match transition_barrier(resource, aspect_mask, current, next) {
            None => Seq::<Barrier>::empty(),
            Some(barrier) => seq![barrier],
        };
        assert(run_barriers(resource, aspect_mask, current, longer) =~= tail);
        assert(run_barriers(resource, aspect_mask, current, accesses) + tail =~= tail);
    } else {
        let rest = accesses.subrange(1, accesses.len() as int);
        assert(longer.subrange(1, longer.len() as int) =~= rest.push(next));
        assert(longer[0] == accesses[0]);
        lemma_run_barriers_push(resource, aspect_mask, accesses[0], rest, next);
        assert(last_access(accesses[0], rest) == last_access(current, accesses)) by {
            if rest.len() > 0 {
                assert(rest.last() == accesses.last());
            }
        }
        let tail = match transition_barrier(
            resource,
            aspect_mask,
            last_access(current, accesses),
            next,
        ) {
            None => Seq::<Barrier>::empty(),
            Some(barrier) => seq![barrier],
        };
        let inner = run_barriers(resource, aspect_mask, accesses[0], rest);
        match transition_barrier(resource, aspect_mask, current, accesses[0]) {
            None => {},
            Some(barrier) => {
                assert((seq![barrier] + inner) + tail =~= seq![barrier] + (inner + tail));
            },
        }
    }
}

/// A resource that goes from one access to another and back costs exactly two
/// barriers: one out, one back.
pub proof fn lemma_there_and_back_costs_two(a: AccessType, b: AccessType)
    requires
        a != b,
    ensures
        barrier_count(a, seq![b, a]) == 2,
        barrier_count(a, seq![a, b, a]) == 2,
{
    let back = seq![a];
    let empty = Seq::<AccessType>::empty();
    assert(back.subrange(1, 1) =~= empty);
    assert(barrier_count(a, empty) == 0);
    assert(barrier_count(b, back) == 1);
    let two = seq![b, a];
    assert(two.subrange(1, 2) =~= back);
    assert(barrier_count(a, two) == 2);
    let three = seq![a, b, a];
    assert(three.subrange(1, 3) =~= two);
}

/// A resource that is used again with the access it already has costs no
/// barrier.
pub proof fn lemma_same_access_costs_nothing(a: AccessType)
    ensures
        barrier_count(a, seq![a]) == 0,
        transition_barrier(ResourceRef::Imported(0), 0, a, a) is None,
{
    let one = seq![a];
    assert(one.subrange(1, 1) =~= Seq::<AccessType>::empty());
    assert(barrier_count(a, Seq::<AccessType>::empty()) == 0);
}

/// Tracks one resource through a recording session.
pub struct LocalImageStateTracker {
    resource: ResourceRef,
    aspect_mask: u32,
    current: AccessType,
}

impl LocalImageStateTracker {
    pub closed spec fn resource(&self) -> ResourceRef {
        self.resource
    }

    pub closed spec fn aspect_mask(&self) -> u32 {
        self.aspect_mask
    }

    /// The access the resource was last put in.
    pub closed spec fn current(&self) -> AccessType {
        self.current
    }

    /// Starts tracking `resource`, which is known to be in `initial`.
    pub fn new(resource: ResourceRef, aspect_mask: u32, initial: AccessType) -> (tracker: Self)
        ensures
            tracker.resource() == resource,
            tracker.aspect_mask() == aspect_mask,
            tracker.current() == initial,
    {
        LocalImageStateTracker { resource, aspect_mask, current: initial }
    }

    /// The access the resource was last put in.
    pub fn current_access(&self) -> (access: AccessType)
        ensures
            access == self.current(),
    {
        self.current
    }

    /// Puts the resource in `next`. Emits no barrier where that is its access
    /// already, else the one barrier from its access to `next`.
    pub fn transition(&mut self, next: AccessType) -> (barrier: Option<Barrier>)
        ensures
            final(self).resource() == old(self).resource(),
            final(self).aspect_mask() == old(self).aspect_mask(),
            final(self).current() == next,
            barrier == transition_barrier(
                old(self).resource(),
                old(self).aspect_mask(),
                old(self).current(),
                next,
            ),
    {
        if same_access(self.current, next) {
            None
        } else {
            let barrier = Barrier::new(self.resource, self.current, next, self.aspect_mask);
            self.current = next;
            Some(barrier)
        }
    }

    /// Puts the resource through `accesses` in turn and collects the barriers.
    pub fn transition_all(&mut self, accesses: &Vec<AccessType>) -> (barriers: Vec<Barrier>)
        ensures
            final(self).resource() == old(self).resource(),
            final(self).aspect_mask() == old(self).aspect_mask(),
            final(self).current() == last_access(old(self).current(), accesses@),
            barriers@ == run_barriers(
                old(self).resource(),
                old(self).aspect_mask(),
                old(self).current(),
                accesses@,
            ),
            barriers@.len() == barrier_count(old(self).current(), accesses@),
    {
        let mut barriers: Vec<Barrier> = Vec::new();
        let ghost start = self.current;
        let mut i: usize = 0;
        while i < accesses.len()
            invariant
                i <= accesses.len(),
                self.resource() == old(self).resource(),
                self.aspect_mask() == old(self).aspect_mask(),
                start == old(self).current(),
                self.current() == last_access(start, accesses@.take(i as int)),
                barriers@ == run_barriers(
                    self.resource(),
                    self.aspect_mask(),
                    start,
                    accesses@.take(i as int),
                ),
            decreases accesses.len() - i,
        {
            let next = accesses[i];
            proof {
                lemma_run_barriers_push(
                    self.resource,
                    self.aspect_mask,
                    start,
                    accesses@.take(i as int),
                    next,
                );
                assert(accesses@.take(i as int).push(next) =~= accesses@.take(i + 1));
            }
            match self.transition(next) {
                None => {
                    assert(barriers@ + Seq::<Barrier>::empty() =~= barriers@);
                },
                Some(barrier) => {
                    let ghost before = barriers@;
                    barriers.push(barrier);
                    assert(before + seq![barrier] =~= barriers@);
                },
            }
            i += 1;
        }
        proof {
            assert(accesses@.take(i as int) =~= accesses@);
            lemma_run_barriers_len(self.resource, self.aspect_mask, start, accesses@);
        }
        barriers
    }
}

/// What the tracker knows of one resource.
#[derive(Clone, Copy, Debug)]
pub struct StateRecord {
    pub resource: ResourceRef,
    pub access: AccessType,
    pub aspect_mask: u32,
}

/// Some record is about `resource`.
pub open spec fn has_record(records: Seq<StateRecord>, resource: ResourceRef) -> bool {
    exists|i: int| 0 <= i < records.len() && (#[trigger] records[i]).resource == resource
}

/// The place of a record about `resource`.
pub open spec fn record_of(records: Seq<StateRecord>, resource: ResourceRef) -> int {
    choose|i: int| 0 <= i < records.len() && (#[trigger] records[i]).resource == resource
}

/// No two records are about the same resource.
pub open spec fn one_each(records: Seq<StateRecord>) -> bool {
    forall|i: int, j: int|
        0 <= i < j < records.len() ==> (#[trigger] records[i]).resource != (
        #[trigger] records[j]).resource
}

/// The records as a map from resource to access.
pub open spec fn accesses_of(records: Seq<StateRecord>) -> Map<ResourceRef, AccessType> {
    Map::new(
        |resource: ResourceRef| has_record(records, resource),
        |resource: ResourceRef| records[record_of(records, resource)].access,
    )
}

/// The access a resource is in according to a map of accesses: what the map
/// says, and no access yet where it says nothing.
pub open spec fn state_of(states: Map<ResourceRef, AccessType>, resource: ResourceRef) -> AccessType {
    if states.dom().contains(resource) {
        states[resource]
    } else {
        AccessType::Nothing
    }
}

proof fn lemma_record_at(records: Seq<StateRecord>, i: int)
    requires
        one_each(records),
        0 <= i < records.len(),
    ensures
        has_record(records, records[i].resource),
        record_of(records, records[i].resource) == i,
{
    let j = record_of(records, records[i].resource);
    if j < i {
        assert(records[j].resource != records[i].resource);
    } else if i < j {
        assert(records[i].resource != records[j].resource);
    }
}

proof fn lemma_records_replace(records: Seq<StateRecord>, i: int, record: StateRecord)
    requires
        one_each(records),
        0 <= i < records.len(),
        record.resource == records[i].resource,
    ensures
        one_each(records.update(i, record)),
        accesses_of(records.update(i, record)) == accesses_of(records).insert(
            record.resource,
            record.access,
        ),
{
    let after = records.update(i, record);
    assert forall|a: int, b: int| 0 <= a < b < after.len() implies (#[trigger] after[a]).resource
        != (#[trigger] after[b]).resource by {
        assert(after[a].resource == records[a].resource);
        assert(after[b].resource == records[b].resource);
    }
    assert forall|resource: ResourceRef| has_record(after, resource) <==> has_record(
        records,
        resource,
    ) by {
        if has_record(after, resource) {
            let j = record_of(after, resource);
            assert(records[j].resource == resource);
        }
        if has_record(records, resource) {
            let j = record_of(records, resource);
            assert(after[j].resource == resource);
        }
    }
    assert forall|resource: ResourceRef| has_record(after, resource) implies accesses_of(
        after,
    )[resource] == accesses_of(records).insert(record.resource, record.access)[resource] by {
        let j = record_of(after, resource);
        lemma_record_at(after, j);
        assert(records[j].resource == resource);
        lemma_record_at(records, j);
    }
    assert(has_record(records, record.resource)) by {
        lemma_record_at(records, i);
    }
    assert(accesses_of(after) =~= accesses_of(records).insert(record.resource, record.access));
}

proof fn lemma_records_push(records: Seq<StateRecord>, record: StateRecord)
    requires
        one_each(records),
        !has_record(records, record.resource),
    ensures
        one_each(records.push(record)),
        accesses_of(records.push(record)) == accesses_of(records).insert(
            record.resource,
            record.access,
        ),
{
    let after = records.push(record);
    assert forall|a: int, b: int| 0 <= a < b < after.len() implies (#[trigger] after[a]).resource
        != (#[trigger] after[b]).resource by {
        assert(after[a] == records[a]);
        if b < records.len() {
            assert(after[b] == records[b]);
        }
    }
    assert forall|resource: ResourceRef| has_record(after, resource) <==> (has_record(
        records,
        resource,
    ) || resource == record.resource) by {
        if has_record(after, resource) {
            let j = record_of(after, resource);
            if j < records.len() {
                assert(records[j].resource == resource);
            }
        }
        if has_record(records, resource) {
            let j = record_of(records, resource);
            assert(after[j].resource == resource);
        }
        assert(after[records.len() as int].resource == record.resource);
    }
    assert forall|resource: ResourceRef| has_record(after, resource) implies accesses_of(
        after,
    )[resource] == accesses_of(records).insert(record.resource, record.access)[resource] by {
        let j = record_of(after, resource);
        lemma_record_at(after, j);
        if j < records.len() {
            assert(records[j].resource == resource);
            lemma_record_at(records, j);
        }
    }
    assert(accesses_of(after) =~= accesses_of(records).insert(record.resource, record.access));
}

/// Tracks every resource that a recording session touches.
pub struct ResourceStateTracker {
    records: Vec<StateRecord>,
}

impl ResourceStateTracker {
    /// The last access of every resource the tracker has heard of.
    pub closed spec fn view(&self) -> Map<ResourceRef, AccessType> {
        accesses_of(self.records@)
    }

    /// The tracker holds one record for each resource.
    pub closed spec fn wf(&self) -> bool {
        one_each(self.records@)
    }

    /// A tracker that has heard of nothing.
    pub fn new() -> (tracker: Self)
        ensures
            tracker.wf(),
            tracker@ == Map::<ResourceRef, AccessType>::empty(),
    {
        let tracker = ResourceStateTracker { records: Vec::new() };
        assert(tracker@ =~= Map::<ResourceRef, AccessType>::empty());
        tracker
    }

    fn find(&self, resource: ResourceRef) -> (found: Option<usize>)
        requires
            self.wf(),
        ensures
            found is None <==> !has_record(self.records@, resource),
            found is Some ==> found->0 < self.records@.len() && self.records@[found->0 as int].resource
                == resource && record_of(self.records@, resource) == found->0,
    {
        let mut i: usize = 0;
        while i < self.records.len()
            invariant
                i <= self.records.len(),
                self.wf(),
                forall|j: int| 0 <= j < i ==> (#[trigger] self.records@[j]).resource != resource,
            decreases self.records.len() - i,
        {
            if self.records[i].resource == resource {
                proof {
                    lemma_record_at(self.records@, i as int);
                }
                return Some(i);
            }
            i += 1;
        }
        None
    }

    /// The access `resource` is in: the last one recorded, or no access yet.
    pub fn access(&self, resource: ResourceRef) -> (access: AccessType)
        requires
            self.wf(),
        ensures
            access == state_of(self@, resource),
    {
        match self.find(resource) {
            Some(i) => self.records[i].access,
            None => AccessType::Nothing,
        }
    }

    /// Records that `resource` is in `access`, as the caller knows it to be.
    /// No barrier comes of it.
    pub fn assume_access(&mut self, resource: ResourceRef, aspect_mask: u32, access: AccessType)
        requires
            old(self).wf(),
        ensures
            final(self).wf(),
            final(self)@ == old(self)@.insert(resource, access),
    {
        let record = StateRecord { resource, access, aspect_mask };
        match self.find(resource) {
            Some(i) => {
                proof {
                    lemma_records_replace(self.records@, i as int, record);
                }
                self.records.set(i, record);
            },
            None => {
                proof {
                    lemma_records_push(self.records@, record);
                }
                self.records.push(record);
            },
        }
    }

    /// Puts `resource` in `next`. Where that is the access it is in, nothing is
    /// emitted; else exactly one barrier, from the access it is in to `next`.
    /// A resource that the tracker has not heard of is in no access yet.
    pub fn transition(&mut self, resource: ResourceRef, aspect_mask: u32, next: AccessType) -> (barrier:
        Option<Barrier>)
        requires
            old(self).wf(),
        ensures
            final(self).wf(),
            final(self)@ == old(self)@.insert(resource, next),
            barrier == transition_barrier(
                resource,
                aspect_mask,
                state_of(old(self)@, resource),
                next,
            ),
    {
        let previous = self.access(resource);
        self.assume_access(resource, aspect_mask, next);
        if same_access(previous, next) {
            None
        } else {
            Some(Barrier::new(resource, previous, next, aspect_mask))
        }
    }
}

} // verus!
