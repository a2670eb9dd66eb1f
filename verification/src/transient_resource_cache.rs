//! The pool of transient resources. It hands out resources by descriptor,
//! takes them back at the end of a generation and never gives one up, so that
//! a graph that repeats finds everything it needs already there.

use vstd::prelude::*;
use crate::resource::{lemma_satisfies_itself, ResourceDesc};

verus! {

/// One resource of the pool: what it was created with, and the generation that
/// holds it, if one does.
#[derive(Clone, Copy, Debug, PartialEq, Eq, Structural)]
pub struct PoolEntry {
    pub desc: ResourceDesc,
    pub held_by: Option<u64>,
}

/// A resource checked out of the pool. `id` is its index in the pool and stays
/// the same for as long as the pool lives; `fresh` says that the pool had
/// nothing to reuse, so that memory has to be allocated for it.
#[derive(Clone, Copy, Debug, PartialEq, Eq, Structural)]
pub struct PhysicalResource {
    pub id: usize,
    pub desc: ResourceDesc,
    pub fresh: bool,
}

/// Entry `i` is free and can stand in for `wanted`.
pub open spec fn fits(entries: Seq<PoolEntry>, wanted: ResourceDesc, i: int) -> bool {
    &&& 0 <= i < entries.len()
    &&& entries[i].held_by is None
    &&& entries[i].desc.satisfies(&wanted)
}

/// The first entry at or after `from` that fits, or the pool's length where
/// none does.
pub open spec fn first_fit(entries: Seq<PoolEntry>, wanted: ResourceDesc, from: int) -> int
    decreases entries.len() - from,
{
    if from < 0 || from >= entries.len() {
        entries.len() as int
    } else if fits(entries, wanted, from) {
        from
    } else {
        first_fit(entries, wanted, from + 1)
    }
}

/// The pool after one `acquire`, and the index of the resource handed out: the
/// first free entry that fits is marked as held, or a new entry is appended.
pub open spec fn acquired(entries: Seq<PoolEntry>, wanted: ResourceDesc, generation: u64) -> (
    Seq<PoolEntry>,
    int,
) {
    let i = first_fit(entries, wanted, 0);
    if i < entries.len() {
        (entries.update(i, PoolEntry { desc: entries[i].desc, held_by: Some(generation) }), i)
    } else {
        (entries.push(PoolEntry { desc: wanted, held_by: Some(generation) }), i)
    }
}

/// The pool after a run of `acquire`s, and the indices handed out, in order.
pub open spec fn acquired_all(
    entries: Seq<PoolEntry>,
    wanted: Seq<ResourceDesc>,
    generation: u64,
) -> (Seq<PoolEntry>, Seq<int>)
    decreases wanted.len(),
{
    if wanted.len() == 0 {
        (entries, Seq::empty())
    } else {
        let (before, ids) = acquired_all(entries, wanted.drop_last(), generation);
        let (after, id) = acquired(before, wanted.last(), generation);
        (after, ids.push(id))
    }
}

/// The pool after `release_all`: what `generation` held is free again, and
/// nothing else has changed.
pub open spec fn released(entries: Seq<PoolEntry>, generation: u64) -> Seq<PoolEntry> {
    Seq::new(
        entries.len(),
        |i: int|
            if entries[i].held_by == Some(generation) {
                PoolEntry { desc: entries[i].desc, held_by: None }
            } else {
                entries[i]
            },
    )
}

/// The result of `first_fit` is the least fitting index at or after `from`.
pub proof fn lemma_first_fit(entries: Seq<PoolEntry>, wanted: ResourceDesc, from: int)
    requires
        0 <= from <= entries.len(),
    ensures
        from <= first_fit(entries, wanted, from) <= entries.len(),
        first_fit(entries, wanted, from) < entries.len() ==> fits(
            entries,
            wanted,
            first_fit(entries, wanted, from),
        ),
        forall|j: int| from <= j < first_fit(entries, wanted, from) ==> !fits(entries, wanted, j),
    decreases entries.len() - from,
{
    if from < entries.len() && !fits(entries, wanted, from) {
        lemma_first_fit(entries, wanted, from + 1);
    }
}

/// An index that fits and has nothing fitting before it is the first fit.
pub proof fn lemma_first_fit_is(entries: Seq<PoolEntry>, wanted: ResourceDesc, i: int)
    requires
        0 <= i <= entries.len(),
        i < entries.len() ==> fits(entries, wanted, i),
        forall|j: int| 0 <= j < i ==> !fits(entries, wanted, j),
    ensures
        first_fit(entries, wanted, 0) == i,
{
    lemma_first_fit(entries, wanted, 0);
}

/// What one `acquire` does to a pool: it grows by one entry at most, keeps
/// every descriptor, touches no entry but the one it hands out, and hands out a
/// free entry or the new one.
pub proof fn lemma_acquired_step(entries: Seq<PoolEntry>, wanted: ResourceDesc, generation: u64)
    ensures
        ({
            let (after, id) = acquired(entries, wanted, generation);
            &&& id == first_fit(entries, wanted, 0)
            &&& 0 <= id <= entries.len()
            &&& id == entries.len() ==> after.len() == entries.len() + 1
            &&& id < entries.len() ==> after.len() == entries.len()
            &&& after[id].held_by == Some(generation)
            &&& after[id].desc.satisfies(&wanted)
            &&& id == entries.len() ==> after[id].desc == wanted
            &&& id < entries.len() ==> fits(entries, wanted, id)
            &&& forall|j: int| 0 <= j < id ==> !fits(entries, wanted, j)
            &&& forall|j: int| 0 <= j < entries.len() ==> (#[trigger] after[j]).desc == entries[j].desc
            &&& forall|j: int| 0 <= j < entries.len() && j != id ==> #[trigger] after[j] == entries[j]
        }),
{
    lemma_first_fit(entries, wanted, 0);
    lemma_satisfies_itself(wanted);
}

/// The pool after the first `k` of a run of `acquire`s.
pub open spec fn pool_after(
    entries: Seq<PoolEntry>,
    wanted: Seq<ResourceDesc>,
    generation: u64,
    k: int,
) -> Seq<PoolEntry> {
    acquired_all(entries, wanted.take(k), generation).0
}

proof fn lemma_pool_after_step(
    entries: Seq<PoolEntry>,
    wanted: Seq<ResourceDesc>,
    generation: u64,
    k: int,
)
    requires
        0 <= k < wanted.len(),
    ensures
        acquired_all(entries, wanted.take(k + 1), generation) == ({
            let (before, ids) = acquired_all(entries, wanted.take(k), generation);
            let (after, id) = acquired(before, wanted[k], generation);
            (after, ids.push(id))
        }),
        acquired_all(entries, wanted.take(k), generation).1.len() == k,
    decreases k,
{
    let longer = wanted.take(k + 1);
    assert(longer.drop_last() =~= wanted.take(k));
    assert(longer.last() == wanted[k]);
    if k > 0 {
        lemma_pool_after_step(entries, wanted, generation, k - 1);
    } else {
        assert(wanted.take(0) =~= Seq::<ResourceDesc>::empty());
    }
}

/// Between two points of a run the pool only grows, descriptors stay, an entry
/// that was held stays held by the same generation, a free one is free still or
/// held by the run's generation, and what was appended is held by it.
proof fn lemma_pool_grows(
    entries: Seq<PoolEntry>,
    wanted: Seq<ResourceDesc>,
    generation: u64,
    k: int,
    n: int,
)
    requires
        0 <= k <= n <= wanted.len(),
    ensures
        ({
            let early = pool_after(entries, wanted, generation, k);
            let late = pool_after(entries, wanted, generation, n);
            &&& early.len() <= late.len()
            &&& forall|i: int|
                0 <= i < early.len() ==> {
                    &&& (#[trigger] late[i]).desc == early[i].desc
                    &&& (late[i].held_by == early[i].held_by || (early[i].held_by is None
                        && late[i].held_by == Some(generation)))
                }
            &&& forall|i: int|
                early.len() <= i < late.len() ==> (#[trigger] late[i]).held_by == Some(generation)
        }),
    decreases n - k,
{
    if k < n {
        lemma_pool_grows(entries, wanted, generation, k, n - 1);
        lemma_pool_after_step(entries, wanted, generation, n - 1);
        let before = pool_after(entries, wanted, generation, n - 1);
        lemma_acquired_step(before, wanted[n - 1], generation);
        let late = pool_after(entries, wanted, generation, n);
        let early = pool_after(entries, wanted, generation, k);
        let id = acquired(before, wanted[n - 1], generation).1;
        assert forall|i: int| 0 <= i < early.len() implies {
            &&& (#[trigger] late[i]).desc == early[i].desc
            &&& (late[i].held_by == early[i].held_by || (early[i].held_by is None
                && late[i].held_by == Some(generation)))
        } by {
            assert(before[i].desc == early[i].desc);
            if i != id {
                assert(late[i] == before[i]);
            }
        }
        assert forall|i: int| early.len() <= i < late.len() implies (#[trigger] late[i]).held_by
            == Some(generation) by {
            if i != id {
                assert(late[i] == before[i]);
            }
        }
    }
}

/// The resources that a run has handed out by some point are the first of
/// those it has handed out by any later point.
proof fn lemma_ids_stay(
    pool: Seq<PoolEntry>,
    wanted: Seq<ResourceDesc>,
    generation: u64,
    k: int,
    n: int,
)
    requires
        0 <= k <= n <= wanted.len(),
    ensures
        acquired_all(pool, wanted.take(k), generation).1.len() == k,
        acquired_all(pool, wanted.take(n), generation).1.len() == n,
        forall|i: int|
            0 <= i < k ==> acquired_all(pool, wanted.take(n), generation).1[i] == acquired_all(
                pool,
                wanted.take(k),
                generation,
            ).1[i],
    decreases n - k,
{
    if k < n {
        lemma_ids_stay(pool, wanted, generation, k, n - 1);
        lemma_pool_after_step(pool, wanted, generation, n - 1);
    } else if k > 0 {
        lemma_pool_after_step(pool, wanted, generation, k - 1);
    } else {
        assert(wanted.take(0) =~= Seq::<ResourceDesc>::empty());
    }
}

/// No resource is handed out twice in one run: two of the descriptors of a run
/// never get the same resource.
pub proof fn lemma_run_hands_out_each_once(
    pool: Seq<PoolEntry>,
    wanted: Seq<ResourceDesc>,
    generation: u64,
    a: int,
    b: int,
)
    requires
        0 <= a < b < wanted.len(),
    ensures
        acquired_all(pool, wanted, generation).1[a] != acquired_all(pool, wanted, generation).1[b],
{
    let n = wanted.len() as int;
    assert(wanted.take(n) =~= wanted);
    lemma_ids_stay(pool, wanted, generation, a + 1, n);
    lemma_ids_stay(pool, wanted, generation, b + 1, n);
    lemma_pool_after_step(pool, wanted, generation, a);
    lemma_pool_after_step(pool, wanted, generation, b);
    let at_a = pool_after(pool, wanted, generation, a);
    let after_a = pool_after(pool, wanted, generation, a + 1);
    let at_b = pool_after(pool, wanted, generation, b);
    let first = acquired(at_a, wanted[a], generation).1;
    let second = acquired(at_b, wanted[b], generation).1;
    lemma_acquired_step(at_a, wanted[a], generation);
    lemma_acquired_step(at_b, wanted[b], generation);
    lemma_pool_grows(pool, wanted, generation, a + 1, b);
    assert(acquired_all(pool, wanted.take(a + 1), generation).1[a] == first);
    assert(acquired_all(pool, wanted.take(b + 1), generation).1[b] == second);
    assert(after_a[first].held_by == Some(generation));
    assert(at_b[first].held_by == Some(generation));
    if second < at_b.len() {
        assert(fits(at_b, wanted[b], second));
    }
}

/// Every entry of the pool is free.
pub open spec fn all_free(pool: Seq<PoolEntry>) -> bool {
    forall|i: int| 0 <= i < pool.len() ==> (#[trigger] pool[i]).held_by is None
}

/// A pool in which everything is free has everything free again once a run of
/// `acquire`s was made and its generation released.
pub proof fn lemma_run_then_release_frees(
    pool: Seq<PoolEntry>,
    wanted: Seq<ResourceDesc>,
    generation: u64,
)
    requires
        all_free(pool),
    ensures
        all_free(released(acquired_all(pool, wanted, generation).0, generation)),
        released(acquired_all(pool, wanted, generation).0, generation).len() >= pool.len(),
{
    lemma_pool_grows(pool, wanted, generation, 0, wanted.len() as int);
    assert(wanted.take(0) =~= Seq::<ResourceDesc>::empty());
    assert(wanted.take(wanted.len() as int) =~= wanted);
    let after = acquired_all(pool, wanted, generation).0;
    assert(pool_after(pool, wanted, generation, 0) == pool);
    assert forall|i: int| 0 <= i < released(after, generation).len() implies (
    #[trigger] released(after, generation)[i]).held_by is None by {
        if i < pool.len() {
            assert(after[i].held_by == pool[i].held_by || after[i].held_by == Some(generation));
        } else {
            assert(after[i].held_by == Some(generation));
        }
    }
}

/// How the pool of a replay stands to the pool of the first run at the same
/// point: as long as the first run's pool was then, it agrees with it on
/// descriptors and on which entries are free; beyond that it holds, free, what
/// the first run went on to append.
spec fn replay_matches(first: Seq<PoolEntry>, replay: Seq<PoolEntry>, last: Seq<PoolEntry>) -> bool {
    &&& replay.len() == last.len()
    &&& first.len() <= last.len()
    &&& forall|i: int|
        0 <= i < first.len() ==> {
            &&& (#[trigger] replay[i]).desc == first[i].desc
            &&& (replay[i].held_by is None <==> first[i].held_by is None)
        }
    &&& forall|i: int|
        first.len() <= i < last.len() ==> {
            &&& (#[trigger] replay[i]).held_by is None
            &&& replay[i].desc == last[i].desc
        }
}

proof fn lemma_replay_step(
    first: Seq<PoolEntry>,
    replay: Seq<PoolEntry>,
    last: Seq<PoolEntry>,
    wanted: ResourceDesc,
    generation: u64,
    next_generation: u64,
)
    requires
        replay_matches(first, replay, last),
        acquired(first, wanted, generation).0.len() <= last.len(),
        forall|i: int|
            0 <= i < acquired(first, wanted, generation).0.len() ==> (#[trigger] last[i]).desc
                == acquired(first, wanted, generation).0[i].desc,
    ensures
        acquired(replay, wanted, next_generation).1 == acquired(first, wanted, generation).1,
        replay_matches(
            acquired(first, wanted, generation).0,
            acquired(replay, wanted, next_generation).0,
            last,
        ),
{
    lemma_acquired_step(first, wanted, generation);
    let (first_after, id) = acquired(first, wanted, generation);
    assert forall|j: int| 0 <= j < id implies !fits(replay, wanted, j) by {
        assert(replay[j].desc == first[j].desc);
        assert(!fits(first, wanted, j));
    }
    if id < first.len() {
        assert(replay[id].desc == first[id].desc);
        assert(fits(replay, wanted, id));
    } else {
        assert(last[id].desc == first_after[id].desc);
        assert(replay[id].held_by is None);
        lemma_satisfies_itself(wanted);
        assert(fits(replay, wanted, id));
    }
    lemma_first_fit_is(replay, wanted, id);
    lemma_acquired_step(replay, wanted, next_generation);
    let replay_after = acquired(replay, wanted, next_generation).0;
    assert forall|i: int| 0 <= i < first_after.len() implies {
        &&& (#[trigger] replay_after[i]).desc == first_after[i].desc
        &&& (replay_after[i].held_by is None <==> first_after[i].held_by is None)
    } by {
        if i != id {
            assert(replay_after[i] == replay[i]);
            assert(first_after[i] == first[i]);
        } else {
            assert(replay_after[i].desc == replay[i].desc);
        }
    }
    assert forall|i: int| first_after.len() <= i < last.len() implies {
        &&& (#[trigger] replay_after[i]).held_by is None
        &&& replay_after[i].desc == last[i].desc
    } by {
        assert(replay_after[i] == replay[i]);
    }
}

proof fn lemma_replay_prefix(
    pool: Seq<PoolEntry>,
    wanted: Seq<ResourceDesc>,
    generation: u64,
    next_generation: u64,
    k: int,
)
    requires
        0 <= k <= wanted.len(),
        forall|i: int| 0 <= i < pool.len() ==> (#[trigger] pool[i]).held_by != Some(generation),
    ensures
        ({
            let last = pool_after(pool, wanted, generation, wanted.len() as int);
            let restart = released(last, generation);
            &&& acquired_all(restart, wanted.take(k), next_generation).1 == acquired_all(
                pool,
                wanted.take(k),
                generation,
            ).1
            &&& replay_matches(
                pool_after(pool, wanted, generation, k),
                pool_after(restart, wanted, next_generation, k),
                last,
            )
        }),
    decreases k,
{
    let n = wanted.len() as int;
    let last = pool_after(pool, wanted, generation, n);
    let restart = released(last, generation);
    if k == 0 {
        assert(wanted.take(0) =~= Seq::<ResourceDesc>::empty());
        lemma_pool_grows(pool, wanted, generation, 0, n);
        assert(pool_after(pool, wanted, generation, 0) == pool);
        assert(pool_after(restart, wanted, next_generation, 0) == restart);
        assert forall|i: int| 0 <= i < pool.len() implies {
            &&& (#[trigger] restart[i]).desc == pool[i].desc
            &&& (restart[i].held_by is None <==> pool[i].held_by is None)
        } by {
            assert(last[i].desc == pool[i].desc);
        }
        assert forall|i: int| pool.len() <= i < last.len() implies {
            &&& (#[trigger] restart[i]).held_by is None
            &&& restart[i].desc == last[i].desc
        } by {
            assert(last[i].held_by == Some(generation));
        }
    } else {
        lemma_replay_prefix(pool, wanted, generation, next_generation, k - 1);
        lemma_pool_after_step(pool, wanted, generation, k - 1);
        lemma_pool_after_step(restart, wanted, next_generation, k - 1);
        lemma_pool_grows(pool, wanted, generation, k, n);
        lemma_replay_step(
            pool_after(pool, wanted, generation, k - 1),
            pool_after(restart, wanted, next_generation, k - 1),
            last,
            wanted[k - 1],
            generation,
            next_generation,
        );
    }
}

/// A run of `acquire`s that is repeated after its generation was released gets
/// the very same resources again, and the pool does not grow: once a graph has
/// run, running it again allocates nothing.
pub proof fn lemma_replay_reuses(
    pool: Seq<PoolEntry>,
    wanted: Seq<ResourceDesc>,
    generation: u64,
    next_generation: u64,
)
    requires
        forall|i: int| 0 <= i < pool.len() ==> (#[trigger] pool[i]).held_by != Some(generation),
    ensures
        ({
            let (first, ids) = acquired_all(pool, wanted, generation);
            let (second, again) = acquired_all(
                released(first, generation),
                wanted,
                next_generation,
            );
            &&& again == ids
            &&& second.len() == first.len()
        }),
{
    lemma_replay_prefix(pool, wanted, generation, next_generation, wanted.len() as int);
    assert(wanted.take(wanted.len() as int) =~= wanted);
}

/// A resource that is acquired, released and acquired again with the same
/// descriptor is the same resource, and the pool is no larger than before.
pub proof fn lemma_reacquire_is_same(
    pool: Seq<PoolEntry>,
    wanted: ResourceDesc,
    generation: u64,
    next_generation: u64,
)
    requires
        forall|i: int| 0 <= i < pool.len() ==> (#[trigger] pool[i]).held_by != Some(generation),
    ensures
        ({
            let (first, id) = acquired(pool, wanted, generation);
            let (second, again) = acquired(released(first, generation), wanted, next_generation);
            &&& again == id
            &&& second.len() == first.len()
        }),
{
    let one = seq![wanted];
    lemma_replay_reuses(pool, one, generation, next_generation);
    lemma_acquired_all_one(pool, wanted, generation);
    lemma_acquired_all_one(
        released(acquired(pool, wanted, generation).0, generation),
        wanted,
        next_generation,
    );
    let id = acquired(pool, wanted, generation).1;
    let again = acquired(
        released(acquired(pool, wanted, generation).0, generation),
        wanted,
        next_generation,
    ).1;
    assert(seq![id][0] == id);
    assert(seq![again][0] == again);
}

/// A run of one `acquire` is that `acquire`.
pub proof fn lemma_acquired_all_one(pool: Seq<PoolEntry>, wanted: ResourceDesc, generation: u64)
    ensures
        acquired_all(pool, seq![wanted], generation) == (
            acquired(pool, wanted, generation).0,
            seq![acquired(pool, wanted, generation).1],
        ),
{
    let one = seq![wanted];
    let none = Seq::<ResourceDesc>::empty();
    assert(one.drop_last() =~= none);
    assert(one.last() == wanted);
    assert(acquired_all(pool, none, generation) == (pool, Seq::<int>::empty()));
    assert(Seq::<int>::empty().push(acquired(pool, wanted, generation).1) =~= seq![
        acquired(pool, wanted, generation).1,
    ]);
}

pub struct TransientResourceCache {
    entries: Vec<PoolEntry>,
}

impl TransientResourceCache {
    /// The pool's entries, in the order in which they were allocated.
    pub closed spec fn view(&self) -> Seq<PoolEntry> {
        self.entries@
    }

    /// An empty pool.
    pub fn new() -> (pool: Self)
        ensures
            pool@ == Seq::<PoolEntry>::empty(),
    {
        TransientResourceCache { entries: Vec::new() }
    }

    /// How many resources the pool has ever allocated.
    pub fn len(&self) -> (n: usize)
        ensures
            n == self@.len(),
    {
        self.entries.len()
    }

    /// The entry behind an index.
    pub fn entry(&self, id: usize) -> (entry: Option<PoolEntry>)
        ensures
            entry == (if id < self@.len() {
                Some(self@[id as int])
            } else {
                None
            }),
    {
        if id < self.entries.len() {
            Some(self.entries[id])
        } else {
            None
        }
    }

    /// Hands out a resource for `wanted` on behalf of `generation`: the first
    /// free one that can stand in for it, or a new one where there is none.
    pub fn acquire(&mut self, wanted: ResourceDesc, generation: u64) -> (resource: PhysicalResource)
        ensures
            (final(self)@, resource.id as int) == acquired(old(self)@, wanted, generation),
            resource.fresh == (first_fit(old(self)@, wanted, 0) == old(self)@.len()),
            resource.fresh ==> final(self)@.len() == old(self)@.len() + 1,
            !resource.fresh ==> final(self)@.len() == old(self)@.len(),
            resource.desc == final(self)@[resource.id as int].desc,
            resource.desc.satisfies(&wanted),
    {
        let mut i: usize = 0;
        while i < self.entries.len()
            invariant
                i <= self.entries.len(),
                self.entries@ == old(self).entries@,
                forall|j: int| 0 <= j < i ==> !fits(self.entries@, wanted, j),
            decreases self.entries.len() - i,
        {
            let entry = self.entries[i];
            if entry.held_by.is_none() && entry.desc.can_stand_in_for(&wanted) {
                proof {
                    lemma_first_fit_is(self.entries@, wanted, i as int);
                }
                self.entries.set(i, PoolEntry { desc: entry.desc, held_by: Some(generation) });
                return PhysicalResource { id: i, desc: entry.desc, fresh: false };
            }
            i += 1;
        }
        proof {
            lemma_first_fit_is(self.entries@, wanted, i as int);
            lemma_satisfies_itself(wanted);
        }
        self.entries.push(PoolEntry { desc: wanted, held_by: Some(generation) });
        PhysicalResource { id: i, desc: wanted, fresh: true }
    }

    /// Hands out one resource for each descriptor of `wanted`, in order. Each
    /// comes with the descriptor its pool entry was created with, and is fresh
    /// exactly where the pool had to grow for it.
    pub fn acquire_all(&mut self, wanted: &Vec<ResourceDesc>, generation: u64) -> (resources: Vec<
        PhysicalResource,
    >)
        ensures
            resources@.len() == wanted@.len(),
            (final(self)@, resources@.map_values(|r: PhysicalResource| r.id as int))
                == acquired_all(old(self)@, wanted@, generation),
            final(self)@.len() >= old(self)@.len(),
            forall|k: int|
                0 <= k < resources@.len() ==> {
                    &&& (#[trigger] resources@[k]).id < final(self)@.len()
                    &&& resources@[k].desc.satisfies(&wanted@[k])
                    &&& resources@[k].desc == final(self)@[resources@[k].id as int].desc
                    &&& resources@[k].fresh == (resources@[k].id >= old(self)@.len())
                },
    {
        let mut resources: Vec<PhysicalResource> = Vec::new();
        let mut k: usize = 0;
        while k < wanted.len()
            invariant
                k <= wanted.len(),
                resources@.len() == k,
                (self@, resources@.map_values(|r: PhysicalResource| r.id as int)) == acquired_all(
                    old(self)@,
                    wanted@.take(k as int),
                    generation,
                ),
                self@.len() >= old(self)@.len(),
                forall|i: int|
                    old(self)@.len() <= i < self@.len() ==> (#[trigger] self@[i]).held_by is Some,
                forall|j: int|
                    0 <= j < resources@.len() ==> {
                        &&& (#[trigger] resources@[j]).id < self@.len()
                        &&& resources@[j].desc.satisfies(&wanted@[j])
                        &&& resources@[j].desc == self@[resources@[j].id as int].desc
                        &&& resources@[j].fresh == (resources@[j].id >= old(self)@.len())
                    },
            decreases wanted.len() - k,
        {
            let ghost ids = resources@.map_values(|r: PhysicalResource| r.id as int);
            let ghost before = self@;
            let ghost handed = resources@;
            let resource = self.acquire(wanted[k], generation);
            resources.push(resource);
            proof {
                lemma_acquired_step(before, wanted@[k as int], generation);
                assert forall|i: int| old(self)@.len() <= i < self@.len() implies (
                #[trigger] self@[i]).held_by is Some by {
                    if i != resource.id {
                        assert(self@[i] == before[i]);
                    }
                }
                assert forall|j: int| 0 <= j < resources@.len() implies {
                    &&& (#[trigger] resources@[j]).id < self@.len()
                    &&& resources@[j].desc.satisfies(&wanted@[j])
                    &&& resources@[j].desc == self@[resources@[j].id as int].desc
                    &&& resources@[j].fresh == (resources@[j].id >= old(self)@.len())
                } by {
                    if j < k {
                        assert(resources@[j] == handed[j]);
                        assert(self@[handed[j].id as int].desc == before[handed[j].id as int].desc);
                    } else {
                        if resource.id < before.len() {
                            assert(fits(before, wanted@[k as int], resource.id as int));
                        }
                    }
                }
                let longer = wanted@.take(k + 1);
                assert(longer.drop_last() =~= wanted@.take(k as int));
                assert(longer.last() == wanted@[k as int]);
                assert(resources@.map_values(|r: PhysicalResource| r.id as int) =~= ids.push(
                    resource.id as int,
                ));
            }
            k += 1;
        }
        proof {
            assert(wanted@.take(k as int) =~= wanted@);
        }
        resources
    }

    /// Takes back every resource that `generation` holds. No memory is given
    /// up: the resources stay in the pool, free for the next `acquire`.
    pub fn release_all(&mut self, generation: u64)
        ensures
            final(self)@ == released(old(self)@, generation),
    {
        let mut i: usize = 0;
        while i < self.entries.len()
            invariant
                i <= self.entries.len(),
                self.entries@.len() == old(self).entries@.len(),
                forall|j: int|
                    0 <= j < i ==> self.entries@[j] == released(old(self).entries@, generation)[j],
                forall|j: int|
                    i <= j < self.entries@.len() ==> self.entries@[j] == old(self).entries@[j],
            decreases self.entries.len() - i,
        {
            let entry = self.entries[i];
            let held = match entry.held_by {
                Some(holder) => holder == generation,
                None => false,
            };
            if held {
                self.entries.set(i, PoolEntry { desc: entry.desc, held_by: None });
            }
            i += 1;
        }
        assert(self.entries@ =~= released(old(self).entries@, generation));
    }

    /// Whether every resource of the pool is free.
    pub fn is_at_rest(&self) -> (at_rest: bool)
        ensures
            at_rest == all_free(self@),
    {
        let mut i: usize = 0;
        while i < self.entries.len()
            invariant
                i <= self.entries.len(),
                forall|j: int| 0 <= j < i ==> (#[trigger] self@[j]).held_by is None,
            decreases self.entries.len() - i,
        {
            if self.entries[i].held_by.is_some() {
                return false;
            }
            i += 1;
        }
        true
    }
}

} // verus!
