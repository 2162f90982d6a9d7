//! Allocation of descriptor sets from growing pools.

use vstd::prelude::*;

verus! {

/// Sets in the first pool.
pub const START_DESCRIPTOR_COUNT: u32 = 256;

/// A pool of descriptor sets.
#[derive(Debug)]
pub struct Pool {
    pub id: u64,
    /// Sets of this pool that were handed out and given back.
    pub free_sets: Vec<u64>,
    pub allocated: usize,
    pub capacity: usize,
}

/// View of [`Pool`].
#[verifier::ext_equal]
pub struct PoolModel {
    pub id: u64,
    pub free_sets: Seq<u64>,
    pub allocated: int,
    pub capacity: int,
}

impl View for Pool {
    type V = PoolModel;

    open spec fn view(&self) -> PoolModel {
        PoolModel {
            id: self.id,
            free_sets: self.free_sets@,
            allocated: self.allocated as int,
            capacity: self.capacity as int,
        }
    }
}

/// Views of a list of pools.
pub open spec fn pool_models(pools: Seq<Pool>) -> Seq<PoolModel> {
    pools.map(|_i: int, p: Pool| p@)
}

/// A descriptor set, and the pool that it belongs to.
#[derive(Debug, Clone, Copy, PartialEq, Eq, Structural)]
pub struct DescriptorSet {
    pub pool: u64,
    pub vk: u64,
}

/// Why no set can be handed out.
#[derive(Debug, Clone, Copy, PartialEq, Eq, Structural)]
pub enum DescriptorError {
    LostDevice,
    /// The device does not allocate a set, with its result code.
    Alloc(i32),
    /// The device does not create a pool, with its result code.
    Pool(i32),
}

/// `VK_ERROR_FRAGMENTED_POOL`
pub const ERROR_FRAGMENTED_POOL: i32 = -12;

/// `VK_ERROR_OUT_OF_POOL_MEMORY`
pub const ERROR_OUT_OF_POOL_MEMORY: i32 = -1000069000;

/// The result code says that a pool has no room left.
pub open spec fn is_exhausted(code: i32) -> bool {
    code == ERROR_FRAGMENTED_POOL || code == ERROR_OUT_OF_POOL_MEMORY
}

/// What is asked of the device next, or the result.
#[derive(Debug, Clone, Copy, PartialEq, Eq, Structural)]
pub enum AllocStep {
    /// A set is handed out.
    Done(DescriptorSet),
    /// Allocate from the pool at this position.
    Allocate(usize),
    /// Create a pool for a number of sets.
    Create(u32),
    Fail(DescriptorError),
}

/// Position of the first pool, from `start` on, that can allocate another set.
pub open spec fn roomy(pools: Seq<PoolModel>, start: int) -> Option<int>
    decreases pools.len() - start,
{
    if start >= pools.len() || start < 0 {
        None
    } else if pools[start].allocated < pools[start].capacity {
        Some(start)
    } else {
        roomy(pools, start + 1)
    }
}

/// Position of the first pool with a set that was given back.
pub open spec fn reusable(pools: Seq<PoolModel>, start: int) -> Option<int>
    decreases pools.len() - start,
{
    if start >= pools.len() || start < 0 {
        None
    } else if pools[start].free_sets.len() > 0 {
        Some(start)
    } else {
        reusable(pools, start + 1)
    }
}

/// Size of the next pool: twice that of the last, in 32 bits.
pub open spec fn next_size(pools: Seq<PoolModel>) -> int {
    if pools.len() == 0 {
        START_DESCRIPTOR_COUNT as int
    } else {
        (pools.last().capacity * 2) % 0x1_0000_0000
    }
}

/// What is asked of the device when the pools before `start` have been tried.
pub open spec fn try_from(pools: Seq<PoolModel>, start: int) -> AllocStep {
    match roomy(pools, start) {
        Some(at) => AllocStep::Allocate(at as usize),
        None => AllocStep::Create(next_size(pools) as u32),
    }
}

/// The pools of a descriptor set layout.
#[derive(Debug)]
pub struct DescriptorAllocator {
    pub pools: Vec<Pool>,
}

impl DescriptorAllocator {
    /// The pools as the device sees them.
    pub open spec fn model(&self) -> Seq<PoolModel> {
        pool_models(self.pools@)
    }

    /// No pool hands out more sets than it has, but for the one that a new pool is asked for, and
    /// no size is beyond what the device can take.
    pub open spec fn wf(&self) -> bool {
        forall|i: int|
            0 <= i < self.pools@.len() ==> ((#[trigger] self.pools@[i]).allocated
                <= self.pools@[i].capacity || self.pools@[i].allocated <= 1)
                && self.pools@[i].capacity <= u32::MAX
    }

    /// No pools yet.
    pub fn new() -> (allocator: DescriptorAllocator)
        ensures
            allocator.wf(),
            allocator.model().len() == 0,
    {
        DescriptorAllocator { pools: Vec::new() }
    }

    fn find_room(&self, start: usize) -> (step: AllocStep)
        requires
            self.wf(),
            start <= self.pools@.len(),
        ensures
            step == try_from(self.model(), start as int),
    {
        let mut i: usize = start;
        while i < self.pools.len()
            invariant
                start <= i <= self.pools.len(),
                roomy(self.model(), start as int) == roomy(self.model(), i as int),
                self.model().len() == self.pools@.len(),
            decreases self.pools.len() - i,
        {
            assert(self.model()[i as int] == self.pools@[i as int]@);
            if self.pools[i].allocated < self.pools[i].capacity {
                return AllocStep::Allocate(i);
            }
            i = i + 1;
        }
        if self.pools.len() == 0 {
            AllocStep::Create(START_DESCRIPTOR_COUNT)
        } else {
            let last: usize = self.pools.len() - 1;
            assert(self.model().last() == self.pools@[last as int]@);
            let doubled: u64 = self.pools[last].capacity as u64 * 2;
            AllocStep::Create((doubled % 0x1_0000_0000) as u32)
        }
    }

    /// Begins an allocation: a set that was given back is handed out again; else the first pool
    /// with room is asked, or a new one created.
    pub fn alloc_descriptor_set(&mut self, device_alive: bool) -> (step: AllocStep)
        requires
            old(self).wf(),
        ensures
            final(self).wf(),
            ({
                let before = old(self).model();
                match (device_alive, reusable(before, 0)) {
                    (false, _) => {
                        &&& step == AllocStep::Fail(DescriptorError::LostDevice)
                        &&& final(self).model() == before
                    },
                    (true, Some(at)) => {
                        &&& step == AllocStep::Done(
                            DescriptorSet { pool: before[at].id, vk: before[at].free_sets.last() },
                        )
                        &&& final(self).model() == before.update(
                            at,
                            PoolModel {
                                free_sets: before[at].free_sets.drop_last(),
                                ..before[at]
                            },
                        )
                    },
                    (true, None) => {
                        &&& step == try_from(before, 0)
                        &&& final(self).model() == before
                    },
                }
            }),
    {
        if !device_alive {
            return AllocStep::Fail(DescriptorError::LostDevice);
        }
        let ghost before = self.model();
        let mut i: usize = 0;
        while i < self.pools.len()
            invariant
                i <= self.pools@.len(),
                self.wf(),
                self.model() == before,
                before == old(self).model(),
                before.len() == self.pools@.len(),
                reusable(before, 0) == reusable(before, i as int),
                device_alive,
            decreases self.pools@.len() - i,
        {
            assert(before[i as int] == self.pools@[i as int]@);
            let n: usize = self.pools[i].free_sets.len();
            if n > 0 {
                let pool: u64 = self.pools[i].id;
                let vk: u64 = self.pools[i].free_sets[n - 1];
                let _last: Option<u64> = self.pools[i].free_sets.pop();
                proof {
                    let changed = PoolModel {
                        free_sets: before[i as int].free_sets.drop_last(),
                        ..before[i as int]
                    };
                    assert(self.pools@[i as int]@ == changed);
                    assert(self.model() =~= before.update(i as int, changed));
                }
                return AllocStep::Done(DescriptorSet { pool, vk });
            }
            i = i + 1;
        }
        self.find_room(0)
    }

    /// Goes on after the device was asked to allocate from the pool at a position: it gives a set
    /// or a result code. If the pool has no room left the next one is tried; only a pool that was
    /// created for this allocation has to have room.
    pub fn after_allocate(&mut self, at: usize, created: bool, answer: Result<u64, i32>) -> (step:
        AllocStep)
        requires
            old(self).wf(),
            at < old(self).model().len(),
            old(self).model()[at as int].allocated < old(self).model()[at as int].capacity || (
            created && old(self).model()[at as int].allocated == 0),
        ensures
            final(self).wf(),
            ({
                let before = old(self).model();
                match answer {
                    Ok(vk) => {
                        &&& step == AllocStep::Done(
                            DescriptorSet { pool: before[at as int].id, vk },
                        )
                        &&& final(self).model() == before.update(
                            at as int,
                            PoolModel {
                                allocated: before[at as int].allocated + 1,
                                ..before[at as int]
                            },
                        )
                    },
                    Err(code) => {
                        &&& step == if is_exhausted(code) && !created {
                            try_from(before, at + 1)
                        } else {
                            AllocStep::Fail(DescriptorError::Alloc(code))
                        }
                        &&& final(self).model() == before
                    },
                }
            }),
    {
        let ghost before = self.model();
        assert(before[at as int] == self.pools@[at as int]@);
        match answer {
            Ok(vk) => {
                let pool: u64 = self.pools[at].id;
                let allocated: usize = self.pools[at].allocated + 1;
                self.pools[at].allocated = allocated;
                proof {
                    let changed = PoolModel {
                        allocated: before[at as int].allocated + 1,
                        ..before[at as int]
                    };
                    assert(self.pools@[at as int]@ == changed);
                    assert(self.model() =~= before.update(at as int, changed));
                }
                AllocStep::Done(DescriptorSet { pool, vk })
            },
            Err(code) => {
                if (code == ERROR_FRAGMENTED_POOL || code == ERROR_OUT_OF_POOL_MEMORY) && !created {
                    let n: usize = self.pools.len();
                    assert(at < n);
                    self.find_room(at + 1)
                } else {
                    AllocStep::Fail(DescriptorError::Alloc(code))
                }
            },
        }
    }

    /// Goes on after the device was asked to create a pool: it gives one or a result code.
    pub fn after_create(&mut self, size: u32, answer: Result<u64, i32>) -> (step: AllocStep)
        requires
            old(self).wf(),
            old(self).pools@.len() < usize::MAX,
        ensures
            final(self).wf(),
            ({
                let before = old(self).model();
                match answer {
                    Ok(id) => {
                        &&& step == AllocStep::Allocate(before.len() as usize)
                        &&& final(self).model() == before.push(
                            PoolModel {
                                id,
                                free_sets: seq![],
                                allocated: 0,
                                capacity: size as int,
                            },
                        )
                    },
                    Err(code) => {
                        &&& step == AllocStep::Fail(DescriptorError::Pool(code))
                        &&& final(self).model() == before
                    },
                }
            }),
    {
        match answer {
            Ok(id) => {
                let ghost before = self.model();
                let at: usize = self.pools.len();
                self.pools.push(
                    Pool { id, free_sets: Vec::new(), allocated: 0, capacity: size as usize },
                );
                proof {
                    assert(self.pools@[at as int]@.free_sets =~= seq![]);
                    assert(self.model() =~= before.push(
                        PoolModel { id, free_sets: seq![], allocated: 0, capacity: size as int },
                    ));
                }
                AllocStep::Allocate(at)
            },
            Err(code) => AllocStep::Fail(DescriptorError::Pool(code)),
        }
    }

    /// Takes a set back that is no longer in use.
    pub fn release(&mut self, set: DescriptorSet)
        requires
            old(self).wf(),
        ensures
            final(self).wf(),
            final(self).model() == given_back(old(self).model(), set, 0),
    {
        let ghost before = self.model();
        let mut i: usize = 0;
        while i < self.pools.len()
            invariant
                i <= self.pools@.len(),
                self.wf(),
                self.model() == before,
                before == old(self).model(),
                before.len() == self.pools@.len(),
                given_back(before, set, 0) == given_back(before, set, i as int),
            decreases self.pools@.len() - i,
        {
            assert(before[i as int] == self.pools@[i as int]@);
            if self.pools[i].id == set.pool {
                self.pools[i].free_sets.push(set.vk);
                proof {
                    let changed = PoolModel {
                        free_sets: before[i as int].free_sets.push(set.vk),
                        ..before[i as int]
                    };
                    assert(self.pools@[i as int]@ == changed);
                    assert(self.model() =~= before.update(i as int, changed));
                }
                return ;
            }
            i = i + 1;
        }
    }
}

/// The pools after a set has been given back to the pool that it came from.
pub open spec fn given_back(pools: Seq<PoolModel>, set: DescriptorSet, start: int) -> Seq<PoolModel>
    decreases pools.len() - start,
{
    if start >= pools.len() || start < 0 {
        pools
    } else if pools[start].id == set.pool {
        pools.update(
            start,
            PoolModel { free_sets: pools[start].free_sets.push(set.vk), ..pools[start] },
        )
    } else {
        given_back(pools, set, start + 1)
    }
}

proof fn lemma_given_back_is_reusable(pools: Seq<PoolModel>, set: DescriptorSet, at: int, start: int)
    requires
        0 <= start <= at < pools.len(),
        pools[at].id == set.pool,
    ensures
        reusable(given_back(pools, set, start), start) is Some,
    decreases at - start,
{
    if pools[start].id != set.pool {
        lemma_given_back_is_reusable(pools, set, at, start + 1);
        lemma_given_back_keeps(pools, set, start + 1);
    }
}

proof fn lemma_given_back_keeps(pools: Seq<PoolModel>, set: DescriptorSet, start: int)
    requires
        0 <= start,
    ensures
        given_back(pools, set, start).len() == pools.len(),
    decreases pools.len() - start,
{
    if start < pools.len() && pools[start].id != set.pool {
        lemma_given_back_keeps(pools, set, start + 1);
    }
}

/// Once a set has been given back, the next allocation does not need the device: a set is
/// there to be handed out.
pub proof fn law_released_sets_are_reused(pools: Seq<PoolModel>, set: DescriptorSet, i: int)
    requires
        0 <= i < pools.len(),
        pools[i].id == set.pool,
    ensures
        reusable(given_back(pools, set, 0), 0) is Some,
{
    lemma_given_back_is_reusable(pools, set, i, 0);
}

} // verus!
