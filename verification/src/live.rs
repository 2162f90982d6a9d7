//! Memory in use, over any history of allocations.

use vstd::prelude::*;

use crate::suballoc::{MemoryBlock, Suballocation, TilingClass, VulkanSuballocator};
#[allow(unused_imports)]
use crate::suballoc::{
    added_as, after_free, allocated_as, first_fit, freed_as, given_back, is_block,
    effective_align, law_align_up_is_least_multiple, law_empty_means_all_free, may_free, taken_from,
    without, AllocStep,
};

verus! {

/// A range of a memory object that is in use, and what it was asked for.
#[derive(Debug, Clone, Copy, PartialEq, Eq, Structural)]
pub struct Part {
    pub memory: u64,
    pub offset: u64,
    pub size: u64,
    pub memory_type_index: u32,
    pub tiling_class: TilingClass,
}

/// The block keeps the range for its user: it suits what was asked for, and none of the range is
/// free.
pub open spec fn holds(block: MemoryBlock, part: Part) -> bool {
    &&& block.memory == part.memory
    &&& block.serves(part.memory_type_index, part.tiling_class)
    &&& part.offset + part.size <= block.total_size
    &&& forall|byte: int|
        part.offset <= byte < part.offset + part.size ==> !#[trigger] block.is_free(byte)
}

/// Some block keeps the range for its user.
pub open spec fn held(blocks: Seq<MemoryBlock>, part: Part) -> bool {
    exists|b: int| 0 <= b < blocks.len() && #[trigger] holds(blocks[b], part)
}

/// No byte belongs to both.
pub open spec fn apart(a: Part, b: Part) -> bool {
    a.memory != b.memory || a.offset + a.size <= b.offset || b.offset + b.size <= a.offset
}

/// All parts are kept for their users, and no two of them share a byte.
pub open spec fn in_use(blocks: Seq<MemoryBlock>, parts: Seq<Part>) -> bool {
    &&& forall|p: int|
        0 <= p < parts.len() ==> (#[trigger] parts[p]).size > 0 && held(blocks, parts[p])
    &&& forall|p: int, q: int|
        0 <= p < q < parts.len() ==> apart(#[trigger] parts[p], #[trigger] parts[q])
}

/// The part that an allocation hands out.
pub open spec fn part_of(
    result: Suballocation,
    size: u64,
    memory_type_index: u32,
    tiling_class: TilingClass,
) -> Part {
    Part { memory: result.memory, offset: result.offset, size, memory_type_index, tiling_class }
}

/// The block of a part is the only one with its memory.
proof fn lemma_one_home(allocator: VulkanSuballocator, part: Part, b: int)
    requires
        allocator.wf(),
        held(allocator.blocks@, part),
        is_block(allocator.blocks@, b, part.memory),
    ensures
        holds(allocator.blocks@[b], part),
{
    let blocks = allocator.blocks@;
    let k = choose|k: int| 0 <= k < blocks.len() && #[trigger] holds(blocks[k], part);
    if k < b {
        assert(blocks[k].memory != blocks[b].memory);
    } else if b < k {
        assert(blocks[b].memory != blocks[k].memory);
    }
}

/// An allocation that finds room hands out memory that nobody else uses, and takes none away
/// from the users that there are.
pub proof fn law_allocations_stay_apart(
    before: VulkanSuballocator,
    after: VulkanSuballocator,
    parts: Seq<Part>,
    size: u64,
    alignment: u64,
    memory_type_index: u32,
    tiling_class: TilingClass,
    result: Suballocation,
)
    requires
        before.wf(),
        in_use(before.blocks@, parts),
        size > 0,
        allocated_as(
            before.blocks@,
            after.blocks@,
            size,
            alignment,
            memory_type_index,
            tiling_class,
            AllocStep::Ready(result),
        ),
    ensures
        in_use(
            after.blocks@,
            parts.push(part_of(result, size, memory_type_index, tiling_class)),
        ),
{
    let old = before.blocks@;
    let new = after.blocks@;
    let fresh = part_of(result, size, memory_type_index, tiling_class);
    let all = parts.push(fresh);
    let (b, i) = choose|b: int, i: int|
        #[trigger] first_fit(old, b, i, size, alignment, memory_type_index, tiling_class)
            && taken_from(old, new, b, i, size, alignment, result);
    assert(is_block(old, b, result.memory));
    assert(holds(new[b], fresh));
    assert forall|p: int| 0 <= p < all.len() implies (#[trigger] all[p]).size > 0 && held(
        new,
        all[p],
    ) by {
        if p < parts.len() {
            assert(all[p] == parts[p]);
            let k = choose|k: int| 0 <= k < old.len() && #[trigger] holds(old[k], parts[p]);
            assert(holds(new[k], parts[p]));
        }
    }
    assert forall|p: int, q: int| 0 <= p < q < all.len() implies apart(
        #[trigger] all[p],
        #[trigger] all[q],
    ) by {
        assert(all[p] == parts[p]);
        if q < parts.len() {
            assert(all[q] == parts[q]);
        } else if parts[p].memory == fresh.memory {
            lemma_one_home(before, parts[p], b);
            if !apart(parts[p], fresh) {
                let byte = if parts[p].offset >= fresh.offset {
                    parts[p].offset as int
                } else {
                    fresh.offset as int
                };
                assert(old[b].is_free(byte));
            }
        }
    }
}

/// What an allocation promises. If it finds room, this is aligned, lies inside its memory object,
/// overlaps no part in use, and shares the memory object only with parts of the same memory type and
/// tiling class. If it finds none, nothing changes.
pub proof fn law_allocations_keep_their_promise(
    before: VulkanSuballocator,
    after: VulkanSuballocator,
    parts: Seq<Part>,
    size: u64,
    alignment: u64,
    exponent: u64,
    memory_type_index: u32,
    tiling_class: TilingClass,
    step: AllocStep,
)
    requires
        before.wf(),
        in_use(before.blocks@, parts),
        size > 0,
        exponent < 64,
        effective_align(alignment) == 1u64 << exponent,
        allocated_as(
            before.blocks@,
            after.blocks@,
            size,
            alignment,
            memory_type_index,
            tiling_class,
            step,
        ),
    ensures
        match step {
            AllocStep::Ready(result) => {
                let fresh = part_of(result, size, memory_type_index, tiling_class);
                &&& result.offset % effective_align(alignment) == 0
                &&& held(after.blocks@, fresh)
                &&& forall|p: int| 0 <= p < parts.len() ==> apart(#[trigger] parts[p], fresh)
                &&& forall|p: int|
                    0 <= p < parts.len() && (#[trigger] parts[p]).memory == fresh.memory
                        ==> parts[p].tiling_class == tiling_class && parts[p].memory_type_index
                        == memory_type_index
            },
            AllocStep::NewBlock { .. } => after.blocks@ == before.blocks@,
        },
{
    if let AllocStep::Ready(result) = step {
        let old = before.blocks@;
        let fresh = part_of(result, size, memory_type_index, tiling_class);
        let all = parts.push(fresh);
        law_allocations_stay_apart(
            before,
            after,
            parts,
            size,
            alignment,
            memory_type_index,
            tiling_class,
            result,
        );
        let last = parts.len() as int;
        assert(all[last] == fresh);
        let (b, i) = choose|b: int, i: int|
            #[trigger] first_fit(old, b, i, size, alignment, memory_type_index, tiling_class)
                && taken_from(old, after.blocks@, b, i, size, alignment, result);
        assert(old[b].wf());
        let chunk = old[b].free_chunks@[i];
        assert(chunk.end() <= old[b].total_size);
        law_align_up_is_least_multiple(chunk.offset, effective_align(alignment), exponent);
        assert(is_block(old, b, fresh.memory));
        assert forall|p: int| 0 <= p < parts.len() implies apart(#[trigger] parts[p], fresh) by {
            assert(all[p] == parts[p]);
        }
        assert forall|p: int|
            0 <= p < parts.len() && (#[trigger] parts[p]).memory
                == fresh.memory implies parts[p].tiling_class == tiling_class
            && parts[p].memory_type_index == memory_type_index by {
            lemma_one_home(before, parts[p], b);
        }
    }
}

/// A memory object that is registered for an allocation hands out memory that nobody else uses.
pub proof fn law_new_memory_stays_apart(
    before: VulkanSuballocator,
    after: VulkanSuballocator,
    parts: Seq<Part>,
    memory: u64,
    total_size: u64,
    mapped_base: Option<usize>,
    size: u64,
    memory_type_index: u32,
    tiling_class: TilingClass,
)
    requires
        in_use(before.blocks@, parts),
        0 < size <= total_size,
        forall|b: int|
            0 <= b < before.blocks@.len() ==> (#[trigger] before.blocks@[b]).memory != memory,
        added_as(
            before.blocks@,
            after.blocks@,
            memory,
            total_size,
            mapped_base,
            size,
            memory_type_index,
            tiling_class,
        ),
    ensures
        in_use(
            after.blocks@,
            parts.push(Part { memory, offset: 0, size, memory_type_index, tiling_class }),
        ),
{
    let old = before.blocks@;
    let new = after.blocks@;
    let fresh = Part { memory, offset: 0, size, memory_type_index, tiling_class };
    let all = parts.push(fresh);
    let last = old.len() as int;
    assert(new[last] == new.last());
    assert(holds(new[last], fresh));
    assert forall|p: int| 0 <= p < all.len() implies (#[trigger] all[p]).size > 0 && held(
        new,
        all[p],
    ) by {
        if p < parts.len() {
            assert(all[p] == parts[p]);
            let k = choose|k: int| 0 <= k < old.len() && #[trigger] holds(old[k], parts[p]);
            assert(new.drop_last()[k] == new[k]);
            assert(holds(new[k], parts[p]));
        }
    }
    assert forall|p: int, q: int| 0 <= p < q < all.len() implies apart(
        #[trigger] all[p],
        #[trigger] all[q],
    ) by {
        assert(all[p] == parts[p]);
        if q < parts.len() {
            assert(all[q] == parts[q]);
        } else {
            let k = choose|k: int| 0 <= k < old.len() && #[trigger] holds(old[k], parts[p]);
            assert(old[k].memory != memory);
        }
    }
}

/// A part in use can be given back. It then is in use no longer, and everyone else's memory is
/// still kept, even where a memory object is released.
pub proof fn law_freeing_ends_one_use(
    before: VulkanSuballocator,
    after: VulkanSuballocator,
    parts: Seq<Part>,
    i: int,
    released: Option<MemoryBlock>,
)
    requires
        before.wf(),
        in_use(before.blocks@, parts),
        0 <= i < parts.len(),
        freed_as(
            before.blocks@,
            after.blocks@,
            parts[i].memory,
            parts[i].offset,
            parts[i].size,
            released,
        ),
    ensures
        may_free(before.blocks@, parts[i].memory, parts[i].offset, parts[i].size),
        in_use(after.blocks@, parts.remove(i)),
{
    let old = before.blocks@;
    let new = after.blocks@;
    let gone = parts[i];
    let rest = parts.remove(i);
    let b = choose|b: int| 0 <= b < old.len() && #[trigger] holds(old[b], gone);
    assert(is_block(old, b, gone.memory));
    assert forall|k: int| #[trigger] is_block(old, k, gone.memory) implies {
        &&& gone.offset + gone.size <= old[k].total_size
        &&& forall|byte: int|
            gone.offset <= byte < gone.offset + gone.size ==> !#[trigger] old[k].is_free(byte)
    } by {
        lemma_one_home(before, gone, k);
    }
    let updated = choose|updated: MemoryBlock|
        #[trigger] given_back(old[b], updated, gone.offset, gone.size) && (new, released)
            == after_free(old, b, updated);
    let now = old.update(b, updated);
    assert forall|p: int| 0 <= p < rest.len() implies (#[trigger] rest[p]).size > 0 && held(
        new,
        rest[p],
    ) by {
        let q = if p < i { p } else { p + 1 };
        assert(rest[p] == parts[q]);
        assert(apart(parts[q], gone)) by {
            if q < i {
                assert(apart(parts[q], parts[i]));
            } else {
                assert(apart(parts[i], parts[q]));
            }
        }
        let k = choose|k: int| 0 <= k < old.len() && #[trigger] holds(old[k], parts[q]);
        assert(holds(now[k], parts[q])) by {
            if k == b {
                assert forall|byte: int|
                    parts[q].offset <= byte < parts[q].offset + parts[q].size implies !#[trigger] updated.is_free(
                    byte,
                ) by {
                    assert(!old[b].is_free(byte));
                }
            }
        }
        if new != now {
            assert(new == without(now, b));
            law_empty_means_all_free(updated);
            if k == b {
                assert(updated.is_free(parts[q].offset as int));
                assert(!updated.is_free(parts[q].offset as int));
            }
            let at = if k == now.len() - 1 { b } else { k };
            assert(new[at] == now[k]);
            assert(holds(new[at], parts[q]));
        }
    }
    assert forall|p: int, q: int| 0 <= p < q < rest.len() implies apart(
        #[trigger] rest[p],
        #[trigger] rest[q],
    ) by {
        let a = if p < i { p } else { p + 1 };
        let c = if q < i { q } else { q + 1 };
        assert(rest[p] == parts[a] && rest[q] == parts[c]);
    }
}

/// Releasing unused memory objects takes nothing away from any user.
pub proof fn law_trimming_keeps_all_in_use(
    before: VulkanSuballocator,
    after: VulkanSuballocator,
    released: Seq<MemoryBlock>,
    parts: Seq<Part>,
)
    requires
        before.wf(),
        in_use(before.blocks@, parts),
        forall|k: int| 0 <= k < released.len() ==> (#[trigger] released[k]).is_empty_spec(),
        after.blocks@.to_multiset().add(released.to_multiset()) == before.blocks@.to_multiset(),
    ensures
        in_use(after.blocks@, parts),
{
    broadcast use vstd::seq_lib::group_to_multiset_ensures;

    let old = before.blocks@;
    let new = after.blocks@;
    assert forall|p: int| 0 <= p < parts.len() implies (#[trigger] parts[p]).size > 0 && held(
        new,
        parts[p],
    ) by {
        let k = choose|k: int| 0 <= k < old.len() && #[trigger] holds(old[k], parts[p]);
        assert(old.contains(old[k]));
        assert(old.to_multiset().count(old[k]) > 0);
        if released.contains(old[k]) {
            assert(before.blocks@[k].wf());
            law_empty_means_all_free(old[k]);
            assert(old[k].is_free(parts[p].offset as int));
        }
        assert(released.to_multiset().count(old[k]) == 0);
        assert(new.to_multiset().count(old[k]) > 0);
        assert(new.contains(old[k]));
        let j = choose|j: int| 0 <= j < new.len() && new[j] == old[k];
        assert(holds(new[j], parts[p]));
    }
}

/// Linear and other images never share a memory object, and neither do memory types: parts of
/// one memory object agree in both.
pub proof fn law_classes_never_share_memory(
    allocator: VulkanSuballocator,
    parts: Seq<Part>,
    p: int,
    q: int,
)
    requires
        allocator.wf(),
        in_use(allocator.blocks@, parts),
        0 <= p < parts.len(),
        0 <= q < parts.len(),
        parts[p].memory == parts[q].memory,
    ensures
        parts[p].tiling_class == parts[q].tiling_class,
        parts[p].memory_type_index == parts[q].memory_type_index,
{
    let blocks = allocator.blocks@;
    let b = choose|b: int| 0 <= b < blocks.len() && #[trigger] holds(blocks[b], parts[p]);
    assert(is_block(blocks, b, parts[q].memory));
    lemma_one_home(allocator, parts[q], b);
}

} // verus!
