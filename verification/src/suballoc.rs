//! Suballocation of device memory blocks.
//!
//! A block is one device memory object. Each block serves a single memory type and a single
//! tiling class, so linear and optimally tiled resources never share a granularity page. The
//! allocator only keeps the books: obtaining, mapping and releasing device memory is left to
//! the caller, who is told what to do through [`AllocStep`] and through returned blocks.

use vstd::prelude::*;

verus! {

/// Tiling class of the resources that live in one memory block.
#[derive(Debug, Clone, Copy, PartialEq, Eq, Structural)]
pub enum TilingClass {
    /// `LINEAR`
    Linear,
    /// `OPTIMAL` or `DRM_FORMAT_MODIFIER_EXT`
    Optimal,
}

/// Raw value of `VK_IMAGE_TILING_LINEAR`.
pub const IMAGE_TILING_LINEAR: i32 = 1;

impl TilingClass {
    /// Class of a raw `VkImageTiling` value: everything but linear counts as optimal.
    pub open spec fn of(t: i32) -> TilingClass {
        if t == IMAGE_TILING_LINEAR {
            TilingClass::Linear
        } else {
            TilingClass::Optimal
        }
    }

    /// See [`TilingClass::of`].
    pub fn from_tiling(t: i32) -> (r: Self)
        ensures
            r == Self::of(t),
    {
        if t == IMAGE_TILING_LINEAR {
            TilingClass::Linear
        } else {
            TilingClass::Optimal
        }
    }
}

/// A free range `[offset, offset + size)` of a block.
#[derive(Debug, Clone, Copy, PartialEq, Eq, Structural)]
pub struct MemoryChunk {
    pub offset: u64,
    pub size: u64,
}

impl MemoryChunk {
    /// First byte after the range.
    pub open spec fn end(self) -> int {
        self.offset + self.size
    }

    pub open spec fn contains(self, byte: int) -> bool {
        self.offset <= byte < self.end()
    }

    /// The two ranges neither overlap nor touch.
    pub open spec fn apart(self, other: MemoryChunk) -> bool {
        self.end() < other.offset || other.end() < self.offset
    }
}

/// Whether `byte` lies in one of the ranges.
pub open spec fn covers(chunks: Seq<MemoryChunk>, byte: int) -> bool {
    exists|i: int| 0 <= i < chunks.len() && (#[trigger] chunks[i]).contains(byte)
}

/// Ranges ordered by offset with a gap between any two of them.
pub open spec fn ordered(chunks: Seq<MemoryChunk>) -> bool {
    forall|i: int, j: int|
        0 <= i < j < chunks.len() ==> (#[trigger] chunks[i]).end() < (#[trigger] chunks[j]).offset
}

/// `offset` moved up by the mask trick that is used for power of two alignments.
pub open spec fn align_up(offset: u64, align: u64) -> u64 {
    ((offset + align - 1) as u64) & !((align - 1) as u64)
}

/// An alignment of zero means no alignment.
pub open spec fn effective_align(alignment: u64) -> u64 {
    if alignment == 0 {
        1
    } else {
        alignment
    }
}

/// Whether an allocation fits into the free range once it has been aligned. Where the offset
/// cannot be moved up within 64 bits there is no aligned place.
pub open spec fn chunk_fits(chunk: MemoryChunk, size: u64, align: u64) -> bool {
    &&& chunk.offset + align - 1 <= u64::MAX
    &&& align_up(chunk.offset, align) + size <= chunk.end()
}

/// One device memory object together with its free ranges.
#[derive(Debug)]
pub struct MemoryBlock {
    /// Handle of the device memory object.
    pub memory: u64,
    pub memory_type_index: u32,
    pub tiling_class: TilingClass,
    pub total_size: u64,
    /// Free ranges available for new allocations.
    pub free_chunks: Vec<MemoryChunk>,
    /// Address at which the block is persistently mapped.
    pub mapped_base: Option<usize>,
}

impl MemoryBlock {
    /// Free ranges are not empty, lie inside the block, and neither overlap nor touch.
    pub open spec fn wf(self) -> bool {
        &&& self.total_size > 0
        &&& forall|i: int|
            0 <= i < self.free_chunks@.len() ==> (#[trigger] self.free_chunks@[i]).size > 0
                && self.free_chunks@[i].end() <= self.total_size
        &&& forall|i: int, j: int|
            0 <= i < self.free_chunks@.len() && 0 <= j < self.free_chunks@.len() && i != j
                ==> (#[trigger] self.free_chunks@[i]).apart(#[trigger] self.free_chunks@[j])
        &&& match self.mapped_base {
            Some(base) => base + self.total_size <= usize::MAX,
            None => true,
        }
    }

    /// Whether `byte` of the block is free.
    pub open spec fn is_free(self, byte: int) -> bool {
        covers(self.free_chunks@, byte)
    }

    /// Whether the whole block is one free range.
    pub open spec fn is_empty_spec(self) -> bool {
        self.free_chunks@.len() == 1 && self.free_chunks@[0].size == self.total_size
    }

    pub open spec fn serves(self, memory_type_index: u32, tiling_class: TilingClass) -> bool {
        self.memory_type_index == memory_type_index && self.tiling_class == tiling_class
    }

    /// Everything but the free ranges.
    pub open spec fn same_block(self, other: MemoryBlock) -> bool {
        &&& self.memory == other.memory
        &&& self.memory_type_index == other.memory_type_index
        &&& self.tiling_class == other.tiling_class
        &&& self.total_size == other.total_size
        &&& self.mapped_base == other.mapped_base
    }
}

/// A range handed out by the allocator.
#[derive(Debug, Clone, Copy, PartialEq, Eq)]
pub struct Suballocation {
    pub memory: u64,
    pub offset: u64,
    /// Address of the first byte, if the block is mapped.
    pub mapped: Option<usize>,
}

/// What an allocation needs next.
#[derive(Debug, Clone, Copy, PartialEq, Eq)]
pub enum AllocStep {
    /// An existing block had room.
    Ready(Suballocation),
    /// A device memory object of `block_size` bytes has to be obtained. If that fails and
    /// `fallback_size` is given, an object of that size is to be tried.
    NewBlock { block_size: u64, fallback_size: Option<u64> },
}

/// Book keeping of all blocks.
#[derive(Debug)]
pub struct VulkanSuballocator {
    pub blocks: Vec<MemoryBlock>,
}

pub const TIER_1_SIZE: u64 = 0x80_0000;

pub const TIER_2_SIZE: u64 = 0x200_0000;

pub const TIER_3_SIZE: u64 = 0x400_0000;

/// Size of the block that is obtained for an allocation of `size` bytes: the smallest tier
/// that holds it, or else the next multiple of the second tier.
pub open spec fn tier_block_size(size: u64) -> int {
    if size <= TIER_1_SIZE {
        TIER_1_SIZE as int
    } else if size <= TIER_2_SIZE {
        TIER_2_SIZE as int
    } else if size <= TIER_3_SIZE {
        TIER_3_SIZE as int
    } else {
        ((size + TIER_2_SIZE - 1) / TIER_2_SIZE as int) * TIER_2_SIZE
    }
}

pub fn select_tier_block_size(size: u64) -> (r: u64)
    requires
        size + TIER_2_SIZE - 1 <= u64::MAX,
    ensures
        r == tier_block_size(size),
        r >= size,
        r > 0,
{
    if size <= TIER_1_SIZE {
        TIER_1_SIZE
    } else if size <= TIER_2_SIZE {
        TIER_2_SIZE
    } else if size <= TIER_3_SIZE {
        TIER_3_SIZE
    } else {
        let sum: u64 = size + (TIER_2_SIZE - 1);
        let r: u64 = sum & !(TIER_2_SIZE - 1);
        assert(sum & !((0x200_0000u64 - 1) as u64) == (sum / 0x200_0000u64) * 0x200_0000u64)
            by (bit_vector);
        r
    }
}

pub open spec fn is_tiered(size: u64) -> bool {
    size == TIER_1_SIZE || size == TIER_2_SIZE || size == TIER_3_SIZE
}

pub fn is_tiered_size(size: u64) -> (r: bool)
    ensures
        r == is_tiered(size),
{
    size == TIER_1_SIZE || size == TIER_2_SIZE || size == TIER_3_SIZE
}

proof fn lemma_align_up(offset: u64, align: u64)
    requires
        align >= 1,
        offset + align - 1 <= u64::MAX,
    ensures
        offset <= align_up(offset, align) <= offset + align - 1,
{
    let sum = (offset + align - 1) as u64;
    let mask = (align - 1) as u64;
    assert(sum & !mask <= sum && sum - (sum & !mask) <= mask) by (bit_vector);
}

/// For a power of two the mask trick gives the least multiple that is not below `offset`.
pub proof fn law_align_up_is_least_multiple(offset: u64, align: u64, exponent: u64)
    requires
        exponent < 64,
        align == 1u64 << exponent,
        offset + align - 1 <= u64::MAX,
    ensures
        align_up(offset, align) % align == 0,
        align_up(offset, align) >= offset,
        forall|m: u64| m >= offset && #[trigger] (m % align) == 0 ==> m >= align_up(offset, align),
{
    assert(align >= 1) by (bit_vector)
        requires
            exponent < 64,
            align == 1u64 << exponent,
    ;
    lemma_align_up(offset, align);
    let up = align_up(offset, align);
    let sum = (offset + align - 1) as u64;
    let mask = (align - 1) as u64;
    vstd::bits::lemma_u64_pow2_no_overflow(exponent as nat);
    vstd::bits::lemma_u64_shl_is_mul(1u64, exponent);
    vstd::bits::lemma_u64_low_bits_mask_is_mod(sum, exponent as nat);
    assert(sum & !mask == sum - (sum & mask)) by (bit_vector);
    vstd::arithmetic::div_mod::lemma_fundamental_div_mod(sum as int, align as int);
    vstd::arithmetic::div_mod::lemma_mod_multiples_basic(
        sum as int / align as int,
        align as int,
    );
    vstd::arithmetic::mul::lemma_mul_is_commutative(sum as int / align as int, align as int);
    assert forall|m: u64| m >= offset && #[trigger] (m % align) == 0 implies m >= up by {
        // Two multiples of `align` that are less than `align` apart are equal.
        let a = align as int;
        vstd::arithmetic::div_mod::lemma_fundamental_div_mod(m as int, a);
        vstd::arithmetic::div_mod::lemma_fundamental_div_mod(up as int, a);
        let qm = m as int / a;
        let qu = up as int / a;
        if m < up {
            assert(up - m < a);
            assert(a * qu - a * qm < a && a * qu > a * qm);
            assert(false) by (nonlinear_arith)
                requires
                    a * qu - a * qm < a,
                    a * qu > a * qm,
                    a >= 1,
            ;
        }
    }
}

/// Free ranges after `size` bytes at the aligned start of range `i` were taken: the range is
/// replaced by the last one, and what is left of it goes to the back.
pub open spec fn carved(chunks: Seq<MemoryChunk>, i: int, size: u64, align: u64) -> Seq<MemoryChunk> {
    let chunk = chunks[i];
    let start = align_up(chunk.offset, align);
    let rest = chunks.update(i, chunks.last()).drop_last();
    let front = if start > chunk.offset {
        rest.push(MemoryChunk { offset: chunk.offset, size: (start - chunk.offset) as u64 })
    } else {
        rest
    };
    if chunk.end() > start + size {
        front.push(
            MemoryChunk { offset: (start + size) as u64, size: (chunk.end() - (start + size)) as u64 },
        )
    } else {
        front
    }
}

/// The last range has taken the place of range `i`.
proof fn lemma_swap_remove_covers(chunks: Seq<MemoryChunk>, i: int, byte: int)
    requires
        0 <= i < chunks.len(),
    ensures
        covers(chunks, byte) <==> covers(chunks.update(i, chunks.last()).drop_last(), byte)
            || chunks[i].contains(byte),
{
    let rest = chunks.update(i, chunks.last()).drop_last();
    if covers(chunks, byte) {
        let k = choose|k: int| 0 <= k < chunks.len() && (#[trigger] chunks[k]).contains(byte);
        if k != i {
            if k == chunks.len() - 1 {
                assert(rest[i].contains(byte));
            } else {
                assert(rest[k].contains(byte));
            }
        }
    }
    if covers(rest, byte) {
        let k = choose|k: int| 0 <= k < rest.len() && (#[trigger] rest[k]).contains(byte);
        if k == i {
            assert(chunks[chunks.len() - 1].contains(byte));
        } else {
            assert(chunks[k].contains(byte));
        }
    }
}

proof fn lemma_push_covers(chunks: Seq<MemoryChunk>, chunk: MemoryChunk, byte: int)
    ensures
        covers(chunks.push(chunk), byte) <==> covers(chunks, byte) || chunk.contains(byte),
{
    let all = chunks.push(chunk);
    if covers(all, byte) {
        let k = choose|k: int| 0 <= k < all.len() && (#[trigger] all[k]).contains(byte);
        if k < chunks.len() {
            assert(chunks[k].contains(byte));
        }
    }
    if covers(chunks, byte) {
        let k = choose|k: int| 0 <= k < chunks.len() && (#[trigger] chunks[k]).contains(byte);
        assert(all[k].contains(byte));
    }
    if chunk.contains(byte) {
        assert(all[chunks.len() as int].contains(byte));
    }
}

/// Carving a range leaves a well formed block in which exactly the taken bytes are no longer
/// free.
proof fn lemma_carved(block: MemoryBlock, after: MemoryBlock, i: int, size: u64, align: u64)
    requires
        block.wf(),
        0 <= i < block.free_chunks@.len(),
        size > 0,
        align >= 1,
        chunk_fits(block.free_chunks@[i], size, align),
        after.same_block(block),
        after.free_chunks@ == carved(block.free_chunks@, i, size, align),
    ensures
        after.wf(),
        forall|byte: int|
            #[trigger] after.is_free(byte) <==> block.is_free(byte) && !(align_up(
                block.free_chunks@[i].offset,
                align,
            ) <= byte < align_up(block.free_chunks@[i].offset, align) + size),
        forall|byte: int|
            align_up(block.free_chunks@[i].offset, align) <= byte < align_up(
                block.free_chunks@[i].offset,
                align,
            ) + size ==> #[trigger] block.is_free(byte),
{
    let chunks = block.free_chunks@;
    let chunk = chunks[i];
    lemma_align_up(chunk.offset, align);
    let start = align_up(chunk.offset, align);
    let rest = chunks.update(i, chunks.last()).drop_last();
    let n = rest.len() as int;
    assert forall|k: int| 0 <= k < n implies (#[trigger] rest[k]).size > 0 && rest[k].end()
        <= block.total_size && rest[k].apart(chunk) by {
        if k == i {
            assert(rest[k] == chunks[chunks.len() - 1]);
        } else {
            assert(rest[k] == chunks[k]);
        }
    }
    assert forall|j: int, k: int| 0 <= j < n && 0 <= k < n && j != k implies (
    #[trigger] rest[j]).apart(#[trigger] rest[k]) by {
        let jj = if j == i { chunks.len() - 1 } else { j };
        let kk = if k == i { chunks.len() - 1 } else { k };
        assert(rest[j] == chunks[jj] && rest[k] == chunks[kk]);
    }
    let left = MemoryChunk { offset: chunk.offset, size: (start - chunk.offset) as u64 };
    let right = MemoryChunk {
        offset: (start + size) as u64,
        size: (chunk.end() - (start + size)) as u64,
    };
    let front = if start > chunk.offset {
        rest.push(left)
    } else {
        rest
    };
    assert forall|byte: int| covers(after.free_chunks@, byte) <==> covers(rest, byte) || (
    chunk.contains(byte) && !(start <= byte < start + size)) by {
        lemma_push_covers(rest, left, byte);
        lemma_push_covers(front, right, byte);
    }
    assert forall|byte: int| #[trigger] after.is_free(byte) <==> block.is_free(byte) && !(start
        <= byte < start + size) by {
        lemma_swap_remove_covers(chunks, i, byte);
        if covers(rest, byte) && start <= byte < start + size {
            let k = choose|k: int| 0 <= k < rest.len() && (#[trigger] rest[k]).contains(byte);
            assert(rest[k].apart(chunk));
        }
    }
    assert forall|byte: int| start <= byte < start + size implies #[trigger] block.is_free(byte) by {
        assert(chunks[i].contains(byte));
    }
    assert forall|j: int, k: int|
        0 <= j < after.free_chunks@.len() && 0 <= k < after.free_chunks@.len() && j != k implies (
    #[trigger] after.free_chunks@[j]).apart(#[trigger] after.free_chunks@[k]) by {
        if j < n {
            assert(after.free_chunks@[j] == rest[j]);
        }
        if k < n {
            assert(after.free_chunks@[k] == rest[k]);
        }
    }
    assert forall|k: int| 0 <= k < after.free_chunks@.len() implies (
    #[trigger] after.free_chunks@[k]).size > 0 && after.free_chunks@[k].end()
        <= block.total_size by {
        if k < n {
            assert(after.free_chunks@[k] == rest[k]);
        }
    }
}

impl MemoryBlock {
    /// First free range into which the allocation fits.
    fn find_chunk(&self, size: u64, align: u64) -> (r: Option<usize>)
        requires
            self.wf(),
            align >= 1,
        ensures
            match r {
                Some(i) => i < self.free_chunks@.len() && chunk_fits(
                    self.free_chunks@[i as int],
                    size,
                    align,
                ) && forall|k: int|
                    0 <= k < i ==> !chunk_fits(#[trigger] self.free_chunks@[k], size, align),
                None => forall|k: int|
                    0 <= k < self.free_chunks@.len() ==> !chunk_fits(
                        #[trigger] self.free_chunks@[k],
                        size,
                        align,
                    ),
            },
    {
        let mut i: usize = 0;
        while i < self.free_chunks.len()
            invariant
                self.wf(),
                align >= 1,
                i <= self.free_chunks@.len(),
                forall|k: int| 0 <= k < i ==> !chunk_fits(#[trigger] self.free_chunks@[k], size, align),
            decreases self.free_chunks@.len() - i,
        {
            let chunk = self.free_chunks[i];
            if align - 1 <= u64::MAX - chunk.offset {
                proof {
                    lemma_align_up(chunk.offset, align);
                }
                let aligned_offset: u64 = (chunk.offset + (align - 1)) & !(align - 1);
                let padding: u64 = aligned_offset - chunk.offset;
                if padding <= chunk.size && size <= chunk.size - padding {
                    return Some(i);
                }
            }
            i = i + 1;
        }
        None
    }

    /// Takes `size` bytes out of free range `i` and returns where they start.
    fn carve(&mut self, i: usize, size: u64, align: u64) -> (start: u64)
        requires
            old(self).wf(),
            size > 0,
            align >= 1,
            i < old(self).free_chunks@.len(),
            chunk_fits(old(self).free_chunks@[i as int], size, align),
        ensures
            start == align_up(old(self).free_chunks@[i as int].offset, align),
            final(self).wf(),
            final(self).same_block(*old(self)),
            final(self).free_chunks@ == carved(old(self).free_chunks@, i as int, size, align),
            forall|byte: int|
                #[trigger] final(self).is_free(byte) <==> old(self).is_free(byte) && !(start <= byte
                    < start + size),
            forall|byte: int|
                start <= byte < start + size ==> #[trigger] old(self).is_free(byte),
    {
        let ghost before = *self;
        let chunk = self.free_chunks[i];
        proof {
            lemma_align_up(chunk.offset, align);
        }
        let aligned_offset: u64 = (chunk.offset + (align - 1)) & !(align - 1);
        let padding: u64 = aligned_offset - chunk.offset;
        self.free_chunks.swap_remove(i);
        if padding > 0 {
            self.free_chunks.push(MemoryChunk { offset: chunk.offset, size: padding });
        }
        let remaining: u64 = chunk.size - (padding + size);
        if remaining > 0 {
            self.free_chunks.push(MemoryChunk { offset: aligned_offset + size, size: remaining });
        }
        assert(self.free_chunks@ =~= carved(before.free_chunks@, i as int, size, align));
        proof {
            lemma_carved(before, *self, i as int, size, align);
        }
        aligned_offset
    }

    /// Whether the whole block is free.
    pub fn is_empty(&self) -> (r: bool)
        ensures
            r == self.is_empty_spec(),
    {
        self.free_chunks.len() == 1 && self.free_chunks[0].size == self.total_size
    }
}

/// Ranges ordered by offset that do not overlap; they may touch.
pub open spec fn sorted_disjoint(chunks: Seq<MemoryChunk>) -> bool {
    forall|i: int, j: int|
        0 <= i < j < chunks.len() ==> (#[trigger] chunks[i]).end() <= (#[trigger] chunks[j]).offset
}

/// Ranges that are not empty and end at `limit` at the latest.
pub open spec fn bounded(chunks: Seq<MemoryChunk>, limit: u64) -> bool {
    forall|i: int|
        0 <= i < chunks.len() ==> (#[trigger] chunks[i]).size > 0 && chunks[i].end() <= limit
}

/// Puts a range in its place among ordered ranges from which it is disjoint.
fn insert_sorted(chunks: &mut Vec<MemoryChunk>, chunk: MemoryChunk, Ghost(limit): Ghost<u64>)
    requires
        sorted_disjoint(old(chunks)@),
        bounded(old(chunks)@, limit),
        chunk.size > 0,
        chunk.end() <= limit,
        forall|i: int|
            0 <= i < old(chunks)@.len() ==> (#[trigger] old(chunks)@[i]).end() <= chunk.offset
                || chunk.end() <= old(chunks)@[i].offset,
    ensures
        sorted_disjoint(final(chunks)@),
        bounded(final(chunks)@, limit),
        exists|k: int|
            0 <= k <= old(chunks)@.len() && final(chunks)@ == #[trigger] old(chunks)@.insert(k, chunk),
        final(chunks)@.len() == old(chunks)@.len() + 1,
        forall|byte: int|
            #[trigger] covers(final(chunks)@, byte) <==> covers(old(chunks)@, byte)
                || chunk.contains(byte),
{
    let ghost before = chunks@;
    let mut k: usize = 0;
    while k < chunks.len() && chunks[k].offset < chunk.offset
        invariant
            chunks@ == before,
            k <= before.len(),
            forall|i: int| 0 <= i < k ==> (#[trigger] before[i]).offset < chunk.offset,
        decreases before.len() - k,
    {
        k = k + 1;
    }
    chunks.insert(k, chunk);
    proof {
        let after = chunks@;
        assert(after == before.insert(k as int, chunk));
        assert forall|i: int, j: int| 0 <= i < j < after.len() implies (#[trigger] after[i]).end()
            <= (#[trigger] after[j]).offset by {
            if i < k {
                assert(after[i] == before[i]);
                if j > k {
                    assert(after[j] == before[j - 1]);
                }
            } else if i == k {
                assert(after[j] == before[j - 1]);
                if k < before.len() && j - 1 > k {
                    assert(before[k as int].end() <= before[j - 1].offset);
                }
            } else {
                assert(after[i] == before[i - 1]);
                assert(after[j] == before[j - 1]);
            }
        }
        assert forall|i: int| 0 <= i < after.len() implies (#[trigger] after[i]).size > 0
            && after[i].end() <= limit by {
            if i < k {
                assert(after[i] == before[i]);
            } else if i > k {
                assert(after[i] == before[i - 1]);
            }
        }
        assert forall|byte: int| #[trigger] covers(after, byte) <==> covers(before, byte)
            || chunk.contains(byte) by {
            if covers(after, byte) {
                let i = choose|i: int| 0 <= i < after.len() && (#[trigger] after[i]).contains(byte);
                if i < k {
                    assert(before[i].contains(byte));
                } else if i > k {
                    assert(before[i - 1].contains(byte));
                }
            }
            if covers(before, byte) {
                let i = choose|i: int|
                    0 <= i < before.len() && (#[trigger] before[i]).contains(byte);
                if i < k {
                    assert(after[i].contains(byte));
                } else {
                    assert(after[i + 1].contains(byte));
                }
            }
            if chunk.contains(byte) {
                assert(after[k as int].contains(byte));
            }
        }
    }
}

/// Joins touching ranges.
fn coalesce(chunks: &Vec<MemoryChunk>, limit: u64) -> (r: Vec<MemoryChunk>)
    requires
        sorted_disjoint(chunks@),
        bounded(chunks@, limit),
    ensures
        ordered(r@),
        bounded(r@, limit),
        forall|byte: int| #[trigger] covers(r@, byte) <==> covers(chunks@, byte),
{
    let mut r: Vec<MemoryChunk> = Vec::new();
    let mut read: usize = 0;
    while read < chunks.len()
        invariant
            sorted_disjoint(chunks@),
            bounded(chunks@, limit),
            read <= chunks@.len(),
            ordered(r@),
            bounded(r@, limit),
            read > 0 <==> r@.len() > 0,
            read > 0 ==> r@.last().end() == chunks@[read - 1].end(),
            forall|byte: int| #[trigger]
                covers(r@, byte) <==> covers(chunks@.take(read as int), byte),
        decreases chunks@.len() - read,
    {
        let next = chunks[read];
        let ghost before = r@;
        proof {
            assert(chunks@.take(read as int + 1) =~= chunks@.take(read as int).push(next));
            assert(next.size > 0 && next.end() <= limit);
            if read > 0 {
                assert(chunks@[read - 1].end() <= chunks@[read as int].offset);
                assert(before.last().end() <= limit);
            }
        }
        let n: usize = r.len();
        if n > 0 && r[n - 1].offset + r[n - 1].size == next.offset {
            let joined = MemoryChunk { offset: r[n - 1].offset, size: r[n - 1].size + next.size };
            r.set(n - 1, joined);
            proof {
                assert(joined.end() == next.end());
                assert(before.last().end() == next.offset);
                assert forall|byte: int| #[trigger] covers(r@, byte) <==> covers(
                    chunks@.take(read as int + 1),
                    byte,
                ) by {
                    assert(covers(before, byte) <==> covers(chunks@.take(read as int), byte));
                    lemma_push_covers(chunks@.take(read as int), next, byte);
                    lemma_push_covers(before.drop_last(), before.last(), byte);
                    lemma_push_covers(before.drop_last(), joined, byte);
                    assert(before =~= before.drop_last().push(before.last()));
                    assert(r@ =~= before.drop_last().push(joined));
                }
            }
        } else {
            r.push(next);
            proof {
                assert forall|i: int, j: int| 0 <= i < j < r@.len() implies (#[trigger] r@[i]).end()
                    < (#[trigger] r@[j]).offset by {
                    if j == n {
                        assert(before.last().end() < next.offset);
                        if i < n - 1 {
                            assert(before[i].end() < before[n - 1].offset);
                        }
                    }
                }
                assert forall|byte: int| #[trigger] covers(r@, byte) <==> covers(
                    chunks@.take(read as int + 1),
                    byte,
                ) by {
                    assert(covers(before, byte) <==> covers(chunks@.take(read as int), byte));
                    lemma_push_covers(chunks@.take(read as int), next, byte);
                    lemma_push_covers(before, next, byte);
                }
            }
        }
        read = read + 1;
    }
    assert(chunks@.take(read as int) =~= chunks@);
    r
}

/// `after` is `before` with the bytes `[offset, offset + size)` returned to it.
pub open spec fn given_back(before: MemoryBlock, after: MemoryBlock, offset: u64, size: u64) -> bool {
    &&& after.same_block(before)
    &&& after.wf()
    &&& ordered(after.free_chunks@)
    &&& forall|byte: int|
        #[trigger] after.is_free(byte) <==> before.is_free(byte) || offset <= byte < offset + size
}

impl MemoryBlock {
    /// Returns a range to the block and joins it with its neighbours.
    fn give_back(&mut self, offset: u64, size: u64)
        requires
            old(self).wf(),
            size > 0,
            offset + size <= old(self).total_size,
            forall|byte: int| offset <= byte < offset + size ==> !#[trigger] old(self).is_free(byte),
        ensures
            given_back(*old(self), *final(self), offset, size),
    {
        let ghost before = *self;
        let ghost limit = self.total_size;
        let chunk = MemoryChunk { offset, size };
        let mut sorted: Vec<MemoryChunk> = Vec::new();
        let mut i: usize = 0;
        while i < self.free_chunks.len()
            invariant
                *self == before,
                before.wf(),
                limit == before.total_size,
                i <= before.free_chunks@.len(),
                sorted_disjoint(sorted@),
                bounded(sorted@, limit),
                forall|k: int|
                    0 <= k < sorted@.len() ==> exists|m: int|
                        0 <= m < i && #[trigger] before.free_chunks@[m] == #[trigger] sorted@[k],
                forall|byte: int| #[trigger]
                    covers(sorted@, byte) <==> covers(before.free_chunks@.take(i as int), byte),
            decreases before.free_chunks@.len() - i,
        {
            let ghost so_far = sorted@;
            let next = self.free_chunks[i];
            proof {
                assert forall|k: int| 0 <= k < so_far.len() implies (#[trigger] so_far[k]).end()
                    <= next.offset || next.end() <= so_far[k].offset by {
                    let m = choose|m: int|
                        0 <= m < i && #[trigger] before.free_chunks@[m] == so_far[k];
                    assert(before.free_chunks@[m].apart(before.free_chunks@[i as int]));
                }
            }
            insert_sorted(&mut sorted, next, Ghost(limit));
            proof {
                let at = choose|at: int|
                    0 <= at <= so_far.len() && sorted@ == #[trigger] so_far.insert(at, next);
                assert forall|k: int| 0 <= k < sorted@.len() implies exists|m: int|
                    0 <= m < i + 1 && #[trigger] before.free_chunks@[m] == #[trigger] sorted@[k] by {
                    if k < at {
                        assert(sorted@[k] == so_far[k]);
                    } else if k > at {
                        assert(sorted@[k] == so_far[k - 1]);
                    } else {
                        assert(before.free_chunks@[i as int] == sorted@[k]);
                    }
                }
                assert forall|byte: int| #[trigger] covers(sorted@, byte) <==> covers(
                    before.free_chunks@.take(i as int + 1),
                    byte,
                ) by {
                    assert(covers(so_far, byte) <==> covers(
                        before.free_chunks@.take(i as int),
                        byte,
                    ));
                    lemma_push_covers(before.free_chunks@.take(i as int), next, byte);
                    assert(before.free_chunks@.take(i as int + 1)
                        =~= before.free_chunks@.take(i as int).push(next));
                }
            }
            i = i + 1;
        }
        proof {
            assert(before.free_chunks@.take(i as int) =~= before.free_chunks@);
            assert forall|k: int| 0 <= k < sorted@.len() implies (#[trigger] sorted@[k]).end()
                <= chunk.offset || chunk.end() <= sorted@[k].offset by {
                let c = sorted@[k];
                if !(c.end() <= chunk.offset || chunk.end() <= c.offset) {
                    let byte = if c.offset >= chunk.offset { c.offset as int } else {
                        chunk.offset as int
                    };
                    assert(c.contains(byte));
                    assert(covers(sorted@, byte));
                    assert(before.is_free(byte));
                }
            }
        }
        let ghost so_far = sorted@;
        insert_sorted(&mut sorted, chunk, Ghost(limit));
        let joined = coalesce(&sorted, self.total_size);
        self.free_chunks = joined;
        proof {
            let after = *self;
            assert forall|j: int, k: int|
                0 <= j < after.free_chunks@.len() && 0 <= k < after.free_chunks@.len() && j
                    != k implies (#[trigger] after.free_chunks@[j]).apart(
                #[trigger] after.free_chunks@[k],
            ) by {
                if j < k {
                    assert(after.free_chunks@[j].end() < after.free_chunks@[k].offset);
                } else {
                    assert(after.free_chunks@[k].end() < after.free_chunks@[j].offset);
                }
            }
            assert forall|byte: int| #[trigger] after.is_free(byte) <==> before.is_free(byte)
                || offset <= byte < offset + size by {
                assert(covers(after.free_chunks@, byte) <==> covers(sorted@, byte));
                assert(covers(sorted@, byte) <==> covers(so_far, byte) || chunk.contains(byte));
                assert(covers(so_far, byte) <==> covers(before.free_chunks@, byte));
            }
        }
    }
}

/// A block is recognised as empty exactly when every byte of it is free.
pub proof fn law_empty_means_all_free(block: MemoryBlock)
    requires
        block.wf(),
    ensures
        block.is_empty_spec() <==> forall|byte: int|
            0 <= byte < block.total_size ==> #[trigger] block.is_free(byte),
{
    let chunks = block.free_chunks@;
    if block.is_empty_spec() {
        assert forall|byte: int| 0 <= byte < block.total_size implies #[trigger] block.is_free(byte) by {
            assert(chunks[0].contains(byte));
        }
    }
    if forall|byte: int| 0 <= byte < block.total_size ==> #[trigger] block.is_free(byte) {
        assert(block.is_free(0));
        let k = choose|k: int| 0 <= k < chunks.len() && (#[trigger] chunks[k]).contains(0);
        if chunks[k].end() < block.total_size {
            assert(block.is_free(chunks[k].end()));
            let m = choose|m: int|
                0 <= m < chunks.len() && (#[trigger] chunks[m]).contains(chunks[k].end());
            assert(chunks[k].apart(chunks[m]));
        }
        if chunks.len() > 1 {
            let m = if k == 0 { 1int } else { 0int };
            assert(chunks[k].apart(chunks[m]));
            assert(chunks[m].end() <= block.total_size);
        }
    }
}

/// Number of completely free blocks that serve the memory type and tiling class.
pub open spec fn empty_count(
    blocks: Seq<MemoryBlock>,
    memory_type_index: u32,
    tiling_class: TilingClass,
) -> nat
    decreases blocks.len(),
{
    if blocks.len() == 0 {
        0
    } else {
        empty_count(blocks.drop_last(), memory_type_index, tiling_class) + counted(
            blocks.last(),
            memory_type_index,
            tiling_class,
        )
    }
}

/// What one block adds to [`empty_count`].
pub open spec fn counted(
    block: MemoryBlock,
    memory_type_index: u32,
    tiling_class: TilingClass,
) -> nat {
    if block.serves(memory_type_index, tiling_class) && block.is_empty_spec() {
        1
    } else {
        0
    }
}

/// Blocks after block `i` was taken out by moving the last block into its place.
pub open spec fn without(blocks: Seq<MemoryBlock>, i: int) -> Seq<MemoryBlock> {
    blocks.update(i, blocks.last()).drop_last()
}

proof fn lemma_count_update(
    blocks: Seq<MemoryBlock>,
    i: int,
    block: MemoryBlock,
    memory_type_index: u32,
    tiling_class: TilingClass,
)
    requires
        0 <= i < blocks.len(),
    ensures
        empty_count(blocks.update(i, block), memory_type_index, tiling_class) + counted(
            blocks[i],
            memory_type_index,
            tiling_class,
        ) == empty_count(blocks, memory_type_index, tiling_class) + counted(
            block,
            memory_type_index,
            tiling_class,
        ),
    decreases blocks.len(),
{
    let updated = blocks.update(i, block);
    if i == blocks.len() - 1 {
        assert(updated.drop_last() =~= blocks.drop_last());
    } else {
        lemma_count_update(blocks.drop_last(), i, block, memory_type_index, tiling_class);
        assert(updated.drop_last() =~= blocks.drop_last().update(i, block));
    }
}

proof fn lemma_count_without(
    blocks: Seq<MemoryBlock>,
    i: int,
    memory_type_index: u32,
    tiling_class: TilingClass,
)
    requires
        0 <= i < blocks.len(),
    ensures
        empty_count(without(blocks, i), memory_type_index, tiling_class) + counted(
            blocks[i],
            memory_type_index,
            tiling_class,
        ) == empty_count(blocks, memory_type_index, tiling_class),
{
    lemma_count_update(blocks, i, blocks.last(), memory_type_index, tiling_class);
}

proof fn lemma_count_push(
    blocks: Seq<MemoryBlock>,
    block: MemoryBlock,
    memory_type_index: u32,
    tiling_class: TilingClass,
)
    ensures
        empty_count(blocks.push(block), memory_type_index, tiling_class) == empty_count(
            blocks,
            memory_type_index,
            tiling_class,
        ) + counted(block, memory_type_index, tiling_class),
{
    assert(blocks.push(block).drop_last() =~= blocks);
}

/// Range `i` of block `b` is the first one, in order of blocks and ranges, that can hold the
/// allocation.
pub open spec fn first_fit(
    blocks: Seq<MemoryBlock>,
    b: int,
    i: int,
    size: u64,
    alignment: u64,
    memory_type_index: u32,
    tiling_class: TilingClass,
) -> bool {
    let align = effective_align(alignment);
    &&& 0 <= b < blocks.len()
    &&& blocks[b].serves(memory_type_index, tiling_class)
    &&& 0 <= i < blocks[b].free_chunks@.len()
    &&& chunk_fits(blocks[b].free_chunks@[i], size, align)
    &&& forall|k: int| 0 <= k < i ==> !chunk_fits(#[trigger] blocks[b].free_chunks@[k], size, align)
    &&& forall|a: int|
        0 <= a < b ==> !block_fits(
            #[trigger] blocks[a],
            size,
            alignment,
            memory_type_index,
            tiling_class,
        )
}

/// Whether the block can hold the allocation.
pub open spec fn block_fits(
    block: MemoryBlock,
    size: u64,
    alignment: u64,
    memory_type_index: u32,
    tiling_class: TilingClass,
) -> bool {
    block.serves(memory_type_index, tiling_class) && exists|k: int|
        0 <= k < block.free_chunks@.len() && chunk_fits(
            #[trigger] block.free_chunks@[k],
            size,
            effective_align(alignment),
        )
}

/// A block can hold the allocation, or the size of a new one for it stays within 64 bits.
pub open spec fn servable(
    blocks: Seq<MemoryBlock>,
    size: u64,
    alignment: u64,
    memory_type_index: u32,
    tiling_class: TilingClass,
) -> bool {
    size + TIER_2_SIZE - 1 <= u64::MAX || exists|b: int|
        0 <= b < blocks.len() && block_fits(
            #[trigger] blocks[b],
            size,
            alignment,
            memory_type_index,
            tiling_class,
        )
}

/// Address of `offset` in a block that is mapped at `base`.
pub open spec fn mapped_at(base: Option<usize>, offset: u64) -> Option<usize> {
    match base {
        Some(base) => Some((base + offset) as usize),
        None => None,
    }
}

/// Effect of an allocation that found room in range `i` of block `b`.
pub open spec fn taken_from(
    before: Seq<MemoryBlock>,
    after: Seq<MemoryBlock>,
    b: int,
    i: int,
    size: u64,
    alignment: u64,
    result: Suballocation,
) -> bool {
    let align = effective_align(alignment);
    let start = align_up(before[b].free_chunks@[i].offset, align);
    &&& result.memory == before[b].memory
    &&& result.offset == start
    &&& result.mapped == mapped_at(before[b].mapped_base, start)
    &&& after == before.update(b, after[b])
    &&& after[b].same_block(before[b])
    &&& after[b].free_chunks@ == carved(before[b].free_chunks@, i, size, align)
    &&& handed_out(before[b], after[b], start, size)
}

/// The bytes `[start, start + size)` were free before and are the only ones that no longer are.
pub open spec fn handed_out(before: MemoryBlock, after: MemoryBlock, start: u64, size: u64) -> bool {
    &&& start + size <= before.total_size
    &&& forall|byte: int| start <= byte < start + size ==> #[trigger] before.is_free(byte)
    &&& forall|byte: int|
        #[trigger] after.is_free(byte) <==> before.is_free(byte) && !(start <= byte < start + size)
}

/// Blocks and released block after a range was returned to block `b`, which became `updated`:
/// a block that is completely free stays only if it has a tier's size and no more than two
/// such blocks are kept for its memory type and tiling class.
pub open spec fn after_free(
    blocks: Seq<MemoryBlock>,
    b: int,
    updated: MemoryBlock,
) -> (Seq<MemoryBlock>, Option<MemoryBlock>) {
    let now = blocks.update(b, updated);
    if updated.is_empty_spec() && !(is_tiered(updated.total_size) && empty_count(
        now,
        updated.memory_type_index,
        updated.tiling_class,
    ) <= 2) {
        (without(now, b), Some(updated))
    } else {
        (now, None)
    }
}

/// What an allocation does: it takes room out of the first range that can hold it, or, where
/// there is none, asks for a memory object and says which smaller one would do.
pub open spec fn allocated_as(
    before: Seq<MemoryBlock>,
    after: Seq<MemoryBlock>,
    size: u64,
    alignment: u64,
    memory_type_index: u32,
    tiling_class: TilingClass,
    step: AllocStep,
) -> bool {
    match step {
        AllocStep::Ready(result) => exists|b: int, i: int|
            #[trigger] first_fit(
                before,
                b,
                i,
                size,
                alignment,
                memory_type_index,
                tiling_class,
            ) && taken_from(
                before,
                after,
                b,
                i,
                size,
                alignment,
                result,
            ),
        AllocStep::NewBlock { block_size, fallback_size } => {
            &&& forall|b: int|
                0 <= b < before.len() ==> !block_fits(
                    #[trigger] before[b],
                    size,
                    alignment,
                    memory_type_index,
                    tiling_class,
                )
            &&& after == before
            &&& block_size == tier_block_size(size)
            &&& block_size >= size
            &&& fallback_size == (if block_size > size { Some(size) } else { None })
        },
    }
}

/// What registering a memory object does: it comes last, and all but its first bytes are free.
pub open spec fn added_as(
    before: Seq<MemoryBlock>,
    after: Seq<MemoryBlock>,
    memory: u64,
    total_size: u64,
    mapped_base: Option<usize>,
    size: u64,
    memory_type_index: u32,
    tiling_class: TilingClass,
) -> bool {
    let block = after.last();
    &&& after.len() == before.len() + 1
    &&& after.drop_last() == before
    &&& block.memory == memory
    &&& block.serves(memory_type_index, tiling_class)
    &&& block.total_size == total_size
    &&& block.mapped_base == mapped_base
    &&& block.free_chunks@ == (if total_size > size {
        seq![MemoryChunk { offset: size, size: (total_size - size) as u64 }]
    } else {
        Seq::<MemoryChunk>::empty()
    })
    &&& forall|byte: int| #[trigger] block.is_free(byte) <==> size <= byte < total_size
}

/// Block `b` is the memory object.
pub open spec fn is_block(blocks: Seq<MemoryBlock>, b: int, memory: u64) -> bool {
    0 <= b < blocks.len() && blocks[b].memory == memory
}

/// What giving back a range does: nothing, if the memory object is not known; else the range
/// becomes free again, and the memory object may be released.
pub open spec fn freed_as(
    before: Seq<MemoryBlock>,
    after: Seq<MemoryBlock>,
    memory: u64,
    offset: u64,
    size: u64,
    released: Option<MemoryBlock>,
) -> bool {
    &&& (forall|b: int| !#[trigger] is_block(before, b, memory)) ==> after == before && released
        is None
    &&& forall|b: int| #[trigger]
        is_block(before, b, memory) ==> exists|updated: MemoryBlock|
            #[trigger] given_back(before[b], updated, offset, size) && (after, released)
                == after_free(before, b, updated)
}

/// Whether a range of a memory object can be given back: it is in use.
pub open spec fn may_free(blocks: Seq<MemoryBlock>, memory: u64, offset: u64, size: u64) -> bool {
    forall|b: int| #[trigger]
        is_block(blocks, b, memory) ==> {
            &&& offset + size <= blocks[b].total_size
            &&& forall|byte: int|
                offset <= byte < offset + size ==> !#[trigger] blocks[b].is_free(byte)
        }
}

impl Default for VulkanSuballocator {
    fn default() -> (r: Self)
        ensures
            r.blocks@ == Seq::<MemoryBlock>::empty(),
            r.wf(),
            r.cache_bounded(),
    {
        VulkanSuballocator::new()
    }
}

impl VulkanSuballocator {
    /// All blocks are well formed and no two are the same memory object.
    pub open spec fn wf(self) -> bool {
        &&& forall|b: int| 0 <= b < self.blocks@.len() ==> (#[trigger] self.blocks@[b]).wf()
        &&& forall|a: int, b: int|
            0 <= a < b < self.blocks@.len() ==> (#[trigger] self.blocks@[a]).memory
                != (#[trigger] self.blocks@[b]).memory
    }

    /// At most two completely free blocks are kept per memory type and tiling class.
    pub open spec fn cache_bounded(self) -> bool {
        forall|t: u32, c: TilingClass| #[trigger] empty_count(self.blocks@, t, c) <= 2
    }

    /// No block yet.
    pub fn new() -> (r: Self)
        ensures
            r.blocks@ == Seq::<MemoryBlock>::empty(),
            r.wf(),
            r.cache_bounded(),
    {
        VulkanSuballocator { blocks: Vec::new() }
    }

    /// Takes room out of the first block that can hold the allocation, or says which device
    /// memory object is to be obtained.
    pub fn allocate(
        &mut self,
        size: u64,
        alignment: u64,
        memory_type_index: u32,
        tiling_class: TilingClass,
    ) -> (step: AllocStep)
        requires
            old(self).wf(),
            size > 0,
            servable(old(self).blocks@, size, alignment, memory_type_index, tiling_class),
        ensures
            final(self).wf(),
            old(self).cache_bounded() ==> final(self).cache_bounded(),
            allocated_as(
                old(self).blocks@,
                final(self).blocks@,
                size,
                alignment,
                memory_type_index,
                tiling_class,
                step,
            ),
    {
        let align: u64 = if alignment == 0 { 1 } else { alignment };
        let mut b: usize = 0;
        while b < self.blocks.len()
            invariant
                *self == *old(self),
                old(self).wf(),
                size > 0,
                align == effective_align(alignment),
                servable(old(self).blocks@, size, alignment, memory_type_index, tiling_class),
                b <= self.blocks@.len(),
                forall|a: int|
                    0 <= a < b ==> !block_fits(
                        #[trigger] old(self).blocks@[a],
                        size,
                        alignment,
                        memory_type_index,
                        tiling_class,
                    ),
            decreases self.blocks@.len() - b,
        {
            assert(self.blocks@[b as int].wf());
            if self.blocks[b].memory_type_index == memory_type_index && self.blocks[b].tiling_class
                == tiling_class {
                let found = self.blocks[b].find_chunk(size, align);
                if let Some(i) = found {
                    let memory: u64 = self.blocks[b].memory;
                    let base: Option<usize> = self.blocks[b].mapped_base;
                    proof {
                        assert(first_fit(
                            old(self).blocks@,
                            b as int,
                            i as int,
                            size,
                            alignment,
                            memory_type_index,
                            tiling_class,
                        ));
                        let chunk = old(self).blocks@[b as int].free_chunks@[i as int];
                        assert(chunk.end() <= old(self).blocks@[b as int].total_size);
                    }
                    let start: u64 = self.blocks[b].carve(i, size, align);
                    let mapped: Option<usize> = match base {
                        Some(base) => Some(base + start as usize),
                        None => None,
                    };
                    let result = Suballocation { memory, offset: start, mapped };
                    proof {
                        let before = old(self).blocks@;
                        let after = self.blocks@;
                        assert(after =~= before.update(b as int, after[b as int]));
                        assert(taken_from(
                            before,
                            after,
                            b as int,
                            i as int,
                            size,
                            alignment,
                            result,
                        ));
                        assert forall|k: int| 0 <= k < after.len() implies (#[trigger] after[k]).wf() by {
                            if k != b {
                                assert(after[k] == before[k]);
                            }
                        }
                        assert forall|a: int, k: int| 0 <= a < k < after.len() implies (
                        #[trigger] after[a]).memory != (#[trigger] after[k]).memory by {
                            assert(before[a].memory != before[k].memory);
                        }
                        if old(self).cache_bounded() {
                            assert forall|t: u32, c: TilingClass| #[trigger]
                                empty_count(after, t, c) <= 2 by {
                                lemma_count_update(before, b as int, after[b as int], t, c);
                                assert(empty_count(before, t, c) <= 2);
                                law_empty_means_all_free(after[b as int]);
                                assert(!after[b as int].is_free(start as int));
                            }
                        }
                    }
                    return AllocStep::Ready(result);
                }
            }
            b = b + 1;
        }
        let block_size: u64 = select_tier_block_size(size);
        let fallback_size: Option<u64> = if block_size > size { Some(size) } else { None };
        AllocStep::NewBlock { block_size, fallback_size }
    }

    /// Registers a device memory object that was obtained for an allocation of `size` bytes,
    /// and hands out its first bytes.
    pub fn add_block(
        &mut self,
        memory: u64,
        total_size: u64,
        mapped_base: Option<usize>,
        size: u64,
        memory_type_index: u32,
        tiling_class: TilingClass,
    ) -> (result: Suballocation)
        requires
            old(self).wf(),
            0 < size <= total_size,
            forall|b: int|
                0 <= b < old(self).blocks@.len() ==> (#[trigger] old(self).blocks@[b]).memory
                    != memory,
            match mapped_base {
                Some(base) => base + total_size <= usize::MAX,
                None => true,
            },
        ensures
            final(self).wf(),
            old(self).cache_bounded() ==> final(self).cache_bounded(),
            result == (Suballocation { memory, offset: 0, mapped: mapped_base }),
            added_as(
                old(self).blocks@,
                final(self).blocks@,
                memory,
                total_size,
                mapped_base,
                size,
                memory_type_index,
                tiling_class,
            ),
    {
        let mut free_chunks: Vec<MemoryChunk> = Vec::new();
        let remaining: u64 = total_size - size;
        if remaining > 0 {
            free_chunks.push(MemoryChunk { offset: size, size: remaining });
        }
        let block = MemoryBlock {
            memory,
            memory_type_index,
            tiling_class,
            total_size,
            free_chunks,
            mapped_base,
        };
        self.blocks.push(block);
        proof {
            let before = old(self).blocks@;
            let after = self.blocks@;
            let last = after.last();
            assert(after.drop_last() =~= before);
            assert(last.wf());
            assert forall|byte: int| #[trigger] last.is_free(byte) <==> size <= byte < total_size by {
                if size <= byte < total_size {
                    assert(last.free_chunks@[0].contains(byte));
                }
            }
            assert forall|k: int| 0 <= k < after.len() implies (#[trigger] after[k]).wf() by {
                if k < before.len() {
                    assert(after[k] == before[k]);
                }
            }
            if old(self).cache_bounded() {
                assert forall|t: u32, c: TilingClass| #[trigger] empty_count(after, t, c) <= 2 by {
                    assert(empty_count(before, t, c) <= 2);
                    lemma_count_push(before, last, t, c);
                    assert(after =~= before.push(last));
                    assert(!last.is_empty_spec());
                }
            }
        }
        Suballocation { memory, offset: 0, mapped: mapped_base }
    }

    /// Number of completely free blocks for the memory type and tiling class.
    fn count_empty(&self, memory_type_index: u32, tiling_class: TilingClass) -> (n: usize)
        ensures
            n == empty_count(self.blocks@, memory_type_index, tiling_class),
    {
        let mut n: usize = 0;
        let mut i: usize = 0;
        while i < self.blocks.len()
            invariant
                i <= self.blocks@.len(),
                n <= i,
                n == empty_count(self.blocks@.take(i as int), memory_type_index, tiling_class),
            decreases self.blocks@.len() - i,
        {
            proof {
                assert(self.blocks@.take(i as int + 1) =~= self.blocks@.take(i as int).push(
                    self.blocks@[i as int],
                ));
                lemma_count_push(
                    self.blocks@.take(i as int),
                    self.blocks@[i as int],
                    memory_type_index,
                    tiling_class,
                );
            }
            if self.blocks[i].memory_type_index == memory_type_index && self.blocks[i].tiling_class
                == tiling_class && self.blocks[i].is_empty() {
                n = n + 1;
            }
            i = i + 1;
        }
        assert(self.blocks@.take(i as int) =~= self.blocks@);
        n
    }

    /// Returns a range to the block with the handle. The block that is given back, if any, is
    /// no longer in use: it has to be unmapped, if it is mapped, and released.
    pub fn free(&mut self, memory: u64, offset: u64, size: u64) -> (released: Option<MemoryBlock>)
        requires
            old(self).wf(),
            size > 0,
            may_free(old(self).blocks@, memory, offset, size),
        ensures
            final(self).wf(),
            old(self).cache_bounded() ==> final(self).cache_bounded(),
            freed_as(old(self).blocks@, final(self).blocks@, memory, offset, size, released),
    {
        let ghost before = self.blocks@;
        let mut idx: usize = 0;
        while idx < self.blocks.len() && self.blocks[idx].memory != memory
            invariant
                *self == *old(self),
                idx <= self.blocks@.len(),
                forall|a: int| 0 <= a < idx ==> (#[trigger] self.blocks@[a]).memory != memory,
            decreases self.blocks@.len() - idx,
        {
            idx = idx + 1;
        }
        if idx == self.blocks.len() {
            return None;
        }
        assert(is_block(old(self).blocks@, idx as int, memory));
        assert(self.blocks@[idx as int].wf());
        self.blocks[idx].give_back(offset, size);
        let ghost now = self.blocks@;
        let ghost updated = now[idx as int];
        proof {
            assert(now =~= before.update(idx as int, updated));
            assert(given_back(before[idx as int], updated, offset, size));
            assert forall|k: int| 0 <= k < now.len() implies (#[trigger] now[k]).wf() by {
                if k != idx {
                    assert(now[k] == before[k]);
                }
            }
            assert forall|a: int, k: int| 0 <= a < k < now.len() implies (#[trigger] now[a]).memory
                != (#[trigger] now[k]).memory by {
                assert(before[a].memory != before[k].memory);
            }
            assert forall|b: int| #[trigger] is_block(old(self).blocks@, b, memory) implies b == idx by {
                if b < idx {
                    assert(before[b].memory != before[idx as int].memory);
                }
                if b > idx {
                    assert(before[idx as int].memory != before[b].memory);
                }
            }
        }
        if !self.blocks[idx].is_empty() {
            proof {
                if old(self).cache_bounded() {
                    assert forall|t: u32, c: TilingClass| #[trigger] empty_count(now, t, c) <= 2 by {
                        assert(empty_count(before, t, c) <= 2);
                        lemma_count_update(before, idx as int, updated, t, c);
                    }
                }
            }
            return None;
        }
        let mem_type: u32 = self.blocks[idx].memory_type_index;
        let tiling_class: TilingClass = self.blocks[idx].tiling_class;
        let empty: usize = self.count_empty(mem_type, tiling_class);
        let keep_as_cache: bool = is_tiered_size(self.blocks[idx].total_size) && empty <= 2;
        if keep_as_cache {
            proof {
                if old(self).cache_bounded() {
                    assert forall|t: u32, c: TilingClass| #[trigger] empty_count(now, t, c) <= 2 by {
                        assert(empty_count(before, t, c) <= 2);
                        lemma_count_update(before, idx as int, updated, t, c);
                    }
                }
            }
            return None;
        }
        let removed = self.blocks.swap_remove(idx);
        proof {
            let after = self.blocks@;
            assert(after =~= without(now, idx as int));
            assert forall|k: int| 0 <= k < after.len() implies (#[trigger] after[k]).wf() by {
                if k == idx {
                    assert(after[k] == now[now.len() - 1]);
                } else {
                    assert(after[k] == now[k]);
                }
            }
            assert forall|a: int, k: int| 0 <= a < k < after.len() implies (#[trigger] after[a]).memory
                != (#[trigger] after[k]).memory by {
                let aa = if a == idx { now.len() - 1 } else { a };
                let kk = if k == idx { now.len() - 1 } else { k };
                assert(after[a] == now[aa] && after[k] == now[kk]);
                if aa < kk {
                    assert(now[aa].memory != now[kk].memory);
                } else {
                    assert(now[kk].memory != now[aa].memory);
                }
            }
            if old(self).cache_bounded() {
                assert forall|t: u32, c: TilingClass| #[trigger] empty_count(after, t, c) <= 2 by {
                    assert(empty_count(before, t, c) <= 2);
                    lemma_count_update(before, idx as int, updated, t, c);
                    lemma_count_without(now, idx as int, t, c);
                }
            }
        }
        Some(removed)
    }

    /// Takes out all completely free blocks; they have to be unmapped, if they are mapped, and
    /// released.
    pub fn trim(&mut self) -> (released: Vec<MemoryBlock>)
        requires
            old(self).wf(),
        ensures
            final(self).wf(),
            final(self).cache_bounded(),
            final(self).blocks@ == trimmed(old(self).blocks@, 0),
            released@ == taken_out(old(self).blocks@, 0),
            forall|i: int|
                0 <= i < released@.len() ==> (#[trigger] released@[i]).is_empty_spec(),
            forall|b: int|
                0 <= b < final(self).blocks@.len() ==> !(#[trigger] final(self).blocks@[b]).is_empty_spec(),
            final(self).blocks@.to_multiset().add(released@.to_multiset())
                == old(self).blocks@.to_multiset(),
    {
        let mut released: Vec<MemoryBlock> = Vec::new();
        let mut i: usize = 0;
        proof {
            broadcast use vstd::seq_lib::group_to_multiset_ensures;

            assert(self.blocks@.to_multiset().add(released@.to_multiset())
                =~= self.blocks@.to_multiset());
            assert(released@ + taken_out(self.blocks@, 0) =~= taken_out(self.blocks@, 0));
        }
        while i < self.blocks.len()
            invariant
                self.wf(),
                i <= self.blocks@.len(),
                trimmed(old(self).blocks@, 0) == trimmed(self.blocks@, i as int),
                taken_out(old(self).blocks@, 0) == released@ + taken_out(self.blocks@, i as int),
                forall|k: int|
                    0 <= k < released@.len() ==> (#[trigger] released@[k]).is_empty_spec(),
                forall|b: int| 0 <= b < i ==> !(#[trigger] self.blocks@[b]).is_empty_spec(),
                self.blocks@.to_multiset().add(released@.to_multiset())
                    == old(self).blocks@.to_multiset(),
            decreases self.blocks@.len() - i,
        {
            if self.blocks[i].is_empty() {
                let ghost now = self.blocks@;
                let ghost so_far = released@;
                let removed = self.blocks.swap_remove(i);
                released.push(removed);
                proof {
                    let after = self.blocks@;
                    assert(after =~= without(now, i as int));
                    lemma_without_multiset(now, i as int);
                    broadcast use vstd::seq_lib::group_to_multiset_ensures;

                    assert(released@ =~= so_far.push(removed));
                    assert(released@ + taken_out(after, i as int) =~= so_far + taken_out(
                        now,
                        i as int,
                    ));
                    assert(released@.to_multiset() == so_far.to_multiset().insert(removed));
                    assert(after.to_multiset().add(released@.to_multiset())
                        =~= now.to_multiset().add(so_far.to_multiset()));
                    assert forall|k: int| 0 <= k < after.len() implies (#[trigger] after[k]).wf() by {
                        if k == i {
                            assert(after[k] == now[now.len() - 1]);
                        } else {
                            assert(after[k] == now[k]);
                        }
                    }
                    assert forall|a: int, k: int| 0 <= a < k < after.len() implies (
                    #[trigger] after[a]).memory != (#[trigger] after[k]).memory by {
                        let aa = if a == i { now.len() - 1 } else { a };
                        let kk = if k == i { now.len() - 1 } else { k };
                        assert(after[a] == now[aa] && after[k] == now[kk]);
                        if aa < kk {
                            assert(now[aa].memory != now[kk].memory);
                        } else {
                            assert(now[kk].memory != now[aa].memory);
                        }
                    }
                }
            } else {
                i = i + 1;
            }
        }
        proof {
            assert(released@ + taken_out(self.blocks@, i as int) =~= released@);
            assert forall|t: u32, c: TilingClass| #[trigger] empty_count(self.blocks@, t, c) <= 2 by {
                lemma_count_zero(self.blocks@, t, c);
            }
        }
        released
    }

    /// Takes out all blocks, in order.
    pub fn destroy(&mut self) -> (released: Vec<MemoryBlock>)
        ensures
            final(self).blocks@.len() == 0,
            released@ == old(self).blocks@,
    {
        let mut released: Vec<MemoryBlock> = Vec::new();
        std::mem::swap(&mut released, &mut self.blocks);
        released
    }
}

/// The blocks that remain when the completely free ones from `i` on are taken out; the last block
/// takes the place of each.
pub open spec fn trimmed(blocks: Seq<MemoryBlock>, i: int) -> Seq<MemoryBlock>
    decreases blocks.len() - i,
    when 0 <= i
{
    if i >= blocks.len() {
        blocks
    } else if blocks[i].is_empty_spec() {
        trimmed(without(blocks, i), i)
    } else {
        trimmed(blocks, i + 1)
    }
}

/// The blocks that are taken out then, in their order.
pub open spec fn taken_out(blocks: Seq<MemoryBlock>, i: int) -> Seq<MemoryBlock>
    decreases blocks.len() - i,
    when 0 <= i
{
    if i >= blocks.len() {
        seq![]
    } else if blocks[i].is_empty_spec() {
        seq![blocks[i]] + taken_out(without(blocks, i), i)
    } else {
        taken_out(blocks, i + 1)
    }
}

proof fn lemma_without_multiset(blocks: Seq<MemoryBlock>, i: int)
    requires
        0 <= i < blocks.len(),
    ensures
        without(blocks, i).to_multiset() == blocks.to_multiset().remove(blocks[i]),
        blocks.to_multiset().count(blocks[i]) > 0,
{
    broadcast use vstd::seq_lib::group_to_multiset_ensures;

    let last = blocks.last();
    if i == blocks.len() - 1 {
        assert(without(blocks, i) =~= blocks.remove(i));
    } else {
        assert(blocks.update(i, last).to_multiset() == blocks.to_multiset().insert(last).remove(
            blocks[i],
        ));
        assert(without(blocks, i) =~= blocks.update(i, last).remove(blocks.len() - 1));
        assert(without(blocks, i).to_multiset() =~= blocks.to_multiset().remove(blocks[i]));
    }
}

proof fn lemma_count_zero(blocks: Seq<MemoryBlock>, t: u32, c: TilingClass)
    requires
        forall|b: int| 0 <= b < blocks.len() ==> !(#[trigger] blocks[b]).is_empty_spec(),
    ensures
        empty_count(blocks, t, c) == 0,
    decreases blocks.len(),
{
    if blocks.len() > 0 {
        lemma_count_zero(blocks.drop_last(), t, c);
        assert(!blocks[blocks.len() - 1].is_empty_spec());
    }
}

/// Returning a range makes exactly the bytes free again that were free before it was handed
/// out.
pub proof fn law_free_undoes_allocate(
    before: MemoryBlock,
    taken: MemoryBlock,
    back: MemoryBlock,
    start: u64,
    size: u64,
    byte: int,
)
    requires
        handed_out(before, taken, start, size),
        given_back(taken, back, start, size),
    ensures
        back.is_free(byte) <==> before.is_free(byte),
{
}

} // verus!
