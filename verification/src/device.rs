//! The logical device: its queue, its extensions and its memory.

use vstd::prelude::*;

use crate::memory::{
    allows, contains_bits, is_best, is_ranking, MemoryBudgetInfo, MemoryPreferences,
    MemoryProperties, MemoryTypeRank, MemoryUsagePreference, HOST_COHERENT, HOST_VISIBLE,
};
use crate::names::same;
use crate::suballoc::{
    align_up, allocated_as, effective_align, freed_as, law_align_up_is_least_multiple, may_free,
    servable, AllocStep, MemoryBlock, MemoryChunk, Suballocation, TilingClass, VulkanSuballocator,
};
use crate::vk::{has_bits, ERROR_OUT_OF_DEVICE_MEMORY};

verus! {

pub const QUEUE_GRAPHICS: u32 = 1;

pub const QUEUE_COMPUTE: u32 = 2;

pub const QUEUE_TRANSFER: u32 = 4;

/// `ERROR_INITIALIZATION_FAILED`.
pub const ERROR_INITIALIZATION_FAILED: i32 = -3;

/// What the queue is for.
#[derive(Debug, Clone, Copy, PartialEq, Eq, Hash, Structural)]
pub enum QueueType {
    Transfer,
    Compute,
    Graphics,
}

impl QueueType {
    pub open spec fn flags(self) -> u32 {
        match self {
            QueueType::Transfer => QUEUE_TRANSFER,
            QueueType::Compute => QUEUE_COMPUTE,
            QueueType::Graphics => QUEUE_GRAPHICS,
        }
    }

    /// The capability that a queue family needs.
    pub fn vk_flags(&self) -> (r: u32)
        ensures
            r == self.flags(),
    {
        match self {
            QueueType::Transfer => QUEUE_TRANSFER,
            QueueType::Compute => QUEUE_COMPUTE,
            QueueType::Graphics => QUEUE_GRAPHICS,
        }
    }
}

/// Why there is no device.
#[derive(Debug, Clone, Copy, PartialEq, Eq, Structural)]
pub enum DeviceError {
    NoUsableQueue,
    Vk(i32),
}

/// Queue family `i` is the first with the capability.
pub open spec fn is_first_family(families: Seq<u32>, flags: u32, i: int) -> bool {
    &&& 0 <= i < families.len()
    &&& has_bits(families[i], flags)
    &&& forall|k: int| 0 <= k < i ==> !has_bits(#[trigger] families[k], flags)
}

pub open spec fn no_family(families: Seq<u32>, flags: u32) -> bool {
    forall|k: int| 0 <= k < families.len() ==> !has_bits(#[trigger] families[k], flags)
}

fn find_family(families: &Vec<u32>, flags: u32) -> (r: Option<usize>)
    ensures
        match r {
            Some(i) => is_first_family(families@, flags, i as int),
            None => no_family(families@, flags),
        },
{
    let mut i: usize = 0;
    while i < families.len()
        invariant
            i <= families@.len(),
            forall|k: int| 0 <= k < i ==> !has_bits(#[trigger] families@[k], flags),
        decreases families@.len() - i,
    {
        if contains_bits(families[i], flags) {
            return Some(i);
        }
        i = i + 1;
    }
    None
}

/// The queue family that is used: the first with the capability asked for; if there is none
/// and the caller agrees, the first that can do graphics.
pub open spec fn is_queue_choice(
    families: Seq<u32>,
    queue_type: QueueType,
    fallback_to_graphics: bool,
    choice: Option<u32>,
) -> bool {
    let flags = queue_type.flags();
    match choice {
        Some(i) => is_first_family(families, flags, i as int) || (no_family(families, flags)
            && fallback_to_graphics && is_first_family(families, QUEUE_GRAPHICS, i as int)),
        None => no_family(families, flags) && (fallback_to_graphics ==> no_family(
            families,
            QUEUE_GRAPHICS,
        )),
    }
}

/// Whether a name is on the list.
pub open spec fn lists(names: Seq<String>, name: Seq<char>) -> bool {
    exists|i: int| 0 <= i < names.len() && (#[trigger] names[i])@ == name
}

fn is_listed(names: &Vec<String>, name: &str) -> (r: bool)
    ensures
        r == lists(names@, name@),
{
    let mut i: usize = 0;
    while i < names.len()
        invariant
            i <= names@.len(),
            forall|k: int| 0 <= k < i ==> (#[trigger] names@[k])@ != name@,
        decreases names@.len() - i,
    {
        if same(names[i].as_str(), name) {
            assert(names@[i as int]@ == name@);
            return true;
        }
        i = i + 1;
    }
    false
}

/// The extensions that make a difference.
#[derive(Debug, Clone, Copy, PartialEq, Eq, Structural)]
pub struct Extensions {
    pub external_semaphore_fd: bool,
    pub external_memory_fd: bool,
    pub image_drm_format_modifier: bool,
    pub host_image_copy: bool,
    pub push_descriptor: bool,
    pub memory_priority: bool,
    pub memory_budget: bool,
    pub global_priority: bool,
}

pub open spec fn extensions_of(names: Seq<String>) -> Extensions {
    Extensions {
        external_semaphore_fd: lists(names, "VK_KHR_external_semaphore_fd"@),
        external_memory_fd: lists(names, "VK_KHR_external_memory_fd"@),
        image_drm_format_modifier: lists(names, "VK_EXT_image_drm_format_modifier"@),
        host_image_copy: lists(names, "VK_EXT_host_image_copy"@),
        push_descriptor: lists(names, "VK_KHR_push_descriptor"@),
        memory_priority: lists(names, "VK_EXT_memory_priority"@),
        memory_budget: lists(names, "VK_EXT_memory_budget"@),
        global_priority: lists(names, "VK_KHR_global_priority"@) || lists(
            names,
            "VK_EXT_global_priority"@,
        ),
    }
}

/// How the device is to be created.
#[derive(Debug, Clone, Copy, PartialEq, Eq, Structural)]
pub struct DeviceSetup {
    pub queue_index: u32,
    /// The queue asks for more than the default priority in the first attempt.
    pub high_priority: bool,
    pub extensions: Extensions,
}

/// What follows an attempt to create the device.
#[derive(Debug, Clone, Copy, PartialEq, Eq, Structural)]
pub enum CreateStep {
    Created,
    /// Once more, with the default priority.
    Retry,
    Fail(DeviceError),
}

impl DeviceSetup {
    /// Picks the queue family and finds out what the extensions allow. `families` holds the
    /// capabilities of each queue family.
    pub fn new(
        families: &Vec<u32>,
        extensions: &Vec<String>,
        queue_type: QueueType,
        fallback_to_graphics: bool,
    ) -> (setup: Result<Self, DeviceError>)
        requires
            families@.len() <= u32::MAX,
        ensures
            match setup {
                Ok(setup) => {
                    &&& is_queue_choice(
                        families@,
                        queue_type,
                        fallback_to_graphics,
                        Some(setup.queue_index),
                    )
                    &&& setup.extensions == extensions_of(extensions@)
                    &&& setup.high_priority == setup.extensions.global_priority
                },
                Err(error) => {
                    &&& error == DeviceError::NoUsableQueue
                    &&& is_queue_choice(families@, queue_type, fallback_to_graphics, None)
                },
            },
    {
        let flags: u32 = queue_type.vk_flags();
        let queue_index: u32 = match find_family(families, flags) {
            Some(i) => i as u32,
            None => {
                if !fallback_to_graphics {
                    return Err(DeviceError::NoUsableQueue);
                }
                match find_family(families, QUEUE_GRAPHICS) {
                    Some(i) => i as u32,
                    None => return Err(DeviceError::NoUsableQueue),
                }
            },
        };
        let extensions = Extensions {
            external_semaphore_fd: is_listed(extensions, "VK_KHR_external_semaphore_fd"),
            external_memory_fd: is_listed(extensions, "VK_KHR_external_memory_fd"),
            image_drm_format_modifier: is_listed(extensions, "VK_EXT_image_drm_format_modifier"),
            host_image_copy: is_listed(extensions, "VK_EXT_host_image_copy"),
            push_descriptor: is_listed(extensions, "VK_KHR_push_descriptor"),
            memory_priority: is_listed(extensions, "VK_EXT_memory_priority"),
            memory_budget: is_listed(extensions, "VK_EXT_memory_budget"),
            global_priority: is_listed(extensions, "VK_KHR_global_priority") || is_listed(
                extensions,
                "VK_EXT_global_priority",
            ),
        };
        Ok(DeviceSetup { queue_index, high_priority: extensions.global_priority, extensions })
    }

    /// What follows an attempt to create the device: a refusal of the high priority is met
    /// with a second attempt at the default priority.
    pub fn after_create(&self, result: Result<(), i32>, second: bool) -> (step: CreateStep)
        ensures
            step == match result {
                Ok(_) => CreateStep::Created,
                Err(code) => if self.high_priority && !second {
                    CreateStep::Retry
                } else {
                    CreateStep::Fail(DeviceError::Vk(code))
                },
            },
    {
        match result {
            Ok(_) => CreateStep::Created,
            Err(code) => {
                if self.high_priority && !second {
                    CreateStep::Retry
                } else {
                    CreateStep::Fail(DeviceError::Vk(code))
                }
            },
        }
    }
}

/// A device, as far as its memory and its queue go.
#[derive(Debug)]
pub struct Device {
    pub queue_idx: u32,
    pub extensions: Extensions,
    pub mem_properties: MemoryProperties,
    pub memory_preferences: MemoryPreferences,
    pub allocator: VulkanSuballocator,
    pub pipeline_cache_uuid: [u8; 16],
    pub buffer_image_granularity: u64,
    pub non_coherent_atom_size: u64,
}

/// The memory of a type is visible to the host but has to be flushed.
pub open spec fn needs_flush(props: MemoryProperties, type_index: int) -> bool {
    let flags = props.memory_types@[type_index].property_flags;
    has_bits(flags, HOST_VISIBLE) && !has_bits(flags, HOST_COHERENT)
}

/// Room for one flush is never shared: memory that has to be flushed is handed out in whole
/// atoms.
pub open spec fn in_atoms(
    props: MemoryProperties,
    type_index: int,
    atom_size: u64,
    size: u64,
    alignment: u64,
) -> (u64, u64) {
    let atom = effective_align(atom_size);
    if needs_flush(props, type_index) {
        (
            align_up(size, atom),
            if alignment >= atom {
                alignment
            } else {
                atom
            },
        )
    } else {
        (size, alignment)
    }
}

impl Device {
    /// All parts are valid and the rankings are those of the memory types.
    pub open spec fn wf(self) -> bool {
        &&& self.mem_properties.wf()
        &&& self.memory_preferences.wf()
        &&& forall|p: MemoryUsagePreference| #[trigger]
            is_ranking(self.memory_preferences.list(p), self.mem_properties, p)
        &&& self.allocator.wf()
        &&& self.allocator.cache_bounded()
    }

    /// Only the allocator differs.
    pub open spec fn same_but_allocator(self, other: Device) -> bool {
        self == (Device { allocator: self.allocator, ..other })
    }

    /// What is taken from the allocator for a request.
    pub open spec fn atoms(self, size: u64, alignment: u64, type_index: u32) -> (u64, u64) {
        in_atoms(
            self.mem_properties,
            type_index as int,
            self.non_coherent_atom_size,
            size,
            alignment,
        )
    }

    /// A request for some memory, of which whole atoms stay within 64 bits.
    pub open spec fn asks_for_memory(self, size: u64, alignment: u64, type_index: u32) -> bool {
        &&& type_index < self.mem_properties.memory_types@.len()
        &&& needs_flush(self.mem_properties, type_index as int) ==> size + effective_align(
            self.non_coherent_atom_size,
        ) - 1 <= u64::MAX
        &&& self.atoms(size, alignment, type_index).0 > 0
    }

    /// A request that the machine can serve.
    pub open spec fn can_serve(self, size: u64, alignment: u64, type_index: u32, tiling: i32) -> bool {
        let (taken, align) = self.atoms(size, alignment, type_index);
        &&& self.asks_for_memory(size, alignment, type_index)
        &&& servable(
            self.allocator.blocks@,
            taken,
            align,
            type_index,
            TilingClass::of(tiling),
        )
    }

    /// A device without any memory in use yet.
    pub fn new(
        setup: &DeviceSetup,
        mem_properties: MemoryProperties,
        pipeline_cache_uuid: [u8; 16],
        buffer_image_granularity: u64,
        non_coherent_atom_size: u64,
    ) -> (device: Self)
        requires
            mem_properties.wf(),
        ensures
            device.wf(),
            device.queue_idx == setup.queue_index,
            device.extensions == setup.extensions,
            device.mem_properties == mem_properties,
            device.allocator.blocks@.len() == 0,
            device.pipeline_cache_uuid == pipeline_cache_uuid,
            device.buffer_image_granularity == buffer_image_granularity,
            device.non_coherent_atom_size == non_coherent_atom_size,
    {
        let memory_preferences = MemoryPreferences::new(&mem_properties);
        Device {
            queue_idx: setup.queue_index,
            extensions: setup.extensions,
            mem_properties,
            memory_preferences,
            allocator: VulkanSuballocator::new(),
            pipeline_cache_uuid,
            buffer_image_granularity,
            non_coherent_atom_size,
        }
    }

    /// Whether memory of the type is mapped for as long as it exists.
    pub fn is_host_visible(&self, type_index: u32) -> (r: bool)
        requires
            type_index < self.mem_properties.memory_types@.len(),
        ensures
            r == has_bits(
                self.mem_properties.memory_types@[type_index as int].property_flags,
                HOST_VISIBLE,
            ),
    {
        contains_bits(
            self.mem_properties.memory_types[type_index as usize].property_flags,
            HOST_VISIBLE,
        )
    }

    fn whole_atoms(&self, size: u64, alignment: u64, type_index: u32) -> (r: (u64, u64))
        requires
            self.asks_for_memory(size, alignment, type_index),
        ensures
            r == self.atoms(size, alignment, type_index),
    {
        let flags: u32 = self.mem_properties.memory_types[type_index as usize].property_flags;
        if contains_bits(flags, HOST_VISIBLE) && !contains_bits(flags, HOST_COHERENT) {
            let atom: u64 = if self.non_coherent_atom_size == 0 {
                1
            } else {
                self.non_coherent_atom_size
            };
            let aligned_size: u64 = (size + (atom - 1)) & !(atom - 1);
            assert(size + (atom - 1) == size + atom - 1);
            let aligned_req: u64 = if alignment >= atom { alignment } else { atom };
            (aligned_size, aligned_req)
        } else {
            (size, alignment)
        }
    }

    /// Takes memory for a buffer or an image, or says what memory object is to be obtained;
    /// see [`Self::add_memory`] and [`Self::reclaim`] for what follows.
    pub fn suballocate_memory(
        &mut self,
        size: u64,
        alignment: u64,
        memory_type_index: u32,
        tiling: i32,
    ) -> (step: AllocStep)
        requires
            old(self).wf(),
            old(self).can_serve(size, alignment, memory_type_index, tiling),
        ensures
            final(self).wf(),
            final(self).same_but_allocator(*old(self)),
            ({
                let (taken, align) = old(self).atoms(size, alignment, memory_type_index);
                allocated_as(
                    old(self).allocator.blocks@,
                    final(self).allocator.blocks@,
                    taken,
                    align,
                    memory_type_index,
                    TilingClass::of(tiling),
                    step,
                )
            }),
    {
        let (taken, align) = self.whole_atoms(size, alignment, memory_type_index);
        self.allocator.allocate(taken, align, memory_type_index, TilingClass::from_tiling(tiling))
    }

    /// Adds a memory object that was obtained for a request that the existing ones could not
    /// serve, and hands out its start.
    pub fn add_memory(
        &mut self,
        memory: u64,
        total_size: u64,
        mapped_base: Option<usize>,
        size: u64,
        alignment: u64,
        memory_type_index: u32,
        tiling: i32,
    ) -> (part: Suballocation)
        requires
            old(self).wf(),
            old(self).asks_for_memory(size, alignment, memory_type_index),
            old(self).atoms(size, alignment, memory_type_index).0 <= total_size,
            forall|b: int|
                0 <= b < old(self).allocator.blocks@.len() ==> (
                #[trigger] old(self).allocator.blocks@[b]).memory != memory,
            match mapped_base {
                Some(base) => base + total_size <= usize::MAX,
                None => true,
            },
        ensures
            final(self).wf(),
            final(self).same_but_allocator(*old(self)),
            part == (Suballocation { memory, offset: 0, mapped: mapped_base }),
            final(self).allocator.blocks@.drop_last() == old(self).allocator.blocks@,
            final(self).allocator.blocks@.len() == old(self).allocator.blocks@.len() + 1,
            ({
                let taken = old(self).atoms(size, alignment, memory_type_index).0;
                let block = final(self).allocator.blocks@.last();
                &&& block.memory == memory
                &&& block.serves(memory_type_index, TilingClass::of(tiling))
                &&& block.total_size == total_size
                &&& block.mapped_base == mapped_base
                &&& block.free_chunks@ == (if total_size > taken {
                    seq![MemoryChunk { offset: taken, size: (total_size - taken) as u64 }]
                } else {
                    Seq::<MemoryChunk>::empty()
                })
            }),
    {
        let (taken, _align) = self.whole_atoms(size, alignment, memory_type_index);
        self.allocator.add_block(
            memory,
            total_size,
            mapped_base,
            taken,
            memory_type_index,
            TilingClass::from_tiling(tiling),
        )
    }

    /// What to do when no memory object could be obtained. The first time that the device is
    /// out of memory, all cached memory objects without any use are given back, after which
    /// the request is worth another attempt; any other failure is final.
    pub fn reclaim(&mut self, code: i32, second: bool) -> (released: Option<Vec<MemoryBlock>>)
        requires
            old(self).wf(),
        ensures
            final(self).wf(),
            final(self).same_but_allocator(*old(self)),
            match released {
                Some(released) => {
                    &&& code == ERROR_OUT_OF_DEVICE_MEMORY && !second
                    &&& trimmed(
                        old(self).allocator.blocks@,
                        final(self).allocator.blocks@,
                        released@,
                    )
                },
                None => {
                    &&& code != ERROR_OUT_OF_DEVICE_MEMORY || second
                    &&& final(self).allocator.blocks@ == old(self).allocator.blocks@
                },
            },
    {
        if code == ERROR_OUT_OF_DEVICE_MEMORY && !second {
            Some(self.allocator.trim())
        } else {
            None
        }
    }

    /// Gives back all cached memory objects without any use.
    pub fn trim_memory(&mut self) -> (released: Vec<MemoryBlock>)
        requires
            old(self).wf(),
        ensures
            final(self).wf(),
            final(self).same_but_allocator(*old(self)),
            trimmed(old(self).allocator.blocks@, final(self).allocator.blocks@, released@),
    {
        self.allocator.trim()
    }

    /// Returns memory that was taken. A memory object that is no longer wanted is handed
    /// back to be released.
    pub fn free_suballocation(&mut self, memory: u64, offset: u64, size: u64) -> (released: Option<
        MemoryBlock,
    >)
        requires
            old(self).wf(),
            size > 0,
            may_free(old(self).allocator.blocks@, memory, offset, size),
        ensures
            final(self).wf(),
            final(self).same_but_allocator(*old(self)),
            freed_as(
                old(self).allocator.blocks@,
                final(self).allocator.blocks@,
                memory,
                offset,
                size,
                released,
            ),
    {
        self.allocator.free(memory, offset, size)
    }

    pub fn has_memory_priority(&self) -> (r: bool)
        ensures
            r == self.extensions.memory_priority,
    {
        self.extensions.memory_priority
    }

    pub fn buffer_image_granularity(&self) -> (r: u64)
        ensures
            r == self.buffer_image_granularity,
    {
        self.buffer_image_granularity
    }

    pub fn non_coherent_atom_size(&self) -> (r: u64)
        ensures
            r == self.non_coherent_atom_size,
    {
        self.non_coherent_atom_size
    }

    pub fn queue_family_idx(&self) -> (r: u32)
        ensures
            r == self.queue_idx,
    {
        self.queue_idx
    }

    pub fn supports_memory_budget(&self) -> (r: bool)
        ensures
            r == self.extensions.memory_budget,
    {
        self.extensions.memory_budget
    }

    /// The budget that the device reports, where it reports one.
    pub fn memory_budget(&self, reported: MemoryBudgetInfo) -> (r: Option<MemoryBudgetInfo>)
        ensures
            r == (if self.extensions.memory_budget {
                Some(reported)
            } else {
                None
            }),
    {
        if !self.extensions.memory_budget {
            return None;
        }
        Some(reported)
    }

    pub fn memory_properties(&self) -> (r: &MemoryProperties)
        ensures
            *r == self.mem_properties,
    {
        &self.mem_properties
    }

    pub fn memory_preferences(&self) -> (r: &MemoryPreferences)
        ensures
            *r == self.memory_preferences,
    {
        &self.memory_preferences
    }

    pub fn pipeline_cache_uuid(&self) -> (r: [u8; 16])
        ensures
            r == self.pipeline_cache_uuid,
    {
        self.pipeline_cache_uuid
    }

    /// The best memory type that `type_bits` allows for a use.
    pub fn find_memory_type(&self, type_bits: u32, preference: MemoryUsagePreference) -> (r: Option<
        MemoryTypeRank,
    >)
        requires
            self.wf(),
        ensures
            is_memory_choice(self.memory_preferences, type_bits, preference, r),
    {
        self.memory_preferences.find_best(type_bits, preference)
    }

    /// Index of the best memory type that `type_bits` allows for a use.
    pub fn find_memory_type_index(&self, type_bits: u32, preference: MemoryUsagePreference) -> (r:
        Option<u32>)
        requires
            self.wf(),
        ensures
            exists|rank: Option<MemoryTypeRank>|
                #[trigger] is_memory_choice(self.memory_preferences, type_bits, preference, rank)
                    && r == (match rank {
                    Some(rank) => Some(rank.type_index),
                    None => None,
                }),
    {
        match self.find_memory_type(type_bits, preference) {
            Some(rank) => Some(rank.type_index),
            None => None,
        }
    }

    /// The memory types that `type_bits` allows, from the best on.
    pub fn ranked_memory_types(&self, type_bits: u32, preference: MemoryUsagePreference) -> (r: Vec<
        MemoryTypeRank,
    >)
        requires
            self.wf(),
        ensures
            r@ == self.memory_preferences.list(preference).filter(
                |rank: MemoryTypeRank| allows(type_bits, rank.type_index),
            ),
    {
        self.memory_preferences.filter_candidates(type_bits, preference)
    }
}

/// The first entry of the ranking that the mask allows, if there is one.
pub open spec fn is_memory_choice(
    preferences: MemoryPreferences,
    type_bits: u32,
    preference: MemoryUsagePreference,
    choice: Option<MemoryTypeRank>,
) -> bool {
    let list = preferences.list(preference);
    match choice {
        Some(best) => exists|k: int| #[trigger] is_best(list, type_bits, k) && list[k] == best,
        None => forall|k: int|
            0 <= k < list.len() ==> !allows(type_bits, (#[trigger] list[k]).type_index),
    }
}

/// Exactly the blocks without any use are taken out.
pub open spec fn trimmed(
    before: Seq<MemoryBlock>,
    after: Seq<MemoryBlock>,
    released: Seq<MemoryBlock>,
) -> bool {
    &&& forall|i: int| 0 <= i < released.len() ==> (#[trigger] released[i]).is_empty_spec()
    &&& forall|b: int| 0 <= b < after.len() ==> !(#[trigger] after[b]).is_empty_spec()
    &&& after.to_multiset().add(released.to_multiset()) == before.to_multiset()
}

/// Two pieces of memory that has to be flushed never meet in one atom: what is taken for a
/// request starts at a multiple of the atom size and is a multiple of it long, and it is
/// large enough.
pub proof fn law_flushed_memory_is_in_atoms(
    props: MemoryProperties,
    type_index: int,
    atom_log2: u64,
    size: u64,
    alignment: u64,
)
    requires
        atom_log2 < 64,
        needs_flush(props, type_index),
        size + (1u64 << atom_log2) - 1 <= u64::MAX,
    ensures
        ({
            let atom = 1u64 << atom_log2;
            let (taken, align) = in_atoms(props, type_index, atom, size, alignment);
            &&& taken % atom == 0
            &&& size <= taken < size + atom
            &&& align >= atom && align >= alignment
        }),
{
    let atom = 1u64 << atom_log2;
    assert(atom != 0) by (bit_vector)
        requires
            atom == 1u64 << atom_log2,
            atom_log2 < 64,
    ;
    let moved = (size + atom - 1) as u64;
    let mask = (atom - 1) as u64;
    assert(moved & !mask <= moved) by (bit_vector);
    law_align_up_is_least_multiple(size, atom, atom_log2);
}

/// Why there is no timeline.
#[derive(Debug, Clone, Copy, PartialEq, Eq, Structural)]
pub enum TimelineError {
    MissingExternalSemaphoreFd,
    SemaphoreError(i32),
    SemaphoreExportError(i32),
    SemaphoreImportError(i32),
}

/// What follows the creation of a semaphore.
#[derive(Debug, Clone, Copy, PartialEq, Eq, Structural)]
pub enum TimelineStep {
    Ready(u64),
    /// The semaphore is to be exported as a file.
    Export(u64),
    Fail(TimelineError),
}

impl Device {
    /// What follows the creation of the semaphore of a timeline, which is exported for the
    /// use of the display device where `export` is set.
    pub fn create_timeline_semaphore(&self, semaphore: Result<u64, i32>, export: bool) -> (step:
        TimelineStep)
        ensures
            step == match semaphore {
                Err(code) => TimelineStep::Fail(TimelineError::SemaphoreError(code)),
                Ok(semaphore) => if !export {
                    TimelineStep::Ready(semaphore)
                } else if self.extensions.external_semaphore_fd {
                    TimelineStep::Export(semaphore)
                } else {
                    TimelineStep::Fail(TimelineError::MissingExternalSemaphoreFd)
                },
            },
    {
        match semaphore {
            Err(code) => TimelineStep::Fail(TimelineError::SemaphoreError(code)),
            Ok(semaphore) => {
                if !export {
                    TimelineStep::Ready(semaphore)
                } else if self.extensions.external_semaphore_fd {
                    TimelineStep::Export(semaphore)
                } else {
                    TimelineStep::Fail(TimelineError::MissingExternalSemaphoreFd)
                }
            },
        }
    }

    /// Whether a timeline of another device can be imported at all.
    pub fn can_import_timeline(&self) -> (r: Result<(), TimelineError>)
        ensures
            r == (if self.extensions.external_semaphore_fd {
                Ok::<(), TimelineError>(())
            } else {
                Err(TimelineError::MissingExternalSemaphoreFd)
            }),
    {
        if self.extensions.external_semaphore_fd {
            Ok(())
        } else {
            Err(TimelineError::MissingExternalSemaphoreFd)
        }
    }

    /// The outcome of an import: the semaphore, or the error together with the semaphore
    /// that is to be destroyed. `imported` is `None` where the file could not be duplicated.
    pub fn import_timeline_semaphore(
        semaphore: Result<u64, i32>,
        imported: Option<Result<(), i32>>,
    ) -> (r: Result<u64, (TimelineError, Option<u64>)>)
        ensures
            r == match (semaphore, imported) {
                (Err(code), _) => Err::<u64, (TimelineError, Option<u64>)>(
                    (TimelineError::SemaphoreError(code), None),
                ),
                (Ok(semaphore), None) => Err(
                    (
                        TimelineError::SemaphoreImportError(ERROR_INITIALIZATION_FAILED),
                        Some(semaphore),
                    ),
                ),
                (Ok(semaphore), Some(Err(code))) => Err(
                    (TimelineError::SemaphoreImportError(code), Some(semaphore)),
                ),
                (Ok(semaphore), Some(Ok(_))) => Ok(semaphore),
            },
    {
        match semaphore {
            Err(code) => Err((TimelineError::SemaphoreError(code), None)),
            Ok(semaphore) => match imported {
                None => Err(
                    (
                        TimelineError::SemaphoreImportError(ERROR_INITIALIZATION_FAILED),
                        Some(semaphore),
                    ),
                ),
                Some(Err(code)) => Err(
                    (TimelineError::SemaphoreImportError(code), Some(semaphore)),
                ),
                Some(Ok(_)) => Ok(semaphore),
            },
        }
    }
}

} // verus!
