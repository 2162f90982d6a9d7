//! Choice of device memory types.

use vstd::prelude::*;

use crate::softfloat::f32_quotient;
#[allow(unused_imports)]
use crate::softfloat::f32_quotient_of;

verus! {

/// `VK_MEMORY_PROPERTY_DEVICE_LOCAL_BIT`
pub const DEVICE_LOCAL: u32 = 1;

/// `VK_MEMORY_PROPERTY_HOST_VISIBLE_BIT`
pub const HOST_VISIBLE: u32 = 2;

/// `VK_MEMORY_PROPERTY_HOST_COHERENT_BIT`
pub const HOST_COHERENT: u32 = 4;

/// `HOST_VISIBLE | HOST_COHERENT`
pub const HOST_VISIBLE_COHERENT: u32 = 6;

/// `HOST_VISIBLE | DEVICE_LOCAL`
pub const HOST_VISIBLE_LOCAL: u32 = 3;

/// `HOST_COHERENT | DEVICE_LOCAL`
pub const HOST_COHERENT_LOCAL: u32 = 5;

/// `HOST_VISIBLE | HOST_COHERENT | DEVICE_LOCAL`
pub const HOST_VISIBLE_COHERENT_LOCAL: u32 = 7;

/// `VK_MEMORY_HEAP_DEVICE_LOCAL_BIT`
pub const HEAP_DEVICE_LOCAL: u32 = 1;

/// Largest device local heap that counts as a constrained aperture.
pub const SMALL_BAR_LIMIT: u64 = 0x2000_0000;

/// Largest number of memory types that a device has (`VK_MAX_MEMORY_TYPES`).
pub const MAX_MEMORY_TYPES: usize = 32;

/// Whether all bits of `bits` are set in `flags`.
pub open spec fn has_bits(flags: u32, bits: u32) -> bool {
    flags & bits == bits
}

pub fn contains_bits(flags: u32, bits: u32) -> (r: bool)
    ensures
        r == has_bits(flags, bits),
{
    flags & bits == bits
}

/// Memory usage intent for selecting optimal memory types.
#[derive(Debug, Clone, Copy, PartialEq, Eq, Hash, Structural)]
pub enum MemoryUsagePreference {
    /// Regular textures, render targets and framebuffer attachments. Prefers memory that is
    /// device local and not host visible.
    DeviceLocal,
    /// Images that the host writes. Prefers system memory.
    HostTransfer,
    /// Linear images, staging and indirect buffers. Prefers system memory.
    HostVisible,
}

/// A memory type as the device reports it.
#[derive(Debug, Clone, Copy, PartialEq, Eq, Structural)]
pub struct MemoryType {
    pub property_flags: u32,
    pub heap_index: u32,
}

/// A memory heap as the device reports it.
#[derive(Debug, Clone, Copy, PartialEq, Eq, Structural)]
pub struct MemoryHeap {
    pub size: u64,
    pub flags: u32,
}

/// The memory types and heaps of a device.
#[derive(Debug, Clone)]
pub struct MemoryProperties {
    pub memory_types: Vec<MemoryType>,
    pub memory_heaps: Vec<MemoryHeap>,
}

impl MemoryProperties {
    pub open spec fn wf(self) -> bool {
        self.memory_types@.len() <= MAX_MEMORY_TYPES
    }

    /// Whether memory type `i` lives in a device local heap of at most 512 MiB.
    pub open spec fn small_bar(self, i: int) -> bool {
        &&& 0 <= i < self.memory_types@.len()
        &&& self.memory_types@[i].heap_index < self.memory_heaps@.len()
        &&& has_bits(
            self.memory_heaps@[self.memory_types@[i].heap_index as int].flags,
            HEAP_DEVICE_LOCAL,
        )
        &&& self.memory_heaps@[self.memory_types@[i].heap_index as int].size <= SMALL_BAR_LIMIT
    }

    fn is_small_bar(&self, i: usize) -> (r: bool)
        ensures
            r == self.small_bar(i as int),
    {
        if i >= self.memory_types.len() {
            return false;
        }
        let heap_idx: usize = self.memory_types[i].heap_index as usize;
        if heap_idx < self.memory_heaps.len() {
            let heap = self.memory_heaps[heap_idx];
            contains_bits(heap.flags, HEAP_DEVICE_LOCAL) && heap.size <= SMALL_BAR_LIMIT
        } else {
            false
        }
    }

    /// Memory type `i` exists, is allowed by `type_bits` and has all the flags.
    pub open spec fn matches(self, type_bits: u32, flags: u32, i: int) -> bool {
        &&& 0 <= i < self.memory_types@.len()
        &&& allows(type_bits, i as u32)
        &&& has_bits(self.memory_types@[i].property_flags, flags)
    }

    /// The first memory type that matches.
    pub open spec fn is_first_match(self, type_bits: u32, flags: u32, i: int) -> bool {
        &&& self.matches(type_bits, flags, i)
        &&& forall|k: int| 0 <= k < i ==> !#[trigger] self.matches(type_bits, flags, k)
    }

    pub open spec fn no_match(self, type_bits: u32, flags: u32) -> bool {
        forall|k: int| !#[trigger] self.matches(type_bits, flags, k)
    }

    /// First memory type that is allowed by `type_bits` and has all the flags.
    pub fn find_first(&self, type_bits: u32, flags: u32) -> (r: Option<u32>)
        requires
            self.wf(),
        ensures
            match r {
                Some(i) => self.is_first_match(type_bits, flags, i as int),
                None => self.no_match(type_bits, flags),
            },
    {
        let mut i: usize = 0;
        while i < self.memory_types.len()
            invariant
                self.wf(),
                i <= self.memory_types@.len(),
                forall|k: int| 0 <= k < i ==> !#[trigger] self.matches(type_bits, flags, k),
            decreases self.memory_types@.len() - i,
        {
            let index: u32 = i as u32;
            if (type_bits & (1u32 << index)) != 0 && contains_bits(
                self.memory_types[i].property_flags,
                flags,
            ) {
                assert(self.matches(type_bits, flags, index as int));
                return Some(index);
            }
            i = i + 1;
        }
        None
    }
}

/// Whether bit `index` of a memory type mask is set.
pub open spec fn allows(type_bits: u32, index: u32) -> bool {
    type_bits & (1u32 << index) != 0
}

/// A ranked memory type candidate with its index and flags.
#[derive(Debug, Clone, Copy, PartialEq, Eq, Structural)]
pub struct MemoryTypeRank {
    pub type_index: u32,
    pub property_flags: u32,
}

impl Default for MemoryTypeRank {
    fn default() -> (r: Self)
        ensures
            r == (MemoryTypeRank { type_index: 0, property_flags: 0 }),
    {
        MemoryTypeRank { type_index: 0, property_flags: 0 }
    }
}

/// How well memory type `i` serves the intent; `None` if it cannot serve it.
pub open spec fn score(props: MemoryProperties, preference: MemoryUsagePreference, i: int) -> Option<int> {
    let flags = props.memory_types@[i].property_flags;
    match preference {
        MemoryUsagePreference::DeviceLocal => Some(
            if has_bits(flags, DEVICE_LOCAL) && !has_bits(flags, HOST_VISIBLE) {
                1000int
            } else if has_bits(flags, DEVICE_LOCAL) {
                800int
            } else {
                400int
            },
        ),
        MemoryUsagePreference::HostTransfer => Some(
            if has_bits(flags, HOST_VISIBLE_COHERENT) && !has_bits(flags, DEVICE_LOCAL) {
                1000int
            } else if has_bits(flags, HOST_VISIBLE_LOCAL) {
                if !props.small_bar(i) {
                    900int
                } else {
                    700int
                }
            } else if has_bits(flags, DEVICE_LOCAL) {
                850int
            } else if has_bits(flags, HOST_VISIBLE) {
                800int
            } else {
                400int
            },
        ),
        MemoryUsagePreference::HostVisible => if !has_bits(flags, HOST_VISIBLE) {
            None
        } else {
            Some(
                if has_bits(flags, HOST_COHERENT) && !has_bits(flags, DEVICE_LOCAL) {
                    1000int
                } else if has_bits(flags, HOST_COHERENT_LOCAL) {
                    if !props.small_bar(i) {
                        900int
                    } else {
                        700int
                    }
                } else if has_bits(flags, HOST_COHERENT) {
                    850int
                } else if has_bits(flags, DEVICE_LOCAL) {
                    if !props.small_bar(i) {
                        800int
                    } else {
                        600int
                    }
                } else {
                    500int
                },
            )
        },
    }
}

/// Whether memory type `a` is preferred over `b`: by score, then by index.
pub open spec fn preferred(
    props: MemoryProperties,
    preference: MemoryUsagePreference,
    a: int,
    b: int,
) -> bool {
    let sa = score(props, preference, a)->0;
    let sb = score(props, preference, b)->0;
    sa > sb || (sa == sb && a < b)
}

/// The list holds exactly the memory types that can serve the intent, best first.
pub open spec fn is_ranking(
    list: Seq<MemoryTypeRank>,
    props: MemoryProperties,
    preference: MemoryUsagePreference,
) -> bool {
    ranks_first(list, props, preference, props.memory_types@.len() as int)
}

/// As [`is_ranking`], for the first `n` memory types.
pub open spec fn ranks_first(
    list: Seq<MemoryTypeRank>,
    props: MemoryProperties,
    preference: MemoryUsagePreference,
    n: int,
) -> bool {
    &&& forall|k: int|
        0 <= k < list.len() ==> (#[trigger] list[k]).type_index < n && list[k].property_flags
            == props.memory_types@[list[k].type_index as int].property_flags && score(
            props,
            preference,
            list[k].type_index as int,
        ) is Some
    &&& forall|j: int, k: int|
        0 <= j < k < list.len() ==> preferred(
            props,
            preference,
            (#[trigger] list[j]).type_index as int,
            (#[trigger] list[k]).type_index as int,
        )
    &&& forall|i: int|
        0 <= i < n && #[trigger] score(props, preference, i) is Some ==> listed(list, i)
}

pub open spec fn listed(list: Seq<MemoryTypeRank>, i: int) -> bool {
    exists|k: int| 0 <= k < list.len() && (#[trigger] list[k]).type_index == i
}

/// Score as a number.
fn score_of(props: &MemoryProperties, preference: MemoryUsagePreference, i: usize) -> (r: Option<u32>)
    requires
        i < props.memory_types@.len(),
    ensures
        r is Some <==> score(*props, preference, i as int) is Some,
        r matches Some(s) ==> s == score(*props, preference, i as int)->0,
{
    let flags: u32 = props.memory_types[i].property_flags;
    let small_bar: bool = props.is_small_bar(i);
    match preference {
        MemoryUsagePreference::DeviceLocal => {
            if contains_bits(flags, DEVICE_LOCAL) && !contains_bits(flags, HOST_VISIBLE) {
                Some(1000)
            } else if contains_bits(flags, DEVICE_LOCAL) {
                Some(800)
            } else {
                Some(400)
            }
        },
        MemoryUsagePreference::HostTransfer => {
            if contains_bits(flags, HOST_VISIBLE_COHERENT) && !contains_bits(flags, DEVICE_LOCAL) {
                Some(1000)
            } else if contains_bits(flags, HOST_VISIBLE_LOCAL) {
                if !small_bar {
                    Some(900)
                } else {
                    Some(700)
                }
            } else if contains_bits(flags, DEVICE_LOCAL) {
                Some(850)
            } else if contains_bits(flags, HOST_VISIBLE) {
                Some(800)
            } else {
                Some(400)
            }
        },
        MemoryUsagePreference::HostVisible => {
            if !contains_bits(flags, HOST_VISIBLE) {
                None
            } else if contains_bits(flags, HOST_COHERENT) && !contains_bits(flags, DEVICE_LOCAL) {
                Some(1000)
            } else if contains_bits(flags, HOST_COHERENT_LOCAL) {
                if !small_bar {
                    Some(900)
                } else {
                    Some(700)
                }
            } else if contains_bits(flags, HOST_COHERENT) {
                Some(850)
            } else if contains_bits(flags, DEVICE_LOCAL) {
                if !small_bar {
                    Some(800)
                } else {
                    Some(600)
                }
            } else {
                Some(500)
            }
        },
    }
}

/// All memory types that can serve the intent, best first.
fn rank(props: &MemoryProperties, preference: MemoryUsagePreference) -> (list: Vec<MemoryTypeRank>)
    requires
        props.wf(),
    ensures
        is_ranking(list@, *props, preference),
{
    let mut list: Vec<MemoryTypeRank> = Vec::new();
    let mut i: usize = 0;
    while i < props.memory_types.len()
        invariant
            props.wf(),
            i <= props.memory_types@.len(),
            ranks_first(list@, *props, preference, i as int),
        decreases props.memory_types@.len() - i,
    {
        let ghost before = list@;
        if let Some(own) = score_of(props, preference, i) {
            let mut at: usize = 0;
            let mut searching: bool = true;
            while searching && at < list.len()
                invariant
                    props.wf(),
                    i < props.memory_types@.len(),
                    list@ == before,
                    ranks_first(list@, *props, preference, i as int),
                    at <= list@.len(),
                    score(*props, preference, i as int) == Some(own as int),
                    forall|k: int|
                        0 <= k < at ==> score(
                            *props,
                            preference,
                            (#[trigger] list@[k]).type_index as int,
                        )->0 >= own,
                    !searching ==> at < list@.len() && score(
                        *props,
                        preference,
                        list@[at as int].type_index as int,
                    )->0 < own,
                decreases list@.len() - at, (if searching { 1int } else { 0int }),
            {
                assert(list@[at as int].type_index < i);
                match score_of(props, preference, list[at].type_index as usize) {
                    Some(other) => {
                        if other < own {
                            searching = false;
                        } else {
                            at = at + 1;
                        }
                    },
                    None => {
                        assert(false);
                        at = at + 1;
                    },
                }
            }
            let entry = MemoryTypeRank {
                type_index: i as u32,
                property_flags: props.memory_types[i].property_flags,
            };
            list.insert(at, entry);
            proof {
                let after = list@;
                assert(after =~= before.insert(at as int, entry));
                assert forall|k: int| 0 <= k < after.len() implies (#[trigger] after[k]).type_index
                    < i + 1 && after[k].property_flags
                    == props.memory_types@[after[k].type_index as int].property_flags && score(
                    *props,
                    preference,
                    after[k].type_index as int,
                ) is Some by {
                    if k < at {
                        assert(after[k] == before[k]);
                    } else if k > at {
                        assert(after[k] == before[k - 1]);
                    }
                }
                assert forall|j: int, k: int| 0 <= j < k < after.len() implies preferred(
                    *props,
                    preference,
                    (#[trigger] after[j]).type_index as int,
                    (#[trigger] after[k]).type_index as int,
                ) by {
                    if j < at {
                        assert(after[j] == before[j]);
                        if k > at {
                            assert(after[k] == before[k - 1]);
                        } else if k < at {
                            assert(after[k] == before[k]);
                        }
                    } else if j == at {
                        assert(after[k] == before[k - 1]);
                        if k - 1 > at {
                            assert(preferred(
                                *props,
                                preference,
                                before[at as int].type_index as int,
                                before[k - 1].type_index as int,
                            ));
                        }
                    } else {
                        assert(after[j] == before[j - 1]);
                        assert(after[k] == before[k - 1]);
                    }
                }
                assert forall|m: int|
                    0 <= m < i + 1 && #[trigger] score(*props, preference, m) is Some implies listed(
                    after,
                    m,
                ) by {
                    if m == i {
                        assert(after[at as int].type_index == m);
                    } else {
                        assert(listed(before, m));
                        let k = choose|k: int|
                            0 <= k < before.len() && (#[trigger] before[k]).type_index == m;
                        if k < at {
                            assert(after[k] == before[k]);
                        } else {
                            assert(after[k + 1] == before[k]);
                        }
                    }
                }
            }
        }
        i = i + 1;
    }
    list
}

/// Memory type rankings for each usage intent.
#[derive(Debug, Clone)]
pub struct MemoryPreferences {
    pub device_local: Vec<MemoryTypeRank>,
    pub host_transfer: Vec<MemoryTypeRank>,
    pub host_visible: Vec<MemoryTypeRank>,
}

/// First entry of the list that the mask allows.
pub open spec fn is_best(list: Seq<MemoryTypeRank>, type_bits: u32, k: int) -> bool {
    &&& 0 <= k < list.len()
    &&& allows(type_bits, list[k].type_index)
    &&& forall|j: int| 0 <= j < k ==> !allows(type_bits, (#[trigger] list[j]).type_index)
}

impl MemoryPreferences {
    pub open spec fn list(self, preference: MemoryUsagePreference) -> Seq<MemoryTypeRank> {
        match preference {
            MemoryUsagePreference::DeviceLocal => self.device_local@,
            MemoryUsagePreference::HostTransfer => self.host_transfer@,
            MemoryUsagePreference::HostVisible => self.host_visible@,
        }
    }

    /// All indices are below the number of memory types.
    pub open spec fn wf(self) -> bool {
        forall|p: MemoryUsagePreference, k: int|
            0 <= k < self.list(p).len() ==> (#[trigger] self.list(p)[k]).type_index
                < MAX_MEMORY_TYPES
    }

    /// Computes the rankings from the memory properties of a device.
    pub fn new(mem_props: &MemoryProperties) -> (r: Self)
        requires
            mem_props.wf(),
        ensures
            r.wf(),
            forall|p: MemoryUsagePreference| #[trigger] is_ranking(r.list(p), *mem_props, p),
    {
        let device_local = rank(mem_props, MemoryUsagePreference::DeviceLocal);
        let host_transfer = rank(mem_props, MemoryUsagePreference::HostTransfer);
        let host_visible = rank(mem_props, MemoryUsagePreference::HostVisible);
        let r = MemoryPreferences { device_local, host_transfer, host_visible };
        proof {
            assert forall|p: MemoryUsagePreference| #[trigger]
                is_ranking(r.list(p), *mem_props, p) by {
                match p {
                    MemoryUsagePreference::DeviceLocal => {},
                    MemoryUsagePreference::HostTransfer => {},
                    MemoryUsagePreference::HostVisible => {},
                }
            }
            assert forall|p: MemoryUsagePreference, k: int| 0 <= k < r.list(p).len() implies (
            #[trigger] r.list(p)[k]).type_index < MAX_MEMORY_TYPES by {
                assert(is_ranking(r.list(p), *mem_props, p));
            }
        }
        r
    }

    /// The ranked candidates for the intent.
    pub fn ranked_slice(&self, preference: MemoryUsagePreference) -> (r: &[MemoryTypeRank])
        ensures
            r@ == self.list(preference),
    {
        match preference {
            MemoryUsagePreference::DeviceLocal => self.device_local.as_slice(),
            MemoryUsagePreference::HostTransfer => self.host_transfer.as_slice(),
            MemoryUsagePreference::HostVisible => self.host_visible.as_slice(),
        }
    }

    /// The candidates that `type_bits` allows, from most to least preferred.
    pub fn filter_candidates(&self, type_bits: u32, preference: MemoryUsagePreference) -> (r: Vec<
        MemoryTypeRank,
    >)
        requires
            self.wf(),
        ensures
            r@ == self.list(preference).filter(
                |c: MemoryTypeRank| allows(type_bits, c.type_index),
            ),
    {
        let list = self.ranked_slice(preference);
        let ghost keep = |c: MemoryTypeRank| allows(type_bits, c.type_index);
        let mut r: Vec<MemoryTypeRank> = Vec::new();
        let mut k: usize = 0;
        while k < list.len()
            invariant
                self.wf(),
                list@ == self.list(preference),
                keep == (|c: MemoryTypeRank| allows(type_bits, c.type_index)),
                k <= list@.len(),
                r@ == list@.take(k as int).filter(keep),
            decreases list@.len() - k,
        {
            proof {
                reveal(Seq::filter);
                assert(list@.take(k as int + 1).drop_last() =~= list@.take(k as int));
                assert(self.list(preference)[k as int].type_index < MAX_MEMORY_TYPES);
            }
            if (type_bits & (1u32 << list[k].type_index)) != 0 {
                r.push(list[k]);
            }
            k = k + 1;
        }
        assert(list@.take(k as int) =~= list@);
        r
    }

    /// The best memory type that `type_bits` allows.
    pub fn find_best(&self, type_bits: u32, preference: MemoryUsagePreference) -> (r: Option<
        MemoryTypeRank,
    >)
        requires
            self.wf(),
        ensures
            match r {
                Some(best) => exists|k: int|
                    #[trigger] is_best(self.list(preference), type_bits, k) && self.list(
                        preference,
                    )[k] == best,
                None => forall|k: int|
                    0 <= k < self.list(preference).len() ==> !allows(
                        type_bits,
                        (#[trigger] self.list(preference)[k]).type_index,
                    ),
            },
    {
        let list = self.ranked_slice(preference);
        let mut k: usize = 0;
        while k < list.len()
            invariant
                self.wf(),
                list@ == self.list(preference),
                k <= list@.len(),
                forall|j: int|
                    0 <= j < k ==> !allows(type_bits, (#[trigger] list@[j]).type_index),
            decreases list@.len() - k,
        {
            assert(self.list(preference)[k as int].type_index < MAX_MEMORY_TYPES);
            if (type_bits & (1u32 << list[k].type_index)) != 0 {
                assert(is_best(self.list(preference), type_bits, k as int));
                return Some(list[k]);
            }
            k = k + 1;
        }
        None
    }

    /// Index of the best memory type that `type_bits` allows.
    pub fn find_memory_type_index(&self, type_bits: u32, preference: MemoryUsagePreference) -> (r:
        Option<u32>)
        requires
            self.wf(),
        ensures
            match r {
                Some(index) => exists|k: int|
                    #[trigger] is_best(self.list(preference), type_bits, k) && self.list(
                        preference,
                    )[k].type_index == index,
                None => forall|k: int|
                    0 <= k < self.list(preference).len() ==> !allows(
                        type_bits,
                        (#[trigger] self.list(preference)[k]).type_index,
                    ),
            },
    {
        match self.find_best(type_bits, preference) {
            Some(best) => Some(best.type_index),
            None => None,
        }
    }
}

/// The best candidate of a ranking is preferred over every other memory type that the mask
/// allows and that can serve the intent.
pub proof fn law_best_is_preferred(
    list: Seq<MemoryTypeRank>,
    props: MemoryProperties,
    preference: MemoryUsagePreference,
    type_bits: u32,
    k: int,
    other: int,
)
    requires
        is_ranking(list, props, preference),
        props.wf(),
        is_best(list, type_bits, k),
        0 <= other < props.memory_types@.len(),
        other != list[k].type_index,
        allows(type_bits, other as u32),
        score(props, preference, other) is Some,
    ensures
        preferred(props, preference, list[k].type_index as int, other),
{
    assert(listed(list, other));
    let j = choose|j: int| 0 <= j < list.len() && (#[trigger] list[j]).type_index == other;
    if j < k {
        assert(!allows(type_bits, list[j].type_index));
    }
}

/// Only host visible memory serves the host visible intent.
pub proof fn law_host_visible_is_host_visible(
    list: Seq<MemoryTypeRank>,
    props: MemoryProperties,
    k: int,
)
    requires
        is_ranking(list, props, MemoryUsagePreference::HostVisible),
        0 <= k < list.len(),
    ensures
        has_bits(list[k].property_flags, HOST_VISIBLE),
{
}

/// For both host intents coherent system memory is preferred over every aperture into device
/// memory, and a large aperture over a small one with the same flags.
pub proof fn law_system_memory_before_aperture(
    props: MemoryProperties,
    preference: MemoryUsagePreference,
    system: int,
    aperture: int,
)
    requires
        preference is HostTransfer || preference is HostVisible,
        0 <= system < props.memory_types@.len(),
        0 <= aperture < props.memory_types@.len(),
        has_bits(props.memory_types@[system].property_flags, HOST_VISIBLE),
        has_bits(props.memory_types@[system].property_flags, HOST_COHERENT),
        !has_bits(props.memory_types@[system].property_flags, DEVICE_LOCAL),
        has_bits(props.memory_types@[aperture].property_flags, HOST_VISIBLE),
        has_bits(props.memory_types@[aperture].property_flags, DEVICE_LOCAL),
    ensures
        preferred(props, preference, system, aperture),
{
    let s = props.memory_types@[system].property_flags;
    let a = props.memory_types@[aperture].property_flags;
    assert(s & 2 == 2 && s & 4 == 4 ==> s & 6 == 6) by (bit_vector);
    assert(a & 1 != 1 ==> a & 5 != 5 && a & 3 != 3) by (bit_vector);
}

/// Device memory that the host cannot see is preferred for textures and render targets.
pub proof fn law_pure_device_memory_first(props: MemoryProperties, pure_local: int, other: int)
    requires
        0 <= pure_local < props.memory_types@.len(),
        0 <= other < props.memory_types@.len(),
        has_bits(props.memory_types@[pure_local].property_flags, DEVICE_LOCAL),
        !has_bits(props.memory_types@[pure_local].property_flags, HOST_VISIBLE),
        !has_bits(props.memory_types@[other].property_flags, DEVICE_LOCAL) || has_bits(
            props.memory_types@[other].property_flags,
            HOST_VISIBLE,
        ),
    ensures
        preferred(props, MemoryUsagePreference::DeviceLocal, pure_local, other),
{
}

/// Memory budget and usage per heap.
#[derive(Debug, Clone, Copy)]
pub struct MemoryBudgetInfo {
    /// How much this process may allocate from each heap.
    pub heap_budget: [u64; 16],
    /// How much of each heap is in use.
    pub heap_usage: [u64; 16],
}

/// Sum of the first `n` entries.
pub open spec fn sum_first(heaps: Seq<u64>, n: int) -> int
    decreases n,
{
    if n <= 0 {
        0
    } else {
        sum_first(heaps, n - 1) + heaps[n - 1]
    }
}

proof fn lemma_sum_grows(heaps: Seq<u64>, m: int, n: int)
    requires
        m <= n,
    ensures
        sum_first(heaps, m) <= sum_first(heaps, n),
    decreases n - m,
{
    if m < n {
        lemma_sum_grows(heaps, m, n - 1);
    }
}

fn sum_heaps(heaps: &[u64; 16]) -> (r: u64)
    requires
        sum_first(heaps@, 16) <= u64::MAX,
    ensures
        r == sum_first(heaps@, 16),
{
    let mut sum: u64 = 0;
    let mut i: usize = 0;
    while i < 16
        invariant
            i <= 16,
            sum == sum_first(heaps@, i as int),
            sum_first(heaps@, 16) <= u64::MAX,
        decreases 16 - i,
    {
        proof {
            lemma_sum_grows(heaps@, i as int + 1, 16);
        }
        sum = sum + heaps[i];
        i = i + 1;
    }
    sum
}

impl MemoryBudgetInfo {
    /// Budget over all heaps.
    pub fn total_budget(&self) -> (r: u64)
        requires
            sum_first(self.heap_budget@, 16) <= u64::MAX,
        ensures
            r == sum_first(self.heap_budget@, 16),
    {
        sum_heaps(&self.heap_budget)
    }

    /// Bits of the share of the budget that is in use, in single precision.
    pub fn usage_ratio(&self) -> (bits: u32)
        requires
            sum_first(self.heap_budget@, 16) <= u64::MAX,
            sum_first(self.heap_usage@, 16) <= u64::MAX,
        ensures
            bits == (if sum_first(self.heap_budget@, 16) == 0 {
                0
            } else {
                f32_quotient_of(
                    sum_first(self.heap_usage@, 16) as nat,
                    sum_first(self.heap_budget@, 16) as nat,
                )
            }),
    {
        let budget: u64 = self.total_budget();
        if budget == 0 {
            0
        } else {
            f32_quotient(self.total_usage(), budget)
        }
    }

    /// Usage over all heaps.
    pub fn total_usage(&self) -> (r: u64)
        requires
            sum_first(self.heap_usage@, 16) <= u64::MAX,
        ensures
            r == sum_first(self.heap_usage@, 16),
    {
        sum_heaps(&self.heap_usage)
    }
}

} // verus!
