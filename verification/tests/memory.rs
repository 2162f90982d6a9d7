//! Memory types, suballocation, devices and images.

use ash::vk;
use hdr_backend::device::{
    CreateStep, Device, DeviceError, DeviceSetup, QueueType, TimelineError, TimelineStep,
    ERROR_INITIALIZATION_FAILED,
};
use hdr_backend::image::{
    image_memory_type, AfterSuballocation, AllocFailure, Binding, Components, Dmabuf, DrmFormat, Error, FormatEntry,
    ImageBuild, MapStep, MemoryPlan, MemoryRequirements, Plane, Release, ViewInfo, VulkanImage, MODIFIER_INVALID,
    MODIFIER_LINEAR,
};
use hdr_backend::memory::{
    MemoryBudgetInfo, MemoryHeap, MemoryPreferences, MemoryProperties, MemoryType, MemoryTypeRank,
    MemoryUsagePreference,
};
use hdr_backend::suballoc::{
    select_tier_block_size, AllocStep, Suballocation, TilingClass, VulkanSuballocator,
};
use hdr_backend::transfer::{bind_dmabuf, import_dmabuf, DmabufBinding};

fn memory_type(flags: vk::MemoryPropertyFlags, heap_index: u32) -> MemoryType {
    MemoryType {
        property_flags: flags.as_raw(),
        heap_index,
    }
}

fn small_bar() -> MemoryProperties {
    // Heap 0: 8 GiB VRAM (DEVICE_LOCAL)
    // Heap 1: 16 GiB System RAM (non-DEVICE_LOCAL)
    // Heap 2: 256 MiB BAR1 aperture (DEVICE_LOCAL, small BAR)
    // Type 0: Pure VRAM (Heap 0)
    // Type 1: Small BAR1 window into VRAM (Heap 2) - HOST_VISIBLE | HOST_COHERENT | DEVICE_LOCAL
    // Type 2: System RAM (Heap 1) - HOST_VISIBLE | HOST_COHERENT
    MemoryProperties {
        memory_types: vec![
            memory_type(vk::MemoryPropertyFlags::DEVICE_LOCAL, 0),
            memory_type(
                vk::MemoryPropertyFlags::DEVICE_LOCAL
                    | vk::MemoryPropertyFlags::HOST_VISIBLE
                    | vk::MemoryPropertyFlags::HOST_COHERENT,
                2,
            ),
            memory_type(
                vk::MemoryPropertyFlags::HOST_VISIBLE | vk::MemoryPropertyFlags::HOST_COHERENT,
                1,
            ),
        ],
        memory_heaps: vec![
            MemoryHeap {
                size: 8 * 1024 * 1024 * 1024,
                flags: vk::MemoryHeapFlags::DEVICE_LOCAL.as_raw(),
            },
            MemoryHeap {
                size: 16 * 1024 * 1024 * 1024,
                flags: 0,
            },
            MemoryHeap {
                size: 256 * 1024 * 1024,
                flags: vk::MemoryHeapFlags::DEVICE_LOCAL.as_raw(),
            },
        ],
    }
}

#[test]
fn test_nvidia_small_bar_topology_ranking() {
    let prefs = MemoryPreferences::new(&small_bar());

    // 1. DeviceLocal (textures, render targets) must prefer pure VRAM (Type 0) over small BAR (Type 1)
    let dl_best = prefs.find_best(0b111, MemoryUsagePreference::DeviceLocal);
    assert_eq!(dl_best.map(|r| r.type_index), Some(0));

    // 2. HostVisible (staging buffers, linear) must prefer System RAM (Type 2) over small BAR (Type 1)
    // to prevent 256MB BAR1 exhaustion!
    let hv_best = prefs.find_best(0b111, MemoryUsagePreference::HostVisible);
    assert_eq!(hv_best.map(|r| r.type_index), Some(2));

    // 3. If System RAM (Type 2) is not compatible, it should fallback to Type 1
    let hv_fallback = prefs.find_best(0b011, MemoryUsagePreference::HostVisible);
    assert_eq!(hv_fallback.map(|r| r.type_index), Some(1));

    // 4. Type 0 has no HOST_VISIBLE, so for HostVisible it should return None
    let hv_none = prefs.find_best(0b001, MemoryUsagePreference::HostVisible);
    assert_eq!(hv_none, None);

    // 5. HostTransfer (VK_EXT_host_image_copy wl_shm) must prefer System RAM (Type 2) over small BAR
    let ht_best = prefs.find_best(0b111, MemoryUsagePreference::HostTransfer);
    assert_eq!(ht_best.map(|r| r.type_index), Some(2));
}

#[test]
fn candidates_are_ranked() {
    let prefs = MemoryPreferences::new(&small_bar());
    let ranked = prefs.ranked_slice(MemoryUsagePreference::DeviceLocal).to_vec();
    assert_eq!(ranked[0].type_index, 0);
    let allowed = prefs.filter_candidates(0b110, MemoryUsagePreference::HostVisible);
    assert_eq!(
        allowed.iter().map(|r| r.type_index).collect::<Vec<_>>(),
        vec![2, 1]
    );
    assert_eq!(
        prefs.find_memory_type_index(0b010, MemoryUsagePreference::HostVisible),
        Some(1)
    );
}

#[test]
fn budgets_are_summed() {
    let mut info = MemoryBudgetInfo {
        heap_budget: [0; 16],
        heap_usage: [0; 16],
    };
    assert_eq!(info.usage_ratio(), 0);
    info.heap_budget[0] = 3 << 30;
    info.heap_budget[15] = 7;
    info.heap_usage[1] = 1_234_567_890;
    assert_eq!(info.total_budget(), (3 << 30) + 7);
    assert_eq!(info.total_usage(), 1_234_567_890);
    let ratio = 1_234_567_890u64 as f32 / ((3u64 << 30) + 7) as f32;
    assert_eq!(info.usage_ratio(), ratio.to_bits());
}

const MIB: u64 = 1024 * 1024;

#[test]
fn blocks_come_in_tiers() {
    assert_eq!(select_tier_block_size(1), 8 * MIB);
    assert!(select_tier_block_size(MIB) >= MIB);
    assert!(select_tier_block_size(100 * MIB) >= 100 * MIB);
}

#[test]
fn freed_memory_is_used_again() {
    let mut alloc = VulkanSuballocator::new();
    let block_size = match alloc.allocate(1000, 256, 0, TilingClass::Optimal) {
        AllocStep::NewBlock {
            block_size,
            fallback_size,
        } => {
            assert_eq!(fallback_size, Some(1000));
            block_size
        }
        AllocStep::Ready(_) => panic!("there is no block yet"),
    };
    let first = alloc.add_block(70, block_size, Some(0x1000), 1000, 0, TilingClass::Optimal);
    assert_eq!(
        first,
        Suballocation {
            memory: 70,
            offset: 0,
            mapped: Some(0x1000)
        }
    );
    let second = match alloc.allocate(1000, 256, 0, TilingClass::Optimal) {
        AllocStep::Ready(part) => part,
        AllocStep::NewBlock { .. } => panic!("the block has room"),
    };
    assert_eq!(second.offset, 1024);
    assert_eq!(second.mapped, Some(0x1000 + 1024));
    // Another tiling or memory type does not share the block.
    assert!(matches!(
        alloc.allocate(1000, 256, 0, TilingClass::Linear),
        AllocStep::NewBlock { .. }
    ));
    assert!(matches!(
        alloc.allocate(1000, 256, 1, TilingClass::Optimal),
        AllocStep::NewBlock { .. }
    ));
    assert!(alloc.free(70, 0, 1000).is_none());
    match alloc.allocate(900, 1, 0, TilingClass::Optimal) {
        AllocStep::Ready(part) => assert_eq!(part.offset, 0),
        AllocStep::NewBlock { .. } => panic!("the range was freed"),
    }
    assert!(alloc.free(70, 0, 900).is_none());
    assert!(alloc.free(70, 1024, 1000).is_none());
    // An empty block is kept until it is trimmed.
    assert!(alloc.blocks[0].is_empty());
    assert_eq!(alloc.trim().len(), 1);
    assert!(alloc.blocks.is_empty());
}

fn names(list: &[&str]) -> Vec<String> {
    list.iter().map(|n| n.to_string()).collect()
}

#[test]
fn queues_are_chosen() {
    let families = vec![
        vk::QueueFlags::TRANSFER.as_raw(),
        (vk::QueueFlags::GRAPHICS | vk::QueueFlags::COMPUTE).as_raw(),
        vk::QueueFlags::COMPUTE.as_raw(),
    ];
    let setup = |queue, fallback| DeviceSetup::new(&families, &Vec::new(), queue, fallback);
    assert_eq!(setup(QueueType::Graphics, false).unwrap().queue_index, 1);
    assert_eq!(setup(QueueType::Compute, false).unwrap().queue_index, 1);
    assert_eq!(setup(QueueType::Transfer, true).unwrap().queue_index, 0);
    assert_eq!(QueueType::Transfer.vk_flags(), vk::QueueFlags::TRANSFER.as_raw());
    let graphics_only = vec![vk::QueueFlags::GRAPHICS.as_raw()];
    assert_eq!(
        DeviceSetup::new(&graphics_only, &Vec::new(), QueueType::Compute, true)
            .unwrap()
            .queue_index,
        0
    );
    assert_eq!(
        DeviceSetup::new(&graphics_only, &Vec::new(), QueueType::Compute, false),
        Err(DeviceError::NoUsableQueue)
    );
}

fn device(props: MemoryProperties, extensions: &[&str], atom: u64) -> Device {
    let families = vec![vk::QueueFlags::GRAPHICS.as_raw()];
    let setup = DeviceSetup::new(&families, &names(extensions), QueueType::Graphics, false).unwrap();
    Device::new(&setup, props, [7; 16], 1024, atom)
}

#[test]
fn extensions_are_recognized() {
    let all = [
        ash::khr::external_semaphore_fd::NAME.to_str().unwrap(),
        ash::khr::external_memory_fd::NAME.to_str().unwrap(),
        ash::ext::image_drm_format_modifier::NAME.to_str().unwrap(),
        ash::ext::host_image_copy::NAME.to_str().unwrap(),
        ash::khr::push_descriptor::NAME.to_str().unwrap(),
        ash::ext::memory_priority::NAME.to_str().unwrap(),
        ash::ext::memory_budget::NAME.to_str().unwrap(),
        ash::ext::global_priority::NAME.to_str().unwrap(),
    ];
    let full = device(small_bar(), &all, 64).extensions;
    assert!(full.external_semaphore_fd);
    assert!(full.external_memory_fd);
    assert!(full.image_drm_format_modifier);
    assert!(full.host_image_copy);
    assert!(full.push_descriptor);
    assert!(full.memory_priority);
    assert!(full.memory_budget);
    assert!(full.global_priority);
    let khr = device(small_bar(), &[ash::khr::global_priority::NAME.to_str().unwrap()], 64).extensions;
    assert!(khr.global_priority);
    assert!(!khr.memory_budget);
}

#[test]
fn high_priority_is_tried_once() {
    let families = vec![vk::QueueFlags::GRAPHICS.as_raw()];
    let high = DeviceSetup::new(
        &families,
        &names(&["VK_KHR_global_priority"]),
        QueueType::Graphics,
        false,
    )
    .unwrap();
    assert_eq!(high.after_create(Ok(()), false), CreateStep::Created);
    assert_eq!(high.after_create(Err(-1), false), CreateStep::Retry);
    assert_eq!(
        high.after_create(Err(-1), true),
        CreateStep::Fail(DeviceError::Vk(-1))
    );
    let plain = DeviceSetup::new(&families, &Vec::new(), QueueType::Graphics, false).unwrap();
    assert_eq!(
        plain.after_create(Err(-1), false),
        CreateStep::Fail(DeviceError::Vk(-1))
    );
}

#[test]
fn memory_that_is_flushed_comes_in_atoms() {
    let props = MemoryProperties {
        memory_types: vec![memory_type(vk::MemoryPropertyFlags::HOST_VISIBLE, 0)],
        memory_heaps: vec![MemoryHeap {
            size: 1 << 30,
            flags: 0,
        }],
    };
    let mut device = device(props, &["VK_EXT_memory_budget"], 256);
    assert!(device.is_host_visible(0));
    let block_size = match device.suballocate_memory(100, 4, 0, 0) {
        AllocStep::NewBlock { block_size, .. } => block_size,
        AllocStep::Ready(_) => panic!("there is no block yet"),
    };
    device.add_memory(5, block_size, None, 100, 4, 0, 0);
    match device.suballocate_memory(300, 4, 0, 0) {
        AllocStep::Ready(part) => assert_eq!(part.offset, 256),
        AllocStep::NewBlock { .. } => panic!("the block has room"),
    }
    match device.suballocate_memory(1, 4, 0, 0) {
        AllocStep::Ready(part) => assert_eq!(part.offset, 768),
        AllocStep::NewBlock { .. } => panic!("the block has room"),
    }
    assert!(device.free_suballocation(5, 0, 256).is_none());
    assert!(device.reclaim(vk::Result::ERROR_DEVICE_LOST.as_raw(), false).is_none());
    let oom = vk::Result::ERROR_OUT_OF_DEVICE_MEMORY.as_raw();
    assert_eq!(device.reclaim(oom, false).unwrap().len(), 0);
    assert!(device.reclaim(oom, true).is_none());
    assert!(device.trim_memory().is_empty());
    assert!(device.supports_memory_budget());
    assert_eq!(device.pipeline_cache_uuid(), [7; 16]);
    let info = MemoryBudgetInfo {
        heap_budget: [1; 16],
        heap_usage: [0; 16],
    };
    assert!(device.memory_budget(info).is_some());
}

#[test]
fn timelines_need_an_extension() {
    let plain = device(small_bar(), &[], 1);
    assert_eq!(plain.create_timeline_semaphore(Ok(3), false), TimelineStep::Ready(3));
    assert_eq!(
        plain.create_timeline_semaphore(Ok(3), true),
        TimelineStep::Fail(TimelineError::MissingExternalSemaphoreFd)
    );
    assert_eq!(
        plain.can_import_timeline(),
        Err(TimelineError::MissingExternalSemaphoreFd)
    );
    let capable = device(small_bar(), &["VK_KHR_external_semaphore_fd"], 1);
    assert_eq!(capable.create_timeline_semaphore(Ok(3), true), TimelineStep::Export(3));
    assert_eq!(
        capable.create_timeline_semaphore(Err(-4), true),
        TimelineStep::Fail(TimelineError::SemaphoreError(-4))
    );
    assert_eq!(capable.can_import_timeline(), Ok(()));
    assert_eq!(Device::import_timeline_semaphore(Ok(3), Some(Ok(()))), Ok(3));
    assert_eq!(
        Device::import_timeline_semaphore(Ok(3), None),
        Err((
            TimelineError::SemaphoreImportError(ERROR_INITIALIZATION_FAILED),
            Some(3)
        ))
    );
    assert_eq!(
        Device::import_timeline_semaphore(Ok(3), Some(Err(-9))),
        Err((TimelineError::SemaphoreImportError(-9), Some(3)))
    );
    assert_eq!(
        ERROR_INITIALIZATION_FAILED,
        vk::Result::ERROR_INITIALIZATION_FAILED.as_raw()
    );
}

#[test]
fn images_pick_their_memory() {
    let props = small_bar();
    assert_eq!(image_memory_type(&props, 0b111, false), Some(0));
    assert_eq!(image_memory_type(&props, 0b111, true), Some(1));
    assert_eq!(image_memory_type(&props, 0b101, true), Some(2));
    assert_eq!(image_memory_type(&props, 0b001, true), Some(0));
    assert_eq!(image_memory_type(&props, 0b100, false), Some(2));
    assert_eq!(image_memory_type(&props, 0, true), None);
}

fn reqs(type_bits: u32) -> MemoryRequirements {
    MemoryRequirements {
        size: 4096,
        alignment: 256,
        type_bits,
        requires_dedicated: false,
        prefers_dedicated: false,
    }
}

#[test]
fn plain_images_are_suballocated() {
    let sampled = vk::ImageUsageFlags::SAMPLED.as_raw();
    let request = VulkanImage::new(16, 8, 37, sampled, true);
    assert_eq!(request.tiling(), vk::ImageTiling::LINEAR.as_raw());
    let info = request.create_info();
    assert!(!info.external && !info.modifier_list && info.explicit.is_none());
    let mut build = ImageBuild::created(request, false, Ok(9)).unwrap();
    assert!(!build.needs_modifier());
    assert_eq!(build.set_format(Ok(0), &Vec::new()), Ok(()));
    assert_eq!(
        build.plan_memory(&small_bar(), reqs(0b101)),
        Ok(MemoryPlan::Suballocate {
            size: 4096,
            alignment: 256,
            type_index: 2,
            tiling: 1
        })
    );
    let part = Suballocation {
        memory: 70,
        offset: 512,
        mapped: Some(1000),
    };
    assert_eq!(
        build.suballocated(Ok(part)),
        AfterSuballocation::Bind(Binding {
            memory: 70,
            offset: 512
        })
    );
    assert_eq!(
        build.bound(Ok(())),
        Ok(Some(ViewInfo {
            depth: false,
            components: Components::ForFormat { has_alpha: true }
        }))
    );
    assert_eq!(build.viewed(Ok(11)), Ok(()));
    let image = build.finish(Some(0x3432_4241));
    assert!(image.is_linear());
    assert!(image.is_suballocated());
    assert_eq!(image.memory_offset(), 512);
    assert_eq!(
        image.drm,
        Some(DrmFormat {
            code: 0x3432_4241,
            modifier: MODIFIER_INVALID
        })
    );
    assert_eq!(image.inner.map(false), MapStep::Mapped(1000));
    assert_eq!(
        image.inner.release(),
        vec![
            Release::View(11),
            Release::Image(9),
            Release::Suballocation {
                memory: 70,
                offset: 512,
                size: 4096
            }
        ]
    );
}

#[test]
fn suballocation_falls_back() {
    let request = VulkanImage::new_with_fourcc(16, 8, 0x3432_5258, Some(44), 0, false).unwrap();
    let mut build = ImageBuild::created(request, false, Ok(9)).unwrap();
    build.set_format(Ok(0), &Vec::new()).unwrap();
    assert_eq!(
        build.drm,
        Some(DrmFormat {
            code: 0x3432_5258,
            modifier: MODIFIER_INVALID
        })
    );
    build.plan_memory(&small_bar(), reqs(0b111)).unwrap();
    assert_eq!(
        build.suballocated(Err(-2)),
        AfterSuballocation::Allocate {
            size: 4096,
            type_index: 0
        }
    );
    assert_eq!(
        build.allocated(Ok(80)),
        Ok(Binding {
            memory: 80,
            offset: 0
        })
    );
    assert_eq!(build.bound(Ok(())), Ok(None));
    assert_eq!(build.bound(Err(-3)), Err(Error::VulkanBind(-3)));
    let mut image = build.finish(None);
    assert!(!image.has_alpha());
    assert_eq!(image.inner.map(false), MapStep::Fail(vk::Result::ERROR_DEVICE_LOST.as_raw()));
    assert_eq!(
        image.inner.map(true),
        MapStep::Obtain {
            memory: 80,
            size: 4096
        }
    );
    assert_eq!(image.inner.keep_mapping(5000), 5000);
    assert_eq!(
        image.inner.release(),
        vec![Release::Image(9), Release::Unmap(80), Release::Memory(80)]
    );
}

fn dmabuf(modifier: u64) -> Dmabuf {
    Dmabuf {
        width: 16,
        height: 8,
        format: DrmFormat {
            code: 0x3432_5241,
            modifier,
        },
        planes: vec![
            Plane {
                offset: 0,
                stride: 64,
            },
            Plane {
                offset: 512,
                stride: 32,
            },
        ],
    }
}

#[test]
fn shared_images_are_dedicated() {
    let color = vk::ImageUsageFlags::COLOR_ATTACHMENT.as_raw();
    let exported = VulkanImage::new_exportable(16, 8, 0x3432_5241, Some(44), vec![0, 5], color).unwrap();
    let info = exported.create_info();
    assert!(info.external && info.modifier_list);
    assert_eq!(info.tiling, vk::ImageTiling::DRM_FORMAT_MODIFIER_EXT.as_raw());
    let mut build = ImageBuild::created(exported, true, Ok(9)).unwrap();
    assert!(build.needs_modifier());
    assert_eq!(
        build.set_format(Err(-7), &Vec::new()),
        Err(Error::VulkanModifierQuery(-7))
    );
    let format = DrmFormat {
        code: 0x3432_5241,
        modifier: 5,
    };
    let formats = vec![
        FormatEntry {
            format: DrmFormat { modifier: 0, ..format },
            plane_count: 1,
        },
        FormatEntry {
            format,
            plane_count: 2,
        },
    ];
    build.set_format(Ok(5), &formats).unwrap();
    assert_eq!(build.drm, Some(format));
    assert_eq!(build.inner.dmabuf_plane_count, 2);
    assert_eq!(
        build.plan_memory(&small_bar(), reqs(0b111)),
        Ok(MemoryPlan::Dedicated {
            size: 4096,
            type_index: 0,
            export: true,
            import: false
        })
    );
    assert_eq!(
        build.allocated(Err(AllocFailure::Device(-2))),
        Err(Error::VulkanAllocate(-2))
    );
    assert_eq!(build.inner.release(), vec![Release::Image(9)]);
    build.allocated(Ok(80)).unwrap();
    assert_eq!(
        build.bound(Ok(())),
        Ok(Some(ViewInfo {
            depth: false,
            components: Components::Identity
        }))
    );
    assert_eq!(build.viewed(Err(-1)), Err(Error::VulkanImageView(-1)));
    assert_eq!(
        build.plan_memory(&small_bar(), reqs(0)),
        Err(Error::NoMemoryAvailable)
    );
}

#[test]
fn trimming_keeps_an_order() {
    let mut alloc = VulkanSuballocator::new();
    let total = select_tier_block_size(1000);
    for memory in 1..=4 {
        alloc.add_block(memory, total, None, 1000, 0, TilingClass::Optimal);
    }
    assert!(alloc.free(1, 0, 1000).is_none());
    assert!(alloc.free(3, 0, 1000).is_none());
    let released: Vec<u64> = alloc.trim().iter().map(|block| block.memory).collect();
    let kept: Vec<u64> = alloc.blocks.iter().map(|block| block.memory).collect();
    assert_eq!(released, vec![1, 3]);
    assert_eq!(kept, vec![4, 2]);
}

#[test]
fn bound_buffers_are_reused() {
    let inodes = vec![Some(1), Some(1)];
    let texture = import_dmabuf(dmabuf(5), Some(44), &inodes).unwrap();
    assert_eq!(
        texture.usage,
        (vk::ImageUsageFlags::SAMPLED | vk::ImageUsageFlags::TRANSFER_SRC).as_raw()
    );
    let bound = |cached| bind_dmabuf(cached, dmabuf(5), Some(44), &inodes);
    let usage = match bound(None) {
        Ok(DmabufBinding::Import(request)) => request.usage,
        other => panic!("{:?}", other),
    };
    assert_eq!(
        usage,
        (vk::ImageUsageFlags::COLOR_ATTACHMENT
            | vk::ImageUsageFlags::TRANSFER_SRC
            | vk::ImageUsageFlags::TRANSFER_DST
            | vk::ImageUsageFlags::SAMPLED)
            .as_raw()
    );
    assert!(matches!(bound(Some(usage)), Ok(DmabufBinding::Reuse)));
    assert!(matches!(bound(Some(texture.usage)), Ok(DmabufBinding::Import(_))));
    assert_eq!(
        bind_dmabuf(None, dmabuf(5), None, &inodes).err(),
        Some(Error::UnsupportedFormat)
    );
    assert_eq!(
        bind_dmabuf(None, dmabuf(5), Some(44), &vec![None]).err(),
        Some(Error::UnsupportedDmabuf)
    );
    assert_eq!(
        import_dmabuf(dmabuf(5), Some(44), &vec![Some(1), Some(2)]).err(),
        Some(Error::UnsupportedFormat)
    );
}

#[test]
fn dmabufs_are_imported() {
    let sampled = vk::ImageUsageFlags::SAMPLED.as_raw();
    let import = |modifier, inodes: Vec<Option<u64>>| {
        VulkanImage::new_from_dmabuf(dmabuf(modifier), Some(44), &inodes, sampled)
    };
    let request = import(5, vec![Some(1), Some(1)]).unwrap();
    let info = request.create_info();
    let layout = info.explicit.unwrap();
    assert_eq!(layout.modifier, 5);
    assert_eq!(layout.planes, vec![(0, 64), (512, 32)]);
    let mut build = ImageBuild::created(request, true, Ok(9)).unwrap();
    assert_eq!(build.inner.dmabuf_plane_count, 2);
    build.set_format(Ok(5), &Vec::new()).unwrap();
    assert_eq!(build.inner.dmabuf_plane_count, 1);
    assert_eq!(
        build.plan_memory(&small_bar(), reqs(0b111)),
        Ok(MemoryPlan::Dedicated {
            size: 4096,
            type_index: 0,
            export: false,
            import: true
        })
    );
    assert_eq!(
        build.allocated(Err(AllocFailure::Fd(24))),
        Err(Error::DmabufFdError(24))
    );
    let implicit = import(MODIFIER_INVALID, vec![Some(1)]).unwrap();
    assert!(implicit.create_info().explicit.is_none());
    assert_eq!(implicit.tiling(), vk::ImageTiling::OPTIMAL.as_raw());
    assert!(import(MODIFIER_LINEAR, vec![Some(1), None]).is_ok());
    assert_eq!(
        import(5, vec![Some(1), Some(2)]).err(),
        Some(Error::UnsupportedFormat)
    );
    assert_eq!(import(5, vec![None]).err(), Some(Error::UnsupportedDmabuf));
    assert_eq!(
        VulkanImage::new_from_dmabuf(dmabuf(5), None, &vec![Some(1)], sampled).err(),
        Some(Error::UnsupportedFormat)
    );
    assert_eq!(
        VulkanImage::new_exportable(1, 1, 1, None, Vec::new(), sampled).err(),
        Some(Error::UnsupportedFormat)
    );
    assert_eq!(
        VulkanImage::new_with_fourcc(1, 1, 1, None, sampled, false).err(),
        Some(Error::UnsupportedFormat)
    );
    assert_eq!(
        ImageBuild::created(VulkanImage::new(1, 1, 37, sampled, false), false, Err(-1)).err(),
        Some(Error::VulkanImage(-1))
    );
}

#[test]
fn depth_images_show_depth() {
    let request = VulkanImage::new(16, 8, vk::Format::D16_UNORM.as_raw(), 0, false);
    let build = ImageBuild::created(request, false, Ok(9)).unwrap();
    assert_eq!(
        build.bound(Ok(())),
        Ok(Some(ViewInfo {
            depth: true,
            components: Components::Identity
        }))
    );
    let mut image = build.finish(None);
    image.set_current_layout(5);
    image.set_needs_acquire(false);
    assert_eq!(image.current_layout(), 5);
    assert!(!image.needs_acquire());
    assert_eq!(
        image.inner.map(true),
        MapStep::Fail(vk::Result::ERROR_MEMORY_MAP_FAILED.as_raw())
    );
}

/// Parts that are in use: memory, start, end, tiling class.
type Live = Vec<(u64, u64, u64, TilingClass)>;

fn assert_apart(live: &Live) {
    for (i, a) in live.iter().enumerate() {
        for b in &live[i + 1..] {
            if a.0 == b.0 {
                assert!(a.2 <= b.1 || b.2 <= a.1, "{a:?} and {b:?} overlap");
                assert_eq!(a.3, b.3, "{a:?} and {b:?} share memory");
            }
        }
    }
}

#[test]
fn parts_in_use_stay_apart() {
    let mut alloc = VulkanSuballocator::new();
    let mut live: Live = Vec::new();
    let mut next_memory = 1;
    let mut seed = 12345u64;
    let mut random = |n: u64| {
        seed = seed.wrapping_mul(6364136223846793005).wrapping_add(1442695040888963407);
        (seed >> 33) % n
    };
    for _ in 0..600 {
        if live.is_empty() || random(5) < 3 {
            let size = 1 + random(3 << 20);
            let alignment = 1 << random(13);
            let class = if random(2) == 0 {
                TilingClass::Linear
            } else {
                TilingClass::Optimal
            };
            let part = match alloc.allocate(size, alignment, 0, class) {
                AllocStep::Ready(part) => part,
                AllocStep::NewBlock { block_size, .. } => {
                    let memory = next_memory;
                    next_memory += 1;
                    alloc.add_block(memory, block_size, None, size, 0, class)
                }
            };
            assert_eq!(part.offset % alignment, 0);
            live.push((part.memory, part.offset, part.offset + size, class));
        } else {
            let at = random(live.len() as u64) as usize;
            let (memory, start, end, _) = live.swap_remove(at);
            let released = alloc.free(memory, start, end - start);
            if let Some(block) = released {
                assert!(live.iter().all(|part| part.0 != block.memory));
            }
            if random(20) == 0 {
                for block in alloc.trim() {
                    assert!(live.iter().all(|part| part.0 != block.memory));
                }
            }
        }
        assert_apart(&live);
    }
    for (memory, start, end, _) in std::mem::take(&mut live) {
        alloc.free(memory, start, end - start);
    }
    alloc.trim();
    assert!(alloc.blocks.is_empty());
}

#[test]
fn defaults_are_empty() {
    let rank = MemoryTypeRank::default();
    assert_eq!((rank.type_index, rank.property_flags), (0, 0));
    assert!(VulkanSuballocator::default().blocks.is_empty());
}

#[test]
fn places_beyond_64_bits_are_passed_over() {
    let mut allocator = VulkanSuballocator::new();
    let half = 1u64 << 63;
    allocator.add_block(7, u64::MAX, None, half + 5, 0, TilingClass::Linear);
    assert_eq!(
        allocator.allocate(16, half, 0, TilingClass::Linear),
        AllocStep::NewBlock {
            block_size: 0x80_0000,
            fallback_size: Some(16)
        }
    );
    match allocator.allocate(16, 16, 0, TilingClass::Linear) {
        AllocStep::Ready(part) => assert_eq!((part.memory, part.offset), (7, half + 16)),
        step => panic!("there is room: {:?}", step),
    }
}
