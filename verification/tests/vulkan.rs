//! Drawing, barriers and transfers of the Vulkan renderer.

use ash::vk;
use hdr_backend::barrier::{
    prepare_copy, prepare_depth, prepare_sampling, prepare_target, release_target, ImageState, Queues,
};
use hdr_backend::blit::{blit_fits, BlitWork};
use hdr_backend::color32::Color32F;
use hdr_backend::descriptor::{
    AllocStep, DescriptorAllocator, DescriptorError, ERROR_FRAGMENTED_POOL, ERROR_OUT_OF_POOL_MEMORY,
    START_DESCRIPTOR_COUNT,
};
use hdr_backend::formats::{supported_formats, FormatProps, ModifierProps};
use hdr_backend::frame::{ClearPlan, FinishPlan, LoadOp, VulkanFrame};
use hdr_backend::geometry::{Point, Rectangle, Size, Transform};
use hdr_backend::hdr::HdrOutputConfig;
use hdr_backend::imports::ImportTable;
use hdr_backend::indirect::{
    draw_quads, draw_quads_directly, BindlessDescriptorPool, DrawIndirectBuffer, DrawIndirectCommand,
};
use hdr_backend::memory::{MemoryHeap, MemoryProperties, MemoryType};
use hdr_backend::pipelines::{
    cache_file_name, cache_location, pipeline_infos, push_constant_range, uses_hdr_pool, BuiltinShader,
    CacheLocation, PipelineKind, PipelineLookup, Pipelines,
};
use hdr_backend::readback::{
    copy_image_via_staging_buffer, CopyWait, PendingVulkanShmCopy, ReadbackError, StagingRelease, RESULT_TIMEOUT,
};
use hdr_backend::renderer::{
    max_points, optimal_host_copy, set_up, Capability, DeviceFacts, DeviceRefusal, DrmNodes, Support, SyncKind,
    TextureFilter, TimelinePoint, VulkanRenderer, WaitPlan, MAX_INSTANCE_VERSION, MIN_DEVICE_VERSION,
};
use hdr_backend::request::SourceRect;
use hdr_backend::scissors::{calculate_damage_scissors, can_draw, Rect2D};
use hdr_backend::sync::{
    client_wait_deadline, drm_wait_result, is_signaled, wait_deadline, waits_on_cpu, Interrupted, VulkanSyncPoint,
    VulkanWait, WaitEnd,
};
use hdr_backend::transfer::{
    bind, can_read_texture, check_import_memory, check_shm_buffer, check_update_memory,
    create_buffer, import_tilings, maps_directly, mem_formats, reuses_framebuffer,
    reuses_texture, staging_memory_type, upload_host_memory_to_image, upload_regions, upload_rows,
    RowCopy, TransferError, Upload, UploadTarget,
};
use hdr_backend::vk as constants;
use hdr_backend::words::{push_bytes, spirv_u32};

fn rect(x: i32, y: i32, w: i32, h: i32) -> Rectangle {
    Rectangle::new(Point { x, y }, Size { w, h })
}

fn image(id: u64, format: ash::vk::Format, usage: u32) -> ImageState {
    ImageState {
        id,
        width: 64,
        height: 64,
        format: format.as_raw(),
        has_alpha: false,
        usage,
        layout: constants::LAYOUT_UNDEFINED,
        needs_acquire: true,
        exportable: true,
        has_view: true,
    }
}

const QUEUES: Queues = Queues {
    own: 0,
    external: constants::QUEUE_FAMILY_FOREIGN,
};

const ONE: u32 = 0x3f80_0000;

fn support() -> Support {
    Support {
        dmabuf_memory: true,
        export_timeline: true,
        host_image_copy: false,
        queue_family_foreign: true,
        push_descriptor: true,
        memory_budget: false,
        dynamic_rendering: true,
        descriptor_indexing: true,
        multi_draw_indirect: true,
        shader_draw_parameters: true,
        memory_priority: true,
        global_priority: false,
    }
}

fn facts(api_version: u32, instance_version: u32) -> DeviceFacts {
    DeviceFacts {
        drm: None,
        render_node: Some(128),
        primary_node: Some(1),
        api_version,
        instance_version,
        missing_feature: None,
        support: support(),
    }
}

#[test]
fn test_vulkan_renderer_version_check() {
    let v1_2 = ash::vk::API_VERSION_1_2;
    let v1_3 = ash::vk::API_VERSION_1_3;
    assert_eq!(MIN_DEVICE_VERSION, v1_3);
    assert_eq!(MAX_INSTANCE_VERSION, v1_3);
    // Instance 1.2: should fail with UnsupportedVersion
    assert!(
        matches!(set_up(&facts(v1_3, v1_2)), Err(DeviceRefusal::UnsupportedVersion)),
        "VulkanRenderer::new with Vulkan 1.2 instance must fail with UnsupportedVersion"
    );
    // Instance 1.3: should succeed for Vulkan 1.3 capable physical devices
    assert!(
        set_up(&facts(v1_3, v1_3)).is_ok(),
        "VulkanRenderer::new with Vulkan 1.3 instance must succeed"
    );
}

#[test]
fn devices_are_refused_in_order() {
    let v1_3 = ash::vk::API_VERSION_1_3;
    let other = DeviceFacts {
        drm: Some(DrmNodes {
            opened: 2,
            render: Some(129),
            primary: Some(2),
        }),
        ..facts(0, v1_3)
    };
    assert_eq!(set_up(&other).err(), Some(DeviceRefusal::MismatchedDrmDevice));
    let same = DeviceFacts {
        drm: Some(DrmNodes {
            opened: 2,
            render: Some(128),
            primary: None,
        }),
        ..facts(v1_3, v1_3)
    };
    let setup = set_up(&same).unwrap();
    assert_eq!(setup.node(), Some(2));
    let with = support();
    assert_eq!(setup.supports_descriptor_indexing(), with.descriptor_indexing);
    assert_eq!(setup.supports_multi_draw_indirect(), with.multi_draw_indirect);
    assert_eq!(setup.supports_shader_draw_parameters(), with.shader_draw_parameters);
    assert_eq!(setup.supports_push_descriptor(), with.push_descriptor);
    assert_eq!(setup.supports_memory_budget(), with.memory_budget);
    assert_eq!(setup.supports_dynamic_rendering(), with.dynamic_rendering);
    assert_eq!(
        setup.external_queue_family(),
        if with.queue_family_foreign {
            vk::QUEUE_FAMILY_FOREIGN_EXT
        } else {
            vk::QUEUE_FAMILY_EXTERNAL
        }
    );
    assert_eq!(set_up(&facts(v1_3, v1_3)).unwrap().node, Some(128));
    assert!(setup.capabilities.contains(&Capability::DynamicRendering));
    assert!(!setup.capabilities.contains(&Capability::MemoryBudget));
    let missing = DeviceFacts {
        missing_feature: Some(3),
        ..facts(v1_3, v1_3)
    };
    assert_eq!(set_up(&missing).err(), Some(DeviceRefusal::MissingFeature(3)));
    assert_eq!(
        set_up(&facts(v1_3, v1_3 + 1)).err(),
        Some(DeviceRefusal::UnsupportedVersion)
    );
    assert!(optimal_host_copy(true, true, true));
    assert!(optimal_host_copy(true, false, true));
    assert!(!optimal_host_copy(true, false, false));
    assert!(!optimal_host_copy(false, true, true));
}

#[test]
fn test_damage_scissors_coalescing() {
    let dst = rect(0, 0, 1920, 1080);
    let screen_size = Size { w: 1920, h: 1080 };

    // 1. Empty damage
    let scissors = calculate_damage_scissors(&[], dst, Transform::Normal, screen_size, 1920, 1080);
    assert!(scissors.is_empty());

    // 2. Adjacent horizontal damage
    let d1 = rect(0, 0, 50, 100);
    let d2 = rect(50, 0, 50, 100);
    let scissors = calculate_damage_scissors(&[d1, d2], dst, Transform::Normal, screen_size, 1920, 1080);
    assert_eq!(scissors.len(), 1);
    assert_eq!(scissors[0].offset.x, 0);
    assert_eq!(scissors[0].offset.y, 0);
    assert_eq!(scissors[0].extent.width, 100);
    assert_eq!(scissors[0].extent.height, 100);

    // 3. Adjacent vertical damage
    let d1 = rect(10, 0, 100, 50);
    let d2 = rect(10, 50, 100, 50);
    let scissors = calculate_damage_scissors(&[d1, d2], dst, Transform::Normal, screen_size, 1920, 1080);
    assert_eq!(scissors.len(), 1);
    assert_eq!(scissors[0].offset.x, 10);
    assert_eq!(scissors[0].offset.y, 0);
    assert_eq!(scissors[0].extent.width, 100);
    assert_eq!(scissors[0].extent.height, 100);

    // 4. Contained damage
    let d1 = rect(0, 0, 200, 200);
    let d2 = rect(10, 10, 50, 50);
    let scissors = calculate_damage_scissors(&[d1, d2], dst, Transform::Normal, screen_size, 1920, 1080);
    assert_eq!(scissors.len(), 1);
    assert_eq!(scissors[0].extent.width, 200);
    assert_eq!(scissors[0].extent.height, 200);

    // 5. Disjoint damage
    let d1 = rect(0, 0, 20, 20);
    let d2 = rect(500, 500, 20, 20);
    let scissors = calculate_damage_scissors(&[d1, d2], dst, Transform::Normal, screen_size, 1920, 1080);
    assert_eq!(scissors.len(), 2);

    // 6. Negative coordinate clipping without displacement
    let offscreen_dst = rect(-50, -50, 100, 100);
    let d_local = rect(0, 0, 100, 100);
    let scissors = calculate_damage_scissors(
        &[d_local],
        offscreen_dst,
        Transform::Normal,
        screen_size,
        1920,
        1080,
    );
    assert_eq!(scissors.len(), 1);
    assert_eq!(scissors[0].offset.x, 0);
    assert_eq!(scissors[0].offset.y, 0);
    assert_eq!(scissors[0].extent.width, 50);
    assert_eq!(scissors[0].extent.height, 50);

    // 7. Small gap between damaged areas should NOT be lossily merged into a bounding box
    let d1 = rect(10, 10, 100, 20);
    let d2 = rect(10, 35, 100, 20); // 5px gap in y
    let scissors = calculate_damage_scissors(&[d1, d2], dst, Transform::Normal, screen_size, 1920, 1080);
    assert_eq!(scissors.len(), 2);
}

#[test]
fn scissors_cover_the_damage() {
    let screen = Size { w: 40, h: 30 };
    let dst = rect(5, -3, 20, 18);
    let damage = [rect(0, 0, 7, 7), rect(3, 3, 9, 4), rect(12, 0, 30, 6), rect(12, 6, 30, 2), rect(-4, 10, 6, 6)];
    let scissors = calculate_damage_scissors(&damage, dst, Transform::Normal, screen, 40, 30);
    for x in 0..40 {
        for y in 0..30 {
            let inside = |r: &Rectangle, x: i32, y: i32| {
                x >= r.loc.x && x < r.loc.x + r.size.w && y >= r.loc.y && y < r.loc.y + r.size.h
            };
            let wanted = damage.iter().any(|r| inside(&rect(r.loc.x + 5, r.loc.y - 3, r.size.w, r.size.h), x, y))
                && inside(&dst, x, y);
            let covered = scissors.iter().any(|s| {
                inside(
                    &rect(s.offset.x, s.offset.y, s.extent.width as i32, s.extent.height as i32),
                    x,
                    y,
                )
            });
            assert_eq!(wanted, covered, "{x} {y}");
        }
    }
}

fn frame(hdr: Option<HdrOutputConfig>) -> VulkanFrame {
    VulkanFrame::new(
        image(1, ash::vk::Format::R8G8B8A8_UNORM, constants::USAGE_COLOR_ATTACHMENT),
        QUEUES,
        Size { w: 64, h: 64 },
        Transform::Normal,
        false,
        None,
        hdr,
    )
}

fn whole_source() -> SourceRect {
    SourceRect {
        x: 0.0f64.to_bits(),
        y: 0.0f64.to_bits(),
        w: 64.0f64.to_bits(),
        h: 64.0f64.to_bits(),
    }
}

#[test]
fn test_push_constants_memory_layout() {
    let damage = vec![rect(0, 0, 64, 64)];
    let clear = frame(None)
        .draw_color(rect(0, 0, 64, 64), &damage, Color32F::black(), false)
        .unwrap();
    assert_eq!(push_bytes(&clear.constants).len(), 48);

    let mut texture = image(2, ash::vk::Format::R8G8B8A8_UNORM, constants::USAGE_SAMPLED);
    let mut draw = |hdr: Option<HdrOutputConfig>| {
        frame(hdr)
            .render_texture_from_to(
                &mut texture,
                whole_source(),
                rect(0, 0, 64, 64),
                &damage,
                Transform::Normal,
                ONE,
            )
            .unwrap()
            .draw
            .unwrap()
    };
    let tex = draw(None);
    assert_eq!(push_bytes(&tex.constants).len(), 64);
    assert!(!tex.hdr);

    let hdr = draw(Some(HdrOutputConfig::default()));
    assert_eq!(push_bytes(&hdr.constants).len(), 112);
    assert!(push_bytes(&hdr.constants).len() <= 128);
    assert!(hdr.hdr);
}

#[test]
fn words_become_bytes_and_back() {
    let words = vec![0x0102_0304, 0xffff_fffe, 0];
    let bytes = push_bytes(&words);
    let expected: Vec<u8> = words.iter().flat_map(|w: &u32| w.to_ne_bytes()).collect();
    assert_eq!(bytes, expected);
    // Bytes that come from words are aligned for them.
    let shader: &[u8] = bytemuck::cast_slice(&words);
    assert_eq!(spirv_u32(shader), Some(words.clone()));
    assert_eq!(spirv_u32(&shader[1..5]), None);
}

#[test]
fn test_draw_indirect_command_memory_layout() {
    assert_eq!(std::mem::size_of::<DrawIndirectCommand>(), 16);
    assert_eq!(std::mem::align_of::<DrawIndirectCommand>(), 4);

    let cmd = DrawIndirectCommand {
        vertex_count: 6,
        instance_count: 1,
        first_vertex: 0,
        first_instance: 42,
    };
    assert_eq!(cmd.vertex_count, 6);
    assert_eq!(cmd.instance_count, 1);
    assert_eq!(cmd.first_vertex, 0);
    assert_eq!(cmd.first_instance, 42);
}

fn command(first_instance: u32) -> DrawIndirectCommand {
    DrawIndirectCommand {
        vertex_count: 6,
        instance_count: 1,
        first_vertex: 0,
        first_instance,
    }
}

#[test]
fn draw_commands_are_appended() {
    let mut buffer = DrawIndirectBuffer::new(2);
    assert!(buffer.is_empty());
    assert_eq!(buffer.stride(), 16);
    assert_eq!(buffer.plan_growth(16), None);
    assert_eq!(buffer.plan_growth(17), Some(32));
    assert_eq!(buffer.plan_growth(100), Some(100));
    buffer.ensure_capacity(20);
    assert_eq!(buffer.write_commands(&vec![command(0), command(1)]), 0);
    assert_eq!(buffer.push(command(2)), 32);
    assert_eq!(buffer.len(), 3);
    assert_eq!(buffer.commands[2].first_instance, 2);
    buffer.reset();
    assert!(buffer.is_empty());
    assert_eq!(buffer.byte_size(), 32 * 16);
}

#[test]
fn scissors_keep_their_order() {
    let at = |damage: &[Rectangle]| {
        calculate_damage_scissors(
            damage,
            rect(0, 0, 64, 64),
            Transform::Normal,
            Size { w: 64, h: 64 },
            64,
            64,
        )
        .into_iter()
        .map(|r| (r.offset.x, r.offset.y, r.extent.width, r.extent.height))
        .collect::<Vec<_>>()
    };
    // The first two join, and the last one takes the place of the second.
    assert_eq!(
        at(&[rect(0, 0, 8, 8), rect(8, 0, 8, 8), rect(30, 0, 4, 4), rect(40, 40, 4, 4)]),
        vec![(0, 0, 16, 8), (40, 40, 4, 4), (30, 0, 4, 4)]
    );
    // What a sweep leaves behind is joined by the next one.
    assert_eq!(
        at(&[rect(0, 0, 8, 8), rect(0, 8, 16, 8), rect(8, 0, 8, 8)]),
        vec![(0, 0, 16, 16)]
    );
}

#[test]
fn far_coordinates_are_told_apart() {
    let size = Size { w: 64, h: 64 };
    let fits = |damage: Rectangle, dst: Rectangle, transform: Transform| {
        can_draw(&vec![damage], dst, transform, size, 64, 64)
    };
    let far = i32::MAX - 10;
    assert!(fits(rect(0, 0, 5, 5), rect(far, 0, 10, 10), Transform::Normal));
    assert!(!fits(rect(0, 0, 5, 5), rect(far, 0, 11, 10), Transform::Normal));
    assert!(!fits(rect(11, 0, 5, 5), rect(far, 0, 10, 10), Transform::Normal));
    assert!(!fits(rect(0, 0, -1, 5), rect(0, 0, 10, 10), Transform::Normal));
    assert!(fits(rect(0, 0, 5, 5), rect(i32::MIN, 0, 10, 10), Transform::Normal));
    assert!(!fits(rect(0, 0, 5, 5), rect(i32::MIN, 0, 10, 10), Transform::_90));
    let to = image(2, ash::vk::Format::R8G8B8A8_UNORM, constants::USAGE_COLOR_ATTACHMENT);
    assert!(blit_fits(rect(0, 0, 5, 5), rect(0, 0, 5, 5), &to));
    assert!(!blit_fits(rect(far, 0, 11, 5), rect(0, 0, 5, 5), &to));
}

#[test]
fn every_scissor_is_drawn_once() {
    let scissors: Vec<Rect2D> = calculate_damage_scissors(
        &[rect(0, 0, 5, 5), rect(10, 10, 5, 5), rect(20, 0, 5, 5)],
        rect(0, 0, 64, 64),
        Transform::Normal,
        Size { w: 64, h: 64 },
        64,
        64,
    );
    assert_eq!(scissors.len(), 3);
    let direct = draw_quads_directly(&scissors);
    let mut buffer = DrawIndirectBuffer::new(DrawIndirectBuffer::DEFAULT_CAPACITY);
    let indirect = draw_quads(&mut buffer, &scissors);
    for i in 0..3 {
        assert_eq!(direct[i].scissor, scissors[i]);
        assert_eq!(direct[i].offset, None);
        assert_eq!(indirect[i].scissor, scissors[i]);
        assert_eq!(indirect[i].offset, Some(16 * i as u64));
    }
    assert_eq!(buffer.len(), 3);
    // The memory grows as it does for commands that are written directly.
    let mut small = DrawIndirectBuffer::new(16);
    let mut other = DrawIndirectBuffer::new(16);
    let many = vec![scissors[0]; 20];
    draw_quads(&mut small, &many);
    let command = DrawIndirectCommand {
        vertex_count: 6,
        instance_count: 1,
        first_vertex: 0,
        first_instance: 0,
    };
    other.write_commands(&vec![command; 20]);
    assert_eq!(small.capacity, other.capacity);
    assert!(small.capacity >= 20);
    let pool = BindlessDescriptorPool::new(4);
    assert_eq!(pool.max_textures, 64);
    assert!(pool.update_texture(63));
    assert!(!pool.update_texture(64));
}

#[test]
fn frames_clear_when_the_pass_begins() {
    let mut frame = frame(None);
    assert!(matches!(frame.clear(Color32F::black(), &Vec::new()), ClearPlan::Nothing));
    assert!(matches!(frame.finish(), FinishPlan::Idle));
    assert!(matches!(
        frame.clear(Color32F::black(), &vec![rect(0, 0, 64, 64)]),
        ClearPlan::Later
    ));
    let pass = frame.ensure_rendering().unwrap();
    assert_eq!(pass.load_op, LoadOp::Clear(Color32F::black()));
    assert!(pass.clears.is_empty());
    assert!(frame.ensure_rendering().is_none());
    match frame.clear(Color32F::transparent(), &vec![rect(0, 0, 8, 8)]) {
        ClearPlan::Now(clear) => assert_eq!(clear.rects.len(), 1),
        _ => panic!("a pass is under way"),
    }
    match frame.finish() {
        FinishPlan::Submit {
            pass,
            end_pass,
            barrier,
        } => {
            assert!(pass.is_none());
            assert!(end_pass);
            assert_eq!(barrier.dst_queue, constants::QUEUE_FAMILY_FOREIGN);
        }
        FinishPlan::Idle => panic!("something was drawn"),
    }
    assert!(frame.fb.needs_acquire);
}

#[test]
fn depth_buffers_are_asked_for() {
    let mut frame = frame(None);
    assert_eq!(frame.missing_depth(), None);
    assert!(!frame.set_depth_enabled(true));
    assert_eq!(frame.missing_depth(), Some((64, 64)));
    frame.set_depth_image(image(
        9,
        ash::vk::Format::D16_UNORM,
        constants::USAGE_DEPTH_STENCIL_ATTACHMENT,
    ));
    assert_eq!(frame.missing_depth(), None);
    frame.set_current_depth(0.25f32.to_bits());
    let pass = frame.ensure_rendering().unwrap();
    assert!(pass.depth.is_some());
}

#[test]
fn blits_copy_where_they_can() {
    let mut renderer = VulkanRenderer::new(1, None);
    renderer.wait(SyncKind::Drm(TimelinePoint { timeline: 9, point: 4 }));
    let rgba = ash::vk::Format::R8G8B8A8_UNORM;
    let mut from = image(1, rgba, constants::USAGE_TRANSFER_SRC | constants::USAGE_SAMPLED);
    let to = image(2, rgba, constants::USAGE_TRANSFER_DST | constants::USAGE_COLOR_ATTACHMENT);
    let area = rect(0, 0, 32, 32);
    let plan = renderer
        .blit(&mut from, to, QUEUES, area, area, TextureFilter::Nearest)
        .unwrap();
    assert!(matches!(plan.work, BlitWork::Copy(_)));
    assert_eq!(plan.filter, TextureFilter::Nearest);
    assert_eq!(plan.waits, vec![TimelinePoint { timeline: 9, point: 4 }]);
    assert!(renderer.pending_waits.is_empty());
    assert_eq!(renderer.downscale_filter, TextureFilter::Linear);

    let plan = renderer
        .blit(&mut from, to, QUEUES, area, rect(0, 0, 64, 64), TextureFilter::Nearest)
        .unwrap();
    assert_eq!(plan.filter, TextureFilter::Nearest);
    assert_eq!(renderer.upscale_filter, TextureFilter::Linear);
    match plan.work {
        BlitWork::Draw(work) => {
            let draw = work.draw.unwrap();
            assert!(!draw.downscaling);
            assert!(!draw.hdr);
            assert_eq!(draw.pipeline, PipelineKind::Tex);
        }
        BlitWork::Copy(_) => panic!("the sizes differ"),
    }

    // An HDR image is tone mapped while there is an HDR target.
    renderer.set_hdr_output(Some(HdrOutputConfig::default()));
    let mut hdr = image(
        3,
        ash::vk::Format::A2B10G10R10_UNORM_PACK32,
        constants::USAGE_TRANSFER_SRC | constants::USAGE_SAMPLED,
    );
    let plan = renderer
        .blit(&mut hdr, to, QUEUES, area, area, TextureFilter::Nearest)
        .unwrap();
    assert_eq!(plan.filter, TextureFilter::Nearest);
    match plan.work {
        BlitWork::Draw(work) => assert!(work.draw.unwrap().hdr),
        BlitWork::Copy(_) => panic!("the image has to be tone mapped"),
    }

    let mut blind = ImageState {
        has_view: false,
        ..hdr
    };
    assert!(renderer
        .blit(&mut blind, to, QUEUES, area, area, TextureFilter::Nearest)
        .is_none());
    assert_eq!(renderer.upscale_filter, TextureFilter::Nearest);
}

#[test]
fn frames_take_over_the_waits() {
    let mut renderer = VulkanRenderer::new(1, Some(2));
    assert_eq!(
        renderer.wait(SyncKind::Drm(TimelinePoint { timeline: 2, point: 4 })),
        WaitPlan::Ordered
    );
    assert_eq!(
        renderer.wait(SyncKind::Vulkan(TimelinePoint { timeline: 1, point: 4 })),
        WaitPlan::Ordered
    );
    assert_eq!(
        renderer.wait(SyncKind::Vulkan(TimelinePoint { timeline: 3, point: 4 })),
        WaitPlan::Blocking
    );
    assert_eq!(renderer.wait(SyncKind::Other), WaitPlan::Blocking);
    assert_eq!(
        renderer.wait(SyncKind::Drm(TimelinePoint { timeline: 3, point: 4 })),
        WaitPlan::NextSubmission
    );
    let (frame, mut waits) = renderer.render(
        image(1, ash::vk::Format::R8G8B8A8_UNORM, constants::USAGE_COLOR_ATTACHMENT),
        QUEUES,
        Size { w: 64, h: 64 },
        Transform::_90,
    );
    assert_eq!(waits.len(), 1);
    let later = TimelinePoint { timeline: 5, point: 6 };
    assert_eq!(
        renderer.wait_in_frame(&mut waits, SyncKind::Drm(later)),
        WaitPlan::NextSubmission
    );
    assert_eq!(
        renderer.wait_in_frame(&mut waits, SyncKind::Vulkan(later)),
        WaitPlan::Blocking
    );
    assert_eq!(
        renderer.wait_in_frame(&mut waits, SyncKind::Drm(TimelinePoint { timeline: 2, point: 6 })),
        WaitPlan::Ordered
    );
    assert_eq!(waits, vec![TimelinePoint { timeline: 3, point: 4 }, later]);
    assert_eq!(frame.transform, Transform::_90);
    assert!(renderer.take_waits().is_empty());
    let latest = max_points(&vec![
        TimelinePoint { timeline: 1, point: 4 },
        TimelinePoint { timeline: 2, point: 7 },
        TimelinePoint { timeline: 1, point: 9 },
        TimelinePoint { timeline: 1, point: 5 },
    ]);
    assert_eq!(latest.len(), 2);
    assert!(latest.contains(&TimelinePoint { timeline: 1, point: 9 }));
    assert!(latest.contains(&TimelinePoint { timeline: 2, point: 7 }));
}

#[test]
fn submissions_wait_for_each_other() {
    let mut renderer = VulkanRenderer::new(1, None);
    let (first, now) = renderer.submit_frame(10, Vec::new());
    assert_eq!((first.point, first.wait_previous), (1, None));
    assert!(now.is_some());
    let dropped = renderer.begin_batch();
    assert!(dropped.is_empty());
    let (second, now) = renderer.submit_frame(11, Vec::new());
    assert_eq!((second.point, second.wait_previous), (2, Some(1)));
    assert!(now.is_none());
    let queued = renderer.flush_batch();
    assert_eq!(queued.len(), 1);
    assert_eq!(queued[0].cmd_buffer, 11);
    assert!(!renderer.batch_submits);
    renderer.advance();
    assert_eq!(renderer.seq_no, 3);

    renderer.defer_cleanup(2, 100);
    renderer.defer_cleanup(5, 101);
    renderer.defer_cleanup(3, 102);
    let retired = renderer.cleanup(4);
    assert_eq!(retired.len(), 1);
    assert_eq!(retired[0].resource, 100);
    assert_eq!(renderer.cleanup(5).len(), 2);
}

#[test]
fn lookup_tables_follow_the_target() {
    let mut renderer = VulkanRenderer::new(1, None);
    assert_eq!(renderer.set_hdr_output(None), None);
    let lut = renderer.set_hdr_output(Some(HdrOutputConfig::default()));
    assert_eq!(lut, Some((203, 1000, 1000)));
    renderer.finish_3d_lut(lut.unwrap(), None);
    assert!(renderer.lut.is_none());
    renderer.finish_3d_lut(lut.unwrap(), Some(70));
    assert_eq!(renderer.set_hdr_output(Some(HdrOutputConfig::default())), None);
    assert_eq!(
        renderer.update_3d_lut(203.9f32.to_bits(), 600.5f32.to_bits(), f32::NAN.to_bits()),
        Some((203, 600, 0))
    );
    // The first table goes when what was submitted so far is done.
    renderer.finish_3d_lut((203, 600, 0), Some(71));
    assert_eq!(renderer.lut.unwrap().resource, 71);
    let retired = renderer.cleanup(0);
    assert_eq!((retired[0].point, retired[0].resource), (0, 70));
    assert_eq!(renderer.active_sampler(true), TextureFilter::Linear);
}

#[test]
fn barriers_chain() {
    let mut texture = image(5, ash::vk::Format::R8G8B8A8_UNORM, constants::USAGE_SAMPLED);
    let barrier = prepare_sampling(&mut texture, &QUEUES).unwrap();
    assert_eq!(barrier.src_queue, constants::QUEUE_FAMILY_FOREIGN);
    assert_eq!(barrier.dst_queue, 0);
    assert_eq!(texture.layout, constants::LAYOUT_SHADER_READ_ONLY);
    assert_eq!(prepare_sampling(&mut texture, &QUEUES), None);

    let mut fb = image(6, ash::vk::Format::R8G8B8A8_UNORM, constants::USAGE_COLOR_ATTACHMENT);
    let target = prepare_target(&mut fb, &QUEUES);
    assert_eq!(target.new_layout, fb.layout);
    let released = release_target(&mut fb, &QUEUES);
    assert_eq!(released.old_layout, target.new_layout);
    assert!(fb.needs_acquire);

    let mut depth = image(
        7,
        ash::vk::Format::D16_UNORM,
        constants::USAGE_DEPTH_STENCIL_ATTACHMENT,
    );
    assert!(prepare_depth(&mut depth).depth);

    let copy = prepare_copy(&mut fb, &mut texture, &QUEUES);
    assert_eq!(copy.fb_before.new_layout, copy.fb_after.old_layout);
    assert_eq!(copy.texture_before.new_layout, copy.texture_after.old_layout);
    assert_eq!(
        Queues::external_family(true),
        ash::vk::QUEUE_FAMILY_FOREIGN_EXT
    );
    assert_eq!(Queues::external_family(false), ash::vk::QUEUE_FAMILY_EXTERNAL);
}

#[test]
fn pipelines_are_cached_by_format() {
    let mut pipelines = Pipelines::new(1, 2, 3);
    assert_eq!(pipelines.lookup(37, false), PipelineLookup::Create);
    assert_eq!(pipelines.get_or_create_format_pipelines(37, false, None), None);
    let handles: Vec<u64> = (100..114).collect();
    assert_eq!(
        pipelines.get_or_create_format_pipelines(37, false, Some(handles)),
        Some(0)
    );
    assert_eq!(pipelines.lookup(37, false), PipelineLookup::Cached(0));
    assert_eq!(pipelines.lookup(37, true), PipelineLookup::Create);
    assert_eq!(pipelines.entries[0].get(PipelineKind::HdrLut3dBlend), 113);
    assert_eq!(PipelineKind::Clear.index(), 0);
    let infos = pipeline_infos(37, true);
    assert_eq!(infos.len(), 14);
    assert_eq!(pipelines.layout(BuiltinShader::HdrTexture), 3);
    assert!(uses_hdr_pool(BuiltinShader::HdrTexture));
    assert!(!uses_hdr_pool(BuiltinShader::Texture));
    assert_eq!(cache_location(false, true, true), CacheLocation::CacheHome);
    assert_eq!(cache_location(false, false, false), CacheLocation::Disabled);
    let uuid: Vec<u8> = (0..16).map(|i| i * 17).collect();
    assert!(cache_file_name(&uuid).contains("00112233445566778899aabbccddeeff"));
    assert_eq!(push_constant_range(0), None);
    assert_eq!(push_constant_range(48), Some(48));
}

#[test]
fn descriptor_sets_come_from_pools() {
    let mut allocator = DescriptorAllocator::new();
    assert_eq!(
        allocator.alloc_descriptor_set(false),
        AllocStep::Fail(DescriptorError::LostDevice)
    );
    let size = match allocator.alloc_descriptor_set(true) {
        AllocStep::Create(size) => size,
        _ => panic!("there is no pool yet"),
    };
    assert_eq!(size, START_DESCRIPTOR_COUNT);
    let at = match allocator.after_create(size, Ok(50)) {
        AllocStep::Allocate(at) => at,
        _ => panic!("the pool is new"),
    };
    let set = match allocator.after_allocate(at, true, Ok(7)) {
        AllocStep::Done(set) => set,
        _ => panic!("the set was allocated"),
    };
    assert_eq!((set.pool, set.vk), (50, 7));
    allocator.release(set);
    assert_eq!(allocator.alloc_descriptor_set(true), AllocStep::Done(set));
    assert_eq!(
        allocator.after_create(8, Err(-2)),
        AllocStep::Fail(DescriptorError::Pool(-2))
    );
}

#[test]
fn full_pools_are_passed_over() {
    let codes = (
        ash::vk::Result::ERROR_FRAGMENTED_POOL.as_raw(),
        ash::vk::Result::ERROR_OUT_OF_POOL_MEMORY.as_raw(),
    );
    assert_eq!(codes, (ERROR_FRAGMENTED_POOL, ERROR_OUT_OF_POOL_MEMORY));
    let mut allocator = DescriptorAllocator::new();
    assert_eq!(allocator.after_create(4, Ok(50)), AllocStep::Allocate(0));
    // A pool that was just made has to have room.
    assert_eq!(
        allocator.after_allocate(0, true, Err(codes.0)),
        AllocStep::Fail(DescriptorError::Alloc(codes.0))
    );
    assert_eq!(
        allocator.after_allocate(0, false, Err(codes.1)),
        AllocStep::Create(8)
    );
    assert_eq!(
        allocator.after_allocate(0, false, Err(-4)),
        AllocStep::Fail(DescriptorError::Alloc(-4))
    );
    // Sizes have 32 bits.
    assert_eq!(allocator.after_create(0x8000_0000, Ok(51)), AllocStep::Allocate(1));
    assert_eq!(allocator.after_allocate(1, false, Err(codes.0)), AllocStep::Create(0));
    assert_eq!(allocator.after_create(0, Ok(52)), AllocStep::Allocate(2));
    assert!(matches!(allocator.after_allocate(2, true, Ok(9)), AllocStep::Done(_)));
    assert_eq!(allocator.alloc_descriptor_set(true), AllocStep::Allocate(0));
}

#[test]
fn formats_are_listed_once() {
    let color = ash::vk::FormatFeatureFlags::COLOR_ATTACHMENT.as_raw();
    let storage = ash::vk::FormatFeatureFlags::STORAGE_IMAGE.as_raw();
    let argb = FormatProps {
        code: 1,
        opaque: Some(2),
        modifiers: Some(vec![
            ModifierProps {
                modifier: 10,
                features: color | storage,
            },
            ModifierProps {
                modifier: 11,
                features: 0,
            },
        ]),
    };
    let xrgb = FormatProps {
        code: 2,
        opaque: None,
        modifiers: Some(vec![ModifierProps {
            modifier: 10,
            features: color | storage,
        }]),
    };
    let pairs = supported_formats(&vec![argb, xrgb]).unwrap();
    assert!(pairs.contains(&(1, 10)));
    assert!(pairs.contains(&(2, 10)));
    assert!(!pairs.contains(&(1, 11)));
    assert_eq!(pairs.iter().filter(|p| **p == (2, 10)).count(), 1);
    let unknown = FormatProps {
        code: 3,
        opaque: None,
        modifiers: None,
    };
    assert_eq!(supported_formats(&vec![unknown]), None);
}

fn staging_props() -> MemoryProperties {
    MemoryProperties {
        memory_types: vec![
            MemoryType {
                property_flags: ash::vk::MemoryPropertyFlags::DEVICE_LOCAL.as_raw(),
                heap_index: 0,
            },
            MemoryType {
                property_flags: ash::vk::MemoryPropertyFlags::HOST_VISIBLE.as_raw(),
                heap_index: 1,
            },
            MemoryType {
                property_flags: (ash::vk::MemoryPropertyFlags::HOST_VISIBLE
                    | ash::vk::MemoryPropertyFlags::HOST_COHERENT)
                    .as_raw(),
                heap_index: 1,
            },
        ],
        memory_heaps: vec![
            MemoryHeap {
                size: 1 << 30,
                flags: 1,
            },
            MemoryHeap {
                size: 1 << 30,
                flags: 0,
            },
        ],
    }
}

#[test]
fn read_backs_are_staged() {
    let props = staging_props();
    assert_eq!(staging_memory_type(&props, 0b111), Ok((2, true)));
    assert_eq!(staging_memory_type(&props, 0b011), Ok((1, false)));
    assert_eq!(
        staging_memory_type(&props, 0b001),
        Err(TransferError::NoMemoryAvailable)
    );

    // Staging buffers stand between the image and the caller.
    let mut fb = image(1, ash::vk::Format::R8G8B8A8_UNORM, constants::USAGE_TRANSFER_SRC);
    let mut run = copy_image_via_staging_buffer(&fb, rect(-1, 2, 100, 10), 0x3432_5241);
    assert!(run.blocking);
    assert_eq!((run.copy.width, run.copy.height), (64, 10));
    assert_eq!((run.copy.offset_x, run.copy.offset_y), (0, 2));
    assert_eq!(run.copy.stride, 256);
    assert_eq!(run.copy.size, 2560);
    assert_eq!(run.release(), vec![]);
    assert_eq!(run.buffer_created(Err(-1)), Err(ReadbackError::HostImageCopyError(-1)));
    assert_eq!(run.buffer_created(Ok(5)), Ok(()));
    assert_eq!(run.choose_memory(&props, 0b001), Err(ReadbackError::NoMemoryAvailable));
    assert_eq!(run.release(), vec![StagingRelease::Buffer(5)]);
    assert_eq!(run.choose_memory(&props, 0b011), Ok(1));
    assert!(!run.is_coherent);
    assert_eq!(run.choose_memory(&props, 0b111), Ok(2));
    assert!(run.is_coherent);
    assert_eq!(run.memory_allocated(Err(-2)), Err(ReadbackError::VulkanAllocate(-2)));
    assert_eq!(run.memory_allocated(Ok(6)), Ok(()));
    assert_eq!(run.memory_bound(Err(-3)), Err(ReadbackError::VulkanBind(-3)));
    assert_eq!(run.memory_bound(Ok(())), Ok(()));
    let everything = vec![StagingRelease::Buffer(5), StagingRelease::Memory(6)];
    assert_eq!(run.release(), everything);
    let (before, after) = run.record(&mut fb, &QUEUES);
    assert_eq!(before.new_layout, after.old_layout);
    assert!(!fb.needs_acquire);
    assert_eq!(
        run.commands_ended(&mut fb, Err(-4)),
        Err(ReadbackError::CommandBufferError(-4))
    );
    assert_eq!(fb.layout, constants::LAYOUT_UNDEFINED);
    assert_eq!(run.commands_ended(&mut fb, Ok(())), Ok(()));
    assert_eq!(fb.layout, constants::LAYOUT_GENERAL);
    assert_eq!(run.submitted(Ok(())), Ok(()));
    assert_eq!(run.submitted(Err(-13)), Err(ReadbackError::SubmitError(-13)));
    assert_eq!(
        run.submitted(Err(vk::Result::ERROR_DEVICE_LOST.as_raw())),
        Err(ReadbackError::DeadDevice)
    );
}

#[test]
fn read_backs_can_wait() {
    let fb = image(1, ash::vk::Format::R8G8B8A8_UNORM, constants::USAGE_TRANSFER_SRC);
    let mut run = VulkanRenderer::record_copy_image_to_shm(&fb, rect(0, 0, 2, 2), 0x4834_4241);
    assert!(!run.blocking);
    assert_eq!(run.copy.bpp, 8);
    run.buffer_created(Ok(5)).unwrap();
    run.choose_memory(&staging_props(), 0b111).unwrap();
    run.memory_allocated(Ok(6)).unwrap();
    assert_eq!(run.release(), vec![StagingRelease::Buffer(5), StagingRelease::Memory(6)]);
    run.memory_bound(Ok(())).unwrap();
    assert_eq!(run.release(), vec![]);
    let mut pending = run.pending(1);
    assert_eq!(
        pending,
        PendingVulkanShmCopy {
            staging_buffer: 5,
            staging_memory: 6,
            buffer_size: 32,
            is_coherent: true,
            point: 1,
            width: 2,
            height: 2,
            bpp: 8
        }
    );
    let src: Vec<u8> = (0..32).collect();
    let mut dst = vec![0u8; 40];
    pending.copy_to(&src, &mut dst, 4, 18);
    assert_eq!(&dst[..4], &[0, 0, 0, 0]);
    assert_eq!(&dst[4..20], &src[..16]);
    assert_eq!(&dst[22..38], &src[16..]);
    assert_eq!(&dst[20..22], &[0, 0]);

    // A line cannot start before the buffer, and without steps forward only the first one fits.
    let mut dst = vec![0u8; 40];
    pending.copy_to(&src, &mut dst, -1, 18);
    assert_eq!(dst, vec![0u8; 40]);
    pending.copy_to(&src, &mut dst, 4, -18);
    assert_eq!(&dst[..4], &[0, 0, 0, 0]);
    assert_eq!(&dst[4..20], &src[..16]);
    assert_eq!(&dst[20..], &[0; 20]);

    assert_eq!(pending.after_wait(Ok(())), CopyWait::Done);
    assert_eq!(RESULT_TIMEOUT, vk::Result::TIMEOUT.as_raw());
    assert_eq!(pending.after_wait(Err(RESULT_TIMEOUT)), CopyWait::Again);
    assert_eq!(pending.after_wait(Err(-4)), CopyWait::Fail(-4));
    let mut given_up = pending;
    assert_eq!(
        given_up.abandon(),
        (true, vec![StagingRelease::Buffer(5), StagingRelease::Memory(6)])
    );
    assert_eq!(given_up.abandon(), (false, vec![]));
    assert_eq!(
        pending.finish(),
        vec![
            StagingRelease::Unmap(6),
            StagingRelease::Buffer(5),
            StagingRelease::Memory(6)
        ]
    );
    assert_eq!(pending.abandon(), (false, vec![]));
}

#[test]
fn rows_are_copied() {
    let src: Vec<u8> = (1..=20).collect();
    let mut dst = vec![0u8; 12];
    RowCopy {
        rows: 3,
        bytes: 3,
        src_start: 1,
        src_stride: 5,
        dst_start: 2,
        dst_stride: 4,
    }
    .copy(&src, &mut dst);
    assert_eq!(dst, vec![0, 0, 2, 3, 4, 0, 7, 8, 9, 0, 0, 0]);
    let rows = upload_rows(rect(1, 2, 3, 4), 4, 100, 8, 64);
    assert_eq!(rows.rows, 4);
    assert_eq!(rows.bytes, 12);
    assert_eq!(rows.src_stride, 100);
    assert_eq!(rows.dst_stride, 64);
    assert_eq!(rows.src_start, 2 * 100 + 4);
    assert_eq!(rows.dst_start, 8 + 2 * 64 + 4);
}

#[test]
fn uploads_choose_their_way() {
    let target = UploadTarget {
        width: 64,
        height: 64,
        layout: constants::LAYOUT_UNDEFINED,
        mappable: true,
    };
    assert!(matches!(
        upload_host_memory_to_image(&target, 256, 4, rect(100, 0, 5, 5), true),
        Ok(Upload::Nothing)
    ));
    assert!(matches!(
        upload_host_memory_to_image(&target, 256, 4, rect(0, 0, 64, 64), true),
        Ok(Upload::Rows { .. })
    ));
    let private = UploadTarget {
        mappable: false,
        ..target
    };
    match upload_host_memory_to_image(&private, 256, 4, rect(2, 1, 10, 10), true) {
        Ok(Upload::Device {
            host_offset,
            row_length,
            ..
        }) => {
            assert_eq!(host_offset, 256 + 8);
            assert_eq!(row_length, 64);
        }
        _ => panic!("the device copies"),
    }
    assert_eq!(
        upload_host_memory_to_image(&private, 256, 4, rect(2, 1, 10, 10), false),
        Err(TransferError::MissingExtension)
    );
    assert_eq!(check_import_memory(64 * 64 * 4, 4, Size { w: 64, h: 64 }), Ok(()));
    assert!(check_import_memory(64 * 64 * 4 - 1, 4, Size { w: 64, h: 64 }).is_err());
    assert_eq!(import_tilings(true), vec![false, true]);
    assert_eq!(check_update_memory(64, 64, 4, 64 * 64 * 4, rect(0, 0, 8, 8)), Ok(()));
    assert!(check_update_memory(64, 64, 4, 100, rect(0, 0, 8, 8)).is_err());
    assert!(mem_formats().contains(&0x3432_5241));
    assert!(check_shm_buffer(10, 0, 256, 64, 0x3432_5241).is_err());
    assert!(reuses_texture(Some((Size { w: 1, h: 2 }, 37)), Size { w: 1, h: 2 }, 37));
    assert!(!reuses_texture(None, Size { w: 1, h: 2 }, 37));
    assert_eq!(
        upload_regions(&vec![rect(-5, 0, 10, 10), rect(70, 0, 5, 5)], Size { w: 64, h: 64 }),
        vec![rect(0, 0, 5, 10)]
    );
    assert!(maps_directly(2, true));
    assert!(!maps_directly(1, true));
    assert!(can_read_texture(1, false, constants::USAGE_TRANSFER_SRC, false));
    assert_eq!(bind(constants::USAGE_COLOR_ATTACHMENT), Ok(()));
    assert_eq!(bind(0), Err(TransferError::MissingOrInvalidUsage));
    assert!(!reuses_framebuffer(None));
    assert!(!create_buffer(false, false).is_empty());
}

#[test]
fn imports_last_as_long_as_their_origins() {
    let mut imports = ImportTable::new();
    assert_eq!(imports.get(7), None);
    assert_eq!(imports.insert(7, 70), None);
    assert_eq!(imports.insert(8, 80), None);
    assert_eq!(imports.insert(9, 90), None);
    assert_eq!(imports.insert(8, 81), Some(80));
    assert_eq!(imports.get(8), Some(81));
    assert_eq!(imports.retain(&vec![8, 3]), vec![(8, 81)]);
    assert_eq!(imports.get(8), None);
    assert_eq!(imports.get(7), Some(70));
    assert_eq!(imports.drain(), vec![(7, 70), (9, 90)]);
    assert_eq!(imports.get(7), None);
}

#[test]
fn sync_points() {
    assert!(is_signaled(Some(5), 5));
    assert!(!is_signaled(Some(4), 5));
    assert!(!is_signaled(None, 5));
    assert_eq!(wait_deadline(1, 5), 11_000_000_005);
    assert_eq!(wait_deadline(i64::MAX / 1_000_000_000, 0), i64::MAX);
    assert_eq!(client_wait_deadline(1, 5), 1_100_000_005);
    assert_eq!(client_wait_deadline(9_223_372_036, 800_000_000), i64::MAX);
    assert_eq!(drm_wait_result(WaitEnd::Reached), Ok(()));
    assert_eq!(drm_wait_result(WaitEnd::Interrupted), Err(Interrupted));
    let point = VulkanSyncPoint {
        point: 7,
        exported: true,
    };
    assert!(point.is_signaled(Some(7), None));
    assert!(point.is_exportable());
    assert_eq!(point.wait(Some(8), None, true), VulkanWait::Done);
    assert!(matches!(
        point.wait(Some(1), Some(1), true),
        VulkanWait::Device { .. }
    ));
    assert!(waits_on_cpu(false, Some(1), 2));
}

#[test]
fn constants_are_those_of_the_interface() {
    assert_eq!(constants::LAYOUT_GENERAL, vk::ImageLayout::GENERAL.as_raw());
    assert_eq!(
        constants::LAYOUT_COLOR_ATTACHMENT,
        vk::ImageLayout::COLOR_ATTACHMENT_OPTIMAL.as_raw()
    );
    assert_eq!(
        constants::LAYOUT_SHADER_READ_ONLY,
        vk::ImageLayout::SHADER_READ_ONLY_OPTIMAL.as_raw()
    );
    assert_eq!(
        constants::LAYOUT_TRANSFER_SRC,
        vk::ImageLayout::TRANSFER_SRC_OPTIMAL.as_raw()
    );
    assert_eq!(
        constants::LAYOUT_TRANSFER_DST,
        vk::ImageLayout::TRANSFER_DST_OPTIMAL.as_raw()
    );
    assert_eq!(
        constants::LAYOUT_DEPTH_ATTACHMENT,
        vk::ImageLayout::DEPTH_ATTACHMENT_OPTIMAL.as_raw()
    );
    assert_eq!(
        constants::STAGE_FRAGMENT_SHADER,
        vk::PipelineStageFlags2::FRAGMENT_SHADER.as_raw()
    );
    assert_eq!(
        constants::STAGE_EARLY_FRAGMENT_TESTS,
        vk::PipelineStageFlags2::EARLY_FRAGMENT_TESTS.as_raw()
    );
    assert_eq!(
        constants::STAGE_LATE_FRAGMENT_TESTS,
        vk::PipelineStageFlags2::LATE_FRAGMENT_TESTS.as_raw()
    );
    assert_eq!(
        constants::STAGE_COLOR_ATTACHMENT_OUTPUT,
        vk::PipelineStageFlags2::COLOR_ATTACHMENT_OUTPUT.as_raw()
    );
    assert_eq!(
        constants::STAGE_COMPUTE_SHADER,
        vk::PipelineStageFlags2::COMPUTE_SHADER.as_raw()
    );
    assert_eq!(
        constants::STAGE_ALL_TRANSFER,
        vk::PipelineStageFlags2::ALL_TRANSFER.as_raw()
    );
    assert_eq!(constants::STAGE_HOST, vk::PipelineStageFlags2::HOST.as_raw());
    assert_eq!(
        constants::STAGE_ALL_COMMANDS,
        vk::PipelineStageFlags2::ALL_COMMANDS.as_raw()
    );
    assert_eq!(
        constants::ACCESS_COLOR_ATTACHMENT_READ,
        vk::AccessFlags2::COLOR_ATTACHMENT_READ.as_raw()
    );
    assert_eq!(
        constants::ACCESS_COLOR_ATTACHMENT_WRITE,
        vk::AccessFlags2::COLOR_ATTACHMENT_WRITE.as_raw()
    );
    assert_eq!(
        constants::ACCESS_DEPTH_STENCIL_READ,
        vk::AccessFlags2::DEPTH_STENCIL_ATTACHMENT_READ.as_raw()
    );
    assert_eq!(
        constants::ACCESS_DEPTH_STENCIL_WRITE,
        vk::AccessFlags2::DEPTH_STENCIL_ATTACHMENT_WRITE.as_raw()
    );
    assert_eq!(
        constants::ACCESS_TRANSFER_READ,
        vk::AccessFlags2::TRANSFER_READ.as_raw()
    );
    assert_eq!(
        constants::ACCESS_TRANSFER_WRITE,
        vk::AccessFlags2::TRANSFER_WRITE.as_raw()
    );
    assert_eq!(constants::ACCESS_HOST_WRITE, vk::AccessFlags2::HOST_WRITE.as_raw());
    assert_eq!(constants::ACCESS_MEMORY_READ, vk::AccessFlags2::MEMORY_READ.as_raw());
    assert_eq!(constants::ACCESS_MEMORY_WRITE, vk::AccessFlags2::MEMORY_WRITE.as_raw());
    assert_eq!(
        constants::ACCESS_SHADER_SAMPLED_READ,
        vk::AccessFlags2::SHADER_SAMPLED_READ.as_raw()
    );
    assert_eq!(
        constants::ACCESS_SHADER_STORAGE_WRITE,
        vk::AccessFlags2::SHADER_STORAGE_WRITE.as_raw()
    );
    assert_eq!(constants::QUEUE_FAMILY_IGNORED, vk::QUEUE_FAMILY_IGNORED);
    assert_eq!(constants::USAGE_TRANSFER_SRC, vk::ImageUsageFlags::TRANSFER_SRC.as_raw());
    assert_eq!(constants::USAGE_TRANSFER_DST, vk::ImageUsageFlags::TRANSFER_DST.as_raw());
    assert_eq!(constants::USAGE_SAMPLED, vk::ImageUsageFlags::SAMPLED.as_raw());
    assert_eq!(constants::USAGE_STORAGE, vk::ImageUsageFlags::STORAGE.as_raw());
    assert_eq!(
        constants::USAGE_COLOR_ATTACHMENT,
        vk::ImageUsageFlags::COLOR_ATTACHMENT.as_raw()
    );
    assert_eq!(
        constants::USAGE_DEPTH_STENCIL_ATTACHMENT,
        vk::ImageUsageFlags::DEPTH_STENCIL_ATTACHMENT.as_raw()
    );
    assert_eq!(
        constants::USAGE_HOST_TRANSFER,
        vk::ImageUsageFlags::HOST_TRANSFER_EXT.as_raw()
    );
    assert_eq!(constants::FORMAT_R8G8B8A8_UNORM, vk::Format::R8G8B8A8_UNORM.as_raw());
    assert_eq!(constants::FORMAT_R8G8B8A8_SRGB, vk::Format::R8G8B8A8_SRGB.as_raw());
    assert_eq!(constants::FORMAT_B8G8R8A8_UNORM, vk::Format::B8G8R8A8_UNORM.as_raw());
    assert_eq!(constants::FORMAT_B8G8R8A8_SRGB, vk::Format::B8G8R8A8_SRGB.as_raw());
    assert_eq!(constants::FORMAT_D16_UNORM, vk::Format::D16_UNORM.as_raw());
    assert_eq!(constants::FORMAT_D32_SFLOAT, vk::Format::D32_SFLOAT.as_raw());
    assert_eq!(
        constants::FORMAT_D24_UNORM_S8_UINT,
        vk::Format::D24_UNORM_S8_UINT.as_raw()
    );
    assert_eq!(
        constants::TILING_DRM_FORMAT_MODIFIER,
        vk::ImageTiling::DRM_FORMAT_MODIFIER_EXT.as_raw()
    );
    assert_eq!(
        constants::ERROR_OUT_OF_DEVICE_MEMORY,
        vk::Result::ERROR_OUT_OF_DEVICE_MEMORY.as_raw()
    );
    assert_eq!(constants::ERROR_DEVICE_LOST, vk::Result::ERROR_DEVICE_LOST.as_raw());
    assert_eq!(
        constants::ERROR_MEMORY_MAP_FAILED,
        vk::Result::ERROR_MEMORY_MAP_FAILED.as_raw()
    );
}

#[test]
fn test_draw_indirect_buffer_live_device() {
    let mut buf = DrawIndirectBuffer::new(32);

    assert_eq!(buf.len(), 0);
    assert!(buf.is_empty());
    assert_eq!(buf.stride(), 16);

    let command = |first_instance: u32| DrawIndirectCommand {
        vertex_count: 6,
        instance_count: 1,
        first_vertex: 0,
        first_instance,
    };
    buf.write_commands(&vec![command(0), command(1)]);
    assert_eq!(buf.len(), 2);
    assert!(!buf.is_empty());

    buf.push(command(2));
    assert_eq!(buf.len(), 3);

    buf.clear();
    assert_eq!(buf.len(), 0);
    assert!(buf.is_empty());
}

#[test]
fn test_bindless_descriptor_pool_live_device() {
    let bindless_pool = BindlessDescriptorPool::new(128);
    assert_eq!(bindless_pool.max_textures(), 128);
}
