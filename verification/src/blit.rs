//! Frames of the renderer, and copies from one framebuffer to another.

use vstd::prelude::*;

#[allow(unused_imports)]
use crate::barrier::{
    copy_barriers, release_barrier, restored_layout, sampled, sampling_barrier,
};
use crate::barrier::{ImageState, Queues};
use crate::frame::{CopyPlan, FinishPlan, TexturePlan, VulkanFrame};
#[allow(unused_imports)]
use crate::frame::{as_unsigned, draws_texture, whole_screen, with_image, FrameModel};
use crate::geometry::{has_corners, Point, Rectangle, Size, Transform};
#[allow(unused_imports)]
use crate::hdr::tone_maps;
use crate::hdr::{needs_hdr_to_sdr, HdrOutputConfig};
use crate::renderer::{TextureFilter, TimelinePoint, VulkanRenderer};
use crate::request::SourceRect;
use crate::scissors::can_draw;
#[allow(unused_imports)]
use crate::scissors::drawable;
#[allow(unused_imports)]
use crate::softfloat::f64_of_i32;
use crate::softfloat::{f64_from_i32, F32_ONE};
#[allow(unused_imports)]
use crate::vk::LAYOUT_COLOR_ATTACHMENT;
#[allow(unused_imports)]
use crate::nearest::{finite64, law_integers_are_exact, units64};
#[allow(unused_imports)]
use crate::softfloat::two_pow;

verus! {

/// A frame on which nothing has been recorded.
pub open spec fn fresh_frame(
    fb: ImageState,
    queues: Queues,
    size: Size,
    transform: Transform,
    is_blit: bool,
    hdr_to_sdr: Option<HdrOutputConfig>,
    hdr_config: Option<HdrOutputConfig>,
) -> FrameModel {
    FrameModel {
        transform,
        size,
        fb,
        queues,
        images: Seq::empty(),
        has_draws: false,
        active_color_description: None,
        is_blit,
        rendering: false,
        depth_enabled: false,
        current_depth: 0,
        depth_image: None,
        pending_clears: Seq::empty(),
        hdr_to_sdr,
        hdr_config,
    }
}

impl VulkanFrame {
    /// See [`fresh_frame`].
    pub fn new(
        fb: ImageState,
        queues: Queues,
        size: Size,
        transform: Transform,
        is_blit: bool,
        hdr_to_sdr: Option<HdrOutputConfig>,
        hdr_config: Option<HdrOutputConfig>,
    ) -> (frame: Self)
        ensures
            frame.wf(),
            frame@ == fresh_frame(fb, queues, size, transform, is_blit, hdr_to_sdr, hdr_config),
    {
        let frame = VulkanFrame {
            transform,
            size,
            fb,
            queues,
            images: Vec::new(),
            has_draws: false,
            active_color_description: None,
            is_blit,
            rendering: false,
            depth_enabled: false,
            current_depth: 0,
            depth_image: None,
            pending_clears: Vec::new(),
            hdr_to_sdr,
            hdr_config,
        };
        assert(frame@ =~= fresh_frame(
            fb,
            queues,
            size,
            transform,
            is_blit,
            hdr_to_sdr,
            hdr_config,
        ));
        frame
    }
}

/// What is recorded to show part of a framebuffer in another one.
#[derive(Debug)]
pub enum BlitWork {
    Copy(CopyPlan),
    Draw(TexturePlan),
}

/// A blit: the frame it was recorded in, what was recorded, the filter with which the image is
/// sampled, what ends the frame, and what the frame waits for.
#[derive(Debug)]
pub struct BlitPlan {
    pub frame: VulkanFrame,
    pub work: BlitWork,
    pub filter: TextureFilter,
    pub end: FinishPlan,
    pub waits: Vec<TimelinePoint>,
}

/// Size of an image in signed coordinates.
pub open spec fn image_size(image: ImageState) -> Size {
    Size { w: image.width as i32, h: image.height as i32 }
}

/// A rectangle in double precision.
pub open spec fn exact_source(src: Rectangle) -> SourceRect {
    SourceRect {
        x: f64_of_i32(src.loc.x as int) as u64,
        y: f64_of_i32(src.loc.y as int) as u64,
        w: f64_of_i32(src.size.w as int) as u64,
        h: f64_of_i32(src.size.h as int) as u64,
    }
}

/// The coordinates of a blit stay within 32 bits.
pub open spec fn can_blit(src: Rectangle, dst: Rectangle, to: ImageState) -> bool {
    &&& drawable(
        seq![whole_screen(dst.size)],
        dst,
        Transform::Normal,
        image_size(to),
        to.width,
        to.height,
    )
    &&& i32::MIN <= src.loc.x + src.size.w <= i32::MAX
    &&& i32::MIN <= src.loc.y + src.size.h <= i32::MAX
    &&& i32::MIN <= dst.loc.x + dst.size.w <= i32::MAX
    &&& i32::MIN <= dst.loc.y + dst.size.h <= i32::MAX
}

/// The frame of a blit at its start.
pub open spec fn blit_frame(
    to: ImageState,
    queues: Queues,
    tone_map: Option<HdrOutputConfig>,
    hdr_config: Option<HdrOutputConfig>,
) -> FrameModel {
    fresh_frame(to, queues, image_size(to), Transform::Normal, true, tone_map, hdr_config)
}

/// A blit is a copy: the images are copied as they are, and the target is handed over.
pub open spec fn blits_by_copy(
    plan: BlitPlan,
    start: FrameModel,
    from: ImageState,
    src: Rectangle,
    dst: Rectangle,
) -> bool {
    let copied = FrameModel {
        fb: start.fb.acquired(LAYOUT_COLOR_ATTACHMENT),
        images: start.images.push(from.id),
        has_draws: true,
        ..start
    };
    &&& plan.work == BlitWork::Copy(
        CopyPlan {
            end_pass: false,
            barriers: copy_barriers(start.fb, from, start.queues),
            src: src.loc,
            dst: dst.loc,
            width: as_unsigned(src.size.w),
            height: as_unsigned(src.size.h),
        },
    )
    &&& plan.end matches FinishPlan::Submit { pass, end_pass, barrier } && pass is None && !end_pass
        && barrier == release_barrier(copied.fb, start.queues)
    &&& plan.frame@ == FrameModel {
        fb: ImageState { needs_acquire: true, ..copied.fb },
        images: with_image(copied.images, start.fb.id),
        ..copied
    }
}

/// A blit is a draw of the one image into the other, with all of its target damaged.
pub open spec fn blits_by_draw(
    plan: BlitPlan,
    start: FrameModel,
    from: ImageState,
    src: Rectangle,
    dst: Rectangle,
) -> bool {
    let ready = start.after_barrier(from);
    let drawn = ready.in_pass();
    &&& plan.work matches BlitWork::Draw(work) && {
        &&& !work.end_pass
        &&& work.barrier == sampling_barrier(from, start.queues)
        &&& work.pass matches Some(pass) && pass@ == ready.next_pass()
        &&& work.draw matches Some(draw) && draws_texture(
            draw,
            start,
            from,
            exact_source(src),
            dst,
            seq![whole_screen(dst.size)],
            Transform::Normal,
            F32_ONE,
        )
    }
    &&& plan.end matches FinishPlan::Submit { pass, end_pass, barrier } && pass is None && end_pass
        && barrier == release_barrier(drawn.fb, drawn.queues)
    &&& plan.frame@ == FrameModel {
        fb: ImageState { needs_acquire: true, ..drawn.fb },
        rendering: false,
        images: with_image(drawn.images, drawn.fb.id),
        ..drawn
    }
}

impl VulkanRenderer {
    /// Begins a frame, which takes over what there is to wait for.
    pub fn render(&mut self, fb: ImageState, queues: Queues, output_size: Size, dst_transform: Transform) -> (r:
        (VulkanFrame, Vec<TimelinePoint>))
        ensures
            r.0.wf(),
            r.0@ == fresh_frame(
                fb,
                queues,
                output_size,
                dst_transform,
                false,
                None,
                old(self).hdr_config,
            ),
            r.1@ == old(self).pending_waits@,
            final(self).pending_waits@.len() == 0,
            *final(self) == (VulkanRenderer {
                pending_waits: final(self).pending_waits,
                ..*old(self)
            }),
    {
        let waits = self.take_waits();
        let frame = VulkanFrame::new(
            fb,
            queues,
            output_size,
            dst_transform,
            false,
            None,
            self.hdr_config,
        );
        (frame, waits)
    }

    /// Shows part of a framebuffer in another one. An HDR image is tone mapped for a target
    /// that is not HDR while the renderer has an HDR target; else it is copied if it can be,
    /// and drawn if not. Without a view the image cannot be drawn: there is no blit then, and
    /// the filters stay as they were set for it.
    pub fn blit(
        &mut self,
        from: &mut ImageState,
        to: ImageState,
        queues: Queues,
        src: Rectangle,
        dst: Rectangle,
        filter: TextureFilter,
    ) -> (plan: Option<BlitPlan>)
        requires
            can_blit(src, dst, to),
        ensures
            final(self).pending_waits@.len() == 0,
            ({
                let config = old(self).hdr_config;
                let tone_map = tone_maps(old(from).format, to.format, config);
                let start = blit_frame(
                    to,
                    queues,
                    if tone_map {
                        config
                    } else {
                        None
                    },
                    config,
                );
                let copy = !tone_map && start.copies(*old(from), src, dst);
                match plan {
                    Some(plan) => {
                        &&& copy || old(from).has_view
                        &&& plan.filter == filter
                        &&& plan.waits@ == old(self).pending_waits@
                        &&& copy ==> blits_by_copy(plan, start, *old(from), src, dst)
                        &&& copy ==> *final(from) == old(from).acquired(
                            restored_layout(old(from).layout),
                        )
                        &&& !copy ==> blits_by_draw(plan, start, *old(from), src, dst)
                        &&& !copy ==> *final(from) == sampled(*old(from))
                        &&& *final(self) == (VulkanRenderer {
                            pending_waits: final(self).pending_waits,
                            ..*old(self)
                        })
                    },
                    None => {
                        &&& !copy && !old(from).has_view
                        &&& *final(from) == sampled(*old(from))
                        &&& *final(self) == (VulkanRenderer {
                            pending_waits: final(self).pending_waits,
                            downscale_filter: filter,
                            upscale_filter: filter,
                            ..*old(self)
                        })
                    },
                }
            }),
    {
        if needs_hdr_to_sdr(from.format, to.format, self.hdr_config) {
            let config = match self.hdr_config {
                Some(config) => config,
                None => HdrOutputConfig::default(),
            };
            return self.blit_hdr_to_sdr(from, to, queues, src, dst, filter, config);
        }
        let size = Size { w: to.width as i32, h: to.height as i32 };
        let saved_downscale = self.downscale_filter;
        let saved_upscale = self.upscale_filter;
        self.downscale_filter = filter;
        self.upscale_filter = filter;
        let waits = self.take_waits();
        let mut frame = VulkanFrame::new(
            to,
            queues,
            size,
            Transform::Normal,
            true,
            None,
            self.hdr_config,
        );
        let work = if frame.can_copy_image(from, src, dst) {
            BlitWork::Copy(frame.copy_image_from_to(from, src, dst))
        } else {
            match draw_whole(&mut frame, from, src, dst) {
                Some(work) => BlitWork::Draw(work),
                None => return None,
            }
        };
        let filter = self.active_sampler(is_downscaled(&work));
        let end = frame.finish();
        self.downscale_filter = saved_downscale;
        self.upscale_filter = saved_upscale;
        Some(BlitPlan { frame, work, filter, end, waits })
    }

    /// Shows part of an HDR framebuffer in one that is not, tone mapped for the given target.
    pub fn blit_hdr_to_sdr(
        &mut self,
        from: &mut ImageState,
        to: ImageState,
        queues: Queues,
        src: Rectangle,
        dst: Rectangle,
        filter: TextureFilter,
        config: HdrOutputConfig,
    ) -> (plan: Option<BlitPlan>)
        requires
            can_blit(src, dst, to),
        ensures
            final(self).pending_waits@.len() == 0,
            *final(from) == sampled(*old(from)),
            ({
                let start = blit_frame(to, queues, Some(config), old(self).hdr_config);
                match plan {
                    Some(plan) => {
                        &&& old(from).has_view
                        &&& plan.filter == filter
                        &&& plan.waits@ == old(self).pending_waits@
                        &&& blits_by_draw(plan, start, *old(from), src, dst)
                        &&& *final(self) == (VulkanRenderer {
                            pending_waits: final(self).pending_waits,
                            ..*old(self)
                        })
                    },
                    None => {
                        &&& !old(from).has_view
                        &&& *final(self) == (VulkanRenderer {
                            pending_waits: final(self).pending_waits,
                            downscale_filter: filter,
                            upscale_filter: filter,
                            ..*old(self)
                        })
                    },
                }
            }),
    {
        let size = Size { w: to.width as i32, h: to.height as i32 };
        let saved_downscale = self.downscale_filter;
        let saved_upscale = self.upscale_filter;
        self.downscale_filter = filter;
        self.upscale_filter = filter;
        let waits = self.take_waits();
        let mut frame = VulkanFrame::new(
            to,
            queues,
            size,
            Transform::Normal,
            true,
            Some(config),
            self.hdr_config,
        );
        let work = match draw_whole(&mut frame, from, src, dst) {
            Some(work) => BlitWork::Draw(work),
            None => return None,
        };
        let filter = self.active_sampler(is_downscaled(&work));
        let end = frame.finish();
        self.downscale_filter = saved_downscale;
        self.upscale_filter = saved_upscale;
        Some(BlitPlan { frame, work, filter, end, waits })
    }
}

/// Whether an image is shown smaller than it is.
fn is_downscaled(work: &BlitWork) -> (r: bool)
    ensures
        r == (match *work {
            BlitWork::Draw(plan) => plan.draw is Some && plan.draw->Some_0.downscaling,
            BlitWork::Copy(_) => false,
        }),
{
    match work {
        BlitWork::Draw(plan) => match &plan.draw {
            Some(draw) => draw.downscaling,
            None => false,
        },
        BlitWork::Copy(_) => false,
    }
}

/// See [`can_blit`].
pub fn blit_fits(src: Rectangle, dst: Rectangle, to: &ImageState) -> (r: bool)
    ensures
        r == can_blit(src, dst, *to),
{
    let mut damage: Vec<Rectangle> = Vec::new();
    damage.push(Rectangle::from_size(dst.size));
    assert(damage@ =~= seq![whole_screen(dst.size)]);
    let size = Size { w: to.width as i32, h: to.height as i32 };
    can_draw(&damage, dst, Transform::Normal, size, to.width, to.height) && has_corners(&src)
        && has_corners(&dst)
}

/// Draws an image into all of a rectangle of a fresh frame; fails for an image without a
/// view.
fn draw_whole(frame: &mut VulkanFrame, from: &mut ImageState, src: Rectangle, dst: Rectangle) -> (r:
    Option<TexturePlan>)
    requires
        old(frame).wf(),
        !old(frame)@.rendering,
        !old(frame)@.depth_enabled,
        old(frame)@.transform is Normal,
        drawable(
            seq![whole_screen(dst.size)],
            dst,
            Transform::Normal,
            old(frame)@.size,
            old(frame)@.fb.width,
            old(frame)@.fb.height,
        ),
    ensures
        final(frame).wf(),
        final(frame)@ == old(frame)@.after_barrier(*old(from)).in_pass(),
        *final(from) == sampled(*old(from)),
        match r {
            None => !old(from).has_view,
            Some(work) => {
                let ready = old(frame)@.after_barrier(*old(from));
                &&& old(from).has_view
                &&& !work.end_pass
                &&& work.barrier == sampling_barrier(*old(from), old(frame)@.queues)
                &&& work.pass matches Some(pass) && pass@ == ready.next_pass()
                &&& work.draw matches Some(draw) && draws_texture(
                    draw,
                    old(frame)@,
                    *old(from),
                    exact_source(src),
                    dst,
                    seq![whole_screen(dst.size)],
                    Transform::Normal,
                    F32_ONE,
                )
            },
        },
{
    let source = SourceRect {
        x: f64_from_i32(src.loc.x),
        y: f64_from_i32(src.loc.y),
        w: f64_from_i32(src.size.w),
        h: f64_from_i32(src.size.h),
    };
    let mut damage: Vec<Rectangle> = Vec::new();
    damage.push(Rectangle { loc: Point { x: 0, y: 0 }, size: dst.size });
    assert(damage@ =~= seq![whole_screen(dst.size)]);
    match frame.render_texture_from_to(from, source, dst, &damage, Transform::Normal, F32_ONE) {
        Some(work) => {
            if work.draw.is_some() {
                Some(work)
            } else {
                None
            }
        },
        None => None,
    }
}

/// A copy between framebuffers draws the whole source: its rectangle is handed to the shader as
/// numbers that are exactly its own.
pub proof fn law_blit_source_is_exact(src: Rectangle)
    ensures
        ({
            let s = exact_source(src);
            let is = |bits: u64, n: i32| finite64(bits) && units64(bits) == n * two_pow(1074);
            is(s.x, src.loc.x) && is(s.y, src.loc.y) && is(s.w, src.size.w) && is(s.h, src.size.h)
        }),
{
    law_integers_are_exact(src.loc.x);
    law_integers_are_exact(src.loc.y);
    law_integers_are_exact(src.size.w);
    law_integers_are_exact(src.size.h);
}

/// A copy without drawing takes the source's pixels to the target's place, unscaled.
pub proof fn law_blit_copies_pixels(
    plan: BlitPlan,
    start: FrameModel,
    from: ImageState,
    src: Rectangle,
    dst: Rectangle,
)
    requires
        blits_by_copy(plan, start, from, src, dst),
        src.size.w >= 0,
        src.size.h >= 0,
    ensures
        plan.work matches BlitWork::Copy(copy) && copy.src == src.loc && copy.dst == dst.loc
            && copy.width == src.size.w && copy.height == src.size.h
            && copy.barriers.fb_before.image == start.fb.id && copy.barriers.texture_before.image
            == from.id && !copy.end_pass,
        plan.frame@.fb.needs_acquire,
        plan.frame@.images.contains(from.id),
{
    let pushed = start.images.push(from.id);
    assert(pushed[start.images.len() as int] == from.id);
    if with_image(pushed, start.fb.id) != pushed {
        assert(with_image(pushed, start.fb.id)[start.images.len() as int] == from.id);
    }
}

/// A frame starts with nothing drawn: no pass is open, no clear is pending, and it holds on to no
/// images. Only copies between framebuffers are marked as such.
pub proof fn law_frames_start_empty(
    fb: ImageState,
    queues: Queues,
    size: Size,
    transform: Transform,
    is_blit: bool,
    hdr_to_sdr: Option<HdrOutputConfig>,
    hdr_config: Option<HdrOutputConfig>,
    frame: VulkanFrame,
)
    requires
        call_ensures(
            VulkanFrame::new,
            (fb, queues, size, transform, is_blit, hdr_to_sdr, hdr_config),
            frame,
        ),
    ensures
        !frame@.rendering && !frame@.has_draws && !frame@.depth_enabled,
        frame@.images.len() == 0 && frame@.pending_clears.len() == 0,
        frame@.depth_image is None && frame@.active_color_description is None,
        frame@.fb == fb && frame@.queues == queues && frame@.size == size,
        frame@.transform == transform && frame@.is_blit == is_blit,
        frame@.hdr_to_sdr == hdr_to_sdr && frame@.hdr_config == hdr_config,
{
}

} // verus!
