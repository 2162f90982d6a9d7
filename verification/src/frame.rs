//! Recording of a frame: which barriers, passes, clears and draws make it up.
//!
//! A [`VulkanFrame`] keeps what has to be known of the frame; its methods update that and give
//! the plan of what is recorded into the command buffer. Colors and depths are the bits of single
//! precision values.

use vstd::prelude::*;

use crate::barrier::{
    Barrier, CopyBarriers, ImageState, Queues, prepare_copy, prepare_depth, prepare_sampling,
    prepare_target, release_target,
};
#[allow(unused_imports)]
use crate::barrier::{
    copy_barriers, depth_barrier, release_barrier, restored_layout, sampled, sampling_barrier,
    target_barrier,
};
use crate::color32::Color32F;
use crate::description::ImageDescription;
use crate::geometry::{Point, Rectangle, Size, Transform};
use crate::hdr::{HdrOutputConfig, HdrParameters};
#[allow(unused_imports)]
use crate::hdr::{surface_parameters, tonemap_parameters};
use crate::pipelines::PipelineKind;
use crate::request::SourceRect;
use crate::scissors::{Rect2D, calculate_damage_scissors};
#[allow(unused_imports)]
use crate::scissors::{covers_damage, drawable};
use crate::softfloat::{F32_ONE, f32_from_i32, f32_lt, f64_from_i32, f64_lt, f64_to_f32};
#[allow(unused_imports)]
use crate::softfloat::{f32_less, f32_of_f64, f32_of_i32, f64_less, f64_of_i32};
use crate::vk::{
    LAYOUT_COLOR_ATTACHMENT, LAYOUT_UNDEFINED, USAGE_TRANSFER_DST, USAGE_TRANSFER_SRC,
};
#[allow(unused_imports)]
use crate::vk::{LAYOUT_DEPTH_ATTACHMENT, has_bits};

#[allow(unused_imports)]
use crate::geometry::{law_shader_index_counts_turns, mirrors, quarter_turns};
#[allow(unused_imports)]
use crate::nearest::{
    closest32, finite32, finite64, gap, law_integers_become_closest, law_single_precision_is_closest,
    law_single_precision_overflows_late, units32, units64,
};
#[allow(unused_imports)]
use crate::softfloat::two_pow;

verus! {

/// Areas to clear to a color.
#[derive(Debug)]
pub struct PendingClear {
    pub color: Color32F,
    pub rects: Vec<Rect2D>,
}

/// View of [`PendingClear`].
#[verifier::ext_equal]
pub struct ClearModel {
    pub color: Color32F,
    pub rects: Seq<Rect2D>,
}

impl View for PendingClear {
    type V = ClearModel;

    open spec fn view(&self) -> ClearModel {
        ClearModel { color: self.color, rects: self.rects@ }
    }
}

/// Views of a list of clears.
pub open spec fn clear_models(clears: Seq<PendingClear>) -> Seq<ClearModel> {
    clears.map(|_i: int, c: PendingClear| c@)
}

/// What happens to the contents of the framebuffer when a pass begins.
#[derive(Debug, Clone, Copy, PartialEq)]
pub enum LoadOp {
    /// They are kept.
    Load,
    /// They are cleared.
    Clear(Color32F),
    /// They do not matter.
    DontCare,
}

/// The beginning of a rendering pass.
#[derive(Debug)]
pub struct Pass {
    pub barrier: Barrier,
    pub load_op: LoadOp,
    pub width: u32,
    pub height: u32,
    /// Barrier of the depth buffer, which is cleared to 1.
    pub depth: Option<Barrier>,
    /// Clears inside the pass.
    pub clears: Vec<PendingClear>,
}

/// View of [`Pass`].
#[verifier::ext_equal]
pub struct PassModel {
    pub barrier: Barrier,
    pub load_op: LoadOp,
    pub width: u32,
    pub height: u32,
    pub depth: Option<Barrier>,
    pub clears: Seq<ClearModel>,
}

impl View for Pass {
    type V = PassModel;

    open spec fn view(&self) -> PassModel {
        PassModel {
            barrier: self.barrier,
            load_op: self.load_op,
            width: self.width,
            height: self.height,
            depth: self.depth,
            clears: clear_models(self.clears@),
        }
    }
}

/// A frame that is being recorded.
#[derive(Debug)]
pub struct VulkanFrame {
    pub transform: Transform,
    pub size: Size,
    pub fb: ImageState,
    pub queues: Queues,
    /// Images that have to live until the frame is done.
    pub images: Vec<u64>,
    pub has_draws: bool,
    pub active_color_description: Option<ImageDescription>,
    pub is_blit: bool,
    pub rendering: bool,
    pub depth_enabled: bool,
    pub current_depth: u32,
    pub depth_image: Option<ImageState>,
    pub pending_clears: Vec<PendingClear>,
    /// Tone map to an SDR image.
    pub hdr_to_sdr: Option<HdrOutputConfig>,
    /// The HDR target of the renderer.
    pub hdr_config: Option<HdrOutputConfig>,
}

/// View of [`VulkanFrame`].
#[verifier::ext_equal]
pub struct FrameModel {
    pub transform: Transform,
    pub size: Size,
    pub fb: ImageState,
    pub queues: Queues,
    pub images: Seq<u64>,
    pub has_draws: bool,
    pub active_color_description: Option<ImageDescription>,
    pub is_blit: bool,
    pub rendering: bool,
    pub depth_enabled: bool,
    pub current_depth: u32,
    pub depth_image: Option<ImageState>,
    pub pending_clears: Seq<ClearModel>,
    pub hdr_to_sdr: Option<HdrOutputConfig>,
    pub hdr_config: Option<HdrOutputConfig>,
}

impl View for VulkanFrame {
    type V = FrameModel;

    open spec fn view(&self) -> FrameModel {
        FrameModel {
            transform: self.transform,
            size: self.size,
            fb: self.fb,
            queues: self.queues,
            images: self.images@,
            has_draws: self.has_draws,
            active_color_description: self.active_color_description,
            is_blit: self.is_blit,
            rendering: self.rendering,
            depth_enabled: self.depth_enabled,
            current_depth: self.current_depth,
            depth_image: self.depth_image,
            pending_clears: clear_models(self.pending_clears@),
            hdr_to_sdr: self.hdr_to_sdr,
            hdr_config: self.hdr_config,
        }
    }
}

/// The images with one more, if it is not there yet.
pub open spec fn with_image(images: Seq<u64>, id: u64) -> Seq<u64> {
    if images.contains(id) {
        images
    } else {
        images.push(id)
    }
}

fn note_image(images: &mut Vec<u64>, id: u64)
    ensures
        final(images)@ == with_image(old(images)@, id),
{
    let mut i: usize = 0;
    while i < images.len()
        invariant
            i <= images@.len(),
            images@ == old(images)@,
            forall|j: int| 0 <= j < i ==> images@[j] != id,
        decreases images@.len() - i,
    {
        if images[i] == id {
            assert(old(images)@.contains(id)) by {
                assert(old(images)@[i as int] == id);
            }
            return ;
        }
        i = i + 1;
    }
    images.push(id);
}

/// A signed length as the device reads it.
pub open spec fn as_unsigned(n: i32) -> u32 {
    if n < 0 {
        (n + 0x1_0000_0000) as u32
    } else {
        n as u32
    }
}

/// See [`as_unsigned`].
pub fn unsigned(n: i32) -> (r: u32)
    ensures
        r == as_unsigned(n),
{
    if n < 0 {
        (n as i64 + 0x1_0000_0000) as u32
    } else {
        n as u32
    }
}

/// The smaller one.
pub open spec fn lesser(a: u32, b: u32) -> u32 {
    if a < b {
        a
    } else {
        b
    }
}

/// At least one.
pub open spec fn positive(n: u32) -> u32 {
    if n == 0 {
        1
    } else {
        n
    }
}

/// A clear of one rectangle that covers the whole area.
pub open spec fn clears_all(clear: ClearModel, width: u32, height: u32) -> bool {
    &&& clear.rects.len() == 1
    &&& clear.rects[0].offset.x == 0
    &&& clear.rects[0].offset.y == 0
    &&& clear.rects[0].extent.width == width
    &&& clear.rects[0].extent.height == height
}

/// Position of the first clear that covers the whole area.
pub open spec fn first_full_clear(clears: Seq<ClearModel>, width: u32, height: u32) -> Option<int>
    decreases clears.len(),
{
    if clears.len() == 0 {
        None
    } else if first_full_clear(clears.drop_last(), width, height) is Some {
        first_full_clear(clears.drop_last(), width, height)
    } else if clears_all(clears.last(), width, height) {
        Some(clears.len() - 1)
    } else {
        None
    }
}

impl FrameModel {
    /// Size of the rendered area.
    pub open spec fn render_width(self) -> u32 {
        lesser(as_unsigned(self.size.w), self.fb.width)
    }

    /// Size of the rendered area.
    pub open spec fn render_height(self) -> u32 {
        lesser(as_unsigned(self.size.h), self.fb.height)
    }

    /// Size of a depth buffer that has to be created.
    pub open spec fn missing_depth(self) -> Option<(u32, u32)> {
        let width = positive(self.render_width());
        let height = positive(self.render_height());
        if !self.depth_enabled || self.rendering {
            None
        } else {
            match self.depth_image {
                Some(image) if image.width == width && image.height == height => None,
                _ => Some((width, height)),
            }
        }
    }

    /// The pass that begins the rendering.
    pub open spec fn next_pass(self) -> PassModel {
        let full = first_full_clear(
            self.pending_clears,
            self.render_width(),
            self.render_height(),
        );
        PassModel {
            barrier: target_barrier(self.fb, self.queues),
            load_op: match full {
                Some(at) => LoadOp::Clear(self.pending_clears[at].color),
                None => if self.fb.layout == LAYOUT_UNDEFINED {
                    LoadOp::DontCare
                } else {
                    LoadOp::Load
                },
            },
            width: self.render_width(),
            height: self.render_height(),
            depth: if self.depth_enabled {
                match self.depth_image {
                    Some(image) => Some(depth_barrier(image)),
                    None => None,
                }
            } else {
                None
            },
            clears: match full {
                Some(at) => self.pending_clears.remove(at),
                None => self.pending_clears,
            },
        }
    }

    /// The frame after the pass has begun.
    pub open spec fn in_pass(self) -> FrameModel {
        if self.rendering {
            self
        } else {
            FrameModel {
                fb: self.fb.acquired(LAYOUT_COLOR_ATTACHMENT),
                depth_image: if self.depth_enabled {
                    match self.depth_image {
                        Some(image) => Some(
                            ImageState { layout: LAYOUT_DEPTH_ATTACHMENT, ..image },
                        ),
                        None => None,
                    }
                } else {
                    self.depth_image
                },
                rendering: true,
                has_draws: self.has_draws || self.pending_clears.len() > 0,
                pending_clears: seq![],
                ..self
            }
        }
    }

    /// Textures are drawn with the HDR shader: for tone mapping, and whenever the renderer has an
    /// HDR target, except in blits.
    pub open spec fn uses_hdr_shader(self) -> bool {
        self.hdr_to_sdr is Some || (!self.is_blit && self.hdr_config is Some)
    }

    /// Parameters of the HDR shader.
    pub open spec fn hdr_parameters(self) -> HdrParameters {
        match self.hdr_to_sdr {
            Some(config) => tonemap_parameters(config),
            None => surface_parameters(
                match self.hdr_config {
                    Some(config) => config,
                    None => HdrOutputConfig::standard(),
                },
                self.active_color_description,
                self.fb.format,
            ),
        }
    }

    /// Depth at which something is drawn.
    pub open spec fn draw_depth(self) -> u32 {
        if self.depth_enabled {
            self.current_depth
        } else {
            0
        }
    }

    /// A texture can be copied to the framebuffer as it is: the formats and sizes agree, the usages
    /// allow it and both areas lie inside the images.
    pub open spec fn copies(self, texture: ImageState, src: Rectangle, dst: Rectangle) -> bool {
        &&& texture.format == self.fb.format
        &&& src.size == dst.size
        &&& has_bits(texture.usage, USAGE_TRANSFER_SRC)
        &&& has_bits(self.fb.usage, USAGE_TRANSFER_DST)
        &&& src.loc.x >= 0
        &&& src.loc.y >= 0
        &&& dst.loc.x >= 0
        &&& dst.loc.y >= 0
        &&& as_unsigned((src.loc.x + src.size.w) as i32) <= texture.width
        &&& as_unsigned((src.loc.y + src.size.h) as i32) <= texture.height
        &&& as_unsigned((dst.loc.x + dst.size.w) as i32) <= self.fb.width
        &&& as_unsigned((dst.loc.y + dst.size.h) as i32) <= self.fb.height
    }
}

/// The pipeline of the HDR shader for given parameters.
pub open spec fn hdr_pipeline(p: HdrParameters, blend: bool) -> PipelineKind {
    if p.skip_color_transform != 0 {
        if blend {
            PipelineKind::HdrPassthroughBlend
        } else {
            PipelineKind::HdrPassthrough
        }
    } else if p.input_is_pq != 0 && p.target_is_sdr == 0 {
        if blend {
            PipelineKind::HdrPqBlend
        } else {
            PipelineKind::HdrPq
        }
    } else if p.input_is_hlg == 0 && p.input_primaries == 0 && p.target_is_sdr == 0 {
        if blend {
            PipelineKind::HdrSdrBlend
        } else {
            PipelineKind::HdrSdr
        }
    } else {
        if blend {
            PipelineKind::HdrTexBlend
        } else {
            PipelineKind::HdrTex
        }
    }
}

fn choose_hdr_pipeline(p: &HdrParameters, blend: bool) -> (kind: PipelineKind)
    ensures
        kind == hdr_pipeline(*p, blend),
{
    if p.skip_color_transform != 0 {
        if blend {
            PipelineKind::HdrPassthroughBlend
        } else {
            PipelineKind::HdrPassthrough
        }
    } else if p.input_is_pq != 0 && p.target_is_sdr == 0 {
        if blend {
            PipelineKind::HdrPqBlend
        } else {
            PipelineKind::HdrPq
        }
    } else if p.input_is_hlg == 0 && p.input_primaries == 0 && p.target_is_sdr == 0 {
        if blend {
            PipelineKind::HdrSdrBlend
        } else {
            PipelineKind::HdrSdr
        }
    } else {
        if blend {
            PipelineKind::HdrTexBlend
        } else {
            PipelineKind::HdrTex
        }
    }
}

/// Place and size of a rectangle as single precision values.
pub open spec fn rect_words(rect: Rectangle) -> Seq<u32> {
    seq![
        f32_of_i32(rect.loc.x as int) as u32,
        f32_of_i32(rect.loc.y as int) as u32,
        f32_of_i32(rect.size.w as int) as u32,
        f32_of_i32(rect.size.h as int) as u32,
    ]
}

/// Place and size of the shown part of a texture as single precision values.
pub open spec fn source_words(src: SourceRect) -> Seq<u32> {
    seq![
        f32_of_f64(src.x) as u32,
        f32_of_f64(src.y) as u32,
        f32_of_f64(src.w) as u32,
        f32_of_f64(src.h) as u32,
    ]
}

/// Where something is drawn: target, screen size and depth.
pub open spec fn place_words(dst: Rectangle, size: Size, depth: u32) -> Seq<u32> {
    rect_words(dst) + seq![
        f32_of_i32(size.w as int) as u32,
        f32_of_i32(size.h as int) as u32,
        depth,
        0,
    ]
}

/// Push constants of the color shader.
pub open spec fn clear_constants(dst: Rectangle, size: Size, depth: u32, color: Color32F) -> Seq<u32> {
    place_words(dst, size, depth) + seq![color.r, color.g, color.b, color.a]
}

/// What push constants say of a texture, for both texture shaders.
pub open spec fn texture_words(
    dst: Rectangle,
    size: Size,
    depth: u32,
    src: SourceRect,
    transform: Transform,
    alpha: u32,
    has_alpha: bool,
) -> Seq<u32> {
    place_words(dst, size, depth) + source_words(src) + seq![
        transform.shader_index_spec() as u32,
        alpha,
        if has_alpha {
            1
        } else {
            0
        },
    ]
}

/// What push constants of the HDR shader say beside that.
pub open spec fn hdr_words(p: HdrParameters) -> Seq<u32> {
    seq![
        p.reference_white,
        p.sdr_gamma,
        p.gamut_stretch,
        p.max_content_luminance,
        p.max_destination_luminance,
        p.hardware_offload,
        p.target_is_sdr,
        p.input_is_pq,
        p.input_is_hlg,
        p.input_primaries,
        p.skip_color_transform,
        p.content_reference,
        0,
    ]
}

fn make_place_words(dst: &Rectangle, size: &Size, depth: u32) -> (words: Vec<u32>)
    ensures
        words@ == place_words(*dst, *size, depth),
{
    let words: Vec<u32> = vec![
        f32_from_i32(dst.loc.x),
        f32_from_i32(dst.loc.y),
        f32_from_i32(dst.size.w),
        f32_from_i32(dst.size.h),
        f32_from_i32(size.w),
        f32_from_i32(size.h),
        depth,
        0,
    ];
    assert(words@ =~= place_words(*dst, *size, depth));
    words
}

fn make_texture_words(
    dst: &Rectangle,
    size: &Size,
    depth: u32,
    src: &SourceRect,
    transform: Transform,
    alpha: u32,
    has_alpha: bool,
) -> (words: Vec<u32>)
    ensures
        words@ == texture_words(*dst, *size, depth, *src, transform, alpha, has_alpha),
{
    let mut words: Vec<u32> = make_place_words(dst, size, depth);
    words.push(f64_to_f32(src.x));
    words.push(f64_to_f32(src.y));
    words.push(f64_to_f32(src.w));
    words.push(f64_to_f32(src.h));
    words.push(transform.shader_index());
    words.push(alpha);
    words.push(
        if has_alpha {
            1
        } else {
            0
        },
    );
    assert(words@ =~= texture_words(*dst, *size, depth, *src, transform, alpha, has_alpha));
    words
}

/// The draw of a texture.
#[derive(Debug)]
pub struct TextureDraw {
    /// Whether the HDR shader is used, with its layout and descriptors.
    pub hdr: bool,
    /// Whether the texture is shown smaller than it is.
    pub downscaling: bool,
    pub pipeline: PipelineKind,
    pub constants: Vec<u32>,
    pub scissors: Vec<Rect2D>,
}

/// What is recorded to draw a texture.
#[derive(Debug)]
pub struct TexturePlan {
    /// A pass that is under way ends first.
    pub end_pass: bool,
    pub barrier: Option<Barrier>,
    /// A pass begins.
    pub pass: Option<Pass>,
    /// The draw; there is none for an image without a view, which is an error.
    pub draw: Option<TextureDraw>,
}

/// The draw that shows part of a texture in a frame.
pub open spec fn draws_texture(
    draw: TextureDraw,
    frame: FrameModel,
    texture: ImageState,
    src: SourceRect,
    dst: Rectangle,
    damage: Seq<Rectangle>,
    src_transform: Transform,
    alpha: u32,
) -> bool {
    let target = frame.transform.transform_rect_spec(dst, frame.size);
    let blend = texture.has_alpha || f32_less(alpha, F32_ONE);
    let common = texture_words(
        target,
        frame.size,
        frame.draw_depth(),
        src,
        src_transform,
        alpha,
        texture.has_alpha,
    );
    &&& draw.hdr == frame.uses_hdr_shader()
    &&& draw.downscaling == (f64_less(f64_of_i32(target.size.w as int) as u64, src.w) || f64_less(
        f64_of_i32(target.size.h as int) as u64,
        src.h,
    ))
    &&& draw.pipeline == if draw.hdr {
        hdr_pipeline(frame.hdr_parameters(), blend)
    } else if blend {
        PipelineKind::TexBlend
    } else {
        PipelineKind::Tex
    }
    &&& draw.constants@ == if draw.hdr {
        common + hdr_words(frame.hdr_parameters())
    } else {
        common.push(0)
    }
    &&& covers_damage(
        draw.scissors@,
        damage,
        dst,
        frame.transform,
        frame.size,
        frame.fb.width,
        frame.fb.height,
    )
}

/// What is recorded to copy a texture.
#[derive(Debug, Clone, Copy, PartialEq, Eq, Structural)]
pub struct CopyPlan {
    /// A pass that is under way ends first.
    pub end_pass: bool,
    pub barriers: CopyBarriers,
    pub src: Point,
    pub dst: Point,
    pub width: u32,
    pub height: u32,
}

/// How a clear is carried out.
#[derive(Debug)]
pub enum ClearPlan {
    /// There is nothing to clear.
    Nothing,
    /// In the pass that is under way.
    Now(PendingClear),
    /// At the beginning of the next pass.
    Later,
}

/// The draw of a colored rectangle.
#[derive(Debug)]
pub struct ColorPlan {
    pub pass: Option<Pass>,
    pub pipeline: PipelineKind,
    pub constants: Vec<u32>,
    pub scissors: Vec<Rect2D>,
}

/// What ends a frame.
#[derive(Debug)]
pub enum FinishPlan {
    /// Nothing was drawn: the frame is done at once.
    Idle,
    /// The recorded commands are submitted.
    Submit { pass: Option<Pass>, end_pass: bool, barrier: Barrier },
}

/// A rectangle of a size can be turned by any transform on a screen of that size.
fn whole(size: Size) -> (rect: Rectangle)
    ensures
        rect == whole_screen(size),
{
    Rectangle { loc: Point { x: 0, y: 0 }, size }
}

/// The screen as a rectangle.
pub open spec fn whole_screen(size: Size) -> Rectangle {
    Rectangle { loc: Point { x: 0, y: 0 }, size }
}

proof fn lemma_clear_models_remove(clears: Seq<PendingClear>, at: int)
    requires
        0 <= at < clears.len(),
    ensures
        clear_models(clears.remove(at)) == clear_models(clears).remove(at),
{
    assert(clear_models(clears.remove(at)) =~= clear_models(clears).remove(at));
}

proof fn lemma_full_clear_stays(clears: Seq<ClearModel>, width: u32, height: u32, n: int)
    requires
        0 <= n <= clears.len(),
        first_full_clear(clears.take(n), width, height) is Some,
    ensures
        first_full_clear(clears, width, height) == first_full_clear(clears.take(n), width, height),
    decreases clears.len() - n,
{
    if n == clears.len() {
        assert(clears.take(n) =~= clears);
    } else {
        assert(clears.take(n + 1).drop_last() =~= clears.take(n));
        lemma_full_clear_stays(clears, width, height, n + 1);
    }
}

fn find_full_clear(clears: &Vec<PendingClear>, width: u32, height: u32) -> (at: Option<usize>)
    ensures
        match at {
            Some(i) => i < clears@.len() && first_full_clear(clear_models(clears@), width, height)
                == Some(i as int),
            None => first_full_clear(clear_models(clears@), width, height) is None,
        },
{
    let ghost models = clear_models(clears@);
    let mut i: usize = 0;
    assert(models.take(0) =~= seq![]);
    while i < clears.len()
        invariant
            i <= clears.len(),
            models == clear_models(clears@),
            first_full_clear(models.take(i as int), width, height) is None,
        decreases clears.len() - i,
    {
        let clear: &PendingClear = &clears[i];
        proof {
            assert(models[i as int] == clear@);
            assert(models.take(i + 1).last() == clear@);
            assert(models.take(i + 1).drop_last() =~= models.take(i as int));
        }
        if clear.rects.len() == 1 && clear.rects[0].offset.x == 0 && clear.rects[0].offset.y == 0
            && clear.rects[0].extent.width == width && clear.rects[0].extent.height == height {
            proof {
                lemma_full_clear_stays(models, width, height, i + 1);
            }
            return Some(i);
        }
        i = i + 1;
    }
    assert(models.take(i as int) =~= models);
    None
}

impl VulkanFrame {
    /// Clears only wait while no pass is under way.
    pub open spec fn wf(&self) -> bool {
        self.rendering ==> self.pending_clears@.len() == 0
    }

    /// Depth testing can be switched between passes only; returns whether a pass ends.
    pub fn set_depth_enabled(&mut self, enabled: bool) -> (end_pass: bool)
        requires
            old(self).wf(),
        ensures
            final(self).wf(),
            end_pass == (old(self)@.depth_enabled != enabled && old(self)@.rendering),
            final(self)@ == (FrameModel {
                depth_enabled: enabled,
                rendering: old(self)@.rendering && !end_pass,
                ..old(self)@
            }),
    {
        let end_pass: bool = self.depth_enabled != enabled && self.rendering;
        if end_pass {
            self.rendering = false;
        }
        self.depth_enabled = enabled;
        end_pass
    }

    pub fn depth_enabled(&self) -> (r: bool)
        ensures
            r == self@.depth_enabled,
    {
        self.depth_enabled
    }

    pub fn current_depth(&self) -> (depth: u32)
        ensures
            depth == self@.current_depth,
    {
        self.current_depth
    }

    /// Sets the depth of what is drawn next, between 0 and 1.
    pub fn set_current_depth(&mut self, depth: u32)
        requires
            old(self).wf(),
        ensures
            final(self).wf(),
            final(self)@ == (FrameModel {
                current_depth: if f32_less(depth, 0) {
                    0
                } else if f32_less(F32_ONE, depth) {
                    F32_ONE
                } else {
                    depth
                },
                ..old(self)@
            }),
    {
        self.current_depth =
        if f32_lt(depth, 0) {
            0
        } else if f32_lt(F32_ONE, depth) {
            F32_ONE
        } else {
            depth
        };
    }

    /// Sets what is known of the contents that are drawn next.
    pub fn set_surface_color_description(&mut self, desc: Option<ImageDescription>)
        requires
            old(self).wf(),
        ensures
            final(self).wf(),
            final(self)@ == (FrameModel { active_color_description: desc, ..old(self)@ }),
    {
        self.active_color_description = desc;
    }

    /// Ends the pass that is under way; returns whether there is one.
    pub fn end_rendering(&mut self) -> (ended: bool)
        requires
            old(self).wf(),
        ensures
            final(self).wf(),
            ended == old(self)@.rendering,
            final(self)@ == (FrameModel { rendering: false, ..old(self)@ }),
    {
        let ended: bool = self.rendering;
        self.rendering = false;
        ended
    }

    fn render_size(&self) -> (size: (u32, u32))
        ensures
            size == (self@.render_width(), self@.render_height()),
    {
        let w: u32 = unsigned(self.size.w);
        let h: u32 = unsigned(self.size.h);
        (
            if w < self.fb.width {
                w
            } else {
                self.fb.width
            },
            if h < self.fb.height {
                h
            } else {
                self.fb.height
            },
        )
    }

    /// Size of the depth buffer that has to be created before the next pass.
    pub fn missing_depth(&self) -> (size: Option<(u32, u32)>)
        ensures
            size == self@.missing_depth(),
    {
        if !self.depth_enabled || self.rendering {
            return None;
        }
        let (w, h) = self.render_size();
        let width: u32 = if w == 0 {
            1
        } else {
            w
        };
        let height: u32 = if h == 0 {
            1
        } else {
            h
        };
        match self.depth_image {
            Some(image) => if image.width == width && image.height == height {
                None
            } else {
                Some((width, height))
            },
            None => Some((width, height)),
        }
    }

    /// Replaces the depth buffer; the old one lives on until the frame is done.
    pub fn set_depth_image(&mut self, image: ImageState)
        requires
            old(self).wf(),
        ensures
            final(self).wf(),
            final(self)@ == (FrameModel {
                depth_image: Some(image),
                images: match old(self)@.depth_image {
                    Some(before) => with_image(old(self)@.images, before.id),
                    None => old(self)@.images,
                },
                ..old(self)@
            }),
    {
        if let Some(before) = self.depth_image {
            note_image(&mut self.images, before.id);
        }
        self.depth_image = Some(image);
    }

    /// Begins a pass unless one is under way. A clear of the whole area becomes part of its
    /// beginning; the other clears come first in it.
    pub fn ensure_rendering(&mut self) -> (pass: Option<Pass>)
        requires
            old(self).wf(),
            old(self)@.missing_depth() is None,
        ensures
            final(self).wf(),
            final(self)@ == old(self)@.in_pass(),
            match pass {
                Some(pass) => !old(self)@.rendering && pass@ == old(self)@.next_pass(),
                None => old(self)@.rendering,
            },
    {
        if self.rendering {
            return None;
        }
        let undefined: bool = self.fb.layout == LAYOUT_UNDEFINED;
        let barrier: Barrier = prepare_target(&mut self.fb, &self.queues);
        let (width, height) = self.render_size();
        let mut load_op: LoadOp = if undefined {
            LoadOp::DontCare
        } else {
            LoadOp::Load
        };
        let mut clears: Vec<PendingClear> = Vec::new();
        std::mem::swap(&mut clears, &mut self.pending_clears);
        let ghost before = clears@;
        if clears.len() > 0 {
            self.has_draws = true;
        }
        if let Some(at) = find_full_clear(&clears, width, height) {
            let full: PendingClear = clears.remove(at);
            proof {
                lemma_clear_models_remove(before, at as int);
                assert(clear_models(before)[at as int] == before[at as int]@);
            }
            load_op = LoadOp::Clear(full.color);
        }
        let depth: Option<Barrier> = if self.depth_enabled {
            match self.depth_image {
                Some(image) => {
                    let mut prepared: ImageState = image;
                    let barrier: Barrier = prepare_depth(&mut prepared);
                    self.depth_image = Some(prepared);
                    Some(barrier)
                },
                None => None,
            }
        } else {
            None
        };
        self.rendering = true;
        assert(self.pending_clears@.len() == 0);
        assert(clear_models(self.pending_clears@) =~= seq![]);
        assert(clear_models(before).len() == before.len());
        Some(Pass { barrier, load_op, width, height, depth, clears })
    }

    /// Prepares textures for sampling in one go. Returns whether a pass ends for it, and the
    /// barriers.
    pub fn prepare_textures(&mut self, textures: &mut Vec<ImageState>) -> (r: (bool, Vec<Barrier>))
        requires
            old(self).wf(),
        ensures
            final(self).wf(),
            r.1@ == all_barriers(old(textures)@, old(self)@.queues),
            r.0 == (old(self)@.rendering && r.1@.len() > 0),
            final(self)@ == (FrameModel {
                images: with_images(old(self)@.images, old(textures)@),
                rendering: old(self)@.rendering && !r.0,
                ..old(self)@
            }),
            final(textures)@.len() == old(textures)@.len(),
            forall|i: int|
                0 <= i < old(textures)@.len() ==> #[trigger] final(textures)@[i] == sampled(
                    old(textures)@[i],
                ),
    {
        let mut barriers: Vec<Barrier> = Vec::new();
        let mut i: usize = 0;
        let ghost start = textures@;
        let ghost frame = self@;
        assert(start.take(0) =~= seq![]);
        while i < textures.len()
            invariant
                i <= textures@.len() == start.len(),
                self.wf(),
                frame == old(self)@,
                self@ == (FrameModel {
                    images: with_images(frame.images, start.take(i as int)),
                    ..frame
                }),
                barriers@ == all_barriers(start.take(i as int), frame.queues),
                forall|j: int| 0 <= j < i ==> #[trigger] textures@[j] == sampled(start[j]),
                forall|j: int| i <= j < start.len() ==> textures@[j] == start[j],
            decreases textures@.len() - i,
        {
            proof {
                assert(start.take(i + 1).last() == start[i as int]);
                assert(start.take(i + 1).drop_last() =~= start.take(i as int));
            }
            let mut texture: ImageState = textures[i];
            note_image(&mut self.images, texture.id);
            if let Some(barrier) = prepare_sampling(&mut texture, &self.queues) {
                barriers.push(barrier);
            }
            textures.set(i, texture);
            i = i + 1;
        }
        assert(start.take(i as int) =~= start);
        let end_pass: bool = self.rendering && barriers.len() > 0;
        if end_pass {
            self.rendering = false;
        }
        (end_pass, barriers)
    }

    /// Whether a texture can be copied to the framebuffer as it is.
    pub fn can_copy_image(&self, texture: &ImageState, src: Rectangle, dst: Rectangle) -> (r: bool)
        requires
            i32::MIN <= src.loc.x + src.size.w <= i32::MAX,
            i32::MIN <= src.loc.y + src.size.h <= i32::MAX,
            i32::MIN <= dst.loc.x + dst.size.w <= i32::MAX,
            i32::MIN <= dst.loc.y + dst.size.h <= i32::MAX,
        ensures
            r == self@.copies(*texture, src, dst),
    {
        texture.format == self.fb.format && src.size == dst.size && texture.usage
            & USAGE_TRANSFER_SRC == USAGE_TRANSFER_SRC && self.fb.usage & USAGE_TRANSFER_DST
            == USAGE_TRANSFER_DST && src.loc.x >= 0 && src.loc.y >= 0 && dst.loc.x >= 0
            && dst.loc.y >= 0 && unsigned(src.loc.x + src.size.w) <= texture.width && unsigned(
            src.loc.y + src.size.h,
        ) <= texture.height && unsigned(dst.loc.x + dst.size.w) <= self.fb.width && unsigned(
            dst.loc.y + dst.size.h,
        ) <= self.fb.height
    }

    /// Copies part of a texture to the framebuffer.
    pub fn copy_image_from_to(&mut self, texture: &mut ImageState, src: Rectangle, dst: Rectangle) -> (plan:
        CopyPlan)
        requires
            old(self).wf(),
        ensures
            final(self).wf(),
            plan == (CopyPlan {
                end_pass: old(self)@.rendering,
                barriers: copy_barriers(old(self)@.fb, *old(texture), old(self)@.queues),
                src: src.loc,
                dst: dst.loc,
                width: as_unsigned(src.size.w),
                height: as_unsigned(src.size.h),
            }),
            *final(texture) == old(texture).acquired(restored_layout(old(texture).layout)),
            final(self)@ == (FrameModel {
                fb: old(self)@.fb.acquired(LAYOUT_COLOR_ATTACHMENT),
                rendering: false,
                images: old(self)@.images.push(old(texture).id),
                has_draws: true,
                ..old(self)@
            }),
    {
        let end_pass: bool = self.end_rendering();
        let barriers: CopyBarriers = prepare_copy(&mut self.fb, texture, &self.queues);
        self.images.push(texture.id);
        self.has_draws = true;
        CopyPlan {
            end_pass,
            barriers,
            src: src.loc,
            dst: dst.loc,
            width: unsigned(src.size.w),
            height: unsigned(src.size.h),
        }
    }

    /// Clears parts of the screen to a color.
    pub fn clear(&mut self, color: Color32F, at: &Vec<Rectangle>) -> (plan: ClearPlan)
        requires
            old(self).wf(),
            drawable(
                at@,
                whole_screen(old(self)@.size),
                old(self)@.transform,
                old(self)@.size,
                old(self)@.fb.width,
                old(self)@.fb.height,
            ),
        ensures
            final(self).wf(),
            match plan {
                ClearPlan::Nothing => {
                    &&& final(self)@ == old(self)@
                    &&& at@.len() == 0 || covers_damage(
                        seq![],
                        at@,
                        whole_screen(old(self)@.size),
                        old(self)@.transform,
                        old(self)@.size,
                        old(self)@.fb.width,
                        old(self)@.fb.height,
                    )
                },
                ClearPlan::Now(clear) => {
                    &&& old(self)@.rendering
                    &&& at@.len() > 0
                    &&& old(self).clears_area(clear@, color, at@)
                    &&& final(self)@ == (FrameModel { has_draws: true, ..old(self)@ })
                },
                ClearPlan::Later => {
                    &&& !old(self)@.rendering
                    &&& at@.len() > 0
                    &&& final(self)@.pending_clears.len() == old(self)@.pending_clears.len() + 1
                    &&& old(self).clears_area(final(self)@.pending_clears.last(), color, at@)
                    &&& final(self)@ == (FrameModel {
                        pending_clears: old(self)@.pending_clears.push(
                            final(self)@.pending_clears.last(),
                        ),
                        ..old(self)@
                    })
                },
            },
    {
        if at.len() == 0 {
            return ClearPlan::Nothing;
        }
        let rects: Vec<Rect2D> = calculate_damage_scissors(
            at.as_slice(),
            whole(self.size),
            self.transform,
            self.size,
            self.fb.width,
            self.fb.height,
        );
        if rects.len() == 0 {
            assert(rects@ =~= seq![]);
            return ClearPlan::Nothing;
        }
        let clear = PendingClear { color, rects };
        if self.rendering {
            self.has_draws = true;
            ClearPlan::Now(clear)
        } else {
            let ghost before = self.pending_clears@;
            self.pending_clears.push(clear);
            assert(clear_models(self.pending_clears@) =~= clear_models(before).push(clear@));
            ClearPlan::Later
        }
    }

    /// A clear of exactly the damaged pixels, of which there are some.
    pub open spec fn clears_area(&self, clear: ClearModel, color: Color32F, at: Seq<Rectangle>) -> bool {
        &&& clear.color == color
        &&& clear.rects.len() > 0
        &&& covers_damage(
            clear.rects,
            at,
            whole_screen(self.size),
            self.transform,
            self.size,
            self.fb.width,
            self.fb.height,
        )
    }

    /// Draws a rectangle in a color.
    pub fn draw_color(
        &mut self,
        dst: Rectangle,
        damage: &Vec<Rectangle>,
        color: Color32F,
        should_blend: bool,
    ) -> (plan: Option<ColorPlan>)
        requires
            old(self).wf(),
            old(self)@.missing_depth() is None,
            drawable(
                damage@,
                dst,
                old(self)@.transform,
                old(self)@.size,
                old(self)@.fb.width,
                old(self)@.fb.height,
            ),
        ensures
            final(self).wf(),
            match plan {
                None => damage@.len() == 0 && final(self)@ == old(self)@,
                Some(plan) => {
                    &&& damage@.len() > 0
                    &&& final(self)@ == (FrameModel { has_draws: true, ..old(self)@.in_pass() })
                    &&& plan.pass is Some == !old(self)@.rendering
                    &&& plan.pass is Some ==> plan.pass->Some_0@ == old(self)@.next_pass()
                    &&& plan.pipeline == if should_blend && f32_less(color.a, F32_ONE) {
                        PipelineKind::ClearBlend
                    } else {
                        PipelineKind::Clear
                    }
                    &&& plan.constants@ == clear_constants(
                        old(self)@.transform.transform_rect_spec(dst, old(self)@.size),
                        old(self)@.size,
                        old(self)@.draw_depth(),
                        color,
                    )
                    &&& covers_damage(
                        plan.scissors@,
                        damage@,
                        dst,
                        old(self)@.transform,
                        old(self)@.size,
                        old(self)@.fb.width,
                        old(self)@.fb.height,
                    )
                },
            },
    {
        if damage.len() == 0 {
            return None;
        }
        let target: Rectangle = self.transform.transform_rect_in(dst, self.size);
        let pipeline: PipelineKind = if should_blend && f32_lt(color.a, F32_ONE) {
            PipelineKind::ClearBlend
        } else {
            PipelineKind::Clear
        };
        let depth: u32 = if self.depth_enabled {
            self.current_depth
        } else {
            0
        };
        let pass: Option<Pass> = self.ensure_rendering();
        self.has_draws = true;
        let mut constants: Vec<u32> = make_place_words(&target, &self.size, depth);
        constants.push(color.r);
        constants.push(color.g);
        constants.push(color.b);
        constants.push(color.a);
        assert(constants@ =~= clear_constants(target, self.size, depth, color));
        let scissors: Vec<Rect2D> = calculate_damage_scissors(
            damage.as_slice(),
            dst,
            self.transform,
            self.size,
            self.fb.width,
            self.fb.height,
        );
        Some(ColorPlan { pass, pipeline, constants, scissors })
    }

    /// Draws part of a texture.
    pub fn render_texture_from_to(
        &mut self,
        texture: &mut ImageState,
        src: SourceRect,
        dst: Rectangle,
        damage: &Vec<Rectangle>,
        src_transform: Transform,
        alpha: u32,
    ) -> (plan: Option<TexturePlan>)
        requires
            old(self).wf(),
            old(self)@.after_barrier(*old(texture)).missing_depth() is None,
            drawable(
                damage@,
                dst,
                old(self)@.transform,
                old(self)@.size,
                old(self)@.fb.width,
                old(self)@.fb.height,
            ),
        ensures
            final(self).wf(),
            match plan {
                None => {
                    &&& damage@.len() == 0
                    &&& final(self)@ == old(self)@
                    &&& *final(texture) == *old(texture)
                },
                Some(plan) => {
                    let ready = old(self)@.after_barrier(*old(texture));
                    &&& damage@.len() > 0
                    &&& *final(texture) == sampled(*old(texture))
                    &&& plan.barrier == sampling_barrier(*old(texture), old(self)@.queues)
                    &&& plan.end_pass == (old(self)@.rendering && plan.barrier is Some)
                    &&& final(self)@ == ready.in_pass()
                    &&& plan.pass is Some == !ready.rendering
                    &&& plan.pass is Some ==> plan.pass->Some_0@ == ready.next_pass()
                    &&& match plan.draw {
                        None => !old(texture).has_view,
                        Some(draw) => {
                            &&& old(texture).has_view
                            &&& draws_texture(
                                draw,
                                old(self)@,
                                *old(texture),
                                src,
                                dst,
                                damage@,
                                src_transform,
                                alpha,
                            )
                        },
                    }
                },
            },
    {
        if damage.len() == 0 {
            return None;
        }
        let draw: Option<TextureDraw> = if texture.has_view {
            Some(self.make_draw(texture, src, dst, damage, src_transform, alpha))
        } else {
            None
        };
        self.has_draws = true;
        note_image(&mut self.images, texture.id);
        let barrier: Option<Barrier> = prepare_sampling(texture, &self.queues);
        let mut end_pass: bool = false;
        if barrier.is_some() {
            end_pass = self.end_rendering();
        }
        assert(self@ == old(self)@.after_barrier(*old(texture)));
        let pass: Option<Pass> = self.ensure_rendering();
        Some(TexturePlan { end_pass, barrier, pass, draw })
    }

    fn make_draw(
        &self,
        texture: &ImageState,
        src: SourceRect,
        dst: Rectangle,
        damage: &Vec<Rectangle>,
        src_transform: Transform,
        alpha: u32,
    ) -> (draw: TextureDraw)
        requires
            drawable(
                damage@,
                dst,
                self@.transform,
                self@.size,
                self@.fb.width,
                self@.fb.height,
            ),
        ensures
            draws_texture(draw, self@, *texture, src, dst, damage@, src_transform, alpha),
    {
        let target: Rectangle = self.transform.transform_rect_in(dst, self.size);
        let hdr: bool = self.hdr_to_sdr.is_some() || (!self.is_blit && self.hdr_config.is_some());
        let downscaling: bool = f64_lt(f64_from_i32(target.size.w), src.w) || f64_lt(
            f64_from_i32(target.size.h),
            src.h,
        );
        let blend: bool = texture.has_alpha || f32_lt(alpha, F32_ONE);
        let depth: u32 = if self.depth_enabled {
            self.current_depth
        } else {
            0
        };
        let mut constants: Vec<u32> = make_texture_words(
            &target,
            &self.size,
            depth,
            &src,
            src_transform,
            alpha,
            texture.has_alpha,
        );
        let pipeline: PipelineKind = if hdr {
            let p: HdrParameters = self.select_parameters();
            push_parameters(&mut constants, &p);
            choose_hdr_pipeline(&p, blend)
        } else {
            constants.push(0);
            if blend {
                PipelineKind::TexBlend
            } else {
                PipelineKind::Tex
            }
        };
        let scissors: Vec<Rect2D> = calculate_damage_scissors(
            damage.as_slice(),
            dst,
            self.transform,
            self.size,
            self.fb.width,
            self.fb.height,
        );
        TextureDraw { hdr, downscaling, pipeline, constants, scissors }
    }

    fn select_parameters(&self) -> (p: HdrParameters)
        ensures
            p == self@.hdr_parameters(),
    {
        match &self.hdr_to_sdr {
            Some(config) => HdrParameters::for_tonemap(config),
            None => {
                let config: HdrOutputConfig = match self.hdr_config {
                    Some(config) => config,
                    None => HdrOutputConfig::default(),
                };
                HdrParameters::for_surface(
                    &config,
                    self.active_color_description.as_ref(),
                    self.fb.format,
                )
            },
        }
    }

    /// Ends the frame: clears that wait are carried out, and if anything was drawn the
    /// framebuffer is handed over.
    pub fn finish(&mut self) -> (plan: FinishPlan)
        requires
            old(self).wf(),
            old(self)@.pending_clears.len() > 0 ==> old(self)@.missing_depth() is None,
        ensures
            final(self).wf(),
            ({
                let waiting = old(self)@.pending_clears.len() > 0;
                let ready = if waiting {
                    old(self)@.in_pass()
                } else {
                    old(self)@
                };
                match plan {
                    FinishPlan::Idle => {
                        &&& !old(self)@.has_draws && !waiting
                        &&& final(self)@ == old(self)@
                    },
                    FinishPlan::Submit { pass, end_pass, barrier } => {
                        &&& old(self)@.has_draws || waiting
                        &&& pass is Some == waiting
                        &&& waiting ==> pass->Some_0@ == old(self)@.next_pass()
                        &&& end_pass == ready.rendering
                        &&& barrier == release_barrier(ready.fb, ready.queues)
                        &&& final(self)@ == (FrameModel {
                            fb: ImageState { needs_acquire: true, ..ready.fb },
                            rendering: false,
                            images: match ready.depth_image {
                                Some(depth) => with_image(
                                    with_image(ready.images, ready.fb.id),
                                    depth.id,
                                ),
                                None => with_image(ready.images, ready.fb.id),
                            },
                            depth_image: None,
                            ..ready
                        })
                    },
                }
            }),
    {
        let mut pass: Option<Pass> = None;
        if self.pending_clears.len() > 0 {
            pass = self.ensure_rendering();
        }
        if !self.has_draws {
            return FinishPlan::Idle;
        }
        let end_pass: bool = self.end_rendering();
        let barrier: Barrier = release_target(&mut self.fb, &self.queues);
        note_image(&mut self.images, self.fb.id);
        if let Some(depth) = self.depth_image {
            note_image(&mut self.images, depth.id);
        }
        self.depth_image = None;
        FinishPlan::Submit { pass, end_pass, barrier }
    }
}

impl FrameModel {
    /// The frame once a texture is prepared for sampling; the barrier ends a pass.
    pub open spec fn after_barrier(self, texture: ImageState) -> FrameModel {
        FrameModel {
            has_draws: true,
            images: with_image(self.images, texture.id),
            rendering: self.rendering && sampling_barrier(texture, self.queues) is None,
            ..self
        }
    }
}

fn push_parameters(words: &mut Vec<u32>, p: &HdrParameters)
    ensures
        final(words)@ == old(words)@ + hdr_words(*p),
{
    words.push(p.reference_white);
    words.push(p.sdr_gamma);
    words.push(p.gamut_stretch);
    words.push(p.max_content_luminance);
    words.push(p.max_destination_luminance);
    words.push(p.hardware_offload);
    words.push(p.target_is_sdr);
    words.push(p.input_is_pq);
    words.push(p.input_is_hlg);
    words.push(p.input_primaries);
    words.push(p.skip_color_transform);
    words.push(p.content_reference);
    words.push(0);
    assert(words@ =~= old(words)@ + hdr_words(*p));
}

/// The barriers for textures that need one, in order.
pub open spec fn all_barriers(textures: Seq<ImageState>, queues: Queues) -> Seq<Barrier>
    decreases textures.len(),
{
    if textures.len() == 0 {
        seq![]
    } else {
        let before = all_barriers(textures.drop_last(), queues);
        match sampling_barrier(textures.last(), queues) {
            Some(barrier) => before.push(barrier),
            None => before,
        }
    }
}

/// The images with those of some textures.
pub open spec fn with_images(images: Seq<u64>, textures: Seq<ImageState>) -> Seq<u64>
    decreases textures.len(),
{
    if textures.len() == 0 {
        images
    } else {
        with_image(with_images(images, textures.drop_last()), textures.last().id)
    }
}

/// The push constants of the three shaders take 48, 64 and 112 bytes, within the 128 bytes that
/// every device offers.
pub proof fn law_push_constant_sizes(
    dst: Rectangle,
    size: Size,
    depth: u32,
    color: Color32F,
    src: SourceRect,
    transform: Transform,
    alpha: u32,
    has_alpha: bool,
    p: HdrParameters,
)
    ensures
        4 * clear_constants(dst, size, depth, color).len() == 48,
        4 * texture_words(dst, size, depth, src, transform, alpha, has_alpha).push(0).len() == 64,
        4 * (texture_words(dst, size, depth, src, transform, alpha, has_alpha) + hdr_words(
            p,
        )).len() == 112,
{
}

/// A pass that is under way, as a number.
pub open spec fn passes(rendering: bool) -> int {
    if rendering {
        1
    } else {
        0
    }
}

/// Every pass that a texture's barrier ends has been begun, and drawing leaves exactly one pass
/// under way: what was begun less what was ended is what is under way.
pub proof fn law_passes_are_balanced(frame: FrameModel, texture: ImageState)
    ensures
        ({
            let barrier = sampling_barrier(texture, frame.queues);
            let ready = frame.after_barrier(texture);
            let ended = frame.rendering && barrier is Some;
            let begun = !ready.rendering;
            &&& passes(ready.in_pass().rendering) == passes(frame.rendering) - passes(ended)
                + passes(begun)
            &&& passes(ready.in_pass().rendering) == 1
        }),
{
}

/// Once a pass is under way, drawing a prepared texture neither ends it nor needs a barrier.
pub proof fn law_prepared_textures_keep_the_pass(frame: FrameModel, texture: ImageState)
    requires
        frame.rendering,
    ensures
        frame.after_barrier(sampled(texture)).rendering,
        frame.after_barrier(sampled(texture)).in_pass().rendering,
{
}

/// A clear of the whole area before anything is drawn costs no clear command: the pass begins
/// with it, and the contents from before are not loaded.
pub proof fn law_full_clear_begins_the_pass(frame: FrameModel, color: Color32F, rects: Seq<Rect2D>)
    requires
        frame.pending_clears == seq![ClearModel { color, rects }],
        clears_all(ClearModel { color, rects }, frame.render_width(), frame.render_height()),
    ensures
        frame.next_pass().load_op == LoadOp::Clear(color),
        frame.next_pass().clears.len() == 0,
{
    let clears = frame.pending_clears;
    assert(clears.drop_last() =~= seq![]);
    assert(first_full_clear(clears.drop_last(), frame.render_width(), frame.render_height()) is None);
    assert(clears.last() == ClearModel { color, rects });
}

/// The tone mapping pipeline never passes colors through.
pub proof fn law_tonemapping_transforms(frame: FrameModel, blend: bool)
    requires
        frame.hdr_to_sdr is Some,
    ensures
        hdr_pipeline(frame.hdr_parameters(), blend) == if blend {
            PipelineKind::HdrTexBlend
        } else {
            PipelineKind::HdrTex
        },
{
}

/// A word is the single precision value closest to an integer.
pub open spec fn word_of_int(word: u32, n: int) -> bool {
    closest32(word, n * two_pow(149), 1)
}

/// A word is the single precision value closest to a double precision one, unless that is beyond
/// single precision. What is infinite or not a number stays so.
pub open spec fn word_of_double(word: u32, x: u64) -> bool {
    if finite64(x) {
        &&& gap(units64(x), 0) <= units32(0x7f7f_ffff) * two_pow(925) ==> finite32(word)
        &&& finite32(word) ==> closest32(word, units64(x), two_pow(925) as int)
    } else {
        !finite32(word)
    }
}

proof fn lemma_place_words(words: Seq<u32>, dst: Rectangle, size: Size, depth: u32)
    requires
        words.len() >= 8,
        words.take(8) == place_words(dst, size, depth),
    ensures
        word_of_int(words[0], dst.loc.x as int),
        word_of_int(words[1], dst.loc.y as int),
        word_of_int(words[2], dst.size.w as int),
        word_of_int(words[3], dst.size.h as int),
        word_of_int(words[4], size.w as int),
        word_of_int(words[5], size.h as int),
        words[6] == depth,
        words[7] == 0,
{
    let place = place_words(dst, size, depth);
    assert(forall|i: int| 0 <= i < 8 ==> words[i] == #[trigger] words.take(8)[i]);
    law_integers_become_closest(dst.loc.x);
    law_integers_become_closest(dst.loc.y);
    law_integers_become_closest(dst.size.w);
    law_integers_become_closest(dst.size.h);
    law_integers_become_closest(size.w);
    law_integers_become_closest(size.h);
    assert(words[0] == place[0] && words[1] == place[1] && words[2] == place[2] && words[3]
        == place[3] && words[4] == place[4] && words[5] == place[5] && words[6] == place[6]
        && words[7] == place[7]);
}

proof fn lemma_word_of_double(x: u64)
    ensures
        word_of_double(f32_of_f64(x) as u32, x),
{
    if finite64(x) {
        if gap(units64(x), 0) <= units32(0x7f7f_ffff) * two_pow(925) {
            law_single_precision_overflows_late(x);
        }
        if finite32(f32_of_f64(x) as u32) {
            law_single_precision_is_closest(x);
        }
    }
}

/// The push constants of a texture draw say, at the places where the shaders read them: where the
/// transformed target is, how large the screen is, at which depth it is drawn, which part of the
/// texture is shown and how it is turned, and how opaque it is. For the HDR shader the parameters
/// follow.
pub proof fn law_texture_constants_describe_the_draw(
    draw: TextureDraw,
    frame: FrameModel,
    texture: ImageState,
    src: SourceRect,
    dst: Rectangle,
    damage: Seq<Rectangle>,
    src_transform: Transform,
    alpha: u32,
)
    requires
        draws_texture(draw, frame, texture, src, dst, damage, src_transform, alpha),
    ensures
        ({
            let words = draw.constants@;
            let target = frame.transform.transform_rect_spec(dst, frame.size);
            let p = frame.hdr_parameters();
            &&& words.len() == if draw.hdr {
                28int
            } else {
                16int
            }
            &&& word_of_int(words[0], target.loc.x as int)
            &&& word_of_int(words[1], target.loc.y as int)
            &&& word_of_int(words[2], target.size.w as int)
            &&& word_of_int(words[3], target.size.h as int)
            &&& word_of_int(words[4], frame.size.w as int)
            &&& word_of_int(words[5], frame.size.h as int)
            &&& words[6] == if frame.depth_enabled {
                frame.current_depth
            } else {
                0
            }
            &&& words[7] == 0
            &&& word_of_double(words[8], src.x)
            &&& word_of_double(words[9], src.y)
            &&& word_of_double(words[10], src.w)
            &&& word_of_double(words[11], src.h)
            &&& words[12] == quarter_turns(src_transform) + (if mirrors(src_transform) {
                4int
            } else {
                0int
            })
            &&& words[13] == alpha
            &&& words[14] == (if texture.has_alpha {
                1u32
            } else {
                0u32
            })
            &&& draw.hdr ==> words[15] == p.reference_white && words[16] == p.sdr_gamma && words[17]
                == p.gamut_stretch && words[18] == p.max_content_luminance && words[19]
                == p.max_destination_luminance && words[20] == p.hardware_offload && words[21]
                == p.target_is_sdr && words[22] == p.input_is_pq && words[23] == p.input_is_hlg
                && words[24] == p.input_primaries && words[25] == p.skip_color_transform && words[26]
                == p.content_reference && words[27] == 0
            &&& !draw.hdr ==> words[15] == 0
        }),
{
    let words = draw.constants@;
    let target = frame.transform.transform_rect_spec(dst, frame.size);
    let common = texture_words(
        target,
        frame.size,
        frame.draw_depth(),
        src,
        src_transform,
        alpha,
        texture.has_alpha,
    );
    assert(common.len() == 15);
    assert(words.take(8) =~= place_words(target, frame.size, frame.draw_depth()));
    lemma_place_words(words, target, frame.size, frame.draw_depth());
    assert(forall|i: int| 0 <= i < 15 ==> words[i] == #[trigger] common[i]);
    let shown = source_words(src);
    assert(common[8] == shown[0] && common[9] == shown[1] && common[10] == shown[2] && common[11]
        == shown[3]);
    lemma_word_of_double(src.x);
    lemma_word_of_double(src.y);
    lemma_word_of_double(src.w);
    lemma_word_of_double(src.h);
    law_shader_index_counts_turns(src_transform);
    if draw.hdr {
        let more = hdr_words(frame.hdr_parameters());
        assert(forall|i: int| 0 <= i < 13 ==> words[15 + i] == #[trigger] more[i]);
        assert(words[15] == more[0] && words[16] == more[1] && words[17] == more[2] && words[18]
            == more[3] && words[19] == more[4] && words[20] == more[5] && words[21] == more[6]
            && words[22] == more[7] && words[23] == more[8] && words[24] == more[9] && words[25]
            == more[10] && words[26] == more[11] && words[27] == more[12]);
    }
}

/// The push constants of a colored rectangle say where it is and which color it has.
pub proof fn law_color_constants_describe_the_draw(
    dst: Rectangle,
    size: Size,
    depth: u32,
    color: Color32F,
)
    ensures
        ({
            let words = clear_constants(dst, size, depth, color);
            &&& words.len() == 12
            &&& word_of_int(words[0], dst.loc.x as int)
            &&& word_of_int(words[1], dst.loc.y as int)
            &&& word_of_int(words[2], dst.size.w as int)
            &&& word_of_int(words[3], dst.size.h as int)
            &&& word_of_int(words[4], size.w as int)
            &&& word_of_int(words[5], size.h as int)
            &&& words[6] == depth
            &&& words[7] == 0
            &&& words[8] == color.r
            &&& words[9] == color.g
            &&& words[10] == color.b
            &&& words[11] == color.a
        }),
{
    let words = clear_constants(dst, size, depth, color);
    assert(words.take(8) =~= place_words(dst, size, depth));
    lemma_place_words(words, dst, size, depth);
}

/// Something is blended exactly if the texture or the draw is not opaque, whichever shader is
/// used, and the HDR shader is used for tone mapping and for what is drawn to an HDR target.
pub proof fn law_transparency_is_blended(
    draw: TextureDraw,
    frame: FrameModel,
    texture: ImageState,
    src: SourceRect,
    dst: Rectangle,
    damage: Seq<Rectangle>,
    src_transform: Transform,
    alpha: u32,
)
    requires
        draws_texture(draw, frame, texture, src, dst, damage, src_transform, alpha),
    ensures
        ({
            let kind = draw.pipeline;
            let blends = kind is TexBlend || kind is HdrTexBlend || kind is HdrPqBlend
                || kind is HdrSdrBlend || kind is HdrPassthroughBlend;
            let hdr = kind is HdrTex || kind is HdrPq || kind is HdrSdr || kind is HdrPassthrough
                || kind is HdrTexBlend || kind is HdrPqBlend || kind is HdrSdrBlend
                || kind is HdrPassthroughBlend;
            &&& blends <==> texture.has_alpha || f32_less(alpha, 0x3f80_0000)
            &&& draw.hdr == hdr
            &&& !draw.hdr ==> kind is Tex || kind is TexBlend
            &&& frame.hdr_to_sdr is Some ==> draw.hdr
            &&& frame.hdr_to_sdr is None && frame.is_blit ==> !draw.hdr
            &&& frame.hdr_to_sdr is None && !frame.is_blit ==> draw.hdr == (frame.hdr_config
                is Some)
        }),
{
}

/// A pipeline fits the contents: colors are passed through exactly if they need no transform, the
/// PQ pipeline is for PQ contents and the plain one for BT.709 contents that are not HLG, both on
/// an HDR target, and all else goes through the general one.
pub proof fn law_pipeline_fits_the_contents(p: HdrParameters, blend: bool)
    ensures
        ({
            let kind = hdr_pipeline(p, blend);
            let pass = kind is HdrPassthrough || kind is HdrPassthroughBlend;
            let pq = kind is HdrPq || kind is HdrPqBlend;
            let sdr = kind is HdrSdr || kind is HdrSdrBlend;
            let tex = kind is HdrTex || kind is HdrTexBlend;
            &&& pass || pq || sdr || tex
            &&& pass <==> p.skip_color_transform != 0
            &&& pq ==> p.input_is_pq != 0 && p.target_is_sdr == 0
            &&& sdr ==> p.input_is_pq == 0 && p.input_is_hlg == 0 && p.input_primaries == 0
                && p.target_is_sdr == 0
            &&& tex ==> p.target_is_sdr != 0 || (p.input_is_pq == 0 && (p.input_is_hlg != 0
                || p.input_primaries != 0))
            &&& blend <==> kind is HdrPassthroughBlend || kind is HdrPqBlend || kind is HdrSdrBlend
                || kind is HdrTexBlend
        }),
{
}

/// A texture is copied instead of drawn only if every pixel of the source lies in the texture, and
/// its place, shifted but not resized, in the framebuffer.
pub proof fn law_copies_stay_inside(
    frame: FrameModel,
    texture: ImageState,
    src: Rectangle,
    dst: Rectangle,
    x: int,
    y: int,
)
    requires
        frame.copies(texture, src, dst),
        src.in_range(),
        dst.in_range(),
        src.has(x, y),
    ensures
        0 <= x < texture.width,
        0 <= y < texture.height,
        dst.has(x - src.loc.x + dst.loc.x, y - src.loc.y + dst.loc.y),
        0 <= x - src.loc.x + dst.loc.x < frame.fb.width,
        0 <= y - src.loc.y + dst.loc.y < frame.fb.height,
        texture.format == frame.fb.format,
{
}

/// The pass of a frame covers what both the screen and the framebuffer hold. The contents from
/// before are kept unless there are none or all of them are cleared, and no clear is lost.
pub proof fn law_passes_keep_contents(frame: FrameModel, k: int)
    requires
        frame.size.w >= 0,
        frame.size.h >= 0,
    ensures
        ({
            let pass = frame.next_pass();
            &&& pass.width <= frame.size.w && pass.width <= frame.fb.width
            &&& pass.width == frame.size.w || pass.width == frame.fb.width
            &&& pass.height <= frame.size.h && pass.height <= frame.fb.height
            &&& pass.height == frame.size.h || pass.height == frame.fb.height
            &&& pass.load_op is DontCare <==> frame.fb.layout == LAYOUT_UNDEFINED
                && !(pass.load_op is Clear)
            &&& match pass.load_op {
                LoadOp::Clear(color) => {
                    &&& pass.clears.len() + 1 == frame.pending_clears.len()
                    &&& exists|at: int|
                        0 <= at < frame.pending_clears.len() && #[trigger] clears_all(
                            frame.pending_clears[at],
                            pass.width,
                            pass.height,
                        ) && frame.pending_clears[at].color == color
                },
                _ => pass.clears == frame.pending_clears && (0 <= k < frame.pending_clears.len()
                    ==> !clears_all(frame.pending_clears[k], pass.width, pass.height)),
            }
            &&& pass.depth is Some <==> frame.depth_enabled && frame.depth_image is Some
        }),
{
    let clears = frame.pending_clears;
    let (w, h) = (frame.render_width(), frame.render_height());
    lemma_first_full_clear(clears, w, h);
    if let Some(at) = first_full_clear(clears, w, h) {
        assert(clears_all(clears[at], w, h));
    } else if 0 <= k < clears.len() {
        assert(!clears_all(clears[k], w, h));
    }
}

proof fn lemma_first_full_clear(clears: Seq<ClearModel>, width: u32, height: u32)
    ensures
        match first_full_clear(clears, width, height) {
            Some(at) => {
                &&& 0 <= at < clears.len()
                &&& clears_all(clears[at], width, height)
                &&& forall|k: int| 0 <= k < at ==> !clears_all(#[trigger] clears[k], width, height)
            },
            None => forall|k: int|
                0 <= k < clears.len() ==> !clears_all(#[trigger] clears[k], width, height),
        },
    decreases clears.len(),
{
    if clears.len() > 0 {
        let rest = clears.drop_last();
        lemma_first_full_clear(rest, width, height);
        assert(forall|k: int| 0 <= k < rest.len() ==> #[trigger] rest[k] == clears[k]);
        if let Some(at) = first_full_clear(rest, width, height) {
            assert(clears[at] == rest[at]);
            assert forall|k: int| 0 <= k < at implies !clears_all(
                #[trigger] clears[k],
                width,
                height,
            ) by {
                assert(rest[k] == clears[k]);
            }
        } else {
            assert forall|k: int| 0 <= k < rest.len() implies !clears_all(
                #[trigger] clears[k],
                width,
                height,
            ) by {
                assert(rest[k] == clears[k]);
            }
        }
    }
}

} // verus!
