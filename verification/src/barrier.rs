//! Image layouts, ownership of images and the barriers that change them.

use vstd::prelude::*;

use crate::vk::{
    ACCESS_COLOR_ATTACHMENT_READ, ACCESS_COLOR_ATTACHMENT_WRITE, ACCESS_DEPTH_STENCIL_READ,
    ACCESS_DEPTH_STENCIL_WRITE, ACCESS_HOST_WRITE, ACCESS_MEMORY_READ, ACCESS_MEMORY_WRITE,
    ACCESS_NONE, ACCESS_SHADER_SAMPLED_READ, ACCESS_SHADER_STORAGE_WRITE, ACCESS_TRANSFER_READ,
    ACCESS_TRANSFER_WRITE, LAYOUT_COLOR_ATTACHMENT, LAYOUT_DEPTH_ATTACHMENT,
    LAYOUT_SHADER_READ_ONLY, LAYOUT_TRANSFER_DST, LAYOUT_TRANSFER_SRC, LAYOUT_UNDEFINED,
    QUEUE_FAMILY_EXTERNAL, QUEUE_FAMILY_FOREIGN, QUEUE_FAMILY_IGNORED, STAGE_ALL_COMMANDS,
    STAGE_ALL_TRANSFER, STAGE_COLOR_ATTACHMENT_OUTPUT, STAGE_COMPUTE_SHADER,
    STAGE_EARLY_FRAGMENT_TESTS, STAGE_FRAGMENT_SHADER, STAGE_HOST, STAGE_LATE_FRAGMENT_TESTS,
    STAGE_NONE,
};

verus! {

/// What the renderer keeps track of for an image.
#[derive(Debug, Clone, Copy, PartialEq, Eq, Structural)]
pub struct ImageState {
    pub id: u64,
    pub width: u32,
    pub height: u32,
    pub format: i32,
    pub has_alpha: bool,
    pub usage: u32,
    pub layout: i32,
    /// Another device or process owns the contents until they are acquired.
    pub needs_acquire: bool,
    /// The memory can be shared as a dmabuf.
    pub exportable: bool,
    pub has_view: bool,
}

impl ImageState {
    /// The image after a barrier that acquires it in a layout.
    pub open spec fn acquired(self, layout: i32) -> ImageState {
        ImageState { layout, needs_acquire: false, ..self }
    }

    /// A texture that is shared has to be acquired before use.
    pub open spec fn acquires(self) -> bool {
        self.needs_acquire && self.exportable
    }
}

/// A barrier on a whole image.
#[derive(Debug, Clone, Copy, PartialEq, Eq, Structural)]
pub struct Barrier {
    pub image: u64,
    pub old_layout: i32,
    pub new_layout: i32,
    pub src_queue: u32,
    pub dst_queue: u32,
    pub src_stage: u64,
    pub src_access: u64,
    pub dst_stage: u64,
    pub dst_access: u64,
    /// The depth aspect instead of color.
    pub depth: bool,
}

/// The queue families of the renderer and of whoever images are shared with.
#[derive(Debug, Clone, Copy, PartialEq, Eq, Structural)]
pub struct Queues {
    pub own: u32,
    pub external: u32,
}

impl Queues {
    /// Queue families of a barrier that acquires an image or leaves its owner alone.
    pub open spec fn incoming(self, acquire: bool) -> (u32, u32) {
        if acquire {
            (self.external, self.own)
        } else {
            (QUEUE_FAMILY_IGNORED, QUEUE_FAMILY_IGNORED)
        }
    }

    /// See [`Queues::incoming`].
    pub fn incoming_of(&self, acquire: bool) -> (r: (u32, u32))
        ensures
            r == self.incoming(acquire),
    {
        if acquire {
            (self.external, self.own)
        } else {
            (QUEUE_FAMILY_IGNORED, QUEUE_FAMILY_IGNORED)
        }
    }

    /// The family that shared images are released to.
    pub fn external_family(has_foreign: bool) -> (family: u32)
        ensures
            family == if has_foreign {
                QUEUE_FAMILY_FOREIGN
            } else {
                QUEUE_FAMILY_EXTERNAL
            },
    {
        if has_foreign {
            QUEUE_FAMILY_FOREIGN
        } else {
            QUEUE_FAMILY_EXTERNAL
        }
    }
}

/// What may still write to a texture, or read it, before it is sampled.
pub open spec fn sampling_waits(acquire: bool, layout: i32) -> (u64, u64) {
    if acquire || layout == LAYOUT_UNDEFINED {
        (STAGE_NONE, ACCESS_NONE)
    } else if layout == LAYOUT_SHADER_READ_ONLY {
        (STAGE_FRAGMENT_SHADER, ACCESS_SHADER_SAMPLED_READ)
    } else {
        (
            STAGE_COMPUTE_SHADER | STAGE_ALL_TRANSFER | STAGE_COLOR_ATTACHMENT_OUTPUT | STAGE_HOST,
            ACCESS_SHADER_STORAGE_WRITE | ACCESS_TRANSFER_WRITE | ACCESS_COLOR_ATTACHMENT_WRITE
                | ACCESS_HOST_WRITE,
        )
    }
}

/// The barrier before a texture is sampled, if one is needed.
pub open spec fn sampling_barrier(texture: ImageState, queues: Queues) -> Option<Barrier> {
    let acquire = texture.acquires();
    if acquire || texture.layout != LAYOUT_SHADER_READ_ONLY {
        Some(
            Barrier {
                image: texture.id,
                old_layout: texture.layout,
                new_layout: LAYOUT_SHADER_READ_ONLY,
                src_queue: queues.incoming(acquire).0,
                dst_queue: queues.incoming(acquire).1,
                src_stage: sampling_waits(acquire, texture.layout).0,
                src_access: sampling_waits(acquire, texture.layout).1,
                dst_stage: STAGE_FRAGMENT_SHADER,
                dst_access: ACCESS_SHADER_SAMPLED_READ,
                depth: false,
            },
        )
    } else {
        None
    }
}

/// The texture after it was prepared for sampling.
pub open spec fn sampled(texture: ImageState) -> ImageState {
    if texture.acquires() || texture.layout != LAYOUT_SHADER_READ_ONLY {
        texture.acquired(LAYOUT_SHADER_READ_ONLY)
    } else {
        texture
    }
}

/// Prepares a texture for sampling.
pub fn prepare_sampling(texture: &mut ImageState, queues: &Queues) -> (barrier: Option<Barrier>)
    ensures
        barrier == sampling_barrier(*old(texture), *queues),
        *final(texture) == sampled(*old(texture)),
{
    let acquire: bool = texture.needs_acquire && texture.exportable;
    if !acquire && texture.layout == LAYOUT_SHADER_READ_ONLY {
        return None;
    }
    let (src_queue, dst_queue) = queues.incoming_of(acquire);
    let (src_stage, src_access) = if acquire || texture.layout == LAYOUT_UNDEFINED {
        (STAGE_NONE, ACCESS_NONE)
    } else if texture.layout == LAYOUT_SHADER_READ_ONLY {
        (STAGE_FRAGMENT_SHADER, ACCESS_SHADER_SAMPLED_READ)
    } else {
        (
            STAGE_COMPUTE_SHADER | STAGE_ALL_TRANSFER | STAGE_COLOR_ATTACHMENT_OUTPUT | STAGE_HOST,
            ACCESS_SHADER_STORAGE_WRITE | ACCESS_TRANSFER_WRITE | ACCESS_COLOR_ATTACHMENT_WRITE
                | ACCESS_HOST_WRITE,
        )
    };
    let barrier = Barrier {
        image: texture.id,
        old_layout: texture.layout,
        new_layout: LAYOUT_SHADER_READ_ONLY,
        src_queue,
        dst_queue,
        src_stage,
        src_access,
        dst_stage: STAGE_FRAGMENT_SHADER,
        dst_access: ACCESS_SHADER_SAMPLED_READ,
        depth: false,
    };
    texture.layout = LAYOUT_SHADER_READ_ONLY;
    texture.needs_acquire = false;
    Some(barrier)
}

/// What may still write to a framebuffer before it is rendered to.
pub open spec fn target_waits(acquire: bool, layout: i32) -> (u64, u64) {
    if acquire || layout == LAYOUT_UNDEFINED {
        (STAGE_NONE, ACCESS_NONE)
    } else if layout == LAYOUT_COLOR_ATTACHMENT {
        (STAGE_COLOR_ATTACHMENT_OUTPUT, ACCESS_COLOR_ATTACHMENT_WRITE)
    } else {
        (
            STAGE_ALL_TRANSFER | STAGE_COMPUTE_SHADER,
            ACCESS_TRANSFER_WRITE | ACCESS_SHADER_STORAGE_WRITE,
        )
    }
}

/// The barrier before a framebuffer is rendered to.
pub open spec fn target_barrier(fb: ImageState, queues: Queues) -> Barrier {
    Barrier {
        image: fb.id,
        old_layout: fb.layout,
        new_layout: LAYOUT_COLOR_ATTACHMENT,
        src_queue: queues.incoming(fb.needs_acquire).0,
        dst_queue: queues.incoming(fb.needs_acquire).1,
        src_stage: target_waits(fb.needs_acquire, fb.layout).0,
        src_access: target_waits(fb.needs_acquire, fb.layout).1,
        dst_stage: STAGE_COLOR_ATTACHMENT_OUTPUT,
        dst_access: ACCESS_COLOR_ATTACHMENT_READ | ACCESS_COLOR_ATTACHMENT_WRITE,
        depth: false,
    }
}

/// Prepares a framebuffer for rendering.
pub fn prepare_target(fb: &mut ImageState, queues: &Queues) -> (barrier: Barrier)
    ensures
        barrier == target_barrier(*old(fb), *queues),
        *final(fb) == old(fb).acquired(LAYOUT_COLOR_ATTACHMENT),
{
    let acquire: bool = fb.needs_acquire;
    let (src_queue, dst_queue) = queues.incoming_of(acquire);
    let (src_stage, src_access) = if acquire || fb.layout == LAYOUT_UNDEFINED {
        (STAGE_NONE, ACCESS_NONE)
    } else if fb.layout == LAYOUT_COLOR_ATTACHMENT {
        (STAGE_COLOR_ATTACHMENT_OUTPUT, ACCESS_COLOR_ATTACHMENT_WRITE)
    } else {
        (
            STAGE_ALL_TRANSFER | STAGE_COMPUTE_SHADER,
            ACCESS_TRANSFER_WRITE | ACCESS_SHADER_STORAGE_WRITE,
        )
    };
    let barrier = Barrier {
        image: fb.id,
        old_layout: fb.layout,
        new_layout: LAYOUT_COLOR_ATTACHMENT,
        src_queue,
        dst_queue,
        src_stage,
        src_access,
        dst_stage: STAGE_COLOR_ATTACHMENT_OUTPUT,
        dst_access: ACCESS_COLOR_ATTACHMENT_READ | ACCESS_COLOR_ATTACHMENT_WRITE,
        depth: false,
    };
    fb.layout = LAYOUT_COLOR_ATTACHMENT;
    fb.needs_acquire = false;
    barrier
}

/// The barrier before a depth buffer is used; its old contents do not matter.
pub open spec fn depth_barrier(image: ImageState) -> Barrier {
    Barrier {
        image: image.id,
        old_layout: image.layout,
        new_layout: LAYOUT_DEPTH_ATTACHMENT,
        src_queue: 0,
        dst_queue: 0,
        src_stage: STAGE_NONE,
        src_access: ACCESS_NONE,
        dst_stage: STAGE_EARLY_FRAGMENT_TESTS | STAGE_LATE_FRAGMENT_TESTS,
        dst_access: ACCESS_DEPTH_STENCIL_WRITE | ACCESS_DEPTH_STENCIL_READ,
        depth: true,
    }
}

/// Prepares a depth buffer.
pub fn prepare_depth(image: &mut ImageState) -> (barrier: Barrier)
    ensures
        barrier == depth_barrier(*old(image)),
        *final(image) == (ImageState { layout: LAYOUT_DEPTH_ATTACHMENT, ..*old(image) }),
{
    let barrier = Barrier {
        image: image.id,
        old_layout: image.layout,
        new_layout: LAYOUT_DEPTH_ATTACHMENT,
        src_queue: 0,
        dst_queue: 0,
        src_stage: STAGE_NONE,
        src_access: ACCESS_NONE,
        dst_stage: STAGE_EARLY_FRAGMENT_TESTS | STAGE_LATE_FRAGMENT_TESTS,
        dst_access: ACCESS_DEPTH_STENCIL_WRITE | ACCESS_DEPTH_STENCIL_READ,
        depth: true,
    };
    image.layout = LAYOUT_DEPTH_ATTACHMENT;
    barrier
}

/// The barrier that hands a finished framebuffer over. It keeps its layout, so that compressed
/// contents stay compressed.
pub open spec fn release_barrier(fb: ImageState, queues: Queues) -> Barrier {
    let drawn = fb.layout == LAYOUT_COLOR_ATTACHMENT;
    Barrier {
        image: fb.id,
        old_layout: fb.layout,
        new_layout: fb.layout,
        src_queue: queues.own,
        dst_queue: queues.external,
        src_stage: if drawn {
            STAGE_COLOR_ATTACHMENT_OUTPUT
        } else {
            STAGE_ALL_TRANSFER
        },
        src_access: if drawn {
            ACCESS_COLOR_ATTACHMENT_WRITE
        } else {
            ACCESS_TRANSFER_WRITE
        },
        dst_stage: STAGE_ALL_COMMANDS,
        dst_access: ACCESS_NONE,
        depth: false,
    }
}

/// Hands a framebuffer over.
pub fn release_target(fb: &mut ImageState, queues: &Queues) -> (barrier: Barrier)
    ensures
        barrier == release_barrier(*old(fb), *queues),
        *final(fb) == (ImageState { needs_acquire: true, ..*old(fb) }),
{
    let drawn: bool = fb.layout == LAYOUT_COLOR_ATTACHMENT;
    let (src_stage, src_access) = if drawn {
        (STAGE_COLOR_ATTACHMENT_OUTPUT, ACCESS_COLOR_ATTACHMENT_WRITE)
    } else {
        (STAGE_ALL_TRANSFER, ACCESS_TRANSFER_WRITE)
    };
    let barrier = Barrier {
        image: fb.id,
        old_layout: fb.layout,
        new_layout: fb.layout,
        src_queue: queues.own,
        dst_queue: queues.external,
        src_stage,
        src_access,
        dst_stage: STAGE_ALL_COMMANDS,
        dst_access: ACCESS_NONE,
        depth: false,
    };
    fb.needs_acquire = true;
    barrier
}

/// What may still write to a framebuffer before something is copied into it.
pub open spec fn copy_target_waits(acquire: bool, layout: i32) -> (u64, u64) {
    if acquire || layout == LAYOUT_UNDEFINED {
        (STAGE_NONE, ACCESS_NONE)
    } else if layout == LAYOUT_COLOR_ATTACHMENT {
        (STAGE_COLOR_ATTACHMENT_OUTPUT, ACCESS_COLOR_ATTACHMENT_WRITE)
    } else {
        (
            STAGE_ALL_TRANSFER | STAGE_COLOR_ATTACHMENT_OUTPUT,
            ACCESS_TRANSFER_WRITE | ACCESS_COLOR_ATTACHMENT_WRITE,
        )
    }
}

/// What may still use a texture before it is copied from.
pub open spec fn copy_source_waits(acquire: bool, layout: i32) -> (u64, u64) {
    if acquire || layout == LAYOUT_UNDEFINED {
        (STAGE_NONE, ACCESS_NONE)
    } else if layout == LAYOUT_COLOR_ATTACHMENT {
        (STAGE_COLOR_ATTACHMENT_OUTPUT, ACCESS_COLOR_ATTACHMENT_WRITE)
    } else if layout == LAYOUT_SHADER_READ_ONLY {
        (STAGE_FRAGMENT_SHADER, ACCESS_SHADER_SAMPLED_READ)
    } else {
        (
            STAGE_ALL_TRANSFER | STAGE_COLOR_ATTACHMENT_OUTPUT,
            ACCESS_TRANSFER_READ | ACCESS_TRANSFER_WRITE | ACCESS_COLOR_ATTACHMENT_WRITE,
        )
    }
}

/// The layout that a texture has after it was copied from.
pub open spec fn restored_layout(layout: i32) -> i32 {
    if layout == LAYOUT_UNDEFINED {
        LAYOUT_SHADER_READ_ONLY
    } else {
        layout
    }
}

/// The barriers around a copy of a texture into a framebuffer.
#[derive(Debug, Clone, Copy, PartialEq, Eq, Structural)]
pub struct CopyBarriers {
    pub fb_before: Barrier,
    pub texture_before: Barrier,
    pub fb_after: Barrier,
    pub texture_after: Barrier,
}

/// See [`CopyBarriers`].
pub open spec fn copy_barriers(fb: ImageState, texture: ImageState, queues: Queues) -> CopyBarriers {
    CopyBarriers {
        fb_before: Barrier {
            image: fb.id,
            old_layout: fb.layout,
            new_layout: LAYOUT_TRANSFER_DST,
            src_queue: queues.incoming(fb.needs_acquire).0,
            dst_queue: queues.incoming(fb.needs_acquire).1,
            src_stage: copy_target_waits(fb.needs_acquire, fb.layout).0,
            src_access: copy_target_waits(fb.needs_acquire, fb.layout).1,
            dst_stage: STAGE_ALL_TRANSFER,
            dst_access: ACCESS_TRANSFER_WRITE,
            depth: false,
        },
        texture_before: Barrier {
            image: texture.id,
            old_layout: texture.layout,
            new_layout: LAYOUT_TRANSFER_SRC,
            src_queue: queues.incoming(texture.acquires()).0,
            dst_queue: queues.incoming(texture.acquires()).1,
            src_stage: copy_source_waits(texture.acquires(), texture.layout).0,
            src_access: copy_source_waits(texture.acquires(), texture.layout).1,
            dst_stage: STAGE_ALL_TRANSFER,
            dst_access: ACCESS_TRANSFER_READ,
            depth: false,
        },
        fb_after: Barrier {
            image: fb.id,
            old_layout: LAYOUT_TRANSFER_DST,
            new_layout: LAYOUT_COLOR_ATTACHMENT,
            src_queue: QUEUE_FAMILY_IGNORED,
            dst_queue: QUEUE_FAMILY_IGNORED,
            src_stage: STAGE_ALL_TRANSFER,
            src_access: ACCESS_TRANSFER_WRITE,
            dst_stage: STAGE_COLOR_ATTACHMENT_OUTPUT,
            dst_access: ACCESS_COLOR_ATTACHMENT_READ | ACCESS_COLOR_ATTACHMENT_WRITE,
            depth: false,
        },
        texture_after: Barrier {
            image: texture.id,
            old_layout: LAYOUT_TRANSFER_SRC,
            new_layout: restored_layout(texture.layout),
            src_queue: QUEUE_FAMILY_IGNORED,
            dst_queue: QUEUE_FAMILY_IGNORED,
            src_stage: STAGE_ALL_TRANSFER,
            src_access: ACCESS_TRANSFER_READ,
            dst_stage: STAGE_ALL_COMMANDS,
            dst_access: ACCESS_MEMORY_READ | ACCESS_MEMORY_WRITE,
            depth: false,
        },
    }
}

/// Prepares a copy of a texture into a framebuffer.
pub fn prepare_copy(fb: &mut ImageState, texture: &mut ImageState, queues: &Queues) -> (barriers:
    CopyBarriers)
    ensures
        barriers == copy_barriers(*old(fb), *old(texture), *queues),
        *final(fb) == old(fb).acquired(LAYOUT_COLOR_ATTACHMENT),
        *final(texture) == old(texture).acquired(restored_layout(old(texture).layout)),
{
    let fb_acquire: bool = fb.needs_acquire;
    let (fb_src_queue, fb_dst_queue) = queues.incoming_of(fb_acquire);
    let (fb_stage, fb_access) = if fb_acquire || fb.layout == LAYOUT_UNDEFINED {
        (STAGE_NONE, ACCESS_NONE)
    } else if fb.layout == LAYOUT_COLOR_ATTACHMENT {
        (STAGE_COLOR_ATTACHMENT_OUTPUT, ACCESS_COLOR_ATTACHMENT_WRITE)
    } else {
        (
            STAGE_ALL_TRANSFER | STAGE_COLOR_ATTACHMENT_OUTPUT,
            ACCESS_TRANSFER_WRITE | ACCESS_COLOR_ATTACHMENT_WRITE,
        )
    };
    let acquire: bool = texture.needs_acquire && texture.exportable;
    let (src_queue, dst_queue) = queues.incoming_of(acquire);
    let (stage, access) = if acquire || texture.layout == LAYOUT_UNDEFINED {
        (STAGE_NONE, ACCESS_NONE)
    } else if texture.layout == LAYOUT_COLOR_ATTACHMENT {
        (STAGE_COLOR_ATTACHMENT_OUTPUT, ACCESS_COLOR_ATTACHMENT_WRITE)
    } else if texture.layout == LAYOUT_SHADER_READ_ONLY {
        (STAGE_FRAGMENT_SHADER, ACCESS_SHADER_SAMPLED_READ)
    } else {
        (
            STAGE_ALL_TRANSFER | STAGE_COLOR_ATTACHMENT_OUTPUT,
            ACCESS_TRANSFER_READ | ACCESS_TRANSFER_WRITE | ACCESS_COLOR_ATTACHMENT_WRITE,
        )
    };
    let restored: i32 = if texture.layout == LAYOUT_UNDEFINED {
        LAYOUT_SHADER_READ_ONLY
    } else {
        texture.layout
    };
    let barriers = CopyBarriers {
        fb_before: Barrier {
            image: fb.id,
            old_layout: fb.layout,
            new_layout: LAYOUT_TRANSFER_DST,
            src_queue: fb_src_queue,
            dst_queue: fb_dst_queue,
            src_stage: fb_stage,
            src_access: fb_access,
            dst_stage: STAGE_ALL_TRANSFER,
            dst_access: ACCESS_TRANSFER_WRITE,
            depth: false,
        },
        texture_before: Barrier {
            image: texture.id,
            old_layout: texture.layout,
            new_layout: LAYOUT_TRANSFER_SRC,
            src_queue,
            dst_queue,
            src_stage: stage,
            src_access: access,
            dst_stage: STAGE_ALL_TRANSFER,
            dst_access: ACCESS_TRANSFER_READ,
            depth: false,
        },
        fb_after: Barrier {
            image: fb.id,
            old_layout: LAYOUT_TRANSFER_DST,
            new_layout: LAYOUT_COLOR_ATTACHMENT,
            src_queue: QUEUE_FAMILY_IGNORED,
            dst_queue: QUEUE_FAMILY_IGNORED,
            src_stage: STAGE_ALL_TRANSFER,
            src_access: ACCESS_TRANSFER_WRITE,
            dst_stage: STAGE_COLOR_ATTACHMENT_OUTPUT,
            dst_access: ACCESS_COLOR_ATTACHMENT_READ | ACCESS_COLOR_ATTACHMENT_WRITE,
            depth: false,
        },
        texture_after: Barrier {
            image: texture.id,
            old_layout: LAYOUT_TRANSFER_SRC,
            new_layout: restored,
            src_queue: QUEUE_FAMILY_IGNORED,
            dst_queue: QUEUE_FAMILY_IGNORED,
            src_stage: STAGE_ALL_TRANSFER,
            src_access: ACCESS_TRANSFER_READ,
            dst_stage: STAGE_ALL_COMMANDS,
            dst_access: ACCESS_MEMORY_READ | ACCESS_MEMORY_WRITE,
            depth: false,
        },
    };
    fb.needs_acquire = false;
    fb.layout = LAYOUT_COLOR_ATTACHMENT;
    texture.needs_acquire = false;
    texture.layout = restored;
    barriers
}

/// Preparing a texture for sampling a second time needs no barrier.
pub proof fn law_sampling_is_prepared_once(texture: ImageState, queues: Queues)
    ensures
        sampling_barrier(sampled(texture), queues) is None,
        sampled(sampled(texture)) == sampled(texture),
{
}

/// A framebuffer that was handed over is taken back, before it is rendered to again, by the
/// barrier that mirrors the hand-over: from the same layout, with the queue families swapped,
/// and without waiting for work of its own.
pub proof fn law_release_is_acquired_back(fb: ImageState, queues: Queues)
    ensures
        ({
            let out = release_barrier(fb, queues);
            let back = target_barrier(ImageState { needs_acquire: true, ..fb }, queues);
            &&& back.old_layout == out.new_layout
            &&& back.src_queue == out.dst_queue
            &&& back.dst_queue == out.src_queue
            &&& back.src_stage == STAGE_NONE
        }),
{
}

/// Every barrier around a copy starts from the layout in which the previous one leaves the
/// image, and the first from the layout that the image has.
pub proof fn law_copy_layouts_chain(fb: ImageState, texture: ImageState, queues: Queues)
    ensures
        ({
            let b = copy_barriers(fb, texture, queues);
            &&& b.fb_before.old_layout == fb.layout
            &&& b.fb_after.old_layout == b.fb_before.new_layout
            &&& b.texture_before.old_layout == texture.layout
            &&& b.texture_after.old_layout == b.texture_before.new_layout
            &&& texture.layout != LAYOUT_UNDEFINED ==> b.texture_after.new_layout
                == texture.layout
        }),
{
}

/// A use of an image waits for all that the image's layout says was done to it before: for drawing
/// to it, for copies into it, and for shaders and the host that write to it. An image that comes
/// from elsewhere, or has no contents, waits for nothing.
pub open spec fn waits_for(barrier: Barrier, stages: u64, accesses: u64) -> bool {
    barrier.src_stage & stages == stages && barrier.src_access & accesses == accesses
}

/// Ownership of an image is taken over from the outside exactly if it was handed there.
pub open spec fn takes_over(barrier: Barrier, queues: Queues, acquire: bool) -> bool {
    if acquire {
        barrier.src_queue == queues.external && barrier.dst_queue == queues.own
    } else {
        barrier.src_queue == 0xffff_ffff && barrier.dst_queue == 0xffff_ffff
    }
}

/// Sampling from a texture: it ends up readable by shaders, the fragment shader waits, and writes
/// by drawing, copying, compute shaders and the host are waited for.
pub proof fn law_sampling_waits_for_writes(texture: ImageState, queues: Queues)
    ensures
        sampling_barrier(texture, queues) is None <==> texture.layout == 5 && !(
        texture.needs_acquire && texture.exportable),
        sampled(texture).layout == 5,
        sampled(texture).id == texture.id,
        sampling_barrier(texture, queues) matches Some(b) ==> {
            &&& b.image == texture.id
            &&& b.old_layout == texture.layout && b.new_layout == 5
            &&& takes_over(b, queues, texture.needs_acquire && texture.exportable)
            &&& b.dst_stage == 0x80 && b.dst_access == 0x1_0000_0000
            &&& (texture.layout == 0 || texture.needs_acquire && texture.exportable)
                ==> b.src_stage == 0 && b.src_access == 0
            &&& texture.layout != 0 && !(texture.needs_acquire && texture.exportable) ==> waits_for(
                b,
                0x400u64 | 0x1000u64 | 0x800u64 | 0x4000u64,
                0x100u64 | 0x1000u64 | 0x4_0000_0000u64 | 0x4000u64,
            )
            &&& !b.depth
        },
{
    lemma_waits();
}

/// Drawing to a target: it ends up an attachment, drawing to it waits, and what drew or copied to
/// it before is waited for. Depth images are prepared for tests and have no contents to wait for.
pub proof fn law_drawing_waits_for_writes(fb: ImageState, queues: Queues)
    ensures
        ({
            let b = target_barrier(fb, queues);
            &&& b.image == fb.id && b.old_layout == fb.layout && b.new_layout == 2
            &&& takes_over(b, queues, fb.needs_acquire)
            &&& b.dst_stage == 0x400 && b.dst_access & 0x180 == 0x180
            &&& fb.layout == 0 || fb.needs_acquire ==> b.src_stage == 0 && b.src_access == 0
            &&& fb.layout == 2 && !fb.needs_acquire ==> waits_for(b, 0x400, 0x100)
            &&& fb.layout != 0 && fb.layout != 2 && !fb.needs_acquire ==> waits_for(
                b,
                0x1000u64 | 0x800u64,
                0x1000u64 | 0x4_0000_0000u64,
            )
            &&& !b.depth
        }),
        ({
            let d = depth_barrier(fb);
            &&& d.image == fb.id && d.old_layout == fb.layout && d.new_layout == 1_000_241_000
            &&& d.depth
            &&& d.dst_stage & 0x300 == 0x300 && d.dst_access & 0x600 == 0x600
        }),
{
    lemma_waits();
}

/// Handing a target over gives it to the outside, in its layout, once what drew or copied to it is
/// done.
pub proof fn law_handing_over_waits_for_writes(fb: ImageState, queues: Queues)
    ensures
        ({
            let b = release_barrier(fb, queues);
            &&& b.image == fb.id && b.old_layout == fb.layout && b.new_layout == fb.layout
            &&& b.src_queue == queues.own && b.dst_queue == queues.external
            &&& fb.layout == 2 ==> waits_for(b, 0x400, 0x100)
            &&& fb.layout != 2 ==> waits_for(b, 0x1000, 0x1000)
            &&& !b.depth
        }),
{
    lemma_waits();
}

/// A copy reads the texture and writes the target, each in the layout for that, waits for what
/// wrote them, and is waited for by what comes after; the target ends up ready to be drawn to.
pub proof fn law_copies_wait_for_writes(fb: ImageState, texture: ImageState, queues: Queues)
    ensures
        ({
            let b = copy_barriers(fb, texture, queues);
            let acquire = texture.needs_acquire && texture.exportable;
            &&& b.fb_before.image == fb.id && b.fb_after.image == fb.id
            &&& b.texture_before.image == texture.id && b.texture_after.image == texture.id
            &&& b.fb_before.new_layout == 7 && b.texture_before.new_layout == 6
            &&& b.fb_after.new_layout == 2
            &&& takes_over(b.fb_before, queues, fb.needs_acquire)
            &&& takes_over(b.texture_before, queues, acquire)
            &&& takes_over(b.fb_after, queues, false) && takes_over(b.texture_after, queues, false)
            &&& b.fb_before.dst_stage == 0x1000 && b.fb_before.dst_access == 0x1000
            &&& b.texture_before.dst_stage == 0x1000 && b.texture_before.dst_access == 0x800
            &&& waits_for(b.fb_after, 0x1000, 0x1000) && b.fb_after.dst_stage == 0x400
            &&& b.fb_after.dst_access & 0x180 == 0x180
            &&& waits_for(b.texture_after, 0x1000, 0x800)
            &&& b.texture_after.dst_stage == 0x1_0000 && b.texture_after.dst_access & 0x1_8000
                == 0x1_8000
            &&& fb.layout == 2 && !fb.needs_acquire ==> waits_for(b.fb_before, 0x400, 0x100)
            &&& fb.layout != 0 && fb.layout != 2 && !fb.needs_acquire ==> waits_for(
                b.fb_before,
                0x1000u64 | 0x400u64,
                0x1000u64 | 0x100u64,
            )
            &&& texture.layout == 2 && !acquire ==> waits_for(b.texture_before, 0x400, 0x100)
            &&& texture.layout == 5 && !acquire ==> waits_for(b.texture_before, 0x80, 0)
            &&& texture.layout != 0 && texture.layout != 2 && texture.layout != 5 && !acquire
                ==> waits_for(b.texture_before, 0x1000u64 | 0x400u64, 0x1000u64 | 0x100u64)
        }),
{
    lemma_waits();
}

proof fn lemma_waits()
    ensures
        (0x800u64 | 0x1000u64 | 0x400u64 | 0x4000u64) & (0x400u64 | 0x1000u64 | 0x800u64 | 0x4000u64)
            == 0x400u64 | 0x1000u64 | 0x800u64 | 0x4000u64,
        (0x4_0000_0000u64 | 0x1000u64 | 0x100u64 | 0x4000u64) & (0x100u64 | 0x1000u64
            | 0x4_0000_0000u64 | 0x4000u64) == 0x100u64 | 0x1000u64 | 0x4_0000_0000u64 | 0x4000u64,
        (0x80u64 | 0x100u64) & 0x180u64 == 0x180u64,
        (0x100u64 | 0x200u64) & 0x300u64 == 0x300u64,
        (0x400u64 | 0x200u64) & 0x600u64 == 0x600u64,
        (0x8000u64 | 0x1_0000u64) & 0x1_8000u64 == 0x1_8000u64,
        (0x1000u64 | 0x800u64) & (0x1000u64 | 0x800u64) == 0x1000u64 | 0x800u64,
        (0x1000u64 | 0x4_0000_0000u64) & (0x1000u64 | 0x4_0000_0000u64) == 0x1000u64
            | 0x4_0000_0000u64,
        (0x1000u64 | 0x400u64) & (0x1000u64 | 0x400u64) == 0x1000u64 | 0x400u64,
        (0x1000u64 | 0x100u64) & (0x1000u64 | 0x100u64) == 0x1000u64 | 0x100u64,
        (0x800u64 | 0x1000u64 | 0x100u64) & (0x1000u64 | 0x100u64) == 0x1000u64 | 0x100u64,
        0x400u64 & 0x400u64 == 0x400u64,
        0x100u64 & 0x100u64 == 0x100u64,
        0x1000u64 & 0x1000u64 == 0x1000u64,
        0x800u64 & 0x800u64 == 0x800u64,
        0x80u64 & 0x80u64 == 0x80u64,
        0x1_0000_0000u64 & 0u64 == 0u64,
{
    assert((0x800u64 | 0x1000u64 | 0x400u64 | 0x4000u64) & (0x400u64 | 0x1000u64 | 0x800u64
        | 0x4000u64) == 0x400u64 | 0x1000u64 | 0x800u64 | 0x4000u64 && (0x4_0000_0000u64 | 0x1000u64
        | 0x100u64 | 0x4000u64) & (0x100u64 | 0x1000u64 | 0x4_0000_0000u64 | 0x4000u64) == 0x100u64
        | 0x1000u64 | 0x4_0000_0000u64 | 0x4000u64 && (0x80u64 | 0x100u64) & 0x180u64 == 0x180u64 && (
    0x100u64 | 0x200u64) & 0x300u64 == 0x300u64 && (0x400u64 | 0x200u64) & 0x600u64 == 0x600u64 && (
    0x8000u64 | 0x1_0000u64) & 0x1_8000u64 == 0x1_8000u64 && (0x1000u64 | 0x800u64) & (0x1000u64
        | 0x800u64) == 0x1000u64 | 0x800u64 && (0x1000u64 | 0x4_0000_0000u64) & (0x1000u64
        | 0x4_0000_0000u64) == 0x1000u64 | 0x4_0000_0000u64 && (0x1000u64 | 0x400u64) & (0x1000u64
        | 0x400u64) == 0x1000u64 | 0x400u64 && (0x1000u64 | 0x100u64) & (0x1000u64 | 0x100u64)
        == 0x1000u64 | 0x100u64 && (0x800u64 | 0x1000u64 | 0x100u64) & (0x1000u64 | 0x100u64)
        == 0x1000u64 | 0x100u64 && 0x400u64 & 0x400u64 == 0x400u64 && 0x100u64 & 0x100u64 == 0x100u64
        && 0x1000u64 & 0x1000u64 == 0x1000u64 && 0x800u64 & 0x800u64 == 0x800u64 && 0x80u64 & 0x80u64
        == 0x80u64 && 0x1_0000_0000u64 & 0u64 == 0u64) by (bit_vector);
}

} // verus!
