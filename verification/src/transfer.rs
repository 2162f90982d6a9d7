//! Transfers of pixels between memory and images.

use vstd::prelude::*;

use crate::barrier::{Barrier, ImageState, Queues};
use crate::frame::unsigned;
#[allow(unused_imports)]
use crate::frame::{as_unsigned, lesser, positive};
use crate::geometry::{Point, Rectangle, Size};
#[allow(unused_imports)]
use crate::image::dmabuf_request;
use crate::image::{Dmabuf, Error, ImageRequest, VulkanImage};
use crate::memory::{HOST_COHERENT, HOST_VISIBLE, MemoryProperties};
use crate::vk::{
    ACCESS_COLOR_ATTACHMENT_WRITE, ACCESS_MEMORY_READ, ACCESS_MEMORY_WRITE, ACCESS_NONE,
    ACCESS_SHADER_STORAGE_WRITE, ACCESS_TRANSFER_READ, ACCESS_TRANSFER_WRITE,
    LAYOUT_COLOR_ATTACHMENT, LAYOUT_GENERAL, LAYOUT_TRANSFER_SRC, LAYOUT_UNDEFINED,
    STAGE_ALL_COMMANDS, STAGE_ALL_TRANSFER, STAGE_COLOR_ATTACHMENT_OUTPUT, STAGE_COMPUTE_SHADER,
    STAGE_NONE, USAGE_COLOR_ATTACHMENT, USAGE_HOST_TRANSFER, USAGE_SAMPLED, USAGE_STORAGE,
    USAGE_TRANSFER_DST, USAGE_TRANSFER_SRC,
};
#[allow(unused_imports)]
use crate::vk::has_bits;

verus! {

/// Rows of bytes that are copied from one buffer to another.
#[derive(Debug, Clone, Copy, PartialEq, Eq, Structural)]
pub struct RowCopy {
    pub rows: usize,
    pub bytes: usize,
    pub src_start: usize,
    pub src_stride: usize,
    pub dst_start: usize,
    pub dst_stride: usize,
}

impl RowCopy {
    /// Where a row starts in the source.
    pub open spec fn src_row(self, r: int) -> int {
        self.src_start + r * self.src_stride
    }

    /// Where a row starts in the destination.
    pub open spec fn dst_row(self, r: int) -> int {
        self.dst_start + r * self.dst_stride
    }

    /// Whether a row fits into a destination.
    pub open spec fn fits(self, r: int, len: int) -> bool {
        self.dst_row(r) + self.bytes <= len
    }

    /// Whether some row that is copied covers a byte of the destination.
    pub open spec fn covers(self, at: int, len: int) -> bool {
        exists|r: int|
            0 <= r < self.rows && #[trigger] self.fits(r, len) && self.dst_row(r) <= at
                < self.dst_row(r) + self.bytes
    }

    /// Every row lies in the source, and rows do not overlap in the destination.
    pub open spec fn valid(self, src_len: int) -> bool {
        &&& self.bytes <= self.dst_stride
        &&& self.rows > 0 ==> self.src_row(self.rows - 1) + self.bytes <= src_len
        &&& self.src_row(self.rows as int) <= usize::MAX
        &&& self.dst_row(self.rows as int) <= usize::MAX
    }

    /// Copies the rows. Rows that do not fit into the destination are left out.
    pub fn copy(&self, src: &[u8], dst: &mut [u8])
        requires
            self.valid(src@.len() as int),
        ensures
            final(dst)@.len() == old(dst)@.len(),
            forall|r: int, k: int|
                0 <= r < self.rows && 0 <= k < self.bytes && self.fits(r, old(dst)@.len() as int)
                    ==> #[trigger] final(dst)@[self.dst_row(r) + k] == src@[self.src_row(r) + k],
            forall|at: int|
                0 <= at < old(dst)@.len() && !self.covers(at, old(dst)@.len() as int)
                    ==> final(dst)@[at] == old(dst)@[at],
    {
        let ghost before = dst@;
        let ghost len = dst@.len() as int;
        let mut s: usize = self.src_start;
        let mut d: usize = self.dst_start;
        let mut i: usize = 0;
        assert(0 * self.src_stride == 0 && 0 * self.dst_stride == 0);
        while i < self.rows
            invariant
                i <= self.rows,
                self.valid(src@.len() as int),
                before == old(dst)@,
                len == before.len(),
                dst@.len() == len,
                s == self.src_row(i as int),
                d == self.dst_row(i as int),
                forall|r: int, k: int|
                    0 <= r < i && 0 <= k < self.bytes && self.fits(r, len) ==> #[trigger] dst@[
                    self.dst_row(r) + k] == src@[self.src_row(r) + k],
                forall|at: int|
                    0 <= at < len && !self.covers(at, len) ==> dst@[at] == before[at],
            decreases self.rows - i,
        {
            proof {
                lemma_rows_grow(i as int, self.rows as int, self.src_stride as int);
                lemma_rows_grow(i as int, self.rows as int, self.dst_stride as int);
                lemma_rows_grow(i as int, self.rows - 1, self.src_stride as int);
            }
            let ghost earlier = dst@;
            if self.bytes <= dst.len() && d <= dst.len() - self.bytes {
                copy_bytes(src, s, dst, d, self.bytes);
                proof {
                    assert(self.fits(i as int, len));
                    assert forall|r: int, k: int|
                        0 <= r < i + 1 && 0 <= k < self.bytes && self.fits(r, len) implies
                        #[trigger] dst@[self.dst_row(r) + k] == src@[self.src_row(r) + k] by {
                        if r < i {
                            lemma_rows_grow(r, i as int, self.dst_stride as int);
                            assert(self.dst_row(r) + k < d);
                            lemma_row_start(r, self.dst_stride as int);
                            assert(dst@[self.dst_row(r) + k] == earlier[self.dst_row(r) + k]);
                        }
                    }
                    assert forall|at: int| 0 <= at < len && !self.covers(at, len) implies dst@[at]
                        == before[at] by {
                        assert(!(d <= at < d + self.bytes));
                    }
                }
            } else {
                assert(!self.fits(i as int, len));
            }
            s = s + self.src_stride;
            d = d + self.dst_stride;
            i = i + 1;
        }
    }
}

proof fn lemma_row_start(r: int, stride: int)
    requires
        0 <= r,
        0 <= stride,
    ensures
        0 <= r * stride,
{
    assert(0 <= r * stride) by (nonlinear_arith)
        requires
            0 <= r,
            0 <= stride,
    ;
}

/// The row after `r` starts no later than row `n`, for a smaller `r`.
pub proof fn lemma_rows_grow(r: int, n: int, stride: int)
    requires
        0 <= stride,
    ensures
        r < n ==> r * stride + stride <= n * stride,
        r <= n ==> r * stride <= n * stride,
        (r + 1) * stride == r * stride + stride,
{
    assert((r + 1) * stride == r * stride + stride) by (nonlinear_arith);
    if r < n {
        assert(r * stride + stride <= n * stride) by (nonlinear_arith)
            requires
                r + 1 <= n,
                0 <= stride,
        ;
    }
}

fn copy_bytes(src: &[u8], s: usize, dst: &mut [u8], d: usize, n: usize)
    requires
        s + n <= src@.len(),
        d + n <= old(dst)@.len(),
    ensures
        final(dst)@.len() == old(dst)@.len(),
        forall|k: int| 0 <= k < n ==> final(dst)@[d + k] == #[trigger] src@[s + k],
        forall|j: int| d <= j < d + n ==> #[trigger] final(dst)@[j] == src@[s + j - d],
        forall|j: int|
            0 <= j < old(dst)@.len() && !(d <= j < d + n) ==> #[trigger] final(dst)@[j] == old(
                dst,
            )@[j],
{
    let src_len: usize = src.len();
    let dst_len: usize = dst.len();
    let mut k: usize = 0;
    while k < n
        invariant
            k <= n,
            s + n <= src@.len() == src_len,
            d + n <= dst@.len() == dst_len,
            dst@.len() == old(dst)@.len(),
            forall|j: int| d <= j < d + k ==> #[trigger] dst@[j] == src@[s + j - d],
            forall|j: int|
                0 <= j < dst@.len() && !(d <= j < d + k) ==> #[trigger] dst@[j] == old(dst)@[j],
        decreases n - k,
    {
        dst[d + k] = src[s + k];
        k = k + 1;
    }
    assert forall|m: int| 0 <= m < n implies dst@[d + m] == #[trigger] src@[s + m] by {
        let j = d + m;
        assert(d <= j < d + n);
        assert(dst@[j] == src@[s + j - d]);
        assert(s + j - d == s + m);
    }
}

/// Why a transfer is not possible.
#[derive(Debug, Clone, Copy, PartialEq, Eq, Structural)]
pub enum TransferError {
    UnsupportedPixelFormat,
    /// The device cannot copy from host memory to images.
    MissingExtension,
    /// The memory does not hold what is asked for.
    BufferAccess,
    /// No memory type fits.
    NoMemoryAvailable,
    /// The image was not made for this.
    MissingOrInvalidUsage,
}

/// `AB4H`
pub const FOURCC_ABGR16161616F: u32 = 0x4834_4241;

/// `XB4H`
pub const FOURCC_XBGR16161616F: u32 = 0x4834_4258;

/// `AB24`
pub const FOURCC_ABGR8888: u32 = 0x3432_4241;

/// `XB24`
pub const FOURCC_XBGR8888: u32 = 0x3432_4258;

/// `AR24`
pub const FOURCC_ARGB8888: u32 = 0x3432_5241;

/// `XR24`
pub const FOURCC_XRGB8888: u32 = 0x3432_5258;

/// Bytes per pixel of a format that contents are read back in.
pub open spec fn readback_bpp(format: u32) -> int {
    if format == FOURCC_ABGR16161616F || format == FOURCC_XBGR16161616F {
        8
    } else {
        4
    }
}

/// How part of an image is copied to a staging buffer.
#[derive(Debug, Clone, Copy, PartialEq, Eq, Structural)]
pub struct StagingCopy {
    pub bpp: u64,
    pub width: u32,
    pub height: u32,
    pub offset_x: i32,
    pub offset_y: i32,
    pub stride: u64,
    pub size: u64,
}

/// Not below zero.
pub open spec fn not_negative(n: i32) -> i32 {
    if n < 0 {
        0
    } else {
        n
    }
}

/// See [`StagingCopy`].
pub open spec fn staging_copy_of(image: ImageState, region: Rectangle, format: u32) -> StagingCopy {
    let width = positive(lesser(as_unsigned(region.size.w), image.width));
    let height = positive(lesser(as_unsigned(region.size.h), image.height));
    let bpp = readback_bpp(format);
    StagingCopy {
        bpp: bpp as u64,
        width,
        height,
        offset_x: not_negative(region.loc.x),
        offset_y: not_negative(region.loc.y),
        stride: (width * bpp) as u64,
        size: (width * bpp * height) as u64,
    }
}

/// Plans the copy of part of an image to a staging buffer.
pub fn staging_copy(image: &ImageState, region: Rectangle, format: u32) -> (copy: StagingCopy)
    requires
        positive(image.width) * 8 * positive(image.height) <= u64::MAX,
    ensures
        copy == staging_copy_of(*image, region, format),
        copy.size == copy.stride * copy.height,
        copy.stride == copy.width * copy.bpp,
        copy.width <= image.width || copy.width == 1,
        copy.height <= image.height || copy.height == 1,
{
    let bpp: u64 = if format == FOURCC_ABGR16161616F || format == FOURCC_XBGR16161616F {
        8
    } else {
        4
    };
    let w: u32 = unsigned(region.size.w);
    let h: u32 = unsigned(region.size.h);
    let w: u32 = if w < image.width {
        w
    } else {
        image.width
    };
    let h: u32 = if h < image.height {
        h
    } else {
        image.height
    };
    let width: u32 = if w == 0 {
        1
    } else {
        w
    };
    let height: u32 = if h == 0 {
        1
    } else {
        h
    };
    proof {
        assert(width * bpp * height <= positive(image.width) * 8 * positive(image.height))
            by (nonlinear_arith)
            requires
                0 < width <= positive(image.width),
                0 < height <= positive(image.height),
                0 < bpp <= 8,
        ;
        assert(width * bpp <= width * bpp * height) by (nonlinear_arith)
            requires
                height >= 1,
                width * bpp >= 0,
        ;
        assert(width * bpp >= 0) by (nonlinear_arith);
        assert(width as int * readback_bpp(format) == width * bpp);
    }
    let stride: u64 = width as u64 * bpp;
    StagingCopy {
        bpp,
        width,
        height,
        offset_x: if region.loc.x < 0 {
            0
        } else {
            region.loc.x
        },
        offset_y: if region.loc.y < 0 {
            0
        } else {
            region.loc.y
        },
        stride,
        size: stride * height as u64,
    }
}

/// The memory type of a staging buffer, and whether it is coherent.
pub open spec fn is_staging_type(
    props: MemoryProperties,
    type_bits: u32,
    choice: Option<(u32, bool)>,
) -> bool {
    let both = HOST_VISIBLE | HOST_COHERENT;
    match choice {
        Some((i, true)) => props.is_first_match(type_bits, both, i as int),
        Some((i, false)) => props.no_match(type_bits, both) && props.is_first_match(
            type_bits,
            HOST_VISIBLE,
            i as int,
        ),
        None => props.no_match(type_bits, both) && props.no_match(type_bits, HOST_VISIBLE),
    }
}

/// Picks memory for a staging buffer: coherent if there is any, else visible to the host.
pub fn staging_memory_type(props: &MemoryProperties, type_bits: u32) -> (choice: Result<
    (u32, bool),
    TransferError,
>)
    requires
        props.wf(),
    ensures
        match choice {
            Ok(pair) => is_staging_type(*props, type_bits, Some(pair)),
            Err(error) => error == TransferError::NoMemoryAvailable && is_staging_type(
                *props,
                type_bits,
                None,
            ),
        },
{
    match props.find_first(type_bits, HOST_VISIBLE | HOST_COHERENT) {
        Some(i) => Ok((i, true)),
        None => match props.find_first(type_bits, HOST_VISIBLE) {
            Some(i) => Ok((i, false)),
            None => Err(TransferError::NoMemoryAvailable),
        },
    }
}

/// What may still write to an image before it is read back. A blocking read back of a
/// framebuffer waits for rendering only.
pub open spec fn readback_waits(acquire: bool, layout: i32, blocking: bool) -> (u64, u64) {
    if acquire || layout == LAYOUT_UNDEFINED {
        (STAGE_NONE, ACCESS_NONE)
    } else if blocking && layout == LAYOUT_COLOR_ATTACHMENT {
        (STAGE_COLOR_ATTACHMENT_OUTPUT, ACCESS_COLOR_ATTACHMENT_WRITE)
    } else {
        (
            STAGE_ALL_TRANSFER | STAGE_COMPUTE_SHADER | STAGE_COLOR_ATTACHMENT_OUTPUT,
            ACCESS_TRANSFER_WRITE | ACCESS_SHADER_STORAGE_WRITE | ACCESS_COLOR_ATTACHMENT_WRITE,
        )
    }
}

/// The layout that an image has after it was read back.
pub open spec fn layout_after_readback(layout: i32) -> i32 {
    if layout == LAYOUT_UNDEFINED {
        LAYOUT_GENERAL
    } else {
        layout
    }
}

/// The barriers before and after an image is read back.
pub open spec fn readback_barriers(image: ImageState, queues: Queues, blocking: bool) -> (
    Barrier,
    Barrier,
) {
    let acquire = image.acquires();
    (
        Barrier {
            image: image.id,
            old_layout: image.layout,
            new_layout: LAYOUT_TRANSFER_SRC,
            src_queue: queues.incoming(acquire).0,
            dst_queue: queues.incoming(acquire).1,
            src_stage: readback_waits(acquire, image.layout, blocking).0,
            src_access: readback_waits(acquire, image.layout, blocking).1,
            dst_stage: STAGE_ALL_TRANSFER,
            dst_access: ACCESS_TRANSFER_READ,
            depth: false,
        },
        Barrier {
            image: image.id,
            old_layout: LAYOUT_TRANSFER_SRC,
            new_layout: layout_after_readback(image.layout),
            src_queue: 0,
            dst_queue: 0,
            src_stage: STAGE_ALL_TRANSFER,
            src_access: ACCESS_TRANSFER_READ,
            dst_stage: STAGE_ALL_COMMANDS,
            dst_access: ACCESS_MEMORY_READ | ACCESS_MEMORY_WRITE,
            depth: false,
        },
    )
}

/// The barriers for an image that is read back, which belongs to the renderer from then on.
pub fn prepare_readback(image: &mut ImageState, queues: &Queues, blocking: bool) -> (barriers: (
    Barrier,
    Barrier,
))
    ensures
        barriers == readback_barriers(*old(image), *queues, blocking),
        *final(image) == (ImageState { needs_acquire: false, ..*old(image) }),
{
    let acquire: bool = image.needs_acquire && image.exportable;
    let (src_queue, dst_queue) = queues.incoming_of(acquire);
    let (src_stage, src_access) = if acquire || image.layout == LAYOUT_UNDEFINED {
        (STAGE_NONE, ACCESS_NONE)
    } else if blocking && image.layout == LAYOUT_COLOR_ATTACHMENT {
        (STAGE_COLOR_ATTACHMENT_OUTPUT, ACCESS_COLOR_ATTACHMENT_WRITE)
    } else {
        (
            STAGE_ALL_TRANSFER | STAGE_COMPUTE_SHADER | STAGE_COLOR_ATTACHMENT_OUTPUT,
            ACCESS_TRANSFER_WRITE | ACCESS_SHADER_STORAGE_WRITE | ACCESS_COLOR_ATTACHMENT_WRITE,
        )
    };
    let restored: i32 = if image.layout == LAYOUT_UNDEFINED {
        LAYOUT_GENERAL
    } else {
        image.layout
    };
    let before = Barrier {
        image: image.id,
        old_layout: image.layout,
        new_layout: LAYOUT_TRANSFER_SRC,
        src_queue,
        dst_queue,
        src_stage,
        src_access,
        dst_stage: STAGE_ALL_TRANSFER,
        dst_access: ACCESS_TRANSFER_READ,
        depth: false,
    };
    let after = Barrier {
        image: image.id,
        old_layout: LAYOUT_TRANSFER_SRC,
        new_layout: restored,
        src_queue: 0,
        dst_queue: 0,
        src_stage: STAGE_ALL_TRANSFER,
        src_access: ACCESS_TRANSFER_READ,
        dst_stage: STAGE_ALL_COMMANDS,
        dst_access: ACCESS_MEMORY_READ | ACCESS_MEMORY_WRITE,
        depth: false,
    };
    image.needs_acquire = false;
    (before, after)
}

/// How host memory gets into an image.
#[derive(Debug, Clone, Copy, PartialEq, Eq, Structural)]
pub enum Upload {
    /// Nothing of the region lies in the image.
    Nothing,
    /// The memory of the image is written line by line.
    Rows { transition: bool, region: Rectangle },
    /// The device copies from host memory, starting at an offset, with lines of some pixels.
    Device { transition: bool, region: Rectangle, host_offset: usize, row_length: u32 },
}

/// What is known of an image that is uploaded to.
#[derive(Debug, Clone, Copy, PartialEq, Eq, Structural)]
pub struct UploadTarget {
    pub width: u32,
    pub height: u32,
    pub layout: i32,
    /// Linear and in memory that the host can see.
    pub mappable: bool,
}

/// See [`Upload`].
pub open spec fn upload_of(
    target: UploadTarget,
    stride: usize,
    bpp: usize,
    region: Rectangle,
    host_copy: bool,
) -> Result<Upload, TransferError> {
    let size = Size { w: target.width as i32, h: target.height as i32 };
    let transition = target.layout != LAYOUT_GENERAL;
    if bpp == 0 {
        Err(TransferError::UnsupportedPixelFormat)
    } else {
        match region.intersection_spec(Rectangle { loc: Point { x: 0, y: 0 }, size }) {
            None => Ok(Upload::Nothing),
            Some(part) => if !host_copy {
                Err(TransferError::MissingExtension)
            } else if target.mappable {
                Ok(Upload::Rows { transition, region: part })
            } else {
                Ok(
                    Upload::Device {
                        transition,
                        region: part,
                        host_offset: (part.loc.y * stride + part.loc.x * bpp) as usize,
                        row_length: (stride as int / bpp as int) as u32,
                    },
                )
            },
        }
    }
}

/// Plans the upload of host memory to part of an image.
pub fn upload_host_memory_to_image(
    target: &UploadTarget,
    src_stride: usize,
    bpp: usize,
    region: Rectangle,
    host_copy: bool,
) -> (r: Result<Upload, TransferError>)
    requires
        target.width <= i32::MAX,
        target.height <= i32::MAX,
        region.size.w >= 0,
        region.size.h >= 0,
        target.height * src_stride + target.width * bpp <= usize::MAX,
        bpp > 0 ==> src_stride / bpp <= u32::MAX,
    ensures
        r == upload_of(*target, src_stride, bpp, region, host_copy),
{
    if bpp == 0 {
        return Err(TransferError::UnsupportedPixelFormat);
    }
    let whole = Rectangle {
        loc: Point { x: 0, y: 0 },
        size: Size { w: target.width as i32, h: target.height as i32 },
    };
    let part: Rectangle = match region.intersection(whole) {
        Some(part) => part,
        None => {
            return Ok(Upload::Nothing);
        },
    };
    if !host_copy {
        return Err(TransferError::MissingExtension);
    }
    let transition: bool = target.layout != LAYOUT_GENERAL;
    if target.mappable {
        return Ok(Upload::Rows { transition, region: part });
    }
    proof {
        assert(0 <= part.loc.x <= target.width);
        assert(0 <= part.loc.y <= target.height);
        assert(0 <= part.loc.y * src_stride <= target.height * src_stride) by (nonlinear_arith)
            requires
                0 <= part.loc.y <= target.height,
                src_stride >= 0,
        ;
        assert(0 <= part.loc.x * bpp <= target.width * bpp) by (nonlinear_arith)
            requires
                0 <= part.loc.x <= target.width,
                bpp >= 0,
        ;
    }
    let host_offset: usize = part.loc.y as usize * src_stride + part.loc.x as usize * bpp;
    Ok(
        Upload::Device {
            transition,
            region: part,
            host_offset,
            row_length: (src_stride / bpp) as u32,
        },
    )
}

/// The lines of a region that go from host memory to the memory of an image.
pub fn upload_rows(
    region: Rectangle,
    bpp: usize,
    src_stride: usize,
    dst_offset: usize,
    dst_pitch: usize,
) -> (rows: RowCopy)
    requires
        region.loc.x >= 0,
        region.loc.y >= 0,
        region.size.w >= 0,
        region.size.h >= 0,
        region.loc.y * src_stride + region.loc.x * bpp <= usize::MAX,
        dst_offset + region.loc.y * dst_pitch + region.loc.x * bpp <= usize::MAX,
        region.size.w * bpp <= usize::MAX,
    ensures
        rows == (RowCopy {
            rows: region.size.h as usize,
            bytes: (region.size.w * bpp) as usize,
            src_start: (region.loc.y * src_stride + region.loc.x * bpp) as usize,
            src_stride,
            dst_start: (dst_offset + region.loc.y * dst_pitch + region.loc.x * bpp) as usize,
            dst_stride: dst_pitch,
        }),
{
    proof {
        assert(0 <= region.loc.y * src_stride) by (nonlinear_arith)
            requires
                region.loc.y >= 0,
        ;
        assert(0 <= region.loc.y * dst_pitch) by (nonlinear_arith)
            requires
                region.loc.y >= 0,
        ;
        assert(0 <= region.loc.x * bpp) by (nonlinear_arith)
            requires
                region.loc.x >= 0,
        ;
        assert(0 <= region.size.w * bpp) by (nonlinear_arith)
            requires
                region.size.w >= 0,
        ;
    }
    RowCopy {
        rows: region.size.h as usize,
        bytes: region.size.w as usize * bpp,
        src_start: region.loc.y as usize * src_stride + region.loc.x as usize * bpp,
        src_stride,
        dst_start: dst_offset + region.loc.y as usize * dst_pitch + region.loc.x as usize * bpp,
        dst_stride: dst_pitch,
    }
}

/// Lines of pixels that lie within the stride never overlap, wherever they are in the image.
pub proof fn law_lines_do_not_overlap(copy: RowCopy, a: int, b: int, at: int)
    requires
        copy.bytes <= copy.dst_stride,
        0 <= a < b < copy.rows,
        copy.dst_row(a) <= at < copy.dst_row(a) + copy.bytes,
    ensures
        !(copy.dst_row(b) <= at < copy.dst_row(b) + copy.bytes),
{
    lemma_rows_grow(a, b, copy.dst_stride as int);
}

/// Whether memory holds all lines of an image.
pub fn check_import_memory(len: usize, bpp: usize, size: Size) -> (r: Result<(), TransferError>)
    requires
        size.w >= 0,
        size.h >= 0,
        size.w * bpp * size.h <= usize::MAX,
        size.w * bpp <= usize::MAX,
    ensures
        r == if len < size.w * bpp * size.h {
            Err::<(), TransferError>(TransferError::BufferAccess)
        } else {
            Ok(())
        },
{
    proof {
        assert(0 <= size.w * bpp) by (nonlinear_arith)
            requires
                size.w >= 0,
        ;
        assert(0 <= size.w * bpp * size.h) by (nonlinear_arith)
            requires
                0 <= size.w * bpp,
                size.h >= 0,
        ;
    }
    let stride: usize = size.w as usize * bpp;
    if len < stride * size.h as usize {
        Err(TransferError::BufferAccess)
    } else {
        Ok(())
    }
}

/// Tilings to try for an image that is filled from host memory, linear last.
pub fn import_tilings(supports_optimal_host_copy: bool) -> (linear: Vec<bool>)
    ensures
        linear@ == if supports_optimal_host_copy {
            seq![false, true]
        } else {
            seq![true]
        },
{
    let linear: Vec<bool> = if supports_optimal_host_copy {
        vec![false, true]
    } else {
        vec![true]
    };
    assert(linear@ =~= if supports_optimal_host_copy {
        seq![false, true]
    } else {
        seq![true]
    });
    linear
}

/// Whether memory with the lines of a texture holds a region of it.
pub open spec fn update_verdict(width: u32, height: u32, bpp: usize, len: usize, region: Rectangle) -> Result<
    (),
    TransferError,
> {
    let max_x = region.loc.x + region.size.w;
    let max_y = region.loc.y + region.size.h;
    if region.loc.x < 0 || region.loc.y < 0 || max_x < 0 || max_y < 0 || max_x > width || max_y
        > height || (max_y - 1) * (width * bpp) + max_x * bpp > len {
        Err(TransferError::BufferAccess)
    } else {
        Ok(())
    }
}

/// Checks the update of part of a texture from memory with the lines of the whole texture.
pub fn check_update_memory(width: u32, height: u32, bpp: usize, len: usize, region: Rectangle) -> (r: Result<
    (),
    TransferError,
>)
    requires
        i32::MIN <= region.loc.x + region.size.w <= i32::MAX,
        i32::MIN <= region.loc.y + region.size.h <= i32::MAX,
        region.loc.x >= 0 && region.loc.y >= 0 && 0 <= region.loc.x + region.size.w <= width
            ==> region.loc.y + region.size.h != 0,
        width * bpp * height + width * bpp <= usize::MAX,
    ensures
        r == update_verdict(width, height, bpp, len, region),
{
    if region.loc.x < 0 || region.loc.y < 0 {
        return Err(TransferError::BufferAccess);
    }
    let max_y: i32 = region.loc.y + region.size.h;
    let max_x: i32 = region.loc.x + region.size.w;
    if max_x < 0 || max_y < 0 || max_x as u32 > width || max_y as u32 > height {
        return Err(TransferError::BufferAccess);
    }
    let lines: usize = max_y as usize - 1;
    proof {
        assert(0 <= width * bpp) by (nonlinear_arith);
        assert(0 <= lines * (width * bpp) <= width * bpp * height) by (nonlinear_arith)
            requires
                0 <= lines <= height,
                0 <= width * bpp,
        ;
        assert(0 <= max_x * bpp <= width * bpp) by (nonlinear_arith)
            requires
                0 <= max_x <= width,
        ;
        assert(width * bpp <= usize::MAX) by (nonlinear_arith)
            requires
                width * bpp * height + width * bpp <= usize::MAX,
                0 <= width * bpp,
                height >= 0,
        ;
    }
    let stride: usize = width as usize * bpp;
    if lines * stride + max_x as usize * bpp > len {
        Err(TransferError::BufferAccess)
    } else {
        Ok(())
    }
}

/// Memory that passed the check for a new texture holds every line of it.
pub proof fn law_imported_lines_are_in_memory(len: usize, bpp: usize, size: Size, line: int)
    requires
        size.w >= 0,
        len >= size.w * bpp * size.h,
        0 <= line < size.h,
    ensures
        0 <= line * (size.w * bpp),
        line * (size.w * bpp) + size.w * bpp <= len,
{
    let stride = size.w * bpp;
    assert(0 <= stride) by (nonlinear_arith)
        requires
            stride == size.w * bpp,
            size.w >= 0,
            bpp >= 0,
    ;
    assert(0 <= line * stride && line * stride + stride <= stride * size.h) by (nonlinear_arith)
        requires
            0 <= stride,
            0 <= line < size.h,
    ;
}

/// An update that passed the check reads nothing beyond the memory, whichever line of the region
/// it is at, and stays within the texture.
pub proof fn law_updated_lines_are_in_memory(
    width: u32,
    height: u32,
    bpp: usize,
    len: usize,
    region: Rectangle,
    line: int,
)
    requires
        update_verdict(width, height, bpp, len, region) is Ok,
        region.size.w >= 0,
        0 <= line < region.size.h,
    ensures
        region.loc.x + region.size.w <= width,
        region.loc.y + line < height,
        0 <= (region.loc.y + line) * (width * bpp) + region.loc.x * bpp,
        (region.loc.y + line) * (width * bpp) + region.loc.x * bpp + region.size.w * bpp <= len,
{
    let stride = width * bpp;
    let y = region.loc.y + line;
    let last = region.loc.y + region.size.h - 1;
    let x = region.loc.x as int;
    let w = region.size.w as int;
    assert(0 <= stride) by (nonlinear_arith)
        requires
            stride == width * bpp,
            width >= 0,
            bpp >= 0,
    ;
    assert(0 <= y * stride <= last * stride) by (nonlinear_arith)
        requires
            0 <= stride,
            0 <= y <= last,
    ;
    assert(x * bpp + w * bpp == (x + w) * bpp && 0 <= x * bpp) by (nonlinear_arith)
        requires
            0 <= x,
            bpp >= 0,
    ;
}

/// Whether textures can be made of a format in host memory.
pub open spec fn is_mem_format(format: u32) -> bool {
    format == FOURCC_ABGR8888 || format == FOURCC_XBGR8888 || format == FOURCC_ARGB8888 || format
        == FOURCC_XRGB8888
}

/// The formats of textures that are made of host memory.
pub fn mem_formats() -> (formats: Vec<u32>)
    ensures
        formats@ == seq![FOURCC_ABGR8888, FOURCC_XBGR8888, FOURCC_ARGB8888, FOURCC_XRGB8888],
        forall|format: u32| #[trigger] is_mem_format(format) <==> formats@.contains(format),
{
    let formats: Vec<u32> = vec![
        FOURCC_ABGR8888,
        FOURCC_XBGR8888,
        FOURCC_ARGB8888,
        FOURCC_XRGB8888,
    ];
    assert(formats@ =~= seq![
        FOURCC_ABGR8888,
        FOURCC_XBGR8888,
        FOURCC_ARGB8888,
        FOURCC_XRGB8888,
    ]);
    assert(formats@[0] == FOURCC_ABGR8888 && formats@[1] == FOURCC_XBGR8888 && formats@[2]
        == FOURCC_ARGB8888 && formats@[3] == FOURCC_XRGB8888);
    formats
}

/// Checks a client's shared memory buffer.
pub fn check_shm_buffer(len: usize, offset: i32, stride: i32, height: i32, format: u32) -> (r: Result<
    (),
    TransferError,
>)
    requires
        i32::MIN <= stride * height <= i32::MAX,
        i32::MIN <= offset + stride * height <= i32::MAX,
    ensures
        r == if !is_mem_format(format) {
            Err::<(), TransferError>(TransferError::UnsupportedPixelFormat)
        } else if offset + stride * height < 0 || len < offset + stride * height {
            Err(TransferError::BufferAccess)
        } else {
            Ok(())
        },
{
    if !(format == FOURCC_ABGR8888 || format == FOURCC_XBGR8888 || format == FOURCC_ARGB8888
        || format == FOURCC_XRGB8888) {
        return Err(TransferError::UnsupportedPixelFormat);
    }
    let expected: i32 = offset + stride * height;
    if expected < 0 || len < expected as usize {
        return Err(TransferError::BufferAccess);
    }
    Ok(())
}

/// Whether a texture that was made of an earlier buffer can be updated instead of replaced.
pub fn reuses_texture(cached: Option<(Size, i32)>, size: Size, format: i32) -> (r: bool)
    ensures
        r == match cached {
            Some((cached_size, cached_format)) => cached_size == size && cached_format == format,
            None => false,
        },
{
    match cached {
        Some((cached_size, cached_format)) => cached_size == size && cached_format == format,
        None => false,
    }
}

/// The damaged parts of a buffer.
pub open spec fn damaged_parts(damage: Seq<Rectangle>, size: Size) -> Seq<Rectangle>
    decreases damage.len(),
{
    if damage.len() == 0 {
        seq![]
    } else {
        let before = damaged_parts(damage.drop_last(), size);
        match damage.last().intersection_spec(Rectangle { loc: Point { x: 0, y: 0 }, size }) {
            Some(part) => before.push(part),
            None => before,
        }
    }
}

/// The parts of a texture that are uploaded: all of it if no damage is known.
pub fn upload_regions(damage: &Vec<Rectangle>, size: Size) -> (regions: Vec<Rectangle>)
    requires
        size.w >= 0,
        size.h >= 0,
        forall|i: int|
            0 <= i < damage@.len() ==> (#[trigger] damage@[i]).size.w >= 0 && damage@[i].size.h
                >= 0,
    ensures
        regions@ == if damage@.len() == 0 {
            seq![Rectangle { loc: Point { x: 0, y: 0 }, size }]
        } else {
            damaged_parts(damage@, size)
        },
{
    let whole = Rectangle { loc: Point { x: 0, y: 0 }, size };
    if damage.len() == 0 {
        let regions: Vec<Rectangle> = vec![whole];
        assert(regions@ =~= seq![whole]);
        return regions;
    }
    let mut regions: Vec<Rectangle> = Vec::new();
    let mut i: usize = 0;
    assert(damage@.take(0) =~= seq![]);
    while i < damage.len()
        invariant
            i <= damage.len(),
            size.w >= 0,
            size.h >= 0,
            whole == (Rectangle { loc: Point { x: 0, y: 0 }, size }),
            forall|i: int|
                0 <= i < damage@.len() ==> (#[trigger] damage@[i]).size.w >= 0 && damage@[i].size.h
                    >= 0,
            regions@ == damaged_parts(damage@.take(i as int), size),
        decreases damage.len() - i,
    {
        proof {
            assert(damage@.take(i + 1).last() == damage@[i as int]);
            assert(damage@.take(i + 1).drop_last() =~= damage@.take(i as int));
        }
        if let Some(part) = damage[i].intersection(whole) {
            regions.push(part);
        }
        i = i + 1;
    }
    assert(damage@.take(i as int) =~= damage@);
    regions
}

/// Whether the contents of an image can be read in place.
pub open spec fn reads_in_place(mem_bits: u32, is_linear: bool) -> bool {
    has_bits(mem_bits, HOST_VISIBLE) && is_linear
}

/// See [`reads_in_place`].
pub fn maps_directly(mem_bits: u32, is_linear: bool) -> (r: bool)
    ensures
        r == reads_in_place(mem_bits, is_linear),
{
    mem_bits & HOST_VISIBLE == HOST_VISIBLE && is_linear
}

/// Whether the contents of a texture can be read at all: in place, by a host copy or by a
/// transfer.
pub fn can_read_texture(mem_bits: u32, is_linear: bool, usage: u32, host_copy: bool) -> (r: bool)
    ensures
        r == (reads_in_place(mem_bits, is_linear) || (has_bits(usage, USAGE_HOST_TRANSFER)
            && host_copy) || has_bits(usage, USAGE_TRANSFER_SRC)),
{
    maps_directly(mem_bits, is_linear) || (usage & USAGE_HOST_TRANSFER == USAGE_HOST_TRANSFER
        && host_copy) || usage & USAGE_TRANSFER_SRC == USAGE_TRANSFER_SRC
}

/// Whether an image can be a framebuffer.
pub fn bind(usage: u32) -> (r: Result<(), TransferError>)
    ensures
        r == if has_bits(usage, USAGE_COLOR_ATTACHMENT) || has_bits(usage, USAGE_STORAGE)
            || has_bits(usage, USAGE_TRANSFER_DST) {
            Ok::<(), TransferError>(())
        } else {
            Err(TransferError::MissingOrInvalidUsage)
        },
{
    if usage & USAGE_COLOR_ATTACHMENT == USAGE_COLOR_ATTACHMENT || usage & USAGE_STORAGE
        == USAGE_STORAGE || usage & USAGE_TRANSFER_DST == USAGE_TRANSFER_DST {
        Ok(())
    } else {
        Err(TransferError::MissingOrInvalidUsage)
    }
}

/// Whether an image that was imported for an earlier use can be a framebuffer for copies too.
pub fn reuses_framebuffer(cached_usage: Option<u32>) -> (r: bool)
    ensures
        r == match cached_usage {
            Some(usage) => has_bits(usage, USAGE_TRANSFER_DST),
            None => false,
        },
{
    match cached_usage {
        Some(usage) => usage & USAGE_TRANSFER_DST == USAGE_TRANSFER_DST,
        None => false,
    }
}

/// Usages of an offscreen image.
pub open spec fn offscreen_usage(host_transfer: bool) -> u32 {
    let base = USAGE_COLOR_ATTACHMENT | USAGE_TRANSFER_SRC | USAGE_TRANSFER_DST | USAGE_SAMPLED;
    if host_transfer {
        base | USAGE_HOST_TRANSFER
    } else {
        base
    }
}

/// A texture of the memory of a dmabuf.
pub fn import_dmabuf(dmabuf: Dmabuf, vk_format: Option<i32>, inodes: &Vec<Option<u64>>) -> (request:
    Result<ImageRequest, Error>)
    requires
        inodes@.len() > 0,
    ensures
        request == dmabuf_request(
            dmabuf,
            vk_format,
            inodes@,
            USAGE_SAMPLED | USAGE_TRANSFER_SRC,
        ),
{
    VulkanImage::new_from_dmabuf(dmabuf, vk_format, inodes, USAGE_SAMPLED | USAGE_TRANSFER_SRC)
}

/// How a dmabuf becomes a framebuffer.
#[derive(Debug)]
pub enum DmabufBinding {
    /// As the image that it became before.
    Reuse,
    /// As a new image.
    Import(ImageRequest),
}

/// Makes a dmabuf a framebuffer. `cached_usage` is that of the image that it became before.
pub fn bind_dmabuf(
    cached_usage: Option<u32>,
    dmabuf: Dmabuf,
    vk_format: Option<i32>,
    inodes: &Vec<Option<u64>>,
) -> (binding: Result<DmabufBinding, Error>)
    requires
        inodes@.len() > 0,
    ensures
        binding == if cached_usage is Some && has_bits(
            cached_usage->Some_0,
            USAGE_TRANSFER_DST,
        ) {
            Ok::<DmabufBinding, Error>(DmabufBinding::Reuse)
        } else {
            match dmabuf_request(dmabuf, vk_format, inodes@, offscreen_usage(false)) {
                Ok(request) => Ok(DmabufBinding::Import(request)),
                Err(err) => Err(err),
            }
        },
{
    if reuses_framebuffer(cached_usage) {
        return Ok(DmabufBinding::Reuse);
    }
    let usage: u32 = USAGE_COLOR_ATTACHMENT | USAGE_TRANSFER_SRC | USAGE_TRANSFER_DST
        | USAGE_SAMPLED;
    match VulkanImage::new_from_dmabuf(dmabuf, vk_format, inodes, usage) {
        Ok(request) => Ok(DmabufBinding::Import(request)),
        Err(err) => Err(err),
    }
}

/// What a dmabuf became when it was bound can be bound again as it is.
pub proof fn law_bound_buffers_are_reused(
    dmabuf: Dmabuf,
    vk_format: Option<i32>,
    inodes: Seq<Option<u64>>,
)
    requires
        dmabuf_request(dmabuf, vk_format, inodes, offscreen_usage(false)) is Ok,
    ensures
        has_bits(
            dmabuf_request(dmabuf, vk_format, inodes, offscreen_usage(false))->Ok_0.usage,
            USAGE_TRANSFER_DST,
        ),
{
    assert((USAGE_COLOR_ATTACHMENT | USAGE_TRANSFER_SRC | USAGE_TRANSFER_DST | USAGE_SAMPLED)
        & USAGE_TRANSFER_DST == USAGE_TRANSFER_DST) by (bit_vector);
}

/// The attempts at an offscreen image, each with its usages and whether it is linear: first with
/// optimal tiling, then linear.
pub fn create_buffer(supports_optimal_host_copy: bool, host_copy: bool) -> (attempts: Vec<
    (u32, bool),
>)
    ensures
        attempts@ == seq![
            (offscreen_usage(supports_optimal_host_copy), false),
            (offscreen_usage(host_copy), true),
        ],
{
    let base: u32 = USAGE_COLOR_ATTACHMENT | USAGE_TRANSFER_SRC | USAGE_TRANSFER_DST
        | USAGE_SAMPLED;
    let optimal: u32 = if supports_optimal_host_copy {
        base | USAGE_HOST_TRANSFER
    } else {
        base
    };
    let linear: u32 = if host_copy {
        base | USAGE_HOST_TRANSFER
    } else {
        base
    };
    let attempts: Vec<(u32, bool)> = vec![(optimal, false), (linear, true)];
    assert(attempts@ =~= seq![
        (offscreen_usage(supports_optimal_host_copy), false),
        (offscreen_usage(host_copy), true),
    ]);
    attempts
}

/// Uploaded pixels keep their place: a pixel of the region is read where it is in memory, by its
/// line and its place in the line, and written where it is in the image.
pub proof fn law_uploaded_pixels_keep_their_place(
    region: Rectangle,
    bpp: usize,
    src_stride: usize,
    dst_offset: usize,
    dst_pitch: usize,
    rows: RowCopy,
    x: int,
    y: int,
)
    requires
        call_ensures(upload_rows, (region, bpp, src_stride, dst_offset, dst_pitch), rows),
        region.loc.x >= 0,
        region.loc.y >= 0,
        region.loc.y * src_stride + region.loc.x * bpp <= usize::MAX,
        dst_offset + region.loc.y * dst_pitch + region.loc.x * bpp <= usize::MAX,
        region.size.w * bpp <= usize::MAX,
        region.loc.x <= x < region.loc.x + region.size.w,
        region.loc.y <= y < region.loc.y + region.size.h,
    ensures
        ({
            let line = y - region.loc.y;
            let byte = (x - region.loc.x) * bpp;
            &&& 0 <= line < rows.rows
            &&& 0 <= byte && byte + bpp <= rows.bytes
            &&& rows.src_row(line) + byte == y * src_stride + x * bpp
            &&& rows.dst_row(line) + byte == dst_offset + y * dst_pitch + x * bpp
        }),
{
    let (rx, ry, w, h) = (
        region.loc.x as int,
        region.loc.y as int,
        region.size.w as int,
        region.size.h as int,
    );
    let (b, s, p) = (bpp as int, src_stride as int, dst_pitch as int);
    assert(0 <= ry * s && 0 <= rx * b && 0 <= ry * p && 0 <= w * b) by (nonlinear_arith)
        requires
            0 <= rx,
            0 <= ry,
            0 <= w,
            0 <= b,
            0 <= s,
            0 <= p,
    ;
    let line = y - ry;
    let byte = (x - rx) * b;
    assert(0 <= byte && byte + b <= w * b) by (nonlinear_arith)
        requires
            byte == (x - rx) * b,
            0 <= x - rx < w,
            0 <= b,
    ;
    assert(ry * s + rx * b + line * s + byte == y * s + x * b) by (nonlinear_arith)
        requires
            line == y - ry,
            byte == (x - rx) * b,
    ;
    assert(ry * p + rx * b + line * p + byte == y * p + x * b) by (nonlinear_arith)
        requires
            line == y - ry,
            byte == (x - rx) * b,
    ;
}

/// An upload takes the pixels of the region that the image has, and no others. The device is
/// told where the first of them is in memory, and how many pixels a line there has.
pub proof fn law_uploads_take_the_region(
    target: UploadTarget,
    stride: usize,
    bpp: usize,
    region: Rectangle,
    host_copy: bool,
    r: Result<Upload, TransferError>,
    x: int,
    y: int,
)
    requires
        call_ensures(upload_host_memory_to_image, (&target, stride, bpp, region, host_copy), r),
        target.width <= i32::MAX,
        target.height <= i32::MAX,
        region.size.w >= 0,
        region.size.h >= 0,
        region.in_range(),
        target.height * stride + target.width * bpp <= usize::MAX,
        bpp > 0 ==> stride / bpp <= u32::MAX,
    ensures
        ({
            let inside = |part: Rectangle|
                part.loc.x <= x < part.loc.x + part.size.w && part.loc.y <= y < part.loc.y
                    + part.size.h;
            let wanted = inside(region) && 0 <= x < target.width && 0 <= y < target.height;
            &&& r is Err <==> bpp == 0 || !(upload_of(target, stride, bpp, region, true) == Ok::<
                Upload,
                TransferError,
            >(Upload::Nothing)) && !host_copy
            &&& bpp == 0 ==> r == Err::<Upload, TransferError>(
                TransferError::UnsupportedPixelFormat,
            )
            &&& bpp > 0 && r is Err ==> r == Err::<Upload, TransferError>(
                TransferError::MissingExtension,
            )
            &&& r == Ok::<Upload, TransferError>(Upload::Nothing) ==> !wanted
            &&& r matches Ok(Upload::Rows { transition, region: part }) ==> {
                &&& inside(part) == wanted
                &&& transition == (target.layout != 1)
                &&& target.mappable
            }
            &&& r matches Ok(Upload::Device { transition, region: part, host_offset, row_length })
                ==> {
                &&& inside(part) == wanted
                &&& transition == (target.layout != 1)
                &&& !target.mappable
                &&& part.loc.x >= 0 && part.loc.y >= 0
                &&& host_offset == part.loc.y * stride + part.loc.x * bpp
                &&& row_length * bpp <= stride < (row_length + 1) * bpp
            }
        }),
{
    let whole = Rectangle {
        loc: Point { x: 0, y: 0 },
        size: Size { w: target.width as i32, h: target.height as i32 },
    };
    crate::geometry::law_intersection_is_common_area(region, whole, x, y);
    if bpp > 0 {
        match region.intersection_spec(whole) {
            Some(part) => {
                assert(0 <= part.loc.x <= target.width && 0 <= part.loc.y <= target.height);
                assert(0 <= part.loc.y * stride <= target.height * stride) by (nonlinear_arith)
                    requires
                        0 <= part.loc.y <= target.height,
                        stride >= 0,
                ;
                assert(0 <= part.loc.x * bpp <= target.width * bpp) by (nonlinear_arith)
                    requires
                        0 <= part.loc.x <= target.width,
                        bpp >= 0,
                ;
                let q = stride as int / bpp as int;
                vstd::arithmetic::div_mod::lemma_fundamental_div_mod(stride as int, bpp as int);
                let rest = stride as int % bpp as int;
                assert(q * bpp <= stride < (q + 1) * bpp) by (nonlinear_arith)
                    requires
                        stride == bpp * q + rest,
                        0 <= rest < bpp,
                ;
                assert(q >= 0) by (nonlinear_arith)
                    requires
                        stride == bpp * q + rest,
                        0 <= rest < bpp,
                        stride >= 0,
                ;
            },
            None => {},
        }
    }
}

/// A readback takes as much of the region as the image has, and at least one pixel. Half float
/// pixels have eight bytes, others four, and lines follow each other without gaps.
pub proof fn law_readbacks_take_the_region(
    image: ImageState,
    region: Rectangle,
    format: u32,
    copy: StagingCopy,
)
    requires
        call_ensures(staging_copy, (&image, region, format), copy),
        positive(image.width) * 8 * positive(image.height) <= u64::MAX,
        region.size.w >= 0,
        region.size.h >= 0,
    ensures
        copy.width == (if region.size.w == 0 || image.width == 0 {
            1
        } else if region.size.w < image.width {
            region.size.w as u32
        } else {
            image.width
        }),
        copy.height == (if region.size.h == 0 || image.height == 0 {
            1
        } else if region.size.h < image.height {
            region.size.h as u32
        } else {
            image.height
        }),
        copy.offset_x == (if region.loc.x < 0 { 0 } else { region.loc.x }),
        copy.offset_y == (if region.loc.y < 0 { 0 } else { region.loc.y }),
        copy.bpp == (if format == 0x4834_4241 || format == 0x4834_4258 { 8 } else { 4u64 }),
        copy.stride == copy.width * copy.bpp,
        copy.size == copy.stride * copy.height,
{
}

/// A readback leaves the image as it was: the image is made a source, read, and given its layout
/// back, and what comes after waits for the read. What was drawn to it is waited for.
pub proof fn law_readbacks_restore_the_image(image: ImageState, queues: Queues, blocking: bool)
    ensures
        ({
            let (before, after) = readback_barriers(image, queues, blocking);
            &&& before.image == image.id && after.image == image.id
            &&& before.old_layout == image.layout
            &&& before.new_layout == 6 && after.old_layout == 6
            &&& image.layout != 0 ==> after.new_layout == image.layout
            &&& image.layout == 0 ==> after.new_layout == 1
            &&& before.dst_access == 0x800 && after.src_access == 0x800
            &&& before.dst_stage == 0x1000 && after.src_stage == 0x1000
            &&& after.dst_stage == 0x1_0000
            &&& image.layout == 2 && !image.acquires() ==> before.src_stage & 0x400 == 0x400
                && before.src_access & 0x100 == 0x100
            &&& !before.depth && !after.depth
        }),
{
    assert((0x1000u64 | 0x800u64 | 0x400u64) & 0x400u64 == 0x400u64) by (bit_vector);
    assert((0x1000u64 | 0x4_0000_0000u64 | 0x100u64) & 0x100u64 == 0x100u64) by (bit_vector);
    assert(0x400u64 & 0x400u64 == 0x400u64 && 0x100u64 & 0x100u64 == 0x100u64) by (bit_vector);
}

/// Staging memory is visible to the host, and coherent where there is such a type: only then no
/// flush is needed.
pub proof fn law_staging_memory_is_mapped(
    props: MemoryProperties,
    type_bits: u32,
    r: Result<(u32, bool), TransferError>,
)
    requires
        call_ensures(staging_memory_type, (&props, type_bits), r),
        props.wf(),
    ensures
        r is Err ==> props.no_match(type_bits, 0x2),
        r matches Ok((i, coherent)) ==> props.is_first_match(
            type_bits,
            if coherent {
                0x6
            } else {
                0x2
            },
            i as int,
        ),
        r matches Ok((i, false)) ==> props.no_match(type_bits, 0x6),
{
    assert(0x2u32 | 0x4u32 == 0x6u32) by (bit_vector);
}

} // verus!
