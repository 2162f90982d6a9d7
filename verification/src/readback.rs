//! Reading images back through staging buffers.

use vstd::prelude::*;

use crate::barrier::{Barrier, ImageState, Queues};
use crate::geometry::Rectangle;
use crate::memory::MemoryProperties;
use crate::renderer::VulkanRenderer;
use crate::transfer::{
    prepare_readback, staging_copy, staging_memory_type, RowCopy, StagingCopy,
};
#[allow(unused_imports)]
use crate::frame::positive;
#[allow(unused_imports)]
use crate::transfer::{
    is_staging_type, layout_after_readback, lemma_rows_grow, readback_barriers, staging_copy_of,
};
use crate::vk::{ERROR_DEVICE_LOST, LAYOUT_GENERAL, LAYOUT_UNDEFINED};

verus! {

/// `TIMEOUT`.
pub const RESULT_TIMEOUT: i32 = 2;

/// Why an image could not be read back. The numbers are result codes of the device.
#[derive(Debug, Clone, Copy, PartialEq, Eq, Structural)]
pub enum ReadbackError {
    HostImageCopyError(i32),
    NoMemoryAvailable,
    VulkanAllocate(i32),
    VulkanBind(i32),
    CommandBufferError(i32),
    DeadDevice,
    SubmitError(i32),
}

/// Something to give back to the device.
#[derive(Debug, Clone, Copy, PartialEq, Eq, Structural)]
pub enum StagingRelease {
    Unmap(u64),
    Buffer(u64),
    Memory(u64),
}

/// A read back on its way: the staging buffer is created and given memory, the copy is
/// recorded and submitted. Handle 0 stands for nothing.
#[derive(Debug, Clone, Copy, PartialEq, Eq, Structural)]
pub struct Readback {
    /// The caller waits for the copy.
    pub blocking: bool,
    pub copy: StagingCopy,
    pub buffer: u64,
    pub memory: u64,
    pub bound: bool,
    pub is_coherent: bool,
}

/// Starts to read back part of an image, and to wait for it.
pub fn copy_image_via_staging_buffer(image: &ImageState, region: Rectangle, format: u32) -> (run:
    Readback)
    requires
        positive(image.width) * 8 * positive(image.height) <= u64::MAX,
    ensures
        run == Readback::start(*image, region, format, true),
{
    Readback {
        blocking: true,
        copy: staging_copy(image, region, format),
        buffer: 0,
        memory: 0,
        bound: false,
        is_coherent: false,
    }
}

impl VulkanRenderer {
    /// Starts to read back part of an image without waiting for it.
    pub fn record_copy_image_to_shm(image: &ImageState, region: Rectangle, format: u32) -> (run:
        Readback)
        requires
            positive(image.width) * 8 * positive(image.height) <= u64::MAX,
        ensures
            run == Readback::start(*image, region, format, false),
    {
        Readback {
            blocking: false,
            copy: staging_copy(image, region, format),
            buffer: 0,
            memory: 0,
            bound: false,
            is_coherent: false,
        }
    }
}

impl Readback {
    pub open spec fn start(image: ImageState, region: Rectangle, format: u32, blocking: bool) -> Readback {
        Readback {
            blocking,
            copy: staging_copy_of(image, region, format),
            buffer: 0,
            memory: 0,
            bound: false,
            is_coherent: false,
        }
    }

    /// What is given back if the read back ends early. Once the memory is bound, only a caller
    /// that waits gives it back.
    pub open spec fn releases(self) -> Seq<StagingRelease> {
        if self.bound && !self.blocking {
            Seq::empty()
        } else {
            (if self.buffer != 0 {
                seq![StagingRelease::Buffer(self.buffer)]
            } else {
                Seq::empty()
            }) + (if self.memory != 0 {
                seq![StagingRelease::Memory(self.memory)]
            } else {
                Seq::empty()
            })
        }
    }

    /// See [`Readback::releases`].
    pub fn release(&self) -> (releases: Vec<StagingRelease>)
        ensures
            releases@ == self.releases(),
    {
        let mut releases: Vec<StagingRelease> = Vec::new();
        if self.blocking || !self.bound {
            if self.buffer != 0 {
                releases.push(StagingRelease::Buffer(self.buffer));
            }
            if self.memory != 0 {
                releases.push(StagingRelease::Memory(self.memory));
            }
        }
        assert(releases@ =~= self.releases());
        releases
    }

    /// Takes over the staging buffer.
    pub fn buffer_created(&mut self, buffer: Result<u64, i32>) -> (r: Result<(), ReadbackError>)
        ensures
            match buffer {
                Ok(buffer) => {
                    &&& r == Ok::<(), ReadbackError>(())
                    &&& *final(self) == (Readback { buffer, ..*old(self) })
                },
                Err(code) => {
                    &&& r == Err::<(), ReadbackError>(ReadbackError::HostImageCopyError(code))
                    &&& *final(self) == *old(self)
                },
            },
    {
        match buffer {
            Ok(buffer) => {
                self.buffer = buffer;
                Ok(())
            },
            Err(code) => Err(ReadbackError::HostImageCopyError(code)),
        }
    }

    /// Picks the memory type of the staging buffer.
    pub fn choose_memory(&mut self, props: &MemoryProperties, type_bits: u32) -> (r: Result<
        u32,
        ReadbackError,
    >)
        requires
            props.wf(),
        ensures
            match r {
                Ok(index) => {
                    &&& is_staging_type(*props, type_bits, Some((index, final(self).is_coherent)))
                    &&& *final(self) == (Readback {
                        is_coherent: final(self).is_coherent,
                        ..*old(self)
                    })
                },
                Err(error) => {
                    &&& error == ReadbackError::NoMemoryAvailable
                    &&& is_staging_type(*props, type_bits, None)
                    &&& *final(self) == *old(self)
                },
            },
    {
        match staging_memory_type(props, type_bits) {
            Ok((index, is_coherent)) => {
                self.is_coherent = is_coherent;
                Ok(index)
            },
            Err(_) => Err(ReadbackError::NoMemoryAvailable),
        }
    }

    /// Takes over the memory of the staging buffer.
    pub fn memory_allocated(&mut self, memory: Result<u64, i32>) -> (r: Result<(), ReadbackError>)
        ensures
            match memory {
                Ok(memory) => {
                    &&& r == Ok::<(), ReadbackError>(())
                    &&& *final(self) == (Readback { memory, ..*old(self) })
                },
                Err(code) => {
                    &&& r == Err::<(), ReadbackError>(ReadbackError::VulkanAllocate(code))
                    &&& *final(self) == *old(self)
                },
            },
    {
        match memory {
            Ok(memory) => {
                self.memory = memory;
                Ok(())
            },
            Err(code) => Err(ReadbackError::VulkanAllocate(code)),
        }
    }

    /// The memory has been bound to the staging buffer, or not.
    pub fn memory_bound(&mut self, result: Result<(), i32>) -> (r: Result<(), ReadbackError>)
        ensures
            match result {
                Ok(_) => {
                    &&& r == Ok::<(), ReadbackError>(())
                    &&& *final(self) == (Readback { bound: true, ..*old(self) })
                },
                Err(code) => {
                    &&& r == Err::<(), ReadbackError>(ReadbackError::VulkanBind(code))
                    &&& *final(self) == *old(self)
                },
            },
    {
        match result {
            Ok(_) => {
                self.bound = true;
                Ok(())
            },
            Err(code) => Err(ReadbackError::VulkanBind(code)),
        }
    }

    /// The barriers that are recorded before and after the copy.
    pub fn record(&self, image: &mut ImageState, queues: &Queues) -> (barriers: (Barrier, Barrier))
        ensures
            barriers == readback_barriers(*old(image), *queues, self.blocking),
            *final(image) == (ImageState { needs_acquire: false, ..*old(image) }),
    {
        prepare_readback(image, queues, self.blocking)
    }

    /// The commands have been ended, or not. The image has its layout back only now.
    pub fn commands_ended(&self, image: &mut ImageState, result: Result<(), i32>) -> (r: Result<
        (),
        ReadbackError,
    >)
        ensures
            match result {
                Ok(_) => {
                    &&& r == Ok::<(), ReadbackError>(())
                    &&& *final(image) == (ImageState {
                        layout: layout_after_readback(old(image).layout),
                        ..*old(image)
                    })
                },
                Err(code) => {
                    &&& r == Err::<(), ReadbackError>(ReadbackError::CommandBufferError(code))
                    &&& *final(image) == *old(image)
                },
            },
    {
        match result {
            Ok(_) => {
                if image.layout == LAYOUT_UNDEFINED {
                    image.layout = LAYOUT_GENERAL;
                }
                Ok(())
            },
            Err(code) => Err(ReadbackError::CommandBufferError(code)),
        }
    }

    /// The commands have been submitted, or not.
    pub fn submitted(&self, result: Result<(), i32>) -> (r: Result<(), ReadbackError>)
        ensures
            r == match result {
                Ok(_) => Ok::<(), ReadbackError>(()),
                Err(code) => Err(
                    if code == ERROR_DEVICE_LOST {
                        ReadbackError::DeadDevice
                    } else {
                        ReadbackError::SubmitError(code)
                    },
                ),
            },
    {
        match result {
            Ok(_) => Ok(()),
            Err(code) => {
                if code == ERROR_DEVICE_LOST {
                    Err(ReadbackError::DeadDevice)
                } else {
                    Err(ReadbackError::SubmitError(code))
                }
            },
        }
    }

    /// What is handed to a caller that does not wait; `point` is that of the submission.
    pub fn pending(&self, point: u64) -> (pending: PendingVulkanShmCopy)
        ensures
            pending == (PendingVulkanShmCopy {
                staging_buffer: self.buffer,
                staging_memory: self.memory,
                buffer_size: self.copy.size,
                is_coherent: self.is_coherent,
                point,
                width: self.copy.width,
                height: self.copy.height,
                bpp: self.copy.bpp as usize,
            }),
    {
        PendingVulkanShmCopy {
            staging_buffer: self.buffer,
            staging_memory: self.memory,
            buffer_size: self.copy.size,
            is_coherent: self.is_coherent,
            point,
            width: self.copy.width,
            height: self.copy.height,
            bpp: self.copy.bpp as usize,
        }
    }
}

/// Whatever step fails, a caller that waits gives back exactly what was obtained, and the
/// buffer before its memory.
pub proof fn law_waiting_readback_keeps_nothing(run: Readback)
    requires
        run.blocking,
    ensures
        run.buffer != 0 ==> run.releases().contains(StagingRelease::Buffer(run.buffer)),
        run.memory != 0 ==> run.releases().contains(StagingRelease::Memory(run.memory)),
        run.buffer != 0 && run.memory != 0 ==> run.releases() == seq![
            StagingRelease::Buffer(run.buffer),
            StagingRelease::Memory(run.memory),
        ],
{
    let all = run.releases();
    if run.buffer != 0 {
        assert(all[0] == StagingRelease::Buffer(run.buffer));
    }
    if run.memory != 0 {
        assert(all[all.len() - 1] == StagingRelease::Memory(run.memory));
    }
    if run.buffer != 0 && run.memory != 0 {
        assert(all =~= seq![
            StagingRelease::Buffer(run.buffer),
            StagingRelease::Memory(run.memory),
        ]);
    }
}

/// What follows a wait for a read back.
#[derive(Debug, Clone, Copy, PartialEq, Eq, Structural)]
pub enum CopyWait {
    Done,
    /// The wait has timed out and is repeated.
    Again,
    Fail(i32),
}

/// A read back that is under way.
#[derive(Debug, Clone, Copy, PartialEq, Eq, Structural)]
pub struct PendingVulkanShmCopy {
    pub staging_buffer: u64,
    pub staging_memory: u64,
    pub buffer_size: u64,
    pub is_coherent: bool,
    pub point: u64,
    pub width: u32,
    pub height: u32,
    pub bpp: usize,
}

impl PendingVulkanShmCopy {
    /// The rows that go to a buffer with an offset and a stride. Nothing fits in front of a buffer:
    /// with a negative offset there are no rows, and with a negative stride there is only the
    /// first.
    pub open spec fn rows(self, dst_offset: i32, dst_stride: i32) -> RowCopy {
        let line = (self.width * self.bpp) as usize;
        RowCopy {
            rows: if dst_offset < 0 {
                0
            } else if dst_stride < 0 && self.height > 1 {
                1
            } else {
                self.height as usize
            },
            bytes: if dst_stride < 0 || line < dst_stride {
                line
            } else {
                dst_stride as usize
            },
            src_start: 0,
            src_stride: line,
            dst_start: if dst_offset < 0 {
                0
            } else {
                dst_offset as usize
            },
            dst_stride: if dst_stride < 0 {
                line
            } else {
                dst_stride as usize
            },
        }
    }

    /// Copies what was read back to a buffer. Lines are cut off at the stride of the buffer, and
    /// lines that do not fit into it are left out.
    pub fn copy_to(&self, src: &[u8], dst: &mut [u8], dst_offset: i32, dst_stride: i32)
        requires
            self.width * self.bpp * self.height <= src@.len(),
            dst_offset + self.height * dst_stride <= usize::MAX,
            dst_stride < 0 && self.height > 0 ==> dst_offset + self.width * self.bpp <= usize::MAX,
        ensures
            final(dst)@.len() == old(dst)@.len(),
            ({
                let copy = self.rows(dst_offset, dst_stride);
                &&& forall|r: int, k: int|
                    0 <= r < copy.rows && 0 <= k < copy.bytes && copy.fits(
                        r,
                        old(dst)@.len() as int,
                    ) ==> #[trigger] final(dst)@[copy.dst_row(r) + k] == src@[copy.src_row(r) + k]
                &&& forall|at: int|
                    0 <= at < old(dst)@.len() && !copy.covers(at, old(dst)@.len() as int)
                        ==> final(dst)@[at] == old(dst)@[at]
            }),
    {
        let src_len: usize = src.len();
        if self.height == 0 || dst_offset < 0 {
            return ;
        }
        proof {
            assert(self.width * self.bpp <= self.width * self.bpp * self.height)
                by (nonlinear_arith)
                requires
                    self.height >= 1,
                    self.width * self.bpp >= 0,
            ;
            assert(self.width * self.bpp >= 0) by (nonlinear_arith);
        }
        let line: usize = self.width as usize * self.bpp;
        let copy = RowCopy {
            rows: if dst_stride < 0 {
                1
            } else {
                self.height as usize
            },
            bytes: if dst_stride < 0 || line < dst_stride as usize {
                line
            } else {
                dst_stride as usize
            },
            src_start: 0,
            src_stride: line,
            dst_start: dst_offset as usize,
            dst_stride: if dst_stride < 0 {
                line
            } else {
                dst_stride as usize
            },
        };
        proof {
            assert(self.height * line == self.width * self.bpp * self.height) by (nonlinear_arith)
                requires
                    line == self.width * self.bpp,
            ;
            lemma_rows_grow(self.height - 1, self.height as int, line as int);
            if dst_stride < 0 {
                assert(copy.rows == 1);
                assert(copy.src_row(0) == 0 && copy.src_row(1) == line);
                assert(copy.dst_row(1) == dst_offset + line);
            }
        }
        copy.copy(src, dst);
    }
}

impl PendingVulkanShmCopy {
    /// What follows a wait for the point.
    pub fn after_wait(&self, result: Result<(), i32>) -> (step: CopyWait)
        ensures
            step == match result {
                Ok(_) => CopyWait::Done,
                Err(code) => if code == RESULT_TIMEOUT {
                    CopyWait::Again
                } else {
                    CopyWait::Fail(code)
                },
            },
    {
        match result {
            Ok(_) => CopyWait::Done,
            Err(code) => {
                if code == RESULT_TIMEOUT {
                    CopyWait::Again
                } else {
                    CopyWait::Fail(code)
                }
            },
        }
    }

    /// Ends a copy that was carried out: everything is given back.
    pub fn finish(&mut self) -> (releases: Vec<StagingRelease>)
        ensures
            releases@ == seq![
                StagingRelease::Unmap(old(self).staging_memory),
                StagingRelease::Buffer(old(self).staging_buffer),
                StagingRelease::Memory(old(self).staging_memory),
            ],
            *final(self) == (PendingVulkanShmCopy {
                staging_buffer: 0,
                staging_memory: 0,
                ..*old(self)
            }),
    {
        let mut releases: Vec<StagingRelease> = Vec::new();
        releases.push(StagingRelease::Unmap(self.staging_memory));
        releases.push(StagingRelease::Buffer(self.staging_buffer));
        releases.push(StagingRelease::Memory(self.staging_memory));
        assert(releases@ =~= seq![
            StagingRelease::Unmap(old(self).staging_memory),
            StagingRelease::Buffer(old(self).staging_buffer),
            StagingRelease::Memory(old(self).staging_memory),
        ]);
        self.staging_buffer = 0;
        self.staging_memory = 0;
        releases
    }

    /// Gives up a copy. The first part of the result says whether the device may still write
    /// to the buffer, so that the point is waited for once; the rest is given back then.
    /// A copy that was carried out has nothing left.
    pub fn abandon(&mut self) -> (r: (bool, Vec<StagingRelease>))
        ensures
            r.0 == (old(self).staging_buffer != 0),
            r.1@ == (if old(self).staging_buffer != 0 {
                seq![StagingRelease::Buffer(old(self).staging_buffer)]
            } else {
                Seq::empty()
            }) + (if old(self).staging_memory != 0 {
                seq![StagingRelease::Memory(old(self).staging_memory)]
            } else {
                Seq::empty()
            }),
            *final(self) == (PendingVulkanShmCopy {
                staging_buffer: 0,
                staging_memory: 0,
                ..*old(self)
            }),
    {
        let mut releases: Vec<StagingRelease> = Vec::new();
        let wait: bool = self.staging_buffer != 0;
        if wait {
            releases.push(StagingRelease::Buffer(self.staging_buffer));
        }
        if self.staging_memory != 0 {
            releases.push(StagingRelease::Memory(self.staging_memory));
        }
        self.staging_buffer = 0;
        self.staging_memory = 0;
        (wait, releases)
    }
}

} // verus!
