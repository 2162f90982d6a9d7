//! Three dimensional lookup tables: the identity table, and how a table becomes a texture.

use vstd::prelude::*;

use crate::barrier::Barrier;
use crate::image::Error;
use crate::memory::{MemoryProperties, DEVICE_LOCAL, HOST_VISIBLE_COHERENT};
use crate::softfloat::{
    f16_of_f32, f32_quotient, f32_quotient_of, f32_to_f16, law_self_quotient_is_one, F32_NAN,
};
use crate::vk::{
    ACCESS_NONE, ACCESS_SHADER_SAMPLED_READ, ACCESS_TRANSFER_WRITE, FORMAT_R16G16B16A16_SFLOAT,
    LAYOUT_SHADER_READ_ONLY, LAYOUT_TRANSFER_DST, LAYOUT_UNDEFINED, STAGE_ALL_TRANSFER,
    STAGE_FRAGMENT_SHADER, STAGE_NONE,
};
#[allow(unused_imports)]
use crate::nearest::{gap, lemma_parts32, units32};
#[allow(unused_imports)]
use crate::softfloat::{
    f32_shift, f32_significand, lemma_two_pow_grows, lemma_two_pow_positive, lemma_two_pow_split,
    lemma_two_pow_values, two_pow,
};

verus! {

/// 1.0 in half precision.
pub const F16_ONE: u16 = 0x3c00;

/// Position `k` of `size` evenly spaced positions from 0 to 1, in single precision bits. A single
/// position is nowhere in particular: it is not a number.
pub open spec fn grid_position(k: int, size: int) -> u32 {
    if size == 1 {
        F32_NAN
    } else {
        f32_quotient_of(k as nat, (size - 1) as nat) as u32
    }
}

/// Position `k` of `size` evenly spaced positions from 0 to 1, rounded to single and then to
/// half precision.
pub open spec fn lut_position(k: int, size: int) -> int {
    f16_of_f32(grid_position(k, size))
}

/// Component `c` of entry `n` of the identity table: red counts up first, then green, then
/// blue. The fourth component is 1.
pub open spec fn identity_component(size: int, n: int, c: int) -> int {
    if c == 0 {
        lut_position(n % size, size)
    } else if c == 1 {
        lut_position((n / size) % size, size)
    } else if c == 2 {
        lut_position(n / (size * size), size)
    } else {
        F16_ONE as int
    }
}

/// Number of half precision values in a table with `size` positions along each axis.
pub open spec fn lut_len(size: int) -> int {
    size * size * size * 4
}

/// Where entry (r, g, b) of a table stands, and how its place leads back to it.
proof fn lemma_entry_place(size: int, r: int, g: int, b: int)
    requires
        0 <= r < size,
        0 <= g < size,
        0 <= b < size,
    ensures
        ({
            let n = (b * size + g) * size + r;
            &&& n % size == r
            &&& (n / size) % size == g
            &&& n / (size * size) == b
        }),
{
    let row = b * size + g;
    let n = row * size + r;
    vstd::arithmetic::div_mod::lemma_fundamental_div_mod_converse(n, size, row, r);
    vstd::arithmetic::div_mod::lemma_fundamental_div_mod_converse(row, size, b, g);
    let plane = size * size;
    let rest = g * size + r;
    assert(n == b * plane + rest && 0 <= rest < plane) by (nonlinear_arith)
        requires
            plane == size * size,
            row == b * size + g,
            n == row * size + r,
            rest == g * size + r,
            0 <= r < size,
            0 <= g < size,
    ;
    vstd::arithmetic::div_mod::lemma_fundamental_div_mod_converse(n, plane, b, rest);
}

/// A color, in single precision bits.
#[derive(Debug, Clone, Copy, PartialEq, Eq, Structural)]
pub struct LutColor {
    pub r: u32,
    pub g: u32,
    pub b: u32,
}

/// Entry `n` of the grid of a table: red counts up first, then green, then blue.
pub open spec fn grid_color(size: int, n: int) -> LutColor {
    LutColor {
        r: grid_position(n % size, size),
        g: grid_position((n / size) % size, size),
        b: grid_position(n / (size * size), size),
    }
}

/// Component `c` of a color in a table. The fourth component is 1.
pub open spec fn packed_component(color: LutColor, c: int) -> int {
    if c == 0 {
        f16_of_f32(color.r)
    } else if c == 1 {
        f16_of_f32(color.g)
    } else if c == 2 {
        f16_of_f32(color.b)
    } else {
        F16_ONE as int
    }
}

fn position(k: u32, size: u32) -> (bits: u32)
    requires
        size > 0,
    ensures
        bits == grid_position(k as int, size as int),
{
    if size == 1 {
        F32_NAN
    } else {
        f32_quotient(k as u64, (size - 1) as u64)
    }
}

/// The colors that a table with `size` positions along each axis holds an answer for.
#[verifier::rlimit(40)]
pub fn lut_grid(size: u32) -> (grid: Vec<LutColor>)
    requires
        lut_len(size as int) <= u32::MAX,
    ensures
        grid@.len() == size * size * size,
        forall|n: int| 0 <= n < grid@.len() ==> #[trigger] grid@[n] == grid_color(size as int, n),
{
    let mut grid: Vec<LutColor> = Vec::new();
    let ghost s = size as int;
    let mut b: u32 = 0;
    while b < size
        invariant
            s == size,
            b <= size,
            grid@.len() == b * s * s,
            forall|n: int| 0 <= n < grid@.len() ==> #[trigger] grid@[n] == grid_color(s, n),
        decreases size - b,
    {
        let b_val: u32 = position(b, size);
        let mut g: u32 = 0;
        while g < size
            invariant
                s == size,
                b < size,
                g <= size,
                b_val == grid_position(b as int, s),
                grid@.len() == (b * s + g) * s,
                forall|n: int| 0 <= n < grid@.len() ==> #[trigger] grid@[n] == grid_color(s, n),
            decreases size - g,
        {
            let g_val: u32 = position(g, size);
            let mut r: u32 = 0;
            while r < size
                invariant
                    s == size,
                    b < size,
                    g < size,
                    r <= size,
                    b_val == grid_position(b as int, s),
                    g_val == grid_position(g as int, s),
                    grid@.len() == (b * s + g) * s + r,
                    forall|n: int| 0 <= n < grid@.len() ==> #[trigger] grid@[n] == grid_color(s, n),
                decreases size - r,
            {
                let r_val: u32 = position(r, size);
                proof {
                    lemma_entry_place(s, r as int, g as int, b as int);
                }
                grid.push(LutColor { r: r_val, g: g_val, b: b_val });
                r = r + 1;
            }
            g = g + 1;
            assert((b * s + (g - 1)) * s + s == (b * s + g) * s) by (nonlinear_arith);
        }
        b = b + 1;
        assert(((b - 1) * s + s) * s == b * s * s) by (nonlinear_arith);
    }
    grid
}

/// A table in half precision out of its colors.
pub fn pack_lut(colors: &Vec<LutColor>) -> (data: Vec<u16>)
    ensures
        data@.len() == 4 * colors@.len(),
        forall|k: int|
            0 <= k < data@.len() ==> #[trigger] data@[k] == packed_component(
                colors@[k / 4],
                k % 4,
            ),
{
    let mut data: Vec<u16> = Vec::new();
    let mut n: usize = 0;
    while n < colors.len()
        invariant
            n <= colors@.len(),
            data@.len() == 4 * n,
            forall|k: int|
                0 <= k < data@.len() ==> #[trigger] data@[k] == packed_component(
                    colors@[k / 4],
                    k % 4,
                ),
        decreases colors@.len() - n,
    {
        let color: LutColor = colors[n];
        data.push(f32_to_f16(color.r));
        data.push(f32_to_f16(color.g));
        data.push(f32_to_f16(color.b));
        data.push(F16_ONE);
        n = n + 1;
    }
    data
}

/// A table that maps each color to itself.
pub fn generate_identity_lut(size: u32) -> (data: Vec<u16>)
    requires
        lut_len(size as int) <= u32::MAX,
    ensures
        data@.len() == lut_len(size as int),
        forall|k: int|
            0 <= k < data@.len() ==> #[trigger] data@[k] == identity_component(
                size as int,
                k / 4,
                k % 4,
            ),
{
    pack_lut(&lut_grid(size))
}

/// What happens to make a texture out of a table.
#[derive(Debug, Clone, Copy, PartialEq, Eq, Structural)]
pub enum LutStep {
    CreateImage,
    Allocate,
    Bind,
    CreateView,
    CreateSampler,
    CreateStaging,
    AllocateStaging,
    BindStaging,
    MapStaging,
    CreatePool,
    AllocateCommands,
    BeginCommands,
    EndCommands,
    Submit,
    WaitIdle,
}

/// Why there is no texture.
#[derive(Debug, Clone, Copy, PartialEq, Eq, Structural)]
pub enum LutError {
    ImageError(Error),
    SamplerError(i32),
    CommandPoolError(i32),
    CommandBufferError(i32),
    SubmitError(i32),
}

impl LutStep {
    /// The error of a step that failed with a result code.
    pub open spec fn error_of(self, code: i32) -> LutError {
        match self {
            LutStep::CreateImage => LutError::ImageError(Error::VulkanImage(code)),
            LutStep::Bind | LutStep::BindStaging => LutError::ImageError(Error::VulkanBind(code)),
            LutStep::CreateView => LutError::ImageError(Error::VulkanImageView(code)),
            LutStep::Allocate | LutStep::CreateStaging | LutStep::AllocateStaging
            | LutStep::MapStaging => LutError::ImageError(Error::VulkanAllocate(code)),
            LutStep::CreateSampler => LutError::SamplerError(code),
            LutStep::CreatePool => LutError::CommandPoolError(code),
            LutStep::AllocateCommands | LutStep::BeginCommands | LutStep::EndCommands
            => LutError::CommandBufferError(code),
            LutStep::Submit | LutStep::WaitIdle => LutError::SubmitError(code),
        }
    }

    /// See [`LutStep::error_of`].
    pub fn error(&self, code: i32) -> (error: LutError)
        ensures
            error == self.error_of(code),
    {
        match self {
            LutStep::CreateImage => LutError::ImageError(Error::VulkanImage(code)),
            LutStep::Bind | LutStep::BindStaging => LutError::ImageError(Error::VulkanBind(code)),
            LutStep::CreateView => LutError::ImageError(Error::VulkanImageView(code)),
            LutStep::Allocate | LutStep::CreateStaging | LutStep::AllocateStaging
            | LutStep::MapStaging => LutError::ImageError(Error::VulkanAllocate(code)),
            LutStep::CreateSampler => LutError::SamplerError(code),
            LutStep::CreatePool => LutError::CommandPoolError(code),
            LutStep::AllocateCommands | LutStep::BeginCommands | LutStep::EndCommands
            => LutError::CommandBufferError(code),
            LutStep::Submit | LutStep::WaitIdle => LutError::SubmitError(code),
        }
    }
}

impl LutStep {
    /// The step after this one; the last has none.
    pub open spec fn following(self) -> Option<LutStep> {
        match self {
            LutStep::CreateImage => Some(LutStep::Allocate),
            LutStep::Allocate => Some(LutStep::Bind),
            LutStep::Bind => Some(LutStep::CreateView),
            LutStep::CreateView => Some(LutStep::CreateSampler),
            LutStep::CreateSampler => Some(LutStep::CreateStaging),
            LutStep::CreateStaging => Some(LutStep::AllocateStaging),
            LutStep::AllocateStaging => Some(LutStep::BindStaging),
            LutStep::BindStaging => Some(LutStep::MapStaging),
            LutStep::MapStaging => Some(LutStep::CreatePool),
            LutStep::CreatePool => Some(LutStep::AllocateCommands),
            LutStep::AllocateCommands => Some(LutStep::BeginCommands),
            LutStep::BeginCommands => Some(LutStep::EndCommands),
            LutStep::EndCommands => Some(LutStep::Submit),
            LutStep::Submit => Some(LutStep::WaitIdle),
            LutStep::WaitIdle => None,
        }
    }

    /// See [`LutStep::following`].
    pub fn next(self) -> (step: Option<LutStep>)
        ensures
            step == self.following(),
    {
        match self {
            LutStep::CreateImage => Some(LutStep::Allocate),
            LutStep::Allocate => Some(LutStep::Bind),
            LutStep::Bind => Some(LutStep::CreateView),
            LutStep::CreateView => Some(LutStep::CreateSampler),
            LutStep::CreateSampler => Some(LutStep::CreateStaging),
            LutStep::CreateStaging => Some(LutStep::AllocateStaging),
            LutStep::AllocateStaging => Some(LutStep::BindStaging),
            LutStep::BindStaging => Some(LutStep::MapStaging),
            LutStep::MapStaging => Some(LutStep::CreatePool),
            LutStep::CreatePool => Some(LutStep::AllocateCommands),
            LutStep::AllocateCommands => Some(LutStep::BeginCommands),
            LutStep::BeginCommands => Some(LutStep::EndCommands),
            LutStep::EndCommands => Some(LutStep::Submit),
            LutStep::Submit => Some(LutStep::WaitIdle),
            LutStep::WaitIdle => None,
        }
    }
}

/// A memory type that a table uses: the first with the flags, else type 0.
pub open spec fn is_lut_memory(props: MemoryProperties, type_bits: u32, flags: u32, i: u32) -> bool {
    props.is_first_match(type_bits, flags, i as int) || (props.no_match(type_bits, flags) && i == 0)
}

/// How a table gets into a texture.
#[derive(Debug, Clone, Copy, PartialEq, Eq, Structural)]
pub struct LutUpload {
    pub format: i32,
    /// Extent of the texture along each axis, and length of its rows and slices in the
    /// staging buffer.
    pub size: u32,
    /// Size of the staging buffer.
    pub byte_size: u64,
    pub before: Barrier,
    pub after: Barrier,
}

/// A barrier on the image of a table.
pub open spec fn lut_barrier(
    image: u64,
    layouts: (i32, i32),
    src: (u64, u64),
    dst: (u64, u64),
) -> Barrier {
    Barrier {
        image,
        old_layout: layouts.0,
        new_layout: layouts.1,
        src_queue: 0,
        dst_queue: 0,
        src_stage: src.0,
        src_access: src.1,
        dst_stage: dst.0,
        dst_access: dst.1,
        depth: false,
    }
}

/// A table as a texture.
#[derive(Debug, Clone, Copy, PartialEq, Eq, Structural)]
pub struct Lut3dTexture {
    pub image: u64,
    pub memory: u64,
    pub view: u64,
    pub sampler: u64,
    pub size: u32,
    /// White level, brightest content and brightest output that the table was made for.
    pub white: u32,
    pub max_content: u32,
    pub max_dest: u32,
}

/// Something of a table that has to be given back to the device.
#[derive(Debug, Clone, Copy, PartialEq, Eq, Structural)]
pub enum LutRelease {
    Sampler(u64),
    View(u64),
    Image(u64),
    Memory(u64),
}

impl Lut3dTexture {
    /// Starts to make a texture.
    pub fn new(size: u32, white: u32, max_content: u32, max_dest: u32) -> (run: LutRun)
        ensures
            run == LutRun::start(size, white, max_content, max_dest),
    {
        LutRun {
            step: LutStep::CreateImage,
            texture: Lut3dTexture {
                image: 0,
                memory: 0,
                view: 0,
                sampler: 0,
                size,
                white,
                max_content,
                max_dest,
            },
            staging: 0,
            staging_memory: 0,
            pool: 0,
            commands: 0,
        }
    }

    /// The memory type of the texture.
    pub fn image_memory(props: &MemoryProperties, type_bits: u32) -> (i: u32)
        requires
            props.wf(),
        ensures
            is_lut_memory(*props, type_bits, DEVICE_LOCAL, i),
    {
        match props.find_first(type_bits, DEVICE_LOCAL) {
            Some(i) => i,
            None => 0,
        }
    }

    /// The memory type of the staging buffer.
    pub fn staging_memory(props: &MemoryProperties, type_bits: u32) -> (i: u32)
        requires
            props.wf(),
        ensures
            is_lut_memory(*props, type_bits, HOST_VISIBLE_COHERENT, i),
    {
        match props.find_first(type_bits, HOST_VISIBLE_COHERENT) {
            Some(i) => i,
            None => 0,
        }
    }

    /// How `len` half precision values get into the image: they are copied between two
    /// barriers, after which shaders can sample them.
    pub fn upload(image: u64, len: usize, size: u32) -> (upload: LutUpload)
        requires
            len * 2 <= u64::MAX,
        ensures
            upload == (LutUpload {
                format: FORMAT_R16G16B16A16_SFLOAT,
                size,
                byte_size: (len * 2) as u64,
                before: lut_barrier(
                    image,
                    (LAYOUT_UNDEFINED, LAYOUT_TRANSFER_DST),
                    (STAGE_NONE, ACCESS_NONE),
                    (STAGE_ALL_TRANSFER, ACCESS_TRANSFER_WRITE),
                ),
                after: lut_barrier(
                    image,
                    (LAYOUT_TRANSFER_DST, LAYOUT_SHADER_READ_ONLY),
                    (STAGE_ALL_TRANSFER, ACCESS_TRANSFER_WRITE),
                    (STAGE_FRAGMENT_SHADER, ACCESS_SHADER_SAMPLED_READ),
                ),
            }),
    {
        LutUpload {
            format: FORMAT_R16G16B16A16_SFLOAT,
            size,
            byte_size: len as u64 * 2,
            before: Barrier {
                image,
                old_layout: LAYOUT_UNDEFINED,
                new_layout: LAYOUT_TRANSFER_DST,
                src_queue: 0,
                dst_queue: 0,
                src_stage: STAGE_NONE,
                src_access: ACCESS_NONE,
                dst_stage: STAGE_ALL_TRANSFER,
                dst_access: ACCESS_TRANSFER_WRITE,
                depth: false,
            },
            after: Barrier {
                image,
                old_layout: LAYOUT_TRANSFER_DST,
                new_layout: LAYOUT_SHADER_READ_ONLY,
                src_queue: 0,
                dst_queue: 0,
                src_stage: STAGE_ALL_TRANSFER,
                src_access: ACCESS_TRANSFER_WRITE,
                dst_stage: STAGE_FRAGMENT_SHADER,
                dst_access: ACCESS_SHADER_SAMPLED_READ,
                depth: false,
            },
        }
    }

    /// Gives back the texture: the sampler and the view before the image, the image before
    /// its memory.
    pub fn destroy(&self) -> (releases: Vec<LutRelease>)
        ensures
            releases@ == seq![
                LutRelease::Sampler(self.sampler),
                LutRelease::View(self.view),
                LutRelease::Image(self.image),
                LutRelease::Memory(self.memory),
            ],
    {
        let mut releases: Vec<LutRelease> = Vec::new();
        releases.push(LutRelease::Sampler(self.sampler));
        releases.push(LutRelease::View(self.view));
        releases.push(LutRelease::Image(self.image));
        releases.push(LutRelease::Memory(self.memory));
        assert(releases@ =~= seq![
            LutRelease::Sampler(self.sampler),
            LutRelease::View(self.view),
            LutRelease::Image(self.image),
            LutRelease::Memory(self.memory),
        ]);
        releases
    }
}

/// A texture on its way: the step that the device is to take, and what it has handed out.
/// Handle 0 stands for nothing.
#[derive(Debug, Clone, Copy, PartialEq, Eq, Structural)]
pub struct LutRun {
    pub step: LutStep,
    pub texture: Lut3dTexture,
    pub staging: u64,
    pub staging_memory: u64,
    pub pool: u64,
    pub commands: u64,
}

/// What is used for the transfer only, and given back once it is over.
#[derive(Debug, Clone, Copy, PartialEq, Eq, Structural)]
pub enum TransferRelease {
    Pool(u64),
    Buffer(u64),
    Memory(u64),
}

impl LutRun {
    /// Before the first step.
    pub open spec fn start(size: u32, white: u32, max_content: u32, max_dest: u32) -> LutRun {
        LutRun {
            step: LutStep::CreateImage,
            texture: Lut3dTexture {
                image: 0,
                memory: 0,
                view: 0,
                sampler: 0,
                size,
                white,
                max_content,
                max_dest,
            },
            staging: 0,
            staging_memory: 0,
            pool: 0,
            commands: 0,
        }
    }

    /// The run with what the device has handed out for its step; steps that hand nothing out
    /// change nothing.
    pub open spec fn with(self, handle: u64) -> LutRun {
        match self.step {
            LutStep::CreateImage => LutRun {
                texture: Lut3dTexture { image: handle, ..self.texture },
                ..self
            },
            LutStep::Allocate => LutRun {
                texture: Lut3dTexture { memory: handle, ..self.texture },
                ..self
            },
            LutStep::CreateView => LutRun {
                texture: Lut3dTexture { view: handle, ..self.texture },
                ..self
            },
            LutStep::CreateSampler => LutRun {
                texture: Lut3dTexture { sampler: handle, ..self.texture },
                ..self
            },
            LutStep::CreateStaging => LutRun { staging: handle, ..self },
            LutStep::AllocateStaging => LutRun { staging_memory: handle, ..self },
            LutStep::CreatePool => LutRun { pool: handle, ..self },
            LutStep::AllocateCommands => LutRun { commands: handle, ..self },
            _ => self,
        }
    }

    /// The run after its step has succeeded.
    pub open spec fn advanced(self, handle: u64) -> LutRun {
        let taken = self.with(handle);
        LutRun {
            step: match self.step.following() {
                Some(step) => step,
                None => self.step,
            },
            ..taken
        }
    }

    /// Takes what the device answers to the step. Once all steps are done, the texture is
    /// ready.
    pub fn next(&mut self, answer: Result<u64, i32>) -> (r: Result<Option<Lut3dTexture>, LutError>)
        ensures
            match answer {
                Err(code) => {
                    &&& r == Err::<Option<Lut3dTexture>, LutError>(old(self).step.error_of(code))
                    &&& *final(self) == *old(self)
                },
                Ok(handle) => {
                    &&& *final(self) == old(self).advanced(handle)
                    &&& r == Ok::<Option<Lut3dTexture>, LutError>(
                        if old(self).step.following() is None {
                            Some(old(self).texture)
                        } else {
                            None
                        },
                    )
                },
            },
    {
        let handle: u64 = match answer {
            Ok(handle) => handle,
            Err(code) => {
                return Err(self.step.error(code));
            },
        };
        match self.step {
            LutStep::CreateImage => {
                self.texture.image = handle;
            },
            LutStep::Allocate => {
                self.texture.memory = handle;
            },
            LutStep::CreateView => {
                self.texture.view = handle;
            },
            LutStep::CreateSampler => {
                self.texture.sampler = handle;
            },
            LutStep::CreateStaging => {
                self.staging = handle;
            },
            LutStep::AllocateStaging => {
                self.staging_memory = handle;
            },
            LutStep::CreatePool => {
                self.pool = handle;
            },
            LutStep::AllocateCommands => {
                self.commands = handle;
            },
            _ => {},
        }
        match self.step.next() {
            Some(step) => {
                self.step = step;
                Ok(None)
            },
            None => Ok(Some(self.texture)),
        }
    }

    /// Gives back what the transfer needed.
    pub fn release(&self) -> (releases: Vec<TransferRelease>)
        ensures
            releases@ == seq![
                TransferRelease::Pool(self.pool),
                TransferRelease::Buffer(self.staging),
                TransferRelease::Memory(self.staging_memory),
            ],
    {
        let mut releases: Vec<TransferRelease> = Vec::new();
        releases.push(TransferRelease::Pool(self.pool));
        releases.push(TransferRelease::Buffer(self.staging));
        releases.push(TransferRelease::Memory(self.staging_memory));
        assert(releases@ =~= seq![
            TransferRelease::Pool(self.pool),
            TransferRelease::Buffer(self.staging),
            TransferRelease::Memory(self.staging_memory),
        ]);
        releases
    }
}

/// The run after a number of steps that all succeeded.
pub open spec fn after_steps(run: LutRun, handles: Seq<u64>) -> LutRun
    decreases handles.len(),
{
    if handles.len() == 0 {
        run
    } else {
        after_steps(run, handles.drop_last()).advanced(handles.last())
    }
}

proof fn lemma_one_step(run: LutRun, handles: Seq<u64>, k: int)
    requires
        0 <= k < handles.len(),
    ensures
        after_steps(run, handles.take(k + 1)) == after_steps(run, handles.take(k)).advanced(
            handles[k],
        ),
{
    assert(handles.take(k + 1).drop_last() =~= handles.take(k));
    assert(handles.take(k + 1).last() == handles[k]);
}

/// When every step has succeeded, the texture is made of what the device handed out for it, and
/// the transfer was carried out with resources of its own: each is there before the step that
/// binds, maps or records it.
pub proof fn law_every_step_makes_the_texture(run: LutRun, handles: Seq<u64>)
    requires
        run == LutRun::start(
            run.texture.size,
            run.texture.white,
            run.texture.max_content,
            run.texture.max_dest,
        ),
        handles.len() == 14,
    ensures
        after_steps(run, handles).step == LutStep::WaitIdle,
        after_steps(run, handles).texture == (Lut3dTexture {
            image: handles[0],
            memory: handles[1],
            view: handles[3],
            sampler: handles[4],
            ..run.texture
        }),
        after_steps(run, handles).staging == handles[5],
        after_steps(run, handles).staging_memory == handles[6],
        after_steps(run, handles.take(2)).step == LutStep::Bind,
        after_steps(run, handles.take(2)).texture.memory == handles[1],
        after_steps(run, handles.take(7)).step == LutStep::BindStaging,
        after_steps(run, handles.take(7)).staging_memory == handles[6],
        after_steps(run, handles.take(11)).step == LutStep::BeginCommands,
        after_steps(run, handles.take(11)).commands == handles[10],
{
    assert(handles.take(14) =~= handles);
    assert(handles.take(0) =~= seq![]);
    lemma_one_step(run, handles, 0);
    lemma_one_step(run, handles, 1);
    lemma_one_step(run, handles, 2);
    lemma_one_step(run, handles, 3);
    lemma_one_step(run, handles, 4);
    lemma_one_step(run, handles, 5);
    lemma_one_step(run, handles, 6);
    lemma_one_step(run, handles, 7);
    lemma_one_step(run, handles, 8);
    lemma_one_step(run, handles, 9);
    lemma_one_step(run, handles, 10);
    lemma_one_step(run, handles, 11);
    lemma_one_step(run, handles, 12);
    lemma_one_step(run, handles, 13);
}

/// The corners of the identity table are exact: the first entry is black, the last white,
/// and both are opaque.
pub proof fn law_identity_corners(size: int, c: int)
    requires
        2 <= size,
        0 <= c < 3,
    ensures
        identity_component(size, 0, c) == 0,
        identity_component(size, size * size * size - 1, c) == F16_ONE,
        identity_component(size, 0, 3) == F16_ONE,
        identity_component(size, size * size * size - 1, 3) == F16_ONE,
{
    lemma_entry_place(size, 0, 0, 0);
    assert((0 * size + 0) * size + 0 == 0);
    let k = size - 1;
    lemma_entry_place(size, k, k, k);
    assert((k * size + k) * size + k == size * size * size - 1) by (nonlinear_arith)
        requires
            k == size - 1,
    ;
    law_self_quotient_is_one(k as nat);
    assert(f16_of_f32(0x3f80_0000) == F16_ONE);
}

/// Gray stays gray: an entry whose positions agree has three equal components.
pub proof fn law_identity_keeps_gray(size: int, k: int)
    requires
        0 <= k < size,
    ensures
        ({
            let n = (k * size + k) * size + k;
            &&& identity_component(size, n, 0) == lut_position(k, size)
            &&& identity_component(size, n, 1) == lut_position(k, size)
            &&& identity_component(size, n, 2) == lut_position(k, size)
        }),
{
    lemma_entry_place(size, k, k, k);
}

/// A half precision value that is not negative, in units of `2^-24`.
pub open spec fn half_units(bits: int) -> int {
    let exponent = bits / 0x400;
    let fraction = bits % 0x400;
    if exponent == 0 {
        fraction
    } else {
        (fraction + 0x400) * two_pow((exponent - 1) as nat)
    }
}

/// A value of a table is converted to half precision with an error below one unit of its last
/// place, and below `2^-24` where it is very small.
pub proof fn law_halves_are_near(bits: u32)
    requires
        bits < 0x4780_0000,
    ensures
        ({
            let exact = units32(bits);
            let half = half_units(f16_of_f32(bits)) * two_pow(125);
            &&& 0 <= f16_of_f32(bits) <= 0x7c00
            &&& gap(half, exact) < two_pow(125) || gap(half, exact) * 2048 <= exact
        }),
{
    let e = (bits / 0x80_0000) as int;
    let fraction = (bits % 0x80_0000) as int;
    let r = f16_of_f32(bits);
    let unit = two_pow(125) as int;
    lemma_two_pow_positive(125);
    lemma_parts32(bits);
    if e < 102 {
        // Below the smallest half precision value.
        let up = (149 - f32_shift(bits)) as nat;
        lemma_two_pow_grows(up, 100);
        lemma_two_pow_split(24, 101);
        lemma_two_pow_values();
        assert(two_pow(101) == 2 * two_pow(100));
        assert(units32(bits) < unit) by (nonlinear_arith)
            requires
                units32(bits) == f32_significand(bits) * two_pow(up),
                f32_significand(bits) < 0x100_0000,
                two_pow(up) <= two_pow(100),
                two_pow(101) == 2 * two_pow(100),
                unit == 0x100_0000 * two_pow(101),
                two_pow(24) == 0x100_0000,
                two_pow(100) >= 1,
        ;
        assert(half_units(0) == 0);
        assert(0 * unit == 0);
        assert(units32(bits) >= 0) by (nonlinear_arith)
            requires
                units32(bits) == f32_significand(bits) * two_pow(up),
        ;
    } else if e <= 112 {
        let m = fraction + 0x80_0000;
        let shift = (126 - e) as nat;
        let d = two_pow(shift) as int;
        lemma_two_pow_positive(shift);
        lemma_two_pow_grows(14, shift);
        lemma_fourteen();
        let q = m / d;
        let rest = m % d;
        vstd::arithmetic::div_mod::lemma_fundamental_div_mod(m, d);
        assert(q < 0x400) by (nonlinear_arith)
            requires
                m == d * q + rest,
                0 <= rest,
                m < 0x100_0000,
                d >= 16384,
        ;
        assert(q >= 0) by (nonlinear_arith)
            requires
                m == d * q + rest,
                rest < d,
                m >= 0,
                d > 0,
        ;
        assert(r == q);
        assert(half_units(q) == q);
        let scale = two_pow((e - 1) as nat) as int;
        lemma_two_pow_positive((e - 1) as nat);
        lemma_two_pow_split(shift, (e - 1) as nat);
        assert(units32(bits) == m * scale);
        assert(m * scale - q * unit == rest * scale) by (nonlinear_arith)
            requires
                unit == d * scale,
                m == d * q + rest,
        ;
        assert(0 <= rest * scale < unit) by (nonlinear_arith)
            requires
                unit == d * scale,
                0 <= rest < d,
                scale >= 1,
        ;
    } else {
        let m = fraction + 0x80_0000;
        let rounded = (fraction + 0x1000) / 0x2000;
        let h = (e - 112) as nat;
        assert(0 <= rounded <= 0x400);
        assert(r == h * 0x400 + rounded);
        let unit_here = two_pow((h - 1) as nat) as int;
        lemma_two_pow_positive((h - 1) as nat);
        assert(half_units(r) == (rounded + 0x400) * unit_here) by {
            if rounded == 0x400 {
                assert(r / 0x400 == h + 1 && r % 0x400 == 0);
                assert(two_pow(h) == 2 * unit_here);
                assert(0x400 * (2 * unit_here) == (0x400 + 0x400) * unit_here);
            } else {
                assert(r / 0x400 == h && r % 0x400 == rounded);
            }
        }
        let scale = two_pow((e - 1) as nat) as int;
        lemma_two_pow_positive((e - 1) as nat);
        lemma_two_pow_split(125, (h - 1) as nat);
        lemma_two_pow_split(13, (e - 1) as nat);
        lemma_fourteen();
        assert(unit * unit_here == 0x2000 * scale);
        assert(units32(bits) == m * scale);
        let k = rounded + 0x400;
        assert((k * unit_here) * unit == (k * 0x2000) * scale) by (nonlinear_arith)
            requires
                unit * unit_here == 0x2000 * scale,
        ;
        let error = gap(k * 0x2000, m);
        assert(error <= 0x1000);
        assert(gap((k * 0x2000) * scale, m * scale) == error * scale) by (nonlinear_arith)
            requires
                error == gap(k * 0x2000, m),
                scale >= 1,
        ;
        assert((error * scale) * 2048 <= m * scale) by (nonlinear_arith)
            requires
                error <= 0x1000,
                m >= 0x80_0000,
                scale >= 1,
        ;
    }
}

proof fn lemma_fourteen()
    ensures
        two_pow(13) == 0x2000,
        two_pow(14) == 0x4000,
{
    reveal_with_fuel(two_pow, 15);
}

/// The identity table gives every color back: its entries come with red running fastest and blue
/// slowest, and hold their own positions on the grid, each as the quotient that no other single
/// precision value is closer to, in half precision, and an opaque alpha.
pub proof fn law_identity_gives_colors_back(
    size: u32,
    data: Vec<u16>,
    r: int,
    g: int,
    b: int,
)
    requires
        call_ensures(generate_identity_lut, (size,), data),
        2 <= size,
        lut_len(size as int) <= u32::MAX,
        0 <= r < size,
        0 <= g < size,
        0 <= b < size,
    ensures
        ({
            let n = (b * size + g) * size + r;
            &&& 0 <= 4 * n && 4 * n + 3 < data@.len()
            &&& data@[4 * n] == f16_of_f32(f32_quotient_of(r as nat, (size - 1) as nat) as u32)
            &&& data@[4 * n + 1] == f16_of_f32(f32_quotient_of(g as nat, (size - 1) as nat) as u32)
            &&& data@[4 * n + 2] == f16_of_f32(f32_quotient_of(b as nat, (size - 1) as nat) as u32)
            &&& half_units(data@[4 * n + 3] as int) == two_pow(24)
        }),
{
    let s = size as int;
    let n = (b * s + g) * s + r;
    lemma_entry_place(s, r, g, b);
    assert(0 <= n < s * s * s) by (nonlinear_arith)
        requires
            n == (b * s + g) * s + r,
            0 <= r < s,
            0 <= g < s,
            0 <= b < s,
    ;
    assert((4 * n) / 4 == n && (4 * n) % 4 == 0);
    assert((4 * n + 1) / 4 == n && (4 * n + 1) % 4 == 1);
    assert((4 * n + 2) / 4 == n && (4 * n + 2) % 4 == 2);
    assert((4 * n + 3) / 4 == n && (4 * n + 3) % 4 == 3);
    assert(lut_len(s) == s * s * s * 4);
    lemma_fourteen();
    lemma_two_pow_split(10, 14);
    assert(two_pow(10) == 0x400) by {
        reveal_with_fuel(two_pow, 11);
    }
    assert(half_units(F16_ONE as int) == 0x400 * two_pow(14));
}

/// A table is written before shaders sample it: what was in the image is dropped, the copy is
/// waited for, and sampling waits for it. The copy has two bytes for each number.
pub proof fn law_tables_are_written_before_use(image: u64, len: usize, size: u32, up: LutUpload)
    requires
        call_ensures(Lut3dTexture::upload, (image, len, size), up),
        len * 2 <= u64::MAX,
    ensures
        up.byte_size == 2 * len,
        up.size == size,
        up.format == 97,
        up.before.image == image && up.after.image == image,
        up.before.old_layout == 0,
        up.before.new_layout == 7 && up.after.old_layout == 7,
        up.after.new_layout == 5,
        up.after.src_stage == up.before.dst_stage && up.after.src_access == up.before.dst_access,
        up.before.dst_access == 0x1000,
        up.after.dst_stage == 0x80 && up.after.dst_access == 0x1_0000_0000,
{
}

/// A texture is released in whole, and nothing before what is made of it.
pub proof fn law_textures_are_released_in_whole(texture: Lut3dTexture, releases: Vec<LutRelease>)
    requires
        call_ensures(Lut3dTexture::destroy, (&texture,), releases),
    ensures
        releases@.len() == 4,
        exists|v: int, i: int, m: int, s: int|
            #![trigger releases@[v], releases@[i], releases@[m], releases@[s]]
            0 <= v < i < m < 4 && 0 <= s < 4 && releases@[v] == LutRelease::View(texture.view)
                && releases@[i] == LutRelease::Image(texture.image) && releases@[m]
                == LutRelease::Memory(texture.memory) && releases@[s] == LutRelease::Sampler(
                texture.sampler,
            ),
{
    assert(releases@[1] == LutRelease::View(texture.view));
    assert(releases@[2] == LutRelease::Image(texture.image));
    assert(releases@[3] == LutRelease::Memory(texture.memory));
    assert(releases@[0] == LutRelease::Sampler(texture.sampler));
}

} // verus!
