//! How an image is created: its tiling, its memory, its view, and what is given back.

use vstd::prelude::*;

use crate::memory::{
    contains_bits, MemoryProperties, DEVICE_LOCAL, HOST_VISIBLE, HOST_VISIBLE_COHERENT,
    HOST_VISIBLE_COHERENT_LOCAL,
};
use crate::suballoc::Suballocation;
use crate::vk::{
    has_bits, ERROR_DEVICE_LOST, ERROR_MEMORY_MAP_FAILED, FORMAT_D16_UNORM,
    FORMAT_D24_UNORM_S8_UINT, FORMAT_D32_SFLOAT, LAYOUT_UNDEFINED, TILING_DRM_FORMAT_MODIFIER,
    TILING_LINEAR, TILING_OPTIMAL, USAGE_COLOR_ATTACHMENT, USAGE_DEPTH_STENCIL_ATTACHMENT,
    USAGE_SAMPLED, USAGE_STORAGE,
};

verus! {

/// Modifier of linear memory.
pub const MODIFIER_LINEAR: u64 = 0;

/// Stands for an unknown, implicit modifier.
pub const MODIFIER_INVALID: u64 = 0x00ff_ffff_ffff_ffff;

/// Why an image could not be made. The numbers are result codes of the device and of the
/// system.
#[derive(Debug, Clone, Copy, PartialEq, Eq, Structural)]
pub enum Error {
    InvalidSize,
    UnsupportedFormat,
    UnsupportedDmabuf,
    MissingOrInvalidUsage,
    NoMemoryAvailable,
    VulkanImage(i32),
    VulkanModifierQuery(i32),
    VulkanAllocate(i32),
    VulkanBind(i32),
    VulkanImageView(i32),
    DmabufFdError(i32),
}

/// A fourcc code with a modifier.
#[derive(Debug, Clone, Copy, PartialEq, Eq, Structural)]
pub struct DrmFormat {
    pub code: u32,
    pub modifier: u64,
}

/// A format that the device knows, with the number of memory planes it takes.
#[derive(Debug, Clone, Copy, PartialEq, Eq, Structural)]
pub struct FormatEntry {
    pub format: DrmFormat,
    pub plane_count: u32,
}

/// Where a plane of a dmabuf starts, and the length of its rows.
#[derive(Debug, Clone, Copy, PartialEq, Eq, Structural)]
pub struct Plane {
    pub offset: u32,
    pub stride: u32,
}

/// A buffer that another device or process made.
#[derive(Debug, Clone)]
pub struct Dmabuf {
    pub width: u32,
    pub height: u32,
    pub format: DrmFormat,
    pub planes: Vec<Plane>,
}

/// What an image is asked to be.
#[derive(Debug, Clone)]
pub struct ImageRequest {
    pub width: u32,
    pub height: u32,
    pub format: i32,
    pub fourcc: Option<u32>,
    pub usage: u32,
    pub linear: bool,
    /// The modifiers to choose from, for an image whose memory is to be exported.
    pub modifiers: Option<Vec<u64>>,
    /// The buffer to import.
    pub dmabuf: Option<Dmabuf>,
}

/// Whether the planes of a dmabuf, known by their inode numbers, are one and the same
/// buffer. A plane whose inode cannot be read is not held against it.
pub open spec fn one_buffer(inodes: Seq<Option<u64>>, first: u64) -> bool {
    forall|i: int|
        1 <= i < inodes.len() ==> match #[trigger] inodes[i] {
            Some(inode) => inode == first,
            None => true,
        }
}

/// The image that a dmabuf is asked to become. `inodes` has one entry for each plane, `None`
/// where the file could not be queried.
pub open spec fn dmabuf_request(
    dmabuf: Dmabuf,
    vk_format: Option<i32>,
    inodes: Seq<Option<u64>>,
    usage: u32,
) -> Result<ImageRequest, Error> {
    match (vk_format, inodes[0]) {
        (None, _) => Err(Error::UnsupportedFormat),
        (Some(_), None) => Err(Error::UnsupportedDmabuf),
        (Some(vk_format), Some(first)) => if one_buffer(inodes, first) {
            Ok(
                ImageRequest {
                    width: dmabuf.width,
                    height: dmabuf.height,
                    format: vk_format,
                    fourcc: Some(dmabuf.format.code),
                    usage,
                    linear: false,
                    modifiers: None,
                    dmabuf: Some(dmabuf),
                },
            )
        } else {
            Err(Error::UnsupportedFormat)
        },
    }
}

impl ImageRequest {
    /// The image shares its memory.
    pub open spec fn is_shared(self) -> bool {
        self.modifiers is Some || self.dmabuf is Some
    }

    /// The layout of the memory is given by the buffer that is imported.
    pub open spec fn is_explicit(self) -> bool {
        match self.dmabuf {
            Some(dmabuf) => dmabuf.format.modifier != MODIFIER_INVALID,
            None => false,
        }
    }

    pub open spec fn tiling_of(self) -> i32 {
        if self.modifiers is Some || self.is_explicit() {
            TILING_DRM_FORMAT_MODIFIER
        } else if self.linear {
            TILING_LINEAR
        } else {
            TILING_OPTIMAL
        }
    }

    /// The fourcc code of the image: that of the imported buffer, else the one asked for.
    pub open spec fn code_of(self) -> Option<u32> {
        match self.dmabuf {
            Some(dmabuf) => Some(dmabuf.format.code),
            None => self.fourcc,
        }
    }

    /// An image that holds depth.
    pub open spec fn is_depth_of(self) -> bool {
        has_bits(self.usage, USAGE_DEPTH_STENCIL_ATTACHMENT) || self.format == FORMAT_D16_UNORM
            || self.format == FORMAT_D32_SFLOAT || self.format == FORMAT_D24_UNORM_S8_UINT
    }

    fn has_explicit_modifier(&self) -> (r: bool)
        ensures
            r == self.is_explicit(),
    {
        match &self.dmabuf {
            Some(dmabuf) => dmabuf.format.modifier != MODIFIER_INVALID,
            None => false,
        }
    }

    pub fn tiling(&self) -> (tiling: i32)
        ensures
            tiling == self.tiling_of(),
    {
        if self.modifiers.is_some() || self.has_explicit_modifier() {
            TILING_DRM_FORMAT_MODIFIER
        } else if self.linear {
            TILING_LINEAR
        } else {
            TILING_OPTIMAL
        }
    }

    fn code(&self) -> (code: Option<u32>)
        ensures
            code == self.code_of(),
    {
        match &self.dmabuf {
            Some(dmabuf) => Some(dmabuf.format.code),
            None => self.fourcc,
        }
    }

    fn is_depth(&self) -> (r: bool)
        ensures
            r == self.is_depth_of(),
    {
        contains_bits(self.usage, USAGE_DEPTH_STENCIL_ATTACHMENT) || self.format
            == FORMAT_D16_UNORM || self.format == FORMAT_D32_SFLOAT || self.format
            == FORMAT_D24_UNORM_S8_UINT
    }

    /// What the image object is to be created with.
    pub fn create_info(&self) -> (info: ImageCreate)
        ensures
            info.tiling == self.tiling_of(),
            info.modifier_list == (self.modifiers is Some),
            info.external == self.is_shared(),
            match (info.explicit, self.dmabuf) {
                (Some(layout), Some(dmabuf)) => {
                    &&& self.is_explicit()
                    &&& layout.modifier == dmabuf.format.modifier
                    &&& layout.planes@ == plane_layouts(dmabuf.planes@)
                },
                (None, _) => !self.is_explicit(),
                (Some(_), None) => false,
            },
    {
        let explicit = match &self.dmabuf {
            Some(dmabuf) => {
                if dmabuf.format.modifier != MODIFIER_INVALID {
                    Some(
                        ExplicitLayout {
                            modifier: dmabuf.format.modifier,
                            planes: layouts_of(&dmabuf.planes),
                        },
                    )
                } else {
                    None
                }
            },
            None => None,
        };
        ImageCreate {
            tiling: self.tiling(),
            modifier_list: self.modifiers.is_some(),
            explicit,
            external: self.modifiers.is_some() || self.dmabuf.is_some(),
        }
    }
}

/// Offset and row pitch of each plane.
pub open spec fn plane_layouts(planes: Seq<Plane>) -> Seq<(u64, u64)> {
    planes.map_values(|plane: Plane| (plane.offset as u64, plane.stride as u64))
}

fn layouts_of(planes: &Vec<Plane>) -> (layouts: Vec<(u64, u64)>)
    ensures
        layouts@ == plane_layouts(planes@),
{
    let mut layouts: Vec<(u64, u64)> = Vec::new();
    let mut i: usize = 0;
    while i < planes.len()
        invariant
            i <= planes@.len(),
            layouts@ =~= plane_layouts(planes@).take(i as int),
        decreases planes@.len() - i,
    {
        layouts.push((planes[i].offset as u64, planes[i].stride as u64));
        i = i + 1;
    }
    assert(plane_layouts(planes@).take(i as int) =~= plane_layouts(planes@));
    layouts
}

/// The memory layout of an imported buffer.
#[derive(Debug, Clone)]
pub struct ExplicitLayout {
    pub modifier: u64,
    pub planes: Vec<(u64, u64)>,
}

/// How the image object is to be created. The layout at the start is undefined.
#[derive(Debug, Clone)]
pub struct ImageCreate {
    pub tiling: i32,
    /// The device picks one of the modifiers of the request.
    pub modifier_list: bool,
    pub explicit: Option<ExplicitLayout>,
    /// The memory is a dmabuf.
    pub external: bool,
}

/// What the device asks of the memory of an image.
#[derive(Debug, Clone, Copy, PartialEq, Eq, Structural)]
pub struct MemoryRequirements {
    pub size: u64,
    pub alignment: u64,
    pub type_bits: u32,
    pub requires_dedicated: bool,
    pub prefers_dedicated: bool,
}

/// The image object and what belongs to it. Handle 0 stands for no memory.
#[derive(Debug, Clone, Copy, PartialEq, Eq, Structural)]
pub struct ImageInner {
    pub image: u64,
    pub memory: u64,
    pub memory_offset: u64,
    pub suballocated: bool,
    pub allocation_size: u64,
    /// Address at which the image is mapped.
    pub mapped: Option<usize>,
    pub view: Option<u64>,
    pub current_layout: i32,
    pub needs_acquire: bool,
    pub dmabuf_exportable: bool,
    pub dmabuf_plane_count: u32,
}

/// Something to give back to the device.
#[derive(Debug, Clone, Copy, PartialEq, Eq, Structural)]
pub enum Release {
    View(u64),
    Image(u64),
    Suballocation { memory: u64, offset: u64, size: u64 },
    Unmap(u64),
    Memory(u64),
}

/// How an image gets to be mapped.
#[derive(Debug, Clone, Copy, PartialEq, Eq, Structural)]
pub enum MapStep {
    /// It is mapped already.
    Mapped(usize),
    /// That much of the memory object is to be mapped from its start.
    Obtain { memory: u64, size: u64 },
    Fail(i32),
}

impl ImageInner {
    /// What the memory has to be given back as.
    pub open spec fn memory_releases(self) -> Seq<Release> {
        if self.memory == 0 {
            Seq::empty()
        } else if self.suballocated {
            seq![
                Release::Suballocation {
                    memory: self.memory,
                    offset: self.memory_offset,
                    size: self.allocation_size,
                },
            ]
        } else if self.mapped is Some {
            seq![Release::Unmap(self.memory), Release::Memory(self.memory)]
        } else {
            seq![Release::Memory(self.memory)]
        }
    }

    /// All that has to be given back, in order: the view before the image, the image before
    /// its memory.
    pub open spec fn releases(self) -> Seq<Release> {
        let view = match self.view {
            Some(view) => seq![Release::View(view)],
            None => Seq::empty(),
        };
        view + seq![Release::Image(self.image)] + self.memory_releases()
    }

    /// Gives back the image and all that belongs to it.
    pub fn release(&self) -> (releases: Vec<Release>)
        ensures
            releases@ == self.releases(),
    {
        let mut releases: Vec<Release> = Vec::new();
        if let Some(view) = self.view {
            releases.push(Release::View(view));
        }
        releases.push(Release::Image(self.image));
        if self.memory != 0 {
            if self.suballocated {
                releases.push(
                    Release::Suballocation {
                        memory: self.memory,
                        offset: self.memory_offset,
                        size: self.allocation_size,
                    },
                );
            } else {
                if self.mapped.is_some() {
                    releases.push(Release::Unmap(self.memory));
                }
                releases.push(Release::Memory(self.memory));
            }
        }
        assert(releases@ =~= self.releases());
        releases
    }

    /// Where the image is mapped, or what is to be done to map it.
    pub fn map(&self, device_alive: bool) -> (step: MapStep)
        ensures
            step == match self.mapped {
                Some(address) => MapStep::Mapped(address),
                None => if self.memory == 0 {
                    MapStep::Fail(ERROR_MEMORY_MAP_FAILED)
                } else if !device_alive {
                    MapStep::Fail(ERROR_DEVICE_LOST)
                } else {
                    MapStep::Obtain { memory: self.memory, size: self.allocation_size }
                },
            },
    {
        if let Some(address) = self.mapped {
            return MapStep::Mapped(address);
        }
        if self.memory == 0 {
            return MapStep::Fail(ERROR_MEMORY_MAP_FAILED);
        }
        if !device_alive {
            return MapStep::Fail(ERROR_DEVICE_LOST);
        }
        MapStep::Obtain { memory: self.memory, size: self.allocation_size }
    }

    /// Keeps the mapping of the memory object that starts at `base`, and says where the
    /// image is in it.
    pub fn keep_mapping(&mut self, base: usize) -> (address: usize)
        requires
            base + old(self).memory_offset <= usize::MAX,
        ensures
            address == base + old(self).memory_offset,
            *final(self) == (ImageInner { mapped: Some(address), ..*old(self) }),
    {
        let address: usize = base + self.memory_offset as usize;
        self.mapped = Some(address);
        address
    }
}

/// An image together with what it was made for.
#[derive(Debug, Clone, Copy, PartialEq, Eq, Structural)]
pub struct VulkanImage {
    pub inner: ImageInner,
    pub width: u32,
    pub height: u32,
    pub format: i32,
    pub has_alpha: bool,
    pub mem_types: u32,
    pub usage: u32,
    pub tiling: i32,
    pub drm: Option<DrmFormat>,
}

impl VulkanImage {
    /// An image of a format of the device.
    pub fn new(width: u32, height: u32, format: i32, usage: u32, linear: bool) -> (request: ImageRequest)
        ensures
            request == (ImageRequest {
                width,
                height,
                format,
                fourcc: None,
                usage,
                linear,
                modifiers: None,
                dmabuf: None,
            }),
    {
        ImageRequest {
            width,
            height,
            format,
            fourcc: None,
            usage,
            linear,
            modifiers: None,
            dmabuf: None,
        }
    }

    /// An image of a fourcc code; `vk_format` is the format of the device for the code, if
    /// there is one.
    pub fn new_with_fourcc(
        width: u32,
        height: u32,
        format: u32,
        vk_format: Option<i32>,
        usage: u32,
        linear: bool,
    ) -> (request: Result<ImageRequest, Error>)
        ensures
            request == match vk_format {
                Some(vk_format) => Ok::<ImageRequest, Error>(
                    ImageRequest {
                        width,
                        height,
                        format: vk_format,
                        fourcc: Some(format),
                        usage,
                        linear,
                        modifiers: None,
                        dmabuf: None,
                    },
                ),
                None => Err(Error::UnsupportedFormat),
            },
    {
        match vk_format {
            Some(vk_format) => Ok(
                ImageRequest {
                    width,
                    height,
                    format: vk_format,
                    fourcc: Some(format),
                    usage,
                    linear,
                    modifiers: None,
                    dmabuf: None,
                },
            ),
            None => Err(Error::UnsupportedFormat),
        }
    }

    /// An image whose memory can be exported, in one of the modifiers.
    pub fn new_exportable(
        width: u32,
        height: u32,
        format: u32,
        vk_format: Option<i32>,
        modifiers: Vec<u64>,
        usage: u32,
    ) -> (request: Result<ImageRequest, Error>)
        ensures
            request == match vk_format {
                Some(vk_format) => Ok::<ImageRequest, Error>(
                    ImageRequest {
                        width,
                        height,
                        format: vk_format,
                        fourcc: Some(format),
                        usage,
                        linear: false,
                        modifiers: Some(modifiers),
                        dmabuf: None,
                    },
                ),
                None => Err(Error::UnsupportedFormat),
            },
    {
        match vk_format {
            Some(vk_format) => Ok(
                ImageRequest {
                    width,
                    height,
                    format: vk_format,
                    fourcc: Some(format),
                    usage,
                    linear: false,
                    modifiers: Some(modifiers),
                    dmabuf: None,
                },
            ),
            None => Err(Error::UnsupportedFormat),
        }
    }

    /// An image of the memory of a dmabuf. `inodes` has one entry for each plane, `None`
    /// where the file could not be queried.
    pub fn new_from_dmabuf(
        dmabuf: Dmabuf,
        vk_format: Option<i32>,
        inodes: &Vec<Option<u64>>,
        usage: u32,
    ) -> (request: Result<ImageRequest, Error>)
        requires
            inodes@.len() > 0,
        ensures
            request == dmabuf_request(dmabuf, vk_format, inodes@, usage),
    {
        let format: i32 = match vk_format {
            Some(format) => format,
            None => return Err(Error::UnsupportedFormat),
        };
        let first: u64 = match inodes[0] {
            Some(first) => first,
            None => return Err(Error::UnsupportedDmabuf),
        };
        let mut i: usize = 1;
        while i < inodes.len()
            invariant
                vk_format == Some(format),
                inodes@[0] == Some(first),
                1 <= i <= inodes@.len(),
                forall|k: int|
                    1 <= k < i ==> match #[trigger] inodes@[k] {
                        Some(inode) => inode == first,
                        None => true,
                    },
            decreases inodes@.len() - i,
        {
            if let Some(inode) = inodes[i] {
                if inode != first {
                    assert(!one_buffer(inodes@, first));
                    return Err(Error::UnsupportedFormat);
                }
            }
            i = i + 1;
        }
        assert(one_buffer(inodes@, first));
        let width: u32 = dmabuf.width;
        let height: u32 = dmabuf.height;
        let code: u32 = dmabuf.format.code;
        Ok(
            ImageRequest {
                width,
                height,
                format,
                fourcc: Some(code),
                usage,
                linear: false,
                modifiers: None,
                dmabuf: Some(dmabuf),
            },
        )
    }

    /// The pixels lie row by row.
    pub fn is_linear(&self) -> (r: bool)
        ensures
            r == (self.tiling == TILING_LINEAR || (self.tiling == TILING_DRM_FORMAT_MODIFIER && (
            match self.drm {
                Some(format) => format.modifier == MODIFIER_LINEAR,
                None => false,
            }))),
    {
        self.tiling == TILING_LINEAR || (self.tiling == TILING_DRM_FORMAT_MODIFIER && (
        match self.drm {
            Some(format) => format.modifier == MODIFIER_LINEAR,
            None => false,
        }))
    }

    pub fn width(&self) -> (r: u32)
        ensures
            r == self.width,
    {
        self.width
    }

    pub fn height(&self) -> (r: u32)
        ensures
            r == self.height,
    {
        self.height
    }

    pub fn format(&self) -> (r: i32)
        ensures
            r == self.format,
    {
        self.format
    }

    pub fn has_alpha(&self) -> (r: bool)
        ensures
            r == self.has_alpha,
    {
        self.has_alpha
    }

    /// The image object.
    pub fn vk(&self) -> (r: u64)
        ensures
            r == self.inner.image,
    {
        self.inner.image
    }

    pub fn vk_view(&self) -> (r: Option<u64>)
        ensures
            r == self.inner.view,
    {
        self.inner.view
    }

    pub fn vk_usage(&self) -> (r: u32)
        ensures
            r == self.usage,
    {
        self.usage
    }

    pub fn mem_bits(&self) -> (r: u32)
        ensures
            r == self.mem_types,
    {
        self.mem_types
    }

    pub fn current_layout(&self) -> (r: i32)
        ensures
            r == self.inner.current_layout,
    {
        self.inner.current_layout
    }

    pub fn set_current_layout(&mut self, layout: i32)
        ensures
            final(self).inner == (ImageInner { current_layout: layout, ..old(self).inner }),
            *final(self) == (VulkanImage { inner: final(self).inner, ..*old(self) }),
    {
        self.inner.current_layout = layout;
    }

    pub fn needs_acquire(&self) -> (r: bool)
        ensures
            r == self.inner.needs_acquire,
    {
        self.inner.needs_acquire
    }

    pub fn set_needs_acquire(&mut self, val: bool)
        ensures
            final(self).inner == (ImageInner { needs_acquire: val, ..old(self).inner }),
            *final(self) == (VulkanImage { inner: final(self).inner, ..*old(self) }),
    {
        self.inner.needs_acquire = val;
    }

    pub fn dmabuf_exportable(&self) -> (r: bool)
        ensures
            r == self.inner.dmabuf_exportable,
    {
        self.inner.dmabuf_exportable
    }

    pub fn memory_offset(&self) -> (r: u64)
        ensures
            r == self.inner.memory_offset,
    {
        self.inner.memory_offset
    }

    pub fn is_suballocated(&self) -> (r: bool)
        ensures
            r == self.inner.suballocated,
    {
        self.inner.suballocated
    }
}

/// Number of memory planes of a format: that of its first entry, else one.
pub open spec fn plane_count_of(formats: Seq<FormatEntry>, format: DrmFormat) -> u32
    decreases formats.len(),
{
    if formats.len() == 0 {
        1
    } else if formats[0].format == format {
        formats[0].plane_count
    } else {
        plane_count_of(formats.drop_first(), format)
    }
}

fn plane_count(formats: &Vec<FormatEntry>, format: DrmFormat) -> (n: u32)
    ensures
        n == plane_count_of(formats@, format),
{
    let mut i: usize = 0;
    assert(formats@.skip(0) =~= formats@);
    while i < formats.len()
        invariant
            i <= formats@.len(),
            plane_count_of(formats@, format) == plane_count_of(formats@.skip(i as int), format),
        decreases formats@.len() - i,
    {
        assert(formats@.skip(i as int)[0] == formats@[i as int]);
        assert(formats@.skip(i as int).drop_first() =~= formats@.skip(i as int + 1));
        if formats[i].format == format {
            return formats[i].plane_count;
        }
        i = i + 1;
    }
    1
}

/// The memory type of an image. A linear image is for the host: it takes memory that the
/// host can see, better coherent, best on the device as well. Without such memory, and for
/// any other image, device memory comes first, then whatever is allowed.
pub open spec fn is_image_memory(
    props: MemoryProperties,
    type_bits: u32,
    linear: bool,
    choice: Option<u32>,
) -> bool {
    let best = HOST_VISIBLE_COHERENT_LOCAL;
    let good = HOST_VISIBLE_COHERENT;
    let seen = HOST_VISIBLE;
    let host = linear && !props.no_match(type_bits, seen);
    match choice {
        Some(i) => {
            ||| host && props.is_first_match(type_bits, best, i as int)
            ||| host && props.no_match(type_bits, best) && props.is_first_match(
                type_bits,
                good,
                i as int,
            )
            ||| host && props.no_match(type_bits, best) && props.no_match(type_bits, good)
                && props.is_first_match(type_bits, seen, i as int)
            ||| !host && props.is_first_match(type_bits, DEVICE_LOCAL, i as int)
            ||| !host && props.no_match(type_bits, DEVICE_LOCAL) && props.is_first_match(
                type_bits,
                0,
                i as int,
            )
        },
        None => !host && props.no_match(type_bits, DEVICE_LOCAL) && props.no_match(type_bits, 0),
    }
}

/// More flags are harder to meet.
proof fn lemma_more_flags(props: MemoryProperties, type_bits: u32, more: u32, fewer: u32)
    requires
        more & fewer == fewer,
    ensures
        props.no_match(type_bits, fewer) ==> props.no_match(type_bits, more),
{
    if props.no_match(type_bits, fewer) {
        assert forall|k: int| !#[trigger] props.matches(type_bits, more, k) by {
            if props.matches(type_bits, more, k) {
                let flags = props.memory_types@[k].property_flags;
                assert(flags & fewer == fewer) by (bit_vector)
                    requires
                        flags & more == more,
                        more & fewer == fewer,
                ;
                assert(props.matches(type_bits, fewer, k));
            }
        }
    }
}

/// Picks the memory type of an image; see [`is_image_memory`].
pub fn image_memory_type(props: &MemoryProperties, type_bits: u32, linear: bool) -> (choice: Option<
    u32,
>)
    requires
        props.wf(),
    ensures
        is_image_memory(*props, type_bits, linear, choice),
{
    if linear {
        proof {
            assert(HOST_VISIBLE_COHERENT_LOCAL & HOST_VISIBLE == HOST_VISIBLE) by (bit_vector);
            assert(HOST_VISIBLE_COHERENT & HOST_VISIBLE == HOST_VISIBLE) by (bit_vector);
            lemma_more_flags(*props, type_bits, HOST_VISIBLE_COHERENT_LOCAL, HOST_VISIBLE);
            lemma_more_flags(*props, type_bits, HOST_VISIBLE_COHERENT, HOST_VISIBLE);
        }
        if let Some(i) = props.find_first(type_bits, HOST_VISIBLE_COHERENT_LOCAL) {
            return Some(i);
        }
        if let Some(i) = props.find_first(type_bits, HOST_VISIBLE_COHERENT) {
            return Some(i);
        }
        if let Some(i) = props.find_first(type_bits, HOST_VISIBLE) {
            return Some(i);
        }
    }
    if let Some(i) = props.find_first(type_bits, DEVICE_LOCAL) {
        return Some(i);
    }
    props.find_first(type_bits, 0)
}

/// How the memory of an image is to be obtained.
#[derive(Debug, Clone, Copy, PartialEq, Eq, Structural)]
pub enum MemoryPlan {
    /// A memory object of its own, for this image alone.
    Dedicated {
        size: u64,
        type_index: u32,
        /// The memory can be exported as a dmabuf.
        export: bool,
        /// The memory is that of the dmabuf.
        import: bool,
    },
    /// A part of a larger memory object.
    Suballocate { size: u64, alignment: u64, type_index: u32, tiling: i32 },
}

/// Why memory for one image could not be obtained.
#[derive(Debug, Clone, Copy, PartialEq, Eq, Structural)]
pub enum AllocFailure {
    /// The file of the dmabuf could not be duplicated.
    Fd(i32),
    Device(i32),
}

/// Memory that the image is to be bound to.
#[derive(Debug, Clone, Copy, PartialEq, Eq, Structural)]
pub struct Binding {
    pub memory: u64,
    pub offset: u64,
}

/// What follows an attempt to suballocate.
#[derive(Debug, Clone, Copy, PartialEq, Eq, Structural)]
pub enum AfterSuballocation {
    Bind(Binding),
    /// A memory object is to be allocated for the image, not dedicated to it.
    Allocate { size: u64, type_index: u32 },
}

/// How the components of an image are seen.
#[derive(Debug, Clone, Copy, PartialEq, Eq, Structural)]
pub enum Components {
    Identity,
    /// As the format calls for, with or without alpha.
    ForFormat { has_alpha: bool },
}

/// How the image is to be looked at.
#[derive(Debug, Clone, Copy, PartialEq, Eq, Structural)]
pub struct ViewInfo {
    /// The depth aspect instead of color.
    pub depth: bool,
    pub components: Components,
}

/// An image on its way: created, then given a format, memory and a view. Whatever goes
/// wrong, [`ImageInner::release`] on the inner part gives back what there is so far.
#[derive(Debug, Clone)]
pub struct ImageBuild {
    pub request: ImageRequest,
    pub inner: ImageInner,
    pub has_alpha: bool,
    pub drm: Option<DrmFormat>,
    pub mem_bits: u32,
    pub type_index: u32,
}

impl ImageBuild {
    /// What an image object starts with.
    pub open spec fn fresh_inner(request: ImageRequest, image: u64) -> ImageInner {
        ImageInner {
            image,
            memory: 0,
            memory_offset: 0,
            suballocated: false,
            allocation_size: 0,
            mapped: None,
            view: None,
            current_layout: LAYOUT_UNDEFINED,
            needs_acquire: true,
            dmabuf_exportable: request.is_shared(),
            dmabuf_plane_count: match request.dmabuf {
                Some(dmabuf) => dmabuf.planes@.len() as u32,
                None => 0,
            },
        }
    }

    /// Takes over the image object. `code_has_alpha` is whether the fourcc code, if there is
    /// one, has alpha.
    pub fn created(request: ImageRequest, code_has_alpha: bool, image: Result<u64, i32>) -> (build:
        Result<Self, Error>)
        requires
            request.dmabuf matches Some(dmabuf) ==> dmabuf.planes@.len() <= u32::MAX,
        ensures
            build == match image {
                Ok(image) => Ok::<ImageBuild, Error>(
                    ImageBuild {
                        request,
                        inner: Self::fresh_inner(request, image),
                        has_alpha: request.code_of() is None || code_has_alpha,
                        drm: None,
                        mem_bits: 0,
                        type_index: 0,
                    },
                ),
                Err(code) => Err(Error::VulkanImage(code)),
            },
    {
        match image {
            Ok(image) => {
                let plane_count: u32 = match &request.dmabuf {
                    Some(dmabuf) => dmabuf.planes.len() as u32,
                    None => 0,
                };
                let exportable = request.modifiers.is_some() || request.dmabuf.is_some();
                let has_alpha = request.code().is_none() || code_has_alpha;
                let inner = ImageInner {
                    image,
                    memory: 0,
                    memory_offset: 0,
                    suballocated: false,
                    allocation_size: 0,
                    mapped: None,
                    view: None,
                    current_layout: LAYOUT_UNDEFINED,
                    needs_acquire: true,
                    dmabuf_exportable: exportable,
                    dmabuf_plane_count: plane_count,
                };
                Ok(ImageBuild { request, inner, has_alpha, drm: None, mem_bits: 0, type_index: 0 })
            },
            Err(code) => Err(Error::VulkanImage(code)),
        }
    }

    /// The modifier was the choice of the device, which has to be asked for it.
    pub open spec fn asks_modifier(self) -> bool {
        self.request.code_of() is Some && self.request.tiling_of() == TILING_DRM_FORMAT_MODIFIER
    }

    pub fn needs_modifier(&self) -> (r: bool)
        ensures
            r == self.asks_modifier(),
    {
        self.request.code().is_some() && self.request.tiling() == TILING_DRM_FORMAT_MODIFIER
    }

    /// The modifier of an image for which the device is not asked.
    pub open spec fn implied_modifier(linear: bool) -> u64 {
        if linear {
            MODIFIER_LINEAR
        } else {
            MODIFIER_INVALID
        }
    }

    /// Settles the format of the image. `queried` is the answer of the device where it was
    /// asked, see [`Self::needs_modifier`], and plays no part where it was not.
    pub fn set_format(&mut self, queried: Result<u64, i32>, formats: &Vec<FormatEntry>) -> (r: Result<
        (),
        Error,
    >)
        ensures
            match (old(self).request.code_of(), old(self).asks_modifier(), queried) {
                (None, _, _) => {
                    &&& r == Ok::<(), Error>(())
                    &&& *final(self) == (ImageBuild { drm: None, ..*old(self) })
                },
                (Some(code), true, Ok(modifier)) => {
                    let format = DrmFormat { code, modifier };
                    &&& r == Ok::<(), Error>(())
                    &&& *final(self) == (ImageBuild {
                        drm: Some(format),
                        inner: ImageInner {
                            dmabuf_plane_count: plane_count_of(formats@, format),
                            ..old(self).inner
                        },
                        ..*old(self)
                    })
                },
                (Some(_), true, Err(error)) => {
                    &&& r == Err::<(), Error>(Error::VulkanModifierQuery(error))
                    &&& *final(self) == *old(self)
                },
                (Some(code), false, _) => {
                    let modifier = Self::implied_modifier(old(self).request.linear);
                    &&& r == Ok::<(), Error>(())
                    &&& *final(self) == (ImageBuild {
                        drm: Some(DrmFormat { code, modifier }),
                        ..*old(self)
                    })
                },
            },
    {
        match self.request.code() {
            None => {
                self.drm = None;
                Ok(())
            },
            Some(code) => {
                if self.request.tiling() == TILING_DRM_FORMAT_MODIFIER {
                    match queried {
                        Ok(modifier) => {
                            let format = DrmFormat { code, modifier };
                            self.inner.dmabuf_plane_count = plane_count(formats, format);
                            self.drm = Some(format);
                            Ok(())
                        },
                        Err(error) => Err(Error::VulkanModifierQuery(error)),
                    }
                } else {
                    let modifier: u64 = if self.request.linear {
                        MODIFIER_LINEAR
                    } else {
                        MODIFIER_INVALID
                    };
                    self.drm = Some(DrmFormat { code, modifier });
                    Ok(())
                }
            },
        }
    }

    /// Shared images and render targets do not share a memory object with others, nor do
    /// images for which the device asks or prefers that.
    pub open spec fn is_dedicated(self, reqs: MemoryRequirements) -> bool {
        self.request.is_shared() || self.inner.dmabuf_exportable || has_bits(
            self.request.usage,
            USAGE_COLOR_ATTACHMENT,
        ) || reqs.requires_dedicated || reqs.prefers_dedicated
    }

    /// Picks the memory type and how the memory is obtained.
    pub fn plan_memory(&mut self, props: &MemoryProperties, reqs: MemoryRequirements) -> (plan: Result<
        MemoryPlan,
        Error,
    >)
        requires
            props.wf(),
        ensures
            match plan {
                Err(error) => {
                    &&& error == Error::NoMemoryAvailable
                    &&& is_image_memory(*props, reqs.type_bits, old(self).request.linear, None)
                    &&& *final(self) == *old(self)
                },
                Ok(plan) => {
                    let type_index = final(self).type_index;
                    &&& is_image_memory(
                        *props,
                        reqs.type_bits,
                        old(self).request.linear,
                        Some(type_index),
                    )
                    &&& *final(self) == (ImageBuild {
                        type_index,
                        mem_bits: props.memory_types@[type_index as int].property_flags,
                        inner: ImageInner { allocation_size: reqs.size, ..old(self).inner },
                        ..*old(self)
                    })
                    &&& plan == (if old(self).is_dedicated(reqs) {
                        MemoryPlan::Dedicated {
                            size: reqs.size,
                            type_index,
                            export: old(self).inner.dmabuf_exportable && (old(self).request.dmabuf is None),
                            import: old(self).request.dmabuf is Some,
                        }
                    } else {
                        MemoryPlan::Suballocate {
                            size: reqs.size,
                            alignment: reqs.alignment,
                            type_index,
                            tiling: old(self).request.tiling_of(),
                        }
                    })
                },
            },
    {
        let type_index: u32 = match image_memory_type(props, reqs.type_bits, self.request.linear) {
            Some(type_index) => type_index,
            None => return Err(Error::NoMemoryAvailable),
        };
        self.type_index = type_index;
        self.mem_bits = props.memory_types[type_index as usize].property_flags;
        self.inner.allocation_size = reqs.size;
        let dedicated = self.request.modifiers.is_some() || self.request.dmabuf.is_some()
            || self.inner.dmabuf_exportable || contains_bits(
            self.request.usage,
            USAGE_COLOR_ATTACHMENT,
        ) || reqs.requires_dedicated || reqs.prefers_dedicated;
        if dedicated {
            Ok(
                MemoryPlan::Dedicated {
                    size: reqs.size,
                    type_index,
                    export: self.inner.dmabuf_exportable && self.request.dmabuf.is_none(),
                    import: self.request.dmabuf.is_some(),
                },
            )
        } else {
            Ok(
                MemoryPlan::Suballocate {
                    size: reqs.size,
                    alignment: reqs.alignment,
                    type_index,
                    tiling: self.request.tiling(),
                },
            )
        }
    }

    /// Takes over a memory object that belongs to this image alone.
    pub fn allocated(&mut self, memory: Result<u64, AllocFailure>) -> (r: Result<Binding, Error>)
        ensures
            match memory {
                Ok(memory) => {
                    &&& r == Ok::<Binding, Error>(Binding { memory, offset: 0 })
                    &&& *final(self) == (ImageBuild {
                        inner: ImageInner {
                            memory,
                            memory_offset: 0,
                            suballocated: false,
                            ..old(self).inner
                        },
                        ..*old(self)
                    })
                },
                Err(failure) => {
                    &&& r == Err::<Binding, Error>(
                        match failure {
                            AllocFailure::Fd(code) => Error::DmabufFdError(code),
                            AllocFailure::Device(code) => Error::VulkanAllocate(code),
                        },
                    )
                    &&& *final(self) == *old(self)
                },
            },
    {
        match memory {
            Ok(memory) => {
                self.inner.memory = memory;
                self.inner.memory_offset = 0;
                self.inner.suballocated = false;
                Ok(Binding { memory, offset: 0 })
            },
            Err(AllocFailure::Fd(code)) => Err(Error::DmabufFdError(code)),
            Err(AllocFailure::Device(code)) => Err(Error::VulkanAllocate(code)),
        }
    }

    /// Takes over a part of a memory object. Where there was none to be had, the image gets
    /// a memory object after all.
    pub fn suballocated(&mut self, part: Result<Suballocation, i32>) -> (r: AfterSuballocation)
        ensures
            match part {
                Ok(part) => {
                    &&& r == AfterSuballocation::Bind(
                        Binding { memory: part.memory, offset: part.offset },
                    )
                    &&& *final(self) == (ImageBuild {
                        inner: ImageInner {
                            memory: part.memory,
                            memory_offset: part.offset,
                            suballocated: true,
                            mapped: if part.mapped is Some {
                                part.mapped
                            } else {
                                old(self).inner.mapped
                            },
                            ..old(self).inner
                        },
                        ..*old(self)
                    })
                },
                Err(_) => {
                    &&& r == AfterSuballocation::Allocate {
                        size: old(self).inner.allocation_size,
                        type_index: old(self).type_index,
                    }
                    &&& *final(self) == *old(self)
                },
            },
    {
        match part {
            Ok(part) => {
                self.inner.memory = part.memory;
                self.inner.memory_offset = part.offset;
                self.inner.suballocated = true;
                if part.mapped.is_some() {
                    self.inner.mapped = part.mapped;
                }
                AfterSuballocation::Bind(Binding { memory: part.memory, offset: part.offset })
            },
            Err(_) => AfterSuballocation::Allocate {
                size: self.inner.allocation_size,
                type_index: self.type_index,
            },
        }
    }

    /// The view that the image needs, if any.
    pub open spec fn view_of(self) -> Option<ViewInfo> {
        let usage = self.request.usage;
        let depth = self.request.is_depth_of();
        let written = has_bits(usage, USAGE_STORAGE) || has_bits(usage, USAGE_COLOR_ATTACHMENT);
        if has_bits(usage, USAGE_SAMPLED) || written || depth {
            Some(
                ViewInfo {
                    depth,
                    components: if depth || written {
                        Components::Identity
                    } else {
                        Components::ForFormat { has_alpha: self.has_alpha }
                    },
                },
            )
        } else {
            None
        }
    }

    /// What is to be done once the image has been bound to its memory.
    pub fn bound(&self, result: Result<(), i32>) -> (r: Result<Option<ViewInfo>, Error>)
        ensures
            r == match result {
                Ok(_) => Ok::<Option<ViewInfo>, Error>(self.view_of()),
                Err(code) => Err(Error::VulkanBind(code)),
            },
    {
        if let Err(code) = result {
            return Err(Error::VulkanBind(code));
        }
        let usage: u32 = self.request.usage;
        let depth = self.request.is_depth();
        let written = contains_bits(usage, USAGE_STORAGE) || contains_bits(
            usage,
            USAGE_COLOR_ATTACHMENT,
        );
        if contains_bits(usage, USAGE_SAMPLED) || written || depth {
            let components = if depth || written {
                Components::Identity
            } else {
                Components::ForFormat { has_alpha: self.has_alpha }
            };
            Ok(Some(ViewInfo { depth, components }))
        } else {
            Ok(None)
        }
    }

    /// Takes over the view.
    pub fn viewed(&mut self, view: Result<u64, i32>) -> (r: Result<(), Error>)
        ensures
            match view {
                Ok(view) => {
                    &&& r == Ok::<(), Error>(())
                    &&& *final(self) == (ImageBuild {
                        inner: ImageInner { view: Some(view), ..old(self).inner },
                        ..*old(self)
                    })
                },
                Err(code) => {
                    &&& r == Err::<(), Error>(Error::VulkanImageView(code))
                    &&& *final(self) == *old(self)
                },
            },
    {
        match view {
            Ok(view) => {
                self.inner.view = Some(view);
                Ok(())
            },
            Err(code) => Err(Error::VulkanImageView(code)),
        }
    }

    /// The image. `default_code` is the fourcc code that stands for the format of the device,
    /// if there is one; it names an image that was not asked for by a code.
    pub fn finish(self, default_code: Option<u32>) -> (image: VulkanImage)
        ensures
            image == (VulkanImage {
                inner: self.inner,
                width: self.request.width,
                height: self.request.height,
                format: self.request.format,
                has_alpha: self.has_alpha,
                mem_types: self.mem_bits,
                usage: self.request.usage,
                tiling: self.request.tiling_of(),
                drm: match (self.drm, default_code) {
                    (Some(format), _) => Some(format),
                    (None, Some(code)) => Some(DrmFormat { code, modifier: MODIFIER_INVALID }),
                    (None, None) => None,
                },
            }),
    {
        let tiling: i32 = self.request.tiling();
        let drm = match (self.drm, default_code) {
            (Some(format), _) => Some(format),
            (None, Some(code)) => Some(DrmFormat { code, modifier: MODIFIER_INVALID }),
            (None, None) => None,
        };
        VulkanImage {
            inner: self.inner,
            width: self.request.width,
            height: self.request.height,
            format: self.request.format,
            has_alpha: self.has_alpha,
            mem_types: self.mem_bits,
            usage: self.request.usage,
            tiling,
            drm,
        }
    }
}

/// Memory that is shared with other devices or processes belongs to one image: an image that
/// can be exported or was imported is never a part of a larger memory object.
pub proof fn law_shared_images_are_dedicated(
    request: ImageRequest,
    image: u64,
    build: ImageBuild,
    reqs: MemoryRequirements,
)
    requires
        build.request == request,
        build.inner == ImageBuild::fresh_inner(request, image),
    ensures
        build.inner.dmabuf_exportable ==> build.is_dedicated(reqs),
        request.is_shared() <==> build.inner.dmabuf_exportable,
{
}

/// Everything an image consists of is given back, once, and the image before its memory.
pub proof fn law_release_is_complete(inner: ImageInner)
    ensures
        inner.view matches Some(view) ==> inner.releases().contains(Release::View(view)),
        inner.releases().contains(Release::Image(inner.image)),
        inner.memory != 0 && inner.suballocated ==> inner.releases().contains(
            Release::Suballocation {
                memory: inner.memory,
                offset: inner.memory_offset,
                size: inner.allocation_size,
            },
        ),
        inner.memory != 0 && !inner.suballocated ==> inner.releases().contains(
            Release::Memory(inner.memory),
        ),
        inner.releases().no_duplicates(),
        forall|i: int, j: int|
            0 <= i < inner.releases().len() && 0 <= j < inner.releases().len()
                && #[trigger] inner.releases()[i] == Release::Image(inner.image) && (
            #[trigger] inner.releases()[j] is Memory || inner.releases()[j] is Suballocation)
                ==> i < j,
{
    let all = inner.releases();
    let n = (if inner.view is Some {
        1int
    } else {
        0int
    });
    assert(all[n] == Release::Image(inner.image));
    if inner.view is Some {
        assert(all[0] == Release::View(inner.view->0));
    }
    if inner.memory != 0 {
        if inner.suballocated {
            assert(all[n + 1] is Suballocation);
        } else if inner.mapped is Some {
            assert(all[n + 1] is Unmap);
            assert(all[n + 2] == Release::Memory(inner.memory));
        } else {
            assert(all[n + 1] == Release::Memory(inner.memory));
        }
    }
}

/// A linear image is visible to the host wherever the device offers such memory for it.
pub proof fn law_linear_images_are_host_visible(
    props: MemoryProperties,
    type_bits: u32,
    choice: Option<u32>,
)
    requires
        is_image_memory(props, type_bits, true, choice),
        !props.no_match(type_bits, HOST_VISIBLE),
    ensures
        choice is Some,
        has_bits(props.memory_types@[choice->0 as int].property_flags, HOST_VISIBLE),
{
    let i = choice->0 as int;
    let flags = props.memory_types@[i].property_flags;
    if !has_bits(flags, HOST_VISIBLE) {
        assert(flags & HOST_VISIBLE_COHERENT_LOCAL != HOST_VISIBLE_COHERENT_LOCAL && flags
            & HOST_VISIBLE_COHERENT != HOST_VISIBLE_COHERENT) by (bit_vector)
            requires
                flags & HOST_VISIBLE != HOST_VISIBLE,
        ;
    }
}

} // verus!
