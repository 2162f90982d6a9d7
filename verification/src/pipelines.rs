//! The graphics pipelines of the Vulkan renderer and their cache.

use vstd::prelude::*;

use crate::vk::{FORMAT_D16_UNORM, FORMAT_UNDEFINED};

verus! {

/// Specialization of the HDR shader: decides everything at run time.
pub const SPEC_MODE_GENERIC: u32 = 0;

/// Specialization of the HDR shader: copies colors.
pub const SPEC_MODE_PASSTHROUGH: u32 = 1;

/// Specialization of the HDR shader: SDR input.
pub const SPEC_MODE_SDR: u32 = 2;

/// Specialization of the HDR shader: PQ input.
pub const SPEC_MODE_PQ: u32 = 3;

/// Specialization of the HDR shader: color mapping with a three dimensional table.
pub const SPEC_MODE_LUT3D: u32 = 4;

/// The shaders that come with the renderer.
#[derive(Debug, Clone, Copy, PartialEq, Eq, Hash, Structural)]
pub enum BuiltinShader {
    Clear,
    Texture,
    HdrTexture,
}

/// The pipelines that exist for every target format.
#[derive(Debug, Clone, Copy, PartialEq, Eq, Structural)]
pub enum PipelineKind {
    Clear,
    ClearBlend,
    Tex,
    TexBlend,
    HdrTex,
    HdrTexBlend,
    HdrPassthrough,
    HdrPassthroughBlend,
    HdrSdr,
    HdrSdrBlend,
    HdrPq,
    HdrPqBlend,
    HdrLut3d,
    HdrLut3dBlend,
}

/// Number of pipelines for a target format.
pub const PIPELINE_COUNT: usize = 14;

impl PipelineKind {
    /// Place of the pipeline among those of a format.
    pub open spec fn place(self) -> int {
        match self {
            PipelineKind::Clear => 0,
            PipelineKind::ClearBlend => 1,
            PipelineKind::Tex => 2,
            PipelineKind::TexBlend => 3,
            PipelineKind::HdrTex => 4,
            PipelineKind::HdrTexBlend => 5,
            PipelineKind::HdrPassthrough => 6,
            PipelineKind::HdrPassthroughBlend => 7,
            PipelineKind::HdrSdr => 8,
            PipelineKind::HdrSdrBlend => 9,
            PipelineKind::HdrPq => 10,
            PipelineKind::HdrPqBlend => 11,
            PipelineKind::HdrLut3d => 12,
            PipelineKind::HdrLut3dBlend => 13,
        }
    }

    /// See [`PipelineKind::place`].
    pub fn index(self) -> (i: usize)
        ensures
            i == self.place(),
            i < PIPELINE_COUNT,
    {
        match self {
            PipelineKind::Clear => 0,
            PipelineKind::ClearBlend => 1,
            PipelineKind::Tex => 2,
            PipelineKind::TexBlend => 3,
            PipelineKind::HdrTex => 4,
            PipelineKind::HdrTexBlend => 5,
            PipelineKind::HdrPassthrough => 6,
            PipelineKind::HdrPassthroughBlend => 7,
            PipelineKind::HdrSdr => 8,
            PipelineKind::HdrSdrBlend => 9,
            PipelineKind::HdrPq => 10,
            PipelineKind::HdrPqBlend => 11,
            PipelineKind::HdrLut3d => 12,
            PipelineKind::HdrLut3dBlend => 13,
        }
    }

    /// Whether the pipeline blends with what is there.
    pub open spec fn blends(self) -> bool {
        self.place() % 2 == 1
    }

    /// The shader, which also decides the layout.
    pub open spec fn shader(self) -> BuiltinShader {
        if self.place() < 2 {
            BuiltinShader::Clear
        } else if self.place() < 4 {
            BuiltinShader::Texture
        } else {
            BuiltinShader::HdrTexture
        }
    }

    /// The specialization of the HDR shader.
    pub open spec fn mode(self) -> Option<u32> {
        if self.place() < 4 {
            None
        } else if self.place() < 6 {
            Some(SPEC_MODE_GENERIC)
        } else if self.place() < 8 {
            Some(SPEC_MODE_PASSTHROUGH)
        } else if self.place() < 10 {
            Some(SPEC_MODE_SDR)
        } else if self.place() < 12 {
            Some(SPEC_MODE_PQ)
        } else {
            Some(SPEC_MODE_LUT3D)
        }
    }
}

/// What distinguishes the pipelines of a format.
#[derive(Debug, Clone, Copy, PartialEq, Eq, Structural)]
pub struct PipelineInfo {
    pub shader: BuiltinShader,
    /// Value of the specialization constant of the HDR shader.
    pub mode: Option<u32>,
    /// Premultiplied alpha blending.
    pub blend: bool,
    pub depth_test: bool,
    pub depth_write: bool,
    pub color_format: i32,
    pub depth_format: i32,
}

impl PipelineInfo {
    /// The pipeline of a kind for a target format. What blends does not write depth.
    pub open spec fn of(kind: PipelineKind, format: i32, has_depth: bool) -> PipelineInfo {
        PipelineInfo {
            shader: kind.shader(),
            mode: kind.mode(),
            blend: kind.blends(),
            depth_test: has_depth,
            depth_write: has_depth && !kind.blends(),
            color_format: format,
            depth_format: if has_depth {
                FORMAT_D16_UNORM
            } else {
                FORMAT_UNDEFINED
            },
        }
    }

    fn make(shader: BuiltinShader, mode: Option<u32>, blend: bool, format: i32, has_depth: bool) -> (info:
        PipelineInfo)
        ensures
            info == (PipelineInfo {
                shader,
                mode,
                blend,
                depth_test: has_depth,
                depth_write: has_depth && !blend,
                color_format: format,
                depth_format: if has_depth {
                    FORMAT_D16_UNORM
                } else {
                    FORMAT_UNDEFINED
                },
            }),
    {
        PipelineInfo {
            shader,
            mode,
            blend,
            depth_test: has_depth,
            depth_write: has_depth && !blend,
            color_format: format,
            depth_format: if has_depth {
                FORMAT_D16_UNORM
            } else {
                FORMAT_UNDEFINED
            },
        }
    }
}

/// The pipelines to create for a target format, each at its place.
pub open spec fn is_pipeline_list(list: Seq<PipelineInfo>, format: i32, has_depth: bool) -> bool {
    &&& list.len() == PIPELINE_COUNT
    &&& forall|kind: PipelineKind|
        list[#[trigger] kind.place()] == PipelineInfo::of(kind, format, has_depth)
}

/// See [`is_pipeline_list`].
pub fn pipeline_infos(format: i32, has_depth: bool) -> (list: Vec<PipelineInfo>)
    ensures
        is_pipeline_list(list@, format, has_depth),
{
    let clear = BuiltinShader::Clear;
    let tex = BuiltinShader::Texture;
    let hdr = BuiltinShader::HdrTexture;
    vec![
        PipelineInfo::make(clear, None, false, format, has_depth),
        PipelineInfo::make(clear, None, true, format, has_depth),
        PipelineInfo::make(tex, None, false, format, has_depth),
        PipelineInfo::make(tex, None, true, format, has_depth),
        PipelineInfo::make(hdr, Some(SPEC_MODE_GENERIC), false, format, has_depth),
        PipelineInfo::make(hdr, Some(SPEC_MODE_GENERIC), true, format, has_depth),
        PipelineInfo::make(hdr, Some(SPEC_MODE_PASSTHROUGH), false, format, has_depth),
        PipelineInfo::make(hdr, Some(SPEC_MODE_PASSTHROUGH), true, format, has_depth),
        PipelineInfo::make(hdr, Some(SPEC_MODE_SDR), false, format, has_depth),
        PipelineInfo::make(hdr, Some(SPEC_MODE_SDR), true, format, has_depth),
        PipelineInfo::make(hdr, Some(SPEC_MODE_PQ), false, format, has_depth),
        PipelineInfo::make(hdr, Some(SPEC_MODE_PQ), true, format, has_depth),
        PipelineInfo::make(hdr, Some(SPEC_MODE_LUT3D), false, format, has_depth),
        PipelineInfo::make(hdr, Some(SPEC_MODE_LUT3D), true, format, has_depth),
    ]
}

/// Handles of the pipelines of a target format, each at its place.
#[derive(Debug)]
pub struct FormatPipelines {
    pub format: i32,
    pub has_depth: bool,
    pub handles: Vec<u64>,
}

impl FormatPipelines {
    /// All pipelines are there.
    pub open spec fn wf(&self) -> bool {
        self.handles@.len() == PIPELINE_COUNT
    }

    /// The pipeline of a kind.
    pub fn get(&self, kind: PipelineKind) -> (handle: u64)
        requires
            self.wf(),
        ensures
            handle == self.handles@[kind.place()],
    {
        self.handles[kind.index()]
    }
}

/// The pipelines that have been created so far, and the layouts of the shaders.
#[derive(Debug)]
pub struct Pipelines {
    pub clear_layout: u64,
    pub tex_layout: u64,
    pub hdr_tex_layout: u64,
    pub entries: Vec<FormatPipelines>,
}

/// What is asked for when pipelines are needed.
#[derive(Debug, PartialEq, Eq, Structural, Clone, Copy)]
pub enum PipelineLookup {
    /// They exist, at this entry.
    Cached(usize),
    /// They have to be created.
    Create,
}

impl Pipelines {
    /// Every entry is complete, and there is one for each format.
    pub open spec fn wf(&self) -> bool {
        &&& forall|i: int| 0 <= i < self.entries@.len() ==> (#[trigger] self.entries@[i]).wf()
        &&& forall|i: int, j: int|
            0 <= i < j < self.entries@.len() ==> (#[trigger] self.entries@[i]).format != (
            #[trigger] self.entries@[j]).format || self.entries@[i].has_depth
                != self.entries@[j].has_depth
    }

    /// No pipelines yet.
    pub fn new(clear_layout: u64, tex_layout: u64, hdr_tex_layout: u64) -> (p: Pipelines)
        ensures
            p.wf(),
            p.entries@.len() == 0,
            p.clear_layout == clear_layout,
            p.tex_layout == tex_layout,
            p.hdr_tex_layout == hdr_tex_layout,
    {
        Pipelines { clear_layout, tex_layout, hdr_tex_layout, entries: Vec::new() }
    }

    /// Whether there are pipelines for a format.
    pub open spec fn holds(&self, format: i32, has_depth: bool) -> bool {
        exists|i: int|
            0 <= i < self.entries@.len() && (#[trigger] self.entries@[i]).format == format
                && self.entries@[i].has_depth == has_depth
    }

    /// The pipelines of a format, if they have been created.
    pub fn lookup(&self, format: i32, has_depth: bool) -> (found: PipelineLookup)
        ensures
            match found {
                PipelineLookup::Cached(i) => {
                    &&& i < self.entries@.len()
                    &&& self.entries@[i as int].format == format
                    &&& self.entries@[i as int].has_depth == has_depth
                },
                PipelineLookup::Create => !self.holds(format, has_depth),
            },
    {
        let mut i: usize = 0;
        while i < self.entries.len()
            invariant
                i <= self.entries.len(),
                forall|j: int|
                    0 <= j < i ==> (#[trigger] self.entries@[j]).format != format
                        || self.entries@[j].has_depth != has_depth,
            decreases self.entries.len() - i,
        {
            if self.entries[i].format == format && self.entries[i].has_depth == has_depth {
                return PipelineLookup::Cached(i);
            }
            i = i + 1;
        }
        PipelineLookup::Create
    }

    /// The pipelines of a format: those that exist, or the ones that `created` gives, which are
    /// then kept. `None` if none exist and none could be created.
    pub fn get_or_create_format_pipelines(
        &mut self,
        format: i32,
        has_depth: bool,
        created: Option<Vec<u64>>,
    ) -> (at: Option<usize>)
        requires
            old(self).wf(),
            created is Some ==> created->Some_0@.len() == PIPELINE_COUNT,
        ensures
            final(self).wf(),
            final(self).clear_layout == old(self).clear_layout,
            final(self).tex_layout == old(self).tex_layout,
            final(self).hdr_tex_layout == old(self).hdr_tex_layout,
            match at {
                Some(i) => {
                    &&& i < final(self).entries@.len()
                    &&& final(self).entries@[i as int].format == format
                    &&& final(self).entries@[i as int].has_depth == has_depth
                },
                None => created is None && !old(self).holds(format, has_depth),
            },
            old(self).holds(format, has_depth) || created is None ==> final(self).entries@ == old(
                self,
            ).entries@,
            !old(self).holds(format, has_depth) && created is Some ==> {
                &&& at == Some(old(self).entries@.len() as usize)
                &&& final(self).entries@.drop_last() == old(self).entries@
                &&& final(self).entries@.last().handles@ == created->Some_0@
            },
    {
        match self.lookup(format, has_depth) {
            PipelineLookup::Cached(i) => Some(i),
            PipelineLookup::Create => match created {
                Some(handles) => {
                    let at: usize = self.entries.len();
                    self.entries.push(FormatPipelines { format, has_depth, handles });
                    assert(self.entries@.drop_last() =~= old(self).entries@);
                    Some(at)
                },
                None => None,
            },
        }
    }

    /// The layout for a shader.
    pub fn layout(&self, shader: BuiltinShader) -> (layout: u64)
        ensures
            layout == match shader {
                BuiltinShader::Clear => self.clear_layout,
                BuiltinShader::Texture => self.tex_layout,
                BuiltinShader::HdrTexture => self.hdr_tex_layout,
            },
    {
        match shader {
            BuiltinShader::Clear => self.clear_layout,
            BuiltinShader::Texture => self.tex_layout,
            BuiltinShader::HdrTexture => self.hdr_tex_layout,
        }
    }

    pub fn clear_pipeline_layout(&self) -> (layout: u64)
        ensures
            layout == self.clear_layout,
    {
        self.clear_layout
    }

    pub fn tex_pipeline_layout(&self) -> (layout: u64)
        ensures
            layout == self.tex_layout,
    {
        self.tex_layout
    }

    pub fn hdr_tex_pipeline_layout(&self) -> (layout: u64)
        ensures
            layout == self.hdr_tex_layout,
    {
        self.hdr_tex_layout
    }
}

/// Whether the descriptor sets of a shader come from the pool of the HDR shader; all others
/// share the pool of the texture shader.
pub fn uses_hdr_pool(shader: BuiltinShader) -> (r: bool)
    ensures
        r == (shader == BuiltinShader::HdrTexture),
{
    shader == BuiltinShader::HdrTexture
}

/// Where the pipeline cache is kept.
#[derive(Debug, Clone, Copy, PartialEq, Eq, Structural)]
pub enum CacheLocation {
    /// In the file that the user names.
    Named,
    /// In the user's cache directory.
    CacheHome,
    /// In `.cache` of the home directory.
    Home,
    /// Nowhere.
    Disabled,
}

/// The place of the pipeline cache, by which settings are there.
pub fn cache_location(named: bool, cache_home: bool, home: bool) -> (location: CacheLocation)
    ensures
        location == if named {
            CacheLocation::Named
        } else if cache_home {
            CacheLocation::CacheHome
        } else if home {
            CacheLocation::Home
        } else {
            CacheLocation::Disabled
        },
{
    if named {
        CacheLocation::Named
    } else if cache_home {
        CacheLocation::CacheHome
    } else if home {
        CacheLocation::Home
    } else {
        CacheLocation::Disabled
    }
}

/// A hexadecimal digit.
pub open spec fn hex_digit(n: int) -> char {
    if n < 10 {
        ('0' as u8 + n) as char
    } else {
        ('a' as u8 + (n - 10)) as char
    }
}

/// Two hexadecimal digits for each byte.
pub open spec fn hex_digits(bytes: Seq<u8>) -> Seq<char>
    decreases bytes.len(),
{
    if bytes.len() == 0 {
        seq![]
    } else {
        hex_digits(bytes.drop_last()) + seq![
            hex_digit(bytes.last() as int / 16),
            hex_digit(bytes.last() as int % 16),
        ]
    }
}

fn digit(n: u8) -> (text: &'static str)
    requires
        n < 16,
    ensures
        text@ == seq![hex_digit(n as int)],
{
    proof {
        reveal_strlit("0");
        reveal_strlit("1");
        reveal_strlit("2");
        reveal_strlit("3");
        reveal_strlit("4");
        reveal_strlit("5");
        reveal_strlit("6");
        reveal_strlit("7");
        reveal_strlit("8");
        reveal_strlit("9");
        reveal_strlit("a");
        reveal_strlit("b");
        reveal_strlit("c");
        reveal_strlit("d");
        reveal_strlit("e");
        reveal_strlit("f");
    }
    let text: &'static str = match n {
        0 => "0",
        1 => "1",
        2 => "2",
        3 => "3",
        4 => "4",
        5 => "5",
        6 => "6",
        7 => "7",
        8 => "8",
        9 => "9",
        10 => "a",
        11 => "b",
        12 => "c",
        13 => "d",
        14 => "e",
        _ => "f",
    };
    assert(text@ =~= seq![hex_digit(n as int)]);
    text
}

/// Name of the pipeline cache file of a device.
pub fn cache_file_name(uuid: &[u8]) -> (name: String)
    ensures
        name@ == "vulkan_pipelines_"@ + hex_digits(uuid@) + ".bin"@,
{
    let mut name: String = String::from_str("vulkan_pipelines_");
    let mut i: usize = 0;
    assert(uuid@.take(0) =~= seq![]);
    assert(name@ =~= "vulkan_pipelines_"@ + hex_digits(uuid@.take(0)));
    while i < uuid.len()
        invariant
            i <= uuid@.len(),
            name@ == "vulkan_pipelines_"@ + hex_digits(uuid@.take(i as int)),
        decreases uuid@.len() - i,
    {
        let byte: u8 = uuid[i];
        proof {
            assert(uuid@.take(i + 1).last() == byte);
            assert(uuid@.take(i + 1).drop_last() =~= uuid@.take(i as int));
        }
        name.append(digit(byte / 16));
        name.append(digit(byte % 16));
        i = i + 1;
        assert(name@ =~= "vulkan_pipelines_"@ + hex_digits(uuid@.take(i as int)));
    }
    assert(uuid@.take(i as int) =~= uuid@);
    name.append(".bin");
    name
}

/// What the pipeline layout of a custom shader reserves for push constants: nothing at size
/// zero.
pub fn push_constant_range(size: u32) -> (range: Option<u32>)
    ensures
        range == if size > 0 {
            Some(size)
        } else {
            None
        },
{
    if size > 0 {
        Some(size)
    } else {
        None
    }
}

/// Every kind of pipeline has its own place.
pub proof fn law_kinds_have_own_places(a: PipelineKind, b: PipelineKind)
    requires
        a.place() == b.place(),
    ensures
        a == b,
{
}

/// For every opaque pipeline there is one with the same shader and mode that blends, at the next
/// place, and it leaves the depth buffer alone.
pub proof fn law_blending_pairs(kind: PipelineKind, format: i32, has_depth: bool, list: Seq<PipelineInfo>)
    requires
        is_pipeline_list(list, format, has_depth),
        !kind.blends(),
    ensures
        list[kind.place() + 1] == (PipelineInfo {
            blend: true,
            depth_write: false,
            ..list[kind.place()]
        }),
{
    assert(exists|other: PipelineKind| other.place() == kind.place() + 1) by {
        let other = match kind {
            PipelineKind::Clear => PipelineKind::ClearBlend,
            PipelineKind::Tex => PipelineKind::TexBlend,
            PipelineKind::HdrTex => PipelineKind::HdrTexBlend,
            PipelineKind::HdrPassthrough => PipelineKind::HdrPassthroughBlend,
            PipelineKind::HdrSdr => PipelineKind::HdrSdrBlend,
            PipelineKind::HdrPq => PipelineKind::HdrPqBlend,
            _ => PipelineKind::HdrLut3dBlend,
        };
        assert(other.place() == kind.place() + 1);
    }
    let other = choose|other: PipelineKind| other.place() == kind.place() + 1;
    assert(list[other.place()] == PipelineInfo::of(other, format, has_depth));
    assert(list[kind.place()] == PipelineInfo::of(kind, format, has_depth));
}

/// Every pipeline is made for what it is used for: its place in the list is that of its kind, the
/// clear shader fills, the texture shader draws as it is, and the HDR shader draws in the mode of
/// its kind. Only the blending ones blend. With a depth buffer all are tested against it, and only
/// the opaque ones write to it.
pub proof fn law_pipelines_are_for_their_kind(
    kind: PipelineKind,
    format: i32,
    has_depth: bool,
    list: Vec<PipelineInfo>,
    at: usize,
)
    requires
        call_ensures(pipeline_infos, (format, has_depth), list),
        call_ensures(PipelineKind::index, (kind,), at),
    ensures
        ({
            let info = list@[at as int];
            let opaque = kind is Clear || kind is Tex || kind is HdrTex || kind is HdrPassthrough
                || kind is HdrSdr || kind is HdrPq || kind is HdrLut3d;
            let clear = kind is Clear || kind is ClearBlend;
            let plain = kind is Tex || kind is TexBlend;
            &&& at < list@.len()
            &&& info.blend == !opaque
            &&& info.shader is Clear == clear
            &&& info.shader is Texture == plain
            &&& info.shader is HdrTexture == !(clear || plain)
            &&& info.mode is None == (clear || plain)
            &&& kind is HdrTex || kind is HdrTexBlend ==> info.mode == Some(0u32)
            &&& kind is HdrPassthrough || kind is HdrPassthroughBlend ==> info.mode == Some(1u32)
            &&& kind is HdrSdr || kind is HdrSdrBlend ==> info.mode == Some(2u32)
            &&& kind is HdrPq || kind is HdrPqBlend ==> info.mode == Some(3u32)
            &&& kind is HdrLut3d || kind is HdrLut3dBlend ==> info.mode == Some(4u32)
            &&& info.color_format == format
            &&& info.depth_test == has_depth
            &&& info.depth_write == (has_depth && opaque)
            &&& has_depth ==> info.depth_format == 124
            &&& !has_depth ==> info.depth_format == 0
        }),
{
    assert(list@[kind.place()] == PipelineInfo::of(kind, format, has_depth));
}

/// Pipelines are drawn with the layout of their shader; only the HDR shader reads parameters of
/// surfaces.
pub proof fn law_layouts_fit_the_shaders(
    p: Pipelines,
    shader: BuiltinShader,
    layout: u64,
    hdr: bool,
)
    requires
        call_ensures(Pipelines::layout, (&p, shader), layout),
        call_ensures(uses_hdr_pool, (shader,), hdr),
    ensures
        hdr <==> shader is HdrTexture,
        shader is Clear ==> layout == p.clear_layout,
        shader is Texture ==> layout == p.tex_layout,
        shader is HdrTexture ==> layout == p.hdr_tex_layout,
{
}

} // verus!
