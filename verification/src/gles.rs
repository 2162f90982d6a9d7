//! Shader parameters of HDR rendering with GLES.
//!
//! Values are the bits of single precision numbers.

use vstd::prelude::*;

use crate::description::{ImageDescription, Primaries, TransferFunction};
#[allow(unused_imports)]
use crate::hdr::{content_gamma, content_primaries, content_white};
use crate::hdr::{F32_2_2, F32_2_4, F32_203, F32_80, white_of};
use crate::names::same;
#[allow(unused_imports)]
use crate::softfloat::f32_equal;
use crate::softfloat::{f32_eq, F32_ONE};
#[allow(unused_imports)]
use crate::hdr::{about, exactly, lemma_constants};
#[allow(unused_imports)]
use crate::nearest::{closest32, law_whole_numbers_become_closest, units32};
#[allow(unused_imports)]
use crate::softfloat::two_pow;

verus! {

/// 2.0
pub const F32_2: u32 = 0x4000_0000;

/// A shader parameter by name; its value is the bits of a single precision number.
#[derive(Debug, Clone)]
pub struct Uniform {
    pub name: String,
    pub value: u32,
}

/// Target of HDR rendering with the GLES shaders.
#[derive(Debug, Clone, Copy)]
pub struct HdrOutputConfig {
    pub reference_white: u32,
    pub sdr_gamma: u32,
    pub gamut_stretch: u32,
}

impl PartialEq for HdrOutputConfig {
    fn eq(&self, other: &Self) -> (r: bool) {
        f32_eq(self.reference_white, other.reference_white) && f32_eq(
            self.sdr_gamma,
            other.sdr_gamma,
        ) && f32_eq(self.gamut_stretch, other.gamut_stretch)
    }
}

impl vstd::std_specs::cmp::PartialEqSpecImpl for HdrOutputConfig {
    open spec fn obeys_eq_spec() -> bool {
        true
    }

    open spec fn eq_spec(&self, other: &Self) -> bool {
        self.equals(*other)
    }
}

impl HdrOutputConfig {
    /// All values are equal as numbers.
    pub open spec fn equals(self, other: HdrOutputConfig) -> bool {
        &&& f32_equal(self.reference_white, other.reference_white)
        &&& f32_equal(self.sdr_gamma, other.sdr_gamma)
        &&& f32_equal(self.gamut_stretch, other.gamut_stretch)
    }
}

impl Default for HdrOutputConfig {
    fn default() -> (config: HdrOutputConfig)
        ensures
            config == (HdrOutputConfig {
                reference_white: F32_203,
                sdr_gamma: F32_2_2,
                gamut_stretch: 0,
            }),
    {
        HdrOutputConfig { reference_white: F32_203, sdr_gamma: F32_2_2, gamut_stretch: 0 }
    }
}

impl HdrOutputConfig {
    /// A target.
    pub fn new(reference_white: u32, sdr_gamma: u32, gamut_stretch: u32) -> (config: HdrOutputConfig)
        ensures
            config == (HdrOutputConfig { reference_white, sdr_gamma, gamut_stretch }),
    {
        HdrOutputConfig { reference_white, sdr_gamma, gamut_stretch }
    }
}

/// The seven shader parameters that depend on a surface.
#[derive(Debug, Clone, Copy, PartialEq, Eq, Structural)]
pub struct SurfaceUniforms {
    pub reference_white: u32,
    pub sdr_gamma: u32,
    pub gamut_stretch: u32,
    pub input_pq: u32,
    pub input_hlg: u32,
    pub input_primaries: u32,
    pub content_reference: u32,
}

/// The shader parameters for a surface.
pub open spec fn surface_uniforms(
    desc: Option<ImageDescription>,
    config: HdrOutputConfig,
) -> SurfaceUniforms {
    let plain = SurfaceUniforms {
        reference_white: config.reference_white,
        sdr_gamma: config.sdr_gamma,
        gamut_stretch: config.gamut_stretch,
        input_pq: 0,
        input_hlg: 0,
        input_primaries: 0,
        content_reference: F32_203,
    };
    match desc {
        None => plain,
        Some(desc) => if desc.transfer == TransferFunction::Hlg {
            SurfaceUniforms { input_hlg: F32_ONE, content_reference: content_white(desc), ..plain }
        } else if desc.is_pq_bt2020 {
            SurfaceUniforms { input_pq: F32_ONE, content_reference: content_white(desc), ..plain }
        } else if desc.linear() {
            SurfaceUniforms {
                reference_white: F32_80,
                sdr_gamma: F32_ONE,
                gamut_stretch: 0,
                ..plain
            }
        } else {
            let primaries = content_primaries(desc.primaries);
            SurfaceUniforms {
                sdr_gamma: content_gamma(desc.transfer, config.sdr_gamma),
                gamut_stretch: if primaries > 0 {
                    0
                } else {
                    config.gamut_stretch
                },
                input_primaries: if primaries == 1 {
                    F32_ONE
                } else if primaries == 2 {
                    F32_2
                } else {
                    0
                },
                ..plain
            }
        },
    }
}

/// The value that a parameter takes; others keep theirs.
pub open spec fn uniform_value(name: Seq<char>, value: u32, u: SurfaceUniforms) -> u32 {
    if name == "hdr_reference_white"@ {
        u.reference_white
    } else if name == "hdr_sdr_gamma"@ {
        u.sdr_gamma
    } else if name == "hdr_gamut_stretch"@ {
        u.gamut_stretch
    } else if name == "hdr_input_pq"@ {
        u.input_pq
    } else if name == "hdr_input_hlg"@ {
        u.input_hlg
    } else if name == "hdr_input_primaries"@ {
        u.input_primaries
    } else if name == "hdr_content_reference"@ {
        u.content_reference
    } else {
        value
    }
}

fn updated_value(name: &str, value: u32, u: &SurfaceUniforms) -> (r: u32)
    ensures
        r == uniform_value(name@, value, *u),
{
    if same(name, "hdr_reference_white") {
        u.reference_white
    } else if same(name, "hdr_sdr_gamma") {
        u.sdr_gamma
    } else if same(name, "hdr_gamut_stretch") {
        u.gamut_stretch
    } else if same(name, "hdr_input_pq") {
        u.input_pq
    } else if same(name, "hdr_input_hlg") {
        u.input_hlg
    } else if same(name, "hdr_input_primaries") {
        u.input_primaries
    } else if same(name, "hdr_content_reference") {
        u.content_reference
    } else {
        value
    }
}

impl SurfaceUniforms {
    /// See [`surface_uniforms`].
    pub fn for_surface(desc: Option<&ImageDescription>, config: &HdrOutputConfig) -> (u: SurfaceUniforms)
        ensures
            u == surface_uniforms(
                match desc {
                    Some(desc) => Some(*desc),
                    None => None,
                },
                *config,
            ),
    {
        let mut u = SurfaceUniforms {
            reference_white: config.reference_white,
            sdr_gamma: config.sdr_gamma,
            gamut_stretch: config.gamut_stretch,
            input_pq: 0,
            input_hlg: 0,
            input_primaries: 0,
            content_reference: F32_203,
        };
        if let Some(desc) = desc {
            if desc.transfer == TransferFunction::Hlg {
                u.input_hlg = F32_ONE;
                u.content_reference = white_of(desc);
            } else if desc.is_pq_bt2020 {
                u.input_pq = F32_ONE;
                u.content_reference = white_of(desc);
            } else if desc.is_linear() {
                u.reference_white = F32_80;
                u.sdr_gamma = F32_ONE;
                u.gamut_stretch = 0;
            } else {
                u.sdr_gamma =
                match desc.transfer {
                    TransferFunction::Bt1886 => F32_2_4,
                    TransferFunction::Gamma22 => F32_2_2,
                    TransferFunction::CompoundPower24 => 0,
                    TransferFunction::Srgb => 0,
                    _ => config.sdr_gamma,
                };
                match desc.primaries {
                    Some(Primaries::DisplayP3) => {
                        u.input_primaries = F32_ONE;
                        u.gamut_stretch = 0;
                    },
                    Some(Primaries::Bt2020) => {
                        u.input_primaries = F32_2;
                        u.gamut_stretch = 0;
                    },
                    _ => {},
                }
            }
        }
        u
    }
}

/// Sets the shader parameters of a surface by the description of its contents.
pub fn update_hdr_surface_uniforms(
    desc: Option<&ImageDescription>,
    uniforms: &mut Vec<Uniform>,
    config: &HdrOutputConfig,
)
    ensures
        final(uniforms)@.len() == old(uniforms)@.len(),
        forall|i: int|
            0 <= i < old(uniforms)@.len() ==> {
                &&& (#[trigger] final(uniforms)@[i]).name@ == old(uniforms)@[i].name@
                &&& final(uniforms)@[i].value == uniform_value(
                    old(uniforms)@[i].name@,
                    old(uniforms)@[i].value,
                    surface_uniforms(
                        match desc {
                            Some(desc) => Some(*desc),
                            None => None,
                        },
                        *config,
                    ),
                )
            },
{
    let u: SurfaceUniforms = SurfaceUniforms::for_surface(desc, config);
    let ghost before = uniforms@;
    let mut i: usize = 0;
    while i < uniforms.len()
        invariant
            i <= uniforms@.len() == before.len(),
            forall|j: int|
                0 <= j < i ==> {
                    &&& (#[trigger] uniforms@[j]).name@ == before[j].name@
                    &&& uniforms@[j].value == uniform_value(before[j].name@, before[j].value, u)
                },
            forall|j: int| i <= j < before.len() ==> uniforms@[j] == before[j],
        decreases uniforms.len() - i,
    {
        let value: u32 = updated_value(uniforms[i].name.as_str(), uniforms[i].value, &u);
        uniforms[i].value = value;
        i = i + 1;
    }
}

/// The value of the uniform with a name, for a surface.
pub open spec fn uniform_for(
    name: Seq<char>,
    value: u32,
    desc: Option<ImageDescription>,
    config: HdrOutputConfig,
) -> u32 {
    uniform_value(name, value, surface_uniforms(desc, config))
}

/// White that HLG and PQ contents are given with, 80 cd/m2 at least.
pub open spec fn given_white(desc: ImageDescription) -> int {
    match desc.luminances {
        Some((_, _, reference)) => if reference < 80 {
            80
        } else {
            reference as int
        },
        None => 203,
    }
}

/// The uniforms describe the contents of a surface: HLG and PQ contents are marked as such, with
/// their own white. Linear contents have an exponent of 1 and white at 80 cd/m2. Other contents
/// have the exponent and the primaries that they are given, and those of the output otherwise; only
/// colors of standard primaries are stretched. Other uniforms are left alone.
pub proof fn law_uniforms_describe_the_contents(
    desc: ImageDescription,
    config: HdrOutputConfig,
    value: u32,
)
    ensures
        ({
            let of = |name: Seq<char>| uniform_for(name, value, Some(desc), config);
            let hlg = desc.transfer is Hlg;
            let pq = !hlg && desc.is_pq_bt2020;
            let linear = !hlg && !pq && (desc.transfer is ExtLinear || desc.windows_scrgb);
            let plain = !hlg && !pq && !linear;
            let wide = desc.primaries == Some(Primaries::Bt2020);
            let p3 = desc.primaries == Some(Primaries::DisplayP3);
            let gamma = of("hdr_sdr_gamma"@);
            &&& exactly(of("hdr_input_hlg"@), if hlg { 1 } else { 0 })
            &&& exactly(of("hdr_input_pq"@), if pq { 1 } else { 0 })
            &&& exactly(
                of("hdr_input_primaries"@),
                if plain && p3 {
                    1
                } else if plain && wide {
                    2
                } else {
                    0
                },
            )
            &&& linear ==> exactly(gamma, 1) && exactly(of("hdr_reference_white"@), 80) && exactly(
                of("hdr_gamut_stretch"@),
                0,
            )
            &&& !linear ==> of("hdr_reference_white"@) == config.reference_white
            &&& hlg || pq ==> gamma == config.sdr_gamma
            &&& plain && desc.transfer is Bt1886 ==> about(gamma, 24, 10)
            &&& plain && desc.transfer is Gamma22 ==> about(gamma, 22, 10)
            &&& plain && (desc.transfer is Srgb || desc.transfer is CompoundPower24) ==> exactly(
                gamma,
                0,
            )
            &&& plain && (desc.transfer is Pq || desc.transfer is Other) ==> gamma
                == config.sdr_gamma
            &&& plain && (wide || p3) ==> exactly(of("hdr_gamut_stretch"@), 0)
            &&& !linear && !(plain && (wide || p3)) ==> of("hdr_gamut_stretch"@)
                == config.gamut_stretch
            &&& !(hlg || pq) || desc.luminances is None ==> exactly(
                of("hdr_content_reference"@),
                203,
            )
            &&& (hlg || pq) && desc.luminances is Some ==> closest32(
                of("hdr_content_reference"@),
                given_white(desc) * two_pow(149),
                1,
            )
        }),
{
    lemma_names();
    lemma_constants();
    assert(0 * two_pow(149) == 0);
    assert(units32(0) == 0);
    crate::softfloat::lemma_two_pow_values();
    crate::softfloat::lemma_two_pow_split(23, 127);
    crate::softfloat::lemma_two_pow_split(22, 127);
    assert(two_pow(149) == two_pow(22) * two_pow(127));
    assert(2 * two_pow(22) == two_pow(23));
    assert(two_pow(150) == 2 * two_pow(149));
    assert(units32(F32_2) == 0x80_0000 * two_pow(127));
    if desc.luminances is Some {
        law_whole_numbers_become_closest(given_white(desc) as u32);
    }
}

/// Contents without a description are standard ones of the output.
pub proof fn law_uniforms_of_plain_contents(config: HdrOutputConfig, value: u32)
    ensures
        ({
            let of = |name: Seq<char>| uniform_for(name, value, None, config);
            &&& of("hdr_reference_white"@) == config.reference_white
            &&& of("hdr_sdr_gamma"@) == config.sdr_gamma
            &&& of("hdr_gamut_stretch"@) == config.gamut_stretch
            &&& exactly(of("hdr_input_hlg"@), 0) && exactly(of("hdr_input_pq"@), 0)
            &&& exactly(of("hdr_input_primaries"@), 0)
            &&& exactly(of("hdr_content_reference"@), 203)
        }),
{
    lemma_names();
    lemma_constants();
    assert(0 * two_pow(149) == 0);
    assert(units32(0) == 0);
}

proof fn lemma_names()
    ensures
        "hdr_reference_white"@.len() == 19 && "hdr_reference_white"@[4] == 'r',
        "hdr_sdr_gamma"@.len() == 13 && "hdr_sdr_gamma"@[4] == 's',
        "hdr_gamut_stretch"@.len() == 17,
        "hdr_input_pq"@.len() == 12,
        "hdr_input_hlg"@.len() == 13 && "hdr_input_hlg"@[4] == 'i',
        "hdr_input_primaries"@.len() == 19 && "hdr_input_primaries"@[4] == 'i',
        "hdr_content_reference"@.len() == 21,
{
    reveal_strlit("hdr_reference_white");
    reveal_strlit("hdr_sdr_gamma");
    reveal_strlit("hdr_gamut_stretch");
    reveal_strlit("hdr_input_pq");
    reveal_strlit("hdr_input_hlg");
    reveal_strlit("hdr_input_primaries");
    reveal_strlit("hdr_content_reference");
}

} // verus!
