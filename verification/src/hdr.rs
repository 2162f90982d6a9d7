//! Color parameters of HDR output, and how the contents of a surface map to it.
//!
//! Luminances and exponents are the bits of single precision values.

use vstd::prelude::*;

use crate::description::{ImageDescription, Primaries, TransferFunction};
use crate::softfloat::{
    F32_ONE, f32_eq, f32_from_int, f32_le, f32_near, f32_product,
};
#[allow(unused_imports)]
use crate::softfloat::{f32_at_most, f32_equal, f32_product_of, f32_quotient_of, f32_within_one};
#[allow(unused_imports)]
use crate::vk::is_hdr_format;
use crate::vk::is_hdr_vk_format;

#[allow(unused_imports)]
use crate::nearest::{closest32, finite32, gap, law_whole_numbers_become_closest, units32};
#[allow(unused_imports)]
use crate::softfloat::{
    f32_less, lemma_two_pow_grows, lemma_two_pow_positive, lemma_two_pow_split, lemma_two_pow_values,
    two_pow,
};

verus! {

/// 80 cd/m^2
pub const F32_80: u32 = 0x42a0_0000;

/// 203 cd/m^2, the reference white of BT.2408
pub const F32_203: u32 = 0x434b_0000;

/// 1000 cd/m^2
pub const F32_1000: u32 = 0x447a_0000;

/// 2.2
pub const F32_2_2: u32 = 0x400c_cccd;

/// 2.4
pub const F32_2_4: u32 = 0x4019_999a;

/// 1.01
pub const F32_1_01: u32 = 0x3f81_47ae;

/// Target of HDR rendering.
#[derive(Debug, Clone, Copy)]
pub struct HdrOutputConfig {
    /// Luminance of diffuse white on the output.
    pub reference_white: u32,
    /// Exponent of SDR contents; zero stands for the sRGB curve.
    pub sdr_gamma: u32,
    /// From 0 for exact colors to 1 for the native gamut.
    pub gamut_stretch: u32,
    /// Peak luminance of the output.
    pub max_luminance: u32,
    /// The display controller encodes the transfer function.
    pub hardware_offload: bool,
    /// The output is SDR: HDR surfaces are tone mapped and SDR surfaces passed through.
    pub is_sdr: bool,
}

impl PartialEq for HdrOutputConfig {
    fn eq(&self, other: &Self) -> (r: bool) {
        f32_eq(self.reference_white, other.reference_white) && f32_eq(
            self.sdr_gamma,
            other.sdr_gamma,
        ) && f32_eq(self.gamut_stretch, other.gamut_stretch) && f32_eq(
            self.max_luminance,
            other.max_luminance,
        ) && self.hardware_offload == other.hardware_offload && self.is_sdr == other.is_sdr
    }
}

impl vstd::std_specs::cmp::PartialEqSpecImpl for HdrOutputConfig {
    open spec fn obeys_eq_spec() -> bool {
        true
    }

    open spec fn eq_spec(&self, other: &Self) -> bool {
        self.equals(*other)
    }
}

impl HdrOutputConfig {
    /// All values are equal as numbers.
    pub open spec fn equals(self, other: HdrOutputConfig) -> bool {
        &&& f32_equal(self.reference_white, other.reference_white)
        &&& f32_equal(self.sdr_gamma, other.sdr_gamma)
        &&& f32_equal(self.gamut_stretch, other.gamut_stretch)
        &&& f32_equal(self.max_luminance, other.max_luminance)
        &&& self.hardware_offload == other.hardware_offload
        &&& self.is_sdr == other.is_sdr
    }
}

/// What becomes of a plain SDR color on the way to an output.
#[derive(Debug, Clone, Copy, PartialEq, Eq, Structural)]
pub enum ColorPath {
    /// The output is SDR: it stays as it is.
    Unchanged,
    /// The display encodes: it becomes linear light.
    Linear,
    /// It becomes a PQ code value.
    Pq,
}

impl HdrOutputConfig {
    /// How solid colors get to this output.
    pub fn color_path(&self) -> (path: ColorPath)
        ensures
            path == if self.is_sdr {
                ColorPath::Unchanged
            } else if self.hardware_offload {
                ColorPath::Linear
            } else {
                ColorPath::Pq
            },
    {
        if self.is_sdr {
            ColorPath::Unchanged
        } else if self.hardware_offload {
            ColorPath::Linear
        } else {
            ColorPath::Pq
        }
    }

    /// The standard HDR target.
    pub open spec fn standard() -> HdrOutputConfig {
        HdrOutputConfig {
            reference_white: F32_203,
            sdr_gamma: F32_2_2,
            gamut_stretch: 0,
            max_luminance: F32_1000,
            hardware_offload: false,
            is_sdr: false,
        }
    }

    /// An HDR target.
    pub fn new(
        reference_white: u32,
        sdr_gamma: u32,
        gamut_stretch: u32,
        max_luminance: u32,
        hardware_offload: bool,
    ) -> (config: HdrOutputConfig)
        ensures
            config == (HdrOutputConfig {
                reference_white,
                sdr_gamma,
                gamut_stretch,
                max_luminance,
                hardware_offload,
                is_sdr: false,
            }),
    {
        HdrOutputConfig {
            reference_white,
            sdr_gamma,
            gamut_stretch,
            max_luminance,
            hardware_offload,
            is_sdr: false,
        }
    }

    /// An SDR target on which HDR surfaces are tone mapped.
    pub fn sdr_tonemapping() -> (config: HdrOutputConfig)
        ensures
            config == Self::tonemapping_to(F32_203),
    {
        Self::sdr_tonemapping_with_reference(F32_203)
    }

    /// An SDR target with the given white.
    pub open spec fn tonemapping_to(reference_white: u32) -> HdrOutputConfig {
        HdrOutputConfig {
            reference_white,
            sdr_gamma: 0,
            gamut_stretch: 0,
            max_luminance: reference_white,
            hardware_offload: false,
            is_sdr: true,
        }
    }

    /// An SDR target with the given white on which HDR surfaces are tone mapped.
    pub fn sdr_tonemapping_with_reference(reference_white: u32) -> (config: HdrOutputConfig)
        ensures
            config == Self::tonemapping_to(reference_white),
    {
        HdrOutputConfig {
            reference_white,
            sdr_gamma: 0,
            gamut_stretch: 0,
            max_luminance: reference_white,
            hardware_offload: false,
            is_sdr: true,
        }
    }
}

impl Default for HdrOutputConfig {
    fn default() -> (config: HdrOutputConfig)
        ensures
            config == HdrOutputConfig::standard(),
    {
        HdrOutputConfig {
            reference_white: F32_203,
            sdr_gamma: F32_2_2,
            gamut_stretch: 0,
            max_luminance: F32_1000,
            hardware_offload: false,
            is_sdr: false,
        }
    }
}

/// Whether a copy from one image to another has to tone map: the output is HDR, the source has
/// the precision for it and the target has not.
pub open spec fn tone_maps(from_format: i32, to_format: i32, config: Option<HdrOutputConfig>) -> bool {
    !is_hdr_format(to_format) && is_hdr_format(from_format) && match config {
        Some(config) => !config.is_sdr,
        None => false,
    }
}

/// See [`tone_maps`].
pub fn needs_hdr_to_sdr(from_format: i32, to_format: i32, config: Option<HdrOutputConfig>) -> (r: bool)
    ensures
        r == tone_maps(from_format, to_format, config),
{
    !is_hdr_vk_format(to_format) && is_hdr_vk_format(from_format) && match config {
        Some(config) => !config.is_sdr,
        None => false,
    }
}

/// How the HDR shader reads a surface and writes the output.
#[derive(Debug, Clone, Copy, PartialEq, Eq, Structural)]
pub struct HdrParameters {
    pub reference_white: u32,
    pub sdr_gamma: u32,
    pub gamut_stretch: u32,
    pub max_content_luminance: u32,
    pub max_destination_luminance: u32,
    pub hardware_offload: u32,
    pub target_is_sdr: u32,
    pub input_is_pq: u32,
    pub input_is_hlg: u32,
    /// 0 for BT.709, 1 for Display P3 and 2 for BT.2020.
    pub input_primaries: u32,
    pub skip_color_transform: u32,
    pub content_reference: u32,
}

/// A luminance at which contents are diffuse white.
pub open spec fn content_white(desc: ImageDescription) -> u32 {
    match desc.luminances {
        Some((_, _, reference)) => f32_quotient_of(
            if reference < 80 {
                80
            } else {
                reference as nat
            },
            1,
        ) as u32,
        None => F32_203,
    }
}

/// The peak luminance of contents: of the description, of the content light level or of the
/// mastering display.
pub open spec fn content_peak(desc: ImageDescription) -> u32 {
    match (desc.luminances, desc.max_cll, desc.mastering_luminance) {
        (Some((_, max, _)), _, _) => f32_quotient_of(max as nat, 1) as u32,
        (None, Some(level), _) => f32_quotient_of(level as nat, 1) as u32,
        (None, None, Some((_, max))) => f32_quotient_of(max as nat, 1) as u32,
        (None, None, None) => F32_1000,
    }
}

/// Exponent with which SDR contents are decoded.
pub open spec fn content_gamma(transfer: TransferFunction, default: u32) -> u32 {
    match transfer {
        TransferFunction::Bt1886 => F32_2_4,
        TransferFunction::Gamma22 => F32_2_2,
        TransferFunction::CompoundPower24 => 0,
        TransferFunction::Srgb => 0,
        _ => default,
    }
}

/// Number of the primaries of contents.
pub open spec fn content_primaries(primaries: Option<Primaries>) -> u32 {
    match primaries {
        Some(Primaries::DisplayP3) => 1,
        Some(Primaries::Bt2020) => 2,
        _ => 0,
    }
}

/// Both zeros.
pub open spec fn is_zero(bits: u32) -> bool {
    bits == 0 || bits == 0x8000_0000
}

fn zero(bits: u32) -> (r: bool)
    ensures
        r == is_zero(bits),
{
    bits == 0 || bits == 0x8000_0000
}

fn number(b: bool) -> (r: u32)
    ensures
        r == as_number(b),
{
    if b {
        1
    } else {
        0
    }
}

/// A truth value as the shaders read it.
pub open spec fn as_number(b: bool) -> u32 {
    if b {
        1
    } else {
        0
    }
}

/// PQ contents can be shown as they are: they fit into the luminance range of the output and
/// their white is that of the output, within one cd/m^2.
pub open spec fn pq_passes(config: HdrOutputConfig, desc: ImageDescription) -> bool {
    &&& !config.is_sdr
    &&& !config.hardware_offload
    &&& desc.windows_bt2100 || f32_at_most(
        content_peak(desc),
        f32_product_of(config.max_luminance, F32_1_01) as u32,
    )
    &&& f32_within_one(content_white(desc), config.reference_white)
}

/// Parameters for tone mapping HDR output to an SDR image.
pub open spec fn tonemap_parameters(config: HdrOutputConfig) -> HdrParameters {
    HdrParameters {
        reference_white: config.reference_white,
        sdr_gamma: config.sdr_gamma,
        gamut_stretch: config.gamut_stretch,
        max_content_luminance: config.max_luminance,
        max_destination_luminance: config.reference_white,
        hardware_offload: 0,
        target_is_sdr: 1,
        input_is_pq: 1,
        input_is_hlg: 0,
        input_primaries: 2,
        skip_color_transform: 0,
        content_reference: config.reference_white,
    }
}

/// Parameters for a surface on an output, by what is known of its contents.
pub open spec fn surface_parameters(
    config: HdrOutputConfig,
    desc: Option<ImageDescription>,
    format: i32,
) -> HdrParameters {
    let plain = HdrParameters {
        reference_white: config.reference_white,
        sdr_gamma: config.sdr_gamma,
        gamut_stretch: config.gamut_stretch,
        max_content_luminance: config.reference_white,
        max_destination_luminance: config.max_luminance,
        hardware_offload: as_number(config.hardware_offload),
        target_is_sdr: as_number(!is_hdr_format(format) || config.is_sdr),
        input_is_pq: 0,
        input_is_hlg: 0,
        input_primaries: 0,
        skip_color_transform: 0,
        content_reference: config.reference_white,
    };
    match desc {
        None => HdrParameters {
            skip_color_transform: as_number(config.is_sdr && is_zero(config.sdr_gamma)),
            ..plain
        },
        Some(desc) => if desc.is_pq_bt2020 {
            HdrParameters {
                input_is_pq: 1,
                input_primaries: 2,
                content_reference: content_white(desc),
                max_content_luminance: content_peak(desc),
                skip_color_transform: as_number(pq_passes(config, desc)),
                ..plain
            }
        } else if desc.transfer == TransferFunction::Hlg {
            HdrParameters {
                input_is_hlg: 1,
                input_primaries: 2,
                content_reference: content_white(desc),
                max_content_luminance: content_peak(desc),
                ..plain
            }
        } else if desc.linear() {
            HdrParameters {
                reference_white: F32_80,
                sdr_gamma: F32_ONE,
                gamut_stretch: 0,
                max_content_luminance: config.max_luminance,
                content_reference: F32_203,
                ..plain
            }
        } else {
            let gamma = content_gamma(desc.transfer, config.sdr_gamma);
            let primaries = content_primaries(desc.primaries);
            HdrParameters {
                sdr_gamma: gamma,
                input_primaries: primaries,
                gamut_stretch: if primaries > 0 {
                    0
                } else {
                    config.gamut_stretch
                },
                skip_color_transform: as_number(
                    config.is_sdr && primaries == 0 && is_zero(gamma),
                ),
                ..plain
            }
        },
    }
}

/// See [`content_white`].
pub fn white_of(desc: &ImageDescription) -> (bits: u32)
    ensures
        bits == content_white(*desc),
        0x4280_0000 <= bits < 0x5000_0000,
{
    match desc.luminances {
        Some((_, _, reference)) => {
            let level: u32 = if reference < 80 {
                80
            } else {
                reference
            };
            f32_from_int(level)
        },
        None => F32_203,
    }
}

/// See [`content_peak`].
pub fn peak_of(desc: &ImageDescription) -> (bits: u32)
    ensures
        bits == content_peak(*desc),
{
    match desc.luminances {
        Some((_, max, _)) => f32_from_int(max),
        None => match desc.max_cll {
            Some(level) => f32_from_int(level),
            None => match desc.mastering_luminance {
                Some((_, max)) => f32_from_int(max),
                None => F32_1000,
            },
        },
    }
}

impl HdrParameters {
    /// See [`tonemap_parameters`].
    pub fn for_tonemap(config: &HdrOutputConfig) -> (p: HdrParameters)
        ensures
            p == tonemap_parameters(*config),
    {
        HdrParameters {
            reference_white: config.reference_white,
            sdr_gamma: config.sdr_gamma,
            gamut_stretch: config.gamut_stretch,
            max_content_luminance: config.max_luminance,
            max_destination_luminance: config.reference_white,
            hardware_offload: 0,
            target_is_sdr: 1,
            input_is_pq: 1,
            input_is_hlg: 0,
            input_primaries: 2,
            skip_color_transform: 0,
            content_reference: config.reference_white,
        }
    }

    /// See [`surface_parameters`].
    pub fn for_surface(
        config: &HdrOutputConfig,
        desc: Option<&ImageDescription>,
        format: i32,
    ) -> (p: HdrParameters)
        ensures
            p == surface_parameters(
                *config,
                match desc {
                    Some(desc) => Some(*desc),
                    None => None,
                },
                format,
            ),
    {
        let mut p = HdrParameters {
            reference_white: config.reference_white,
            sdr_gamma: config.sdr_gamma,
            gamut_stretch: config.gamut_stretch,
            max_content_luminance: config.reference_white,
            max_destination_luminance: config.max_luminance,
            hardware_offload: number(config.hardware_offload),
            target_is_sdr: number(!is_hdr_vk_format(format) || config.is_sdr),
            input_is_pq: 0,
            input_is_hlg: 0,
            input_primaries: 0,
            skip_color_transform: 0,
            content_reference: config.reference_white,
        };
        match desc {
            None => {
                p.skip_color_transform = number(config.is_sdr && zero(config.sdr_gamma));
            },
            Some(desc) => {
                if desc.is_pq_bt2020 {
                    p.input_is_pq = 1;
                    p.input_primaries = 2;
                    p.content_reference = white_of(desc);
                    p.max_content_luminance = peak_of(desc);
                    let limit: u32 = f32_product(config.max_luminance, F32_1_01);
                    p.skip_color_transform =
                    number(
                        !config.is_sdr && !config.hardware_offload && (desc.windows_bt2100
                            || f32_le(p.max_content_luminance, limit)) && f32_near(
                            p.content_reference,
                            config.reference_white,
                        ),
                    );
                } else if desc.transfer == TransferFunction::Hlg {
                    p.input_is_hlg = 1;
                    p.input_primaries = 2;
                    p.content_reference = white_of(desc);
                    p.max_content_luminance = peak_of(desc);
                } else if desc.is_linear() {
                    p.reference_white = F32_80;
                    p.sdr_gamma = F32_ONE;
                    p.gamut_stretch = 0;
                    p.max_content_luminance = config.max_luminance;
                    p.content_reference = F32_203;
                } else {
                    p.sdr_gamma =
                    match desc.transfer {
                        TransferFunction::Bt1886 => F32_2_4,
                        TransferFunction::Gamma22 => F32_2_2,
                        TransferFunction::CompoundPower24 => 0,
                        TransferFunction::Srgb => 0,
                        _ => config.sdr_gamma,
                    };
                    p.input_primaries =
                    match desc.primaries {
                        Some(Primaries::DisplayP3) => 1,
                        Some(Primaries::Bt2020) => 2,
                        _ => 0,
                    };
                    if p.input_primaries > 0 {
                        p.gamut_stretch = 0;
                    }
                    p.skip_color_transform =
                    number(config.is_sdr && p.input_primaries == 0 && zero(p.sdr_gamma));
                }
            },
        }
        p
    }
}

/// Contents are passed through untransformed only where their encoding is that of the output:
/// PQ on an HDR output, and plain sRGB on an SDR one.
pub proof fn law_passthrough_keeps_encoding(
    config: HdrOutputConfig,
    desc: Option<ImageDescription>,
    format: i32,
)
    requires
        surface_parameters(config, desc, format).skip_color_transform != 0,
    ensures
        ({
            let p = surface_parameters(config, desc, format);
            if config.is_sdr {
                p.input_is_pq == 0 && p.input_is_hlg == 0 && p.input_primaries == 0 && is_zero(
                    p.sdr_gamma,
                )
            } else {
                p.input_is_pq == 1 && p.hardware_offload == 0
            }
        }),
{
}

/// HLG and extended linear contents are always transformed.
pub proof fn law_hlg_and_linear_are_transformed(
    config: HdrOutputConfig,
    desc: ImageDescription,
    format: i32,
)
    requires
        !desc.is_pq_bt2020,
        desc.transfer == TransferFunction::Hlg || desc.linear(),
    ensures
        surface_parameters(config, Some(desc), format).skip_color_transform == 0,
{
}

/// A single precision value is `num / den`, up to `2^-22`.
pub open spec fn about(bits: u32, num: int, den: int) -> bool {
    finite32(bits) && gap(units32(bits) * den, num * two_pow(149)) * 0x40_0000 <= den * two_pow(149)
}

/// A single precision value is an integer.
pub open spec fn exactly(bits: u32, n: int) -> bool {
    finite32(bits) && units32(bits) == n * two_pow(149)
}

pub proof fn lemma_constants()
    ensures
        exactly(F32_80, 80),
        exactly(F32_203, 203),
        exactly(F32_1000, 1000),
        exactly(F32_ONE, 1),
        about(F32_2_2, 22, 10),
        about(F32_2_4, 24, 10),
        about(F32_1_01, 101, 100),
{
    lemma_two_pow_values();
    lemma_two_pow_split(23, 126);
    let unit = two_pow(126);
    lemma_two_pow_positive(126);
    assert(two_pow(149) == 0x80_0000 * unit);
    assert(two_pow(127) == 2 * unit);
    assert(two_pow(128) == 4 * unit);
    assert(two_pow(129) == 8 * unit);
    assert(two_pow(130) == 16 * unit);
    assert(two_pow(131) == 32 * unit);
    assert(two_pow(132) == 64 * unit);
    assert(two_pow(133) == 128 * unit);
    assert(two_pow(134) == 256 * unit);
    assert(two_pow(135) == 512 * unit);
    assert(units32(F32_80) == 0xa0_0000 * (64 * unit));
    assert(units32(F32_203) == 0xcb_0000 * (128 * unit));
    assert(units32(F32_1000) == 0xfa_0000 * (512 * unit));
    assert(units32(F32_ONE) == 0x80_0000 * unit);
    assert(units32(F32_2_2) == 0x8c_cccd * (2 * unit));
    assert(units32(F32_2_4) == 0x99_999a * (2 * unit));
    assert(units32(F32_1_01) == 0x81_47ae * unit);
}

/// The parameters of a surface say what its contents are, whatever the output is. At most one of PQ
/// and HLG is signalled, both with BT.2020 primaries. Extended linear contents have the exponent
/// one, so that decoding leaves them as they are, a white of 80 cd/m^2 and an exact gamut. Other
/// contents have the exponent of their transfer function, which is zero for the sRGB curve, and
/// that of the output where it is not known.
pub proof fn law_parameters_describe_the_contents(
    config: HdrOutputConfig,
    desc: ImageDescription,
    format: i32,
)
    ensures
        ({
            let p = surface_parameters(config, Some(desc), format);
            let pq = desc.is_pq_bt2020;
            let hlg = !pq && desc.transfer is Hlg;
            let linear = !pq && !hlg && (desc.transfer is ExtLinear || desc.windows_scrgb);
            let plain = !pq && !hlg && !linear;
            &&& p.input_is_pq == (if pq {
                1u32
            } else {
                0u32
            })
            &&& p.input_is_hlg == (if hlg {
                1u32
            } else {
                0u32
            })
            &&& pq || hlg ==> p.input_primaries == 2
            &&& linear ==> p.input_primaries == 0 && exactly(p.sdr_gamma, 1) && exactly(
                p.reference_white,
                80,
            ) && exactly(p.gamut_stretch, 0) && exactly(p.content_reference, 203)
                && p.max_content_luminance == config.max_luminance
            &&& !linear ==> p.reference_white == config.reference_white
            &&& pq || hlg ==> p.sdr_gamma == config.sdr_gamma && p.gamut_stretch
                == config.gamut_stretch
            &&& plain && desc.transfer is Bt1886 ==> about(p.sdr_gamma, 24, 10)
            &&& plain && desc.transfer is Gamma22 ==> about(p.sdr_gamma, 22, 10)
            &&& plain && (desc.transfer is Srgb || desc.transfer is CompoundPower24) ==> exactly(
                p.sdr_gamma,
                0,
            )
            &&& plain && (desc.transfer is Pq || desc.transfer is Other) ==> p.sdr_gamma
                == config.sdr_gamma
            &&& plain && desc.primaries == Some(Primaries::Bt2020) ==> p.input_primaries == 2
            &&& plain && desc.primaries == Some(Primaries::DisplayP3) ==> p.input_primaries == 1
            &&& plain && desc.primaries != Some(Primaries::Bt2020) && desc.primaries != Some(
                Primaries::DisplayP3,
            ) ==> p.input_primaries == 0
            &&& plain ==> p.gamut_stretch == (if p.input_primaries == 0 {
                config.gamut_stretch
            } else {
                0
            })
            &&& plain ==> p.content_reference == config.reference_white && p.max_content_luminance
                == config.reference_white
        }),
{
    lemma_constants();
    assert(0 * two_pow(149) == 0);
    assert(units32(0) == 0);
}

/// The parameters of a surface say what the output is, whatever the contents are: its peak, whether
/// the display encodes, and that it is SDR if its format has no more precision or it is configured
/// so. A surface without a description is taken as plain contents of the output.
pub proof fn law_parameters_describe_the_output(
    config: HdrOutputConfig,
    desc: Option<ImageDescription>,
    format: i32,
)
    ensures
        ({
            let p = surface_parameters(config, desc, format);
            &&& p.max_destination_luminance == config.max_luminance
            &&& p.hardware_offload == (if config.hardware_offload {
                1u32
            } else {
                0u32
            })
            &&& p.target_is_sdr == (if config.is_sdr || !is_hdr_format(format) {
                1u32
            } else {
                0u32
            })
            &&& p.skip_color_transform <= 1
            &&& desc is None ==> p.input_is_pq == 0 && p.input_is_hlg == 0 && p.input_primaries == 0
                && p.reference_white == config.reference_white && p.sdr_gamma == config.sdr_gamma
                && p.gamut_stretch == config.gamut_stretch && p.content_reference
                == config.reference_white && p.max_content_luminance == config.reference_white && (
            p.skip_color_transform == 1 <==> config.is_sdr && f32_equal(config.sdr_gamma, 0))
        }),
{
}

/// HDR contents keep their own luminances: the peak is that of the description, else the content
/// light level, else that of the mastering display and else 1000 cd/m^2; the white is that of the
/// description, but at least 80 cd/m^2, and else 203.
pub proof fn law_hdr_contents_keep_their_luminances(
    config: HdrOutputConfig,
    desc: ImageDescription,
    format: i32,
)
    requires
        desc.is_pq_bt2020 || desc.transfer is Hlg,
    ensures
        ({
            let p = surface_parameters(config, Some(desc), format);
            let peak: int = match desc.luminances {
                Some(l) => l.1 as int,
                None => match desc.max_cll {
                    Some(level) => level as int,
                    None => match desc.mastering_luminance {
                        Some(m) => m.1 as int,
                        None => 1000,
                    },
                },
            };
            let white: int = match desc.luminances {
                Some(l) => if l.2 > 80 {
                    l.2 as int
                } else {
                    80
                },
                None => 203,
            };
            &&& closest32(p.max_content_luminance, peak * two_pow(149), 1)
            &&& closest32(p.content_reference, white * two_pow(149), 1)
        }),
{
    lemma_constants();
    match desc.luminances {
        Some(l) => {
            law_whole_numbers_become_closest(l.1);
            law_whole_numbers_become_closest(if l.2 < 80 { 80 } else { l.2 });
        },
        None => {
            match desc.max_cll {
                Some(level) => {
                    law_whole_numbers_become_closest(level);
                },
                None => {
                    if let Some(m) = desc.mastering_luminance {
                        law_whole_numbers_become_closest(m.1);
                    }
                },
            }
        },
    }
}

/// PQ contents are passed through exactly if the output takes PQ from the renderer, their peak is
/// not above the peak of the output by more than a hundredth, unless they are BT.2100 as other
/// systems define it, and their white is that of the output within one cd/m^2.
pub proof fn law_pq_passes_where_it_fits(config: HdrOutputConfig, desc: ImageDescription, format: i32)
    requires
        desc.is_pq_bt2020,
    ensures
        ({
            let p = surface_parameters(config, Some(desc), format);
            let limit = f32_product_of(config.max_luminance, F32_1_01) as u32;
            p.skip_color_transform != 0 <==> {
                &&& !config.is_sdr
                &&& !config.hardware_offload
                &&& desc.windows_bt2100 || f32_less(p.max_content_luminance, limit) || f32_equal(
                    p.max_content_luminance,
                    limit,
                )
                &&& exactly_within_one(p.content_reference, config.reference_white)
            }
        }),
{
    lemma_white_in_range(desc);
    lemma_within_one(content_white(desc), config.reference_white);
}

/// Two luminances of which the second is between 64 and `2^33` differ by less than one.
pub open spec fn exactly_within_one(x: u32, y: u32) -> bool {
    &&& finite32(y)
    &&& 64 * two_pow(149) <= units32(y) < two_pow(33) * two_pow(149)
    &&& gap(units32(x), units32(y)) < two_pow(149)
}

proof fn lemma_white_in_range(desc: ImageDescription)
    ensures
        0x4280_0000 <= content_white(desc) < 0x5000_0000,
{
    match desc.luminances {
        Some((_, _, reference)) => {
            let level: u32 = if reference < 80 { 80 } else { reference };
            let white = content_white(desc);
            law_whole_numbers_become_closest(level);
            lemma_constants();
            // 2^32 is beyond every level.
            let top = 0x4f80_0000u32;
            lemma_two_pow_values();
            reveal_with_fuel(two_pow, 17);
            assert(two_pow(16) == 0x1_0000);
            lemma_two_pow_split(16, 16);
            lemma_two_pow_split(32, 149);
            lemma_two_pow_split(23, 158);
            lemma_two_pow_positive(149);
            assert(two_pow(33) == 2 * two_pow(32));
            let one = two_pow(149) as int;
            assert(units32(top) == 0x1_0000_0000 * one);
            assert(finite32(top));
            let exact = level * one;
            assert(gap(units32(white) * 1, exact) <= gap(units32(F32_80) * 1, exact));
            assert(gap(units32(white) * 1, exact) <= gap(units32(top) * 1, exact));
            assert(80 * one <= exact <= 0x1_0000_0000 * one) by (nonlinear_arith)
                requires
                    exact == level * one,
                    80 <= level <= 0xffff_ffff,
                    one >= 1,
            ;
            let u = units32(white);
            assert(80 * one <= u <= 0x1_0000_0000 * one);
            assert(64 * one <= 80 * one) by (nonlinear_arith)
                requires
                    one >= 1,
            ;
            assert(0x1_0000_0000 * one < two_pow(33) * one) by (nonlinear_arith)
                requires
                    one >= 1,
                    two_pow(33) == 2 * 0x1_0000_0000,
            ;
            if !(0x4280_0000 <= white < 0x5000_0000) {
                lemma_out_of_range(white);
            }
        },
        None => {},
    }
}

proof fn lemma_within_one(x: u32, y: u32)
    requires
        0x4280_0000 <= x < 0x5000_0000,
    ensures
        f32_within_one(x, y) <==> exactly_within_one(x, y),
{
    lemma_fine(x);
    lemma_two_pow_split(17, 132);
    lemma_two_pow_positive(132);
    let unit = two_pow(132) as int;
    reveal_with_fuel(two_pow, 18);
    assert(two_pow(17) == 0x2_0000);
    assert(two_pow(149) == 0x2_0000 * unit);
    if 0x4280_0000 <= y < 0x5000_0000 {
        lemma_fine(y);
        let a = crate::softfloat::f32_fine_units(x) as int;
        let b = crate::softfloat::f32_fine_units(y) as int;
        assert(gap(a * unit, b * unit) == gap(a, b) * unit) by (nonlinear_arith)
            requires
                unit >= 1,
        ;
        assert(gap(a, b) * unit < 0x2_0000 * unit <==> gap(a, b) < 0x2_0000) by (nonlinear_arith)
            requires
                unit >= 1,
        ;
    } else if finite32(y) {
        lemma_out_of_range(y);
    }
}

/// A value from 64 to `2^33` in its fine units.
proof fn lemma_fine(x: u32)
    requires
        0x4280_0000 <= x < 0x5000_0000,
    ensures
        finite32(x),
        units32(x) == crate::softfloat::f32_fine_units(x) * two_pow(132),
        64 * two_pow(149) <= units32(x) < two_pow(33) * two_pow(149),
{
    let e = x / 0x80_0000;
    let m = (x % 0x80_0000 + 0x80_0000) as int;
    lemma_two_pow_split((e - 133) as nat, 132);
    assert(m * two_pow((e - 1) as nat) == (m * two_pow((e - 133) as nat)) * two_pow(132))
        by (nonlinear_arith)
        requires
            two_pow((e - 1) as nat) == two_pow((e - 133) as nat) * two_pow(132),
    ;
    lemma_bounds(x);
}

proof fn lemma_bounds(x: u32)
    requires
        0x4280_0000 <= x < 0x5000_0000,
    ensures
        64 * two_pow(149) <= units32(x) < two_pow(33) * two_pow(149),
{
    let e = x / 0x80_0000;
    let m = (x % 0x80_0000 + 0x80_0000) as int;
    lemma_two_pow_values();
    reveal_with_fuel(two_pow, 7);
    lemma_two_pow_split(6, 149);
    lemma_two_pow_split(23, 132);
    lemma_two_pow_split(33, 149);
    lemma_two_pow_split(24, 158);
    assert(two_pow(6) == 64);
    lemma_two_pow_grows(132, (e - 1) as nat);
    lemma_two_pow_grows((e - 1) as nat, 158);
    lemma_two_pow_positive((e - 1) as nat);
    assert(0x80_0000 * two_pow(132) <= m * two_pow((e - 1) as nat) < 0x100_0000 * two_pow(158))
        by (nonlinear_arith)
        requires
            0x80_0000 <= m < 0x100_0000,
            1 <= two_pow((e - 1) as nat),
            two_pow(132) <= two_pow((e - 1) as nat) <= two_pow(158),
    ;
}

proof fn lemma_out_of_range(y: u32)
    requires
        !(0x4280_0000 <= y < 0x5000_0000),
        finite32(y),
    ensures
        !(64 * two_pow(149) <= units32(y) < two_pow(33) * two_pow(149)),
{
    lemma_two_pow_values();
    reveal_with_fuel(two_pow, 7);
    lemma_two_pow_split(6, 149);
    lemma_two_pow_split(23, 132);
    lemma_two_pow_split(33, 149);
    lemma_two_pow_split(23, 159);
    assert(two_pow(6) == 64);
    lemma_two_pow_positive(149);
    if y >= 0x8000_0000 {
        crate::nearest::lemma_sign32(y);
    } else {
        let e = y / 0x80_0000;
        let m = (y % 0x80_0000 + 0x80_0000) as int;
        if y >= 0x5000_0000 {
            lemma_two_pow_grows(159, (e - 1) as nat);
            assert(0x80_0000 * two_pow(159) <= m * two_pow((e - 1) as nat)) by (nonlinear_arith)
                requires
                    0x80_0000 <= m,
                    two_pow(159) <= two_pow((e - 1) as nat),
            ;
        } else if e > 0 {
            lemma_two_pow_grows((e - 1) as nat, 131);
            assert(two_pow(132) == 2 * two_pow(131));
            lemma_two_pow_positive((e - 1) as nat);
            assert(m * two_pow((e - 1) as nat) < 0x100_0000 * two_pow(131)) by (nonlinear_arith)
                requires
                    0 <= m < 0x100_0000,
                    1 <= two_pow((e - 1) as nat) <= two_pow(131),
            ;
        } else {
            lemma_two_pow_grows(24, 149);
        }
    }
}

/// Tone mapping reads what HDR output is: PQ with BT.2020 primaries up to the peak of the output.
/// It writes SDR that ends at the reference white.
pub proof fn law_tonemap_reads_hdr_output(config: HdrOutputConfig)
    ensures
        ({
            let p = tonemap_parameters(config);
            &&& p.input_is_pq == 1 && p.input_is_hlg == 0 && p.input_primaries == 2
            &&& p.max_content_luminance == config.max_luminance
            &&& p.content_reference == config.reference_white
            &&& p.target_is_sdr == 1 && p.hardware_offload == 0 && p.skip_color_transform == 0
            &&& p.max_destination_luminance == config.reference_white && p.reference_white
                == config.reference_white
            &&& p.sdr_gamma == config.sdr_gamma && p.gamut_stretch == config.gamut_stretch
        }),
{
}

/// The standard targets: HDR with a white of 203 and a peak of 1000 cd/m^2 and SDR contents of
/// gamma 2.2; and SDR, with the sRGB curve, that ends at its white.
pub proof fn law_standard_targets(white: u32)
    ensures
        ({
            let hdr = HdrOutputConfig::standard();
            let sdr = HdrOutputConfig::tonemapping_to(white);
            &&& exactly(hdr.reference_white, 203) && exactly(hdr.max_luminance, 1000) && about(
                hdr.sdr_gamma,
                22,
                10,
            ) && exactly(hdr.gamut_stretch, 0) && !hdr.hardware_offload && !hdr.is_sdr
            &&& sdr.reference_white == white && sdr.max_luminance == white && exactly(
                sdr.sdr_gamma,
                0,
            ) && exactly(sdr.gamut_stretch, 0) && !sdr.hardware_offload && sdr.is_sdr
        }),
{
    lemma_constants();
    assert(0 * two_pow(149) == 0);
    assert(units32(0) == 0);
}

/// A copy tone maps exactly from an image with the precision for HDR to one without, and only where
/// the output is HDR.
pub proof fn law_copies_to_sdr_are_tone_mapped(from: i32, to: i32, config: Option<HdrOutputConfig>)
    ensures
        tone_maps(from, to, config) <==> is_hdr_format(from) && !is_hdr_format(to) && config is Some
            && !config->0.is_sdr,
        tone_maps(from, to, config) ==> !tone_maps(to, from, config),
{
}

} // verus!
