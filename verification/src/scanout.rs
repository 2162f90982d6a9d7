//! Choice of the cheapest way to bring a fullscreen surface to the display.

use vstd::prelude::*;

#[allow(unused_imports)]
use crate::color::CrtcColorState;
use crate::color::{CrtcColorCapabilities, PlaneColorConversion};
use crate::description::{ImageDescription, TransferFunction};

verus! {

/// How a fullscreen surface is scanned out, from the cheapest to the most expensive way.
#[derive(Debug, Clone, Copy, PartialEq, Eq, Structural)]
pub enum ScanoutPlan {
    /// The contents match the output: no transformation at all.
    DirectPassthrough,
    /// The plane's color pipeline transforms the contents before blending.
    PlaneColorop(PlaneColorConversion),
    /// The display controller transforms the contents after blending.
    CrtcHardware(PlaneColorConversion),
    /// A shader transforms the contents into a scanout buffer.
    VulkanFastDirectFlip,
}

impl Default for ScanoutPlan {
    fn default() -> (r: Self)
        ensures
            r == ScanoutPlan::DirectPassthrough,
    {
        ScanoutPlan::DirectPassthrough
    }
}

impl ScanoutPlan {
    /// Whether the surface's own buffer is put on the primary plane.
    pub fn allows_primary_scanout(&self) -> (r: bool)
        ensures
            r == !(*self == ScanoutPlan::VulkanFastDirectFlip),
    {
        match self {
            ScanoutPlan::VulkanFastDirectFlip => false,
            _ => true,
        }
    }

    /// The conversion, if this plan changes the display controller's color state.
    pub fn requires_crtc_color_state(&self) -> (r: Option<PlaneColorConversion>)
        ensures
            r == (match *self {
                ScanoutPlan::CrtcHardware(conv) => Some(conv),
                ScanoutPlan::PlaneColorop(conv) => Some(conv),
                _ => None,
            }),
    {
        match self {
            ScanoutPlan::CrtcHardware(conv) => Some(*conv),
            ScanoutPlan::PlaneColorop(conv) => Some(*conv),
            _ => None,
        }
    }

    /// The conversion, if this plan changes the plane's color pipeline.
    pub fn requires_plane_colorop(&self) -> (r: Option<PlaneColorConversion>)
        ensures
            r == (match *self {
                ScanoutPlan::PlaneColorop(conv) => Some(conv),
                _ => None,
            }),
    {
        match self {
            ScanoutPlan::PlaneColorop(conv) => Some(*conv),
            _ => None,
        }
    }
}

/// Scanout capabilities of a display surface.
#[derive(Debug, Clone, PartialEq, Eq)]
pub struct DrmScanoutCapabilities {
    /// Color capabilities of the display controller.
    pub crtc_color: CrtcColorCapabilities,
    /// Whether the primary plane has color pipelines.
    pub supports_plane_colorop: bool,
    /// Pixel formats of the primary plane, as format codes and modifiers.
    pub primary_plane_formats: Vec<(u32, u64)>,
    /// Whether the primary plane has half float formats.
    pub supports_fp16: bool,
    /// Whether the primary plane has 10 bit formats.
    pub supports_10bit: bool,
}

impl Default for DrmScanoutCapabilities {
    /// No capabilities.
    fn default() -> (caps: Self)
        ensures
            !caps.crtc_color.has_gamma_lut,
            !caps.crtc_color.has_degamma_lut,
            !caps.crtc_color.has_ctm,
            caps.crtc_color.gamma_lut_size == 0,
            caps.crtc_color.degamma_lut_size == 0,
            !caps.supports_plane_colorop,
            caps.primary_plane_formats@.len() == 0,
            !caps.supports_fp16,
            !caps.supports_10bit,
    {
        DrmScanoutCapabilities {
            crtc_color: CrtcColorCapabilities::default(),
            supports_plane_colorop: false,
            primary_plane_formats: Vec::new(),
            supports_fp16: false,
            supports_10bit: false,
        }
    }
}

/// What has to happen to contents before an output can show them.
pub enum ContentNeed {
    Nothing,
    Convert(PlaneColorConversion),
    /// Tone mapping that only a shader can do.
    Shader,
}

/// Reference white of the contents, else of the output, else 203 cd/m2.
pub open spec fn content_white(desc: ImageDescription, output_reference_white: u16) -> u16 {
    let own = (desc.reference_luminance % 0x1_0000) as u16;
    if own > 0 {
        own
    } else {
        output_white(output_reference_white)
    }
}

pub open spec fn output_white(output_reference_white: u16) -> u16 {
    if output_reference_white > 0 {
        output_reference_white
    } else {
        203
    }
}

/// See [`ContentNeed`]. Contents without a description are standard dynamic range.
pub open spec fn content_need(
    output_hdr_enabled: bool,
    desc: Option<ImageDescription>,
    output_reference_white: u16,
) -> ContentNeed {
    match desc {
        None => if output_hdr_enabled {
            ContentNeed::Convert(
                PlaneColorConversion::SrgbToPq {
                    reference_white: output_white(output_reference_white),
                },
            )
        } else {
            ContentNeed::Nothing
        },
        Some(desc) => if output_hdr_enabled {
            if desc.is_pq_bt2020 {
                ContentNeed::Nothing
            } else if desc.linear() {
                ContentNeed::Convert(
                    PlaneColorConversion::ScRgbToPq {
                        reference_white: content_white(desc, output_reference_white),
                    },
                )
            } else if desc.transfer == TransferFunction::Hlg {
                ContentNeed::Convert(
                    PlaneColorConversion::HlgToPq {
                        reference_white: content_white(desc, output_reference_white),
                    },
                )
            } else if !desc.is_hdr {
                ContentNeed::Convert(
                    PlaneColorConversion::SrgbToPq {
                        reference_white: output_white(output_reference_white),
                    },
                )
            } else {
                ContentNeed::Shader
            }
        } else {
            if desc.linear() {
                ContentNeed::Convert(PlaneColorConversion::ScRgbToSrgb)
            } else if desc.is_pq_bt2020 {
                ContentNeed::Convert(PlaneColorConversion::PqToSrgb)
            } else if desc.transfer == TransferFunction::Hlg {
                ContentNeed::Convert(PlaneColorConversion::HlgToSrgb)
            } else if desc.is_hdr {
                ContentNeed::Shader
            } else {
                ContentNeed::Nothing
            }
        },
    }
}

impl DrmScanoutCapabilities {
    /// Whether the plane's color pipelines can do the conversion; scRGB contents need half
    /// float formats.
    pub open spec fn plane_can(self, conv: PlaneColorConversion) -> bool {
        self.supports_plane_colorop && (conv is ScRgbToPq || conv is ScRgbToSrgb
            ==> self.supports_fp16)
    }

    /// Whether the display controller can do the conversion.
    pub open spec fn crtc_can(self, conv: PlaneColorConversion) -> bool {
        let c = self.crtc_color;
        match conv {
            PlaneColorConversion::ScRgbToPq { .. } => self.supports_fp16 && c.has_gamma_lut && c.has_ctm,
            PlaneColorConversion::SrgbToPq { .. } => c.has_degamma_lut && c.has_gamma_lut && c.has_ctm,
            PlaneColorConversion::HlgToPq { .. } => c.has_degamma_lut && c.has_gamma_lut && c.has_ctm,
            PlaneColorConversion::ScRgbToSrgb => self.supports_fp16 && c.has_gamma_lut,
            PlaneColorConversion::PqToSrgb => c.has_degamma_lut && c.has_ctm && c.has_gamma_lut,
            PlaneColorConversion::HlgToSrgb => c.has_degamma_lut && c.has_ctm && c.has_gamma_lut,
        }
    }

    /// The cheapest way to do a conversion.
    pub open spec fn cheapest(self, conv: PlaneColorConversion) -> ScanoutPlan {
        if self.plane_can(conv) {
            ScanoutPlan::PlaneColorop(conv)
        } else if self.crtc_can(conv) {
            ScanoutPlan::CrtcHardware(conv)
        } else {
            ScanoutPlan::VulkanFastDirectFlip
        }
    }

    /// Whether scRGB contents can be scanned out through the display controller's color
    /// management.
    pub fn supports_scrgb_hardware_scanout(&self) -> (r: bool)
        ensures
            r == (self.supports_fp16 && self.crtc_color.has_gamma_lut && self.crtc_color.has_ctm),
    {
        self.supports_fp16 && self.crtc_color.has_gamma_lut && self.crtc_color.has_ctm
    }

    /// Whether SDR contents can be scanned out onto an HDR output through the display
    /// controller's color management.
    pub fn supports_sdr_to_hdr_hardware_scanout(&self) -> (r: bool)
        ensures
            r == (self.crtc_color.has_degamma_lut && self.crtc_color.has_gamma_lut
                && self.crtc_color.has_ctm),
    {
        self.crtc_color.has_degamma_lut && self.crtc_color.has_gamma_lut && self.crtc_color.has_ctm
    }

    /// Whether HLG contents can be scanned out onto an HDR output through the display
    /// controller's color management.
    pub fn supports_hlg_to_hdr_hardware_scanout(&self) -> (r: bool)
        ensures
            r == (self.crtc_color.has_degamma_lut && self.crtc_color.has_gamma_lut
                && self.crtc_color.has_ctm),
    {
        self.crtc_color.has_degamma_lut && self.crtc_color.has_gamma_lut && self.crtc_color.has_ctm
    }

    fn pick(&self, conv: PlaneColorConversion) -> (r: ScanoutPlan)
        ensures
            r == self.cheapest(conv),
    {
        let is_scrgb: bool = match conv {
            PlaneColorConversion::ScRgbToPq { .. } => true,
            PlaneColorConversion::ScRgbToSrgb => true,
            _ => false,
        };
        let crtc: bool = match conv {
            PlaneColorConversion::ScRgbToPq { .. } => self.supports_scrgb_hardware_scanout(),
            PlaneColorConversion::SrgbToPq { .. } => self.supports_sdr_to_hdr_hardware_scanout(),
            PlaneColorConversion::HlgToPq { .. } => self.supports_hlg_to_hdr_hardware_scanout(),
            PlaneColorConversion::ScRgbToSrgb => self.supports_fp16 && self.crtc_color.has_gamma_lut,
            PlaneColorConversion::PqToSrgb => self.supports_sdr_to_hdr_hardware_scanout(),
            PlaneColorConversion::HlgToSrgb => self.supports_sdr_to_hdr_hardware_scanout(),
        };
        if self.supports_plane_colorop && (!is_scrgb || self.supports_fp16) {
            ScanoutPlan::PlaneColorop(conv)
        } else if crtc {
            ScanoutPlan::CrtcHardware(conv)
        } else {
            ScanoutPlan::VulkanFastDirectFlip
        }
    }

    /// Evaluates the scanout plan for contents with the description.
    pub fn evaluate_scanout_plan(
        &self,
        output_hdr_enabled: bool,
        desc: Option<&ImageDescription>,
        output_reference_white: u16,
    ) -> (plan: ScanoutPlan)
        ensures
            plan == (match content_need(
                output_hdr_enabled,
                (match desc {
                    Some(d) => Some(*d),
                    None => None,
                }),
                output_reference_white,
            ) {
                ContentNeed::Nothing => ScanoutPlan::DirectPassthrough,
                ContentNeed::Shader => ScanoutPlan::VulkanFastDirectFlip,
                ContentNeed::Convert(conv) => self.cheapest(conv),
            }),
    {
        let fallback_white: u16 = if output_reference_white > 0 {
            output_reference_white
        } else {
            203
        };
        match desc {
            None => {
                if output_hdr_enabled {
                    self.pick(PlaneColorConversion::SrgbToPq { reference_white: fallback_white })
                } else {
                    ScanoutPlan::DirectPassthrough
                }
            },
            Some(desc) => {
                let own: u16 = (desc.reference_luminance % 0x1_0000) as u16;
                let white: u16 = if own > 0 { own } else { fallback_white };
                if output_hdr_enabled {
                    if desc.is_pq_bt2020 {
                        ScanoutPlan::DirectPassthrough
                    } else if desc.is_linear() {
                        self.pick(PlaneColorConversion::ScRgbToPq { reference_white: white })
                    } else if desc.transfer == TransferFunction::Hlg {
                        self.pick(PlaneColorConversion::HlgToPq { reference_white: white })
                    } else if !desc.is_hdr {
                        self.pick(
                            PlaneColorConversion::SrgbToPq { reference_white: fallback_white },
                        )
                    } else {
                        ScanoutPlan::VulkanFastDirectFlip
                    }
                } else {
                    if desc.is_linear() {
                        self.pick(PlaneColorConversion::ScRgbToSrgb)
                    } else if desc.is_pq_bt2020 {
                        self.pick(PlaneColorConversion::PqToSrgb)
                    } else if desc.transfer == TransferFunction::Hlg {
                        self.pick(PlaneColorConversion::HlgToSrgb)
                    } else if desc.is_hdr {
                        ScanoutPlan::VulkanFastDirectFlip
                    } else {
                        ScanoutPlan::DirectPassthrough
                    }
                }
            },
        }
    }
}

/// Cost rank of a plan, cheapest first.
pub open spec fn tier(plan: ScanoutPlan) -> int {
    match plan {
        ScanoutPlan::DirectPassthrough => 1,
        ScanoutPlan::PlaneColorop(_) => 2,
        ScanoutPlan::CrtcHardware(_) => 3,
        ScanoutPlan::VulkanFastDirectFlip => 4,
    }
}

/// The strict efficiency hierarchy: a conversion goes to the plane whenever the plane can do
/// it, to the display controller only if the plane cannot, and to a shader only if neither can.
pub proof fn law_efficiency_hierarchy(caps: DrmScanoutCapabilities, conv: PlaneColorConversion)
    ensures
        caps.plane_can(conv) <==> tier(caps.cheapest(conv)) == 2,
        !caps.plane_can(conv) && caps.crtc_can(conv) <==> tier(caps.cheapest(conv)) == 3,
        !caps.plane_can(conv) && !caps.crtc_can(conv) <==> tier(caps.cheapest(conv)) == 4,
        tier(caps.cheapest(conv)) < 4 ==> caps.cheapest(conv) == ScanoutPlan::PlaneColorop(conv)
            || caps.cheapest(conv) == ScanoutPlan::CrtcHardware(conv),
{
}

/// The display controller is given a conversion only if it has all that the conversion sets.
pub proof fn law_controller_has_what_is_set(
    caps: DrmScanoutCapabilities,
    conv: PlaneColorConversion,
    gamma_lut_size: usize,
    degamma_lut_size: usize,
    gamma_samples: Seq<u32>,
    degamma_samples: Seq<u32>,
    state: CrtcColorState,
)
    requires
        caps.cheapest(conv) == ScanoutPlan::CrtcHardware(conv),
        conv.is_crtc_state(
            gamma_lut_size,
            degamma_lut_size,
            gamma_samples,
            degamma_samples,
            state,
        ),
    ensures
        state.gamma_lut is Some ==> caps.crtc_color.has_gamma_lut,
        state.ctm is Some ==> caps.crtc_color.has_ctm,
        state.degamma_lut is Some ==> caps.crtc_color.has_degamma_lut,
{
}

/// More capable hardware never leads to a more expensive plan.
pub proof fn law_more_hardware_is_never_worse(
    less: DrmScanoutCapabilities,
    more: DrmScanoutCapabilities,
    conv: PlaneColorConversion,
)
    requires
        less.supports_plane_colorop ==> more.supports_plane_colorop,
        less.supports_fp16 ==> more.supports_fp16,
        less.crtc_color.has_gamma_lut ==> more.crtc_color.has_gamma_lut,
        less.crtc_color.has_degamma_lut ==> more.crtc_color.has_degamma_lut,
        less.crtc_color.has_ctm ==> more.crtc_color.has_ctm,
    ensures
        tier(more.cheapest(conv)) <= tier(less.cheapest(conv)),
{
}

/// A conversion starts from what the contents are: from linear light, from PQ, from HLG, or from
/// sRGB.
pub open spec fn starts_from(conv: PlaneColorConversion, desc: Option<ImageDescription>) -> bool {
    match conv {
        PlaneColorConversion::ScRgbToPq { .. } => desc is Some && desc->0.linear(),
        PlaneColorConversion::ScRgbToSrgb => desc is Some && desc->0.linear(),
        PlaneColorConversion::PqToSrgb => desc is Some && desc->0.is_pq_bt2020,
        PlaneColorConversion::HlgToPq { .. } => desc is Some && desc->0.transfer
            == TransferFunction::Hlg,
        PlaneColorConversion::HlgToSrgb => desc is Some && desc->0.transfer
            == TransferFunction::Hlg,
        PlaneColorConversion::SrgbToPq { .. } => desc is None || !desc->0.is_hdr
            && !desc->0.linear() && !desc->0.is_pq_bt2020 && desc->0.transfer
            != TransferFunction::Hlg,
    }
}

/// A conversion ends in what the output takes.
pub open spec fn ends_in_pq(conv: PlaneColorConversion) -> bool {
    conv is ScRgbToPq || conv is HlgToPq || conv is SrgbToPq
}

/// White that a conversion to PQ is for.
pub open spec fn white_of(conv: PlaneColorConversion) -> u16 {
    match conv {
        PlaneColorConversion::ScRgbToPq { reference_white } => reference_white,
        PlaneColorConversion::HlgToPq { reference_white } => reference_white,
        PlaneColorConversion::SrgbToPq { reference_white } => reference_white,
        _ => 0,
    }
}

/// A plan brings the contents to the output: they pass unchanged only if they are what the output
/// takes, and are otherwise converted from what they are to that. White is that of the output or
/// 203 cd/m2, and where linear and HLG contents give their own, theirs. Contents of a dynamic range
/// that no conversion starts from are left to a shader.
pub proof fn law_plan_brings_the_contents(
    caps: DrmScanoutCapabilities,
    hdr: bool,
    desc: Option<&ImageDescription>,
    white: u16,
    plan: ScanoutPlan,
)
    requires
        call_ensures(
            DrmScanoutCapabilities::evaluate_scanout_plan,
            (&caps, hdr, desc, white),
            plan,
        ),
    ensures
        ({
            let given = match desc {
                Some(d) => Some(*d),
                None => None,
            };
            let pq = given is Some && given->0.is_pq_bt2020;
            let linear = given is Some && given->0.linear();
            let hlg = given is Some && given->0.transfer == TransferFunction::Hlg;
            let wide = given is Some && given->0.is_hdr;
            let plain = !pq && !linear && !hlg && !wide;
            &&& plan is DirectPassthrough <==> (if hdr {
                pq
            } else {
                plain
            })
            &&& wide && !pq && !linear && !hlg ==> plan is VulkanFastDirectFlip
            &&& plan matches ScanoutPlan::PlaneColorop(conv) ==> {
                &&& starts_from(conv, given)
                &&& ends_in_pq(conv) == hdr
                &&& caps.supports_plane_colorop
                &&& linear ==> caps.supports_fp16
            }
            &&& plan matches ScanoutPlan::CrtcHardware(conv) ==> {
                &&& starts_from(conv, given)
                &&& ends_in_pq(conv) == hdr
                &&& caps.crtc_color.has_gamma_lut
                &&& linear ==> caps.supports_fp16
                &&& !linear ==> caps.crtc_color.has_degamma_lut
                &&& hdr || !linear ==> caps.crtc_color.has_ctm
                &&& !(caps.supports_plane_colorop && (linear ==> caps.supports_fp16))
            }
            &&& (plan is PlaneColorop || plan is CrtcHardware) && hdr ==> {
                let conv = match plan {
                    ScanoutPlan::PlaneColorop(conv) => conv,
                    ScanoutPlan::CrtcHardware(conv) => conv,
                    _ => PlaneColorConversion::ScRgbToSrgb,
                };
                let own = given is Some && (linear || hlg) && given->0.reference_luminance % 0x1_0000
                    > 0;
                white_of(conv) == (if own {
                    given->0.reference_luminance % 0x1_0000
                } else if white > 0 {
                    white as u32
                } else {
                    203
                })
            }
            &&& plan is VulkanFastDirectFlip && !(wide && !pq && !linear && !hlg) ==> !(
            caps.supports_plane_colorop && (linear ==> caps.supports_fp16)) && !(
            caps.crtc_color.has_gamma_lut && (linear ==> caps.supports_fp16) && (!linear
                ==> caps.crtc_color.has_degamma_lut) && (hdr || !linear ==> caps.crtc_color.has_ctm))
        }),
{
}

/// A plan that changes nothing needs no color state; one for the plane needs both states set and
/// one for the display controller only its own. Only a shader puts out another buffer than the
/// surface's.
pub proof fn law_plans_need_their_states(
    plan: ScanoutPlan,
    primary: bool,
    crtc: Option<PlaneColorConversion>,
    plane: Option<PlaneColorConversion>,
)
    requires
        call_ensures(ScanoutPlan::allows_primary_scanout, (&plan,), primary),
        call_ensures(ScanoutPlan::requires_crtc_color_state, (&plan,), crtc),
        call_ensures(ScanoutPlan::requires_plane_colorop, (&plan,), plane),
    ensures
        primary <==> tier(plan) < 4,
        crtc is Some <==> tier(plan) == 2 || tier(plan) == 3,
        plane is Some <==> tier(plan) == 2,
        plane is Some ==> plane == crtc,
        crtc is Some ==> plan == ScanoutPlan::PlaneColorop(crtc->0) || plan
            == ScanoutPlan::CrtcHardware(crtc->0),
{
}

} // verus!
