//! HDR metadata as it is sent to a display, and its kernel representation.

use vstd::prelude::*;

use crate::softfloat::{cta_units, cta_units_of};

verus! {

/// Electro-optical transfer function of the HDR metadata infoframe, per CTA-861.3.
#[derive(Debug, Clone, Copy, PartialEq, Eq, Hash, Structural)]
pub enum Eotf {
    /// Traditional gamma, SDR luminance range.
    TraditionalSdr,
    /// Traditional gamma, HDR luminance range.
    TraditionalHdr,
    /// SMPTE ST 2084, a.k.a. Perceptual Quantizer (PQ).
    SmpteSt2084,
    /// Hybrid Log-Gamma (HLG), per BT.2100.
    Hlg,
}

impl Eotf {
    pub open spec fn raw(self) -> u8 {
        match self {
            Eotf::TraditionalSdr => 0,
            Eotf::TraditionalHdr => 1,
            Eotf::SmpteSt2084 => 2,
            Eotf::Hlg => 3,
        }
    }

    /// The infoframe's code for the transfer function.
    pub fn to_raw(self) -> (r: u8)
        ensures
            r == self.raw(),
    {
        match self {
            Eotf::TraditionalSdr => 0,
            Eotf::TraditionalHdr => 1,
            Eotf::SmpteSt2084 => 2,
            Eotf::Hlg => 3,
        }
    }

    /// The transfer function with the infoframe's code.
    pub fn from_raw(raw: u8) -> (r: Option<Self>)
        ensures
            match r {
                Some(eotf) => eotf.raw() == raw,
                None => raw > 3,
            },
    {
        if raw == 0 {
            Some(Eotf::TraditionalSdr)
        } else if raw == 1 {
            Some(Eotf::TraditionalHdr)
        } else if raw == 2 {
            Some(Eotf::SmpteSt2084)
        } else if raw == 3 {
            Some(Eotf::Hlg)
        } else {
            None
        }
    }
}

/// A CIE 1931 xy chromaticity coordinate in CTA-861.3 units, i.e. the coordinate scaled by
/// 50000 (increments of 0.00002).
#[derive(Debug, Clone, Copy, PartialEq, Eq, Hash, Structural)]
pub struct CtaCoordinate {
    /// The x coordinate, scaled by 50000.
    pub x: u16,
    /// The y coordinate, scaled by 50000.
    pub y: u16,
}

impl CtaCoordinate {
    /// Converts a CIE 1931 xy coordinate, given as bits of double precision values.
    pub fn from_xy(x: u64, y: u64) -> (r: Self)
        ensures
            r.x == cta_units_of(x),
            r.y == cta_units_of(y),
    {
        CtaCoordinate { x: cta_units(x), y: cta_units(y) }
    }

    /// The BT.2020 red primary (0.708, 0.292).
    pub open spec fn bt2020_red_spec() -> CtaCoordinate {
        CtaCoordinate { x: 35400, y: 14600 }
    }

    /// The BT.2020 red primary (0.708, 0.292).
    pub fn bt2020_red() -> (r: CtaCoordinate)
        ensures
            r == CtaCoordinate::bt2020_red_spec(),
    {
        CtaCoordinate { x: 35400, y: 14600 }
    }

    /// The BT.2020 green primary (0.170, 0.797).
    pub open spec fn bt2020_green_spec() -> CtaCoordinate {
        CtaCoordinate { x: 8500, y: 39850 }
    }

    /// The BT.2020 green primary (0.170, 0.797).
    pub fn bt2020_green() -> (r: CtaCoordinate)
        ensures
            r == CtaCoordinate::bt2020_green_spec(),
    {
        CtaCoordinate { x: 8500, y: 39850 }
    }

    /// The BT.2020 blue primary (0.131, 0.046).
    pub open spec fn bt2020_blue_spec() -> CtaCoordinate {
        CtaCoordinate { x: 6550, y: 2300 }
    }

    /// The BT.2020 blue primary (0.131, 0.046).
    pub fn bt2020_blue() -> (r: CtaCoordinate)
        ensures
            r == CtaCoordinate::bt2020_blue_spec(),
    {
        CtaCoordinate { x: 6550, y: 2300 }
    }

    /// The D65 white point (0.3127, 0.3290).
    pub open spec fn d65_white_spec() -> CtaCoordinate {
        CtaCoordinate { x: 15635, y: 16450 }
    }

    /// The D65 white point (0.3127, 0.3290).
    pub fn d65_white() -> (r: CtaCoordinate)
        ensures
            r == CtaCoordinate::d65_white_spec(),
    {
        CtaCoordinate { x: 15635, y: 16450 }
    }
}

/// Static HDR metadata (CTA-861.3 Static Metadata Type 1).
///
/// All fields use the raw infoframe units.
#[derive(Debug, Clone, Copy, Eq, Hash)]
pub struct HdrOutputMetadata {
    /// The transfer function the frame contents are encoded with.
    pub eotf: Eotf,
    /// Chromaticity of the mastering display's red, green and blue primaries.
    pub display_primaries: [CtaCoordinate; 3],
    /// Chromaticity of the mastering display's white point.
    pub white_point: CtaCoordinate,
    /// Maximum luminance of the mastering display, in cd/m2.
    pub max_display_mastering_luminance: u16,
    /// Minimum luminance of the mastering display, in 0.0001 cd/m2 units.
    pub min_display_mastering_luminance: u16,
    /// Maximum content light level, in cd/m2.
    pub max_cll: u16,
    /// Maximum frame-average light level, in cd/m2.
    pub max_fall: u16,
}

impl HdrOutputMetadata {
    /// HDR10 style signal: PQ transfer function with BT.2020 mastering primaries and a D65
    /// white point.
    pub fn pq_bt2020(max_luminance: u16, min_luminance: u16, max_cll: u16, max_fall: u16) -> (r: Self)
        ensures
            r.eotf == Eotf::SmpteSt2084,
            r.display_primaries@ == seq![
                CtaCoordinate::bt2020_red_spec(),
                CtaCoordinate::bt2020_green_spec(),
                CtaCoordinate::bt2020_blue_spec(),
            ],
            r.white_point == CtaCoordinate::d65_white_spec(),
            r.max_display_mastering_luminance == max_luminance,
            r.min_display_mastering_luminance == min_luminance,
            r.max_cll == max_cll,
            r.max_fall == max_fall,
    {
        HdrOutputMetadata {
            eotf: Eotf::SmpteSt2084,
            display_primaries: [
                CtaCoordinate::bt2020_red(),
                CtaCoordinate::bt2020_green(),
                CtaCoordinate::bt2020_blue(),
            ],
            white_point: CtaCoordinate::d65_white(),
            max_display_mastering_luminance: max_luminance,
            min_display_mastering_luminance: min_luminance,
            max_cll,
            max_fall,
        }
    }
}

impl PartialEq for HdrOutputMetadata {
    fn eq(&self, other: &Self) -> (r: bool) {
        self.eotf == other.eotf && self.display_primaries[0] == other.display_primaries[0]
            && self.display_primaries[1] == other.display_primaries[1]
            && self.display_primaries[2] == other.display_primaries[2] && self.white_point
            == other.white_point && self.max_display_mastering_luminance
            == other.max_display_mastering_luminance && self.min_display_mastering_luminance
            == other.min_display_mastering_luminance && self.max_cll == other.max_cll
            && self.max_fall == other.max_fall
    }
}

impl vstd::std_specs::cmp::PartialEqSpecImpl for HdrOutputMetadata {
    open spec fn obeys_eq_spec() -> bool {
        true
    }

    open spec fn eq_spec(&self, other: &Self) -> bool {
        self.same(*other)
    }
}

impl HdrOutputMetadata {
    /// All fields are equal.
    pub open spec fn same(self, other: HdrOutputMetadata) -> bool {
        &&& self.eotf == other.eotf
        &&& self.display_primaries@[0] == other.display_primaries@[0]
        &&& self.display_primaries@[1] == other.display_primaries@[1]
        &&& self.display_primaries@[2] == other.display_primaries@[2]
        &&& self.white_point == other.white_point
        &&& self.max_display_mastering_luminance == other.max_display_mastering_luminance
        &&& self.min_display_mastering_luminance == other.min_display_mastering_luminance
        &&& self.max_cll == other.max_cll
        &&& self.max_fall == other.max_fall
    }
}

/// The HDR10 metadata gives the standard's chromaticities, 0.708/0.292, 0.170/0.797 and
/// 0.131/0.046 with the white 0.3127/0.3290, in units of 0.00002, and hands the luminances on.
pub proof fn law_hdr10_metadata(
    max_luminance: u16,
    min_luminance: u16,
    max_cll: u16,
    max_fall: u16,
    r: HdrOutputMetadata,
)
    requires
        call_ensures(
            HdrOutputMetadata::pq_bt2020,
            (max_luminance, min_luminance, max_cll, max_fall),
            r,
        ),
    ensures
        ({
            let at = |c: CtaCoordinate, x: int, y: int| c.x * 10000 == x * 50000 && c.y * 10000 == y
                * 50000;
            &&& r.eotf is SmpteSt2084
            &&& at(r.display_primaries@[0], 7080, 2920)
            &&& at(r.display_primaries@[1], 1700, 7970)
            &&& at(r.display_primaries@[2], 1310, 460)
            &&& at(r.white_point, 3127, 3290)
            &&& r.max_display_mastering_luminance == max_luminance
            &&& r.min_display_mastering_luminance == min_luminance
            &&& r.max_cll == max_cll && r.max_fall == max_fall
        }),
{
}

/// Codes of transfer functions are read as they are written.
pub proof fn law_codes_are_read_back(eotf: Eotf, raw: u8, read: Option<Eotf>)
    requires
        call_ensures(Eotf::to_raw, (eotf,), raw),
        call_ensures(Eotf::from_raw, (raw,), read),
    ensures
        read == Some(eotf),
        eotf is TraditionalSdr <==> raw == 0,
        eotf is TraditionalHdr <==> raw == 1,
        eotf is SmpteSt2084 <==> raw == 2,
        eotf is Hlg <==> raw == 3,
{
}

} // verus!
