//! What is known about the color encoding of a surface.

use vstd::prelude::*;

verus! {

/// Transfer function of a surface's contents.
#[derive(Debug, Clone, Copy, PartialEq, Eq, Structural)]
pub enum TransferFunction {
    Bt1886,
    Gamma22,
    Srgb,
    CompoundPower24,
    ExtLinear,
    Pq,
    Hlg,
    /// Any other transfer function.
    Other,
}

/// Named primaries of a surface's contents.
#[derive(Debug, Clone, Copy, PartialEq, Eq, Structural)]
pub enum Primaries {
    Srgb,
    Bt2020,
    DisplayP3,
    /// Any other named primaries.
    Other,
}

/// Color description of a surface.
#[derive(Debug, Clone, Copy, PartialEq, Eq)]
pub struct ImageDescription {
    pub transfer: TransferFunction,
    /// The primaries, if they are given by name.
    pub primaries: Option<Primaries>,
    /// Minimum, maximum and reference luminance, if given.
    pub luminances: Option<(u32, u32, u32)>,
    /// Reference luminance, given or by default for the transfer function.
    pub reference_luminance: u32,
    pub max_cll: Option<u32>,
    /// Minimum and maximum luminance of the mastering display, if given.
    pub mastering_luminance: Option<(u32, u32)>,
    /// The contents are scRGB as other systems define it.
    pub windows_scrgb: bool,
    /// The contents are BT.2100 PQ as other systems define it.
    pub windows_bt2100: bool,
    /// PQ transfer function with BT.2020 primaries.
    pub is_pq_bt2020: bool,
    /// The contents exceed the standard dynamic range.
    pub is_hdr: bool,
}

impl ImageDescription {
    /// Extended linear contents.
    pub open spec fn linear(self) -> bool {
        self.windows_scrgb || self.transfer == TransferFunction::ExtLinear
    }

    pub fn is_linear(&self) -> (r: bool)
        ensures
            r == self.linear(),
    {
        self.windows_scrgb || self.transfer == TransferFunction::ExtLinear
    }
}

} // verus!
