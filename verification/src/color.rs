//! Color state of connectors and display controllers.

use vstd::prelude::*;

use crate::metadata::HdrOutputMetadata;
use crate::names::same;
use crate::softfloat::{
    f32_quotient, f32_quotient_of, f64_product, f64_product_of, f64_quotient, f64_quotient_of,
    f64_shift, f64_significand, round_half_up, two_pow, unorm16_from_f32, unorm16_of_f32, F64_INFINITY,
    F64_SIGN,
};

#[allow(unused_imports)]
use crate::nearest::{
    finite64, gap, law_product_is_precise, law_product_overflows_late, law_product_signs,
    law_quotient_is_precise, lemma_parts64, units64,
};
#[allow(unused_imports)]
use crate::softfloat::{
    lemma_two_pow_grows, lemma_two_pow_positive, lemma_two_pow_split, lemma_two_pow_values,
};

verus! {

/// Value of the `Colorspace` connector property.
#[derive(Debug, Clone, Copy, PartialEq, Eq, Hash, Structural)]
pub enum Colorspace {
    /// The default colorspace of the connector (`Default`), typically sRGB/BT.709.
    Default,
    /// ITU-R BT.2020 RGB colorimetry (`BT2020_RGB`).
    Bt2020Rgb,
    /// ITU-R BT.2020 YCbCr colorimetry (`BT2020_YCC`).
    Bt2020Ycc,
    /// DCI-P3 RGB colorimetry with D65 white point (`DCI-P3_RGB_D65`).
    DciP3RgbD65,
    /// A colorspace that is not modelled. Only ever read back, never requested.
    Unknown,
}

impl Default for Colorspace {
    fn default() -> (r: Self)
        ensures
            r == Colorspace::Default,
    {
        Colorspace::Default
    }
}

impl Colorspace {
    pub open spec fn name(self) -> Option<Seq<char>> {
        match self {
            Colorspace::Default => Some("Default"@),
            Colorspace::Bt2020Rgb => Some("BT2020_RGB"@),
            Colorspace::Bt2020Ycc => Some("BT2020_YCC"@),
            Colorspace::DciP3RgbD65 => Some("DCI-P3_RGB_D65"@),
            Colorspace::Unknown => None,
        }
    }

    /// The kernel's name for this colorspace in the `Colorspace` property enum; none for
    /// [`Colorspace::Unknown`].
    pub fn kernel_name(&self) -> (r: Option<&'static str>)
        ensures
            match r {
                Some(name) => self.name() == Some(name@),
                None => self.name() is None,
            },
    {
        match self {
            Colorspace::Default => Some("Default"),
            Colorspace::Bt2020Rgb => Some("BT2020_RGB"),
            Colorspace::Bt2020Ycc => Some("BT2020_YCC"),
            Colorspace::DciP3RgbD65 => Some("DCI-P3_RGB_D65"),
            Colorspace::Unknown => None,
        }
    }

    /// The colorspace that the kernel calls `name`.
    pub open spec fn named(name: Seq<char>) -> Option<Self> {
        if name == "Default"@ {
            Some(Colorspace::Default)
        } else if name == "BT2020_RGB"@ {
            Some(Colorspace::Bt2020Rgb)
        } else if name == "BT2020_YCC"@ {
            Some(Colorspace::Bt2020Ycc)
        } else if name == "DCI-P3_RGB_D65"@ {
            Some(Colorspace::DciP3RgbD65)
        } else {
            None
        }
    }

    /// The colorspace with the kernel's name.
    pub fn from_kernel_name(name: &str) -> (r: Option<Self>)
        ensures
            r == Self::named(name@),
            match r {
                Some(cs) => cs.name() == Some(name@),
                None => forall|cs: Colorspace| #[trigger] cs.name() != Some(name@),
            },
    {
        if same(name, "Default") {
            Some(Colorspace::Default)
        } else if same(name, "BT2020_RGB") {
            Some(Colorspace::Bt2020Rgb)
        } else if same(name, "BT2020_YCC") {
            Some(Colorspace::Bt2020Ycc)
        } else if same(name, "DCI-P3_RGB_D65") {
            Some(Colorspace::DciP3RgbD65)
        } else {
            None
        }
    }
}

/// No two colorspaces share a name, so that reading a written name gives the colorspace back.
pub proof fn law_colorspace_names_differ(a: Colorspace, b: Colorspace)
    requires
        a.name() is Some,
        a.name() == b.name(),
    ensures
        a == b,
{
    reveal_strlit("Default");
    reveal_strlit("BT2020_RGB");
    reveal_strlit("BT2020_YCC");
    reveal_strlit("DCI-P3_RGB_D65");
    assert("Default"@.len() == 7);
    assert("BT2020_RGB"@.len() == 10);
    assert("BT2020_YCC"@.len() == 10);
    assert("DCI-P3_RGB_D65"@.len() == 14);
    assert("BT2020_RGB"@[7] == 'R');
    assert("BT2020_YCC"@[7] == 'Y');
}

/// Desired color configuration of a connector. The default is plain SDR signalling.
#[derive(Debug, Clone, Copy, Eq, Hash)]
pub struct ConnectorColorState {
    /// The colorimetry to signal.
    pub colorspace: Colorspace,
    /// The HDR static metadata to signal; none disables the HDR infoframe.
    pub hdr_metadata: Option<HdrOutputMetadata>,
    /// The maximum bits per component on the link; none leaves the property alone.
    pub max_bpc: Option<u32>,
    /// Reference white level in cd/m2, as bits of a single precision value.
    pub reference_white: Option<u32>,
}

impl ConnectorColorState {
    /// All fields are equal.
    pub open spec fn same_state(self, other: ConnectorColorState) -> bool {
        &&& self.colorspace == other.colorspace
        &&& match (self.hdr_metadata, other.hdr_metadata) {
            (Some(a), Some(b)) => a.same(b),
            (None, None) => true,
            _ => false,
        }
        &&& self.max_bpc == other.max_bpc
        &&& self.reference_white == other.reference_white
    }

    /// Plain SDR signalling.
    pub open spec fn is_plain(self) -> bool {
        &&& self.colorspace == Colorspace::Default
        &&& self.hdr_metadata is None
        &&& self.max_bpc is None
        &&& self.reference_white is None
    }

    pub open spec fn hdr(self) -> bool {
        self.colorspace == Colorspace::Bt2020Rgb && self.hdr_metadata is Some
    }

    /// Whether this configures HDR output.
    pub fn is_hdr(&self) -> (r: bool)
        ensures
            r == self.hdr(),
    {
        self.colorspace == Colorspace::Bt2020Rgb && self.hdr_metadata.is_some()
    }
}

impl Default for ConnectorColorState {
    fn default() -> (r: Self)
        ensures
            r.is_plain(),
    {
        ConnectorColorState {
            colorspace: Colorspace::Default,
            hdr_metadata: None,
            max_bpc: None,
            reference_white: None,
        }
    }
}

impl PartialEq for ConnectorColorState {
    fn eq(&self, other: &Self) -> (r: bool) {
        let same_metadata: bool = match (self.hdr_metadata, other.hdr_metadata) {
            (Some(a), Some(b)) => a == b,
            (None, None) => true,
            _ => false,
        };
        let same_bpc: bool = match (self.max_bpc, other.max_bpc) {
            (Some(a), Some(b)) => a == b,
            (None, None) => true,
            _ => false,
        };
        let same_white: bool = match (self.reference_white, other.reference_white) {
            (Some(a), Some(b)) => a == b,
            (None, None) => true,
            _ => false,
        };
        self.colorspace == other.colorspace && same_metadata && same_bpc && same_white
    }
}

impl vstd::std_specs::cmp::PartialEqSpecImpl for ConnectorColorState {
    open spec fn obeys_eq_spec() -> bool {
        true
    }

    open spec fn eq_spec(&self, other: &Self) -> bool {
        self.same_state(*other)
    }
}

/// Color states are equal exactly if their fields are, with the reference white compared by its
/// bits. So a state is equal to itself even where its white is not a number, and it does not matter
/// which of two states comes first.
pub proof fn law_color_states_compare_by_fields(a: ConnectorColorState, b: ConnectorColorState)
    ensures
        a.same_state(a),
        a.same_state(b) == b.same_state(a),
        a.same_state(b) <==> a == b,
{
    if a.same_state(b) && a.hdr_metadata is Some {
        assert(a.hdr_metadata->0.display_primaries =~= b.hdr_metadata->0.display_primaries);
    }
}

/// Entry of a display controller lookup table (`struct drm_color_lut`).
#[derive(Debug, Copy, Clone, PartialEq, Eq, Structural)]
pub struct DrmColorLut {
    pub red: u16,
    pub green: u16,
    pub blue: u16,
    /// Reserved field required by the kernel structure.
    pub reserved: u16,
}

impl Default for DrmColorLut {
    fn default() -> (r: Self)
        ensures
            r == DrmColorLut::gray_of(0),
    {
        DrmColorLut { red: 0, green: 0, blue: 0, reserved: 0 }
    }
}

impl DrmColorLut {
    /// The same value in all three channels.
    pub open spec fn gray_of(v: nat) -> DrmColorLut {
        DrmColorLut { red: v as u16, green: v as u16, blue: v as u16, reserved: 0 }
    }

    /// Creates an entry from normalized values, given as bits of single precision values.
    pub fn from_rgb(r: u32, g: u32, b: u32) -> (out: Self)
        ensures
            out.red == unorm16_of_f32(r),
            out.green == unorm16_of_f32(g),
            out.blue == unorm16_of_f32(b),
            out.reserved == 0,
    {
        DrmColorLut {
            red: unorm16_from_f32(r),
            green: unorm16_from_f32(g),
            blue: unorm16_from_f32(b),
            reserved: 0,
        }
    }

    /// Table of a curve that was sampled at evenly spaced inputs.
    pub fn from_samples(samples: &Vec<u32>) -> (lut: Vec<Self>)
        ensures
            lut@ == table_of(samples@),
    {
        let mut lut: Vec<DrmColorLut> = Vec::new();
        let mut i: usize = 0;
        while i < samples.len()
            invariant
                i <= samples@.len(),
                lut@ =~= table_of(samples@).take(i as int),
            decreases samples@.len() - i,
        {
            let v: u32 = samples[i];
            lut.push(DrmColorLut::from_rgb(v, v, v));
            i = i + 1;
        }
        assert(table_of(samples@).take(i as int) =~= table_of(samples@));
        lut
    }

    /// The inputs at which a curve is sampled to fill a table of `size` entries, as bits of
    /// single precision values.
    pub fn inputs(size: usize) -> (inputs: Vec<u32>)
        requires
            size >= 1,
        ensures
            inputs@.len() == size,
            forall|i: int|
                0 <= i < size ==> #[trigger] inputs@[i] == identity_input(i as nat, size as nat),
    {
        let denom: u64 = if size > 1 { (size - 1) as u64 } else { 1 };
        let mut inputs: Vec<u32> = Vec::new();
        let mut i: usize = 0;
        while i < size
            invariant
                i <= size,
                inputs@.len() == i,
                denom == (if size > 1 { size - 1 } else { 1 }),
                forall|k: int|
                    0 <= k < i ==> #[trigger] inputs@[k] == identity_input(k as nat, size as nat),
            decreases size - i,
        {
            inputs.push(f32_quotient(i as u64, denom));
            i = i + 1;
        }
        inputs
    }

    /// Generates a linear identity table.
    pub fn create_identity_lut(size: usize) -> (lut: Vec<Self>)
        requires
            size >= 1,
        ensures
            lut@.len() == size,
            forall|i: int|
                0 <= i < size ==> #[trigger] lut@[i] == DrmColorLut::gray_of(
                    unorm16_of_f32(identity_input(i as nat, size as nat)),
                ),
    {
        DrmColorLut::from_samples(&DrmColorLut::inputs(size))
    }
}

/// Bits of the input that entry `i` of a table with `size` entries stands for.
pub open spec fn identity_input(i: nat, size: nat) -> u32 {
    f32_quotient_of(i, (if size > 1 { (size - 1) as nat } else { 1 })) as u32
}

/// Gray table entries for sampled values.
pub open spec fn table_of(samples: Seq<u32>) -> Seq<DrmColorLut> {
    Seq::new(samples.len(), |i: int| DrmColorLut::gray_of(unorm16_of_f32(samples[i])))
}

/// A 3x3 color transformation matrix (`struct drm_color_ctm`), row-major, in S31.32
/// sign-magnitude format: bit 63 is the sign, bits 62..32 are the integer and bits 31..0 the
/// fraction.
#[derive(Debug, Copy, Clone, PartialEq, Eq)]
pub struct DrmColorCtm {
    pub matrix: [u64; 9],
}

/// S31.32 representation of 1.0.
pub const S31_32_ONE: u64 = 0x1_0000_0000;

/// Value of an S31.32 number in units of `2^-32`.
pub open spec fn s31_32_units(v: u64) -> int {
    if v >= F64_SIGN {
        -(v - F64_SIGN)
    } else {
        v as int
    }
}

/// Magnitude of a double precision value, without its sign bit, in units of `2^-32`, rounded half
/// up to an integer. A value from 2^64 on counts as the largest integer below.
pub open spec fn s31_32_rounded(magnitude: u64) -> nat {
    let t = f64_shift(magnitude);
    let m = f64_significand(magnitude);
    if t > 0 {
        round_half_up(m * 0x1_0000_0000, two_pow(t as nat))
    } else {
        let whole = m * two_pow((-t) as nat);
        (if whole > u64::MAX {
            u64::MAX as nat
        } else {
            whole
        }) * 0x1_0000_0000
    }
}

/// The conversion of a double precision value, given by its bits: its magnitude is rounded to
/// the format. An integer that needs more than 31 bits loses the upper ones.
pub open spec fn s31_32_of(bits: u64) -> int {
    let magnitude = (if bits >= F64_SIGN { bits - F64_SIGN } else { bits as int }) as u64;
    let sign: int = if bits > F64_SIGN && magnitude <= F64_INFINITY { F64_SIGN as int } else { 0 };
    if magnitude > F64_INFINITY {
        0
    } else {
        sign + s31_32_rounded(magnitude) as int % 0x8000_0000_0000_0000
    }
}

/// Integer and fraction can be rounded separately, if the fraction is carried.
proof fn lemma_split_rounding(m: nat, p: nat)
    requires
        p > 0,
    ensures
        round_half_up(m * 0x1_0000_0000, p) == (m / p) * 0x1_0000_0000 + round_half_up(
            (m % p) * 0x1_0000_0000,
            p,
        ),
{
    let q = m / p;
    let r = m % p;
    vstd::arithmetic::div_mod::lemma_fundamental_div_mod(m as int, p as int);
    let n = (r * 0x1_0000_0000) as int;
    let k = (q * 0x1_0000_0000) as int;
    assert(m * 0x1_0000_0000 == p * k + n) by (nonlinear_arith)
        requires
            m == p * q + r,
            k == q * 0x1_0000_0000,
            n == r * 0x1_0000_0000,
    ;
    vstd::arithmetic::div_mod::lemma_fundamental_div_mod(n, p as int);
    let w = n / p as int;
    assert(p * k + n == (k + w) * p + n % p as int) by (nonlinear_arith)
        requires
            n == p * w + n % p as int,
    ;
    vstd::arithmetic::div_mod::lemma_mod_bound(n, p as int);
    vstd::arithmetic::div_mod::lemma_fundamental_div_mod_converse(
        (m * 0x1_0000_0000) as int,
        p as int,
        k + w,
        n % p as int,
    );
}

/// Bits of the double precision value nearest to an S31.32 number. The sign is kept for zero.
pub open spec fn f64_of_s31_32(val: u64) -> int {
    let magnitude = val % F64_SIGN;
    (if val >= F64_SIGN {
        F64_SIGN as int
    } else {
        0
    }) + crate::softfloat::f64_quotient_of(magnitude as nat, 0x1_0000_0000)
}

/// Bits of the integer above the 31st do not count.
proof fn lemma_upper_bits(integer: nat, fraction: nat)
    ensures
        (integer * 0x1_0000_0000 + fraction) as int % 0x8000_0000_0000_0000 == ((integer
            % 0x8000_0000) * 0x1_0000_0000 + fraction) as int % 0x8000_0000_0000_0000,
{
    let k = integer as int / 0x8000_0000;
    let low = (integer % 0x8000_0000) as int;
    vstd::arithmetic::div_mod::lemma_mod_multiples_vanish(
        k,
        low * 0x1_0000_0000 + fraction,
        0x8000_0000_0000_0000,
    );
    assert(integer == 0x8000_0000 * k + low);
}

/// A double precision value of a magnitude below 2^31 is converted to the nearest S31.32 number,
/// and its negation to the negated number.
pub proof fn law_s31_32_is_nearest(bits: u64)
    requires
        bits < F64_INFINITY,
        f64_shift(bits) > 0,
        f64_significand(bits) < 0x8000_0000 * two_pow(f64_shift(bits) as nat),
    ensures
        ({
            let one = two_pow(f64_shift(bits) as nat);
            let distance = s31_32_of(bits) * one - f64_significand(bits) * 0x1_0000_0000;
            -one <= 2 * distance <= one
        }),
        0 <= s31_32_of(bits) < F64_SIGN,
        0 <= s31_32_of((bits + F64_SIGN) as u64) <= u64::MAX,
        s31_32_units(s31_32_of((bits + F64_SIGN) as u64) as u64) == -s31_32_of(bits),
{
    let t = f64_shift(bits) as nat;
    let p = two_pow(t);
    let m = f64_significand(bits);
    crate::softfloat::lemma_two_pow_positive(t);
    let n = (m * 0x1_0000_0000) as nat;
    let f = round_half_up(n, p);
    vstd::arithmetic::div_mod::lemma_fundamental_div_mod(n as int, p as int);
    let w = n / p;
    assert(-p <= 2 * (f * p - n) <= p) by (nonlinear_arith)
        requires
            n == p * w + n % p,
            0 <= n % p < p,
            f == w + 1 && 2 * (n % p) >= p || f == w && 2 * (n % p) < p,
    ;
    // A significand has 53 bits: right below 2^31 there are too few left to round up.
    assert(f < 0x8000_0000_0000_0000) by (nonlinear_arith)
        requires
            2 * (f * p - n) <= p,
            n == m * 0x1_0000_0000,
            m < 0x8000_0000 * p,
            m < 0x20_0000_0000_0000,
            p > 0,
    {
        if f >= 0x8000_0000_0000_0000 {
            let d = 0x8000_0000 * p - m;
            assert(f * p >= 0x8000_0000_0000_0000 * p);
            assert(2 * 0x1_0000_0000 * d <= p);
            assert(p >= 0x2_0000_0000);
            assert(m >= 0x7fff_ffff * p);
        }
    }
    assert(s31_32_of(bits) == f);
}

/// The two conversions undo each other: an S31.32 number with at most 53 significant bits comes
/// back as it was. Only the sign of zero is lost.
pub proof fn law_s31_32_round_trip(val: u64)
    requires
        val % F64_SIGN < 0x20_0000_0000_0000,
        val != F64_SIGN,
    ensures
        0 <= f64_of_s31_32(val) <= u64::MAX,
        s31_32_of(f64_of_s31_32(val) as u64) == val,
{
    let units = (val % F64_SIGN) as nat;
    if units == 0 {
        crate::softfloat::lemma_two_pow_positive(1074);
        let p = two_pow(1074);
        assert(0nat / p == 0 && 0nat % p == 0) by (nonlinear_arith)
            requires
                p >= 1,
        ;
    } else {
        crate::softfloat::law_units_are_exact(units);
        let bits = crate::softfloat::f64_quotient_of(units, 0x1_0000_0000) as u64;
        let t = f64_shift(bits) as nat;
        let p = two_pow(t);
        let m = f64_significand(bits);
        crate::softfloat::lemma_two_pow_positive(t);
        let q = m / p;
        let r = m % p;
        vstd::arithmetic::div_mod::lemma_fundamental_div_mod(m as int, p as int);
        let k = units - q * 0x1_0000_0000;
        assert(r * 0x1_0000_0000 == k * p && 0 <= k < 0x1_0000_0000) by (nonlinear_arith)
            requires
                m == p * q + r,
                0 <= r < p,
                m * 0x1_0000_0000 == units * p,
                k == units - q * 0x1_0000_0000,
        ;
        vstd::arithmetic::div_mod::lemma_fundamental_div_mod_converse(
            (r * 0x1_0000_0000) as int,
            p as int,
            k,
            0,
        );
        assert(round_half_up(r * 0x1_0000_0000, p) == k);
        lemma_split_rounding(m, p);
    }
}

impl Default for DrmColorCtm {
    fn default() -> (r: Self)
        ensures
            r.matrix@ == identity_matrix(),
    {
        DrmColorCtm::identity()
    }
}

impl DrmColorCtm {
    /// See [`s31_32_of`].
    pub fn to_s31_32(bits: u64) -> (r: u64)
        ensures
            r == s31_32_of(bits),
    {
        let magnitude: u64 = if bits >= F64_SIGN { bits - F64_SIGN } else { bits };
        if magnitude > F64_INFINITY {
            return 0;
        }
        let sign: u64 = if bits > F64_SIGN { F64_SIGN } else { 0 };
        let exponent: u64 = magnitude / 0x10_0000_0000_0000;
        let m: u64 = if exponent == 0 {
            magnitude
        } else {
            magnitude % 0x10_0000_0000_0000 + 0x10_0000_0000_0000
        };
        if exponent >= 1087 {
            // At least 2^64: all bits of the integer are set.
            proof {
                let t = f64_shift(magnitude);
                crate::softfloat::lemma_large_product(m as nat, (-t) as nat);
                lemma_upper_bits(u64::MAX as nat, 0);
            }
            return sign + 0x7fff_ffff_0000_0000;
        }
        if exponent >= 1075 {
            let whole: u64 = crate::softfloat::shift_up(m, (exponent - 1075) as u32);
            proof {
                lemma_upper_bits(whole as nat, 0);
            }
            return sign + (whole % 0x8000_0000) * 0x1_0000_0000;
        }
        let t: u32 = if exponent == 0 { 1074 } else { 1075 - exponent as u32 };
        let (integer, fraction) = crate::softfloat::split_at_point(m, t);
        proof {
            crate::softfloat::lemma_two_pow_positive(t as nat);
            lemma_split_rounding(m as nat, two_pow(t as nat));
            lemma_upper_bits(integer as nat, fraction as nat);
        }
        sign + ((integer % 0x8000_0000) * 0x1_0000_0000 + fraction) % 0x8000_0000_0000_0000
    }

    /// Bits of the double precision value of an S31.32 number.
    pub fn from_s31_32(val: u64) -> (bits: u64)
        ensures
            bits == f64_of_s31_32(val),
    {
        let magnitude: u64 = if val >= F64_SIGN { val - F64_SIGN } else { val };
        let bits: u64 = crate::softfloat::f64_of_units(magnitude);
        if val >= F64_SIGN {
            F64_SIGN + bits
        } else {
            bits
        }
    }

    /// Creates an identity matrix.
    pub fn identity() -> (r: Self)
        ensures
            r.matrix@ == identity_matrix(),
    {
        DrmColorCtm { matrix: [S31_32_ONE, 0, 0, 0, S31_32_ONE, 0, 0, 0, S31_32_ONE] }
    }

    /// Creates a matrix from row-major bits of double precision values.
    pub fn from_3x3(m: [u64; 9]) -> (r: Self)
        ensures
            forall|i: int| 0 <= i < 9 ==> #[trigger] r.matrix@[i] == s31_32_of(m@[i]),
    {
        DrmColorCtm {
            matrix: [
                DrmColorCtm::to_s31_32(m[0]),
                DrmColorCtm::to_s31_32(m[1]),
                DrmColorCtm::to_s31_32(m[2]),
                DrmColorCtm::to_s31_32(m[3]),
                DrmColorCtm::to_s31_32(m[4]),
                DrmColorCtm::to_s31_32(m[5]),
                DrmColorCtm::to_s31_32(m[6]),
                DrmColorCtm::to_s31_32(m[7]),
                DrmColorCtm::to_s31_32(m[8]),
            ],
        }
    }

    /// Linear Rec.709 to BT.2020 gamut matrix.
    pub fn rec709_to_bt2020() -> (r: Self)
        ensures
            r.matrix@ == rec709_to_bt2020_matrix(),
    {
        DrmColorCtm {
            matrix: [
                0xa09d_8c6d,
                0x544b_d33d,
                0x0b16_999f,
                0x11b0_574b,
                0xeb66_f933,
                0x02e8_914e,
                0x0432_3d6a,
                0x1688_0878,
                0xe545_b6c3,
            ],
        }
    }

    /// Linear BT.2020 to Rec.709 gamut matrix.
    pub fn bt2020_to_rec709() -> (r: Self)
        ensures
            r.matrix@ == bt2020_to_rec709_matrix(),
    {
        DrmColorCtm {
            matrix: [
                0x1_a915_f02c,
                0x8000_0000_966f_a5aa,
                0x8000_0000_12a6_4a82,
                0x8000_0000_1fe2_8aa4,
                0x1_2205_ba54,
                0x8000_0000_0223_2fb0,
                0x8000_0000_04a5_87e4,
                0x8000_0000_19bf_89ee,
                0x1_1e65_11d3,
            ],
        }
    }

    /// Linear Rec.709 to BT.2020 gamut matrix scaled by a luminance factor, given as bits of a
    /// double precision value.
    pub fn rec709_to_bt2020_scaled(scale: u64) -> (r: Self)
        ensures
            forall|i: int|
                0 <= i < 9 ==> #[trigger] r.matrix@[i] == s31_32_of(
                    f64_product_of(rec709_to_bt2020_bits()[i], scale) as u64,
                ),
    {
        DrmColorCtm::from_3x3(
            [
                f64_product(0x3fe4_13b1_8dac_258d, scale),
                f64_product(0x3fd5_12f4_cf4a_558f, scale),
                f64_product(0x3fa6_2d33_3ef1_ad57, scale),
                f64_product(0x3fb1_b057_4b40_7033, scale),
                f64_product(0x3fed_6cdf_266b_a494, scale),
                f64_product(0x3f87_448a_738b_e8d7, scale),
                f64_product(0x3f90_c8f5_a7b7_698e, scale),
                f64_product(0x3fb6_8808_779d_c64f, scale),
                f64_product(0x3fec_a8b6_d86e_c17f, scale),
            ],
        )
    }

    /// Linear BT.2020 to Rec.709 gamut matrix scaled by a luminance factor, given as bits of a
    /// double precision value.
    pub fn bt2020_to_rec709_scaled(scale: u64) -> (r: Self)
        ensures
            forall|i: int|
                0 <= i < 9 ==> #[trigger] r.matrix@[i] == s31_32_of(
                    f64_product_of(bt2020_to_rec709_bits()[i], scale) as u64,
                ),
    {
        DrmColorCtm::from_3x3(
            [
                f64_product(0x3ffa_915f_02c4_d65e, scale),
                f64_product(0xbfe2_cdf4_b549_2289, scale),
                f64_product(0xbfb2_a64a_8204_519e, scale),
                f64_product(0xbfbf_e28a_a433_508f, scale),
                f64_product(0x3ff2_205b_a542_4448, scale),
                f64_product(0xbf81_197d_7f87_9f9c, scale),
                f64_product(0xbf92_961f_9195_bf1a, scale),
                f64_product(0xbfb9_bf89_ee2a_eb66, scale),
                f64_product(0x3ff1_e651_1d29_05b3, scale),
            ],
        )
    }

    /// Identity matrix scaled by a luminance factor, given as bits of a double precision value.
    pub fn identity_scaled(scale: u64) -> (r: Self)
        ensures
            r.matrix@ == diagonal(s31_32_of(scale) as u64),
    {
        let v: u64 = DrmColorCtm::to_s31_32(scale);
        DrmColorCtm { matrix: [v, 0, 0, 0, v, 0, 0, 0, v] }
    }
}

pub open spec fn diagonal(v: u64) -> Seq<u64> {
    seq![v, 0, 0, 0, v, 0, 0, 0, v]
}

pub open spec fn identity_matrix() -> Seq<u64> {
    diagonal(S31_32_ONE)
}

/// Coefficients of the Rec.709 to BT.2020 matrix, as bits of double precision values:
/// 0.6274040, 0.3292820, 0.0433136; 0.0690970, 0.9195400, 0.0113612; 0.0163916, 0.0880132,
/// 0.8955950.
pub open spec fn rec709_to_bt2020_bits() -> Seq<u64> {
    seq![
        0x3fe4_13b1_8dac_258d,
        0x3fd5_12f4_cf4a_558f,
        0x3fa6_2d33_3ef1_ad57,
        0x3fb1_b057_4b40_7033,
        0x3fed_6cdf_266b_a494,
        0x3f87_448a_738b_e8d7,
        0x3f90_c8f5_a7b7_698e,
        0x3fb6_8808_779d_c64f,
        0x3fec_a8b6_d86e_c17f,
    ]
}

/// Coefficients of the BT.2020 to Rec.709 matrix, as bits of double precision values:
/// 1.6604910, -0.5876411, -0.0728499; -0.1245505, 1.1328999, -0.0083494; -0.0181508,
/// -0.1005789, 1.1187297.
pub open spec fn bt2020_to_rec709_bits() -> Seq<u64> {
    seq![
        0x3ffa_915f_02c4_d65e,
        0xbfe2_cdf4_b549_2289,
        0xbfb2_a64a_8204_519e,
        0xbfbf_e28a_a433_508f,
        0x3ff2_205b_a542_4448,
        0xbf81_197d_7f87_9f9c,
        0xbf92_961f_9195_bf1a,
        0xbfb9_bf89_ee2a_eb66,
        0x3ff1_e651_1d29_05b3,
    ]
}

pub open spec fn rec709_to_bt2020_matrix() -> Seq<u64> {
    seq![
        0xa09d_8c6d,
        0x544b_d33d,
        0x0b16_999f,
        0x11b0_574b,
        0xeb66_f933,
        0x02e8_914e,
        0x0432_3d6a,
        0x1688_0878,
        0xe545_b6c3,
    ]
}

pub open spec fn bt2020_to_rec709_matrix() -> Seq<u64> {
    seq![
        0x1_a915_f02c,
        0x8000_0000_966f_a5aa,
        0x8000_0000_12a6_4a82,
        0x8000_0000_1fe2_8aa4,
        0x1_2205_ba54,
        0x8000_0000_0223_2fb0,
        0x8000_0000_04a5_87e4,
        0x8000_0000_19bf_89ee,
        0x1_1e65_11d3,
    ]
}

/// Sum of a row, in units of `2^-32`.
pub open spec fn row_sum(matrix: Seq<u64>, row: int) -> int {
    s31_32_units(matrix[3 * row]) + s31_32_units(matrix[3 * row + 1]) + s31_32_units(
        matrix[3 * row + 2],
    )
}

/// The gamut matrices keep neutral white: each row sums to 1.0 up to 0.000002.
pub proof fn law_gamut_matrices_keep_white(row: int)
    requires
        0 <= row < 3,
    ensures
        -8590 <= row_sum(rec709_to_bt2020_matrix(), row) - S31_32_ONE <= 8590,
        -8590 <= row_sum(bt2020_to_rec709_matrix(), row) - S31_32_ONE <= 8590,
        row_sum(identity_matrix(), row) == S31_32_ONE,
{
    assert(row == 0 || row == 1 || row == 2);
}

/// Configuration of the display controller's color pipeline.
#[derive(Debug, Clone, Eq)]
pub struct CrtcColorState {
    /// Lookup table after blending.
    pub gamma_lut: Option<Vec<DrmColorLut>>,
    /// Matrix after blending.
    pub ctm: Option<DrmColorCtm>,
    /// Lookup table before blending.
    pub degamma_lut: Option<Vec<DrmColorLut>>,
}

/// View of [`CrtcColorState`].
#[verifier::ext_equal]
pub struct CrtcColorModel {
    pub gamma_lut: Option<Seq<DrmColorLut>>,
    pub ctm: Option<Seq<u64>>,
    pub degamma_lut: Option<Seq<DrmColorLut>>,
}

impl CrtcColorModel {
    /// No stage is in use.
    pub open spec fn passthrough() -> CrtcColorModel {
        CrtcColorModel { gamma_lut: None, ctm: None, degamma_lut: None }
    }
}

/// View of an optional table.
pub open spec fn lut_view(lut: Option<Vec<DrmColorLut>>) -> Option<Seq<DrmColorLut>> {
    match lut {
        Some(entries) => Some(entries@),
        None => None,
    }
}

/// View of an optional matrix.
pub open spec fn ctm_view(ctm: Option<DrmColorCtm>) -> Option<Seq<u64>> {
    match ctm {
        Some(ctm) => Some(ctm.matrix@),
        None => None,
    }
}

impl View for CrtcColorState {
    type V = CrtcColorModel;

    open spec fn view(&self) -> CrtcColorModel {
        CrtcColorModel {
            gamma_lut: lut_view(self.gamma_lut),
            ctm: ctm_view(self.ctm),
            degamma_lut: lut_view(self.degamma_lut),
        }
    }
}

fn same_entries(a: &Vec<DrmColorLut>, b: &Vec<DrmColorLut>) -> (r: bool)
    ensures
        r == (a@ == b@),
{
    if a.len() != b.len() {
        return false;
    }
    let mut i: usize = 0;
    while i < a.len()
        invariant
            i <= a.len() == b.len(),
            forall|j: int| 0 <= j < i ==> a@[j] == b@[j],
        decreases a.len() - i,
    {
        if a[i] != b[i] {
            assert(a@[i as int] != b@[i as int]);
            return false;
        }
        i = i + 1;
    }
    assert(a@ =~= b@);
    true
}

fn same_lut(a: &Option<Vec<DrmColorLut>>, b: &Option<Vec<DrmColorLut>>) -> (r: bool)
    ensures
        r == (lut_view(*a) == lut_view(*b)),
{
    match (a, b) {
        (Some(first), Some(second)) => same_entries(first, second),
        (None, None) => true,
        _ => false,
    }
}

fn same_matrix(a: &DrmColorCtm, b: &DrmColorCtm) -> (r: bool)
    ensures
        r == (a.matrix@ == b.matrix@),
{
    let mut i: usize = 0;
    while i < 9
        invariant
            i <= 9,
            a.matrix@.len() == 9,
            b.matrix@.len() == 9,
            forall|j: int| 0 <= j < i ==> a.matrix@[j] == b.matrix@[j],
        decreases 9 - i,
    {
        if a.matrix[i] != b.matrix[i] {
            assert(a.matrix@[i as int] != b.matrix@[i as int]);
            return false;
        }
        i = i + 1;
    }
    assert(a.matrix@ =~= b.matrix@);
    true
}

fn same_ctm(a: &Option<DrmColorCtm>, b: &Option<DrmColorCtm>) -> (r: bool)
    ensures
        r == (ctm_view(*a) == ctm_view(*b)),
{
    match (a, b) {
        (Some(first), Some(second)) => same_matrix(first, second),
        (None, None) => true,
        _ => false,
    }
}

fn copy_lut(lut: &Option<Vec<DrmColorLut>>) -> (r: Option<Vec<DrmColorLut>>)
    ensures
        lut_view(r) == lut_view(*lut),
{
    match lut {
        Some(entries) => {
            let mut copy: Vec<DrmColorLut> = Vec::new();
            let mut i: usize = 0;
            while i < entries.len()
                invariant
                    i <= entries.len(),
                    copy@ == entries@.take(i as int),
                decreases entries.len() - i,
            {
                copy.push(entries[i]);
                i = i + 1;
                assert(copy@ =~= entries@.take(i as int));
            }
            assert(copy@ =~= entries@);
            Some(copy)
        },
        None => None,
    }
}

impl CrtcColorState {
    /// A copy.
    pub fn duplicate(&self) -> (r: Self)
        ensures
            r@ == self@,
    {
        CrtcColorState {
            gamma_lut: copy_lut(&self.gamma_lut),
            ctm: self.ctm,
            degamma_lut: copy_lut(&self.degamma_lut),
        }
    }
}

impl PartialEq for CrtcColorState {
    fn eq(&self, other: &Self) -> (r: bool) {
        let r: bool = same_lut(&self.gamma_lut, &other.gamma_lut) && same_ctm(&self.ctm, &other.ctm)
            && same_lut(&self.degamma_lut, &other.degamma_lut);
        assert(r == (self@ == other@));
        r
    }
}

impl vstd::std_specs::cmp::PartialEqSpecImpl for CrtcColorState {
    open spec fn obeys_eq_spec() -> bool {
        true
    }

    open spec fn eq_spec(&self, other: &Self) -> bool {
        self@ == other@
    }
}

impl Default for CrtcColorState {
    fn default() -> (r: Self)
        ensures
            r.gamma_lut is None,
            r.ctm is None,
            r.degamma_lut is None,
            r@ == CrtcColorModel::passthrough(),
    {
        CrtcColorState { gamma_lut: None, ctm: None, degamma_lut: None }
    }
}

/// Color capabilities of a display controller.
#[derive(Debug, Clone, Copy, PartialEq, Eq, Structural)]
pub struct CrtcColorCapabilities {
    pub has_gamma_lut: bool,
    /// Number of entries of the gamma table.
    pub gamma_lut_size: u64,
    pub has_degamma_lut: bool,
    /// Number of entries of the degamma table.
    pub degamma_lut_size: u64,
    pub has_ctm: bool,
}

impl Default for CrtcColorCapabilities {
    fn default() -> (r: Self)
        ensures
            !r.has_gamma_lut && !r.has_degamma_lut && !r.has_ctm,
            r.gamma_lut_size == 0 && r.degamma_lut_size == 0,
    {
        CrtcColorCapabilities {
            has_gamma_lut: false,
            gamma_lut_size: 0,
            has_degamma_lut: false,
            degamma_lut_size: 0,
            has_ctm: false,
        }
    }
}

/// Color transformation to be executed by display hardware.
#[derive(Debug, Clone, Copy, PartialEq, Eq, Structural)]
pub enum PlaneColorConversion {
    /// scRGB to BT.2020 PQ.
    ScRgbToPq { reference_white: u16 },
    /// sRGB to BT.2020 PQ.
    SrgbToPq { reference_white: u16 },
    /// HLG to BT.2020 PQ.
    HlgToPq { reference_white: u16 },
    /// scRGB to sRGB.
    ScRgbToSrgb,
    /// BT.2020 PQ to sRGB.
    PqToSrgb,
    /// HLG to sRGB.
    HlgToSrgb,
}

/// A curve that fills a lookup table.
#[derive(Debug, Clone, Copy, PartialEq, Eq, Structural)]
pub enum LutCurve {
    /// Linear light, where 1.0 is 10,000 cd/m2, to PQ code values.
    PqEncode,
    /// Linear light to sRGB code values.
    SrgbEncode,
    /// sRGB code values to linear light.
    SrgbDecode,
    /// PQ code values to linear light.
    PqDecode,
    /// HLG code values to linear light.
    HlgDecode,
}

/// Curves and sizes of the lookup tables of a conversion.
#[derive(Debug, Clone, Copy, PartialEq, Eq)]
pub struct LutRequest {
    pub gamma: (LutCurve, usize),
    pub degamma: Option<(LutCurve, usize)>,
}

/// `value` unless it is zero.
pub open spec fn or_default(value: u16, default: u16) -> u16 {
    if value > 0 {
        value
    } else {
        default
    }
}

fn or_else(value: u16, default: u16) -> (r: u16)
    ensures
        r == or_default(value, default),
{
    if value > 0 {
        value
    } else {
        default
    }
}

/// Bits of the factor that scales a reference white to the PQ range.
pub open spec fn white_scale(reference_white: u16) -> u64 {
    f64_quotient_of(reference_white as nat, 10000) as u64
}

impl PlaneColorConversion {
    pub open spec fn gamma_curve(self) -> LutCurve {
        match self {
            PlaneColorConversion::ScRgbToPq { .. } => LutCurve::PqEncode,
            PlaneColorConversion::SrgbToPq { .. } => LutCurve::PqEncode,
            PlaneColorConversion::HlgToPq { .. } => LutCurve::PqEncode,
            _ => LutCurve::SrgbEncode,
        }
    }

    pub open spec fn degamma_curve(self) -> Option<LutCurve> {
        match self {
            PlaneColorConversion::ScRgbToPq { .. } => None,
            PlaneColorConversion::SrgbToPq { .. } => Some(LutCurve::SrgbDecode),
            PlaneColorConversion::HlgToPq { .. } => Some(LutCurve::HlgDecode),
            PlaneColorConversion::ScRgbToSrgb => None,
            PlaneColorConversion::PqToSrgb => Some(LutCurve::PqDecode),
            PlaneColorConversion::HlgToSrgb => Some(LutCurve::HlgDecode),
        }
    }

    pub open spec fn lut_request(self, gamma_lut_size: usize, degamma_lut_size: usize) -> LutRequest {
        LutRequest {
            gamma: (
                self.gamma_curve(),
                if gamma_lut_size > 0 {
                    gamma_lut_size
                } else {
                    4096
                },
            ),
            degamma: if degamma_lut_size > 0 {
                match self.degamma_curve() {
                    Some(curve) => Some((curve, degamma_lut_size)),
                    None => None,
                }
            } else {
                None
            },
        }
    }

    /// Curves and sizes of the lookup tables of this conversion.
    pub fn luts(&self, gamma_lut_size: usize, degamma_lut_size: usize) -> (r: LutRequest)
        ensures
            r == self.lut_request(gamma_lut_size, degamma_lut_size),
    {
        let size: usize = if gamma_lut_size > 0 { gamma_lut_size } else { 4096 };
        let gamma: (LutCurve, usize) = match self {
            PlaneColorConversion::ScRgbToPq { .. } => (LutCurve::PqEncode, size),
            PlaneColorConversion::SrgbToPq { .. } => (LutCurve::PqEncode, size),
            PlaneColorConversion::HlgToPq { .. } => (LutCurve::PqEncode, size),
            _ => (LutCurve::SrgbEncode, size),
        };
        let curve: Option<LutCurve> = match self {
            PlaneColorConversion::ScRgbToPq { .. } => None,
            PlaneColorConversion::SrgbToPq { .. } => Some(LutCurve::SrgbDecode),
            PlaneColorConversion::HlgToPq { .. } => Some(LutCurve::HlgDecode),
            PlaneColorConversion::ScRgbToSrgb => None,
            PlaneColorConversion::PqToSrgb => Some(LutCurve::PqDecode),
            PlaneColorConversion::HlgToSrgb => Some(LutCurve::HlgDecode),
        };
        let degamma: Option<(LutCurve, usize)> = if degamma_lut_size > 0 {
            match curve {
                Some(curve) => Some((curve, degamma_lut_size)),
                None => None,
            }
        } else {
            None
        };
        LutRequest { gamma, degamma }
    }

    /// The matrix of this conversion.
    pub open spec fn ctm_is(self, ctm: Option<DrmColorCtm>) -> bool {
        match self {
            PlaneColorConversion::ScRgbToPq { reference_white } => ctm is Some && scaled_gamut(
                ctm->0,
                or_default(reference_white, 80),
            ),
            PlaneColorConversion::SrgbToPq { reference_white } => ctm is Some && scaled_gamut(
                ctm->0,
                or_default(reference_white, 203),
            ),
            PlaneColorConversion::HlgToPq { reference_white } => ctm is Some && ctm->0.matrix@
                == diagonal(s31_32_of(white_scale(or_default(reference_white, 1000))) as u64),
            PlaneColorConversion::ScRgbToSrgb => ctm is None,
            PlaneColorConversion::PqToSrgb => ctm is Some && ctm->0.matrix@
                == bt2020_to_rec709_matrix(),
            PlaneColorConversion::HlgToSrgb => ctm is Some && ctm->0.matrix@
                == bt2020_to_rec709_matrix(),
        }
    }

    fn ctm(&self) -> (r: Option<DrmColorCtm>)
        ensures
            self.ctm_is(r),
    {
        match self {
            PlaneColorConversion::ScRgbToPq { reference_white } => {
                let white: u16 = or_else(*reference_white, 80);
                Some(DrmColorCtm::rec709_to_bt2020_scaled(f64_quotient(white as u32, 10000)))
            },
            PlaneColorConversion::SrgbToPq { reference_white } => {
                let white: u16 = or_else(*reference_white, 203);
                Some(DrmColorCtm::rec709_to_bt2020_scaled(f64_quotient(white as u32, 10000)))
            },
            PlaneColorConversion::HlgToPq { reference_white } => {
                let white: u16 = or_else(*reference_white, 1000);
                Some(DrmColorCtm::identity_scaled(f64_quotient(white as u32, 10000)))
            },
            PlaneColorConversion::ScRgbToSrgb => None,
            PlaneColorConversion::PqToSrgb => Some(DrmColorCtm::bt2020_to_rec709()),
            PlaneColorConversion::HlgToSrgb => Some(DrmColorCtm::bt2020_to_rec709()),
        }
    }

    /// The display controller state for this conversion with sampled curves.
    pub open spec fn is_crtc_state(
        self,
        gamma_lut_size: usize,
        degamma_lut_size: usize,
        gamma_samples: Seq<u32>,
        degamma_samples: Seq<u32>,
        state: CrtcColorState,
    ) -> bool {
        &&& self.ctm_is(state.ctm)
        &&& state.gamma_lut is Some
        &&& state.gamma_lut->0@ == table_of(gamma_samples)
        &&& state.degamma_lut is Some <==> self.lut_request(
            gamma_lut_size,
            degamma_lut_size,
        ).degamma is Some
        &&& state.degamma_lut is Some ==> state.degamma_lut->0@ == table_of(degamma_samples)
    }

    /// Builds the display controller state for this conversion out of the sampled curves: the
    /// curves of [`Self::luts`], as bits of single precision values at evenly spaced inputs.
    pub fn to_crtc_color_state(
        &self,
        gamma_lut_size: usize,
        degamma_lut_size: usize,
        gamma_samples: &Vec<u32>,
        degamma_samples: &Vec<u32>,
    ) -> (r: CrtcColorState)
        requires
            gamma_samples@.len() == self.lut_request(gamma_lut_size, degamma_lut_size).gamma.1,
            match self.lut_request(gamma_lut_size, degamma_lut_size).degamma {
                Some((_, size)) => degamma_samples@.len() == size,
                None => true,
            },
        ensures
            self.is_crtc_state(
                gamma_lut_size,
                degamma_lut_size,
                gamma_samples@,
                degamma_samples@,
                r,
            ),
    {
        let request = self.luts(gamma_lut_size, degamma_lut_size);
        let gamma_lut = DrmColorLut::from_samples(gamma_samples);
        let degamma_lut: Option<Vec<DrmColorLut>> = match request.degamma {
            Some(_) => Some(DrmColorLut::from_samples(degamma_samples)),
            None => None,
        };
        CrtcColorState { gamma_lut: Some(gamma_lut), ctm: self.ctm(), degamma_lut }
    }
}

/// Two conversions ask for the same tables and lead to the same states.
pub open spec fn same_conversion(
    a: PlaneColorConversion,
    b: PlaneColorConversion,
    gamma_lut_size: usize,
    degamma_lut_size: usize,
) -> bool {
    &&& a.lut_request(gamma_lut_size, degamma_lut_size) == b.lut_request(
        gamma_lut_size,
        degamma_lut_size,
    )
    &&& forall|gamma: Seq<u32>, degamma: Seq<u32>, state: CrtcColorState|
        a.is_crtc_state(gamma_lut_size, degamma_lut_size, gamma, degamma, state) == #[trigger]
        b.is_crtc_state(gamma_lut_size, degamma_lut_size, gamma, degamma, state)
}

/// A reference white of zero stands for a default: 80 cd/m^2 for scRGB, 203 for sRGB and 1000 for
/// HLG contents.
pub proof fn law_white_has_defaults(gamma_lut_size: usize, degamma_lut_size: usize)
    ensures
        same_conversion(
            PlaneColorConversion::ScRgbToPq { reference_white: 0 },
            PlaneColorConversion::ScRgbToPq { reference_white: 80 },
            gamma_lut_size,
            degamma_lut_size,
        ),
        same_conversion(
            PlaneColorConversion::SrgbToPq { reference_white: 0 },
            PlaneColorConversion::SrgbToPq { reference_white: 203 },
            gamma_lut_size,
            degamma_lut_size,
        ),
        same_conversion(
            PlaneColorConversion::HlgToPq { reference_white: 0 },
            PlaneColorConversion::HlgToPq { reference_white: 1000 },
            gamma_lut_size,
            degamma_lut_size,
        ),
{
}

/// A table size of zero stands for 4096 entries.
pub proof fn law_table_size_has_a_default(
    conv: PlaneColorConversion,
    degamma_lut_size: usize,
    gamma: Seq<u32>,
    degamma: Seq<u32>,
    state: CrtcColorState,
)
    ensures
        conv.lut_request(0, degamma_lut_size) == conv.lut_request(4096, degamma_lut_size),
        conv.is_crtc_state(0, degamma_lut_size, gamma, degamma, state) == conv.is_crtc_state(
            4096,
            degamma_lut_size,
            gamma,
            degamma,
            state,
        ),
{
}

/// All conversions to PQ have the same gamma table: only the matrix carries the reference white.
pub proof fn law_gamma_table_ignores_the_white(
    a: PlaneColorConversion,
    b: PlaneColorConversion,
    gamma_lut_size: usize,
    degamma_lut_size: usize,
)
    requires
        a is ScRgbToPq || a is SrgbToPq || a is HlgToPq,
        b is ScRgbToPq || b is SrgbToPq || b is HlgToPq,
    ensures
        a.lut_request(gamma_lut_size, degamma_lut_size).gamma == b.lut_request(
            gamma_lut_size,
            degamma_lut_size,
        ).gamma,
{
}

/// The matrix is the Rec.709 to BT.2020 matrix scaled for the reference white.
pub open spec fn scaled_gamut(ctm: DrmColorCtm, reference_white: u16) -> bool {
    forall|i: int|
        0 <= i < 9 ==> #[trigger] ctm.matrix@[i] == s31_32_of(
            f64_product_of(rec709_to_bt2020_bits()[i], white_scale(reference_white)) as u64,
        )
}

/// The CIE XYZ coordinates of linear Rec.709 light: row by coordinate, column by primary, in units
/// of `10^-7`.
pub open spec fn xyz_of_rec709() -> Seq<int> {
    seq![4123908, 3575843, 1804808, 2126390, 7151687, 721923, 193308, 1191948, 9505322]
}

/// The CIE XYZ coordinates of linear BT.2020 light.
pub open spec fn xyz_of_bt2020() -> Seq<int> {
    seq![6369580, 1446169, 1688810, 2627002, 6779981, 593017, 0, 280727, 10609851]
}

/// What a primary of the contents is, in a coordinate, once a matrix has been applied to it: in
/// units of `10^-7 * 2^-32`.
pub open spec fn converted(out: Seq<int>, matrix: Seq<u64>, row: int, column: int) -> int {
    out[3 * row] * s31_32_units(matrix[column]) + out[3 * row + 1] * s31_32_units(
        matrix[3 + column],
    ) + out[3 * row + 2] * s31_32_units(matrix[6 + column])
}

/// Two matrices as one, in units of `2^-64`.
pub open spec fn chained(a: Seq<u64>, b: Seq<u64>, row: int, column: int) -> int {
    s31_32_units(a[3 * row]) * s31_32_units(b[column]) + s31_32_units(a[3 * row + 1])
        * s31_32_units(b[3 + column]) + s31_32_units(a[3 * row + 2]) * s31_32_units(
        b[6 + column],
    )
}

/// The contents of a conversion have BT.2020 primaries.
pub open spec fn from_bt2020(conv: PlaneColorConversion) -> bool {
    conv is PqToSrgb || conv is HlgToSrgb || conv is HlgToPq
}

/// The output of a conversion has BT.2020 primaries.
pub open spec fn to_bt2020(conv: PlaneColorConversion) -> bool {
    conv is ScRgbToPq || conv is SrgbToPq || conv is HlgToPq
}

/// White of a conversion to PQ, in cd/m2; other conversions keep relative luminances.
pub open spec fn white_in_pq(conv: PlaneColorConversion) -> int {
    match conv {
        PlaneColorConversion::ScRgbToPq { reference_white } => if reference_white == 0 {
            80
        } else {
            reference_white as int
        },
        PlaneColorConversion::SrgbToPq { reference_white } => if reference_white == 0 {
            203
        } else {
            reference_white as int
        },
        PlaneColorConversion::HlgToPq { reference_white } => if reference_white == 0 {
            1000
        } else {
            reference_white as int
        },
        _ => 10000,
    }
}

/// A conversion keeps colors: every primary of the contents comes out as the same color, with its
/// luminance scaled so that white is the reference white of PQ, whose unit is 10,000 cd/m2. Both are
/// compared by their CIE coordinates, which come from the standards. Where a conversion has no
/// matrix, contents and output have the same primaries.
pub proof fn law_conversions_keep_colors(
    conv: PlaneColorConversion,
    gamma_lut_size: usize,
    degamma_lut_size: usize,
    gamma: Seq<u32>,
    degamma: Seq<u32>,
    state: CrtcColorState,
    row: int,
    column: int,
)
    requires
        conv.is_crtc_state(gamma_lut_size, degamma_lut_size, gamma, degamma, state),
        0 <= row < 3,
        0 <= column < 3,
    ensures
        ({
            let from = if from_bt2020(conv) {
                xyz_of_bt2020()
            } else {
                xyz_of_rec709()
            };
            let to = if to_bt2020(conv) {
                xyz_of_bt2020()
            } else {
                xyz_of_rec709()
            };
            let white = white_in_pq(conv);
            match state.ctm {
                None => from == to && white == 10000,
                Some(ctm) => {
                    let off = converted(to, ctm.matrix@, row, column) * 10000 - from[3 * row
                        + column] * white * 0x1_0000_0000;
                    -(8 * white * 0x1_0000_0000 + 400_000_000_000) <= off <= 8 * white
                        * 0x1_0000_0000 + 400_000_000_000
                },
            }
        }),
{
    let white = white_in_pq(conv);
    match conv {
        PlaneColorConversion::ScRgbToPq { reference_white } => {
            lemma_scaled_gamut_keeps_colors(
                state.ctm->0,
                or_default(reference_white, 80),
                row,
                column,
            );
        },
        PlaneColorConversion::SrgbToPq { reference_white } => {
            lemma_scaled_gamut_keeps_colors(
                state.ctm->0,
                or_default(reference_white, 203),
                row,
                column,
            );
        },
        PlaneColorConversion::HlgToPq { reference_white } => {
            let w = or_default(reference_white, 1000);
            lemma_scaled_one(w);
            let v = s31_32_of(white_scale(w)) as u64;
            assert(s31_32_units(0) == 0);
            let to = xyz_of_bt2020();
            let x = s31_32_units(v);
            let d = diagonal(v);
            assert(d[column] == (if column == 0 { v } else { 0 }));
            assert(d[3 + column] == (if column == 1 { v } else { 0 }));
            assert(d[6 + column] == (if column == 2 { v } else { 0 }));
            assert(row == 0 || row == 1 || row == 2);
            let t = to[3 * row + column];
            assert(converted(to, d, row, column) == t * x) by {
                assert(forall|n: int| #[trigger] (n * 0) == 0);
            }
            assert(0 <= t <= 10609851);
            assert(-400_000_000_000 <= (t * x) * 10000 - t * white * 0x1_0000_0000
                <= 400_000_000_000) by (nonlinear_arith)
                requires
                    0 <= t <= 10609851,
                    -10000 <= x * 10000 - white * 0x1_0000_0000 <= 10000,
            ;
        },
        PlaneColorConversion::ScRgbToSrgb => {},
        _ => {
            lemma_to_rec709_keeps_colors(row, column);
        },
    }
}

proof fn lemma_to_rec709_keeps_colors(row: int, column: int)
    requires
        0 <= row < 3,
        0 <= column < 3,
    ensures
        ({
            let off = converted(xyz_of_rec709(), bt2020_to_rec709_matrix(), row, column)
                - xyz_of_bt2020()[3 * row + column] * 0x1_0000_0000;
            -0x1_0000_0000 <= off <= 0x1_0000_0000
        }),
{
    assert(row == 0 || row == 1 || row == 2);
    assert(column == 0 || column == 1 || column == 2);
}

proof fn lemma_to_bt2020_keeps_colors(row: int, column: int)
    requires
        0 <= row < 3,
        0 <= column < 3,
    ensures
        ({
            let to = xyz_of_bt2020();
            let k = rec709_to_bt2020_coefficients();
            let off = to[3 * row] * k[column] + to[3 * row + 1] * k[3 + column] + to[3 * row + 2]
                * k[6 + column] - xyz_of_rec709()[3 * row + column] * 10_000_000;
            -80_000_000 <= off <= 80_000_000
        }),
{
    assert(row == 0 || row == 1 || row == 2);
    assert(column == 0 || column == 1 || column == 2);
}

/// The coefficients of the Rec.709 to BT.2020 matrix in units of `10^-7`.
spec fn rec709_to_bt2020_coefficients() -> Seq<int> {
    seq![6274040, 3292820, 433136, 690970, 9195400, 113612, 163916, 880132, 8955950]
}

/// Four roundings in a row leave a scaled coefficient within one unit of `2^-32`.
proof fn lemma_roundings(k: int, w: int, one: int, uc: int, uq: int, up: int, s: int)
    requires
        0 < k <= 10_000_000,
        0 < w <= 65535,
        one >= 1,
        gap(uc * 10_000_000, k * one) * 0x10_0000_0000_0000 <= k * one,
        gap(uq * 10000, w * one) * 0x20_0000_0000_0000 <= w * one,
        gap(up * one, uc * uq) * 0x20_0000_0000_0000 <= uc * uq,
        2 * gap(s * one, up * 0x1_0000_0000) <= one,
    ensures
        -100_000_000_000 <= s * 100_000_000_000 - k * w * 0x1_0000_0000 <= 100_000_000_000,
{
    let a = uc * 10_000_000;
    let b = uq * 10000;
    let ka = k * one;
    let wb = w * one;
    let da = gap(a, ka);
    let db = gap(b, wb);
    assert(ka >= 1 && wb >= 1) by (nonlinear_arith)
        requires
            ka == k * one,
            wb == w * one,
            k > 0,
            w > 0,
            one >= 1,
    ;
    assert(0 <= b <= 2 * wb);
    let ab = a * b;
    let kw = ka * wb;
    assert(kw >= 1) by (nonlinear_arith)
        requires
            kw == ka * wb,
            ka >= 1,
            wb >= 1,
    ;
    // Both factors are off by one part in 2^52.
    assert(gap(ab, kw) <= da * b + ka * db) by (nonlinear_arith)
        requires
            ab == a * b,
            kw == ka * wb,
            da == gap(a, ka),
            db == gap(b, wb),
            b >= 0,
            ka >= 1,
    ;
    assert(gap(ab, kw) * 0x4_0000_0000_0000 <= kw) by (nonlinear_arith)
        requires
            gap(ab, kw) <= da * b + ka * db,
            da * 0x10_0000_0000_0000 <= ka,
            db * 0x20_0000_0000_0000 <= wb,
            0 <= b <= 2 * wb,
            kw == ka * wb,
            ka >= 1,
            wb >= 1,
            da >= 0,
            db >= 0,
    ;
    // So is their rounded product.
    let c = up * one * 100_000_000_000;
    let e = gap(up * one, uc * uq);
    assert(uc * uq * 100_000_000_000 == ab) by (nonlinear_arith)
        requires
            ab == (uc * 10_000_000) * (uq * 10000),
    ;
    assert(gap(c, ab) == e * 100_000_000_000);
    assert(gap(c, ab) * 0x20_0000_0000_0000 <= ab);
    assert(gap(c, kw) * 0x2_0000_0000_0000 <= kw) by {
        assert(gap(c, kw) <= gap(c, ab) + gap(ab, kw));
        assert(ab <= 2 * kw);
    }
    // Both are multiples of the unit.
    let x = up * 100_000_000_000;
    let y = k * w * one;
    assert(gap(c, kw) == gap(x, y) * one) by (nonlinear_arith)
        requires
            c == up * one * 100_000_000_000,
            x == up * 100_000_000_000,
            kw == (k * one) * (w * one),
            y == k * w * one,
            one >= 1,
    ;
    assert(kw == y * one) by (nonlinear_arith)
        requires
            kw == (k * one) * (w * one),
            y == k * w * one,
    ;
    assert(gap(x, y) * 0x2_0000_0000_0000 <= y) by (nonlinear_arith)
        requires
            (gap(x, y) * one) * 0x2_0000_0000_0000 <= y * one,
            one >= 1,
    ;
    let kk = k * w;
    assert(0 < kk <= 655_350_000_000) by (nonlinear_arith)
        requires
            kk == k * w,
            0 < k <= 10_000_000,
            0 < w <= 65535,
    ;
    assert(y <= 655_350_000_000 * one) by (nonlinear_arith)
        requires
            y == kk * one,
            kk <= 655_350_000_000,
            one >= 1,
    ;
    let z = s * 100_000_000_000 - kk * 0x1_0000_0000;
    let so = s * one;
    assert(z * one == so * 100_000_000_000 - y * 0x1_0000_0000) by (nonlinear_arith)
        requires
            z == s * 100_000_000_000 - kk * 0x1_0000_0000,
            so == s * one,
            y == kk * one,
    ;
    assert(gap(x, y) * 0x1_0000_0000 * 0x2_0000 <= y);
    assert(-100_000_000_000 * one <= z * one <= 100_000_000_000 * one);
    assert(-100_000_000_000 <= z <= 100_000_000_000) by (nonlinear_arith)
        requires
            -100_000_000_000 * one <= z * one <= 100_000_000_000 * one,
            one >= 1,
    ;
}

/// A coefficient is the decimal number that it is written for, to double precision.
proof fn lemma_coefficient(c: u64, significand: int, e: nat, k: int)
    requires
        c == e * 0x10_0000_0000_0000 + (significand - 0x10_0000_0000_0000),
        0x10_0000_0000_0000 <= significand < 0x20_0000_0000_0000,
        1016 <= e <= 1022,
        k > 0,
        ({
            let scale = if e == 1016 { 64 } else if e == 1017 { 32 } else if e == 1018 {
                16
            } else if e == 1019 {
                8
            } else if e == 1020 {
                4
            } else if e == 1021 {
                2
            } else {
                1int
            };
            let exact = k * 0x20_0000_0000_0000 * scale;
            gap(significand * 10_000_000, exact) * 0x10_0000_0000_0000 <= exact
        }),
    ensures
        c < 0x3ff0_0000_0000_0000,
        gap(units64(c) * 10_000_000, k * two_pow(1074)) * 0x10_0000_0000_0000 <= k * two_pow(1074),
        two_pow(1060) <= units64(c) <= two_pow(1074),
{
    let unit = two_pow((e - 1) as nat) as int;
    lemma_two_pow_positive((e - 1) as nat);
    lemma_two_pow_values();
    assert(c / 0x10_0000_0000_0000 == e);
    assert(c % 0x10_0000_0000_0000 == significand - 0x10_0000_0000_0000);
    assert(units64(c) == significand * unit);
    let rest = (1022 - e) as nat;
    assert(two_pow(rest) == (if e == 1016 { 64 } else if e == 1017 { 32 } else if e == 1018 {
        16
    } else if e == 1019 {
        8
    } else if e == 1020 {
        4
    } else if e == 1021 {
        2
    } else {
        1int
    })) by {
        reveal_with_fuel(two_pow, 7);
    }
    let scale = two_pow(rest) as int;
    lemma_two_pow_split(rest, (e - 1) as nat);
    lemma_two_pow_split(53, 1021);
    let one = two_pow(1074) as int;
    assert(one == 0x20_0000_0000_0000 * (scale * unit));
    let exact = k * 0x20_0000_0000_0000 * scale;
    assert(k * one == exact * unit) by (nonlinear_arith)
        requires
            one == 0x20_0000_0000_0000 * (scale * unit),
            exact == k * 0x20_0000_0000_0000 * scale,
    ;
    let error = gap(significand * 10_000_000, exact);
    assert(gap(units64(c) * 10_000_000, k * one) == error * unit) by (nonlinear_arith)
        requires
            units64(c) == significand * unit,
            k * one == exact * unit,
            error == gap(significand * 10_000_000, exact),
            unit >= 1,
    ;
    assert((error * unit) * 0x10_0000_0000_0000 <= exact * unit) by (nonlinear_arith)
        requires
            error * 0x10_0000_0000_0000 <= exact,
            unit >= 1,
    ;
    lemma_two_pow_grows(1060, (e - 1 + 52) as nat);
    lemma_two_pow_split(52, (e - 1) as nat);
    lemma_two_pow_grows((e - 1 + 53) as nat, 1074);
    lemma_two_pow_split(53, (e - 1) as nat);
    assert(0x10_0000_0000_0000 * unit <= significand * unit <= 0x20_0000_0000_0000 * unit)
        by (nonlinear_arith)
        requires
            0x10_0000_0000_0000 <= significand < 0x20_0000_0000_0000,
            unit >= 1,
    ;
}

proof fn lemma_coefficients(i: int)
    requires
        0 <= i < 9,
    ensures
        ({
            let c = rec709_to_bt2020_bits()[i];
            let k = rec709_to_bt2020_coefficients()[i];
            let one = two_pow(1074) as int;
            &&& 0 < k <= 10_000_000
            &&& c < 0x3ff0_0000_0000_0000
            &&& gap(units64(c) * 10_000_000, k * one) * 0x10_0000_0000_0000 <= k * one
            &&& two_pow(1060) <= units64(c) <= one
        }),
{
    if i == 0 {
        lemma_coefficient(rec709_to_bt2020_bits()[0], 0x14_13b1_8dac_258d, 1022, 6274040);
    } else if i == 1 {
        lemma_coefficient(rec709_to_bt2020_bits()[1], 0x15_12f4_cf4a_558f, 1021, 3292820);
    } else if i == 2 {
        lemma_coefficient(rec709_to_bt2020_bits()[2], 0x16_2d33_3ef1_ad57, 1018, 433136);
    } else if i == 3 {
        lemma_coefficient(rec709_to_bt2020_bits()[3], 0x11_b057_4b40_7033, 1019, 690970);
    } else if i == 4 {
        lemma_coefficient(rec709_to_bt2020_bits()[4], 0x1d_6cdf_266b_a494, 1022, 9195400);
    } else if i == 5 {
        lemma_coefficient(rec709_to_bt2020_bits()[5], 0x17_448a_738b_e8d7, 1016, 113612);
    } else if i == 6 {
        lemma_coefficient(rec709_to_bt2020_bits()[6], 0x10_c8f5_a7b7_698e, 1017, 163916);
    } else if i == 7 {
        lemma_coefficient(rec709_to_bt2020_bits()[7], 0x16_8808_779d_c64f, 1019, 880132);
    } else {
        lemma_coefficient(rec709_to_bt2020_bits()[8], 0x1c_a8b6_d86e_c17f, 1022, 8955950);
    }
}

/// A white in units of 10,000 cd/m2.
proof fn lemma_white_scale(w: u16)
    requires
        w > 0,
    ensures
        ({
            let q = white_scale(w);
            let one = two_pow(1074) as int;
            &&& q < 0x7ff0_0000_0000_0000
            &&& gap(units64(q) * 10000, w * one) * 0x20_0000_0000_0000 <= w * one
            &&& two_pow(1060) <= units64(q) <= 7 * one
        }),
{
    law_quotient_is_precise(w as nat, 10000);
    let q = white_scale(w);
    let u = units64(q);
    let one = two_pow(1074) as int;
    lemma_two_pow_positive(1060);
    lemma_two_pow_split(14, 1060);
    reveal_with_fuel(two_pow, 15);
    assert(two_pow(14) == 16384);
    let low = two_pow(1060) as int;
    assert(one == 16384 * low);
    let exact = w * one;
    let error = gap(u * 10000, exact);
    assert(one <= exact <= 65535 * one) by (nonlinear_arith)
        requires
            exact == w * one,
            1 <= w <= 65535,
            one >= 1,
    ;
    assert(error * 0x20_0000_0000_0000 <= exact);
}

proof fn lemma_scaled_entry(i: int, w: u16)
    requires
        0 <= i < 9,
        w > 0,
    ensures
        ({
            let s = s31_32_of(
                f64_product_of(rec709_to_bt2020_bits()[i], white_scale(w)) as u64,
            );
            let k = rec709_to_bt2020_coefficients()[i];
            &&& 0 <= s < F64_SIGN
            &&& -100_000_000_000 <= s * 100_000_000_000 - k * w * 0x1_0000_0000 <= 100_000_000_000
        }),
{
    let c = rec709_to_bt2020_bits()[i];
    let q = white_scale(w);
    let k = rec709_to_bt2020_coefficients()[i];
    let one = two_pow(1074) as int;
    lemma_coefficients(i);
    lemma_white_scale(w);
    let uc = units64(c);
    let uq = units64(q);
    lemma_two_pow_positive(1074);
    lemma_two_pow_positive(1060);
    lemma_two_pow_split(1060, 1060);
    lemma_two_pow_split(1046, 1074);
    lemma_two_pow_values();
    lemma_two_pow_grows(52, 1046);
    assert(0x10_0000_0000_0000 * one <= uc * uq) by (nonlinear_arith)
        requires
            two_pow(1060) <= uc,
            two_pow(1060) <= uq,
            two_pow(1060) * two_pow(1060) == two_pow(1046) * one,
            two_pow(1046) >= 0x10_0000_0000_0000,
            two_pow(1060) >= 1,
            one >= 1,
    ;
    assert(uc * uq <= (7 * one) * one) by (nonlinear_arith)
        requires
            0 <= uc <= one,
            0 <= uq <= 7 * one,
    ;
    lemma_two_pow_grows(1074, 2045);
    assert(units64(0x7fef_ffff_ffff_ffff) == 0x1f_ffff_ffff_ffff * two_pow(2045));
    assert(7 * one <= 0x1f_ffff_ffff_ffff * two_pow(2045));
    assert(gap(uc * uq, 0) <= units64(0x7fef_ffff_ffff_ffff) * one) by (nonlinear_arith)
        requires
            0 <= uc * uq <= (7 * one) * one,
            7 * one <= units64(0x7fef_ffff_ffff_ffff),
            one >= 1,
    ;
    law_product_overflows_late(c, q);
    law_product_signs(c, q);
    let p = f64_product_of(c, q) as u64;
    lemma_product_range(c, q);
    law_product_is_precise(c, q);
    lemma_rounded_entry(p, uc * uq);
    let s = s31_32_of(p);
    lemma_roundings(k, w as int, one, uc, uq, units64(p), s);
}

proof fn lemma_product_range(c: u64, q: u64)
    requires
        c < 0x7ff0_0000_0000_0000,
        q < 0x7ff0_0000_0000_0000,
        finite64(f64_product_of(c, q) as u64),
    ensures
        0 <= f64_product_of(c, q) < 0x7ff0_0000_0000_0000,
{
    crate::nearest::lemma_finite_product_bits(c, q);
}

/// A product below 8 is converted to the nearest S31.32 number.
proof fn lemma_rounded_entry(p: u64, exact: int)
    requires
        p < 0x7ff0_0000_0000_0000,
        0 <= exact <= (7 * two_pow(1074)) * two_pow(1074),
        gap(units64(p) * two_pow(1074), exact) * 0x20_0000_0000_0000 <= exact,
    ensures
        0 <= s31_32_of(p) < F64_SIGN,
        2 * gap(s31_32_of(p) * two_pow(1074), units64(p) * 0x1_0000_0000) <= two_pow(1074),
{
    let one = two_pow(1074) as int;
    lemma_two_pow_positive(1074);
    lemma_parts64(p);
    let m = f64_significand(p);
    let t = f64_shift(p);
    let u = units64(p);
    assert(u <= 8 * one) by (nonlinear_arith)
        requires
            gap(u * one, exact) * 0x20_0000_0000_0000 <= exact,
            gap(u * one, exact) >= u * one - exact,
            exact <= (7 * one) * one,
            one >= 1,
    ;
    lemma_two_pow_values();
    let up = (1074 - t) as nat;
    if t <= 32 {
        lemma_two_pow_grows(1042, up);
        lemma_two_pow_split(32, 1042);
        lemma_two_pow_positive(1042);
        reveal_with_fuel(two_pow, 17);
        assert(two_pow(16) == 0x1_0000);
        lemma_two_pow_split(16, 16);
        assert(false) by (nonlinear_arith)
            requires
                u == m * two_pow(up),
                m >= 0x10_0000_0000_0000,
                two_pow(up) >= two_pow(1042),
                one == 0x1_0000_0000 * two_pow(1042),
                two_pow(1042) >= 1,
                u <= 8 * one,
        ;
    }
    let d = two_pow(t as nat);
    let scale = two_pow(up) as int;
    lemma_two_pow_positive(up);
    lemma_two_pow_positive(t as nat);
    lemma_two_pow_split(t as nat, up);
    assert(m < 0x8000_0000 * d) by (nonlinear_arith)
        requires
            m * scale <= 8 * (d * scale),
            scale >= 1,
            d >= 1,
    ;
    law_s31_32_is_nearest(p);
    let s = s31_32_of(p);
    let distance = s * d - m * 0x1_0000_0000;
    assert(s * one - u * 0x1_0000_0000 == distance * scale) by (nonlinear_arith)
        requires
            one == d * scale,
            u == m * scale,
            distance == s * d - m * 0x1_0000_0000,
    ;
    assert(-one <= 2 * (distance * scale) <= one) by (nonlinear_arith)
        requires
            -d <= 2 * distance <= d,
            one == d * scale,
            scale >= 1,
    ;
}

proof fn lemma_scaled_one(w: u16)
    requires
        w > 0,
    ensures
        ({
            let s = s31_32_of(white_scale(w));
            &&& 0 <= s < F64_SIGN
            &&& -10000 <= s * 10000 - w * 0x1_0000_0000 <= 10000
        }),
{
    lemma_white_scale(w);
    let q = white_scale(w);
    let one = two_pow(1074) as int;
    let u = units64(q);
    lemma_two_pow_positive(1074);
    assert(u * one <= (7 * one) * one) by (nonlinear_arith)
        requires
            u <= 7 * one,
            one >= 1,
    ;
    lemma_two_pow_positive(1060);
    assert(0 <= u * one) by (nonlinear_arith)
        requires
            u >= 1,
            one >= 1,
    ;
    lemma_rounded_entry(q, u * one);
    let s = s31_32_of(q);
    let z = s * 10000 - w * 0x1_0000_0000;
    let so = s * one;
    let wo = w * one;
    assert(z * one == so * 10000 - wo * 0x1_0000_0000) by (nonlinear_arith)
        requires
            z == s * 10000 - w * 0x1_0000_0000,
            so == s * one,
            wo == w * one,
    ;
    assert(wo <= 65535 * one) by (nonlinear_arith)
        requires
            wo == w * one,
            w <= 65535,
            one >= 1,
    ;
    assert(-10000 * one <= z * one <= 10000 * one);
    assert(-10000 <= z <= 10000) by (nonlinear_arith)
        requires
            -10000 * one <= z * one <= 10000 * one,
            one >= 1,
    ;
}

proof fn lemma_weighted(weight: int, s: int, k: int, f: int)
    requires
        weight >= 0,
        -100_000_000_000 <= s * 100_000_000_000 - k * f <= 100_000_000_000,
    ensures
        -weight * 100_000_000_000 <= weight * s * 100_000_000_000 - weight * k * f <= weight
            * 100_000_000_000,
{
    let d = s * 100_000_000_000 - k * f;
    assert(weight * s * 100_000_000_000 - weight * k * f == weight * d) by (nonlinear_arith)
        requires
            d == s * 100_000_000_000 - k * f,
    ;
    assert(-weight * 100_000_000_000 <= weight * d <= weight * 100_000_000_000) by (nonlinear_arith)
        requires
            weight >= 0,
            -100_000_000_000 <= d <= 100_000_000_000,
    ;
}

proof fn lemma_scaled_gamut_keeps_colors(ctm: DrmColorCtm, w: u16, row: int, column: int)
    requires
        scaled_gamut(ctm, w),
        w > 0,
        0 <= row < 3,
        0 <= column < 3,
    ensures
        ({
            let off = converted(xyz_of_bt2020(), ctm.matrix@, row, column) * 10000
                - xyz_of_rec709()[3 * row + column] * w * 0x1_0000_0000;
            -(8 * w * 0x1_0000_0000 + 400_000_000_000) <= off <= 8 * w * 0x1_0000_0000
                + 400_000_000_000
        }),
{
    let m = ctm.matrix@;
    let to = xyz_of_bt2020();
    let k = rec709_to_bt2020_coefficients();
    lemma_scaled_entry(column, w);
    lemma_scaled_entry(3 + column, w);
    lemma_scaled_entry(6 + column, w);
    lemma_to_bt2020_keeps_colors(row, column);
    assert(m[column] == s31_32_of(
        f64_product_of(rec709_to_bt2020_bits()[column], white_scale(w)) as u64,
    ));
    assert(m[3 + column] == s31_32_of(
        f64_product_of(rec709_to_bt2020_bits()[3 + column], white_scale(w)) as u64,
    ));
    assert(m[6 + column] == s31_32_of(
        f64_product_of(rec709_to_bt2020_bits()[6 + column], white_scale(w)) as u64,
    ));
    let (a, b, c) = (to[3 * row], to[3 * row + 1], to[3 * row + 2]);
    assert(row == 0 || row == 1 || row == 2);
    assert(0 <= a <= 10609851 && 0 <= b <= 10609851 && 0 <= c <= 10609851 && a + b + c <= 12000000);
    let (s0, s1, s2) = (
        s31_32_units(m[column]),
        s31_32_units(m[3 + column]),
        s31_32_units(m[6 + column]),
    );
    let (k0, k1, k2) = (k[column], k[3 + column], k[6 + column]);
    let sum = a * s0 + b * s1 + c * s2;
    let ideal = a * k0 + b * k1 + c * k2;
    let f = w * 0x1_0000_0000;
    // Each entry is off by at most one unit.
    assert(k0 * w * 0x1_0000_0000 == k0 * f && k1 * w * 0x1_0000_0000 == k1 * f && k2 * w
        * 0x1_0000_0000 == k2 * f) by (nonlinear_arith)
        requires
            f == w * 0x1_0000_0000,
    ;
    lemma_weighted(a, s0, k0, f);
    lemma_weighted(b, s1, k1, f);
    lemma_weighted(c, s2, k2, f);
    assert(ideal * f == a * k0 * f + b * k1 * f + c * k2 * f) by (nonlinear_arith)
        requires
            ideal == a * k0 + b * k1 + c * k2,
    ;
    assert(-12000000 * 100_000_000_000 <= sum * 100_000_000_000 - ideal * f <= 12000000
        * 100_000_000_000);
    let x = xyz_of_rec709()[3 * row + column];
    assert(-80_000_000 * f <= ideal * f - (x * 10_000_000) * f <= 80_000_000 * f) by (nonlinear_arith)
        requires
            -80_000_000 <= ideal - x * 10_000_000 <= 80_000_000,
            f >= 0,
    ;
    assert((x * 10_000_000) * f == (x * f) * 10_000_000) by (nonlinear_arith);
    assert(x * w * 0x1_0000_0000 == x * f) by (nonlinear_arith)
        requires
            f == w * 0x1_0000_0000,
    ;
}

proof fn lemma_units_there(m: Seq<u64>)
    requires
        m == rec709_to_bt2020_matrix(),
    ensures
        s31_32_units(m[0]) == 0xa09d_8c6d,
        s31_32_units(m[1]) == 0x544b_d33d,
        s31_32_units(m[2]) == 0x0b16_999f,
        s31_32_units(m[3]) == 0x11b0_574b,
        s31_32_units(m[4]) == 0xeb66_f933,
        s31_32_units(m[5]) == 0x02e8_914e,
        s31_32_units(m[6]) == 0x0432_3d6a,
        s31_32_units(m[7]) == 0x1688_0878,
        s31_32_units(m[8]) == 0xe545_b6c3,
{
}

proof fn lemma_units_back(m: Seq<u64>)
    requires
        m == bt2020_to_rec709_matrix(),
    ensures
        s31_32_units(m[0]) == 0x1_a915_f02c,
        s31_32_units(m[1]) == -0x966f_a5aa,
        s31_32_units(m[2]) == -0x12a6_4a82,
        s31_32_units(m[3]) == -0x1fe2_8aa4,
        s31_32_units(m[4]) == 0x1_2205_ba54,
        s31_32_units(m[5]) == -0x0223_2fb0,
        s31_32_units(m[6]) == -0x04a5_87e4,
        s31_32_units(m[7]) == -0x19bf_89ee,
        s31_32_units(m[8]) == 0x1_1e65_11d3,
{
}

#[verifier::spinoff_prover]
proof fn lemma_there_and_back_0(there: Seq<u64>, back: Seq<u64>, column: int)
    requires
        there == rec709_to_bt2020_matrix(),
        back == bt2020_to_rec709_matrix(),
        0 <= column < 3,
    ensures
        ({
            let one: int = if column == 0 {
                0x1_0000_0000_0000_0000
            } else {
                0
            };
            -0x2000_0000_0000 <= chained(back, there, 0, column) - one <= 0x2000_0000_0000
        }),
{
    lemma_units_there(there);
    lemma_units_back(back);
    let a0 = s31_32_units(back[0]);
    let a1 = s31_32_units(back[1]);
    let a2 = s31_32_units(back[2]);
    if column == 0 {
        let b0 = s31_32_units(there[0]);
        let b1 = s31_32_units(there[3]);
        let b2 = s31_32_units(there[6]);
        let sum = a0 * b0 + a1 * b1 + a2 * b2;
        assert(-0x2000_0000_0000 <= sum - 0x1_0000_0000_0000_0000 <= 0x2000_0000_0000) by (nonlinear_arith)
            requires
                sum == a0 * b0 + a1 * b1 + a2 * b2,
                a0 == 0x1_a915_f02c,
                b0 == 0xa09d_8c6d,
                a1 == -0x966f_a5aa,
                b1 == 0x11b0_574b,
                a2 == -0x12a6_4a82,
                b2 == 0x0432_3d6a,
        ;
        assert(chained(back, there, 0, 0) == sum);
    } else if column == 1 {
        let b0 = s31_32_units(there[1]);
        let b1 = s31_32_units(there[4]);
        let b2 = s31_32_units(there[7]);
        let sum = a0 * b0 + a1 * b1 + a2 * b2;
        assert(-0x2000_0000_0000 <= sum - 0 <= 0x2000_0000_0000) by (nonlinear_arith)
            requires
                sum == a0 * b0 + a1 * b1 + a2 * b2,
                a0 == 0x1_a915_f02c,
                b0 == 0x544b_d33d,
                a1 == -0x966f_a5aa,
                b1 == 0xeb66_f933,
                a2 == -0x12a6_4a82,
                b2 == 0x1688_0878,
        ;
        assert(chained(back, there, 0, 1) == sum);
    } else {
        let b0 = s31_32_units(there[2]);
        let b1 = s31_32_units(there[5]);
        let b2 = s31_32_units(there[8]);
        let sum = a0 * b0 + a1 * b1 + a2 * b2;
        assert(-0x2000_0000_0000 <= sum - 0 <= 0x2000_0000_0000) by (nonlinear_arith)
            requires
                sum == a0 * b0 + a1 * b1 + a2 * b2,
                a0 == 0x1_a915_f02c,
                b0 == 0x0b16_999f,
                a1 == -0x966f_a5aa,
                b1 == 0x02e8_914e,
                a2 == -0x12a6_4a82,
                b2 == 0xe545_b6c3,
        ;
        assert(chained(back, there, 0, 2) == sum);
    }
}

#[verifier::spinoff_prover]
proof fn lemma_there_and_back_1(there: Seq<u64>, back: Seq<u64>, column: int)
    requires
        there == rec709_to_bt2020_matrix(),
        back == bt2020_to_rec709_matrix(),
        0 <= column < 3,
    ensures
        ({
            let one: int = if column == 1 {
                0x1_0000_0000_0000_0000
            } else {
                0
            };
            -0x2000_0000_0000 <= chained(back, there, 1, column) - one <= 0x2000_0000_0000
        }),
{
    lemma_units_there(there);
    lemma_units_back(back);
    let a0 = s31_32_units(back[3]);
    let a1 = s31_32_units(back[4]);
    let a2 = s31_32_units(back[5]);
    if column == 0 {
        let b0 = s31_32_units(there[0]);
        let b1 = s31_32_units(there[3]);
        let b2 = s31_32_units(there[6]);
        let sum = a0 * b0 + a1 * b1 + a2 * b2;
        assert(-0x2000_0000_0000 <= sum - 0 <= 0x2000_0000_0000) by (nonlinear_arith)
            requires
                sum == a0 * b0 + a1 * b1 + a2 * b2,
                a0 == -0x1fe2_8aa4,
                b0 == 0xa09d_8c6d,
                a1 == 0x1_2205_ba54,
                b1 == 0x11b0_574b,
                a2 == -0x0223_2fb0,
                b2 == 0x0432_3d6a,
        ;
        assert(chained(back, there, 1, 0) == sum);
    } else if column == 1 {
        let b0 = s31_32_units(there[1]);
        let b1 = s31_32_units(there[4]);
        let b2 = s31_32_units(there[7]);
        let sum = a0 * b0 + a1 * b1 + a2 * b2;
        assert(-0x2000_0000_0000 <= sum - 0x1_0000_0000_0000_0000 <= 0x2000_0000_0000) by (nonlinear_arith)
            requires
                sum == a0 * b0 + a1 * b1 + a2 * b2,
                a0 == -0x1fe2_8aa4,
                b0 == 0x544b_d33d,
                a1 == 0x1_2205_ba54,
                b1 == 0xeb66_f933,
                a2 == -0x0223_2fb0,
                b2 == 0x1688_0878,
        ;
        assert(chained(back, there, 1, 1) == sum);
    } else {
        let b0 = s31_32_units(there[2]);
        let b1 = s31_32_units(there[5]);
        let b2 = s31_32_units(there[8]);
        let sum = a0 * b0 + a1 * b1 + a2 * b2;
        assert(-0x2000_0000_0000 <= sum - 0 <= 0x2000_0000_0000) by (nonlinear_arith)
            requires
                sum == a0 * b0 + a1 * b1 + a2 * b2,
                a0 == -0x1fe2_8aa4,
                b0 == 0x0b16_999f,
                a1 == 0x1_2205_ba54,
                b1 == 0x02e8_914e,
                a2 == -0x0223_2fb0,
                b2 == 0xe545_b6c3,
        ;
        assert(chained(back, there, 1, 2) == sum);
    }
}

#[verifier::spinoff_prover]
proof fn lemma_there_and_back_2(there: Seq<u64>, back: Seq<u64>, column: int)
    requires
        there == rec709_to_bt2020_matrix(),
        back == bt2020_to_rec709_matrix(),
        0 <= column < 3,
    ensures
        ({
            let one: int = if column == 2 {
                0x1_0000_0000_0000_0000
            } else {
                0
            };
            -0x2000_0000_0000 <= chained(back, there, 2, column) - one <= 0x2000_0000_0000
        }),
{
    lemma_units_there(there);
    lemma_units_back(back);
    let a0 = s31_32_units(back[6]);
    let a1 = s31_32_units(back[7]);
    let a2 = s31_32_units(back[8]);
    if column == 0 {
        let b0 = s31_32_units(there[0]);
        let b1 = s31_32_units(there[3]);
        let b2 = s31_32_units(there[6]);
        let sum = a0 * b0 + a1 * b1 + a2 * b2;
        assert(-0x2000_0000_0000 <= sum - 0 <= 0x2000_0000_0000) by (nonlinear_arith)
            requires
                sum == a0 * b0 + a1 * b1 + a2 * b2,
                a0 == -0x04a5_87e4,
                b0 == 0xa09d_8c6d,
                a1 == -0x19bf_89ee,
                b1 == 0x11b0_574b,
                a2 == 0x1_1e65_11d3,
                b2 == 0x0432_3d6a,
        ;
        assert(chained(back, there, 2, 0) == sum);
    } else if column == 1 {
        let b0 = s31_32_units(there[1]);
        let b1 = s31_32_units(there[4]);
        let b2 = s31_32_units(there[7]);
        let sum = a0 * b0 + a1 * b1 + a2 * b2;
        assert(-0x2000_0000_0000 <= sum - 0 <= 0x2000_0000_0000) by (nonlinear_arith)
            requires
                sum == a0 * b0 + a1 * b1 + a2 * b2,
                a0 == -0x04a5_87e4,
                b0 == 0x544b_d33d,
                a1 == -0x19bf_89ee,
                b1 == 0xeb66_f933,
                a2 == 0x1_1e65_11d3,
                b2 == 0x1688_0878,
        ;
        assert(chained(back, there, 2, 1) == sum);
    } else {
        let b0 = s31_32_units(there[2]);
        let b1 = s31_32_units(there[5]);
        let b2 = s31_32_units(there[8]);
        let sum = a0 * b0 + a1 * b1 + a2 * b2;
        assert(-0x2000_0000_0000 <= sum - 0x1_0000_0000_0000_0000 <= 0x2000_0000_0000) by (nonlinear_arith)
            requires
                sum == a0 * b0 + a1 * b1 + a2 * b2,
                a0 == -0x04a5_87e4,
                b0 == 0x0b16_999f,
                a1 == -0x19bf_89ee,
                b1 == 0x02e8_914e,
                a2 == 0x1_1e65_11d3,
                b2 == 0xe545_b6c3,
        ;
        assert(chained(back, there, 2, 2) == sum);
    }
}

#[verifier::spinoff_prover]
proof fn lemma_back_and_there_0(there: Seq<u64>, back: Seq<u64>, column: int)
    requires
        there == rec709_to_bt2020_matrix(),
        back == bt2020_to_rec709_matrix(),
        0 <= column < 3,
    ensures
        ({
            let one: int = if column == 0 {
                0x1_0000_0000_0000_0000
            } else {
                0
            };
            -0x2000_0000_0000 <= chained(there, back, 0, column) - one <= 0x2000_0000_0000
        }),
{
    lemma_units_there(there);
    lemma_units_back(back);
    let a0 = s31_32_units(there[0]);
    let a1 = s31_32_units(there[1]);
    let a2 = s31_32_units(there[2]);
    if column == 0 {
        let b0 = s31_32_units(back[0]);
        let b1 = s31_32_units(back[3]);
        let b2 = s31_32_units(back[6]);
        let sum = a0 * b0 + a1 * b1 + a2 * b2;
        assert(-0x2000_0000_0000 <= sum - 0x1_0000_0000_0000_0000 <= 0x2000_0000_0000) by (nonlinear_arith)
            requires
                sum == a0 * b0 + a1 * b1 + a2 * b2,
                a0 == 0xa09d_8c6d,
                b0 == 0x1_a915_f02c,
                a1 == 0x544b_d33d,
                b1 == -0x1fe2_8aa4,
                a2 == 0x0b16_999f,
                b2 == -0x04a5_87e4,
        ;
        assert(chained(there, back, 0, 0) == sum);
    } else if column == 1 {
        let b0 = s31_32_units(back[1]);
        let b1 = s31_32_units(back[4]);
        let b2 = s31_32_units(back[7]);
        let sum = a0 * b0 + a1 * b1 + a2 * b2;
        assert(-0x2000_0000_0000 <= sum - 0 <= 0x2000_0000_0000) by (nonlinear_arith)
            requires
                sum == a0 * b0 + a1 * b1 + a2 * b2,
                a0 == 0xa09d_8c6d,
                b0 == -0x966f_a5aa,
                a1 == 0x544b_d33d,
                b1 == 0x1_2205_ba54,
                a2 == 0x0b16_999f,
                b2 == -0x19bf_89ee,
        ;
        assert(chained(there, back, 0, 1) == sum);
    } else {
        let b0 = s31_32_units(back[2]);
        let b1 = s31_32_units(back[5]);
        let b2 = s31_32_units(back[8]);
        let sum = a0 * b0 + a1 * b1 + a2 * b2;
        assert(-0x2000_0000_0000 <= sum - 0 <= 0x2000_0000_0000) by (nonlinear_arith)
            requires
                sum == a0 * b0 + a1 * b1 + a2 * b2,
                a0 == 0xa09d_8c6d,
                b0 == -0x12a6_4a82,
                a1 == 0x544b_d33d,
                b1 == -0x0223_2fb0,
                a2 == 0x0b16_999f,
                b2 == 0x1_1e65_11d3,
        ;
        assert(chained(there, back, 0, 2) == sum);
    }
}

#[verifier::spinoff_prover]
proof fn lemma_back_and_there_1(there: Seq<u64>, back: Seq<u64>, column: int)
    requires
        there == rec709_to_bt2020_matrix(),
        back == bt2020_to_rec709_matrix(),
        0 <= column < 3,
    ensures
        ({
            let one: int = if column == 1 {
                0x1_0000_0000_0000_0000
            } else {
                0
            };
            -0x2000_0000_0000 <= chained(there, back, 1, column) - one <= 0x2000_0000_0000
        }),
{
    lemma_units_there(there);
    lemma_units_back(back);
    let a0 = s31_32_units(there[3]);
    let a1 = s31_32_units(there[4]);
    let a2 = s31_32_units(there[5]);
    if column == 0 {
        let b0 = s31_32_units(back[0]);
        let b1 = s31_32_units(back[3]);
        let b2 = s31_32_units(back[6]);
        let sum = a0 * b0 + a1 * b1 + a2 * b2;
        assert(-0x2000_0000_0000 <= sum - 0 <= 0x2000_0000_0000) by (nonlinear_arith)
            requires
                sum == a0 * b0 + a1 * b1 + a2 * b2,
                a0 == 0x11b0_574b,
                b0 == 0x1_a915_f02c,
                a1 == 0xeb66_f933,
                b1 == -0x1fe2_8aa4,
                a2 == 0x02e8_914e,
                b2 == -0x04a5_87e4,
        ;
        assert(chained(there, back, 1, 0) == sum);
    } else if column == 1 {
        let b0 = s31_32_units(back[1]);
        let b1 = s31_32_units(back[4]);
        let b2 = s31_32_units(back[7]);
        let sum = a0 * b0 + a1 * b1 + a2 * b2;
        assert(-0x2000_0000_0000 <= sum - 0x1_0000_0000_0000_0000 <= 0x2000_0000_0000) by (nonlinear_arith)
            requires
                sum == a0 * b0 + a1 * b1 + a2 * b2,
                a0 == 0x11b0_574b,
                b0 == -0x966f_a5aa,
                a1 == 0xeb66_f933,
                b1 == 0x1_2205_ba54,
                a2 == 0x02e8_914e,
                b2 == -0x19bf_89ee,
        ;
        assert(chained(there, back, 1, 1) == sum);
    } else {
        let b0 = s31_32_units(back[2]);
        let b1 = s31_32_units(back[5]);
        let b2 = s31_32_units(back[8]);
        let sum = a0 * b0 + a1 * b1 + a2 * b2;
        assert(-0x2000_0000_0000 <= sum - 0 <= 0x2000_0000_0000) by (nonlinear_arith)
            requires
                sum == a0 * b0 + a1 * b1 + a2 * b2,
                a0 == 0x11b0_574b,
                b0 == -0x12a6_4a82,
                a1 == 0xeb66_f933,
                b1 == -0x0223_2fb0,
                a2 == 0x02e8_914e,
                b2 == 0x1_1e65_11d3,
        ;
        assert(chained(there, back, 1, 2) == sum);
    }
}

#[verifier::spinoff_prover]
proof fn lemma_back_and_there_2(there: Seq<u64>, back: Seq<u64>, column: int)
    requires
        there == rec709_to_bt2020_matrix(),
        back == bt2020_to_rec709_matrix(),
        0 <= column < 3,
    ensures
        ({
            let one: int = if column == 2 {
                0x1_0000_0000_0000_0000
            } else {
                0
            };
            -0x2000_0000_0000 <= chained(there, back, 2, column) - one <= 0x2000_0000_0000
        }),
{
    lemma_units_there(there);
    lemma_units_back(back);
    let a0 = s31_32_units(there[6]);
    let a1 = s31_32_units(there[7]);
    let a2 = s31_32_units(there[8]);
    if column == 0 {
        let b0 = s31_32_units(back[0]);
        let b1 = s31_32_units(back[3]);
        let b2 = s31_32_units(back[6]);
        let sum = a0 * b0 + a1 * b1 + a2 * b2;
        assert(-0x2000_0000_0000 <= sum - 0 <= 0x2000_0000_0000) by (nonlinear_arith)
            requires
                sum == a0 * b0 + a1 * b1 + a2 * b2,
                a0 == 0x0432_3d6a,
                b0 == 0x1_a915_f02c,
                a1 == 0x1688_0878,
                b1 == -0x1fe2_8aa4,
                a2 == 0xe545_b6c3,
                b2 == -0x04a5_87e4,
        ;
        assert(chained(there, back, 2, 0) == sum);
    } else if column == 1 {
        let b0 = s31_32_units(back[1]);
        let b1 = s31_32_units(back[4]);
        let b2 = s31_32_units(back[7]);
        let sum = a0 * b0 + a1 * b1 + a2 * b2;
        assert(-0x2000_0000_0000 <= sum - 0 <= 0x2000_0000_0000) by (nonlinear_arith)
            requires
                sum == a0 * b0 + a1 * b1 + a2 * b2,
                a0 == 0x0432_3d6a,
                b0 == -0x966f_a5aa,
                a1 == 0x1688_0878,
                b1 == 0x1_2205_ba54,
                a2 == 0xe545_b6c3,
                b2 == -0x19bf_89ee,
        ;
        assert(chained(there, back, 2, 1) == sum);
    } else {
        let b0 = s31_32_units(back[2]);
        let b1 = s31_32_units(back[5]);
        let b2 = s31_32_units(back[8]);
        let sum = a0 * b0 + a1 * b1 + a2 * b2;
        assert(-0x2000_0000_0000 <= sum - 0x1_0000_0000_0000_0000 <= 0x2000_0000_0000) by (nonlinear_arith)
            requires
                sum == a0 * b0 + a1 * b1 + a2 * b2,
                a0 == 0x0432_3d6a,
                b0 == -0x12a6_4a82,
                a1 == 0x1688_0878,
                b1 == -0x0223_2fb0,
                a2 == 0xe545_b6c3,
                b2 == 0x1_1e65_11d3,
        ;
        assert(chained(there, back, 2, 2) == sum);
    }
}

/// The gamut matrices undo each other: a color that is expressed in the other primaries and back
/// comes out as it was, up to two parts in a million.
pub proof fn law_gamut_matrices_are_inverse(row: int, column: int)
    requires
        0 <= row < 3,
        0 <= column < 3,
    ensures
        ({
            let there = rec709_to_bt2020_matrix();
            let back = bt2020_to_rec709_matrix();
            let one: int = if row == column {
                0x1_0000_0000_0000_0000
            } else {
                0
            };
            &&& -0x2000_0000_0000 <= chained(back, there, row, column) - one <= 0x2000_0000_0000
            &&& -0x2000_0000_0000 <= chained(there, back, row, column) - one <= 0x2000_0000_0000
        }),
{
    let there = rec709_to_bt2020_matrix();
    let back = bt2020_to_rec709_matrix();
    if row == 0 {
        lemma_there_and_back_0(there, back, column);
        lemma_back_and_there_0(there, back, column);
    } else if row == 1 {
        lemma_there_and_back_1(there, back, column);
        lemma_back_and_there_1(there, back, column);
    } else {
        lemma_there_and_back_2(there, back, column);
        lemma_back_and_there_2(there, back, column);
    }
}

/// A conversion decodes its contents and encodes for its output: PQ and HLG contents and sRGB
/// contents are decoded by their own curve and linear ones not at all, and outputs that take PQ get
/// PQ and others sRGB. The tables have the sizes that are offered.
pub proof fn law_conversions_decode_and_encode(
    conv: PlaneColorConversion,
    gamma_lut_size: usize,
    degamma_lut_size: usize,
)
    requires
        gamma_lut_size > 0,
    ensures
        ({
            let request = conv.lut_request(gamma_lut_size, degamma_lut_size);
            &&& request.gamma.0 == (if to_bt2020(conv) {
                LutCurve::PqEncode
            } else {
                LutCurve::SrgbEncode
            })
            &&& request.gamma.1 == gamma_lut_size
            &&& request.degamma is Some <==> degamma_lut_size > 0 && !(conv is ScRgbToPq
                || conv is ScRgbToSrgb)
            &&& request.degamma matches Some((curve, size)) ==> size == degamma_lut_size && (conv
                is PqToSrgb <==> curve is PqDecode) && (conv is SrgbToPq
                <==> curve is SrgbDecode) && (conv is HlgToPq || conv is HlgToSrgb
                <==> curve is HlgDecode)
        }),
{
}

} // verus!
