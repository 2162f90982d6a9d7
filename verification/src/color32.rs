//! Colors of four single precision components, kept as bit patterns.

use vstd::prelude::*;

#[allow(unused_imports)]
use crate::softfloat::{f32_equal, f32_product_of};
use crate::softfloat::{f32_eq, f32_product, F32_ONE};
#[allow(unused_imports)]
use crate::nearest::{closest32, finite32, law_single_product_is_closest, units32};
#[allow(unused_imports)]
use crate::softfloat::two_pow;

verus! {

/// A color with pre-multiplied alpha.
#[derive(Debug, Clone, Copy)]
pub struct Color32F {
    pub r: u32,
    pub g: u32,
    pub b: u32,
    pub a: u32,
}

impl PartialEq for Color32F {
    fn eq(&self, other: &Self) -> (r: bool) {
        f32_eq(self.r, other.r) && f32_eq(self.g, other.g) && f32_eq(self.b, other.b) && f32_eq(
            self.a,
            other.a,
        )
    }
}

impl vstd::std_specs::cmp::PartialEqSpecImpl for Color32F {
    open spec fn obeys_eq_spec() -> bool {
        true
    }

    open spec fn eq_spec(&self, other: &Self) -> bool {
        self.equals(*other)
    }
}

impl Color32F {
    /// All components are equal as numbers.
    pub open spec fn equals(self, other: Color32F) -> bool {
        f32_equal(self.r, other.r) && f32_equal(self.g, other.g) && f32_equal(self.b, other.b)
            && f32_equal(self.a, other.a)
    }
}

impl Default for Color32F {
    /// No color at all.
    fn default() -> (color: Self)
        ensures
            color == (Color32F { r: 0, g: 0, b: 0, a: 0 }),
    {
        Color32F { r: 0, g: 0, b: 0, a: 0 }
    }
}

impl From<[u32; 4]> for Color32F {
    fn from(value: [u32; 4]) -> (color: Self) {
        Color32F { r: value[0], g: value[1], b: value[2], a: value[3] }
    }
}

impl vstd::std_specs::convert::FromSpecImpl<[u32; 4]> for Color32F {
    open spec fn obeys_from_spec() -> bool {
        true
    }

    open spec fn from_spec(value: [u32; 4]) -> Color32F {
        Color32F { r: value@[0], g: value@[1], b: value@[2], a: value@[3] }
    }
}

impl Color32F {
    pub fn new(r: u32, g: u32, b: u32, a: u32) -> (color: Self)
        ensures
            color == (Color32F { r, g, b, a }),
    {
        Color32F { r, g, b, a }
    }

    /// No color at all.
    pub fn transparent() -> (color: Self)
        ensures
            color == (Color32F { r: 0, g: 0, b: 0, a: 0 }),
    {
        Color32F { r: 0, g: 0, b: 0, a: 0 }
    }

    pub fn black() -> (color: Self)
        ensures
            color == (Color32F { r: 0, g: 0, b: 0, a: F32_ONE }),
    {
        Color32F { r: 0, g: 0, b: 0, a: F32_ONE }
    }

    pub fn r(&self) -> (v: u32)
        ensures
            v == self.r,
    {
        self.r
    }

    pub fn g(&self) -> (v: u32)
        ensures
            v == self.g,
    {
        self.g
    }

    pub fn b(&self) -> (v: u32)
        ensures
            v == self.b,
    {
        self.b
    }

    pub fn a(&self) -> (v: u32)
        ensures
            v == self.a,
    {
        self.a
    }

    pub fn components(self) -> (c: [u32; 4])
        ensures
            c@ == seq![self.r, self.g, self.b, self.a],
    {
        let c = [self.r, self.g, self.b, self.a];
        assert(c@ =~= seq![self.r, self.g, self.b, self.a]);
        c
    }

    /// Nothing shines through.
    pub fn is_opaque(&self) -> (r: bool)
        ensures
            r == (self.a == F32_ONE),
    {
        self.a == F32_ONE
    }

    /// Every component times a factor, rounded to single precision.
    pub fn times(self, factor: u32) -> (color: Self)
        ensures
            color.r == f32_product_of(self.r, factor),
            color.g == f32_product_of(self.g, factor),
            color.b == f32_product_of(self.b, factor),
            color.a == f32_product_of(self.a, factor),
    {
        Color32F {
            r: f32_product(self.r, factor),
            g: f32_product(self.g, factor),
            b: f32_product(self.b, factor),
            a: f32_product(self.a, factor),
        }
    }
}

/// A color times a factor has every component times it: no single precision value is closer to
/// the product.
pub proof fn law_colors_are_scaled(color: Color32F, factor: u32, r: Color32F)
    requires
        call_ensures(Color32F::times, (color, factor), r),
        finite32(factor),
    ensures
        ({
            let scales = |from: u32, to: u32|
                finite32(from) && finite32(to) ==> closest32(
                    to,
                    units32(from) * units32(factor),
                    two_pow(149) as int,
                );
            scales(color.r, r.r) && scales(color.g, r.g) && scales(color.b, r.b) && scales(
                color.a,
                r.a,
            )
        }),
{
    if finite32(color.r) && finite32(r.r) {
        law_single_product_is_closest(color.r, factor);
    }
    if finite32(color.g) && finite32(r.g) {
        law_single_product_is_closest(color.g, factor);
    }
    if finite32(color.b) && finite32(r.b) {
        law_single_product_is_closest(color.b, factor);
    }
    if finite32(color.a) && finite32(r.a) {
        law_single_product_is_closest(color.a, factor);
    }
}

/// A color is opaque if its alpha is 1; black is opaque and transparent is not.
pub proof fn law_opacity(color: Color32F, r: bool, black: Color32F, transparent: Color32F)
    requires
        call_ensures(Color32F::is_opaque, (&color,), r),
        call_ensures(Color32F::black, (), black),
        call_ensures(Color32F::transparent, (), transparent),
    ensures
        r <==> color.a == 0x3f80_0000,
        black.a == 0x3f80_0000 && black.r == 0 && black.g == 0 && black.b == 0,
        transparent.a == 0 && transparent.r == 0 && transparent.g == 0 && transparent.b == 0,
{
}

} // verus!
