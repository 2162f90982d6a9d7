//! Assignment of a color transform to the operations of a color pipeline.
//!
//! Gains and matrix coefficients are carried as bits of double precision values.

use vstd::prelude::*;

use crate::colorop::{
    ops_view, ColorOp, ColorOpKind, ColorOpModel, ColorPipeline, Curve1DType, KindModel,
};
use crate::softfloat::{
    f64_eq, f64_equal, f64_less, f64_lt, f64_product, f64_product_of, f64_quotient, f64_quotient_of, f64_ratio,
    f64_ratio_of, F64_INFINITY, F64_ONE, F64_SIGN,
};

#[allow(unused_imports)]
use crate::nearest::{
    closest64, finite64, gap, law_product_is_closest, law_product_is_precise, law_product_signs,
    law_quotient_is_closest, law_ratio_is_closest, law_values_are_ordered, lemma_finite_product_bits, lemma_parts64, lemma_sign64, units64,
};
#[allow(unused_imports)]
use crate::softfloat::{
    f64_ratio_below, f64_shift, f64_significand, lemma_two_pow_grows, lemma_two_pow_positive, lemma_two_pow_split,
    lemma_two_pow_values, two_pow,
};

verus! {

/// Bits of 80.0.
pub const F64_80: u64 = 0x4054_0000_0000_0000;

/// Bits of 125.0.
pub const F64_125: u64 = 0x405f_4000_0000_0000;

/// Bits of 1.0 / 125.0.
pub const F64_1_125TH: u64 = 0x3f80_624d_d2f1_a9fc;

/// Bits of the smallest value that differs from 1.0 by less than 1e-9.
pub const NEAR_ONE_MIN: u64 = 0x3fef_ffff_ff76_8fa1;

/// Bits of the largest value that differs from 1.0 by less than 1e-9.
pub const NEAR_ONE_MAX: u64 = 0x3ff0_0000_0044_b82f;

/// A color transform of a plane's pixels: `encode(ctm * (multiplier * decode(pixel)))`. Each
/// stage is optional.
#[derive(Debug, Clone, Copy)]
pub struct ScanoutColorTransform {
    /// The curve that decodes pixels to linear light.
    pub decode: Option<Curve1DType>,
    /// A gain for linear values.
    pub multiplier: u64,
    /// A row-major 3x4 matrix for linear values; the fourth column is an offset.
    pub ctm: Option<[u64; 12]>,
    /// The curve that encodes linear values.
    pub encode: Option<Curve1DType>,
}

impl Default for ScanoutColorTransform {
    fn default() -> (r: Self)
        ensures
            r.identity(),
    {
        ScanoutColorTransform { decode: None, multiplier: F64_ONE, ctm: None, encode: None }
    }
}

impl ScanoutColorTransform {
    /// No stage does anything.
    pub open spec fn identity(self) -> bool {
        self.decode is None && self.multiplier == F64_ONE && self.ctm is None && self.encode is None
    }

    /// Whether this is the identity transform.
    pub fn is_identity(&self) -> (r: bool)
        ensures
            r == self.identity(),
    {
        self.decode.is_none() && self.multiplier == F64_ONE && self.ctm.is_none()
            && self.encode.is_none()
    }

    /// All stages are still to be placed.
    pub open spec fn stages(self) -> Stages {
        Stages {
            decode: self.decode,
            gain: self.multiplier,
            ctm: (match self.ctm {
                Some(m) => Some(m@),
                None => None,
            }),
            encode: self.encode,
        }
    }
}

/// Twelve numbers are equal one by one.
pub open spec fn equal_entries(a: Seq<u64>, b: Seq<u64>) -> bool {
    forall|i: int| 0 <= i < 12 ==> f64_equal(#[trigger] a[i], b[i])
}

fn compare_entries(a: &[u64; 12], b: &[u64; 12]) -> (r: bool)
    ensures
        r == equal_entries(a@, b@),
{
    let mut i: usize = 0;
    while i < 12
        invariant
            i <= 12,
            forall|k: int| 0 <= k < i ==> f64_equal(#[trigger] a@[k], b@[k]),
        decreases 12 - i,
    {
        if !f64_eq(a[i], b[i]) {
            assert(!f64_equal(a@[i as int], b@[i as int]));
            return false;
        }
        i = i + 1;
    }
    true
}

impl PartialEq for ScanoutColorTransform {
    fn eq(&self, other: &Self) -> (r: bool) {
        let same_ctm: bool = match (&self.ctm, &other.ctm) {
            (Some(a), Some(b)) => compare_entries(a, b),
            (None, None) => true,
            _ => false,
        };
        self.decode == other.decode && f64_eq(self.multiplier, other.multiplier) && same_ctm
            && self.encode == other.encode
    }
}

impl vstd::std_specs::cmp::PartialEqSpecImpl for ScanoutColorTransform {
    open spec fn obeys_eq_spec() -> bool {
        true
    }

    open spec fn eq_spec(&self, other: &Self) -> bool {
        self.equals(*other)
    }
}

impl ScanoutColorTransform {
    /// The curves are equal, and gain and matrix as numbers.
    pub open spec fn equals(self, other: ScanoutColorTransform) -> bool {
        &&& self.decode == other.decode
        &&& f64_equal(self.multiplier, other.multiplier)
        &&& match (self.ctm, other.ctm) {
            (Some(a), Some(b)) => equal_entries(a@, b@),
            (None, None) => true,
            _ => false,
        }
        &&& self.encode == other.encode
    }
}

/// How one operation is programmed.
#[derive(Debug, Clone, Copy)]
pub enum OpPlan {
    Bypass,
    /// Select a named curve by its raw value.
    Curve(u64),
    Multiplier(u64),
    Ctm([u64; 12]),
    /// Fill a one dimensional table with `curve(u) * gain`.
    LutDecode { curve: Curve1DType, gain: u64 },
    /// Fill a one dimensional table with the identity.
    LutIdentity,
}

impl PartialEq for OpPlan {
    fn eq(&self, other: &Self) -> (r: bool) {
        match (self, other) {
            (OpPlan::Bypass, OpPlan::Bypass) => true,
            (OpPlan::Curve(a), OpPlan::Curve(b)) => *a == *b,
            (OpPlan::Multiplier(a), OpPlan::Multiplier(b)) => f64_eq(*a, *b),
            (OpPlan::Ctm(a), OpPlan::Ctm(b)) => compare_entries(a, b),
            (OpPlan::LutDecode { curve: a, gain: g }, OpPlan::LutDecode { curve: b, gain: h }) => *a
                == *b && f64_eq(*g, *h),
            (OpPlan::LutIdentity, OpPlan::LutIdentity) => true,
            _ => false,
        }
    }
}

impl vstd::std_specs::cmp::PartialEqSpecImpl for OpPlan {
    open spec fn obeys_eq_spec() -> bool {
        true
    }

    open spec fn eq_spec(&self, other: &Self) -> bool {
        self.equals(*other)
    }
}

impl OpPlan {
    /// The same is programmed, with numbers compared as such.
    pub open spec fn equals(self, other: OpPlan) -> bool {
        match (self, other) {
            (OpPlan::Bypass, OpPlan::Bypass) => true,
            (OpPlan::Curve(a), OpPlan::Curve(b)) => a == b,
            (OpPlan::Multiplier(a), OpPlan::Multiplier(b)) => f64_equal(a, b),
            (OpPlan::Ctm(a), OpPlan::Ctm(b)) => equal_entries(a@, b@),
            (OpPlan::LutDecode { curve: a, gain: g }, OpPlan::LutDecode { curve: b, gain: h }) => a
                == b && f64_equal(g, h),
            (OpPlan::LutIdentity, OpPlan::LutIdentity) => true,
            _ => false,
        }
    }
}

/// Mathematical value of an [`OpPlan`].
#[verifier::ext_equal]
pub enum PlanModel {
    Bypass,
    Curve(u64),
    Multiplier(u64),
    Ctm(Seq<u64>),
    LutDecode { curve: Curve1DType, gain: u64 },
    LutIdentity,
}

impl View for OpPlan {
    type V = PlanModel;

    open spec fn view(&self) -> PlanModel {
        match *self {
            OpPlan::Bypass => PlanModel::Bypass,
            OpPlan::Curve(value) => PlanModel::Curve(value),
            OpPlan::Multiplier(gain) => PlanModel::Multiplier(gain),
            OpPlan::Ctm(m) => PlanModel::Ctm(m@),
            OpPlan::LutDecode { curve, gain } => PlanModel::LutDecode { curve, gain },
            OpPlan::LutIdentity => PlanModel::LutIdentity,
        }
    }
}

pub open spec fn plans_view(plans: Seq<OpPlan>) -> Seq<PlanModel> {
    Seq::new(plans.len(), |i: int| plans[i]@)
}

/// The stages that are not placed on an operation yet.
#[derive(Clone, Copy)]
struct PendingStages {
    decode: Option<Curve1DType>,
    gain: u64,
    ctm: Option<[u64; 12]>,
    encode: Option<Curve1DType>,
}

/// Mathematical value of the stages that are not placed yet.
#[verifier::ext_equal]
pub struct Stages {
    pub decode: Option<Curve1DType>,
    /// A gain that is still to be applied to the decoded values.
    pub gain: u64,
    pub ctm: Option<Seq<u64>>,
    pub encode: Option<Curve1DType>,
}

/// The value differs from 1.0 by less than 1e-9.
pub open spec fn near_one(bits: u64) -> bool {
    NEAR_ONE_MIN <= bits <= NEAR_ONE_MAX
}

/// The value is a number that is not above 1.0.
pub open spec fn at_most_one(bits: u64) -> bool {
    bits <= F64_ONE || F64_SIGN <= bits <= F64_SIGN + F64_INFINITY
}

impl Stages {
    pub open spec fn gain_placed(self) -> bool {
        near_one(self.gain)
    }

    /// Nothing is left to be placed.
    pub open spec fn done(self) -> bool {
        self.decode is None && self.gain_placed() && self.ctm is None && self.encode is None
    }
}

/// One way to program an operation: how, what is left to be placed, and the number of lookup
/// tables that it takes.
#[verifier::ext_equal]
pub struct Choice {
    pub plan: PlanModel,
    pub next: Stages,
    pub cost: nat,
}

/// The value that selects the curve, of the first entry for it.
pub open spec fn curve_value(supported: Seq<(Curve1DType, u64)>, curve: Curve1DType) -> Option<u64>
    decreases supported.len(),
{
    if supported.len() == 0 {
        None
    } else if supported[0].0 == curve {
        Some(supported[0].1)
    } else {
        curve_value(supported.skip(1), curve)
    }
}

pub open spec fn find_curve(
    supported: Seq<(Curve1DType, u64)>,
    curve: Option<Curve1DType>,
) -> Option<u64> {
    match curve {
        Some(curve) => curve_value(supported, curve),
        None => None,
    }
}

/// The 3x4 identity matrix.
pub open spec fn ctm_identity() -> Seq<u64> {
    seq![F64_ONE, 0, 0, 0, 0, F64_ONE, 0, 0, 0, 0, F64_ONE, 0]
}

/// An entry of a matrix times a gain.
#[verifier::opaque]
pub open spec fn scaled_entry(entry: u64, gain: u64) -> u64 {
    f64_product_of(entry, gain) as u64
}

/// The matrix with a gain folded in: the three input columns are scaled, the offset column is
/// not.
pub open spec fn folded(matrix: Seq<u64>, gain: u64) -> Seq<u64> {
    Seq::new(
        12,
        |i: int|
            if i % 4 == 3 {
                matrix[i]
            } else {
                scaled_entry(matrix[i], gain)
            },
    )
}

/// The matrix that takes the pending gain and gamut conversion.
pub open spec fn combined(st: Stages) -> Seq<u64> {
    folded(
        (match st.ctm {
            Some(m) => m,
            None => ctm_identity(),
        }),
        st.gain,
    )
}

/// Bits of the largest value of the curve.
pub open spec fn curve_max(curve: Curve1DType) -> u64 {
    if curve.max_value() == 125 {
        F64_125
    } else {
        F64_ONE
    }
}

/// Placing the decode stage in a lookup table, whose output is limited to `[0, 1]`: the gain is
/// folded in if the decoded range still fits; otherwise the table is normalized and the range
/// stays to be applied.
pub open spec fn lut_decode(st: Stages, curve: Curve1DType) -> Choice {
    let range = f64_product_of(curve_max(curve), st.gain) as u64;
    if at_most_one(range) {
        Choice {
            plan: PlanModel::LutDecode { curve, gain: st.gain },
            next: Stages { decode: None, gain: F64_ONE, ..st },
            cost: 1,
        }
    } else {
        Choice {
            plan: PlanModel::LutDecode {
                curve,
                gain: (if curve.max_value() == 125 {
                    F64_1_125TH
                } else {
                    F64_ONE
                }),
            },
            next: Stages { decode: None, gain: range, ..st },
            cost: 1,
        }
    }
}

pub open spec fn free_choice(plan: PlanModel, next: Stages) -> Choice {
    Choice { plan, next, cost: 0 }
}

/// The choice that places stages on the operation, if there is one.
pub open spec fn placing(op: ColorOpModel, st: Stages) -> Option<Choice> {
    match op.kind {
        KindModel::Curve1D { supported } => match find_curve(supported, st.decode) {
            Some(value) => Some(
                free_choice(PlanModel::Curve(value), Stages { decode: None, ..st }),
            ),
            None => if st.decode is None && st.gain_placed() && st.ctm is None {
                match find_curve(supported, st.encode) {
                    Some(value) => Some(
                        free_choice(PlanModel::Curve(value), Stages { encode: None, ..st }),
                    ),
                    None => None,
                }
            } else {
                None
            },
        },
        KindModel::Multiplier => if st.decode is None && !st.gain_placed() {
            Some(free_choice(PlanModel::Multiplier(st.gain), Stages { gain: F64_ONE, ..st }))
        } else {
            None
        },
        KindModel::Ctm3x4 => if st.decode is None && (st.ctm is Some || !st.gain_placed()) {
            Some(
                free_choice(
                    PlanModel::Ctm(combined(st)),
                    Stages { gain: F64_ONE, ctm: None, ..st },
                ),
            )
        } else {
            None
        },
        KindModel::Lut1D { size, .. } => match st.decode {
            Some(curve) if size >= 2 => Some(lut_decode(st, curve)),
            _ => None,
        },
        _ => None,
    }
}

/// The choice that places nothing on the operation, if there is one: bypassing it, or else
/// programming it to do nothing.
pub open spec fn idle(op: ColorOpModel, st: Stages) -> Option<Choice> {
    if op.bypassable {
        Some(free_choice(PlanModel::Bypass, st))
    } else {
        match op.kind {
            KindModel::Multiplier => Some(free_choice(PlanModel::Multiplier(F64_ONE), st)),
            KindModel::Ctm3x4 => Some(free_choice(PlanModel::Ctm(ctm_identity()), st)),
            KindModel::Lut1D { size, .. } => if size >= 2 {
                Some(Choice { plan: PlanModel::LutIdentity, next: st, cost: 1 })
            } else {
                None
            },
            _ => None,
        }
    }
}

/// The ways to program an operation; placing stages comes first.
pub open spec fn choices(op: ColorOpModel, st: Stages) -> Seq<Choice> {
    let first = match placing(op, st) {
        Some(c) => seq![c],
        None => Seq::empty(),
    };
    match idle(op, st) {
        Some(c) => first.push(c),
        None => first,
    }
}

/// A complete way to program the operations, with the number of lookup tables that it takes.
#[verifier::ext_equal]
pub struct Assignment {
    pub cost: nat,
    pub plans: Seq<PlanModel>,
}

/// The better of two: `old` unless `new` is cheaper.
pub open spec fn better(old: Option<Assignment>, new: Option<Assignment>) -> Option<Assignment> {
    match (old, new) {
        (None, _) => new,
        (_, None) => old,
        (Some(a), Some(b)) => if b.cost < a.cost {
            new
        } else {
            old
        },
    }
}

/// An assignment for the remaining operations, with what was decided for the ones before.
pub open spec fn after(cost: nat, plans: Seq<PlanModel>, rest: Option<Assignment>) -> Option<
    Assignment,
> {
    match rest {
        Some(a) => Some(Assignment { cost: cost + a.cost, plans: plans + a.plans }),
        None => None,
    }
}

/// The cheapest assignment of the stages to the operations; the first one among equals.
pub open spec fn cheapest(ops: Seq<ColorOpModel>, st: Stages) -> Option<Assignment>
    decreases ops.len(), 1nat, 0nat,
{
    if ops.len() == 0 {
        if st.done() {
            Some(Assignment { cost: 0, plans: Seq::empty() })
        } else {
            None
        }
    } else {
        cheapest_of(ops, st, choices(ops[0], st).len())
    }
}

/// The cheapest assignment that starts with one of the first `n` choices.
pub open spec fn cheapest_of(ops: Seq<ColorOpModel>, st: Stages, n: nat) -> Option<Assignment>
    decreases ops.len(), 0nat, n,
{
    if n == 0 || ops.len() == 0 {
        None
    } else {
        let c = choices(ops[0], st)[n - 1];
        better(
            cheapest_of(ops, st, (n - 1) as nat),
            after(c.cost, seq![c.plan], cheapest(ops.skip(1), c.next)),
        )
    }
}

/// Whether the plans are a way to program the operations that places all stages, with the given
/// number of lookup tables.
pub open spec fn works(
    ops: Seq<ColorOpModel>,
    st: Stages,
    plans: Seq<PlanModel>,
    cost: int,
) -> bool
    decreases ops.len(),
{
    if ops.len() == 0 {
        plans.len() == 0 && cost == 0 && st.done()
    } else {
        plans.len() > 0 && exists|i: int|
            0 <= i < choices(ops[0], st).len() && #[trigger] choices(ops[0], st)[i].plan == plans[0]
                && works(
                ops.skip(1),
                choices(ops[0], st)[i].next,
                plans.skip(1),
                cost - choices(ops[0], st)[i].cost,
            )
    }
}

/// The assignment that is found places every stage, programs every operation, and no other one
/// that does so takes fewer lookup tables. None is found only if there is none.
pub proof fn law_cheapest_assignment(
    ops: Seq<ColorOpModel>,
    st: Stages,
    other: Seq<PlanModel>,
    other_cost: int,
)
    ensures
        match cheapest(ops, st) {
            Some(a) => a.plans.len() == ops.len() && works(ops, st, a.plans, a.cost as int),
            None => true,
        },
        works(ops, st, other, other_cost) ==> cheapest(ops, st) is Some && cheapest(ops, st)->0.cost
            <= other_cost,
    decreases ops.len(), 1nat, 0nat,
{
    if ops.len() > 0 {
        law_cheapest_of(ops, st, choices(ops[0], st).len(), other, other_cost);
        if works(ops, st, other, other_cost) {
            let i = choose|i: int|
                0 <= i < choices(ops[0], st).len() && #[trigger] choices(ops[0], st)[i].plan
                    == other[0] && works(
                    ops.skip(1),
                    choices(ops[0], st)[i].next,
                    other.skip(1),
                    other_cost - choices(ops[0], st)[i].cost,
                );
            assert(starts_with(ops, st, other, other_cost, i));
        }
    }
}

/// The plans work and start with choice `i`.
pub open spec fn starts_with(
    ops: Seq<ColorOpModel>,
    st: Stages,
    plans: Seq<PlanModel>,
    cost: int,
    i: int,
) -> bool {
    plans.len() > 0 && choices(ops[0], st)[i].plan == plans[0] && works(
        ops.skip(1),
        choices(ops[0], st)[i].next,
        plans.skip(1),
        cost - choices(ops[0], st)[i].cost,
    )
}

proof fn law_cheapest_of(
    ops: Seq<ColorOpModel>,
    st: Stages,
    n: nat,
    other: Seq<PlanModel>,
    other_cost: int,
)
    requires
        ops.len() > 0,
        n <= choices(ops[0], st).len(),
    ensures
        match cheapest_of(ops, st, n) {
            Some(a) => a.plans.len() == ops.len() && works(ops, st, a.plans, a.cost as int),
            None => true,
        },
        forall|i: int|
            0 <= i < n && #[trigger] starts_with(ops, st, other, other_cost, i) ==> cheapest_of(
                ops,
                st,
                n,
            ) is Some && cheapest_of(ops, st, n)->0.cost <= other_cost,
    decreases ops.len(), 0nat, n,
{
    if n > 0 {
        law_cheapest_of(ops, st, (n - 1) as nat, other, other_cost);
        let c = choices(ops[0], st)[n - 1];
        let rest = cheapest(ops.skip(1), c.next);
        law_cheapest_assignment(ops.skip(1), c.next, other.skip(1), other_cost - c.cost);
        let mine = after(c.cost, seq![c.plan], rest);
        match mine {
            Some(a) => {
                assert(a.plans.skip(1) =~= rest->0.plans);
                assert(a.plans[0] == c.plan);
                assert(choices(ops[0], st)[n - 1].plan == a.plans[0]);
                assert(works(ops, st, a.plans, a.cost as int));
            },
            None => {},
        }
    }
}

/// The number of lookup tables among the plans.
pub open spec fn lut_count(plans: Seq<PlanModel>) -> nat
    decreases plans.len(),
{
    if plans.len() == 0 {
        0
    } else {
        lut_count(plans.skip(1)) + (if plans[0] is LutDecode || plans[0] is LutIdentity {
            1nat
        } else {
            0nat
        })
    }
}

/// What is minimized is the number of lookup tables.
pub proof fn law_cost_is_lut_count(
    ops: Seq<ColorOpModel>,
    st: Stages,
    plans: Seq<PlanModel>,
    cost: int,
)
    requires
        works(ops, st, plans, cost),
    ensures
        cost == lut_count(plans),
    decreases ops.len(),
{
    if ops.len() > 0 {
        let i = choose|i: int|
            0 <= i < choices(ops[0], st).len() && #[trigger] choices(ops[0], st)[i].plan == plans[0]
                && works(
                ops.skip(1),
                choices(ops[0], st)[i].next,
                plans.skip(1),
                cost - choices(ops[0], st)[i].cost,
            );
        law_cost_is_lut_count(
            ops.skip(1),
            choices(ops[0], st)[i].next,
            plans.skip(1),
            cost - choices(ops[0], st)[i].cost,
        );
    }
}

/// Only operations that can be bypassed are.
pub proof fn law_only_bypassable_is_bypassed(
    ops: Seq<ColorOpModel>,
    st: Stages,
    plans: Seq<PlanModel>,
    cost: int,
    k: int,
)
    requires
        works(ops, st, plans, cost),
        0 <= k < ops.len(),
    ensures
        k < plans.len(),
        plans[k] is Bypass ==> ops[k].bypassable,
    decreases ops.len(),
{
    let i = choose|i: int|
        0 <= i < choices(ops[0], st).len() && #[trigger] choices(ops[0], st)[i].plan == plans[0]
            && works(
            ops.skip(1),
            choices(ops[0], st)[i].next,
            plans.skip(1),
            cost - choices(ops[0], st)[i].cost,
        );
    if k > 0 {
        law_only_bypassable_is_bypassed(
            ops.skip(1),
            choices(ops[0], st)[i].next,
            plans.skip(1),
            cost - choices(ops[0], st)[i].cost,
            k - 1,
        );
    }
}

/// A choice never brings a placed stage back, and the stages are placed in order: the gain not
/// before the decode, the matrix after the decode and not before the gain, the encode only after
/// all others.
pub proof fn law_stages_are_placed_in_order(op: ColorOpModel, st: Stages, i: int)
    requires
        0 <= i < choices(op, st).len(),
    ensures
        ({
            let next = choices(op, st)[i].next;
            &&& st.decode is None ==> next.decode is None
            &&& st.ctm is None ==> next.ctm is None
            &&& st.encode is None ==> next.encode is None
            &&& next.gain != st.gain ==> next.decode is None
            &&& next.ctm != st.ctm ==> st.decode is None && next.gain_placed()
            &&& next.encode != st.encode ==> st.decode is None && st.gain_placed() && st.ctm is None
        }),
{
}

/// What operations do to pixels of some kind: a curve, a gain and a matrix.
#[verifier::reject_recursive_types(V)]
pub struct Arithmetic<V> {
    pub curve: spec_fn(Curve1DType, V) -> V,
    pub gain: spec_fn(u64, V) -> V,
    pub matrix: spec_fn(Seq<u64>, V) -> V,
}

impl<V> Arithmetic<V> {
    /// A gain of 1 and the identity matrix change nothing.
    pub open spec fn has_units(self) -> bool {
        &&& forall|v: V| #[trigger] (self.gain)(F64_ONE, v) == v
        &&& forall|v: V| #[trigger] (self.matrix)(ctm_identity(), v) == v
    }

    /// A pixel after the decode, with the gain that is left to be applied. A curve leaves all of
    /// it. A table takes it in, or is normalized and leaves the range of the curve too.
    pub open spec fn decodes(self, st: Stages, pixel: V, decoded: V, left: u64) -> bool {
        match st.decode {
            None => decoded == pixel && left == st.gain,
            Some(curve) => {
                let linear = (self.curve)(curve, pixel);
                let range = f64_product_of(curve_max(curve), st.gain) as u64;
                ||| decoded == linear && left == st.gain
                ||| at_most_one(range) && decoded == (self.gain)(st.gain, linear) && left
                    == F64_ONE
                ||| !at_most_one(range) && curve.max_value() == 125 && decoded == (self.gain)(
                    F64_1_125TH,
                    linear,
                ) && left == range
                ||| !at_most_one(range) && curve.max_value() != 125 && decoded == (self.gain)(
                    F64_ONE,
                    linear,
                ) && left == range
            },
        }
    }

    /// A decoded pixel after gain and matrix: the gain comes first, or is folded into the matrix.
    /// A gain that counts as 1 can be left out where there is no matrix.
    pub open spec fn scales(self, ctm: Option<Seq<u64>>, gain: u64, decoded: V, scaled: V) -> bool {
        match ctm {
            None => {
                ||| near_one(gain) && scaled == decoded
                ||| !near_one(gain) && scaled == (self.gain)(gain, decoded)
                ||| !near_one(gain) && scaled == (self.matrix)(
                    folded(ctm_identity(), gain),
                    decoded,
                )
            },
            Some(m) => {
                ||| scaled == (self.matrix)(folded(m, gain), decoded)
                ||| !near_one(gain) && scaled == (self.matrix)(
                    folded(m, F64_ONE),
                    (self.gain)(gain, decoded),
                )
            },
        }
    }

    /// A pixel after the encode.
    pub open spec fn encoded(self, encode: Option<Curve1DType>, scaled: V) -> V {
        match encode {
            Some(curve) => (self.curve)(curve, scaled),
            None => scaled,
        }
    }

    /// A pixel after the transform that the stages stand for: `encode(ctm * (gain *
    /// decode(pixel)))`.
    pub open spec fn transforms(self, st: Stages, pixel: V, out: V) -> bool {
        exists|decoded: V, left: u64, scaled: V| #[trigger]
            self.decodes(st, pixel, decoded, left) && #[trigger] self.scales(
                st.ctm,
                left,
                decoded,
                scaled,
            ) && out == self.encoded(st.encode, scaled)
    }

    /// What an operation does as it is programmed.
    pub open spec fn operate(self, op: ColorOpModel, plan: PlanModel, pixel: V) -> V {
        match plan {
            PlanModel::Bypass => pixel,
            PlanModel::Curve(value) => match op.kind {
                KindModel::Curve1D { supported } => match selected(supported, value) {
                    Some(curve) => (self.curve)(curve, pixel),
                    None => pixel,
                },
                _ => pixel,
            },
            PlanModel::Multiplier(g) => (self.gain)(g, pixel),
            PlanModel::Ctm(m) => (self.matrix)(m, pixel),
            PlanModel::LutDecode { curve, gain } => (self.gain)(gain, (self.curve)(curve, pixel)),
            PlanModel::LutIdentity => pixel,
        }
    }

    /// What a pipeline does: its operations in their order.
    pub open spec fn run(self, ops: Seq<ColorOpModel>, plans: Seq<PlanModel>, pixel: V) -> V
        decreases ops.len(),
    {
        if ops.len() == 0 || plans.len() == 0 {
            pixel
        } else {
            self.run(ops.skip(1), plans.skip(1), self.operate(ops[0], plans[0], pixel))
        }
    }
}

/// The curve that a raw value selects.
pub open spec fn selected(supported: Seq<(Curve1DType, u64)>, value: u64) -> Option<Curve1DType>
    decreases supported.len(),
{
    if supported.len() == 0 {
        None
    } else if supported[0].1 == value {
        Some(supported[0].0)
    } else {
        selected(supported.skip(1), value)
    }
}

/// Each raw value of a curve operation selects one curve.
pub open spec fn selects_uniquely(op: ColorOpModel) -> bool {
    match op.kind {
        KindModel::Curve1D { supported } => unique_values(supported),
        _ => true,
    }
}

pub open spec fn unique_values(supported: Seq<(Curve1DType, u64)>) -> bool {
    forall|i: int, j: int|
        0 <= i < j < supported.len() && (#[trigger] supported[i]).1 == (#[trigger] supported[j]).1
            ==> supported[i].0 == supported[j].0
}

proof fn lemma_curve_listed(supported: Seq<(Curve1DType, u64)>, curve: Curve1DType)
    requires
        curve_value(supported, curve) is Some,
    ensures
        exists|i: int|
            0 <= i < supported.len() && #[trigger] supported[i] == (
                curve,
                curve_value(supported, curve)->0,
            ),
    decreases supported.len(),
{
    if supported[0].0 == curve {
        assert(supported[0] == (curve, curve_value(supported, curve)->0));
    } else {
        let rest = supported.skip(1);
        lemma_curve_listed(rest, curve);
        let i = choose|i: int|
            0 <= i < rest.len() && #[trigger] rest[i] == (curve, curve_value(rest, curve)->0);
        assert(supported[i + 1] == rest[i]);
    }
}

proof fn lemma_selected(supported: Seq<(Curve1DType, u64)>, curve: Curve1DType)
    requires
        unique_values(supported),
        curve_value(supported, curve) is Some,
    ensures
        selected(supported, curve_value(supported, curve)->0) == Some(curve),
    decreases supported.len(),
{
    let value = curve_value(supported, curve)->0;
    lemma_curve_listed(supported, curve);
    let i = choose|i: int| 0 <= i < supported.len() && #[trigger] supported[i] == (curve, value);
    if supported[0].1 == value {
        if i > 0 {
            assert(supported[0].0 == supported[i].0);
        }
    } else {
        let rest = supported.skip(1);
        assert forall|a: int, b: int|
            0 <= a < b < rest.len() && (#[trigger] rest[a]).1 == (#[trigger] rest[b]).1 implies rest[a].0
            == rest[b].0 by {
            assert(rest[a] == supported[a + 1] && rest[b] == supported[b + 1]);
        }
        assert(supported[0].0 != curve);
        lemma_selected(rest, curve);
    }
}

proof fn lemma_choice_keeps_transform<V>(
    a: Arithmetic<V>,
    op: ColorOpModel,
    st: Stages,
    i: int,
    pixel: V,
    out: V,
)
    requires
        a.has_units(),
        selects_uniquely(op),
        0 <= i < choices(op, st).len(),
        a.transforms(
            choices(op, st)[i].next,
            a.operate(op, choices(op, st)[i].plan, pixel),
            out,
        ),
    ensures
        a.transforms(st, pixel, out),
{
    let c = choices(op, st)[i];
    let moved = a.operate(op, c.plan, pixel);
    let (decoded, left, scaled) = choose|decoded: V, left: u64, scaled: V| #[trigger]
        a.decodes(c.next, moved, decoded, left) && #[trigger] a.scales(
            c.next.ctm,
            left,
            decoded,
            scaled,
        ) && out == a.encoded(c.next.encode, scaled);
    assert(near_one(F64_ONE));
    if placing(op, st) == Some(c) {
        match op.kind {
            KindModel::Curve1D { supported } => {
                if find_curve(supported, st.decode) is Some {
                    lemma_selected(supported, st.decode->0);
                    assert(a.decodes(st, pixel, decoded, left));
                    assert(a.scales(st.ctm, left, decoded, scaled));
                } else {
                    lemma_selected(supported, st.encode->0);
                    assert(a.decodes(st, pixel, pixel, st.gain));
                    assert(a.scales(st.ctm, st.gain, pixel, pixel));
                }
            },
            KindModel::Lut1D { .. } => {
                assert(a.decodes(st, pixel, decoded, left));
                assert(a.scales(st.ctm, left, decoded, scaled));
            },
            _ => {
                assert(a.decodes(st, pixel, pixel, st.gain));
                assert(a.scales(st.ctm, st.gain, pixel, scaled));
            },
        }
    } else {
        assert(idle(op, st) == Some(c));
        assert(a.decodes(st, pixel, decoded, left));
        assert(a.scales(st.ctm, left, decoded, scaled));
    }
}

/// A plan carries its transform out: the operations, programmed by it and run in their order,
/// together do `encode(ctm * (gain * decode(pixel)))`.
pub proof fn law_plans_carry_the_transform_out<V>(
    a: Arithmetic<V>,
    ops: Seq<ColorOpModel>,
    st: Stages,
    plans: Seq<PlanModel>,
    cost: int,
    pixel: V,
)
    requires
        a.has_units(),
        forall|k: int| 0 <= k < ops.len() ==> selects_uniquely(#[trigger] ops[k]),
        works(ops, st, plans, cost),
    ensures
        a.transforms(st, pixel, a.run(ops, plans, pixel)),
    decreases ops.len(),
{
    if ops.len() > 0 {
        let i = choose|i: int|
            0 <= i < choices(ops[0], st).len() && #[trigger] choices(ops[0], st)[i].plan == plans[0]
                && works(
                ops.skip(1),
                choices(ops[0], st)[i].next,
                plans.skip(1),
                cost - choices(ops[0], st)[i].cost,
            );
        let rest = ops.skip(1);
        assert forall|k: int| 0 <= k < rest.len() implies selects_uniquely(#[trigger] rest[k]) by {
            assert(rest[k] == ops[k + 1]);
        }
        let moved = a.operate(ops[0], plans[0], pixel);
        law_plans_carry_the_transform_out(
            a,
            rest,
            choices(ops[0], st)[i].next,
            plans.skip(1),
            cost - choices(ops[0], st)[i].cost,
            moved,
        );
        lemma_choice_keeps_transform(a, ops[0], st, i, pixel, a.run(ops, plans, pixel));
    } else {
        assert(a.decodes(st, pixel, pixel, st.gain));
        assert(a.scales(st.ctm, st.gain, pixel, pixel));
    }
}

/// An identity transform is carried out by bypassing everything, if all operations can be
/// bypassed: no assignment costs anything.
pub proof fn law_identity_costs_nothing(ops: Seq<ColorOpModel>, st: Stages)
    requires
        st.done(),
        forall|k: int| 0 <= k < ops.len() ==> (#[trigger] ops[k]).bypassable,
    ensures
        cheapest(ops, st) is Some,
        cheapest(ops, st)->0.cost == 0,
        forall|k: int|
            0 <= k < ops.len() ==> (#[trigger] cheapest(ops, st)->0.plans[k]) is Bypass,
    decreases ops.len(),
{
    if ops.len() > 0 {
        law_identity_costs_nothing(ops.skip(1), st);
        let all = choices(ops[0], st);
        assert(placing(ops[0], st) is None);
        assert(all =~= seq![free_choice(PlanModel::Bypass, st)]);
        assert(cheapest_of(ops, st, 0) is None);
        assert(cheapest(ops, st) == cheapest_of(ops, st, 1));
        let rest = cheapest(ops.skip(1), st)->0;
        assert(cheapest(ops, st)->0.plans =~= seq![PlanModel::Bypass] + rest.plans);
        law_cheapest_assignment(ops.skip(1), st, rest.plans, 0);
        assert forall|k: int| 0 <= k < ops.len() implies (
        #[trigger] cheapest(ops, st)->0.plans[k]) is Bypass by {
            if k > 0 {
                assert(cheapest(ops, st)->0.plans[k] == rest.plans[k - 1]);
            }
        }
    }
}

impl PendingStages {
    spec fn model(self) -> Stages {
        Stages {
            decode: self.decode,
            gain: self.gain,
            ctm: (match self.ctm {
                Some(m) => Some(m@),
                None => None,
            }),
            encode: self.encode,
        }
    }

    fn gain_placed(&self) -> (r: bool)
        ensures
            r == self.model().gain_placed(),
    {
        NEAR_ONE_MIN <= self.gain && self.gain <= NEAR_ONE_MAX
    }

    fn is_done(&self) -> (r: bool)
        ensures
            r == self.model().done(),
    {
        self.decode.is_none() && self.gain_placed() && self.ctm.is_none() && self.encode.is_none()
    }
}

/// One way to program an operation.
#[derive(Clone, Copy)]
struct OpChoice {
    plan: OpPlan,
    next: PendingStages,
    cost: u32,
}

impl OpChoice {
    spec fn model(self) -> Choice {
        Choice { plan: self.plan@, next: self.next.model(), cost: self.cost as nat }
    }
}

spec fn choices_view(options: Seq<OpChoice>) -> Seq<Choice> {
    Seq::new(options.len(), |i: int| options[i].model())
}

fn find_value(supported: &Vec<(Curve1DType, u64)>, curve: Option<Curve1DType>) -> (r: Option<u64>)
    ensures
        r == find_curve(supported@, curve),
{
    match curve {
        None => None,
        Some(wanted) => {
            let mut i: usize = 0;
            proof {
                assert(supported@.skip(0) =~= supported@);
            }
            while i < supported.len()
                invariant
                    i <= supported@.len(),
                    curve == Some(wanted),
                    curve_value(supported@, wanted) == curve_value(
                        supported@.skip(i as int),
                        wanted,
                    ),
                decreases supported@.len() - i,
            {
                proof {
                    assert(supported@.skip(i as int)[0] == supported@[i as int]);
                    assert(supported@.skip(i as int).skip(1) =~= supported@.skip(i as int + 1));
                }
                if supported[i].0 == wanted {
                    return Some(supported[i].1);
                }
                i = i + 1;
            }
            None
        },
    }
}

fn identity_ctm() -> (r: [u64; 12])
    ensures
        r@ == ctm_identity(),
{
    [F64_ONE, 0, 0, 0, 0, F64_ONE, 0, 0, 0, 0, F64_ONE, 0]
}

fn scale_entry(entry: u64, gain: u64) -> (r: u64)
    ensures
        r == scaled_entry(entry, gain),
{
    reveal(scaled_entry);
    f64_product(entry, gain)
}

fn fold_gain(m: [u64; 12], gain: u64) -> (r: [u64; 12])
    ensures
        r@ == folded(m@, gain),
{
    let r: [u64; 12] = [
        scale_entry(m[0], gain),
        scale_entry(m[1], gain),
        scale_entry(m[2], gain),
        m[3],
        scale_entry(m[4], gain),
        scale_entry(m[5], gain),
        scale_entry(m[6], gain),
        m[7],
        scale_entry(m[8], gain),
        scale_entry(m[9], gain),
        scale_entry(m[10], gain),
        m[11],
    ];
    assert(r@ =~= folded(m@, gain));
    r
}

fn is_at_most_one(bits: u64) -> (r: bool)
    ensures
        r == at_most_one(bits),
{
    bits <= F64_ONE || (bits >= F64_SIGN && bits - F64_SIGN <= F64_INFINITY)
}

fn decode_in_lut(st: PendingStages, curve: Curve1DType) -> (r: OpChoice)
    ensures
        r.model() == lut_decode(st.model(), curve),
        r.cost == 1,
{
    let is_125: bool = curve.output_max() == 125;
    let max: u64 = if is_125 { F64_125 } else { F64_ONE };
    let range: u64 = f64_product(max, st.gain);
    if is_at_most_one(range) {
        OpChoice {
            plan: OpPlan::LutDecode { curve, gain: st.gain },
            next: PendingStages { decode: None, gain: F64_ONE, ctm: st.ctm, encode: st.encode },
            cost: 1,
        }
    } else {
        let gain: u64 = if is_125 { F64_1_125TH } else { F64_ONE };
        OpChoice {
            plan: OpPlan::LutDecode { curve, gain },
            next: PendingStages { decode: None, gain: range, ctm: st.ctm, encode: st.encode },
            cost: 1,
        }
    }
}

fn place_stages(op: &ColorOp, st: PendingStages) -> (r: Option<OpChoice>)
    ensures
        match r {
            Some(c) => placing(op@, st.model()) == Some(c.model()) && c.cost <= 1,
            None => placing(op@, st.model()) is None,
        },
{
    match &op.kind {
        ColorOpKind::Curve1D { supported } => {
            if let Some(value) = find_value(supported, st.decode) {
                return Some(
                    OpChoice {
                        plan: OpPlan::Curve(value),
                        next: PendingStages {
                            decode: None,
                            gain: st.gain,
                            ctm: st.ctm,
                            encode: st.encode,
                        },
                        cost: 0,
                    },
                );
            }
            if st.decode.is_none() && st.gain_placed() && st.ctm.is_none() {
                if let Some(value) = find_value(supported, st.encode) {
                    return Some(
                        OpChoice {
                            plan: OpPlan::Curve(value),
                            next: PendingStages {
                                decode: st.decode,
                                gain: st.gain,
                                ctm: st.ctm,
                                encode: None,
                            },
                            cost: 0,
                        },
                    );
                }
            }
            None
        },
        ColorOpKind::Multiplier => {
            if st.decode.is_none() && !st.gain_placed() {
                Some(
                    OpChoice {
                        plan: OpPlan::Multiplier(st.gain),
                        next: PendingStages {
                            decode: st.decode,
                            gain: F64_ONE,
                            ctm: st.ctm,
                            encode: st.encode,
                        },
                        cost: 0,
                    },
                )
            } else {
                None
            }
        },
        ColorOpKind::Ctm3x4 => {
            if st.decode.is_none() && (st.ctm.is_some() || !st.gain_placed()) {
                let base: [u64; 12] = match st.ctm {
                    Some(m) => m,
                    None => identity_ctm(),
                };
                Some(
                    OpChoice {
                        plan: OpPlan::Ctm(fold_gain(base, st.gain)),
                        next: PendingStages {
                            decode: st.decode,
                            gain: F64_ONE,
                            ctm: None,
                            encode: st.encode,
                        },
                        cost: 0,
                    },
                )
            } else {
                None
            }
        },
        ColorOpKind::Lut1D { size, .. } => {
            match st.decode {
                Some(curve) => {
                    if *size >= 2 {
                        Some(decode_in_lut(st, curve))
                    } else {
                        None
                    }
                },
                None => None,
            }
        },
        _ => None,
    }
}

fn leave_idle(op: &ColorOp, st: PendingStages) -> (r: Option<OpChoice>)
    ensures
        match r {
            Some(c) => idle(op@, st.model()) == Some(c.model()) && c.cost <= 1,
            None => idle(op@, st.model()) is None,
        },
{
    if op.bypassable {
        return Some(OpChoice { plan: OpPlan::Bypass, next: st, cost: 0 });
    }
    match &op.kind {
        ColorOpKind::Multiplier => Some(
            OpChoice { plan: OpPlan::Multiplier(F64_ONE), next: st, cost: 0 },
        ),
        ColorOpKind::Ctm3x4 => Some(
            OpChoice { plan: OpPlan::Ctm(identity_ctm()), next: st, cost: 0 },
        ),
        ColorOpKind::Lut1D { size, .. } => {
            if *size >= 2 {
                Some(OpChoice { plan: OpPlan::LutIdentity, next: st, cost: 1 })
            } else {
                None
            }
        },
        _ => None,
    }
}

/// The ways to program an operation.
fn op_options(op: &ColorOp, st: PendingStages) -> (r: Vec<OpChoice>)
    ensures
        choices_view(r@) == choices(op@, st.model()),
        forall|i: int| 0 <= i < r@.len() ==> (#[trigger] r@[i]).cost <= 1,
{
    let mut r: Vec<OpChoice> = Vec::new();
    if let Some(c) = place_stages(op, st) {
        r.push(c);
    }
    if let Some(c) = leave_idle(op, st) {
        r.push(c);
    }
    assert(choices_view(r@) =~= choices(op@, st.model()));
    r
}

/// A complete plan with its cost.
struct Best {
    cost: u32,
    plans: Vec<OpPlan>,
}

spec fn best_view(best: Option<Best>) -> Option<Assignment> {
    match best {
        Some(b) => Some(Assignment { cost: b.cost as nat, plans: plans_view(b.plans@) }),
        None => None,
    }
}

fn copy_plans(plans: &Vec<OpPlan>) -> (r: Vec<OpPlan>)
    ensures
        r@ == plans@,
{
    let mut r: Vec<OpPlan> = Vec::new();
    let mut i: usize = 0;
    while i < plans.len()
        invariant
            i <= plans@.len(),
            r@ == plans@.take(i as int),
        decreases plans@.len() - i,
    {
        r.push(plans[i]);
        assert(r@ =~= plans@.take(i as int + 1));
        i = i + 1;
    }
    assert(plans@.take(i as int) =~= plans@);
    r
}

proof fn lemma_better_after(
    old: Option<Assignment>,
    cost: nat,
    plans: Seq<PlanModel>,
    c: Choice,
    before: Option<Assignment>,
    rest: Option<Assignment>,
)
    ensures
        better(
            better(old, after(cost, plans, before)),
            after(cost + c.cost, plans.push(c.plan), rest),
        ) == better(old, after(cost, plans, better(before, after(c.cost, seq![c.plan], rest)))),
{
    match rest {
        Some(a) => {
            assert(plans.push(c.plan) + a.plans =~= plans + (seq![c.plan] + a.plans));
        },
        None => {},
    }
}

/// Depth-first search over the ways to program the operations from `at` on, keeping the
/// cheapest complete plan. A branch that cannot be cheaper than the best plan is cut off.
fn plan_ops(
    ops: &Vec<ColorOp>,
    at: usize,
    st: PendingStages,
    cost: u32,
    current: &mut Vec<OpPlan>,
    best: &mut Option<Best>,
)
    requires
        at <= ops@.len(),
        cost <= at,
        ops@.len() < u32::MAX,
    ensures
        final(current)@ == old(current)@,
        best_view(*final(best)) == better(
            best_view(*old(best)),
            after(
                cost as nat,
                plans_view(old(current)@),
                cheapest(ops_view(ops@).skip(at as int), st.model()),
            ),
        ),
    decreases ops@.len() - at,
{
    let ghost start = best_view(*best);
    let ghost prefix = plans_view(current@);
    let ghost rest_ops = ops_view(ops@).skip(at as int);
    if let Some(b) = best {
        if b.cost <= cost {
            return;
        }
    }
    if at == ops.len() {
        if st.is_done() {
            *best = Some(Best { cost, plans: copy_plans(current) });
            assert(prefix + Seq::<PlanModel>::empty() =~= prefix);
        }
        return;
    }
    let op = &ops[at];
    let options = op_options(op, st);
    let ghost entry = current@;
    assert(rest_ops[0] == op@);
    assert(rest_ops.skip(1) =~= ops_view(ops@).skip(at as int + 1));
    let mut i: usize = 0;
    while i < options.len()
        invariant
            i <= options@.len(),
            at < ops@.len(),
            cost <= at,
            ops@.len() < u32::MAX,
            current@ == entry,
            prefix == plans_view(entry),
            rest_ops == ops_view(ops@).skip(at as int),
            rest_ops.len() == ops@.len() - at,
            rest_ops.skip(1) == ops_view(ops@).skip(at as int + 1),
            choices_view(options@) == choices(rest_ops[0], st.model()),
            forall|k: int| 0 <= k < options@.len() ==> (#[trigger] options@[k]).cost <= 1,
            best_view(*best) == better(
                start,
                after(cost as nat, prefix, cheapest_of(rest_ops, st.model(), i as nat)),
            ),
        decreases options@.len() - i,
    {
        let option = options[i];
        let ghost c = option.model();
        assert(choices(rest_ops[0], st.model())[i as int] == c);
        current.push(option.plan);
        assert(plans_view(current@) =~= prefix.push(c.plan));
        plan_ops(ops, at + 1, option.next, cost + option.cost, current, best);
        current.pop();
        assert(current@ =~= entry);
        proof {
            lemma_better_after(
                start,
                cost as nat,
                prefix,
                c,
                cheapest_of(rest_ops, st.model(), i as nat),
                cheapest(rest_ops.skip(1), c.next),
            );
        }
        i = i + 1;
    }
}

impl ScanoutColorTransform {
    /// Finds how to program every operation of the pipeline for this transform: the cheapest
    /// assignment of [`cheapest`].
    pub fn plan(&self, pipeline: &ColorPipeline) -> (r: Option<Vec<OpPlan>>)
        requires
            pipeline.ops@.len() < u32::MAX,
        ensures
            match r {
                Some(plans) => cheapest(pipeline@.ops, self.stages()) is Some && plans_view(plans@)
                    == cheapest(pipeline@.ops, self.stages())->0.plans,
                None => cheapest(pipeline@.ops, self.stages()) is None,
            },
    {
        let st = PendingStages {
            decode: self.decode,
            gain: self.multiplier,
            ctm: self.ctm,
            encode: self.encode,
        };
        let mut best: Option<Best> = None;
        let mut current: Vec<OpPlan> = Vec::new();
        plan_ops(&pipeline.ops, 0, st, 0, &mut current, &mut best);
        proof {
            assert(pipeline@.ops.skip(0) =~= pipeline@.ops);
            assert(plans_view(Seq::<OpPlan>::empty()) =~= Seq::<PlanModel>::empty());
            match cheapest(pipeline@.ops, self.stages()) {
                Some(a) => {
                    assert(Seq::<PlanModel>::empty() + a.plans =~= a.plans);
                },
                None => {},
            }
        }
        match best {
            Some(b) => Some(b.plans),
            None => None,
        }
    }
}

/// An encode that is applied after blending instead of on each plane. The plane then puts out
/// linear light in which 1.0 stands for a maximum.
#[derive(Debug, Clone, Copy)]
pub struct PostBlendEncode {
    /// The curve that encodes the blended values.
    pub encode: Curve1DType,
    /// The linear value that the plane output 1.0 stands for, as bits of a double precision
    /// value.
    pub linear_max: u64,
}

impl PartialEq for PostBlendEncode {
    fn eq(&self, other: &Self) -> (r: bool) {
        self.encode == other.encode && f64_eq(self.linear_max, other.linear_max)
    }
}

impl vstd::std_specs::cmp::PartialEqSpecImpl for PostBlendEncode {
    open spec fn obeys_eq_spec() -> bool {
        true
    }

    open spec fn eq_spec(&self, other: &Self) -> bool {
        self.equals(*other)
    }
}

impl PostBlendEncode {
    /// The curves are equal, and the maxima as numbers.
    pub open spec fn equals(self, other: PostBlendEncode) -> bool {
        self.encode == other.encode && f64_equal(self.linear_max, other.linear_max)
    }
}

impl PostBlendEncode {
    /// The encode for an HDR output with a peak luminance in cd/m2. Linear values are in units of
    /// 80 cd/m2, and the maximum is at least one of them.
    pub fn for_hdr(peak_luminance: u64) -> (r: Self)
        ensures
            r.encode == Curve1DType::Pq125InvEotf,
            r.linear_max == (if f64_less(F64_ONE, f64_ratio_of(peak_luminance, F64_80) as u64) {
                f64_ratio_of(peak_luminance, F64_80)
            } else {
                F64_ONE as int
            }),
    {
        let units: u64 = f64_ratio(peak_luminance, F64_80);
        PostBlendEncode {
            encode: Curve1DType::Pq125InvEotf,
            linear_max: if f64_lt(F64_ONE, units) {
                units
            } else {
                F64_ONE
            },
        }
    }

    /// The transform that is left for the plane: without the encode, and scaled so that the
    /// plane puts out 1.0 at the maximum. None if the transform does not end in this encode.
    pub fn linear_transform(&self, transform: ScanoutColorTransform) -> (r: Option<
        ScanoutColorTransform,
    >)
        ensures
            match r {
                Some(t) => transform.encode == Some(self.encode) && t.stages() == (Stages {
                    gain: f64_ratio_of(transform.multiplier, self.linear_max) as u64,
                    encode: None,
                    ..transform.stages()
                }),
                None => transform.encode != Some(self.encode),
            },
    {
        match transform.encode {
            Some(curve) => {
                if curve == self.encode {
                    Some(
                        ScanoutColorTransform {
                            decode: transform.decode,
                            multiplier: f64_ratio(transform.multiplier, self.linear_max),
                            ctm: transform.ctm,
                            encode: None,
                        },
                    )
                } else {
                    None
                }
            },
            None => None,
        }
    }

    /// The linear values at which the curve is sampled to fill a table of `size` entries.
    pub fn inputs(&self, size: u32) -> (r: Option<Vec<u64>>)
        ensures
            match r {
                Some(inputs) => size >= 2 && inputs@.len() == size && forall|i: int|
                    0 <= i < size ==> #[trigger] inputs@[i] == f64_product_of(
                        f64_quotient_of(i as nat, (size - 1) as nat) as u64,
                        self.linear_max,
                    ),
                None => size < 2,
            },
    {
        if size < 2 {
            return None;
        }
        let mut inputs: Vec<u64> = Vec::new();
        let mut i: u32 = 0;
        while i < size
            invariant
                2 <= size,
                i <= size,
                inputs@.len() == i,
                forall|k: int|
                    0 <= k < i ==> #[trigger] inputs@[k] == f64_product_of(
                        f64_quotient_of(k as nat, (size - 1) as nat) as u64,
                        self.linear_max,
                    ),
            decreases size - i,
        {
            inputs.push(f64_product(f64_quotient(i, size - 1), self.linear_max));
            i = i + 1;
        }
        Some(inputs)
    }
}

/// A matrix whose three input columns are those of another one times a gain, in double precision,
/// and whose offset column is that of the other one.
pub open spec fn scales_inputs(matrix: Seq<u64>, other: Seq<u64>, gain: u64) -> bool {
    &&& matrix.len() == 12
    &&& forall|row: int, column: int|
        0 <= row < 3 && 0 <= column < 3 ==> #[trigger] matrix[4 * row + column] == f64_product_of(
            other[4 * row + column],
            gain,
        ) as u64
    &&& matrix[3] == other[3]
    &&& matrix[7] == other[7]
    &&& matrix[11] == other[11]
}

/// A matrix that puts every input out as it is: its entries are 1 where row and column are the
/// same, and 0 elsewhere.
pub open spec fn does_nothing(matrix: Seq<u64>) -> bool {
    &&& matrix.len() == 12
    &&& forall|row: int, column: int|
        0 <= row < 3 && 0 <= column < 4 ==> units64(#[trigger] matrix[4 * row + column]) == (
        if row == column {
            two_pow(1074) as int
        } else {
            0
        })
}

/// The gamut conversion that is pending.
pub open spec fn conversion(ctm: Option<Seq<u64>>) -> Seq<u64> {
    match ctm {
        Some(m) => m,
        None => ctm_identity(),
    }
}

proof fn lemma_one()
    ensures
        units64(F64_ONE) == two_pow(1074),
        units64(0) == 0,
        does_nothing(ctm_identity()),
{
    lemma_two_pow_values();
    lemma_two_pow_split(52, 1022);
    assert(units64(F64_ONE) == 0x10_0000_0000_0000 * two_pow(1022));
    assert(units64(0) == 0);
}

/// A matrix operation takes the pending gamut conversion and gain at once: every input is scaled
/// before it is converted, and offsets are not. The matrix has the products of its entries and
/// the gain, no double precision value being closer to them. With nothing to take it passes pixels
/// on as they are.
pub proof fn law_matrix_takes_the_gain(op: ColorOpModel, st: Stages, i: int)
    requires
        0 <= i < choices(op, st).len(),
        choices(op, st)[i].plan is Ctm,
    ensures
        ({
            let r = choices(op, st)[i].plan->Ctm_0;
            let next = choices(op, st)[i].next;
            ||| {
                &&& scales_inputs(r, conversion(st.ctm), st.gain)
                &&& st.ctm is None ==> does_nothing(conversion(st.ctm))
                &&& units64(next.gain) == two_pow(1074)
                &&& next.ctm is None
                &&& st.decode is None && next.decode is None
                &&& next.encode == st.encode
                &&& forall|row: int, column: int|
                    0 <= row < 3 && 0 <= column < 3 && finite64(#[trigger] r[4 * row + column])
                        && finite64(conversion(st.ctm)[4 * row + column]) && finite64(st.gain)
                        ==> closest64(
                        r[4 * row + column],
                        units64(conversion(st.ctm)[4 * row + column]) * units64(st.gain),
                        two_pow(1074) as int,
                    )
            }
            ||| does_nothing(r) && next == st
        }),
{
    reveal(scaled_entry);
    lemma_one();
    let c = choices(op, st)[i];
    let r = c.plan->Ctm_0;
    let base = conversion(st.ctm);
    if placing(op, st) == Some(c) {
        assert(scales_inputs(r, base, st.gain));
        assert forall|row: int, column: int|
            0 <= row < 3 && 0 <= column < 3 && finite64(#[trigger] r[4 * row + column])
                && finite64(base[4 * row + column]) && finite64(st.gain) implies closest64(
            r[4 * row + column],
            units64(base[4 * row + column]) * units64(st.gain),
            two_pow(1074) as int,
        ) by {
            law_product_is_closest(base[4 * row + column], st.gain);
        }
    } else {
        assert(idle(op, st) == Some(c));
    }
}

/// A finite value that differs from 1 by less than a billionth.
pub open spec fn about_one(bits: u64) -> bool {
    finite64(bits) && gap(units64(bits), two_pow(1074) as int) * 1_000_000_000 < two_pow(1074)
}

/// A gain counts as 1 exactly if it differs from 1 by less than a billionth.
pub proof fn law_near_one(bits: u64)
    ensures
        near_one(bits) <==> about_one(bits),
{
    let unit = two_pow(1021) as int;
    lemma_two_pow_positive(1021);
    lemma_two_pow_values();
    lemma_two_pow_split(53, 1021);
    let one = two_pow(1074) as int;
    assert(one == 0x20_0000_0000_0000 * unit);
    assert(two_pow(1022) == 2 * unit);
    if bits < F64_INFINITY {
        let e = bits / 0x10_0000_0000_0000;
        let m = bits % 0x10_0000_0000_0000 + 0x10_0000_0000_0000;
        if e == 1022 {
            assert(units64(bits) == m * unit);
            let d = 0x20_0000_0000_0000 - m;
            assert(one - m * unit == d * unit) by (nonlinear_arith)
                requires
                    one == 0x20_0000_0000_0000 * unit,
                    d == 0x20_0000_0000_0000 - m,
            ;
            lemma_below_a_billionth(d, unit);
        } else if e == 1023 {
            assert(units64(bits) == m * two_pow(1022));
            let d = 2 * m - 0x20_0000_0000_0000;
            assert(m * two_pow(1022) - one == d * unit) by (nonlinear_arith)
                requires
                    one == 0x20_0000_0000_0000 * unit,
                    two_pow(1022) == 2 * unit,
                    d == 2 * m - 0x20_0000_0000_0000,
            ;
            lemma_below_a_billionth(d, unit);
        } else if e < 1022 {
            lemma_parts64(bits);
            let up = (1074 - f64_shift(bits)) as nat;
            lemma_two_pow_grows(up, 1020);
            assert(two_pow(1021) == 2 * two_pow(1020));
            assert(2 * units64(bits) <= one) by (nonlinear_arith)
                requires
                    units64(bits) == f64_significand(bits) * two_pow(up),
                    f64_significand(bits) < 0x20_0000_0000_0000,
                    2 * two_pow(up) <= unit,
                    one == 0x20_0000_0000_0000 * unit,
            ;
        } else {
            lemma_parts64(bits);
            let up = (1074 - f64_shift(bits)) as nat;
            lemma_two_pow_grows(1023, up);
            assert(two_pow(1023) == 2 * two_pow(1022));
            assert(units64(bits) >= 2 * one) by (nonlinear_arith)
                requires
                    units64(bits) == f64_significand(bits) * two_pow(up),
                    f64_significand(bits) >= 0x10_0000_0000_0000,
                    two_pow(up) >= 4 * unit,
                    one == 0x20_0000_0000_0000 * unit,
            ;
        }
    } else if bits >= F64_SIGN && finite64(bits) {
        lemma_sign64(bits);
        lemma_parts64((bits - F64_SIGN) as u64);
        let b = (bits - F64_SIGN) as u64;
        assert(f64_significand(b) * two_pow((1074 - f64_shift(b)) as nat) >= 0) by (nonlinear_arith);
        assert(units64(bits) <= 0);
    }
}

proof fn lemma_below_a_billionth(d: int, unit: int)
    requires
        unit >= 1,
        d >= 0,
    ensures
        (d * unit) * 1_000_000_000 < 0x20_0000_0000_0000 * unit <==> d <= 9_007_199,
{
    if d <= 9_007_199 {
        assert((d * unit) * 1_000_000_000 < 0x20_0000_0000_0000 * unit) by (nonlinear_arith)
            requires
                d * 1_000_000_000 < 0x20_0000_0000_0000,
                unit >= 1,
        ;
    } else {
        assert((d * unit) * 1_000_000_000 >= 0x20_0000_0000_0000 * unit) by (nonlinear_arith)
            requires
                d * 1_000_000_000 >= 0x20_0000_0000_0000,
                unit >= 1,
        ;
    }
}

/// The largest value of a curve: 125 for PQ, whose 1 is 80 cd/m2, and 1 for others.
pub open spec fn largest(curve: Curve1DType) -> u64 {
    if curve == Curve1DType::Pq125Eotf {
        F64_125
    } else {
        F64_ONE
    }
}

pub open spec fn inverse_of_largest(curve: Curve1DType) -> u64 {
    if curve == Curve1DType::Pq125Eotf {
        F64_1_125TH
    } else {
        F64_ONE
    }
}

impl<V> Arithmetic<V> {
    /// A gain that counts as 1 changes nothing, and scaling the inputs of the conversion is the
    /// same as scaling the pixel.
    pub open spec fn takes(self, ctm: Option<Seq<u64>>, gain: u64) -> bool {
        &&& about_one(gain) ==> forall|v: V| #[trigger] (self.gain)(gain, v) == v
        &&& forall|m: Seq<u64>, v: V|
            scales_inputs(m, conversion(ctm), gain) ==> #[trigger] (self.matrix)(m, v) == (
            self.matrix)(conversion(ctm), (self.gain)(gain, v))
    }

    /// A decoded range that a table cannot hold is made up for by the gain that is left, where
    /// the table has the inverse of the largest value folded in.
    pub open spec fn makes_up(self, curve: Curve1DType, gain: u64) -> bool {
        forall|v: V| #[trigger]
            (self.gain)(
                f64_product_of(largest(curve), gain) as u64,
                (self.gain)(inverse_of_largest(curve), v),
            ) == (self.gain)(
                gain,
                v,
            )
    }

    /// The gains that can come up for the stages are free of rounding.
    pub open spec fn exact_for(self, st: Stages) -> bool {
        &&& self.takes(None, F64_ONE)
        &&& self.takes(st.ctm, F64_ONE)
        &&& self.takes(st.ctm, st.gain)
        &&& match st.decode {
            Some(curve) => self.makes_up(curve, st.gain) && self.takes(
                st.ctm,
                f64_product_of(largest(curve), st.gain) as u64,
            ),
            None => true,
        }
    }

    /// What the stages stand for: `encode(ctm * (gain * decode(pixel)))`.
    pub open spec fn ideal(self, st: Stages, pixel: V) -> V {
        let linear = match st.decode {
            Some(curve) => (self.curve)(curve, pixel),
            None => pixel,
        };
        let scaled = (self.gain)(st.gain, linear);
        let converted = match st.ctm {
            Some(m) => (self.matrix)(m, scaled),
            None => scaled,
        };
        match st.encode {
            Some(curve) => (self.curve)(curve, converted),
            None => converted,
        }
    }
}

/// The plan that is found computes the transform: the operations, programmed by it and run in
/// their order, put out `encode(ctm * (gain * decode(pixel)))` for every pixel, where the gains
/// that come up are free of rounding.
pub proof fn law_plan_computes_the_transform<V>(
    a: Arithmetic<V>,
    ops: Seq<ColorOpModel>,
    st: Stages,
    pixel: V,
)
    requires
        a.has_units(),
        a.exact_for(st),
        forall|k: int| 0 <= k < ops.len() ==> selects_uniquely(#[trigger] ops[k]),
        cheapest(ops, st) is Some,
    ensures
        cheapest(ops, st)->0.plans.len() == ops.len(),
        a.run(ops, cheapest(ops, st)->0.plans, pixel) == a.ideal(st, pixel),
{
    law_cheapest_assignment(ops, st, Seq::empty(), 0);
    let best = cheapest(ops, st)->0;
    lemma_plans_compute(a, ops, st, best.plans, best.cost as int, pixel);
}

proof fn lemma_plans_compute<V>(
    a: Arithmetic<V>,
    ops: Seq<ColorOpModel>,
    st: Stages,
    plans: Seq<PlanModel>,
    cost: int,
    pixel: V,
)
    requires
        a.has_units(),
        a.exact_for(st),
        forall|k: int| 0 <= k < ops.len() ==> selects_uniquely(#[trigger] ops[k]),
        works(ops, st, plans, cost),
    ensures
        a.run(ops, plans, pixel) == a.ideal(st, pixel),
    decreases ops.len(),
{
    if ops.len() > 0 {
        let i = choose|i: int|
            0 <= i < choices(ops[0], st).len() && #[trigger] choices(ops[0], st)[i].plan == plans[0]
                && works(
                ops.skip(1),
                choices(ops[0], st)[i].next,
                plans.skip(1),
                cost - choices(ops[0], st)[i].cost,
            );
        let rest = ops.skip(1);
        assert forall|k: int| 0 <= k < rest.len() implies selects_uniquely(#[trigger] rest[k]) by {
            assert(rest[k] == ops[k + 1]);
        }
        let next = choices(ops[0], st)[i].next;
        let moved = a.operate(ops[0], plans[0], pixel);
        lemma_choice_computes(a, ops[0], st, i, pixel);
        lemma_plans_compute(
            a,
            rest,
            next,
            plans.skip(1),
            cost - choices(ops[0], st)[i].cost,
            moved,
        );
    } else {
        law_near_one(st.gain);
    }
}

/// An operation does what its choice places on it, and leaves the rest.
proof fn lemma_choice_computes<V>(
    a: Arithmetic<V>,
    op: ColorOpModel,
    st: Stages,
    i: int,
    pixel: V,
)
    requires
        a.has_units(),
        a.exact_for(st),
        selects_uniquely(op),
        0 <= i < choices(op, st).len(),
    ensures
        a.exact_for(choices(op, st)[i].next),
        a.ideal(choices(op, st)[i].next, a.operate(op, choices(op, st)[i].plan, pixel)) == a.ideal(
            st,
            pixel,
        ),
{
    let c = choices(op, st)[i];
    law_near_one(st.gain);
    law_near_one(F64_ONE);
    if placing(op, st) == Some(c) {
        match op.kind {
            KindModel::Curve1D { supported } => {
                if find_curve(supported, st.decode) is Some {
                    lemma_selected(supported, st.decode->0);
                } else {
                    lemma_selected(supported, st.encode->0);
                }
            },
            KindModel::Ctm3x4 => {
                reveal(scaled_entry);
                let m = combined(st);
                assert(scales_inputs(m, conversion(st.ctm), st.gain));
                assert((a.matrix)(m, pixel) == (a.matrix)(
                    conversion(st.ctm),
                    (a.gain)(st.gain, pixel),
                ));
            },
            KindModel::Lut1D { .. } => {
                let curve = st.decode->0;
                let linear = (a.curve)(curve, pixel);
                let range = f64_product_of(largest(curve), st.gain) as u64;
                assert(curve_max(curve) == largest(curve));
                if !at_most_one(range) {
                    assert((a.gain)(range, (a.gain)(inverse_of_largest(curve), linear)) == (a.gain)(
                        st.gain,
                        linear,
                    ));
                }
            },
            _ => {},
        }
    } else {
        assert(idle(op, st) == Some(c));
    }
}

/// A table never has to hold more than 1: what it puts out at the end of its curve is at most 1,
/// up to one part in `2^52`. Where the decoded range is too large for it, the table is filled with
/// the curve as a fraction of its largest value, which is 125 for PQ and 1 for the others.
pub proof fn law_tables_hold_the_range(op: ColorOpModel, st: Stages, i: int)
    requires
        0 <= i < choices(op, st).len(),
        choices(op, st)[i].plan is LutDecode,
    ensures
        ({
            let curve = choices(op, st)[i].plan->LutDecode_curve;
            let gain = choices(op, st)[i].plan->LutDecode_gain;
            let next = choices(op, st)[i].next;
            let max: int = if curve == Curve1DType::Pq125Eotf {
                125
            } else {
                1
            };
            &&& st.decode == Some(curve)
            &&& next.decode is None && next.ctm == st.ctm && next.encode == st.encode
            &&& gain == st.gain && units64(next.gain) == two_pow(1074) || gap(
                units64(gain) * max,
                two_pow(1074) as int,
            ) * 0x10_0000_0000_0000 <= two_pow(1074)
            &&& gain < F64_INFINITY ==> (units64(gain) * max - two_pow(1074)) * 0x10_0000_0000_0000
                <= two_pow(1074)
        }),
{
    lemma_one();
    lemma_range_constants();
    let curve = st.decode->0;
    let gain = choices(op, st)[i].plan->LutDecode_gain;
    let one = two_pow(1074) as int;
    lemma_two_pow_positive(1074);
    let range = f64_product_of(curve_max(curve), st.gain) as u64;
    if at_most_one(range) {
        if gain < F64_INFINITY {
            lemma_parts64(gain);
            let max: int = if curve == Curve1DType::Pq125Eotf {
                125
            } else {
                1
            };
            let u = units64(gain);
            assert(units64(curve_max(curve)) == max * one);
            assert((max * one) * u == (u * max) * one) by (nonlinear_arith);
            if u * max > one {
                lemma_two_pow_grows(52, 1074);
                lemma_two_pow_values();
                assert(0x10_0000_0000_0000 * one <= (u * max) * one) by (nonlinear_arith)
                    requires
                        u * max > one,
                        one >= 0x10_0000_0000_0000,
                ;
                lemma_finite_product_bits(curve_max(curve), gain);
                law_product_signs(curve_max(curve), gain);
                law_at_most_one(range);
                assert(finite64(range));
                law_product_is_precise(curve_max(curve), gain);
                let p = units64(range);
                assert(p <= one);
                let x = u * max;
                assert((x - one) * 0x10_0000_0000_0000 <= one) by (nonlinear_arith)
                    requires
                        gap(p * one, x * one) * 0x20_0000_0000_0000 <= x * one,
                        gap(p * one, x * one) >= x * one - p * one,
                        p <= one,
                        one >= 1,
                        x > one,
                ;
            }
        }
    }
}

proof fn lemma_range_constants()
    ensures
        units64(F64_125) == 125 * two_pow(1074),
        units64(F64_80) == 80 * two_pow(1074),
        gap(units64(F64_1_125TH) * 125, two_pow(1074) as int) * 0x20_0000_0000_0000 <= two_pow(
            1074,
        ),
{
    lemma_two_pow_values();
    lemma_two_pow_split(46, 1028);
    lemma_two_pow_split(59, 1015);
    lemma_two_pow_split(53, 6);
    lemma_two_pow_split(32, 14);
    lemma_two_pow_split(16, 16);
    reveal_with_fuel(two_pow, 17);
    assert(two_pow(6) == 64 && two_pow(14) == 16384 && two_pow(16) == 0x1_0000);
    assert(two_pow(1074) == 0x4000_0000_0000 * two_pow(1028));
    assert(units64(F64_125) == 0x1f_4000_0000_0000 * two_pow(1028));
    assert(units64(F64_80) == 0x14_0000_0000_0000 * two_pow(1028));
    assert(two_pow(1074) == 0x800_0000_0000_0000 * two_pow(1015));
    assert(units64(F64_1_125TH) == 0x10_624d_d2f1_a9fc * two_pow(1015));
}

/// What counts as at most 1 is a number, negative infinity included, that is not above 1.
pub proof fn law_at_most_one(bits: u64)
    ensures
        finite64(bits) ==> (at_most_one(bits) <==> units64(bits) <= two_pow(1074)),
        !finite64(bits) ==> (at_most_one(bits) <==> bits == F64_SIGN + F64_INFINITY),
{
    lemma_one();
    lemma_two_pow_positive(1074);
    if finite64(bits) {
        if bits < F64_SIGN {
            if bits < F64_ONE {
                law_values_are_ordered(bits, F64_ONE);
            } else if bits > F64_ONE {
                law_values_are_ordered(F64_ONE, bits);
            }
        } else {
            let b = (bits - F64_SIGN) as u64;
            lemma_sign64(bits);
            lemma_parts64(b);
            assert(f64_significand(b) * two_pow((1074 - f64_shift(b)) as nat) >= 0)
                by (nonlinear_arith);
        }
    }
}

/// The encode of an HDR output: PQ, and 1 stands for the peak luminance in units of 80 cd/m2, for
/// at least one of them.
pub proof fn law_post_blend_scale(peak_luminance: u64, r: PostBlendEncode)
    requires
        peak_luminance < F64_INFINITY,
        call_ensures(PostBlendEncode::for_hdr, (peak_luminance,), r),
        finite64(r.linear_max),
    ensures
        r.encode == Curve1DType::Pq125InvEotf,
        units64(r.linear_max) >= two_pow(1074),
        units64(r.linear_max) == two_pow(1074) || closest64(
            r.linear_max,
            units64(peak_luminance) * two_pow(1074),
            80 * two_pow(1074) as int,
        ),
        units64(peak_luminance) > 160 * two_pow(1074) ==> units64(r.linear_max) > two_pow(1074),
{
    lemma_one();
    lemma_range_constants();
    lemma_two_pow_positive(1074);
    let q = f64_ratio_of(peak_luminance, F64_80) as u64;
    let one = two_pow(1074) as int;
    lemma_ratio_bits(peak_luminance, F64_80);
    if f64_less(F64_ONE, q) {
        law_ratio_is_closest(peak_luminance, F64_80);
        law_values_are_ordered(F64_ONE, q);
    } else if units64(peak_luminance) > 160 * one {
        law_ratio_is_closest(peak_luminance, F64_80);
        if q < F64_ONE {
            law_values_are_ordered(q, F64_ONE);
        }
        let two: u64 = 0x4000_0000_0000_0000;
        lemma_two_pow_values();
        lemma_two_pow_split(52, 1023);
        assert(units64(two) == 2 * one);
        let (p, d) = (units64(peak_luminance), 80 * one);
        assert(gap(units64(q) * d, p * one) <= gap(units64(two) * d, p * one));
        assert(false) by (nonlinear_arith)
            requires
                gap(units64(q) * d, p * one) <= gap((2 * one) * d, p * one),
                units64(q) <= one,
                d == 80 * one,
                p > 160 * one,
                one >= 1,
        ;
    }
}

proof fn lemma_ratio_bits(a: u64, b: u64)
    requires
        a < F64_INFINITY,
        0 < b < F64_INFINITY,
    ensures
        0 <= f64_ratio_of(a, b) <= F64_INFINITY,
{
    if a > 0 {
        let below = f64_ratio_below(a, b);
        let drop = if below > 0 {
            below
        } else {
            0
        };
        assert((drop - below) * 0x10_0000_0000_0000 >= 0);
    }
}

/// The plane and the encode after blending share a transform out: what is left for the plane has
/// the same decode and gamut conversion and no encode, its gain is the gain over the value that 1
/// stands for, and no double precision value is closer to that.
pub proof fn law_linear_transform(
    post: PostBlendEncode,
    transform: ScanoutColorTransform,
    r: Option<ScanoutColorTransform>,
)
    requires
        call_ensures(PostBlendEncode::linear_transform, (&post, transform), r),
    ensures
        r is Some <==> transform.encode == Some(post.encode),
        r matches Some(t) ==> {
            &&& t.encode is None
            &&& t.decode == transform.decode
            &&& t.ctm is Some <==> transform.ctm is Some
            &&& t.ctm is Some ==> t.ctm->0@ == transform.ctm->0@
            &&& finite64(transform.multiplier) && finite64(t.multiplier) && post.linear_max
                < F64_INFINITY && units64(post.linear_max) > 0 ==> closest64(
                t.multiplier,
                units64(transform.multiplier) * two_pow(1074),
                units64(post.linear_max),
            )
        },
{
    match r {
        Some(t) => {
            assert(t.stages().decode == transform.decode);
            assert(t.stages().gain == t.multiplier);
            assert(t.stages().ctm == transform.stages().ctm);
            if finite64(transform.multiplier) && finite64(t.multiplier) && post.linear_max
                < F64_INFINITY && units64(post.linear_max) > 0 {
                law_ratio_is_closest(transform.multiplier, post.linear_max);
            }
        },
        None => {},
    }
}

/// The table of the encode after blending is sampled evenly from 0 to the value that 1 stands
/// for.
pub proof fn law_encode_is_sampled_evenly(
    post: PostBlendEncode,
    size: u32,
    r: Option<Vec<u64>>,
    i: int,
)
    requires
        call_ensures(PostBlendEncode::inputs, (&post, size), r),
        r is Some,
        0 <= i < size,
        finite64(post.linear_max),
        finite64(r->0@[i]),
    ensures
        r->0@.len() == size,
        exists|part: u64|
            #![trigger units64(part)]
            closest64(part, i * two_pow(1074), size - 1) && closest64(
                r->0@[i],
                units64(part) * units64(post.linear_max),
                two_pow(1074) as int,
            ),
{
    let part = f64_quotient_of(i as nat, (size - 1) as nat) as u64;
    law_quotient_is_closest(i as nat, (size - 1) as nat);
    law_product_is_closest(part, post.linear_max);
    let found = r->0@[i];
    assert(closest64(part, i * two_pow(1074), size - 1) && closest64(
        found,
        units64(part) * units64(post.linear_max),
        two_pow(1074) as int,
    ));
}

} // verus!
