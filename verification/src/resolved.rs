//! Property values that program a color pipeline.

use vstd::prelude::*;

use crate::colorop::{prop_named, ColorOp, ColorOpKind, ColorOpModel, ColorPipeline, Curve1DType, KindModel};
use crate::plan::{plans_view, OpPlan, PlanModel};
use crate::softfloat::{
    f64_product, f64_product_of, f64_quotient, f64_quotient_of, s31_32_saturated, to_s31_32,
    to_unorm16, to_unorm32, unorm_of_f64, F64_NAN,
};
#[allow(unused_imports)]
use crate::nearest::{
    finite64, gap, law_normalized_integers_are_nearest, law_s31_32_is_limited, limited_s31_32,
    units64,
};
#[allow(unused_imports)]
use crate::softfloat::{lemma_unorm_bound, two_pow};

verus! {

/// Object, property handle and value.
pub type PropValue = (u32, u32, u64);

/// What has to be put into a property blob for an operation.
#[derive(Debug, Clone, Copy)]
pub enum BlobRequest {
    /// Nothing.
    Nothing,
    /// The matrix in S31.32 format (`struct drm_color_ctm_3x4`).
    Matrix([u64; 12]),
    /// A table of `curve(u) * gain` at `size` evenly spaced inputs; the identity without a curve.
    Table { curve: Option<(Curve1DType, u64)>, size: u32 },
    /// The operation takes no table.
    Impossible,
}

pub open spec fn needs_blob(plan: PlanModel) -> bool {
    plan is Ctm || plan is LutDecode || plan is LutIdentity
}

/// A table can only be put on an operation that is one.
pub open spec fn takes_plan(op: ColorOpModel, plan: PlanModel) -> bool {
    plan is LutDecode || plan is LutIdentity ==> op.kind is Lut1D
}

/// The matrix in S31.32 format.
pub fn ctm_words(matrix: &[u64; 12]) -> (r: [u64; 12])
    ensures
        forall|i: int| 0 <= i < 12 ==> #[trigger] r@[i] == s31_32_saturated(matrix@[i]),
{
    [
        to_s31_32(matrix[0]),
        to_s31_32(matrix[1]),
        to_s31_32(matrix[2]),
        to_s31_32(matrix[3]),
        to_s31_32(matrix[4]),
        to_s31_32(matrix[5]),
        to_s31_32(matrix[6]),
        to_s31_32(matrix[7]),
        to_s31_32(matrix[8]),
        to_s31_32(matrix[9]),
        to_s31_32(matrix[10]),
        to_s31_32(matrix[11]),
    ]
}

/// Bits of the inputs that the entries of a table stand for. The only entry of a table of one
/// stands for nothing in particular.
pub open spec fn table_input(i: int, size: int) -> int {
    if size == 1 {
        F64_NAN as int
    } else {
        f64_quotient_of(i as nat, (size - 1) as nat)
    }
}

/// See [`table_input`]: the inputs at which a curve is sampled to fill a table.
pub fn lut_inputs(size: u32) -> (inputs: Vec<u64>)
    ensures
        inputs@.len() == size,
        forall|i: int| 0 <= i < size ==> #[trigger] inputs@[i] == table_input(i, size as int),
{
    let mut inputs: Vec<u64> = Vec::new();
    let mut i: u32 = 0;
    while i < size
        invariant
            i <= size,
            inputs@.len() == i,
            forall|k: int| 0 <= k < i ==> #[trigger] inputs@[k] == table_input(k, size as int),
        decreases size - i,
    {
        if size == 1 {
            inputs.push(F64_NAN);
        } else {
            inputs.push(f64_quotient(i, size - 1));
        }
        i = i + 1;
    }
    inputs
}

/// The values of a curve, each times a gain.
pub fn with_gain(values: &Vec<u64>, gain: u64) -> (scaled: Vec<u64>)
    ensures
        scaled@.len() == values@.len(),
        forall|i: int|
            0 <= i < values@.len() ==> #[trigger] scaled@[i] == f64_product_of(values@[i], gain),
{
    let mut scaled: Vec<u64> = Vec::new();
    let mut i: usize = 0;
    while i < values.len()
        invariant
            i <= values@.len(),
            scaled@.len() == i,
            forall|k: int|
                0 <= k < i ==> #[trigger] scaled@[k] == f64_product_of(values@[k], gain),
        decreases values@.len() - i,
    {
        scaled.push(f64_product(values[i], gain));
        i = i + 1;
    }
    scaled
}

/// Gray 32 bit table entries (`struct drm_color_lut32`) for samples that are bits of double
/// precision values: the value three times and a reserved zero.
pub fn lut32_words(samples: &Vec<u64>) -> (r: Vec<u32>)
    ensures
        r@ == gray_words(samples@),
{
    let mut r: Vec<u32> = Vec::new();
    let mut i: usize = 0;
    while i < samples.len()
        invariant
            i <= samples@.len(),
            r@ == gray_words(samples@.take(i as int)),
        decreases samples@.len() - i,
    {
        let v: u32 = to_unorm32(samples[i]);
        r.push(v);
        r.push(v);
        r.push(v);
        r.push(0);
        proof {
            assert(samples@.take(i as int + 1).drop_last() =~= samples@.take(i as int));
            assert(samples@.take(i as int + 1).last() == samples@[i as int]);
            assert(r@ =~= gray_words(samples@.take(i as int)) + seq![v, v, v, 0u32]);
        }
        i = i + 1;
    }
    assert(samples@.take(i as int) =~= samples@);
    r
}

pub open spec fn gray_words(samples: Seq<u64>) -> Seq<u32>
    decreases samples.len(),
{
    if samples.len() == 0 {
        Seq::empty()
    } else {
        let v = unorm_of_f64(samples.last(), 0xffff_ffff) as u32;
        gray_words(samples.drop_last()) + seq![v, v, v, 0u32]
    }
}

/// Entry `k` of the table is the quadruple at `4 * k`.
pub proof fn law_gray_words(samples: Seq<u64>, k: int)
    requires
        0 <= k < samples.len(),
    ensures
        gray_words(samples).len() == 4 * samples.len(),
        gray_words(samples)[4 * k] == unorm_of_f64(samples[k], 0xffff_ffff) as u32,
        gray_words(samples)[4 * k + 1] == gray_words(samples)[4 * k],
        gray_words(samples)[4 * k + 2] == gray_words(samples)[4 * k],
        gray_words(samples)[4 * k + 3] == 0,
    decreases samples.len(),
{
    if samples.len() > 1 {
        law_gray_words(samples.drop_last(), if k < samples.len() - 1 { k } else { 0 });
    } else {
        assert(gray_words(samples.drop_last()).len() == 0);
    }
}

/// Gray 16 bit table entries (`struct drm_color_lut`) for an encode after blending. None if the
/// table has fewer than two entries.
pub fn gamma_lut_words(samples: &Vec<u64>) -> (r: Option<Vec<u16>>)
    ensures
        match r {
            Some(words) => samples@.len() >= 2 && words@ == gray_halfwords(samples@),
            None => samples@.len() < 2,
        },
{
    if samples.len() < 2 {
        return None;
    }
    let mut r: Vec<u16> = Vec::new();
    let mut i: usize = 0;
    while i < samples.len()
        invariant
            i <= samples@.len(),
            r@ == gray_halfwords(samples@.take(i as int)),
        decreases samples@.len() - i,
    {
        let v: u16 = to_unorm16(samples[i]);
        r.push(v);
        r.push(v);
        r.push(v);
        r.push(0);
        proof {
            assert(samples@.take(i as int + 1).drop_last() =~= samples@.take(i as int));
            assert(samples@.take(i as int + 1).last() == samples@[i as int]);
            assert(r@ =~= gray_halfwords(samples@.take(i as int)) + seq![v, v, v, 0u16]);
        }
        i = i + 1;
    }
    assert(samples@.take(i as int) =~= samples@);
    Some(r)
}

pub open spec fn gray_halfwords(samples: Seq<u64>) -> Seq<u16>
    decreases samples.len(),
{
    if samples.len() == 0 {
        Seq::empty()
    } else {
        let v = unorm_of_f64(samples.last(), 65535) as u16;
        gray_halfwords(samples.drop_last()) + seq![v, v, v, 0u16]
    }
}

impl OpPlan {
    /// What has to be put into a property blob to program the operation.
    pub fn blob(&self, op: &ColorOp) -> (r: BlobRequest)
        ensures
            match self@ {
                PlanModel::Ctm(m) => r matches BlobRequest::Matrix(words) && forall|i: int|
                    0 <= i < 12 ==> #[trigger] words@[i] == s31_32_saturated(m[i]),
                PlanModel::LutDecode { curve, gain } => match op@.kind {
                    KindModel::Lut1D { size, .. } => r == (BlobRequest::Table {
                        curve: Some((curve, gain)),
                        size,
                    }),
                    _ => r is Impossible,
                },
                PlanModel::LutIdentity => match op@.kind {
                    KindModel::Lut1D { size, .. } => r == (BlobRequest::Table { curve: None, size }),
                    _ => r is Impossible,
                },
                _ => r is Nothing,
            },
    {
        match self {
            OpPlan::Ctm(m) => BlobRequest::Matrix(ctm_words(m)),
            OpPlan::LutDecode { curve, gain } => match &op.kind {
                ColorOpKind::Lut1D { size, .. } => BlobRequest::Table {
                    curve: Some((*curve, *gain)),
                    size: *size,
                },
                _ => BlobRequest::Impossible,
            },
            OpPlan::LutIdentity => match &op.kind {
                ColorOpKind::Lut1D { size, .. } => BlobRequest::Table { curve: None, size: *size },
                _ => BlobRequest::Impossible,
            },
            _ => BlobRequest::Nothing,
        }
    }

    /// The curve that the plan selects on the operation, if it selects a known one.
    pub fn selected_curve(&self, op: &ColorOp) -> (r: Option<Curve1DType>)
        ensures
            r == (match (self@, op@.kind) {
                (PlanModel::Curve(value), KindModel::Curve1D { supported }) => curve_with_value(
                    supported,
                    value,
                ),
                _ => None,
            }),
    {
        match self {
            OpPlan::Curve(value) => match &op.kind {
                ColorOpKind::Curve1D { supported } => {
                    let mut i: usize = 0;
                    proof {
                        assert(supported@.skip(0) =~= supported@);
                    }
                    while i < supported.len()
                        invariant
                            i <= supported@.len(),
                            op@.kind == (KindModel::Curve1D { supported: supported@ }),
                            self@ == PlanModel::Curve(*value),
                            curve_with_value(supported@, *value) == curve_with_value(
                                supported@.skip(i as int),
                                *value,
                            ),
                        decreases supported@.len() - i,
                    {
                        proof {
                            assert(supported@.skip(i as int)[0] == supported@[i as int]);
                            assert(supported@.skip(i as int).skip(1) =~= supported@.skip(
                                i as int + 1,
                            ));
                        }
                        if supported[i].1 == *value {
                            return Some(supported[i].0);
                        }
                        i = i + 1;
                    }
                    None
                },
                _ => None,
            },
            _ => None,
        }
    }
}

/// The first curve that the value selects.
pub open spec fn curve_with_value(supported: Seq<(Curve1DType, u64)>, value: u64) -> Option<
    Curve1DType,
>
    decreases supported.len(),
{
    if supported.len() == 0 {
        None
    } else if supported[0].1 == value {
        Some(supported[0].0)
    } else {
        curve_with_value(supported.skip(1), value)
    }
}

/// The property values that switch an operation on, and whether all its properties exist. A
/// value that was found stays even if another property is missing.
pub open spec fn set_values(op: ColorOpModel, name: Seq<char>, value: u64) -> (Seq<PropValue>, bool) {
    if op.id == 0 {
        (Seq::empty(), false)
    } else {
        match prop_named(op.props, name) {
            None => (Seq::empty(), false),
            Some(prop) => if op.bypassable {
                match prop_named(op.props, "BYPASS"@) {
                    None => (seq![(op.id, prop, value)], false),
                    Some(bypass) => (seq![(op.id, prop, value), (op.id, bypass, 0)], true),
                }
            } else {
                (seq![(op.id, prop, value)], true)
            },
        }
    }
}

/// The property value that switches an operation off.
pub open spec fn bypass_values(op: ColorOpModel) -> (Seq<PropValue>, bool) {
    if op.id == 0 {
        (Seq::empty(), false)
    } else {
        match prop_named(op.props, "BYPASS"@) {
            None => (Seq::empty(), false),
            Some(bypass) => (seq![(op.id, bypass, 1)], true),
        }
    }
}

/// The property values for one operation; none if a property or a blob is missing.
pub open spec fn op_values(op: ColorOpModel, plan: PlanModel, blob: Option<u64>) -> Option<
    Seq<PropValue>,
> {
    if needs_blob(plan) && (blob is None || !takes_plan(op, plan)) {
        None
    } else {
        let (values, complete) = match plan {
            PlanModel::Bypass => bypass_values(op),
            PlanModel::Curve(value) => set_values(op, "CURVE_1D_TYPE"@, value),
            PlanModel::Multiplier(gain) => set_values(op, "MULTIPLIER"@, s31_32_saturated(gain)),
            _ => set_values(op, "DATA"@, blob->0),
        };
        if complete {
            Some(values)
        } else {
            None
        }
    }
}

/// The property values for the first `n` operations.
pub open spec fn all_values(
    ops: Seq<ColorOpModel>,
    plans: Seq<PlanModel>,
    blobs: Seq<Option<u64>>,
    n: nat,
) -> Option<Seq<PropValue>>
    decreases n,
{
    if n == 0 {
        Some(Seq::empty())
    } else {
        match (
            all_values(ops, plans, blobs, (n - 1) as nat),
            op_values(ops[n - 1], plans[n - 1], blobs[n - 1]),
        ) {
            (Some(before), Some(values)) => Some(before + values),
            _ => None,
        }
    }
}

/// The blobs that the values of the first `n` operations refer to.
pub open spec fn used_blobs(plans: Seq<PlanModel>, blobs: Seq<Option<u64>>, n: nat) -> Seq<u64>
    decreases n,
{
    if n == 0 {
        Seq::empty()
    } else {
        let before = used_blobs(plans, blobs, (n - 1) as nat);
        match blobs[n - 1] {
            Some(id) if needs_blob(plans[n - 1]) => before.push(id),
            _ => before,
        }
    }
}

/// A transform that was resolved against a pipeline.
#[derive(Debug)]
pub struct ResolvedColorPipeline {
    pub pipeline_id: u64,
    pub props: Vec<PropValue>,
    /// The blobs that have to live as long as a commit uses the values.
    pub blobs: Vec<u64>,
    /// Whether this carries an encode after blending, or resets it.
    pub post_blend: Option<bool>,
}

impl ResolvedColorPipeline {
    /// The value of the plane's pipeline property.
    pub fn pipeline_id(&self) -> (r: u64)
        ensures
            r == self.pipeline_id,
    {
        self.pipeline_id
    }

    /// The property values to add to a commit.
    pub fn props(&self) -> (r: &[PropValue])
        ensures
            r@ == self.props@,
    {
        self.props.as_slice()
    }

    /// Whether this carries an encode after blending (`Some(true)`) or resets it
    /// (`Some(false)`).
    pub fn post_blend(&self) -> (r: Option<bool>)
        ensures
            r == self.post_blend,
    {
        self.post_blend
    }

    /// A copy of `base`, or of a bypassed pipeline, that also sets the display controller's
    /// gamma table, or resets it.
    pub fn with_gamma_lut(
        base: Option<&ResolvedColorPipeline>,
        crtc: u32,
        gamma_lut_prop: u32,
        lut: Option<u64>,
    ) -> (r: ResolvedColorPipeline)
        ensures
            r.pipeline_id == (match base {
                Some(b) => b.pipeline_id,
                None => 0,
            }),
            r.props@ == (match base {
                Some(b) => b.props@,
                None => Seq::empty(),
            }).push((crtc, gamma_lut_prop, (match lut {
                Some(id) => id,
                None => 0,
            }))),
            r.blobs@ == (match (base, lut) {
                (Some(b), Some(id)) => b.blobs@.push(id),
                (Some(b), None) => b.blobs@,
                (None, Some(id)) => seq![id],
                (None, None) => Seq::empty(),
            }),
            r.post_blend == Some(lut is Some),
    {
        let mut props: Vec<PropValue> = Vec::new();
        let mut blobs: Vec<u64> = Vec::new();
        let pipeline_id: u64 = match base {
            Some(b) => b.pipeline_id,
            None => 0,
        };
        if let Some(b) = base {
            let mut i: usize = 0;
            while i < b.props.len()
                invariant
                    i <= b.props@.len(),
                    props@ =~= b.props@.take(i as int),
                decreases b.props@.len() - i,
            {
                props.push(b.props[i]);
                i = i + 1;
            }
            assert(b.props@.take(i as int) =~= b.props@);
            let mut k: usize = 0;
            while k < b.blobs.len()
                invariant
                    k <= b.blobs@.len(),
                    blobs@ =~= b.blobs@.take(k as int),
                decreases b.blobs@.len() - k,
            {
                blobs.push(b.blobs[k]);
                k = k + 1;
            }
            assert(b.blobs@.take(k as int) =~= b.blobs@);
        }
        let value: u64 = match lut {
            Some(id) => id,
            None => 0,
        };
        props.push((crtc, gamma_lut_prop, value));
        if let Some(id) = lut {
            blobs.push(id);
        }
        ResolvedColorPipeline { pipeline_id, props, blobs, post_blend: Some(lut.is_some()) }
    }

    /// Handle of the operation's object; zero is not a handle.
    pub fn op_handle(op: &ColorOp) -> (r: Option<u32>)
        ensures
            r == (if op@.id != 0 {
                Some(op@.id)
            } else {
                None
            }),
    {
        if op.id != 0 {
            Some(op.id)
        } else {
            None
        }
    }

    /// Programs a property of a used operation and switches it on.
    pub fn set(&mut self, op: &ColorOp, prop: &str, value: u64) -> (r: Option<()>)
        ensures
            r is Some <==> set_values(op@, prop@, value).1,
            final(self).props@ == old(self).props@ + set_values(op@, prop@, value).0,
            final(self).pipeline_id == old(self).pipeline_id,
            final(self).blobs == old(self).blobs,
            final(self).post_blend == old(self).post_blend,
    {
        let ghost before = self.props@;
        let handle: u32 = match ResolvedColorPipeline::op_handle(op) {
            Some(h) => h,
            None => {
                assert(before + set_values(op@, prop@, value).0 =~= before);
                return None;
            },
        };
        let property: u32 = match op.prop(prop) {
            Some(p) => p,
            None => {
                assert(before + set_values(op@, prop@, value).0 =~= before);
                return None;
            },
        };
        self.props.push((handle, property, value));
        if op.bypassable {
            match op.prop("BYPASS") {
                Some(bypass) => {
                    self.props.push((handle, bypass, 0));
                },
                None => {
                    assert(self.props@ =~= before + set_values(op@, prop@, value).0);
                    return None;
                },
            }
        }
        assert(self.props@ =~= before + set_values(op@, prop@, value).0);
        Some(())
    }

    /// Switches an unused operation off.
    pub fn bypass(&mut self, op: &ColorOp) -> (r: Option<()>)
        ensures
            r is Some <==> bypass_values(op@).1,
            final(self).props@ == old(self).props@ + bypass_values(op@).0,
            final(self).pipeline_id == old(self).pipeline_id,
            final(self).blobs == old(self).blobs,
            final(self).post_blend == old(self).post_blend,
    {
        let ghost before = self.props@;
        let handle: u32 = match ResolvedColorPipeline::op_handle(op) {
            Some(h) => h,
            None => {
                assert(before + bypass_values(op@).0 =~= before);
                return None;
            },
        };
        match op.prop("BYPASS") {
            Some(bypass) => {
                self.props.push((handle, bypass, 1));
                assert(self.props@ =~= before + bypass_values(op@).0);
                Some(())
            },
            None => {
                assert(before + bypass_values(op@).0 =~= before);
                None
            },
        }
    }

    fn program(&mut self, op: &ColorOp, plan: &OpPlan, blob: Option<u64>) -> (r: Option<()>)
        ensures
            r is Some <==> op_values(op@, plan@, blob) is Some,
            r is Some ==> final(self).props@ == old(self).props@ + op_values(op@, plan@, blob)->0,
            r is Some ==> final(self).blobs@ == (match blob {
                Some(id) if needs_blob(plan@) => old(self).blobs@.push(id),
                _ => old(self).blobs@,
            }),
            final(self).pipeline_id == old(self).pipeline_id,
            final(self).post_blend == old(self).post_blend,
    {
        match plan {
            OpPlan::Bypass => self.bypass(op),
            OpPlan::Curve(value) => self.set(op, "CURVE_1D_TYPE", *value),
            OpPlan::Multiplier(gain) => self.set(op, "MULTIPLIER", to_s31_32(*gain)),
            _ => {
                let is_table: bool = match plan {
                    OpPlan::Ctm(_) => false,
                    _ => true,
                };
                let takes_table: bool = match &op.kind {
                    ColorOpKind::Lut1D { .. } => true,
                    _ => false,
                };
                if is_table && !takes_table {
                    return None;
                }
                match blob {
                    Some(id) => {
                        self.blobs.push(id);
                        self.set(op, "DATA", id)
                    },
                    None => None,
                }
            },
        }
    }
}

/// The property values that program the pipeline according to the plans. `blobs` holds the id of
/// the blob that was made for each operation, as [`OpPlan::blob`] asks; none where that failed
/// or nothing was asked for. Returns none if a property or a blob is missing.
pub fn resolve(pipeline: &ColorPipeline, plans: &Vec<OpPlan>, blobs: &Vec<Option<u64>>) -> (r: Option<
    ResolvedColorPipeline,
>)
    requires
        plans@.len() == pipeline.ops@.len(),
        blobs@.len() == pipeline.ops@.len(),
    ensures
        match r {
            Some(resolved) => {
                let n = pipeline@.ops.len();
                &&& resolved.pipeline_id == pipeline.id
                &&& all_values(pipeline@.ops, plans_view(plans@), blobs@, n) == Some(resolved.props@)
                &&& resolved.blobs@ == used_blobs(plans_view(plans@), blobs@, n)
                &&& resolved.post_blend is None
            },
            None => all_values(
                pipeline@.ops,
                plans_view(plans@),
                blobs@,
                pipeline@.ops.len(),
            ) is None,
        },
{
    let mut resolved = ResolvedColorPipeline {
        pipeline_id: pipeline.id,
        props: Vec::new(),
        blobs: Vec::new(),
        post_blend: None,
    };
    let mut i: usize = 0;
    while i < pipeline.ops.len()
        invariant
            i <= pipeline.ops@.len(),
            plans@.len() == pipeline.ops@.len(),
            blobs@.len() == pipeline.ops@.len(),
            resolved.pipeline_id == pipeline.id,
            resolved.post_blend is None,
            all_values(pipeline@.ops, plans_view(plans@), blobs@, i as nat) == Some(
                resolved.props@,
            ),
            resolved.blobs@ == used_blobs(plans_view(plans@), blobs@, i as nat),
        decreases pipeline.ops@.len() - i,
    {
        assert(pipeline@.ops[i as int] == pipeline.ops@[i as int]@);
        assert(plans_view(plans@)[i as int] == plans@[i as int]@);
        if resolved.program(&pipeline.ops[i], &plans[i], blobs[i]).is_none() {
            proof {
                lemma_missing_stays_missing(
                    pipeline@.ops,
                    plans_view(plans@),
                    blobs@,
                    i as nat + 1,
                    pipeline@.ops.len(),
                );
            }
            return None;
        }
        i = i + 1;
    }
    Some(resolved)
}

proof fn lemma_missing_stays_missing(
    ops: Seq<ColorOpModel>,
    plans: Seq<PlanModel>,
    blobs: Seq<Option<u64>>,
    n: nat,
    m: nat,
)
    requires
        n <= m,
        all_values(ops, plans, blobs, n) is None,
    ensures
        all_values(ops, plans, blobs, m) is None,
    decreases m - n,
{
    if n < m {
        lemma_missing_stays_missing(ops, plans, blobs, n, (m - 1) as nat);
    }
}

/// Resolved pipelines are the same if they set the same values.
impl PartialEq for ResolvedColorPipeline {
    fn eq(&self, other: &Self) -> (r: bool) {
        if self.pipeline_id != other.pipeline_id || self.props.len() != other.props.len() {
            return false;
        }
        let mut i: usize = 0;
        while i < self.props.len()
            invariant
                i <= self.props@.len(),
                self.props@.len() == other.props@.len(),
                self.pipeline_id == other.pipeline_id,
                forall|k: int| 0 <= k < i ==> #[trigger] self.props@[k] == other.props@[k],
            decreases self.props@.len() - i,
        {
            if self.props[i].0 != other.props[i].0 || self.props[i].1 != other.props[i].1
                || self.props[i].2 != other.props[i].2 {
                return false;
            }
            i = i + 1;
        }
        assert(self.props@ =~= other.props@);
        true
    }
}

impl vstd::std_specs::cmp::PartialEqSpecImpl for ResolvedColorPipeline {
    open spec fn obeys_eq_spec() -> bool {
        true
    }

    open spec fn eq_spec(&self, other: &Self) -> bool {
        self.pipeline_id == other.pipeline_id && self.props@ == other.props@
    }
}

/// The values that are set are those of all operations.
proof fn lemma_values_of_all(
    ops: Seq<ColorOpModel>,
    plans: Seq<PlanModel>,
    blobs: Seq<Option<u64>>,
    n: nat,
    k: int,
)
    requires
        all_values(ops, plans, blobs, n) is Some,
        0 <= k < n,
    ensures
        op_values(ops[k], plans[k], blobs[k]) is Some,
        forall|v: PropValue|
            op_values(ops[k], plans[k], blobs[k])->0.contains(v) ==> #[trigger] all_values(
                ops,
                plans,
                blobs,
                n,
            )->0.contains(v),
    decreases n,
{
    let before = all_values(ops, plans, blobs, (n - 1) as nat)->0;
    let own = op_values(ops[n - 1], plans[n - 1], blobs[n - 1])->0;
    assert forall|v: PropValue| before.contains(v) || own.contains(v) implies #[trigger] (before
        + own).contains(v) by {
        if before.contains(v) {
            let i = choose|i: int| 0 <= i < before.len() && before[i] == v;
            assert((before + own)[i] == v);
        } else {
            let i = choose|i: int| 0 <= i < own.len() && own[i] == v;
            assert((before + own)[before.len() + i] == v);
        }
    }
    if k < n - 1 {
        lemma_values_of_all(ops, plans, blobs, (n - 1) as nat, k);
    }
}

/// Every operation is programmed by its plan, and nothing but the operations is: a bypassed one has
/// its bypass set and nothing else. Another one has it cleared, if it has one, and has its curve
/// selected, its multiplier set to the nearest S31.32 number, or its data set to its blob.
pub proof fn law_operations_are_programmed(
    ops: Seq<ColorOpModel>,
    plans: Seq<PlanModel>,
    blobs: Seq<Option<u64>>,
    n: nat,
    k: int,
)
    requires
        all_values(ops, plans, blobs, n) is Some,
        0 <= k < n,
    ensures
        ({
            let all = all_values(ops, plans, blobs, n)->0;
            let op = ops[k];
            let sets = |name: Seq<char>, value: u64|
                prop_named(op.props, name) is Some && all.contains(
                    (op.id, prop_named(op.props, name)->0, value),
                );
            &&& op.id != 0
            &&& plans[k] is Bypass ==> sets("BYPASS"@, 1)
            &&& !(plans[k] is Bypass) && op.bypassable ==> sets("BYPASS"@, 0)
            &&& plans[k] matches PlanModel::Curve(value) ==> sets("CURVE_1D_TYPE"@, value)
            &&& plans[k] matches PlanModel::Multiplier(gain) ==> exists|v: u64| #[trigger]
                sets("MULTIPLIER"@, v) && (finite64(gain) ==> limited_s31_32(
                    (v % 0x8000_0000_0000_0000) as int,
                    gap(units64(gain), 0),
                ) && (v >= 0x8000_0000_0000_0000 <==> gain >= 0x8000_0000_0000_0000))
            &&& plans[k] is Ctm || plans[k] is LutDecode || plans[k] is LutIdentity ==> blobs[k]
                is Some && sets("DATA"@, blobs[k]->0)
            &&& plans[k] is LutDecode || plans[k] is LutIdentity ==> op.kind is Lut1D
        }),
{
    lemma_values_of_all(ops, plans, blobs, n, k);
    let all = all_values(ops, plans, blobs, n)->0;
    let op = ops[k];
    let own = op_values(op, plans[k], blobs[k])->0;
    assert(own.len() > 0 ==> own.contains(own[0]));
    assert(own.len() > 1 ==> own.contains(own[1]));
    let sets = |name: Seq<char>, value: u64|
        prop_named(op.props, name) is Some && all.contains(
            (op.id, prop_named(op.props, name)->0, value),
        );
    match plans[k] {
        PlanModel::Multiplier(gain) => {
            if finite64(gain) {
                law_s31_32_is_limited(gain);
            }
            assert(sets("MULTIPLIER"@, s31_32_saturated(gain)));
        },
        _ => {},
    }
}

/// Nothing but the operations is set, each of their values once.
pub proof fn law_only_operations_are_programmed(
    ops: Seq<ColorOpModel>,
    plans: Seq<PlanModel>,
    blobs: Seq<Option<u64>>,
    n: nat,
    v: PropValue,
) -> (k: int)
    requires
        all_values(ops, plans, blobs, n) is Some,
        all_values(ops, plans, blobs, n)->0.contains(v),
    ensures
        0 <= k < n,
        v.0 == ops[k].id,
        plans[k] is Bypass ==> v.2 == 1 && prop_named(ops[k].props, "BYPASS"@) == Some(v.1),
    decreases n,
{
    if n == 0 {
        assert(false);
        0
    } else {
        let before = all_values(ops, plans, blobs, (n - 1) as nat)->0;
        let own = op_values(ops[n - 1], plans[n - 1], blobs[n - 1])->0;
        let i = choose|i: int| 0 <= i < (before + own).len() && (before + own)[i] == v;
        if i < before.len() {
            assert(before[i] == v);
            law_only_operations_are_programmed(ops, plans, blobs, (n - 1) as nat, v)
        } else {
            assert(own[i - before.len()] == v);
            n - 1
        }
    }
}

/// A pipeline owns the blobs that its operations use.
pub proof fn law_used_blobs_are_owned(
    plans: Seq<PlanModel>,
    blobs: Seq<Option<u64>>,
    n: nat,
    k: int,
)
    requires
        0 <= k < n,
        blobs[k] is Some,
        plans[k] is Ctm || plans[k] is LutDecode || plans[k] is LutIdentity,
    ensures
        used_blobs(plans, blobs, n).contains(blobs[k]->0),
    decreases n,
{
    let before = used_blobs(plans, blobs, (n - 1) as nat);
    if k < n - 1 {
        law_used_blobs_are_owned(plans, blobs, (n - 1) as nat, k);
        let i = choose|i: int| 0 <= i < before.len() && before[i] == blobs[k]->0;
        assert(used_blobs(plans, blobs, n)[i] == blobs[k]->0);
    } else {
        assert(before.push(blobs[k]->0)[before.len() as int] == blobs[k]->0);
    }
}

/// Table entries are gray: entry `k` has its sample three times, as the nearest of the numbers that
/// stand for 0 to 1, and a zero.
pub proof fn law_tables_hold_the_samples(samples: Seq<u64>, k: int)
    requires
        0 <= k < samples.len(),
    ensures
        ({
            let wide = gray_words(samples);
            let small = gray_halfwords(samples);
            let nearest = |entry: int, max: int|
                samples[k] < 0x3ff0_0000_0000_0000 ==> 0x40_0000_0000_0000 * gap(
                    entry * two_pow(1074),
                    units64(samples[k]) * max,
                ) <= 0x20_0000_0000_0000 * two_pow(1074) + 2 * (units64(samples[k]) * max);
            &&& wide.len() == 4 * samples.len() && small.len() == 4 * samples.len()
            &&& nearest(wide[4 * k] as int, 0xffff_ffff)
            &&& nearest(small[4 * k] as int, 0xffff)
            &&& 0x3ff0_0000_0000_0000 <= samples[k] <= 0x7ff0_0000_0000_0000 ==> wide[4 * k]
                == 0xffff_ffff && small[4 * k] == 0xffff
            &&& wide[4 * k + 1] == wide[4 * k] && wide[4 * k + 2] == wide[4 * k] && wide[4 * k + 3]
                == 0
            &&& small[4 * k + 1] == small[4 * k] && small[4 * k + 2] == small[4 * k] && small[4 * k
                + 3] == 0
        }),
    decreases samples.len(),
{
    law_gray_words(samples, k);
    law_normalized_integers_are_nearest(samples[k], 0xffff_ffff);
    law_normalized_integers_are_nearest(samples[k], 65535);
    lemma_unorm_bound(samples[k], 0xffff_ffff);
    lemma_unorm_bound(samples[k], 65535);
    lemma_gray_halfwords(samples, k);
}

proof fn lemma_gray_halfwords(samples: Seq<u64>, k: int)
    requires
        0 <= k < samples.len(),
    ensures
        gray_halfwords(samples).len() == 4 * samples.len(),
        gray_halfwords(samples)[4 * k] == unorm_of_f64(samples[k], 65535) as u16,
        gray_halfwords(samples)[4 * k + 1] == gray_halfwords(samples)[4 * k],
        gray_halfwords(samples)[4 * k + 2] == gray_halfwords(samples)[4 * k],
        gray_halfwords(samples)[4 * k + 3] == 0,
    decreases samples.len(),
{
    if samples.len() > 1 {
        lemma_gray_halfwords(samples.drop_last(), if k < samples.len() - 1 { k } else { 0 });
    } else {
        assert(gray_halfwords(samples.drop_last()).len() == 0);
    }
}

/// A table after blending is put on the display controller behind everything else, or taken off it.
pub proof fn law_gamma_table_comes_last(
    base: Option<&ResolvedColorPipeline>,
    crtc: u32,
    prop: u32,
    lut: Option<u64>,
    r: ResolvedColorPipeline,
)
    requires
        call_ensures(ResolvedColorPipeline::with_gamma_lut, (base, crtc, prop, lut), r),
    ensures
        r.props@.last().0 == crtc && r.props@.last().1 == prop,
        lut is Some ==> r.props@.last().2 == lut->0 && r.blobs@.contains(lut->0) && r.post_blend
            == Some(true),
        lut is None ==> r.props@.last().2 == 0 && r.post_blend == Some(false),
        base is Some ==> r.pipeline_id == base->0.pipeline_id && r.props@.drop_last()
            == base->0.props@,
        base is None ==> r.pipeline_id == 0 && r.props@.len() == 1,
        base is Some ==> forall|id: u64|
            base->0.blobs@.contains(id) ==> #[trigger] r.blobs@.contains(id),
{
    if base is Some {
        let b = base->0.blobs@;
        assert(r.props@.drop_last() =~= base->0.props@);
        assert forall|id: u64| b.contains(id) implies #[trigger] r.blobs@.contains(id) by {
            let i = choose|i: int| 0 <= i < b.len() && b[i] == id;
            assert(r.blobs@[i] == id);
        }
    }
    if lut is Some {
        assert(r.blobs@.last() == lut->0);
    }
}

} // verus!
