//! Color pipelines that a plane advertises.
//!
//! A pipeline is a chain of color operation objects. The chain is described here from the
//! properties of the objects, which the caller reads: [`missing_object`] names the object that
//! has to be read next.

use vstd::prelude::*;

use crate::names::same;

verus! {

/// Longest chain of color operations that is walked.
pub const MAX_PIPELINE_OPS: usize = 64;

/// A named transfer function of a color operation.
#[derive(Debug, Clone, Copy, PartialEq, Eq, Hash, Structural)]
pub enum Curve1DType {
    /// The sRGB EOTF, decoding to linear.
    SrgbEotf,
    /// The inverse sRGB EOTF, encoding from linear.
    SrgbInvEotf,
    /// The PQ EOTF scaled to 0..125, decoding to linear.
    Pq125Eotf,
    /// The inverse of the scaled PQ EOTF, encoding from linear.
    Pq125InvEotf,
    /// The inverse BT.2020 OETF, decoding to linear.
    Bt2020InvOetf,
    /// The BT.2020 OETF, encoding from linear.
    Bt2020Oetf,
    /// A pure 2.2 power-law EOTF, decoding to linear.
    Gamma22,
    /// The inverse 2.2 power-law EOTF, encoding from linear.
    Gamma22Inv,
}

impl Curve1DType {
    pub open spec fn name(self) -> Seq<char> {
        match self {
            Curve1DType::SrgbEotf => "sRGB EOTF"@,
            Curve1DType::SrgbInvEotf => "sRGB Inverse EOTF"@,
            Curve1DType::Pq125Eotf => "PQ 125 EOTF"@,
            Curve1DType::Pq125InvEotf => "PQ 125 Inverse EOTF"@,
            Curve1DType::Bt2020InvOetf => "BT.2020 Inverse OETF"@,
            Curve1DType::Bt2020Oetf => "BT.2020 OETF"@,
            Curve1DType::Gamma22 => "Gamma 2.2"@,
            Curve1DType::Gamma22Inv => "Gamma 2.2 Inverse"@,
        }
    }

    /// The kernel's name for this curve.
    pub fn kernel_name(&self) -> (r: &'static str)
        ensures
            r@ == self.name(),
    {
        match self {
            Curve1DType::SrgbEotf => "sRGB EOTF",
            Curve1DType::SrgbInvEotf => "sRGB Inverse EOTF",
            Curve1DType::Pq125Eotf => "PQ 125 EOTF",
            Curve1DType::Pq125InvEotf => "PQ 125 Inverse EOTF",
            Curve1DType::Bt2020InvOetf => "BT.2020 Inverse OETF",
            Curve1DType::Bt2020Oetf => "BT.2020 OETF",
            Curve1DType::Gamma22 => "Gamma 2.2",
            Curve1DType::Gamma22Inv => "Gamma 2.2 Inverse",
        }
    }

    /// Largest value of the curve.
    pub open spec fn max_value(self) -> nat {
        if self == Curve1DType::Pq125Eotf {
            125
        } else {
            1
        }
    }

    /// Largest value of the curve.
    pub fn output_max(&self) -> (r: u32)
        ensures
            r == self.max_value(),
    {
        match self {
            Curve1DType::Pq125Eotf => 125,
            _ => 1,
        }
    }

    pub open spec fn named(name: Seq<char>) -> Option<Curve1DType> {
        if name == "sRGB EOTF"@ {
            Some(Curve1DType::SrgbEotf)
        } else if name == "sRGB Inverse EOTF"@ {
            Some(Curve1DType::SrgbInvEotf)
        } else if name == "PQ 125 EOTF"@ {
            Some(Curve1DType::Pq125Eotf)
        } else if name == "PQ 125 Inverse EOTF"@ {
            Some(Curve1DType::Pq125InvEotf)
        } else if name == "BT.2020 Inverse OETF"@ {
            Some(Curve1DType::Bt2020InvOetf)
        } else if name == "BT.2020 OETF"@ {
            Some(Curve1DType::Bt2020Oetf)
        } else if name == "Gamma 2.2"@ {
            Some(Curve1DType::Gamma22)
        } else if name == "Gamma 2.2 Inverse"@ {
            Some(Curve1DType::Gamma22Inv)
        } else {
            None
        }
    }

    /// The curve with the kernel's name.
    pub fn from_kernel_name(name: &str) -> (r: Option<Self>)
        ensures
            r == Curve1DType::named(name@),
            match r {
                Some(curve) => curve.name() == name@,
                None => forall|curve: Curve1DType| #[trigger] curve.name() != name@,
            },
    {
        if same(name, "sRGB EOTF") {
            Some(Curve1DType::SrgbEotf)
        } else if same(name, "sRGB Inverse EOTF") {
            Some(Curve1DType::SrgbInvEotf)
        } else if same(name, "PQ 125 EOTF") {
            Some(Curve1DType::Pq125Eotf)
        } else if same(name, "PQ 125 Inverse EOTF") {
            Some(Curve1DType::Pq125InvEotf)
        } else if same(name, "BT.2020 Inverse OETF") {
            Some(Curve1DType::Bt2020InvOetf)
        } else if same(name, "BT.2020 OETF") {
            Some(Curve1DType::Bt2020Oetf)
        } else if same(name, "Gamma 2.2") {
            Some(Curve1DType::Gamma22)
        } else if same(name, "Gamma 2.2 Inverse") {
            Some(Curve1DType::Gamma22Inv)
        } else {
            None
        }
    }
}

/// No two curves share a name, so that reading a written name gives the curve back.
pub proof fn law_curve_names_differ(a: Curve1DType, b: Curve1DType)
    requires
        a.name() == b.name(),
    ensures
        a == b,
        Curve1DType::named(a.name()) == Some(a),
{
    reveal_strlit("sRGB EOTF");
    reveal_strlit("sRGB Inverse EOTF");
    reveal_strlit("PQ 125 EOTF");
    reveal_strlit("PQ 125 Inverse EOTF");
    reveal_strlit("BT.2020 Inverse OETF");
    reveal_strlit("BT.2020 OETF");
    reveal_strlit("Gamma 2.2");
    reveal_strlit("Gamma 2.2 Inverse");
    assert("sRGB EOTF"@.len() == 9 && "sRGB EOTF"@[0] == 's');
    assert("sRGB Inverse EOTF"@.len() == 17 && "sRGB Inverse EOTF"@[0] == 's');
    assert("PQ 125 EOTF"@.len() == 11);
    assert("PQ 125 Inverse EOTF"@.len() == 19);
    assert("BT.2020 Inverse OETF"@.len() == 20);
    assert("BT.2020 OETF"@.len() == 12);
    assert("Gamma 2.2"@.len() == 9 && "Gamma 2.2"@[0] == 'G');
    assert("Gamma 2.2 Inverse"@.len() == 17 && "Gamma 2.2 Inverse"@[0] == 'G');
}

/// Interpolation of a one dimensional lookup table.
#[derive(Debug, Clone, Copy, PartialEq, Eq, Hash, Structural)]
pub enum Lut1DInterpolation {
    Linear,
    /// An interpolation that is not modelled.
    Unknown,
}

/// Interpolation of a three dimensional lookup table.
#[derive(Debug, Clone, Copy, PartialEq, Eq, Hash, Structural)]
pub enum Lut3DInterpolation {
    Tetrahedral,
    /// An interpolation that is not modelled.
    Unknown,
}

/// What a color operation does.
#[derive(Debug, Clone, PartialEq, Eq)]
pub enum ColorOpKind {
    /// A named transfer function.
    Curve1D {
        /// The known curves among those offered, with the value that selects each.
        supported: Vec<(Curve1DType, u64)>,
    },
    /// A custom one dimensional lookup table.
    Lut1D { size: u32, interpolation: Lut1DInterpolation },
    /// A 3x4 matrix.
    Ctm3x4,
    /// A factor for all values.
    Multiplier,
    /// A three dimensional lookup table.
    Lut3D { size: u32, interpolation: Lut3DInterpolation },
    /// An operation that is not modelled. It can only be bypassed.
    Unknown { kernel_type: String },
}

/// Mathematical value of a [`ColorOpKind`].
pub enum KindModel {
    Curve1D { supported: Seq<(Curve1DType, u64)> },
    Lut1D { size: u32, interpolation: Lut1DInterpolation },
    Ctm3x4,
    Multiplier,
    Lut3D { size: u32, interpolation: Lut3DInterpolation },
    Unknown { kernel_type: Seq<char> },
}

impl View for ColorOpKind {
    type V = KindModel;

    open spec fn view(&self) -> KindModel {
        match *self {
            ColorOpKind::Curve1D { supported } => KindModel::Curve1D { supported: supported@ },
            ColorOpKind::Lut1D { size, interpolation } => KindModel::Lut1D { size, interpolation },
            ColorOpKind::Ctm3x4 => KindModel::Ctm3x4,
            ColorOpKind::Multiplier => KindModel::Multiplier,
            ColorOpKind::Lut3D { size, interpolation } => KindModel::Lut3D { size, interpolation },
            ColorOpKind::Unknown { kernel_type } => KindModel::Unknown { kernel_type: kernel_type@ },
        }
    }
}

impl ColorOpKind {
    /// Human-readable name of the operation.
    pub fn name(&self) -> (r: &'static str)
        ensures
            r@ == (match self@ {
                KindModel::Curve1D { .. } => "1D Curve"@,
                KindModel::Lut1D { .. } => "1D LUT"@,
                KindModel::Ctm3x4 => "3x4 Matrix (CTM)"@,
                KindModel::Multiplier => "Multiplier"@,
                KindModel::Lut3D { .. } => "3D LUT"@,
                KindModel::Unknown { .. } => "Unknown"@,
            }),
    {
        match self {
            ColorOpKind::Curve1D { .. } => "1D Curve",
            ColorOpKind::Lut1D { .. } => "1D LUT",
            ColorOpKind::Ctm3x4 => "3x4 Matrix (CTM)",
            ColorOpKind::Multiplier => "Multiplier",
            ColorOpKind::Lut3D { .. } => "3D LUT",
            ColorOpKind::Unknown { .. } => "Unknown",
        }
    }
}

/// One color operation of a pipeline.
#[derive(Debug, Clone)]
pub struct ColorOp {
    /// Object id.
    pub id: u32,
    pub kind: ColorOpKind,
    /// Whether the operation can be switched off by itself.
    pub bypassable: bool,
    /// Property handles by name. A later entry replaces an earlier one of the same name.
    pub props: Vec<(String, u32)>,
}

/// Mathematical value of a [`ColorOp`].
pub struct ColorOpModel {
    pub id: u32,
    pub kind: KindModel,
    pub bypassable: bool,
    pub props: Seq<(Seq<char>, u32)>,
}

/// Named handles as mathematical values.
pub open spec fn props_view(props: Seq<(String, u32)>) -> Seq<(Seq<char>, u32)> {
    Seq::new(props.len(), |i: int| (props[i].0@, props[i].1))
}

impl View for ColorOp {
    type V = ColorOpModel;

    open spec fn view(&self) -> ColorOpModel {
        ColorOpModel {
            id: self.id,
            kind: self.kind@,
            bypassable: self.bypassable,
            props: props_view(self.props@),
        }
    }
}

/// The last handle with the name.
pub open spec fn prop_named(props: Seq<(Seq<char>, u32)>, name: Seq<char>) -> Option<u32>
    decreases props.len(),
{
    if props.len() == 0 {
        None
    } else if props.last().0 == name {
        Some(props.last().1)
    } else {
        prop_named(props.drop_last(), name)
    }
}

impl ColorOp {
    /// Handle of the property with the name.
    pub fn prop(&self, name: &str) -> (r: Option<u32>)
        ensures
            r == prop_named(self@.props, name@),
    {
        let mut i: usize = self.props.len();
        proof {
            assert(self@.props.take(i as int) =~= self@.props);
        }
        while i > 0
            invariant
                i <= self.props@.len(),
                prop_named(self@.props, name@) == prop_named(self@.props.take(i as int), name@),
            decreases i,
        {
            proof {
                let some = self@.props.take(i as int);
                assert(some.last() == self@.props[i - 1]);
                assert(some.drop_last() =~= self@.props.take(i - 1));
            }
            i = i - 1;
            if same(self.props[i].0.as_str(), name) {
                return Some(self.props[i].1);
            }
        }
        None
    }
}

/// A color pipeline of a plane, processing pixels before blending.
#[derive(Debug, Clone)]
pub struct ColorPipeline {
    /// The value that selects the pipeline: the id of its first operation.
    pub id: u64,
    /// The operations in processing order.
    pub ops: Vec<ColorOp>,
}

pub struct PipelineModel {
    pub id: u64,
    pub ops: Seq<ColorOpModel>,
}

/// Operations as mathematical values.
pub open spec fn ops_view(ops: Seq<ColorOp>) -> Seq<ColorOpModel> {
    Seq::new(ops.len(), |i: int| ops[i]@)
}

impl View for ColorPipeline {
    type V = PipelineModel;

    open spec fn view(&self) -> PipelineModel {
        PipelineModel { id: self.id, ops: ops_view(self.ops@) }
    }
}

/// Pipelines are told apart by their id.
impl PartialEq for ColorPipeline {
    fn eq(&self, other: &Self) -> (r: bool) {
        self.id == other.id
    }
}

impl Eq for ColorPipeline {

}

impl vstd::std_specs::cmp::PartialEqSpecImpl for ColorPipeline {
    open spec fn obeys_eq_spec() -> bool {
        true
    }

    open spec fn eq_spec(&self, other: &Self) -> bool {
        self.id == other.id
    }
}

/// One choice of an enum property.
#[derive(Debug, Clone)]
pub struct EnumEntry {
    /// Name, if it is valid text.
    pub name: Option<String>,
    pub value: u64,
}

/// The choices of an enum property.
#[derive(Debug, Clone)]
pub struct EnumInfo {
    /// Raw values that the property can take.
    pub values: Vec<u64>,
    pub entries: Vec<EnumEntry>,
    /// Name of the current choice, if there is one and it is valid text.
    pub selected: Option<String>,
}

/// A property of an object as the kernel reports it.
#[derive(Debug, Clone)]
pub struct PropertyRecord {
    pub handle: u32,
    pub name: String,
    pub value: u64,
    /// The choices, for an enum property.
    pub choices: Option<EnumInfo>,
}

/// What the properties read so far say about an operation.
pub struct OpFacts {
    pub kernel_type: Option<Seq<char>>,
    pub bypassable: bool,
    pub next: u32,
    pub curves: Seq<(Curve1DType, u64)>,
    pub size: u32,
    pub lut1d: Lut1DInterpolation,
    pub lut3d: Lut3DInterpolation,
    pub props: Seq<(Seq<char>, u32)>,
}

pub open spec fn no_facts() -> OpFacts {
    OpFacts {
        kernel_type: None,
        bypassable: false,
        next: 0,
        curves: Seq::empty(),
        size: 0,
        lut1d: Lut1DInterpolation::Unknown,
        lut3d: Lut3DInterpolation::Unknown,
        props: Seq::empty(),
    }
}

pub open spec fn text(name: Option<String>) -> Option<Seq<char>> {
    match name {
        Some(s) => Some(s@),
        None => None,
    }
}

/// The curve of an entry, if it is known.
pub open spec fn entry_curve(entry: EnumEntry) -> Option<(Curve1DType, u64)> {
    match entry.name {
        Some(name) => match Curve1DType::named(name@) {
            Some(curve) => Some((curve, entry.value)),
            None => None,
        },
        None => None,
    }
}

/// The known curves among the entries, in order.
pub open spec fn known_curves(entries: Seq<EnumEntry>) -> Seq<(Curve1DType, u64)>
    decreases entries.len(),
{
    if entries.len() == 0 {
        Seq::empty()
    } else {
        let before = known_curves(entries.drop_last());
        match entry_curve(entries.last()) {
            Some(pair) => before.push(pair),
            None => before,
        }
    }
}

/// Low 32 bits.
pub open spec fn low32(value: u64) -> u32 {
    (value % 0x1_0000_0000) as u32
}

/// Takes one more property into account.
pub open spec fn with_record(facts: OpFacts, record: PropertyRecord) -> OpFacts {
    let name = record.name@;
    let facts = OpFacts { props: facts.props.push((name, record.handle)), ..facts };
    if name == "TYPE"@ {
        match record.choices {
            Some(info) => OpFacts { kernel_type: text(info.selected), ..facts },
            None => facts,
        }
    } else if name == "BYPASS"@ {
        OpFacts { bypassable: true, ..facts }
    } else if name == "NEXT"@ {
        OpFacts { next: low32(record.value), ..facts }
    } else if name == "CURVE_1D_TYPE"@ {
        match record.choices {
            Some(info) => OpFacts { curves: facts.curves + known_curves(info.entries@), ..facts },
            None => facts,
        }
    } else if name == "SIZE"@ {
        OpFacts { size: low32(record.value), ..facts }
    } else if name == "LUT1D_INTERPOLATION"@ {
        match record.choices {
            Some(info) if text(info.selected) == Some("Linear"@) => OpFacts {
                lut1d: Lut1DInterpolation::Linear,
                ..facts
            },
            _ => facts,
        }
    } else if name == "LUT3D_INTERPOLATION"@ {
        match record.choices {
            Some(info) if text(info.selected) == Some("Tetrahedral"@) => OpFacts {
                lut3d: Lut3DInterpolation::Tetrahedral,
                ..facts
            },
            _ => facts,
        }
    } else {
        facts
    }
}

/// What all properties of an object say.
pub open spec fn facts_of(records: Seq<PropertyRecord>) -> OpFacts
    decreases records.len(),
{
    if records.len() == 0 {
        no_facts()
    } else {
        with_record(facts_of(records.drop_last()), records.last())
    }
}

/// The operation that the facts describe; none if it is neither known nor bypassable.
pub open spec fn kind_of(facts: OpFacts) -> Option<KindModel> {
    match facts.kernel_type {
        Some(name) => if name == "1D Curve"@ {
            Some(KindModel::Curve1D { supported: facts.curves })
        } else if name == "1D LUT"@ {
            Some(KindModel::Lut1D { size: facts.size, interpolation: facts.lut1d })
        } else if name == "3x4 Matrix"@ {
            Some(KindModel::Ctm3x4)
        } else if name == "Multiplier"@ {
            Some(KindModel::Multiplier)
        } else if name == "3D LUT"@ {
            Some(KindModel::Lut3D { size: facts.size, interpolation: facts.lut3d })
        } else if facts.bypassable {
            Some(KindModel::Unknown { kernel_type: name })
        } else {
            None
        },
        None => if facts.bypassable {
            Some(KindModel::Unknown { kernel_type: "<missing TYPE>"@ })
        } else {
            None
        },
    }
}

/// An operation together with the id of the one that follows it.
pub struct ReadColorOp {
    pub op: ColorOp,
    pub next: u32,
}

/// Why a pipeline cannot be used.
#[derive(Debug, Clone, Copy, PartialEq, Eq, Structural)]
pub enum WalkError {
    /// The chain is longer than the limit or runs in a circle.
    TooLongOrCyclic,
    /// The properties of an operation could not be read.
    Unreadable,
    /// An operation is neither known nor bypassable.
    UnknownOperation,
    /// The properties of the operation have not been read yet.
    NotRead(u32),
}

fn curves_of(entries: &Vec<EnumEntry>) -> (r: Vec<(Curve1DType, u64)>)
    ensures
        r@ == known_curves(entries@),
{
    let mut r: Vec<(Curve1DType, u64)> = Vec::new();
    let mut i: usize = 0;
    while i < entries.len()
        invariant
            i <= entries@.len(),
            r@ == known_curves(entries@.take(i as int)),
        decreases entries@.len() - i,
    {
        proof {
            assert(entries@.take(i as int + 1).drop_last() =~= entries@.take(i as int));
        }
        if let Some(name) = &entries[i].name {
            if let Some(curve) = Curve1DType::from_kernel_name(name.as_str()) {
                r.push((curve, entries[i].value));
            }
        }
        i = i + 1;
    }
    assert(entries@.take(i as int) =~= entries@);
    r
}

fn selected_is(info: &EnumInfo, name: &str) -> (r: bool)
    ensures
        r == (text(info.selected) == Some(name@)),
{
    match &info.selected {
        Some(s) => same(s.as_str(), name),
        None => false,
    }
}

/// Describes an operation from the properties of its object.
pub fn read_colorop(id: u32, records: &Vec<PropertyRecord>) -> (r: Result<ReadColorOp, WalkError>)
    ensures
        match r {
            Ok(read) => {
                let facts = facts_of(records@);
                &&& kind_of(facts) == Some(read.op@.kind)
                &&& read.op@ == (ColorOpModel {
                    id,
                    kind: kind_of(facts)->0,
                    bypassable: facts.bypassable,
                    props: facts.props,
                })
                &&& read.next == facts.next
            },
            Err(e) => e == WalkError::UnknownOperation && kind_of(facts_of(records@)) is None,
        },
{
    let mut kernel_type: Option<String> = None;
    let mut bypassable: bool = false;
    let mut next: u32 = 0;
    let mut curves: Vec<(Curve1DType, u64)> = Vec::new();
    let mut size: u32 = 0;
    let mut lut1d: Lut1DInterpolation = Lut1DInterpolation::Unknown;
    let mut lut3d: Lut3DInterpolation = Lut3DInterpolation::Unknown;
    let mut props: Vec<(String, u32)> = Vec::new();
    let mut i: usize = 0;
    assert(props_view(props@) =~= Seq::empty());
    while i < records.len()
        invariant
            i <= records@.len(),
            text(kernel_type) == facts_of(records@.take(i as int)).kernel_type,
            bypassable == facts_of(records@.take(i as int)).bypassable,
            next == facts_of(records@.take(i as int)).next,
            curves@ == facts_of(records@.take(i as int)).curves,
            size == facts_of(records@.take(i as int)).size,
            lut1d == facts_of(records@.take(i as int)).lut1d,
            lut3d == facts_of(records@.take(i as int)).lut3d,
            props_view(props@) == facts_of(records@.take(i as int)).props,
        decreases records@.len() - i,
    {
        let record = &records[i];
        proof {
            assert(records@.take(i as int + 1).drop_last() =~= records@.take(i as int));
            assert(records@.take(i as int + 1).last() == records@[i as int]);
        }
        let name = record.name.as_str();
        let ghost before = props@;
        props.push((record.name.clone(), record.handle));
        assert(props_view(props@) =~= props_view(before).push((record.name@, record.handle)));
        if same(name, "TYPE") {
            if let Some(info) = &record.choices {
                kernel_type = match &info.selected {
                    Some(s) => Some(s.clone()),
                    None => None,
                };
            }
        } else if same(name, "BYPASS") {
            bypassable = true;
        } else if same(name, "NEXT") {
            next = (record.value % 0x1_0000_0000) as u32;
        } else if same(name, "CURVE_1D_TYPE") {
            if let Some(info) = &record.choices {
                let mut found = curves_of(&info.entries);
                curves.append(&mut found);
            }
        } else if same(name, "SIZE") {
            size = (record.value % 0x1_0000_0000) as u32;
        } else if same(name, "LUT1D_INTERPOLATION") {
            if let Some(info) = &record.choices {
                if selected_is(info, "Linear") {
                    lut1d = Lut1DInterpolation::Linear;
                }
            }
        } else if same(name, "LUT3D_INTERPOLATION") {
            if let Some(info) = &record.choices {
                if selected_is(info, "Tetrahedral") {
                    lut3d = Lut3DInterpolation::Tetrahedral;
                }
            }
        }
        i = i + 1;
    }
    assert(records@.take(i as int) =~= records@);
    let kind: ColorOpKind = match kernel_type {
        Some(name) => {
            if same(name.as_str(), "1D Curve") {
                ColorOpKind::Curve1D { supported: curves }
            } else if same(name.as_str(), "1D LUT") {
                ColorOpKind::Lut1D { size, interpolation: lut1d }
            } else if same(name.as_str(), "3x4 Matrix") {
                ColorOpKind::Ctm3x4
            } else if same(name.as_str(), "Multiplier") {
                ColorOpKind::Multiplier
            } else if same(name.as_str(), "3D LUT") {
                ColorOpKind::Lut3D { size, interpolation: lut3d }
            } else if bypassable {
                ColorOpKind::Unknown { kernel_type: name }
            } else {
                return Err(WalkError::UnknownOperation);
            }
        },
        None => {
            if bypassable {
                ColorOpKind::Unknown { kernel_type: "<missing TYPE>".to_owned() }
            } else {
                return Err(WalkError::UnknownOperation);
            }
        },
    };
    Ok(ReadColorOp { op: ColorOp { id, kind, bypassable, props }, next })
}

/// A color operation object whose properties were asked for.
#[derive(Debug, Clone)]
pub struct ColorOpObject {
    pub id: u32,
    /// The properties, if they could be read.
    pub properties: Option<Vec<PropertyRecord>>,
}

/// Index of the first object with the id.
pub open spec fn object_index(objects: Seq<ColorOpObject>, id: u32) -> Option<int>
    decreases objects.len(),
{
    if objects.len() == 0 {
        None
    } else {
        match object_index(objects.drop_last(), id) {
            Some(i) => Some(i),
            None => if objects.last().id == id {
                Some(objects.len() - 1)
            } else {
                None
            },
        }
    }
}

/// The operation with the id and the id of its successor, as far as the objects tell.
pub open spec fn op_with_id(objects: Seq<ColorOpObject>, id: u32) -> Result<(ColorOpModel, u32), WalkError> {
    match object_index(objects, id) {
        None => Err(WalkError::NotRead(id)),
        Some(i) => match objects[i].properties {
            None => Err(WalkError::Unreadable),
            Some(records) => {
                let facts = facts_of(records@);
                match kind_of(facts) {
                    None => Err(WalkError::UnknownOperation),
                    Some(kind) => Ok(
                        (
                            ColorOpModel {
                                id,
                                kind,
                                bypassable: facts.bypassable,
                                props: facts.props,
                            },
                            facts.next,
                        ),
                    ),
                }
            },
        },
    }
}

pub open spec fn has_op(ops: Seq<ColorOpModel>, id: u32) -> bool {
    exists|i: int| 0 <= i < ops.len() && (#[trigger] ops[i]).id == id
}

/// The operations from `next` on, after those already walked.
pub open spec fn walk(objects: Seq<ColorOpObject>, next: u32, walked: Seq<ColorOpModel>) -> Result<
    Seq<ColorOpModel>,
    WalkError,
>
    decreases MAX_PIPELINE_OPS - walked.len(),
{
    if next == 0 {
        Ok(walked)
    } else if walked.len() >= MAX_PIPELINE_OPS || has_op(walked, next) {
        Err(WalkError::TooLongOrCyclic)
    } else {
        match op_with_id(objects, next) {
            Err(e) => Err(e),
            Ok((op, after)) => walk(objects, after, walked.push(op)),
        }
    }
}

fn find_object(objects: &Vec<ColorOpObject>, id: u32) -> (r: Option<usize>)
    ensures
        match r {
            Some(i) => i < objects@.len() && object_index(objects@, id) == Some(i as int),
            None => object_index(objects@, id) is None,
        },
{
    let mut i: usize = 0;
    while i < objects.len()
        invariant
            i <= objects@.len(),
            object_index(objects@.take(i as int), id) is None,
        decreases objects@.len() - i,
    {
        proof {
            assert(objects@.take(i as int + 1).drop_last() =~= objects@.take(i as int));
        }
        if objects[i].id == id {
            proof {
                lemma_object_index_stable(objects@, i as int + 1, id);
            }
            return Some(i);
        }
        i = i + 1;
    }
    assert(objects@.take(i as int) =~= objects@);
    None
}

proof fn lemma_object_index_stable(objects: Seq<ColorOpObject>, n: int, id: u32)
    requires
        0 <= n <= objects.len(),
        object_index(objects.take(n), id) is Some,
    ensures
        object_index(objects, id) == object_index(objects.take(n), id),
    decreases objects.len(),
{
    if n == objects.len() {
        assert(objects.take(n) =~= objects);
    } else {
        assert(objects.drop_last().take(n) =~= objects.take(n));
        lemma_object_index_stable(objects.drop_last(), n, id);
    }
}

/// Walks the chain of operations that starts at `first`.
pub fn walk_pipeline(objects: &Vec<ColorOpObject>, first: u64) -> (r: Result<ColorPipeline, WalkError>)
    ensures
        match r {
            Ok(pipeline) => pipeline.id == first && walk(objects@, low32(first), Seq::empty()) == Ok::<
                Seq<ColorOpModel>,
                WalkError,
            >(pipeline@.ops),
            Err(e) => walk(objects@, low32(first), Seq::empty()) == Err::<
                Seq<ColorOpModel>,
                WalkError,
            >(e),
        },
{
    let mut ops: Vec<ColorOp> = Vec::new();
    let mut next: u32 = (first % 0x1_0000_0000) as u32;
    assert(ops_view(ops@) =~= Seq::empty());
    while next != 0
        invariant
            ops@.len() <= MAX_PIPELINE_OPS,
            walk(objects@, low32(first), Seq::empty()) == walk(objects@, next, ops_view(ops@)),
        decreases MAX_PIPELINE_OPS - ops@.len(),
    {
        if ops.len() == MAX_PIPELINE_OPS {
            return Err(WalkError::TooLongOrCyclic);
        }
        let mut k: usize = 0;
        while k < ops.len()
            invariant
                k <= ops@.len(),
                next != 0,
                ops@.len() < MAX_PIPELINE_OPS,
                walk(objects@, low32(first), Seq::empty()) == walk(objects@, next, ops_view(ops@)),
                forall|j: int| 0 <= j < k ==> (#[trigger] ops@[j]).id != next,
            decreases ops@.len() - k,
        {
            if ops[k].id == next {
                assert(ops_view(ops@)[k as int].id == next);
                return Err(WalkError::TooLongOrCyclic);
            }
            k = k + 1;
        }
        proof {
            assert forall|j: int| 0 <= j < ops_view(ops@).len() implies (
            #[trigger] ops_view(ops@)[j]).id != next by {
                assert(ops@[j].id != next);
            }
        }
        match find_object(objects, next) {
            None => {
                return Err(WalkError::NotRead(next));
            },
            Some(i) => match &objects[i].properties {
                None => {
                    return Err(WalkError::Unreadable);
                },
                Some(records) => match read_colorop(next, records) {
                    Err(e) => {
                        return Err(e);
                    },
                    Ok(read) => {
                        let ghost before = ops@;
                        next = read.next;
                        ops.push(read.op);
                        assert(ops_view(ops@) =~= ops_view(before).push(read.op@));
                    },
                },
            },
        }
    }
    Ok(ColorPipeline { id: first, ops })
}

/// A walked pipeline has at most 64 operations, no operation twice, and each operation is
/// followed by the one that it names.
pub proof fn law_walk_is_a_chain(
    objects: Seq<ColorOpObject>,
    next: u32,
    walked: Seq<ColorOpModel>,
    ops: Seq<ColorOpModel>,
)
    requires
        walk(objects, next, walked) == Ok::<Seq<ColorOpModel>, WalkError>(ops),
        walked.len() <= MAX_PIPELINE_OPS,
        forall|i: int, j: int|
            0 <= i < j < walked.len() ==> (#[trigger] walked[i]).id != (#[trigger] walked[j]).id,
    ensures
        walked.len() <= ops.len() <= MAX_PIPELINE_OPS,
        ops.take(walked.len() as int) == walked,
        forall|i: int, j: int|
            0 <= i < j < ops.len() ==> (#[trigger] ops[i]).id != (#[trigger] ops[j]).id,
        ops.len() > walked.len() <==> next != 0,
        ops.len() > walked.len() ==> ops[walked.len() as int].id == next,
        forall|i: int|
            walked.len() <= i < ops.len() ==> #[trigger] op_with_id(objects, ops[i].id) == Ok::<
                (ColorOpModel, u32),
                WalkError,
            >(
                (
                    ops[i],
                    if i + 1 < ops.len() {
                        ops[i + 1].id
                    } else {
                        0
                    },
                ),
            ),
    decreases MAX_PIPELINE_OPS - walked.len(),
{
    if next == 0 {
        assert(ops.take(walked.len() as int) =~= walked);
    } else {
        let (op, after) = op_with_id(objects, next)->Ok_0;
        let more = walked.push(op);
        assert forall|i: int, j: int| 0 <= i < j < more.len() implies (#[trigger] more[i]).id != (
        #[trigger] more[j]).id by {
            if j == walked.len() {
                assert(walked[i].id != next);
            }
        }
        law_walk_is_a_chain(objects, after, more, ops);
        assert(ops.take(more.len() as int) == more);
        assert(ops[walked.len() as int] == more[walked.len() as int]);
        assert(ops.take(walked.len() as int) =~= walked) by {
            assert forall|k: int| 0 <= k < walked.len() implies ops[k] == walked[k] by {
                assert(ops.take(more.len() as int)[k] == more[k]);
            }
        }
        assert forall|i: int| walked.len() <= i < ops.len() implies #[trigger] op_with_id(
            objects,
            ops[i].id,
        ) == Ok::<(ColorOpModel, u32), WalkError>(
            (
                ops[i],
                if i + 1 < ops.len() {
                    ops[i + 1].id
                } else {
                    0
                },
            ),
        ) by {
            if i == walked.len() {
                assert(ops[i] == op && op.id == next);
            }
        }
    }
}

/// The values of the plane's pipeline property: those of the first property of that name, if
/// it is an enum.
pub open spec fn pipeline_values(plane: Seq<PropertyRecord>) -> Seq<u64>
    decreases plane.len(),
{
    if plane.len() == 0 {
        Seq::empty()
    } else if plane[0].name@ == "COLOR_PIPELINE"@ {
        match plane[0].choices {
            Some(info) => info.values@,
            None => Seq::empty(),
        }
    } else {
        pipeline_values(plane.skip(1))
    }
}

fn find_pipeline_values(plane: &Vec<PropertyRecord>) -> (r: Option<&EnumInfo>)
    ensures
        match r {
            Some(info) => info.values@ == pipeline_values(plane@),
            None => pipeline_values(plane@) == Seq::<u64>::empty(),
        },
{
    let mut i: usize = 0;
    proof {
        assert(plane@.skip(0) =~= plane@);
    }
    while i < plane.len()
        invariant
            i <= plane@.len(),
            pipeline_values(plane@) == pipeline_values(plane@.skip(i as int)),
        decreases plane@.len() - i,
    {
        proof {
            assert(plane@.skip(i as int)[0] == plane@[i as int]);
            assert(plane@.skip(i as int).skip(1) =~= plane@.skip(i as int + 1));
        }
        if same(plane[i].name.as_str(), "COLOR_PIPELINE") {
            return match &plane[i].choices {
                Some(info) => Some(info),
                None => None,
            };
        }
        i = i + 1;
    }
    None
}

/// The usable pipelines among the values, in order. Zero stands for no pipeline.
pub open spec fn usable_pipelines(objects: Seq<ColorOpObject>, values: Seq<u64>) -> Seq<PipelineModel>
    decreases values.len(),
{
    if values.len() == 0 {
        Seq::empty()
    } else {
        let before = usable_pipelines(objects, values.drop_last());
        let value = values.last();
        if value == 0 {
            before
        } else {
            match walk(objects, low32(value), Seq::empty()) {
                Ok(ops) => before.push(PipelineModel { id: value, ops }),
                Err(_) => before,
            }
        }
    }
}

pub open spec fn pipelines_view(pipelines: Seq<ColorPipeline>) -> Seq<PipelineModel> {
    Seq::new(pipelines.len(), |i: int| pipelines[i]@)
}

/// The color pipelines of a plane, from its properties and the objects read so far. Pipelines
/// that cannot be used are left out.
pub fn plane_color_pipelines(plane: &Vec<PropertyRecord>, objects: &Vec<ColorOpObject>) -> (r: Vec<
    ColorPipeline,
>)
    ensures
        pipelines_view(r@) == usable_pipelines(objects@, pipeline_values(plane@)),
{
    let mut r: Vec<ColorPipeline> = Vec::new();
    assert(pipelines_view(r@) =~= Seq::empty());
    if let Some(info) = find_pipeline_values(plane) {
        let mut i: usize = 0;
        while i < info.values.len()
            invariant
                i <= info.values@.len(),
                pipelines_view(r@) == usable_pipelines(objects@, info.values@.take(i as int)),
            decreases info.values@.len() - i,
        {
            let value: u64 = info.values[i];
            proof {
                assert(info.values@.take(i as int + 1).drop_last() =~= info.values@.take(i as int));
                assert(info.values@.take(i as int + 1).last() == value);
            }
            if value != 0 {
                let ghost before = r@;
                match walk_pipeline(objects, value) {
                    Ok(pipeline) => {
                        r.push(pipeline);
                        assert(pipelines_view(r@) =~= pipelines_view(before).push(pipeline@));
                    },
                    Err(_) => {},
                }
            }
            i = i + 1;
        }
        assert(info.values@.take(i as int) =~= info.values@);
    }
    r
}

/// A value of the plane's pipeline property whose chain reaches an object that was not read.
pub open spec fn lacks(objects: Seq<ColorOpObject>, value: u64, id: u32) -> bool {
    value != 0 && walk(objects, low32(value), Seq::empty()) == Err::<Seq<ColorOpModel>, WalkError>(
        WalkError::NotRead(id),
    )
}

/// The chains of the first `n` values reach no object that was not read.
pub open spec fn complete_before(objects: Seq<ColorOpObject>, values: Seq<u64>, n: int) -> bool {
    forall|k: int, id: u32| 0 <= k < n ==> !#[trigger] lacks(objects, values[k], id)
}

/// The chain of value `i` is the first one that reaches an object that was not read.
pub open spec fn lacks_first(objects: Seq<ColorOpObject>, values: Seq<u64>, i: int, id: u32) -> bool {
    0 <= i < values.len() && lacks(objects, values[i], id) && complete_before(objects, values, i)
}

/// The object is the one that the first incomplete chain lacks.
pub open spec fn first_missing(objects: Seq<ColorOpObject>, values: Seq<u64>, id: u32) -> bool {
    exists|i: int| #[trigger] lacks_first(objects, values, i, id)
}

/// The object that has to be read next before all pipelines of the plane are known: the one
/// that the first incomplete chain lacks.
pub fn missing_object(plane: &Vec<PropertyRecord>, objects: &Vec<ColorOpObject>) -> (r: Option<u32>)
    ensures
        r is Some ==> first_missing(objects@, pipeline_values(plane@), r->0),
        r is None ==> complete_before(
            objects@,
            pipeline_values(plane@),
            pipeline_values(plane@).len() as int,
        ),
{
    if let Some(info) = find_pipeline_values(plane) {
        let mut i: usize = 0;
        while i < info.values.len()
            invariant
                i <= info.values@.len(),
                info.values@ == pipeline_values(plane@),
                complete_before(objects@, info.values@, i as int),
            decreases info.values@.len() - i,
        {
            let value: u64 = info.values[i];
            if value != 0 {
                match walk_pipeline(objects, value) {
                    Err(WalkError::NotRead(id)) => {
                        assert(lacks_first(objects@, pipeline_values(plane@), i as int, id));
                        assert(first_missing(objects@, pipeline_values(plane@), id));
                        return Some(id);
                    },
                    _ => {},
                }
            }
            i = i + 1;
        }
    }
    None
}

/// A record that no later one of the same name follows.
pub open spec fn decides(records: Seq<PropertyRecord>, k: int, name: Seq<char>) -> bool {
    &&& 0 <= k < records.len()
    &&& records[k].name@ == name
    &&& forall|j: int| k < j < records.len() ==> (#[trigger] records[j]).name@ != name
}

proof fn lemma_record_names()
    ensures
        "TYPE"@.len() == 4 && "TYPE"@[0] == 'T',
        "NEXT"@.len() == 4 && "NEXT"@[0] == 'N',
        "SIZE"@.len() == 4 && "SIZE"@[0] == 'S',
        "BYPASS"@.len() == 6,
        "CURVE_1D_TYPE"@.len() == 13,
        "LUT1D_INTERPOLATION"@.len() == 19 && "LUT1D_INTERPOLATION"@[3] == '1',
        "LUT3D_INTERPOLATION"@.len() == 19 && "LUT3D_INTERPOLATION"@[3] == '3',
        "1D Curve"@.len() == 8,
        "1D LUT"@.len() == 6 && "1D LUT"@[0] == '1',
        "3x4 Matrix"@.len() == 10 && "3x4 Matrix"@[0] == '3',
        "Multiplier"@.len() == 10 && "Multiplier"@[0] == 'M',
        "3D LUT"@.len() == 6 && "3D LUT"@[0] == '3',
{
    reveal_strlit("TYPE");
    reveal_strlit("NEXT");
    reveal_strlit("SIZE");
    reveal_strlit("BYPASS");
    reveal_strlit("CURVE_1D_TYPE");
    reveal_strlit("LUT1D_INTERPOLATION");
    reveal_strlit("LUT3D_INTERPOLATION");
    reveal_strlit("1D Curve");
    reveal_strlit("1D LUT");
    reveal_strlit("3x4 Matrix");
    reveal_strlit("Multiplier");
    reveal_strlit("3D LUT");
}

/// The last record of a name decides.
proof fn lemma_last_record_decides(records: Seq<PropertyRecord>, k: int)
    requires
        decides(records, k, records[k].name@),
    ensures
        ({
            let facts = facts_of(records);
            let record = records[k];
            &&& record.name@ == "NEXT"@ ==> facts.next == record.value % 0x1_0000_0000
            &&& record.name@ == "SIZE"@ ==> facts.size == record.value % 0x1_0000_0000
            &&& record.name@ == "TYPE"@ && record.choices is Some ==> facts.kernel_type == text(
                record.choices->0.selected,
            )
            &&& record.name@ == "BYPASS"@ ==> facts.bypassable
            &&& prop_named(facts.props, record.name@) == Some(record.handle)
        }),
    decreases records.len(),
{
    lemma_record_names();
    let before = records.drop_last();
    let facts = facts_of(records);
    let earlier = facts_of(before);
    let last = records.last();
    assert(facts.props == earlier.props.push((last.name@, last.handle)));
    assert(facts.props.drop_last() =~= earlier.props);
    if k < records.len() - 1 {
        assert(before[k] == records[k]);
        assert forall|j: int| k < j < before.len() implies (#[trigger] before[j]).name@
            != records[k].name@ by {
            assert(before[j] == records[j]);
        }
        lemma_last_record_decides(before, k);
        assert(last.name@ != records[k].name@) by {
            assert(last == records[records.len() - 1]);
        }
    }
}

/// An operation that has a bypass has a record of it.
proof fn lemma_bypass_is_recorded(records: Seq<PropertyRecord>)
    requires
        facts_of(records).bypassable,
    ensures
        exists|k: int| 0 <= k < records.len() && (#[trigger] records[k]).name@ == "BYPASS"@,
    decreases records.len(),
{
    lemma_record_names();
    if records.len() > 0 {
        let before = records.drop_last();
        if records.last().name@ == "BYPASS"@ {
            assert(records[records.len() - 1].name@ == "BYPASS"@);
        } else {
            lemma_bypass_is_recorded(before);
            let k = choose|k: int|
                0 <= k < before.len() && (#[trigger] before[k]).name@ == "BYPASS"@;
            assert(records[k].name@ == "BYPASS"@);
        }
    }
}

/// An operation is what its records say: its type is the selected value of `TYPE`, its successor
/// and its size are the values of `NEXT` and `SIZE`, it can be bypassed if it has a `BYPASS`, and
/// every property is found by its name. Where a name comes more than once, the last record holds.
/// An operation of a type that is not known is accepted only if it can be bypassed.
pub proof fn law_operations_are_as_recorded(
    id: u32,
    records: Vec<PropertyRecord>,
    r: Result<ReadColorOp, WalkError>,
    of_type: int,
    k: int,
)
    requires
        call_ensures(read_colorop, (id, &records), r),
        decides(records@, of_type, "TYPE"@),
        records@[of_type].choices is Some,
        records@[of_type].choices->0.selected is Some,
        0 <= k < records@.len(),
        decides(records@, k, records@[k].name@),
    ensures
        ({
            let selected = records@[of_type].choices->0.selected->0@;
            let known = selected == "1D Curve"@ || selected == "1D LUT"@ || selected
                == "3x4 Matrix"@ || selected == "Multiplier"@ || selected == "3D LUT"@;
            let bypass = exists|j: int|
                0 <= j < records@.len() && (#[trigger] records@[j]).name@ == "BYPASS"@;
            let name = records@[k].name@;
            &&& r is Ok <== known
            &&& r is Ok && !known ==> bypass
            &&& r matches Ok(read) ==> {
                &&& read.op@.id == id
                &&& read.op@.kind is Curve1D <==> selected == "1D Curve"@
                &&& read.op@.kind is Lut1D <==> selected == "1D LUT"@
                &&& read.op@.kind is Ctm3x4 <==> selected == "3x4 Matrix"@
                &&& read.op@.kind is Multiplier <==> selected == "Multiplier"@
                &&& read.op@.kind is Lut3D <==> selected == "3D LUT"@
                &&& read.op@.bypassable ==> bypass
                &&& name == "BYPASS"@ ==> read.op@.bypassable
                &&& name == "NEXT"@ ==> read.next == records@[k].value % 0x1_0000_0000
                &&& name == "SIZE"@ ==> (read.op@.kind matches KindModel::Lut1D { size, .. }
                    ==> size == records@[k].value % 0x1_0000_0000)
                &&& name == "SIZE"@ ==> (read.op@.kind matches KindModel::Lut3D { size, .. }
                    ==> size == records@[k].value % 0x1_0000_0000)
                &&& prop_named(read.op@.props, name) == Some(records@[k].handle)
            }
        }),
{
    lemma_record_names();
    lemma_last_record_decides(records@, of_type);
    lemma_last_record_decides(records@, k);
    if facts_of(records@).bypassable {
        lemma_bypass_is_recorded(records@);
    }
}

} // verus!
