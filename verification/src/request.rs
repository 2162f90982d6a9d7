//! Atomic modesetting requests: which property of which object is set to which value.

use drm::control::atomic::AtomicModeReq;
use vstd::prelude::*;

#[allow(unused_imports)]
use crate::geometry::{mirrors, quarter_turns};
use crate::geometry::{Rectangle, Transform};
use crate::names::same;
use crate::softfloat::{F32_ONE, alpha_units, fixed_16_16};
#[allow(unused_imports)]
use crate::softfloat::{alpha_units_of, fixed_16_16_of};

verus! {

/// The kernel properties that the backend reads or sets.
#[derive(Debug, Clone, Copy, PartialEq, Eq, Structural)]
pub enum Property {
    CrtcId,
    FbId,
    SrcX,
    SrcY,
    SrcW,
    SrcH,
    CrtcX,
    CrtcY,
    CrtcW,
    CrtcH,
    Rotation,
    Alpha,
    FbDamageClips,
    InFenceFd,
    Active,
    ModeId,
    VrrEnabled,
    GammaLut,
    GammaLutSize,
    DegammaLutSize,
    Ctm,
    Colorspace,
    HdrOutputMetadata,
    MaxBpc,
    VrrCapable,
}

impl Property {
    /// The name that the kernel gives the property.
    pub open spec fn name(self) -> Seq<char> {
        match self {
            Property::CrtcId => "CRTC_ID"@,
            Property::FbId => "FB_ID"@,
            Property::SrcX => "SRC_X"@,
            Property::SrcY => "SRC_Y"@,
            Property::SrcW => "SRC_W"@,
            Property::SrcH => "SRC_H"@,
            Property::CrtcX => "CRTC_X"@,
            Property::CrtcY => "CRTC_Y"@,
            Property::CrtcW => "CRTC_W"@,
            Property::CrtcH => "CRTC_H"@,
            Property::Rotation => "rotation"@,
            Property::Alpha => "alpha"@,
            Property::FbDamageClips => "FB_DAMAGE_CLIPS"@,
            Property::InFenceFd => "IN_FENCE_FD"@,
            Property::Active => "ACTIVE"@,
            Property::ModeId => "MODE_ID"@,
            Property::VrrEnabled => "VRR_ENABLED"@,
            Property::GammaLut => "GAMMA_LUT"@,
            Property::GammaLutSize => "GAMMA_LUT_SIZE"@,
            Property::DegammaLutSize => "DEGAMMA_LUT_SIZE"@,
            Property::Ctm => "CTM"@,
            Property::Colorspace => "Colorspace"@,
            Property::HdrOutputMetadata => "HDR_OUTPUT_METADATA"@,
            Property::MaxBpc => "max bpc"@,
            Property::VrrCapable => "vrr_capable"@,
        }
    }

    /// The name that the kernel gives the property.
    pub fn kernel_name(self) -> (name: &'static str)
        ensures
            name@ == self.name(),
    {
        match self {
            Property::CrtcId => "CRTC_ID",
            Property::FbId => "FB_ID",
            Property::SrcX => "SRC_X",
            Property::SrcY => "SRC_Y",
            Property::SrcW => "SRC_W",
            Property::SrcH => "SRC_H",
            Property::CrtcX => "CRTC_X",
            Property::CrtcY => "CRTC_Y",
            Property::CrtcW => "CRTC_W",
            Property::CrtcH => "CRTC_H",
            Property::Rotation => "rotation",
            Property::Alpha => "alpha",
            Property::FbDamageClips => "FB_DAMAGE_CLIPS",
            Property::InFenceFd => "IN_FENCE_FD",
            Property::Active => "ACTIVE",
            Property::ModeId => "MODE_ID",
            Property::VrrEnabled => "VRR_ENABLED",
            Property::GammaLut => "GAMMA_LUT",
            Property::GammaLutSize => "GAMMA_LUT_SIZE",
            Property::DegammaLutSize => "DEGAMMA_LUT_SIZE",
            Property::Ctm => "CTM",
            Property::Colorspace => "Colorspace",
            Property::HdrOutputMetadata => "HDR_OUTPUT_METADATA",
            Property::MaxBpc => "max bpc",
            Property::VrrCapable => "vrr_capable",
        }
    }

    /// The property that the kernel calls `name`.
    pub fn from_kernel_name(name: &str) -> (property: Option<Property>)
        ensures
            match property {
                Some(p) => p.name() == name@,
                None => forall|p: Property| #[trigger] p.name() != name@,
            },
    {
        if same(name, "CRTC_ID") {
            return Some(Property::CrtcId);
        }
        if same(name, "FB_ID") {
            return Some(Property::FbId);
        }
        if same(name, "SRC_X") {
            return Some(Property::SrcX);
        }
        if same(name, "SRC_Y") {
            return Some(Property::SrcY);
        }
        if same(name, "SRC_W") {
            return Some(Property::SrcW);
        }
        if same(name, "SRC_H") {
            return Some(Property::SrcH);
        }
        if same(name, "CRTC_X") {
            return Some(Property::CrtcX);
        }
        if same(name, "CRTC_Y") {
            return Some(Property::CrtcY);
        }
        if same(name, "CRTC_W") {
            return Some(Property::CrtcW);
        }
        if same(name, "CRTC_H") {
            return Some(Property::CrtcH);
        }
        if same(name, "rotation") {
            return Some(Property::Rotation);
        }
        if same(name, "alpha") {
            return Some(Property::Alpha);
        }
        if same(name, "FB_DAMAGE_CLIPS") {
            return Some(Property::FbDamageClips);
        }
        if same(name, "IN_FENCE_FD") {
            return Some(Property::InFenceFd);
        }
        if same(name, "ACTIVE") {
            return Some(Property::Active);
        }
        if same(name, "MODE_ID") {
            return Some(Property::ModeId);
        }
        if same(name, "VRR_ENABLED") {
            return Some(Property::VrrEnabled);
        }
        if same(name, "GAMMA_LUT") {
            return Some(Property::GammaLut);
        }
        if same(name, "GAMMA_LUT_SIZE") {
            return Some(Property::GammaLutSize);
        }
        if same(name, "DEGAMMA_LUT_SIZE") {
            return Some(Property::DegammaLutSize);
        }
        if same(name, "CTM") {
            return Some(Property::Ctm);
        }
        if same(name, "Colorspace") {
            return Some(Property::Colorspace);
        }
        if same(name, "HDR_OUTPUT_METADATA") {
            return Some(Property::HdrOutputMetadata);
        }
        if same(name, "max bpc") {
            return Some(Property::MaxBpc);
        }
        if same(name, "vrr_capable") {
            return Some(Property::VrrCapable);
        }
        None
    }
}

/// No two properties have the same name.
pub proof fn law_property_names_differ(a: Property, b: Property)
    requires
        a.name() == b.name(),
    ensures
        a == b,
{
    reveal_strlit("CRTC_ID");
    reveal_strlit("FB_ID");
    reveal_strlit("SRC_X");
    reveal_strlit("SRC_Y");
    reveal_strlit("SRC_W");
    reveal_strlit("SRC_H");
    reveal_strlit("CRTC_X");
    reveal_strlit("CRTC_Y");
    reveal_strlit("CRTC_W");
    reveal_strlit("CRTC_H");
    reveal_strlit("rotation");
    reveal_strlit("alpha");
    reveal_strlit("FB_DAMAGE_CLIPS");
    reveal_strlit("IN_FENCE_FD");
    reveal_strlit("ACTIVE");
    reveal_strlit("MODE_ID");
    reveal_strlit("VRR_ENABLED");
    reveal_strlit("GAMMA_LUT");
    reveal_strlit("GAMMA_LUT_SIZE");
    reveal_strlit("DEGAMMA_LUT_SIZE");
    reveal_strlit("CTM");
    reveal_strlit("Colorspace");
    reveal_strlit("HDR_OUTPUT_METADATA");
    reveal_strlit("max bpc");
    reveal_strlit("vrr_capable");
    let n = a.name();
    assert(n == b.name());
    assert(n.len() == b.name().len());
    assert(n[0] == b.name()[0]);
    assert(n[2] == b.name()[2]);
    assert(n.last() == b.name().last());
}

/// The handle of one property of one object.
#[derive(Debug, Clone, Copy, PartialEq, Eq, Structural)]
pub struct PropEntry {
    pub object: u32,
    pub property: Property,
    pub handle: u32,
}

/// The handle that a table holds for a property of an object; a later entry replaces an
/// earlier one.
pub open spec fn handle_in(table: Seq<PropEntry>, object: u32, property: Property) -> Option<u32>
    decreases table.len(),
{
    if table.len() == 0 {
        None
    } else if table.last().object == object && table.last().property == property {
        Some(table.last().handle)
    } else {
        handle_in(table.drop_last(), object, property)
    }
}

/// Whether the table holds anything for an object.
pub open spec fn knows_object(table: Seq<PropEntry>, object: u32) -> bool {
    exists|i: int| 0 <= i < table.len() && (#[trigger] table[i]).object == object
}

/// Every object and every property handle is a valid kernel id, that is not zero.
pub open spec fn valid_ids(table: Seq<PropEntry>) -> bool {
    forall|i: int|
        0 <= i < table.len() ==> (#[trigger] table[i]).object != 0 && table[i].handle != 0
}

/// See [`handle_in`].
pub fn find_handle(table: &Vec<PropEntry>, object: u32, property: Property) -> (handle: Option<u32>)
    ensures
        handle == handle_in(table@, object, property),
{
    let mut n: usize = table.len();
    assert(table@.take(n as int) =~= table@);
    while n > 0
        invariant
            n <= table.len(),
            handle_in(table@, object, property) == handle_in(
                table@.take(n as int),
                object,
                property,
            ),
        decreases n,
    {
        let entry: PropEntry = table[n - 1];
        assert(table@.take(n as int).last() == entry);
        assert(table@.take(n as int).drop_last() =~= table@.take(n - 1));
        if entry.object == object && entry.property == property {
            return Some(entry.handle);
        }
        n = n - 1;
    }
    None
}

/// See [`knows_object`].
pub fn is_known(table: &Vec<PropEntry>, object: u32) -> (known: bool)
    ensures
        known == knows_object(table@, object),
{
    let mut i: usize = 0;
    while i < table.len()
        invariant
            i <= table.len(),
            forall|j: int| 0 <= j < i ==> (#[trigger] table@[j]).object != object,
        decreases table.len() - i,
    {
        if table[i].object == object {
            return true;
        }
        i = i + 1;
    }
    false
}

/// A handle that a table of valid ids holds is valid, and so is its object.
proof fn lemma_found_handle_is_valid(table: Seq<PropEntry>, object: u32, property: Property)
    requires
        valid_ids(table),
        handle_in(table, object, property) is Some,
    ensures
        object != 0,
        handle_in(table, object, property)->Some_0 != 0,
    decreases table.len(),
{
    if table.last().object == object && table.last().property == property {
        assert(table[table.len() - 1].object != 0);
    } else {
        assert forall|i: int| 0 <= i < table.drop_last().len() implies (
        #[trigger] table.drop_last()[i]).object != 0 && table.drop_last()[i].handle != 0 by {
            assert(table.drop_last()[i] == table[i]);
        }
        lemma_found_handle_is_valid(table.drop_last(), object, property);
    }
}

/// The property handles of the objects of a device.
#[derive(Debug, Clone)]
pub struct PropMapping {
    pub connectors: Vec<PropEntry>,
    pub crtcs: Vec<PropEntry>,
    pub planes: Vec<PropEntry>,
}

impl PropMapping {
    /// All ids are valid kernel ids.
    pub open spec fn wf(&self) -> bool {
        &&& valid_ids(self.connectors@)
        &&& valid_ids(self.crtcs@)
        &&& valid_ids(self.planes@)
    }

    /// Handle of a property of a connector.
    pub fn conn_prop_handle(&self, handle: u32, property: Property) -> (r: Result<u32, RequestError>)
        ensures
            r == needed(self.connectors@, handle, property),
    {
        match find_handle(&self.connectors, handle, property) {
            Some(found) => Ok(found),
            None => Err(RequestError { handle, property }),
        }
    }

    /// Handle of a property of a CRTC.
    pub fn crtc_prop_handle(&self, handle: u32, property: Property) -> (r: Result<u32, RequestError>)
        ensures
            r == needed(self.crtcs@, handle, property),
    {
        match find_handle(&self.crtcs, handle, property) {
            Some(found) => Ok(found),
            None => Err(RequestError { handle, property }),
        }
    }

    /// Handle of a property of a plane.
    pub fn plane_prop_handle(&self, handle: u32, property: Property) -> (r: Result<u32, RequestError>)
        ensures
            r == needed(self.planes@, handle, property),
    {
        match find_handle(&self.planes, handle, property) {
            Some(found) => Ok(found),
            None => Err(RequestError { handle, property }),
        }
    }
}

/// An object has no property of the needed kind.
#[derive(Debug, Clone, Copy, PartialEq, Eq, Structural)]
pub struct RequestError {
    pub handle: u32,
    pub property: Property,
}

/// The handle of a property, or the error that the object does not have it.
pub open spec fn needed(table: Seq<PropEntry>, object: u32, property: Property) -> Result<
    u32,
    RequestError,
> {
    match handle_in(table, object, property) {
        Some(found) => Ok(found),
        None => Err(RequestError { handle: object, property }),
    }
}

/// One property of one object that is set.
#[derive(Debug, Clone, Copy, PartialEq, Eq, Structural)]
pub struct Write {
    pub object: u32,
    pub property: u32,
    pub value: u64,
}

/// A value for a property of an object. Where the object does not have the property, the value
/// is left out, unless it is required.
#[derive(Debug, Clone, Copy, PartialEq, Eq, Structural)]
pub struct Item {
    pub property: Property,
    pub value: u64,
    pub required: bool,
}

/// What comes of setting values: what is written, in order, and the error that ends it.
#[verifier::ext_equal]
pub struct Steps {
    pub writes: Seq<Write>,
    pub error: Option<RequestError>,
}

/// Nothing to write.
pub open spec fn no_steps() -> Steps {
    Steps { writes: seq![], error: None }
}

/// First `a`; and `b` unless `a` ends in an error.
pub open spec fn followed_by(a: Steps, b: Steps) -> Steps {
    if a.error is Some {
        a
    } else {
        Steps { writes: a.writes + b.writes, error: b.error }
    }
}

/// Sets one value.
pub open spec fn item_steps(table: Seq<PropEntry>, object: u32, item: Item) -> Steps {
    match handle_in(table, object, item.property) {
        Some(property) => Steps {
            writes: seq![Write { object, property, value: item.value }],
            error: None,
        },
        None => Steps {
            writes: seq![],
            error: if item.required {
                Some(RequestError { handle: object, property: item.property })
            } else {
                None
            },
        },
    }
}

/// Sets values of one object one after the other.
pub open spec fn items_steps(table: Seq<PropEntry>, object: u32, items: Seq<Item>) -> Steps
    decreases items.len(),
{
    if items.len() == 0 {
        no_steps()
    } else {
        followed_by(
            items_steps(table, object, items.drop_last()),
            item_steps(table, object, items.last()),
        )
    }
}

/// A required value.
pub open spec fn must(property: Property, value: u64) -> Item {
    Item { property, value, required: true }
}

/// A value for objects that have the property.
pub open spec fn may(property: Property, value: u64) -> Item {
    Item { property, value, required: false }
}

/// The raw value of a signed property.
pub open spec fn signed_value(x: int) -> u64 {
    if x < 0 {
        (x + 0x1_0000_0000_0000_0000) as u64
    } else {
        x as u64
    }
}

fn signed(x: i32) -> (value: u64)
    ensures
        value == signed_value(x as int),
{
    if x >= 0 {
        x as u64
    } else {
        let below: u64 = (-(x as i64)) as u64;
        u64::MAX - (below - 1)
    }
}

/// Bits of the `rotation` property of a plane.
#[derive(Debug, Clone, Copy, PartialEq, Eq, Structural)]
pub struct DrmRotation {
    pub bits: u8,
}

pub const ROTATE_0: u8 = 1;

pub const ROTATE_90: u8 = 2;

pub const ROTATE_180: u8 = 4;

pub const ROTATE_270: u8 = 8;

pub const REFLECT_Y: u8 = 32;

/// The rotation bits of a transform: a flip is a reflection along the y axis on top of the
/// rotation.
pub open spec fn rotation_bits(transform: Transform) -> u8 {
    match transform {
        Transform::Normal => ROTATE_0,
        Transform::_90 => ROTATE_90,
        Transform::_180 => ROTATE_180,
        Transform::_270 => ROTATE_270,
        Transform::Flipped => REFLECT_Y,
        Transform::Flipped90 => REFLECT_Y | ROTATE_90,
        Transform::Flipped180 => REFLECT_Y | ROTATE_180,
        Transform::Flipped270 => REFLECT_Y | ROTATE_270,
    }
}

impl From<Transform> for DrmRotation {
    fn from(transform: Transform) -> (rotation: DrmRotation) {
        DrmRotation {
            bits: match transform {
                Transform::Normal => ROTATE_0,
                Transform::_90 => ROTATE_90,
                Transform::_180 => ROTATE_180,
                Transform::_270 => ROTATE_270,
                Transform::Flipped => REFLECT_Y,
                Transform::Flipped90 => REFLECT_Y | ROTATE_90,
                Transform::Flipped180 => REFLECT_Y | ROTATE_180,
                Transform::Flipped270 => REFLECT_Y | ROTATE_270,
            },
        }
    }
}

impl vstd::std_specs::convert::FromSpecImpl<Transform> for DrmRotation {
    open spec fn obeys_from_spec() -> bool {
        true
    }

    open spec fn from_spec(transform: Transform) -> DrmRotation {
        DrmRotation { bits: rotation_bits(transform) }
    }
}

/// A coordinate, given by the bits of a double precision value, in 16.16 fixed point.
pub fn to_fixed(bits: u64) -> (fixed: u32)
    ensures
        fixed == fixed_16_16_of(bits),
{
    fixed_16_16(bits)
}

/// The part of a buffer that a plane shows; coordinates are the bits of double precision
/// values.
#[derive(Debug, Clone, Copy)]
pub struct SourceRect {
    pub x: u64,
    pub y: u64,
    pub w: u64,
    pub h: u64,
}

/// What a plane shows and where.
#[derive(Debug, Clone, Copy)]
pub struct PlaneConfig {
    pub src: SourceRect,
    pub dst: Rectangle,
    pub transform: Transform,
    /// Bits of a single precision opacity.
    pub alpha: u32,
    /// Blob with the damaged parts of the framebuffer.
    pub damage_clips: Option<u64>,
    pub fb: u32,
    /// File descriptor that is signalled when the buffer is ready.
    pub fence: Option<i32>,
}

/// A plane and what it shows; without a configuration it is disabled.
#[derive(Debug, Clone, Copy)]
pub struct PlaneState {
    pub handle: u32,
    pub config: Option<PlaneConfig>,
}

/// Raw value of the requested colorspace on one connector.
#[derive(Debug, Clone, Copy, PartialEq, Eq, Structural)]
pub struct ColorspaceValue {
    pub connector: u32,
    pub value: u64,
}

/// The colorspace value of a connector; a later entry replaces an earlier one.
pub open spec fn value_for(values: Seq<ColorspaceValue>, connector: u32) -> Option<u64>
    decreases values.len(),
{
    if values.len() == 0 {
        None
    } else if values.last().connector == connector {
        Some(values.last().value)
    } else {
        value_for(values.drop_last(), connector)
    }
}

/// A connector color state as raw property values.
#[derive(Debug, Clone)]
pub struct ResolvedColorState {
    /// Raw value of the requested colorspace per connector.
    pub colorspace_values: Vec<ColorspaceValue>,
    /// The `HDR_OUTPUT_METADATA` blob; zero when no metadata is signalled.
    pub hdr_blob: u64,
    /// The raw `max bpc` value, if one should be set.
    pub max_bpc: Option<u64>,
}

/// View of [`ResolvedColorState`].
#[verifier::ext_equal]
pub struct ResolvedColorModel {
    pub colorspace_values: Seq<ColorspaceValue>,
    pub hdr_blob: u64,
    pub max_bpc: Option<u64>,
}

impl View for ResolvedColorState {
    type V = ResolvedColorModel;

    open spec fn view(&self) -> ResolvedColorModel {
        ResolvedColorModel {
            colorspace_values: self.colorspace_values@,
            hdr_blob: self.hdr_blob,
            max_bpc: self.max_bpc,
        }
    }
}

impl ResolvedColorModel {
    /// Nothing is signalled.
    pub open spec fn plain() -> ResolvedColorModel {
        ResolvedColorModel { colorspace_values: seq![], hdr_blob: 0, max_bpc: None }
    }
}

impl Default for ResolvedColorState {
    fn default() -> (r: ResolvedColorState)
        ensures
            r@ == ResolvedColorModel::plain(),
    {
        ResolvedColorState { colorspace_values: Vec::new(), hdr_blob: 0, max_bpc: None }
    }
}

impl ResolvedColorState {
    /// The colorspace value of a connector.
    pub fn colorspace_value(&self, connector: u32) -> (value: Option<u64>)
        ensures
            value == value_for(self@.colorspace_values, connector),
    {
        let values: &Vec<ColorspaceValue> = &self.colorspace_values;
        let mut n: usize = values.len();
        assert(values@.take(n as int) =~= values@);
        while n > 0
            invariant
                n <= values.len(),
                values@ == self@.colorspace_values,
                value_for(values@, connector) == value_for(values@.take(n as int), connector),
            decreases n,
        {
            let entry: ColorspaceValue = values[n - 1];
            assert(values@.take(n as int).last() == entry);
            assert(values@.take(n as int).drop_last() =~= values@.take(n - 1));
            if entry.connector == connector {
                return Some(entry.value);
            }
            n = n - 1;
        }
        None
    }
}

/// Blobs of the hardware color pipeline of a CRTC; zero disables a stage.
#[derive(Debug, Clone, Copy, PartialEq, Eq, Structural)]
pub struct CrtcColorBlobs {
    pub gamma_blob: u64,
    pub ctm_blob: u64,
}

impl Default for CrtcColorBlobs {
    fn default() -> (r: CrtcColorBlobs)
        ensures
            r == (CrtcColorBlobs { gamma_blob: 0, ctm_blob: 0 }),
    {
        CrtcColorBlobs { gamma_blob: 0, ctm_blob: 0 }
    }
}

/// Values that attach a connector to a CRTC, with its color state in a full commit.
pub open spec fn connector_items(
    conn: u32,
    crtc: u32,
    color: Option<ResolvedColorModel>,
) -> Seq<Item> {
    let attach = seq![must(Property::CrtcId, crtc as u64)];
    match color {
        None => attach,
        Some(color) => {
            let space = match value_for(color.colorspace_values, conn) {
                Some(value) => seq![must(Property::Colorspace, value)],
                None => seq![],
            };
            let depth = match color.max_bpc {
                Some(value) => seq![may(Property::MaxBpc, value)],
                None => seq![],
            };
            attach + space + seq![may(Property::HdrOutputMetadata, color.hdr_blob)] + depth
        },
    }
}

/// Values that detach a connector and end its color signalling.
pub open spec fn reset_connector_items() -> Seq<Item> {
    seq![
        must(Property::CrtcId, 0),
        may(Property::Colorspace, 0),
        may(Property::HdrOutputMetadata, 0),
    ]
}

/// Values that enable a CRTC.
pub open spec fn crtc_items(
    mode: Option<u64>,
    vrr: bool,
    blobs: Option<CrtcColorBlobs>,
) -> Seq<Item> {
    let first = match mode {
        Some(blob) => seq![must(Property::ModeId, blob)],
        None => seq![],
    };
    let color = match blobs {
        Some(blobs) => seq![
            may(Property::GammaLut, blobs.gamma_blob),
            may(Property::Ctm, blobs.ctm_blob),
        ],
        None => seq![],
    };
    first + seq![
        must(Property::Active, 1),
        Item {
            property: Property::VrrEnabled,
            value: if vrr {
                1
            } else {
                0
            },
            required: vrr,
        },
    ] + color
}

/// Values that disable a CRTC.
pub open spec fn reset_crtc_items() -> Seq<Item> {
    seq![must(Property::Active, 0), must(Property::ModeId, 0), may(Property::VrrEnabled, 0)]
}

/// Values that make a plane show a framebuffer.
pub open spec fn plane_items(crtc: u32, config: PlaneConfig) -> Seq<Item> {
    seq![
        must(Property::CrtcId, crtc as u64),
        must(Property::FbId, config.fb as u64),
        must(Property::SrcX, fixed_16_16_of(config.src.x) as u64),
        must(Property::SrcY, fixed_16_16_of(config.src.y) as u64),
        must(Property::SrcW, fixed_16_16_of(config.src.w) as u64),
        must(Property::SrcH, fixed_16_16_of(config.src.h) as u64),
        must(Property::CrtcX, signed_value(config.dst.loc.x as int)),
        must(Property::CrtcY, signed_value(config.dst.loc.y as int)),
        must(Property::CrtcW, signed_value(config.dst.size.w as int)),
        must(Property::CrtcH, signed_value(config.dst.size.h as int)),
        Item {
            property: Property::Rotation,
            value: rotation_bits(config.transform) as u64,
            required: config.transform != Transform::Normal,
        },
        Item {
            property: Property::Alpha,
            value: alpha_units_of(config.alpha) as u64,
            required: config.alpha != F32_ONE,
        },
        may(
            Property::FbDamageClips,
            match config.damage_clips {
                Some(blob) => blob,
                None => 0,
            },
        ),
        Item {
            property: Property::InFenceFd,
            value: match config.fence {
                Some(fd) => signed_value(fd as int),
                None => signed_value(-1),
            },
            required: config.fence is Some,
        },
    ]
}

/// Values that disable a plane.
pub open spec fn reset_plane_items() -> Seq<Item> {
    seq![
        must(Property::CrtcId, 0),
        must(Property::FbId, 0),
        must(Property::SrcX, 0),
        must(Property::SrcY, 0),
        must(Property::SrcW, 0),
        must(Property::SrcH, 0),
        must(Property::CrtcX, 0),
        must(Property::CrtcY, 0),
        must(Property::CrtcW, 0),
        must(Property::CrtcH, 0),
        may(Property::Rotation, ROTATE_0 as u64),
        may(Property::Alpha, 0xffff),
        may(Property::FbDamageClips, 0),
        may(Property::InFenceFd, signed_value(-1)),
    ]
}

/// What comes of setting the state of a plane.
pub open spec fn plane_steps(mapping: PropMapping, crtc: u32, state: PlaneState) -> Steps {
    match state.config {
        Some(config) => items_steps(mapping.planes@, state.handle, plane_items(crtc, config)),
        None => items_steps(mapping.planes@, state.handle, reset_plane_items()),
    }
}

fn required_item(property: Property, value: u64) -> (item: Item)
    ensures
        item == must(property, value),
{
    Item { property, value, required: true }
}

fn optional_item(property: Property, value: u64) -> (item: Item)
    ensures
        item == may(property, value),
{
    Item { property, value, required: false }
}

/// Every write names a valid object and a valid property.
pub open spec fn valid_writes(writes: Seq<Write>) -> bool {
    forall|i: int|
        0 <= i < writes.len() ==> (#[trigger] writes[i]).object != 0 && writes[i].property != 0
}

/// A request that sets nothing.
pub open spec fn no_values() -> Map<(u32, u32), u64> {
    Map::empty()
}

/// The values that a list of writes leaves: a later write to the same property replaces an
/// earlier one.
pub open spec fn applied(writes: Seq<Write>) -> Map<(u32, u32), u64>
    decreases writes.len(),
{
    if writes.len() == 0 {
        Map::empty()
    } else {
        let w = writes.last();
        applied(writes.drop_last()).insert((w.object, w.property), w.value)
    }
}

/// An atomic request that is being put together.
#[derive(Debug)]
pub struct AtomicRequest<'a> {
    pub mapping: &'a PropMapping,
    pub writes: Vec<Write>,
}

impl<'a> AtomicRequest<'a> {
    /// Only valid ids occur.
    pub open spec fn wf(&self) -> bool {
        &&& self.mapping.wf()
        &&& valid_writes(self.writes@)
    }

    /// What becomes of the request when further values are set.
    pub open spec fn extended(before: AtomicRequest, after: AtomicRequest, steps: Steps) -> bool {
        &&& after.mapping == before.mapping
        &&& after.writes@ == before.writes@ + steps.writes
        &&& after.wf()
    }

    /// An empty request.
    pub fn new(mapping: &'a PropMapping) -> (req: AtomicRequest<'a>)
        requires
            mapping.wf(),
        ensures
            req.wf(),
            req.mapping == mapping,
            req.writes@.len() == 0,
    {
        AtomicRequest { mapping, writes: Vec::new() }
    }

    fn set_items(&mut self, table: &Vec<PropEntry>, object: u32, items: &Vec<Item>) -> (r: Result<
        (),
        RequestError,
    >)
        requires
            old(self).wf(),
            valid_ids(table@),
        ensures
            Self::extended(*old(self), *final(self), items_steps(table@, object, items@)),
            r == outcome(items_steps(table@, object, items@)),
    {
        let ghost before = self.writes@;
        let mut i: usize = 0;
        assert(items@.take(0) =~= seq![]);
        assert(items@.take(items@.len() as int) =~= items@);
        while i < items.len()
            invariant
                i <= items.len(),
                valid_ids(table@),
                self.wf(),
                self.mapping == old(self).mapping,
                before == old(self).writes@,
                self.writes@ == before + items_steps(table@, object, items@.take(i as int)).writes,
                items_steps(table@, object, items@.take(i as int)).error is None,
                items@.take(items@.len() as int) == items@,
            decreases items.len() - i,
        {
            let item: Item = items[i];
            proof {
                assert(items@.take(i + 1).last() == item);
                assert(items@.take(i + 1).drop_last() =~= items@.take(i as int));
            }
            match find_handle(table, object, item.property) {
                Some(property) => {
                    let ghost earlier = self.writes@;
                    proof {
                        lemma_found_handle_is_valid(table@, object, item.property);
                    }
                    self.writes.push(Write { object, property, value: item.value });
                    proof {
                        assert(self.writes@ =~= before + items_steps(
                            table@,
                            object,
                            items@.take(i + 1),
                        ).writes);
                        assert forall|k: int| 0 <= k < self.writes@.len() implies (
                        #[trigger] self.writes@[k]).object != 0 && self.writes@[k].property != 0 by {
                            if k < earlier.len() {
                                assert(self.writes@[k] == earlier[k]);
                            }
                        }
                    }
                },
                None => {
                    proof {
                        assert(self.writes@ =~= before + items_steps(
                            table@,
                            object,
                            items@.take(i + 1),
                        ).writes);
                        if item.required {
                            lemma_error_stays(table@, object, items@, i + 1);
                        }
                    }
                    if item.required {
                        return Err(RequestError { handle: object, property: item.property });
                    }
                },
            }
            i = i + 1;
        }
        Ok(())
    }

    /// Attaches a connector to a CRTC.
    pub fn set_connector(
        &mut self,
        conn: u32,
        crtc: u32,
        color: Option<&ResolvedColorState>,
    ) -> (r: Result<(), RequestError>)
        requires
            old(self).wf(),
        ensures
            Self::extended(
                *old(self),
                *final(self),
                connector_steps(*old(self).mapping, conn, crtc, color_model(color)),
            ),
            r == outcome(connector_steps(*old(self).mapping, conn, crtc, color_model(color))),
    {
        let mut items: Vec<Item> = vec![required_item(Property::CrtcId, crtc as u64)];
        if let Some(color) = color {
            if let Some(value) = color.colorspace_value(conn) {
                items.push(required_item(Property::Colorspace, value));
            }
            items.push(optional_item(Property::HdrOutputMetadata, color.hdr_blob));
            if let Some(max_bpc) = color.max_bpc {
                items.push(optional_item(Property::MaxBpc, max_bpc));
            }
        }
        assert(items@ =~= connector_items(conn, crtc, color_model(color)));
        let mapping = self.mapping;
        self.set_items(&mapping.connectors, conn, &items)
    }

    /// Detaches a connector.
    pub fn reset_connector(&mut self, conn: u32) -> (r: Result<(), RequestError>)
        requires
            old(self).wf(),
        ensures
            Self::extended(
                *old(self),
                *final(self),
                items_steps(old(self).mapping.connectors@, conn, reset_connector_items()),
            ),
            r == outcome(
                items_steps(old(self).mapping.connectors@, conn, reset_connector_items()),
            ),
    {
        let items: Vec<Item> = vec![
            required_item(Property::CrtcId, 0),
            optional_item(Property::Colorspace, 0),
            optional_item(Property::HdrOutputMetadata, 0),
        ];
        assert(items@ =~= reset_connector_items());
        let mapping = self.mapping;
        self.set_items(&mapping.connectors, conn, &items)
    }

    /// Enables a CRTC.
    pub fn set_crtc(
        &mut self,
        crtc: u32,
        mode: Option<u64>,
        vrr: bool,
        crtc_color_blobs: Option<CrtcColorBlobs>,
    ) -> (r: Result<(), RequestError>)
        requires
            old(self).wf(),
        ensures
            Self::extended(
                *old(self),
                *final(self),
                items_steps(
                    old(self).mapping.crtcs@,
                    crtc,
                    crtc_items(mode, vrr, crtc_color_blobs),
                ),
            ),
            r == outcome(
                items_steps(
                    old(self).mapping.crtcs@,
                    crtc,
                    crtc_items(mode, vrr, crtc_color_blobs),
                ),
            ),
    {
        let mut items: Vec<Item> = Vec::new();
        if let Some(blob) = mode {
            items.push(required_item(Property::ModeId, blob));
        }
        items.push(required_item(Property::Active, 1));
        items.push(
            Item {
                property: Property::VrrEnabled,
                value: if vrr {
                    1
                } else {
                    0
                },
                required: vrr,
            },
        );
        if let Some(blobs) = crtc_color_blobs {
            items.push(optional_item(Property::GammaLut, blobs.gamma_blob));
            items.push(optional_item(Property::Ctm, blobs.ctm_blob));
        }
        assert(items@ =~= crtc_items(mode, vrr, crtc_color_blobs));
        let mapping = self.mapping;
        self.set_items(&mapping.crtcs, crtc, &items)
    }

    /// Disables a CRTC.
    pub fn reset_crtc(&mut self, crtc: u32) -> (r: Result<(), RequestError>)
        requires
            old(self).wf(),
        ensures
            Self::extended(
                *old(self),
                *final(self),
                items_steps(old(self).mapping.crtcs@, crtc, reset_crtc_items()),
            ),
            r == outcome(items_steps(old(self).mapping.crtcs@, crtc, reset_crtc_items())),
    {
        let items: Vec<Item> = vec![
            required_item(Property::Active, 0),
            required_item(Property::ModeId, 0),
            optional_item(Property::VrrEnabled, 0),
        ];
        assert(items@ =~= reset_crtc_items());
        let mapping = self.mapping;
        self.set_items(&mapping.crtcs, crtc, &items)
    }

    /// Sets the state of a plane.
    pub fn set_plane(&mut self, crtc: u32, plane_state: &PlaneState) -> (r: Result<
        (),
        RequestError,
    >)
        requires
            old(self).wf(),
        ensures
            Self::extended(
                *old(self),
                *final(self),
                plane_steps(*old(self).mapping, crtc, *plane_state),
            ),
            r == outcome(plane_steps(*old(self).mapping, crtc, *plane_state)),
    {
        let handle: u32 = plane_state.handle;
        match plane_state.config {
            Some(config) => {
                let rotation: DrmRotation = DrmRotation::from(config.transform);
                let items: Vec<Item> = vec![
                    required_item(Property::CrtcId, crtc as u64),
                    required_item(Property::FbId, config.fb as u64),
                    required_item(Property::SrcX, to_fixed(config.src.x) as u64),
                    required_item(Property::SrcY, to_fixed(config.src.y) as u64),
                    required_item(Property::SrcW, to_fixed(config.src.w) as u64),
                    required_item(Property::SrcH, to_fixed(config.src.h) as u64),
                    required_item(Property::CrtcX, signed(config.dst.loc.x)),
                    required_item(Property::CrtcY, signed(config.dst.loc.y)),
                    required_item(Property::CrtcW, signed(config.dst.size.w)),
                    required_item(Property::CrtcH, signed(config.dst.size.h)),
                    Item {
                        property: Property::Rotation,
                        value: rotation.bits as u64,
                        required: config.transform != Transform::Normal,
                    },
                    Item {
                        property: Property::Alpha,
                        value: alpha_units(config.alpha),
                        required: config.alpha != F32_ONE,
                    },
                    optional_item(
                        Property::FbDamageClips,
                        match config.damage_clips {
                            Some(blob) => blob,
                            None => 0,
                        },
                    ),
                    Item {
                        property: Property::InFenceFd,
                        value: match config.fence {
                            Some(fd) => signed(fd),
                            None => signed(-1),
                        },
                        required: config.fence.is_some(),
                    },
                ];
                assert(items@ =~= plane_items(crtc, config));
                let mapping = self.mapping;
                self.set_items(&mapping.planes, handle, &items)
            },
            None => self.reset_plane(handle),
        }
    }

    /// Disables a plane.
    pub fn reset_plane(&mut self, plane: u32) -> (r: Result<(), RequestError>)
        requires
            old(self).wf(),
        ensures
            Self::extended(
                *old(self),
                *final(self),
                items_steps(old(self).mapping.planes@, plane, reset_plane_items()),
            ),
            r == outcome(items_steps(old(self).mapping.planes@, plane, reset_plane_items())),
    {
        let items: Vec<Item> = vec![
            required_item(Property::CrtcId, 0),
            required_item(Property::FbId, 0),
            required_item(Property::SrcX, 0),
            required_item(Property::SrcY, 0),
            required_item(Property::SrcW, 0),
            required_item(Property::SrcH, 0),
            required_item(Property::CrtcX, 0),
            required_item(Property::CrtcY, 0),
            required_item(Property::CrtcW, 0),
            required_item(Property::CrtcH, 0),
            optional_item(Property::Rotation, ROTATE_0 as u64),
            optional_item(Property::Alpha, 0xffff),
            optional_item(Property::FbDamageClips, 0),
            optional_item(Property::InFenceFd, signed(-1)),
        ];
        assert(items@ =~= reset_plane_items());
        let mapping = self.mapping;
        self.set_items(&mapping.planes, plane, &items)
    }

    /// The finished request in the form that is handed to the kernel.
    pub fn build(&self) -> (req: AtomicModeReq)
        requires
            self.wf(),
            self.writes@.len() < u32::MAX,
        ensures
            request_contents(req) == applied(self.writes@),
    {
        let mut req: AtomicModeReq = AtomicModeReq::new();
        let mut i: usize = 0;
        assert(self.writes@.take(0) =~= seq![]);
        while i < self.writes.len()
            invariant
                i <= self.writes.len() < u32::MAX,
                valid_writes(self.writes@),
                request_contents(req) == applied(self.writes@.take(i as int)),
                request_contents(req).dom().finite(),
                request_contents(req).dom().len() <= i,
            decreases self.writes.len() - i,
        {
            let w: Write = self.writes[i];
            proof {
                assert(self.writes@[i as int].object != 0);
                assert(self.writes@.take(i + 1).last() == w);
                assert(self.writes@.take(i + 1).drop_last() =~= self.writes@.take(i as int));
            }
            add_raw_property(&mut req, w.object, w.property, w.value);
            i = i + 1;
        }
        assert(self.writes@.take(self.writes@.len() as int) =~= self.writes@);
        req
    }

    /// A request that sets up connectors, a CRTC and planes. Without a mode, a color state and
    /// connectors it is a page flip.
    pub fn build_request(
        mapping: &'a PropMapping,
        crtc: u32,
        blob: Option<u64>,
        vrr: bool,
        color: Option<&ResolvedColorState>,
        crtc_color_blobs: Option<CrtcColorBlobs>,
        connectors: &Vec<u32>,
        removed_connectors: &Vec<u32>,
        planes: &Vec<PlaneState>,
    ) -> (r: Result<AtomicRequest<'a>, RequestError>)
        requires
            mapping.wf(),
        ensures
            ({
                let steps = request_steps(
                    *mapping,
                    crtc,
                    blob,
                    vrr,
                    color_model(color),
                    crtc_color_blobs,
                    connectors@,
                    removed_connectors@,
                    planes@,
                );
                match r {
                    Ok(req) => {
                        &&& steps.error is None
                        &&& req.writes@ == steps.writes
                        &&& req.mapping == mapping
                        &&& req.wf()
                    },
                    Err(error) => steps.error == Some(error),
                }
            }),
    {
        let mut req: AtomicRequest<'a> = AtomicRequest::new(mapping);
        let ghost model = color_model(color);
        let mut i: usize = 0;
        assert(connectors@.take(0) =~= seq![]);
        assert(connectors@.take(connectors@.len() as int) =~= connectors@);
        while i < connectors.len()
            invariant
                i <= connectors.len(),
                req.wf(),
                req.mapping == mapping,
                model == color_model(color),
                req.writes@ == connectors_steps(
                    *mapping,
                    connectors@.take(i as int),
                    crtc,
                    model,
                ).writes,
                connectors_steps(*mapping, connectors@.take(i as int), crtc, model).error is None,
                connectors@.take(connectors@.len() as int) == connectors@,
            decreases connectors.len() - i,
        {
            let conn: u32 = connectors[i];
            proof {
                assert(connectors@.take(i + 1).last() == conn);
                assert(connectors@.take(i + 1).drop_last() =~= connectors@.take(i as int));
            }
            match req.set_connector(conn, crtc, color) {
                Ok(_) => {},
                Err(error) => {
                    proof {
                        lemma_connector_error_stays(*mapping, connectors@, crtc, model, i + 1);
                    }
                    return Err(error);
                },
            }
            i = i + 1;
        }
        let ghost attached = connectors_steps(*mapping, connectors@, crtc, model);
        let mut j: usize = 0;
        assert(removed_connectors@.take(0) =~= seq![]);
        assert(removed_connectors@.take(removed_connectors@.len() as int) =~= removed_connectors@);
        assert(req.writes@ =~= attached.writes + removed_steps(*mapping, seq![]).writes);
        while j < removed_connectors.len()
            invariant
                j <= removed_connectors.len(),
                req.wf(),
                req.mapping == mapping,
                attached.error is None,
                req.writes@ == attached.writes + removed_steps(
                    *mapping,
                    removed_connectors@.take(j as int),
                ).writes,
                removed_steps(*mapping, removed_connectors@.take(j as int)).error is None,
                attached == connectors_steps(*mapping, connectors@, crtc, color_model(color)),
                removed_connectors@.take(removed_connectors@.len() as int) == removed_connectors@,
            decreases removed_connectors.len() - j,
        {
            let conn: u32 = removed_connectors[j];
            proof {
                assert(removed_connectors@.take(j + 1).last() == conn);
                assert(removed_connectors@.take(j + 1).drop_last() =~= removed_connectors@.take(
                    j as int,
                ));
            }
            match req.reset_connector(conn) {
                Ok(_) => {},
                Err(error) => {
                    proof {
                        lemma_removed_error_stays(*mapping, removed_connectors@, j + 1);
                    }
                    return Err(error);
                },
            }
            proof {
                assert(req.writes@ =~= attached.writes + removed_steps(
                    *mapping,
                    removed_connectors@.take(j + 1),
                ).writes);
            }
            j = j + 1;
        }
        let ghost detached = followed_by(attached, removed_steps(*mapping, removed_connectors@));
        match req.set_crtc(crtc, blob, vrr, crtc_color_blobs) {
            Ok(_) => {},
            Err(error) => {
                return Err(error);
            },
        }
        let ghost enabled = followed_by(
            detached,
            items_steps(mapping.crtcs@, crtc, crtc_items(blob, vrr, crtc_color_blobs)),
        );
        let mut k: usize = 0;
        assert(planes@.take(0) =~= seq![]);
        assert(planes@.take(planes@.len() as int) =~= planes@);
        assert(req.writes@ =~= enabled.writes + planes_steps(*mapping, crtc, seq![]).writes);
        while k < planes.len()
            invariant
                k <= planes.len(),
                req.wf(),
                req.mapping == mapping,
                enabled.error is None,
                req.writes@ == enabled.writes + planes_steps(
                    *mapping,
                    crtc,
                    planes@.take(k as int),
                ).writes,
                planes_steps(*mapping, crtc, planes@.take(k as int)).error is None,
                planes@.take(planes@.len() as int) == planes@,
                followed_by(enabled, planes_steps(*mapping, crtc, planes@)) == request_steps(
                    *mapping,
                    crtc,
                    blob,
                    vrr,
                    color_model(color),
                    crtc_color_blobs,
                    connectors@,
                    removed_connectors@,
                    planes@,
                ),
            decreases planes.len() - k,
        {
            proof {
                assert(planes@.take(k + 1).last() == planes@[k as int]);
                assert(planes@.take(k + 1).drop_last() =~= planes@.take(k as int));
            }
            match req.set_plane(crtc, &planes[k]) {
                Ok(_) => {},
                Err(error) => {
                    proof {
                        lemma_plane_error_stays(*mapping, crtc, planes@, k + 1);
                    }
                    return Err(error);
                },
            }
            proof {
                assert(req.writes@ =~= enabled.writes + planes_steps(
                    *mapping,
                    crtc,
                    planes@.take(k + 1),
                ).writes);
            }
            k = k + 1;
        }
        Ok(req)
    }
}

/// The result of a method that takes steps.
pub open spec fn outcome(steps: Steps) -> Result<(), RequestError> {
    match steps.error {
        Some(error) => Err(error),
        None => Ok(()),
    }
}

/// Once an item fails, no later one changes anything.
proof fn lemma_error_stays(table: Seq<PropEntry>, object: u32, items: Seq<Item>, n: int)
    requires
        0 <= n <= items.len(),
        items_steps(table, object, items.take(n)).error is Some,
    ensures
        items_steps(table, object, items) == items_steps(table, object, items.take(n)),
    decreases items.len() - n,
{
    if n == items.len() {
        assert(items.take(n) =~= items);
    } else {
        assert(items.take(n + 1).drop_last() =~= items.take(n));
        lemma_error_stays(table, object, items, n + 1);
    }
}

/// View of an optional color state.
pub open spec fn color_model(color: Option<&ResolvedColorState>) -> Option<ResolvedColorModel> {
    match color {
        Some(color) => Some(color@),
        None => None,
    }
}

/// What comes of attaching a connector.
pub open spec fn connector_steps(
    mapping: PropMapping,
    conn: u32,
    crtc: u32,
    color: Option<ResolvedColorModel>,
) -> Steps {
    items_steps(mapping.connectors@, conn, connector_items(conn, crtc, color))
}

/// What comes of attaching several connectors.
pub open spec fn connectors_steps(
    mapping: PropMapping,
    conns: Seq<u32>,
    crtc: u32,
    color: Option<ResolvedColorModel>,
) -> Steps
    decreases conns.len(),
{
    if conns.len() == 0 {
        no_steps()
    } else {
        followed_by(
            connectors_steps(mapping, conns.drop_last(), crtc, color),
            connector_steps(mapping, conns.last(), crtc, color),
        )
    }
}

/// What comes of detaching several connectors.
pub open spec fn removed_steps(mapping: PropMapping, conns: Seq<u32>) -> Steps
    decreases conns.len(),
{
    if conns.len() == 0 {
        no_steps()
    } else {
        followed_by(
            removed_steps(mapping, conns.drop_last()),
            items_steps(mapping.connectors@, conns.last(), reset_connector_items()),
        )
    }
}

/// What comes of setting the state of several planes.
pub open spec fn planes_steps(mapping: PropMapping, crtc: u32, planes: Seq<PlaneState>) -> Steps
    decreases planes.len(),
{
    if planes.len() == 0 {
        no_steps()
    } else {
        followed_by(
            planes_steps(mapping, crtc, planes.drop_last()),
            plane_steps(mapping, crtc, planes.last()),
        )
    }
}

/// What a request writes: connectors that are attached, connectors that are detached, the CRTC
/// and the planes, in this order.
pub open spec fn request_steps(
    mapping: PropMapping,
    crtc: u32,
    blob: Option<u64>,
    vrr: bool,
    color: Option<ResolvedColorModel>,
    crtc_color_blobs: Option<CrtcColorBlobs>,
    connectors: Seq<u32>,
    removed: Seq<u32>,
    planes: Seq<PlaneState>,
) -> Steps {
    followed_by(
        followed_by(
            followed_by(
                connectors_steps(mapping, connectors, crtc, color),
                removed_steps(mapping, removed),
            ),
            items_steps(mapping.crtcs@, crtc, crtc_items(blob, vrr, crtc_color_blobs)),
        ),
        planes_steps(mapping, crtc, planes),
    )
}

proof fn lemma_connector_error_stays(
    mapping: PropMapping,
    conns: Seq<u32>,
    crtc: u32,
    color: Option<ResolvedColorModel>,
    n: int,
)
    requires
        0 <= n <= conns.len(),
        connectors_steps(mapping, conns.take(n), crtc, color).error is Some,
    ensures
        connectors_steps(mapping, conns, crtc, color) == connectors_steps(
            mapping,
            conns.take(n),
            crtc,
            color,
        ),
    decreases conns.len() - n,
{
    if n == conns.len() {
        assert(conns.take(n) =~= conns);
    } else {
        assert(conns.take(n + 1).drop_last() =~= conns.take(n));
        lemma_connector_error_stays(mapping, conns, crtc, color, n + 1);
    }
}

proof fn lemma_removed_error_stays(mapping: PropMapping, conns: Seq<u32>, n: int)
    requires
        0 <= n <= conns.len(),
        removed_steps(mapping, conns.take(n)).error is Some,
    ensures
        removed_steps(mapping, conns) == removed_steps(mapping, conns.take(n)),
    decreases conns.len() - n,
{
    if n == conns.len() {
        assert(conns.take(n) =~= conns);
    } else {
        assert(conns.take(n + 1).drop_last() =~= conns.take(n));
        lemma_removed_error_stays(mapping, conns, n + 1);
    }
}

proof fn lemma_plane_error_stays(mapping: PropMapping, crtc: u32, planes: Seq<PlaneState>, n: int)
    requires
        0 <= n <= planes.len(),
        planes_steps(mapping, crtc, planes.take(n)).error is Some,
    ensures
        planes_steps(mapping, crtc, planes) == planes_steps(mapping, crtc, planes.take(n)),
    decreases planes.len() - n,
{
    if n == planes.len() {
        assert(planes.take(n) =~= planes);
    } else {
        assert(planes.take(n + 1).drop_last() =~= planes.take(n));
        lemma_plane_error_stays(mapping, crtc, planes, n + 1);
    }
}

/// A write of one of the given items to the object.
pub open spec fn written_by(w: Write, table: Seq<PropEntry>, object: u32, items: Seq<Item>) -> bool {
    &&& w.object == object
    &&& exists|k: int|
        0 <= k < items.len() && handle_in(table, object, (#[trigger] items[k]).property) == Some(
            w.property,
        ) && items[k].value == w.value
}

proof fn lemma_writes_come_from_items(table: Seq<PropEntry>, object: u32, items: Seq<Item>, i: int)
    requires
        0 <= i < items_steps(table, object, items).writes.len(),
    ensures
        written_by(items_steps(table, object, items).writes[i], table, object, items),
    decreases items.len(),
{
    let w = items_steps(table, object, items).writes[i];
    let earlier = items_steps(table, object, items.drop_last());
    if i < earlier.writes.len() {
        lemma_writes_come_from_items(table, object, items.drop_last(), i);
        let k = choose|k: int|
            0 <= k < items.drop_last().len() && handle_in(
                table,
                object,
                (#[trigger] items.drop_last()[k]).property,
            ) == Some(w.property) && items.drop_last()[k].value == w.value;
        assert(items[k] == items.drop_last()[k]);
    } else {
        assert(items[items.len() - 1] == items.last());
    }
}

/// Some plane of the list.
pub open spec fn lists_plane(planes: Seq<PlaneState>, handle: u32) -> bool {
    exists|k: int| 0 <= k < planes.len() && (#[trigger] planes[k]).handle == handle
}

proof fn lemma_plane_writes(mapping: PropMapping, crtc: u32, planes: Seq<PlaneState>, i: int)
    requires
        0 <= i < planes_steps(mapping, crtc, planes).writes.len(),
    ensures
        lists_plane(planes, planes_steps(mapping, crtc, planes).writes[i].object),
    decreases planes.len(),
{
    let w = planes_steps(mapping, crtc, planes).writes[i];
    let earlier = planes_steps(mapping, crtc, planes.drop_last());
    if i < earlier.writes.len() {
        lemma_plane_writes(mapping, crtc, planes.drop_last(), i);
        let k = choose|k: int|
            0 <= k < planes.drop_last().len() && (#[trigger] planes.drop_last()[k]).handle
                == w.object;
        assert(planes[k] == planes.drop_last()[k]);
    } else {
        let state = planes.last();
        assert(planes[planes.len() - 1] == state);
        let at = i - earlier.writes.len();
        match state.config {
            Some(config) => {
                lemma_writes_come_from_items(
                    mapping.planes@,
                    state.handle,
                    plane_items(crtc, config),
                    at,
                );
            },
            None => {
                lemma_writes_come_from_items(
                    mapping.planes@,
                    state.handle,
                    reset_plane_items(),
                    at,
                );
            },
        }
    }
}

/// A page flip touches its planes and, of the CRTC, whether it is active and its variable
/// refresh rate. It sets no mode, no connector and no color property.
pub proof fn law_page_flip_keeps_mode_and_color(
    mapping: PropMapping,
    crtc: u32,
    vrr: bool,
    planes: Seq<PlaneState>,
    i: int,
)
    requires
        0 <= i < request_steps(
            mapping,
            crtc,
            None,
            vrr,
            None,
            None,
            seq![],
            seq![],
            planes,
        ).writes.len(),
    ensures
        ({
            let w = request_steps(
                mapping,
                crtc,
                None,
                vrr,
                None,
                None,
                seq![],
                seq![],
                planes,
            ).writes[i];
            ||| w.object == crtc && handle_in(mapping.crtcs@, crtc, Property::Active) == Some(
                w.property,
            )
            ||| w.object == crtc && handle_in(mapping.crtcs@, crtc, Property::VrrEnabled) == Some(
                w.property,
            )
            ||| lists_plane(planes, w.object)
        }),
{
    let none = crtc_items(None, vrr, None);
    assert(none.len() == 2);
    let on = items_steps(mapping.crtcs@, crtc, none);
    let before = followed_by(
        followed_by(
            connectors_steps(mapping, seq![], crtc, None),
            removed_steps(mapping, seq![]),
        ),
        on,
    );
    assert(before.writes =~= on.writes);
    if i < on.writes.len() {
        lemma_writes_come_from_items(mapping.crtcs@, crtc, none, i);
    } else {
        lemma_plane_writes(mapping, crtc, planes, i - on.writes.len());
    }
}

/// The value that a request leaves for a property of an object, if it sets one.
pub open spec fn left_for(writes: Seq<Write>, table: Seq<PropEntry>, object: u32, property: Property) -> Option<
    u64,
> {
    match handle_in(table, object, property) {
        Some(handle) => if applied(writes).dom().contains((object, handle)) {
            Some(applied(writes)[(object, handle)])
        } else {
            None
        },
        None => None,
    }
}

/// No two properties of an object share a handle.
pub open spec fn own_handles(table: Seq<PropEntry>, object: u32) -> bool {
    forall|a: Property, b: Property|
        #![trigger handle_in(table, object, a), handle_in(table, object, b)]
        handle_in(table, object, a) is Some && handle_in(table, object, a) == handle_in(
            table,
            object,
            b,
        ) ==> a == b
}

/// The object has the property.
pub open spec fn has_property(table: Seq<PropEntry>, object: u32, property: Property) -> bool {
    handle_in(table, object, property) is Some
}

/// A raw value read as a signed number.
pub open spec fn read_signed(value: u64) -> int {
    if value >= 0x8000_0000_0000_0000 {
        value - 0x1_0000_0000_0000_0000
    } else {
        value as int
    }
}

proof fn lemma_later_writes(writes: Seq<Write>, later: Seq<Write>, key: (u32, u32))
    requires
        forall|i: int|
            0 <= i < later.len() ==> ((#[trigger] later[i]).object, later[i].property) != key,
    ensures
        applied(writes + later).dom().contains(key) == applied(writes).dom().contains(key),
        applied(writes).dom().contains(key) ==> applied(writes + later)[key] == applied(
            writes,
        )[key],
    decreases later.len(),
{
    if later.len() == 0 {
        assert(writes + later =~= writes);
    } else {
        let all = writes + later;
        assert(all.drop_last() =~= writes + later.drop_last());
        assert(all.last() == later[later.len() - 1]);
        lemma_later_writes(writes, later.drop_last(), key);
    }
}

/// What an item of a list leaves, if no later item is for the same property.
proof fn lemma_item_left(
    before: Seq<Write>,
    table: Seq<PropEntry>,
    object: u32,
    items: Seq<Item>,
    k: int,
)
    requires
        own_handles(table, object),
        items_steps(table, object, items).error is None,
        0 <= k < items.len(),
        forall|j: int| k < j < items.len() ==> (#[trigger] items[j]).property != items[k].property,
    ensures
        has_property(table, object, items[k].property) ==> left_for(
            before + items_steps(table, object, items).writes,
            table,
            object,
            items[k].property,
        ) == Some(items[k].value),
    decreases items.len(),
{
    let property = items[k].property;
    let earlier = items_steps(table, object, items.drop_last());
    let last = item_steps(table, object, items.last());
    let all = before + items_steps(table, object, items).writes;
    assert(all =~= (before + earlier.writes) + last.writes);
    if k == items.len() - 1 {
        if has_property(table, object, property) {
            assert(all.last() == last.writes[0]);
        }
    } else {
        assert(items.drop_last()[k] == items[k]);
        lemma_item_left(before, table, object, items.drop_last(), k);
        if let Some(handle) = handle_in(table, object, property) {
            assert(items[items.len() - 1].property != property);
            lemma_later_writes(before + earlier.writes, last.writes, (object, handle));
        }
    }
}

/// A list of items fails exactly if a required property is missing.
proof fn lemma_items_fail(table: Seq<PropEntry>, object: u32, items: Seq<Item>)
    ensures
        items_steps(table, object, items).error is None <==> forall|k: int|
            0 <= k < items.len() && (#[trigger] items[k]).required ==> has_property(
                table,
                object,
                items[k].property,
            ),
    decreases items.len(),
{
    if items.len() > 0 {
        let rest = items.drop_last();
        lemma_items_fail(table, object, rest);
        let last = items[items.len() - 1];
        if items_steps(table, object, items).error is None {
            assert forall|k: int| 0 <= k < items.len() && (
            #[trigger] items[k]).required implies has_property(table, object, items[k].property) by {
                if k < rest.len() {
                    assert(rest[k] == items[k]);
                }
            }
        } else if items_steps(table, object, rest).error is Some {
            let k = choose|k: int|
                0 <= k < rest.len() && (#[trigger] rest[k]).required && !has_property(
                    table,
                    object,
                    rest[k].property,
                );
            assert(items[k] == rest[k]);
        } else {
            assert(last.required && !has_property(table, object, last.property));
        }
    }
}

/// What a plane is left with once its configuration has been set, whatever was written before: each
/// property has the value that stands for its part of the configuration. Positions and sizes on
/// the screen are whole numbers, those in the buffer are rounded to 16.16 fixed point.
pub open spec fn plane_shows(
    writes: Seq<Write>,
    table: Seq<PropEntry>,
    plane: u32,
    crtc: u32,
    config: PlaneConfig,
) -> bool {
    let left = |property: Property| left_for(writes, table, plane, property);
    let whole = |property: Property, n: int| left(property) is Some && read_signed(
        left(property)->0,
    ) == n;
    let fixed = |property: Property, bits: u64| left(property) is Some && left(property)->0
        == fixed_16_16_of(bits);
    &&& whole(Property::CrtcId, crtc as int)
    &&& whole(Property::FbId, config.fb as int)
    &&& fixed(Property::SrcX, config.src.x)
    &&& fixed(Property::SrcY, config.src.y)
    &&& fixed(Property::SrcW, config.src.w)
    &&& fixed(Property::SrcH, config.src.h)
    &&& whole(Property::CrtcX, config.dst.loc.x as int)
    &&& whole(Property::CrtcY, config.dst.loc.y as int)
    &&& whole(Property::CrtcW, config.dst.size.w as int)
    &&& whole(Property::CrtcH, config.dst.size.h as int)
    &&& has_property(table, plane, Property::Rotation) ==> whole(
        Property::Rotation,
        rotation_bits(config.transform) as int,
    )
    &&& has_property(table, plane, Property::Alpha) ==> left(Property::Alpha) is Some && left(
        Property::Alpha,
    )->0 == alpha_units_of(config.alpha) as u64
    &&& has_property(table, plane, Property::FbDamageClips) ==> left(Property::FbDamageClips)
        == Some(
        match config.damage_clips {
            Some(blob) => blob,
            None => 0,
        },
    )
    &&& has_property(table, plane, Property::InFenceFd) ==> whole(
        Property::InFenceFd,
        match config.fence {
            Some(fd) => fd as int,
            None => -1,
        },
    )
}

/// A plane that shows nothing: it has no CRTC, no framebuffer and no extent, is opaque and not
/// turned, and waits for nothing.
pub open spec fn plane_is_off(writes: Seq<Write>, table: Seq<PropEntry>, plane: u32) -> bool {
    let left = |property: Property| left_for(writes, table, plane, property);
    &&& left(Property::CrtcId) == Some(0u64)
    &&& left(Property::FbId) == Some(0u64)
    &&& left(Property::SrcX) == Some(0u64)
    &&& left(Property::SrcY) == Some(0u64)
    &&& left(Property::SrcW) == Some(0u64)
    &&& left(Property::SrcH) == Some(0u64)
    &&& left(Property::CrtcX) == Some(0u64)
    &&& left(Property::CrtcY) == Some(0u64)
    &&& left(Property::CrtcW) == Some(0u64)
    &&& left(Property::CrtcH) == Some(0u64)
    &&& has_property(table, plane, Property::Rotation) ==> left(Property::Rotation) == Some(1u64)
    &&& has_property(table, plane, Property::Alpha) ==> left(Property::Alpha) == Some(65535u64)
    &&& has_property(table, plane, Property::FbDamageClips) ==> left(Property::FbDamageClips)
        == Some(0u64)
    &&& has_property(table, plane, Property::InFenceFd) ==> left(Property::InFenceFd) is Some
        && read_signed(left(Property::InFenceFd)->0) == -1
}

/// Properties that every plane needs.
pub open spec fn needed_of_planes(property: Property) -> bool {
    property == Property::CrtcId || property == Property::FbId || property == Property::SrcX
        || property == Property::SrcY || property == Property::SrcW || property == Property::SrcH
        || property == Property::CrtcX || property == Property::CrtcY || property
        == Property::CrtcW || property == Property::CrtcH
}

/// Setting a plane leaves it as its state says, and fails exactly if the plane lacks a property
/// that cannot be left out: one that every plane needs, or one for a rotation, an opacity below
/// one or a fence.
pub proof fn law_plane_shows_its_configuration(
    mapping: PropMapping,
    before: Seq<Write>,
    crtc: u32,
    state: PlaneState,
)
    requires
        own_handles(mapping.planes@, state.handle),
    ensures
        ({
            let steps = plane_steps(mapping, crtc, state);
            let table = mapping.planes@;
            let complete = forall|property: Property| #[trigger]
                needed_of_planes(property) ==> has_property(table, state.handle, property);
            match state.config {
                Some(config) => {
                    &&& steps.error is None ==> plane_shows(
                        before + steps.writes,
                        table,
                        state.handle,
                        crtc,
                        config,
                    )
                    &&& steps.error is None <==> complete && (config.transform != Transform::Normal
                        ==> has_property(table, state.handle, Property::Rotation)) && (config.alpha
                        != F32_ONE ==> has_property(table, state.handle, Property::Alpha)) && (
                    config.fence is Some ==> has_property(
                        table,
                        state.handle,
                        Property::InFenceFd,
                    ))
                },
                None => {
                    &&& steps.error is None ==> plane_is_off(
                        before + steps.writes,
                        table,
                        state.handle,
                    )
                    &&& steps.error is None <==> complete
                },
            }
        }),
{
    let table = mapping.planes@;
    let items = match state.config {
        Some(config) => plane_items(crtc, config),
        None => reset_plane_items(),
    };
    lemma_items_fail(table, state.handle, items);
    let steps = plane_steps(mapping, crtc, state);
    if steps.error is None {
        assert(items[0].required && items[1].required && items[2].required && items[3].required
            && items[4].required && items[5].required && items[6].required && items[7].required
            && items[8].required && items[9].required);
        lemma_item_left(before, table, state.handle, items, 0);
        lemma_item_left(before, table, state.handle, items, 1);
        lemma_item_left(before, table, state.handle, items, 2);
        lemma_item_left(before, table, state.handle, items, 3);
        lemma_item_left(before, table, state.handle, items, 4);
        lemma_item_left(before, table, state.handle, items, 5);
        lemma_item_left(before, table, state.handle, items, 6);
        lemma_item_left(before, table, state.handle, items, 7);
        lemma_item_left(before, table, state.handle, items, 8);
        lemma_item_left(before, table, state.handle, items, 9);
        lemma_item_left(before, table, state.handle, items, 10);
        lemma_item_left(before, table, state.handle, items, 11);
        lemma_item_left(before, table, state.handle, items, 12);
        lemma_item_left(before, table, state.handle, items, 13);
    } else {
        let k = choose|k: int|
            0 <= k < items.len() && (#[trigger] items[k]).required && !has_property(
                table,
                state.handle,
                items[k].property,
            );
        assert(k <= 9 ==> needed_of_planes(items[k].property));
    }
}

/// A rotation sets the bit of its quarter turns and, with a flip, that of a reflection along the y
/// axis. A flip alone has no bit for a rotation.
pub proof fn law_rotation_counts_quarter_turns(transform: Transform)
    ensures
        ({
            let turned: int = if transform is Flipped {
                0
            } else {
                crate::softfloat::two_pow(quarter_turns(transform)) as int
            };
            rotation_bits(transform) == turned + (if mirrors(transform) {
                32int
            } else {
                0int
            })
        }),
{
    reveal_with_fuel(crate::softfloat::two_pow, 4);
    assert(32u8 | 2u8 == 34u8) by (bit_vector);
    assert(32u8 | 4u8 == 36u8) by (bit_vector);
    assert(32u8 | 8u8 == 40u8) by (bit_vector);
}

/// A connector is left attached to the CRTC. With a color state it has the colorspace that was
/// resolved for it, the metadata blob and, where one is asked for, the depth.
pub proof fn law_connector_is_attached(
    mapping: PropMapping,
    before: Seq<Write>,
    conn: u32,
    crtc: u32,
    color: Option<ResolvedColorModel>,
)
    requires
        own_handles(mapping.connectors@, conn),
    ensures
        ({
            let table = mapping.connectors@;
            let steps = connector_steps(mapping, conn, crtc, color);
            let writes = before + steps.writes;
            let signals = match color {
                Some(color) => value_for(color.colorspace_values, conn) is Some,
                None => false,
            };
            &&& steps.error is None <==> has_property(table, conn, Property::CrtcId) && (signals
                ==> has_property(table, conn, Property::Colorspace))
            &&& steps.error is None ==> left_for(writes, table, conn, Property::CrtcId) == Some(
                crtc as u64,
            )
            &&& match color {
                None => steps.error is None ==> steps.writes.len() == 1,
                Some(color) => {
                    &&& steps.error is None && signals ==> left_for(
                        writes,
                        table,
                        conn,
                        Property::Colorspace,
                    ) == value_for(color.colorspace_values, conn)
                    &&& steps.error is None && has_property(
                        table,
                        conn,
                        Property::HdrOutputMetadata,
                    ) ==> left_for(writes, table, conn, Property::HdrOutputMetadata) == Some(
                        color.hdr_blob,
                    )
                    &&& steps.error is None && color.max_bpc is Some && has_property(
                        table,
                        conn,
                        Property::MaxBpc,
                    ) ==> left_for(writes, table, conn, Property::MaxBpc) == color.max_bpc
                },
            }
        }),
{
    let table = mapping.connectors@;
    let items = connector_items(conn, crtc, color);
    lemma_items_fail(table, conn, items);
    let steps = connector_steps(mapping, conn, crtc, color);
    assert(items[0] == must(Property::CrtcId, crtc as u64));
    if let Some(color) = color {
        if let Some(value) = value_for(color.colorspace_values, conn) {
            assert(items[1] == must(Property::Colorspace, value));
            assert(items[2] == may(Property::HdrOutputMetadata, color.hdr_blob));
            if let Some(depth) = color.max_bpc {
                assert(items[3] == may(Property::MaxBpc, depth));
            }
        } else {
            assert(items[1] == may(Property::HdrOutputMetadata, color.hdr_blob));
            if let Some(depth) = color.max_bpc {
                assert(items[2] == may(Property::MaxBpc, depth));
            }
        }
    }
    let signals = match color {
        Some(color) => value_for(color.colorspace_values, conn) is Some,
        None => false,
    };
    assert(items.len() <= 4);
    assert forall|k: int| 0 <= k < items.len() && (#[trigger] items[k]).required implies k == 0
        || (k == 1 && signals) by {
        assert(k == 0 || k == 1 || k == 2 || k == 3);
    }
    if signals {
        assert(items[1].required && items[1].property == Property::Colorspace);
    }
    assert(items[0].required && items[0].property == Property::CrtcId);
    if steps.error is None {
        lemma_item_left(before, table, conn, items, 0);
        if items.len() > 1 {
            lemma_item_left(before, table, conn, items, 1);
        }
        if items.len() > 2 {
            lemma_item_left(before, table, conn, items, 2);
        }
        if items.len() > 3 {
            lemma_item_left(before, table, conn, items, 3);
        }
        if color is None {
            assert(items.drop_last() =~= seq![]);
            assert(items.last() == items[0]);
            assert(items_steps(table, conn, items.drop_last()) == no_steps());
        }
    }
}

/// A connector that is detached is left without a CRTC and without signalling.
pub proof fn law_connector_is_detached(mapping: PropMapping, before: Seq<Write>, conn: u32)
    requires
        own_handles(mapping.connectors@, conn),
    ensures
        ({
            let table = mapping.connectors@;
            let steps = removed_steps(mapping, seq![conn]);
            let writes = before + steps.writes;
            &&& steps.error is None <==> has_property(table, conn, Property::CrtcId)
            &&& steps.error is None ==> left_for(writes, table, conn, Property::CrtcId) == Some(
                0u64,
            )
            &&& steps.error is None && has_property(table, conn, Property::Colorspace) ==> left_for(
                writes,
                table,
                conn,
                Property::Colorspace,
            ) == Some(0u64)
            &&& steps.error is None && has_property(table, conn, Property::HdrOutputMetadata)
                ==> left_for(writes, table, conn, Property::HdrOutputMetadata) == Some(0u64)
        }),
{
    let table = mapping.connectors@;
    let items = reset_connector_items();
    let one = seq![conn];
    assert(one.drop_last() =~= seq![]);
    assert(one.last() == conn);
    let steps = removed_steps(mapping, one);
    assert(removed_steps(mapping, one.drop_last()) == no_steps());
    assert(steps.writes =~= items_steps(table, conn, items).writes);
    lemma_items_fail(table, conn, items);
    if steps.error is None {
        assert(items[0].required);
        lemma_item_left(before, table, conn, items, 0);
        lemma_item_left(before, table, conn, items, 1);
        lemma_item_left(before, table, conn, items, 2);
    } else {
        assert(items[1].required == false && items[2].required == false);
    }
}

/// A CRTC is left switched on, with the mode if one is given, with the refresh rate varying as
/// asked for, and with the color tables if they are given. It cannot vary the rate without the
/// property.
pub proof fn law_crtc_is_set_up(
    mapping: PropMapping,
    before: Seq<Write>,
    crtc: u32,
    mode: Option<u64>,
    vrr: bool,
    blobs: Option<CrtcColorBlobs>,
)
    requires
        own_handles(mapping.crtcs@, crtc),
    ensures
        ({
            let table = mapping.crtcs@;
            let steps = items_steps(table, crtc, crtc_items(mode, vrr, blobs));
            let left = |property: Property|
                left_for(before + steps.writes, table, crtc, property);
            &&& steps.error is None <==> has_property(table, crtc, Property::Active) && (mode is Some
                ==> has_property(table, crtc, Property::ModeId)) && (vrr ==> has_property(
                table,
                crtc,
                Property::VrrEnabled,
            ))
            &&& steps.error is None ==> left(Property::Active) == Some(1u64)
            &&& steps.error is None && mode is Some ==> left(Property::ModeId) == mode
            &&& steps.error is None && has_property(table, crtc, Property::VrrEnabled) ==> left(
                Property::VrrEnabled,
            ) == Some(
                if vrr {
                    1u64
                } else {
                    0u64
                },
            )
            &&& steps.error is None && blobs is Some && has_property(table, crtc, Property::GammaLut)
                ==> left(Property::GammaLut) == Some(blobs->0.gamma_blob)
            &&& steps.error is None && blobs is Some && has_property(table, crtc, Property::Ctm)
                ==> left(Property::Ctm) == Some(blobs->0.ctm_blob)
        }),
{
    let table = mapping.crtcs@;
    let items = crtc_items(mode, vrr, blobs);
    lemma_items_fail(table, crtc, items);
    let steps = items_steps(table, crtc, items);
    let at: int = if mode is Some { 1 } else { 0 };
    if let Some(blob) = mode {
        assert(items[0] == must(Property::ModeId, blob));
    }
    assert(items[at] == must(Property::Active, 1));
    assert(items[at + 1].property == Property::VrrEnabled && items[at + 1].required == vrr);
    if let Some(blobs) = blobs {
        assert(items[at + 2] == may(Property::GammaLut, blobs.gamma_blob));
        assert(items[at + 3] == may(Property::Ctm, blobs.ctm_blob));
    }
    if steps.error is None {
        if mode is Some {
            lemma_item_left(before, table, crtc, items, 0);
        }
        lemma_item_left(before, table, crtc, items, at);
        lemma_item_left(before, table, crtc, items, at + 1);
        if blobs is Some {
            lemma_item_left(before, table, crtc, items, at + 2);
            lemma_item_left(before, table, crtc, items, at + 3);
        }
    }
}

/// A CRTC that is disabled is left switched off, without a mode and with a fixed refresh rate.
pub proof fn law_crtc_is_switched_off(mapping: PropMapping, before: Seq<Write>, crtc: u32)
    requires
        own_handles(mapping.crtcs@, crtc),
    ensures
        ({
            let table = mapping.crtcs@;
            let steps = items_steps(table, crtc, reset_crtc_items());
            let left = |property: Property|
                left_for(before + steps.writes, table, crtc, property);
            &&& steps.error is None <==> has_property(table, crtc, Property::Active)
                && has_property(table, crtc, Property::ModeId)
            &&& steps.error is None ==> left(Property::Active) == Some(0u64) && left(
                Property::ModeId,
            ) == Some(0u64)
            &&& steps.error is None && has_property(table, crtc, Property::VrrEnabled) ==> left(
                Property::VrrEnabled,
            ) == Some(0u64)
        }),
{
    let table = mapping.crtcs@;
    let items = reset_crtc_items();
    lemma_items_fail(table, crtc, items);
    assert(items[0].required && items[1].required && !items[2].required);
    if items_steps(table, crtc, items).error is None {
        lemma_item_left(before, table, crtc, items, 0);
        lemma_item_left(before, table, crtc, items, 1);
        lemma_item_left(before, table, crtc, items, 2);
    }
}

/// All writes are to one of the objects.
spec fn writes_to(writes: Seq<Write>, objects: Seq<u32>) -> bool {
    forall|i: int| 0 <= i < writes.len() ==> objects.contains((#[trigger] writes[i]).object)
}

proof fn lemma_items_write_to(table: Seq<PropEntry>, object: u32, items: Seq<Item>)
    ensures
        forall|i: int|
            0 <= i < items_steps(table, object, items).writes.len() ==> (
            #[trigger] items_steps(table, object, items).writes[i]).object == object,
{
    assert forall|i: int| 0 <= i < items_steps(table, object, items).writes.len() implies (
    #[trigger] items_steps(table, object, items).writes[i]).object == object by {
        lemma_writes_come_from_items(table, object, items, i);
    }
}

/// Later writes to other objects change nothing of an object.
proof fn lemma_left_stays(
    writes: Seq<Write>,
    later: Seq<Write>,
    table: Seq<PropEntry>,
    object: u32,
)
    requires
        forall|i: int| 0 <= i < later.len() ==> (#[trigger] later[i]).object != object,
    ensures
        forall|property: Property| #[trigger]
            left_for(writes + later, table, object, property) == left_for(
                writes,
                table,
                object,
                property,
            ),
{
    assert forall|property: Property| #[trigger]
        left_for(writes + later, table, object, property) == left_for(
            writes,
            table,
            object,
            property,
        ) by {
        if let Some(handle) = handle_in(table, object, property) {
            lemma_later_writes(writes, later, (object, handle));
        }
    }
}

/// Every plane of a request is left as its state says, provided that no plane is listed twice.
pub proof fn law_request_sets_every_plane(
    mapping: PropMapping,
    before: Seq<Write>,
    crtc: u32,
    planes: Seq<PlaneState>,
    k: int,
)
    requires
        planes_steps(mapping, crtc, planes).error is None,
        0 <= k < planes.len(),
        own_handles(mapping.planes@, planes[k].handle),
        forall|j: int|
            0 <= j < planes.len() && j != k ==> (#[trigger] planes[j]).handle != planes[k].handle,
    ensures
        ({
            let writes = before + planes_steps(mapping, crtc, planes).writes;
            match planes[k].config {
                Some(config) => plane_shows(writes, mapping.planes@, planes[k].handle, crtc, config),
                None => plane_is_off(writes, mapping.planes@, planes[k].handle),
            }
        }),
    decreases planes.len(),
{
    let rest = planes.drop_last();
    let earlier = planes_steps(mapping, crtc, rest);
    let last = plane_steps(mapping, crtc, planes.last());
    let all = before + planes_steps(mapping, crtc, planes).writes;
    let so_far = before + earlier.writes;
    assert(all =~= so_far + last.writes);
    if k == planes.len() - 1 {
        law_plane_shows_its_configuration(mapping, so_far, crtc, planes[k]);
    } else {
        assert forall|j: int| 0 <= j < rest.len() && j != k implies (#[trigger] rest[j]).handle
            != rest[k].handle by {
            assert(rest[j] == planes[j]);
        }
        law_request_sets_every_plane(mapping, before, crtc, rest, k);
        let state = planes[planes.len() - 1];
        assert(state.handle != planes[k].handle);
        match state.config {
            Some(config) => {
                lemma_items_write_to(mapping.planes@, state.handle, plane_items(crtc, config));
            },
            None => {
                lemma_items_write_to(mapping.planes@, state.handle, reset_plane_items());
            },
        }
        lemma_left_stays(so_far, last.writes, mapping.planes@, planes[k].handle);
    }
}

/// What a connector is left with that is attached to a CRTC.
pub open spec fn is_attached(
    writes: Seq<Write>,
    table: Seq<PropEntry>,
    conn: u32,
    crtc: u32,
    color: Option<ResolvedColorModel>,
) -> bool {
    let left = |property: Property| left_for(writes, table, conn, property);
    &&& left(Property::CrtcId) == Some(crtc as u64)
    &&& match color {
        None => true,
        Some(color) => {
            &&& value_for(color.colorspace_values, conn) is Some ==> left(Property::Colorspace)
                == value_for(color.colorspace_values, conn)
            &&& has_property(table, conn, Property::HdrOutputMetadata) ==> left(
                Property::HdrOutputMetadata,
            ) == Some(color.hdr_blob)
            &&& color.max_bpc is Some && has_property(table, conn, Property::MaxBpc) ==> left(
                Property::MaxBpc,
            ) == color.max_bpc
        },
    }
}

proof fn lemma_connectors_attached(
    mapping: PropMapping,
    conns: Seq<u32>,
    crtc: u32,
    color: Option<ResolvedColorModel>,
    k: int,
)
    requires
        connectors_steps(mapping, conns, crtc, color).error is None,
        0 <= k < conns.len(),
        own_handles(mapping.connectors@, conns[k]),
    ensures
        is_attached(
            connectors_steps(mapping, conns, crtc, color).writes,
            mapping.connectors@,
            conns[k],
            crtc,
            color,
        ),
    decreases conns.len(),
{
    let rest = conns.drop_last();
    let earlier = connectors_steps(mapping, rest, crtc, color);
    let last = connector_steps(mapping, conns.last(), crtc, color);
    let all = connectors_steps(mapping, conns, crtc, color).writes;
    assert(all == earlier.writes + last.writes);
    if conns[k] == conns.last() {
        law_connector_is_attached(mapping, earlier.writes, conns[k], crtc, color);
    } else {
        assert(rest[k] == conns[k]);
        lemma_connectors_attached(mapping, rest, crtc, color, k);
        lemma_items_write_to(
            mapping.connectors@,
            conns.last(),
            connector_items(conns.last(), crtc, color),
        );
        lemma_left_stays(earlier.writes, last.writes, mapping.connectors@, conns[k]);
    }
}

proof fn lemma_removed_write_to(mapping: PropMapping, conns: Seq<u32>)
    ensures
        writes_to(removed_steps(mapping, conns).writes, conns),
    decreases conns.len(),
{
    if conns.len() > 0 {
        let rest = conns.drop_last();
        lemma_removed_write_to(mapping, rest);
        lemma_items_write_to(mapping.connectors@, conns.last(), reset_connector_items());
        let earlier = removed_steps(mapping, rest);
        let all = removed_steps(mapping, conns).writes;
        assert forall|i: int| 0 <= i < all.len() implies conns.contains((#[trigger] all[i]).object) by {
            if i < earlier.writes.len() {
                assert(all[i] == earlier.writes[i]);
                let j = choose|j: int| 0 <= j < rest.len() && rest[j] == all[i].object;
                assert(conns[j] == all[i].object);
            } else {
                let last = items_steps(mapping.connectors@, conns.last(), reset_connector_items());
                assert(all[i] == last.writes[i - earlier.writes.len()]);
                assert(conns[conns.len() - 1] == all[i].object);
            }
        }
    }
}

proof fn lemma_removed_detached(mapping: PropMapping, before: Seq<Write>, conns: Seq<u32>, k: int)
    requires
        removed_steps(mapping, conns).error is None,
        0 <= k < conns.len(),
        own_handles(mapping.connectors@, conns[k]),
    ensures
        left_for(
            before + removed_steps(mapping, conns).writes,
            mapping.connectors@,
            conns[k],
            Property::CrtcId,
        ) == Some(0u64),
    decreases conns.len(),
{
    let rest = conns.drop_last();
    let earlier = removed_steps(mapping, rest);
    let last = items_steps(mapping.connectors@, conns.last(), reset_connector_items());
    let so_far = before + earlier.writes;
    assert(before + removed_steps(mapping, conns).writes =~= so_far + last.writes);
    if conns[k] == conns.last() {
        law_connector_is_detached(mapping, so_far, conns[k]);
        let one = seq![conns[k]];
        assert(one.drop_last() =~= seq![]);
        assert(one.last() == conns[k]);
        assert(removed_steps(mapping, one.drop_last()) == no_steps());
        assert(removed_steps(mapping, one).writes =~= last.writes);
    } else {
        assert(rest[k] == conns[k]);
        lemma_removed_detached(mapping, before, rest, k);
        lemma_items_write_to(mapping.connectors@, conns.last(), reset_connector_items());
        lemma_left_stays(so_far, last.writes, mapping.connectors@, conns[k]);
    }
}

proof fn lemma_planes_write_to_planes(mapping: PropMapping, crtc: u32, planes: Seq<PlaneState>, object: u32)
    requires
        forall|j: int| 0 <= j < planes.len() ==> (#[trigger] planes[j]).handle != object,
    ensures
        forall|i: int|
            0 <= i < planes_steps(mapping, crtc, planes).writes.len() ==> (
            #[trigger] planes_steps(mapping, crtc, planes).writes[i]).object != object,
{
    assert forall|i: int| 0 <= i < planes_steps(mapping, crtc, planes).writes.len() implies (
    #[trigger] planes_steps(mapping, crtc, planes).writes[i]).object != object by {
        lemma_plane_writes(mapping, crtc, planes, i);
    }
}

/// A request does all that it is asked for. The CRTC is left set up, every connector attached that
/// is not to be removed, every connector to be removed detached, and every plane in its state,
/// where objects of different kinds have different ids.
pub proof fn law_request_does_all(
    mapping: PropMapping,
    crtc: u32,
    blob: Option<u64>,
    vrr: bool,
    color: Option<ResolvedColorModel>,
    blobs: Option<CrtcColorBlobs>,
    connectors: Seq<u32>,
    removed: Seq<u32>,
    planes: Seq<PlaneState>,
    c: int,
    r: int,
    p: int,
)
    requires
        request_steps(
            mapping,
            crtc,
            blob,
            vrr,
            color,
            blobs,
            connectors,
            removed,
            planes,
        ).error is None,
        own_handles(mapping.crtcs@, crtc),
        forall|j: int| 0 <= j < planes.len() ==> (#[trigger] planes[j]).handle != crtc,
    ensures
        ({
            let writes = request_steps(
                mapping,
                crtc,
                blob,
                vrr,
                color,
                blobs,
                connectors,
                removed,
                planes,
            ).writes;
            let left = |property: Property| left_for(writes, mapping.crtcs@, crtc, property);
            let apart = |conn: u32|
                conn != crtc && forall|j: int|
                    0 <= j < planes.len() ==> (#[trigger] planes[j]).handle != conn;
            &&& left(Property::Active) == Some(1u64)
            &&& blob is Some ==> left(Property::ModeId) == blob
            &&& has_property(mapping.crtcs@, crtc, Property::VrrEnabled) ==> left(
                Property::VrrEnabled,
            ) == Some(
                if vrr {
                    1u64
                } else {
                    0u64
                },
            )
            &&& blobs is Some && has_property(mapping.crtcs@, crtc, Property::GammaLut) ==> left(
                Property::GammaLut,
            ) == Some(blobs->0.gamma_blob)
            &&& blobs is Some && has_property(mapping.crtcs@, crtc, Property::Ctm) ==> left(
                Property::Ctm,
            ) == Some(blobs->0.ctm_blob)
            &&& 0 <= c < connectors.len() && apart(connectors[c]) && own_handles(
                mapping.connectors@,
                connectors[c],
            ) && !removed.contains(connectors[c]) ==> is_attached(
                writes,
                mapping.connectors@,
                connectors[c],
                crtc,
                color,
            )
            &&& 0 <= r < removed.len() && apart(removed[r]) && own_handles(
                mapping.connectors@,
                removed[r],
            ) ==> left_for(writes, mapping.connectors@, removed[r], Property::CrtcId) == Some(
                0u64,
            )
            &&& 0 <= p < planes.len() && own_handles(mapping.planes@, planes[p].handle) && (forall|
                j: int,
            |
                0 <= j < planes.len() && j != p ==> (#[trigger] planes[j]).handle
                    != planes[p].handle) ==> match planes[p].config {
                Some(config) => plane_shows(
                    writes,
                    mapping.planes@,
                    planes[p].handle,
                    crtc,
                    config,
                ),
                None => plane_is_off(writes, mapping.planes@, planes[p].handle),
            }
        }),
{
    let attach = connectors_steps(mapping, connectors, crtc, color);
    let detach = removed_steps(mapping, removed);
    let on = items_steps(mapping.crtcs@, crtc, crtc_items(blob, vrr, blobs));
    let show = planes_steps(mapping, crtc, planes);
    let one = attach.writes + detach.writes;
    let two = one + on.writes;
    let writes = two + show.writes;
    law_crtc_is_set_up(mapping, one, crtc, blob, vrr, blobs);
    lemma_planes_write_to_planes(mapping, crtc, planes, crtc);
    lemma_left_stays(two, show.writes, mapping.crtcs@, crtc);
    lemma_items_write_to(mapping.crtcs@, crtc, crtc_items(blob, vrr, blobs));
    if 0 <= c < connectors.len() && own_handles(mapping.connectors@, connectors[c])
        && !removed.contains(connectors[c]) && connectors[c] != crtc && forall|j: int|
        0 <= j < planes.len() ==> (#[trigger] planes[j]).handle != connectors[c] {
        lemma_connectors_attached(mapping, connectors, crtc, color, c);
        lemma_removed_write_to(mapping, removed);
        lemma_left_stays(attach.writes, detach.writes, mapping.connectors@, connectors[c]);
        lemma_left_stays(one, on.writes, mapping.connectors@, connectors[c]);
        lemma_planes_write_to_planes(mapping, crtc, planes, connectors[c]);
        lemma_left_stays(two, show.writes, mapping.connectors@, connectors[c]);
    }
    if 0 <= r < removed.len() && own_handles(mapping.connectors@, removed[r]) && removed[r] != crtc
        && forall|j: int| 0 <= j < planes.len() ==> (#[trigger] planes[j]).handle != removed[r] {
        lemma_removed_detached(mapping, attach.writes, removed, r);
        lemma_left_stays(one, on.writes, mapping.connectors@, removed[r]);
        lemma_planes_write_to_planes(mapping, crtc, planes, removed[r]);
        lemma_left_stays(two, show.writes, mapping.connectors@, removed[r]);
    }
    if 0 <= p < planes.len() && own_handles(mapping.planes@, planes[p].handle) && forall|j: int|
        0 <= j < planes.len() && j != p ==> (#[trigger] planes[j]).handle != planes[p].handle {
        law_request_sets_every_plane(mapping, two, crtc, planes, p);
    }
}

/// The request type of the `drm` crate.
#[verifier::external_type_specification]
#[verifier::external_body]
pub struct ExAtomicModeReq(AtomicModeReq);

/// The values that a request of the `drm` crate holds, by object and property.
pub uninterp spec fn request_contents(req: AtomicModeReq) -> Map<(u32, u32), u64>;

/// `AtomicModeReq::new` gives a request without any values.
pub assume_specification[ AtomicModeReq::new ]() -> (req: AtomicModeReq)
    ensures
        request_contents(req) == no_values(),
;

/// Calls `AtomicModeReq::add_raw_property`: afterwards the property of the object has the value,
/// whether the request held one for it or not, and nothing else has changed. The request counts
/// its properties in 32 bits, so it must not be full, and neither id may be zero.
#[verifier::external_body]
fn add_raw_property(req: &mut AtomicModeReq, object: u32, property: u32, value: u64)
    requires
        object != 0,
        property != 0,
        request_contents(*old(req)).dom().len() < u32::MAX,
    ensures
        request_contents(*final(req)) == request_contents(*old(req)).insert(
            (object, property),
            value,
        ),
{
    let object = std::num::NonZeroU32::new(object).unwrap();
    let property = std::num::NonZeroU32::new(property).unwrap();
    req.add_raw_property(object, property.into(), value)
}

} // verus!
