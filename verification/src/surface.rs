//! State of a display surface that is driven through atomic commits.
//!
//! A surface has a current state, which the hardware shows, and a pending state, which the next
//! commit applies. A state can be read back from what the driver reports.

use vstd::prelude::*;

use crate::color::{Colorspace, ConnectorColorState, CrtcColorState};
#[allow(unused_imports)]
use crate::color::CrtcColorModel;
use crate::colorop::EnumEntry;
#[allow(unused_imports)]
use crate::colorop::{low32, text};
use crate::ffi;
use crate::idset::IdSet;
#[allow(unused_imports)]
use crate::idset::{same_ids, with_id};
use crate::names::same;
use crate::request::{
    ColorspaceValue, CrtcColorBlobs, PropMapping, Property, RequestError, ResolvedColorState,
    find_handle,
};
#[allow(unused_imports)]
use crate::request::{ResolvedColorModel, handle_in};

verus! {

/// A display mode.
#[derive(Debug, Clone, Copy, PartialEq, Eq, Structural)]
pub struct Mode {
    pub clock: u32,
    pub hdisplay: u16,
    pub hsync_start: u16,
    pub hsync_end: u16,
    pub htotal: u16,
    pub hskew: u16,
    pub vdisplay: u16,
    pub vsync_start: u16,
    pub vsync_end: u16,
    pub vtotal: u16,
    pub vscan: u16,
    pub vrefresh: u32,
    pub flags: u32,
    pub kind: u32,
    pub name: ModeName,
}

/// The 32 bytes of a mode name as little endian words.
#[derive(Debug, Clone, Copy, PartialEq, Eq, Structural)]
pub struct ModeName {
    pub a: u64,
    pub b: u64,
    pub c: u64,
    pub d: u64,
}

impl Mode {
    /// The mode of a CRTC that has none.
    pub open spec fn zero() -> Mode {
        Mode {
            clock: 0,
            hdisplay: 0,
            hsync_start: 0,
            hsync_end: 0,
            htotal: 0,
            hskew: 0,
            vdisplay: 0,
            vsync_start: 0,
            vsync_end: 0,
            vtotal: 0,
            vscan: 0,
            vrefresh: 0,
            flags: 0,
            kind: 0,
            name: ModeName { a: 0, b: 0, c: 0, d: 0 },
        }
    }

    /// The mode of a CRTC that has none.
    pub fn zeroed() -> (mode: Mode)
        ensures
            mode == Mode::zero(),
    {
        Mode {
            clock: 0,
            hdisplay: 0,
            hsync_start: 0,
            hsync_end: 0,
            htotal: 0,
            hskew: 0,
            vdisplay: 0,
            vsync_start: 0,
            vsync_end: 0,
            vtotal: 0,
            vscan: 0,
            vrefresh: 0,
            flags: 0,
            kind: 0,
            name: ModeName { a: 0, b: 0, c: 0, d: 0 },
        }
    }
}

/// Why an operation on a surface fails.
#[derive(Debug, Clone, Copy, PartialEq, Eq, Structural)]
pub enum Error {
    /// The device is paused.
    DeviceInactive,
    /// The connector does not offer the mode of the surface.
    ModeNotSuitable(Mode),
    /// The surface would be left without a connector.
    SurfaceWithoutConnectors(u32),
    /// An object has no property of the needed kind.
    UnknownProperty(RequestError),
    /// The driver rejects the configuration.
    TestFailed(u32),
    /// The `Colorspace` property could not be queried.
    ColorspaceQuery(u32),
}

/// A surface configuration.
#[derive(Debug)]
pub struct State {
    pub active: bool,
    pub mode: Mode,
    /// Blob that describes the mode.
    pub blob: u64,
    pub vrr: bool,
    pub connectors: IdSet,
    pub color_state: ConnectorColorState,
    pub resolved_color: ResolvedColorState,
    pub crtc_color_state: CrtcColorState,
    pub crtc_color_blobs: CrtcColorBlobs,
    /// Whether the CRTC encodes the HDR transfer function.
    pub hdr_hardware_offload: bool,
}

/// View of [`State`].
#[verifier::ext_equal]
pub struct StateModel {
    pub active: bool,
    pub mode: Mode,
    pub blob: u64,
    pub vrr: bool,
    pub connectors: Seq<u32>,
    pub color_state: ConnectorColorState,
    pub resolved_color: ResolvedColorModel,
    pub crtc_color_state: CrtcColorModel,
    pub crtc_color_blobs: CrtcColorBlobs,
    pub hdr_hardware_offload: bool,
}

impl View for State {
    type V = StateModel;

    open spec fn view(&self) -> StateModel {
        StateModel {
            active: self.active,
            mode: self.mode,
            blob: self.blob,
            vrr: self.vrr,
            connectors: self.connectors@,
            color_state: self.color_state,
            resolved_color: self.resolved_color@,
            crtc_color_state: self.crtc_color_state@,
            crtc_color_blobs: self.crtc_color_blobs,
            hdr_hardware_offload: self.hdr_hardware_offload,
        }
    }
}

impl StateModel {
    /// Whether two states configure the same. The blobs follow from the rest and are not
    /// compared.
    pub open spec fn equivalent(self, other: StateModel) -> bool {
        &&& self.active == other.active
        &&& self.mode == other.mode
        &&& self.vrr == other.vrr
        &&& same_ids(self.connectors, other.connectors)
        &&& self.color_state.same_state(other.color_state)
        &&& self.crtc_color_state == other.crtc_color_state
        &&& self.hdr_hardware_offload == other.hdr_hardware_offload
    }

    /// Everything is off.
    pub open spec fn cleared(self) -> bool {
        &&& !self.active
        &&& self.mode == Mode::zero()
        &&& self.blob == 0
        &&& !self.vrr
        &&& self.connectors.len() == 0
        &&& self.color_state.is_plain()
        &&& self.resolved_color == ResolvedColorModel::plain()
        &&& self.crtc_color_state == CrtcColorModel::passthrough()
        &&& self.crtc_color_blobs == CrtcColorBlobs { gamma_blob: 0, ctm_blob: 0 }
        &&& !self.hdr_hardware_offload
    }
}

impl PartialEq for State {
    fn eq(&self, other: &Self) -> (r: bool) {
        self.active == other.active && self.mode == other.mode && self.vrr == other.vrr
            && self.connectors.same(&other.connectors) && self.color_state == other.color_state
            && self.crtc_color_state == other.crtc_color_state && self.hdr_hardware_offload
            == other.hdr_hardware_offload
    }
}

impl vstd::std_specs::cmp::PartialEqSpecImpl for State {
    open spec fn obeys_eq_spec() -> bool {
        true
    }

    open spec fn eq_spec(&self, other: &Self) -> bool {
        self@.equivalent(other@)
    }
}

/// A copy of a list of colorspace values.
fn copy_values(values: &Vec<ColorspaceValue>) -> (copy: Vec<ColorspaceValue>)
    ensures
        copy@ == values@,
{
    let mut copy: Vec<ColorspaceValue> = Vec::new();
    let mut i: usize = 0;
    while i < values.len()
        invariant
            i <= values.len(),
            copy@ == values@.take(i as int),
        decreases values.len() - i,
    {
        copy.push(values[i]);
        i = i + 1;
        assert(copy@ =~= values@.take(i as int));
    }
    assert(copy@ =~= values@);
    copy
}

impl ResolvedColorState {
    /// A copy.
    pub fn duplicate(&self) -> (copy: ResolvedColorState)
        ensures
            copy@ == self@,
    {
        ResolvedColorState {
            colorspace_values: copy_values(&self.colorspace_values),
            hdr_blob: self.hdr_blob,
            max_bpc: self.max_bpc,
        }
    }
}

/// The value of one property of an object.
#[derive(Debug, Clone, Copy, PartialEq, Eq, Structural)]
pub struct PropValue {
    pub handle: u32,
    pub value: u64,
}

/// What the kernel says of a CRTC.
#[derive(Debug)]
pub struct CrtcReadout {
    /// The mode, if the CRTC has one, and a blob that was made of it.
    pub mode: Option<(Mode, u64)>,
    /// The properties, if they can be read.
    pub props: Option<Vec<PropValue>>,
}

/// A property of a connector as the kernel reports it.
#[derive(Debug)]
pub struct PropReadout {
    pub handle: u32,
    pub value: u64,
    /// Which property it is, if it is one that matters here.
    pub property: Option<Property>,
    /// The choices, for an enum property.
    pub entries: Option<Vec<EnumEntry>>,
    /// Contents of the blob that the value names, if they can be read.
    pub blob: Option<Vec<u8>>,
}

/// What the kernel says of a connector.
#[derive(Debug)]
pub struct ConnectorReadout {
    pub connector: u32,
    /// Whether the `CRTC_ID` property can be queried and holds a CRTC.
    pub crtc_typed: bool,
    /// The properties, if they can be read.
    pub props: Option<Vec<PropReadout>>,
}

/// Value of the first property with a handle.
pub open spec fn first_value(props: Seq<PropReadout>, handle: u32) -> Option<u64>
    decreases props.len(),
{
    if props.len() == 0 {
        None
    } else if props[0].handle == handle {
        Some(props[0].value)
    } else {
        first_value(props.drop_first(), handle)
    }
}

/// Whether a connector is attached to the CRTC.
pub open spec fn attached(mapping: PropMapping, readout: ConnectorReadout, crtc: u32) -> bool {
    match (handle_in(mapping.connectors@, readout.connector, Property::CrtcId), readout.props) {
        (Some(handle), Some(props)) => readout.crtc_typed && match first_value(props@, handle) {
            Some(value) => crtc != 0 && low32(value) == crtc,
            None => false,
        },
        _ => false,
    }
}

/// The connectors that are attached to the CRTC.
pub open spec fn attached_connectors(
    mapping: PropMapping,
    readouts: Seq<ConnectorReadout>,
    crtc: u32,
) -> Seq<u32>
    decreases readouts.len(),
{
    if readouts.len() == 0 {
        seq![]
    } else {
        let before = attached_connectors(mapping, readouts.drop_last(), crtc);
        if attached(mapping, readouts.last(), crtc) {
            with_id(before, readouts.last().connector)
        } else {
            before
        }
    }
}

/// The first connector without a `CRTC_ID` property.
pub open spec fn unattachable(mapping: PropMapping, readouts: Seq<ConnectorReadout>) -> Option<u32>
    decreases readouts.len(),
{
    if readouts.len() == 0 {
        None
    } else if unattachable(mapping, readouts.drop_last()) is Some {
        unattachable(mapping, readouts.drop_last())
    } else if handle_in(mapping.connectors@, readouts.last().connector, Property::CrtcId) is None {
        Some(readouts.last().connector)
    } else {
        None
    }
}

/// Whether a switch of a CRTC is on, by the first entry of its property; one without a property
/// is off.
pub open spec fn switch_of(props: Seq<PropValue>, property: Option<u32>) -> bool
    decreases props.len(),
{
    if props.len() == 0 {
        false
    } else if Some(props[0].handle) == property {
        props[0].value != 0
    } else {
        switch_of(props.drop_first(), property)
    }
}

/// The `ACTIVE` and `VRR_ENABLED` values of a CRTC.
pub open spec fn crtc_switches(
    props: Seq<PropValue>,
    active: Option<u32>,
    vrr: Option<u32>,
) -> (bool, bool) {
    (switch_of(props, active), switch_of(props, vrr))
}

/// What has been read back of the color signalling: the colorspace and the metadata blob.
pub struct Readback {
    pub colorspace: Colorspace,
    pub metadata: Option<Seq<u8>>,
}

/// Plain SDR.
pub open spec fn nothing_read() -> Readback {
    Readback { colorspace: Colorspace::Default, metadata: None }
}

/// The first choice with a value.
pub open spec fn choice_of(entries: Seq<EnumEntry>, value: u64) -> Option<EnumEntry>
    decreases entries.len(),
{
    if entries.len() == 0 {
        None
    } else if entries[0].value == value {
        Some(entries[0])
    } else {
        choice_of(entries.drop_first(), value)
    }
}

/// The colorspace that a raw value stands for. Zero is the default; any other value without a
/// known name is some foreign colorimetry.
pub open spec fn colorspace_of(entries: Seq<EnumEntry>, value: u64) -> Colorspace {
    let known = match choice_of(entries, value) {
        Some(entry) => match text(entry.name) {
            Some(name) => Colorspace::named(name),
            None => None,
        },
        None => None,
    };
    match known {
        Some(cs) => cs,
        None => if value == 0 {
            Colorspace::Default
        } else {
            Colorspace::Unknown
        },
    }
}

/// Takes one property into account: the first colorspace that is not the default and the first
/// metadata that can be parsed count.
pub open spec fn read_prop(before: Readback, prop: PropReadout) -> Readback {
    if prop.property == Some(Property::Colorspace) {
        match prop.entries {
            Some(entries) if before.colorspace == Colorspace::Default => Readback {
                colorspace: colorspace_of(entries@, prop.value),
                ..before
            },
            _ => before,
        }
    } else if prop.property == Some(Property::HdrOutputMetadata) {
        match prop.blob {
            Some(bytes) if prop.value != 0 && before.metadata is None && ffi::parses(bytes@) => Readback {
                metadata: Some(bytes@),
                ..before
            },
            _ => before,
        }
    } else {
        before
    }
}

/// Takes the properties of a connector into account.
pub open spec fn read_props(before: Readback, props: Seq<PropReadout>) -> Readback
    decreases props.len(),
{
    if props.len() == 0 {
        before
    } else {
        read_prop(read_props(before, props.drop_last()), props.last())
    }
}

/// The color signalling of the connectors that are attached to the CRTC.
pub open spec fn read_connectors(
    mapping: PropMapping,
    readouts: Seq<ConnectorReadout>,
    crtc: u32,
) -> Readback
    decreases readouts.len(),
{
    if readouts.len() == 0 {
        nothing_read()
    } else {
        let before = read_connectors(mapping, readouts.drop_last(), crtc);
        match readouts.last().props {
            Some(props) if attached(mapping, readouts.last(), crtc) => read_props(before, props@),
            _ => before,
        }
    }
}

/// The color state shows what was read back.
pub open spec fn shows(color_state: ConnectorColorState, readback: Readback) -> bool {
    &&& color_state.colorspace == readback.colorspace
    &&& match (color_state.hdr_metadata, readback.metadata) {
        (Some(meta), Some(bytes)) => ffi::holds(bytes, meta),
        (None, None) => true,
        _ => false,
    }
    &&& color_state.max_bpc is None
    &&& color_state.reference_white is None
}

fn find_value(props: &Vec<PropReadout>, handle: u32) -> (value: Option<u64>)
    ensures
        value == first_value(props@, handle),
{
    let mut i: usize = 0;
    assert(props@.skip(0) =~= props@);
    while i < props.len()
        invariant
            i <= props.len(),
            first_value(props@, handle) == first_value(props@.skip(i as int), handle),
        decreases props.len() - i,
    {
        assert(props@.skip(i as int)[0] == props@[i as int]);
        assert(props@.skip(i as int).drop_first() =~= props@.skip(i + 1));
        if props[i].handle == handle {
            return Some(props[i].value);
        }
        i = i + 1;
    }
    None
}

fn find_choice(entries: &Vec<EnumEntry>, value: u64) -> (i: Option<usize>)
    ensures
        match i {
            Some(i) => i < entries@.len() && choice_of(entries@, value) == Some(entries@[i as int]),
            None => choice_of(entries@, value) is None,
        },
{
    let mut i: usize = 0;
    assert(entries@.skip(0) =~= entries@);
    while i < entries.len()
        invariant
            i <= entries.len(),
            choice_of(entries@, value) == choice_of(entries@.skip(i as int), value),
        decreases entries.len() - i,
    {
        assert(entries@.skip(i as int)[0] == entries@[i as int]);
        assert(entries@.skip(i as int).drop_first() =~= entries@.skip(i + 1));
        if entries[i].value == value {
            return Some(i);
        }
        i = i + 1;
    }
    None
}

fn read_colorspace(entries: &Vec<EnumEntry>, value: u64) -> (cs: Colorspace)
    ensures
        cs == colorspace_of(entries@, value),
{
    let known: Option<Colorspace> = match find_choice(entries, value) {
        Some(i) => match &entries[i].name {
            Some(name) => Colorspace::from_kernel_name(name.as_str()),
            None => None,
        },
        None => None,
    };
    match known {
        Some(cs) => cs,
        None => if value == 0 {
            Colorspace::Default
        } else {
            Colorspace::Unknown
        },
    }
}

fn read_property(color_state: &mut ConnectorColorState, prop: &PropReadout, before: Ghost<Readback>)
    requires
        shows(*old(color_state), before@),
    ensures
        shows(*final(color_state), read_prop(before@, *prop)),
{
    match prop.property {
        Some(Property::Colorspace) => {
            if let Some(entries) = &prop.entries {
                if color_state.colorspace == Colorspace::Default {
                    color_state.colorspace = read_colorspace(entries, prop.value);
                }
            }
        },
        Some(Property::HdrOutputMetadata) => {
            if let Some(bytes) = &prop.blob {
                if prop.value != 0 && color_state.hdr_metadata.is_none() {
                    color_state.hdr_metadata = ffi::HdrOutputMetadata::parse(bytes.as_slice());
                }
            }
        },
        _ => {},
    }
}

fn read_properties(
    color_state: &mut ConnectorColorState,
    props: &Vec<PropReadout>,
    before: Ghost<Readback>,
)
    requires
        shows(*old(color_state), before@),
    ensures
        shows(*final(color_state), read_props(before@, props@)),
{
    let mut i: usize = 0;
    assert(props@.take(0) =~= seq![]);
    while i < props.len()
        invariant
            i <= props.len(),
            shows(*color_state, read_props(before@, props@.take(i as int))),
        decreases props.len() - i,
    {
        proof {
            assert(props@.take(i + 1).last() == props@[i as int]);
            assert(props@.take(i + 1).drop_last() =~= props@.take(i as int));
        }
        read_property(color_state, &props[i], Ghost(read_props(before@, props@.take(i as int))));
        i = i + 1;
    }
    assert(props@.take(i as int) =~= props@);
}

fn is_attached(mapping: &PropMapping, readout: &ConnectorReadout, crtc: u32) -> (r: bool)
    ensures
        r == attached(*mapping, *readout, crtc),
{
    let handle: u32 = match find_handle(&mapping.connectors, readout.connector, Property::CrtcId) {
        Some(handle) => handle,
        None => {
            return false;
        },
    };
    match &readout.props {
        Some(props) => {
            if !readout.crtc_typed || crtc == 0 {
                return false;
            }
            match find_value(props, handle) {
                Some(value) => (value % 0x1_0000_0000) as u32 == crtc,
                None => false,
            }
        },
        None => false,
    }
}

fn read_switch(props: &Vec<PropValue>, property: Option<u32>) -> (on: bool)
    ensures
        on == switch_of(props@, property),
{
    let mut i: usize = 0;
    assert(props@.skip(0) =~= props@);
    while i < props.len()
        invariant
            i <= props.len(),
            switch_of(props@, property) == switch_of(props@.skip(i as int), property),
        decreases props.len() - i,
    {
        assert(props@.skip(i as int)[0] == props@[i as int]);
        assert(props@.skip(i as int).drop_first() =~= props@.skip(i + 1));
        let entry: PropValue = props[i];
        if Some(entry.handle) == property {
            return entry.value != 0;
        }
        i = i + 1;
    }
    false
}

/// What is known of the CRTC switches.
pub open spec fn switches_of(mapping: PropMapping, crtc: u32, readout: CrtcReadout) -> (bool, bool) {
    match readout.props {
        Some(props) => crtc_switches(
            props@,
            handle_in(mapping.crtcs@, crtc, Property::Active),
            handle_in(mapping.crtcs@, crtc, Property::VrrEnabled),
        ),
        None => (false, false),
    }
}

impl State {
    /// The connectors are a set.
    pub open spec fn wf(&self) -> bool {
        self.connectors.wf()
    }

    /// The state of a CRTC as the kernel reports it. A `max bpc` value is not read back, and no
    /// color blob is owned.
    pub fn current_state(
        mapping: &PropMapping,
        crtc: u32,
        crtc_info: &CrtcReadout,
        connectors: &Vec<ConnectorReadout>,
    ) -> (r: Result<State, Error>)
        ensures
            match r {
                Ok(state) => {
                    &&& unattachable(*mapping, connectors@) is None
                    &&& state.wf()
                    &&& state@.connectors == attached_connectors(*mapping, connectors@, crtc)
                    &&& (state@.active, state@.vrr) == switches_of(*mapping, crtc, *crtc_info)
                    &&& (state@.mode, state@.blob) == match crtc_info.mode {
                        Some(mode) => mode,
                        None => (Mode::zero(), 0u64),
                    }
                    &&& shows(
                        state@.color_state,
                        read_connectors(*mapping, connectors@, crtc),
                    )
                    &&& state@.resolved_color == ResolvedColorModel::plain()
                    &&& state@.crtc_color_state == CrtcColorModel::passthrough()
                    &&& state@.crtc_color_blobs == (CrtcColorBlobs { gamma_blob: 0, ctm_blob: 0 })
                    &&& !state@.hdr_hardware_offload
                },
                Err(error) => match unattachable(*mapping, connectors@) {
                    Some(conn) => error == Error::UnknownProperty(
                        RequestError { handle: conn, property: Property::CrtcId },
                    ),
                    None => false,
                },
            },
    {
        let mut current: IdSet = IdSet::new();
        let mut color_state: ConnectorColorState = ConnectorColorState::default();
        let mut i: usize = 0;
        assert(connectors@.take(0) =~= seq![]);
        assert(connectors@.take(connectors@.len() as int) =~= connectors@);
        while i < connectors.len()
            invariant
                i <= connectors.len(),
                current.wf(),
                current@ == attached_connectors(*mapping, connectors@.take(i as int), crtc),
                unattachable(*mapping, connectors@.take(i as int)) is None,
                shows(color_state, read_connectors(*mapping, connectors@.take(i as int), crtc)),
                connectors@.take(connectors@.len() as int) == connectors@,
            decreases connectors.len() - i,
        {
            let readout: &ConnectorReadout = &connectors[i];
            proof {
                assert(connectors@.take(i + 1).last() == connectors@[i as int]);
                assert(connectors@.take(i + 1).drop_last() =~= connectors@.take(i as int));
            }
            if find_handle(&mapping.connectors, readout.connector, Property::CrtcId).is_none() {
                proof {
                    lemma_unattachable_stays(*mapping, connectors@, i + 1);
                }
                return Err(
                    Error::UnknownProperty(
                        RequestError { handle: readout.connector, property: Property::CrtcId },
                    ),
                );
            }
            if is_attached(mapping, readout, crtc) {
                current.insert(readout.connector);
                if let Some(props) = &readout.props {
                    read_properties(
                        &mut color_state,
                        props,
                        Ghost(read_connectors(*mapping, connectors@.take(i as int), crtc)),
                    );
                }
            }
            i = i + 1;
        }
        let (active, vrr) = match &crtc_info.props {
            Some(props) => (
                read_switch(props, find_handle(&mapping.crtcs, crtc, Property::Active)),
                read_switch(props, find_handle(&mapping.crtcs, crtc, Property::VrrEnabled)),
            ),
            None => (false, false),
        };
        let (mode, blob) = match crtc_info.mode {
            Some((mode, blob)) => (mode, blob),
            None => (Mode::zeroed(), 0),
        };
        Ok(
            State {
                active,
                mode,
                blob,
                vrr,
                connectors: current,
                color_state,
                resolved_color: ResolvedColorState::default(),
                crtc_color_state: CrtcColorState::default(),
                crtc_color_blobs: CrtcColorBlobs::default(),
                hdr_hardware_offload: false,
            },
        )
    }

    /// Turns everything off.
    pub fn clear(&mut self)
        ensures
            final(self)@.cleared(),
            final(self).wf(),
    {
        self.mode = Mode::zeroed();
        self.blob = 0;
        self.connectors = IdSet::new();
        self.active = false;
        self.vrr = false;
        self.color_state = ConnectorColorState::default();
        self.resolved_color = ResolvedColorState::default();
        self.crtc_color_state = CrtcColorState::default();
        self.crtc_color_blobs = CrtcColorBlobs::default();
        self.hdr_hardware_offload = false;
    }

    /// A copy.
    pub fn duplicate(&self) -> (copy: State)
        ensures
            copy@ == self@,
    {
        State {
            active: self.active,
            mode: self.mode,
            blob: self.blob,
            vrr: self.vrr,
            connectors: self.connectors.duplicate(),
            color_state: self.color_state,
            resolved_color: self.resolved_color.duplicate(),
            crtc_color_state: self.crtc_color_state.duplicate(),
            crtc_color_blobs: self.crtc_color_blobs,
            hdr_hardware_offload: self.hdr_hardware_offload,
        }
    }
}

proof fn lemma_unattachable_stays(mapping: PropMapping, readouts: Seq<ConnectorReadout>, n: int)
    requires
        0 <= n <= readouts.len(),
        unattachable(mapping, readouts.take(n)) is Some,
    ensures
        unattachable(mapping, readouts) == unattachable(mapping, readouts.take(n)),
    decreases readouts.len() - n,
{
    if n == readouts.len() {
        assert(readouts.take(n) =~= readouts);
    } else {
        assert(readouts.take(n + 1).drop_last() =~= readouts.take(n));
        lemma_unattachable_stays(mapping, readouts, n + 1);
    }
}

/// Both switches of a CRTC are read, wherever their properties are listed.
pub proof fn law_switches_are_independent(
    props: Seq<PropValue>,
    active: u32,
    vrr: u32,
    i: int,
    j: int,
)
    requires
        0 <= i < props.len(),
        0 <= j < props.len(),
        props[i].handle == active,
        props[j].handle == vrr,
        forall|k: int, l: int|
            0 <= k < l < props.len() ==> (#[trigger] props[k]).handle != (
            #[trigger] props[l]).handle,
    ensures
        crtc_switches(props, Some(active), Some(vrr)) == (
            props[i].value != 0,
            props[j].value != 0,
        ),
{
    lemma_switch(props, i);
    lemma_switch(props, j);
}

proof fn lemma_switch(props: Seq<PropValue>, i: int)
    requires
        0 <= i < props.len(),
        forall|k: int, l: int|
            0 <= k < l < props.len() ==> (#[trigger] props[k]).handle != (
            #[trigger] props[l]).handle,
    ensures
        switch_of(props, Some(props[i].handle)) == (props[i].value != 0),
    decreases props.len(),
{
    if i > 0 {
        let rest = props.drop_first();
        assert forall|k: int, l: int| 0 <= k < l < rest.len() implies (#[trigger] rest[k]).handle
            != (#[trigger] rest[l]).handle by {
            assert(rest[k] == props[k + 1] && rest[l] == props[l + 1]);
        }
        assert(rest[i - 1] == props[i]);
        assert(props[0].handle != props[i].handle);
        lemma_switch(rest, i - 1);
    }
}

/// States that differ in their blobs only are equivalent.
pub proof fn law_equivalence_ignores_blobs(a: StateModel, b: StateModel)
    requires
        a == (StateModel {
            blob: a.blob,
            resolved_color: a.resolved_color,
            crtc_color_blobs: a.crtc_color_blobs,
            ..b
        }),
    ensures
        a.equivalent(b),
        b.equivalent(a),
{
}

/// Exactly the connectors are attached that report the CRTC in their own property for it.
pub proof fn law_attached_connectors_report_the_crtc(
    mapping: PropMapping,
    readouts: Seq<ConnectorReadout>,
    crtc: u32,
    conn: u32,
)
    ensures
        attached_connectors(mapping, readouts, crtc).contains(conn) <==> exists|k: int|
            0 <= k < readouts.len() && (#[trigger] readouts[k]).connector == conn && attached(
                mapping,
                readouts[k],
                crtc,
            ),
    decreases readouts.len(),
{
    if readouts.len() > 0 {
        let rest = readouts.drop_last();
        law_attached_connectors_report_the_crtc(mapping, rest, crtc, conn);
        let before = attached_connectors(mapping, rest, crtc);
        let last = readouts.last();
        let n = readouts.len() - 1;
        assert(readouts[n] == last);
        assert forall|id: u32| #[trigger] with_id(before, last.connector).contains(id) <==> (
        before.contains(id) || id == last.connector) by {
            lemma_with_id(before, last.connector, id);
        }
        if exists|k: int|
            0 <= k < readouts.len() && (#[trigger] readouts[k]).connector == conn && attached(
                mapping,
                readouts[k],
                crtc,
            ) {
            let k = choose|k: int|
                0 <= k < readouts.len() && (#[trigger] readouts[k]).connector == conn && attached(
                    mapping,
                    readouts[k],
                    crtc,
                );
            if k < n {
                assert(rest[k] == readouts[k]);
            }
        }
        if before.contains(conn) {
            let k = choose|k: int|
                0 <= k < rest.len() && (#[trigger] rest[k]).connector == conn && attached(
                    mapping,
                    rest[k],
                    crtc,
                );
            assert(readouts[k] == rest[k]);
        }
    }
}

proof fn lemma_with_id(ids: Seq<u32>, added: u32, id: u32)
    ensures
        with_id(ids, added).contains(id) <==> (ids.contains(id) || id == added),
{
    let all = ids.push(added);
    assert(all[ids.len() as int] == added);
    if ids.contains(id) {
        let i = choose|i: int| 0 <= i < ids.len() && ids[i] == id;
        assert(all[i] == id);
    }
    if all.contains(id) {
        let i = choose|i: int| 0 <= i < all.len() && all[i] == id;
        if i < ids.len() {
            assert(ids[i] == id);
        }
    }
}

/// A connector is attached only if its first value of the property for the CRTC is that CRTC.
pub proof fn law_attachment_is_by_value(
    mapping: PropMapping,
    readout: ConnectorReadout,
    crtc: u32,
    k: int,
)
    requires
        readout.props is Some,
        0 <= k < readout.props->0@.len(),
        handle_in(mapping.connectors@, readout.connector, Property::CrtcId) == Some(
            readout.props->0@[k].handle,
        ),
        forall|j: int|
            0 <= j < k ==> (#[trigger] readout.props->0@[j]).handle != readout.props->0@[k].handle,
    ensures
        attached(mapping, readout, crtc) <==> readout.crtc_typed && crtc != 0
            && readout.props->0@[k].value % 0x1_0000_0000 == crtc,
{
    lemma_first_value(readout.props->0@, k);
}

proof fn lemma_first_value(props: Seq<PropReadout>, k: int)
    requires
        0 <= k < props.len(),
        forall|j: int| 0 <= j < k ==> (#[trigger] props[j]).handle != props[k].handle,
    ensures
        first_value(props, props[k].handle) == Some(props[k].value),
    decreases k,
{
    if k > 0 {
        let rest = props.drop_first();
        assert(props[0].handle != props[k].handle);
        assert(rest[k - 1] == props[k]);
        assert forall|j: int| 0 <= j < k - 1 implies (#[trigger] rest[j]).handle != rest[k
            - 1].handle by {
            assert(rest[j] == props[j + 1]);
        }
        lemma_first_value(rest, k - 1);
    }
}

/// The switches of a CRTC are those of its own properties: the first entry of each decides, being
/// on if it is not zero. The one never stands for the other.
pub proof fn law_switches_are_their_own(props: Seq<PropValue>, active: Option<u32>, vrr: Option<u32>, k: int)
    requires
        0 <= k < props.len(),
        forall|j: int| 0 <= j < k ==> (#[trigger] props[j]).handle != props[k].handle,
    ensures
        active == Some(props[k].handle) ==> crtc_switches(props, active, vrr).0 == (props[k].value
            != 0),
        vrr == Some(props[k].handle) ==> crtc_switches(props, active, vrr).1 == (props[k].value
            != 0),
{
    lemma_first_switch(props, k);
}

proof fn lemma_first_switch(props: Seq<PropValue>, k: int)
    requires
        0 <= k < props.len(),
        forall|j: int| 0 <= j < k ==> (#[trigger] props[j]).handle != props[k].handle,
    ensures
        switch_of(props, Some(props[k].handle)) == (props[k].value != 0),
    decreases k,
{
    if k > 0 {
        let rest = props.drop_first();
        assert(props[0].handle != props[k].handle);
        assert(rest[k - 1] == props[k]);
        assert forall|j: int| 0 <= j < k - 1 implies (#[trigger] rest[j]).handle != rest[k
            - 1].handle by {
            assert(rest[j] == props[j + 1]);
        }
        lemma_first_switch(rest, k - 1);
    }
}

/// A raw colorspace value is read by the name that the first choice with it has. Without a name that
/// is known, zero is the default and anything else unknown.
pub proof fn law_colorspaces_are_read_by_name(entries: Seq<EnumEntry>, value: u64, k: int)
    requires
        0 <= k < entries.len(),
        entries[k].value == value,
        forall|j: int| 0 <= j < k ==> (#[trigger] entries[j]).value != value,
    ensures
        ({
            let name = text(entries[k].name);
            let known = name is Some && Colorspace::named(name->0) is Some;
            &&& known ==> colorspace_of(entries, value) == Colorspace::named(name->0)->0
            &&& !known && value == 0 ==> colorspace_of(entries, value) is Default
            &&& !known && value != 0 ==> colorspace_of(entries, value) is Unknown
        }),
{
    lemma_choice(entries, value, k);
}

proof fn lemma_choice(entries: Seq<EnumEntry>, value: u64, k: int)
    requires
        0 <= k < entries.len(),
        entries[k].value == value,
        forall|j: int| 0 <= j < k ==> (#[trigger] entries[j]).value != value,
    ensures
        choice_of(entries, value) == Some(entries[k]),
    decreases k,
{
    if k > 0 {
        let rest = entries.drop_first();
        assert(entries[0].value != value);
        assert(rest[k - 1] == entries[k]);
        assert forall|j: int| 0 <= j < k - 1 implies (#[trigger] rest[j]).value != value by {
            assert(rest[j] == entries[j + 1]);
        }
        lemma_choice(rest, value, k - 1);
    }
}

} // verus!
