//! Staging, testing and committing the configuration of a display surface.
//!
//! Every operation comes in two parts. The first decides whether it is possible and gives the
//! request that the driver has to accept; the second takes the driver's answer and updates the
//! surface. Property blobs that nothing refers to any more are listed for release.

use vstd::prelude::*;

use crate::color::{Colorspace, ConnectorColorState, CrtcColorState, DrmColorLut};
#[allow(unused_imports)]
use crate::color::CrtcColorModel;
use crate::colorop::EnumEntry;
#[allow(unused_imports)]
use crate::colorop::{low32, text};
use crate::geometry::{Point, Rectangle, Size, Transform};
use crate::hdr::F32_203;
use crate::idset::IdSet;
#[allow(unused_imports)]
use crate::idset::{distinct, minus, with_id};
use crate::names::same;
use crate::request::{
    AtomicRequest, ColorspaceValue, CrtcColorBlobs, PlaneConfig, PlaneState, PropMapping, Property,
    RequestError, ResolvedColorState, SourceRect, Write, find_handle, is_known,
};
#[allow(unused_imports)]
use crate::request::{
    ResolvedColorModel, Steps, applied, followed_by, handle_in, items_steps, knows_object,
    no_steps, removed_steps, request_contents, request_steps, reset_crtc_items, reset_plane_items,
    valid_writes,
};
use crate::softfloat::{F32_ONE, f64_quotient};
#[allow(unused_imports)]
use crate::softfloat::f64_quotient_of;
use crate::surface::{Error, Mode, PropValue, State};
#[allow(unused_imports)]
use crate::surface::StateModel;
use drm::control::atomic::AtomicModeReq;
#[allow(unused_imports)]
use crate::nearest::{law_integers_are_exact, units64};
#[allow(unused_imports)]
use crate::softfloat::two_pow;

verus! {

/// Ask for a page flip event.
pub const PAGE_FLIP_EVENT: u32 = 1;

/// Flip without waiting for vertical blanking.
pub const PAGE_FLIP_ASYNC: u32 = 2;

/// Only test whether the driver would accept the request.
pub const TEST_ONLY: u32 = 256;

/// Do not wait for the request to complete.
pub const NONBLOCK: u32 = 512;

/// Allow the request to change the mode.
pub const ALLOW_MODESET: u32 = 1024;

/// Test of a full configuration.
pub const FULL_TEST: u32 = 1280;

/// A request together with the flags that it is made with.
#[derive(Debug)]
pub struct Attempt {
    pub writes: Vec<Write>,
    pub flags: u32,
}

impl Attempt {
    /// The request in the form that is handed to the kernel.
    pub fn build(&self, mapping: &PropMapping) -> (req: AtomicModeReq)
        requires
            mapping.wf(),
            valid_writes(self.writes@),
            self.writes@.len() < u32::MAX,
        ensures
            request_contents(req) == applied(self.writes@),
    {
        let mut writes: Vec<Write> = Vec::new();
        let mut i: usize = 0;
        while i < self.writes.len()
            invariant
                i <= self.writes.len(),
                writes@ == self.writes@.take(i as int),
            decreases self.writes.len() - i,
        {
            writes.push(self.writes[i]);
            i = i + 1;
            assert(writes@ =~= self.writes@.take(i as int));
        }
        assert(writes@ =~= self.writes@);
        let request = AtomicRequest { mapping, writes };
        request.build()
    }
}

/// The result is the request that writes the steps, or the error that the steps end in.
pub open spec fn attempts(r: Result<Attempt, Error>, steps: Steps, flags: u32) -> bool {
    match r {
        Ok(attempt) => {
            &&& steps.error is None
            &&& attempt.writes@ == steps.writes
            &&& attempt.flags == flags
            &&& valid_writes(attempt.writes@)
        },
        Err(error) => steps.error is Some && error == Error::UnknownProperty(steps.error->Some_0),
    }
}

/// The choices of a `Colorspace` property.
#[derive(Debug)]
pub struct ColorspaceRecord {
    /// Handle of the property.
    pub property: u32,
    /// The choices, if it is an enum property.
    pub entries: Option<Vec<EnumEntry>>,
}

/// The first record of a property.
pub open spec fn record_of(records: Seq<ColorspaceRecord>, property: u32) -> Option<
    ColorspaceRecord,
>
    decreases records.len(),
{
    if records.len() == 0 {
        None
    } else if records[0].property == property {
        Some(records[0])
    } else {
        record_of(records.drop_first(), property)
    }
}

/// Raw value of the first choice with a name.
pub open spec fn value_named(entries: Seq<EnumEntry>, name: Seq<char>) -> Option<u64>
    decreases entries.len(),
{
    if entries.len() == 0 {
        None
    } else if text(entries[0].name) == Some(name) {
        Some(entries[0].value)
    } else {
        value_named(entries.drop_first(), name)
    }
}

/// An object lacks a property.
pub open spec fn lacks(handle: u32, property: Property) -> Error {
    Error::UnknownProperty(RequestError { handle, property })
}

/// The raw colorspace value that the requested color state means on one connector.
pub open spec fn resolved_space(
    mapping: PropMapping,
    records: Seq<ColorspaceRecord>,
    color: ConnectorColorState,
    conn: u32,
) -> Result<Option<u64>, Error> {
    let fallback = if color.colorspace == Colorspace::Default {
        Ok(None)
    } else {
        Err(lacks(conn, Property::Colorspace))
    };
    match (color.colorspace.name(), handle_in(mapping.connectors@, conn, Property::Colorspace)) {
        (None, _) => Err(lacks(conn, Property::Colorspace)),
        (Some(name), None) => fallback,
        (Some(name), Some(handle)) => match record_of(records, handle) {
            None => Err(Error::ColorspaceQuery(conn)),
            Some(record) => match record.entries {
                None => fallback,
                Some(entries) => match value_named(entries@, name) {
                    Some(value) => Ok(Some(value)),
                    None => fallback,
                },
            },
        },
    }
}

/// The color state on one connector: its colorspace value, and an error where the connector
/// lacks a property that is asked for.
pub open spec fn resolved_on(
    mapping: PropMapping,
    records: Seq<ColorspaceRecord>,
    color: ConnectorColorState,
    conn: u32,
) -> Result<Option<u64>, Error> {
    match resolved_space(mapping, records, color, conn) {
        Err(error) => Err(error),
        Ok(value) => if color.hdr_metadata is Some && handle_in(
            mapping.connectors@,
            conn,
            Property::HdrOutputMetadata,
        ) is None {
            Err(lacks(conn, Property::HdrOutputMetadata))
        } else if color.max_bpc is Some && handle_in(
            mapping.connectors@,
            conn,
            Property::MaxBpc,
        ) is None {
            Err(lacks(conn, Property::MaxBpc))
        } else {
            Ok(value)
        },
    }
}

/// The colorspace values of several connectors, or the first error.
pub open spec fn resolved_values(
    mapping: PropMapping,
    records: Seq<ColorspaceRecord>,
    color: ConnectorColorState,
    conns: Seq<u32>,
) -> Result<Seq<ColorspaceValue>, Error>
    decreases conns.len(),
{
    if conns.len() == 0 {
        Ok(seq![])
    } else {
        match resolved_values(mapping, records, color, conns.drop_last()) {
            Err(error) => Err(error),
            Ok(values) => match resolved_on(mapping, records, color, conns.last()) {
                Err(error) => Err(error),
                Ok(None) => Ok(values),
                Ok(Some(value)) => Ok(
                    values.push(ColorspaceValue { connector: conns.last(), value }),
                ),
            },
        }
    }
}

proof fn lemma_resolve_error_stays(
    mapping: PropMapping,
    records: Seq<ColorspaceRecord>,
    color: ConnectorColorState,
    conns: Seq<u32>,
    n: int,
)
    requires
        0 <= n <= conns.len(),
        resolved_values(mapping, records, color, conns.take(n)) is Err,
    ensures
        resolved_values(mapping, records, color, conns) == resolved_values(
            mapping,
            records,
            color,
            conns.take(n),
        ),
    decreases conns.len() - n,
{
    if n == conns.len() {
        assert(conns.take(n) =~= conns);
    } else {
        assert(conns.take(n + 1).drop_last() =~= conns.take(n));
        lemma_resolve_error_stays(mapping, records, color, conns, n + 1);
    }
}

fn find_record(records: &Vec<ColorspaceRecord>, property: u32) -> (i: Option<usize>)
    ensures
        match i {
            Some(i) => i < records@.len() && record_of(records@, property) == Some(
                records@[i as int],
            ),
            None => record_of(records@, property) is None,
        },
{
    let mut i: usize = 0;
    assert(records@.skip(0) =~= records@);
    while i < records.len()
        invariant
            i <= records.len(),
            record_of(records@, property) == record_of(records@.skip(i as int), property),
        decreases records.len() - i,
    {
        assert(records@.skip(i as int)[0] == records@[i as int]);
        assert(records@.skip(i as int).drop_first() =~= records@.skip(i + 1));
        if records[i].property == property {
            return Some(i);
        }
        i = i + 1;
    }
    None
}

fn find_named(entries: &Vec<EnumEntry>, name: &str) -> (value: Option<u64>)
    ensures
        value == value_named(entries@, name@),
{
    let mut i: usize = 0;
    assert(entries@.skip(0) =~= entries@);
    while i < entries.len()
        invariant
            i <= entries.len(),
            value_named(entries@, name@) == value_named(entries@.skip(i as int), name@),
        decreases entries.len() - i,
    {
        assert(entries@.skip(i as int)[0] == entries@[i as int]);
        assert(entries@.skip(i as int).drop_first() =~= entries@.skip(i + 1));
        if let Some(found) = &entries[i].name {
            if same(found.as_str(), name) {
                return Some(entries[i].value);
            }
        }
        i = i + 1;
    }
    None
}

fn resolve_space(
    mapping: &PropMapping,
    records: &Vec<ColorspaceRecord>,
    color_state: &ConnectorColorState,
    conn: u32,
) -> (r: Result<Option<u64>, Error>)
    ensures
        r == resolved_space(*mapping, records@, *color_state, conn),
{
    let missing: Error = Error::UnknownProperty(
        RequestError { handle: conn, property: Property::Colorspace },
    );
    let name: &'static str = match color_state.colorspace.kernel_name() {
        Some(name) => name,
        None => {
            return Err(missing);
        },
    };
    let is_default: bool = color_state.colorspace == Colorspace::Default;
    if let Some(handle) = find_handle(&mapping.connectors, conn, Property::Colorspace) {
        match find_record(records, handle) {
            None => {
                return Err(Error::ColorspaceQuery(conn));
            },
            Some(i) => {
                if let Some(entries) = &records[i].entries {
                    if let Some(value) = find_named(entries, name) {
                        return Ok(Some(value));
                    }
                }
            },
        }
    }
    if is_default {
        Ok(None)
    } else {
        Err(missing)
    }
}

/// The requested color state as raw property values of the connectors.
///
/// Fails where the state asks for something that a connector has no property for: a colorspace
/// other than the default, HDR metadata or a `max bpc` value. Plain SDR resolves on any
/// connector whose properties can be queried.
pub fn resolve_color_state(
    mapping: &PropMapping,
    records: &Vec<ColorspaceRecord>,
    color_state: &ConnectorColorState,
    hdr_blob: u64,
    connectors: &Vec<u32>,
) -> (r: Result<ResolvedColorState, Error>)
    ensures
        match (r, resolved_values(*mapping, records@, *color_state, connectors@)) {
            (Ok(resolved), Ok(values)) => resolved@ == resolved_with(values, hdr_blob, *color_state),
            (Err(error), Err(expected)) => error == expected,
            _ => false,
        },
{
    let mut values: Vec<ColorspaceValue> = Vec::new();
    let mut i: usize = 0;
    assert(connectors@.take(0) =~= seq![]);
    assert(connectors@.take(connectors@.len() as int) =~= connectors@);
    while i < connectors.len()
        invariant
            i <= connectors.len(),
            connectors@.take(connectors@.len() as int) == connectors@,
            resolved_values(*mapping, records@, *color_state, connectors@.take(i as int)) == Ok::<
                Seq<ColorspaceValue>,
                Error,
            >(values@),
        decreases connectors.len() - i,
    {
        let conn: u32 = connectors[i];
        proof {
            assert(connectors@.take(i + 1).last() == conn);
            assert(connectors@.take(i + 1).drop_last() =~= connectors@.take(i as int));
        }
        let value: Option<u64> = match resolve_space(mapping, records, color_state, conn) {
            Ok(value) => value,
            Err(error) => {
                proof {
                    lemma_resolve_error_stays(
                        *mapping,
                        records@,
                        *color_state,
                        connectors@,
                        i + 1,
                    );
                }
                return Err(error);
            },
        };
        if color_state.hdr_metadata.is_some() && find_handle(
            &mapping.connectors,
            conn,
            Property::HdrOutputMetadata,
        ).is_none() {
            proof {
                lemma_resolve_error_stays(*mapping, records@, *color_state, connectors@, i + 1);
            }
            return Err(
                Error::UnknownProperty(
                    RequestError { handle: conn, property: Property::HdrOutputMetadata },
                ),
            );
        }
        if color_state.max_bpc.is_some() && find_handle(
            &mapping.connectors,
            conn,
            Property::MaxBpc,
        ).is_none() {
            proof {
                lemma_resolve_error_stays(*mapping, records@, *color_state, connectors@, i + 1);
            }
            return Err(
                Error::UnknownProperty(RequestError { handle: conn, property: Property::MaxBpc }),
            );
        }
        if let Some(raw) = value {
            values.push(ColorspaceValue { connector: conn, value: raw });
        }
        i = i + 1;
    }
    Ok(
        ResolvedColorState {
            colorspace_values: values,
            hdr_blob,
            max_bpc: match color_state.max_bpc {
                Some(depth) => Some(depth as u64),
                None => None,
            },
        },
    )
}

/// The resolved form of a color state with given colorspace values.
pub open spec fn resolved_with(
    values: Seq<ColorspaceValue>,
    hdr_blob: u64,
    color: ConnectorColorState,
) -> ResolvedColorModel {
    ResolvedColorModel {
        colorspace_values: values,
        hdr_blob,
        max_bpc: match color.max_bpc {
            Some(depth) => Some(depth as u64),
            None => None,
        },
    }
}

/// Plain SDR signalling resolves on every connector whose `Colorspace` property, if there is
/// one, can be queried.
pub proof fn law_plain_state_resolves(
    mapping: PropMapping,
    records: Seq<ColorspaceRecord>,
    color: ConnectorColorState,
    conns: Seq<u32>,
)
    requires
        color.is_plain(),
        forall|i: int|
            0 <= i < conns.len() ==> match handle_in(
                mapping.connectors@,
                #[trigger] conns[i],
                Property::Colorspace,
            ) {
                Some(handle) => record_of(records, handle) is Some,
                None => true,
            },
    ensures
        resolved_values(mapping, records, color, conns) is Ok,
    decreases conns.len(),
{
    if conns.len() > 0 {
        assert forall|i: int| 0 <= i < conns.drop_last().len() implies match handle_in(
            mapping.connectors@,
            #[trigger] conns.drop_last()[i],
            Property::Colorspace,
        ) {
            Some(handle) => record_of(records, handle) is Some,
            None => true,
        } by {
            assert(conns.drop_last()[i] == conns[i]);
        }
        law_plain_state_resolves(mapping, records, color, conns.drop_last());
        assert(conns[conns.len() - 1] == conns.last());
    }
}

/// Whether a display can vary its refresh rate.
#[derive(Debug, Clone, Copy, PartialEq, Eq, Structural)]
pub enum VrrSupport {
    Supported,
    /// Only with a modeset.
    RequiresModeset,
    NotSupported,
}

/// Kernel number of the HDMI-A connector type.
pub const INTERFACE_HDMIA: u32 = 11;

/// Kernel number of the HDMI-B connector type.
pub const INTERFACE_HDMIB: u32 = 12;

/// The value of the first property with a handle.
pub open spec fn prop_value(props: Seq<PropValue>, handle: u32) -> Option<u64>
    decreases props.len(),
{
    if props.len() == 0 {
        None
    } else if props[0].handle == handle {
        Some(props[0].value)
    } else {
        prop_value(props.drop_first(), handle)
    }
}

fn find_prop(props: &Vec<PropValue>, handle: u32) -> (value: Option<u64>)
    ensures
        value == prop_value(props@, handle),
{
    let mut i: usize = 0;
    assert(props@.skip(0) =~= props@);
    while i < props.len()
        invariant
            i <= props.len(),
            prop_value(props@, handle) == prop_value(props@.skip(i as int), handle),
        decreases props.len() - i,
    {
        assert(props@.skip(i as int)[0] == props@[i as int]);
        assert(props@.skip(i as int).drop_first() =~= props@.skip(i + 1));
        if props[i].handle == handle {
            return Some(props[i].value);
        }
        i = i + 1;
    }
    None
}

/// The colorspaces that a list of choices offers beside the default.
pub open spec fn other_spaces(entries: Seq<EnumEntry>) -> Seq<Colorspace>
    decreases entries.len(),
{
    if entries.len() == 0 {
        seq![]
    } else {
        let before = other_spaces(entries.drop_last());
        match text(entries.last().name) {
            Some(name) => match Colorspace::named(name) {
                Some(cs) if cs != Colorspace::Default => before.push(cs),
                _ => before,
            },
            None => before,
        }
    }
}

/// Pixel formats of the buffer for a test: the first that is tried and the one to fall back to.
/// Only the primary plane needs no alpha channel.
pub open spec fn buffer_formats(primary: bool, is_hdr: bool) -> (u32, u32) {
    let plain = if primary {
        FOURCC_XRGB8888
    } else {
        FOURCC_ARGB8888
    };
    let preferred = if !is_hdr {
        plain
    } else if primary {
        FOURCC_XBGR2101010
    } else {
        FOURCC_ABGR2101010
    };
    (preferred, plain)
}

/// `XR24`
pub const FOURCC_XRGB8888: u32 = 0x3432_5258;

/// `AR24`
pub const FOURCC_ARGB8888: u32 = 0x3432_5241;

/// `XB30`
pub const FOURCC_XBGR2101010: u32 = 0x3033_4258;

/// `AB30`
pub const FOURCC_ABGR2101010: u32 = 0x3033_4241;

/// See [`buffer_formats`].
pub fn test_buffer_formats(primary: bool, is_hdr: bool) -> (formats: (u32, u32))
    ensures
        formats == buffer_formats(primary, is_hdr),
{
    let plain: u32 = if primary {
        FOURCC_XRGB8888
    } else {
        FOURCC_ARGB8888
    };
    let preferred: u32 = if !is_hdr {
        plain
    } else if primary {
        FOURCC_XBGR2101010
    } else {
        FOURCC_ABGR2101010
    };
    (preferred, plain)
}

/// The plane state of a test: a buffer of the size of the mode over the whole screen.
pub open spec fn test_plane(plane: u32, mode: Mode, fb: u32) -> PlaneState {
    PlaneState {
        handle: plane,
        config: Some(
            PlaneConfig {
                src: SourceRect {
                    x: 0,
                    y: 0,
                    w: f64_quotient_of(mode.hdisplay as nat, 1) as u64,
                    h: f64_quotient_of(mode.vdisplay as nat, 1) as u64,
                },
                dst: Rectangle {
                    loc: Point { x: 0, y: 0 },
                    size: Size { w: mode.hdisplay as i32, h: mode.vdisplay as i32 },
                },
                transform: Transform::Normal,
                alpha: F32_ONE,
                damage_clips: None,
                fb,
                fence: None,
            },
        ),
    }
}

/// A blob that is released because it is replaced and nothing else holds on to it.
pub open spec fn stale(old: u64, kept: u64) -> Seq<u64> {
    if old != kept && old != 0 {
        seq![old]
    } else {
        seq![]
    }
}

fn release_stale(list: &mut Vec<u64>, old_blob: u64, kept: u64)
    ensures
        final(list)@ == old(list)@ + stale(old_blob, kept),
{
    if old_blob != kept && old_blob != 0 {
        list.push(old_blob);
    }
    assert(list@ =~= old(list)@ + stale(old_blob, kept));
}

/// The planes in use after planes have been configured.
pub open spec fn used_after(used: Seq<u32>, planes: Seq<PlaneState>) -> Seq<u32>
    decreases planes.len(),
{
    if planes.len() == 0 {
        used
    } else {
        let before = used_after(used, planes.drop_last());
        if planes.last().config is Some {
            with_id(before, planes.last().handle)
        } else {
            minus(before, seq![planes.last().handle])
        }
    }
}

/// What comes of disabling several planes.
pub open spec fn disabled_steps(mapping: PropMapping, planes: Seq<u32>) -> Steps
    decreases planes.len(),
{
    if planes.len() == 0 {
        no_steps()
    } else {
        followed_by(
            disabled_steps(mapping, planes.drop_last()),
            items_steps(mapping.planes@, planes.last(), reset_plane_items()),
        )
    }
}

/// What comes of turning a surface off: its planes, its connectors and its CRTC.
pub open spec fn clear_steps(
    mapping: PropMapping,
    crtc: u32,
    planes: Seq<u32>,
    connectors: Seq<u32>,
) -> Steps {
    followed_by(
        followed_by(disabled_steps(mapping, planes), removed_steps(mapping, connectors)),
        items_steps(mapping.crtcs@, crtc, reset_crtc_items()),
    )
}

proof fn lemma_disable_error_stays(mapping: PropMapping, planes: Seq<u32>, n: int)
    requires
        0 <= n <= planes.len(),
        disabled_steps(mapping, planes.take(n)).error is Some,
    ensures
        disabled_steps(mapping, planes) == disabled_steps(mapping, planes.take(n)),
    decreases planes.len() - n,
{
    if n == planes.len() {
        assert(planes.take(n) =~= planes);
    } else {
        assert(planes.take(n + 1).drop_last() =~= planes.take(n));
        lemma_disable_error_stays(mapping, planes, n + 1);
    }
}

proof fn lemma_detach_error_stays(mapping: PropMapping, conns: Seq<u32>, n: int)
    requires
        0 <= n <= conns.len(),
        removed_steps(mapping, conns.take(n)).error is Some,
    ensures
        removed_steps(mapping, conns) == removed_steps(mapping, conns.take(n)),
    decreases conns.len() - n,
{
    if n == conns.len() {
        assert(conns.take(n) =~= conns);
    } else {
        assert(conns.take(n + 1).drop_last() =~= conns.take(n));
        lemma_detach_error_stays(mapping, conns, n + 1);
    }
}

/// A surface on one CRTC.
#[derive(Debug)]
pub struct AtomicDrmSurface {
    pub crtc: u32,
    pub plane: u32,
    pub used_planes: IdSet,
    pub prop_mapping: PropMapping,
    pub state: State,
    pub pending: State,
    pub supports_async_page_flips: bool,
}

/// View of [`AtomicDrmSurface`].
#[verifier::ext_equal]
pub struct SurfaceModel {
    pub crtc: u32,
    pub plane: u32,
    pub used_planes: Seq<u32>,
    pub prop_mapping: PropMapping,
    pub state: StateModel,
    pub pending: StateModel,
    pub supports_async_page_flips: bool,
}

impl View for AtomicDrmSurface {
    type V = SurfaceModel;

    open spec fn view(&self) -> SurfaceModel {
        SurfaceModel {
            crtc: self.crtc,
            plane: self.plane,
            used_planes: self.used_planes@,
            prop_mapping: self.prop_mapping,
            state: self.state@,
            pending: self.pending@,
            supports_async_page_flips: self.supports_async_page_flips,
        }
    }
}

impl SurfaceModel {
    /// A full request with the pending configuration, in which the given parts are replaced.
    pub open spec fn full_steps(
        self,
        blob: u64,
        vrr: bool,
        color: ResolvedColorModel,
        blobs: CrtcColorBlobs,
        connectors: Seq<u32>,
        removed: Seq<u32>,
        planes: Seq<PlaneState>,
    ) -> Steps {
        request_steps(
            self.prop_mapping,
            self.crtc,
            Some(blob),
            vrr,
            Some(color),
            Some(blobs),
            connectors,
            removed,
            planes,
        )
    }

    /// A page flip.
    pub open spec fn flip_steps(self, vrr: bool, planes: Seq<PlaneState>) -> Steps {
        request_steps(
            self.prop_mapping,
            self.crtc,
            None,
            vrr,
            None,
            None,
            seq![],
            seq![],
            planes,
        )
    }

    /// The request that applies the pending state.
    pub open spec fn pending_steps(self, planes: Seq<PlaneState>) -> Steps {
        self.full_steps(
            self.pending.blob,
            self.pending.vrr,
            self.pending.resolved_color,
            self.pending.crtc_color_blobs,
            self.pending.connectors,
            minus(self.state.connectors, self.pending.connectors),
            planes,
        )
    }

    /// Flags of a commit or a page flip.
    pub open spec fn flags_for(self, flip_flags: u32) -> u32 {
        (flip_flags & PAGE_FLIP_EVENT) | (if self.supports_async_page_flips {
            flip_flags & PAGE_FLIP_ASYNC
        } else {
            0
        })
    }

    /// Whether a connector that offers `modes` can be added.
    pub open spec fn connector_verdict(self, active: bool, modes: Seq<Mode>) -> Result<(), Error> {
        if !active {
            Err(Error::DeviceInactive)
        } else if modes.contains(self.pending.mode) {
            Ok(())
        } else {
            Err(Error::ModeNotSuitable(self.pending.mode))
        }
    }

    /// Whether a connector can be removed.
    pub open spec fn removal_verdict(self, active: bool, conn: u32) -> Result<(), Error> {
        if !active {
            Err(Error::DeviceInactive)
        } else if self.pending.connectors.contains(conn) && self.pending.connectors.len() == 1 {
            Err(Error::SurfaceWithoutConnectors(self.crtc))
        } else {
            Ok(())
        }
    }

    /// Whether the connectors can be replaced.
    pub open spec fn replacement_verdict(self, active: bool, connectors: Seq<u32>) -> Result<
        (),
        Error,
    > {
        if connectors.len() == 0 {
            Err(Error::SurfaceWithoutConnectors(self.crtc))
        } else if !active {
            Err(Error::DeviceInactive)
        } else {
            Ok(())
        }
    }

    /// Blobs of the current state that a commit of the pending state replaces.
    pub open spec fn replaced_blobs(self) -> Seq<u64> {
        let mode = if self.state.mode != self.pending.mode {
            seq![self.state.blob]
        } else {
            seq![]
        };
        mode + stale(self.state.resolved_color.hdr_blob, self.pending.resolved_color.hdr_blob)
            + stale(
            self.state.crtc_color_blobs.gamma_blob,
            self.pending.crtc_color_blobs.gamma_blob,
        ) + stale(self.state.crtc_color_blobs.ctm_blob, self.pending.crtc_color_blobs.ctm_blob)
    }

    /// Staged pipeline blobs that were never committed.
    pub open spec fn staged_crtc_blobs(self) -> Seq<u64> {
        stale(self.pending.crtc_color_blobs.gamma_blob, self.state.crtc_color_blobs.gamma_blob)
            + stale(self.pending.crtc_color_blobs.ctm_blob, self.state.crtc_color_blobs.ctm_blob)
    }

    /// Staged blobs that were never committed.
    pub open spec fn staged_blobs(self) -> Seq<u64> {
        stale(self.pending.resolved_color.hdr_blob, self.state.resolved_color.hdr_blob)
            + self.staged_crtc_blobs()
    }

    /// The table size for encoding the HDR transfer function in the CRTC: only for an HDR state,
    /// only where that is allowed, and only for a table of 1 to 4096 entries.
    pub open spec fn offload_size(
        self,
        color: ConnectorColorState,
        allow_offload: bool,
        props: Option<Seq<PropValue>>,
    ) -> Option<u64> {
        let lut = handle_in(self.prop_mapping.crtcs@, self.crtc, Property::GammaLut);
        let size = handle_in(self.prop_mapping.crtcs@, self.crtc, Property::GammaLutSize);
        match (lut, size, props) {
            (Some(_), Some(handle), Some(props)) if color.hdr() && allow_offload => match prop_value(
                props,
                handle,
            ) {
                Some(n) if 0 < n <= 4096 => Some(n),
                _ => None,
            },
            _ => None,
        }
    }
}

/// How a change of the variable refresh rate is tried.
#[derive(Debug)]
pub enum VrrPlan {
    /// The rate is as asked for.
    Unchanged,
    /// Tests: one without a modeset, where nothing else is pending, and a full one.
    Test { flip: Option<Attempt>, full: Attempt },
}

/// What a commit does once its test is accepted.
#[derive(Debug)]
pub struct CommitPlan {
    /// Blobs to release first.
    pub destroy: Vec<u64>,
    /// The commit itself.
    pub attempt: Attempt,
}

/// An operation that is refused, and the blobs to release.
#[derive(Debug)]
pub struct Refused {
    pub error: Error,
    pub destroy: Vec<u64>,
}

/// A lookup table for the CRTC and whether the driver accepts it.
#[derive(Debug)]
pub struct Offload {
    pub lut: Vec<DrmColorLut>,
    pub blob: u64,
    pub accepted: bool,
}

fn holds_mode(modes: &Vec<Mode>, mode: Mode) -> (r: bool)
    ensures
        r == modes@.contains(mode),
{
    let mut i: usize = 0;
    while i < modes.len()
        invariant
            i <= modes.len(),
            forall|j: int| 0 <= j < i ==> modes@[j] != mode,
        decreases modes.len() - i,
    {
        if modes[i] == mode {
            assert(modes@[i as int] == mode);
            return true;
        }
        i = i + 1;
    }
    false
}

fn make_test_plane(plane: u32, mode: Mode, fb: u32) -> (state: PlaneState)
    ensures
        state == test_plane(plane, mode, fb),
{
    PlaneState {
        handle: plane,
        config: Some(
            PlaneConfig {
                src: SourceRect {
                    x: 0,
                    y: 0,
                    w: f64_quotient(mode.hdisplay as u32, 1),
                    h: f64_quotient(mode.vdisplay as u32, 1),
                },
                dst: Rectangle {
                    loc: Point { x: 0, y: 0 },
                    size: Size { w: mode.hdisplay as i32, h: mode.vdisplay as i32 },
                },
                transform: Transform::Normal,
                alpha: F32_ONE,
                damage_clips: None,
                fb,
                fence: None,
            },
        ),
    }
}

impl AtomicDrmSurface {
    /// The id sets and the property tables are well formed.
    pub open spec fn wf(&self) -> bool {
        &&& self.used_planes.wf()
        &&& self.prop_mapping.wf()
        &&& self.state.wf()
        &&& self.pending.wf()
    }

    /// A surface whose pending state has the mode and the connectors, and the color state that
    /// was found.
    pub fn new(
        crtc: u32,
        plane: u32,
        prop_mapping: PropMapping,
        state: State,
        mode: Mode,
        blob: u64,
        connectors: &Vec<u32>,
        records: &Vec<ColorspaceRecord>,
        supports_async_page_flips: bool,
    ) -> (r: Result<AtomicDrmSurface, Error>)
        requires
            prop_mapping.wf(),
            state.wf(),
        ensures
            match (r, resolved_values(prop_mapping, records@, state.color_state, connectors@)) {
                (Ok(surface), Ok(values)) => {
                    &&& surface.wf()
                    &&& surface@ == (SurfaceModel {
                        crtc,
                        plane,
                        used_planes: seq![],
                        prop_mapping,
                        state: state@,
                        pending: StateModel {
                            active: true,
                            mode,
                            blob,
                            vrr: false,
                            connectors: distinct(connectors@),
                            color_state: state.color_state,
                            resolved_color: resolved_with(values, 0, state.color_state),
                            crtc_color_state: CrtcColorModel::passthrough(),
                            crtc_color_blobs: CrtcColorBlobs { gamma_blob: 0, ctm_blob: 0 },
                            hdr_hardware_offload: false,
                        },
                        supports_async_page_flips,
                    })
                },
                (Err(error), Err(expected)) => error == expected,
                _ => false,
            },
    {
        let resolved_color: ResolvedColorState = match resolve_color_state(
            &prop_mapping,
            records,
            &state.color_state,
            0,
            connectors,
        ) {
            Ok(resolved) => resolved,
            Err(error) => {
                return Err(error);
            },
        };
        let pending = State {
            active: true,
            mode,
            blob,
            vrr: false,
            connectors: IdSet::from_list(connectors),
            color_state: state.color_state,
            resolved_color,
            crtc_color_state: CrtcColorState::default(),
            crtc_color_blobs: CrtcColorBlobs::default(),
            hdr_hardware_offload: false,
        };
        Ok(
            AtomicDrmSurface {
                crtc,
                plane,
                used_planes: IdSet::new(),
                prop_mapping,
                state,
                pending,
                supports_async_page_flips,
            },
        )
    }

    fn full_request(
        &self,
        blob: u64,
        vrr: bool,
        color: &ResolvedColorState,
        blobs: CrtcColorBlobs,
        connectors: &IdSet,
        removed: &IdSet,
        planes: &Vec<PlaneState>,
        flags: u32,
    ) -> (r: Result<Attempt, Error>)
        requires
            self.wf(),
        ensures
            attempts(
                r,
                self@.full_steps(blob, vrr, color@, blobs, connectors@, removed@, planes@),
                flags,
            ),
    {
        match AtomicRequest::build_request(
            &self.prop_mapping,
            self.crtc,
            Some(blob),
            vrr,
            Some(color),
            Some(blobs),
            &connectors.ids,
            &removed.ids,
            planes,
        ) {
            Ok(request) => Ok(Attempt { writes: request.writes, flags }),
            Err(error) => Err(Error::UnknownProperty(error)),
        }
    }

    fn flip_request(&self, vrr: bool, planes: &Vec<PlaneState>, flags: u32) -> (r: Result<
        Attempt,
        Error,
    >)
        requires
            self.wf(),
        ensures
            attempts(r, self@.flip_steps(vrr, planes@), flags),
    {
        let none: Vec<u32> = Vec::new();
        assert(none@ =~= seq![]);
        match AtomicRequest::build_request(
            &self.prop_mapping,
            self.crtc,
            None,
            vrr,
            None,
            None,
            &none,
            &none,
            planes,
        ) {
            Ok(request) => Ok(Attempt { writes: request.writes, flags }),
            Err(error) => Err(Error::UnknownProperty(error)),
        }
    }

    /// Whether the properties of all connectors are known.
    pub fn props_known(&self, conns: &Vec<u32>) -> (known: bool)
        ensures
            known == (forall|i: int|
                0 <= i < conns@.len() ==> knows_object(
                    self@.prop_mapping.connectors@,
                    #[trigger] conns@[i],
                )),
    {
        let mut i: usize = 0;
        while i < conns.len()
            invariant
                i <= conns.len(),
                forall|j: int|
                    0 <= j < i ==> knows_object(
                        self.prop_mapping.connectors@,
                        #[trigger] conns@[j],
                    ),
            decreases conns.len() - i,
        {
            if !is_known(&self.prop_mapping.connectors, conns[i]) {
                assert(!knows_object(self@.prop_mapping.connectors@, conns@[i as int]));
                return false;
            }
            i = i + 1;
        }
        true
    }

    /// Whether a connector that offers `modes` can be added.
    pub fn check_connector(&self, active: bool, modes: &Vec<Mode>) -> (r: Result<(), Error>)
        ensures
            r == self@.connector_verdict(active, modes@),
    {
        if !active {
            Err(Error::DeviceInactive)
        } else if holds_mode(modes, self.pending.mode) {
            Ok(())
        } else {
            Err(Error::ModeNotSuitable(self.pending.mode))
        }
    }

    /// The test for adding a connector, and the color state that it then has.
    pub fn add_connector(
        &self,
        active: bool,
        conn: u32,
        modes: &Vec<Mode>,
        records: &Vec<ColorspaceRecord>,
        fb: u32,
    ) -> (r: Result<(Attempt, ResolvedColorState), Error>)
        requires
            self.wf(),
        ensures
            match self@.connector_verdict(active, modes@) {
                Err(error) => r is Err && r->Err_0 == error,
                Ok(_) => match resolved_values(
                    self@.prop_mapping,
                    records@,
                    self@.pending.color_state,
                    seq![conn],
                ) {
                    Err(error) => r is Err && r->Err_0 == error,
                    Ok(values) => {
                        let color = ResolvedColorModel {
                            colorspace_values: self@.pending.resolved_color.colorspace_values
                                + values,
                            ..self@.pending.resolved_color
                        };
                        &&& attempts(
                            first_of(r),
                            self@.full_steps(
                                self@.pending.blob,
                                self@.pending.vrr,
                                color,
                                self@.pending.crtc_color_blobs,
                                with_id(self@.pending.connectors, conn),
                                seq![],
                                seq![test_plane(self@.plane, self@.pending.mode, fb)],
                            ),
                            FULL_TEST,
                        )
                        &&& r matches Ok((_, resolved)) ==> resolved@ == color
                    },
                },
            },
    {
        if let Err(error) = self.check_connector(active, modes) {
            return Err(error);
        }
        let only: Vec<u32> = vec![conn];
        assert(only@ =~= seq![conn]);
        let extra: ResolvedColorState = match resolve_color_state(
            &self.prop_mapping,
            records,
            &self.pending.color_state,
            self.pending.resolved_color.hdr_blob,
            &only,
        ) {
            Ok(resolved) => resolved,
            Err(error) => {
                return Err(error);
            },
        };
        let mut color: ResolvedColorState = self.pending.resolved_color.duplicate();
        let mut i: usize = 0;
        let ghost start = color.colorspace_values@;
        assert(extra.colorspace_values@.take(0) =~= seq![]);
        while i < extra.colorspace_values.len()
            invariant
                i <= extra.colorspace_values.len(),
                start == self@.pending.resolved_color.colorspace_values,
                color@ == (ResolvedColorModel {
                    colorspace_values: start + extra.colorspace_values@.take(i as int),
                    ..self@.pending.resolved_color
                }),
            decreases extra.colorspace_values.len() - i,
        {
            color.colorspace_values.push(extra.colorspace_values[i]);
            i = i + 1;
            assert(color.colorspace_values@ =~= start + extra.colorspace_values@.take(i as int));
        }
        assert(extra.colorspace_values@.take(i as int) =~= extra.colorspace_values@);
        let mut connectors: IdSet = self.pending.connectors.duplicate();
        connectors.insert(conn);
        let planes: Vec<PlaneState> = vec![make_test_plane(self.plane, self.pending.mode, fb)];
        assert(planes@ =~= seq![test_plane(self@.plane, self@.pending.mode, fb)]);
        match self.full_request(
            self.pending.blob,
            self.pending.vrr,
            &color,
            self.pending.crtc_color_blobs,
            &connectors,
            &IdSet::new(),
            &planes,
            FULL_TEST,
        ) {
            Ok(attempt) => Ok((attempt, color)),
            Err(error) => Err(error),
        }
    }

    /// Stages the connector if the driver accepts it.
    pub fn finish_add_connector(
        &mut self,
        accepted: bool,
        conn: u32,
        resolved_color: ResolvedColorState,
    ) -> (r: Result<(), Error>)
        requires
            old(self).wf(),
        ensures
            final(self).wf(),
            r == tested(old(self)@, accepted),
            !accepted ==> final(self)@ == old(self)@,
            accepted ==> final(self)@ == (SurfaceModel {
                pending: StateModel {
                    connectors: with_id(old(self)@.pending.connectors, conn),
                    resolved_color: resolved_color@,
                    ..old(self)@.pending
                },
                ..old(self)@
            }),
    {
        if !accepted {
            return Err(Error::TestFailed(self.crtc));
        }
        self.pending.connectors.insert(conn);
        self.pending.resolved_color = resolved_color;
        Ok(())
    }

    /// Whether a connector can be removed.
    pub fn check_removal(&self, active: bool, conn: u32) -> (r: Result<(), Error>)
        ensures
            r == self@.removal_verdict(active, conn),
    {
        if !active {
            Err(Error::DeviceInactive)
        } else if self.pending.connectors.contains(conn) && self.pending.connectors.ids.len() == 1 {
            Err(Error::SurfaceWithoutConnectors(self.crtc))
        } else {
            Ok(())
        }
    }

    /// The test for removing a connector.
    pub fn remove_connector(&self, active: bool, conn: u32, fb: u32) -> (r: Result<Attempt, Error>)
        requires
            self.wf(),
        ensures
            match self@.removal_verdict(active, conn) {
                Err(error) => r is Err && r->Err_0 == error,
                Ok(_) => attempts(
                    r,
                    self@.full_steps(
                        self@.pending.blob,
                        self@.pending.vrr,
                        self@.pending.resolved_color,
                        self@.pending.crtc_color_blobs,
                        minus(self@.pending.connectors, seq![conn]),
                        seq![conn],
                        seq![test_plane(self@.plane, self@.pending.mode, fb)],
                    ),
                    FULL_TEST,
                ),
            },
    {
        if let Err(error) = self.check_removal(active, conn) {
            return Err(error);
        }
        let mut connectors: IdSet = self.pending.connectors.duplicate();
        connectors.remove(conn);
        let removed = IdSet { ids: vec![conn] };
        assert(removed@ =~= seq![conn]);
        let planes: Vec<PlaneState> = vec![make_test_plane(self.plane, self.pending.mode, fb)];
        assert(planes@ =~= seq![test_plane(self@.plane, self@.pending.mode, fb)]);
        self.full_request(
            self.pending.blob,
            self.pending.vrr,
            &self.pending.resolved_color,
            self.pending.crtc_color_blobs,
            &connectors,
            &removed,
            &planes,
            FULL_TEST,
        )
    }

    /// Takes the connector out of the pending state if the driver accepts that.
    pub fn finish_remove_connector(&mut self, accepted: bool, conn: u32) -> (r: Result<(), Error>)
        requires
            old(self).wf(),
        ensures
            final(self).wf(),
            r == tested(old(self)@, accepted),
            !accepted ==> final(self)@ == old(self)@,
            accepted ==> final(self)@ == (SurfaceModel {
                pending: StateModel {
                    connectors: minus(old(self)@.pending.connectors, seq![conn]),
                    resolved_color: ResolvedColorModel {
                        colorspace_values: values_without(
                            old(self)@.pending.resolved_color.colorspace_values,
                            conn,
                        ),
                        ..old(self)@.pending.resolved_color
                    },
                    ..old(self)@.pending
                },
                ..old(self)@
            }),
    {
        if !accepted {
            return Err(Error::TestFailed(self.crtc));
        }
        self.pending.connectors.remove(conn);
        let values: Vec<ColorspaceValue> = drop_values(
            &self.pending.resolved_color.colorspace_values,
            conn,
        );
        self.pending.resolved_color.colorspace_values = values;
        Ok(())
    }

    /// Whether the connectors can be replaced.
    pub fn check_connectors(&self, active: bool, connectors: &Vec<u32>) -> (r: Result<(), Error>)
        ensures
            r == self@.replacement_verdict(active, connectors@),
    {
        if connectors.len() == 0 {
            Err(Error::SurfaceWithoutConnectors(self.crtc))
        } else if !active {
            Err(Error::DeviceInactive)
        } else {
            Ok(())
        }
    }

    /// The test for a new set of connectors, and the color state on them.
    pub fn set_connectors(
        &self,
        active: bool,
        connectors: &Vec<u32>,
        records: &Vec<ColorspaceRecord>,
        fb: u32,
    ) -> (r: Result<(Attempt, ResolvedColorState), Error>)
        requires
            self.wf(),
        ensures
            match self@.replacement_verdict(active, connectors@) {
                Err(error) => r is Err && r->Err_0 == error,
                Ok(_) => match resolved_values(
                    self@.prop_mapping,
                    records@,
                    self@.pending.color_state,
                    distinct(connectors@),
                ) {
                    Err(error) => r is Err && r->Err_0 == error,
                    Ok(values) => {
                        let color = resolved_with(
                            values,
                            self@.pending.resolved_color.hdr_blob,
                            self@.pending.color_state,
                        );
                        &&& attempts(
                            first_of(r),
                            self@.full_steps(
                                self@.pending.blob,
                                self@.pending.vrr,
                                color,
                                self@.pending.crtc_color_blobs,
                                distinct(connectors@),
                                minus(self@.state.connectors, distinct(connectors@)),
                                seq![test_plane(self@.plane, self@.pending.mode, fb)],
                            ),
                            FULL_TEST,
                        )
                        &&& r matches Ok((_, resolved)) ==> resolved@ == color
                    },
                },
            },
    {
        if let Err(error) = self.check_connectors(active, connectors) {
            return Err(error);
        }
        let conns: IdSet = IdSet::from_list(connectors);
        let removed: IdSet = self.state.connectors.difference(&conns);
        let color: ResolvedColorState = match resolve_color_state(
            &self.prop_mapping,
            records,
            &self.pending.color_state,
            self.pending.resolved_color.hdr_blob,
            &conns.ids,
        ) {
            Ok(resolved) => resolved,
            Err(error) => {
                return Err(error);
            },
        };
        let planes: Vec<PlaneState> = vec![make_test_plane(self.plane, self.pending.mode, fb)];
        assert(planes@ =~= seq![test_plane(self@.plane, self@.pending.mode, fb)]);
        match self.full_request(
            self.pending.blob,
            self.pending.vrr,
            &color,
            self.pending.crtc_color_blobs,
            &conns,
            &removed,
            &planes,
            FULL_TEST,
        ) {
            Ok(attempt) => Ok((attempt, color)),
            Err(error) => Err(error),
        }
    }

    /// Stages the connectors if the driver accepts them.
    pub fn finish_set_connectors(
        &mut self,
        accepted: bool,
        connectors: &Vec<u32>,
        resolved_color: ResolvedColorState,
    ) -> (r: Result<(), Error>)
        requires
            old(self).wf(),
        ensures
            final(self).wf(),
            r == tested(old(self)@, accepted),
            !accepted ==> final(self)@ == old(self)@,
            accepted ==> final(self)@ == (SurfaceModel {
                pending: StateModel {
                    connectors: distinct(connectors@),
                    resolved_color: resolved_color@,
                    ..old(self)@.pending
                },
                ..old(self)@
            }),
    {
        if !accepted {
            return Err(Error::TestFailed(self.crtc));
        }
        self.pending.connectors = IdSet::from_list(connectors);
        self.pending.resolved_color = resolved_color;
        Ok(())
    }

    /// The test for a new mode.
    pub fn use_mode(&self, active: bool, mode: Mode, new_blob: u64, fb: u32) -> (r: Result<
        Attempt,
        Error,
    >)
        requires
            self.wf(),
        ensures
            !active ==> r is Err && r->Err_0 == Error::DeviceInactive,
            active ==> attempts(
                r,
                self@.full_steps(
                    new_blob,
                    self@.pending.vrr,
                    self@.pending.resolved_color,
                    self@.pending.crtc_color_blobs,
                    self@.pending.connectors,
                    seq![],
                    seq![test_plane(self@.plane, mode, fb)],
                ),
                FULL_TEST,
            ),
    {
        if !active {
            return Err(Error::DeviceInactive);
        }
        let planes: Vec<PlaneState> = vec![make_test_plane(self.plane, mode, fb)];
        assert(planes@ =~= seq![test_plane(self@.plane, mode, fb)]);
        self.full_request(
            new_blob,
            self.pending.vrr,
            &self.pending.resolved_color,
            self.pending.crtc_color_blobs,
            &self.pending.connectors,
            &IdSet::new(),
            &planes,
            FULL_TEST,
        )
    }

    /// Stages the mode if the driver accepts it; otherwise its blob is released.
    pub fn finish_use_mode(&mut self, accepted: bool, mode: Mode, new_blob: u64) -> (r: Result<
        (),
        Refused,
    >)
        requires
            old(self).wf(),
        ensures
            final(self).wf(),
            match r {
                Ok(_) => accepted && final(self)@ == (SurfaceModel {
                    pending: StateModel { mode, blob: new_blob, ..old(self)@.pending },
                    ..old(self)@
                }),
                Err(refused) => {
                    &&& !accepted
                    &&& final(self)@ == old(self)@
                    &&& refused.error == Error::TestFailed(old(self)@.crtc)
                    &&& refused.destroy@ == seq![new_blob]
                },
            },
    {
        if !accepted {
            let destroy: Vec<u64> = vec![new_blob];
            assert(destroy@ =~= seq![new_blob]);
            return Err(Refused { error: Error::TestFailed(self.crtc), destroy });
        }
        self.pending.mode = mode;
        self.pending.blob = new_blob;
        Ok(())
    }

    /// Whether the display on a connector can vary its refresh rate. On HDMI the switch is only
    /// clean with a modeset.
    pub fn vrr_supported(&self, active: bool, conn: u32, props: &Vec<PropValue>, interface: u32) -> (r:
        Result<VrrSupport, Error>)
        ensures
            r == vrr_verdict(self@, active, conn, props@, interface),
    {
        if !active {
            return Err(Error::DeviceInactive);
        }
        if find_handle(&self.prop_mapping.crtcs, self.crtc, Property::VrrEnabled).is_none() {
            return Ok(VrrSupport::NotSupported);
        }
        match find_handle(&self.prop_mapping.connectors, conn, Property::VrrCapable) {
            Some(handle) => match find_prop(props, handle) {
                Some(value) => if value == 0 {
                    Ok(VrrSupport::NotSupported)
                } else if interface == INTERFACE_HDMIA || interface == INTERFACE_HDMIB {
                    Ok(VrrSupport::RequiresModeset)
                } else {
                    Ok(VrrSupport::Supported)
                },
                None => Ok(VrrSupport::NotSupported),
            },
            None => Ok(VrrSupport::NotSupported),
        }
    }

    /// The property that tells whether the display on a connector can vary its refresh rate,
    /// where the CRTC can be switched to that. Only then there is something to query.
    pub fn vrr_property(&self, conn: u32) -> (r: Option<u32>)
        ensures
            r == if handle_in(self@.prop_mapping.crtcs@, self@.crtc, Property::VrrEnabled) is Some {
                handle_in(self@.prop_mapping.connectors@, conn, Property::VrrCapable)
            } else {
                None
            },
    {
        if find_handle(&self.prop_mapping.crtcs, self.crtc, Property::VrrEnabled).is_some() {
            find_handle(&self.prop_mapping.connectors, conn, Property::VrrCapable)
        } else {
            None
        }
    }

    /// Size of the lookup table after blending, if the CRTC has one.
    pub fn crtc_gamma_lut_size(&self, props: &Vec<PropValue>) -> (size: Option<u64>)
        ensures
            size == match handle_in(
                self@.prop_mapping.crtcs@,
                self@.crtc,
                Property::GammaLutSize,
            ) {
                Some(handle) => prop_value(props@, handle),
                None => None,
            },
    {
        match find_handle(&self.prop_mapping.crtcs, self.crtc, Property::GammaLutSize) {
            Some(handle) => find_prop(props, handle),
            None => None,
        }
    }

    /// Size of the lookup table before blending, if the CRTC has one.
    pub fn crtc_degamma_lut_size(&self, props: &Vec<PropValue>) -> (size: Option<u64>)
        ensures
            size == match handle_in(
                self@.prop_mapping.crtcs@,
                self@.crtc,
                Property::DegammaLutSize,
            ) {
                Some(handle) => prop_value(props@, handle),
                None => None,
            },
    {
        match find_handle(&self.prop_mapping.crtcs, self.crtc, Property::DegammaLutSize) {
            Some(handle) => find_prop(props, handle),
            None => None,
        }
    }

    /// Whether the CRTC has a color matrix.
    pub fn crtc_has_ctm(&self) -> (r: bool)
        ensures
            r == handle_in(self@.prop_mapping.crtcs@, self@.crtc, Property::Ctm) is Some,
    {
        find_handle(&self.prop_mapping.crtcs, self.crtc, Property::Ctm).is_some()
    }

    /// Whether a change of the variable refresh rate has to be tested, if it is possible at all.
    pub fn check_vrr(&self, value: bool) -> (r: Result<bool, Error>)
        ensures
            r == vrr_check(self@, value),
    {
        if self.pending.vrr == value {
            return Ok(false);
        }
        if value && find_handle(
            &self.prop_mapping.crtcs,
            self.crtc,
            Property::VrrEnabled,
        ).is_none() {
            return Err(
                Error::UnknownProperty(
                    RequestError { handle: self.crtc, property: Property::VrrEnabled },
                ),
            );
        }
        Ok(true)
    }

    /// The tests for a change of the variable refresh rate.
    pub fn use_vrr(&self, value: bool, fb: u32) -> (r: Result<VrrPlan, Error>)
        requires
            self.wf(),
        ensures
            plans_vrr(r, self@, value, fb),
    {
        match self.check_vrr(value) {
            Ok(true) => {},
            Ok(false) => {
                return Ok(VrrPlan::Unchanged);
            },
            Err(error) => {
                return Err(error);
            },
        }
        let planes: Vec<PlaneState> = vec![make_test_plane(self.plane, self.pending.mode, fb)];
        assert(planes@ =~= seq![test_plane(self@.plane, self@.pending.mode, fb)]);
        let full: Attempt = match self.full_request(
            self.pending.blob,
            value,
            &self.pending.resolved_color,
            self.pending.crtc_color_blobs,
            &self.pending.connectors,
            &IdSet::new(),
            &planes,
            FULL_TEST,
        ) {
            Ok(attempt) => attempt,
            Err(error) => {
                return Err(error);
            },
        };
        if self.state == self.pending {
            match self.flip_request(value, &planes, TEST_ONLY) {
                Ok(attempt) => Ok(VrrPlan::Test { flip: Some(attempt), full }),
                Err(error) => Err(error),
            }
        } else {
            Ok(VrrPlan::Test { flip: None, full })
        }
    }

    /// Takes the answers to the tests: without a modeset the rate changes at once, with one it
    /// is staged.
    pub fn finish_use_vrr(&mut self, value: bool, flip_accepted: bool, full_accepted: bool) -> (r:
        Result<(), Error>)
        requires
            old(self).wf(),
        ensures
            final(self).wf(),
            ({
                let at_once = flip_accepted && old(self)@.state.equivalent(old(self)@.pending);
                &&& r == tested(old(self)@, at_once || full_accepted)
                &&& final(self)@ == if at_once {
                    SurfaceModel {
                        state: StateModel { vrr: value, ..old(self)@.state },
                        pending: StateModel { vrr: value, ..old(self)@.pending },
                        ..old(self)@
                    }
                } else if full_accepted {
                    SurfaceModel {
                        pending: StateModel { vrr: value, ..old(self)@.pending },
                        ..old(self)@
                    }
                } else {
                    old(self)@
                }
            }),
    {
        if flip_accepted && self.state == self.pending {
            self.pending.vrr = value;
            self.state.vrr = value;
            return Ok(());
        }
        if !full_accepted {
            return Err(Error::TestFailed(self.crtc));
        }
        self.pending.vrr = value;
        Ok(())
    }

    /// The colorspaces that a connector supports: always the default, and those that its
    /// `Colorspace` property offers.
    pub fn supported_colorspaces(
        &self,
        active: bool,
        conn: u32,
        records: &Vec<ColorspaceRecord>,
    ) -> (r: Result<Vec<Colorspace>, Error>)
        ensures
            match (r, supported_verdict(self@, active, conn, records@)) {
                (Ok(spaces), Ok(expected)) => spaces@ == expected,
                (Err(error), Err(expected)) => error == expected,
                _ => false,
            },
    {
        if !active {
            return Err(Error::DeviceInactive);
        }
        let mut supported: Vec<Colorspace> = vec![Colorspace::Default];
        assert(supported@ =~= seq![Colorspace::Default]);
        let handle: u32 = match find_handle(
            &self.prop_mapping.connectors,
            conn,
            Property::Colorspace,
        ) {
            Some(handle) => handle,
            None => {
                return Ok(supported);
            },
        };
        let at: usize = match find_record(records, handle) {
            Some(i) => i,
            None => {
                return Err(Error::ColorspaceQuery(conn));
            },
        };
        if let Some(entries) = &records[at].entries {
            let mut i: usize = 0;
            assert(entries@.take(0) =~= seq![]);
            assert(supported@ =~= seq![Colorspace::Default] + other_spaces(seq![]));
            while i < entries.len()
                invariant
                    i <= entries.len(),
                    supported@ == seq![Colorspace::Default] + other_spaces(
                        entries@.take(i as int),
                    ),
                decreases entries.len() - i,
            {
                proof {
                    assert(entries@.take(i + 1).last() == entries@[i as int]);
                    assert(entries@.take(i + 1).drop_last() =~= entries@.take(i as int));
                }
                if let Some(name) = &entries[i].name {
                    if let Some(cs) = Colorspace::from_kernel_name(name.as_str()) {
                        if cs != Colorspace::Default {
                            supported.push(cs);
                        }
                    }
                }
                i = i + 1;
                assert(supported@ =~= seq![Colorspace::Default] + other_spaces(
                    entries@.take(i as int),
                ));
            }
            assert(entries@.take(i as int) =~= entries@);
        }
        Ok(supported)
    }

    /// Whether a connector can signal HDR metadata.
    pub fn hdr_metadata_supported(&self, active: bool, conn: u32) -> (r: Result<bool, Error>)
        ensures
            r == if active {
                Ok::<bool, Error>(
                    handle_in(
                        self@.prop_mapping.connectors@,
                        conn,
                        Property::HdrOutputMetadata,
                    ) is Some,
                )
            } else {
                Err(Error::DeviceInactive)
            },
    {
        if !active {
            return Err(Error::DeviceInactive);
        }
        Ok(
            find_handle(
                &self.prop_mapping.connectors,
                conn,
                Property::HdrOutputMetadata,
            ).is_some(),
        )
    }

    /// The valid `max bpc` values of a connector, given the range of its property if that is an
    /// unsigned range.
    pub fn max_bpc_range(&self, active: bool, conn: u32, range: Option<(u64, u64)>) -> (r: Result<
        Option<(u32, u32)>,
        Error,
    >)
        ensures
            r == if active {
                Ok::<Option<(u32, u32)>, Error>(
                    match (
                        handle_in(self@.prop_mapping.connectors@, conn, Property::MaxBpc),
                        range,
                    ) {
                        (Some(_), Some((min, max))) => Some((low32(min), low32(max))),
                        _ => None,
                    },
                )
            } else {
                Err(Error::DeviceInactive)
            },
    {
        if !active {
            return Err(Error::DeviceInactive);
        }
        if find_handle(&self.prop_mapping.connectors, conn, Property::MaxBpc).is_none() {
            return Ok(None);
        }
        match range {
            Some((min, max)) => Ok(
                Some(((min % 0x1_0000_0000) as u32, (max % 0x1_0000_0000) as u32)),
            ),
            None => Ok(None),
        }
    }

    /// Whether the pending connector color state would change.
    pub fn color_state_changes(&self, active: bool, color_state: &ConnectorColorState) -> (r: Result<
        bool,
        Error,
    >)
        ensures
            r == if active {
                Ok::<bool, Error>(!self@.pending.color_state.same_state(*color_state))
            } else {
                Err(Error::DeviceInactive)
            },
    {
        if !active {
            return Err(Error::DeviceInactive);
        }
        Ok(!(self.pending.color_state == *color_state))
    }

    /// Resolves a color state on the pending connectors. Where that fails the metadata blob is
    /// released.
    pub fn use_color_state(
        &self,
        color_state: &ConnectorColorState,
        hdr_blob: u64,
        records: &Vec<ColorspaceRecord>,
    ) -> (r: Result<ResolvedColorState, Refused>)
        ensures
            match (
                r,
                resolved_values(
                    self@.prop_mapping,
                    records@,
                    *color_state,
                    self@.pending.connectors,
                ),
            ) {
                (Ok(resolved), Ok(values)) => resolved@ == resolved_with(
                    values,
                    hdr_blob,
                    *color_state,
                ),
                (Err(refused), Err(error)) => {
                    &&& refused.error == error
                    &&& refused.destroy@ == stale(hdr_blob, 0)
                },
                _ => false,
            },
    {
        match resolve_color_state(
            &self.prop_mapping,
            records,
            color_state,
            hdr_blob,
            &self.pending.connectors.ids,
        ) {
            Ok(resolved) => Ok(resolved),
            Err(error) => {
                let mut destroy: Vec<u64> = Vec::new();
                release_stale(&mut destroy, hdr_blob, 0);
                assert(destroy@ =~= stale(hdr_blob, 0));
                Err(Refused { error, destroy })
            },
        }
    }

    /// The reference white that the table for the CRTC encodes: that of the color state, and
    /// 203 cd/m^2 without one.
    pub fn offload_white(&self, color_state: &ConnectorColorState) -> (white: u32)
        ensures
            white == match color_state.reference_white {
                Some(white) => white,
                None => F32_203,
            },
    {
        match color_state.reference_white {
            Some(white) => white,
            None => F32_203,
        }
    }

    /// The table size for encoding the HDR transfer function in the CRTC.
    pub fn offload_lut_size(
        &self,
        color_state: &ConnectorColorState,
        allow_offload: bool,
        props: Option<&Vec<PropValue>>,
    ) -> (size: Option<u64>)
        ensures
            size == self@.offload_size(
                *color_state,
                allow_offload,
                match props {
                    Some(props) => Some(props@),
                    None => None,
                },
            ),
    {
        if !color_state.is_hdr() || !allow_offload {
            return None;
        }
        if find_handle(&self.prop_mapping.crtcs, self.crtc, Property::GammaLut).is_none() {
            return None;
        }
        match (
            find_handle(&self.prop_mapping.crtcs, self.crtc, Property::GammaLutSize),
            props,
        ) {
            (Some(handle), Some(props)) => match find_prop(props, handle) {
                Some(size) => if size > 0 && size <= 4096 {
                    Some(size)
                } else {
                    None
                },
                None => None,
            },
            _ => None,
        }
    }

    /// The test for a color configuration: the pending state with the given connector colors
    /// and CRTC blobs.
    pub fn color_request(&self, resolved: &ResolvedColorState, blobs: CrtcColorBlobs, fb: u32) -> (r:
        Result<Attempt, Error>)
        requires
            self.wf(),
        ensures
            attempts(
                r,
                self@.full_steps(
                    self@.pending.blob,
                    self@.pending.vrr,
                    resolved@,
                    blobs,
                    self@.pending.connectors,
                    seq![],
                    seq![test_plane(self@.plane, self@.pending.mode, fb)],
                ),
                FULL_TEST,
            ),
    {
        let planes: Vec<PlaneState> = vec![make_test_plane(self.plane, self.pending.mode, fb)];
        assert(planes@ =~= seq![test_plane(self@.plane, self@.pending.mode, fb)]);
        self.full_request(
            self.pending.blob,
            self.pending.vrr,
            resolved,
            blobs,
            &self.pending.connectors,
            &IdSet::new(),
            &planes,
            FULL_TEST,
        )
    }

    /// Takes the answers to the tests of a color state: one with the HDR transfer function in
    /// the CRTC, where that is tried, and otherwise one without. Gives the blobs to release.
    pub fn finish_use_color_state(
        &mut self,
        color_state: ConnectorColorState,
        resolved: ResolvedColorState,
        offload: Option<Offload>,
        plain: Result<(), Error>,
    ) -> (r: Result<Vec<u64>, Refused>)
        requires
            old(self).wf(),
        ensures
            final(self).wf(),
            ({
                let before = old(self)@;
                let engaged = offload is Some && offload->Some_0.accepted;
                let rejected = match offload {
                    Some(tried) if !tried.accepted => stale(tried.blob, 0),
                    _ => seq![],
                };
                match r {
                    Err(refused) => {
                        &&& !engaged && plain is Err
                        &&& refused.error == plain->Err_0
                        &&& refused.destroy@ == rejected + stale(resolved@.hdr_blob, 0)
                        &&& final(self)@ == before
                    },
                    Ok(destroy) => {
                        &&& engaged || plain is Ok
                        &&& destroy@ == rejected + before.staged_blobs()
                        &&& final(self)@ == (SurfaceModel {
                            pending: StateModel {
                                color_state,
                                resolved_color: resolved@,
                                crtc_color_state: CrtcColorModel {
                                    gamma_lut: if engaged {
                                        Some(offload->Some_0.lut@)
                                    } else {
                                        None
                                    },
                                    ctm: None,
                                    degamma_lut: None,
                                },
                                crtc_color_blobs: CrtcColorBlobs {
                                    gamma_blob: if engaged {
                                        offload->Some_0.blob
                                    } else {
                                        0
                                    },
                                    ctm_blob: 0,
                                },
                                hdr_hardware_offload: engaged,
                                ..before.pending
                            },
                            ..before
                        })
                    },
                }
            }),
    {
        let mut destroy: Vec<u64> = Vec::new();
        let mut crtc_color_state: CrtcColorState = CrtcColorState::default();
        let mut blobs: CrtcColorBlobs = CrtcColorBlobs::default();
        let mut engaged: bool = false;
        if let Some(tried) = offload {
            if tried.accepted {
                blobs = CrtcColorBlobs { gamma_blob: tried.blob, ctm_blob: 0 };
                crtc_color_state =
                CrtcColorState { gamma_lut: Some(tried.lut), ctm: None, degamma_lut: None };
                engaged = true;
            } else {
                release_stale(&mut destroy, tried.blob, 0);
            }
        }
        let ghost rejected = destroy@;
        if !engaged {
            if let Err(error) = plain {
                release_stale(&mut destroy, resolved.hdr_blob, 0);
                return Err(Refused { error, destroy });
            }
        }
        release_stale(
            &mut destroy,
            self.pending.resolved_color.hdr_blob,
            self.state.resolved_color.hdr_blob,
        );
        release_stale(
            &mut destroy,
            self.pending.crtc_color_blobs.gamma_blob,
            self.state.crtc_color_blobs.gamma_blob,
        );
        release_stale(
            &mut destroy,
            self.pending.crtc_color_blobs.ctm_blob,
            self.state.crtc_color_blobs.ctm_blob,
        );
        assert(destroy@ =~= rejected + old(self)@.staged_blobs());
        self.pending.color_state = color_state;
        self.pending.resolved_color = resolved;
        self.pending.crtc_color_state = crtc_color_state;
        self.pending.crtc_color_blobs = blobs;
        self.pending.hdr_hardware_offload = engaged;
        Ok(destroy)
    }

    /// Whether the pending color pipeline of the CRTC would change.
    pub fn use_crtc_color_state(&self, active: bool, crtc_color_state: &CrtcColorState) -> (r:
        Result<bool, Error>)
        ensures
            r == if active {
                Ok::<bool, Error>(self@.pending.crtc_color_state != crtc_color_state@)
            } else {
                Err(Error::DeviceInactive)
            },
    {
        if !active {
            return Err(Error::DeviceInactive);
        }
        Ok(!(self.pending.crtc_color_state == *crtc_color_state))
    }

    /// Whether the CRTC has the lookup table that is asked for.
    pub fn check_gamma_lut(&self, crtc_color_state: &CrtcColorState) -> (r: Result<(), Error>)
        ensures
            r == if crtc_color_state@.gamma_lut is Some && handle_in(
                self@.prop_mapping.crtcs@,
                self@.crtc,
                Property::GammaLut,
            ) is None {
                Err::<(), Error>(lacks(self@.crtc, Property::GammaLut))
            } else {
                Ok(())
            },
    {
        if crtc_color_state.gamma_lut.is_some() && find_handle(
            &self.prop_mapping.crtcs,
            self.crtc,
            Property::GammaLut,
        ).is_none() {
            return Err(
                Error::UnknownProperty(
                    RequestError { handle: self.crtc, property: Property::GammaLut },
                ),
            );
        }
        Ok(())
    }

    /// Whether the CRTC has the matrix that is asked for. If not, the table blob that was made
    /// is released.
    pub fn check_ctm(&self, crtc_color_state: &CrtcColorState, gamma_blob: u64) -> (r: Result<
        (),
        Refused,
    >)
        ensures
            ({
                let missing = crtc_color_state@.ctm is Some && handle_in(
                    self@.prop_mapping.crtcs@,
                    self@.crtc,
                    Property::Ctm,
                ) is None;
                match r {
                    Ok(_) => !missing,
                    Err(refused) => {
                        &&& missing
                        &&& refused.error == lacks(self@.crtc, Property::Ctm)
                        &&& refused.destroy@ == stale(gamma_blob, 0)
                    },
                }
            }),
    {
        if crtc_color_state.ctm.is_some() && find_handle(
            &self.prop_mapping.crtcs,
            self.crtc,
            Property::Ctm,
        ).is_none() {
            let mut destroy: Vec<u64> = Vec::new();
            release_stale(&mut destroy, gamma_blob, 0);
            assert(destroy@ =~= stale(gamma_blob, 0));
            return Err(
                Refused {
                    error: Error::UnknownProperty(
                        RequestError { handle: self.crtc, property: Property::Ctm },
                    ),
                    destroy,
                },
            );
        }
        Ok(())
    }

    /// Takes the answer to the test of a color pipeline and gives the blobs to release.
    pub fn finish_use_crtc_color_state(
        &mut self,
        crtc_color_state: CrtcColorState,
        blobs: CrtcColorBlobs,
        test: Result<(), Error>,
    ) -> (r: Result<Vec<u64>, Refused>)
        requires
            old(self).wf(),
        ensures
            final(self).wf(),
            match r {
                Err(refused) => {
                    &&& test is Err
                    &&& refused.error == test->Err_0
                    &&& refused.destroy@ == stale(blobs.gamma_blob, 0) + stale(blobs.ctm_blob, 0)
                    &&& final(self)@ == old(self)@
                },
                Ok(destroy) => {
                    &&& test is Ok
                    &&& destroy@ == old(self)@.staged_crtc_blobs()
                    &&& final(self)@ == (SurfaceModel {
                        pending: StateModel {
                            crtc_color_state: crtc_color_state@,
                            crtc_color_blobs: blobs,
                            hdr_hardware_offload: crtc_color_state@.gamma_lut is Some,
                            ..old(self)@.pending
                        },
                        ..old(self)@
                    })
                },
            },
    {
        let mut destroy: Vec<u64> = Vec::new();
        if let Err(error) = test {
            release_stale(&mut destroy, blobs.gamma_blob, 0);
            release_stale(&mut destroy, blobs.ctm_blob, 0);
            assert(destroy@ =~= stale(blobs.gamma_blob, 0) + stale(blobs.ctm_blob, 0));
            return Err(Refused { error, destroy });
        }
        release_stale(
            &mut destroy,
            self.pending.crtc_color_blobs.gamma_blob,
            self.state.crtc_color_blobs.gamma_blob,
        );
        release_stale(
            &mut destroy,
            self.pending.crtc_color_blobs.ctm_blob,
            self.state.crtc_color_blobs.ctm_blob,
        );
        assert(destroy@ =~= old(self)@.staged_crtc_blobs());
        self.pending.hdr_hardware_offload = crtc_color_state.gamma_lut.is_some();
        self.pending.crtc_color_state = crtc_color_state;
        self.pending.crtc_color_blobs = blobs;
        Ok(destroy)
    }

    /// The connectors in use.
    pub fn current_connectors(&self) -> (r: IdSet)
        ensures
            r@ == self@.state.connectors,
    {
        self.state.connectors.duplicate()
    }

    /// The connectors of the next commit.
    pub fn pending_connectors(&self) -> (r: IdSet)
        ensures
            r@ == self@.pending.connectors,
    {
        self.pending.connectors.duplicate()
    }

    /// The mode in use.
    pub fn current_mode(&self) -> (r: Mode)
        ensures
            r == self@.state.mode,
    {
        self.state.mode
    }

    /// The mode of the next commit.
    pub fn pending_mode(&self) -> (r: Mode)
        ensures
            r == self@.pending.mode,
    {
        self.pending.mode
    }

    /// Whether the next commit uses a variable refresh rate.
    pub fn vrr_enabled(&self) -> (r: bool)
        ensures
            r == self@.pending.vrr,
    {
        self.pending.vrr
    }

    /// The color state in use.
    pub fn current_color_state(&self) -> (r: ConnectorColorState)
        ensures
            r == self@.state.color_state,
    {
        self.state.color_state
    }

    /// The color state of the next commit.
    pub fn pending_color_state(&self) -> (r: ConnectorColorState)
        ensures
            r == self@.pending.color_state,
    {
        self.pending.color_state
    }

    /// Whether the CRTC encodes the signal.
    pub fn current_hdr_hardware_offload(&self) -> (r: bool)
        ensures
            r == self@.state.hdr_hardware_offload,
    {
        self.state.hdr_hardware_offload
    }

    /// Whether the CRTC encodes the signal from the next commit on.
    pub fn pending_hdr_hardware_offload(&self) -> (r: bool)
        ensures
            r == self@.pending.hdr_hardware_offload,
    {
        self.pending.hdr_hardware_offload
    }

    /// The color pipeline of the CRTC in use.
    pub fn current_crtc_color_state(&self) -> (r: CrtcColorState)
        ensures
            r@ == self@.state.crtc_color_state,
    {
        self.state.crtc_color_state.duplicate()
    }

    /// The color pipeline of the CRTC from the next commit on.
    pub fn pending_crtc_color_state(&self) -> (r: CrtcColorState)
        ensures
            r@ == self@.pending.crtc_color_state,
    {
        self.pending.crtc_color_state.duplicate()
    }

    /// Whether the pending state differs from the current one.
    pub fn commit_pending(&self) -> (r: bool)
        ensures
            r == !self@.pending.equivalent(self@.state),
    {
        !(self.pending == self.state)
    }

    /// The test of the planes, with the whole pending state if a modeset is allowed.
    pub fn test_state(
        &self,
        active: bool,
        planes: &Vec<PlaneState>,
        allow_modeset: bool,
        async_commit: bool,
    ) -> (r: Result<Attempt, Error>)
        requires
            self.wf(),
        ensures
            !active ==> r is Err && r->Err_0 == Error::DeviceInactive,
            active ==> attempts(
                r,
                if allow_modeset {
                    self@.pending_steps(planes@)
                } else {
                    self@.flip_steps(self@.state.vrr, planes@)
                },
                TEST_ONLY | (if allow_modeset {
                    ALLOW_MODESET
                } else {
                    0
                }) | (if async_commit {
                    PAGE_FLIP_ASYNC
                } else {
                    0
                }),
            ),
    {
        if !active {
            return Err(Error::DeviceInactive);
        }
        let flags: u32 = TEST_ONLY | (if allow_modeset {
            ALLOW_MODESET
        } else {
            0
        }) | (if async_commit {
            PAGE_FLIP_ASYNC
        } else {
            0
        });
        if allow_modeset {
            let removed: IdSet = self.state.connectors.difference(&self.pending.connectors);
            self.full_request(
                self.pending.blob,
                self.pending.vrr,
                &self.pending.resolved_color,
                self.pending.crtc_color_blobs,
                &self.pending.connectors,
                &removed,
                planes,
                flags,
            )
        } else {
            self.flip_request(self.state.vrr, planes, flags)
        }
    }

    /// What the driver's answer to a test means.
    pub fn after_test(&self, accepted: bool) -> (r: Result<(), Error>)
        ensures
            r == tested(self@, accepted),
    {
        if accepted {
            Ok(())
        } else {
            Err(Error::TestFailed(self.crtc))
        }
    }

    /// The commit flags for page flip flags; an asynchronous flip only where it is supported.
    pub fn flip_flags(&self, value: u32) -> (flags: u32)
        ensures
            flags == self@.flags_for(value),
    {
        (value & PAGE_FLIP_EVENT) | (if self.supports_async_page_flips {
            value & PAGE_FLIP_ASYNC
        } else {
            0
        })
    }

    /// The request that applies the pending state, as a test.
    pub fn commit(&self, active: bool, planes: &Vec<PlaneState>) -> (r: Result<Attempt, Error>)
        requires
            self.wf(),
        ensures
            !active ==> r is Err && r->Err_0 == Error::DeviceInactive,
            active ==> attempts(r, self@.pending_steps(planes@), FULL_TEST),
    {
        if !active {
            return Err(Error::DeviceInactive);
        }
        let removed: IdSet = self.state.connectors.difference(&self.pending.connectors);
        self.full_request(
            self.pending.blob,
            self.pending.vrr,
            &self.pending.resolved_color,
            self.pending.crtc_color_blobs,
            &self.pending.connectors,
            &removed,
            planes,
            FULL_TEST,
        )
    }

    /// The commit itself, of a request that was accepted as a test. If it was rejected nothing is
    /// committed and nothing released.
    pub fn after_commit_test(&self, test: Attempt, accepted: bool, flip_flags: u32) -> (r: Result<
        CommitPlan,
        Error,
    >)
        ensures
            match (r, tested(self@, accepted)) {
                (Ok(plan), Ok(_)) => {
                    &&& plan.attempt.writes@ == test.writes@
                    &&& plan.attempt.flags == commit_flags(self@.flags_for(flip_flags))
                    &&& plan.destroy@ == self@.replaced_blobs()
                },
                (Err(error), Err(expected)) => error == expected,
                _ => false,
            },
    {
        if let Err(error) = self.after_test(accepted) {
            return Err(error);
        }
        let flags: u32 = self.flip_flags(flip_flags);
        let mut destroy: Vec<u64> = Vec::new();
        if self.state.mode != self.pending.mode {
            destroy.push(self.state.blob);
        }
        release_stale(
            &mut destroy,
            self.state.resolved_color.hdr_blob,
            self.pending.resolved_color.hdr_blob,
        );
        release_stale(
            &mut destroy,
            self.state.crtc_color_blobs.gamma_blob,
            self.pending.crtc_color_blobs.gamma_blob,
        );
        release_stale(
            &mut destroy,
            self.state.crtc_color_blobs.ctm_blob,
            self.pending.crtc_color_blobs.ctm_blob,
        );
        assert(destroy@ =~= self@.replaced_blobs());
        let attempt: Attempt = Attempt {
            writes: test.writes,
            flags: if flags & PAGE_FLIP_EVENT != 0 {
                flags | ALLOW_MODESET
            } else {
                ALLOW_MODESET
            },
        };
        Ok(CommitPlan { destroy, attempt })
    }

    /// After a commit the current state is the pending one.
    pub fn finish_commit(&mut self, accepted: bool, planes: &Vec<PlaneState>)
        requires
            old(self).wf(),
        ensures
            final(self).wf(),
            !accepted ==> final(self)@ == old(self)@,
            accepted ==> final(self)@ == (SurfaceModel {
                state: old(self)@.pending,
                used_planes: used_after(old(self)@.used_planes, planes@),
                ..old(self)@
            }),
            accepted ==> final(self)@.pending.equivalent(final(self)@.state),
    {
        if accepted {
            self.state = self.pending.duplicate();
            self.note_planes(planes);
        }
    }

    fn note_planes(&mut self, planes: &Vec<PlaneState>)
        requires
            old(self).wf(),
        ensures
            final(self).wf(),
            final(self)@ == (SurfaceModel {
                used_planes: used_after(old(self)@.used_planes, planes@),
                ..old(self)@
            }),
    {
        let mut used: IdSet = self.used_planes.duplicate();
        let ghost start = used@;
        let mut i: usize = 0;
        assert(planes@.take(0) =~= seq![]);
        while i < planes.len()
            invariant
                i <= planes.len(),
                used.wf(),
                used@ == used_after(start, planes@.take(i as int)),
            decreases planes.len() - i,
        {
            proof {
                assert(planes@.take(i + 1).last() == planes@[i as int]);
                assert(planes@.take(i + 1).drop_last() =~= planes@.take(i as int));
            }
            if planes[i].config.is_some() {
                used.insert(planes[i].handle);
            } else {
                used.remove(planes[i].handle);
            }
            i = i + 1;
        }
        assert(planes@.take(i as int) =~= planes@);
        self.used_planes = used;
    }

    /// The request of a page flip. It carries no mode and no color: the hardware keeps those of
    /// the last commit.
    pub fn page_flip(&self, active: bool, planes: &Vec<PlaneState>, flip_flags: u32) -> (r: Result<
        Attempt,
        Error,
    >)
        requires
            self.wf(),
        ensures
            !active ==> r is Err && r->Err_0 == Error::DeviceInactive,
            active ==> attempts(
                r,
                self@.flip_steps(self@.state.vrr, planes@),
                page_flip_flags(self@.flags_for(flip_flags)),
            ),
    {
        if !active {
            return Err(Error::DeviceInactive);
        }
        let flags: u32 = self.flip_flags(flip_flags);
        self.flip_request(
            self.state.vrr,
            planes,
            if flags & PAGE_FLIP_EVENT != 0 {
                flags | NONBLOCK
            } else {
                NONBLOCK
            },
        )
    }

    /// Notes the planes of a page flip that has been queued.
    pub fn finish_page_flip(&mut self, accepted: bool, planes: &Vec<PlaneState>)
        requires
            old(self).wf(),
        ensures
            final(self).wf(),
            !accepted ==> final(self)@ == old(self)@,
            accepted ==> final(self)@ == (SurfaceModel {
                used_planes: used_after(old(self)@.used_planes, planes@),
                ..old(self)@
            }),
    {
        if accepted {
            self.note_planes(planes);
        }
    }

    /// The request that disables a plane.
    pub fn clear_plane(&self, active: bool, plane: u32) -> (r: Result<Attempt, Error>)
        requires
            self.wf(),
        ensures
            !active ==> r is Err && r->Err_0 == Error::DeviceInactive,
            active ==> attempts(
                r,
                items_steps(self@.prop_mapping.planes@, plane, reset_plane_items()),
                0,
            ),
    {
        if !active {
            return Err(Error::DeviceInactive);
        }
        let mut req: AtomicRequest = AtomicRequest::new(&self.prop_mapping);
        let ghost start = req.writes@;
        match req.reset_plane(plane) {
            Ok(_) => {
                assert(req.writes@ =~= items_steps(
                    self@.prop_mapping.planes@,
                    plane,
                    reset_plane_items(),
                ).writes);
                Ok(Attempt { writes: req.writes, flags: 0 })
            },
            Err(error) => Err(Error::UnknownProperty(error)),
        }
    }

    /// Forgets a plane that has been disabled.
    pub fn finish_clear_plane(&mut self, accepted: bool, plane: u32)
        requires
            old(self).wf(),
        ensures
            final(self).wf(),
            !accepted ==> final(self)@ == old(self)@,
            accepted ==> final(self)@ == (SurfaceModel {
                used_planes: minus(old(self)@.used_planes, seq![plane]),
                ..old(self)@
            }),
    {
        if accepted {
            self.used_planes.remove(plane);
        }
    }

    /// The request that turns the surface off.
    pub fn clear_state(&self, active: bool) -> (r: Result<Attempt, Error>)
        requires
            self.wf(),
        ensures
            !active ==> r is Err && r->Err_0 == Error::DeviceInactive,
            active ==> attempts(
                r,
                clear_steps(
                    self@.prop_mapping,
                    self@.crtc,
                    self@.used_planes,
                    self@.state.connectors,
                ),
                ALLOW_MODESET,
            ),
    {
        if !active {
            return Err(Error::DeviceInactive);
        }
        let mut req: AtomicRequest = AtomicRequest::new(&self.prop_mapping);
        let planes: &Vec<u32> = &self.used_planes.ids;
        let conns: &Vec<u32> = &self.state.connectors.ids;
        let mut i: usize = 0;
        assert(planes@.take(0) =~= seq![]);
        assert(planes@.take(planes@.len() as int) =~= planes@);
        assert(req.writes@ =~= disabled_steps(self.prop_mapping, seq![]).writes);
        while i < planes.len()
            invariant
                i <= planes.len(),
                planes@ == self@.used_planes,
                conns@ == self@.state.connectors,
                req.wf(),
                req.mapping == self.prop_mapping,
                req.writes@ == disabled_steps(self.prop_mapping, planes@.take(i as int)).writes,
                disabled_steps(self.prop_mapping, planes@.take(i as int)).error is None,
                planes@.take(planes@.len() as int) == planes@,
                active,
            decreases planes.len() - i,
        {
            proof {
                assert(planes@.take(i + 1).last() == planes@[i as int]);
                assert(planes@.take(i + 1).drop_last() =~= planes@.take(i as int));
            }
            if let Err(error) = req.reset_plane(planes[i]) {
                proof {
                    lemma_disable_error_stays(self.prop_mapping, planes@, i + 1);
                }
                return Err(Error::UnknownProperty(error));
            }
            i = i + 1;
        }
        let ghost off = disabled_steps(self.prop_mapping, planes@);
        let mut j: usize = 0;
        assert(conns@.take(0) =~= seq![]);
        assert(conns@.take(conns@.len() as int) =~= conns@);
        assert(req.writes@ =~= off.writes + removed_steps(self.prop_mapping, seq![]).writes);
        while j < conns.len()
            invariant
                j <= conns.len(),
                planes@ == self@.used_planes,
                conns@ == self@.state.connectors,
                off == disabled_steps(self.prop_mapping, planes@),
                off.error is None,
                req.wf(),
                req.mapping == self.prop_mapping,
                req.writes@ == off.writes + removed_steps(
                    self.prop_mapping,
                    conns@.take(j as int),
                ).writes,
                removed_steps(self.prop_mapping, conns@.take(j as int)).error is None,
                conns@.take(conns@.len() as int) == conns@,
                active,
            decreases conns.len() - j,
        {
            proof {
                assert(conns@.take(j + 1).last() == conns@[j as int]);
                assert(conns@.take(j + 1).drop_last() =~= conns@.take(j as int));
            }
            if let Err(error) = req.reset_connector(conns[j]) {
                proof {
                    lemma_detach_error_stays(self.prop_mapping, conns@, j + 1);
                }
                return Err(Error::UnknownProperty(error));
            }
            proof {
                assert(req.writes@ =~= off.writes + removed_steps(
                    self.prop_mapping,
                    conns@.take(j + 1),
                ).writes);
            }
            j = j + 1;
        }
        match req.reset_crtc(self.crtc) {
            Ok(_) => Ok(Attempt { writes: req.writes, flags: ALLOW_MODESET }),
            Err(error) => Err(Error::UnknownProperty(error)),
        }
    }

    /// Forgets the configuration of a surface that has been turned off.
    pub fn finish_clear_state(&mut self, accepted: bool)
        requires
            old(self).wf(),
        ensures
            final(self).wf(),
            !accepted ==> final(self)@ == old(self)@,
            accepted ==> {
                &&& final(self)@.state.cleared()
                &&& final(self)@ == (SurfaceModel {
                    state: final(self)@.state,
                    used_planes: seq![],
                    ..old(self)@
                })
            },
    {
        if accepted {
            self.used_planes = IdSet::new();
            self.state.clear();
        }
    }

    /// Takes over the state that the kernel reports. The blobs of what is pending may have got
    /// lost meanwhile: see [`AtomicDrmSurface::renew_mode_blob`] and
    /// [`AtomicDrmSurface::renew_metadata_blob`].
    pub fn reset_state(&mut self, state: State)
        requires
            old(self).wf(),
            state.wf(),
        ensures
            final(self).wf(),
            final(self)@ == (SurfaceModel { state: state@, ..old(self)@ }),
    {
        self.state = state;
    }

    /// Takes a new blob for the pending mode. Gives the one to release.
    pub fn renew_mode_blob(&mut self, blob: u64) -> (destroy: u64)
        requires
            old(self).wf(),
        ensures
            final(self).wf(),
            destroy == old(self)@.pending.blob,
            final(self)@ == (SurfaceModel {
                pending: StateModel { blob, ..old(self)@.pending },
                ..old(self)@
            }),
    {
        let old_blob: u64 = self.pending.blob;
        self.pending.blob = blob;
        old_blob
    }

    /// Takes a new blob for the pending metadata, if there are any. Gives the blobs to release.
    pub fn renew_metadata_blob(&mut self, hdr_blob: u64) -> (destroy: Vec<u64>)
        requires
            old(self).wf(),
        ensures
            final(self).wf(),
            ({
                let before = old(self)@;
                if before.pending.color_state.hdr_metadata is Some {
                    &&& destroy@ == stale(before.pending.resolved_color.hdr_blob, 0)
                    &&& final(self)@ == (SurfaceModel {
                        pending: StateModel {
                            resolved_color: ResolvedColorModel {
                                hdr_blob,
                                ..before.pending.resolved_color
                            },
                            ..before.pending
                        },
                        ..before
                    })
                } else {
                    &&& destroy@.len() == 0
                    &&& final(self)@ == before
                }
            }),
    {
        let mut destroy: Vec<u64> = Vec::new();
        if self.pending.color_state.hdr_metadata.is_some() {
            let old_blob: u64 = self.pending.resolved_color.hdr_blob;
            self.pending.resolved_color.hdr_blob = hdr_blob;
            release_stale(&mut destroy, old_blob, 0);
            assert(destroy@ =~= stale(old(self)@.pending.resolved_color.hdr_blob, 0));
        }
        destroy
    }
}

/// The answer of the driver as a result.
pub open spec fn tested(surface: SurfaceModel, accepted: bool) -> Result<(), Error> {
    if accepted {
        Ok(())
    } else {
        Err(Error::TestFailed(surface.crtc))
    }
}

/// The first part of a pair result.
pub open spec fn first_of<A, B>(r: Result<(A, B), Error>) -> Result<A, Error> {
    match r {
        Ok((a, _)) => Ok(a),
        Err(error) => Err(error),
    }
}

/// The colorspace values of the other connectors.
pub open spec fn values_without(values: Seq<ColorspaceValue>, conn: u32) -> Seq<ColorspaceValue>
    decreases values.len(),
{
    if values.len() == 0 {
        seq![]
    } else if values.last().connector == conn {
        values_without(values.drop_last(), conn)
    } else {
        values_without(values.drop_last(), conn).push(values.last())
    }
}

fn drop_values(values: &Vec<ColorspaceValue>, conn: u32) -> (left: Vec<ColorspaceValue>)
    ensures
        left@ == values_without(values@, conn),
{
    let mut left: Vec<ColorspaceValue> = Vec::new();
    let mut i: usize = 0;
    assert(values@.take(0) =~= seq![]);
    while i < values.len()
        invariant
            i <= values.len(),
            left@ == values_without(values@.take(i as int), conn),
        decreases values.len() - i,
    {
        let value: ColorspaceValue = values[i];
        proof {
            assert(values@.take(i + 1).last() == value);
            assert(values@.take(i + 1).drop_last() =~= values@.take(i as int));
        }
        if value.connector != conn {
            left.push(value);
        }
        i = i + 1;
    }
    assert(values@.take(i as int) =~= values@);
    left
}

/// Support for a variable refresh rate.
pub open spec fn vrr_verdict(
    surface: SurfaceModel,
    active: bool,
    conn: u32,
    props: Seq<PropValue>,
    interface: u32,
) -> Result<VrrSupport, Error> {
    let capable = match handle_in(
        surface.prop_mapping.connectors@,
        conn,
        Property::VrrCapable,
    ) {
        Some(handle) => match prop_value(props, handle) {
            Some(value) => value != 0,
            None => false,
        },
        None => false,
    };
    if !active {
        Err(Error::DeviceInactive)
    } else if handle_in(surface.prop_mapping.crtcs@, surface.crtc, Property::VrrEnabled) is None
        || !capable {
        Ok(VrrSupport::NotSupported)
    } else if interface == INTERFACE_HDMIA || interface == INTERFACE_HDMIB {
        Ok(VrrSupport::RequiresModeset)
    } else {
        Ok(VrrSupport::Supported)
    }
}

/// Whether a change of the variable refresh rate has to be tested: not if the rate is as asked
/// for. It cannot be switched on without the property.
pub open spec fn vrr_check(surface: SurfaceModel, value: bool) -> Result<bool, Error> {
    if surface.pending.vrr == value {
        Ok(false)
    } else if value && handle_in(
        surface.prop_mapping.crtcs@,
        surface.crtc,
        Property::VrrEnabled,
    ) is None {
        Err(lacks(surface.crtc, Property::VrrEnabled))
    } else {
        Ok(true)
    }
}

/// The tests for a change of the variable refresh rate.
pub open spec fn plans_vrr(
    r: Result<VrrPlan, Error>,
    surface: SurfaceModel,
    value: bool,
    fb: u32,
) -> bool {
    let planes = seq![test_plane(surface.plane, surface.pending.mode, fb)];
    let full = surface.full_steps(
        surface.pending.blob,
        value,
        surface.pending.resolved_color,
        surface.pending.crtc_color_blobs,
        surface.pending.connectors,
        seq![],
        planes,
    );
    let flip = surface.flip_steps(value, planes);
    let lightly = surface.state.equivalent(surface.pending);
    if vrr_check(surface, value) == Ok::<bool, Error>(false) {
        r == Ok::<VrrPlan, Error>(VrrPlan::Unchanged)
    } else if vrr_check(surface, value) is Err {
        r is Err && r->Err_0 == vrr_check(surface, value)->Err_0
    } else {
        match r {
            Ok(VrrPlan::Unchanged) => false,
            Ok(VrrPlan::Test { flip: light, full: heavy }) => {
                &&& attempts(Ok(heavy), full, FULL_TEST)
                &&& match light {
                    Some(attempt) => lightly && attempts(Ok(attempt), flip, TEST_ONLY),
                    None => !lightly,
                }
            },
            Err(error) => if full.error is Some {
                error == Error::UnknownProperty(full.error->Some_0)
            } else {
                lightly && flip.error is Some && error == Error::UnknownProperty(
                    flip.error->Some_0,
                )
            },
        }
    }
}

/// The colorspaces that a connector supports.
pub open spec fn supported_verdict(
    surface: SurfaceModel,
    active: bool,
    conn: u32,
    records: Seq<ColorspaceRecord>,
) -> Result<Seq<Colorspace>, Error> {
    if !active {
        Err(Error::DeviceInactive)
    } else {
        match handle_in(surface.prop_mapping.connectors@, conn, Property::Colorspace) {
            None => Ok(seq![Colorspace::Default]),
            Some(handle) => match record_of(records, handle) {
                None => Err(Error::ColorspaceQuery(conn)),
                Some(record) => match record.entries {
                    Some(entries) => Ok(seq![Colorspace::Default] + other_spaces(entries@)),
                    None => Ok(seq![Colorspace::Default]),
                },
            },
        }
    }
}

/// Whatever a connector offers, the default colorspace is supported, and it is listed once.
pub proof fn law_default_colorspace_is_supported(
    surface: SurfaceModel,
    conn: u32,
    records: Seq<ColorspaceRecord>,
)
    requires
        supported_verdict(surface, true, conn, records) is Ok,
    ensures
        ({
            let spaces = supported_verdict(surface, true, conn, records)->Ok_0;
            &&& spaces.len() > 0 && spaces[0] == Colorspace::Default
            &&& forall|i: int| 0 < i < spaces.len() ==> #[trigger] spaces[i] != Colorspace::Default
        }),
{
    if let Some(handle) = handle_in(surface.prop_mapping.connectors@, conn, Property::Colorspace) {
        if let Some(record) = record_of(records, handle) {
            if let Some(entries) = record.entries {
                lemma_others_are_not_default(entries@);
                let spaces = seq![Colorspace::Default] + other_spaces(entries@);
                assert forall|i: int| 0 < i < spaces.len() implies #[trigger] spaces[i]
                    != Colorspace::Default by {
                    assert(spaces[i] == other_spaces(entries@)[i - 1]);
                }
            }
        }
    }
}

proof fn lemma_others_are_not_default(entries: Seq<EnumEntry>)
    ensures
        forall|i: int|
            0 <= i < other_spaces(entries).len() ==> #[trigger] other_spaces(entries)[i]
                != Colorspace::Default,
    decreases entries.len(),
{
    if entries.len() > 0 {
        lemma_others_are_not_default(entries.drop_last());
    }
}

/// Flags of a commit: with an event it can change the mode in the same call.
pub open spec fn commit_flags(flip: u32) -> u32 {
    if flip & PAGE_FLIP_EVENT != 0 {
        flip | ALLOW_MODESET
    } else {
        ALLOW_MODESET
    }
}

/// Flags of a page flip.
pub open spec fn page_flip_flags(flip: u32) -> u32 {
    if flip & PAGE_FLIP_EVENT != 0 {
        flip | NONBLOCK
    } else {
        NONBLOCK
    }
}

/// Lower case of an ASCII letter.
pub open spec fn ascii_lower(c: char) -> char {
    if 'A' <= c && c <= 'Z' {
        (c as u32 + 32) as char
    } else {
        c
    }
}

/// The setting `1`, or `true` in any case, allows the CRTC to encode the HDR transfer function.
pub open spec fn allows_offload(value: Seq<char>) -> bool {
    ||| value == seq!['1']
    ||| value.len() == 4 && ascii_lower(value[0]) == 't' && ascii_lower(value[1]) == 'r'
        && ascii_lower(value[2]) == 'u' && ascii_lower(value[3]) == 'e'
}

/// See [`allows_offload`].
pub fn offload_allowed(value: Option<&str>) -> (r: bool)
    ensures
        r == match value {
            Some(value) => allows_offload(value@),
            None => false,
        },
{
    match value {
        Some(value) => {
            let n: usize = value.unicode_len();
            if n == 1 {
                let r: bool = value.get_char(0) == '1';
                assert(r ==> value@ =~= seq!['1']);
                r
            } else if n == 4 {
                let a: char = value.get_char(0);
                let b: char = value.get_char(1);
                let c: char = value.get_char(2);
                let d: char = value.get_char(3);
                (a == 't' || a == 'T') && (b == 'r' || b == 'R') && (c == 'u' || c == 'U') && (d
                    == 'e' || d == 'E')
            } else {
                false
            }
        },
        None => false,
    }
}

/// The blobs that a state refers to.
pub open spec fn blobs_of(state: StateModel) -> Seq<u64> {
    seq![
        state.blob,
        state.resolved_color.hdr_blob,
        state.crtc_color_blobs.gamma_blob,
        state.crtc_color_blobs.ctm_blob,
    ]
}

/// Two states share a blob only in the same place, and a mode blob only for the same mode; zero
/// stands for no blob.
pub open spec fn shared_in_place(a: StateModel, b: StateModel) -> bool {
    &&& forall|i: int, j: int|
        0 <= i < 4 && 0 <= j < 4 && i != j && #[trigger] blobs_of(a)[i] != 0 ==> blobs_of(a)[i]
            != #[trigger] blobs_of(b)[j]
    &&& a.mode != b.mode && a.blob != 0 ==> a.blob != b.blob
}

/// A commit never releases a blob that the committed state refers to.
pub proof fn law_commit_keeps_live_blobs(surface: SurfaceModel, i: int, j: int)
    requires
        shared_in_place(surface.state, surface.pending),
        0 <= i < surface.replaced_blobs().len(),
        surface.replaced_blobs()[i] != 0,
        0 <= j < 4,
    ensures
        surface.replaced_blobs()[i] != blobs_of(surface.pending)[j],
{
    let a = blobs_of(surface.state);
    let b = blobs_of(surface.pending);
    let blob = surface.replaced_blobs()[i];
    assert(exists|k: int| 0 <= k < 4 && blob == a[k] && blob != b[k]) by {
        let mode = if surface.state.mode != surface.pending.mode {
            seq![a[0]]
        } else {
            seq![]
        };
        let first = stale(a[1], b[1]);
        let second = stale(a[2], b[2]);
        let third = stale(a[3], b[3]);
        assert(surface.replaced_blobs() =~= mode + first + second + third);
        if i < mode.len() {
            assert(blob == a[0]);
        } else if i < mode.len() + first.len() {
            assert(blob == a[1]);
        } else if i < mode.len() + first.len() + second.len() {
            assert(blob == a[2]);
        } else {
            assert(blob == a[3]);
        }
    }
    let k = choose|k: int| 0 <= k < 4 && blob == a[k] && blob != b[k];
    if k != j {
        assert(a[k] != b[j]);
    }
}

/// Staging new colors never releases a blob that the current state, and so the hardware, still
/// refers to.
pub proof fn law_staging_keeps_current_blobs(surface: SurfaceModel, i: int, j: int)
    requires
        shared_in_place(surface.pending, surface.state),
        0 <= i < surface.staged_blobs().len(),
        0 <= j < 4,
    ensures
        surface.staged_blobs()[i] != blobs_of(surface.state)[j],
{
    let a = blobs_of(surface.pending);
    let b = blobs_of(surface.state);
    let blob = surface.staged_blobs()[i];
    assert(blob != 0 && exists|k: int| 0 <= k < 4 && blob == a[k] && blob != b[k]) by {
        let first = stale(a[1], b[1]);
        let second = stale(a[2], b[2]);
        let third = stale(a[3], b[3]);
        assert(surface.staged_blobs() =~= first + second + third);
        if i < first.len() {
            assert(blob == a[1]);
        } else if i < first.len() + second.len() {
            assert(blob == a[2]);
        } else {
            assert(blob == a[3]);
        }
    }
    let k = choose|k: int| 0 <= k < 4 && blob == a[k] && blob != b[k];
    if k != j {
        assert(a[k] != b[j]);
    }
}

/// A choice of the connector's colorspace property has the name of the colorspace, and the value.
pub open spec fn offers(
    mapping: PropMapping,
    records: Seq<ColorspaceRecord>,
    conn: u32,
    space: Colorspace,
    value: u64,
) -> bool {
    exists|r: int, e: int|
        #![trigger records[r].entries->0@[e]]
        0 <= r < records.len() && handle_in(mapping.connectors@, conn, Property::Colorspace)
            == Some(records[r].property) && records[r].entries is Some && 0 <= e
            < records[r].entries->0@.len() && space.name() is Some && text(
            records[r].entries->0@[e].name,
        ) == space.name() && records[r].entries->0@[e].value == value
}

proof fn lemma_record_is_there(records: Seq<ColorspaceRecord>, property: u32) -> (r: int)
    requires
        record_of(records, property) is Some,
    ensures
        0 <= r < records.len(),
        records[r] == record_of(records, property)->0,
        records[r].property == property,
    decreases records.len(),
{
    if records[0].property == property {
        0
    } else {
        let r = lemma_record_is_there(records.drop_first(), property);
        assert(records.drop_first()[r] == records[r + 1]);
        r + 1
    }
}

proof fn lemma_entry_is_there(entries: Seq<EnumEntry>, name: Seq<char>) -> (e: int)
    requires
        value_named(entries, name) is Some,
    ensures
        0 <= e < entries.len(),
        text(entries[e].name) == Some(name),
        entries[e].value == value_named(entries, name)->0,
    decreases entries.len(),
{
    if text(entries[0].name) == Some(name) {
        0
    } else {
        let e = lemma_entry_is_there(entries.drop_first(), name);
        assert(entries.drop_first()[e] == entries[e + 1]);
        e + 1
    }
}

/// A color state that resolves can be shown on every connector: each has the properties that the
/// state asks for, and is given a value that its own property offers under the name of the
/// colorspace. Only the default colorspace may go without.
pub proof fn law_color_state_fits_every_connector(
    mapping: PropMapping,
    records: Seq<ColorspaceRecord>,
    color: ConnectorColorState,
    conns: Seq<u32>,
    k: int,
)
    requires
        resolved_values(mapping, records, color, conns) is Ok,
        0 <= k < conns.len(),
    ensures
        ({
            let values = resolved_values(mapping, records, color, conns)->Ok_0;
            let conn = conns[k];
            &&& color.hdr_metadata is Some ==> handle_in(
                mapping.connectors@,
                conn,
                Property::HdrOutputMetadata,
            ) is Some
            &&& color.max_bpc is Some ==> handle_in(
                mapping.connectors@,
                conn,
                Property::MaxBpc,
            ) is Some
            &&& color.colorspace == Colorspace::Default || exists|i: int|
                0 <= i < values.len() && (#[trigger] values[i]).connector == conn && offers(
                    mapping,
                    records,
                    conn,
                    color.colorspace,
                    values[i].value,
                )
        }),
    decreases conns.len(),
{
    let before = resolved_values(mapping, records, color, conns.drop_last())->Ok_0;
    let values = resolved_values(mapping, records, color, conns)->Ok_0;
    if k < conns.len() - 1 {
        law_color_state_fits_every_connector(mapping, records, color, conns.drop_last(), k);
        assert(conns.drop_last()[k] == conns[k]);
        if color.colorspace != Colorspace::Default {
            let i = choose|i: int|
                0 <= i < before.len() && (#[trigger] before[i]).connector == conns[k] && offers(
                    mapping,
                    records,
                    conns[k],
                    color.colorspace,
                    before[i].value,
                );
            assert(values[i] == before[i]);
        }
    } else {
        let conn = conns[k];
        assert(conn == conns.last());
        if color.colorspace != Colorspace::Default {
            let handle = handle_in(mapping.connectors@, conn, Property::Colorspace)->0;
            let r = lemma_record_is_there(records, handle);
            let name = color.colorspace.name()->0;
            let e = lemma_entry_is_there(records[r].entries->0@, name);
            let added = values[before.len() as int];
            assert(added.connector == conn);
            assert(records[r].entries->0@[e].value == added.value);
            assert(offers(mapping, records, conn, color.colorspace, added.value));
        }
    }
}

/// A resolved color state hands on the metadata blob and the depth that were asked for.
pub proof fn law_resolved_state_hands_on(
    surface: AtomicDrmSurface,
    color: ConnectorColorState,
    hdr_blob: u64,
    records: Vec<ColorspaceRecord>,
    r: Result<ResolvedColorState, Refused>,
)
    requires
        call_ensures(
            AtomicDrmSurface::use_color_state,
            (&surface, &color, hdr_blob, &records),
            r,
        ),
    ensures
        r matches Ok(resolved) ==> resolved@.hdr_blob == hdr_blob && (resolved@.max_bpc is Some
            <==> color.max_bpc is Some) && (color.max_bpc is Some ==> resolved@.max_bpc->0
            == color.max_bpc->0) && resolved_values(
            surface@.prop_mapping,
            records@,
            color,
            surface@.pending.connectors,
        ) == Ok::<Seq<ColorspaceValue>, Error>(resolved@.colorspace_values),
        r matches Err(refused) ==> (hdr_blob != 0 ==> refused.destroy@.contains(hdr_blob)),
{
    match r {
        Ok(_) => {},
        Err(refused) => {
            if hdr_blob != 0 {
                assert(refused.destroy@[0] == hdr_blob);
            }
        },
    }
}

/// A test shows the whole buffer on the whole mode, unchanged: its source is exactly as large as
/// the mode, and so is the place that it is shown at.
pub proof fn law_tests_fill_the_mode(plane: u32, mode: Mode, fb: u32)
    ensures
        ({
            let state = test_plane(plane, mode, fb);
            let config = state.config->0;
            &&& state.handle == plane && state.config is Some && config.fb == fb
            &&& units64(config.src.x) == 0 && units64(config.src.y) == 0
            &&& units64(config.src.w) == mode.hdisplay * two_pow(1074)
            &&& units64(config.src.h) == mode.vdisplay * two_pow(1074)
            &&& config.dst.loc.x == 0 && config.dst.loc.y == 0
            &&& config.dst.size.w == mode.hdisplay && config.dst.size.h == mode.vdisplay
            &&& config.transform is Normal && config.damage_clips is None && config.fence is None
            &&& config.alpha == 0x3f80_0000
        }),
{
    law_integers_are_exact(mode.hdisplay as i32);
    law_integers_are_exact(mode.vdisplay as i32);
    assert(units64(0) == 0);
}

} // verus!
