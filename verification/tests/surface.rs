//! Atomic requests and surfaces.

use drm::control::atomic::AtomicModeReq;
use hdr_backend::atomic::{
    offload_allowed, resolve_color_state, test_buffer_formats, AtomicDrmSurface, ColorspaceRecord, Offload,
    VrrPlan, VrrSupport, ALLOW_MODESET, FULL_TEST, INTERFACE_HDMIA, NONBLOCK, PAGE_FLIP_ASYNC, PAGE_FLIP_EVENT,
    TEST_ONLY,
};
use hdr_backend::color::{Colorspace, ConnectorColorState, CrtcColorState, DrmColorCtm, DrmColorLut};
use hdr_backend::colorop::EnumEntry;
use hdr_backend::ffi;
use hdr_backend::geometry::{Point, Rectangle, Size, Transform};
use hdr_backend::idset::IdSet;
use hdr_backend::metadata::HdrOutputMetadata;
use hdr_backend::request::{
    to_fixed, AtomicRequest, CrtcColorBlobs, DrmRotation, PlaneConfig, PlaneState, PropEntry, PropMapping, Property,
    RequestError, ResolvedColorState, SourceRect,
};
use hdr_backend::surface::{
    ConnectorReadout, CrtcReadout, Error, Mode, PropReadout, PropValue, State,
};

const CRTC: u32 = 40;
const PLANE: u32 = 50;
const CONN: u32 = 60;
const OTHER: u32 = 61;

fn entries(object: u32, start: u32, properties: &[Property]) -> Vec<PropEntry> {
    properties
        .iter()
        .enumerate()
        .map(|(i, p)| PropEntry {
            object,
            property: *p,
            handle: start + i as u32,
        })
        .collect()
}

fn mapping() -> PropMapping {
    let mut connectors = entries(
        CONN,
        600,
        &[
            Property::CrtcId,
            Property::Colorspace,
            Property::HdrOutputMetadata,
            Property::MaxBpc,
            Property::VrrCapable,
        ],
    );
    connectors.extend(entries(OTHER, 610, &[Property::CrtcId]));
    PropMapping {
        connectors,
        crtcs: entries(
            CRTC,
            400,
            &[
                Property::Active,
                Property::ModeId,
                Property::VrrEnabled,
                Property::GammaLut,
                Property::GammaLutSize,
                Property::Ctm,
            ],
        ),
        planes: entries(
            PLANE,
            500,
            &[
                Property::CrtcId,
                Property::FbId,
                Property::SrcX,
                Property::SrcY,
                Property::SrcW,
                Property::SrcH,
                Property::CrtcX,
                Property::CrtcY,
                Property::CrtcW,
                Property::CrtcH,
                Property::Rotation,
                Property::Alpha,
                Property::FbDamageClips,
                Property::InFenceFd,
            ],
        ),
    }
}

fn mode(width: u16) -> Mode {
    Mode {
        hdisplay: width,
        vdisplay: 1080,
        clock: 148_500,
        ..Mode::zeroed()
    }
}

fn empty_state() -> State {
    State {
        active: false,
        mode: Mode::zeroed(),
        blob: 0,
        vrr: false,
        connectors: IdSet::new(),
        color_state: ConnectorColorState::default(),
        resolved_color: ResolvedColorState::default(),
        crtc_color_state: CrtcColorState::default(),
        crtc_color_blobs: CrtcColorBlobs::default(),
        hdr_hardware_offload: false,
    }
}

fn surface() -> AtomicDrmSurface {
    AtomicDrmSurface::new(
        CRTC,
        PLANE,
        mapping(),
        empty_state(),
        mode(1920),
        700,
        &vec![CONN],
        &records(),
        true,
    )
    .unwrap()
}

fn plane_state(fb: u32) -> PlaneState {
    PlaneState {
        handle: PLANE,
        config: Some(PlaneConfig {
            src: SourceRect {
                x: 0,
                y: 0,
                w: 1920.0f64.to_bits(),
                h: 1080.0f64.to_bits(),
            },
            dst: Rectangle::new(Point { x: 0, y: 0 }, Size { w: 1920, h: 1080 }),
            transform: Transform::Normal,
            alpha: 1.0f32.to_bits(),
            damage_clips: None,
            fb,
            fence: None,
        }),
    }
}

fn is_send<S: Send>() {}

#[test]
fn surface_is_send() {
    is_send::<AtomicDrmSurface>();
}

#[test]
fn test_fixed_point() {
    let fixed = to_fixed(1920.0f64.to_bits()) as u64;
    assert_eq!(125829120, fixed);
}

#[test]
fn test_fractional_fixed_point() {
    let fixed = to_fixed(1920.1f64.to_bits()) as u64;
    assert_eq!(125835674, fixed);
}

#[test]
fn fixed_point_is_rounded() {
    for k in 0..5000u32 {
        let v = f64::from(k) * 13.0371;
        assert_eq!(to_fixed(v.to_bits()), (v * 65536.0).round() as u32);
    }
    assert_eq!(to_fixed((-3.0f64).to_bits()), 0);
    assert_eq!(to_fixed(f64::NAN.to_bits()), 0);
    assert_eq!(to_fixed(1e9f64.to_bits()), u32::MAX);
}

#[test]
fn rotations() {
    for (transform, bits) in [
        (Transform::Normal, 1),
        (Transform::_90, 2),
        (Transform::_180, 4),
        (Transform::_270, 8),
        (Transform::Flipped, 32),
        (Transform::Flipped90, 34),
        (Transform::Flipped180, 36),
        (Transform::Flipped270, 40),
    ] {
        assert_eq!(DrmRotation::from(transform).bits, bits);
    }
}

#[test]
fn property_names_are_read_back() {
    for property in [
        Property::CrtcId,
        Property::FbId,
        Property::InFenceFd,
        Property::HdrOutputMetadata,
        Property::MaxBpc,
        Property::VrrCapable,
    ] {
        assert_eq!(Property::from_kernel_name(property.kernel_name()), Some(property));
    }
    assert_eq!(Property::from_kernel_name("no such property"), None);
}

/// What a kernel request holds, as it prints itself.
fn printed(req: &AtomicModeReq) -> String {
    format!("{:?}", req)
}

#[test]
fn requests_reach_the_kernel_library() {
    let mapping = mapping();
    let req = AtomicRequest::build_request(
        &mapping,
        CRTC,
        Some(700),
        true,
        None,
        None,
        &vec![CONN],
        &vec![OTHER],
        &vec![plane_state(90)],
    )
    .unwrap();
    let write = |object, property| {
        req.writes
            .iter()
            .filter(|w| (w.object, w.property) == (object, property))
            .map(|w| w.value)
            .last()
    };
    assert_eq!(write(CONN, 600), Some(u64::from(CRTC)));
    assert_eq!(write(OTHER, 610), Some(0));
    assert_eq!(write(CRTC, 400), Some(1));
    assert_eq!(write(CRTC, 401), Some(700));
    assert_eq!(write(CRTC, 402), Some(1));
    assert_eq!(write(PLANE, 500), Some(u64::from(CRTC)));
    assert_eq!(write(PLANE, 501), Some(90));
    assert_eq!(write(PLANE, 504), Some(125829120));
    assert_eq!(write(PLANE, 511), Some(0xffff));

    let kernel = printed(&req.build());
    for value in ["700", "125829120", "610", "501"] {
        assert!(kernel.contains(value), "{value} is not in {kernel}");
    }
    assert_ne!(kernel, printed(&AtomicModeReq::new()));
}

#[test]
fn missing_properties_are_reported() {
    let bare = PropMapping {
        connectors: Vec::new(),
        crtcs: Vec::new(),
        planes: Vec::new(),
    };
    let mut req = AtomicRequest::new(&bare);
    assert_eq!(
        req.set_connector(CONN, CRTC, None),
        Err(RequestError {
            handle: CONN,
            property: Property::CrtcId
        })
    );
    assert!(req.writes.is_empty());
    assert!(bare.crtc_prop_handle(CRTC, Property::Active).is_err());
    assert_eq!(mapping().plane_prop_handle(PLANE, Property::FbId), Ok(501));
}

#[test]
fn page_flips_touch_only_planes() {
    let mapping = mapping();
    let mut req = AtomicRequest::new(&mapping);
    req.set_plane(CRTC, &plane_state(91)).unwrap();
    assert!(req.writes.iter().all(|w| w.object == PLANE));
    req.reset_plane(PLANE).unwrap();
    assert_eq!(req.writes.iter().filter(|w| w.property == 501).last().unwrap().value, 0);
}

#[test]
fn connectors_are_staged_after_a_test() {
    let mut surface = surface();
    assert!(surface.props_known(&vec![CONN, OTHER]));
    assert!(!surface.props_known(&vec![99]));
    assert_eq!(
        surface.check_connector(false, &vec![mode(1920)]),
        Err(Error::DeviceInactive)
    );
    assert_eq!(
        surface.check_connector(true, &vec![mode(1280)]),
        Err(Error::ModeNotSuitable(mode(1920)))
    );
    let (attempt, resolved) = surface
        .add_connector(true, OTHER, &vec![mode(1920)], &records(), 90)
        .unwrap();
    assert_eq!(attempt.flags, FULL_TEST);
    assert!(attempt.writes.iter().any(|w| w.object == OTHER));
    assert_eq!(
        surface.finish_add_connector(false, OTHER, ResolvedColorState::default()),
        Err(Error::TestFailed(CRTC))
    );
    assert!(!surface.pending_connectors().contains(OTHER));
    surface.finish_add_connector(true, OTHER, resolved).unwrap();
    assert!(surface.pending_connectors().contains(OTHER));

    surface.remove_connector(true, OTHER, 90).unwrap();
    surface.finish_remove_connector(true, OTHER).unwrap();
    assert!(!surface.pending_connectors().contains(OTHER));
    assert_eq!(
        surface.check_removal(true, CONN),
        Err(Error::SurfaceWithoutConnectors(CRTC))
    );
    assert_eq!(
        surface.check_connectors(true, &Vec::new()),
        Err(Error::SurfaceWithoutConnectors(CRTC))
    );
    let (_, resolved) = surface
        .set_connectors(true, &vec![CONN, OTHER], &records(), 90)
        .unwrap();
    surface
        .finish_set_connectors(true, &vec![CONN, OTHER], resolved)
        .unwrap();
    assert!(surface.pending_connectors().contains(OTHER));
    assert!(!surface.current_connectors().contains(OTHER));
}

#[test]
fn modes_are_staged_after_a_test() {
    let mut surface = surface();
    let attempt = surface.use_mode(true, mode(2560), 701, 90).unwrap();
    assert!(attempt.writes.iter().any(|w| w.property == 401 && w.value == 701));
    let refused = surface.finish_use_mode(false, mode(2560), 701).unwrap_err();
    assert_eq!(refused.error, Error::TestFailed(CRTC));
    assert_eq!(refused.destroy, vec![701]);
    assert_eq!(surface.pending_mode(), mode(1920));
    surface.finish_use_mode(true, mode(2560), 701).unwrap();
    assert_eq!(surface.pending_mode(), mode(2560));
    assert_eq!(surface.current_mode(), Mode::zeroed());
}

#[test]
fn commits_make_the_pending_state_current() {
    let mut surface = surface();
    assert!(surface.commit_pending());
    let planes = vec![plane_state(90)];
    assert_eq!(
        surface.commit(false, &planes).err(),
        Some(Error::DeviceInactive)
    );
    let test = surface.commit(true, &planes).unwrap();
    assert_eq!(test.flags & TEST_ONLY, TEST_ONLY);
    assert_eq!(
        surface.after_commit_test(test, false, PAGE_FLIP_EVENT).err(),
        Some(Error::TestFailed(CRTC))
    );
    assert_eq!(surface.after_test(true), Ok(()));
    assert_eq!(surface.after_test(false), Err(Error::TestFailed(CRTC)));
    let test = surface.commit(true, &planes).unwrap();
    let writes = test.writes.len();
    let plan = surface.after_commit_test(test, true, PAGE_FLIP_EVENT).unwrap();
    assert_eq!(plan.attempt.writes.len(), writes);
    assert_eq!(plan.attempt.flags, ALLOW_MODESET | PAGE_FLIP_EVENT);
    surface.finish_commit(false, &planes);
    assert!(surface.commit_pending());
    surface.finish_commit(true, &planes);
    assert!(!surface.commit_pending());
    assert_eq!(surface.current_mode(), mode(1920));
    assert!(surface.used_planes.contains(PLANE));

    let flip = surface.page_flip(true, &planes, PAGE_FLIP_EVENT).unwrap();
    assert!(flip.writes.iter().any(|w| w.object == PLANE));
    assert!(flip.writes.iter().all(|w| ![401, 403, 405, 601, 602].contains(&w.property)));
    assert_eq!(flip.flags & TEST_ONLY, 0);
    assert_eq!(flip.flags & NONBLOCK, NONBLOCK);
    surface.finish_page_flip(true, &planes);
    assert_eq!(surface.flip_flags(PAGE_FLIP_ASYNC) & PAGE_FLIP_ASYNC, PAGE_FLIP_ASYNC);

    let clear = surface.clear_plane(true, PLANE).unwrap();
    assert!(clear.writes.iter().all(|w| w.object == PLANE));
    surface.finish_clear_plane(true, PLANE);
    assert!(!surface.used_planes.contains(PLANE));
    let off = surface.clear_state(true).unwrap();
    assert!(off.writes.iter().any(|w| w.object == CRTC));
    surface.finish_clear_state(true);
    assert!(!surface.state.active);
}

#[test]
fn vrr_is_tried_without_a_modeset_first() {
    let mut surface = surface();
    let props = vec![PropValue { handle: 604, value: 1 }];
    assert_eq!(
        surface.vrr_supported(true, CONN, &props, INTERFACE_HDMIA),
        Ok(VrrSupport::RequiresModeset)
    );
    assert_eq!(
        surface.vrr_supported(true, CONN, &props, 10),
        Ok(VrrSupport::Supported)
    );
    assert_eq!(
        surface.vrr_supported(true, OTHER, &props, 10),
        Ok(VrrSupport::NotSupported)
    );
    assert_eq!(surface.vrr_property(CONN), Some(604));
    assert_eq!(surface.vrr_property(OTHER), None);
    assert_eq!(surface.check_vrr(false), Ok(false));
    assert_eq!(surface.check_vrr(true), Ok(true));
    match surface.use_vrr(true, 90).unwrap() {
        VrrPlan::Test { full, .. } => assert_eq!(full.flags & TEST_ONLY, TEST_ONLY),
        VrrPlan::Unchanged => panic!("it was off"),
    }
    assert!(surface.finish_use_vrr(true, false, false).is_err());
    surface.finish_use_vrr(true, false, true).unwrap();
    assert!(surface.vrr_enabled());
    assert!(matches!(surface.use_vrr(true, 90), Ok(VrrPlan::Unchanged)));
}

fn hdr_state() -> ConnectorColorState {
    ConnectorColorState {
        colorspace: Colorspace::Bt2020Rgb,
        hdr_metadata: Some(HdrOutputMetadata::pq_bt2020(1000, 1, 1000, 400)),
        max_bpc: Some(10),
        reference_white: None,
    }
}

fn records() -> Vec<ColorspaceRecord> {
    vec![ColorspaceRecord {
        property: 601,
        entries: Some(vec![
            EnumEntry {
                name: Some("Default".to_string()),
                value: 0,
            },
            EnumEntry {
                name: Some("BT2020_RGB".to_string()),
                value: 9,
            },
        ]),
    }]
}

#[test]
fn color_states_are_resolved_and_staged() {
    let mut surface = surface();
    assert_eq!(surface.color_state_changes(true, &hdr_state()), Ok(true));
    assert_eq!(
        surface.color_state_changes(true, &ConnectorColorState::default()),
        Ok(false)
    );
    let resolved = resolve_color_state(&mapping(), &records(), &hdr_state(), 800, &vec![CONN]).unwrap();
    assert_eq!(resolved.colorspace_value(CONN), Some(9));
    assert_eq!(resolved.hdr_blob, 800);
    assert_eq!(resolved.max_bpc, Some(10));
    assert!(resolve_color_state(&mapping(), &Vec::new(), &hdr_state(), 800, &vec![CONN]).is_err());
    assert_eq!(
        surface.supported_colorspaces(true, CONN, &records()),
        Ok(vec![Colorspace::Default, Colorspace::Bt2020Rgb])
    );
    assert_eq!(surface.hdr_metadata_supported(true, CONN), Ok(true));
    assert_eq!(surface.hdr_metadata_supported(true, OTHER), Ok(false));
    assert_eq!(surface.max_bpc_range(true, CONN, Some((6, 12))), Ok(Some((6, 12))));

    let staged = surface.use_color_state(&hdr_state(), 800, &records()).unwrap();
    let size = surface.offload_lut_size(
        &hdr_state(),
        true,
        Some(&vec![PropValue {
            handle: 404,
            value: 256,
        }]),
    );
    assert_eq!(size, Some(256));
    assert_eq!(surface.offload_lut_size(&hdr_state(), false, None), None);
    let white = |reference_white| {
        surface.offload_white(&ConnectorColorState {
            reference_white,
            ..hdr_state()
        })
    };
    assert_eq!(white(None), 203.0f32.to_bits());
    assert_eq!(white(Some(80.0f32.to_bits())), 80.0f32.to_bits());
    let request = surface
        .color_request(
            &staged,
            CrtcColorBlobs {
                gamma_blob: 801,
                ctm_blob: 0,
            },
            90,
        )
        .unwrap();
    assert!(request.writes.iter().any(|w| w.property == 403 && w.value == 801));
    let offload = Offload {
        lut: DrmColorLut::create_identity_lut(4),
        blob: 801,
        accepted: true,
    };
    let destroy = surface
        .finish_use_color_state(hdr_state(), staged, Some(offload), Ok(()))
        .unwrap();
    assert!(destroy.is_empty());
    assert!(surface.pending_hdr_hardware_offload());
    assert!(!surface.current_hdr_hardware_offload());
    assert_eq!(surface.pending_color_state(), hdr_state());
    assert_eq!(surface.current_color_state(), ConnectorColorState::default());
    assert!(surface.commit_pending());
}

#[test]
fn refused_color_states_leave_no_blobs() {
    let mut surface = surface();
    let staged = surface.use_color_state(&hdr_state(), 800, &records()).unwrap();
    let refused = surface
        .finish_use_color_state(hdr_state(), staged, None, Err(Error::TestFailed(CRTC)))
        .unwrap_err();
    assert_eq!(refused.error, Error::TestFailed(CRTC));
    assert!(refused.destroy.contains(&800));
    assert_eq!(surface.pending_color_state(), ConnectorColorState::default());
}

#[test]
fn crtc_color_states_are_checked() {
    let mut surface = surface();
    let wanted = CrtcColorState {
        gamma_lut: Some(DrmColorLut::create_identity_lut(4)),
        ctm: Some(DrmColorCtm::identity()),
        degamma_lut: None,
    };
    assert_eq!(surface.use_crtc_color_state(true, &wanted), Ok(true));
    assert_eq!(surface.use_crtc_color_state(false, &wanted), Err(Error::DeviceInactive));
    assert_eq!(surface.check_gamma_lut(&wanted), Ok(()));
    assert!(surface.check_ctm(&wanted, 801).is_ok());
    assert!(surface.crtc_has_ctm());
    let destroy = surface
        .finish_use_crtc_color_state(
            wanted.duplicate(),
            CrtcColorBlobs {
                gamma_blob: 801,
                ctm_blob: 802,
            },
            Ok(()),
        )
        .unwrap();
    assert!(destroy.is_empty());
    assert_eq!(surface.pending_crtc_color_state(), wanted);
    assert_eq!(surface.current_crtc_color_state(), CrtcColorState::default());
    assert_eq!(
        surface.crtc_gamma_lut_size(&vec![PropValue {
            handle: 404,
            value: 1024
        }]),
        Some(1024)
    );
    assert_eq!(surface.crtc_degamma_lut_size(&Vec::new()), None);
}

#[test]
fn states_are_read_back() {
    let metadata = HdrOutputMetadata::pq_bt2020(1000, 1, 1000, 400);
    let bytes = ffi::HdrOutputMetadata::new(metadata).to_bytes();
    let readout = ConnectorReadout {
        connector: CONN,
        crtc_typed: true,
        props: Some(vec![
            PropReadout {
                handle: 600,
                value: u64::from(CRTC),
                property: Some(Property::CrtcId),
                entries: None,
                blob: None,
            },
            PropReadout {
                handle: 601,
                value: 9,
                property: Some(Property::Colorspace),
                entries: Some(vec![EnumEntry {
                    name: Some("BT2020_RGB".to_string()),
                    value: 9,
                }]),
                blob: None,
            },
            PropReadout {
                handle: 602,
                value: 33,
                property: Some(Property::HdrOutputMetadata),
                entries: None,
                blob: Some(bytes),
            },
        ]),
    };
    let crtc = CrtcReadout {
        mode: Some((mode(1920), 700)),
        props: Some(vec![PropValue { handle: 400, value: 1 }]),
    };
    let state = State::current_state(&mapping(), CRTC, &crtc, &vec![readout]).unwrap();
    assert!(state.active);
    assert!(!state.vrr);
    assert_eq!(state.mode, mode(1920));
    assert!(state.connectors.contains(CONN));
    assert_eq!(state.color_state.colorspace, Colorspace::Bt2020Rgb);
    assert_eq!(state.color_state.hdr_metadata, Some(metadata));

    let mut copy = state.duplicate();
    copy.blob = 999;
    assert!(copy == state);
    copy.clear();
    assert!(!copy.active);
    assert!(copy != state);
}

#[test]
fn both_switches_are_read() {
    let handle = |property| mapping().crtcs.iter().find(|entry| entry.property == property).unwrap().handle;
    let (active, vrr) = (handle(Property::Active), handle(Property::VrrEnabled));
    let read = |props: Vec<(u32, u64)>| {
        let crtc = CrtcReadout {
            mode: None,
            props: Some(props.into_iter().map(|(handle, value)| PropValue { handle, value }).collect()),
        };
        let state = State::current_state(&mapping(), CRTC, &crtc, &Vec::new()).unwrap();
        (state.active, state.vrr)
    };
    assert_eq!(read(vec![(active, 1), (vrr, 1)]), (true, true));
    assert_eq!(read(vec![(vrr, 1), (active, 1)]), (true, true));
    assert_eq!(read(vec![(vrr, 0), (active, 1)]), (true, false));
    assert_eq!(read(vec![(active, 0), (1, 7), (vrr, 1)]), (false, true));
    assert_eq!(read(vec![(active, 1)]), (true, false));
}

#[test]
fn test_buffers_follow_the_signal() {
    assert_eq!(test_buffer_formats(true, true), (0x3033_4258, 0x3432_5258));
    assert_eq!(test_buffer_formats(true, false), (0x3432_5258, 0x3432_5258));
    assert_eq!(test_buffer_formats(false, true), (0x3033_4241, 0x3432_5241));
    assert_eq!(test_buffer_formats(false, false), (0x3432_5241, 0x3432_5241));
}

#[test]
fn offloading_is_asked_for() {
    for value in ["1", "true", "TRUE", "tRuE"] {
        assert!(offload_allowed(Some(value)));
    }
    for value in ["0", "", "yes", "truer", "11"] {
        assert!(!offload_allowed(Some(value)));
    }
    assert!(!offload_allowed(None));
}

#[test]
fn flags_are_those_of_the_kernel() {
    assert_eq!(
        PAGE_FLIP_EVENT,
        drm::control::AtomicCommitFlags::PAGE_FLIP_EVENT.bits()
    );
    assert_eq!(
        PAGE_FLIP_ASYNC,
        drm::control::AtomicCommitFlags::PAGE_FLIP_ASYNC.bits()
    );
    assert_eq!(TEST_ONLY, drm::control::AtomicCommitFlags::TEST_ONLY.bits());
    assert_eq!(NONBLOCK, drm::control::AtomicCommitFlags::NONBLOCK.bits());
    assert_eq!(ALLOW_MODESET, drm::control::AtomicCommitFlags::ALLOW_MODESET.bits());
    assert_eq!(FULL_TEST, TEST_ONLY | ALLOW_MODESET);
}

#[test]
fn a_reset_renews_what_is_pending() {
    let mut surface = surface();
    let mut state = empty_state();
    state.mode = mode(1280);
    surface.reset_state(state);
    assert_eq!(surface.current_mode(), mode(1280));
    assert_eq!(surface.pending_mode(), mode(1920));
    assert_eq!(surface.renew_mode_blob(701), 700);
    assert_eq!(surface.renew_mode_blob(702), 701);
    assert!(surface.renew_metadata_blob(0).is_empty());

    let staged = surface.use_color_state(&hdr_state(), 800, &records()).unwrap();
    surface
        .finish_use_color_state(hdr_state(), staged, None, Ok(()))
        .unwrap();
    assert_eq!(surface.renew_metadata_blob(801), vec![800]);
    assert_eq!(surface.renew_metadata_blob(802), vec![801]);
}

#[test]
fn without_the_property_the_rate_is_fixed() {
    let mut surface = surface();
    surface
        .prop_mapping
        .crtcs
        .retain(|entry| entry.property != Property::VrrEnabled);
    let props = vec![PropValue { handle: 604, value: 1 }];
    assert_eq!(
        surface.vrr_supported(true, CONN, &props, 10),
        Ok(VrrSupport::NotSupported)
    );
    assert_eq!(
        surface.vrr_supported(false, CONN, &props, 10),
        Err(Error::DeviceInactive)
    );
    assert_eq!(surface.vrr_property(CONN), None);
    assert_eq!(surface.check_vrr(false), Ok(false));
    assert!(matches!(surface.check_vrr(true), Err(Error::UnknownProperty(_))));
    assert!(matches!(surface.use_vrr(true, 90), Err(Error::UnknownProperty(_))));
}
