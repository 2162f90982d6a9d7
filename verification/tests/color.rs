//! Connector signalling, lookup tables, matrices and scanout plans.

use hdr_backend::color::{
    Colorspace, ConnectorColorState, CrtcColorCapabilities, CrtcColorState, DrmColorCtm, DrmColorLut,
    LutCurve, LutRequest, PlaneColorConversion,
};
use hdr_backend::description::{ImageDescription, Primaries, TransferFunction};
use hdr_backend::ffi;
use hdr_backend::metadata::{CtaCoordinate, Eotf, HdrOutputMetadata};
use hdr_backend::scanout::{DrmScanoutCapabilities, ScanoutPlan};

fn srgb() -> ImageDescription {
    ImageDescription {
        transfer: TransferFunction::Srgb,
        primaries: Some(Primaries::Srgb),
        luminances: None,
        reference_luminance: 80,
        max_cll: None,
        mastering_luminance: None,
        windows_scrgb: false,
        windows_bt2100: false,
        is_pq_bt2020: false,
        is_hdr: false,
    }
}

fn bt2100() -> ImageDescription {
    ImageDescription {
        transfer: TransferFunction::Pq,
        primaries: Some(Primaries::Bt2020),
        reference_luminance: 203,
        windows_bt2100: true,
        is_pq_bt2020: true,
        is_hdr: true,
        ..srgb()
    }
}

fn scrgb() -> ImageDescription {
    ImageDescription {
        transfer: TransferFunction::ExtLinear,
        windows_scrgb: true,
        is_hdr: true,
        ..srgb()
    }
}

fn decoded(val: u64) -> f64 {
    f64::from_bits(DrmColorCtm::from_s31_32(val))
}

fn encoded(val: f64) -> u64 {
    DrmColorCtm::to_s31_32(val.to_bits())
}

fn encode_pq(value: f32) -> f32 {
    if value <= 0.0 {
        return 0.0;
    }
    let p = value.powf(0.159_301_76);
    ((0.8359375 + 18.851_563 * p) / (1.0 + 18.6875 * p)).powf(78.84375)
}

fn eval(curve: LutCurve, x: f32) -> f32 {
    match curve {
        LutCurve::PqEncode => encode_pq(x),
        LutCurve::SrgbEncode => {
            if x <= 0.0031308 {
                12.92 * x
            } else {
                1.055 * x.powf(1.0 / 2.4) - 0.055
            }
        }
        LutCurve::SrgbDecode => {
            if x <= 0.04045 {
                x / 12.92
            } else {
                ((x + 0.055) / 1.055).powf(2.4)
            }
        }
        LutCurve::PqDecode => {
            let p = f64::from(x).powf(1.0 / 78.84375);
            let num = (p - 0.8359375).max(0.0);
            let den = (18.8515625 - 18.6875 * p).max(1e-6);
            (num / den).powf(1.0 / 0.1593017578125) as f32
        }
        LutCurve::HlgDecode => {
            let a = 0.17883277f32;
            let b = 1.0 - 4.0 * a;
            let c = 0.5 - a * (4.0 * a).ln();
            if x <= 0.5 {
                x * x / 3.0
            } else {
                (((x - c) / a).exp() + b) / 12.0
            }
        }
    }
}

fn samples(curve: LutCurve, size: usize) -> Vec<u32> {
    let denom = (size - 1).max(1) as f32;
    (0..size)
        .map(|i| eval(curve, i as f32 / denom).to_bits())
        .collect()
}

fn color_state(conv: &PlaneColorConversion, gamma: usize, degamma: usize) -> CrtcColorState {
    let luts = conv.luts(gamma, degamma);
    let gamma_samples = samples(luts.gamma.0, luts.gamma.1);
    let degamma_samples = match luts.degamma {
        Some((curve, size)) => samples(curve, size),
        None => Vec::new(),
    };
    conv.to_crtc_color_state(gamma, degamma, &gamma_samples, &degamma_samples)
}

#[test]
fn hdr_output_metadata_layout() {
    let meta = ffi::HdrOutputMetadata::new(HdrOutputMetadata::pq_bt2020(500, 50, 400, 300));
    let bytes = meta.to_bytes();
    assert_eq!(bytes.len(), 32);

    // metadata_type: u32 = HDMI_STATIC_METADATA_TYPE1 (0)
    assert_eq!(&bytes[0..4], &0u32.to_le_bytes());
    // infoframe.eotf = SMPTE ST 2084 (PQ) = 2
    assert_eq!(bytes[4], 2);
    // infoframe.metadata_type = 0 (Static Metadata Type 1)
    assert_eq!(bytes[5], 0);
    // display_primaries[0] (red) = BT.2020 (0.708, 0.292) * 50000
    assert_eq!(&bytes[6..8], &35400u16.to_le_bytes());
    assert_eq!(&bytes[8..10], &14600u16.to_le_bytes());
    // display_primaries[1] (green) = (0.170, 0.797) * 50000
    assert_eq!(&bytes[10..12], &8500u16.to_le_bytes());
    assert_eq!(&bytes[12..14], &39850u16.to_le_bytes());
    // display_primaries[2] (blue) = (0.131, 0.046) * 50000
    assert_eq!(&bytes[14..16], &6550u16.to_le_bytes());
    assert_eq!(&bytes[16..18], &2300u16.to_le_bytes());
    // white_point = D65 (0.3127, 0.3290) * 50000
    assert_eq!(&bytes[18..20], &15635u16.to_le_bytes());
    assert_eq!(&bytes[20..22], &16450u16.to_le_bytes());
    // luminances and light levels
    assert_eq!(&bytes[22..24], &500u16.to_le_bytes());
    assert_eq!(&bytes[24..26], &50u16.to_le_bytes());
    assert_eq!(&bytes[26..28], &400u16.to_le_bytes());
    assert_eq!(&bytes[28..30], &300u16.to_le_bytes());
}

#[test]
fn hdr_output_metadata_roundtrip() {
    let meta = HdrOutputMetadata::pq_bt2020(1000, 1, 800, 400);
    let raw = ffi::HdrOutputMetadata::new(meta);
    let bytes = raw.to_bytes();
    assert_eq!(ffi::HdrOutputMetadata::parse(&bytes), Some(meta));
}

#[test]
fn metadata_that_is_not_understood_is_refused() {
    let bytes = ffi::HdrOutputMetadata::new(HdrOutputMetadata::pq_bt2020(1000, 1, 800, 400)).to_bytes();
    assert_eq!(ffi::HdrOutputMetadata::parse(&bytes[..29]), None);
    assert!(ffi::HdrOutputMetadata::parse(&bytes[..30]).is_some());
    let mut other_type = bytes.clone();
    other_type[0] = 1;
    assert_eq!(ffi::HdrOutputMetadata::parse(&other_type), None);
    let mut other_eotf = bytes.clone();
    other_eotf[4] = 4;
    assert_eq!(ffi::HdrOutputMetadata::parse(&other_eotf), None);
}

#[test]
fn eotf_numbers() {
    for (eotf, raw) in [
        (Eotf::TraditionalSdr, 0),
        (Eotf::TraditionalHdr, 1),
        (Eotf::SmpteSt2084, 2),
        (Eotf::Hlg, 3),
    ] {
        assert_eq!(eotf.to_raw(), raw);
        assert_eq!(Eotf::from_raw(raw), Some(eotf));
    }
    assert_eq!(Eotf::from_raw(4), None);
}

#[test]
fn cta_coordinate_from_xy() {
    let from_xy = |x: f64, y: f64| CtaCoordinate::from_xy(x.to_bits(), y.to_bits());
    assert_eq!(from_xy(0.708, 0.292), CtaCoordinate::bt2020_red());
    assert_eq!(from_xy(0.3127, 0.3290), CtaCoordinate::d65_white());
}

#[test]
fn cta_coordinate_saturates() {
    let from_xy = |x: f64, y: f64| CtaCoordinate::from_xy(x.to_bits(), y.to_bits());
    assert_eq!(from_xy(2.0, -1.0), CtaCoordinate { x: 65535, y: 0 });
    assert_eq!(from_xy(f64::NAN, 1.0), CtaCoordinate { x: 0, y: 50000 });
    for k in 0..500u32 {
        let v = f64::from(k) / 377.0;
        assert_eq!(from_xy(v, 0.0).x, (v * 50000.0).round() as u16);
    }
}

#[test]
fn colorspace_names_roundtrip() {
    for cs in [
        Colorspace::Default,
        Colorspace::Bt2020Rgb,
        Colorspace::Bt2020Ycc,
        Colorspace::DciP3RgbD65,
    ] {
        assert_eq!(Colorspace::from_kernel_name(cs.kernel_name().unwrap()), Some(cs));
    }
    assert_eq!(Colorspace::Unknown.kernel_name(), None);
}

#[test]
fn colorspace_names() {
    assert_eq!(Colorspace::Default.kernel_name(), Some("Default"));
    assert_eq!(Colorspace::Bt2020Rgb.kernel_name(), Some("BT2020_RGB"));
    assert_eq!(Colorspace::Bt2020Ycc.kernel_name(), Some("BT2020_YCC"));
    assert_eq!(Colorspace::DciP3RgbD65.kernel_name(), Some("DCI-P3_RGB_D65"));
    assert_eq!(Colorspace::from_kernel_name("XVYCC_601"), None);
}

#[test]
fn drm_color_lut_layout_and_generation() {
    assert_eq!(std::mem::size_of::<DrmColorLut>(), 8);
    assert_eq!(std::mem::size_of::<DrmColorCtm>(), 72);

    let scale = 203.0f32.clamp(80.0, 10_000.0) / 10_000.0;
    let pq: Vec<u32> = (0..1024)
        .map(|i| encode_pq(i as f32 / 1023.0 * scale).to_bits())
        .collect();
    let lut = DrmColorLut::from_samples(&pq);
    assert_eq!(lut.len(), 1024);
    assert_eq!(
        lut[0],
        DrmColorLut {
            red: 0,
            green: 0,
            blue: 0,
            reserved: 0
        }
    );

    // Diffuse white (203 nits) at top of input range corresponds to ~0.5807 in PQ code
    // 0.58068 * 65535 = 38055
    let white_val = lut[1023].red;
    assert!((white_val as i32 - 38055).abs() < 50, "white_val={white_val}");
}

#[test]
fn table_entries_are_rounded() {
    for k in -20..=120i32 {
        let v = k as f32 / 97.0;
        let entry = DrmColorLut::from_rgb(v.to_bits(), 0.5f32.to_bits(), f32::NAN.to_bits());
        assert_eq!(entry.red, (v.clamp(0.0, 1.0) * 65535.0).round() as u16);
        assert_eq!(entry.green, 32768);
        assert_eq!(entry.blue, 0);
        assert_eq!(entry.reserved, 0);
    }
}

#[test]
fn identity_table() {
    for size in [1usize, 2, 3, 17, 1000] {
        let lut = DrmColorLut::create_identity_lut(size);
        assert_eq!(lut.len(), size);
        let denom = (size - 1).max(1) as f32;
        for i in 0..size {
            let v = (i as f32 / denom * 65535.0).round() as u16;
            assert_eq!((lut[i].red, lut[i].green, lut[i].blue), (v, v, v));
        }
    }
}

#[test]
fn drm_color_ctm_s31_32_conversion() {
    assert_eq!(encoded(1.0), 1u64 << 32);
    assert_eq!(encoded(-1.0), (1u64 << 63) | (1u64 << 32));
    assert_eq!(encoded(0.5), 1u64 << 31);
    assert_eq!(encoded(-0.5), (1u64 << 63) | (1u64 << 31));

    for val in [0.0, 1.0, -1.0, 0.5, -0.5, 0.627404, -0.0163916] {
        let encoded = encoded(val);
        let decoded = decoded(encoded);
        assert!((decoded - val).abs() < 1e-9, "val={val} decoded={decoded}");
    }

    let ctm = DrmColorCtm::rec709_to_bt2020();
    let r0 = decoded(ctm.matrix[0]) + decoded(ctm.matrix[1]) + decoded(ctm.matrix[2]);
    let r1 = decoded(ctm.matrix[3]) + decoded(ctm.matrix[4]) + decoded(ctm.matrix[5]);
    let r2 = decoded(ctm.matrix[6]) + decoded(ctm.matrix[7]) + decoded(ctm.matrix[8]);
    assert!((r0 - 1.0).abs() < 2e-6);
    assert!((r1 - 1.0).abs() < 2e-6);
    assert!((r2 - 1.0).abs() < 2e-6);
}

#[test]
fn s31_32_numbers_survive_the_way_back() {
    for val in [1u64, 3, 0x1_0000_0000, 0x1f_ffff_ffff_ffff, (1 << 63) | 12345] {
        assert_eq!(DrmColorCtm::to_s31_32(DrmColorCtm::from_s31_32(val)), val);
    }
    assert_eq!(decoded(0x7fff_ffff_ffff_ffff), 2147483648.0);
    assert_eq!(decoded((1 << 63) | 0x8000_0000), -0.5);
    assert_eq!(DrmColorCtm::from_s31_32(1 << 63), (-0.0f64).to_bits());
}

#[test]
fn s31_32_numbers_are_the_nearest() {
    // 0.1 * 2^32 = 429496729.6 and 0.3 * 2^32 = 1288490188.8.
    assert_eq!(encoded(0.1), 429_496_730);
    assert_eq!(encoded(0.3), 1_288_490_189);
    assert_eq!(encoded(-0.1), (1 << 63) | 429_496_730);
    // Half a unit is rounded up.
    assert_eq!(encoded(1.0 / 8_589_934_592.0), 1);
    assert_eq!(encoded(0.9 / 8_589_934_592.0), 0);
}

#[test]
fn s31_32_fractions_are_carried() {
    assert_eq!(encoded(0.99999999999), 1 << 32);
    assert_eq!(encoded(-0.99999999999), (1 << 63) | (1 << 32));
    assert_eq!(encoded(6.99999999999), 7 << 32);
}

#[test]
fn s31_32_integers_have_31_bits() {
    for val in [2147483647.75f64, 2147483648.0, 4294967295.75, 1e12, 1e300, f64::INFINITY, f64::NAN, -0.0, 1e-300] {
        let integer = (val.abs().floor() as u64) & 0x7fff_ffff;
        let fraction = (val.abs().fract() * 4294967296.0).round() as u64;
        let sign = if val < 0.0 { 1u64 << 63 } else { 0 };
        assert_eq!(encoded(val), sign | (integer << 32) | fraction, "{val}");
    }
}

#[test]
fn gamut_matrices_are_exact() {
    let check = |ctm: DrmColorCtm, m: [f64; 9]| {
        for i in 0..9 {
            assert_eq!(ctm.matrix[i], encoded(m[i]));
        }
    };
    let to = [
        0.6274040, 0.3292820, 0.0433136, 0.0690970, 0.9195400, 0.0113612, 0.0163916, 0.0880132, 0.8955950,
    ];
    let back = [
        1.6604910, -0.5876411, -0.0728499, -0.1245505, 1.1328999, -0.0083494, -0.0181508, -0.1005789,
        1.1187297,
    ];
    check(DrmColorCtm::rec709_to_bt2020(), to);
    check(DrmColorCtm::bt2020_to_rec709(), back);
    check(DrmColorCtm::rec709_to_bt2020_scaled(0.3f64.to_bits()), to.map(|v| v * 0.3));
    check(DrmColorCtm::bt2020_to_rec709_scaled(0.7f64.to_bits()), back.map(|v| v * 0.7));
    check(
        DrmColorCtm::identity_scaled(2.5f64.to_bits()),
        [2.5, 0.0, 0.0, 0.0, 2.5, 0.0, 0.0, 0.0, 2.5],
    );
    check(
        DrmColorCtm::identity(),
        [1.0, 0.0, 0.0, 0.0, 1.0, 0.0, 0.0, 0.0, 1.0],
    );
    check(DrmColorCtm::from_3x3(back.map(|v| v.to_bits())), back);
}

#[test]
fn connector_color_state_is_hdr_and_equality() {
    let sdr = ConnectorColorState::default();
    assert!(!sdr.is_hdr());
    assert_eq!(sdr.reference_white, None);

    let hdr = ConnectorColorState {
        colorspace: Colorspace::Bt2020Rgb,
        hdr_metadata: Some(HdrOutputMetadata::pq_bt2020(1000, 1, 1000, 400)),
        max_bpc: Some(10),
        reference_white: Some(250.0f32.to_bits()),
    };
    assert!(hdr.is_hdr());

    let mut hdr2 = hdr;
    assert_eq!(hdr, hdr2);

    hdr2.reference_white = Some(300.0f32.to_bits());
    assert_ne!(hdr, hdr2);
}

#[test]
fn srgb_degamma_lut_generation() {
    let lut = DrmColorLut::from_samples(&samples(LutCurve::SrgbDecode, 1024));
    assert_eq!(lut.len(), 1024);
    assert_eq!(lut[0].red, 0);
    assert_eq!(lut[1023].red, 65535);

    // Mid-gray test: sRGB 0.5 (~128/255) decodes to ~0.214 in linear
    // 0.214 * 65535 = ~14024
    let mid = lut[512].red;
    assert!((mid as i32 - 14024).abs() < 100, "mid={mid}");
}

#[test]
fn drm_color_ctm_scaled() {
    let scale = 0.5f64;
    let ctm = DrmColorCtm::rec709_to_bt2020_scaled(scale.to_bits());
    let r0 = decoded(ctm.matrix[0]) + decoded(ctm.matrix[1]) + decoded(ctm.matrix[2]);
    assert!((r0 - scale).abs() < 2e-6, "r0={r0} scale={scale}");
}

#[test]
fn scanout_plan_evaluation() {
    let mut caps = DrmScanoutCapabilities {
        crtc_color: CrtcColorCapabilities {
            has_gamma_lut: true,
            gamma_lut_size: 4096,
            has_degamma_lut: true,
            degamma_lut_size: 4096,
            has_ctm: true,
        },
        supports_plane_colorop: false,
        primary_plane_formats: Vec::new(),
        supports_fp16: true,
        supports_10bit: true,
    };

    // 1. Tier 1: SDR on SDR (zero transform)
    let plan = caps.evaluate_scanout_plan(false, Some(&srgb()), 203);
    assert_eq!(plan, ScanoutPlan::DirectPassthrough);

    // 2. Tier 1: PQ BT.2020 on HDR (zero transform)
    let plan = caps.evaluate_scanout_plan(true, Some(&bt2100()), 203);
    assert_eq!(plan, ScanoutPlan::DirectPassthrough);

    // --- Target: SDR Output ---
    // 1. SDR sRGB on SDR output -> DirectPassthrough
    let plan = caps.evaluate_scanout_plan(false, Some(&srgb()), 203);
    assert_eq!(plan, ScanoutPlan::DirectPassthrough);

    // 2. scRGB on SDR output:
    // 2a. PlaneColorop
    caps.supports_plane_colorop = true;
    let plan = caps.evaluate_scanout_plan(false, Some(&scrgb()), 203);
    assert_eq!(plan, ScanoutPlan::PlaneColorop(PlaneColorConversion::ScRgbToSrgb));
    // 2b. CrtcHardware
    caps.supports_plane_colorop = false;
    let plan = caps.evaluate_scanout_plan(false, Some(&scrgb()), 203);
    assert_eq!(plan, ScanoutPlan::CrtcHardware(PlaneColorConversion::ScRgbToSrgb));
    // 2c. Fallback to Shader (no FP16)
    caps.supports_fp16 = false;
    let plan = caps.evaluate_scanout_plan(false, Some(&scrgb()), 203);
    assert_eq!(plan, ScanoutPlan::VulkanFastDirectFlip);
    caps.supports_fp16 = true;

    // 3. PQ BT.2020 on SDR output:
    // 3a. PlaneColorop
    caps.supports_plane_colorop = true;
    let plan = caps.evaluate_scanout_plan(false, Some(&bt2100()), 203);
    assert_eq!(plan, ScanoutPlan::PlaneColorop(PlaneColorConversion::PqToSrgb));
    // 3b. CrtcHardware
    caps.supports_plane_colorop = false;
    let plan = caps.evaluate_scanout_plan(false, Some(&bt2100()), 203);
    assert_eq!(plan, ScanoutPlan::CrtcHardware(PlaneColorConversion::PqToSrgb));
    // 3c. Fallback to Shader (missing DEGAMMA)
    caps.crtc_color.has_degamma_lut = false;
    let plan = caps.evaluate_scanout_plan(false, Some(&bt2100()), 203);
    assert_eq!(plan, ScanoutPlan::VulkanFastDirectFlip);
    caps.crtc_color.has_degamma_lut = true;

    // 4. HLG on SDR output:
    let mut hlg_desc = bt2100();
    hlg_desc.transfer = TransferFunction::Hlg;
    hlg_desc.is_pq_bt2020 = false;
    // 4a. PlaneColorop
    caps.supports_plane_colorop = true;
    let plan = caps.evaluate_scanout_plan(false, Some(&hlg_desc), 203);
    assert_eq!(plan, ScanoutPlan::PlaneColorop(PlaneColorConversion::HlgToSrgb));
    // 4b. CrtcHardware
    caps.supports_plane_colorop = false;
    let plan = caps.evaluate_scanout_plan(false, Some(&hlg_desc), 203);
    assert_eq!(plan, ScanoutPlan::CrtcHardware(PlaneColorConversion::HlgToSrgb));
    // 4c. Fallback to Shader (missing CTM)
    caps.crtc_color.has_ctm = false;
    let plan = caps.evaluate_scanout_plan(false, Some(&hlg_desc), 203);
    assert_eq!(plan, ScanoutPlan::VulkanFastDirectFlip);
    caps.crtc_color.has_ctm = true;

    // --- Target: HDR Output ---
    // 5. PQ BT.2020 on HDR output -> DirectPassthrough
    let plan = caps.evaluate_scanout_plan(true, Some(&bt2100()), 203);
    assert_eq!(plan, ScanoutPlan::DirectPassthrough);

    // 6. scRGB on HDR output:
    // 6a. PlaneColorop
    caps.supports_plane_colorop = true;
    let plan = caps.evaluate_scanout_plan(true, Some(&scrgb()), 203);
    assert!(matches!(
        plan,
        ScanoutPlan::PlaneColorop(PlaneColorConversion::ScRgbToPq { .. })
    ));
    // 6b. CrtcHardware
    caps.supports_plane_colorop = false;
    let plan = caps.evaluate_scanout_plan(true, Some(&scrgb()), 203);
    assert!(matches!(
        plan,
        ScanoutPlan::CrtcHardware(PlaneColorConversion::ScRgbToPq { .. })
    ));
    // 6c. Fallback to Shader (no CTM)
    caps.crtc_color.has_ctm = false;
    let plan = caps.evaluate_scanout_plan(true, Some(&scrgb()), 203);
    assert_eq!(plan, ScanoutPlan::VulkanFastDirectFlip);
    caps.crtc_color.has_ctm = true;

    // 7. sRGB on HDR output:
    // 7a. PlaneColorop
    caps.supports_plane_colorop = true;
    let plan = caps.evaluate_scanout_plan(true, Some(&srgb()), 203);
    assert!(matches!(
        plan,
        ScanoutPlan::PlaneColorop(PlaneColorConversion::SrgbToPq { .. })
    ));
    // 7b. CrtcHardware
    caps.supports_plane_colorop = false;
    let plan = caps.evaluate_scanout_plan(true, Some(&srgb()), 203);
    assert!(matches!(
        plan,
        ScanoutPlan::CrtcHardware(PlaneColorConversion::SrgbToPq { .. })
    ));
    // 7c. Fallback to Shader (no DEGAMMA)
    caps.crtc_color.has_degamma_lut = false;
    let plan = caps.evaluate_scanout_plan(true, Some(&srgb()), 203);
    assert_eq!(plan, ScanoutPlan::VulkanFastDirectFlip);
    caps.crtc_color.has_degamma_lut = true;

    // 8. HLG on HDR output:
    // 8a. PlaneColorop
    caps.supports_plane_colorop = true;
    let plan = caps.evaluate_scanout_plan(true, Some(&hlg_desc), 203);
    assert!(matches!(
        plan,
        ScanoutPlan::PlaneColorop(PlaneColorConversion::HlgToPq { .. })
    ));
    // 8b. CrtcHardware
    caps.supports_plane_colorop = false;
    let plan = caps.evaluate_scanout_plan(true, Some(&hlg_desc), 203);
    assert!(matches!(
        plan,
        ScanoutPlan::CrtcHardware(PlaneColorConversion::HlgToPq { .. })
    ));
    // 8c. Fallback to Shader (no DEGAMMA)
    caps.crtc_color.has_degamma_lut = false;
    let plan = caps.evaluate_scanout_plan(true, Some(&hlg_desc), 203);
    assert_eq!(plan, ScanoutPlan::VulkanFastDirectFlip);
    caps.crtc_color.has_degamma_lut = true;
}

#[test]
fn test_scrgb_to_pq_hardware_conversion_extended_range_and_negative() {
    let conv = PlaneColorConversion::ScRgbToPq { reference_white: 203 };
    let state = color_state(&conv, 4096, 4096);
    assert!(state.degamma_lut.is_none());
    assert!(state.ctm.is_some());
    assert!(state.gamma_lut.is_some());

    let ctm = state.ctm.unwrap();
    let gamma_lut = state.gamma_lut.unwrap();
    assert_eq!(gamma_lut.len(), 4096);

    // Helper to apply 3x3 CTM to RGB vector
    let apply_ctm = |rgb: [f64; 3]| -> [f64; 3] {
        let m00 = decoded(ctm.matrix[0]);
        let m01 = decoded(ctm.matrix[1]);
        let m02 = decoded(ctm.matrix[2]);
        let m10 = decoded(ctm.matrix[3]);
        let m11 = decoded(ctm.matrix[4]);
        let m12 = decoded(ctm.matrix[5]);
        let m20 = decoded(ctm.matrix[6]);
        let m21 = decoded(ctm.matrix[7]);
        let m22 = decoded(ctm.matrix[8]);
        [
            m00 * rgb[0] + m01 * rgb[1] + m02 * rgb[2],
            m10 * rgb[0] + m11 * rgb[1] + m12 * rgb[2],
            m20 * rgb[0] + m21 * rgb[1] + m22 * rgb[2],
        ]
    };

    // 1. Negative values test (wide color gamut in Rec.709 coordinates)
    // BT.2020 pure green in Rec.709 primaries has negative Red and Blue:
    // [-0.4677, 1.0772, -0.0298]
    let wide_gamut_green_scrgb = [-0.4677, 1.0772, -0.0298];
    let transformed = apply_ctm(wide_gamut_green_scrgb);
    // After rec709_to_bt2020 rotation and luminance scaling, coordinates must be non-negative!
    assert!(transformed[0] >= -1e-4, "Red was negative: {}", transformed[0]);
    assert!(
        transformed[1] > 0.0,
        "Green should be positive: {}",
        transformed[1]
    );
    assert!(transformed[2] >= -1e-4, "Blue was negative: {}", transformed[2]);

    // 2. Nominal white test: scRGB 1.0 maps to 203 nits in PQ
    let white_scrgb = [1.0, 1.0, 1.0];
    let white_out = apply_ctm(white_scrgb);
    let expected_linear = 203.0 / 10000.0;
    assert!((white_out[0] - expected_linear).abs() < 1e-5);
    assert!((white_out[1] - expected_linear).abs() < 1e-5);
    assert!((white_out[2] - expected_linear).abs() < 1e-5);

    // 3. Extended range HDR highlight test: values exceeding 1.0
    // E.g. 1000 nits highlight: 1000 / 203 = ~4.926 in scRGB
    let highlight_scrgb = [4.926108, 4.926108, 4.926108];
    let highlight_out = apply_ctm(highlight_scrgb);
    // 1000 / 10000 = 0.1, which MUST be <= 1.0 so hardware 1D LUT does NOT clamp it!
    assert!((highlight_out[0] - 0.100).abs() < 1e-3);
    assert!(
        highlight_out[0] <= 1.0,
        "Highlight must not exceed LUT domain [0, 1]!"
    );

    // 4. Maximum HDR luminance (10,000 nits): 10000 / 203 = 49.261 in scRGB
    let max_hdr_scrgb = [49.26108, 49.26108, 49.26108];
    let max_out = apply_ctm(max_hdr_scrgb);
    assert!((max_out[0] - 1.000).abs() < 1e-3, "10,000 nits must map to 1.0!");

    // 5. Verify GAMMA_LUT encodes ST 2084 PQ continuously without clipping
    // At index 0 (0.0): 0
    assert_eq!(gamma_lut[0].red, 0);
    // At index corresponding to 0.1 (1000 nits): PQ(0.1) = ~0.7518 -> ~49270 in u16
    let idx_1000nits = (0.1 * 4095.0) as usize;
    let pq_1000 = gamma_lut[idx_1000nits].red;
    assert!((pq_1000 as i32 - 49270).abs() < 200, "pq_1000={pq_1000}");
    // At index 4095 (1.0 = 10,000 nits): PQ(1.0) = 1.0 -> 65535 in u16
    assert_eq!(gamma_lut[4095].red, 65535);
}

#[test]
fn test_srgb_to_pq_hardware_conversion_full_precision_and_black_level() {
    let conv = PlaneColorConversion::SrgbToPq { reference_white: 335 };
    let state = color_state(&conv, 4096, 4096);
    assert!(state.degamma_lut.is_some());
    assert!(state.ctm.is_some());
    assert!(state.gamma_lut.is_some());

    let degamma_lut = state.degamma_lut.unwrap();
    let ctm = state.ctm.unwrap();
    let gamma_lut = state.gamma_lut.unwrap();

    assert_eq!(degamma_lut.len(), 4096);
    assert_eq!(gamma_lut.len(), 4096);

    // 1. DEGAMMA linearizes sRGB
    assert_eq!(degamma_lut[0].red, 0);
    assert_eq!(degamma_lut[4095].red, 65535);

    // 2. CTM is scaled Rec.709 to BT.2020 matrix (row sums = scale)
    let scale = 335.0 / 10000.0;
    let m00 = decoded(ctm.matrix[0]);
    let m01 = decoded(ctm.matrix[1]);
    let m02 = decoded(ctm.matrix[2]);
    let r0 = m00 + m01 + m02;
    assert!(
        (r0 - scale).abs() < 2e-6,
        "r0={r0} must be scale={scale} (scaled CTM)"
    );

    // 3. GAMMA_LUT maps linear [0.0, 1.0] to canonical PQ [0.0, 10,000 nits]
    // Entry 0 must be STRICTLY 0 (0.0 nits true black, no washed out / lifted black)
    assert_eq!(gamma_lut[0].red, 0);
    assert_eq!(gamma_lut[0].green, 0);
    assert_eq!(gamma_lut[0].blue, 0);

    // Entry 4095 is 10,000 nits -> 65535
    assert_eq!(gamma_lut[4095].red, 65535);

    // At index corresponding to 335 nits (335 / 10000 = 0.0335):
    let idx_335 = (scale * 4095.0) as usize;
    let expected_white = (encode_pq(335.0 / 10000.0) * 65535.0).round() as u16;
    assert!((gamma_lut[idx_335].red as i32 - expected_white as i32).abs() < 500);
}

#[test]
fn conversions_choose_their_tables() {
    let hlg = PlaneColorConversion::HlgToPq { reference_white: 0 };
    assert_eq!(
        hlg.luts(0, 256),
        LutRequest {
            gamma: (LutCurve::PqEncode, 4096),
            degamma: Some((LutCurve::HlgDecode, 256)),
        }
    );
    assert_eq!(
        PlaneColorConversion::PqToSrgb.luts(64, 0),
        LutRequest {
            gamma: (LutCurve::SrgbEncode, 64),
            degamma: None,
        }
    );
    let state = color_state(&hlg, 16, 16);
    let ctm = state.ctm.unwrap();
    assert_eq!(ctm.matrix[0], encoded(0.1));
    assert_eq!(ctm.matrix[1], 0);
    assert_eq!(color_state(&PlaneColorConversion::ScRgbToSrgb, 16, 16).ctm, None);
}

#[test]
fn whites_and_sizes_have_defaults() {
    let to_pq = |scrgb, srgb, hlg| {
        [
            PlaneColorConversion::ScRgbToPq { reference_white: scrgb },
            PlaneColorConversion::SrgbToPq { reference_white: srgb },
            PlaneColorConversion::HlgToPq { reference_white: hlg },
        ]
    };
    for (a, b) in to_pq(0, 0, 0).iter().zip(&to_pq(80, 203, 1000)) {
        assert_eq!(a.luts(64, 64), b.luts(64, 64));
        let (a, b) = (color_state(a, 64, 64), color_state(b, 64, 64));
        assert_eq!(a.ctm, b.ctm);
        assert_eq!(a.gamma_lut, b.gamma_lut);
        assert_eq!(a.degamma_lut, b.degamma_lut);
    }
    for conv in to_pq(100, 200, 300) {
        assert_eq!(conv.luts(0, 64), conv.luts(4096, 64));
        assert_eq!(conv.luts(64, 0).gamma, (LutCurve::PqEncode, 64));
    }
    assert_eq!(DrmColorCtm::default(), DrmColorCtm::identity());
}

#[test]
fn hlg_needs_a_matrix() {
    let mut caps = DrmScanoutCapabilities::default();
    assert_eq!(caps, DrmScanoutCapabilities::default());
    caps.crtc_color.has_gamma_lut = true;
    caps.crtc_color.has_degamma_lut = true;
    assert!(!caps.supports_hlg_to_hdr_hardware_scanout());
    let hlg = ImageDescription {
        transfer: TransferFunction::Hlg,
        ..srgb()
    };
    assert_eq!(
        caps.evaluate_scanout_plan(true, Some(&hlg), 203),
        ScanoutPlan::VulkanFastDirectFlip
    );
    caps.crtc_color.has_ctm = true;
    assert!(caps.supports_hlg_to_hdr_hardware_scanout());
    assert!(matches!(
        caps.evaluate_scanout_plan(true, Some(&hlg), 203),
        ScanoutPlan::CrtcHardware(PlaneColorConversion::HlgToPq { .. })
    ));
}

#[test]
fn color_states_compare_by_bits() {
    let state = |white: f32| ConnectorColorState {
        reference_white: Some(white.to_bits()),
        ..ConnectorColorState::default()
    };
    assert!(state(f32::NAN) == state(f32::NAN));
    assert!(state(0.0) != state(-0.0));
    assert!(state(80.0) == state(80.0));
    assert!(state(80.0) != ConnectorColorState::default());
}

#[test]
fn more_hardware_is_never_worse() {
    let caps = DrmScanoutCapabilities {
        crtc_color: CrtcColorCapabilities {
            has_gamma_lut: true,
            gamma_lut_size: 4096,
            has_degamma_lut: true,
            degamma_lut_size: 4096,
            has_ctm: true,
        },
        supports_plane_colorop: false,
        primary_plane_formats: Vec::new(),
        supports_fp16: true,
        supports_10bit: true,
    };
    let with_colorop = DrmScanoutCapabilities {
        supports_plane_colorop: true,
        ..caps.clone()
    };
    for desc in [srgb(), bt2100(), scrgb()] {
        for hdr in [false, true] {
            let plain = caps.evaluate_scanout_plan(hdr, Some(&desc), 203);
            let more = with_colorop.evaluate_scanout_plan(hdr, Some(&desc), 203);
            assert!(plain.allows_primary_scanout());
            assert!(more.allows_primary_scanout());
            assert_eq!(plain.requires_crtc_color_state(), more.requires_plane_colorop());
        }
    }
}

#[test]
fn tables_are_sampled_evenly() {
    let inputs: Vec<f32> = DrmColorLut::inputs(5).into_iter().map(f32::from_bits).collect();
    assert_eq!(inputs, vec![0.0, 0.25, 0.5, 0.75, 1.0]);
    assert_eq!(DrmColorLut::inputs(1), vec![0]);
    assert_eq!(
        DrmColorLut::from_samples(&DrmColorLut::inputs(5)),
        DrmColorLut::create_identity_lut(5)
    );
}

#[test]
fn table_entries_start_at_zero() {
    let entry = DrmColorLut::default();
    assert_eq!((entry.red, entry.green, entry.blue, entry.reserved), (0, 0, 0, 0));
}
