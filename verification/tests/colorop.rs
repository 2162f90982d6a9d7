//! Color pipelines of planes and how transforms are placed on them.

use hdr_backend::colorop::{
    missing_object, plane_color_pipelines, read_colorop, walk_pipeline, ColorOp, ColorOpKind, ColorOpObject,
    ColorPipeline, Curve1DType, EnumEntry, EnumInfo, Lut1DInterpolation, PropertyRecord, WalkError,
};
use hdr_backend::plan::{OpPlan, PostBlendEncode, ScanoutColorTransform};
use hdr_backend::resolved::{
    gamma_lut_words, lut32_words, lut_inputs, resolve, with_gain, BlobRequest, ResolvedColorPipeline,
};
use hdr_backend::softfloat::to_s31_32;

fn bits(v: f64) -> u64 {
    v.to_bits()
}

/// A number for each curve, as a driver would hand out.
fn number(curve: Curve1DType) -> u64 {
    match curve {
        Curve1DType::SrgbEotf => 0,
        Curve1DType::SrgbInvEotf => 1,
        Curve1DType::Pq125Eotf => 2,
        Curve1DType::Pq125InvEotf => 3,
        Curve1DType::Bt2020InvOetf => 4,
        Curve1DType::Bt2020Oetf => 5,
        Curve1DType::Gamma22 => 6,
        Curve1DType::Gamma22Inv => 7,
    }
}

fn op(id: u32, kind: ColorOpKind, bypassable: bool) -> ColorOp {
    // resolve() looks up properties by name; hand every op the full set with arbitrary
    // (nonzero) handles.
    let props = ["BYPASS", "CURVE_1D_TYPE", "MULTIPLIER", "DATA"]
        .iter()
        .enumerate()
        .map(|(i, name)| (name.to_string(), 1000 + id + i as u32))
        .collect();
    ColorOp {
        id,
        kind,
        bypassable,
        props,
    }
}

fn curve(id: u32, supported: &[Curve1DType], bypassable: bool) -> ColorOp {
    op(
        id,
        ColorOpKind::Curve1D {
            supported: supported.iter().map(|&c| (c, number(c))).collect(),
        },
        bypassable,
    )
}

/// The pipelines advertised by nvidia-drm on a GeForce RTX 5070 Ti, as discovered via
/// drm_info. Identical in shape on 610.43.03 and 615.71.09 (kernel 7.3), and on every
/// primary and overlay plane (cursor planes advertise no `COLOR_PIPELINE`). The colorop
/// object ids used here are the 610.43.03 primary plane's; they differ per plane and shift
/// between driver versions (+6 on 615.71.09), so nothing may depend on them.
///
/// The same driver exposes 1024-entry `GAMMA_LUT` and `DEGAMMA_LUT`, a `CTM` and the
/// vendor `NV_CRTC_REGAMMA_LUT` on the CRTCs.
///
/// "NVIDIA Full": 3x4 Matrix, 1D Curve {PQ 125 EOTF}, 1D LUT, Multiplier, 3x4 Matrix,
/// 1D Curve {PQ 125 Inverse EOTF} (non-bypassable), 3x4 Matrix, 1D LUT, 3x4 Matrix,
/// 1D Curve {PQ 125 EOTF} (non-bypassable), 3x4 Matrix.
fn nvidia_full() -> ColorPipeline {
    ColorPipeline {
        id: 58,
        ops: vec![
            op(58, ColorOpKind::Ctm3x4, true),
            curve(63, &[Curve1DType::Pq125Eotf], true),
            op(
                68,
                ColorOpKind::Lut1D {
                    size: 1024,
                    interpolation: Lut1DInterpolation::Linear,
                },
                true,
            ),
            op(75, ColorOpKind::Multiplier, true),
            op(80, ColorOpKind::Ctm3x4, true),
            curve(85, &[Curve1DType::Pq125InvEotf], false),
            op(89, ColorOpKind::Ctm3x4, true),
            op(
                94,
                ColorOpKind::Lut1D {
                    size: 1024,
                    interpolation: Lut1DInterpolation::Linear,
                },
                true,
            ),
            op(101, ColorOpKind::Ctm3x4, true),
            curve(106, &[Curve1DType::Pq125Eotf], false),
            op(110, ColorOpKind::Ctm3x4, true),
        ],
    }
}

/// "NVIDIA Lite": 3x4 Matrix, 1D Curve {PQ 125 EOTF}, 1D LUT, Multiplier, 3x4 Matrix.
fn nvidia_lite() -> ColorPipeline {
    ColorPipeline {
        id: 115,
        ops: vec![
            op(115, ColorOpKind::Ctm3x4, true),
            curve(120, &[Curve1DType::Pq125Eotf], true),
            op(
                125,
                ColorOpKind::Lut1D {
                    size: 1024,
                    interpolation: Lut1DInterpolation::Linear,
                },
                true,
            ),
            op(132, ColorOpKind::Multiplier, true),
            op(137, ColorOpKind::Ctm3x4, true),
        ],
    }
}

/// "NVIDIA FP Full": 3x4 Matrix, 3x4 Matrix, 1D Curve {PQ 125 Inverse EOTF}
/// (non-bypassable), 3x4 Matrix, 1D LUT, 3x4 Matrix, 1D Curve {PQ 125 EOTF}
/// (non-bypassable), 3x4 Matrix.
fn nvidia_fp_full() -> ColorPipeline {
    ColorPipeline {
        id: 142,
        ops: vec![
            op(142, ColorOpKind::Ctm3x4, true),
            op(147, ColorOpKind::Ctm3x4, true),
            curve(152, &[Curve1DType::Pq125InvEotf], false),
            op(156, ColorOpKind::Ctm3x4, true),
            op(
                161,
                ColorOpKind::Lut1D {
                    size: 1024,
                    interpolation: Lut1DInterpolation::Linear,
                },
                true,
            ),
            op(168, ColorOpKind::Ctm3x4, true),
            curve(173, &[Curve1DType::Pq125Eotf], false),
            op(177, ColorOpKind::Ctm3x4, true),
        ],
    }
}

/// "NVIDIA FP Lite": 3x4 Matrix, 3x4 Matrix.
fn nvidia_fp_lite() -> ColorPipeline {
    ColorPipeline {
        id: 182,
        ops: vec![
            op(182, ColorOpKind::Ctm3x4, true),
            op(187, ColorOpKind::Ctm3x4, true),
        ],
    }
}

fn nvidia_pipelines() -> Vec<ColorPipeline> {
    vec![nvidia_full(), nvidia_lite(), nvidia_fp_full(), nvidia_fp_lite()]
}

fn resolve_any(transform: &ScanoutColorTransform, pipelines: &[ColorPipeline]) -> bool {
    pipelines.iter().any(|p| transform.plan(p).is_some())
}

const BT709_TO_BT2020_VALUES: [f64; 12] = [
    0.6274, 0.3293, 0.0433, 0.0, //
    0.0691, 0.9195, 0.0114, 0.0, //
    0.0164, 0.0880, 0.8956, 0.0,
];

fn bt709_to_bt2020() -> [u64; 12] {
    BT709_TO_BT2020_VALUES.map(|v| v.to_bits())
}

/// The transform shapes niri uses on HDR (PQ blend space) outputs are inexpressible on
/// the nvidia-drm pipelines as long as they include the encode: the curve ops only offer
/// the PQ 125 pair (no Gamma 2.2 / sRGB curves), and the trailing non-bypassable
/// `PQ 125 Inverse EOTF` / `PQ 125 EOTF` pair means every pipeline ends in linear light,
/// so a transform whose final stage is an encode can never resolve. The encode has to
/// move behind blending instead, see `PostBlendEncode`.
#[test]
fn nvidia_pipelines_reject_pq_blend_transforms() {
    let pipelines = nvidia_pipelines();

    // SDR content on an HDR output: gamma 2.2 decode, reference-white gain, gamut
    // conversion, PQ encode.
    let sdr_on_hdr = ScanoutColorTransform {
        decode: Some(Curve1DType::Gamma22),
        multiplier: bits(203. / 80.),
        ctm: Some(bt709_to_bt2020()),
        encode: Some(Curve1DType::Pq125InvEotf),
    };
    assert!(!resolve_any(&sdr_on_hdr, &pipelines));

    // PQ content needing a PQ round-trip (e.g. non-BT.2020 container): rejected because
    // the trailing non-bypassable PQ 125 EOTF cannot be bypassed or used.
    let pq_reencode = ScanoutColorTransform {
        decode: Some(Curve1DType::Pq125Eotf),
        multiplier: bits(1.0),
        ctm: None,
        encode: Some(Curve1DType::Pq125InvEotf),
    };
    assert!(!resolve_any(&pq_reencode, &pipelines));

    // HDR content on an SDR output: PQ decode, gain, gamma 2.2 encode.
    let hdr_on_sdr = ScanoutColorTransform {
        decode: Some(Curve1DType::Pq125Eotf),
        multiplier: bits(80. / 203.),
        ctm: None,
        encode: Some(Curve1DType::Gamma22Inv),
    };
    assert!(!resolve_any(&hdr_on_sdr, &pipelines));
}

/// Transforms that end in linear light (no encode stage) fit the "NVIDIA Lite" pipeline:
/// nvidia planes decode and gain before blending, and the wire encode has to happen after
/// blending, on the CRTC `GAMMA_LUT`. KWin relies on exactly this split on nvidia: for a
/// single fullscreen scanout layer it retargets the plane at a normalized linear
/// intermediate and merges the trailing encode into the CRTC gamma LUT (KWin commit
/// 9ca199df4d, "offload a single fullscreen layer's trailing encode to the output
/// post-blend pipeline").
#[test]
fn nvidia_lite_accepts_linear_output_transforms() {
    let decode_and_gain = ScanoutColorTransform {
        decode: Some(Curve1DType::Pq125Eotf),
        multiplier: bits(2.0),
        ctm: None,
        encode: None,
    };
    let plan = decode_and_gain.plan(&nvidia_lite()).unwrap();
    // The named curve is preferred over filling the LUT with PQ.
    assert_eq!(
        plan,
        [
            OpPlan::Bypass,
            OpPlan::Curve(number(Curve1DType::Pq125Eotf)),
            OpPlan::Bypass,
            OpPlan::Multiplier(bits(2.0)),
            OpPlan::Bypass,
        ]
    );
    // The Full pipeline still rejects it: its trailing non-bypassable PQ pair is not
    // recognized as an identity.
    assert!(!resolve_any(&decode_and_gain, &[nvidia_full()]));
}

/// SDR content retargeted at a normalized linear intermediate (the plane half of a
/// post-blend encode) resolves on "NVIDIA Lite" by decoding gamma 2.2 in the 1D LUT, as
/// the pipeline has no SDR curve.
#[test]
fn nvidia_lite_decodes_sdr_in_lut() {
    let linear_max = 1000. / 80.;
    let sdr_linear = ScanoutColorTransform {
        decode: Some(Curve1DType::Gamma22),
        multiplier: bits(203. / 80. / linear_max),
        ctm: Some(bt709_to_bt2020()),
        encode: None,
    };
    let plan = sdr_linear.plan(&nvidia_lite()).unwrap();
    // The gain (0.2) keeps the decoded range within [0, 1], so it is folded into the LUT
    // and the matrix at the end only converts the gamut.
    assert_eq!(
        plan,
        [
            OpPlan::Bypass,
            OpPlan::Bypass,
            OpPlan::LutDecode {
                curve: Curve1DType::Gamma22,
                gain: bits(203. / 80. / linear_max),
            },
            OpPlan::Bypass,
            OpPlan::Ctm(bt709_to_bt2020()),
        ]
    );

    // With a gain above 1 the LUT normalizes and a later op applies the gain.
    let sdr_gain = ScanoutColorTransform {
        decode: Some(Curve1DType::Gamma22),
        multiplier: bits(2.5),
        ctm: None,
        encode: None,
    };
    let plan = sdr_gain.plan(&nvidia_lite()).unwrap();
    assert_eq!(
        plan[2],
        OpPlan::LutDecode {
            curve: Curve1DType::Gamma22,
            gain: bits(1.0)
        }
    );
    assert_eq!(plan[3], OpPlan::Multiplier(bits(2.5)));

    // PQ content with a gamut conversion, normalized: named PQ curve, gain, matrix.
    let pq_linear = ScanoutColorTransform {
        decode: Some(Curve1DType::Pq125Eotf),
        multiplier: bits(1. / linear_max),
        ctm: Some(bt709_to_bt2020()),
        encode: None,
    };
    let plan = pq_linear.plan(&nvidia_lite()).unwrap();
    assert_eq!(plan[1], OpPlan::Curve(number(Curve1DType::Pq125Eotf)));
    assert_eq!(plan[2], OpPlan::Bypass);
    assert_eq!(plan[3], OpPlan::Multiplier(bits(1. / linear_max)));
    assert_eq!(plan[4], OpPlan::Ctm(bt709_to_bt2020()));

    // "NVIDIA FP Lite" (two matrices) cannot decode at all.
    assert!(sdr_linear.plan(&nvidia_fp_lite()).is_none());
}

/// Control: an AMD-style pipeline (every op bypassable, SDR + PQ curves available)
/// resolves the same transforms the nvidia pipelines reject.
#[test]
fn bypassable_pipeline_accepts_pq_blend_transforms() {
    let all_curves = [
        Curve1DType::SrgbEotf,
        Curve1DType::SrgbInvEotf,
        Curve1DType::Pq125Eotf,
        Curve1DType::Pq125InvEotf,
        Curve1DType::Gamma22,
        Curve1DType::Gamma22Inv,
    ];
    let pipeline = ColorPipeline {
        id: 300,
        ops: vec![
            curve(300, &all_curves, true),
            op(310, ColorOpKind::Multiplier, true),
            curve(320, &all_curves, true),
        ],
    };

    let sdr_on_hdr = ScanoutColorTransform {
        decode: Some(Curve1DType::Gamma22),
        multiplier: bits(203. / 80.),
        ctm: None,
        encode: Some(Curve1DType::Pq125InvEotf),
    };
    assert!(resolve_any(&sdr_on_hdr, &[pipeline]));
}

#[test]
fn s31_32_encoding() {
    assert_eq!(to_s31_32(bits(0.0)), 0);
    assert_eq!(to_s31_32(bits(1.0)), 1 << 32);
    assert_eq!(to_s31_32(bits(2.5375)), (2.5375f64 * 4294967296.0).round() as u64);
    // Sign-magnitude: -1.0 is the magnitude of 1.0 with the sign bit set.
    assert_eq!(to_s31_32(bits(-1.0)), (1 << 63) | (1 << 32));
    assert_eq!(to_s31_32(bits(-0.5)), (1 << 63) | (1 << 31));
}

#[test]
fn identity_transform() {
    assert!(ScanoutColorTransform::default().is_identity());
    assert!(ScanoutColorTransform::default().is_identity());
    assert!(
        !ScanoutColorTransform {
            multiplier: bits(2.0),
            ..Default::default()
        }
        .is_identity()
    );
}

#[test]
fn post_blend_encode_scales_the_plane() {
    let encode = PostBlendEncode::for_hdr(bits(1000.0));
    assert_eq!(encode.encode, Curve1DType::Pq125InvEotf);
    assert_eq!(encode.linear_max, bits(12.5));
    assert_eq!(PostBlendEncode::for_hdr(bits(79.0)).linear_max, bits(1.0));
    assert_eq!(PostBlendEncode::for_hdr(f64::NAN.to_bits()).linear_max, bits(1.0));

    let transform = ScanoutColorTransform {
        decode: Some(Curve1DType::Gamma22),
        multiplier: bits(203. / 80.),
        ctm: Some(bt709_to_bt2020()),
        encode: Some(Curve1DType::Pq125InvEotf),
    };
    let left = encode.linear_transform(transform).unwrap();
    assert_eq!(left.multiplier, bits(203. / 80. / 12.5));
    assert_eq!(left.encode, None);
    assert_eq!(left.decode, transform.decode);
    assert_eq!(left.ctm, transform.ctm);
    assert!(left.plan(&nvidia_lite()).is_some());
    let other = ScanoutColorTransform {
        encode: Some(Curve1DType::SrgbInvEotf),
        ..transform
    };
    assert!(encode.linear_transform(other).is_none());

    assert_eq!(encode.inputs(1), None);
    let inputs = encode.inputs(1024).unwrap();
    for i in 0..1024u32 {
        assert_eq!(inputs[i as usize], bits(f64::from(i) / 1023. * 12.5));
    }
}

#[test]
fn tables_are_gray() {
    let inputs = lut_inputs(5);
    assert_eq!(inputs, [0.0, 0.25, 0.5, 0.75, 1.0].map(bits).to_vec());
    let scaled = with_gain(&inputs, bits(0.3));
    assert_eq!(scaled[3], bits(0.75 * 0.3));
    let words = lut32_words(&scaled);
    assert_eq!(words.len(), 20);
    for (i, entry) in words.chunks(4).enumerate() {
        let v = (f64::from_bits(scaled[i]).clamp(0.0, 1.0) * f64::from(u32::MAX)).round() as u32;
        assert_eq!(entry, [v, v, v, 0]);
    }
    let half = gamma_lut_words(&scaled).unwrap();
    for (i, entry) in half.chunks(4).enumerate() {
        let v = (f64::from_bits(scaled[i]).clamp(0.0, 1.0) * f64::from(u16::MAX)).round() as u16;
        assert_eq!(entry, [v, v, v, 0]);
    }
    assert_eq!(gamma_lut_words(&inputs[..1].to_vec()), None);
    assert_eq!(lut32_words(&lut_inputs(1)), vec![0, 0, 0, 0]);
}

#[test]
fn plans_become_properties() {
    let transform = ScanoutColorTransform {
        decode: Some(Curve1DType::Pq125Eotf),
        multiplier: bits(2.0),
        ctm: Some(bt709_to_bt2020()),
        encode: None,
    };
    let pipeline = nvidia_lite();
    let plans = transform.plan(&pipeline).unwrap();
    let mut blobs = Vec::new();
    for (op, plan) in pipeline.ops.iter().zip(&plans) {
        blobs.push(match plan.blob(op) {
            BlobRequest::Nothing => None,
            BlobRequest::Matrix(words) => {
                assert_eq!(words[0], to_s31_32(bits(BT709_TO_BT2020_VALUES[0])));
                assert_eq!(words[11], 0);
                Some(77)
            }
            BlobRequest::Table { .. } | BlobRequest::Impossible => panic!("no table is needed"),
        });
    }
    let resolved = resolve(&pipeline, &plans, &blobs).unwrap();
    assert_eq!(resolved.pipeline_id(), 115);
    assert_eq!(resolved.blobs, vec![77]);
    assert_eq!(resolved.post_blend(), None);
    assert_eq!(
        resolved.props().to_vec(),
        vec![
            (115, 1115, 1),
            (120, 1121, 2),
            (120, 1120, 0),
            (125, 1125, 1),
            (132, 1134, 2 << 32),
            (132, 1132, 0),
            (137, 1140, 77),
            (137, 1137, 0),
        ]
    );
    let without_blob: Vec<Option<u64>> = vec![None; 5];
    assert!(resolve(&pipeline, &plans, &without_blob).is_none());

    let with_lut = ResolvedColorPipeline::with_gamma_lut(Some(&resolved), 40, 41, Some(99));
    assert_eq!(with_lut.props().last(), Some(&(40, 41, 99)));
    assert_eq!(with_lut.blobs, vec![77, 99]);
    assert_eq!(with_lut.post_blend(), Some(true));
    let reset = ResolvedColorPipeline::with_gamma_lut(None, 40, 41, None);
    assert_eq!(reset.props().to_vec(), vec![(40, 41, 0)]);
    assert_eq!(reset.post_blend(), Some(false));
}

#[test]
fn cheaper_plans_are_preferred() {
    // Both the named curve and the table can decode; the table costs something.
    let decode = ScanoutColorTransform {
        decode: Some(Curve1DType::Pq125Eotf),
        ..ScanoutColorTransform::default()
    };
    let plan = decode.plan(&nvidia_lite()).unwrap();
    assert!(plan.iter().all(|p| !matches!(p, OpPlan::LutDecode { .. } | OpPlan::LutIdentity)));
    // The identity is free on pipelines that can be bypassed.
    let idle = ScanoutColorTransform::default().plan(&nvidia_lite()).unwrap();
    assert!(idle.iter().all(|p| *p == OpPlan::Bypass));
    assert!(ScanoutColorTransform::default().plan(&nvidia_full()).is_none());
}

fn record(handle: u32, name: &str, value: u64, choices: Option<EnumInfo>) -> PropertyRecord {
    PropertyRecord {
        handle,
        name: name.to_string(),
        value,
        choices,
    }
}

fn kind_record(name: &str) -> PropertyRecord {
    record(
        1,
        "TYPE",
        0,
        Some(EnumInfo {
            values: vec![0],
            entries: Vec::new(),
            selected: Some(name.to_string()),
        }),
    )
}

#[test]
fn pipelines_are_walked() {
    let curve_records = vec![
        kind_record("1D Curve"),
        record(2, "BYPASS", 1, None),
        record(3, "NEXT", 11, None),
        record(
            4,
            "CURVE_1D_TYPE",
            0,
            Some(EnumInfo {
                values: vec![5, 6],
                entries: vec![
                    EnumEntry {
                        name: Some("sRGB EOTF".to_string()),
                        value: 5,
                    },
                    EnumEntry {
                        name: Some("Something else".to_string()),
                        value: 6,
                    },
                ],
                selected: None,
            }),
        ),
    ];
    let read = read_colorop(10, &curve_records).unwrap();
    assert_eq!(read.next, 11);
    assert!(read.op.bypassable);
    assert_eq!(read.op.prop("BYPASS"), Some(2));
    assert_eq!(
        read.op.kind,
        ColorOpKind::Curve1D {
            supported: vec![(Curve1DType::SrgbEotf, 5)]
        }
    );

    let first = ColorOpObject {
        id: 10,
        properties: Some(curve_records),
    };
    let second = ColorOpObject {
        id: 11,
        properties: Some(vec![kind_record("Multiplier"), record(3, "NEXT", 0, None)]),
    };
    let looped = ColorOpObject {
        id: 11,
        properties: Some(vec![kind_record("Multiplier"), record(3, "NEXT", 10, None)]),
    };
    let unread = ColorOpObject {
        id: 11,
        properties: None,
    };
    let nameless = ColorOpObject {
        id: 11,
        properties: Some(Vec::new()),
    };
    let pipeline = walk_pipeline(&vec![first.clone(), second.clone()], 10).unwrap();
    assert_eq!(pipeline.id, 10);
    assert_eq!(pipeline.ops.len(), 2);
    assert_eq!(pipeline.ops[1].kind, ColorOpKind::Multiplier);
    assert!(!pipeline.ops[1].bypassable);
    assert_eq!(
        walk_pipeline(&vec![first.clone(), looped], 10).err(),
        Some(WalkError::TooLongOrCyclic)
    );
    assert_eq!(
        walk_pipeline(&vec![first.clone(), unread], 10).err(),
        Some(WalkError::Unreadable)
    );
    assert_eq!(
        walk_pipeline(&vec![first.clone(), nameless], 10).err(),
        Some(WalkError::UnknownOperation)
    );
    assert_eq!(
        walk_pipeline(&vec![first.clone()], 10).err(),
        Some(WalkError::NotRead(11))
    );

    let plane = vec![record(
        50,
        "COLOR_PIPELINE",
        0,
        Some(EnumInfo {
            values: vec![0, 10],
            entries: Vec::new(),
            selected: None,
        }),
    )];
    assert_eq!(missing_object(&plane, &Vec::new()), Some(10));
    assert_eq!(missing_object(&plane, &vec![first.clone()]), Some(11));
    let objects = vec![first, second];
    assert_eq!(missing_object(&plane, &objects), None);
    let pipelines = plane_color_pipelines(&plane, &objects);
    assert_eq!(pipelines.len(), 1);
    assert_eq!(pipelines[0].id, 10);
}

#[test]
fn curve_names_are_read_back() {
    for curve in [
        Curve1DType::SrgbEotf,
        Curve1DType::SrgbInvEotf,
        Curve1DType::Pq125Eotf,
        Curve1DType::Pq125InvEotf,
        Curve1DType::Bt2020InvOetf,
        Curve1DType::Bt2020Oetf,
        Curve1DType::Gamma22,
        Curve1DType::Gamma22Inv,
    ] {
        assert_eq!(Curve1DType::from_kernel_name(curve.kernel_name()), Some(curve));
    }
    assert_eq!(Curve1DType::from_kernel_name("PQ"), None);
    assert_eq!(Curve1DType::Pq125Eotf.output_max(), 125);
    assert_eq!(Curve1DType::Gamma22.output_max(), 1);
}

/// What a planned pipeline does to a pixel.
fn run(plans: &[OpPlan], pixel: [f64; 3]) -> [f64; 3] {
    plans.iter().fold(pixel, |p, plan| match plan {
        OpPlan::Bypass | OpPlan::LutIdentity => p,
        OpPlan::Multiplier(gain) => p.map(|v| v * f64::from_bits(*gain)),
        OpPlan::Ctm(m) => matrix(m, p),
        OpPlan::LutDecode { gain, .. } => p.map(|v| v.powf(2.2) * f64::from_bits(*gain)),
        OpPlan::Curve(value) => panic!("no curve {value} was asked for"),
    })
}

fn matrix(m: &[u64; 12], p: [f64; 3]) -> [f64; 3] {
    let at = |i: usize| f64::from_bits(m[i]);
    [0, 4, 8].map(|row| at(row) * p[0] + at(row + 1) * p[1] + at(row + 2) * p[2] + at(row + 3))
}

#[test]
fn plans_carry_the_transform_out() {
    let pixel = [0.2, 0.5, 0.9];
    for gain in [0.2, 1.0, 2.5] {
        let transform = ScanoutColorTransform {
            decode: Some(Curve1DType::Gamma22),
            multiplier: bits(gain),
            ctm: Some(bt709_to_bt2020()),
            encode: None,
        };
        let plan = transform.plan(&nvidia_lite()).unwrap();
        let expected = matrix(&bt709_to_bt2020(), pixel.map(|v: f64| v.powf(2.2) * gain));
        for (a, b) in run(&plan, pixel).into_iter().zip(expected) {
            assert!((a - b).abs() < 1e-12, "{a} {b}");
        }
    }
}

#[test]
fn gains_are_compared_by_value() {
    assert_eq!(OpPlan::Multiplier(bits(0.0)), OpPlan::Multiplier(bits(-0.0)));
    assert_ne!(OpPlan::Multiplier(bits(f64::NAN)), OpPlan::Multiplier(bits(f64::NAN)));
    assert_ne!(OpPlan::Multiplier(bits(1.0)), OpPlan::Curve(bits(1.0)));
    let zeros = [bits(0.0); 12];
    let mut others = [bits(-0.0); 12];
    assert_eq!(OpPlan::Ctm(zeros), OpPlan::Ctm(others));
    others[11] = bits(1.0);
    assert_ne!(OpPlan::Ctm(zeros), OpPlan::Ctm(others));
    let decode = |gain: f64| OpPlan::LutDecode {
        curve: Curve1DType::SrgbEotf,
        gain: bits(gain),
    };
    assert_eq!(decode(0.0), decode(-0.0));
    assert_ne!(decode(f64::NAN), decode(f64::NAN));

    let encode = |linear_max: f64| PostBlendEncode {
        encode: Curve1DType::Pq125InvEotf,
        linear_max: bits(linear_max),
    };
    assert_eq!(encode(0.0), encode(-0.0));
    assert_ne!(encode(f64::NAN), encode(f64::NAN));

    let transform = ScanoutColorTransform {
        ctm: Some(zeros),
        ..ScanoutColorTransform::default()
    };
    let mut other = transform;
    other.ctm = Some([bits(-0.0); 12]);
    assert_eq!(transform, other);
    other.ctm = None;
    assert_ne!(transform, other);
    other.multiplier = bits(f64::NAN);
    assert_ne!(other, other);
}
