//! HDR parameters of the renderers, color curves and lookup tables.

use hdr_backend::barrier::Barrier;
use hdr_backend::color32::Color32F;
use hdr_backend::description::{ImageDescription, Primaries, TransferFunction};
use hdr_backend::gles::{self, update_hdr_surface_uniforms, SurfaceUniforms, Uniform};
use hdr_backend::hdr::{needs_hdr_to_sdr, peak_of, white_of, ColorPath, HdrOutputConfig, HdrParameters};
use hdr_backend::image::Error;
use hdr_backend::lut3d::{
    generate_identity_lut, lut_grid, pack_lut, Lut3dTexture, LutColor, LutError, LutRelease, LutStep,
    TransferRelease,
};
use hdr_backend::memory::{MemoryHeap, MemoryProperties, MemoryType};
use hdr_backend::softfloat;
use hdr_backend::vk::is_hdr_vk_format;

fn b(v: f32) -> u32 {
    v.to_bits()
}

fn f32_to_f16(val: f32) -> u16 {
    softfloat::f32_to_f16(val.to_bits())
}

fn rec709_to_bt2020(rgb: [f64; 3]) -> [f64; 3] {
    [
        0.6274040 * rgb[0] + 0.3292820 * rgb[1] + 0.0433136 * rgb[2],
        0.0690970 * rgb[0] + 0.9195400 * rgb[1] + 0.0113612 * rgb[2],
        0.0163916 * rgb[0] + 0.0880132 * rgb[1] + 0.8955950 * rgb[2],
    ]
}

#[test]
fn rec709_to_bt2020_preserves_neutral_white() {
    let white = rec709_to_bt2020([1.0, 1.0, 1.0]);
    assert!(white.into_iter().all(|c| (c - 1.0).abs() < 2e-6));
}

fn st2084_encode(luminance_nits: f64) -> f64 {
    let y = (luminance_nits / 10_000.0).max(0.0);
    let m1 = 0.1593017578125;
    let m2 = 78.84375;
    let c1 = 0.8359375;
    let c2 = 18.8515625;
    let c3 = 18.6875;
    let p = y.powf(m1);
    ((c1 + c2 * p) / (1.0 + c3 * p)).powf(m2)
}

#[test]
fn st2084_matches_reference_code_values() {
    assert!((st2084_encode(100.0) - 0.5081).abs() < 0.0002);
    assert!((st2084_encode(203.0) - 0.5807).abs() < 0.0002);
    assert!((st2084_encode(1_000.0) - 0.7518).abs() < 0.0002);
    assert!((st2084_encode(10_000.0) - 1.0).abs() < 1e-12);
}

fn st2084_decode(code: f64) -> f64 {
    let m1 = 0.1593017578125;
    let m2 = 78.84375;
    let c1 = 0.8359375;
    let c2 = 18.8515625;
    let c3 = 18.6875;
    let p = code.clamp(0.0, 1.0).powf(1.0 / m2);
    let y = ((p - c1).max(0.0) / (c2 - c3 * p)).powf(1.0 / m1);
    y * 10_000.0
}

fn pq_rescale(code: f64, content_ref: f64, ref_white: f64) -> f64 {
    let ref_scale = ref_white.clamp(80.0, 10_000.0) / content_ref.max(80.0);
    if (ref_scale - 1.0).abs() < 0.001 {
        return code;
    }
    let linear = st2084_decode(code) * ref_scale;
    st2084_encode(linear)
}

#[test]
fn pq_rescale_preserves_code_when_reference_whites_match() {
    let code_203 = st2084_encode(203.0);
    assert_eq!(pq_rescale(code_203, 203.0, 203.0), code_203);
}

#[test]
fn pq_rescale_scales_diffuse_white_to_target_reference_white() {
    let code_203 = st2084_encode(203.0);
    let rescaled_to_300 = pq_rescale(code_203, 203.0, 300.0);
    let decoded_nits = st2084_decode(rescaled_to_300);
    assert!((decoded_nits - 300.0).abs() < 0.1);
}

fn hlg_to_scene(e: f64) -> f64 {
    let a = 0.17883277;
    let b = 0.28466892;
    let c = 0.55991073;
    let e = e.clamp(0.0, 1.0);
    if e <= 0.5 {
        (e * e) / 3.0
    } else {
        (((e - c) / a).exp() + b) / 12.0
    }
}

fn hlg_to_nits(e: f64) -> f64 {
    let scene = hlg_to_scene(e);
    let ys = scene;
    let gain = ys.max(1e-6).powf(0.2) * 1000.0;
    scene * gain
}

#[test]
fn hlg_matches_itu_bt2100_and_bt2408_levels() {
    assert_eq!(hlg_to_scene(0.0), 0.0);
    assert_eq!(hlg_to_nits(0.0), 0.0);
    assert!((hlg_to_scene(0.5) - 0.25 / 3.0).abs() < 1e-6);

    let white_nits = hlg_to_nits(0.75);
    assert!((white_nits - 203.0).abs() < 1.0);

    let peak_nits = hlg_to_nits(1.0);
    assert!((peak_nits - 1000.0).abs() < 1.0);
}

fn p3_to_bt2020(rgb: [f64; 3]) -> [f64; 3] {
    [
        0.7538330 * rgb[0] + 0.1985974 * rgb[1] + 0.0475696 * rgb[2],
        0.0457438 * rgb[0] + 0.9417772 * rgb[1] + 0.0124789 * rgb[2],
        -0.0012103 * rgb[0] + 0.0176017 * rgb[1] + 0.9836086 * rgb[2],
    ]
}

#[test]
fn display_p3_to_bt2020_preserves_neutral_white() {
    let white = p3_to_bt2020([1.0, 1.0, 1.0]);
    assert!(white.into_iter().all(|c| (c - 1.0).abs() < 2e-6));
}

#[test]
fn test_sdr_tonemapping_with_reference() {
    let config = HdrOutputConfig::sdr_tonemapping_with_reference(b(350.0));
    assert_eq!(config.reference_white, b(350.0));
    assert_eq!(config.max_luminance, b(350.0));
    assert!(config.is_sdr);
    assert_eq!(config.sdr_gamma, b(0.0));
}

#[test]
fn hdr_output_defaults() {
    let config = HdrOutputConfig::default();
    assert_eq!(config.reference_white, b(203.0));
    assert_eq!(config.sdr_gamma, b(2.2));
    assert_eq!(config.gamut_stretch, b(0.0));
    assert_eq!(config.max_luminance, b(1000.0));
    assert!(!config.hardware_offload);
    assert!(!config.is_sdr);
    assert_eq!(
        HdrOutputConfig::sdr_tonemapping(),
        HdrOutputConfig::sdr_tonemapping_with_reference(b(203.0))
    );
    let new = HdrOutputConfig::new(b(100.0), b(2.4), b(0.5), b(600.0), true);
    assert_eq!(new.gamut_stretch, b(0.5));
    assert!(new.hardware_offload);
    assert!(!new.is_sdr);
}

#[test]
fn test_is_hdr_vk_format() {
    assert!(is_hdr_vk_format(ash::vk::Format::A2B10G10R10_UNORM_PACK32.as_raw()));
    assert!(is_hdr_vk_format(ash::vk::Format::A2R10G10B10_UNORM_PACK32.as_raw()));
    assert!(is_hdr_vk_format(ash::vk::Format::R16G16B16A16_SFLOAT.as_raw()));
    assert!(is_hdr_vk_format(ash::vk::Format::R16G16B16A16_UNORM.as_raw()));
    assert!(!is_hdr_vk_format(ash::vk::Format::B8G8R8A8_UNORM.as_raw()));
    assert!(!is_hdr_vk_format(ash::vk::Format::R8G8B8A8_UNORM.as_raw()));
    assert!(!is_hdr_vk_format(ash::vk::Format::B8G8R8A8_SRGB.as_raw()));
}

#[test]
fn test_blit_hdr_to_sdr_condition() {
    let check_needs_hdr_to_sdr = |from: ash::vk::Format, to: ash::vk::Format, config: Option<HdrOutputConfig>| {
        needs_hdr_to_sdr(from.as_raw(), to.as_raw(), config)
    };

    let sdr_10bit = ash::vk::Format::A2B10G10R10_UNORM_PACK32;
    let sdr_8bit = ash::vk::Format::R8G8B8A8_UNORM;
    let hdr_fp16 = ash::vk::Format::R16G16B16A16_SFLOAT;

    let sdr_config = Some(HdrOutputConfig::sdr_tonemapping());
    let hdr_config = Some(HdrOutputConfig::default());

    // 1. SDR screen with 10-bit swapchain copied to 8-bit OBS buffer -> must NOT trigger HDR-to-SDR
    assert!(!check_needs_hdr_to_sdr(sdr_10bit, sdr_8bit, sdr_config));

    // 2. SDR screen with no hdr_config -> must NOT trigger HDR-to-SDR
    assert!(!check_needs_hdr_to_sdr(sdr_10bit, sdr_8bit, None));

    // 3. HDR screen with 10-bit swapchain copied to 8-bit OBS buffer -> MUST trigger HDR-to-SDR
    assert!(check_needs_hdr_to_sdr(sdr_10bit, sdr_8bit, hdr_config));

    // 4. HDR screen with FP16 swapchain copied to 8-bit OBS buffer -> MUST trigger HDR-to-SDR
    assert!(check_needs_hdr_to_sdr(hdr_fp16, sdr_8bit, hdr_config));

    // 5. HDR screen copied to HDR 10-bit capture buffer -> must NOT trigger HDR-to-SDR (passthrough)
    assert!(!check_needs_hdr_to_sdr(sdr_10bit, sdr_10bit, hdr_config));
}

#[test]
fn test_f16_conversion() {
    assert_eq!(f32_to_f16(0.0), 0);
    // In IEEE 754 half precision, 1.0 is represented as 0x3C00
    assert_eq!(f32_to_f16(1.0), 0x3C00);
    // Half of 1.0 is 0.5, which is 0x3800
    assert_eq!(f32_to_f16(0.5), 0x3800);
}

/// Half precision by shifting the bits of single precision values.
fn shifted_half(val: f32) -> u16 {
    let bits = val.to_bits();
    let sign = (bits >> 31) & 1;
    let exp = ((bits >> 23) & 0xff) as i32;
    let mantissa = bits & 0x7fffff;
    if exp == 255 {
        return ((sign << 15) | (0x1f << 10) | u32::from(mantissa != 0)) as u16;
    }
    let new_exp = exp - 127 + 15;
    if new_exp >= 31 {
        return ((sign << 15) | (0x1f << 10)) as u16;
    }
    if new_exp <= 0 {
        if new_exp < -10 {
            return (sign << 15) as u16;
        }
        return ((sign << 15) | ((mantissa | 0x800000) >> (14 - new_exp))) as u16;
    }
    let new_mantissa = (mantissa + 0x1000) >> 13;
    ((sign << 15) + ((new_exp as u32) << 10) + new_mantissa) as u16
}

#[test]
fn rounded_halves_are_carried() {
    assert_eq!(f32_to_f16(0.99999), 0x3c00);
    assert_eq!(f32_to_f16(-1.9999999), 0xc000);
    assert_eq!(f32_to_f16(65519.0), 0x7bff);
    assert_eq!(f32_to_f16(65520.0), 0x7c00);
}

#[test]
fn half_precision_edge_cases() {
    for v in [
        -0.0,
        65504.0,
        65536.0,
        1e30,
        f32::INFINITY,
        f32::NEG_INFINITY,
        f32::NAN,
        6e-8,
        5.9e-8,
        -3e-5,
        1.0 - f32::EPSILON / 2.0,
        0.333,
        -1234.5,
    ] {
        assert_eq!(f32_to_f16(v), shifted_half(v), "{v}");
    }
    for k in 0..100_000u32 {
        let v = f32::from_bits(k.wrapping_mul(42949));
        assert_eq!(f32_to_f16(v), shifted_half(v), "{v}");
    }
}

#[test]
fn test_identity_lut_generation() {
    let size = 17u32;
    let lut = generate_identity_lut(size);
    assert_eq!(lut.len(), (size * size * size * 4) as usize);

    // Origin (0, 0, 0)
    assert_eq!(lut[0], f32_to_f16(0.0));
    assert_eq!(lut[1], f32_to_f16(0.0));
    assert_eq!(lut[2], f32_to_f16(0.0));
    assert_eq!(lut[3], f32_to_f16(1.0));

    // Max corner (size - 1, size - 1, size - 1)
    let last_idx = lut.len() - 4;
    assert_eq!(lut[last_idx], f32_to_f16(1.0));
    assert_eq!(lut[last_idx + 1], f32_to_f16(1.0));
    assert_eq!(lut[last_idx + 2], f32_to_f16(1.0));
    assert_eq!(lut[last_idx + 3], f32_to_f16(1.0));
}

#[test]
fn identity_lut_entries() {
    let size = 9u32;
    let lut = generate_identity_lut(size);
    let mut at = 0;
    for blue in 0..size {
        for green in 0..size {
            for red in 0..size {
                for k in [red, green, blue] {
                    assert_eq!(lut[at], f32_to_f16(k as f32 / (size - 1) as f32));
                    at += 1;
                }
                assert_eq!(lut[at], 0x3c00);
                at += 1;
            }
        }
    }
    assert_eq!(at, lut.len());
    assert!(generate_identity_lut(0).is_empty());
}

#[test]
fn test_tetrahedral_interpolation_neutral_axis() {
    let size = 17u32;
    let lut = generate_identity_lut(size);

    let sample_lut = |x: u32, y: u32, z: u32| -> [f32; 3] {
        let idx = ((z * size * size + y * size + x) * 4) as usize;
        let decode_f16 = |h: u16| -> f32 {
            let sign = ((h >> 15) & 1) as u32;
            let exp = ((h >> 10) & 0x1f) as i32;
            let mant = (h & 0x3ff) as u32;
            if exp == 0 {
                0.0
            } else {
                let exp_f = (exp - 15 + 127) as u32;
                let f_bits = (sign << 31) | (exp_f << 23) | (mant << 13);
                f32::from_bits(f_bits)
            }
        };
        [
            decode_f16(lut[idx]),
            decode_f16(lut[idx + 1]),
            decode_f16(lut[idx + 2]),
        ]
    };

    let tetrahedral_interp = |color: [f32; 3]| -> [f32; 3] {
        let p = [
            color[0].clamp(0.0, 1.0) * (size - 1) as f32,
            color[1].clamp(0.0, 1.0) * (size - 1) as f32,
            color[2].clamp(0.0, 1.0) * (size - 1) as f32,
        ];
        let p0 = [p[0].floor() as u32, p[1].floor() as u32, p[2].floor() as u32];
        let f = [p[0] - p0[0] as f32, p[1] - p0[1] as f32, p[2] - p0[2] as f32];
        let max_c = size - 1;
        let p1 = [
            (p0[0] + 1).min(max_c),
            (p0[1] + 1).min(max_c),
            (p0[2] + 1).min(max_c),
        ];
        let p0 = [p0[0].min(max_c), p0[1].min(max_c), p0[2].min(max_c)];

        let c000 = sample_lut(p0[0], p0[1], p0[2]);
        let c111 = sample_lut(p1[0], p1[1], p1[2]);

        let (c1, c2, w) = if f[0] >= f[1] {
            if f[1] >= f[2] {
                (
                    sample_lut(p1[0], p0[1], p0[2]),
                    sample_lut(p1[0], p1[1], p0[2]),
                    [1.0 - f[0], f[0] - f[1], f[1] - f[2], f[2]],
                )
            } else if f[0] >= f[2] {
                (
                    sample_lut(p1[0], p0[1], p0[2]),
                    sample_lut(p1[0], p0[1], p1[2]),
                    [1.0 - f[0], f[0] - f[2], f[2] - f[1], f[1]],
                )
            } else {
                (
                    sample_lut(p0[0], p0[1], p1[2]),
                    sample_lut(p1[0], p0[1], p1[2]),
                    [1.0 - f[2], f[2] - f[0], f[0] - f[1], f[1]],
                )
            }
        } else {
            if f[2] >= f[1] {
                (
                    sample_lut(p0[0], p0[1], p1[2]),
                    sample_lut(p0[0], p1[1], p1[2]),
                    [1.0 - f[2], f[2] - f[1], f[1] - f[0], f[0]],
                )
            } else if f[2] >= f[0] {
                (
                    sample_lut(p0[0], p1[1], p0[2]),
                    sample_lut(p0[0], p1[1], p1[2]),
                    [1.0 - f[1], f[1] - f[2], f[2] - f[0], f[0]],
                )
            } else {
                (
                    sample_lut(p0[0], p1[1], p0[2]),
                    sample_lut(p1[0], p1[1], p0[2]),
                    [1.0 - f[1], f[1] - f[0], f[0] - f[2], f[2]],
                )
            }
        };

        [
            c000[0] * w[0] + c1[0] * w[1] + c2[0] * w[2] + c111[0] * w[3],
            c000[1] * w[0] + c1[1] * w[1] + c2[1] * w[2] + c111[1] * w[3],
            c000[2] * w[0] + c1[2] * w[1] + c2[2] * w[2] + c111[2] * w[3],
        ]
    };

    // Test along neutral gray axis (R = G = B)
    for val in [0.05, 0.125, 0.333, 0.5, 0.777, 0.95] {
        let res = tetrahedral_interp([val, val, val]);
        assert!(
            (res[0] - val).abs() < 1e-3,
            "Neutral axis R shifted at {}: {}",
            val,
            res[0]
        );
        assert!(
            (res[1] - val).abs() < 1e-3,
            "Neutral axis G shifted at {}: {}",
            val,
            res[1]
        );
        assert!(
            (res[2] - val).abs() < 1e-3,
            "Neutral axis B shifted at {}: {}",
            val,
            res[2]
        );
    }
}

#[test]
fn lut_textures() {
    let props = MemoryProperties {
        memory_types: vec![
            MemoryType {
                property_flags: 6,
                heap_index: 0,
            },
            MemoryType {
                property_flags: 1,
                heap_index: 1,
            },
        ],
        memory_heaps: vec![MemoryHeap { size: 1, flags: 0 }; 2],
    };
    assert_eq!(Lut3dTexture::image_memory(&props, 0b11), 1);
    assert_eq!(Lut3dTexture::image_memory(&props, 0b01), 0);
    assert_eq!(Lut3dTexture::staging_memory(&props, 0b11), 0);
    assert_eq!(Lut3dTexture::staging_memory(&props, 0b10), 0);

    let upload = Lut3dTexture::upload(7, 100, 17);
    assert_eq!(upload.byte_size, 200);
    assert_eq!(upload.size, 17);
    assert_eq!(upload.format, ash::vk::Format::R16G16B16A16_SFLOAT.as_raw());
    let before: Barrier = upload.before;
    assert_eq!(before.old_layout, ash::vk::ImageLayout::UNDEFINED.as_raw());
    assert_eq!(before.new_layout, upload.after.old_layout);
    assert_eq!(
        upload.after.new_layout,
        ash::vk::ImageLayout::SHADER_READ_ONLY_OPTIMAL.as_raw()
    );

    let texture = Lut3dTexture {
        image: 1,
        memory: 2,
        view: 3,
        sampler: 4,
        size: 17,
        white: 203,
        max_content: 1000,
        max_dest: 500,
    };
    assert_eq!(
        texture.destroy(),
        vec![
            LutRelease::Sampler(4),
            LutRelease::View(3),
            LutRelease::Image(1),
            LutRelease::Memory(2)
        ]
    );
}

#[test]
fn lut_errors_name_their_step() {
    let image = |e: Error| LutError::ImageError(e);
    for (step, error) in [
        (LutStep::CreateImage, image(Error::VulkanImage(-1))),
        (LutStep::Allocate, image(Error::VulkanAllocate(-1))),
        (LutStep::Bind, image(Error::VulkanBind(-1))),
        (LutStep::CreateView, image(Error::VulkanImageView(-1))),
        (LutStep::CreateSampler, LutError::SamplerError(-1)),
        (LutStep::CreateStaging, image(Error::VulkanAllocate(-1))),
        (LutStep::AllocateStaging, image(Error::VulkanAllocate(-1))),
        (LutStep::BindStaging, image(Error::VulkanBind(-1))),
        (LutStep::MapStaging, image(Error::VulkanAllocate(-1))),
        (LutStep::CreatePool, LutError::CommandPoolError(-1)),
        (LutStep::AllocateCommands, LutError::CommandBufferError(-1)),
        (LutStep::BeginCommands, LutError::CommandBufferError(-1)),
        (LutStep::EndCommands, LutError::CommandBufferError(-1)),
        (LutStep::Submit, LutError::SubmitError(-1)),
        (LutStep::WaitIdle, LutError::SubmitError(-1)),
    ] {
        assert_eq!(step.error(-1), error);
    }
}

fn description(transfer: TransferFunction, primaries: Primaries) -> ImageDescription {
    ImageDescription {
        transfer,
        primaries: Some(primaries),
        luminances: None,
        reference_luminance: 203,
        max_cll: None,
        mastering_luminance: None,
        windows_scrgb: false,
        windows_bt2100: false,
        is_pq_bt2020: transfer == TransferFunction::Pq && primaries == Primaries::Bt2020,
        is_hdr: transfer == TransferFunction::Pq || transfer == TransferFunction::Hlg,
    }
}

#[test]
fn surface_parameters() {
    let config = HdrOutputConfig::default();
    let format = ash::vk::Format::A2B10G10R10_UNORM_PACK32.as_raw();
    let pq = description(TransferFunction::Pq, Primaries::Bt2020);
    let p = HdrParameters::for_surface(&config, Some(&pq), format);
    assert_eq!(p.input_is_pq, 1);
    assert_eq!(p.input_is_hlg, 0);
    assert_eq!(p.reference_white, b(203.0));
    let hlg = description(TransferFunction::Hlg, Primaries::Bt2020);
    let p = HdrParameters::for_surface(&config, Some(&hlg), format);
    assert_eq!(p.input_is_pq, 0);
    assert_eq!(p.input_is_hlg, 1);
    let plain = HdrParameters::for_surface(&config, None, format);
    assert_eq!(plain.input_is_pq, 0);
    assert_eq!(plain.sdr_gamma, b(2.2));
    let tonemap = HdrParameters::for_tonemap(&config);
    assert_eq!(tonemap.target_is_sdr, 1);
    assert_eq!(tonemap.input_is_pq, 1);
    assert_eq!(white_of(&pq), b(203.0));
    assert!(f32::from_bits(peak_of(&pq)) > 0.0);
}

#[test]
fn gles_uniforms_are_filled_in() {
    let config = gles::HdrOutputConfig::new(b(250.0), b(2.2), b(0.25));
    let pq = description(TransferFunction::Pq, Primaries::Bt2020);
    let wanted = SurfaceUniforms::for_surface(Some(&pq), &config);
    assert_eq!(wanted.reference_white, b(250.0));
    assert_eq!(wanted.input_pq, b(1.0));
    let mut uniforms: Vec<Uniform> = ["hdr_reference_white", "unrelated", "hdr_input_pq", "hdr_content_reference"]
        .iter()
        .map(|name| Uniform {
            name: name.to_string(),
            value: 99,
        })
        .collect();
    update_hdr_surface_uniforms(Some(&pq), &mut uniforms, &config);
    assert_eq!(uniforms[0].value, b(250.0));
    assert_eq!(uniforms[1].value, 99);
    assert_eq!(uniforms[2].value, b(1.0));
    assert_eq!(uniforms[3].value, wanted.content_reference);
    update_hdr_surface_uniforms(None, &mut uniforms, &config);
    assert_eq!(uniforms[2].value, b(0.0));
    assert_eq!(uniforms[3].value, b(203.0));
}

#[test]
fn colors_are_scaled() {
    let color = Color32F::new(b(0.25), b(0.1), b(1.0), b(0.5));
    assert_eq!(
        color.times(b(0.3)).components(),
        [0.25f32 * 0.3, 0.1 * 0.3, 1.0 * 0.3, 0.5 * 0.3].map(f32::to_bits)
    );
    assert!(!color.is_opaque());
    assert!(Color32F::black().is_opaque());
    assert_eq!(Color32F::transparent().components(), [0, 0, 0, 0]);
}

#[test]
fn tables_are_packed_from_grids() {
    let grid = lut_grid(3);
    assert_eq!(grid.len(), 27);
    let color = |r: f32, g: f32, b: f32| LutColor {
        r: r.to_bits(),
        g: g.to_bits(),
        b: b.to_bits(),
    };
    assert_eq!(grid[0], color(0.0, 0.0, 0.0));
    assert_eq!(grid[1], color(0.5, 0.0, 0.0));
    assert_eq!(grid[3], color(0.0, 0.5, 0.0));
    assert_eq!(grid[9], color(0.0, 0.0, 0.5));
    assert_eq!(grid[26], color(1.0, 1.0, 1.0));
    assert_eq!(pack_lut(&grid), generate_identity_lut(3));
    // A single position is nowhere in particular.
    assert!(lut_grid(1).iter().all(|c| f32::from_bits(c.r).is_nan()));
    assert_eq!(generate_identity_lut(1), vec![0x7c01, 0x7c01, 0x7c01, 0x3c00]);
    assert!(generate_identity_lut(0).is_empty());
    // A table that keeps red only is opaque all the same.
    let red: Vec<LutColor> = grid.iter().map(|c| LutColor { g: 0, b: 0, ..*c }).collect();
    let packed = pack_lut(&red);
    assert_eq!(&packed[4..8], &[0x3800, 0, 0, 0x3c00]);
    assert!(packed.chunks(4).all(|entry| entry[3] == 0x3c00));
}

#[test]
fn textures_are_made_step_by_step() {
    let mut run = Lut3dTexture::new(33, 203, 1000, 400);
    assert_eq!(run.step, LutStep::CreateImage);
    assert_eq!(run.next(Err(-1)), Err(LutStep::CreateImage.error(-1)));
    assert_eq!(run.step, LutStep::CreateImage);
    for handle in 1..15 {
        assert_eq!(run.next(Ok(handle)), Ok(None));
    }
    assert_eq!(run.step, LutStep::WaitIdle);
    assert_eq!(run.next(Err(-4)), Err(LutError::SubmitError(-4)));
    let texture = Lut3dTexture {
        image: 1,
        memory: 2,
        view: 4,
        sampler: 5,
        size: 33,
        white: 203,
        max_content: 1000,
        max_dest: 400,
    };
    assert_eq!(run.next(Ok(0)), Ok(Some(texture)));
    assert_eq!(
        run.release(),
        vec![
            TransferRelease::Pool(10),
            TransferRelease::Buffer(6),
            TransferRelease::Memory(7)
        ]
    );
}

#[test]
fn solid_colors_take_the_path_of_the_output() {
    assert_eq!(HdrOutputConfig::sdr_tonemapping().color_path(), ColorPath::Unchanged);
    assert_eq!(HdrOutputConfig::default().color_path(), ColorPath::Pq);
    let offloaded = HdrOutputConfig {
        hardware_offload: true,
        ..HdrOutputConfig::default()
    };
    assert_eq!(offloaded.color_path(), ColorPath::Linear);
}

#[test]
fn floats_are_compared_by_value() {
    let color = Color32F::new(b(0.0), b(0.5), b(1.0), b(1.0));
    assert_eq!(color, Color32F::new(b(-0.0), b(0.5), b(1.0), b(1.0)));
    assert_ne!(color, Color32F::new(b(0.0), b(-0.5), b(1.0), b(1.0)));
    let odd = Color32F::new(b(f32::NAN), b(0.5), b(1.0), b(1.0));
    assert_ne!(odd, odd);
    assert_eq!(Color32F::default(), Color32F::new(b(0.0), b(0.0), b(0.0), b(0.0)));
    assert_eq!(Color32F::from([b(0.25), b(0.5), b(1.0), b(0.75)]).g, b(0.5));
    assert_eq!(Color32F::from([b(0.25), b(0.5), b(1.0), b(0.75)]).a, b(0.75));

    let config = HdrOutputConfig::default();
    assert_eq!(config.gamut_stretch, b(0.0));
    let mut other = config;
    other.gamut_stretch = b(-0.0);
    assert_eq!(config, other);
    other.hardware_offload = !config.hardware_offload;
    assert_ne!(config, other);
    let mut odd = config;
    odd.max_luminance = b(f32::NAN);
    assert_ne!(odd, odd);

    let config = gles::HdrOutputConfig {
        reference_white: b(203.0),
        sdr_gamma: b(0.0),
        gamut_stretch: b(0.0),
    };
    let mut other = config;
    other.sdr_gamma = b(-0.0);
    assert_eq!(config, other);
    other.reference_white = b(f32::NAN);
    assert_ne!(other, other);
}
