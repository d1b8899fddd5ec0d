use converter_core::formats::spz::{
    byte_of_rounded, clamp_to_byte, push_fixed24, QuantizedScene, QuantizedSplat, SpzImporter,
    SpzV2Exporter,
};
use converter_core::{ConversionError, Exporter, GaussianSplat, Importer, Scene};
use std::io::{Read, Write};

fn point(seed: i32) -> QuantizedSplat {
    QuantizedSplat {
        position: [seed, -seed, 0x12_3456 + seed],
        alpha: 200 + seed,
        color: [Some(10 + seed), None, Some(300)],
        scale: [-5, 16 + seed, 255],
        rotation: [Some(0), Some(128), Some(255 + seed)],
        sh_rest: (0..45).map(|k| Some(k + seed)).collect(),
    }
}

fn payload(splats: &Vec<QuantizedSplat>, fractional_bits: u8) -> Vec<u8> {
    SpzV2Exporter::payload(&QuantizedScene {
        fractional_bits,
        splats: splats.clone(),
    })
}

fn export(splats: &Vec<QuantizedSplat>, fractional_bits: u8) -> Vec<u8> {
    SpzV2Exporter::export(&QuantizedScene {
        fractional_bits,
        splats: splats.clone(),
    })
    .unwrap()
}

fn gunzip(bytes: &[u8]) -> Vec<u8> {
    let mut out = Vec::new();
    flate2::read::GzDecoder::new(bytes).read_to_end(&mut out).unwrap();
    out
}

fn gzip(bytes: &[u8]) -> Vec<u8> {
    let mut encoder = flate2::write::GzEncoder::new(Vec::new(), flate2::Compression::fast());
    encoder.write_all(bytes).unwrap();
    encoder.finish().unwrap()
}

#[test]
fn spz_clamps_integers_to_bytes() {
    assert_eq!(clamp_to_byte(-1), 0);
    assert_eq!(clamp_to_byte(i32::MIN), 0);
    assert_eq!(clamp_to_byte(0), 0);
    assert_eq!(clamp_to_byte(17), 17);
    assert_eq!(clamp_to_byte(255), 255);
    assert_eq!(clamp_to_byte(256), 255);
    assert_eq!(clamp_to_byte(i32::MAX), 255);
    assert_eq!(byte_of_rounded(None), 0);
    assert_eq!(byte_of_rounded(Some(128)), 128);
    assert_eq!(byte_of_rounded(Some(-3)), 0);
    assert_eq!(byte_of_rounded(Some(1000)), 255);
}

#[test]
fn spz_fixed24_keeps_the_low_three_bytes() {
    let cases: [(i32, [u8; 3]); 8] = [
        (0, [0, 0, 0]),
        (1, [1, 0, 0]),
        (0x12_3456, [0x56, 0x34, 0x12]),
        (-1, [0xff, 0xff, 0xff]),
        (-2, [0xfe, 0xff, 0xff]),
        (0x0100_0001, [1, 0, 0]),
        (i32::MIN, [0, 0, 0]),
        (i32::MAX, [0xff, 0xff, 0xff]),
    ];
    for (value, expected) in cases {
        let mut out = vec![9u8];
        push_fixed24(&mut out, value);
        assert_eq!(out, vec![9, expected[0], expected[1], expected[2]]);
        let direct = [
            (value & 0xff) as u8,
            ((value >> 8) & 0xff) as u8,
            ((value >> 16) & 0xff) as u8,
        ];
        assert_eq!(expected, direct);
    }
}

#[test]
fn spz_payload_of_an_empty_scene_is_the_header() {
    let payload = payload(&vec![], 20);
    assert_eq!(
        payload,
        vec![0x4e, 0x47, 0x53, 0x50, 2, 0, 0, 0, 0, 0, 0, 0, 3, 20, 0, 0]
    );
}

#[test]
fn spz_payload_lays_out_six_buffers() {
    let points = vec![point(0), point(1)];
    let payload = payload(&points, 12);
    assert_eq!(payload.len(), 16 + 2 * (9 + 1 + 3 + 3 + 3 + 45));
    assert_eq!(&payload[0..4], &0x5053474eu32.to_le_bytes());
    assert_eq!(&payload[4..8], &2u32.to_le_bytes());
    assert_eq!(&payload[8..12], &2u32.to_le_bytes());
    assert_eq!(&payload[12..16], &[3, 12, 0, 0]);
    let positions = &payload[16..34];
    assert_eq!(
        positions,
        &[
            0, 0, 0, 0, 0, 0, 0x56, 0x34, 0x12, // point 0
            1, 0, 0, 0xff, 0xff, 0xff, 0x57, 0x34, 0x12, // point 1
        ]
    );
    let alphas = &payload[34..36];
    assert_eq!(alphas, &[200, 201]);
    let colors = &payload[36..42];
    assert_eq!(colors, &[10, 0, 255, 11, 0, 255]);
    let scales = &payload[42..48];
    assert_eq!(scales, &[0, 16, 255, 0, 17, 255]);
    let rotations = &payload[48..54];
    assert_eq!(rotations, &[0, 128, 255, 0, 128, 255]);
    let sh = &payload[54..];
    assert_eq!(sh.len(), 90);
    for i in 0..15 {
        // coefficient i of R, G and B stand side by side
        assert_eq!(sh[3 * i], i as u8);
        assert_eq!(sh[3 * i + 1], (i + 15) as u8);
        assert_eq!(sh[3 * i + 2], (i + 30) as u8);
        assert_eq!(sh[45 + 3 * i], (i + 1) as u8);
        assert_eq!(sh[45 + 3 * i + 2], (i + 31) as u8);
    }
}

#[test]
fn spz_payload_takes_missing_coefficients_as_zero() {
    let mut p = point(0);
    p.sh_rest = vec![Some(7), None];
    let payload = payload(&vec![p], 4);
    let sh = &payload[16 + 19..];
    assert_eq!(sh.len(), 45);
    assert_eq!(sh[0], 7);
    assert_eq!(sh[1], 128);
    assert_eq!(sh[2], 128);
    assert_eq!(sh[3], 0);
    assert_eq!(sh[4], 128);
    assert_eq!(sh[44], 128);
}

#[test]
fn spz_export_is_the_compressed_payload() {
    let points = vec![point(0), point(1), point(2)];
    let payload = payload(&points, 9);
    let file = export(&points, 9);
    assert_ne!(file, payload);
    assert_eq!(&file[0..2], &[0x1f, 0x8b]);
    assert_eq!(gunzip(&file), payload);
}

fn plain_scene(coordinates: &[[f32; 3]]) -> Scene {
    Scene {
        splats: coordinates
            .iter()
            .map(|c| GaussianSplat {
                position: [c[0].to_bits(), c[1].to_bits(), c[2].to_bits()],
                normal: [0; 3],
                spherical_harmonics_dc: [0; 3],
                spherical_harmonics_rest: vec![0; 45],
                opacity: 0,
                scale: [0; 3],
                rotation: [1.0f32.to_bits(), 0, 0, 0],
            })
            .collect(),
    }
}

fn exponent_for(extent: u32) -> i32 {
    (8_388_607.0f32 / f32::from_bits(extent)).log2().floor() as i32
}

#[test]
fn spz_extent_is_the_largest_finite_magnitude() {
    assert_eq!(SpzV2Exporter::extent(&plain_scene(&[])), 0);
    assert_eq!(SpzV2Exporter::extent(&plain_scene(&[[0.0, -0.0, 0.0]])), 0);
    let scene = plain_scene(&[[1.0, -7.5, 2.0], [f32::NAN, 3.0, -0.25]]);
    assert_eq!(SpzV2Exporter::extent(&scene), 7.5f32.to_bits());
    let with_infinity = plain_scene(&[[1.0, f32::NEG_INFINITY, 2.0]]);
    assert_eq!(SpzV2Exporter::extent(&with_infinity), 0);
    let only_nan = plain_scene(&[[f32::NAN, -f32::NAN, f32::NAN]]);
    assert_eq!(SpzV2Exporter::extent(&only_nan), 0);
    // the way the magnitude is found with floating-point numbers
    let mut max_abs = 0f32;
    for c in [1.0f32, -7.5, 2.0, f32::NAN, 3.0, -0.25] {
        let a = c.abs();
        if a > max_abs {
            max_abs = a;
        }
    }
    assert_eq!(SpzV2Exporter::extent(&scene), max_abs.to_bits());
}

#[test]
fn spz_fractional_bits_of_a_scene_in_the_origin_is_20() {
    let empty = SpzV2Exporter::extent(&plain_scene(&[]));
    assert_eq!(SpzV2Exporter::fractional_bits(empty, 0), 20);
    assert_eq!(SpzV2Exporter::fractional_bits(empty, i32::MIN), 20);
    let zero = SpzV2Exporter::extent(&plain_scene(&[[0.0, 0.0, -0.0]]));
    assert_eq!(SpzV2Exporter::fractional_bits(zero, 3), 20);
    assert_eq!(SpzV2Exporter::fractional_bits(1e-12f32.to_bits(), 3), 20);
    assert_eq!(1e-12f32.to_bits(), 0x2b8c_bccc);
}

#[test]
fn spz_fractional_bits_follow_the_range() {
    let extent = SpzV2Exporter::extent(&plain_scene(&[[8_388_607.0 / 1024.0, 1.0, -2.0]]));
    assert_eq!(f32::from_bits(extent), 8_388_607.0 / 1024.0);
    assert_eq!(exponent_for(extent), 10);
    assert_eq!(SpzV2Exporter::fractional_bits(extent, exponent_for(extent)), 10);

    let small = 1e-6f32.to_bits();
    assert_eq!(SpzV2Exporter::fractional_bits(small, exponent_for(small)), 20);
    let large = 1e9f32.to_bits();
    assert!(exponent_for(large) < 0);
    assert_eq!(SpzV2Exporter::fractional_bits(large, exponent_for(large)), 4);
    let just_above = (0x2b8c_bccc + 1) as u32;
    assert_eq!(SpzV2Exporter::fractional_bits(just_above, 7), 7);
    assert_eq!(SpzV2Exporter::fractional_bits(just_above, 4), 4);
    assert_eq!(SpzV2Exporter::fractional_bits(just_above, 3), 4);
    assert_eq!(SpzV2Exporter::fractional_bits(just_above, 21), 20);
}

#[test]
fn spz_import_reads_what_export_wrote() {
    let points = vec![
        QuantizedSplat {
            position: [4096, -4096, 2048],
            alpha: 128,
            color: [Some(128), Some(255), Some(0)],
            scale: [160, 176, 0],
            rotation: [Some(128), Some(255), Some(0)],
            sh_rest: (0..45).map(|k| Some(128 + k)).collect(),
        },
        point(3),
    ];
    let file = export(&points, 12);
    let scene = SpzImporter::import(&file).unwrap();
    assert_eq!(scene.splats.len(), 2);
    let first = &scene.splats[0];
    assert_eq!(
        first.position,
        [1.0f32.to_bits(), (-1.0f32).to_bits(), 0.5f32.to_bits()]
    );
    assert_eq!(first.normal, [0, 0, 0]);
    assert_eq!(
        first.scale,
        [0.0f32.to_bits(), 1.0f32.to_bits(), (-10.0f32).to_bits()]
    );
    assert_eq!(first.spherical_harmonics_rest.len(), 45);
    // channel after channel: coefficient i of R is byte 128 + i
    for i in 0..45 {
        let byte = 128 + i as i32;
        let wanted = ((byte.min(255) as f32) - 128.0) / 128.0;
        assert_eq!(f32::from_bits(first.spherical_harmonics_rest[i]), wanted);
    }
    assert_eq!(
        f32::from_bits(first.spherical_harmonics_dc[0]),
        (128.0f32 / 255.0 - 0.5) / 0.15
    );
    assert_eq!(f32::from_bits(first.rotation[1]), 128.0f32 / 127.5 - 1.0);
    assert_eq!(f32::from_bits(first.rotation[2]), 1.0);
    assert_eq!(f32::from_bits(first.rotation[3]), -1.0);
    let p = 128.0f32 / 255.0;
    assert!((f32::from_bits(first.opacity) - (p / (1.0 - p)).ln()).abs() < 1e-6);
}

#[test]
fn spz_import_of_an_empty_container_is_an_empty_scene() {
    let file = export(&vec![], 20);
    let scene = SpzImporter::import(&file).unwrap();
    assert!(scene.splats.is_empty());
}

#[test]
fn spz_import_reports_what_the_reader_refuses_as_io_error() {
    assert!(matches!(
        SpzImporter::import("this is not a container".as_bytes()),
        Err(ConversionError::Io(_))
    ));
    assert!(matches!(
        SpzImporter::import(&[]),
        Err(ConversionError::Io(_))
    ));
    let mut wrong_magic = payload(&vec![point(0)], 12);
    wrong_magic[0] = 0;
    assert!(matches!(
        SpzImporter::import(&gzip(&wrong_magic)),
        Err(ConversionError::Io(_))
    ));
    let mut cut = payload(&vec![point(0)], 12);
    cut.truncate(40);
    assert!(matches!(
        SpzImporter::import(&gzip(&cut)),
        Err(ConversionError::Io(_))
    ));
}

fn is_spz_parse_error(result: Result<Scene, ConversionError>) -> bool {
    match result {
        Err(ConversionError::ParseError { format, .. }) => format == "SPZ",
        _ => false,
    }
}

#[test]
fn spz_import_refuses_points_that_cannot_be_unpacked() {
    // version 1: half-precision coordinates, six bytes per point
    let mut half: Vec<u8> = Vec::new();
    half.extend_from_slice(&0x5053474eu32.to_le_bytes());
    half.extend_from_slice(&1u32.to_le_bytes());
    half.extend_from_slice(&1u32.to_le_bytes());
    half.extend_from_slice(&[3, 12, 0, 0]);
    half.extend_from_slice(&[0u8; 6 + 1 + 3 + 3 + 3 + 45]);
    assert!(is_spz_parse_error(SpzImporter::import(&gzip(&half))));

    // version 2 with more fractional bits than a shift can take
    let wide = export(&vec![point(0)], 32);
    assert!(is_spz_parse_error(SpzImporter::import(&wide)));
    let widest = export(&vec![point(0)], 255);
    assert!(is_spz_parse_error(SpzImporter::import(&widest)));
    let narrow = export(&vec![point(0)], 31);
    assert!(SpzImporter::import(&narrow).is_ok());
}

#[test]
fn spz_scene_from_container_unpacks_every_point() {
    let points = vec![point(0), point(1), point(2)];
    let file = export(&points, 8);
    let packed = spz_rs::load_packed_gaussians_from_spz_buffer(&file[..]).unwrap();
    let scene = SpzImporter::scene_from_container(&packed).unwrap();
    assert_eq!(scene.splats.len(), 3);
    for (i, splat) in scene.splats.iter().enumerate() {
        let unpacked = packed.unpack(i);
        assert_eq!(splat.position, unpacked.position.map(|v| v.to_bits()));
        assert_eq!(splat.normal, [0, 0, 0]);
        assert_eq!(splat.spherical_harmonics_dc, unpacked.color.map(|v| v.to_bits()));
        assert_eq!(splat.opacity, unpacked.alpha.to_bits());
        assert_eq!(splat.scale, unpacked.scale.map(|v| v.to_bits()));
        assert_eq!(splat.rotation, unpacked.rotation.map(|v| v.to_bits()));
        assert_eq!(splat.spherical_harmonics_rest.len(), 45);
        for k in 0..15 {
            assert_eq!(splat.spherical_harmonics_rest[k], unpacked.sh_r[k].to_bits());
            assert_eq!(splat.spherical_harmonics_rest[15 + k], unpacked.sh_g[k].to_bits());
            assert_eq!(splat.spherical_harmonics_rest[30 + k], unpacked.sh_b[k].to_bits());
        }
    }
    let same = SpzImporter::import(&file).unwrap();
    assert_eq!(same.splats.len(), 3);
    assert_eq!(same.splats[2].position, scene.splats[2].position);
}

#[test]
fn spz_scene_from_container_says_why_points_cannot_be_unpacked() {
    let wide = export(&vec![point(0)], 40);
    let packed = spz_rs::load_packed_gaussians_from_spz_buffer(&wide[..]).unwrap();
    match SpzImporter::scene_from_container(&packed) {
        Err(ConversionError::ParseError { format, message }) => {
            assert_eq!(format, "SPZ");
            assert_eq!(message, "too many fractional bits");
        }
        other => panic!("unexpected result: {:?}", other),
    }
    let mut half: Vec<u8> = Vec::new();
    half.extend_from_slice(&0x5053474eu32.to_le_bytes());
    half.extend_from_slice(&1u32.to_le_bytes());
    half.extend_from_slice(&2u32.to_le_bytes());
    half.extend_from_slice(&[3, 40, 0, 0]);
    half.extend_from_slice(&[0u8; 2 * (6 + 1 + 3 + 3 + 3 + 45)]);
    let file = gzip(&half);
    let packed = spz_rs::load_packed_gaussians_from_spz_buffer(&file[..]).unwrap();
    match SpzImporter::scene_from_container(&packed) {
        Err(ConversionError::ParseError { format, message }) => {
            assert_eq!(format, "SPZ");
            assert_eq!(message, "half-precision coordinates are not supported");
        }
        other => panic!("unexpected result: {:?}", other),
    }
}
