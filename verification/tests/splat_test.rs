use converter_core::formats::splat::{SplatExporter, SplatImporter, SplatRecord};
use converter_core::{ConversionError, Exporter, Importer};

fn sample_record() -> SplatRecord {
    SplatRecord {
        position: [1.0f32.to_bits(), (-2.5f32).to_bits(), 0.25f32.to_bits()],
        scale: [0.5f32.to_bits(), 2.0f32.to_bits(), 1.0f32.to_bits()],
        color: [10, 20, 30],
        alpha: 40,
        rotation: [255, 1, 2, 3],
    }
}

#[test]
fn splat_export_lays_out_one_record() {
    let bytes = SplatExporter::export(&vec![sample_record()]).unwrap();
    let mut expected: Vec<u8> = Vec::new();
    for v in [1.0f32, -2.5, 0.25, 0.5, 2.0, 1.0] {
        expected.extend_from_slice(&v.to_le_bytes());
    }
    expected.extend_from_slice(&[10, 20, 30, 40]);
    expected.extend_from_slice(&[1, 2, 3, 255]);
    assert_eq!(bytes, expected);
    assert_eq!(bytes.len(), 32);
}

#[test]
fn splat_import_reads_back_what_export_wrote() {
    let mut second = sample_record();
    second.position[0] = f32::NAN.to_bits();
    second.rotation = [0, 0, 0, 0];
    let records = vec![sample_record(), second];
    let bytes = SplatExporter::export(&records).unwrap();
    assert_eq!(bytes.len() % 32, 0);
    let back = SplatImporter::import(&bytes).unwrap();
    assert_eq!(back, records);
}

#[test]
fn splat_import_refuses_a_length_that_is_no_multiple_of_32() {
    let bytes = vec![0u8; 33];
    match SplatImporter::import(&bytes) {
        Err(ConversionError::ParseError { format, message }) => {
            assert_eq!(format, "SPLAT");
            assert_eq!(message, "Invalid file size. Expected multiple of 32.");
        }
        other => panic!("unexpected result: {:?}", other),
    }
    assert!(SplatImporter::import(&bytes[..31]).is_err());
}

#[test]
fn splat_import_of_an_empty_file_is_an_empty_list() {
    let back = SplatImporter::import(&[]).unwrap();
    assert!(back.is_empty());
}
