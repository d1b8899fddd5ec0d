use converter_core::encoding::{digit_text, push_decimal, push_le, push_words, read_le};
use converter_core::scene::{rest_name_text, scalar_name};
use converter_core::ConversionError;

#[test]
fn little_endian_words_are_written_least_significant_byte_first() {
    let mut out = vec![7u8];
    push_le(&mut out, 0x1234_5678);
    push_le(&mut out, 0);
    push_le(&mut out, u32::MAX);
    assert_eq!(
        out,
        vec![7, 0x78, 0x56, 0x34, 0x12, 0, 0, 0, 0, 0xff, 0xff, 0xff, 0xff]
    );
    for value in [0u32, 1, 255, 256, 65535, 65536, 0x0100_0000, 0xdead_beef, u32::MAX] {
        let mut bytes = Vec::new();
        push_le(&mut bytes, value);
        assert_eq!(bytes, value.to_le_bytes());
        assert_eq!(read_le(&bytes, 0), value);
    }
}

#[test]
fn little_endian_words_are_read_at_any_offset() {
    let bytes = [0xaa, 0x78, 0x56, 0x34, 0x12, 0xbb];
    assert_eq!(read_le(&bytes, 1), 0x1234_5678);
    assert_eq!(read_le(&bytes, 0), 0x3456_78aa);
    assert_eq!(read_le(&bytes, 2), 0xbb12_3456);
}

#[test]
fn floats_are_written_as_their_bit_patterns() {
    let values = [1.5f32, -0.0, f32::MIN_POSITIVE, f32::INFINITY, 3.0e-39];
    let words: Vec<u32> = values.iter().map(|v| v.to_bits()).collect();
    let mut out = Vec::new();
    push_words(&mut out, &words);
    let mut expected = Vec::new();
    for v in values {
        expected.extend_from_slice(&v.to_le_bytes());
    }
    assert_eq!(out, expected);
}

#[test]
fn decimal_numerals_have_no_leading_zeros() {
    for n in [0usize, 7, 9, 10, 11, 99, 100, 101, 4096, 1_000_000, usize::MAX] {
        let mut text = String::from("n=");
        push_decimal(&mut text, n);
        assert_eq!(text, format!("n={}", n));
    }
    assert_eq!(digit_text(0), "0");
    assert_eq!(digit_text(9), "9");
}

#[test]
fn scalar_names_follow_the_row_table() {
    let names: Vec<&str> = (0..17).map(scalar_name).collect();
    assert_eq!(
        names,
        vec![
            "x", "y", "z", "nx", "ny", "nz", "f_dc_0", "f_dc_1", "f_dc_2", "opacity", "scale_0",
            "scale_1", "scale_2", "rot_0", "rot_1", "rot_2", "rot_3"
        ]
    );
    assert_eq!(rest_name_text(0), "f_rest_0");
    assert_eq!(rest_name_text(44), "f_rest_44");
}

#[test]
fn errors_describe_themselves() {
    let parse = ConversionError::ParseError {
        format: "CSV".to_string(),
        message: "Row has insufficient columns.".to_string(),
    };
    assert_eq!(
        parse.describe(),
        "Failed to parse CSV: Row has insufficient columns."
    );
    let write = ConversionError::WriteError {
        format: "SPZ".to_string(),
        message: "disk full".to_string(),
    };
    assert_eq!(write.describe(), "Failed to write SPZ: disk full");
    assert_eq!(
        ConversionError::UnsupportedFormat.describe(),
        "Unsupported format"
    );
    assert_eq!(
        ConversionError::Unknown.describe(),
        "An unknown error occurred"
    );
    let io = ConversionError::Io(std::io::Error::new(std::io::ErrorKind::Other, "gone"));
    assert_eq!(io.describe(), "I/O error: gone");
    let made = ConversionError::parse("PLY", "broken");
    assert_eq!(made.describe(), "Failed to parse PLY: broken");
}
