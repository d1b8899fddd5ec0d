use converter_core::formats::{ExportFormat, ImportFormat};
use converter_core::paths::{
    is_supported_format, same_text, tail, validate_extension, validate_input_path,
    validate_output_path,
};
use converter_core::ConversionError;

const EXTENSION_MESSAGE: &str =
    "File must have one of the following extensions: .ply, .spz, .splat, .csv";

#[test]
fn tail_is_what_follows_the_last_mark() {
    assert_eq!(tail("scene.ply", '.'), "ply");
    assert_eq!(tail("a.b.c.splat", '.'), "splat");
    assert_eq!(tail("no_dot", '.'), "no_dot");
    assert_eq!(tail("ends.", '.'), "");
    assert_eq!(tail("", '.'), "");
    assert_eq!(tail(".", '.'), "");
    assert_eq!(tail("straße.größe", '.'), "größe");
    assert_eq!(tail("ascii_ply", '_'), "ply");
    assert_eq!(tail("spz_v2", '_'), "v2");
    assert_eq!(tail("csv", '_'), "csv");
    for text in ["scene.ply", "a.b.c", "none", "x.", ""] {
        assert_eq!(tail(text, '.'), text.rsplit('.').next().unwrap());
    }
}

#[test]
fn same_text_compares_character_by_character() {
    assert!(same_text("ply", "ply"));
    assert!(!same_text("ply", "plY"));
    assert!(!same_text("ply", "pl"));
    assert!(same_text("", ""));
}

#[test]
fn supported_formats_are_the_four_extensions() {
    for extension in ["ply", "spz", "splat", "csv"] {
        assert!(is_supported_format(extension));
    }
    for extension in ["", "PLY", "obj", "ply ", "splats", "v2"] {
        assert!(!is_supported_format(extension));
    }
}

#[test]
fn validate_extension_accepts_the_four_extensions_in_any_case() {
    for name in [
        "scene.ply",
        "scene.SPZ",
        "dir.with.dots/scene.Splat",
        "scene.csv",
        ".ply",
        "ply",
    ] {
        assert_eq!(validate_extension(name), Ok(()));
    }
}

#[test]
fn validate_extension_refuses_other_names() {
    for name in ["scene.obj", "scene", "scene.ply.bak", "scene.", "", "scene.ply "] {
        assert_eq!(validate_extension(name), Err(EXTENSION_MESSAGE.to_string()));
    }
}

#[test]
fn validate_input_path_asks_for_extension_and_file() {
    assert_eq!(
        validate_input_path("scene.ply", true),
        Ok("scene.ply".to_string())
    );
    assert_eq!(
        validate_input_path("scene.ply", false),
        Err("Invalid input: file does not exist".to_string())
    );
    assert_eq!(
        validate_input_path("scene.obj", true),
        Err(EXTENSION_MESSAGE.to_string())
    );
    assert_eq!(
        validate_input_path("scene.obj", false),
        Err(EXTENSION_MESSAGE.to_string())
    );
}

#[test]
fn validate_output_path_asks_for_extension_and_folder() {
    assert_eq!(
        validate_output_path("out/scene.csv", "out", true),
        Ok("out/scene.csv".to_string())
    );
    assert_eq!(
        validate_output_path("scene.csv", "", false),
        Ok("scene.csv".to_string())
    );
    assert_eq!(
        validate_output_path("out/scene.csv", "out", false),
        Err("Invalid output: parent folder 'out' does not exist".to_string())
    );
    assert_eq!(
        validate_output_path("out/scene.txt", "out", false),
        Err(EXTENSION_MESSAGE.to_string())
    );
}

#[test]
fn import_tags_select_the_four_formats() {
    assert_eq!(ImportFormat::from_tag("ply").unwrap(), ImportFormat::Ply);
    assert_eq!(ImportFormat::from_tag("spz").unwrap(), ImportFormat::Spz);
    assert_eq!(ImportFormat::from_tag("splat").unwrap(), ImportFormat::Splat);
    assert_eq!(ImportFormat::from_tag("csv").unwrap(), ImportFormat::Csv);
    for tag in ["", "PLY", "binary_ply", "obj"] {
        assert!(matches!(
            ImportFormat::from_tag(tag),
            Err(ConversionError::UnsupportedFormat)
        ));
    }
}

#[test]
fn export_tags_select_the_five_formats() {
    assert_eq!(
        ExportFormat::from_tag("ascii_ply").unwrap(),
        ExportFormat::AsciiPly
    );
    assert_eq!(
        ExportFormat::from_tag("binary_ply").unwrap(),
        ExportFormat::BinaryPly
    );
    assert_eq!(ExportFormat::from_tag("spz_v2").unwrap(), ExportFormat::SpzV2);
    assert_eq!(ExportFormat::from_tag("csv").unwrap(), ExportFormat::Csv);
    assert_eq!(ExportFormat::from_tag("splat").unwrap(), ExportFormat::Splat);
    for tag in ["", "ply", "spz", "SPLAT"] {
        assert!(matches!(
            ExportFormat::from_tag(tag),
            Err(ConversionError::UnsupportedFormat)
        ));
    }
}

#[test]
fn extensions_select_the_export_format() {
    assert_eq!(
        ExportFormat::from_extension("ply", None).unwrap(),
        ExportFormat::BinaryPly
    );
    assert_eq!(
        ExportFormat::from_extension("ply", Some("binary")).unwrap(),
        ExportFormat::BinaryPly
    );
    assert_eq!(
        ExportFormat::from_extension("ply", Some("ascii")).unwrap(),
        ExportFormat::AsciiPly
    );
    assert_eq!(
        ExportFormat::from_extension("spz", Some("ascii")).unwrap(),
        ExportFormat::SpzV2
    );
    assert_eq!(
        ExportFormat::from_extension("csv", None).unwrap(),
        ExportFormat::Csv
    );
    assert_eq!(
        ExportFormat::from_extension("splat", None).unwrap(),
        ExportFormat::Splat
    );
    match ExportFormat::from_extension("ply", Some("utf16")) {
        Err(ConversionError::ParseError { format, message }) => {
            assert_eq!(format, "PLY");
            assert_eq!(message, "Unsupported PLY encoding: utf16");
        }
        other => panic!("unexpected result: {:?}", other),
    }
    assert!(matches!(
        ExportFormat::from_extension("obj", Some("ascii")),
        Err(ConversionError::UnsupportedFormat)
    ));
}
