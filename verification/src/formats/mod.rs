//! One module per wire format, and the tags by which a caller selects one.

pub mod csv;
pub mod ply;
pub mod splat;
pub mod spz;

use crate::error::ConversionError;
use crate::paths::same_text;
use vstd::prelude::*;
use vstd::string::*;

verus! {

/// A format that can be decoded.
#[derive(Debug, Clone, Copy, PartialEq, Eq, Structural)]
pub enum ImportFormat {
    Ply,
    Spz,
    Splat,
    Csv,
}

/// A format that can be encoded. The polygon file comes in two encodings.
#[derive(Debug, Clone, Copy, PartialEq, Eq, Structural)]
pub enum ExportFormat {
    AsciiPly,
    BinaryPly,
    SpzV2,
    Csv,
    Splat,
}

/// The format that a tag selects for decoding, if any.
pub open spec fn import_format_of(tag: Seq<char>) -> Option<ImportFormat> {
    if tag == "ply"@ {
        Some(ImportFormat::Ply)
    } else if tag == "spz"@ {
        Some(ImportFormat::Spz)
    } else if tag == "csv"@ {
        Some(ImportFormat::Csv)
    } else if tag == "splat"@ {
        Some(ImportFormat::Splat)
    } else {
        None
    }
}

/// The format that a tag selects for encoding, if any.
pub open spec fn export_format_of(tag: Seq<char>) -> Option<ExportFormat> {
    if tag == "ascii_ply"@ {
        Some(ExportFormat::AsciiPly)
    } else if tag == "binary_ply"@ {
        Some(ExportFormat::BinaryPly)
    } else if tag == "spz_v2"@ {
        Some(ExportFormat::SpzV2)
    } else if tag == "csv"@ {
        Some(ExportFormat::Csv)
    } else if tag == "splat"@ {
        Some(ExportFormat::Splat)
    } else {
        None
    }
}

/// What the extension of the file to write selects.
pub enum Selection {
    /// A format.
    Format(ExportFormat),
    /// A polygon file in an encoding that it does not have.
    UnknownEncoding(Seq<char>),
    /// Nothing: the extension is not known.
    Unsupported,
}

/// What an extension selects for encoding. For a polygon file the encoding
/// decides, `binary` where none is given.
pub open spec fn selection_of(extension: Seq<char>, encoding: Option<Seq<char>>) -> Selection {
    if extension == "ply"@ {
        match encoding {
            None => Selection::Format(ExportFormat::BinaryPly),
            Some(encoding) => if encoding == "ascii"@ {
                Selection::Format(ExportFormat::AsciiPly)
            } else if encoding == "binary"@ {
                Selection::Format(ExportFormat::BinaryPly)
            } else {
                Selection::UnknownEncoding(encoding)
            },
        }
    } else if extension == "spz"@ {
        Selection::Format(ExportFormat::SpzV2)
    } else if extension == "csv"@ {
        Selection::Format(ExportFormat::Csv)
    } else if extension == "splat"@ {
        Selection::Format(ExportFormat::Splat)
    } else {
        Selection::Unsupported
    }
}

/// What is said of an encoding that the polygon file does not have.
pub open spec fn encoding_message(encoding: Seq<char>) -> Seq<char> {
    "Unsupported PLY encoding: "@ + encoding
}

/// The text of an optional string.
pub open spec fn option_text(text: Option<&str>) -> Option<Seq<char>> {
    match text {
        Some(text) => Some(text@),
        None => None,
    }
}

impl ImportFormat {
    /// The format that a tag selects; an unknown tag is an unsupported
    /// format.
    pub fn from_tag(tag: &str) -> (r: Result<ImportFormat, ConversionError>)
        ensures
            match import_format_of(tag@) {
                Some(format) => r == Ok::<ImportFormat, ConversionError>(format),
                None => r is Err && r->Err_0 is UnsupportedFormat,
            },
    {
        if same_text(tag, "ply") {
            Ok(ImportFormat::Ply)
        } else if same_text(tag, "spz") {
            Ok(ImportFormat::Spz)
        } else if same_text(tag, "csv") {
            Ok(ImportFormat::Csv)
        } else if same_text(tag, "splat") {
            Ok(ImportFormat::Splat)
        } else {
            Err(ConversionError::UnsupportedFormat)
        }
    }
}

impl ExportFormat {
    /// The format that a tag selects; an unknown tag is an unsupported
    /// format.
    pub fn from_tag(tag: &str) -> (r: Result<ExportFormat, ConversionError>)
        ensures
            match export_format_of(tag@) {
                Some(format) => r == Ok::<ExportFormat, ConversionError>(format),
                None => r is Err && r->Err_0 is UnsupportedFormat,
            },
    {
        if same_text(tag, "ascii_ply") {
            Ok(ExportFormat::AsciiPly)
        } else if same_text(tag, "binary_ply") {
            Ok(ExportFormat::BinaryPly)
        } else if same_text(tag, "spz_v2") {
            Ok(ExportFormat::SpzV2)
        } else if same_text(tag, "csv") {
            Ok(ExportFormat::Csv)
        } else if same_text(tag, "splat") {
            Ok(ExportFormat::Splat)
        } else {
            Err(ConversionError::UnsupportedFormat)
        }
    }

    /// The format that the extension of the file to write selects. For a
    /// polygon file the encoding decides, `binary` where none is given; any
    /// other encoding is a parse error. An unknown extension is an
    /// unsupported format.
    pub fn from_extension(extension: &str, encoding: Option<&str>) -> (r: Result<
        ExportFormat,
        ConversionError,
    >)
        ensures
            match selection_of(extension@, option_text(encoding)) {
                Selection::Format(format) => r == Ok::<ExportFormat, ConversionError>(format),
                Selection::UnknownEncoding(encoding) => r is Err && r->Err_0 is ParseError
                    && r->Err_0->ParseError_format@ == "PLY"@ && r->Err_0->ParseError_message@
                    == encoding_message(encoding),
                Selection::Unsupported => r is Err && r->Err_0 is UnsupportedFormat,
            },
    {
        if same_text(extension, "ply") {
            match encoding {
                None => Ok(ExportFormat::BinaryPly),
                Some(encoding) => {
                    if same_text(encoding, "ascii") {
                        Ok(ExportFormat::AsciiPly)
                    } else if same_text(encoding, "binary") {
                        Ok(ExportFormat::BinaryPly)
                    } else {
                        let mut message = String::from_str("Unsupported PLY encoding: ");
                        message.append(encoding);
                        Err(
                            ConversionError::ParseError {
                                format: String::from_str("PLY"),
                                message,
                            },
                        )
                    }
                },
            }
        } else if same_text(extension, "spz") {
            Ok(ExportFormat::SpzV2)
        } else if same_text(extension, "csv") {
            Ok(ExportFormat::Csv)
        } else if same_text(extension, "splat") {
            Ok(ExportFormat::Splat)
        } else {
            Err(ConversionError::UnsupportedFormat)
        }
    }
}

} // verus!
