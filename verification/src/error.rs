//! The errors shared by every codec.

use vstd::prelude::*;
use vstd::string::*;

verus! {

#[verifier::external_type_specification]
#[verifier::external_body]
pub struct ExIoError(std::io::Error);

/// Why a conversion stopped.
#[derive(Debug)]
pub enum ConversionError {
    /// The underlying stream failed.
    Io(std::io::Error),
    /// The input is malformed or too short for the named format.
    ParseError { format: String, message: String },
    /// Serializing into the named format failed.
    WriteError { format: String, message: String },
    /// The format tag is not one the library knows.
    UnsupportedFormat,
    /// Reserved; no codec returns it.
    Unknown,
}

/// The text that `std::io::Error` shows for itself, through `to_string`.
/// Nothing is claimed of it.
#[verifier::external_body]
pub(crate) fn io_error_text(e: &std::io::Error) -> (text: String) {
    e.to_string()
}

impl ConversionError {
    /// A parse failure of `format` with the given message.
    pub fn parse(format: &str, message: &str) -> (e: ConversionError)
        ensures
            e is ParseError,
            e->ParseError_format@ == format@,
            e->ParseError_message@ == message@,
    {
        ConversionError::ParseError {
            format: String::from_str(format),
            message: String::from_str(message),
        }
    }

    /// The sentence that describes the error to a person.
    pub fn describe(&self) -> (text: String)
        ensures
            self is ParseError ==> text@ == "Failed to parse "@ + self->ParseError_format@ + ": "@
                + self->ParseError_message@,
            self is WriteError ==> text@ == "Failed to write "@ + self->WriteError_format@ + ": "@
                + self->WriteError_message@,
            self is UnsupportedFormat ==> text@ == "Unsupported format"@,
            self is Unknown ==> text@ == "An unknown error occurred"@,
    {
        match self {
            ConversionError::Io(e) => {
                let mut text = String::from_str("I/O error: ");
                let detail = io_error_text(e);
                text.append(detail.as_str());
                text
            },
            ConversionError::ParseError { format, message } => {
                let mut text = String::from_str("Failed to parse ");
                text.append(format.as_str());
                text.append(": ");
                text.append(message.as_str());
                text
            },
            ConversionError::WriteError { format, message } => {
                let mut text = String::from_str("Failed to write ");
                text.append(format.as_str());
                text.append(": ");
                text.append(message.as_str());
                text
            },
            ConversionError::UnsupportedFormat => String::from_str("Unsupported format"),
            ConversionError::Unknown => String::from_str("An unknown error occurred"),
        }
    }
}

} // verus!
