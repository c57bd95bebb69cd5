//! The error type of the FunASR pipeline.

use vstd::prelude::*;

use crate::text::{decimal, push_decimal};

verus! {

#[verifier::external_type_specification]
#[verifier::external_body]
#[verifier::reject_recursive_types(R)]
pub struct ExOrtError<R>(ort::Error<R>);

#[verifier::external_type_specification]
#[verifier::external_body]
pub struct ExIoError(std::io::Error);

#[verifier::external_type_specification]
#[verifier::external_body]
pub struct ExJsonError(serde_json::Error);

/// Errors that can occur in the FunASR pipeline.
#[derive(Debug)]
pub enum FunasrError {
    Ort(ort::Error),
    ModelNotFound(String),
    InvalidTokenFile(String),
    Io(std::io::Error),
    DecodeError(String),
    AudioTooShort { min: usize, actual: usize },
    EmptyAudio,
    InvalidCmvnFile(String),
    Json(serde_json::Error),
}

/// The text of an ONNX Runtime error (`Display` of `ort::Error`).
#[verifier::external_body]
fn ort_error_text(e: &ort::Error) -> String {
    e.to_string()
}

/// The text of an I/O error (`Display` of `std::io::Error`).
#[verifier::external_body]
pub(crate) fn io_error_text(e: &std::io::Error) -> String {
    e.to_string()
}

/// The text of a JSON error (`Display` of `serde_json::Error`).
#[verifier::external_body]
pub(crate) fn json_error_text(e: &serde_json::Error) -> String {
    e.to_string()
}

impl FunasrError {
    /// The human-readable description of the error.
    pub fn message(&self) -> (m: String)
        ensures
            match self {
                FunasrError::Ort(_) => "ONNX Runtime error: "@.is_prefix_of(m@),
                FunasrError::ModelNotFound(p) => m@ == "Model not found at "@ + p@,
                FunasrError::InvalidTokenFile(p) => m@ == "Failed to load token file: "@ + p@,
                FunasrError::Io(_) => "I/O error: "@.is_prefix_of(m@),
                FunasrError::DecodeError(d) => m@ == "Decode error: "@ + d@,
                FunasrError::AudioTooShort { min, actual } => m@
                    == "Audio too short: need at least "@ + decimal(*min as nat) + " samples, got "@
                    + decimal(*actual as nat),
                FunasrError::EmptyAudio => m@ == "Empty audio input"@,
                FunasrError::InvalidCmvnFile(d) => m@ == "Invalid CMVN file: "@ + d@,
                FunasrError::Json(_) => "JSON error: "@.is_prefix_of(m@),
            },
    {
        match self {
            FunasrError::Ort(e) => {
                let mut m = String::from_str("ONNX Runtime error: ");
                let ghost head = m@;
                m.append(ort_error_text(e).as_str());
                assert(m@.subrange(0, head.len() as int) =~= head);
                m
            },
            FunasrError::ModelNotFound(p) => String::from_str("Model not found at ").concat(
                p.as_str(),
            ),
            FunasrError::InvalidTokenFile(p) => String::from_str(
                "Failed to load token file: ",
            ).concat(p.as_str()),
            FunasrError::Io(e) => {
                let mut m = String::from_str("I/O error: ");
                let ghost head = m@;
                m.append(io_error_text(e).as_str());
                assert(m@.subrange(0, head.len() as int) =~= head);
                m
            },
            FunasrError::DecodeError(d) => String::from_str("Decode error: ").concat(d.as_str()),
            FunasrError::AudioTooShort { min, actual } => {
                let mut m = String::from_str("Audio too short: need at least ");
                push_decimal(&mut m, *min);
                m.append(" samples, got ");
                push_decimal(&mut m, *actual);
                m
            },
            FunasrError::EmptyAudio => String::from_str("Empty audio input"),
            FunasrError::InvalidCmvnFile(d) => String::from_str("Invalid CMVN file: ").concat(
                d.as_str(),
            ),
            FunasrError::Json(e) => {
                let mut m = String::from_str("JSON error: ");
                let ghost head = m@;
                m.append(json_error_text(e).as_str());
                assert(m@.subrange(0, head.len() as int) =~= head);
                m
            },
        }
    }
}


impl From<ort::Error> for FunasrError {
    fn from(e: ort::Error) -> (r: Self) {
        FunasrError::Ort(e)
    }
}

impl vstd::std_specs::convert::FromSpecImpl<ort::Error> for FunasrError {
    open spec fn obeys_from_spec() -> bool {
        true
    }

    open spec fn from_spec(v: ort::Error) -> Self {
        FunasrError::Ort(v)
    }
}

impl From<std::io::Error> for FunasrError {
    fn from(e: std::io::Error) -> (r: Self) {
        FunasrError::Io(e)
    }
}

impl vstd::std_specs::convert::FromSpecImpl<std::io::Error> for FunasrError {
    open spec fn obeys_from_spec() -> bool {
        true
    }

    open spec fn from_spec(v: std::io::Error) -> Self {
        FunasrError::Io(v)
    }
}

impl From<serde_json::Error> for FunasrError {
    fn from(e: serde_json::Error) -> (r: Self) {
        FunasrError::Json(e)
    }
}

impl vstd::std_specs::convert::FromSpecImpl<serde_json::Error> for FunasrError {
    open spec fn obeys_from_spec() -> bool {
        true
    }

    open spec fn from_spec(v: serde_json::Error) -> Self {
        FunasrError::Json(v)
    }
}

} // verus!
