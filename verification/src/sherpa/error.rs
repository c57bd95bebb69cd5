//! The error type of the Sherpa-ONNX integration.

use vstd::prelude::*;

use crate::funasr::error::io_error_text;

verus! {

/// Errors that can occur during Sherpa-ONNX operations.
#[derive(Debug, Clone)]
pub enum SherpaOnnxError {
    /// Underlying sherpa-onnx error
    SherpaOnnx(String),
    /// Model file not found at the given path
    ModelNotFound(String),
    /// I/O error
    Io(String),
    /// Invalid model directory structure
    InvalidModelDir(String),
    /// Empty audio input provided
    EmptyAudio,
}

/// The description of an error, as its `message` renders it.
pub open spec fn sherpa_error_text(e: SherpaOnnxError) -> Seq<char> {
    match e {
        SherpaOnnxError::SherpaOnnx(m) => "sherpa-onnx error: "@ + m@,
        SherpaOnnxError::ModelNotFound(p) => "Model not found at "@ + p@,
        SherpaOnnxError::Io(m) => "I/O error: "@ + m@,
        SherpaOnnxError::InvalidModelDir(m) => "Invalid model directory: "@ + m@,
        SherpaOnnxError::EmptyAudio => "Empty audio input"@,
    }
}

impl SherpaOnnxError {
    /// The human-readable description of the error.
    pub fn message(&self) -> (m: String)
        ensures
            m@ == sherpa_error_text(*self),
    {
        match self {
            SherpaOnnxError::SherpaOnnx(m) => String::from_str("sherpa-onnx error: ").concat(
                m.as_str(),
            ),
            SherpaOnnxError::ModelNotFound(p) => String::from_str("Model not found at ").concat(
                p.as_str(),
            ),
            SherpaOnnxError::Io(m) => String::from_str("I/O error: ").concat(m.as_str()),
            SherpaOnnxError::InvalidModelDir(m) => String::from_str(
                "Invalid model directory: ",
            ).concat(m.as_str()),
            SherpaOnnxError::EmptyAudio => String::from_str("Empty audio input"),
        }
    }
}

/// Reject an empty sample buffer before recognition.
pub fn check_samples(n_samples: usize) -> (r: Result<(), SherpaOnnxError>)
    ensures
        n_samples == 0 ==> r matches Err(SherpaOnnxError::EmptyAudio),
        n_samples > 0 ==> r is Ok,
{
    if n_samples == 0 {
        Err(SherpaOnnxError::EmptyAudio)
    } else {
        Ok(())
    }
}

impl From<std::io::Error> for SherpaOnnxError {
    fn from(e: std::io::Error) -> (r: Self)
        ensures
            r is Io,
    {
        SherpaOnnxError::Io(io_error_text(&e))
    }
}

/// The conversion promises only the variant: the text of an I/O error is not
/// modelled, so no result is fixed here.
impl vstd::std_specs::convert::FromSpecImpl<std::io::Error> for SherpaOnnxError {
    open spec fn obeys_from_spec() -> bool {
        false
    }

    open spec fn from_spec(v: std::io::Error) -> Self {
        SherpaOnnxError::Io(arbitrary())
    }
}

} // verus!
