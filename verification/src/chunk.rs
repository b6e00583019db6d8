//! Validation of audio-chunk metadata.
//!
//! A chunk is a bounded segment of recorded audio together with its
//! descriptive metadata. Before a chunk enters any downstream processing
//! path, its metadata is checked here: the encoded payload must be
//! non-empty, the duration must be positive, and the format identifier
//! must name an encoding. The checks are applied in that order and the
//! first failing one determines the reported error.

use vstd::prelude::*;

verus! {

/// Metadata describing one recorded audio segment.
///
/// The payload is an opaque encoded blob; the timestamp is a signed
/// instant fixed by caller convention; the duration is in whole seconds.
#[derive(Clone, Debug)]
pub struct AudioChunkData {
    /// Encoded audio payload.
    pub data: String,
    /// Creation instant, seconds or milliseconds since the epoch.
    pub timestamp: i64,
    /// Length of the segment in whole seconds.
    pub duration: u32,
    /// Name of the encoding, e.g. `"wav"`.
    pub format: String,
}

/// The reasons for which chunk metadata is rejected.
#[derive(PartialEq, Eq, Structural, Clone, Copy, Debug)]
pub enum ValidationError {
    /// The encoded payload is empty.
    EmptyData,
    /// The duration is zero.
    ZeroDuration,
    /// The format identifier is empty.
    MissingFormat,
}

/// What validation returns for given payload, duration and format views:
/// the first failing check in the fixed order, or an affirmative result.
pub open spec fn spec_validate(data: Seq<char>, duration: u32, format: Seq<char>) -> Result<
    bool,
    ValidationError,
> {
    if data.len() == 0 {
        Err(ValidationError::EmptyData)
    } else if duration == 0 {
        Err(ValidationError::ZeroDuration)
    } else if format.len() == 0 {
        Err(ValidationError::MissingFormat)
    } else {
        Ok(true)
    }
}

/// Checks chunk metadata. Pure: no mutation, no side effects; the
/// timestamp is not inspected.
pub fn validate(chunk: &AudioChunkData) -> (r: Result<bool, ValidationError>)
    ensures
        r == spec_validate(chunk.data@, chunk.duration, chunk.format@),
{
    if chunk.data.as_str().is_empty() {
        return Err(ValidationError::EmptyData);
    }
    if chunk.duration == 0 {
        return Err(ValidationError::ZeroDuration);
    }
    if chunk.format.as_str().is_empty() {
        return Err(ValidationError::MissingFormat);
    }
    Ok(true)
}

impl ValidationError {
    /// The human-readable description handed to the frontend.
    pub fn message(&self) -> (r: String)
        ensures
            *self == ValidationError::EmptyData ==> r@ == "Audio data is empty"@,
            *self == ValidationError::ZeroDuration ==> r@ == "Duration must be greater than 0"@,
            *self == ValidationError::MissingFormat ==> r@ == "Format must be specified"@,
    {
        match self {
            ValidationError::EmptyData => "Audio data is empty".to_owned(),
            ValidationError::ZeroDuration => "Duration must be greater than 0".to_owned(),
            ValidationError::MissingFormat => "Format must be specified".to_owned(),
        }
    }
}

} // verus!
