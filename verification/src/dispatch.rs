//! The request/response boundary exposed to the frontend.
//!
//! Each operation is independently invocable by name: it unwraps its
//! inputs, calls into the configuration store or the chunk validator, and
//! converts the result into a typed response or a human-readable error
//! string. No business logic lives here. The embedding layer holds the one
//! shared [`ConfigStore`] behind an exclusive lock and passes it in;
//! acquiring the lock is its concern.

use vstd::prelude::*;

use crate::chunk::{spec_validate, validate, AudioChunkData, ValidationError};
use crate::config::{spec_chunk_duration, Config, ConfigStore};

verus! {

/// Returns the current configuration: the typed view of the store. Never
/// fails.
pub fn get_config(store: &ConfigStore) -> (r: Result<Config, String>)
    requires
        store.wf(),
    ensures
        r == Ok::<Config, String>(Config { chunk_duration: spec_chunk_duration(store@) }),
{
    let chunk_duration = store.chunk_duration();
    Ok(Config { chunk_duration })
}

/// Inserts or overwrites the configuration entry for `key`. Always
/// succeeds; every later read observes the new value.
pub fn set_config(key: String, value: String, store: &mut ConfigStore) -> (r: Result<(), String>)
    requires
        old(store).wf(),
    ensures
        final(store).wf(),
        final(store)@ == old(store)@.insert(key@, value@),
        r == Ok::<(), String>(()),
{
    store.set(key, value);
    Ok(())
}

/// Reports whether microphone access may be requested. A named capability
/// with an "always succeeds" contract: true permission state is owned by
/// the host operating system, which prompts when capture first starts.
pub fn request_mic_permission() -> (r: Result<bool, String>)
    ensures
        r == Ok::<bool, String>(true),
{
    Ok(true)
}

/// Validates chunk metadata and reports the outcome to the frontend: an
/// affirmative result, or a string describing the first failed check.
pub fn validate_audio_chunk(chunk: AudioChunkData) -> (r: Result<bool, String>)
    ensures
        r is Ok <==> spec_validate(chunk.data@, chunk.duration, chunk.format@) is Ok,
        spec_validate(chunk.data@, chunk.duration, chunk.format@) is Ok ==> r == Ok::<
            bool,
            String,
        >(true),
        spec_validate(chunk.data@, chunk.duration, chunk.format@) == Err::<bool, ValidationError>(
            ValidationError::EmptyData,
        ) ==> (r matches Err(m) && m@ == "Audio data is empty"@),
        spec_validate(chunk.data@, chunk.duration, chunk.format@) == Err::<bool, ValidationError>(
            ValidationError::ZeroDuration,
        ) ==> (r matches Err(m) && m@ == "Duration must be greater than 0"@),
        spec_validate(chunk.data@, chunk.duration, chunk.format@) == Err::<bool, ValidationError>(
            ValidationError::MissingFormat,
        ) ==> (r matches Err(m) && m@ == "Format must be specified"@),
{
    match validate(&chunk) {
        Ok(ok) => Ok(ok),
        Err(e) => Err(e.message()),
    }
}

} // verus!
