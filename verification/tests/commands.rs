use audio_companion::chunk::{validate, AudioChunkData, ValidationError};
use audio_companion::config::{parse_u32, ConfigStore};
use audio_companion::dispatch::{
    get_config, request_mic_permission, set_config, validate_audio_chunk,
};

fn chunk(data: &str, timestamp: i64, duration: u32, format: &str) -> AudioChunkData {
    AudioChunkData {
        data: data.to_owned(),
        timestamp,
        duration,
        format: format.to_owned(),
    }
}

#[test]
fn validate_accepts_well_formed_chunk() {
    assert_eq!(validate(&chunk("abc", 0, 1, "wav")), Ok(true));
    assert_eq!(validate_audio_chunk(chunk("abc", 0, 1, "wav")), Ok(true));
}

#[test]
fn validate_rejects_empty_data() {
    assert_eq!(
        validate(&chunk("", 0, 1, "wav")),
        Err(ValidationError::EmptyData)
    );
    assert_eq!(
        validate_audio_chunk(chunk("", 0, 1, "wav")),
        Err("Audio data is empty".to_owned())
    );
}

#[test]
fn validate_rejects_zero_duration() {
    assert_eq!(
        validate(&chunk("abc", 0, 0, "wav")),
        Err(ValidationError::ZeroDuration)
    );
    assert_eq!(
        validate_audio_chunk(chunk("abc", 0, 0, "wav")),
        Err("Duration must be greater than 0".to_owned())
    );
}

#[test]
fn validate_rejects_missing_format() {
    assert_eq!(
        validate(&chunk("abc", 0, 1, "")),
        Err(ValidationError::MissingFormat)
    );
    assert_eq!(
        validate_audio_chunk(chunk("abc", 0, 1, "")),
        Err("Format must be specified".to_owned())
    );
}

#[test]
fn validate_reports_first_failing_check() {
    // All three checks would fail; the first one in order is reported.
    assert_eq!(
        validate(&chunk("", 0, 0, "")),
        Err(ValidationError::EmptyData)
    );
    // Data present, duration and format both bad: duration is reported.
    assert_eq!(
        validate(&chunk("abc", 0, 0, "")),
        Err(ValidationError::ZeroDuration)
    );
}

#[test]
fn validate_ignores_timestamp() {
    assert_eq!(validate(&chunk("abc", -5, 1, "wav")), Ok(true));
    assert_eq!(validate(&chunk("abc", i64::MAX, 1, "wav")), Ok(true));
}

#[test]
fn fresh_store_returns_default_duration() {
    let store = ConfigStore::new();
    let config = get_config(&store).unwrap();
    assert_eq!(config.chunk_duration, 60);
}

#[test]
fn set_then_get_reflects_parsable_duration() {
    let mut store = ConfigStore::new();
    assert_eq!(
        set_config("chunk_duration".to_owned(), "30".to_owned(), &mut store),
        Ok(())
    );
    assert_eq!(get_config(&store).unwrap().chunk_duration, 30);
}

#[test]
fn set_unparsable_duration_falls_back_to_default() {
    let mut store = ConfigStore::new();
    set_config("chunk_duration".to_owned(), "abc".to_owned(), &mut store).unwrap();
    assert_eq!(get_config(&store).unwrap().chunk_duration, 60);
    set_config("chunk_duration".to_owned(), "".to_owned(), &mut store).unwrap();
    assert_eq!(get_config(&store).unwrap().chunk_duration, 60);
    set_config("chunk_duration".to_owned(), "-1".to_owned(), &mut store).unwrap();
    assert_eq!(get_config(&store).unwrap().chunk_duration, 60);
}

#[test]
fn set_other_key_leaves_duration_default() {
    let mut store = ConfigStore::new();
    set_config("sample_rate".to_owned(), "44100".to_owned(), &mut store).unwrap();
    assert_eq!(get_config(&store).unwrap().chunk_duration, 60);
}

#[test]
fn later_write_overrides_earlier_write() {
    let mut store = ConfigStore::new();
    set_config("chunk_duration".to_owned(), "30".to_owned(), &mut store).unwrap();
    set_config("chunk_duration".to_owned(), "45".to_owned(), &mut store).unwrap();
    assert_eq!(get_config(&store).unwrap().chunk_duration, 45);
}

#[test]
fn writes_to_distinct_keys_are_all_kept() {
    let mut store = ConfigStore::new();
    set_config("chunk_duration".to_owned(), "15".to_owned(), &mut store).unwrap();
    set_config("sample_rate".to_owned(), "44100".to_owned(), &mut store).unwrap();
    set_config("channels".to_owned(), "2".to_owned(), &mut store).unwrap();
    assert_eq!(get_config(&store).unwrap().chunk_duration, 15);
    assert_eq!(store.get(&"sample_rate".to_owned()), Some(&"44100".to_owned()));
    assert_eq!(store.get(&"channels".to_owned()), Some(&"2".to_owned()));
    assert_eq!(store.get(&"missing".to_owned()), None);
}

#[test]
fn mic_permission_always_reports_success() {
    assert_eq!(request_mic_permission(), Ok(true));
}

#[test]
fn parse_u32_accepts_plain_and_signed_decimal() {
    assert_eq!(parse_u32("0"), Some(0));
    assert_eq!(parse_u32("60"), Some(60));
    assert_eq!(parse_u32("+7"), Some(7));
    assert_eq!(parse_u32("007"), Some(7));
    assert_eq!(parse_u32("4294967295"), Some(u32::MAX));
}

#[test]
fn parse_u32_rejects_malformed_and_overflowing_input() {
    assert_eq!(parse_u32(""), None);
    assert_eq!(parse_u32("+"), None);
    assert_eq!(parse_u32("-1"), None);
    assert_eq!(parse_u32("12a3"), None);
    assert_eq!(parse_u32(" 60"), None);
    assert_eq!(parse_u32("4294967296"), None);
    assert_eq!(parse_u32("99999999999999999999"), None);
}

#[test]
fn parse_u32_matches_std_parse() {
    for s in ["0", "60", "+7", "007", "4294967295", "", "+", "-1", "12a3", "4294967296"] {
        assert_eq!(parse_u32(s), s.parse::<u32>().ok());
    }
}
