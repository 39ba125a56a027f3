use emotechat_backend::ApiError;
use emotechat_backend::Emote;
use emotechat_backend::EmoteLookup;
use emotechat_backend::LegacyEmote;
use emotechat_backend::LegacyGlobalId;
use emotechat_backend::Registry;

const SEP: char = '\u{00B7}';

fn sample_legacy(name: &str, image_type: &str) -> LegacyEmote {
    LegacyEmote {
        globalId: LegacyGlobalId {
            emoteName: name.to_string(),
            emoteId: "legacy-global".to_string(),
        },
        bttvId: "5f5f4b7b6b8c5c372f7b23e3".to_string(),
        name: name.to_string(),
        imageType: image_type.to_string(),
        banned: false,
    }
}

/// Drives the resolution protocol as the HTTP layer would, counting how
/// often the external legacy service is asked.
fn resolve(reg: &mut Registry, id: &str, fetches: &mut u32) -> Result<Emote, ApiError> {
    match reg.get_emote_step(id) {
        EmoteLookup::Done(r) => r,
        EmoteLookup::NeedsLegacyFetch => {
            *fetches += 1;
            reg.resolve_fetched(id, Ok(sample_legacy("monka", "gif")))
        }
    }
}

#[test]
fn first_resolution_fetches_once_second_resolution_fetches_never() {
    let mut reg = Registry::new();
    let mut fetches = 0u32;

    let first = resolve(&mut reg, "monkaW", &mut fetches).unwrap();
    assert_eq!(fetches, 1);
    assert_eq!(reg.emote_count(), 1);
    assert_eq!(first._id, format!("monka{}a", SEP));
    assert_eq!(first.legacy_id.as_deref(), Some("monkaW"));

    let second = resolve(&mut reg, "monkaW", &mut fetches).unwrap();
    assert_eq!(fetches, 1, "second resolution must be served from the store");
    assert_eq!(reg.emote_count(), 1, "no second record may be inserted");
    assert_eq!(second._id, first._id);
}

#[test]
fn migrated_record_copies_the_legacy_payload() {
    let mut reg = Registry::new();
    let emote = reg
        .resolve_fetched("monkaW", Ok(sample_legacy("monka", "gif")))
        .unwrap();
    assert_eq!(emote._id, format!("monka{}a", SEP));
    assert_eq!(emote.provider.id, "5f5f4b7b6b8c5c372f7b23e3");
    assert_eq!(emote.image_type, "gif");
    assert!(emote.animated, "a gif legacy record migrates as animated");
    assert!(!emote.banned);
    assert_eq!(emote.legacy_id.as_deref(), Some("monkaW"));
}

#[test]
fn non_gif_legacy_record_is_not_animated() {
    let mut reg = Registry::new();
    let emote = reg
        .resolve_fetched("monkaW", Ok(sample_legacy("monka", "png")))
        .unwrap();
    assert_eq!(emote.image_type, "png");
    assert!(!emote.animated);
}

#[test]
fn failed_fetch_creates_no_partial_record() {
    let mut reg = Registry::new();
    let r = reg.resolve_fetched("monkaW", Err("connection refused".to_string()));
    match r {
        Err(ApiError::LegacyApiError(m)) => assert_eq!(m, "connection refused"),
        other => panic!("expected a legacy service error, got {:?}", other),
    }
    assert_eq!(reg.emote_count(), 0);
    assert!(matches!(
        reg.get_emote_step("monkaW"),
        EmoteLookup::NeedsLegacyFetch
    ));
}

#[test]
fn unpersisted_migration_record_is_still_usable() {
    // Graceful degradation: the migrated record is a function of the
    // fetched legacy record and the allocated identifier alone, so a
    // caller whose persist step failed can still answer with it.
    let legacy = sample_legacy("monka", "gif");
    let emote = Emote::from_legacy_record(&legacy, format!("monka{}a", SEP), "monkaW");
    assert_eq!(emote._id, format!("monka{}a", SEP));
    assert_eq!(emote.provider.id, "5f5f4b7b6b8c5c372f7b23e3");
    assert!(emote.animated);
    assert_eq!(emote.legacy_id.as_deref(), Some("monkaW"));
}

#[test]
fn invalid_id_is_rejected_before_any_lookup() {
    let reg = Registry::new();
    match reg.get_emote_step("MonkaW") {
        EmoteLookup::Done(Err(ApiError::InvalidId)) => {}
        other => panic!("expected an invalid-id rejection, got {:?}", other),
    }
}

#[test]
fn unknown_current_format_id_is_not_found() {
    let reg = Registry::new();
    match reg.get_emote_step(&format!("monka{}a", SEP)) {
        EmoteLookup::Done(Err(ApiError::NotFound)) => {}
        other => panic!("expected not-found, got {:?}", other),
    }
}

#[test]
fn current_format_id_is_answered_by_primary_key_lookup() {
    let mut reg = Registry::new();
    let stored = reg
        .resolve_fetched("monkaW", Ok(sample_legacy("monka", "gif")))
        .unwrap();
    match reg.get_emote_step(&stored._id) {
        EmoteLookup::Done(Ok(e)) => assert_eq!(e._id, stored._id),
        other => panic!("expected the stored record, got {:?}", other),
    }
}
