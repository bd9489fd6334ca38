use meetily::diarization::{system_speaker_key, DiarizationSession, SpeakerRegistry, MAX_SPEAKERS};

#[test]
fn registry_stops_registering_voices_at_the_limit() {
    let mut registry = SpeakerRegistry::new();
    assert_eq!(registry.assign(None, true), Some(1));
    for i in 1..MAX_SPEAKERS {
        assert_eq!(registry.assign(Some((0, false)), true), Some(i + 1));
    }
    assert_eq!(registry.len(), MAX_SPEAKERS);
    assert_eq!(registry.assign(Some((3, false)), true), Some(4));
    assert_eq!(registry.len(), MAX_SPEAKERS);
}

#[test]
fn registry_assigns_nothing_before_a_voice_unless_allowed() {
    let mut registry = SpeakerRegistry::new();
    assert_eq!(registry.assign(None, false), None);
    assert_eq!(registry.len(), 0);
    assert_eq!(registry.assign(None, true), Some(1));
}

#[test]
fn a_similar_voice_is_reused_and_counted() {
    let mut registry = SpeakerRegistry::new();
    registry.assign(None, true);
    registry.assign(Some((0, false)), true);
    assert_eq!(registry.assign(Some((1, true)), true), Some(2));
    assert_eq!(registry.count(1), 2);
    assert_eq!(registry.count(0), 1);
    // Short segments join the closest voice without counting in its mean
    assert_eq!(registry.assign(Some((0, false)), false), Some(1));
    assert_eq!(registry.count(0), 1);
    assert_eq!(registry.len(), 2);
}

#[test]
fn sessions_remember_the_last_speaker() {
    let mut session = DiarizationSession::new();
    assert!(!DiarizationSession::needs_embedding(15_999));
    assert!(DiarizationSession::needs_embedding(16_000));
    assert_eq!(session.last_speaker(), None);
    // A medium segment may not register the first voice
    assert_eq!(session.assign_segment(None, 20_000), None);
    assert_eq!(session.last_speaker(), None);
    assert_eq!(session.assign_segment(None, 40_000), Some(1));
    assert_eq!(session.last_speaker(), Some(1));
    assert_eq!(session.assign_segment(Some((0, false)), 39_999), Some(1));
    assert_eq!(session.speakers().len(), 1);
    assert_eq!(session.assign_segment(Some((0, false)), 40_000), Some(2));
    assert_eq!(session.last_speaker(), Some(2));
}

#[test]
fn speaker_keys_name_the_voice() {
    assert_eq!(system_speaker_key(Some(1)), "system-1");
    assert_eq!(system_speaker_key(Some(10)), "system-10");
    assert_eq!(system_speaker_key(None), "system");
}

#[test]
fn the_last_speaker_is_always_a_known_voice() {
    let mut session = DiarizationSession::new();
    assert_eq!(session.last_speaker(), None);
    assert_eq!(session.assign_segment(None, 20_000), None);
    assert_eq!(session.last_speaker(), None);
    assert_eq!(session.assign_segment(None, 50_000), Some(1));
    assert_eq!(session.assign_segment(Some((0, false)), 50_000), Some(2));
    assert_eq!(session.assign_segment(Some((1, false)), 20_000), Some(2));
    let last = session.last_speaker().expect("a speaker");
    assert!(1 <= last && last <= session.speakers().len());
}
