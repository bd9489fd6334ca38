use meetily::calendar::{collect_attendees, event_title, CalendarNamingSettings, Participant};
use meetily::eventkit::{current_event_title, has_access, request_access};
use meetily::speakers::{SpeakerNameChange, SpeakersRepository};

fn person(name: &str, me: bool) -> Participant {
    Participant { is_person: true, name: Some(name.to_string()), is_current_user: me }
}

#[test]
fn attendees_are_trimmed_deduplicated_and_people_only() {
    let participants = vec![
        person(" Ana Gómez ", false),
        person("Yo", true),
        Participant { is_person: false, name: Some("Sala 3".to_string()), is_current_user: false },
        person("   ", false),
        Participant { is_person: true, name: None, is_current_user: false },
        person("Ana Gómez", false),
        person("Juan", false),
    ];
    let attendees = collect_attendees(&participants);
    assert_eq!(attendees.me, Some("Yo".to_string()));
    assert_eq!(attendees.others, vec!["Ana Gómez".to_string(), "Juan".to_string()]);
}

#[test]
fn event_titles_are_trimmed_and_blank_ones_skipped() {
    assert_eq!(event_title("  Weekly sync \n"), Some("Weekly sync".to_string()));
    assert_eq!(event_title(" \t "), None);
    assert_eq!(event_title(""), None);
}

#[test]
fn naming_is_reported_off_without_calendar_access() {
    let on = CalendarNamingSettings { enabled: true };
    assert_eq!(on.reported(false), CalendarNamingSettings { enabled: false });
    assert_eq!(on.reported(true), on);
    assert_eq!(CalendarNamingSettings::default().reported(true), CalendarNamingSettings { enabled: false });
}

#[test]
fn without_a_calendar_service_nothing_is_found() {
    assert!(!has_access());
    assert!(!request_access());
    assert_eq!(current_event_title(), None);
}

#[test]
fn blank_speaker_names_restore_the_default_label() {
    assert!(matches!(SpeakersRepository::name_change("   "), SpeakerNameChange::Clear));
    match SpeakersRepository::name_change("  Ana ") {
        SpeakerNameChange::Rename(name) => assert_eq!(name, "Ana"),
        SpeakerNameChange::Clear => panic!("expected a rename"),
    }
}

#[test]
fn trimming_uses_exactly_the_unicode_whitespace_characters() {
    for code in (0u32..0x3100).chain([0xFEFF, 0x10FFFF]) {
        let Some(c) = char::from_u32(code) else { continue };
        let text = format!("{}x{}", c, c);
        let expected = if c.is_whitespace() { "x".to_string() } else { text.clone() };
        assert_eq!(event_title(&text), Some(expected), "U+{:04X}", code);
    }
}
