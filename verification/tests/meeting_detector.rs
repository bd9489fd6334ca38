use meetily::meeting_detector::{
    is_meeting_app, AutoRecordState, DetectionMode, DetectorAction, DetectorCommand, MeetingDetectionSettings,
    MeetingDetector, PollOutcome,
};

const NANOS_PER_SEC: u64 = 1_000_000_000;

struct Clock {
    state: AutoRecordState,
}

impl Clock {
    fn new() -> Self {
        Self { state: AutoRecordState::default() }
    }

    fn at(&mut self, secs: u64, mic_busy: bool, recording: bool) -> Option<DetectorAction> {
        self.state.tick(mic_busy, recording, secs * NANOS_PER_SEC)
    }
}

#[test]
fn starts_only_after_the_mic_stays_busy() {
    let mut c = Clock::new();
    assert_eq!(c.at(0, true, false), None);
    assert_eq!(c.at(4, true, false), None);
    assert_eq!(c.at(6, true, false), Some(DetectorAction::StartRecording));
}

#[test]
fn a_short_mic_burst_does_not_start() {
    let mut c = Clock::new();
    c.at(0, true, false);
    c.at(3, false, false);
    assert_eq!(c.at(4, true, false), None);
    assert_eq!(c.at(9, true, false), None);
    assert_eq!(c.at(10, true, false), Some(DetectorAction::StartRecording));
}

#[test]
fn does_not_request_start_twice_while_the_frontend_is_starting() {
    let mut c = Clock::new();
    c.at(0, true, false);
    assert_eq!(c.at(6, true, false), Some(DetectorAction::StartRecording));
    assert_eq!(c.at(8, true, false), None);
    assert_eq!(c.at(20, true, false), None);
}

#[test]
fn stops_an_auto_recording_after_the_mic_stays_free() {
    let mut c = Clock::new();
    c.at(0, true, false);
    c.at(6, true, false);
    c.at(8, true, true);
    assert_eq!(c.at(100, false, true), None);
    assert_eq!(c.at(110, false, true), None);
    assert_eq!(c.at(120, false, true), Some(DetectorAction::StopRecording));
    assert_eq!(c.at(122, false, true), None);
}

#[test]
fn briefly_releasing_the_mic_does_not_stop() {
    let mut c = Clock::new();
    c.at(0, true, false);
    c.at(6, true, false);
    c.at(8, true, true);
    c.at(100, false, true);
    c.at(110, true, true);
    assert_eq!(c.at(125, false, true), None);
    assert_eq!(c.at(144, false, true), None);
    assert_eq!(c.at(145, false, true), Some(DetectorAction::StopRecording));
}

#[test]
fn never_stops_a_manual_recording() {
    let mut c = Clock::new();
    c.at(0, false, true);
    assert_eq!(c.at(10, true, true), None);
    assert_eq!(c.at(100, false, true), None);
    assert_eq!(c.at(200, false, true), None);
}

#[test]
fn a_manual_stop_during_the_meeting_is_respected_until_it_ends() {
    let mut c = Clock::new();
    c.at(0, true, false);
    c.at(6, true, false);
    c.at(8, true, true);
    assert_eq!(c.at(30, true, false), None);
    assert_eq!(c.at(60, true, false), None);
    c.at(70, false, false);
    c.at(80, true, false);
    assert_eq!(c.at(86, true, false), Some(DetectorAction::StartRecording));
}

#[test]
fn gives_up_when_the_frontend_never_starts() {
    let mut c = Clock::new();
    c.at(0, true, false);
    c.at(6, true, false);
    assert_eq!(c.at(40, true, false), None);
    assert_eq!(c.at(100, true, false), None);
}

#[test]
fn a_suggested_start_is_not_repeated_nor_auto_stopped() {
    let mut c = Clock::new();
    c.at(0, true, false);
    assert_eq!(c.at(6, true, false), Some(DetectorAction::StartRecording));
    c.state.start_handed_to_user();
    assert_eq!(c.at(20, true, false), None);
    // The user presses Record: that recording is theirs
    assert_eq!(c.at(30, true, true), None);
    assert_eq!(c.at(100, false, true), None);
    assert_eq!(c.at(200, false, true), None);
}

#[test]
fn legacy_auto_record_flag_maps_to_auto_mode() {
    // {"auto_record":true}: no mode stored, so it defaults to off
    let legacy = MeetingDetectionSettings { mode: DetectionMode::Off, auto_record: true };
    assert_eq!(legacy.effective_mode(), DetectionMode::Auto);
    // {"mode":"suggest"}
    let current = MeetingDetectionSettings { mode: DetectionMode::Suggest, auto_record: false };
    assert_eq!(current.effective_mode(), DetectionMode::Suggest);
    assert_eq!(MeetingDetectionSettings::default().effective_mode(), DetectionMode::Off);
}

#[test]
fn recognises_meeting_apps_by_bundle_prefix() {
    assert!(is_meeting_app("com.google.Chrome.helper"));
    assert!(is_meeting_app("us.zoom.xos"));
    assert!(is_meeting_app("com.apple.WebKit.GPU"));
    assert!(!is_meeting_app("com.apple.VoiceMemos"));
    assert!(!is_meeting_app("com.openai.chat"));
}

#[test]
fn every_listed_meeting_app_is_recognised_and_prefixes_must_match_exactly() {
    for id in [
        "com.google.Chrome",
        "com.brave.Browser",
        "com.microsoft.edgemac",
        "company.thebrowser.Browser",
        "org.mozilla.firefox",
        "com.apple.Safari",
        "com.apple.WebKit",
        "us.zoom.xos",
        "com.microsoft.teams",
        "com.tinyspeck.slackmacgap",
        "com.hnc.Discord",
        "com.apple.FaceTime",
    ] {
        assert!(is_meeting_app(id), "{}", id);
    }
    assert!(!is_meeting_app("com.google.Chrom"));
    assert!(!is_meeting_app(""));
    assert!(!is_meeting_app("xcom.google.Chrome"));
}

#[test]
fn explicit_mode_wins_over_the_legacy_flag() {
    let s = MeetingDetectionSettings { mode: DetectionMode::Suggest, auto_record: true };
    assert_eq!(s.effective_mode(), DetectionMode::Suggest);
    let s = MeetingDetectionSettings { mode: DetectionMode::Off, auto_record: false };
    assert_eq!(s.effective_mode(), DetectionMode::Off);
    assert_eq!(DetectionMode::default(), DetectionMode::Off);
}

#[test]
fn a_pending_start_times_out_exactly_after_thirty_seconds() {
    let mut c = Clock::new();
    c.at(0, true, false);
    assert_eq!(c.at(6, true, false), Some(DetectorAction::StartRecording));
    assert_eq!(c.at(35, true, false), None);
    // Still pending: a recording now is the detector's own and is stopped later
    assert_eq!(c.at(35, true, true), None);
    assert_eq!(c.at(40, false, true), None);
    assert_eq!(c.at(60, false, true), Some(DetectorAction::StopRecording));
}

#[test]
fn a_timed_out_start_is_never_stopped_afterwards() {
    let mut c = Clock::new();
    c.at(0, true, false);
    assert_eq!(c.at(6, true, false), Some(DetectorAction::StartRecording));
    assert_eq!(c.at(36, true, false), None);
    // The frontend starts late: the recording now counts as manual
    assert_eq!(c.at(37, true, true), None);
    assert_eq!(c.at(40, false, true), None);
    assert_eq!(c.at(100, false, true), None);
}

#[test]
fn a_clock_reading_earlier_than_the_busy_start_counts_as_no_time() {
    let mut c = Clock::new();
    c.at(10, true, false);
    assert_eq!(c.at(5, true, false), None);
    assert_eq!(c.at(16, true, false), Some(DetectorAction::StartRecording));
}

#[test]
fn suggest_mode_only_suggests_and_clears_the_suggestion_when_the_meeting_ends() {
    let mut d = MeetingDetector::new();
    let s = NANOS_PER_SEC;
    let none = PollOutcome { clear_suggestion: false, command: None };
    assert_eq!(d.poll(DetectionMode::Suggest, true, false, 0), none);
    assert_eq!(
        d.poll(DetectionMode::Suggest, true, false, 6 * s),
        PollOutcome { clear_suggestion: false, command: Some(DetectorCommand::SuggestRecording) }
    );
    assert_eq!(d.poll(DetectionMode::Suggest, true, false, 20 * s), none);
    assert_eq!(
        d.poll(DetectionMode::Suggest, false, false, 22 * s),
        PollOutcome { clear_suggestion: true, command: None }
    );
    assert_eq!(d.poll(DetectionMode::Suggest, false, false, 23 * s), none);
}

#[test]
fn auto_mode_starts_and_stops_and_pausing_forgets_the_meeting() {
    let mut d = MeetingDetector::new();
    let s = NANOS_PER_SEC;
    d.poll(DetectionMode::Auto, true, false, 0);
    assert_eq!(d.poll(DetectionMode::Auto, true, false, 6 * s).command, Some(DetectorCommand::StartRecording));
    assert_eq!(d.poll(DetectionMode::Auto, true, true, 7 * s).command, None);
    assert_eq!(d.poll(DetectionMode::Auto, false, true, 8 * s).command, None);
    assert_eq!(d.poll(DetectionMode::Auto, false, true, 28 * s).command, Some(DetectorCommand::StopRecording));
    d.pause();
    assert_eq!(d.poll(DetectionMode::Auto, true, false, 30 * s).command, None);
    assert_eq!(d.poll(DetectionMode::Auto, true, false, 36 * s).command, Some(DetectorCommand::StartRecording));
}

#[test]
fn one_start_per_busy_stretch_and_a_stop_needs_an_unbroken_own_recording() {
    let mut c = Clock::new();
    c.at(0, true, false);
    assert_eq!(c.at(6, true, false), Some(DetectorAction::StartRecording));
    // The mic stays busy: no second start, even long after the start timed out
    for t in [10, 40, 60, 100, 1000] {
        assert_eq!(c.at(t, true, false), None);
    }
    // Own recording that breaks off and is restarted by the user is never stopped
    let mut c = Clock::new();
    c.at(0, true, false);
    assert_eq!(c.at(6, true, false), Some(DetectorAction::StartRecording));
    c.at(7, true, true);
    c.at(8, true, false);
    c.at(9, true, true);
    assert_eq!(c.at(10, false, true), None);
    assert_eq!(c.at(40, false, true), None);
}
