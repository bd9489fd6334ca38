use meetily::calendar::EventAttendees;
use meetily::speaker_names::{
    accept_members, build_prompt, context_line_indexes, excerpt_indexes, first_name, format_time, has_whole_word, join,
    mentions, name_suggestions, parse_suggestions, system_speakers, Line,
};

fn line(speaker: &str, text: &str) -> Line {
    Line { speaker: speaker.to_string(), text: text.to_string(), start_secs: None }
}

fn names(list: &[&str]) -> Vec<String> {
    list.iter().map(|s| s.to_string()).collect()
}

fn lookup<'a>(pairs: &'a [(String, String)], key: &str) -> &'a str {
    pairs.iter().find(|(k, _)| k == key).map(|(_, v)| v.as_str()).expect("key present")
}

#[test]
fn keeps_mentions_with_their_neighbors_only() {
    let lines = vec![
        line("system-1", "arrancamos"),
        line("system-2", "dale"),
        line("mic", "bueno"),
        line("system-1", "gracias, Juan, muy claro"),
        line("system-2", "de nada"),
        line("mic", "sigamos"),
        line("system-1", "ok"),
        line("system-2", "listo"),
        line("mic", "nada más"),
    ];
    assert_eq!(context_line_indexes(&lines, &names(&["Juan Pérez"])), vec![1, 2, 3, 4, 5]);
}

#[test]
fn matches_whole_words_and_last_names() {
    let lines = vec![line("system-1", "Juana dijo algo"), line("system-2", "lo vio Pérez")];
    assert_eq!(context_line_indexes(&lines, &names(&["Juan Pérez"])), vec![0, 1]);
    assert!(!mentions("Juana dijo algo", "Juan"));
}

#[test]
fn no_mentions_means_nothing_to_ask() {
    let lines = vec![line("system-1", "hola"), line("system-2", "chau")];
    assert!(context_line_indexes(&lines, &names(&["Ana"])).is_empty());
}

#[test]
fn parses_only_existing_speakers_and_invitees() {
    let speakers = names(&["system-1", "system-2"]);
    let attendees = names(&["Juan Pérez", "Ana Gómez"]);
    let answer = r#"Sure! {"system-1": "juan pérez", "system-2": "Ana", "system-9": "Ana Gómez", "mic": "Juan Pérez", "system-3": "Pedro"}"#;
    let parsed = parse_suggestions(answer, &speakers, &attendees);
    assert_eq!(parsed.len(), 2);
    assert_eq!(lookup(&parsed, "system-1"), "Juan Pérez");
    assert_eq!(lookup(&parsed, "system-2"), "Ana Gómez");
}

#[test]
fn one_person_is_never_assigned_to_two_speakers() {
    let speakers = names(&["system-1", "system-2"]);
    let parsed = parse_suggestions(r#"{"system-1": "Ana", "system-2": "Ana"}"#, &speakers, &names(&["Ana"]));
    assert_eq!(parsed.len(), 1);
}

#[test]
fn garbage_answers_yield_no_suggestions() {
    let speakers = names(&["system-1"]);
    assert!(parse_suggestions("I don't know", &speakers, &names(&["Ana"])).is_empty());
    assert!(parse_suggestions("{not json}", &speakers, &names(&["Ana"])).is_empty());
}

#[test]
fn prompt_marks_gaps_between_excerpts() {
    let lines = vec![line("system-1", "a"), line("system-2", "b"), line("system-1", "c"), line("system-2", "d")];
    let prompt = build_prompt(&lines, &[0, 1, 3], &names(&["Ana"]));
    assert!(prompt.contains("system-2: b\n...\n[00:00] system-2: d"));
}

#[test]
fn mentions_ignore_case_and_punctuation() {
    assert!(mentions("GRACIAS, JUAN!", "juan"));
    assert!(mentions("¿Ángela, estás?", "ÁNGELA"));
    assert!(!mentions("juanito", "juan"));
    assert!(mentions("juan", "Juan"));
    assert!(!mentions("", "juan"));
}

#[test]
fn first_names_skip_leading_whitespace() {
    assert_eq!(first_name("  Ana  Gómez "), "Ana");
    assert_eq!(first_name("Ana"), "Ana");
    assert_eq!(first_name("   "), "   ");
    assert_eq!(first_name(""), "");
}

#[test]
fn excerpts_are_capped_and_in_order() {
    let lines: Vec<Line> = (0..200).map(|i| line("system-1", if i % 3 == 0 { "hola Ana" } else { "nada" })).collect();
    let indexes = context_line_indexes(&lines, &names(&["Ana"]));
    assert_eq!(indexes.len(), 80);
    assert_eq!(indexes, (0..80).collect::<Vec<usize>>());
}

#[test]
fn neighbours_of_the_first_and_last_lines_stay_in_range() {
    let lines = vec![line("system-1", "Ana"), line("system-2", "x"), line("system-1", "y"), line("system-2", "z"), line("mic", "adiós Ana")];
    assert_eq!(context_line_indexes(&lines, &names(&["Ana"])), vec![0, 1, 2, 3, 4]);
    let lines = vec![line("system-1", "a"), line("system-2", "b"), line("system-1", "c"), line("system-2", "d"), line("mic", "e"), line("mic", "Ana")];
    assert_eq!(context_line_indexes(&lines, &names(&["Ana"])), vec![3, 4, 5]);
}

#[test]
fn answers_are_trimmed_and_non_string_values_ignored() {
    let speakers = names(&["system-1", "system-2", "system-3"]);
    let attendees = names(&["Juan Pérez", "Ana Gómez"]);
    let answer = "{\"system-1\": \"\u{3000} ANA gómez \", \"system-2\": 7, \"system-3\": null}";
    let parsed = parse_suggestions(answer, &speakers, &attendees);
    assert_eq!(parsed, vec![("system-1".to_string(), "Ana Gómez".to_string())]);
}

#[test]
fn the_object_spans_from_the_first_open_to_the_last_close_brace() {
    let speakers = names(&["system-1"]);
    let answer = "Here {\"system-1\": \"Ana\"} and a trailing } brace";
    assert!(parse_suggestions(answer, &speakers, &names(&["Ana"])).is_empty());
    let answer = "noise {\"system-1\": {\"x\": 1}, \"system-1\": \"Ana\"} end";
    assert_eq!(parse_suggestions(answer, &speakers, &names(&["Ana"])), vec![("system-1".to_string(), "Ana".to_string())]);
}

#[test]
fn time_stamps_pad_minutes_and_seconds() {
    assert_eq!(format_time(None), "[00:00]");
    assert_eq!(format_time(Some(0)), "[00:00]");
    assert_eq!(format_time(Some(65)), "[01:05]");
    assert_eq!(format_time(Some(600)), "[10:00]");
    assert_eq!(format_time(Some(6001)), "[100:01]");
}

#[test]
fn prompt_lists_invitees_then_excerpts() {
    let lines = vec![Line { speaker: "system-1".to_string(), text: "hola Ana".to_string(), start_secs: Some(61) }];
    let prompt = build_prompt(&lines, &vec![0], &names(&["Ana", "Juan"]));
    assert_eq!(prompt, "People in this meeting: Ana, Juan\n\nTranscript excerpts:\n[01:01] system-1: hola Ana\n");
    assert_eq!(join(&names(&[]), ", "), "");
    assert_eq!(join(&names(&["a", "b", "c"]), "-"), "a-b-c");
}

#[test]
fn remote_speakers_are_listed_once_in_order() {
    let lines = vec![line("system-2", "a"), line("mic", "b"), line("system-1", "c"), line("system-2", "d"), line("systemx", "e")];
    assert_eq!(system_speakers(&lines), names(&["system-2", "system-1"]));
}

#[test]
fn nothing_is_excerpted_without_invitees_or_remote_speakers() {
    let lines = vec![line("system-1", "hola Ana")];
    assert!(excerpt_indexes(&lines, &names(&[]), &names(&["system-1"])).is_empty());
    assert!(excerpt_indexes(&lines, &names(&["Ana"]), &names(&[])).is_empty());
    assert_eq!(excerpt_indexes(&lines, &names(&["Ana"]), &names(&["system-1"])), vec![0]);
}

#[test]
fn the_current_user_is_the_microphone_and_listed_first() {
    let attendees = EventAttendees { me: Some("Yo Mismo".to_string()), others: names(&["Ana", "Juan"]) };
    let r = name_suggestions(attendees, vec![("system-1".to_string(), "Ana".to_string())]);
    assert_eq!(
        r.names,
        vec![("mic".to_string(), "Yo Mismo".to_string()), ("system-1".to_string(), "Ana".to_string())]
    );
    assert_eq!(r.attendees, names(&["Yo Mismo", "Ana", "Juan"]));
    let r = name_suggestions(EventAttendees::default(), vec![]);
    assert!(r.names.is_empty() && r.attendees.is_empty());
}

#[test]
fn an_open_brace_right_after_the_last_close_brace_yields_nothing() {
    let speakers = names(&["system-1"]);
    assert!(parse_suggestions("}{", &speakers, &names(&["Ana"])).is_empty());
    assert!(parse_suggestions("ok }}{{", &speakers, &names(&["Ana"])).is_empty());
    assert!(meetily::speaker_names::braces_are_ordered("}{"));
    assert!(meetily::speaker_names::braces_are_ordered("no braces"));
    assert!(!meetily::speaker_names::braces_are_ordered("} x {"));
}

fn member(key: &str, value: Option<&str>) -> (String, Option<String>) {
    (key.to_string(), value.map(|v| v.to_string()))
}

#[test]
fn accepted_members_keep_their_order_and_each_invitee_once() {
    let members = vec![
        member("system-2", Some("  laura ")),
        member("system-9", Some("Juan")),
        member("mic", Some("Juan")),
        member("system-1", None),
        member("system-3", Some("Laura Gómez")),
        member("system-1", Some("JUAN pérez")),
    ];
    let speakers = names(&["system-1", "system-2", "system-3", "mic"]);
    let attendees = names(&["Juan Pérez", "Laura Gómez"]);
    let accepted = accept_members(&members, &speakers, &attendees);
    assert_eq!(
        accepted,
        vec![
            ("system-2".to_string(), "Laura Gómez".to_string()),
            ("system-1".to_string(), "Juan Pérez".to_string()),
        ]
    );
}

#[test]
fn whole_words_are_case_sensitive_pieces_between_separators() {
    assert!(has_whole_word("hola, juan.", "juan"));
    assert!(!has_whole_word("hola, Juan.", "juan"));
    assert!(!has_whole_word("juana", "juan"));
    assert!(has_whole_word("a--b", ""));
    assert!(!has_whole_word("ab", ""));
}
