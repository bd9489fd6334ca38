# meetily

Verified core of a meeting assistant, written in Verus.

- `src/meeting_detector.rs` — the meeting detector: a state machine fed by polls (does a meeting app
  hold the microphone, does a recording run, what time is it) that decides when to start, suggest
  or stop a recording, with laws such as "only recordings the detector started are ever stopped".
- `src/diarization.rs` — which known voice a speech segment belongs to, and when a new voice may
  be registered (at most ten per recording).
- `src/speaker_names.rs` — whole-word mentions of invitees in a transcript, the excerpts and the
  prompt shown to the summary model, and validation of its answer.
- `src/calendar.rs`, `src/eventkit.rs` — invitees and titles of calendar events, naming settings.
- `src/speakers.rs` — what storing a custom speaker name does.
- `src/text.rs` — Unicode character classes and lowercasing (from std), trimming, words, decimals.

`app/` holds the unverified side: settings in their JSON form, the polling loop, floating-point
voice embeddings, calendar event selection, the database table and the model round trip.
