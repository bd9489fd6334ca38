//! Meeting-assistant logic: detecting meetings from microphone usage, telling remote speakers
//! apart, naming them from calendar invitees, and the text the assistant builds and validates.

pub mod calendar;
pub mod diarization;
pub mod eventkit;
pub mod meeting_detector;
pub mod speaker_names;
pub mod speakers;
pub mod text;
