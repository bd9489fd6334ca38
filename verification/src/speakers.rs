//! Custom speaker names of a meeting, as stored per meeting and speaker key.

use vstd::prelude::*;

use crate::text::{trim, trimmed};

verus! {

/// Stores the custom display names of a meeting's speakers.
pub struct SpeakersRepository;

/// What storing a speaker name does to the stored names.
pub enum SpeakerNameChange {
    /// Remove the custom name: the speaker gets its default label back.
    Clear,
    /// Store this name (replacing any earlier one).
    Rename(String),
}

impl SpeakerNameChange {
    /// The name left stored by this change: the new name, or none (the default label).
    pub open spec fn stored_name(self) -> Option<Seq<char>> {
        match self {
            SpeakerNameChange::Clear => None,
            SpeakerNameChange::Rename(n) => Some(n@),
        }
    }
}

/// The name stored when a user enters `name`: the trimmed name, or none when it is blank.
pub open spec fn entered_name(name: Seq<char>) -> Option<Seq<char>> {
    if trimmed(name).len() == 0 {
        None
    } else {
        Some(trimmed(name))
    }
}

/// Custom names of all meetings' speakers, keyed by meeting id and speaker key, after storing
/// `stored` for one speaker of one meeting (deleting its row when there is no name).
pub open spec fn names_after(
    names: Map<(Seq<char>, Seq<char>), Seq<char>>,
    meeting_id: Seq<char>,
    speaker_key: Seq<char>,
    stored: Option<Seq<char>>,
) -> Map<(Seq<char>, Seq<char>), Seq<char>> {
    match stored {
        Some(n) => names.insert((meeting_id, speaker_key), n),
        None => names.remove((meeting_id, speaker_key)),
    }
}

/// Setting a speaker's name stores the trimmed name for that speaker of that meeting, or removes
/// its custom name when the name is blank (restoring the default label); every other speaker, of
/// this and of other meetings, keeps its name; and setting the same name again changes nothing.
pub proof fn lemma_set_name_effect(
    names: Map<(Seq<char>, Seq<char>), Seq<char>>,
    meeting_id: Seq<char>,
    speaker_key: Seq<char>,
    name: Seq<char>,
)
    ensures
        ({
            let after = names_after(names, meeting_id, speaker_key, entered_name(name));
            &&& trimmed(name).len() > 0 ==> after.contains_key((meeting_id, speaker_key))
                && after[(meeting_id, speaker_key)] == trimmed(name)
            &&& trimmed(name).len() == 0 ==> !after.contains_key((meeting_id, speaker_key))
            &&& forall|p: (Seq<char>, Seq<char>)| p != (meeting_id, speaker_key) ==> (#[trigger] after.contains_key(p)
                == names.contains_key(p) && (names.contains_key(p) ==> after[p] == names[p]))
            &&& names_after(after, meeting_id, speaker_key, entered_name(name)) == after
        }),
{
    let after = names_after(names, meeting_id, speaker_key, entered_name(name));
    assert(names_after(after, meeting_id, speaker_key, entered_name(name)) =~= after);
}

impl SpeakersRepository {
    /// The change a new display name makes: it is trimmed, and an empty name restores the default label.
    pub fn name_change(name: &str) -> (change: SpeakerNameChange)
        ensures
            change.stored_name() == entered_name(name@),
            match change {
                SpeakerNameChange::Clear => trimmed(name@).len() == 0,
                SpeakerNameChange::Rename(n) => trimmed(name@).len() > 0 && n@ == trimmed(name@),
            },
    {
        let name = trim(name);
        if name.unicode_len() == 0 {
            SpeakerNameChange::Clear
        } else {
            SpeakerNameChange::Rename(String::from_str(name))
        }
    }
}

} // verus!
