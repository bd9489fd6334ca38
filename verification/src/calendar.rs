//! Meeting naming and invitees from the calendar: which invitees an event lists, which title names
//! a meeting, and what the naming setting reports.

use vstd::prelude::*;

use crate::text::{trim, trimmed};

verus! {

/// People invited to a calendar event. `me` is the invitee marked as the current user.
pub struct EventAttendees {
    pub me: Option<String>,
    pub others: Vec<String>,
}

impl Default for EventAttendees {
    fn default() -> (attendees: Self)
        ensures
            attendees.me is None,
            attendees.others@.len() == 0,
    {
        EventAttendees { me: None, others: Vec::new() }
    }
}

/// Whether meetings are named after the calendar event happening now.
#[derive(Debug, Clone, Copy, PartialEq, Eq, Structural)]
pub struct CalendarNamingSettings {
    pub enabled: bool,
}

impl Default for CalendarNamingSettings {
    fn default() -> (settings: Self)
        ensures
            !settings.enabled,
    {
        CalendarNamingSettings { enabled: false }
    }
}

impl CalendarNamingSettings {
    /// The settings as reported to the user: naming counts as off when calendar access was
    /// revoked, instead of silently doing nothing.
    pub fn reported(&self, access_granted: bool) -> (settings: Self)
        ensures
            settings.enabled == (self.enabled && access_granted),
    {
        CalendarNamingSettings { enabled: self.enabled && access_granted }
    }
}

/// An invitee of a calendar event, as the calendar lists it.
pub struct Participant {
    /// The invitee is a person (not a room, a resource or a group).
    pub is_person: bool,
    pub name: Option<String>,
    /// The invitee is the user of this machine.
    pub is_current_user: bool,
}

/// The name an invitee contributes: the trimmed name of a person, when not blank.
pub open spec fn participant_name(p: Participant) -> Option<Seq<char>> {
    if p.is_person && p.name is Some && trimmed(p.name->0@).len() > 0 {
        Some(trimmed(p.name->0@))
    } else {
        None
    }
}

/// The attendees of an event with the given invitees, in order: the current user's name (the last
/// one listed) and the other names, each once, in the order first listed.
pub open spec fn gathered(participants: Seq<Participant>) -> (Option<Seq<char>>, Seq<Seq<char>>)
    decreases participants.len(),
{
    if participants.len() == 0 {
        (None, seq![])
    } else {
        let prev = gathered(participants.drop_last());
        let p = participants.last();
        match participant_name(p) {
            Some(n) => if p.is_current_user {
                (Some(n), prev.1)
            } else if prev.1.contains(n) {
                prev
            } else {
                (prev.0, prev.1.push(n))
            },
            None => prev,
        }
    }
}

/// Collects an event's attendees from its invitees.
pub fn collect_attendees(participants: &[Participant]) -> (attendees: EventAttendees)
    ensures
        (attendees.me.deep_view(), attendees.others.deep_view()) == gathered(participants@),
{
    let mut attendees = EventAttendees::default();
    assert(attendees.others.deep_view() =~= Seq::<Seq<char>>::empty());
    let mut i: usize = 0;
    while i < participants.len()
        invariant
            i <= participants.len(),
            (attendees.me.deep_view(), attendees.others.deep_view()) == gathered(participants@.take(i as int)),
        decreases participants.len() - i,
    {
        assert(participants@.take(i + 1).drop_last() =~= participants@.take(i as int));
        assert(participants@.take(i + 1).last() == participants@[i as int]);
        let participant = &participants[i];
        if participant.is_person {
            match &participant.name {
                Some(raw) => {
                    let name = trim(raw.as_str());
                    if name.unicode_len() > 0 {
                        let name = String::from_str(name);
                        if participant.is_current_user {
                            attendees.me = Some(name);
                        } else {
                            let mut known = false;
                            let mut k: usize = 0;
                            while k < attendees.others.len()
                                invariant
                                    k <= attendees.others.len(),
                                    known == exists|m: int| 0 <= m < k && attendees.others.deep_view()[m] == name@,
                                decreases attendees.others.len() - k,
                            {
                                assert(attendees.others.deep_view()[k as int] == attendees.others@[k as int]@);
                                if attendees.others[k] == name {
                                    known = true;
                                }
                                k = k + 1;
                            }
                            if !known {
                                let ghost before = attendees.others.deep_view();
                                attendees.others.push(name);
                                assert(attendees.others.deep_view() =~= before.push(name@));
                            }
                        }
                    }
                },
                None => {},
            }
        }
        i = i + 1;
    }
    assert(participants@.take(participants.len() as int) =~= participants@);
    attendees
}

/// The title naming a meeting after an event: the trimmed title, unless it is blank.
pub open spec fn event_title_of(title: Seq<char>) -> Option<Seq<char>> {
    if trimmed(title).len() > 0 {
        Some(trimmed(title))
    } else {
        None
    }
}

/// The trimmed event title, or `None` for a blank one.
pub fn event_title(title: &str) -> (r: Option<String>)
    ensures
        r.deep_view() == event_title_of(title@),
{
    let t = trim(title);
    if t.unicode_len() > 0 {
        Some(String::from_str(t))
    } else {
        None
    }
}

/// The attendees gathered from an event name each other invitee once, never by a blank name, and
/// name only invitees that are people.
pub proof fn lemma_gathered_names_distinct(participants: Seq<Participant>)
    ensures
        ({
            let (me, others) = gathered(participants);
            &&& forall|a: int, b: int| 0 <= a < b < others.len() ==> others[a] != others[b]
            &&& forall|a: int| 0 <= a < others.len() ==> (#[trigger] others[a]).len() > 0
            &&& forall|a: int| #![trigger others[a]] 0 <= a < others.len() ==> exists|k: int| 0 <= k < participants.len()
                && !participants[k].is_current_user && #[trigger] participant_name(participants[k]) == Some(others[a])
            &&& me matches Some(m) ==> m.len() > 0
        }),
    decreases participants.len(),
{
    if participants.len() > 0 {
        let rest = participants.drop_last();
        lemma_gathered_names_distinct(rest);
        let prev = gathered(rest);
        let (me, others) = gathered(participants);
        assert forall|a: int| #![trigger prev.1[a]] 0 <= a < prev.1.len() implies exists|k: int| 0 <= k < participants.len()
            && !participants[k].is_current_user && #[trigger] participant_name(participants[k]) == Some(prev.1[a]) by {
            let k = choose|k: int| 0 <= k < rest.len() && !rest[k].is_current_user && #[trigger] participant_name(rest[k]) == Some(prev.1[a]);
            assert(participants[k] == rest[k]);
        }
        let p = participants.last();
        if participant_name(p) is Some && !p.is_current_user && !prev.1.contains(participant_name(p)->0) {
            assert(participants[participants.len() - 1] == p);
            assert(others[prev.1.len() as int] == participant_name(p)->0);
        }
    }
}

} // verus!
