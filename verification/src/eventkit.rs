//! The calendar backend of platforms without a system calendar service: access is never granted,
//! so no event is ever found.

use vstd::prelude::*;

verus! {

/// Whether the app may read the user's calendar.
pub fn has_access() -> (granted: bool)
    ensures
        !granted,
{
    false
}

/// Asks the user for calendar access; returns whether it was granted.
pub fn request_access() -> (granted: bool)
    ensures
        !granted,
{
    false
}

/// Title of the event happening now, if any.
pub fn current_event_title() -> (title: Option<String>)
    ensures
        title is None,
{
    None
}

} // verus!
