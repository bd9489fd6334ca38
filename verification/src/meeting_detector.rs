//! Meeting detection: when a meeting app keeps the microphone open the detector either suggests a
//! recording or, in auto mode, starts one and stops it once the app releases the microphone.
//! The detector only stops recordings it started itself; manual recordings are never touched.

use vstd::prelude::*;

use crate::text::{has_prefix, starts_with};

verus! {

/// How the detector reacts to a meeting.
#[derive(Debug, Clone, Copy, PartialEq, Eq, Structural)]
pub enum DetectionMode {
    Off,
    Suggest,
    Auto,
}

impl Default for DetectionMode {
    fn default() -> (mode: Self)
        ensures
            mode == DetectionMode::Off,
    {
        DetectionMode::Off
    }
}

/// Stored detector settings. Settings saved before `mode` existed only had `auto_record`.
#[derive(Debug, Clone, Copy, PartialEq, Eq, Structural)]
pub struct MeetingDetectionSettings {
    pub mode: DetectionMode,
    pub auto_record: bool,
}

impl Default for MeetingDetectionSettings {
    fn default() -> (settings: Self)
        ensures
            settings.mode == DetectionMode::Off,
            !settings.auto_record,
    {
        MeetingDetectionSettings { mode: DetectionMode::Off, auto_record: false }
    }
}

/// The mode in force: the legacy `auto_record` flag means auto mode when no mode was chosen.
pub open spec fn spec_effective_mode(settings: MeetingDetectionSettings) -> DetectionMode {
    if settings.mode == DetectionMode::Off && settings.auto_record {
        DetectionMode::Auto
    } else {
        settings.mode
    }
}

impl MeetingDetectionSettings {
    pub fn effective_mode(&self) -> (mode: DetectionMode)
        ensures
            mode == spec_effective_mode(*self),
    {
        if self.mode == DetectionMode::Off && self.auto_record {
            DetectionMode::Auto
        } else {
            self.mode
        }
    }
}


/// Mic must stay busy this long before recording, so a quick mic test or a dictation doesn't count.
pub const START_AFTER_NANOS: u64 = 6_000_000_000;
/// Mic must stay free this long before stopping, so rejoining a call or switching devices doesn't cut it.
pub const STOP_AFTER_NANOS: u64 = 20_000_000_000;
/// If the frontend hasn't started recording by then, give up until the meeting ends.
pub const START_TIMEOUT_NANOS: u64 = 30_000_000_000;

/// What the detector asks the application to do.
#[derive(Debug, Clone, Copy, PartialEq, Eq, Structural)]
pub enum DetectorAction {
    StartRecording,
    StopRecording,
}

/// Where the detector stands with respect to the current meeting. Times are readings of a
/// monotonic clock in nanoseconds.
#[derive(Debug, Clone, Copy, PartialEq, Eq, Structural)]
pub enum Phase {
    Idle,
    /// A start was requested at the given time and the recording has not begun yet.
    Starting(u64),
    AutoRecording,
    /// A recording the user started (or one already handed back); never stopped by the detector.
    ManualRecording,
    /// Recording ended while the meeting is still on: don't restart until the mic is released.
    WaitForMeetingEnd,
}

/// The detector's state as the contracts see it.
pub struct RecorderModel {
    pub phase: Phase,
    /// Since when the meeting app has held the microphone without interruption.
    pub busy_since: Option<u64>,
    /// Since when the microphone has been free without interruption.
    pub free_since: Option<u64>,
}

/// One event of the detector's history: a poll of the world (whether a meeting app holds the
/// microphone, whether a recording runs, and the clock reading), or, when `hand_off` is set, a start
/// handed to the user instead of performed (the other fields then do not matter).
pub struct Observation {
    pub hand_off: bool,
    pub mic_busy: bool,
    pub recording: bool,
    pub now: u64,
}

/// Time from `since` to `now`; an earlier `now` counts as no time at all.
pub open spec fn elapsed(now: u64, since: u64) -> int {
    if now >= since {
        now - since
    } else {
        0
    }
}

/// Length of the uninterrupted stretch that started at `since`, or zero when there is none.
pub open spec fn stretch(now: u64, since: Option<u64>) -> int {
    match since {
        Some(t) => elapsed(now, t),
        None => 0,
    }
}

/// The detector before any poll.
pub open spec fn initial_model() -> RecorderModel {
    RecorderModel { phase: Phase::Idle, busy_since: None, free_since: None }
}

/// One poll of the detector: the timers follow the microphone, then the phase moves on and at most
/// one action is requested.
pub open spec fn step(m: RecorderModel, mic_busy: bool, recording: bool, now: u64) -> (RecorderModel, Option<DetectorAction>) {
    let busy_since = if mic_busy { Some(m.busy_since.unwrap_or(now)) } else { None };
    let free_since = if mic_busy { None } else { Some(m.free_since.unwrap_or(now)) };
    let busy_for = stretch(now, busy_since);
    let free_for = stretch(now, free_since);
    let after_recording = if mic_busy { Phase::WaitForMeetingEnd } else { Phase::Idle };
    let (phase, action) = match m.phase {
        Phase::Idle => if recording {
            (Phase::ManualRecording, None)
        } else if busy_for >= START_AFTER_NANOS {
            (Phase::Starting(now), Some(DetectorAction::StartRecording))
        } else {
            (Phase::Idle, None)
        },
        Phase::Starting(requested_at) => if recording {
            (Phase::AutoRecording, None)
        } else if elapsed(now, requested_at) >= START_TIMEOUT_NANOS {
            (Phase::WaitForMeetingEnd, None)
        } else {
            (Phase::Starting(requested_at), None)
        },
        Phase::AutoRecording => if !recording {
            (after_recording, None)
        } else if free_for >= STOP_AFTER_NANOS {
            (Phase::ManualRecording, Some(DetectorAction::StopRecording))
        } else {
            (Phase::AutoRecording, None)
        },
        Phase::ManualRecording => if !recording {
            (after_recording, None)
        } else {
            (Phase::ManualRecording, None)
        },
        Phase::WaitForMeetingEnd => if recording {
            (Phase::ManualRecording, None)
        } else if !mic_busy {
            (Phase::Idle, None)
        } else {
            (Phase::WaitForMeetingEnd, None)
        },
    };
    (RecorderModel { phase, busy_since, free_since }, action)
}

/// Decides when to start and stop recordings from successive polls.
pub struct AutoRecordState {
    phase: Phase,
    busy_since: Option<u64>,
    free_since: Option<u64>,
}

impl View for AutoRecordState {
    type V = RecorderModel;

    closed spec fn view(&self) -> RecorderModel {
        RecorderModel { phase: self.phase, busy_since: self.busy_since, free_since: self.free_since }
    }
}

impl Default for AutoRecordState {
    fn default() -> (state: Self)
        ensures
            state@ == initial_model(),
    {
        AutoRecordState { phase: Phase::Idle, busy_since: None, free_since: None }
    }
}

impl AutoRecordState {
    /// Feeds one poll to the detector and returns what the application should do, if anything.
    pub fn tick(&mut self, meeting_mic_busy: bool, is_recording: bool, now: u64) -> (action: Option<DetectorAction>)
        ensures
            (final(self)@, action) == step(old(self)@, meeting_mic_busy, is_recording, now),
    {
        if meeting_mic_busy {
            self.free_since = None;
            if self.busy_since.is_none() {
                self.busy_since = Some(now);
            }
        } else {
            self.busy_since = None;
            if self.free_since.is_none() {
                self.free_since = Some(now);
            }
        }
        let busy_for: u64 = match self.busy_since {
            Some(t) => if now >= t { now - t } else { 0 },
            None => 0,
        };
        let free_for: u64 = match self.free_since {
            Some(t) => if now >= t { now - t } else { 0 },
            None => 0,
        };
        let after_recording = if meeting_mic_busy { Phase::WaitForMeetingEnd } else { Phase::Idle };

        let phase = self.phase;
        match phase {
            Phase::Idle => {
                if is_recording {
                    self.phase = Phase::ManualRecording;
                } else if busy_for >= START_AFTER_NANOS {
                    self.phase = Phase::Starting(now);
                    return Some(DetectorAction::StartRecording);
                }
            },
            Phase::Starting(requested_at) => {
                let waited: u64 = if now >= requested_at { now - requested_at } else { 0 };
                if is_recording {
                    self.phase = Phase::AutoRecording;
                } else if waited >= START_TIMEOUT_NANOS {
                    self.phase = Phase::WaitForMeetingEnd;
                }
            },
            Phase::AutoRecording => {
                if !is_recording {
                    self.phase = after_recording;
                } else if free_for >= STOP_AFTER_NANOS {
                    // Still recording until the stop completes; ManualRecording waits it out without acting.
                    self.phase = Phase::ManualRecording;
                    return Some(DetectorAction::StopRecording);
                }
            },
            Phase::ManualRecording => {
                if !is_recording {
                    self.phase = after_recording;
                }
            },
            Phase::WaitForMeetingEnd => {
                if is_recording {
                    self.phase = Phase::ManualRecording;
                } else if !meeting_mic_busy {
                    self.phase = Phase::Idle;
                }
            },
        }
        None
    }

    /// The start was offered to the user instead of performed: don't offer it again until the
    /// meeting ends, and treat a recording the user starts as manual (never auto-stopped).
    pub fn start_handed_to_user(&mut self)
        ensures
            final(self)@ == (RecorderModel { phase: Phase::WaitForMeetingEnd, ..old(self)@ }),
    {
        self.phase = Phase::WaitForMeetingEnd;
    }
}

/// The effect of one event on the detector: a poll is a `step`; a hand-off sends the detector to
/// wait for the meeting to end and requests nothing.
pub open spec fn apply(m: RecorderModel, p: Observation) -> (RecorderModel, Option<DetectorAction>) {
    if p.hand_off {
        (RecorderModel { phase: Phase::WaitForMeetingEnd, ..m }, None)
    } else {
        step(m, p.mic_busy, p.recording, p.now)
    }
}

/// The detector after the events in `polls`, in order, starting from `m`.
pub open spec fn run(m: RecorderModel, polls: Seq<Observation>) -> RecorderModel
    decreases polls.len(),
{
    if polls.len() == 0 {
        m
    } else {
        apply(run(m, polls.drop_last()), polls.last()).0
    }
}

/// What the detector requests at the event `polls[k]`, starting from `m`.
#[verifier::opaque]
pub open spec fn action_at(m: RecorderModel, polls: Seq<Observation>, k: int) -> Option<DetectorAction> {
    apply(run(m, polls.take(k)), polls[k]).1
}

/// The request at event `k` is the one the detector makes from the state the earlier events led to.
pub proof fn lemma_action_at_step(m: RecorderModel, polls: Seq<Observation>, k: int)
    requires
        0 <= k < polls.len(),
    ensures
        action_at(m, polls, k) == apply(run(m, polls.take(k)), polls[k]).1,
{
    reveal(action_at);
}

/// Phases in which the recording in progress, if any, was requested by the detector.
pub open spec fn owns_recording(phase: Phase) -> bool {
    phase is Starting || phase is AutoRecording
}

/// Phases that leave the recording to the user.
pub open spec fn user_owned(phase: Phase) -> bool {
    phase is ManualRecording || phase is WaitForMeetingEnd
}

/// A start is requested only from an idle detector, only while no recording runs, and only once
/// the meeting app has held the microphone for `START_AFTER_NANOS` without interruption.
pub proof fn lemma_start_needs_sustained_mic(m: RecorderModel, mic_busy: bool, recording: bool, now: u64)
    ensures
        step(m, mic_busy, recording, now).1 == Some(DetectorAction::StartRecording) ==> {
            let next = step(m, mic_busy, recording, now).0;
            &&& m.phase == Phase::Idle
            &&& mic_busy
            &&& !recording
            &&& next.busy_since is Some
            &&& stretch(now, next.busy_since) >= START_AFTER_NANOS
            &&& next.phase == Phase::Starting(now)
        },
{
}

/// A stop is requested only for a recording the detector started, while it still runs, once the
/// microphone has been free for `STOP_AFTER_NANOS`; the detector then stops acting on it.
pub proof fn lemma_stop_needs_released_mic(m: RecorderModel, mic_busy: bool, recording: bool, now: u64)
    ensures
        step(m, mic_busy, recording, now).1 == Some(DetectorAction::StopRecording) ==> {
            let next = step(m, mic_busy, recording, now).0;
            &&& m.phase == Phase::AutoRecording
            &&& recording
            &&& !mic_busy
            &&& stretch(now, next.free_since) >= STOP_AFTER_NANOS
            &&& next.phase == Phase::ManualRecording
        },
{
}

/// While a start is pending no second start is requested, and a manual recording is never acted
/// upon: the detector only leaves it once the recording has ended.
pub proof fn lemma_no_action_while_pending_or_manual(m: RecorderModel, mic_busy: bool, recording: bool, now: u64)
    ensures
        m.phase is Starting ==> step(m, mic_busy, recording, now).1 is None,
        m.phase is ManualRecording ==> step(m, mic_busy, recording, now).1 is None,
        m.phase is ManualRecording ==> (step(m, mic_busy, recording, now).0.phase is ManualRecording <==> recording),
        m.phase is WaitForMeetingEnd ==> step(m, mic_busy, recording, now).1 is None,
{
}

/// A start request is given up once the frontend has not started recording within
/// `START_TIMEOUT_NANOS`, and the detector then waits for the meeting to end.
pub proof fn lemma_pending_start_times_out(m: RecorderModel, mic_busy: bool, recording: bool, now: u64)
    requires
        m.phase is Starting,
        !recording,
        elapsed(now, m.phase->Starting_0) >= START_TIMEOUT_NANOS,
    ensures
        step(m, mic_busy, recording, now).0.phase == Phase::WaitForMeetingEnd,
{
}

proof fn lemma_run_take_step(m: RecorderModel, polls: Seq<Observation>, n: int)
    requires
        0 <= n < polls.len(),
    ensures
        run(m, polls.take(n + 1)) == apply(run(m, polls.take(n)), polls[n]).0,
{
    assert(polls.take(n + 1).drop_last() =~= polls.take(n));
}

proof fn lemma_owned_phase_follows_start(m: RecorderModel, polls: Seq<Observation>, n: int)
    requires
        !owns_recording(m.phase),
        0 <= n <= polls.len(),
    ensures
        owns_recording(run(m, polls.take(n)).phase) ==> exists|j: int| 0 <= j < n && #[trigger] action_at(m, polls, j) == Some(DetectorAction::StartRecording),
    decreases n,
{
    if n == 0 {
        assert(polls.take(0) =~= Seq::<Observation>::empty());
    } else {
        lemma_owned_phase_follows_start(m, polls, n - 1);
        lemma_run_take_step(m, polls, n - 1);
        lemma_action_at_step(m, polls, n - 1);
        let prev = run(m, polls.take(n - 1));
        if owns_recording(run(m, polls.take(n)).phase) && !owns_recording(prev.phase) {
            assert(action_at(m, polls, n - 1) == Some(DetectorAction::StartRecording));
        }
    }
}

/// The detector only stops recordings it started itself: from any state that owns no recording,
/// every stop it requests comes after a start it requested.
pub proof fn lemma_only_stops_own_recordings(m: RecorderModel, polls: Seq<Observation>, k: int)
    requires
        !owns_recording(m.phase),
        0 <= k < polls.len(),
        action_at(m, polls, k) == Some(DetectorAction::StopRecording),
    ensures
        exists|j: int| 0 <= j < k && #[trigger] action_at(m, polls, j) == Some(DetectorAction::StartRecording),
{
    let p = polls[k];
    lemma_action_at_step(m, polls, k);
    lemma_stop_needs_released_mic(run(m, polls.take(k)), p.mic_busy, p.recording, p.now);
    lemma_owned_phase_follows_start(m, polls, k);
}

/// Event `p` does not interrupt a stretch during which the microphone is busy (`busy`) or free
/// (`!busy`): it is a hand-off, or a poll that finds the microphone in that state.
pub open spec fn continues_stretch(p: Observation, busy: bool) -> bool {
    p.hand_off || p.mic_busy == busy
}

proof fn lemma_user_owned_persists(m: RecorderModel, polls: Seq<Observation>, n: int)
    requires
        user_owned(m.phase),
        forall|i: int| 0 <= i < polls.len() ==> continues_stretch(#[trigger] polls[i], true),
        0 <= n <= polls.len(),
    ensures
        user_owned(run(m, polls.take(n)).phase),
    decreases n,
{
    if n == 0 {
        assert(polls.take(0) =~= Seq::<Observation>::empty());
    } else {
        lemma_user_owned_persists(m, polls, n - 1);
        lemma_run_take_step(m, polls, n - 1);
        assert(continues_stretch(polls[n - 1], true));
    }
}

/// Once a start has been handed to the user (or the user records), the detector requests nothing,
/// neither a new start nor a stop, for as long as the meeting app keeps the microphone.
pub proof fn lemma_handed_start_stays_with_user(m: RecorderModel, polls: Seq<Observation>, k: int)
    requires
        user_owned(m.phase),
        forall|i: int| 0 <= i < polls.len() ==> continues_stretch(#[trigger] polls[i], true),
        0 <= k < polls.len(),
    ensures
        action_at(m, polls, k) is None,
{
    lemma_user_owned_persists(m, polls, k);
    assert(continues_stretch(polls[k], true));
    lemma_action_at_step(m, polls, k);
}

/// First event of the stretch (busy or free microphone, as `busy` says) that ends at event `k`.
pub open spec fn stretch_start(polls: Seq<Observation>, k: int, busy: bool) -> int
    decreases k,
{
    if k > 0 && continues_stretch(polls[k - 1], busy) {
        stretch_start(polls, k - 1, busy)
    } else {
        k
    }
}

/// The first poll (event that is not a hand-off) at or after event `i`.
pub open spec fn first_poll_from(polls: Seq<Observation>, i: int) -> int
    decreases polls.len() - i,
{
    if 0 <= i < polls.len() && polls[i].hand_off {
        first_poll_from(polls, i + 1)
    } else {
        i
    }
}

/// The detector's timer for a busy (`busy`) or free microphone.
pub open spec fn timer(m: RecorderModel, busy: bool) -> Option<u64> {
    if busy {
        m.busy_since
    } else {
        m.free_since
    }
}

proof fn lemma_stretch_start_bounds(polls: Seq<Observation>, k: int, busy: bool)
    requires
        0 <= k < polls.len(),
    ensures
        0 <= stretch_start(polls, k, busy) <= k,
        forall|i: int| stretch_start(polls, k, busy) <= i < k ==> continues_stretch(#[trigger] polls[i], busy),
        stretch_start(polls, k, busy) == 0 || !continues_stretch(polls[stretch_start(polls, k, busy) - 1], busy),
    decreases k,
{
    if k > 0 && continues_stretch(polls[k - 1], busy) {
        lemma_stretch_start_bounds(polls, k - 1, busy);
    }
}

proof fn lemma_first_poll_bounds(polls: Seq<Observation>, i: int)
    requires
        0 <= i <= polls.len(),
    ensures
        i <= first_poll_from(polls, i) <= polls.len(),
        forall|x: int| i <= x < first_poll_from(polls, i) ==> (#[trigger] polls[x]).hand_off,
        first_poll_from(polls, i) < polls.len() ==> !polls[first_poll_from(polls, i)].hand_off,
    decreases polls.len() - i,
{
    if i < polls.len() && polls[i].hand_off {
        lemma_first_poll_bounds(polls, i + 1);
    }
}

proof fn lemma_timer_marks_stretch(m: RecorderModel, polls: Seq<Observation>, busy: bool, s: int, n: int)
    requires
        0 <= s <= n <= polls.len(),
        s == 0 ==> timer(m, busy) is None,
        s > 0 ==> !continues_stretch(polls[s - 1], busy),
        forall|i: int| s <= i < n ==> continues_stretch(#[trigger] polls[i], busy),
    ensures
        timer(run(m, polls.take(n)), busy) == if n <= first_poll_from(polls, s) {
            None
        } else {
            Some(polls[first_poll_from(polls, s)].now)
        },
    decreases n,
{
    lemma_first_poll_bounds(polls, s);
    let f = first_poll_from(polls, s);
    if n == s {
        if s == 0 {
            assert(polls.take(0) =~= Seq::<Observation>::empty());
        } else {
            lemma_run_take_step(m, polls, s - 1);
        }
    } else {
        lemma_timer_marks_stretch(m, polls, busy, s, n - 1);
        lemma_run_take_step(m, polls, n - 1);
        assert(continues_stretch(polls[n - 1], busy));
        if n - 1 < f {
            assert(polls[n - 1].hand_off);
        }
    }
}

proof fn lemma_not_idle_while_busy_after_start(m: RecorderModel, polls: Seq<Observation>, j: int, n: int)
    requires
        0 <= j < n <= polls.len(),
        action_at(m, polls, j) == Some(DetectorAction::StartRecording),
        forall|i: int| j < i < n ==> continues_stretch(#[trigger] polls[i], true),
    ensures
        run(m, polls.take(n)).phase != Phase::Idle,
    decreases n,
{
    lemma_run_take_step(m, polls, n - 1);
    if n == j + 1 {
        let p = polls[j];
        lemma_action_at_step(m, polls, j);
        lemma_start_needs_sustained_mic(run(m, polls.take(j)), p.mic_busy, p.recording, p.now);
    } else {
        lemma_not_idle_while_busy_after_start(m, polls, j, n - 1);
        assert(continues_stretch(polls[n - 1], true));
    }
}

/// For any history from a state with no busy stretch under way (such as the initial one),
/// hand-offs included: a start is requested at event `k` only when a poll `f` began the stretch of
/// busy-microphone polls (hand-offs do not interrupt it) that leads to `k`, at least
/// `START_AFTER_NANOS` before, and no other start was requested during that stretch.
pub proof fn lemma_one_start_per_busy_stretch(m: RecorderModel, polls: Seq<Observation>, k: int)
    requires
        m.busy_since is None,
        0 <= k < polls.len(),
        action_at(m, polls, k) == Some(DetectorAction::StartRecording),
    ensures
        ({
            let s = stretch_start(polls, k, true);
            let f = first_poll_from(polls, s);
            &&& 0 <= s <= f <= k
            &&& !polls[k].hand_off && polls[k].mic_busy && !polls[k].recording
            &&& s == 0 || (!polls[s - 1].hand_off && !polls[s - 1].mic_busy)
            &&& forall|i: int| s <= i < f ==> (#[trigger] polls[i]).hand_off
            &&& !polls[f].hand_off && polls[f].mic_busy
            &&& forall|i: int| f <= i <= k ==> continues_stretch(#[trigger] polls[i], true)
            &&& elapsed(polls[k].now, polls[f].now) >= START_AFTER_NANOS
            &&& forall|i: int| s <= i < k ==> #[trigger] action_at(m, polls, i) != Some(DetectorAction::StartRecording)
        }),
{
    let s = stretch_start(polls, k, true);
    let p = polls[k];
    lemma_action_at_step(m, polls, k);
    lemma_start_needs_sustained_mic(run(m, polls.take(k)), p.mic_busy, p.recording, p.now);
    lemma_stretch_start_bounds(polls, k, true);
    lemma_first_poll_bounds(polls, s);
    let f = first_poll_from(polls, s);
    if f > k {
        assert(polls[k].hand_off);
    }
    lemma_run_take_step(m, polls, k);
    lemma_timer_marks_stretch(m, polls, true, s, k + 1);
    assert forall|i: int| s <= i < k implies #[trigger] action_at(m, polls, i) != Some(DetectorAction::StartRecording) by {
        if action_at(m, polls, i) == Some(DetectorAction::StartRecording) {
            lemma_not_idle_while_busy_after_start(m, polls, i, k);
        }
    }
}

/// For any history from a state with no free-microphone stretch under way (such as the initial
/// one), hand-offs included: a stop is requested at event `k` only when a poll `f` began the
/// stretch of free-microphone polls that leads to `k` at least `STOP_AFTER_NANOS` before.
pub proof fn lemma_stop_after_free_stretch(m: RecorderModel, polls: Seq<Observation>, k: int)
    requires
        m.free_since is None,
        0 <= k < polls.len(),
        action_at(m, polls, k) == Some(DetectorAction::StopRecording),
    ensures
        ({
            let s = stretch_start(polls, k, false);
            let f = first_poll_from(polls, s);
            &&& 0 <= s <= f <= k
            &&& !polls[k].hand_off && !polls[k].mic_busy && polls[k].recording
            &&& s == 0 || (!polls[s - 1].hand_off && polls[s - 1].mic_busy)
            &&& forall|i: int| s <= i < f ==> (#[trigger] polls[i]).hand_off
            &&& !polls[f].hand_off && !polls[f].mic_busy
            &&& forall|i: int| f <= i <= k ==> continues_stretch(#[trigger] polls[i], false)
            &&& elapsed(polls[k].now, polls[f].now) >= STOP_AFTER_NANOS
        }),
{
    let s = stretch_start(polls, k, false);
    let p = polls[k];
    lemma_action_at_step(m, polls, k);
    lemma_stop_needs_released_mic(run(m, polls.take(k)), p.mic_busy, p.recording, p.now);
    lemma_stretch_start_bounds(polls, k, false);
    lemma_first_poll_bounds(polls, s);
    let f = first_poll_from(polls, s);
    if f > k {
        assert(polls[k].hand_off);
    }
    lemma_run_take_step(m, polls, k);
    lemma_timer_marks_stretch(m, polls, false, s, k + 1);
}

/// The poll at which the pending start in `run(m, polls.take(n))` was requested.
proof fn lemma_pending_start_history(m: RecorderModel, polls: Seq<Observation>, n: int) -> (j: int)
    requires
        !owns_recording(m.phase),
        0 <= n <= polls.len(),
        run(m, polls.take(n)).phase is Starting,
    ensures
        0 <= j < n,
        action_at(m, polls, j) == Some(DetectorAction::StartRecording),
        forall|i: int| j < i < n ==> !(#[trigger] polls[i]).recording && !polls[i].hand_off,
        forall|i: int| j < i < n ==> #[trigger] action_at(m, polls, i) is None,
    decreases n,
{
    if n == 0 {
        assert(polls.take(0) =~= Seq::<Observation>::empty());
        0
    } else {
        lemma_run_take_step(m, polls, n - 1);
        lemma_action_at_step(m, polls, n - 1);
        let prev = run(m, polls.take(n - 1));
        if prev.phase is Starting {
            let j = lemma_pending_start_history(m, polls, n - 1);
            assert(!polls[n - 1].recording && !polls[n - 1].hand_off);
            j
        } else {
            n - 1
        }
    }
}

/// The events at which the recording `run(m, polls.take(n))` owns was requested and first seen.
proof fn lemma_auto_recording_history(m: RecorderModel, polls: Seq<Observation>, n: int) -> (jr: (int, int))
    requires
        !owns_recording(m.phase),
        0 <= n <= polls.len(),
        run(m, polls.take(n)).phase is AutoRecording,
    ensures
        0 <= jr.0 < jr.1 < n,
        action_at(m, polls, jr.0) == Some(DetectorAction::StartRecording),
        forall|i: int| jr.0 < i < jr.1 ==> !(#[trigger] polls[i]).recording,
        forall|i: int| jr.1 <= i < n ==> (#[trigger] polls[i]).recording,
        forall|i: int| jr.0 < i < n ==> !(#[trigger] polls[i]).hand_off,
        forall|i: int| jr.0 < i < n ==> #[trigger] action_at(m, polls, i) is None,
    decreases n,
{
    if n == 0 {
        assert(polls.take(0) =~= Seq::<Observation>::empty());
        (0, 0)
    } else {
        lemma_run_take_step(m, polls, n - 1);
        lemma_action_at_step(m, polls, n - 1);
        let prev = run(m, polls.take(n - 1));
        if prev.phase is AutoRecording {
            let jr = lemma_auto_recording_history(m, polls, n - 1);
            assert(polls[n - 1].recording && !polls[n - 1].hand_off);
            jr
        } else {
            let j = lemma_pending_start_history(m, polls, n - 1);
            assert(polls[n - 1].recording && !polls[n - 1].hand_off);
            (j, n - 1)
        }
    }
}

/// A stop concerns the recording the detector started: from a state that owns no recording, every
/// stop at event `k` follows a start at some event `j` after which the detector requested nothing
/// else and no start was handed to the user; the recording began at some poll `r` after `j` and was
/// seen running at every poll from `r` through `k` (a recording that ended in between would have
/// been left alone).
pub proof fn lemma_stop_ends_own_continuous_recording(m: RecorderModel, polls: Seq<Observation>, k: int)
    requires
        !owns_recording(m.phase),
        0 <= k < polls.len(),
        action_at(m, polls, k) == Some(DetectorAction::StopRecording),
    ensures
        exists|j: int, r: int|
            #![trigger action_at(m, polls, j), polls[r]]
            0 <= j < r <= k && action_at(m, polls, j) == Some(DetectorAction::StartRecording)
                && (forall|i: int| j < i < r ==> !(#[trigger] polls[i]).recording)
                && (forall|i: int| r <= i <= k ==> (#[trigger] polls[i]).recording)
                && (forall|i: int| j < i <= k ==> !(#[trigger] polls[i]).hand_off)
                && (forall|i: int| j < i < k ==> #[trigger] action_at(m, polls, i) is None),
{
    let p = polls[k];
    lemma_action_at_step(m, polls, k);
    lemma_stop_needs_released_mic(run(m, polls.take(k)), p.mic_busy, p.recording, p.now);
    let (j, r) = lemma_auto_recording_history(m, polls, k);
    assert(polls[k].recording && !polls[k].hand_off);
    assert(forall|i: int| r <= i <= k ==> (#[trigger] polls[i]).recording);
    assert(forall|i: int| j < i <= k ==> !(#[trigger] polls[i]).hand_off);
    assert(polls[r].recording);
}

/// A poll that sees a recording running leaves the detector in charge of that recording or leaves
/// it to the user, whatever state the detector was in: never idle and never waiting for a start.
pub proof fn lemma_seen_recording_is_tracked(m: RecorderModel, mic_busy: bool, now: u64)
    ensures
        ({
            let (next, action) = step(m, mic_busy, true, now);
            &&& next.phase is AutoRecording || next.phase is ManualRecording
            &&& action != Some(DetectorAction::StartRecording)
            &&& m.phase is Idle ==> next.phase is ManualRecording && action is None
        }),
{
}

proof fn lemma_no_idle_after_seen_recording(m: RecorderModel, polls: Seq<Observation>, j: int, n: int)
    requires
        0 <= j < n <= polls.len(),
        !polls[j].hand_off,
        polls[j].recording,
        forall|i: int| j < i < n ==> continues_stretch(#[trigger] polls[i], true),
    ensures
        ({
            let ph = run(m, polls.take(n)).phase;
            ph is AutoRecording || ph is ManualRecording || ph is WaitForMeetingEnd
        }),
    decreases n,
{
    lemma_run_take_step(m, polls, n - 1);
    if n - 1 > j {
        lemma_no_idle_after_seen_recording(m, polls, j, n - 1);
        assert(continues_stretch(polls[n - 1], true));
    }
}

/// Once a poll has seen a recording running (the user's or the detector's), the detector requests
/// no start for as long as the meeting app keeps the microphone: a recording that ends during the
/// meeting is not restarted, and only a released microphone lets a later meeting start one.
pub proof fn lemma_no_restart_while_meeting_continues(m: RecorderModel, polls: Seq<Observation>, j: int, k: int)
    requires
        0 <= j <= k < polls.len(),
        !polls[j].hand_off,
        polls[j].recording,
        forall|i: int| j < i <= k ==> continues_stretch(#[trigger] polls[i], true),
    ensures
        action_at(m, polls, k) != Some(DetectorAction::StartRecording),
{
    let p = polls[k];
    lemma_action_at_step(m, polls, k);
    lemma_start_needs_sustained_mic(run(m, polls.take(k)), p.mic_busy, p.recording, p.now);
    if k > j {
        lemma_no_idle_after_seen_recording(m, polls, j, k);
    }
}

/// Bundle id prefixes of apps whose microphone use means "in a meeting". Browsers cover web
/// meetings; Safari captures audio from the shared WebKit process, hence `com.apple.WebKit`.
pub open spec fn meeting_app_bundle_prefixes() -> Seq<Seq<char>> {
    seq![
        "com.google.Chrome"@,
        "com.brave.Browser"@,
        "com.microsoft.edgemac"@,
        "company.thebrowser.Browser"@,
        "org.mozilla.firefox"@,
        "com.apple.Safari"@,
        "com.apple.WebKit"@,
        "us.zoom.xos"@,
        "com.microsoft.teams"@,
        "com.tinyspeck.slackmacgap"@,
        "com.hnc.Discord"@,
        "com.apple.FaceTime"@,
    ]
}

/// Whether the app with this bundle id is a meeting app: its id starts with one of the known prefixes.
pub fn is_meeting_app(bundle_id: &str) -> (r: bool)
    ensures
        r == exists|i: int| 0 <= i < meeting_app_bundle_prefixes().len() && has_prefix(bundle_id@, #[trigger] meeting_app_bundle_prefixes()[i]),
{
    let prefixes: Vec<&str> = vec![
        "com.google.Chrome",
        "com.brave.Browser",
        "com.microsoft.edgemac",
        "company.thebrowser.Browser",
        "org.mozilla.firefox",
        "com.apple.Safari",
        "com.apple.WebKit",
        "us.zoom.xos",
        "com.microsoft.teams",
        "com.tinyspeck.slackmacgap",
        "com.hnc.Discord",
        "com.apple.FaceTime",
    ];
    let ghost known = meeting_app_bundle_prefixes();
    assert(prefixes@.map_values(|p: &str| p@) =~= known);
    let mut i: usize = 0;
    while i < prefixes.len()
        invariant
            known == meeting_app_bundle_prefixes(),
            prefixes@.map_values(|p: &str| p@) == known,
            i <= prefixes.len(),
            forall|k: int| 0 <= k < i ==> !has_prefix(bundle_id@, #[trigger] known[k]),
        decreases prefixes.len() - i,
    {
        assert(known[i as int] == prefixes@[i as int]@);
        if starts_with(bundle_id, prefixes[i]) {
            return true;
        }
        i = i + 1;
    }
    false
}

/// What the polling loop must do after a poll.
#[derive(Debug, Clone, Copy, PartialEq, Eq, Structural)]
pub enum DetectorCommand {
    /// Tell the user a meeting was detected and offer to record it.
    SuggestRecording,
    /// Start a recording (when the app is able to record).
    StartRecording,
    /// Stop and save the recording the detector started.
    StopRecording,
}

/// The result of one poll: whether a shown suggestion must be withdrawn, and what to do.
#[derive(Debug, Clone, Copy, PartialEq, Eq, Structural)]
pub struct PollOutcome {
    pub clear_suggestion: bool,
    pub command: Option<DetectorCommand>,
}

/// The polling loop's state: the detector and whether a recording suggestion is on screen.
pub struct MeetingDetector {
    state: AutoRecordState,
    suggestion_shown: bool,
}

/// The polling loop's state as the contracts see it.
pub struct DetectorModel {
    pub recorder: RecorderModel,
    pub suggestion_shown: bool,
}

impl View for MeetingDetector {
    type V = DetectorModel;

    closed spec fn view(&self) -> DetectorModel {
        DetectorModel { recorder: self.state@, suggestion_shown: self.suggestion_shown }
    }
}

/// One poll of the loop while detection is on (`mode` is not `Off`): a shown suggestion is
/// withdrawn once the meeting apps are gone or a recording runs; then the detector decides, and in
/// suggest mode a start becomes a suggestion handed to the user.
pub open spec fn poll_step(d: DetectorModel, mode: DetectionMode, apps_found: bool, is_recording: bool, now: u64) -> (DetectorModel, PollOutcome) {
    let clear = d.suggestion_shown && (!apps_found || is_recording);
    let shown = d.suggestion_shown && !clear;
    let (next, action) = step(d.recorder, apps_found, is_recording, now);
    match action {
        Some(DetectorAction::StartRecording) => if mode == DetectionMode::Suggest {
            (
                DetectorModel { recorder: RecorderModel { phase: Phase::WaitForMeetingEnd, ..next }, suggestion_shown: true },
                PollOutcome { clear_suggestion: clear, command: Some(DetectorCommand::SuggestRecording) },
            )
        } else {
            (
                DetectorModel { recorder: next, suggestion_shown: shown },
                PollOutcome { clear_suggestion: clear, command: Some(DetectorCommand::StartRecording) },
            )
        },
        Some(DetectorAction::StopRecording) => (
            DetectorModel { recorder: next, suggestion_shown: shown },
            PollOutcome { clear_suggestion: clear, command: Some(DetectorCommand::StopRecording) },
        ),
        None => (
            DetectorModel { recorder: next, suggestion_shown: shown },
            PollOutcome { clear_suggestion: clear, command: None },
        ),
    }
}

impl MeetingDetector {
    /// The loop before its first poll.
    pub fn new() -> (detector: Self)
        ensures
            detector@.recorder == initial_model(),
            !detector@.suggestion_shown,
    {
        MeetingDetector { state: AutoRecordState::default(), suggestion_shown: false }
    }

    /// Detection is off: the detector forgets the meeting (a shown suggestion stays as it is).
    pub fn pause(&mut self)
        ensures
            final(self)@.recorder == initial_model(),
            final(self)@.suggestion_shown == old(self)@.suggestion_shown,
    {
        self.state = AutoRecordState::default();
    }

    /// One poll while detection is on: `apps_found` tells whether a meeting app holds the microphone.
    pub fn poll(&mut self, mode: DetectionMode, apps_found: bool, is_recording: bool, now: u64) -> (outcome: PollOutcome)
        requires
            mode != DetectionMode::Off,
        ensures
            (final(self)@, outcome) == poll_step(old(self)@, mode, apps_found, is_recording, now),
    {
        let clear = self.suggestion_shown && (!apps_found || is_recording);
        if clear {
            self.suggestion_shown = false;
        }
        let command = match self.state.tick(apps_found, is_recording, now) {
            Some(DetectorAction::StartRecording) => {
                if mode == DetectionMode::Suggest {
                    self.state.start_handed_to_user();
                    self.suggestion_shown = true;
                    Some(DetectorCommand::SuggestRecording)
                } else {
                    Some(DetectorCommand::StartRecording)
                }
            },
            Some(DetectorAction::StopRecording) => Some(DetectorCommand::StopRecording),
            None => None,
        };
        PollOutcome { clear_suggestion: clear, command }
    }
}

/// In suggest mode the detector never starts or stops a recording itself: starting from a state
/// that owns no recording, it only ever suggests, and it still owns none afterwards.
pub proof fn lemma_suggest_mode_never_records(d: DetectorModel, apps_found: bool, is_recording: bool, now: u64)
    requires
        !owns_recording(d.recorder.phase),
    ensures
        ({
            let (next, outcome) = poll_step(d, DetectionMode::Suggest, apps_found, is_recording, now);
            &&& outcome.command != Some(DetectorCommand::StartRecording)
            &&& outcome.command != Some(DetectorCommand::StopRecording)
            &&& !owns_recording(next.recorder.phase)
        }),
{
}

/// A suggestion stays on screen only while a meeting app holds the microphone and nothing records:
/// the poll withdraws a shown suggestion exactly when the apps are gone or a recording runs, and a
/// suggestion is shown after the poll only if it was kept or the poll made a new one.
pub proof fn lemma_suggestion_withdrawn_when_recording_or_apps_gone(
    d: DetectorModel,
    mode: DetectionMode,
    apps_found: bool,
    is_recording: bool,
    now: u64,
)
    ensures
        ({
            let (next, outcome) = poll_step(d, mode, apps_found, is_recording, now);
            &&& outcome.clear_suggestion <==> (d.suggestion_shown && (!apps_found || is_recording))
            &&& (!apps_found || is_recording) ==> !next.suggestion_shown
            &&& (!apps_found || is_recording) ==> outcome.command != Some(DetectorCommand::SuggestRecording)
            &&& next.suggestion_shown <==> (outcome.command == Some(DetectorCommand::SuggestRecording)
                || (d.suggestion_shown && apps_found && !is_recording))
        }),
{
    lemma_start_needs_sustained_mic(d.recorder, apps_found, is_recording, now);
}

} // verus!
