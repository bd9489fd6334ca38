//! Telling remote speakers apart. Every system-audio speech segment gets a voice embedding that is
//! matched against the voices heard so far in the recording, so "Others" becomes Speaker 1, 2, 3...
//! This module decides which voice a segment belongs to and when a new voice may be registered; the
//! embeddings themselves and their similarities are computed by the caller.

use vstd::prelude::*;

use crate::text::{decimal, push_decimal};

verus! {

/// Below ~1s of speech the embedding is too noisy to trust; such segments inherit the previous speaker.
pub const MIN_EMBEDDING_SAMPLES: usize = 16_000;
/// Only segments this long may register a new voice; shorter ones join the closest known voice.
pub const MIN_NEW_SPEAKER_SAMPLES: usize = 40_000;
/// At most this many voices are told apart in one recording.
pub const MAX_SPEAKERS: usize = 10;

/// The outcome of matching a segment against the known voices: voice `i` (0-based) in `counts`
/// gained a segment, a voice was registered, the closest voice was taken as is, or nothing.
pub open spec fn assign_outcome(counts: Seq<u32>, best: Option<(usize, bool)>, may_create: bool) -> (Seq<u32>, Option<usize>) {
    match best {
        Some((i, true)) => (counts.update(i as int, (counts[i as int] + 1) as u32), Some((i + 1) as usize)),
        _ => if may_create && counts.len() < MAX_SPEAKERS {
            (counts.push(1), Some((counts.len() + 1) as usize))
        } else {
            match best {
                Some((i, _)) => (counts, Some((i + 1) as usize)),
                None => (counts, None),
            }
        },
    }
}

/// Known voices of one recording: for each voice (speaker `i + 1` is voice `i`), the number of
/// segments averaged into its running mean.
pub struct SpeakerRegistry {
    counts: Vec<u32>,
}

impl View for SpeakerRegistry {
    type V = Seq<u32>;

    closed spec fn view(&self) -> Seq<u32> {
        self.counts@
    }
}

impl SpeakerRegistry {
    #[verifier::type_invariant]
    spec fn within_limit(self) -> bool {
        self.counts.len() <= MAX_SPEAKERS
    }

    /// A registry with no known voice.
    pub fn new() -> (registry: Self)
        ensures
            registry@ == Seq::<u32>::empty(),
    {
        SpeakerRegistry { counts: Vec::new() }
    }

    /// Number of known voices.
    pub fn len(&self) -> (n: usize)
        ensures
            n == self@.len(),
            n <= MAX_SPEAKERS,
    {
        proof {
            use_type_invariant(self);
        }
        self.counts.len()
    }

    /// Number of segments averaged into voice `index` (0-based).
    pub fn count(&self, index: usize) -> (c: u32)
        requires
            index < self@.len(),
        ensures
            c == self@[index as int],
    {
        self.counts[index]
    }

    /// 1-based speaker id for a segment. `best` is the most similar known voice (0-based) and whether
    /// it is similar enough to be the same person; `None` only while no voice is known.
    /// `may_create` allows registering a new voice when none is similar enough.
    pub fn assign(&mut self, best: Option<(usize, bool)>, may_create: bool) -> (speaker: Option<usize>)
        requires
            best is None <==> old(self)@.len() == 0,
            best matches Some(b) ==> b.0 < old(self)@.len(),
            best matches Some(b) ==> (b.1 ==> old(self)@[b.0 as int] < u32::MAX),
        ensures
            (final(self)@, speaker) == assign_outcome(old(self)@, best, may_create),
    {
        proof {
            use_type_invariant(&*self);
        }
        let mut counts: Vec<u32> = Vec::new();
        std::mem::swap(&mut counts, &mut self.counts);
        let speaker = match best {
            Some((index, true)) => {
                let count = counts[index] + 1;
                counts.set(index, count);
                Some(index + 1)
            },
            _ => {
                if may_create && counts.len() < MAX_SPEAKERS {
                    counts.push(1);
                    Some(counts.len())
                } else {
                    match best {
                        Some((index, _)) => Some(index + 1),
                        None => None,
                    }
                }
            },
        };
        self.counts = counts;
        speaker
    }
}

/// Voices are never registered past `MAX_SPEAKERS`; a segment always gets a known speaker id
/// (`1..=` the number of voices) once a voice is known; and nothing is assigned before any voice
/// is known unless registering one is allowed.
pub proof fn lemma_assign_stays_within_known_voices(counts: Seq<u32>, best: Option<(usize, bool)>, may_create: bool)
    requires
        counts.len() <= MAX_SPEAKERS,
        best is None <==> counts.len() == 0,
        best matches Some(b) ==> b.0 < counts.len(),
    ensures
        ({
            let (next, speaker) = assign_outcome(counts, best, may_create);
            &&& next.len() <= MAX_SPEAKERS
            &&& counts.len() == MAX_SPEAKERS ==> next.len() == MAX_SPEAKERS
            &&& next.len() == counts.len() || next.len() == counts.len() + 1
            &&& speaker matches Some(id) ==> 1 <= id <= next.len()
            &&& (speaker is None <==> counts.len() == 0 && !may_create)
            &&& next.len() > counts.len() ==> speaker == Some(next.len() as usize)
        }),
{
}

/// Which voice a segment is given: a voice similar enough is reused (speaker `i + 1` for voice `i`)
/// and gains one segment, the others unchanged; otherwise a new voice is registered when allowed
/// and there is room (its id is the new number of voices, with one segment); otherwise the closest
/// voice is taken without counting the segment, or nothing when no voice is known.
pub proof fn lemma_assign_picks_the_matched_voice(counts: Seq<u32>, best: Option<(usize, bool)>, may_create: bool)
    requires
        best matches Some(b) ==> b.0 < counts.len(),
        best matches Some(b) ==> (b.1 ==> counts[b.0 as int] < u32::MAX),
    ensures
        ({
            let (next, speaker) = assign_outcome(counts, best, may_create);
            let matched = best is Some && best.unwrap().1;
            let i = best.unwrap().0;
            let room = may_create && counts.len() < MAX_SPEAKERS;
            &&& matched ==> speaker == Some((i + 1) as usize)
            &&& matched ==> next.len() == counts.len() && next[i as int] == counts[i as int] + 1
            &&& matched ==> forall|v: int| 0 <= v < counts.len() && v != i ==> next[v] == counts[v]
            &&& !matched && room ==> next.len() == counts.len() + 1 && speaker == Some(next.len() as usize)
            &&& !matched && room ==> next.last() == 1 && next.drop_last() == counts
            &&& !matched && !room && best is Some ==> speaker == Some((i + 1) as usize) && next == counts
            &&& !room && best is None ==> speaker is None && next == counts
        }),
{
    let (next, speaker) = assign_outcome(counts, best, may_create);
    if !(best is Some && best.unwrap().1) && may_create && counts.len() < MAX_SPEAKERS {
        assert(next.drop_last() =~= counts);
    }
}

/// The voices heard in one recording and the speaker of the last segment that got one.
pub struct DiarizationSession {
    speakers: SpeakerRegistry,
    last_speaker: Option<usize>,
}

/// The session as the contracts see it: the voice counts and the last speaker.
pub struct SessionModel {
    pub voices: Seq<u32>,
    pub last_speaker: Option<usize>,
}

impl SessionModel {
    /// At most `MAX_SPEAKERS` voices are known, and the last speaker, if any, is one of them
    /// (speaker ids run from 1 to the number of voices).
    pub open spec fn last_speaker_is_known(self) -> bool {
        &&& self.voices.len() <= MAX_SPEAKERS
        &&& self.last_speaker matches Some(id) ==> 1 <= id <= self.voices.len()
    }
}

impl View for DiarizationSession {
    type V = SessionModel;

    closed spec fn view(&self) -> SessionModel {
        SessionModel { voices: self.speakers@, last_speaker: self.last_speaker }
    }
}

impl DiarizationSession {
    #[verifier::type_invariant]
    spec fn last_speaker_registered(self) -> bool {
        self.last_speaker matches Some(id) ==> 1 <= id <= self.speakers@.len()
    }

    /// A recording starts with no known voices.
    pub fn new() -> (session: Self)
        ensures
            session@.voices == Seq::<u32>::empty(),
            session@.last_speaker is None,
            session@.last_speaker_is_known(),
    {
        DiarizationSession { speakers: SpeakerRegistry::new(), last_speaker: None }
    }

    /// The voices known so far.
    pub fn speakers(&self) -> (registry: &SpeakerRegistry)
        ensures
            registry@ == self@.voices,
    {
        &self.speakers
    }

    /// Speaker of the last segment that got one.
    pub fn last_speaker(&self) -> (speaker: Option<usize>)
        ensures
            speaker == self@.last_speaker,
            self@.last_speaker_is_known(),
    {
        proof {
            use_type_invariant(self);
            use_type_invariant(&self.speakers);
        }
        self.last_speaker
    }

    /// Whether a segment of `sample_count` samples is long enough for a voice embedding; shorter
    /// ones inherit the last speaker.
    pub fn needs_embedding(sample_count: usize) -> (r: bool)
        ensures
            r == (sample_count >= MIN_EMBEDDING_SAMPLES),
    {
        sample_count >= MIN_EMBEDDING_SAMPLES
    }

    /// Speaker of an embedded segment of `sample_count` samples whose closest known voice is
    /// `best`: only segments of at least `MIN_NEW_SPEAKER_SAMPLES` may register a new voice, and the
    /// speaker found becomes the last speaker.
    pub fn assign_segment(&mut self, best: Option<(usize, bool)>, sample_count: usize) -> (speaker: Option<usize>)
        requires
            best is None <==> old(self)@.voices.len() == 0,
            best matches Some(b) ==> b.0 < old(self)@.voices.len(),
            best matches Some(b) ==> (b.1 ==> old(self)@.voices[b.0 as int] < u32::MAX),
        ensures
            ({
                let (voices, found) = assign_outcome(old(self)@.voices, best, sample_count >= MIN_NEW_SPEAKER_SAMPLES);
                &&& speaker == found
                &&& final(self)@.voices == voices
                &&& final(self)@.last_speaker == if found is Some { found } else { old(self)@.last_speaker }
            }),
            final(self)@.last_speaker_is_known(),
    {
        let mut session = DiarizationSession::new();
        std::mem::swap(self, &mut session);
        proof {
            use_type_invariant(&session);
        }
        let DiarizationSession { mut speakers, last_speaker } = session;
        proof {
            use_type_invariant(&speakers);
            lemma_assign_stays_within_known_voices(speakers@, best, sample_count >= MIN_NEW_SPEAKER_SAMPLES);
        }
        let speaker = speakers.assign(best, sample_count >= MIN_NEW_SPEAKER_SAMPLES);
        let last_speaker = if speaker.is_some() {
            speaker
        } else {
            last_speaker
        };
        proof {
            use_type_invariant(&speakers);
        }
        *self = DiarizationSession { speakers, last_speaker };
        speaker
    }
}

/// The speaker key of a system-audio segment: `system-N`, or `system` when voices can't be told apart.
pub open spec fn speaker_key_text(speaker: Option<usize>) -> Seq<char> {
    match speaker {
        Some(id) => "system-"@ + decimal(id as nat),
        None => "system"@,
    }
}

/// Speaker key for a system-audio segment given its speaker id.
pub fn system_speaker_key(speaker: Option<usize>) -> (key: String)
    ensures
        key@ == speaker_key_text(speaker),
{
    match speaker {
        Some(id) => {
            let mut key = String::from_str("system-");
            push_decimal(&mut key, id as u64);
            key
        },
        None => String::from_str("system"),
    }
}

} // verus!
