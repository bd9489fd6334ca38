//! Suggests who each transcript speaker is, from the invitees of the meeting's calendar event and
//! how people address each other in the transcript. The model's answer is validated so that it can
//! only pick speakers that exist in the meeting and names that are on the invite list.

use vstd::prelude::*;

use crate::calendar::EventAttendees;
use crate::text::{
    chars_of, find_non_whitespace, find_whitespace, first_word, first_word_of, has_prefix, is_alphanumeric,
    lemma_skip_whitespace_bounds, lemma_skip_word_bounds, push_char, push_two_digits, range_equals,
    skip_whitespace, skip_word, starts_with, to_lowercase, trim, trimmed, two_digits, unicode_alphanumeric,
    unicode_lowercase,
};

verus! {

/// Lines kept around each mention: the addressed person usually speaks right before or after.
pub const CONTEXT_LINES: usize = 2;
/// Keeps the prompt within small local models' context windows.
pub const MAX_PROMPT_LINES: usize = 80;

/// One transcript line: who spoke, what was said, and when (whole seconds into the recording).
pub struct Line {
    pub speaker: String,
    pub text: String,
    pub start_secs: Option<u64>,
}

/// Characters that split a text into words when looking for mentions.
pub open spec fn is_separator(c: char) -> bool {
    !unicode_alphanumeric(c)
}

/// `t[i..j]` is one of the pieces of `t` split at every separator (pieces may be empty).
pub open spec fn is_token(t: Seq<char>, i: int, j: int) -> bool {
    &&& 0 <= i <= j <= t.len()
    &&& i == 0 || is_separator(t[i - 1])
    &&& j == t.len() || is_separator(t[j])
    &&& forall|k: int| i <= k < j ==> !is_separator(#[trigger] t[k])
}

/// `w` is one of the pieces of `t` split at every separator.
pub open spec fn has_token(t: Seq<char>, w: Seq<char>) -> bool {
    exists|i: int, j: int| is_token(t, i, j) && t.subrange(i, j) == w
}

/// `text` contains `word` as a whole word, ignoring case.
pub open spec fn mentions_word(text: Seq<char>, word: Seq<char>) -> bool {
    has_token(unicode_lowercase(text), unicode_lowercase(word))
}

/// The first name of a full name: its first whitespace-separated word.
pub fn first_name(full_name: &str) -> (r: &str)
    ensures
        r@ == first_word(full_name@),
{
    first_word_of(full_name)
}

/// Whether `text` contains `word` as a whole word, ignoring case.
pub fn mentions(text: &str, word: &str) -> (r: bool)
    ensures
        r == mentions_word(text@, word@),
{
    let lower_word = to_lowercase(word);
    let lower_text = to_lowercase(text);
    has_whole_word(lower_text.as_str(), lower_word.as_str())
}

/// Whether `word` is one of the pieces of `text` split at every separator (case-sensitive).
pub fn has_whole_word(text: &str, word: &str) -> (r: bool)
    ensures
        r == has_token(text@, word@),
{
    let w = chars_of(word);
    let t = chars_of(text);
    let n = t.len();
    let mut start: usize = 0;
    let mut k: usize = 0;
    while k < n
        invariant
            n == t@.len(),
            t@ == text@,
            w@ == word@,
            start <= k <= n,
            start == 0 || is_separator(t@[start - 1]),
            forall|m: int| start <= m < k ==> !is_separator(#[trigger] t@[m]),
            forall|i: int, j: int| is_token(t@, i, j) && j < k ==> t@.subrange(i, j) != w@,
        decreases n - k,
    {
        if !is_alphanumeric(t[k]) {
            if range_equals(&t, start, k, &w) {
                assert(is_token(t@, start as int, k as int));
                assert(has_token(t@, w@));
                return true;
            }
            assert forall|i: int, j: int| is_token(t@, i, j) && j < k + 1 implies t@.subrange(i, j) != w@ by {
                if j == k {
                    if i < start {
                        assert(!is_separator(t@[start - 1]));
                    }
                    if i > start {
                        assert(!is_separator(t@[i - 1]));
                    }
                }
            }
            start = k + 1;
        } else {
            assert forall|i: int, j: int| is_token(t@, i, j) && j < k + 1 implies t@.subrange(i, j) != w@ by {
                if j == k {
                    assert(is_separator(t@[j]));
                }
            }
        }
        k = k + 1;
    }
    let found = range_equals(&t, start, n, &w);
    if found {
        assert(is_token(t@, start as int, n as int));
        assert(has_token(t@, w@));
    } else {
        assert forall|i: int, j: int| is_token(t@, i, j) implies t@.subrange(i, j) != w@ by {
            if j == n {
                if i < start {
                    assert(!is_separator(t@[start - 1]));
                }
                if i > start {
                    assert(!is_separator(t@[i - 1]));
                }
            }
        }
    }
    found
}

/// Some whitespace-separated word of `name` that starts at or after position `i` is mentioned in
/// `text`.
pub open spec fn word_from_mentioned(text: Seq<char>, name: Seq<char>, i: int) -> bool
    decreases name.len() - i,
{
    if i < 0 || i >= name.len() {
        false
    } else {
        let a = skip_whitespace(name, i);
        if a >= name.len() {
            false
        } else {
            let b = skip_word(name, a);
            proof {
                lemma_skip_whitespace_bounds(name, i);
                lemma_skip_word_bounds(name, a);
            }
            mentions_word(text, name.subrange(a, b)) || word_from_mentioned(text, name, b)
        }
    }
}

/// `text` mentions the person `name`: by first name, or by any later part of the name.
pub open spec fn mentions_person(text: Seq<char>, name: Seq<char>) -> bool {
    mentions_word(text, first_word(name)) || word_from_mentioned(
        text,
        name,
        skip_word(name, skip_whitespace(name, 0)),
    )
}

/// `text` mentions at least one of `attendees`.
pub open spec fn mentions_any(text: Seq<char>, attendees: Seq<Seq<char>>) -> bool {
    exists|a: int| 0 <= a < attendees.len() && mentions_person(text, #[trigger] attendees[a])
}

fn word_from_mentioned_exec(text: &str, name: &str, v: &Vec<char>, from: usize) -> (r: bool)
    requires
        v@ == name@,
        from <= v.len(),
    ensures
        r == word_from_mentioned(text@, name@, from as int),
{
    let mut i = from;
    while i < v.len()
        invariant
            v@ == name@,
            from <= i <= v.len(),
            word_from_mentioned(text@, name@, i as int) == word_from_mentioned(text@, name@, from as int),
        decreases v.len() - i,
    {
        let a = find_non_whitespace(v, i);
        proof {
            lemma_skip_whitespace_bounds(v@, i as int);
        }
        if a >= v.len() {
            return false;
        }
        let b = find_whitespace(v, a);
        proof {
            lemma_skip_word_bounds(v@, a as int);
        }
        if mentions(text, name.substring_char(a, b)) {
            return true;
        }
        i = b;
    }
    false
}

/// Whether `text` mentions `name`, by first name or by a later part of the name.
fn mentions_person_exec(text: &str, name: &str) -> (r: bool)
    ensures
        r == mentions_person(text@, name@),
{
    if mentions(text, first_name(name)) {
        return true;
    }
    let v = chars_of(name);
    let a = find_non_whitespace(&v, 0);
    proof {
        lemma_skip_whitespace_bounds(v@, 0);
    }
    let b = find_whitespace(&v, a);
    proof {
        lemma_skip_word_bounds(v@, a as int);
    }
    word_from_mentioned_exec(text, name, &v, b)
}

fn mentions_any_exec(text: &str, attendees: &[String]) -> (r: bool)
    ensures
        r == mentions_any(text@, attendees.deep_view()),
{
    let mut a: usize = 0;
    while a < attendees.len()
        invariant
            a <= attendees.len(),
            forall|b: int| 0 <= b < a ==> !mentions_person(text@, #[trigger] attendees.deep_view()[b]),
        decreases attendees.len() - a,
    {
        if mentions_person_exec(text, attendees[a].as_str()) {
            assert(attendees.deep_view()[a as int] == attendees@[a as int]@);
            return true;
        }
        assert(attendees.deep_view()[a as int] == attendees@[a as int]@);
        a = a + 1;
    }
    false
}

/// The texts of `lines`, in order.
pub open spec fn texts(lines: Seq<Line>) -> Seq<Seq<char>> {
    lines.map_values(|l: Line| l.text@)
}

/// Line `k` is kept for the prompt: it lies within `CONTEXT_LINES` of a line mentioning an attendee.
pub open spec fn near_mention(texts: Seq<Seq<char>>, attendees: Seq<Seq<char>>, k: int) -> bool {
    exists|i: int|
        0 <= i < texts.len() && i - CONTEXT_LINES <= k <= i + CONTEXT_LINES && mentions_any(
            #[trigger] texts[i],
            attendees,
        )
}

/// At most the first `n` elements of `s`.
pub open spec fn at_most<A>(s: Seq<A>, n: int) -> Seq<A> {
    if s.len() > n {
        s.take(n)
    } else {
        s
    }
}

/// Indexes of the lines mentioning an attendee (by full, first or last name) and of their
/// neighbours, in increasing order, capped at `MAX_PROMPT_LINES`.
pub open spec fn context_indexes(texts: Seq<Seq<char>>, attendees: Seq<Seq<char>>) -> Seq<int> {
    at_most(
        Seq::new(texts.len(), |k: int| k).filter(|k: int| near_mention(texts, attendees, k)),
        MAX_PROMPT_LINES as int,
    )
}

/// Indexes of lines mentioning an attendee (full or first name) plus their neighbors, in order.
pub fn context_line_indexes(lines: &[Line], attendees: &[String]) -> (r: Vec<usize>)
    ensures
        r@.map_values(|i: usize| i as int) == context_indexes(texts(lines@), attendees.deep_view()),
{
    let n = lines.len();
    let ghost tx = texts(lines@);
    let ghost atts = attendees.deep_view();
    let mut mentioned: Vec<bool> = Vec::new();
    let mut i: usize = 0;
    while i < n
        invariant
            n == lines.len(),
            tx == texts(lines@),
            atts == attendees.deep_view(),
            i <= n,
            mentioned.len() == i,
            forall|m: int| 0 <= m < i ==> mentioned@[m] == mentions_any(tx[m], atts),
        decreases n - i,
    {
        mentioned.push(mentions_any_exec(lines[i].text.as_str(), attendees));
        i = i + 1;
    }
    let ghost pred = |k: int| near_mention(tx, atts, k);
    let mut out: Vec<usize> = Vec::new();
    let mut k: usize = 0;
    while k < n
        invariant
            n == lines.len(),
            tx == texts(lines@),
            tx.len() == n,
            atts == attendees.deep_view(),
            pred == (|k: int| near_mention(tx, atts, k)),
            mentioned.len() == n,
            forall|m: int| 0 <= m < n ==> mentioned@[m] == mentions_any(tx[m], atts),
            k <= n,
            out@.map_values(|i: usize| i as int) == at_most(
                Seq::new(k as nat, |x: int| x).filter(pred),
                MAX_PROMPT_LINES as int,
            ),
        decreases n - k,
    {
        let lo: usize = if k >= CONTEXT_LINES { k - CONTEXT_LINES } else { 0 };
        let hi: usize = if n - k > CONTEXT_LINES { k + CONTEXT_LINES } else { n - 1 };
        let mut j = lo;
        let mut near = false;
        while j <= hi
            invariant
                n == lines.len(),
                tx.len() == n,
                mentioned.len() == n,
                forall|m: int| 0 <= m < n ==> mentioned@[m] == mentions_any(tx[m], atts),
                lo <= j <= hi + 1,
                hi < n,
                lo as int == if k >= CONTEXT_LINES { k - CONTEXT_LINES } else { 0 },
                hi as int == if k + CONTEXT_LINES < n { k + CONTEXT_LINES } else { n - 1 },
                k < n,
                near ==> near_mention(tx, atts, k as int),
                !near ==> forall|m: int| lo <= m < j ==> !mentions_any(#[trigger] tx[m], atts),
            decreases hi + 1 - j,
        {
            if mentioned[j] {
                near = true;
            }
            j = j + 1;
        }
        if !near {
            assert(!near_mention(tx, atts, k as int));
        }
        let ghost before = Seq::new(k as nat, |x: int| x).filter(pred);
        assert(Seq::new((k + 1) as nat, |x: int| x) =~= Seq::new(k as nat, |x: int| x).push(k as int));
        proof {
            Seq::new(k as nat, |x: int| x).lemma_filter_push(k as int, pred);
        }
        assert(Seq::new((k + 1) as nat, |x: int| x).filter(pred) == if pred(k as int) {
            before.push(k as int)
        } else {
            before
        });
        if near && out.len() < MAX_PROMPT_LINES {
            let ghost old_out = out@;
            assert(old_out.map_values(|i: usize| i as int).len() == old_out.len());
            assert(before.len() < MAX_PROMPT_LINES);
            out.push(k);
            assert(out@.map_values(|i: usize| i as int) =~= old_out.map_values(|i: usize| i as int).push(k as int));
            assert(out@.map_values(|i: usize| i as int) =~= at_most(before.push(k as int), MAX_PROMPT_LINES as int));
        } else if near {
            assert(at_most(before.push(k as int), MAX_PROMPT_LINES as int) =~= at_most(before, MAX_PROMPT_LINES as int));
        }
        k = k + 1;
    }
    assert(Seq::new(n as nat, |x: int| x) == Seq::new(tx.len(), |k: int| k));
    out
}

/// Prefix of the speaker keys that diarization gives remote voices.
pub const SYSTEM_SPEAKER_PREFIX: &'static str = "system-";

/// The members of the JSON object written in `text`: each key with its value when that value is a
/// JSON string (`None` for other values), in the order serde_json's map yields them; `None` when
/// `text` is not a JSON object.
pub uninterp spec fn json_object_members(text: Seq<char>) -> Option<Seq<(Seq<char>, Option<Seq<char>>)>>;

/// Calls `serde_json::from_str` into a `serde_json::Value` and, for an object, lists its members.
/// The contract names the result `json_object_members(text@)` and adds only that the keys of an
/// object are distinct, as the keys of a map are.
#[verifier::external_body]
fn parse_json_object(text: &str) -> (r: Option<Vec<(String, Option<String>)>>)
    ensures
        r.deep_view() == json_object_members(text@),
        r matches Some(members) ==> forall|i: int, j: int|
            0 <= i < j < members.len() ==> members@[i].0@ != members@[j].0@,
{
    match serde_json::from_str::<serde_json::Value>(text) {
        Ok(serde_json::Value::Object(map)) => Some(
            map.into_iter()
                .map(|(key, value)| match value {
                    serde_json::Value::String(text) => (key, Some(text)),
                    _ => (key, None),
                })
                .collect(),
        ),
        _ => None,
    }
}

/// First position at or after `i` holding `c`, or the length of `s`.
pub open spec fn index_of_first(s: Seq<char>, c: char, i: int) -> int
    decreases s.len() - i,
{
    if 0 <= i < s.len() {
        if s[i] == c {
            i
        } else {
            index_of_first(s, c, i + 1)
        }
    } else {
        s.len() as int
    }
}

/// Last position before `j` holding `c`, or -1.
pub open spec fn index_of_last(s: Seq<char>, c: char, j: int) -> int
    decreases j,
{
    if 0 < j <= s.len() {
        if s[j - 1] == c {
            j - 1
        } else {
            index_of_last(s, c, j - 1)
        }
    } else {
        -1
    }
}

/// Positions of the first `{` and the last `}` of `answer`, when it has both.
pub open spec fn object_span(answer: Seq<char>) -> Option<(int, int)> {
    let a = index_of_first(answer, '{', 0);
    let b = index_of_last(answer, '}', answer.len() as int);
    if a < answer.len() && b >= 0 {
        Some((a, b))
    } else {
        None
    }
}

/// The answer's first `{` comes at most one position after its last `}`, so the text from the
/// first `{` through the last `}` can be cut out (it is empty when the `{` directly follows the `}`).
pub open spec fn braces_in_order(answer: Seq<char>) -> bool {
    match object_span(answer) {
        Some(span) => span.0 <= span.1 + 1,
        None => true,
    }
}

/// `attendee` is the person the model named `wanted` (lowercased): by full or by first name.
pub open spec fn attendee_matches(attendee: Seq<char>, wanted: Seq<char>) -> bool {
    unicode_lowercase(attendee) == wanted || unicode_lowercase(first_word(attendee)) == wanted
}

/// The first attendee at or after position `i` that matches `wanted`.
pub open spec fn first_matching(attendees: Seq<Seq<char>>, wanted: Seq<char>, i: int) -> Option<int>
    decreases attendees.len() - i,
{
    if 0 <= i < attendees.len() {
        if attendee_matches(attendees[i], wanted) {
            Some(i)
        } else {
            first_matching(attendees, wanted, i + 1)
        }
    } else {
        None
    }
}

/// The attendee a member of the model's answer proposes, when its key is a remote speaker of the
/// meeting and its value names an invitee.
pub open spec fn suggested_attendee(
    key: Seq<char>,
    value: Option<Seq<char>>,
    speakers: Seq<Seq<char>>,
    attendees: Seq<Seq<char>>,
) -> Option<Seq<char>> {
    if has_prefix(key, SYSTEM_SPEAKER_PREFIX@) && speakers.contains(key) {
        match value {
            Some(v) => match first_matching(attendees, unicode_lowercase(trimmed(v)), 0) {
                Some(i) => Some(attendees[i]),
                None => None,
            },
            None => None,
        }
    } else {
        None
    }
}

/// Some pair of `pairs` already names `name`.
pub open spec fn assigned(pairs: Seq<(Seq<char>, Seq<char>)>, name: Seq<char>) -> bool {
    exists|k: int| 0 <= k < pairs.len() && #[trigger] pairs[k].1 == name
}

/// The answers kept from `members`, in order: a speaker and the invitee it names, unless an earlier
/// member already took that invitee.
pub open spec fn accepted_suggestions(
    members: Seq<(Seq<char>, Option<Seq<char>>)>,
    speakers: Seq<Seq<char>>,
    attendees: Seq<Seq<char>>,
) -> Seq<(Seq<char>, Seq<char>)>
    decreases members.len(),
{
    if members.len() == 0 {
        seq![]
    } else {
        let prev = accepted_suggestions(members.drop_last(), speakers, attendees);
        let m = members.last();
        match suggested_attendee(m.0, m.1, speakers, attendees) {
            Some(a) => if assigned(prev, a) {
                prev
            } else {
                prev.push((m.0, a))
            },
            None => prev,
        }
    }
}

/// What the model's answer yields: the accepted members of the JSON object found between its
/// first `{` and its last `}`, or nothing.
pub open spec fn suggestions_from_answer(
    answer: Seq<char>,
    speakers: Seq<Seq<char>>,
    attendees: Seq<Seq<char>>,
) -> Seq<(Seq<char>, Seq<char>)> {
    match object_span(answer) {
        Some(span) => match json_object_members(answer.subrange(span.0, span.1 + 1)) {
            Some(members) => accepted_suggestions(members, speakers, attendees),
            None => seq![],
        },
        None => seq![],
    }
}

fn contains_string(list: &[String], s: &String) -> (r: bool)
    ensures
        r == list.deep_view().contains(s@),
{
    let mut i: usize = 0;
    while i < list.len()
        invariant
            i <= list.len(),
            forall|k: int| 0 <= k < i ==> list.deep_view()[k] != s@,
        decreases list.len() - i,
    {
        assert(list.deep_view()[i as int] == list@[i as int]@);
        if list[i] == *s {
            assert(list.deep_view()[i as int] == s@);
            return true;
        }
        i = i + 1;
    }
    false
}

fn find_matching_attendee(attendees: &[String], wanted: &String) -> (r: Option<usize>)
    ensures
        r matches Some(k) ==> k < attendees.len() && first_matching(attendees.deep_view(), wanted@, 0) == Some(k as int),
        r is None ==> first_matching(attendees.deep_view(), wanted@, 0) is None,
{
    let ghost atts = attendees.deep_view();
    let mut i: usize = 0;
    while i < attendees.len()
        invariant
            atts == attendees.deep_view(),
            i <= attendees.len(),
            first_matching(atts, wanted@, i as int) == first_matching(atts, wanted@, 0),
        decreases attendees.len() - i,
    {
        assert(atts[i as int] == attendees@[i as int]@);
        let full = to_lowercase(attendees[i].as_str());
        let first = to_lowercase(first_name(attendees[i].as_str()));
        if full == *wanted || first == *wanted {
            return Some(i);
        }
        i = i + 1;
    }
    None
}

fn already_assigned(pairs: &[(String, String)], name: &String) -> (r: bool)
    ensures
        r == assigned(pairs.deep_view(), name@),
{
    let mut i: usize = 0;
    while i < pairs.len()
        invariant
            i <= pairs.len(),
            forall|k: int| 0 <= k < i ==> pairs.deep_view()[k].1 != name@,
        decreases pairs.len() - i,
    {
        assert(pairs.deep_view()[i as int].1 == pairs@[i as int].1@);
        if pairs[i].1 == *name {
            assert(pairs.deep_view()[i as int].1 == name@);
            return true;
        }
        i = i + 1;
    }
    false
}

/// Whether the answer's first `{` (if any) comes at most one position after its last `}` (if any),
/// so that the text between them can be cut out; `parse_suggestions` needs this.
pub fn braces_are_ordered(answer: &str) -> (r: bool)
    ensures
        r == braces_in_order(answer@),
{
    let v = chars_of(answer);
    let (a, b) = object_bounds(&v);
    a >= v.len() || b == 0 || a <= b
}

/// The position of the first `{` of `v` (or its length) and one past its last `}` (or zero).
fn object_bounds(v: &Vec<char>) -> (r: (usize, usize))
    ensures
        r.0 == index_of_first(v@, '{', 0),
        r.1 == index_of_last(v@, '}', v@.len() as int) + 1,
        r.0 <= v.len(),
        r.1 <= v.len(),
{
    let n = v.len();
    let mut a: usize = 0;
    while a < n && v[a] != '{'
        invariant
            a <= n == v@.len(),
            index_of_first(v@, '{', a as int) == index_of_first(v@, '{', 0),
        decreases n - a,
    {
        a = a + 1;
    }
    let mut b: usize = n;
    while b > 0 && v[b - 1] != '}'
        invariant
            b <= n == v@.len(),
            index_of_last(v@, '}', b as int) == index_of_last(v@, '}', n as int),
        decreases b,
    {
        b = b - 1;
    }
    (a, b)
}

/// Keeps only answers naming an existing remote speaker and an invitee (matched case-insensitively
/// by full or first name), each invitee at most once.
pub fn parse_suggestions(answer: &str, speakers: &[String], attendees: &[String]) -> (r: Vec<(String, String)>)
    requires
        braces_in_order(answer@),
    ensures
        r.deep_view() == suggestions_from_answer(answer@, speakers.deep_view(), attendees.deep_view()),
        forall|j: int, k: int| 0 <= j < k < r.len() ==> r@[j].0@ != r@[k].0@,
{
    let v = chars_of(answer);
    let n = v.len();
    let (a, b) = object_bounds(&v);
    if a >= n || b == 0 {
        let none: Vec<(String, String)> = Vec::new();
        assert(none.deep_view() =~= Seq::<(Seq<char>, Seq<char>)>::empty());
        return none;
    }
    let object = answer.substring_char(a, b);
    let parsed = parse_json_object(object);
    let members = match parsed {
        Some(members) => members,
        None => {
            let none: Vec<(String, String)> = Vec::new();
            assert(none.deep_view() =~= Seq::<(Seq<char>, Seq<char>)>::empty());
            return none;
        },
    };
    let out = accept_members(members.as_slice(), speakers, attendees);
    proof {
        assert forall|x: int, y: int| 0 <= x < y < members@.len() implies members.deep_view()[x].0
            != members.deep_view()[y].0 by {
            assert(members.deep_view()[x].0 == members@[x].0@);
            assert(members.deep_view()[y].0 == members@[y].0@);
        }
    }
    out
}

/// Keeps, in order, the members of the model's answer that pair an existing remote speaker with an
/// invitee (matched case-insensitively by full or first name), each invitee at most once.
pub fn accept_members(members: &[(String, Option<String>)], speakers: &[String], attendees: &[String]) -> (r: Vec<(String, String)>)
    ensures
        r.deep_view() == accepted_suggestions(members.deep_view(), speakers.deep_view(), attendees.deep_view()),
        (forall|i: int, j: int| 0 <= i < j < members.len() ==> members.deep_view()[i].0 != members.deep_view()[j].0)
            ==> forall|j: int, k: int| 0 <= j < k < r.len() ==> r@[j].0@ != r@[k].0@,
{
    let mut out: Vec<(String, String)> = Vec::new();
    let ghost mv = members.deep_view();
    let ghost sp = speakers.deep_view();
    let ghost at = attendees.deep_view();
    assert(out.deep_view() =~= accepted_suggestions(mv.take(0), sp, at));
    let mut i: usize = 0;
    while i < members.len()
        invariant
            mv == members.deep_view(),
            sp == speakers.deep_view(),
            at == attendees.deep_view(),
            i <= members.len(),
            out.deep_view() == accepted_suggestions(mv.take(i as int), sp, at),
        decreases members.len() - i,
    {
        assert(mv.take(i + 1).drop_last() =~= mv.take(i as int));
        assert(mv.take(i + 1).last() == mv[i as int]);
        assert(mv[i as int] == (members@[i as int].0@, members@[i as int].1.deep_view()));
        let ghost prev = out.deep_view();
        let ghost m = mv[i as int];
        let ghost next = match suggested_attendee(m.0, m.1, sp, at) {
            Some(a) => if assigned(prev, a) {
                prev
            } else {
                prev.push((m.0, a))
            },
            None => prev,
        };
        assert(accepted_suggestions(mv.take(i + 1), sp, at) == next);
        let key = &members[i].0;
        if starts_with(key.as_str(), SYSTEM_SPEAKER_PREFIX) && contains_string(speakers, key) {
            match &members[i].1 {
                Some(value) => {
                    assert(m.1 == Some(value@));
                    let wanted = to_lowercase(trim(value.as_str()));
                    match find_matching_attendee(attendees, &wanted) {
                        Some(k) => {
                            assert(at[k as int] == attendees@[k as int]@);
                            assert(suggested_attendee(m.0, m.1, sp, at) == Some(at[k as int]));
                            if !already_assigned(&out, &attendees[k]) {
                                out.push((key.clone(), attendees[k].clone()));
                                assert(out.deep_view() =~= prev.push((key@, attendees@[k as int]@)));
                            }
                        },
                        None => {
                            assert(suggested_attendee(m.0, m.1, sp, at) is None);
                        },
                    }
                },
                None => {
                    assert(suggested_attendee(m.0, m.1, sp, at) is None);
                },
            }
        } else {
            assert(suggested_attendee(m.0, m.1, sp, at) is None);
        }
        i = i + 1;
    }
    assert(mv.take(members.len() as int) =~= mv);
    proof {
        lemma_suggestions_are_validated(mv, sp, at);
        if forall|x: int, y: int| 0 <= x < y < members.len() ==> mv[x].0 != mv[y].0 {
            assert forall|j: int, k: int| 0 <= j < k < out.len() implies out@[j].0@ != out@[k].0@ by {
                assert(out.deep_view()[j].0 == out@[j].0@);
                assert(out.deep_view()[k].0 == out@[k].0@);
            }
        }
    }
    out
}

/// The model's answer is validated: every kept pair names a remote speaker that exists in the
/// meeting and an invitee of the calendar event, every speaker comes from a member of the answer,
/// and one person is never assigned to two speakers; a speaker appears at most once when the
/// answer's keys are distinct.
pub proof fn lemma_suggestions_are_validated(
    members: Seq<(Seq<char>, Option<Seq<char>>)>,
    speakers: Seq<Seq<char>>,
    attendees: Seq<Seq<char>>,
)
    ensures
        ({
            let r = accepted_suggestions(members, speakers, attendees);
            &&& forall|k: int| 0 <= k < r.len() ==> has_prefix(#[trigger] r[k].0, SYSTEM_SPEAKER_PREFIX@)
            &&& forall|k: int| 0 <= k < r.len() ==> speakers.contains(#[trigger] r[k].0)
            &&& forall|k: int| 0 <= k < r.len() ==> attendees.contains(#[trigger] r[k].1)
            &&& forall|k: int| #![trigger r[k]] 0 <= k < r.len() ==> exists|m: int| 0 <= m < members.len() && #[trigger] members[m].0 == r[k].0
            &&& forall|j: int, k: int| 0 <= j < k < r.len() ==> r[j].1 != r[k].1
            &&& (forall|i: int, j: int| 0 <= i < j < members.len() ==> members[i].0 != members[j].0)
                ==> forall|j: int, k: int| 0 <= j < k < r.len() ==> r[j].0 != r[k].0
        }),
    decreases members.len(),
{
    if members.len() > 0 {
        let rest = members.drop_last();
        lemma_suggestions_are_validated(rest, speakers, attendees);
        let prev = accepted_suggestions(rest, speakers, attendees);
        let m = members.last();
        let r = accepted_suggestions(members, speakers, attendees);
        assert forall|k: int| #![trigger prev[k]] 0 <= k < prev.len() implies exists|mi: int| 0 <= mi < members.len() && #[trigger] members[mi].0 == prev[k].0 by {
            let mi = choose|mi: int| 0 <= mi < rest.len() && #[trigger] rest[mi].0 == prev[k].0;
            assert(members[mi].0 == prev[k].0);
        }
        match suggested_attendee(m.0, m.1, speakers, attendees) {
            Some(a) => {
                if !assigned(prev, a) {
                    let i = first_matching(attendees, unicode_lowercase(trimmed(m.1->0)), 0)->0;
                    lemma_first_matching_in_range(attendees, unicode_lowercase(trimmed(m.1->0)), 0);
                    assert(attendees[i] == a);
                    assert(r[prev.len() as int] == (m.0, a));
                    assert(members[members.len() - 1].0 == m.0);
                    if forall|i: int, j: int| 0 <= i < j < members.len() ==> members[i].0 != members[j].0 {
                        assert forall|k: int| 0 <= k < prev.len() implies prev[k].0 != m.0 by {
                            let mi = choose|mi: int| 0 <= mi < rest.len() && #[trigger] rest[mi].0 == prev[k].0;
                            assert(members[mi].0 == prev[k].0);
                        }
                    }
                }
            },
            None => {},
        }
    }
}

/// Every kept invitee is the one the answer named: some member of the answer pairs the kept
/// speaker with a value whose trimmed, lowercased text is the invitee's lowercased full name or
/// lowercased first name, and no invitee listed before it is named so.
pub proof fn lemma_accepted_invitee_is_named(
    members: Seq<(Seq<char>, Option<Seq<char>>)>,
    speakers: Seq<Seq<char>>,
    attendees: Seq<Seq<char>>,
)
    ensures
        ({
            let r = accepted_suggestions(members, speakers, attendees);
            forall|k: int| #![trigger r[k]] 0 <= k < r.len() ==> exists|mi: int, ai: int|
                #![trigger members[mi], attendees[ai]]
                0 <= mi < members.len() && 0 <= ai < attendees.len()
                && members[mi].0 == r[k].0 && members[mi].1 is Some && attendees[ai] == r[k].1
                && ({
                    let wanted = unicode_lowercase(trimmed(members[mi].1.unwrap()));
                    &&& (unicode_lowercase(attendees[ai]) == wanted || unicode_lowercase(first_word(attendees[ai])) == wanted)
                    &&& forall|x: int| 0 <= x < ai ==> unicode_lowercase(#[trigger] attendees[x]) != wanted
                        && unicode_lowercase(first_word(attendees[x])) != wanted
                })
        }),
    decreases members.len(),
{
    if members.len() > 0 {
        let rest = members.drop_last();
        lemma_accepted_invitee_is_named(rest, speakers, attendees);
        let prev = accepted_suggestions(rest, speakers, attendees);
        let m = members.last();
        let r = accepted_suggestions(members, speakers, attendees);
        assert forall|k: int| #![trigger prev[k]] 0 <= k < prev.len() implies exists|mi: int, ai: int|
            #![trigger members[mi], attendees[ai]]
            0 <= mi < members.len() && 0 <= ai < attendees.len()
            && members[mi].0 == prev[k].0 && members[mi].1 is Some && attendees[ai] == prev[k].1
            && ({
                let wanted = unicode_lowercase(trimmed(members[mi].1.unwrap()));
                &&& (unicode_lowercase(attendees[ai]) == wanted || unicode_lowercase(first_word(attendees[ai])) == wanted)
                &&& forall|x: int| 0 <= x < ai ==> unicode_lowercase(#[trigger] attendees[x]) != wanted
                    && unicode_lowercase(first_word(attendees[x])) != wanted
            }) by {
            let (mi, ai) = choose|mi: int, ai: int|
                #![trigger rest[mi], attendees[ai]]
                0 <= mi < rest.len() && 0 <= ai < attendees.len()
                && rest[mi].0 == prev[k].0 && rest[mi].1 is Some && attendees[ai] == prev[k].1
                && ({
                    let wanted = unicode_lowercase(trimmed(rest[mi].1.unwrap()));
                    &&& (unicode_lowercase(attendees[ai]) == wanted || unicode_lowercase(first_word(attendees[ai])) == wanted)
                    &&& forall|x: int| 0 <= x < ai ==> unicode_lowercase(#[trigger] attendees[x]) != wanted
                        && unicode_lowercase(first_word(attendees[x])) != wanted
                });
            assert(members[mi] == rest[mi]);
        }
        match suggested_attendee(m.0, m.1, speakers, attendees) {
            Some(a) => {
                if !assigned(prev, a) {
                    let wanted = unicode_lowercase(trimmed(m.1->0));
                    let ai = first_matching(attendees, wanted, 0)->0;
                    lemma_first_matching_in_range(attendees, wanted, 0);
                    let mi = members.len() - 1;
                    assert(r[prev.len() as int] == (m.0, a));
                    assert(members[mi] == m);
                    assert forall|x: int| 0 <= x < ai implies unicode_lowercase(#[trigger] attendees[x]) != wanted
                        && unicode_lowercase(first_word(attendees[x])) != wanted by {
                        assert(!attendee_matches(attendees[x], wanted));
                    }
                    assert(attendee_matches(attendees[ai], wanted));
                    assert forall|k: int| #![trigger r[k]] 0 <= k < r.len() implies exists|mi: int, ai: int|
                        #![trigger members[mi], attendees[ai]]
                        0 <= mi < members.len() && 0 <= ai < attendees.len()
                        && members[mi].0 == r[k].0 && members[mi].1 is Some && attendees[ai] == r[k].1
                        && ({
                            let wanted = unicode_lowercase(trimmed(members[mi].1.unwrap()));
                            &&& (unicode_lowercase(attendees[ai]) == wanted || unicode_lowercase(first_word(attendees[ai])) == wanted)
                            &&& forall|x: int| 0 <= x < ai ==> unicode_lowercase(#[trigger] attendees[x]) != wanted
                                && unicode_lowercase(first_word(attendees[x])) != wanted
                        }) by {
                        if k < prev.len() {
                            assert(r[k] == prev[k]);
                        } else {
                            assert(members[mi].0 == r[k].0 && attendees[ai] == r[k].1);
                        }
                    }
                }
            },
            None => {},
        }
    }
}

proof fn lemma_first_matching_in_range(attendees: Seq<Seq<char>>, wanted: Seq<char>, i: int)
    ensures
        first_matching(attendees, wanted, i) matches Some(k) ==> 0 <= k < attendees.len()
            && attendee_matches(attendees[k], wanted),
        first_matching(attendees, wanted, i) matches Some(k) ==> forall|x: int| 0 <= i <= x < k
            ==> !attendee_matches(#[trigger] attendees[x], wanted),
    decreases attendees.len() - i,
{
    if 0 <= i < attendees.len() && !attendee_matches(attendees[i], wanted) {
        lemma_first_matching_in_range(attendees, wanted, i + 1);
    }
}

/// `[MM:SS]` for a time in seconds, each field padded to two digits (minutes may take more).
pub open spec fn time_label(secs: nat) -> Seq<char> {
    seq!['['] + two_digits(secs / 60) + seq![':'] + two_digits(secs % 60) + seq![']']
}

/// The time stamp written before a transcript line; a line without a start time reads `[00:00]`.
pub fn format_time(seconds: Option<u64>) -> (r: String)
    ensures
        r@ == time_label(seconds.unwrap_or(0) as nat),
{
    let secs: u64 = match seconds {
        Some(s) => s,
        None => 0,
    };
    let mut out = String::new();
    push_char(&mut out, '[');
    push_two_digits(&mut out, secs / 60);
    push_char(&mut out, ':');
    push_two_digits(&mut out, secs % 60);
    push_char(&mut out, ']');
    assert(out@ =~= time_label(secs as nat));
    out
}

/// `items` written one after the other with `sep` between consecutive ones.
pub open spec fn joined(items: Seq<Seq<char>>, sep: Seq<char>) -> Seq<char>
    decreases items.len(),
{
    if items.len() == 0 {
        seq![]
    } else if items.len() == 1 {
        items[0]
    } else {
        joined(items.drop_last(), sep) + sep + items.last()
    }
}

/// `items` separated by `sep`.
pub fn join(items: &[String], sep: &str) -> (r: String)
    ensures
        r@ == joined(items.deep_view(), sep@),
{
    let ghost all = items.deep_view();
    let mut out = String::new();
    let mut i: usize = 0;
    while i < items.len()
        invariant
            all == items.deep_view(),
            i <= items.len(),
            out@ == joined(all.take(i as int), sep@),
        decreases items.len() - i,
    {
        assert(all.take(i + 1).drop_last() =~= all.take(i as int));
        assert(all.take(i + 1).last() == items@[i as int]@);
        if i > 0 {
            out.append(sep);
        } else {
            assert(all.take(1)[0] == items@[0]@);
        }
        out.append(items[i].as_str());
        i = i + 1;
    }
    assert(all.take(items.len() as int) =~= all);
    out
}

/// How a transcript line reads in the prompt: time, speaker and text.
pub open spec fn prompt_line(line: Line) -> Seq<char> {
    time_label(line.start_secs.unwrap_or(0) as nat) + seq![' '] + line.speaker@ + seq![':', ' '] + line.text@
        + seq!['\n']
}

/// The excerpts for the lines at `indexes`, with `...` between lines that are not consecutive.
pub open spec fn excerpts(lines: Seq<Line>, indexes: Seq<usize>) -> Seq<char>
    decreases indexes.len(),
{
    if indexes.len() == 0 {
        seq![]
    } else {
        let i = indexes.last();
        let gap = if indexes.len() >= 2 && i > indexes[indexes.len() - 2] + 1 {
            seq!['.', '.', '.', '\n']
        } else {
            seq![]
        };
        excerpts(lines, indexes.drop_last()) + gap + prompt_line(lines[i as int])
    }
}

/// The excerpts grow line by line: with no line they are empty, and adding the line at index `j`
/// after those at `indexes` appends a `...` line exactly when `j` comes more than one line after the
/// last index before it (never before the first line), then the line itself. So consecutive
/// transcript lines are never separated by a marker, and lines further apart always are.
pub proof fn lemma_excerpts_mark_only_gaps(lines: Seq<Line>, indexes: Seq<usize>, j: usize)
    ensures
        excerpts(lines, Seq::<usize>::empty()) == Seq::<char>::empty(),
        excerpts(lines, indexes.push(j)) == excerpts(lines, indexes) + (if indexes.len() > 0 && j
            > indexes.last() + 1 {
            "...\n"@
        } else {
            Seq::<char>::empty()
        }) + prompt_line(lines[j as int]),
        indexes.len() > 0 && j == indexes.last() + 1 ==> excerpts(lines, indexes.push(j)) == excerpts(lines, indexes)
            + prompt_line(lines[j as int]),
{
    reveal_strlit("...\n");
    let ext = indexes.push(j);
    assert(ext.drop_last() =~= indexes);
    assert(ext.last() == j);
    if indexes.len() > 0 {
        assert(ext[ext.len() - 2] == indexes.last());
    }
    assert("...\n"@ =~= seq!['.', '.', '.', '\n']);
}

/// The whole prompt: the invitees, then the transcript excerpts.
pub open spec fn prompt_text(lines: Seq<Line>, indexes: Seq<usize>, attendees: Seq<Seq<char>>) -> Seq<char> {
    "People in this meeting: "@ + joined(attendees, seq![',', ' ']) + seq!['\n', '\n']
        + "Transcript excerpts:"@ + seq!['\n'] + excerpts(lines, indexes)
}

fn push_prompt_line(out: &mut String, line: &Line)
    ensures
        final(out)@ == old(out)@ + prompt_line(*line),
{
    let time = format_time(line.start_secs);
    out.append(time.as_str());
    push_char(out, ' ');
    out.append(line.speaker.as_str());
    push_char(out, ':');
    push_char(out, ' ');
    out.append(line.text.as_str());
    push_char(out, '\n');
    assert(out@ =~= old(out)@ + prompt_line(*line));
}

/// The prompt asking the model to match speakers to invitees.
pub fn build_prompt(lines: &[Line], indexes: &[usize], attendees: &[String]) -> (r: String)
    requires
        forall|k: int| 0 <= k < indexes.len() ==> indexes@[k] < lines.len(),
    ensures
        r@ == prompt_text(lines@, indexes@, attendees.deep_view()),
{
    let mut prompt = String::new();
    prompt.append("People in this meeting: ");
    let names = join(attendees, ", ");
    prompt.append(names.as_str());
    push_char(&mut prompt, '\n');
    push_char(&mut prompt, '\n');
    prompt.append("Transcript excerpts:");
    push_char(&mut prompt, '\n');
    proof {
        reveal_strlit(", ");
    }
    assert(", "@ =~= seq![',', ' ']);
    let ghost header = prompt@;
    assert(indexes@.take(0) =~= Seq::<usize>::empty());
    let mut previous: Option<usize> = None;
    let mut k: usize = 0;
    while k < indexes.len()
        invariant
            forall|m: int| 0 <= m < indexes.len() ==> indexes@[m] < lines.len(),
            k <= indexes.len(),
            prompt@ == header + excerpts(lines@, indexes@.take(k as int)),
            k == 0 ==> previous is None,
            k > 0 ==> previous == Some(indexes@[k - 1]),
        decreases indexes.len() - k,
    {
        let i = indexes[k];
        assert(indexes@.take(k + 1).drop_last() =~= indexes@.take(k as int));
        assert(indexes@.take(k + 1).last() == i);
        let ghost before = prompt@;
        let gap = match previous {
            Some(p) => i > p && i - p > 1,
            None => false,
        };
        if gap {
            push_char(&mut prompt, '.');
            push_char(&mut prompt, '.');
            push_char(&mut prompt, '.');
            push_char(&mut prompt, '\n');
        }
        push_prompt_line(&mut prompt, &lines[i]);
        assert(prompt@ =~= header + excerpts(lines@, indexes@.take(k + 1)));
        previous = Some(i);
        k = k + 1;
    }
    assert(indexes@.take(indexes.len() as int) =~= indexes@);
    prompt
}

/// The remote speakers of a meeting: the distinct `system-` speakers of its lines, in order of
/// first appearance.
pub open spec fn meeting_speakers(lines: Seq<Line>) -> Seq<Seq<char>>
    decreases lines.len(),
{
    if lines.len() == 0 {
        seq![]
    } else {
        let prev = meeting_speakers(lines.drop_last());
        let s = lines.last().speaker@;
        if has_prefix(s, SYSTEM_SPEAKER_PREFIX@) && !prev.contains(s) {
            prev.push(s)
        } else {
            prev
        }
    }
}

/// The remote (`system-`) speakers heard in the meeting, each once.
pub fn system_speakers(lines: &[Line]) -> (speakers: Vec<String>)
    ensures
        speakers.deep_view() == meeting_speakers(lines@),
{
    let mut speakers: Vec<String> = Vec::new();
    assert(speakers.deep_view() =~= meeting_speakers(lines@.take(0)));
    let mut i: usize = 0;
    while i < lines.len()
        invariant
            i <= lines.len(),
            speakers.deep_view() == meeting_speakers(lines@.take(i as int)),
        decreases lines.len() - i,
    {
        assert(lines@.take(i + 1).drop_last() =~= lines@.take(i as int));
        assert(lines@.take(i + 1).last() == lines@[i as int]);
        let speaker = &lines[i].speaker;
        if starts_with(speaker.as_str(), SYSTEM_SPEAKER_PREFIX) && !contains_string(&speakers, speaker) {
            let ghost before = speakers.deep_view();
            speakers.push(speaker.clone());
            assert(speakers.deep_view() =~= before.push(speaker@));
        }
        i = i + 1;
    }
    assert(lines@.take(lines.len() as int) =~= lines@);
    speakers
}

/// The transcript lines worth showing the model: none when there are no other invitees or no
/// remote speakers, else the lines mentioning an invitee and their neighbours.
pub fn excerpt_indexes(lines: &[Line], others: &[String], speakers: &[String]) -> (r: Vec<usize>)
    ensures
        r@.map_values(|i: usize| i as int) == if others@.len() == 0 || speakers@.len() == 0 {
            Seq::<int>::empty()
        } else {
            context_indexes(texts(lines@), others.deep_view())
        },
{
    if others.len() == 0 || speakers.len() == 0 {
        let r: Vec<usize> = Vec::new();
        assert(r@.map_values(|i: usize| i as int) =~= Seq::<int>::empty());
        r
    } else {
        context_line_indexes(lines, others)
    }
}

/// Suggested names for a meeting's speakers and the invitees they were chosen from.
pub struct SpeakerNameSuggestions {
    /// Suggested display name per speaker key (`mic`, `system-N`), each key once.
    pub names: Vec<(String, String)>,
    /// Invitees found in the calendar, the current user first; empty when no event matched.
    pub attendees: Vec<String>,
}

/// The suggestions for a meeting: the current user speaks into the microphone, the remote speakers
/// are the ones the model's answer matched, and all invitees are listed with the user first.
pub fn name_suggestions(attendees: EventAttendees, matched: Vec<(String, String)>) -> (r: SpeakerNameSuggestions)
    ensures
        r.names.deep_view() == match attendees.me {
            Some(me) => seq![("mic"@, me@)] + matched.deep_view(),
            None => matched.deep_view(),
        },
        r.attendees.deep_view() == match attendees.me {
            Some(me) => seq![me@] + attendees.others.deep_view(),
            None => attendees.others.deep_view(),
        },
{
    let EventAttendees { me, others } = attendees;
    let mut names: Vec<(String, String)> = Vec::new();
    let mut all: Vec<String> = Vec::new();
    match &me {
        Some(name) => {
            names.push((String::from_str("mic"), name.clone()));
            all.push(name.clone());
        },
        None => {},
    }
    let ghost names0 = names.deep_view();
    let ghost all0 = all.deep_view();
    let mut i: usize = 0;
    while i < matched.len()
        invariant
            i <= matched.len(),
            names.deep_view() == names0 + matched.deep_view().take(i as int),
        decreases matched.len() - i,
    {
        let ghost before = names.deep_view();
        names.push((matched[i].0.clone(), matched[i].1.clone()));
        assert(names.deep_view() =~= before.push(matched.deep_view()[i as int]));
        assert(matched.deep_view().take(i + 1) =~= matched.deep_view().take(i as int).push(matched.deep_view()[i as int]));
        i = i + 1;
    }
    let mut k: usize = 0;
    while k < others.len()
        invariant
            k <= others.len(),
            all.deep_view() == all0 + others.deep_view().take(k as int),
        decreases others.len() - k,
    {
        let ghost before = all.deep_view();
        all.push(others[k].clone());
        assert(all.deep_view() =~= before.push(others.deep_view()[k as int]));
        assert(others.deep_view().take(k + 1) =~= others.deep_view().take(k as int).push(others.deep_view()[k as int]));
        k = k + 1;
    }
    assert(matched.deep_view().take(matched.len() as int) =~= matched.deep_view());
    assert(others.deep_view().take(others.len() as int) =~= others.deep_view());
    assert(names0 + matched.deep_view() =~= match me {
        Some(m) => seq![("mic"@, m@)] + matched.deep_view(),
        None => matched.deep_view(),
    });
    assert(all0 + others.deep_view() =~= match me {
        Some(m) => seq![m@] + others.deep_view(),
        None => others.deep_view(),
    });
    SpeakerNameSuggestions { names, attendees: all }
}

proof fn lemma_range_filter_ordered(n: nat, p: spec_fn(int) -> bool)
    ensures
        ({
            let f = Seq::new(n, |k: int| k).filter(p);
            &&& forall|a: int, b: int| 0 <= a < b < f.len() ==> f[a] < f[b]
            &&& forall|a: int| 0 <= a < f.len() ==> 0 <= #[trigger] f[a] < n && p(f[a])
        }),
    decreases n,
{
    if n > 0 {
        let m = (n - 1) as nat;
        lemma_range_filter_ordered(m, p);
        assert(Seq::new(n, |k: int| k) =~= Seq::new(m, |k: int| k).push(m as int));
        Seq::new(m, |k: int| k).lemma_filter_push(m as int, p);
    }
}

/// The lines shown to the model come in transcript order, each at most once, at most
/// `MAX_PROMPT_LINES` of them, and each lies within `CONTEXT_LINES` of a line mentioning an invitee.
pub proof fn lemma_context_indexes_ordered_and_capped(texts: Seq<Seq<char>>, attendees: Seq<Seq<char>>)
    ensures
        ({
            let r = context_indexes(texts, attendees);
            &&& r.len() <= MAX_PROMPT_LINES
            &&& forall|a: int, b: int| 0 <= a < b < r.len() ==> r[a] < r[b]
            &&& forall|a: int| 0 <= a < r.len() ==> 0 <= #[trigger] r[a] < texts.len() && near_mention(texts, attendees, r[a])
        }),
{
    let p = |k: int| near_mention(texts, attendees, k);
    lemma_range_filter_ordered(texts.len(), p);
}

} // verus!
