//! The list of recordings and their transcripts, put together from the names of
//! the files in the directory that holds them.

use vstd::prelude::*;

use crate::names::{
    lemma_mark_once, lemma_segment_file, names_audio, names_session, occurs_once, segment_name,
};
use crate::number::{
    ascii_digit, lemma_padded_value, padded_decimal, parse_u32, unsigned_value,
};
use crate::scan::txt_name;
use crate::text::{
    blank, chars, contains, ends_in, ends_with, join, joined, last_at, law_parted_at_last,
    law_stripped, law_trimmed, lemma_first_at, lemma_picks_agree, lemma_picks_next,
    lemma_precedes_irreflexive, lemma_precedes_transitive, occurs_at, part_at_last,
    parted_at_last, picks, place, precedes, replace, replaced, strip, stripped, texts, trim,
    trimmed, white_space, Place,
};

verus! {

// ---------------------------------------------------------------------------
//  One file
// ---------------------------------------------------------------------------

/// The ending of the name of an audio file.
pub open spec fn audio_ending(name: Seq<char>) -> Option<Seq<char>> {
    if ends_in(name, ".wav"@) {
        Some(".wav"@)
    } else if ends_in(name, ".webm"@) {
        Some(".webm"@)
    } else {
        None
    }
}

fn ending_of(name: &str) -> (r: Option<&'static str>)
    ensures
        match r {
            Some(e) => audio_ending(name@) == Some(e@) && e@.len() > 0,
            None => audio_ending(name@) is None,
        },
{
    proof {
        reveal_strlit(".wav");
        reveal_strlit(".webm");
    }
    if ends_with(name, ".wav") {
        Some(".wav")
    } else if ends_with(name, ".webm") {
        Some(".webm")
    } else {
        None
    }
}

/// The name of the transcript of an audio file; other files have none.
pub open spec fn transcript_of(name: Seq<char>) -> Option<Seq<char>> {
    match audio_ending(name) {
        Some(e) => Some(replaced(name, e, ".txt"@)),
        None => None,
    }
}

/// The name of the transcript of an audio file; other files have none.
pub fn transcript_name(name: &str) -> (r: Option<String>)
    ensures
        chars(r) == transcript_of(name@),
{
    match ending_of(name) {
        Some(e) => Some(replace(name, e, ".txt")),
        None => None,
    }
}

/// The session that an audio file belongs to: what stands before the last
/// `_seg` in its name.
pub open spec fn session_of(name: Seq<char>) -> Seq<char> {
    parted_at_last(name, "_seg"@).0
}

/// The number of a segment: what stands behind the last `_seg` in the name
/// without its ending, or 0 where that is no number.
pub open spec fn index_of(name: Seq<char>, ending: Seq<char>) -> nat {
    match unsigned_value(parted_at_last(stripped(name, ending), "_seg"@).1, u32::MAX as nat) {
        Some(n) => n,
        None => 0,
    }
}

/// The text of a transcript, unless there is none or it is blank.
pub open spec fn shown_text(content: Option<Seq<char>>) -> Option<Seq<char>> {
    match content {
        Some(t) => if trimmed(t).len() > 0 {
            Some(trimmed(t))
        } else {
            None
        },
        None => None,
    }
}

/// A file in the directory: its name, and the text of its transcript where
/// that can be read.
#[derive(Debug)]
pub struct FoundFile {
    pub name: String,
    pub content: Option<String>,
}

/// A segment in the list.
#[derive(Debug)]
pub struct TranscriptSegment {
    pub filename: String,
    pub index: u32,
    /// The transcript; without one, the segment is not transcribed yet.
    pub text: Option<String>,
    pub has_audio: bool,
}

/// A session in the list.
#[derive(Debug)]
pub struct TranscriptSession {
    pub id: String,
    pub segments: Vec<TranscriptSegment>,
    /// The transcripts of all segments, one below the other.
    pub total_text: String,
}

/// A file, as contracts speak of it.
pub ghost struct Found {
    pub name: Seq<char>,
    pub content: Option<Seq<char>>,
}

/// A segment, as contracts speak of it.
pub ghost struct Listed {
    pub filename: Seq<char>,
    pub index: nat,
    pub text: Option<Seq<char>>,
    pub has_audio: bool,
}

impl View for FoundFile {
    type V = Found;

    open spec fn view(&self) -> Found {
        Found { name: self.name@, content: chars(self.content) }
    }
}

impl View for TranscriptSegment {
    type V = Listed;

    open spec fn view(&self) -> Listed {
        Listed {
            filename: self.filename@,
            index: self.index as nat,
            text: chars(self.text),
            has_audio: self.has_audio,
        }
    }
}

/// The segments, as contracts speak of them.
pub open spec fn all_listed(v: Seq<TranscriptSegment>) -> Seq<Listed> {
    v.map_values(|s: TranscriptSegment| s@)
}

impl Found {
    /// The session and the segment that an audio file stands for.
    pub open spec fn listed(self) -> Option<(Seq<char>, Listed)> {
        match audio_ending(self.name) {
            Some(ending) => Some(
                (
                    session_of(self.name),
                    Listed {
                        filename: self.name,
                        index: index_of(self.name, ending),
                        text: shown_text(self.content),
                        has_audio: true,
                    },
                ),
            ),
            None => None,
        }
    }

    /// The file is a segment of that session.
    pub open spec fn belongs_to(self, id: Seq<char>) -> bool {
        self.listed() matches Some(p) && p.0 == id
    }
}

fn list_file(file: FoundFile) -> (r: Option<(String, TranscriptSegment)>)
    ensures
        match r {
            Some((id, segment)) => file@.listed() == Some((id@, segment@)),
            None => file@.listed() is None,
        },
{
    match ending_of(file.name.as_str()) {
        Some(ending) => {
            let (id, _) = part_at_last(file.name.as_str(), "_seg");
            let stem = strip(file.name.as_str(), ending);
            let (_, number) = part_at_last(stem.as_str(), "_seg");
            let index: u32 = match parse_u32(number.as_str()) {
                Some(n) => n,
                None => 0,
            };
            let text = match file.content {
                Some(t) => {
                    let short = trim(t.as_str());
                    if short.as_str().unicode_len() > 0 {
                        Some(short)
                    } else {
                        None
                    }
                },
                None => None,
            };
            Some((id, TranscriptSegment { filename: file.name, index, text, has_audio: true }))
        },
        None => None,
    }
}

// ---------------------------------------------------------------------------
//  All files
// ---------------------------------------------------------------------------

/// The files, as contracts speak of them.
pub open spec fn all_found(files: Seq<FoundFile>) -> Seq<Found> {
    files.map_values(|f: FoundFile| f@)
}

/// The segments of a session, in the order of the files.
pub open spec fn segments_of(files: Seq<Found>, id: Seq<char>) -> Seq<Listed>
    decreases files.len(),
{
    if files.len() == 0 {
        Seq::empty()
    } else {
        let before = segments_of(files.drop_last(), id);
        if files.last().belongs_to(id) {
            before.push(files.last().listed()->Some_0.1)
        } else {
            before
        }
    }
}

/// The segments of that number, in their order.
pub open spec fn numbered(segments: Seq<Listed>, index: nat) -> Seq<Listed>
    decreases segments.len(),
{
    if segments.len() == 0 {
        Seq::empty()
    } else {
        let before = numbered(segments.drop_last(), index);
        if segments.last().index == index {
            before.push(segments.last())
        } else {
            before
        }
    }
}

/// `sorted` holds the segments of `all` in the order of their numbers; those
/// of one number are in the order in which they are in `all`.
pub open spec fn sorts(sorted: Seq<Listed>, all: Seq<Listed>) -> bool {
    &&& forall|i: int, j: int| 0 <= i <= j < sorted.len() ==> sorted[i].index <= sorted[j].index
    &&& forall|index: nat| #[trigger] numbered(sorted, index) == numbered(all, index)
}

/// The texts that there are, in order.
pub open spec fn shown_texts(segments: Seq<Listed>) -> Seq<Seq<char>>
    decreases segments.len(),
{
    if segments.len() == 0 {
        Seq::empty()
    } else {
        let before = shown_texts(segments.drop_last());
        match segments.last().text {
            Some(t) => before.push(t),
            None => before,
        }
    }
}

/// The sessions hold the segments that the files stand for: the last name
/// first, and the segments of each sorted.
pub open spec fn groups(sessions: Seq<TranscriptSession>, files: Seq<Found>) -> bool {
    &&& forall|i: int, j: int|
        0 <= i < j < sessions.len() ==> precedes(sessions[j].id@, sessions[i].id@)
    &&& forall|i: int|
        0 <= i < sessions.len() ==> {
            &&& (#[trigger] sessions[i]).segments@.len() > 0
            &&& sorts(all_listed(sessions[i].segments@), segments_of(files, sessions[i].id@))
        }
    &&& forall|k: int|
        0 <= k < files.len() && (#[trigger] files[k]).listed() is Some ==> exists|i: int|
            0 <= i < sessions.len() && (#[trigger] sessions[i]).id@ == files[k].listed()->Some_0.0
}

/// The text of each session is that of its segments, one below the other.
pub open spec fn tells(session: TranscriptSession) -> bool {
    session.total_text@ == joined(shown_texts(all_listed(session.segments@)), "\n"@)
}

proof fn lemma_numbered_in_two(a: Seq<Listed>, b: Seq<Listed>, index: nat)
    ensures
        numbered(a + b, index) == numbered(a, index) + numbered(b, index),
    decreases b.len(),
{
    if b.len() == 0 {
        assert(a + b =~= a);
        assert(numbered(a, index) + numbered(b, index) =~= numbered(a, index));
    } else {
        assert((a + b).drop_last() =~= a + b.drop_last());
        lemma_numbered_in_two(a, b.drop_last(), index);
        assert(numbered(a + b, index) =~= numbered(a, index) + numbered(b, index));
    }
}

proof fn lemma_none_numbered(a: Seq<Listed>, index: nat)
    requires
        forall|i: int| 0 <= i < a.len() ==> (#[trigger] a[i]).index != index,
    ensures
        numbered(a, index) == Seq::<Listed>::empty(),
    decreases a.len(),
{
    if a.len() > 0 {
        assert(a.last() == a[a.len() - 1]);
        assert forall|i: int| 0 <= i < a.len() - 1 implies (#[trigger] a.drop_last()[i]).index
            != index by {
            assert(a.drop_last()[i] == a[i]);
        }
        lemma_none_numbered(a.drop_last(), index);
    }
}

/// A segment put behind those of its number and of lower ones.
proof fn lemma_insert_sorts(sorted: Seq<Listed>, all: Seq<Listed>, k: int, x: Listed)
    requires
        sorts(sorted, all),
        0 <= k <= sorted.len(),
        forall|i: int| 0 <= i < k ==> (#[trigger] sorted[i]).index <= x.index,
        forall|i: int| k <= i < sorted.len() ==> (#[trigger] sorted[i]).index > x.index,
    ensures
        sorts(sorted.insert(k, x), all.push(x)),
{
    let new = sorted.insert(k, x);
    let front = sorted.take(k);
    let rest = sorted.skip(k);
    assert(sorted =~= front + rest);
    assert(new =~= front.push(x) + rest);
    assert forall|index: nat| #[trigger] numbered(new, index) == numbered(all.push(x), index) by {
        lemma_numbered_in_two(front, rest, index);
        lemma_numbered_in_two(front.push(x), rest, index);
        assert(front.push(x).drop_last() =~= front);
        assert(all.push(x).drop_last() =~= all);
        assert(numbered(sorted, index) == numbered(all, index));
        if index == x.index {
            assert forall|i: int| 0 <= i < rest.len() implies (#[trigger] rest[i]).index
                != index by {
                assert(rest[i] == sorted[k + i]);
            }
            lemma_none_numbered(rest, index);
            assert(numbered(front.push(x), index) =~= numbered(front, index).push(x));
            assert(numbered(new, index) =~= numbered(front, index).push(x));
            assert(numbered(sorted, index) =~= numbered(front, index));
        }
    }
    assert forall|i: int, j: int| 0 <= i <= j < new.len() implies new[i].index
        <= new[j].index by {
        let a = if i < k { i } else { i - 1 };
        let b = if j < k { j } else { j - 1 };
        if i != k && j != k {
            assert(new[i] == sorted[a] && new[j] == sorted[b]);
        } else if i == k && j != k {
            assert(new[j] == sorted[b]);
        } else if j == k && i != k {
            assert(new[i] == sorted[a]);
        }
    }
}

/// Puts the segment behind those of its number and of lower ones.
fn insert_segment(segments: &mut Vec<TranscriptSegment>, segment: TranscriptSegment, Ghost(all): Ghost<
    Seq<Listed>,
>)
    requires
        sorts(all_listed(old(segments)@), all),
    ensures
        sorts(all_listed(final(segments)@), all.push(segment@)),
        final(segments)@.len() == old(segments)@.len() + 1,
{
    let n: usize = segments.len();
    let mut k: usize = n;
    let ghost sorted = all_listed(segments@);
    while k > 0 && segments[k - 1].index > segment.index
        invariant
            k <= n,
            n == segments@.len(),
            segments@ == old(segments)@,
            sorted == all_listed(segments@),
            forall|i: int| k <= i < n ==> (#[trigger] sorted[i]).index > segment.index,
        decreases k,
    {
        assert(sorted[k - 1].index == segments@[k - 1].index);
        k -= 1;
    }
    proof {
        if k > 0 {
            assert(sorted[k - 1].index == segments@[k - 1].index);
        }
        lemma_insert_sorts(sorted, all, k as int, segment@);
        assert(sorted.insert(k as int, segment@) =~= all_listed(
            segments@.insert(k as int, segment),
        ));
    }
    segments.insert(k, segment);
}

proof fn lemma_no_segments(files: Seq<Found>, id: Seq<char>)
    requires
        forall|k: int| 0 <= k < files.len() ==> !(#[trigger] files[k]).belongs_to(id),
    ensures
        segments_of(files, id) == Seq::<Listed>::empty(),
    decreases files.len(),
{
    if files.len() > 0 {
        assert(files.last() == files[files.len() - 1]);
        assert forall|k: int| 0 <= k < files.len() - 1 implies !(
        #[trigger] files.drop_last()[k]).belongs_to(id) by {
            assert(files.drop_last()[k] == files[k]);
        }
        lemma_no_segments(files.drop_last(), id);
    }
}

/// A file that is no segment of any session changes nothing.
proof fn lemma_groups_without(sessions: Seq<TranscriptSession>, files: Seq<Found>, file: Found)
    requires
        groups(sessions, files),
        file.listed() is None,
    ensures
        groups(sessions, files.push(file)),
{
    let all = files.push(file);
    assert(all.drop_last() =~= files);
    assert forall|i: int| 0 <= i < sessions.len() implies segments_of(
        all,
        (#[trigger] sessions[i]).id@,
    ) == segments_of(files, sessions[i].id@) by {}
    assert forall|k: int|
        0 <= k < all.len() && (#[trigger] all[k]).listed() is Some implies exists|i: int|
        0 <= i < sessions.len() && (#[trigger] sessions[i]).id@ == all[k].listed()->Some_0.0 by {
        assert(all[k] == files[k]);
    }
}

/// The segment of the file stands in the session at `at`, which was changed or
/// added for it.
proof fn lemma_groups_with(
    before: Seq<TranscriptSession>,
    sessions: Seq<TranscriptSession>,
    files: Seq<Found>,
    file: Found,
    at: int,
    added: bool,
)
    requires
        groups(before, files),
        0 <= at < sessions.len(),
        sessions == if added {
            before.insert(at, sessions[at])
        } else {
            before.update(at, sessions[at])
        },
        file.listed() is Some,
        sessions[at].id@ == file.listed()->Some_0.0,
        !added ==> before[at].id@ == sessions[at].id@,
        forall|i: int|
            0 <= i < at ==> precedes(sessions[at].id@, (#[trigger] before[i]).id@),
        added && at < before.len() ==> precedes(before[at].id@, sessions[at].id@),
        at <= before.len(),
        !added ==> at < before.len(),
        sessions[at].segments@.len() > 0,
        sorts(
            all_listed(sessions[at].segments@),
            segments_of(files, sessions[at].id@).push(file.listed()->Some_0.1),
        ),
    ensures
        groups(sessions, files.push(file)),
{
    let all = files.push(file);
    let id = sessions[at].id@;
    assert(all.drop_last() =~= files);
    // Where a session stood before.
    assert forall|i: int| 0 <= i < sessions.len() && i != at implies exists|j: int|
        0 <= j < before.len() && #[trigger] sessions[i] == #[trigger] before[j] && (if added {
            j == if i < at {
                i
            } else {
                i - 1
            }
        } else {
            j == i
        }) by {
        let j = if !added || i < at {
            i
        } else {
            i - 1
        };
        assert(sessions[i] == before[j]);
    }
    assert forall|j: int| added && at <= j < before.len() implies precedes(
        (#[trigger] before[j]).id@,
        id,
    ) by {
        if j > at {
            lemma_precedes_transitive(before[j].id@, before[at].id@, id);
        }
    }
    assert forall|i: int, j: int| 0 <= i < j < sessions.len() implies precedes(
        sessions[j].id@,
        sessions[i].id@,
    ) by {
        let a = if !added || i < at {
            i
        } else {
            i - 1
        };
        let b = if !added || j < at {
            j
        } else {
            j - 1
        };
        if i != at && j != at {
            assert(sessions[i] == before[a] && sessions[j] == before[b]);
        } else if i == at {
            if added {
                assert(sessions[j] == before[b]);
            } else {
                assert(sessions[j] == before[j]);
                assert(before[i].id@ == id);
            }
        } else {
            assert(sessions[i] == before[a]);
        }
    }
    assert forall|i: int| 0 <= i < sessions.len() implies {
        &&& (#[trigger] sessions[i]).segments@.len() > 0
        &&& sorts(all_listed(sessions[i].segments@), segments_of(all, sessions[i].id@))
    } by {
        if i != at {
            if sessions[i].id@ == id {
                lemma_precedes_irreflexive(id);
                if i < at {
                    assert(precedes(sessions[at].id@, sessions[i].id@));
                } else {
                    assert(precedes(sessions[i].id@, sessions[at].id@));
                }
            }
            let j = choose|j: int|
                0 <= j < before.len() && #[trigger] sessions[i] == #[trigger] before[j];
            assert(segments_of(all, sessions[i].id@) == segments_of(files, before[j].id@));
        }
    }
    assert forall|k: int|
        0 <= k < all.len() && (#[trigger] all[k]).listed() is Some implies exists|i: int|
        0 <= i < sessions.len() && (#[trigger] sessions[i]).id@ == all[k].listed()->Some_0.0 by {
        if k < files.len() {
            assert(all[k] == files[k]);
            let j = choose|j: int|
                0 <= j < before.len() && (#[trigger] before[j]).id@ == files[k].listed()->Some_0.0;
            let i = if !added || j < at {
                j
            } else {
                j + 1
            };
            if !added && j == at {
                assert(sessions[at].id@ == all[k].listed()->Some_0.0);
            } else {
                assert(sessions[i] == before[j]);
            }
        } else {
            assert(sessions[at].id@ == all[k].listed()->Some_0.0);
        }
    }
}

/// Puts what the file stands for into the list.
fn add_file(sessions: &mut Vec<TranscriptSession>, file: FoundFile, Ghost(files): Ghost<Seq<Found>>)
    requires
        groups(old(sessions)@, files),
    ensures
        groups(final(sessions)@, files.push(file@)),
{
    let ghost found = file@;
    let ghost before = sessions@;
    let (id, segment) = match list_file(file) {
        Some(p) => p,
        None => {
            proof {
                lemma_groups_without(sessions@, files, found);
            }
            return;
        },
    };
    let n: usize = sessions.len();
    let mut at: usize = 0;
    while at < n
        invariant
            at <= n,
            n == sessions@.len(),
            sessions@ == before,
            before == old(sessions)@,
            groups(before, files),
            found.listed() == Some((id@, segment@)),
            forall|i: int| 0 <= i < at ==> precedes(id@, (#[trigger] before[i]).id@),
        ensures
            at <= n,
            at < n ==> precedes(before[at as int].id@, id@) || before[at as int].id@ == id@,
        decreases n - at,
    {
        let there = place(id.as_str(), sessions[at].id.as_str());
        match there {
            Place::Before => {
                at += 1;
            },
            Place::Same => {
                break;
            },
            Place::Behind => {
                break;
            },
        }
    }
    if at < n && place(id.as_str(), sessions[at].id.as_str()) == Place::Same {
        let mut session = sessions.remove(at);
        insert_segment(&mut session.segments, segment, Ghost(segments_of(files, id@)));
        sessions.insert(at, session);
        proof {
            assert(sessions@ =~= before.update(at as int, sessions@[at as int]));
            lemma_groups_with(before, sessions@, files, found, at as int, false);
        }
    } else {
        let mut segments: Vec<TranscriptSegment> = Vec::new();
        proof {
            if at < n && before[at as int].id@ == id@ {
                lemma_precedes_irreflexive(id@);
            }
            assert forall|k: int| 0 <= k < files.len() implies !(
            #[trigger] files[k]).belongs_to(id@) by {
                if files[k].belongs_to(id@) {
                    let i = choose|i: int|
                        0 <= i < before.len() && (#[trigger] before[i]).id@
                            == files[k].listed()->Some_0.0;
                    lemma_precedes_irreflexive(id@);
                    if i > at {
                        lemma_precedes_transitive(before[i].id@, before[at as int].id@, id@);
                    }
                }
            }
            lemma_no_segments(files, id@);
            assert(all_listed(segments@) =~= Seq::<Listed>::empty());
        }
        insert_segment(&mut segments, segment, Ghost(segments_of(files, id@)));
        let session = TranscriptSession { id, segments, total_text: String::new() };
        sessions.insert(at, session);
        proof {
            assert(sessions@ =~= before.insert(at as int, sessions@[at as int]));
            lemma_groups_with(before, sessions@, files, found, at as int, true);
        }
    }
}

fn total_text(segments: &Vec<TranscriptSegment>) -> (t: String)
    ensures
        t@ == joined(shown_texts(all_listed(segments@)), "\n"@),
{
    let mut parts: Vec<String> = Vec::new();
    let ghost all = all_listed(segments@);
    let mut i: usize = 0;
    assert(texts(parts@) =~= shown_texts(all.take(0)));
    while i < segments.len()
        invariant
            i <= segments@.len(),
            all == all_listed(segments@),
            texts(parts@) == shown_texts(all.take(i as int)),
        decreases segments@.len() - i,
    {
        proof {
            assert(all.take(i + 1).drop_last() =~= all.take(i as int));
            assert(all.take(i + 1).last() == segments@[i as int]@);
        }
        let ghost before = parts@;
        if let Some(t) = &segments[i].text {
            parts.push(t.clone());
            assert(texts(parts@) =~= texts(before).push(t@));
        }
        i += 1;
    }
    assert(all.take(i as int) =~= all);
    join(&parts, "\n")
}

/// Lists the recordings that the files of the directory stand for.
pub fn list_transcripts(files: Vec<FoundFile>) -> (sessions: Vec<TranscriptSession>)
    ensures
        groups(sessions@, all_found(files@)),
        forall|i: int| 0 <= i < sessions@.len() ==> tells(#[trigger] sessions@[i]),
{
    let ghost given = files@;
    let ghost all = all_found(files@);
    let mut sessions: Vec<TranscriptSession> = Vec::new();
    for file in it: files
        invariant
            it.seq() == given,
            all == all_found(given),
            groups(sessions@, all.take(it.index() as int)),
    {
        let ghost k = it.index() as int;
        assert(all.take(k + 1) =~= all.take(k).push(file@));
        add_file(&mut sessions, file, Ghost(all.take(k)));
    }
    assert(all.take(all.len() as int) =~= all);
    let n: usize = sessions.len();
    let mut i: usize = 0;
    while i < n
        invariant
            i <= n,
            n == sessions@.len(),
            groups(sessions@, all),
            forall|k: int| 0 <= k < i ==> tells(#[trigger] sessions@[k]),
        decreases n - i,
    {
        let ghost before = sessions@;
        let t = total_text(&sessions[i].segments);
        sessions[i].total_text = t;
        proof {
            assert forall|k: int| 0 <= k < n implies (#[trigger] sessions@[k]).id == before[k].id
                && sessions@[k].segments == before[k].segments by {}
            lemma_same_groups(before, sessions@, all);
        }
        i += 1;
    }
    sessions
}

/// The texts of the sessions do not matter for what they hold.
proof fn lemma_same_groups(
    before: Seq<TranscriptSession>,
    sessions: Seq<TranscriptSession>,
    files: Seq<Found>,
)
    requires
        groups(before, files),
        before.len() == sessions.len(),
        forall|k: int|
            0 <= k < sessions.len() ==> (#[trigger] sessions[k]).id == before[k].id
                && sessions[k].segments == before[k].segments,
    ensures
        groups(sessions, files),
{
    assert forall|i: int| 0 <= i < sessions.len() implies {
        &&& (#[trigger] sessions[i]).segments@.len() > 0
        &&& sorts(all_listed(sessions[i].segments@), segments_of(files, sessions[i].id@))
    } by {
        assert(before[i].segments@.len() > 0);
    }
    assert forall|k: int|
        0 <= k < files.len() && (#[trigger] files[k]).listed() is Some implies exists|i: int|
        0 <= i < sessions.len() && (#[trigger] sessions[i]).id@
            == files[k].listed()->Some_0.0 by {
        let j = choose|j: int|
            0 <= j < before.len() && (#[trigger] before[j]).id@ == files[k].listed()->Some_0.0;
        assert(sessions[j].id@ == files[k].listed()->Some_0.0);
    }
}

// ---------------------------------------------------------------------------
//  Laws
// ---------------------------------------------------------------------------

proof fn lemma_last_at(s: Seq<char>, pattern: Seq<char>, end: int, at: int)
    requires
        occurs_at(s, pattern, at),
        at < end,
        forall|k: int| at < k < end ==> !occurs_at(s, pattern, k),
    ensures
        last_at(s, pattern, end) == Some(at),
    decreases end - at,
{
    if at < end - 1 {
        lemma_last_at(s, pattern, end - 1, at);
    }
}

/// The name of a segment ends in the ending that it was given.
proof fn lemma_ending_found(session: Seq<char>, index: nat, ending: Seq<char>)
    requires
        names_audio(ending),
    ensures
        ({
            let stem = session + "_seg"@ + padded_decimal(index, 4);
            let name = segment_name(session, index, ending);
            &&& audio_ending(name) == Some(ending)
            &&& stripped(name, ending) == stem
            &&& !ends_in(stem, ending)
        }),
{
    reveal_strlit(".webm");
    reveal_strlit(".wav");
    lemma_padded_value(index, 4, index);
    let number = padded_decimal(index, 4);
    let stem = session + "_seg"@ + number;
    let name = segment_name(session, index, ending);
    assert(name == stem + ending);
    assert(name.skip(name.len() - ending.len()) =~= ending);
    assert(name.take(name.len() - ending.len()) =~= stem);
    assert(name.last() == ending.last());
    if ends_in(name, ".wav"@) {
        assert(name.skip(name.len() - 4)[3] == name.last());
    }
    assert(stem.last() == number.last());
    assert(ascii_digit(number[number.len() - 1]));
    if ends_in(stem, ending) {
        let tail = stem.skip(stem.len() - ending.len());
        assert(tail[ending.len() - 1] == stem.last());
    }
    reveal_with_fuel(stripped, 2);
}

/// A recorded segment is listed under its session and its number.
pub proof fn law_listed_as_named(session: Seq<char>, index: nat, ending: Seq<char>)
    requires
        names_session(session),
        names_audio(ending),
        index <= u32::MAX,
    ensures
        ({
            let name = segment_name(session, index, ending);
            &&& audio_ending(name) == Some(ending)
            &&& session_of(name) == session
            &&& index_of(name, ending) == index
        }),
{
    reveal_strlit("_seg");
    let name = segment_name(session, index, ending);
    let number = padded_decimal(index, 4);
    let stem = session + "_seg"@ + number;
    let n = session.len() as int;
    lemma_ending_found(session, index, ending);
    lemma_padded_value(index, 4, u32::MAX as nat);
    lemma_mark_once(session, number);
    // In the stem.
    assert(occurs_at(stem, "_seg"@, n));
    lemma_last_at(stem, "_seg"@, stem.len() as int, n);
    assert(stem.skip(n + 4) =~= number);
    // In the whole name.
    assert(name.subrange(n, n + 4) =~= "_seg"@);
    lemma_no_mark_in_ending(stem, ending, n);
    lemma_last_at(name, "_seg"@, name.len() as int, n);
    assert(name.take(n) =~= session);
}

proof fn lemma_no_mark_in_ending(stem: Seq<char>, ending: Seq<char>, n: int)
    requires
        names_audio(ending),
        occurs_once(stem, "_seg"@, n),
        stem.len() > n + 4,
        ascii_digit(stem[stem.len() - 1]),
    ensures
        forall|k: int| n < k ==> !occurs_at(stem + ending, "_seg"@, k),
{
    reveal_strlit("_seg");
    reveal_strlit(".webm");
    reveal_strlit(".wav");
    let name = stem + ending;
    assert forall|k: int| n < k implies !occurs_at(name, "_seg"@, k) by {
        if occurs_at(name, "_seg"@, k) {
            let here = name.subrange(k, k + 4);
            assert(here[0] == name[k]);
            if k + 4 <= stem.len() {
                assert(stem.subrange(k, k + 4) =~= here);
                assert(occurs_at(stem, "_seg"@, k));
            } else if k < stem.len() {
                assert(here[stem.len() - k - 1] == stem[stem.len() - 1]);
                if k + 4 > stem.len() {
                    assert(here[stem.len() - 1 - k] == "_seg"@[stem.len() - 1 - k]);
                }
            } else {
                assert(name[k] == ending[k - stem.len()]);
            }
        }
    }
}

/// The list of recordings and the scan of a directory look for the transcript
/// of a recorded segment in the same file.
pub proof fn law_same_transcript(session: Seq<char>, index: nat, ending: Seq<char>)
    requires
        names_session(session),
        !session.contains('.'),
        names_audio(ending),
    ensures
        ({
            let name = segment_name(session, index, ending);
            &&& transcript_of(name) == Some(txt_name(name))
            &&& transcript_of(name) == Some(segment_name(session, index, ".txt"@))
        }),
{
    reveal_strlit("_seg");
    reveal_strlit(".webm");
    reveal_strlit(".wav");
    let name = segment_name(session, index, ending);
    let number = padded_decimal(index, 4);
    let stem = session + "_seg"@ + number;
    let n = stem.len() as int;
    lemma_segment_file(session, index, ending);
    lemma_ending_found(session, index, ending);
    lemma_padded_value(index, 4, index);
    assert(name == stem + ending);
    assert(name.subrange(n, n + ending.len()) =~= ending);
    assert forall|k: int| 0 <= k < n implies !occurs_at(name, ending, k) by {
        if occurs_at(name, ending, k) {
            assert(name.subrange(k, k + ending.len())[0] == name[k]);
            if k < session.len() {
                assert(name[k] == session[k]);
            } else if k < session.len() + 4 {
                assert(name[k] == "_seg"@[k - session.len()]);
            } else {
                assert(name[k] == number[k - session.len() - 4]);
                assert(ascii_digit(number[k - session.len() - 4]));
            }
        }
    }
    lemma_first_at(name, ending, 0, Some(n));
    let rest = name.skip(n + ending.len());
    assert(rest =~= Seq::<char>::empty());
    assert forall|k: int| 0 <= k implies !occurs_at(rest, ending, k) by {}
    lemma_first_at(rest, ending, 0, None);
    assert(replaced(rest, ending, ".txt"@) == rest);
    assert(name.take(n) =~= stem);
    assert(stem + ".txt"@ + rest =~= stem + ".txt"@);
}

/// The text of a segment is all of its transcript but the white space around
/// it. A blank transcript, or none, gives no text.
pub proof fn law_text_shown(content: Seq<char>)
    ensures
        match shown_text(Some(content)) {
            Some(text) => {
                &&& text.len() > 0
                &&& !white_space(text[0])
                &&& !white_space(text.last())
                &&& exists|a: Seq<char>, b: Seq<char>|
                    blank(a) && blank(b) && content == #[trigger] (a + text + b)
            },
            None => blank(content),
        },
        shown_text(None) is None,
{
    law_trimmed(content);
    if trimmed(content).len() == 0 {
        let (a, b) = choose|a: Seq<char>, b: Seq<char>|
            blank(a) && blank(b) && content == #[trigger] (a + trimmed(content) + b);
        assert(content =~= a + b);
        assert forall|i: int| 0 <= i < content.len() implies white_space(#[trigger] content[i]) by {
            if i < a.len() {
                assert(content[i] == a[i]);
            } else {
                assert(content[i] == b[i - a.len()]);
            }
        }
    }
}

/// Exactly the files whose names end in `.wav` or `.webm` are listed, each under
/// its own name and with the text of its transcript. The session is what stands
/// before the last `_seg` in the name, and the number what stands behind it
/// without the ending, or 0 where that is no number.
pub proof fn law_file_listed(file: Found)
    ensures
        match file.listed() {
            Some((session, segment)) => {
                &&& ends_in(file.name, ".wav"@) || ends_in(file.name, ".webm"@)
                &&& segment.filename == file.name
                &&& segment.has_audio
                &&& segment.text == shown_text(file.content)
                &&& if contains(file.name, "_seg"@) {
                    exists|rest: Seq<char>|
                        file.name == #[trigger] (session + "_seg"@ + rest) && forall|k: int|
                            session.len() < k ==> !#[trigger] occurs_at(file.name, "_seg"@, k)
                } else {
                    session == file.name
                }
                &&& exists|stem: Seq<char>| #[trigger]
                    numbers_stem(stem, file.name, segment.index)
            },
            None => !ends_in(file.name, ".wav"@) && !ends_in(file.name, ".webm"@),
        },
{
    reveal_strlit("_seg");
    reveal_strlit(".wav");
    reveal_strlit(".webm");
    if let Some((session, segment)) = file.listed() {
        law_parted_at_last(file.name, "_seg"@);
        let ending = audio_ending(file.name)->Some_0;
        law_stripped(file.name, ending);
        let stem = stripped(file.name, ending);
        lemma_behind_mark(stem, "_seg"@);
        lemma_stripped_from(file.name, ending);
        if ends_in(file.name, ".wav"@) && ending == ".webm"@ {
            assert(false);
        }
        assert(numbers_stem(stem, file.name, segment.index));
    }
}

/// `stem` is the name of an audio file without its endings, and `index` is the
/// number that stands behind the last `_seg` in it, or in all of it where there
/// is none; 0 stands for what is no number.
pub open spec fn numbers_stem(stem: Seq<char>, name: Seq<char>, index: nat) -> bool {
    &&& stem.is_prefix_of(name)
    &&& ends_in(name, ".wav"@) ==> !ends_in(stem, ".wav"@)
    &&& !ends_in(name, ".wav"@) ==> !ends_in(stem, ".webm"@)
    &&& exists|number: Seq<char>|
        {
            &&& if contains(stem, "_seg"@) {
                !contains(number, "_seg"@) && ends_in(stem, "_seg"@ + number)
            } else {
                number == stem
            }
            &&& index == match #[trigger] unsigned_value(number, u32::MAX as nat) {
                Some(n) => n,
                None => 0,
            }
        }
}

proof fn lemma_stripped_from(s: Seq<char>, ending: Seq<char>)
    requires
        ending.len() > 0,
    ensures
        stripped(s, ending).is_prefix_of(s),
    decreases s.len(),
{
    if ends_in(s, ending) {
        let less = s.take(s.len() - ending.len());
        lemma_stripped_from(less, ending);
        let stem = stripped(less, ending);
        assert(stem =~= less.take(stem.len() as int));
        assert(stem =~= s.take(stem.len() as int));
    } else {
        assert(s =~= s.take(s.len() as int));
    }
}

/// What stands in the rest of a text stands in the text.
proof fn lemma_occurs_behind(front: Seq<char>, rest: Seq<char>, mark: Seq<char>, k: int)
    requires
        occurs_at(rest, mark, k),
    ensures
        occurs_at(front + rest, mark, front.len() + k),
{
    let at = front.len() + k;
    assert((front + rest).subrange(at, at + mark.len()) =~= rest.subrange(k, k + mark.len()));
}

/// A text ends in what it was put together from last.
proof fn lemma_ends_in_rest(front: Seq<char>, rest: Seq<char>)
    ensures
        ends_in(front + rest, rest),
{
    let s = front + rest;
    assert(s.skip(s.len() - rest.len()) =~= rest);
}

/// What stands behind the last `mark` in a text.
proof fn lemma_behind_mark(s: Seq<char>, mark: Seq<char>)
    requires
        mark.len() > 0,
    ensures
        contains(s, mark) ==> !contains(parted_at_last(s, mark).1, mark) && ends_in(
            s,
            mark + parted_at_last(s, mark).1,
        ),
        !contains(s, mark) ==> parted_at_last(s, mark).1 == s,
{
    law_parted_at_last(s, mark);
    if contains(s, mark) {
        let before = parted_at_last(s, mark).0;
        let number = parted_at_last(s, mark).1;
        let front = before + mark;
        assert(s == front + number);
        assert(!contains(number, mark)) by {
            if contains(number, mark) {
                let k = choose|k: int| occurs_at(number, mark, k);
                lemma_occurs_behind(front, number, mark, k);
                assert(!occurs_at(s, mark, front.len() + k));
            }
        }
        assert(ends_in(s, mark + number)) by {
            lemma_ends_in_rest(before, mark + number);
            assert(before + (mark + number) =~= front + number);
        }
    }
}

/// The segments that the files at `at` stand for.
pub open spec fn listed_at(files: Seq<Found>, at: Seq<int>) -> Seq<Listed> {
    Seq::new(at.len(), |k: int| files[at[k]].listed()->Some_0.1)
}

proof fn lemma_segments_picked(files: Seq<Found>, id: Seq<char>) -> (at: Seq<int>)
    ensures
        picks(at, files.len() as int, |k: int| files[k].belongs_to(id)),
        segments_of(files, id) == listed_at(files, at),
    decreases files.len(),
{
    let wanted = |k: int| files[k].belongs_to(id);
    if files.len() == 0 {
        let at = Seq::<int>::empty();
        assert(segments_of(files, id) =~= listed_at(files, at));
        at
    } else {
        let rest = files.drop_last();
        let n = rest.len() as int;
        let before = lemma_segments_picked(rest, id);
        lemma_picks_agree(before, n, |k: int| rest[k].belongs_to(id), wanted);
        lemma_picks_next(before, n, wanted);
        let at = if wanted(n) {
            before.push(n)
        } else {
            before
        };
        assert(segments_of(files, id) =~= listed_at(files, at)) by {
            assert forall|k: int| 0 <= k < before.len() implies #[trigger] before[k] < n && at[k]
                == before[k] by {}
        }
        at
    }
}

proof fn lemma_count_numbered(s: Seq<Listed>, x: Listed)
    ensures
        s.to_multiset().count(x) == numbered(s, x.index).to_multiset().count(x),
    decreases s.len(),
{
    if s.len() > 0 {
        let rest = s.drop_last();
        let last = s.last();
        lemma_count_numbered(rest, x);
        assert(s =~= rest.push(last));
        vstd::seq_lib::to_multiset_build(rest, last);
        if last.index == x.index {
            vstd::seq_lib::to_multiset_build(numbered(rest, x.index), last);
        }
    } else {
        assert(numbered(s, x.index) =~= s);
    }
}

/// A session in the list holds all the audio files that belong to it, each
/// once, and nothing else, in the order of their numbers.
pub proof fn law_session_complete(
    sessions: Seq<TranscriptSession>,
    files: Seq<Found>,
    i: int,
)
    requires
        groups(sessions, files),
        0 <= i < sessions.len(),
    ensures
        ({
            let segments = all_listed(sessions[i].segments@);
            &&& segments.len() > 0
            &&& forall|j: int, k: int|
                0 <= j <= k < segments.len() ==> segments[j].index <= segments[k].index
            &&& exists|at: Seq<int>|
                #![trigger listed_at(files, at)]
                picks(
                    at,
                    files.len() as int,
                    |k: int|
                        files[k].listed() is Some && files[k].listed()->Some_0.0
                            == sessions[i].id@,
                ) && segments.len() == at.len() && segments.to_multiset() == listed_at(
                    files,
                    at,
                ).to_multiset()
        }),
{
    let id = sessions[i].id@;
    let sorted = all_listed(sessions[i].segments@);
    let all = segments_of(files, id);
    let at = lemma_segments_picked(files, id);
    lemma_picks_agree(
        at,
        files.len() as int,
        |k: int| files[k].belongs_to(id),
        |k: int| files[k].listed() is Some && files[k].listed()->Some_0.0 == sessions[i].id@,
    );
    assert(sorts(sorted, all));
    assert forall|x: Listed| #[trigger]
        sorted.to_multiset().count(x) == all.to_multiset().count(x) by {
        lemma_count_numbered(sorted, x);
        lemma_count_numbered(all, x);
        assert(numbered(sorted, x.index) == numbered(all, x.index));
    }
    assert(sorted.to_multiset() =~= all.to_multiset());
    vstd::seq_lib::to_multiset_len(sorted);
    vstd::seq_lib::to_multiset_len(all);
    assert(listed_at(files, at) == all);
}

/// Every audio file is in the list, under one session only, and the sessions
/// stand with the last name first.
pub proof fn law_every_file_listed(
    sessions: Seq<TranscriptSession>,
    files: Seq<Found>,
    k: int,
)
    requires
        groups(sessions, files),
        0 <= k < files.len(),
        ends_in(files[k].name, ".wav"@) || ends_in(files[k].name, ".webm"@),
    ensures
        exists|i: int|
            0 <= i < sessions.len() && (#[trigger] sessions[i]).id@
                == files[k].listed()->Some_0.0 && all_listed(sessions[i].segments@).contains(
                files[k].listed()->Some_0.1,
            ),
        forall|i: int, j: int|
            #![trigger sessions[i], sessions[j]]
            0 <= i < j < sessions.len() ==> precedes(sessions[j].id@, sessions[i].id@)
                && sessions[i].id@ != sessions[j].id@,
{
    law_file_listed(files[k]);
    let (id, x) = files[k].listed()->Some_0;
    assert(files[k].listed() is Some);
    let i = choose|i: int| 0 <= i < sessions.len() && (#[trigger] sessions[i]).id@ == id;
    let sorted = all_listed(sessions[i].segments@);
    let all = segments_of(files, id);
    assert(sorts(sorted, all));
    let at = lemma_segments_picked(files, id);
    assert(files[k].belongs_to(id));
    let wanted = |k: int| files[k].belongs_to(id);
    assert(wanted(k));
    let j = choose|j: int| 0 <= j < at.len() && at[j] == k;
    assert(listed_at(files, at)[j] == x);
    assert(all[j] == x);
    lemma_count_numbered(sorted, x);
    lemma_count_numbered(all, x);
    assert(numbered(sorted, x.index) == numbered(all, x.index));
    vstd::seq_lib::to_multiset_contains(all, x);
    vstd::seq_lib::to_multiset_contains(sorted, x);
    assert(all.contains(x));
    assert(sorted.contains(x));
    assert forall|i: int, j: int|
        #![trigger sessions[i], sessions[j]]
        0 <= i < j < sessions.len() implies precedes(sessions[j].id@, sessions[i].id@)
        && sessions[i].id@ != sessions[j].id@ by {
        assert(precedes(sessions[j].id@, sessions[i].id@));
        lemma_precedes_irreflexive(sessions[i].id@);
    }
}

/// The text in a session is that of all its segments that have one, one below
/// the other in their order.
pub proof fn law_session_text(session: TranscriptSession)
    requires
        tells(session),
    ensures
        ({
            let segments = all_listed(session.segments@);
            exists|at: Seq<int>|
                #![trigger texts_at(segments, at)]
                picks(at, segments.len() as int, |k: int| segments[k].text is Some)
                    && session.total_text@ == joined(texts_at(segments, at), "\n"@)
        }),
{
    let segments = all_listed(session.segments@);
    let at = lemma_texts_picked(segments);
    assert(session.total_text@ == joined(texts_at(segments, at), "\n"@));
}

/// The texts of the segments at `at`.
pub open spec fn texts_at(segments: Seq<Listed>, at: Seq<int>) -> Seq<Seq<char>> {
    Seq::new(at.len(), |k: int| segments[at[k]].text->Some_0)
}

proof fn lemma_texts_picked(segments: Seq<Listed>) -> (at: Seq<int>)
    ensures
        picks(at, segments.len() as int, |k: int| segments[k].text is Some),
        shown_texts(segments) == texts_at(segments, at),
    decreases segments.len(),
{
    let wanted = |k: int| segments[k].text is Some;
    if segments.len() == 0 {
        let at = Seq::<int>::empty();
        assert(shown_texts(segments) =~= texts_at(segments, at));
        at
    } else {
        let rest = segments.drop_last();
        let n = rest.len() as int;
        let before = lemma_texts_picked(rest);
        lemma_picks_agree(before, n, |k: int| rest[k].text is Some, wanted);
        lemma_picks_next(before, n, wanted);
        let at = if wanted(n) {
            before.push(n)
        } else {
            before
        };
        assert(shown_texts(segments) =~= texts_at(segments, at)) by {
            assert forall|k: int| 0 <= k < before.len() implies #[trigger] before[k] < n && at[k]
                == before[k] by {}
        }
        at
    }
}

} // verus!
