//! The data: sessions, their audio segments, the utterances in them, and who speaks.
//!
//! A session is one recording. Its audio is cut into segments of about two
//! minutes, one file each, and the transcript of a segment is a list of
//! utterances. Numbers that are only stored and handed on (times and
//! confidence) have the type `R`, whichever the caller stores them in.

use vstd::prelude::*;

verus! {

/// One recording.
#[derive(Debug, Clone)]
pub struct Session {
    pub id: i64,
    /// The name of the session, such as `rec_1781628486100`: the file names of
    /// its segments start with it.
    pub slug: String,
    /// When the session was stored, in seconds since 1970.
    pub created_at: i64,
    /// A note of the operator.
    pub note: Option<String>,
}

/// What is given to create a session.
#[derive(Debug)]
pub struct NewSession {
    pub slug: String,
    pub note: Option<String>,
}

/// How far the transcription of a segment has come.
#[derive(Debug, Clone, Copy, PartialEq, Eq, Structural)]
pub enum TranscriptionStatus {
    /// The file is stored and nothing was done with it yet.
    Pending,
    /// The recogniser is working on it.
    Processing,
    /// The transcript is stored.
    Done,
    /// The transcription failed.
    Error,
}

/// One audio file of a session.
#[derive(Debug, Clone)]
pub struct Segment {
    pub id: i64,
    pub session_id: i64,
    /// The number of the segment in its session, from 1.
    pub index: u32,
    /// The name of the file, without a directory.
    pub filename: String,
    pub size_bytes: Option<u64>,
    /// When the file was written, in seconds since 1970.
    pub recorded_at: i64,
    pub transcription_status: TranscriptionStatus,
}

/// What is given to create a segment.
#[derive(Debug)]
pub struct NewSegment {
    pub session_id: i64,
    pub index: u32,
    pub filename: String,
    pub size_bytes: Option<u64>,
    pub recorded_at: i64,
}

/// Somebody who speaks in a session.
#[derive(Debug, Clone)]
pub struct Speaker {
    pub id: i64,
    pub session_id: i64,
    pub label: String,
    /// The colour in which the speaker is shown, such as `#4f8ef7`.
    pub color: Option<String>,
}

/// What is given to create a speaker.
#[derive(Debug)]
pub struct NewSpeaker {
    pub session_id: i64,
    pub label: String,
    pub color: Option<String>,
}

/// One utterance of a segment.
#[derive(Debug, Clone)]
pub struct Utterance<R> {
    pub id: i64,
    pub segment_id: i64,
    /// The number of the utterance in its segment, from 0.
    pub index: u32,
    /// Start and end, counted from the beginning of the segment.
    pub start_sec: R,
    pub end_sec: R,
    /// What the recogniser heard.
    pub text_thai: String,
    /// The translation, once there is one.
    pub text_ru: Option<String>,
    pub speaker_id: Option<i64>,
    /// How sure the recogniser is, if it says so.
    pub confidence: Option<R>,
}

/// What is given to create an utterance.
#[derive(Debug)]
pub struct NewUtterance<R> {
    pub segment_id: i64,
    pub index: u32,
    pub start_sec: R,
    pub end_sec: R,
    pub text_thai: String,
    pub speaker_id: Option<i64>,
    pub confidence: Option<R>,
}

/// A new translation, or none.
#[derive(Debug)]
pub struct UpdateTranslation {
    pub text_ru: Option<String>,
}

/// Who speaks an utterance, or nobody known.
#[derive(Debug)]
pub struct AssignSpeaker {
    pub speaker_id: Option<i64>,
}

/// An utterance with the label and the colour of its speaker.
#[derive(Debug)]
pub struct UtteranceWithSpeaker<R> {
    pub utterance: Utterance<R>,
    pub speaker_label: Option<String>,
    pub speaker_color: Option<String>,
}

/// A segment with its utterances.
#[derive(Debug)]
pub struct SegmentWithUtterances<R> {
    pub segment: Segment,
    pub utterances: Vec<UtteranceWithSpeaker<R>>,
}

/// A session with all that belongs to it.
#[derive(Debug)]
pub struct SessionDetail<R> {
    pub session: Session,
    pub segments: Vec<SegmentWithUtterances<R>>,
    pub speakers: Vec<Speaker>,
    /// What was heard in the whole session.
    pub total_text_thai: String,
    /// All translations of the session, if there is one.
    pub total_text_ru: Option<String>,
}

/// A session with what it holds counted.
#[derive(Debug)]
pub struct SessionSummary {
    pub id: i64,
    pub slug: String,
    pub created_at: i64,
    pub note: Option<String>,
    /// The segments of the session.
    pub segment_count: u32,
    /// Those of them whose transcript is stored.
    pub done_count: u32,
    /// The utterances of the session.
    pub utterance_count: u32,
    /// Those of them that have a translation.
    pub translated_count: u32,
}

impl TranscriptionStatus {
    /// The word by which the status is stored.
    pub open spec fn word(self) -> Seq<char> {
        match self {
            TranscriptionStatus::Pending => "pending"@,
            TranscriptionStatus::Processing => "processing"@,
            TranscriptionStatus::Done => "done"@,
            TranscriptionStatus::Error => "error"@,
        }
    }

    /// The status that a stored word stands for: pending, unless it is one of
    /// the three other words.
    pub open spec fn of_word(word: Seq<char>) -> TranscriptionStatus {
        if word == "processing"@ {
            TranscriptionStatus::Processing
        } else if word == "done"@ {
            TranscriptionStatus::Done
        } else if word == "error"@ {
            TranscriptionStatus::Error
        } else {
            TranscriptionStatus::Pending
        }
    }

    /// The word by which the status is stored.
    pub fn to_word(&self) -> (s: String)
        ensures
            s@ == self.word(),
    {
        match self {
            TranscriptionStatus::Pending => "pending".to_string(),
            TranscriptionStatus::Processing => "processing".to_string(),
            TranscriptionStatus::Done => "done".to_string(),
            TranscriptionStatus::Error => "error".to_string(),
        }
    }

    /// The status that a stored word stands for.
    pub fn from_word(word: &String) -> (r: TranscriptionStatus)
        ensures
            r == TranscriptionStatus::of_word(word@),
    {
        if *word == "processing".to_string() {
            TranscriptionStatus::Processing
        } else if *word == "done".to_string() {
            TranscriptionStatus::Done
        } else if *word == "error".to_string() {
            TranscriptionStatus::Error
        } else {
            TranscriptionStatus::Pending
        }
    }
}

/// A status is read back from the word by which it is stored.
pub proof fn law_status_word(status: TranscriptionStatus)
    ensures
        TranscriptionStatus::of_word(status.word()) == status,
{
    reveal_strlit("pending");
    reveal_strlit("processing");
    reveal_strlit("done");
    reveal_strlit("error");
    assert("pending"@[0] == 'p' && "pending"@.len() == 7);
    assert("processing"@.len() == 10);
    assert("done"@.len() == 4);
    assert("error"@.len() == 5);
}

/// The words by which the tables know the states of a transcription; any other
/// word stands for a segment on which nothing was done yet.
pub proof fn law_status_words(other: Seq<char>)
    ensures
        TranscriptionStatus::Pending.word() == "pending"@,
        TranscriptionStatus::Processing.word() == "processing"@,
        TranscriptionStatus::Done.word() == "done"@,
        TranscriptionStatus::Error.word() == "error"@,
        other != "processing"@ && other != "done"@ && other != "error"@
            ==> TranscriptionStatus::of_word(other) == TranscriptionStatus::Pending,
{
}

} // verus!
