//! What the application does with sessions, segments and utterances, and how
//! a recorded segment with its transcript gets into the database.

use vstd::prelude::*;

use crate::model::{
    AssignSpeaker, NewSegment, NewUtterance, TranscriptionStatus, UpdateTranslation,
};
use crate::names::{audio_name, FilenameError};
use crate::parse::{
    parse_whisper_txt, renders, transcript_says, Millis, Spoken, TranscriptError,
    WhisperUtterance,
};
use crate::repository::{
    assigning, creating_segment, deleting_session, finding_segment, getting_session,
    listing_summaries, setting_note, setting_status, showing_segment, showing_session, translating,
    Outcome, Repository, Step, Task,
};
use crate::store::{Reply, Request, StoreError};

pub use crate::names::parse_audio_filename;

verus! {

// ---------------------------------------------------------------------------
//  Sessions
// ---------------------------------------------------------------------------

/// Works with sessions.
#[derive(Debug, Clone, Copy)]
pub struct SessionService {
    pub repo: Repository,
}

impl SessionService {
    pub fn new(repo: Repository) -> (s: SessionService)
        ensures
            s.repo == repo,
    {
        SessionService { repo }
    }

    /// The session of that name; it is created where there is none.
    pub fn get_or_create_session<R>(&self, slug: &String, now: i64) -> (step: Step<R>)
        ensures
            step == getting_session::<R>(*slug, now),
    {
        self.repo.get_or_create_session(slug, now)
    }

    /// A session with all that belongs to it.
    pub fn get_session_detail<R>(&self, session_id: i64) -> (step: Step<R>)
        ensures
            step == showing_session::<R>(session_id),
    {
        self.repo.get_session_detail(session_id)
    }

    /// All sessions with what they hold counted.
    pub fn list_sessions_summary<R>(&self) -> (step: Step<R>)
        ensures
            step == listing_summaries::<R>(),
    {
        self.repo.list_sessions_summary()
    }

    /// Deletes a session and all that belongs to it.
    pub fn delete_session<R>(&self, session_id: i64) -> (step: Step<R>)
        ensures
            step == deleting_session::<R>(session_id),
    {
        self.repo.delete_session(session_id)
    }

    /// Sets or removes the note of the operator.
    pub fn update_note<R>(&self, session_id: i64, note: Option<String>) -> (step: Step<R>)
        ensures
            step == setting_note::<R>(session_id, note),
    {
        self.repo.update_session_note(session_id, note)
    }
}

// ---------------------------------------------------------------------------
//  Segments
// ---------------------------------------------------------------------------

/// Sets how far the transcription of a segment has come, and removes the message
/// of an earlier error.
pub open spec fn noting_progress<R>(id: i64, status: TranscriptionStatus) -> Step<R> {
    setting_status(id, status, None)
}

/// Notes that the transcription of a segment failed, and why.
pub open spec fn noting_failure<R>(id: i64, message: String) -> Step<R> {
    setting_status(id, TranscriptionStatus::Error, Some(message))
}

/// Works with segments.
#[derive(Debug, Clone, Copy)]
pub struct SegmentService {
    pub repo: Repository,
}

impl SegmentService {
    pub fn new(repo: Repository) -> (s: SegmentService)
        ensures
            s.repo == repo,
    {
        SegmentService { repo }
    }

    /// A segment with its utterances and their speakers.
    pub fn get_segment_with_utterances<R>(&self, segment_id: i64) -> (step: Step<R>)
        ensures
            step == showing_segment::<R>(segment_id),
    {
        self.repo.get_segment_with_utterances(segment_id)
    }

    /// The segment of that file, if it is in the database.
    pub fn get_segment_by_filename<R>(&self, filename: &String) -> (step: Step<R>)
        ensures
            step == finding_segment::<R>(*filename),
    {
        self.repo.get_segment_by_filename(filename)
    }

    /// Creates a segment.
    pub fn create_segment<R>(&self, data: &NewSegment) -> (step: Step<R>)
        ensures
            step == creating_segment::<R>(*data),
    {
        self.repo.create_segment(data)
    }

    /// Sets how far the transcription has come, and removes the message of an
    /// earlier error.
    pub fn set_status<R>(&self, segment_id: i64, status: TranscriptionStatus) -> (step: Step<R>)
        ensures
            step == noting_progress::<R>(segment_id, status),
    {
        self.repo.set_transcription_status(segment_id, status, None)
    }

    /// Notes that the transcription failed, and why.
    pub fn set_status_with_error<R>(&self, segment_id: i64, error_msg: String) -> (step: Step<R>)
        ensures
            step == noting_failure::<R>(segment_id, error_msg),
    {
        self.repo.set_transcription_status(
            segment_id,
            TranscriptionStatus::Error,
            Some(error_msg),
        )
    }
}

// ---------------------------------------------------------------------------
//  Utterances
// ---------------------------------------------------------------------------

/// Works with utterances.
#[derive(Debug, Clone, Copy)]
pub struct UtteranceService {
    pub repo: Repository,
}

impl UtteranceService {
    pub fn new(repo: Repository) -> (s: UtteranceService)
        ensures
            s.repo == repo,
    {
        UtteranceService { repo }
    }

    /// Sets or removes the translation of an utterance.
    pub fn update_translation<R>(&self, utterance_id: i64, text_ru: Option<String>) -> (step: Step<
        R,
    >)
        ensures
            step == translating::<R>(utterance_id, text_ru),
    {
        let data = UpdateTranslation { text_ru };
        self.repo.update_translation(utterance_id, &data)
    }

    /// Sets or removes the speaker of an utterance.
    pub fn assign_speaker<R>(&self, utterance_id: i64, speaker_id: Option<i64>) -> (step: Step<R>)
        ensures
            step == assigning::<R>(utterance_id, speaker_id),
    {
        let data = AssignSpeaker { speaker_id };
        self.repo.assign_speaker(utterance_id, &data)
    }
}

// ---------------------------------------------------------------------------
//  Ingestion
// ---------------------------------------------------------------------------

/// What became of a segment that was to be taken in.
#[derive(Debug, Clone)]
pub enum IngestResult {
    /// It is in the database now, with its utterances.
    Ingested { session_slug: String, segment_index: u32, segment_id: i64, utterance_count: usize },
    /// It was left alone.
    Skipped { reason: String, segment_id: i64 },
}

impl IngestResult {
    /// Whether the segment was left alone.
    pub fn is_skipped(&self) -> (b: bool)
        ensures
            b == (self is Skipped),
    {
        match self {
            IngestResult::Skipped { .. } => true,
            IngestResult::Ingested { .. } => false,
        }
    }

    /// The id of the segment.
    pub fn segment_id(&self) -> (id: i64)
        ensures
            id == match *self {
                IngestResult::Ingested { segment_id, .. } => segment_id,
                IngestResult::Skipped { segment_id, .. } => segment_id,
            },
    {
        match self {
            IngestResult::Ingested { segment_id, .. } => *segment_id,
            IngestResult::Skipped { segment_id, .. } => *segment_id,
        }
    }
}

/// Why a segment cannot be taken in.
#[derive(Debug)]
pub enum IngestError {
    /// The name of the file is not that of a segment.
    Filename(FilenameError),
    /// The database failed.
    Store(StoreError),
    /// There is no transcript.
    Transcript(TranscriptError),
}

impl IngestError {
    /// The message shown for the error on that file.
    pub open spec fn text(self, filename: Seq<char>) -> Seq<char> {
        match self {
            IngestError::Filename(e) => e.text(filename),
            IngestError::Store(e) => e.text(),
            IngestError::Transcript(e) => e.text(),
        }
    }

    /// The message shown for the error on that file.
    pub fn message(&self, filename: &str) -> (s: String)
        ensures
            s@ == self.text(filename@),
    {
        match self {
            IngestError::Filename(e) => e.message(filename),
            IngestError::Store(e) => e.message(),
            IngestError::Transcript(e) => e.message(),
        }
    }
}

/// A segment that is to be taken in.
#[derive(Debug)]
pub struct IngestJob {
    /// The name of the audio file.
    pub filename: String,
    /// The session and the segment number that the name gives.
    pub slug: String,
    pub index: u32,
    /// The path of the transcript.
    pub txt_path: String,
    /// The size of the audio file in bytes.
    pub size: u64,
    /// When the audio file was written.
    pub recorded_at: i64,
    /// The present time.
    pub now: i64,
}

/// How far the ingestion of a segment has come.
#[derive(Debug)]
pub enum Ingest {
    /// It is being looked up.
    Lookup { job: IngestJob },
    /// Its session is being looked up, or created.
    Session { job: IngestJob, task: Task<Millis> },
    /// It is being created.
    Segment { job: IngestJob, task: Task<Millis> },
    /// Its transcript is being read.
    Transcript { job: IngestJob, segment_id: i64 },
    /// It is being noted that there is no transcript.
    Failing { error: TranscriptError },
    /// Its utterances are being stored.
    Utterances { job: IngestJob, segment_id: i64, count: usize, task: Task<Millis> },
    /// It is being noted that the transcript is stored.
    Finishing { job: IngestJob, segment_id: i64, count: usize },
}

/// Where an ingestion stands.
#[derive(Debug)]
pub enum IngestStep {
    /// Ask this of the database, and go on with the answer.
    Ask { request: Request<Millis>, state: Ingest },
    /// Read the transcript, and go on with its text.
    ReadTranscript { state: Ingest },
    /// The ingestion is over.
    Finish(Result<IngestResult, IngestError>),
}

/// The utterances of a transcript as they are stored: numbered from 0, with no
/// speaker and no confidence.
pub open spec fn stored_as(
    v: Seq<NewUtterance<Millis>>,
    segment_id: i64,
    heard: Seq<WhisperUtterance>,
) -> bool {
    &&& v.len() == heard.len()
    &&& forall|i: int|
        0 <= i < v.len() ==> #[trigger] v[i] == (NewUtterance {
            segment_id,
            index: i as u32,
            start_sec: heard[i].start_ms,
            end_sec: heard[i].end_ms,
            text_thai: heard[i].text_thai,
            speaker_id: None,
            confidence: None,
        })
}

/// The utterances of a transcript as they are stored.
pub fn new_utterances(segment_id: i64, heard: Vec<WhisperUtterance>) -> (v: Vec<
    NewUtterance<Millis>,
>)
    ensures
        stored_as(v@, segment_id, heard@),
{
    let ghost all = heard@;
    let mut v: Vec<NewUtterance<Millis>> = Vec::new();
    for u in it: heard
        invariant
            it.seq() == all,
            v@.len() == it.index(),
            forall|i: int|
                0 <= i < v@.len() ==> #[trigger] v@[i] == (NewUtterance {
                    segment_id,
                    index: i as u32,
                    start_sec: all[i].start_ms,
                    end_sec: all[i].end_ms,
                    text_thai: all[i].text_thai,
                    speaker_id: None,
                    confidence: None,
                }),
    {
        let index: u32 = v.len() as u32;
        v.push(
            NewUtterance {
                segment_id,
                index,
                start_sec: u.start_ms,
                end_sec: u.end_ms,
                text_thai: u.text_thai,
                speaker_id: None,
                confidence: None,
            },
        );
    }
    v
}

/// The ingestion ends with an error of the database.
pub open spec fn store_failed(step: IngestStep, e: StoreError) -> bool {
    step == IngestStep::Finish(Err::<IngestResult, IngestError>(IngestError::Store(e)))
}

/// How the ingestion goes on from where its session stands: with the segment,
/// once there is a session.
pub open spec fn after_session(job: IngestJob, inner: Step<Millis>, step: IngestStep) -> bool {
    match inner {
        Step::Ask { request, task } => step == (IngestStep::Ask {
            request,
            state: Ingest::Session { job, task },
        }),
        Step::Finish(Ok(Outcome::Reply(Reply::Session(Some(session))))) => step == (
        IngestStep::Ask {
            request: Request::InsertSegment {
                segment: NewSegment {
                    session_id: session.id,
                    index: job.index,
                    filename: job.filename,
                    size_bytes: Some(job.size),
                    recorded_at: job.recorded_at,
                },
            },
            state: Ingest::Segment { job, task: Task::ReadSegment },
        }),
        Step::Finish(Ok(_)) => store_failed(step, StoreError::Unexpected),
        Step::Finish(Err(e)) => store_failed(step, e),
    }
}

/// How the ingestion goes on from where its segment stands: with the
/// transcript, once there is a segment.
pub open spec fn after_segment(job: IngestJob, inner: Step<Millis>, step: IngestStep) -> bool {
    match inner {
        Step::Ask { request, task } => step == (IngestStep::Ask {
            request,
            state: Ingest::Segment { job, task },
        }),
        Step::Finish(Ok(Outcome::Reply(Reply::Segment(Some(segment))))) => step == (
        IngestStep::ReadTranscript { state: Ingest::Transcript { job, segment_id: segment.id } }),
        Step::Finish(Ok(_)) => store_failed(step, StoreError::Unexpected),
        Step::Finish(Err(e)) => store_failed(step, e),
    }
}

/// How the ingestion goes on from where its utterances stand: it is noted that
/// the transcript is stored, once they are.
pub open spec fn after_utterances(
    job: IngestJob,
    segment_id: i64,
    count: usize,
    inner: Step<Millis>,
    step: IngestStep,
) -> bool {
    match inner {
        Step::Ask { request, task } => step == (IngestStep::Ask {
            request,
            state: Ingest::Utterances { job, segment_id, count, task },
        }),
        Step::Finish(Ok(_)) => step == (IngestStep::Ask {
            request: Request::<Millis>::SetSegmentStatus {
                id: segment_id,
                status: TranscriptionStatus::Done,
                error_message: None,
            },
            state: Ingest::Finishing { job, segment_id, count },
        }),
        Step::Finish(Err(e)) => store_failed(step, e),
    }
}

impl Ingest {
    /// The answer of the database leads from here to `step`.
    pub open spec fn leads(
        self,
        reply: Result<Reply<Millis>, StoreError>,
        step: IngestStep,
    ) -> bool {
        match self {
            Ingest::Lookup { job } => match reply {
                Err(e) => store_failed(step, e),
                Ok(Reply::Segment(Some(existing))) => {
                    &&& step matches IngestStep::Finish(
                        Ok(IngestResult::Skipped { reason, segment_id }),
                    )
                    &&& reason@ == "Сегмент уже в БД"@
                    &&& segment_id == existing.id
                },
                Ok(Reply::Segment(None)) => step == (IngestStep::Ask {
                    request: Request::<Millis>::SessionBySlug { slug: job.slug },
                    state: Ingest::Session {
                        job,
                        task: Task::CreateIfAbsent { slug: job.slug, now: job.now },
                    },
                }),
                Ok(_) => store_failed(step, StoreError::Unexpected),
            },
            Ingest::Session { job, task } => exists|inner: Step<Millis>| #[trigger]
                task.leads(reply, inner) && after_session(job, inner, step),
            Ingest::Segment { job, task } => exists|inner: Step<Millis>| #[trigger]
                task.leads(reply, inner) && after_segment(job, inner, step),
            Ingest::Transcript { .. } => store_failed(step, StoreError::Unexpected),
            Ingest::Failing { error } => match reply {
                Err(e) => store_failed(step, e),
                Ok(_) => step == IngestStep::Finish(
                    Err::<IngestResult, IngestError>(IngestError::Transcript(error)),
                ),
            },
            Ingest::Utterances { job, segment_id, count, task } => exists|inner: Step<Millis>|
             #[trigger]
                task.leads(reply, inner) && after_utterances(job, segment_id, count, inner, step),
            Ingest::Finishing { job, segment_id, count } => match reply {
                Err(e) => store_failed(step, e),
                Ok(_) => step == IngestStep::Finish(
                    Ok::<IngestResult, IngestError>(
                        IngestResult::Ingested {
                            session_slug: job.slug,
                            segment_index: job.index,
                            segment_id,
                            utterance_count: count,
                        },
                    ),
                ),
            },
        }
    }

    /// Goes on with the answer of the database.
    pub fn resume(self, reply: Result<Reply<Millis>, StoreError>) -> (step: IngestStep)
        ensures
            self.leads(reply, step),
    {
        match self {
            Ingest::Lookup { job } => match reply {
                Err(e) => IngestStep::Finish(Err(IngestError::Store(e))),
                Ok(Reply::Segment(Some(existing))) => IngestStep::Finish(
                    Ok(
                        IngestResult::Skipped {
                            reason: "Сегмент уже в БД".to_string(),
                            segment_id: existing.id,
                        },
                    ),
                ),
                Ok(Reply::Segment(None)) => {
                    let request = Request::SessionBySlug { slug: job.slug.clone() };
                    let task = Task::CreateIfAbsent { slug: job.slug.clone(), now: job.now };
                    IngestStep::Ask { request, state: Ingest::Session { job, task } }
                },
                Ok(_) => IngestStep::Finish(Err(IngestError::Store(StoreError::Unexpected))),
            },
            Ingest::Session { job, task } => {
                let inner = task.resume(reply);
                let ghost was = inner;
                assert(task.leads(reply, was));
                match inner {
                    Step::Ask { request, task } => IngestStep::Ask {
                        request,
                        state: Ingest::Session { job, task },
                    },
                    Step::Finish(Ok(Outcome::Reply(Reply::Session(Some(session))))) => {
                        let segment = NewSegment {
                            session_id: session.id,
                            index: job.index,
                            filename: job.filename.clone(),
                            size_bytes: Some(job.size),
                            recorded_at: job.recorded_at,
                        };
                        let step = IngestStep::Ask {
                            request: Request::InsertSegment { segment },
                            state: Ingest::Segment { job, task: Task::ReadSegment },
                        };
                        assert(after_session(job, was, step));
                        step
                    },
                    Step::Finish(Ok(_)) => IngestStep::Finish(
                        Err(IngestError::Store(StoreError::Unexpected)),
                    ),
                    Step::Finish(Err(e)) => IngestStep::Finish(Err(IngestError::Store(e))),
                }
            },
            Ingest::Segment { job, task } => {
                let inner = task.resume(reply);
                let ghost was = inner;
                assert(task.leads(reply, was));
                match inner {
                    Step::Ask { request, task } => IngestStep::Ask {
                        request,
                        state: Ingest::Segment { job, task },
                    },
                    Step::Finish(Ok(Outcome::Reply(Reply::Segment(Some(segment))))) =>
                        IngestStep::ReadTranscript {
                        state: Ingest::Transcript { job, segment_id: segment.id },
                    },
                    Step::Finish(Ok(_)) => IngestStep::Finish(
                        Err(IngestError::Store(StoreError::Unexpected)),
                    ),
                    Step::Finish(Err(e)) => IngestStep::Finish(Err(IngestError::Store(e))),
                }
            },
            Ingest::Transcript { .. } => IngestStep::Finish(
                Err(IngestError::Store(StoreError::Unexpected)),
            ),
            Ingest::Failing { error } => match reply {
                Err(e) => IngestStep::Finish(Err(IngestError::Store(e))),
                Ok(_) => IngestStep::Finish(Err(IngestError::Transcript(error))),
            },
            Ingest::Utterances { job, segment_id, count, task } => {
                let inner = task.resume(reply);
                let ghost was = inner;
                assert(task.leads(reply, was));
                match inner {
                    Step::Ask { request, task } => IngestStep::Ask {
                        request,
                        state: Ingest::Utterances { job, segment_id, count, task },
                    },
                    Step::Finish(Ok(_)) => IngestStep::Ask {
                        request: Request::SetSegmentStatus {
                            id: segment_id,
                            status: TranscriptionStatus::Done,
                            error_message: None,
                        },
                        state: Ingest::Finishing { job, segment_id, count },
                    },
                    Step::Finish(Err(e)) => IngestStep::Finish(Err(IngestError::Store(e))),
                }
            },
            Ingest::Finishing { job, segment_id, count } => match reply {
                Err(e) => IngestStep::Finish(Err(IngestError::Store(e))),
                Ok(_) => IngestStep::Finish(
                    Ok(
                        IngestResult::Ingested {
                            session_slug: job.slug,
                            segment_index: job.index,
                            segment_id,
                            utterance_count: count,
                        },
                    ),
                ),
            },
        }
    }

    /// The text of the transcript leads from here to `step`: its utterances
    /// are stored in the place of those of the segment, or it is noted why
    /// there are none.
    pub open spec fn told(self, content: Option<String>, step: IngestStep) -> bool {
        match self {
            Ingest::Transcript { job, segment_id } => match transcript_says(
                job.txt_path,
                content,
            ) {
                Ok(spoken) => stores(job, segment_id, spoken, step),
                Err(e) => notes_error(segment_id, e, step),
            },
            _ => store_failed(step, StoreError::Unexpected),
        }
    }

    /// Goes on with the text of the transcript, where it can be read.
    pub fn transcript(self, content: Option<String>) -> (step: IngestStep)
        ensures
            self.told(content, step),
    {
        match self {
            Ingest::Transcript { job, segment_id } => match parse_whisper_txt(
                job.txt_path.clone(),
                content,
            ) {
                Ok(heard) => {
                    let count: usize = heard.len();
                    let ghost all = heard@;
                    let pending = new_utterances(segment_id, heard);
                    proof {
                        let spoken = transcript_says(job.txt_path, content)->Ok_0;
                        assert(renders(all, spoken));
                        assert(stores_as(pending@, segment_id, spoken));
                    }
                    IngestStep::Ask {
                        request: Request::Begin,
                        state: Ingest::Utterances {
                            job,
                            segment_id,
                            count,
                            task: Task::ReplaceBegun { segment_id, pending },
                        },
                    }
                },
                Err(e) => note_error(segment_id, e),
            },
            _ => IngestStep::Finish(Err(IngestError::Store(StoreError::Unexpected))),
        }
    }
}

/// The utterances `v` are those that `spoken` describes, as they are stored.
pub open spec fn stores_as(
    v: Seq<NewUtterance<Millis>>,
    segment_id: i64,
    spoken: Seq<Spoken>,
) -> bool {
    exists|heard: Seq<WhisperUtterance>| #[trigger]
        renders(heard, spoken) && stored_as(v, segment_id, heard)
}

/// The step that puts the utterances in the place of those of the segment.
pub open spec fn stores(
    job: IngestJob,
    segment_id: i64,
    spoken: Seq<Spoken>,
    step: IngestStep,
) -> bool {
    match step {
        IngestStep::Ask {
            request: Request::Begin,
            state: Ingest::Utterances {
                job: kept,
                segment_id: at,
                count,
                task: Task::ReplaceBegun { segment_id: cleared, pending },
            },
        } => {
            &&& kept == job
            &&& at == segment_id
            &&& cleared == segment_id
            &&& count == spoken.len()
            &&& stores_as(pending@, segment_id, spoken)
        },
        _ => false,
    }
}

/// The step that notes why there is no transcript.
pub open spec fn notes_error(segment_id: i64, error: TranscriptError, step: IngestStep) -> bool {
    match step {
        IngestStep::Ask {
            request: Request::SetSegmentStatus { id, status, error_message: Some(message) },
            state: Ingest::Failing { error: kept },
        } => {
            &&& id == segment_id
            &&& status == TranscriptionStatus::Error
            &&& message@ == "Ошибка парсинга txt: "@ + error.text()
            &&& kept == error
        },
        _ => false,
    }
}

fn note_error(segment_id: i64, error: TranscriptError) -> (step: IngestStep)
    ensures
        notes_error(segment_id, error, step),
{
    let reason = error.message();
    let message = "Ошибка парсинга txt: ".to_string().concat(reason.as_str());
    IngestStep::Ask {
        request: Request::SetSegmentStatus {
            id: segment_id,
            status: TranscriptionStatus::Error,
            error_message: Some(message),
        },
        state: Ingest::Failing { error },
    }
}

/// The first step of the ingestion of an audio file: a name that is not that of
/// a segment is refused; otherwise the segment is looked up.
pub open spec fn starts_ingestion(
    filename: String,
    txt_path: String,
    size: u64,
    recorded_at: i64,
    now: i64,
    step: IngestStep,
) -> bool {
    match audio_name(filename@) {
        Err(e) => step == IngestStep::Finish(
            Err::<IngestResult, IngestError>(IngestError::Filename(e)),
        ),
        Ok((slug, index)) => {
            &&& step matches IngestStep::Ask { request, state: Ingest::Lookup { job } }
            &&& request == (Request::<Millis>::SegmentByFilename { filename })
            &&& job.filename == filename
            &&& job.slug@ == slug
            &&& job.index == index
            &&& job.txt_path == txt_path
            &&& job.size == size
            &&& job.recorded_at == recorded_at
            &&& job.now == now
        },
    }
}

/// Takes segments in.
#[derive(Debug, Clone, Copy)]
pub struct IngestService {
    pub repo: Repository,
}

impl IngestService {
    pub fn new(repo: Repository) -> (s: IngestService)
        ensures
            s.repo == repo,
    {
        IngestService { repo }
    }

    /// Takes in the audio file with its transcript. A name that is not that of
    /// a segment is refused; otherwise the segment is looked up first.
    pub fn ingest_audio_with_transcript(
        &self,
        audio_filename: String,
        txt_path: String,
        audio_size: u64,
        recorded_at: i64,
        now: i64,
    ) -> (step: IngestStep)
        ensures
            starts_ingestion(audio_filename, txt_path, audio_size, recorded_at, now, step),
    {
        match parse_audio_filename(audio_filename.as_str()) {
            Err(e) => IngestStep::Finish(Err(IngestError::Filename(e))),
            Ok((slug, index)) => {
                let filename = audio_filename.clone();
                let job = IngestJob {
                    filename: audio_filename,
                    slug,
                    index,
                    txt_path,
                    size: audio_size,
                    recorded_at,
                    now,
                };
                IngestStep::Ask {
                    request: Request::SegmentByFilename { filename },
                    state: Ingest::Lookup { job },
                }
            },
        }
    }
}

} // verus!
