//! What a database holds that carries out each request as its statement says,
//! and what such a database answers.
//!
//! The laws about the operations are stated against this model.

use vstd::prelude::*;

use crate::model::{
    NewSegment, NewSpeaker, NewUtterance, Segment, Session, SessionSummary, Speaker,
    TranscriptionStatus, Utterance, UtteranceWithSpeaker,
};
use crate::store::{Reply, Request};
use crate::text::chars;

verus! {

// ---------------------------------------------------------------------------
//  Rows
// ---------------------------------------------------------------------------

/// A row of the table `sessions`.
pub ghost struct SessionRow {
    pub slug: Seq<char>,
    pub created_at: i64,
    pub note: Option<Seq<char>>,
}

/// A row of the table `segments`.
pub ghost struct SegmentRow {
    pub session_id: i64,
    pub index: u32,
    pub filename: Seq<char>,
    pub size_bytes: Option<u64>,
    pub recorded_at: i64,
    pub status: TranscriptionStatus,
    pub error_message: Option<Seq<char>>,
}

/// A row of the table `speakers`.
pub ghost struct SpeakerRow {
    pub session_id: i64,
    pub label: Seq<char>,
    pub color: Option<Seq<char>>,
}

/// A row of the table `utterances`.
pub ghost struct UtteranceRow<R> {
    pub segment_id: i64,
    pub index: u32,
    pub start_sec: R,
    pub end_sec: R,
    pub text_thai: Seq<char>,
    pub text_ru: Option<Seq<char>>,
    pub speaker_id: Option<i64>,
    pub confidence: Option<R>,
}

/// All tables, each by the ids of its rows.
pub ghost struct Tables<R> {
    pub sessions: Map<i64, SessionRow>,
    pub segments: Map<i64, SegmentRow>,
    pub speakers: Map<i64, SpeakerRow>,
    pub utterances: Map<i64, UtteranceRow<R>>,
}

/// The row of a new segment.
pub open spec fn new_segment_row(s: NewSegment) -> SegmentRow {
    SegmentRow {
        session_id: s.session_id,
        index: s.index,
        filename: s.filename@,
        size_bytes: s.size_bytes,
        recorded_at: s.recorded_at,
        status: TranscriptionStatus::Pending,
        error_message: None,
    }
}

/// The row of a new speaker.
pub open spec fn new_speaker_row(s: NewSpeaker) -> SpeakerRow {
    SpeakerRow { session_id: s.session_id, label: s.label@, color: chars(s.color) }
}

/// The row of a new utterance.
pub open spec fn new_utterance_row<R>(u: NewUtterance<R>) -> UtteranceRow<R> {
    UtteranceRow {
        segment_id: u.segment_id,
        index: u.index,
        start_sec: u.start_sec,
        end_sec: u.end_sec,
        text_thai: u.text_thai@,
        text_ru: None,
        speaker_id: u.speaker_id,
        confidence: u.confidence,
    }
}

/// The session is what the row says.
pub open spec fn session_shows(s: Session, row: SessionRow) -> bool {
    s.slug@ == row.slug && s.created_at == row.created_at && chars(s.note) == row.note
}

/// The segment is what the row says.
pub open spec fn segment_shows(s: Segment, row: SegmentRow) -> bool {
    &&& s.session_id == row.session_id
    &&& s.index == row.index
    &&& s.filename@ == row.filename
    &&& s.size_bytes == row.size_bytes
    &&& s.recorded_at == row.recorded_at
    &&& s.transcription_status == row.status
}

/// The speaker is what the row says.
pub open spec fn speaker_shows(s: Speaker, row: SpeakerRow) -> bool {
    s.session_id == row.session_id && s.label@ == row.label && chars(s.color) == row.color
}

/// The utterance is what the row says.
pub open spec fn utterance_shows<R>(u: Utterance<R>, row: UtteranceRow<R>) -> bool {
    &&& u.segment_id == row.segment_id
    &&& u.index == row.index
    &&& u.start_sec == row.start_sec
    &&& u.end_sec == row.end_sec
    &&& u.text_thai@ == row.text_thai
    &&& chars(u.text_ru) == row.text_ru
    &&& u.speaker_id == row.speaker_id
    &&& u.confidence == row.confidence
}

// ---------------------------------------------------------------------------
//  Tables
// ---------------------------------------------------------------------------

/// The ids of the wanted rows, each once, in the order of their ranks.
pub open spec fn selects(
    ids: Seq<i64>,
    wanted: spec_fn(i64) -> bool,
    rank: spec_fn(i64) -> int,
) -> bool {
    &&& ids.no_duplicates()
    &&& forall|i: int| 0 <= i < ids.len() ==> wanted(#[trigger] ids[i])
    &&& forall|k: i64| #[trigger] wanted(k) ==> ids.contains(k)
    &&& forall|i: int, j: int| 0 <= i <= j < ids.len() ==> rank(ids[i]) <= rank(ids[j])
}

impl<R> Tables<R> {
    /// Each table holds finitely many rows. No two sessions have one name, no
    /// two segments one file or, in one session, one number, no two utterances
    /// of one segment one number, and what a row refers to is there.
    pub open spec fn valid(self) -> bool {
        &&& self.sessions.dom().finite()
        &&& self.segments.dom().finite()
        &&& self.speakers.dom().finite()
        &&& self.utterances.dom().finite()
        &&& forall|a: i64, b: i64|
            self.sessions.contains_key(a) && self.sessions.contains_key(b)
                && #[trigger] self.sessions[a].slug == #[trigger] self.sessions[b].slug ==> a == b
        &&& forall|a: i64, b: i64|
            self.segments.contains_key(a) && self.segments.contains_key(b)
                && #[trigger] self.segments[a].filename == #[trigger] self.segments[b].filename
                ==> a == b
        &&& forall|a: i64, b: i64|
            self.segments.contains_key(a) && self.segments.contains_key(b)
                && #[trigger] self.segments[a].index == #[trigger] self.segments[b].index
                && self.segments[a].session_id == self.segments[b].session_id ==> a == b
        &&& forall|a: i64|
            self.segments.contains_key(a) ==> self.sessions.contains_key(
                #[trigger] self.segments[a].session_id,
            )
        &&& forall|a: i64|
            self.speakers.contains_key(a) ==> self.sessions.contains_key(
                #[trigger] self.speakers[a].session_id,
            )
        &&& forall|a: i64, b: i64|
            self.utterances.contains_key(a) && self.utterances.contains_key(b)
                && #[trigger] self.utterances[a].index == #[trigger] self.utterances[b].index
                && self.utterances[a].segment_id == self.utterances[b].segment_id ==> a == b
        &&& forall|a: i64|
            self.utterances.contains_key(a) ==> self.segments.contains_key(
                #[trigger] self.utterances[a].segment_id,
            )
        &&& forall|a: i64|
            self.utterances.contains_key(a) ==> (#[trigger] self.utterances[a].speaker_id matches
                Some(k) ==> self.speakers.contains_key(k))
    }

    /// There is a session of that name.
    pub open spec fn names_session(self, slug: Seq<char>) -> bool {
        exists|k: i64| self.sessions.contains_key(k) && #[trigger] self.sessions[k].slug == slug
    }

    /// There is a segment of that file.
    pub open spec fn names_segment(self, filename: Seq<char>) -> bool {
        exists|k: i64|
            self.segments.contains_key(k) && #[trigger] self.segments[k].filename == filename
    }

    /// The session of a segment.
    pub open spec fn session_of(self, segment_id: i64) -> i64 {
        self.segments[segment_id].session_id
    }

    /// Without the session, its segments, their utterances and its speakers;
    /// utterances that one of these speakers spoke have none afterwards.
    pub open spec fn without_session(self, id: i64) -> Tables<R> {
        let keeps = |speaker: i64| self.speakers[speaker].session_id != id;
        Tables {
            sessions: self.sessions.remove(id),
            segments: Map::new(
                |k: i64| self.segments.contains_key(k) && self.segments[k].session_id != id,
                |k: i64| self.segments[k],
            ),
            speakers: Map::new(
                |k: i64| self.speakers.contains_key(k) && keeps(k),
                |k: i64| self.speakers[k],
            ),
            utterances: Map::new(
                |k: i64|
                    self.utterances.contains_key(k) && self.session_of(
                        self.utterances[k].segment_id,
                    ) != id,
                |k: i64| unspoken(self.utterances[k], |s: i64| !keeps(s)),
            ),
        }
    }

    /// Without the speaker; the utterances of the speaker have none afterwards.
    pub open spec fn without_speaker(self, id: i64) -> Tables<R> {
        Tables {
            speakers: self.speakers.remove(id),
            utterances: self.utterances.map_values(
                |u: UtteranceRow<R>| unspoken(u, |s: i64| s == id),
            ),
            ..self
        }
    }

    /// Without the utterances of the segment.
    pub open spec fn without_utterances(self, segment_id: i64) -> Tables<R> {
        Tables {
            utterances: Map::new(
                |k: i64|
                    self.utterances.contains_key(k) && self.utterances[k].segment_id != segment_id,
                |k: i64| self.utterances[k],
            ),
            ..self
        }
    }

    /// The utterance with the label and the colour of its speaker is what the
    /// rows say.
    pub open spec fn spoken_shows(self, u: UtteranceWithSpeaker<R>) -> bool {
        let row = self.utterances[u.utterance.id];
        &&& utterance_shows(u.utterance, row)
        &&& match row.speaker_id {
            Some(k) => self.speakers.contains_key(k) && chars(u.speaker_label) == Some(
                self.speakers[k].label,
            ) && chars(u.speaker_color) == self.speakers[k].color,
            None => u.speaker_label is None && u.speaker_color is None,
        }
    }

    /// The summary counts what belongs to the session.
    pub open spec fn summary_shows(self, s: SessionSummary) -> bool {
        let row = self.sessions[s.id];
        let segments = self.segments.dom().filter(|k: i64| self.segments[k].session_id == s.id);
        let utterances = self.utterances.dom().filter(
            |k: i64| self.session_of(self.utterances[k].segment_id) == s.id,
        );
        &&& s.slug@ == row.slug
        &&& s.created_at == row.created_at
        &&& chars(s.note) == row.note
        &&& s.segment_count == segments.len() as u32
        &&& s.done_count == segments.filter(
            |k: i64| self.segments[k].status == TranscriptionStatus::Done,
        ).len() as u32
        &&& s.utterance_count == utterances.len() as u32
        &&& s.translated_count == utterances.filter(
            |k: i64| self.utterances[k].text_ru is Some,
        ).len() as u32
    }

    /// The tables with the row of a new session.
    pub open spec fn with_session(self, id: i64, row: SessionRow) -> Tables<R> {
        Tables { sessions: self.sessions.insert(id, row), ..self }
    }

    /// The tables with that row of a segment.
    pub open spec fn with_segment(self, id: i64, row: SegmentRow) -> Tables<R> {
        Tables { segments: self.segments.insert(id, row), ..self }
    }

    /// The tables with that row of a speaker.
    pub open spec fn with_speaker(self, id: i64, row: SpeakerRow) -> Tables<R> {
        Tables { speakers: self.speakers.insert(id, row), ..self }
    }

    /// The tables with that row of an utterance.
    pub open spec fn with_utterance(self, id: i64, row: UtteranceRow<R>) -> Tables<R> {
        Tables { utterances: self.utterances.insert(id, row), ..self }
    }
}

/// The utterance without its speaker, if `gone` says so of the speaker.
pub open spec fn unspoken<R>(u: UtteranceRow<R>, gone: spec_fn(i64) -> bool) -> UtteranceRow<R> {
    match u.speaker_id {
        Some(k) => if gone(k) {
            UtteranceRow { speaker_id: None, ..u }
        } else {
            u
        },
        None => u,
    }
}

// ---------------------------------------------------------------------------
//  Requests
// ---------------------------------------------------------------------------

impl<R> Tables<R> {
    /// The request is carried out with that answer, and `after` is what the
    /// tables hold then. A statement that a constraint forbids is not carried
    /// out.
    #[verifier::opaque]
    pub open spec fn carries_out(
        self,
        request: Request<R>,
        reply: Reply<R>,
        after: Tables<R>,
    ) -> bool {
        match request {
            Request::Migrate | Request::Begin | Request::Commit => reply is Done && after == self,
            // Sessions.
            Request::InsertSession { slug, created_at, note } => {
                &&& reply is Done
                &&& if self.names_session(slug@) {
                    after == self
                } else {
                    exists|id: i64|
                        !self.sessions.contains_key(id) && after == #[trigger] self.with_session(
                            id,
                            SessionRow { slug: slug@, created_at, note: chars(note) },
                        )
                }
            },
            Request::SessionById { id } => after == self && match reply {
                Reply::Session(Some(s)) => s.id == id && self.sessions.contains_key(id)
                    && session_shows(s, self.sessions[id]),
                Reply::Session(None) => !self.sessions.contains_key(id),
                _ => false,
            },
            Request::SessionBySlug { slug } => after == self && match reply {
                Reply::Session(Some(s)) => s.slug@ == slug@ && self.sessions.contains_key(s.id)
                    && session_shows(s, self.sessions[s.id]),
                Reply::Session(None) => !self.names_session(slug@),
                _ => false,
            },
            Request::Sessions => after == self && match reply {
                Reply::Sessions(v) => {
                    &&& selects(
                        v@.map_values(|s: Session| s.id),
                        |k: i64| self.sessions.contains_key(k),
                        |k: i64| -self.sessions[k].created_at,
                    )
                    &&& forall|i: int|
                        0 <= i < v@.len() ==> session_shows(
                            #[trigger] v@[i],
                            self.sessions[v@[i].id],
                        )
                },
                _ => false,
            },
            Request::SetSessionNote { id, note } => reply is Done && after
                == if self.sessions.contains_key(id) {
                self.with_session(id, SessionRow { note: chars(note), ..self.sessions[id] })
            } else {
                self
            },
            Request::DeleteSession { id } => reply is Done && after == self.without_session(id),
            Request::Summaries => after == self && match reply {
                Reply::Summaries(v) => {
                    &&& selects(
                        v@.map_values(|s: SessionSummary| s.id),
                        |k: i64| self.sessions.contains_key(k),
                        |k: i64| -self.sessions[k].created_at,
                    )
                    &&& forall|i: int| 0 <= i < v@.len() ==> self.summary_shows(#[trigger] v@[i])
                },
                _ => false,
            },
            // Segments.
            Request::InsertSegment { segment } => match reply {
                Reply::Id(id) => {
                    &&& !self.segments.contains_key(id)
                    &&& self.sessions.contains_key(segment.session_id)
                    &&& !self.names_segment(segment.filename@)
                    &&& forall|k: i64|
                        self.segments.contains_key(k) ==> !(
                        #[trigger] self.segments[k].session_id == segment.session_id
                            && self.segments[k].index == segment.index)
                    &&& after == self.with_segment(id, new_segment_row(segment))
                },
                _ => false,
            },
            Request::SegmentById { id } => after == self && match reply {
                Reply::Segment(Some(s)) => s.id == id && self.segments.contains_key(id)
                    && segment_shows(s, self.segments[id]),
                Reply::Segment(None) => !self.segments.contains_key(id),
                _ => false,
            },
            Request::SegmentByFilename { filename } => after == self && match reply {
                Reply::Segment(Some(s)) => s.filename@ == filename@ && self.segments.contains_key(
                    s.id,
                ) && segment_shows(s, self.segments[s.id]),
                Reply::Segment(None) => !self.names_segment(filename@),
                _ => false,
            },
            Request::SegmentsOfSession { session_id } => after == self && match reply {
                Reply::Segments(v) => {
                    &&& selects(
                        v@.map_values(|s: Segment| s.id),
                        |k: i64|
                            self.segments.contains_key(k) && self.segments[k].session_id
                                == session_id,
                        |k: i64| self.segments[k].index as int,
                    )
                    &&& forall|i: int|
                        0 <= i < v@.len() ==> segment_shows(
                            #[trigger] v@[i],
                            self.segments[v@[i].id],
                        )
                },
                _ => false,
            },
            Request::PendingSegments => after == self && match reply {
                Reply::Segments(v) => {
                    &&& selects(
                        v@.map_values(|s: Segment| s.id),
                        |k: i64|
                            self.segments.contains_key(k) && self.segments[k].status
                                == TranscriptionStatus::Pending,
                        |k: i64| self.segments[k].recorded_at as int,
                    )
                    &&& forall|i: int|
                        0 <= i < v@.len() ==> segment_shows(
                            #[trigger] v@[i],
                            self.segments[v@[i].id],
                        )
                },
                _ => false,
            },
            Request::SetSegmentStatus { id, status, error_message } => reply is Done && after
                == if self.segments.contains_key(id) {
                self.with_segment(
                    id,
                    SegmentRow {
                        status,
                        error_message: chars(error_message),
                        ..self.segments[id]
                    },
                )
            } else {
                self
            },
            // Speakers.
            Request::InsertSpeaker { speaker } => match reply {
                Reply::Id(id) => {
                    &&& !self.speakers.contains_key(id)
                    &&& self.sessions.contains_key(speaker.session_id)
                    &&& after == self.with_speaker(id, new_speaker_row(speaker))
                },
                _ => false,
            },
            Request::SpeakerById { id } => after == self && match reply {
                Reply::Speaker(Some(s)) => s.id == id && self.speakers.contains_key(id)
                    && speaker_shows(s, self.speakers[id]),
                Reply::Speaker(None) => !self.speakers.contains_key(id),
                _ => false,
            },
            Request::SpeakersOfSession { session_id } => after == self && match reply {
                Reply::Speakers(v) => {
                    &&& selects(
                        v@.map_values(|s: Speaker| s.id),
                        |k: i64|
                            self.speakers.contains_key(k) && self.speakers[k].session_id
                                == session_id,
                        |k: i64| k as int,
                    )
                    &&& forall|i: int|
                        0 <= i < v@.len() ==> speaker_shows(
                            #[trigger] v@[i],
                            self.speakers[v@[i].id],
                        )
                },
                _ => false,
            },
            Request::SetSpeakerLabel { id, label } => reply is Done && after
                == if self.speakers.contains_key(id) {
                self.with_speaker(id, SpeakerRow { label: label@, ..self.speakers[id] })
            } else {
                self
            },
            Request::SetSpeakerColor { id, color } => reply is Done && after
                == if self.speakers.contains_key(id) {
                self.with_speaker(id, SpeakerRow { color: chars(color), ..self.speakers[id] })
            } else {
                self
            },
            Request::DeleteSpeaker { id } => reply is Done && after == self.without_speaker(id),
            // Utterances.
            Request::InsertUtterance { utterance } => match reply {
                Reply::Id(id) => {
                    &&& !self.utterances.contains_key(id)
                    &&& self.segments.contains_key(utterance.segment_id)
                    &&& utterance.speaker_id matches Some(k) ==> self.speakers.contains_key(k)
                    &&& forall|k: i64|
                        self.utterances.contains_key(k) ==> !(
                        #[trigger] self.utterances[k].segment_id == utterance.segment_id
                            && self.utterances[k].index == utterance.index)
                    &&& after == self.with_utterance(id, new_utterance_row(utterance))
                },
                _ => false,
            },
            Request::DeleteUtterances { segment_id } => reply is Done && after
                == self.without_utterances(segment_id),
            Request::UtteranceById { id } => after == self && match reply {
                Reply::Utterance(Some(u)) => u.id == id && self.utterances.contains_key(id)
                    && utterance_shows(u, self.utterances[id]),
                Reply::Utterance(None) => !self.utterances.contains_key(id),
                _ => false,
            },
            Request::UtterancesOfSegment { segment_id } => after == self && match reply {
                Reply::Utterances(v) => {
                    &&& selects(
                        v@.map_values(|u: Utterance<R>| u.id),
                        |k: i64|
                            self.utterances.contains_key(k) && self.utterances[k].segment_id
                                == segment_id,
                        |k: i64| self.utterances[k].index as int,
                    )
                    &&& forall|i: int|
                        0 <= i < v@.len() ==> utterance_shows(
                            #[trigger] v@[i],
                            self.utterances[v@[i].id],
                        )
                },
                _ => false,
            },
            Request::SetTranslation { id, text_ru } => reply is Done && after
                == if self.utterances.contains_key(id) {
                self.with_utterance(
                    id,
                    UtteranceRow { text_ru: chars(text_ru), ..self.utterances[id] },
                )
            } else {
                self
            },
            Request::SetUtteranceSpeaker { id, speaker_id } => {
                &&& reply is Done
                &&& if self.utterances.contains_key(id) {
                    &&& speaker_id matches Some(k) ==> self.speakers.contains_key(k)
                    &&& after == self.with_utterance(
                        id,
                        UtteranceRow { speaker_id, ..self.utterances[id] },
                    )
                } else {
                    after == self
                }
            },
            // Utterances with their speakers.
            Request::SpokenInSegment { segment_id } => after == self && match reply {
                Reply::Spoken(v) => {
                    &&& selects(
                        v@.map_values(|u: UtteranceWithSpeaker<R>| u.utterance.id),
                        |k: i64|
                            self.utterances.contains_key(k) && self.utterances[k].segment_id
                                == segment_id,
                        |k: i64| self.utterances[k].index as int,
                    )
                    &&& forall|i: int| 0 <= i < v@.len() ==> self.spoken_shows(#[trigger] v@[i])
                },
                _ => false,
            },
            Request::SpokenInSession { session_id } => after == self && match reply {
                Reply::Spoken(v) => {
                    &&& selects(
                        v@.map_values(|u: UtteranceWithSpeaker<R>| u.utterance.id),
                        |k: i64|
                            self.utterances.contains_key(k) && self.session_of(
                                self.utterances[k].segment_id,
                            ) == session_id,
                        |k: i64|
                            self.segments[self.utterances[k].segment_id].index * 0x1_0000_0000
                                + self.utterances[k].index,
                    )
                    &&& forall|i: int| 0 <= i < v@.len() ==> self.spoken_shows(#[trigger] v@[i])
                },
                _ => false,
            },
        }
    }
}

/// Whatever is asked of the tables, they stay valid.
pub proof fn law_tables_stay_valid<R>(
    tables: Tables<R>,
    request: Request<R>,
    reply: Reply<R>,
    after: Tables<R>,
)
    requires
        tables.valid(),
        tables.carries_out(request, reply, after),
    ensures
        after.valid(),
{
    reveal(Tables::carries_out);
    lemma_tables_stay_finite(tables, request, reply, after);
}

proof fn lemma_tables_stay_finite<R>(
    tables: Tables<R>,
    request: Request<R>,
    reply: Reply<R>,
    after: Tables<R>,
)
    requires
        tables.valid(),
        tables.carries_out(request, reply, after),
    ensures
        after.sessions.dom().finite(),
        after.segments.dom().finite(),
        after.speakers.dom().finite(),
        after.utterances.dom().finite(),
{
    reveal(Tables::carries_out);
    match request {
        Request::DeleteSession { id } => {
            lemma_subset_finite(after.segments.dom(), tables.segments.dom());
            lemma_subset_finite(after.speakers.dom(), tables.speakers.dom());
            lemma_subset_finite(after.utterances.dom(), tables.utterances.dom());
        },
        Request::DeleteSpeaker { id } => {
            assert(after.utterances.dom() =~= tables.utterances.dom());
        },
        Request::DeleteUtterances { segment_id } => {
            lemma_subset_finite(after.utterances.dom(), tables.utterances.dom());
        },
        _ => {},
    }
}

proof fn lemma_subset_finite(part: Set<i64>, all: Set<i64>)
    requires
        all.finite(),
        part.subset_of(all),
    ensures
        part.finite(),
{
    all.lemma_len_filter(|k: i64| part.contains(k));
    assert(all.filter(|k: i64| part.contains(k)) =~= part);
}

/// A summary counts no more done segments than segments, and no more
/// translated utterances than utterances, unless there are more rows than its
/// numbers can hold.
pub proof fn law_summary_counts<R>(tables: Tables<R>, s: SessionSummary)
    requires
        tables.valid(),
        tables.summary_shows(s),
        tables.segments.dom().len() <= u32::MAX,
        tables.utterances.dom().len() <= u32::MAX,
    ensures
        s.done_count <= s.segment_count <= tables.segments.dom().len(),
        s.translated_count <= s.utterance_count <= tables.utterances.dom().len(),
{
    let of_session = |k: i64| tables.segments[k].session_id == s.id;
    let segments = tables.segments.dom().filter(of_session);
    tables.segments.dom().lemma_len_filter(of_session);
    segments.lemma_len_filter(
        |k: i64| tables.segments[k].status == TranscriptionStatus::Done,
    );
    let spoken = |k: i64| tables.session_of(tables.utterances[k].segment_id) == s.id;
    let utterances = tables.utterances.dom().filter(spoken);
    tables.utterances.dom().lemma_len_filter(spoken);
    utterances.lemma_len_filter(|k: i64| tables.utterances[k].text_ru is Some);
}

} // verus!
