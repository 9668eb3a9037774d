//! Recording, transcript ingestion and transcript browsing for long audio sessions.

pub mod client;
pub mod database;
pub mod detail;
pub mod handler;
pub mod ingestion;
pub mod model;
pub mod names;
pub mod number;
pub mod parse;
pub mod recorder;
pub mod repository;
pub mod rows;
pub mod runs;
pub mod scan;
pub mod service;
pub mod store;
pub mod tables;
pub mod text;
pub mod transactions;
pub mod transcripts;
pub mod wav;

pub use handler::{ApiError, ApiResult, SharedState};
pub use model::{
    AssignSpeaker, NewSegment, NewSession, NewSpeaker, NewUtterance, Segment,
    SegmentWithUtterances, Session, SessionDetail, SessionSummary, Speaker, TranscriptionStatus,
    UpdateTranslation, Utterance, UtteranceWithSpeaker,
};
pub use parse::{parse_whisper_content, parse_whisper_txt, WhisperUtterance};
pub use repository::Repository;
pub use service::{IngestResult, IngestService, SegmentService, SessionService, UtteranceService};
