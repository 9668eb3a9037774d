//! What the server does with the audio that comes in over a socket: it gathers
//! the audio and saves it in segments of two minutes.
//!
//! A [`RecorderState`] says what to do next; the caller does it and comes back
//! with what happened.

use vstd::prelude::*;

use crate::names::{
    audio_name, law_segment_name_read, law_segment_path_shown, names_session, segment_file_name,
    segment_name, short_name, shown_name, FilenameError,
};
use crate::number::{
    decimal, decimal_text, law_number_read, parse_u16, parse_u32, unsigned_value,
};
use crate::text::ends_in;
use crate::wav::{
    is_wav_header, law_wav_file, make_wav_file, number16, number32, signed16, wav_file,
};

verus! {

/// A time on the clock of the server, in nanoseconds.
pub type Nanos = u128;

/// The length of a segment.
pub const CHUNK_DURATION: Nanos = 120_000_000_000;

/// The directory that holds the recordings.
pub const OUTPUT_DIR: &'static str = "recordings";

/// The sampling rate of the saved WAV files.
pub const OUT_RATE: u32 = 16_000;

// ---------------------------------------------------------------------------
//  WebM
// ---------------------------------------------------------------------------

/// `data` starts with the four bytes that every WebM file starts with.
pub open spec fn ebml(data: Seq<u8>) -> bool {
    &&& data.len() >= 4
    &&& data[0] == 0x1A
    &&& data[1] == 0x45
    &&& data[2] == 0xDF
    &&& data[3] == 0xA3
}

/// The content of a WebM file: the header of the stream stands in front unless
/// the data starts with one.
pub open spec fn with_header(header: Seq<u8>, data: Seq<u8>) -> Seq<u8> {
    if !ebml(data) && header.len() > 0 {
        header + data
    } else {
        data
    }
}

// ---------------------------------------------------------------------------
//  Where the audio comes from
// ---------------------------------------------------------------------------

/// Who sends the audio, and how.
#[derive(Debug, Clone, Copy, PartialEq, Eq, Structural)]
pub enum Source {
    /// A browser sends one WebM stream in pieces.
    Browser,
    /// A console client sends samples: floating-point numbers of 32 bits.
    Console { sample_rate: u32, channels: u16 },
}

impl Source {
    /// The first part of the name of a session.
    pub open spec fn prefix(self) -> Seq<char> {
        match self {
            Source::Browser => "rec"@,
            Source::Console { .. } => "cli"@,
        }
    }

    /// The first part of the name of a session.
    pub fn session_prefix(&self) -> (s: &'static str)
        ensures
            s@ == self.prefix(),
    {
        match self {
            Source::Browser => "rec",
            Source::Console { .. } => "cli",
        }
    }

    /// The ending of the names of the files.
    pub open spec fn ending(self) -> Seq<char> {
        match self {
            Source::Browser => ".webm"@,
            Source::Console { .. } => ".wav"@,
        }
    }

    /// The ending of the names of the files.
    pub fn file_ending(&self) -> (s: &'static str)
        ensures
            s@ == self.ending(),
    {
        match self {
            Source::Browser => ".webm",
            Source::Console { .. } => ".wav",
        }
    }

    /// A console client that names its sampling rate and the number of its
    /// channels; 16000 and 1 stand for what is missing or no number.
    pub open spec fn of_query(sr: Option<Seq<char>>, ch: Option<Seq<char>>) -> Source {
        Source::Console {
            sample_rate: match sr {
                Some(t) => match unsigned_value(t, u32::MAX as nat) {
                    Some(n) => n as u32,
                    None => 16000,
                },
                None => 16000,
            },
            channels: match ch {
                Some(t) => match unsigned_value(t, u16::MAX as nat) {
                    Some(n) => n as u16,
                    None => 1,
                },
                None => 1,
            },
        }
    }

    /// A console client that names its sampling rate and the number of its
    /// channels; 16000 and 1 stand for what is missing or no number.
    pub fn console(sr: Option<&String>, ch: Option<&String>) -> (s: Source)
        ensures
            s == Source::of_query(
                match sr {
                    Some(t) => Some(t@),
                    None => None,
                },
                match ch {
                    Some(t) => Some(t@),
                    None => None,
                },
            ),
    {
        let sample_rate: u32 = match sr {
            Some(t) => match parse_u32(t.as_str()) {
                Some(n) => n,
                None => 16000,
            },
            None => 16000,
        };
        let channels: u16 = match ch {
            Some(t) => match parse_u16(t.as_str()) {
                Some(n) => n,
                None => 1,
            },
            None => 1,
        };
        Source::Console { sample_rate, channels }
    }
}

// ---------------------------------------------------------------------------
//  The model
// ---------------------------------------------------------------------------

/// A recording, as contracts speak of it.
pub ghost struct Recording {
    pub source: Source,
    /// The audio that is not saved yet.
    pub buffer: Seq<u8>,
    /// When the present segment started.
    pub started_at: int,
    /// The number of the last segment.
    pub file_index: int,
    pub session_id: Seq<char>,
    /// The first piece of the WebM stream.
    pub webm_header: Seq<u8>,
}

/// What happens on the socket, as contracts speak of it.
pub ghost enum Happening {
    Binary { data: Seq<u8>, now: int },
    Ping { payload: Seq<u8> },
    Other,
    Gone,
}

/// What to do next, as contracts speak of it.
pub ghost enum Doing {
    Receive,
    Pong { payload: Seq<u8> },
    Convert { segment: Captured },
    Write { file: Saving },
    Send { text: Seq<char> },
    End,
}

/// Samples to be saved, as contracts speak of it.
pub ghost struct Captured {
    pub path: Seq<char>,
    pub name: Seq<char>,
    pub bytes: Seq<u8>,
    pub sample_rate: u32,
    pub channels: u16,
    pub last: bool,
}

/// A file to be written, as contracts speak of it.
pub ghost struct Saving {
    pub path: Seq<char>,
    pub name: Seq<char>,
    pub data: Seq<u8>,
    pub last: bool,
}

impl Captured {
    /// The file that holds the samples once they are numbers of 16 bits at
    /// 16000 a second.
    pub open spec fn encoded(self, samples: Seq<i16>) -> Saving {
        Saving {
            path: self.path,
            name: self.name,
            data: wav_file(OUT_RATE as int, self.channels as int, samples),
            last: self.last,
        }
    }
}

/// The 32 bits of each whole sample in the bytes.
pub open spec fn bits_of(bytes: Seq<u8>) -> Seq<u32> {
    Seq::new((bytes.len() / 4) as nat, |k: int| number32(bytes, 4 * k) as u32)
}

/// What a client is told about a saved file.
pub open spec fn saved_message(name: Seq<char>, size_kb: nat) -> Seq<char> {
    "{\"type\":\"file_saved\",\"filename\":\""@ + name + "\",\"size_kb\":"@ + decimal(size_kb)
        + "}"@
}

impl Recording {
    /// A new recording.
    pub open spec fn fresh(source: Source, session_id: Seq<char>, now: int) -> Recording {
        Recording {
            source,
            buffer: Seq::empty(),
            started_at: now,
            file_index: 0,
            session_id,
            webm_header: Seq::empty(),
        }
    }

    /// The header, if there is one, is the start of a WebM file, and only a
    /// browser sends one.
    pub open spec fn valid(self) -> bool {
        self.webm_header.len() > 0 ==> ebml(self.webm_header) && self.source == Source::Browser
    }

    /// With one more piece of audio. The first piece that starts a WebM file
    /// is kept as the header.
    pub open spec fn taking(self, data: Seq<u8>) -> Recording {
        Recording {
            buffer: self.buffer + data,
            webm_header: if self.source == Source::Browser && ebml(data)
                && self.webm_header.len() == 0 {
                data
            } else {
                self.webm_header
            },
            ..self
        }
    }

    /// The present segment is two minutes long.
    pub open spec fn due(self, now: int) -> bool {
        now - self.started_at >= CHUNK_DURATION
    }

    /// Where the segment of that number is saved.
    pub open spec fn path_of(self, number: int) -> Seq<char> {
        "recordings/"@ + segment_name(self.session_id, number as nat, self.source.ending())
    }

    /// Where the next segment is saved.
    pub open spec fn next_path(self) -> Seq<char> {
        self.path_of(self.file_index + 1)
    }

    /// The gathered audio, if there is any, becomes a segment; `last` says
    /// whether the recording ends with it.
    pub open spec fn flushed(self, last: bool) -> (Recording, Doing) {
        if self.buffer.len() == 0 {
            (
                self,
                if last {
                    Doing::End
                } else {
                    Doing::Receive
                },
            )
        } else {
            let path = self.next_path();
            let name = shown_name(path);
            (
                Recording { buffer: Seq::empty(), file_index: self.file_index + 1, ..self },
                match self.source {
                    Source::Browser => Doing::Write {
                        file: Saving {
                            path,
                            name,
                            data: with_header(self.webm_header, self.buffer),
                            last,
                        },
                    },
                    Source::Console { sample_rate, channels } => Doing::Convert {
                        segment: Captured {
                            path,
                            name,
                            bytes: self.buffer,
                            sample_rate,
                            channels,
                            last,
                        },
                    },
                },
            )
        }
    }

    /// Something happened on the socket.
    pub open spec fn received(self, event: Happening) -> (Recording, Doing) {
        match event {
            Happening::Binary { data, now } => {
                let taken = self.taking(data);
                if taken.due(now) {
                    taken.flushed(false)
                } else {
                    (taken, Doing::Receive)
                }
            },
            Happening::Ping { payload } => (self, Doing::Pong { payload }),
            Happening::Other => (self, Doing::Receive),
            Happening::Gone => self.flushed(true),
        }
    }

    /// The file was written, or could not be.
    pub open spec fn saved(self, file: Saving, written: bool, now: int) -> (Recording, Doing) {
        if written {
            (
                Recording { started_at: now, ..self },
                if file.last {
                    Doing::End
                } else {
                    Doing::Send { text: saved_message(file.name, file.data.len() / 1024) }
                },
            )
        } else {
            (
                self,
                if file.last {
                    Doing::End
                } else {
                    Doing::Receive
                },
            )
        }
    }

    /// The message was sent, or could not be.
    pub open spec fn told(self, sent: bool) -> (Recording, Doing) {
        if sent {
            (self, Doing::Receive)
        } else {
            self.flushed(true)
        }
    }
}

// ---------------------------------------------------------------------------
//  The recorder
// ---------------------------------------------------------------------------

/// What happens on the socket.
#[derive(Debug)]
pub enum SocketEvent {
    /// A piece of audio arrived.
    Binary { data: Vec<u8>, now: Nanos },
    /// The client asks whether the server is there.
    Ping { payload: Vec<u8> },
    /// Another message arrived.
    Other,
    /// The client closed the connection, it broke, or nothing came for long.
    Gone,
}

impl View for SocketEvent {
    type V = Happening;

    open spec fn view(&self) -> Happening {
        match self {
            SocketEvent::Binary { data, now } => Happening::Binary { data: data@, now: *now as int },
            SocketEvent::Ping { payload } => Happening::Ping { payload: payload@ },
            SocketEvent::Other => Happening::Other,
            SocketEvent::Gone => Happening::Gone,
        }
    }
}

/// Samples that are to be converted and saved.
#[derive(Debug)]
pub struct RawSegment {
    pub path: String,
    pub name: String,
    /// The samples: floating-point numbers of 32 bits, the lowest byte first.
    pub bytes: Vec<u8>,
    pub sample_rate: u32,
    pub channels: u16,
    /// Whether the recording ends with this segment.
    pub last: bool,
}

impl View for RawSegment {
    type V = Captured;

    open spec fn view(&self) -> Captured {
        Captured {
            path: self.path@,
            name: self.name@,
            bytes: self.bytes@,
            sample_rate: self.sample_rate,
            channels: self.channels,
            last: self.last,
        }
    }
}

/// A file that is to be written.
#[derive(Debug)]
pub struct SegmentFile {
    pub path: String,
    pub name: String,
    pub data: Vec<u8>,
    /// Whether the recording ends with this segment.
    pub last: bool,
}

impl View for SegmentFile {
    type V = Saving;

    open spec fn view(&self) -> Saving {
        Saving { path: self.path@, name: self.name@, data: self.data@, last: self.last }
    }
}

impl RawSegment {
    /// The samples, each as the 32 bits of a floating-point number; bytes that
    /// do not make a whole sample are left out.
    pub fn sample_bits(&self) -> (bits: Vec<u32>)
        ensures
            bits@ == bits_of(self.bytes@),
    {
        let n: usize = self.bytes.len();
        let mut bits: Vec<u32> = Vec::new();
        let mut i: usize = 0;
        while n - i >= 4
            invariant
                i <= n,
                n == self.bytes@.len(),
                i == 4 * bits@.len(),
                forall|k: int|
                    0 <= k < bits@.len() ==> #[trigger] bits@[k] == number32(self.bytes@, 4 * k),
            decreases n - i,
        {
            let a: u32 = self.bytes[i] as u32;
            let b: u32 = self.bytes[i + 1] as u32;
            let c: u32 = self.bytes[i + 2] as u32;
            let d: u32 = self.bytes[i + 3] as u32;
            bits.push(a + 256 * b + 65536 * c + 16777216 * d);
            i += 4;
        }
        assert(bits@ =~= bits_of(self.bytes@));
        bits
    }

    /// The file that holds the samples once they are numbers of 16 bits at
    /// 16000 a second.
    pub fn encode(self, samples: &Vec<i16>) -> (file: SegmentFile)
        requires
            self.channels * 2 <= u16::MAX,
            2 * samples@.len() <= usize::MAX,
            36 + ((2 * samples@.len()) as u32) <= u32::MAX,
        ensures
            file@ == self@.encoded(samples@),
    {
        let data = make_wav_file(OUT_RATE, self.channels, samples);
        SegmentFile { path: self.path, name: self.name, data, last: self.last }
    }
}

/// What to do next.
#[derive(Debug)]
pub enum Next {
    /// Wait for what happens on the socket.
    Receive,
    /// Answer a ping; then wait.
    Pong { payload: Vec<u8> },
    /// Convert the samples, and write the file that holds them.
    Convert { segment: RawSegment },
    /// Write the file.
    Write { file: SegmentFile },
    /// Send the message.
    Send { text: String },
    /// The recording is over.
    End,
}

impl View for Next {
    type V = Doing;

    open spec fn view(&self) -> Doing {
        match self {
            Next::Receive => Doing::Receive,
            Next::Pong { payload } => Doing::Pong { payload: payload@ },
            Next::Convert { segment } => Doing::Convert { segment: segment@ },
            Next::Write { file } => Doing::Write { file: file@ },
            Next::Send { text } => Doing::Send { text: text@ },
            Next::End => Doing::End,
        }
    }
}

/// A recording.
#[derive(Debug)]
pub struct RecorderState {
    source: Source,
    buffer: Vec<u8>,
    started_at: Nanos,
    file_index: u32,
    session_id: String,
    webm_header: Vec<u8>,
}

impl View for RecorderState {
    type V = Recording;

    closed spec fn view(&self) -> Recording {
        Recording {
            source: self.source,
            buffer: self.buffer@,
            started_at: self.started_at as int,
            file_index: self.file_index as int,
            session_id: self.session_id@,
            webm_header: self.webm_header@,
        }
    }
}

impl RecorderState {
    pub fn new(source: Source, session_id: String, now: Nanos) -> (s: RecorderState)
        ensures
            s@ == Recording::fresh(source, session_id@, now as int),
            s@.valid(),
    {
        let s = RecorderState {
            source,
            buffer: Vec::new(),
            started_at: now,
            file_index: 0,
            session_id,
            webm_header: Vec::new(),
        };
        assert(s@ =~= Recording::fresh(source, session_id@, now as int));
        s
    }

    /// Whether one more segment can be numbered.
    pub fn has_room(&self) -> (b: bool)
        ensures
            b == (self@.file_index < u32::MAX),
    {
        self.file_index < 0xffff_ffff
    }

    /// Whether `data` starts with the four bytes that every WebM file starts
    /// with.
    pub fn starts_with_ebml(data: &[u8]) -> (b: bool)
        ensures
            b == ebml(data@),
    {
        data.len() >= 4 && data[0] == 0x1A && data[1] == 0x45 && data[2] == 0xDF && data[3] == 0xA3
    }

    /// Makes a segment of the gathered audio, if there is any; `last` says
    /// whether the recording ends with it.
    pub fn flush_segment(&mut self, last: bool) -> (next: Next)
        requires
            old(self)@.valid(),
            old(self)@.flushed(last).0.file_index <= u32::MAX,
        ensures
            (final(self)@, next@) == old(self)@.flushed(last),
            final(self)@.valid(),
    {
        let ghost before = self@;
        if self.buffer.len() == 0 {
            return if last {
                Next::End
            } else {
                Next::Receive
            };
        }
        let short = segment_file_name(
            self.session_id.as_str(),
            self.file_index + 1,
            self.source.file_ending(),
        );
        let path = "recordings/".to_string().concat(short.as_str());
        let name = short_name(path.as_str());
        self.file_index = self.file_index + 1;
        let mut data: Vec<u8> = Vec::new();
        std::mem::swap(&mut data, &mut self.buffer);
        assert(self@ =~= before.flushed(last).0);
        match self.source {
            Source::Browser => {
                let data = if !Self::starts_with_ebml(data.as_slice()) && self.webm_header.len()
                    > 0 {
                    let mut full = copy_bytes(&self.webm_header);
                    full.append(&mut data);
                    full
                } else {
                    data
                };
                Next::Write { file: SegmentFile { path, name, data, last } }
            },
            Source::Console { sample_rate, channels } => Next::Convert {
                segment: RawSegment { path, name, bytes: data, sample_rate, channels, last },
            },
        }
    }

    /// Something happened on the socket.
    pub fn receive(&mut self, event: SocketEvent) -> (next: Next)
        requires
            old(self)@.valid(),
            old(self)@.received(event@).0.file_index <= u32::MAX,
        ensures
            (final(self)@, next@) == old(self)@.received(event@),
            final(self)@.valid(),
    {
        let ghost before = self@;
        match event {
            SocketEvent::Binary { data, now } => {
                let mut data = data;
                let ghost piece = data@;
                let browser = match self.source {
                    Source::Browser => true,
                    Source::Console { .. } => false,
                };
                if browser && Self::starts_with_ebml(data.as_slice()) && self.webm_header.len()
                    == 0 {
                    self.webm_header = copy_bytes(&data);
                }
                self.buffer.append(&mut data);
                assert(self@ =~= before.taking(piece));
                if now >= self.started_at && now - self.started_at >= CHUNK_DURATION {
                    self.flush_segment(false)
                } else {
                    Next::Receive
                }
            },
            SocketEvent::Ping { payload } => Next::Pong { payload },
            SocketEvent::Other => Next::Receive,
            SocketEvent::Gone => self.flush_segment(true),
        }
    }

    /// The file was written, or could not be.
    pub fn saved(&mut self, file: &SegmentFile, written: bool, now: Nanos) -> (next: Next)
        ensures
            (final(self)@, next@) == old(self)@.saved(file@, written, now as int),
            old(self)@.valid() ==> final(self)@.valid(),
    {
        let ghost before = self@;
        if written {
            self.started_at = now;
            assert(self@ =~= before.saved(file@, written, now as int).0);
            if file.last {
                Next::End
            } else {
                let size_kb: u64 = file.data.len() as u64 / 1024;
                Next::Send { text: file_saved(file.name.as_str(), size_kb) }
            }
        } else if file.last {
            Next::End
        } else {
            Next::Receive
        }
    }

    /// The message was sent, or could not be.
    pub fn sent(&mut self, ok: bool) -> (next: Next)
        requires
            old(self)@.valid(),
            old(self)@.told(ok).0.file_index <= u32::MAX,
        ensures
            (final(self)@, next@) == old(self)@.told(ok),
            final(self)@.valid(),
    {
        if ok {
            Next::Receive
        } else {
            self.flush_segment(true)
        }
    }
}

/// What a client is told about a saved file.
pub fn file_saved(name: &str, size_kb: u64) -> (s: String)
    ensures
        s@ == saved_message(name@, size_kb as nat),
{
    let size = decimal_text(size_kb);
    "{\"type\":\"file_saved\",\"filename\":\"".to_string().concat(name).concat(
        "\",\"size_kb\":",
    ).concat(size.as_str()).concat("}")
}

// ---------------------------------------------------------------------------
//  Laws
// ---------------------------------------------------------------------------

/// What happens on the socket, and how what the recording asks for then turns
/// out.
pub ghost struct Turn {
    pub event: Happening,
    /// What the samples of a console client are converted to.
    pub samples: Seq<i16>,
    /// Whether the file was written, and when.
    pub written: bool,
    pub saved_at: int,
    /// Whether the message was sent.
    pub sent: bool,
}

impl Turn {
    /// The audio that arrives.
    pub open spec fn audio(self) -> Seq<u8> {
        match self.event {
            Happening::Binary { data, .. } => data,
            _ => Seq::empty(),
        }
    }
}

/// All audio that arrives.
pub open spec fn all_audio(turns: Seq<Turn>) -> Seq<u8>
    decreases turns.len(),
{
    if turns.len() == 0 {
        Seq::empty()
    } else {
        all_audio(turns.drop_last()) + turns.last().audio()
    }
}

/// A segment that is handed over to be saved.
pub ghost struct Handed {
    /// The audio that was gathered.
    pub audio: Seq<u8>,
    /// What to do with it.
    pub doing: Doing,
}

impl Handed {
    /// Where the segment is saved.
    pub open spec fn path(self) -> Seq<char> {
        match self.doing {
            Doing::Write { file } => file.path,
            Doing::Convert { segment } => segment.path,
            _ => Seq::empty(),
        }
    }

    /// The name that the file is told by.
    pub open spec fn name(self) -> Seq<char> {
        match self.doing {
            Doing::Write { file } => file.name,
            Doing::Convert { segment } => segment.name,
            _ => Seq::empty(),
        }
    }
}

/// The audio of the segments, one behind the other.
pub open spec fn handed_audio(segments: Seq<Handed>) -> Seq<u8>
    decreases segments.len(),
{
    if segments.len() == 0 {
        Seq::empty()
    } else {
        handed_audio(segments.drop_last()) + segments.last().audio
    }
}

impl Recording {
    /// One turn: the recording behind it, and the segment handed over in it.
    #[verifier::opaque]
    pub open spec fn turned(self, turn: Turn) -> (Recording, Option<Handed>) {
        let (next, doing) = self.received(turn.event);
        let handed = Some(Handed { audio: self.taking(turn.audio()).buffer, doing });
        match doing {
            Doing::Write { file } => {
                let (kept, then_do) = next.saved(file, turn.written, turn.saved_at);
                match then_do {
                    Doing::Send { .. } => (kept.told(turn.sent).0, handed),
                    _ => (kept, handed),
                }
            },
            Doing::Convert { segment } => {
                let file = segment.encoded(turn.samples);
                let (kept, then_do) = next.saved(file, turn.written, turn.saved_at);
                match then_do {
                    Doing::Send { .. } => (kept.told(turn.sent).0, handed),
                    _ => (kept, handed),
                }
            },
            _ => (next, None),
        }
    }

    /// The turns, one after the other: the recording behind them, and the
    /// segments handed over.
    pub open spec fn played(self, turns: Seq<Turn>) -> (Recording, Seq<Handed>)
        decreases turns.len(),
    {
        if turns.len() == 0 {
            (self, Seq::empty())
        } else {
            let (before, segments) = self.played(turns.drop_last());
            let (after, handed) = before.turned(turns.last());
            match handed {
                Some(segment) => (after, segments.push(segment)),
                None => (after, segments),
            }
        }
    }
}

/// What one turn does with the audio.
proof fn lemma_turn(before: Recording, turn: Turn)
    ensures
        ({
            let (after, handed) = before.turned(turn);
            &&& after.session_id == before.session_id
            &&& after.source == before.source
            &&& after.webm_header == before.taking(turn.audio()).webm_header
            &&& match handed {
                Some(segment) => {
                    &&& segment.audio == before.buffer + turn.audio()
                    &&& segment.audio.len() > 0
                    &&& segment.path() == before.next_path()
                    &&& segment.name() == shown_name(segment.path())
                    &&& after.buffer == Seq::<u8>::empty()
                    &&& after.file_index == before.file_index + 1
                },
                None => {
                    &&& after.buffer == before.buffer + turn.audio()
                    &&& after.file_index == before.file_index
                },
            }
            &&& turn.event is Gone ==> after.buffer == Seq::<u8>::empty()
        }),
{
    reveal(Recording::turned);
    let (after, handed) = before.turned(turn);
    if handed is Some && turn.event is Gone {
        assert(before.buffer =~= before.buffer + turn.audio());
    }
    if handed is None {
        assert(after.buffer =~= before.buffer + turn.audio());
    }
    if turn.event is Gone {
        assert(after.buffer =~= Seq::<u8>::empty());
    }
}

/// No audio is lost, doubled or put out of order: what was handed over to be
/// saved, followed by what is still gathered, is what arrived. The segments
/// are numbered one after the other, and each is saved under its number.
pub proof fn law_no_audio_lost(start: Recording, turns: Seq<Turn>)
    requires
        start.buffer.len() == 0,
    ensures
        ({
            let (end, segments) = start.played(turns);
            &&& handed_audio(segments) + end.buffer == all_audio(turns)
            &&& end.file_index == start.file_index + segments.len()
            &&& forall|k: int|
                0 <= k < segments.len() ==> (#[trigger] segments[k]).path() == start.path_of(
                    start.file_index + k + 1,
                ) && segments[k].name() == shown_name(segments[k].path())
            &&& end.session_id == start.session_id
            &&& end.source == start.source
        }),
    decreases turns.len(),
{
    if turns.len() > 0 {
        law_no_audio_lost(start, turns.drop_last());
        let (before, segments) = start.played(turns.drop_last());
        let (after, handed) = before.turned(turns.last());
        let audio = turns.last().audio();
        lemma_turn(before, turns.last());
        match handed {
            Some(segment) => {
                assert(segments.push(segment).drop_last() =~= segments);
                assert(handed_audio(segments.push(segment)) + after.buffer =~= handed_audio(
                    segments,
                ) + before.buffer + audio);
            },
            None => {
                assert(handed_audio(segments) + after.buffer =~= handed_audio(segments)
                    + before.buffer + audio);
            },
        }
        assert(all_audio(turns) =~= handed_audio(segments) + before.buffer + audio);
    } else {
        assert(handed_audio(Seq::<Handed>::empty()) + start.buffer =~= Seq::<u8>::empty());
    }
}

/// However a recording ends, all audio that arrived has been handed over to be
/// saved.
pub proof fn law_end_saves_all(start: Recording, turns: Seq<Turn>)
    requires
        start.buffer.len() == 0,
        turns.len() > 0,
        turns.last().event == Happening::Gone,
    ensures
        handed_audio(start.played(turns).1) == all_audio(turns),
{
    law_no_audio_lost(start, turns);
    let (before, segments) = start.played(turns.drop_last());
    let (end, _) = start.played(turns);
    lemma_turn(before, turns.last());
    assert(handed_audio(start.played(turns).1) + end.buffer =~= handed_audio(
        start.played(turns).1,
    ));
}

/// Every file of a browser whose first audio starts a WebM file starts like a
/// WebM file itself.
pub proof fn law_files_playable(start: Recording, turns: Seq<Turn>, first: int, i: int)
    requires
        start.buffer.len() == 0,
        start.source == Source::Browser,
        start.webm_header.len() == 0,
        0 <= first < turns.len(),
        forall|k: int| 0 <= k < first ==> (#[trigger] turns[k]).audio().len() == 0,
        ebml(turns[first].audio()),
        0 <= i < start.played(turns).1.len(),
    ensures
        start.played(turns).1[i].doing matches Doing::Write { file } && ebml(file.data),
    decreases turns.len(),
{
    let rest = turns.drop_last();
    let (before, segments) = start.played(rest);
    law_no_audio_lost(start, rest);
    assert forall|k: int| 0 <= k < first implies (#[trigger] rest[k]).audio().len() == 0 by {
        assert(rest[k] == turns[k]);
    }
    if first < rest.len() {
        assert(rest[first] == turns[first]);
        lemma_header_kept(start, rest, first);
    } else {
        lemma_silence(start, rest);
    }
    if i < segments.len() {
        law_files_playable(start, rest, first, i);
        assert(start.played(turns).1[i] == segments[i]);
    } else {
        lemma_turn_playable(before, turns.last());
    }
}

/// A file that is handed over once the header is kept, or with the audio that
/// brings it, starts like a WebM file.
proof fn lemma_turn_playable(before: Recording, turn: Turn)
    requires
        before.source == Source::Browser,
        ebml(before.webm_header) || (before.webm_header.len() == 0 && ebml(turn.audio())),
    ensures
        before.turned(turn).1 matches Some(handed) ==> (handed.doing matches Doing::Write { file }
            && ebml(file.data)),
{
    reveal(Recording::turned);
    let taken = before.taking(turn.audio());
    assert(ebml(taken.webm_header));
    lemma_with_header(taken.webm_header, taken.buffer);
    if turn.event is Gone {
        assert(taken.buffer =~= before.buffer);
        assert(taken =~= before);
    }
}

/// While no audio arrives, nothing is gathered and nothing is handed over.
proof fn lemma_silence(start: Recording, turns: Seq<Turn>)
    requires
        start.buffer.len() == 0,
        start.webm_header.len() == 0,
        forall|k: int| 0 <= k < turns.len() ==> (#[trigger] turns[k]).audio().len() == 0,
    ensures
        start.played(turns).0.buffer.len() == 0,
        start.played(turns).0.webm_header.len() == 0,
        start.played(turns).1.len() == 0,
    decreases turns.len(),
{
    if turns.len() > 0 {
        let rest = turns.drop_last();
        assert forall|k: int| 0 <= k < rest.len() implies (#[trigger] rest[k]).audio().len()
            == 0 by {
            assert(rest[k] == turns[k]);
        }
        lemma_silence(start, rest);
        assert(turns[turns.len() - 1].audio().len() == 0);
        lemma_turn(start.played(rest).0, turns.last());
    }
}

/// Once the first audio has started a WebM file, its header is kept.
proof fn lemma_header_kept(start: Recording, turns: Seq<Turn>, first: int)
    requires
        start.buffer.len() == 0,
        start.source == Source::Browser,
        start.webm_header.len() == 0,
        0 <= first < turns.len(),
        forall|k: int| 0 <= k < first ==> (#[trigger] turns[k]).audio().len() == 0,
        ebml(turns[first].audio()),
    ensures
        ebml(start.played(turns).0.webm_header),
        start.played(turns).0.source == Source::Browser,
    decreases turns.len(),
{
    let rest = turns.drop_last();
    law_no_audio_lost(start, rest);
    law_no_audio_lost(start, turns);
    assert forall|k: int| 0 <= k < first implies (#[trigger] rest[k]).audio().len() == 0 by {
        assert(rest[k] == turns[k]);
    }
    if first < rest.len() {
        assert(rest[first] == turns[first]);
        lemma_header_kept(start, rest, first);
    } else {
        lemma_silence(start, rest);
    }
    lemma_turn(start.played(rest).0, turns.last());
}

/// With a header, the content starts a WebM file.
proof fn lemma_with_header(header: Seq<u8>, data: Seq<u8>)
    requires
        ebml(header),
    ensures
        ebml(with_header(header, data)),
{
}

fn copy_bytes(v: &Vec<u8>) -> (r: Vec<u8>)
    ensures
        r@ == v@,
{
    let r = v.clone();
    assert(r@ =~= v@);
    r
}

// ---------------------------------------------------------------------------
//  What the files hold
// ---------------------------------------------------------------------------

/// A WebM file is known by its first four bytes.
pub proof fn law_ebml(data: Seq<u8>)
    ensures
        ebml(data) <==> data.len() >= 4 && data.take(4) == seq![0x1Au8, 0x45, 0xDF, 0xA3],
{
    if ebml(data) {
        assert(data.take(4) =~= seq![0x1Au8, 0x45, 0xDF, 0xA3]);
    } else if data.len() >= 4 && data.take(4) == seq![0x1Au8, 0x45, 0xDF, 0xA3] {
        assert(data.take(4)[0] == data[0] && data.take(4)[1] == data[1] && data.take(4)[2]
            == data[2] && data.take(4)[3] == data[3]);
    }
}

/// The turn `h` is the first one that brings the start of a WebM file.
pub open spec fn starts_stream(turns: Seq<Turn>, h: int) -> bool {
    &&& 0 <= h < turns.len()
    &&& ebml(turns[h].audio())
    &&& forall|k: int| 0 <= k < h ==> !ebml((#[trigger] turns[k]).audio())
}

/// What is kept as the header is the first audio that starts a WebM file.
proof fn lemma_kept_header(start: Recording, turns: Seq<Turn>)
    requires
        start.source == Source::Browser,
        start.webm_header.len() == 0,
    ensures
        ({
            let kept = start.played(turns).0;
            &&& kept.source == Source::Browser
            &&& kept.webm_header.len() == 0 ==> forall|k: int|
                0 <= k < turns.len() ==> !ebml((#[trigger] turns[k]).audio())
            &&& kept.webm_header.len() > 0 ==> exists|h: int| #[trigger]
                starts_stream(turns, h) && kept.webm_header == turns[h].audio()
        }),
    decreases turns.len(),
{
    if turns.len() > 0 {
        let rest = turns.drop_last();
        let n = rest.len() as int;
        lemma_kept_header(start, rest);
        let before = start.played(rest).0;
        let kept = start.played(turns).0;
        lemma_turn(before, turns.last());
        assert(turns.last() == turns[n]);
        if before.webm_header.len() > 0 {
            let h = choose|h: int| #[trigger]
                starts_stream(rest, h) && before.webm_header == rest[h].audio();
            lemma_same_start(rest, turns, h);
        } else {
            assert forall|k: int| 0 <= k < n implies !ebml((#[trigger] turns[k]).audio()) by {
                assert(rest[k] == turns[k]);
            }
            if ebml(turns[n].audio()) {
                assert(starts_stream(turns, n));
            }
        }
    }
}

proof fn lemma_same_start(rest: Seq<Turn>, turns: Seq<Turn>, h: int)
    requires
        turns.len() > 0,
        rest == turns.drop_last(),
        starts_stream(rest, h),
    ensures
        starts_stream(turns, h),
        turns[h] == rest[h],
{
    assert forall|k: int| 0 <= k < h implies !ebml((#[trigger] turns[k]).audio()) by {
        assert(rest[k] == turns[k]);
    }
}

/// The file of a browser is all the audio that was gathered for it, with the
/// first audio that starts a WebM file in front of it or without it; audio that
/// starts a WebM file itself is left as it is.
pub open spec fn holds_audio(turns: Seq<Turn>, audio: Seq<u8>, file: Saving) -> bool {
    ||| file.data == audio
    ||| {
        &&& !ebml(audio)
        &&& exists|h: int| #[trigger]
            starts_stream(turns, h) && file.data == turns[h].audio() + audio
    }
}

/// No file lacks any of the audio that was gathered for it. The samples of a
/// console client are handed over as they came, with the rate and the channels
/// that the client named.
pub proof fn law_files_hold_audio(start: Recording, turns: Seq<Turn>, i: int)
    requires
        start.webm_header.len() == 0,
        0 <= i < start.played(turns).1.len(),
    ensures
        ({
            let handed = start.played(turns).1[i];
            match start.source {
                Source::Browser => handed.doing matches Doing::Write { file } && holds_audio(
                    turns,
                    handed.audio,
                    file,
                ),
                Source::Console { sample_rate, channels } => {
                    &&& handed.doing matches Doing::Convert { segment }
                    &&& segment.bytes == handed.audio
                    &&& segment.sample_rate == sample_rate
                    &&& segment.channels == channels
                },
            }
        }),
    decreases turns.len(),
{
    let rest = turns.drop_last();
    let (before, segments) = start.played(rest);
    lemma_source_kept(start, rest);
    if i < segments.len() {
        law_files_hold_audio(start, rest, i);
        let handed = segments[i];
        assert(start.played(turns).1[i] == handed);
        if start.source == Source::Browser {
            let file = handed.doing->Write_file;
            if file.data != handed.audio {
                let h = choose|h: int| #[trigger]
                    starts_stream(rest, h) && file.data == rest[h].audio() + handed.audio;
                lemma_same_start(rest, turns, h);
            }
        }
    } else {
        let turn = turns.last();
        let handed = before.turned(turn).1->Some_0;
        assert(start.played(turns).1[i] == handed);
        lemma_turn(before, turn);
        reveal(Recording::turned);
        let taken = before.taking(turn.audio());
        if turn.event is Gone {
            assert(taken.buffer =~= before.buffer);
            assert(taken =~= before);
        }
        if start.source == Source::Browser {
            lemma_kept_header(start, turns);
            let kept = start.played(turns).0;
            assert(kept.webm_header == taken.webm_header);
            let file = handed.doing->Write_file;
            if file.data != handed.audio {
                let h = choose|h: int| #[trigger]
                    starts_stream(turns, h) && kept.webm_header == turns[h].audio();
                assert(file.data == turns[h].audio() + handed.audio);
            }
        }
    }
}

proof fn lemma_source_kept(start: Recording, turns: Seq<Turn>)
    ensures
        start.played(turns).0.source == start.source,
    decreases turns.len(),
{
    if turns.len() > 0 {
        lemma_source_kept(start, turns.drop_last());
        lemma_turn(start.played(turns.drop_last()).0, turns.last());
    }
}

/// The WAV file of a segment is played as it was recorded: it tells of 16000
/// samples a second of 16 bits in each of the channels of the segment, and
/// holds all the samples in order.
pub proof fn law_segment_encoded(segment: Captured, samples: Seq<i16>)
    requires
        segment.channels * 2 <= u16::MAX,
        36 + ((2 * samples.len()) as u32) <= u32::MAX,
    ensures
        ({
            let file = segment.encoded(samples);
            &&& file.path == segment.path
            &&& file.name == segment.name
            &&& file.last == segment.last
            &&& file.data.len() == 44 + 2 * samples.len()
            &&& is_wav_header(file.data.take(44), ((2 * samples.len()) as u32) as int)
            &&& number16(file.data, 20) == 1
            &&& number16(file.data, 22) == segment.channels
            &&& number32(file.data, 24) == 16000
            &&& number32(file.data, 28) == 32000 * segment.channels
            &&& number16(file.data, 32) == 2 * segment.channels
            &&& number16(file.data, 34) == 16
            &&& forall|i: int|
                0 <= i < samples.len() ==> signed16(number16(file.data, 44 + 2 * i))
                    == #[trigger] samples[i]
        }),
{
    law_wav_file(16000, segment.channels as int, samples);
}

/// Each segment is saved among the recordings under a name from which its
/// session and its number can be read, and the client is told that name.
pub proof fn law_segments_named(start: Recording, turns: Seq<Turn>, i: int)
    requires
        start.buffer.len() == 0,
        names_session(start.session_id),
        0 <= start.file_index,
        0 <= i < start.played(turns).1.len(),
        start.file_index + i + 1 <= u32::MAX,
    ensures
        ({
            let handed = start.played(turns).1[i];
            &&& handed.path() == "recordings/"@ + handed.name()
            &&& audio_name(handed.name()) == Ok::<(Seq<char>, nat), FilenameError>(
                (start.session_id, (start.file_index + i + 1) as nat),
            )
            &&& ends_in(
                handed.name(),
                match start.source {
                    Source::Browser => ".webm"@,
                    Source::Console { .. } => ".wav"@,
                },
            )
        }),
{
    reveal_strlit("recordings/");
    reveal_strlit("recordings");
    law_no_audio_lost(start, turns);
    let handed = start.played(turns).1[i];
    let number = (start.file_index + i + 1) as nat;
    let ending = start.source.ending();
    assert("recordings/"@ =~= "recordings"@ + seq!['/']);
    law_segment_path_shown("recordings"@, start.session_id, number, ending);
    law_segment_name_read(start.session_id, number, ending);
    assert(handed.name() == segment_name(start.session_id, number, ending));
    let name = handed.name();
    assert(name.skip(name.len() - ending.len()) =~= ending);
}

/// The sessions of a browser and of a console client are told apart by their
/// names.
pub proof fn law_session_prefix(source: Source)
    ensures
        source.prefix() == match source {
            Source::Browser => "rec"@,
            Source::Console { .. } => "cli"@,
        },
{
}

/// A segment is handed over once its audio has been gathered for two minutes,
/// and no sooner while the recording goes on.
pub proof fn law_two_minutes(before: Recording, data: Seq<u8>, now: int)
    requires
        (before.buffer + data).len() > 0,
    ensures
        ({
            let (after, doing) = before.received(Happening::Binary { data, now });
            if now - before.started_at >= 2 * 60 * 1_000_000_000 {
                &&& doing is Write || doing is Convert
                &&& after.buffer.len() == 0
                &&& after.file_index == before.file_index + 1
            } else {
                &&& doing is Receive
                &&& after.buffer == before.buffer + data
                &&& after.file_index == before.file_index
            }
        }),
{
}

/// The two minutes of the next segment start when a file is written; where it
/// could not be, they run on.
pub proof fn law_clock(before: Recording, file: Saving, written: bool, now: int)
    ensures
        ({
            let (after, doing) = before.saved(file, written, now);
            &&& after == (Recording {
                started_at: if written {
                    now
                } else {
                    before.started_at
                },
                ..before
            })
            &&& doing is End <==> file.last
            &&& doing is Send <==> written && !file.last
            &&& doing is Receive <==> !written && !file.last
        }),
{
}

/// A client that is gone, and one that cannot be told of a file, ends the
/// recording: what is gathered is handed over as the last segment, or nothing
/// is left to do.
pub proof fn law_recording_ends(before: Recording)
    ensures
        ({
            let (after, doing) = before.received(Happening::Gone);
            &&& before.told(false) == (after, doing)
            &&& after.buffer.len() == 0
            &&& before.buffer.len() == 0 ==> doing is End && after == before
            &&& before.buffer.len() > 0 ==> match doing {
                Doing::Write { file } => file.last,
                Doing::Convert { segment } => segment.last,
                _ => false,
            }
        }),
        before.told(true) == (before, Doing::Receive),
{
}

/// A segment that is handed over while the recording goes on is not the last.
pub proof fn law_not_the_last(before: Recording, data: Seq<u8>, now: int)
    ensures
        match before.received(Happening::Binary { data, now }).1 {
            Doing::Write { file } => !file.last,
            Doing::Convert { segment } => !segment.last,
            Doing::Receive => true,
            _ => false,
        },
{
}

/// A ping is answered with what it brought, and neither it nor another message
/// changes the recording.
pub proof fn law_ping_answered(before: Recording, payload: Seq<u8>)
    ensures
        before.received(Happening::Ping { payload }) == (before, (Doing::Pong { payload })),
        before.received(Happening::Other) == (before, Doing::Receive),
{
}

/// A console client is known by the rate and the channels that it names; what
/// it leaves out, or what is no number, is taken as 16000 and 1.
pub proof fn law_query_read(sample_rate: u32, channels: u16, odd: Seq<char>)
    requires
        forall|max: nat| unsigned_value(odd, max) is None,
    ensures
        Source::of_query(Some(decimal(sample_rate as nat)), Some(decimal(channels as nat))) == (
        Source::Console { sample_rate, channels }),
        Source::of_query(Some(decimal(sample_rate as nat)), None) == (Source::Console {
            sample_rate,
            channels: 1,
        }),
        Source::of_query(None, Some(decimal(channels as nat))) == (Source::Console {
            sample_rate: 16000,
            channels,
        }),
        Source::of_query(Some(odd), Some(odd)) == (Source::Console {
            sample_rate: 16000,
            channels: 1,
        }),
        Source::of_query(None, None) == (Source::Console { sample_rate: 16000, channels: 1 }),
{
    law_number_read(sample_rate as nat, u32::MAX as nat);
    law_number_read(channels as nat, u16::MAX as nat);
}

/// Every four bytes are a sample, the lowest byte first; bytes at the end that
/// make no whole sample are left out.
pub proof fn law_whole_samples(bytes: Seq<u8>, k: int)
    requires
        0 <= k < bytes.len() / 4,
    ensures
        bits_of(bytes).len() == bytes.len() / 4,
        bits_of(bytes)[k] == bytes[4 * k] + 256 * bytes[4 * k + 1] + 65536 * bytes[4 * k + 2]
            + 16777216 * bytes[4 * k + 3],
{
}

/// A new recording has gathered nothing, and its first segment is numbered 1 and
/// starts now.
pub proof fn law_fresh(source: Source, session_id: Seq<char>, now: int)
    ensures
        ({
            let r = Recording::fresh(source, session_id, now);
            &&& r.valid()
            &&& r.source == source
            &&& r.session_id == session_id
            &&& r.buffer.len() == 0
            &&& r.webm_header.len() == 0
            &&& r.started_at == now
            &&& r.next_path() == r.path_of(1)
        }),
{
}

} // verus!
