//! The console client: what it does with the lines typed by the user, the
//! samples of the microphone and the messages of the server.

use vstd::prelude::*;

use crate::number::{all_digits, ascii_digit, decimal, decimal_text, lemma_decimal_value};
use crate::recorder::{bits_of, saved_message, Doing, Recording, Saving};
use crate::text::{
    behind, contains, field_behind, finds, lemma_first_at, lemma_last_piece, lemma_one_piece,
    lemma_up_to, occurs_at, pieces, trim, trimmed, up_to,
};
use crate::wav::{le32, number32};

verus! {

// ---------------------------------------------------------------------------
//  The server
// ---------------------------------------------------------------------------

/// The address that the samples are sent to.
pub open spec fn address(server: Seq<char>, sample_rate: nat, channels: nat) -> Seq<char> {
    server + "/ws/audio-pcm?sr="@ + decimal(sample_rate) + "&ch="@ + decimal(channels)
}

/// The address that the samples are sent to.
pub fn pcm_url(server: &str, sample_rate: u32, channels: u16) -> (s: String)
    ensures
        s@ == address(server@, sample_rate as nat, channels as nat),
{
    let sr = decimal_text(sample_rate as u64);
    let ch = decimal_text(channels as u64);
    server.to_string().concat("/ws/audio-pcm?sr=").concat(sr.as_str()).concat("&ch=").concat(
        ch.as_str(),
    )
}

/// Whether any certificate is accepted: on demand, and from this machine.
pub open spec fn accepts_any(insecure: bool, server: Seq<char>) -> bool {
    insecure || contains(server, "127.0.0.1"@) || contains(server, "localhost"@)
}

/// Whether any certificate is accepted: on demand, and from this machine.
pub fn use_insecure(insecure: bool, server: &str) -> (b: bool)
    ensures
        b == accepts_any(insecure, server@),
{
    insecure || finds(server, "127.0.0.1") || finds(server, "localhost")
}

/// The file name and the size in a message about a saved file; `?` stands for
/// what is missing. Other messages say nothing.
pub open spec fn notice(message: Seq<char>) -> Option<(Seq<char>, Seq<char>)> {
    if contains(message, "file_saved"@) {
        Some(
            (
                match behind(message, "\"filename\":\""@) {
                    Some(part) => up_to(part, '"', '"'),
                    None => "?"@,
                },
                match behind(message, "\"size_kb\":"@) {
                    Some(part) => up_to(part, '}', ','),
                    None => "?"@,
                },
            ),
        )
    } else {
        None
    }
}

/// Reads the file name and the size from a message about a saved file.
pub fn read_saved(message: &str) -> (r: Option<(String, String)>)
    ensures
        match r {
            Some((name, size)) => notice(message@) == Some((name@, size@)),
            None => notice(message@) is None,
        },
{
    if !finds(message, "file_saved") {
        return None;
    }
    let name = match field_behind(message, "\"filename\":\"", '"', '"') {
        Some(name) => name,
        None => "?".to_string(),
    };
    let size = match field_behind(message, "\"size_kb\":", '}', ',') {
        Some(size) => size,
        None => "?".to_string(),
    };
    Some((name, size))
}

/// A quotation mark cannot stand in the text.
pub open spec fn unquoted(s: Seq<char>) -> bool {
    forall|i: int| 0 <= i < s.len() ==> #[trigger] s[i] != '"'
}

/// The quotation marks in the message behind the start of the name.
proof fn lemma_quotes_behind(s: Seq<char>, name: Seq<char>, size: Seq<char>, j: int)
    requires
        unquoted(name),
        all_digits(size),
        s.len() == 46 + name.len() + size.len(),
        forall|k: int| 33 <= k < 33 + name.len() ==> #[trigger] s[k] == name[k - 33],
        forall|k: int|
            33 + name.len() <= k < 45 + name.len() ==> #[trigger] s[k]
                == "\",\"size_kb\":"@[k - 33 - name.len()],
        forall|k: int|
            45 + name.len() <= k < s.len() - 1 ==> #[trigger] s[k] == size[k - 45 - name.len()],
        s[s.len() - 1] == '}',
        33 <= j < s.len(),
        s[j] == '"',
    ensures
        j == 33 + name.len() && s[j + 1] == ',' || j == 35 + name.len() || j == 43 + name.len()
            && s[j + 1] == ':',
{
    reveal_strlit("\",\"size_kb\":");
    let n = name.len() as int;
    assert(s[34 + n] == ',');
    assert(s[44 + n] == ':');
    if 45 + n <= j < s.len() - 1 {
        assert(ascii_digit(size[j - 45 - n]));
    }
}

/// The client reads in the message about a saved file the name and the size
/// that the server put there.
pub proof fn law_saved_message_read(name: Seq<char>, size_kb: nat)
    requires
        unquoted(name),
    ensures
        notice(saved_message(name, size_kb)) == Some((name, decimal(size_kb))),
{
    reveal_strlit("file_saved");
    reveal_strlit("{\"type\":\"file_saved\",\"filename\":\"");
    reveal_strlit("\",\"size_kb\":");
    reveal_strlit("}");
    reveal_strlit("\"filename\":\"");
    reveal_strlit("\"size_kb\":");
    let head = "{\"type\":\"file_saved\",\"filename\":\""@;
    let middle = "\",\"size_kb\":"@;
    let size = decimal(size_kb);
    let s = saved_message(name, size_kb);
    let n = name.len() as int;
    lemma_decimal_value(size_kb);
    assert(s.len() == 33 + n + 12 + size.len() + 1);
    assert forall|i: int| 0 <= i < 33 implies #[trigger] s[i] == head[i] by {}
    assert forall|k: int| 33 <= k < 33 + n implies #[trigger] s[k] == name[k - 33] by {}
    assert forall|k: int| 33 + n <= k < 45 + n implies #[trigger] s[k] == middle[k - 33 - n] by {}
    assert forall|k: int| 45 + n <= k < s.len() - 1 implies #[trigger] s[k] == size[k - 45
        - n] by {}
    assert(s[s.len() - 1] == '}');
    // The kind of the message.
    assert(s.subrange(9, 19) =~= "file_saved"@);
    assert(occurs_at(s, "file_saved"@, 9));
    // The name.
    let key = "\"filename\":\""@;
    assert(s.subrange(21, 33) =~= key);
    assert forall|j: int| 0 <= j && j != 21 implies !occurs_at(s, key, j) by {
        if occurs_at(s, key, j) {
            let here = s.subrange(j, j + 12);
            assert(here[0] == s[j] && here[1] == s[j + 1] && here[5] == s[j + 5] && here[9] == s[j
                + 9] && here[10] == s[j + 10]);
            if j < 32 {
                assert(s[j] == head[j]);
                assert(j == 8 ==> s[13] == head[13]);
                assert(s[j + 1] == head[j + 1]);
            } else if j == 32 {
                if n < 8 {
                    assert(here[n + 1] == s[33 + n]);
                    assert(s[33 + n] == middle[0]);
                } else if n == 8 {
                    assert(s[34 + n] == middle[1]);
                } else {
                    assert(s[33int + 8] == name[8]);
                }
            } else {
                lemma_quotes_behind(s, name, size, j);
            }
        }
    }
    lemma_first_at(s, key, 0, Some(21));
    lemma_first_at(s, key, 33, None);
    let part = s.skip(33);
    assert(part[n] == s[33 + n]);
    assert forall|i: int| 0 <= i < n implies #[trigger] part[i] != '"' by {
        assert(part[i] == s[33 + i]);
    }
    lemma_up_to(part, '"', '"', n);
    assert(part.take(n) =~= name);
    // The size.
    let key = "\"size_kb\":"@;
    assert(s.subrange(35 + n, 45 + n) =~= key);
    assert forall|j: int| 0 <= j && j != 35 + n implies !occurs_at(s, key, j) by {
        if occurs_at(s, key, j) {
            let here = s.subrange(j, j + 10);
            assert(here[0] == s[j] && here[1] == s[j + 1] && here[8] == s[j + 8]);
            if j < 32 {
                assert(s[j] == head[j]);
                assert(s[j + 1] == head[j + 1]);
            } else if j == 32 {
                if n < 7 {
                    assert(here[n + 1] == s[33 + n]);
                    assert(s[33 + n] == middle[0]);
                } else if n == 7 {
                    assert(here[9] == s[34 + n]);
                    assert(s[34 + n] == middle[1]);
                } else {
                    assert(s[33int + 7] == name[7]);
                }
            } else {
                lemma_quotes_behind(s, name, size, j);
            }
        }
    }
    lemma_first_at(s, key, 0, Some(35 + n));
    lemma_first_at(s, key, 45 + n, None);
    let part = s.skip(45 + n);
    assert forall|i: int| 0 <= i < size.len() implies #[trigger] part[i] != '}' && part[i]
        != ',' by {
        assert(part[i] == s[45 + n + i]);
        assert(ascii_digit(size[i]));
    }
    assert(part[size.len() as int] == '}');
    lemma_up_to(part, '}', ',', size.len() as int);
    assert(part.take(size.len() as int) =~= size);
}

// ---------------------------------------------------------------------------
//  The samples
// ---------------------------------------------------------------------------

/// How much audio is sent at once, in milliseconds.
pub const FLUSH_MS: u64 = 250;

/// The number of samples that are sent at once.
pub open spec fn flush_size(sample_rate: int, channels: int) -> int {
    sample_rate * channels * 250 / 1000
}

/// The number of samples that are sent at once.
pub fn samples_per_flush(sample_rate: u32, channels: u16) -> (n: usize)
    ensures
        n == flush_size(sample_rate as int, channels as int) as usize,
{
    assert(sample_rate * channels * 250 <= 0xffff_ffff * 0xffff * 250) by (nonlinear_arith)
        requires
            0 <= sample_rate <= 0xffff_ffff,
            0 <= channels <= 0xffff,
    ;
    assert(sample_rate * channels <= 0xffff_ffff * 0xffff) by (nonlinear_arith)
        requires
            0 <= sample_rate <= 0xffff_ffff,
            0 <= channels <= 0xffff,
    ;
    (sample_rate as u64 * channels as u64 * FLUSH_MS / 1000) as usize
}

/// The bytes of the samples, each given by its 32 bits, the lowest byte first.
pub open spec fn bytes_of(samples: Seq<u32>) -> Seq<u8>
    decreases samples.len(),
{
    if samples.len() == 0 {
        Seq::empty()
    } else {
        bytes_of(samples.drop_last()) + le32(samples.last() as int)
    }
}

fn to_bytes(samples: &Vec<u32>) -> (v: Vec<u8>)
    ensures
        v@ == bytes_of(samples@),
{
    let mut v: Vec<u8> = Vec::new();
    let mut i: usize = 0;
    assert(bytes_of(samples@.take(0)) =~= Seq::<u8>::empty());
    while i < samples.len()
        invariant
            i <= samples@.len(),
            v@ == bytes_of(samples@.take(i as int)),
        decreases samples@.len() - i,
    {
        let n: u32 = samples[i];
        proof {
            let upto = samples@.take(i + 1);
            assert(upto.drop_last() =~= samples@.take(i as int));
            assert(upto.last() == n);
        }
        let ghost before = v@;
        v.push((n % 256) as u8);
        v.push((n / 256 % 256) as u8);
        v.push((n / 65536 % 256) as u8);
        v.push((n / 16777216 % 256) as u8);
        i += 1;
        assert(v@ =~= before + le32(n as int));
    }
    assert(samples@.take(i as int) =~= samples@);
    v
}

/// Gathers samples, each given by the 32 bits of a floating-point number,
/// until there are enough to be sent.
#[derive(Debug)]
pub struct Accumulator {
    samples: Vec<u32>,
    per_flush: usize,
}

impl Accumulator {
    /// The gathered samples.
    pub closed spec fn samples(self) -> Seq<u32> {
        self.samples@
    }

    /// How many samples are sent at once.
    pub closed spec fn per_flush(self) -> nat {
        self.per_flush as nat
    }

    pub fn new(per_flush: usize) -> (a: Accumulator)
        ensures
            a.samples() == Seq::<u32>::empty(),
            a.per_flush() == per_flush,
    {
        Accumulator { samples: Vec::new(), per_flush }
    }

    /// Takes samples in. Once there are enough, all gathered samples are to be
    /// sent, and none is left.
    pub fn take_in(&mut self, chunk: Vec<u32>) -> (r: Option<Vec<u8>>)
        ensures
            final(self).per_flush() == old(self).per_flush(),
            match r {
                Some(bytes) => {
                    &&& old(self).samples().len() + chunk@.len() >= old(self).per_flush()
                    &&& bytes@ == bytes_of(old(self).samples() + chunk@)
                    &&& final(self).samples() == Seq::<u32>::empty()
                },
                None => {
                    &&& old(self).samples().len() + chunk@.len() < old(self).per_flush()
                    &&& final(self).samples() == old(self).samples() + chunk@
                },
            },
    {
        let mut chunk = chunk;
        self.samples.append(&mut chunk);
        if self.samples.len() >= self.per_flush {
            let bytes = to_bytes(&self.samples);
            self.samples.clear();
            Some(bytes)
        } else {
            None
        }
    }

    /// The samples that are left at the end of the recording.
    pub fn finish(&mut self) -> (r: Option<Vec<u8>>)
        ensures
            final(self).per_flush() == old(self).per_flush(),
            final(self).samples() == Seq::<u32>::empty(),
            match r {
                Some(bytes) => old(self).samples().len() > 0 && bytes@ == bytes_of(
                    old(self).samples(),
                ),
                None => old(self).samples().len() == 0,
            },
    {
        if self.samples.len() > 0 {
            let bytes = to_bytes(&self.samples);
            self.samples.clear();
            Some(bytes)
        } else {
            None
        }
    }
}

/// What happens while the client records.
#[derive(Debug)]
pub enum MicEvent {
    /// Samples came from the microphone.
    Samples(Vec<u32>),
    /// Nothing came for a while.
    Quiet,
    /// The user stopped the recording.
    Stopped,
    /// The samples could not be sent.
    SendFailed,
}

/// What the client does next.
#[derive(Debug)]
pub enum ClientAction {
    /// Wait for samples.
    Listen,
    /// Send these bytes; then wait for samples.
    Send(Vec<u8>),
    /// Send what is left, if anything is, and close the connection.
    Close(Option<Vec<u8>>),
}

/// The event leads from the gathered samples to `after`, and to that action.
pub open spec fn mic_goes(
    per_flush: nat,
    before: Seq<u32>,
    event: MicEvent,
    after: Seq<u32>,
    action: ClientAction,
) -> bool {
    match event {
        MicEvent::Samples(chunk) => {
            let all = before + chunk@;
            if all.len() >= per_flush {
                &&& action matches ClientAction::Send(bytes)
                &&& bytes@ == bytes_of(all)
                &&& after == Seq::<u32>::empty()
            } else {
                action is Listen && after == all
            }
        },
        MicEvent::Quiet => action is Listen && after == before,
        MicEvent::Stopped | MicEvent::SendFailed => {
            &&& after == Seq::<u32>::empty()
            &&& action matches ClientAction::Close(rest)
            &&& match rest {
                Some(bytes) => before.len() > 0 && bytes@ == bytes_of(before),
                None => before.len() == 0,
            }
        },
    }
}

impl Accumulator {
    /// Goes on with what happened.
    pub fn next(&mut self, event: MicEvent) -> (action: ClientAction)
        ensures
            final(self).per_flush() == old(self).per_flush(),
            mic_goes(
                old(self).per_flush(),
                old(self).samples(),
                event,
                final(self).samples(),
                action,
            ),
    {
        match event {
            MicEvent::Samples(chunk) => match self.take_in(chunk) {
                Some(bytes) => ClientAction::Send(bytes),
                None => ClientAction::Listen,
            },
            MicEvent::Quiet => ClientAction::Listen,
            MicEvent::Stopped => ClientAction::Close(self.finish()),
            MicEvent::SendFailed => ClientAction::Close(self.finish()),
        }
    }
}

/// The bytes of samples in a row are those of the first ones and those of the
/// others: what is sent does not depend on where the samples are parted.
pub proof fn law_bytes_in_order(a: Seq<u32>, b: Seq<u32>)
    ensures
        bytes_of(a + b) == bytes_of(a) + bytes_of(b),
    decreases b.len(),
{
    if b.len() == 0 {
        assert(a + b =~= a);
        assert(bytes_of(a) + bytes_of(b) =~= bytes_of(a));
    } else {
        assert((a + b).drop_last() =~= a + b.drop_last());
        assert((a + b).last() == b.last());
        law_bytes_in_order(a, b.drop_last());
        assert(bytes_of(a) + bytes_of(b) =~= bytes_of(a) + bytes_of(b.drop_last()) + le32(
            b.last() as int,
        ));
    }
}

/// What has been sent once the chunks have come in one after the other, and
/// the samples that are left.
pub open spec fn gathered(per_flush: nat, chunks: Seq<Seq<u32>>) -> (Seq<u8>, Seq<u32>)
    decreases chunks.len(),
{
    if chunks.len() == 0 {
        (Seq::empty(), Seq::empty())
    } else {
        let (sent, left) = gathered(per_flush, chunks.drop_last());
        let all = left + chunks.last();
        if all.len() >= per_flush {
            (sent + bytes_of(all), Seq::empty())
        } else {
            (sent, all)
        }
    }
}

/// The chunks, one behind the other.
pub open spec fn in_a_row(chunks: Seq<Seq<u32>>) -> Seq<u32>
    decreases chunks.len(),
{
    if chunks.len() == 0 {
        Seq::empty()
    } else {
        in_a_row(chunks.drop_last()) + chunks.last()
    }
}

/// No sample is lost, doubled or put out of order: what was sent, followed by
/// what is left, is what came in.
pub proof fn law_no_sample_lost(per_flush: nat, chunks: Seq<Seq<u32>>)
    ensures
        ({
            let (sent, left) = gathered(per_flush, chunks);
            sent + bytes_of(left) == bytes_of(in_a_row(chunks))
        }),
    decreases chunks.len(),
{
    if chunks.len() > 0 {
        let rest = chunks.drop_last();
        law_no_sample_lost(per_flush, rest);
        let (sent, left) = gathered(per_flush, rest);
        let chunk = chunks.last();
        law_bytes_in_order(in_a_row(rest), chunk);
        law_bytes_in_order(left, chunk);
        assert(sent + bytes_of(left + chunk) =~= sent + bytes_of(left) + bytes_of(chunk));
        assert(sent + bytes_of(left + chunk) + Seq::<u8>::empty() =~= sent + bytes_of(
            left + chunk,
        ));
    } else {
        assert(Seq::<u8>::empty() + Seq::<u8>::empty() =~= Seq::<u8>::empty());
    }
}

/// The server reads the samples that the client sends.
pub proof fn law_samples_arrive(samples: Seq<u32>)
    ensures
        bytes_of(samples).len() == 4 * samples.len(),
        bits_of(bytes_of(samples)) == samples,
    decreases samples.len(),
{
    let bytes = bytes_of(samples);
    if samples.len() > 0 {
        let rest = samples.drop_last();
        law_samples_arrive(rest);
        let front = bytes_of(rest);
        assert(bytes == front + le32(samples.last() as int));
        assert forall|k: int| 0 <= k < samples.len() implies number32(bytes, 4 * k)
            == #[trigger] samples[k] by {
            if k < rest.len() {
                assert(bits_of(front)[k] == rest[k]);
                assert(0 <= number32(front, 4 * k) <= u32::MAX);
                assert(number32(bytes, 4 * k) == number32(front, 4 * k));
            } else {
                let part = le32(samples.last() as int);
                assert(bytes[4 * k] == part[0] && bytes[4 * k + 1] == part[1] && bytes[4 * k + 2]
                    == part[2] && bytes[4 * k + 3] == part[3]);
            }
        }
    }
    assert(bits_of(bytes) =~= samples);
}

// ---------------------------------------------------------------------------
//  The user
// ---------------------------------------------------------------------------

/// The text in lower case, as `str::to_lowercase` gives it.
pub uninterp spec fn lowercase(s: Seq<char>) -> Seq<char>;

/// Calls `str::to_lowercase`. Claimed is only that the result depends on
/// nothing but the text; what it is goes by the tables of Unicode.
#[verifier::external_body]
fn to_lowercase(s: &str) -> (r: String)
    ensures
        r@ == lowercase(s@),
{
    s.to_lowercase()
}

/// What a typed line asks for.
#[derive(Debug, Clone, Copy, PartialEq, Eq, Structural)]
pub enum Command {
    /// Leave; `stop` says whether a recording has to be stopped first.
    Quit { stop: bool },
    /// Start recording.
    Start,
    /// Stop recording.
    Stop,
}

/// The words that leave the program.
pub open spec fn leaves(word: Seq<char>) -> bool {
    word == "q"@ || word == "quit"@ || word == "exit"@
}

/// What a word asks for, given whether a recording runs.
pub open spec fn asked(word: Seq<char>, recording: bool) -> Command {
    if leaves(word) {
        Command::Quit { stop: recording }
    } else if recording {
        Command::Stop
    } else {
        Command::Start
    }
}

/// What a word asks for, given whether a recording runs.
pub fn command_of(word: &str, recording: bool) -> (c: Command)
    ensures
        c == asked(word@, recording),
{
    let word = word.to_string();
    if word == "q".to_string() || word == "quit".to_string() || word == "exit".to_string() {
        Command::Quit { stop: recording }
    } else if recording {
        Command::Stop
    } else {
        Command::Start
    }
}

/// What a typed line asks for, given whether a recording runs. White space
/// around the word and its case do not matter.
pub fn read_command(line: &str, recording: bool) -> (c: Command)
    ensures
        c == asked(lowercase(trimmed(line@)), recording),
{
    let word = trim(line);
    let lower = to_lowercase(word.as_str());
    command_of(lower.as_str(), recording)
}

/// The width of the level meter.
pub const VU_WIDTH: usize = 30;

/// The bar of the level meter.
pub fn vu_bar(filled: usize) -> (s: String)
    ensures
        s@ == Seq::new(
            30,
            |i: int|
                if i < filled {
                    '█'
                } else {
                    '░'
                },
        ),
{
    let mut s: String = String::new();
    let mut i: usize = 0;
    while i < VU_WIDTH
        invariant
            i <= 30,
            s@.len() == i,
            forall|k: int|
                0 <= k < i ==> #[trigger] s@[k] == (if k < filled {
                    '█'
                } else {
                    '░'
                }),
        decreases 30 - i,
    {
        s.push(
            if i < filled {
                '█'
            } else {
                '░'
            },
        );
        i += 1;
    }
    assert(s@ =~= Seq::new(
        30,
        |i: int|
            if i < filled {
                '█'
            } else {
                '░'
            },
    ));
    s
}

// ---------------------------------------------------------------------------
//  Laws
// ---------------------------------------------------------------------------

/// A client that is told of a written file reads its name and its size in whole
/// kilobytes.
pub proof fn law_client_told(recording: Recording, file: Saving, now: int)
    requires
        unquoted(file.name),
        !file.last,
    ensures
        recording.saved(file, true, now).1 matches Doing::Send { text } && exists|size_kb: nat|
            notice(text) == Some((file.name, #[trigger] decimal(size_kb))) && 1024 * size_kb
                <= file.data.len() < 1024 * (size_kb + 1),
{
    let size_kb: nat = file.data.len() / 1024;
    law_saved_message_read(file.name, size_kb);
    assert(notice(saved_message(file.name, size_kb)) == Some((file.name, decimal(size_kb))));
}

/// The address that a client connects to is that of the server, and tells the
/// rate and the channels of the client.
pub proof fn law_address(server: Seq<char>, sample_rate: nat, channels: nat)
    ensures
        exists|query: Seq<char>|
            address(server, sample_rate, channels) == #[trigger] (server + "/ws/audio-pcm?"@
                + query) && pieces(query, '&') == seq![
                "sr="@ + decimal(sample_rate),
                "ch="@ + decimal(channels),
            ],
{
    reveal_strlit("/ws/audio-pcm?sr=");
    reveal_strlit("/ws/audio-pcm?");
    reveal_strlit("&ch=");
    reveal_strlit("sr=");
    reveal_strlit("ch=");
    let first = "sr="@ + decimal(sample_rate);
    let second = "ch="@ + decimal(channels);
    let query = first + seq!['&'] + second;
    lemma_decimal_value(sample_rate);
    lemma_decimal_value(channels);
    assert forall|i: int| 0 <= i < first.len() implies first[i] != '&' by {
        if i >= 3 {
            assert(ascii_digit(decimal(sample_rate)[i - 3]));
        }
    }
    assert forall|i: int| 0 <= i < second.len() implies second[i] != '&' by {
        if i >= 3 {
            assert(ascii_digit(decimal(channels)[i - 3]));
        }
    }
    lemma_one_piece(first, '&');
    lemma_last_piece(first, '&', second);
    assert(pieces(query, '&') =~= seq![first, second]);
    assert(address(server, sample_rate, channels) =~= server + "/ws/audio-pcm?"@ + query);
}

/// A quarter of a second of samples of all channels is sent at once.
pub proof fn law_quarter_second(sample_rate: int, channels: int)
    requires
        0 <= sample_rate,
        0 <= channels,
    ensures
        4 * flush_size(sample_rate, channels) <= sample_rate * channels < 4 * (flush_size(
            sample_rate,
            channels,
        ) + 1),
{
    let n = sample_rate * channels;
    assert(n >= 0) by (nonlinear_arith)
        requires
            n == sample_rate * channels,
            0 <= sample_rate,
            0 <= channels,
    ;
    assert(n * 250 == sample_rate * channels * 250);
    assert(4 * (n * 250 / 1000) <= n < 4 * (n * 250 / 1000 + 1)) by (nonlinear_arith)
        requires
            n >= 0,
    ;
}

/// The certificate of a server on this machine is not asked for, nor that of
/// any server where the user says so; that of every other one is.
pub proof fn law_certificates(a: Seq<char>, b: Seq<char>, server: Seq<char>)
    ensures
        accepts_any(false, a + "localhost"@ + b),
        accepts_any(false, a + "127.0.0.1"@ + b),
        accepts_any(true, server),
        accepts_any(false, server) ==> contains(server, "localhost"@) || contains(
            server,
            "127.0.0.1"@,
        ),
{
    let n = a.len() as int;
    let local = a + "localhost"@ + b;
    assert(local.subrange(n, n + "localhost"@.len()) =~= "localhost"@);
    assert(occurs_at(local, "localhost"@, n));
    let number = a + "127.0.0.1"@ + b;
    assert(number.subrange(n, n + "127.0.0.1"@.len()) =~= "127.0.0.1"@);
    assert(occurs_at(number, "127.0.0.1"@, n));
}

/// Three words leave the program, after stopping a recording that runs; every
/// other line starts a recording, or stops the one that runs.
pub proof fn law_commands(word: Seq<char>, recording: bool)
    ensures
        asked("q"@, recording) == (Command::Quit { stop: recording }),
        asked("quit"@, recording) == (Command::Quit { stop: recording }),
        asked("exit"@, recording) == (Command::Quit { stop: recording }),
        word != "q"@ && word != "quit"@ && word != "exit"@ ==> asked(word, true) == Command::Stop
            && asked(word, false) == Command::Start,
{
}

/// One event while the client records, and what it leads to.
pub ghost struct MicMoment {
    pub before: Seq<u32>,
    pub event: MicEvent,
    pub after: Seq<u32>,
    pub action: ClientAction,
}

impl MicMoment {
    /// The samples that came.
    pub open spec fn came(self) -> Seq<u32> {
        match self.event {
            MicEvent::Samples(chunk) => chunk@,
            _ => Seq::empty(),
        }
    }

    /// The bytes that are to be sent.
    pub open spec fn goes_out(self) -> Seq<u8> {
        match self.action {
            ClientAction::Send(bytes) => bytes@,
            ClientAction::Close(Some(bytes)) => bytes@,
            _ => Seq::empty(),
        }
    }
}

/// The samples that are gathered behind the moment `i` are those before the next.
pub open spec fn mic_follows(run: Seq<MicMoment>, i: int) -> bool {
    run[i].after == run[i + 1].before
}

/// The client records from its start, moment by moment.
pub open spec fn records(run: Seq<MicMoment>, per_flush: nat) -> bool {
    &&& run.len() > 0 ==> run[0].before == Seq::<u32>::empty()
    &&& forall|i: int|
        0 <= i < run.len() ==> mic_goes(
            per_flush,
            (#[trigger] run[i]).before,
            run[i].event,
            run[i].after,
            run[i].action,
        )
    &&& forall|i: int| 0 <= i < run.len() - 1 ==> #[trigger] mic_follows(run, i)
}

/// All samples that came in the first `k` moments.
pub open spec fn all_came(run: Seq<MicMoment>, k: int) -> Seq<u32>
    decreases k,
{
    if k <= 0 {
        Seq::empty()
    } else {
        all_came(run, k - 1) + run[k - 1].came()
    }
}

/// All bytes that went out in the first `k` moments.
pub open spec fn all_out(run: Seq<MicMoment>, k: int) -> Seq<u8>
    decreases k,
{
    if k <= 0 {
        Seq::empty()
    } else {
        all_out(run, k - 1) + run[k - 1].goes_out()
    }
}

/// Whatever happens while the client records, no sample is lost: what went out,
/// followed by what is still gathered, is what came. Once the recording is
/// stopped, or sending fails, nothing is left. Nothing goes out before there is
/// enough of it.
pub proof fn law_all_samples_sent(run: Seq<MicMoment>, per_flush: nat, k: int)
    requires
        records(run, per_flush),
        0 < k <= run.len(),
    ensures
        all_out(run, k) + bytes_of(run[k - 1].after) == bytes_of(all_came(run, k)),
        run[k - 1].event is Stopped || run[k - 1].event is SendFailed ==> run[k - 1].action is Close
            && all_out(run, k) == bytes_of(all_came(run, k)),
        run[k - 1].action is Send ==> run[k - 1].goes_out().len() >= 4 * per_flush,
        run[k - 1].action is Listen ==> run[k - 1].after.len() < per_flush || run[k - 1].event
            is Quiet,
    decreases k,
{
    let m = run[k - 1];
    assert(mic_goes(per_flush, m.before, m.event, m.after, m.action));
    let none = Seq::<u32>::empty();
    assert(bytes_of(none) =~= Seq::<u8>::empty());
    let earlier = all_out(run, k - 1);
    if k > 1 {
        law_all_samples_sent(run, per_flush, k - 1);
        assert(mic_follows(run, k - 2));
    } else {
        assert(all_out(run, 0) =~= Seq::<u8>::empty());
        assert(all_came(run, 0) =~= none);
    }
    assert(earlier + bytes_of(m.before) =~= bytes_of(all_came(run, k - 1)));
    law_bytes_in_order(all_came(run, k - 1), m.came());
    law_bytes_in_order(m.before, m.came());
    law_samples_arrive(m.before + m.came());
    assert(all_out(run, k) == earlier + m.goes_out());
    match m.event {
        MicEvent::Samples(chunk) => {
            assert(earlier + bytes_of(m.before + chunk@) =~= earlier + bytes_of(m.before)
                + bytes_of(chunk@));
            if m.action is Send {
                assert(all_out(run, k) + bytes_of(m.after) =~= earlier + bytes_of(
                    m.before + chunk@,
                ));
            } else {
                assert(all_out(run, k) + bytes_of(m.after) =~= earlier + bytes_of(
                    m.before + chunk@,
                ));
            }
        },
        _ => {
            assert(all_came(run, k) =~= all_came(run, k - 1));
            assert(all_out(run, k) + bytes_of(m.after) =~= earlier + bytes_of(m.before));
        },
    }
    if m.event is Stopped || m.event is SendFailed {
        assert(all_out(run, k) + bytes_of(m.after) =~= all_out(run, k));
    }
}

} // verus!
