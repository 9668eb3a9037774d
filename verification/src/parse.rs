//! Transcripts as the speech recogniser writes them: one utterance a line,
//! each behind the time at which it starts.
//!
//! ```text
//! [00:00] first utterance
//! [00:38] second utterance
//! ```

use vstd::prelude::*;

use crate::number::{
    all_digits, ascii_digit, digit_char, digits_value, law_no_number, parse_u32, unsigned_value,
};
use crate::text::{
    blank, joined, law_trimmed_only, lemma_last_piece, lemma_one_piece, lemma_picks_agree,
    lemma_picks_next, lemma_trim_start, lemma_trimmed_part, picks, pieces, split_lines, trim,
    trim_start, trimmed, white_space, word_count, words,
};

verus! {

/// A time span in milliseconds.
pub type Millis = u128;

/// One utterance of a transcript.
#[derive(Debug, Clone)]
pub struct WhisperUtterance {
    /// Start, counted from the beginning of the audio segment.
    pub start_ms: Millis,
    /// End, counted from there too: the start of the next utterance; for the
    /// last one an estimate by how long it takes to say.
    pub end_ms: Millis,
    /// What was said.
    pub text_thai: String,
}

/// Why a transcript is refused: a time stamp whose digits are not 0 to 9.
#[derive(Debug, Clone, Copy, PartialEq, Eq, Structural)]
pub enum ParseError {
    /// The minutes of a stamp are not a number.
    Minutes,
    /// The seconds of a stamp are not a number.
    Seconds,
}

impl ParseError {
    /// The message shown for the error.
    pub open spec fn text(self) -> Seq<char> {
        match self {
            ParseError::Minutes => "Некорректное число минут"@,
            ParseError::Seconds => "Некорректное число секунд"@,
        }
    }

    /// The message shown for the error.
    pub fn message(&self) -> (s: String)
        ensures
            s@ == self.text(),
    {
        match self {
            ParseError::Minutes => "Некорректное число минут".to_string(),
            ParseError::Seconds => "Некорректное число секунд".to_string(),
        }
    }
}

// ---------------------------------------------------------------------------
//  Stamped lines
// ---------------------------------------------------------------------------

/// Whether the class `\d` of the `regex` crate takes the character `c`, one
/// beyond ASCII: the decimal digits of other scripts.
pub uninterp spec fn foreign_digit(c: char) -> bool;

/// The decimal digits of all scripts, `foreign` being those beyond ASCII.
pub open spec fn any_digit(c: char, foreign: spec_fn(char) -> bool) -> bool {
    if c <= '\u{7f}' {
        ascii_digit(c)
    } else {
        foreign(c)
    }
}

/// `line` starts with a stamp `[M:SS]` whose minutes have `k` digits.
pub open spec fn has_stamp(line: Seq<char>, k: int, foreign: spec_fn(char) -> bool) -> bool {
    &&& line.len() >= k + 5
    &&& line[0] == '['
    &&& forall|i: int| 1 <= i <= k ==> any_digit(#[trigger] line[i], foreign)
    &&& line[k + 1] == ':'
    &&& any_digit(line[k + 2], foreign)
    &&& any_digit(line[k + 3], foreign)
    &&& line[k + 4] == ']'
}

/// What stands behind the white space that `rest` must start with: at least
/// one character, and no line feed.
pub open spec fn behind_space(rest: Seq<char>) -> Option<Seq<char>> {
    let stripped = trim_start(rest);
    let text = if stripped.len() == 0 && rest.len() > 0 {
        rest.skip(rest.len() - 1)
    } else {
        stripped
    };
    if 0 < text.len() < rest.len() && !text.contains('\n') {
        Some(text)
    } else {
        None
    }
}

/// The minutes, the seconds and the text of a stamped line.
pub open spec fn stamp_parts(line: Seq<char>, foreign: spec_fn(char) -> bool) -> Option<
    (Seq<char>, Seq<char>, Seq<char>),
> {
    let k: int = if has_stamp(line, 2, foreign) {
        2
    } else {
        1
    };
    if has_stamp(line, k, foreign) {
        match behind_space(line.skip(k + 5)) {
            Some(text) => Some((line.subrange(1, k + 1), line.subrange(k + 2, k + 4), text)),
            None => None,
        }
    } else {
        None
    }
}

/// The characters of each of three strings.
pub open spec fn parts_view(r: Option<(String, String, String)>) -> Option<
    (Seq<char>, Seq<char>, Seq<char>),
> {
    match r {
        Some((a, b, c)) => Some((a@, b@, c@)),
        None => None,
    }
}

/// `regex::Regex::captures` with the pattern `^\[(\d{1,2}):(\d{2})\]\s+(.+)$`:
/// the three groups of a line that matches. A line matches when it is `[`, one
/// or two digits, `:`, two digits, `]`, white space and then some text without
/// a line feed, up to the end. The digits are those of any script. The white
/// space group takes all it can and leaves the text at least one character.
#[verifier::external_body]
fn stamp_captures(line: &str) -> (r: Option<(String, String, String)>)
    ensures
        parts_view(r) == stamp_parts(line@, |c: char| foreign_digit(c)),
{
    let re = regex::Regex::new(r"^\[(\d{1,2}):(\d{2})\]\s+(.+)$").unwrap();
    let caps = re.captures(line)?;
    Some((caps[1].to_string(), caps[2].to_string(), caps[3].to_string()))
}

// ---------------------------------------------------------------------------
//  Utterances
// ---------------------------------------------------------------------------

/// When an utterance starts, in milliseconds, and what is said.
pub ghost struct Spoken {
    pub start: nat,
    pub text: Seq<char>,
}

/// What the captured parts of a stamped line stand for.
pub open spec fn spoken(minutes: Seq<char>, seconds: Seq<char>, text: Seq<char>) -> Result<
    Spoken,
    ParseError,
> {
    match unsigned_value(minutes, u32::MAX as nat) {
        None => Err(ParseError::Minutes),
        Some(m) => match unsigned_value(seconds, u32::MAX as nat) {
            None => Err(ParseError::Seconds),
            Some(s) => Ok(Spoken { start: 1000 * (60 * m + s), text: trimmed(text) }),
        },
    }
}

/// What one line of a transcript stands for, if it is stamped.
pub open spec fn line_spoken(line: Seq<char>) -> Option<Result<Spoken, ParseError>> {
    match stamp_parts(trimmed(line), |c: char| foreign_digit(c)) {
        Some((m, s, t)) => Some(spoken(m, s, t)),
        None => None,
    }
}

/// What the stamped ones among the lines stand for, in order, or the first
/// error in them.
pub open spec fn lines_spoken(lines: Seq<Seq<char>>) -> Result<Seq<Spoken>, ParseError>
    decreases lines.len(),
{
    if lines.len() == 0 {
        Ok(Seq::empty())
    } else {
        match lines_spoken(lines.drop_last()) {
            Err(e) => Err(e),
            Ok(before) => match line_spoken(lines.last()) {
                None => Ok(before),
                Some(Err(e)) => Err(e),
                Some(Ok(u)) => Ok(before.push(u)),
            },
        }
    }
}

/// How long saying `text` takes, in milliseconds: 150 words a minute, and no
/// less than five seconds.
pub open spec fn saying_time(text: Seq<char>) -> nat {
    if 400 * words(text) < 5000 {
        5000
    } else {
        400 * words(text)
    }
}

/// When the utterance `i` ends, in milliseconds: when the next one starts; the
/// last one ends once the time that saying it takes has passed.
pub open spec fn end_time(spoken: Seq<Spoken>, i: int) -> nat {
    if i + 1 < spoken.len() {
        spoken[i + 1].start
    } else {
        spoken[i].start + saying_time(spoken[i].text)
    }
}

/// The utterances `v` are those that `spoken` describes.
pub open spec fn renders(v: Seq<WhisperUtterance>, spoken: Seq<Spoken>) -> bool {
    &&& v.len() == spoken.len()
    &&& forall|i: int|
        0 <= i < v.len() ==> (#[trigger] v[i]).start_ms == spoken[i].start && v[i].end_ms
            == end_time(spoken, i) && v[i].text_thai@ == spoken[i].text
}

/// The start and the text that the captured parts of a stamped line give.
pub fn read_stamp(minutes: &str, seconds: &str, text: &str) -> (r: Result<
    (Millis, String),
    ParseError,
>)
    ensures
        match r {
            Ok((start, said)) => start <= u64::MAX && spoken(minutes@, seconds@, text@) == Ok::<
                Spoken,
                ParseError,
            >(Spoken { start: start as nat, text: said@ }),
            Err(e) => spoken(minutes@, seconds@, text@) == Err::<Spoken, ParseError>(e),
        },
{
    match parse_u32(minutes) {
        None => Err(ParseError::Minutes),
        Some(m) => match parse_u32(seconds) {
            None => Err(ParseError::Seconds),
            Some(s) => {
                let start: Millis = 1000 * (60 * (m as u128) + s as u128);
                Ok((start, trim(text)))
            },
        },
    }
}

/// How long saying `text` takes: 150 words a minute, and no less than five
/// seconds.
pub fn estimate_end_ms(text: &str) -> (ms: Millis)
    ensures
        ms == saying_time(text@),
        ms <= 400 * usize::MAX,
{
    let n: usize = word_count(text);
    let ms: Millis = 400 * (n as u128);
    if ms < 5000 {
        5000
    } else {
        ms
    }
}

/// Sets the end of each utterance: the start of the next one, and for the last
/// one its own start and the estimate.
pub fn set_ends(v: &mut Vec<WhisperUtterance>)
    requires
        old(v)@.len() > 0 ==> old(v)@.last().start_ms <= u64::MAX,
    ensures
        final(v)@.len() == old(v)@.len(),
        forall|i: int|
            0 <= i < old(v)@.len() ==> {
                let u = #[trigger] final(v)@[i];
                &&& u.start_ms == old(v)@[i].start_ms
                &&& u.text_thai@ == old(v)@[i].text_thai@
                &&& u.end_ms == if i + 1 < old(v)@.len() {
                    old(v)@[i + 1].start_ms as nat
                } else {
                    old(v)@[i].start_ms as nat + saying_time(old(v)@[i].text_thai@)
                }
            },
{
    let n: usize = v.len();
    let mut i: usize = 0;
    while i < n
        invariant
            n == v@.len() == old(v)@.len(),
            i <= n,
            n > 0 ==> old(v)@[n - 1].start_ms <= u64::MAX,
            forall|k: int| i <= k < n ==> v@[k] == #[trigger] old(v)@[k],
            forall|k: int|
                0 <= k < i ==> {
                    let u = #[trigger] v@[k];
                    &&& u.start_ms == old(v)@[k].start_ms
                    &&& u.text_thai@ == old(v)@[k].text_thai@
                    &&& u.end_ms == if k + 1 < n {
                        old(v)@[k + 1].start_ms as nat
                    } else {
                        old(v)@[k].start_ms as nat + saying_time(old(v)@[k].text_thai@)
                    }
                },
        decreases n - i,
    {
        let end: Millis = if i + 1 < n {
            v[i + 1].start_ms
        } else {
            v[i].start_ms + estimate_end_ms(v[i].text_thai.as_str())
        };
        v[i].end_ms = end;
        i += 1;
    }
}

/// Reads a transcript. Lines without a stamp are passed over; a stamp whose
/// digits are not 0 to 9 makes the whole transcript an error.
pub fn parse_whisper_content(content: &str) -> (r: Result<Vec<WhisperUtterance>, ParseError>)
    ensures
        match r {
            Ok(v) => lines_spoken(pieces(content@, '\n')) matches Ok(s) && renders(v@, s),
            Err(e) => lines_spoken(pieces(content@, '\n')) == Err::<Seq<Spoken>, ParseError>(e),
        },
{
    let lines = split_lines(content);
    let ghost all = pieces(content@, '\n');
    let mut found: Vec<WhisperUtterance> = Vec::new();
    let ghost mut said: Seq<Spoken> = Seq::empty();
    let mut i: usize = 0;
    assert(all.take(0) =~= Seq::<Seq<char>>::empty());
    while i < lines.len()
        invariant
            i <= lines@.len(),
            lines@.len() == all.len(),
            forall|k: int| 0 <= k < lines@.len() ==> (#[trigger] lines@[k])@ == all[k],
            lines_spoken(all.take(i as int)) == Ok::<Seq<Spoken>, ParseError>(said),
            all == pieces(content@, '\n'),
            found@.len() == said.len(),
            forall|k: int|
                0 <= k < found@.len() ==> (#[trigger] found@[k]).start_ms == said[k].start
                    && found@[k].text_thai@ == said[k].text && found@[k].start_ms <= u64::MAX,
        decreases lines@.len() - i,
    {
        proof {
            assert(all.take(i + 1).drop_last() =~= all.take(i as int));
            assert(all.take(i + 1).last() == lines@[i as int]@);
        }
        let line = trim(lines[i].as_str());
        if let Some((minutes, seconds, text)) = stamp_captures(line.as_str()) {
            match read_stamp(minutes.as_str(), seconds.as_str(), text.as_str()) {
                Err(e) => {
                    proof {
                        lemma_error_stays(all, i + 1, e);
                    }
                    return Err(e);
                },
                Ok((start, said_text)) => {
                    proof {
                        said = said.push(Spoken { start: start as nat, text: said_text@ });
                    }
                    found.push(
                        WhisperUtterance { start_ms: start, end_ms: 0, text_thai: said_text },
                    );
                },
            }
        }
        i += 1;
    }
    assert(all.take(i as int) =~= all);
    set_ends(&mut found);
    assert(renders(found@, said));
    Ok(found)
}

/// Why there is no transcript.
#[derive(Debug)]
pub enum TranscriptError {
    /// The file of this path cannot be read.
    Unreadable(String),
    /// The file is not a transcript.
    Parse(ParseError),
}

impl TranscriptError {
    /// The message shown for the error.
    pub open spec fn text(self) -> Seq<char> {
        match self {
            TranscriptError::Unreadable(path) => "Не удалось прочитать "@ + path@,
            TranscriptError::Parse(e) => e.text(),
        }
    }

    /// The message shown for the error.
    pub fn message(&self) -> (s: String)
        ensures
            s@ == self.text(),
    {
        match self {
            TranscriptError::Unreadable(path) => "Не удалось прочитать ".to_string().concat(
                path.as_str(),
            ),
            TranscriptError::Parse(e) => e.message(),
        }
    }
}

/// What the file of that path says, `content` being its text where it can be
/// read.
pub open spec fn transcript_says(path: String, content: Option<String>) -> Result<
    Seq<Spoken>,
    TranscriptError,
> {
    match content {
        None => Err(TranscriptError::Unreadable(path)),
        Some(content) => match lines_spoken(pieces(content@, '\n')) {
            Ok(s) => Ok(s),
            Err(e) => Err(TranscriptError::Parse(e)),
        },
    }
}

/// Reads the transcript in the file of that path, `content` being the text of
/// the file where it can be read.
pub fn parse_whisper_txt(path: String, content: Option<String>) -> (r: Result<
    Vec<WhisperUtterance>,
    TranscriptError,
>)
    ensures
        match r {
            Ok(v) => transcript_says(path, content) matches Ok(s) && renders(v@, s),
            Err(e) => transcript_says(path, content) == Err::<Seq<Spoken>, TranscriptError>(e),
        },
{
    match content {
        None => Err(TranscriptError::Unreadable(path)),
        Some(content) => match parse_whisper_content(content.as_str()) {
            Ok(v) => Ok(v),
            Err(e) => Err(TranscriptError::Parse(e)),
        },
    }
}

/// An error among the first lines is the error of all of them.
proof fn lemma_error_stays(lines: Seq<Seq<char>>, k: int, e: ParseError)
    requires
        0 <= k <= lines.len(),
        lines_spoken(lines.take(k)) == Err::<Seq<Spoken>, ParseError>(e),
    ensures
        lines_spoken(lines) == Err::<Seq<Spoken>, ParseError>(e),
    decreases lines.len() - k,
{
    if k == lines.len() {
        assert(lines.take(k) =~= lines);
    } else {
        assert(lines.take(k + 1).drop_last() =~= lines.take(k));
        lemma_error_stays(lines, k + 1, e);
    }
}

// ---------------------------------------------------------------------------
//  Laws
// ---------------------------------------------------------------------------

/// Two decimal digits.
pub open spec fn two_digits(n: nat) -> Seq<char> {
    seq![digit_char(n / 10), digit_char(n % 10)]
}

/// A line of a transcript: `[MM:SS]`, a space and the text.
pub open spec fn stamped_line(minutes: nat, seconds: nat, text: Seq<char>) -> Seq<char> {
    seq!['['] + two_digits(minutes) + seq![':'] + two_digits(seconds) + seq![']', ' '] + text
}

/// A text that a line of a transcript can hold: not empty, with no line feed
/// in it and no white space around it.
pub open spec fn utterable(text: Seq<char>) -> bool {
    &&& text.len() > 0
    &&& !text.contains('\n')
    &&& !white_space(text[0])
    &&& !white_space(text.last())
}

proof fn lemma_two_digits(n: nat)
    requires
        n < 100,
    ensures
        all_digits(two_digits(n)),
        unsigned_value(two_digits(n), u32::MAX as nat) == Some(n),
{
    let d = two_digits(n);
    assert(ascii_digit(d[0]) && ascii_digit(d[1]));
    assert(d.drop_last() =~= seq![digit_char(n / 10)]);
    assert(seq![digit_char(n / 10)].drop_last() =~= Seq::<char>::empty());
    reveal_with_fuel(digits_value, 3);
    assert(digits_value(d) == n);
}

/// The start and the text of an utterance are read back from the line that was
/// made of them.
pub proof fn law_line_read(minutes: nat, seconds: nat, text: Seq<char>)
    requires
        minutes < 100,
        seconds < 100,
        utterable(text),
    ensures
        line_spoken(stamped_line(minutes, seconds, text)) == Some(
            Ok::<Spoken, ParseError>(Spoken { start: 1000 * (60 * minutes + seconds), text }),
        ),
{
    let line = stamped_line(minutes, seconds, text);
    let m = two_digits(minutes);
    let s = two_digits(seconds);
    let foreign = |c: char| foreign_digit(c);
    lemma_two_digits(minutes);
    lemma_two_digits(seconds);
    assert(ascii_digit(m[0]) && ascii_digit(m[1]) && ascii_digit(s[0]) && ascii_digit(s[1]));
    assert(line[0] == '[' && line[1] == m[0] && line[2] == m[1] && line[3] == ':' && line[4] == s[0]
        && line[5] == s[1] && line[6] == ']' && line[7] == ' ');
    assert(line.last() == text.last());
    lemma_trimmed_part(line, 0, line.len() as int);
    assert(line.subrange(0, line.len() as int) =~= line);
    assert(has_stamp(line, 2, foreign));
    let rest = line.skip(7);
    assert(rest[0] == ' ');
    assert(rest.skip(1) =~= text);
    assert(trim_start(text) == text);
    assert(trim_start(rest) == text);
    assert(line.subrange(1, 3) =~= m);
    assert(line.subrange(4, 6) =~= s);
    lemma_trimmed_part(text, 0, text.len() as int);
    assert(text.subrange(0, text.len() as int) =~= text);
}

/// An utterance as it is written into a transcript.
pub ghost struct Written {
    pub minutes: nat,
    pub seconds: nat,
    pub text: Seq<char>,
}

/// The lines of a transcript.
pub open spec fn written_lines(said: Seq<Written>) -> Seq<Seq<char>> {
    Seq::new(said.len(), |i: int| stamped_line(said[i].minutes, said[i].seconds, said[i].text))
}

/// What the utterances of a transcript stand for.
pub open spec fn written_spoken(said: Seq<Written>) -> Seq<Spoken> {
    Seq::new(
        said.len(),
        |i: int|
            Spoken { start: 1000 * (60 * said[i].minutes + said[i].seconds), text: said[i].text },
    )
}

/// A transcript is read back: its utterances in their order, each with its
/// start and its text.
pub proof fn law_transcript_read(said: Seq<Written>)
    requires
        forall|i: int|
            0 <= i < said.len() ==> (#[trigger] said[i]).minutes < 100 && said[i].seconds < 100
                && utterable(said[i].text),
    ensures
        lines_spoken(pieces(joined(written_lines(said), "\n"@), '\n')) == Ok::<
            Seq<Spoken>,
            ParseError,
        >(written_spoken(said)),
{
    let lines = written_lines(said);
    lemma_lines_read(said);
    if said.len() > 0 {
        assert forall|i: int| 0 <= i < lines.len() implies !(#[trigger] lines[i]).contains(
            '\n',
        ) by {
            lemma_no_line_feed(said[i]);
        }
        lemma_pieces_of_joined(lines);
    } else {
        let blank = Seq::<char>::empty();
        assert(lines =~= Seq::<Seq<char>>::empty());
        assert(joined(lines, "\n"@) =~= blank);
        assert(pieces(blank, '\n') =~= seq![blank]);
        law_blank_line_ignored(blank);
        assert(seq![blank].drop_last() =~= Seq::<Seq<char>>::empty());
        assert(lines_spoken(seq![blank]) == lines_spoken(Seq::<Seq<char>>::empty()));
    }
}

proof fn lemma_no_line_feed(w: Written)
    requires
        w.minutes < 100,
        w.seconds < 100,
        utterable(w.text),
    ensures
        !stamped_line(w.minutes, w.seconds, w.text).contains('\n'),
{
    let line = stamped_line(w.minutes, w.seconds, w.text);
    lemma_two_digits(w.minutes);
    lemma_two_digits(w.seconds);
    assert forall|i: int| 0 <= i < line.len() implies line[i] != '\n' by {
        if i >= 8 {
            assert(line[i] == w.text[i - 8]);
        } else if 1 <= i <= 2 {
            assert(line[i] == two_digits(w.minutes)[i - 1]);
            assert(ascii_digit(two_digits(w.minutes)[i - 1]));
        } else if 4 <= i <= 5 {
            assert(line[i] == two_digits(w.seconds)[i - 4]);
            assert(ascii_digit(two_digits(w.seconds)[i - 4]));
        }
    }
}

proof fn lemma_lines_read(said: Seq<Written>)
    requires
        forall|i: int|
            0 <= i < said.len() ==> (#[trigger] said[i]).minutes < 100 && said[i].seconds < 100
                && utterable(said[i].text),
    ensures
        lines_spoken(written_lines(said)) == Ok::<Seq<Spoken>, ParseError>(written_spoken(said)),
    decreases said.len(),
{
    if said.len() > 0 {
        let rest = said.drop_last();
        lemma_lines_read(rest);
        assert(written_lines(said).drop_last() =~= written_lines(rest));
        let w = said[said.len() - 1];
        law_line_read(w.minutes, w.seconds, w.text);
        assert(written_spoken(rest).push(
            Spoken { start: 1000 * (60 * w.minutes + w.seconds), text: w.text },
        ) =~= written_spoken(said));
    } else {
        assert(written_spoken(said) =~= Seq::<Spoken>::empty());
    }
}

proof fn lemma_pieces_of_joined(lines: Seq<Seq<char>>)
    requires
        lines.len() > 0,
        forall|i: int| 0 <= i < lines.len() ==> !(#[trigger] lines[i]).contains('\n'),
    ensures
        pieces(joined(lines, "\n"@), '\n') == lines,
    decreases lines.len(),
{
    reveal_strlit("\n");
    if lines.len() == 1 {
        lemma_one_piece(lines[0], '\n');
        assert(lines =~= seq![lines[0]]);
    } else {
        let rest = lines.drop_last();
        assert forall|i: int| 0 <= i < rest.len() implies !(#[trigger] rest[i]).contains(
            '\n',
        ) by {
            assert(rest[i] == lines[i]);
        }
        lemma_pieces_of_joined(rest);
        let last = lines[lines.len() - 1];
        lemma_last_piece(joined(rest, "\n"@), '\n', last);
        assert("\n"@ =~= seq!['\n']);
        assert(rest.push(last) =~= lines);
    }
}

/// An utterance ends when the next one starts, and the last one once the time
/// that saying it takes has passed. None ends before it starts, unless the next
/// one starts before it.
pub proof fn law_ends_behind_start(spoken: Seq<Spoken>, i: int)
    requires
        0 <= i < spoken.len(),
        i + 1 < spoken.len() ==> spoken[i].start <= spoken[i + 1].start,
    ensures
        end_time(spoken, i) >= spoken[i].start,
        i + 1 < spoken.len() ==> end_time(spoken, i) == spoken[i + 1].start,
        i + 1 == spoken.len() ==> {
            let taken = end_time(spoken, i) - spoken[i].start;
            &&& taken >= 5000
            &&& taken == 5000 || 150 * taken == 60_000 * words(spoken[i].text)
            &&& 150 * taken >= 60_000 * words(spoken[i].text)
        },
{
    law_saying_time(spoken[i].text);
}

/// A line without a stamp adds nothing to a transcript, wherever it stands.
pub proof fn law_unstamped_line_ignored(
    before: Seq<Seq<char>>,
    line: Seq<char>,
    behind: Seq<Seq<char>>,
)
    requires
        line_spoken(line) is None,
    ensures
        lines_spoken(before.push(line) + behind) == lines_spoken(before + behind),
    decreases behind.len(),
{
    let with = before.push(line) + behind;
    let without = before + behind;
    if behind.len() == 0 {
        assert(with =~= before.push(line));
        assert(without =~= before);
        assert(before.push(line).drop_last() =~= before);
    } else {
        law_unstamped_line_ignored(before, line, behind.drop_last());
        assert(with.drop_last() =~= before.push(line) + behind.drop_last());
        assert(without.drop_last() =~= before + behind.drop_last());
        assert(with.last() == without.last());
    }
}

/// A blank line has no stamp.
pub proof fn law_blank_line_ignored(line: Seq<char>)
    requires
        forall|i: int| 0 <= i < line.len() ==> white_space(#[trigger] line[i]),
    ensures
        line_spoken(line) is None,
{
    lemma_trimmed_part(line, line.len() as int, line.len() as int);
}

/// Only the digits of another script make a transcript an error.
pub proof fn law_plain_digits_accepted(lines: Seq<Seq<char>>)
    requires
        forall|i: int, c: char| 0 <= i < lines.len() && #[trigger] lines[i].contains(c) ==> c
            <= '\u{7f}' || !foreign_digit(c),
    ensures
        lines_spoken(lines) is Ok,
    decreases lines.len(),
{
    if lines.len() > 0 {
        let rest = lines.drop_last();
        assert forall|i: int, c: char| 0 <= i < rest.len() && #[trigger] rest[i].contains(
            c,
        ) implies c <= '\u{7f}' || !foreign_digit(c) by {
            assert(lines[i].contains(c));
        }
        law_plain_digits_accepted(rest);
        let last = lines[lines.len() - 1];
        let line = trimmed(last);
        let foreign = |c: char| foreign_digit(c);
        if line_spoken(last) is Some {
            let k: int = if has_stamp(line, 2, foreign) {
                2
            } else {
                1
            };
            assert(has_stamp(line, k, foreign));
            lemma_trimmed_inside(last);
            assert forall|i: int| 0 <= i < line.len() && any_digit(line[i], foreign) implies
                ascii_digit(#[trigger] line[i]) by {
                assert(last.contains(line[i]));
            }
            let m = line.subrange(1, k + 1);
            let s = line.subrange(k + 2, k + 4);
            assert forall|i: int| 0 <= i < m.len() implies ascii_digit(#[trigger] m[i]) by {
                assert(m[i] == line[i + 1]);
                assert(any_digit(line[i + 1], foreign));
            }
            assert(ascii_digit(s[0]) && ascii_digit(s[1]));
            lemma_short_number(m);
            lemma_short_number(s);
        }
    }
}

/// Trimming leaves no character that was not there.
proof fn lemma_trimmed_inside(s: Seq<char>)
    ensures
        forall|i: int| 0 <= i < trimmed(s).len() ==> s.contains(#[trigger] trimmed(s)[i]),
    decreases s.len(),
{
    if s.len() > 0 && white_space(s[0]) {
        let rest = s.skip(1);
        lemma_trimmed_inside(rest);
        assert forall|i: int| 0 <= i < trimmed(s).len() implies s.contains(
            #[trigger] trimmed(s)[i],
        ) by {
            let c = trimmed(rest)[i];
            let k = choose|k: int| 0 <= k < rest.len() && rest[k] == c;
            assert(s[k + 1] == c);
        }
    } else if s.len() > 0 && white_space(s.last()) {
        let rest = s.drop_last();
        lemma_trimmed_inside(rest);
        if rest.len() > 0 {
            assert(rest[0] == s[0]);
        }
        assert forall|i: int| 0 <= i < trimmed(s).len() implies s.contains(
            #[trigger] trimmed(s)[i],
        ) by {
            let c = trimmed(rest)[i];
            let k = choose|k: int| 0 <= k < rest.len() && rest[k] == c;
            assert(s[k] == c);
        }
    }
}

/// One or two digits spell a number.
proof fn lemma_short_number(d: Seq<char>)
    requires
        1 <= d.len() <= 2,
        all_digits(d),
    ensures
        unsigned_value(d, u32::MAX as nat) is Some,
{
    reveal_with_fuel(digits_value, 3);
    assert(ascii_digit(d[0]) && ascii_digit(d[d.len() - 1]));
    assert(d.drop_last().len() == 1 ==> d.drop_last()[0] == d[0]);
}

/// A line with its stamp: the minutes and the seconds in brackets, white space
/// and the text.
pub open spec fn loose_line(
    minutes: Seq<char>,
    seconds: Seq<char>,
    gap: Seq<char>,
    text: Seq<char>,
) -> Seq<char> {
    seq!['['] + minutes + seq![':'] + seconds + seq![']'] + gap + text
}

/// The parts of a line with its stamp are found.
proof fn lemma_loose_line(
    minutes: Seq<char>,
    seconds: Seq<char>,
    gap: Seq<char>,
    text: Seq<char>,
    foreign: spec_fn(char) -> bool,
)
    requires
        1 <= minutes.len() <= 2,
        seconds.len() == 2,
        forall|i: int| 0 <= i < minutes.len() ==> any_digit(#[trigger] minutes[i], foreign),
        forall|i: int| 0 <= i < seconds.len() ==> any_digit(#[trigger] seconds[i], foreign),
        gap.len() > 0,
        blank(gap),
        utterable(text),
    ensures
        stamp_parts(loose_line(minutes, seconds, gap, text), foreign) == Some(
            (minutes, seconds, text),
        ),
{
    let line = loose_line(minutes, seconds, gap, text);
    let k = minutes.len() as int;
    assert(line[0] == '[');
    assert forall|i: int| 1 <= i <= k implies any_digit(#[trigger] line[i], foreign) by {
        assert(line[i] == minutes[i - 1]);
    }
    assert(line[k + 1] == ':');
    assert(line[k + 2] == seconds[0] && line[k + 3] == seconds[1]);
    assert(line[k + 4] == ']');
    assert(has_stamp(line, k, foreign));
    if k == 1 {
        assert(!any_digit(line[2], foreign));
        assert(!has_stamp(line, 2, foreign));
    }
    assert(line.subrange(1, k + 1) =~= minutes);
    assert(line.subrange(k + 2, k + 4) =~= seconds);
    let rest = line.skip(k + 5);
    assert(rest =~= gap + text);
    assert forall|i: int| 0 <= i < gap.len() implies white_space(#[trigger] rest[i]) by {
        assert(rest[i] == gap[i]);
    }
    lemma_trim_start(rest, gap.len() as int);
    assert(rest.skip(gap.len() as int) =~= text);
}

/// However a line is spaced, the start and the text of its utterance are read:
/// the minutes in one digit or two, any white space behind the stamp and around
/// the line.
pub proof fn law_loose_line_read(
    pad: Seq<char>,
    minutes: Seq<char>,
    seconds: Seq<char>,
    gap: Seq<char>,
    text: Seq<char>,
    tail: Seq<char>,
)
    requires
        blank(pad),
        blank(tail),
        1 <= minutes.len() <= 2,
        all_digits(minutes),
        seconds.len() == 2,
        all_digits(seconds),
        gap.len() > 0,
        blank(gap),
        utterable(text),
    ensures
        line_spoken(pad + loose_line(minutes, seconds, gap, text) + tail) == Some(
            Ok::<Spoken, ParseError>(
                Spoken {
                    start: 1000 * (60 * digits_value(minutes) + digits_value(seconds)),
                    text,
                },
            ),
        ),
{
    let foreign = |c: char| foreign_digit(c);
    let line = loose_line(minutes, seconds, gap, text);
    assert(line[0] == '[' && line.last() == text.last());
    law_trimmed_only(pad, line, tail);
    assert forall|i: int| 0 <= i < minutes.len() implies any_digit(
        #[trigger] minutes[i],
        foreign,
    ) by {
        assert(ascii_digit(minutes[i]));
    }
    assert forall|i: int| 0 <= i < seconds.len() implies any_digit(
        #[trigger] seconds[i],
        foreign,
    ) by {
        assert(ascii_digit(seconds[i]));
    }
    lemma_loose_line(minutes, seconds, gap, text, foreign);
    lemma_short_number(minutes);
    lemma_short_number(seconds);
    assert(ascii_digit(minutes[0]) && ascii_digit(seconds[0]));
    let none = Seq::<char>::empty();
    assert(none + text + none =~= text);
    law_trimmed_only(none, text, none);
}

/// Digits of another script in a stamp make the line an error: in the minutes,
/// or else in the seconds.
pub proof fn law_foreign_digits_refused(
    minutes: Seq<char>,
    seconds: Seq<char>,
    gap: Seq<char>,
    text: Seq<char>,
    i: int,
)
    requires
        1 <= minutes.len() <= 2,
        seconds.len() == 2,
        forall|k: int|
            0 <= k < minutes.len() ==> ascii_digit(#[trigger] minutes[k]) || (minutes[k]
                > '\u{7f}' && foreign_digit(minutes[k])),
        forall|k: int|
            0 <= k < seconds.len() ==> ascii_digit(#[trigger] seconds[k]) || (seconds[k]
                > '\u{7f}' && foreign_digit(seconds[k])),
        gap.len() > 0,
        blank(gap),
        utterable(text),
    ensures
        0 <= i < minutes.len() && !ascii_digit(minutes[i]) ==> line_spoken(
            loose_line(minutes, seconds, gap, text),
        ) == Some(Err::<Spoken, ParseError>(ParseError::Minutes)),
        all_digits(minutes) && 0 <= i < seconds.len() && !ascii_digit(seconds[i]) ==> line_spoken(
            loose_line(minutes, seconds, gap, text),
        ) == Some(Err::<Spoken, ParseError>(ParseError::Seconds)),
{
    let foreign = |c: char| foreign_digit(c);
    let line = loose_line(minutes, seconds, gap, text);
    let none = Seq::<char>::empty();
    assert(line[0] == '[' && line.last() == text.last());
    assert(none + line + none =~= line);
    law_trimmed_only(none, line, none);
    lemma_loose_line(minutes, seconds, gap, text, foreign);
    if 0 <= i < minutes.len() && !ascii_digit(minutes[i]) {
        law_no_number(minutes, i, u32::MAX as nat);
    } else if all_digits(minutes) && 0 <= i < seconds.len() && !ascii_digit(seconds[i]) {
        lemma_short_number(minutes);
        law_no_number(seconds, i, u32::MAX as nat);
    }
}

/// A transcript holds what each of its stamped lines stands for, all of them and
/// in their order.
pub proof fn law_stamped_lines_kept(lines: Seq<Seq<char>>)
    requires
        lines_spoken(lines) is Ok,
    ensures
        exists|at: Seq<int>|
            #![trigger said_at(lines, at)]
            picks(at, lines.len() as int, |i: int| line_spoken(lines[i]) is Some)
                && lines_spoken(lines)->Ok_0 == said_at(lines, at),
{
    let at = lemma_stamped_lines(lines);
    assert(lines_spoken(lines)->Ok_0 == said_at(lines, at));
}

/// What the lines at `at` stand for.
pub open spec fn said_at(lines: Seq<Seq<char>>, at: Seq<int>) -> Seq<Spoken> {
    Seq::new(at.len(), |k: int| line_spoken(lines[at[k]])->Some_0->Ok_0)
}

proof fn lemma_stamped_lines(lines: Seq<Seq<char>>) -> (at: Seq<int>)
    requires
        lines_spoken(lines) is Ok,
    ensures
        picks(at, lines.len() as int, |i: int| line_spoken(lines[i]) is Some),
        lines_spoken(lines)->Ok_0 == said_at(lines, at),
    decreases lines.len(),
{
    let wanted = |i: int| line_spoken(lines[i]) is Some;
    if lines.len() == 0 {
        let at = Seq::<int>::empty();
        assert(lines_spoken(lines)->Ok_0 =~= said_at(lines, at));
        at
    } else {
        let rest = lines.drop_last();
        let n = rest.len() as int;
        let before = lemma_stamped_lines(rest);
        lemma_picks_agree(before, n, |i: int| line_spoken(rest[i]) is Some, wanted);
        lemma_picks_next(before, n, wanted);
        let at = if wanted(n) {
            before.push(n)
        } else {
            before
        };
        assert(lines_spoken(lines)->Ok_0 =~= said_at(lines, at)) by {
            assert forall|k: int| 0 <= k < before.len() implies #[trigger] before[k] < n && at[k]
                == before[k] by {}
        }
        at
    }
}

/// The first line that is an error makes the whole transcript that error.
pub proof fn law_first_error(lines: Seq<Seq<char>>, i: int, e: ParseError)
    requires
        0 <= i < lines.len(),
        line_spoken(lines[i]) == Some(Err::<Spoken, ParseError>(e)),
        forall|j: int| 0 <= j < i ==> !(line_spoken(#[trigger] lines[j]) matches Some(Err(_))),
    ensures
        lines_spoken(lines) == Err::<Seq<Spoken>, ParseError>(e),
    decreases lines.len(),
{
    let rest = lines.drop_last();
    if i < rest.len() {
        assert forall|j: int| 0 <= j < i implies !(line_spoken(#[trigger] rest[j]) matches Some(
            Err(_),
        )) by {
            assert(rest[j] == lines[j]);
        }
        law_first_error(rest, i, e);
    } else {
        lemma_no_error(rest);
    }
}

proof fn lemma_no_error(lines: Seq<Seq<char>>)
    requires
        forall|j: int|
            0 <= j < lines.len() ==> !(line_spoken(#[trigger] lines[j]) matches Some(Err(_))),
    ensures
        lines_spoken(lines) is Ok,
    decreases lines.len(),
{
    if lines.len() > 0 {
        let rest = lines.drop_last();
        assert forall|j: int| 0 <= j < rest.len() implies !(line_spoken(
            #[trigger] rest[j],
        ) matches Some(Err(_))) by {
            assert(rest[j] == lines[j]);
        }
        lemma_no_error(rest);
        assert(!(line_spoken(lines[lines.len() - 1]) matches Some(Err(_))));
    }
}

/// Saying a text takes as long as its words take at 150 a minute, but never
/// less than five seconds.
pub proof fn law_saying_time(text: Seq<char>)
    ensures
        saying_time(text) >= 5000,
        150 * saying_time(text) >= 60_000 * words(text),
        saying_time(text) == 5000 || 150 * saying_time(text) == 60_000 * words(text),
{
}

/// The utterances of a transcript follow each other: each ends when the next one
/// starts, and the last one once the time that saying it takes has passed.
pub proof fn law_utterances_follow(v: Seq<WhisperUtterance>, spoken: Seq<Spoken>, i: int)
    requires
        renders(v, spoken),
        0 <= i < v.len(),
    ensures
        v.len() == spoken.len(),
        v[i].start_ms == spoken[i].start,
        v[i].text_thai@ == spoken[i].text,
        i + 1 < v.len() ==> v[i].end_ms == v[i + 1].start_ms,
        i + 1 == v.len() ==> {
            let taken = v[i].end_ms - v[i].start_ms;
            &&& taken >= 5000
            &&& 150 * taken >= 60_000 * words(v[i].text_thai@)
            &&& taken == 5000 || 150 * taken == 60_000 * words(v[i].text_thai@)
        },
{
    assert(v[i].end_ms == end_time(spoken, i));
    if i + 1 < v.len() {
        assert(v[i + 1].start_ms == spoken[i + 1].start);
    } else {
        law_saying_time(spoken[i].text);
    }
}

/// What the user is told of a transcript that is refused: which number is wrong,
/// or which file cannot be read.
pub proof fn law_refused_transcript_told(path: String)
    ensures
        TranscriptError::Parse(ParseError::Minutes).text() == "Некорректное число минут"@,
        TranscriptError::Parse(ParseError::Seconds).text() == "Некорректное число секунд"@,
        TranscriptError::Unreadable(path).text() == "Не удалось прочитать "@ + path@,
        transcript_says(path, None) == Err::<Seq<Spoken>, TranscriptError>(
            TranscriptError::Unreadable(path),
        ),
{
}

} // verus!
