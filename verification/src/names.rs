//! Names of audio files: `{session}_seg{index}.webm` and `{session}_seg{index}.wav`.
//!
//! A session is named `rec_{time}` or `cli_{time}`, its segments are numbered
//! from 1, and the transcript of a segment stands beside it in a `.txt` file.

use vstd::prelude::*;

use crate::number::{
    all_digits, ascii_digit, decimal, law_decimal, law_number_read, law_padded,
    lemma_decimal_value, lemma_padded_value, padded_decimal, parse_range, push_decimal,
    push_padded, unsigned_value,
};
use crate::text::{
    contains, find_from, from_chars, lemma_last_piece, lemma_one_piece, occurs_at, pieces,
    push_str, split_ranges, to_chars,
};

verus! {

// ---------------------------------------------------------------------------
//  Paths
// ---------------------------------------------------------------------------

/// A part of a path that names something: not empty, and not `.`.
pub open spec fn names_something(part: Seq<char>) -> bool {
    part.len() > 0 && part != seq!['.']
}

/// The last part of a path, split at its slashes, that names something.
pub open spec fn last_name(parts: Seq<Seq<char>>) -> Option<Seq<char>>
    decreases parts.len(),
{
    if parts.len() == 0 {
        None
    } else if names_something(parts.last()) {
        Some(parts.last())
    } else {
        last_name(parts.drop_last())
    }
}

/// The final name in a path, if the path ends in a name and not in `..`.
pub open spec fn file_name(path: Seq<char>) -> Option<Seq<char>> {
    match last_name(pieces(path, '/')) {
        Some(name) => if name == seq!['.', '.'] {
            None
        } else {
            Some(name)
        },
        None => None,
    }
}

/// The last position of `mark` in `s`, or -1.
pub open spec fn last_position(s: Seq<char>, mark: char) -> int
    decreases s.len(),
{
    if s.len() == 0 {
        -1
    } else if s.last() == mark {
        s.len() - 1
    } else {
        last_position(s.drop_last(), mark)
    }
}

/// `name` without its extension. A dot in front is part of the name.
pub open spec fn file_stem(name: Seq<char>) -> Seq<char> {
    let dot = last_position(name, '.');
    if dot > 0 {
        name.take(dot)
    } else {
        name
    }
}

/// What stands behind the last dot of `name`, if that is not its first character.
pub open spec fn extension(name: Seq<char>) -> Option<Seq<char>> {
    let dot = last_position(name, '.');
    if dot > 0 {
        Some(name.skip(dot + 1))
    } else {
        None
    }
}

proof fn lemma_last_position(s: Seq<char>, mark: char, at: int)
    requires
        -1 <= at < s.len(),
        at >= 0 ==> s[at] == mark,
        forall|k: int| at < k < s.len() ==> s[k] != mark,
    ensures
        last_position(s, mark) == at,
    decreases s.len(),
{
    if s.len() > 0 && at < s.len() - 1 {
        assert(s.last() == s[s.len() - 1]);
        lemma_last_position(s.drop_last(), mark, at);
    }
}

/// The bounds of the final name in a path.
fn file_name_range(v: &Vec<char>) -> (r: Option<(usize, usize)>)
    ensures
        match r {
            Some((a, b)) => a <= b <= v@.len() && file_name(v@) == Some(
                v@.subrange(a as int, b as int),
            ),
            None => file_name(v@) is None,
        },
{
    let parts = split_ranges(v, '/');
    let ghost all = pieces(v@, '/');
    let mut i: usize = parts.len();
    assert(all.take(i as int) =~= all);
    while i > 0
        invariant
            i <= parts@.len(),
            parts@.len() == all.len(),
            all == pieces(v@, '/'),
            last_name(all) == last_name(all.take(i as int)),
            forall|k: int|
                0 <= k < parts@.len() ==> (#[trigger] parts@[k]).0 <= parts@[k].1 <= v@.len()
                    && v@.subrange(parts@[k].0 as int, parts@[k].1 as int) == all[k],
        decreases i,
    {
        let (a, b) = parts[i - 1];
        let ghost part = all[i - 1];
        assert(part == v@.subrange(a as int, b as int));
        assert(all.take(i as int).last() == part);
        assert(all.take(i as int).drop_last() =~= all.take(i - 1));
        let dot = b - a == 1 && v[a] == '.';
        assert(dot == (part == seq!['.'])) by {
            if dot {
                assert(part =~= seq!['.']);
            } else if part == seq!['.'] {
                assert(part.len() == 1 && part[0] == '.');
                assert(part[0] == v@[a as int]);
            }
        }
        if a < b && !dot {
            let parent = b - a == 2 && v[a] == '.' && v[a + 1] == '.';
            assert(parent == (part == seq!['.', '.'])) by {
                if parent {
                    assert(part =~= seq!['.', '.']);
                } else if part == seq!['.', '.'] {
                    assert(part.len() == 2 && part[0] == '.' && part[1] == '.');
                    assert(part[0] == v@[a as int] && part[1] == v@[a + 1]);
                }
            }
            if parent {
                return None;
            }
            return Some((a, b));
        }
        i -= 1;
    }
    assert(all.take(0) =~= Seq::<Seq<char>>::empty());
    None
}

/// The last dot between `from` and `to` that is not at `from`.
fn extension_dot(v: &Vec<char>, from: usize, to: usize) -> (r: Option<usize>)
    requires
        from <= to <= v@.len(),
    ensures
        match r {
            Some(at) => from < at < to && last_position(
                v@.subrange(from as int, to as int),
                '.',
            ) == at - from,
            None => last_position(v@.subrange(from as int, to as int), '.') <= 0,
        },
{
    let ghost s = v@.subrange(from as int, to as int);
    let mut i: usize = to;
    while i > from
        invariant
            from <= i <= to <= v@.len(),
            s == v@.subrange(from as int, to as int),
            forall|k: int| i - from <= k < s.len() ==> #[trigger] s[k] != '.',
        decreases i,
    {
        i -= 1;
        if v[i] == '.' {
            assert(s[i - from] == '.');
            proof {
                lemma_last_position(s, '.', i - from);
            }
            if i > from {
                return Some(i);
            }
            return None;
        }
    }
    proof {
        lemma_last_position(s, '.', -1);
    }
    None
}

/// The name that a path is shown by: its final name, or all of it where it
/// ends in none.
pub open spec fn shown_name(path: Seq<char>) -> Seq<char> {
    match file_name(path) {
        Some(name) => name,
        None => path,
    }
}

/// The name that a path is shown by.
pub fn short_name(path: &str) -> (s: String)
    ensures
        s@ == shown_name(path@),
{
    let v = to_chars(path);
    match file_name_range(&v) {
        Some((from, to)) => from_chars(&v, from, to),
        None => path.to_string(),
    }
}

/// The name of a file without its extension, its extension, and whether the
/// name starts with a dot.
pub fn split_name(name: &str) -> (r: (String, Option<String>, bool))
    ensures
        r.0@ == file_stem(name@),
        match r.1 {
            Some(e) => extension(name@) == Some(e@),
            None => extension(name@) is None,
        },
        r.2 == (name@.len() > 0 && name@[0] == '.'),
{
    let v = to_chars(name);
    let n: usize = v.len();
    let hidden = n > 0 && v[0] == '.';
    assert(v@.subrange(0, n as int) =~= v@);
    match extension_dot(&v, 0, n) {
        Some(dot) => {
            assert(v@.subrange(0, dot as int) =~= v@.take(dot as int));
            assert(v@.subrange(dot + 1, n as int) =~= v@.skip(dot + 1));
            (from_chars(&v, 0, dot), Some(from_chars(&v, dot + 1, n)), hidden)
        },
        None => (name.to_string(), None, hidden),
    }
}

// ---------------------------------------------------------------------------
//  Reading the name of an audio file
// ---------------------------------------------------------------------------

/// Why the name of an audio file is refused.
#[derive(Debug, Clone, Copy, PartialEq, Eq, Structural)]
pub enum FilenameError {
    /// The path ends in no name.
    NoName,
    /// The name does not hold `_seg` exactly once.
    Shape,
    /// What stands behind `_seg` is not a number of 32 bits.
    Index,
}

impl FilenameError {
    /// The message shown for the error in `filename`.
    pub open spec fn text(self, filename: Seq<char>) -> Seq<char> {
        match self {
            FilenameError::NoName => "Некорректное имя файла: "@ + filename,
            FilenameError::Shape =>
                "Имя файла должно быть вида {rec|cli}_TIMESTAMP_seg{INDEX}: "@ + filename,
            FilenameError::Index => "Индекс сегмента должен быть числом"@,
        }
    }

    /// The message shown for the error in `filename`.
    pub fn message(&self, filename: &str) -> (s: String)
        ensures
            s@ == self.text(filename@),
    {
        match self {
            FilenameError::NoName => "Некорректное имя файла: ".to_string().concat(filename),
            FilenameError::Shape =>
                "Имя файла должно быть вида {rec|cli}_TIMESTAMP_seg{INDEX}: ".to_string().concat(
                filename,
            ),
            FilenameError::Index => "Индекс сегмента должен быть числом".to_string(),
        }
    }
}

/// `pattern` stands in `s` at `at` and nowhere else.
pub open spec fn occurs_once(s: Seq<char>, pattern: Seq<char>, at: int) -> bool {
    occurs_at(s, pattern, at) && forall|k: int| k != at ==> !occurs_at(s, pattern, k)
}

/// The session and the segment number in the name of an audio file without its
/// extension: what stands before `_seg` and behind it.
pub open spec fn stem_parts(stem: Seq<char>) -> Result<(Seq<char>, nat), FilenameError> {
    if exists|at: int| occurs_once(stem, "_seg"@, at) {
        let at = choose|at: int| occurs_once(stem, "_seg"@, at);
        match unsigned_value(stem.skip(at + 4), u32::MAX as nat) {
            Some(index) => Ok((stem.take(at), index)),
            None => Err(FilenameError::Index),
        }
    } else {
        Err(FilenameError::Shape)
    }
}

/// The session and the segment number in the name of an audio file.
pub open spec fn audio_name(filename: Seq<char>) -> Result<(Seq<char>, nat), FilenameError> {
    match file_name(filename) {
        Some(name) => stem_parts(file_stem(name)),
        None => Err(FilenameError::NoName),
    }
}

/// Reads the session and the segment number from the name of an audio file,
/// such as `rec_1234567890_seg0001.webm`.
pub fn parse_audio_filename(filename: &str) -> (r: Result<(String, u32), FilenameError>)
    ensures
        match r {
            Ok((slug, index)) => audio_name(filename@) == Ok::<(Seq<char>, nat), FilenameError>(
                (slug@, index as nat),
            ),
            Err(e) => audio_name(filename@) == Err::<(Seq<char>, nat), FilenameError>(e),
        },
{
    let v = to_chars(filename);
    let (from, to) = match file_name_range(&v) {
        Some(range) => range,
        None => {
            return Err(FilenameError::NoName);
        },
    };
    let ghost name = v@.subrange(from as int, to as int);
    let end: usize = match extension_dot(&v, from, to) {
        Some(dot) => dot,
        None => to,
    };
    let ghost stem = v@.subrange(from as int, end as int);
    assert(stem =~= file_stem(name));
    let stem_text = from_chars(&v, from, end);
    let stem_chars = to_chars(stem_text.as_str());
    let mark = to_chars("_seg");
    proof {
        reveal_strlit("_seg");
    }
    let at: usize = match find_from(&stem_chars, &mark, 0) {
        Some(at) => at,
        None => {
            return Err(FilenameError::Shape);
        },
    };
    if let Some(again) = find_from(&stem_chars, &mark, at + 1) {
        proof {
            assert forall|k: int| !occurs_once(stem, "_seg"@, k) by {
                if k == at {
                    assert(occurs_at(stem, "_seg"@, again as int));
                } else {
                    assert(occurs_at(stem, "_seg"@, at as int));
                }
            }
        }
        return Err(FilenameError::Shape);
    }
    proof {
        assert(occurs_once(stem, "_seg"@, at as int));
        let chosen = choose|k: int| occurs_once(stem, "_seg"@, k);
        assert(chosen == at);
    }
    let n: usize = stem_chars.len();
    assert(stem_chars@.subrange(at + 4, n as int) =~= stem.skip(at + 4));
    match parse_range(&stem_chars, at + 4, n, 0xffff_ffff) {
        Some(index) => {
            assert(stem_chars@.subrange(0, at as int) =~= stem.take(at as int));
            Ok((from_chars(&stem_chars, 0, at), index as u32))
        },
        None => Err(FilenameError::Index),
    }
}

// ---------------------------------------------------------------------------
//  Writing the name of an audio file
// ---------------------------------------------------------------------------

/// The name of the segment `index` of a session, `extension` starting with its dot.
pub open spec fn segment_name(session: Seq<char>, index: nat, extension: Seq<char>) -> Seq<char> {
    session + "_seg"@ + padded_decimal(index, 4) + extension
}

/// The name of the segment `index` of a session, `extension` starting with its dot.
pub fn segment_file_name(session: &str, index: u32, extension: &str) -> (s: String)
    ensures
        s@ == segment_name(session@, index as nat, extension@),
{
    let mut v: Vec<char> = Vec::new();
    push_str(&mut v, session);
    push_str(&mut v, "_seg");
    push_padded(&mut v, index as u64);
    push_str(&mut v, extension);
    let n: usize = v.len();
    assert(v@ =~= segment_name(session@, index as nat, extension@));
    assert(v@.subrange(0, n as int) =~= v@);
    from_chars(&v, 0, n)
}

/// The name of a session that starts at the time `at`, `prefix` being `rec` or `cli`.
pub open spec fn session_name(prefix: Seq<char>, at: nat) -> Seq<char> {
    prefix + "_"@ + decimal(at)
}

/// The name of a session that starts at the time `at`.
pub fn session_slug(prefix: &str, at: u64) -> (s: String)
    ensures
        s@ == session_name(prefix@, at as nat),
{
    let mut v: Vec<char> = Vec::new();
    push_str(&mut v, prefix);
    push_str(&mut v, "_");
    push_decimal(&mut v, at);
    let n: usize = v.len();
    assert(v@ =~= session_name(prefix@, at as nat));
    assert(v@.subrange(0, n as int) =~= v@);
    from_chars(&v, 0, n)
}

// ---------------------------------------------------------------------------
//  Laws
// ---------------------------------------------------------------------------

/// A text that can name a session: it holds no slash and no `_seg`.
pub open spec fn names_session(session: Seq<char>) -> bool {
    !session.contains('/') && !contains(session, "_seg"@)
}

/// The ending of an audio file.
pub open spec fn names_audio(ending: Seq<char>) -> bool {
    ending == ".webm"@ || ending == ".wav"@
}

proof fn lemma_ending(ending: Seq<char>)
    requires
        names_audio(ending),
    ensures
        ending.len() > 1,
        ending[0] == '.',
        forall|i: int| 1 <= i < ending.len() ==> #[trigger] ending[i] != '.' && ending[i] != '/',
{
    reveal_strlit(".webm");
    reveal_strlit(".wav");
}

/// `_seg` stands in the name of a segment once: behind the session.
pub proof fn lemma_mark_once(session: Seq<char>, number: Seq<char>)
    requires
        !contains(session, "_seg"@),
        all_digits(number),
    ensures
        occurs_once(session + "_seg"@ + number, "_seg"@, session.len() as int),
{
    reveal_strlit("_seg");
    let mark = "_seg"@;
    let stem = session + mark + number;
    let n = session.len() as int;
    assert(stem.subrange(n, n + 4) =~= mark);
    assert forall|k: int| k != n implies !occurs_at(stem, mark, k) by {
        if occurs_at(stem, mark, k) {
            let here = stem.subrange(k, k + 4);
            assert(here[0] == stem[k] && here[1] == stem[k + 1] && here[2] == stem[k + 2]
                && here[3] == stem[k + 3]);
            if k + 4 <= n {
                assert(session.subrange(k, k + 4) =~= here);
                assert(occurs_at(session, mark, k));
            } else if k < n {
                assert(stem[n] == '_');
                assert(here[n - k] == stem[n]);
            } else if k < n + 4 {
                assert(stem[k] == mark[k - n]);
            } else {
                assert(stem[k] == number[k - n - 4]);
                assert(ascii_digit(number[k - n - 4]));
            }
        }
    }
}

/// The name of a segment names a file, and its stem is what stands before the
/// ending.
pub proof fn lemma_segment_file(session: Seq<char>, index: nat, ending: Seq<char>)
    requires
        names_session(session),
        names_audio(ending),
    ensures
        ({
            let name = segment_name(session, index, ending);
            &&& !name.contains('/')
            &&& names_something(name)
            &&& name != seq!['.', '.']
            &&& file_stem(name) == session + "_seg"@ + padded_decimal(index, 4)
            &&& extension(name) == Some(ending.skip(1))
        }),
{
    reveal_strlit("_seg");
    lemma_ending(ending);
    lemma_padded_value(index, 4, index);
    let number = padded_decimal(index, 4);
    let stem = session + "_seg"@ + number;
    let name = segment_name(session, index, ending);
    let n = session.len() as int;
    assert(name == stem + ending);
    assert forall|i: int| 0 <= i < name.len() implies name[i] != '/' by {
        if i < n {
            assert(name[i] == session[i]);
        } else if i < n + 4 {
            assert(name[i] == "_seg"@[i - n]);
        } else if i < stem.len() {
            assert(name[i] == number[i - n - 4]);
            assert(ascii_digit(number[i - n - 4]));
        } else {
            assert(name[i] == ending[i - stem.len()]);
        }
    }
    let dot = stem.len() as int;
    assert(name[dot] == '.');
    assert forall|k: int| dot < k < name.len() implies name[k] != '.' by {
        assert(name[k] == ending[k - dot]);
    }
    lemma_last_position(name, '.', dot);
    assert(name.take(dot) =~= stem);
    assert(name.skip(dot + 1) =~= ending.skip(1));
}

/// The session and the number of a segment are read back from the name that
/// was made of them.
pub proof fn law_segment_name_read(session: Seq<char>, index: nat, ending: Seq<char>)
    requires
        names_session(session),
        names_audio(ending),
        index <= u32::MAX,
    ensures
        audio_name(segment_name(session, index, ending)) == Ok::<(Seq<char>, nat), FilenameError>(
            (session, index),
        ),
{
    let name = segment_name(session, index, ending);
    let number = padded_decimal(index, 4);
    let stem = session + "_seg"@ + number;
    let n = session.len() as int;
    reveal_strlit("_seg");
    lemma_segment_file(session, index, ending);
    lemma_one_piece(name, '/');
    assert(pieces(name, '/').last() == name);
    assert(file_name(name) == Some(name));
    lemma_padded_value(index, 4, u32::MAX as nat);
    lemma_mark_once(session, number);
    assert(occurs_once(stem, "_seg"@, n));
    let at = choose|at: int| occurs_once(stem, "_seg"@, at);
    assert(at == n);
    assert(stem.take(n) =~= session);
    assert(stem.skip(n + 4) =~= number);
}

/// A path in a directory is shown by the name of the segment in it.
pub proof fn law_segment_path_shown(
    directory: Seq<char>,
    session: Seq<char>,
    index: nat,
    ending: Seq<char>,
)
    requires
        names_session(session),
        names_audio(ending),
    ensures
        shown_name(directory + seq!['/'] + segment_name(session, index, ending)) == segment_name(
            session,
            index,
            ending,
        ),
{
    let name = segment_name(session, index, ending);
    lemma_segment_file(session, index, ending);
    lemma_last_piece(directory, '/', name);
    let parts = pieces(directory, '/').push(name);
    assert(parts.last() == name);
}

/// The names given to sessions can be read back from the names of their
/// segments.
pub proof fn law_session_name(prefix: Seq<char>, at: nat)
    requires
        prefix == "rec"@ || prefix == "cli"@,
    ensures
        names_session(session_name(prefix, at)),
{
    reveal_strlit("rec");
    reveal_strlit("cli");
    reveal_strlit("_");
    reveal_strlit("_seg");
    lemma_decimal_value(at);
    let s = session_name(prefix, at);
    assert forall|i: int| 0 <= i < s.len() implies s[i] != '/' by {
        if i >= 4 {
            assert(s[i] == decimal(at)[i - 4]);
            assert(ascii_digit(decimal(at)[i - 4]));
        }
    }
    assert forall|k: int| !occurs_at(s, "_seg"@, k) by {
        if occurs_at(s, "_seg"@, k) {
            let here = s.subrange(k, k + 4);
            assert(here[0] == s[k] && here[1] == s[k + 1]);
            if k + 1 >= 4 {
                assert(s[k + 1] == decimal(at)[k - 3]);
                assert(ascii_digit(decimal(at)[k - 3]));
            }
        }
    }
}

/// A name is its stem, or its stem, a dot and its extension. The extension is
/// what stands behind the last dot, and a dot in front starts none.
pub proof fn law_stem_and_extension(name: Seq<char>)
    ensures
        match extension(name) {
            Some(e) => {
                &&& name == file_stem(name) + seq!['.'] + e
                &&& file_stem(name).len() > 0
                &&& !e.contains('.')
            },
            None => {
                &&& file_stem(name) == name
                &&& forall|i: int| 0 < i < name.len() ==> #[trigger] name[i] != '.'
            },
        },
{
    lemma_last_dot(name);
    let dot = last_position(name, '.');
    if dot > 0 {
        assert(name =~= file_stem(name) + seq!['.'] + name.skip(dot + 1));
        let e = name.skip(dot + 1);
        assert forall|i: int| 0 <= i < e.len() implies e[i] != '.' by {
            assert(e[i] == name[dot + 1 + i]);
        }
    }
}

proof fn lemma_last_dot(s: Seq<char>)
    ensures
        -1 <= last_position(s, '.') < s.len(),
        last_position(s, '.') >= 0 ==> s[last_position(s, '.')] == '.',
        forall|k: int| last_position(s, '.') < k < s.len() ==> #[trigger] s[k] != '.',
    decreases s.len(),
{
    if s.len() > 0 {
        let rest = s.drop_last();
        assert(s.last() == s[s.len() - 1]);
        lemma_last_dot(rest);
        assert forall|k: int| last_position(s, '.') < k < s.len() implies #[trigger] s[k]
            != '.' by {
            if k < rest.len() {
                assert(rest[k] == s[k]);
            }
        }
    }
}

/// The final name of a path is what stands behind its last slash. Slashes and
/// single dots at the end do not matter, and a path that ends in `..` has none.
pub proof fn law_file_name(path: Seq<char>, name: Seq<char>)
    requires
        !name.contains('/'),
        name.len() > 0,
        name != seq!['.'],
        name != seq!['.', '.'],
    ensures
        file_name(path + seq!['/'] + name) == Some(name),
        file_name(name) == Some(name),
        file_name(path + seq!['/']) == file_name(path),
        file_name(path + seq!['/', '.']) == file_name(path),
        file_name(path + seq!['/', '.', '.']) is None,
        file_name(Seq::<char>::empty()) is None,
{
    let empty = Seq::<char>::empty();
    let dot = seq!['.'];
    let parent = seq!['.', '.'];
    lemma_last_piece(path, '/', name);
    lemma_last_piece(path, '/', empty);
    lemma_last_piece(path, '/', dot);
    lemma_last_piece(path, '/', parent);
    lemma_one_piece(name, '/');
    let parts = pieces(path, '/');
    assert(parts.push(name).last() == name);
    assert(parts.push(empty).drop_last() =~= parts);
    assert(parts.push(dot).drop_last() =~= parts);
    assert(parts.push(parent).last() == parent);
    assert(parent.len() == 2 && dot.len() == 1);
    assert(seq![name].last() == name);
    assert(path + seq!['/'] + empty =~= path + seq!['/']);
    assert(path + seq!['/'] + dot =~= path + seq!['/', '.']);
    assert(path + seq!['/'] + parent =~= path + seq!['/', '.', '.']);
    assert(pieces(empty, '/') =~= seq![empty]);
    assert(seq![empty].drop_last() =~= Seq::<Seq<char>>::empty());
    assert(last_name(Seq::<Seq<char>>::empty()) is None);
}

/// A name is read as that of a segment exactly where its stem is a session,
/// `_seg` and a number, with no other `_seg` in it; each other name is refused
/// for the reason that holds.
pub proof fn law_name_parts(filename: Seq<char>)
    ensures
        match audio_name(filename) {
            Ok((session, index)) => file_name(filename) matches Some(name) && {
                let stem = file_stem(name);
                let at = session.len() as int;
                &&& stem == session + "_seg"@ + stem.skip(at + 4)
                &&& unsigned_value(stem.skip(at + 4), u32::MAX as nat) == Some(index)
                &&& forall|k: int| k != at ==> !#[trigger] occurs_at(stem, "_seg"@, k)
            },
            Err(FilenameError::NoName) => file_name(filename) is None,
            Err(FilenameError::Shape) => file_name(filename) matches Some(name) && {
                let stem = file_stem(name);
                !contains(stem, "_seg"@) || exists|j: int, k: int|
                    j < k && #[trigger] occurs_at(stem, "_seg"@, j) && #[trigger] occurs_at(
                        stem,
                        "_seg"@,
                        k,
                    )
            },
            Err(FilenameError::Index) => file_name(filename) matches Some(name) && exists|at: int|
                #[trigger] occurs_once(file_stem(name), "_seg"@, at) && unsigned_value(
                    file_stem(name).skip(at + 4),
                    u32::MAX as nat,
                ) is None,
        },
{
    reveal_strlit("_seg");
    if let Some(name) = file_name(filename) {
        let stem = file_stem(name);
        if exists|at: int| occurs_once(stem, "_seg"@, at) {
            let at = choose|at: int| occurs_once(stem, "_seg"@, at);
            assert(stem.subrange(at, at + 4) == "_seg"@);
            assert(stem =~= stem.take(at) + "_seg"@ + stem.skip(at + 4));
        } else if contains(stem, "_seg"@) {
            let at = choose|at: int| occurs_at(stem, "_seg"@, at);
            assert(!occurs_once(stem, "_seg"@, at));
            let k = choose|k: int| k != at && occurs_at(stem, "_seg"@, k);
            if k < at {
                assert(occurs_at(stem, "_seg"@, k) && occurs_at(stem, "_seg"@, at));
            } else {
                assert(occurs_at(stem, "_seg"@, at) && occurs_at(stem, "_seg"@, k));
            }
        }
    }
}

/// The name of a segment is its session, `_seg`, its number in at least four
/// digits and the ending.
pub proof fn law_segment_name_shape(session: Seq<char>, index: nat, ending: Seq<char>)
    ensures
        exists|number: Seq<char>|
            {
                &&& segment_name(session, index, ending) == #[trigger] (session + "_seg"@ + number
                    + ending)
                &&& all_digits(number)
                &&& unsigned_value(number, index) == Some(index)
                &&& number.len() >= 4
                &&& number.len() > 4 ==> number[0] != '0'
            },
{
    let number = padded_decimal(index, 4);
    lemma_padded_value(index, 4, index);
    law_padded(index, 4);
    assert(segment_name(session, index, ending) == session + "_seg"@ + number + ending);
    if number.len() > 4 {
        assert(number == decimal(index));
        if index > 0 {
            law_decimal(index, 0);
        }
    }
}

/// The name of a session is its prefix, an underscore and the time in digits.
pub proof fn law_session_name_shape(prefix: Seq<char>, at: nat)
    ensures
        exists|time: Seq<char>|
            {
                &&& session_name(prefix, at) == #[trigger] (prefix + seq!['_'] + time)
                &&& all_digits(time)
                &&& unsigned_value(time, at) == Some(at)
            },
{
    reveal_strlit("_");
    let time = decimal(at);
    lemma_decimal_value(at);
    law_number_read(at, at);
    assert("_"@ =~= seq!['_']);
    assert(session_name(prefix, at) == prefix + seq!['_'] + time);
}

/// What the user is told of a refused name: the reason and, where it is the name,
/// the name itself.
pub proof fn law_refused_name_told(filename: Seq<char>)
    ensures
        FilenameError::NoName.text(filename) == "Некорректное имя файла: "@ + filename,
        FilenameError::Shape.text(filename)
            == "Имя файла должно быть вида {rec|cli}_TIMESTAMP_seg{INDEX}: "@ + filename,
        FilenameError::Index.text(filename) == "Индекс сегмента должен быть числом"@,
{
}

} // verus!
