//! Which files of a directory are taken in, and what came of it.

use vstd::prelude::*;

use crate::names::{extension, file_stem, law_stem_and_extension, split_name};
use crate::service::{IngestError, IngestResult};
use crate::text::{
    ends_in, law_precedes, lemma_picks_agree, lemma_picks_next, lemma_precedes_transitive, picks,
    place, precedes, Place,
};

verus! {

// ---------------------------------------------------------------------------
//  The files of a directory
// ---------------------------------------------------------------------------

/// The name is that of an audio file that is not hidden.
pub open spec fn is_audio(name: Seq<char>) -> bool {
    &&& !(name.len() > 0 && name[0] == '.')
    &&& extension(name) == Some("webm"@) || extension(name) == Some("wav"@)
}

/// The name of the transcript that belongs to an audio file.
pub open spec fn txt_name(name: Seq<char>) -> Seq<char> {
    file_stem(name) + ".txt"@
}

/// The name of the transcript that belongs to the file, if it is an audio file
/// that is not hidden.
pub fn transcript_file(name: &str) -> (r: Option<String>)
    ensures
        match r {
            Some(t) => is_audio(name@) && t@ == txt_name(name@),
            None => !is_audio(name@),
        },
{
    let (stem, ext, hidden) = split_name(name);
    if hidden {
        return None;
    }
    match ext {
        Some(ext) => if ext == "webm".to_string() || ext == "wav".to_string() {
            Some(stem.concat(".txt"))
        } else {
            None
        },
        None => None,
    }
}

/// A file in the directory, and whether there is a transcript beside it.
#[derive(Debug)]
pub struct ScanEntry {
    pub name: String,
    pub has_txt: bool,
}

/// The names of the audio files that have a transcript.
pub open spec fn audio_names(entries: Seq<ScanEntry>) -> Seq<Seq<char>>
    decreases entries.len(),
{
    if entries.len() == 0 {
        Seq::empty()
    } else {
        let before = audio_names(entries.drop_last());
        if is_audio(entries.last().name@) && entries.last().has_txt {
            before.push(entries.last().name@)
        } else {
            before
        }
    }
}

/// `a` does not come behind `b`.
pub open spec fn in_order(a: Seq<char>, b: Seq<char>) -> bool {
    a == b || precedes(a, b)
}

/// The audio file of each pair.
pub open spec fn first_names(pairs: Seq<(String, String)>) -> Seq<Seq<char>> {
    pairs.map_values(|p: (String, String)| p.0@)
}

/// The pairs are in the order of the names.
pub open spec fn ordered(pairs: Seq<(String, String)>) -> bool {
    forall|i: int, j: int| 0 <= i <= j < pairs.len() ==> in_order(pairs[i].0@, pairs[j].0@)
}

/// The pairs of audio file and transcript, in the order of their names.
pub fn collect_audio_files(entries: Vec<ScanEntry>) -> (pairs: Vec<(String, String)>)
    ensures
        first_names(pairs@).to_multiset() == audio_names(entries@).to_multiset(),
        ordered(pairs@),
        forall|i: int|
            0 <= i < pairs@.len() ==> (#[trigger] pairs@[i]).1@ == txt_name(pairs@[i].0@),
{
    let ghost all = entries@;
    let mut pairs: Vec<(String, String)> = Vec::new();
    assert(first_names(pairs@) =~= audio_names(all.take(0)));
    for entry in it: entries
        invariant
            it.seq() == all,
            first_names(pairs@).to_multiset() == audio_names(
                all.take(it.index() as int),
            ).to_multiset(),
            ordered(pairs@),
            forall|i: int|
                0 <= i < pairs@.len() ==> (#[trigger] pairs@[i]).1@ == txt_name(pairs@[i].0@),
    {
        let ghost k = it.index() as int;
        proof {
            assert(all.take(k + 1).drop_last() =~= all.take(k));
            assert(all.take(k + 1).last() == entry);
        }
        if entry.has_txt {
            if let Some(txt) = transcript_file(entry.name.as_str()) {
                let ghost before = pairs@;
                let ghost names = audio_names(all.take(k));
                let ghost name = entry.name@;
                let at = insert_pair(&mut pairs, entry.name, txt);
                proof {
                    assert(first_names(pairs@) =~= first_names(before).insert(at as int, name));
                    vstd::seq_lib::to_multiset_insert(first_names(before), at as int, name);
                    vstd::seq_lib::to_multiset_build(names, name);
                }
            }
        }
    }
    assert(all.take(all.len() as int) =~= all);
    pairs
}

/// Puts a pair at its place.
fn insert_pair(pairs: &mut Vec<(String, String)>, name: String, txt: String) -> (at: usize)
    requires
        ordered(old(pairs)@),
    ensures
        at <= old(pairs)@.len(),
        final(pairs)@ == old(pairs)@.insert(at as int, (name, txt)),
        ordered(final(pairs)@),
{
    let n: usize = pairs.len();
    let ghost before = pairs@;
    let mut at: usize = n;
    while at > 0
        invariant
            at <= n,
            n == pairs@.len(),
            pairs@ == before,
            before == old(pairs)@,
            ordered(before),
            forall|i: int| at <= i < n ==> precedes(name@, (#[trigger] before[i]).0@),
        ensures
            at <= n,
            at > 0 ==> in_order(before[at - 1].0@, name@),
        decreases at,
    {
        let there = place(name.as_str(), pairs[at - 1].0.as_str());
        match there {
            Place::Before => {
                at -= 1;
            },
            Place::Same => {
                break;
            },
            Place::Behind => {
                break;
            },
        }
    }
    proof {
        let new = before.insert(at as int, (name, txt));
        assert forall|i: int| 0 <= i < at implies in_order((#[trigger] before[i]).0@, name@) by {
            assert(in_order(before[i].0@, before[at - 1].0@));
            if precedes(before[i].0@, before[at - 1].0@) && precedes(before[at - 1].0@, name@) {
                lemma_precedes_transitive(before[i].0@, before[at - 1].0@, name@);
            }
        }
        assert forall|i: int, j: int| 0 <= i <= j < new.len() implies in_order(
            new[i].0@,
            new[j].0@,
        ) by {
            let a = if i < at {
                i
            } else {
                i - 1
            };
            let b = if j < at {
                j
            } else {
                j - 1
            };
            if i != at && j != at {
                assert(new[i] == before[a] && new[j] == before[b]);
            } else if i != at {
                assert(new[i] == before[a]);
            } else if j != at {
                assert(new[j] == before[b]);
            }
        }
    }
    pairs.insert(at, (name, txt));
    at
}

// ---------------------------------------------------------------------------
//  The result of a scan
// ---------------------------------------------------------------------------

/// How many files were taken in, left alone and refused.
#[derive(Debug, Clone, Copy, PartialEq, Eq, Structural)]
pub struct Tally {
    pub ok: u64,
    pub skip: u64,
    pub err: u64,
}

impl Tally {
    pub fn new() -> (t: Tally)
        ensures
            t == (Tally { ok: 0, skip: 0, err: 0 }),
    {
        Tally { ok: 0, skip: 0, err: 0 }
    }

    /// All files.
    pub open spec fn total(self) -> int {
        self.ok + self.skip + self.err
    }

    /// With one more result.
    pub open spec fn with(self, result: Result<IngestResult, IngestError>) -> Tally {
        match result {
            Ok(IngestResult::Ingested { .. }) => Tally { ok: (self.ok + 1) as u64, ..self },
            Ok(IngestResult::Skipped { .. }) => Tally { skip: (self.skip + 1) as u64, ..self },
            Err(_) => Tally { err: (self.err + 1) as u64, ..self },
        }
    }

    /// Counts one more result.
    pub fn count(&mut self, result: &Result<IngestResult, IngestError>)
        requires
            old(self).total() < u64::MAX,
        ensures
            *final(self) == old(self).with(*result),
            final(self).total() == old(self).total() + 1,
    {
        match result {
            Ok(r) => if r.is_skipped() {
                self.skip = self.skip + 1;
            } else {
                self.ok = self.ok + 1;
            },
            Err(_) => {
                self.err = self.err + 1;
            },
        }
    }
}

// ---------------------------------------------------------------------------
//  Watching
// ---------------------------------------------------------------------------

/// A file is to be taken in: it was not yet, and there is a transcript.
pub open spec fn lets(seen: Set<Seq<char>>, name: Seq<char>, has_txt: bool) -> bool {
    !seen.contains(name) && has_txt
}

/// The files that were taken in once that one was looked at.
pub open spec fn seen_after(seen: Set<Seq<char>>, name: Seq<char>, has_txt: bool) -> Set<
    Seq<char>,
> {
    if lets(seen, name, has_txt) {
        seen.insert(name)
    } else {
        seen
    }
}

/// The files that were taken in while the directory is watched.
#[derive(Debug)]
pub struct Watch {
    seen: Vec<String>,
}

impl Watch {
    /// The names of the files.
    pub closed spec fn seen(self) -> Set<Seq<char>> {
        names_in(self.seen@)
    }

    pub fn new() -> (w: Watch)
        ensures
            w.seen() == Set::<Seq<char>>::empty(),
    {
        let w = Watch { seen: Vec::new() };
        assert(w.seen() =~= Set::<Seq<char>>::empty());
        w
    }

    /// Whether the file is to be taken in now: it was not yet, and there is a
    /// transcript.
    pub fn lets_in(&mut self, name: &str, has_txt: bool) -> (b: bool)
        ensures
            b == lets(old(self).seen(), name@, has_txt),
            final(self).seen() == seen_after(old(self).seen(), name@, has_txt),
    {
        let wanted = name.to_string();
        let n: usize = self.seen.len();
        let mut i: usize = 0;
        while i < n
            invariant
                i <= n,
                n == self.seen@.len(),
                *self == *old(self),
                wanted@ == name@,
                forall|k: int| 0 <= k < i ==> (#[trigger] self.seen@[k])@ != name@,
            decreases n - i,
        {
            if self.seen[i] == wanted {
                assert(self.seen().contains(self.seen@[i as int]@));
                return false;
            }
            i += 1;
        }
        assert(!self.seen().contains(name@));
        if has_txt {
            let ghost before = self.seen@;
            self.seen.push(wanted);
            proof {
                assert forall|t: Seq<char>|
                    names_in(self.seen@).contains(t) == names_in(before).insert(name@).contains(
                        t,
                    ) by {
                    if names_in(before).contains(t) {
                        let k = choose|k: int| 0 <= k < before.len() && (#[trigger] before[k])@ == t;
                        assert(self.seen@[k]@ == t);
                    }
                    if t == name@ {
                        assert(self.seen@[before.len() as int]@ == t);
                    }
                    if names_in(self.seen@).contains(t) {
                        let k = choose|k: int|
                            0 <= k < self.seen@.len() && (#[trigger] self.seen@[k])@ == t;
                        if k < before.len() {
                            assert(before[k]@ == t);
                        }
                    }
                }
                assert(self.seen() =~= old(self).seen().insert(name@));
            }
            return true;
        }
        false
    }
}

/// The texts in `v`.
spec fn names_in(v: Seq<String>) -> Set<Seq<char>> {
    Set::new(|t: Seq<char>| exists|k: int| 0 <= k < v.len() && (#[trigger] v[k])@ == t)
}

/// A file that is looked at, and whether it has a transcript then.
pub ghost struct Lookup {
    pub name: Seq<char>,
    pub has_txt: bool,
}

/// The files that were taken in once the first `k` lookups are done.
pub open spec fn seen_upto(seen: Set<Seq<char>>, lookups: Seq<Lookup>, k: int) -> Set<Seq<char>>
    decreases k,
{
    if k <= 0 {
        seen
    } else {
        seen_after(
            seen_upto(seen, lookups, k - 1),
            lookups[k - 1].name,
            lookups[k - 1].has_txt,
        )
    }
}

/// Whether the lookup `k` takes its file in.
pub open spec fn takes_in(seen: Set<Seq<char>>, lookups: Seq<Lookup>, k: int) -> bool {
    lets(seen_upto(seen, lookups, k), lookups[k].name, lookups[k].has_txt)
}

/// The file had a transcript at a lookup before `k`.
pub open spec fn had_txt(lookups: Seq<Lookup>, name: Seq<char>, k: int) -> bool {
    exists|j: int| 0 <= j < k && (#[trigger] lookups[j]).name == name && lookups[j].has_txt
}

proof fn lemma_seen_upto(seen: Set<Seq<char>>, lookups: Seq<Lookup>, k: int, name: Seq<char>)
    requires
        0 <= k <= lookups.len(),
    ensures
        seen_upto(seen, lookups, k).contains(name) <==> seen.contains(name) || had_txt(
            lookups,
            name,
            k,
        ),
    decreases k,
{
    if k > 0 {
        lemma_seen_upto(seen, lookups, k - 1, name);
        if had_txt(lookups, name, k - 1) {
            let j = choose|j: int|
                0 <= j < k - 1 && (#[trigger] lookups[j]).name == name && lookups[j].has_txt;
            assert(0 <= j < k && lookups[j].name == name);
        }
        if had_txt(lookups, name, k) {
            let j = choose|j: int|
                0 <= j < k && (#[trigger] lookups[j]).name == name && lookups[j].has_txt;
            assert(j < k - 1 || j == k - 1);
        }
        assert(lookups[k - 1].name == name && lookups[k - 1].has_txt ==> had_txt(
            lookups,
            name,
            k,
        ));
    }
}

/// Over any lookups, a file is taken in at the first one at which it has a
/// transcript, and at no other.
pub proof fn law_taken_in_once(seen: Set<Seq<char>>, lookups: Seq<Lookup>, k: int)
    requires
        0 <= k < lookups.len(),
    ensures
        takes_in(seen, lookups, k) <==> {
            &&& lookups[k].has_txt
            &&& !seen.contains(lookups[k].name)
            &&& !had_txt(lookups, lookups[k].name, k)
        },
        forall|j: int|
            0 <= j < k && #[trigger] takes_in(seen, lookups, j) && takes_in(seen, lookups, k)
                ==> lookups[j].name != lookups[k].name,
{
    lemma_seen_upto(seen, lookups, k, lookups[k].name);
    assert forall|j: int|
        0 <= j < k && #[trigger] takes_in(seen, lookups, j) && takes_in(
            seen,
            lookups,
            k,
        ) implies lookups[j].name != lookups[k].name by {
        if lookups[j].name == lookups[k].name {
            assert(had_txt(lookups, lookups[k].name, k));
        }
    }
}

/// Whether the user asks to stop watching: Enter was pressed since the last
/// check.
pub fn check_exit_signal(pressed: bool) -> (b: bool)
    ensures
        b == pressed,
{
    pressed
}

// ---------------------------------------------------------------------------
//  Watch mode
// ---------------------------------------------------------------------------

/// What happens in watch mode.
#[derive(Debug)]
pub enum WatchEvent {
    /// The mode starts, or the time between two polls is over; `pressed` says
    /// whether Enter was pressed since the last time.
    Woke { pressed: bool },
    /// The directory holds these files.
    Listed { entries: Vec<ScanEntry> },
    /// The directory cannot be read.
    Unreadable,
    /// The file was looked at again: whether there is a transcript beside it.
    Looked { has_txt: bool },
    /// The file was taken in, or that failed.
    Ingested { failed: bool },
}

/// What to do next in watch mode.
#[derive(Debug)]
pub enum WatchAction {
    /// The user stopped the mode.
    Stop,
    /// The mode ends because the directory cannot be read.
    Fail,
    /// List the files of the directory.
    Poll,
    /// Look whether there is a transcript beside the file.
    Look { name: String, txt: String },
    /// Take the file in.
    Ingest { name: String, txt: String },
    /// Wait for the next poll.
    Sleep,
}

/// Watch mode, as contracts speak of it.
pub ghost struct Watching {
    /// The files that were taken in.
    pub seen: Set<Seq<char>>,
    /// The pairs of audio file and transcript still to be looked at.
    pub pending: Seq<(Seq<char>, Seq<char>)>,
}

/// The pairs of audio file and transcript that the entries hold, in the order
/// of their names.
pub open spec fn collects(pairs: Seq<(Seq<char>, Seq<char>)>, entries: Seq<ScanEntry>) -> bool {
    &&& pairs.map_values(|p: (Seq<char>, Seq<char>)| p.0).to_multiset() == audio_names(
        entries,
    ).to_multiset()
    &&& forall|i: int, j: int| 0 <= i <= j < pairs.len() ==> in_order(pairs[i].0, pairs[j].0)
    &&& forall|i: int| 0 <= i < pairs.len() ==> (#[trigger] pairs[i]).1 == txt_name(pairs[i].0)
}

/// Look at the first of the pairs, or wait for the next poll.
pub open spec fn looks_next(
    pending: Seq<(Seq<char>, Seq<char>)>,
    action: WatchAction,
) -> bool {
    match action {
        WatchAction::Look { name, txt } => pending.len() > 0 && (name@, txt@) == pending[0],
        WatchAction::Sleep => pending.len() == 0,
        _ => false,
    }
}

impl Watching {
    /// The event leads from here to `after`, and to that action.
    pub open spec fn goes(self, event: WatchEvent, after: Watching, action: WatchAction) -> bool {
        match event {
            WatchEvent::Woke { pressed } => after == self && if pressed {
                action is Stop
            } else {
                action is Poll
            },
            WatchEvent::Listed { entries } => {
                &&& after.seen == self.seen
                &&& collects(after.pending, entries@)
                &&& looks_next(after.pending, action)
            },
            WatchEvent::Unreadable => after == self && action is Fail,
            WatchEvent::Looked { has_txt } => if self.pending.len() == 0 {
                after == self && action is Sleep
            } else {
                let (name, txt) = self.pending[0];
                &&& after.seen == seen_after(self.seen, name, has_txt)
                &&& after.pending == self.pending.drop_first()
                &&& if lets(self.seen, name, has_txt) {
                    &&& action matches WatchAction::Ingest { name: n, txt: t }
                    &&& n@ == name
                    &&& t@ == txt
                } else {
                    looks_next(after.pending, action)
                }
            },
            WatchEvent::Ingested { .. } => after == self && looks_next(self.pending, action),
        }
    }
}

/// Watch mode.
#[derive(Debug)]
pub struct WatchMode {
    watch: Watch,
    pending: Vec<(String, String)>,
}

/// The characters of both names of each pair.
pub open spec fn pair_texts(pairs: Seq<(String, String)>) -> Seq<(Seq<char>, Seq<char>)> {
    pairs.map_values(|p: (String, String)| (p.0@, p.1@))
}

proof fn lemma_collects(pairs: Seq<(String, String)>, entries: Seq<ScanEntry>)
    requires
        first_names(pairs).to_multiset() == audio_names(entries).to_multiset(),
        ordered(pairs),
        forall|i: int| 0 <= i < pairs.len() ==> (#[trigger] pairs[i]).1@ == txt_name(pairs[i].0@),
    ensures
        collects(pair_texts(pairs), entries),
{
    assert(pair_texts(pairs).map_values(|p: (Seq<char>, Seq<char>)| p.0) =~= first_names(pairs));
}

impl View for WatchMode {
    type V = Watching;

    closed spec fn view(&self) -> Watching {
        Watching { seen: self.watch.seen(), pending: pair_texts(self.pending@) }
    }
}

impl WatchMode {
    pub fn new() -> (w: WatchMode)
        ensures
            w@.seen == Set::<Seq<char>>::empty(),
            w@.pending == Seq::<(Seq<char>, Seq<char>)>::empty(),
    {
        let w = WatchMode { watch: Watch::new(), pending: Vec::new() };
        assert(w@.pending =~= Seq::<(Seq<char>, Seq<char>)>::empty());
        w
    }

    fn look_next(&self) -> (action: WatchAction)
        ensures
            looks_next(self@.pending, action),
    {
        if self.pending.len() == 0 {
            WatchAction::Sleep
        } else {
            WatchAction::Look { name: self.pending[0].0.clone(), txt: self.pending[0].1.clone() }
        }
    }

    /// Goes on with what happened.
    pub fn next(&mut self, event: WatchEvent) -> (action: WatchAction)
        ensures
            old(self)@.goes(event, final(self)@, action),
    {
        match event {
            WatchEvent::Woke { pressed } => if check_exit_signal(pressed) {
                WatchAction::Stop
            } else {
                WatchAction::Poll
            },
            WatchEvent::Listed { entries } => {
                self.pending = collect_audio_files(entries);
                proof {
                    lemma_collects(self.pending@, entries@);
                }
                self.look_next()
            },
            WatchEvent::Unreadable => WatchAction::Fail,
            WatchEvent::Looked { has_txt } => {
                if self.pending.len() == 0 {
                    return WatchAction::Sleep;
                }
                let ghost before = self.pending@;
                let (name, txt) = self.pending.remove(0);
                assert(pair_texts(self.pending@) =~= pair_texts(before).drop_first());
                assert(pair_texts(before)[0] == (name@, txt@));
                if self.watch.lets_in(name.as_str(), has_txt) {
                    WatchAction::Ingest { name, txt }
                } else {
                    self.look_next()
                }
            },
            WatchEvent::Ingested { .. } => self.look_next(),
        }
    }
}

/// One event in watch mode, and what it leads to.
pub ghost struct Moment {
    pub before: Watching,
    pub event: WatchEvent,
    pub after: Watching,
    pub action: WatchAction,
}

impl Moment {
    /// The file is taken in.
    pub open spec fn ingests(self, name: Seq<char>) -> bool {
        self.action matches WatchAction::Ingest { name: n, .. } && n@ == name
    }
}

/// What the moment `i` leads to is what the next one starts from.
pub open spec fn follows(run: Seq<Moment>, i: int) -> bool {
    run[i].after == run[i + 1].before
}

/// Watch mode runs from its start, moment by moment.
pub open spec fn watches(run: Seq<Moment>) -> bool {
    &&& run.len() > 0 ==> run[0].before.seen == Set::<Seq<char>>::empty()
    &&& forall|i: int|
        0 <= i < run.len() ==> (#[trigger] run[i]).before.goes(
            run[i].event,
            run[i].after,
            run[i].action,
        )
    &&& forall|i: int| 0 <= i < run.len() - 1 ==> #[trigger] follows(run, i)
}

/// The file was taken in before the moment `i`.
pub open spec fn ingested_before(run: Seq<Moment>, name: Seq<char>, i: int) -> bool {
    exists|j: int| 0 <= j < i && (#[trigger] run[j]).ingests(name)
}

proof fn lemma_seen_in_run(run: Seq<Moment>, name: Seq<char>, i: int)
    requires
        watches(run),
        0 <= i < run.len(),
    ensures
        run[i].before.seen.contains(name) <==> ingested_before(run, name, i),
    decreases i,
{
    if i > 0 {
        lemma_seen_in_run(run, name, i - 1);
        assert(follows(run, i - 1));
        let m = run[i - 1];
        assert(m.before.goes(m.event, m.after, m.action));
        if ingested_before(run, name, i - 1) {
            let j = choose|j: int| 0 <= j < i - 1 && (#[trigger] run[j]).ingests(name);
            assert(0 <= j < i && run[j].ingests(name));
        }
        if ingested_before(run, name, i) {
            let j = choose|j: int| 0 <= j < i && (#[trigger] run[j]).ingests(name);
            assert(j < i - 1 || j == i - 1);
        }
    }
}

/// Over a whole run of watch mode, a file is taken in at most once, whether or
/// not that fails, and never without a transcript; a file that has a transcript
/// when it is looked at is taken in then, unless it was before. Only the user
/// stops the mode, and only a directory that cannot be read ends it with an
/// error.
pub proof fn law_watch_mode(run: Seq<Moment>, i: int, name: Seq<char>)
    requires
        watches(run),
        0 <= i < run.len(),
    ensures
        run[i].ingests(name) ==> !ingested_before(run, name, i),
        run[i].ingests(name) ==> run[i].event == (WatchEvent::Looked { has_txt: true }),
        run[i].event == (WatchEvent::Looked { has_txt: true }) && run[i].before.pending.len() > 0
            && run[i].before.pending[0].0 == name ==> run[i].ingests(name) || ingested_before(
            run,
            name,
            i,
        ),
        run[i].action is Stop <==> run[i].event == (WatchEvent::Woke { pressed: true }),
        run[i].action is Fail <==> run[i].event is Unreadable,
        run[i].event is Ingested ==> run[i].action is Look || run[i].action is Sleep,
{
    lemma_seen_in_run(run, name, i);
    let m = run[i];
    assert(m.before.goes(m.event, m.after, m.action));
}

// ---------------------------------------------------------------------------
//  A single scan
// ---------------------------------------------------------------------------

/// What happened in a single scan.
#[derive(Debug)]
pub enum ScanEvent {
    /// The directory holds these files.
    Listed { entries: Vec<ScanEntry> },
    /// The directory cannot be read.
    Unreadable,
    /// What came of the file that was to be taken in.
    Ingested { result: Result<IngestResult, IngestError> },
}

/// What to do next in a single scan.
#[derive(Debug)]
pub enum ScanAction {
    /// The scan ends because the directory cannot be read.
    Fail,
    /// The scan ends because there is nothing to take in.
    Empty,
    /// Take in the file, which is the one of that number, counted from 1.
    Ingest { number: usize, name: String, txt: String },
    /// The scan is over, and came to that.
    Report { tally: Tally },
}

/// A single scan, as contracts speak of it.
pub ghost struct Scanning {
    /// The pairs of audio file and transcript of the directory.
    pub pairs: Seq<(Seq<char>, Seq<char>)>,
    /// How many of them are done with.
    pub taken: nat,
    /// What came of these.
    pub tally: Tally,
}

impl Scanning {
    /// Every pair that is done with was counted once.
    pub open spec fn valid(self) -> bool {
        self.tally.total() == self.taken <= self.pairs.len() <= usize::MAX
    }

    /// Take in the next pair, or report.
    pub open spec fn takes_next(self, action: ScanAction) -> bool {
        match action {
            ScanAction::Ingest { number, name, txt } => {
                &&& self.taken < self.pairs.len()
                &&& number == self.taken + 1
                &&& (name@, txt@) == self.pairs[self.taken as int]
            },
            ScanAction::Report { tally } => self.taken == self.pairs.len() && tally == self.tally,
            _ => false,
        }
    }

    /// The event leads from here to `after`, and to that action.
    pub open spec fn goes(self, event: ScanEvent, after: Scanning, action: ScanAction) -> bool {
        match event {
            ScanEvent::Listed { entries } => {
                &&& collects(after.pairs, entries@)
                &&& after.taken == 0
                &&& after.tally == (Tally { ok: 0, skip: 0, err: 0 })
                &&& if after.pairs.len() == 0 {
                    action is Empty
                } else {
                    after.takes_next(action)
                }
            },
            ScanEvent::Unreadable => after == self && action is Fail,
            ScanEvent::Ingested { result } => {
                &&& after == if self.taken < self.pairs.len() {
                    Scanning {
                        taken: self.taken + 1,
                        tally: self.tally.with(result),
                        ..self
                    }
                } else {
                    self
                }
                &&& after.takes_next(action)
            },
        }
    }
}

/// A single scan.
#[derive(Debug)]
pub struct ScanMode {
    pairs: Vec<(String, String)>,
    taken: usize,
    tally: Tally,
}

impl View for ScanMode {
    type V = Scanning;

    closed spec fn view(&self) -> Scanning {
        Scanning { pairs: pair_texts(self.pairs@), taken: self.taken as nat, tally: self.tally }
    }
}

impl ScanMode {
    pub fn new() -> (m: ScanMode)
        ensures
            m@.pairs == Seq::<(Seq<char>, Seq<char>)>::empty(),
            m@.valid(),
    {
        let m = ScanMode { pairs: Vec::new(), taken: 0, tally: Tally::new() };
        assert(m@.pairs =~= Seq::<(Seq<char>, Seq<char>)>::empty());
        m
    }

    /// How many pairs there are.
    pub fn found(&self) -> (n: usize)
        ensures
            n == self@.pairs.len(),
    {
        self.pairs.len()
    }

    fn take_next(&self) -> (action: ScanAction)
        requires
            self@.valid(),
        ensures
            self@.takes_next(action),
    {
        if self.taken < self.pairs.len() {
            assert(pair_texts(self.pairs@)[self.taken as int] == self@.pairs[self@.taken as int]);
            let (name, txt) = &self.pairs[self.taken];
            ScanAction::Ingest { number: self.taken + 1, name: name.clone(), txt: txt.clone() }
        } else {
            ScanAction::Report { tally: self.tally }
        }
    }

    /// Goes on with what happened.
    pub fn next(&mut self, event: ScanEvent) -> (action: ScanAction)
        requires
            old(self)@.valid(),
        ensures
            old(self)@.goes(event, final(self)@, action),
            final(self)@.valid(),
    {
        match event {
            ScanEvent::Listed { entries } => {
                self.pairs = collect_audio_files(entries);
                self.taken = 0;
                self.tally = Tally::new();
                proof {
                    lemma_collects(self.pairs@, entries@);
                }
                if self.pairs.len() == 0 {
                    ScanAction::Empty
                } else {
                    self.take_next()
                }
            },
            ScanEvent::Unreadable => ScanAction::Fail,
            ScanEvent::Ingested { result } => {
                if self.taken < self.pairs.len() {
                    self.taken = self.taken + 1;
                    self.tally.count(&result);
                }
                self.take_next()
            },
        }
    }
}

/// One event in a single scan, and what it leads to.
pub ghost struct ScanMoment {
    pub before: Scanning,
    pub event: ScanEvent,
    pub after: Scanning,
    pub action: ScanAction,
}

impl ScanMoment {
    /// The pair is taken in, as the one of that number.
    pub open spec fn ingests(self, pair: (Seq<char>, Seq<char>), number: int) -> bool {
        self.action matches ScanAction::Ingest { number: n, name, txt } && n == number && (
            name@,
            txt@,
        ) == pair
    }
}

/// The moment behind `i` brings what came of the file that was to be taken in
/// at `i`.
pub open spec fn resumes(run: Seq<ScanMoment>, i: int) -> bool {
    &&& run[i].after == run[i + 1].before
    &&& run[i].action is Ingest
    &&& run[i + 1].event is Ingested
}

/// A scan of the directory that holds these files, from its start, with one
/// result for each file that is to be taken in.
pub open spec fn scans(run: Seq<ScanMoment>, entries: Vec<ScanEntry>) -> bool {
    &&& run.len() > 0
    &&& run[0].event == (ScanEvent::Listed { entries })
    &&& forall|i: int|
        0 <= i < run.len() ==> (#[trigger] run[i]).before.goes(
            run[i].event,
            run[i].after,
            run[i].action,
        ) && run[i].after.valid()
    &&& forall|i: int| 0 <= i < run.len() - 1 ==> #[trigger] resumes(run, i)
}

/// What came of the first `k` files.
pub open spec fn tally_of(run: Seq<ScanMoment>, k: int) -> Tally
    decreases k,
{
    if k <= 0 {
        Tally { ok: 0, skip: 0, err: 0 }
    } else {
        tally_of(run, k - 1).with(run[k].event->result)
    }
}

/// As far as a scan has come, it has taken in the pairs of the directory one
/// after the other, each once and under its number, whatever came of the ones
/// before, and counted every result once.
pub proof fn law_scan_in_order(run: Seq<ScanMoment>, entries: Vec<ScanEntry>, k: int)
    requires
        scans(run, entries),
        0 <= k < run.len(),
    ensures
        run[k].after.pairs == run[0].after.pairs,
        collects(run[k].after.pairs, entries@),
        run[k].after.taken == k <= run[k].after.pairs.len(),
        run[k].after.tally == tally_of(run, k),
        run[k].after.tally.total() == k,
        k < run[k].after.pairs.len() ==> run[k].ingests(run[k].after.pairs[k], k + 1),
    decreases k,
{
    let m = run[k];
    assert(m.before.goes(m.event, m.after, m.action));
    if k > 0 {
        law_scan_in_order(run, entries, k - 1);
        assert(resumes(run, k - 1));
    }
}

/// A scan that is over, because its last step takes nothing in, has taken in
/// every pair of the directory, in their order, and reports as many results as
/// there are pairs. Where there is no pair it ends at once.
pub proof fn law_scan_complete(run: Seq<ScanMoment>, entries: Vec<ScanEntry>)
    requires
        scans(run, entries),
        !(run.last().action is Ingest),
    ensures
        ({
            let pairs = run[0].after.pairs;
            &&& collects(pairs, entries@)
            &&& run.len() == pairs.len() + 1
            &&& forall|j: int|
                0 <= j < pairs.len() ==> (#[trigger] run[j]).ingests(pairs[j], j + 1)
            &&& if pairs.len() == 0 {
                run.last().action is Empty
            } else {
                run.last().action matches ScanAction::Report { tally } && tally == tally_of(
                    run,
                    pairs.len() as int,
                ) && tally.total() == pairs.len()
            }
        }),
{
    let pairs = run[0].after.pairs;
    let last = run.len() - 1;
    law_scan_in_order(run, entries, last);
    let m = run[last];
    assert(m.before.goes(m.event, m.after, m.action));
    if last > 0 {
        assert(resumes(run, last - 1));
    }
    assert forall|j: int| 0 <= j < pairs.len() implies (#[trigger] run[j]).ingests(
        pairs[j],
        j + 1,
    ) by {
        law_scan_in_order(run, entries, j);
    }
}

// ---------------------------------------------------------------------------
//  Laws on the files of a directory
// ---------------------------------------------------------------------------

/// An audio file is one whose name ends in `.webm` or `.wav` and does not start
/// with a dot. Its transcript has the same name with `.txt` in the place of the
/// ending.
pub proof fn law_audio_file(name: Seq<char>)
    ensures
        is_audio(name) <==> name.len() > 0 && name[0] != '.' && (ends_in(name, ".webm"@)
            || ends_in(name, ".wav"@)),
        is_audio(name) && ends_in(name, ".webm"@) ==> txt_name(name) == name.take(name.len() - 5)
            + ".txt"@,
        is_audio(name) && ends_in(name, ".wav"@) ==> txt_name(name) == name.take(name.len() - 4)
            + ".txt"@,
{
    reveal_strlit(".webm");
    reveal_strlit(".wav");
    reveal_strlit("webm");
    reveal_strlit("wav");
    law_stem_and_extension(name);
    if let Some(e) = extension(name) {
        let stem = file_stem(name);
        assert(name == stem + seq!['.'] + e);
        assert(name[stem.len() as int] == '.');
        if e == "webm"@ {
            assert(name.skip(name.len() - 5) =~= ".webm"@);
            assert(name.take(name.len() - 5) =~= stem);
            assert(name.last() == 'm');
            if ends_in(name, ".wav"@) {
                assert(name.skip(name.len() - 4)[3] == name.last());
            }
        }
        if e == "wav"@ {
            assert(name.skip(name.len() - 4) =~= ".wav"@);
            assert(name.take(name.len() - 4) =~= stem);
            assert(name.last() == 'v');
            if ends_in(name, ".webm"@) {
                assert(name.skip(name.len() - 5)[4] == name.last());
            }
        }
    }
    if name.len() > 0 && name[0] != '.' {
        lemma_ending_is_extension(name, ".webm"@, "webm"@);
        lemma_ending_is_extension(name, ".wav"@, "wav"@);
    }
}

proof fn lemma_ending_is_extension(name: Seq<char>, ending: Seq<char>, word: Seq<char>)
    requires
        name.len() > 0,
        name[0] != '.',
        ending =~= seq!['.'] + word,
        !word.contains('.'),
    ensures
        ends_in(name, ending) ==> extension(name) == Some(word),
{
    if ends_in(name, ending) {
        law_stem_and_extension(name);
        let at = name.len() - ending.len();
        let tail = name.skip(at);
        assert(tail[0] == name[at]);
        assert(at > 0);
        match extension(name) {
            Some(e) => {
                let dot = file_stem(name).len() as int;
                assert(name[dot] == '.');
                if dot < at {
                    assert(e[at - dot - 1] == name[at]);
                    assert(e.contains('.'));
                } else if dot > at {
                    assert(tail[dot - at] == name[dot]);
                    assert(word[dot - at - 1] == '.');
                    assert(word.contains('.'));
                }
                assert(e =~= word) by {
                    assert(e.len() == word.len());
                    assert forall|i: int| 0 <= i < e.len() implies e[i] == word[i] by {
                        assert(e[i] == name[at + 1 + i]);
                        assert(tail[1 + i] == name[at + 1 + i]);
                    }
                }
            },
            None => {
                assert(name[at] != '.');
            },
        }
    }
}

/// The names of the entries at `at`.
pub open spec fn names_at(entries: Seq<ScanEntry>, at: Seq<int>) -> Seq<Seq<char>> {
    Seq::new(at.len(), |k: int| entries[at[k]].name@)
}

proof fn lemma_audio_names(entries: Seq<ScanEntry>) -> (at: Seq<int>)
    ensures
        picks(
            at,
            entries.len() as int,
            |k: int| is_audio(entries[k].name@) && entries[k].has_txt,
        ),
        audio_names(entries) == names_at(entries, at),
    decreases entries.len(),
{
    let wanted = |k: int| is_audio(entries[k].name@) && entries[k].has_txt;
    if entries.len() == 0 {
        let at = Seq::<int>::empty();
        assert(audio_names(entries) =~= names_at(entries, at));
        at
    } else {
        let rest = entries.drop_last();
        let n = rest.len() as int;
        let before = lemma_audio_names(rest);
        lemma_picks_agree(
            before,
            n,
            |k: int| is_audio(rest[k].name@) && rest[k].has_txt,
            wanted,
        );
        lemma_picks_next(before, n, wanted);
        let at = if wanted(n) {
            before.push(n)
        } else {
            before
        };
        assert(audio_names(entries) =~= names_at(entries, at)) by {
            assert forall|k: int| 0 <= k < before.len() implies #[trigger] before[k] < n && at[k]
                == before[k] by {}
        }
        at
    }
}

/// The pairs are all the audio files that have a transcript, each once, in the
/// order of their names, and each with the name of its transcript.
pub proof fn law_pairs_complete(pairs: Seq<(Seq<char>, Seq<char>)>, entries: Seq<ScanEntry>)
    requires
        collects(pairs, entries),
    ensures
        exists|at: Seq<int>|
            #![trigger names_at(entries, at)]
            picks(
                at,
                entries.len() as int,
                |k: int| is_audio(entries[k].name@) && entries[k].has_txt,
            ) && pairs.len() == at.len() && pairs.map_values(
                |p: (Seq<char>, Seq<char>)| p.0,
            ).to_multiset() == names_at(entries, at).to_multiset(),
        forall|i: int, j: int|
            #![trigger pairs[i], pairs[j]]
            0 <= i < j < pairs.len() ==> !precedes(pairs[j].0, pairs[i].0),
        forall|i: int| 0 <= i < pairs.len() ==> (#[trigger] pairs[i]).1 == txt_name(pairs[i].0),
{
    let at = lemma_audio_names(entries);
    let names = pairs.map_values(|p: (Seq<char>, Seq<char>)| p.0);
    vstd::seq_lib::to_multiset_len(names);
    vstd::seq_lib::to_multiset_len(audio_names(entries));
    assert(names_at(entries, at) == audio_names(entries));
    assert forall|i: int, j: int|
        #![trigger pairs[i], pairs[j]]
        0 <= i < j < pairs.len() implies !precedes(pairs[j].0, pairs[i].0) by {
        assert(in_order(pairs[i].0, pairs[j].0));
        law_precedes(pairs[i].0, pairs[j].0);
        if pairs[i].0 == pairs[j].0 {
            law_precedes(pairs[i].0, pairs[i].0);
        }
    }
}

/// The report of a scan tells how many files were taken in, how many were left
/// alone and how many were refused.
pub proof fn law_report(run: Seq<ScanMoment>, entries: Vec<ScanEntry>, k: int)
    requires
        scans(run, entries),
        0 <= k < run.len(),
    ensures
        exists|at: Seq<int>|
            #![trigger at.len()]
            picks(at, k, |j: int| run[j + 1].event->result matches Ok(IngestResult::Ingested { .. }))
                && run[k].after.tally.ok == at.len(),
        exists|at: Seq<int>|
            #![trigger at.len()]
            picks(at, k, |j: int| run[j + 1].event->result matches Ok(IngestResult::Skipped { .. }))
                && run[k].after.tally.skip == at.len(),
        exists|at: Seq<int>|
            #![trigger at.len()]
            picks(at, k, |j: int| run[j + 1].event->result is Err) && run[k].after.tally.err
                == at.len(),
{
    law_scan_in_order(run, entries, k);
    let (a, b, c) = lemma_tally(run, entries, k);
    assert(a.len() == run[k].after.tally.ok);
    assert(b.len() == run[k].after.tally.skip);
    assert(c.len() == run[k].after.tally.err);
}

proof fn lemma_tally(run: Seq<ScanMoment>, entries: Vec<ScanEntry>, k: int) -> (r: (
    Seq<int>,
    Seq<int>,
    Seq<int>,
))
    requires
        scans(run, entries),
        0 <= k < run.len(),
    ensures
        picks(r.0, k, |j: int| run[j + 1].event->result matches Ok(IngestResult::Ingested { .. })),
        picks(r.1, k, |j: int| run[j + 1].event->result matches Ok(IngestResult::Skipped { .. })),
        picks(r.2, k, |j: int| run[j + 1].event->result is Err),
        tally_of(run, k).ok == r.0.len(),
        tally_of(run, k).skip == r.1.len(),
        tally_of(run, k).err == r.2.len(),
    decreases k,
{
    let ok = |j: int| run[j + 1].event->result matches Ok(IngestResult::Ingested { .. });
    let skip = |j: int| run[j + 1].event->result matches Ok(IngestResult::Skipped { .. });
    let err = |j: int| run[j + 1].event->result is Err;
    if k == 0 {
        let none = Seq::<int>::empty();
        (none, none, none)
    } else {
        let (a, b, c) = lemma_tally(run, entries, k - 1);
        law_scan_in_order(run, entries, k - 1);
        law_scan_in_order(run, entries, k);
        lemma_picks_next(a, k - 1, ok);
        lemma_picks_next(b, k - 1, skip);
        lemma_picks_next(c, k - 1, err);
        assert(run[k].after.valid());
        let result = run[k].event->result;
        match result {
            Ok(IngestResult::Ingested { .. }) => (a.push(k - 1), b, c),
            Ok(IngestResult::Skipped { .. }) => (a, b.push(k - 1), c),
            Err(_) => (a, b, c.push(k - 1)),
        }
    }
}

/// How many files were looked at behind the moment `i`, up to and with `j`.
pub open spec fn looked(run: Seq<Moment>, i: int, j: int) -> nat
    decreases j - i,
{
    if j <= i {
        0
    } else {
        looked(run, i, j - 1) + (if run[j].event is Looked {
            1nat
        } else {
            0nat
        })
    }
}

/// Every pair of a poll is looked at, one after the other and none twice, before
/// the mode waits for the next poll. What is taken in is handed over with the
/// name of its transcript.
pub proof fn law_whole_poll(run: Seq<Moment>, i: int, j: int)
    requires
        watches(run),
        0 <= i <= j < run.len(),
        run[i].event is Listed,
        forall|k: int| i < k <= j ==> !((#[trigger] run[k]).event is Listed),
        looked(run, i, j) <= run[i].after.pending.len(),
    ensures
        collects(run[i].after.pending, run[i].event->entries@),
        run[j].after.pending == run[i].after.pending.skip(looked(run, i, j) as int),
        run[j].action matches WatchAction::Look { name, txt } ==> {
            &&& looked(run, i, j) < run[i].after.pending.len()
            &&& (name@, txt@) == run[i].after.pending[looked(run, i, j) as int]
        },
        run[j].action is Sleep ==> looked(run, i, j) == run[i].after.pending.len(),
        run[j].action matches WatchAction::Ingest { name, txt } ==> {
            &&& looked(run, i, j) > 0
            &&& (name@, txt@) == run[i].after.pending[looked(run, i, j) - 1]
            &&& txt@ == txt_name(name@)
        },
    decreases j - i,
{
    let m = run[j];
    let all = run[i].after.pending;
    let n = looked(run, i, j) as int;
    let first = run[i];
    assert(first.before.goes(first.event, first.after, first.action));
    assert(m.before.goes(m.event, m.after, m.action));
    if j > i {
        law_whole_poll(run, i, j - 1);
        assert(follows(run, j - 1));
        let before = looked(run, i, j - 1) as int;
        assert(m.before.pending == all.skip(before));
        assert(!(run[j].event is Listed));
        if m.event is Looked {
            assert(all.skip(before).drop_first() =~= all.skip(before + 1));
            assert(all.skip(before)[0] == all[before]);
        }
        if n < all.len() {
            assert(all.skip(n)[0] == all[n]);
        }
    } else {
        assert(all.skip(0) =~= all);
    }
}

} // verus!
