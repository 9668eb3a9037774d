//! Plain text: characters, white space, lines, words, searching and joining.
//!
//! Strings are modelled by the sequence of their characters.

use vstd::prelude::*;

verus! {

/// `String::push` appends one character at the end.
pub assume_specification[ String::push ](s: &mut String, c: char)
    ensures
        final(s)@ == old(s)@.push(c),
;

// ---------------------------------------------------------------------------
//  Characters
// ---------------------------------------------------------------------------

/// The characters of Unicode's `White_Space` property.
pub open spec fn white_space(c: char) -> bool {
    ||| '\u{9}' <= c <= '\u{d}'
    ||| c == ' '
    ||| c == '\u{85}'
    ||| c == '\u{a0}'
    ||| c == '\u{1680}'
    ||| '\u{2000}' <= c <= '\u{200a}'
    ||| c == '\u{2028}'
    ||| c == '\u{2029}'
    ||| c == '\u{202f}'
    ||| c == '\u{205f}'
    ||| c == '\u{3000}'
}

/// Whether `c` is white space.
pub fn is_white_space(c: char) -> (b: bool)
    ensures
        b == white_space(c),
{
    ('\u{9}' <= c && c <= '\u{d}') || c == ' ' || c == '\u{85}' || c == '\u{a0}' || c == '\u{1680}'
        || ('\u{2000}' <= c && c <= '\u{200a}') || c == '\u{2028}' || c == '\u{2029}' || c
        == '\u{202f}' || c == '\u{205f}' || c == '\u{3000}'
}

/// The characters of `s`, in order.
pub fn to_chars(s: &str) -> (v: Vec<char>)
    ensures
        v@ == s@,
{
    let mut v: Vec<char> = Vec::new();
    for c in it: s.chars()
        invariant
            v@.len() == it.index(),
            it.seq() == s@,
            forall|i: int| 0 <= i < v@.len() ==> v@[i] == it.seq()[i],
    {
        v.push(c);
    }
    v
}

/// The string that the characters `from..to` of `v` spell.
pub fn from_chars(v: &Vec<char>, from: usize, to: usize) -> (s: String)
    requires
        from <= to <= v@.len(),
    ensures
        s@ == v@.subrange(from as int, to as int),
{
    let mut s: String = String::new();
    let mut i: usize = from;
    while i < to
        invariant
            from <= i <= to <= v@.len(),
            s@ == v@.subrange(from as int, i as int),
        decreases to - i,
    {
        s.push(v[i]);
        i += 1;
        assert(v@.subrange(from as int, i as int) =~= v@.subrange(from as int, i - 1).push(
            v@[i - 1],
        ));
    }
    s
}

/// Appends the characters of `piece` to `v`.
pub fn push_str(v: &mut Vec<char>, piece: &str)
    ensures
        final(v)@ == old(v)@ + piece@,
{
    let mut more = to_chars(piece);
    v.append(&mut more);
}

// ---------------------------------------------------------------------------
//  Trimming
// ---------------------------------------------------------------------------

/// `s` without the white space it starts with.
pub open spec fn trim_start(s: Seq<char>) -> Seq<char>
    decreases s.len(),
{
    if s.len() > 0 && white_space(s[0]) {
        trim_start(s.skip(1))
    } else {
        s
    }
}

/// `s` without the white space it ends with.
pub open spec fn trim_end(s: Seq<char>) -> Seq<char>
    decreases s.len(),
{
    if s.len() > 0 && white_space(s.last()) {
        trim_end(s.drop_last())
    } else {
        s
    }
}

/// `s` without the white space around it.
pub open spec fn trimmed(s: Seq<char>) -> Seq<char> {
    trim_end(trim_start(s))
}

/// `trim_start` drops some first characters, all of them white space.
pub proof fn lemma_trim_start(s: Seq<char>, k: int)
    requires
        0 <= k <= s.len(),
        forall|i: int| 0 <= i < k ==> white_space(#[trigger] s[i]),
    ensures
        trim_start(s) == trim_start(s.skip(k)),
    decreases k,
{
    if k == 0 {
        assert(s.skip(0) =~= s);
    } else {
        assert(white_space(s[0]));
        assert forall|i: int| 0 <= i < k - 1 implies white_space(#[trigger] s.skip(1)[i]) by {
            assert(s.skip(1)[i] == s[i + 1]);
        }
        lemma_trim_start(s.skip(1), k - 1);
        assert(s.skip(1).skip(k - 1) =~= s.skip(k));
    }
}

/// `trim_end` drops some last characters, all of them white space.
pub proof fn lemma_trim_end(s: Seq<char>, k: int)
    requires
        0 <= k <= s.len(),
        forall|i: int| k <= i < s.len() ==> white_space(#[trigger] s[i]),
    ensures
        trim_end(s) == trim_end(s.take(k)),
    decreases s.len() - k,
{
    if k == s.len() {
        assert(s.take(k) =~= s);
    } else {
        assert(white_space(s.last()));
        assert forall|i: int| k <= i < s.drop_last().len() implies white_space(
            #[trigger] s.drop_last()[i],
        ) by {
            assert(s.drop_last()[i] == s[i]);
        }
        lemma_trim_end(s.drop_last(), k);
        assert(s.drop_last().take(k) =~= s.take(k));
    }
}

/// What trimming leaves of `s`: a part of `s` that white space alone
/// surrounds, and that neither starts nor ends with white space.
pub proof fn lemma_trimmed_part(s: Seq<char>, from: int, to: int)
    requires
        0 <= from <= to <= s.len(),
        forall|i: int| 0 <= i < from ==> white_space(#[trigger] s[i]),
        forall|i: int| to <= i < s.len() ==> white_space(#[trigger] s[i]),
        from < to ==> !white_space(s[from]) && !white_space(s[to - 1]),
    ensures
        trimmed(s) == s.subrange(from, to),
{
    lemma_trim_start(s, from);
    let rest = s.skip(from);
    if from < to {
        assert(rest[0] == s[from]);
        assert(trim_start(rest) == rest);
        assert forall|i: int| to - from <= i < rest.len() implies white_space(
            #[trigger] rest[i],
        ) by {
            assert(rest[i] == s[from + i]);
        }
        lemma_trim_end(rest, to - from);
        let kept = rest.take(to - from);
        assert(kept.last() == s[to - 1]);
        assert(kept =~= s.subrange(from, to));
    } else {
        assert forall|i: int| 0 <= i < rest.len() implies white_space(#[trigger] rest[i]) by {
            assert(rest[i] == s[from + i]);
        }
        lemma_trim_start(rest, rest.len() as int);
        assert(rest.skip(rest.len() as int) =~= Seq::<char>::empty());
        assert(s.subrange(from, to) =~= Seq::<char>::empty());
    }
}

/// The bounds of what is left of `v` between `from` and `to` once the white
/// space around it is dropped.
pub fn trim_range(v: &Vec<char>, from: usize, to: usize) -> (r: (usize, usize))
    requires
        from <= to <= v@.len(),
    ensures
        from <= r.0 <= r.1 <= to,
        v@.subrange(r.0 as int, r.1 as int) == trimmed(v@.subrange(from as int, to as int)),
{
    let mut a: usize = from;
    while a < to && is_white_space(v[a])
        invariant
            from <= a <= to <= v@.len(),
            forall|i: int| from <= i < a ==> white_space(#[trigger] v@[i]),
        decreases to - a,
    {
        a += 1;
    }
    let mut b: usize = to;
    while b > a && is_white_space(v[b - 1])
        invariant
            from <= a <= b <= to <= v@.len(),
            forall|i: int| b <= i < to ==> white_space(#[trigger] v@[i]),
        decreases b,
    {
        b -= 1;
    }
    proof {
        let s = v@.subrange(from as int, to as int);
        assert forall|i: int| 0 <= i < a - from implies white_space(#[trigger] s[i]) by {
            assert(s[i] == v@[from + i]);
        }
        assert forall|i: int| b - from <= i < s.len() implies white_space(#[trigger] s[i]) by {
            assert(s[i] == v@[from + i]);
        }
        lemma_trimmed_part(s, a - from, b - from);
        assert(s.subrange(a - from, b - from) =~= v@.subrange(a as int, b as int));
    }
    (a, b)
}

/// `s` without the white space around it.
pub fn trim(s: &str) -> (r: String)
    ensures
        r@ == trimmed(s@),
{
    let v = to_chars(s);
    let n: usize = v.len();
    let (a, b) = trim_range(&v, 0, n);
    assert(v@.subrange(0, n as int) =~= s@);
    from_chars(&v, a, b)
}

// ---------------------------------------------------------------------------
//  Pieces and words
// ---------------------------------------------------------------------------

/// The parts of `s` between the occurrences of `mark`.
pub open spec fn pieces(s: Seq<char>, mark: char) -> Seq<Seq<char>>
    decreases s.len(),
{
    if s.len() == 0 {
        seq![Seq::<char>::empty()]
    } else {
        let before = pieces(s.drop_last(), mark);
        if s.last() == mark {
            before.push(Seq::empty())
        } else {
            before.drop_last().push(before.last().push(s.last()))
        }
    }
}

/// A text without a `mark` is one piece.
pub proof fn lemma_one_piece(s: Seq<char>, mark: char)
    requires
        !s.contains(mark),
    ensures
        pieces(s, mark) == seq![s],
    decreases s.len(),
{
    if s.len() > 0 {
        let front = s.drop_last();
        assert(s.last() == s[s.len() - 1]);
        assert forall|i: int| 0 <= i < front.len() implies front[i] != mark by {
            assert(front[i] == s[i]);
        }
        lemma_one_piece(front, mark);
        assert(front.push(s.last()) =~= s);
        assert(pieces(s, mark) =~= seq![s]);
    } else {
        assert(s =~= Seq::<char>::empty());
    }
}

/// What stands behind a `mark`, and holds none, is the last piece.
pub proof fn lemma_last_piece(front: Seq<char>, mark: char, back: Seq<char>)
    requires
        !back.contains(mark),
    ensures
        pieces(front + seq![mark] + back, mark) == pieces(front, mark).push(back),
    decreases back.len(),
{
    let s = front + seq![mark] + back;
    if back.len() == 0 {
        assert(s.drop_last() =~= front);
        assert(s.last() == mark);
        assert(back =~= Seq::<char>::empty());
    } else {
        let rest = back.drop_last();
        assert(back.last() == back[back.len() - 1]);
        assert forall|i: int| 0 <= i < rest.len() implies rest[i] != mark by {
            assert(rest[i] == back[i]);
        }
        lemma_last_piece(front, mark, rest);
        assert(s.drop_last() =~= front + seq![mark] + rest);
        assert(s.last() == back.last());
        assert(rest.push(back.last()) =~= back);
        assert(pieces(front, mark).push(rest).drop_last() =~= pieces(front, mark));
    }
}

/// The bounds of the parts of `v` between the occurrences of `mark`.
pub fn split_ranges(v: &Vec<char>, mark: char) -> (r: Vec<(usize, usize)>)
    ensures
        r@.len() == pieces(v@, mark).len(),
        r@.len() > 0,
        forall|i: int|
            0 <= i < r@.len() ==> (#[trigger] r@[i]).0 <= r@[i].1 <= v@.len() && v@.subrange(
                r@[i].0 as int,
                r@[i].1 as int,
            ) == pieces(v@, mark)[i],
{
    let mut r: Vec<(usize, usize)> = Vec::new();
    let mut start: usize = 0;
    let mut i: usize = 0;
    proof {
        assert(v@.take(0) =~= Seq::<char>::empty());
        assert(v@.subrange(0, 0) =~= Seq::<char>::empty());
    }
    while i < v.len()
        invariant
            start <= i <= v@.len(),
            r@.len() + 1 == pieces(v@.take(i as int), mark).len(),
            v@.subrange(start as int, i as int) == pieces(v@.take(i as int), mark).last(),
            forall|k: int|
                0 <= k < r@.len() ==> (#[trigger] r@[k]).0 <= r@[k].1 <= v@.len() && v@.subrange(
                    r@[k].0 as int,
                    r@[k].1 as int,
                ) == pieces(v@.take(i as int), mark)[k],
        decreases v@.len() - i,
    {
        proof {
            assert(v@.take(i + 1).drop_last() =~= v@.take(i as int));
            assert(v@.take(i + 1).last() == v@[i as int]);
        }
        if v[i] == mark {
            r.push((start, i));
            start = i + 1;
            assert(v@.subrange(start as int, i + 1) =~= Seq::<char>::empty());
        } else {
            assert(v@.subrange(start as int, i + 1) =~= v@.subrange(start as int, i as int).push(
                v@[i as int],
            ));
        }
        i += 1;
    }
    r.push((start, i));
    assert(v@.take(i as int) =~= v@);
    r
}

/// The lines of `s`: the parts between line feeds.
pub fn split_lines(s: &str) -> (r: Vec<String>)
    ensures
        r@.len() == pieces(s@, '\n').len(),
        forall|i: int| 0 <= i < r@.len() ==> (#[trigger] r@[i])@ == pieces(s@, '\n')[i],
{
    let v = to_chars(s);
    let ranges = split_ranges(&v, '\n');
    let mut r: Vec<String> = Vec::new();
    let mut i: usize = 0;
    while i < ranges.len()
        invariant
            0 <= i <= ranges@.len(),
            r@.len() == i,
            v@ == s@,
            forall|k: int|
                0 <= k < ranges@.len() ==> (#[trigger] ranges@[k]).0 <= ranges@[k].1 <= v@.len()
                    && v@.subrange(ranges@[k].0 as int, ranges@[k].1 as int) == pieces(v@, '\n')[k],
            forall|k: int| 0 <= k < i ==> (#[trigger] r@[k])@ == pieces(s@, '\n')[k],
        decreases ranges@.len() - i,
    {
        let (a, b) = ranges[i];
        r.push(from_chars(&v, a, b));
        i += 1;
    }
    r
}

/// The number of maximal runs of characters that are not white space.
pub open spec fn words(s: Seq<char>) -> nat
    decreases s.len(),
{
    if s.len() == 0 {
        0
    } else {
        let starts = !white_space(s.last()) && (s.len() == 1 || white_space(s[s.len() - 2]));
        words(s.drop_last()) + (if starts {
            1nat
        } else {
            0nat
        })
    }
}

/// The number of words of `s`.
pub fn word_count(s: &str) -> (n: usize)
    ensures
        n == words(s@),
{
    let v = to_chars(s);
    let mut n: usize = 0;
    let mut i: usize = 0;
    assert(v@.take(0) =~= Seq::<char>::empty());
    while i < v.len()
        invariant
            n <= i <= v@.len(),
            n == words(v@.take(i as int)),
        decreases v@.len() - i,
    {
        proof {
            assert(v@.take(i + 1).drop_last() =~= v@.take(i as int));
            assert(v@.take(i + 1).last() == v@[i as int]);
        }
        if !is_white_space(v[i]) && (i == 0 || is_white_space(v[i - 1])) {
            n += 1;
        }
        i += 1;
    }
    assert(v@.take(i as int) =~= s@);
    n
}

// ---------------------------------------------------------------------------
//  Searching
// ---------------------------------------------------------------------------

/// `pattern` stands in `s` at position `at`.
pub open spec fn occurs_at(s: Seq<char>, pattern: Seq<char>, at: int) -> bool {
    0 <= at && at + pattern.len() <= s.len() && s.subrange(at, at + pattern.len()) == pattern
}

/// Whether `pattern` stands in `v` at position `at`.
pub fn matches_at(v: &Vec<char>, pattern: &Vec<char>, at: usize) -> (b: bool)
    ensures
        b == occurs_at(v@, pattern@, at as int),
{
    let n: usize = v.len();
    if at > n || pattern.len() > n - at {
        return false;
    }
    let mut i: usize = 0;
    while i < pattern.len()
        invariant
            i <= pattern@.len(),
            at + pattern@.len() <= v@.len(),
            n == v@.len(),
            forall|k: int| 0 <= k < i ==> v@[at + k] == #[trigger] pattern@[k],
        decreases pattern@.len() - i,
    {
        if v[at + i] != pattern[i] {
            proof {
                assert(v@.subrange(at as int, at + pattern@.len())[i as int] == v@[at + i]);
            }
            return false;
        }
        i += 1;
    }
    assert(v@.subrange(at as int, at + pattern@.len()) =~= pattern@);
    true
}

/// `pattern` stands somewhere in `s`.
pub open spec fn contains(s: Seq<char>, pattern: Seq<char>) -> bool {
    exists|at: int| occurs_at(s, pattern, at)
}

/// The first position from `from` on at which `pattern` stands in `v`.
pub fn find_from(v: &Vec<char>, pattern: &Vec<char>, from: usize) -> (r: Option<usize>)
    ensures
        match r {
            Some(at) => from <= at && occurs_at(v@, pattern@, at as int) && forall|k: int|
                from <= k < at ==> !occurs_at(v@, pattern@, k),
            None => forall|k: int| from <= k ==> !occurs_at(v@, pattern@, k),
        },
{
    let mut i: usize = from;
    while i < v.len()
        invariant
            from <= i,
            forall|k: int| from <= k < i ==> !occurs_at(v@, pattern@, k),
        decreases v@.len() - i,
    {
        if matches_at(v, pattern, i) {
            return Some(i);
        }
        i += 1;
    }
    if matches_at(v, pattern, i) {
        return Some(i);
    }
    None
}

/// Whether `pattern` stands somewhere in `s`.
pub fn finds(s: &str, pattern: &str) -> (b: bool)
    ensures
        b == contains(s@, pattern@),
{
    let v = to_chars(s);
    let p = to_chars(pattern);
    match find_from(&v, &p, 0) {
        Some(_) => true,
        None => false,
    }
}

/// The first position from `from` on at which `pattern` stands in `s`.
pub open spec fn first_at(s: Seq<char>, pattern: Seq<char>, from: int) -> Option<int>
    decreases s.len() + 1 - from,
{
    if from > s.len() {
        None
    } else if occurs_at(s, pattern, from) {
        Some(from)
    } else {
        first_at(s, pattern, from + 1)
    }
}

/// What `first_at` is, given the first position or that there is none.
pub proof fn lemma_first_at(s: Seq<char>, pattern: Seq<char>, from: int, at: Option<int>)
    requires
        0 <= from,
        match at {
            Some(k) => from <= k && occurs_at(s, pattern, k) && forall|j: int|
                from <= j < k ==> !occurs_at(s, pattern, j),
            None => forall|j: int| from <= j ==> !occurs_at(s, pattern, j),
        },
    ensures
        first_at(s, pattern, from) == at,
    decreases s.len() + 1 - from,
{
    if from <= s.len() && !occurs_at(s, pattern, from) {
        lemma_first_at(s, pattern, from + 1, at);
    }
}

/// What stands between the first and the second `pattern` in `s`, or behind
/// the first one if there is no second.
pub open spec fn behind(s: Seq<char>, pattern: Seq<char>) -> Option<Seq<char>> {
    match first_at(s, pattern, 0) {
        None => None,
        Some(at) => {
            let from = at + pattern.len();
            match first_at(s, pattern, from) {
                None => Some(s.skip(from)),
                Some(to) => Some(s.subrange(from, to)),
            }
        },
    }
}

/// `s` up to the first `a` or `b` in it.
pub open spec fn up_to(s: Seq<char>, a: char, b: char) -> Seq<char>
    decreases s.len(),
{
    if s.len() == 0 || s[0] == a || s[0] == b {
        Seq::empty()
    } else {
        seq![s[0]] + up_to(s.drop_first(), a, b)
    }
}

/// What `up_to` is, given where the first `a` or `b` stands.
pub proof fn lemma_up_to(s: Seq<char>, a: char, b: char, k: int)
    requires
        0 <= k <= s.len(),
        forall|j: int| 0 <= j < k ==> #[trigger] s[j] != a && s[j] != b,
        k < s.len() ==> s[k] == a || s[k] == b,
    ensures
        up_to(s, a, b) == s.take(k),
    decreases s.len(),
{
    if k > 0 {
        let rest = s.drop_first();
        assert forall|j: int| 0 <= j < k - 1 implies #[trigger] rest[j] != a && rest[j] != b by {
            assert(rest[j] == s[j + 1]);
        }
        lemma_up_to(rest, a, b, k - 1);
        assert(seq![s[0]] + rest.take(k - 1) =~= s.take(k));
    } else {
        assert(s.take(0) =~= Seq::<char>::empty());
    }
}

/// What stands behind the first `pattern` in `s`, up to the next `pattern`,
/// `a` or `b`.
pub fn field_behind(s: &str, pattern: &str, a: char, b: char) -> (r: Option<String>)
    ensures
        match r {
            Some(t) => behind(s@, pattern@) matches Some(part) && t@ == up_to(part, a, b),
            None => behind(s@, pattern@) is None,
        },
{
    let v = to_chars(s);
    let p = to_chars(pattern);
    let n: usize = v.len();
    let from: usize = match find_from(&v, &p, 0) {
        None => {
            proof {
                lemma_first_at(v@, p@, 0, None);
            }
            return None;
        },
        Some(at) => {
            proof {
                lemma_first_at(v@, p@, 0, Some(at as int));
                assert(at + p@.len() <= n);
            }
            at + p.len()
        },
    };
    let to: usize = match find_from(&v, &p, from) {
        None => {
            proof {
                lemma_first_at(v@, p@, from as int, None);
                assert(v@.subrange(from as int, n as int) =~= v@.skip(from as int));
            }
            n
        },
        Some(to) => {
            proof {
                lemma_first_at(v@, p@, from as int, Some(to as int));
            }
            to
        },
    };
    let ghost part = v@.subrange(from as int, to as int);
    assert(behind(s@, pattern@) == Some(part));
    let mut i: usize = from;
    while i < to && v[i] != a && v[i] != b
        invariant
            from <= i <= to <= v@.len(),
            part == v@.subrange(from as int, to as int),
            forall|j: int| 0 <= j < i - from ==> #[trigger] part[j] != a && part[j] != b,
        decreases to - i,
    {
        assert(part[i - from] == v@[i as int]);
        i += 1;
    }
    proof {
        if i < to {
            assert(part[i - from] == v@[i as int]);
        }
        lemma_up_to(part, a, b, i - from);
        assert(part.take(i - from) =~= v@.subrange(from as int, i as int));
    }
    Some(from_chars(&v, from, i))
}

/// The last position before `end` at which `pattern` stands in `s`.
pub open spec fn last_at(s: Seq<char>, pattern: Seq<char>, end: int) -> Option<int>
    decreases end,
{
    if end <= 0 {
        None
    } else if occurs_at(s, pattern, end - 1) {
        Some(end - 1)
    } else {
        last_at(s, pattern, end - 1)
    }
}

/// `s` parted at the last `pattern` in it: what stands before and what stands
/// behind. Without a `pattern`, each is all of `s`.
pub open spec fn parted_at_last(s: Seq<char>, pattern: Seq<char>) -> (Seq<char>, Seq<char>) {
    match last_at(s, pattern, s.len() as int) {
        Some(at) => (s.take(at), s.skip(at + pattern.len())),
        None => (s, s),
    }
}

/// Parts `s` at the last `pattern` in it.
pub fn part_at_last(s: &str, pattern: &str) -> (r: (String, String))
    ensures
        (r.0@, r.1@) == parted_at_last(s@, pattern@),
{
    let v = to_chars(s);
    let p = to_chars(pattern);
    let n: usize = v.len();
    let mut i: usize = n;
    while i > 0
        invariant
            i <= n,
            n == v@.len(),
            v@ == s@,
            p@ == pattern@,
            last_at(v@, p@, n as int) == last_at(v@, p@, i as int),
        decreases i,
    {
        i -= 1;
        if matches_at(&v, &p, i) {
            let from: usize = i + p.len();
            assert(v@.take(i as int) =~= v@.subrange(0, i as int));
            assert(v@.skip(from as int) =~= v@.subrange(from as int, n as int));
            return (from_chars(&v, 0, i), from_chars(&v, from, n));
        }
    }
    (s.to_string(), s.to_string())
}

/// `s` with each `pattern` in it replaced by `by`, from the left.
pub open spec fn replaced(s: Seq<char>, pattern: Seq<char>, by: Seq<char>) -> Seq<char>
    decreases s.len(),
{
    match first_at(s, pattern, 0) {
        Some(at) if pattern.len() > 0 && 0 <= at <= s.len() - pattern.len() => s.take(at) + by
            + replaced(s.skip(at + pattern.len()), pattern, by),
        _ => s,
    }
}

/// Replaces each `pattern` in `s` by `by`, from the left.
pub fn replace(s: &str, pattern: &str, by: &str) -> (r: String)
    requires
        pattern@.len() > 0,
    ensures
        r@ == replaced(s@, pattern@, by@),
{
    let v = to_chars(s);
    let p = to_chars(pattern);
    let n: usize = v.len();
    let mut out: Vec<char> = Vec::new();
    let mut i: usize = 0;
    assert(v@.skip(0) =~= v@);
    loop
        invariant_except_break
            out@ + replaced(v@.skip(i as int), p@, by@) == replaced(v@, p@, by@),
        invariant
            i <= n,
            n == v@.len(),
            p@.len() > 0,
            p@ == pattern@,
        ensures
            out@ == replaced(v@, p@, by@),
        decreases n - i,
    {
        let ghost rest = v@.skip(i as int);
        match find_from(&v, &p, i) {
            Some(at) => {
                proof {
                    let k = at - i;
                    lemma_occurs_in_rest(v@, p@, i as int);
                    assert(occurs_at(rest, p@, k));
                    lemma_first_at(rest, p@, 0, Some(k));
                    assert(rest.skip(k + p@.len()) =~= v@.skip(at + p@.len()));
                    assert(rest.take(k) =~= v@.subrange(i as int, at as int));
                }
                let ghost before = out@;
                push_range(&mut out, &v, i, at);
                push_str(&mut out, by);
                i = at + p.len();
                assert(out@ + replaced(v@.skip(i as int), p@, by@) =~= before + replaced(
                    rest,
                    p@,
                    by@,
                ));
            },
            None => {
                proof {
                    lemma_occurs_in_rest(v@, p@, i as int);
                    lemma_first_at(rest, p@, 0, None);
                    assert(rest =~= v@.subrange(i as int, n as int));
                }
                push_range(&mut out, &v, i, n);
                break;
            },
        }
    }
    let len: usize = out.len();
    assert(out@.subrange(0, len as int) =~= out@);
    from_chars(&out, 0, len)
}

/// A pattern stands in the rest of `s` where it stands in `s`.
proof fn lemma_occurs_in_rest(s: Seq<char>, pattern: Seq<char>, from: int)
    requires
        0 <= from <= s.len(),
    ensures
        forall|k: int|
            0 <= k ==> #[trigger] occurs_at(s.skip(from), pattern, k) == occurs_at(
                s,
                pattern,
                from + k,
            ),
        forall|k: int|
            from <= k ==> occurs_at(s.skip(from), pattern, k - from) == #[trigger] occurs_at(
                s,
                pattern,
                k,
            ),
{
    let rest = s.skip(from);
    assert forall|k: int| 0 <= k && k + pattern.len() <= rest.len() implies (#[trigger] rest.subrange(
        k,
        k + pattern.len(),
    )) == s.subrange(from + k, from + k + pattern.len()) by {
        assert(rest.subrange(k, k + pattern.len()) =~= s.subrange(
            from + k,
            from + k + pattern.len(),
        ));
    }
    assert forall|k: int| 0 <= k implies #[trigger] occurs_at(rest, pattern, k) == occurs_at(
        s,
        pattern,
        from + k,
    ) by {
        if k + pattern.len() <= rest.len() {
            assert(rest.subrange(k, k + pattern.len()) == s.subrange(
                from + k,
                from + k + pattern.len(),
            ));
        }
    }
    assert forall|k: int| from <= k implies occurs_at(rest, pattern, k - from)
        == #[trigger] occurs_at(s, pattern, k) by {
        assert(occurs_at(rest, pattern, k - from) == occurs_at(s, pattern, from + (k - from)));
    }
}

/// Appends the characters of `v` between `from` and `to` to `out`.
fn push_range(out: &mut Vec<char>, v: &Vec<char>, from: usize, to: usize)
    requires
        from <= to <= v@.len(),
    ensures
        final(out)@ == old(out)@ + v@.subrange(from as int, to as int),
{
    let mut i: usize = from;
    assert(v@.subrange(from as int, from as int) =~= Seq::<char>::empty());
    assert(out@ =~= old(out)@ + v@.subrange(from as int, from as int));
    while i < to
        invariant
            from <= i <= to <= v@.len(),
            out@ == old(out)@ + v@.subrange(from as int, i as int),
        decreases to - i,
    {
        out.push(v[i]);
        i += 1;
        assert(out@ =~= old(out)@ + v@.subrange(from as int, i as int));
    }
}

/// `s` ends in `ending`.
pub open spec fn ends_in(s: Seq<char>, ending: Seq<char>) -> bool {
    s.len() >= ending.len() && s.skip(s.len() - ending.len()) == ending
}

/// Whether `s` ends in `ending`.
pub fn ends_with(s: &str, ending: &str) -> (b: bool)
    ensures
        b == ends_in(s@, ending@),
{
    let v = to_chars(s);
    let p = to_chars(ending);
    let n: usize = v.len();
    if n < p.len() {
        return false;
    }
    let at: usize = n - p.len();
    assert(v@.skip(at as int) =~= v@.subrange(at as int, at + p@.len()));
    matches_at(&v, &p, at)
}

/// `s` without the `ending`s at its end.
pub open spec fn stripped(s: Seq<char>, ending: Seq<char>) -> Seq<char>
    decreases s.len(),
{
    if ending.len() > 0 && ends_in(s, ending) {
        stripped(s.take(s.len() - ending.len()), ending)
    } else {
        s
    }
}

/// Takes the `ending`s at the end of `s` away.
pub fn strip(s: &str, ending: &str) -> (r: String)
    requires
        ending@.len() > 0,
    ensures
        r@ == stripped(s@, ending@),
{
    let v = to_chars(s);
    let p = to_chars(ending);
    let mut n: usize = v.len();
    assert(v@.take(n as int) =~= v@);
    while n >= p.len() && matches_at(&v, &p, n - p.len())
        invariant
            n <= v@.len(),
            p@ == ending@,
            p@.len() > 0,
            stripped(v@.take(n as int), p@) == stripped(v@, p@),
        decreases n,
    {
        let ghost part = v@.take(n as int);
        let at: usize = n - p.len();
        assert(part.skip(at as int) =~= v@.subrange(at as int, at + p@.len()));
        assert(part.take(at as int) =~= v@.take(at as int));
        n = at;
    }
    proof {
        let part = v@.take(n as int);
        if n >= p@.len() {
            let at = n - p@.len();
            assert(part.skip(at) =~= v@.subrange(at, at + p@.len()));
        }
        assert(part =~= v@.subrange(0, n as int));
    }
    from_chars(&v, 0, n)
}

// ---------------------------------------------------------------------------
//  Order
// ---------------------------------------------------------------------------

/// `a` comes before `b` in the order of the code points.
pub open spec fn precedes(a: Seq<char>, b: Seq<char>) -> bool
    decreases a.len(),
{
    if b.len() == 0 {
        false
    } else if a.len() == 0 {
        true
    } else if a[0] == b[0] {
        precedes(a.drop_first(), b.drop_first())
    } else {
        a[0] < b[0]
    }
}

/// The order is transitive.
pub proof fn lemma_precedes_transitive(a: Seq<char>, b: Seq<char>, c: Seq<char>)
    requires
        precedes(a, b),
        precedes(b, c),
    ensures
        precedes(a, c),
    decreases a.len(),
{
    if a.len() > 0 && a[0] == b[0] && b[0] == c[0] {
        lemma_precedes_transitive(a.drop_first(), b.drop_first(), c.drop_first());
    }
}

/// Nothing comes before itself.
pub proof fn lemma_precedes_irreflexive(a: Seq<char>)
    ensures
        !precedes(a, a),
    decreases a.len(),
{
    if a.len() > 0 {
        lemma_precedes_irreflexive(a.drop_first());
    }
}

/// Where a text stands to another one.
#[derive(Debug, Clone, Copy, PartialEq, Eq, Structural)]
pub enum Place {
    Before,
    Same,
    Behind,
}

/// Where `a` stands to `b` in the order of the code points.
pub fn place(a: &str, b: &str) -> (p: Place)
    ensures
        match p {
            Place::Before => precedes(a@, b@),
            Place::Same => a@ == b@,
            Place::Behind => precedes(b@, a@),
        },
{
    let v = to_chars(a);
    let w = to_chars(b);
    let mut i: usize = 0;
    assert(v@.skip(0) =~= v@);
    assert(w@.skip(0) =~= w@);
    while i < v.len() && i < w.len()
        invariant
            i <= v@.len(),
            i <= w@.len(),
            v@ == a@,
            w@ == b@,
            forall|k: int| 0 <= k < i ==> v@[k] == w@[k],
            precedes(v@, w@) == precedes(v@.skip(i as int), w@.skip(i as int)),
            precedes(w@, v@) == precedes(w@.skip(i as int), v@.skip(i as int)),
        decreases v@.len() - i,
    {
        let ghost s = v@.skip(i as int);
        let ghost t = w@.skip(i as int);
        assert(s[0] == v@[i as int] && t[0] == w@[i as int]);
        assert(s.drop_first() =~= v@.skip(i + 1));
        assert(t.drop_first() =~= w@.skip(i + 1));
        if v[i] < w[i] {
            return Place::Before;
        }
        if w[i] < v[i] {
            return Place::Behind;
        }
        i += 1;
    }
    if i < w.len() {
        Place::Before
    } else if i < v.len() {
        Place::Behind
    } else {
        assert(v@ =~= w@);
        Place::Same
    }
}

// ---------------------------------------------------------------------------
//  Joining
// ---------------------------------------------------------------------------

/// The parts in order, with `sep` between each two.
pub open spec fn joined(parts: Seq<Seq<char>>, sep: Seq<char>) -> Seq<char>
    decreases parts.len(),
{
    if parts.len() == 0 {
        Seq::empty()
    } else if parts.len() == 1 {
        parts[0]
    } else {
        joined(parts.drop_last(), sep) + sep + parts.last()
    }
}

/// The characters of an optional text.
pub open spec fn chars(t: Option<String>) -> Option<Seq<char>> {
    match t {
        Some(s) => Some(s@),
        None => None,
    }
}

/// The characters of each of `v`.
pub open spec fn texts(v: Seq<String>) -> Seq<Seq<char>> {
    v.map_values(|s: String| s@)
}

/// The parts in order, with `sep` between each two.
pub fn join(parts: &Vec<String>, sep: &str) -> (r: String)
    ensures
        r@ == joined(texts(parts@), sep@),
{
    let mut r: String = String::new();
    let mut i: usize = 0;
    proof {
        assert(texts(parts@).take(0) =~= Seq::<Seq<char>>::empty());
    }
    while i < parts.len()
        invariant
            i <= parts@.len(),
            r@ == joined(texts(parts@).take(i as int), sep@),
        decreases parts@.len() - i,
    {
        proof {
            assert(texts(parts@).take(i + 1).drop_last() =~= texts(parts@).take(i as int));
            assert(texts(parts@).take(i + 1).last() == parts@[i as int]@);
        }
        if i > 0 {
            r.append(sep);
        }
        r.append(parts[i].as_str());
        i += 1;
        assert(r@ =~= joined(texts(parts@).take(i as int), sep@));
    }
    assert(texts(parts@).take(i as int) =~= texts(parts@));
    r
}

// ---------------------------------------------------------------------------
//  Laws
// ---------------------------------------------------------------------------

/// Every character of `s` is white space.
pub open spec fn blank(s: Seq<char>) -> bool {
    forall|i: int| 0 <= i < s.len() ==> white_space(#[trigger] s[i])
}

/// White space is made of these characters of Unicode, and of no others.
pub proof fn law_white_space(c: char)
    ensures
        white_space(c) <==> seq![
            0x9u32, 0xa, 0xb, 0xc, 0xd, 0x20, 0x85, 0xa0, 0x1680, 0x2000, 0x2001, 0x2002, 0x2003,
            0x2004, 0x2005, 0x2006, 0x2007, 0x2008, 0x2009, 0x200a, 0x2028, 0x2029, 0x202f, 0x205f,
            0x3000,
        ].contains(c as u32),
{
    let list = seq![
        0x9u32, 0xa, 0xb, 0xc, 0xd, 0x20, 0x85, 0xa0, 0x1680, 0x2000, 0x2001, 0x2002, 0x2003,
        0x2004, 0x2005, 0x2006, 0x2007, 0x2008, 0x2009, 0x200a, 0x2028, 0x2029, 0x202f, 0x205f,
        0x3000,
    ];
    let n = c as u32;
    if white_space(c) {
        let at: int = if n <= 0xd {
            n - 0x9
        } else if n == 0x20 {
            5
        } else if n == 0x85 {
            6
        } else if n == 0xa0 {
            7
        } else if n == 0x1680 {
            8
        } else if n <= 0x200a {
            9 + (n - 0x2000)
        } else if n == 0x2028 {
            20
        } else if n == 0x2029 {
            21
        } else if n == 0x202f {
            22
        } else if n == 0x205f {
            23
        } else {
            24
        };
        assert(list[at] == n);
    } else if list.contains(n) {
        let at = choose|at: int| 0 <= at < list.len() && list[at] == n;
        assert(list[at] == n);
    }
}

/// Trimming takes away nothing but white space, from both ends, and leaves none
/// there.
pub proof fn law_trimmed(s: Seq<char>)
    ensures
        exists|a: Seq<char>, b: Seq<char>|
            blank(a) && blank(b) && s == #[trigger] (a + trimmed(s) + b),
        trimmed(s).len() > 0 ==> !white_space(trimmed(s)[0]) && !white_space(trimmed(s).last()),
    decreases s.len(),
{
    let t = trimmed(s);
    if s.len() > 0 && white_space(s[0]) {
        let rest = s.skip(1);
        law_trimmed(rest);
        let (a, b) = choose|a: Seq<char>, b: Seq<char>|
            blank(a) && blank(b) && rest == #[trigger] (a + trimmed(rest) + b);
        assert(t == trimmed(rest));
        assert(s =~= seq![s[0]] + rest);
        assert(seq![s[0]] + rest =~= seq![s[0]] + a + t + b);
        assert(blank(seq![s[0]] + a));
    } else {
        law_trim_end(s);
        let b = choose|b: Seq<char>| blank(b) && s == #[trigger] (trim_end(s) + b);
        let a = Seq::<char>::empty();
        assert(s =~= a + t + b);
        assert(blank(a));
        if t.len() > 0 {
            assert(t[0] == s[0]);
        }
    }
}

/// Taking the white space at the end away takes away nothing else, and leaves
/// none there.
pub proof fn law_trim_end(s: Seq<char>)
    ensures
        exists|b: Seq<char>| blank(b) && s == #[trigger] (trim_end(s) + b),
        trim_end(s).len() > 0 ==> !white_space(trim_end(s).last()),
    decreases s.len(),
{
    if s.len() > 0 && white_space(s.last()) {
        let rest = s.drop_last();
        law_trim_end(rest);
        let b = choose|b: Seq<char>| blank(b) && rest == #[trigger] (trim_end(rest) + b);
        assert(s =~= rest.push(s.last()));
        assert(trim_end(s) == trim_end(rest));
        assert(rest.push(s.last()) =~= trim_end(rest) + b.push(s.last()));
        assert(blank(b.push(s.last())));
    } else {
        let b = Seq::<char>::empty();
        assert(s =~= trim_end(s) + b);
        assert(blank(b));
    }
}

/// Only one text is left of a text by trimming: where white space alone
/// surrounds what neither starts nor ends with it, that is left.
pub proof fn law_trimmed_only(a: Seq<char>, t: Seq<char>, b: Seq<char>)
    requires
        blank(a),
        blank(b),
        t.len() > 0 ==> !white_space(t[0]) && !white_space(t.last()),
    ensures
        trimmed(a + t + b) == t,
{
    let s = a + t + b;
    let from = a.len() as int;
    let to = from + t.len();
    assert forall|i: int| 0 <= i < from implies white_space(#[trigger] s[i]) by {
        assert(s[i] == a[i]);
    }
    assert forall|i: int| to <= i < s.len() implies white_space(#[trigger] s[i]) by {
        assert(s[i] == b[i - to]);
    }
    if t.len() > 0 {
        assert(s[from] == t[0] && s[to - 1] == t.last());
    }
    lemma_trimmed_part(s, from, to);
    assert(s.subrange(from, to) =~= t);
}

/// One part is itself, and no parts are the empty text.
pub proof fn law_joined_one(part: Seq<char>, sep: Seq<char>)
    ensures
        joined(seq![part], sep) == part,
        joined(Seq::<Seq<char>>::empty(), sep) == Seq::<char>::empty(),
{
}

/// Parts in a row are the first of them, `sep`, and the others: no part is left
/// out, and each stands behind the one before it.
pub proof fn law_joined(a: Seq<Seq<char>>, b: Seq<Seq<char>>, sep: Seq<char>)
    requires
        a.len() > 0,
        b.len() > 0,
    ensures
        joined(a + b, sep) == joined(a, sep) + sep + joined(b, sep),
    decreases b.len(),
{
    let all = a + b;
    assert(all.last() == b.last());
    assert(all.drop_last() =~= a + b.drop_last());
    if b.len() == 1 {
        assert(all.drop_last() =~= a);
    } else {
        law_joined(a, b.drop_last(), sep);
        assert(joined(all, sep) =~= joined(a, sep) + sep + joined(b, sep));
    }
}

/// The pieces make up the text, with the mark between each two, and hold no
/// mark themselves.
pub proof fn law_pieces(s: Seq<char>, mark: char)
    ensures
        pieces(s, mark).len() > 0,
        joined(pieces(s, mark), seq![mark]) == s,
        forall|i: int| 0 <= i < pieces(s, mark).len() ==> !(#[trigger] pieces(s, mark)[i]).contains(
            mark,
        ),
    decreases s.len(),
{
    let p = pieces(s, mark);
    let sep = seq![mark];
    if s.len() == 0 {
        assert(p =~= seq![Seq::<char>::empty()]);
        assert(s =~= Seq::<char>::empty());
    } else {
        let front = s.drop_last();
        let before = pieces(front, mark);
        let c = s.last();
        law_pieces(front, mark);
        assert(front.push(c) =~= s);
        if c == mark {
            assert(p.drop_last() =~= before);
            assert(joined(p, sep) =~= joined(before, sep) + sep);
            assert forall|i: int| 0 <= i < p.len() implies !(#[trigger] p[i]).contains(mark) by {
                if i < before.len() {
                    assert(p[i] == before[i]);
                }
            }
        } else {
            let rest = before.drop_last();
            assert(p.drop_last() =~= rest);
            assert(p.last() == before.last().push(c));
            if rest.len() == 0 {
                assert(joined(p, sep) =~= before[0].push(c));
            } else {
                assert(joined(p, sep) =~= joined(rest, sep) + sep + before.last().push(c));
                assert(joined(p, sep) =~= joined(before, sep).push(c));
            }
            assert forall|i: int| 0 <= i < p.len() implies !(#[trigger] p[i]).contains(mark) by {
                if i < rest.len() {
                    assert(p[i] == before[i]);
                } else {
                    let last = before[before.len() - 1];
                    assert forall|k: int| 0 <= k < p[i].len() implies p[i][k] != mark by {
                        if k < last.len() {
                            assert(last[k] != mark) by {
                                if last[k] == mark {
                                    assert(last.contains(mark));
                                }
                            }
                        }
                    }
                }
            }
        }
    }
}

/// A text without white space is one word, and white space alone is none.
pub proof fn law_one_word(s: Seq<char>)
    ensures
        blank(s) ==> words(s) == 0,
        s.len() > 0 && (forall|i: int| 0 <= i < s.len() ==> !white_space(#[trigger] s[i]))
            ==> words(s) == 1,
    decreases s.len(),
{
    if s.len() > 0 {
        let front = s.drop_last();
        assert(s.last() == s[s.len() - 1]);
        assert forall|i: int| 0 <= i < front.len() implies #[trigger] front[i] == s[i] by {}
        law_one_word(front);
        if blank(s) {
            assert forall|i: int| 0 <= i < front.len() implies white_space(#[trigger] front[i]) by {
                assert(white_space(s[i]));
            }
        }
        if front.len() == 0 {
            assert(front =~= Seq::<char>::empty());
            assert(words(front) == 0);
        } else if forall|i: int| 0 <= i < s.len() ==> !white_space(#[trigger] s[i]) {
            assert(!white_space(s[s.len() - 2]));
        }
    }
}

/// White space parts words: those on both sides of it are counted apart.
pub proof fn law_words_apart(a: Seq<char>, gap: Seq<char>, b: Seq<char>)
    requires
        gap.len() > 0,
        blank(gap),
    ensures
        words(a + gap + b) == words(a) + words(b),
    decreases b.len(),
{
    let s = a + gap + b;
    if b.len() == 0 {
        lemma_words_before_space(a, gap);
        assert(s =~= a + gap);
    } else {
        let rest = b.drop_last();
        law_words_apart(a, gap, rest);
        assert(s.drop_last() =~= a + gap + rest);
        assert(s.last() == b.last());
        if b.len() == 1 {
            assert(s[s.len() - 2] == gap[gap.len() - 1]);
            assert(rest =~= Seq::<char>::empty());
        } else {
            assert(s[s.len() - 2] == b[b.len() - 2]);
        }
    }
}

proof fn lemma_words_before_space(a: Seq<char>, gap: Seq<char>)
    requires
        blank(gap),
    ensures
        words(a + gap) == words(a),
    decreases gap.len(),
{
    if gap.len() == 0 {
        assert(a + gap =~= a);
    } else {
        let rest = gap.drop_last();
        assert(gap.last() == gap[gap.len() - 1]);
        assert forall|i: int| 0 <= i < rest.len() implies white_space(#[trigger] rest[i]) by {
            assert(rest[i] == gap[i]);
        }
        lemma_words_before_space(a, rest);
        assert((a + gap).drop_last() =~= a + rest);
        assert((a + gap).last() == gap.last());
    }
}

/// A text parted at the last `pattern` is what stands before it, the pattern
/// and what stands behind it, and the pattern stands nowhere later. A text
/// without it is not parted.
pub proof fn law_parted_at_last(s: Seq<char>, pattern: Seq<char>)
    requires
        pattern.len() > 0,
    ensures
        ({
            let (before, rest) = parted_at_last(s, pattern);
            if contains(s, pattern) {
                &&& s == before + pattern + rest
                &&& forall|k: int| before.len() < k ==> !#[trigger] occurs_at(s, pattern, k)
            } else {
                before == s && rest == s
            }
        }),
{
    let end = s.len() as int;
    lemma_last_found(s, pattern, end);
    match last_at(s, pattern, end) {
        Some(at) => {
            let (before, rest) = parted_at_last(s, pattern);
            assert(s.subrange(at, at + pattern.len()) == pattern);
            assert(s =~= before + pattern + rest);
            assert(contains(s, pattern));
        },
        None => {
            if contains(s, pattern) {
                let at = choose|at: int| occurs_at(s, pattern, at);
                assert(at < end);
            }
        },
    }
}

proof fn lemma_last_found(s: Seq<char>, pattern: Seq<char>, end: int)
    requires
        0 <= end,
    ensures
        match last_at(s, pattern, end) {
            Some(at) => 0 <= at < end && occurs_at(s, pattern, at) && forall|k: int|
                at < k < end ==> !#[trigger] occurs_at(s, pattern, k),
            None => forall|k: int| 0 <= k < end ==> !#[trigger] occurs_at(s, pattern, k),
        },
    decreases end,
{
    if end > 0 && !occurs_at(s, pattern, end - 1) {
        lemma_last_found(s, pattern, end - 1);
    }
}

/// What is left once the endings are taken away does not end in one, and with
/// the ending put back nothing else is left.
pub proof fn law_stripped(s: Seq<char>, ending: Seq<char>)
    requires
        ending.len() > 0,
    ensures
        !ends_in(stripped(s, ending), ending),
        !ends_in(s, ending) ==> stripped(s, ending) == s,
        stripped(s + ending, ending) == stripped(s, ending),
    decreases s.len(),
{
    let longer = s + ending;
    assert(longer.skip(longer.len() - ending.len()) =~= ending);
    assert(longer.take(longer.len() - ending.len()) =~= s);
    if ends_in(s, ending) {
        law_stripped(s.take(s.len() - ending.len()), ending);
    }
}

/// A text without the pattern stays as it is; otherwise the first one is
/// replaced, and what stands behind it likewise.
pub proof fn law_replaced(a: Seq<char>, pattern: Seq<char>, b: Seq<char>, by: Seq<char>)
    requires
        pattern.len() > 0,
        forall|k: int| 0 <= k < a.len() ==> !#[trigger] occurs_at(a + pattern + b, pattern, k),
    ensures
        replaced(a + pattern + b, pattern, by) == a + by + replaced(b, pattern, by),
        !contains(a, pattern) ==> replaced(a, pattern, by) == a,
{
    let s = a + pattern + b;
    let n = a.len() as int;
    assert(s.subrange(n, n + pattern.len()) =~= pattern);
    lemma_first_at(s, pattern, 0, Some(n));
    assert(s.take(n) =~= a);
    assert(s.skip(n + pattern.len()) =~= b);
    if !contains(a, pattern) {
        lemma_first_at(a, pattern, 0, None);
    }
}

/// `a` and `b` agree before `k`, and there `a` ends or has the lower character.
pub open spec fn lower_at(a: Seq<char>, b: Seq<char>, k: int) -> bool {
    &&& 0 <= k <= a.len()
    &&& k < b.len()
    &&& a.take(k) == b.take(k)
    &&& k == a.len() || a[k] < b[k]
}

/// The order is that of a dictionary: the first character in which two texts
/// differ decides, and a text comes before all that continue it.
pub proof fn law_precedes(a: Seq<char>, b: Seq<char>)
    ensures
        precedes(a, b) <==> exists|k: int| lower_at(a, b, k),
        precedes(a, b) || precedes(b, a) || a == b,
        !(precedes(a, b) && precedes(b, a)),
    decreases a.len(),
{
    if a.len() > 0 && b.len() > 0 && a[0] == b[0] {
        let (x, y) = (a.drop_first(), b.drop_first());
        law_precedes(x, y);
        if precedes(x, y) {
            let k = choose|k: int| lower_at(x, y, k);
            assert(a.take(k + 1) =~= seq![a[0]] + x.take(k));
            assert(b.take(k + 1) =~= seq![b[0]] + y.take(k));
            assert(lower_at(a, b, k + 1));
        }
        if exists|k: int| lower_at(a, b, k) {
            let k = choose|k: int| lower_at(a, b, k);
            assert(k > 0);
            assert(x.take(k - 1) =~= a.take(k).drop_first());
            assert(y.take(k - 1) =~= b.take(k).drop_first());
            assert(lower_at(x, y, k - 1));
        }
        if x == y {
            assert(a =~= seq![a[0]] + x);
            assert(b =~= seq![b[0]] + y);
        }
    } else {
        if precedes(a, b) {
            assert(a.take(0) =~= b.take(0));
            assert(lower_at(a, b, 0));
        }
        if exists|k: int| lower_at(a, b, k) {
            let k = choose|k: int| lower_at(a, b, k);
            if k > 0 {
                assert(a.take(k)[0] == b.take(k)[0]);
            }
        }
        if a.len() == 0 && b.len() == 0 {
            assert(a =~= b);
        }
    }
}

// ---------------------------------------------------------------------------
//  Picking
// ---------------------------------------------------------------------------

/// `at` are the wanted ones among the first `n` places, all of them, in order.
pub open spec fn picks(at: Seq<int>, n: int, wanted: spec_fn(int) -> bool) -> bool {
    &&& forall|k: int| 0 <= k < at.len() ==> 0 <= #[trigger] at[k] < n && wanted(at[k])
    &&& forall|j: int, k: int| 0 <= j < k < at.len() ==> at[j] < at[k]
    &&& forall|i: int| 0 <= i < n && #[trigger] wanted(i) ==> at.contains(i)
}

/// One more place, which is wanted or not.
pub proof fn lemma_picks_next(at: Seq<int>, n: int, wanted: spec_fn(int) -> bool)
    requires
        0 <= n,
        picks(at, n, wanted),
    ensures
        wanted(n) ==> picks(at.push(n), n + 1, wanted),
        !wanted(n) ==> picks(at, n + 1, wanted),
{
    if wanted(n) {
        let more = at.push(n);
        assert forall|k: int| 0 <= k < more.len() implies 0 <= #[trigger] more[k] < n + 1 && wanted(
            more[k],
        ) by {
            if k < at.len() {
                assert(more[k] == at[k]);
            }
        }
        assert forall|j: int, k: int| 0 <= j < k < more.len() implies more[j] < more[k] by {
            assert(more[j] == at[j]);
            if k < at.len() {
                assert(more[k] == at[k]);
            }
        }
        assert forall|i: int| 0 <= i < n + 1 && #[trigger] wanted(i) implies more.contains(i) by {
            if i < n {
                let k = choose|k: int| 0 <= k < at.len() && at[k] == i;
                assert(more[k] == i);
            } else {
                assert(more[at.len() as int] == i);
            }
        }
    }
}

/// Conditions that agree pick the same places.
pub proof fn lemma_picks_agree(
    at: Seq<int>,
    n: int,
    wanted: spec_fn(int) -> bool,
    also: spec_fn(int) -> bool,
)
    requires
        picks(at, n, wanted),
        forall|i: int| 0 <= i < n ==> #[trigger] wanted(i) == also(i),
    ensures
        picks(at, n, also),
{
    assert forall|k: int| 0 <= k < at.len() implies 0 <= #[trigger] at[k] < n && also(at[k]) by {
        assert(wanted(at[k]));
    }
    assert forall|i: int| 0 <= i < n && #[trigger] also(i) implies at.contains(i) by {
        assert(wanted(i));
    }
}

} // verus!
