//! Text primitives over sequences of characters.
//!
//! Each spec function here states what the matching `str` method of std does
//! (`trim`, `trim_matches`, `split`, `lines`, `find`, ...); the executable
//! functions work on a `Vec<char>` and a span `[lo, hi)` of it, and are proved
//! against those statements.
use vstd::prelude::*;

verus! {

/// A class of characters that a trim or a search matches.
#[derive(Clone, Copy)]
pub enum CharSet {
    /// Unicode `White_Space`, which is what `char::is_whitespace` tests.
    Space,
    /// One given character.
    One(char),
    /// The square brackets `[` and `]`.
    Brackets,
}

/// `char::is_whitespace`: the characters with the Unicode `White_Space` property.
pub open spec fn is_space(c: char) -> bool {
    let u = c as u32;
    ||| 0x9 <= u <= 0xd
    ||| u == 0x20
    ||| u == 0x85
    ||| u == 0xa0
    ||| u == 0x1680
    ||| 0x2000 <= u <= 0x200a
    ||| u == 0x2028
    ||| u == 0x2029
    ||| u == 0x202f
    ||| u == 0x205f
    ||| u == 0x3000
}

pub open spec fn in_set(set: CharSet, c: char) -> bool {
    match set {
        CharSet::Space => is_space(c),
        CharSet::One(d) => c == d,
        CharSet::Brackets => c == '[' || c == ']',
    }
}

pub fn set_has(set: CharSet, c: char) -> (b: bool)
    ensures
        b == in_set(set, c),
{
    match set {
        CharSet::Space => {
            let u = c as u32;
            (0x9 <= u && u <= 0xd) || u == 0x20 || u == 0x85 || u == 0xa0 || u == 0x1680 || (0x2000
                <= u && u <= 0x200a) || u == 0x2028 || u == 0x2029 || u == 0x202f || u == 0x205f
                || u == 0x3000
        },
        CharSet::One(d) => c == d,
        CharSet::Brackets => c == '[' || c == ']',
    }
}

/// `s` with every leading character of `set` removed (`trim_start_matches`).
pub open spec fn trim_start_by(s: Seq<char>, set: CharSet) -> Seq<char>
    decreases s.len(),
{
    if s.len() > 0 && in_set(set, s[0]) {
        trim_start_by(s.drop_first(), set)
    } else {
        s
    }
}

/// `s` with every trailing character of `set` removed (`trim_end_matches`).
pub open spec fn trim_end_by(s: Seq<char>, set: CharSet) -> Seq<char>
    decreases s.len(),
{
    if s.len() > 0 && in_set(set, s.last()) {
        trim_end_by(s.drop_last(), set)
    } else {
        s
    }
}

/// `trim_matches`: both ends stripped of the characters of `set`.
pub open spec fn trim_by(s: Seq<char>, set: CharSet) -> Seq<char> {
    trim_end_by(trim_start_by(s, set), set)
}

/// `str::trim`.
pub open spec fn trim(s: Seq<char>) -> Seq<char> {
    trim_by(s, CharSet::Space)
}

/// The index of the first character of `s` in `set` (`str::find` with a char pattern).
pub open spec fn find_by(s: Seq<char>, set: CharSet) -> Option<int>
    decreases s.len(),
{
    if s.len() == 0 {
        None
    } else if in_set(set, s[0]) {
        Some(0)
    } else {
        match find_by(s.drop_first(), set) {
            Some(i) => Some(i + 1),
            None => None,
        }
    }
}

/// `str::split` with a char pattern: the pieces between the separators, empty ones included.
pub open spec fn split_by(s: Seq<char>, set: CharSet) -> Seq<Seq<char>>
    decreases s.len(),
{
    match find_by(s, set) {
        Some(i) => if 0 <= i < s.len() {
            seq![s.take(i)].add(split_by(s.skip(i + 1), set))
        } else {
            seq![s]
        },
        None => seq![s],
    }
}

/// `str::split_once` with a char pattern.
pub open spec fn split_once_by(s: Seq<char>, set: CharSet) -> Option<(Seq<char>, Seq<char>)> {
    match find_by(s, set) {
        Some(i) => Some((s.take(i), s.skip(i + 1))),
        None => None,
    }
}

/// A line as `str::lines` gives it: the text before a `\n`, less one `\r` before it.
pub open spec fn strip_cr(line: Seq<char>) -> Seq<char> {
    if line.len() > 0 && line.last() == '\r' {
        line.drop_last()
    } else {
        line
    }
}

/// `str::lines`: split at each `\n` (and `\r\n`); a last empty line is not yielded.
pub open spec fn lines(s: Seq<char>) -> Seq<Seq<char>>
    decreases s.len(),
{
    if s.len() == 0 {
        seq![]
    } else {
        match find_by(s, CharSet::One('\n')) {
            Some(i) => if 0 <= i < s.len() {
                seq![strip_cr(s.take(i))].add(lines(s.skip(i + 1)))
            } else {
                seq![s]
            },
            None => seq![s],
        }
    }
}

/// The characters of a span.
pub open spec fn span(s: Seq<char>, r: (usize, usize)) -> Seq<char> {
    s.subrange(r.0 as int, r.1 as int)
}

pub proof fn lemma_find_by(s: Seq<char>, set: CharSet)
    ensures
        match find_by(s, set) {
            Some(i) => 0 <= i < s.len() && in_set(set, s[i]) && forall|j: int|
                0 <= j < i ==> !in_set(set, #[trigger] s[j]),
            None => forall|j: int| 0 <= j < s.len() ==> !in_set(set, #[trigger] s[j]),
        },
    decreases s.len(),
{
    if s.len() > 0 && !in_set(set, s[0]) {
        lemma_find_by(s.drop_first(), set);
        assert forall|j: int| 0 < j < s.len() implies s[j] == s.drop_first()[j - 1] by {}
    }
}

/// The first index of a character of `set` characterises `find_by`.
pub proof fn lemma_find_by_is(s: Seq<char>, set: CharSet, i: int)
    requires
        0 <= i < s.len(),
        in_set(set, s[i]),
        forall|j: int| 0 <= j < i ==> !in_set(set, #[trigger] s[j]),
    ensures
        find_by(s, set) == Some(i),
{
    lemma_find_by(s, set);
    match find_by(s, set) {
        Some(k) => {
            if k < i {
                assert(!in_set(set, s[k]));
            } else if k > i {
                assert(!in_set(set, s[i]));
            }
        },
        None => {
            assert(!in_set(set, s[i]));
        },
    }
}

pub proof fn lemma_find_by_none(s: Seq<char>, set: CharSet)
    requires
        forall|j: int| 0 <= j < s.len() ==> !in_set(set, #[trigger] s[j]),
    ensures
        find_by(s, set) is None,
{
    lemma_find_by(s, set);
    if let Some(k) = find_by(s, set) {
        assert(!in_set(set, s[k]));
    }
}

/// The characters of `s`, in order.
pub fn chars_of(s: &str) -> (v: Vec<char>)
    ensures
        v@ == s@,
{
    let mut v: Vec<char> = Vec::new();
    for c in it: s.chars()
        invariant
            v@ == it.seq().take(it.index() as int),
    {
        v.push(c);
    }
    v
}

/// `String::push`: appends one character.
#[verifier::external_body]
fn push_char(s: &mut String, c: char)
    ensures
        final(s)@ == old(s)@.push(c),
{
    s.push(c);
}

/// The string made of the characters of a span.
pub fn string_of(s: &Vec<char>, lo: usize, hi: usize) -> (r: String)
    requires
        lo <= hi <= s@.len(),
    ensures
        r@ == s@.subrange(lo as int, hi as int),
{
    let mut r = String::new();
    let mut i = lo;
    while i < hi
        invariant
            lo <= i <= hi <= s@.len(),
            r@ == s@.subrange(lo as int, i as int),
        decreases hi - i,
    {
        push_char(&mut r, s[i]);
        assert(s@.subrange(lo as int, i + 1) =~= s@.subrange(lo as int, i as int).push(s@[i as int]));
        i += 1;
    }
    r
}

/// The string made of all the characters of `s`.
pub fn string_from(s: &Vec<char>) -> (r: String)
    ensures
        r@ == s@,
{
    let r = string_of(s, 0, s.len());
    assert(s@.subrange(0, s@.len() as int) =~= s@);
    r
}

/// Appends the characters of `t` to `v`.
pub fn append_str(v: &mut Vec<char>, t: &str)
    ensures
        final(v)@ == old(v)@ + t@,
{
    let cs = chars_of(t);
    append_chars(v, &cs);
}

/// Appends the characters of `t` to `v`.
pub fn append_chars(v: &mut Vec<char>, t: &Vec<char>)
    ensures
        final(v)@ == old(v)@ + t@,
{
    let ghost start = v@;
    let mut i: usize = 0;
    while i < t.len()
        invariant
            i <= t@.len(),
            v@ == start + t@.take(i as int),
        decreases t.len() - i,
    {
        v.push(t[i]);
        assert(t@.take(i + 1) =~= t@.take(i as int).push(t@[i as int]));
        i += 1;
    }
    assert(t@.take(t@.len() as int) =~= t@);
}

/// The span of `s[lo..hi]` that `trim_matches` with `set` leaves.
pub fn trim_span(s: &Vec<char>, lo: usize, hi: usize, set: CharSet) -> (r: (usize, usize))
    requires
        lo <= hi <= s@.len(),
    ensures
        lo <= r.0 <= r.1 <= hi,
        span(s@, r) == trim_by(s@.subrange(lo as int, hi as int), set),
{
    let mut a = lo;
    while a < hi && set_has(set, s[a])
        invariant
            lo <= a <= hi <= s@.len(),
            trim_start_by(s@.subrange(lo as int, hi as int), set) == trim_start_by(
                s@.subrange(a as int, hi as int),
                set,
            ),
        decreases hi - a,
    {
        assert(s@.subrange(a as int, hi as int).drop_first() =~= s@.subrange(a + 1, hi as int));
        a += 1;
    }
    assert(trim_start_by(s@.subrange(a as int, hi as int), set) == s@.subrange(a as int, hi as int));
    let mut b = hi;
    while b > a && set_has(set, s[b - 1])
        invariant
            lo <= a <= b <= hi <= s@.len(),
            trim_end_by(s@.subrange(a as int, hi as int), set) == trim_end_by(
                s@.subrange(a as int, b as int),
                set,
            ),
        decreases b - a,
    {
        assert(s@.subrange(a as int, b as int).drop_last() =~= s@.subrange(a as int, b - 1));
        b -= 1;
    }
    (a, b)
}

/// The first index in `s[lo..hi]` of a character of `set`.
pub fn find_span(s: &Vec<char>, lo: usize, hi: usize, set: CharSet) -> (r: Option<usize>)
    requires
        lo <= hi <= s@.len(),
    ensures
        match r {
            Some(i) => lo <= i < hi && find_by(s@.subrange(lo as int, hi as int), set) == Some(
                i - lo,
            ),
            None => find_by(s@.subrange(lo as int, hi as int), set) is None,
        },
{
    let ghost sub = s@.subrange(lo as int, hi as int);
    let mut i = lo;
    while i < hi
        invariant
            lo <= i <= hi <= s@.len(),
            sub == s@.subrange(lo as int, hi as int),
            forall|j: int| 0 <= j < i - lo ==> !in_set(set, #[trigger] sub[j]),
        decreases hi - i,
    {
        if set_has(set, s[i]) {
            proof {
                lemma_find_by_is(sub, set, i - lo);
            }
            return Some(i);
        }
        i += 1;
    }
    proof {
        lemma_find_by_none(sub, set);
    }
    None
}

/// The pieces of `s[lo..hi]` that `split` at the characters of `set` gives, as spans.
pub fn split_spans(s: &Vec<char>, lo: usize, hi: usize, set: CharSet) -> (r: Vec<(usize, usize)>)
    requires
        lo <= hi <= s@.len(),
    ensures
        r@.map_values(|p: (usize, usize)| span(s@, p)) == split_by(
            s@.subrange(lo as int, hi as int),
            set,
        ),
        forall|k: int| 0 <= k < r@.len() ==> lo <= (#[trigger] r@[k]).0 <= r@[k].1 <= hi,
{
    let mut r: Vec<(usize, usize)> = Vec::new();
    let mut start = lo;
    loop
        invariant
            lo <= start <= hi <= s@.len(),
            forall|k: int| 0 <= k < r@.len() ==> lo <= (#[trigger] r@[k]).0 <= r@[k].1 <= hi,
            split_by(s@.subrange(lo as int, hi as int), set) == r@.map_values(
                |p: (usize, usize)| span(s@, p),
            ) + split_by(s@.subrange(start as int, hi as int), set),
        decreases hi - start,
    {
        let ghost sub = s@.subrange(start as int, hi as int);
        match find_span(s, start, hi, set) {
            Some(i) => {
                assert(sub.take(i - start) =~= s@.subrange(start as int, i as int));
                assert(sub.skip(i - start + 1) =~= s@.subrange(i + 1, hi as int));
                assert(split_by(sub, set) == seq![s@.subrange(start as int, i as int)].add(
                    split_by(s@.subrange(i + 1, hi as int), set),
                ));
                let ghost old_r = r@;
                r.push((start, i));
                assert(r@.map_values(|p: (usize, usize)| span(s@, p)) =~= old_r.map_values(
                    |p: (usize, usize)| span(s@, p),
                ).push(s@.subrange(start as int, i as int)));
                start = i + 1;
            },
            None => {
                let ghost old_r = r@;
                r.push((start, hi));
                assert(r@.map_values(|p: (usize, usize)| span(s@, p)) =~= old_r.map_values(
                    |p: (usize, usize)| span(s@, p),
                ).push(s@.subrange(start as int, hi as int)));
                return r;
            },
        }
    }
}

/// The lines of `s`, as spans (see `lines`).
pub fn line_spans(s: &Vec<char>) -> (r: Vec<(usize, usize)>)
    ensures
        r@.map_values(|p: (usize, usize)| span(s@, p)) == lines(s@),
        forall|k: int| 0 <= k < r@.len() ==> (#[trigger] r@[k]).0 <= r@[k].1 <= s@.len(),
{
    let mut r: Vec<(usize, usize)> = Vec::new();
    let mut start: usize = 0;
    let n = s.len();
    assert(s@.subrange(0, n as int) =~= s@);
    while start < n
        invariant
            start <= n == s@.len(),
            forall|k: int| 0 <= k < r@.len() ==> (#[trigger] r@[k]).0 <= r@[k].1 <= n,
            lines(s@) == r@.map_values(|p: (usize, usize)| span(s@, p)) + lines(
                s@.subrange(start as int, n as int),
            ),
        decreases n - start,
    {
        let ghost sub = s@.subrange(start as int, n as int);
        let ghost old_r = r@;
        match find_span(s, start, n, CharSet::One('\n')) {
            Some(i) => {
                let end = if i > start && s[i - 1] == '\r' {
                    i - 1
                } else {
                    i
                };
                assert(strip_cr(sub.take(i - start)) =~= s@.subrange(start as int, end as int));
                assert(sub.skip(i - start + 1) =~= s@.subrange(i + 1, n as int));
                r.push((start, end));
                assert(r@.map_values(|p: (usize, usize)| span(s@, p)) =~= old_r.map_values(
                    |p: (usize, usize)| span(s@, p),
                ).push(s@.subrange(start as int, end as int)));
                start = i + 1;
            },
            None => {
                r.push((start, n));
                assert(r@.map_values(|p: (usize, usize)| span(s@, p)) =~= old_r.map_values(
                    |p: (usize, usize)| span(s@, p),
                ).push(sub));
                assert(lines(s@.subrange(n as int, n as int)) =~= Seq::<Seq<char>>::empty());
                start = n;
            },
        }
    }
    assert(lines(s@.subrange(start as int, n as int)) =~= Seq::<Seq<char>>::empty());
    r
}

/// Whether the span `[lo, hi)` of `s` holds exactly the characters of `t`.
pub fn span_is(s: &Vec<char>, lo: usize, hi: usize, t: &Vec<char>) -> (b: bool)
    requires
        lo <= hi <= s@.len(),
    ensures
        b == (s@.subrange(lo as int, hi as int) == t@),
{
    if hi - lo != t.len() {
        return false;
    }
    let mut i: usize = 0;
    while i < t.len()
        invariant
            hi - lo == t@.len(),
            lo <= hi <= s@.len(),
            i <= t@.len(),
            forall|j: int| 0 <= j < i ==> s@[lo + j] == t@[j],
        decreases t.len() - i,
    {
        if s[lo + i] != t[i] {
            assert(s@.subrange(lo as int, hi as int)[i as int] != t@[i as int]);
            return false;
        }
        i += 1;
    }
    assert(s@.subrange(lo as int, hi as int) =~= t@);
    true
}

/// Whether two strings hold the same characters.
pub fn same_text(a: &Vec<char>, b: &Vec<char>) -> (r: bool)
    ensures
        r == (a@ == b@),
{
    let r = span_is(a, 0, a.len(), b);
    assert(a@.subrange(0, a@.len() as int) =~= a@);
    r
}

/// Whether `t` occurs in `s` at index `i`.
pub open spec fn occurs_at(s: Seq<char>, t: Seq<char>, i: int) -> bool {
    0 <= i && i + t.len() <= s.len() && s.subrange(i, i + t.len()) == t
}

/// `str::contains` with a string pattern.
pub open spec fn contains_text(s: Seq<char>, t: Seq<char>) -> bool {
    exists|i: int| occurs_at(s, t, i)
}

/// `str::find` with a string pattern: the first index where `t` occurs in `s`.
pub open spec fn find_text(s: Seq<char>, t: Seq<char>) -> Option<int> {
    if contains_text(s, t) {
        Some(choose|i: int| occurs_at(s, t, i) && forall|j: int| 0 <= j < i ==> !occurs_at(s, t, j))
    } else {
        None
    }
}

/// What `find_text` gives: the first occurrence, or none at all.
pub proof fn lemma_find_text(s: Seq<char>, t: Seq<char>)
    ensures
        match find_text(s, t) {
            Some(i) => occurs_at(s, t, i) && forall|j: int| 0 <= j < i ==> !occurs_at(s, t, j),
            None => !contains_text(s, t),
        },
{
    if contains_text(s, t) {
        let w = choose|i: int| occurs_at(s, t, i);
        lemma_first_occurrence(s, t, w);
    }
}

/// Where `t` occurs at `w`, it occurs first somewhere at or before `w`.
proof fn lemma_first_occurrence(s: Seq<char>, t: Seq<char>, w: int)
    requires
        occurs_at(s, t, w),
    ensures
        exists|i: int| occurs_at(s, t, i) && forall|j: int| 0 <= j < i ==> !occurs_at(s, t, j),
    decreases w,
{
    if exists|j: int| 0 <= j < w && occurs_at(s, t, j) {
        let j = choose|j: int| 0 <= j < w && occurs_at(s, t, j);
        lemma_first_occurrence(s, t, j);
    } else {
        assert(occurs_at(s, t, w) && forall|j: int| 0 <= j < w ==> !occurs_at(s, t, j));
    }
}

/// The first index at or after `from` where `t` occurs in `s`.
pub fn find_text_from(s: &Vec<char>, t: &Vec<char>, from: usize) -> (r: Option<usize>)
    requires
        from <= s@.len(),
    ensures
        match r {
            Some(i) => from <= i && occurs_at(s@, t@, i as int) && forall|j: int|
                from <= j < i ==> !occurs_at(s@, t@, j),
            None => forall|j: int| from <= j ==> !occurs_at(s@, t@, j),
        },
{
    if t.len() > s.len() {
        return None;
    }
    let last = s.len() - t.len();
    if from > last {
        return None;
    }
    let mut i = from;
    loop
        invariant
            from <= i <= last,
            t@.len() <= s@.len() <= usize::MAX,
            last == s@.len() - t@.len(),
            forall|j: int| from <= j < i ==> !occurs_at(s@, t@, j),
        decreases last - i,
    {
        let end = i + t.len();
        if span_is(s, i, end, t) {
            return Some(i);
        }
        if i == last {
            return None;
        }
        i += 1;
    }
}

/// `str::find` with a string pattern.
pub fn find_text_in(s: &Vec<char>, t: &Vec<char>) -> (r: Option<usize>)
    ensures
        match r {
            Some(i) => find_text(s@, t@) == Some(i as int),
            None => find_text(s@, t@) is None,
        },
{
    let r = find_text_from(s, t, 0);
    match r {
        Some(i) => {
            assert(contains_text(s@, t@));
            proof {
                let k = choose|k: int|
                    occurs_at(s@, t@, k) && forall|j: int| 0 <= j < k ==> !occurs_at(s@, t@, j);
                assert(occurs_at(s@, t@, k) && forall|j: int| 0 <= j < k ==> !occurs_at(s@, t@, j));
                if k < i {
                } else if k > i {
                    assert(!occurs_at(s@, t@, i as int));
                }
            }
        },
        None => {
        },
    }
    r
}

/// `str::contains` with a string pattern.
pub fn contains_in(s: &Vec<char>, t: &Vec<char>) -> (b: bool)
    ensures
        b == contains_text(s@, t@),
{
    find_text_from(s, t, 0).is_some()
}

/// `char::to_ascii_lowercase`.
pub open spec fn lower_char(c: char) -> char {
    if 'A' <= c <= 'Z' {
        (((c as u32) + 32) as u8) as char
    } else {
        c
    }
}

/// `str::to_ascii_lowercase`.
pub open spec fn lower(s: Seq<char>) -> Seq<char> {
    s.map_values(|c: char| lower_char(c))
}

pub fn lowercase(s: &Vec<char>) -> (r: Vec<char>)
    ensures
        r@ == lower(s@),
{
    let mut r: Vec<char> = Vec::new();
    let mut i: usize = 0;
    while i < s.len()
        invariant
            i <= s@.len(),
            r@ == lower(s@.take(i as int)),
        decreases s.len() - i,
    {
        let c = s[i];
        let d = if 'A' <= c && c <= 'Z' {
            (((c as u32) + 32) as u8) as char
        } else {
            c
        };
        r.push(d);
        assert(lower(s@.take(i + 1)) =~= lower(s@.take(i as int)).push(lower_char(c)));
        i += 1;
    }
    assert(s@.take(s@.len() as int) =~= s@);
    r
}

/// Appends the characters of the span `[lo, hi)` of `s` to `v`.
pub fn push_span(v: &mut Vec<char>, s: &Vec<char>, lo: usize, hi: usize)
    requires
        lo <= hi <= s@.len(),
    ensures
        final(v)@ == old(v)@ + s@.subrange(lo as int, hi as int),
{
    let ghost start = v@;
    let mut i = lo;
    while i < hi
        invariant
            lo <= i <= hi <= s@.len(),
            v@ == start + s@.subrange(lo as int, i as int),
        decreases hi - i,
    {
        v.push(s[i]);
        assert(s@.subrange(lo as int, i + 1) =~= s@.subrange(lo as int, i as int).push(s@[i as int]));
        i += 1;
    }
}

/// A copy of the span `[lo, hi)` of `s`.
pub fn copy_span(s: &Vec<char>, lo: usize, hi: usize) -> (r: Vec<char>)
    requires
        lo <= hi <= s@.len(),
    ensures
        r@ == s@.subrange(lo as int, hi as int),
{
    let mut r: Vec<char> = Vec::new();
    push_span(&mut r, s, lo, hi);
    assert(r@ =~= s@.subrange(lo as int, hi as int));
    r
}

/// The pieces of `ps` that are not empty, in order.
pub open spec fn nonempty(ps: Seq<Seq<char>>) -> Seq<Seq<char>>
    decreases ps.len(),
{
    if ps.len() == 0 {
        seq![]
    } else if ps.last().len() > 0 {
        nonempty(ps.drop_last()).push(ps.last())
    } else {
        nonempty(ps.drop_last())
    }
}

/// `str::split_whitespace`: the non-empty pieces between whitespace.
pub open spec fn split_ws(s: Seq<char>) -> Seq<Seq<char>> {
    nonempty(split_by(s, CharSet::Space))
}

/// `join(sep)`: the items with `sep` between each two.
pub open spec fn join(items: Seq<Seq<char>>, sep: Seq<char>) -> Seq<char>
    decreases items.len(),
{
    if items.len() == 0 {
        seq![]
    } else if items.len() == 1 {
        items[0]
    } else {
        join(items.drop_last(), sep) + sep + items.last()
    }
}

/// The character sequences of a list of character vectors.
pub open spec fn views(v: Seq<Vec<char>>) -> Seq<Seq<char>> {
    v.map_values(|x: Vec<char>| x@)
}

/// The pieces of `s` that `split_whitespace` gives.
pub fn split_whitespace_of(s: &Vec<char>) -> (r: Vec<Vec<char>>)
    ensures
        views(r@) == split_ws(s@),
{
    let spans = split_spans(s, 0, s.len(), CharSet::Space);
    assert(s@.subrange(0, s@.len() as int) =~= s@);
    let ghost ps = split_by(s@, CharSet::Space);
    let mut r: Vec<Vec<char>> = Vec::new();
    let mut k: usize = 0;
    assert(ps.take(0) =~= Seq::<Seq<char>>::empty());
    while k < spans.len()
        invariant
            k <= spans@.len(),
            spans@.map_values(|p: (usize, usize)| span(s@, p)) == ps,
            forall|j: int| 0 <= j < spans@.len() ==> (#[trigger] spans@[j]).0 <= spans@[j].1 <= s@.len(),
            views(r@) == nonempty(ps.take(k as int)),
        decreases spans.len() - k,
    {
        let (a, b) = spans[k];
        assert(span(s@, spans@[k as int]) == ps[k as int]);
        assert(ps.take(k + 1).drop_last() =~= ps.take(k as int));
        if a < b {
            let ghost before = views(r@);
            r.push(copy_span(s, a, b));
            assert(views(r@) =~= before.push(ps[k as int]));
        }
        k += 1;
    }
    assert(ps.take(spans@.len() as int) =~= ps);
    r
}

/// The items of `items` with `sep` between each two.
pub fn join_chars(items: &Vec<Vec<char>>, sep: &str) -> (r: Vec<char>)
    ensures
        r@ == join(views(items@), sep@),
{
    let mut out: Vec<char> = Vec::new();
    let ghost vs = views(items@);
    let mut i: usize = 0;
    assert(vs.take(0) =~= Seq::<Seq<char>>::empty());
    while i < items.len()
        invariant
            i <= items@.len(),
            vs == views(items@),
            out@ == join(vs.take(i as int), sep@),
        decreases items.len() - i,
    {
        if i > 0 {
            append_str(&mut out, sep);
        }
        append_chars(&mut out, &items[i]);
        assert(vs.take(i + 1).drop_last() =~= vs.take(i as int));
        assert(vs[i as int] == items@[i as int]@);
        assert(out@ =~= join(vs.take(i + 1), sep@));
        i += 1;
    }
    assert(vs.take(items@.len() as int) =~= vs);
    out
}

/// A copy of `s`.
pub fn copy_all(s: &Vec<char>) -> (r: Vec<char>)
    ensures
        r@ == s@,
{
    let mut r: Vec<char> = Vec::new();
    append_chars(&mut r, s);
    assert(r@ =~= s@);
    r
}

/// The strings of a list of string literals.
pub fn to_strings(v: Vec<&'static str>) -> (r: Vec<String>)
    ensures
        r.deep_view() == v@.map_values(|s: &'static str| s@),
{
    let mut r: Vec<String> = Vec::new();
    let mut i: usize = 0;
    while i < v.len()
        invariant
            i <= v@.len(),
            r.deep_view() == v@.take(i as int).map_values(|s: &'static str| s@),
        decreases v.len() - i,
    {
        let ghost before = r.deep_view();
        let t = string_from(&chars_of(v[i]));
        r.push(t);
        assert(r.deep_view() =~= before.push(v@[i as int]@));
        assert(v@.take(i + 1).map_values(|s: &'static str| s@) =~= v@.take(i as int).map_values(
            |s: &'static str| s@,
        ).push(v@[i as int]@));
        i += 1;
    }
    assert(v@.take(v@.len() as int) =~= v@);
    r
}

/// The string of a literal.
pub fn text_of(s: &str) -> (r: String)
    ensures
        r@ == s@,
{
    string_from(&chars_of(s))
}

/// Whether the span `[lo, hi)` of `s` starts with the characters of `p`.
pub fn span_starts_with(s: &Vec<char>, lo: usize, hi: usize, p: &Vec<char>) -> (b: bool)
    requires
        lo <= hi <= s@.len(),
    ensures
        b == (p@.len() <= hi - lo && s@.subrange(lo as int, hi as int).take(p@.len() as int) == p@),
{
    if hi - lo < p.len() {
        return false;
    }
    let r = span_is(s, lo, lo + p.len(), p);
    assert(s@.subrange(lo as int, hi as int).take(p@.len() as int) =~= s@.subrange(lo as int, lo + p@.len()));
    r
}

/// `split` always gives at least one piece.
pub proof fn lemma_split_nonempty(s: Seq<char>, set: CharSet)
    ensures
        split_by(s, set).len() >= 1,
{
    match find_by(s, set) {
        Some(i) => {
        },
        None => {
        },
    }
}


/// No character of `s` belongs to `set`.
pub open spec fn none_in(s: Seq<char>, set: CharSet) -> bool {
    forall|i: int| 0 <= i < s.len() ==> !in_set(set, #[trigger] s[i])
}

/// Every character of `s` belongs to `set`.
pub open spec fn all_in(s: Seq<char>, set: CharSet) -> bool {
    forall|i: int| 0 <= i < s.len() ==> in_set(set, #[trigger] s[i])
}

/// The first character of `set` in `a + b` is the first in `a`, or else the first in `b`.
pub proof fn lemma_find_by_append(a: Seq<char>, b: Seq<char>, set: CharSet)
    ensures
        find_by(a + b, set) == match find_by(a, set) {
            Some(i) => Some(i),
            None => match find_by(b, set) {
                Some(j) => Some(a.len() + j),
                None => None,
            },
        },
    decreases a.len(),
{
    if a.len() == 0 {
        assert(a + b =~= b);
    } else {
        assert((a + b).drop_first() =~= a.drop_first() + b);
        assert((a + b)[0] == a[0]);
        lemma_find_by_append(a.drop_first(), b, set);
    }
}

/// Splitting at a separator between two texts splits each text on its own.
pub proof fn lemma_split_by_join(a: Seq<char>, c: char, b: Seq<char>, set: CharSet)
    requires
        in_set(set, c),
    ensures
        split_by(a + seq![c] + b, set) == split_by(a, set) + split_by(b, set),
    decreases a.len(),
{
    let s = a + seq![c] + b;
    assert(s =~= a + (seq![c] + b));
    lemma_find_by_append(a, seq![c] + b, set);
    assert(find_by(seq![c] + b, set) == Some(0int));
    lemma_find_by(a, set);
    match find_by(a, set) {
        None => {
            assert(s.take(a.len() as int) =~= a);
            assert(s.skip(a.len() as int + 1) =~= b);
            assert(split_by(a, set) == seq![a]);
            assert(split_by(s, set) =~= split_by(a, set) + split_by(b, set));
        },
        Some(i) => {
            assert(s.take(i) =~= a.take(i));
            assert(s.skip(i + 1) =~= a.skip(i + 1) + seq![c] + b);
            lemma_split_by_join(a.skip(i + 1), c, b, set);
            assert(split_by(s, set) =~= split_by(a, set) + split_by(b, set));
        },
    }
}

/// A text with no separator is one piece.
pub proof fn lemma_split_by_whole(a: Seq<char>, set: CharSet)
    requires
        none_in(a, set),
    ensures
        split_by(a, set) == seq![a],
{
    lemma_find_by_none(a, set);
}

/// Leading characters of `set` are all trimmed away.
pub proof fn lemma_trim_start_skips(pre: Seq<char>, t: Seq<char>, set: CharSet)
    requires
        all_in(pre, set),
    ensures
        trim_start_by(pre + t, set) == trim_start_by(t, set),
    decreases pre.len(),
{
    if pre.len() == 0 {
        assert(pre + t =~= t);
    } else {
        assert((pre + t)[0] == pre[0]);
        assert((pre + t).drop_first() =~= pre.drop_first() + t);
        lemma_trim_start_skips(pre.drop_first(), t, set);
    }
}

/// Trailing characters of `set` are all trimmed away.
pub proof fn lemma_trim_end_skips(t: Seq<char>, post: Seq<char>, set: CharSet)
    requires
        all_in(post, set),
    ensures
        trim_end_by(t + post, set) == trim_end_by(t, set),
    decreases post.len(),
{
    if post.len() == 0 {
        assert(t + post =~= t);
    } else {
        assert((t + post).last() == post.last());
        assert((t + post).drop_last() =~= t + post.drop_last());
        lemma_trim_end_skips(t, post.drop_last(), set);
    }
}

/// Trimming the characters of `set` around a text that neither starts nor
/// ends with one of them gives back that text.
pub proof fn lemma_trim_around(pre: Seq<char>, s: Seq<char>, post: Seq<char>, set: CharSet)
    requires
        all_in(pre, set),
        all_in(post, set),
        s.len() > 0 ==> !in_set(set, s[0]) && !in_set(set, s.last()),
    ensures
        trim_by(pre + s + post, set) == s,
{
    assert(pre + s + post =~= pre + (s + post));
    lemma_trim_start_skips(pre, s + post, set);
    if s.len() > 0 {
        assert((s + post)[0] == s[0]);
        assert(trim_start_by(s + post, set) == s + post);
        lemma_trim_end_skips(s, post, set);
    } else {
        assert(s + post =~= post);
        assert(seq![] + post =~= post);
        lemma_trim_start_skips(post, seq![], set);
        assert(post + seq![] =~= post);
        assert(trim_start_by(seq![], set) == Seq::<char>::empty());
    }
}

/// The lines of text joined by line ends, each line followed by `\n`.
pub open spec fn unlines(ls: Seq<Seq<char>>) -> Seq<char>
    decreases ls.len(),
{
    if ls.len() == 0 {
        seq![]
    } else {
        unlines(ls.drop_last()) + ls.last() + "\n"@
    }
}

/// A line that `lines` gives back as it is: no `\n`, no trailing `\r`.
pub open spec fn single_line(l: Seq<char>) -> bool {
    none_in(l, CharSet::One('\n')) && (l.len() > 0 ==> l.last() != '\r')
}

pub proof fn lemma_unlines_append(a: Seq<Seq<char>>, b: Seq<Seq<char>>)
    ensures
        unlines(a + b) == unlines(a) + unlines(b),
    decreases b.len(),
{
    if b.len() == 0 {
        assert(a + b =~= a);
        assert(unlines(a) + Seq::<char>::empty() =~= unlines(a));
    } else {
        assert((a + b).drop_last() =~= a + b.drop_last());
        assert((a + b).last() == b.last());
        lemma_unlines_append(a, b.drop_last());
        assert(unlines(a + b) =~= unlines(a) + unlines(b));
    }
}

/// `lines` undoes `unlines` on lines that it gives back as they are.
pub proof fn lemma_lines_unlines(ls: Seq<Seq<char>>)
    requires
        forall|i: int| 0 <= i < ls.len() ==> single_line(#[trigger] ls[i]),
    ensures
        lines(unlines(ls)) == ls,
    decreases ls.len(),
{
    reveal_strlit("\n");
    if ls.len() > 0 {
        let first = ls[0];
        let rest = ls.drop_first();
        assert(ls =~= seq![first] + rest);
        lemma_unlines_append(seq![first], rest);
        assert(seq![first].drop_last() =~= Seq::<Seq<char>>::empty());
        let s = unlines(ls);
        assert("\n"@ =~= seq!['\n']);
        assert(unlines(seq![first].drop_last()) == Seq::<char>::empty());
        assert(unlines(seq![first]) =~= first + seq!['\n']);
        assert(s =~= first + (seq!['\n'] + unlines(rest)));
        assert(single_line(ls[0]));
        lemma_find_by_none(first, CharSet::One('\n'));
        lemma_find_by_append(first, seq!['\n'] + unlines(rest), CharSet::One('\n'));
        assert(find_by(seq!['\n'] + unlines(rest), CharSet::One('\n')) == Some(0int));
        assert(s.take(first.len() as int) =~= first);
        assert(s.skip(first.len() as int + 1) =~= unlines(rest));
        assert forall|i: int| 0 <= i < rest.len() implies single_line(#[trigger] rest[i]) by {
            assert(rest[i] == ls[i + 1]);
        }
        lemma_lines_unlines(rest);
        assert(lines(s) =~= seq![first] + rest);
    }
}

} // verus!
