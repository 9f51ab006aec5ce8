//! Searching, trimming and splitting of byte text.

use vstd::prelude::*;
use vstd::slice::slice_subrange;

verus! {

/// The line feed, which ends a line.
pub const LINE_FEED: u8 = 0x0a;

/// The carriage return, which may precede a line feed.
pub const CARRIAGE_RETURN: u8 = 0x0d;

/// The space.
pub const SPACE: u8 = 0x20;

/// The horizontal tab, the first of the control characters that count as
/// blanks; the carriage return is the last.
pub const TAB: u8 = 0x09;

/// The bytes of a text of ASCII characters.
pub open spec fn ascii_bytes(chars: Seq<char>) -> Seq<u8> {
    Seq::new(chars.len(), |i: int| chars[i] as u8)
}

/// A space, or one of the control characters from the horizontal tab to
/// the carriage return.
pub open spec fn is_blank(b: u8) -> bool {
    b == SPACE || TAB <= b <= CARRIAGE_RETURN
}

/// Index of the first `b` in `s` at or after `from`; the length of `s` if
/// there is none.
pub open spec fn position_of(s: Seq<u8>, b: u8, from: int) -> int
    decreases s.len() - from,
{
    if from >= s.len() {
        s.len() as int
    } else if s[from] == b {
        from
    } else {
        position_of(s, b, from + 1)
    }
}

/// `pat` stands in `s` at index `i`.
pub open spec fn occurs_at(s: Seq<u8>, pat: Seq<u8>, i: int) -> bool {
    &&& 0 <= i
    &&& i + pat.len() <= s.len()
    &&& s.subrange(i, i + pat.len()) == pat
}

/// Index of the first place at or after `from` where `pat` stands in `s`.
pub open spec fn first_occurrence(s: Seq<u8>, pat: Seq<u8>, from: int) -> Option<int>
    decreases s.len() - from + 1,
{
    if from + pat.len() > s.len() {
        None
    } else if occurs_at(s, pat, from) {
        Some(from)
    } else {
        first_occurrence(s, pat, from + 1)
    }
}

/// Index of the first byte of `s` at or after `from` that is not blank; the
/// length of `s` if all are.
pub open spec fn skip_blanks(s: Seq<u8>, from: int) -> int
    decreases s.len() - from,
{
    if from < s.len() && is_blank(s[from]) {
        skip_blanks(s, from + 1)
    } else {
        from
    }
}

/// End of the part of `s` between `from` and `to` that is left when the
/// blanks at its end are taken off.
pub open spec fn drop_blanks(s: Seq<u8>, from: int, to: int) -> int
    decreases to - from,
{
    if from < to && is_blank(s[to - 1]) {
        drop_blanks(s, from, to - 1)
    } else {
        to
    }
}

/// `s` without the blanks at its start and at its end.
pub open spec fn trimmed(s: Seq<u8>) -> Seq<u8> {
    let start = skip_blanks(s, 0);
    s.subrange(start, drop_blanks(s, start, s.len() as int))
}

/// The line of `text` that starts at `start` and is ended by the line feed at
/// `end`, or by the end of the text: the bytes between the two, less a
/// carriage return in front of the line feed.
pub open spec fn line_between(text: Seq<u8>, start: int, end: int) -> Seq<u8> {
    if start < end < text.len() && text[end - 1] == CARRIAGE_RETURN {
        text.subrange(start, end - 1)
    } else {
        text.subrange(start, end)
    }
}

/// The lines of `text` from index `pos` on.
pub open spec fn lines_from(text: Seq<u8>, pos: int) -> Seq<Seq<u8>>
    decreases text.len() - pos + 1,
{
    if 0 <= pos < text.len() {
        let end = position_of(text, LINE_FEED, pos);
        proof {
            lemma_position_of(text, LINE_FEED, pos);
        }
        seq![line_between(text, pos, end)] + lines_from(text, end + 1)
    } else {
        Seq::empty()
    }
}

/// The lines of `text`. A line ends with a line feed, the last one also
/// with the end of the text; the line feed and a carriage return in front
/// of it are not part of the line. A text that ends with a line feed has no
/// empty line after it.
pub open spec fn lines_of(text: Seq<u8>) -> Seq<Seq<u8>> {
    lines_from(text, 0)
}

/// `position_of` gives the first index at or after `from` that holds `b`.
pub proof fn lemma_position_of(s: Seq<u8>, b: u8, from: int)
    requires
        0 <= from <= s.len(),
    ensures
        from <= position_of(s, b, from) <= s.len(),
        position_of(s, b, from) < s.len() ==> s[position_of(s, b, from)] == b,
        forall|j: int| from <= j < position_of(s, b, from) ==> s[j] != b,
    decreases s.len() - from,
{
    if from < s.len() && s[from] != b {
        lemma_position_of(s, b, from + 1);
    }
}

/// `first_occurrence` gives the first index at or after `from` at which
/// `pat` stands, and nothing exactly where it stands nowhere from there on.
pub proof fn lemma_first_occurrence(s: Seq<u8>, pat: Seq<u8>, from: int)
    requires
        0 <= from,
    ensures
        match first_occurrence(s, pat, from) {
            Some(i) => from <= i && occurs_at(s, pat, i) && forall|j: int|
                from <= j < i ==> !occurs_at(s, pat, j),
            None => forall|j: int| from <= j ==> !occurs_at(s, pat, j),
        },
    decreases s.len() - from + 1,
{
    if from + pat.len() <= s.len() && !occurs_at(s, pat, from) {
        lemma_first_occurrence(s, pat, from + 1);
    }
}

/// Index of the first `b` in `s` at or after `from`; the length of `s` if
/// there is none.
pub fn find_byte(s: &[u8], b: u8, from: usize) -> (at: usize)
    ensures
        at == position_of(s@, b, from as int),
        at <= s@.len(),
        from <= s@.len() ==> from <= at,
{
    let n: usize = s.len();
    if from >= n {
        return n;
    }
    let mut i: usize = from;
    while i < n && s[i] != b
        invariant
            from <= i <= n,
            n == s@.len(),
            position_of(s@, b, from as int) == position_of(s@, b, i as int),
        decreases n - i,
    {
        i += 1;
    }
    i
}

/// Whether `pat` stands in `s` at index `i`.
pub fn matches_at(s: &[u8], pat: &[u8], i: usize) -> (found: bool)
    ensures
        found == occurs_at(s@, pat@, i as int),
{
    let n: usize = s.len();
    let m: usize = pat.len();
    if i > n || m > n - i {
        return false;
    }
    let mut j: usize = 0;
    while j < m
        invariant
            j <= m,
            m == pat@.len(),
            n == s@.len(),
            i + m <= n,
            forall|k: int| 0 <= k < j ==> s@[i + k] == pat@[k],
        decreases m - j,
    {
        if s[i + j] != pat[j] {
            assert(s@.subrange(i as int, i + m)[j as int] != pat@[j as int]);
            return false;
        }
        j += 1;
    }
    assert(s@.subrange(i as int, i + m) =~= pat@);
    true
}

/// Index of the first place in `s` where `pat` stands.
pub fn find(s: &[u8], pat: &[u8]) -> (at: Option<usize>)
    ensures
        at.is_some() == first_occurrence(s@, pat@, 0).is_some(),
        at matches Some(i) ==> first_occurrence(s@, pat@, 0) == Some(i as int) && occurs_at(
            s@,
            pat@,
            i as int,
        ) && i + pat@.len() <= usize::MAX,
        at is None ==> forall|j: int| !occurs_at(s@, pat@, j),
{
    let n: usize = s.len();
    let m: usize = pat.len();
    if m > n {
        return None;
    }
    let last: usize = n - m;
    let mut i: usize = 0;
    loop
        invariant
            i <= last,
            last == n - m,
            m == pat@.len(),
            n == s@.len(),
            first_occurrence(s@, pat@, 0) == first_occurrence(s@, pat@, i as int),
        decreases last - i,
    {
        if matches_at(s, pat, i) {
            return Some(i);
        }
        if i == last {
            proof {
                assert(first_occurrence(s@, pat@, i + 1) is None);
                lemma_first_occurrence(s@, pat@, 0);
            }
            return None;
        }
        i += 1;
    }
}

/// Whether `b` is a blank.
pub fn is_blank_byte(b: u8) -> (blank: bool)
    ensures
        blank == is_blank(b),
{
    b == SPACE || (TAB <= b && b <= CARRIAGE_RETURN)
}

/// `s` without the blanks at its start and at its end.
pub fn trim(s: &[u8]) -> (inner: &[u8])
    ensures
        inner@ == trimmed(s@),
{
    let n: usize = s.len();
    let mut start: usize = 0;
    while start < n && is_blank_byte(s[start])
        invariant
            start <= n,
            n == s@.len(),
            skip_blanks(s@, 0) == skip_blanks(s@, start as int),
        decreases n - start,
    {
        start += 1;
    }
    let mut end: usize = n;
    while start < end && is_blank_byte(s[end - 1])
        invariant
            start <= end <= n,
            n == s@.len(),
            drop_blanks(s@, start as int, n as int) == drop_blanks(s@, start as int, end as int),
        decreases end - start,
    {
        end -= 1;
    }
    slice_subrange(s, start, end)
}

/// The lines of `text`, each as a part of it.
pub fn split_lines<'a>(text: &'a [u8]) -> (lines: Vec<&'a [u8]>)
    ensures
        lines@.len() == lines_of(text@).len(),
        forall|i: int| 0 <= i < lines@.len() ==> (#[trigger] lines@[i])@ == lines_of(text@)[i],
{
    let n: usize = text.len();
    let mut lines: Vec<&'a [u8]> = Vec::new();
    let mut pos: usize = 0;
    while pos < n
        invariant
            pos <= n,
            n == text@.len(),
            lines_of(text@).len() == lines@.len() + lines_from(text@, pos as int).len(),
            forall|i: int| 0 <= i < lines@.len() ==> (#[trigger] lines@[i])@ == lines_of(text@)[i],
            forall|i: int|
                0 <= i < lines_from(text@, pos as int).len() ==> lines_of(text@)[lines@.len() + i]
                    == lines_from(text@, pos as int)[i],
        decreases n - pos,
    {
        let end: usize = find_byte(text, LINE_FEED, pos);
        let stop: usize = if pos < end && end < n && text[end - 1] == CARRIAGE_RETURN {
            end - 1
        } else {
            end
        };
        let line: &'a [u8] = slice_subrange(text, pos, stop);
        proof {
            let rest = lines_from(text@, end + 1);
            assert(lines_from(text@, pos as int) == seq![line@] + rest);
            assert(lines_from(text@, pos as int)[0] == line@);
            assert forall|i: int| 0 <= i < rest.len() implies lines_of(text@)[lines@.len() + 1 + i]
                == rest[i] by {
                assert(lines_from(text@, pos as int)[i + 1] == rest[i]);
            }
        }
        lines.push(line);
        if end < n {
            pos = end + 1;
        } else {
            pos = n;
        }
    }
    lines
}

} // verus!
