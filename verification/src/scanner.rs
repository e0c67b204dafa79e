//! The line scanner: splits a body of text into its lines.
//!
//! A line ends at each line feed; the line feed itself, and a carriage return
//! immediately before it, belong to no line. Text after the last line feed
//! forms a final line when it is nonempty, so a trailing line break does not
//! add an empty line. `spec_lines` is the mathematical model; `scan` is the
//! verified scanner, returning borrowed views into the text it was given.

use vstd::prelude::*;

verus! {

/// A segment that was ended by a line feed loses a carriage return standing
/// immediately before that line feed, so that `"\r\n"` separates lines just
/// as `"\n"` does.
pub open spec fn strip_cr(s: Seq<char>) -> Seq<char> {
    if s.len() > 0 && s.last() == '\r' {
        s.drop_last()
    } else {
        s
    }
}

/// Index of the first line feed in `s`, or `s.len()` if there is none.
pub open spec fn first_break(s: Seq<char>) -> nat
    decreases s.len(),
{
    if s.len() == 0 {
        0
    } else if s[0] == '\n' {
        0
    } else {
        first_break(s.drop_first()) + 1
    }
}

/// The lines of a text, in order: the segments between line feeds, each
/// without its terminator. The segment after the last line feed is a line
/// only when it is nonempty.
pub open spec fn spec_lines(s: Seq<char>) -> Seq<Seq<char>>
    decreases s.len(),
{
    if s.len() == 0 {
        Seq::empty()
    } else {
        let b = first_break(s) as int;
        if b >= s.len() {
            seq![s]
        } else {
            seq![strip_cr(s.take(b))] + spec_lines(s.skip(b + 1))
        }
    }
}

/// `first_break` indeed points at the first line feed: nothing before it is a
/// line feed, and it is a line feed unless it is the end of the text.
pub proof fn lemma_first_break(s: Seq<char>)
    ensures
        first_break(s) <= s.len(),
        forall|j: int| 0 <= j < first_break(s) ==> s[j] != '\n',
        first_break(s) < s.len() ==> s[first_break(s) as int] == '\n',
    decreases s.len(),
{
    if s.len() == 0 {
    } else if s[0] == '\n' {
    } else {
        lemma_first_break(s.drop_first());
        assert forall|j: int| 0 <= j < first_break(s) implies s[j] != '\n' by {
            if j >= 1 {
                assert(s.drop_first()[j - 1] == s[j]);
            }
        }
        if first_break(s) < s.len() {
            assert(s.drop_first()[first_break(s.drop_first()) as int]
                == s[first_break(s) as int]);
        }
    }
}

/// An index before which no line feed stands, and which is a line feed or the
/// end of the text, is exactly `first_break`.
pub proof fn lemma_first_break_is(s: Seq<char>, b: int)
    requires
        0 <= b <= s.len(),
        forall|j: int| 0 <= j < b ==> s[j] != '\n',
        b < s.len() ==> s[b] == '\n',
    ensures
        first_break(s) == b,
{
    lemma_first_break(s);
    if first_break(s) < b {
        assert(s[first_break(s) as int] == '\n');
    } else if b < first_break(s) {
        assert(s[b] != '\n');
    }
}

/// A text with no line feed is one single line.
pub proof fn lemma_lines_whole(s: Seq<char>)
    requires
        s.len() > 0,
        forall|j: int| 0 <= j < s.len() ==> s[j] != '\n',
    ensures
        spec_lines(s) == seq![s],
{
    lemma_first_break_is(s, s.len() as int);
}

/// A text whose only line feed is its last character is one single line:
/// everything before the terminator, with a carriage return before the line
/// feed dropped as well.
pub proof fn lemma_lines_terminated(s: Seq<char>)
    requires
        s.len() > 0,
        s.last() == '\n',
        forall|j: int| 0 <= j < s.len() - 1 ==> s[j] != '\n',
    ensures
        spec_lines(s) == seq![strip_cr(s.drop_last())],
{
    lemma_first_break_is(s, s.len() - 1);
    assert(s.skip(s.len() as int) =~= Seq::<char>::empty());
    assert(spec_lines(s.skip(s.len() as int)) == Seq::<Seq<char>>::empty());
    assert(s.take(s.len() - 1) =~= s.drop_last());
    assert(spec_lines(s) =~~= seq![strip_cr(s.drop_last())]);
}

/// Cutting a text right after a line feed cuts its line sequence: the lines
/// of the whole are the lines of the part before the cut followed by the
/// lines of the part after it.
pub proof fn lemma_lines_split(s: Seq<char>, i: int)
    requires
        0 <= i <= s.len(),
        i == 0 || s[i - 1] == '\n',
    ensures
        spec_lines(s) == spec_lines(s.take(i)) + spec_lines(s.skip(i)),
    decreases s.len(),
{
    if i == 0 {
        assert(s.take(0) =~= Seq::<char>::empty());
        assert(s.skip(0) =~= s);
        assert(spec_lines(s) =~~= spec_lines(s.take(0)) + spec_lines(s.skip(0)));
    } else if i == s.len() {
        assert(s.take(i) =~= s);
        assert(s.skip(i) =~= Seq::<char>::empty());
        assert(spec_lines(s) =~~= spec_lines(s.take(i)) + spec_lines(s.skip(i)));
    } else {
        lemma_first_break(s);
        let b = first_break(s) as int;
        assert(b <= i - 1) by {
            if b > i - 1 {
                assert(s[i - 1] != '\n');
            }
        }
        let t = s.take(i);
        assert(forall|j: int| 0 <= j < i ==> t[j] == s[j]);
        lemma_first_break_is(t, b);
        // The first line of `s` and of `t` is the same segment.
        assert(t.take(b) =~= s.take(b));
        // The remainders line up after the first line feed.
        assert(t.skip(b + 1) =~= s.skip(b + 1).take(i - b - 1));
        assert(s.skip(b + 1).skip(i - b - 1) =~= s.skip(i));
        if i - b - 1 > 0 {
            assert(s.skip(b + 1)[i - b - 2] == s[i - 1]);
        }
        lemma_lines_split(s.skip(b + 1), i - b - 1);
        assert(spec_lines(s) =~~= spec_lines(s.take(i)) + spec_lines(s.skip(i)));
    }
}

/// A text never has more lines than characters: every line but the last
/// consumes its terminator as well.
pub proof fn lemma_line_count(s: Seq<char>)
    ensures
        spec_lines(s).len() <= s.len(),
    decreases s.len(),
{
    if s.len() == 0 {
    } else {
        lemma_first_break(s);
        let b = first_break(s) as int;
        if b < s.len() {
            lemma_line_count(s.skip(b + 1));
        }
    }
}

/// An empty text has no lines at all.
pub proof fn lemma_no_lines_in_empty()
    ensures
        spec_lines(Seq::<char>::empty()) == Seq::<Seq<char>>::empty(),
{
}

/// Appending a final line break to a text that does not already end in one
/// leaves its lines, and so its line numbering, unchanged. A text ending in
/// `'\n'` is excluded because its terminator already closed the last line,
/// and one ending in `'\r'` because the appended feed would turn that
/// carriage return into part of a terminator.
pub proof fn lemma_trailing_break(s: Seq<char>)
    requires
        s.len() > 0,
        s.last() != '\n',
        s.last() != '\r',
    ensures
        spec_lines(s.push('\n')) == spec_lines(s),
    decreases s.len(),
{
    lemma_first_break(s);
    let b = first_break(s) as int;
    let p = s.push('\n');
    assert(forall|j: int| 0 <= j < s.len() ==> p[j] == s[j]);
    if b == s.len() {
        lemma_first_break_is(p, b);
        lemma_lines_whole(s);
        lemma_no_lines_in_empty();
        assert(p.take(b) =~= s);
        assert(p.skip(b + 1) =~= Seq::<char>::empty());
        assert(strip_cr(s) == s);
        assert(spec_lines(p) =~~= spec_lines(s));
    } else {
        assert(b < s.len() - 1) by {
            if b == s.len() - 1 {
                assert(s.last() == '\n');
            }
        }
        lemma_first_break_is(p, b);
        assert(p.take(b) =~= s.take(b));
        assert(p.skip(b + 1) =~= s.skip(b + 1).push('\n'));
        assert(s.skip(b + 1).last() == s.last());
        lemma_trailing_break(s.skip(b + 1));
        assert(spec_lines(p) =~~= spec_lines(s));
    }
}

/// Splits `contents` into its lines, each a borrowed view into `contents`.
/// The line numbered `i + 1` in a search result is the entry at index `i`
/// here: line numbers are 1-based, contiguous, and positional.
pub fn scan<'a>(contents: &'a str) -> (lines: Vec<&'a str>)
    ensures
        lines@.len() == spec_lines(contents@).len(),
        forall|i: int| 0 <= i < lines@.len() ==> lines@[i]@ == spec_lines(contents@)[i],
{
    let n: usize = contents.unicode_len();
    let mut lines: Vec<&'a str> = Vec::new();
    let mut start: usize = 0;
    let mut j: usize = 0;
    while j < n
        invariant
            n == contents@.len(),
            start <= j <= n,
            start == 0 || contents@[start as int - 1] == '\n',
            forall|t: int| start <= t < j ==> contents@[t] != '\n',
            lines@.len() == spec_lines(contents@.take(start as int)).len(),
            forall|i: int|
                0 <= i < lines@.len() ==> lines@[i]@ == spec_lines(
                    contents@.take(start as int),
                )[i],
        decreases n - j,
    {
        if contents.get_char(j) == '\n' {
            let end: usize = if j > start && contents.get_char(j - 1) == '\r' {
                j - 1
            } else {
                j
            };
            let line: &'a str = contents.substring_char(start, end);
            proof {
                let c = contents@;
                let seg = c.subrange(start as int, j as int + 1);
                lemma_lines_split(c.take(j as int + 1), start as int);
                assert(c.take(j as int + 1).take(start as int) =~= c.take(start as int));
                assert(c.take(j as int + 1).skip(start as int) =~= seg);
                lemma_lines_terminated(seg);
                assert(strip_cr(seg.drop_last()) =~= line@);
                assert(spec_lines(c.take(j as int + 1)) =~~= spec_lines(
                    c.take(start as int),
                ).push(line@));
            }
            lines.push(line);
            start = j + 1;
        }
        j += 1;
    }
    if start < n {
        let line: &'a str = contents.substring_char(start, n);
        proof {
            let c = contents@;
            lemma_lines_split(c, start as int);
            assert(c.skip(start as int) =~= line@);
            lemma_lines_whole(line@);
            assert(spec_lines(c) =~~= spec_lines(c.take(start as int)).push(line@));
        }
        lines.push(line);
    } else {
        proof {
            assert(contents@.take(start as int) =~= contents@);
        }
    }
    lines
}

} // verus!
