//! The matcher: applies a query to every line of a body of text under a
//! chosen case mode and collects the matching lines into a map keyed by
//! 1-based line number.

use std::collections::HashMap;
use vstd::prelude::*;
use vstd::string::StrSliceExecFns;

use crate::fold::{lower_seq, lowercase};
use crate::scanner::{lemma_line_count, scan, spec_lines};

verus! {

broadcast use vstd::std_specs::hash::group_hash_axioms;

/// Whether matching heeds or ignores letter case, chosen once per search and
/// applied uniformly to every line.
#[derive(Clone, Copy, Debug, PartialEq, Eq)]
pub enum CaseMode {
    Sensitive,
    Insensitive,
}

/// `needle` occurs contiguously somewhere in `hay`. An empty needle occurs
/// in every text.
pub open spec fn contains_seq(hay: Seq<char>, needle: Seq<char>) -> bool {
    exists|k: int|
        0 <= k <= hay.len() - needle.len() && #[trigger] hay.subrange(k, k + needle.len())
            == needle
}

/// The form of a text that matching compares: the text itself when case is
/// heeded, its per-character lowercase folding when case is ignored.
pub open spec fn normal_of(s: Seq<char>, mode: CaseMode) -> Seq<char> {
    match mode {
        CaseMode::Sensitive => s,
        CaseMode::Insensitive => lower_seq(s),
    }
}

/// A line matches a query when the query's compared form occurs in the
/// line's compared form.
pub open spec fn line_matches(line: Seq<char>, query: Seq<char>, mode: CaseMode) -> bool {
    contains_seq(normal_of(line, mode), normal_of(query, mode))
}

/// What a finished search must hand back: `m` holds exactly the 1-based
/// numbers of the lines of `content` that match `query` under `mode`, each
/// mapped to that line as it stands in `content` — original casing kept.
pub open spec fn search_result_ok(
    query: Seq<char>,
    content: Seq<char>,
    mode: CaseMode,
    m: Map<u32, Seq<char>>,
) -> bool {
    &&& forall|k: u32| #![trigger m.contains_key(k)]
        m.contains_key(k) <==> (1 <= k as int <= spec_lines(content).len() && line_matches(
            spec_lines(content)[k as int - 1],
            query,
            mode,
        ))
    &&& forall|k: u32| #![trigger m[k]]
        m.contains_key(k) ==> m[k] == spec_lines(content)[k as int - 1]
}

/// A result map of borrowed lines, as mathematics: each line number mapped
/// to the characters of its line.
pub open spec fn result_view(m: Map<u32, &str>) -> Map<u32, Seq<char>> {
    m.map_values(|line: &str| line@)
}

/// The characters of `s`, in order.
pub fn chars_of(s: &str) -> (r: Vec<char>)
    ensures
        r@ == s@,
{
    let n: usize = s.unicode_len();
    let mut r: Vec<char> = Vec::new();
    let mut i: usize = 0;
    while i < n
        invariant
            n == s@.len(),
            i <= n,
            r@ == s@.take(i as int),
        decreases n - i,
    {
        r.push(s.get_char(i));
        proof {
            assert(s@.take(i as int).push(s@[i as int]) =~= s@.take(i as int + 1));
        }
        i += 1;
    }
    proof {
        assert(s@.take(n as int) =~= s@);
    }
    r
}

/// Does `needle` stand at position `k` of `hay`?
fn match_at(hay: &Vec<char>, needle: &Vec<char>, k: usize) -> (r: bool)
    requires
        k + needle@.len() <= hay@.len(),
    ensures
        r == (hay@.subrange(k as int, k as int + needle@.len()) == needle@),
{
    let hlen: usize = hay.len();
    let n: usize = needle.len();
    let mut j: usize = 0;
    while j < n
        invariant
            hlen == hay@.len(),
            n == needle@.len(),
            k + n <= hlen,
            j <= n,
            forall|t: int| 0 <= t < j ==> hay@[k + t] == needle@[t],
        decreases n - j,
    {
        if hay[k + j] != needle[j] {
            proof {
                assert(hay@.subrange(k as int, k as int + needle@.len())[j as int]
                    != needle@[j as int]);
            }
            return false;
        }
        j += 1;
    }
    proof {
        assert(hay@.subrange(k as int, k as int + needle@.len()) =~= needle@);
    }
    true
}

/// Does `needle` occur contiguously anywhere in `hay`?
pub fn vec_contains(hay: &Vec<char>, needle: &Vec<char>) -> (r: bool)
    ensures
        r == contains_seq(hay@, needle@),
{
    if needle.len() == 0 {
        proof {
            assert(hay@.subrange(0, 0 + needle@.len() as int) =~= needle@);
        }
        return true;
    }
    if needle.len() > hay.len() {
        return false;
    }
    let bound: usize = hay.len() - needle.len();
    let mut k: usize = 0;
    while k <= bound
        invariant
            1 <= needle@.len() <= hay@.len() <= usize::MAX,
            bound == hay@.len() - needle@.len(),
            k <= bound + 1,
            forall|k2: int|
                0 <= k2 < k ==> #[trigger] hay@.subrange(k2, k2 + needle@.len()) != needle@,
        decreases bound + 1 - k,
    {
        if match_at(hay, needle, k) {
            return true;
        }
        k += 1;
    }
    proof {
        if contains_seq(hay@, needle@) {
            let k2 = choose|k2: int|
                0 <= k2 <= hay@.len() - needle@.len() && #[trigger] hay@.subrange(
                    k2,
                    k2 + needle@.len(),
                ) == needle@;
            assert(hay@.subrange(k2, k2 + needle@.len()) != needle@);
        }
    }
    false
}

/// Searches `contents` for `query` under `mode`. The result maps the 1-based
/// number of every matching line — and of no other line — to that line as it
/// stands in `contents`, original casing kept. The length bound keeps every
/// line number within `u32`.
pub fn search<'a>(query: &str, contents: &'a str, mode: CaseMode) -> (results: HashMap<
    u32,
    &'a str,
>)
    requires
        contents@.len() <= u32::MAX,
    ensures
        search_result_ok(query@, contents@, mode, result_view(results@)),
{
    let lines: Vec<&'a str> = scan(contents);
    proof {
        lemma_line_count(contents@);
    }
    let needle: Vec<char> = match mode {
        CaseMode::Sensitive => chars_of(query),
        CaseMode::Insensitive => lowercase(query),
    };
    let mut results: HashMap<u32, &'a str> = HashMap::new();
    let mut idx: usize = 0;
    let count: usize = lines.len();
    while idx < count
        invariant
            count == lines@.len(),
            lines@.len() == spec_lines(contents@).len(),
            spec_lines(contents@).len() <= contents@.len() <= u32::MAX,
            forall|i: int| 0 <= i < lines@.len() ==> lines@[i]@ == spec_lines(contents@)[i],
            needle@ == normal_of(query@, mode),
            idx <= count,
            forall|k: u32| #![trigger results@.contains_key(k)]
                results@.contains_key(k) <==> (1 <= k as int <= idx as int && line_matches(
                    spec_lines(contents@)[k as int - 1],
                    query@,
                    mode,
                )),
            forall|k: u32| #![trigger results@[k]]
                results@.contains_key(k) ==> results@[k] == lines@[k as int - 1],
        decreases count - idx,
    {
        let line: &'a str = lines[idx];
        let hay: Vec<char> = match mode {
            CaseMode::Sensitive => chars_of(line),
            CaseMode::Insensitive => lowercase(line),
        };
        if vec_contains(&hay, &needle) {
            let number: u32 = (idx as u32) + 1;
            results.insert(number, line);
        }
        idx += 1;
    }
    proof {
        let mv = result_view(results@);
        assert forall|k: u32| #![trigger mv.contains_key(k)]
            mv.contains_key(k) <==> (1 <= k as int <= spec_lines(contents@).len()
                && line_matches(spec_lines(contents@)[k as int - 1], query@, mode)) by {
            assert(mv.contains_key(k) == results@.contains_key(k));
        }
        assert forall|k: u32| #![trigger mv[k]]
            mv.contains_key(k) implies mv[k] == spec_lines(contents@)[k as int - 1] by {
            assert(results@.contains_key(k));
            assert(mv[k] == results@[k]@);
        }
    }
    results
}

/// Searches with letter case heeded: a line is reported exactly when it
/// contains `query` verbatim.
pub fn search_case_sensitive<'a>(query: &str, contents: &'a str) -> (results: HashMap<
    u32,
    &'a str,
>)
    requires
        contents@.len() <= u32::MAX,
    ensures
        search_result_ok(query@, contents@, CaseMode::Sensitive, result_view(results@)),
{
    search(query, contents, CaseMode::Sensitive)
}

/// Searches with letter case ignored: a line is reported exactly when its
/// lowercase folding contains the lowercase folding of `query`. Reported
/// lines keep their original casing.
pub fn search_case_insensitive<'a>(query: &str, contents: &'a str) -> (results: HashMap<
    u32,
    &'a str,
>)
    requires
        contents@.len() <= u32::MAX,
    ensures
        search_result_ok(query@, contents@, CaseMode::Insensitive, result_view(results@)),
{
    search(query, contents, CaseMode::Insensitive)
}

/// An empty needle occurs in every text.
pub proof fn lemma_contains_empty_needle(hay: Seq<char>)
    ensures
        contains_seq(hay, Seq::<char>::empty()),
{
    assert(hay.subrange(0, 0 + Seq::<char>::empty().len() as int) =~= Seq::<char>::empty());
}

/// A search that heeds case reports exactly the lines that contain the query
/// verbatim: every reported line contains it and is handed back unchanged,
/// and every line that contains it is reported under its own number.
pub proof fn lemma_sensitive_exact(query: Seq<char>, content: Seq<char>, m: Map<u32, Seq<char>>)
    requires
        content.len() <= u32::MAX,
        search_result_ok(query, content, CaseMode::Sensitive, m),
    ensures
        forall|k: u32| #![trigger m.contains_key(k)]
            m.contains_key(k) ==> 1 <= k as int <= spec_lines(content).len() && contains_seq(
                spec_lines(content)[k as int - 1],
                query,
            ) && m[k] == spec_lines(content)[k as int - 1],
        forall|i: int| #![trigger spec_lines(content)[i]]
            0 <= i < spec_lines(content).len() && contains_seq(spec_lines(content)[i], query)
                ==> m.contains_key((i + 1) as u32),
{
    lemma_line_count(content);
    assert forall|i: int|
        0 <= i < spec_lines(content).len() && contains_seq(
            #[trigger] spec_lines(content)[i],
            query,
        ) implies m.contains_key((i + 1) as u32) by {
        let k: u32 = (i + 1) as u32;
        assert(k as int == i + 1);
        assert(line_matches(spec_lines(content)[k as int - 1], query, CaseMode::Sensitive));
    }
}

/// A search that ignores case reports exactly the lines whose lowercase
/// folding contains the lowercase folding of the query — and it hands each
/// such line back as it stands in the content, original casing kept.
pub proof fn lemma_insensitive_exact(query: Seq<char>, content: Seq<char>, m: Map<u32, Seq<char>>)
    requires
        content.len() <= u32::MAX,
        search_result_ok(query, content, CaseMode::Insensitive, m),
    ensures
        forall|k: u32| #![trigger m.contains_key(k)]
            m.contains_key(k) ==> 1 <= k as int <= spec_lines(content).len() && contains_seq(
                lower_seq(spec_lines(content)[k as int - 1]),
                lower_seq(query),
            ) && m[k] == spec_lines(content)[k as int - 1],
        forall|i: int| #![trigger spec_lines(content)[i]]
            0 <= i < spec_lines(content).len() && contains_seq(
                lower_seq(spec_lines(content)[i]),
                lower_seq(query),
            ) ==> m.contains_key((i + 1) as u32),
{
    lemma_line_count(content);
    assert forall|i: int|
        0 <= i < spec_lines(content).len() && contains_seq(
            lower_seq(#[trigger] spec_lines(content)[i]),
            lower_seq(query),
        ) implies m.contains_key((i + 1) as u32) by {
        let k: u32 = (i + 1) as u32;
        assert(k as int == i + 1);
        assert(line_matches(spec_lines(content)[k as int - 1], query, CaseMode::Insensitive));
    }
}

/// An empty query selects every line of any content, under either mode: the
/// result holds exactly the numbers 1 through the line count, each mapped to
/// its own line, so every line appears exactly once.
pub proof fn lemma_empty_query_selects_all(
    content: Seq<char>,
    mode: CaseMode,
    m: Map<u32, Seq<char>>,
)
    requires
        search_result_ok(Seq::<char>::empty(), content, mode, m),
    ensures
        forall|k: u32| #![trigger m.contains_key(k)]
            m.contains_key(k) <==> 1 <= k as int <= spec_lines(content).len(),
        forall|k: u32| #![trigger m[k]]
            m.contains_key(k) ==> m[k] == spec_lines(content)[k as int - 1],
{
    assert(normal_of(Seq::<char>::empty(), mode) =~= Seq::<char>::empty());
    assert forall|k: u32|
        1 <= k as int <= spec_lines(content).len() implies #[trigger] m.contains_key(k) by {
        lemma_contains_empty_needle(normal_of(spec_lines(content)[k as int - 1], mode));
        assert(line_matches(spec_lines(content)[k as int - 1], Seq::<char>::empty(), mode));
    }
}

/// Empty content yields the empty result for any query under either mode.
pub proof fn lemma_empty_content_selects_nothing(
    query: Seq<char>,
    mode: CaseMode,
    m: Map<u32, Seq<char>>,
)
    requires
        search_result_ok(query, Seq::<char>::empty(), mode, m),
    ensures
        m == Map::<u32, Seq<char>>::empty(),
{
    crate::scanner::lemma_no_lines_in_empty();
    assert(m.dom() =~= Set::<u32>::empty());
    assert(m =~= Map::<u32, Seq<char>>::empty());
}

/// Searching is deterministic: the contract pins the result down, so two
/// searches with identical inputs yield identical sets of (line number,
/// line) pairs.
pub proof fn lemma_search_deterministic(
    query: Seq<char>,
    content: Seq<char>,
    mode: CaseMode,
    m1: Map<u32, Seq<char>>,
    m2: Map<u32, Seq<char>>,
)
    requires
        search_result_ok(query, content, mode, m1),
        search_result_ok(query, content, mode, m2),
    ensures
        m1 == m2,
{
    assert(m1.dom() =~= m2.dom());
    assert(m1 =~= m2);
}

} // verus!
