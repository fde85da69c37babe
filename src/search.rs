use vstd::prelude::*;

use crate::text::{
    chars_of, contains_chars, contains_seq, lower_of, lowercase, occurs_at, same_chars,
    split_once_char,
};

verus! {

broadcast use vstd::string::group_string_axioms;

/// `i` is the index of the first newline of `s`.
pub open spec fn is_first_newline(s: Seq<char>, i: int) -> bool {
    &&& 0 <= i < s.len()
    &&& s[i] == '\n'
    &&& forall|j: int| 0 <= j < i ==> s[j] != '\n'
}

/// A line that was ended by `"\r\n"` loses its carriage return.
pub open spec fn strip_cr(line: Seq<char>) -> Seq<char> {
    if line.len() > 0 && line.last() == '\r' {
        line.drop_last()
    } else {
        line
    }
}

/// The lines of `s`: the pieces between newlines, each without its line ending
/// (`"\n"` or `"\r\n"`). A final newline ends the last line and starts no new one,
/// and the empty text has no lines.
pub open spec fn lines_of(s: Seq<char>) -> Seq<Seq<char>>
    decreases s.len(),
{
    if s.len() == 0 {
        seq![]
    } else if exists|i: int| is_first_newline(s, i) {
        let i = choose|i: int| is_first_newline(s, i);
        seq![strip_cr(s.take(i))] + lines_of(s.skip(i + 1))
    } else {
        seq![s]
    }
}

/// Whether `line` is reported for `query`: it holds `query` as a substring, after both
/// are lowercased when the search ignores case.
pub open spec fn line_matches(line: Seq<char>, query: Seq<char>, case_sensitive: bool) -> bool {
    if case_sensitive {
        contains_seq(line, query)
    } else {
        contains_seq(lower_of(line), lower_of(query))
    }
}

/// The matches among the first `n` of `lines`, as (line number, text), line numbers
/// counted from 1.
pub open spec fn matches_upto(
    lines: Seq<Seq<char>>,
    query: Seq<char>,
    case_sensitive: bool,
    n: nat,
) -> Seq<(int, Seq<char>)>
    decreases n,
{
    if n == 0 || n > lines.len() {
        seq![]
    } else {
        let prev = matches_upto(lines, query, case_sensitive, (n - 1) as nat);
        if line_matches(lines[n - 1], query, case_sensitive) {
            prev.push((n as int, lines[n - 1]))
        } else {
            prev
        }
    }
}

/// What a search of `contents` for `query` reports: every matching line with its
/// number, in order.
pub open spec fn search_result(
    query: Seq<char>,
    contents: Seq<char>,
    case_sensitive: bool,
) -> Seq<(int, Seq<char>)> {
    let lines = lines_of(contents);
    matches_upto(lines, query, case_sensitive, lines.len())
}

proof fn lemma_lines_of_split(s: Seq<char>, head: Seq<char>, tail: Seq<char>)
    requires
        s == head + seq!['\n'] + tail,
        !head.contains('\n'),
    ensures
        lines_of(s) == seq![strip_cr(head)] + lines_of(tail),
{
    let k = head.len() as int;
    assert(s[k] == '\n');
    assert forall|j: int| 0 <= j < k implies s[j] != '\n' by {
        assert(s[j] == head[j]);
    }
    assert(is_first_newline(s, k));
    let i = choose|i: int| is_first_newline(s, i);
    if i < k {
        assert(head[i] == s[i]);
    }
    assert(i == k);
    assert(s.take(k) =~= head);
    assert(s.skip(k + 1) =~= tail);
}

proof fn lemma_lines_of_last(s: Seq<char>)
    requires
        !s.contains('\n'),
    ensures
        lines_of(s) == (if s.len() == 0 {
            seq![]
        } else {
            seq![s]
        }),
{
    if exists|i: int| is_first_newline(s, i) {
        let i = choose|i: int| is_first_newline(s, i);
        assert(s[i] == '\n');
    }
}

proof fn lemma_lines_of_len(s: Seq<char>)
    ensures
        lines_of(s).len() <= s.len(),
    decreases s.len(),
{
    if s.len() > 0 && exists|i: int| is_first_newline(s, i) {
        let i = choose|i: int| is_first_newline(s, i);
        lemma_lines_of_len(s.skip(i + 1));
    }
}

/// A line of the searched text that holds the query: its number, counted from 1, and
/// its text without the line ending.
#[derive(Debug)]
pub struct Match<'a> {
    pub line: u64,
    pub text: &'a str,
}

impl<'a> View for Match<'a> {
    type V = (int, Seq<char>);

    open spec fn view(&self) -> (int, Seq<char>) {
        (self.line as int, self.text@)
    }
}

/// The (line number, text) pairs of a sequence of matches.
pub open spec fn matches_view<'a>(v: Seq<Match<'a>>) -> Seq<(int, Seq<char>)> {
    v.map_values(|m: Match<'a>| m@)
}

impl<'a> Match<'a> {
    pub fn new(line: u64, text: &'a str) -> (m: Match<'a>)
        ensures
            m.line == line,
            m.text == text,
    {
        Match { line, text }
    }
}

/// Whether `line` is reported, given its characters and the characters it is searched
/// for: `query` itself, or its lowercase form when the search ignores case.
fn line_hit(
    line: &str,
    line_chars: &Vec<char>,
    pattern: &Vec<char>,
    case_sensitive: bool,
    Ghost(query): Ghost<Seq<char>>,
) -> (r: bool)
    requires
        line_chars@ == line@,
        pattern@ == (if case_sensitive {
            query
        } else {
            lower_of(query)
        }),
    ensures
        r == line_matches(line@, query, case_sensitive),
{
    if case_sensitive {
        contains_chars(line_chars, pattern)
    } else {
        let low = lowercase(line);
        let low_chars = chars_of(low.as_str());
        contains_chars(&low_chars, pattern)
    }
}

/// Walks the lines of `contents` in order and keeps those that match `query`.
fn scan<'a>(query: &str, contents: &'a str, case_sensitive: bool) -> (r: Vec<Match<'a>>)
    ensures
        matches_view(r@) == search_result(query@, contents@, case_sensitive),
        query@.len() == 0 ==> matches_view(r@) == numbered(lines_of(contents@)),
{
    let pattern = if case_sensitive {
        chars_of(query)
    } else {
        let low = lowercase(query);
        chars_of(low.as_str())
    };
    // There are no more lines than characters, so every line number fits.
    let n_chars: usize = contents.unicode_len();
    let ghost total = lines_of(contents@);
    proof {
        lemma_lines_of_len(contents@);
        if query@.len() == 0 {
            lemma_empty_pattern_matches_all(total, query@, case_sensitive, total.len());
            assert(total.take(total.len() as int) =~= total);
        }
    }
    let mut results: Vec<Match<'a>> = Vec::new();
    let mut done: u64 = 0;
    let mut rest: &'a str = contents;
    loop
        invariant
            n_chars == contents@.len(),
            total == lines_of(contents@),
            total.len() <= contents@.len(),
            query@.len() == 0 ==> matches_upto(total, query@, case_sensitive, total.len())
                == numbered(total),
            pattern@ == (if case_sensitive {
                query@
            } else {
                lower_of(query@)
            }),
            done + lines_of(rest@).len() == total.len(),
            lines_of(rest@) == total.skip(done as int),
            matches_view(results@) == matches_upto(total, query@, case_sensitive, done as nat),
        decreases rest@.len(),
    {
        assert(n_chars <= u64::MAX);
        match split_once_char(rest, '\n') {
            Some((head, tail)) => {
                proof {
                    lemma_lines_of_split(rest@, head@, tail@);
                    assert(total[done as int] == lines_of(rest@)[0]);
                }
                let mut text = head;
                let mut chars = chars_of(head);
                let n: usize = chars.len();
                if n > 0 && chars[n - 1] == '\r' {
                    text = head.substring_char(0, n - 1);
                    chars.pop();
                    assert(chars@ =~= head@.drop_last());
                }
                assert(text@ == strip_cr(head@));
                let line: u64 = done + 1;
                let ghost before = results@;
                if line_hit(text, &chars, &pattern, case_sensitive, Ghost(query@)) {
                    results.push(Match::new(line, text));
                    assert(matches_view(results@) =~= matches_view(before).push((line as int, text@)));
                }
                assert(lines_of(tail@) =~= lines_of(rest@).drop_first());
                assert(lines_of(tail@) =~= total.skip(done + 1));
                done += 1;
                rest = tail;
            },
            None => {
                proof {
                    lemma_lines_of_last(rest@);
                }
                if !rest.is_empty() {
                    let chars = chars_of(rest);
                    assert(total.skip(done as int)[0] == total[done as int]);
                    assert(total[done as int] == rest@);
                    let line: u64 = done + 1;
                    let ghost before = results@;
                    if line_hit(rest, &chars, &pattern, case_sensitive, Ghost(query@)) {
                        results.push(Match::new(line, rest));
                        assert(matches_view(results@) =~= matches_view(before).push(
                            (line as int, rest@),
                        ));
                    }
                }
                return results;
            },
        }
    }
}

impl<'a> PartialEq for Match<'a> {
    fn eq(&self, other: &Self) -> (r: bool) {
        if self.line != other.line {
            return false;
        }
        let a = chars_of(self.text);
        let b = chars_of(other.text);
        same_chars(&a, &b)
    }
}

impl<'a> vstd::std_specs::cmp::PartialEqSpecImpl for Match<'a> {
    open spec fn obeys_eq_spec() -> bool {
        true
    }

    open spec fn eq_spec(&self, other: &Match<'a>) -> bool {
        self@ == other@
    }
}

/// Every line of `lines` with its number, counted from 1.
pub open spec fn numbered(lines: Seq<Seq<char>>) -> Seq<(int, Seq<char>)> {
    Seq::new(lines.len(), |k: int| (k + 1, lines[k]))
}

/// Each entry of `matches_upto` is a matching line among the first `n`, under its own
/// number, and the numbers strictly ascend.
proof fn lemma_matches_upto_entries(
    lines: Seq<Seq<char>>,
    query: Seq<char>,
    case_sensitive: bool,
    n: nat,
)
    ensures
        ({
            let r = matches_upto(lines, query, case_sensitive, n);
            &&& forall|k: int|
                0 <= k < r.len() ==> {
                    &&& 1 <= #[trigger] r[k].0 <= n
                    &&& r[k].0 <= lines.len()
                    &&& r[k].1 == lines[r[k].0 - 1]
                    &&& line_matches(r[k].1, query, case_sensitive)
                }
            &&& forall|j: int, k: int| 0 <= j < k < r.len() ==> r[j].0 < r[k].0
        }),
    decreases n,
{
    if n > 0 && n <= lines.len() {
        let p = (n - 1) as nat;
        lemma_matches_upto_entries(lines, query, case_sensitive, p);
        let prev = matches_upto(lines, query, case_sensitive, p);
        let r = matches_upto(lines, query, case_sensitive, n);
        assert forall|k: int| 0 <= k < prev.len() implies r[k] == prev[k] by {
            if line_matches(lines[n - 1], query, case_sensitive) {
                assert(prev.push((n as int, lines[n - 1]))[k] == prev[k]);
            }
        }
    }
}

/// When `pattern` is empty, every line matches, so the matches are all the lines.
proof fn lemma_empty_pattern_matches_all(
    lines: Seq<Seq<char>>,
    query: Seq<char>,
    case_sensitive: bool,
    n: nat,
)
    requires
        query.len() == 0,
        case_sensitive || lower_of(query).len() == 0,
        n <= lines.len(),
    ensures
        matches_upto(lines, query, case_sensitive, n) == numbered(lines.take(n as int)),
    decreases n,
{
    if n > 0 {
        lemma_empty_pattern_matches_all(lines, query, case_sensitive, (n - 1) as nat);
        let line = lines[n - 1];
        let hay = if case_sensitive {
            line
        } else {
            lower_of(line)
        };
        let needle = if case_sensitive {
            query
        } else {
            lower_of(query)
        };
        assert(hay.subrange(0, 0) =~= needle);
        assert(occurs_at(hay, needle, 0));
        assert(numbered(lines.take(n as int)) =~= numbered(lines.take(n - 1)).push((n as int, line)));
    } else {
        assert(numbered(lines.take(0)) =~= seq![]);
    }
}

/// A case-sensitive search reports only lines that hold the query as a substring, each
/// under its own line number, in strictly ascending order of line number.
pub proof fn lemma_case_sensitive_reports_only_holding_lines(query: Seq<char>, contents: Seq<char>)
    ensures
        ({
            let lines = lines_of(contents);
            let r = search_result(query, contents, true);
            &&& forall|k: int|
                0 <= k < r.len() ==> {
                    &&& contains_seq(#[trigger] r[k].1, query)
                    &&& 1 <= r[k].0 <= lines.len()
                    &&& r[k].1 == lines[r[k].0 - 1]
                }
            &&& forall|j: int, k: int| 0 <= j < k < r.len() ==> r[j].0 < r[k].0
        }),
{
    let lines = lines_of(contents);
    lemma_matches_upto_entries(lines, query, true, lines.len());
}

proof fn lemma_matches_upto_covers(lines: Seq<Seq<char>>, query: Seq<char>, n: nat)
    requires
        forall|k: int|
            0 <= k < lines.len() && contains_seq(lines[k], query) ==> contains_seq(
                lower_of(#[trigger] lines[k]),
                lower_of(query),
            ),
    ensures
        forall|m: (int, Seq<char>)|
            matches_upto(lines, query, true, n).contains(m) ==> matches_upto(
                lines,
                query,
                false,
                n,
            ).contains(m),
    decreases n,
{
    if n > 0 && n <= lines.len() {
        let p = (n - 1) as nat;
        lemma_matches_upto_covers(lines, query, p);
        let s_prev = matches_upto(lines, query, true, p);
        let i_prev = matches_upto(lines, query, false, p);
        let x = (n as int, lines[n - 1]);
        assert forall|m: (int, Seq<char>)|
            matches_upto(lines, query, true, n).contains(m) implies matches_upto(
            lines,
            query,
            false,
            n,
        ).contains(m) by {
            let k = if line_matches(lines[n - 1], query, true) {
                choose|k: int| 0 <= k < s_prev.push(x).len() && s_prev.push(x)[k] == m
            } else {
                choose|k: int| 0 <= k < s_prev.len() && s_prev[k] == m
            };
            if k < s_prev.len() {
                assert(s_prev[k] == m);
                assert(s_prev.contains(m));
                assert(i_prev.contains(m));
                let j = choose|j: int| 0 <= j < i_prev.len() && i_prev[j] == m;
                if line_matches(lines[n - 1], query, false) {
                    assert(i_prev.push(x)[j] == m);
                }
            } else {
                assert(line_matches(lines[n - 1], query, false));
                assert(i_prev.push(x)[i_prev.len() as int] == m);
            }
        }
    }
}

/// Ignoring case reports every line that a case-sensitive search reports, on every text
/// where lowercasing a line that holds the query leaves it holding the lowercased query.
pub proof fn lemma_case_insensitive_covers_case_sensitive(query: Seq<char>, contents: Seq<char>)
    requires
        forall|k: int|
            0 <= k < lines_of(contents).len() && contains_seq(lines_of(contents)[k], query)
                ==> contains_seq(lower_of(#[trigger] lines_of(contents)[k]), lower_of(query)),
    ensures
        forall|m: (int, Seq<char>)|
            search_result(query, contents, true).contains(m) ==> search_result(
                query,
                contents,
                false,
            ).contains(m),
{
    let lines = lines_of(contents);
    lemma_matches_upto_covers(lines, query, lines.len());
}

/// The lines of `contents` that hold `query` exactly as written, with their numbers.
pub fn search_case_sensitive<'a>(query: &str, contents: &'a str) -> (r: Vec<Match<'a>>)
    ensures
        matches_view(r@) == search_result(query@, contents@, true),
        query@.len() == 0 ==> matches_view(r@) == numbered(lines_of(contents@)),
{
    scan(query, contents, true)
}

/// The lines of `contents` that hold `query` once both are lowercased, with their numbers.
/// The reported text is the line as written.
pub fn search_case_insensitive<'a>(query: &str, contents: &'a str) -> (r: Vec<Match<'a>>)
    ensures
        matches_view(r@) == search_result(query@, contents@, false),
        query@.len() == 0 ==> matches_view(r@) == numbered(lines_of(contents@)),
{
    scan(query, contents, false)
}

/// The lines of `contents` that hold `query`, ignoring case unless `case_sensitive`,
/// with their numbers.
pub fn search<'a>(query: &str, contents: &'a str, case_sensitive: bool) -> (r: Vec<Match<'a>>)
    ensures
        matches_view(r@) == search_result(query@, contents@, case_sensitive),
        query@.len() == 0 ==> matches_view(r@) == numbered(lines_of(contents@)),
{
    if case_sensitive {
        search_case_sensitive(query, contents)
    } else {
        search_case_insensitive(query, contents)
    }
}

} // verus!
