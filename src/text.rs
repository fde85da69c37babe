use vstd::prelude::*;

verus! {

broadcast use vstd::string::group_string_axioms;

/// `query` occurs in `text` as a contiguous run of characters starting at index `i`.
pub open spec fn occurs_at(text: Seq<char>, query: Seq<char>, i: int) -> bool {
    &&& 0 <= i
    &&& i + query.len() <= text.len()
    &&& text.subrange(i, i + query.len()) == query
}

/// `query` is a substring of `text`. The empty query is a substring of every text.
pub open spec fn contains_seq(text: Seq<char>, query: Seq<char>) -> bool {
    exists|i: int| occurs_at(text, query, i)
}

/// What the standard library's lowercase conversion makes of a string.
pub uninterp spec fn lower_of(s: Seq<char>) -> Seq<char>;

/// Relies on `str::to_lowercase`: the result is a function of the characters of `s`
/// alone, and the empty string stays empty.
#[verifier::external_body]
pub(crate) fn lowercase(s: &str) -> (r: String)
    ensures
        r@ == lower_of(s@),
        s@.len() == 0 ==> r@.len() == 0,
{
    s.to_lowercase()
}

/// Relies on `str::split_once` with a `char` pattern: at the first occurrence of `delim`,
/// the text before it and the text after it; `None` when `delim` does not occur.
#[verifier::external_body]
pub(crate) fn split_once_char<'a>(s: &'a str, delim: char) -> (r: Option<(&'a str, &'a str)>)
    ensures
        r is None <==> !s@.contains(delim),
        r matches Some((head, tail)) ==> s@ == head@ + seq![delim] + tail@ && !head@.contains(
            delim,
        ),
{
    s.split_once(delim)
}

/// Collects the characters of `s` into a vector, in order.
pub fn chars_of(s: &str) -> (r: Vec<char>)
    ensures
        r@ == s@,
{
    let mut r: Vec<char> = Vec::new();
    for c in it: s.chars()
        invariant
            r@ == it.history(),
    {
        r.push(c);
    }
    r
}

/// Whether `a` and `b` hold the same characters.
pub fn same_chars(a: &Vec<char>, b: &Vec<char>) -> (r: bool)
    ensures
        r == (a@ == b@),
{
    if a.len() != b.len() {
        return false;
    }
    let mut i: usize = 0;
    while i < a.len()
        invariant
            a@.len() == b@.len(),
            i <= a@.len(),
            forall|k: int| 0 <= k < i ==> a@[k] == b@[k],
        decreases a@.len() - i,
    {
        if a[i] != b[i] {
            return false;
        }
        i += 1;
    }
    assert(a@ =~= b@);
    true
}

/// Whether `query` occurs in `text` starting at index `i`.
fn occurs_at_index(text: &Vec<char>, query: &Vec<char>, i: usize) -> (r: bool)
    requires
        i + query@.len() <= text@.len(),
    ensures
        r == occurs_at(text@, query@, i as int),
{
    let n: usize = text.len();
    let mut j: usize = 0;
    while j < query.len()
        invariant
            n == text@.len(),
            i + query@.len() <= text@.len(),
            j <= query@.len(),
            forall|k: int| 0 <= k < j ==> text@[i + k] == query@[k],
        decreases query@.len() - j,
    {
        if text[i + j] != query[j] {
            assert(text@.subrange(i as int, i + query@.len())[j as int] != query@[j as int]);
            return false;
        }
        j += 1;
    }
    assert(text@.subrange(i as int, i + query@.len()) =~= query@);
    true
}

/// Whether `query` is a substring of `text`, both given as characters.
pub fn contains_chars(text: &Vec<char>, query: &Vec<char>) -> (r: bool)
    ensures
        r == contains_seq(text@, query@),
{
    if query.len() > text.len() {
        return false;
    }
    let last: usize = text.len() - query.len();
    let mut i: usize = 0;
    loop
        invariant
            last == text@.len() - query@.len(),
            i <= last,
            forall|k: int| 0 <= k < i ==> !occurs_at(text@, query@, k),
        decreases last - i,
    {
        if occurs_at_index(text, query, i) {
            return true;
        }
        if i == last {
            return false;
        }
        i += 1;
    }
}

/// Whether `query` is a substring of `text`. Given a line and a query that were both
/// lowercased, this is the test of a search that ignores case.
pub fn contains(text: &str, query: &str) -> (r: bool)
    ensures
        r == contains_seq(text@, query@),
{
    let t = chars_of(text);
    let q = chars_of(query);
    contains_chars(&t, &q)
}

} // verus!
