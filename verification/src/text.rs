//! Character sequences: searching, splitting and trimming.
//!
//! A text is modelled as a `Seq<char>`. The executable functions work on
//! slices of `char`, which [`chars_of`] makes from a `&str`.

use vstd::prelude::*;
use vstd::string::*;

verus! {

/// `pat` stands in `s` at index `i`.
pub open spec fn occurs_at(s: Seq<char>, pat: Seq<char>, i: int) -> bool {
    0 <= i && i + pat.len() <= s.len() && s.subrange(i, i + pat.len()) == pat
}

/// `i` is the first index at which `pat` stands in `s`.
pub open spec fn first_at(s: Seq<char>, pat: Seq<char>, i: int) -> bool {
    occurs_at(s, pat, i) && forall|j: int| 0 <= j < i ==> !occurs_at(s, pat, j)
}

/// The first index at which `pat` stands in `s`, if there is one.
pub open spec fn find(s: Seq<char>, pat: Seq<char>) -> Option<int> {
    if exists|i: int| first_at(s, pat, i) {
        Some(choose|i: int| first_at(s, pat, i))
    } else {
        None
    }
}

/// `s` cut at the first place where `pat` stands in it: what comes before
/// `pat`, and what comes after it.
pub open spec fn split_once(s: Seq<char>, pat: Seq<char>) -> Option<(Seq<char>, Seq<char>)> {
    match find(s, pat) {
        Some(i) => Some((s.take(i), s.skip(i + pat.len()))),
        None => None,
    }
}

/// A first occurrence is the one that `find` gives.
pub proof fn lemma_find_first(s: Seq<char>, pat: Seq<char>, i: int)
    requires
        first_at(s, pat, i),
    ensures
        find(s, pat) == Some(i),
{
    let k = choose|k: int| first_at(s, pat, k);
    assert(first_at(s, pat, k));
    assert(k == i) by {
        if k < i {
            assert(!occurs_at(s, pat, k));
        } else if i < k {
            assert(!occurs_at(s, pat, i));
        }
    }
}

/// Where `pat` stands somewhere in `s`, `find` gives an index, and none later
/// than that place.
pub proof fn lemma_find_some(s: Seq<char>, pat: Seq<char>, i: int)
    requires
        occurs_at(s, pat, i),
    ensures
        find(s, pat) is Some,
        find(s, pat).unwrap() <= i,
    decreases i,
{
    if exists|j: int| 0 <= j < i && occurs_at(s, pat, j) {
        let j = choose|j: int| 0 <= j < i && occurs_at(s, pat, j);
        lemma_find_some(s, pat, j);
    } else {
        assert(first_at(s, pat, i));
        lemma_find_first(s, pat, i);
    }
}

/// `find` gives nothing exactly when `pat` stands nowhere in `s`.
pub proof fn lemma_find_none(s: Seq<char>, pat: Seq<char>)
    ensures
        find(s, pat) is None <==> forall|i: int| !occurs_at(s, pat, i),
{
    if find(s, pat) is None {
        assert forall|i: int| !occurs_at(s, pat, i) by {
            if occurs_at(s, pat, i) {
                lemma_find_some(s, pat, i);
            }
        }
    } else {
        let k = choose|k: int| first_at(s, pat, k);
        assert(occurs_at(s, pat, k));
    }
}

/// A text that holds `pat` after a piece in which the first character of `pat`
/// does not occur is cut there: the piece before, and all that follows `pat`.
pub proof fn lemma_split_once(before: Seq<char>, pat: Seq<char>, after: Seq<char>)
    requires
        pat.len() > 0,
        !before.contains(pat[0]),
    ensures
        split_once(before + pat + after, pat) == Some((before, after)),
{
    let s = before + pat + after;
    let at = before.len() as int;
    assert(first_at(s, pat, at)) by {
        assert(s.subrange(at, at + pat.len()) =~= pat);
        assert forall|j: int| 0 <= j < at implies !occurs_at(s, pat, j) by {
            if occurs_at(s, pat, j) {
                let window = s.subrange(j, j + pat.len());
                assert(window[0] == s[j]);
                assert(before[j] == pat[0]);
            }
        }
    }
    lemma_find_first(s, pat, at);
    assert(s.take(at) == before) by {
        assert(s.take(at) =~= before);
    }
    assert(s.skip(at + pat.len()) == after) by {
        assert(s.skip(at + pat.len()) =~= after);
    }
}

/// The characters of `s`, in order.
pub fn chars_of(s: &str) -> (v: Vec<char>)
    ensures
        v@ == s@,
{
    let mut v: Vec<char> = Vec::new();
    for c in it: s.chars()
        invariant
            v@ == it.seq().take(it.index()),
            it.seq() == s@,
    {
        v.push(c);
    }
    v
}

/// Does `pat` stand in `s` at index `i`?
pub fn stands_at(s: &[char], pat: &[char], i: usize) -> (r: bool)
    ensures
        r == occurs_at(s@, pat@, i as int),
{
    let m: usize = pat.len();
    let n: usize = s.len();
    if i > n || m > n - i {
        return false;
    }
    let ghost window = s@.subrange(i as int, i + m);
    let mut k: usize = 0;
    while k < m
        invariant
            m == pat@.len(),
            n == s@.len(),
            i + m <= n,
            window == s@.subrange(i as int, i + m),
            k <= m,
            forall|t: int| 0 <= t < k ==> window[t] == pat@[t],
        decreases m - k,
    {
        if s[i + k] != pat[k] {
            assert(window[k as int] != pat@[k as int]);
            return false;
        }
        k += 1;
    }
    assert(window =~= pat@);
    true
}

/// The first index at which `pat` stands in `s`.
pub fn find_in(s: &[char], pat: &[char]) -> (r: Option<usize>)
    ensures
        match r {
            Some(i) => find(s@, pat@) == Some(i as int) && i + pat@.len() <= s@.len(),
            None => find(s@, pat@) is None,
        },
{
    let n: usize = s.len();
    let m: usize = pat.len();
    if m > n {
        proof {
            lemma_find_none(s@, pat@);
        }
        return None;
    }
    let last: usize = n - m;
    let mut i: usize = 0;
    loop
        invariant
            n == s@.len(),
            m == pat@.len(),
            last == n - m,
            i <= last,
            forall|j: int| 0 <= j < i ==> !occurs_at(s@, pat@, j),
        decreases last - i,
    {
        if stands_at(s, pat, i) {
            proof {
                lemma_find_first(s@, pat@, i as int);
            }
            return Some(i);
        }
        if i == last {
            proof {
                lemma_find_none(s@, pat@);
            }
            return None;
        }
        i += 1;
    }
}

/// Are `a` and `b` the same text?
pub fn same(a: &[char], b: &[char]) -> (r: bool)
    ensures
        r == (a@ == b@),
{
    if a.len() != b.len() {
        return false;
    }
    assert(a@.subrange(0, b@.len() as int) =~= a@);
    stands_at(a, b, 0)
}

/// Is `c` white space, as `char::is_whitespace` tells it: has it the Unicode
/// property `White_Space`?
pub uninterp spec fn is_whitespace(c: char) -> bool;

/// `char::is_whitespace` is a function of the character alone; the contract
/// names its result.
pub assume_specification[ char::is_whitespace ](c: char) -> (b: bool)
    ensures
        b == is_whitespace(c),
;

/// `s` without the white space at its start.
pub open spec fn trim_start(s: Seq<char>) -> Seq<char>
    decreases s.len(),
{
    if s.len() > 0 && is_whitespace(s[0]) {
        trim_start(s.skip(1))
    } else {
        s
    }
}

/// `s` without the white space at its end.
pub open spec fn trim_end(s: Seq<char>) -> Seq<char>
    decreases s.len(),
{
    if s.len() > 0 && is_whitespace(s.last()) {
        trim_end(s.drop_last())
    } else {
        s
    }
}

/// `s` without the white space at its start and at its end.
pub open spec fn trim(s: Seq<char>) -> Seq<char> {
    trim_end(trim_start(s))
}

/// `s` without the characters `c` at its start.
pub open spec fn without_leading(s: Seq<char>, c: char) -> Seq<char>
    decreases s.len(),
{
    if s.len() > 0 && s[0] == c {
        without_leading(s.skip(1), c)
    } else {
        s
    }
}

/// Trimming adds no character: one that is not in `s` is not in what is left
/// of `s`.
pub proof fn lemma_trim_within(s: Seq<char>, c: char)
    requires
        !s.contains(c),
    ensures
        !trim(s).contains(c),
{
    lemma_trim_start_within(s, c);
    lemma_trim_end_within(trim_start(s), c);
}

proof fn lemma_trim_start_within(s: Seq<char>, c: char)
    requires
        !s.contains(c),
    ensures
        !trim_start(s).contains(c),
    decreases s.len(),
{
    if s.len() > 0 && is_whitespace(s[0]) {
        let rest = s.skip(1);
        assert(!rest.contains(c)) by {
            if rest.contains(c) {
                let i = choose|i: int| 0 <= i < rest.len() && rest[i] == c;
                assert(s[i + 1] == c);
            }
        }
        lemma_trim_start_within(rest, c);
    }
}

proof fn lemma_trim_end_within(s: Seq<char>, c: char)
    requires
        !s.contains(c),
    ensures
        !trim_end(s).contains(c),
    decreases s.len(),
{
    if s.len() > 0 && is_whitespace(s.last()) {
        let rest = s.drop_last();
        assert(!rest.contains(c)) by {
            if rest.contains(c) {
                let i = choose|i: int| 0 <= i < rest.len() && rest[i] == c;
                assert(s[i] == c);
            }
        }
        lemma_trim_end_within(rest, c);
    }
}

/// Where `s` begins and ends once the white space at both ends is left out:
/// the number of characters of white space at its start, and that number
/// plus the length of what is left.
pub fn trim_bounds(s: &[char]) -> (r: (usize, usize))
    ensures
        r.0 <= r.1 <= s@.len(),
        r.0 == s@.len() - trim_start(s@).len(),
        r.1 == r.0 + trim(s@).len(),
        trim(s@) == s@.subrange(r.0 as int, r.1 as int),
{
    let n: usize = s.len();
    let mut lo: usize = 0;
    assert(s@.skip(0) =~= s@);
    while lo < n && s[lo].is_whitespace()
        invariant
            n == s@.len(),
            lo <= n,
            trim_start(s@) == trim_start(s@.skip(lo as int)),
        decreases n - lo,
    {
        assert(s@.skip(lo as int).skip(1) =~= s@.skip(lo + 1));
        lo += 1;
    }
    assert(s@.skip(lo as int) =~= s@.subrange(lo as int, n as int));
    let mut hi: usize = n;
    while hi > lo && s[hi - 1].is_whitespace()
        invariant
            n == s@.len(),
            lo <= hi <= n,
            trim(s@) == trim_end(s@.subrange(lo as int, hi as int)),
        decreases hi,
    {
        assert(s@.subrange(lo as int, hi as int).drop_last() =~= s@.subrange(lo as int, hi - 1));
        hi -= 1;
    }
    (lo, hi)
}

/// How many characters `c` stand at the start of `s`.
pub fn leading_count(s: &[char], c: char) -> (k: usize)
    ensures
        k <= s@.len(),
        without_leading(s@, c) == s@.skip(k as int),
{
    let n: usize = s.len();
    let mut k: usize = 0;
    assert(s@.skip(0) =~= s@);
    while k < n && s[k] == c
        invariant
            n == s@.len(),
            k <= n,
            without_leading(s@, c) == without_leading(s@.skip(k as int), c),
        decreases n - k,
    {
        assert(s@.skip(k as int).skip(1) =~= s@.skip(k + 1));
        k += 1;
    }
    k
}

/// Is `c` one of the five characters of ASCII white space: space, tab, line
/// feed, form feed, carriage return?
pub open spec fn is_ascii_whitespace(c: char) -> bool {
    c == ' ' || c == '\t' || c == '\n' || c == '\x0C' || c == '\r'
}

/// Is `c` one of the five characters of ASCII white space?
pub fn ascii_whitespace(c: char) -> (b: bool)
    ensures
        b == is_ascii_whitespace(c),
{
    c == ' ' || c == '\t' || c == '\n' || c == '\x0C' || c == '\r'
}

/// `s[i..j]` is a word of `s`: a run of characters that are not ASCII white
/// space, with white space or an end of `s` on either side.
pub open spec fn is_word(s: Seq<char>, i: int, j: int) -> bool {
    &&& 0 <= i < j <= s.len()
    &&& forall|k: int| i <= k < j ==> !is_ascii_whitespace(#[trigger] s[k])
    &&& (i > 0 ==> is_ascii_whitespace(s[i - 1]))
    &&& (j < s.len() ==> is_ascii_whitespace(s[j]))
}

/// A word is known by where it starts.
pub proof fn lemma_word_end(s: Seq<char>, i: int, j: int, k: int)
    requires
        is_word(s, i, j),
        is_word(s, i, k),
    ensures
        j == k,
{
    if j < k {
        assert(!is_ascii_whitespace(s[j]));
    } else if k < j {
        assert(!is_ascii_whitespace(s[k]));
    }
}

/// `s[i..j]` is the first run in `s`, at `from` or after it, of characters
/// that are not ASCII white space: white space alone stands between `from`
/// and `i`, and white space or the end of `s` follows at `j`.
pub open spec fn is_run_from(s: Seq<char>, from: int, i: int, j: int) -> bool {
    &&& from <= i < j <= s.len()
    &&& forall|k: int| from <= k < i ==> is_ascii_whitespace(#[trigger] s[k])
    &&& forall|k: int| i <= k < j ==> !is_ascii_whitespace(#[trigger] s[k])
    &&& (j < s.len() ==> is_ascii_whitespace(s[j]))
}

/// The first run in `s`, at `from` or after it, of characters that are not
/// ASCII white space. There is none where only white space is left.
pub fn next_word(s: &[char], from: usize) -> (r: Option<(usize, usize)>)
    ensures
        match r {
            Some((i, j)) => is_run_from(s@, from as int, i as int, j as int),
            None => forall|k: int| from <= k < s@.len() ==> is_ascii_whitespace(#[trigger] s@[k]),
        },
{
    let n: usize = s.len();
    let mut i: usize = from;
    while i < n && ascii_whitespace(s[i])
        invariant
            n == s@.len(),
            from <= i,
            forall|k: int| from <= k < i && k < n ==> is_ascii_whitespace(#[trigger] s@[k]),
        decreases n - i,
    {
        i += 1;
    }
    if i >= n {
        return None;
    }
    let mut j: usize = i + 1;
    while j < n && !ascii_whitespace(s[j])
        invariant
            n == s@.len(),
            i < j <= n,
            forall|k: int| i <= k < j ==> !is_ascii_whitespace(#[trigger] s@[k]),
        decreases n - j,
    {
        j += 1;
    }
    Some((i, j))
}

/// The first line of `s`, and what follows the `"\r\n"` that ends it. Where
/// no `"\r\n"` stands in `s`, the line is all of `s` and nothing follows.
pub open spec fn first_line(s: Seq<char>) -> (Seq<char>, Option<Seq<char>>) {
    match split_once(s, "\r\n"@) {
        Some((line, rest)) => (line, Some(rest)),
        None => (s, None),
    }
}

/// The lines of `s` that come before its first empty line.
pub open spec fn lines_before_blank(s: Seq<char>) -> Seq<Seq<char>>
    decreases s.len(),
{
    let (line, rest) = first_line(s);
    if line.len() == 0 {
        Seq::empty()
    } else {
        match rest {
            Some(rest) => seq![line] + lines_before_blank(rest),
            None => seq![line],
        }
    }
}

/// Cuts `s[from..to]` at the first place where `pat` stands in it: gives the
/// index in `s` at which `pat` begins there, and the index at which it ends.
pub(crate) fn cut(s: &[char], from: usize, to: usize, pat: &[char]) -> (r: Option<(usize, usize)>)
    requires
        from <= to <= s@.len(),
    ensures
        match r {
            Some((at, after)) => {
                &&& from <= at <= after <= to
                &&& after - at == pat@.len()
                &&& split_once(s@.subrange(from as int, to as int), pat@) == Some(
                    (s@.subrange(from as int, at as int), s@.subrange(after as int, to as int)),
                )
            },
            None => split_once(s@.subrange(from as int, to as int), pat@) is None,
        },
{
    let part = vstd::slice::slice_subrange(s, from, to);
    match find_in(part, pat) {
        Some(i) => {
            assert(part@.take(i as int) =~= s@.subrange(from as int, from + i));
            assert(part@.skip(i + pat@.len()) =~= s@.subrange(from + i + pat@.len(), to as int));
            Some((from + i, from + i + pat.len()))
        },
        None => None,
    }
}

/// The text `s[from..to]` without the white space at its ends, where `s`
/// holds the characters of `text`.
pub(crate) fn trimmed(text: &str, s: &[char], from: usize, to: usize) -> (r: String)
    requires
        s@ == text@,
        from <= to <= s@.len(),
    ensures
        r@ == trim(s@.subrange(from as int, to as int)),
{
    let part = vstd::slice::slice_subrange(s, from, to);
    let (lo, hi) = trim_bounds(part);
    let r = text.substring_char(from + lo, from + hi);
    assert(r@ =~= part@.subrange(lo as int, hi as int));
    r.to_owned()
}

} // verus!
