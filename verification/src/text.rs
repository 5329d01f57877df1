//! String handling over the sequence of characters of a text.
//!
//! Every operation is stated on `Seq<char>`, the view of `str` and `String`, by
//! a short spec function, and the executable function beside it is proved equal
//! to that. The names and the edge cases follow the methods of `str`.

use vstd::prelude::*;
use vstd::string::*;

verus! {

/// `String::push` appends one character at the end.
pub assume_specification[ String::push ](s: &mut String, c: char)
    ensures
        final(s)@ == old(s)@.push(c),
;

/// What the `Debug` format of `str` prints for a text: the text in double quotes,
/// with the characters escaped that `char::escape_debug` escapes.
pub uninterp spec fn quoted(s: Seq<char>) -> Seq<char>;

/// Whether a character stands for itself in the `Debug` format of `str`.
pub open spec fn plain(c: char) -> bool {
    ' ' <= c <= '~' && c != '"' && c != '\\'
}

/// Formats a text with the `Debug` impl of `str`. The contract names the result
/// and claims that printable ASCII other than the quote and the backslash is
/// printed as it is, between double quotes.
#[verifier::external_body]
pub(crate) fn quote(s: &str) -> (r: String)
    ensures
        r@ == quoted(s@),
        (forall|i: int| 0 <= i < s@.len() ==> plain(#[trigger] s@[i])) ==> r@ == seq!['"'] + s@
            + seq!['"'],
{
    format!("{s:?}")
}

// ---------------------------------------------------------------------------
// Characters and strings
// ---------------------------------------------------------------------------

/// The characters of a string.
pub fn chars_of(s: &str) -> (v: Vec<char>)
    ensures
        v@ == s@,
{
    let mut v: Vec<char> = Vec::new();
    for c in it: s.chars()
        invariant
            v@ == s@.take(it.index() as int),
            it.seq() == s@,
    {
        v.push(c);
        assert(s@.take(it.index() + 1) =~= s@.take(it.index() as int).push(c));
    }
    assert(s@.take(s@.len() as int) =~= s@);
    v
}

/// The string made of the characters `from..to` of `v`.
pub fn string_of(v: &Vec<char>, from: usize, to: usize) -> (s: String)
    requires
        from <= to <= v@.len(),
    ensures
        s@ == v@.subrange(from as int, to as int),
{
    let mut s = String::new();
    let mut i: usize = from;
    while i < to
        invariant
            from <= i <= to <= v@.len(),
            s@ == v@.subrange(from as int, i as int),
        decreases to - i,
    {
        s.push(v[i]);
        i = i + 1;
        assert(v@.subrange(from as int, i as int) =~= v@.subrange(from as int, i - 1).push(v@[i - 1]));
    }
    s
}

/// The string made of the characters of `v` from `from` on.
pub fn tail_of(v: &Vec<char>, from: usize) -> (s: String)
    requires
        from <= v@.len(),
    ensures
        s@ == v@.skip(from as int),
{
    let s = string_of(v, from, v.len());
    assert(s@ =~= v@.skip(from as int));
    s
}

/// A string made of two parts.
pub fn cat(a: &str, b: &str) -> (s: String)
    ensures
        s@ == a@ + b@,
{
    let mut s = a.to_owned();
    s.append(b);
    s
}

/// A string made of three parts.
pub fn cat3(a: &str, b: &str, c: &str) -> (s: String)
    ensures
        s@ == a@ + b@ + c@,
{
    let mut s = a.to_owned();
    s.append(b);
    s.append(c);
    s
}

/// The views of a list of strings.
pub open spec fn views(v: Seq<String>) -> Seq<Seq<char>> {
    v.map_values(|s: String| s@)
}

/// The view of a text that may be absent.
pub open spec fn opt_view(o: Option<String>) -> Option<Seq<char>> {
    match o {
        Some(s) => Some(s@),
        None => None,
    }
}

/// The view of a borrowed text that may be absent.
pub open spec fn opt_str(o: Option<&str>) -> Option<Seq<char>> {
    match o {
        Some(s) => Some(s@),
        None => None,
    }
}

/// The view of a text or of a message that stands in its place.
pub open spec fn result_view(r: Result<String, String>) -> Result<Seq<char>, Seq<char>> {
    match r {
        Ok(s) => Ok(s@),
        Err(e) => Err(e@),
    }
}

/// Whether two texts are the same text.
pub fn same(a: &str, b: &str) -> (r: bool)
    ensures
        r == (a@ == b@),
{
    let x = chars_of(a);
    let y = chars_of(b);
    if x.len() != y.len() {
        return false;
    }
    let mut i: usize = 0;
    while i < x.len()
        invariant
            i <= x@.len(),
            x@.len() == y@.len(),
            a@ == x@,
            b@ == y@,
            forall|j: int| 0 <= j < i ==> x@[j] == y@[j],
        decreases x@.len() - i,
    {
        if x[i] != y[i] {
            return false;
        }
        i = i + 1;
    }
    assert(x@ =~= y@);
    true
}

// ---------------------------------------------------------------------------
// White space
// ---------------------------------------------------------------------------

/// The characters with the Unicode property `White_Space`.
pub open spec fn white(c: char) -> bool {
    ||| '\u{9}' <= c <= '\u{d}'
    ||| c == ' '
    ||| c == '\u{85}'
    ||| c == '\u{a0}'
    ||| c == '\u{1680}'
    ||| '\u{2000}' <= c <= '\u{200a}'
    ||| c == '\u{2028}'
    ||| c == '\u{2029}'
    ||| c == '\u{202f}'
    ||| c == '\u{205f}'
    ||| c == '\u{3000}'
}

/// Whether `c` is white space.
pub fn is_white(c: char) -> (r: bool)
    ensures
        r == white(c),
{
    ('\u{9}' <= c && c <= '\u{d}') || c == ' ' || c == '\u{85}' || c == '\u{a0}' || c == '\u{1680}'
        || ('\u{2000}' <= c && c <= '\u{200a}') || c == '\u{2028}' || c == '\u{2029}' || c
        == '\u{202f}' || c == '\u{205f}' || c == '\u{3000}'
}

/// `s` without the white space at its start.
pub open spec fn trimmed_start(s: Seq<char>) -> Seq<char>
    decreases s.len(),
{
    if s.len() > 0 && white(s[0]) {
        trimmed_start(s.skip(1))
    } else {
        s
    }
}

/// `s` without the white space at its end.
pub open spec fn trimmed_end(s: Seq<char>) -> Seq<char>
    decreases s.len(),
{
    if s.len() > 0 && white(s.last()) {
        trimmed_end(s.drop_last())
    } else {
        s
    }
}

/// `s` without the white space at its two ends.
pub open spec fn trimmed(s: Seq<char>) -> Seq<char> {
    trimmed_end(trimmed_start(s))
}

/// Where the text of `v[from..]` begins after its leading white space.
fn start_of(v: &Vec<char>, from: usize) -> (i: usize)
    requires
        from <= v@.len(),
    ensures
        from <= i <= v@.len(),
        v@.skip(i as int) == trimmed_start(v@.skip(from as int)),
        i < v@.len() ==> !white(v@[i as int]),
        forall|j: int| from <= j < i ==> white(v@[j]),
{
    let mut i: usize = from;
    while i < v.len() && is_white(v[i])
        invariant
            from <= i <= v@.len(),
            trimmed_start(v@.skip(i as int)) == trimmed_start(v@.skip(from as int)),
            forall|j: int| from <= j < i ==> white(v@[j]),
        decreases v@.len() - i,
    {
        assert(v@.skip(i as int).skip(1) =~= v@.skip(i + 1));
        i = i + 1;
    }
    i
}

/// Where the text of `v[from..to]` ends before its trailing white space.
fn end_of(v: &Vec<char>, from: usize, to: usize) -> (k: usize)
    requires
        from <= to <= v@.len(),
    ensures
        from <= k <= to,
        v@.subrange(from as int, k as int) == trimmed_end(v@.subrange(from as int, to as int)),
{
    let mut k: usize = to;
    while k > from && is_white(v[k - 1])
        invariant
            from <= k <= to <= v@.len(),
            trimmed_end(v@.subrange(from as int, k as int)) == trimmed_end(
                v@.subrange(from as int, to as int),
            ),
        decreases k,
    {
        assert(v@.subrange(from as int, k as int).drop_last() =~= v@.subrange(from as int, k - 1));
        k = k - 1;
    }
    k
}

/// `str::trim_start`.
pub fn trim_start(s: &str) -> (r: String)
    ensures
        r@ == trimmed_start(s@),
{
    let v = chars_of(s);
    let i: usize = start_of(&v, 0);
    assert(v@.skip(0) =~= v@);
    let n: usize = v.len();
    assert(v@.subrange(i as int, n as int) =~= v@.skip(i as int));
    string_of(&v, i, n)
}

/// `str::trim`.
pub fn trim(s: &str) -> (r: String)
    ensures
        r@ == trimmed(s@),
{
    let v = chars_of(s);
    let i: usize = start_of(&v, 0);
    assert(v@.skip(0) =~= v@);
    let n: usize = v.len();
    let k: usize = end_of(&v, i, n);
    assert(v@.subrange(i as int, n as int) =~= v@.skip(i as int));
    string_of(&v, i, k)
}

/// Trimming gives a contiguous part of the text, which neither starts nor ends
/// with white space.
pub proof fn lemma_trimmed(s: Seq<char>)
    ensures
        trimmed(s).len() <= s.len(),
        trimmed(s).len() > 0 ==> !white(trimmed(s)[0]) && !white(trimmed(s).last()),
        forall|c: char| trimmed(s).contains(c) ==> s.contains(c),
{
    lemma_trimmed_start(s);
    lemma_trimmed_end(trimmed_start(s));
}

proof fn lemma_trimmed_start(s: Seq<char>)
    ensures
        trimmed_start(s).len() <= s.len(),
        trimmed_start(s).len() > 0 ==> !white(trimmed_start(s)[0]),
        forall|c: char| trimmed_start(s).contains(c) ==> s.contains(c),
    decreases s.len(),
{
    if s.len() > 0 && white(s[0]) {
        lemma_trimmed_start(s.skip(1));
        assert forall|c: char| trimmed_start(s).contains(c) implies s.contains(c) by {
            assert(s.skip(1).contains(c));
            let i = choose|i: int| 0 <= i < s.skip(1).len() && s.skip(1)[i] == c;
            assert(s[i + 1] == c);
        }
    }
}

proof fn lemma_trimmed_end(s: Seq<char>)
    ensures
        trimmed_end(s).len() <= s.len(),
        trimmed_end(s) == s.take(trimmed_end(s).len() as int),
        trimmed_end(s).len() > 0 ==> !white(trimmed_end(s).last()) && trimmed_end(s)[0] == s[0],
        forall|c: char| trimmed_end(s).contains(c) ==> s.contains(c),
    decreases s.len(),
{
    if s.len() > 0 && white(s.last()) {
        lemma_trimmed_end(s.drop_last());
        let t = trimmed_end(s);
        assert(s.drop_last().take(t.len() as int) =~= s.take(t.len() as int));
    } else {
        assert(s.take(s.len() as int) =~= s);
    }
}

/// Trimming twice is trimming once.
pub proof fn lemma_trimmed_idempotent(s: Seq<char>)
    ensures
        trimmed(trimmed(s)) == trimmed(s),
{
    lemma_trimmed(s);
}

// ---------------------------------------------------------------------------
// Searching
// ---------------------------------------------------------------------------

/// Whether `p` stands in `s` at position `i`.
pub open spec fn occurs_at(s: Seq<char>, p: Seq<char>, i: int) -> bool {
    0 <= i && i + p.len() <= s.len() && s.subrange(i, i + p.len()) == p
}

/// Whether `p` stands somewhere in `s`.
pub open spec fn has(s: Seq<char>, p: Seq<char>) -> bool {
    exists|i: int| #[trigger] occurs_at(s, p, i)
}

/// The first position from `i` on at which `p` stands in `s`.
pub open spec fn find_from(s: Seq<char>, p: Seq<char>, i: int) -> Option<int>
    decreases s.len() - i + 1,
{
    if i < 0 || i + p.len() > s.len() {
        None
    } else if occurs_at(s, p, i) {
        Some(i)
    } else {
        find_from(s, p, i + 1)
    }
}

/// The first position at which `p` stands in `s`.
pub open spec fn found(s: Seq<char>, p: Seq<char>) -> Option<int> {
    find_from(s, p, 0)
}

/// The last position up to `i` at which `p` stands in `s`.
pub open spec fn rfind_upto(s: Seq<char>, p: Seq<char>, i: int) -> Option<int>
    decreases i + 1,
{
    if i < 0 {
        None
    } else if occurs_at(s, p, i) {
        Some(i)
    } else {
        rfind_upto(s, p, i - 1)
    }
}

/// The last position at which `p` stands in `s`.
pub open spec fn rfound(s: Seq<char>, p: Seq<char>) -> Option<int> {
    rfind_upto(s, p, s.len() as int)
}

/// Whether `p` stands in `v` at position `i`.
pub fn at(v: &Vec<char>, p: &Vec<char>, i: usize) -> (r: bool)
    requires
        i <= v@.len(),
    ensures
        r == occurs_at(v@, p@, i as int),
{
    let n: usize = v.len();
    if p.len() > n - i {
        return false;
    }
    let mut j: usize = 0;
    while j < p.len()
        invariant
            j <= p@.len(),
            i + p@.len() <= v@.len(),
            n == v@.len(),
            forall|k: int| 0 <= k < j ==> v@[i + k] == p@[k],
        decreases p@.len() - j,
    {
        if v[i + j] != p[j] {
            assert(v@.subrange(i as int, i + p@.len())[j as int] != p@[j as int]);
            return false;
        }
        j = j + 1;
    }
    assert(v@.subrange(i as int, i + p@.len()) =~= p@);
    true
}

/// The first position from `from` on at which `p` stands in `v`.
pub fn find_at(v: &Vec<char>, p: &Vec<char>, from: usize) -> (r: Option<usize>)
    requires
        from <= v@.len(),
    ensures
        match r {
            Some(i) => find_from(v@, p@, from as int) == Some(i as int) && from <= i && i + p@.len()
                <= v@.len() <= usize::MAX,
            None => find_from(v@, p@, from as int) is None,
        },
{
    let mut i: usize = from;
    while p.len() <= v.len() - i
        invariant
            from <= i <= v@.len(),
            find_from(v@, p@, i as int) == find_from(v@, p@, from as int),
        decreases v@.len() - i,
    {
        if at(v, p, i) {
            return Some(i);
        }
        if i == v.len() {
            assert(v@.subrange(i as int, i as int) =~= p@);
            return None;
        }
        i = i + 1;
    }
    None
}

/// The last position at which `p` stands in `v`.
pub fn rfind_at(v: &Vec<char>, p: &Vec<char>) -> (r: Option<usize>)
    ensures
        match r {
            Some(i) => rfound(v@, p@) == Some(i as int) && i + p@.len() <= v@.len() <= usize::MAX,
            None => rfound(v@, p@) is None,
        },
{
    let mut i: usize = v.len();
    loop
        invariant
            i <= v@.len() <= usize::MAX,
            rfind_upto(v@, p@, i as int) == rfound(v@, p@),
        decreases i,
    {
        if at(v, p, i) {
            return Some(i);
        }
        if i == 0 {
            assert(rfind_upto(v@, p@, -1) is None);
            return None;
        }
        i = i - 1;
    }
}

/// What a search from `i` on tells: where the first occurrence is, or that
/// there is none.
pub proof fn lemma_find_from(s: Seq<char>, p: Seq<char>, i: int)
    requires
        0 <= i,
    ensures
        match find_from(s, p, i) {
            Some(k) => i <= k && occurs_at(s, p, k) && (forall|j: int|
                i <= j < k ==> !#[trigger] occurs_at(s, p, j)),
            None => forall|j: int| i <= j ==> !#[trigger] occurs_at(s, p, j),
        },
    decreases s.len() - i + 1,
{
    if i + p.len() <= s.len() && !occurs_at(s, p, i) {
        lemma_find_from(s, p, i + 1);
    }
}

/// A first occurrence is what the search finds.
pub proof fn lemma_find_is(s: Seq<char>, p: Seq<char>, i: int, k: int)
    requires
        0 <= i <= k,
        occurs_at(s, p, k),
        forall|j: int| i <= j < k ==> !#[trigger] occurs_at(s, p, j),
    ensures
        find_from(s, p, i) == Some(k),
    decreases k - i,
{
    if i < k {
        assert(!occurs_at(s, p, i));
        lemma_find_is(s, p, i + 1, k);
    }
}

/// A search finds something exactly where the text holds the pattern.
pub proof fn lemma_found(s: Seq<char>, p: Seq<char>)
    ensures
        has(s, p) == (found(s, p) is Some),
        has(s, p) == (rfound(s, p) is Some),
{
    lemma_find_from(s, p, 0);
    lemma_rfind_upto(s, p, s.len() as int);
    if found(s, p) is Some {
        assert(occurs_at(s, p, found(s, p)->0));
    }
    if rfound(s, p) is Some {
        assert(occurs_at(s, p, rfound(s, p)->0));
    }
    if has(s, p) {
        let i = choose|i: int| #[trigger] occurs_at(s, p, i);
        assert(occurs_at(s, p, i));
    }
}

/// What a search backwards from `i` tells.
pub proof fn lemma_rfind_upto(s: Seq<char>, p: Seq<char>, i: int)
    ensures
        match rfind_upto(s, p, i) {
            Some(k) => k <= i && occurs_at(s, p, k) && (forall|j: int|
                k < j <= i ==> !#[trigger] occurs_at(s, p, j)),
            None => forall|j: int| j <= i ==> !#[trigger] occurs_at(s, p, j),
        },
    decreases i + 1,
{
    if i >= 0 && !occurs_at(s, p, i) {
        lemma_rfind_upto(s, p, i - 1);
    }
}

/// A last occurrence is what the search backwards finds.
pub proof fn lemma_rfind_is(s: Seq<char>, p: Seq<char>, i: int, k: int)
    requires
        k <= i,
        occurs_at(s, p, k),
        forall|j: int| k < j <= i ==> !#[trigger] occurs_at(s, p, j),
    ensures
        rfind_upto(s, p, i) == Some(k),
    decreases i - k,
{
    if k < i {
        assert(!occurs_at(s, p, i));
        lemma_rfind_is(s, p, i - 1, k);
    }
}

/// `str::contains`.
pub fn contains(s: &str, p: &str) -> (r: bool)
    ensures
        r == has(s@, p@),
{
    let v = chars_of(s);
    let q = chars_of(p);
    proof {
        lemma_found(s@, p@);
    }
    find_at(&v, &q, 0).is_some()
}

/// `str::starts_with`.
pub fn starts_with(s: &str, p: &str) -> (r: bool)
    ensures
        r == occurs_at(s@, p@, 0),
{
    let v = chars_of(s);
    let q = chars_of(p);
    at(&v, &q, 0)
}

// ---------------------------------------------------------------------------
// Lines, pieces and words
// ---------------------------------------------------------------------------

/// The position of the first `c` in `s`, or the length of `s`.
pub open spec fn index_of(s: Seq<char>, c: char) -> int
    decreases s.len(),
{
    if s.len() == 0 || s[0] == c {
        0
    } else {
        1 + index_of(s.skip(1), c)
    }
}

/// What `index_of` says.
pub proof fn lemma_index_of(s: Seq<char>, c: char)
    ensures
        0 <= index_of(s, c) <= s.len(),
        index_of(s, c) < s.len() ==> s[index_of(s, c)] == c,
        forall|j: int| 0 <= j < index_of(s, c) ==> s[j] != c,
    decreases s.len(),
{
    if s.len() > 0 && s[0] != c {
        lemma_index_of(s.skip(1), c);
        assert forall|j: int| 0 <= j < index_of(s, c) implies s[j] != c by {
            if j > 0 {
                assert(s.skip(1)[j - 1] == s[j]);
            }
        }
    }
}

/// A first position is what `index_of` gives.
pub proof fn lemma_index_is(s: Seq<char>, c: char, k: int)
    requires
        0 <= k <= s.len(),
        k < s.len() ==> s[k] == c,
        forall|j: int| 0 <= j < k ==> s[j] != c,
    ensures
        index_of(s, c) == k,
    decreases k,
{
    if k > 0 {
        assert forall|j: int| 0 <= j < k - 1 implies s.skip(1)[j] != c by {
            assert(s.skip(1)[j] == s[j + 1]);
        }
        lemma_index_is(s.skip(1), c, k - 1);
    }
}

/// The position of the first `c` in `v[from..]`, or the length of `v`.
pub fn index_at(v: &Vec<char>, c: char, from: usize) -> (i: usize)
    requires
        from <= v@.len(),
    ensures
        from <= i <= v@.len(),
        i == from + index_of(v@.skip(from as int), c),
        i < v@.len() ==> v@[i as int] == c,
        forall|j: int| from <= j < i ==> v@[j] != c,
{
    let mut i: usize = from;
    while i < v.len() && v[i] != c
        invariant
            from <= i <= v@.len(),
            forall|j: int| from <= j < i ==> v@[j] != c,
        decreases v@.len() - i,
    {
        i = i + 1;
    }
    proof {
        lemma_index_is(v@.skip(from as int), c, i - from);
    }
    i
}

/// A line without the carriage return before its end.
pub open spec fn without_cr(s: Seq<char>) -> Seq<char> {
    if s.len() > 0 && s.last() == '\r' {
        s.drop_last()
    } else {
        s
    }
}

/// The lines of `s`: each ends at a line feed, which a carriage return may
/// precede; the end of the text ends its last line, unless that line is empty.
pub open spec fn lines_of(s: Seq<char>) -> Seq<Seq<char>>
    decreases s.len(),
    via lines_of_decreases
{
    if s.len() == 0 {
        Seq::empty()
    } else {
        let i = index_of(s, '\n');
        if i == s.len() {
            seq![s]
        } else {
            seq![without_cr(s.take(i))] + lines_of(s.skip(i + 1))
        }
    }
}

#[via_fn]
proof fn lines_of_decreases(s: Seq<char>) {
    lemma_index_of(s, '\n');
}

/// `str::lines`.
pub fn lines(s: &str) -> (r: Vec<String>)
    ensures
        views(r@) == lines_of(s@),
{
    let v = chars_of(s);
    let mut r: Vec<String> = Vec::new();
    let mut from: usize = 0;
    assert(v@.skip(0) =~= v@);
    while from < v.len()
        invariant
            v@ == s@,
            from <= v@.len(),
            views(r@) + lines_of(v@.skip(from as int)) == lines_of(s@),
        decreases v@.len() - from,
    {
        let ghost rest = v@.skip(from as int);
        let ghost before = r@;
        let i: usize = index_at(&v, '\n', from);
        if i == v.len() {
            let line = string_of(&v, from, i);
            assert(line@ =~= rest);
            r.push(line);
            assert(views(r@) =~= views(before) + seq![rest]);
            from = i;
        } else {
            let mut to: usize = i;
            if to > from && v[to - 1] == '\r' {
                to = to - 1;
            }
            let line = string_of(&v, from, to);
            assert(line@ =~= without_cr(rest.take(i - from)));
            r.push(line);
            assert(views(r@) =~= views(before) + seq![without_cr(rest.take(i - from))]);
            assert(rest.skip(i - from + 1) =~= v@.skip(i + 1));
            from = i + 1;
        }
        assert(views(r@) + lines_of(v@.skip(from as int)) =~= views(before) + lines_of(rest));
    }
    assert(views(r@) =~= views(r@) + lines_of(v@.skip(from as int)));
    r
}

/// The pieces of `s` between the characters `c`, the empty ones too.
pub open spec fn pieces(s: Seq<char>, c: char) -> Seq<Seq<char>>
    decreases s.len(),
    via pieces_decreases
{
    let i = index_of(s, c);
    if i >= s.len() {
        seq![s]
    } else {
        seq![s.take(i)] + pieces(s.skip(i + 1), c)
    }
}

#[via_fn]
proof fn pieces_decreases(s: Seq<char>, c: char) {
    lemma_index_of(s, c);
}

/// `str::split` on one character.
pub fn split(s: &str, c: char) -> (r: Vec<String>)
    ensures
        views(r@) == pieces(s@, c),
{
    let v = chars_of(s);
    let mut r: Vec<String> = Vec::new();
    let mut from: usize = 0;
    assert(v@.skip(0) =~= v@);
    assert(views(r@) + pieces(v@.skip(0), c) =~= pieces(s@, c));
    loop
        invariant
            v@ == s@,
            from <= v@.len(),
            views(r@) + pieces(v@.skip(from as int), c) == pieces(s@, c),
        decreases v@.len() - from,
    {
        let ghost rest = v@.skip(from as int);
        let ghost before = r@;
        let i: usize = index_at(&v, c, from);
        let piece = string_of(&v, from, i);
        r.push(piece);
        assert(piece@ =~= rest.take(i - from));
        assert(views(r@) =~= views(before) + seq![rest.take(i - from)]);
        if i == v.len() {
            assert(rest.take(i - from) =~= rest);
            return r;
        }
        assert(rest.skip(i - from + 1) =~= v@.skip(i + 1));
        from = i + 1;
        assert(views(r@) + pieces(v@.skip(from as int), c) =~= views(before) + pieces(rest, c));
    }
}

/// The text before and after the first `c` in `s`.
pub open spec fn split_at_first(s: Seq<char>, c: char) -> Option<(Seq<char>, Seq<char>)> {
    let i = index_of(s, c);
    if i >= s.len() {
        None
    } else {
        Some((s.take(i), s.skip(i + 1)))
    }
}

/// `str::split_once` on one character.
pub fn split_once(s: &str, c: char) -> (r: Option<(String, String)>)
    ensures
        match r {
            Some((a, b)) => split_at_first(s@, c) == Some((a@, b@)),
            None => split_at_first(s@, c) is None,
        },
{
    let v = chars_of(s);
    let i: usize = index_at(&v, c, 0);
    assert(v@.skip(0) =~= v@);
    if i == v.len() {
        return None;
    }
    let n: usize = v.len();
    let a = string_of(&v, 0, i);
    let b = string_of(&v, i + 1, n);
    assert(a@ =~= s@.take(i as int));
    assert(b@ =~= s@.skip(i + 1));
    Some((a, b))
}

/// The position of the first white space in `s`, or the length of `s`.
pub open spec fn word_len(s: Seq<char>) -> int
    decreases s.len(),
{
    if s.len() == 0 || white(s[0]) {
        0
    } else {
        1 + word_len(s.skip(1))
    }
}

/// What `word_len` says.
pub proof fn lemma_word_len(s: Seq<char>)
    ensures
        0 <= word_len(s) <= s.len(),
        s.len() > 0 && !white(s[0]) ==> word_len(s) > 0,
    decreases s.len(),
{
    if s.len() > 0 && !white(s[0]) {
        lemma_word_len(s.skip(1));
    }
}

/// The words of `s`: its maximal parts without white space.
pub open spec fn words_of(s: Seq<char>) -> Seq<Seq<char>>
    decreases s.len(),
    via words_of_decreases
{
    let t = trimmed_start(s);
    if t.len() == 0 {
        Seq::empty()
    } else {
        seq![t.take(word_len(t))] + words_of(t.skip(word_len(t)))
    }
}

#[via_fn]
proof fn words_of_decreases(s: Seq<char>) {
    lemma_trimmed_start(s);
    lemma_word_len(trimmed_start(s));
}

/// Where the word that starts at `from` ends.
fn word_end(v: &Vec<char>, from: usize) -> (k: usize)
    requires
        from <= v@.len(),
    ensures
        from <= k <= v@.len(),
        k == from + word_len(v@.skip(from as int)),
{
    let mut k: usize = from;
    while k < v.len() && !is_white(v[k])
        invariant
            from <= k <= v@.len(),
            k + word_len(v@.skip(k as int)) == from + word_len(v@.skip(from as int)),
        decreases v@.len() - k,
    {
        assert(v@.skip(k as int).skip(1) =~= v@.skip(k + 1));
        k = k + 1;
    }
    k
}

/// `str::split_whitespace`.
pub fn words(s: &str) -> (r: Vec<String>)
    ensures
        views(r@) == words_of(s@),
{
    let v = chars_of(s);
    let mut r: Vec<String> = Vec::new();
    let mut from: usize = 0;
    assert(v@.skip(0) =~= v@);
    assert(views(r@) + words_of(v@.skip(0)) =~= words_of(s@));
    loop
        invariant
            from <= v@.len(),
            views(r@) + words_of(v@.skip(from as int)) == words_of(s@),
        decreases v@.len() - from,
    {
        let ghost rest = v@.skip(from as int);
        let ghost before = r@;
        let i: usize = start_of(&v, from);
        if i == v.len() {
            assert(views(r@) =~= views(r@) + words_of(rest));
            return r;
        }
        let k: usize = word_end(&v, i);
        let ghost t = v@.skip(i as int);
        let word = string_of(&v, i, k);
        assert(word@ =~= t.take(k - i));
        r.push(word);
        assert(views(r@) =~= views(before) + seq![t.take(k - i)]);
        assert(t.skip(k - i) =~= v@.skip(k as int));
        proof {
            lemma_word_len(t);
        }
        from = k;
        assert(views(r@) + words_of(v@.skip(from as int)) =~= views(before) + words_of(rest));
    }
}

/// The parts of `v` with `sep` between each two.
pub open spec fn joined(v: Seq<Seq<char>>, sep: Seq<char>) -> Seq<char>
    decreases v.len(),
{
    if v.len() == 0 {
        Seq::empty()
    } else if v.len() == 1 {
        v[0]
    } else {
        joined(v.drop_last(), sep) + sep + v.last()
    }
}

/// `join` on a list of strings.
pub fn join(v: &Vec<String>, sep: &str) -> (r: String)
    ensures
        r@ == joined(views(v@), sep@),
{
    let mut r = String::new();
    let mut i: usize = 0;
    while i < v.len()
        invariant
            i <= v@.len(),
            r@ == joined(views(v@).take(i as int), sep@),
        decreases v@.len() - i,
    {
        let ghost before = views(v@).take(i as int);
        if i > 0 {
            r.append(sep);
        }
        r.append(v[i].as_str());
        assert(views(v@).take(i + 1).drop_last() =~= before);
        if i == 0 {
            assert(r@ =~= v@[0]@);
        }
        i = i + 1;
    }
    assert(views(v@).take(i as int) =~= views(v@));
    r
}

/// Each entry stands in the joined text, at the position returned.
pub proof fn lemma_joined_has(v: Seq<Seq<char>>, sep: Seq<char>, i: int) -> (at: int)
    requires
        0 <= i < v.len(),
    ensures
        occurs_at(joined(v, sep), v[i], at),
    decreases v.len(),
{
    let all = joined(v, sep);
    if v.len() == 1 {
        assert(all.subrange(0, all.len() as int) =~= all);
        0
    } else if i == v.len() - 1 {
        let at = all.len() - v[i].len();
        assert(all.subrange(at, at + v[i].len()) =~= v[i]);
        at
    } else {
        let init = joined(v.drop_last(), sep);
        let at = lemma_joined_has(v.drop_last(), sep, i);
        assert(all.subrange(at, at + v[i].len()) =~= init.subrange(at, at + v[i].len()));
        at
    }
}

// ---------------------------------------------------------------------------
// Case, prefixes and suffixes
// ---------------------------------------------------------------------------

/// The lower case of an ASCII letter; every other character is itself.
pub open spec fn lower_char(c: char) -> char {
    if 'A' <= c <= 'Z' {
        (c as u32 + 32) as char
    } else {
        c
    }
}

/// `s` with its ASCII letters in lower case.
pub open spec fn lowered(s: Seq<char>) -> Seq<char> {
    s.map_values(|c: char| lower_char(c))
}

/// The lower case of an ASCII letter.
fn to_lower(c: char) -> (r: char)
    ensures
        r == lower_char(c),
{
    if 'A' <= c && c <= 'Z' {
        let b: u8 = (c as u8) + 32;
        b as char
    } else {
        c
    }
}

/// `str::to_ascii_lowercase`.
pub fn lowercase(s: &str) -> (r: String)
    ensures
        r@ == lowered(s@),
{
    let mut r = String::new();
    for c in it: s.chars()
        invariant
            r@ == lowered(s@.take(it.index() as int)),
            it.seq() == s@,
    {
        r.push(to_lower(c));
        assert(lowered(s@.take(it.index() + 1)) =~= lowered(s@.take(it.index() as int)).push(
            lower_char(c),
        ));
    }
    assert(s@.take(s@.len() as int) =~= s@);
    r
}

/// Lower case of lower case is the same.
pub proof fn lemma_lowered_idempotent(s: Seq<char>)
    ensures
        lowered(lowered(s)) == lowered(s),
{
    assert(lowered(lowered(s)) =~= lowered(s));
}

/// Lower case commutes with trimming.
pub proof fn lemma_lowered_trimmed(s: Seq<char>)
    ensures
        lowered(trimmed(s)) == trimmed(lowered(s)),
{
    lemma_lowered_trimmed_start(s);
    lemma_lowered_trimmed_end(trimmed_start(s));
}

proof fn lemma_lowered_trimmed_start(s: Seq<char>)
    ensures
        lowered(trimmed_start(s)) == trimmed_start(lowered(s)),
    decreases s.len(),
{
    if s.len() > 0 && white(s[0]) {
        assert(lowered(s.skip(1)) =~= lowered(s).skip(1));
        lemma_lowered_trimmed_start(s.skip(1));
    }
}

proof fn lemma_lowered_trimmed_end(s: Seq<char>)
    ensures
        lowered(trimmed_end(s)) == trimmed_end(lowered(s)),
    decreases s.len(),
{
    if s.len() > 0 && white(s.last()) {
        assert(lowered(s.drop_last()) =~= lowered(s).drop_last());
        lemma_lowered_trimmed_end(s.drop_last());
    }
}

/// `s` without the characters `c` at its end.
pub open spec fn without_end(s: Seq<char>, c: char) -> Seq<char>
    decreases s.len(),
{
    if s.len() > 0 && s.last() == c {
        without_end(s.drop_last(), c)
    } else {
        s
    }
}

/// `str::trim_end_matches` on one character.
pub fn trim_end_char(s: &str, c: char) -> (r: String)
    ensures
        r@ == without_end(s@, c),
{
    let v = chars_of(s);
    let mut k: usize = v.len();
    assert(v@.take(k as int) =~= v@);
    while k > 0 && v[k - 1] == c
        invariant
            k <= v@.len(),
            v@ == s@,
            without_end(v@.take(k as int), c) == without_end(s@, c),
        decreases k,
    {
        assert(v@.take(k as int).drop_last() =~= v@.take(k - 1));
        k = k - 1;
    }
    assert(v@.take(k as int) =~= v@.subrange(0, k as int));
    string_of(&v, 0, k)
}

/// `s` without the copies of `p` at its start.
pub open spec fn without_start(s: Seq<char>, p: Seq<char>) -> Seq<char>
    decreases s.len(),
{
    if p.len() > 0 && occurs_at(s, p, 0) {
        without_start(s.skip(p.len() as int), p)
    } else {
        s
    }
}

/// `str::trim_start_matches` on a text that is not empty.
pub fn trim_start_text(s: &str, p: &str) -> (r: String)
    requires
        p@.len() > 0,
    ensures
        r@ == without_start(s@, p@),
{
    let v = chars_of(s);
    let q = chars_of(p);
    let n: usize = v.len();
    let mut i: usize = 0;
    assert(v@.skip(0) =~= v@);
    while at(&v, &q, i)
        invariant
            i <= n,
            n == v@.len(),
            q@ == p@,
            p@.len() > 0,
            without_start(v@.skip(i as int), p@) == without_start(s@, p@),
        decreases n - i,
    {
        assert(v@.skip(i as int).subrange(0, p@.len() as int) =~= v@.subrange(i as int, i + p@.len()));
        assert(v@.skip(i as int).skip(p@.len() as int) =~= v@.skip(i + p@.len()));
        i = i + q.len();
    }
    proof {
        if occurs_at(v@.skip(i as int), p@, 0) {
            assert(v@.skip(i as int).subrange(0, p@.len() as int) =~= v@.subrange(
                i as int,
                i + p@.len(),
            ));
        }
    }
    assert(v@.subrange(i as int, n as int) =~= v@.skip(i as int));
    string_of(&v, i, n)
}

/// One copy of `p` before a text that does not start with it is taken off.
pub proof fn lemma_without_start_once(p: Seq<char>, rest: Seq<char>)
    requires
        p.len() > 0,
        !occurs_at(rest, p, 0),
    ensures
        without_start(rest, p) == rest,
        without_start(p + rest, p) == rest,
{
    assert((p + rest).subrange(0, p.len() as int) =~= p);
    assert((p + rest).skip(p.len() as int) =~= rest);
}

/// A scheme ends in a slash before which stands another, so it cannot end in the
/// one slash that follows a host that ends otherwise.
pub proof fn lemma_scheme_then_slash(host: Seq<char>, scheme: Seq<char>)
    requires
        host.len() > 0,
        host.last() != '/',
        !occurs_at(host, scheme, 0),
        scheme.len() >= 2,
        scheme[scheme.len() - 2] == '/',
    ensures
        !occurs_at(host + "/"@, scheme, 0),
{
    reveal_strlit("/");
    let s = host + "/"@;
    let n = scheme.len() as int;
    if occurs_at(s, scheme, 0) {
        if n <= host.len() {
            assert(host.subrange(0, n) =~= s.subrange(0, n));
        } else {
            assert(s.subrange(0, n)[n - 2] == s[n - 2]);
            assert(s[n - 2] == host.last());
        }
    }
}

/// The first `n` characters of `s`, or all of it.
pub open spec fn first_chars(s: Seq<char>, n: int) -> Seq<char> {
    if n < s.len() {
        s.take(n)
    } else {
        s
    }
}

/// The first `n` characters of `s`.
pub fn take_chars(s: &str, n: usize) -> (r: String)
    ensures
        r@ == first_chars(s@, n as int),
{
    let v = chars_of(s);
    if n < v.len() {
        let r = string_of(&v, 0, n);
        assert(r@ =~= s@.take(n as int));
        r
    } else {
        s.to_owned()
    }
}

/// `s` with every occurrence of `p` replaced by `by`, from the left, none
/// overlapping the one before it.
pub open spec fn replaced(s: Seq<char>, p: Seq<char>, by: Seq<char>) -> Seq<char>
    decreases s.len(),
    via replaced_decreases
{
    if p.len() == 0 {
        s
    } else {
        match found(s, p) {
            None => s,
            Some(i) => s.take(i) + by + replaced(s.skip(i + p.len()), p, by),
        }
    }
}

#[via_fn]
proof fn replaced_decreases(s: Seq<char>, p: Seq<char>, by: Seq<char>) {
    lemma_find_from(s, p, 0);
}

/// A search in the rest of a text is a search in the text, from there on.
proof fn lemma_find_in_rest(s: Seq<char>, p: Seq<char>, from: int, i: int)
    requires
        0 <= from,
        0 <= i,
        from + i <= s.len(),
    ensures
        find_from(s.skip(from), p, i) == match find_from(s, p, from + i) {
            Some(k) => Some(k - from),
            None => None,
        },
    decreases s.len() - from - i + 1,
{
    if from + i + p.len() <= s.len() {
        assert(s.skip(from).subrange(i, i + p.len()) =~= s.subrange(from + i, from + i + p.len()));
        if !occurs_at(s, p, from + i) && from + i < s.len() {
            lemma_find_in_rest(s, p, from, i + 1);
        }
    }
}

/// `str::replace` of a text that is not empty.
pub fn replace(s: &str, p: &str, by: &str) -> (r: String)
    requires
        p@.len() > 0,
    ensures
        r@ == replaced(s@, p@, by@),
{
    let v = chars_of(s);
    let q = chars_of(p);
    let n: usize = v.len();
    let mut r = String::new();
    let mut from: usize = 0;
    assert(v@.skip(0) =~= v@);
    assert(r@ + replaced(v@.skip(0), p@, by@) =~= replaced(s@, p@, by@));
    loop
        invariant
            from <= n,
            n == v@.len(),
            q@ == p@,
            p@.len() > 0,
            r@ + replaced(v@.skip(from as int), p@, by@) == replaced(s@, p@, by@),
        decreases v@.len() - from,
    {
        let ghost rest = v@.skip(from as int);
        let ghost before = r@;
        proof {
            lemma_find_in_rest(v@, p@, from as int, 0);
        }
        match find_at(&v, &q, from) {
            None => {
                let tail = string_of(&v, from, n);
                assert(tail@ =~= rest);
                r.append(tail.as_str());
                return r;
            },
            Some(i) => {
                let part = string_of(&v, from, i);
                assert(part@ =~= rest.take(i - from));
                r.append(part.as_str());
                r.append(by);
                assert(rest.skip(i - from + p@.len()) =~= v@.skip(i + p@.len()));
                from = i + q.len();
                assert(r@ + replaced(v@.skip(from as int), p@, by@) =~= before + replaced(
                    rest,
                    p@,
                    by@,
                ));
            },
        }
    }
}

// ---------------------------------------------------------------------------
// Numbers
// ---------------------------------------------------------------------------

/// The character of a decimal digit.
pub open spec fn digit_char(d: nat) -> char {
    (48 + d) as char
}

/// `n` in decimal notation.
pub open spec fn decimal(n: nat) -> Seq<char>
    decreases n,
{
    if n < 10 {
        seq![digit_char(n)]
    } else {
        decimal(n / 10).push(digit_char(n % 10))
    }
}

/// `n` in decimal notation.
pub fn dec(n: u64) -> (r: String)
    ensures
        r@ == decimal(n as nat),
    decreases n,
{
    let d: u8 = 48 + (n % 10) as u8;
    if n < 10 {
        let mut r = String::new();
        r.push(d as char);
        assert(r@ =~= decimal(n as nat));
        r
    } else {
        let mut r = dec(n / 10);
        r.push(d as char);
        r
    }
}

/// Whether `c` is an ASCII digit.
pub open spec fn digit(c: char) -> bool {
    '0' <= c <= '9'
}

/// The number that a row of decimal digits writes.
pub open spec fn digits_value(s: Seq<char>) -> nat
    decreases s.len(),
{
    if s.len() == 0 {
        0
    } else {
        digits_value(s.drop_last()) * 10 + (s.last() as nat - 48) as nat
    }
}

/// Whether `s` is a row of one or more decimal digits.
pub open spec fn digit_row(s: Seq<char>) -> bool {
    s.len() > 0 && forall|i: int| 0 <= i < s.len() ==> digit(#[trigger] s[i])
}

/// The integer that `s` writes: decimal digits, with a sign before them or none.
pub open spec fn integer_value(s: Seq<char>) -> Option<int> {
    if digit_row(s) {
        Some(digits_value(s) as int)
    } else if s.len() > 0 && s[0] == '+' && digit_row(s.skip(1)) {
        Some(digits_value(s.skip(1)) as int)
    } else if s.len() > 0 && s[0] == '-' && digit_row(s.skip(1)) {
        Some(-(digits_value(s.skip(1)) as int))
    } else {
        None
    }
}

/// The value of the digits `v[from..]`, where it is at most `max`.
fn digits_at(v: &Vec<char>, from: usize, max: u64) -> (r: Option<u64>)
    requires
        from <= v@.len(),
        max <= 0x8000_0000_0000_0000,
    ensures
        match r {
            Some(n) => digit_row(v@.skip(from as int)) && digits_value(v@.skip(from as int)) == n
                && n <= max,
            None => !digit_row(v@.skip(from as int)) || digits_value(v@.skip(from as int)) > max,
        },
{
    let ghost t = v@.skip(from as int);
    if from == v.len() {
        return None;
    }
    let mut i: usize = from;
    let mut n: u64 = 0;
    // Set once the value has passed `max`; from then on only the digits count.
    let mut over: bool = false;
    assert(t.take(0) =~= Seq::<char>::empty());
    while i < v.len()
        invariant
            from <= i <= v@.len(),
            max <= 0x8000_0000_0000_0000,
            t == v@.skip(from as int),
            forall|j: int| 0 <= j < i - from ==> digit(#[trigger] t[j]),
            !over ==> n == digits_value(t.take(i - from)) && n <= max,
            over ==> digits_value(t.take(i - from)) > max,
        decreases v@.len() - i,
    {
        let c: char = v[i];
        assert(t[i - from] == c);
        if !('0' <= c && c <= '9') {
            return None;
        }
        let d: u64 = (c as u64) - 48;
        assert(t.take(i - from + 1).drop_last() =~= t.take(i - from));
        if !over {
            if n <= 0xccc_cccc_cccc_cccc && n * 10 + d <= max {
                n = n * 10 + d;
            } else {
                over = true;
            }
        }
        i = i + 1;
    }
    assert(t.take(i - from) =~= t);
    if over {
        None
    } else {
        Some(n)
    }
}

/// The `u16` that `s` writes. A minus sign is never accepted.
pub open spec fn u16_value(s: Seq<char>) -> Option<u16> {
    match integer_value(s) {
        Some(n) => if s[0] != '-' && n <= u16::MAX {
            Some(n as u16)
        } else {
            None
        },
        None => None,
    }
}

/// The `i64` that `s` writes.
pub open spec fn i64_value(s: Seq<char>) -> Option<i64> {
    match integer_value(s) {
        Some(n) => if i64::MIN <= n <= i64::MAX {
            Some(n as i64)
        } else {
            None
        },
        None => None,
    }
}

/// `str::parse::<u16>`; what it cannot read is `None`.
pub fn parse_u16(s: &str) -> (r: Option<u16>)
    ensures
        r == u16_value(s@),
{
    let v = chars_of(s);
    if v.len() == 0 {
        return None;
    }
    let from: usize = if v[0] == '+' {
        1
    } else {
        0
    };
    assert(v@.skip(0) =~= v@);
    assert(!digit('+') && !digit('-'));
    match digits_at(&v, from, 65535) {
        Some(n) => Some(n as u16),
        None => None,
    }
}

/// What is wrong with a text that writes no `u16`: what the standard library says.
pub uninterp spec fn u16_fault_of(s: Seq<char>) -> Option<Seq<char>>;

/// What is wrong with a text that writes no `u16`, from `str::parse::<u16>` and the
/// text of its error. The contract names the result, and claims that there is none
/// exactly where the text is an optional `+` and digits of a number that fits.
#[verifier::external_body]
pub(crate) fn u16_fault(s: &str) -> (r: Option<String>)
    ensures
        opt_view(r) == u16_fault_of(s@),
        r is None == u16_value(s@) is Some,
{
    s.parse::<u16>().err().map(|e| e.to_string())
}

/// `str::parse::<i64>`; what it cannot read is `None`.
pub fn parse_i64(s: &str) -> (r: Option<i64>)
    ensures
        r == i64_value(s@),
{
    let v = chars_of(s);
    if v.len() == 0 {
        return None;
    }
    assert(v@.skip(0) =~= v@);
    assert(!digit('+') && !digit('-'));
    if v[0] == '-' {
        match digits_at(&v, 1, 0x8000_0000_0000_0000) {
            Some(n) => if n == 0x8000_0000_0000_0000 {
                Some(i64::MIN)
            } else {
                Some(-(n as i64))
            },
            None => None,
        }
    } else {
        let from: usize = if v[0] == '+' {
            1
        } else {
            0
        };
        match digits_at(&v, from, 0x7fff_ffff_ffff_ffff) {
            Some(n) => Some(n as i64),
            None => None,
        }
    }
}

// ---------------------------------------------------------------------------
// Laws
// ---------------------------------------------------------------------------

/// White space is exactly these code points.
pub proof fn law_white_space(c: char)
    ensures
        white(c) == ({
            let n = c as u32;
            n == 9 || n == 10 || n == 11 || n == 12 || n == 13 || n == 32 || n == 133 || n == 160
                || n == 5760 || 8192 <= n <= 8202 || n == 8232 || n == 8233 || n == 8239 || n
                == 8287 || n == 12288
        }),
{
}

pub(crate) proof fn lemma_start_is(a: Seq<char>, rest: Seq<char>)
    requires
        forall|i: int| 0 <= i < a.len() ==> white(#[trigger] a[i]),
        rest.len() > 0 ==> !white(rest[0]),
    ensures
        trimmed_start(a + rest) == rest,
    decreases a.len(),
{
    if a.len() == 0 {
        assert(a + rest =~= rest);
    } else {
        assert((a + rest).skip(1) =~= a.skip(1) + rest);
        assert(white(a[0]));
        assert forall|i: int| 0 <= i < a.skip(1).len() implies white(#[trigger] a.skip(1)[i]) by {
            assert(white(a[i + 1]));
        }
        lemma_start_is(a.skip(1), rest);
    }
}

proof fn lemma_trimmed_end_is(m: Seq<char>, b: Seq<char>)
    requires
        forall|i: int| 0 <= i < b.len() ==> white(#[trigger] b[i]),
        m.len() > 0 ==> !white(m.last()),
    ensures
        trimmed_end(m + b) == m,
    decreases b.len(),
{
    if b.len() == 0 {
        assert(m + b =~= m);
    } else {
        assert((m + b).drop_last() =~= m + b.drop_last());
        assert(white(b[b.len() - 1]));
        assert forall|i: int| 0 <= i < b.drop_last().len() implies white(
            #[trigger] b.drop_last()[i],
        ) by {
            assert(white(b[i]));
        }
        lemma_trimmed_end_is(m, b.drop_last());
    }
}

/// Trimming takes the white space off both ends and nothing else: white space, a text
/// that neither starts nor ends with it, and white space again give that text.
pub proof fn law_trimmed_is_what_stands_between(a: Seq<char>, m: Seq<char>, b: Seq<char>)
    requires
        forall|i: int| 0 <= i < a.len() ==> white(#[trigger] a[i]),
        forall|i: int| 0 <= i < b.len() ==> white(#[trigger] b[i]),
        m.len() > 0 ==> !white(m[0]) && !white(m.last()),
    ensures
        trimmed(a + m + b) == m,
        m.len() > 0 ==> trimmed_start(a + m + b) == m + b,
{
    if m.len() == 0 {
        let all = a + m + b;
        assert forall|i: int| 0 <= i < all.len() implies white(#[trigger] all[i]) by {
            if i < a.len() {
                assert(white(a[i]));
            } else {
                assert(white(b[i - a.len()]));
            }
        }
        lemma_start_is(all, Seq::empty());
        assert(all + Seq::<char>::empty() =~= all);
        assert(m =~= Seq::<char>::empty());
    } else {
        assert(a + m + b =~= a + (m + b));
        lemma_start_is(a, m + b);
        lemma_trimmed_end_is(m, b);
    }
}

/// A pattern stands at a position exactly where the text is what comes before, the
/// pattern, and what comes behind.
pub proof fn law_occurrence(s: Seq<char>, p: Seq<char>, i: int)
    ensures
        occurs_at(s, p, i) == (exists|a: Seq<char>, b: Seq<char>|
            a.len() == i && s == #[trigger] (a + p + b)),
{
    if occurs_at(s, p, i) {
        let a = s.take(i);
        let b = s.skip(i + p.len());
        assert(s =~= a + p + b) by {
            assert forall|k: int| 0 <= k < s.len() implies s[k] == (a + p + b)[k] by {
                if i <= k < i + p.len() {
                    assert(s.subrange(i, i + p.len())[k - i] == p[k - i]);
                }
            }
        }
    }
    if exists|a: Seq<char>, b: Seq<char>| a.len() == i && s == #[trigger] (a + p + b) {
        let (a, b) = choose|a: Seq<char>, b: Seq<char>| a.len() == i && s == #[trigger] (a + p + b);
        assert(s.subrange(i, i + p.len()) =~= p);
    }
}

/// A text holds a pattern exactly where it is something, the pattern, and something.
pub proof fn law_has(s: Seq<char>, p: Seq<char>)
    ensures
        has(s, p) == (exists|a: Seq<char>, b: Seq<char>| s == #[trigger] (a + p + b)),
{
    if has(s, p) {
        let i = choose|i: int| #[trigger] occurs_at(s, p, i);
        law_occurrence(s, p, i);
    }
    if exists|a: Seq<char>, b: Seq<char>| s == #[trigger] (a + p + b) {
        let (a, b) = choose|a: Seq<char>, b: Seq<char>| s == #[trigger] (a + p + b);
        law_occurrence(s, p, a.len() as int);
        assert(occurs_at(s, p, a.len() as int));
    }
}

/// A search gives the first place at which the pattern stands, and a search from the
/// end the last; neither gives anything exactly where the text does not hold it.
pub proof fn law_searches_find_the_first_and_the_last(s: Seq<char>, p: Seq<char>)
    ensures
        match found(s, p) {
            Some(k) => occurs_at(s, p, k) && forall|j: int|
                0 <= j < k ==> !#[trigger] occurs_at(s, p, j),
            None => !(has(s, p)),
        },
        match rfound(s, p) {
            Some(k) => occurs_at(s, p, k) && forall|j: int|
                k < j <= s.len() ==> !#[trigger] occurs_at(s, p, j),
            None => !(has(s, p)),
        },
{
    lemma_find_from(s, p, 0);
    lemma_rfind_upto(s, p, s.len() as int);
    lemma_found(s, p);
}

/// Lines: a line ends at its line feed, and a carriage return before that is not part
/// of it; the rest is the lines of the rest; a last line may lack its line feed.
pub proof fn law_lines(line: Seq<char>, rest: Seq<char>)
    requires
        !line.contains('\n'),
    ensures
        line.len() == 0 || line.last() != '\r' ==> lines_of(line + seq!['\n'] + rest) == seq![line]
            + lines_of(rest),
        lines_of(line + seq!['\r', '\n'] + rest) == seq![line] + lines_of(rest),
        line.len() > 0 ==> lines_of(line) == seq![line],
        lines_of(Seq::<char>::empty()) == Seq::<Seq<char>>::empty(),
{
    let s = line + seq!['\n'] + rest;
    let n = line.len() as int;
    assert forall|j: int| 0 <= j < n implies line[j] != '\n' by {
        assert(line.contains(line[j]));
    }
    lemma_index_is(s, '\n', n);
    assert(s.take(n) =~= line);
    assert(s.skip(n + 1) =~= rest);
    let t = line + seq!['\r', '\n'] + rest;
    lemma_index_is(t, '\n', n + 1);
    assert(t.take(n + 1) =~= line.push('\r'));
    assert(line.push('\r').drop_last() =~= line);
    assert(t.skip(n + 2) =~= rest);
    lemma_index_is(line, '\n', n);
}

/// Pieces: what stands before the first separator is the first, and the rest is the
/// pieces of the rest; a text without a separator is its own only piece.
pub proof fn law_pieces(first: Seq<char>, c: char, rest: Seq<char>)
    requires
        !first.contains(c),
    ensures
        pieces(first, c) == seq![first],
        pieces(first + seq![c] + rest, c) == seq![first] + pieces(rest, c),
        split_at_first(first, c) is None,
        split_at_first(first + seq![c] + rest, c) == Some((first, rest)),
{
    let s = first + seq![c] + rest;
    let n = first.len() as int;
    assert forall|j: int| 0 <= j < n implies first[j] != c by {
        assert(first.contains(first[j]));
    }
    lemma_index_is(s, c, n);
    lemma_index_is(first, c, n);
    assert(s.take(n) =~= first);
    assert(s.skip(n + 1) =~= rest);
}

/// Words: white space, a word, and then the end or white space and more.
pub proof fn law_words(a: Seq<char>, word: Seq<char>, rest: Seq<char>)
    requires
        forall|i: int| 0 <= i < a.len() ==> white(#[trigger] a[i]),
        word.len() > 0,
        forall|i: int| 0 <= i < word.len() ==> !white(#[trigger] word[i]),
        rest.len() > 0 ==> white(rest[0]),
    ensures
        words_of(a) == Seq::<Seq<char>>::empty(),
        words_of(a + word + rest) == seq![word] + words_of(rest),
{
    lemma_start_is(a, Seq::empty());
    assert(a + Seq::<char>::empty() =~= a);
    assert(a + word + rest =~= a + (word + rest));
    assert(!white(word[0]));
    lemma_start_is(a, word + rest);
    lemma_word_len_is(word, rest);
    assert((word + rest).take(word.len() as int) =~= word);
    assert((word + rest).skip(word.len() as int) =~= rest);
}

proof fn lemma_word_len_is(word: Seq<char>, rest: Seq<char>)
    requires
        forall|i: int| 0 <= i < word.len() ==> !white(#[trigger] word[i]),
        rest.len() > 0 ==> white(rest[0]),
    ensures
        word_len(word + rest) == word.len(),
    decreases word.len(),
{
    if word.len() == 0 {
        assert(word + rest =~= rest);
    } else {
        assert((word + rest).skip(1) =~= word.skip(1) + rest);
        assert(!white(word[0]));
        assert forall|i: int| 0 <= i < word.skip(1).len() implies !white(
            #[trigger] word.skip(1)[i],
        ) by {
            assert(!white(word[i + 1]));
        }
        lemma_word_len_is(word.skip(1), rest);
    }
}

/// Joining puts the separator between each two and nowhere else.
pub proof fn law_joined(v: Seq<Seq<char>>, sep: Seq<char>, last: Seq<char>)
    ensures
        joined(Seq::empty(), sep) == Seq::<char>::empty(),
        joined(seq![last], sep) == last,
        v.len() > 0 ==> joined(v.push(last), sep) == joined(v, sep) + sep + last,
{
    assert(v.push(last).drop_last() =~= v);
}

/// Lower case changes the letters from A to Z, each to its own, and nothing else.
pub proof fn law_lowered(s: Seq<char>, i: int)
    requires
        0 <= i < s.len(),
    ensures
        lowered(s).len() == s.len(),
        65 <= s[i] as u32 <= 90 ==> lowered(s)[i] as u32 == s[i] as u32 + 32,
        !(65 <= s[i] as u32 <= 90) ==> lowered(s)[i] == s[i],
{
}

/// Whatever number of a character stands at the end is taken off, and nothing else.
pub proof fn law_without_end(m: Seq<char>, c: char, k: nat)
    requires
        m.len() > 0 ==> m.last() != c,
    ensures
        without_end(m + Seq::new(k, |i: int| c), c) == m,
    decreases k,
{
    let s = m + Seq::new(k, |i: int| c);
    if k == 0 {
        assert(s =~= m);
    } else {
        assert(s.drop_last() =~= m + Seq::new((k - 1) as nat, |i: int| c));
        law_without_end(m, c, (k - 1) as nat);
    }
}

/// Every copy of a prefix is taken off, one after the other, and nothing else.
pub proof fn law_without_start(p: Seq<char>, rest: Seq<char>)
    requires
        p.len() > 0,
    ensures
        without_start(p + rest, p) == without_start(rest, p),
        !occurs_at(rest, p, 0) ==> without_start(rest, p) == rest,
{
    assert((p + rest).subrange(0, p.len() as int) =~= p);
    assert((p + rest).skip(p.len() as int) =~= rest);
}

/// The first characters of a text: a prefix of it, of that length, or all of it.
pub proof fn law_first_chars(s: Seq<char>, n: nat)
    ensures
        first_chars(s, n as int).len() == (if n < s.len() {
            n
        } else {
            s.len()
        }),
        forall|i: int|
            0 <= i < first_chars(s, n as int).len() ==> #[trigger] first_chars(s, n as int)[i]
                == s[i],
{
}

/// Replacing: a text without the pattern stays, and otherwise what comes before the
/// first occurrence stays, the occurrence gives way, and so on behind it.
pub proof fn law_replaced(a: Seq<char>, p: Seq<char>, rest: Seq<char>, by: Seq<char>)
    requires
        p.len() > 0,
        forall|j: int| 0 <= j < a.len() ==> !#[trigger] occurs_at(a + p + rest, p, j),
    ensures
        replaced(a + p + rest, p, by) == a + by + replaced(rest, p, by),
        !(has(rest, p)) ==> replaced(rest, p, by) == rest,
{
    let s = a + p + rest;
    let n = a.len() as int;
    assert(s.subrange(n, n + p.len()) =~= p);
    lemma_find_is(s, p, 0, n);
    assert(s.take(n) =~= a);
    assert(s.skip(n + p.len()) =~= rest);
    lemma_found(rest, p);
}

/// The ten digits.
pub proof fn law_digits(c: char)
    ensures
        digit(c) == (c == '0' || c == '1' || c == '2' || c == '3' || c == '4' || c == '5' || c
            == '6' || c == '7' || c == '8' || c == '9'),
        digit_char(0) == '0' && digit_char(1) == '1' && digit_char(2) == '2' && digit_char(3)
            == '3' && digit_char(4) == '4' && digit_char(5) == '5' && digit_char(6) == '6'
            && digit_char(7) == '7' && digit_char(8) == '8' && digit_char(9) == '9',
{
}

/// What is written in decimal notation is read back: it is digits only, without a zero
/// before another digit, and they have the value of the number.
pub proof fn law_decimal_round_trip(n: nat)
    ensures
        digit_row(decimal(n)),
        digits_value(decimal(n)) == n,
        n > 0 ==> decimal(n)[0] != '0',
        n < 10 ==> decimal(n).len() == 1,
    decreases n,
{
    if n < 10 {
        let s = decimal(n);
        assert(s.drop_last() =~= Seq::<char>::empty());
        assert(digits_value(s.drop_last()) == 0);
        assert(digit(s[0]));
    } else {
        law_decimal_round_trip(n / 10);
        let init = decimal(n / 10);
        let s = decimal(n);
        assert(s.drop_last() =~= init);
        assert forall|i: int| 0 <= i < s.len() implies digit(#[trigger] s[i]) by {
            if i < init.len() {
                assert(digit(init[i]));
            }
        }
    }
}

/// The value of digits is that of a number in decimal notation.
pub proof fn law_digits_value(s: Seq<char>, c: char)
    requires
        digit(c),
    ensures
        digits_value(Seq::<char>::empty()) == 0,
        digits_value(s.push(c)) == 10 * digits_value(s) + (c as u32 - 48),
{
    assert(s.push(c).drop_last() =~= s);
}

/// A number that fits is read back from its decimal notation, with a plus sign before
/// it too, and a number that does not fit is not read.
pub proof fn law_numbers_are_read_back(n: nat)
    ensures
        n <= 65535 ==> u16_value(decimal(n)) == Some(n as u16),
        n <= 65535 ==> u16_value(seq!['+'] + decimal(n)) == Some(n as u16),
        n > 65535 ==> u16_value(decimal(n)) is None,
        u16_value(seq!['-'] + decimal(n)) is None,
        n <= 0x7fff_ffff_ffff_ffff ==> i64_value(decimal(n)) == Some(n as i64),
        n <= 0x7fff_ffff_ffff_ffff ==> i64_value(seq!['+'] + decimal(n)) == Some(n as i64),
        n <= 0x7fff_ffff_ffff_ffff ==> i64_value(seq!['-'] + decimal(n)) == Some((-n) as i64),
        n > 0x7fff_ffff_ffff_ffff ==> i64_value(decimal(n)) is None,
{
    law_decimal_round_trip(n);
    let d = decimal(n);
    let p = seq!['+'] + d;
    let m = seq!['-'] + d;
    assert(d[0] != '-' && d[0] != '+') by {
        assert(digit(d[0]));
    }
    assert(p.skip(1) =~= d);
    assert(m.skip(1) =~= d);
    assert(!digit(p[0]) && !digit(m[0]));
}

/// Digits write the number of their value, zeros before it or none, with a plus sign or
/// none, and with a minus sign its negative, as far as it fits.
pub proof fn law_digits_are_numbers(s: Seq<char>)
    requires
        digit_row(s),
    ensures
        ({
            let n = digits_value(s);
            &&& u16_value(s) == (if n <= 65535 {
                Some(n as u16)
            } else {
                None
            })
            &&& u16_value(seq!['+'] + s) == u16_value(s)
            &&& u16_value(seq!['-'] + s) is None
            &&& i64_value(s) == (if n <= 0x7fff_ffff_ffff_ffff {
                Some(n as i64)
            } else {
                None
            })
            &&& i64_value(seq!['+'] + s) == i64_value(s)
            &&& i64_value(seq!['-'] + s) == (if n <= 0x8000_0000_0000_0000 {
                Some((-n) as i64)
            } else {
                None
            })
        }),
{
    let p = seq!['+'] + s;
    let m = seq!['-'] + s;
    assert(digit(s[0]));
    assert(p.skip(1) =~= s);
    assert(m.skip(1) =~= s);
    assert(!digit(p[0]) && !digit(m[0]));
}

/// A text that is not digits, with a sign before them or none, writes no number.
pub proof fn law_only_digits_are_numbers(s: Seq<char>)
    requires
        s.len() == 0 || (exists|i: int|
            0 <= i < s.len() && !digit(#[trigger] s[i]) && !(i == 0 && s.len() > 1 && (s[0] == '+'
                || s[0] == '-'))),
    ensures
        u16_value(s) is None,
        i64_value(s) is None,
{
    if s.len() > 0 {
        let i = choose|i: int|
            0 <= i < s.len() && !digit(#[trigger] s[i]) && !(i == 0 && s.len() > 1 && (s[0] == '+'
                || s[0] == '-'));
        if digit_row(s.skip(1)) && i > 0 {
            assert(s.skip(1)[i - 1] == s[i]);
        }
    }
}

/// The views of texts that may be absent, of lists of texts and of results.
pub proof fn law_views(v: Seq<String>, i: int, s: String, t: &str)
    requires
        0 <= i < v.len(),
    ensures
        views(v).len() == v.len(),
        views(v)[i] == v[i]@,
        opt_view(Some(s)) == Some(s@),
        opt_view(None) is None,
        opt_str(Some(t)) == Some(t@),
        opt_str(None) is None,
        result_view(Ok(s)) == Ok::<Seq<char>, Seq<char>>(s@),
        result_view(Err(s)) == Err::<Seq<char>, Seq<char>>(s@),
{
}

} // verus!
