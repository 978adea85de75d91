//! Scanning of character sequences: first occurrences, splitting, trimming
//! and whitespace-delimited tokens, each as a specification and as code.

use vstd::prelude::*;

verus! {

/// The line break of the wire format.
pub open spec fn crlf() -> Seq<char> {
    seq!['\r', '\n']
}

/// The empty line that ends the header block: two line breaks in a row.
pub open spec fn blank_line() -> Seq<char> {
    seq!['\r', '\n', '\r', '\n']
}

/// The separator between the parts of a request line.
pub open spec fn space() -> Seq<char> {
    seq![' ']
}

/// The separator between a header's name and its value.
pub open spec fn colon() -> Seq<char> {
    seq![':']
}

/// `pat` occurs in `s` at offset `i`.
pub open spec fn matches_at(s: Seq<char>, pat: Seq<char>, i: int) -> bool {
    &&& 0 <= i
    &&& i + pat.len() <= s.len()
    &&& s.subrange(i, i + pat.len()) == pat
}

/// `i` is the offset of the leftmost occurrence of `pat` in `s`.
pub open spec fn is_first_match(s: Seq<char>, pat: Seq<char>, i: int) -> bool {
    &&& matches_at(s, pat, i)
    &&& forall|j: int| 0 <= j < i ==> !matches_at(s, pat, j)
}

/// The offset of the leftmost occurrence of `pat` in `s`, if there is one.
pub open spec fn find(s: Seq<char>, pat: Seq<char>) -> Option<int> {
    if exists|i: int| is_first_match(s, pat, i) {
        Some(choose|i: int| is_first_match(s, pat, i))
    } else {
        None
    }
}

/// The parts of `s` before and after the leftmost occurrence of `pat`.
pub open spec fn split_once(s: Seq<char>, pat: Seq<char>) -> Option<(Seq<char>, Seq<char>)> {
    match find(s, pat) {
        Some(i) => Some((s.take(i), s.skip(i + pat.len()))),
        None => None,
    }
}

/// A leftmost occurrence is the one that `find` reports.
pub proof fn lemma_find_some(s: Seq<char>, pat: Seq<char>, i: int)
    requires
        is_first_match(s, pat, i),
    ensures
        find(s, pat) == Some(i),
{
    let k = choose|k: int| is_first_match(s, pat, k);
    assert(is_first_match(s, pat, k));
    if k < i {
        assert(!matches_at(s, pat, k));
    }
    if i < k {
        assert(!matches_at(s, pat, i));
    }
}

/// Without any occurrence `find` reports none.
pub proof fn lemma_find_none(s: Seq<char>, pat: Seq<char>)
    requires
        forall|j: int| !matches_at(s, pat, j),
    ensures
        find(s, pat) is None,
{
}

/// `pat` occurs somewhere in `s`.
pub open spec fn occurs(s: Seq<char>, pat: Seq<char>) -> bool {
    exists|i: int| matches_at(s, pat, i)
}

proof fn lemma_leftmost(s: Seq<char>, pat: Seq<char>, j: int)
    requires
        matches_at(s, pat, j),
    ensures
        exists|i: int| is_first_match(s, pat, i),
    decreases j,
{
    if forall|k: int| 0 <= k < j ==> !matches_at(s, pat, k) {
        assert(is_first_match(s, pat, j));
    } else {
        let k = choose|k: int| 0 <= k < j && matches_at(s, pat, k);
        lemma_leftmost(s, pat, k);
    }
}

/// `find` reports an occurrence exactly where there is one.
pub proof fn lemma_find_occurs(s: Seq<char>, pat: Seq<char>)
    ensures
        find(s, pat) is Some <==> occurs(s, pat),
        find(s, pat) matches Some(i) ==> is_first_match(s, pat, i),
{
    if occurs(s, pat) {
        let j = choose|j: int| matches_at(s, pat, j);
        lemma_leftmost(s, pat, j);
    }
}

/// The two parts of a split and the pattern between them make up the text,
/// and the pattern does not occur any further left.
pub proof fn lemma_split_once_parts(s: Seq<char>, pat: Seq<char>)
    ensures
        split_once(s, pat) matches Some((before, after)) ==> {
            &&& s == before + pat + after
            &&& is_first_match(s, pat, before.len() as int)
        },
        split_once(s, pat) is None <==> !occurs(s, pat),
{
    lemma_find_occurs(s, pat);
    if let Some(i) = find(s, pat) {
        assert(s =~= s.take(i) + s.subrange(i, i + pat.len()) + s.skip(i + pat.len()));
    }
}

/// A line break occurs at `i` exactly where a carriage return stands at `i`
/// and a line feed after it.
pub proof fn lemma_crlf_at(s: Seq<char>, i: int)
    ensures
        matches_at(s, crlf(), i) <==> (0 <= i && i + 2 <= s.len() && s[i] == '\r' && s[i + 1]
            == '\n'),
{
    if 0 <= i && i + 2 <= s.len() {
        let w = s.subrange(i, i + 2);
        assert(w[0] == s[i] && w[1] == s[i + 1]);
        assert(crlf()[0] == '\r' && crlf()[1] == '\n');
        if s[i] == '\r' && s[i + 1] == '\n' {
            assert(w =~= crlf());
        }
    }
}

/// The one-character pattern `c` occurs at `i` exactly where `c` stands at `i`.
pub proof fn lemma_char_at(s: Seq<char>, c: char, i: int)
    ensures
        matches_at(s, seq![c], i) <==> (0 <= i < s.len() && s[i] == c),
{
    if 0 <= i < s.len() {
        let w = s.subrange(i, i + 1);
        assert(w[0] == s[i]);
        assert(seq![c][0] == c);
        if s[i] == c {
            assert(w =~= seq![c]);
        }
    }
}

/// A text is split at the line break that follows a part without one.
pub proof fn lemma_split_at_line_break(head: Seq<char>, tail: Seq<char>)
    requires
        !occurs(head, crlf()),
    ensures
        split_once(head + crlf() + tail, crlf()) == Some((head, tail)),
{
    let s = head + crlf() + tail;
    let i = head.len() as int;
    lemma_crlf_at(s, i);
    assert forall|j: int| 0 <= j < i implies !matches_at(s, crlf(), j) by {
        lemma_crlf_at(s, j);
        lemma_crlf_at(head, j);
    }
    lemma_find_some(s, crlf(), i);
    assert(s.take(i) =~= head);
    assert(s.skip(i + 2) =~= tail);
}

/// A text is split at the first `c`, which follows a part without `c`.
pub proof fn lemma_split_at_char(head: Seq<char>, c: char, tail: Seq<char>)
    requires
        !head.contains(c),
    ensures
        split_once(head + seq![c] + tail, seq![c]) == Some((head, tail)),
{
    let s = head + seq![c] + tail;
    let i = head.len() as int;
    lemma_char_at(s, c, i);
    assert forall|j: int| 0 <= j < i implies !matches_at(s, seq![c], j) by {
        lemma_char_at(s, c, j);
        assert(s[j] == head[j]);
    }
    lemma_find_some(s, seq![c], i);
    assert(s.take(i) =~= head);
    assert(s.skip(i + 1) =~= tail);
}

/// The characters of `s`, one element each.
pub fn to_chars(s: &str) -> (v: Vec<char>)
    ensures
        v@ == s@,
{
    let mut v: Vec<char> = Vec::new();
    for c in it: s.chars()
        invariant
            v@ == it.seq().take(it.index() as int),
            it.seq() == s@,
    {
        v.push(c);
    }
    v
}

/// Whether `pat` occurs in `text` at offset `at`, ending no later than `hi`.
pub fn occurs_at(text: &Vec<char>, at: usize, hi: usize, pat: &Vec<char>) -> (r: bool)
    requires
        at <= hi <= text.len(),
    ensures
        r == matches_at(text@.subrange(at as int, hi as int), pat@, 0),
{
    if hi - at < pat.len() {
        return false;
    }
    let mut k: usize = 0;
    while k < pat.len()
        invariant
            at <= hi <= text.len(),
            pat.len() <= hi - at,
            k <= pat.len(),
            forall|j: int| 0 <= j < k ==> text@[at + j] == pat@[j],
        decreases pat.len() - k,
    {
        if text[at + k] != pat[k] {
            proof {
                let w = text@.subrange(at as int, hi as int);
                assert(w.subrange(0, pat@.len() as int)[k as int] != pat@[k as int]);
            }
            return false;
        }
        k += 1;
    }
    proof {
        let w = text@.subrange(at as int, hi as int);
        assert(w.subrange(0, pat@.len() as int) =~= pat@);
    }
    true
}


/// The position in `text` of the leftmost occurrence of `pat` within `text[lo..hi)`.
pub fn find_in(text: &Vec<char>, lo: usize, hi: usize, pat: &Vec<char>) -> (r: Option<usize>)
    requires
        lo <= hi <= text.len(),
    ensures
        match r {
            Some(i) => lo <= i <= hi && find(text@.subrange(lo as int, hi as int), pat@) == Some(
                i - lo,
            ),
            None => find(text@.subrange(lo as int, hi as int), pat@) is None,
        },
{
    let ghost window = text@.subrange(lo as int, hi as int);
    let mut i: usize = lo;
    loop
        invariant
            lo <= i <= hi <= text.len(),
            window == text@.subrange(lo as int, hi as int),
            forall|j: int| 0 <= j < i - lo ==> !matches_at(window, pat@, j),
        decreases hi - i,
    {
        let here = occurs_at(text, i, hi, pat);
        proof {
            let rest = text@.subrange(i as int, hi as int);
            if i - lo + pat@.len() <= window.len() {
                assert(rest.subrange(0, pat@.len() as int) =~= window.subrange(
                    i - lo,
                    i - lo + pat@.len(),
                ));
            }
            assert(here == matches_at(window, pat@, i - lo));
        }
        if here {
            proof {
                lemma_find_some(window, pat@, i - lo);
            }
            return Some(i);
        }
        if i == hi {
            proof {
                lemma_find_none(window, pat@);
            }
            return None;
        }
        i += 1;
    }
}

/// Splits `text[lo..hi)` at the leftmost occurrence of `pat`: the end of the
/// part before it and the start of the part after it.
pub fn split_in(text: &Vec<char>, lo: usize, hi: usize, pat: &Vec<char>) -> (r: Option<
    (usize, usize),
>)
    requires
        lo <= hi <= text.len(),
    ensures
        match r {
            Some((a, b)) => {
                &&& lo <= a <= b <= hi
                &&& b - a == pat@.len()
                &&& split_once(text@.subrange(lo as int, hi as int), pat@) == Some(
                    (text@.subrange(lo as int, a as int), text@.subrange(b as int, hi as int)),
                )
            },
            None => split_once(text@.subrange(lo as int, hi as int), pat@) is None,
        },
{
    match find_in(text, lo, hi, pat) {
        Some(a) => {
            let ghost window = text@.subrange(lo as int, hi as int);
            assert(is_first_match(window, pat@, a - lo));
            assert(window.take(a - lo) =~= text@.subrange(lo as int, a as int));
            assert(window.skip(a - lo + pat@.len()) =~= text@.subrange(
                a + pat@.len(),
                hi as int,
            ));
            Some((a, a + pat.len()))
        },
        None => None,
    }
}

/// Whether `text[lo..hi)` is exactly `pat`.
pub fn equals_in(text: &Vec<char>, lo: usize, hi: usize, pat: &Vec<char>) -> (r: bool)
    requires
        lo <= hi <= text.len(),
    ensures
        r == (text@.subrange(lo as int, hi as int) == pat@),
{
    let r = hi - lo == pat.len() && occurs_at(text, lo, hi, pat);
    proof {
        let w = text@.subrange(lo as int, hi as int);
        if w.len() == pat@.len() {
            assert(w.subrange(0, pat@.len() as int) =~= w);
        }
    }
    r
}

/// The characters that `str::trim` removes: those that Unicode marks as
/// `White_Space`.
pub open spec fn is_whitespace(c: char) -> bool {
    ||| c == ' '
    ||| '\t' <= c <= '\r'
    ||| c == '\u{85}'
    ||| c == '\u{A0}'
    ||| c == '\u{1680}'
    ||| '\u{2000}' <= c <= '\u{200A}'
    ||| c == '\u{2028}'
    ||| c == '\u{2029}'
    ||| c == '\u{202F}'
    ||| c == '\u{205F}'
    ||| c == '\u{3000}'
}

/// The characters that separate the tokens of a request line: space, tab,
/// line feed, form feed and carriage return.
pub open spec fn is_ascii_whitespace(c: char) -> bool {
    c == ' ' || c == '\t' || c == '\n' || c == '\x0C' || c == '\r'
}

/// Whether `c` is whitespace to `trim`.
pub fn whitespace(c: char) -> (r: bool)
    ensures
        r == is_whitespace(c),
{
    c == ' ' || ('\t' <= c && c <= '\r') || c == '\u{85}' || c == '\u{A0}' || c == '\u{1680}' || (
    '\u{2000}' <= c && c <= '\u{200A}') || c == '\u{2028}' || c == '\u{2029}' || c == '\u{202F}'
        || c == '\u{205F}' || c == '\u{3000}'
}

/// Whether `c` separates tokens.
pub fn ascii_whitespace(c: char) -> (r: bool)
    ensures
        r == is_ascii_whitespace(c),
{
    c == ' ' || c == '\t' || c == '\n' || c == '\x0C' || c == '\r'
}

/// `s` without its leading whitespace.
pub open spec fn trim_start(s: Seq<char>) -> Seq<char>
    decreases s.len(),
{
    if s.len() > 0 && is_whitespace(s[0]) {
        trim_start(s.skip(1))
    } else {
        s
    }
}

/// `s` without its trailing whitespace.
pub open spec fn trim_end(s: Seq<char>) -> Seq<char>
    decreases s.len(),
{
    if s.len() > 0 && is_whitespace(s.last()) {
        trim_end(s.drop_last())
    } else {
        s
    }
}

/// `s` without its leading and trailing whitespace.
pub open spec fn trim(s: Seq<char>) -> Seq<char> {
    trim_end(trim_start(s))
}

/// Neither the first nor the last character of `s` is whitespace.
pub open spec fn is_trimmed(s: Seq<char>) -> bool {
    s.len() == 0 || (!is_whitespace(s[0]) && !is_whitespace(s.last()))
}

proof fn lemma_trim_start(s: Seq<char>)
    ensures
        trim_start(s).len() == 0 || !is_whitespace(trim_start(s)[0]),
    decreases s.len(),
{
    if s.len() > 0 && is_whitespace(s[0]) {
        lemma_trim_start(s.skip(1));
    }
}

proof fn lemma_trim_end(s: Seq<char>)
    ensures
        trim_end(s).len() <= s.len(),
        trim_end(s) == s.take(trim_end(s).len() as int),
        trim_end(s).len() == 0 || !is_whitespace(trim_end(s).last()),
    decreases s.len(),
{
    if s.len() > 0 && is_whitespace(s.last()) {
        lemma_trim_end(s.drop_last());
        let t = trim_end(s);
        assert(s.drop_last().take(t.len() as int) =~= s.take(t.len() as int));
    } else {
        assert(s.take(s.len() as int) =~= s);
    }
}

/// What `trim` leaves neither starts nor ends with whitespace.
pub proof fn lemma_trim_is_trimmed(s: Seq<char>)
    ensures
        is_trimmed(trim(s)),
{
    lemma_trim_start(s);
    lemma_trim_end(trim_start(s));
}

/// The bounds within `text[lo..hi)` of what `trim` leaves of it.
pub fn trim_in(text: &Vec<char>, lo: usize, hi: usize) -> (r: (usize, usize))
    requires
        lo <= hi <= text.len(),
    ensures
        lo <= r.0 <= r.1 <= hi,
        text@.subrange(r.0 as int, r.1 as int) == trim(text@.subrange(lo as int, hi as int)),
{
    let mut a: usize = lo;
    while a < hi && whitespace(text[a])
        invariant
            lo <= a <= hi <= text.len(),
            trim_start(text@.subrange(lo as int, hi as int)) == trim_start(
                text@.subrange(a as int, hi as int),
            ),
        decreases hi - a,
    {
        proof {
            assert(text@.subrange(a as int, hi as int).skip(1) =~= text@.subrange(
                a + 1,
                hi as int,
            ));
        }
        a += 1;
    }
    let mut b: usize = hi;
    while a < b && whitespace(text[b - 1])
        invariant
            a <= b <= hi <= text.len(),
            trim_end(text@.subrange(a as int, hi as int)) == trim_end(
                text@.subrange(a as int, b as int),
            ),
        decreases b - a,
    {
        proof {
            assert(text@.subrange(a as int, b as int).drop_last() =~= text@.subrange(
                a as int,
                b - 1,
            ));
        }
        b -= 1;
    }
    (a, b)
}

/// The length of the longest prefix of `s` that holds no ASCII whitespace.
pub open spec fn word_len(s: Seq<char>) -> nat
    decreases s.len(),
{
    if s.len() == 0 || is_ascii_whitespace(s[0]) {
        0
    } else {
        1 + word_len(s.skip(1))
    }
}

/// The prefix that `word_len` measures lies within `s`, and is not empty
/// where `s` starts with a character that is no whitespace.
pub proof fn lemma_word_len_bound(s: Seq<char>)
    ensures
        word_len(s) <= s.len(),
        s.len() > 0 && !is_ascii_whitespace(s[0]) ==> word_len(s) > 0,
    decreases s.len(),
{
    if s.len() > 0 && !is_ascii_whitespace(s[0]) {
        lemma_word_len_bound(s.skip(1));
    }
}

/// The maximal runs of `s` that hold no ASCII whitespace, from left to right.
pub open spec fn tokens(s: Seq<char>) -> Seq<Seq<char>>
    decreases s.len(),
    via tokens_decreases
{
    if s.len() == 0 {
        Seq::empty()
    } else if is_ascii_whitespace(s[0]) {
        tokens(s.skip(1))
    } else {
        seq![s.take(word_len(s) as int)] + tokens(s.skip(word_len(s) as int))
    }
}

#[via_fn]
proof fn tokens_decreases(s: Seq<char>) {
    lemma_word_len_bound(s);
}

/// `s[a..b)` is a token of `s`: a run without ASCII whitespace, with
/// whitespace or an end of `s` on either side.
pub open spec fn is_token_at(s: Seq<char>, a: int, b: int) -> bool {
    &&& 0 <= a < b <= s.len()
    &&& forall|k: int| a <= k < b ==> !is_ascii_whitespace(#[trigger] s[k])
    &&& (a == 0 || is_ascii_whitespace(s[a - 1]))
    &&& (b == s.len() || is_ascii_whitespace(s[b]))
}

/// `word_len(s)` is where the first ASCII whitespace of `s` stands, or the
/// length of `s` where it holds none.
pub proof fn lemma_word_len(s: Seq<char>)
    ensures
        word_len(s) <= s.len(),
        forall|k: int| 0 <= k < word_len(s) ==> !is_ascii_whitespace(#[trigger] s[k]),
        word_len(s) == s.len() || is_ascii_whitespace(s[word_len(s) as int]),
    decreases s.len(),
{
    if s.len() > 0 && !is_ascii_whitespace(s[0]) {
        let t = s.skip(1);
        lemma_word_len(t);
        assert forall|k: int| 0 <= k < word_len(s) implies !is_ascii_whitespace(#[trigger] s[k]) by {
            if k > 0 {
                assert(s[k] == t[k - 1]);
            }
        }
        if word_len(s) < s.len() {
            assert(s[word_len(s) as int] == t[word_len(t) as int]);
        }
    }
}

/// A text that holds no ASCII whitespace before `c`, which is one, has its
/// first whitespace there.
pub proof fn lemma_word_len_before(head: Seq<char>, c: char, tail: Seq<char>)
    requires
        forall|k: int| 0 <= k < head.len() ==> !is_ascii_whitespace(#[trigger] head[k]),
        is_ascii_whitespace(c),
    ensures
        word_len(head + seq![c] + tail) == head.len(),
        (head + seq![c] + tail).take(head.len() as int) == head,
    decreases head.len(),
{
    let s = head + seq![c] + tail;
    assert(s.take(head.len() as int) =~= head);
    if head.len() == 0 {
        assert(s[0] == c);
    } else {
        let rest = head.skip(1);
        assert(s[0] == head[0]);
        assert forall|k: int| 0 <= k < rest.len() implies !is_ascii_whitespace(
            #[trigger] rest[k],
        ) by {
            assert(rest[k] == head[k + 1]);
        }
        lemma_word_len_before(rest, c, tail);
        assert(s.skip(1) =~= rest + seq![c] + tail);
    }
}

/// The tokens of `s` after its first `n` characters are those of `s.skip(n)`,
/// where a token ends or whitespace stands at `n`.
proof fn lemma_token_shift(s: Seq<char>, n: int, a: int, b: int)
    requires
        0 <= n <= s.len(),
        0 <= a,
        a > 0 || n == 0 || is_ascii_whitespace(s[n - 1]),
    ensures
        is_token_at(s.skip(n), a, b) <==> is_token_at(s, a + n, b + n),
        0 <= a <= b <= s.len() - n ==> s.skip(n).subrange(a, b) == s.subrange(a + n, b + n),
{
    let t = s.skip(n);
    if 0 <= a <= b <= s.len() - n {
        assert(t.subrange(a, b) =~= s.subrange(a + n, b + n));
    }
    if is_token_at(t, a, b) {
        assert forall|k: int| a + n <= k < b + n implies !is_ascii_whitespace(#[trigger] s[k]) by {
            assert(s[k] == t[k - n]);
        }
        if a > 0 {
            assert(s[a + n - 1] == t[a - 1]);
        }
        if b < t.len() {
            assert(s[b + n] == t[b]);
        }
    }
    if is_token_at(s, a + n, b + n) {
        assert forall|k: int| a <= k < b implies !is_ascii_whitespace(#[trigger] t[k]) by {
            assert(t[k] == s[k + n]);
        }
        if a > 0 {
            assert(s[a + n - 1] == t[a - 1]);
        }
        if b < t.len() {
            assert(s[b + n] == t[b]);
        }
    }
}

proof fn lemma_run_is_token(s: Seq<char>, a: int, b: int)
    requires
        is_token_at(s, a, b),
    ensures
        exists|i: int| 0 <= i < tokens(s).len() && #[trigger] tokens(s)[i] == s.subrange(a, b),
    decreases s.len(),
{
    if is_ascii_whitespace(s[0]) {
        let t = s.skip(1);
        assert(a > 0) by {
            if a == 0 {
                assert(!is_ascii_whitespace(s[0]));
            }
        }
        lemma_token_shift(s, 1, a - 1, b - 1);
        lemma_run_is_token(t, a - 1, b - 1);
        let i = choose|i: int|
            0 <= i < tokens(t).len() && #[trigger] tokens(t)[i] == t.subrange(a - 1, b - 1);
        assert(tokens(s)[i] == s.subrange(a, b));
    } else {
        let n = word_len(s) as int;
        let t = s.skip(n);
        lemma_word_len(s);
        lemma_word_len_bound(s);
        assert(tokens(s) == seq![s.take(n)] + tokens(t));
        if a == 0 {
            if b > n {
                assert(!is_ascii_whitespace(s[n]));
            }
            if b < n {
                assert(!is_ascii_whitespace(s[b]));
            }
            assert(s.take(n) =~= s.subrange(0, n));
            assert(tokens(s)[0] == s.subrange(a, b));
        } else {
            if a - 1 < n {
                assert(!is_ascii_whitespace(s[a - 1]));
            }
            lemma_token_shift(s, n, a - n, b - n);
            lemma_run_is_token(t, a - n, b - n);
            let i = choose|i: int|
                0 <= i < tokens(t).len() && #[trigger] tokens(t)[i] == t.subrange(a - n, b - n);
            assert(tokens(s)[i + 1] == tokens(t)[i]);
        }
    }
}

proof fn lemma_token_is_run(s: Seq<char>, i: int)
    requires
        0 <= i < tokens(s).len(),
    ensures
        exists|a: int, b: int| #[trigger]
            is_token_at(s, a, b) && tokens(s)[i] == s.subrange(a, b),
    decreases s.len(),
{
    if s.len() == 0 {
    } else if is_ascii_whitespace(s[0]) {
        let t = s.skip(1);
        lemma_token_is_run(t, i);
        let (a, b) = choose|a: int, b: int| #[trigger]
            is_token_at(t, a, b) && tokens(t)[i] == t.subrange(a, b);
        lemma_token_shift(s, 1, a, b);
        assert(is_token_at(s, a + 1, b + 1) && tokens(s)[i] == s.subrange(a + 1, b + 1));
    } else {
        let n = word_len(s) as int;
        let t = s.skip(n);
        lemma_word_len(s);
        lemma_word_len_bound(s);
        assert(tokens(s) == seq![s.take(n)] + tokens(t));
        if i == 0 {
            assert(s.take(n) =~= s.subrange(0, n));
            assert(is_token_at(s, 0, n) && tokens(s)[i] == s.subrange(0, n));
        } else {
            assert(tokens(s)[i] == tokens(t)[i - 1]);
            lemma_token_is_run(t, i - 1);
            let (a, b) = choose|a: int, b: int| #[trigger]
                is_token_at(t, a, b) && tokens(t)[i - 1] == t.subrange(a, b);
            assert(a > 0) by {
                if a == 0 {
                    assert(!is_ascii_whitespace(t[0]));
                    assert(t[0] == s[n]);
                }
            }
            lemma_token_shift(s, n, a, b);
            assert(is_token_at(s, a + n, b + n) && tokens(s)[i] == s.subrange(a + n, b + n));
        }
    }
}

/// `token` is a token of `s`, at some place.
pub open spec fn is_token(s: Seq<char>, token: Seq<char>) -> bool {
    exists|a: int, b: int| #[trigger] is_token_at(s, a, b) && s.subrange(a, b) == token
}

/// The tokens of `s` are its runs of characters that are no ASCII
/// whitespace and that stand between whitespace or the ends of `s`: each such
/// run is among `tokens(s)`, and `tokens(s)` holds nothing else.
pub proof fn lemma_tokens_are_runs(s: Seq<char>)
    ensures
        forall|a: int, b: int| #[trigger]
            is_token_at(s, a, b) ==> tokens(s).contains(s.subrange(a, b)),
        forall|i: int| 0 <= i < tokens(s).len() ==> is_token(s, #[trigger] tokens(s)[i]),
{
    assert forall|a: int, b: int| #[trigger] is_token_at(s, a, b) implies tokens(s).contains(
        s.subrange(a, b),
    ) by {
        lemma_run_is_token(s, a, b);
    }
    assert forall|i: int| 0 <= i < tokens(s).len() implies is_token(s, #[trigger] tokens(s)[i]) by {
        lemma_token_is_run(s, i);
    }
}

/// The end of the token that starts at `at`.
pub fn word_end(text: &Vec<char>, at: usize, hi: usize) -> (end: usize)
    requires
        at <= hi <= text.len(),
    ensures
        at <= end <= hi,
        end - at == word_len(text@.subrange(at as int, hi as int)),
{
    let mut e: usize = at;
    while e < hi && !ascii_whitespace(text[e])
        invariant
            at <= e <= hi <= text.len(),
            word_len(text@.subrange(at as int, hi as int)) == (e - at) + word_len(
                text@.subrange(e as int, hi as int),
            ),
        decreases hi - e,
    {
        proof {
            assert(text@.subrange(e as int, hi as int).skip(1) =~= text@.subrange(
                e + 1,
                hi as int,
            ));
        }
        e += 1;
    }
    e
}


/// The decimal digit for `d`, which is below ten.
pub open spec fn digit(d: nat) -> Seq<char> {
    "0123456789"@.subrange(d as int, d as int + 1)
}

/// The number `n` in decimal digits, without leading zeros.
pub open spec fn decimal(n: nat) -> Seq<char>
    decreases n,
{
    if n < 10 {
        digit(n)
    } else {
        decimal(n / 10) + digit(n % 10)
    }
}

/// The number `n` in decimal digits, without leading zeros.
pub fn decimal_of(n: usize) -> (s: String)
    ensures
        s@ == decimal(n as nat),
    decreases n,
{
    proof {
        reveal_strlit("0123456789");
    }
    if n < 10 {
        "0123456789".substring_char(n, n + 1).to_owned()
    } else {
        decimal_of(n / 10).concat("0123456789".substring_char(n % 10, n % 10 + 1))
    }
}

/// The number of bytes that `s` takes in UTF-8.
pub open spec fn byte_len(s: Seq<char>) -> nat {
    vstd::utf8::encode_utf8(s).len()
}

/// The number of bytes that `s` takes in UTF-8.
pub fn byte_len_of(s: &str) -> (n: usize)
    ensures
        n == byte_len(s@),
{
    s.as_bytes().len()
}

} // verus!
