//! Extraction of whitespace-delimited words from a raw frame.
//!
//! A frame is the byte contents of one transport read. The command keyword is
//! its first whitespace-delimited word; for JOIN the requested name is the
//! second. These are pure functions on bytes (or on the characters of an
//! already-decoded frame), with no shared state.

use vstd::prelude::*;
use vstd::string::StrSliceExecFns;

verus! {

/// The delimiters recognized when extracting the leading command keyword
/// from a frame: space, horizontal tab, line feed, carriage return.
pub open spec fn is_frame_ws(b: u8) -> bool {
    b == 32 || b == 9 || b == 10 || b == 13
}

/// Character-level counterpart of [`is_frame_ws`].
pub open spec fn is_frame_ws_char(c: char) -> bool {
    c == ' ' || c == '\t' || c == '\n' || c == '\r'
}

/// Index of the first position at or after `i` whose element satisfies `p`,
/// or `s.len()` if there is none (or if `i` is out of range).
pub open spec fn find_from<T>(s: Seq<T>, i: int, p: spec_fn(T) -> bool) -> int
    decreases s.len() - i,
{
    if 0 <= i < s.len() {
        if p(s[i]) {
            i
        } else {
            find_from(s, i + 1, p)
        }
    } else {
        s.len() as int
    }
}

/// A position `m` with nothing satisfying `p` before it (at or after `i`)
/// and satisfying `p` itself (when in range) is what [`find_from`] returns.
pub proof fn lemma_find_from_is<T>(s: Seq<T>, i: int, m: int, p: spec_fn(T) -> bool)
    requires
        0 <= i <= m <= s.len(),
        forall|j: int| i <= j < m ==> !p(s[j]),
        m < s.len() ==> p(s[m]),
    ensures
        find_from(s, i, p) == m,
    decreases m - i,
{
    if i < m {
        lemma_find_from_is(s, i + 1, m, p);
    }
}

/// Index of the first byte of the leading word: the first non-whitespace
/// position, or `s.len()` if the frame is all whitespace.
pub open spec fn token_start(s: Seq<u8>) -> int {
    find_from(s, 0, |b: u8| !is_frame_ws(b))
}

/// Index one past the last byte of the leading word: the first whitespace
/// position at or after [`token_start`], or `s.len()` if there is none.
pub open spec fn token_end(s: Seq<u8>) -> int {
    find_from(s, token_start(s), |b: u8| is_frame_ws(b))
}

/// The leading word of a frame: empty when the frame is all whitespace;
/// the whole frame, leading whitespace included, when the word runs to the
/// end of the frame with no trailing delimiter; otherwise the word itself.
/// The two edge cases are deliberate wire-visible behaviour, preserved for
/// interoperability with existing clients.
pub open spec fn first_token_bytes(s: Seq<u8>) -> Seq<u8> {
    if token_start(s) == s.len() {
        Seq::empty()
    } else if token_end(s) == s.len() {
        s
    } else {
        s.subrange(token_start(s), token_end(s))
    }
}

/// Whether `b` is frame whitespace (see [`is_frame_ws`]).
pub fn frame_ws(b: u8) -> (r: bool)
    ensures
        r == is_frame_ws(b),
{
    b == 32 || b == 9 || b == 10 || b == 13
}

/// Extracts the leading whitespace-delimited word of a frame of bytes.
///
/// When the word runs to the end of the frame with no trailing delimiter,
/// the whole frame is returned, leading whitespace included; a frame of
/// nothing but whitespace yields an empty slice.
pub fn first_word_u8(s: &[u8]) -> (r: &[u8])
    ensures
        r@ == first_token_bytes(s@),
{
    let n: usize = s.len();
    let mut a: usize = 0;
    while a < n && frame_ws(s[a])
        invariant
            a <= n,
            n == s@.len(),
            forall|j: int| 0 <= j < a ==> is_frame_ws(s@[j]),
        decreases n - a,
    {
        a = a + 1;
    }
    proof {
        let p = |b: u8| !is_frame_ws(b);
        lemma_find_from_is(s@, 0, a as int, p);
        assert(token_start(s@) == a as int);
    }
    if a == n {
        let r = vstd::slice::slice_subrange(s, 0, 0);
        proof {
            assert(r@ =~= first_token_bytes(s@));
        }
        return r;
    }
    let mut b: usize = a;
    while b < n && !frame_ws(s[b])
        invariant
            a <= b <= n,
            n == s@.len(),
            forall|j: int| a <= j < b ==> !is_frame_ws(s@[j]),
        decreases n - b,
    {
        b = b + 1;
    }
    proof {
        let p = |b: u8| is_frame_ws(b);
        lemma_find_from_is(s@, a as int, b as int, p);
        assert(token_end(s@) == b as int);
    }
    if b == n {
        return s;
    }
    vstd::slice::slice_subrange(s, a, b)
}

/// Index of the first character of the leading word of a decoded frame.
pub open spec fn token_start_chars(s: Seq<char>) -> int {
    find_from(s, 0, |c: char| !is_frame_ws_char(c))
}

/// Index one past the last character of the leading word of a decoded frame.
pub open spec fn token_end_chars(s: Seq<char>) -> int {
    find_from(s, token_start_chars(s), |c: char| is_frame_ws_char(c))
}

/// Character-level counterpart of [`first_token_bytes`], with the same
/// edge behaviour: all-whitespace input yields the empty sequence, and a
/// word with no trailing delimiter yields the whole input.
pub open spec fn first_token_chars(s: Seq<char>) -> Seq<char> {
    if token_start_chars(s) == s.len() {
        Seq::empty()
    } else if token_end_chars(s) == s.len() {
        s
    } else {
        s.subrange(token_start_chars(s), token_end_chars(s))
    }
}

/// Whether `c` is frame whitespace (see [`is_frame_ws_char`]).
pub fn frame_ws_char(c: char) -> (r: bool)
    ensures
        r == is_frame_ws_char(c),
{
    c == ' ' || c == '\t' || c == '\n' || c == '\r'
}

/// Extracts the leading whitespace-delimited word of a decoded frame,
/// with the same edge behaviour as [`first_word_u8`].
pub fn first_word(s: &str) -> (r: &str)
    ensures
        r@ == first_token_chars(s@),
{
    let n: usize = s.unicode_len();
    let mut a: usize = 0;
    while a < n && frame_ws_char(s.get_char(a))
        invariant
            a <= n,
            n == s@.len(),
            forall|j: int| 0 <= j < a ==> is_frame_ws_char(s@[j]),
        decreases n - a,
    {
        a = a + 1;
    }
    proof {
        let p = |c: char| !is_frame_ws_char(c);
        lemma_find_from_is(s@, 0, a as int, p);
        assert(token_start_chars(s@) == a as int);
    }
    if a == n {
        let r = s.substring_char(0, 0);
        proof {
            assert(r@ =~= first_token_chars(s@));
        }
        return r;
    }
    let mut b: usize = a;
    while b < n && !frame_ws_char(s.get_char(b))
        invariant
            a <= b <= n,
            n == s@.len(),
            forall|j: int| a <= j < b ==> !is_frame_ws_char(s@[j]),
        decreases n - b,
    {
        b = b + 1;
    }
    proof {
        let p = |c: char| is_frame_ws_char(c);
        lemma_find_from_is(s@, a as int, b as int, p);
        assert(token_end_chars(s@) == b as int);
    }
    if b == n {
        return s;
    }
    s.substring_char(a, b)
}

/// Index of the first position of the trailing whitespace run that ends at
/// `i`: scanning left from `i`, the first position whose predecessor is not
/// frame whitespace.
pub open spec fn trim_end_idx(s: Seq<char>, i: int) -> int
    decreases i,
{
    if 0 < i <= s.len() && is_frame_ws_char(s[i - 1]) {
        trim_end_idx(s, i - 1)
    } else {
        i
    }
}

/// `s` with leading and trailing frame whitespace removed.
pub open spec fn trimmed_chars(s: Seq<char>) -> Seq<char> {
    let a = find_from(s, 0, |c: char| !is_frame_ws_char(c));
    if a == s.len() {
        Seq::empty()
    } else {
        s.subrange(a, trim_end_idx(s, s.len() as int))
    }
}

/// A position `m` preceded by a non-whitespace character (or the start of
/// the sequence) with only whitespace between `m` and `i` is what
/// [`trim_end_idx`] returns.
pub proof fn lemma_trim_end_is(s: Seq<char>, i: int, m: int)
    requires
        0 <= m <= i <= s.len(),
        forall|j: int| m <= j < i ==> is_frame_ws_char(s[j]),
        m > 0 ==> !is_frame_ws_char(s[m - 1]),
    ensures
        trim_end_idx(s, i) == m,
    decreases i - m,
{
    if m < i {
        lemma_trim_end_is(s, i - 1, m);
    }
}

/// Keyword matching as the dispatcher performs it on decoded frames: the
/// keyword, stripped of surrounding frame whitespace, equals the frame's
/// leading word.
pub open spec fn check_cmd_chars(command: Seq<char>, input: Seq<char>) -> bool {
    trimmed_chars(command) == first_token_chars(input)
}

/// The delimiters recognized when splitting a frame into words (for JOIN's
/// name argument): frame whitespace plus the form feed, i.e. the ASCII
/// whitespace set.
pub open spec fn is_word_ws(b: u8) -> bool {
    is_frame_ws(b) || b == 12
}

/// Character-level counterpart of [`is_word_ws`].
pub open spec fn is_word_ws_char(c: char) -> bool {
    is_frame_ws_char(c) || c == '\u{c}'
}

/// The first two whitespace-delimited words of a decoded frame: each is a
/// maximal run of non-whitespace characters, absent when the frame holds
/// fewer than one (resp. two) such runs.
pub open spec fn two_words_chars(s: Seq<char>) -> (Option<Seq<char>>, Option<Seq<char>>) {
    let a1 = find_from(s, 0, |c: char| !is_word_ws_char(c));
    let b1 = find_from(s, a1, |c: char| is_word_ws_char(c));
    let a2 = find_from(s, b1, |c: char| !is_word_ws_char(c));
    let b2 = find_from(s, a2, |c: char| is_word_ws_char(c));
    if a1 == s.len() {
        (None, None)
    } else if a2 == s.len() {
        (Some(s.subrange(a1, b1)), None)
    } else {
        (Some(s.subrange(a1, b1)), Some(s.subrange(a2, b2)))
    }
}

/// The second whitespace-delimited word of a frame of bytes, or `None` when
/// the frame holds fewer than two words.
pub open spec fn second_word_bytes(s: Seq<u8>) -> Option<Seq<u8>> {
    let a1 = find_from(s, 0, |b: u8| !is_word_ws(b));
    let b1 = find_from(s, a1, |b: u8| is_word_ws(b));
    let a2 = find_from(s, b1, |b: u8| !is_word_ws(b));
    let b2 = find_from(s, a2, |b: u8| is_word_ws(b));
    if a2 == s.len() {
        None
    } else {
        Some(s.subrange(a2, b2))
    }
}

/// Whether `c` is word whitespace (see [`is_word_ws_char`]).
pub fn word_ws_char(c: char) -> (r: bool)
    ensures
        r == is_word_ws_char(c),
{
    c == ' ' || c == '\t' || c == '\n' || c == '\r' || c == '\u{c}'
}

/// Whether `b` is word whitespace (see [`is_word_ws`]).
pub fn word_ws(b: u8) -> (r: bool)
    ensures
        r == is_word_ws(b),
{
    b == 32 || b == 9 || b == 10 || b == 13 || b == 12
}

/// Splits off the first two whitespace-delimited words of a decoded frame.
pub fn first_2_words(s: &str) -> (r: (Option<&str>, Option<&str>))
    ensures
        ({
            let (w1, w2) = two_words_chars(s@);
            &&& (r.0 is Some <==> w1 is Some)
            &&& (r.1 is Some <==> w2 is Some)
            &&& (r.0 matches Some(v) ==> v@ == w1->0)
            &&& (r.1 matches Some(v) ==> v@ == w2->0)
        }),
{
    let n: usize = s.unicode_len();
    let mut a1: usize = 0;
    while a1 < n && word_ws_char(s.get_char(a1))
        invariant
            a1 <= n,
            n == s@.len(),
            forall|j: int| 0 <= j < a1 ==> is_word_ws_char(s@[j]),
        decreases n - a1,
    {
        a1 = a1 + 1;
    }
    proof {
        lemma_find_from_is(s@, 0, a1 as int, |c: char| !is_word_ws_char(c));
    }
    if a1 == n {
        return (None, None);
    }
    let mut b1: usize = a1;
    while b1 < n && !word_ws_char(s.get_char(b1))
        invariant
            a1 <= b1 <= n,
            n == s@.len(),
            forall|j: int| a1 <= j < b1 ==> !is_word_ws_char(s@[j]),
        decreases n - b1,
    {
        b1 = b1 + 1;
    }
    proof {
        lemma_find_from_is(s@, a1 as int, b1 as int, |c: char| is_word_ws_char(c));
    }
    let w1 = s.substring_char(a1, b1);
    let mut a2: usize = b1;
    while a2 < n && word_ws_char(s.get_char(a2))
        invariant
            b1 <= a2 <= n,
            n == s@.len(),
            forall|j: int| b1 <= j < a2 ==> is_word_ws_char(s@[j]),
        decreases n - a2,
    {
        a2 = a2 + 1;
    }
    proof {
        lemma_find_from_is(s@, b1 as int, a2 as int, |c: char| !is_word_ws_char(c));
    }
    if a2 == n {
        return (Some(w1), None);
    }
    let mut b2: usize = a2;
    while b2 < n && !word_ws_char(s.get_char(b2))
        invariant
            a2 <= b2 <= n,
            n == s@.len(),
            forall|j: int| a2 <= j < b2 ==> !is_word_ws_char(s@[j]),
        decreases n - b2,
    {
        b2 = b2 + 1;
    }
    proof {
        lemma_find_from_is(s@, a2 as int, b2 as int, |c: char| is_word_ws_char(c));
    }
    (Some(w1), Some(s.substring_char(a2, b2)))
}

/// Extracts the second whitespace-delimited word of a frame of bytes, the
/// requested name of a JOIN command.
pub fn second_word_u8(s: &[u8]) -> (r: Option<&[u8]>)
    ensures
        (r is Some <==> second_word_bytes(s@) is Some),
        (r matches Some(v) ==> v@ == second_word_bytes(s@)->0),
{
    let n: usize = s.len();
    let mut a1: usize = 0;
    while a1 < n && word_ws(s[a1])
        invariant
            a1 <= n,
            n == s@.len(),
            forall|j: int| 0 <= j < a1 ==> is_word_ws(s@[j]),
        decreases n - a1,
    {
        a1 = a1 + 1;
    }
    proof {
        lemma_find_from_is(s@, 0, a1 as int, |b: u8| !is_word_ws(b));
    }
    let mut b1: usize = a1;
    while b1 < n && !word_ws(s[b1])
        invariant
            a1 <= b1 <= n,
            n == s@.len(),
            forall|j: int| a1 <= j < b1 ==> !is_word_ws(s@[j]),
        decreases n - b1,
    {
        b1 = b1 + 1;
    }
    proof {
        lemma_find_from_is(s@, a1 as int, b1 as int, |b: u8| is_word_ws(b));
    }
    let mut a2: usize = b1;
    while a2 < n && word_ws(s[a2])
        invariant
            b1 <= a2 <= n,
            n == s@.len(),
            forall|j: int| b1 <= j < a2 ==> is_word_ws(s@[j]),
        decreases n - a2,
    {
        a2 = a2 + 1;
    }
    proof {
        lemma_find_from_is(s@, b1 as int, a2 as int, |b: u8| !is_word_ws(b));
    }
    if a2 == n {
        return None;
    }
    let mut b2: usize = a2;
    while b2 < n && !word_ws(s[b2])
        invariant
            a2 <= b2 <= n,
            n == s@.len(),
            forall|j: int| a2 <= j < b2 ==> !is_word_ws(s@[j]),
        decreases n - b2,
    {
        b2 = b2 + 1;
    }
    proof {
        lemma_find_from_is(s@, a2 as int, b2 as int, |b: u8| is_word_ws(b));
    }
    Some(vstd::slice::slice_subrange(s, a2, b2))
}

} // verus!
