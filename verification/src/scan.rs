//! Byte classification and scanning helpers shared by the token matchers.
//!
//! Every token grammar in this crate is ASCII-structured, so the matchers
//! work directly on bytes: multi-byte UTF-8 sequences never overlap any of
//! the byte classes below and are copied through unchanged.

use vstd::prelude::*;

verus! {

/// An ASCII decimal digit.
pub open spec fn spec_is_digit(b: u8) -> bool {
    48 <= b <= 57
}

#[verifier::when_used_as_spec(spec_is_digit)]
pub fn is_digit(b: u8) -> (r: bool)
    ensures
        r == spec_is_digit(b),
{
    48 <= b && b <= 57
}

/// An ASCII hexadecimal letter, either case.
pub open spec fn spec_is_hex_letter(b: u8) -> bool {
    (97 <= b <= 102) || (65 <= b <= 70)
}

#[verifier::when_used_as_spec(spec_is_hex_letter)]
pub fn is_hex_letter(b: u8) -> (r: bool)
    ensures
        r == spec_is_hex_letter(b),
{
    (97 <= b && b <= 102) || (65 <= b && b <= 70)
}

/// An ASCII letter.
pub open spec fn spec_is_alpha(b: u8) -> bool {
    (97 <= b <= 122) || (65 <= b <= 90)
}

#[verifier::when_used_as_spec(spec_is_alpha)]
pub fn is_alpha(b: u8) -> (r: bool)
    ensures
        r == spec_is_alpha(b),
{
    (97 <= b && b <= 122) || (65 <= b && b <= 90)
}

/// A word byte: letter, digit or underscore (`\w` in byte-oriented mode).
pub open spec fn spec_is_word(b: u8) -> bool {
    spec_is_alpha(b) || spec_is_digit(b) || b == 95
}

#[verifier::when_used_as_spec(spec_is_word)]
pub fn is_word(b: u8) -> (r: bool)
    ensures
        r == spec_is_word(b),
{
    is_alpha(b) || is_digit(b) || b == 95
}

/// An ASCII whitespace byte (`\s` in byte-oriented mode).
pub open spec fn spec_is_space(b: u8) -> bool {
    b == 32 || (9 <= b <= 13)
}

#[verifier::when_used_as_spec(spec_is_space)]
pub fn is_space(b: u8) -> (r: bool)
    ensures
        r == spec_is_space(b),
{
    b == 32 || (9 <= b && b <= 13)
}

/// The byte classes used by the token grammars; each names the set of bytes
/// a greedy run may consume in one of the matchers.
#[derive(Clone, Copy)]
pub enum ByteClass {
    /// `[0-9]`
    Digit,
    /// `[0-9a-fA-F]`
    HexDigit,
    /// `[0-9A-Za-z_]`
    Word,
    /// `[0-9a-fA-F:.]` — the candidate bytes of an IPv6 address
    Ipv6Chars,
    /// `[A-Za-z0-9._\-]` — a URL host
    UrlHost,
    /// `[A-Za-z0-9._~\-/%+()]` — a URL path
    UrlPath,
    /// `[A-Za-z0-9._~\-/%+&=;,@!*()?:]` — a URL query string
    UrlQuery,
    /// `[A-Za-z0-9._~\-+%]` — a query-parameter key or value
    QueryKeyVal,
    /// `[A-Za-z0-9._ +:/-]` — a parenthesized process display name
    ProcParen,
    /// `[A-Za-z0-9_/-]` — a bare process name
    ProcBare,
}

/// Whether byte `b` belongs to class `c`.
pub open spec fn class_holds(c: ByteClass, b: u8) -> bool {
    match c {
        ByteClass::Digit => spec_is_digit(b),
        ByteClass::HexDigit => spec_is_digit(b) || spec_is_hex_letter(b),
        ByteClass::Word => spec_is_word(b),
        ByteClass::Ipv6Chars => spec_is_digit(b) || spec_is_hex_letter(b) || b == 58 || b == 46,
        ByteClass::UrlHost => spec_is_alpha(b) || spec_is_digit(b) || b == 46 || b == 95 || b == 45,
        ByteClass::UrlPath => spec_is_alpha(b) || spec_is_digit(b) || b == 46 || b == 95 || b == 126
            || b == 45 || b == 47 || b == 37 || b == 43 || b == 40 || b == 41,
        ByteClass::UrlQuery => spec_is_alpha(b) || spec_is_digit(b) || b == 46 || b == 95
            || b == 126 || b == 45 || b == 47 || b == 37 || b == 43 || b == 38 || b == 61
            || b == 59 || b == 44 || b == 64 || b == 33 || b == 42 || b == 40 || b == 41
            || b == 63 || b == 58,
        ByteClass::QueryKeyVal => spec_is_alpha(b) || spec_is_digit(b) || b == 46 || b == 95
            || b == 126 || b == 45 || b == 43 || b == 37,
        ByteClass::ProcParen => spec_is_alpha(b) || spec_is_digit(b) || b == 46 || b == 95
            || b == 32 || b == 43 || b == 58 || b == 47 || b == 45,
        ByteClass::ProcBare => spec_is_alpha(b) || spec_is_digit(b) || b == 95 || b == 47
            || b == 45,
    }
}

pub fn byte_in_class(c: ByteClass, b: u8) -> (r: bool)
    ensures
        r == class_holds(c, b),
{
    match c {
        ByteClass::Digit => is_digit(b),
        ByteClass::HexDigit => is_digit(b) || is_hex_letter(b),
        ByteClass::Word => is_word(b),
        ByteClass::Ipv6Chars => is_digit(b) || is_hex_letter(b) || b == 58 || b == 46,
        ByteClass::UrlHost => is_alpha(b) || is_digit(b) || b == 46 || b == 95 || b == 45,
        ByteClass::UrlPath => is_alpha(b) || is_digit(b) || b == 46 || b == 95 || b == 126
            || b == 45 || b == 47 || b == 37 || b == 43 || b == 40 || b == 41,
        ByteClass::UrlQuery => is_alpha(b) || is_digit(b) || b == 46 || b == 95 || b == 126
            || b == 45 || b == 47 || b == 37 || b == 43 || b == 38 || b == 61 || b == 59
            || b == 44 || b == 64 || b == 33 || b == 42 || b == 40 || b == 41 || b == 63
            || b == 58,
        ByteClass::QueryKeyVal => is_alpha(b) || is_digit(b) || b == 46 || b == 95 || b == 126
            || b == 45 || b == 43 || b == 37,
        ByteClass::ProcParen => is_alpha(b) || is_digit(b) || b == 46 || b == 95 || b == 32
            || b == 43 || b == 58 || b == 47 || b == 45,
        ByteClass::ProcBare => is_alpha(b) || is_digit(b) || b == 95 || b == 47 || b == 45,
    }
}

/// The end of the maximal run of class-`c` bytes starting at `i`.
pub open spec fn run_end(s: Seq<u8>, i: int, c: ByteClass) -> int
    decreases s.len() - i
        when 0 <= i <= s.len()
{
    if i < s.len() && class_holds(c, s[i]) {
        run_end(s, i + 1, c)
    } else {
        i
    }
}

pub proof fn lemma_run_end(s: Seq<u8>, i: int, c: ByteClass)
    requires
        0 <= i <= s.len(),
    ensures
        i <= run_end(s, i, c) <= s.len(),
        forall|j: int| i <= j < run_end(s, i, c) ==> class_holds(c, s[j]),
        run_end(s, i, c) < s.len() ==> !class_holds(c, s[run_end(s, i, c)]),
    decreases s.len() - i,
{
    if i < s.len() && class_holds(c, s[i]) {
        lemma_run_end(s, i + 1, c);
    }
}

/// A run is pinned down by its contents: if every byte of `[i, e)` is in the
/// class and the byte at `e` (if any) is not, then `e` is the run's end.
pub proof fn lemma_run_end_is(s: Seq<u8>, i: int, e: int, c: ByteClass)
    requires
        0 <= i <= e <= s.len(),
        forall|j: int| i <= j < e ==> class_holds(c, s[j]),
        e < s.len() ==> !class_holds(c, s[e]),
    ensures
        run_end(s, i, c) == e,
    decreases e - i,
{
    if i < e {
        assert(class_holds(c, s[i]));
        lemma_run_end_is(s, i + 1, e, c);
    }
}

/// Scan the maximal run of class-`c` bytes starting at `start`.
pub fn scan_run(hay: &[u8], start: usize, c: ByteClass) -> (r: usize)
    requires
        start <= hay@.len(),
    ensures
        r == run_end(hay@, start as int, c),
        start <= r <= hay@.len(),
{
    let mut i = start;
    loop
        invariant
            start <= i <= hay@.len(),
            forall|j: int| start <= j < i ==> class_holds(c, hay@[j]),
        decreases hay@.len() - i,
    {
        if i < hay.len() && byte_in_class(c, hay[i]) {
            i += 1;
        } else {
            proof {
                lemma_run_end_is(hay@, start as int, i as int, c);
            }
            return i;
        }
    }
}

/// Whether byte `b` occurs anywhere in `s`.
pub open spec fn contains_byte(s: Seq<u8>, b: u8) -> bool {
    exists|i: int| 0 <= i < s.len() && s[i] == b
}

pub fn has_byte(hay: &[u8], b: u8) -> (r: bool)
    ensures
        r == contains_byte(hay@, b),
{
    let mut i: usize = 0;
    while i < hay.len()
        invariant
            0 <= i <= hay@.len(),
            forall|j: int| 0 <= j < i ==> hay@[j] != b,
        decreases hay@.len() - i,
    {
        if hay[i] == b {
            return true;
        }
        i += 1;
    }
    false
}

/// Whether any byte of class `c` occurs in `hay`.
pub fn has_class_byte(hay: &[u8], c: ByteClass) -> (r: bool)
    ensures
        r == exists|i: int| 0 <= i < hay@.len() && class_holds(c, hay@[i]),
{
    let mut i: usize = 0;
    while i < hay.len()
        invariant
            0 <= i <= hay@.len(),
            forall|j: int| 0 <= j < i ==> !class_holds(c, hay@[j]),
        decreases hay@.len() - i,
    {
        if byte_in_class(c, hay[i]) {
            return true;
        }
        i += 1;
    }
    false
}

/// The number of occurrences of `b` among the first `i` bytes of `s`.
pub open spec fn count_byte_prefix(s: Seq<u8>, b: u8, i: int) -> int
    decreases i
        when 0 <= i <= s.len()
{
    if i <= 0 {
        0
    } else {
        count_byte_prefix(s, b, i - 1) + if s[i - 1] == b {
            1int
        } else {
            0int
        }
    }
}

/// The number of occurrences of `b` in `s`.
pub open spec fn count_byte(s: Seq<u8>, b: u8) -> int {
    count_byte_prefix(s, b, s.len() as int)
}

pub proof fn lemma_count_byte_prefix_bounds(s: Seq<u8>, b: u8, i: int)
    requires
        0 <= i <= s.len(),
    ensures
        0 <= count_byte_prefix(s, b, i) <= i,
    decreases i,
{
    if i > 0 {
        lemma_count_byte_prefix_bounds(s, b, i - 1);
    }
}

pub fn count_occurrences(hay: &[u8], b: u8) -> (r: usize)
    ensures
        r == count_byte(hay@, b),
{
    let mut i: usize = 0;
    let mut n: usize = 0;
    while i < hay.len()
        invariant
            0 <= i <= hay@.len(),
            n == count_byte_prefix(hay@, b, i as int),
            n <= i,
        decreases hay@.len() - i,
    {
        proof {
            lemma_count_byte_prefix_bounds(hay@, b, i as int);
        }
        if hay[i] == b {
            n += 1;
        }
        i += 1;
    }
    n
}

/// Append `src[from..to]` to `out`.
pub fn append_range(out: &mut Vec<u8>, src: &[u8], from: usize, to: usize)
    requires
        from <= to <= src@.len(),
    ensures
        final(out)@ == old(out)@ + src@.subrange(from as int, to as int),
{
    let mut i = from;
    proof {
        assert(out@ =~= old(out)@ + src@.subrange(from as int, from as int));
    }
    while i < to
        invariant
            from <= i <= to <= src@.len(),
            out@ == old(out)@ + src@.subrange(from as int, i as int),
        decreases to - i,
    {
        out.push(src[i]);
        proof {
            assert(out@ =~= old(out)@ + src@.subrange(from as int, i + 1 as int));
        }
        i += 1;
    }
}

/// Append the whole of `src` to `out`.
pub fn append_vec(out: &mut Vec<u8>, src: &Vec<u8>)
    ensures
        final(out)@ == old(out)@ + src@,
{
    append_range(out, src.as_slice(), 0, src.len());
    proof {
        assert(src@.subrange(0, src@.len() as int) =~= src@);
    }
}

/// Whether `a` is a prefix of `b`.
pub open spec fn is_prefix(a: Seq<u8>, b: Seq<u8>) -> bool {
    a.len() <= b.len() && a == b.subrange(0, a.len() as int)
}

/// Whether `needle` occurs in `s` starting at index `i`.
pub open spec fn is_sub_at(s: Seq<u8>, needle: Seq<u8>, i: int) -> bool {
    0 <= i && i + needle.len() <= s.len() && s.subrange(i, i + needle.len()) == needle
}

/// The first index at or after `from` where `needle` occurs in `s`.
pub open spec fn find_sub(s: Seq<u8>, needle: Seq<u8>, from: int) -> Option<int>
    decreases s.len() - from
        when 0 <= from <= s.len() && needle.len() >= 1
{
    if from + needle.len() <= s.len() {
        if is_sub_at(s, needle, from) {
            Some(from)
        } else {
            find_sub(s, needle, from + 1)
        }
    } else {
        None
    }
}

pub proof fn lemma_find_sub(s: Seq<u8>, needle: Seq<u8>, from: int)
    requires
        0 <= from <= s.len(),
        needle.len() >= 1,
    ensures
        match find_sub(s, needle, from) {
            Some(i) => from <= i && is_sub_at(s, needle, i) && forall|j: int|
                from <= j < i ==> !is_sub_at(s, needle, j),
            None => forall|j: int| from <= j ==> !is_sub_at(s, needle, j),
        },
    decreases s.len() - from,
{
    if from + needle.len() <= s.len() && !is_sub_at(s, needle, from) {
        lemma_find_sub(s, needle, from + 1);
    }
}

/// The first-occurrence facts pin `find_sub` down.
pub proof fn lemma_find_sub_is(s: Seq<u8>, needle: Seq<u8>, from: int, r: Option<int>)
    requires
        0 <= from <= s.len(),
        needle.len() >= 1,
        match r {
            Some(i) => from <= i && is_sub_at(s, needle, i) && forall|j: int|
                from <= j < i ==> !is_sub_at(s, needle, j),
            None => forall|j: int| from <= j ==> !is_sub_at(s, needle, j),
        },
    ensures
        find_sub(s, needle, from) == r,
    decreases s.len() - from,
{
    match r {
        Some(i) => {
            if i > from {
                lemma_find_sub_is(s, needle, from + 1, r);
            }
        },
        None => {
            if from + needle.len() <= s.len() {
                lemma_find_sub_is(s, needle, from + 1, r);
            }
        },
    }
}

} // verus!
verus! {

/// A one-byte needle occurs at `j` exactly when that byte stands there.
pub proof fn lemma_byte_needle_at(s: Seq<u8>, b: u8, j: int)
    ensures
        is_sub_at(s, seq![b], j) <==> (0 <= j < s.len() && s[j] == b),
{
    if 0 <= j < s.len() {
        assert(s.subrange(j, j + 1) =~= seq![s[j]]);
        if s[j] == b {
            assert(s.subrange(j, j + 1) =~= seq![b]);
        } else if s.subrange(j, j + 1) == seq![b] {
            assert(s.subrange(j, j + 1)[0] == b);
        }
    }
}

/// The number of occurrences of `b` in `s[i..]`.
pub open spec fn count_from(s: Seq<u8>, i: int, b: u8) -> int
    decreases s.len() - i
        when 0 <= i <= s.len()
{
    if i >= s.len() {
        0
    } else {
        (if s[i] == b {
            1int
        } else {
            0int
        }) + count_from(s, i + 1, b)
    }
}

pub proof fn lemma_count_from_zero_iff(s: Seq<u8>, i: int, b: u8)
    requires
        0 <= i <= s.len(),
    ensures
        count_from(s, i, b) >= 0,
        (count_from(s, i, b) == 0) <==> (forall|j: int| i <= j < s.len() ==> s[j] != b),
    decreases s.len() - i,
{
    if i < s.len() {
        lemma_count_from_zero_iff(s, i + 1, b);
    }
}

/// Counting past a token-free stretch up to a token at `a`.
pub proof fn lemma_count_from_split(s: Seq<u8>, i: int, a: int, b: u8)
    requires
        0 <= i <= a < s.len(),
        forall|j: int| i <= j < a ==> s[j] != b,
        s[a] == b,
    ensures
        count_from(s, i, b) == 1 + count_from(s, a + 1, b),
    decreases a - i,
{
    if i < a {
        lemma_count_from_split(s, i + 1, a, b);
    }
}

pub proof fn lemma_count_from_drop_last(s: Seq<u8>, i: int, b: u8)
    requires
        s.len() >= 1,
        0 <= i <= s.len() - 1,
    ensures
        count_from(s, i, b) == count_from(s.drop_last(), i, b) + (if s.last() == b {
            1int
        } else {
            0int
        }),
    decreases s.len() - i,
{
    if i == s.len() - 1 {
        assert(count_from(s, i, b) == (if s[i] == b {
            1int
        } else {
            0int
        }) + count_from(s, i + 1, b));
    } else {
        assert(s.drop_last()[i] == s[i]);
        lemma_count_from_drop_last(s, i + 1, b);
    }
}

/// The forward count agrees with `count_byte`.
pub proof fn lemma_count_from_eq_count_byte(s: Seq<u8>, b: u8)
    ensures
        count_from(s, 0, b) == count_byte(s, b),
    decreases s.len(),
{
    if s.len() == 0 {
    } else {
        lemma_count_from_eq_count_byte(s.drop_last(), b);
        lemma_count_from_drop_last(s, 0, b);
        lemma_count_prefix_drop_last(s, s.len() - 1, b);
    }
}

pub proof fn lemma_count_prefix_drop_last(s: Seq<u8>, i: int, b: u8)
    requires
        s.len() >= 1,
        0 <= i <= s.len() - 1,
    ensures
        count_byte_prefix(s, b, i) == count_byte_prefix(s.drop_last(), b, i),
    decreases i,
{
    if i > 0 {
        assert(s.drop_last()[i - 1] == s[i - 1]);
        lemma_count_prefix_drop_last(s, i - 1, b);
    }
}

} // verus!
