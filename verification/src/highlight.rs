//! The rewrite engine shared by the pattern highlighters: a token grammar
//! names where a token starts, where it ends and what replaces it; the
//! engine rewrites a line by replacing every leftmost, non-overlapping
//! token and copying everything else byte for byte.

use vstd::prelude::*;

verus! {

/// The outcome of one highlighter pass over one line. `Unchanged` promises
/// the caller may keep using the original bytes: nothing was allocated.
pub enum HighlightResult {
    Unchanged,
    Highlighted(Vec<u8>),
}

impl HighlightResult {
    /// The outcome as an optional replacement.
    pub open spec fn as_option(&self) -> Option<Seq<u8>> {
        match self {
            HighlightResult::Unchanged => None,
            HighlightResult::Highlighted(v) => Some(v@),
        }
    }

    /// The bytes the pass produced, given the line it was applied to.
    pub open spec fn bytes_or(&self, original: Seq<u8>) -> Seq<u8> {
        match self {
            HighlightResult::Unchanged => original,
            HighlightResult::Highlighted(v) => v@,
        }
    }
}

/// A token grammar: where a token can start, where the token starting there
/// ends, and the styled bytes that replace it. Matching is deterministic,
/// and the engine applies it with leftmost, non-overlapping semantics.
pub trait Token {
    /// Whether a token starts at position `p` of `s`.
    spec fn match_at(&self, s: Seq<u8>, p: int) -> bool;

    /// Where the token starting at `p` ends (exclusive).
    spec fn match_end(&self, s: Seq<u8>, p: int) -> int;

    /// The styled bytes replacing `s[p..match_end]`.
    spec fn replacement(&self, s: Seq<u8>, p: int) -> Seq<u8>;

    /// A token is nonempty and ends within the line.
    proof fn lemma_match_end(&self, s: Seq<u8>, p: int)
        requires
            0 <= p < s.len(),
            self.match_at(s, p),
        ensures
            p < self.match_end(s, p) <= s.len(),
    ;

    /// Decide `match_at` at one position.
    fn probe(&self, hay: &[u8], p: usize) -> (r: bool)
        requires
            p < hay@.len(),
        ensures
            r == self.match_at(hay@, p as int),
    ;

    /// Append the replacement for the token at `p` and return its end.
    fn emit(&self, hay: &[u8], p: usize, out: &mut Vec<u8>) -> (e: usize)
        requires
            p < hay@.len(),
            self.match_at(hay@, p as int),
        ensures
            e == self.match_end(hay@, p as int),
            final(out)@ == old(out)@ + self.replacement(hay@, p as int),
    ;
}

/// The leftmost position at or after `p` where a token starts.
pub open spec fn find_from<T: Token>(t: &T, s: Seq<u8>, p: int) -> Option<int>
    decreases s.len() - p
        when 0 <= p <= s.len()
{
    if p >= s.len() {
        None
    } else if t.match_at(s, p) {
        Some(p)
    } else {
        find_from(t, s, p + 1)
    }
}

pub proof fn lemma_find_from<T: Token>(t: &T, s: Seq<u8>, p: int)
    requires
        0 <= p <= s.len(),
    ensures
        match find_from(t, s, p) {
            Some(q) => p <= q < s.len() && t.match_at(s, q) && forall|j: int|
                p <= j < q ==> !t.match_at(s, j),
            None => forall|j: int| p <= j < s.len() ==> !t.match_at(s, j),
        },
    decreases s.len() - p,
{
    if p < s.len() && !t.match_at(s, p) {
        lemma_find_from(t, s, p + 1);
    }
}

/// The rewritten remainder of `s` from position `p` on: everything before
/// the next token is copied, the token is replaced, and the rest follows
/// the same rule from the token's end.
pub open spec fn rewrite_from<T: Token>(t: &T, s: Seq<u8>, p: int) -> Seq<u8>
    decreases s.len() - p
        when 0 <= p <= s.len()
{
    match find_from(t, s, p) {
        None => s.subrange(p, s.len() as int),
        Some(q) => {
            let e = t.match_end(s, q);
            if p <= q && q < e && e <= s.len() {
                s.subrange(p, q) + t.replacement(s, q) + rewrite_from(t, s, e)
            } else {
                s.subrange(p, s.len() as int)
            }
        },
    }
}

/// Find the leftmost token at or after `from`.
pub fn find_match<T: Token>(t: &T, hay: &[u8], from: usize) -> (r: Option<usize>)
    requires
        from <= hay@.len(),
    ensures
        match r {
            None => find_from(t, hay@, from as int) is None,
            Some(q) => from <= q < hay@.len() && find_from(t, hay@, from as int) == Some(
                q as int,
            ) && t.match_at(hay@, q as int),
        },
{
    let mut i = from;
    loop
        invariant
            from <= i <= hay@.len(),
            find_from(t, hay@, from as int) == find_from(t, hay@, i as int),
        decreases hay@.len() - i,
    {
        if i >= hay.len() {
            return None;
        }
        if t.probe(hay, i) {
            return Some(i);
        }
        i += 1;
    }
}

/// One full pass: replace every token of `t` in `hay`, leftmost first,
/// without allocating when there is no token at all.
pub fn rewrite<T: Token>(t: &T, hay: &[u8]) -> (r: HighlightResult)
    ensures
        match r {
            HighlightResult::Unchanged => find_from(t, hay@, 0) is None,
            HighlightResult::Highlighted(v) => find_from(t, hay@, 0) is Some && v@
                == rewrite_from(t, hay@, 0),
        },
{
    let first = find_match(t, hay, 0);
    match first {
        None => HighlightResult::Unchanged,
        Some(q0) => {
            let ghost s = hay@;
            let mut out: Vec<u8> = Vec::new();
            crate::scan::append_range(&mut out, hay, 0, q0);
            proof {
                t.lemma_match_end(s, q0 as int);
            }
            let mut pos = t.emit(hay, q0, &mut out);
            proof {
                assert(rewrite_from(t, s, 0) == s.subrange(0, q0 as int) + t.replacement(
                    s,
                    q0 as int,
                ) + rewrite_from(t, s, pos as int));
                assert(out@ + rewrite_from(t, s, pos as int) =~= rewrite_from(t, s, 0));
            }
            loop
                invariant
                    0 <= pos <= s.len(),
                    s == hay@,
                    find_from(t, s, 0) is Some,
                    out@ + rewrite_from(t, s, pos as int) == rewrite_from(t, s, 0),
                decreases s.len() - pos,
            {
                match find_match(t, hay, pos) {
                    None => {
                        crate::scan::append_range(&mut out, hay, pos, hay.len());
                        proof {
                            assert(rewrite_from(t, s, pos as int) == s.subrange(
                                pos as int,
                                s.len() as int,
                            ));
                            assert(out@ =~= rewrite_from(t, s, 0));
                        }
                        return HighlightResult::Highlighted(out);
                    },
                    Some(q) => {
                        let ghost out0 = out@;
                        crate::scan::append_range(&mut out, hay, pos, q);
                        proof {
                            t.lemma_match_end(s, q as int);
                        }
                        let e = t.emit(hay, q, &mut out);
                        proof {
                            assert(rewrite_from(t, s, pos as int) == s.subrange(
                                pos as int,
                                q as int,
                            ) + t.replacement(s, q as int) + rewrite_from(t, s, e as int));
                            assert(out@ + rewrite_from(t, s, e as int) =~= out0 + rewrite_from(
                                t,
                                s,
                                pos as int,
                            ));
                        }
                        pos = e;
                    },
                }
            }
        },
    }
}

} // verus!
