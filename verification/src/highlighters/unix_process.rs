//! Highlights `process[pid]` markers: either a bare process name or a
//! parenthesized display name, immediately followed by a bracketed numeric
//! process id. Name, brackets and pid are each styled independently.

use vstd::prelude::*;
use crate::config::UnixProcessConfig;
use crate::highlight::{find_from, rewrite_from, HighlightResult, Token};
use crate::scan::{class_holds, contains_byte, run_end, ByteClass};
use crate::style::{ansi_prefix, paint_spec};

verus! {

pub struct UnixProcessHighlighter {
    pub name: Vec<u8>,
    pub id: Vec<u8>,
    pub bracket: Vec<u8>,
}

/// Whether `[pid]` with a nonempty digit run starts at `i`.
pub open spec fn bracket_ok(s: Seq<u8>, i: int) -> bool {
    &&& 0 <= i < s.len()
    &&& s[i] == 91
    &&& {
        let d = run_end(s, i + 1, ByteClass::Digit);
        d > i + 1 && d < s.len() && s[d] == 93
    }
}

/// A parenthesized display name at `p`, followed by `[pid]`.
pub open spec fn paren_name_at(s: Seq<u8>, p: int) -> bool {
    &&& 0 <= p < s.len()
    &&& s[p] == 40
    &&& {
        let r = run_end(s, p + 1, ByteClass::ProcParen);
        r > p + 1 && r < s.len() && s[r] == 41 && bracket_ok(s, r + 1)
    }
}

/// A bare process name at `p`, followed by `[pid]`.
pub open spec fn bare_name_at(s: Seq<u8>, p: int) -> bool {
    &&& 0 <= p < s.len()
    &&& class_holds(ByteClass::ProcBare, s[p])
    &&& bracket_ok(s, run_end(s, p, ByteClass::ProcBare))
}

/// Where the name (parens included) matched at `p` ends.
pub open spec fn name_end(s: Seq<u8>, p: int) -> int {
    if paren_name_at(s, p) {
        run_end(s, p + 1, ByteClass::ProcParen) + 1
    } else {
        run_end(s, p, ByteClass::ProcBare)
    }
}

impl UnixProcessHighlighter {
    pub fn new(config: UnixProcessConfig) -> (r: Self)
        ensures
            r.name@ == ansi_prefix(config.name),
            r.id@ == ansi_prefix(config.id),
            r.bracket@ == ansi_prefix(config.bracket),
    {
        UnixProcessHighlighter {
            name: crate::style::nu_style_prefix(&config.name),
            id: crate::style::nu_style_prefix(&config.id),
            bracket: crate::style::nu_style_prefix(&config.bracket),
        }
    }

    /// What one pass produces: `None` when the line has no `[` byte at all,
    /// or no process marker; otherwise every marker styled.
    pub open spec fn apply_spec(&self, s: Seq<u8>) -> Option<Seq<u8>> {
        if !contains_byte(s, 91) || find_from(self, s, 0) is None {
            None
        } else {
            Some(rewrite_from(self, s, 0))
        }
    }

    pub fn apply(&self, input: &[u8]) -> (r: HighlightResult)
        ensures
            r.as_option() == self.apply_spec(input@),
            !contains_byte(input@, 91) ==> r is Unchanged,
    {
        if !crate::scan::has_byte(input, 91) {
            return HighlightResult::Unchanged;
        }
        crate::highlight::rewrite(self, input)
    }
}

impl Token for UnixProcessHighlighter {
    open spec fn match_at(&self, s: Seq<u8>, p: int) -> bool {
        paren_name_at(s, p) || bare_name_at(s, p)
    }

    open spec fn match_end(&self, s: Seq<u8>, p: int) -> int {
        run_end(s, name_end(s, p) + 1, ByteClass::Digit) + 1
    }

    open spec fn replacement(&self, s: Seq<u8>, p: int) -> Seq<u8> {
        let ne = name_end(s, p);
        let d = run_end(s, ne + 1, ByteClass::Digit);
        paint_spec(self.name@, s.subrange(p, ne)) + paint_spec(self.bracket@, seq![91u8])
            + paint_spec(self.id@, s.subrange(ne + 1, d)) + paint_spec(self.bracket@, seq![93u8])
    }

    proof fn lemma_match_end(&self, s: Seq<u8>, p: int) {
        let ne = name_end(s, p);
        if paren_name_at(s, p) {
            crate::scan::lemma_run_end(s, p + 1, ByteClass::ProcParen);
        } else {
            crate::scan::lemma_run_end(s, p, ByteClass::ProcBare);
        }
        crate::scan::lemma_run_end(s, ne + 1, ByteClass::Digit);
    }

    fn probe(&self, hay: &[u8], p: usize) -> (r: bool) {
        let ne: usize;
        if hay[p] == 40 {
            let r = crate::scan::scan_run(hay, p + 1, ByteClass::ProcParen);
            if !(r > p + 1 && r < hay.len() && hay[r] == 41) {
                return false;
            }
            ne = r + 1;
        } else if crate::scan::byte_in_class(ByteClass::ProcBare, hay[p]) {
            ne = crate::scan::scan_run(hay, p, ByteClass::ProcBare);
        } else {
            return false;
        }
        if !(ne < hay.len() && hay[ne] == 91) {
            return false;
        }
        let d = crate::scan::scan_run(hay, ne + 1, ByteClass::Digit);
        d > ne + 1 && d < hay.len() && hay[d] == 93
    }

    #[verifier::rlimit(50)]
    fn emit(&self, hay: &[u8], p: usize, out: &mut Vec<u8>) -> (e: usize) {
        let ghost out0 = out@;
        let ghost s = hay@;
        let n = hay.len();
        let ne: usize;
        if hay[p] == 40 {
            let r = crate::scan::scan_run(hay, p + 1, ByteClass::ProcParen);
            assert(paren_name_at(s, p as int));
            ne = r + 1;
        } else {
            assert(!paren_name_at(s, p as int) && bare_name_at(s, p as int));
            ne = crate::scan::scan_run(hay, p, ByteClass::ProcBare);
        }
        assert(ne == name_end(s, p as int));
        assert(bracket_ok(s, ne as int));
        let d = crate::scan::scan_run(hay, ne + 1, ByteClass::Digit);
        assert(d < n && s[d as int] == 93);
        crate::style::paint_push(out, &self.name, hay, p, ne);
        crate::style::paint_push(out, &self.bracket, hay, ne, ne + 1);
        let ghost mid = out@;
        crate::style::paint_push(out, &self.id, hay, ne + 1, d);
        crate::style::paint_push(out, &self.bracket, hay, d, d + 1);
        proof {
            assert(s.subrange(ne as int, ne + 1 as int) =~= seq![91u8]);
            assert(s.subrange(d as int, d + 1 as int) =~= seq![93u8]);
            assert(mid =~= out0 + paint_spec(self.name@, s.subrange(p as int, ne as int))
                + paint_spec(self.bracket@, seq![91u8]));
            assert(out@ =~= mid + paint_spec(self.id@, s.subrange(ne + 1 as int, d as int))
                + paint_spec(self.bracket@, seq![93u8]));
            assert(out@ =~= out0 + self.replacement(s, p as int));
        }
        d + 1
    }
}

} // verus!
