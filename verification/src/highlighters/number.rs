//! Highlights standalone numbers: a maximal digit run with no word byte on
//! either side, styled as one span.

use vstd::prelude::*;
use crate::config::NumberConfig;
use crate::highlight::{find_from, rewrite_from, HighlightResult, Token};
use crate::scan::{run_end, spec_is_digit, spec_is_word, ByteClass};
use crate::style::{ansi_prefix, paint_spec};

verus! {

pub struct NumberHighlighter {
    pub number: Vec<u8>,
}

impl NumberHighlighter {
    pub fn new(config: NumberConfig) -> (r: Self)
        ensures
            r.number@ == ansi_prefix(config.style),
    {
        NumberHighlighter { number: crate::style::nu_style_prefix(&config.style) }
    }

    /// What one pass produces: `None` exactly when the line has no number
    /// token at all, otherwise every token replaced.
    pub open spec fn apply_spec(&self, s: Seq<u8>) -> Option<Seq<u8>> {
        if find_from(self, s, 0) is None {
            None
        } else {
            Some(rewrite_from(self, s, 0))
        }
    }

    pub fn apply(&self, input: &[u8]) -> (r: HighlightResult)
        ensures
            r.as_option() == self.apply_spec(input@),
            (forall|i: int| 0 <= i < input@.len() ==> !spec_is_digit(input@[i])) ==> r
                is Unchanged,
    {
        if !crate::scan::has_class_byte(input, ByteClass::Digit) {
            proof {
                crate::highlight::lemma_find_from(self, input@, 0);
            }
            return HighlightResult::Unchanged;
        }
        crate::highlight::rewrite(self, input)
    }
}

impl Token for NumberHighlighter {
    open spec fn match_at(&self, s: Seq<u8>, p: int) -> bool {
        &&& spec_is_digit(s[p])
        &&& (p == 0 || !spec_is_word(s[p - 1]))
        &&& {
            let e = run_end(s, p, ByteClass::Digit);
            e == s.len() || !spec_is_word(s[e])
        }
    }

    open spec fn match_end(&self, s: Seq<u8>, p: int) -> int {
        run_end(s, p, ByteClass::Digit)
    }

    open spec fn replacement(&self, s: Seq<u8>, p: int) -> Seq<u8> {
        paint_spec(self.number@, s.subrange(p, run_end(s, p, ByteClass::Digit)))
    }

    proof fn lemma_match_end(&self, s: Seq<u8>, p: int) {
        crate::scan::lemma_run_end(s, p + 1, ByteClass::Digit);
    }

    fn probe(&self, hay: &[u8], p: usize) -> (r: bool) {
        if !crate::scan::is_digit(hay[p]) {
            return false;
        }
        if p > 0 && crate::scan::is_word(hay[p - 1]) {
            return false;
        }
        let e = crate::scan::scan_run(hay, p, ByteClass::Digit);
        e == hay.len() || !crate::scan::is_word(hay[e])
    }

    fn emit(&self, hay: &[u8], p: usize, out: &mut Vec<u8>) -> (e: usize) {
        let e = crate::scan::scan_run(hay, p, ByteClass::Digit);
        crate::style::paint_push(out, &self.number, hay, p, e);
        e
    }
}

} // verus!
