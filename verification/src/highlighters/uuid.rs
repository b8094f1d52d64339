//! Highlights UUIDs: five dash-separated hex segments of 8-4-4-4-12 digits,
//! each byte styled on its own (digits, hex letters and dashes each with
//! their own style).

use vstd::prelude::*;
use crate::config::UuidConfig;
use crate::highlight::{find_from, rewrite_from, HighlightResult, Token};
use crate::highlighters::{all_hex, check_all_hex, class_hex, hex_colored, push_hex_colored};
use crate::scan::spec_is_word;
use crate::style::ansi_prefix;

verus! {

pub struct UuidHighlighter {
    pub number: Vec<u8>,
    pub letter: Vec<u8>,
    pub dash: Vec<u8>,
}

impl UuidHighlighter {
    pub fn new(config: UuidConfig) -> (r: Self)
        ensures
            r.number@ == ansi_prefix(config.number),
            r.letter@ == ansi_prefix(config.letter),
            r.dash@ == ansi_prefix(config.dash),
    {
        UuidHighlighter {
            number: crate::style::nu_style_prefix(&config.number),
            letter: crate::style::nu_style_prefix(&config.letter),
            dash: crate::style::nu_style_prefix(&config.dash),
        }
    }

    /// What one pass produces: `None` exactly when the line holds no UUID.
    pub open spec fn apply_spec(&self, s: Seq<u8>) -> Option<Seq<u8>> {
        if find_from(self, s, 0) is None {
            None
        } else {
            Some(rewrite_from(self, s, 0))
        }
    }

    pub fn apply(&self, input: &[u8]) -> (r: HighlightResult)
        ensures
            r.as_option() == self.apply_spec(input@),
            (forall|i: int| 0 <= i < input@.len() ==> input@[i] != 45) ==> r is Unchanged,
    {
        proof {
            if exists|p: int| 0 <= p < input@.len() && self.match_at(input@, p) {
                let p = choose|p: int| 0 <= p < input@.len() && self.match_at(input@, p);
                assert(input@[p + 8] == 45);
            }
            crate::highlight::lemma_find_from(self, input@, 0);
        }
        crate::highlight::rewrite(self, input)
    }
}

impl Token for UuidHighlighter {
    open spec fn match_at(&self, s: Seq<u8>, p: int) -> bool {
        &&& 0 <= p
        &&& p + 36 <= s.len()
        &&& (p == 0 || !spec_is_word(s[p - 1]))
        &&& all_hex(s, p, p + 8)
        &&& s[p + 8] == 45
        &&& all_hex(s, p + 9, p + 13)
        &&& s[p + 13] == 45
        &&& all_hex(s, p + 14, p + 18)
        &&& s[p + 18] == 45
        &&& all_hex(s, p + 19, p + 23)
        &&& s[p + 23] == 45
        &&& all_hex(s, p + 24, p + 36)
        &&& (p + 36 == s.len() || !spec_is_word(s[p + 36]))
    }

    open spec fn match_end(&self, s: Seq<u8>, p: int) -> int {
        p + 36
    }

    open spec fn replacement(&self, s: Seq<u8>, p: int) -> Seq<u8> {
        hex_colored(self.number@, self.letter@, self.dash@, 45, 45, s, p, p + 36)
    }

    proof fn lemma_match_end(&self, s: Seq<u8>, p: int) {
    }

    fn probe(&self, hay: &[u8], p: usize) -> (r: bool) {
        if hay.len() - p < 36 {
            return false;
        }
        if p > 0 && crate::scan::is_word(hay[p - 1]) {
            return false;
        }
        if p + 36 < hay.len() && crate::scan::is_word(hay[p + 36]) {
            return false;
        }
        if hay[p + 8] != 45 || hay[p + 13] != 45 || hay[p + 18] != 45 || hay[p + 23] != 45 {
            return false;
        }
        check_all_hex(hay, p, p + 8) && check_all_hex(hay, p + 9, p + 13) && check_all_hex(
            hay,
            p + 14,
            p + 18,
        ) && check_all_hex(hay, p + 19, p + 23) && check_all_hex(hay, p + 24, p + 36)
    }

    fn emit(&self, hay: &[u8], p: usize, out: &mut Vec<u8>) -> (e: usize) {
        let n = hay.len();
        assert(p + 36 <= n);
        push_hex_colored(out, &self.number, &self.letter, &self.dash, 45, 45, hay, p, p + 36);
        p + 36
    }
}

} // verus!
