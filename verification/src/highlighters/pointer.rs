//! Highlights memory pointers: `0x` followed by exactly 8 (32-bit) or
//! exactly 16 (64-bit) hex digits on a word boundary. The two widths are
//! mutually exclusive alternatives; a 64-bit pointer additionally gets a
//! configurable separator between its two halves.

use vstd::prelude::*;
use crate::config::PointerConfig;
use crate::highlight::{find_from, rewrite_from, HighlightResult, Token};
use crate::highlighters::{all_hex, check_all_hex, hex_colored, push_hex_colored};
use crate::scan::{contains_byte, spec_is_word};
use crate::style::{ansi_prefix, paint_spec};

verus! {

pub struct PointerHighlighter {
    pub number: Vec<u8>,
    pub letter: Vec<u8>,
    pub separator: Vec<u8>,
    pub separator_token: Vec<u8>,
    pub x: Vec<u8>,
}

/// A 32-bit pointer at `p`: `0x`, 8 hex digits, word boundaries both sides.
pub open spec fn ptr32_at(s: Seq<u8>, p: int) -> bool {
    &&& 0 <= p
    &&& p + 10 <= s.len()
    &&& (p == 0 || !spec_is_word(s[p - 1]))
    &&& s[p] == 48
    &&& (s[p + 1] == 120 || s[p + 1] == 88)
    &&& all_hex(s, p + 2, p + 10)
    &&& (p + 10 == s.len() || !spec_is_word(s[p + 10]))
}

/// A 64-bit pointer at `p`: `0x`, 16 hex digits, word boundaries both sides.
pub open spec fn ptr64_at(s: Seq<u8>, p: int) -> bool {
    &&& 0 <= p
    &&& p + 18 <= s.len()
    &&& (p == 0 || !spec_is_word(s[p - 1]))
    &&& s[p] == 48
    &&& (s[p + 1] == 120 || s[p + 1] == 88)
    &&& all_hex(s, p + 2, p + 18)
    &&& (p + 18 == s.len() || !spec_is_word(s[p + 18]))
}

impl PointerHighlighter {
    pub fn new(config: PointerConfig) -> (r: Self)
        ensures
            r.number@ == ansi_prefix(config.number),
            r.letter@ == ansi_prefix(config.letter),
            r.separator@ == ansi_prefix(config.separator),
            r.separator_token@ == config.separator_token@,
            r.x@ == ansi_prefix(config.x),
    {
        PointerHighlighter {
            number: crate::style::nu_style_prefix(&config.number),
            letter: crate::style::nu_style_prefix(&config.letter),
            separator: crate::style::nu_style_prefix(&config.separator),
            separator_token: config.separator_token,
            x: crate::style::nu_style_prefix(&config.x),
        }
    }

    /// What one pass produces: `None` when the line has no `x` or `X` byte at
    /// all, or no pointer; otherwise every pointer styled byte by byte.
    pub open spec fn apply_spec(&self, s: Seq<u8>) -> Option<Seq<u8>> {
        if (!contains_byte(s, 120) && !contains_byte(s, 88)) || find_from(self, s, 0) is None {
            None
        } else {
            Some(rewrite_from(self, s, 0))
        }
    }

    pub fn apply(&self, input: &[u8]) -> (r: HighlightResult)
        ensures
            r.as_option() == self.apply_spec(input@),
            (!contains_byte(input@, 120) && !contains_byte(input@, 88)) ==> r is Unchanged,
    {
        if !crate::scan::has_byte(input, 120) && !crate::scan::has_byte(input, 88) {
            return HighlightResult::Unchanged;
        }
        crate::highlight::rewrite(self, input)
    }
}

impl Token for PointerHighlighter {
    open spec fn match_at(&self, s: Seq<u8>, p: int) -> bool {
        ptr32_at(s, p) || ptr64_at(s, p)
    }

    open spec fn match_end(&self, s: Seq<u8>, p: int) -> int {
        if ptr32_at(s, p) {
            p + 10
        } else {
            p + 18
        }
    }

    open spec fn replacement(&self, s: Seq<u8>, p: int) -> Seq<u8> {
        let head = hex_colored(self.number@, self.letter@, self.x@, 120, 88, s, p, p + 10);
        if ptr32_at(s, p) {
            head
        } else {
            head + paint_spec(self.separator@, self.separator_token@) + hex_colored(
                self.number@,
                self.letter@,
                self.x@,
                120,
                88,
                s,
                p + 10,
                p + 18,
            )
        }
    }

    proof fn lemma_match_end(&self, s: Seq<u8>, p: int) {
    }

    fn probe(&self, hay: &[u8], p: usize) -> (r: bool) {
        let n = hay.len();
        if p > 0 && crate::scan::is_word(hay[p - 1]) {
            return false;
        }
        if n - p < 10 {
            return false;
        }
        if hay[p] != 48 || (hay[p + 1] != 120 && hay[p + 1] != 88) {
            return false;
        }
        if check_all_hex(hay, p + 2, p + 10) && (p + 10 == n || !crate::scan::is_word(
            hay[p + 10],
        )) {
            return true;
        }
        if n - p < 18 {
            return false;
        }
        check_all_hex(hay, p + 2, p + 18) && (p + 18 == n || !crate::scan::is_word(hay[p + 18]))
    }

    fn emit(&self, hay: &[u8], p: usize, out: &mut Vec<u8>) -> (e: usize) {
        let ghost out0 = out@;
        let ghost s = hay@;
        let n = hay.len();
        let is32 = check_all_hex(hay, p + 2, p + 10) && (p + 10 == n || !crate::scan::is_word(
            hay[p + 10],
        ));
        push_hex_colored(out, &self.number, &self.letter, &self.x, 120, 88, hay, p, p + 10);
        if is32 {
            proof {
                assert(ptr32_at(s, p as int));
            }
            p + 10
        } else {
            proof {
                assert(!ptr32_at(s, p as int));
                assert(ptr64_at(s, p as int));
            }
            crate::style::paint_push(
                out,
                &self.separator,
                self.separator_token.as_slice(),
                0,
                self.separator_token.len(),
            );
            push_hex_colored(
                out,
                &self.number,
                &self.letter,
                &self.x,
                120,
                88,
                hay,
                p + 10,
                p + 18,
            );
            proof {
                assert(self.separator_token@.subrange(0, self.separator_token@.len() as int)
                    =~= self.separator_token@);
                assert(out@ =~= out0 + self.replacement(s, p as int));
            }
            p + 18
        }
    }
}

} // verus!
