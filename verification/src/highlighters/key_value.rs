//! Highlights `key=value` pairs: a bareword immediately preceded by the
//! start of the line or a whitespace byte and followed by `=`. Only the key
//! and the `=` are styled; the value is arbitrary and left untouched.

use vstd::prelude::*;
use crate::config::KeyValueConfig;
use crate::highlight::{find_from, rewrite_from, HighlightResult, Token};
use crate::scan::{contains_byte, run_end, spec_is_space, spec_is_word, ByteClass};
use crate::style::{ansi_prefix, paint_spec};

verus! {

pub struct KeyValueHighlighter {
    pub key: Vec<u8>,
    pub separator: Vec<u8>,
}

/// Whether a key (a nonempty word run) starts at `k` and is immediately
/// followed by `=`.
pub open spec fn key_ok(s: Seq<u8>, k: int) -> bool {
    &&& k < s.len()
    &&& spec_is_word(s[k])
    &&& {
        let e = run_end(s, k, ByteClass::Word);
        e < s.len() && s[e] == 61
    }
}

/// Where the key of the pair matched at `p` starts: at `p` itself when the
/// pair stands at the start of the line, after the whitespace byte otherwise.
pub open spec fn key_start(s: Seq<u8>, p: int) -> int {
    if p == 0 && spec_is_word(s[0]) {
        0
    } else {
        p + 1
    }
}

impl KeyValueHighlighter {
    pub fn new(config: KeyValueConfig) -> (r: Self)
        ensures
            r.key@ == ansi_prefix(config.key),
            r.separator@ == ansi_prefix(config.separator),
    {
        KeyValueHighlighter {
            key: crate::style::nu_style_prefix(&config.key),
            separator: crate::style::nu_style_prefix(&config.separator),
        }
    }

    /// What one pass produces: `None` when the line has no `=` at all, or no
    /// well-placed pair; otherwise every pair's key and `=` styled.
    pub open spec fn apply_spec(&self, s: Seq<u8>) -> Option<Seq<u8>> {
        if !contains_byte(s, 61) || find_from(self, s, 0) is None {
            None
        } else {
            Some(rewrite_from(self, s, 0))
        }
    }

    pub fn apply(&self, input: &[u8]) -> (r: HighlightResult)
        ensures
            r.as_option() == self.apply_spec(input@),
            !contains_byte(input@, 61) ==> r is Unchanged,
    {
        if !crate::scan::has_byte(input, 61) {
            return HighlightResult::Unchanged;
        }
        crate::highlight::rewrite(self, input)
    }
}

impl Token for KeyValueHighlighter {
    open spec fn match_at(&self, s: Seq<u8>, p: int) -> bool {
        ||| (p == 0 && 0 < s.len() && spec_is_word(s[0]) && key_ok(s, 0))
        ||| (0 <= p < s.len() && spec_is_space(s[p]) && key_ok(s, p + 1))
    }

    open spec fn match_end(&self, s: Seq<u8>, p: int) -> int {
        run_end(s, key_start(s, p), ByteClass::Word) + 1
    }

    open spec fn replacement(&self, s: Seq<u8>, p: int) -> Seq<u8> {
        let k = key_start(s, p);
        let e = run_end(s, k, ByteClass::Word);
        s.subrange(p, k) + paint_spec(self.key@, s.subrange(k, e)) + paint_spec(
            self.separator@,
            seq![61u8],
        )
    }

    proof fn lemma_match_end(&self, s: Seq<u8>, p: int) {
        let k = key_start(s, p);
        crate::scan::lemma_run_end(s, k, ByteClass::Word);
    }

    fn probe(&self, hay: &[u8], p: usize) -> (r: bool) {
        let n = hay.len();
        let k: usize;
        if p == 0 && crate::scan::is_word(hay[0]) {
            k = 0;
        } else {
            if !crate::scan::is_space(hay[p]) {
                return false;
            }
            k = p + 1;
        }
        if k >= n || !crate::scan::is_word(hay[k]) {
            return false;
        }
        let e = crate::scan::scan_run(hay, k, ByteClass::Word);
        e < n && hay[e] == 61
    }

    fn emit(&self, hay: &[u8], p: usize, out: &mut Vec<u8>) -> (e: usize) {
        let ghost out0 = out@;
        let ghost s = hay@;
        let n = hay.len();
        let k: usize = if p == 0 && crate::scan::is_word(hay[0]) {
            0
        } else {
            p + 1
        };
        proof {
            assert(k as int == key_start(s, p as int));
            assert(key_ok(s, k as int));
            crate::scan::lemma_run_end(s, k as int, ByteClass::Word);
        }
        let e = crate::scan::scan_run(hay, k, ByteClass::Word);
        assert(e < n && s[e as int] == 61);
        crate::scan::append_range(out, hay, p, k);
        crate::style::paint_push(out, &self.key, hay, k, e);
        crate::style::paint_push(out, &self.separator, hay, e, e + 1);
        proof {
            assert(s.subrange(e as int, e + 1 as int) =~= seq![61u8]);
            assert(out@ =~= out0 + self.replacement(s, p as int));
        }
        e + 1
    }
}

} // verus!
