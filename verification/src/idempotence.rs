//! Idempotence of the escape-aware wrapper: applying the wrapped quote
//! highlighter twice to a line yields the same bytes as applying it once,
//! and the second pass changes nothing — already-colored regions are never
//! re-entered.
//!
//! The law is proved for lines that hold no escape byte of their own (the
//! plain text a log source produces) and for a non-plain quote style. A
//! plain style is a genuine exception: it colors a quote with an empty
//! start code, so the quote bytes stay outside any colored region and a
//! second pass wraps them again.

use vstd::prelude::*;
use crate::highlighters::quote::{
    lemma_quote_plain_nesting, lemma_simple_identity, lemma_simple_skip_inside,
    lemma_simple_skip_outside, simple_quote_out, QuoteHighlighter,
};
use crate::highlighters::Highlighter;
use crate::scan::{
    count_from, find_sub, lemma_byte_needle_at, lemma_count_from_eq_count_byte,
    lemma_count_from_split, lemma_count_from_zero_iff, lemma_find_sub, lemma_find_sub_is,
};
use crate::split_and_apply::{
    any_changed, lemma_escape_at, lemma_reset_at, lemma_wrapped_tail_shift, wrapped_tail,
};
use crate::style::{clean_start_code, escape_seq, lemma_ansi_prefix_clean, reset_seq, Style};

verus! {

/// A text the wrapper leaves alone: scanning it finds no marker, and the
/// quote pass finds nothing to do in it.
proof fn lemma_inert_text(q: QuoteHighlighter, t: Seq<u8>)
    requires
        forall|j: int| 0 <= j < t.len() ==> t[j] != 27,
        forall|j: int| 0 <= j < t.len() ==> t[j] != q.quotes_token,
    ensures
        wrapped_tail(&Highlighter::Quote(q), t, 0) == t,
        !any_changed(&Highlighter::Quote(q), t, 0),
{
    let h = Highlighter::Quote(q);
    if t.len() == 0 {
        assert(wrapped_tail(&h, t, 0) =~= t);
    } else {
        assert forall|j: int| 0 <= j implies !crate::scan::is_sub_at(t, escape_seq(), j) by {
            lemma_escape_at(t, j);
        }
        lemma_find_sub_is(t, escape_seq(), 0, None);
        lemma_count_from_zero_iff(t, 0, q.quotes_token);
        lemma_count_from_eq_count_byte(t, q.quotes_token);
        assert(q.apply_spec(t.subrange(0, t.len() as int)) is None) by {
            assert(t.subrange(0, t.len() as int) =~= t);
        }
        assert(wrapped_tail(&h, t, 0) == h.out_bytes(t.subrange(0, t.len() as int)));
        assert(t.subrange(0, t.len() as int) =~= t);
    }
}

/// The machine's rendering of the even-quoted remainder `s[i..]` is a fixed
/// point of the wrapper: its colored regions — quote color to canonical
/// reset — are skipped verbatim, and the stretches between quotes hold no
/// quote byte, so the quote pass leaves them alone.
#[verifier::rlimit(100)]
proof fn lemma_rendered_tail_fixed(q: QuoteHighlighter, s: Seq<u8>, i: int)
    requires
        0 <= i <= s.len(),
        q.quotes_token != 27,
        clean_start_code(q.color@),
        forall|j: int| i <= j < s.len() ==> s[j] != 27,
        count_from(s, i, q.quotes_token) % 2 == 0,
    ensures
        ({
            let o = simple_quote_out(q.color@, q.quotes_token, s, i, false);
            wrapped_tail(&Highlighter::Quote(q), o, 0) == o && !any_changed(
                &Highlighter::Quote(q),
                o,
                0,
            )
        }),
    decreases s.len() - i,
{
    let h = Highlighter::Quote(q);
    let tok = q.quotes_token;
    let color = q.color@;
    let o = simple_quote_out(color, tok, s, i, false);
    lemma_find_sub(s, seq![tok], i);
    match find_sub(s, seq![tok], i) {
        None => {
            assert forall|j: int| i <= j < s.len() implies s[j] != tok by {
                lemma_byte_needle_at(s, tok, j);
            }
            lemma_simple_identity(color, tok, s, i);
            assert forall|j: int| 0 <= j < o.len() implies o[j] != 27 && o[j] != tok by {
                assert(o[j] == s[i + j]);
            }
            lemma_inert_text(q, o);
        },
        Some(a) => {
            lemma_byte_needle_at(s, tok, a);
            assert forall|j: int| i <= j < a implies s[j] != tok by {
                lemma_byte_needle_at(s, tok, j);
            }
            // the closing quote exists because the count from `i` is even
            lemma_count_from_split(s, i, a, tok);
            lemma_find_sub(s, seq![tok], a + 1);
            if find_sub(s, seq![tok], a + 1) is None {
                assert forall|j: int| a + 1 <= j < s.len() implies s[j] != tok by {
                    lemma_byte_needle_at(s, tok, j);
                }
                lemma_count_from_zero_iff(s, a + 1, tok);
                assert(false);
            }
            let b = find_sub(s, seq![tok], a + 1)->Some_0;
            lemma_byte_needle_at(s, tok, b);
            assert forall|j: int| a + 1 <= j < b implies s[j] != tok by {
                lemma_byte_needle_at(s, tok, j);
            }
            lemma_count_from_split(s, a + 1, b, tok);
            // the tail after the closing quote is even again
            assert(count_from(s, b + 1, tok) % 2 == 0);
            lemma_rendered_tail_fixed(q, s, b + 1);
            // decompose the rendering: copied stretch, colored region, rest
            let la = a - i;
            let lc = color.len() as int;
            let lm = b - a - 1;
            let lr = lc + lm + 6;
            let aa = s.subrange(i, a);
            let m = s.subrange(a + 1, b);
            let o2 = simple_quote_out(color, tok, s, b + 1, false);
            let r = color + seq![tok] + m + seq![tok] + reset_seq();
            lemma_simple_skip_outside(color, tok, s, i, a);
            assert(simple_quote_out(color, tok, s, a, false) == color + seq![s[a]]
                + simple_quote_out(color, tok, s, a + 1, true));
            lemma_simple_skip_inside(color, tok, s, a + 1, b);
            assert(simple_quote_out(color, tok, s, b, true) == seq![s[b]] + reset_seq()
                + simple_quote_out(color, tok, s, b + 1, false));
            assert(o =~= (aa + r) + o2);
            assert(r.len() == lr);
            assert(o.len() == la + lr + o2.len());
            // byte layout of the colored region
            assert(o[la] == 27 && o[la + 1] == 91);
            assert(o[la + 2] == color[2]);
            assert forall|j: int| la < j < la + lr - 4 implies o[j] != 27 by {
                let k = j - la;
                if k < lc {
                    assert(o[j] == color[k]);
                } else if k == lc {
                    assert(o[j] == tok);
                } else if k < lc + 1 + lm {
                    assert(o[j] == m[k - lc - 1]);
                    assert(m[k - lc - 1] == s[a + 1 + (k - lc - 1)]);
                } else {
                    assert(o[j] == tok);
                }
            }
            assert(o[la + lr - 4] == 27 && o[la + lr - 3] == 91 && o[la + lr - 2] == 48 && o[la
                + lr - 1] == 109);
            // the wrapper finds the region's start, then its reset
            assert forall|j: int| 0 <= j < la implies !crate::scan::is_sub_at(
                o,
                escape_seq(),
                j,
            ) by {
                lemma_escape_at(o, j);
                assert(o[j] == s[i + j]);
            }
            lemma_escape_at(o, la);
            lemma_find_sub_is(o, escape_seq(), 0, Some(la));
            assert forall|j: int| la <= j < la + lr - 4 implies !crate::scan::is_sub_at(
                o,
                reset_seq(),
                j,
            ) by {
                lemma_reset_at(o, j);
            }
            lemma_reset_at(o, la + lr - 4);
            lemma_find_sub_is(o, reset_seq(), la, Some(la + lr - 4));
            // the stretch before the region holds no quote byte
            let chunk = o.subrange(0, la);
            assert(chunk =~= aa);
            assert forall|j: int| 0 <= j < aa.len() implies aa[j] != tok by {
                assert(aa[j] == s[i + j]);
            }
            lemma_count_from_zero_iff(aa, 0, tok);
            lemma_count_from_eq_count_byte(aa, tok);
            assert(q.apply_spec(aa) is None);
            // the rest of the line is handled by induction, shifted past
            lemma_wrapped_tail_shift(&h, aa + r, o2, 0);
            assert(o == (aa + r) + o2);
            assert((aa + r).len() == la + lr);
            assert(wrapped_tail(&h, o, la + lr) == wrapped_tail(&h, o2, 0));
            assert(any_changed(&h, o, la + lr) == any_changed(&h, o2, 0));
            // assemble
            assert(o.subrange(la, la + lr) =~= r);
            assert(wrapped_tail(&h, o, 0) == h.out_bytes(chunk) + (o.subrange(la, la + lr)
                + wrapped_tail(&h, o, la + lr)));
            assert(aa + (r + o2) =~= o);
            assert(wrapped_tail(&h, o, 0) == o);
            assert(any_changed(&h, o, 0) == ((h.apply_spec(chunk) is Some) || any_changed(
                &h,
                o,
                la + lr,
            )));
        },
    }
}

/// Idempotence of the escape-aware wrapper around the quote highlighter:
/// on a line with no escape byte of its own, with a quote highlighter built
/// from a non-plain style, applying the wrapped highlighter a second time
/// changes nothing — the second pass's output is byte-identical to the
/// first's, and no chunk of it is touched.
pub proof fn lemma_wrapped_quote_idempotent(q: QuoteHighlighter, st: Style, s: Seq<u8>)
    requires
        q.quotes_token != 27,
        !st.is_plain(),
        q.color@ == crate::style::ansi_prefix(st),
        forall|j: int| 0 <= j < s.len() ==> s[j] != 27,
    ensures
        ({
            let once = wrapped_tail(&Highlighter::Quote(q), s, 0);
            wrapped_tail(&Highlighter::Quote(q), once, 0) == once && !any_changed(
                &Highlighter::Quote(q),
                once,
                0,
            )
        }),
{
    lemma_ansi_prefix_clean(st);
    let h = Highlighter::Quote(q);
    let tok = q.quotes_token;
    let color = q.color@;
    let once = wrapped_tail(&h, s, 0);
    if s.len() == 0 {
        assert(once =~= Seq::<u8>::empty());
        assert(wrapped_tail(&h, once, 0) =~= once);
    } else {
        // the first pass sees the whole line as one uncolored chunk
        assert forall|j: int| 0 <= j implies !crate::scan::is_sub_at(s, escape_seq(), j) by {
            lemma_escape_at(s, j);
        }
        lemma_find_sub_is(s, escape_seq(), 0, None);
        assert(s.subrange(0, s.len() as int) =~= s);
        assert(once == h.out_bytes(s));
        let c = crate::scan::count_byte(s, tok);
        lemma_count_from_eq_count_byte(s, tok);
        if c == 0 || c % 2 != 0 {
            // nothing was colored: the second pass repeats the first
            assert(q.apply_spec(s) is None);
            assert(once == s);
            assert(wrapped_tail(&h, once, 0) == h.out_bytes(s));
            assert(any_changed(&h, once, 0) == (q.apply_spec(s) is Some));
        } else {
            assert(q.apply_spec(s) == Some(
                crate::highlighters::quote::quote_out(color, tok, s, 0, false, seq![]),
            ));
            lemma_quote_plain_nesting(color, tok, s, 0, false);
            assert(once == simple_quote_out(color, tok, s, 0, false));
            lemma_rendered_tail_fixed(q, s, 0);
        }
    }
}

} // verus!
