//! Highlights quoted segments with a byte-at-a-time state machine. Quoted
//! text may already contain colored sub-spans from earlier pipeline stages;
//! when the machine sees the canonical reset code inside a quote it
//! re-asserts the quote's own color right after it, so nested coloring
//! resumes the quote color instead of falling back to the terminal default.
//!
//! A line whose quote-byte count is zero or odd is passed through unchanged:
//! an unterminated quote could not be colored unambiguously.

use vstd::prelude::*;
use crate::config::QuotesConfig;
use crate::highlight::HighlightResult;
use crate::scan::{count_byte, is_prefix};
use crate::style::{ansi_prefix, reset_seq};

verus! {

pub struct QuoteHighlighter {
    pub quotes_token: u8,
    pub color: Vec<u8>,
}

/// One transition of the state machine. The state is (inside-quote,
/// pending-reset buffer); the result adds the emitted bytes.
///
/// Outside a quote, a quote byte emits the quote color then the byte;
/// anything else is copied. Inside a quote, a quote byte emits the byte then
/// the canonical reset; any other byte goes into the pending buffer, which
/// is flushed followed by a fresh quote color when it completes the reset
/// code, flushed bare as soon as it can no longer become one, and kept
/// otherwise.
pub open spec fn quote_step(color: Seq<u8>, token: u8, inside: bool, buf: Seq<u8>, b: u8) -> (
    bool,
    Seq<u8>,
    Seq<u8>,
) {
    if !inside {
        if b == token {
            (true, seq![], color + seq![b])
        } else {
            (false, seq![], seq![b])
        }
    } else if b == token {
        (false, seq![], seq![b] + reset_seq())
    } else {
        let nb = buf.push(b);
        if nb == reset_seq() {
            (true, seq![], nb + color)
        } else if !is_prefix(nb, reset_seq()) {
            (true, seq![], nb)
        } else {
            (true, nb, seq![])
        }
    }
}

/// Everything the state machine emits over `s[i..]` from the given state.
/// Bytes still pending in the buffer at the end of the line are dropped.
pub open spec fn quote_out(
    color: Seq<u8>,
    token: u8,
    s: Seq<u8>,
    i: int,
    inside: bool,
    buf: Seq<u8>,
) -> Seq<u8>
    decreases s.len() - i
        when 0 <= i <= s.len()
{
    if i >= s.len() {
        seq![]
    } else {
        let st = quote_step(color, token, inside, buf, s[i]);
        st.2 + quote_out(color, token, s, i + 1, st.0, st.1)
    }
}

pub proof fn lemma_empty_prefix_reset()
    ensures
        is_prefix(Seq::<u8>::empty(), reset_seq()),
{
    assert(Seq::<u8>::empty() =~= reset_seq().subrange(0, 0));
}

/// Whether `buf` equals the canonical reset code.
fn matches_reset(buf: &Vec<u8>) -> (r: bool)
    ensures
        r == (buf@ == reset_seq()),
{
    if buf.len() == 4 && buf[0] == 27 && buf[1] == 91 && buf[2] == 48 && buf[3] == 109 {
        proof {
            assert(buf@ =~= reset_seq());
        }
        true
    } else {
        false
    }
}

/// Whether `buf` is a prefix of the canonical reset code.
fn prefix_of_reset(buf: &Vec<u8>) -> (r: bool)
    ensures
        r == is_prefix(buf@, reset_seq()),
{
    let n = buf.len();
    if n > 4 {
        return false;
    }
    let mut i: usize = 0;
    while i < n
        invariant
            0 <= i <= n == buf@.len() <= 4,
            forall|j: int| 0 <= j < i ==> buf@[j] == reset_seq()[j],
        decreases n - i,
    {
        let expected: u8 = if i == 0 {
            27
        } else if i == 1 {
            91
        } else if i == 2 {
            48
        } else {
            109
        };
        if buf[i] != expected {
            proof {
                assert(buf@[i as int] != reset_seq()[i as int]);
                if is_prefix(buf@, reset_seq()) {
                    assert(buf@[i as int] == reset_seq().subrange(0, buf@.len() as int)[i as int]);
                }
            }
            return false;
        }
        i += 1;
    }
    proof {
        assert(buf@ =~= reset_seq().subrange(0, buf@.len() as int));
    }
    true
}

impl QuoteHighlighter {
    pub fn new(config: QuotesConfig) -> (r: Self)
        ensures
            r.quotes_token == config.quotes_token,
            r.color@ == ansi_prefix(config.style),
    {
        QuoteHighlighter {
            quotes_token: config.quotes_token,
            color: crate::style::nu_style_prefix(&config.style),
        }
    }

    /// What one pass produces: `None` exactly when the quote-byte count is
    /// zero or odd; otherwise the state machine's output over the whole
    /// line, started outside any quote with an empty buffer.
    pub open spec fn apply_spec(&self, s: Seq<u8>) -> Option<Seq<u8>> {
        let c = count_byte(s, self.quotes_token);
        if c == 0 || c % 2 != 0 {
            None
        } else {
            Some(quote_out(self.color@, self.quotes_token, s, 0, false, seq![]))
        }
    }

    pub fn apply(&self, input: &[u8]) -> (r: HighlightResult)
        ensures
            r.as_option() == self.apply_spec(input@),
            ({
                let c = count_byte(input@, self.quotes_token);
                (c == 0 || c % 2 != 0) ==> r is Unchanged
            }),
    {
        let ghost s = input@;
        let ghost color = self.color@;
        let token = self.quotes_token;
        let c = crate::scan::count_occurrences(input, token);
        if c == 0 || c % 2 != 0 {
            return HighlightResult::Unchanged;
        }
        let mut out: Vec<u8> = Vec::new();
        let mut inside = false;
        let mut buf: Vec<u8> = Vec::new();
        proof {
            lemma_empty_prefix_reset();
        }
        let mut i: usize = 0;
        while i < input.len()
            invariant
                0 <= i <= s.len(),
                s == input@,
                color == self.color@,
                token == self.quotes_token,
                is_prefix(buf@, reset_seq()),
                buf@.len() < 4,
                !inside ==> buf@.len() == 0,
                out@ + quote_out(color, token, s, i as int, inside, buf@) == quote_out(
                    color,
                    token,
                    s,
                    0,
                    false,
                    seq![],
                ),
            decreases s.len() - i,
        {
            let ghost out0 = out@;
            let ghost inside0 = inside;
            let ghost buf0 = buf@;
            let b = input[i];
            let ghost st = quote_step(color, token, inside0, buf0, b);
            if !inside {
                if b == token {
                    crate::scan::append_vec(&mut out, &self.color);
                    out.push(b);
                    inside = true;
                    proof {
                        assert(out@ =~= out0 + (color + seq![b]));
                    }
                } else {
                    out.push(b);
                    proof {
                        assert(out@ =~= out0 + seq![b]);
                    }
                }
            } else if b == token {
                out.push(b);
                out.push(27);
                out.push(91);
                out.push(48);
                out.push(109);
                inside = false;
                buf.clear();
                proof {
                    lemma_empty_prefix_reset();
                    assert(out@ =~= out0 + (seq![b] + reset_seq()));
                }
            } else {
                buf.push(b);
                proof {
                    assert(buf@ == buf0.push(b));
                }
                if matches_reset(&buf) {
                    crate::scan::append_vec(&mut out, &buf);
                    crate::scan::append_vec(&mut out, &self.color);
                    buf.clear();
                    proof {
                        lemma_empty_prefix_reset();
                        assert(out@ =~= out0 + (buf0.push(b) + color));
                    }
                } else if !prefix_of_reset(&buf) {
                    crate::scan::append_vec(&mut out, &buf);
                    buf.clear();
                    proof {
                        lemma_empty_prefix_reset();
                        assert(out@ =~= out0 + buf0.push(b));
                    }
                } else {
                    proof {
                        if buf@.len() == 4 {
                            assert(reset_seq().subrange(0, 4) =~= reset_seq());
                        }
                    }
                }
            }
            proof {
                assert(quote_out(color, token, s, i as int, inside0, buf0) == st.2 + quote_out(
                    color,
                    token,
                    s,
                    i + 1 as int,
                    st.0,
                    st.1,
                ));
                assert(inside == st.0 && buf@ == st.1 && out@ == out0 + st.2);
                assert(out@ + quote_out(color, token, s, i + 1 as int, inside, buf@) =~= out0
                    + quote_out(color, token, s, i as int, inside0, buf0));
            }
            i += 1;
        }
        proof {
            assert(out@ + quote_out(color, token, s, s.len() as int, inside, buf@) =~= out@);
        }
        HighlightResult::Highlighted(out)
    }
}

/// The state machine's output when the line holds no escape byte: each
/// quoted segment becomes the quote color, the opening quote, its bytes
/// verbatim, the closing quote, then the canonical reset.
pub open spec fn simple_quote_out(color: Seq<u8>, token: u8, s: Seq<u8>, i: int, inside: bool) -> Seq<
    u8,
>
    decreases s.len() - i
        when 0 <= i <= s.len()
{
    if i >= s.len() {
        seq![]
    } else if s[i] == token {
        if !inside {
            color + seq![s[i]] + simple_quote_out(color, token, s, i + 1, true)
        } else {
            seq![s[i]] + reset_seq() + simple_quote_out(color, token, s, i + 1, false)
        }
    } else {
        seq![s[i]] + simple_quote_out(color, token, s, i + 1, inside)
    }
}

/// The quote-nesting law, on lines with no embedded escape bytes: every
/// byte strictly between a quote-open and its paired quote-close is emitted
/// verbatim under the quote's color, each segment closed by the canonical
/// reset (the buffer never detects a reset, since no byte can start one).
pub proof fn lemma_quote_plain_nesting(color: Seq<u8>, token: u8, s: Seq<u8>, i: int, inside: bool)
    requires
        0 <= i <= s.len(),
        token != 27,
        forall|j: int| i <= j < s.len() ==> s[j] != 27,
    ensures
        quote_out(color, token, s, i, inside, seq![]) == simple_quote_out(color, token, s, i, inside),
    decreases s.len() - i,
{
    if i < s.len() {
        let b = s[i];
        if b != token && inside {
            let nb = Seq::<u8>::empty().push(b);
            assert(nb =~= seq![b]);
            assert(nb.len() == 1 && reset_seq().len() == 4);
            assert(nb != reset_seq());
            assert(reset_seq().subrange(0, 1) =~= seq![27u8]);
            if is_prefix(nb, reset_seq()) {
                assert(nb == reset_seq().subrange(0, 1));
                assert(nb[0] == 27u8);
                assert(false);
            }
        }
        lemma_quote_plain_nesting(color, token, s, i + 1, quote_step(
            color,
            token,
            inside,
            seq![],
            b,
        ).0);
        assert(quote_out(color, token, s, i, inside, seq![]) =~= simple_quote_out(
            color,
            token,
            s,
            i,
            inside,
        ));
    }
}

} // verus!
verus! {

/// A stretch with no quote byte passes through the machine verbatim.
pub proof fn lemma_simple_identity(color: Seq<u8>, token: u8, s: Seq<u8>, i: int)
    requires
        0 <= i <= s.len(),
        forall|j: int| i <= j < s.len() ==> s[j] != token,
    ensures
        simple_quote_out(color, token, s, i, false) == s.subrange(i, s.len() as int),
    decreases s.len() - i,
{
    if i < s.len() {
        lemma_simple_identity(color, token, s, i + 1);
        assert(simple_quote_out(color, token, s, i, false) =~= s.subrange(i, s.len() as int));
    } else {
        assert(simple_quote_out(color, token, s, i, false) =~= s.subrange(i, s.len() as int));
    }
}

/// Outside a quote, a token-free stretch is copied before the machine moves.
pub proof fn lemma_simple_skip_outside(color: Seq<u8>, token: u8, s: Seq<u8>, i: int, a: int)
    requires
        0 <= i <= a <= s.len(),
        forall|j: int| i <= j < a ==> s[j] != token,
    ensures
        simple_quote_out(color, token, s, i, false) == s.subrange(i, a) + simple_quote_out(
            color,
            token,
            s,
            a,
            false,
        ),
    decreases a - i,
{
    if i == a {
        assert(s.subrange(i, a) + simple_quote_out(color, token, s, a, false) =~= simple_quote_out(
            color,
            token,
            s,
            a,
            false,
        ));
    } else {
        lemma_simple_skip_outside(color, token, s, i + 1, a);
        assert(simple_quote_out(color, token, s, i, false) =~= s.subrange(i, a)
            + simple_quote_out(color, token, s, a, false));
    }
}

/// Inside a quote, a token-free stretch is copied before the machine moves.
pub proof fn lemma_simple_skip_inside(color: Seq<u8>, token: u8, s: Seq<u8>, i: int, a: int)
    requires
        0 <= i <= a <= s.len(),
        forall|j: int| i <= j < a ==> s[j] != token,
    ensures
        simple_quote_out(color, token, s, i, true) == s.subrange(i, a) + simple_quote_out(
            color,
            token,
            s,
            a,
            true,
        ),
    decreases a - i,
{
    if i == a {
        assert(s.subrange(i, a) + simple_quote_out(color, token, s, a, true) =~= simple_quote_out(
            color,
            token,
            s,
            a,
            true,
        ));
    } else {
        lemma_simple_skip_inside(color, token, s, i + 1, a);
        assert(simple_quote_out(color, token, s, i, true) =~= s.subrange(i, a) + simple_quote_out(
            color,
            token,
            s,
            a,
            true,
        ));
    }
}

} // verus!
verus! {

/// The quote parity law on a line with no embedded escape byte: everything
/// before the opening quote at `a` passes through verbatim; the characters
/// strictly between `a` and its paired close at `b` are emitted verbatim
/// inside a span opened by the quote color and closed by the canonical
/// reset; the rest of the line follows the same rule. (With an odd or zero
/// quote count the machine never runs: `apply` returns the input itself.)
pub proof fn lemma_quote_parity_segment(
    color: Seq<u8>,
    token: u8,
    s: Seq<u8>,
    i: int,
    a: int,
    b: int,
)
    requires
        0 <= i <= a < b < s.len(),
        token != 27,
        forall|j: int| i <= j < s.len() ==> s[j] != 27,
        forall|j: int| i <= j < a ==> s[j] != token,
        s[a] == token,
        forall|j: int| a + 1 <= j < b ==> s[j] != token,
        s[b] == token,
    ensures
        quote_out(color, token, s, i, false, seq![]) == s.subrange(i, a) + color + seq![token]
            + s.subrange(a + 1, b) + seq![token] + reset_seq() + quote_out(
            color,
            token,
            s,
            b + 1,
            false,
            seq![],
        ),
{
    lemma_quote_plain_nesting(color, token, s, i, false);
    lemma_quote_plain_nesting(color, token, s, b + 1, false);
    lemma_simple_skip_outside(color, token, s, i, a);
    assert(simple_quote_out(color, token, s, a, false) == color + seq![s[a]] + simple_quote_out(
        color,
        token,
        s,
        a + 1,
        true,
    ));
    lemma_simple_skip_inside(color, token, s, a + 1, b);
    assert(simple_quote_out(color, token, s, b, true) == seq![s[b]] + reset_seq()
        + simple_quote_out(color, token, s, b + 1, false));
    assert(quote_out(color, token, s, i, false, seq![]) =~= s.subrange(i, a) + color + seq![token]
        + s.subrange(a + 1, b) + seq![token] + reset_seq() + quote_out(
        color,
        token,
        s,
        b + 1,
        false,
        seq![],
    ));
}

} // verus!
