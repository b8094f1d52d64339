//! The pattern highlighters. Each owns its compiled token grammar and a
//! small set of styles, and exposes one operation: transform a line into a
//! possibly-modified line.

use vstd::prelude::*;
use crate::style::paint_spec;
use crate::scan::{spec_is_digit, spec_is_hex_letter};

pub mod ip_v6;
pub mod key_value;
pub mod number;
pub mod pointer;
pub mod quote;
pub mod unix_process;
pub mod url;
pub mod uuid;

verus! {

/// A hex digit, either case.
pub open spec fn class_hex(b: u8) -> bool {
    spec_is_digit(b) || spec_is_hex_letter(b)
}

/// Whether every byte of `s[i..e]` is a hex digit.
pub open spec fn all_hex(s: Seq<u8>, i: int, e: int) -> bool {
    forall|j: int| i <= j < e ==> #[trigger] class_hex(s[j])
}

/// Decide `all_hex` over `hay[i..e]`.
pub fn check_all_hex(hay: &[u8], i: usize, e: usize) -> (r: bool)
    requires
        i <= e <= hay@.len(),
    ensures
        r == all_hex(hay@, i as int, e as int),
{
    let mut k = i;
    while k < e
        invariant
            i <= k <= e <= hay@.len(),
            forall|j: int| i <= j < k ==> #[trigger] class_hex(hay@[j]),
        decreases e - k,
    {
        if !crate::scan::is_digit(hay[k]) && !crate::scan::is_hex_letter(hay[k]) {
            assert(!class_hex(hay@[k as int]));
            return false;
        }
        k += 1;
    }
    true
}

/// One byte of a hex-shaped token, classified and styled on its own: digits,
/// hex letters and up to two extra marker bytes each get their own style;
/// anything else is copied bare.
pub open spec fn hex_piece(
    number: Seq<u8>,
    letter: Seq<u8>,
    extra: Seq<u8>,
    e1: u8,
    e2: u8,
    b: u8,
) -> Seq<u8> {
    if spec_is_digit(b) {
        paint_spec(number, seq![b])
    } else if spec_is_hex_letter(b) {
        paint_spec(letter, seq![b])
    } else if b == e1 || b == e2 {
        paint_spec(extra, seq![b])
    } else {
        seq![b]
    }
}

/// `s[i..e]`, each byte styled on its own by `hex_piece`. This per-character
/// styling (rather than maximal same-style runs) is deliberate: it keeps the
/// pass a single linear scan and is correct around any byte.
pub open spec fn hex_colored(
    number: Seq<u8>,
    letter: Seq<u8>,
    extra: Seq<u8>,
    e1: u8,
    e2: u8,
    s: Seq<u8>,
    i: int,
    e: int,
) -> Seq<u8>
    decreases e - i
        when i <= e
{
    if i >= e {
        seq![]
    } else {
        hex_piece(number, letter, extra, e1, e2, s[i]) + hex_colored(
            number,
            letter,
            extra,
            e1,
            e2,
            s,
            i + 1,
            e,
        )
    }
}

/// Append `src[from..to]` to `out` with every byte styled by `hex_piece`.
pub fn push_hex_colored(
    out: &mut Vec<u8>,
    number: &Vec<u8>,
    letter: &Vec<u8>,
    extra: &Vec<u8>,
    e1: u8,
    e2: u8,
    src: &[u8],
    from: usize,
    to: usize,
)
    requires
        from <= to <= src@.len(),
    ensures
        final(out)@ == old(out)@ + hex_colored(
            number@,
            letter@,
            extra@,
            e1,
            e2,
            src@,
            from as int,
            to as int,
        ),
{
    let ghost base = out@;
    let mut i = from;
    while i < to
        invariant
            from <= i <= to <= src@.len(),
            base + hex_colored(number@, letter@, extra@, e1, e2, src@, from as int, to as int)
                == out@ + hex_colored(number@, letter@, extra@, e1, e2, src@, i as int, to as int),
        decreases to - i,
    {
        let ghost out0 = out@;
        let b = src[i];
        if crate::scan::is_digit(b) {
            crate::style::paint_push_byte(out, number, b);
        } else if crate::scan::is_hex_letter(b) {
            crate::style::paint_push_byte(out, letter, b);
        } else if b == e1 || b == e2 {
            crate::style::paint_push_byte(out, extra, b);
        } else {
            out.push(b);
            proof {
                assert(out@ =~= out0 + seq![b]);
            }
        }
        proof {
            assert(out@ + hex_colored(
                number@,
                letter@,
                extra@,
                e1,
                e2,
                src@,
                i + 1 as int,
                to as int,
            ) =~= out0 + hex_colored(number@, letter@, extra@, e1, e2, src@, i as int, to as int));
        }
        i += 1;
    }
}

} // verus!
// The closed set of highlighter variants. Dispatch is by exhaustive match:
// the set is fixed at compile time, and each variant owns its grammar and
// styles, holds no per-line state, and is reusable across lines.

use crate::highlight::HighlightResult;

verus! {

pub enum Highlighter {
    IpV6(ip_v6::IpV6Highlighter),
    KeyValue(key_value::KeyValueHighlighter),
    Number(number::NumberHighlighter),
    Pointer(pointer::PointerHighlighter),
    Quote(quote::QuoteHighlighter),
    UnixProcess(unix_process::UnixProcessHighlighter),
    Url(url::UrlHighlighter),
    Uuid(uuid::UuidHighlighter),
}

impl Highlighter {
    /// What one pass of this highlighter produces over `s`: `None` for
    /// "unchanged, nothing allocated", otherwise the replacement bytes.
    pub open spec fn apply_spec(&self, s: Seq<u8>) -> Option<Seq<u8>> {
        match self {
            Highlighter::IpV6(h) => h.apply_spec(s),
            Highlighter::KeyValue(h) => h.apply_spec(s),
            Highlighter::Number(h) => h.apply_spec(s),
            Highlighter::Pointer(h) => h.apply_spec(s),
            Highlighter::Quote(h) => h.apply_spec(s),
            Highlighter::UnixProcess(h) => h.apply_spec(s),
            Highlighter::Url(h) => h.apply_spec(s),
            Highlighter::Uuid(h) => h.apply_spec(s),
        }
    }

    /// The bytes a pass leaves behind: the replacement, or `s` itself when
    /// the pass changes nothing.
    pub open spec fn out_bytes(&self, s: Seq<u8>) -> Seq<u8> {
        match self.apply_spec(s) {
            None => s,
            Some(v) => v,
        }
    }

    /// Transform one line. `Unchanged` is returned — with no allocation —
    /// exactly when the pass produces nothing new.
    pub fn apply(&self, input: &[u8]) -> (r: HighlightResult)
        ensures
            r.as_option() == self.apply_spec(input@),
    {
        match self {
            Highlighter::IpV6(h) => h.apply(input),
            Highlighter::KeyValue(h) => h.apply(input),
            Highlighter::Number(h) => h.apply(input),
            Highlighter::Pointer(h) => h.apply(input),
            Highlighter::Quote(h) => h.apply(input),
            Highlighter::UnixProcess(h) => h.apply(input),
            Highlighter::Url(h) => h.apply(input),
            Highlighter::Uuid(h) => h.apply(input),
        }
    }
}

} // verus!
