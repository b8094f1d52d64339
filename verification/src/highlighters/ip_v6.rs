//! Highlights IPv6 addresses. The matcher is syntactically permissive — any
//! run of at least three hex/colon/dot bytes, optionally followed by a
//! `/netmask` — but semantically narrow: a candidate is styled only if it
//! passes strict address validation; otherwise the matched text is emitted
//! verbatim, never corrupted.

use vstd::prelude::*;
use crate::config::IpV6Config;
use crate::highlight::{find_from, rewrite_from, HighlightResult, Token};
use crate::highlighters::{hex_colored, push_hex_colored};
use crate::scan::{contains_byte, run_end, spec_is_digit, ByteClass};
use crate::style::{ansi_prefix, paint_spec};

verus! {

// --- strict address validation -----------------------------------------
//
// The grammar below is the strict textual form of an IPv6 address: groups
// of 1..=4 hex digits separated by `:`, at most one `::`, optionally a
// dotted IPv4 quad as the last two groups, eight groups in all (fewer than
// eight when `::` stands for the rest). IPv4 octets are 0..=255 with no
// leading zeros.

/// The value of the decimal digits `s[i..e]`.
pub open spec fn dec_value(s: Seq<u8>, i: int, e: int) -> int
    decreases e - i
        when i <= e
{
    if e <= i {
        0
    } else {
        dec_value(s, i, e - 1) * 10 + (s[e - 1] - 48)
    }
}

/// The end of a valid IPv4 octet at `i`: 1..=3 digits, value at most 255,
/// no leading zero.
pub open spec fn octet_at(s: Seq<u8>, i: int) -> Option<int> {
    let e = run_end(s, i, ByteClass::Digit);
    if e - i < 1 || e - i > 3 {
        None
    } else if e - i > 1 && s[i] == 48 {
        None
    } else if dec_value(s, i, e) > 255 {
        None
    } else {
        Some(e)
    }
}

/// The end of a valid dotted IPv4 quad at `i`.
pub open spec fn ipv4_at(s: Seq<u8>, i: int) -> Option<int> {
    match octet_at(s, i) {
        None => None,
        Some(e1) => if e1 < s.len() && s[e1] == 46 {
            match octet_at(s, e1 + 1) {
                None => None,
                Some(e2) => if e2 < s.len() && s[e2] == 46 {
                    match octet_at(s, e2 + 1) {
                        None => None,
                        Some(e3) => if e3 < s.len() && s[e3] == 46 {
                            octet_at(s, e3 + 1)
                        } else {
                            None
                        },
                    }
                } else {
                    None
                },
            }
        } else {
            None
        },
    }
}

/// The end of a hex group of 1..=4 digits at `i`.
pub open spec fn group_at(s: Seq<u8>, i: int) -> Option<int> {
    let e = run_end(s, i, ByteClass::HexDigit);
    if 1 <= e - i <= 4 {
        Some(e)
    } else {
        None
    }
}

/// Read up to `limit` colon-separated groups of `s` starting at `pos`, with
/// group index `idx` already read. A dotted IPv4 quad may stand where two
/// groups remain; reading it ends the sequence. Returns the group count,
/// the position reached, and whether an IPv4 quad was read. Reading stops
/// (without consuming the separator) at the first group that does not parse,
/// which is where a `::` must stand.
pub open spec fn read_groups(s: Seq<u8>, pos: int, idx: int, limit: int) -> (int, int, bool)
    decreases limit - idx
        when 0 <= idx <= limit && 0 <= pos <= s.len()
{
    if idx >= limit {
        (idx, pos, false)
    } else if idx > 0 && !(pos < s.len() && s[pos] == 58) {
        (idx, pos, false)
    } else {
        let p1 = if idx == 0 {
            pos
        } else {
            pos + 1
        };
        let v4 = if idx < limit - 1 {
            ipv4_at(s, p1)
        } else {
            None
        };
        match v4 {
            Some(e) => (idx + 2, e, true),
            None => match group_at(s, p1) {
                Some(e) => if p1 <= e <= s.len() {
                    read_groups(s, e, idx + 1, limit)
                } else {
                    (idx, pos, false)
                },
                None => (idx, pos, false),
            },
        }
    }
}

/// Whether `s` is a strictly valid textual IPv6 address: either eight full
/// groups, or fewer groups around a single `::`, the whole of `s` consumed.
/// An IPv4 quad may only stand at the end, never before the `::`.
pub open spec fn ipv6_valid(s: Seq<u8>) -> bool {
    let head = read_groups(s, 0, 0, 8);
    if head.0 == 8 {
        head.1 == s.len()
    } else if head.2 {
        false
    } else if head.1 + 2 <= s.len() && s[head.1] == 58 && s[head.1 + 1] == 58 {
        let tail = read_groups(s, head.1 + 2, 0, 8 - head.0 - 1);
        tail.1 == s.len()
    } else {
        false
    }
}

pub proof fn lemma_dec_value_small(s: Seq<u8>, i: int, e: int)
    requires
        i <= e <= i + 3,
        forall|j: int| i <= j < e ==> #[trigger] spec_is_digit(s[j]),
    ensures
        0 <= dec_value(s, i, e) <= 999,
{
    assert(dec_value(s, i, i) == 0);
    if e >= i + 1 {
        assert(spec_is_digit(s[i]));
        assert(dec_value(s, i, i + 1) == (s[i] - 48));
    }
    if e >= i + 2 {
        assert(spec_is_digit(s[i + 1]));
        assert(dec_value(s, i, i + 2) == dec_value(s, i, i + 1) * 10 + (s[i + 1] - 48));
    }
    if e == i + 3 {
        assert(spec_is_digit(s[i + 2]));
        assert(dec_value(s, i, i + 3) == dec_value(s, i, i + 2) * 10 + (s[i + 2] - 48));
    }
}

/// Decide `octet_at` at one position.
fn octet_end(hay: &[u8], i: usize) -> (r: Option<usize>)
    requires
        i <= hay@.len(),
    ensures
        match r {
            None => octet_at(hay@, i as int) is None,
            Some(e) => octet_at(hay@, i as int) == Some(e as int) && i < e <= hay@.len(),
        },
{
    let ghost s = hay@;
    proof {
        crate::scan::lemma_run_end(s, i as int, ByteClass::Digit);
    }
    let e = crate::scan::scan_run(hay, i, ByteClass::Digit);
    if e - i < 1 || e - i > 3 {
        return None;
    }
    if e - i > 1 && hay[i] == 48 {
        return None;
    }
    proof {
        assert forall|j: int| i <= j < e implies #[trigger] spec_is_digit(s[j]) by {
            assert(crate::scan::class_holds(ByteClass::Digit, s[j]));
        }
        lemma_dec_value_small(s, i as int, e as int);
        assert(dec_value(s, i as int, i as int) == 0);
    }
    let len = e - i;
    let d0 = (hay[i] - 48) as u32;
    proof {
        assert(dec_value(s, i as int, i + 1 as int) == (s[i as int] - 48));
    }
    let v: u32 = if len == 1 {
        d0
    } else if len == 2 {
        proof {
            assert(dec_value(s, i as int, i + 2 as int) == dec_value(s, i as int, i + 1 as int)
                * 10 + (s[i + 1 as int] - 48));
        }
        d0 * 10 + (hay[i + 1] - 48) as u32
    } else {
        proof {
            assert(dec_value(s, i as int, i + 2 as int) == dec_value(s, i as int, i + 1 as int)
                * 10 + (s[i + 1 as int] - 48));
            assert(dec_value(s, i as int, i + 3 as int) == dec_value(s, i as int, i + 2 as int)
                * 10 + (s[i + 2 as int] - 48));
        }
        d0 * 100 + (hay[i + 1] - 48) as u32 * 10 + (hay[i + 2] - 48) as u32
    };
    assert(v == dec_value(s, i as int, e as int));
    if v > 255 {
        None
    } else {
        Some(e)
    }
}

/// Decide `ipv4_at` at one position.
fn ipv4_end(hay: &[u8], i: usize) -> (r: Option<usize>)
    requires
        i <= hay@.len(),
    ensures
        match r {
            None => ipv4_at(hay@, i as int) is None,
            Some(e) => ipv4_at(hay@, i as int) == Some(e as int) && i < e <= hay@.len(),
        },
{
    let e1 = match octet_end(hay, i) {
        None => return None,
        Some(e) => e,
    };
    if !(e1 < hay.len() && hay[e1] == 46) {
        return None;
    }
    let e2 = match octet_end(hay, e1 + 1) {
        None => return None,
        Some(e) => e,
    };
    if !(e2 < hay.len() && hay[e2] == 46) {
        return None;
    }
    let e3 = match octet_end(hay, e2 + 1) {
        None => return None,
        Some(e) => e,
    };
    if !(e3 < hay.len() && hay[e3] == 46) {
        return None;
    }
    octet_end(hay, e3 + 1)
}

/// Decide `group_at` at one position.
fn group_end(hay: &[u8], i: usize) -> (r: Option<usize>)
    requires
        i <= hay@.len(),
    ensures
        match r {
            None => group_at(hay@, i as int) is None,
            Some(e) => group_at(hay@, i as int) == Some(e as int) && i < e <= hay@.len(),
        },
{
    proof {
        crate::scan::lemma_run_end(hay@, i as int, ByteClass::HexDigit);
    }
    let e = crate::scan::scan_run(hay, i, ByteClass::HexDigit);
    if e - i >= 1 && e - i <= 4 {
        Some(e)
    } else {
        None
    }
}

/// Mirror of `read_groups`.
fn read_groups_exec(hay: &[u8], pos: usize, idx: usize, limit: usize) -> (r: (usize, usize, bool))
    requires
        pos <= hay@.len(),
        idx <= limit,
    ensures
        ({
            let g = read_groups(hay@, pos as int, idx as int, limit as int);
            r.0 == g.0 && r.1 == g.1 && r.2 == g.2
        }),
        idx <= r.0 <= limit,
        pos <= r.1 <= hay@.len(),
    decreases limit - idx,
{
    if idx >= limit {
        return (idx, pos, false);
    }
    if idx > 0 && !(pos < hay.len() && hay[pos] == 58) {
        return (idx, pos, false);
    }
    let p1 = if idx == 0 {
        pos
    } else {
        pos + 1
    };
    if idx < limit - 1 {
        match ipv4_end(hay, p1) {
            Some(e) => {
                return (idx + 2, e, true);
            },
            None => {},
        }
    }
    match group_end(hay, p1) {
        Some(e) => read_groups_exec(hay, e, idx + 1, limit),
        None => (idx, pos, false),
    }
}

/// Whether `addr` is a strictly valid textual IPv6 address.
pub fn is_strict_ipv6(addr: &[u8]) -> (r: bool)
    ensures
        r == ipv6_valid(addr@),
{
    let n = addr.len();
    let head = read_groups_exec(addr, 0, 0, 8);
    let (h, pos, hv4) = head;
    if h == 8 {
        return pos == n;
    }
    if hv4 {
        return false;
    }
    if !(n - pos >= 2 && addr[pos] == 58 && addr[pos + 1] == 58) {
        return false;
    }
    let tail = read_groups_exec(addr, pos + 2, 0, 8 - h - 1);
    tail.1 == n
}

// --- the highlighter ----------------------------------------------------

pub struct IpV6Highlighter {
    pub number: Vec<u8>,
    pub letter: Vec<u8>,
    pub separator: Vec<u8>,
}

/// The end of the candidate run (hex digits, `:` and `.`) starting at `p`.
pub open spec fn addr_end(s: Seq<u8>, p: int) -> int {
    run_end(s, p, ByteClass::Ipv6Chars)
}

/// Whether a `/netmask` with at least one digit follows the candidate.
pub open spec fn has_mask(s: Seq<u8>, p: int) -> bool {
    let ae = addr_end(s, p);
    ae < s.len() && s[ae] == 47 && ae + 1 < s.len() && spec_is_digit(s[ae + 1])
}

/// The end of the netmask: at most three digits after the `/`.
pub open spec fn mask_end(s: Seq<u8>, p: int) -> int {
    let ae = addr_end(s, p);
    let de = run_end(s, ae + 1, ByteClass::Digit);
    if de < ae + 4 {
        de
    } else {
        ae + 4
    }
}

impl IpV6Highlighter {
    pub fn new(config: IpV6Config) -> (r: Self)
        ensures
            r.number@ == ansi_prefix(config.number),
            r.letter@ == ansi_prefix(config.letter),
            r.separator@ == ansi_prefix(config.separator),
    {
        IpV6Highlighter {
            number: crate::style::nu_style_prefix(&config.number),
            letter: crate::style::nu_style_prefix(&config.letter),
            separator: crate::style::nu_style_prefix(&config.separator),
        }
    }

    /// What one pass produces: `None` when the line has no `:` byte at all,
    /// or no candidate run; otherwise every candidate either styled (when it
    /// validates) or reproduced verbatim (when it does not).
    pub open spec fn apply_spec(&self, s: Seq<u8>) -> Option<Seq<u8>> {
        if !contains_byte(s, 58) || find_from(self, s, 0) is None {
            None
        } else {
            Some(rewrite_from(self, s, 0))
        }
    }

    pub fn apply(&self, input: &[u8]) -> (r: HighlightResult)
        ensures
            r.as_option() == self.apply_spec(input@),
            !contains_byte(input@, 58) ==> r is Unchanged,
    {
        if !crate::scan::has_byte(input, 58) {
            return HighlightResult::Unchanged;
        }
        crate::highlight::rewrite(self, input)
    }
}

impl Token for IpV6Highlighter {
    open spec fn match_at(&self, s: Seq<u8>, p: int) -> bool {
        0 <= p <= s.len() && addr_end(s, p) - p >= 3
    }

    open spec fn match_end(&self, s: Seq<u8>, p: int) -> int {
        if has_mask(s, p) {
            mask_end(s, p)
        } else {
            addr_end(s, p)
        }
    }

    /// A candidate that validates is styled byte by byte (digits, hex
    /// letters, and `:`/`.` separators each on their own), the netmask as a
    /// styled `/` and a styled digit span; one that does not validate is
    /// reproduced byte for byte.
    open spec fn replacement(&self, s: Seq<u8>, p: int) -> Seq<u8> {
        let ae = addr_end(s, p);
        if ipv6_valid(s.subrange(p, ae)) {
            hex_colored(self.number@, self.letter@, self.separator@, 58, 46, s, p, ae) + (if
            has_mask(s, p) {
                paint_spec(self.separator@, seq![47u8]) + paint_spec(
                    self.number@,
                    s.subrange(ae + 1, mask_end(s, p)),
                )
            } else {
                seq![]
            })
        } else {
            s.subrange(p, if has_mask(s, p) {
                mask_end(s, p)
            } else {
                ae
            })
        }
    }

    proof fn lemma_match_end(&self, s: Seq<u8>, p: int) {
        let ae = addr_end(s, p);
        crate::scan::lemma_run_end(s, p, ByteClass::Ipv6Chars);
        if has_mask(s, p) {
            crate::scan::lemma_run_end(s, ae + 1, ByteClass::Digit);
        }
    }

    fn probe(&self, hay: &[u8], p: usize) -> (r: bool) {
        let e = crate::scan::scan_run(hay, p, ByteClass::Ipv6Chars);
        e - p >= 3
    }

    #[verifier::rlimit(50)]
    fn emit(&self, hay: &[u8], p: usize, out: &mut Vec<u8>) -> (e: usize) {
        let ghost out0 = out@;
        let ghost s = hay@;
        let n = hay.len();
        proof {
            crate::scan::lemma_run_end(s, p as int, ByteClass::Ipv6Chars);
        }
        let ae = crate::scan::scan_run(hay, p, ByteClass::Ipv6Chars);
        let hasm = ae < n && hay[ae] == 47 && ae + 1 < n && crate::scan::is_digit(hay[ae + 1]);
        let me: usize = if hasm {
            proof {
                crate::scan::lemma_run_end(s, ae + 1 as int, ByteClass::Digit);
            }
            let de = crate::scan::scan_run(hay, ae + 1, ByteClass::Digit);
            if de - ae < 4 {
                de
            } else {
                ae + 4
            }
        } else {
            ae
        };
        proof {
            assert(hasm == has_mask(s, p as int));
            assert(me as int == self.match_end(s, p as int));
        }
        if is_strict_ipv6(&hay[p..ae]) {
            push_hex_colored(out, &self.number, &self.letter, &self.separator, 58, 46, hay, p, ae);
            if hasm {
                let ghost g_addr = out@;
                crate::style::paint_push(out, &self.separator, hay, ae, ae + 1);
                crate::style::paint_push(out, &self.number, hay, ae + 1, me);
                proof {
                    assert(s.subrange(ae as int, ae + 1 as int) =~= seq![47u8]);
                    assert(out@ =~= out0 + self.replacement(s, p as int));
                }
            } else {
                proof {
                    assert(out@ + seq![] =~= out@);
                    assert(out@ =~= out0 + self.replacement(s, p as int));
                }
            }
        } else {
            crate::scan::append_range(out, hay, p, me);
        }
        me
    }
}

/// Round-trip on strict validation: a candidate accepted by strict parsing
/// is replaced by its per-byte colored form (plus its styled netmask); one
/// rejected by strict parsing is reproduced byte for byte, with no styling
/// codes inserted.
pub proof fn lemma_ipv6_round_trip(h: &IpV6Highlighter, s: Seq<u8>, p: int)
    requires
        0 <= p < s.len(),
        h.match_at(s, p),
    ensures
        ipv6_valid(s.subrange(p, addr_end(s, p))) ==> h.replacement(s, p) == hex_colored(
            h.number@,
            h.letter@,
            h.separator@,
            58,
            46,
            s,
            p,
            addr_end(s, p),
        ) + (if has_mask(s, p) {
            paint_spec(h.separator@, seq![47u8]) + paint_spec(
                h.number@,
                s.subrange(addr_end(s, p) + 1, mask_end(s, p)),
            )
        } else {
            seq![]
        }),
        !ipv6_valid(s.subrange(p, addr_end(s, p))) ==> h.replacement(s, p) == s.subrange(
            p,
            h.match_end(s, p),
        ),
{
}

/// The round trip at line level: a line that is exactly one candidate
/// rejected by strict parsing is reproduced byte-identical by the whole
/// pass — zero styling codes inserted.
pub proof fn lemma_ipv6_rejected_line_unstyled(h: &IpV6Highlighter, s: Seq<u8>)
    requires
        s.len() > 0,
        h.match_at(s, 0),
        h.match_end(s, 0) == s.len(),
        !ipv6_valid(s.subrange(0, addr_end(s, 0))),
    ensures
        rewrite_from(h, s, 0) == s,
{
    assert(find_from(h, s, 0) == Some(0int));
    h.lemma_match_end(s, 0);
    assert(rewrite_from(h, s, 0) == s.subrange(0, 0) + h.replacement(s, 0) + rewrite_from(
        h,
        s,
        s.len() as int,
    ));
    assert(rewrite_from(h, s, s.len() as int) =~= Seq::<u8>::empty());
    assert(s.subrange(0, 0) + s.subrange(0, s.len() as int) + Seq::<u8>::empty() =~= s);
}

/// The round trip at line level: a line that is exactly one candidate
/// accepted by strict parsing is replaced by its per-byte colored form.
pub proof fn lemma_ipv6_accepted_line_colored(h: &IpV6Highlighter, s: Seq<u8>)
    requires
        s.len() > 0,
        h.match_at(s, 0),
        h.match_end(s, 0) == s.len(),
        ipv6_valid(s.subrange(0, addr_end(s, 0))),
    ensures
        rewrite_from(h, s, 0) == hex_colored(
            h.number@,
            h.letter@,
            h.separator@,
            58,
            46,
            s,
            0,
            addr_end(s, 0),
        ) + (if has_mask(s, 0) {
            paint_spec(h.separator@, seq![47u8]) + paint_spec(
                h.number@,
                s.subrange(addr_end(s, 0) + 1, mask_end(s, 0)),
            )
        } else {
            seq![]
        }),
{
    assert(find_from(h, s, 0) == Some(0int));
    h.lemma_match_end(s, 0);
    assert(rewrite_from(h, s, 0) == s.subrange(0, 0) + h.replacement(s, 0) + rewrite_from(
        h,
        s,
        s.len() as int,
    ));
    assert(rewrite_from(h, s, s.len() as int) =~= Seq::<u8>::empty());
    assert(s.subrange(0, 0) + h.replacement(s, 0) + Seq::<u8>::empty() =~= h.replacement(s, 0));
}

} // verus!
