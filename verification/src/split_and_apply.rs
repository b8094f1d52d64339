//! The escape-aware composition wrapper: applies a highlighter only to the
//! spans of a line not already inside a colored region, so that running
//! several highlighters in sequence can never re-color or corrupt each
//! other's output.
//!
//! The line is scanned for the escape-start marker; each uncolored chunk
//! before a marker is handed to the highlighter, and each colored region —
//! from a marker to its canonical reset — is copied verbatim. A marker with
//! no reset after it turns the rest of the line into an opaque region. If no
//! chunk anywhere changes, the wrapper returns the original input without
//! allocating; only the first actual change allocates an output buffer,
//! seeded with the unchanged prefix already scanned.

use vstd::prelude::*;
use crate::highlight::HighlightResult;
use crate::highlighters::Highlighter;
use crate::scan::{find_sub, is_sub_at, lemma_find_sub, lemma_find_sub_is};
use crate::style::{escape_marker, escape_seq, reset_marker, reset_seq};

verus! {

/// Relies on `memchr::memmem::find`: the index of the first occurrence of
/// `needle` in `hay`, or `None` when `needle` occurs nowhere in `hay`.
#[verifier::external_body]
fn find_subsequence(hay: &[u8], needle: &[u8]) -> (r: Option<usize>)
    ensures
        match r {
            Some(i) => 0 <= i && is_sub_at(hay@, needle@, i as int) && forall|j: int|
                0 <= j < i ==> !is_sub_at(hay@, needle@, j),
            None => forall|j: int| 0 <= j ==> !is_sub_at(hay@, needle@, j),
        },
{
    memchr::memmem::find(hay, needle)
}

/// Find the first occurrence of `needle` in `input` at or after `from`.
fn find_marker(input: &[u8], from: usize, needle: &Vec<u8>) -> (r: Option<usize>)
    requires
        from <= input@.len(),
        needle@.len() >= 1,
    ensures
        match r {
            None => find_sub(input@, needle@, from as int) is None,
            Some(i) => from <= i && i + needle@.len() <= input@.len() && find_sub(
                input@,
                needle@,
                from as int,
            ) == Some(i as int),
        },
{
    let ghost s = input@;
    let ghost nd = needle@;
    let tail = &input[from..input.len()];
    let found = find_subsequence(tail, needle.as_slice());
    proof {
        assert forall|j: int| 0 <= j && j + nd.len() <= tail@.len() implies is_sub_at(
            tail@,
            nd,
            j,
        ) == is_sub_at(s, nd, from + j) by {
            assert(tail@.subrange(j, j + nd.len() as int) =~= s.subrange(
                from + j,
                from + j + nd.len(),
            ));
        }
    }
    match found {
        None => {
            proof {
                assert forall|j: int| from <= j implies !is_sub_at(s, nd, j) by {
                    if j + nd.len() <= s.len() {
                        assert(!is_sub_at(tail@, nd, j - from));
                    }
                }
                crate::scan::lemma_find_sub_is(s, nd, from as int, None);
            }
            None
        },
        Some(i) => {
            proof {
                assert(is_sub_at(s, nd, from + i));
                assert forall|j: int| from <= j < from + i implies !is_sub_at(s, nd, j) by {
                    if j + nd.len() <= s.len() {
                        assert(!is_sub_at(tail@, nd, j - from));
                    }
                }
                crate::scan::lemma_find_sub_is(s, nd, from as int, Some(from + i));
            }
            Some(from + i)
        },
    }
}

/// A pass over a chunk leaves nothing new on an empty chunk.
pub proof fn lemma_apply_spec_empty(h: &Highlighter, c: Seq<u8>)
    requires
        c.len() == 0,
    ensures
        h.apply_spec(c) is None,
{
    assert(forall|b: u8| !crate::scan::contains_byte(c, b));
    match h {
        Highlighter::IpV6(hh) => {
            assert(crate::highlight::find_from(hh, c, 0) is None);
        },
        Highlighter::KeyValue(hh) => {
            assert(crate::highlight::find_from(hh, c, 0) is None);
        },
        Highlighter::Number(hh) => {
            assert(crate::highlight::find_from(hh, c, 0) is None);
        },
        Highlighter::Pointer(hh) => {
            assert(crate::highlight::find_from(hh, c, 0) is None);
        },
        Highlighter::Quote(hh) => {
            assert(crate::scan::count_byte_prefix(c, hh.quotes_token, 0) == 0);
        },
        Highlighter::UnixProcess(hh) => {
            assert(crate::highlight::find_from(hh, c, 0) is None);
        },
        Highlighter::Url(hh) => {
            assert(crate::highlight::find_from(hh, c, 0) is None);
        },
        Highlighter::Uuid(hh) => {
            assert(crate::highlight::find_from(hh, c, 0) is None);
        },
    }
}

/// The wrapper's output for `s[pos..]`: each uncolored chunk replaced by
/// what the highlighter makes of it, each colored region — escape marker to
/// canonical reset — copied verbatim, and an unterminated region copied
/// verbatim to the end of the line.
pub open spec fn wrapped_tail(h: &Highlighter, s: Seq<u8>, pos: int) -> Seq<u8>
    decreases s.len() - pos
        when 0 <= pos <= s.len()
{
    if pos >= s.len() {
        seq![]
    } else {
        match find_sub(s, escape_seq(), pos) {
            None => h.out_bytes(s.subrange(pos, s.len() as int)),
            Some(i) => if pos <= i && i <= s.len() {
                h.out_bytes(s.subrange(pos, i)) + match find_sub(s, reset_seq(), i) {
                    None => s.subrange(i, s.len() as int),
                    Some(j) => if i <= j && j + 4 <= s.len() {
                        s.subrange(i, j + 4) + wrapped_tail(h, s, j + 4)
                    } else {
                        s.subrange(i, s.len() as int)
                    },
                }
            } else {
                seq![]
            },
        }
    }
}

/// Whether the highlighter changes any uncolored chunk of `s[pos..]`.
pub open spec fn any_changed(h: &Highlighter, s: Seq<u8>, pos: int) -> bool
    decreases s.len() - pos
        when 0 <= pos <= s.len()
{
    if pos >= s.len() {
        false
    } else {
        match find_sub(s, escape_seq(), pos) {
            None => h.apply_spec(s.subrange(pos, s.len() as int)) is Some,
            Some(i) => if pos <= i && i <= s.len() {
                (h.apply_spec(s.subrange(pos, i)) is Some) || match find_sub(s, reset_seq(), i) {
                    None => false,
                    Some(j) => if i <= j && j + 4 <= s.len() {
                        any_changed(h, s, j + 4)
                    } else {
                        false
                    },
                }
            } else {
                false
            },
        }
    }
}

/// Record `text` as copied without change: appended when a buffer already
/// exists, counted otherwise.
fn push_unchanged(text: &[u8], result: &mut Option<Vec<u8>>, copied: &mut usize)
    requires
        *old(result) is None ==> *old(copied) + text@.len() <= usize::MAX,
    ensures
        *final(result) is Some <==> *old(result) is Some,
        *old(result) matches Some(ob) ==> (*final(result) matches Some(nb) && nb@ == ob@ + text@)
            && *final(copied) == *old(copied),
        *old(result) is None ==> *final(copied) == *old(copied) + text@.len(),
{
    match &mut *result {
        Some(buf) => {
            crate::scan::append_range(buf, text, 0, text.len());
            proof {
                assert(text@.subrange(0, text@.len() as int) =~= text@);
            }
        },
        None => {
            *copied += text.len();
        },
    }
}

/// Record `new_text` as a changed chunk's output. On the first change this
/// allocates the output buffer — seeded with the input's unchanged prefix
/// and a capacity margin against reallocation — and appends from then on.
fn push_changed(new_text: &[u8], input: &[u8], result: &mut Option<Vec<u8>>, copied: &mut usize)
    requires
        *old(result) is None ==> *old(copied) <= input@.len(),
    ensures
        *final(result) matches Some(nb) && nb@ == (match *old(result) {
            None => input@.subrange(0, *old(copied) as int),
            Some(ob) => ob@,
        }) + new_text@,
        *final(copied) == *old(copied),
{
    match &mut *result {
        Some(buf) => {
            crate::scan::append_range(buf, new_text, 0, new_text.len());
            proof {
                assert(new_text@.subrange(0, new_text@.len() as int) =~= new_text@);
            }
        },
        None => {
            let extra = if input.len() < 16384 {
                input.len()
            } else {
                16384
            };
            let cap = if usize::MAX - input.len() >= extra {
                input.len() + extra
            } else {
                input.len()
            };
            let mut buf: Vec<u8> = Vec::with_capacity(cap);
            crate::scan::append_range(&mut buf, input, 0, *copied);
            crate::scan::append_range(&mut buf, new_text, 0, new_text.len());
            proof {
                assert(new_text@.subrange(0, new_text@.len() as int) =~= new_text@);
                assert(buf@ =~= input@.subrange(0, *copied as int) + new_text@);
            }
            *result = Some(buf);
        },
    }
}

/// Run the highlighter over one uncolored chunk: an unchanged result is
/// recorded as copied, a changed one starts or extends the output buffer.
fn apply_chunk(
    text: &[u8],
    highlighter: &Highlighter,
    input: &[u8],
    result: &mut Option<Vec<u8>>,
    copied: &mut usize,
)
    requires
        *old(result) is None ==> *old(copied) + text@.len() <= input@.len(),
    ensures
        ({
            let piece = highlighter.out_bytes(text@);
            match *old(result) {
                None => if highlighter.apply_spec(text@) is Some {
                    *final(result) matches Some(nb) && nb@ == input@.subrange(
                        0,
                        *old(copied) as int,
                    ) + piece && *final(copied) == *old(copied)
                } else {
                    *final(result) is None && *final(copied) == *old(copied) + text@.len()
                },
                Some(ob) => (*final(result) matches Some(nb) && nb@ == ob@ + piece)
                    && *final(copied) == *old(copied),
            }
        }),
{
    let n = input.len();
    proof {
        assert(input@.len() == n);
    }
    match highlighter.apply(text) {
        HighlightResult::Unchanged => {
            push_unchanged(text, result, copied);
        },
        HighlightResult::Highlighted(new_text) => {
            push_changed(new_text.as_slice(), input, result, copied);
        },
    }
}

/// The relation the wrapper maintains while scanning: with no change seen
/// so far, `copied` bytes of the input stand for themselves; once a change
/// happened, the buffer holds the output for everything before `pos`.
pub open spec fn wrapper_inv(
    h: &Highlighter,
    s: Seq<u8>,
    pos: int,
    result: Option<Seq<u8>>,
    copied: int,
) -> bool {
    match result {
        None => copied == pos && s.subrange(0, pos) + wrapped_tail(h, s, pos) == wrapped_tail(
            h,
            s,
            0,
        ) && any_changed(h, s, 0) == any_changed(h, s, pos),
        Some(b) => b + wrapped_tail(h, s, pos) == wrapped_tail(h, s, 0) && any_changed(h, s, 0),
    }
}

/// The buffer state as a value.
pub open spec fn opt_view(r: &Option<Vec<u8>>) -> Option<Seq<u8>> {
    match r {
        None => None,
        Some(v) => Some(v@),
    }
}

/// Process the rest of the line when no escape marker remains: one final
/// uncolored chunk.
#[verifier::rlimit(100)]
fn finish_without_marker(
    input: &[u8],
    highlighter: &Highlighter,
    pos: usize,
    result: &mut Option<Vec<u8>>,
    copied: &mut usize,
)
    requires
        pos <= input@.len(),
        pos < input@.len() ==> find_sub(input@, escape_seq(), pos as int) is None,
        wrapper_inv(highlighter, input@, pos as int, opt_view(old(result)), *old(copied) as int),
    ensures
        wrapper_inv(highlighter, input@, input@.len() as int, opt_view(final(result)), (*final(copied)) as int),
{
    let ghost s = input@;
    let ghost result0 = opt_view(result);
    if pos >= input.len() {
        proof {
            assert(pos == s.len());
        }
        return ;
    }
    let text = &input[pos..input.len()];
    apply_chunk(text, highlighter, input, result, copied);
    proof {
        let chunk = s.subrange(pos as int, s.len() as int);
        assert(wrapped_tail(highlighter, s, pos as int) == highlighter.out_bytes(chunk));
        assert(any_changed(highlighter, s, pos as int) == (highlighter.apply_spec(chunk) is Some));
        assert(wrapped_tail(highlighter, s, s.len() as int) =~= seq![]);
        match result {
            None => {
                assert(s.subrange(0, s.len() as int) =~= s.subrange(0, pos as int) + chunk);
                assert(s.subrange(0, s.len() as int) + seq![] =~= s.subrange(0, pos as int)
                    + chunk);
            },
            Some(ref buf) => {
                assert(buf@ =~= (match result0 {
                    None => s.subrange(0, pos as int),
                    Some(b0) => b0,
                }) + highlighter.out_bytes(chunk));
                assert(buf@ + seq![] =~= buf@);
            },
        }
    }
}

/// Process one uncolored chunk and the colored region after it: the chunk
/// goes through the highlighter, the region — to its reset, or to the end of
/// the line when none follows — is copied verbatim. Returns the position
/// right after the region.
#[verifier::rlimit(100)]
fn advance_past_marker(
    input: &[u8],
    highlighter: &Highlighter,
    pos: usize,
    i: usize,
    rst: &Vec<u8>,
    result: &mut Option<Vec<u8>>,
    copied: &mut usize,
) -> (newpos: usize)
    requires
        pos <= i,
        i + 2 <= input@.len(),
        rst@ == reset_seq(),
        find_sub(input@, escape_seq(), pos as int) == Some(i as int),
        wrapper_inv(highlighter, input@, pos as int, opt_view(old(result)), *old(copied) as int),
    ensures
        pos < newpos <= input@.len(),
        wrapper_inv(highlighter, input@, newpos as int, opt_view(final(result)), (*final(copied)) as int),
{
    let ghost s = input@;
    let n = input.len();
    proof {
        assert(s.len() == n);
    }
    let ghost result0 = opt_view(result);
    let ghost copied0 = *copied as int;
    let ghost chunk = s.subrange(pos as int, i as int);
    proof {
        assert(wrapped_tail(highlighter, s, pos as int) == highlighter.out_bytes(chunk) + (
        match find_sub(s, reset_seq(), i as int) {
            None => s.subrange(i as int, s.len() as int),
            Some(j) => if i as int <= j && j + 4 <= s.len() {
                s.subrange(i as int, j + 4) + wrapped_tail(highlighter, s, j + 4)
            } else {
                s.subrange(i as int, s.len() as int)
            },
        }));
    }
    if i > pos {
        let text = &input[pos..i];
        apply_chunk(text, highlighter, input, result, copied);
    } else {
        proof {
            lemma_apply_spec_empty(highlighter, chunk);
            assert(highlighter.out_bytes(chunk) =~= chunk);
        }
    }
    let ghost result1 = opt_view(result);
    let ghost base0 = match result0 {
        None => s.subrange(0, pos as int),
        Some(b0) => b0,
    };
    proof {
        match result1 {
            None => {
                assert(result0 is None);
                assert(*copied == i);
                assert(highlighter.apply_spec(chunk) is None);
                assert(highlighter.out_bytes(chunk) == chunk);
            },
            Some(b1) => {
                assert(b1 == base0 + highlighter.out_bytes(chunk));
            },
        }
    }
    match find_marker(input, i, rst) {
        None => {
            let ghost region = s.subrange(i as int, s.len() as int);
            proof {
                assert(wrapped_tail(highlighter, s, pos as int) == highlighter.out_bytes(chunk)
                    + region);
                assert(any_changed(highlighter, s, pos as int) == (highlighter.apply_spec(chunk)
                    is Some));
            }
            let text = &input[i..input.len()];
            push_unchanged(text, result, copied);
            proof {
                assert(wrapped_tail(highlighter, s, s.len() as int) =~= seq![]);
                match result {
                    None => {
                        assert(s.subrange(0, s.len() as int) =~= s.subrange(0, copied0) + (chunk
                            + region));
                        assert(s.subrange(0, s.len() as int) + seq![] =~= s.subrange(
                            0,
                            s.len() as int,
                        ));
                    },
                    Some(ref buf) => {
                        assert(buf@ =~= base0 + (highlighter.out_bytes(chunk) + region));
                        assert(buf@ + seq![] =~= buf@);
                    },
                }
            }
            input.len()
        },
        Some(j) => {
            let ghost region = s.subrange(i as int, j + 4 as int);
            let ghost rest = wrapped_tail(highlighter, s, j + 4 as int);
            proof {
                assert(wrapped_tail(highlighter, s, pos as int) == highlighter.out_bytes(chunk) + (
                region + rest));
                assert(any_changed(highlighter, s, pos as int) == ((highlighter.apply_spec(chunk)
                    is Some) || any_changed(highlighter, s, j + 4 as int)));
            }
            let text = &input[i..j + 4];
            push_unchanged(text, result, copied);
            proof {
                match result {
                    None => {
                        assert(s.subrange(0, j + 4 as int) + rest =~= s.subrange(0, copied0) + (
                        chunk + (region + rest)));
                    },
                    Some(ref buf) => {
                        assert(buf@ + rest =~= base0 + (highlighter.out_bytes(chunk) + (region
                            + rest)));
                    },
                }
            }
            j + 4
        },
    }
}

/// Apply `highlighter` to every span of `input` not already inside a
/// colored region; colored regions are copied verbatim and never re-entered.
/// Returns `Unchanged` — the original input, nothing allocated — exactly
/// when no chunk anywhere in the line changed; an unchanged line passes
/// through identical to itself.
pub fn apply_only_to_unhighlighted(input: &[u8], highlighter: &Highlighter) -> (r: HighlightResult)
    ensures
        match r {
            HighlightResult::Unchanged => !any_changed(highlighter, input@, 0) && wrapped_tail(
                highlighter,
                input@,
                0,
            ) == input@,
            HighlightResult::Highlighted(v) => any_changed(highlighter, input@, 0) && v@
                == wrapped_tail(highlighter, input@, 0),
        },
{
    let ghost s = input@;
    let esc = escape_marker();
    let rst = reset_marker();
    let mut result: Option<Vec<u8>> = None;
    let mut copied: usize = 0;
    let mut pos: usize = 0;
    while pos < input.len()
        invariant
            0 <= pos <= s.len(),
            s == input@,
            esc@ == escape_seq(),
            rst@ == reset_seq(),
            wrapper_inv(highlighter, s, pos as int, opt_view(&result), copied as int),
        decreases s.len() - pos,
    {
        match find_marker(input, pos, &esc) {
            None => {
                finish_without_marker(input, highlighter, pos, &mut result, &mut copied);
                pos = input.len();
            },
            Some(i) => {
                pos = advance_past_marker(input, highlighter, pos, i, &rst, &mut result,
                    &mut copied);
            },
        }
    }
    proof {
        assert(wrapped_tail(highlighter, s, pos as int) =~= seq![]);
        assert(any_changed(highlighter, s, s.len() as int) == false);
    }
    match result {
        None => {
            proof {
                assert(s.subrange(0, pos as int) =~= s);
                assert(s.subrange(0, pos as int) + wrapped_tail(highlighter, s, pos as int) =~= s);
            }
            HighlightResult::Unchanged
        },
        Some(buf) => {
            proof {
                assert(buf@ + wrapped_tail(highlighter, s, pos as int) =~= buf@);
            }
            HighlightResult::Highlighted(buf)
        },
    }
}

} // verus!
verus! {

/// A two-byte escape marker stands at `j` exactly when its two bytes do.
pub proof fn lemma_escape_at(o: Seq<u8>, j: int)
    ensures
        is_sub_at(o, escape_seq(), j) <==> (0 <= j && j + 2 <= o.len() && o[j] == 27 && o[j + 1]
            == 91),
{
    if 0 <= j && j + 2 <= o.len() {
        let w = o.subrange(j, j + 2);
        assert(w =~= seq![o[j], o[j + 1]]);
        if o[j] == 27 && o[j + 1] == 91 {
            assert(w =~= escape_seq());
        } else if w == escape_seq() {
            assert(w[0] == 27 && w[1] == 91);
        }
    }
}

/// The canonical reset stands at `j` exactly when its four bytes do.
pub proof fn lemma_reset_at(o: Seq<u8>, j: int)
    ensures
        is_sub_at(o, reset_seq(), j) <==> (0 <= j && j + 4 <= o.len() && o[j] == 27 && o[j + 1]
            == 91 && o[j + 2] == 48 && o[j + 3] == 109),
{
    if 0 <= j && j + 4 <= o.len() {
        let w = o.subrange(j, j + 4);
        assert(w =~= seq![o[j], o[j + 1], o[j + 2], o[j + 3]]);
        if o[j] == 27 && o[j + 1] == 91 && o[j + 2] == 48 && o[j + 3] == 109 {
            assert(w =~= reset_seq());
        } else if w == reset_seq() {
            assert(w[0] == 27 && w[1] == 91 && w[2] == 48 && w[3] == 109);
        }
    }
}

/// Searching a concatenation past its first part searches the second part.
pub proof fn lemma_find_sub_shift(x: Seq<u8>, y: Seq<u8>, needle: Seq<u8>, d: int)
    requires
        0 <= d <= y.len(),
        needle.len() >= 1,
    ensures
        find_sub(x + y, needle, x.len() + d) == (match find_sub(y, needle, d) {
            None => None::<int>,
            Some(k) => Some(x.len() + k),
        }),
{
    let o = x + y;
    assert forall|j: int| 0 <= j && j + needle.len() <= y.len() implies is_sub_at(
        o,
        needle,
        x.len() + j,
    ) == is_sub_at(y, needle, j) by {
        assert(o.subrange(x.len() + j, x.len() + j + needle.len()) =~= y.subrange(
            j,
            j + needle.len(),
        ));
    }
    lemma_find_sub(y, needle, d);
    match find_sub(y, needle, d) {
        None => {
            assert forall|j: int| x.len() + d <= j implies !is_sub_at(o, needle, j) by {
                if j + needle.len() <= o.len() {
                    assert(!is_sub_at(y, needle, j - x.len()));
                }
            }
            lemma_find_sub_is(o, needle, x.len() + d, None);
        },
        Some(k) => {
            assert(is_sub_at(o, needle, x.len() + k));
            assert forall|j: int| x.len() + d <= j < x.len() + k implies !is_sub_at(
                o,
                needle,
                j,
            ) by {
                if j + needle.len() <= o.len() {
                    assert(!is_sub_at(y, needle, j - x.len()));
                }
            }
            lemma_find_sub_is(o, needle, x.len() + d, Some(x.len() + k));
        },
    }
}

/// The wrapper's view of a concatenation, from inside the second part, is
/// its view of the second part alone: markers never span backward.
pub proof fn lemma_wrapped_tail_shift(h: &Highlighter, x: Seq<u8>, y: Seq<u8>, d: int)
    requires
        0 <= d <= y.len(),
    ensures
        wrapped_tail(h, x + y, x.len() + d) == wrapped_tail(h, y, d),
        any_changed(h, x + y, x.len() + d) == any_changed(h, y, d),
    decreases y.len() - d,
{
    let o = x + y;
    if d >= y.len() {
    } else {
        lemma_find_sub_shift(x, y, escape_seq(), d);
        match find_sub(y, escape_seq(), d) {
            None => {
                assert(o.subrange(x.len() + d, o.len() as int) =~= y.subrange(d, y.len() as int));
            },
            Some(i) => {
                lemma_find_sub(y, escape_seq(), d);
                assert(o.subrange(x.len() + d, x.len() + i) =~= y.subrange(d, i));
                lemma_find_sub_shift(x, y, reset_seq(), i);
                match find_sub(y, reset_seq(), i) {
                    None => {
                        assert(o.subrange(x.len() + i, o.len() as int) =~= y.subrange(
                            i,
                            y.len() as int,
                        ));
                    },
                    Some(j) => {
                        lemma_find_sub(y, reset_seq(), i);
                        assert(o.subrange(x.len() + i, x.len() + j + 4) =~= y.subrange(i, j + 4));
                        lemma_wrapped_tail_shift(h, x, y, j + 4);
                    },
                }
            },
        }
    }
}

} // verus!
