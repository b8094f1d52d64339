//! The style model: a style maps to an ANSI start code; a styled span is
//! `<start-code><span-text><reset-code>`, with one canonical reset code for
//! every style. A plain style renders nothing at all.

use vstd::prelude::*;

verus! {

/// The named terminal foreground colors this crate styles tokens with.
#[derive(Clone, Copy, PartialEq, Eq, Structural, Debug)]
pub enum Color {
    Black,
    Red,
    Green,
    Yellow,
    Blue,
    Magenta,
    Cyan,
    White,
}

/// A rendering directive: an optional foreground color and a weight,
/// bound at construction time from user configuration.
#[derive(Clone, Copy, Debug)]
pub struct Style {
    pub fg: Option<Color>,
    pub bold: bool,
}

impl Style {
    pub fn new() -> (r: Style)
        ensures
            r.fg is None,
            !r.bold,
    {
        Style { fg: None, bold: false }
    }

    pub fn fg(self, color: Color) -> (r: Style)
        ensures
            r.fg == Some(color),
            r.bold == self.bold,
    {
        Style { fg: Some(color), bold: self.bold }
    }

    pub fn bold(self) -> (r: Style)
        ensures
            r.fg == self.fg,
            r.bold,
    {
        Style { fg: self.fg, bold: true }
    }

    /// A style with no color and no attribute renders nothing.
    pub open spec fn is_plain(self) -> bool {
        self.fg is None && !self.bold
    }
}

/// The two digits of the ANSI foreground code of a named color ("30".."37").
pub open spec fn fg_code_digits(c: Color) -> Seq<u8> {
    match c {
        Color::Black => seq![51u8, 48u8],
        Color::Red => seq![51u8, 49u8],
        Color::Green => seq![51u8, 50u8],
        Color::Yellow => seq![51u8, 51u8],
        Color::Blue => seq![51u8, 52u8],
        Color::Magenta => seq![51u8, 53u8],
        Color::Cyan => seq![51u8, 54u8],
        Color::White => seq![51u8, 55u8],
    }
}

/// The canonical reset code, `ESC [ 0 m`. Every styled span ends with this
/// exact byte sequence, and both the quote highlighter and the composition
/// wrapper recognize "already reset" by comparing against it literally.
pub open spec fn reset_seq() -> Seq<u8> {
    seq![27u8, 91u8, 48u8, 109u8]
}

/// The two bytes every ANSI start code begins with, `ESC [`.
pub open spec fn escape_seq() -> Seq<u8> {
    seq![27u8, 91u8]
}

/// The ANSI start code of a style: nothing for a plain style, otherwise
/// `ESC [`, the attribute and foreground codes separated by `;` (bold is
/// `1`, foreground codes are "30".."37"), then `m`.
pub open spec fn ansi_prefix(st: Style) -> Seq<u8> {
    if st.is_plain() {
        seq![]
    } else {
        escape_seq() + (if st.bold {
            seq![49u8]
        } else {
            seq![]
        }) + (match st.fg {
            Some(c) => (if st.bold {
                seq![59u8]
            } else {
                seq![]
            }) + fg_code_digits(c),
            None => seq![],
        }) + seq![109u8]
    }
}

/// Relies on `nu_ansi_term::Style::prefix` (through its `Display` impl,
/// which calls `Style::write_prefix`): a plain style writes nothing;
/// otherwise it writes `ESC [`, then the attribute codes (bold is `1`) and
/// the foreground code (`30`..`37` for the named colors) separated by `;`,
/// then `m`.
#[verifier::external_body]
pub fn nu_style_prefix(st: &Style) -> (r: Vec<u8>)
    ensures
        r@ == ansi_prefix(*st),
{
    let mut nu = nu_ansi_term::Style::new();
    nu.is_bold = st.bold;
    nu.foreground = st.fg.map(|c| match c {
        Color::Black => nu_ansi_term::Color::Black,
        Color::Red => nu_ansi_term::Color::Red,
        Color::Green => nu_ansi_term::Color::Green,
        Color::Yellow => nu_ansi_term::Color::Yellow,
        Color::Blue => nu_ansi_term::Color::Blue,
        Color::Magenta => nu_ansi_term::Color::Magenta,
        Color::Cyan => nu_ansi_term::Color::Cyan,
        Color::White => nu_ansi_term::Color::White,
    });
    format!("{}", nu.prefix()).into_bytes()
}

/// A span painted with a start code: `<start><text><reset>`, or the bare
/// text when the style is plain (an empty start code).
pub open spec fn paint_spec(prefix: Seq<u8>, text: Seq<u8>) -> Seq<u8> {
    if prefix.len() == 0 {
        text
    } else {
        prefix + text + reset_seq()
    }
}

/// The canonical reset code as an owned value.
pub fn reset_marker() -> (v: Vec<u8>)
    ensures
        v@ == reset_seq(),
{
    let mut v: Vec<u8> = Vec::new();
    v.push(27);
    v.push(91);
    v.push(48);
    v.push(109);
    proof {
        assert(v@ =~= reset_seq());
    }
    v
}

/// The escape-start marker as an owned value.
pub fn escape_marker() -> (v: Vec<u8>)
    ensures
        v@ == escape_seq(),
{
    let mut v: Vec<u8> = Vec::new();
    v.push(27);
    v.push(91);
    proof {
        assert(v@ =~= escape_seq());
    }
    v
}

/// Append `src[from..to]` to `out`, painted with `prefix`.
pub fn paint_push(out: &mut Vec<u8>, prefix: &Vec<u8>, src: &[u8], from: usize, to: usize)
    requires
        from <= to <= src@.len(),
    ensures
        final(out)@ == old(out)@ + paint_spec(prefix@, src@.subrange(from as int, to as int)),
{
    if prefix.len() == 0 {
        crate::scan::append_range(out, src, from, to);
    } else {
        crate::scan::append_vec(out, prefix);
        crate::scan::append_range(out, src, from, to);
        out.push(27);
        out.push(91);
        out.push(48);
        out.push(109);
        proof {
            assert(out@ =~= old(out)@ + (prefix@ + src@.subrange(from as int, to as int)
                + reset_seq()));
        }
    }
}

/// Append a single byte to `out`, painted with `prefix`.
pub fn paint_push_byte(out: &mut Vec<u8>, prefix: &Vec<u8>, b: u8)
    ensures
        final(out)@ == old(out)@ + paint_spec(prefix@, seq![b]),
{
    if prefix.len() == 0 {
        out.push(b);
        proof {
            assert(out@ =~= old(out)@ + seq![b]);
        }
    } else {
        crate::scan::append_vec(out, prefix);
        out.push(b);
        out.push(27);
        out.push(91);
        out.push(48);
        out.push(109);
        proof {
            assert(out@ =~= old(out)@ + (prefix@ + seq![b] + reset_seq()));
        }
    }
}

} // verus!
verus! {

/// The shape every non-plain start code has: it opens with `ESC [`, its
/// third byte is an attribute or color digit (never the reset's `0`), and
/// `ESC` occurs nowhere past the front — so a start code can never contain
/// the canonical reset, and the reset can never start inside one.
pub open spec fn clean_start_code(c: Seq<u8>) -> bool {
    &&& c.len() >= 4
    &&& c[0] == 27
    &&& c[1] == 91
    &&& c[2] != 48
    &&& forall|k: int| 1 <= k < c.len() ==> c[k] != 27
}

pub proof fn lemma_ansi_prefix_clean(st: Style)
    requires
        !st.is_plain(),
    ensures
        clean_start_code(ansi_prefix(st)),
{
    let p = ansi_prefix(st);
    match st.fg {
        None => {
            assert(p =~= seq![27u8, 91u8, 49u8, 109u8]);
        },
        Some(c) => {
            assert(fg_code_digits(c).len() == 2 && fg_code_digits(c)[0] == 51 && 48
                <= fg_code_digits(c)[1] <= 55 && fg_code_digits(c)[0] != 27 && fg_code_digits(
                c,
            )[1] != 27);
            if st.bold {
                assert(p =~= seq![27u8, 91u8, 49u8, 59u8] + fg_code_digits(c) + seq![109u8]);
            } else {
                assert(p =~= seq![27u8, 91u8] + fg_code_digits(c) + seq![109u8]);
            }
        },
    }
}

} // verus!
