//! The mathematical model of the emitted escape sequences.
//!
//! Every encoder in this crate is specified against the functions in this
//! module: [`prefix_chars`] gives the bytes that activate a style,
//! [`suffix_chars`] the bytes that deactivate it, and [`infix_chars`] the
//! minimal bytes that move a terminal from one style to another.

use vstd::prelude::*;

use crate::style::Color;
use crate::style::Style;

verus! {

/// How numeric attribute codes are formatted.  The choice is a runtime
/// parameter of the encoders, so both formats can coexist in one program.
#[derive(Clone, Copy, Debug, PartialEq, Eq, Structural)]
pub enum CodeFormat {
    /// Attribute codes as single digits: `1` for bold.
    Standard,
    /// Attribute codes zero-padded to two digits, `01` for bold, as some
    /// terminal implementations expect.  Color codes are never padded.
    ZeroPadded,
}

/// The full reset sequence `ESC[0m`.
pub open spec fn reset_chars() -> Seq<char> {
    seq!['\x1B', '[', '0', 'm']
}

/// The token `ESC[` that starts every escape sequence.
pub open spec fn sequence_start_chars() -> Seq<char> {
    seq!['\x1B', '[']
}

/// The decimal digit character for `d < 10`.
pub open spec fn digit_char(d: nat) -> char {
    if d == 0 {
        '0'
    } else if d == 1 {
        '1'
    } else if d == 2 {
        '2'
    } else if d == 3 {
        '3'
    } else if d == 4 {
        '4'
    } else if d == 5 {
        '5'
    } else if d == 6 {
        '6'
    } else if d == 7 {
        '7'
    } else if d == 8 {
        '8'
    } else {
        '9'
    }
}

/// The decimal digits of `n`, most significant first, without leading zeros.
pub open spec fn dec_chars(n: nat) -> Seq<char>
    decreases n,
{
    if n < 10 {
        seq![digit_char(n)]
    } else {
        dec_chars(n / 10) + seq![digit_char(n % 10)]
    }
}

/// The code fragment of one boolean attribute, whose code is `1` to `9`.
pub open spec fn attr_code_chars(code: nat, format: CodeFormat) -> Seq<char> {
    match format {
        CodeFormat::Standard => seq![digit_char(code)],
        CodeFormat::ZeroPadded => seq!['0', digit_char(code)],
    }
}

/// The foreground code fragment of a color.
pub open spec fn foreground_code_chars(c: Color) -> Seq<char> {
    match c {
        Color::Black => seq!['3', '0'],
        Color::Red => seq!['3', '1'],
        Color::Green => seq!['3', '2'],
        Color::Yellow => seq!['3', '3'],
        Color::Blue => seq!['3', '4'],
        Color::Purple => seq!['3', '5'],
        Color::Magenta => seq!['3', '5'],
        Color::Cyan => seq!['3', '6'],
        Color::White => seq!['3', '7'],
        Color::Fixed(n) => seq!['3', '8', ';', '5', ';'] + dec_chars(n as nat),
        Color::Rgb(r, g, b) => seq!['3', '8', ';', '2', ';'] + dec_chars(r as nat) + seq![';']
            + dec_chars(g as nat) + seq![';'] + dec_chars(b as nat),
        Color::Default => seq!['3', '9'],
        Color::DarkGray => seq!['9', '0'],
        Color::LightRed => seq!['9', '1'],
        Color::LightGreen => seq!['9', '2'],
        Color::LightYellow => seq!['9', '3'],
        Color::LightBlue => seq!['9', '4'],
        Color::LightPurple => seq!['9', '5'],
        Color::LightMagenta => seq!['9', '5'],
        Color::LightCyan => seq!['9', '6'],
        Color::LightGray => seq!['9', '7'],
    }
}

/// The background code fragment of a color.
pub open spec fn background_code_chars(c: Color) -> Seq<char> {
    match c {
        Color::Black => seq!['4', '0'],
        Color::Red => seq!['4', '1'],
        Color::Green => seq!['4', '2'],
        Color::Yellow => seq!['4', '3'],
        Color::Blue => seq!['4', '4'],
        Color::Purple => seq!['4', '5'],
        Color::Magenta => seq!['4', '5'],
        Color::Cyan => seq!['4', '6'],
        Color::White => seq!['4', '7'],
        Color::Fixed(n) => seq!['4', '8', ';', '5', ';'] + dec_chars(n as nat),
        Color::Rgb(r, g, b) => seq!['4', '8', ';', '2', ';'] + dec_chars(r as nat) + seq![';']
            + dec_chars(g as nat) + seq![';'] + dec_chars(b as nat),
        Color::Default => seq!['4', '9'],
        Color::DarkGray => seq!['1', '0', '0'],
        Color::LightRed => seq!['1', '0', '1'],
        Color::LightGreen => seq!['1', '0', '2'],
        Color::LightYellow => seq!['1', '0', '3'],
        Color::LightBlue => seq!['1', '0', '4'],
        Color::LightPurple => seq!['1', '0', '5'],
        Color::LightMagenta => seq!['1', '0', '5'],
        Color::LightCyan => seq!['1', '0', '6'],
        Color::LightGray => seq!['1', '0', '7'],
    }
}

/// A one-element fragment list when `cond` holds, the empty list otherwise.
pub open spec fn frag_if(cond: bool, frag: Seq<char>) -> Seq<Seq<char>> {
    if cond {
        seq![frag]
    } else {
        Seq::empty()
    }
}

/// The code fragments a style's prefix lists between `ESC[` and `m`, in
/// canonical order: the set attributes with codes `1,2,3,4,5,7,8,9`, then the
/// background color, then the foreground color.
pub open spec fn style_code_frags(s: Style, format: CodeFormat) -> Seq<Seq<char>> {
    frag_if(s.is_bold, attr_code_chars(1, format))
        + frag_if(s.is_dimmed, attr_code_chars(2, format))
        + frag_if(s.is_italic, attr_code_chars(3, format))
        + frag_if(s.is_underline, attr_code_chars(4, format))
        + frag_if(s.is_blink, attr_code_chars(5, format))
        + frag_if(s.is_reverse, attr_code_chars(7, format))
        + frag_if(s.is_hidden, attr_code_chars(8, format))
        + frag_if(s.is_strikethrough, attr_code_chars(9, format))
        + (match s.background {
            Some(c) => seq![background_code_chars(c)],
            None => Seq::empty(),
        })
        + (match s.foreground {
            Some(c) => seq![foreground_code_chars(c)],
            None => Seq::empty(),
        })
}

/// The fragments joined by single semicolons: no leading, trailing or doubled
/// separator.
pub open spec fn join_codes(frags: Seq<Seq<char>>) -> Seq<char>
    decreases frags.len(),
{
    if frags.len() == 0 {
        Seq::empty()
    } else if frags.len() == 1 {
        frags[0]
    } else {
        frags[0] + seq![';'] + join_codes(frags.drop_first())
    }
}

/// The bytes that go in front of a run of text to activate `s`: empty for the
/// plain style, else the optional forced reset, `ESC[`, the joined code list
/// and the closing `m`.
pub open spec fn prefix_chars(s: Style, format: CodeFormat) -> Seq<char> {
    if s.spec_is_plain() {
        Seq::empty()
    } else {
        (if s.prefix_with_reset {
            reset_chars()
        } else {
            Seq::empty()
        }) + sequence_start_chars() + join_codes(style_code_frags(s, format)) + seq!['m']
    }
}

/// The bytes that go after a run of text: empty for the plain style, else
/// exactly the full reset.
pub open spec fn suffix_chars(s: Style) -> Seq<char> {
    if s.spec_is_plain() {
        Seq::empty()
    } else {
        reset_chars()
    }
}

/// Whether the transition from `current` to `next` drops an attribute or a
/// color.  A terminal cannot turn a single attribute off without a full
/// reset, so any removal forces the reset-and-reapply path.
pub open spec fn removes_any(current: Style, next: Style) -> bool {
    ||| (current.is_bold && !next.is_bold)
    ||| (current.is_dimmed && !next.is_dimmed)
    ||| (current.is_italic && !next.is_italic)
    ||| (current.is_underline && !next.is_underline)
    ||| (current.is_blink && !next.is_blink)
    ||| (current.is_reverse && !next.is_reverse)
    ||| (current.is_hidden && !next.is_hidden)
    ||| (current.is_strikethrough && !next.is_strikethrough)
    ||| (current.foreground is Some && next.foreground is None)
    ||| (current.background is Some && next.background is None)
}

/// The style that carries exactly what `next` adds on top of `current`: the
/// newly set attributes and each color channel that changed.  Replacing a
/// color is not a removal; the new code supersedes the old one.
pub open spec fn update_style(current: Style, next: Style) -> Style {
    Style {
        foreground: if next.foreground == current.foreground {
            None
        } else {
            next.foreground
        },
        background: if next.background == current.background {
            None
        } else {
            next.background
        },
        is_bold: next.is_bold && !current.is_bold,
        is_dimmed: next.is_dimmed && !current.is_dimmed,
        is_italic: next.is_italic && !current.is_italic,
        is_underline: next.is_underline && !current.is_underline,
        is_blink: next.is_blink && !current.is_blink,
        is_reverse: next.is_reverse && !current.is_reverse,
        is_hidden: next.is_hidden && !current.is_hidden,
        is_strikethrough: next.is_strikethrough && !current.is_strikethrough,
        prefix_with_reset: false,
    }
}

/// A character that may stand inside an escape sequence's code list: a
/// decimal digit or the separator.
pub open spec fn is_code_char(c: char) -> bool {
    c == ';' || ('0' <= c && c <= '9')
}

/// A well-formed code fragment: nonempty, made of code characters only, and
/// when it starts with a zero its second character is a nonzero digit, so
/// that no fragment ever reads as the reset code `0`.
pub open spec fn wf_code_frag(fr: Seq<char>) -> bool {
    &&& fr.len() >= 1
    &&& forall|j: int| 0 <= j < fr.len() ==> is_code_char(#[trigger] fr[j])
    &&& fr[0] != '0' || (fr.len() >= 2 && '1' <= fr[1] && fr[1] <= '9')
}

/// Whether `out` contains the full reset sequence anywhere.
pub open spec fn contains_reset(out: Seq<char>) -> bool {
    exists|i: int| 0 <= i && i + 4 <= out.len() && #[trigger] out.subrange(i, i + 4)
        == reset_chars()
}

/// The decimal digits of a number are nonempty and all digits.
pub proof fn lemma_dec_chars_wf(n: nat)
    ensures
        dec_chars(n).len() >= 1,
        forall|j: int| 0 <= j < dec_chars(n).len() ==> is_code_char(#[trigger] dec_chars(n)[j]),
    decreases n,
{
    if n < 10 {
        assert('0' <= digit_char(n) <= '9');
    } else {
        lemma_dec_chars_wf(n / 10);
        assert(n / 10 > 0);
        assert(forall|j: int|
            0 <= j < dec_chars(n).len() ==> is_code_char(#[trigger] dec_chars(n)[j])) by {
            assert forall|j: int|
                0 <= j < dec_chars(n).len() implies is_code_char(#[trigger] dec_chars(n)[j]) by {
                if j < dec_chars(n / 10).len() {
                    assert(dec_chars(n)[j] == dec_chars(n / 10)[j]);
                } else {
                    assert(dec_chars(n)[j] == digit_char(n % 10));
                }
            }
        }
    }
}

/// Every foreground code fragment is well formed.
pub proof fn lemma_foreground_code_wf(c: Color)
    ensures
        wf_code_frag(foreground_code_chars(c)),
{
    match c {
        Color::Fixed(n) => {
            lemma_dec_chars_wf(n as nat);
        },
        Color::Rgb(r, g, b) => {
            lemma_dec_chars_wf(r as nat);
            lemma_dec_chars_wf(g as nat);
            lemma_dec_chars_wf(b as nat);
        },
        _ => {},
    }
}

/// Every background code fragment is well formed.
pub proof fn lemma_background_code_wf(c: Color)
    ensures
        wf_code_frag(background_code_chars(c)),
{
    match c {
        Color::Fixed(n) => {
            lemma_dec_chars_wf(n as nat);
        },
        Color::Rgb(r, g, b) => {
            lemma_dec_chars_wf(r as nat);
            lemma_dec_chars_wf(g as nat);
            lemma_dec_chars_wf(b as nat);
        },
        _ => {},
    }
}

/// Every attribute code fragment is well formed, in both formats.
pub proof fn lemma_attr_code_wf(code: nat, format: CodeFormat)
    requires
        1 <= code <= 9,
    ensures
        wf_code_frag(attr_code_chars(code, format)),
{
}

/// Every fragment of a list is well formed.
pub open spec fn all_frags_wf(frags: Seq<Seq<char>>) -> bool {
    forall|k: int| 0 <= k < frags.len() ==> wf_code_frag(#[trigger] frags[k])
}

/// A conditional singleton of a well-formed fragment is all well formed.
pub proof fn lemma_frag_if_wf(cond: bool, fr: Seq<char>)
    requires
        wf_code_frag(fr),
    ensures
        all_frags_wf(frag_if(cond, fr)),
{
}

/// Concatenating two all-well-formed lists gives an all-well-formed list.
pub proof fn lemma_concat_wf(a: Seq<Seq<char>>, b: Seq<Seq<char>>)
    requires
        all_frags_wf(a),
        all_frags_wf(b),
    ensures
        all_frags_wf(a + b),
{
    assert forall|k: int| 0 <= k < (a + b).len() implies wf_code_frag(#[trigger] (a + b)[k]) by {
        if k < a.len() {
            assert((a + b)[k] == a[k]);
        } else {
            assert((a + b)[k] == b[k - a.len()]);
        }
    }
}

/// Every fragment of a style's code list is well formed.
pub proof fn lemma_style_code_frags_wf(s: Style, format: CodeFormat)
    ensures
        all_frags_wf(style_code_frags(s, format)),
{
    let a1 = frag_if(s.is_bold, attr_code_chars(1, format));
    let a2 = frag_if(s.is_dimmed, attr_code_chars(2, format));
    let a3 = frag_if(s.is_italic, attr_code_chars(3, format));
    let a4 = frag_if(s.is_underline, attr_code_chars(4, format));
    let a5 = frag_if(s.is_blink, attr_code_chars(5, format));
    let a6 = frag_if(s.is_reverse, attr_code_chars(7, format));
    let a7 = frag_if(s.is_hidden, attr_code_chars(8, format));
    let a8 = frag_if(s.is_strikethrough, attr_code_chars(9, format));
    let a9 = match s.background {
        Some(c) => seq![background_code_chars(c)],
        None => Seq::<Seq<char>>::empty(),
    };
    let a10 = match s.foreground {
        Some(c) => seq![foreground_code_chars(c)],
        None => Seq::<Seq<char>>::empty(),
    };
    lemma_attr_code_wf(1, format);
    lemma_attr_code_wf(2, format);
    lemma_attr_code_wf(3, format);
    lemma_attr_code_wf(4, format);
    lemma_attr_code_wf(5, format);
    lemma_attr_code_wf(7, format);
    lemma_attr_code_wf(8, format);
    lemma_attr_code_wf(9, format);
    lemma_frag_if_wf(s.is_bold, attr_code_chars(1, format));
    lemma_frag_if_wf(s.is_dimmed, attr_code_chars(2, format));
    lemma_frag_if_wf(s.is_italic, attr_code_chars(3, format));
    lemma_frag_if_wf(s.is_underline, attr_code_chars(4, format));
    lemma_frag_if_wf(s.is_blink, attr_code_chars(5, format));
    lemma_frag_if_wf(s.is_reverse, attr_code_chars(7, format));
    lemma_frag_if_wf(s.is_hidden, attr_code_chars(8, format));
    lemma_frag_if_wf(s.is_strikethrough, attr_code_chars(9, format));
    match s.background {
        Some(c) => {
            lemma_background_code_wf(c);
            lemma_frag_if_wf(true, background_code_chars(c));
            assert(a9 == frag_if(true, background_code_chars(c)));
        },
        None => {},
    }
    match s.foreground {
        Some(c) => {
            lemma_foreground_code_wf(c);
            lemma_frag_if_wf(true, foreground_code_chars(c));
            assert(a10 == frag_if(true, foreground_code_chars(c)));
        },
        None => {},
    }
    lemma_concat_wf(a1, a2);
    lemma_concat_wf(a1 + a2, a3);
    lemma_concat_wf(a1 + a2 + a3, a4);
    lemma_concat_wf(a1 + a2 + a3 + a4, a5);
    lemma_concat_wf(a1 + a2 + a3 + a4 + a5, a6);
    lemma_concat_wf(a1 + a2 + a3 + a4 + a5 + a6, a7);
    lemma_concat_wf(a1 + a2 + a3 + a4 + a5 + a6 + a7, a8);
    lemma_concat_wf(a1 + a2 + a3 + a4 + a5 + a6 + a7 + a8, a9);
    lemma_concat_wf(a1 + a2 + a3 + a4 + a5 + a6 + a7 + a8 + a9, a10);
}

/// Joining well-formed fragments yields a nonempty string of code characters
/// that starts as its first fragment does.
pub proof fn lemma_join_codes_wf(frags: Seq<Seq<char>>)
    requires
        frags.len() >= 1,
        all_frags_wf(frags),
    ensures
        join_codes(frags).len() >= 1,
        forall|j: int|
            0 <= j < join_codes(frags).len() ==> is_code_char(#[trigger] join_codes(frags)[j]),
        join_codes(frags)[0] == frags[0][0],
        frags[0].len() >= 2 ==> join_codes(frags).len() >= 2 && join_codes(frags)[1]
            == frags[0][1],
    decreases frags.len(),
{
    if frags.len() == 1 {
        assert(wf_code_frag(frags[0]));
    } else {
        let rest = frags.drop_first();
        assert(all_frags_wf(rest));
        lemma_join_codes_wf(rest);
        let joined = join_codes(frags);
        let f0 = frags[0];
        assert(joined == f0 + seq![';'] + join_codes(rest));
        assert forall|j: int| 0 <= j < joined.len() implies is_code_char(#[trigger] joined[j]) by {
            if j < f0.len() {
                assert(joined[j] == f0[j]);
            } else if j == f0.len() {
                assert(joined[j] == ';');
            } else {
                assert(joined[j] == join_codes(rest)[j - f0.len() - 1]);
            }
        }
    }
}

/// The prefix of a style that does not force a reset never contains the
/// reset sequence: its only escape character starts the sequence, and the
/// code list never reads as the reset code.
#[verifier::rlimit(100)]
pub proof fn lemma_prefix_no_reset(s: Style, format: CodeFormat)
    requires
        !s.prefix_with_reset,
    ensures
        !contains_reset(prefix_chars(s, format)),
{
    if !s.spec_is_plain() {
        let frags = style_code_frags(s, format);
        let body = join_codes(frags);
        let out = prefix_chars(s, format);
        assert(frags.len() >= 1);
        lemma_style_code_frags_wf(s, format);
        lemma_join_codes_wf(frags);
        assert(out =~= sequence_start_chars() + body + seq!['m']);
        assert forall|i: int|
            0 <= i && i + 4 <= out.len() implies #[trigger] out.subrange(i, i + 4)
            != reset_chars() by {
            if out.subrange(i, i + 4) == reset_chars() {
                assert(out.subrange(i, i + 4)[0] == out[i]);
                assert(out.subrange(i, i + 4)[2] == out[i + 2]);
                assert(out.subrange(i, i + 4)[3] == out[i + 3]);
                assert(out[i] == '\x1B');
                if i > 0 {
                    if i == 1 {
                        assert(out[i] == '[');
                    } else {
                        assert(out[i] == body[i - 2]);
                        assert(is_code_char(body[i - 2]));
                    }
                    assert(false);
                } else {
                    assert(out[2] == '0' && out[3] == 'm');
                    assert(out[2] == body[0] && body[0] == frags[0][0]);
                    assert(wf_code_frag(frags[0]));
                    if frags[0][0] != '0' {
                        assert(false);
                    } else {
                        assert(frags[0].len() >= 2);
                        assert(out[3] == body[1] && body[1] == frags[0][1]);
                        assert('1' <= frags[0][1] <= '9');
                        assert(false);
                    }
                }
            }
        }
    }
}

/// The minimal bytes that move a terminal rendering `current` to rendering
/// `next`: nothing when the styles are identical, a full reset followed by
/// `next`'s complete prefix when something is removed, and only the added
/// codes otherwise.
pub open spec fn infix_chars(current: Style, next: Style, format: CodeFormat) -> Seq<char> {
    if current == next {
        Seq::empty()
    } else if removes_any(current, next) {
        reset_chars() + prefix_chars(next, format)
    } else {
        prefix_chars(update_style(current, next), format)
    }
}

} // verus!
