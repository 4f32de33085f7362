//! Laws that hold of every style and every transition.
//!
//! Each proof function here states one guarantee of the encoders over the
//! model in [`crate::codes`]; the encoders' own contracts tie that model to
//! the bytes they emit.

use vstd::prelude::*;

use crate::codes::CodeFormat;
use crate::codes::background_code_chars;
use crate::codes::contains_reset;
use crate::codes::foreground_code_chars;
use crate::codes::infix_chars;
use crate::codes::lemma_prefix_no_reset;
use crate::codes::prefix_chars;
use crate::codes::removes_any;
use crate::codes::reset_chars;
use crate::codes::style_code_frags;
use crate::codes::suffix_chars;
use crate::codes::update_style;
use crate::style::Color;
use crate::style::Style;

verus! {

/// A style's suffix is empty exactly when the style is plain, and any other
/// style's suffix is exactly the full reset sequence.
pub proof fn lemma_suffix_empty_iff_plain(s: Style)
    ensures
        suffix_chars(s).len() == 0 <==> s.spec_is_plain(),
        !s.spec_is_plain() ==> suffix_chars(s) == reset_chars(),
{
}

/// A style's prefix is empty exactly when the style is plain.
pub proof fn lemma_prefix_empty_iff_plain(s: Style, format: CodeFormat)
    ensures
        prefix_chars(s, format).len() == 0 <==> s.spec_is_plain(),
{
}

/// The transition between two identical styles is empty.
pub proof fn lemma_infix_identical_empty(s: Style, format: CodeFormat)
    ensures
        infix_chars(s, s, format) == Seq::<char>::empty(),
{
}

/// Additive monotonicity: when `next` keeps every attribute that `current`
/// has and neither color is removed, the transition contains no reset
/// sequence anywhere.
pub proof fn lemma_infix_additive_no_reset(current: Style, next: Style, format: CodeFormat)
    requires
        current.is_bold ==> next.is_bold,
        current.is_dimmed ==> next.is_dimmed,
        current.is_italic ==> next.is_italic,
        current.is_underline ==> next.is_underline,
        current.is_blink ==> next.is_blink,
        current.is_reverse ==> next.is_reverse,
        current.is_hidden ==> next.is_hidden,
        current.is_strikethrough ==> next.is_strikethrough,
        current.foreground is Some ==> next.foreground is Some,
        current.background is Some ==> next.background is Some,
    ensures
        !contains_reset(infix_chars(current, next, format)),
{
    if current == next {
        assert(!contains_reset(Seq::<char>::empty()));
    } else {
        assert(!removes_any(current, next));
        lemma_prefix_no_reset(update_style(current, next), format);
    }
}

/// Removal forces reset: when `current` has an attribute that `next` lacks,
/// the transition is exactly the full reset sequence followed by `next`'s
/// complete prefix.
pub proof fn lemma_infix_removal_resets(current: Style, next: Style, format: CodeFormat)
    requires
        (current.is_bold && !next.is_bold) || (current.is_dimmed && !next.is_dimmed) || (
        current.is_italic && !next.is_italic) || (current.is_underline && !next.is_underline) || (
        current.is_blink && !next.is_blink) || (current.is_reverse && !next.is_reverse) || (
        current.is_hidden && !next.is_hidden) || (current.is_strikethrough
            && !next.is_strikethrough),
    ensures
        infix_chars(current, next, format) == reset_chars() + prefix_chars(next, format),
{
}

/// Alias equivalence: `Purple` and `Magenta`, and their light counterparts,
/// produce identical foreground and background code fragments.
pub proof fn lemma_alias_equivalence()
    ensures
        foreground_code_chars(Color::Purple) == foreground_code_chars(Color::Magenta),
        background_code_chars(Color::Purple) == background_code_chars(Color::Magenta),
        foreground_code_chars(Color::LightPurple) == foreground_code_chars(Color::LightMagenta),
        background_code_chars(Color::LightPurple) == background_code_chars(Color::LightMagenta),
{
}

/// Two styles that differ only in naming `Purple` or `Magenta` (in either
/// channel) have byte-identical prefixes in every code format.
#[verifier::rlimit(100)]
pub proof fn lemma_alias_styles_encode_identically(s: Style, format: CodeFormat)
    ensures
        prefix_chars(Style { foreground: Some(Color::Purple), ..s }, format) == prefix_chars(
            Style { foreground: Some(Color::Magenta), ..s },
            format,
        ),
        prefix_chars(Style { background: Some(Color::Purple), ..s }, format) == prefix_chars(
            Style { background: Some(Color::Magenta), ..s },
            format,
        ),
{
    let pf = Style { foreground: Some(Color::Purple), ..s };
    let mf = Style { foreground: Some(Color::Magenta), ..s };
    assert(style_code_frags(pf, format) =~= style_code_frags(mf, format));
    let pb = Style { background: Some(Color::Purple), ..s };
    let mb = Style { background: Some(Color::Magenta), ..s };
    assert(style_code_frags(pb, format) =~= style_code_frags(mb, format));
}

} // verus!
