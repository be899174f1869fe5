//! The boundary to the `colored` crate: the opaque colour type, the default
//! colours, and the one call that applies a colour to a piece of text.

use vstd::prelude::*;
use crate::ansi::{ansi_closed, esc, visible};

verus! {

/// `colored::Color`, the colour type of the `colored` crate; values of it are
/// opaque here and only carried through to the terminal.
#[verifier::external_type_specification]
#[verifier::external_body]
pub struct ExColor(colored::Color);

/// Relies on `colored::Color::Green`, the default colour for the low band
/// and for empty cells.
#[verifier::external_body]
pub(crate) fn color_green() -> colored::Color {
    colored::Color::Green
}

/// Relies on `colored::Color::Yellow`, the default colour for the medium
/// band.
#[verifier::external_body]
pub(crate) fn color_yellow() -> colored::Color {
    colored::Color::Yellow
}

/// Relies on `colored::Color::Red`, the default colour for the high band.
#[verifier::external_body]
pub(crate) fn color_red() -> colored::Color {
    colored::Color::Red
}

/// Relies on `colored::Colorize::color` for `&str` and on `ColoredString`'s
/// `Display`: the result is the input either bare or wrapped in complete SGR
/// escape sequences (escape, `[`, parameters, `m` before; the reset sequence
/// after), so stripping escape sequences gives the input back. Whether the
/// wrapping happens depends on the environment, so no more is claimed. When
/// `color` is unset the fallback colour is applied instead.
#[verifier::external_body]
pub(crate) fn paint(s: &str, color: &Option<colored::Color>, fallback: colored::Color) -> (r: String)
    requires
        forall|i: int| 0 <= i < s@.len() ==> s@[i] != esc(),
    ensures
        visible(r@) == s@,
        ansi_closed(r@),
{
    let c = match color {
        Some(c) => *c,
        None => fallback,
    };
    colored::Colorize::color(s, c).to_string()
}

} // verus!
