//! The gauge renderer: a fixed-width bar whose filled part is split into a
//! low, a medium and a high band at the theme's thresholds, each colored,
//! followed by the empty region and enclosed in brackets. Colors reach the
//! terminal as ANSI escape sequences, so the contract speaks of the visible
//! text: the output with escape sequences stripped.

use vstd::prelude::*;
use vstd::string::StringExecFns;
use vstd::arithmetic::div_mod::{
    lemma_div_is_ordered, lemma_div_pos_is_pos, lemma_fundamental_div_mod_converse_div,
};
use crate::ansi::{ansi_closed, esc, lemma_visible_append, lemma_visible_plain, visible};
use crate::color::{color_green, color_red, color_yellow, paint};
use crate::strutil::{push_char, repeat_char};

verus! {

/// Colour and glyph choices for the gauge. The thresholds are percentages of
/// the width at which the medium and the high band begin; a colour left unset
/// falls back to a fixed default (green, yellow, red for the bands, green for
/// empty cells).
pub struct Theme {
    pub threshold_usage_medium: u64,
    pub threshold_usage_high: u64,
    pub color_usage_low: Option<colored::Color>,
    pub color_usage_medium: Option<colored::Color>,
    pub color_usage_high: Option<colored::Color>,
    pub color_usage_void: Option<colored::Color>,
    pub char_bar_filled: char,
    pub char_bar_empty: char,
    pub char_bar_open: char,
    pub char_bar_close: char,
}

impl Theme {
    /// The glyphs may not be the escape character, so that the bar's visible
    /// width is its character count.
    pub open spec fn wf(self) -> bool {
        &&& self.char_bar_filled != esc()
        &&& self.char_bar_empty != esc()
        &&& self.char_bar_open != esc()
        &&& self.char_bar_close != esc()
    }
}

/// `ceil(n * pct / 100)`.
pub open spec fn ceil_pct(n: int, pct: int) -> int {
    (n * pct + 99) / 100
}

/// How many cells are filled: the percentage of the width, rounded up; no
/// percentage fills nothing.
pub open spec fn fill_total(width: int, percentage: Option<u64>) -> int {
    match percentage {
        Some(p) => ceil_pct(width, p as int),
        None => 0,
    }
}

/// The low band: the filled cells up to the medium threshold.
pub open spec fn fill_low(width: int, percentage: Option<u64>, theme: Theme) -> int {
    let t = fill_total(width, percentage);
    let cap = ceil_pct(width, theme.threshold_usage_medium as int);
    if t < cap {
        t
    } else {
        cap
    }
}

/// The medium band: the filled cells between the medium and the high
/// threshold, clamped to an empty band when the thresholds are inconsistent.
pub open spec fn fill_medium(width: int, percentage: Option<u64>, theme: Theme) -> int {
    let t = fill_total(width, percentage);
    let cap = ceil_pct(width, theme.threshold_usage_high as int);
    let m = (if t < cap {
        t
    } else {
        cap
    }) - fill_low(width, percentage, theme);
    if m < 0 {
        0
    } else {
        m
    }
}

/// The high band: whatever filled cells the low and medium bands leave.
pub open spec fn fill_high(width: int, percentage: Option<u64>, theme: Theme) -> int {
    fill_total(width, percentage) - fill_low(width, percentage, theme) - fill_medium(
        width,
        percentage,
        theme,
    )
}

/// `n` copies of `c` (none when `n` is negative).
pub open spec fn repeat(c: char, n: int) -> Seq<char> {
    Seq::new(
        if n < 0 {
            0
        } else {
            n as nat
        },
        |i: int| c,
    )
}

/// The visible text of the rendered bar: the open bracket, the filled cells,
/// the empty cells, the close bracket.
pub open spec fn bar_text(width: int, percentage: Option<u64>, theme: Theme) -> Seq<char> {
    seq![theme.char_bar_open] + repeat(theme.char_bar_filled, fill_total(width, percentage))
        + repeat(theme.char_bar_empty, width - fill_total(width, percentage)) + seq![
        theme.char_bar_close,
    ]
}

/// The filled cells never outnumber the width.
pub proof fn lemma_fill_in_range(width: int, percentage: Option<u64>)
    requires
        width >= 0,
        percentage matches Some(p) ==> p <= 100,
    ensures
        0 <= fill_total(width, percentage) <= width,
{
    match percentage {
        Some(p) => {
            assert(0 <= width * (p as int) && width * (p as int) <= 100 * width)
                by (nonlinear_arith)
                requires
                    width >= 0,
                    0 <= p as int <= 100,
            ;
            lemma_div_pos_is_pos(width * (p as int) + 99, 100);
            lemma_div_is_ordered(width * (p as int) + 99, 100 * width + 99, 100);
            lemma_fundamental_div_mod_converse_div(100 * width + 99, 100, width, 99);
        },
        None => {},
    }
}

/// A percentage cap is never negative.
proof fn lemma_cap_nonneg(width: int, pct: int)
    requires
        width >= 0,
        pct >= 0,
    ensures
        ceil_pct(width, pct) >= 0,
{
    assert(width * pct >= 0) by (nonlinear_arith)
        requires
            width >= 0,
            pct >= 0,
    ;
    lemma_div_pos_is_pos(width * pct + 99, 100);
}

/// The three bands are non-negative and partition the filled cells exactly,
/// whatever the theme's thresholds; the filled cells stay within the width.
pub proof fn lemma_bands_partition(width: int, percentage: Option<u64>, theme: Theme)
    requires
        width >= 0,
        percentage matches Some(p) ==> p <= 100,
    ensures
        0 <= fill_low(width, percentage, theme),
        0 <= fill_medium(width, percentage, theme),
        0 <= fill_high(width, percentage, theme),
        fill_low(width, percentage, theme) + fill_medium(width, percentage, theme) + fill_high(
            width,
            percentage,
            theme,
        ) == fill_total(width, percentage),
        fill_total(width, percentage) <= width,
{
    lemma_fill_in_range(width, percentage);
    lemma_cap_nonneg(width, theme.threshold_usage_medium as int);
    lemma_cap_nonneg(width, theme.threshold_usage_high as int);
}

/// The visible text of the bar is always exactly the width plus the two
/// brackets.
pub proof fn lemma_bar_text_len(width: int, percentage: Option<u64>, theme: Theme)
    requires
        width >= 0,
        percentage matches Some(p) ==> p <= 100,
    ensures
        bar_text(width, percentage, theme).len() == width + 2,
{
    lemma_fill_in_range(width, percentage);
}

/// Renders the gauge: brackets around `width` cells, of which the percentage's
/// share (rounded up) is filled and banded low, medium, high at the theme's
/// thresholds, the rest empty. With no percentage the bar is empty and the
/// empty cells take the void colour. Escape sequences aside, the result is
/// exactly `bar_text`.
pub fn bar(width: usize, percentage: Option<u64>, theme: &Theme) -> (r: String)
    requires
        theme.wf(),
        percentage matches Some(p) ==> p <= 100,
    ensures
        visible(r@) == bar_text(width as int, percentage, *theme),
        ansi_closed(r@),
{
    let ghost wi = width as int;
    let w128 = width as u128;
    proof {
        assert((w128 * 100 + 99) < u128::MAX) by (nonlinear_arith)
            requires
                w128 < 0x1_0000_0000_0000_0000,
        ;
        assert(w128 * (0xffff_ffff_ffff_ffffu64 as u128) + 99 < u128::MAX) by (nonlinear_arith)
            requires
                w128 < 0x1_0000_0000_0000_0000,
        ;
    }
    let total128: u128 = match percentage {
        Some(p) => {
            proof {
                assert(w128 * (p as u128) <= w128 * 100) by (nonlinear_arith)
                    requires
                        0 <= p as u128 <= 100,
                        w128 >= 0,
                ;
                lemma_fill_in_range(wi, percentage);
            }
            (w128 * (p as u128) + 99) / 100
        },
        None => 0,
    };
    proof {
        assert(total128 as int == fill_total(wi, percentage));
        assert(total128 <= width as u128);
    }
    let len_total = total128 as usize;

    proof {
        assert(w128 * (theme.threshold_usage_medium as u128) <= w128 * (
        0xffff_ffff_ffff_ffffu64 as u128)) by (nonlinear_arith)
            requires
                w128 >= 0,
                theme.threshold_usage_medium as u128 <= 0xffff_ffff_ffff_ffffu64 as u128,
        ;
        assert(w128 * (theme.threshold_usage_high as u128) <= w128 * (
        0xffff_ffff_ffff_ffffu64 as u128)) by (nonlinear_arith)
            requires
                w128 >= 0,
                theme.threshold_usage_high as u128 <= 0xffff_ffff_ffff_ffffu64 as u128,
        ;
    }
    let cap_med128 = (w128 * (theme.threshold_usage_medium as u128) + 99) / 100;
    let cap_high128 = (w128 * (theme.threshold_usage_high as u128) + 99) / 100;
    let low128 = if total128 < cap_med128 {
        total128
    } else {
        cap_med128
    };
    let mhi128 = if total128 < cap_high128 {
        total128
    } else {
        cap_high128
    };
    let med128 = if mhi128 >= low128 {
        mhi128 - low128
    } else {
        0
    };
    let high128 = total128 - low128 - med128;
    proof {
        assert(low128 as int == fill_low(wi, percentage, *theme));
        assert(med128 as int == fill_medium(wi, percentage, *theme));
        assert(high128 as int == fill_high(wi, percentage, *theme));
    }
    let len_low = low128 as usize;
    let len_med = med128 as usize;
    let len_high = high128 as usize;
    let len_empty = width - len_total;

    let s_low = repeat_char(theme.char_bar_filled, len_low);
    let s_med = repeat_char(theme.char_bar_filled, len_med);
    let s_high = repeat_char(theme.char_bar_filled, len_high);
    let s_empty = repeat_char(theme.char_bar_empty, len_empty);
    proof {
        assert(forall|i: int| 0 <= i < s_low@.len() ==> s_low@[i] != esc());
        assert(forall|i: int| 0 <= i < s_med@.len() ==> s_med@[i] != esc());
        assert(forall|i: int| 0 <= i < s_high@.len() ==> s_high@[i] != esc());
        assert(forall|i: int| 0 <= i < s_empty@.len() ==> s_empty@[i] != esc());
    }
    let p_low = paint(s_low.as_str(), &theme.color_usage_low, color_green());
    let p_med = paint(s_med.as_str(), &theme.color_usage_medium, color_yellow());
    let p_high = paint(s_high.as_str(), &theme.color_usage_high, color_red());
    let c_empty = match percentage {
        Some(_) => &theme.color_usage_low,
        None => &theme.color_usage_void,
    };
    let p_empty = paint(s_empty.as_str(), c_empty, color_green());

    let mut r = String::new();
    push_char(&mut r, theme.char_bar_open);
    proof {
        lemma_visible_plain(r@);
    }
    let ghost r1 = r@;
    r.append(p_low.as_str());
    proof {
        lemma_visible_append(r1, p_low@, false);
    }
    let ghost r2 = r@;
    r.append(p_med.as_str());
    proof {
        lemma_visible_append(r2, p_med@, false);
    }
    let ghost r3 = r@;
    r.append(p_high.as_str());
    proof {
        lemma_visible_append(r3, p_high@, false);
    }
    let ghost r4 = r@;
    r.append(p_empty.as_str());
    proof {
        lemma_visible_append(r4, p_empty@, false);
    }
    let ghost r5 = r@;
    push_char(&mut r, theme.char_bar_close);
    proof {
        lemma_visible_append(r5, seq![theme.char_bar_close], false);
        lemma_visible_plain(seq![theme.char_bar_close]);
        assert(visible(r@) =~= seq![theme.char_bar_open] + s_low@ + s_med@ + s_high@ + s_empty@
            + seq![theme.char_bar_close]);
        assert(visible(r@) =~= bar_text(wi, percentage, *theme));
    }
    r
}

} // verus!
