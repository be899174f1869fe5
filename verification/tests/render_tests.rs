use dfutil::{bar, Theme};

fn plain_theme() -> Theme {
    Theme {
        threshold_usage_medium: 50,
        threshold_usage_high: 80,
        color_usage_low: None,
        color_usage_medium: None,
        color_usage_high: None,
        color_usage_void: None,
        char_bar_filled: '=',
        char_bar_empty: ' ',
        char_bar_open: '[',
        char_bar_close: ']',
    }
}

fn strip_escapes(s: &str) -> String {
    let mut out = String::new();
    let mut in_seq = false;
    for c in s.chars() {
        if in_seq {
            if c == 'm' {
                in_seq = false;
            }
        } else if c == '\u{1b}' {
            in_seq = true;
        } else {
            out.push(c);
        }
    }
    out
}

#[test]
fn bar_half_filled() {
    colored::control::set_override(false);
    let s = bar(10, Some(45), &plain_theme());
    assert_eq!(s, "[=====     ]");
}

#[test]
fn bar_full() {
    colored::control::set_override(false);
    let s = bar(10, Some(100), &plain_theme());
    assert_eq!(s, "[==========]");
}

#[test]
fn bar_zero_percent() {
    colored::control::set_override(false);
    let s = bar(10, Some(0), &plain_theme());
    assert_eq!(s, "[          ]");
}

#[test]
fn bar_no_percentage() {
    colored::control::set_override(false);
    let s = bar(10, None, &plain_theme());
    assert_eq!(s, "[          ]");
}

#[test]
fn bar_zero_width() {
    colored::control::set_override(false);
    let s = bar(0, Some(70), &plain_theme());
    assert_eq!(s, "[]");
}

#[test]
fn bar_rounds_fill_up() {
    colored::control::set_override(false);
    // 1% of 10 cells rounds up to one filled cell
    let s = bar(10, Some(1), &plain_theme());
    assert_eq!(s, "[=         ]");
}

#[test]
fn bar_inconsistent_thresholds_still_fills() {
    colored::control::set_override(false);
    let mut theme = plain_theme();
    theme.threshold_usage_medium = 80;
    theme.threshold_usage_high = 20;
    let s = bar(10, Some(100), &theme);
    assert_eq!(s, "[==========]");
}

#[test]
fn bar_banded_colors() {
    colored::control::set_override(true);
    let mut theme = plain_theme();
    theme.threshold_usage_medium = 40;
    theme.threshold_usage_high = 80;
    let s = bar(5, Some(100), &theme);
    // bands: low 2, medium 2, high 1; the empty band is zero cells but still
    // carries its colour wrapper
    assert_eq!(
        s,
        "[\u{1b}[32m==\u{1b}[0m\u{1b}[33m==\u{1b}[0m\u{1b}[31m=\u{1b}[0m\u{1b}[32m\u{1b}[0m]"
    );
    colored::control::unset_override();
}

#[test]
fn bar_visible_length_is_width_plus_brackets() {
    colored::control::set_override(true);
    let theme = plain_theme();
    for width in [0usize, 1, 3, 10, 17] {
        for pct in [None, Some(0u64), Some(1), Some(45), Some(99), Some(100)] {
            let s = bar(width, pct, &theme);
            assert_eq!(strip_escapes(&s).chars().count(), width + 2);
        }
    }
    colored::control::unset_override();
}

#[test]
fn bar_void_color_differs_from_zero_percent() {
    colored::control::set_override(true);
    let mut theme = plain_theme();
    theme.color_usage_void = Some(colored::Color::Blue);
    let with_zero = bar(3, Some(0), &theme);
    let with_none = bar(3, None, &theme);
    // same visible text, different colouring of the empty region
    assert_eq!(strip_escapes(&with_zero), "[   ]");
    assert_eq!(strip_escapes(&with_none), "[   ]");
    assert!(with_zero.contains("\u{1b}[32m"));
    assert!(with_none.contains("\u{1b}[34m"));
    colored::control::unset_override();
}
