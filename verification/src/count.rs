//! The count formatter: a non-negative count becomes a compact string with
//! one rounded fractional digit and a unit suffix, the unit chosen as the
//! largest power of the delimiter not above the count, clamped to the top of
//! the unit table.

use vstd::prelude::*;
use vstd::arithmetic::power::{
    pow, lemma_pow1, lemma_pow_adds, lemma_pow_increases, lemma_pow_positive,
};
use vstd::arithmetic::div_mod::{
    lemma_div_by_self, lemma_div_is_ordered, lemma_div_nonincreasing, lemma_fundamental_div_mod,
    lemma_mod_division_less_than_divisor, lemma_multiply_divide_lt,
};
use crate::strutil::push_char;

verus! {

/// The unit suffix for the given power of the delimiter: byte, kilo, mega,
/// giga, tera, peta, exa, zetta, yotta.
pub open spec fn unit_char(e: nat) -> char {
    if e == 0 {
        'B'
    } else if e == 1 {
        'k'
    } else if e == 2 {
        'M'
    } else if e == 3 {
        'G'
    } else if e == 4 {
        'T'
    } else if e == 5 {
        'P'
    } else if e == 6 {
        'E'
    } else if e == 7 {
        'Z'
    } else {
        'Y'
    }
}

/// The digit character for `d` in `0..10`.
pub open spec fn digit_char(d: int) -> char {
    if d == 0 {
        '0'
    } else if d == 1 {
        '1'
    } else if d == 2 {
        '2'
    } else if d == 3 {
        '3'
    } else if d == 4 {
        '4'
    } else if d == 5 {
        '5'
    } else if d == 6 {
        '6'
    } else if d == 7 {
        '7'
    } else if d == 8 {
        '8'
    } else {
        '9'
    }
}

/// The decimal digits of `n`, most significant first; anything below 10 is a
/// single digit.
pub open spec fn dec_digits(n: int) -> Seq<char>
    decreases n,
{
    if n < 10 {
        seq![digit_char(n)]
    } else {
        dec_digits(n / 10).push(digit_char(n % 10))
    }
}

/// The largest power of the delimiter that does not exceed the value, clamped
/// to the top index of the unit table.
pub open spec fn unit_exponent(value: int, delimiter: int) -> nat {
    if value < pow(delimiter, 1) {
        0
    } else if value < pow(delimiter, 2) {
        1
    } else if value < pow(delimiter, 3) {
        2
    } else if value < pow(delimiter, 4) {
        3
    } else if value < pow(delimiter, 5) {
        4
    } else if value < pow(delimiter, 6) {
        5
    } else if value < pow(delimiter, 7) {
        6
    } else if value < pow(delimiter, 8) {
        7
    } else {
        8
    }
}

/// The scaled value `value / delimiter^e` split into its whole part and its
/// rounded tenths digit, with the carry applied when the tenths round up to
/// a whole unit.
pub open spec fn scaled_whole(value: int, delimiter: int) -> int {
    let p = pow(delimiter, unit_exponent(value, delimiter));
    if (10 * (value % p) + p / 2) / p == 10 {
        value / p + 1
    } else {
        value / p
    }
}

/// The rounded tenths digit of the scaled value.
pub open spec fn scaled_tenths(value: int, delimiter: int) -> int {
    let p = pow(delimiter, unit_exponent(value, delimiter));
    if (10 * (value % p) + p / 2) / p == 10 {
        0
    } else {
        (10 * (value % p) + p / 2) / p
    }
}

/// What `format_count` returns: zero prints bare, with no unit; any other
/// value is scaled by the delimiter's power at the chosen exponent and
/// printed with one rounded fractional digit and the unit suffix.
pub open spec fn spec_format_count(value: int, delimiter: int) -> Seq<char> {
    if value < 1 {
        seq!['0']
    } else {
        dec_digits(scaled_whole(value, delimiter)) + seq![
            '.',
            digit_char(scaled_tenths(value, delimiter)),
            unit_char(unit_exponent(value, delimiter)),
        ]
    }
}

/// The exponent chosen for the branch conditions `pow(d, e) <= value`, and
/// `value < pow(d, e + 1)` when not clamped, is the one the table picks.
proof fn lemma_unit_exponent_is(value: int, delimiter: int, e: nat)
    requires
        delimiter >= 2,
        value >= 1,
        e <= 8,
        pow(delimiter, e) <= value,
        e < 8 ==> value < pow(delimiter, e + 1),
    ensures
        unit_exponent(value, delimiter) == e,
{
    assert forall|k: nat| 1 <= k <= e implies pow(delimiter, k) <= pow(delimiter, e) by {
        lemma_pow_increases(delimiter as nat, k, e);
    }
}

fn digit_to_char(d: u128) -> (c: char)
    requires
        d < 10,
    ensures
        c == digit_char(d as int),
{
    if d == 0 {
        '0'
    } else if d == 1 {
        '1'
    } else if d == 2 {
        '2'
    } else if d == 3 {
        '3'
    } else if d == 4 {
        '4'
    } else if d == 5 {
        '5'
    } else if d == 6 {
        '6'
    } else if d == 7 {
        '7'
    } else if d == 8 {
        '8'
    } else {
        '9'
    }
}

fn unit_to_char(e: usize) -> (c: char)
    requires
        e <= 8,
    ensures
        c == unit_char(e as nat),
{
    if e == 0 {
        'B'
    } else if e == 1 {
        'k'
    } else if e == 2 {
        'M'
    } else if e == 3 {
        'G'
    } else if e == 4 {
        'T'
    } else if e == 5 {
        'P'
    } else if e == 6 {
        'E'
    } else if e == 7 {
        'Z'
    } else {
        'Y'
    }
}

/// Appends the decimal digits of `n`.
fn push_decimal(out: &mut String, n: u128)
    ensures
        final(out)@ == old(out)@ + dec_digits(n as int),
    decreases n,
{
    if n < 10 {
        push_char(out, digit_to_char(n));
        proof {
            assert(out@ =~= old(out)@ + dec_digits(n as int));
        }
    } else {
        proof {
            vstd::arithmetic::div_mod::lemma_div_decreases(n as int, 10);
        }
        push_decimal(out, n / 10);
        push_char(out, digit_to_char(n % 10));
        proof {
            assert(dec_digits(n as int) == dec_digits(n as int / 10).push(
                digit_char(n as int % 10),
            ));
            assert(out@ =~= old(out)@ + dec_digits(n as int));
        }
    }
}

/// Formats a count with one rounded fractional digit and the unit suffix of
/// the largest delimiter power not above it, clamped at the yotta unit; zero
/// prints bare. The bound on `value` leaves headroom for the rounding
/// arithmetic in the machine word.
pub fn format_count(value: u128, delimiter: u128) -> (r: String)
    requires
        delimiter >= 2,
        value <= u128::MAX / 11,
    ensures
        r@ == spec_format_count(value as int, delimiter as int),
{
    let ghost vi = value as int;
    let ghost di = delimiter as int;
    proof {
        reveal(pow);
    }
    if value == 0 {
        let mut r = String::new();
        push_char(&mut r, '0');
        proof {
            assert(r@ =~= seq!['0']);
        }
        return r;
    }
    let mut e: usize = 0;
    let mut p: u128 = 1;
    while e < 8 && p <= value / delimiter
        invariant
            delimiter >= 2,
            1 <= value <= u128::MAX / 11,
            vi == value as int,
            di == delimiter as int,
            e <= 8,
            p as int == pow(di, e as nat),
            p as int <= vi,
        decreases 8 - e,
    {
        proof {
            reveal(pow);
            lemma_fundamental_div_mod(vi, di);
            lemma_mod_division_less_than_divisor(vi, di);
            let q = vi / di;
            assert(p as int * di <= vi) by (nonlinear_arith)
                requires
                    p as int <= q,
                    0 < di,
                    di * q <= vi,
            ;
        }
        p = p * delimiter;
        e = e + 1;
        proof {
            lemma_pow1(di);
            lemma_pow_adds(di, (e - 1) as nat, 1);
            assert(p as int == pow(di, e as nat));
        }
    }
    proof {
        reveal(pow);
        if e < 8 {
            // the loop left because p > value / delimiter, so value < p * delimiter
            lemma_fundamental_div_mod(vi, di);
            lemma_mod_division_less_than_divisor(vi, di);
            let q = vi / di;
            let rr = vi % di;
            assert(vi < p as int * di) by (nonlinear_arith)
                requires
                    q < p as int,
                    0 < di,
                    vi == di * q + rr,
                    rr < di,
            ;
            assert(pow(di, (e + 1) as nat) == di * pow(di, e as nat));
        }
        lemma_unit_exponent_is(vi, di, e as nat);
        lemma_pow_positive(di, e as nat);
    }
    let whole0 = value / p;
    let rem = value % p;
    proof {
        lemma_mod_division_less_than_divisor(vi, p as int);
        lemma_div_nonincreasing(vi, p as int);
        lemma_fundamental_div_mod(p as int, 2);
        lemma_mod_division_less_than_divisor(p as int, 2);
    }
    let tenths0 = (10 * rem + p / 2) / p;
    proof {
        assert(10 * rem as int + p as int / 2 < p as int * 11);
        lemma_multiply_divide_lt(10 * rem as int + p as int / 2, p as int, 11);
    }
    let mut whole = whole0;
    let mut tenths = tenths0;
    if tenths0 == 10 {
        whole = whole0 + 1;
        tenths = 0;
    }
    let mut r = String::new();
    push_decimal(&mut r, whole);
    push_char(&mut r, '.');
    push_char(&mut r, digit_to_char(tenths));
    push_char(&mut r, unit_to_char(e));
    proof {
        assert(whole as int == scaled_whole(vi, di));
        assert(tenths as int == scaled_tenths(vi, di));
        assert(r@ =~= spec_format_count(vi, di));
    }
    r
}

/// For every count of at least one unit, the chosen exponent stays within
/// the unit table, and the scaled count is at least 1 and below the
/// delimiter, except when the exponent is clamped at the top unit.
pub proof fn lemma_exponent_in_range(value: int, delimiter: int)
    requires
        value >= 1,
        delimiter >= 2,
    ensures
        0 <= unit_exponent(value, delimiter) <= 8,
        pow(delimiter, unit_exponent(value, delimiter)) <= value,
        1 <= value / pow(delimiter, unit_exponent(value, delimiter)),
        value < pow(delimiter, 9) ==> value / pow(delimiter, unit_exponent(value, delimiter))
            < delimiter,
{
    reveal(pow);
    let e = unit_exponent(value, delimiter);
    let p = pow(delimiter, e);
    lemma_pow_positive(delimiter, e);
    assert(p <= value);
    lemma_div_is_ordered(p, value, p);
    lemma_div_by_self(p);
    if value < pow(delimiter, 9) {
        assert(value < pow(delimiter, (e + 1) as nat));
        assert(pow(delimiter, (e + 1) as nat) == delimiter * p);
        lemma_multiply_divide_lt(value, p, delimiter);
    }
}

} // verus!

