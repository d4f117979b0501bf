//! Decimal text of numbers: whole numbers, and quotients rounded to a fixed
//! number of decimals, ties to even.
use vstd::prelude::*;

use crate::text::push_char;

verus! {

/// The character of a decimal digit.
pub open spec fn digit_char(d: nat) -> char {
    if d == 0 {
        '0'
    } else if d == 1 {
        '1'
    } else if d == 2 {
        '2'
    } else if d == 3 {
        '3'
    } else if d == 4 {
        '4'
    } else if d == 5 {
        '5'
    } else if d == 6 {
        '6'
    } else if d == 7 {
        '7'
    } else if d == 8 {
        '8'
    } else {
        '9'
    }
}

/// The decimal text of a whole number, without leading zeros.
pub open spec fn nat_text(n: nat) -> Seq<char>
    decreases n,
{
    if n < 10 {
        seq![digit_char(n)]
    } else {
        nat_text(n / 10).push(digit_char(n % 10))
    }
}

/// The last `places` decimal digits of `n`, with leading zeros.
pub open spec fn frac_text(n: nat, places: nat) -> Seq<char>
    decreases places,
{
    if places == 0 {
        Seq::empty()
    } else {
        frac_text(n / 10, (places - 1) as nat).push(digit_char(n % 10))
    }
}

pub open spec fn pow10(p: nat) -> nat
    decreases p,
{
    if p == 0 {
        1
    } else {
        10 * pow10((p - 1) as nat)
    }
}

/// `n / d` rounded to the nearest whole number, ties to the even one.
pub open spec fn round_half_even(n: nat, d: nat) -> nat
    recommends
        d > 0,
{
    let q = n / d;
    let r = n % d;
    if 2 * r > d || (2 * r == d && q % 2 == 1) {
        q + 1
    } else {
        q
    }
}

/// `n / d` written with `places` decimals, rounded ties to even.
pub open spec fn fixed_text(n: nat, d: nat, places: nat) -> Seq<char> {
    let h = round_half_even(n * pow10(places), d);
    if places == 0 {
        nat_text(h)
    } else {
        nat_text(h / pow10(places)) + seq!['.'] + frac_text(h % pow10(places), places)
    }
}

fn digit(d: u128) -> (c: char)
    requires
        d < 10,
    ensures
        c == digit_char(d as nat),
{
    if d == 0 {
        '0'
    } else if d == 1 {
        '1'
    } else if d == 2 {
        '2'
    } else if d == 3 {
        '3'
    } else if d == 4 {
        '4'
    } else if d == 5 {
        '5'
    } else if d == 6 {
        '6'
    } else if d == 7 {
        '7'
    } else if d == 8 {
        '8'
    } else {
        '9'
    }
}

/// Appends the decimal text of `n`.
pub fn push_decimal(s: &mut String, n: u128)
    ensures
        final(s)@ == old(s)@ + nat_text(n as nat),
    decreases n,
{
    if n >= 10 {
        push_decimal(s, n / 10);
    }
    push_char(s, digit(n % 10));
    proof {
        if n >= 10 {
            assert(old(s)@ + nat_text(n as nat) =~= old(s)@ + nat_text((n / 10) as nat) + seq![
                digit_char((n % 10) as nat),
            ]);
        } else {
            assert(old(s)@ + nat_text(n as nat) =~= old(s)@ + seq![digit_char((n % 10) as nat)]);
        }
    }
}

/// Appends the last `places` decimal digits of `n`.
fn push_frac(s: &mut String, n: u128, places: u32)
    ensures
        final(s)@ == old(s)@ + frac_text(n as nat, places as nat),
    decreases places,
{
    if places == 0 {
        proof {
            assert(old(s)@ + frac_text(n as nat, 0) =~= old(s)@);
        }
        return;
    }
    push_frac(s, n / 10, places - 1);
    push_char(s, digit(n % 10));
    proof {
        assert(old(s)@ + frac_text(n as nat, places as nat) =~= old(s)@ + frac_text(
            (n / 10) as nat,
            (places - 1) as nat,
        ) + seq![digit_char((n % 10) as nat)]);
    }
}

/// The decimal text of `n`.
pub fn decimal_text(n: u128) -> (r: String)
    ensures
        r@ == nat_text(n as nat),
{
    let mut r = String::new();
    push_decimal(&mut r, n);
    proof {
        assert(r@ =~= nat_text(n as nat));
    }
    r
}

fn scale_of(places: u32) -> (r: u128)
    requires
        places <= 4,
    ensures
        r == pow10(places as nat),
        1 <= r <= 10000,
{
    proof {
        reveal_with_fuel(pow10, 5);
    }
    if places == 0 {
        1
    } else if places == 1 {
        10
    } else if places == 2 {
        100
    } else if places == 3 {
        1000
    } else {
        10000
    }
}

/// Appends `n / d` written with `places` decimals, rounded ties to even.
pub fn push_fixed(s: &mut String, n: u128, d: u128, places: u32)
    requires
        d > 0,
        places <= 4,
        n < 0x1_0000_0000_0000_0000_0000_0000u128,
    ensures
        final(s)@ == old(s)@ + fixed_text(n as nat, d as nat, places as nat),
{
    let scale = scale_of(places);
    assert(n * scale < 0x1_0000_0000_0000_0000_0000_0000u128 * 10001) by (nonlinear_arith)
        requires
            1 <= scale <= 10000,
            n < 0x1_0000_0000_0000_0000_0000_0000u128,
    ;
    let scaled: u128 = n * scale;
    let q = scaled / d;
    let r = scaled % d;
    assert(q <= scaled) by (nonlinear_arith)
        requires
            q == scaled / d,
            d > 0,
    ;
    let h: u128 = if r > d - r || (r == d - r && q % 2 == 1) {
        q + 1
    } else {
        q
    };
    proof {
        assert(h == round_half_even(n as nat * pow10(places as nat), d as nat));
    }
    if places == 0 {
        push_decimal(s, h);
    } else {
        push_decimal(s, h / scale);
        push_char(s, '.');
        push_frac(s, h % scale, places);
        proof {
            assert(s@ =~= old(s)@ + fixed_text(n as nat, d as nat, places as nat));
        }
    }
}

} // verus!
