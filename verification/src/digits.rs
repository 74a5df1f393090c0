//! Decimal rendering of the numeric values that fragments show.

use vstd::prelude::*;

verus! {

/// The character for one decimal digit.
pub open spec fn digit_char(d: nat) -> char {
    if d == 0 {
        '0'
    } else if d == 1 {
        '1'
    } else if d == 2 {
        '2'
    } else if d == 3 {
        '3'
    } else if d == 4 {
        '4'
    } else if d == 5 {
        '5'
    } else if d == 6 {
        '6'
    } else if d == 7 {
        '7'
    } else if d == 8 {
        '8'
    } else {
        '9'
    }
}

/// The usual decimal rendering of a natural number, most significant digit
/// first, no leading zeros (except for zero itself).
pub open spec fn dec_digits(n: nat) -> Seq<char>
    decreases n,
{
    if n < 10 {
        seq![digit_char(n)]
    } else {
        dec_digits(n / 10).push(digit_char(n % 10))
    }
}

/// Decimal rendering of an integer: a minus sign ahead of the digits when it
/// is negative.
pub open spec fn signed_dec_digits(v: int) -> Seq<char> {
    if v < 0 {
        seq!['-'] + dec_digits((-v) as nat)
    } else {
        dec_digits(v as nat)
    }
}

/// Rendering with one fixed decimal place of a value given in tenths:
/// the whole part, a point, one digit.
pub open spec fn tenths_digits(t: int) -> Seq<char> {
    if t < 0 {
        seq!['-'] + tenths_digits_nat((-t) as nat)
    } else {
        tenths_digits_nat(t as nat)
    }
}

/// `tenths_digits` on a non-negative value.
pub open spec fn tenths_digits_nat(t: nat) -> Seq<char> {
    dec_digits(t / 10) + seq!['.', digit_char(t % 10)]
}

/// Rendering with two fixed decimal places of a value given in hundredths.
pub open spec fn hundredths_digits(h: nat) -> Seq<char> {
    dec_digits(h / 100) + seq!['.', digit_char((h / 10) % 10), digit_char(h % 10)]
}

/// The one-character string for a decimal digit.
fn digit_str(d: u64) -> (r: &'static str)
    requires
        d < 10,
    ensures
        r@ == seq![digit_char(d as nat)],
{
    let r = match d {
        0 => "0",
        1 => "1",
        2 => "2",
        3 => "3",
        4 => "4",
        5 => "5",
        6 => "6",
        7 => "7",
        8 => "8",
        _ => "9",
    };
    proof {
        reveal_strlit("0");
        reveal_strlit("1");
        reveal_strlit("2");
        reveal_strlit("3");
        reveal_strlit("4");
        reveal_strlit("5");
        reveal_strlit("6");
        reveal_strlit("7");
        reveal_strlit("8");
        reveal_strlit("9");
        assert(r@ =~= seq![digit_char(d as nat)]);
    }
    r
}

/// Append the decimal rendering of `n`.
pub fn append_u64(out: &mut String, n: u64)
    ensures
        final(out)@ == old(out)@ + dec_digits(n as nat),
    decreases n,
{
    if n >= 10 {
        append_u64(out, n / 10);
        out.append(digit_str(n % 10));
    } else {
        out.append(digit_str(n));
    }
    proof {
        assert(final(out)@ =~= old(out)@ + dec_digits(n as nat));
    }
}

/// Append the decimal rendering of a signed value.
pub fn append_i64(out: &mut String, v: i64)
    ensures
        final(out)@ == old(out)@ + signed_dec_digits(v as int),
{
    if v < 0 {
        out.append("-");
        let m: u64 = (-(v as i128)) as u64;
        proof {
            reveal_strlit("-");
        }
        append_u64(out, m);
    } else {
        append_u64(out, v as u64);
    }
    proof {
        assert(final(out)@ =~= old(out)@ + signed_dec_digits(v as int));
    }
}

/// Append the one-decimal-place rendering of a non-negative value in tenths.
pub fn append_tenths(out: &mut String, t: u64)
    ensures
        final(out)@ == old(out)@ + tenths_digits_nat(t as nat),
{
    append_u64(out, t / 10);
    out.append(".");
    out.append(digit_str(t % 10));
    proof {
        reveal_strlit(".");
        assert(final(out)@ =~= old(out)@ + tenths_digits_nat(t as nat));
    }
}

/// Append the two-decimal-place rendering of a value in hundredths.
pub fn append_hundredths(out: &mut String, h: u64)
    ensures
        final(out)@ == old(out)@ + hundredths_digits(h as nat),
{
    append_u64(out, h / 100);
    out.append(".");
    out.append(digit_str((h / 10) % 10));
    out.append(digit_str(h % 10));
    proof {
        reveal_strlit(".");
        assert(final(out)@ =~= old(out)@ + hundredths_digits(h as nat));
    }
}

} // verus!
