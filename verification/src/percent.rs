//! Formatting of the percentage score: integer arithmetic in hundredths of a
//! percentage point, printed with exactly two fraction digits.

use vstd::prelude::*;

verus! {

/// The character of one decimal digit.
pub open spec fn digit_char(d: nat) -> char {
    if d == 0 {
        '0'
    } else if d == 1 {
        '1'
    } else if d == 2 {
        '2'
    } else if d == 3 {
        '3'
    } else if d == 4 {
        '4'
    } else if d == 5 {
        '5'
    } else if d == 6 {
        '6'
    } else if d == 7 {
        '7'
    } else if d == 8 {
        '8'
    } else {
        '9'
    }
}

/// The decimal numeral of `n`, most significant digit first, no leading
/// zeros (a lone zero for `n == 0`).
pub open spec fn dec_seq(n: nat) -> Seq<char>
    decreases n,
{
    if n < 10 {
        seq![digit_char(n)]
    } else {
        dec_seq(n / 10).push(digit_char(n % 10))
    }
}

/// `score` out of `total` as hundredths of a percentage point, rounded to the
/// nearest hundredth with ties rounding up.
pub open spec fn percent_hundredths(score: nat, total: nat) -> nat
    recommends
        total > 0,
{
    (score * 10000 + total / 2) / total
}

/// The displayed percentage: the whole percent digits, a point, and exactly
/// two fraction digits. A zero total yields "0.00" whatever the score.
pub open spec fn percentage_seq(score: nat, total: nat) -> Seq<char> {
    if total == 0 {
        seq!['0', '.', '0', '0']
    } else {
        let h = percent_hundredths(score, total);
        dec_seq(h / 100) + seq!['.', digit_char((h % 100) / 10), digit_char(h % 10)]
    }
}

/// Append the character of the digit `d` to `s`.
fn push_digit(s: &mut String, d: u8)
    requires
        d < 10,
    ensures
        final(s)@ == old(s)@ + seq![digit_char(d as nat)],
{
    proof {
        reveal_strlit("0");
        reveal_strlit("1");
        reveal_strlit("2");
        reveal_strlit("3");
        reveal_strlit("4");
        reveal_strlit("5");
        reveal_strlit("6");
        reveal_strlit("7");
        reveal_strlit("8");
        reveal_strlit("9");
    }
    match d {
        0 => {
            assert("0"@ =~= seq![digit_char(d as nat)]);
            s.append("0");
        },
        1 => {
            assert("1"@ =~= seq![digit_char(d as nat)]);
            s.append("1");
        },
        2 => {
            assert("2"@ =~= seq![digit_char(d as nat)]);
            s.append("2");
        },
        3 => {
            assert("3"@ =~= seq![digit_char(d as nat)]);
            s.append("3");
        },
        4 => {
            assert("4"@ =~= seq![digit_char(d as nat)]);
            s.append("4");
        },
        5 => {
            assert("5"@ =~= seq![digit_char(d as nat)]);
            s.append("5");
        },
        6 => {
            assert("6"@ =~= seq![digit_char(d as nat)]);
            s.append("6");
        },
        7 => {
            assert("7"@ =~= seq![digit_char(d as nat)]);
            s.append("7");
        },
        8 => {
            assert("8"@ =~= seq![digit_char(d as nat)]);
            s.append("8");
        },
        _ => {
            assert("9"@ =~= seq![digit_char(d as nat)]);
            s.append("9");
        },
    }
}

/// Append the decimal numeral of `n` to `s`.
fn push_dec(s: &mut String, n: u128)
    ensures
        final(s)@ == old(s)@ + dec_seq(n as nat),
    decreases n,
{
    let ghost before = s@;
    if n >= 10 {
        push_dec(s, n / 10);
    }
    push_digit(s, (n % 10) as u8);
    proof {
        if n >= 10 {
            assert(s@ =~= before + dec_seq((n / 10) as nat).push(digit_char((n % 10) as nat)));
        }
    }
}

/// Format `score` out of `total` as a percentage string with two fraction
/// digits, rounded to the nearest hundredth of a percentage point (ties
/// upward). A zero total yields the fixed string "0.00" whatever the score.
pub fn format_percentage(score: usize, total: usize) -> (r: String)
    ensures
        r@ == percentage_seq(score as nat, total as nat),
{
    if total == 0 {
        let r = "0.00".to_owned();
        proof {
            reveal_strlit("0.00");
            assert(r@ =~= seq!['0', '.', '0', '0']);
        }
        return r;
    }
    let s128: u128 = score as u128;
    let t128: u128 = total as u128;
    assert(s128 * 10000 < u128::MAX) by (nonlinear_arith)
        requires
            s128 <= u64::MAX,
    ;
    let h: u128 = (s128 * 10000 + t128 / 2) / t128;
    let mut r = String::new();
    push_dec(&mut r, h / 100);
    proof {
        reveal_strlit(".");
        assert("."@ =~= seq!['.']);
    }
    r.append(".");
    push_digit(&mut r, ((h % 100) / 10) as u8);
    push_digit(&mut r, (h % 10) as u8);
    proof {
        let hn = percent_hundredths(score as nat, total as nat);
        assert(h as nat == hn);
        assert(r@ =~= dec_seq(hn / 100) + seq![
            '.',
            digit_char((hn % 100) / 10),
            digit_char(hn % 10),
        ]);
    }
    r
}

} // verus!
