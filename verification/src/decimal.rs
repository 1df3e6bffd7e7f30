//! Decimal text of a number, as collateral items are named by.
use vstd::prelude::*;
use vstd::string::StringExecFns;

verus! {

/// The digit `d`, for `d` below ten.
pub open spec fn digit_char(d: nat) -> char {
    if d == 0 {
        '0'
    } else if d == 1 {
        '1'
    } else if d == 2 {
        '2'
    } else if d == 3 {
        '3'
    } else if d == 4 {
        '4'
    } else if d == 5 {
        '5'
    } else if d == 6 {
        '6'
    } else if d == 7 {
        '7'
    } else if d == 8 {
        '8'
    } else {
        '9'
    }
}

/// The decimal digits of `n`, most significant first, without leading zeros;
/// `"0"` for zero.
pub open spec fn decimal_text(n: nat) -> Seq<char>
    decreases n,
{
    if n < 10 {
        seq![digit_char(n)]
    } else {
        decimal_text(n / 10).push(digit_char(n % 10))
    }
}

fn digit_text(d: u128) -> (text: &'static str)
    requires
        d < 10,
    ensures
        text@ == seq![digit_char(d as nat)],
{
    proof {
        reveal_strlit("0");
        reveal_strlit("1");
        reveal_strlit("2");
        reveal_strlit("3");
        reveal_strlit("4");
        reveal_strlit("5");
        reveal_strlit("6");
        reveal_strlit("7");
        reveal_strlit("8");
        reveal_strlit("9");
    }
    let text = if d == 0 {
        "0"
    } else if d == 1 {
        "1"
    } else if d == 2 {
        "2"
    } else if d == 3 {
        "3"
    } else if d == 4 {
        "4"
    } else if d == 5 {
        "5"
    } else if d == 6 {
        "6"
    } else if d == 7 {
        "7"
    } else if d == 8 {
        "8"
    } else {
        "9"
    };
    assert(text@ =~= seq![digit_char(d as nat)]);
    text
}

/// The decimal text of `n`.
pub fn decimal_string(n: u128) -> (text: String)
    ensures
        text@ == decimal_text(n as nat),
{
    let mut text = String::from_str(digit_text(n % 10));
    let mut rest: u128 = n / 10;
    assert(rest > 0 ==> decimal_text(n as nat) =~= decimal_text(rest as nat) + text@);
    while rest > 0
        invariant
            rest > 0 ==> decimal_text(n as nat) == decimal_text(rest as nat) + text@,
            rest == 0 ==> decimal_text(n as nat) == text@,
        decreases rest,
    {
        let ghost before = text@;
        text = String::from_str(digit_text(rest % 10)).concat(text.as_str());
        proof {
            let digit = seq![digit_char((rest % 10) as nat)];
            assert(text@ == digit + before);
            if rest < 10 {
                assert(decimal_text(rest as nat) + before =~= text@);
            } else {
                assert(decimal_text((rest / 10) as nat).push(digit_char((rest % 10) as nat)) + before
                    =~= decimal_text((rest / 10) as nat) + text@);
            }
        }
        rest = rest / 10;
    }
    text
}

} // verus!
