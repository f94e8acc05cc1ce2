use vstd::prelude::*;
use vstd::string::*;

verus! {

/// The ASCII digit for `d` in 0..10.
pub open spec fn digit_char(d: int) -> char {
    (48 + d) as char
}

/// Decimal digits of a natural number, most significant first, no leading zeros.
pub open spec fn digits(n: nat) -> Seq<char>
    decreases n,
{
    if n < 10 {
        seq![digit_char(n as int)]
    } else {
        digits(n / 10).push(digit_char((n % 10) as int))
    }
}

/// How `Display` writes an integer: its decimal digits, with a leading '-'
/// when negative.
pub open spec fn decimal(n: int) -> Seq<char> {
    if n < 0 {
        seq!['-'] + digits((-n) as nat)
    } else {
        digits(n as nat)
    }
}

/// The one-digit text of `d`.
fn digit_str(d: u64) -> (s: &'static str)
    requires
        d < 10,
    ensures
        s@ == seq![digit_char(d as int)],
{
    proof {
        reveal_strlit("0");
        reveal_strlit("1");
        reveal_strlit("2");
        reveal_strlit("3");
        reveal_strlit("4");
        reveal_strlit("5");
        reveal_strlit("6");
        reveal_strlit("7");
        reveal_strlit("8");
        reveal_strlit("9");
    }
    let s = if d == 0 {
        "0"
    } else if d == 1 {
        "1"
    } else if d == 2 {
        "2"
    } else if d == 3 {
        "3"
    } else if d == 4 {
        "4"
    } else if d == 5 {
        "5"
    } else if d == 6 {
        "6"
    } else if d == 7 {
        "7"
    } else if d == 8 {
        "8"
    } else {
        "9"
    };
    proof {
        assert(s@ =~= seq![digit_char(d as int)]);
    }
    s
}

/// The decimal digits of `m`.
fn digits_string(m: u64) -> (s: String)
    ensures
        s@ == digits(m as nat),
    decreases m,
{
    if m < 10 {
        String::from_str(digit_str(m))
    } else {
        let high = digits_string(m / 10);
        let s = high.concat(digit_str(m % 10));
        proof {
            assert(s@ =~= digits((m / 10) as nat).push(digit_char((m % 10) as int)));
        }
        s
    }
}

/// The decimal text of an integer, as `Display` writes it: an optional '-',
/// then the digits without leading zeros.
pub(crate) fn decimal_string(n: i64) -> (s: String)
    ensures
        s@ == decimal(n as int),
{
    if n < 0 {
        let m: u64 = (-(n as i128)) as u64;
        let d = digits_string(m);
        let minus = String::from_str("-");
        proof {
            reveal_strlit("-");
        }
        let s = minus.concat(d.as_str());
        proof {
            assert(s@ =~= seq!['-'] + digits((-n) as nat));
        }
        s
    } else {
        digits_string(n as u64)
    }
}

/// `format!("{prefix}{n}")`.
pub fn label_int(prefix: &str, n: i64) -> (s: String)
    ensures
        s@ == prefix@ + decimal(n as int),
{
    let digits = decimal_string(n);
    let s = String::from_str(prefix);
    s.concat(digits.as_str())
}

/// `format!("{prefix}{n}{suffix}")`.
pub fn label_int_suffix(prefix: &str, n: i64, suffix: &str) -> (s: String)
    ensures
        s@ == prefix@ + decimal(n as int) + suffix@,
{
    let s = label_int(prefix, n);
    s.concat(suffix)
}

/// `format!("{prefix}{text}")`.
pub fn label_text(prefix: &str, text: &str) -> (s: String)
    ensures
        s@ == prefix@ + text@,
{
    let s = String::from_str(prefix);
    s.concat(text)
}

/// `format!("{text}: {n}")`.
pub fn text_colon_int(text: &str, n: i64) -> (s: String)
    ensures
        s@ == text@ + ": "@ + decimal(n as int),
{
    let s = String::from_str(text);
    let s = s.concat(": ");
    let digits = decimal_string(n);
    s.concat(digits.as_str())
}

} // verus!
