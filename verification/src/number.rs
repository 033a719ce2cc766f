//! Decimal integers as they are written on the command line.

use crate::text::join;
use vstd::prelude::*;

verus! {

/// `c` is a decimal digit.
pub open spec fn is_digit(c: char) -> bool {
    '0' <= c && c <= '9'
}

/// Every character of `s` is a decimal digit.
pub open spec fn all_digits(s: Seq<char>) -> bool {
    forall|i: int| 0 <= i < s.len() ==> is_digit(#[trigger] s[i])
}

/// The number that a row of decimal digits denotes.
pub open spec fn digits_value(s: Seq<char>) -> int
    decreases s.len(),
{
    if s.len() == 0 {
        0
    } else {
        digits_value(s.drop_last()) * 10 + (s.last() as int - '0' as int)
    }
}

/// The integer that a text denotes: decimal digits behind an optional sign,
/// which is a plus sign or, where `signed`, a minus sign.
pub open spec fn numeral(s: Seq<char>, signed: bool) -> Option<int> {
    let negative = signed && s.len() > 0 && s[0] == '-';
    let digits = if negative || (s.len() > 0 && s[0] == '+') {
        s.skip(1)
    } else {
        s
    };
    if digits.len() > 0 && all_digits(digits) {
        Some(
            if negative {
                -digits_value(digits)
            } else {
                digits_value(digits)
            },
        )
    } else {
        None
    }
}

/// A text denotes an integer between `low` and `high`.
pub open spec fn denotes(s: Seq<char>, signed: bool, low: int, high: int) -> bool {
    numeral(s, signed) matches Some(v) && low <= v <= high
}

/// A number in decimal digits, without zeros before them.
pub open spec fn decimal(n: nat) -> Seq<char>
    decreases n,
{
    let last = ('0' as int + n % 10) as char;
    if n < 10 {
        seq![last]
    } else {
        decimal(n / 10).push(last)
    }
}

/// An integer in decimal, with a minus sign where it is negative.
pub open spec fn signed_decimal(n: int) -> Seq<char> {
    if n < 0 {
        "-"@ + decimal((-n) as nat)
    } else {
        decimal(n as nat)
    }
}

/// The digits of a number denote it.
proof fn lemma_decimal(n: nat)
    ensures
        decimal(n).len() > 0,
        all_digits(decimal(n)),
        digits_value(decimal(n)) == n,
    decreases n,
{
    let last = ('0' as int + n % 10) as char;
    if n < 10 {
        assert(decimal(n).drop_last() =~= Seq::<char>::empty());
        assert(digits_value(decimal(n).drop_last()) == 0);
    } else {
        lemma_decimal(n / 10);
        assert(decimal(n).drop_last() =~= decimal(n / 10));
    }
}

/// An integer is read back from what is printed of it.
pub proof fn law_printed_integer_is_read_back(n: int)
    ensures
        numeral(signed_decimal(n), true) == Some(n),
        n >= 0 ==> numeral(signed_decimal(n), false) == Some(n),
{
    reveal_strlit("-");
    if n < 0 {
        lemma_decimal((-n) as nat);
        assert(signed_decimal(n).skip(1) =~= decimal((-n) as nat));
    } else {
        lemma_decimal(n as nat);
        assert(is_digit(decimal(n as nat)[0]));
    }
}

/// A digit as a text.
fn show_digit(d: u8) -> (r: &'static str)
    requires
        d < 10,
    ensures
        r@ == seq![('0' as int + d) as char],
{
    proof {
        reveal_strlit("0");
        reveal_strlit("1");
        reveal_strlit("2");
        reveal_strlit("3");
        reveal_strlit("4");
        reveal_strlit("5");
        reveal_strlit("6");
        reveal_strlit("7");
        reveal_strlit("8");
        reveal_strlit("9");
    }
    match d {
        0 => "0",
        1 => "1",
        2 => "2",
        3 => "3",
        4 => "4",
        5 => "5",
        6 => "6",
        7 => "7",
        8 => "8",
        _ => "9",
    }
}

/// A number in decimal.
pub fn show_unsigned(n: u128) -> (r: String)
    ensures
        r@ == decimal(n as nat),
    decreases n,
{
    let last = show_digit((n % 10) as u8);
    if n < 10 {
        last.to_owned()
    } else {
        let front: String = show_unsigned(n / 10);
        let whole: String = join(front.as_str(), last);
        assert(whole@ =~= decimal(n as nat));
        whole
    }
}

/// An integer in decimal.
pub fn show_signed(n: i64) -> (r: String)
    ensures
        r@ == signed_decimal(n as int),
{
    if n < 0 {
        let size: u128 = (-(n as i128)) as u128;
        let digits: String = show_unsigned(size);
        join("-", digits.as_str())
    } else {
        show_unsigned(n as u128)
    }
}

/// What is said of a text that is no `i32`.
pub uninterp spec fn i32_complaint(s: Seq<char>) -> Seq<char>;

/// What is said of a text that is no `i64`.
pub uninterp spec fn i64_complaint(s: Seq<char>) -> Seq<char>;

/// What is said of a text that is no `u32`.
pub uninterp spec fn u32_complaint(s: Seq<char>) -> Seq<char>;

/// What is said of a text that is no `u64`.
pub uninterp spec fn u64_complaint(s: Seq<char>) -> Seq<char>;

/// Calls `str::parse::<i32>`: it accepts decimal digits behind an optional
/// plus or minus sign, where the number is in range. The error is given as
/// the text that its `Display` shows, which depends on the argument alone.
#[verifier::external_body]
pub(crate) fn parse_i32(s: &str) -> (r: Result<i32, String>)
    ensures
        match r {
            Ok(v) => numeral(s@, true) == Some(v as int),
            Err(t) => !denotes(s@, true, i32::MIN as int, i32::MAX as int) && t@ == i32_complaint(
                s@,
            ),
        },
{
    s.parse::<i32>().map_err(|e| e.to_string())
}

/// Calls `str::parse::<i64>`: it accepts decimal digits behind an optional
/// plus or minus sign, where the number is in range. The error is given as
/// the text that its `Display` shows, which depends on the argument alone.
#[verifier::external_body]
pub(crate) fn parse_i64(s: &str) -> (r: Result<i64, String>)
    ensures
        match r {
            Ok(v) => numeral(s@, true) == Some(v as int),
            Err(t) => !denotes(s@, true, i64::MIN as int, i64::MAX as int) && t@ == i64_complaint(
                s@,
            ),
        },
{
    s.parse::<i64>().map_err(|e| e.to_string())
}

/// Calls `str::parse::<u32>`: it accepts decimal digits behind an optional
/// plus sign, where the number is in range. The error is given as the text
/// that its `Display` shows, which depends on the argument alone.
#[verifier::external_body]
pub(crate) fn parse_u32(s: &str) -> (r: Result<u32, String>)
    ensures
        match r {
            Ok(v) => numeral(s@, false) == Some(v as int),
            Err(t) => !denotes(s@, false, 0, u32::MAX as int) && t@ == u32_complaint(s@),
        },
{
    s.parse::<u32>().map_err(|e| e.to_string())
}

/// Calls `str::parse::<u64>`: it accepts decimal digits behind an optional
/// plus sign, where the number is in range. The error is given as the text
/// that its `Display` shows, which depends on the argument alone.
#[verifier::external_body]
pub(crate) fn parse_u64(s: &str) -> (r: Result<u64, String>)
    ensures
        match r {
            Ok(v) => numeral(s@, false) == Some(v as int),
            Err(t) => !denotes(s@, false, 0, u64::MAX as int) && t@ == u64_complaint(s@),
        },
{
    s.parse::<u64>().map_err(|e| e.to_string())
}

/// What is printed of an integer is its shortest form: digits, with a minus
/// sign only where it is negative, and no zero in front of others.
pub proof fn law_printed_integer_is_short(n: int)
    ensures
        n >= 0 ==> all_digits(signed_decimal(n)),
        n < 0 ==> signed_decimal(n)[0] == '-' && all_digits(signed_decimal(n).skip(1)),
        n == 0 ==> signed_decimal(n) == seq!['0'],
        n > 0 ==> signed_decimal(n)[0] != '0',
        n < 0 ==> signed_decimal(n)[1] != '0',
        n >= 0 ==> decimal(n as nat) == signed_decimal(n),
{
    reveal_strlit("-");
    if n < 0 {
        lemma_decimal((-n) as nat);
        lemma_no_zero_in_front((-n) as nat);
        assert(signed_decimal(n).skip(1) =~= decimal((-n) as nat));
    } else {
        lemma_decimal(n as nat);
        if n > 0 {
            lemma_no_zero_in_front(n as nat);
        } else {
            assert(decimal(0) =~= seq!['0']);
        }
    }
}

/// The digits of a number do not begin with a zero, unless it is zero.
proof fn lemma_no_zero_in_front(n: nat)
    requires
        n > 0,
    ensures
        decimal(n).len() > 0,
        decimal(n)[0] != '0',
    decreases n,
{
    if n >= 10 {
        lemma_no_zero_in_front(n / 10);
    }
}

} // verus!
