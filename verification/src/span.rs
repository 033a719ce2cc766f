//! Lengths of time: how they are written, and how a timeout is counted in
//! samples of a profile.

use crate::error::{Problem, Reason, ReasonView};
use crate::number::{all_digits, denotes, digits_value, is_digit, numeral, parse_u64};
use crate::text::{characters, cut, cut_at_first, join, lemma_find_from};
use vstd::prelude::*;
use vstd::string::*;

verus! {

/// Nanoseconds in a second.
pub const NANOS_PER_SECOND: u32 = 1_000_000_000;

/// A length of time, in seconds and the nanoseconds left over.
#[derive(Clone, Copy, Debug, PartialEq, Eq, Structural)]
pub struct Span {
    pub secs: u64,
    pub nanos: u32,
}

impl Span {
    /// The nanoseconds left over are less than a second.
    pub open spec fn wf(self) -> bool {
        self.nanos < NANOS_PER_SECOND
    }

    /// The length in nanoseconds.
    pub open spec fn nanoseconds(self) -> int {
        self.secs * NANOS_PER_SECOND + self.nanos
    }

    /// The length in nanoseconds.
    pub fn total(self) -> (r: u128)
        ensures
            r == self.nanoseconds(),
    {
        self.secs as u128 * 1_000_000_000 + self.nanos as u128
    }
}

/// How many decimal digits a text holds.
pub open spec fn digit_count(s: Seq<char>) -> nat
    decreases s.len(),
{
    if s.len() == 0 {
        0
    } else {
        digit_count(s.drop_last()) + if is_digit(s.last()) {
            1nat
        } else {
            0nat
        }
    }
}

/// `c` is a letter of a unit.
pub open spec fn is_letter(c: char) -> bool {
    ('a' <= c && c <= 'z') || ('A' <= c && c <= 'Z') || c == '\u{b5}'
}

/// A digit stands somewhere behind a letter, so that the text may hold more
/// than one number with its unit.
pub open spec fn has_later_digit(s: Seq<char>) -> bool {
    exists|i: int, j: int|
        0 <= i < j < s.len() && is_letter(#[trigger] s[i]) && is_digit(#[trigger] s[j])
}

/// A text holds one number with its unit, or at most 11 digits.
pub open spec fn short_enough(s: Seq<char>) -> bool {
    digit_count(s) <= 11 || !has_later_digit(s)
}

/// What a text with units such as `3s` or `300ms` means: seconds and
/// nanoseconds, or the complaint about it.
pub uninterp spec fn with_units(s: Seq<char>) -> Result<(u64, u32), Seq<char>>;

/// `c` is white space, a property that Unicode gives to these characters.
pub open spec fn is_blank(c: char) -> bool {
    ||| '\u{9}' <= c <= '\u{d}'
    ||| c == ' '
    ||| c == '\u{85}'
    ||| c == '\u{a0}'
    ||| c == '\u{1680}'
    ||| '\u{2000}' <= c <= '\u{200a}'
    ||| c == '\u{2028}'
    ||| c == '\u{2029}'
    ||| c == '\u{202f}'
    ||| c == '\u{205f}'
    ||| c == '\u{3000}'
}

/// Whether a character is white space.
fn blank(c: char) -> (r: bool)
    ensures
        r == is_blank(c),
{
    ('\u{9}' <= c && c <= '\u{d}') || c == ' ' || c == '\u{85}' || c == '\u{a0}' || c == '\u{1680}'
        || ('\u{2000}' <= c && c <= '\u{200a}') || c == '\u{2028}' || c == '\u{2029}' || c
        == '\u{202f}' || c == '\u{205f}' || c == '\u{3000}'
}

/// What can stand behind the point of a number: some digits, whose power of
/// ten is not too large, with white space anywhere.
pub open spec fn is_fraction(s: Seq<char>) -> bool {
    &&& 1 <= digit_count(s) <= 19
    &&& forall|i: int| 0 <= i < s.len() ==> is_digit(#[trigger] s[i]) || is_blank(s[i])
}

/// What a text with units is worth in nanoseconds.
pub open spec fn worth(s: Seq<char>) -> Option<int> {
    match with_units(s) {
        Ok(parts) => Some(Span { secs: parts.0, nanos: parts.1 }.nanoseconds()),
        Err(_) => None,
    }
}

/// One second more than can be counted, in nanoseconds.
pub open spec fn past_counting() -> int {
    (u64::MAX + 1) * NANOS_PER_SECOND
}

/// The position of the first letter at or after `i`, or the end.
pub open spec fn letter_from(s: Seq<char>, i: int) -> int
    decreases s.len() - i,
{
    if i >= s.len() {
        s.len() as int
    } else if is_letter(s[i]) {
        i
    } else {
        letter_from(s, i + 1)
    }
}

/// The first position at or after `i` that stands behind the last letter of a
/// row of letters, or the end.
pub open spec fn number_end(s: Seq<char>, i: int) -> int
    decreases s.len() - i,
{
    if i >= s.len() {
        s.len() as int
    } else if is_letter(s[i - 1]) && !is_letter(s[i]) {
        i
    } else {
        number_end(s, i + 1)
    }
}

/// A total below what is past counting would come to just that, by
/// nanoseconds that make up a full second with those that were left over: the
/// number is less than a second, or a second in a smaller unit.
pub open spec fn just_past(total: int, s: Seq<char>) -> bool {
    let u = letter_from(s, 0);
    &&& total < past_counting()
    &&& with_units(s) matches Ok(parts) && {
        &&& total + worth(s)->0 == past_counting()
        &&& parts.0 == 0 || (parts.0 == 1 && parts.1 == 0 && !(u < s.len() && s[u] == 's'))
    }
}

/// Among the numbers with units that a text begins with, there is one that
/// takes the total just past what can be counted. What stands before a point
/// is added before what stands behind it, and a number is added only where
/// white space, another number or nothing follows.
pub open spec fn goes_just_past(s: Seq<char>, total: int) -> bool
    decreases s.len(),
{
    if s.len() == 0 || total >= past_counting() {
        false
    } else {
        let end = number_end(s, 1);
        let number = s.take(end);
        let u = letter_from(number, 0);
        let unit = number.skip(u);
        let rest = s.skip(end);
        if end <= 0 || end > s.len() {
            false
        } else if end < s.len() && !is_digit(s[end]) && !is_blank(s[end]) {
            false
        } else {
            match cut_at_first(number.take(u), "."@) {
                None => just_past(total, number) || (worth(number) matches Some(a)
                    && goes_just_past(rest, total + a)),
                Some(parts) => {
                    let whole = parts.0 + unit;
                    let fraction = "0."@ + parts.1 + unit;
                    is_fraction(parts.1) && {
                        ||| just_past(total, whole)
                        ||| worth(whole) matches Some(a) && {
                            ||| just_past(total + a, fraction)
                            ||| worth(fraction) matches Some(b) && goes_just_past(
                                rest,
                                total + a + b,
                            )
                        }
                    }
                },
            }
        }
    }
}

/// A text can be read with units.
pub open spec fn readable_with_units(s: Seq<char>) -> bool {
    short_enough(s) || !goes_just_past(s, 0)
}

/// A text is a plain number of seconds, or can be read with units.
pub open spec fn readable(s: Seq<char>) -> bool {
    denotes(s, false, 0, u64::MAX as int) || readable_with_units(s)
}

/// The number of seconds that a text gives as digits with the letter `s`
/// behind them.
pub open spec fn seconds_of(s: Seq<char>) -> Option<int> {
    if s.len() >= 2 && s.last() == 's' && all_digits(s.drop_last()) && digits_value(s.drop_last())
        <= u64::MAX {
        Some(digits_value(s.drop_last()))
    } else {
        None
    }
}

/// Calls `humantime::parse_duration` and takes its `Duration` apart into
/// seconds and nanoseconds, which `Duration` keeps below a second. The error
/// is given as the text that its `Display` shows. The result depends on the
/// text alone. Digits with `s` behind them are that many seconds.
///
/// `parse_duration` adds one number after the other to a `Duration`, and
/// what stands behind a point after what stands before it. It panics where
/// the seconds come to `u64::MAX` beside nanoseconds that come to exactly a
/// full second, since it carries over only what is more. What it has added
/// until then is what the same numbers are worth when they are read alone.
/// One number with its unit never leads there, and neither does a text with
/// at most 11 digits: its numbers come to less than 10^11, no unit is larger
/// than a year, and so many years are less than can be counted.
#[verifier::external_body]
fn parse_with_units(s: &str) -> (r: Result<Span, String>)
    requires
        readable_with_units(s@),
    ensures
        match r {
            Ok(span) => span.wf() && with_units(s@) == Ok::<(u64, u32), Seq<char>>(
                (span.secs, span.nanos),
            ),
            Err(t) => with_units(s@) == Err::<(u64, u32), Seq<char>>(t@),
        },
        seconds_of(s@) is Some ==> r is Ok && r->Ok_0.secs == seconds_of(s@)->0 && r->Ok_0.nanos
            == 0,
{
    match humantime::parse_duration(s) {
        Ok(d) => Ok(Span { secs: d.as_secs(), nanos: d.subsec_nanos() }),
        Err(e) => Err(e.to_string()),
    }
}

/// What a text means as a duration: a plain number is a number of seconds,
/// anything else is read with units.
pub open spec fn duration_of(s: Seq<char>) -> Result<Span, ReasonView> {
    if denotes(s, false, 0, u64::MAX as int) {
        Ok(Span { secs: numeral(s, false)->0 as u64, nanos: 0 })
    } else {
        match with_units(s) {
            Ok(parts) => Ok(Span { secs: parts.0, nanos: parts.1 }),
            Err(t) => Err(Problem::Duration(t)),
        }
    }
}

/// How many decimal digits a text holds.
fn count_digits(all: &Vec<char>) -> (r: usize)
    ensures
        r == digit_count(all@),
{
    let mut count: usize = 0;
    let mut i: usize = 0;
    assert(all@.take(0) =~= Seq::<char>::empty());
    while i < all.len()
        invariant
            i <= all@.len(),
            count <= i,
            count == digit_count(all@.take(i as int)),
        decreases all@.len() - i,
    {
        assert(all@.take(i as int + 1).drop_last() =~= all@.take(i as int));
        if '0' <= all[i] && all[i] <= '9' {
            count += 1;
        }
        i += 1;
    }
    assert(all@.take(all@.len() as int) =~= all@);
    count
}

/// Whether a digit stands somewhere behind a letter.
fn finds_later_digit(all: &Vec<char>) -> (r: bool)
    ensures
        r == has_later_digit(all@),
{
    let mut lettered: bool = false;
    let mut i: usize = 0;
    while i < all.len()
        invariant
            i <= all@.len(),
            lettered == exists|k: int| 0 <= k < i && is_letter(#[trigger] all@[k]),
            forall|k: int, j: int|
                0 <= k < j < i ==> !(is_letter(#[trigger] all@[k]) && is_digit(#[trigger] all@[j])),
        decreases all@.len() - i,
    {
        let c: char = all[i];
        if lettered && '0' <= c && c <= '9' {
            let ghost k = choose|k: int| 0 <= k < i && is_letter(#[trigger] all@[k]);
            assert(is_letter(all@[k]) && is_digit(all@[i as int]));
            return true;
        }
        if ('a' <= c && c <= 'z') || ('A' <= c && c <= 'Z') || c == '\u{b5}' {
            assert(is_letter(all@[i as int]));
            lettered = true;
        }
        i += 1;
    }
    false
}

/// The position of the first letter, or the end.
fn find_letter(all: &Vec<char>) -> (r: usize)
    ensures
        r == letter_from(all@, 0),
        r <= all@.len(),
        forall|j: int| 0 <= j < r ==> !is_letter(#[trigger] all@[j]),
{
    let mut i: usize = 0;
    while i < all.len()
        invariant
            i <= all@.len(),
            letter_from(all@, 0) == letter_from(all@, i as int),
            forall|j: int| 0 <= j < i ==> !is_letter(#[trigger] all@[j]),
        decreases all@.len() - i,
    {
        let c: char = all[i];
        if ('a' <= c && c <= 'z') || ('A' <= c && c <= 'Z') || c == '\u{b5}' {
            return i;
        }
        i += 1;
    }
    i
}

/// Where the first number ends with its unit. Within the number no letter is
/// followed by anything but a letter.
fn find_number_end(all: &Vec<char>) -> (r: usize)
    requires
        all@.len() > 0,
    ensures
        r == number_end(all@, 1),
        0 < r <= all@.len(),
        forall|j: int|
            0 < j < r ==> !(is_letter(all@[j - 1]) && !is_letter(#[trigger] all@[j])),
{
    let mut i: usize = 1;
    while i < all.len()
        invariant
            0 < i <= all@.len(),
            number_end(all@, 1) == number_end(all@, i as int),
            forall|j: int|
                0 < j < i ==> !(is_letter(all@[j - 1]) && !is_letter(#[trigger] all@[j])),
        decreases all@.len() - i,
    {
        let b: char = all[i - 1];
        let c: char = all[i];
        let before: bool = ('a' <= b && b <= 'z') || ('A' <= b && b <= 'Z') || b == '\u{b5}';
        let here: bool = ('a' <= c && c <= 'z') || ('A' <= c && c <= 'Z') || c == '\u{b5}';
        if before && !here {
            return i;
        }
        i += 1;
    }
    i
}

/// Behind its first letter a number has letters only.
proof fn lemma_unit_is_letters(number: Seq<char>, u: int, i: int)
    requires
        0 <= u <= i < number.len(),
        is_letter(number[u]),
        forall|j: int|
            0 < j < number.len() ==> !(is_letter(number[j - 1]) && !is_letter(
                #[trigger] number[j],
            )),
    ensures
        is_letter(number[i]),
    decreases i - u,
{
    if u < i {
        lemma_unit_is_letters(number, u, i - 1);
    }
}

/// The first letter is a letter.
proof fn lemma_letter_from(s: Seq<char>, i: int)
    requires
        0 <= i <= s.len(),
    ensures
        i <= letter_from(s, i) <= s.len(),
        letter_from(s, i) < s.len() ==> is_letter(s[letter_from(s, i)]),
    decreases s.len() - i,
{
    if i < s.len() && !is_letter(s[i]) {
        lemma_letter_from(s, i + 1);
    }
}

/// Where letters stand only at the end, no digit stands behind a letter.
proof fn lemma_one_number(front: Seq<char>, unit: Seq<char>)
    requires
        forall|i: int| 0 <= i < front.len() ==> !is_letter(#[trigger] front[i]),
        forall|i: int| 0 <= i < unit.len() ==> is_letter(#[trigger] unit[i]),
    ensures
        !has_later_digit(front + unit),
{
    let s = front + unit;
    assert forall|i: int, j: int|
        0 <= i < j < s.len() implies !(is_letter(#[trigger] s[i]) && is_digit(
        #[trigger] s[j],
    )) by {
        if i < front.len() {
            assert(s[i] == front[i]);
        } else {
            assert(s[j] == unit[j - front.len()]);
        }
    }
}

/// What a text with one number is worth, and whether it takes a total just
/// past what can be counted.
fn weigh(total: u128, s: &str) -> (r: (Option<u128>, bool))
    requires
        !has_later_digit(s@),
    ensures
        r.0 is Some <==> worth(s@) is Some,
        r.0 matches Some(n) ==> worth(s@) == Some(n as int) && n < past_counting(),
        r.1 == just_past(total as int, s@),
{
    let all = characters(s);
    let u: usize = find_letter(&all);
    let in_seconds: bool = u < all.len() && all[u] == 's';
    match parse_with_units(s) {
        Ok(span) => {
            let n: u128 = span.total();
            let small: bool = span.secs == 0 || (span.secs == 1 && span.nanos == 0 && !in_seconds);
            let limit: u128 = 18_446_744_073_709_551_616_000_000_000;
            (Some(n), total < limit && small && total + n == limit)
        },
        Err(_) => (None, false),
    }
}

/// A number with its unit that a text begins with, and what follows.
struct Cut {
    front: String,
    unit: String,
    rest: String,
    /// Whether white space, a digit or nothing follows.
    ends: bool,
}

/// Cuts the first number with its unit off.
fn cut_number(s: &str) -> (r: Cut)
    requires
        s@.len() > 0,
    ensures
        ({
            let end = number_end(s@, 1);
            let number = s@.take(end);
            let u = letter_from(number, 0);
            &&& 0 < end <= s@.len()
            &&& r.front@ == number.take(u)
            &&& r.unit@ == number.skip(u)
            &&& r.rest@ == s@.skip(end)
            &&& number == r.front@ + r.unit@
            &&& r.ends == (end == s@.len() || is_digit(s@[end]) || is_blank(s@[end]))
        }),
        forall|i: int| 0 <= i < r.front@.len() ==> !is_letter(#[trigger] r.front@[i]),
        forall|i: int| 0 <= i < r.unit@.len() ==> is_letter(#[trigger] r.unit@[i]),
{
    let all = characters(s);
    let end: usize = find_number_end(&all);
    let length: usize = all.len();
    let number: String = s.substring_char(0, end).to_owned();
    let inside = characters(number.as_str());
    let u: usize = find_letter(&inside);
    assert(number@ =~= s@.take(end as int));
    let front: String = number.as_str().substring_char(0, u).to_owned();
    let unit: String = number.as_str().substring_char(u, end).to_owned();
    let rest: String = s.substring_char(end, length).to_owned();
    proof {
        lemma_letter_from(number@, 0);
        assert(front@ =~= number@.take(u as int));
        assert(unit@ =~= number@.skip(u as int));
        assert(rest@ =~= s@.skip(end as int));
        assert(number@ =~= front@ + unit@);
        assert forall|i: int| 0 <= i < unit@.len() implies is_letter(#[trigger] unit@[i]) by {
            lemma_unit_is_letters(number@, u as int, u + i);
        }
    }
    let ends: bool = end == length || ('0' <= all[end] && all[end] <= '9') || blank(all[end]);
    Cut { front, unit, rest, ends }
}

/// Whether a text can stand behind the point of a number.
fn finds_fraction(s: &str) -> (r: bool)
    ensures
        r == is_fraction(s@),
{
    let all = characters(s);
    let count: usize = count_digits(&all);
    let mut i: usize = 0;
    while i < all.len()
        invariant
            i <= all@.len(),
            all@ == s@,
            forall|j: int| 0 <= j < i ==> is_digit(#[trigger] all@[j]) || is_blank(all@[j]),
        decreases all@.len() - i,
    {
        let c: char = all[i];
        if !('0' <= c && c <= '9') && !blank(c) {
            assert(!is_digit(all@[i as int]));
            return false;
        }
        i += 1;
    }
    1 <= count && count <= 19
}

/// Whether the numbers that a text begins with take a total just past what
/// can be counted.
fn adds_just_past(s: &str, total: u128) -> (r: bool)
    ensures
        r == goes_just_past(s@, total as int),
    decreases s@.len(),
{
    let limit: u128 = 18_446_744_073_709_551_616_000_000_000;
    if s.unicode_len() == 0 || total >= limit {
        return false;
    }
    let number = cut_number(s);
    if !number.ends {
        return false;
    }
    proof {
        reveal_strlit("0.");
        lemma_find_from(number.front@, "."@, 0);
    }
    match cut(number.front.as_str(), ".") {
        None => {
            let text: String = join(number.front.as_str(), number.unit.as_str());
            proof {
                lemma_one_number(number.front@, number.unit@);
            }
            let (value, past) = weigh(total, text.as_str());
            past || match value {
                Some(a) => adds_just_past(number.rest.as_str(), total + a),
                None => false,
            }
        },
        Some((before, behind)) => {
            let whole: String = join(before.as_str(), number.unit.as_str());
            let zeroed: String = join("0.", behind.as_str());
            let fraction: String = join(zeroed.as_str(), number.unit.as_str());
            proof {
                lemma_one_number(before@, number.unit@);
                lemma_one_number(zeroed@, number.unit@);
            }
            let (value, past) = weigh(total, whole.as_str());
            finds_fraction(behind.as_str()) && (past || match value {
                Some(a) => {
                    let (more, beyond) = weigh(total + a, fraction.as_str());
                    beyond || match more {
                        Some(b) => adds_just_past(number.rest.as_str(), total + a + b),
                        None => false,
                    }
                },
                None => false,
            })
        },
    }
}

/// Whether a text is a plain number of seconds or can be read with units.
pub fn is_readable(s: &str) -> (r: bool)
    ensures
        r == readable(s@),
{
    if parse_u64(s).is_ok() {
        return true;
    }
    let all = characters(s);
    count_digits(&all) <= 11 || !finds_later_digit(&all) || !adds_just_past(s, 0)
}

/// Reads a duration. An integer without a unit is a number of seconds,
/// otherwise the text has units such as `3s` or `300ms`. Digits with an `s`
/// behind them are the same as the digits alone.
pub fn parse_dur(s: &str) -> (r: Result<Span, Reason>)
    requires
        readable(s@),
    ensures
        match r {
            Ok(span) => span.wf() && duration_of(s@) == Ok::<Span, ReasonView>(span),
            Err(e) => duration_of(s@) == Err::<Span, ReasonView>(e@),
        },
        seconds_of(s@) matches Some(n) ==> {
            &&& r == Ok::<Span, Reason>((Span { secs: n as u64, nanos: 0 }))
            &&& duration_of(s@.drop_last()) == Ok::<Span, ReasonView>(
                (Span { secs: n as u64, nanos: 0 }),
            )
        },
{
    proof {
        lemma_seconds_are_no_integer(s@);
    }
    match parse_u64(s) {
        Ok(secs) => Ok(Span { secs, nanos: 0 }),
        Err(_) => match parse_with_units(s) {
            Ok(span) => Ok(span),
            Err(t) => Err(Problem::Duration(t)),
        },
    }
}

/// Digits with a letter behind them are no integer, but the digits alone
/// are.
proof fn lemma_seconds_are_no_integer(s: Seq<char>)
    ensures
        seconds_of(s) matches Some(n) ==> {
            &&& numeral(s, false) is None
            &&& numeral(s.drop_last(), false) == Some(n)
            &&& n >= 0
        },
{
    if seconds_of(s) is Some {
        let digits = s.drop_last();
        assert(is_digit(digits[0]) && digits[0] == s[0]);
        assert(s[s.len() - 1] == 's');
        lemma_digits_value(digits);
    }
}

/// Digits denote no negative number.
proof fn lemma_digits_value(s: Seq<char>)
    requires
        all_digits(s),
    ensures
        digits_value(s) >= 0,
    decreases s.len(),
{
    if s.len() > 0 {
        assert(is_digit(s.last()));
        lemma_digits_value(s.drop_last());
    }
}

/// Reads a duration wherever it can be read.
pub fn try_parse_dur(s: &str) -> (r: Option<Result<Span, Reason>>)
    ensures
        r is Some <==> readable(s@),
        r matches Some(Ok(span)) ==> span.wf() && duration_of(s@) == Ok::<Span, ReasonView>(span),
        r matches Some(Err(e)) ==> duration_of(s@) == Err::<Span, ReasonView>(e@),
        seconds_of(s@) matches Some(n) ==> r == Some(
            Ok::<Span, Reason>((Span { secs: n as u64, nanos: 0 })),
        ),
{
    proof {
        lemma_seconds_are_readable(s@);
    }
    if is_readable(s) {
        Some(parse_dur(s))
    } else {
        None
    }
}

/// Digits with an `s` behind them can be read.
proof fn lemma_seconds_are_readable(s: Seq<char>)
    ensures
        seconds_of(s) is Some ==> readable(s),
{
    if seconds_of(s) is Some {
        assert forall|i: int, j: int|
            0 <= i < j < s.len() implies !(is_letter(#[trigger] s[i]) && is_digit(
            #[trigger] s[j],
        )) by {
            assert(is_digit(s.drop_last()[i]));
        }
    }
}

/// How many samples, one in each interval, a timeout lasts: the timeout is
/// rounded up to a multiple of the interval. Where the interval is nothing,
/// or the number is too large, it is as large as can be counted.
pub open spec fn ticks_of(timeout: Span, interval: Span) -> int {
    let length = timeout.nanoseconds();
    let step = interval.nanoseconds();
    let count = (length + step - 1) / step;
    if step == 0 || count > u64::MAX {
        u64::MAX as int
    } else {
        count
    }
}

/// A timeout that is not nothing lasts at least one sample, and no more than
/// can be counted.
pub proof fn lemma_ticks(timeout: Span, interval: Span)
    requires
        timeout.nanoseconds() > 0,
    ensures
        0 < ticks_of(timeout, interval) <= u64::MAX,
{
    let length = timeout.nanoseconds();
    let step = interval.nanoseconds();
    if step != 0 {
        assert((length + step - 1) / step >= 1) by (nonlinear_arith)
            requires
                length >= 1,
                step >= 1,
        ;
    }
}

/// How many samples, one in each interval, a timeout lasts.
pub fn ticks(timeout: Span, interval: Span) -> (r: u64)
    requires
        timeout.wf(),
        interval.wf(),
        timeout.nanoseconds() > 0,
    ensures
        r == ticks_of(timeout, interval),
        r > 0,
{
    let length: u128 = timeout.total();
    let step: u128 = interval.total();
    if step == 0 {
        return u64::MAX;
    }
    let count: u128 = (length + step - 1) / step;
    proof {
        lemma_ticks(timeout, interval);
    }
    if count > u64::MAX as u128 {
        u64::MAX
    } else {
        count as u64
    }
}

/// What is left after an epoch of so many epochs, or of no limit, unless it
/// was the last.
pub open spec fn left_after_epoch(left: Option<u64>) -> Option<Option<u64>> {
    match left {
        None => Some(None),
        Some(count) => if count == 1 {
            None
        } else {
            Some(Some((count - 1) as u64))
        },
    }
}

/// What is done at an epoch.
#[derive(Debug, PartialEq, Eq)]
pub struct AtEpoch {
    /// How many samples are taken, whatever follows.
    pub samples: u64,
    /// After how many more epochs this is done again, and how many are left
    /// then; or why the run is stopped.
    pub next: Result<(u64, Option<u64>), Reason>,
}

/// What is done at an epoch with so many left, or with no limit: one sample
/// is taken, and the next epoch is watched again unless the time is up.
pub fn at_epoch(left: Option<u64>) -> (r: AtEpoch)
    requires
        left != Some(0u64),
    ensures
        r.samples == 1,
        match r.next {
            Ok(next) => {
                &&& next.0 == 1
                &&& left_after_epoch(left) == Some(next.1)
                &&& next.1 != Some(0u64)
            },
            Err(e) => left_after_epoch(left) is None && e@ == ReasonView::Timeout,
        },
{
    let next: Result<(u64, Option<u64>), Reason> = match left {
        None => Ok((1, None)),
        Some(count) => if count == 1 {
            Err(Problem::Timeout)
        } else {
            Ok((1, Some(count - 1)))
        },
    };
    AtEpoch { samples: 1, next }
}

/// How many samples are taken at `n` epochs in a row, and what is left behind
/// them unless the run was stopped.
pub open spec fn after_epochs(left: Option<u64>, n: nat) -> (nat, Option<Option<u64>>)
    decreases n,
{
    if n == 0 {
        (0, Some(left))
    } else {
        let before = after_epochs(left, (n - 1) as nat);
        match before.1 {
            Some(rest) => (before.0 + 1, left_after_epoch(rest)),
            None => before,
        }
    }
}

/// Without a limit, a sample is taken at each epoch and the run is never
/// stopped.
pub proof fn law_sampling_goes_on_without_a_limit(n: nat)
    ensures
        after_epochs(None, n) == (n, Some(None::<u64>)),
    decreases n,
{
    if n > 0 {
        law_sampling_goes_on_without_a_limit((n - 1) as nat);
    }
}

/// With a limit, a sample is taken at each epoch up to the last of those that
/// are counted. The run is stopped there, and not before.
pub proof fn law_time_is_up_at_the_last_epoch(count: u64, n: nat)
    requires
        count > 0,
    ensures
        n < count ==> after_epochs(Some(count), n) == (n, Some(Some((count - n) as u64))),
        n >= count ==> after_epochs(Some(count), n) == (count as nat, None::<Option<u64>>),
    decreases n,
{
    if n > 0 {
        law_time_is_up_at_the_last_epoch(count, (n - 1) as nat);
    }
}

/// The samples that are counted cover the timeout and go beyond it by less
/// than one interval: a timeout is rounded up to the next multiple of the
/// interval.
pub proof fn law_timeout_is_rounded_up(timeout: Span, interval: Span)
    requires
        timeout.nanoseconds() > 0,
        interval.nanoseconds() > 0,
        ticks_of(timeout, interval) < u64::MAX,
    ensures
        timeout.nanoseconds() <= ticks_of(timeout, interval) * interval.nanoseconds(),
        ticks_of(timeout, interval) * interval.nanoseconds() < timeout.nanoseconds()
            + interval.nanoseconds(),
{
    let length = timeout.nanoseconds();
    let step = interval.nanoseconds();
    let count = (length + step - 1) / step;
    vstd::arithmetic::div_mod::lemma_fundamental_div_mod(length + step - 1, step);
    vstd::arithmetic::div_mod::lemma_mod_bound(length + step - 1, step);
    vstd::arithmetic::mul::lemma_mul_is_commutative(step, count);
}

/// A length of time is its seconds and the nanoseconds left over.
pub proof fn law_span_in_nanoseconds(span: Span)
    ensures
        span.nanoseconds() == span.secs * 1_000_000_000 + span.nanos,
        span.wf() <==> span.nanos < 1_000_000_000,
{
}

/// An integer that can be counted is that many seconds. Any other text is
/// worth, to the nanosecond, what it is worth with units, or is refused with
/// the complaint about its units.
pub proof fn law_durations_are_read_in_full(s: Seq<char>)
    ensures
        match numeral(s, false) {
            Some(n) if n <= u64::MAX => duration_of(s) is Ok && duration_of(s)->Ok_0.secs == n
                && duration_of(s)->Ok_0.nanos == 0,
            _ => match with_units(s) {
                Ok(parts) => duration_of(s) is Ok && duration_of(s)->Ok_0.secs == parts.0
                    && duration_of(s)->Ok_0.nanos == parts.1,
                Err(t) => duration_of(s) == Err::<Span, ReasonView>(Problem::Duration(t)),
            },
        },
{
    if numeral(s, false) is Some {
        let digits = if s.len() > 0 && s[0] == '+' {
            s.skip(1)
        } else {
            s
        };
        lemma_digits_value(digits);
    }
}

/// So many samples are counted that one less would not cover the timeout,
/// and that they do cover it, unless there are more than can be counted or
/// the interval is nothing.
pub proof fn law_samples_are_as_few_as_cover_the_timeout(timeout: Span, interval: Span)
    requires
        timeout.nanoseconds() > 0,
    ensures
        0 < ticks_of(timeout, interval) <= u64::MAX,
        interval.nanoseconds() == 0 ==> ticks_of(timeout, interval) == u64::MAX,
        interval.nanoseconds() > 0 ==> {
            let count = ticks_of(timeout, interval);
            &&& (count - 1) * interval.nanoseconds() < timeout.nanoseconds()
            &&& timeout.nanoseconds() <= count * interval.nanoseconds() || count == u64::MAX
        },
{
    let length = timeout.nanoseconds();
    let step = interval.nanoseconds();
    lemma_ticks(timeout, interval);
    if step > 0 {
        let whole = (length + step - 1) / step;
        let count = ticks_of(timeout, interval);
        vstd::arithmetic::div_mod::lemma_fundamental_div_mod(length + step - 1, step);
        vstd::arithmetic::div_mod::lemma_mod_bound(length + step - 1, step);
        assert(step * whole - step < length);
        assert(step * whole >= length);
        assert((count - 1) * step <= step * whole - step) by (nonlinear_arith)
            requires
                count <= whole,
                step > 0,
        ;
        assert(count == whole ==> count * step == step * whole) by (nonlinear_arith);
    }
}

} // verus!
