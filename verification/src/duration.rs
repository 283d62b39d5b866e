//! Durations such as `24h`.

use vstd::prelude::*;
use vstd::string::*;

use crate::error::{fails_with, Error, ErrorView};
use crate::text::{chars_of, decimal, text_of};
use crate::text_laws::law_decimal_reads_back;

verus! {

/// The value of a decimal digit, where `c` is one.
pub open spec fn digit_value(c: char) -> Option<int> {
    if '0' <= c <= '9' {
        Some(c as int - '0' as int)
    } else {
        None
    }
}

/// The value of a run of decimal digits, where every character is one.
pub open spec fn digits_value(s: Seq<char>) -> Option<int>
    decreases s.len(),
{
    if s.len() == 0 {
        Some(0)
    } else {
        match (digits_value(s.drop_last()), digit_value(s.last())) {
            (Some(n), Some(d)) => Some(10 * n + d),
            _ => None,
        }
    }
}

/// The value of a text as an unsigned 64-bit integer: digits, with a plus sign
/// in front where one is written.
pub open spec fn unsigned_value(s: Seq<char>) -> Option<int> {
    let digits = if s.len() > 0 && s[0] == '+' {
        s.drop_first()
    } else {
        s
    };
    match digits_value(digits) {
        Some(n) if digits.len() > 0 && n <= u64::MAX => Some(n),
        _ => None,
    }
}

proof fn lemma_digits_value_grows(s: Seq<char>, k: int)
    requires
        0 <= k <= s.len(),
    ensures
        digits_value(s) matches Some(n) ==> digits_value(s.take(k)) matches Some(m) && 0 <= m <= n,
        digits_value(s.take(k)) is None ==> digits_value(s) is None,
    decreases s.len() - k,
{
    if k < s.len() {
        lemma_digits_value_grows(s, k + 1);
        assert(s.take(k + 1).drop_last() =~= s.take(k));
        lemma_digits_value_nonnegative(s.take(k));
    } else {
        assert(s.take(k) =~= s);
        lemma_digits_value_nonnegative(s);
    }
}

proof fn lemma_digits_value_nonnegative(s: Seq<char>)
    ensures
        digits_value(s) matches Some(n) ==> n >= 0,
    decreases s.len(),
{
    if s.len() > 0 {
        lemma_digits_value_nonnegative(s.drop_last());
    }
}

/// The value of `chars[from..to]` as an unsigned 64-bit integer.
fn parse_unsigned(chars: &[char], from: usize, to: usize) -> (r: Option<u64>)
    requires
        from <= to <= chars@.len(),
    ensures
        match unsigned_value(chars@.subrange(from as int, to as int)) {
            Some(n) => r is Some && r->0 == n,
            None => r is None,
        },
{
    let ghost all = chars@.subrange(from as int, to as int);
    let start: usize = if from < to && chars[from] == '+' {
        from + 1
    } else {
        from
    };
    let ghost digits = chars@.subrange(start as int, to as int);
    proof {
        if start > from {
            assert(all.drop_first() =~= digits);
            assert(all[0] == '+');
        }
    }
    if start == to {
        return None;
    }
    let mut n: u64 = 0;
    let mut i: usize = start;
    proof {
        assert(digits.take(0) =~= Seq::empty());
    }
    while i < to
        invariant
            start <= i <= to <= chars@.len(),
            start < to,
            from <= to,
            all == chars@.subrange(from as int, to as int),
            digits == chars@.subrange(start as int, to as int),
            unsigned_value(all) == (match digits_value(digits) {
                Some(v) if v <= u64::MAX => Some(v),
                _ => None::<int>,
            }),
            digits_value(digits.take(i - start)) == Some(n as int),
        decreases to - i,
    {
        let c = chars[i];
        let ghost next = digits.take(i - start + 1);
        proof {
            assert(next.drop_last() =~= digits.take(i - start));
            assert(next.last() == c);
            lemma_digits_value_grows(digits, i - start + 1);
        }
        if !('0' <= c && c <= '9') {
            return None;
        }
        let d: u64 = (c as u32 - 48) as u64;
        if n > (u64::MAX - d) / 10 {
            return None;
        }
        n = 10 * n + d;
        i += 1;
    }
    proof {
        assert(digits.take(to - start) =~= digits);
    }
    Some(n)
}

/// The seconds that a unit stands for.
pub open spec fn unit_seconds(c: char) -> Option<int> {
    if c == 'h' {
        Some(3600)
    } else if c == 'm' {
        Some(60)
    } else if c == 's' {
        Some(1)
    } else if c == 'd' {
        Some(86400)
    } else {
        None
    }
}

/// The seconds of a duration: a number above zero and a unit. Otherwise, what is
/// wrong with it.
pub open spec fn duration_of(s: Seq<char>) -> Result<int, Seq<char>> {
    if s.len() == 0 {
        Err("duration string is empty"@)
    } else {
        match unit_seconds(s.last()) {
            None => Err(
                "invalid duration '"@ + s
                    + "': expected a number followed by 'd', 'h', 'm', or 's' (e.g. '24h', '30m', '90s')"@,
            ),
            Some(unit) => match unsigned_value(s.drop_last()) {
                None => Err(
                    "invalid duration '"@ + s + "': '"@ + s.drop_last() + "' is not a valid number"@,
                ),
                Some(n) => if n == 0 {
                    Err("invalid duration '"@ + s + "': duration must be greater than zero"@)
                } else {
                    Ok(n * unit)
                },
            },
        }
    }
}

/// `"invalid duration '"`, the duration, and what is wrong with it.
fn complaint(s: &str, why: &str) -> (r: String)
    ensures
        r@ == "invalid duration '"@ + s@ + why@,
{
    let mut out = "invalid duration '".to_owned();
    out.append(s);
    out.append(why);
    out
}

/// Parses a duration; `None` stands for one that is too long to count.
fn read_duration(s: &str) -> (r: Result<Option<u64>, String>)
    ensures
        match duration_of(s@) {
            Ok(n) => r == Ok::<Option<u64>, String>(
                if n <= u64::MAX {
                    Some(n as u64)
                } else {
                    None
                },
            ),
            Err(e) => r is Err && r->Err_0@ == e,
        },
{
    let chars = chars_of(s);
    let n: usize = chars.len();
    if n == 0 {
        return Err("duration string is empty".to_owned());
    }
    let last = chars[n - 1];
    let unit: u64 = if last == 'h' {
        3600
    } else if last == 'm' {
        60
    } else if last == 's' {
        1
    } else if last == 'd' {
        86400
    } else {
        let why =
            "': expected a number followed by 'd', 'h', 'm', or 's' (e.g. '24h', '30m', '90s')";
        return Err(complaint(s, why));
    };
    proof {
        assert(s@.subrange(0, n - 1) =~= s@.drop_last());
    }
    match parse_unsigned(chars.as_slice(), 0, n - 1) {
        None => {
            let mut out = complaint(s, "': '");
            let number = text_of(chars.as_slice(), 0, n - 1);
            out.append(number.as_str());
            out.append("' is not a valid number");
            proof {
                assert(out@ =~= "invalid duration '"@ + s@ + "': '"@ + s@.drop_last()
                    + "' is not a valid number"@);
            }
            Err(out)
        },
        Some(count) => {
            if count == 0 {
                return Err(complaint(s, "': duration must be greater than zero"));
            }
            proof {
                assert(count * unit == (count as int) * (unit as int));
            }
            Ok(count.checked_mul(unit))
        },
    }
}

/// The seconds of a duration such as `24h`, `30m`, `90s` or `1d`.
pub fn parse_duration(s: &str) -> (r: Result<u64, String>)
    requires
        duration_of(s@) matches Ok(n) ==> n <= u64::MAX,
    ensures
        match duration_of(s@) {
            Ok(n) => r == Ok::<u64, String>(n as u64),
            Err(e) => r is Err && r->Err_0@ == e,
        },
{
    match read_duration(s) {
        Ok(Some(n)) => Ok(n),
        Ok(None) => {
            proof {
                assert(false);
            }
            Ok(0)
        },
        Err(e) => Err(e),
    }
}

/// The seconds of a refresh interval; a text that is no duration, or one too
/// long to count, is refused.
pub fn validate_refresh_interval(s: &str) -> (r: Result<Option<u64>, Error>)
    ensures
        match duration_of(s@) {
            Ok(n) => if n <= u64::MAX {
                r == Ok::<Option<u64>, Error>(Some(n as u64))
            } else {
                fails_with(
                    r,
                    ErrorView::InvalidRequest {
                        message: "invalid duration '"@ + s@ + "': duration is too long"@,
                    },
                )
            },
            Err(e) => fails_with(r, ErrorView::InvalidRequest { message: e }),
        },
{
    match read_duration(s) {
        Ok(Some(n)) => Ok(Some(n)),
        Ok(None) => Err(
            Error::InvalidRequest { message: complaint(s, "': duration is too long") },
        ),
        Err(message) => Err(Error::InvalidRequest { message }),
    }
}

// ---------------------------------------------------------------------------
// Laws
// ---------------------------------------------------------------------------

/// The seconds that one of the four units stands for.
pub open spec fn seconds_in(unit: char) -> int {
    if unit == 'd' {
        24 * 60 * 60int
    } else if unit == 'h' {
        60 * 60int
    } else if unit == 'm' {
        60
    } else {
        1
    }
}

/// A number above zero and a unit are that many of the unit.
pub proof fn law_durations_are_read(n: int, unit: char)
    requires
        0 < n <= u64::MAX,
        unit == 'd' || unit == 'h' || unit == 'm' || unit == 's',
    ensures
        duration_of(decimal(n).push(unit)) == Ok::<int, Seq<char>>(n * seconds_in(unit)),
        duration_of((seq!['+'] + decimal(n)).push(unit)) == Ok::<int, Seq<char>>(
            n * seconds_in(unit),
        ),
{
    law_decimal_reads_back(n);
    let d = decimal(n);
    assert(d.push(unit).drop_last() =~= d);
    let plus = seq!['+'] + d;
    assert(plus.push(unit).drop_last() =~= plus);
    assert(plus.drop_first() =~= d);
    assert(d[0] != '+') by {
        lemma_first_digit(d);
    }
}

proof fn lemma_first_digit(s: Seq<char>)
    requires
        s.len() > 0,
        digits_value(s) is Some,
    ensures
        '0' <= s[0] <= '9',
    decreases s.len(),
{
    if s.len() > 1 {
        lemma_first_digit(s.drop_last());
    }
}

/// A duration is read only where it is digits, perhaps behind a plus sign, and a
/// unit, and never as zero seconds.
pub proof fn law_what_is_no_duration(s: Seq<char>)
    ensures
        s.len() == 0 ==> duration_of(s) is Err,
        s.len() > 0 && s.last() != 'd' && s.last() != 'h' && s.last() != 'm' && s.last() != 's'
            ==> duration_of(s) is Err,
        s.len() == 1 ==> duration_of(s) is Err,
        duration_of(s) matches Ok(n) ==> n > 0,
        duration_of(s) is Ok ==> forall|i: int|
            0 <= i < s.len() - 1 ==> '0' <= #[trigger] s[i] <= '9' || (i == 0 && s[i] == '+'),
{
    if duration_of(s) is Ok {
        let front = s.drop_last();
        let digits = if front.len() > 0 && front[0] == '+' {
            front.drop_first()
        } else {
            front
        };
        lemma_digits_value_nonnegative(digits);
        assert forall|i: int| 0 <= i < s.len() - 1 implies '0' <= #[trigger] s[i] <= '9' || (i == 0
            && s[i] == '+') by {
            if front.len() > 0 && front[0] == '+' {
                if i > 0 {
                    lemma_all_digits(digits, i - 1);
                    assert(digits[i - 1] == s[i]);
                }
            } else {
                lemma_all_digits(digits, i);
            }
        }
        let n = unsigned_value(front)->0;
        let unit = unit_seconds(s.last())->0;
        assert(n * unit > 0) by (nonlinear_arith)
            requires
                n > 0,
                unit > 0,
        ;
    }
    if s.len() == 1 {
        assert(s.drop_last() =~= Seq::empty());
    }
}

proof fn lemma_all_digits(s: Seq<char>, i: int)
    requires
        digits_value(s) is Some,
        0 <= i < s.len(),
    ensures
        '0' <= s[i] <= '9',
    decreases s.len(),
{
    if i < s.len() - 1 {
        lemma_all_digits(s.drop_last(), i);
    }
}

/// Digits count by their place: one more digit makes ten times as much and itself.
pub proof fn law_digits_count_by_place(s: Seq<char>, c: char)
    requires
        digits_value(s) is Some,
        '0' <= c <= '9',
    ensures
        digits_value(s.push(c)) == Some(10 * digits_value(s)->0 + (c as u32 - '0' as u32)),
        digits_value(Seq::empty()) == Some(0int),
{
    assert(s.push(c).drop_last() =~= s);
}

/// No digits are no number, and neither are more than 64 bits hold; a plus sign in
/// front changes nothing.
pub proof fn law_unsigned_numbers(digits: Seq<char>)
    requires
        digits.len() == 0 || digits[0] != '+',
    ensures
        digits.len() == 0 ==> unsigned_value(digits) is None,
        unsigned_value(seq!['+'] + digits) == unsigned_value(digits),
        digits.len() > 0 ==> (unsigned_value(digits) matches Some(n) ==> digits_value(digits)
            == Some(n) && n <= u64::MAX),
        digits.len() > 0 ==> (digits_value(digits) matches Some(n) ==> (n <= u64::MAX
            <==> unsigned_value(digits) == Some(n))),
{
    assert((seq!['+'] + digits).drop_first() =~= digits);
}

} // verus!
