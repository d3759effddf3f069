//! Parsing a human-written delay specification into a duration value.
//!
//! The grammar: the literal `"-1"` (the maximum sentinel), or a decimal
//! integer followed by an optional unit suffix starting at the first
//! alphabetic character. A bare integer counts whole seconds.

use vstd::prelude::*;

verus! {

/// Total nanoseconds of the largest representable duration:
/// `u64::MAX` whole seconds plus `999_999_999` nanoseconds.
pub const MAX_DURATION_NANOS: u128 = 18_446_744_073_709_551_615_999_999_999;

/// An elapsed time with nanosecond resolution.
#[derive(Clone, Copy, PartialEq, Eq, Structural, Debug)]
pub struct Duration {
    /// Whole seconds.
    pub secs: u64,
    /// Nanoseconds below one second.
    pub nanos: u32,
}

impl Duration {
    /// The nanosecond part never reaches a whole second.
    pub open spec fn wf(self) -> bool {
        self.nanos < 1_000_000_000
    }

    /// The duration as a total count of nanoseconds.
    pub open spec fn as_nanos(self) -> int {
        self.secs * 1_000_000_000 + self.nanos
    }

    /// True of the maximum sentinel value alone.
    pub open spec fn is_max(self) -> bool {
        self.secs == u64::MAX && self.nanos == 999_999_999
    }

    /// The maximum sentinel: the largest representable duration, standing
    /// for "no meaningful delay bound".
    pub fn maximum() -> (d: Duration)
        ensures
            d.wf(),
            d.is_max(),
            d.as_nanos() == MAX_DURATION_NANOS,
    {
        Duration { secs: u64::MAX, nanos: 999_999_999 }
    }

    /// A duration of whole seconds.
    pub fn from_secs(secs: u64) -> (d: Duration)
        ensures
            d.wf(),
            d.as_nanos() == secs * 1_000_000_000,
    {
        Duration { secs, nanos: 0 }
    }

    /// The duration holding exactly `total` nanoseconds.
    pub fn from_total_nanos(total: u128) -> (d: Duration)
        requires
            total <= MAX_DURATION_NANOS,
        ensures
            d.wf(),
            d.as_nanos() == total,
    {
        proof {
            vstd::arithmetic::div_mod::lemma_fundamental_div_mod(total as int, 1_000_000_000);
            assert(total as int / 1_000_000_000 <= u64::MAX) by (nonlinear_arith)
                requires total <= MAX_DURATION_NANOS == u64::MAX * 1_000_000_000 + 999_999_999;
        }
        let secs = (total / 1_000_000_000) as u64;
        let nanos = (total % 1_000_000_000) as u32;
        Duration { secs, nanos }
    }
}

/// Why a delay specification was rejected.
#[derive(Clone, Copy, PartialEq, Eq, Structural, Debug)]
pub enum DurationError {
    /// The specification was empty.
    Empty,
    /// The trailing alphabetic part matched no recognized unit.
    BadSuffix,
    /// The part before the unit did not parse as a non-negative integer.
    BadNumber,
    /// The scaled value exceeds the largest representable duration.
    TooLarge,
}

impl DurationError {
    /// A human-readable reason for the rejection.
    pub fn message(&self) -> (m: &'static str)
        ensures
            self is Empty ==> m@ == "must specify time duration"@,
            self is BadSuffix ==> m@ == "invalid time duration suffix"@,
            self is BadNumber ==> m@ == "invalid time duration number"@,
            self is TooLarge ==> m@ == "time duration too large"@,
    {
        match self {
            DurationError::Empty => "must specify time duration",
            DurationError::BadSuffix => "invalid time duration suffix",
            DurationError::BadNumber => "invalid time duration number",
            DurationError::TooLarge => "time duration too large",
        }
    }
}

/// An ASCII decimal digit.
pub open spec fn is_digit_char(c: char) -> bool {
    48 <= c as u32 && c as u32 <= 57
}

/// An ASCII alphabetic character; the unit suffix begins at the first one.
pub open spec fn is_alpha_char(c: char) -> bool {
    (65 <= c as u32 && c as u32 <= 90) || (97 <= c as u32 && c as u32 <= 122)
}

/// The numeric value of an ASCII decimal digit.
pub open spec fn digit_val(c: char) -> int {
    c as u32 - 48
}

/// Every character of the sequence is an ASCII decimal digit.
pub open spec fn all_digits(s: Seq<char>) -> bool {
    forall|i: int| 0 <= i < s.len() ==> is_digit_char(#[trigger] s[i])
}

/// The value of a sequence of decimal digits, most significant first.
pub open spec fn dec_value(s: Seq<char>) -> int
    decreases s.len(),
{
    if s.len() == 0 {
        0
    } else {
        dec_value(s.drop_last()) * 10 + digit_val(s.last())
    }
}

/// What `u64` parsing accepts: an optional leading `'+'`, then at least
/// one decimal digit, with a value that fits in 64 bits.
pub open spec fn spec_parse_u64(s: Seq<char>) -> Option<u64> {
    let digits = if s.len() > 0 && s[0] == '+' {
        s.subrange(1, s.len() as int)
    } else {
        s
    };
    if digits.len() > 0 && all_digits(digits) && dec_value(digits) <= u64::MAX {
        Some(dec_value(digits) as u64)
    } else {
        None
    }
}

/// The index of the first alphabetic character, if any.
pub open spec fn spec_find_alpha(s: Seq<char>) -> Option<int>
    decreases s.len(),
{
    if s.len() == 0 {
        None
    } else if is_alpha_char(s[0]) {
        Some(0)
    } else {
        match spec_find_alpha(s.drop_first()) {
            Some(i) => Some(i + 1),
            None => None,
        }
    }
}

/// `spec_find_alpha` returns the least alphabetic index, or `None` when
/// the sequence has no alphabetic character.
pub proof fn lemma_find_alpha_spec(s: Seq<char>)
    ensures
        match spec_find_alpha(s) {
            Some(i) => 0 <= i < s.len() && is_alpha_char(s[i]) && (forall|j: int|
                0 <= j < i ==> !is_alpha_char(#[trigger] s[j])),
            None => forall|j: int| 0 <= j < s.len() ==> !is_alpha_char(#[trigger] s[j]),
        },
    decreases s.len(),
{
    if s.len() == 0 {
    } else if is_alpha_char(s[0]) {
    } else {
        lemma_find_alpha_spec(s.drop_first());
        assert forall|j: int| 1 <= j < s.len() implies s[j] == s.drop_first()[j - 1] by {}
    }
}

/// Nanoseconds per unit, for each recognized suffix; `None` otherwise.
/// The full trailing alphabetic substring must match, so `d` and `ds`
/// name different units.
pub open spec fn spec_unit_factor(s: Seq<char>) -> Option<int> {
    if s.len() == 1 {
        if s[0] == 'd' {
            Some(86_400_000_000_000)
        } else if s[0] == 'h' {
            Some(3_600_000_000_000)
        } else if s[0] == 'm' {
            Some(60_000_000_000)
        } else if s[0] == 's' {
            Some(1_000_000_000)
        } else {
            None
        }
    } else if s.len() == 2 && s[1] == 's' {
        if s[0] == 'd' {
            Some(100_000_000)
        } else if s[0] == 'c' {
            Some(10_000_000)
        } else if s[0] == 'm' {
            Some(1_000_000)
        } else if s[0] == 'u' {
            Some(1_000)
        } else if s[0] == 'n' {
            Some(1)
        } else {
            None
        }
    } else {
        None
    }
}

/// The meaning of a delay specification: the total nanoseconds it denotes,
/// or the reason it is rejected. `"-1"` denotes the maximum sentinel.
pub open spec fn spec_parse_duration(s: Seq<char>) -> Result<int, DurationError> {
    if s.len() == 0 {
        Err(DurationError::Empty)
    } else if s.len() == 2 && s[0] == '-' && s[1] == '1' {
        Ok(MAX_DURATION_NANOS as int)
    } else {
        match spec_find_alpha(s) {
            Some(i) => {
                let number = spec_parse_u64(s.subrange(0, i));
                let factor = spec_unit_factor(s.subrange(i, s.len() as int));
                if number is None {
                    Err(DurationError::BadNumber)
                } else if factor is None {
                    Err(DurationError::BadSuffix)
                } else if number.unwrap() * factor.unwrap() > MAX_DURATION_NANOS {
                    Err(DurationError::TooLarge)
                } else {
                    Ok(number.unwrap() * factor.unwrap())
                }
            },
            None => match spec_parse_u64(s) {
                Some(n) => Ok(n * 1_000_000_000),
                None => Err(DurationError::BadNumber),
            },
        }
    }
}

/// A digit value is never negative, so neither is a digit string's value.
proof fn lemma_dec_value_nonneg(s: Seq<char>)
    requires
        all_digits(s),
    ensures
        dec_value(s) >= 0,
    decreases s.len(),
{
    if s.len() > 0 {
        assert(all_digits(s.drop_last()));
        lemma_dec_value_nonneg(s.drop_last());
    }
}

/// Extending a digit string never lowers its value.
proof fn lemma_dec_value_prefix(s: Seq<char>, k: int)
    requires
        all_digits(s),
        0 <= k <= s.len(),
    ensures
        dec_value(s.take(k)) <= dec_value(s),
    decreases s.len() - k,
{
    if k < s.len() {
        lemma_dec_value_prefix(s.drop_last(), k);
        assert(all_digits(s.drop_last()));
        assert(s.drop_last().take(k) =~= s.take(k));
        lemma_dec_value_nonneg(s.drop_last());
        assert(dec_value(s) == dec_value(s.drop_last()) * 10 + digit_val(s.last()));
        assert(dec_value(s.drop_last()) * 10 >= dec_value(s.drop_last())) by (nonlinear_arith)
            requires dec_value(s.drop_last()) >= 0;
    } else {
        assert(s.take(k) =~= s);
    }
}

/// The character for one decimal digit value.
pub open spec fn digit_char(d: int) -> char {
    if d == 0 {
        '0'
    } else if d == 1 {
        '1'
    } else if d == 2 {
        '2'
    } else if d == 3 {
        '3'
    } else if d == 4 {
        '4'
    } else if d == 5 {
        '5'
    } else if d == 6 {
        '6'
    } else if d == 7 {
        '7'
    } else if d == 8 {
        '8'
    } else {
        '9'
    }
}

/// A digit character is a digit and nothing else the grammar treats
/// specially: not alphabetic, not a sign.
proof fn lemma_digit_char_val(d: int)
    requires
        0 <= d <= 9,
    ensures
        is_digit_char(digit_char(d)),
        digit_val(digit_char(d)) == d,
        !is_alpha_char(digit_char(d)),
        digit_char(d) != '+',
        digit_char(d) != '-',
{
}

/// The decimal rendering of `n`, most significant digit first.
pub open spec fn spec_digits(n: nat) -> Seq<char>
    decreases n,
{
    if n < 10 {
        seq![digit_char(n as int)]
    } else {
        spec_digits(n / 10) + seq![digit_char((n % 10) as int)]
    }
}

/// The decimal rendering consists of digits alone and reads back as the
/// number it renders.
pub proof fn lemma_spec_digits(n: nat)
    ensures
        spec_digits(n).len() >= 1,
        all_digits(spec_digits(n)),
        dec_value(spec_digits(n)) == n,
        forall|i: int| 0 <= i < spec_digits(n).len() ==> !is_alpha_char(#[trigger] spec_digits(n)[i])
            && spec_digits(n)[i] != '+' && spec_digits(n)[i] != '-',
    decreases n,
{
    let s = spec_digits(n);
    if n < 10 {
        lemma_digit_char_val(n as int);
        assert(s.drop_last() =~= Seq::<char>::empty());
        assert(s.last() == digit_char(n as int));
        assert(dec_value(s) == dec_value(Seq::<char>::empty()) * 10 + digit_val(s.last()));
    } else {
        lemma_spec_digits(n / 10);
        lemma_digit_char_val((n % 10) as int);
        assert(s.drop_last() =~= spec_digits(n / 10));
        assert(s.last() == digit_char((n % 10) as int));
        vstd::arithmetic::div_mod::lemma_fundamental_div_mod(n as int, 10);
        assert forall|i: int| 0 <= i < s.len() implies !is_alpha_char(#[trigger] s[i]) && s[i]
            != '+' && s[i] != '-' by {
            if i < s.len() - 1 {
                assert(s[i] == spec_digits(n / 10)[i]);
            }
        }
        assert(all_digits(s)) by {
            assert forall|i: int| 0 <= i < s.len() implies is_digit_char(#[trigger] s[i]) by {
                if i < s.len() - 1 {
                    assert(s[i] == spec_digits(n / 10)[i]);
                }
            }
        }
    }
}

/// When an alphabetic character stands at `i` and none before it, the
/// suffix scan finds exactly `i`.
proof fn lemma_find_alpha_at(s: Seq<char>, i: int)
    requires
        0 <= i < s.len(),
        is_alpha_char(s[i]),
        forall|j: int| 0 <= j < i ==> !is_alpha_char(#[trigger] s[j]),
    ensures
        spec_find_alpha(s) == Some(i),
{
    lemma_find_alpha_spec(s);
    match spec_find_alpha(s) {
        Some(k) => {
            if k < i {
                assert(!is_alpha_char(s[k]));
            }
            if k > i {
                assert(!is_alpha_char(s[i]));
            }
        },
        None => {
            assert(!is_alpha_char(s[i]));
        },
    }
}

/// Law: a valid integer followed by a recognized unit suffix denotes the
/// integer scaled by that unit's fixed factor.
pub proof fn lemma_parse_scaled_unit(n: u64, unit: Seq<char>)
    requires
        spec_unit_factor(unit) is Some,
        n * spec_unit_factor(unit).unwrap() <= MAX_DURATION_NANOS,
    ensures
        spec_parse_duration(spec_digits(n as nat) + unit) == Ok::<int, DurationError>(
            n * spec_unit_factor(unit).unwrap(),
        ),
{
    let d = spec_digits(n as nat);
    let s = d + unit;
    lemma_spec_digits(n as nat);
    assert(is_alpha_char(unit[0]));
    assert forall|j: int| 0 <= j < d.len() implies !is_alpha_char(#[trigger] s[j]) by {
        assert(s[j] == d[j]);
    }
    assert(s[d.len() as int] == unit[0]);
    lemma_find_alpha_at(s, d.len() as int);
    assert(s.subrange(0, d.len() as int) =~= d);
    assert(s.subrange(d.len() as int, s.len() as int) =~= unit);
    assert(s[0] == d[0]);
    assert(s[0] != '-');
    assert(spec_parse_u64(d) == Some(n)) by {
        assert(d[0] != '+');
        assert(dec_value(d) == n <= u64::MAX);
    }
}

/// Law: a bare integer counts whole seconds: it denotes the same duration
/// as the integer with the `s` suffix.
pub proof fn lemma_parse_bare_seconds(n: u64)
    ensures
        spec_parse_duration(spec_digits(n as nat)) == Ok::<int, DurationError>(
            n * 1_000_000_000,
        ),
        spec_parse_duration(spec_digits(n as nat)) == spec_parse_duration(
            spec_digits(n as nat) + seq!['s'],
        ),
{
    let d = spec_digits(n as nat);
    lemma_spec_digits(n as nat);
    lemma_find_alpha_spec(d);
    match spec_find_alpha(d) {
        Some(k) => {
            assert(!is_alpha_char(d[k]));
        },
        None => {},
    }
    assert(d[0] != '-');
    assert(spec_parse_u64(d) == Some(n)) by {
        assert(d[0] != '+');
        assert(dec_value(d) == n <= u64::MAX);
    }
    assert(n * 1_000_000_000 <= MAX_DURATION_NANOS) by (nonlinear_arith)
        requires
            n <= u64::MAX,
            MAX_DURATION_NANOS == u64::MAX * 1_000_000_000 + 999_999_999,
    ;
    let unit = seq!['s'];
    assert(spec_unit_factor(unit) == Some(1_000_000_000int));
    lemma_parse_scaled_unit(n, unit);
}

/// Parse a decimal `u64`, accepting an optional leading `'+'`; `None` on
/// any other character, an empty digit part, or a value over `u64::MAX`.
fn parse_u64(s: &str) -> (r: Option<u64>)
    ensures
        r == spec_parse_u64(s@),
{
    let len = s.unicode_len();
    let start: usize = if len > 0 && s.get_char(0) == '+' {
        1
    } else {
        0
    };
    let ghost digits: Seq<char> = if s@.len() > 0 && s@[0] == '+' {
        s@.subrange(1, s@.len() as int)
    } else {
        s@
    };
    proof {
        assert(digits =~= s@.subrange(start as int, len as int));
    }
    if start >= len {
        return None;
    }
    let mut acc: u64 = 0;
    let mut i: usize = start;
    while i < len
        invariant
            start <= i <= len == s@.len(),
            digits == s@.subrange(start as int, len as int),
            digits == (if s@.len() > 0 && s@[0] == '+' {
                s@.subrange(1, s@.len() as int)
            } else {
                s@
            }),
            all_digits(digits.take(i - start)),
            acc == dec_value(digits.take(i - start)),
        decreases len - i,
    {
        let c = s.get_char(i);
        let u = c as u32;
        if u < 48 || u > 57 {
            assert(digits[i - start] == s@[i as int]);
            assert(!all_digits(digits));
            return None;
        }
        let d = (u - 48) as u64;
        proof {
            assert(digits.take(i - start + 1).drop_last() =~= digits.take(i - start));
            assert(digits.take(i - start + 1).last() == s@[i as int]);
            assert(dec_value(digits.take(i - start + 1)) == acc * 10 + d);
        }
        if acc > (u64::MAX - d) / 10 {
            proof {
                assert(acc * 10 + d > u64::MAX) by (nonlinear_arith)
                    requires
                        acc > (u64::MAX - d) / 10,
                        0 <= d <= 9,
                        u64::MAX == 18_446_744_073_709_551_615u64,
                ;
                if all_digits(digits) {
                    lemma_dec_value_prefix(digits, i - start + 1);
                }
            }
            return None;
        }
        acc = acc * 10 + d;
        i = i + 1;
    }
    proof {
        assert(digits.take(i - start) =~= digits);
    }
    Some(acc)
}

/// The character index of the first ASCII-alphabetic character, if any.
fn find_alpha(s: &str) -> (r: Option<usize>)
    ensures
        match r {
            Some(i) => spec_find_alpha(s@) == Some(i as int) && i < s@.len() && is_alpha_char(
                s@[i as int],
            ),
            None => spec_find_alpha(s@) is None,
        },
{
    let len = s.unicode_len();
    let mut i: usize = 0;
    while i < len
        invariant
            i <= len == s@.len(),
            forall|j: int| 0 <= j < i ==> !is_alpha_char(#[trigger] s@[j]),
        decreases len - i,
    {
        let c = s.get_char(i);
        let u = c as u32;
        if (65 <= u && u <= 90) || (97 <= u && u <= 122) {
            proof {
                lemma_find_alpha_spec(s@);
            }
            return Some(i);
        }
        i = i + 1;
    }
    proof {
        lemma_find_alpha_spec(s@);
    }
    None
}

/// The nanoseconds one unit of the given suffix stands for, if recognized.
fn unit_factor(s: &str) -> (r: Option<u64>)
    ensures
        match r {
            Some(f) => spec_unit_factor(s@) == Some(f as int),
            None => spec_unit_factor(s@) is None,
        },
{
    let len = s.unicode_len();
    if len == 1 {
        let c = s.get_char(0);
        if c == 'd' {
            Some(86_400_000_000_000)
        } else if c == 'h' {
            Some(3_600_000_000_000)
        } else if c == 'm' {
            Some(60_000_000_000)
        } else if c == 's' {
            Some(1_000_000_000)
        } else {
            None
        }
    } else if len == 2 {
        let c0 = s.get_char(0);
        let c1 = s.get_char(1);
        if c1 != 's' {
            None
        } else if c0 == 'd' {
            Some(100_000_000)
        } else if c0 == 'c' {
            Some(10_000_000)
        } else if c0 == 'm' {
            Some(1_000_000)
        } else if c0 == 'u' {
            Some(1_000)
        } else if c0 == 'n' {
            Some(1)
        } else {
            None
        }
    } else {
        None
    }
}

/// Parse a delay specification.
///
/// Accepts `"-1"` (the maximum sentinel) or a decimal integer with an
/// optional unit suffix at the first alphabetic character; a bare integer
/// counts whole seconds. The result carries exactly the nanoseconds that
/// `spec_parse_duration` assigns to the input, and each rejection comes
/// exactly on the inputs to which it assigns that rejection.
pub fn parse_time(value: &str) -> (r: Result<Duration, DurationError>)
    ensures
        match r {
            Ok(d) => d.wf() && spec_parse_duration(value@) == Ok::<int, DurationError>(
                d.as_nanos(),
            ),
            Err(e) => spec_parse_duration(value@) == Err::<int, DurationError>(e),
        },
{
    let len = value.unicode_len();
    if len == 0 {
        return Err(DurationError::Empty);
    }
    if len == 2 && value.get_char(0) == '-' && value.get_char(1) == '1' {
        return Ok(Duration::maximum());
    }
    match find_alpha(value) {
        Some(i) => {
            proof {
                lemma_find_alpha_spec(value@);
            }
            let prefix = value.substring_char(0, i);
            let suffix = value.substring_char(i, len);
            match parse_u64(prefix) {
                None => Err(DurationError::BadNumber),
                Some(n) => match unit_factor(suffix) {
                    None => Err(DurationError::BadSuffix),
                    Some(f) => {
                        proof {
                            assert((n as int) * (f as int) <= u128::MAX) by (nonlinear_arith)
                                requires
                                    n <= u64::MAX,
                                    f <= 86_400_000_000_000,
                                    u64::MAX == 18_446_744_073_709_551_615u64,
                                    u128::MAX >= 0xffffffffffffffffffffffffffffffffu128,
                            ;
                        }
                        let total: u128 = (n as u128) * (f as u128);
                        if total > MAX_DURATION_NANOS {
                            Err(DurationError::TooLarge)
                        } else {
                            Ok(Duration::from_total_nanos(total))
                        }
                    },
                },
            }
        },
        None => match parse_u64(value) {
            None => Err(DurationError::BadNumber),
            Some(n) => {
                proof {
                    assert((n as int) * 1_000_000_000 <= MAX_DURATION_NANOS) by (nonlinear_arith)
                        requires
                            n <= u64::MAX,
                            MAX_DURATION_NANOS == u64::MAX * 1_000_000_000 + 999_999_999,
                    ;
                }
                let total: u128 = (n as u128) * 1_000_000_000;
                Ok(Duration::from_total_nanos(total))
            },
        },
    }
}

} // verus!
