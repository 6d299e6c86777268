//! Unit systems of the provider and the printed form of a UTC offset.

use vstd::prelude::*;

verus! {

/// The unit system a temperature is reported in.
#[derive(Clone, Copy, Debug, PartialEq, Eq, Structural)]
pub enum UnitSystem {
    /// Degrees Celsius.
    Metric,
    /// Degrees Fahrenheit.
    Imperial,
    /// Kelvin.
    Standard,
}

/// The unit system that a configured name selects. Every name other than
/// `imperial` and `standard` selects the metric system.
pub open spec fn unit_system_of(units: Seq<char>) -> UnitSystem {
    if units == "imperial"@ {
        UnitSystem::Imperial
    } else if units == "standard"@ {
        UnitSystem::Standard
    } else {
        UnitSystem::Metric
    }
}

/// The character of a decimal digit.
pub open spec fn digit_char(d: nat) -> char {
    ((48 + d) as u8) as char
}

/// The decimal digits of a number, without leading zeros.
pub open spec fn decimal_text(n: nat) -> Seq<char>
    decreases n,
{
    if n < 10 {
        seq![digit_char(n)]
    } else {
        decimal_text(n / 10).push(digit_char(n % 10))
    }
}

/// A number below one hundred in two digits.
pub open spec fn two_digit_text(n: nat) -> Seq<char> {
    seq![digit_char(n / 10), digit_char(n % 10)]
}

/// Distance of an offset from zero, in seconds.
pub open spec fn offset_magnitude(offset_seconds: int) -> nat {
    if offset_seconds >= 0 {
        offset_seconds as nat
    } else {
        (-offset_seconds) as nat
    }
}

/// Whole hours of an offset.
pub open spec fn offset_hours(offset_seconds: int) -> nat {
    offset_magnitude(offset_seconds) / 3600
}

/// Whole minutes of an offset beyond its whole hours.
pub open spec fn offset_minutes(offset_seconds: int) -> nat {
    (offset_magnitude(offset_seconds) % 3600) / 60
}

/// The sign an offset is printed with: plus for zero and above.
pub open spec fn offset_sign(offset_seconds: int) -> char {
    if offset_seconds >= 0 {
        '+'
    } else {
        '-'
    }
}

/// The printed form of a UTC offset: `UTC`, the sign, the hours, and, where
/// the minutes are not zero, a colon and the minutes in two digits.
pub open spec fn offset_label_text(offset_seconds: int) -> Seq<char> {
    let head = seq!['U', 'T', 'C', offset_sign(offset_seconds)] + decimal_text(
        offset_hours(offset_seconds),
    );
    if offset_minutes(offset_seconds) == 0 {
        head
    } else {
        head.push(':') + two_digit_text(offset_minutes(offset_seconds))
    }
}

/// The unit system used where the configuration names none.
pub fn default_units() -> (units: String)
    ensures
        units@ == "metric"@,
        unit_system_of(units@) == UnitSystem::Metric,
{
    proof {
        reveal_strlit("metric");
        reveal_strlit("imperial");
        reveal_strlit("standard");
        assert("metric"@.len() == 6 && "imperial"@.len() == 8 && "standard"@.len() == 8);
    }
    String::from_str("metric")
}

/// The language code used where the configuration names none.
pub fn default_lang() -> (lang: String)
    ensures
        lang@ == "en"@,
{
    String::from_str("en")
}

/// The unit system that a configured name selects; an unrecognised name
/// selects the metric system like `metric` itself.
pub fn unit_system(units: &str) -> (system: UnitSystem)
    ensures
        system == unit_system_of(units@),
{
    if units.eq("imperial") {
        UnitSystem::Imperial
    } else if units.eq("standard") {
        UnitSystem::Standard
    } else {
        UnitSystem::Metric
    }
}

fn digit(d: u32) -> (c: char)
    requires
        d < 10,
    ensures
        c == digit_char(d as nat),
{
    let code: u8 = 48u8 + d as u8;
    code as char
}

fn push_decimal(out: &mut String, n: u32)
    ensures
        final(out)@ == old(out)@ + decimal_text(n as nat),
    decreases n,
{
    if n >= 10 {
        push_decimal(out, n / 10);
    }
    out.push(digit(n % 10));
}

/// The printed form of a UTC offset given in seconds, such as `UTC+2` or
/// `UTC-4:30`.
pub fn utc_offset_label(secs: i32) -> (label: String)
    ensures
        label@ == offset_label_text(secs as int),
{
    let wide: i64 = secs as i64;
    let magnitude: i64 = if wide >= 0 {
        wide
    } else {
        -wide
    };
    let hours: u32 = (magnitude / 3600) as u32;
    let minutes: u32 = ((magnitude % 3600) / 60) as u32;
    let mut label = String::from_str("UTC");
    proof {
        reveal_strlit("UTC");
    }
    label.push(if secs >= 0 {
        '+'
    } else {
        '-'
    });
    push_decimal(&mut label, hours);
    if minutes != 0 {
        label.push(':');
        label.push(digit(minutes / 10));
        label.push(digit(minutes % 10));
    }
    label
}

/// The label carries the sign of the offset, plus for zero, and shows minutes
/// exactly when there are any, always in two digits.
pub proof fn lemma_offset_label_shape(offset_seconds: int)
    ensures
        offset_label_text(offset_seconds).len() >= 5,
        offset_label_text(offset_seconds).take(3) == seq!['U', 'T', 'C'],
        offset_label_text(offset_seconds)[3] == '+' <==> offset_seconds >= 0,
        offset_label_text(offset_seconds)[3] == '-' <==> offset_seconds < 0,
        offset_minutes(offset_seconds) == 0 ==> offset_label_text(offset_seconds).skip(4)
            == decimal_text(offset_hours(offset_seconds)),
        offset_minutes(offset_seconds) != 0 ==> offset_label_text(offset_seconds).skip(4)
            == decimal_text(offset_hours(offset_seconds)) + seq![':'] + two_digit_text(
            offset_minutes(offset_seconds),
        ),
{
    lemma_decimal_nonempty(offset_hours(offset_seconds));
}

/// Every number has at least one decimal digit.
pub proof fn lemma_decimal_nonempty(n: nat)
    ensures
        decimal_text(n).len() >= 1,
    decreases n,
{
    if n >= 10 {
        lemma_decimal_nonempty(n / 10);
    }
}

/// The number that a digit character stands for.
pub open spec fn digit_value(c: char) -> nat {
    (c as nat - 48) as nat
}

/// The number that decimal digits read as.
pub open spec fn decimal_value(digits: Seq<char>) -> nat
    decreases digits.len(),
{
    if digits.len() == 0 {
        0
    } else {
        decimal_value(digits.drop_last()) * 10 + digit_value(digits.last())
    }
}

/// The decimal digits of a number read back as that number.
pub proof fn lemma_decimal_reads_back(n: nat)
    ensures
        decimal_value(decimal_text(n)) == n,
    decreases n,
{
    let digits = decimal_text(n);
    if n < 10 {
        assert(decimal_value(digits.drop_last()) == 0);
    } else {
        lemma_decimal_reads_back(n / 10);
        assert(digits.drop_last() =~= decimal_text(n / 10));
    }
}

/// The label reads back as the offset it was printed for, to the minute:
/// the sign at its place, the hours in decimal after it, and, where a colon
/// follows, the minutes in the two digits behind the colon.
pub proof fn lemma_offset_label_reads_back(offset_seconds: int)
    ensures
        ({
            let body = offset_label_text(offset_seconds).skip(4);
            let hours = offset_hours(offset_seconds);
            let minutes = offset_minutes(offset_seconds);
            &&& offset_label_text(offset_seconds)[3] == offset_sign(offset_seconds)
            &&& minutes == 0 ==> decimal_value(body) == hours
            &&& minutes != 0 ==> {
                &&& body.len() >= 4
                &&& decimal_value(body.take(body.len() - 3)) == hours
                &&& body[body.len() - 3] == ':'
                &&& decimal_value(body.skip(body.len() - 2)) == minutes
            }
        }),
{
    let hours = offset_hours(offset_seconds);
    let minutes = offset_minutes(offset_seconds);
    let body = offset_label_text(offset_seconds).skip(4);
    lemma_offset_label_shape(offset_seconds);
    lemma_decimal_nonempty(hours);
    lemma_decimal_reads_back(hours);
    if minutes != 0 {
        let tail = two_digit_text(minutes);
        assert(body.take(body.len() - 3) =~= decimal_text(hours));
        assert(body.skip(body.len() - 2) =~= tail);
        let front = tail.drop_last();
        assert(decimal_value(front.drop_last()) == 0);
        assert(decimal_value(front) == minutes / 10);
    }
}

} // verus!
