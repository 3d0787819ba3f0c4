//! A time interval abstract data type.

use vstd::prelude::*;
use crate::text::{decimal, padded_decimal, push_decimal, push_padded_decimal};

verus! {

/// The number of nanoseconds in one second.
pub const NANOS_PER_SEC: u32 = 1_000_000_000;

/// A span of time: whole seconds and a fraction of a second in nanoseconds.
#[derive(Debug, Clone, Copy, PartialEq, Eq, PartialOrd, Ord, Hash)]
pub struct Duration {
    secs: u64,
    nanos: u32,
}

impl Duration {
    #[verifier::type_invariant]
    spec fn inv(self) -> bool {
        self.nanos < NANOS_PER_SEC
    }

    /// The whole seconds of the span.
    pub closed spec fn spec_secs(self) -> nat {
        self.secs as nat
    }

    /// The fraction of a second, in nanoseconds: always below one second.
    pub closed spec fn spec_nanos(self) -> nat {
        self.nanos as nat
    }

    /// The span in nanoseconds.
    pub open spec fn total_nanos(self) -> nat {
        self.spec_secs() * 1_000_000_000 + self.spec_nanos()
    }

    /// A span of `secs` seconds and `nanos` nanoseconds. A billion
    /// nanoseconds or more carry over into the seconds, which must not
    /// overflow.
    pub fn new(secs: u64, nanos: u32) -> (d: Duration)
        requires
            secs + nanos / NANOS_PER_SEC <= u64::MAX,
        ensures
            d.spec_secs() == secs + nanos / NANOS_PER_SEC,
            d.spec_nanos() == nanos % NANOS_PER_SEC,
    {
        Duration { secs: secs + (nanos / NANOS_PER_SEC) as u64, nanos: nanos % NANOS_PER_SEC }
    }

    /// A span of whole seconds.
    pub fn from_secs(secs: u64) -> (d: Duration)
        ensures
            d.spec_secs() == secs,
            d.spec_nanos() == 0,
    {
        Duration { secs, nanos: 0 }
    }

    /// The whole seconds of the span.
    pub fn as_secs(&self) -> (secs: u64)
        ensures
            secs == self.spec_secs(),
    {
        self.secs
    }

    /// The fraction of a second, in nanoseconds.
    pub fn subsec_nanos(&self) -> (nanos: u32)
        ensures
            nanos == self.spec_nanos(),
            nanos < NANOS_PER_SEC,
    {
        proof {
            use_type_invariant(self);
        }
        self.nanos
    }

    /// The fraction of a second, in whole microseconds.
    pub fn subsec_micros(&self) -> (micros: u32)
        ensures
            micros == self.spec_nanos() / 1000,
    {
        self.nanos / 1000
    }

    /// Whether this span is strictly longer than `other`.
    pub fn longer_than(&self, other: &Duration) -> (longer: bool)
        ensures
            longer == (self.total_nanos() > other.total_nanos()),
    {
        proof {
            use_type_invariant(self);
            use_type_invariant(other);
        }
        self.secs > other.secs || (self.secs == other.secs && self.nanos > other.nanos)
    }

    /// The sum of two spans, whose seconds must fit in 64 bits.
    pub fn add(self, other: Duration) -> (sum: Duration)
        requires
            self.total_nanos() + other.total_nanos() < (u64::MAX + 1) * 1_000_000_000,
        ensures
            sum.total_nanos() == self.total_nanos() + other.total_nanos(),
            sum.spec_nanos() < 1_000_000_000,
    {
        proof {
            use_type_invariant(&self);
            use_type_invariant(&other);
        }
        let mut nanos: u32 = self.nanos + other.nanos;
        let mut carry: u64 = 0;
        if nanos >= NANOS_PER_SEC {
            nanos = nanos - NANOS_PER_SEC;
            carry = 1;
        }
        Duration { secs: self.secs + other.secs + carry, nanos }
    }

    /// This span less `other`, which must not be the longer one.
    pub fn sub(self, other: Duration) -> (rest: Duration)
        requires
            self.total_nanos() >= other.total_nanos(),
        ensures
            rest.total_nanos() == self.total_nanos() - other.total_nanos(),
            rest.spec_nanos() < 1_000_000_000,
    {
        proof {
            use_type_invariant(&self);
            use_type_invariant(&other);
        }
        if self.nanos >= other.nanos {
            Duration { secs: self.secs - other.secs, nanos: self.nanos - other.nanos }
        } else {
            Duration { secs: self.secs - other.secs - 1, nanos: self.nanos + NANOS_PER_SEC - other.nanos }
        }
    }
}

impl Default for Duration {
    fn default() -> (d: Duration)
        ensures
            d.spec_secs() == 0,
            d.spec_nanos() == 0,
    {
        Duration { secs: 0, nanos: 0 }
    }
}

/// The fields of a date and time, from the largest to the smallest.
#[derive(Debug, Clone, Copy, PartialEq, Eq, Structural, Hash)]
pub enum DateTimeField {
    Year,
    Month,
    Day,
    Hour,
    Minute,
    Second,
}

impl DateTimeField {
    /// Whether the field measures a span of seconds: a day or less.
    pub open spec fn is_duration_field(self) -> bool {
        self != DateTimeField::Year && self != DateTimeField::Month
    }

    /// The number of seconds in one unit of the field.
    pub open spec fn spec_seconds(self) -> nat
        recommends
            self.is_duration_field(),
    {
        match self {
            DateTimeField::Day => 86400,
            DateTimeField::Hour => 3600,
            DateTimeField::Minute => 60,
            _ => 1,
        }
    }

    /// The field one step larger.
    pub open spec fn spec_next_largest(self) -> DateTimeField
        recommends
            self != DateTimeField::Year,
    {
        match self {
            DateTimeField::Second => DateTimeField::Minute,
            DateTimeField::Minute => DateTimeField::Hour,
            DateTimeField::Hour => DateTimeField::Day,
            DateTimeField::Day => DateTimeField::Month,
            _ => DateTimeField::Year,
        }
    }

    /// The field one step larger. A year has none.
    pub fn next_largest(self) -> (next: DateTimeField)
        requires
            self != DateTimeField::Year,
        ensures
            next == self.spec_next_largest(),
    {
        match self {
            DateTimeField::Second => DateTimeField::Minute,
            DateTimeField::Minute => DateTimeField::Hour,
            DateTimeField::Hour => DateTimeField::Day,
            DateTimeField::Day => DateTimeField::Month,
            _ => DateTimeField::Year,
        }
    }
}

/// Returns the number of seconds in a single unit of `field`, which must be
/// a day or less.
pub fn seconds_multiplier(field: DateTimeField) -> (seconds: u64)
    requires
        field.is_duration_field(),
    ensures
        seconds == field.spec_seconds(),
{
    match field {
        DateTimeField::Day => 60 * 60 * 24,
        DateTimeField::Hour => 60 * 60,
        DateTimeField::Minute => 60,
        _ => 1,
    }
}

/// An interval of time meant to express SQL intervals.
///
/// A possibly negative number of months and a span of seconds with its own
/// sign.
#[derive(Debug, Clone, Copy, PartialEq, Eq, PartialOrd, Ord, Hash)]
pub struct Interval {
    /// A possibly negative number of months for field types like `YEAR`
    pub months: i64,
    /// An actual timespan, possibly negative, because why not
    pub duration: Duration,
    pub is_positive_dur: bool,
}

impl Default for Interval {
    fn default() -> (interval: Interval)
        ensures
            interval.months == 0,
            interval.duration.total_nanos() == 0,
            interval.is_positive_dur,
    {
        Interval { months: 0, duration: Duration::default(), is_positive_dur: true }
    }
}

impl Interval {
    /// The span of the interval in nanoseconds, with its sign.
    pub open spec fn signed_nanos(self) -> int {
        if self.is_positive_dur {
            self.duration.total_nanos() as int
        } else {
            -(self.duration.total_nanos() as int)
        }
    }

    /// Computes the nanosecond part of the interval.
    pub fn nanoseconds(&self) -> (nanos: i64)
        ensures
            nanos == if self.is_positive_dur {
                self.duration.spec_nanos() as int
            } else {
                -(self.duration.spec_nanos() as int)
            },
    {
        let nanos = self.duration.subsec_nanos();
        if self.is_positive_dur {
            nanos as i64
        } else {
            -(nanos as i64)
        }
    }

    /// The number of whole years in the interval, with the sign of the
    /// months.
    pub fn whole_years(&self) -> (years: i64)
        ensures
            years == if self.months >= 0 {
                (self.months as int) / 12
            } else {
                -((-self.months) / 12)
            },
    {
        self.months / 12
    }

    /// The number of whole months in the interval beyond its whole years,
    /// with the sign of the months.
    pub fn months_of_year(&self) -> (months: i64)
        ensures
            months == if self.months >= 0 {
                (self.months as int) % 12
            } else {
                -((-self.months) % 12)
            },
    {
        self.months % 12
    }

    /// The number of whole days in the span.
    pub fn whole_days(&self) -> (days: u64)
        ensures
            days == self.duration.spec_secs() / 86400,
    {
        self.duration.as_secs() / (60 * 60 * 24)
    }

    /// The number of whole hours in the span beyond its whole days.
    pub fn hours_of_day(&self) -> (hours: u64)
        ensures
            hours == (self.duration.spec_secs() / 3600) % 24,
    {
        (self.duration.as_secs() / (60 * 60)) % 24
    }

    /// The number of whole minutes in the span beyond its whole hours.
    pub fn minutes_of_hour(&self) -> (minutes: u64)
        ensures
            minutes == (self.duration.spec_secs() / 60) % 60,
    {
        (self.duration.as_secs() / 60) % 60
    }

    /// The number of whole seconds in the span beyond its whole minutes.
    pub fn seconds_of_minute(&self) -> (seconds: u64)
        ensures
            seconds == self.duration.spec_secs() % 60,
    {
        self.duration.as_secs() % 60
    }

    /// The sum of two intervals: the months add up, and so do the spans with
    /// their signs. Where the spans cancel out exactly the sum takes the
    /// sign of `other`.
    pub fn add(self, other: Interval) -> (sum: Interval)
        requires
            i64::MIN <= self.months + other.months <= i64::MAX,
            self.is_positive_dur == other.is_positive_dur ==> self.duration.total_nanos()
                + other.duration.total_nanos() < (u64::MAX + 1) * 1_000_000_000,
        ensures
            sum.months == self.months + other.months,
            sum.signed_nanos() == self.signed_nanos() + other.signed_nanos(),
            sum.duration.spec_nanos() < 1_000_000_000,
            sum.is_positive_dur == if self.is_positive_dur == other.is_positive_dur
                || self.duration.total_nanos() > other.duration.total_nanos() {
                self.is_positive_dur
            } else {
                other.is_positive_dur
            },
    {
        let (is_positive_dur, duration) = if self.is_positive_dur == other.is_positive_dur {
            (self.is_positive_dur, self.duration.add(other.duration))
        } else if self.duration.longer_than(&other.duration) {
            (self.is_positive_dur, self.duration.sub(other.duration))
        } else {
            (other.is_positive_dur, other.duration.sub(self.duration))
        };
        Interval { months: self.months + other.months, duration, is_positive_dur }
    }

    /// The interval with both signs turned round.
    pub fn neg(self) -> (negated: Interval)
        requires
            self.months > i64::MIN,
        ensures
            negated.months == -self.months,
            negated.duration == self.duration,
            negated.is_positive_dur == !self.is_positive_dur,
    {
        Interval { months: -self.months, duration: self.duration, is_positive_dur: !self.is_positive_dur }
    }

    /// The difference of two intervals: the sum of `self` and the negated
    /// `other`.
    pub fn sub(self, other: Interval) -> (difference: Interval)
        requires
            other.months > i64::MIN,
            i64::MIN <= self.months - other.months <= i64::MAX,
            self.is_positive_dur != other.is_positive_dur ==> self.duration.total_nanos()
                + other.duration.total_nanos() < (u64::MAX + 1) * 1_000_000_000,
        ensures
            difference.months == self.months - other.months,
            difference.signed_nanos() == self.signed_nanos() - other.signed_nanos(),
            difference.duration.spec_nanos() < 1_000_000_000,
            difference.is_positive_dur == if self.is_positive_dur != other.is_positive_dur
                || self.duration.total_nanos() > other.duration.total_nanos() {
                self.is_positive_dur
            } else {
                !other.is_positive_dur
            },
    {
        self.add(other.neg())
    }
}

/// Ten to the power of `exponent`.
pub open spec fn pow10(exponent: nat) -> nat
    decreases exponent,
{
    if exponent == 0 {
        1
    } else {
        10 * pow10((exponent - 1) as nat)
    }
}

fn ten_to(exponent: u32) -> (power: u32)
    requires
        exponent <= 9,
    ensures
        power == pow10(exponent as nat),
        1 <= power <= 1_000_000_000,
{
    proof {
        reveal_with_fuel(pow10, 10);
    }
    if exponent == 0 {
        1
    } else if exponent == 1 {
        10
    } else if exponent == 2 {
        100
    } else if exponent == 3 {
        1_000
    } else if exponent == 4 {
        10_000
    } else if exponent == 5 {
        100_000
    } else if exponent == 6 {
        1_000_000
    } else if exponent == 7 {
        10_000_000
    } else if exponent == 8 {
        100_000_000
    } else {
        1_000_000_000
    }
}

/// The nanoseconds rounded to `precision` decimal places of a second: half
/// a unit of the last place and more rounds up. The result may be a whole
/// second.
pub open spec fn rounded_nanos(nanos: nat, precision: nat) -> nat
    recommends
        precision <= 6,
{
    let unit = pow10((9 - precision) as nat);
    let remainder = nanos % unit;
    if remainder / pow10((8 - precision) as nat) > 4 {
        (nanos - remainder + unit) as nat
    } else {
        (nanos - remainder) as nat
    }
}

/// The precision that a truncation to seconds works with: six places unless
/// another number is asked for.
pub open spec fn second_precision(fsec_max_precision: Option<u64>) -> nat {
    match fsec_max_precision {
        Some(precision) => precision as nat,
        None => 6,
    }
}

/// The remainder of a signed number of months by twelve, with the sign of
/// the months.
pub open spec fn months_beyond_years(months: int) -> int {
    if months >= 0 {
        months % 12
    } else {
        -((-months) % 12)
    }
}

impl Interval {
    /// Truncate the "head" of the interval, removing all time units greater
    /// than `f`.
    pub fn truncate_high_fields(&mut self, f: DateTimeField)
        ensures
            final(self).is_positive_dur == old(self).is_positive_dur,
            final(self).duration.spec_nanos() == old(self).duration.spec_nanos(),
            match f {
                DateTimeField::Year => final(self).months == old(self).months && final(self).duration.spec_secs() == old(self).duration.spec_secs(),
                DateTimeField::Month => final(self).months == months_beyond_years(old(self).months as int)
                    && final(self).duration.spec_secs() == old(self).duration.spec_secs(),
                DateTimeField::Day => final(self).months == 0 && final(self).duration.spec_secs() == old(self).duration.spec_secs(),
                _ => final(self).months == 0 && final(self).duration.spec_secs() == old(self).duration.spec_secs() % f.spec_next_largest().spec_seconds(),
            },
    {
        match f {
            DateTimeField::Year => {},
            DateTimeField::Month => {
                self.months = self.months % 12;
            },
            DateTimeField::Day => {
                self.months = 0;
            },
            hms => {
                self.months = 0;
                let nanos = self.duration.subsec_nanos();
                self.duration = Duration::new(
                    self.duration.as_secs() % seconds_multiplier(hms.next_largest()),
                    nanos,
                );
            },
        }
    }

    /// Whether a truncation to `f` with the given precision is refused: it
    /// is when `f` is the second and more than six places are asked for.
    pub open spec fn refuses_precision(f: DateTimeField, fsec_max_precision: Option<u64>) -> bool {
        f == DateTimeField::Second && second_precision(fsec_max_precision) > 6
    }

    /// Truncate the "tail" of the interval, removing all time units less
    /// than `f`.
    ///
    /// `f` is the unit to round the interval down to. With
    /// `fsec_max_precision` at `Some(x)` only `x` decimal places of a second
    /// are kept, and the last of them is rounded; `x` must not exceed six.
    /// Rounding up must not carry the seconds beyond 64 bits.
    pub fn truncate_low_fields(&mut self, f: DateTimeField, fsec_max_precision: Option<u64>) -> (r:
        Result<(), String>)
        requires
            f == DateTimeField::Second && second_precision(fsec_max_precision) <= 6 ==> old(self).duration.spec_secs() + rounded_nanos(
                old(self).duration.spec_nanos(),
                second_precision(fsec_max_precision),
            ) / 1_000_000_000 <= u64::MAX,
        ensures
            final(self).is_positive_dur == old(self).is_positive_dur,
            r is Err <==> Self::refuses_precision(f, fsec_max_precision),
            match r {
                Err(message) => *final(self) == *old(self) && message@
                    == "SECOND precision must be (0, 6), have SECOND("@ + decimal(
                    second_precision(fsec_max_precision),
                ) + ")"@,
                Ok(_) => match f {
                    DateTimeField::Year => final(self).months == old(self).months - months_beyond_years(
                        old(self).months as int,
                    ) && final(self).duration.total_nanos() == 0,
                    DateTimeField::Month => final(self).months == old(self).months && final(self).duration.total_nanos() == 0,
                    DateTimeField::Second => final(self).months == old(self).months && final(self).duration.total_nanos() == old(self).duration.spec_secs() * 1_000_000_000
                        + rounded_nanos(
                        old(self).duration.spec_nanos(),
                        second_precision(fsec_max_precision),
                    ),
                    _ => final(self).months == old(self).months && final(self).duration.spec_nanos() == 0
                        && final(self).duration.spec_secs() == old(self).duration.spec_secs() - old(self).duration.spec_secs() % f.spec_seconds(),
                },
            },
    {
        match f {
            DateTimeField::Year => {
                self.months = self.months - self.months % 12;
                self.duration = Duration::new(0, 0);
            },
            DateTimeField::Month => {
                self.duration = Duration::new(0, 0);
            },
            // Round nanoseconds.
            DateTimeField::Second => {
                let default_precision: u64 = 6;
                let precision: u64 = match fsec_max_precision {
                    Some(p) => p,
                    None => default_precision,
                };
                if precision > default_precision {
                    let mut message = String::from_str("SECOND precision must be (0, 6), have SECOND(");
                    push_decimal(&mut message, precision);
                    message.append(")");
                    return Err(message);
                }
                let mut nanos: u32 = self.duration.subsec_nanos();
                let ghost before = nanos as nat;
                // Check if value should round up to nearest fractional place.
                let unit: u32 = ten_to(9 - precision as u32);
                let remainder: u32 = nanos % unit;
                let tenth: u32 = ten_to(8 - precision as u32);
                let rounds_up: bool = remainder / tenth > 4;
                if rounds_up {
                    nanos = nanos + unit;
                }
                let secs = self.duration.as_secs();
                proof {
                    let rounded = rounded_nanos(before, precision as nat);
                    let u = pow10((9 - precision) as nat);
                    assert(before % u <= before) by (nonlinear_arith)
                        requires
                            u > 0,
                    ;
                    assert(rounded == nanos - remainder);
                    assert(secs * 1_000_000_000 + rounded == (secs + rounded / 1_000_000_000)
                        * 1_000_000_000 + rounded % 1_000_000_000) by (nonlinear_arith);
                }
                self.duration = Duration::new(secs, nanos - remainder);
            },
            dhm => {
                let secs = self.duration.as_secs();
                self.duration = Duration::new(secs - secs % seconds_multiplier(dhm), 0);
            },
        }
        Ok(())
    }
}

/// A count with its unit: `3 year`, and with an `s` behind it where the
/// count is more than one.
pub open spec fn counted(count: nat, unit: Seq<char>) -> Seq<char> {
    decimal(count) + unit + if count > 1 {
        "s"@
    } else {
        Seq::empty()
    }
}

/// The text of the years: empty where there are none, else a minus sign for
/// negative months and the count.
pub open spec fn years_text(negative: bool, years: nat) -> Seq<char> {
    if years == 0 {
        Seq::empty()
    } else {
        (if negative {
            "-"@
        } else {
            Seq::empty()
        }) + counted(years, " year"@)
    }
}

/// The text of the months beyond the years, with a blank before it where
/// years stand in front.
pub open spec fn months_text(negative: bool, years: nat, months: nat) -> Seq<char> {
    if months == 0 {
        Seq::empty()
    } else {
        (if years != 0 {
            " "@
        } else {
            Seq::empty()
        }) + (if negative {
            "-"@
        } else {
            Seq::empty()
        }) + counted(months, " month"@)
    }
}

/// The sign that the days carry: a minus for a negative span, and a plus for
/// a positive span behind negative months.
pub open spec fn span_sign(positive: bool, negative_months: bool) -> Seq<char> {
    if !positive {
        "-"@
    } else if negative_months {
        "+"@
    } else {
        Seq::empty()
    }
}

/// The text of the days, with a blank before it where years or months stand
/// in front.
pub open spec fn days_text(
    positive: bool,
    negative_months: bool,
    years: nat,
    months: nat,
    days: nat,
) -> Seq<char> {
    if days == 0 {
        Seq::empty()
    } else {
        (if years > 0 || months > 0 {
            " "@
        } else {
            Seq::empty()
        }) + span_sign(positive, negative_months) + counted(days, " day"@)
    }
}

/// How many decimal places the fraction is written with: nine, less the
/// zeros at the end of the nanoseconds.
pub open spec fn fraction_width(nanos: nat, width: nat) -> nat
    decreases nanos,
{
    if nanos > 0 && nanos % 10 == 0 {
        fraction_width(nanos / 10, (width - 1) as nat)
    } else {
        width
    }
}

/// The nanoseconds without the zeros at their end.
pub open spec fn fraction_digits(nanos: nat) -> nat
    decreases nanos,
{
    if nanos > 0 && nanos % 10 == 0 {
        fraction_digits(nanos / 10)
    } else {
        nanos
    }
}

/// The fraction of a second: empty where there is none, else a point and
/// the nanoseconds without the zeros at their end.
pub open spec fn fraction_text(nanos: nat) -> Seq<char> {
    if nanos == 0 {
        Seq::empty()
    } else {
        "."@ + padded_decimal(fraction_digits(nanos), fraction_width(nanos, 9))
    }
}

/// Hours, minutes and seconds, two digits each at least, and the fraction.
pub open spec fn clock_text(hours: nat, minutes: nat, seconds: nat, nanos: nat) -> Seq<char> {
    padded_decimal(hours, 2) + ":"@ + padded_decimal(minutes, 2) + ":"@ + padded_decimal(seconds, 2)
        + fraction_text(nanos)
}

/// The text of the time of day. It is left out where it is zero and
/// something stands in front; a minus sign marks a negative time that is not
/// zero, a plus sign a time behind negative months.
pub open spec fn time_text(
    positive: bool,
    negative_months: bool,
    larger: bool,
    hours: nat,
    minutes: nat,
    seconds: nat,
    nanos: nat,
) -> Seq<char> {
    let non_zero = hours > 0 || minutes > 0 || seconds > 0 || nanos > 0;
    if larger && !non_zero {
        Seq::empty()
    } else {
        (if larger {
            " "@
        } else {
            Seq::empty()
        }) + (if !positive && non_zero {
            "-"@
        } else if negative_months {
            "+"@
        } else {
            Seq::empty()
        }) + clock_text(hours, minutes, seconds, nanos)
    }
}

fn push_counted(out: &mut String, count: u64, unit: &str)
    ensures
        final(out)@ == old(out)@ + counted(count as nat, unit@),
{
    push_decimal(out, count);
    out.append(unit);
    if count > 1 {
        out.append("s");
    }
}

fn push_fraction(out: &mut String, nanos: u32)
    requires
        nanos < NANOS_PER_SEC,
    ensures
        final(out)@ == old(out)@ + fraction_text(nanos as nat),
{
    if nanos > 0 {
        let mut digits: u32 = nanos;
        let mut width: usize = 9;
        proof {
            reveal_with_fuel(pow10, 11);
        }
        while digits % 10 == 0
            invariant
                0 < digits < pow10(width as nat),
                width <= 9,
                fraction_width(digits as nat, width as nat) == fraction_width(nanos as nat, 9),
                fraction_digits(digits as nat) == fraction_digits(nanos as nat),
            decreases digits,
        {
            proof {
                reveal_with_fuel(pow10, 2);
            }
            width -= 1;
            digits = digits / 10;
        }
        out.append(".");
        push_padded_decimal(out, digits as u64, width);
    }
}

fn push_years(out: &mut String, negative: bool, years: u64)
    ensures
        final(out)@ == old(out)@ + years_text(negative, years as nat),
{
    if years > 0 {
        if negative {
            out.append("-");
        }
        push_counted(out, years, " year");
    }
}

fn push_months(out: &mut String, negative: bool, years: u64, months: u64)
    ensures
        final(out)@ == old(out)@ + months_text(negative, years as nat, months as nat),
{
    if months > 0 {
        if years != 0 {
            out.append(" ");
        }
        if negative {
            out.append("-");
        }
        push_counted(out, months, " month");
    }
}

fn push_days(out: &mut String, positive: bool, negative_months: bool, years: u64, months: u64, days: u64)
    ensures
        final(out)@ == old(out)@ + days_text(
            positive,
            negative_months,
            years as nat,
            months as nat,
            days as nat,
        ),
{
    if days > 0 {
        if years > 0 || months > 0 {
            out.append(" ");
        }
        if !positive {
            out.append("-");
        } else if negative_months {
            out.append("+");
        }
        push_counted(out, days, " day");
    }
}

fn push_clock(out: &mut String, hours: u64, minutes: u64, seconds: u64, nanos: u32)
    requires
        nanos < NANOS_PER_SEC,
    ensures
        final(out)@ == old(out)@ + clock_text(
            hours as nat,
            minutes as nat,
            seconds as nat,
            nanos as nat,
        ),
{
    push_padded_decimal(out, hours, 2);
    out.append(":");
    push_padded_decimal(out, minutes, 2);
    out.append(":");
    push_padded_decimal(out, seconds, 2);
    push_fraction(out, nanos);
}

fn push_time(
    out: &mut String,
    positive: bool,
    negative_months: bool,
    larger: bool,
    hours: u64,
    minutes: u64,
    seconds: u64,
    nanos: u32,
)
    requires
        nanos < NANOS_PER_SEC,
    ensures
        final(out)@ == old(out)@ + time_text(
            positive,
            negative_months,
            larger,
            hours as nat,
            minutes as nat,
            seconds as nat,
            nanos as nat,
        ),
{
    let non_zero_hmsn = hours > 0 || minutes > 0 || seconds > 0 || nanos > 0;
    if !larger || non_zero_hmsn {
        if larger {
            out.append(" ");
        }
        if !positive && non_zero_hmsn {
            out.append("-");
        } else if negative_months {
            out.append("+");
        }
        push_clock(out, hours, minutes, seconds, nanos);
    }
}

impl Interval {
    /// The size of the months, without their sign.
    pub open spec fn months_magnitude(self) -> nat {
        if self.months < 0 {
            (-self.months) as nat
        } else {
            self.months as nat
        }
    }

    /// The interval in a human form, such as `1 year 2 months 5 days
    /// 03:04:00`, `-1 year +5 days +18:59:29.3` or `00:00:00`.
    pub open spec fn text(self) -> Seq<char> {
        let negative = self.months < 0;
        let years = self.months_magnitude() / 12;
        let months = self.months_magnitude() % 12;
        let total = self.duration.spec_secs();
        let days = total / 86400;
        let of_day = total % 86400;
        let hours = of_day / 3600;
        let minutes = (of_day % 3600) / 60;
        let seconds = (of_day % 3600) % 60;
        years_text(negative, years) + months_text(negative, years, months) + days_text(
            self.is_positive_dur,
            negative,
            years,
            months,
            days,
        ) + time_text(
            self.is_positive_dur,
            negative,
            years > 0 || months > 0 || days > 0,
            hours,
            minutes,
            seconds,
            self.duration.spec_nanos(),
        )
    }

    /// Format an interval in a human form.
    pub fn to_string(&self) -> (text: String)
        ensures
            text@ == self.text(),
    {
        let neg_mos = self.months < 0;
        let magnitude: u64 = if neg_mos {
            ((-(self.months + 1)) as u64) + 1
        } else {
            self.months as u64
        };
        let years = magnitude / 12;
        let months = magnitude % 12;
        let total = self.duration.as_secs();
        let nanos = self.duration.subsec_nanos();
        let days = total / (24 * 60 * 60);
        let mut secs = total % (24 * 60 * 60);
        let hours = secs / (60 * 60);
        secs = secs % (60 * 60);
        let minutes = secs / 60;
        secs = secs % 60;

        let mut out = String::new();
        push_years(&mut out, neg_mos, years);
        push_months(&mut out, neg_mos, years, months);
        push_days(&mut out, self.is_positive_dur, neg_mos, years, months, days);
        push_time(
            &mut out,
            self.is_positive_dur,
            neg_mos,
            years > 0 || months > 0 || days > 0,
            hours,
            minutes,
            secs,
            nanos,
        );
        out
    }
}

} // verus!
