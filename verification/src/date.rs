//! Calendar dates and the one- or two-date compound a task can carry.
//!
//! A [`Date`] is validated against the real (proleptic Gregorian) calendar,
//! leap years included; the calendar lookup itself is delegated to the
//! `chrono` crate.  A [`SimpleDate`] is the minimal fallback date type that
//! validates only the static per-field bounds 1-12 and 1-31 and therefore
//! accepts calendrically impossible combinations such as February 30.

use vstd::prelude::*;

use crate::parse::Parser;
use crate::parse::is_digit;
use crate::parse::is_ws;

verus! {

/// True for leap years of the proleptic Gregorian calendar.
pub open spec fn is_leap_year(y: int) -> bool {
    (y % 4 == 0 && y % 100 != 0) || y % 400 == 0
}

/// The number of days of month `m` (1-12) in year `y` of the proleptic
/// Gregorian calendar; 0 for a month outside 1-12.
pub open spec fn days_in_month(y: int, m: int) -> int {
    if m == 1 {
        31
    } else if m == 2 {
        if is_leap_year(y) {
            29
        } else {
            28
        }
    } else if m == 3 {
        31
    } else if m == 4 {
        30
    } else if m == 5 {
        31
    } else if m == 6 {
        30
    } else if m == 7 {
        31
    } else if m == 8 {
        31
    } else if m == 9 {
        30
    } else if m == 10 {
        31
    } else if m == 11 {
        30
    } else if m == 12 {
        31
    } else {
        0
    }
}

/// True when year `y`, month `m`, day `d` name an existing day of the
/// proleptic Gregorian calendar.
pub open spec fn date_valid(y: int, m: int, d: int) -> bool {
    1 <= m <= 12 && 1 <= d <= days_in_month(y, m)
}

/// Decides whether the calendar day (`year`, `month`, `day`) exists.
///
/// Relies on `chrono::NaiveDate::from_ymd_opt`, which returns `Some`
/// exactly for existing days of the proleptic Gregorian calendar; every
/// `i16` year lies inside the year range `chrono` supports.
#[verifier::external_body]
fn calendar_ymd_exists(year: i16, month: u8, day: u8) -> (r: bool)
    ensures
        r == date_valid(year as int, month as int, day as int),
{
    chrono::NaiveDate::from_ymd_opt(year as i32, month as u32, day as u32).is_some()
}

/// A very basic date type: year, one-indexed month and one-indexed day,
/// validated only against the static bounds 1-12 and 1-31.
#[derive(Debug, Clone, Copy, PartialEq, Eq, Structural, Hash)]
pub struct SimpleDate {
    /// Year of the date.
    pub year: i16,
    /// One-indexed month of the date.
    pub month: u8,
    /// One-indexed day of the date.
    pub day: u8,
}

impl SimpleDate {
    /// Creates a new date.  The month must lie in 1-12 and the day in 1-31.
    pub fn from_ymd(year: i16, month: u8, day: u8) -> (r: Self)
        requires
            1 <= month <= 12,
            1 <= day <= 31,
        ensures
            r == (SimpleDate { year, month, day }),
    {
        SimpleDate { year, month, day }
    }

    /// Creates a new date; returns `None` when the month is outside 1-12 or
    /// the day outside 1-31.
    pub fn from_ymd_opt(year: i16, month: u8, day: u8) -> (r: Option<Self>)
        ensures
            r == if 1 <= month <= 12 && 1 <= day <= 31 {
                Some(SimpleDate { year, month, day })
            } else {
                None::<SimpleDate>
            },
    {
        if 1 <= month && month <= 12 && 1 <= day && day <= 31 {
            Some(SimpleDate { year, month, day })
        } else {
            None
        }
    }

    /// Returns the year of the date.
    pub fn year(&self) -> (r: i16)
        ensures
            r == self.year,
    {
        self.year
    }

    /// Returns the one-indexed month of the date.
    pub fn month(&self) -> (r: u8)
        ensures
            r == self.month,
    {
        self.month
    }

    /// Returns the one-indexed day of the date.
    pub fn day(&self) -> (r: u8)
        ensures
            r == self.day,
    {
        self.day
    }
}

/// Failure of the date grammar rule: no `yyyy-mm-dd` token naming an
/// existing calendar day at the cursor.
#[derive(Debug, Clone, Copy, PartialEq, Eq, Structural, Hash)]
pub struct ParseDateError;

/// A calendar date, always rendered and parsed in the fixed-width format
/// `yyyy-mm-dd`.
///
/// Every date built by [`Date::from_ymd`], [`Date::from_ymd_opt`] or the
/// parser satisfies [`Date::wf`]: it names an existing day of the real
/// calendar, leap years included.
#[derive(Debug, Clone, Copy, PartialEq, Eq, Structural, Hash)]
pub struct Date {
    /// Year of the date.
    pub year: i16,
    /// One-indexed month of the date.
    pub month: u8,
    /// One-indexed day of the date.
    pub day: u8,
}

impl Date {
    /// The date names an existing calendar day.
    pub open spec fn wf(self) -> bool {
        date_valid(self.year as int, self.month as int, self.day as int)
    }

    /// Creates a new date.  The combination must name an existing calendar
    /// day.
    pub fn from_ymd(year: i16, month: u8, day: u8) -> (r: Self)
        requires
            date_valid(year as int, month as int, day as int),
        ensures
            r == (Date { year, month, day }),
            r.wf(),
    {
        Date { year, month, day }
    }

    /// Creates a new date; returns `None` exactly when the combination does
    /// not name an existing calendar day.
    pub fn from_ymd_opt(year: i16, month: u8, day: u8) -> (r: Option<Self>)
        ensures
            r == if date_valid(year as int, month as int, day as int) {
                Some(Date { year, month, day })
            } else {
                None::<Date>
            },
            r matches Some(d) ==> d.wf(),
    {
        if calendar_ymd_exists(year, month, day) {
            Some(Date { year, month, day })
        } else {
            None
        }
    }

    /// Returns the year of the date.
    pub fn year(&self) -> (r: i16)
        ensures
            r == self.year,
    {
        self.year
    }

    /// Returns the one-indexed month of the date.
    pub fn month(&self) -> (r: u8)
        ensures
            r == self.month,
    {
        self.month
    }

    /// Returns the one-indexed day of the date.
    pub fn day(&self) -> (r: u8)
        ensures
            r == self.day,
    {
        self.day
    }
}

/// The value of the ASCII digit at position `k` of `b`.
pub open spec fn digit_at(b: Seq<u8>, k: int) -> int {
    b[k] - 0x30
}

/// The year encoded by the four digits starting at position `i` of `b`.
pub open spec fn year_at(b: Seq<u8>, i: int) -> int {
    digit_at(b, i) * 1000 + digit_at(b, i + 1) * 100 + digit_at(b, i + 2) * 10 + digit_at(b, i + 3)
}

/// True when the ten bytes starting at position `i` of `b` have the shape
/// `dddd-dd-dd`.
pub open spec fn date_shape_at(b: Seq<u8>, i: int) -> bool {
    &&& 0 <= i
    &&& i + 10 <= b.len()
    &&& is_digit(b[i])
    &&& is_digit(b[i + 1])
    &&& is_digit(b[i + 2])
    &&& is_digit(b[i + 3])
    &&& b[i + 4] == 0x2d
    &&& is_digit(b[i + 5])
    &&& is_digit(b[i + 6])
    &&& b[i + 7] == 0x2d
    &&& is_digit(b[i + 8])
    &&& is_digit(b[i + 9])
}

/// The date token at position `i` of `b`: exactly ten bytes `yyyy-mm-dd`
/// naming an existing calendar day, yielding the date and the position
/// after the token, or nothing.
pub open spec fn spec_parse_date(b: Seq<u8>, i: int) -> Option<(Date, int)> {
    if date_shape_at(b, i) {
        let y = year_at(b, i);
        let m = digit_at(b, i + 5) * 10 + digit_at(b, i + 6);
        let d = digit_at(b, i + 8) * 10 + digit_at(b, i + 9);
        if date_valid(y, m, d) {
            Some((Date { year: y as i16, month: m as u8, day: d as u8 }, i + 10))
        } else {
            None
        }
    } else {
        None
    }
}

impl Date {
    /// Parses the date token at the parser's position, consuming it on
    /// success; on failure the parser may have consumed a prefix of the
    /// token.
    pub fn parse(parser: &mut Parser<'_>) -> (r: Result<Self, ParseDateError>)
        requires
            old(parser).wf(),
        ensures
            final(parser).wf(),
            final(parser).data() == old(parser).data(),
            match spec_parse_date(old(parser).data(), old(parser).pos()) {
                Some((v, j)) => r == Ok::<Date, ParseDateError>(v) && final(parser).pos() == j,
                None => r == Err::<Date, ParseDateError>(ParseDateError) && old(parser).pos()
                    <= final(parser).pos() <= old(parser).pos() + 10,
            },
    {
        let y1 = match parser.parse_digit() {
            Some(d) => d,
            None => {
                return Err(ParseDateError);
            },
        };
        let y2 = match parser.parse_digit() {
            Some(d) => d,
            None => {
                return Err(ParseDateError);
            },
        };
        let y3 = match parser.parse_digit() {
            Some(d) => d,
            None => {
                return Err(ParseDateError);
            },
        };
        let y4 = match parser.parse_digit() {
            Some(d) => d,
            None => {
                return Err(ParseDateError);
            },
        };
        if parser.expect_u8(0x2d).is_none() {
            return Err(ParseDateError);
        }
        let m1 = match parser.parse_digit() {
            Some(d) => d,
            None => {
                return Err(ParseDateError);
            },
        };
        let m2 = match parser.parse_digit() {
            Some(d) => d,
            None => {
                return Err(ParseDateError);
            },
        };
        if parser.expect_u8(0x2d).is_none() {
            return Err(ParseDateError);
        }
        let d1 = match parser.parse_digit() {
            Some(d) => d,
            None => {
                return Err(ParseDateError);
            },
        };
        let d2 = match parser.parse_digit() {
            Some(d) => d,
            None => {
                return Err(ParseDateError);
            },
        };

        let year = (y1 as i16) * 1000 + (y2 as i16) * 100 + (y3 as i16) * 10 + (y4 as i16);
        let month = m1 * 10 + m2;
        let day = d1 * 10 + d2;

        match Self::from_ymd_opt(year, month, day) {
            Some(date) => Ok(date),
            None => Err(ParseDateError),
        }
    }

    /// Attempts [`Date::parse`] and restores the parser verbatim on
    /// failure.
    pub fn parse_opt(parser: &mut Parser<'_>) -> (r: Option<Self>)
        requires
            old(parser).wf(),
        ensures
            final(parser).wf(),
            final(parser).data() == old(parser).data(),
            match spec_parse_date(old(parser).data(), old(parser).pos()) {
                Some((v, j)) => r == Some(v) && final(parser).pos() == j,
                None => r is None && final(parser).pos() == old(parser).pos(),
            },
    {
        let parser_pre = *parser;
        match Self::parse(parser) {
            Err(_) => {
                *parser = parser_pre;
                None
            },
            Ok(x) => Some(x),
        }
    }
}

impl core::str::FromStr for Date {
    type Err = ParseDateError;

    /// Parses a date from a string holding exactly one `yyyy-mm-dd` token.
    fn from_str(s: &str) -> Result<Self, Self::Err> {
        let bytes = s.as_bytes();
        let mut parser = Parser::new(bytes);
        match Date::parse(&mut parser) {
            Ok(date) => {
                if parser.is_eof() {
                    Ok(date)
                } else {
                    Err(ParseDateError)
                }
            },
            Err(e) => Err(e),
        }
    }
}

/// Failure of the date-compound grammar rule: no date token at the cursor.
#[derive(Debug, Clone, Copy, PartialEq, Eq, Structural, Hash)]
pub struct ParseDateCompoundError;

/// The dates attached to a task: either a creation date alone, or a
/// completion date together with the creation date.
///
/// In the textual form the completion date is written first; the parser
/// un-reverses the two into the named fields.
#[derive(Debug, Clone, Copy, PartialEq, Eq, Structural, Hash)]
pub enum DateCompound {
    /// Two dates, a completion date and a creation date.
    Completed {
        /// Creation date.
        created: Date,
        /// Completion date.
        completed: Date,
    },
    /// A single date on which the task was created.
    Created {
        /// Creation date.
        created: Date,
    },
}

impl DateCompound {
    /// Every date of the compound names an existing calendar day.
    pub open spec fn wf(self) -> bool {
        match self {
            DateCompound::Completed { created, completed } => created.wf() && completed.wf(),
            DateCompound::Created { created } => created.wf(),
        }
    }

    /// Creates a compound for a single creation date.
    pub fn created(created: Date) -> (r: Self)
        ensures
            r == (DateCompound::Created { created }),
    {
        DateCompound::Created { created }
    }

    /// Creates a compound for a creation and a completion date.
    pub fn completed(created: Date, completed: Date) -> (r: Self)
        ensures
            r == (DateCompound::Completed { created, completed }),
    {
        DateCompound::Completed { created, completed }
    }

    /// Returns the creation date.
    pub fn date_created(&self) -> (r: &Date)
        ensures
            *r == match *self {
                DateCompound::Created { created } => created,
                DateCompound::Completed { created, .. } => created,
            },
    {
        match self {
            DateCompound::Created { created } => created,
            DateCompound::Completed { created, .. } => created,
        }
    }

    /// Returns the completion date, when there is one.
    pub fn date_completed(&self) -> (r: Option<&Date>)
        ensures
            match *self {
                DateCompound::Completed { completed, .. } => r == Some(&completed),
                DateCompound::Created { .. } => r is None,
            },
    {
        match self {
            DateCompound::Completed { completed, .. } => Some(completed),
            DateCompound::Created { .. } => None,
        }
    }
}

/// The date-compound token at position `i` of `b`: one date, optionally
/// followed by a single whitespace byte and a second date.  The second date
/// counts only if the input ends or continues with whitespace after it;
/// when two dates are consumed, the first written is the completion date
/// and the second the creation date.
pub open spec fn spec_parse_datecompound(b: Seq<u8>, i: int) -> Option<(DateCompound, int)> {
    match spec_parse_date(b, i) {
        None => None,
        Some((d1, j)) => {
            if j < b.len() && is_ws(b[j]) {
                match spec_parse_date(b, j + 1) {
                    Some((d2, k)) => {
                        if k >= b.len() || is_ws(b[k]) {
                            Some((DateCompound::Completed { created: d2, completed: d1 }, k))
                        } else {
                            Some((DateCompound::Created { created: d1 }, j))
                        }
                    },
                    None => Some((DateCompound::Created { created: d1 }, j)),
                }
            } else {
                Some((DateCompound::Created { created: d1 }, j))
            }
        },
    }
}

impl DateCompound {
    /// Parses the date compound at the parser's position, consuming it on
    /// success; on failure the parser has not moved.
    pub fn parse(parser: &mut Parser<'_>) -> (r: Result<Self, ParseDateCompoundError>)
        requires
            old(parser).wf(),
        ensures
            final(parser).wf(),
            final(parser).data() == old(parser).data(),
            match spec_parse_datecompound(old(parser).data(), old(parser).pos()) {
                Some((v, j)) => r == Ok::<DateCompound, ParseDateCompoundError>(v) && final(parser).pos() == j && v.wf(),
                None => r == Err::<DateCompound, ParseDateCompoundError>(ParseDateCompoundError) && final(parser).pos() == old(parser).pos(),
            },
    {
        let date1 = match Date::parse_opt(parser) {
            Some(d) => d,
            None => {
                return Err(ParseDateCompoundError);
            },
        };

        let mut p_copy = *parser;

        if p_copy.expect_whitespace().is_some() {
            if let Some(date2) = Date::parse_opt(&mut p_copy) {
                // A second date counts only at a word boundary; otherwise it
                // is the start of the free text and only the first date is
                // consumed.
                let at_boundary = match p_copy.peek() {
                    Some(c) => crate::parse::is_whitespace_byte(c),
                    None => true,
                };
                if at_boundary {
                    *parser = p_copy;
                    return Ok(DateCompound::Completed { created: date2, completed: date1 });
                }
            }
        }

        Ok(DateCompound::Created { created: date1 })
    }

    /// Attempts [`DateCompound::parse`] and restores the parser verbatim on
    /// failure.
    pub fn parse_opt(parser: &mut Parser<'_>) -> (r: Option<Self>)
        requires
            old(parser).wf(),
        ensures
            final(parser).wf(),
            final(parser).data() == old(parser).data(),
            match spec_parse_datecompound(old(parser).data(), old(parser).pos()) {
                Some((v, j)) => r == Some(v) && final(parser).pos() == j && v.wf(),
                None => r is None && final(parser).pos() == old(parser).pos(),
            },
    {
        let parser_pre = *parser;
        match Self::parse(parser) {
            Err(_) => {
                *parser = parser_pre;
                None
            },
            Ok(x) => Some(x),
        }
    }
}

impl core::str::FromStr for DateCompound {
    type Err = ParseDateCompoundError;

    /// Parses a date compound from a string holding exactly one or two
    /// dates.
    fn from_str(s: &str) -> Result<Self, Self::Err> {
        let bytes = s.as_bytes();
        let mut parser = Parser::new(bytes);
        match DateCompound::parse(&mut parser) {
            Ok(compound) => {
                if parser.is_eof() {
                    Ok(compound)
                } else {
                    Err(ParseDateCompoundError)
                }
            },
            Err(e) => Err(e),
        }
    }
}

/// The ASCII digit byte for the value `v` (0-9).
pub open spec fn digit_byte(v: int) -> u8 {
    (0x30 + v) as u8
}

impl Date {
    /// The date can be rendered in the fixed-width format `yyyy-mm-dd`:
    /// it is a valid calendar day whose year has at most four digits.
    pub open spec fn displayable(self) -> bool {
        self.wf() && 0 <= self.year <= 9999
    }
}

/// The canonical rendering of a date: `yyyy-mm-dd`, fixed-width,
/// zero-padded (meaningful for displayable dates).
pub open spec fn spec_format_date(d: Date) -> Seq<u8> {
    let y = d.year as int;
    let m = d.month as int;
    let dd = d.day as int;
    seq![
        digit_byte(y / 1000 % 10),
        digit_byte(y / 100 % 10),
        digit_byte(y / 10 % 10),
        digit_byte(y % 10),
        0x2du8,
        digit_byte(m / 10 % 10),
        digit_byte(m % 10),
        0x2du8,
        digit_byte(dd / 10 % 10),
        digit_byte(dd % 10),
    ]
}

/// Parsing the canonical rendering of a displayable date gives the date
/// back, consuming exactly its ten bytes.
pub proof fn lemma_format_date_parses(b: Seq<u8>, i: int, d: Date)
    requires
        0 <= i,
        i + 10 <= b.len(),
        b.subrange(i, i + 10) == spec_format_date(d),
        d.displayable(),
    ensures
        spec_parse_date(b, i) == Some((d, i + 10)),
{
    let y = d.year as int;
    let m = d.month as int;
    let dd = d.day as int;
    let f = spec_format_date(d);
    assert forall|k: int| 0 <= k < 10 implies b[i + k] == f[k] by {
        assert(b.subrange(i, i + 10)[k] == b[i + k]);
    }
    assert(0 <= y / 1000 % 10 <= 9);
    assert(0 <= y / 100 % 10 <= 9);
    assert(0 <= y / 10 % 10 <= 9);
    assert(0 <= y % 10 <= 9);
    assert(date_shape_at(b, i));
    assert(y / 1000 % 10 == y / 1000) by {
        assert(0 <= y / 1000 <= 9);
    }
    assert((y / 1000) * 1000 + (y / 100 % 10) * 100 + (y / 10 % 10) * 10 + y % 10 == y) by {
        vstd::arithmetic::div_mod::lemma_fundamental_div_mod(y, 10);
        vstd::arithmetic::div_mod::lemma_fundamental_div_mod(y / 10, 10);
        vstd::arithmetic::div_mod::lemma_fundamental_div_mod(y / 100, 10);
        assert(y / 10 / 10 == y / 100) by {
            vstd::arithmetic::div_mod::lemma_div_denominator(y, 10, 10);
        }
        assert(y / 100 / 10 == y / 1000) by {
            vstd::arithmetic::div_mod::lemma_div_denominator(y, 100, 10);
        }
    }
    assert(year_at(b, i) == y);
    assert((m / 10 % 10) * 10 + m % 10 == m) by {
        vstd::arithmetic::div_mod::lemma_fundamental_div_mod(m, 10);
        assert(m / 10 % 10 == m / 10) by {
            assert(0 <= m / 10 <= 9);
        }
    }
    assert((dd / 10 % 10) * 10 + dd % 10 == dd) by {
        vstd::arithmetic::div_mod::lemma_fundamental_div_mod(dd, 10);
        assert(dd / 10 % 10 == dd / 10) by {
            assert(0 <= dd / 10 <= 9);
        }
    }
    assert(date_valid(year_at(b, i), digit_at(b, i + 5) * 10 + digit_at(b, i + 6), digit_at(
        b,
        i + 8,
    ) * 10 + digit_at(b, i + 9)));
}

impl Date {
    /// Appends the canonical `yyyy-mm-dd` rendering of the date to `out`.
    pub fn write_bytes(&self, out: &mut Vec<u8>)
        requires
            self.displayable(),
        ensures
            final(out)@ == old(out)@ + spec_format_date(*self),
    {
        let y = self.year;
        let m = self.month;
        let d = self.day;
        out.push((0x30 + (y / 1000 % 10)) as u8);
        out.push((0x30 + (y / 100 % 10)) as u8);
        out.push((0x30 + (y / 10 % 10)) as u8);
        out.push((0x30 + (y % 10)) as u8);
        out.push(0x2d);
        out.push(0x30 + m / 10 % 10);
        out.push(0x30 + m % 10);
        out.push(0x2d);
        out.push(0x30 + d / 10 % 10);
        out.push(0x30 + d % 10);
        proof {
            assert(final(out)@ =~= old(out)@ + spec_format_date(*self));
        }
    }
}

/// The canonical rendering of a date compound: the creation date alone, or
/// the completion date, one space, and the creation date.
pub open spec fn spec_format_datecompound(dc: DateCompound) -> Seq<u8> {
    match dc {
        DateCompound::Created { created } => spec_format_date(created),
        DateCompound::Completed { created, completed } => spec_format_date(completed)
            + seq![0x20u8] + spec_format_date(created),
    }
}

impl DateCompound {
    /// Every date of the compound can be rendered in the fixed-width
    /// format.
    pub open spec fn displayable(self) -> bool {
        match self {
            DateCompound::Completed { created, completed } => created.displayable()
                && completed.displayable(),
            DateCompound::Created { created } => created.displayable(),
        }
    }

    /// Appends the canonical rendering of the compound to `out`.
    pub fn write_bytes(&self, out: &mut Vec<u8>)
        requires
            self.displayable(),
        ensures
            final(out)@ == old(out)@ + spec_format_datecompound(*self),
    {
        match self {
            DateCompound::Created { created } => {
                created.write_bytes(out);
            },
            DateCompound::Completed { created, completed } => {
                completed.write_bytes(out);
                out.push(0x20);
                created.write_bytes(out);
                proof {
                    assert(final(out)@ =~= old(out)@ + spec_format_datecompound(*self));
                }
            },
        }
    }
}

} // verus!
