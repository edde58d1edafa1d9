//! The minimum position-fix sentence: what it carries and how its fields read.
//!
//! Fields by index: 1 time (`hhmmss` with optional fraction), 2 status (`A`
//! active, `V` void), 3 latitude (`ddmm.mmmm`), 4 `N` or `S`, 5 longitude
//! (`dddmm.mmmm`), 6 `E` or `W`, 7 speed over ground in knots, 8 course over
//! ground in degrees, 9 date (`ddmmyy`). An empty field, or one beyond the
//! last, is absent; a field that is neither absent nor in its form is an error.

use crate::gnss::nmea::{
    check_frame, field_or_empty, field_text, find_byte, frame_error, NmeaError,
    DECIMAL_POINT,
};
use crate::gnss::number::{
    all_digits, decimal, digits_value, lemma_decimal_bound, lemma_digits_value_bound,
    lemma_pow10_grows, lemma_pow10_values, parse_digits, parse_field, whole_part,
};
use vstd::prelude::*;
use vstd::slice::slice_subrange;
use vstd::string::StringSliceAdditionalSpecFns;

verus! {

/// How many units of latitude or longitude make one degree.
pub const UNITS_PER_DEGREE: u64 = 10_000_000;

/// How many nanoseconds make one second.
pub const NANOS_PER_SECOND: u64 = 1_000_000_000;

/// Time of day of a fix, in UTC.
#[derive(Debug, Clone, Copy, PartialEq, Eq)]
pub struct FixTime {
    pub hour: u8,
    pub minute: u8,
    pub second: u8,
    pub nanosecond: u32,
}

/// Calendar date of a fix, in UTC.
#[derive(Debug, Clone, Copy, PartialEq, Eq)]
pub struct FixDate {
    pub year: u16,
    pub month: u8,
    pub day: u8,
}

/// The receiver's own verdict on its fix.
#[derive(Debug, Clone, Copy, PartialEq, Eq)]
pub enum RmcStatus {
    /// `A`: the fix is valid.
    Active,
    /// `V`: the receiver has no valid fix.
    Void,
}

/// What a minimum position-fix sentence carries. Every field may be absent.
#[derive(Debug, Clone, Copy, PartialEq, Eq)]
pub struct RmcSentence {
    pub fix_time: Option<FixTime>,
    pub status: Option<RmcStatus>,
    /// Latitude in units of 1e-7 degree, north positive.
    pub latitude_e7: Option<i32>,
    /// Longitude in units of 1e-7 degree, east positive.
    pub longitude_e7: Option<i32>,
    /// Speed over ground in thousandths of a knot.
    pub speed_milliknots: Option<u32>,
    /// Course over ground in thousandths of a degree.
    pub course_millidegrees: Option<u32>,
    pub fix_date: Option<FixDate>,
}

/// A decoded sentence, by type.
#[derive(Debug, Clone, Copy, PartialEq, Eq)]
pub enum NmeaSentence {
    /// Recommended minimum navigation information.
    RMC(RmcSentence),
}

/// The magnitude of an angle written as degrees and minutes, in units of 1e-7
/// degree, the minutes' share rounded towards zero. `text` is `degree_digits`
/// digits of degrees, then minutes as a decimal with a two-digit whole part.
/// Minutes of sixty or more, and angles beyond `max_degrees`, have no value.
pub open spec fn angle_magnitude(text: Seq<u8>, degree_digits: nat, max_degrees: nat) -> Option<
    nat,
> {
    let degrees_text = text.take(degree_digits as int);
    let minutes_text = text.skip(degree_digits as int);
    if text.len() >= degree_digits + 2 && all_digits(degrees_text) && whole_part(
        minutes_text,
    ).len() == 2 {
        match decimal(minutes_text, 7) {
            Some(minutes) => {
                let value = digits_value(degrees_text) * UNITS_PER_DEGREE + minutes / 60;
                if minutes < 60 * UNITS_PER_DEGREE && value <= max_degrees * UNITS_PER_DEGREE {
                    Some(value as nat)
                } else {
                    None
                }
            },
            None => None,
        }
    } else {
        None
    }
}

/// An angle with its sign: `positive` and `negative` are the two letters that
/// the hemisphere field may hold.
pub open spec fn signed_angle(
    text: Seq<u8>,
    hemisphere: Seq<u8>,
    degree_digits: nat,
    max_degrees: nat,
    positive: u8,
    negative: u8,
) -> Result<i32, NmeaError> {
    match angle_magnitude(text, degree_digits, max_degrees) {
        Some(magnitude) => {
            if hemisphere.len() == 1 && hemisphere[0] == positive {
                Ok(magnitude as i32)
            } else if hemisphere.len() == 1 && hemisphere[0] == negative {
                Ok((-magnitude) as i32)
            } else {
                Err(NmeaError::InvalidField)
            }
        },
        None => Err(NmeaError::InvalidField),
    }
}

/// The latitude that a field `ddmm.mmmm` and its hemisphere `N` or `S` give.
pub open spec fn latitude(text: Seq<u8>, hemisphere: Seq<u8>) -> Result<i32, NmeaError> {
    signed_angle(text, hemisphere, 2, 90, 0x4E, 0x53)
}

/// The longitude that a field `dddmm.mmmm` and its hemisphere `E` or `W` give.
pub open spec fn longitude(text: Seq<u8>, hemisphere: Seq<u8>) -> Result<i32, NmeaError> {
    signed_angle(text, hemisphere, 3, 180, 0x45, 0x57)
}

/// Reads the magnitude of an angle written as degrees and minutes.
fn parse_angle(text: &[u8], degree_digits: usize, max_degrees: u64) -> (magnitude: Option<u64>)
    requires
        1 <= degree_digits <= 3,
        max_degrees <= 180,
    ensures
        magnitude is Some <==> angle_magnitude(text@, degree_digits as nat, max_degrees as nat)
            is Some,
        magnitude matches Some(m) ==> angle_magnitude(
            text@,
            degree_digits as nat,
            max_degrees as nat,
        ) == Some(m as nat) && m <= max_degrees * UNITS_PER_DEGREE,
{
    if text.len() < degree_digits + 2 {
        return None;
    }
    let degrees_text = slice_subrange(text, 0, degree_digits);
    let minutes_text = slice_subrange(text, degree_digits, text.len());
    assert(degrees_text@ =~= text@.take(degree_digits as int));
    assert(minutes_text@ =~= text@.skip(degree_digits as int));
    let degrees = match parse_digits(degrees_text) {
        Some(degrees) => degrees,
        None => { return None; },
    };
    if find_byte(minutes_text, DECIMAL_POINT) != 2 {
        return None;
    }
    let minutes = match parse_field(minutes_text, 7) {
        Ok(minutes) => minutes,
        Err(_) => { return None; },
    };
    proof {
        lemma_pow10_values();
        lemma_digits_value_bound(degrees_text@);
        lemma_pow10_grows(degrees_text@.len(), 3);
        lemma_decimal_bound(minutes_text@, 7);
    }
    if minutes >= 60 * UNITS_PER_DEGREE {
        return None;
    }
    let value = degrees * UNITS_PER_DEGREE + minutes / 60;
    if value > max_degrees * UNITS_PER_DEGREE {
        return None;
    }
    Some(value)
}

/// Gives an angle the sign of its hemisphere.
fn apply_hemisphere(magnitude: u64, hemisphere: &[u8], positive: u8, negative: u8) -> (angle:
    Result<i32, NmeaError>)
    requires
        magnitude <= 180 * UNITS_PER_DEGREE,
    ensures
        angle == if hemisphere@.len() == 1 && hemisphere@[0] == positive {
            Ok::<i32, NmeaError>(magnitude as i32)
        } else if hemisphere@.len() == 1 && hemisphere@[0] == negative {
            Ok((-magnitude) as i32)
        } else {
            Err(NmeaError::InvalidField)
        },
{
    if hemisphere.len() != 1 {
        return Err(NmeaError::InvalidField);
    }
    let unsigned: i32 = magnitude as i32;
    if hemisphere[0] == positive {
        Ok(unsigned)
    } else if hemisphere[0] == negative {
        Ok(-unsigned)
    } else {
        Err(NmeaError::InvalidField)
    }
}

/// Reads a latitude `ddmm.mmmm` with its hemisphere `N` or `S` into units of
/// 1e-7 degree, north positive.
pub fn parse_latitude(lat: &[u8], direction: &[u8]) -> (angle: Result<i32, NmeaError>)
    ensures
        angle == latitude(lat@, direction@),
{
    match parse_angle(lat, 2, 90) {
        Some(magnitude) => apply_hemisphere(magnitude, direction, 0x4E, 0x53),
        None => Err(NmeaError::InvalidField),
    }
}

/// Reads a longitude `dddmm.mmmm` with its hemisphere `E` or `W` into units of
/// 1e-7 degree, east positive.
pub fn parse_longitude(lon: &[u8], direction: &[u8]) -> (angle: Result<i32, NmeaError>)
    ensures
        angle == longitude(lon@, direction@),
{
    match parse_angle(lon, 3, 180) {
        Some(magnitude) => apply_hemisphere(magnitude, direction, 0x45, 0x57),
        None => Err(NmeaError::InvalidField),
    }
}

/// The time of day that a field `hhmmss`, with an optional fraction of the
/// second, gives. Hours of 24 or more, and minutes or seconds of 60 or more,
/// give none; digits beyond the nanosecond are cut off.
pub open spec fn time_of(text: Seq<u8>) -> Option<FixTime> {
    let hour_text = text.subrange(0, 2);
    let minute_text = text.subrange(2, 4);
    let second_text = text.skip(4);
    if text.len() >= 6 && all_digits(hour_text) && all_digits(minute_text) && whole_part(
        second_text,
    ).len() == 2 {
        match decimal(second_text, 9) {
            Some(nanos) => {
                if digits_value(hour_text) < 24 && digits_value(minute_text) < 60 && nanos < 60
                    * NANOS_PER_SECOND {
                    Some(
                        FixTime {
                            hour: digits_value(hour_text) as u8,
                            minute: digits_value(minute_text) as u8,
                            second: (nanos / NANOS_PER_SECOND as nat) as u8,
                            nanosecond: (nanos % NANOS_PER_SECOND as nat) as u32,
                        },
                    )
                } else {
                    None
                }
            },
            None => None,
        }
    } else {
        None
    }
}

/// Whether `year` is a leap year of the Gregorian calendar.
pub open spec fn is_leap_year(year: int) -> bool {
    year % 4 == 0 && (year % 100 != 0 || year % 400 == 0)
}

/// The number of days of a month.
pub open spec fn days_in_month(year: int, month: int) -> int {
    if month == 2 {
        if is_leap_year(year) {
            29
        } else {
            28
        }
    } else if month == 4 || month == 6 || month == 9 || month == 11 {
        30
    } else {
        31
    }
}

/// The year that a two-digit year stands for: 83 to 99 lie in the twentieth
/// century, 00 to 82 in the twenty-first.
pub open spec fn full_year(two_digits: int) -> int {
    if two_digits >= 83 {
        1900 + two_digits
    } else {
        2000 + two_digits
    }
}

/// The date that a field `ddmmyy` gives; none where it is no date of the
/// calendar.
pub open spec fn date_of(text: Seq<u8>) -> Option<FixDate> {
    let day = digits_value(text.subrange(0, 2)) as int;
    let month = digits_value(text.subrange(2, 4)) as int;
    let year = full_year(digits_value(text.subrange(4, 6)) as int);
    if text.len() == 6 && all_digits(text.subrange(0, 2)) && all_digits(text.subrange(2, 4))
        && all_digits(text.subrange(4, 6)) && 1 <= month <= 12 && 1 <= day <= days_in_month(
        year,
        month,
    ) {
        Some(FixDate { year: year as u16, month: month as u8, day: day as u8 })
    } else {
        None
    }
}

/// The status that a field gives: `A` or `V`.
pub open spec fn status_of(text: Seq<u8>) -> Option<RmcStatus> {
    if text.len() == 1 && text[0] == 0x41 {
        Some(RmcStatus::Active)
    } else if text.len() == 1 && text[0] == 0x56 {
        Some(RmcStatus::Void)
    } else {
        None
    }
}

/// A speed or a course in thousandths of its unit, rounded towards zero; none
/// where the field is no decimal or the value does not fit 32 bits.
pub open spec fn measure_of(text: Seq<u8>) -> Option<u32> {
    match decimal(text, 3) {
        Some(value) => if value <= u32::MAX {
            Some(value as u32)
        } else {
            None
        },
        None => None,
    }
}

/// A field that may be absent: an empty `text` is absent, any other must
/// have given a value.
pub open spec fn optional<T>(text: Seq<u8>, read: Option<T>) -> Result<Option<T>, NmeaError> {
    if text.len() == 0 {
        Ok(None)
    } else {
        match read {
            Some(value) => Ok(Some(value)),
            None => Err(NmeaError::InvalidField),
        }
    }
}

/// A latitude or longitude that may be absent: absent where both the angle
/// and its hemisphere are empty.
pub open spec fn optional_angle(text: Seq<u8>, hemisphere: Seq<u8>, read: Result<i32, NmeaError>)
    -> Result<Option<i32>, NmeaError> {
    if text.len() == 0 && hemisphere.len() == 0 {
        Ok(None)
    } else {
        match read {
            Ok(angle) => Ok(Some(angle)),
            Err(e) => Err(e),
        }
    }
}

/// Reads a time of day `hhmmss` with an optional fraction.
pub fn parse_time(text: &[u8]) -> (time: Option<FixTime>)
    ensures
        time == time_of(text@),
{
    if text.len() < 6 {
        return None;
    }
    let hour_text = slice_subrange(text, 0, 2);
    let minute_text = slice_subrange(text, 2, 4);
    let second_text = slice_subrange(text, 4, text.len());
    assert(second_text@ =~= text@.skip(4));
    let hour = match parse_digits(hour_text) {
        Some(hour) => hour,
        None => { return None; },
    };
    let minute = match parse_digits(minute_text) {
        Some(minute) => minute,
        None => { return None; },
    };
    if find_byte(second_text, DECIMAL_POINT) != 2 {
        return None;
    }
    let nanos = match parse_field(second_text, 9) {
        Ok(nanos) => nanos,
        Err(_) => { return None; },
    };
    if hour >= 24 || minute >= 60 || nanos >= 60 * NANOS_PER_SECOND {
        return None;
    }
    Some(
        FixTime {
            hour: hour as u8,
            minute: minute as u8,
            second: (nanos / NANOS_PER_SECOND) as u8,
            nanosecond: (nanos % NANOS_PER_SECOND) as u32,
        },
    )
}

/// Tells the number of days of a month of the years 1983 to 2082.
fn month_length(year: u64, month: u64) -> (days: u64)
    requires
        1983 <= year <= 2082,
    ensures
        days == days_in_month(year as int, month as int),
{
    if month == 2 {
        if year % 4 == 0 {
            29
        } else {
            28
        }
    } else if month == 4 || month == 6 || month == 9 || month == 11 {
        30
    } else {
        31
    }
}

/// Reads a date `ddmmyy`.
pub fn parse_date(text: &[u8]) -> (date: Option<FixDate>)
    ensures
        date == date_of(text@),
{
    if text.len() != 6 {
        return None;
    }
    let day = match parse_digits(slice_subrange(text, 0, 2)) {
        Some(day) => day,
        None => { return None; },
    };
    let month = match parse_digits(slice_subrange(text, 2, 4)) {
        Some(month) => month,
        None => { return None; },
    };
    let two_digits = match parse_digits(slice_subrange(text, 4, 6)) {
        Some(two_digits) => two_digits,
        None => { return None; },
    };
    proof {
        lemma_pow10_values();
        lemma_digits_value_bound(text@.subrange(0, 2));
        lemma_digits_value_bound(text@.subrange(2, 4));
        lemma_digits_value_bound(text@.subrange(4, 6));
    }
    let year: u64 = if two_digits >= 83 {
        1900 + two_digits
    } else {
        2000 + two_digits
    };
    if month < 1 || month > 12 || day < 1 || day > month_length(year, month) {
        return None;
    }
    Some(FixDate { year: year as u16, month: month as u8, day: day as u8 })
}

/// Reads a status field.
pub fn parse_status(text: &[u8]) -> (status: Option<RmcStatus>)
    ensures
        status == status_of(text@),
{
    if text.len() == 1 && text[0] == 0x41 {
        Some(RmcStatus::Active)
    } else if text.len() == 1 && text[0] == 0x56 {
        Some(RmcStatus::Void)
    } else {
        None
    }
}

/// Reads a speed or a course into thousandths of its unit.
pub fn parse_measure(text: &[u8]) -> (measure: Option<u32>)
    ensures
        measure == measure_of(text@),
{
    match parse_field(text, 3) {
        Ok(value) => if value <= u32::MAX as u64 {
            Some(value as u32)
        } else {
            None
        },
        Err(_) => None,
    }
}

/// What the fields of `sentence` carry, read as a minimum position-fix
/// sentence: each field absent or read; `InvalidField` where any field is
/// neither.
pub open spec fn rmc_of(sentence: Seq<u8>) -> Result<RmcSentence, NmeaError> {
    let time_text = field_or_empty(sentence, 1);
    let status_text = field_or_empty(sentence, 2);
    let lat_text = field_or_empty(sentence, 3);
    let lat_side = field_or_empty(sentence, 4);
    let lon_text = field_or_empty(sentence, 5);
    let lon_side = field_or_empty(sentence, 6);
    let speed_text = field_or_empty(sentence, 7);
    let course_text = field_or_empty(sentence, 8);
    let date_text = field_or_empty(sentence, 9);
    match (
        optional(time_text, time_of(time_text)),
        optional(status_text, status_of(status_text)),
        optional_angle(lat_text, lat_side, latitude(lat_text, lat_side)),
        optional_angle(lon_text, lon_side, longitude(lon_text, lon_side)),
        optional(speed_text, measure_of(speed_text)),
        optional(course_text, measure_of(course_text)),
        optional(date_text, date_of(date_text)),
    ) {
        (
            Ok(fix_time),
            Ok(status),
            Ok(latitude_e7),
            Ok(longitude_e7),
            Ok(speed_milliknots),
            Ok(course_millidegrees),
            Ok(fix_date),
        ) => Ok(
            RmcSentence {
                fix_time,
                status,
                latitude_e7,
                longitude_e7,
                speed_milliknots,
                course_millidegrees,
                fix_date,
            },
        ),
        _ => Err(NmeaError::InvalidField),
    }
}

/// Whether `header`, the first field with its start marker, names a minimum
/// position-fix sentence: two letters of the talker, then `RMC`.
pub open spec fn is_rmc_header(header: Seq<u8>) -> bool {
    header.len() == 6 && header[3] == 0x52 && header[4] == 0x4D && header[5] == 0x43
}

/// What `sentence` decodes to. A sentence whose frame or checksum is wrong
/// gives the frame's error and is read no further; a well-framed sentence of
/// another type gives `UnsupportedSentence`; a minimum position-fix sentence
/// gives its fields or `InvalidField`.
pub open spec fn sentence_of(sentence: Seq<u8>) -> Result<NmeaSentence, NmeaError> {
    match frame_error(sentence) {
        Some(e) => Err(e),
        None => {
            if is_rmc_header(field_or_empty(sentence, 0)) {
                match rmc_of(sentence) {
                    Ok(rmc) => Ok(NmeaSentence::RMC(rmc)),
                    Err(e) => Err(e),
                }
            } else {
                Err(NmeaError::UnsupportedSentence)
            }
        },
    }
}

/// Takes what was read of a field that may be absent.
fn read_optional<T>(text: &[u8], read: Option<T>) -> (value: Result<Option<T>, NmeaError>)
    ensures
        value == optional(text@, read),
{
    if text.len() == 0 {
        Ok(None)
    } else {
        match read {
            Some(value) => Ok(Some(value)),
            None => Err(NmeaError::InvalidField),
        }
    }
}

/// Takes what was read of an angle that may be absent.
fn read_optional_angle(text: &[u8], hemisphere: &[u8], read: Result<i32, NmeaError>) -> (value:
    Result<Option<i32>, NmeaError>)
    ensures
        value == optional_angle(text@, hemisphere@, read),
{
    if text.len() == 0 && hemisphere.len() == 0 {
        Ok(None)
    } else {
        match read {
            Ok(angle) => Ok(Some(angle)),
            Err(e) => Err(e),
        }
    }
}

/// Reads the fields of a minimum position-fix sentence.
pub fn parse_rmc(sentence: &[u8]) -> (rmc: Result<RmcSentence, NmeaError>)
    ensures
        rmc == rmc_of(sentence@),
{
    let time_text = field_text(sentence, 1);
    let status_text = field_text(sentence, 2);
    let lat_text = field_text(sentence, 3);
    let lat_side = field_text(sentence, 4);
    let lon_text = field_text(sentence, 5);
    let lon_side = field_text(sentence, 6);
    let speed_text = field_text(sentence, 7);
    let course_text = field_text(sentence, 8);
    let date_text = field_text(sentence, 9);
    let fix_time = read_optional(time_text, parse_time(time_text));
    let status = read_optional(status_text, parse_status(status_text));
    let latitude_e7 = read_optional_angle(lat_text, lat_side, parse_latitude(lat_text, lat_side));
    let longitude_e7 = read_optional_angle(
        lon_text,
        lon_side,
        parse_longitude(lon_text, lon_side),
    );
    let speed_milliknots = read_optional(speed_text, parse_measure(speed_text));
    let course_millidegrees = read_optional(course_text, parse_measure(course_text));
    let fix_date = read_optional(date_text, parse_date(date_text));
    match (
        fix_time,
        status,
        latitude_e7,
        longitude_e7,
        speed_milliknots,
        course_millidegrees,
        fix_date,
    ) {
        (
            Ok(fix_time),
            Ok(status),
            Ok(latitude_e7),
            Ok(longitude_e7),
            Ok(speed_milliknots),
            Ok(course_millidegrees),
            Ok(fix_date),
        ) => Ok(
            RmcSentence {
                fix_time,
                status,
                latitude_e7,
                longitude_e7,
                speed_milliknots,
                course_millidegrees,
                fix_date,
            },
        ),
        _ => Err(NmeaError::InvalidField),
    }
}

/// Tells whether the first field names a minimum position-fix sentence.
fn has_rmc_header(header: &[u8]) -> (yes: bool)
    ensures
        yes == is_rmc_header(header@),
{
    header.len() == 6 && header[3] == 0x52 && header[4] == 0x4D && header[5] == 0x43
}

/// Decodes one sentence, given as bytes.
pub fn parse_bytes(sentence: &[u8]) -> (decoded: Result<NmeaSentence, NmeaError>)
    ensures
        decoded == sentence_of(sentence@),
{
    match check_frame(sentence) {
        Some(e) => Err(e),
        None => {
            if has_rmc_header(field_text(sentence, 0)) {
                match parse_rmc(sentence) {
                    Ok(rmc) => Ok(NmeaSentence::RMC(rmc)),
                    Err(e) => Err(e),
                }
            } else {
                Err(NmeaError::UnsupportedSentence)
            }
        },
    }
}

/// Decodes one sentence: checks its frame and checksum, tells its type and
/// reads its fields.
pub fn parse_sentence(sentence: &str) -> (decoded: Result<NmeaSentence, NmeaError>)
    ensures
        decoded == sentence_of(sentence.spec_bytes()),
{
    parse_bytes(sentence.as_bytes())
}

} // verus!
