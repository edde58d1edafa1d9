//! Position fixes, and the decoder that turns a sentence into one.

use crate::gnss::error::GnssError;
use crate::gnss::nmea::{
    checksum_holds, field_or_empty, lemma_payload_change_breaks_checksum, position, NmeaError,
};
use crate::gnss::rmc::{
    parse_sentence, sentence_of, status_of, FixDate, FixTime, NmeaSentence, RmcStatus,
};
use crate::gnss::sentence::CHECKSUM_SEPARATOR;
use vstd::prelude::*;
use vstd::string::StringSliceAdditionalSpecFns;

verus! {

/// Date and time of a fix, in UTC.
#[derive(Debug, Clone, Copy, PartialEq, Eq)]
pub struct FixDateTime {
    pub date: FixDate,
    pub time: FixTime,
}

/// A position fix: where the receiver was, when, and how it moved.
#[derive(Debug, Clone, Copy, PartialEq, Eq)]
pub struct GnssPositioning {
    pub datetime: FixDateTime,
    /// Latitude in units of 1e-7 degree, north positive.
    pub latitude_e7: i32,
    /// Longitude in units of 1e-7 degree, east positive.
    pub longitude_e7: i32,
    /// Speed over ground in thousandths of a knot, where the receiver gave one.
    pub speed_milliknots: Option<u32>,
    /// Course over ground in thousandths of a degree, where the receiver gave one.
    pub heading_millidegrees: Option<u32>,
}

/// The fix that a decoded sentence holds. A void status gives `NoFix`
/// whatever else the sentence holds; an active one gives the fix, or names
/// the first field that a fix needs and the sentence lacks.
pub open spec fn fix_of(sentence: NmeaSentence) -> Result<GnssPositioning, GnssError> {
    match sentence {
        NmeaSentence::RMC(rmc) => match rmc.status {
            None => Err(GnssError::MissingField("status")),
            Some(RmcStatus::Void) => Err(GnssError::NoFix),
            Some(RmcStatus::Active) => match (
                rmc.latitude_e7,
                rmc.longitude_e7,
                rmc.fix_date,
                rmc.fix_time,
            ) {
                (None, _, _, _) => Err(GnssError::MissingField("latitude")),
                (Some(_), None, _, _) => Err(GnssError::MissingField("longitude")),
                (Some(_), Some(_), None, _) => Err(GnssError::MissingField("fix_date")),
                (Some(_), Some(_), Some(_), None) => Err(GnssError::MissingField("fix_time")),
                (Some(latitude_e7), Some(longitude_e7), Some(date), Some(time)) => Ok(
                    GnssPositioning {
                        datetime: FixDateTime { date, time },
                        latitude_e7,
                        longitude_e7,
                        speed_milliknots: rmc.speed_milliknots,
                        heading_millidegrees: rmc.course_millidegrees,
                    },
                ),
            },
        },
    }
}

/// The decoder's error for a sentence that could not be read. A sentence
/// without start marker or checksum separator has no checksum that could
/// hold, and counts as one whose checksum is invalid.
pub open spec fn unreadable(error: NmeaError) -> GnssError {
    match error {
        NmeaError::InvalidChecksum => GnssError::ChecksumInvalid,
        NmeaError::InvalidFormat => GnssError::ChecksumInvalid,
        NmeaError::UnsupportedSentence => GnssError::UnsupportedSentence,
        NmeaError::InvalidField => GnssError::MalformedField,
    }
}

/// What a sentence decodes to: the fix it holds, or why it holds none.
pub open spec fn decoded(sentence: Seq<u8>) -> Result<GnssPositioning, GnssError> {
    match sentence_of(sentence) {
        Ok(read) => fix_of(read),
        Err(e) => Err(unreadable(e)),
    }
}

impl GnssPositioning {
    /// Takes the fix out of a decoded sentence.
    pub fn try_from(sentence: NmeaSentence) -> (fix: Result<GnssPositioning, GnssError>)
        ensures
            fix == fix_of(sentence),
    {
        let NmeaSentence::RMC(rmc) = sentence;
        match rmc.status {
            None => { return Err(GnssError::MissingField("status")); },
            Some(RmcStatus::Void) => { return Err(GnssError::NoFix); },
            Some(RmcStatus::Active) => {},
        }
        let latitude_e7 = match rmc.latitude_e7 {
            Some(latitude_e7) => latitude_e7,
            None => { return Err(GnssError::MissingField("latitude")); },
        };
        let longitude_e7 = match rmc.longitude_e7 {
            Some(longitude_e7) => longitude_e7,
            None => { return Err(GnssError::MissingField("longitude")); },
        };
        let date = match rmc.fix_date {
            Some(date) => date,
            None => { return Err(GnssError::MissingField("fix_date")); },
        };
        let time = match rmc.fix_time {
            Some(time) => time,
            None => { return Err(GnssError::MissingField("fix_time")); },
        };
        Ok(
            GnssPositioning {
                datetime: FixDateTime { date, time },
                latitude_e7,
                longitude_e7,
                speed_milliknots: rmc.speed_milliknots,
                heading_millidegrees: rmc.course_millidegrees,
            },
        )
    }
}

/// Gives the decoder's error for a sentence that could not be read.
pub fn unreadable_as(error: NmeaError) -> (mapped: GnssError)
    ensures
        mapped == unreadable(error),
{
    match error {
        NmeaError::InvalidChecksum => GnssError::ChecksumInvalid,
        NmeaError::InvalidFormat => GnssError::ChecksumInvalid,
        NmeaError::UnsupportedSentence => GnssError::UnsupportedSentence,
        NmeaError::InvalidField => GnssError::MalformedField,
    }
}

/// Decodes one framed sentence into a position fix, or tells why it holds
/// none. The sentence may still carry its line terminator. The answer is
/// `ChecksumInvalid` exactly where the checksum does not hold, and then no
/// field is read.
pub fn decode(sentence: &str) -> (fix: Result<GnssPositioning, GnssError>)
    ensures
        fix == decoded(sentence.spec_bytes()),
        fix == Err::<GnssPositioning, GnssError>(GnssError::ChecksumInvalid) <==> !checksum_holds(
            sentence.spec_bytes(),
        ),
{
    match parse_sentence(sentence) {
        Ok(read) => GnssPositioning::try_from(read),
        Err(e) => Err(unreadable_as(e)),
    }
}

/// A corrupted payload never decodes. Changing any one payload byte of a
/// sentence whose checksum holds, the checksum left as it was, makes the
/// decoder answer `ChecksumInvalid`.
pub proof fn lemma_corrupted_payload_is_rejected(sentence: Seq<u8>, at: int, byte: u8)
    requires
        checksum_holds(sentence),
        1 <= at < position(sentence, CHECKSUM_SEPARATOR),
        byte != sentence[at],
    ensures
        decoded(sentence.update(at, byte)) == Err::<GnssPositioning, GnssError>(
            GnssError::ChecksumInvalid,
        ),
{
    lemma_payload_change_breaks_checksum(sentence, at, byte);
}

/// No signal yet is told apart from bad data. A sentence that reads without
/// error and whose status field is `V` decodes to `NoFix`, never to a missing
/// field, whichever of its other fields are absent.
pub proof fn lemma_void_status_is_no_fix(sentence: Seq<u8>)
    requires
        sentence_of(sentence) is Ok,
        field_or_empty(sentence, 2) == seq![0x56u8],
    ensures
        decoded(sentence) == Err::<GnssPositioning, GnssError>(GnssError::NoFix),
{
    let status_text = field_or_empty(sentence, 2);
    assert(status_text.len() == 1 && status_text[0] == 0x56);
    assert(status_of(status_text) == Some(RmcStatus::Void));
}

} // verus!
