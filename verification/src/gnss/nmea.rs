//! The wire format of position sentences: frame, checksum and fields.
//!
//! A sentence is ASCII text: a start marker, fields separated by commas, the
//! checksum separator and two hexadecimal digits. The checksum is the XOR of
//! all bytes strictly between the start marker and the separator.

use crate::gnss::sentence::{CHECKSUM_SEPARATOR, CR, LF, START_MARKER};
use vstd::prelude::*;
use vstd::slice::slice_subrange;
use vstd::string::StringSliceAdditionalSpecFns;

verus! {

/// `,`, the byte that separates fields.
pub const FIELD_SEPARATOR: u8 = 0x2C;

/// `.`, the decimal point.
pub const DECIMAL_POINT: u8 = 0x2E;

/// Why a sentence could not be read.
#[derive(Debug, Clone, Copy, PartialEq, Eq)]
pub enum NmeaError {
    /// The checksum is too short, is no hexadecimal number, does not match
    /// the payload, or is followed by something other than a line end.
    InvalidChecksum,
    /// The sentence lacks its start marker, its checksum separator or the
    /// field that was asked for.
    InvalidFormat,
    /// A field is neither empty nor in the form that its position calls for.
    InvalidField,
    /// The sentence is well framed but of a type that is not decoded.
    UnsupportedSentence,
}

/// The index of the first `byte` in `bytes`, or the length of `bytes` where
/// there is none.
pub open spec fn position(bytes: Seq<u8>, byte: u8) -> int
    decreases bytes.len(),
{
    if bytes.len() == 0 || bytes[0] == byte {
        0
    } else {
        1 + position(bytes.skip(1), byte)
    }
}

/// `position` is the one index that holds `byte` with no `byte` before it.
pub proof fn lemma_position(bytes: Seq<u8>, byte: u8)
    ensures
        0 <= position(bytes, byte) <= bytes.len(),
        position(bytes, byte) < bytes.len() ==> bytes[position(bytes, byte)] == byte,
        forall|j: int| 0 <= j < position(bytes, byte) ==> bytes[j] != byte,
    decreases bytes.len(),
{
    if bytes.len() == 0 || bytes[0] == byte {
    } else {
        let rest = bytes.skip(1);
        lemma_position(rest, byte);
        assert forall|j: int| 0 <= j < position(bytes, byte) implies bytes[j] != byte by {
            if j > 0 {
                assert(rest[j - 1] == bytes[j]);
            }
        }
    }
}

/// An index with no `byte` before it, which holds `byte` or is the end, is
/// `position`.
pub proof fn lemma_position_is(bytes: Seq<u8>, byte: u8, at: int)
    requires
        0 <= at <= bytes.len(),
        forall|j: int| 0 <= j < at ==> bytes[j] != byte,
        at < bytes.len() ==> bytes[at] == byte,
    ensures
        position(bytes, byte) == at,
{
    lemma_position(bytes, byte);
    let found = position(bytes, byte);
    if found < at {
        assert(bytes[found] != byte);
    } else if found > at {
        assert(bytes[at] != byte);
    }
}

/// The value of a hexadecimal digit, upper or lower case.
pub open spec fn hex_value(byte: u8) -> Option<u8> {
    if 0x30 <= byte <= 0x39 {
        Some((byte - 0x30) as u8)
    } else if 0x41 <= byte <= 0x46 {
        Some((byte - 0x41 + 10) as u8)
    } else if 0x61 <= byte <= 0x66 {
        Some((byte - 0x61 + 10) as u8)
    } else {
        None
    }
}

/// The value of one hexadecimal digit.
pub fn hex_to_u8(byte: u8) -> (value: Result<u8, NmeaError>)
    ensures
        value == match hex_value(byte) {
            Some(v) => Ok::<u8, NmeaError>(v),
            None => Err(NmeaError::InvalidChecksum),
        },
{
    if 0x30 <= byte && byte <= 0x39 {
        Ok(byte - 0x30)
    } else if 0x41 <= byte && byte <= 0x46 {
        Ok(byte - 0x41 + 10)
    } else if 0x61 <= byte && byte <= 0x66 {
        Ok(byte - 0x61 + 10)
    } else {
        Err(NmeaError::InvalidChecksum)
    }
}

/// The XOR of all of `bytes`.
pub open spec fn xor_checksum(bytes: Seq<u8>) -> u8
    decreases bytes.len(),
{
    if bytes.len() == 0 {
        0
    } else {
        xor_checksum(bytes.drop_last()) ^ bytes.last()
    }
}

/// What comes of checking the checksum of `sentence`: whether the XOR of the
/// bytes strictly between the start marker and the first separator equals the
/// number that the two hexadecimal digits after the separator spell, or the
/// reason why there is nothing to compare.
pub open spec fn checksum_verdict(sentence: Seq<u8>) -> Result<bool, NmeaError> {
    let separator = position(sentence, CHECKSUM_SEPARATOR);
    if sentence.len() == 0 || sentence[0] != START_MARKER {
        Err(NmeaError::InvalidFormat)
    } else if separator >= sentence.len() {
        Err(NmeaError::InvalidFormat)
    } else if separator + 3 > sentence.len() {
        Err(NmeaError::InvalidChecksum)
    } else {
        match (hex_value(sentence[separator + 1]), hex_value(sentence[separator + 2])) {
            (Some(high), Some(low)) => Ok(
                xor_checksum(sentence.subrange(1, separator)) == high * 16 + low,
            ),
            _ => Err(NmeaError::InvalidChecksum),
        }
    }
}

/// Finds the first `byte` in `bytes`; the length of `bytes` where there is none.
pub fn find_byte(bytes: &[u8], byte: u8) -> (at: usize)
    ensures
        at == position(bytes@, byte),
        at <= bytes.len(),
        at < bytes.len() ==> bytes@[at as int] == byte,
{
    let mut at: usize = 0;
    while at < bytes.len() && bytes[at] != byte
        invariant
            at <= bytes.len(),
            forall|j: int| 0 <= j < at ==> bytes@[j] != byte,
        decreases bytes.len() - at,
    {
        at += 1;
    }
    proof {
        lemma_position_is(bytes@, byte, at as int);
    }
    at
}

/// Checks the checksum of a sentence. `Ok` tells whether the checksum matches
/// the payload; `Err` tells that the sentence has no start marker or no
/// separator, or that no two hexadecimal digits follow the separator.
pub fn validate_checksum(sentence: &[u8]) -> (verdict: Result<bool, NmeaError>)
    ensures
        verdict == checksum_verdict(sentence@),
{
    if sentence.len() == 0 || sentence[0] != START_MARKER {
        return Err(NmeaError::InvalidFormat);
    }
    let separator = find_byte(sentence, CHECKSUM_SEPARATOR);
    if separator >= sentence.len() {
        return Err(NmeaError::InvalidFormat);
    }
    if sentence.len() - separator < 3 {
        return Err(NmeaError::InvalidChecksum);
    }
    proof {
        lemma_position(sentence@, CHECKSUM_SEPARATOR);
    }
    let mut checksum: u8 = 0;
    let mut i: usize = 1;
    assert(sentence@.subrange(1, 1) =~= Seq::empty());
    while i < separator
        invariant
            1 <= i <= separator < sentence.len(),
            checksum == xor_checksum(sentence@.subrange(1, i as int)),
        decreases separator - i,
    {
        assert(sentence@.subrange(1, i + 1).drop_last() =~= sentence@.subrange(1, i as int));
        checksum ^= sentence[i];
        i += 1;
    }
    let high = match hex_to_u8(sentence[separator + 1]) {
        Ok(high) => high,
        Err(e) => { return Err(e); },
    };
    let low = match hex_to_u8(sentence[separator + 2]) {
        Ok(low) => low,
        Err(e) => { return Err(e); },
    };
    let provided: u8 = high * 16 + low;
    Ok(checksum == provided)
}

/// Whether `bytes` is what may follow the checksum: nothing, or a line
/// terminator (CR, LF or CRLF).
pub open spec fn is_line_end(bytes: Seq<u8>) -> bool {
    ||| bytes.len() == 0
    ||| bytes.len() == 1 && (bytes[0] == CR || bytes[0] == LF)
    ||| bytes.len() == 2 && bytes[0] == CR && bytes[1] == LF
}

/// Whether `sentence` is well framed and its checksum matches: it starts with
/// the start marker, the checksum after the first separator equals the XOR of
/// the bytes in between, and nothing but a line end follows the checksum.
pub open spec fn checksum_holds(sentence: Seq<u8>) -> bool {
    &&& checksum_verdict(sentence) == Ok::<bool, NmeaError>(true)
    &&& is_line_end(sentence.skip(position(sentence, CHECKSUM_SEPARATOR) + 3))
}

/// What is wrong with the frame of `sentence`, if anything: `InvalidFormat`
/// where the start marker or the separator is missing, `InvalidChecksum` for
/// every other sentence whose checksum does not hold.
pub open spec fn frame_error(sentence: Seq<u8>) -> Option<NmeaError> {
    if checksum_holds(sentence) {
        None
    } else if checksum_verdict(sentence) == Err::<bool, NmeaError>(NmeaError::InvalidFormat) {
        Some(NmeaError::InvalidFormat)
    } else {
        Some(NmeaError::InvalidChecksum)
    }
}

/// Tells whether `tail` is empty or a line terminator.
fn at_line_end(tail: &[u8]) -> (yes: bool)
    ensures
        yes == is_line_end(tail@),
{
    let n = tail.len();
    n == 0 || (n == 1 && (tail[0] == CR || tail[0] == LF)) || (n == 2 && tail[0] == CR && tail[1]
        == LF)
}

/// Checks the frame of a sentence, and returns what is wrong with it.
pub fn check_frame(sentence: &[u8]) -> (error: Option<NmeaError>)
    ensures
        error == frame_error(sentence@),
{
    match validate_checksum(sentence) {
        Ok(true) => {
            let separator = find_byte(sentence, CHECKSUM_SEPARATOR);
            assert(separator + 3 <= sentence.len());
            let tail = slice_subrange(sentence, separator + 3, sentence.len());
            assert(tail@ =~= sentence@.skip(separator + 3));
            if at_line_end(tail) {
                None
            } else {
                Some(NmeaError::InvalidChecksum)
            }
        },
        Ok(false) => Some(NmeaError::InvalidChecksum),
        Err(NmeaError::InvalidFormat) => Some(NmeaError::InvalidFormat),
        Err(_) => Some(NmeaError::InvalidChecksum),
    }
}

/// Tells whether a sentence is well framed and its checksum matches.
pub fn verify_checksum(sentence: &str) -> (holds: bool)
    ensures
        holds == checksum_holds(sentence.spec_bytes()),
{
    check_frame(sentence.as_bytes()).is_none()
}

/// The field of `text` with the given index, fields being separated by
/// commas and counted from zero; `None` where `text` has fewer fields.
pub open spec fn nth_field(text: Seq<u8>, index: nat) -> Option<Seq<u8>>
    decreases index,
{
    let end = position(text, FIELD_SEPARATOR);
    if index == 0 {
        Some(text.take(end))
    } else if end >= text.len() {
        None
    } else {
        nth_field(text.skip(end + 1), (index - 1) as nat)
    }
}

/// The field of `sentence` with the given index. Fields end at the checksum
/// separator, and the first one, index zero, starts with the start marker.
pub open spec fn field(sentence: Seq<u8>, index: nat) -> Option<Seq<u8>> {
    nth_field(sentence.take(position(sentence, CHECKSUM_SEPARATOR)), index)
}

/// The field of `sentence` with the given index, an absent one taken as empty.
pub open spec fn field_or_empty(sentence: Seq<u8>, index: nat) -> Seq<u8> {
    match field(sentence, index) {
        Some(text) => text,
        None => Seq::empty(),
    }
}

/// Returns the field of a sentence with the given index, or `InvalidFormat`
/// where the sentence has fewer fields.
pub fn get_field(sentence: &[u8], index: usize) -> (found: Result<&[u8], NmeaError>)
    ensures
        match found {
            Ok(text) => field(sentence@, index as nat) == Some(text@),
            Err(e) => e == NmeaError::InvalidFormat && field(sentence@, index as nat) is None,
        },
{
    let fields_end = find_byte(sentence, CHECKSUM_SEPARATOR);
    let text = slice_subrange(sentence, 0, fields_end);
    assert(text@ =~= sentence@.take(fields_end as int));
    let mut start: usize = 0;
    let mut remaining: usize = index;
    assert(text@.skip(0) =~= text@);
    loop
        invariant
            start <= text.len(),
            text@ == sentence@.take(position(sentence@, CHECKSUM_SEPARATOR)),
            nth_field(text@, index as nat) == nth_field(text@.skip(start as int), remaining as nat),
        decreases remaining,
    {
        let rest = slice_subrange(text, start, text.len());
        assert(rest@ =~= text@.skip(start as int));
        let end = find_byte(rest, FIELD_SEPARATOR);
        if remaining == 0 {
            let found = slice_subrange(rest, 0, end);
            assert(found@ =~= rest@.take(end as int));
            return Ok(found);
        }
        if end >= rest.len() {
            return Err(NmeaError::InvalidFormat);
        }
        assert(rest@.skip(end + 1) =~= text@.skip(start + end + 1));
        start = start + end + 1;
        remaining -= 1;
    }
}

/// Like `get_field`, with an absent field returned as an empty one.
pub fn field_text(sentence: &[u8], index: usize) -> (text: &[u8])
    ensures
        text@ == field_or_empty(sentence@, index as nat),
{
    match get_field(sentence, index) {
        Ok(text) => text,
        Err(_) => {
            let nothing = slice_subrange(sentence, 0, 0);
            assert(nothing@ =~= Seq::empty());
            nothing
        },
    }
}

/// Replacing one byte changes the XOR of a run by the XOR of the old byte
/// and the new.
pub proof fn lemma_xor_checksum_update(bytes: Seq<u8>, at: int, byte: u8)
    requires
        0 <= at < bytes.len(),
    ensures
        xor_checksum(bytes.update(at, byte)) == xor_checksum(bytes) ^ bytes[at] ^ byte,
    decreases bytes.len(),
{
    let changed = bytes.update(at, byte);
    let front = xor_checksum(bytes.drop_last());
    let old_byte = bytes[at];
    if at == bytes.len() - 1 {
        assert(changed.drop_last() =~= bytes.drop_last());
        assert(front ^ byte == (front ^ old_byte) ^ old_byte ^ byte) by (bit_vector);
    } else {
        let last = bytes.last();
        assert(changed.drop_last() =~= bytes.drop_last().update(at, byte));
        lemma_xor_checksum_update(bytes.drop_last(), at, byte);
        assert((front ^ old_byte ^ byte) ^ last == (front ^ last) ^ old_byte ^ byte)
            by (bit_vector);
    }
}

/// The checksum catches every change of a single byte. In a sentence whose
/// checksum holds, changing any one byte of the payload, the checksum left
/// as it was, gives a sentence whose checksum does not hold.
pub proof fn lemma_payload_change_breaks_checksum(sentence: Seq<u8>, at: int, byte: u8)
    requires
        checksum_holds(sentence),
        1 <= at < position(sentence, CHECKSUM_SEPARATOR),
        byte != sentence[at],
    ensures
        frame_error(sentence.update(at, byte)) == Some(NmeaError::InvalidChecksum),
{
    let changed = sentence.update(at, byte);
    let separator = position(sentence, CHECKSUM_SEPARATOR);
    lemma_position(sentence, CHECKSUM_SEPARATOR);
    if byte == CHECKSUM_SEPARATOR {
        lemma_position_is(changed, CHECKSUM_SEPARATOR, at);
        if at + 3 <= changed.len() && hex_value(changed[at + 1]) is Some && hex_value(
            changed[at + 2],
        ) is Some {
            let tail = changed.skip(at + 3);
            assert(separator >= at + 3);
            assert(tail[separator - at - 3] == CHECKSUM_SEPARATOR);
            assert(!is_line_end(tail));
        }
    } else {
        lemma_position_is(changed, CHECKSUM_SEPARATOR, separator);
        let payload = sentence.subrange(1, separator);
        assert(changed.subrange(1, separator) =~= payload.update(at - 1, byte));
        lemma_xor_checksum_update(payload, at - 1, byte);
        let sum = xor_checksum(payload);
        let old_byte = sentence[at];
        assert(payload[at - 1] == old_byte);
        assert(sum ^ old_byte ^ byte != sum) by (bit_vector)
            requires
                byte != old_byte,
        ;
    }
}

} // verus!
