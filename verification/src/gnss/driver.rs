//! The decisions of the positioning task.
//!
//! The task owns the serial receiver. It hands every byte it reads to the
//! framer, decodes every sentence that the framer completes, and publishes
//! the outcome: the fix, or that there is none. A sentence that cannot be
//! decoded is passed over, so that the last published fix stays visible. When
//! the receiver fails, what it has buffered is thrown away unread and the
//! framer starts afresh, so that bytes from before the fault are never
//! stitched to bytes from after it.

use crate::gnss::error::GnssError;
use crate::gnss::nmea::{checksum_verdict, is_line_end, lemma_position_is, position, NmeaError};
use crate::gnss::positioning::{decode, decoded, GnssPositioning};
use crate::gnss::sentence::{
    is_framed_sentence, is_payload_delimiter, Framing, SentenceBuffer, CHECKSUM_SEPARATOR,
    START_MARKER,
};
use vstd::prelude::*;
use vstd::string::StringSliceAdditionalSpecFns;

verus! {

/// The baud rate of the positioning receiver.
pub const GNSS_BAUD_RATE: u32 = 9600;

/// The pause after a first fault, in milliseconds.
pub const BACKOFF_BASE_MS: u64 = 100;

/// The longest pause after a fault, in milliseconds.
pub const BACKOFF_CEILING_MS: u64 = 1000;

/// What the task publishes for a completed sentence: `Some(Some(fix))` for a
/// fix, `Some(None)` where the receiver says that it has none, and `None`,
/// nothing, for any sentence that does not decode.
pub open spec fn publication(sentence: Seq<u8>) -> Option<Option<GnssPositioning>> {
    match decoded(sentence) {
        Ok(fix) => Some(Some(fix)),
        Err(GnssError::NoFix) => Some(None),
        Err(_) => None,
    }
}

/// What the task publishes for a run of completed sentences, in order.
pub open spec fn publications(sentences: Seq<Seq<u8>>) -> Seq<Option<GnssPositioning>>
    decreases sentences.len(),
{
    if sentences.len() == 0 {
        Seq::empty()
    } else {
        let earlier = publications(sentences.drop_last());
        match publication(sentences.last()) {
            Some(report) => earlier.push(report),
            None => earlier,
        }
    }
}

/// The pause after the given number of faults in a row, in milliseconds. It
/// starts at the base and doubles with every further fault, up to the
/// ceiling.
pub open spec fn backoff_ms(consecutive_errors: nat) -> nat
    decreases consecutive_errors,
{
    if consecutive_errors == 0 {
        0
    } else if consecutive_errors == 1 {
        BACKOFF_BASE_MS as nat
    } else {
        let doubled = 2 * backoff_ms((consecutive_errors - 1) as nat);
        if doubled <= BACKOFF_CEILING_MS {
            doubled
        } else {
            BACKOFF_CEILING_MS as nat
        }
    }
}

/// Once the pause has reached the ceiling it stays there.
pub proof fn lemma_backoff_stays_at_ceiling(reached: nat, later: nat)
    requires
        1 <= reached <= later,
        backoff_ms(reached) == BACKOFF_CEILING_MS,
    ensures
        backoff_ms(later) == BACKOFF_CEILING_MS,
    decreases later,
{
    if later > reached {
        lemma_backoff_stays_at_ceiling(reached, (later - 1) as nat);
    }
}

/// The pause never exceeds the ceiling, and never shrinks as faults go on.
pub proof fn lemma_backoff_is_bounded(consecutive_errors: nat)
    ensures
        backoff_ms(consecutive_errors) <= BACKOFF_CEILING_MS,
        consecutive_errors >= 1 ==> BACKOFF_BASE_MS <= backoff_ms(consecutive_errors),
        backoff_ms(consecutive_errors) <= backoff_ms(consecutive_errors + 1),
    decreases consecutive_errors,
{
    if consecutive_errors >= 1 {
        lemma_backoff_is_bounded((consecutive_errors - 1) as nat);
    }
    assert(backoff_ms(1) == BACKOFF_BASE_MS);
}

/// One step of the recovery from a receiver fault.
#[derive(Debug, Clone, Copy, PartialEq, Eq)]
pub enum RecoveryStep {
    /// Read the receiver empty and throw away what was read.
    Drain,
    /// Publish that there is no fix.
    PublishNoFix,
    /// Pause this long before reading again.
    Wait { delay_ms: u64 },
}

/// The positioning task's state: the framer, and how many faults the
/// receiver has reported in a row.
pub struct Gnss {
    nmea_buffer: SentenceBuffer,
    consecutive_errors: u32,
}

impl Gnss {
    /// Well-formedness: the framer is well formed.
    pub closed spec fn wf(&self) -> bool {
        self.nmea_buffer.wf()
    }

    /// What the framer holds.
    pub closed spec fn framing(&self) -> Framing {
        self.nmea_buffer@
    }

    /// How many faults the receiver has reported in a row.
    pub closed spec fn consecutive_errors(&self) -> u32 {
        self.consecutive_errors
    }

    /// A task that has read nothing yet.
    pub fn new() -> (gnss: Gnss)
        ensures
            gnss.wf(),
            gnss.framing() == Framing::idle(),
            gnss.consecutive_errors() == 0,
    {
        Gnss { nmea_buffer: SentenceBuffer::new(), consecutive_errors: 0 }
    }

    /// Takes the bytes of one successful read and returns what is to be
    /// published, in order: one report for every sentence that was completed
    /// and decodes to a fix or to the receiver's word that it has none. A
    /// successful read ends any run of faults.
    pub fn read_positioning(&mut self, bytes: &[u8]) -> (published: Vec<Option<GnssPositioning>>)
        requires
            old(self).wf(),
        ensures
            final(self).wf(),
            final(self).framing() == old(self).framing().run(bytes@),
            final(self).consecutive_errors() == 0,
            published@ == publications(old(self).framing().sentences(bytes@)),
    {
        let mut published: Vec<Option<GnssPositioning>> = Vec::new();
        let mut i: usize = 0;
        assert(bytes@.take(0) =~= Seq::empty());
        while i < bytes.len()
            invariant
                i <= bytes.len(),
                self.wf(),
                self.consecutive_errors == old(self).consecutive_errors,
                self.framing() == old(self).framing().run(bytes@.take(i as int)),
                published@ == publications(old(self).framing().sentences(bytes@.take(i as int))),
            decreases bytes.len() - i,
        {
            assert(bytes@.take(i + 1).drop_last() =~= bytes@.take(i as int));
            let ghost earlier = old(self).framing().sentences(bytes@.take(i as int));
            match self.nmea_buffer.feed(bytes[i]) {
                Some(sentence) => {
                    assert(earlier.push(sentence.spec_bytes()).drop_last() =~= earlier);
                    match decode(sentence) {
                        Ok(fix) => published.push(Some(fix)),
                        Err(GnssError::NoFix) => published.push(None),
                        Err(_) => {},
                    }
                },
                None => {},
            }
            i += 1;
        }
        assert(bytes@.take(i as int) =~= bytes@);
        self.consecutive_errors = 0;
        published
    }

    /// Takes a fault of the receiver. The framer starts afresh, the fault is
    /// counted, and the caller is told how to recover: drain the receiver,
    /// publish that there is no fix, and pause for a time that doubles with
    /// every fault in a row up to a ceiling.
    pub fn handle_uart_error(&mut self) -> (recovery: [RecoveryStep; 3])
        requires
            old(self).wf(),
        ensures
            final(self).wf(),
            final(self).framing() == Framing::idle(),
            final(self).consecutive_errors() == if old(self).consecutive_errors() < u32::MAX {
                old(self).consecutive_errors() + 1
            } else {
                u32::MAX as int
            },
            recovery@ == seq![
                RecoveryStep::Drain,
                RecoveryStep::PublishNoFix,
                RecoveryStep::Wait {
                    delay_ms: backoff_ms(final(self).consecutive_errors() as nat) as u64,
                },
            ],
    {
        self.nmea_buffer.reset("Receiver fault");
        if self.consecutive_errors < u32::MAX {
            self.consecutive_errors += 1;
        }
        let recovery = [
            RecoveryStep::Drain,
            RecoveryStep::PublishNoFix,
            RecoveryStep::Wait { delay_ms: backoff(self.consecutive_errors) },
        ];
        assert(recovery@ =~= seq![
            RecoveryStep::Drain,
            RecoveryStep::PublishNoFix,
            RecoveryStep::Wait { delay_ms: backoff_ms(self.consecutive_errors as nat) as u64 },
        ]);
        recovery
    }
}

/// The pause after the given number of faults in a row, in milliseconds.
pub fn backoff(consecutive_errors: u32) -> (delay_ms: u64)
    ensures
        delay_ms == backoff_ms(consecutive_errors as nat),
        delay_ms <= BACKOFF_CEILING_MS,
{
    if consecutive_errors == 0 {
        return 0;
    }
    let mut delay_ms: u64 = BACKOFF_BASE_MS;
    let mut counted: u32 = 1;
    while counted < consecutive_errors && delay_ms < BACKOFF_CEILING_MS
        invariant
            1 <= counted <= consecutive_errors,
            delay_ms == backoff_ms(counted as nat),
            delay_ms <= BACKOFF_CEILING_MS,
        decreases consecutive_errors - counted,
    {
        delay_ms = if 2 * delay_ms <= BACKOFF_CEILING_MS {
            2 * delay_ms
        } else {
            BACKOFF_CEILING_MS
        };
        counted += 1;
    }
    proof {
        if counted < consecutive_errors {
            lemma_backoff_stays_at_ceiling(counted as nat, consecutive_errors as nat);
        }
    }
    delay_ms
}

/// Whether draining goes on after a read of the receiver: it does while
/// reads succeed and bring bytes, and stops at the first read that fails or
/// brings nothing.
pub fn keep_draining(read: Option<usize>) -> (again: bool)
    ensures
        again == (read matches Some(n) && n > 0),
{
    match read {
        Some(n) => n > 0,
        None => false,
    }
}

/// What the framer hands out is what the decoder takes: in a framed sentence
/// the first checksum separator is the third byte from the end, so the two
/// bytes after it are the last, and nothing follows the checksum. Such a
/// sentence is rejected for its frame only where those bytes are no
/// hexadecimal digits or do not match the payload.
pub proof fn lemma_framed_sentence_ends_with_its_checksum(body: Seq<u8>)
    requires
        is_framed_sentence(body),
    ensures
        position(body, CHECKSUM_SEPARATOR) == body.len() - 3,
        is_line_end(body.skip(position(body, CHECKSUM_SEPARATOR) + 3)),
        checksum_verdict(body) != Err::<bool, NmeaError>(NmeaError::InvalidFormat),
{
    let separator = body.len() - 3;
    let payload = body.take(separator);
    assert forall|j: int| 0 <= j < separator implies body[j] != CHECKSUM_SEPARATOR by {
        assert(payload[j] == body[j]);
        if j == 0 {
            assert(payload[0] == START_MARKER);
        } else {
            assert(!is_payload_delimiter(payload[j]));
        }
    }
    lemma_position_is(body, CHECKSUM_SEPARATOR, separator);
    assert(payload[0] == body[0]);
}

} // verus!
