//! Byte-level framing of position sentences.
//!
//! The framer is fed one received byte at a time and hands out a sentence
//! exactly when its line terminator arrives. It knows nothing of what a
//! sentence means: it only recognises the start marker, the checksum
//! separator, the two bytes that follow it and the terminator.

use core::str::Utf8Error;
use vstd::prelude::*;
use vstd::slice::slice_subrange;
use vstd::string::StringSliceAdditionalSpecFns;
use vstd::utf8::{
    encode_utf8, partial_valid_utf8, partial_valid_utf8_extend_ascii_block, valid_utf8,
};

verus! {

/// Capacity of the sentence buffer, terminator excluded.
pub const MAX_NMEA_SENTENCE_SIZE: usize = 128;

/// `$`, the byte that opens a sentence.
pub const START_MARKER: u8 = 0x24;

/// `*`, the byte that separates the payload from its checksum.
pub const CHECKSUM_SEPARATOR: u8 = 0x2A;

/// Carriage return.
pub const CR: u8 = 0x0D;

/// Line feed.
pub const LF: u8 = 0x0A;

/// Where the framer stands within a sentence.
#[derive(Debug, Clone, Copy, PartialEq, Eq)]
pub enum ParseState {
    /// Waiting for a start marker.
    Idle,
    /// Collecting the payload that follows the start marker.
    Collecting,
    /// After the checksum separator: `count` of the two checksum bytes are in.
    InChecksum { count: usize },
    /// Both checksum bytes are in: waiting for the line feed.
    Terminating,
    /// A sentence has just been handed out and still lies in the buffer.
    Complete,
}

/// What a framer holds, as mathematics: its state and the bytes buffered so far.
pub ghost struct Framing {
    pub state: ParseState,
    pub bytes: Seq<u8>,
}

/// Whether `b` is one of the bytes that never enters a payload: the checksum
/// separator, carriage return or line feed.
pub open spec fn is_payload_delimiter(b: u8) -> bool {
    b == CHECKSUM_SEPARATOR || b == CR || b == LF
}

/// `bytes` is a start marker followed by payload bytes only.
pub open spec fn is_open_sentence(bytes: Seq<u8>) -> bool {
    &&& bytes.len() >= 1
    &&& bytes[0] == START_MARKER
    &&& forall|i: int| 1 <= i < bytes.len() ==> !is_payload_delimiter(#[trigger] bytes[i])
}

impl Framing {
    /// The framer at rest: idle, nothing buffered.
    pub open spec fn idle() -> Framing {
        Framing { state: ParseState::Idle, bytes: Seq::empty() }
    }

    /// The shape that the buffered bytes have in each state. Every reachable
    /// framer satisfies it; in particular the buffer never exceeds its capacity.
    pub open spec fn valid(self) -> bool {
        &&& self.bytes.len() <= MAX_NMEA_SENTENCE_SIZE
        &&& match self.state {
            ParseState::Idle => self.bytes.len() == 0,
            ParseState::Collecting => is_open_sentence(self.bytes),
            ParseState::InChecksum { count } => {
                &&& count < 2
                &&& self.bytes.len() >= 2 + count
                &&& self.bytes[self.bytes.len() - 1 - count] == CHECKSUM_SEPARATOR
                &&& is_open_sentence(self.bytes.take(self.bytes.len() - 1 - count))
            },
            ParseState::Terminating | ParseState::Complete => {
                &&& self.bytes.len() >= 4
                &&& self.bytes[self.bytes.len() - 3] == CHECKSUM_SEPARATOR
                &&& is_open_sentence(self.bytes.take(self.bytes.len() - 3))
            },
        }
    }

    /// Appends `byte` and moves to `next`, unless the buffer is full: a full
    /// buffer discards everything and falls back to idle.
    pub open spec fn push(self, byte: u8, next: ParseState) -> Framing {
        if self.bytes.len() >= MAX_NMEA_SENTENCE_SIZE {
            Framing::idle()
        } else {
            Framing { state: next, bytes: self.bytes.push(byte) }
        }
    }

    /// The framer after one more byte.
    pub open spec fn step(self, byte: u8) -> Framing {
        match self.state {
            ParseState::Idle | ParseState::Complete => {
                if byte == START_MARKER {
                    Framing { state: ParseState::Collecting, bytes: seq![byte] }
                } else {
                    Framing::idle()
                }
            },
            ParseState::Collecting => {
                if byte == CHECKSUM_SEPARATOR {
                    self.push(byte, ParseState::InChecksum { count: 0 })
                } else if byte == CR {
                    Framing::idle()
                } else if byte == LF {
                    self
                } else {
                    self.push(byte, ParseState::Collecting)
                }
            },
            ParseState::InChecksum { count } => {
                if count + 1 >= 2 {
                    self.push(byte, ParseState::Terminating)
                } else {
                    self.push(byte, ParseState::InChecksum { count: (count + 1) as usize })
                }
            },
            ParseState::Terminating => {
                if byte == LF {
                    if valid_utf8(self.bytes) {
                        Framing { state: ParseState::Complete, bytes: self.bytes }
                    } else {
                        Framing::idle()
                    }
                } else if byte == CR {
                    self
                } else {
                    Framing::idle()
                }
            },
        }
    }

    /// The sentence that one more byte completes, if it completes one: the
    /// buffered bytes, when a line feed arrives after the checksum and the
    /// bytes are valid UTF-8.
    pub open spec fn emits(self, byte: u8) -> Option<Seq<u8>> {
        if self.state == ParseState::Terminating && byte == LF && valid_utf8(self.bytes) {
            Some(self.bytes)
        } else {
            None
        }
    }

    /// The framer after a run of bytes, taken one by one.
    pub open spec fn run(self, bytes: Seq<u8>) -> Framing
        decreases bytes.len(),
    {
        if bytes.len() == 0 {
            self
        } else {
            self.run(bytes.drop_last()).step(bytes.last())
        }
    }

    /// The sentences completed during a run of bytes, in the order in which
    /// they were completed.
    pub open spec fn sentences(self, bytes: Seq<u8>) -> Seq<Seq<u8>>
        decreases bytes.len(),
    {
        if bytes.len() == 0 {
            Seq::empty()
        } else {
            let earlier = self.sentences(bytes.drop_last());
            match self.run(bytes.drop_last()).emits(bytes.last()) {
                Some(sentence) => earlier.push(sentence),
                None => earlier,
            }
        }
    }
}

/// The bytes of each text of `texts`, in order.
pub open spec fn texts_as_bytes(texts: Seq<String>) -> Seq<Seq<u8>> {
    Seq::new(texts.len(), |i: int| encode_utf8(texts[i]@))
}

/// Reassembles one sentence at a time from a stream of bytes.
#[derive(Debug)]
pub struct SentenceBuffer {
    cursor: usize,
    buffer: [u8; 128],
    state: ParseState,
}

impl View for SentenceBuffer {
    type V = Framing;

    closed spec fn view(&self) -> Framing {
        Framing { state: self.state, bytes: self.buffer@.take(self.cursor as int) }
    }
}

impl SentenceBuffer {
    /// Well-formedness: the cursor lies within the buffer and the buffered
    /// bytes have the shape of the current state.
    pub closed spec fn wf(&self) -> bool {
        &&& self.cursor <= MAX_NMEA_SENTENCE_SIZE
        &&& self@.valid()
    }

    /// A framer at rest.
    pub fn new() -> (framer: Self)
        ensures
            framer.wf(),
            framer@ == Framing::idle(),
    {
        let framer = SentenceBuffer { cursor: 0, buffer: [0; 128], state: ParseState::Idle };
        assert(framer@.bytes =~= Seq::empty());
        framer
    }

    /// Discards everything buffered and returns to idle. The reason is kept
    /// for diagnostics only and changes nothing.
    pub fn reset(&mut self, reason: &str)
        ensures
            final(self).wf(),
            final(self)@ == Framing::idle(),
    {
        let _ = reason;
        self.cursor = 0;
        self.buffer = [0; 128];
        self.state = ParseState::Idle;
        assert(self@.bytes =~= Seq::empty());
    }

    /// Appends one byte to the buffer. A byte that does not fit empties the
    /// buffer and returns the framer to idle instead, and is itself dropped.
    fn push_byte(&mut self, byte: u8)
        requires
            old(self).cursor <= MAX_NMEA_SENTENCE_SIZE,
        ensures
            final(self).cursor <= MAX_NMEA_SENTENCE_SIZE,
            old(self)@.bytes.len() < MAX_NMEA_SENTENCE_SIZE ==> final(self)@ == (Framing {
                state: old(self)@.state,
                bytes: old(self)@.bytes.push(byte),
            }),
            old(self)@.bytes.len() >= MAX_NMEA_SENTENCE_SIZE ==> final(self)@ == Framing::idle(),
    {
        if self.cursor >= MAX_NMEA_SENTENCE_SIZE {
            self.reset("Buffer overflow");
        } else {
            self.buffer[self.cursor] = byte;
            self.cursor += 1;
            assert(self@.bytes =~= old(self)@.bytes.push(byte));
        }
    }

    /// The buffered bytes as text, or the reason why they are not valid UTF-8.
    pub fn as_string(&self) -> (text: Result<&str, Utf8Error>)
        requires
            self.wf(),
        ensures
            text is Ok <==> valid_utf8(self@.bytes),
            text matches Ok(s) ==> s.spec_bytes() == self@.bytes,
    {
        let buffered = slice_subrange(self.buffer.as_slice(), 0, self.cursor);
        assert(buffered@ =~= self@.bytes);
        text_of(buffered)
    }

    /// Takes one received byte. Returns the completed sentence exactly when
    /// this byte is the line feed that terminates one.
    pub fn feed(&mut self, byte: u8) -> (sentence: Option<&str>)
        requires
            old(self).wf(),
        ensures
            final(self).wf(),
            final(self)@ == old(self)@.step(byte),
            sentence is Some <==> old(self)@.emits(byte) is Some,
            sentence matches Some(s) ==> old(self)@.emits(byte) == Some(s.spec_bytes()),
    {
        match self.state {
            ParseState::Idle => {
                if byte == START_MARKER {
                    self.push_byte(byte);
                    self.state = ParseState::Collecting;
                    assert(self@.bytes =~= seq![byte]);
                } else {
                    assert(self@.bytes =~= Seq::empty());
                }
            },
            ParseState::Complete => {
                self.reset("Sentence handed out");
                if byte == START_MARKER {
                    self.push_byte(byte);
                    self.state = ParseState::Collecting;
                    assert(self@.bytes =~= seq![byte]);
                }
            },
            ParseState::Collecting => {
                if byte == CHECKSUM_SEPARATOR {
                    let fits = self.cursor < MAX_NMEA_SENTENCE_SIZE;
                    self.push_byte(byte);
                    if fits {
                        self.state = ParseState::InChecksum { count: 0 };
                        assert(self@.bytes.take(self@.bytes.len() - 1) =~= old(self)@.bytes);
                    }
                } else if byte == CR {
                    self.reset("Sentence terminated without checksum");
                } else if byte == LF {
                } else {
                    self.push_byte(byte);
                }
            },
            ParseState::InChecksum { count } => {
                let fits = self.cursor < MAX_NMEA_SENTENCE_SIZE;
                self.push_byte(byte);
                if fits {
                    let new_count: usize = count + 1;
                    if new_count >= 2 {
                        self.state = ParseState::Terminating;
                    } else {
                        self.state = ParseState::InChecksum { count: new_count };
                    }
                    assert(self@.bytes.take(self@.bytes.len() - 1 - new_count) =~= old(
                        self,
                    )@.bytes.take(old(self)@.bytes.len() - 1 - count));
                }
            },
            ParseState::Terminating => {
                if byte == LF {
                    if self.as_string().is_ok() {
                        self.state = ParseState::Complete;
                        return self.as_string().ok();
                    }
                    self.reset("Invalid UTF-8 in sentence");
                } else if byte == CR {
                } else {
                    self.reset("Unexpected byte after the checksum");
                }
            },
        }
        None
    }

    /// Feeds a whole run of bytes, one by one, and returns the sentences that
    /// were completed on the way, in order.
    pub fn feed_all(&mut self, bytes: &[u8]) -> (completed: Vec<String>)
        requires
            old(self).wf(),
        ensures
            final(self).wf(),
            final(self)@ == old(self)@.run(bytes@),
            texts_as_bytes(completed@) == old(self)@.sentences(bytes@),
    {
        let mut completed: Vec<String> = Vec::new();
        let mut i: usize = 0;
        assert(bytes@.take(0) =~= Seq::empty());
        while i < bytes.len()
            invariant
                i <= bytes.len(),
                self.wf(),
                self@ == old(self)@.run(bytes@.take(i as int)),
                texts_as_bytes(completed@) =~= old(self)@.sentences(bytes@.take(i as int)),
            decreases bytes.len() - i,
        {
            let ghost before = completed@;
            assert(bytes@.take(i + 1).drop_last() =~= bytes@.take(i as int));
            match self.feed(bytes[i]) {
                Some(sentence) => {
                    completed.push(sentence.to_owned());
                    assert(texts_as_bytes(completed@) =~= texts_as_bytes(before).push(
                        sentence.spec_bytes(),
                    ));
                },
                None => {},
            }
            i += 1;
        }
        assert(bytes@.take(i as int) =~= bytes@);
        completed
    }
}

/// The error of `core::str::from_utf8`, carried through unread.
#[verifier::external_type_specification]
#[verifier::external_body]
pub struct ExUtf8Error(Utf8Error);

/// `core::str::from_utf8`: succeeds exactly on valid UTF-8, and the text it
/// returns is the given bytes, unchanged and uncopied.
#[verifier::external_body]
fn text_of(bytes: &[u8]) -> (text: Result<&str, Utf8Error>)
    ensures
        text is Ok <==> valid_utf8(bytes@),
        text matches Ok(s) ==> s.spec_bytes() == bytes@,
{
    core::str::from_utf8(bytes)
}

/// `body` is a whole sentence without its line terminator, as the framer
/// hands it out: a start marker, payload bytes, the checksum separator and two
/// more bytes, within the buffer's capacity and valid UTF-8.
pub open spec fn is_framed_sentence(body: Seq<u8>) -> bool {
    &&& 4 <= body.len() <= MAX_NMEA_SENTENCE_SIZE
    &&& is_open_sentence(body.take(body.len() - 3))
    &&& body[body.len() - 3] == CHECKSUM_SEPARATOR
    &&& valid_utf8(body)
}

/// `body` is a whole sentence in the wire format, without its line
/// terminator: ASCII text that starts with the start marker and ends with the
/// checksum separator and two more bytes, with no separator and no line
/// terminator in between, within the buffer's capacity.
pub open spec fn is_wire_sentence(body: Seq<u8>) -> bool {
    &&& 4 <= body.len() <= MAX_NMEA_SENTENCE_SIZE
    &&& is_open_sentence(body.take(body.len() - 3))
    &&& body[body.len() - 3] == CHECKSUM_SEPARATOR
    &&& forall|i: int| 0 <= i < body.len() ==> #[trigger] body[i] <= 0x7f
}

/// A sentence in the wire format is a framed sentence: being ASCII, it is
/// valid UTF-8.
pub proof fn lemma_wire_sentence_is_framed(body: Seq<u8>)
    requires
        is_wire_sentence(body),
    ensures
        is_framed_sentence(body),
{
    assert(body.subrange(0, 0) =~= Seq::empty());
    assert(partial_valid_utf8(body, 0));
    partial_valid_utf8_extend_ascii_block(body, 0, body.len() as int);
    assert(body.subrange(0, body.len() as int) =~= body);
}

/// The line terminator that ends a sentence on the wire: a line feed, after
/// a carriage return where `crlf` holds.
pub open spec fn line_terminator(crlf: bool) -> Seq<u8> {
    if crlf {
        seq![CR, LF]
    } else {
        seq![LF]
    }
}

/// Every step keeps the framer valid, so the buffer never outgrows its
/// capacity whatever bytes arrive.
pub proof fn lemma_step_keeps_valid(framing: Framing, byte: u8)
    requires
        framing.valid(),
    ensures
        framing.step(byte).valid(),
{
    let next = framing.step(byte);
    match framing.state {
        ParseState::Collecting => {
            if next.state is InChecksum {
                assert(next.bytes.take(next.bytes.len() - 1) =~= framing.bytes);
            }
        },
        ParseState::InChecksum { count } => {
            if next.state !is Idle {
                assert(next.bytes.take(next.bytes.len() - 2 - count) =~= framing.bytes.take(
                    framing.bytes.len() - 1 - count,
                ));
            }
        },
        _ => {},
    }
}

/// Every run keeps the framer valid.
pub proof fn lemma_run_keeps_valid(framing: Framing, bytes: Seq<u8>)
    requires
        framing.valid(),
    ensures
        framing.run(bytes).valid(),
    decreases bytes.len(),
{
    if bytes.len() > 0 {
        lemma_run_keeps_valid(framing, bytes.drop_last());
        lemma_step_keeps_valid(framing.run(bytes.drop_last()), bytes.last());
    }
}

/// Where the framer stands after the first `k` bytes of a framed sentence
/// `body` and its terminator, when it started at rest.
pub open spec fn framing_within(start: Framing, body: Seq<u8>, crlf: bool, k: int) -> Framing {
    let payload_end = body.len() - 3;
    if k <= 0 {
        start
    } else if k <= payload_end {
        Framing { state: ParseState::Collecting, bytes: body.take(k) }
    } else if k == payload_end + 1 {
        Framing { state: ParseState::InChecksum { count: 0 }, bytes: body.take(k) }
    } else if k == payload_end + 2 {
        Framing { state: ParseState::InChecksum { count: 1 }, bytes: body.take(k) }
    } else if k < body.len() + line_terminator(crlf).len() {
        Framing { state: ParseState::Terminating, bytes: body }
    } else {
        Framing { state: ParseState::Complete, bytes: body }
    }
}

/// The framer follows `framing_within` through a framed sentence and its
/// terminator, and completes the sentence at the last byte only.
proof fn lemma_framing_within(start: Framing, body: Seq<u8>, crlf: bool, k: int)
    requires
        start.valid(),
        start.state is Idle || start.state is Complete,
        is_framed_sentence(body),
        0 <= k <= body.len() + line_terminator(crlf).len(),
    ensures
        start.run((body + line_terminator(crlf)).take(k)) == framing_within(start, body, crlf, k),
        start.sentences((body + line_terminator(crlf)).take(k)) == if k == body.len()
            + line_terminator(crlf).len() {
            seq![body]
        } else {
            Seq::<Seq<u8>>::empty()
        },
    decreases k,
{
    let wire = body + line_terminator(crlf);
    let payload_end = body.len() - 3;
    if k == 0 {
        assert(wire.take(0) =~= Seq::empty());
    } else {
        lemma_framing_within(start, body, crlf, k - 1);
        let prefix = wire.take(k);
        assert(prefix.drop_last() =~= wire.take(k - 1));
        assert(prefix.last() == wire[k - 1]);
        let before = framing_within(start, body, crlf, k - 1);
        let byte = wire[k - 1];
        if k <= body.len() {
            assert(byte == body[k - 1]);
            assert(body.take(k) =~= body.take(k - 1).push(byte));
            if k == 1 {
                assert(body.take(payload_end)[0] == body[0]);
                assert(body.take(1) =~= seq![byte]);
            } else if k <= payload_end {
                assert(body.take(payload_end)[k - 1] == body[k - 1]);
            }
            if k == body.len() {
                assert(body.take(k) =~= body);
            }
        } else if crlf && k == body.len() + 1 {
            assert(byte == CR);
        } else {
            assert(byte == LF);
            assert(before.emits(byte) == Some(body));
            assert(Seq::<Seq<u8>>::empty().push(body) =~= seq![body]);
        }
    }
}

/// Every sentence that the framer hands out is a framed sentence: it starts
/// with the start marker, its first checksum separator is the third byte from
/// the end, it holds no line terminator before that, and it fits the buffer.
pub proof fn lemma_emitted_sentence_is_framed(framing: Framing, byte: u8)
    requires
        framing.valid(),
        framing.emits(byte) is Some,
    ensures
        is_framed_sentence(framing.emits(byte)->Some_0),
{
}

/// Where reads cut the stream does not matter: feeding two runs one after
/// the other is feeding them as one. So feeding byte by byte and feeding a
/// whole batch complete the same sentences and leave the framer the same.
pub proof fn lemma_batches_compose(start: Framing, first: Seq<u8>, second: Seq<u8>)
    ensures
        start.run(first + second) == start.run(first).run(second),
        start.sentences(first + second) == start.sentences(first) + start.run(first).sentences(
            second,
        ),
    decreases second.len(),
{
    if second.len() == 0 {
        assert(first + second =~= first);
        assert(start.sentences(first) + Seq::<Seq<u8>>::empty() =~= start.sentences(first));
    } else {
        let whole = first + second;
        assert(whole.drop_last() =~= first + second.drop_last());
        assert(whole.last() == second.last());
        lemma_batches_compose(start, first, second.drop_last());
        let earlier = start.sentences(first);
        let later = start.run(first).sentences(second.drop_last());
        match start.run(first).run(second.drop_last()).emits(second.last()) {
            Some(sentence) => {
                assert((earlier + later).push(sentence) =~= earlier + later.push(sentence));
            },
            None => {},
        }
    }
}

/// A well-formed sentence is framed exactly once. A framer at rest that is
/// fed a framed sentence and its line terminator completes one sentence, the
/// one it was fed without the terminator, and no byte before the last
/// completes anything.
pub proof fn lemma_sentence_framed_once(start: Framing, body: Seq<u8>, crlf: bool)
    requires
        start.valid(),
        start.state is Idle || start.state is Complete,
        is_framed_sentence(body),
    ensures
        ({
            let wire = body + line_terminator(crlf);
            &&& start.sentences(wire) == seq![body]
            &&& start.run(wire) == (Framing { state: ParseState::Complete, bytes: body })
            &&& start.run(wire.drop_last()).emits(wire.last()) == Some(body)
            &&& forall|k: int|
                0 <= k < wire.len() - 1 ==> (#[trigger] start.run(wire.take(k))).emits(wire[k])
                    is None
        }),
{
    let wire = body + line_terminator(crlf);
    assert(wire.take(wire.len() as int) =~= wire);
    assert(wire.drop_last() =~= wire.take(wire.len() - 1));
    lemma_framing_within(start, body, crlf, wire.len() as int);
    lemma_framing_within(start, body, crlf, wire.len() - 1);
    assert forall|k: int| 0 <= k < wire.len() - 1 implies (#[trigger] start.run(
        wire.take(k),
    )).emits(wire[k]) is None by {
        lemma_framing_within(start, body, crlf, k);
    }
}

/// An unterminated run cannot outgrow the buffer. More bytes than the buffer
/// holds, none of them a carriage return or a line feed, always bring the
/// framer back to idle on the way, and complete no sentence.
pub proof fn lemma_unterminated_run_resets(start: Framing, bytes: Seq<u8>)
    requires
        start.valid(),
        bytes.len() > MAX_NMEA_SENTENCE_SIZE,
        forall|i: int| 0 <= i < bytes.len() ==> bytes[i] != CR && bytes[i] != LF,
    ensures
        exists|k: int| 1 <= k <= bytes.len() && (#[trigger] start.run(bytes.take(k))).state is Idle,
        start.sentences(bytes) == Seq::<Seq<u8>>::empty(),
{
    lemma_unterminated_prefix(start, bytes, bytes.len() as int);
    lemma_run_keeps_valid(start, bytes.take(bytes.len() as int));
    assert(bytes.take(bytes.len() as int) =~= bytes);
}

/// After `k` bytes without terminator the framer has been idle on the way,
/// or has buffered every one of the `k` bytes.
proof fn lemma_unterminated_prefix(start: Framing, bytes: Seq<u8>, k: int)
    requires
        start.valid(),
        forall|i: int| 0 <= i < bytes.len() ==> bytes[i] != CR && bytes[i] != LF,
        1 <= k <= bytes.len(),
    ensures
        start.sentences(bytes.take(k)) == Seq::<Seq<u8>>::empty(),
        (exists|j: int| 1 <= j <= k && (#[trigger] start.run(bytes.take(j))).state is Idle) || ({
            &&& start.run(bytes.take(k)).bytes.len() >= k
            &&& start.run(bytes.take(k)).state !is Complete
        }),
    decreases k,
{
    let prefix = bytes.take(k);
    assert(prefix.drop_last() =~= bytes.take(k - 1));
    assert(prefix.last() == bytes[k - 1]);
    if k == 1 {
        assert(bytes.take(0) =~= Seq::empty());
        assert(start.run(bytes.take(0)) == start);
        assert(start.sentences(bytes.take(0)) == Seq::<Seq<u8>>::empty());
        let after = start.run(bytes.take(1));
        assert(after == start.step(bytes[0]));
        if after.state is Idle {
            assert(1 <= 1 <= k && start.run(bytes.take(1)).state is Idle);
        }
    } else {
        lemma_unterminated_prefix(start, bytes, k - 1);
        lemma_run_keeps_valid(start, bytes.take(k - 1));
        let before = start.run(bytes.take(k - 1));
        let after = start.run(bytes.take(k));
        assert(after == before.step(bytes[k - 1]));
        if exists|j: int| 1 <= j <= k - 1 && (#[trigger] start.run(bytes.take(j))).state is Idle {
            let j = choose|j: int|
                1 <= j <= k - 1 && (#[trigger] start.run(bytes.take(j))).state is Idle;
            assert(1 <= j <= k && start.run(bytes.take(j)).state is Idle);
        } else if after.state is Idle {
            assert(1 <= k <= k && start.run(bytes.take(k)).state is Idle);
        }
    }
}

} // verus!
