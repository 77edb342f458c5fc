//! The signal decoder and the frame parser: from a buffer of framed
//! sub-messages to the raw value of every declared signal.

use crate::bits::{intel_read, motorola_position, motorola_read, read_bits_intel_le, read_bits_motorola_be, BitReadError};
use crate::schema::{ElpisMessages, MessageDefinition, SignalDefinition};
use vstd::prelude::*;
use vstd::slice::slice_subrange;

verus! {

/// What decoding one signal gave.
#[derive(Clone, Copy, Debug, PartialEq, Eq, Structural)]
pub enum SignalOutcome {
    /// The raw value, with the byte span that contains the field.
    Decoded { raw: u128, byte_offset: i32, byte_length: i32 },
    /// The signal is 128 bits wide or more, beyond the raw value's width: skipped with a warning.
    TooWide,
    /// The field could not be read from the payload.
    ReadFailed(BitReadError),
}

/// The outcome of decoding the signal at `index` in its message's definition.
#[derive(Clone, Copy, Debug, PartialEq, Eq, Structural)]
pub struct SignalRecord {
    pub index: usize,
    pub outcome: SignalOutcome,
}

/// The first bit of a signal: its own, or the start of the first byte in its bit order.
pub open spec fn effective_start(sig: SignalDefinition) -> int {
    match sig.start {
        Some(s) => s as int,
        None => if sig.is_big_endian {
            7
        } else {
            0
        },
    }
}

/// What decoding `sig` against `payload` gives; `None` for a signal without bits.
pub open spec fn signal_outcome(sig: SignalDefinition, payload: Seq<u8>) -> Option<SignalOutcome> {
    if sig.length == 0 {
        None
    } else if sig.length >= 128 {
        Some(SignalOutcome::TooWide)
    } else {
        let start = effective_start(sig);
        let read = if sig.is_big_endian {
            motorola_read(payload, start, sig.length as int)
        } else {
            intel_read(payload, start, sig.length as int)
        };
        match read {
            Ok(raw) => Some(
                SignalOutcome::Decoded {
                    raw,
                    byte_offset: (start / 8) as i32,
                    byte_length: ((sig.length + 7) / 8) as i32,
                },
            ),
            Err(e) => Some(SignalOutcome::ReadFailed(e)),
        }
    }
}

/// The records of the first `n` signals of `sigs` against `payload`, in order.
pub open spec fn signal_records(sigs: Seq<SignalDefinition>, payload: Seq<u8>, n: int) -> Seq<SignalRecord>
    decreases n,
{
    if n <= 0 {
        seq![]
    } else {
        let prev = signal_records(sigs, payload, n - 1);
        match signal_outcome(sigs[n - 1], payload) {
            Some(outcome) => prev.push(SignalRecord { index: (n - 1) as usize, outcome }),
            None => prev,
        }
    }
}

/// Decodes one signal from a payload: nothing for a zero-width signal, a
/// warning for one too wide, else the raw value or why it could not be read.
pub fn decode_signal(sig: &SignalDefinition, payload: &[u8]) -> (r: Option<SignalOutcome>)
    ensures
        r == signal_outcome(*sig, payload@),
{
    if sig.length == 0 {
        return None;
    }
    if sig.length >= 128 {
        return Some(SignalOutcome::TooWide);
    }
    let start: i32 = match sig.start {
        Some(s) => s,
        None => if sig.is_big_endian {
            7
        } else {
            0
        },
    };
    let read = if sig.is_big_endian {
        read_bits_motorola_be(payload, start, sig.length)
    } else {
        read_bits_intel_le(payload, start, sig.length)
    };
    match read {
        Ok(raw) => Some(
            SignalOutcome::Decoded { raw, byte_offset: start / 8, byte_length: (sig.length + 7) / 8 },
        ),
        Err(e) => Some(SignalOutcome::ReadFailed(e)),
    }
}

/// Decodes every signal of `def` from `payload`, in order; a signal that
/// fails does not stop the others.
pub fn decode_signals(def: &MessageDefinition, payload: &[u8]) -> (r: Vec<SignalRecord>)
    ensures
        r@ == signal_records(def.signals@, payload@, def.signals@.len() as int),
{
    let mut out: Vec<SignalRecord> = Vec::new();
    let mut i: usize = 0;
    while i < def.signals.len()
        invariant
            0 <= i <= def.signals@.len(),
            out@ == signal_records(def.signals@, payload@, i as int),
        decreases def.signals@.len() - i,
    {
        if let Some(outcome) = decode_signal(&def.signals[i], payload) {
            out.push(SignalRecord { index: i, outcome });
        }
        i = i + 1;
    }
    out
}

/// Why the frame parser stopped before the end of a buffer.
#[derive(Clone, Copy, Debug, PartialEq, Eq, Structural)]
pub enum FrameError {
    /// A header declares a negative identifier.
    InvalidId,
    /// A header declares a negative length, or more payload than remains.
    InvalidLength,
    /// Fewer bytes remain than a header field needs.
    TruncatedHeader,
}

/// One sub-message of a buffer.
#[derive(Debug, PartialEq, Eq)]
pub struct FrameRecord {
    pub id: i32,
    /// Where its header starts in the buffer.
    pub offset: usize,
    pub payload_length: usize,
    /// Whether the registry holds a definition for `id`; an unknown one is
    /// consumed without decoding.
    pub known: bool,
    /// The signals decoded from its payload, by the definition's order.
    pub signals: Vec<SignalRecord>,
}

/// A sub-message as a value.
pub struct FrameView {
    pub id: i32,
    pub offset: int,
    pub payload_length: int,
    pub known: bool,
    pub signals: Seq<SignalRecord>,
}

impl View for FrameRecord {
    type V = FrameView;

    open spec fn view(&self) -> FrameView {
        FrameView {
            id: self.id,
            offset: self.offset as int,
            payload_length: self.payload_length as int,
            known: self.known,
            signals: self.signals@,
        }
    }
}

/// The sub-messages decoded from a buffer, and why decoding stopped early, if it did.
#[derive(Debug, PartialEq, Eq)]
pub struct DecodeResult {
    pub frames: Vec<FrameRecord>,
    pub error: Option<FrameError>,
}

/// The sub-messages of a buffer with their reason to stop, as values.
pub open spec fn frames_view(r: DecodeResult) -> (Seq<FrameView>, Option<FrameError>) {
    (r.frames@.map_values(|f: FrameRecord| f@), r.error)
}

/// The big-endian 32-bit word at byte `p`, read without sign.
pub open spec fn be_word(data: Seq<u8>, p: int) -> int {
    data[p] * 16777216 + data[p + 1] * 65536 + data[p + 2] * 256 + data[p + 3]
}

/// The sub-message whose header stands at `pos` and whose payload is `len` bytes long.
pub open spec fn frame_at(reg: ElpisMessages, data: Seq<u8>, pos: int, len: int) -> FrameView {
    let id = be_word(data, pos) as i32;
    let payload = data.subrange(pos + 8, pos + 8 + len);
    FrameView {
        id,
        offset: pos,
        payload_length: len,
        known: reg.lookup(id) is Some,
        signals: match reg.lookup(id) {
            Some(d) => signal_records(d.signals@, payload, d.signals@.len() as int),
            None => seq![],
        },
    }
}

/// The sub-messages of `data` from byte `pos` on, and the structural fault
/// that stopped the parse, if any.
pub open spec fn parse_from(reg: ElpisMessages, data: Seq<u8>, pos: int) -> (Seq<FrameView>, Option<FrameError>)
    decreases data.len() - pos,
{
    if pos < 0 || pos >= data.len() {
        (seq![], None)
    } else if data.len() - pos < 4 {
        (seq![], Some(FrameError::TruncatedHeader))
    } else if data[pos] >= 128 {
        (seq![], Some(FrameError::InvalidId))
    } else if data.len() - pos < 8 {
        (seq![], Some(FrameError::TruncatedHeader))
    } else if data[pos + 4] >= 128 || be_word(data, pos + 4) > data.len() - pos - 8 {
        (seq![], Some(FrameError::InvalidLength))
    } else {
        let len = be_word(data, pos + 4);
        let rest = parse_from(reg, data, pos + 8 + len);
        (seq![frame_at(reg, data, pos, len)] + rest.0, rest.1)
    }
}

/// Reads the big-endian word at byte `p`, whose first byte is below 128.
fn read_word(data: &[u8], p: usize) -> (r: i32)
    requires
        p + 4 <= data@.len(),
        data@[p as int] < 128,
    ensures
        r as int == be_word(data@, p as int),
{
    let b0 = data[p] as i32;
    let b1 = data[p + 1] as i32;
    let b2 = data[p + 2] as i32;
    let b3 = data[p + 3] as i32;
    assert(b0 * 16777216 + b1 * 65536 + b2 * 256 + b3 <= 2147483647) by (nonlinear_arith)
        requires
            0 <= b0 < 128,
            0 <= b1 < 256,
            0 <= b2 < 256,
            0 <= b3 < 256,
    ;
    b0 * 16777216 + b1 * 65536 + b2 * 256 + b3
}

/// Decodes a buffer of framed sub-messages: each header holds a big-endian
/// identifier and payload length; a known identifier has its signals decoded,
/// an unknown one is passed over. A structural fault stops the whole buffer
/// and keeps what came before it.
pub fn decode_frames(registry: &ElpisMessages, data: &[u8]) -> (r: DecodeResult)
    requires
        registry.wf(),
    ensures
        frames_view(r) == parse_from(*registry, data@, 0),
{
    let mut frames: Vec<FrameRecord> = Vec::new();
    let mut pos: usize = 0;
    let n = data.len();
    while pos < n
        invariant
            registry.wf(),
            n == data@.len(),
            pos <= n,
            frames@.map_values(|f: FrameRecord| f@) + parse_from(*registry, data@, pos as int).0
                == parse_from(*registry, data@, 0).0,
            parse_from(*registry, data@, pos as int).1 == parse_from(*registry, data@, 0).1,
        decreases n - pos,
    {
        if n - pos < 4 {
            return DecodeResult { frames, error: Some(FrameError::TruncatedHeader) };
        }
        if data[pos] >= 128 {
            return DecodeResult { frames, error: Some(FrameError::InvalidId) };
        }
        if n - pos < 8 {
            return DecodeResult { frames, error: Some(FrameError::TruncatedHeader) };
        }
        if data[pos + 4] >= 128 {
            return DecodeResult { frames, error: Some(FrameError::InvalidLength) };
        }
        let id = read_word(data, pos);
        let len = read_word(data, pos + 4) as usize;
        if len > n - pos - 8 {
            return DecodeResult { frames, error: Some(FrameError::InvalidLength) };
        }
        let start = pos + 8;
        let payload = slice_subrange(data, start, start + len);
        let (known, signals) = match registry.get_def_by_id(id) {
            Some(def) => (true, decode_signals(def, payload)),
            None => (false, Vec::new()),
        };
        let frame = FrameRecord { id, offset: pos, payload_length: len, known, signals };
        let ghost before = frames@.map_values(|f: FrameRecord| f@);
        let ghost rest = parse_from(*registry, data@, (start + len) as int);
        assert(frame@ == frame_at(*registry, data@, pos as int, len as int));
        frames.push(frame);
        assert(frames@.map_values(|f: FrameRecord| f@) =~= before.push(frame@));
        assert(before.push(frame@) + rest.0 =~= before + (seq![frame@] + rest.0));
        pos = start + len;
    }
    DecodeResult { frames, error: None }
}

/// A signal of width zero gives no output and no error, whatever its start.
pub proof fn lemma_empty_signal_skipped(sig: SignalDefinition, payload: Seq<u8>)
    requires
        sig.length == 0,
    ensures
        signal_outcome(sig, payload) is None,
{
}

/// A signal 128 bits wide or more gives a warning and no value.
pub proof fn lemma_wide_signal_warns(sig: SignalDefinition, payload: Seq<u8>)
    requires
        sig.length >= 128,
    ensures
        signal_outcome(sig, payload) == Some(SignalOutcome::TooWide),
{
}

/// Against an empty payload no signal yields a value.
pub proof fn lemma_empty_payload_yields_nothing(sigs: Seq<SignalDefinition>, payload: Seq<u8>, n: int)
    requires
        payload.len() == 0,
    ensures
        forall|i: int| 0 <= i < signal_records(sigs, payload, n).len()
            ==> !(#[trigger] signal_records(sigs, payload, n)[i].outcome is Decoded),
    decreases n,
{
    if n > 0 {
        lemma_empty_payload_yields_nothing(sigs, payload, n - 1);
        let sig = sigs[n - 1];
        if sig.length != 0 && sig.length < 128 {
            let start = effective_start(sig);
            if start >= 0 {
                assert(motorola_position(start) >= 0);
            }
        }
    }
}

/// Decoding one buffer twice gives the same sub-messages and the same fault.
pub proof fn lemma_decode_deterministic(reg: ElpisMessages, data: Seq<u8>, r1: DecodeResult, r2: DecodeResult)
    requires
        frames_view(r1) == parse_from(reg, data, 0),
        frames_view(r2) == parse_from(reg, data, 0),
    ensures
        frames_view(r1) == frames_view(r2),
{
}

/// A buffer of exactly one header that declares an empty payload decodes to
/// one sub-message with an empty payload, and no signal of it yields a value.
pub proof fn lemma_single_empty_frame(reg: ElpisMessages, data: Seq<u8>)
    requires
        data.len() == 8,
        data[0] < 128,
        be_word(data, 4) == 0,
    ensures
        parse_from(reg, data, 0).1 is None,
        parse_from(reg, data, 0).0.len() == 1,
        parse_from(reg, data, 0).0[0] == frame_at(reg, data, 0, 0),
        parse_from(reg, data, 0).0[0].payload_length == 0,
        forall|i: int| 0 <= i < parse_from(reg, data, 0).0[0].signals.len()
            ==> !(#[trigger] parse_from(reg, data, 0).0[0].signals[i].outcome is Decoded),
{
    assert(parse_from(reg, data, 8) == (Seq::<FrameView>::empty(), None::<FrameError>));
    let id = be_word(data, 0) as i32;
    let payload = data.subrange(8, 8);
    if let Some(d) = reg.lookup(id) {
        lemma_empty_payload_yields_nothing(d.signals@, payload, d.signals@.len() as int);
    }
}

/// At a header with a sound identifier, the parse stops with `InvalidLength`,
/// and no sub-message from there on, exactly where the declared payload length
/// is negative or runs past the buffer.
pub proof fn lemma_overlong_payload_rejected(reg: ElpisMessages, data: Seq<u8>, pos: int)
    requires
        0 <= pos,
        pos + 8 <= data.len(),
        data[pos] < 128,
    ensures
        (data[pos + 4] >= 128 || be_word(data, pos + 4) > data.len() - pos - 8) <==> parse_from(reg, data, pos)
            == (Seq::<FrameView>::empty(), Some(FrameError::InvalidLength)),
{
    if !(data[pos + 4] >= 128 || be_word(data, pos + 4) > data.len() - pos - 8) {
        assert(parse_from(reg, data, pos).0.len() >= 1);
    }
}

/// Sub-messages before a fault are kept: where the header at `pos` is sound,
/// the parse from `pos` is its sub-message followed by the parse of what comes
/// after its payload.
pub proof fn lemma_sound_frame_then_rest(reg: ElpisMessages, data: Seq<u8>, pos: int)
    requires
        0 <= pos,
        pos + 8 <= data.len(),
        data[pos] < 128,
        data[pos + 4] < 128,
        be_word(data, pos + 4) <= data.len() - pos - 8,
    ensures
        parse_from(reg, data, pos).0 == seq![frame_at(reg, data, pos, be_word(data, pos + 4))]
            + parse_from(reg, data, pos + 8 + be_word(data, pos + 4)).0,
        parse_from(reg, data, pos).1 == parse_from(reg, data, pos + 8 + be_word(data, pos + 4)).1,
{
}

/// Two sub-messages laid end to end decode to two sub-messages in order; the
/// second starts `8 + first payload length` bytes in.
pub proof fn lemma_two_frames(reg: ElpisMessages, data: Seq<u8>, len1: int, len2: int)
    requires
        0 <= len1,
        0 <= len2,
        data.len() == 16 + len1 + len2,
        data[0] < 128,
        data[4] < 128,
        be_word(data, 4) == len1,
        data[8 + len1] < 128,
        data[12 + len1] < 128,
        be_word(data, 12 + len1) == len2,
    ensures
        parse_from(reg, data, 0).1 is None,
        parse_from(reg, data, 0).0 == seq![frame_at(reg, data, 0, len1), frame_at(reg, data, 8 + len1, len2)],
        parse_from(reg, data, 0).0[1].offset == 8 + len1,
{
    assert(parse_from(reg, data, 16 + len1 + len2) == (Seq::<FrameView>::empty(), None::<FrameError>));
    let second = parse_from(reg, data, 8 + len1);
    assert(second.0 =~= seq![frame_at(reg, data, 8 + len1, len2)]);
    assert(parse_from(reg, data, 0).0 =~= seq![frame_at(reg, data, 0, len1)] + second.0);
}

/// A sub-message whose identifier the registry lacks is passed over as
/// unknown, with no signals, and the parse goes on after its payload.
pub proof fn lemma_unknown_id_skipped(reg: ElpisMessages, data: Seq<u8>, pos: int)
    requires
        0 <= pos,
        pos + 8 <= data.len(),
        data[pos] < 128,
        data[pos + 4] < 128,
        be_word(data, pos + 4) <= data.len() - pos - 8,
        reg.lookup(be_word(data, pos) as i32) is None,
    ensures
        !parse_from(reg, data, pos).0[0].known,
        parse_from(reg, data, pos).0[0].signals.len() == 0,
        parse_from(reg, data, pos).0.drop_first() == parse_from(reg, data, pos + 8 + be_word(data, pos + 4)).0,
        parse_from(reg, data, pos).1 == parse_from(reg, data, pos + 8 + be_word(data, pos + 4)).1,
{
    let rest = parse_from(reg, data, pos + 8 + be_word(data, pos + 4));
    assert((seq![frame_at(reg, data, pos, be_word(data, pos + 4))] + rest.0).drop_first() =~= rest.0);
}

} // verus!
