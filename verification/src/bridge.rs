//! The bridge protocol: one JSON event per line from the Mac bridge, the
//! text a session keeps from those events, and the PCM framing of the audio
//! sent back.

use vstd::prelude::*;
use crate::text::str_equal;

verus! {

/// The rate, in samples per second, of the mono PCM sent to the bridge.
pub const OUTPUT_SAMPLE_RATE: u32 = 48_000;

#[verifier::external_type_specification]
#[verifier::external_body]
pub struct ExJsonError(serde_json::Error);

/// The string member `key` of the JSON document `text`: `None` when `text`
/// is not JSON, `Some(None)` when the document has no such member or it is
/// not a string.
pub uninterp spec fn json_string_member(text: Seq<char>, key: Seq<char>) -> Option<Option<Seq<char>>>;

/// The message `serde_json` gives (its `Display` text) when `text` is not a
/// JSON document, `None` when it is one.
pub uninterp spec fn json_syntax_error(text: Seq<char>) -> Option<Seq<char>>;

/// `serde_json::from_str::<serde_json::Value>`, then `Value::get(key)` and
/// `Value::as_str` on the document: the string member `key`, if present. The
/// parse fails exactly when `text` is not JSON.
#[verifier::external_body]
fn json_string_member_of(text: &str, key: &str) -> (r: Result<Option<String>, serde_json::Error>)
    ensures
        match r {
            Ok(Some(s)) => json_string_member(text@, key@) == Some(Some(s@)),
            Ok(None) => json_string_member(text@, key@) == Some(None::<Seq<char>>),
            Err(_) => json_string_member(text@, key@) is None,
        },
        r is Ok <==> json_syntax_error(text@) is None,
{
    serde_json::from_str::<serde_json::Value>(text)
        .map(|value| value.get(key).and_then(serde_json::Value::as_str).map(str::to_owned))
}

/// `serde_json::from_str::<serde_json::Value>`, keeping only the error's
/// `Display` text.
#[verifier::external_body]
fn json_syntax_error_of(text: &str) -> (r: Option<String>)
    ensures
        match r {
            Some(m) => json_syntax_error(text@) == Some(m@),
            None => json_syntax_error(text@) is None,
        },
{
    serde_json::from_str::<serde_json::Value>(text).err().map(|error| error.to_string())
}

/// A bridge line that is not valid JSON.
#[derive(Debug)]
pub struct BridgeDecodeError {
    message: String,
}

impl View for BridgeDecodeError {
    type V = Seq<char>;

    /// The description the error carries.
    closed spec fn view(&self) -> Seq<char> {
        self.message@
    }
}

impl BridgeDecodeError {
    /// The JSON parser's description of the problem.
    pub fn message(&self) -> (r: &str)
        ensures
            r@ == self@,
    {
        self.message.as_str()
    }
}

#[derive(Clone, Debug, PartialEq)]
pub enum BridgeEvent {
    Phase(String),
    Partial(String),
    Text(String),
    Final(String),
    Error { phase: Option<String>, message: String },
    Other,
}

/// A bridge event as plain values.
pub enum BridgeEventModel {
    Phase(Seq<char>),
    Partial(Seq<char>),
    Text(Seq<char>),
    Final(Seq<char>),
    Error(Option<Seq<char>>, Seq<char>),
    Other,
}

pub open spec fn opt_view(s: Option<String>) -> Option<Seq<char>> {
    match s {
        Some(t) => Some(t@),
        None => None,
    }
}

pub open spec fn event_model(e: BridgeEvent) -> BridgeEventModel {
    match e {
        BridgeEvent::Phase(t) => BridgeEventModel::Phase(t@),
        BridgeEvent::Partial(t) => BridgeEventModel::Partial(t@),
        BridgeEvent::Text(t) => BridgeEventModel::Text(t@),
        BridgeEvent::Final(t) => BridgeEventModel::Final(t@),
        BridgeEvent::Error { phase, message } => BridgeEventModel::Error(opt_view(phase), message@),
        BridgeEvent::Other => BridgeEventModel::Other,
    }
}

pub open spec fn or_empty(s: Option<Seq<char>>) -> Seq<char> {
    match s {
        Some(t) => t,
        None => Seq::empty(),
    }
}

/// The event that the string members `type`, `phase`, `text` and `message`
/// of a bridge line select (`None` for a member that is absent or not a
/// string). The `type` member selects the event (a missing one reads as
/// empty); `status` carries `phase`, `partial`/`text`/`final` carry `text`,
/// `error` carries an optional `phase` and a `message` (default "Unknown
/// bridge error"); anything else is `Other`. Missing members read as empty.
pub open spec fn event_from_members(
    kind: Option<Seq<char>>,
    phase: Option<Seq<char>>,
    text: Option<Seq<char>>,
    message: Option<Seq<char>>,
) -> BridgeEventModel {
    let kind = or_empty(kind);
    if kind == "status"@ {
        BridgeEventModel::Phase(or_empty(phase))
    } else if kind == "partial"@ {
        BridgeEventModel::Partial(or_empty(text))
    } else if kind == "text"@ {
        BridgeEventModel::Text(or_empty(text))
    } else if kind == "final"@ {
        BridgeEventModel::Final(or_empty(text))
    } else if kind == "error"@ {
        BridgeEventModel::Error(phase, match message {
            Some(m) => m,
            None => "Unknown bridge error"@,
        })
    } else {
        BridgeEventModel::Other
    }
}

/// Each event carries the members its type names, and no others: `partial`,
/// `text` and `final` carry the `text` member whatever the `phase` and
/// `message` are; `status` carries `phase`; `error` carries `phase` and
/// `message` (or the default message); other types carry nothing.
pub proof fn lemma_event_carries_the_members_of_its_type(
    kind: Seq<char>,
    phase: Option<Seq<char>>,
    text: Option<Seq<char>>,
    message: Option<Seq<char>>,
)
    ensures
        kind == "text"@ ==> event_from_members(Some(kind), phase, text, message) == BridgeEventModel::Text(
            match text { Some(t) => t, None => Seq::<char>::empty() },
        ),
        kind == "partial"@ ==> event_from_members(Some(kind), phase, text, message) == BridgeEventModel::Partial(
            match text { Some(t) => t, None => Seq::<char>::empty() },
        ),
        kind == "final"@ ==> event_from_members(Some(kind), phase, text, message) == BridgeEventModel::Final(
            match text { Some(t) => t, None => Seq::<char>::empty() },
        ),
        kind == "status"@ ==> event_from_members(Some(kind), phase, text, message) == BridgeEventModel::Phase(
            match phase { Some(p) => p, None => Seq::<char>::empty() },
        ),
        kind == "error"@ ==> event_from_members(Some(kind), phase, text, message) == BridgeEventModel::Error(
            phase,
            match message { Some(m) => m, None => "Unknown bridge error"@ },
        ),
        kind != "text"@ && kind != "partial"@ && kind != "final"@ && kind != "status"@ && kind != "error"@
            ==> event_from_members(Some(kind), phase, text, message) == BridgeEventModel::Other,
        event_from_members(None, phase, text, message) == BridgeEventModel::Other,
{
    reveal_strlit("text");
    reveal_strlit("partial");
    reveal_strlit("final");
    reveal_strlit("status");
    reveal_strlit("error");
    reveal_strlit("");
    assert("text"@.len() == 4);
    assert(Seq::<char>::empty() != "text"@);
    assert("partial"@.len() == 7);
    assert(Seq::<char>::empty() != "partial"@);
    assert("final"@.len() == 5);
    assert(Seq::<char>::empty() != "final"@);
    assert("status"@.len() == 6);
    assert(Seq::<char>::empty() != "status"@);
    assert("error"@.len() == 5);
    assert(Seq::<char>::empty() != "error"@);
    assert("error"@[0] != "final"@[0]);
    assert("error"@ != "final"@);
}

/// The event a line decodes to, `None` when the line is not JSON.
pub open spec fn decoded_event(line: Seq<char>) -> Option<BridgeEventModel> {
    match (
        json_string_member(line, "type"@),
        json_string_member(line, "phase"@),
        json_string_member(line, "text"@),
        json_string_member(line, "message"@),
    ) {
        (Some(kind), Some(phase), Some(text), Some(message)) => Some(
            event_from_members(kind, phase, text, message),
        ),
        _ => None,
    }
}

fn member(line: &str, key: &str) -> (r: Result<Option<String>, BridgeDecodeError>)
    ensures
        match r {
            Ok(m) => json_string_member(line@, key@) == Some(opt_view(m)),
            Err(e) => json_string_member(line@, key@) is None && json_syntax_error(line@) == Some(e@),
        },
{
    match json_string_member_of(line, key) {
        Ok(m) => Ok(m),
        Err(_) => {
            let message = match json_syntax_error_of(line) {
                Some(m) => m,
                None => String::new(),
            };
            Err(BridgeDecodeError { message })
        },
    }
}

fn string_or_empty(s: Option<String>) -> (r: String)
    ensures
        r@ == or_empty(opt_view(s)),
{
    match s {
        Some(t) => t,
        None => String::new(),
    }
}

/// The bridge event that the string members `type`, `phase`, `text` and
/// `message` of a line select.
pub fn bridge_event_from_members(
    kind: Option<String>,
    phase: Option<String>,
    text: Option<String>,
    message: Option<String>,
) -> (e: BridgeEvent)
    ensures
        event_model(e) == event_from_members(opt_view(kind), opt_view(phase), opt_view(text), opt_view(message)),
{
    let kind = string_or_empty(kind);
    if str_equal(kind.as_str(), "status") {
        BridgeEvent::Phase(string_or_empty(phase))
    } else if str_equal(kind.as_str(), "partial") {
        BridgeEvent::Partial(string_or_empty(text))
    } else if str_equal(kind.as_str(), "text") {
        BridgeEvent::Text(string_or_empty(text))
    } else if str_equal(kind.as_str(), "final") {
        BridgeEvent::Final(string_or_empty(text))
    } else if str_equal(kind.as_str(), "error") {
        let message = match message {
            Some(m) => m,
            None => String::from_str("Unknown bridge error"),
        };
        BridgeEvent::Error { phase, message }
    } else {
        BridgeEvent::Other
    }
}

/// Decodes one line of the bridge protocol. Unknown event types are accepted
/// as `Other` rather than rejecting the line.
pub fn decode_bridge_event(line: &str) -> (r: Result<BridgeEvent, BridgeDecodeError>)
    ensures
        match r {
            Ok(e) => decoded_event(line@) == Some(event_model(e)),
            Err(e) => decoded_event(line@) is None && json_syntax_error(line@) == Some(e@),
        },
{
    let kind = member(line, "type")?;
    let phase = member(line, "phase")?;
    let text = member(line, "text")?;
    let message = member(line, "message")?;
    Ok(bridge_event_from_members(kind, phase, text, message))
}

/// What a session reports to the interface for a bridge event.
#[derive(Clone, Debug, PartialEq)]
pub enum SessionNotice {
    Phase(String),
    Partial(String),
    Committed(String),
    Final(String),
}

/// The text a voice session keeps: the last committed segment and the final
/// text, the latter preferred when the session ends.
pub struct SessionText {
    latest: String,
    final_text: String,
}

/// The error a bridge `error` event ends the session with: the phase, if any,
/// then a colon, then the message.
pub open spec fn bridge_error_text(phase: Option<Seq<char>>, message: Seq<char>) -> Seq<char> {
    match phase {
        Some(p) => p + ": "@ + message,
        None => message,
    }
}

impl SessionText {
    pub closed spec fn latest(self) -> Seq<char> {
        self.latest@
    }

    pub closed spec fn final_text(self) -> Seq<char> {
        self.final_text@
    }

    pub fn new() -> (t: Self)
        ensures
            t.latest() == Seq::<char>::empty(),
            t.final_text() == Seq::<char>::empty(),
    {
        SessionText { latest: String::new(), final_text: String::new() }
    }

    /// Handles one bridge event (or the error reading it): phases and partial
    /// hypotheses are passed on, committed and final texts are remembered and
    /// passed on, a bridge error ends the session, anything else is ignored.
    pub fn handle(&mut self, event: Result<BridgeEvent, String>) -> (r: Result<Option<SessionNotice>, String>)
        ensures
            match event {
                Err(e) => r == Err::<Option<SessionNotice>, String>(e)
                    && final(self).latest() == old(self).latest() && final(self).final_text() == old(self).final_text(),
                Ok(BridgeEvent::Phase(p)) => r == Ok::<_, String>(Some(SessionNotice::Phase(p)))
                    && final(self).latest() == old(self).latest() && final(self).final_text() == old(self).final_text(),
                Ok(BridgeEvent::Partial(t)) => r == Ok::<_, String>(Some(SessionNotice::Partial(t)))
                    && final(self).latest() == old(self).latest() && final(self).final_text() == old(self).final_text(),
                Ok(BridgeEvent::Text(t)) => r == Ok::<_, String>(Some(SessionNotice::Committed(t)))
                    && final(self).latest() == t@ && final(self).final_text() == old(self).final_text(),
                Ok(BridgeEvent::Final(t)) => r == Ok::<_, String>(Some(SessionNotice::Final(t)))
                    && final(self).latest() == old(self).latest() && final(self).final_text() == t@,
                Ok(BridgeEvent::Error { phase, message }) => (r matches Err(m) && m@ == bridge_error_text(opt_view(phase), message@))
                    && final(self).latest() == old(self).latest() && final(self).final_text() == old(self).final_text(),
                Ok(BridgeEvent::Other) => r == Ok::<_, String>(None::<SessionNotice>)
                    && final(self).latest() == old(self).latest() && final(self).final_text() == old(self).final_text(),
            },
    {
        match event {
            Err(e) => Err(e),
            Ok(BridgeEvent::Phase(p)) => Ok(Some(SessionNotice::Phase(p))),
            Ok(BridgeEvent::Partial(t)) => Ok(Some(SessionNotice::Partial(t))),
            Ok(BridgeEvent::Text(t)) => {
                self.latest = t.clone();
                Ok(Some(SessionNotice::Committed(t)))
            },
            Ok(BridgeEvent::Final(t)) => {
                self.final_text = t.clone();
                Ok(Some(SessionNotice::Final(t)))
            },
            Ok(BridgeEvent::Error { phase, message }) => {
                let mut text = match phase {
                    Some(p) => {
                        let mut prefix = p;
                        prefix.append(": ");
                        prefix
                    },
                    None => String::new(),
                };
                text.append(message.as_str());
                Err(text)
            },
            Ok(BridgeEvent::Other) => Ok(None),
        }
    }

    /// Whether the final text has arrived.
    pub fn has_final(&self) -> (r: bool)
        ensures
            r == (self.final_text().len() > 0),
    {
        self.final_text.as_str().unicode_len() > 0
    }

    /// The session's result: the final text, or the last committed segment
    /// when no final text arrived.
    pub fn result_text(&self) -> (r: &str)
        ensures
            r@ == (if self.final_text().len() > 0 { self.final_text() } else { self.latest() }),
    {
        if self.final_text.as_str().unicode_len() > 0 {
            self.final_text.as_str()
        } else {
            self.latest.as_str()
        }
    }
}

/// Whether an event starts recording, after which the arming audio is sent.
pub fn starts_recording(event: &Result<BridgeEvent, String>) -> (r: bool)
    ensures
        r == (match event {
            Ok(BridgeEvent::Phase(p)) => p@ == "recording"@,
            _ => false,
        }),
{
    match event {
        Ok(BridgeEvent::Phase(p)) => str_equal(p.as_str(), "recording"),
        _ => false,
    }
}

/// Little-endian bytes of a sample.
pub open spec fn le_bytes(sample: i16) -> Seq<u8> {
    let u = sample as u16;
    seq![(u % 256) as u8, (u / 256) as u8]
}

pub open spec fn s16le(samples: Seq<i16>) -> Seq<u8>
    decreases samples.len(),
{
    if samples.len() == 0 { Seq::empty() } else { s16le(samples.drop_last()) + le_bytes(samples.last()) }
}

/// Encodes samples as signed 16-bit little-endian PCM.
pub fn encode_s16le(samples: &[i16]) -> (bytes: Vec<u8>)
    ensures
        bytes@ == s16le(samples@),
        bytes@.len() == 2 * samples@.len(),
{
    let mut bytes: Vec<u8> = Vec::new();
    let mut i: usize = 0;
    while i < samples.len()
        invariant
            i <= samples@.len(),
            bytes@ == s16le(samples@.take(i as int)),
            bytes@.len() == 2 * i,
        decreases samples@.len() - i,
    {
        let u = samples[i] as u16;
        let low = (u & 0xff) as u8;
        let high = (u >> 8) as u8;
        assert(low == (u % 256) as u8 && high == (u / 256) as u8) by (bit_vector)
            requires
                low == (u & 0xff) as u8,
                high == (u >> 8) as u8;
        bytes.push(low);
        bytes.push(high);
        assert(samples@.take(i + 1).drop_last() =~= samples@.take(i as int));
        i = i + 1;
        assert(bytes@ =~= s16le(samples@.take(i as int)));
    }
    assert(samples@.take(samples@.len() as int) == samples@);
    bytes
}

/// Seconds and nanoseconds that `bytes` of 48 kHz mono 16-bit PCM take to play,
/// rounded to the nearest nanosecond.
pub open spec fn playback_time(bytes: nat) -> (nat, nat) {
    let rem = bytes % 96_000;
    (bytes / 96_000, (rem * 31_250 + 1) / 3)
}

pub fn pcm_playback_time(bytes: usize) -> (r: (u64, u32))
    ensures
        (r.0 as nat, r.1 as nat) == playback_time(bytes as nat),
        r.1 < 1_000_000_000,
{
    let secs = (bytes / 96_000) as u64;
    let rem = (bytes % 96_000) as u64;
    let nanos = ((rem * 31_250 + 1) / 3) as u32;
    (secs, nanos)
}

/// The `Duration` that `Duration::new(secs, nanos)` returns.
pub uninterp spec fn duration_of(secs: u64, nanos: u32) -> core::time::Duration;

/// `Duration::new`. Claimed: the duration is a function of the seconds and
/// nanoseconds alone (it holds no more than `secs` seconds and `nanos`
/// nanoseconds); below a second of nanoseconds it does not panic.
#[verifier::external_body]
pub(crate) fn duration_from_parts(secs: u64, nanos: u32) -> (d: core::time::Duration)
    requires
        nanos < 1_000_000_000,
    ensures
        d == duration_of(secs, nanos),
{
    core::time::Duration::new(secs, nanos)
}

/// How long `bytes` of 48 kHz mono 16-bit PCM take to play: the bridge's
/// audio is paced at that rate.
pub fn pcm_playback_duration(bytes: usize) -> (d: core::time::Duration)
    ensures
        d == duration_of(playback_time(bytes as nat).0 as u64, playback_time(bytes as nat).1 as u32),
{
    let (secs, nanos) = pcm_playback_time(bytes);
    duration_from_parts(secs, nanos)
}

/// Encoded PCM decodes back to its samples: two bytes per sample, the low
/// byte first, together the sample's 16-bit two's-complement value.
pub proof fn lemma_s16le_decodes_to_the_samples(samples: Seq<i16>)
    ensures
        s16le(samples).len() == 2 * samples.len(),
        forall|i: int| 0 <= i < samples.len() ==> #[trigger] s16le(samples)[2 * i] as int + 256 * s16le(samples)[2 * i + 1] as int
            == (samples[i] as u16) as int,
    decreases samples.len(),
{
    if samples.len() > 0 {
        let rest = samples.drop_last();
        lemma_s16le_decodes_to_the_samples(rest);
        let b = s16le(samples);
        assert forall|i: int| 0 <= i < samples.len() implies #[trigger] b[2 * i] as int + 256 * b[2 * i + 1] as int
            == (samples[i] as u16) as int by {
            if i < samples.len() - 1 {
                assert(b[2 * i] == s16le(rest)[2 * i]);
                assert(b[2 * i + 1] == s16le(rest)[2 * i + 1]);
                assert(rest[i] == samples[i]);
            } else {
                let u = samples[i] as u16;
                assert(b[2 * i] == (u % 256) as u8);
                assert(b[2 * i + 1] == (u / 256) as u8);
            }
        }
    }
}

/// PCM at 48 kHz, mono, 16-bit plays for a 96,000th of a second per byte: the
/// time given, in nanoseconds, is that exact time rounded to the nearest
/// nanosecond, and the nanoseconds stay below one second.
pub proof fn lemma_playback_time_is_bytes_at_the_output_rate(bytes: nat)
    ensures
        ({
            let (secs, nanos) = playback_time(bytes);
            &&& nanos < 1_000_000_000
            &&& -1 <= 3 * (secs * 1_000_000_000 + nanos) - bytes * 31_250 <= 1
        }),
{
    let secs = bytes / 96_000;
    let rem = bytes % 96_000;
    assert(bytes == secs * 96_000 + rem) by (nonlinear_arith)
        requires
            secs == bytes / 96_000,
            rem == bytes % 96_000;
    assert(rem < 96_000);
    let nanos = (rem * 31_250 + 1) / 3;
    assert(3 * nanos <= rem * 31_250 + 1 && rem * 31_250 + 1 < 3 * nanos + 3) by (nonlinear_arith)
        requires
            nanos == (rem * 31_250 + 1) / 3;
    assert(bytes * 31_250 == secs * 3_000_000_000 + rem * 31_250) by (nonlinear_arith)
        requires
            bytes == secs * 96_000 + rem;
}

} // verus!
