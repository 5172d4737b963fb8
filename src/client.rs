use bytes::Bytes;
use vstd::prelude::*;
use vstd::string::StringExecFns;

use crate::frame::{audio_header, bytes_content, InFrame, OutFrame};
use crate::header::{spec_encode, spec_parse, CODEC_OPUS, HEADER_SIZE, MEDIA_TYPE_AUDIO};

verus! {

/// Maximum number of automatic reconnection attempts after a read error.
pub const MAX_RECONNECT_ATTEMPTS: u32 = 5;

/// Maximum backoff delay in seconds between reconnection attempts.
pub const MAX_BACKOFF_SECS: u64 = 30;

/// Samples per captured audio frame: 20 ms at 48 kHz.
pub const SAMPLES_PER_FRAME: u32 = 960;

/// `2` to the power `n`.
pub open spec fn pow2(n: nat) -> nat
    decreases n,
{
    if n == 0 {
        1
    } else {
        2 * pow2((n - 1) as nat)
    }
}

/// The delay before reconnection attempt `attempt` (counted from 1):
/// `min(2^(attempt-1), 30)` seconds.
pub open spec fn spec_backoff(attempt: nat) -> nat
    recommends
        attempt >= 1,
{
    let p = pow2((attempt - 1) as nat);
    if p < MAX_BACKOFF_SECS {
        p
    } else {
        MAX_BACKOFF_SECS as nat
    }
}

proof fn lemma_pow2_monotonic(a: nat, b: nat)
    requires
        a <= b,
    ensures
        pow2(a) <= pow2(b),
    decreases b,
{
    if a < b {
        lemma_pow2_monotonic(a, (b - 1) as nat);
    }
}

/// The delay in seconds before reconnection attempt `attempt` (counted from 1).
pub fn backoff_delay_secs(attempt: u32) -> (r: u64)
    requires
        attempt >= 1,
    ensures
        r == spec_backoff(attempt as nat),
{
    let mut p: u64 = 1;
    let mut i: u32 = 1;
    while i < attempt && p < MAX_BACKOFF_SECS
        invariant
            1 <= i <= attempt,
            p == pow2((i - 1) as nat),
        decreases attempt - i,
    {
        p = p * 2;
        i = i + 1;
    }
    if p < MAX_BACKOFF_SECS {
        p
    } else {
        proof {
            lemma_pow2_monotonic((i - 1) as nat, (attempt - 1) as nat);
        }
        MAX_BACKOFF_SECS
    }
}

/// `a + b` modulo `2^32`.
pub open spec fn wrap_add(a: u32, b: u32) -> u32 {
    ((a + b) % 0x1_0000_0000) as u32
}

fn wrapping_add_u32(a: u32, b: u32) -> (r: u32)
    ensures
        r == wrap_add(a, b),
{
    a.wrapping_add(b)
}

/// Connection parameters, kept as given on a successful connect to drive
/// automatic reconnection.
pub struct ConnectParams {
    pub url: String,
    pub token: String,
    pub room_id: u32,
    pub user_id: u32,
    pub cert_der: Option<Vec<u8>>,
    pub idle_timeout_secs: u64,
    pub datagram_buffer_size: usize,
}

/// The part of an active session that the media loop decides on: identity,
/// frame counters and the toggles.
#[derive(Debug, Clone, Copy, PartialEq, Eq, Structural)]
pub struct SessionState {
    pub room_id: u32,
    pub user_id: u32,
    pub sequence: u32,
    pub timestamp: u32,
    pub muted: bool,
    pub deafened: bool,
    pub video: bool,
}

/// The session state right after establishment.
pub open spec fn fresh_session(room_id: u32, user_id: u32) -> SessionState {
    SessionState {
        room_id,
        user_id,
        sequence: 0,
        timestamp: 0,
        muted: false,
        deafened: false,
        video: false,
    }
}

/// Where the media loop stands.
#[derive(Debug, Clone, Copy, PartialEq, Eq, Structural)]
pub enum Phase {
    Disconnected,
    Connected(SessionState),
    /// Reconnecting after a read error; the number of attempts that failed.
    Reconnecting(u32),
}

/// An observable state change, for the embedding host to poll.
pub enum MediaEvent {
    Connected,
    Disconnected(String),
    ConnectFailed(String),
    Reconnecting { attempt: u32, delay_secs: u64 },
    AudioError(String),
}

/// The decimal digit `d`.
pub open spec fn digit_view(d: nat) -> Seq<char> {
    if d == 0 {
        "0"@
    } else if d == 1 {
        "1"@
    } else if d == 2 {
        "2"@
    } else if d == 3 {
        "3"@
    } else if d == 4 {
        "4"@
    } else if d == 5 {
        "5"@
    } else if d == 6 {
        "6"@
    } else if d == 7 {
        "7"@
    } else if d == 8 {
        "8"@
    } else {
        "9"@
    }
}

/// The decimal notation of `n`, without leading zeros.
pub open spec fn decimal(n: nat) -> Seq<char>
    decreases n,
{
    if n < 10 {
        digit_view(n)
    } else {
        decimal(n / 10) + digit_view(n % 10)
    }
}

fn digit_str(d: u64) -> (r: &'static str)
    requires
        d < 10,
    ensures
        r@ == digit_view(d as nat),
{
    if d == 0 {
        "0"
    } else if d == 1 {
        "1"
    } else if d == 2 {
        "2"
    } else if d == 3 {
        "3"
    } else if d == 4 {
        "4"
    } else if d == 5 {
        "5"
    } else if d == 6 {
        "6"
    } else if d == 7 {
        "7"
    } else if d == 8 {
        "8"
    } else {
        "9"
    }
}

/// The decimal notation of `n`.
pub fn to_decimal(n: u64) -> (r: String)
    ensures
        r@ == decimal(n as nat),
    decreases n,
{
    if n < 10 {
        digit_str(n).to_owned()
    } else {
        let mut s = to_decimal(n / 10);
        s.append(digit_str(n % 10));
        s
    }
}

/// The `(kind, detail)` pair by which an event is reported.
pub open spec fn event_tuple(e: MediaEvent) -> (Seq<char>, Seq<char>) {
    match e {
        MediaEvent::Connected => ("connected"@, Seq::empty()),
        MediaEvent::Disconnected(reason) => ("disconnected"@, reason@),
        MediaEvent::ConnectFailed(reason) => ("connect_failed"@, reason@),
        MediaEvent::Reconnecting { attempt, delay_secs } => (
            "reconnecting"@,
            "attempt="@ + decimal(attempt as nat) + ",delay="@ + decimal(delay_secs as nat),
        ),
        MediaEvent::AudioError(msg) => ("audio_error"@, msg@),
    }
}

impl MediaEvent {
    /// The `(kind, detail)` pair by which the event is reported to the host:
    /// `connected`, `disconnected`, `connect_failed`, `reconnecting` (detail
    /// `attempt=<n>,delay=<s>`) or `audio_error`.
    pub fn to_tuple(&self) -> (r: (String, String))
        ensures
            (r.0@, r.1@) == event_tuple(*self),
    {
        match self {
            MediaEvent::Connected => ("connected".to_owned(), String::new()),
            MediaEvent::Disconnected(reason) => ("disconnected".to_owned(), reason.clone()),
            MediaEvent::ConnectFailed(reason) => ("connect_failed".to_owned(), reason.clone()),
            MediaEvent::Reconnecting { attempt, delay_secs } => {
                let mut detail = "attempt=".to_owned();
                let a = to_decimal(*attempt as u64);
                detail.append(a.as_str());
                detail.append(",delay=");
                let d = to_decimal(*delay_secs);
                detail.append(d.as_str());
                ("reconnecting".to_owned(), detail)
            },
            MediaEvent::AudioError(msg) => ("audio_error".to_owned(), msg.clone()),
        }
    }
}

/// The decisions of the client media loop: what each command, captured
/// frame, datagram and read error does to the session, the saved parameters
/// and the events. The caller performs the I/O that a decision asks for.
pub struct MediaLoop {
    phase: Phase,
    params: Option<ConnectParams>,
}

impl MediaLoop {
    /// Where the loop stands.
    pub closed spec fn phase(&self) -> Phase {
        self.phase
    }

    /// The saved connection parameters.
    pub closed spec fn params(&self) -> Option<ConnectParams> {
        self.params
    }

    /// A connected loop always has the parameters it connected with, and so
    /// does a reconnecting one; a reconnecting one has made at most five
    /// attempts.
    pub open spec fn wf(&self) -> bool {
        &&& self.phase() is Connected ==> self.params() is Some
        &&& self.phase() matches Phase::Reconnecting(n) ==> self.params() is Some && n
            <= MAX_RECONNECT_ATTEMPTS
    }

    /// Whether a session is live.
    pub open spec fn is_connected(&self) -> bool {
        self.phase() is Connected
    }

    /// The live session's state.
    pub open spec fn session(&self) -> SessionState
        recommends
            self.is_connected(),
    {
        self.phase()->Connected_0
    }

    /// Whether the loop is reconnecting.
    pub open spec fn is_reconnecting(&self) -> bool {
        self.phase() is Reconnecting
    }

    /// Whether `next` has the same phase and saved parameters as `self`.
    pub open spec fn unchanged(&self, next: MediaLoop) -> bool {
        next.phase() == self.phase() && next.params() == self.params()
    }

    /// A loop that has not connected yet.
    pub fn new() -> (r: MediaLoop)
        ensures
            r.wf(),
            r.phase() == Phase::Disconnected,
            r.params() is None,
    {
        MediaLoop { phase: Phase::Disconnected, params: None }
    }

    /// Whether a session is live.
    pub fn connected(&self) -> (r: bool)
        ensures
            r == self.is_connected(),
    {
        matches!(self.phase, Phase::Connected(_))
    }

    /// The saved connection parameters, to reconnect with.
    pub fn saved_params(&self) -> (r: Option<&ConnectParams>)
        ensures
            r == match self.params() {
                Some(p) => Some(&p),
                None => None::<&ConnectParams>,
            },
    {
        match &self.params {
            Some(p) => Some(p),
            None => None,
        }
    }

    /// A `Connect` command: the current session, if any, is dropped before
    /// the new one is established. The saved parameters stay until the
    /// connect succeeds.
    pub fn begin_connect(&mut self)
        requires
            old(self).wf(),
        ensures
            final(self).wf(),
            final(self).phase() == Phase::Disconnected,
            final(self).params() == old(self).params(),
    {
        self.phase = Phase::Disconnected;
    }

    /// The session was established with `params`: they are saved, the
    /// session starts with zeroed counters and toggles off.
    pub fn connect_succeeded(&mut self, params: ConnectParams) -> (e: MediaEvent)
        requires
            old(self).wf(),
        ensures
            final(self).wf(),
            final(self).phase() == Phase::Connected(fresh_session(params.room_id, params.user_id)),
            final(self).params() == Some(params),
            e is Connected,
    {
        let session = SessionState {
            room_id: params.room_id,
            user_id: params.user_id,
            sequence: 0,
            timestamp: 0,
            muted: false,
            deafened: false,
            video: false,
        };
        self.phase = Phase::Connected(session);
        self.params = Some(params);
        MediaEvent::Connected
    }

    /// Establishing the session failed: the loop stays disconnected.
    pub fn connect_failed(&mut self, reason: String) -> (e: MediaEvent)
        requires
            old(self).wf(),
        ensures
            *final(self) == *old(self),
            e matches MediaEvent::ConnectFailed(s) && s == reason,
    {
        MediaEvent::ConnectFailed(reason)
    }

    /// A `Disconnect` command: when connected, the session is dropped, the
    /// saved parameters cleared, and a `disconnected("user requested")`
    /// event results; otherwise nothing happens.
    pub fn disconnect(&mut self) -> (e: Option<MediaEvent>)
        requires
            old(self).wf(),
        ensures
            final(self).wf(),
            disconnect_step(*old(self), *final(self)),
            old(self).is_connected() ==> (e matches Some(MediaEvent::Disconnected(s)) && s@
                == "user requested"@),
            !old(self).is_connected() ==> e is None,
    {
        if matches!(self.phase, Phase::Connected(_)) {
            self.phase = Phase::Disconnected;
            self.params = None;
            Some(MediaEvent::Disconnected("user requested".to_owned()))
        } else {
            None
        }
    }

    /// `SetMute`: takes effect on a live session only.
    pub fn set_mute(&mut self, muted: bool)
        requires
            old(self).wf(),
        ensures
            final(self).wf(),
            final(self).params() == old(self).params(),
            old(self).is_connected() ==> final(self).phase() == Phase::Connected(
                SessionState { muted, ..old(self).session() },
            ),
            !old(self).is_connected() ==> final(self).phase() == old(self).phase(),
    {
        if let Phase::Connected(s) = self.phase {
            self.phase = Phase::Connected(SessionState { muted, ..s });
        }
    }

    /// `SetDeaf`: takes effect on a live session only.
    pub fn set_deaf(&mut self, deafened: bool)
        requires
            old(self).wf(),
        ensures
            final(self).wf(),
            final(self).params() == old(self).params(),
            old(self).is_connected() ==> final(self).phase() == Phase::Connected(
                SessionState { deafened, ..old(self).session() },
            ),
            !old(self).is_connected() ==> final(self).phase() == old(self).phase(),
    {
        if let Phase::Connected(s) = self.phase {
            self.phase = Phase::Connected(SessionState { deafened, ..s });
        }
    }

    /// `SetVideo`: the flag is kept on a live session; video itself is not
    /// produced.
    pub fn set_video(&mut self, video: bool)
        requires
            old(self).wf(),
        ensures
            final(self).wf(),
            final(self).params() == old(self).params(),
            old(self).is_connected() ==> final(self).phase() == Phase::Connected(
                SessionState { video, ..old(self).session() },
            ),
            !old(self).is_connected() ==> final(self).phase() == old(self).phase(),
    {
        if let Phase::Connected(s) = self.phase {
            self.phase = Phase::Connected(SessionState { video, ..s });
        }
    }

    /// Whether a captured PCM frame is to be encoded and sent: only on a
    /// live session that is not muted.
    pub fn wants_capture(&self) -> (r: bool)
        ensures
            r == (self.is_connected() && !self.session().muted),
    {
        match self.phase {
            Phase::Connected(s) => !s.muted,
            _ => false,
        }
    }

    /// Frames an encoded audio payload as the next datagram of the session,
    /// then advances the counters: `sequence` by 1 and `timestamp` by 960,
    /// both wrapping.
    pub fn frame_audio(&mut self, payload: Bytes) -> (r: Bytes)
        requires
            old(self).wf(),
            old(self).is_connected(),
        ensures
            final(self).wf(),
            final(self).params() == old(self).params(),
            bytes_content(r) == spec_encode(
                audio_header(
                    old(self).session().room_id,
                    old(self).session().user_id,
                    CODEC_OPUS,
                    old(self).session().sequence,
                    old(self).session().timestamp,
                ),
            ) + bytes_content(payload),
            final(self).phase() == Phase::Connected(
                SessionState {
                    sequence: wrap_add(old(self).session().sequence, 1),
                    timestamp: wrap_add(old(self).session().timestamp, SAMPLES_PER_FRAME),
                    ..old(self).session()
                },
            ),
    {
        let s = match self.phase {
            Phase::Connected(s) => s,
            _ => {
                proof {
                    assert(false);
                }
                return payload;
            },
        };
        let frame = OutFrame::audio(s.room_id, s.user_id, CODEC_OPUS, s.sequence, s.timestamp, payload);
        let out = frame.encode();
        self.phase = Phase::Connected(
            SessionState {
                sequence: wrapping_add_u32(s.sequence, 1),
                timestamp: wrapping_add_u32(s.timestamp, SAMPLES_PER_FRAME),
                ..s
            },
        );
        out
    }

    /// The Opus payload of an inbound datagram to decode and play, if any: a
    /// live session that is not deafened plays well-formed audio frames and
    /// drops everything else.
    pub fn inbound_audio(&self, data: Bytes) -> (r: Option<Bytes>)
        ensures
            r is Some <==> (self.is_connected() && !self.session().deafened && bytes_content(
                data,
            ).len() >= HEADER_SIZE && spec_parse(bytes_content(data)).unwrap().media_type
                == MEDIA_TYPE_AUDIO),
            r matches Some(p) ==> bytes_content(p) == bytes_content(data).subrange(
                HEADER_SIZE as int,
                bytes_content(data).len() as int,
            ),
    {
        match self.phase {
            Phase::Connected(s) => {
                if s.deafened {
                    return None;
                }
                match InFrame::decode(data) {
                    None => None,
                    Some(frame) => {
                        if frame.header.media_type != MEDIA_TYPE_AUDIO {
                            None
                        } else {
                            Some(frame.payload)
                        }
                    },
                }
            },
            _ => None,
        }
    }

    /// A read error on the connection: the session is dropped. With saved
    /// parameters a reconnect starts and nothing is reported yet (`None`);
    /// without, the loop is disconnected with the error as reason.
    pub fn read_error(&mut self, reason: String) -> (e: Option<MediaEvent>)
        requires
            old(self).wf(),
        ensures
            final(self).wf(),
            read_error_step(*old(self), *final(self)),
            e is None <==> old(self).params() is Some,
            e matches Some(ev) ==> (ev matches MediaEvent::Disconnected(s) && s == reason),
    {
        if self.params.is_some() {
            self.phase = Phase::Reconnecting(0);
            None
        } else {
            self.phase = Phase::Disconnected;
            Some(MediaEvent::Disconnected(reason))
        }
    }

    /// The next step of a reconnect: a `reconnecting{attempt, delay}` event
    /// for the attempt to make after that delay, with the saved parameters;
    /// or, once five attempts have failed, `disconnected("Reconnection failed
    /// after 5 attempts")`, the parameters cleared.
    pub fn next_reconnect(&mut self) -> (e: MediaEvent)
        requires
            old(self).wf(),
            old(self).is_reconnecting(),
        ensures
            final(self).wf(),
            next_reconnect_step(*old(self), *final(self)),
            ({
                let n = old(self).phase()->Reconnecting_0;
                match reconnect_attempt(n as nat) {
                    Some((a, d)) => e matches MediaEvent::Reconnecting { attempt, delay_secs }
                        && attempt == a && delay_secs == d,
                    None => e matches MediaEvent::Disconnected(s) && s@
                        == "Reconnection failed after 5 attempts"@,
                }
            }),
    {
        let n = match self.phase {
            Phase::Reconnecting(n) => n,
            _ => {
                proof {
                    assert(false);
                }
                0
            },
        };
        if n < MAX_RECONNECT_ATTEMPTS {
            let attempt = n + 1;
            MediaEvent::Reconnecting { attempt, delay_secs: backoff_delay_secs(attempt) }
        } else {
            self.phase = Phase::Disconnected;
            self.params = None;
            MediaEvent::Disconnected("Reconnection failed after 5 attempts".to_owned())
        }
    }

    /// A reconnection attempt failed.
    pub fn reconnect_failed(&mut self)
        requires
            old(self).wf(),
            old(self).is_reconnecting(),
            old(self).phase()->Reconnecting_0 < MAX_RECONNECT_ATTEMPTS,
        ensures
            final(self).wf(),
            reconnect_failed_step(*old(self), *final(self)),
    {
        if let Phase::Reconnecting(n) = self.phase {
            self.phase = Phase::Reconnecting(n + 1);
        }
    }

    /// A reconnection attempt succeeded with the saved parameters: a fresh
    /// session is live.
    pub fn reconnect_succeeded(&mut self) -> (e: MediaEvent)
        requires
            old(self).wf(),
            old(self).is_reconnecting(),
        ensures
            final(self).wf(),
            final(self).params() == old(self).params(),
            final(self).phase() == Phase::Connected(
                fresh_session(
                    old(self).params().unwrap().room_id,
                    old(self).params().unwrap().user_id,
                ),
            ),
            e is Connected,
    {
        let (room_id, user_id) = match &self.params {
            Some(p) => (p.room_id, p.user_id),
            None => {
                proof {
                    assert(false);
                }
                (0, 0)
            },
        };
        self.phase = Phase::Connected(
            SessionState {
                room_id,
                user_id,
                sequence: 0,
                timestamp: 0,
                muted: false,
                deafened: false,
                video: false,
            },
        );
        MediaEvent::Connected
    }
}

/// The attempt to make, and its delay in seconds, after `failed` failed
/// reconnection attempts; `None` once five have failed.
pub open spec fn reconnect_attempt(failed: nat) -> Option<(u32, u64)> {
    if failed < MAX_RECONNECT_ATTEMPTS {
        Some(((failed + 1) as u32, spec_backoff(failed + 1) as u64))
    } else {
        None
    }
}

/// `next` is `prev` after a read error: with saved parameters a reconnect
/// starts with no attempt made and the parameters kept; without, the loop is
/// disconnected.
pub open spec fn read_error_step(prev: MediaLoop, next: MediaLoop) -> bool {
    if prev.params() is Some {
        next.phase() == Phase::Reconnecting(0) && next.params() == prev.params()
    } else {
        next.phase() == Phase::Disconnected && next.params() is None
    }
}

/// `next` is `prev` after a `Disconnect` command: a live session is dropped
/// and the saved parameters cleared; otherwise nothing changes.
pub open spec fn disconnect_step(prev: MediaLoop, next: MediaLoop) -> bool {
    if prev.is_connected() {
        next.phase() == Phase::Disconnected && next.params() is None
    } else {
        prev.unchanged(next)
    }
}

/// `next` is the reconnecting `prev` after the next reconnect step: while an
/// attempt remains nothing changes (the attempt is made with the saved
/// parameters); after the fifth failure the loop is disconnected and the
/// parameters cleared.
pub open spec fn next_reconnect_step(prev: MediaLoop, next: MediaLoop) -> bool {
    if reconnect_attempt(prev.phase()->Reconnecting_0 as nat) is Some {
        prev.unchanged(next)
    } else {
        next.phase() == Phase::Disconnected && next.params() is None
    }
}

/// `next` is the reconnecting `prev` after an attempt failed: one more
/// failure counted, the saved parameters kept.
pub open spec fn reconnect_failed_step(prev: MediaLoop, next: MediaLoop) -> bool {
    &&& next.phase() == Phase::Reconnecting((prev.phase()->Reconnecting_0 + 1) as u32)
    &&& next.params() == prev.params()
}

/// Backoff schedule: after a read error the attempts announced are 1 to 5,
/// with delays of 1, 2, 4, 8 and 16 seconds, each with the parameters saved
/// at connect time; after the fifth failure the reconnect gives up, so a
/// sixth attempt never occurs. `ms` is the loop after the read error, then
/// after each failed attempt.
pub proof fn lemma_backoff_schedule(ms: Seq<MediaLoop>)
    requires
        ms.len() >= 1,
        ms[0].phase() == Phase::Reconnecting(0),
        forall|i: int|
            #![trigger ms[i]]
            0 <= i < ms.len() - 1 ==> reconnect_attempt(ms[i].phase()->Reconnecting_0 as nat)
                is Some && reconnect_failed_step(ms[i], ms[i + 1]),
    ensures
        reconnect_attempt(0) == Some((1u32, 1u64)),
        reconnect_attempt(1) == Some((2u32, 2u64)),
        reconnect_attempt(2) == Some((3u32, 4u64)),
        reconnect_attempt(3) == Some((4u32, 8u64)),
        reconnect_attempt(4) == Some((5u32, 16u64)),
        reconnect_attempt(5) is None,
        ms.len() <= MAX_RECONNECT_ATTEMPTS + 1,
        forall|i: int|
            0 <= i < ms.len() ==> (#[trigger] ms[i]).phase() == Phase::Reconnecting(i as u32)
                && ms[i].params() == ms[0].params(),
{
    reveal_with_fuel(pow2, 5);
    lemma_failures_counted(ms, ms.len() - 1);
    if ms.len() > MAX_RECONNECT_ATTEMPTS + 1 {
        assert(ms[5].phase() == Phase::Reconnecting(5));
        assert(reconnect_failed_step(ms[5], ms[6]));
    }
}

proof fn lemma_failures_counted(ms: Seq<MediaLoop>, k: int)
    requires
        0 <= k < ms.len(),
        ms[0].phase() == Phase::Reconnecting(0),
        forall|i: int|
            #![trigger ms[i]]
            0 <= i < ms.len() - 1 ==> reconnect_attempt(ms[i].phase()->Reconnecting_0 as nat)
                is Some && reconnect_failed_step(ms[i], ms[i + 1]),
    ensures
        forall|i: int|
            0 <= i <= k ==> (#[trigger] ms[i]).phase() == Phase::Reconnecting(i as u32)
                && ms[i].params() == ms[0].params(),
    decreases k,
{
    if k > 0 {
        lemma_failures_counted(ms, k - 1);
        assert(reconnect_failed_step(ms[k - 1], ms[k]));
        assert(k <= MAX_RECONNECT_ATTEMPTS);
    }
}

/// Reconnect gating: a `Disconnect` on a live session clears the saved
/// parameters, so a read error after it does not reconnect; a read error
/// while parameters are saved does, from attempt 1 with the parameters kept.
pub proof fn lemma_reconnect_gating(m0: MediaLoop, m1: MediaLoop, m2: MediaLoop)
    ensures
        m0.is_connected() && disconnect_step(m0, m1) && read_error_step(m1, m2) ==> {
            &&& m1.params() is None
            &&& !m2.is_reconnecting()
            &&& m2.phase() == Phase::Disconnected
        },
        m0.params() is Some && read_error_step(m0, m1) ==> {
            &&& m1.phase() == Phase::Reconnecting(0)
            &&& m1.params() == m0.params()
            &&& reconnect_attempt(0) == Some((1u32, 1u64))
        },
{
    reveal_with_fuel(pow2, 1);
}

} // verus!
