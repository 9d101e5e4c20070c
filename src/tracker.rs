use crate::packet::{decode, decode_spec, le_value, DecodeError, DecodedReply, ECHO_TTL_EXCEEDED, MIN_REPLY_LEN};
use vstd::prelude::*;

verus! {

/// A difference of two millisecond timestamps, as a sign and a magnitude.
#[derive(Debug, Clone, Copy, PartialEq, Eq, Structural)]
pub struct SignedMillis {
    pub negative: bool,
    pub magnitude: u128,
}

impl SignedMillis {
    /// The number of milliseconds this stands for.
    pub open spec fn value(self) -> int {
        if self.negative {
            -(self.magnitude as int)
        } else {
            self.magnitude as int
        }
    }
}

/// `now_ms - sent_ms`, negative only when the timestamp lies in the future.
pub open spec fn rtt_spec(now_ms: u128, sent_ms: u128) -> SignedMillis {
    if now_ms >= sent_ms {
        SignedMillis { negative: false, magnitude: (now_ms - sent_ms) as u128 }
    } else {
        SignedMillis { negative: true, magnitude: (sent_ms - now_ms) as u128 }
    }
}

/// Round-trip time of a probe stamped `sent_ms` and answered at `now_ms`, not clamped.
pub fn rtt_between(now_ms: u128, sent_ms: u128) -> (r: SignedMillis)
    ensures
        r == rtt_spec(now_ms, sent_ms),
        r.value() == now_ms - sent_ms,
{
    if now_ms >= sent_ms {
        SignedMillis { negative: false, magnitude: now_ms - sent_ms }
    } else {
        SignedMillis { negative: true, magnitude: sent_ms - now_ms }
    }
}

/// What one answered probe tells: its round-trip time, its sequence number, and
/// the counts that the loss percentage `100 * packets_on_wire / total_sent` is
/// taken from.
#[derive(Debug, Clone, Copy, PartialEq, Eq, Structural)]
pub struct EchoReport {
    pub rtt: SignedMillis,
    pub sequence: u16,
    pub packets_on_wire: u64,
    pub total_sent: u64,
}

/// How a decoded reply resolves.
#[derive(Debug, Clone, Copy, PartialEq, Eq, Structural)]
pub enum Response {
    /// A router dropped the probe when its TTL ran out.
    TtlExceeded,
    /// An echo reply, with its measurements.
    Echo(EchoReport),
}

/// The counts of a probe run.
pub struct ProbeCounts {
    /// Probes sent and not yet answered.
    pub on_wire: nat,
    /// Probes sent in all.
    pub sent: nat,
}

/// The counts after one more probe is sent.
pub open spec fn after_send(c: ProbeCounts) -> ProbeCounts {
    ProbeCounts { on_wire: c.on_wire + 1, sent: c.sent + 1 }
}

/// The counts after `n` more probes are sent and none answered.
pub open spec fn after_sends(c: ProbeCounts, n: nat) -> ProbeCounts
    decreases n,
{
    if n == 0 {
        c
    } else {
        after_send(after_sends(c, (n - 1) as nat))
    }
}

/// The counts after a reply resolves one probe. A reply that comes while no
/// probe is in flight (one meant for another process) resolves none.
pub open spec fn after_reply(c: ProbeCounts) -> ProbeCounts {
    if c.on_wire > 0 {
        ProbeCounts { on_wire: (c.on_wire - 1) as nat, sent: c.sent }
    } else {
        c
    }
}

/// The report of an echo reply stamped `timestamp`, answered at `now_ms`,
/// once the counts are `c`.
pub open spec fn echo_report_spec(c: ProbeCounts, sequence: u16, timestamp: u128, now_ms: u128) -> EchoReport {
    EchoReport {
        rtt: rtt_spec(now_ms, timestamp),
        sequence,
        packets_on_wire: c.on_wire as u64,
        total_sent: c.sent as u64,
    }
}

/// The counts and the response once a decoded reply, answered at `now_ms`,
/// is taken in at counts `c`: either kind resolves one probe; only an echo
/// reply is measured.
pub open spec fn reply_outcome(c: ProbeCounts, reply: DecodedReply, now_ms: u128) -> (ProbeCounts, Response) {
    match reply {
        DecodedReply::TtlExceeded => (after_reply(c), Response::TtlExceeded),
        DecodedReply::Echo { sequence, timestamp, .. } => (
            after_reply(c),
            Response::Echo(echo_report_spec(after_reply(c), sequence, timestamp, now_ms)),
        ),
    }
}

/// A probe sent and answered at once, with its own timestamp, has a round-trip
/// time of zero and leaves as many probes in flight as before it was sent.
pub proof fn lemma_immediate_reply(c: ProbeCounts, icmp_type: u8, code: u8, sequence: u16, now_ms: u128)
    ensures
        ({
            let reply = DecodedReply::Echo { icmp_type, code, sequence, timestamp: now_ms };
            let (c2, resp) = reply_outcome(after_send(c), reply, now_ms);
            &&& c2.on_wire == c.on_wire
            &&& c2.sent == c.sent + 1
            &&& resp matches Response::Echo(rep)
            &&& rep.rtt.value() == 0
            &&& !rep.rtt.negative
            &&& rep.sequence == sequence
        }),
{
}

/// A probe sent and then answered at once by a datagram whose timestamp bytes
/// hold the current time has a round-trip time of zero and leaves as many
/// probes in flight as before it was sent.
pub proof fn lemma_immediate_reply_from_buffer(c: ProbeCounts, buf: Seq<u8>, length: nat, now_ms: u128)
    requires
        MIN_REPLY_LEN <= length <= buf.len(),
        buf.len() >= 44,
        buf[20] != ECHO_TTL_EXCEEDED,
        le_value(buf.subrange(28, 44)) == now_ms,
    ensures
        decode_spec(buf, length) matches Ok(d) && ({
            let (c2, resp) = reply_outcome(after_send(c), d, now_ms);
            &&& c2.on_wire == c.on_wire
            &&& c2.sent == c.sent + 1
            &&& resp matches Response::Echo(rep)
            &&& rep.rtt.value() == 0
        }),
{
    assert(crate::packet::timestamp_bytes(buf) =~= buf.subrange(28, 44));
}

/// After `n` probes sent from a fresh start and none answered, every probe
/// sent is still in flight: the loss percentage is 100.
pub proof fn lemma_sends_without_replies(n: nat)
    ensures
        after_sends(ProbeCounts { on_wire: 0, sent: 0 }, n) == (ProbeCounts { on_wire: n, sent: n }),
    decreases n,
{
    if n > 0 {
        lemma_sends_without_replies((n - 1) as nat);
    }
}

/// Counts the probes in flight and turns replies into round-trip times and
/// loss figures.
#[derive(Debug, Clone, Copy)]
pub struct ResponseHandler {
    packets_on_wire: u64,
    maxcount: u64,
}

impl View for ResponseHandler {
    type V = ProbeCounts;

    closed spec fn view(&self) -> ProbeCounts {
        ProbeCounts { on_wire: self.packets_on_wire as nat, sent: self.maxcount as nat }
    }
}

impl ResponseHandler {
    /// No more probes are in flight than were sent.
    #[verifier::type_invariant]
    spec fn inv(self) -> bool {
        self.packets_on_wire <= self.maxcount
    }

    /// A handler before any probe is sent.
    pub fn new() -> (h: Self)
        ensures
            h@ == (ProbeCounts { on_wire: 0, sent: 0 }),
    {
        ResponseHandler { packets_on_wire: 0, maxcount: 0 }
    }

    /// Probes sent and not yet answered.
    pub fn packets_on_wire(&self) -> (r: u64)
        ensures
            r == self@.on_wire,
            r <= self@.sent,
    {
        proof {
            use_type_invariant(self);
        }
        self.packets_on_wire
    }

    /// Probes sent in all.
    pub fn total_sent(&self) -> (r: u64)
        ensures
            r == self@.sent,
    {
        self.maxcount
    }

    /// Records that one more probe was sent.
    pub fn insert_response(&mut self)
        requires
            old(self)@.sent < u64::MAX,
        ensures
            final(self)@ == after_send(old(self)@),
    {
        proof {
            use_type_invariant(&*self);
        }
        *self = ResponseHandler {
            packets_on_wire: self.packets_on_wire + 1,
            maxcount: self.maxcount + 1,
        };
    }

    /// Takes in a decoded reply answered at `now_ms`: it resolves one probe; an
    /// echo reply is measured, a TTL-exceeded message is reported as such.
    pub fn on_reply(&mut self, reply: DecodedReply, now_ms: u128) -> (r: Response)
        ensures
            (final(self)@, r) == reply_outcome(old(self)@, reply, now_ms),
    {
        proof {
            use_type_invariant(&*self);
        }
        if self.packets_on_wire > 0 {
            *self = ResponseHandler {
                packets_on_wire: self.packets_on_wire - 1,
                maxcount: self.maxcount,
            };
        }
        match reply {
            DecodedReply::TtlExceeded => Response::TtlExceeded,
            DecodedReply::Echo { sequence, timestamp, .. } => {
                let rtt = rtt_between(now_ms, timestamp);
                Response::Echo(
                    EchoReport {
                        rtt,
                        sequence,
                        packets_on_wire: self.packets_on_wire,
                        total_sent: self.maxcount,
                    },
                )
            },
        }
    }

    /// Decodes `buffer` (IPv4 header included), of which `length` bytes were
    /// received, and takes in the reply, answered at `now_ms`; a buffer too short to decode
    /// changes nothing.
    pub fn handle_response(&mut self, buffer: &[u8], length: usize, now_ms: u128) -> (r: Result<
        Response,
        DecodeError,
    >)
        ensures
            match decode_spec(buffer@, length as nat) {
                Err(e) => r == Err::<Response, DecodeError>(e) && final(self)@ == old(self)@,
                Ok(d) => r == Ok::<Response, DecodeError>(reply_outcome(old(self)@, d, now_ms).1)
                    && final(self)@ == reply_outcome(old(self)@, d, now_ms).0,
            },
    {
        match decode(buffer, length) {
            Err(e) => Err(e),
            Ok(d) => Ok(self.on_reply(d, now_ms)),
        }
    }
}

} // verus!
