use crate::packet::{decode_spec, DecodeError, EchoRequestPacket, MIN_REQUEST_LEN};
use crate::tracker::{after_send, reply_outcome, Response, ResponseHandler};
use vstd::prelude::*;

verus! {

/// Milliseconds between two probes; the receive timeout is the same.
pub const TX_INTERVAL: u64 = 200;

/// Identifier written into every request of this program.
pub const PROGRAM_ID: u16 = 0xFA9E;

/// Whether a probe is due at `now_ms` when the last one left at `last_tx_ms`.
pub open spec fn send_due_spec(now_ms: u128, last_tx_ms: u128) -> bool {
    now_ms >= last_tx_ms && now_ms - last_tx_ms >= TX_INTERVAL
}

/// Whether at least one interval has passed since the last probe left.
pub fn send_due(now_ms: u128, last_tx_ms: u128) -> (r: bool)
    ensures
        r == send_due_spec(now_ms, last_tx_ms),
{
    now_ms >= last_tx_ms && now_ms - last_tx_ms >= TX_INTERVAL as u128
}

/// How one bounded-wait receive ended.
#[derive(Debug, Clone, Copy, PartialEq, Eq, Structural)]
pub enum RecvEvent {
    /// A datagram of this many bytes arrived.
    Received(usize),
    /// Nothing arrived within the wait.
    TimedOut,
    /// The receive failed otherwise; the socket is taken as broken.
    Failed,
}

/// What the loop does after a receive.
#[derive(Debug, Clone, Copy, PartialEq, Eq, Structural)]
pub enum LoopAction {
    /// Go on to the next iteration without a word.
    Continue,
    /// Report a resolved probe, then go on.
    Report(Response),
    /// Report a datagram that could not be decoded, then go on.
    Malformed(DecodeError),
    /// End the loop.
    Stop,
}

/// The state of a probe run: its identifier, the next sequence number, when
/// the last probe left, and the counts of probes.
pub struct Prober {
    pub identity: u16,
    pub counter: u16,
    pub last_tx_ms: u128,
    pub handler: ResponseHandler,
}

impl Prober {
    /// A run that has sent nothing yet; the first probe is due once an
    /// interval has passed since the epoch.
    pub fn new(identity: u16) -> (p: Self)
        ensures
            p.identity == identity,
            p.counter == 0,
            p.last_tx_ms == 0,
            p.handler@.on_wire == 0,
            p.handler@.sent == 0,
    {
        Prober { identity, counter: 0, last_tx_ms: 0, handler: ResponseHandler::new() }
    }

    /// At `now_ms`, if a probe is due, writes the next request into `buff`,
    /// counts it as sent and moves the clock and sequence number on; returns
    /// whether it did. At most one probe per call, however late the call.
    pub fn poll_send(&mut self, buff: &mut [u8], now_ms: u128) -> (sent: bool)
        requires
            old(buff)@.len() >= MIN_REQUEST_LEN,
            send_due_spec(now_ms, old(self).last_tx_ms) ==> old(self).handler@.sent < u64::MAX,
        ensures
            sent == send_due_spec(now_ms, old(self).last_tx_ms),
            final(self).identity == old(self).identity,
            sent ==> {
                &&& final(buff)@ == (EchoRequestPacket {
                    identity: old(self).identity,
                    seq_cnt: old(self).counter,
                }).wire_bytes(now_ms, old(buff)@.len())
                &&& final(self).counter == (old(self).counter + 1) % 0x10000
                &&& final(self).last_tx_ms == now_ms
                &&& final(self).handler@ == after_send(old(self).handler@)
            },
            !sent ==> {
                &&& final(buff)@ == old(buff)@
                &&& final(self).counter == old(self).counter
                &&& final(self).last_tx_ms == old(self).last_tx_ms
                &&& final(self).handler@ == old(self).handler@
            },
    {
        if !send_due(now_ms, self.last_tx_ms) {
            return false;
        }
        let packet = EchoRequestPacket::new(self.identity, self.counter);
        self.counter = self.counter.wrapping_add(1);
        self.handler.insert_response();
        packet.serialize(buff, now_ms);
        self.last_tx_ms = now_ms;
        true
    }

    /// Decides what follows a receive at `now_ms`: a datagram is decoded from
    /// `buffer` and taken in; a timeout goes on silently; any other failure
    /// stops the loop.
    pub fn on_receive(&mut self, event: RecvEvent, buffer: &[u8], now_ms: u128) -> (r: LoopAction)
        ensures
            final(self).identity == old(self).identity,
            final(self).counter == old(self).counter,
            final(self).last_tx_ms == old(self).last_tx_ms,
            match event {
                RecvEvent::TimedOut => r == LoopAction::Continue && final(self).handler@
                    == old(self).handler@,
                RecvEvent::Failed => r == LoopAction::Stop && final(self).handler@ == old(
                    self,
                ).handler@,
                RecvEvent::Received(length) => match decode_spec(buffer@, length as nat) {
                    Err(e) => r == LoopAction::Malformed(e) && final(self).handler@ == old(
                        self,
                    ).handler@,
                    Ok(d) => r == LoopAction::Report(reply_outcome(old(self).handler@, d, now_ms).1)
                        && final(self).handler@ == reply_outcome(old(self).handler@, d, now_ms).0,
                },
            },
    {
        match event {
            RecvEvent::TimedOut => LoopAction::Continue,
            RecvEvent::Failed => LoopAction::Stop,
            RecvEvent::Received(length) => match self.handler.handle_response(
                buffer,
                length,
                now_ms,
            ) {
                Ok(resp) => LoopAction::Report(resp),
                Err(e) => LoopAction::Malformed(e),
            },
        }
    }
}

} // verus!
