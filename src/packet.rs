use crate::checksum::{calc_checksum, with_checksum, zero_checksum_field};
use vstd::prelude::*;

verus! {

/// ICMP type of an Echo Request.
pub const ECHO_REQUEST_TYPE: u8 = 8;

/// ICMP code of an Echo Request.
pub const ECHO_REQUEST_CODE: u8 = 0;

/// ICMP type of a Time Exceeded message (the TTL ran out on the way).
pub const ECHO_TTL_EXCEEDED: u8 = 11;

/// Length of the IPv4 header that a raw socket hands over before the ICMP message.
pub const IP_HEADER_LEN: usize = 20;

/// Smallest received length whose fixed offsets can be read.
pub const MIN_REPLY_LEN: usize = 32;

/// Smallest buffer that an echo request is written into.
pub const MIN_REQUEST_LEN: usize = 24;

/// `256` to the power `n`.
pub open spec fn pow256(n: nat) -> nat
    decreases n,
{
    if n == 0 {
        1
    } else {
        256 * pow256((n - 1) as nat)
    }
}

/// The `n` low bytes of `t`, least significant first.
pub open spec fn le_bytes(t: nat, n: nat) -> Seq<u8>
    decreases n,
{
    if n == 0 {
        seq![]
    } else {
        seq![(t % 256) as u8] + le_bytes(t / 256, (n - 1) as nat)
    }
}

/// The number that `s` holds, least significant byte first.
pub open spec fn le_value(s: Seq<u8>) -> nat
    decreases s.len(),
{
    if s.len() == 0 {
        0
    } else {
        s[0] as nat + 256 * le_value(s.drop_first())
    }
}

/// An echo request before its checksum: type, code, a zero checksum field, the
/// identifier and sequence big-endian, the timestamp little-endian over 16
/// bytes, and zeros up to `len`.
pub open spec fn echo_request_bytes(identity: u16, seq_cnt: u16, now_ms: u128, len: nat) -> Seq<u8> {
    seq![
        ECHO_REQUEST_TYPE,
        ECHO_REQUEST_CODE,
        0u8,
        0u8,
        (identity / 256) as u8,
        (identity % 256) as u8,
        (seq_cnt / 256) as u8,
        (seq_cnt % 256) as u8,
    ] + le_bytes(now_ms as nat, 16) + Seq::new((len - 24) as nat, |i: int| 0u8)
}

/// `le_bytes` gives exactly `n` bytes.
pub proof fn lemma_le_bytes_len(t: nat, n: nat)
    ensures
        le_bytes(t, n).len() == n,
    decreases n,
{
    if n > 0 {
        lemma_le_bytes_len(t / 256, (n - 1) as nat);
    }
}

/// Identity of an echo request: the identifier of this process and a sequence number.
pub struct EchoRequestPacket {
    pub identity: u16,
    pub seq_cnt: u16,
}

impl EchoRequestPacket {
    /// The bytes of this request sent at `now_ms` in a buffer of `len` bytes.
    pub open spec fn wire_bytes(self, now_ms: u128, len: nat) -> Seq<u8> {
        with_checksum(echo_request_bytes(self.identity, self.seq_cnt, now_ms, len))
    }

    /// A request with the given identifier and sequence number.
    pub fn new(identity: u16, seq_cnt: u16) -> (p: Self)
        ensures
            p.identity == identity,
            p.seq_cnt == seq_cnt,
    {
        EchoRequestPacket { identity, seq_cnt }
    }

    /// Writes this request, stamped with `now_ms` (milliseconds since the Unix
    /// epoch), over the whole of `buff`, checksum included.
    pub fn serialize(&self, buff: &mut [u8], now_ms: u128)
        requires
            old(buff)@.len() >= MIN_REQUEST_LEN,
        ensures
            final(buff)@ == self.wire_bytes(now_ms, old(buff)@.len()),
    {
        let n = buff.len();
        let mut i: usize = 0;
        while i < n
            invariant
                n == buff@.len(),
                i <= n,
                forall|j: int| 0 <= j < i ==> buff@[j] == 0,
            decreases n - i,
        {
            buff[i] = 0;
            i = i + 1;
        }
        buff[0] = ECHO_REQUEST_TYPE;
        buff[1] = ECHO_REQUEST_CODE;
        buff[4] = (self.identity / 256) as u8;
        buff[5] = (self.identity % 256) as u8;
        buff[6] = (self.seq_cnt / 256) as u8;
        buff[7] = (self.seq_cnt % 256) as u8;
        let ghost head = buff@.subrange(0, 8);
        assert(head =~= seq![
            ECHO_REQUEST_TYPE,
            ECHO_REQUEST_CODE,
            0u8,
            0u8,
            (self.identity / 256) as u8,
            (self.identity % 256) as u8,
            (self.seq_cnt / 256) as u8,
            (self.seq_cnt % 256) as u8,
        ]);
        let mut t: u128 = now_ms;
        let mut k: usize = 0;
        while k < 16
            invariant
                n == buff@.len(),
                n >= 24,
                k <= 16,
                buff@.subrange(0, 8) == head,
                buff@.subrange(8, 8 + k as int) + le_bytes(t as nat, (16 - k) as nat) == le_bytes(
                    now_ms as nat,
                    16,
                ),
                forall|j: int| 24 <= j < n ==> buff@[j] == 0,
            decreases 16 - k,
        {
            let ghost before = buff@.subrange(8, 8 + k as int);
            let b = (t % 256) as u8;
            buff[8 + k] = b;
            assert(buff@.subrange(0, 8) =~= head);
            assert(buff@.subrange(8, 8 + k + 1) =~= before.push(b));
            assert(le_bytes(t as nat, (16 - k) as nat) == seq![b] + le_bytes(
                (t / 256) as nat,
                (16 - k - 1) as nat,
            ));
            assert(before.push(b) + le_bytes((t / 256) as nat, (16 - k - 1) as nat) =~= before + (
            seq![b] + le_bytes((t / 256) as nat, (16 - k - 1) as nat)));
            t = t / 256;
            k = k + 1;
        }
        assert(le_bytes(t as nat, 0) =~= Seq::<u8>::empty());
        assert(buff@.subrange(8, 24) + Seq::<u8>::empty() =~= buff@.subrange(8, 24));
        proof {
            lemma_le_bytes_len(now_ms as nat, 16);
        }
        assert(buff@ =~= buff@.subrange(0, 8) + buff@.subrange(8, 24) + Seq::new(
            (n - 24) as nat,
            |i: int| 0u8,
        ));
        assert(buff@ =~= echo_request_bytes(self.identity, self.seq_cnt, now_ms, n as nat));
        calc_checksum(buff);
    }
}

/// Why a received buffer could not be decoded.
#[derive(Debug, Clone, Copy, PartialEq, Eq, Structural)]
pub enum DecodeError {
    /// Fewer bytes than the fixed offsets of a reply need.
    IncompleteHeader,
}

/// What a received datagram (IPv4 header included) says.
#[derive(Debug, Clone, Copy, PartialEq, Eq, Structural)]
pub enum DecodedReply {
    /// The probe's TTL ran out on the way; no timestamp is read.
    TtlExceeded,
    /// A reply carrying the sequence number and timestamp of a probe.
    Echo { icmp_type: u8, code: u8, sequence: u16, timestamp: u128 },
}

/// Byte `i` of `s`, or zero past its end.
pub open spec fn byte_or_zero(s: Seq<u8>, i: int) -> u8 {
    if 0 <= i < s.len() {
        s[i]
    } else {
        0
    }
}

/// The 16 timestamp bytes of a datagram, zero past the end of the buffer.
pub open spec fn timestamp_bytes(buf: Seq<u8>) -> Seq<u8> {
    Seq::new(16, |k: int| byte_or_zero(buf, 28 + k))
}

/// How many received bytes can be read: the reported length, but no more than
/// the buffer holds.
pub open spec fn readable_len(buf: Seq<u8>, length: nat) -> nat {
    if length <= buf.len() {
        length
    } else {
        buf.len()
    }
}

/// What `buf`, of which `length` bytes were received, decodes to. Once the
/// fixed offsets were received, all 16 timestamp bytes are read from the buffer.
pub open spec fn decode_spec(buf: Seq<u8>, length: nat) -> Result<DecodedReply, DecodeError> {
    if readable_len(buf, length) < MIN_REPLY_LEN {
        Err(DecodeError::IncompleteHeader)
    } else if buf[20] == ECHO_TTL_EXCEEDED {
        Ok(DecodedReply::TtlExceeded)
    } else {
        Ok(
            DecodedReply::Echo {
                icmp_type: buf[20],
                code: buf[21],
                sequence: (buf[26] as nat * 256 + buf[27] as nat) as u16,
                timestamp: le_value(timestamp_bytes(buf)) as u128,
            },
        )
    }
}

/// A number read from `s` is below `256` to the power of its length.
pub proof fn lemma_le_value_bound(s: Seq<u8>)
    ensures
        le_value(s) < pow256(s.len()),
    decreases s.len(),
{
    if s.len() > 0 {
        lemma_le_value_bound(s.drop_first());
    }
}

/// Reading back the `n` low bytes of `t` gives `t` when it fits.
pub proof fn lemma_le_round_trip(t: nat, n: nat)
    requires
        t < pow256(n),
    ensures
        le_value(le_bytes(t, n)) == t,
    decreases n,
{
    if n > 0 {
        let rest = le_bytes(t / 256, (n - 1) as nat);
        assert((seq![(t % 256) as u8] + rest).drop_first() =~= rest);
        assert(t / 256 < pow256((n - 1) as nat));
        lemma_le_round_trip(t / 256, (n - 1) as nat);
    }
}

/// Decodes `buffer`, a datagram that starts with its IPv4 header and of
/// which `length` bytes were received. Timestamp bytes past the end of the
/// buffer read as zero.
pub fn decode(buffer: &[u8], length: usize) -> (r: Result<DecodedReply, DecodeError>)
    ensures
        r == decode_spec(buffer@, length as nat),
{
    if length < MIN_REPLY_LEN || buffer.len() < MIN_REPLY_LEN {
        return Err(DecodeError::IncompleteHeader);
    }
    if buffer[20] == ECHO_TTL_EXCEEDED {
        return Ok(DecodedReply::TtlExceeded);
    }
    let ghost p = timestamp_bytes(buffer@);
    assert(pow256(15) == 0x1000000000000000000000000000000) by {
        reveal_with_fuel(pow256, 16);
    }
    let mut ts: u128 = 0;
    let mut k: usize = 16;
    while k > 0
        invariant
            k <= 16,
            p == timestamp_bytes(buffer@),
            ts as nat == le_value(p.subrange(k as int, 16)),
            pow256(15) == 0x1000000000000000000000000000000,
        decreases k,
    {
        proof {
            lemma_le_value_bound(p.subrange(k as int, 16));
            lemma_pow256_mono((16 - k) as nat, 15);
        }
        k = k - 1;
        let b: u8 = if 28 + k < buffer.len() {
            buffer[28 + k]
        } else {
            0
        };
        assert(b == p[k as int]);
        assert(p.subrange(k as int, 16).drop_first() =~= p.subrange(k + 1, 16));
        ts = ts * 256 + b as u128;
    }
    assert(p.subrange(0, 16) =~= p);
    let sequence: u16 = buffer[26] as u16 * 256 + buffer[27] as u16;
    Ok(DecodedReply::Echo { icmp_type: buffer[20], code: buffer[21], sequence, timestamp: ts })
}

proof fn lemma_pow256_mono(a: nat, b: nat)
    requires
        a <= b,
    ensures
        pow256(a) <= pow256(b),
    decreases b,
{
    if a < b {
        lemma_pow256_mono(a, (b - 1) as nat);
    }
}

/// An encoded request, read back behind any 20-byte IPv4 header, gives its own
/// sequence number and timestamp.
pub proof fn lemma_decode_recovers_request(p: EchoRequestPacket, now_ms: u128, len: nat, header: Seq<u8>)
    requires
        len >= MIN_REQUEST_LEN,
        header.len() == IP_HEADER_LEN,
    ensures
        decode_spec(header + p.wire_bytes(now_ms, len), (IP_HEADER_LEN + len) as nat) == Ok::<
            DecodedReply,
            DecodeError,
        >(
            DecodedReply::Echo {
                icmp_type: ECHO_REQUEST_TYPE,
                code: ECHO_REQUEST_CODE,
                sequence: p.seq_cnt,
                timestamp: now_ms,
            },
        ),
{
    let raw = echo_request_bytes(p.identity, p.seq_cnt, now_ms, len);
    lemma_le_bytes_len(now_ms as nat, 16);
    let w = p.wire_bytes(now_ms, len);
    let buf = header + w;
    assert(w == with_checksum(raw));
    assert(zero_checksum_field(raw) =~= raw);
    assert(buf[20] == ECHO_REQUEST_TYPE);
    assert(buf[26] == (p.seq_cnt / 256) as u8);
    assert(buf[27] == (p.seq_cnt % 256) as u8);
    assert(timestamp_bytes(buf) =~= le_bytes(now_ms as nat, 16));
    assert(pow256(16) == 0x100000000000000000000000000000000) by {
        reveal_with_fuel(pow256, 17);
    }
    lemma_le_round_trip(now_ms as nat, 16);
}

} // verus!
