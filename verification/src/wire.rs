//! Wire format: the stream header and the data packet, as byte sequences.
//!
//! All multi-byte integers are little-endian. Encoding is executable; decoding
//! is given as specification functions that a receiver has to agree with.

use vstd::prelude::*;

verus! {

/// Length in bytes of a serialized header.
pub const HEADER_LEN: usize = 12;

/// Bytes that precede the payload in a data packet.
pub const PACKET_OVERHEAD: usize = 11;

/// Largest payload that the two-byte length field can declare.
pub const MAX_PAYLOAD_LEN: usize = 65535;

/// Version byte carried by every header.
pub const PROTOCOL_VERSION: u8 = 1;

/// Type tag of a packet that carries uncompressed samples.
pub const PACKET_TYPE_RAW: u8 = 0;

/// Type tag of a packet that carries one compressed frame.
pub const PACKET_TYPE_COMPRESSED: u8 = 1;

/// The format of a stream, fixed when the capture device is opened.
#[derive(Clone, Copy, Debug, PartialEq, Eq, Structural)]
pub struct StreamFormat {
    pub sample_rate: u32,
    pub channel_count: u16,
    pub compression_enabled: bool,
}

/// What the payload of a data packet holds.
#[derive(Clone, Copy, Debug, PartialEq, Eq, Structural)]
pub enum PacketKind {
    Raw,
    Compressed,
}

/// A decoded data packet, as a receiver sees it.
pub struct PacketView {
    pub kind: PacketKind,
    pub timestamp_us: u64,
    pub payload: Seq<u8>,
}

/// The four magic bytes that open a header: ASCII "SYNC".
pub open spec fn header_magic() -> Seq<u8> {
    seq![0x53u8, 0x59u8, 0x4eu8, 0x43u8]
}

/// The `n` low-order bytes of `x`, least significant first.
pub open spec fn le_bytes(x: nat, n: nat) -> Seq<u8>
    decreases n,
{
    if n == 0 {
        Seq::empty()
    } else {
        seq![(x % 256) as u8] + le_bytes(x / 256, (n - 1) as nat)
    }
}

/// The number that a little-endian byte sequence stands for.
pub open spec fn le_value(bytes: Seq<u8>) -> nat
    decreases bytes.len(),
{
    if bytes.len() == 0 {
        0
    } else {
        bytes[0] as nat + 256 * le_value(bytes.drop_first())
    }
}

/// 256 to the power `n`: the number of values that `n` bytes can hold.
pub open spec fn byte_range(n: nat) -> nat
    decreases n,
{
    if n == 0 {
        1
    } else {
        256 * byte_range((n - 1) as nat)
    }
}

/// `le_bytes` yields exactly `n` bytes.
pub proof fn lemma_le_bytes_len(x: nat, n: nat)
    ensures
        le_bytes(x, n).len() == n,
    decreases n,
{
    if n > 0 {
        lemma_le_bytes_len(x / 256, (n - 1) as nat);
    }
}

/// Decoding undoes encoding for every number that fits in `n` bytes.
pub proof fn lemma_le_round_trip(x: nat, n: nat)
    requires
        x < byte_range(n),
    ensures
        le_value(le_bytes(x, n)) == x,
    decreases n,
{
    if n > 0 {
        let rest = le_bytes(x / 256, (n - 1) as nat);
        let all = le_bytes(x, n);
        assert(all.drop_first() =~= rest);
        lemma_le_round_trip(x / 256, (n - 1) as nat);
    }
}

impl PacketKind {
    /// The tag byte that stands for this kind on the wire.
    pub open spec fn spec_tag(self) -> u8 {
        match self {
            PacketKind::Raw => PACKET_TYPE_RAW,
            PacketKind::Compressed => PACKET_TYPE_COMPRESSED,
        }
    }

    #[verifier::when_used_as_spec(spec_tag)]
    pub fn tag(self) -> (t: u8)
        ensures
            t == self.spec_tag(),
    {
        match self {
            PacketKind::Raw => PACKET_TYPE_RAW,
            PacketKind::Compressed => PACKET_TYPE_COMPRESSED,
        }
    }
}

/// Appends the `n` low-order bytes of `x` to `out`, least significant first.
pub fn push_le(out: &mut Vec<u8>, x: u64, n: usize)
    ensures
        final(out)@ == old(out)@ + le_bytes(x as nat, n as nat),
{
    let mut rest: u64 = x;
    let mut i: usize = 0;
    while i < n
        invariant
            i <= n,
            out@ + le_bytes(rest as nat, (n - i) as nat) == old(out)@ + le_bytes(x as nat, n as nat),
        decreases n - i,
    {
        let ghost before = out@;
        out.push((rest % 256) as u8);
        assert(out@ + le_bytes((rest / 256) as nat, (n - i - 1) as nat) =~= before + le_bytes(
            rest as nat,
            (n - i) as nat,
        ));
        rest = rest / 256;
        i = i + 1;
    }
    assert(le_bytes(rest as nat, 0) =~= Seq::empty());
    assert(out@ + Seq::<u8>::empty() =~= out@);
}

/// The serialized header of a stream: magic, version, sample rate (4 bytes),
/// channel count (2 bytes) and the compression flag (0 or 1).
pub open spec fn header_bytes(format: StreamFormat) -> Seq<u8> {
    header_magic() + seq![PROTOCOL_VERSION] + le_bytes(format.sample_rate as nat, 4) + le_bytes(
        format.channel_count as nat,
        2,
    ) + seq![if format.compression_enabled { 1u8 } else { 0u8 }]
}

/// What a receiver reads out of a header datagram: the announced format, if
/// the length, the magic, the version and the flag are as the format demands.
pub open spec fn parse_header(bytes: Seq<u8>) -> Option<StreamFormat> {
    if bytes.len() == HEADER_LEN && bytes.subrange(0, 4) == header_magic() && bytes[4]
        == PROTOCOL_VERSION && bytes[11] <= 1 {
        Some(
            StreamFormat {
                sample_rate: le_value(bytes.subrange(5, 9)) as u32,
                channel_count: le_value(bytes.subrange(9, 11)) as u16,
                compression_enabled: bytes[11] == 1,
            },
        )
    } else {
        None
    }
}

/// The serialized data packet: type tag, timestamp (8 bytes), payload length
/// (2 bytes), payload.
pub open spec fn packet_bytes(kind: PacketKind, timestamp_us: u64, payload: Seq<u8>) -> Seq<u8> {
    seq![kind.spec_tag()] + le_bytes(timestamp_us as nat, 8) + le_bytes(payload.len(), 2) + payload
}

/// The payload length that a data packet declares in its header.
pub open spec fn declared_len(bytes: Seq<u8>) -> nat {
    le_value(bytes.subrange(9, 11))
}

/// What a receiver reads out of a data datagram, if the tag is known and the
/// declared length is the length of what follows.
pub open spec fn parse_packet(bytes: Seq<u8>) -> Option<PacketView> {
    if bytes.len() >= PACKET_OVERHEAD && bytes[0] <= 1 && bytes.len() == PACKET_OVERHEAD
        + declared_len(bytes) {
        Some(
            PacketView {
                kind: if bytes[0] == PACKET_TYPE_RAW {
                    PacketKind::Raw
                } else {
                    PacketKind::Compressed
                },
                timestamp_us: le_value(bytes.subrange(1, 9)) as u64,
                payload: bytes.subrange(PACKET_OVERHEAD as int, bytes.len() as int),
            },
        )
    } else {
        None
    }
}

/// The raw-mode payload of a chunk of samples: each sample's 32-bit pattern,
/// four bytes least significant first, in the order of the samples.
pub open spec fn sample_bytes(samples: Seq<u32>) -> Seq<u8> {
    Seq::new(4 * samples.len(), |j: int| le_bytes(samples[j / 4] as nat, 4)[j % 4])
}

/// A header decodes to the format it was made from.
pub proof fn lemma_header_round_trip(format: StreamFormat)
    ensures
        header_bytes(format).len() == HEADER_LEN,
        parse_header(header_bytes(format)) == Some(format),
{
    let bytes = header_bytes(format);
    let rate = le_bytes(format.sample_rate as nat, 4);
    let channels = le_bytes(format.channel_count as nat, 2);
    lemma_le_bytes_len(format.sample_rate as nat, 4);
    lemma_le_bytes_len(format.channel_count as nat, 2);
    assert(bytes.subrange(0, 4) =~= header_magic());
    assert(bytes.subrange(5, 9) =~= rate);
    assert(bytes.subrange(9, 11) =~= channels);
    assert(byte_range(4) == 0x1_0000_0000) by {
        reveal_with_fuel(byte_range, 5);
    }
    assert(byte_range(2) == 0x1_0000) by {
        reveal_with_fuel(byte_range, 3);
    }
    lemma_le_round_trip(format.sample_rate as nat, 4);
    lemma_le_round_trip(format.channel_count as nat, 2);
}

/// A data packet decodes to the kind, timestamp and payload it was made from,
/// and declares the payload's length, as long as that length fits the field.
pub proof fn lemma_packet_round_trip(kind: PacketKind, timestamp_us: u64, payload: Seq<u8>)
    requires
        payload.len() <= MAX_PAYLOAD_LEN,
    ensures
        packet_bytes(kind, timestamp_us, payload).len() == PACKET_OVERHEAD + payload.len(),
        declared_len(packet_bytes(kind, timestamp_us, payload)) == payload.len(),
        parse_packet(packet_bytes(kind, timestamp_us, payload)) == Some(
            PacketView { kind, timestamp_us, payload },
        ),
{
    let bytes = packet_bytes(kind, timestamp_us, payload);
    let stamp = le_bytes(timestamp_us as nat, 8);
    let len = le_bytes(payload.len(), 2);
    lemma_le_bytes_len(timestamp_us as nat, 8);
    lemma_le_bytes_len(payload.len(), 2);
    assert(bytes.subrange(1, 9) =~= stamp);
    assert(bytes.subrange(9, 11) =~= len);
    assert(bytes.subrange(PACKET_OVERHEAD as int, bytes.len() as int) =~= payload);
    assert(byte_range(8) == 0x1_0000_0000_0000_0000) by {
        reveal_with_fuel(byte_range, 9);
    }
    assert(byte_range(2) == 0x1_0000) by {
        reveal_with_fuel(byte_range, 3);
    }
    lemma_le_round_trip(timestamp_us as nat, 8);
    lemma_le_round_trip(payload.len(), 2);
}

/// Serializes the header that announces `format`.
pub fn encode_header(format: &StreamFormat) -> (out: Vec<u8>)
    ensures
        out@ == header_bytes(*format),
        out@.len() == HEADER_LEN,
        parse_header(out@) == Some(*format),
{
    let mut out: Vec<u8> = Vec::with_capacity(HEADER_LEN);
    out.push(0x53u8);
    out.push(0x59u8);
    out.push(0x4eu8);
    out.push(0x43u8);
    out.push(PROTOCOL_VERSION);
    push_le(&mut out, format.sample_rate as u64, 4);
    push_le(&mut out, format.channel_count as u64, 2);
    out.push(if format.compression_enabled { 1u8 } else { 0u8 });
    proof {
        assert(out@ =~= header_bytes(*format));
        lemma_header_round_trip(*format);
    }
    out
}

/// Serializes one data packet. The payload must fit the two-byte length field.
pub fn encode_packet(kind: PacketKind, timestamp_us: u64, payload: &[u8]) -> (out: Vec<u8>)
    requires
        payload@.len() <= MAX_PAYLOAD_LEN,
    ensures
        out@ == packet_bytes(kind, timestamp_us, payload@),
        out@.len() == PACKET_OVERHEAD + payload@.len(),
        declared_len(out@) == payload@.len(),
        out@.subrange(PACKET_OVERHEAD as int, out@.len() as int) == payload@,
        parse_packet(out@) == Some(PacketView { kind, timestamp_us, payload: payload@ }),
{
    let mut out: Vec<u8> = Vec::with_capacity(PACKET_OVERHEAD + payload.len());
    out.push(kind.tag());
    push_le(&mut out, timestamp_us, 8);
    push_le(&mut out, payload.len() as u64, 2);
    let ghost head = out@;
    let mut i: usize = 0;
    while i < payload.len()
        invariant
            i <= payload@.len(),
            out@ == head + payload@.subrange(0, i as int),
        decreases payload@.len() - i,
    {
        out.push(payload[i]);
        i = i + 1;
    }
    proof {
        assert(payload@.subrange(0, i as int) =~= payload@);
        assert(out@ =~= packet_bytes(kind, timestamp_us, payload@));
        lemma_packet_round_trip(kind, timestamp_us, payload@);
    }
    out
}

/// Serializes a chunk of samples, given as 32-bit patterns, into the raw-mode
/// payload.
pub fn samples_to_le_bytes(samples: &[u32]) -> (out: Vec<u8>)
    requires
        4 * samples@.len() <= usize::MAX,
    ensures
        out@ == sample_bytes(samples@),
        out@.len() == 4 * samples@.len(),
{
    let mut out: Vec<u8> = Vec::with_capacity(4 * samples.len());
    let mut i: usize = 0;
    while i < samples.len()
        invariant
            i <= samples@.len(),
            out@ == sample_bytes(samples@.subrange(0, i as int)),
        decreases samples@.len() - i,
    {
        let ghost before = out@;
        push_le(&mut out, samples[i] as u64, 4);
        proof {
            lemma_le_bytes_len(samples@[i as int] as nat, 4);
            assert(out@ =~= sample_bytes(samples@.subrange(0, i + 1)));
        }
        i = i + 1;
    }
    assert(samples@.subrange(0, i as int) =~= samples@);
    out
}

} // verus!
