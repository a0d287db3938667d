//! The streaming path: what one delivery of the capture device turns into.
//!
//! In raw mode every delivered chunk becomes the payload of one data packet.
//! In compressed mode the chunk goes through the frame accumulator, each full
//! frame is handed out for compression, and each compressed frame becomes one
//! data packet. Every thousandth data packet is preceded by the header.

use crate::accumulator::{frame_len_of, frame_views, frames_of, leftover, FrameAccumulator};
use crate::clock::{get_timestamp_us, stamp_of};
use crate::codec::{validated, CodecConfig, ConfigError};
use crate::wire::{
    declared_len, encode_header, encode_packet, header_bytes, lemma_packet_round_trip,
    packet_bytes, sample_bytes, samples_to_le_bytes, PacketKind, StreamFormat, MAX_PAYLOAD_LEN,
    PACKET_TYPE_RAW,
};
use vstd::prelude::*;

verus! {

/// The header is sent again before every data packet whose number is a
/// multiple of this.
pub const REANNOUNCE_INTERVAL: u64 = 1000;

/// The longest chunk, in samples, whose raw payload fits one data packet.
pub const MAX_RAW_SAMPLES: usize = 16383;

/// What one delivered chunk asks of the caller: datagrams to send, in order,
/// and frames to compress, in order.
pub struct ChunkOutput {
    pub datagrams: Vec<Vec<u8>>,
    pub frames: Vec<Vec<u32>>,
}

/// The kind of data packet that a stream of this format carries.
pub open spec fn kind_of(format: StreamFormat) -> PacketKind {
    if format.compression_enabled {
        PacketKind::Compressed
    } else {
        PacketKind::Raw
    }
}

/// The packet counter after one more packet; it starts over after `u64::MAX`.
pub open spec fn next_count(count: u64) -> u64 {
    if count == u64::MAX {
        0
    } else {
        (count + 1) as u64
    }
}

/// The datagrams that carry the data packet with the given number: the packet
/// itself, preceded by the header when the number is a multiple of 1000.
pub open spec fn datagrams_for(
    format: StreamFormat,
    number: u64,
    timestamp_us: u64,
    payload: Seq<u8>,
) -> Seq<Seq<u8>> {
    let packet = packet_bytes(kind_of(format), timestamp_us, payload);
    if number % REANNOUNCE_INTERVAL == 0 {
        seq![header_bytes(format), packet]
    } else {
        seq![packet]
    }
}

/// Whether a payload is framed: the clock gave a timestamp and the payload
/// fits the length field.
pub open spec fn is_framed(stamp: Option<u64>, payload: Seq<u8>) -> bool {
    stamp is Some && payload.len() <= MAX_PAYLOAD_LEN
}

/// The datagrams for a payload that arrives when `sent` packets went out
/// before it: none unless the payload is framed.
pub open spec fn framed(
    format: StreamFormat,
    sent: u64,
    stamp: Option<u64>,
    payload: Seq<u8>,
) -> Seq<Seq<u8>> {
    if is_framed(stamp, payload) {
        datagrams_for(format, next_count(sent), stamp->Some_0, payload)
    } else {
        Seq::empty()
    }
}

/// The contents of a list of datagrams.
pub open spec fn byte_views(datagrams: Seq<Vec<u8>>) -> Seq<Seq<u8>> {
    Seq::new(datagrams.len(), |i: int| datagrams[i]@)
}

/// A raw data packet carries tag 0 and declares four bytes for each sample
/// of the chunk it was made from.
pub proof fn lemma_raw_packet_shape(timestamp_us: u64, samples: Seq<u32>)
    requires
        samples.len() <= MAX_RAW_SAMPLES,
    ensures
        packet_bytes(PacketKind::Raw, timestamp_us, sample_bytes(samples))[0] == PACKET_TYPE_RAW,
        declared_len(packet_bytes(PacketKind::Raw, timestamp_us, sample_bytes(samples))) == 4
            * samples.len(),
{
    lemma_packet_round_trip(PacketKind::Raw, timestamp_us, sample_bytes(samples));
}

/// The state that the capture callback owns: the stream's format, the packet
/// counter and, in compressed mode, the frame accumulator.
pub struct Transmitter {
    format: StreamFormat,
    packets_sent: u64,
    accumulator: Option<FrameAccumulator>,
}

impl Transmitter {
    /// The format of the stream.
    pub closed spec fn spec_format(&self) -> StreamFormat {
        self.format
    }

    /// The number of data packets framed so far, modulo 2^64.
    pub closed spec fn spec_packets_sent(&self) -> u64 {
        self.packets_sent
    }

    /// The samples that wait for a frame to fill; none in raw mode.
    pub closed spec fn pending(&self) -> Seq<u32> {
        match self.accumulator {
            Some(acc) => acc.pending(),
            None => Seq::empty(),
        }
    }

    /// In compressed mode there is an accumulator for the frames of the
    /// format, which is one that the compressor accepts; in raw mode none.
    pub closed spec fn wf(&self) -> bool {
        match self.accumulator {
            Some(acc) => {
                &&& self.format.compression_enabled
                &&& validated(self.format.sample_rate, self.format.channel_count) is Ok
                &&& acc.wf()
                &&& acc.spec_frame_len() == frame_len_of(
                    self.format.sample_rate,
                    self.format.channel_count,
                )
            },
            None => !self.format.compression_enabled,
        }
    }

    /// The state at the start of a stream. Fails, with the reason, exactly
    /// when compression is enabled for a format that the compressor rejects.
    pub fn new(format: StreamFormat) -> (made: Result<Transmitter, ConfigError>)
        ensures
            made is Ok <==> !format.compression_enabled || validated(
                format.sample_rate,
                format.channel_count,
            ) is Ok,
            made matches Err(e) ==> validated(format.sample_rate, format.channel_count) == Err::<
                CodecConfig,
                ConfigError,
            >(e),
            made matches Ok(t) ==> {
                &&& t.wf()
                &&& t.spec_format() == format
                &&& t.spec_packets_sent() == 0
                &&& t.pending() == Seq::<u32>::empty()
            },
    {
        if !format.compression_enabled {
            return Ok(Transmitter { format, packets_sent: 0, accumulator: None });
        }
        match CodecConfig::new(format.sample_rate, format.channel_count) {
            Err(e) => Err(e),
            Ok(_) => {
                let accumulator = FrameAccumulator::new(format.sample_rate, format.channel_count);
                Ok(Transmitter { format, packets_sent: 0, accumulator })
            },
        }
    }

    /// The format of the stream.
    pub fn format(&self) -> (format: StreamFormat)
        ensures
            format == self.spec_format(),
    {
        self.format
    }

    /// The number of data packets framed so far, modulo 2^64.
    pub fn packets_sent(&self) -> (sent: u64)
        ensures
            sent == self.spec_packets_sent(),
    {
        self.packets_sent
    }

    /// Frames one payload, given what the clock returned. A payload that is
    /// too long for the length field, or that has no timestamp, is dropped:
    /// no datagram, and the counter stays. Else the counter advances and the
    /// datagrams are the packet, preceded by the header if the packet's
    /// number is a multiple of 1000.
    pub fn frame_payload(&mut self, stamp: Option<u64>, payload: &[u8]) -> (datagrams: Vec<Vec<u8>>)
        requires
            old(self).wf(),
        ensures
            final(self).wf(),
            final(self).spec_format() == old(self).spec_format(),
            final(self).pending() == old(self).pending(),
            final(self).spec_packets_sent() == if is_framed(stamp, payload@) {
                next_count(old(self).spec_packets_sent())
            } else {
                old(self).spec_packets_sent()
            },
            byte_views(datagrams@) == framed(
                old(self).spec_format(),
                old(self).spec_packets_sent(),
                stamp,
                payload@,
            ),
    {
        let mut datagrams: Vec<Vec<u8>> = Vec::new();
        if payload.len() > MAX_PAYLOAD_LEN {
            assert(byte_views(datagrams@) =~= Seq::<Seq<u8>>::empty());
            return datagrams;
        }
        match stamp {
            None => {
                assert(byte_views(datagrams@) =~= Seq::<Seq<u8>>::empty());
            },
            Some(timestamp_us) => {
                let number: u64 = if self.packets_sent == u64::MAX {
                    0
                } else {
                    self.packets_sent + 1
                };
                let kind = if self.format.compression_enabled {
                    PacketKind::Compressed
                } else {
                    PacketKind::Raw
                };
                if number % REANNOUNCE_INTERVAL == 0 {
                    datagrams.push(encode_header(&self.format));
                }
                datagrams.push(encode_packet(kind, timestamp_us, payload));
                self.packets_sent = number;
                assert(byte_views(datagrams@) =~= datagrams_for(
                    self.format,
                    number,
                    timestamp_us,
                    payload@,
                ));
            },
        }
        datagrams
    }

    /// Frames one payload with the current time as its timestamp. Either the
    /// payload is dropped, and nothing changes, or it fits the length field
    /// and is framed with the timestamp that the packet shows.
    pub fn packetize(&mut self, payload: &[u8]) -> (datagrams: Vec<Vec<u8>>)
        requires
            old(self).wf(),
        ensures
            final(self).wf(),
            final(self).spec_format() == old(self).spec_format(),
            final(self).pending() == old(self).pending(),
            payload@.len() > MAX_PAYLOAD_LEN ==> datagrams@.len() == 0,
            datagrams@.len() == 0 ==> final(self).spec_packets_sent() == old(
                self,
            ).spec_packets_sent(),
            datagrams@.len() > 0 ==> {
                &&& payload@.len() <= MAX_PAYLOAD_LEN
                &&& final(self).spec_packets_sent() == next_count(old(self).spec_packets_sent())
                &&& byte_views(datagrams@) == datagrams_for(
                    old(self).spec_format(),
                    final(self).spec_packets_sent(),
                    stamp_of(datagrams@.last()@),
                    payload@,
                )
            },
    {
        let stamp = get_timestamp_us();
        let datagrams = self.frame_payload(stamp, payload);
        proof {
            assert(byte_views(datagrams@).len() == datagrams@.len());
            if is_framed(stamp, payload@) {
                let timestamp_us = stamp->Some_0;
                lemma_packet_round_trip(kind_of(self.format), timestamp_us, payload@);
                assert(byte_views(datagrams@).last() == datagrams@.last()@);
                assert(datagrams@.last()@ == packet_bytes(
                    kind_of(self.format),
                    timestamp_us,
                    payload@,
                ));
                assert(stamp_of(datagrams@.last()@) == timestamp_us);
            }
        }
        datagrams
    }

    /// Takes one chunk from the capture device.
    ///
    /// In compressed mode the chunk goes into the accumulator, and the frames
    /// that are now full come back to be compressed; no datagram is made. In
    /// raw mode the chunk's bytes are framed as one payload with the current
    /// time; a chunk of more than 16383 samples does not fit a packet and is
    /// dropped.
    pub fn on_samples(&mut self, samples: &[u32]) -> (out: ChunkOutput)
        requires
            old(self).wf(),
        ensures
            final(self).wf(),
            final(self).spec_format() == old(self).spec_format(),
            old(self).spec_format().compression_enabled ==> {
                &&& out.datagrams@.len() == 0
                &&& final(self).spec_packets_sent() == old(self).spec_packets_sent()
                &&& frame_views(out.frames@) == frames_of(
                    old(self).pending() + samples@,
                    frame_len_of(
                        old(self).spec_format().sample_rate,
                        old(self).spec_format().channel_count,
                    ),
                )
                &&& final(self).pending() == leftover(
                    old(self).pending() + samples@,
                    frame_len_of(
                        old(self).spec_format().sample_rate,
                        old(self).spec_format().channel_count,
                    ),
                )
            },
            !old(self).spec_format().compression_enabled ==> {
                &&& out.frames@.len() == 0
                &&& final(self).pending() == old(self).pending()
                &&& samples@.len() > MAX_RAW_SAMPLES ==> out.datagrams@.len() == 0
                &&& out.datagrams@.len() == 0 ==> final(self).spec_packets_sent() == old(
                    self,
                ).spec_packets_sent()
                &&& out.datagrams@.len() > 0 ==> {
                    &&& final(self).spec_packets_sent() == next_count(
                        old(self).spec_packets_sent(),
                    )
                    &&& byte_views(out.datagrams@) == datagrams_for(
                        old(self).spec_format(),
                        final(self).spec_packets_sent(),
                        stamp_of(out.datagrams@.last()@),
                        sample_bytes(samples@),
                    )
                }
            },
    {
        match &mut self.accumulator {
            Some(accumulator) => {
                let frames = accumulator.push(samples);
                ChunkOutput { datagrams: Vec::new(), frames }
            },
            None => {
                if samples.len() > MAX_RAW_SAMPLES {
                    ChunkOutput { datagrams: Vec::new(), frames: Vec::new() }
                } else {
                    let payload = samples_to_le_bytes(samples);
                    let datagrams = self.packetize(payload.as_slice());
                    ChunkOutput { datagrams, frames: Vec::new() }
                }
            },
        }
    }
}

/// The datagrams that go out for a run of framed payloads, each given with
/// its timestamp, when `sent` packets went out before the run.
pub open spec fn transcript(format: StreamFormat, sent: u64, units: Seq<(u64, Seq<u8>)>) -> Seq<
    Seq<u8>,
>
    decreases units.len(),
{
    if units.len() == 0 {
        Seq::empty()
    } else {
        transcript(format, sent, units.drop_last()) + datagrams_for(
            format,
            (sent + units.len()) as u64,
            units.last().0,
            units.last().1,
        )
    }
}

/// Where in the transcript of a run the packet of its `j`-th payload
/// stands: behind the earlier packets and behind one header for each packet
/// number up to its own that is a multiple of 1000.
pub open spec fn position(sent: u64, j: int) -> int {
    j + (sent + j + 1) / (REANNOUNCE_INTERVAL as int) - (sent as int) / (REANNOUNCE_INTERVAL as int)
}

/// The header comes back before every thousandth data packet, and nowhere
/// else: in the transcript of a run, each payload's packet stands at its
/// position; the datagram right before it is the header if the packet's
/// number is a multiple of 1000, and else the packet of the payload before
/// it, or nothing.
pub proof fn lemma_reannouncement(
    format: StreamFormat,
    sent: u64,
    units: Seq<(u64, Seq<u8>)>,
    j: int,
)
    requires
        sent + units.len() <= u64::MAX,
        0 <= j < units.len(),
    ensures
        transcript(format, sent, units).len() == position(sent, units.len() - 1) + 1,
        0 <= position(sent, j) < transcript(format, sent, units).len(),
        transcript(format, sent, units)[position(sent, j)] == packet_bytes(
            kind_of(format),
            units[j].0,
            units[j].1,
        ),
        (sent + j + 1) % (REANNOUNCE_INTERVAL as int) == 0 ==> position(sent, j) >= 1
            && transcript(format, sent, units)[position(sent, j) - 1] == header_bytes(format),
        (sent + j + 1) % (REANNOUNCE_INTERVAL as int) != 0 ==> position(sent, j) == if j == 0 {
            0
        } else {
            position(sent, j - 1) + 1
        },
    decreases units.len(),
{
    let earlier = units.drop_last();
    let last = units.len() - 1;
    let head = transcript(format, sent, earlier);
    let tail = datagrams_for(format, (sent + units.len()) as u64, units.last().0, units.last().1);
    assert(transcript(format, sent, units) == head + tail);
    if last > 0 {
        lemma_reannouncement(format, sent, earlier, if j < last {
            j
        } else {
            last - 1
        });
        assert(head.len() == position(sent, last - 1) + 1);
    } else {
        assert(head.len() == 0);
    }
    if j < last {
        assert(earlier[j] == units[j]);
    }
}

} // verus!
