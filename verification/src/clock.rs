//! Timestamp source: the system clock, read in microseconds since the Unix
//! epoch, and the packets that are stamped with it.

use crate::wire::{
    declared_len, encode_packet, le_value, packet_bytes, parse_packet, PacketKind, PacketView,
    MAX_PAYLOAD_LEN, PACKET_OVERHEAD,
};
use vstd::prelude::*;

verus! {

/// `std::time::SystemTime`, a reading of the system clock. Opaque here.
#[verifier::external_type_specification]
#[verifier::external_body]
pub struct ExSystemTime(std::time::SystemTime);

/// `std::time::SystemTimeError`, the error of a clock comparison. Opaque here.
#[verifier::external_type_specification]
#[verifier::external_body]
pub struct ExSystemTimeError(std::time::SystemTimeError);

/// `SystemTime::now` reads the clock. Nothing is claimed of the reading.
pub assume_specification[ std::time::SystemTime::now ]() -> (now: std::time::SystemTime)
;

/// `SystemTime::duration_since` gives the time elapsed since `earlier`, or an
/// error when `earlier` is the later of the two. Nothing is claimed of which.
pub assume_specification[ std::time::SystemTime::duration_since ](
    this: &std::time::SystemTime,
    earlier: std::time::SystemTime,
) -> (elapsed: Result<std::time::Duration, std::time::SystemTimeError>)
;

/// `Duration::as_micros` gives a duration in whole microseconds. Nothing is
/// claimed of the number.
pub assume_specification[ std::time::Duration::as_micros ](this: &std::time::Duration) -> (micros:
    u128)
;

/// `std::time::UNIX_EPOCH`, the constant that stands for 1970-01-01 00:00:00
/// UTC. Nothing is claimed of it.
#[verifier::external_body]
fn unix_epoch() -> (epoch: std::time::SystemTime) {
    std::time::UNIX_EPOCH
}

/// The timestamp that a data packet carries.
pub open spec fn stamp_of(bytes: Seq<u8>) -> u64 {
    le_value(bytes.subrange(1, 9)) as u64
}

/// Microseconds since the Unix epoch, reduced to 64 bits; `None` when the
/// clock reads a time before the epoch.
pub fn get_timestamp_us() -> (stamp: Option<u64>) {
    let now = std::time::SystemTime::now();
    match now.duration_since(unix_epoch()) {
        Ok(elapsed) => {
            let micros: u128 = elapsed.as_micros();
            Some(reduce_micros(micros))
        },
        Err(_) => None,
    }
}

/// Builds a data packet stamped with the current time. Gives `None`, and no
/// packet, when the clock reads a time before the epoch.
pub fn build_packet(kind: PacketKind, data: &[u8]) -> (packet: Option<Vec<u8>>)
    requires
        data@.len() <= MAX_PAYLOAD_LEN,
    ensures
        packet matches Some(bytes) ==> {
            &&& bytes@ == packet_bytes(kind, stamp_of(bytes@), data@)
            &&& bytes@.len() == PACKET_OVERHEAD + data@.len()
            &&& declared_len(bytes@) == data@.len()
            &&& parse_packet(bytes@) == Some(
                PacketView { kind, timestamp_us: stamp_of(bytes@), payload: data@ },
            )
        },
{
    match get_timestamp_us() {
        Some(stamp) => Some(encode_packet(kind, stamp, data)),
        None => None,
    }
}

/// Reduces a count of microseconds to the 64 bits of a timestamp: the count
/// modulo 2^64, which is the count itself for every time in the coming half
/// million years.
pub fn reduce_micros(micros: u128) -> (stamp: u64)
    ensures
        stamp == micros % 0x1_0000_0000_0000_0000,
        micros <= u64::MAX ==> stamp == micros,
{
    let stamp: u64 = #[verifier::truncate] (micros as u64);
    assert(stamp == micros % 0x1_0000_0000_0000_0000) by (bit_vector)
        requires
            stamp == micros as u64,
    ;
    stamp
}

} // verus!
