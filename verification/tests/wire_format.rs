use syncwave_core::wire::{
    encode_header, encode_packet, push_le, samples_to_le_bytes, PacketKind, StreamFormat,
    HEADER_LEN, MAX_PAYLOAD_LEN, PACKET_OVERHEAD, PACKET_TYPE_COMPRESSED, PACKET_TYPE_RAW,
    PROTOCOL_VERSION,
};

fn decode_header(bytes: &[u8]) -> Option<StreamFormat> {
    if bytes.len() != 12 || &bytes[0..4] != b"SYNC" || bytes[4] != 1 || bytes[11] > 1 {
        return None;
    }
    Some(StreamFormat {
        sample_rate: u32::from_le_bytes([bytes[5], bytes[6], bytes[7], bytes[8]]),
        channel_count: u16::from_le_bytes([bytes[9], bytes[10]]),
        compression_enabled: bytes[11] == 1,
    })
}

#[test]
fn header_has_magic_version_and_little_endian_fields() {
    let format = StreamFormat { sample_rate: 48000, channel_count: 2, compression_enabled: true };
    let header = encode_header(&format);
    assert_eq!(
        header,
        vec![0x53, 0x59, 0x4e, 0x43, 0x01, 0x80, 0xbb, 0x00, 0x00, 0x02, 0x00, 0x01]
    );
    assert_eq!(&header[0..4], b"SYNC");
    assert_eq!(header.len(), HEADER_LEN);
    assert_eq!(header[4], PROTOCOL_VERSION);
}

#[test]
fn header_of_raw_stream_has_flag_zero() {
    let format = StreamFormat { sample_rate: 44100, channel_count: 6, compression_enabled: false };
    let header = encode_header(&format);
    assert_eq!(
        header,
        vec![0x53, 0x59, 0x4e, 0x43, 0x01, 0x44, 0xac, 0x00, 0x00, 0x06, 0x00, 0x00]
    );
}

#[test]
fn header_round_trips_for_every_supported_format() {
    for &sample_rate in &[8000u32, 12000, 16000, 24000, 48000] {
        for &channel_count in &[1u16, 2] {
            for &compression_enabled in &[false, true] {
                let format = StreamFormat { sample_rate, channel_count, compression_enabled };
                let header = encode_header(&format);
                assert_eq!(header.len(), 12);
                assert_eq!(decode_header(&header), Some(format));
            }
        }
    }
}

#[test]
fn header_round_trips_at_the_limits_of_its_fields() {
    for &format in &[
        StreamFormat { sample_rate: 0, channel_count: 0, compression_enabled: false },
        StreamFormat { sample_rate: u32::MAX, channel_count: u16::MAX, compression_enabled: true },
        StreamFormat { sample_rate: 0x0102_0304, channel_count: 0x0506, compression_enabled: false },
    ] {
        assert_eq!(decode_header(&encode_header(&format)), Some(format));
    }
    let header = encode_header(&StreamFormat {
        sample_rate: 0x0102_0304,
        channel_count: 0x0506,
        compression_enabled: false,
    });
    assert_eq!(&header[5..11], &[0x04, 0x03, 0x02, 0x01, 0x06, 0x05]);
}

#[test]
fn packet_is_tag_timestamp_length_payload() {
    let packet = encode_packet(PacketKind::Raw, 0x0102_0304_0506_0708, &[0xaa, 0xbb]);
    assert_eq!(
        packet,
        vec![0x00, 0x08, 0x07, 0x06, 0x05, 0x04, 0x03, 0x02, 0x01, 0x02, 0x00, 0xaa, 0xbb]
    );
    let packet = encode_packet(PacketKind::Compressed, 1, &[]);
    assert_eq!(packet, vec![0x01, 0x01, 0, 0, 0, 0, 0, 0, 0, 0x00, 0x00]);
    assert_eq!(packet.len(), PACKET_OVERHEAD);
}

#[test]
fn packet_declares_its_payload_length_and_carries_the_payload() {
    for &len in &[0usize, 1, 255, 256, 4000, 65534, 65535] {
        let payload: Vec<u8> = (0..len).map(|i| (i % 251) as u8).collect();
        let packet = encode_packet(PacketKind::Compressed, u64::MAX, &payload);
        assert_eq!(packet.len(), 11 + len);
        assert_eq!(packet[0], 1);
        assert_eq!(&packet[1..9], &[0xff; 8]);
        assert_eq!(u16::from_le_bytes([packet[9], packet[10]]) as usize, len);
        assert_eq!(&packet[11..], &payload[..]);
    }
    assert_eq!(MAX_PAYLOAD_LEN, 65535);
}

#[test]
fn packet_kinds_have_their_tags() {
    assert_eq!(PacketKind::Raw.tag(), 0);
    assert_eq!(PacketKind::Compressed.tag(), 1);
    assert_eq!(PACKET_TYPE_RAW, 0);
    assert_eq!(PACKET_TYPE_COMPRESSED, 1);
}

#[test]
fn push_le_appends_low_order_bytes_first() {
    let mut out = vec![0xee];
    push_le(&mut out, 0x1122_3344_5566_7788, 8);
    assert_eq!(out, vec![0xee, 0x88, 0x77, 0x66, 0x55, 0x44, 0x33, 0x22, 0x11]);
    let mut out = Vec::new();
    push_le(&mut out, 0x1122_3344, 2);
    assert_eq!(out, vec![0x44, 0x33]);
    push_le(&mut out, 7, 0);
    assert_eq!(out, vec![0x44, 0x33]);
    let mut out = Vec::new();
    push_le(&mut out, 1, 10);
    assert_eq!(out, vec![1, 0, 0, 0, 0, 0, 0, 0, 0, 0]);
}

#[test]
fn sample_bytes_have_the_layout_of_little_endian_floats() {
    let samples = [1.0f32, -0.5, 0.0, 3.5e-3, f32::MAX];
    let bits: Vec<u32> = samples.iter().map(|s| s.to_bits()).collect();
    let bytes = samples_to_le_bytes(&bits);
    let mut expected = Vec::new();
    for s in samples.iter() {
        expected.extend_from_slice(&s.to_le_bytes());
    }
    assert_eq!(bytes, expected);
    assert_eq!(bytes.len(), 4 * samples.len());
    assert_eq!(&bytes[0..4], &[0x00, 0x00, 0x80, 0x3f]);
    assert_eq!(samples_to_le_bytes(&[]), Vec::<u8>::new());
}
