//! Wire-level tests of the packet codec and the reassembly buffer.

use socks_forwarder::chunker::Chunker;
use socks_forwarder::codec::DecodeError;
use socks_forwarder::codec::Packet;
use socks_forwarder::codec::decode_chunked;

fn decode_one(bytes: Vec<u8>) -> Result<Option<Packet>, DecodeError> {
    let mut chunker = Chunker::new();
    chunker.push_chunk(bytes);
    Packet::deserialize(&mut chunker)
}

fn round_trips(p: Packet) {
    let bytes = p.serialize().expect("serialization should succeed");
    let decoded = decode_one(bytes)
        .expect("decoding should succeed")
        .expect("a whole frame should decode");
    assert_eq!(decoded, p);
}

#[test]
fn round_trip_data_packets() {
    for port in [1u16, 5, 17, 65535] {
        for len in [0usize, 1, 1024, 65535] {
            let data: Vec<u8> = (0..len).map(|i| (i % 251) as u8).collect();
            round_trips(Packet::Data { port, data });
        }
    }
}

#[test]
fn round_trip_control_packets() {
    round_trips(Packet::keepalive());
    for for_port in [0u16, 1, 5, 65535] {
        round_trips(Packet::control_socket_closed(for_port));
        round_trips(Packet::control_socket_open(for_port));
    }
}

#[test]
fn keepalive_wire_bytes() {
    let bytes = Packet::keepalive().serialize().unwrap();
    assert_eq!(bytes, vec![0x00, 0x00, 0x00]);
}

#[test]
fn control_closed_wire_bytes() {
    // A local EOF on port 3 must leave the forwarder as `00 00 01 03 00 00`.
    let bytes = Packet::control_socket_closed(3).serialize().unwrap();
    assert_eq!(bytes, vec![0x00, 0x00, 0x01, 0x03, 0x00, 0x00]);
}

#[test]
fn control_open_wire_bytes() {
    let bytes = Packet::control_socket_open(0x0102).serialize().unwrap();
    assert_eq!(bytes, vec![0x00, 0x00, 0x01, 0x02, 0x01, 0x01]);
}

#[test]
fn data_wire_bytes_single_echo() {
    let p = Packet::Data { port: 5, data: b"hi".to_vec() };
    let bytes = p.serialize().unwrap();
    assert_eq!(bytes, vec![0x05, 0x00, 0x02, 0x00, 0x00, 0x00, 0x68, 0x69]);

    let decoded = decode_one(bytes).unwrap().unwrap();
    assert_eq!(decoded, Packet::Data { port: 5, data: b"hi".to_vec() });
}

#[test]
fn split_header_across_chunks() {
    // One data frame for port 7 delivered as `[07 00 01]` then
    // `[00 00 00 AA]`: nothing decodes until the second chunk lands.
    let mut chunker = Chunker::new();
    chunker.push_chunk(vec![0x07, 0x00, 0x01]);
    assert_eq!(Packet::deserialize(&mut chunker), Ok(None));
    chunker.push_chunk(vec![0x00, 0x00, 0x00, 0xAA]);
    let decoded = Packet::deserialize(&mut chunker).unwrap().unwrap();
    assert_eq!(decoded, Packet::Data { port: 7, data: vec![0xAA] });
    assert_eq!(Packet::deserialize(&mut chunker), Ok(None));
}

#[test]
fn zero_length_data_frame_decodes_to_empty_payload() {
    let decoded = decode_one(vec![0x09, 0x00, 0x00, 0x00, 0x00, 0x00]).unwrap().unwrap();
    assert_eq!(decoded, Packet::Data { port: 9, data: vec![] });
}

#[test]
fn unknown_msg_type_is_an_error() {
    assert_eq!(
        decode_one(vec![0x00, 0x00, 0x02]),
        Err(DecodeError::UnknownMsgType { msg_type: 2 })
    );
}

#[test]
fn unknown_status_is_an_error() {
    assert_eq!(
        decode_one(vec![0x00, 0x00, 0x01, 0x04, 0x00, 0x07]),
        Err(DecodeError::UnknownStatus { status: 7 })
    );
}

#[test]
fn incomplete_frames_stay_pending() {
    let mut chunker = Chunker::new();
    for b in [0x05u8, 0x00, 0x02, 0x00, 0x00, 0x00, 0x68] {
        assert_eq!(Packet::deserialize(&mut chunker), Ok(None));
        chunker.push_chunk(vec![b]);
    }
    assert_eq!(Packet::deserialize(&mut chunker), Ok(None));
    chunker.push_chunk(vec![0x69]);
    let decoded = Packet::deserialize(&mut chunker).unwrap().unwrap();
    assert_eq!(decoded, Packet::Data { port: 5, data: b"hi".to_vec() });
}

#[test]
fn chunking_does_not_change_decoded_packets() {
    // The same byte stream under three different chunkings decodes to the
    // same packet sequence.
    let mut stream: Vec<u8> = Vec::new();
    stream.extend_from_slice(&Packet::keepalive().serialize().unwrap());
    stream.extend_from_slice(
        &Packet::Data { port: 2, data: vec![10, 20, 30] }.serialize().unwrap(),
    );
    stream.extend_from_slice(&Packet::control_socket_closed(2).serialize().unwrap());
    stream.extend_from_slice(&Packet::Data { port: 3, data: vec![42] }.serialize().unwrap());

    let whole = decode_chunked(vec![stream.clone()]);
    let bytewise = decode_chunked(stream.iter().map(|b| vec![*b]).collect());
    let lopsided = decode_chunked(vec![
        stream[..5].to_vec(),
        stream[5..6].to_vec(),
        stream[6..].to_vec(),
    ]);

    assert_eq!(whole.0.len(), 4);
    assert_eq!(whole.1, None);
    assert_eq!(whole, bytewise);
    assert_eq!(whole, lopsided);
}

#[test]
fn decode_chunked_stops_at_malformed_frame() {
    let mut stream: Vec<u8> = Vec::new();
    stream.extend_from_slice(&Packet::Data { port: 1, data: vec![7] }.serialize().unwrap());
    stream.extend_from_slice(&[0x00, 0x00, 0x05]);
    let (packets, err) = decode_chunked(vec![stream]);
    assert_eq!(packets, vec![Packet::Data { port: 1, data: vec![7] }]);
    assert_eq!(err, Some(DecodeError::UnknownMsgType { msg_type: 5 }));
}

#[test]
fn chunker_reads_exactly_across_chunks() {
    let mut chunker = Chunker::new();
    chunker.push_chunk(vec![1, 2]);
    chunker.push_chunk(vec![3, 4, 5]);
    assert_eq!(chunker.available(), 5);
    assert_eq!(chunker.read(3), Some(vec![1, 2, 3]));
    assert_eq!(chunker.read(3), None);
    assert_eq!(chunker.read(2), Some(vec![4, 5]));
    assert_eq!(chunker.available(), 0);
}
