use synapse::bitfield::Bitfield;
use synapse::message::Message;

fn round_trip(m: Message) {
    let bytes = m.encode();
    assert_eq!(Message::decode(&bytes), Some(m));
}

#[test]
fn codec_round_trips_every_framed_variant() {
    round_trip(Message::KeepAlive);
    round_trip(Message::Choke);
    round_trip(Message::Unchoke);
    round_trip(Message::Interested);
    round_trip(Message::Uninterested);
    round_trip(Message::Have(0x01020304));
    round_trip(Message::Bitfield(Bitfield::from_bytes(vec![0xa5, 0x01])));
    round_trip(Message::request(1, 16384, 16384));
    round_trip(Message::Piece { index: 2, begin: 3, length: 4, data: vec![9, 8, 7, 6] });
    round_trip(Message::Cancel { index: 1, begin: 1, length: 16384 });
    round_trip(Message::Port(6881));
}

#[test]
fn handshake_round_trips() {
    let m = Message::handshake(vec![0, 0, 0, 0, 0, 0, 0, 1], vec![7u8; 20], vec![8u8; 20]);
    let bytes = m.encode();
    assert_eq!(bytes.len(), 68);
    assert_eq!(bytes[0], 19);
    assert_eq!(&bytes[1..20], b"BitTorrent protocol");
    assert_eq!(Message::decode_handshake(&bytes), Some(m));
}

#[test]
fn frames_are_big_endian() {
    assert_eq!(Message::KeepAlive.encode(), vec![0, 0, 0, 0]);
    assert_eq!(Message::Have(258).encode(), vec![0, 0, 0, 5, 4, 0, 0, 1, 2]);
    assert_eq!(Message::Port(0x1ae1).encode(), vec![0, 0, 0, 3, 9, 0x1a, 0xe1]);
}

#[test]
fn shared_piece_reads_back_as_piece() {
    let m = Message::SharedPiece { index: 1, begin: 2, length: 2, data: vec![5, 6] };
    let back = Message::decode(&m.encode());
    assert_eq!(back, Some(Message::Piece { index: 1, begin: 2, length: 2, data: vec![5, 6] }));
}

#[test]
fn malformed_frames_are_refused() {
    assert_eq!(Message::decode(&[0, 0, 0]), None);
    assert_eq!(Message::decode(&[0, 0, 0, 2, 0]), None);
    assert_eq!(Message::decode(&[0, 0, 0, 2, 0, 0]), None);
    assert_eq!(Message::decode(&[0, 0, 0, 1, 10]), None);
    assert_eq!(Message::decode(&[0, 0, 0, 4, 4, 0, 0, 1]), None);
    assert_eq!(Message::decode(&[0, 0, 0, 1, 0]), Some(Message::Choke));
}

#[test]
fn bad_handshakes_are_refused() {
    let m = Message::handshake(vec![0u8; 8], vec![7u8; 20], vec![8u8; 20]);
    let mut bytes = m.encode();
    bytes[3] = b'X';
    assert_eq!(Message::decode_handshake(&bytes), None);
    assert_eq!(Message::decode_handshake(&bytes[..67]), None);
}
