use synapse::bitfield::Bitfield;
use synapse::control::Control;
use synapse::message::Message;
use synapse::peer::{Notice, Peer, ProtocolError, Status};

fn piece(index: u32, begin: u32) -> Message {
    Message::Piece { index, begin, data: vec![0u8; 16384], length: 16384 }
}

#[test]
fn test_cancel() {
    let mut peer = Peer::test_from_stats(0, 0, 0);
    let p1 = piece(0, 0);
    let p2 = piece(1, 1);
    let p3 = piece(2, 2);
    peer.send_message(Message::KeepAlive);
    peer.send_message(p1.clone());
    peer.send_message(p2.clone());
    peer.send_message(p3.clone());

    let c = Message::Cancel { index: 1, begin: 1, length: 16384 };
    peer.handle_msg(c).unwrap();
    let wq = peer.take_outbox();
    assert_eq!(wq.len(), 3);
    assert_eq!(wq[0], Message::KeepAlive);
    assert_eq!(wq[1], p1);
    assert_eq!(wq[2], p3);
}

#[test]
fn cancel_ignores_length() {
    let mut peer = Peer::test_from_stats(0, 0, 0);
    peer.send_message(piece(4, 0));
    peer.handle_msg(Message::Cancel { index: 4, begin: 0, length: 1 }).unwrap();
    assert_eq!(peer.take_outbox().len(), 0);
}

#[test]
fn sent_blocks_count_as_uploaded() {
    let mut peer = Peer::test_from_stats(0, 0, 0);
    peer.send_message(piece(0, 0));
    peer.send_message(Message::Have(1));
    assert_eq!(peer.flush(), (1, 0));
    assert_eq!(peer.uploaded_bytes, 16384);
    assert_eq!(peer.flush(), (0, 0));
}

#[test]
fn request_while_choked_is_a_protocol_error() {
    let mut control = Control::new(1, 2, 3, 4, 5, 6, 0);
    let tid = control.add_torrent(vec![7u8; 20]).unwrap();
    control.add_peer(tid, 100);
    let h = control.throttler.get_throttle(100);
    control.throttler.set_ul_rate(1);
    control.throttler.set_dl_rate(1);
    assert!(h.get_bytes_ul(&mut control.throttler, 10).is_err());
    assert!(h.get_bytes_dl(&mut control.throttler, 10).is_err());

    let mut peer = Peer::test_from_pieces(100, Bitfield::new(4));
    assert!(peer.local_status.choked);
    let r = peer.handle_msg(Message::Request { index: 0, begin: 0, length: 16384 });
    assert_eq!(r, Err(ProtocolError::RequestWhileChoked));
    assert_eq!(control.remove_peer(100), tid);
    assert_eq!(control.peer_owner(100), None);
    let (dl, ul) = control.flush_blocked_peers();
    assert!(!dl.contains(&100));
    assert!(!ul.contains(&100));
}

#[test]
fn request_while_unchoked_is_accepted() {
    let mut peer = Peer::test_from_pieces(1, Bitfield::new(4));
    peer.unchoke();
    assert_eq!(peer.handle_msg(Message::Request { index: 0, begin: 0, length: 16384 }), Ok(()));
}

#[test]
fn have_out_of_range() {
    let mut peer = Peer::test_from_pieces(0, Bitfield::new(100));
    assert_eq!(peer.handle_msg(Message::Have(100)), Err(ProtocolError::HaveOutOfRange));
    assert_eq!(peer.handle_msg(Message::Have(99)), Ok(()));
    assert!(peer.pieces().has_bit(99));
}

#[test]
fn bitfield_is_capped_to_our_count() {
    let mut peer = Peer::test_from_pieces(0, Bitfield::new(10));
    let theirs = Bitfield::from_bytes(vec![0xffu8, 0xffu8]);
    peer.handle_msg(Message::Bitfield(theirs)).unwrap();
    assert_eq!(peer.pieces().len(), 10);
    assert!(peer.pieces().has_bit(9));
}

#[test]
fn remote_status_follows_messages() {
    let mut peer = Peer::test_from_pieces(0, Bitfield::new(1));
    assert_eq!(*peer.remote_status(), Status { choked: true, interested: false });
    peer.handle_msg(Message::Unchoke).unwrap();
    peer.handle_msg(Message::Interested).unwrap();
    assert_eq!(*peer.remote_status(), Status { choked: false, interested: true });
    peer.handle_msg(Message::Choke).unwrap();
    peer.handle_msg(Message::Uninterested).unwrap();
    assert_eq!(*peer.remote_status(), Status::new());
}

#[test]
fn keepalive_is_echoed() {
    let mut peer = Peer::test_from_pieces(0, Bitfield::new(1));
    peer.handle_msg(Message::KeepAlive).unwrap();
    assert_eq!(peer.take_outbox(), vec![Message::KeepAlive]);
}

#[test]
fn local_status_changes_are_sent_once() {
    let mut peer = Peer::test_from_pieces(0, Bitfield::new(1));
    peer.choke();
    peer.unchoke();
    peer.unchoke();
    peer.interested();
    peer.interested();
    peer.uninterested();
    peer.choke();
    assert_eq!(
        peer.take_outbox(),
        vec![Message::Unchoke, Message::Interested, Message::Uninterested, Message::Choke]
    );
}

#[test]
fn queued_never_exceeds_five() {
    let mut peer = Peer::test_from_pieces(0, Bitfield::new(1));
    peer.handle_msg(Message::Unchoke).unwrap();
    let mut sent = 0;
    for i in 0..10u32 {
        if peer.can_queue_req() {
            peer.request_piece(i, 0, 16384);
            sent += 1;
        }
        assert!(peer.queued <= 5);
    }
    assert_eq!(sent, 5);
    assert!(!peer.can_queue_req());
    peer.handle_msg(Message::Piece { index: 0, begin: 0, length: 3, data: vec![1, 2, 3] }).unwrap();
    assert_eq!(peer.queued, 4);
    assert_eq!(peer.downloaded_bytes, 3);
    assert!(peer.can_queue_req());
}

#[test]
fn unsolicited_piece_keeps_queue_at_zero() {
    let mut peer = Peer::test(0, 0, 0, 0, Bitfield::new(1));
    peer.handle_msg(Message::Piece { index: 0, begin: 0, length: 1, data: vec![1] }).unwrap();
    assert_eq!(peer.queued, 0);
    assert_eq!(peer.flush(), (0, 1));
}

#[test]
fn handshake_with_dht_sends_port_and_announces() {
    let mut peer = Peer::test_from_pieces(9, Bitfield::new(1));
    peer.dht_port = 6881;
    assert!(!peer.ready());
    let hs = Message::handshake(vec![0, 0, 0, 0, 0, 0, 0, 1], vec![3u8; 20], vec![4u8; 20]);
    peer.handle_msg(hs).unwrap();
    assert!(peer.ready());
    assert_eq!(peer.take_outbox(), vec![Message::Port(6881)]);
    assert_eq!(peer.take_notices(), vec![Notice::Extant { peer: 9 }]);
    assert_eq!(peer.close(), vec![Notice::Removed { peer: 9 }]);
}

#[test]
fn handshake_without_dht_sends_nothing() {
    let mut peer = Peer::test_from_pieces(9, Bitfield::new(1));
    let hs = Message::handshake(vec![0u8; 8], vec![3u8; 20], vec![4u8; 20]);
    peer.handle_msg(hs).unwrap();
    assert_eq!(peer.take_outbox().len(), 0);
}

#[test]
fn port_is_a_dht_hint() {
    let mut peer = Peer::test_from_pieces(2, Bitfield::new(1));
    peer.handle_msg(Message::Port(7000)).unwrap();
    assert_eq!(peer.take_notices(), vec![Notice::DhtNode { peer: 2, port: 7000 }]);
}

#[test]
fn unannounced_peer_closes_quietly() {
    let peer = Peer::test_from_pieces(2, Bitfield::new(1));
    assert_eq!(peer.close(), Vec::<Notice>::new());
}

#[test]
fn new_peer_queues_handshake_and_bitfield() {
    let mut ours = Bitfield::new(9);
    ours.set_bit(8);
    let mut peer = Peer::new(3, 1, vec![5u8; 20], vec![6u8; 20], &ours, None, None, 6881, 1000);
    assert_eq!(peer.pieces().len(), 9);
    assert!(!peer.pieces().has_bit(8));
    let out = peer.take_outbox();
    assert_eq!(out.len(), 2);
    assert_eq!(out[0], Message::handshake(vec![0, 0, 0, 0, 0, 0, 0, 1], vec![5u8; 20], vec![6u8; 20]));
    assert_eq!(out[1], Message::Bitfield(ours.duplicate()));
    assert_eq!(peer.take_notices().len(), 0);
    assert_eq!(peer.id(), 3);
    assert_eq!(peer.last_flush, 1000);
}

#[test]
fn tx_rates_are_per_second() {
    let mut peer = Peer::test_from_pieces(0, Bitfield::new(1));
    peer.uploaded_bytes = 500;
    peer.downloaded_bytes = 2000;
    assert_eq!(peer.get_tx_rates(250), (2000, 8000));
    assert_eq!(peer.uploaded_bytes, 0);
    assert_eq!(peer.get_tx_rates(250), (0, 0));
}

#[test]
fn request_at_the_cap_or_while_choked_sends_nothing() {
    let mut peer = Peer::test(0, 0, 0, 5, Bitfield::new(1));
    peer.request_piece(0, 0, 16384);
    assert_eq!(peer.queued, 5);
    assert_eq!(peer.take_outbox().len(), 0);
    peer.handle_msg(Message::Unchoke).unwrap();
    peer.request_piece(0, 0, 16384);
    assert_eq!(peer.queued, 5);
    assert_eq!(peer.take_outbox().len(), 0);
    let mut choked = Peer::test(1, 0, 0, 0, Bitfield::new(1));
    choked.request_piece(0, 0, 16384);
    assert_eq!(choked.queued, 0);
    choked.handle_msg(Message::Unchoke).unwrap();
    choked.request_piece(0, 0, 16384);
    assert_eq!(choked.queued, 1);
    assert_eq!(choked.take_outbox(), vec![Message::request(0, 0, 16384)]);
}
