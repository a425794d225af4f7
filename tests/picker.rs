use synapse::bitfield::Bitfield;
use synapse::peer::Peer;
use synapse::message::Message;
use synapse::picker::{piece_validated, Picker};

#[test]
fn test_piece_pick_order() {
    let b = Bitfield::new(3);
    let mut picker = Picker::new(&b);
    let mut peer = Peer::test_from_pieces(0, b);
    assert_eq!(picker.pick(&peer), None);
    peer.pieces_mut().set_bit(1);
    assert_eq!(picker.pick(&peer), Some(1));
    peer.pieces_mut().set_bit(0);
    assert_eq!(picker.pick(&peer), Some(0));
    picker.completed(0);
    picker.completed(1);
    peer.pieces_mut().set_bit(2);
    assert_eq!(picker.pick(&peer), Some(2));

    picker.completed(2);
    assert_eq!(picker.pick(&peer), None);
    picker.incomplete(1);
    assert_eq!(picker.pick(&peer), Some(1));
}

#[test]
fn owned_pieces_are_never_picked() {
    let mut ours = Bitfield::new(4);
    ours.set_bit(0);
    ours.set_bit(2);
    let picker = Picker::new(&ours);
    let mut theirs = Bitfield::new(4);
    theirs.set_bit(0);
    theirs.set_bit(2);
    assert_eq!(picker.pick_from(&theirs), None);
    theirs.set_bit(3);
    assert_eq!(picker.pick_from(&theirs), Some(3));
}

#[test]
fn completed_piece_out_of_order_is_skipped() {
    let b = Bitfield::new(3);
    let mut picker = Picker::new(&b);
    let mut all = Bitfield::new(3);
    all.set_bit(0);
    all.set_bit(1);
    all.set_bit(2);
    picker.completed(1);
    assert_eq!(picker.pick_from(&all), Some(0));
    picker.completed(0);
    assert_eq!(picker.pick_from(&all), Some(2));
    let mut only_one = Bitfield::new(3);
    only_one.set_bit(1);
    assert_eq!(picker.pick_from(&only_one), None);
}

#[test]
fn incomplete_after_complete_is_picked_again() {
    let mut ours = Bitfield::new(3);
    ours.set_bit(0);
    ours.set_bit(1);
    ours.set_bit(2);
    let mut picker = Picker::new(&ours);
    let mut theirs = Bitfield::new(3);
    theirs.set_bit(2);
    assert_eq!(picker.pick_from(&theirs), None);
    picker.incomplete(2);
    assert_eq!(picker.pick_from(&theirs), Some(2));
}

#[test]
fn peer_with_shorter_bitfield_is_not_asked_past_it() {
    let b = Bitfield::new(10);
    let picker = Picker::new(&b);
    let mut theirs = Bitfield::new(2);
    assert_eq!(picker.pick_from(&theirs), None);
    theirs.set_bit(1);
    assert_eq!(picker.pick_from(&theirs), Some(1));
}

#[test]
fn valid_piece_is_completed_and_announced() {
    let b = Bitfield::new(2);
    let mut picker = Picker::new(&b);
    let mut peers = vec![Peer::test_from_pieces(1, Bitfield::new(2)), Peer::test_from_pieces(2, Bitfield::new(2))];
    piece_validated(&mut picker, &mut peers, 0, true);
    for p in peers.iter_mut() {
        assert_eq!(p.take_outbox(), vec![Message::Have(0)]);
    }
    let mut all = Bitfield::new(2);
    all.set_bit(0);
    all.set_bit(1);
    assert_eq!(picker.pick_from(&all), Some(1));
}

#[test]
fn invalid_piece_is_picked_again() {
    let mut ours = Bitfield::new(2);
    ours.set_bit(0);
    let mut picker = Picker::new(&ours);
    let mut peers = vec![Peer::test_from_pieces(1, Bitfield::new(2))];
    let mut all = Bitfield::new(2);
    all.set_bit(0);
    assert_eq!(picker.pick_from(&all), None);
    piece_validated(&mut picker, &mut peers, 0, false);
    assert_eq!(peers[0].take_outbox().len(), 0);
    assert_eq!(picker.pick_from(&all), Some(0));
}
