use synapse::bitfield::Bitfield;

#[test]
fn new_bitfield_is_clear() {
    let b = Bitfield::new(10);
    assert_eq!(b.len(), 10);
    assert_eq!(b.as_bytes().len(), 2);
    for i in 0..10 {
        assert!(!b.has_bit(i));
    }
}

#[test]
fn set_bit_packs_high_bit_first() {
    let mut b = Bitfield::new(10);
    b.set_bit(0);
    b.set_bit(9);
    assert_eq!(b.as_bytes(), &vec![0x80u8, 0x40u8]);
    assert!(b.has_bit(0));
    assert!(b.has_bit(9));
    assert!(!b.has_bit(1));
}

#[test]
fn cap_truncates_and_pads() {
    let mut b = Bitfield::from_bytes(vec![0xffu8, 0xffu8]);
    assert_eq!(b.len(), 16);
    b.cap(3);
    assert_eq!(b.len(), 3);
    assert!(b.has_bit(2));
    b.cap(12);
    assert_eq!(b.len(), 12);
    assert!(b.has_bit(0) && b.has_bit(1) && b.has_bit(2));
    for i in 3..12 {
        assert!(!b.has_bit(i));
    }
}
