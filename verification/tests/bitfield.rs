use bit_torrent_rustico::message::Bitfield;

#[test]
fn test_has_piece_at_byte_boundaries() {
    // Bit 0 is the most significant bit of byte 0.
    let b = Bitfield::new(vec![0b1000_0001, 0b0100_0000]);
    assert!(b.has_piece(0));
    assert!(!b.has_piece(1));
    assert!(b.has_piece(7));
    assert!(!b.has_piece(8));
    assert!(b.has_piece(9));
    assert!(!b.has_piece(10));
}

#[test]
fn test_has_piece_final_index() {
    let b = Bitfield::new(vec![0x00, 0b0000_0001]);
    assert!(b.has_piece(15));
    assert!(!b.has_piece(14));
    let c = Bitfield::new(vec![0x00, 0b0000_0000]);
    assert!(!c.has_piece(15));
}

#[test]
fn test_has_piece_past_the_bitmap() {
    let b = Bitfield::new(vec![0xFF]);
    assert!(b.has_piece(7));
    assert!(!b.has_piece(8));
    assert!(!b.has_piece(1000));
}

#[test]
fn test_empty_bitfield_has_nothing() {
    let b = Bitfield::new(vec![]);
    assert!(!b.has_piece(0));
}

#[test]
fn test_set_piece_sets_one_bit() {
    let mut b = Bitfield::new(vec![0x00, 0x00]);
    b.set_piece(9);
    assert!(!b.has_piece(8));
    assert!(b.has_piece(9));
    assert!(!b.has_piece(10));
    b.set_piece(0);
    assert!(b.has_piece(0));
    assert!(b.has_piece(9));
}
