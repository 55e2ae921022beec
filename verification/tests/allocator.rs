use bit_torrent_rustico::message::Bitfield;
use bit_torrent_rustico::status::{TorrentStatus, TorrentStatusError};

fn all_pieces() -> Bitfield {
    Bitfield::new(vec![0xFF])
}

#[test]
fn test_select_never_hands_out_a_claimed_piece() {
    let mut s = TorrentStatus::new(4);
    let bf = all_pieces();
    let first = s.select_piece(&bf, 1).unwrap();
    let second = s.select_piece(&bf, 2).unwrap();
    let third = s.select_piece(&bf, 3).unwrap();
    let fourth = s.select_piece(&bf, 4).unwrap();
    let mut got = vec![first, second, third, fourth];
    got.sort();
    assert_eq!(got, vec![0, 1, 2, 3]);
    assert_eq!(s.select_piece(&bf, 5), None);
    assert_eq!(s.current_downloading_pieces(), 4);
}

#[test]
fn test_aborted_piece_becomes_selectable_again() {
    let mut s = TorrentStatus::new(2);
    let bf = all_pieces();
    let i = s.select_piece(&bf, 1).unwrap();
    assert_eq!(i, 0);
    let _ = s.select_piece(&bf, 2).unwrap();
    assert_eq!(s.select_piece(&bf, 3), None);
    s.piece_aborted(i).unwrap();
    assert_eq!(s.select_piece(&bf, 3), Some(i));
}

#[test]
fn test_downloaded_piece_is_never_selectable_again() {
    let mut s = TorrentStatus::new(2);
    let bf = all_pieces();
    let i = s.select_piece(&bf, 1).unwrap();
    assert_eq!(s.remaining_pieces(), 2);
    s.piece_downloaded(i).unwrap();
    assert_eq!(s.remaining_pieces(), 1);
    // An abort after completion does not resurrect the piece.
    s.piece_aborted(i).unwrap();
    assert_eq!(s.remaining_pieces(), 1);
    let next = s.select_piece(&bf, 2).unwrap();
    assert_ne!(next, i);
    assert_eq!(s.select_piece(&bf, 3), None);
}

#[test]
fn test_selection_respects_the_bitfield() {
    let mut s = TorrentStatus::new(3);
    // Only piece 1 is claimed by the peer.
    let bf = Bitfield::new(vec![0b0100_0000]);
    assert_eq!(s.select_piece(&bf, 1), Some(1));
    assert_eq!(s.select_piece(&bf, 2), None);
}

#[test]
fn test_completion_reports_in_wrong_state_fail_loudly() {
    let mut s = TorrentStatus::new(2);
    assert_eq!(
        s.piece_downloaded(0),
        Err(TorrentStatusError::PieceNotDownloading)
    );
    assert_eq!(
        s.piece_downloaded(7),
        Err(TorrentStatusError::InvalidPieceIndex)
    );
    assert_eq!(
        s.piece_aborted(7),
        Err(TorrentStatusError::InvalidPieceIndex)
    );
    // Aborting a piece that was never claimed is harmless.
    assert_eq!(s.piece_aborted(0), Ok(()));
    assert_eq!(s.remaining_pieces(), 2);
}

#[test]
fn test_peer_counters() {
    let mut s = TorrentStatus::new(1);
    s.peer_connected();
    s.peer_connected();
    s.peer_disconnected();
    s.peer_disconnected();
    // The counter saturates rather than wrapping.
    s.peer_disconnected();
    let bf = all_pieces();
    assert_eq!(s.select_piece(&bf, 1), Some(0));
}
