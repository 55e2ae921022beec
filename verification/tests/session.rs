use bit_torrent_rustico::download::DownloadError;
use bit_torrent_rustico::handshake::{Handshake, HandshakeError};
use bit_torrent_rustico::message::{Message, MessageId};
use bit_torrent_rustico::session::{PeerSession, PeerSessionError};
use bit_torrent_rustico::status::TorrentStatus;
use bit_torrent_rustico::torrent::TorrentMetadata;
use sha1::Digest;

fn sha1_of(data: &[u8]) -> Vec<u8> {
    sha1::Sha1::digest(data).to_vec()
}

fn piece_payload(index: u32, begin: u32, block: &[u8]) -> Vec<u8> {
    let mut p = Vec::new();
    p.extend_from_slice(&index.to_be_bytes());
    p.extend_from_slice(&begin.to_be_bytes());
    p.extend_from_slice(block);
    p
}

fn one_piece_torrent(content: &[u8]) -> TorrentMetadata {
    TorrentMetadata::new(
        vec![7; 20],
        content.len() as u64,
        content.len() as u64,
        sha1_of(content),
    )
    .unwrap()
}

#[test]
fn test_handshake_round_trip() {
    let h = Handshake::new(vec![1; 20], vec![2; 20]);
    let bytes = h.as_bytes();
    assert_eq!(bytes.len(), 68);
    assert_eq!(bytes[0], 19);
    assert_eq!(&bytes[1..20], b"BitTorrent protocol");
    assert_eq!(&bytes[20..28], &[0; 8]);
    let parsed = Handshake::from_bytes(&bytes).unwrap();
    assert_eq!(parsed.info_hash, vec![1; 20]);
    assert_eq!(parsed.peer_id, vec![2; 20]);
}

#[test]
fn test_handshake_rejects_malformed_reply() {
    let good = Handshake::new(vec![1; 20], vec![2; 20]).as_bytes();
    let mut wrong_length_byte = good.clone();
    wrong_length_byte[0] = 18;
    assert!(matches!(
        Handshake::from_bytes(&wrong_length_byte),
        Err(HandshakeError::MalformedReply)
    ));
    let mut wrong_name = good.clone();
    wrong_name[5] ^= 0xFF;
    assert!(matches!(
        Handshake::from_bytes(&wrong_name),
        Err(HandshakeError::MalformedReply)
    ));
}

#[test]
fn test_info_hash_is_checked() {
    let t = one_piece_torrent(b"hello world");
    let session = PeerSession::new(t, 5, 1);
    let same = Handshake::new(vec![7; 20], vec![9; 20]);
    assert!(session.check_handshake(&same).is_ok());
    let other = Handshake::new(vec![8; 20], vec![9; 20]);
    assert!(matches!(
        session.check_handshake(&other),
        Err(PeerSessionError::InfoHashMismatch)
    ));
}

#[test]
fn test_choke_and_interest_negotiation() {
    let t = one_piece_torrent(b"abc");
    let mut session = PeerSession::new(t, 5, 1);
    assert!(session.should_send_interested());
    session.mark_interested();
    assert!(!session.should_send_interested());
    assert!(!session.ready_to_request());
    let id = session.handle_message(Message::new(MessageId::Unchoke, vec![])).unwrap();
    assert_eq!(id, MessageId::Unchoke);
    assert!(session.ready_to_request());
}

#[test]
fn test_bitfield_and_have_messages() {
    let t = one_piece_torrent(b"abc");
    let mut session = PeerSession::new(t, 5, 1);
    session
        .handle_message(Message::new(MessageId::Bitfield, vec![0x00, 0x00]))
        .unwrap();
    assert!(!session.bitfield.has_piece(9));
    session
        .handle_message(Message::new(MessageId::Have, 9u32.to_be_bytes().to_vec()))
        .unwrap();
    assert!(session.bitfield.has_piece(9));
    assert!(!session.bitfield.has_piece(8));
    // A Have payload of the wrong size, or past the bitmap, is an error.
    assert!(matches!(
        session.handle_message(Message::new(MessageId::Have, vec![1, 2, 3])),
        Err(PeerSessionError::MessageError(MessageId::Have))
    ));
    assert!(matches!(
        session.handle_message(Message::new(MessageId::Have, 99u32.to_be_bytes().to_vec())),
        Err(PeerSessionError::MessageError(MessageId::Have))
    ));
}

#[test]
fn test_other_messages_change_nothing() {
    let t = one_piece_torrent(b"abc");
    let mut session = PeerSession::new(t, 5, 1);
    for id in [
        MessageId::KeepAlive,
        MessageId::Choke,
        MessageId::Interested,
        MessageId::NotInterested,
        MessageId::Request,
        MessageId::Cancel,
        MessageId::Port,
    ] {
        let got = session.handle_message(Message::new(id, vec![])).unwrap();
        assert_eq!(got, id);
    }
    assert!(session.status.choked);
    assert!(session.download.is_none());
}

#[test]
fn test_piece_message_without_a_download_is_unexpected() {
    let t = one_piece_torrent(b"abc");
    let mut session = PeerSession::new(t, 5, 1);
    let r = session.handle_message(Message::new(
        MessageId::Piece,
        piece_payload(0, 0, b"abc"),
    ));
    assert!(matches!(r, Err(PeerSessionError::UnexpectedPiece)));
    let r = session.handle_message(Message::new(MessageId::Piece, vec![0, 0, 0]));
    assert!(matches!(
        r,
        Err(PeerSessionError::MessageError(MessageId::Piece))
    ));
}

#[test]
fn test_misaligned_or_misfit_blocks_are_refused() {
    let content: Vec<u8> = vec![5; 1000];
    let t = one_piece_torrent(&content);
    let mut status = TorrentStatus::new(1);
    let mut session = PeerSession::new(t, 5, 1);
    session
        .handle_message(Message::new(MessageId::Bitfield, vec![0x80]))
        .unwrap();
    session.claim_next(&mut status).unwrap();
    // An offset off the block grid.
    let r = session.handle_message(Message::new(MessageId::Piece, piece_payload(0, 3, &content)));
    assert!(matches!(
        r,
        Err(PeerSessionError::BlockError(DownloadError::MisalignedBlock))
    ));
    // A block the piece does not have.
    let r = session.handle_message(Message::new(
        MessageId::Piece,
        piece_payload(0, 16384, &content),
    ));
    assert!(matches!(
        r,
        Err(PeerSessionError::BlockError(DownloadError::UnknownBlock))
    ));
    // The right block with the wrong length.
    let r = session.handle_message(Message::new(
        MessageId::Piece,
        piece_payload(0, 0, &content[..999]),
    ));
    assert!(matches!(
        r,
        Err(PeerSessionError::BlockError(DownloadError::WrongBlockLength))
    ));
    // A piece index this session never claimed.
    let r = session.handle_message(Message::new(MessageId::Piece, piece_payload(9, 0, &content)));
    assert!(matches!(r, Err(PeerSessionError::UnexpectedPiece)));
    assert!(!session.piece_complete());
}

#[test]
fn test_correct_piece_is_accepted() {
    let content: Vec<u8> = (0..1000u32).map(|i| (i % 251) as u8).collect();
    let t = one_piece_torrent(&content);
    let mut status = TorrentStatus::new(1);
    let mut session = PeerSession::new(t, 5, 1);
    session
        .handle_message(Message::new(MessageId::Bitfield, vec![0x80]))
        .unwrap();
    let claimed = session.claim_next(&mut status).unwrap();
    assert_eq!(claimed, 0);
    let batch = session.next_requests();
    assert_eq!(batch.len(), 1);
    assert_eq!(batch[0].begin, 0);
    assert_eq!(batch[0].length, 1000);
    session
        .handle_message(Message::new(MessageId::Piece, piece_payload(0, 0, &content)))
        .unwrap();
    assert!(session.piece_complete());
    let buffer = session.download.as_ref().unwrap().buffer.clone();
    assert_eq!(buffer, content);
    session.validate_piece(&buffer, 0, &mut status).unwrap();
    assert_eq!(status.remaining_pieces(), 0);
}

#[test]
fn test_altered_piece_is_rejected_and_returned_to_the_pool() {
    let content: Vec<u8> = (0..1000u32).map(|i| (i % 251) as u8).collect();
    let t = one_piece_torrent(&content);
    let mut status = TorrentStatus::new(1);
    let mut session = PeerSession::new(t, 5, 1);
    session
        .handle_message(Message::new(MessageId::Bitfield, vec![0x80]))
        .unwrap();
    session.claim_next(&mut status).unwrap();
    let mut altered = content.clone();
    altered[123] ^= 0x01;
    session
        .handle_message(Message::new(MessageId::Piece, piece_payload(0, 0, &altered)))
        .unwrap();
    assert!(session.piece_complete());
    let buffer = session.download.as_ref().unwrap().buffer.clone();
    let r = session.validate_piece(&buffer, 0, &mut status);
    assert!(matches!(r, Err(PeerSessionError::HashMismatch)));
    assert_eq!(status.remaining_pieces(), 1);
    assert_eq!(status.current_downloading_pieces(), 0);
    // The piece is selectable again by another session.
    session.clear_download();
    assert_eq!(session.claim_next(&mut status), Some(0));
}

#[test]
fn test_completion_report_in_wrong_state_fails_loudly() {
    let content = b"four score and seven bytes".to_vec();
    let t = one_piece_torrent(&content);
    let mut status = TorrentStatus::new(1);
    let session = PeerSession::new(t, 5, 1);
    // No claim was made, so the allocator refuses the completion report.
    let r = session.validate_piece(&content, 0, &mut status);
    assert!(matches!(r, Err(PeerSessionError::StatusError(_))));
    assert_eq!(status.remaining_pieces(), 1);
}
