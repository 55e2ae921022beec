use bit_torrent_rustico::download::BLOCK_SIZE;
use bit_torrent_rustico::message::{Message, MessageId};
use bit_torrent_rustico::session::PeerSession;
use bit_torrent_rustico::status::TorrentStatus;
use bit_torrent_rustico::torrent::TorrentMetadata;
use sha1::Digest;

fn sha1_of(data: &[u8]) -> Vec<u8> {
    sha1::Sha1::digest(data).to_vec()
}

fn piece_payload(index: u32, begin: u32, block: &[u8]) -> Vec<u8> {
    let mut p = Vec::new();
    p.extend_from_slice(&index.to_be_bytes());
    p.extend_from_slice(&begin.to_be_bytes());
    p.extend_from_slice(block);
    p
}

/// A two-piece torrent served in full by a simulated peer: piece 0 is
/// 32768 bytes (two whole blocks), piece 1 is 50000 - 32768 = 17232 bytes
/// (one whole block and a partial block of 848 bytes).
#[test]
fn test_two_piece_torrent_downloads_completely() {
    let total_length = 50000u64;
    let piece_length = 32768u64;
    let content: Vec<u8> = (0..total_length).map(|i| (i % 253) as u8).collect();
    let piece0 = &content[..32768];
    let piece1 = &content[32768..];
    assert_eq!(piece1.len(), 17232);

    let mut hashes = sha1_of(piece0);
    hashes.extend_from_slice(&sha1_of(piece1));
    let torrent = TorrentMetadata::new(vec![3; 20], total_length, piece_length, hashes).unwrap();

    let mut status = TorrentStatus::new(2);
    status.peer_connected();
    let mut session = PeerSession::new(torrent, 2, 42);

    session
        .handle_message(Message::new(MessageId::Bitfield, vec![0b1100_0000]))
        .unwrap();
    assert!(session.should_send_interested());
    session.mark_interested();
    session
        .handle_message(Message::new(MessageId::Unchoke, vec![]))
        .unwrap();
    assert!(session.ready_to_request());

    let mut downloaded_reports = 0;
    let mut seen_requests: Vec<(u32, u32, u32)> = Vec::new();

    while let Some(index) = session.claim_next(&mut status) {
        let piece = if index == 0 { piece0 } else { piece1 };
        loop {
            let batch = session.next_requests();
            if batch.is_empty() {
                break;
            }
            // The simulated peer interleaves chatter with its replies.
            session
                .handle_message(Message::new(MessageId::KeepAlive, vec![]))
                .unwrap();
            for r in batch {
                assert_eq!(r.index, index);
                seen_requests.push((r.index, r.begin, r.length));
                let block = &piece[r.begin as usize..(r.begin + r.length) as usize];
                session
                    .handle_message(Message::new(
                        MessageId::Piece,
                        piece_payload(r.index, r.begin, block),
                    ))
                    .unwrap();
            }
        }
        assert!(session.piece_complete());
        let buffer = session.download.as_ref().unwrap().buffer.clone();
        assert_eq!(&buffer[..], piece);
        session.validate_piece(&buffer, index, &mut status).unwrap();
        downloaded_reports += 1;
        session.clear_download();
    }

    assert_eq!(downloaded_reports, 2);
    assert_eq!(status.remaining_pieces(), 0);
    assert_eq!(status.current_downloading_pieces(), 0);
    // Piece 0: two whole blocks; piece 1: one whole block and an 848-byte tail.
    assert_eq!(
        seen_requests,
        vec![
            (0, 0, BLOCK_SIZE),
            (0, BLOCK_SIZE, BLOCK_SIZE),
            (1, 0, BLOCK_SIZE),
            (1, BLOCK_SIZE, 848),
        ]
    );
    status.peer_disconnected();
}
