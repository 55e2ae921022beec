use bit_torrent_rustico::download::{DownloadError, PieceDownload, BLOCK_SIZE};
use bit_torrent_rustico::torrent::{MetadataError, TorrentMetadata};

#[test]
fn test_whole_piece_partitions_into_sixteen_blocks() {
    // piece_length = 262144, block_size = 16384: 16 whole blocks, no remainder.
    let mut d = PieceDownload::new(0, 262144);
    assert_eq!(d.received.len(), 16);
    let mut total = 0u32;
    loop {
        let batch = d.next_batch(5);
        if batch.is_empty() {
            break;
        }
        for r in &batch {
            assert_eq!(r.length, BLOCK_SIZE);
            assert_eq!(r.begin, total * BLOCK_SIZE);
            assert_eq!(r.index, 0);
            total += 1;
        }
    }
    assert_eq!(total, 16);
}

#[test]
fn test_last_piece_partitioning() {
    // total_length = 1_000_000, piece_length = 262144: four pieces, the
    // last of 1_000_000 - 3 * 262144 = 213568 bytes, which is 13 whole
    // blocks and a trailing partial block of 213568 - 13 * 16384 = 576.
    let t = TorrentMetadata::new(vec![0; 20], 1_000_000, 262144, vec![0; 80]).unwrap();
    assert_eq!(t.piece_count(), 4);
    assert_eq!(t.piece_length_at(0), 262144);
    assert_eq!(t.piece_length_at(2), 262144);
    assert_eq!(t.piece_length_at(3), 213568);

    let mut d = PieceDownload::new(3, 213568);
    assert_eq!(d.received.len(), 14);
    let first = d.next_batch(100);
    assert_eq!(first.len(), 13);
    for (k, r) in first.iter().enumerate() {
        assert_eq!(r.index, 3);
        assert_eq!(r.begin, k as u32 * BLOCK_SIZE);
        assert_eq!(r.length, BLOCK_SIZE);
    }
    let tail = d.next_batch(100);
    assert_eq!(tail.len(), 1);
    assert_eq!(tail[0].begin, 13 * BLOCK_SIZE);
    assert_eq!(tail[0].length, 576);
    assert!(d.next_batch(100).is_empty());
}

#[test]
fn test_exact_multiple_total_keeps_full_last_piece() {
    let t = TorrentMetadata::new(vec![0; 20], 65536, 32768, vec![0; 40]).unwrap();
    assert_eq!(t.piece_count(), 2);
    assert_eq!(t.piece_length_at(1), 32768);
}

#[test]
fn test_batches_respect_the_window() {
    let mut d = PieceDownload::new(0, 5 * 16384);
    assert_eq!(d.next_batch(2).len(), 2);
    assert_eq!(d.next_batch(2).len(), 2);
    assert_eq!(d.next_batch(2).len(), 1);
    assert_eq!(d.next_batch(2).len(), 0);
}

#[test]
fn test_add_block_out_of_order_lands_by_offset() {
    let mut d = PieceDownload::new(0, 2 * 16384 + 3);
    let _ = d.next_batch(100);
    let _ = d.next_batch(100);
    assert!(!d.is_complete());
    d.add_block(16384, &vec![2u8; 16384]).unwrap();
    d.add_block(2 * 16384, &vec![3u8; 3]).unwrap();
    assert!(!d.is_complete());
    d.add_block(0, &vec![1u8; 16384]).unwrap();
    assert!(d.is_complete());
    assert_eq!(d.buffer[0], 1);
    assert_eq!(d.buffer[16383], 1);
    assert_eq!(d.buffer[16384], 2);
    assert_eq!(d.buffer[2 * 16384 - 1], 2);
    assert_eq!(d.buffer[2 * 16384], 3);
    assert_eq!(d.buffer[2 * 16384 + 2], 3);
}

#[test]
fn test_add_block_refusals() {
    let mut d = PieceDownload::new(0, 16384 + 100);
    assert_eq!(
        d.add_block(7, &vec![0u8; 16384]),
        Err(DownloadError::MisalignedBlock)
    );
    assert_eq!(
        d.add_block(2 * 16384, &vec![0u8; 100]),
        Err(DownloadError::UnknownBlock)
    );
    assert_eq!(
        d.add_block(16384, &vec![0u8; 99]),
        Err(DownloadError::WrongBlockLength)
    );
    assert_eq!(d.add_block(16384, &vec![0u8; 100]), Ok(()));
}

#[test]
fn test_metadata_rejections() {
    assert!(matches!(
        TorrentMetadata::new(vec![0; 19], 100, 100, vec![0; 20]),
        Err(MetadataError::BadInfoHashLength)
    ));
    assert!(matches!(
        TorrentMetadata::new(vec![0; 20], 100, 0, vec![0; 20]),
        Err(MetadataError::BadPieceLength)
    ));
    assert!(matches!(
        TorrentMetadata::new(vec![0; 20], 0, 100, vec![0; 20]),
        Err(MetadataError::BadTotalLength)
    ));
    assert!(matches!(
        TorrentMetadata::new(vec![0; 20], 100, 100, vec![0; 40]),
        Err(MetadataError::BadHashTableLength)
    ));
}
