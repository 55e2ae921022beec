//! Peer session state machine: the per-connection state and every decision
//! the protocol loop takes.  The caller owns the socket and the timeouts;
//! it feeds decoded messages in and carries frames and claims out, so each
//! decision here is specified and checked for every input the peer could
//! send.

use vstd::prelude::*;

use crate::bytes::{bytes_equal, spec_u32_of_be, u32_of_be};
use crate::download::{
    spec_block_acceptable, spec_block_count, spec_block_length_at, spec_block_offset,
    spec_block_refusal, spec_block_stored, spec_whole_blocks, DownloadError, PieceDownload,
};
use crate::handshake::Handshake;
use crate::message::{
    spec_has_bit, Bitfield, FromMessageError, Message, MessageId, Request,
};
use crate::status::{spec_eligible, PieceState, TorrentStatus, TorrentStatusError};
use crate::torrent::{spec_piece_count, spec_piece_length_at, TorrentMetadata};

verus! {

/// The two flags of choke/interest negotiation.  A session starts choked
/// and not interested.
#[derive(Debug, Clone, Copy, PartialEq, Eq, Structural)]
pub struct SessionStatus {
    pub choked: bool,
    pub interested: bool,
}

impl Default for SessionStatus {
    /// The state before any message: the peer chokes us and we have asked
    /// for nothing.
    fn default() -> (s: SessionStatus)
        ensures
            s.choked,
            !s.interested,
    {
        SessionStatus { choked: true, interested: false }
    }
}

/// Everything that can go wrong in a session, each variant tied by the
/// contracts to the inputs that produce it.  The connection and handshake
/// transport variants are constructed by the caller that owns the socket.
#[derive(Debug, Clone, Copy, PartialEq, Eq, Structural)]
pub enum PeerSessionError {
    CouldNotConnectToPeer,
    HandshakeError,
    InfoHashMismatch,
    MessageError(MessageId),
    FromMessageError(FromMessageError),
    UnexpectedPiece,
    BlockError(DownloadError),
    HashMismatch,
    StatusError(TorrentStatusError),
}

/// One session with one remote peer: the torrent being fetched, what the
/// peer claims to have, the negotiation flags, and the piece download in
/// flight, if any.
///
/// The protocol-visible states live in these fields: idle is choked and
/// not interested, awaiting-unchoke is choked and interested, downloading
/// is unchoked and interested with a piece in flight.  Connecting,
/// handshaking and disconnecting are the socket owner's affair; it drives
/// them with `check_handshake`, `should_send_interested`,
/// `ready_to_request` and `claim_next`.
#[derive(Debug, Clone)]
pub struct PeerSession {
    pub torrent: TorrentMetadata,
    pub bitfield: Bitfield,
    pub status: SessionStatus,
    pub download: Option<PieceDownload>,
    pub pipelining_size: u32,
    pub peer_token: u64,
}

/// The fields that never change after construction are the same in both
/// states.
pub open spec fn spec_same_identity(pre: PeerSession, post: PeerSession) -> bool {
    &&& post.torrent == pre.torrent
    &&& post.pipelining_size == pre.pipelining_size
    &&& post.peer_token == pre.peer_token
}

/// Nothing the peer reported has changed between the two states.
pub open spec fn spec_peer_state_unchanged(pre: PeerSession, post: PeerSession) -> bool {
    &&& post.bitfield == pre.bitfield
    &&& post.status == pre.status
    &&& post.download == pre.download
}

/// What handling a Piece payload does to a session.  A payload shorter
/// than its two offset fields is malformed; one that names no download in
/// flight, or the wrong piece, is unexpected; otherwise the block is held
/// to the piece's partition and, when acceptable, stored at its offset.
pub open spec fn spec_piece_effect(
    pre: PeerSession,
    payload: Seq<u8>,
    post: PeerSession,
    r: Result<(), PeerSessionError>,
) -> bool {
    if payload.len() < 8 {
        &&& r == Err::<(), PeerSessionError>(
            PeerSessionError::MessageError(MessageId::Piece),
        )
        &&& post == pre
    } else {
        let index = spec_u32_of_be(payload[0], payload[1], payload[2], payload[3]);
        let begin = spec_u32_of_be(payload[4], payload[5], payload[6], payload[7]) as u32;
        let block = payload.subrange(8, payload.len() as int);
        match pre.download {
            None => r == Err::<(), PeerSessionError>(PeerSessionError::UnexpectedPiece) && post
                == pre,
            Some(d) => {
                if index != d.piece_index {
                    &&& r == Err::<(), PeerSessionError>(PeerSessionError::UnexpectedPiece)
                    &&& post == pre
                } else if spec_block_acceptable(d.piece_length, begin, block.len() as int) {
                    &&& r == Ok::<(), PeerSessionError>(())
                    &&& spec_same_identity(pre, post)
                    &&& post.bitfield == pre.bitfield
                    &&& post.status == pre.status
                    &&& post.download matches Some(d2) && spec_block_stored(d, begin, block, d2)
                } else {
                    &&& r == Err::<(), PeerSessionError>(
                        PeerSessionError::BlockError(
                            spec_block_refusal(d.piece_length, begin, block.len() as int),
                        ),
                    )
                    &&& post == pre
                }
            },
        }
    }
}

impl PeerSession {
    /// A session is consistent when its torrent is and any download in
    /// flight names a real piece and carries that piece's logical length.
    pub open spec fn wf(&self) -> bool {
        &&& self.torrent.wf()
        &&& self.pipelining_size > 0
        &&& match self.download {
            Some(d) => {
                &&& d.wf()
                &&& (d.piece_index as int) < spec_piece_count(
                    self.torrent.total_length,
                    self.torrent.piece_length,
                )
                &&& d.piece_length == spec_piece_length_at(
                    self.torrent.total_length,
                    self.torrent.piece_length,
                    d.piece_index as int,
                )
            },
            None => true,
        }
    }

    /// A fresh session for one torrent: empty bitfield, choked, not
    /// interested, nothing in flight.  `peer_token` is the identity under
    /// which this session claims pieces; `pipelining_size` is the request
    /// window of the download engine.
    pub fn new(torrent: TorrentMetadata, pipelining_size: u32, peer_token: u64) -> (s: PeerSession)
        requires
            torrent.wf(),
            pipelining_size > 0,
        ensures
            s.wf(),
            s.torrent == torrent,
            s.pipelining_size == pipelining_size,
            s.peer_token == peer_token,
            s.bitfield.bitfield@.len() == 0,
            s.status.choked,
            !s.status.interested,
            s.download is None,
    {
        PeerSession {
            torrent,
            bitfield: Bitfield::new(Vec::new()),
            status: SessionStatus::default(),
            download: None,
            pipelining_size,
            peer_token,
        }
    }

    /// Accepts a remote handshake exactly when it speaks about this
    /// session's torrent; a different info hash is a distinct failure.
    pub fn check_handshake(&self, handshake: &Handshake) -> (r: Result<(), PeerSessionError>)
        ensures
            match r {
                Ok(()) => handshake.info_hash@ == self.torrent.info_hash@,
                Err(e) => {
                    &&& e == PeerSessionError::InfoHashMismatch
                    &&& handshake.info_hash@ != self.torrent.info_hash@
                },
            },
    {
        if bytes_equal(&handshake.info_hash, &self.torrent.info_hash) {
            Ok(())
        } else {
            Err(PeerSessionError::InfoHashMismatch)
        }
    }

    /// Whether the loop owes the peer an Interested message: we are choked
    /// and have not yet said we want data.
    pub fn should_send_interested(&self) -> (r: bool)
        ensures
            r == (self.status.choked && !self.status.interested),
    {
        self.status.choked && !self.status.interested
    }

    /// Records that Interested has been sent; sent once, it is never sent
    /// again, because the flag never goes back down.
    pub fn mark_interested(&mut self)
        requires
            old(self).wf(),
        ensures
            final(self).wf(),
            spec_same_identity(*old(self), *final(self)),
            final(self).bitfield == old(self).bitfield,
            final(self).download == old(self).download,
            final(self).status.interested,
            final(self).status.choked == old(self).status.choked,
    {
        self.status.interested = true;
    }

    /// Whether the session may start requesting pieces: unchoked and
    /// interested.
    pub fn ready_to_request(&self) -> (r: bool)
        ensures
            r == (!self.status.choked && self.status.interested),
    {
        !self.status.choked && self.status.interested
    }

    /// Applies one decoded message to the session and reports its
    /// identifier.  Unchoke clears the choked flag; Bitfield replaces the
    /// peer's bitmap; Have sets one bit of it; Piece stores a block of the
    /// download in flight; every other message changes nothing.
    pub fn handle_message(&mut self, message: Message) -> (r: Result<
        MessageId,
        PeerSessionError,
    >)
        requires
            old(self).wf(),
        ensures
            final(self).wf(),
            spec_same_identity(*old(self), *final(self)),
            match message.id {
                MessageId::Unchoke => {
                    &&& r == Ok::<MessageId, PeerSessionError>(MessageId::Unchoke)
                    &&& !final(self).status.choked
                    &&& final(self).status.interested == old(self).status.interested
                    &&& final(self).bitfield == old(self).bitfield
                    &&& final(self).download == old(self).download
                },
                MessageId::Bitfield => {
                    &&& r == Ok::<MessageId, PeerSessionError>(MessageId::Bitfield)
                    &&& final(self).bitfield.bitfield@ == message.payload@
                    &&& final(self).status == old(self).status
                    &&& final(self).download == old(self).download
                },
                MessageId::Have => {
                    let idx = spec_u32_of_be(
                        message.payload@[0],
                        message.payload@[1],
                        message.payload@[2],
                        message.payload@[3],
                    );
                    if message.payload@.len() == 4 && idx / 8 < old(self).bitfield.bitfield@.len() {
                        &&& r == Ok::<MessageId, PeerSessionError>(MessageId::Have)
                        &&& final(self).bitfield.bitfield@.len()
                            == old(self).bitfield.bitfield@.len()
                        &&& forall|j: int|
                            spec_has_bit(final(self).bitfield.bitfield@, j) == (j == idx
                                || spec_has_bit(old(self).bitfield.bitfield@, j))
                        &&& final(self).status == old(self).status
                        &&& final(self).download == old(self).download
                    } else {
                        &&& r == Err::<MessageId, PeerSessionError>(
                            PeerSessionError::MessageError(MessageId::Have),
                        )
                        &&& spec_peer_state_unchanged(*old(self), *final(self))
                    }
                },
                MessageId::Piece => {
                    &&& spec_piece_effect(
                        *old(self),
                        message.payload@,
                        *final(self),
                        match r {
                            Ok(_) => Ok::<(), PeerSessionError>(()),
                            Err(e) => Err::<(), PeerSessionError>(e),
                        },
                    )
                    &&& (r is Ok ==> r == Ok::<MessageId, PeerSessionError>(MessageId::Piece))
                },
                _ => {
                    &&& r == Ok::<MessageId, PeerSessionError>(message.id)
                    &&& spec_peer_state_unchanged(*old(self), *final(self))
                },
            },
    {
        match message.id {
            MessageId::Unchoke => {
                self.status.choked = false;
                Ok(MessageId::Unchoke)
            },
            MessageId::Bitfield => {
                self.bitfield = Bitfield::new(message.payload);
                Ok(MessageId::Bitfield)
            },
            MessageId::Have => {
                if message.payload.len() != 4 {
                    return Err(PeerSessionError::MessageError(MessageId::Have));
                }
                let idx = u32_of_be(
                    message.payload[0],
                    message.payload[1],
                    message.payload[2],
                    message.payload[3],
                );
                if (idx / 8) as usize >= self.bitfield.byte_len() {
                    return Err(PeerSessionError::MessageError(MessageId::Have));
                }
                self.bitfield.set_piece(idx);
                Ok(MessageId::Have)
            },
            MessageId::Piece => {
                match self.handle_piece(message) {
                    Ok(()) => Ok(MessageId::Piece),
                    Err(e) => Err(e),
                }
            },
            _ => Ok(message.id),
        }
    }

    /// Stores the block a Piece payload carries into the download in
    /// flight, keyed by the byte offset the payload names.
    pub fn handle_piece(&mut self, message: Message) -> (r: Result<(), PeerSessionError>)
        requires
            old(self).wf(),
        ensures
            final(self).wf(),
            spec_piece_effect(*old(self), message.payload@, *final(self), r),
    {
        if message.payload.len() < 8 {
            return Err(PeerSessionError::MessageError(MessageId::Piece));
        }
        let index = u32_of_be(
            message.payload[0],
            message.payload[1],
            message.payload[2],
            message.payload[3],
        );
        let begin = u32_of_be(
            message.payload[4],
            message.payload[5],
            message.payload[6],
            message.payload[7],
        );
        let mut block: Vec<u8> = Vec::new();
        let mut j: usize = 8;
        while j < message.payload.len()
            invariant
                8 <= j <= message.payload@.len(),
                block@ =~= message.payload@.subrange(8, j as int),
            decreases message.payload@.len() - j,
        {
            block.push(message.payload[j]);
            j = j + 1;
        }
        assert(block@ =~= message.payload@.subrange(8, message.payload@.len() as int));
        match &mut self.download {
            None => Err(PeerSessionError::UnexpectedPiece),
            Some(d) => {
                if index != d.piece_index {
                    return Err(PeerSessionError::UnexpectedPiece);
                }
                match d.add_block(begin, block.as_slice()) {
                    Ok(()) => Ok(()),
                    Err(e) => Err(PeerSessionError::BlockError(e)),
                }
            },
        }
    }

    /// Asks the allocator for the next piece this peer can serve and, when
    /// one is claimed, opens its download: a zeroed buffer of the piece's
    /// logical length with nothing requested yet.  Returns nothing, and
    /// changes nothing, when no piece the peer claims is still missing.
    pub fn claim_next(&mut self, status: &mut TorrentStatus) -> (r: Option<u32>)
        requires
            old(self).wf(),
            old(self).download is None,
            old(status).wf(),
            old(status).pieces@.len() == spec_piece_count(
                old(self).torrent.total_length,
                old(self).torrent.piece_length,
            ),
        ensures
            final(self).wf(),
            final(status).wf(),
            spec_same_identity(*old(self), *final(self)),
            final(self).bitfield == old(self).bitfield,
            final(self).status == old(self).status,
            final(status).pieces@.len() == old(status).pieces@.len(),
            final(status).remaining == old(status).remaining,
            final(status).connected_peers == old(status).connected_peers,
            match r {
                Some(i) => {
                    &&& spec_eligible(old(status).pieces@, old(self).bitfield.bitfield@, i as int)
                    &&& forall|j: int|
                        0 <= j < i ==> !spec_eligible(
                            old(status).pieces@,
                            old(self).bitfield.bitfield@,
                            j,
                        )
                    &&& final(status).pieces@ =~= old(status).pieces@.update(
                        i as int,
                        PieceState::Downloading(old(self).peer_token),
                    )
                    &&& final(status).downloading == old(status).downloading + 1
                    &&& final(self).download matches Some(d) && {
                        &&& d.piece_index == i
                        &&& d.piece_length == spec_piece_length_at(
                            old(self).torrent.total_length,
                            old(self).torrent.piece_length,
                            i as int,
                        )
                        &&& d.requested == 0
                        &&& forall|k: int| 0 <= k < d.received@.len() ==> !d.received@[k]
                        &&& d.buffer@ =~= Seq::new(d.piece_length as nat, |t: int| 0u8)
                    }
                },
                None => {
                    &&& *final(status) == *old(status)
                    &&& final(self).download is None
                    &&& forall|j: int|
                        !spec_eligible(old(status).pieces@, old(self).bitfield.bitfield@, j)
                },
            },
    {
        match status.select_piece(&self.bitfield, self.peer_token) {
            Some(piece_index) => {
                let piece_length = self.torrent.piece_length_at(piece_index);
                self.download = Some(PieceDownload::new(piece_index, piece_length));
                Some(piece_index)
            },
            None => None,
        }
    }

    /// The next batch of block requests for the download in flight, under
    /// this session's pipelining window.
    pub fn next_requests(&mut self) -> (batch: Vec<Request>)
        requires
            old(self).wf(),
            old(self).download is Some,
        ensures
            final(self).wf(),
            spec_same_identity(*old(self), *final(self)),
            final(self).bitfield == old(self).bitfield,
            final(self).status == old(self).status,
            old(self).download matches Some(pre) ==> (final(self).download matches Some(post) && {
                &&& post.piece_index == pre.piece_index
                &&& post.piece_length == pre.piece_length
                &&& post.buffer == pre.buffer
                &&& post.received == pre.received
                &&& post.requested == pre.requested + batch@.len()
                &&& pre.requested + batch@.len() <= spec_block_count(pre.piece_length)
                &&& batch@.len() == {
                    let whole = spec_whole_blocks(pre.piece_length);
                    if pre.requested < whole {
                        if whole - pre.requested < old(self).pipelining_size {
                            whole - pre.requested
                        } else {
                            old(self).pipelining_size as int
                        }
                    } else if pre.requested < spec_block_count(pre.piece_length) {
                        1int
                    } else {
                        0int
                    }
                }
                &&& forall|i: int|
                    0 <= i < batch@.len() ==> {
                        let k = pre.requested + i;
                        &&& (#[trigger] batch@[i]).index == pre.piece_index
                        &&& batch@[i].begin == spec_block_offset(k)
                        &&& batch@[i].length == spec_block_length_at(pre.piece_length, k)
                    }
            }),
    {
        let window = self.pipelining_size;
        match &mut self.download {
            Some(d) => d.next_batch(window),
            None => Vec::new(),
        }
    }

    /// Whether the download in flight has every block.
    pub fn piece_complete(&self) -> (r: bool)
        requires
            self.wf(),
        ensures
            match self.download {
                Some(d) => r == d.spec_complete(),
                None => r == false,
            },
    {
        match &self.download {
            Some(d) => d.is_complete(),
            None => false,
        }
    }

    /// Drops the download in flight, complete or abandoned; the caller
    /// reports the outcome to the allocator.
    pub fn clear_download(&mut self)
        requires
            old(self).wf(),
        ensures
            final(self).wf(),
            spec_same_identity(*old(self), *final(self)),
            final(self).bitfield == old(self).bitfield,
            final(self).status == old(self).status,
            final(self).download is None,
    {
        self.download = None;
    }

    /// Checks a reassembled piece against the stored hash for its index and
    /// reports the outcome to the allocator.  A piece whose digest equals
    /// the stored hash is accepted: the allocator marks it downloaded, and
    /// the remaining count drops by one.  Any other piece is rejected: the
    /// piece goes back to missing, this peer is counted disconnected, and
    /// the caller gets the hash-mismatch error.  Reporting an accepted
    /// piece the allocator did not see as downloading fails loudly instead.
    pub fn validate_piece(&self, piece: &Vec<u8>, piece_index: u32, status: &mut TorrentStatus) -> (r:
        Result<(), PeerSessionError>)
        requires
            self.wf(),
            piece_index < spec_piece_count(self.torrent.total_length, self.torrent.piece_length),
            old(status).wf(),
            old(status).pieces@.len() == spec_piece_count(
                self.torrent.total_length,
                self.torrent.piece_length,
            ),
        ensures
            final(status).wf(),
            final(status).pieces@.len() == old(status).pieces@.len(),
            ({
                let expected = self.torrent.pieces@.subrange(
                    20 * piece_index as int,
                    20 * piece_index as int + 20,
                );
                if crate::hash::spec_sha1(piece@) == expected {
                    if old(status).pieces@[piece_index as int] is Downloading {
                        &&& r == Ok::<(), PeerSessionError>(())
                        &&& final(status).pieces@ =~= old(status).pieces@.update(
                            piece_index as int,
                            PieceState::Downloaded,
                        )
                        &&& final(status).remaining == old(status).remaining - 1
                        &&& final(status).downloading == old(status).downloading - 1
                        &&& final(status).connected_peers == old(status).connected_peers
                    } else {
                        &&& r == Err::<(), PeerSessionError>(
                            PeerSessionError::StatusError(TorrentStatusError::PieceNotDownloading),
                        )
                        &&& *final(status) == *old(status)
                    }
                } else {
                    &&& r == Err::<(), PeerSessionError>(PeerSessionError::HashMismatch)
                    &&& final(status).remaining == old(status).remaining
                    &&& final(status).connected_peers == (if old(status).connected_peers > 0 {
                        (old(status).connected_peers - 1) as u32
                    } else {
                        0u32
                    })
                    &&& if old(status).pieces@[piece_index as int] is Downloading {
                        &&& final(status).pieces@ =~= old(status).pieces@.update(
                            piece_index as int,
                            PieceState::Missing,
                        )
                        &&& final(status).downloading == old(status).downloading - 1
                    } else {
                        &&& final(status).pieces@ =~= old(status).pieces@
                        &&& final(status).downloading == old(status).downloading
                    }
                }
            }),
    {
        let expected = self.torrent.piece_hash(piece_index);
        let digest = crate::hash::sha1_digest(piece);
        if bytes_equal(&digest, &expected) {
            match status.piece_downloaded(piece_index) {
                Ok(()) => Ok(()),
                Err(e) => Err(PeerSessionError::StatusError(e)),
            }
        } else {
            status.peer_disconnected();
            match status.piece_aborted(piece_index) {
                Ok(()) => Err(PeerSessionError::HashMismatch),
                Err(e) => Err(PeerSessionError::StatusError(e)),
            }
        }
    }
}

} // verus!
