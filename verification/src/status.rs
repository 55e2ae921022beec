//! Torrent piece allocator: the shared record of which pieces are missing,
//! downloading, or downloaded, and the claim operation that hands each piece
//! to at most one session at a time.
//!
//! The structure itself is sequential; callers that share it across threads
//! wrap it in a mutual-exclusion primitive and hold the lock across each
//! operation, so every interleaving of sessions is a sequence of the
//! transitions specified here.

use vstd::prelude::*;

use crate::message::{spec_has_bit, Bitfield};

verus! {

/// The lifecycle of one piece.  A piece is claimed by at most one session,
/// named by an opaque token, and becomes eligible again if that session
/// aborts it.
#[derive(Debug, Clone, Copy, PartialEq, Eq, Structural)]
pub enum PieceState {
    Missing,
    Downloading(u64),
    Downloaded,
}

/// The number of entries of `s` that satisfy `f`.
pub open spec fn spec_count(s: Seq<PieceState>, f: spec_fn(PieceState) -> bool) -> int
    decreases s.len(),
{
    if s.len() == 0 {
        0int
    } else {
        spec_count(s.drop_last(), f) + if f(s.last()) {
            1int
        } else {
            0int
        }
    }
}

/// Counts lie between zero and the sequence length.
pub proof fn lemma_count_bounds(s: Seq<PieceState>, f: spec_fn(PieceState) -> bool)
    ensures
        0 <= spec_count(s, f) <= s.len(),
    decreases s.len(),
{
    if s.len() > 0 {
        lemma_count_bounds(s.drop_last(), f);
    }
}

/// An entry that does not satisfy `f` keeps the count below the length.
pub proof fn lemma_count_missing_one(s: Seq<PieceState>, f: spec_fn(PieceState) -> bool, i: int)
    requires
        0 <= i < s.len(),
        !f(s[i]),
    ensures
        spec_count(s, f) <= s.len() - 1,
    decreases s.len(),
{
    lemma_count_bounds(s.drop_last(), f);
    if i < s.len() - 1 {
        lemma_count_missing_one(s.drop_last(), f, i);
    }
}

/// An entry that satisfies `f` keeps the count above zero.
pub proof fn lemma_count_at_least_one(s: Seq<PieceState>, f: spec_fn(PieceState) -> bool, i: int)
    requires
        0 <= i < s.len(),
        f(s[i]),
    ensures
        spec_count(s, f) >= 1,
    decreases s.len(),
{
    lemma_count_bounds(s.drop_last(), f);
    if i < s.len() - 1 {
        lemma_count_at_least_one(s.drop_last(), f, i);
    }
}

/// Replacing entry `i` changes the count by the contributions of the old
/// and new values there.
pub proof fn lemma_count_update(
    s: Seq<PieceState>,
    f: spec_fn(PieceState) -> bool,
    i: int,
    v: PieceState,
)
    requires
        0 <= i < s.len(),
    ensures
        spec_count(s.update(i, v), f) == spec_count(s, f) - (if f(s[i]) {
            1int
        } else {
            0int
        }) + (if f(v) {
            1int
        } else {
            0int
        }),
    decreases s.len(),
{
    let su = s.update(i, v);
    if i == s.len() - 1 {
        assert(su.drop_last() =~= s.drop_last());
    } else {
        assert(su.drop_last() =~= s.drop_last().update(i, v));
        lemma_count_update(s.drop_last(), f, i, v);
    }
}

/// The predicate of a piece still to be fetched: anything not downloaded.
pub open spec fn spec_is_remaining(p: PieceState) -> bool {
    !(p is Downloaded)
}

/// The predicate of a piece a session currently holds.
pub open spec fn spec_is_downloading(p: PieceState) -> bool {
    p is Downloading
}

/// Whether piece `i` can be claimed against the bitmap `bits`: the peer
/// claims it and nobody holds or finished it.
pub open spec fn spec_eligible(pieces: Seq<PieceState>, bits: Seq<u8>, i: int) -> bool {
    &&& 0 <= i < pieces.len()
    &&& pieces[i] is Missing
    &&& spec_has_bit(bits, i)
}

/// Error returned when a completion or abort report names a piece in the
/// wrong state: a caller bug, surfaced rather than absorbed.
#[derive(Debug, Clone, Copy, PartialEq, Eq, Structural)]
pub enum TorrentStatusError {
    InvalidPieceIndex,
    PieceNotDownloading,
}

/// The shared, single source of truth for one torrent's piece states, with
/// the aggregate counters sessions poll for progress.
#[derive(Debug, Clone)]
pub struct TorrentStatus {
    pub pieces: Vec<PieceState>,
    pub remaining: u32,
    pub downloading: u32,
    pub connected_peers: u32,
}

impl TorrentStatus {
    /// The counters agree with the piece table.
    pub open spec fn wf(&self) -> bool {
        &&& self.remaining == spec_count(self.pieces@, |p: PieceState| spec_is_remaining(p))
        &&& self.downloading == spec_count(self.pieces@, |p: PieceState| spec_is_downloading(p))
        &&& self.pieces@.len() <= u32::MAX
    }

    /// A fresh status: every piece missing, nothing downloading, nobody
    /// connected.
    pub fn new(piece_count: u32) -> (s: TorrentStatus)
        ensures
            s.wf(),
            s.pieces@.len() == piece_count,
            forall|i: int| 0 <= i < piece_count ==> s.pieces@[i] is Missing,
            s.remaining == piece_count,
            s.downloading == 0,
            s.connected_peers == 0,
    {
        let mut pieces: Vec<PieceState> = Vec::new();
        let mut i: u32 = 0;
        while i < piece_count
            invariant
                i <= piece_count,
                pieces@.len() == i,
                forall|t: int| 0 <= t < i ==> pieces@[t] is Missing,
                spec_count(pieces@, |p: PieceState| spec_is_remaining(p)) == i,
                spec_count(pieces@, |p: PieceState| spec_is_downloading(p)) == 0,
            decreases piece_count - i,
        {
            let ghost prev = pieces@;
            pieces.push(PieceState::Missing);
            proof {
                assert(pieces@.drop_last() =~= prev);
            }
            i = i + 1;
        }
        TorrentStatus { pieces, remaining: piece_count, downloading: 0, connected_peers: 0 }
    }

    /// The number of pieces this torrent has.
    pub fn piece_total(&self) -> (n: usize)
        ensures
            n == self.pieces@.len(),
    {
        self.pieces.len()
    }

    /// Claims the lowest-numbered piece that the given bitmap offers and
    /// that is still missing, marking it as held by `peer`; returns nothing,
    /// and changes nothing, when no piece is eligible.  While a piece is
    /// held its state is not `Missing`, so no later claim can return it
    /// until it is aborted.
    pub fn select_piece(&mut self, bitfield: &Bitfield, peer: u64) -> (r: Option<u32>)
        requires
            old(self).wf(),
        ensures
            final(self).wf(),
            final(self).pieces@.len() == old(self).pieces@.len(),
            final(self).remaining == old(self).remaining,
            final(self).connected_peers == old(self).connected_peers,
            match r {
                Some(i) => {
                    &&& spec_eligible(old(self).pieces@, bitfield.bitfield@, i as int)
                    &&& forall|j: int|
                        0 <= j < i ==> !spec_eligible(old(self).pieces@, bitfield.bitfield@, j)
                    &&& final(self).pieces@ =~= old(self).pieces@.update(
                        i as int,
                        PieceState::Downloading(peer),
                    )
                    &&& final(self).downloading == old(self).downloading + 1
                },
                None => {
                    &&& *final(self) == *old(self)
                    &&& forall|j: int| !spec_eligible(old(self).pieces@, bitfield.bitfield@, j)
                },
            },
    {
        let total = self.pieces.len();
        let mut i: usize = 0;
        while i < total
            invariant
                *self == *old(self),
                self.wf(),
                total == self.pieces@.len(),
                i <= total,
                forall|j: int| 0 <= j < i ==> !spec_eligible(self.pieces@, bitfield.bitfield@, j),
            decreases total - i,
        {
            let is_missing = matches!(self.pieces[i], PieceState::Missing);
            if is_missing && bitfield.has_piece(i as u32) {
                proof {
                    lemma_count_update(
                        self.pieces@,
                        |p: PieceState| spec_is_remaining(p),
                        i as int,
                        PieceState::Downloading(peer),
                    );
                    lemma_count_update(
                        self.pieces@,
                        |p: PieceState| spec_is_downloading(p),
                        i as int,
                        PieceState::Downloading(peer),
                    );
                    lemma_count_missing_one(
                        self.pieces@,
                        |p: PieceState| spec_is_downloading(p),
                        i as int,
                    );
                }
                self.pieces.set(i, PieceState::Downloading(peer));
                self.downloading = self.downloading + 1;
                return Some(i as u32);
            }
            i = i + 1;
        }
        None
    }

    /// Records that the piece a session held has been fetched and verified:
    /// it becomes `Downloaded`, for good, and the remaining count drops by
    /// exactly one.  Fails, changing nothing, when the index is out of
    /// range or the piece was not being downloaded.
    pub fn piece_downloaded(&mut self, index: u32) -> (r: Result<(), TorrentStatusError>)
        requires
            old(self).wf(),
        ensures
            final(self).wf(),
            final(self).pieces@.len() == old(self).pieces@.len(),
            final(self).connected_peers == old(self).connected_peers,
            match r {
                Ok(()) => {
                    &&& index < old(self).pieces@.len()
                    &&& old(self).pieces@[index as int] is Downloading
                    &&& final(self).pieces@ =~= old(self).pieces@.update(
                        index as int,
                        PieceState::Downloaded,
                    )
                    &&& final(self).remaining == old(self).remaining - 1
                    &&& final(self).downloading == old(self).downloading - 1
                },
                Err(TorrentStatusError::InvalidPieceIndex) => {
                    &&& *final(self) == *old(self)
                    &&& index >= old(self).pieces@.len()
                },
                Err(TorrentStatusError::PieceNotDownloading) => {
                    &&& *final(self) == *old(self)
                    &&& index < old(self).pieces@.len()
                    &&& !(old(self).pieces@[index as int] is Downloading)
                },
            },
    {
        let iu = index as usize;
        if iu >= self.pieces.len() {
            return Err(TorrentStatusError::InvalidPieceIndex);
        }
        let is_downloading = matches!(self.pieces[iu], PieceState::Downloading(_));
        if !is_downloading {
            return Err(TorrentStatusError::PieceNotDownloading);
        }
        proof {
            lemma_count_update(
                self.pieces@,
                |p: PieceState| spec_is_remaining(p),
                index as int,
                PieceState::Downloaded,
            );
            lemma_count_update(
                self.pieces@,
                |p: PieceState| spec_is_downloading(p),
                index as int,
                PieceState::Downloaded,
            );
            lemma_count_at_least_one(
                self.pieces@,
                |p: PieceState| spec_is_remaining(p),
                index as int,
            );
            lemma_count_at_least_one(
                self.pieces@,
                |p: PieceState| spec_is_downloading(p),
                index as int,
            );
        }
        self.pieces.set(iu, PieceState::Downloaded);
        self.remaining = self.remaining - 1;
        self.downloading = self.downloading - 1;
        Ok(())
    }

    /// Returns the piece a session held to the pool: a downloading piece
    /// becomes missing, and so eligible for any other session; a piece in
    /// any other state is left as it is, so a defensive abort of a piece
    /// never claimed is harmless.  Fails only on an out-of-range index.
    pub fn piece_aborted(&mut self, index: u32) -> (r: Result<(), TorrentStatusError>)
        requires
            old(self).wf(),
        ensures
            final(self).wf(),
            final(self).pieces@.len() == old(self).pieces@.len(),
            final(self).remaining == old(self).remaining,
            final(self).connected_peers == old(self).connected_peers,
            match r {
                Ok(()) => {
                    &&& index < old(self).pieces@.len()
                    &&& if old(self).pieces@[index as int] is Downloading {
                        &&& final(self).pieces@ =~= old(self).pieces@.update(
                            index as int,
                            PieceState::Missing,
                        )
                        &&& final(self).downloading == old(self).downloading - 1
                    } else {
                        *final(self) == *old(self)
                    }
                },
                Err(e) => {
                    &&& *final(self) == *old(self)
                    &&& e == TorrentStatusError::InvalidPieceIndex
                    &&& index >= old(self).pieces@.len()
                },
            },
    {
        let iu = index as usize;
        if iu >= self.pieces.len() {
            return Err(TorrentStatusError::InvalidPieceIndex);
        }
        let is_downloading = matches!(self.pieces[iu], PieceState::Downloading(_));
        if is_downloading {
            proof {
                lemma_count_update(
                    self.pieces@,
                    |p: PieceState| spec_is_remaining(p),
                    index as int,
                    PieceState::Missing,
                );
                lemma_count_update(
                    self.pieces@,
                    |p: PieceState| spec_is_downloading(p),
                    index as int,
                    PieceState::Missing,
                );
                lemma_count_at_least_one(
                    self.pieces@,
                    |p: PieceState| spec_is_downloading(p),
                    index as int,
                );
            }
            self.pieces.set(iu, PieceState::Missing);
            self.downloading = self.downloading - 1;
        }
        Ok(())
    }

    /// Records one more connected session.
    pub fn peer_connected(&mut self)
        requires
            old(self).wf(),
            old(self).connected_peers < u32::MAX,
        ensures
            final(self).wf(),
            final(self).pieces == old(self).pieces,
            final(self).remaining == old(self).remaining,
            final(self).downloading == old(self).downloading,
            final(self).connected_peers == old(self).connected_peers + 1,
    {
        self.connected_peers = self.connected_peers + 1;
    }

    /// Records that a session has gone: a diagnostic counter, saturating at
    /// zero and touching no piece state.
    pub fn peer_disconnected(&mut self)
        requires
            old(self).wf(),
        ensures
            final(self).wf(),
            final(self).pieces == old(self).pieces,
            final(self).remaining == old(self).remaining,
            final(self).downloading == old(self).downloading,
            final(self).connected_peers == if old(self).connected_peers > 0 {
                (old(self).connected_peers - 1) as u32
            } else {
                0u32
            },
    {
        if self.connected_peers > 0 {
            self.connected_peers = self.connected_peers - 1;
        }
    }

    /// How many pieces are not yet downloaded.
    pub fn remaining_pieces(&self) -> (n: u32)
        requires
            self.wf(),
        ensures
            n == spec_count(self.pieces@, |p: PieceState| spec_is_remaining(p)),
    {
        self.remaining
    }

    /// How many pieces sessions are downloading right now.
    pub fn current_downloading_pieces(&self) -> (n: u32)
        requires
            self.wf(),
        ensures
            n == spec_count(self.pieces@, |p: PieceState| spec_is_downloading(p)),
    {
        self.downloading
    }
}

/// A claimed piece cannot be claimed again: once a claim marks piece `i` as
/// downloading, `i` is eligible under no bitmap until it is aborted.
pub proof fn lemma_claimed_piece_not_reselectable(
    pieces: Seq<PieceState>,
    bits1: Seq<u8>,
    bits2: Seq<u8>,
    i: int,
    peer: u64,
)
    requires
        spec_eligible(pieces, bits1, i),
    ensures
        !spec_eligible(pieces.update(i, PieceState::Downloading(peer)), bits2, i),
{
}

/// A downloaded piece is never eligible again, under any bitmap.
pub proof fn lemma_downloaded_piece_never_eligible(pieces: Seq<PieceState>, bits: Seq<u8>, i: int)
    requires
        0 <= i < pieces.len(),
        pieces[i] is Downloaded,
    ensures
        !spec_eligible(pieces, bits, i),
{
}

/// After an abort returns piece `i` to missing, any peer whose bitmap
/// claims `i` can claim it again.
pub proof fn lemma_aborted_piece_eligible_again(pieces: Seq<PieceState>, bits: Seq<u8>, i: int)
    requires
        0 <= i < pieces.len(),
        spec_has_bit(bits, i),
    ensures
        spec_eligible(pieces.update(i, PieceState::Missing), bits, i),
{
}

} // verus!
