//! Piece download engine: block partitioning of a piece, the sliding-window
//! request batches, and reassembly of the piece buffer keyed by each block's
//! byte offset.

use vstd::arithmetic::div_mod::lemma_fundamental_div_mod;
use vstd::arithmetic::mul::lemma_mul_inequality;
use vstd::prelude::*;

use crate::message::Request;

verus! {

/// The fixed transfer unit: every block but possibly the last of a piece is
/// this long.
pub const BLOCK_SIZE: u32 = 16384;

/// How many whole blocks of `BLOCK_SIZE` bytes fit in a piece of
/// `piece_length` bytes.
pub open spec fn spec_whole_blocks(piece_length: u32) -> int {
    piece_length as int / BLOCK_SIZE as int
}

/// The length of the trailing partial block, zero when the piece is an
/// exact multiple of the block size.
pub open spec fn spec_last_block_length(piece_length: u32) -> int {
    piece_length as int % BLOCK_SIZE as int
}

/// The number of blocks a piece is requested in: its whole blocks, plus one
/// for the trailing partial block when there is one.
pub open spec fn spec_block_count(piece_length: u32) -> int {
    spec_whole_blocks(piece_length) + if spec_last_block_length(piece_length) == 0 {
        0int
    } else {
        1int
    }
}

/// The byte offset of block `k` inside its piece.
pub open spec fn spec_block_offset(k: int) -> int {
    k * BLOCK_SIZE
}

/// The length of block `k` of a piece: the block size for each whole block,
/// the remainder for the trailing partial block.
pub open spec fn spec_block_length_at(piece_length: u32, k: int) -> int
    recommends
        0 <= k < spec_block_count(piece_length),
{
    if k < spec_whole_blocks(piece_length) {
        BLOCK_SIZE as int
    } else {
        spec_last_block_length(piece_length)
    }
}

/// Every block of a piece lies inside the piece: its offset starts before
/// the end, and its offset plus its length stays within the piece, exactly
/// reaching the end for the final block.
pub proof fn lemma_block_partition(piece_length: u32, k: int)
    requires
        piece_length > 0,
        0 <= k < spec_block_count(piece_length),
    ensures
        0 < spec_block_length_at(piece_length, k) <= BLOCK_SIZE,
        spec_block_offset(k) + spec_block_length_at(piece_length, k) <= piece_length,
        k + 1 == spec_block_count(piece_length) ==> spec_block_offset(k) + spec_block_length_at(
            piece_length,
            k,
        ) == piece_length,
{
    let p = piece_length as int;
    let b = BLOCK_SIZE as int;
    let w = p / b;
    let r = p % b;
    lemma_fundamental_div_mod(p, b);
    assert(p == b * w + r);
    if k < w {
        lemma_mul_inequality(k + 1, w, b);
        assert((k + 1) * b == k * b + b) by (nonlinear_arith);
        assert(w * b == b * w) by (nonlinear_arith);
    } else {
        assert(k == w);
        assert(w * b == b * w) by (nonlinear_arith);
    }
}

/// Whether a block of `len` bytes starting at byte `begin` is one of the
/// blocks a piece of `piece_length` bytes is cut into: it starts on a block
/// boundary, names a block of the piece, and has exactly that block's
/// length.
pub open spec fn spec_block_acceptable(piece_length: u32, begin: u32, len: int) -> bool {
    let k = begin as int / BLOCK_SIZE as int;
    &&& begin as int % BLOCK_SIZE as int == 0
    &&& k < spec_block_count(piece_length)
    &&& len == spec_block_length_at(piece_length, k)
}

/// The reason a block of `len` bytes at byte `begin` is refused, the first
/// failing check deciding.
pub open spec fn spec_block_refusal(piece_length: u32, begin: u32, len: int) -> DownloadError {
    let k = begin as int / BLOCK_SIZE as int;
    if begin as int % BLOCK_SIZE as int != 0 {
        DownloadError::MisalignedBlock
    } else if k >= spec_block_count(piece_length) {
        DownloadError::UnknownBlock
    } else {
        DownloadError::WrongBlockLength
    }
}

/// How storing the block at byte `begin` changes a download: the block's
/// slot is marked received, the block's bytes land at their offset in the
/// buffer, and every other byte and field is untouched.
pub open spec fn spec_block_stored(
    pre: PieceDownload,
    begin: u32,
    block: Seq<u8>,
    post: PieceDownload,
) -> bool {
    let k = begin as int / BLOCK_SIZE as int;
    &&& post.piece_index == pre.piece_index
    &&& post.piece_length == pre.piece_length
    &&& post.requested == pre.requested
    &&& post.received@ == pre.received@.update(k, true)
    &&& post.buffer@.len() == pre.buffer@.len()
    &&& forall|t: int| 0 <= t < block.len() ==> post.buffer@[begin + t] == block[t]
    &&& forall|t: int|
        0 <= t < pre.buffer@.len() && !(begin <= t < begin + block.len()) ==> post.buffer@[t]
            == pre.buffer@[t]
}

/// Why a Piece message's block was refused by the engine.
#[derive(Debug, Clone, Copy, PartialEq, Eq, Structural)]
pub enum DownloadError {
    MisalignedBlock,
    UnknownBlock,
    WrongBlockLength,
}

/// The in-flight download of one assigned piece: the reassembly buffer, a
/// record of which blocks have arrived, and how far the ascending request
/// cursor has advanced.
#[derive(Debug, Clone)]
pub struct PieceDownload {
    pub piece_index: u32,
    pub piece_length: u32,
    pub buffer: Vec<u8>,
    pub received: Vec<bool>,
    pub requested: u32,
}

impl PieceDownload {
    /// The internal consistency of a download in progress.
    pub open spec fn wf(&self) -> bool {
        &&& self.piece_length > 0
        &&& self.buffer@.len() == self.piece_length
        &&& self.received@.len() == spec_block_count(self.piece_length)
        &&& self.requested <= spec_block_count(self.piece_length)
    }

    /// Whether every block of the piece has arrived.
    pub open spec fn spec_complete(&self) -> bool {
        forall|k: int| 0 <= k < self.received@.len() ==> self.received@[k]
    }

    /// Starts the download of piece `piece_index`, whose logical length is
    /// `piece_length` bytes: a zeroed buffer, no block received, no block
    /// requested.
    pub fn new(piece_index: u32, piece_length: u32) -> (d: PieceDownload)
        requires
            piece_length > 0,
        ensures
            d.wf(),
            d.piece_index == piece_index,
            d.piece_length == piece_length,
            d.buffer@ =~= Seq::new(piece_length as nat, |i: int| 0u8),
            d.requested == 0,
            forall|k: int| 0 <= k < d.received@.len() ==> !d.received@[k],
    {
        proof {
            lemma_block_partition(piece_length, 0);
        }
        let mut buffer: Vec<u8> = Vec::new();
        let mut i: usize = 0;
        while i < piece_length as usize
            invariant
                i <= piece_length,
                buffer@ =~= Seq::new(i as nat, |j: int| 0u8),
            decreases piece_length - i,
        {
            buffer.push(0);
            i = i + 1;
        }
        let whole = piece_length / BLOCK_SIZE;
        let rem = piece_length % BLOCK_SIZE;
        let block_count: u32 = if rem == 0 {
            whole
        } else {
            whole + 1
        };
        let mut received: Vec<bool> = Vec::new();
        let mut k: usize = 0;
        while k < block_count as usize
            invariant
                k <= block_count,
                received@.len() == k,
                forall|t: int| 0 <= t < k ==> !received@[t],
            decreases block_count - k,
        {
            received.push(false);
            k = k + 1;
        }
        PieceDownload { piece_index, piece_length, buffer, received, requested: 0 }
    }

    /// Whether every block of the piece has arrived.
    pub fn is_complete(&self) -> (r: bool)
        requires
            self.wf(),
        ensures
            r == self.spec_complete(),
    {
        let mut k: usize = 0;
        while k < self.received.len()
            invariant
                k <= self.received@.len(),
                forall|t: int| 0 <= t < k ==> self.received@[t],
            decreases self.received@.len() - k,
        {
            if !self.received[k] {
                return false;
            }
            k = k + 1;
        }
        true
    }

    /// The next batch of block requests under a pipelining window of
    /// `window` requests: the next `window` whole blocks, or as many as
    /// remain if fewer; once every whole block has been requested, the
    /// trailing partial block alone; and nothing once every block has been
    /// requested.
    pub fn next_batch(&mut self, window: u32) -> (batch: Vec<Request>)
        requires
            old(self).wf(),
            window > 0,
        ensures
            final(self).wf(),
            final(self).piece_index == old(self).piece_index,
            final(self).piece_length == old(self).piece_length,
            final(self).buffer == old(self).buffer,
            final(self).received == old(self).received,
            final(self).requested == old(self).requested + batch@.len(),
            old(self).requested + batch@.len() <= spec_block_count(old(self).piece_length),
            batch@.len() == {
                let whole = spec_whole_blocks(old(self).piece_length);
                if old(self).requested < whole {
                    if whole - old(self).requested < window {
                        whole - old(self).requested
                    } else {
                        window as int
                    }
                } else if old(self).requested < spec_block_count(old(self).piece_length) {
                    1int
                } else {
                    0int
                }
            },
            forall|i: int|
                0 <= i < batch@.len() ==> {
                    let k = old(self).requested + i;
                    &&& (#[trigger] batch@[i]).index == old(self).piece_index
                    &&& batch@[i].begin == spec_block_offset(k)
                    &&& batch@[i].length == spec_block_length_at(old(self).piece_length, k)
                },
    {
        let whole = self.piece_length / BLOCK_SIZE;
        let mut batch: Vec<Request> = Vec::new();
        if self.requested < whole {
            let remaining = whole - self.requested;
            let n = if remaining < window {
                remaining
            } else {
                window
            };
            let mut i: u32 = 0;
            while i < n
                invariant
                    i <= n,
                    self.requested + n <= spec_whole_blocks(self.piece_length),
                    self.wf(),
                    batch@.len() == i,
                    forall|t: int|
                        0 <= t < i ==> {
                            let k = self.requested + t;
                            &&& (#[trigger] batch@[t]).index == self.piece_index
                            &&& batch@[t].begin == spec_block_offset(k)
                            &&& batch@[t].length == spec_block_length_at(self.piece_length, k)
                        },
                decreases n - i,
            {
                let k = self.requested + i;
                proof {
                    lemma_block_partition(self.piece_length, k as int);
                }
                let begin = k * BLOCK_SIZE;
                batch.push(Request::new(self.piece_index, begin, BLOCK_SIZE));
                i = i + 1;
            }
            self.requested = self.requested + n;
        } else {
            let rem = self.piece_length % BLOCK_SIZE;
            if rem != 0 && self.requested == whole {
                proof {
                    lemma_block_partition(self.piece_length, whole as int);
                }
                let begin = whole * BLOCK_SIZE;
                batch.push(Request::new(self.piece_index, begin, rem));
                self.requested = self.requested + 1;
            }
        }
        batch
    }

    /// Stores the block that starts at byte `begin` of the piece, keyed by
    /// that offset and independent of arrival order.  Fails, leaving the
    /// download unchanged, when the offset does not sit on a block
    /// boundary, names no block of this piece, or the data's length is not
    /// that block's length.
    pub fn add_block(&mut self, begin: u32, block: &[u8]) -> (r: Result<(), DownloadError>)
        requires
            old(self).wf(),
        ensures
            final(self).wf(),
            final(self).piece_index == old(self).piece_index,
            final(self).piece_length == old(self).piece_length,
            final(self).requested == old(self).requested,
            match r {
                Ok(()) => {
                    &&& spec_block_acceptable(old(self).piece_length, begin, block@.len() as int)
                    &&& spec_block_stored(*old(self), begin, block@, *final(self))
                },
                Err(e) => {
                    &&& *final(self) == *old(self)
                    &&& !spec_block_acceptable(old(self).piece_length, begin, block@.len() as int)
                    &&& e == spec_block_refusal(old(self).piece_length, begin, block@.len() as int)
                },
            },
    {
        if begin % BLOCK_SIZE != 0 {
            return Err(DownloadError::MisalignedBlock);
        }
        let k = begin / BLOCK_SIZE;
        let whole = self.piece_length / BLOCK_SIZE;
        let rem = self.piece_length % BLOCK_SIZE;
        let block_count: u32 = if rem == 0 {
            whole
        } else {
            whole + 1
        };
        if k >= block_count {
            return Err(DownloadError::UnknownBlock);
        }
        proof {
            lemma_block_partition(self.piece_length, k as int);
            lemma_fundamental_div_mod(begin as int, BLOCK_SIZE as int);
        }
        let expected_len: u32 = if k < whole {
            BLOCK_SIZE
        } else {
            rem
        };
        if block.len() != expected_len as usize {
            return Err(DownloadError::WrongBlockLength);
        }
        assert(begin == spec_block_offset(k as int));
        let mut j: usize = 0;
        while j < block.len()
            invariant
                j <= block@.len(),
                begin + block@.len() <= self.buffer@.len(),
                self.buffer@.len() <= usize::MAX,
                self.buffer@.len() == old(self).buffer@.len(),
                self.piece_index == old(self).piece_index,
                self.piece_length == old(self).piece_length,
                self.requested == old(self).requested,
                self.received == old(self).received,
                forall|t: int| 0 <= t < j ==> self.buffer@[begin + t] == block@[t],
                forall|t: int|
                    0 <= t < self.buffer@.len() && !(begin <= t < begin + j) ==> self.buffer@[t]
                        == old(self).buffer@[t],
            decreases block@.len() - j,
        {
            let pos = begin as usize + j;
            self.buffer.set(pos, block[j]);
            j = j + 1;
        }
        let ku = k as usize;
        self.received.set(ku, true);
        Ok(())
    }
}

} // verus!
