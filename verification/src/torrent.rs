//! Torrent metadata: the info hash, the lengths, and the flat table of
//! 20-byte piece hashes, together with the piece partition arithmetic.

use vstd::arithmetic::div_mod::lemma_fundamental_div_mod;
use vstd::prelude::*;

verus! {

/// How many pieces a torrent of `total` bytes has when cut into pieces of
/// `plen` bytes: the quotient, rounded up.
pub open spec fn spec_piece_count(total: u64, plen: u64) -> int
    recommends
        plen > 0,
{
    total as int / plen as int + if total as int % plen as int == 0 {
        0int
    } else {
        1int
    }
}

/// The logical length of the final piece: the remainder of the cut, or a
/// whole piece when the total is an exact multiple.
pub open spec fn spec_last_piece_length(total: u64, plen: u64) -> int
    recommends
        plen > 0,
{
    if total as int % plen as int == 0 {
        plen as int
    } else {
        total as int % plen as int
    }
}

/// The logical length of piece `i`: the fixed piece length for every piece
/// but the last, and the tail of the content for the last.
pub open spec fn spec_piece_length_at(total: u64, plen: u64, i: int) -> int
    recommends
        plen > 0,
        0 <= i < spec_piece_count(total, plen),
{
    if i + 1 == spec_piece_count(total, plen) {
        spec_last_piece_length(total, plen)
    } else {
        plen as int
    }
}

/// The piece partition adds up: all pieces but the last cover
/// `plen * (count - 1)` bytes, the last covers the rest, and that rest is
/// never empty and never longer than a whole piece.
pub proof fn lemma_piece_partition(total: u64, plen: u64)
    requires
        plen > 0,
        total > 0,
    ensures
        spec_piece_count(total, plen) >= 1,
        spec_last_piece_length(total, plen) == total - plen * (spec_piece_count(total, plen) - 1),
        0 < spec_last_piece_length(total, plen) <= plen,
        plen * (spec_piece_count(total, plen) - 1) < total <= plen * spec_piece_count(total, plen),
{
    let t = total as int;
    let p = plen as int;
    let q = t / p;
    let r = t % p;
    lemma_fundamental_div_mod(t, p);
    assert(t == p * q + r);
    if r == 0 {
        assert(q >= 1) by (nonlinear_arith)
            requires
                t == p * q,
                t > 0,
                p > 0,
        ;
        assert(p * (q - 1) == p * q - p) by (nonlinear_arith);
    } else {
        assert(q >= 0);
        assert(p * ((q + 1) - 1) == p * q);
        assert(p * (q + 1) == p * q + p) by (nonlinear_arith);
    }
}

/// Immutable description of one torrent, shared read-only by every session:
/// the 20-byte info hash, the content and piece lengths, and one 20-byte
/// hash per piece, stored as a flat blob sliced at 20-byte boundaries.
#[derive(Debug, Clone)]
pub struct TorrentMetadata {
    pub info_hash: Vec<u8>,
    pub total_length: u64,
    pub piece_length: u64,
    pub pieces: Vec<u8>,
}

/// Error returned when the pieces of a metadata description do not fit
/// together.
#[derive(Debug, Clone, Copy, PartialEq, Eq, Structural)]
pub enum MetadataError {
    BadInfoHashLength,
    BadPieceLength,
    BadTotalLength,
    BadHashTableLength,
}

impl TorrentMetadata {
    /// The internal consistency every function of the library relies on.
    pub open spec fn wf(&self) -> bool {
        &&& self.info_hash@.len() == 20
        &&& 0 < self.piece_length <= u32::MAX
        &&& self.total_length > 0
        &&& spec_piece_count(self.total_length, self.piece_length) <= u32::MAX
        &&& self.pieces@.len() == 20 * spec_piece_count(self.total_length, self.piece_length)
    }

    /// Checks a metadata description and accepts it exactly when it is
    /// consistent: a 20-byte info hash, a positive piece length no longer
    /// than a frame can address, a positive total, no more pieces than an
    /// index can name, and one 20-byte hash per piece.
    pub fn new(info_hash: Vec<u8>, total_length: u64, piece_length: u64, pieces: Vec<u8>) -> (r:
        Result<TorrentMetadata, MetadataError>)
        ensures
            match r {
                Ok(t) => {
                    &&& t.wf()
                    &&& t.info_hash == info_hash
                    &&& t.total_length == total_length
                    &&& t.piece_length == piece_length
                    &&& t.pieces == pieces
                },
                Err(MetadataError::BadInfoHashLength) => info_hash@.len() != 20,
                Err(MetadataError::BadPieceLength) => info_hash@.len() == 20 && !(0 < piece_length
                    <= u32::MAX),
                Err(MetadataError::BadTotalLength) => info_hash@.len() == 20 && 0 < piece_length
                    <= u32::MAX && total_length == 0,
                Err(MetadataError::BadHashTableLength) => {
                    &&& info_hash@.len() == 20
                    &&& 0 < piece_length <= u32::MAX
                    &&& total_length > 0
                    &&& (spec_piece_count(total_length, piece_length) > u32::MAX || pieces@.len()
                        != 20 * spec_piece_count(total_length, piece_length))
                },
            },
    {
        if info_hash.len() != 20 {
            return Err(MetadataError::BadInfoHashLength);
        }
        if piece_length == 0 || piece_length > u32::MAX as u64 {
            return Err(MetadataError::BadPieceLength);
        }
        if total_length == 0 {
            return Err(MetadataError::BadTotalLength);
        }
        let quotient = total_length / piece_length;
        let remainder = total_length % piece_length;
        if quotient > u32::MAX as u64 || (quotient == u32::MAX as u64 && remainder != 0) {
            return Err(MetadataError::BadHashTableLength);
        }
        let count: u64 = if remainder == 0 {
            quotient
        } else {
            quotient + 1
        };
        if pieces.len() as u64 != 20 * count {
            return Err(MetadataError::BadHashTableLength);
        }
        Ok(TorrentMetadata { info_hash, total_length, piece_length, pieces })
    }

    /// The number of pieces: the total length divided by the piece length,
    /// rounded up.
    pub fn piece_count(&self) -> (n: u32)
        requires
            self.wf(),
        ensures
            n == spec_piece_count(self.total_length, self.piece_length),
    {
        let quotient = self.total_length / self.piece_length;
        let remainder = self.total_length % self.piece_length;
        if remainder == 0 {
            quotient as u32
        } else {
            (quotient + 1) as u32
        }
    }

    /// The logical length of piece `index`: the fixed piece length, except
    /// that the last piece carries only what remains of the content.
    pub fn piece_length_at(&self, index: u32) -> (n: u32)
        requires
            self.wf(),
            index < spec_piece_count(self.total_length, self.piece_length),
        ensures
            n == spec_piece_length_at(self.total_length, self.piece_length, index as int),
            0 < n <= self.piece_length,
    {
        proof {
            lemma_piece_partition(self.total_length, self.piece_length);
        }
        let count = self.piece_count();
        let remainder = self.total_length % self.piece_length;
        if index + 1 == count && remainder != 0 {
            remainder as u32
        } else {
            self.piece_length as u32
        }
    }

    /// The stored 20-byte hash of piece `index`: the slice of the flat blob
    /// between `20 * index` and `20 * index + 20`.
    pub fn piece_hash(&self, index: u32) -> (h: Vec<u8>)
        requires
            self.wf(),
            index < spec_piece_count(self.total_length, self.piece_length),
        ensures
            h@ == self.pieces@.subrange(20 * index as int, 20 * index as int + 20),
            h@.len() == 20,
    {
        let table_len: usize = self.pieces.len();
        proof {
            assert(20 * (index as int) + 20 <= 20 * spec_piece_count(
                self.total_length,
                self.piece_length,
            )) by (nonlinear_arith)
                requires
                    (index as int) < spec_piece_count(self.total_length, self.piece_length),
            ;
        }
        let start: usize = 20 * index as usize;
        let mut out: Vec<u8> = Vec::new();
        let mut j: usize = 0;
        while j < 20
            invariant
                j <= 20,
                start == 20 * index as int,
                start + 20 <= self.pieces@.len(),
                self.pieces@.len() <= usize::MAX,
                out@ =~= self.pieces@.subrange(start as int, start as int + j as int),
            decreases 20 - j,
        {
            out.push(self.pieces[start + j]);
            j = j + 1;
        }
        assert(out@ =~= self.pieces@.subrange(20 * index as int, 20 * index as int + 20));
        out
    }
}

} // verus!
