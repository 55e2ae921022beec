//! Big-endian 32-bit integers, the number format of every multi-byte field
//! in the peer wire protocol.

use vstd::prelude::*;

verus! {

/// The integer value of four bytes read in big-endian order.
pub open spec fn spec_u32_of_be(b0: u8, b1: u8, b2: u8, b3: u8) -> int {
    b0 * 0x1000000 + b1 * 0x10000 + b2 * 0x100 + b3
}

/// The four big-endian bytes of a 32-bit integer, most significant first.
pub open spec fn spec_be_of_u32(n: u32) -> Seq<u8> {
    seq![
        (n / 0x1000000) as u8,
        ((n / 0x10000) % 0x100) as u8,
        ((n / 0x100) % 0x100) as u8,
        (n % 0x100) as u8,
    ]
}

/// Reading the four bytes of an integer back gives the integer.
pub proof fn lemma_be_round_trip(n: u32)
    ensures
        spec_u32_of_be(
            spec_be_of_u32(n)[0],
            spec_be_of_u32(n)[1],
            spec_be_of_u32(n)[2],
            spec_be_of_u32(n)[3],
        ) == n,
{
    assert((n / 0x1000000) as u8 * 0x1000000 + ((n / 0x10000) % 0x100) as u8 * 0x10000 + ((n
        / 0x100) % 0x100) as u8 * 0x100 + (n % 0x100) as u8 == n) by (bit_vector);
}

/// Writing the integer read from four bytes gives the same four bytes.
pub proof fn lemma_be_bytes_round_trip(b0: u8, b1: u8, b2: u8, b3: u8)
    ensures
        spec_u32_of_be(b0, b1, b2, b3) <= u32::MAX,
        spec_be_of_u32(spec_u32_of_be(b0, b1, b2, b3) as u32) =~= seq![b0, b1, b2, b3],
{
    let n = (b0 * 0x1000000 + b1 * 0x10000 + b2 * 0x100 + b3) as u32;
    assert(b0 * 0x1000000 + b1 * 0x10000 + b2 * 0x100 + b3 <= u32::MAX) by (bit_vector);
    assert(n == b0 * 0x1000000 + b1 * 0x10000 + b2 * 0x100 + b3 ==> n / 0x1000000 == b0 && (n
        / 0x10000) % 0x100 == b1 && (n / 0x100) % 0x100 == b2 && n % 0x100 == b3) by (bit_vector);
}

/// Combines four bytes, most significant first, into a 32-bit integer.
pub fn u32_of_be(b0: u8, b1: u8, b2: u8, b3: u8) -> (n: u32)
    ensures
        n == spec_u32_of_be(b0, b1, b2, b3),
{
    proof {
        lemma_be_bytes_round_trip(b0, b1, b2, b3);
    }
    (b0 as u32) * 0x1000000 + (b1 as u32) * 0x10000 + (b2 as u32) * 0x100 + (b3 as u32)
}

/// Splits a 32-bit integer into its four big-endian bytes.
pub fn be_of_u32(n: u32) -> (b: (u8, u8, u8, u8))
    ensures
        seq![b.0, b.1, b.2, b.3] =~= spec_be_of_u32(n),
{
    ((n / 0x1000000) as u8, ((n / 0x10000) % 0x100) as u8, ((n / 0x100) % 0x100) as u8, (n
        % 0x100) as u8)
}

/// Whether two byte vectors hold the same bytes.
pub fn bytes_equal(a: &Vec<u8>, b: &Vec<u8>) -> (r: bool)
    ensures
        r == (a@ == b@),
{
    if a.len() != b.len() {
        return false;
    }
    let mut i: usize = 0;
    while i < a.len()
        invariant
            a@.len() == b@.len(),
            i <= a@.len(),
            forall|t: int| 0 <= t < i ==> a@[t] == b@[t],
        decreases a@.len() - i,
    {
        if a[i] != b[i] {
            return false;
        }
        i = i + 1;
    }
    proof {
        assert(a@ =~= b@);
    }
    true
}

/// Appends the four big-endian bytes of `n` to `out`.
pub fn push_be_u32(out: &mut Vec<u8>, n: u32)
    ensures
        final(out)@ =~= old(out)@ + spec_be_of_u32(n),
{
    let (b0, b1, b2, b3) = be_of_u32(n);
    out.push(b0);
    out.push(b1);
    out.push(b2);
    out.push(b3);
}

} // verus!
