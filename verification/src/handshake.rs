//! Handshake protocol: the one 68-byte frame each side sends before any
//! message, carrying the protocol name, the info hash of the torrent, and
//! the sender's identity.

use vstd::prelude::*;

verus! {

/// The ASCII bytes of the fixed protocol name, 19 of them.
pub open spec fn spec_protocol_name() -> Seq<u8> {
    seq![
        0x42u8,
        0x69u8,
        0x74u8,
        0x54u8,
        0x6fu8,
        0x72u8,
        0x72u8,
        0x65u8,
        0x6eu8,
        0x74u8,
        0x20u8,
        0x70u8,
        0x72u8,
        0x6fu8,
        0x74u8,
        0x6fu8,
        0x63u8,
        0x6fu8,
        0x6cu8,
    ]
}

/// The fixed protocol name as bytes.
pub fn protocol_name() -> (r: Vec<u8>)
    ensures
        r@ =~= spec_protocol_name(),
        r@.len() == 19,
{
    let mut out: Vec<u8> = Vec::new();
    out.push(0x42);
    out.push(0x69);
    out.push(0x74);
    out.push(0x54);
    out.push(0x6f);
    out.push(0x72);
    out.push(0x72);
    out.push(0x65);
    out.push(0x6e);
    out.push(0x74);
    out.push(0x20);
    out.push(0x70);
    out.push(0x72);
    out.push(0x6f);
    out.push(0x74);
    out.push(0x6f);
    out.push(0x63);
    out.push(0x6f);
    out.push(0x6c);
    out
}

/// The 68 bytes of a handshake frame: the protocol name length, the name,
/// eight reserved bytes sent as zero, the info hash, the peer identity.
pub open spec fn spec_handshake_bytes(info_hash: Seq<u8>, peer_id: Seq<u8>) -> Seq<u8> {
    seq![19u8] + spec_protocol_name() + Seq::new(8, |i: int| 0u8) + info_hash + peer_id
}

/// Whether 68 received bytes form a well-formed handshake frame: the right
/// name length and the right protocol name.  The eight reserved bytes may
/// hold anything; peers use them to advertise extensions.
pub open spec fn spec_handshake_parses(buf: Seq<u8>) -> bool {
    &&& buf.len() == 68
    &&& buf[0] == 19
    &&& buf.subrange(1, 20) == spec_protocol_name()
}

/// Error returned for a reply that is not a handshake frame.
#[derive(Debug, Clone, Copy, PartialEq, Eq, Structural)]
pub enum HandshakeError {
    MalformedReply,
}

/// One side's handshake: the torrent it wants to talk about and the
/// identity it claims.
#[derive(Debug, Clone)]
pub struct Handshake {
    pub info_hash: Vec<u8>,
    pub peer_id: Vec<u8>,
}

impl Handshake {
    /// Both identifiers are exactly 20 bytes.
    pub open spec fn wf(&self) -> bool {
        &&& self.info_hash@.len() == 20
        &&& self.peer_id@.len() == 20
    }

    /// Packs an info hash and a peer identity into a handshake.
    pub fn new(info_hash: Vec<u8>, peer_id: Vec<u8>) -> (h: Handshake)
        requires
            info_hash@.len() == 20,
            peer_id@.len() == 20,
        ensures
            h.wf(),
            h.info_hash == info_hash,
            h.peer_id == peer_id,
    {
        Handshake { info_hash, peer_id }
    }

    /// Encodes the handshake as the 68-byte frame put on the wire.
    pub fn as_bytes(&self) -> (r: Vec<u8>)
        requires
            self.wf(),
        ensures
            r@ =~= spec_handshake_bytes(self.info_hash@, self.peer_id@),
            r@.len() == 68,
    {
        let mut out: Vec<u8> = Vec::new();
        out.push(19);
        let name = protocol_name();
        let mut i: usize = 0;
        while i < name.len()
            invariant
                name@.len() == 19,
                i <= 19,
                out@ =~= seq![19u8] + name@.subrange(0, i as int),
            decreases name@.len() - i,
        {
            out.push(name[i]);
            i = i + 1;
        }
        let mut z: usize = 0;
        while z < 8
            invariant
                z <= 8,
                out@ =~= seq![19u8] + spec_protocol_name() + Seq::new(z as nat, |t: int| 0u8),
            decreases 8 - z,
        {
            out.push(0);
            z = z + 1;
        }
        let mut j: usize = 0;
        while j < self.info_hash.len()
            invariant
                self.wf(),
                j <= 20,
                out@ =~= seq![19u8] + spec_protocol_name() + Seq::new(8, |t: int| 0u8)
                    + self.info_hash@.subrange(0, j as int),
            decreases self.info_hash@.len() - j,
        {
            out.push(self.info_hash[j]);
            j = j + 1;
        }
        let mut k: usize = 0;
        while k < self.peer_id.len()
            invariant
                self.wf(),
                k <= 20,
                out@ =~= seq![19u8] + spec_protocol_name() + Seq::new(8, |t: int| 0u8)
                    + self.info_hash@ + self.peer_id@.subrange(0, k as int),
            decreases self.peer_id@.len() - k,
        {
            out.push(self.peer_id[k]);
            k = k + 1;
        }
        assert(out@ =~= spec_handshake_bytes(self.info_hash@, self.peer_id@));
        out
    }

    /// Parses 68 received bytes.  Succeeds exactly when the frame starts
    /// with the 19-byte protocol name; the info hash and peer identity are
    /// then the last two 20-byte fields.
    pub fn from_bytes(buf: &[u8]) -> (r: Result<Handshake, HandshakeError>)
        requires
            buf@.len() == 68,
        ensures
            match r {
                Ok(h) => {
                    &&& spec_handshake_parses(buf@)
                    &&& h.wf()
                    &&& h.info_hash@ == buf@.subrange(28, 48)
                    &&& h.peer_id@ == buf@.subrange(48, 68)
                },
                Err(e) => !spec_handshake_parses(buf@) && e == HandshakeError::MalformedReply,
            },
    {
        if buf[0] != 19 {
            return Err(HandshakeError::MalformedReply);
        }
        let name = protocol_name();
        let mut i: usize = 0;
        while i < 19
            invariant
                buf@.len() == 68,
                name@.len() == 19,
                name@ == spec_protocol_name(),
                i <= 19,
                forall|t: int| 0 <= t < i ==> buf@[1 + t] == name@[t],
            decreases 19 - i,
        {
            if buf[1 + i] != name[i] {
                proof {
                    assert(buf@.subrange(1, 20)[i as int] != spec_protocol_name()[i as int]);
                }
                return Err(HandshakeError::MalformedReply);
            }
            i = i + 1;
        }
        proof {
            assert(buf@.subrange(1, 20) =~= spec_protocol_name());
        }
        let mut info_hash: Vec<u8> = Vec::new();
        let mut j: usize = 0;
        while j < 20
            invariant
                buf@.len() == 68,
                j <= 20,
                info_hash@ =~= buf@.subrange(28, 28 + j as int),
            decreases 20 - j,
        {
            info_hash.push(buf[28 + j]);
            j = j + 1;
        }
        let mut peer_id: Vec<u8> = Vec::new();
        let mut k: usize = 0;
        while k < 20
            invariant
                buf@.len() == 68,
                k <= 20,
                peer_id@ =~= buf@.subrange(48, 48 + k as int),
            decreases 20 - k,
        {
            peer_id.push(buf[48 + k]);
            k = k + 1;
        }
        Ok(Handshake { info_hash, peer_id })
    }
}

} // verus!
