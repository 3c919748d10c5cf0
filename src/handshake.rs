use vstd::prelude::*;

verus! {

/// The 68-byte greeting that opens a connection.
#[derive(Debug, PartialEq, Eq, Clone, Copy)]
pub struct Handshake {
    pub protocol_length: u8,
    pub protocol_name: [u8; 19],
    /// Capability bits.
    pub reserved: [u8; 8],
    /// Identifies the content.
    pub info_hash: [u8; 20],
    /// Identifies the sender.
    pub peer_id: [u8; 20],
}

/// `BitTorrent protocol`
pub open spec fn protocol_name() -> Seq<u8> {
    seq![66u8, 105, 116, 84, 111, 114, 114, 101, 110, 116, 32, 112, 114, 111, 116, 111, 99, 111, 108]
}

/// Why a peer's greeting was refused.
#[derive(Debug, PartialEq, Eq, Structural, Clone, Copy)]
pub enum HandshakeError {
    /// The greeting does not name this protocol.
    ProtocolMismatch,
    /// The peer answered for other content.
    HandshakeMismatch,
}

/// Lowercase hexadecimal digit for `n < 16`.
pub open spec fn hex_digit(n: u8) -> char {
    if n < 10 {
        (48 + n) as u8 as char
    } else {
        (87 + n) as u8 as char
    }
}

/// Two lowercase hexadecimal digits per byte, in order.
pub open spec fn hex_text(b: Seq<u8>) -> Seq<char>
    decreases b.len(),
{
    if b.len() == 0 {
        seq![]
    } else {
        hex_text(b.subrange(0, b.len() - 1)) + seq![
            hex_digit(b[b.len() - 1] / 16),
            hex_digit(b[b.len() - 1] % 16),
        ]
    }
}

/// Relies on `hex::encode`: two lowercase hexadecimal digits per byte, in order.
#[verifier::external_body]
fn to_hex(b: &[u8; 20]) -> (r: String)
    ensures
        r@ == hex_text(b@),
{
    hex::encode(b)
}

impl Handshake {
    /// The greeting's bytes: length byte, protocol name, capability bits, content hash,
    /// sender id.
    pub open spec fn spec_bytes(&self) -> Seq<u8> {
        seq![self.protocol_length] + self.protocol_name@ + self.reserved@ + self.info_hash@
            + self.peer_id@
    }

    /// The greeting this client sends.
    pub fn new(info_hash: [u8; 20], peer_id: [u8; 20], reserved: [u8; 8]) -> (r: Handshake)
        ensures
            r.protocol_length == 19,
            r.protocol_name@ == protocol_name(),
            r.reserved == reserved,
            r.info_hash == info_hash,
            r.peer_id == peer_id,
    {
        let name: [u8; 19] = [
            66u8, 105, 116, 84, 111, 114, 114, 101, 110, 116, 32, 112, 114, 111, 116, 111, 99,
            111, 108,
        ];
        assert(name@ =~= protocol_name());
        Handshake { protocol_length: 19, protocol_name: name, reserved, info_hash, peer_id }
    }

    /// The greeting's 68 bytes.
    pub fn as_bytes(&self) -> (r: [u8; 68])
        ensures
            r@ == self.spec_bytes(),
    {
        let mut buf = [0u8; 68];
        buf[0] = self.protocol_length;
        let mut i: usize = 0;
        while i < 19
            invariant
                i <= 19,
                buf@.len() == 68,
                buf@[0] == self.protocol_length,
                forall|t: int| 0 <= t < i ==> buf@[1 + t] == self.protocol_name@[t],
            decreases 19 - i,
        {
            buf[1 + i] = self.protocol_name[i];
            i = i + 1;
        }
        let mut i: usize = 0;
        while i < 8
            invariant
                i <= 8,
                buf@.len() == 68,
                buf@[0] == self.protocol_length,
                forall|t: int| 0 <= t < 19 ==> buf@[1 + t] == self.protocol_name@[t],
                forall|t: int| 0 <= t < i ==> buf@[20 + t] == self.reserved@[t],
            decreases 8 - i,
        {
            buf[20 + i] = self.reserved[i];
            i = i + 1;
        }
        let mut i: usize = 0;
        while i < 20
            invariant
                i <= 20,
                buf@.len() == 68,
                buf@[0] == self.protocol_length,
                forall|t: int| 0 <= t < 19 ==> buf@[1 + t] == self.protocol_name@[t],
                forall|t: int| 0 <= t < 8 ==> buf@[20 + t] == self.reserved@[t],
                forall|t: int| 0 <= t < i ==> buf@[28 + t] == self.info_hash@[t],
                forall|t: int| 0 <= t < i ==> buf@[48 + t] == self.peer_id@[t],
            decreases 20 - i,
        {
            buf[28 + i] = self.info_hash[i];
            buf[48 + i] = self.peer_id[i];
            i = i + 1;
        }
        assert(buf@ =~= self.spec_bytes());
        buf
    }

    /// Reads a greeting from its 68 bytes.
    pub fn from_bytes(b: &[u8; 68]) -> (r: Handshake)
        ensures
            r.spec_bytes() == b@,
    {
        let mut protocol_name = [0u8; 19];
        let mut reserved = [0u8; 8];
        let mut info_hash = [0u8; 20];
        let mut peer_id = [0u8; 20];
        let mut i: usize = 0;
        while i < 19
            invariant
                i <= 19,
                forall|t: int| 0 <= t < i ==> protocol_name@[t] == b@[1 + t],
            decreases 19 - i,
        {
            protocol_name[i] = b[1 + i];
            i = i + 1;
        }
        let mut i: usize = 0;
        while i < 8
            invariant
                i <= 8,
                forall|t: int| 0 <= t < i ==> reserved@[t] == b@[20 + t],
            decreases 8 - i,
        {
            reserved[i] = b[20 + i];
            i = i + 1;
        }
        let mut i: usize = 0;
        while i < 20
            invariant
                i <= 20,
                forall|t: int| 0 <= t < i ==> info_hash@[t] == b@[28 + t],
                forall|t: int| 0 <= t < i ==> peer_id@[t] == b@[48 + t],
            decreases 20 - i,
        {
            info_hash[i] = b[28 + i];
            peer_id[i] = b[48 + i];
            i = i + 1;
        }
        let r = Handshake { protocol_length: b[0], protocol_name, reserved, info_hash, peer_id };
        assert(r.spec_bytes() =~= b@);
        r
    }

    /// Whether the sender supports the extension protocol: bit `0x10` of reserved byte 5.
    pub fn supports_extensions(&self) -> (r: bool)
        ensures
            r == (self.reserved@[5] & 0x10 != 0),
    {
        self.reserved[5] & 0x10 != 0
    }

    /// Checks a peer's answer to a greeting for `info_hash`; gives the peer's id, in
    /// lowercase hexadecimal.
    pub fn check_response(response: &[u8; 68], info_hash: &[u8; 20]) -> (r: Result<
        String,
        HandshakeError,
    >)
        ensures
            ({
                let names_protocol = response@[0] == 19 && response@.subrange(1, 20)
                    == protocol_name();
                let same_content = response@.subrange(28, 48) == info_hash@;
                match r {
                    Ok(id) => names_protocol && same_content && id@ == hex_text(
                        response@.subrange(48, 68),
                    ),
                    Err(HandshakeError::ProtocolMismatch) => !names_protocol,
                    Err(HandshakeError::HandshakeMismatch) => names_protocol && !same_content,
                }
            }),
    {
        let h = Handshake::from_bytes(response);
        let expected = Handshake::new(*info_hash, h.peer_id, h.reserved);
        assert(response@.subrange(1, 20) =~= h.protocol_name@);
        assert(response@.subrange(28, 48) =~= h.info_hash@);
        assert(response@.subrange(48, 68) =~= h.peer_id@);
        if h.protocol_length != 19 || !bytes19_equal(&h.protocol_name, &expected.protocol_name) {
            return Err(HandshakeError::ProtocolMismatch);
        }
        if !crate::digest::digest_equals(&h.info_hash, info_hash) {
            return Err(HandshakeError::HandshakeMismatch);
        }
        Ok(to_hex(&h.peer_id))
    }
}

fn bytes19_equal(a: &[u8; 19], b: &[u8; 19]) -> (r: bool)
    ensures
        r == (a@ == b@),
{
    let mut i: usize = 0;
    while i < 19
        invariant
            i <= 19,
            forall|t: int| 0 <= t < i ==> a@[t] == b@[t],
        decreases 19 - i,
    {
        if a[i] != b[i] {
            return false;
        }
        i = i + 1;
    }
    assert(a@ =~= b@);
    true
}

} // verus!
