use vstd::prelude::*;
use vstd::string::StringSliceAdditionalSpecFns;

verus! {

pub const PROTOCOL_VERSION: u16 = 0;

pub const PROTOCOL_MAGIC: u16 = 0x4D4D;

pub const PROTOCOL_HEADER_LEN: usize = 48;

pub const PROTOCOL_HEADER_LEN_U16: u16 = 48;

#[derive(Debug, Clone, Copy, PartialEq, Eq, Structural)]
pub enum MessageType {
    ClientHello,
    ServerHello,
    ClientCommandBatch,
    ServerCommandAck,
    ServerFullSnapshot,
    ServerDeltaSnapshot,
    Ping,
    Disconnect,
}

/// The message type that a wire byte names, if any.
pub open spec fn spec_message_type(value: u8) -> Option<MessageType> {
    if value == 1 {
        Some(MessageType::ClientHello)
    } else if value == 2 {
        Some(MessageType::ServerHello)
    } else if value == 3 {
        Some(MessageType::ClientCommandBatch)
    } else if value == 4 {
        Some(MessageType::ServerCommandAck)
    } else if value == 5 {
        Some(MessageType::ServerFullSnapshot)
    } else if value == 6 {
        Some(MessageType::ServerDeltaSnapshot)
    } else if value == 7 {
        Some(MessageType::Ping)
    } else if value == 8 {
        Some(MessageType::Disconnect)
    } else {
        None
    }
}

impl MessageType {
    pub fn from_wire(value: u8) -> (r: Option<Self>)
        ensures
            r == spec_message_type(value),
    {
        match value {
            1 => Some(Self::ClientHello),
            2 => Some(Self::ServerHello),
            3 => Some(Self::ClientCommandBatch),
            4 => Some(Self::ServerCommandAck),
            5 => Some(Self::ServerFullSnapshot),
            6 => Some(Self::ServerDeltaSnapshot),
            7 => Some(Self::Ping),
            8 => Some(Self::Disconnect),
            _ => None,
        }
    }
}

#[derive(Debug, Clone, Copy, PartialEq, Eq, Structural)]
pub struct PacketHeader {
    pub message_type: MessageType,
    pub payload_len: u32,
    pub connection_id: u64,
    pub session_id: u64,
    pub client_seq: u32,
    pub server_seq: u32,
    pub ack_seq: u32,
    pub tick: u64,
}

#[derive(Debug, Clone, Copy, PartialEq, Eq, Structural)]
pub enum PacketDecodeError {
    TooShort,
    BadMagic(u16),
    UnsupportedProtocol(u16),
    UnknownMessageType(u8),
    NonZeroFlags(u8),
    BadHeaderLen(u16),
    PayloadLenMismatch { declared: u32, actual: usize },
}

/// The little-endian value of `n` bytes of `s` starting at `off`.
pub open spec fn le_value(s: Seq<u8>, off: int, n: nat) -> nat
    decreases n,
{
    if n == 0 {
        0
    } else {
        s[off] as nat + 256 * le_value(s, off + 1, (n - 1) as nat)
    }
}

/// What decoding a packet gives: the first failed check in header order, or the header.
pub open spec fn spec_decode(p: Seq<u8>) -> Result<PacketHeader, PacketDecodeError> {
    if p.len() < 48 {
        Err(PacketDecodeError::TooShort)
    } else if le_value(p, 0, 2) != PROTOCOL_MAGIC {
        Err(PacketDecodeError::BadMagic(le_value(p, 0, 2) as u16))
    } else if le_value(p, 2, 2) != PROTOCOL_VERSION {
        Err(PacketDecodeError::UnsupportedProtocol(le_value(p, 2, 2) as u16))
    } else if spec_message_type(p[4]) is None {
        Err(PacketDecodeError::UnknownMessageType(p[4]))
    } else if p[5] != 0 {
        Err(PacketDecodeError::NonZeroFlags(p[5]))
    } else if le_value(p, 6, 2) != PROTOCOL_HEADER_LEN_U16 {
        Err(PacketDecodeError::BadHeaderLen(le_value(p, 6, 2) as u16))
    } else if le_value(p, 8, 4) != p.len() - 48 {
        Err(
            PacketDecodeError::PayloadLenMismatch {
                declared: le_value(p, 8, 4) as u32,
                actual: (p.len() - 48) as usize,
            },
        )
    } else {
        Ok(
            PacketHeader {
                message_type: spec_message_type(p[4])->0,
                payload_len: le_value(p, 8, 4) as u32,
                connection_id: le_value(p, 12, 8) as u64,
                session_id: le_value(p, 20, 8) as u64,
                client_seq: le_value(p, 28, 4) as u32,
                server_seq: le_value(p, 32, 4) as u32,
                ack_seq: le_value(p, 36, 4) as u32,
                tick: le_value(p, 40, 8) as u64,
            },
        )
    }
}

proof fn lemma_le_bound(s: Seq<u8>, off: int, n: nat)
    ensures
        le_value(s, off, n) < pow256(n),
    decreases n,
{
    if n > 0 {
        lemma_le_bound(s, off + 1, (n - 1) as nat);
        assert(s[off] as nat + 256 * le_value(s, off + 1, (n - 1) as nat) < 256 * pow256((n - 1) as nat)) by (nonlinear_arith)
            requires
                (s[off] as nat) < 256,
                le_value(s, off + 1, (n - 1) as nat) < pow256((n - 1) as nat),
        ;
    }
}

/// 256 raised to the power `n`.
pub open spec fn pow256(n: nat) -> nat
    decreases n,
{
    if n == 0 {
        1
    } else {
        256 * pow256((n - 1) as nat)
    }
}

impl PacketHeader {
    pub fn decode(packet: &[u8]) -> (r: Result<Self, PacketDecodeError>)
        ensures
            r == spec_decode(packet@),
    {
        if packet.len() < PROTOCOL_HEADER_LEN {
            return Err(PacketDecodeError::TooShort);
        }
        let magic = read_u16(packet, 0);
        if magic != PROTOCOL_MAGIC {
            return Err(PacketDecodeError::BadMagic(magic));
        }
        let protocol_version = read_u16(packet, 2);
        if protocol_version != PROTOCOL_VERSION {
            return Err(PacketDecodeError::UnsupportedProtocol(protocol_version));
        }
        let raw_message_type = packet[4];
        let message_type = match MessageType::from_wire(raw_message_type) {
            Some(t) => t,
            None => {
                return Err(PacketDecodeError::UnknownMessageType(raw_message_type));
            },
        };
        let flags = packet[5];
        if flags != 0 {
            return Err(PacketDecodeError::NonZeroFlags(flags));
        }
        let header_len = read_u16(packet, 6);
        if header_len != PROTOCOL_HEADER_LEN_U16 {
            return Err(PacketDecodeError::BadHeaderLen(header_len));
        }
        let payload_len = read_u32(packet, 8);
        let actual_payload_len = packet.len() - PROTOCOL_HEADER_LEN;
        if payload_len as usize != actual_payload_len {
            return Err(
                PacketDecodeError::PayloadLenMismatch {
                    declared: payload_len,
                    actual: actual_payload_len,
                },
            );
        }
        Ok(
            Self {
                message_type,
                payload_len,
                connection_id: read_u64(packet, 12),
                session_id: read_u64(packet, 20),
                client_seq: read_u32(packet, 28),
                server_seq: read_u32(packet, 32),
                ack_seq: read_u32(packet, 36),
                tick: read_u64(packet, 40),
            },
        )
    }
}

fn read_u16(packet: &[u8], offset: usize) -> (r: u16)
    requires
        offset + 2 <= packet@.len(),
        offset <= 72,
    ensures
        r == le_value(packet@, offset as int, 2),
{
    reveal_with_fuel(le_value, 3);
    packet[offset] as u16 + 256 * (packet[offset + 1] as u16)
}

fn read_u32(packet: &[u8], offset: usize) -> (r: u32)
    requires
        offset + 4 <= packet@.len(),
        offset <= 68,
    ensures
        r == le_value(packet@, offset as int, 4),
{
    let lo = read_u16(packet, offset) as u32;
    let hi = read_u16(packet, offset + 2) as u32;
    proof {
        lemma_le_split(packet@, offset as int, 2, 2);
    }
    lo + 65536 * hi
}

fn read_u64(packet: &[u8], offset: usize) -> (r: u64)
    requires
        offset + 8 <= packet@.len(),
        offset <= 64,
    ensures
        r == le_value(packet@, offset as int, 8),
{
    let lo = read_u32(packet, offset) as u64;
    let hi = read_u32(packet, offset + 4) as u64;
    proof {
        lemma_le_split(packet@, offset as int, 4, 4);
        reveal_with_fuel(pow256, 5);
    }
    lo + 4294967296 * hi
}

proof fn lemma_le_split(s: Seq<u8>, off: int, a: nat, b: nat)
    ensures
        le_value(s, off, a + b) == le_value(s, off, a) + pow256(a) * le_value(s, off + a, b),
        a == 2 ==> pow256(a) == 65536,
        a == 4 ==> pow256(a) == 4294967296,
        le_value(s, off, a) < pow256(a),
        le_value(s, off + a, b) < pow256(b),
        b == 2 ==> pow256(b) == 65536,
        b == 4 ==> pow256(b) == 4294967296,
    decreases a,
{
    reveal_with_fuel(pow256, 5);
    lemma_le_bound(s, off, a);
    lemma_le_bound(s, off + a, b);
    if a > 0 {
        lemma_le_split(s, off + 1, (a - 1) as nat, b);
        assert(le_value(s, off, a + b) == s[off] as nat + 256 * le_value(s, off + 1, (a + b - 1) as nat));
        assert((a - 1 + b) as nat == (a + b - 1) as nat);
        assert(256 * (le_value(s, off + 1, (a - 1) as nat) + pow256((a - 1) as nat) * le_value(s, off + 1 + (a - 1), b))
            == 256 * le_value(s, off + 1, (a - 1) as nat) + (256 * pow256((a - 1) as nat)) * le_value(s, off + 1 + (a - 1), b)) by (nonlinear_arith);
        assert(off + 1 + (a - 1) == off + a);
    }
}

/// FNV-1a over a byte sequence, starting from `hash`.
pub open spec fn fnv1a_bytes(hash: u64, bytes: Seq<u8>) -> u64
    decreases bytes.len(),
{
    if bytes.len() == 0 {
        hash
    } else {
        let h = fnv1a_bytes(hash, bytes.drop_last());
        vstd::wrapping::u64_specs::wrapping_mul(h ^ (bytes.last() as u64), 0x0000_0100_0000_01b3)
    }
}

/// The FNV-1a 64-bit offset basis.
pub const FNV_OFFSET_BASIS: u64 = 0xcbf2_9ce4_8422_2325;

/// A stable 64-bit session id derived from a local identity string: FNV-1a over its UTF-8 bytes.
pub fn synthetic_session_id(local_identity: &str) -> (r: u64)
    ensures
        r == fnv1a_bytes(FNV_OFFSET_BASIS, local_identity.spec_bytes()),
{
    let bytes = local_identity.as_bytes();
    let mut hash: u64 = FNV_OFFSET_BASIS;
    for i in 0..bytes.len()
        invariant
            bytes@ == local_identity.spec_bytes(),
            hash == fnv1a_bytes(FNV_OFFSET_BASIS, bytes@.subrange(0, i as int)),
    {
        let b = bytes[i];
        hash = (hash ^ (b as u64)).wrapping_mul(0x0000_0100_0000_01b3);
        proof {
            let t = bytes@.subrange(0, i + 1);
            assert(t.drop_last() =~= bytes@.subrange(0, i as int));
        }
    }
    assert(bytes@.subrange(0, bytes@.len() as int) =~= bytes@);
    hash
}

} // verus!
