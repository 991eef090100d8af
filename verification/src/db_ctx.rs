//! Correlation tokens.
//!
//! A token is the small piece of data that travels with an I/O request and
//! comes back unchanged with its completion, so the database knows what the
//! completion was for. On the wire a token is exactly eight bytes, which is
//! the width of the user-data field of the usual kernel completion queues.
use vstd::prelude::*;

verus! {

/// Width of a token on the wire, in bytes.
pub const TOKEN_BYTES: usize = 8;

/// Wire discriminant of [`Create::Stream`].
pub const KIND_CREATE_STREAM: u8 = 0;

/// What a create request was issued for.
#[derive(Clone, Copy, Debug, PartialEq, Eq)]
pub enum Create {
    /// A stream whose name waits in slot `name_idx` of the pending-name table.
    Stream { name_idx: u8, _padding: u32 },
}

/// The little-endian bytes of `x`.
pub open spec fn le_bytes(x: u32) -> Seq<u8> {
    seq![
        (x & 0xff) as u8,
        ((x >> 8) & 0xff) as u8,
        ((x >> 16) & 0xff) as u8,
        ((x >> 24) & 0xff) as u8,
    ]
}

/// The number whose little-endian bytes are `b0, b1, b2, b3`.
pub open spec fn from_le_bytes(b0: u8, b1: u8, b2: u8, b3: u8) -> u32 {
    (b0 as u32) | ((b1 as u32) << 8) | ((b2 as u32) << 16) | ((b3 as u32) << 24)
}

/// The eight wire bytes of a token: the kind, the slot index, two zero bytes,
/// and the padding word in little-endian order.
pub open spec fn wire_bytes(token: Create) -> Seq<u8> {
    match token {
        Create::Stream { name_idx, _padding } => seq![KIND_CREATE_STREAM, name_idx, 0u8, 0u8]
            + le_bytes(_padding),
    }
}

/// The token that eight wire bytes stand for, if their kind byte is known.
/// Bytes 2 and 3 carry nothing and are not looked at.
pub open spec fn parse_wire(bytes: Seq<u8>) -> Option<Create> {
    if bytes.len() == TOKEN_BYTES && bytes[0] == KIND_CREATE_STREAM {
        Some(
            Create::Stream {
                name_idx: bytes[1],
                _padding: from_le_bytes(bytes[4], bytes[5], bytes[6], bytes[7]),
            },
        )
    } else {
        None
    }
}

proof fn lemma_le_round_trip(x: u32)
    ensures
        from_le_bytes(
            (x & 0xff) as u8,
            ((x >> 8) & 0xff) as u8,
            ((x >> 16) & 0xff) as u8,
            ((x >> 24) & 0xff) as u8,
        ) == x,
{
    assert(((x & 0xff) as u8 as u32) | ((((x >> 8) & 0xff) as u8 as u32) << 8) | ((((x >> 16)
        & 0xff) as u8 as u32) << 16) | ((((x >> 24) & 0xff) as u8 as u32) << 24) == x)
        by (bit_vector);
}

impl Create {
    /// The token for the stream whose name waits in slot `name_idx`.
    pub fn stream(name_idx: u8) -> (token: Create)
        ensures
            token == (Create::Stream { name_idx, _padding: 0 }),
    {
        Create::Stream { name_idx, _padding: 0 }
    }

    /// The slot index that the token carries.
    pub open spec fn spec_name_idx(self) -> u8 {
        match self {
            Create::Stream { name_idx, .. } => name_idx,
        }
    }

    /// The slot index that the token carries.
    #[verifier::when_used_as_spec(spec_name_idx)]
    pub fn name_idx(self) -> (idx: u8)
        ensures
            idx == self.spec_name_idx(),
    {
        match self {
            Create::Stream { name_idx, .. } => name_idx,
        }
    }

    /// Writes the token in its wire format.
    pub fn to_bytes(self) -> (bytes: [u8; 8])
        ensures
            bytes@ == wire_bytes(self),
    {
        match self {
            Create::Stream { name_idx, _padding } => {
                let bytes: [u8; 8] = [
                    KIND_CREATE_STREAM,
                    name_idx,
                    0u8,
                    0u8,
                    (_padding & 0xff) as u8,
                    ((_padding >> 8) & 0xff) as u8,
                    ((_padding >> 16) & 0xff) as u8,
                    ((_padding >> 24) & 0xff) as u8,
                ];
                assert(bytes@ =~= wire_bytes(self));
                bytes
            },
        }
    }

    /// Reads a token from its wire format. Fails exactly when the kind byte
    /// names no known operation.
    pub fn from_bytes(bytes: &[u8; 8]) -> (token: Option<Create>)
        ensures
            token == parse_wire(bytes@),
    {
        if bytes[0] == KIND_CREATE_STREAM {
            let _padding: u32 = (bytes[4] as u32) | ((bytes[5] as u32) << 8) | ((bytes[6] as u32)
                << 16) | ((bytes[7] as u32) << 24);
            Some(Create::Stream { name_idx: bytes[1], _padding })
        } else {
            None
        }
    }
}

/// Token round trip: a token written to the wire reads back as the same
/// token, with the same kind, slot index and padding, and takes exactly
/// eight bytes there.
pub proof fn law_token_round_trip(token: Create)
    ensures
        wire_bytes(token).len() == TOKEN_BYTES,
        parse_wire(wire_bytes(token)) == Some(token),
{
    match token {
        Create::Stream { name_idx, _padding } => {
            lemma_le_round_trip(_padding);
        },
    }
}

/// Two tokens with the same wire bytes are the same token.
pub proof fn law_wire_format_is_injective(a: Create, b: Create)
    requires
        wire_bytes(a) == wire_bytes(b),
    ensures
        a == b,
{
    law_token_round_trip(a);
    law_token_round_trip(b);
}

} // verus!
