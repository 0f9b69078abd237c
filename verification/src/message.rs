//! The messages that clients and the arbiter exchange, and their bytes.
//!
//! A message travels as the number of its variant, four bytes long with the
//! lowest byte first. One connection carries one request and one response.

use crate::error::Error;
use vstd::prelude::*;

verus! {

/// The length in bytes of every encoded message.
pub const MESSAGE_LEN: usize = 4;

/// What the arbiter answers.
#[derive(Clone, Copy, Debug, PartialEq, Eq, Structural)]
pub enum ServerMessage {
    /// The seat's displays are leased to the peer; the lease descriptors come along.
    LeaseGranted,
    /// The peer's lease is gone; its descriptors come along.
    LeaseRevoked,
    /// The seat holds no lease.
    LeaseNotFound,
    /// The seat's lease belongs to another process.
    NoPermission,
    /// The seat's lease belongs to a process that is still alive.
    SeatBusy,
    /// No display is registered for the seat.
    NoDisplaysForSeat,
}

/// What a client asks for.
#[derive(Clone, Copy, Debug, PartialEq, Eq, Structural)]
pub enum ClientMessage {
    /// Lease the displays of the peer's seat.
    RequestDisplays,
    /// Give the lease of the peer's seat back.
    ReleaseDisplays,
}

#[verifier::external_type_specification]
#[verifier::external_body]
pub struct ExErrorKind(bincode::ErrorKind);

/// The four bytes of `v`, lowest first.
pub open spec fn spec_le_bytes(v: u32) -> Seq<u8> {
    seq![
        (v & 0xff) as u8,
        ((v >> 8) & 0xff) as u8,
        ((v >> 16) & 0xff) as u8,
        ((v >> 24) & 0xff) as u8,
    ]
}

/// The number that the first four bytes of `bytes` hold, lowest first.
pub open spec fn spec_le_value(bytes: Seq<u8>) -> u32 {
    (bytes[0] as u32) | (bytes[1] as u32) << 8 | (bytes[2] as u32) << 16 | (bytes[3] as u32) << 24
}

/// Reading the bytes of a number gives the number back.
pub proof fn lemma_le_round_trip(v: u32)
    ensures
        spec_le_bytes(v).len() == 4,
        spec_le_value(spec_le_bytes(v)) == v,
{
    let b0 = (v & 0xff) as u8;
    let b1 = ((v >> 8) & 0xff) as u8;
    let b2 = ((v >> 16) & 0xff) as u8;
    let b3 = ((v >> 24) & 0xff) as u8;
    assert((b0 as u32) | (b1 as u32) << 8 | (b2 as u32) << 16 | (b3 as u32) << 24 == v) by (bit_vector)
        requires
            b0 == (v & 0xff) as u8,
            b1 == ((v >> 8) & 0xff) as u8,
            b2 == ((v >> 16) & 0xff) as u8,
            b3 == ((v >> 24) & 0xff) as u8,
    ;
}

/// A number below 256 is written as itself and three zero bytes.
pub proof fn lemma_le_small(v: u32)
    requires
        v < 256,
    ensures
        spec_le_bytes(v) == seq![v as u8, 0u8, 0u8, 0u8],
        forall|bytes: Seq<u8>|
            bytes.len() >= 4 && bytes[0] == v as u8 && bytes[1] == 0 && bytes[2] == 0 && bytes[3]
                == 0 ==> #[trigger] spec_le_value(bytes) == v,
{
    assert((v & 0xff) as u8 == v as u8 && ((v >> 8) & 0xff) as u8 == 0 && ((v >> 16) & 0xff) as u8
        == 0 && ((v >> 24) & 0xff) as u8 == 0) by (bit_vector)
        requires
            v < 256,
    ;
    assert(spec_le_bytes(v) =~= seq![v as u8, 0u8, 0u8, 0u8]);
    assert forall|bytes: Seq<u8>|
        bytes.len() >= 4 && bytes[0] == v as u8 && bytes[1] == 0 && bytes[2] == 0 && bytes[3]
            == 0 implies #[trigger] spec_le_value(bytes) == v by {
        let b0 = bytes[0];
        assert((b0 as u32) | (0u8 as u32) << 8 | (0u8 as u32) << 16 | (0u8 as u32) << 24 == v)
            by (bit_vector)
            requires
                b0 == v as u8,
                v < 256,
        ;
    }
}

/// `bincode::serialize` on a `u32`. With bincode's default configuration
/// (fixed-width integers, little endian, no size limit) the call writes the
/// four bytes of `v`, lowest first, into a fresh vector, which cannot fail.
#[verifier::external_body]
fn serialize_u32(v: u32) -> (r: Result<Vec<u8>, bincode::Error>)
    ensures
        r is Ok,
        r matches Ok(bytes) ==> bytes@ == spec_le_bytes(v),
{
    bincode::serialize(&v)
}

/// `bincode::deserialize` to a `u32`. With bincode's default configuration
/// the call reads the first four bytes of `bytes`, lowest first, and lets
/// further bytes be; it fails exactly when there are fewer than four.
#[verifier::external_body]
fn deserialize_u32(bytes: &[u8]) -> (r: Result<u32, bincode::Error>)
    ensures
        r is Ok <==> bytes@.len() >= 4,
        r matches Ok(v) ==> v == spec_le_value(bytes@),
{
    bincode::deserialize::<u32>(bytes)
}

impl ClientMessage {
    /// The number of the variant.
    pub open spec fn spec_index(self) -> u32 {
        match self {
            ClientMessage::RequestDisplays => 0,
            ClientMessage::ReleaseDisplays => 1,
        }
    }

    /// The variant with the number `index`.
    pub open spec fn spec_from_index(index: u32) -> Option<ClientMessage> {
        if index == 0 {
            Some(ClientMessage::RequestDisplays)
        } else if index == 1 {
            Some(ClientMessage::ReleaseDisplays)
        } else {
            None
        }
    }

    /// The bytes of the message.
    pub open spec fn spec_encode(self) -> Seq<u8> {
        spec_le_bytes(self.spec_index())
    }

    /// The message that `bytes` begins with.
    pub open spec fn spec_decode(bytes: Seq<u8>) -> Option<ClientMessage> {
        if bytes.len() < MESSAGE_LEN {
            None
        } else {
            Self::spec_from_index(spec_le_value(bytes))
        }
    }

    /// The number of the variant.
    pub fn index(&self) -> (r: u32)
        ensures
            r == self.spec_index(),
    {
        match self {
            ClientMessage::RequestDisplays => 0,
            ClientMessage::ReleaseDisplays => 1,
        }
    }

    /// The variant with the number `index`.
    pub fn from_index(index: u32) -> (r: Option<ClientMessage>)
        ensures
            r == Self::spec_from_index(index),
    {
        if index == 0 {
            Some(ClientMessage::RequestDisplays)
        } else if index == 1 {
            Some(ClientMessage::ReleaseDisplays)
        } else {
            None
        }
    }

    /// Puts the message into bytes.
    pub fn encode(&self) -> (r: Result<Vec<u8>, Error>)
        ensures
            r is Ok,
            r matches Ok(bytes) ==> bytes@ == self.spec_encode(),
    {
        match serialize_u32(self.index()) {
            Ok(bytes) => Ok(bytes),
            Err(_) => Err(Error::Serialization),
        }
    }

    /// Reads a message from what a peer sent. Bytes after the fourth are let be.
    pub fn decode(bytes: &[u8]) -> (r: Result<ClientMessage, Error>)
        ensures
            r == match Self::spec_decode(bytes@) {
                Some(message) => Ok::<ClientMessage, Error>(message),
                None => Err(Error::PeerBadMsg),
            },
    {
        match deserialize_u32(bytes) {
            Ok(index) => match Self::from_index(index) {
                Some(message) => Ok(message),
                None => Err(Error::PeerBadMsg),
            },
            Err(_) => Err(Error::PeerBadMsg),
        }
    }
}

impl ServerMessage {
    /// The number of the variant.
    pub open spec fn spec_index(self) -> u32 {
        match self {
            ServerMessage::LeaseGranted => 0,
            ServerMessage::LeaseRevoked => 1,
            ServerMessage::LeaseNotFound => 2,
            ServerMessage::NoPermission => 3,
            ServerMessage::SeatBusy => 4,
            ServerMessage::NoDisplaysForSeat => 5,
        }
    }

    /// The variant with the number `index`.
    pub open spec fn spec_from_index(index: u32) -> Option<ServerMessage> {
        if index == 0 {
            Some(ServerMessage::LeaseGranted)
        } else if index == 1 {
            Some(ServerMessage::LeaseRevoked)
        } else if index == 2 {
            Some(ServerMessage::LeaseNotFound)
        } else if index == 3 {
            Some(ServerMessage::NoPermission)
        } else if index == 4 {
            Some(ServerMessage::SeatBusy)
        } else if index == 5 {
            Some(ServerMessage::NoDisplaysForSeat)
        } else {
            None
        }
    }

    /// The bytes of the message.
    pub open spec fn spec_encode(self) -> Seq<u8> {
        spec_le_bytes(self.spec_index())
    }

    /// The message that `bytes` begins with.
    pub open spec fn spec_decode(bytes: Seq<u8>) -> Option<ServerMessage> {
        if bytes.len() < MESSAGE_LEN {
            None
        } else {
            Self::spec_from_index(spec_le_value(bytes))
        }
    }

    /// The number of the variant.
    pub fn index(&self) -> (r: u32)
        ensures
            r == self.spec_index(),
    {
        match self {
            ServerMessage::LeaseGranted => 0,
            ServerMessage::LeaseRevoked => 1,
            ServerMessage::LeaseNotFound => 2,
            ServerMessage::NoPermission => 3,
            ServerMessage::SeatBusy => 4,
            ServerMessage::NoDisplaysForSeat => 5,
        }
    }

    /// The variant with the number `index`.
    pub fn from_index(index: u32) -> (r: Option<ServerMessage>)
        ensures
            r == Self::spec_from_index(index),
    {
        if index == 0 {
            Some(ServerMessage::LeaseGranted)
        } else if index == 1 {
            Some(ServerMessage::LeaseRevoked)
        } else if index == 2 {
            Some(ServerMessage::LeaseNotFound)
        } else if index == 3 {
            Some(ServerMessage::NoPermission)
        } else if index == 4 {
            Some(ServerMessage::SeatBusy)
        } else if index == 5 {
            Some(ServerMessage::NoDisplaysForSeat)
        } else {
            None
        }
    }

    /// Puts the message into bytes.
    pub fn encode(&self) -> (r: Result<Vec<u8>, Error>)
        ensures
            r is Ok,
            r matches Ok(bytes) ==> bytes@ == self.spec_encode(),
    {
        match serialize_u32(self.index()) {
            Ok(bytes) => Ok(bytes),
            Err(_) => Err(Error::Serialization),
        }
    }

    /// Reads a message from what the arbiter sent. Bytes after the fourth are let be.
    pub fn decode(bytes: &[u8]) -> (r: Result<ServerMessage, Error>)
        ensures
            r == match Self::spec_decode(bytes@) {
                Some(message) => Ok::<ServerMessage, Error>(message),
                None => Err(Error::PeerBadMsg),
            },
    {
        match deserialize_u32(bytes) {
            Ok(index) => match Self::from_index(index) {
                Some(message) => Ok(message),
                None => Err(Error::PeerBadMsg),
            },
            Err(_) => Err(Error::PeerBadMsg),
        }
    }
}

/// Every request that is put into bytes is read back as itself.
pub proof fn lemma_client_round_trip(message: ClientMessage)
    ensures
        message.spec_encode().len() == MESSAGE_LEN,
        ClientMessage::spec_decode(message.spec_encode()) == Some(message),
{
    lemma_le_round_trip(message.spec_index());
}

/// Every response that is put into bytes is read back as itself.
pub proof fn lemma_server_round_trip(message: ServerMessage)
    ensures
        message.spec_encode().len() == MESSAGE_LEN,
        ServerMessage::spec_decode(message.spec_encode()) == Some(message),
{
    lemma_le_round_trip(message.spec_index());
}

/// On the wire a message is the number of its variant and three zero bytes.
pub proof fn lemma_message_bytes(request: ClientMessage, response: ServerMessage)
    ensures
        request.spec_encode() == seq![request.spec_index() as u8, 0u8, 0u8, 0u8],
        response.spec_encode() == seq![response.spec_index() as u8, 0u8, 0u8, 0u8],
{
    lemma_le_small(request.spec_index());
    lemma_le_small(response.spec_index());
}

} // verus!
