//! The wire message of the request protocol: a type tag, three ids and a
//! payload, length-framed.  All integers big-endian.

use vstd::prelude::*;

use crate::codec::read_u32_at;
use crate::codec::spec_u32_from_be_bytes;
use crate::codec::spec_u32_to_be_bytes;
use crate::codec::u32_to_be_bytes;

verus! {

/// What a decode can report.
#[derive(Clone, Copy, Debug, PartialEq, Eq, Structural)]
pub enum ProtocolError {
    /// The buffer ends before the frame does.
    BufferTooShort,
    /// The message carries a type no request corresponds to.
    InvalidMessageType,
    /// The message body does not parse as the named request.
    InvalidMessageFormat,
}

/// The kind of request or response a message carries.
#[derive(Clone, Copy, Debug, PartialEq, Eq, Hash, Structural)]
pub enum MessageType {
    /// Produce messages.
    Produce,
    /// Fetch messages.
    Fetch,
    /// Fetch topic metadata.
    Metadata,
    /// Fetch consumer-group offsets.
    OffsetFetch,
    /// Join a consumer group.
    JoinGroup,
    /// Synchronise consumer-group state.
    SyncGroup,
    /// Create a topic.
    CreateTopic,
    /// Delete a topic.
    DeleteTopic,
    /// Describe a topic.
    DescribeTopic,
    /// List all topics.
    ListTopics,
    /// Update a topic's configuration.
    UpdateTopicConfig,
    /// Fetch cluster information.
    GetClusterInfo,
    /// Consumer-group heartbeat.
    Heartbeat,
    /// Leave a consumer group.
    LeaveGroup,
    /// Any tag no kind corresponds to.
    Unknown,
}

/// The byte tag of each message kind.
pub open spec fn spec_message_type_to_u8(t: MessageType) -> u8 {
    match t {
        MessageType::Produce => 0,
        MessageType::Fetch => 1,
        MessageType::Metadata => 2,
        MessageType::OffsetFetch => 3,
        MessageType::JoinGroup => 4,
        MessageType::SyncGroup => 5,
        MessageType::CreateTopic => 6,
        MessageType::DeleteTopic => 7,
        MessageType::DescribeTopic => 8,
        MessageType::ListTopics => 9,
        MessageType::UpdateTopicConfig => 10,
        MessageType::GetClusterInfo => 11,
        MessageType::Heartbeat => 12,
        MessageType::LeaveGroup => 13,
        MessageType::Unknown => 255,
    }
}

/// The message kind of each byte tag.
pub open spec fn spec_message_type_from_u8(value: u8) -> MessageType {
    if value == 0 {
        MessageType::Produce
    } else if value == 1 {
        MessageType::Fetch
    } else if value == 2 {
        MessageType::Metadata
    } else if value == 3 {
        MessageType::OffsetFetch
    } else if value == 4 {
        MessageType::JoinGroup
    } else if value == 5 {
        MessageType::SyncGroup
    } else if value == 6 {
        MessageType::CreateTopic
    } else if value == 7 {
        MessageType::DeleteTopic
    } else if value == 8 {
        MessageType::DescribeTopic
    } else if value == 9 {
        MessageType::ListTopics
    } else if value == 10 {
        MessageType::UpdateTopicConfig
    } else if value == 11 {
        MessageType::GetClusterInfo
    } else if value == 12 {
        MessageType::Heartbeat
    } else if value == 13 {
        MessageType::LeaveGroup
    } else {
        MessageType::Unknown
    }
}

impl core::convert::From<u8> for MessageType {
    /// The message kind a byte tag names; unassigned tags are unknown.
    fn from(value: u8) -> (r: Self) {
        if value == 0 {
            MessageType::Produce
        } else if value == 1 {
            MessageType::Fetch
        } else if value == 2 {
            MessageType::Metadata
        } else if value == 3 {
            MessageType::OffsetFetch
        } else if value == 4 {
            MessageType::JoinGroup
        } else if value == 5 {
            MessageType::SyncGroup
        } else if value == 6 {
            MessageType::CreateTopic
        } else if value == 7 {
            MessageType::DeleteTopic
        } else if value == 8 {
            MessageType::DescribeTopic
        } else if value == 9 {
            MessageType::ListTopics
        } else if value == 10 {
            MessageType::UpdateTopicConfig
        } else if value == 11 {
            MessageType::GetClusterInfo
        } else if value == 12 {
            MessageType::Heartbeat
        } else if value == 13 {
            MessageType::LeaveGroup
        } else {
            MessageType::Unknown
        }
    }
}

impl vstd::std_specs::convert::FromSpecImpl<u8> for MessageType {
    open spec fn obeys_from_spec() -> bool {
        true
    }

    open spec fn from_spec(value: u8) -> Self {
        spec_message_type_from_u8(value)
    }
}

impl core::convert::From<MessageType> for u8 {
    /// The byte tag of a message kind.
    fn from(value: MessageType) -> (r: Self) {
        match value {
            MessageType::Produce => 0,
            MessageType::Fetch => 1,
            MessageType::Metadata => 2,
            MessageType::OffsetFetch => 3,
            MessageType::JoinGroup => 4,
            MessageType::SyncGroup => 5,
            MessageType::CreateTopic => 6,
            MessageType::DeleteTopic => 7,
            MessageType::DescribeTopic => 8,
            MessageType::ListTopics => 9,
            MessageType::UpdateTopicConfig => 10,
            MessageType::GetClusterInfo => 11,
            MessageType::Heartbeat => 12,
            MessageType::LeaveGroup => 13,
            MessageType::Unknown => 255,
        }
    }
}

impl vstd::std_specs::convert::FromSpecImpl<MessageType> for u8 {
    open spec fn obeys_from_spec() -> bool {
        true
    }

    open spec fn from_spec(value: MessageType) -> Self {
        spec_message_type_to_u8(value)
    }
}

/// Law: a message kind survives the round trip through its byte tag.
pub proof fn lemma_message_type_roundtrip(t: MessageType)
    ensures
        spec_message_type_from_u8(spec_message_type_to_u8(t)) == t,
{
}

/// One protocol message as it travels: kind, ids and opaque payload.
pub struct BinaryMessage {
    /// The kind of request or response.
    pub msg_type: MessageType,
    /// The sender's id for this message.
    pub msg_id: u32,
    /// Ties a response to its request.
    pub correlation_id: u32,
    /// The sending client.
    pub client_id: u32,
    /// The message body.
    pub payload: Vec<u8>,
}

/// The frame of a message: a 4-byte length counting the 13-byte head and
/// the payload, then tag, ids and payload.
pub open spec fn spec_message_bytes(
    msg_type: MessageType,
    msg_id: u32,
    correlation_id: u32,
    client_id: u32,
    payload: Seq<u8>,
) -> Seq<u8> {
    spec_u32_to_be_bytes((13 + payload.len()) as u32) + seq![spec_message_type_to_u8(msg_type)]
        + spec_u32_to_be_bytes(msg_id) + spec_u32_to_be_bytes(correlation_id)
        + spec_u32_to_be_bytes(client_id) + payload
}

/// The fields read back from a framed message: everything after the length
/// field and the 13-byte head is payload.
pub open spec fn spec_parse_message(bytes: Seq<u8>) -> Option<
    (MessageType, u32, u32, u32, Seq<u8>),
> {
    if bytes.len() < 17 {
        None
    } else {
        let msg_length = spec_u32_from_be_bytes(bytes.subrange(0, 4)) as int;
        if bytes.len() < msg_length + 4 {
            None
        } else {
            Some(
                (
                    spec_message_type_from_u8(bytes[4]),
                    spec_u32_from_be_bytes(bytes.subrange(5, 9)),
                    spec_u32_from_be_bytes(bytes.subrange(9, 13)),
                    spec_u32_from_be_bytes(bytes.subrange(13, 17)),
                    bytes.skip(17),
                ),
            )
        }
    }
}

impl BinaryMessage {
    /// Assemble a message from its fields.
    pub fn new(
        msg_type: MessageType,
        msg_id: u32,
        correlation_id: u32,
        client_id: u32,
        payload: Vec<u8>,
    ) -> (r: BinaryMessage)
        ensures
            r.msg_type == msg_type,
            r.msg_id == msg_id,
            r.correlation_id == correlation_id,
            r.client_id == client_id,
            r.payload@ == payload@,
    {
        BinaryMessage { msg_type, msg_id, correlation_id, client_id, payload }
    }

    /// Encode the message into its frame.
    pub fn encode(&self) -> (r: Vec<u8>)
        requires
            self.payload@.len() + 13 <= u32::MAX,
        ensures
            r@ == spec_message_bytes(
                self.msg_type,
                self.msg_id,
                self.correlation_id,
                self.client_id,
                self.payload@,
            ),
            r@.len() == 17 + self.payload@.len(),
    {
        let msg_length = (13 + self.payload.len()) as u32;
        let mut buffer = u32_to_be_bytes(msg_length);
        let tag: u8 = match self.msg_type {
            MessageType::Produce => 0,
            MessageType::Fetch => 1,
            MessageType::Metadata => 2,
            MessageType::OffsetFetch => 3,
            MessageType::JoinGroup => 4,
            MessageType::SyncGroup => 5,
            MessageType::CreateTopic => 6,
            MessageType::DeleteTopic => 7,
            MessageType::DescribeTopic => 8,
            MessageType::ListTopics => 9,
            MessageType::UpdateTopicConfig => 10,
            MessageType::GetClusterInfo => 11,
            MessageType::Heartbeat => 12,
            MessageType::LeaveGroup => 13,
            MessageType::Unknown => 255,
        };
        buffer.push(tag);
        let mut id_bytes = u32_to_be_bytes(self.msg_id);
        buffer.append(&mut id_bytes);
        let mut corr_bytes = u32_to_be_bytes(self.correlation_id);
        buffer.append(&mut corr_bytes);
        let mut client_bytes = u32_to_be_bytes(self.client_id);
        buffer.append(&mut client_bytes);
        let ghost head = spec_u32_to_be_bytes((13 + self.payload@.len()) as u32) + seq![
            spec_message_type_to_u8(self.msg_type),
        ] + spec_u32_to_be_bytes(self.msg_id) + spec_u32_to_be_bytes(self.correlation_id)
            + spec_u32_to_be_bytes(self.client_id);
        proof {
            assert(buffer@ =~= head + self.payload@.subrange(0, 0));
        }
        let mut i: usize = 0;
        while i < self.payload.len()
            invariant
                i <= self.payload@.len(),
                head.len() == 17,
                buffer@ == head + self.payload@.subrange(0, i as int),
            decreases self.payload@.len() - i,
        {
            buffer.push(self.payload[i]);
            proof {
                assert((head + self.payload@.subrange(0, i as int)).push(self.payload@[i as int])
                    =~= head + self.payload@.subrange(0, i + 1));
            }
            i = i + 1;
        }
        proof {
            assert(self.payload@.subrange(0, self.payload@.len() as int) =~= self.payload@);
        }
        buffer
    }

    /// Decode a message body: tag, three ids, then payload to the end.
    pub fn decode_buffer(body: &[u8]) -> (r: Result<BinaryMessage, ProtocolError>)
        ensures
            match r {
                Ok(m) => body@.len() >= 13 && m.msg_type == spec_message_type_from_u8(body@[0])
                    && m.msg_id == spec_u32_from_be_bytes(body@.subrange(1, 5))
                    && m.correlation_id == spec_u32_from_be_bytes(body@.subrange(5, 9))
                    && m.client_id == spec_u32_from_be_bytes(body@.subrange(9, 13)) && m.payload@
                    == body@.skip(13),
                Err(e) => e == ProtocolError::BufferTooShort && body@.len() < 13,
            },
    {
        if body.len() < 13 {
            return Err(ProtocolError::BufferTooShort);
        }
        let tag = body[0];
        let msg_type = MessageType::from(tag);
        let msg_id = read_u32_at(body, 1);
        let correlation_id = read_u32_at(body, 5);
        let client_id = read_u32_at(body, 9);
        let sub = vstd::slice::slice_subrange(body, 13, body.len());
        let payload = vstd::slice::slice_to_vec(sub);
        proof {
            assert(body@.skip(13) =~= body@.subrange(13, body@.len() as int));
        }
        Ok(BinaryMessage { msg_type, msg_id, correlation_id, client_id, payload })
    }

    /// Decode a framed message.  The buffer must hold the whole frame; any
    /// bytes past the 13-byte head join the payload, as the body decoder
    /// has it.
    pub fn decode(buffer: &[u8]) -> (r: Result<BinaryMessage, ProtocolError>)
        ensures
            match r {
                Ok(m) => match spec_parse_message(buffer@) {
                    Some(f) => m.msg_type == f.0 && m.msg_id == f.1 && m.correlation_id == f.2
                        && m.client_id == f.3 && m.payload@ == f.4,
                    None => false,
                },
                Err(e) => e == ProtocolError::BufferTooShort && spec_parse_message(buffer@)
                    == None::<(MessageType, u32, u32, u32, Seq<u8>)>,
            },
    {
        if buffer.len() < 17 {
            return Err(ProtocolError::BufferTooShort);
        }
        let msg_length = read_u32_at(buffer, 0) as usize;
        if buffer.len() - 4 < msg_length {
            return Err(ProtocolError::BufferTooShort);
        }
        let body = vstd::slice::slice_subrange(buffer, 4, buffer.len());
        let r = Self::decode_buffer(body);
        proof {
            assert(body@ == buffer@.skip(4));
            assert(body@[0] == buffer@[4]);
            assert(body@.subrange(1, 5) =~= buffer@.subrange(5, 9));
            assert(body@.subrange(5, 9) =~= buffer@.subrange(9, 13));
            assert(body@.subrange(9, 13) =~= buffer@.subrange(13, 17));
            assert(body@.skip(13) =~= buffer@.skip(17));
        }
        r
    }

    /// Decode one length-delimited message from the front of a stream
    /// image, and say how many bytes it covered: the length field plus the
    /// frame it announces.  It fails exactly when no whole frame sits at
    /// the front: too few bytes for the head, a length field below the
    /// 13-byte head, or fewer bytes than the frame announces.
    pub fn decode_message(bytes: &[u8]) -> (r: Result<(BinaryMessage, usize), ProtocolError>)
        ensures
            match r {
                Ok((m, consumed)) => {
                    &&& bytes@.len() >= 17
                    &&& consumed == 4 + spec_u32_from_be_bytes(bytes@.subrange(0, 4))
                    &&& consumed <= bytes@.len()
                    &&& m.msg_type == spec_message_type_from_u8(bytes@[4])
                    &&& m.msg_id == spec_u32_from_be_bytes(bytes@.subrange(5, 9))
                    &&& m.correlation_id == spec_u32_from_be_bytes(bytes@.subrange(9, 13))
                    &&& m.client_id == spec_u32_from_be_bytes(bytes@.subrange(13, 17))
                    &&& m.payload@ == bytes@.subrange(17, consumed as int)
                },
                Err(e) => e == ProtocolError::BufferTooShort && (bytes@.len() < 17
                    || spec_u32_from_be_bytes(bytes@.subrange(0, 4)) < 13 || bytes@.len() < 4
                    + spec_u32_from_be_bytes(bytes@.subrange(0, 4))),
            },
    {
        if bytes.len() < 17 {
            return Err(ProtocolError::BufferTooShort);
        }
        let msg_length = read_u32_at(bytes, 0) as usize;
        if msg_length < 13 {
            return Err(ProtocolError::BufferTooShort);
        }
        if bytes.len() - 4 < msg_length {
            return Err(ProtocolError::BufferTooShort);
        }
        let tag = bytes[4];
        let msg_type = MessageType::from(tag);
        let msg_id = read_u32_at(bytes, 5);
        let correlation_id = read_u32_at(bytes, 9);
        let client_id = read_u32_at(bytes, 13);
        let sub = vstd::slice::slice_subrange(bytes, 17, 4 + msg_length);
        let payload = vstd::slice::slice_to_vec(sub);
        Ok(
            (
                BinaryMessage { msg_type, msg_id, correlation_id, client_id, payload },
                4 + msg_length,
            ),
        )
    }
}

/// Law: a message decodes from its own frame with every field intact.
pub proof fn lemma_message_roundtrip(
    msg_type: MessageType,
    msg_id: u32,
    correlation_id: u32,
    client_id: u32,
    payload: Seq<u8>,
)
    requires
        payload.len() + 13 <= u32::MAX,
    ensures
        spec_parse_message(
            spec_message_bytes(msg_type, msg_id, correlation_id, client_id, payload),
        ) == Some(
            (spec_message_type_from_u8(spec_message_type_to_u8(msg_type)), msg_id, correlation_id,
            client_id, payload),
        ),
{
    let b = spec_message_bytes(msg_type, msg_id, correlation_id, client_id, payload);
    crate::codec::lemma_u32_be_bytes_roundtrip((13 + payload.len()) as u32);
    crate::codec::lemma_u32_be_bytes_roundtrip(msg_id);
    crate::codec::lemma_u32_be_bytes_roundtrip(correlation_id);
    crate::codec::lemma_u32_be_bytes_roundtrip(client_id);
    assert(b.len() == 17 + payload.len());
    assert(b.subrange(0, 4) =~= spec_u32_to_be_bytes((13 + payload.len()) as u32));
    assert(b[4] == spec_message_type_to_u8(msg_type));
    assert(b.subrange(5, 9) =~= spec_u32_to_be_bytes(msg_id));
    assert(b.subrange(9, 13) =~= spec_u32_to_be_bytes(correlation_id));
    assert(b.subrange(13, 17) =~= spec_u32_to_be_bytes(client_id));
    assert(b.skip(17) =~= payload);
}

} // verus!
