//! The network server's frame: a length-prefixed message of one type byte,
//! a message id and a payload.

use vstd::prelude::*;

use crate::codec::read_u32_at;
use crate::codec::spec_u32_from_be_bytes;
use crate::codec::spec_u32_to_be_bytes;
use crate::codec::u32_to_be_bytes;
use crate::message::ProtocolError;

verus! {

/// One frame as the network server sends it.
pub struct BinaryMessage {
    /// The type byte.
    pub msg_type: u8,
    /// The sender's id for this message.
    pub msg_id: u32,
    /// The message body.
    pub payload: Vec<u8>,
}

/// A frame's bytes: a 4-byte length counting the 5-byte head and the
/// payload, then type, id and payload.
pub open spec fn spec_frame_bytes(msg_type: u8, msg_id: u32, payload: Seq<u8>) -> Seq<u8> {
    spec_u32_to_be_bytes((5 + payload.len()) as u32) + seq![msg_type] + spec_u32_to_be_bytes(
        msg_id,
    ) + payload
}

/// The fields read back from a frame: everything after the length field
/// and the 5-byte head is payload.
pub open spec fn spec_parse_frame(bytes: Seq<u8>) -> Option<(u8, u32, Seq<u8>)> {
    if bytes.len() < 9 {
        None
    } else {
        let msg_length = spec_u32_from_be_bytes(bytes.subrange(0, 4)) as int;
        if bytes.len() < msg_length + 4 {
            None
        } else {
            Some(
                (bytes[4], spec_u32_from_be_bytes(bytes.subrange(5, 9)), bytes.skip(9)),
            )
        }
    }
}

impl BinaryMessage {
    /// Encode the frame.
    pub fn encode(&self) -> (r: Vec<u8>)
        requires
            self.payload@.len() + 5 <= u32::MAX,
        ensures
            r@ == spec_frame_bytes(self.msg_type, self.msg_id, self.payload@),
            r@.len() == 9 + self.payload@.len(),
    {
        let msg_length = (5 + self.payload.len()) as u32;
        let mut buffer = u32_to_be_bytes(msg_length);
        buffer.push(self.msg_type);
        let mut id_bytes = u32_to_be_bytes(self.msg_id);
        buffer.append(&mut id_bytes);
        let ghost head = spec_u32_to_be_bytes((5 + self.payload@.len()) as u32) + seq![
            self.msg_type,
        ] + spec_u32_to_be_bytes(self.msg_id);
        proof {
            assert(buffer@ =~= head + self.payload@.subrange(0, 0));
        }
        let mut i: usize = 0;
        while i < self.payload.len()
            invariant
                i <= self.payload@.len(),
                head.len() == 9,
                buffer@ == head + self.payload@.subrange(0, i as int),
            decreases self.payload@.len() - i,
        {
            buffer.push(self.payload[i]);
            proof {
                assert((head + self.payload@.subrange(0, i as int)).push(self.payload@[i as int])
                    =~= head + self.payload@.subrange(0, i + 1));
            }
            i = i + 1;
        }
        proof {
            assert(self.payload@.subrange(0, self.payload@.len() as int) =~= self.payload@);
        }
        buffer
    }

    /// Decode a frame.  The buffer must hold the whole frame; any bytes
    /// past the head join the payload.
    pub fn decode(buffer: &[u8]) -> (r: Result<BinaryMessage, ProtocolError>)
        ensures
            match r {
                Ok(m) => match spec_parse_frame(buffer@) {
                    Some(f) => m.msg_type == f.0 && m.msg_id == f.1 && m.payload@ == f.2,
                    None => false,
                },
                Err(e) => e == ProtocolError::BufferTooShort && spec_parse_frame(buffer@)
                    == None::<(u8, u32, Seq<u8>)>,
            },
    {
        if buffer.len() < 9 {
            return Err(ProtocolError::BufferTooShort);
        }
        let msg_length = read_u32_at(buffer, 0) as usize;
        if buffer.len() - 4 < msg_length {
            return Err(ProtocolError::BufferTooShort);
        }
        let msg_type = buffer[4];
        let msg_id = read_u32_at(buffer, 5);
        let sub = vstd::slice::slice_subrange(buffer, 9, buffer.len());
        let payload = vstd::slice::slice_to_vec(sub);
        proof {
            assert(buffer@.skip(9) =~= buffer@.subrange(9, buffer@.len() as int));
        }
        Ok(BinaryMessage { msg_type, msg_id, payload })
    }
}

/// Law: a frame decodes from its own bytes with every field intact.
pub proof fn lemma_frame_roundtrip(msg_type: u8, msg_id: u32, payload: Seq<u8>)
    requires
        payload.len() + 5 <= u32::MAX,
    ensures
        spec_parse_frame(spec_frame_bytes(msg_type, msg_id, payload)) == Some(
            (msg_type, msg_id, payload),
        ),
{
    let b = spec_frame_bytes(msg_type, msg_id, payload);
    crate::codec::lemma_u32_be_bytes_roundtrip((5 + payload.len()) as u32);
    crate::codec::lemma_u32_be_bytes_roundtrip(msg_id);
    assert(b.len() == 9 + payload.len());
    assert(b.subrange(0, 4) =~= spec_u32_to_be_bytes((5 + payload.len()) as u32));
    assert(b[4] == msg_type);
    assert(b.subrange(5, 9) =~= spec_u32_to_be_bytes(msg_id));
    assert(b.skip(9) =~= payload);
}

} // verus!
