//! The events that the transport delivers and the responses handed back to it.

use vstd::prelude::*;

verus! {

/// Capacity in bytes of the buffer that every read response carries.
pub const RESPONSE_LENGTH: usize = 600;

/// The chunk size of a link on which no larger transmission unit was negotiated.
pub const MAX_CHUNK_SIZE: u16 = 23;

/// One read attempt of a peer: the attribute it reads, and from which byte on.
#[derive(Clone, Copy, Debug, PartialEq, Eq)]
pub struct ReadEvent {
    pub connection_id: u16,
    pub transaction_id: u32,
    pub handle: u16,
    pub offset: u16,
}

/// A peer and the server agreed on a new transmission unit size.
#[derive(Clone, Copy, Debug, PartialEq, Eq)]
pub struct MtuChangedEvent {
    pub connection_id: u16,
    pub new_mtu: u16,
}

/// The answer to one read attempt, ready to be sent with a success status.
///
/// The first `declared_length` bytes of `buffer` are the payload; the rest of
/// the buffer is zero.
#[derive(Clone, Copy, Debug, PartialEq, Eq)]
pub struct ReadResponse {
    pub connection_id: u16,
    pub transaction_id: u32,
    pub handle: u16,
    pub offset: u16,
    pub declared_length: u16,
    pub buffer: [u8; RESPONSE_LENGTH],
}

/// A read response as a mathematical value.
pub ghost struct ResponseView {
    pub connection_id: u16,
    pub transaction_id: u32,
    pub handle: u16,
    pub offset: u16,
    pub declared_length: nat,
    pub buffer: Seq<u8>,
}

impl View for ReadResponse {
    type V = ResponseView;

    open spec fn view(&self) -> ResponseView {
        ResponseView {
            connection_id: self.connection_id,
            transaction_id: self.transaction_id,
            handle: self.handle,
            offset: self.offset,
            declared_length: self.declared_length as nat,
            buffer: self.buffer@,
        }
    }
}

/// The views of a sequence of responses, in the same order.
pub open spec fn response_views(responses: Seq<ReadResponse>) -> Seq<ResponseView> {
    Seq::new(responses.len(), |i: int| responses[i]@)
}

} // verus!
