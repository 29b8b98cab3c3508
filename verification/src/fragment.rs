//! Cutting a value into the fragments that fit a transmission chunk.

use vstd::prelude::*;
use crate::event::{ReadEvent, ReadResponse, ResponseView, RESPONSE_LENGTH};

verus! {

/// Where the fragment at `offset` starts in a value of `len` bytes: at
/// `offset`, or at the value's end when `offset` lies beyond it.
pub open spec fn fragment_start(len: int, offset: int) -> int {
    if offset <= len {
        offset
    } else {
        len
    }
}

/// Where the fragment at `offset` ends: one chunk after `offset`, or at the
/// value's end when that comes first.
pub open spec fn fragment_end(len: int, offset: int, chunk: int) -> int {
    if offset + chunk <= len {
        offset + chunk
    } else {
        len
    }
}

/// The bytes of `value` that a read at `offset` returns.
pub open spec fn fragment(value: Seq<u8>, offset: int, chunk: int) -> Seq<u8> {
    value.subrange(
        fragment_start(value.len() as int, offset),
        fragment_end(value.len() as int, offset, chunk),
    )
}

/// The length that a response declares for a read at `offset`: what is left
/// of the value from `offset` on, but at most one chunk.
pub open spec fn declared_length(len: int, offset: int, chunk: int) -> int {
    if offset >= len {
        0
    } else if len - offset <= chunk {
        len - offset
    } else {
        chunk
    }
}

/// Whether the fragment at `offset` is the last one of its value: it is
/// shorter than a full chunk.
pub open spec fn is_terminal(len: int, offset: int, chunk: int) -> bool {
    declared_length(len, offset, chunk) < chunk
}

/// `bytes` followed by zeros up to `capacity` bytes.
pub open spec fn zero_padded(bytes: Seq<u8>, capacity: int) -> Seq<u8> {
    Seq::new(
        capacity as nat,
        |i: int|
            if i < bytes.len() {
                bytes[i]
            } else {
                0u8
            },
    )
}

/// The response to `event` that carries one fragment of `value`.
pub open spec fn fragment_response(event: ReadEvent, value: Seq<u8>, chunk: int) -> ResponseView {
    ResponseView {
        connection_id: event.connection_id,
        transaction_id: event.transaction_id,
        handle: event.handle,
        offset: event.offset,
        declared_length: declared_length(value.len() as int, event.offset as int, chunk) as nat,
        buffer: zero_padded(fragment(value, event.offset as int, chunk), RESPONSE_LENGTH as int),
    }
}

/// The response to `event` that carries `value` from its first byte on, as
/// much of it as the buffer holds.
pub open spec fn whole_response(event: ReadEvent, value: Seq<u8>) -> ResponseView {
    ResponseView {
        connection_id: event.connection_id,
        transaction_id: event.transaction_id,
        handle: event.handle,
        offset: 0,
        declared_length: declared_length(value.len() as int, 0, RESPONSE_LENGTH as int) as nat,
        buffer: zero_padded(fragment(value, 0, RESPONSE_LENGTH as int), RESPONSE_LENGTH as int),
    }
}

/// The length of a fragment is the length that its response declares.
pub proof fn lemma_fragment_len(value: Seq<u8>, offset: int, chunk: int)
    requires
        0 <= offset,
        0 <= chunk,
    ensures
        fragment(value, offset, chunk).len() == declared_length(value.len() as int, offset, chunk),
        declared_length(value.len() as int, offset, chunk) <= chunk,
{
}

/// The fragment that the read number `index` of a sequence returns, the
/// reads being made at offsets `0`, `chunk`, `2 * chunk` and so on.
pub open spec fn nth_fragment(value: Seq<u8>, chunk: int, index: int) -> Seq<u8> {
    fragment(value, index * chunk, chunk)
}

/// The first `count` fragments of `value`, joined in the order of their
/// offsets.
pub open spec fn reassembled(value: Seq<u8>, chunk: int, count: nat) -> Seq<u8>
    decreases count,
{
    if count == 0 {
        Seq::empty()
    } else {
        reassembled(value, chunk, (count - 1) as nat) + nth_fragment(value, chunk, count - 1)
    }
}

/// The number of reads that fetch a value of `len` bytes: one for each full
/// chunk, and one more for the shorter fragment that ends the sequence.
pub open spec fn fragment_count(len: int, chunk: int) -> nat {
    (len / chunk + 1) as nat
}

/// A value of `len` bytes holds `len / chunk` full chunks, one after the
/// other from its start, and less than one chunk after them.
pub proof fn lemma_chunk_bounds(len: int, chunk: int)
    requires
        0 <= len,
        1 <= chunk,
    ensures
        0 <= len / chunk,
        (len / chunk) * chunk <= len < (len / chunk) * chunk + chunk,
        forall|i: int|
            0 <= i < len / chunk ==> 0 <= #[trigger] (i * chunk) && i * chunk + chunk <= len,
{
    assert(0 <= len / chunk && (len / chunk) * chunk <= len < (len / chunk) * chunk + chunk)
        by (nonlinear_arith)
        requires
            0 <= len,
            1 <= chunk,
    ;
    assert forall|i: int| 0 <= i < len / chunk implies 0 <= #[trigger] (i * chunk) && i * chunk
        + chunk <= len by {
        assert(0 <= i * chunk && i * chunk + chunk <= (len / chunk) * chunk) by (nonlinear_arith)
            requires
                0 <= i < len / chunk,
                1 <= chunk,
        ;
    }
}

proof fn lemma_reassembled_prefix(value: Seq<u8>, chunk: int, count: nat)
    requires
        1 <= chunk,
        count <= fragment_count(value.len() as int, chunk),
    ensures
        count <= value.len() as int / chunk ==> reassembled(value, chunk, count) == value.take(
            count * chunk,
        ),
        count == fragment_count(value.len() as int, chunk) ==> reassembled(value, chunk, count)
            == value,
    decreases count,
{
    let len = value.len() as int;
    lemma_chunk_bounds(len, chunk);
    if count == 0 {
        assert(reassembled(value, chunk, count) =~= value.take(0));
    } else {
        let before = (count - 1) as nat;
        lemma_reassembled_prefix(value, chunk, before);
        assert(before * chunk + chunk == count * chunk) by (nonlinear_arith)
            requires
                before + 1 == count,
        ;
        if count <= len / chunk {
            assert(reassembled(value, chunk, count) =~= value.take(count * chunk));
        } else {
            assert(reassembled(value, chunk, count) =~= value);
        }
    }
}

/// Reading a value at the offsets `0`, `chunk`, `2 * chunk` and so on
/// rebuilds it: the fragments, joined in that order, are the value. Every
/// fragment but the last fills a whole chunk, and the last one is shorter
/// than a chunk, which is how the end of the value is told.
pub proof fn lemma_fragments_reassemble(value: Seq<u8>, chunk: int)
    requires
        1 <= chunk,
    ensures
        reassembled(value, chunk, fragment_count(value.len() as int, chunk)) == value,
        forall|index: int|
            0 <= index < fragment_count(value.len() as int, chunk) - 1 ==> (#[trigger] nth_fragment(
                value,
                chunk,
                index,
            )).len() == chunk,
        nth_fragment(value, chunk, fragment_count(value.len() as int, chunk) - 1).len() < chunk,
        is_terminal(
            value.len() as int,
            (fragment_count(value.len() as int, chunk) - 1) * chunk,
            chunk,
        ),
{
    let len = value.len() as int;
    lemma_chunk_bounds(len, chunk);
    lemma_reassembled_prefix(value, chunk, fragment_count(len, chunk));
}

/// Copies `value[start..end]` to the front of a zeroed response buffer.
fn filled_buffer(value: &Vec<u8>, start: usize, end: usize) -> (buffer: [u8; RESPONSE_LENGTH])
    requires
        start <= end <= value.len(),
        end - start <= RESPONSE_LENGTH,
    ensures
        buffer@ == zero_padded(value@.subrange(start as int, end as int), RESPONSE_LENGTH as int),
{
    let mut buffer = [0u8; RESPONSE_LENGTH];
    let count = end - start;
    let mut i: usize = 0;
    while i < count
        invariant
            start <= end <= value.len(),
            count == end - start,
            count <= RESPONSE_LENGTH,
            i <= count,
            forall|j: int| 0 <= j < i ==> buffer[j] == value[start + j],
            forall|j: int| i <= j < RESPONSE_LENGTH ==> buffer[j] == 0u8,
        decreases count - i,
    {
        buffer[i] = value[start + i];
        i += 1;
    }
    buffer
}

/// Builds the response to `event` that carries the fragment of `value` at
/// the event's offset.
///
/// An offset beyond the end of the value gives an empty fragment.
pub fn fragment_of(event: ReadEvent, value: &Vec<u8>, chunk_size: u16) -> (response: ReadResponse)
    requires
        chunk_size <= RESPONSE_LENGTH,
    ensures
        response@ == fragment_response(event, value@, chunk_size as int),
        response.declared_length <= chunk_size,
        response.declared_length == fragment(value@, event.offset as int, chunk_size as int).len(),
{
    let len = value.len();
    let offset = event.offset as usize;
    let chunk = chunk_size as usize;
    let start = if offset <= len { offset } else { len };
    let end = if len - start <= chunk { len } else { start + chunk };
    ReadResponse {
        connection_id: event.connection_id,
        transaction_id: event.transaction_id,
        handle: event.handle,
        offset: event.offset,
        declared_length: (end - start) as u16,
        buffer: filled_buffer(value, start, end),
    }
}

/// Builds the response to `event` that carries `value` in one piece, cut
/// off where the response buffer ends.
pub fn whole_value(event: ReadEvent, value: &Vec<u8>) -> (response: ReadResponse)
    ensures
        response@ == whole_response(event, value@),
        value.len() <= RESPONSE_LENGTH ==> response.declared_length == value.len()
            && response.buffer@.take(value.len() as int) == value@,
{
    let len = value.len();
    let end = if len <= RESPONSE_LENGTH { len } else { RESPONSE_LENGTH };
    ReadResponse {
        connection_id: event.connection_id,
        transaction_id: event.transaction_id,
        handle: event.handle,
        offset: 0,
        declared_length: end as u16,
        buffer: filled_buffer(value, 0, end),
    }
}

} // verus!
