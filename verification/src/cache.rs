//! The cache that carries a long value from one read of it to the next.
//!
//! A value that does not fit one chunk is fetched by several reads, each at
//! a larger offset. The first of them asks the attribute's callback for the
//! value and keeps it here under the attribute's handle; the following ones
//! are answered from here; the one that returns the last fragment removes
//! the entry again.
//!
//! A read takes the cache by `&mut`, so nothing can come between its
//! look-up, its insertion and its removal. Threads that share one cache
//! keep it behind a lock, which they hold for one read at a time.

use std::collections::HashMap;
use vstd::prelude::*;
use crate::event::{ReadEvent, ReadResponse, MAX_CHUNK_SIZE, RESPONSE_LENGTH};
use crate::fragment::{
    fragment, fragment_count, fragment_of, fragment_response, is_terminal, lemma_chunk_bounds,
    nth_fragment,
};

verus! {

/// Whether a read has to ask the attribute's callback for the value: it
/// starts a value, or nothing is kept under its handle.
pub open spec fn resolves(cache: Map<u16, Seq<u8>>, event: ReadEvent) -> bool {
    event.offset == 0 || !cache.contains_key(event.handle)
}

/// The value that a read is answered from: what the callback returned, or
/// what the cache keeps under the handle.
pub open spec fn read_value(
    cache: Map<u16, Seq<u8>>,
    event: ReadEvent,
    resolved: Seq<u8>,
) -> Seq<u8> {
    if resolves(cache, event) {
        resolved
    } else {
        cache[event.handle]
    }
}

/// The cache once `value` was obtained for `handle`: the value is kept if
/// nothing was kept under the handle and the value is longer than a chunk.
pub open spec fn stored(
    cache: Map<u16, Seq<u8>>,
    handle: u16,
    value: Seq<u8>,
    chunk: int,
) -> Map<u16, Seq<u8>> {
    if !cache.contains_key(handle) && value.len() > chunk {
        cache.insert(handle, value)
    } else {
        cache
    }
}

/// The cache once the fragment of `event` was cut from a value of `len`
/// bytes: the last fragment of a value takes the handle's entry with it.
pub open spec fn released(
    cache: Map<u16, Seq<u8>>,
    event: ReadEvent,
    len: int,
    chunk: int,
) -> Map<u16, Seq<u8>> {
    if is_terminal(len, event.offset as int, chunk) {
        cache.remove(event.handle)
    } else {
        cache
    }
}

/// The cache after a whole read of a characteristic that was answered from
/// `value`.
pub open spec fn after_read(
    cache: Map<u16, Seq<u8>>,
    event: ReadEvent,
    value: Seq<u8>,
    chunk: int,
) -> Map<u16, Seq<u8>> {
    released(stored(cache, event.handle, value, chunk), event, value.len() as int, chunk)
}

/// Once a read has returned the last fragment of a value, nothing is kept
/// under its handle. After any other read a value is kept under the handle
/// if one was kept before, or if the value read is longer than a chunk.
pub proof fn lemma_last_fragment_clears_entry(
    cache: Map<u16, Seq<u8>>,
    event: ReadEvent,
    value: Seq<u8>,
    chunk: int,
)
    ensures
        is_terminal(value.len() as int, event.offset as int, chunk) ==> !after_read(
            cache,
            event,
            value,
            chunk,
        ).contains_key(event.handle),
        !is_terminal(value.len() as int, event.offset as int, chunk) ==> (after_read(
            cache,
            event,
            value,
            chunk,
        ).contains_key(event.handle) <==> cache.contains_key(event.handle) || value.len() > chunk),
{
}

/// A value that fits one chunk is never put into the cache: a read that is
/// answered from such a value adds no entry, and where nothing was kept
/// under its handle it leaves the cache as it was.
pub proof fn lemma_short_value_is_not_kept(
    cache: Map<u16, Seq<u8>>,
    event: ReadEvent,
    value: Seq<u8>,
    chunk: int,
)
    requires
        value.len() <= chunk,
    ensures
        stored(cache, event.handle, value, chunk) == cache,
        forall|handle: u16| #[trigger]
            after_read(cache, event, value, chunk).contains_key(handle) ==> cache.contains_key(
                handle,
            ),
        !cache.contains_key(event.handle) ==> after_read(cache, event, value, chunk) == cache,
{
}

/// Reads of two handles do not see each other's cache entries.
///
/// A read of one handle changes nothing that is kept under another, so the
/// read of another handle is answered alike before and after it, and two
/// such reads leave the same cache behind in either order.
pub proof fn lemma_handles_are_isolated(
    cache: Map<u16, Seq<u8>>,
    first: ReadEvent,
    first_value: Seq<u8>,
    second: ReadEvent,
    second_value: Seq<u8>,
    chunk: int,
)
    requires
        first.handle != second.handle,
    ensures
        after_read(cache, first, first_value, chunk).remove(first.handle) == cache.remove(
            first.handle,
        ),
        resolves(after_read(cache, first, first_value, chunk), second) == resolves(cache, second),
        forall|resolved: Seq<u8>|
            read_value(after_read(cache, first, first_value, chunk), second, resolved)
                == #[trigger] read_value(cache, second, resolved),
        after_read(after_read(cache, first, first_value, chunk), second, second_value, chunk)
            == after_read(
            after_read(cache, second, second_value, chunk),
            first,
            first_value,
            chunk,
        ),
{
}

/// The event with which a peer asks for the fragment number `index` of the
/// value that `first` began to read.
pub open spec fn nth_read(first: ReadEvent, chunk: int, index: int) -> ReadEvent {
    ReadEvent {
        connection_id: first.connection_id,
        transaction_id: first.transaction_id,
        handle: first.handle,
        offset: (index * chunk) as u16,
    }
}

/// The cache after the first `count` reads of a sequence, when the callback
/// returns `value` whenever it is asked.
pub open spec fn after_reads(
    cache: Map<u16, Seq<u8>>,
    first: ReadEvent,
    value: Seq<u8>,
    chunk: int,
    count: nat,
) -> Map<u16, Seq<u8>>
    decreases count,
{
    if count == 0 {
        cache
    } else {
        let reached = after_reads(cache, first, value, chunk, (count - 1) as nat);
        let event = nth_read(first, chunk, count - 1);
        after_read(reached, event, read_value(reached, event, value), chunk)
    }
}

proof fn lemma_after_reads(
    cache: Map<u16, Seq<u8>>,
    first: ReadEvent,
    value: Seq<u8>,
    chunk: int,
    count: nat,
)
    requires
        1 <= chunk,
        value.len() <= u16::MAX,
        !cache.contains_key(first.handle),
        count <= fragment_count(value.len() as int, chunk),
    ensures
        0 < count < fragment_count(value.len() as int, chunk) && value.len() > chunk
            ==> after_reads(cache, first, value, chunk, count) == cache.insert(first.handle, value),
        count == 0 || count == fragment_count(value.len() as int, chunk) || value.len() <= chunk
            ==> after_reads(cache, first, value, chunk, count) == cache,
    decreases count,
{
    let len = value.len() as int;
    lemma_chunk_bounds(len, chunk);
    if count > 0 {
        let before = (count - 1) as nat;
        lemma_after_reads(cache, first, value, chunk, before);
    }
}

/// What holds of the read number `index` of a sequence that fetches `value`:
/// it returns the fragment number `index` of the value; it is answered
/// without the callback if it follows the first read of a value longer than
/// a chunk; and it finds the value kept in just that case.
pub open spec fn nth_read_returns_fragment(
    cache: Map<u16, Seq<u8>>,
    first: ReadEvent,
    value: Seq<u8>,
    chunk: int,
    index: int,
) -> bool {
    let reached = after_reads(cache, first, value, chunk, index as nat);
    let event = nth_read(first, chunk, index);
    &&& fragment(read_value(reached, event, value), event.offset as int, chunk) == nth_fragment(
        value,
        chunk,
        index,
    )
    &&& index > 0 && value.len() > chunk ==> !resolves(reached, event)
    &&& reached.contains_key(first.handle) <==> index > 0 && value.len() > chunk
}

/// A peer that reads a value from its start, chunk by chunk, gets the
/// value, and the cache forgets it again.
///
/// The reads are made at the offsets `0`, `chunk`, `2 * chunk` and so on, of
/// a handle under which nothing is kept, and the callback returns `value`
/// whenever it is asked. Then the read number `index` returns the fragment
/// number `index` of `value`. If the value is longer than a chunk, the
/// callback is asked by the first read only, and the value is kept from
/// then on until the last fragment has gone out; a shorter value is never
/// kept. After the last read the cache is what it was before the first.
pub proof fn lemma_read_sequence_returns_value(
    cache: Map<u16, Seq<u8>>,
    first: ReadEvent,
    value: Seq<u8>,
    chunk: int,
)
    requires
        1 <= chunk,
        value.len() <= u16::MAX,
        !cache.contains_key(first.handle),
    ensures
        forall|index: int|
            0 <= index < fragment_count(value.len() as int, chunk)
                ==> #[trigger] nth_read_returns_fragment(cache, first, value, chunk, index),
        after_reads(cache, first, value, chunk, fragment_count(value.len() as int, chunk))
            == cache,
{
    let len = value.len() as int;
    let count = fragment_count(len, chunk);
    lemma_chunk_bounds(len, chunk);
    lemma_after_reads(cache, first, value, chunk, count);
    assert forall|index: int| 0 <= index < count implies #[trigger] nth_read_returns_fragment(
        cache,
        first,
        value,
        chunk,
        index,
    ) by {
        lemma_after_reads(cache, first, value, chunk, index as nat);
        if index > 0 {
            assert(index * chunk >= chunk) by (nonlinear_arith)
                requires
                    index >= 1,
                    chunk >= 1,
            ;
        }
    }
}

/// Values on their way to a peer, by attribute handle.
pub struct FragmentCache {
    entries: HashMap<u16, Vec<u8>>,
    chunk_size: u16,
}

impl View for FragmentCache {
    type V = Map<u16, Seq<u8>>;

    closed spec fn view(&self) -> Map<u16, Seq<u8>> {
        Map::new(
            |handle: u16| self.entries@.contains_key(handle),
            |handle: u16| self.entries@[handle]@,
        )
    }
}

impl FragmentCache {
    /// The chunk size that the cache was made for.
    pub closed spec fn chunk(&self) -> int {
        self.chunk_size as int
    }

    /// A response buffer holds a chunk, a chunk holds at least one byte, and
    /// every value kept is longer than a chunk.
    pub open spec fn wf(&self) -> bool {
        &&& 1 <= self.chunk() <= RESPONSE_LENGTH
        &&& forall|handle: u16| #[trigger]
            self@.contains_key(handle) ==> self@[handle].len() > self.chunk()
    }

    /// An empty cache for links with the default transmission unit.
    pub fn new() -> (cache: Self)
        ensures
            cache.wf(),
            cache.chunk() == MAX_CHUNK_SIZE,
            cache@ == Map::<u16, Seq<u8>>::empty(),
    {
        FragmentCache { entries: HashMap::new(), chunk_size: MAX_CHUNK_SIZE }
    }

    /// An empty cache for the given chunk size, if a chunk of that size
    /// holds a byte and fits a response buffer.
    pub fn with_chunk_size(chunk_size: u16) -> (made: Option<Self>)
        ensures
            made is Some <==> 1 <= chunk_size <= RESPONSE_LENGTH,
            made matches Some(cache) ==> cache.wf() && cache.chunk() == chunk_size && cache@
                == Map::<u16, Seq<u8>>::empty(),
    {
        if 1 <= chunk_size && chunk_size as usize <= RESPONSE_LENGTH {
            Some(FragmentCache { entries: HashMap::new(), chunk_size })
        } else {
            None
        }
    }

    /// The chunk size that the cache was made for.
    pub fn chunk_size(&self) -> (chunk_size: u16)
        ensures
            chunk_size == self.chunk(),
    {
        self.chunk_size
    }

    /// The number of values that are kept.
    pub fn len(&self) -> (count: usize)
        ensures
            count == self@.len(),
    {
        assert(self@.dom() =~= self.entries@.dom());
        self.entries.len()
    }

    /// Whether a value is kept under `handle`.
    pub fn contains(&self, handle: u16) -> (kept: bool)
        ensures
            kept == self@.contains_key(handle),
    {
        self.entries.contains_key(&handle)
    }

    /// The value that answers `event` without asking the attribute's
    /// callback, if there is one: the value kept under the event's handle,
    /// for a read that continues a value.
    pub fn lookup(&self, event: ReadEvent) -> (found: Option<Vec<u8>>)
        ensures
            found is None <==> resolves(self@, event),
            found matches Some(value) ==> value@ == self@[event.handle],
    {
        if event.offset > 0 {
            match self.entries.get(&event.handle) {
                Some(message) => Some(message.clone()),
                None => None,
            }
        } else {
            None
        }
    }

    /// Keeps `value` under `handle` for the reads to come, if nothing is kept
    /// there yet and the value is longer than a chunk.
    pub fn store(&mut self, handle: u16, value: &Vec<u8>)
        requires
            old(self).wf(),
        ensures
            final(self).wf(),
            final(self).chunk() == old(self).chunk(),
            final(self)@ == stored(old(self)@, handle, value@, old(self).chunk()),
            value@.len() <= old(self).chunk() ==> final(self)@ == old(self)@,
    {
        if !self.entries.contains_key(&handle) && value.len() > self.chunk_size as usize {
            self.entries.insert(handle, value.clone());
            assert(self@ =~= old(self)@.insert(handle, value@));
        }
    }

    /// Answers `event` with the fragment of `value` at the event's offset,
    /// and removes the entry of the event's handle if that fragment is the
    /// last one of the value.
    pub fn serve(&mut self, event: ReadEvent, value: &Vec<u8>) -> (response: ReadResponse)
        requires
            old(self).wf(),
        ensures
            final(self).wf(),
            final(self).chunk() == old(self).chunk(),
            response@ == fragment_response(event, value@, old(self).chunk()),
            final(self)@ == released(old(self)@, event, value.len() as int, old(self).chunk()),
            is_terminal(value.len() as int, event.offset as int, old(self).chunk())
                ==> !final(self)@.contains_key(event.handle),
    {
        let response = fragment_of(event, value, self.chunk_size);
        if response.declared_length < self.chunk_size {
            self.entries.remove(&event.handle);
            assert(self@ =~= old(self)@.remove(event.handle));
        }
        response
    }
}

/// Obtains the value that a read of a characteristic is answered from.
///
/// A read that continues a value kept in the cache gets that value, and
/// `callback` is not called. Any other read gets what `callback` returns for
/// it, and that value is kept if nothing was kept under the handle and it is
/// longer than a chunk.
pub fn get_message<F: Fn(ReadEvent) -> Vec<u8>>(
    cache: &mut FragmentCache,
    event: ReadEvent,
    callback: &F,
) -> (value: Vec<u8>)
    requires
        old(cache).wf(),
        call_requires(callback, (event,)),
    ensures
        final(cache).wf(),
        final(cache).chunk() == old(cache).chunk(),
        resolves(old(cache)@, event) ==> call_ensures(callback, (event,), value),
        !resolves(old(cache)@, event) ==> value@ == old(cache)@[event.handle],
        final(cache)@ == stored(old(cache)@, event.handle, value@, old(cache).chunk()),
        value@.len() <= old(cache).chunk() ==> final(cache)@ == old(cache)@,
{
    let value = match cache.lookup(event) {
        Some(message) => message,
        None => callback(event),
    };
    cache.store(event.handle, &value);
    value
}

} // verus!
