//! Answering the read events of a profile.

use vstd::prelude::*;
use crate::attribute::{
    lemma_services_without_handle, service_targets, AttributeKind, Service, Target,
};
use crate::cache::{after_read, get_message, resolves, FragmentCache};
use crate::event::{response_views, ReadEvent, ReadResponse, ResponseView, RESPONSE_LENGTH};
use crate::fragment::{fragment_response, whole_response, whole_value};

verus! {

/// The responses to `event` and the cache that it leaves behind, when the
/// attributes it is aimed at are `targets`, the cache was `cache` before, and
/// the target number `i` is answered from `values[i]`.
///
/// The targets answer one after the other. A characteristic answers with
/// the fragment at the event's offset, and goes through the cache. A
/// descriptor answers with its value in one piece, and leaves the cache
/// alone.
pub open spec fn outcome<F>(
    targets: Seq<Target<'_, F>>,
    cache: Map<u16, Seq<u8>>,
    event: ReadEvent,
    values: Seq<Vec<u8>>,
    chunk: int,
) -> (Seq<ResponseView>, Map<u16, Seq<u8>>)
    decreases targets.len(),
{
    if targets.len() == 0 {
        (Seq::empty(), cache)
    } else {
        let (responses, reached) = outcome(
            targets.drop_last(),
            cache,
            event,
            values.drop_last(),
            chunk,
        );
        let value = values.last()@;
        match targets.last().kind {
            AttributeKind::Characteristic => (
                responses.push(fragment_response(event, value, chunk)),
                after_read(reached, event, value, chunk),
            ),
            AttributeKind::Descriptor => (responses.push(whole_response(event, value)), reached),
        }
    }
}

/// Whether `values` are values that the targets can be answered from, one
/// for each target: where a target's callback is asked, a value that it
/// returns for `event`; where a characteristic continues a value kept in the
/// cache, that value.
pub open spec fn obtained<F: Fn(ReadEvent) -> Vec<u8>>(
    targets: Seq<Target<'_, F>>,
    cache: Map<u16, Seq<u8>>,
    event: ReadEvent,
    values: Seq<Vec<u8>>,
    chunk: int,
) -> bool
    decreases targets.len(),
{
    &&& values.len() == targets.len()
    &&& targets.len() > 0 ==> {
        let reached = outcome(targets.drop_last(), cache, event, values.drop_last(), chunk).1;
        &&& obtained(targets.drop_last(), cache, event, values.drop_last(), chunk)
        &&& if targets.last().kind is Descriptor || resolves(reached, event) {
            call_ensures(targets.last().callback, (event,), values.last())
        } else {
            values.last()@ == reached[event.handle]
        }
    }
}

/// A read changes nothing that the cache keeps under another handle than
/// its own.
pub proof fn lemma_outcome_keeps_other_handles<F>(
    targets: Seq<Target<'_, F>>,
    cache: Map<u16, Seq<u8>>,
    event: ReadEvent,
    values: Seq<Vec<u8>>,
    chunk: int,
)
    ensures
        outcome(targets, cache, event, values, chunk).1.remove(event.handle) == cache.remove(
            event.handle,
        ),
    decreases targets.len(),
{
    if targets.len() > 0 {
        lemma_outcome_keeps_other_handles(
            targets.drop_last(),
            cache,
            event,
            values.drop_last(),
            chunk,
        );
    }
}

/// Whether `response` answers `event` as an attribute of the given kind
/// does: on the event's connection, in its transaction and for its handle,
/// with no more bytes than the buffer holds; a characteristic at the
/// event's offset with at most one chunk, a descriptor from the start of
/// its value.
pub open spec fn answers_event(
    response: ResponseView,
    kind: AttributeKind,
    event: ReadEvent,
    chunk: int,
) -> bool {
    &&& response.connection_id == event.connection_id
    &&& response.transaction_id == event.transaction_id
    &&& response.handle == event.handle
    &&& response.declared_length <= RESPONSE_LENGTH
    &&& response.buffer.len() == RESPONSE_LENGTH
    &&& match kind {
        AttributeKind::Characteristic => response.offset == event.offset
            && response.declared_length <= chunk,
        AttributeKind::Descriptor => response.offset == 0,
    }
}

/// Every target gives one response, and each response answers the event as
/// its target's kind of attribute does.
pub proof fn lemma_outcome_answers_event<F>(
    targets: Seq<Target<'_, F>>,
    cache: Map<u16, Seq<u8>>,
    event: ReadEvent,
    values: Seq<Vec<u8>>,
    chunk: int,
)
    requires
        0 <= chunk <= RESPONSE_LENGTH,
    ensures
        outcome(targets, cache, event, values, chunk).0.len() == targets.len(),
        forall|index: int|
            0 <= index < targets.len() ==> answers_event(
                #[trigger] outcome(targets, cache, event, values, chunk).0[index],
                targets[index].kind,
                event,
                chunk,
            ),
    decreases targets.len(),
{
    if targets.len() > 0 {
        lemma_outcome_answers_event(targets.drop_last(), cache, event, values.drop_last(), chunk);
        let before = outcome(targets.drop_last(), cache, event, values.drop_last(), chunk).0;
        assert forall|index: int| 0 <= index < targets.len() implies answers_event(
            #[trigger] outcome(targets, cache, event, values, chunk).0[index],
            targets[index].kind,
            event,
            chunk,
        ) by {
            if index < targets.len() - 1 {
                assert(outcome(targets, cache, event, values, chunk).0[index] == before[index]);
            }
        }
    }
}

/// Once a characteristic has answered with the last fragment of its value,
/// nothing is kept under the handle that was read.
pub proof fn lemma_outcome_of_last_fragment<F>(
    targets: Seq<Target<'_, F>>,
    cache: Map<u16, Seq<u8>>,
    event: ReadEvent,
    values: Seq<Vec<u8>>,
    chunk: int,
)
    requires
        targets.len() > 0,
        targets.last().kind is Characteristic,
        outcome(targets, cache, event, values, chunk).0.last().declared_length < chunk,
    ensures
        !outcome(targets, cache, event, values, chunk).1.contains_key(event.handle),
{
}

/// The attributes of a server.
pub struct Profile<F> {
    pub services: Vec<Service<F>>,
}

impl<F: Fn(ReadEvent) -> Vec<u8>> Profile<F> {
    /// The attributes that a read of `handle` is aimed at, in the order in
    /// which they answer: service by service, characteristic by
    /// characteristic, each characteristic before its descriptors.
    pub open spec fn targets(&self, handle: u16) -> Seq<Target<'_, F>> {
        service_targets(self.services@, handle)
    }

    /// Whether an attribute of the profile has `handle`.
    pub open spec fn has_handle(&self, handle: u16) -> bool {
        exists|index: int|
            0 <= index < self.services@.len() && (#[trigger] self.services@[index]).has_handle(
                handle,
            )
    }

    /// A read of a handle that no attribute of the profile has is aimed at
    /// nothing: it gets no response and leaves the cache as it was.
    pub proof fn lemma_unknown_handle_is_ignored(
        &self,
        cache: Map<u16, Seq<u8>>,
        event: ReadEvent,
        values: Seq<Vec<u8>>,
        chunk: int,
    )
        requires
            !self.has_handle(event.handle),
        ensures
            self.targets(event.handle) == Seq::<Target<'_, F>>::empty(),
            outcome(self.targets(event.handle), cache, event, values, chunk) == (
                Seq::<ResponseView>::empty(),
                cache,
            ),
    {
        lemma_services_without_handle(self.services@, event.handle);
    }

    /// Whether the callbacks that `event` is aimed at take it.
    pub open spec fn accepts(&self, event: ReadEvent) -> bool {
        forall|index: int|
            0 <= index < self.targets(event.handle).len() ==> call_requires(
                (#[trigger] self.targets(event.handle)[index]).callback,
                (event,),
            )
    }

    /// Finds the attributes that a read of `handle` is aimed at.
    pub fn find(&self, handle: u16) -> (found: Vec<Target<'_, F>>)
        ensures
            found@ == self.targets(handle),
    {
        let mut found: Vec<Target<'_, F>> = Vec::new();
        let mut index: usize = 0;
        while index < self.services.len()
            invariant
                index <= self.services.len(),
                found@ == service_targets(self.services@.take(index as int), handle),
            decreases self.services.len() - index,
        {
            self.services[index].find(handle, &mut found);
            proof {
                let next = self.services@.take(index + 1);
                assert(next.drop_last() =~= self.services@.take(index as int));
            }
            index += 1;
        }
        assert(self.services@.take(index as int) =~= self.services@);
        found
    }

    /// Answers one read event.
    ///
    /// Every attribute that the event is aimed at gives one response, in the
    /// order of `targets`. A characteristic answers with the fragment of its
    /// value at the event's offset; its value comes from the cache where the
    /// read continues a value kept there, and from its callback otherwise. A
    /// descriptor answers with the whole value that its callback returns.
    /// An event that is aimed at nothing gives no response and leaves the
    /// cache as it was.
    pub fn on_read(
        &self,
        cache: &mut FragmentCache,
        event: ReadEvent,
    ) -> (responses: Vec<ReadResponse>)
        requires
            old(cache).wf(),
            self.accepts(event),
        ensures
            final(cache).wf(),
            final(cache).chunk() == old(cache).chunk(),
            exists|values: Seq<Vec<u8>>|
                #[trigger] obtained(
                    self.targets(event.handle),
                    old(cache)@,
                    event,
                    values,
                    old(cache).chunk(),
                ) && (response_views(responses@), final(cache)@) == outcome(
                    self.targets(event.handle),
                    old(cache)@,
                    event,
                    values,
                    old(cache).chunk(),
                ),
            responses@.len() == self.targets(event.handle).len(),
            forall|index: int|
                0 <= index < responses@.len() ==> answers_event(
                    (#[trigger] responses@[index])@,
                    self.targets(event.handle)[index].kind,
                    event,
                    old(cache).chunk(),
                ),
            final(cache)@.remove(event.handle) == old(cache)@.remove(event.handle),
            !self.has_handle(event.handle) ==> responses@.len() == 0
                && final(cache)@ == old(cache)@,
            responses@.len() > 0 && self.targets(event.handle).last().kind is Characteristic
                && responses@.last().declared_length < old(cache).chunk()
                ==> !final(cache)@.contains_key(event.handle),
    {
        let targets = self.find(event.handle);
        let mut responses: Vec<ReadResponse> = Vec::new();
        let ghost mut values: Seq<Vec<u8>> = Seq::empty();
        let ghost start = cache@;
        let ghost chunk = cache.chunk();
        let mut index: usize = 0;
        while index < targets.len()
            invariant
                index <= targets.len(),
                targets@ == self.targets(event.handle),
                self.accepts(event),
                cache.wf(),
                cache.chunk() == chunk,
                obtained(targets@.take(index as int), start, event, values, chunk),
                (response_views(responses@), cache@) == outcome(
                    targets@.take(index as int),
                    start,
                    event,
                    values,
                    chunk,
                ),
            decreases targets.len() - index,
        {
            let ghost before = values;
            let target = &targets[index];
            let response = match target.kind {
                AttributeKind::Characteristic => {
                    let value = get_message(cache, event, target.callback);
                    proof {
                        values = values.push(value);
                    }
                    cache.serve(event, &value)
                },
                AttributeKind::Descriptor => {
                    let value = (target.callback)(event);
                    proof {
                        values = values.push(value);
                    }
                    whole_value(event, &value)
                },
            };
            responses.push(response);
            proof {
                let next = targets@.take(index + 1);
                assert(next.drop_last() =~= targets@.take(index as int));
                assert(values.drop_last() =~= before);
            }
            index += 1;
        }
        assert(targets@.take(index as int) =~= targets@);
        proof {
            lemma_outcome_keeps_other_handles(targets@, start, event, values, chunk);
            lemma_outcome_answers_event(targets@, start, event, values, chunk);
            assert forall|index: int| 0 <= index < responses@.len() implies (
            #[trigger] responses@[index])@ == response_views(responses@)[index] by {}
            if responses@.len() > 0 && targets@.last().kind is Characteristic
                && responses@.last().declared_length < chunk {
                lemma_outcome_of_last_fragment(targets@, start, event, values, chunk);
            }
            if !self.has_handle(event.handle) {
                self.lemma_unknown_handle_is_ignored(start, event, values, chunk);
            }
        }
        responses
    }
}

} // verus!
