//! The attributes that a server exposes: services, their characteristics,
//! and the descriptors of each characteristic.
//!
//! The transport assigns a handle to each attribute when it is registered,
//! so the tree is not indexed by handle: the attributes that a read is
//! aimed at are found by walking it.

use vstd::prelude::*;

verus! {

/// How the value of an attribute is obtained when a peer reads it.
pub enum AttributeControl<F> {
    /// The value is fixed; reads of it are not answered from here.
    FixedResponse(Vec<u8>),
    /// The application computes the value for each read.
    ResponseByApp(F),
}

/// A descriptor of a characteristic.
pub struct Descriptor<F> {
    /// The handle, once the transport has assigned one.
    pub attribute_handle: Option<u16>,
    pub control: AttributeControl<F>,
}

/// A characteristic of a service, with its descriptors.
pub struct Characteristic<F> {
    /// The handle, once the transport has assigned one.
    pub attribute_handle: Option<u16>,
    pub control: AttributeControl<F>,
    pub descriptors: Vec<Descriptor<F>>,
}

/// A service, with its characteristics.
pub struct Service<F> {
    pub characteristics: Vec<Characteristic<F>>,
}

/// Which kind of attribute a read is aimed at.
#[derive(Clone, Copy, Debug, PartialEq, Eq)]
pub enum AttributeKind {
    Characteristic,
    Descriptor,
}

/// An attribute that answers a read: its kind, and the callback that
/// computes its value.
pub struct Target<'a, F> {
    pub kind: AttributeKind,
    pub callback: &'a F,
}

impl<F> Descriptor<F> {
    /// What a read of `handle` is aimed at in this descriptor: the
    /// descriptor itself, if it has that handle and a callback.
    pub open spec fn targets(&self, handle: u16) -> Seq<Target<'_, F>> {
        match self.control {
            AttributeControl::ResponseByApp(callback) if self.attribute_handle == Some(handle) => {
                seq![Target { kind: AttributeKind::Descriptor, callback: &callback }]
            },
            _ => Seq::empty(),
        }
    }

    /// Adds to `found` what a read of `handle` is aimed at in this
    /// descriptor.
    pub fn find<'a>(&'a self, handle: u16, found: &mut Vec<Target<'a, F>>)
        ensures
            final(found)@ == old(found)@ + self.targets(handle),
    {
        if self.attribute_handle == Some(handle) {
            if let AttributeControl::ResponseByApp(callback) = &self.control {
                found.push(Target { kind: AttributeKind::Descriptor, callback });
            }
        }
    }
}

/// What a read of `handle` is aimed at among `descriptors`, in their order.
pub open spec fn descriptor_targets<'a, F>(
    descriptors: Seq<Descriptor<F>>,
    handle: u16,
) -> Seq<Target<'a, F>>
    decreases descriptors.len(),
{
    if descriptors.len() == 0 {
        Seq::empty()
    } else {
        descriptor_targets(descriptors.drop_last(), handle) + descriptors.last().targets(handle)
    }
}

impl<F> Characteristic<F> {
    /// What a read of `handle` is aimed at in this characteristic.
    ///
    /// A characteristic with that handle answers itself if it has a
    /// callback, and its descriptors are not looked at. Under a
    /// characteristic with another handle, or with none yet, every
    /// descriptor is looked at.
    pub open spec fn targets(&self, handle: u16) -> Seq<Target<'_, F>> {
        if self.attribute_handle == Some(handle) {
            match self.control {
                AttributeControl::ResponseByApp(callback) => seq![
                    Target { kind: AttributeKind::Characteristic, callback: &callback },
                ],
                AttributeControl::FixedResponse(_) => Seq::empty(),
            }
        } else {
            descriptor_targets(self.descriptors@, handle)
        }
    }

    /// Whether the characteristic or one of its descriptors has `handle`.
    pub open spec fn has_handle(&self, handle: u16) -> bool {
        ||| self.attribute_handle == Some(handle)
        ||| exists|index: int|
            0 <= index < self.descriptors@.len() && (
            #[trigger] self.descriptors@[index]).attribute_handle == Some(handle)
    }

    /// Adds to `found` what a read of `handle` is aimed at in this
    /// characteristic.
    pub fn find<'a>(&'a self, handle: u16, found: &mut Vec<Target<'a, F>>)
        ensures
            final(found)@ == old(found)@ + self.targets(handle),
    {
        if self.attribute_handle == Some(handle) {
            if let AttributeControl::ResponseByApp(callback) = &self.control {
                found.push(Target { kind: AttributeKind::Characteristic, callback });
            }
        } else {
            let mut index: usize = 0;
            while index < self.descriptors.len()
                invariant
                    index <= self.descriptors.len(),
                    found@ == old(found)@ + descriptor_targets(
                        self.descriptors@.take(index as int),
                        handle,
                    ),
                decreases self.descriptors.len() - index,
            {
                self.descriptors[index].find(handle, found);
                proof {
                    let next = self.descriptors@.take(index + 1);
                    assert(next.drop_last() =~= self.descriptors@.take(index as int));
                }
                index += 1;
            }
            assert(self.descriptors@.take(index as int) =~= self.descriptors@);
        }
    }
}

/// What a read of `handle` is aimed at among `characteristics`, in their
/// order.
pub open spec fn characteristic_targets<'a, F>(
    characteristics: Seq<Characteristic<F>>,
    handle: u16,
) -> Seq<Target<'a, F>>
    decreases characteristics.len(),
{
    if characteristics.len() == 0 {
        Seq::empty()
    } else {
        characteristic_targets(characteristics.drop_last(), handle)
            + characteristics.last().targets(handle)
    }
}

impl<F> Service<F> {
    /// What a read of `handle` is aimed at in this service.
    pub open spec fn targets(&self, handle: u16) -> Seq<Target<'_, F>> {
        characteristic_targets(self.characteristics@, handle)
    }

    /// Whether an attribute of the service has `handle`.
    pub open spec fn has_handle(&self, handle: u16) -> bool {
        exists|index: int|
            0 <= index < self.characteristics@.len() && (
            #[trigger] self.characteristics@[index]).has_handle(handle)
    }

    /// Adds to `found` what a read of `handle` is aimed at in this service.
    pub fn find<'a>(&'a self, handle: u16, found: &mut Vec<Target<'a, F>>)
        ensures
            final(found)@ == old(found)@ + self.targets(handle),
    {
        let mut index: usize = 0;
        while index < self.characteristics.len()
            invariant
                index <= self.characteristics.len(),
                found@ == old(found)@ + characteristic_targets(
                    self.characteristics@.take(index as int),
                    handle,
                ),
            decreases self.characteristics.len() - index,
        {
            self.characteristics[index].find(handle, found);
            proof {
                let next = self.characteristics@.take(index + 1);
                assert(next.drop_last() =~= self.characteristics@.take(index as int));
            }
            index += 1;
        }
        assert(self.characteristics@.take(index as int) =~= self.characteristics@);
    }
}

/// What a read of `handle` is aimed at among `services`, in their order.
pub open spec fn service_targets<'a, F>(
    services: Seq<Service<F>>,
    handle: u16,
) -> Seq<Target<'a, F>>
    decreases services.len(),
{
    if services.len() == 0 {
        Seq::empty()
    } else {
        service_targets(services.drop_last(), handle) + services.last().targets(handle)
    }
}

/// No descriptor answers a read of a handle that none of them has.
pub proof fn lemma_descriptors_without_handle<F>(descriptors: Seq<Descriptor<F>>, handle: u16)
    requires
        forall|index: int|
            0 <= index < descriptors.len() ==> (#[trigger] descriptors[index]).attribute_handle
                != Some(handle),
    ensures
        descriptor_targets(descriptors, handle) == Seq::<Target<'_, F>>::empty(),
    decreases descriptors.len(),
{
    if descriptors.len() > 0 {
        lemma_descriptors_without_handle(descriptors.drop_last(), handle);
    }
}

/// No characteristic answers a read of a handle that none of them has, and
/// neither does any of their descriptors.
pub proof fn lemma_characteristics_without_handle<F>(
    characteristics: Seq<Characteristic<F>>,
    handle: u16,
)
    requires
        forall|index: int|
            0 <= index < characteristics.len() ==> !(#[trigger] characteristics[index]).has_handle(
                handle,
            ),
    ensures
        characteristic_targets(characteristics, handle) == Seq::<Target<'_, F>>::empty(),
    decreases characteristics.len(),
{
    if characteristics.len() > 0 {
        lemma_descriptors_without_handle(characteristics.last().descriptors@, handle);
        lemma_characteristics_without_handle(characteristics.drop_last(), handle);
    }
}

/// No service answers a read of a handle that no attribute of them has.
pub proof fn lemma_services_without_handle<F>(services: Seq<Service<F>>, handle: u16)
    requires
        forall|index: int|
            0 <= index < services.len() ==> !(#[trigger] services[index]).has_handle(handle),
    ensures
        service_targets(services, handle) == Seq::<Target<'_, F>>::empty(),
    decreases services.len(),
{
    if services.len() > 0 {
        lemma_characteristics_without_handle(services.last().characteristics@, handle);
        lemma_services_without_handle(services.drop_last(), handle);
    }
}

} // verus!
