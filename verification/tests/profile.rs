use std::cell::Cell;
use std::rc::Rc;

use gatt_server::attribute::{
    AttributeControl, AttributeKind, Characteristic, Descriptor, Service,
};
use gatt_server::cache::FragmentCache;
use gatt_server::event::{ReadEvent, ReadResponse};
use gatt_server::profile::Profile;

type Callback = Box<dyn Fn(ReadEvent) -> Vec<u8>>;

fn read_at(handle: u16, offset: u16) -> ReadEvent {
    ReadEvent { connection_id: 4, transaction_id: 1000 + offset as u32, handle, offset }
}

fn numbered(len: usize) -> Vec<u8> {
    (0..len).map(|i| (i % 200) as u8 + 1).collect()
}

fn constant(value: Vec<u8>) -> Callback {
    Box::new(move |_event: ReadEvent| value.clone())
}

fn counted(value: Vec<u8>, calls: &Rc<Cell<usize>>) -> Callback {
    let calls = Rc::clone(calls);
    Box::new(move |_event: ReadEvent| {
        calls.set(calls.get() + 1);
        value.clone()
    })
}

fn descriptor(handle: Option<u16>, callback: Callback) -> Descriptor<Callback> {
    Descriptor { attribute_handle: handle, control: AttributeControl::ResponseByApp(callback) }
}

fn characteristic(
    handle: Option<u16>,
    callback: Callback,
    descriptors: Vec<Descriptor<Callback>>,
) -> Characteristic<Callback> {
    Characteristic {
        attribute_handle: handle,
        control: AttributeControl::ResponseByApp(callback),
        descriptors,
    }
}

fn profile_of(characteristics: Vec<Characteristic<Callback>>) -> Profile<Callback> {
    Profile { services: vec![Service { characteristics }] }
}

fn payload(response: &ReadResponse) -> Vec<u8> {
    response.buffer[..response.declared_length as usize].to_vec()
}

#[test]
fn long_value_goes_out_in_three_fragments() {
    let calls = Rc::new(Cell::new(0usize));
    let value = numbered(50);
    let profile = profile_of(vec![characteristic(Some(42), counted(value.clone(), &calls), vec![])]);
    let mut cache = FragmentCache::new();
    assert_eq!(cache.chunk_size(), 23);

    let responses = profile.on_read(&mut cache, read_at(42, 0));
    assert_eq!(responses.len(), 1);
    assert_eq!(responses[0].offset, 0);
    assert_eq!(responses[0].declared_length, 23);
    assert_eq!(payload(&responses[0]), value[0..23].to_vec());
    assert!(cache.contains(42));
    assert_eq!(calls.get(), 1);

    let responses = profile.on_read(&mut cache, read_at(42, 23));
    assert_eq!(responses.len(), 1);
    assert_eq!(responses[0].offset, 23);
    assert_eq!(responses[0].declared_length, 23);
    assert_eq!(payload(&responses[0]), value[23..46].to_vec());
    assert!(cache.contains(42));
    assert_eq!(calls.get(), 1);

    let responses = profile.on_read(&mut cache, read_at(42, 46));
    assert_eq!(responses.len(), 1);
    assert_eq!(responses[0].offset, 46);
    assert_eq!(responses[0].declared_length, 4);
    assert_eq!(payload(&responses[0]), value[46..50].to_vec());
    assert!(!cache.contains(42));
    assert_eq!(cache.len(), 0);
    assert_eq!(calls.get(), 1);
}

#[test]
fn response_echoes_the_event() {
    let profile = profile_of(vec![characteristic(Some(42), constant(vec![1, 2, 3]), vec![])]);
    let mut cache = FragmentCache::new();
    let event = ReadEvent { connection_id: 17, transaction_id: 123_456, handle: 42, offset: 1 };
    let responses = profile.on_read(&mut cache, event);
    assert_eq!(responses.len(), 1);
    let mut buffer = [0u8; 600];
    buffer[0] = 2;
    buffer[1] = 3;
    assert_eq!(
        responses[0],
        ReadResponse {
            connection_id: 17,
            transaction_id: 123_456,
            handle: 42,
            offset: 1,
            declared_length: 2,
            buffer,
        }
    );
}

#[test]
fn unknown_handle_gets_no_response_and_changes_nothing() {
    let calls = Rc::new(Cell::new(0usize));
    let profile = profile_of(vec![characteristic(
        Some(42),
        counted(numbered(50), &calls),
        vec![descriptor(Some(43), counted(vec![1], &calls)), descriptor(None, counted(vec![2], &calls))],
    )]);
    let mut cache = FragmentCache::new();
    assert_eq!(profile.on_read(&mut cache, read_at(42, 0)).len(), 1);
    assert_eq!(calls.get(), 1);
    assert_eq!(cache.len(), 1);

    for handle in [0u16, 41, 44, u16::MAX] {
        for offset in [0u16, 23, 46] {
            assert!(profile.find(handle).is_empty());
            let responses = profile.on_read(&mut cache, read_at(handle, offset));
            assert!(responses.is_empty());
            assert_eq!(cache.len(), 1);
            assert!(cache.contains(42));
            assert!(!cache.contains(handle));
        }
    }
    assert_eq!(calls.get(), 1);
    assert_eq!(payload(&profile.on_read(&mut cache, read_at(42, 23))[0]), numbered(50)[23..46].to_vec());
    assert_eq!(calls.get(), 1);
}

#[test]
fn empty_profile_answers_nothing() {
    let profile: Profile<Callback> = Profile { services: vec![] };
    let mut cache = FragmentCache::new();
    assert!(profile.find(1).is_empty());
    assert!(profile.on_read(&mut cache, read_at(1, 0)).is_empty());
    let profile: Profile<Callback> = Profile { services: vec![Service { characteristics: vec![] }] };
    assert!(profile.on_read(&mut cache, read_at(1, 0)).is_empty());
    assert_eq!(cache.len(), 0);
}

#[test]
fn attribute_without_a_handle_is_never_read() {
    let calls = Rc::new(Cell::new(0usize));
    let profile = profile_of(vec![characteristic(
        None,
        counted(vec![1], &calls),
        vec![descriptor(None, counted(vec![2], &calls))],
    )]);
    let mut cache = FragmentCache::new();
    assert!(profile.on_read(&mut cache, read_at(0, 0)).is_empty());
    assert_eq!(calls.get(), 0);
}

#[test]
fn short_value_is_answered_without_the_cache() {
    let calls = Rc::new(Cell::new(0usize));
    let profile = profile_of(vec![characteristic(Some(7), counted(numbered(23), &calls), vec![])]);
    let mut cache = FragmentCache::new();
    let responses = profile.on_read(&mut cache, read_at(7, 0));
    assert_eq!(responses[0].declared_length, 23);
    assert_eq!(payload(&responses[0]), numbered(23));
    assert_eq!(cache.len(), 0);
    let responses = profile.on_read(&mut cache, read_at(7, 23));
    assert_eq!(responses[0].declared_length, 0);
    assert_eq!(responses[0].offset, 23);
    assert_eq!(cache.len(), 0);
    assert_eq!(calls.get(), 2);

    let profile = profile_of(vec![characteristic(Some(7), counted(numbered(5), &calls), vec![])]);
    let responses = profile.on_read(&mut cache, read_at(7, 0));
    assert_eq!(responses[0].declared_length, 5);
    assert_eq!(payload(&responses[0]), numbered(5));
    assert_eq!(cache.len(), 0);
}

#[test]
fn continuation_without_a_first_read_asks_the_callback() {
    let calls = Rc::new(Cell::new(0usize));
    let value = numbered(50);
    let profile = profile_of(vec![characteristic(Some(7), counted(value.clone(), &calls), vec![])]);
    let mut cache = FragmentCache::new();
    let responses = profile.on_read(&mut cache, read_at(7, 23));
    assert_eq!(calls.get(), 1);
    assert_eq!(payload(&responses[0]), value[23..46].to_vec());
    assert!(cache.contains(7));
    let responses = profile.on_read(&mut cache, read_at(7, 46));
    assert_eq!(calls.get(), 1);
    assert_eq!(payload(&responses[0]), value[46..].to_vec());
    assert!(!cache.contains(7));
}

#[test]
fn offset_beyond_the_value_gets_an_empty_response() {
    let profile = profile_of(vec![characteristic(Some(7), constant(numbered(10)), vec![])]);
    let mut cache = FragmentCache::new();
    let responses = profile.on_read(&mut cache, read_at(7, 23));
    assert_eq!(responses.len(), 1);
    assert_eq!(responses[0].offset, 23);
    assert_eq!(responses[0].declared_length, 0);
    assert_eq!(responses[0].buffer, [0u8; 600]);
    assert_eq!(cache.len(), 0);
}

#[test]
fn value_of_two_full_chunks_ends_with_an_empty_fragment() {
    let calls = Rc::new(Cell::new(0usize));
    let value = numbered(46);
    let profile = profile_of(vec![characteristic(Some(7), counted(value.clone(), &calls), vec![])]);
    let mut cache = FragmentCache::new();
    assert_eq!(profile.on_read(&mut cache, read_at(7, 0))[0].declared_length, 23);
    assert_eq!(profile.on_read(&mut cache, read_at(7, 23))[0].declared_length, 23);
    assert!(cache.contains(7));
    assert_eq!(profile.on_read(&mut cache, read_at(7, 46))[0].declared_length, 0);
    assert!(!cache.contains(7));
    assert_eq!(calls.get(), 1);
}

#[test]
fn reads_rebuild_the_value_for_many_sizes() {
    for chunk in [1u16, 5, 23, 64, 600] {
        for len in [0usize, 1, 4, 5, 6, 23, 24, 46, 50, 130, 599, 600, 601, 1201] {
            let calls = Rc::new(Cell::new(0usize));
            let value = numbered(len);
            let profile =
                profile_of(vec![characteristic(Some(9), counted(value.clone(), &calls), vec![])]);
            let mut cache = FragmentCache::with_chunk_size(chunk).unwrap();
            let mut joined = Vec::new();
            let mut offset = 0usize;
            loop {
                let responses = profile.on_read(&mut cache, read_at(9, offset as u16));
                assert_eq!(responses.len(), 1);
                assert_eq!(responses[0].offset as usize, offset);
                joined.extend_from_slice(&payload(&responses[0]));
                if responses[0].declared_length < chunk {
                    break;
                }
                assert_eq!(responses[0].declared_length, chunk);
                assert_eq!(cache.contains(9), len > chunk as usize);
                offset += chunk as usize;
            }
            assert_eq!(joined, value);
            assert_eq!(cache.len(), 0);
            if len > chunk as usize {
                assert_eq!(calls.get(), 1);
            }
        }
    }
}

#[test]
fn two_handles_read_in_turns_stay_apart() {
    let first = numbered(50);
    let second: Vec<u8> = numbered(60).into_iter().rev().collect();
    let profile = profile_of(vec![
        characteristic(Some(1), constant(first.clone()), vec![]),
        characteristic(Some(2), constant(second.clone()), vec![]),
    ]);
    let mut cache = FragmentCache::new();
    let mut got_first = Vec::new();
    let mut got_second = Vec::new();
    for offset in [0u16, 23, 46] {
        let responses = profile.on_read(&mut cache, read_at(1, offset));
        assert_eq!(responses[0].handle, 1);
        got_first.extend_from_slice(&payload(&responses[0]));
        let responses = profile.on_read(&mut cache, read_at(2, offset));
        assert_eq!(responses[0].handle, 2);
        got_second.extend_from_slice(&payload(&responses[0]));
    }
    assert_eq!(got_first, first);
    assert_eq!(got_second, second);
    assert!(!cache.contains(1));
    assert!(!cache.contains(2));
}

#[test]
fn descriptor_is_answered_in_one_piece() {
    let calls = Rc::new(Cell::new(0usize));
    let value = numbered(50);
    let profile = profile_of(vec![characteristic(
        Some(1),
        constant(vec![0xAA]),
        vec![descriptor(Some(2), counted(value.clone(), &calls))],
    )]);
    let mut cache = FragmentCache::new();
    let responses = profile.on_read(&mut cache, read_at(2, 0));
    assert_eq!(responses.len(), 1);
    assert_eq!(responses[0].handle, 2);
    assert_eq!(responses[0].offset, 0);
    assert_eq!(responses[0].declared_length, 50);
    assert_eq!(payload(&responses[0]), value);
    assert!(responses[0].buffer[50..].iter().all(|byte| *byte == 0));
    assert_eq!(cache.len(), 0);

    let responses = profile.on_read(&mut cache, read_at(2, 23));
    assert_eq!(responses[0].offset, 0);
    assert_eq!(responses[0].declared_length, 50);
    assert_eq!(payload(&responses[0]), value);
    assert_eq!(cache.len(), 0);
    assert_eq!(calls.get(), 2);
}

#[test]
fn descriptor_longer_than_the_buffer_is_cut_off() {
    let value = numbered(700);
    let profile = profile_of(vec![characteristic(
        Some(1),
        constant(vec![]),
        vec![descriptor(Some(2), constant(value.clone()))],
    )]);
    let mut cache = FragmentCache::new();
    let responses = profile.on_read(&mut cache, read_at(2, 0));
    assert_eq!(responses[0].declared_length, 600);
    assert_eq!(responses[0].buffer.to_vec(), value[..600].to_vec());
}

#[test]
fn descriptor_read_ignores_the_cache() {
    let profile = profile_of(vec![characteristic(
        Some(1),
        constant(vec![]),
        vec![descriptor(Some(2), constant(vec![5, 5]))],
    )]);
    let mut cache = FragmentCache::new();
    cache.store(2, &numbered(40));
    let responses = profile.on_read(&mut cache, read_at(2, 23));
    assert_eq!(payload(&responses[0]), vec![5u8, 5]);
    assert!(cache.contains(2));
    assert_eq!(cache.lookup(read_at(2, 23)), Some(numbered(40)));
}

#[test]
fn matching_characteristic_hides_its_descriptors() {
    let calls = Rc::new(Cell::new(0usize));
    let profile = profile_of(vec![characteristic(
        Some(5),
        constant(vec![1]),
        vec![descriptor(Some(5), counted(vec![2], &calls))],
    )]);
    let mut cache = FragmentCache::new();
    let found = profile.find(5);
    assert_eq!(found.len(), 1);
    assert_eq!(found[0].kind, AttributeKind::Characteristic);
    let responses = profile.on_read(&mut cache, read_at(5, 0));
    assert_eq!(responses.len(), 1);
    assert_eq!(payload(&responses[0]), vec![1u8]);
    assert_eq!(calls.get(), 0);
}

#[test]
fn characteristic_with_a_fixed_value_is_not_answered() {
    let calls = Rc::new(Cell::new(0usize));
    let profile: Profile<Callback> = profile_of(vec![Characteristic {
        attribute_handle: Some(5),
        control: AttributeControl::FixedResponse(vec![1, 2, 3]),
        descriptors: vec![descriptor(Some(5), counted(vec![2], &calls))],
    }]);
    let mut cache = FragmentCache::new();
    assert!(profile.find(5).is_empty());
    assert!(profile.on_read(&mut cache, read_at(5, 0)).is_empty());
    assert_eq!(calls.get(), 0);
    assert_eq!(cache.len(), 0);
}

#[test]
fn descriptor_with_a_fixed_value_is_not_answered() {
    let profile: Profile<Callback> = profile_of(vec![characteristic(
        Some(1),
        constant(vec![]),
        vec![
            Descriptor { attribute_handle: Some(2), control: AttributeControl::FixedResponse(vec![7]) },
            descriptor(Some(3), constant(vec![8])),
        ],
    )]);
    let mut cache = FragmentCache::new();
    assert!(profile.on_read(&mut cache, read_at(2, 0)).is_empty());
    assert_eq!(payload(&profile.on_read(&mut cache, read_at(3, 0))[0]), vec![8u8]);
}

#[test]
fn every_descriptor_of_another_characteristic_is_looked_at() {
    let profile = profile_of(vec![
        characteristic(
            Some(1),
            constant(vec![1]),
            vec![
                descriptor(Some(10), constant(vec![10])),
                descriptor(Some(11), constant(vec![11])),
                descriptor(Some(12), constant(vec![12])),
            ],
        ),
        characteristic(None, constant(vec![2]), vec![descriptor(Some(20), constant(vec![20]))]),
    ]);
    let mut cache = FragmentCache::new();
    for handle in [10u16, 11, 12, 20] {
        let found = profile.find(handle);
        assert_eq!(found.len(), 1);
        assert_eq!(found[0].kind, AttributeKind::Descriptor);
        let responses = profile.on_read(&mut cache, read_at(handle, 0));
        assert_eq!(responses.len(), 1);
        assert_eq!(payload(&responses[0]), vec![handle as u8]);
    }
}

#[test]
fn attributes_are_found_in_every_service() {
    let profile: Profile<Callback> = Profile {
        services: vec![
            Service { characteristics: vec![characteristic(Some(1), constant(vec![1]), vec![])] },
            Service { characteristics: vec![] },
            Service {
                characteristics: vec![
                    characteristic(Some(2), constant(vec![2]), vec![]),
                    characteristic(Some(3), constant(vec![3]), vec![descriptor(Some(4), constant(vec![4]))]),
                ],
            },
        ],
    };
    let mut cache = FragmentCache::new();
    for handle in [1u16, 2, 3, 4] {
        let responses = profile.on_read(&mut cache, read_at(handle, 0));
        assert_eq!(responses.len(), 1);
        assert_eq!(responses[0].handle, handle);
        assert_eq!(payload(&responses[0]), vec![handle as u8]);
    }
}

#[test]
fn attributes_that_share_a_handle_answer_in_tree_order() {
    let profile: Profile<Callback> = Profile {
        services: vec![
            Service {
                characteristics: vec![
                    characteristic(Some(1), constant(vec![1]), vec![descriptor(Some(9), constant(vec![10]))]),
                    characteristic(Some(9), constant(vec![20]), vec![descriptor(Some(9), constant(vec![21]))]),
                ],
            },
            Service {
                characteristics: vec![characteristic(
                    None,
                    constant(vec![3]),
                    vec![descriptor(Some(9), constant(vec![30])), descriptor(Some(9), constant(vec![31]))],
                )],
            },
        ],
    };
    let kinds: Vec<AttributeKind> = profile.find(9).iter().map(|target| target.kind).collect();
    assert_eq!(
        kinds,
        vec![
            AttributeKind::Descriptor,
            AttributeKind::Characteristic,
            AttributeKind::Descriptor,
            AttributeKind::Descriptor,
        ]
    );
    let mut cache = FragmentCache::new();
    let responses = profile.on_read(&mut cache, read_at(9, 0));
    let payloads: Vec<Vec<u8>> = responses.iter().map(payload).collect();
    assert_eq!(payloads, vec![vec![10u8], vec![20], vec![30], vec![31]]);
}

#[test]
fn find_hands_out_the_callbacks() {
    let profile = profile_of(vec![characteristic(
        Some(1),
        constant(vec![1, 1]),
        vec![descriptor(Some(2), constant(vec![2, 2, 2]))],
    )]);
    let found = profile.find(1);
    assert_eq!((found[0].callback)(read_at(1, 0)), vec![1u8, 1]);
    let found = profile.find(2);
    assert_eq!((found[0].callback)(read_at(2, 0)), vec![2u8, 2, 2]);
}

#[test]
fn parts_of_the_tree_can_be_searched_alone() {
    let lone = descriptor(Some(2), constant(vec![2]));
    let mut found = Vec::new();
    lone.find(3, &mut found);
    assert!(found.is_empty());
    lone.find(2, &mut found);
    assert_eq!(found.len(), 1);
    assert_eq!(found[0].kind, AttributeKind::Descriptor);

    let with_descriptor = characteristic(Some(1), constant(vec![1]), vec![descriptor(Some(2), constant(vec![2]))]);
    let mut found = Vec::new();
    with_descriptor.find(2, &mut found);
    with_descriptor.find(1, &mut found);
    with_descriptor.find(3, &mut found);
    let kinds: Vec<AttributeKind> = found.iter().map(|target| target.kind).collect();
    assert_eq!(kinds, vec![AttributeKind::Descriptor, AttributeKind::Characteristic]);

    let service = Service { characteristics: vec![with_descriptor] };
    let mut found = Vec::new();
    service.find(2, &mut found);
    assert_eq!(found.len(), 1);
}

#[test]
fn a_stale_entry_answers_the_continuation() {
    let fresh = numbered(50);
    let stale = vec![0xEE; 50];
    let profile = profile_of(vec![characteristic(Some(7), constant(fresh.clone()), vec![])]);
    let mut cache = FragmentCache::new();
    cache.store(7, &stale);
    let responses = profile.on_read(&mut cache, read_at(7, 0));
    assert_eq!(payload(&responses[0]), fresh[..23].to_vec());
    let responses = profile.on_read(&mut cache, read_at(7, 23));
    assert_eq!(payload(&responses[0]), stale[23..46].to_vec());
}
