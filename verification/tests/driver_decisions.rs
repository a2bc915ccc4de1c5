use ring_buffer::cursor::Region;
use ring_buffer::error::{Error, SysErr};
use ring_buffer::policy::{load_order, store_order, LoadOrder, StoreOrder};
use ring_buffer::shared::{RingBuf, RingBufSeq};
use ring_buffer::affinity::{
    driver_cores, pick_cores, pin_to_core, CONSUMER_CORE_SLOT, CORE_LIMIT, PRODUCER_CORE_SLOT,
};
use ring_buffer::transfer::{
    batch_due, batch_rest, chunk_len, consume_item, consume_rest, decode_item, encode_item,
    get_item, items_to_read, items_to_write, produce_item, produce_rest, put_item, Mismatch,
    ITEM_BYTES,
};

#[test]
fn items_are_encoded_least_significant_byte_first() {
    assert_eq!(encode_item(0), [0, 0, 0, 0, 0, 0, 0, 0]);
    assert_eq!(encode_item(1), [1, 0, 0, 0, 0, 0, 0, 0]);
    assert_eq!(
        encode_item(0x0102_0304_0506_0708),
        [0x08, 0x07, 0x06, 0x05, 0x04, 0x03, 0x02, 0x01]
    );
    assert_eq!(encode_item(u64::MAX), [0xff; 8]);
    assert_eq!(encode_item(0x1234_5678), 0x1234_5678u64.to_le_bytes());
}

#[test]
fn items_decode_to_what_was_encoded() {
    assert_eq!(decode_item(&[0x08, 0x07, 0x06, 0x05, 0x04, 0x03, 0x02, 0x01]), 0x0102_0304_0506_0708);
    assert_eq!(decode_item(&[0, 0, 0, 0, 0, 0, 0, 0x80]), 1 << 63);
    for value in [0u64, 1, 255, 256, 65_535, 16_777_215, 1 << 40, u64::MAX - 1, u64::MAX] {
        assert_eq!(decode_item(&encode_item(value)), value);
    }
}

#[test]
fn producer_plans_whole_items_that_fit_and_are_left() {
    assert_eq!(ITEM_BYTES, 8);
    // The region is the limit.
    assert_eq!(items_to_write(131072, 0, 1024 * 1024 * 128), 16384);
    assert_eq!(items_to_write(20, 0, 800), 2);
    assert_eq!(items_to_write(7, 0, 800), 0);
    // What is left to send is the limit.
    assert_eq!(items_to_write(131072, 1024 * 1024 * 128 - 24, 1024 * 1024 * 128), 3);
    assert_eq!(items_to_write(64, 800, 800), 0);
    assert_eq!(items_to_write(0, 0, 800), 0);
}

#[test]
fn consumer_takes_whole_items_only() {
    assert_eq!(items_to_read(0), 0);
    assert_eq!(items_to_read(7), 0);
    assert_eq!(items_to_read(8), 1);
    assert_eq!(items_to_read(131072), 16384);
    assert_eq!(items_to_read(23), 2);
}

#[test]
fn chunk_is_the_chunk_size_until_the_tail() {
    assert_eq!(chunk_len(100, 0, 30), 30);
    assert_eq!(chunk_len(100, 90, 30), 10);
    assert_eq!(chunk_len(100, 100, 30), 0);
    assert_eq!(chunk_len(1024 * 1024 * 8, 17, 1), 1);
    assert_eq!(chunk_len(100, 70, 30), 30);
}

#[test]
fn cores_are_picked_at_slots_twelve_and_fourteen() {
    assert_eq!(PRODUCER_CORE_SLOT, 12);
    assert_eq!(CONSUMER_CORE_SLOT, 14);
    let none: Vec<usize> = Vec::new();
    assert_eq!(pick_cores(&none), None);
    let fourteen: Vec<usize> = (0..14).collect();
    assert_eq!(pick_cores(&fourteen), None);
    let fifteen: Vec<usize> = (0..15).collect();
    assert_eq!(pick_cores(&fifteen), Some((12, 14)));
    // The list holds core numbers, which need not be the slots.
    let sparse: Vec<usize> = (0..32).map(|i| 2 * i + 1).collect();
    assert_eq!(pick_cores(&sparse), Some((25, 29)));
}

#[test]
fn driver_cores_are_two_different_cores_in_ascending_order() {
    // What comes back depends on the machine; with fewer than fifteen cores
    // there is nothing to pick.
    if let Some((producer, consumer)) = driver_cores() {
        assert!(producer < consumer);
    }
}

#[test]
fn pinning_refuses_a_core_beyond_the_mask() {
    assert_eq!(CORE_LIMIT, 1024);
    assert!(!pin_to_core(1024));
    assert!(!pin_to_core(usize::MAX));
}

#[test]
fn pinning_asks_the_system() {
    // Whether the system accepts is its own decision; the call returns.
    let _ = pin_to_core(0);
    let _ = pin_to_core(CORE_LIMIT - 1);
}

#[test]
fn batches_fall_due_after_every_batch_size_items() {
    let due: Vec<bool> = (0..7).map(|i| batch_due(i, 3)).collect();
    assert_eq!(due, [false, false, true, false, false, true, false]);
    assert!(batch_due(0, 1));
    assert!(batch_due(5, 1));
    assert!(!batch_due(16383, usize::MAX));
    assert_eq!(batch_rest(7, 3), 1);
    assert_eq!(batch_rest(6, 3), 0);
    assert_eq!(batch_rest(16384, 1), 0);
    assert_eq!(batch_rest(16384, usize::MAX), 16384);
}

#[test]
fn due_batches_and_the_rest_commit_the_whole_run() {
    for batch in 1usize..=9 {
        for count in 0usize..=40 {
            let mut committed = 0;
            for i in 0..count {
                if batch_due(i, batch) {
                    committed += batch;
                }
                assert!(committed <= i + 1);
            }
            committed += batch_rest(count, batch);
            assert_eq!(committed, count);
        }
    }
}

#[test]
fn policy_of_the_two_instantiations() {
    assert_eq!(load_order(false), LoadOrder::Acquire);
    assert_eq!(store_order(false), StoreOrder::Release);
    assert_eq!(load_order(true), LoadOrder::SeqCst);
    assert_eq!(store_order(true), StoreOrder::SeqCst);
    let relaxed = RingBuf::new(8);
    let strict = RingBufSeq::new(8);
    assert!(!relaxed.is_strict());
    assert!(strict.is_strict());
    assert_eq!(relaxed.load_order(), LoadOrder::Acquire);
    assert_eq!(relaxed.store_order(), StoreOrder::Release);
    assert_eq!(strict.load_order(), LoadOrder::SeqCst);
    assert_eq!(strict.store_order(), StoreOrder::SeqCst);
}

#[test]
fn invalid_argument_has_its_posix_number() {
    assert_eq!(SysErr::EINVAL.code(), 22);
    assert_eq!(Error::SysError(SysErr::EINVAL), Error::SysError(SysErr::EINVAL));
}

#[test]
fn item_put_into_the_ring_is_got_back() {
    let ring = RingBuf::new(64);
    put_item(&ring, 16, 0xdead_beef_0123_4567);
    assert_eq!(get_item(&ring, 16), 0xdead_beef_0123_4567);
    assert_eq!(ring.get(16), 0x67);
    assert_eq!(ring.get(23), 0xde);
    put_item(&ring, 56, 5);
    assert_eq!(get_item(&ring, 56), 5);
    assert_eq!(get_item(&ring, 16), 0xdead_beef_0123_4567);
}

#[test]
fn producer_steps_commit_in_batches() {
    let ring = RingBufSeq::new(64);
    let region = ring.get_space_buf();
    assert_eq!(region, Region { offset: 0, len: 64 });
    // Batch of three: the first due commit publishes into an empty ring.
    assert!(!produce_item(&ring, region, 0, 100, 3));
    assert!(!produce_item(&ring, region, 1, 101, 3));
    assert_eq!(ring.observe().write, 0);
    assert!(produce_item(&ring, region, 2, 102, 3));
    assert_eq!(ring.observe().write, 24);
    assert!(!produce_item(&ring, region, 3, 103, 3));
    assert!(!produce_item(&ring, region, 4, 104, 3));
    assert_eq!(ring.observe().write, 24);
    assert!(!produce_rest(&ring, 5, 3));
    assert_eq!(ring.observe().write, 40);
    assert!(!produce_rest(&ring, 6, 3));
    assert_eq!(ring.observe().write, 40);
}

#[test]
fn consumer_steps_check_and_release_in_batches() {
    let ring = RingBuf::new(32);
    let space = ring.get_space_buf();
    for i in 0..4 {
        produce_item(&ring, space, i, 7 + i as u64, 1);
    }
    assert_eq!(ring.get_space_buf().len, 0);
    let data = ring.get_data_buf();
    assert_eq!(data, Region { offset: 0, len: 32 });
    assert_eq!(consume_item(&ring, data, 0, 7, 2), Ok(false));
    assert_eq!(ring.observe().read, 0);
    // The due batch releases two items of a full ring.
    assert_eq!(consume_item(&ring, data, 1, 8, 2), Ok(true));
    assert_eq!(ring.observe().read, 16);
    assert_eq!(consume_item(&ring, data, 2, 9, 2), Ok(false));
    assert!(!consume_rest(&ring, 3, 2));
    assert_eq!(ring.observe().read, 24);
    assert!(!consume_rest(&ring, 4, 2));
    assert_eq!(ring.observe().read, 24);
}

#[test]
fn consumer_step_reports_an_unexpected_item() {
    let ring = RingBuf::new(32);
    let space = ring.get_space_buf();
    produce_item(&ring, space, 0, 41, 1);
    let data = ring.get_data_buf();
    assert_eq!(
        consume_item(&ring, data, 0, 42, 1),
        Err(Mismatch { expected: 42, found: 41 })
    );
    // Nothing was released.
    assert_eq!(ring.observe().read, 0);
    assert_eq!(consume_item(&ring, data, 0, 41, 1), Ok(false));
    assert_eq!(ring.observe().read, 8);
}
