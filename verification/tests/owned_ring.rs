use ring_buffer::cursor::{Cursors, Region};
use ring_buffer::ring::RingBuffer;
use ring_buffer::transfer::{
    decode_item, drain_items, encode_item, fill_items, items_to_read, items_to_write, Mismatch,
};

#[test]
fn new_ring_has_nothing_in_flight() {
    let ring = RingBuffer::new(16);
    assert_eq!(ring.capacity(), 16);
    assert_eq!(ring.len(), 0);
    assert_eq!(ring.snapshot(), Cursors { capacity: 16, write: 0, read: 0 });
    assert_eq!(ring.get_space_buf(), Region { offset: 0, len: 16 });
    assert_eq!(ring.get_data_buf(), Region { offset: 0, len: 0 });
}

#[test]
fn write_then_read_gives_the_bytes_back_in_order() {
    let mut ring = RingBuffer::new(8);
    assert_eq!(ring.write(&[10, 20, 30]), (true, 3));
    assert_eq!(ring.len(), 3);
    assert_eq!(ring.write(&[40, 50]), (false, 2));
    let mut out = [0u8; 4];
    assert_eq!(ring.read(&mut out), (false, 4));
    assert_eq!(out, [10, 20, 30, 40]);
    let mut out = [7u8; 4];
    assert_eq!(ring.read(&mut out), (false, 1));
    assert_eq!(out, [50, 7, 7, 7]);
    assert_eq!(ring.read(&mut out), (false, 0));
    assert_eq!(out, [50, 7, 7, 7]);
}

#[test]
fn write_to_a_full_ring_takes_nothing() {
    let mut ring = RingBuffer::new(4);
    assert_eq!(ring.write(&[1, 2, 3, 4]), (true, 4));
    assert_eq!(ring.write(&[5]), (false, 0));
    assert_eq!(ring.len(), 4);
    let mut out = [0u8; 1];
    assert_eq!(ring.read(&mut out), (true, 1));
    assert_eq!(out, [1]);
    assert_eq!(ring.write(&[5]), (false, 1));
}

#[test]
fn empty_requests_transfer_nothing_and_wake_nobody() {
    let mut ring = RingBuffer::new(4);
    assert_eq!(ring.write(&[]), (false, 0));
    let mut none: [u8; 0] = [];
    assert_eq!(ring.read(&mut none), (false, 0));
    ring.write(&[1, 2, 3, 4]);
    assert_eq!(ring.read(&mut none), (false, 0));
    assert_eq!(ring.len(), 4);
}

#[test]
fn long_write_is_cut_at_the_region_and_finishes_after_a_read() {
    let mut ring = RingBuffer::new(8);
    let message: [u8; 12] = [1, 2, 3, 4, 5, 6, 7, 8, 9, 10, 11, 12];
    let (woke, first) = ring.write(&message);
    assert!(woke);
    assert_eq!(first, 8);
    assert!(first < message.len());
    // No space until the consumer releases some.
    assert_eq!(ring.write(&message[first..]), (false, 0));
    let mut out = [0u8; 12];
    let (woke, got) = ring.read(&mut out[..5]);
    assert!(woke);
    assert_eq!(got, 5);
    let (_, second) = ring.write(&message[first..]);
    assert_eq!(second, 4);
    assert_eq!(first + second, message.len());
    let (_, got2) = ring.read(&mut out[5..]);
    assert_eq!(got2, 3);
    let (_, got3) = ring.read(&mut out[8..]);
    assert_eq!(got3, 4);
    assert_eq!(out, message);
    assert_eq!(ring.len(), 0);
}

#[test]
fn write_is_cut_at_the_end_of_storage_even_with_free_bytes_beyond() {
    let mut ring = RingBuffer::new(8);
    ring.write(&[0; 6]);
    let mut out = [0u8; 6];
    ring.read(&mut out);
    // Empty, write position 6: two bytes to the end, six more after the wrap.
    assert_eq!(ring.get_space_buf(), Region { offset: 6, len: 2 });
    assert_eq!(ring.write(&[1, 2, 3, 4, 5]), (true, 2));
    assert_eq!(ring.get_space_buf(), Region { offset: 0, len: 6 });
    assert_eq!(ring.write(&[3, 4, 5]), (false, 3));
    let mut out = [0u8; 8];
    assert_eq!(ring.read(&mut out), (false, 2));
    assert_eq!(ring.read(&mut out[2..]), (false, 3));
    assert_eq!(&out[..5], &[1, 2, 3, 4, 5]);
}

#[test]
fn zero_copy_put_is_not_visible_until_produced() {
    let mut ring = RingBuffer::new(8);
    let space = ring.get_space_buf();
    ring.put(space.offset, 0xaa);
    ring.put(space.offset + 1, 0xbb);
    ring.put(space.offset + 2, 0xcc);
    assert_eq!(ring.len(), 0);
    assert_eq!(ring.get_data_buf().len, 0);
    assert!(ring.produce(2));
    assert_eq!(ring.len(), 2);
    let data = ring.get_data_buf();
    assert_eq!(data, Region { offset: 0, len: 2 });
    assert_eq!(ring.get(data.offset), 0xaa);
    assert_eq!(ring.get(data.offset + 1), 0xbb);
    // The third byte is still staged at the front of the space region.
    assert_eq!(ring.get_space_buf(), Region { offset: 2, len: 6 });
    assert!(!ring.produce(1));
    assert_eq!(ring.get(2), 0xcc);
    assert!(!ring.consume(3));
    assert_eq!(ring.len(), 0);
}

#[test]
fn one_region_may_be_committed_in_several_batches() {
    let mut ring = RingBuffer::new(16);
    let space = ring.get_space_buf();
    for i in 0..12 {
        ring.put(space.offset + i, i as u8 + 1);
    }
    assert!(ring.produce(4));
    assert!(!ring.produce(4));
    assert!(!ring.produce(4));
    assert_eq!(ring.snapshot(), Cursors { capacity: 16, write: 12, read: 0 });
    let data = ring.get_data_buf();
    assert_eq!(data.len, 12);
    for i in 0..12 {
        assert_eq!(ring.get(data.offset + i), i as u8 + 1);
    }
    assert!(!ring.consume(5));
    assert!(!ring.consume(7));
    assert_eq!(ring.len(), 0);
}

#[test]
fn put_leaves_bytes_in_flight_alone() {
    let mut ring = RingBuffer::new(4);
    ring.write(&[1, 2, 3]);
    let mut out = [0u8; 2];
    ring.read(&mut out);
    // One byte in flight at position 2; space is position 3 only.
    assert_eq!(ring.get_space_buf(), Region { offset: 3, len: 1 });
    ring.put(3, 9);
    assert_eq!(ring.get(2), 3);
    ring.produce(1);
    assert_eq!(ring.get_space_buf(), Region { offset: 0, len: 2 });
    ring.put(0, 8);
    ring.put(1, 7);
    ring.produce(2);
    let mut out = [0u8; 4];
    assert_eq!(ring.read(&mut out), (true, 2));
    assert_eq!(ring.read(&mut out[2..]), (false, 2));
    assert_eq!(out, [3, 9, 8, 7]);
}

#[test]
fn produce_and_consume_report_the_boundary_crossings() {
    let mut ring = RingBuffer::new(3);
    assert!(!ring.produce(0));
    assert!(ring.produce(1));
    assert!(!ring.produce(2));
    // Full.
    assert!(!ring.produce(0));
    assert!(!ring.consume(0));
    assert!(ring.consume(1));
    assert!(!ring.consume(1));
    // One byte in flight at position 2; filling up again.
    assert!(!ring.produce(2));
    assert!(ring.consume(1));
    assert!(!ring.consume(2));
    // Empty.
    assert!(!ring.consume(0));
    assert!(!ring.produce(0));
    assert!(ring.produce(1));
}

#[test]
fn increasing_sequence_comes_out_intact_through_a_small_ring() {
    // Capacity deliberately not a multiple of the item width, so that items
    // straddle the end of storage and transfers are cut short.
    let mut ring = RingBuffer::new(29);
    let items: u64 = 20_000;
    let mut sent: u64 = 0;
    let mut pending: Vec<u8> = Vec::new();
    let mut received: Vec<u8> = Vec::new();
    let mut next_expected: u64 = 0;
    let mut round: usize = 0;
    while next_expected < items {
        // The producer tops up its pending bytes and hands them in.
        while pending.len() < 24 && sent < items {
            pending.extend_from_slice(&encode_item(sent));
            sent += 1;
        }
        let (_, written) = ring.write(&pending);
        pending.drain(..written);
        // The consumer takes a varying number of bytes.
        let mut buf = vec![0u8; 1 + round % 13];
        let (_, read) = ring.read(&mut buf);
        received.extend_from_slice(&buf[..read]);
        while received.len() >= 8 {
            let mut item = [0u8; 8];
            item.copy_from_slice(&received[..8]);
            assert_eq!(decode_item(&item), next_expected);
            next_expected += 1;
            received.drain(..8);
        }
        let c = ring.snapshot();
        assert!(c.read <= c.write && c.write - c.read <= 29);
        round += 1;
    }
    assert_eq!(sent, items);
    assert!(pending.is_empty());
    assert!(received.is_empty());
    assert_eq!(ring.len(), 0);
    assert_eq!(ring.snapshot().write, items * 8);
}

#[test]
fn increasing_sequence_through_the_zero_copy_interface() {
    let mut ring = RingBuffer::new(131072);
    // 16,777,216 items of eight bytes: 128 MiB through 128 KiB.
    let total_items: u64 = 1 << 24;
    let mut produced: u64 = 0;
    let mut consumed: u64 = 0;
    while consumed < total_items {
        let space = ring.get_space_buf();
        let room = (space.len / 8) as u64;
        let count = room.min(total_items - produced);
        for i in 0..count {
            let bytes = encode_item(produced + i);
            for k in 0..8 {
                ring.put(space.offset + (i as usize) * 8 + k, bytes[k]);
            }
        }
        ring.produce(count as usize * 8);
        produced += count;
        let data = ring.get_data_buf();
        // Leave part of the data in flight so that the regions move around.
        let take = (data.len / 8) * 3 / 4 + 1;
        let take = take.min(data.len / 8);
        for i in 0..take {
            let mut bytes = [0u8; 8];
            for k in 0..8 {
                bytes[k] = ring.get(data.offset + i * 8 + k);
            }
            assert_eq!(decode_item(&bytes), consumed + i as u64);
        }
        ring.consume(take * 8);
        consumed += take as u64;
    }
    assert_eq!(produced, total_items);
    assert_eq!(ring.len(), 0);
}

#[test]
fn increasing_sequence_through_the_copying_interface() {
    let mut ring = RingBuffer::new(131072);
    let total_items: u64 = 1 << 24;
    let chunk_items: u64 = 1 << 12;
    let mut chunk: Vec<u8> = Vec::new();
    let mut chunk_sent: usize = 0;
    let mut next_item: u64 = 0;
    let mut expected: u64 = 0;
    let mut carry: Vec<u8> = Vec::new();
    let mut buf = vec![0u8; 24_000];
    while expected < total_items {
        if chunk_sent == chunk.len() && next_item < total_items {
            chunk.clear();
            for value in next_item..next_item + chunk_items {
                chunk.extend_from_slice(&encode_item(value));
            }
            next_item += chunk_items;
            chunk_sent = 0;
        }
        let (_, written) = ring.write(&chunk[chunk_sent..]);
        chunk_sent += written;
        let (_, read) = ring.read(&mut buf);
        carry.extend_from_slice(&buf[..read]);
        let whole = carry.len() / 8 * 8;
        for bytes in carry[..whole].chunks_exact(8) {
            let mut item = [0u8; 8];
            item.copy_from_slice(bytes);
            assert_eq!(decode_item(&item), expected);
            expected += 1;
        }
        carry.drain(..whole);
    }
    assert_eq!(next_item, total_items);
    assert!(carry.is_empty());
    assert_eq!(ring.len(), 0);
    assert_eq!(ring.snapshot().write, total_items * 8);
    assert_eq!(ring.snapshot().read, total_items * 8);
}

#[test]
fn filled_items_are_in_flight_least_significant_byte_first() {
    let mut ring = RingBuffer::new(32);
    assert!(fill_items(&mut ring, 0x0102, 2));
    assert_eq!(ring.len(), 16);
    let mut out = [0u8; 16];
    assert_eq!(ring.read(&mut out), (false, 16));
    assert_eq!(out, [2, 1, 0, 0, 0, 0, 0, 0, 3, 1, 0, 0, 0, 0, 0, 0]);
}

#[test]
fn drained_items_must_be_the_expected_run() {
    let mut ring = RingBuffer::new(64);
    assert!(fill_items(&mut ring, 10, 5));
    assert!(!fill_items(&mut ring, 15, 0));
    assert_eq!(drain_items(&mut ring, 10, 2), Ok(false));
    assert_eq!(ring.len(), 24);
    // The next item in flight is 12.
    assert_eq!(drain_items(&mut ring, 13, 1), Err(Mismatch { expected: 13, found: 12 }));
    assert_eq!(ring.len(), 24);
    // Item 12 is as expected, item 13 is not 20.
    assert_eq!(drain_items(&mut ring, 12, 0), Ok(false));
    assert_eq!(drain_items(&mut ring, 12, 3), Ok(false));
    assert_eq!(ring.len(), 0);
    // Draining from a full ring wakes.
    let mut small = RingBuffer::new(24);
    assert!(fill_items(&mut small, 15, 3));
    assert_eq!(small.get_space_buf().len, 0);
    assert_eq!(drain_items(&mut small, 15, 1), Ok(true));
    assert_eq!(drain_items(&mut small, 16, 2), Ok(false));
}

#[test]
fn drain_reports_the_first_item_that_is_out_of_sequence() {
    let mut ring = RingBuffer::new(64);
    fill_items(&mut ring, 0, 3);
    // A stray item where 3 should be.
    ring.write(&encode_item(77));
    fill_items(&mut ring, 4, 2);
    let before = ring.snapshot();
    assert_eq!(drain_items(&mut ring, 0, 6), Err(Mismatch { expected: 3, found: 77 }));
    assert_eq!(ring.snapshot(), before);
    assert_eq!(drain_items(&mut ring, 0, 3), Ok(false));
    assert_eq!(drain_items(&mut ring, 77, 1), Ok(false));
    assert_eq!(drain_items(&mut ring, 4, 2), Ok(false));
    assert_eq!(ring.len(), 0);
}

#[test]
fn conformance_run_on_an_owned_ring() {
    let capacity = 131072;
    let total_bytes = 1 << 25;
    let mut ring = RingBuffer::new(capacity);
    let mut produced = 0;
    let mut consumed = 0;
    let mut turn = 0;
    while consumed < total_bytes {
        let space = ring.get_space_buf();
        let count = items_to_write(space.len, produced, total_bytes);
        // On some turns the producer sends less than it could.
        let count = if turn % 3 == 0 { count / 2 } else { count };
        fill_items(&mut ring, (produced / 8) as u64, count);
        produced += count * 8;
        let data = ring.get_data_buf();
        let count = items_to_read(data.len);
        let count = if turn % 5 == 0 { count / 3 } else { count };
        assert!(drain_items(&mut ring, (consumed / 8) as u64, count).is_ok());
        consumed += count * 8;
        turn += 1;
    }
    assert_eq!(produced, total_bytes);
    assert_eq!(ring.len(), 0);
}
