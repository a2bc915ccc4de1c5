//! The decisions of a driver that streams fixed-width items through a ring.
//!
//! A driver runs two loops, one per thread. The producer asks for the space
//! region, lays as many whole items into it as it still has to send, and
//! commits them in batches; the consumer asks for the data region, checks the
//! items it finds against the sequence it expects, and releases them in
//! batches. Threads, parking and clocks are the driver's own business. What it
//! decides from the values it holds is decided here.
use vstd::prelude::*;
use crate::cursor::Region;
use crate::ring::RingBuffer;
use crate::shared::SharedRing;

verus! {

/// The width of one item in bytes.
pub const ITEM_BYTES: usize = 8;

/// The eight bytes of an item, least significant first.
pub open spec fn item_bytes(value: u64) -> Seq<u8> {
    seq![
        (value & 0xff) as u8,
        ((value >> 8) & 0xff) as u8,
        ((value >> 16) & 0xff) as u8,
        ((value >> 24) & 0xff) as u8,
        ((value >> 32) & 0xff) as u8,
        ((value >> 40) & 0xff) as u8,
        ((value >> 48) & 0xff) as u8,
        ((value >> 56) & 0xff) as u8,
    ]
}

/// The item that eight bytes spell, least significant first.
pub open spec fn item_value(bytes: Seq<u8>) -> u64 {
    (bytes[0] as u64) | (bytes[1] as u64) << 8 | (bytes[2] as u64) << 16 | (bytes[3] as u64) << 24
        | (bytes[4] as u64) << 32 | (bytes[5] as u64) << 40 | (bytes[6] as u64) << 48 | (
    bytes[7] as u64) << 56
}

/// An item read back from its bytes is the item that was written.
pub proof fn lemma_item_round_trip(value: u64)
    ensures
        item_bytes(value).len() == 8,
        item_value(item_bytes(value)) == value,
{
    let b0 = (value & 0xff) as u8;
    let b1 = ((value >> 8) & 0xff) as u8;
    let b2 = ((value >> 16) & 0xff) as u8;
    let b3 = ((value >> 24) & 0xff) as u8;
    let b4 = ((value >> 32) & 0xff) as u8;
    let b5 = ((value >> 40) & 0xff) as u8;
    let b6 = ((value >> 48) & 0xff) as u8;
    let b7 = ((value >> 56) & 0xff) as u8;
    assert((b0 as u64) | (b1 as u64) << 8 | (b2 as u64) << 16 | (b3 as u64) << 24 | (b4 as u64)
        << 32 | (b5 as u64) << 40 | (b6 as u64) << 48 | (b7 as u64) << 56 == value)
        by (bit_vector)
        requires
            b0 == (value & 0xff) as u8,
            b1 == ((value >> 8) & 0xff) as u8,
            b2 == ((value >> 16) & 0xff) as u8,
            b3 == ((value >> 24) & 0xff) as u8,
            b4 == ((value >> 32) & 0xff) as u8,
            b5 == ((value >> 40) & 0xff) as u8,
            b6 == ((value >> 48) & 0xff) as u8,
            b7 == ((value >> 56) & 0xff) as u8,
    ;
}

/// The bytes of an item, least significant first.
pub fn encode_item(value: u64) -> (bytes: [u8; 8])
    ensures
        bytes@ == item_bytes(value),
{
    let bytes: [u8; 8] = [
        (value & 0xff) as u8,
        ((value >> 8) & 0xff) as u8,
        ((value >> 16) & 0xff) as u8,
        ((value >> 24) & 0xff) as u8,
        ((value >> 32) & 0xff) as u8,
        ((value >> 40) & 0xff) as u8,
        ((value >> 48) & 0xff) as u8,
        ((value >> 56) & 0xff) as u8,
    ];
    assert(bytes@ =~= item_bytes(value));
    bytes
}

/// The item that eight bytes spell, least significant first.
pub fn decode_item(bytes: &[u8; 8]) -> (value: u64)
    ensures
        value == item_value(bytes@),
{
    (bytes[0] as u64) | (bytes[1] as u64) << 8 | (bytes[2] as u64) << 16 | (bytes[3] as u64) << 24
        | (bytes[4] as u64) << 32 | (bytes[5] as u64) << 40 | (bytes[6] as u64) << 48 | (
    bytes[7] as u64) << 56
}

/// Eight bytes spell one item only: writing out the item they spell gives the
/// same bytes.
pub proof fn lemma_bytes_round_trip(bytes: Seq<u8>)
    requires
        bytes.len() == 8,
    ensures
        item_bytes(item_value(bytes)) == bytes,
{
    let b0 = bytes[0];
    let b1 = bytes[1];
    let b2 = bytes[2];
    let b3 = bytes[3];
    let b4 = bytes[4];
    let b5 = bytes[5];
    let b6 = bytes[6];
    let b7 = bytes[7];
    let value = item_value(bytes);
    assert((value & 0xff) as u8 == b0 && ((value >> 8) & 0xff) as u8 == b1 && ((value >> 16)
        & 0xff) as u8 == b2 && ((value >> 24) & 0xff) as u8 == b3 && ((value >> 32) & 0xff) as u8
        == b4 && ((value >> 40) & 0xff) as u8 == b5 && ((value >> 48) & 0xff) as u8 == b6 && ((
    value >> 56) & 0xff) as u8 == b7) by (bit_vector)
        requires
            value == (b0 as u64) | (b1 as u64) << 8 | (b2 as u64) << 16 | (b3 as u64) << 24 | (
            b4 as u64) << 32 | (b5 as u64) << 40 | (b6 as u64) << 48 | (b7 as u64) << 56,
    ;
    assert(item_bytes(value) =~= bytes);
}

/// The bytes of the `count` items `first`, `first + 1`, and so on, in order.
pub open spec fn item_stream(first: u64, count: nat) -> Seq<u8>
    decreases count,
{
    if count == 0 {
        Seq::empty()
    } else {
        item_stream(first, (count - 1) as nat) + item_bytes((first + count - 1) as u64)
    }
}

/// A stream of `count` items has eight bytes for each, and the bytes of its
/// item `k` spell `first + k`.
pub proof fn lemma_stream_holds_the_items(first: u64, count: nat, k: int)
    requires
        0 <= k < count,
        first + count - 1 <= u64::MAX,
    ensures
        item_stream(first, count).len() == 8 * count,
        item_stream(first, count).subrange(8 * k, 8 * k + 8) == item_bytes((first + k) as u64),
        item_value(item_stream(first, count).subrange(8 * k, 8 * k + 8)) == first + k,
    decreases count,
{
    lemma_stream_len(first, count);
    lemma_stream_len(first, (count - 1) as nat);
    let last = item_bytes((first + count - 1) as u64);
    let front = item_stream(first, (count - 1) as nat);
    if k == count - 1 {
        assert((front + last).subrange(8 * k, 8 * k + 8) =~= last);
    } else {
        lemma_stream_holds_the_items(first, (count - 1) as nat, k);
        assert((front + last).subrange(8 * k, 8 * k + 8) =~= front.subrange(8 * k, 8 * k + 8));
    }
    lemma_item_round_trip((first + k) as u64);
}

/// Streams join: the first `n` items followed by the next `m` are the first
/// `n + m`. A ring that holds a run of the sequence and is filled with the
/// items that follow holds a longer run; what is left after a run is drained
/// from its front is the run of the items that follow.
pub proof fn lemma_streams_join(first: u64, n: nat, m: nat)
    requires
        first + n + m <= u64::MAX,
    ensures
        item_stream(first, n) + item_stream((first + n) as u64, m) == item_stream(first, n + m),
        item_stream(first, n + m).subrange(0, 8 * n as int) == item_stream(first, n),
        item_stream(first, n + m).subrange(8 * n as int, 8 * (n + m) as int) == item_stream(
            (first + n) as u64,
            m,
        ),
    decreases m,
{
    let next = (first + n) as u64;
    lemma_stream_len(first, n);
    lemma_stream_len(next, m);
    if m == 0 {
        assert(item_stream(first, n) + item_stream(next, 0) =~= item_stream(first, n));
    } else {
        lemma_streams_join(first, n, (m - 1) as nat);
        let last = item_bytes((first + n + m - 1) as u64);
        assert(item_stream(first, n + m) == item_stream(first, (n + m - 1) as nat) + last);
        assert(item_stream(next, m) == item_stream(next, (m - 1) as nat) + last);
        assert(item_stream(first, n) + (item_stream(next, (m - 1) as nat) + last) =~= (item_stream(
            first,
            n,
        ) + item_stream(next, (m - 1) as nat)) + last);
    }
    let joined = item_stream(first, n) + item_stream(next, m);
    assert(joined.subrange(0, 8 * n as int) =~= item_stream(first, n));
    assert(joined.subrange(8 * n as int, 8 * (n + m) as int) =~= item_stream(next, m));
}

/// A stream of `count` items has eight bytes for each.
pub proof fn lemma_stream_len(first: u64, count: nat)
    ensures
        item_stream(first, count).len() == 8 * count,
    decreases count,
{
    if count > 0 {
        lemma_stream_len(first, (count - 1) as nat);
    }
}

/// How many whole items the producer lays into a space region of `len` bytes
/// when it has sent `produced` of `total_bytes` bytes: as many as the region
/// holds, or as many as are left to send.
pub open spec fn planned_items(len: int, produced: int, total_bytes: int) -> int {
    if len / 8 <= total_bytes / 8 - produced / 8 {
        len / 8
    } else {
        total_bytes / 8 - produced / 8
    }
}

/// How many whole items the producer lays into a space region of `len` bytes
/// when it has sent `produced` of `total_bytes` bytes.
pub fn items_to_write(len: usize, produced: usize, total_bytes: usize) -> (count: usize)
    requires
        produced <= total_bytes,
    ensures
        count == planned_items(len as int, produced as int, total_bytes as int),
        count * ITEM_BYTES <= len,
        produced % ITEM_BYTES == 0 ==> produced + count * ITEM_BYTES <= total_bytes,
{
    let room: usize = len / ITEM_BYTES;
    let left: usize = total_bytes / ITEM_BYTES - produced / ITEM_BYTES;
    if room <= left {
        room
    } else {
        left
    }
}

/// How many whole items a data region of `len` bytes holds.
pub fn items_to_read(len: usize) -> (count: usize)
    ensures
        count == len / ITEM_BYTES,
        count * ITEM_BYTES <= len,
{
    len / ITEM_BYTES
}

/// How many bytes the next copying transfer asks for when `done` of
/// `total_bytes` bytes are through and a transfer moves at most `chunk_size`.
pub fn chunk_len(total_bytes: usize, done: usize, chunk_size: usize) -> (len: usize)
    requires
        done <= total_bytes,
    ensures
        len == if total_bytes - done < chunk_size {
            total_bytes - done
        } else {
            chunk_size as int
        },
{
    let remaining: usize = total_bytes - done;
    if remaining < chunk_size {
        remaining
    } else {
        chunk_size
    }
}

/// Whether a commit falls due once the item at `index` of a run is done: after
/// every `batch_size` items.
pub open spec fn batch_due_at(index: int, batch_size: int) -> bool {
    (index + 1) % batch_size == 0
}

/// How many of the first `done` items of a run the due batches have committed.
pub open spec fn committed_items(done: int, batch_size: int) -> int {
    (done / batch_size) * batch_size
}

/// Whether a commit falls due once the item at `index` of a run is done.
pub fn batch_due(index: usize, batch_size: usize) -> (due: bool)
    requires
        batch_size > 0,
        index < usize::MAX,
    ensures
        due == batch_due_at(index as int, batch_size as int),
{
    (index + 1) % batch_size == 0
}

/// How many items at the end of a run of `count` are left to the closing
/// commit.
pub fn batch_rest(count: usize, batch_size: usize) -> (rest: usize)
    requires
        batch_size > 0,
    ensures
        rest == count % batch_size,
        rest == count - committed_items(count as int, batch_size as int),
{
    proof {
        lemma_batches_cover_the_run(count as int, batch_size as int);
    }
    count % batch_size
}

/// The due batches never run ahead of the items done. A due batch commits
/// `batch_size` items and brings the commits level with the items done; a
/// step on which none is due commits nothing.
pub proof fn lemma_batches_follow_the_run(index: int, batch_size: int)
    requires
        0 <= index,
        0 < batch_size,
    ensures
        0 <= committed_items(index, batch_size) <= index,
        batch_due_at(index, batch_size) ==> batch_size <= index + 1 && committed_items(
            index + 1,
            batch_size,
        ) == committed_items(index, batch_size) + batch_size && committed_items(
            index + 1,
            batch_size,
        ) == index + 1,
        !batch_due_at(index, batch_size) ==> committed_items(index + 1, batch_size)
            == committed_items(index, batch_size),
{
    let q = index / batch_size;
    let r = index % batch_size;
    vstd::arithmetic::div_mod::lemma_fundamental_div_mod(index, batch_size);
    vstd::arithmetic::div_mod::lemma_mod_bound(index, batch_size);
    assert(index == q * batch_size + r) by (nonlinear_arith)
        requires
            index == batch_size * q + r,
    ;
    assert(0 <= q * batch_size) by (nonlinear_arith)
        requires
            0 <= index,
            0 < batch_size,
            q == index / batch_size,
    ;
    if r + 1 == batch_size {
        assert(index + 1 == (q + 1) * batch_size + 0) by (nonlinear_arith)
            requires
                index == q * batch_size + r,
                r + 1 == batch_size,
        ;
        vstd::arithmetic::div_mod::lemma_fundamental_div_mod_converse(
            index + 1,
            batch_size,
            q + 1,
            0,
        );
        assert((q + 1) * batch_size == q * batch_size + batch_size) by (nonlinear_arith);
        assert(batch_size <= index + 1) by (nonlinear_arith)
            requires
                index + 1 == (q + 1) * batch_size,
                0 <= q * batch_size,
                (q + 1) * batch_size == q * batch_size + batch_size,
        ;
    } else {
        vstd::arithmetic::div_mod::lemma_fundamental_div_mod_converse(
            index + 1,
            batch_size,
            q,
            r + 1,
        );
    }
}

/// The due batches and the closing commit together commit the whole run.
pub proof fn lemma_batches_cover_the_run(count: int, batch_size: int)
    requires
        0 <= count,
        0 < batch_size,
    ensures
        committed_items(count, batch_size) + count % batch_size == count,
        0 <= count % batch_size < batch_size,
{
    vstd::arithmetic::div_mod::lemma_fundamental_div_mod(count, batch_size);
    vstd::arithmetic::div_mod::lemma_mod_bound(count, batch_size);
    assert((count / batch_size) * batch_size == batch_size * (count / batch_size))
        by (nonlinear_arith);
}

/// An item that did not hold the value the consumer expected.
#[derive(Clone, Copy, Debug, PartialEq, Eq, Structural)]
pub struct Mismatch {
    /// The value the sequence has at this place.
    pub expected: u64,
    /// The value that was read.
    pub found: u64,
}

/// Lays the bytes of `value` into the ring from physical offset `at` on.
pub fn put_item<const STRICT: bool>(ring: &SharedRing<STRICT>, at: usize, value: u64)
    requires
        at + ITEM_BYTES <= ring.spec_capacity(),
{
    let bytes = encode_item(value);
    let mut k: usize = 0;
    while k < ITEM_BYTES
        invariant
            k <= ITEM_BYTES,
            at + ITEM_BYTES <= ring.spec_capacity(),
        decreases ITEM_BYTES - k,
    {
        ring.put(at + k, bytes[k]);
        k = k + 1;
    }
}

/// The item whose bytes lie in the ring from physical offset `at` on.
pub fn get_item<const STRICT: bool>(ring: &SharedRing<STRICT>, at: usize) -> (value: u64)
    requires
        at + ITEM_BYTES <= ring.spec_capacity(),
{
    let mut bytes: [u8; 8] = [0, 0, 0, 0, 0, 0, 0, 0];
    let mut k: usize = 0;
    while k < ITEM_BYTES
        invariant
            k <= ITEM_BYTES,
            at + ITEM_BYTES <= ring.spec_capacity(),
        decreases ITEM_BYTES - k,
    {
        bytes[k] = ring.get(at + k);
        k = k + 1;
    }
    decode_item(&bytes)
}

/// The producer's step for the item at `index` of a run laid into `region`:
/// lays `value` into its place and, when a batch falls due, commits the batch.
/// Returns the wake signal of that commit, `false` where none was due.
pub fn produce_item<const STRICT: bool>(
    ring: &SharedRing<STRICT>,
    region: Region,
    index: usize,
    value: u64,
    batch_size: usize,
) -> (woke: bool)
    requires
        region.within(ring.spec_capacity() as int),
        (index + 1) * ITEM_BYTES <= region.len,
        batch_size > 0,
    ensures
        woke ==> batch_due_at(index as int, batch_size as int),
{
    put_item(ring, region.offset + index * ITEM_BYTES, value);
    if batch_due(index, batch_size) {
        proof {
            lemma_batches_follow_the_run(index as int, batch_size as int);
        }
        ring.produce(batch_size * ITEM_BYTES)
    } else {
        false
    }
}

/// The producer's closing commit for a run of `count` items: commits the items
/// that the due batches left over. Returns the wake signal of that commit,
/// `false` where nothing was left.
pub fn produce_rest<const STRICT: bool>(
    ring: &SharedRing<STRICT>,
    count: usize,
    batch_size: usize,
) -> (woke: bool)
    requires
        count * ITEM_BYTES <= usize::MAX,
        batch_size > 0,
    ensures
        woke ==> count % batch_size > 0,
{
    let rest: usize = batch_rest(count, batch_size);
    if rest > 0 {
        ring.produce(rest * ITEM_BYTES)
    } else {
        false
    }
}

/// The consumer's step for the item at `index` of a run found in `region`:
/// reads the item, and if it is the `expected` one and a batch falls due,
/// releases the batch. `Ok` carries the wake signal of that commit, `false`
/// where none was due. `Err` carries what was found in place of `expected`;
/// nothing is released then.
pub fn consume_item<const STRICT: bool>(
    ring: &SharedRing<STRICT>,
    region: Region,
    index: usize,
    expected: u64,
    batch_size: usize,
) -> (res: Result<bool, Mismatch>)
    requires
        region.within(ring.spec_capacity() as int),
        (index + 1) * ITEM_BYTES <= region.len,
        batch_size > 0,
    ensures
        match res {
            Ok(woke) => woke ==> batch_due_at(index as int, batch_size as int),
            Err(mismatch) => mismatch.expected == expected && mismatch.found != expected,
        },
{
    let found: u64 = get_item(ring, region.offset + index * ITEM_BYTES);
    if found != expected {
        return Err(Mismatch { expected, found });
    }
    if batch_due(index, batch_size) {
        proof {
            lemma_batches_follow_the_run(index as int, batch_size as int);
        }
        Ok(ring.consume(batch_size * ITEM_BYTES))
    } else {
        Ok(false)
    }
}

/// The consumer's closing commit for a run of `count` items: releases the
/// items that the due batches left over. Returns the wake signal of that
/// commit, `false` where nothing was left.
pub fn consume_rest<const STRICT: bool>(
    ring: &SharedRing<STRICT>,
    count: usize,
    batch_size: usize,
) -> (woke: bool)
    requires
        count * ITEM_BYTES <= usize::MAX,
        batch_size > 0,
    ensures
        woke ==> count % batch_size > 0,
{
    let rest: usize = batch_rest(count, batch_size);
    if rest > 0 {
        ring.consume(rest * ITEM_BYTES)
    } else {
        false
    }
}

/// The producer's pass over the space region of an owned ring: lays the
/// `count` items `first`, `first + 1`, and so on into the region, least
/// significant byte first, and publishes them in one commit. Returns whether
/// the ring was empty and no longer is.
pub fn fill_items(ring: &mut RingBuffer, first: u64, count: usize) -> (woke: bool)
    requires
        old(ring).wf(),
        count * ITEM_BYTES <= old(ring).cursors().space().len,
        old(ring).cursors().write + count * ITEM_BYTES <= u64::MAX,
        first + count <= u64::MAX,
    ensures
        final(ring).wf(),
        final(ring).cursors() == old(ring).cursors().after_write(count * ITEM_BYTES),
        final(ring)@ == old(ring)@ + item_stream(first, count as nat),
        woke == (old(ring)@.len() == 0 && count > 0),
{
    let region = ring.get_space_buf();
    let mut i: usize = 0;
    while i < count
        invariant
            i <= count,
            count * ITEM_BYTES <= region.len,
            first + count <= u64::MAX,
            ring.wf(),
            ring.cursors() == old(ring).cursors(),
            region == ring.cursors().space(),
            ring@ == old(ring)@,
            ring.staged().len() == region.len,
            ring.staged().subrange(0, 8 * i) == item_stream(first, i as nat),
        decreases count - i,
    {
        let bytes = encode_item(first + i as u64);
        let mut k: usize = 0;
        while k < ITEM_BYTES
            invariant
                k <= ITEM_BYTES,
                i < count,
                count * ITEM_BYTES <= region.len,
                bytes@ == item_bytes((first + i) as u64),
                ring.wf(),
                ring.cursors() == old(ring).cursors(),
                region == ring.cursors().space(),
                ring@ == old(ring)@,
                ring.staged().len() == region.len,
                ring.staged().subrange(0, 8 * i + k) == item_stream(first, i as nat)
                    + bytes@.subrange(0, k as int),
            decreases ITEM_BYTES - k,
        {
            let ghost before = ring.staged();
            ring.put(region.offset + i * ITEM_BYTES + k, bytes[k]);
            proof {
                lemma_stream_len(first, i as nat);
                assert(ring.staged() == before.update(8 * i + k, bytes@[k as int]));
                assert(ring.staged().subrange(0, 8 * i + k + 1) =~= before.subrange(0, 8 * i + k)
                    + seq![bytes@[k as int]]);
                assert(bytes@.subrange(0, k + 1) =~= bytes@.subrange(0, k as int) + seq![
                    bytes@[k as int],
                ]);
                assert(ring.staged().subrange(0, 8 * i + k + 1) =~= item_stream(first, i as nat)
                    + bytes@.subrange(0, k + 1));
            }
            k = k + 1;
        }
        proof {
            assert(bytes@.subrange(0, 8) =~= bytes@);
            assert(item_stream(first, (i + 1) as nat) == item_stream(first, i as nat) + item_bytes(
                (first + i) as u64,
            ));
        }
        i = i + 1;
    }
    ring.produce(count * ITEM_BYTES)
}

/// The consumer's pass over the data region of an owned ring: checks that the
/// region begins with the `count` items `first`, `first + 1`, and so on, and
/// releases them in one commit. `Ok` carries whether the ring was full and no
/// longer is. `Err` carries the first item that is not the expected one;
/// nothing is released then.
pub fn drain_items(ring: &mut RingBuffer, first: u64, count: usize) -> (res: Result<
    bool,
    Mismatch,
>)
    requires
        old(ring).wf(),
        count * ITEM_BYTES <= old(ring).cursors().data().len,
        first + count <= u64::MAX,
    ensures
        final(ring).wf(),
        final(ring).storage() == old(ring).storage(),
        res.is_ok() <==> old(ring)@.subrange(0, 8 * count) == item_stream(first, count as nat),
        match res {
            Ok(woke) => {
                &&& final(ring).cursors() == old(ring).cursors().after_read(count * ITEM_BYTES)
                &&& final(ring)@ == old(ring)@.subrange(8 * count, old(ring)@.len() as int)
                &&& woke == (old(ring)@.len() == old(ring).cursors().capacity && count > 0)
            },
            Err(mismatch) => {
                &&& final(ring).cursors() == old(ring).cursors()
                &&& mismatch.found != mismatch.expected
                &&& exists|k: int|
                    {
                        &&& 0 <= k < count
                        &&& old(ring)@.subrange(0, 8 * k) == item_stream(first, k as nat)
                        &&& mismatch.expected == first + k
                        &&& mismatch.found == item_value(
                            #[trigger] old(ring)@.subrange(8 * k, 8 * k + 8),
                        )
                    }
            },
        },
{
    let region = ring.get_data_buf();
    let mut i: usize = 0;
    while i < count
        invariant
            i <= count,
            count * ITEM_BYTES <= region.len,
            first + count <= u64::MAX,
            ring.wf(),
            *ring == *old(ring),
            region == ring.cursors().data(),
            region.len <= ring@.len(),
            ring@.subrange(0, 8 * i) == item_stream(first, i as nat),
        decreases count - i,
    {
        let mut bytes: [u8; 8] = [0, 0, 0, 0, 0, 0, 0, 0];
        let mut k: usize = 0;
        while k < ITEM_BYTES
            invariant
                k <= ITEM_BYTES,
                i < count,
                count * ITEM_BYTES <= region.len,
                ring.wf(),
                region == ring.cursors().data(),
                region.len <= ring@.len(),
                bytes@.len() == 8,
                bytes@.subrange(0, k as int) == ring@.subrange(8 * i, 8 * i + k),
            decreases ITEM_BYTES - k,
        {
            let ghost before = bytes@;
            let byte: u8 = ring.get(region.offset + i * ITEM_BYTES + k);
            bytes[k] = byte;
            assert(bytes@.subrange(0, k + 1) =~= before.subrange(0, k as int) + seq![byte]);
            assert(ring@.subrange(8 * i, 8 * i + k + 1) =~= ring@.subrange(8 * i, 8 * i + k)
                + seq![byte]);
            k = k + 1;
        }
        let found: u64 = decode_item(&bytes);
        let expected: u64 = first + i as u64;
        proof {
            assert(bytes@.subrange(0, 8) =~= bytes@);
            assert(bytes@ == ring@.subrange(8 * i, 8 * i + 8));
        }
        if found != expected {
            proof {
                let front = ring@.subrange(0, 8 * count);
                if front == item_stream(first, count as nat) {
                    lemma_stream_holds_the_items(first, count as nat, i as int);
                    assert(front.subrange(8 * i, 8 * i + 8) =~= ring@.subrange(8 * i, 8 * i + 8));
                }
            }
            return Err(Mismatch { expected, found });
        }
        proof {
            lemma_bytes_round_trip(bytes@);
            assert(item_stream(first, (i + 1) as nat) == item_stream(first, i as nat) + item_bytes(
                (first + i) as u64,
            ));
            assert(ring@.subrange(0, 8 * (i + 1)) =~= ring@.subrange(0, 8 * i) + ring@.subrange(
                8 * i,
                8 * i + 8,
            ));
        }
        i = i + 1;
    }
    Ok(ring.consume(count * ITEM_BYTES))
}

} // verus!
