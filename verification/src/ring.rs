//! The ring owned in one place.
//!
//! [`RingBuffer`] keeps the storage and both cursors in one value, used by one
//! owner that plays producer and consumer in turn. Nothing is hidden from the
//! verifier here, so every operation states exactly what it does to the queue
//! of bytes in flight. The shared ring runs the same steps on cursors it can
//! only observe.
use vstd::prelude::*;
use crate::cursor::{lemma_regions_lie_in_storage, Cursors, Region};
use crate::modular::{lemma_position_advances, lemma_positions_differ};

verus! {

/// The bytes in flight, oldest first: the byte `i` places behind the read cursor
/// sits at position `(read + i) mod capacity`.
pub open spec fn queued(c: Cursors, storage: Seq<u8>) -> Seq<u8> {
    Seq::new(c.occupancy() as nat, |i: int| storage[(c.read + i) % (c.capacity as int)])
}

/// The bytes that lie in the space region, in storage order: what a commit would
/// publish.
pub open spec fn staged(c: Cursors, storage: Seq<u8>) -> Seq<u8> {
    storage.subrange(c.write_offset(), c.write_offset() + c.space_len())
}

/// `storage` with `bytes` laid over the positions from `at` on.
pub open spec fn overlaid(storage: Seq<u8>, at: int, bytes: Seq<u8>) -> Seq<u8> {
    Seq::new(
        storage.len(),
        |k: int|
            if at <= k < at + bytes.len() {
                bytes[k - at]
            } else {
                storage[k]
            },
    )
}

/// Position `at` of the space region holds no byte in flight.
pub proof fn lemma_space_holds_no_data(c: Cursors, at: int, i: int)
    requires
        c.consistent(),
        c.write_offset() <= at < c.write_offset() + c.space_len(),
        0 <= i < c.occupancy(),
    ensures
        (c.read + i) % (c.capacity as int) != at,
{
    lemma_regions_lie_in_storage(c);
    let j = at - c.write_offset();
    lemma_position_advances(c.write as int, j, c.capacity as int);
    lemma_positions_differ(c.read + i, c.write + j, c.capacity as int);
}

/// Filling part of the space region changes no byte in flight.
pub proof fn lemma_fill_keeps_queue(c: Cursors, storage: Seq<u8>, at: int, bytes: Seq<u8>)
    requires
        c.consistent(),
        storage.len() == c.capacity,
        c.write_offset() <= at,
        at + bytes.len() <= c.write_offset() + c.space_len(),
    ensures
        queued(c, overlaid(storage, at, bytes)) == queued(c, storage),
{
    lemma_regions_lie_in_storage(c);
    let filled = overlaid(storage, at, bytes);
    assert forall|i: int| 0 <= i < c.occupancy() implies queued(c, filled)[i] == queued(
        c,
        storage,
    )[i] by {
        let p = (c.read + i) % (c.capacity as int);
        crate::modular::lemma_position_in_range(c.read + i, c.capacity as int);
        if at <= p < at + bytes.len() {
            lemma_space_holds_no_data(c, p, i);
        }
    }
    assert(queued(c, filled) =~= queued(c, storage));
}

/// Publishing `n` bytes appends the first `n` staged bytes to the queue.
pub proof fn lemma_publish_appends(c: Cursors, storage: Seq<u8>, n: int)
    requires
        c.admits_write(n),
        storage.len() == c.capacity,
    ensures
        queued(c.after_write(n), storage) == queued(c, storage) + staged(c, storage).subrange(
            0,
            n,
        ),
{
    lemma_regions_lie_in_storage(c);
    let after = c.after_write(n);
    let appended = queued(c, storage) + staged(c, storage).subrange(0, n);
    assert(queued(after, storage).len() == appended.len());
    assert forall|i: int| 0 <= i < after.occupancy() implies queued(after, storage)[i]
        == appended[i] by {
        if i >= c.occupancy() {
            let j = i - c.occupancy();
            lemma_position_advances(c.write as int, j, c.capacity as int);
            assert(c.read + i == c.write + j);
        }
    }
    assert(queued(after, storage) =~= appended);
}

/// Releasing `n` bytes drops the `n` oldest bytes from the queue.
pub proof fn lemma_release_drops(c: Cursors, storage: Seq<u8>, n: int)
    requires
        c.admits_read(n),
        storage.len() == c.capacity,
    ensures
        queued(c.after_read(n), storage) == queued(c, storage).subrange(n, c.occupancy()),
{
    lemma_regions_lie_in_storage(c);
    let after = c.after_read(n);
    assert forall|i: int| 0 <= i < after.occupancy() implies queued(after, storage)[i] == queued(
        c,
        storage,
    ).subrange(n, c.occupancy())[i] by {
        assert(after.read + i == c.read + (n + i));
    }
    assert(queued(after, storage) =~= queued(c, storage).subrange(n, c.occupancy()));
}

/// The data region holds the front of the queue: its byte `j` is the `j`-th
/// oldest byte in flight.
pub proof fn lemma_data_is_queue_front(c: Cursors, storage: Seq<u8>, j: int)
    requires
        c.consistent(),
        storage.len() == c.capacity,
        0 <= j < c.data_len(),
    ensures
        queued(c, storage)[j] == storage[c.read_offset() + j],
{
    lemma_regions_lie_in_storage(c);
    lemma_position_advances(c.read as int, j, c.capacity as int);
}

/// A commit of less than the whole space region leaves the rest of it staged.
pub proof fn lemma_publish_keeps_rest_staged(c: Cursors, storage: Seq<u8>, n: int)
    requires
        c.admits_write(n),
        n < c.space_len(),
        storage.len() == c.capacity,
    ensures
        c.after_write(n).write_offset() == c.write_offset() + n,
        c.after_write(n).space_len() == c.space_len() - n,
        staged(c.after_write(n), storage) == staged(c, storage).subrange(n, c.space_len()),
{
    lemma_regions_lie_in_storage(c);
    lemma_position_advances(c.write as int, n, c.capacity as int);
    assert(staged(c.after_write(n), storage) =~= staged(c, storage).subrange(n, c.space_len()));
}

/// Releasing bytes never shrinks the space region: what was staged stays
/// staged, at the front of the region.
pub proof fn lemma_release_keeps_staged(c: Cursors, storage: Seq<u8>, n: int)
    requires
        c.admits_read(n),
        storage.len() == c.capacity,
    ensures
        c.after_read(n).write_offset() == c.write_offset(),
        c.after_read(n).space_len() >= c.space_len(),
        staged(c.after_read(n), storage).subrange(0, c.space_len()) == staged(c, storage),
{
    lemma_regions_lie_in_storage(c);
    lemma_regions_lie_in_storage(c.after_read(n));
    assert(staged(c.after_read(n), storage).subrange(0, c.space_len()) =~= staged(c, storage));
}

/// A ring buffer held by a single owner.
pub struct RingBuffer {
    cursors: Cursors,
    storage: Vec<u8>,
}

impl View for RingBuffer {
    type V = Seq<u8>;

    /// The bytes in flight, oldest first.
    open spec fn view(&self) -> Seq<u8> {
        queued(self.cursors(), self.storage())
    }
}

impl RingBuffer {
    /// The cursor pair.
    pub closed spec fn cursors(&self) -> Cursors {
        self.cursors
    }

    /// The backing storage, by physical position.
    pub closed spec fn storage(&self) -> Seq<u8> {
        self.storage@
    }

    /// The cursors are consistent and the storage has `capacity` bytes.
    pub open spec fn wf(&self) -> bool {
        &&& self.cursors().consistent()
        &&& self.storage().len() == self.cursors().capacity
    }

    /// The bytes now in the space region, in order.
    pub open spec fn staged(&self) -> Seq<u8> {
        staged(self.cursors(), self.storage())
    }

    /// A ring of `capacity` bytes with nothing in flight.
    pub fn new(capacity: usize) -> (ring: Self)
        requires
            capacity > 0,
        ensures
            ring.wf(),
            ring.cursors() == (Cursors { capacity, write: 0, read: 0 }),
            ring@ == Seq::<u8>::empty(),
    {
        let mut storage: Vec<u8> = Vec::with_capacity(capacity);
        let mut i: usize = 0;
        while i < capacity
            invariant
                i <= capacity,
                storage@.len() == i,
            decreases capacity - i,
        {
            storage.push(0u8);
            i = i + 1;
        }
        let ring = RingBuffer { cursors: Cursors::new(capacity), storage };
        assert(ring@ =~= Seq::<u8>::empty());
        ring
    }

    /// The number of bytes the storage holds.
    pub fn capacity(&self) -> (capacity: usize)
        ensures
            capacity == self.cursors().capacity,
    {
        self.cursors.capacity
    }

    /// The cursor pair as it stands.
    pub fn snapshot(&self) -> (cursors: Cursors)
        ensures
            cursors == self.cursors(),
    {
        self.cursors
    }

    /// The number of bytes in flight.
    pub fn len(&self) -> (len: usize)
        requires
            self.wf(),
        ensures
            len == self@.len(),
            len == self.cursors().occupancy(),
    {
        (self.cursors.write - self.cursors.read) as usize
    }

    /// The region the producer may fill.
    pub fn get_space_buf(&self) -> (region: Region)
        requires
            self.wf(),
        ensures
            region == self.cursors().space(),
            region.within(self.cursors().capacity as int),
            region.offset < self.cursors().capacity,
            region.len == self.staged().len(),
            region.len == 0 <==> self@.len() == self.cursors().capacity,
    {
        proof {
            lemma_regions_lie_in_storage(self.cursors);
        }
        self.cursors.space_region()
    }

    /// The region the consumer may drain.
    pub fn get_data_buf(&self) -> (region: Region)
        requires
            self.wf(),
        ensures
            region == self.cursors().data(),
            region.within(self.cursors().capacity as int),
            region.offset < self.cursors().capacity,
            region.len <= self@.len(),
            region.len == 0 <==> self@.len() == 0,
    {
        proof {
            lemma_regions_lie_in_storage(self.cursors);
        }
        self.cursors.data_region()
    }

    /// Stores `byte` at physical offset `at` of the space region. The byte is
    /// staged, not published: the queue is unchanged.
    pub fn put(&mut self, at: usize, byte: u8)
        requires
            old(self).wf(),
            old(self).cursors().space().contains(at as int),
        ensures
            final(self).wf(),
            final(self).cursors() == old(self).cursors(),
            final(self).storage() == old(self).storage().update(at as int, byte),
            final(self)@ == old(self)@,
            final(self).staged() == old(self).staged().update(
                at - old(self).cursors().space().offset,
                byte,
            ),
    {
        proof {
            lemma_regions_lie_in_storage(self.cursors);
            lemma_fill_keeps_queue(self.cursors, self.storage@, at as int, seq![byte]);
            assert(overlaid(self.storage@, at as int, seq![byte]) =~= self.storage@.update(
                at as int,
                byte,
            ));
        }
        self.storage[at] = byte;
        assert(self.staged() =~= old(self).staged().update(
            at - old(self).cursors().space().offset,
            byte,
        ));
    }

    /// The byte at physical offset `at` of the data region.
    pub fn get(&self, at: usize) -> (byte: u8)
        requires
            self.wf(),
            self.cursors().data().contains(at as int),
        ensures
            byte == self.storage()[at as int],
            byte == self@[at - self.cursors().data().offset],
    {
        proof {
            lemma_regions_lie_in_storage(self.cursors);
            lemma_data_is_queue_front(self.cursors, self.storage@, at - self.cursors.read_offset());
        }
        self.storage[at]
    }

    /// Publishes the first `count` staged bytes. Returns whether the ring was
    /// empty and no longer is.
    pub fn produce(&mut self, count: usize) -> (woke: bool)
        requires
            old(self).wf(),
            old(self).cursors().admits_write(count as int),
        ensures
            final(self).wf(),
            final(self).cursors() == old(self).cursors().after_write(count as int),
            final(self).storage() == old(self).storage(),
            final(self)@ == old(self)@ + old(self).staged().subrange(0, count as int),
            woke == (old(self)@.len() == 0 && final(self)@.len() > 0),
            count < old(self).staged().len() ==> final(self).staged() == old(self).staged().subrange(
                count as int,
                old(self).staged().len() as int,
            ),
    {
        proof {
            lemma_regions_lie_in_storage(self.cursors);
            lemma_publish_appends(self.cursors, self.storage@, count as int);
            if count < self.cursors.space_len() {
                lemma_publish_keeps_rest_staged(self.cursors, self.storage@, count as int);
            }
        }
        self.cursors.commit_write(count)
    }

    /// Releases the `count` oldest bytes. Returns whether the ring was full and
    /// no longer is.
    pub fn consume(&mut self, count: usize) -> (woke: bool)
        requires
            old(self).wf(),
            old(self).cursors().admits_read(count as int),
        ensures
            final(self).wf(),
            final(self).cursors() == old(self).cursors().after_read(count as int),
            final(self).storage() == old(self).storage(),
            final(self)@ == old(self)@.subrange(count as int, old(self)@.len() as int),
            woke == (old(self)@.len() == old(self).cursors().capacity && final(self)@.len() < old(
                self,
            ).cursors().capacity),
            final(self).staged().len() >= old(self).staged().len(),
            final(self).staged().subrange(0, old(self).staged().len() as int) == old(
                self,
            ).staged(),
    {
        proof {
            lemma_regions_lie_in_storage(self.cursors);
            lemma_release_drops(self.cursors, self.storage@, count as int);
            lemma_release_keeps_staged(self.cursors, self.storage@, count as int);
        }
        self.cursors.commit_read(count)
    }

    /// Copies the bytes of `buf` that fit into the space region, publishes them,
    /// and returns whether the ring was empty and no longer is, with the number
    /// of bytes taken. A full ring takes nothing; a request longer than the
    /// space region is cut short at its end.
    pub fn write(&mut self, buf: &[u8]) -> (res: (bool, usize))
        requires
            old(self).wf(),
            old(self).cursors().write + old(self).cursors().write_len(buf@.len() as int)
                <= u64::MAX,
        ensures
            final(self).wf(),
            res.1 == old(self).cursors().write_len(buf@.len() as int),
            final(self).cursors() == old(self).cursors().after_write(res.1 as int),
            final(self).storage() == overlaid(
                old(self).storage(),
                old(self).cursors().write_offset(),
                buf@.subrange(0, res.1 as int),
            ),
            final(self)@ == old(self)@ + buf@.subrange(0, res.1 as int),
            res.0 == (old(self)@.len() == 0 && res.1 > 0),
    {
        proof {
            lemma_regions_lie_in_storage(self.cursors);
        }
        let region = self.cursors.space_region();
        let n: usize = if buf.len() <= region.len {
            buf.len()
        } else {
            region.len
        };
        let mut i: usize = 0;
        while i < n
            invariant
                i <= n,
                n <= buf@.len(),
                n <= region.len,
                region == old(self).cursors.space(),
                old(self).cursors.consistent(),
                region.offset + region.len <= old(self).cursors.capacity,
                old(self).storage@.len() == old(self).cursors.capacity,
                self.cursors == old(self).cursors,
                self.storage@ == overlaid(
                    old(self).storage@,
                    region.offset as int,
                    buf@.subrange(0, i as int),
                ),
            decreases n - i,
        {
            self.storage[region.offset + i] = buf[i];
            i = i + 1;
            assert(self.storage@ =~= overlaid(
                old(self).storage@,
                region.offset as int,
                buf@.subrange(0, i as int),
            ));
        }
        proof {
            let taken = buf@.subrange(0, n as int);
            lemma_fill_keeps_queue(self.cursors, old(self).storage@, region.offset as int, taken);
            lemma_publish_appends(self.cursors, self.storage@, n as int);
            assert(staged(self.cursors, self.storage@).subrange(0, n as int) =~= taken);
        }
        let woke = self.cursors.commit_write(n);
        (woke, n)
    }

    /// Copies the oldest bytes in flight to the front of `buf`, as many as `buf`
    /// takes and the data region holds, releases them, and returns whether the
    /// ring was full and no longer is, with the number of bytes given. An empty
    /// ring gives nothing; the rest of `buf` is left as it was.
    pub fn read(&mut self, buf: &mut [u8]) -> (res: (bool, usize))
        requires
            old(self).wf(),
        ensures
            final(self).wf(),
            res.1 == old(self).cursors().read_len(old(buf)@.len() as int),
            final(self).cursors() == old(self).cursors().after_read(res.1 as int),
            final(self).storage() == old(self).storage(),
            final(self)@ == old(self)@.subrange(res.1 as int, old(self)@.len() as int),
            final(buf)@ == old(self)@.subrange(0, res.1 as int) + old(buf)@.subrange(
                res.1 as int,
                old(buf)@.len() as int,
            ),
            res.0 == (old(self)@.len() == old(self).cursors().capacity && res.1 > 0),
    {
        proof {
            lemma_regions_lie_in_storage(self.cursors);
        }
        let region = self.cursors.data_region();
        let n: usize = if buf.len() <= region.len {
            buf.len()
        } else {
            region.len
        };
        let mut i: usize = 0;
        while i < n
            invariant
                i <= n,
                n <= region.len,
                n <= buf@.len(),
                buf@.len() == old(buf)@.len(),
                region == self.cursors.data(),
                self.cursors.consistent(),
                region.offset + region.len <= self.cursors.capacity,
                self.storage@.len() == self.cursors.capacity,
                buf@ == queued(self.cursors, self.storage@).subrange(0, i as int) + old(
                    buf,
                )@.subrange(i as int, old(buf)@.len() as int),
            decreases n - i,
        {
            proof {
                lemma_data_is_queue_front(self.cursors, self.storage@, i as int);
            }
            buf[i] = self.storage[region.offset + i];
            i = i + 1;
            assert(buf@ =~= queued(self.cursors, self.storage@).subrange(0, i as int) + old(
                buf,
            )@.subrange(i as int, old(buf)@.len() as int));
        }
        proof {
            lemma_release_drops(self.cursors, self.storage@, n as int);
        }
        let woke = self.cursors.commit_read(n);
        (woke, n)
    }
}

/// One step of a transfer as the two ends see it: bytes the ring took in, or a
/// number of bytes it gave out.
pub enum Move {
    /// The ring took these bytes in.
    In(Seq<u8>),
    /// The ring gave out its oldest bytes, this many.
    Out(nat),
}

/// Whether each move of `moves`, made in order on a queue that starts as `q`,
/// gives out no more than is in flight.
pub open spec fn possible(q: Seq<u8>, moves: Seq<Move>) -> bool
    decreases moves.len(),
{
    if moves.len() == 0 {
        true
    } else {
        match moves[0] {
            Move::In(bytes) => possible(q + bytes, moves.drop_first()),
            Move::Out(n) => n <= q.len() && possible(
                q.subrange(n as int, q.len() as int),
                moves.drop_first(),
            ),
        }
    }
}

/// The queue after `moves`.
pub open spec fn queue_after(q: Seq<u8>, moves: Seq<Move>) -> Seq<u8>
    decreases moves.len(),
{
    if moves.len() == 0 {
        q
    } else {
        match moves[0] {
            Move::In(bytes) => queue_after(q + bytes, moves.drop_first()),
            Move::Out(n) => queue_after(q.subrange(n as int, q.len() as int), moves.drop_first()),
        }
    }
}

/// All bytes taken in by `moves`, in the order they went in.
pub open spec fn taken_in(moves: Seq<Move>) -> Seq<u8>
    decreases moves.len(),
{
    if moves.len() == 0 {
        Seq::empty()
    } else {
        match moves[0] {
            Move::In(bytes) => bytes + taken_in(moves.drop_first()),
            Move::Out(n) => taken_in(moves.drop_first()),
        }
    }
}

/// All bytes given out by `moves` on a queue that starts as `q`, in the order
/// they came out.
pub open spec fn given_out(q: Seq<u8>, moves: Seq<Move>) -> Seq<u8>
    decreases moves.len(),
{
    if moves.len() == 0 {
        Seq::empty()
    } else {
        match moves[0] {
            Move::In(bytes) => given_out(q + bytes, moves.drop_first()),
            Move::Out(n) => q.subrange(0, n as int) + given_out(
                q.subrange(n as int, q.len() as int),
                moves.drop_first(),
            ),
        }
    }
}

/// First in, first out. Whatever the interleaving of writes and reads, what
/// was in flight at the start followed by everything taken in equals everything
/// given out followed by what is still in flight: no byte is lost, repeated or
/// moved.
pub proof fn lemma_first_in_first_out(q: Seq<u8>, moves: Seq<Move>)
    requires
        possible(q, moves),
    ensures
        q + taken_in(moves) == given_out(q, moves) + queue_after(q, moves),
    decreases moves.len(),
{
    if moves.len() == 0 {
        assert(q + taken_in(moves) =~= given_out(q, moves) + queue_after(q, moves));
    } else {
        let rest = moves.drop_first();
        match moves[0] {
            Move::In(bytes) => {
                lemma_first_in_first_out(q + bytes, rest);
                assert(q + (bytes + taken_in(rest)) =~= (q + bytes) + taken_in(rest));
            },
            Move::Out(n) => {
                let kept = q.subrange(n as int, q.len() as int);
                lemma_first_in_first_out(kept, rest);
                assert(q =~= q.subrange(0, n as int) + kept);
                assert((q.subrange(0, n as int) + kept) + taken_in(rest) =~= q.subrange(
                    0,
                    n as int,
                ) + (kept + taken_in(rest)));
                assert(q.subrange(0, n as int) + (given_out(kept, rest) + queue_after(kept, rest))
                    =~= (q.subrange(0, n as int) + given_out(kept, rest)) + queue_after(
                    kept,
                    rest,
                ));
            },
        }
    }
}

/// A stream that starts and ends with nothing in flight comes out exactly as
/// it went in.
pub proof fn lemma_drained_stream_is_intact(moves: Seq<Move>)
    requires
        possible(Seq::empty(), moves),
        queue_after(Seq::empty(), moves).len() == 0,
    ensures
        given_out(Seq::empty(), moves) == taken_in(moves),
{
    lemma_first_in_first_out(Seq::empty(), moves);
    assert(Seq::<u8>::empty() + taken_in(moves) =~= taken_in(moves));
    assert(given_out(Seq::empty(), moves) + queue_after(Seq::empty(), moves) =~= given_out(
        Seq::empty(),
        moves,
    ));
}

} // verus!
