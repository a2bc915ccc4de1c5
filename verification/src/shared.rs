//! The ring shared by a producer thread and a consumer thread.
//!
//! A [`SharedRing`] is a handle; its clones all stand for the same ring. The
//! producer role publishes through the write cursor and is the only one to
//! store it; the consumer role releases through the read cursor and is the
//! only one to store that. Each role loads both cursors. No operation blocks,
//! sleeps or retries: an empty region tells the caller to come back later,
//! and the boolean a commit returns is the one signal a caller needs to wake
//! a peer it has parked.
//!
//! The verifier sees nothing of what the other thread does to a cursor. What
//! is stated of an operation here therefore holds for every value it may have
//! observed; what the operation then computes from the observation is the
//! arithmetic of [`crate::cursor`], stated there exactly.
use vstd::prelude::*;
use std::sync::Arc;
use std::sync::atomic::{AtomicU64, AtomicU8};
use crate::cursor::{lemma_regions_lie_in_storage, Cursors, Region};
use crate::error::{Error, SysErr};
use crate::policy::{
    load_byte, load_cursor, load_order, store_byte, store_cursor, store_order, LoadOrder,
    StoreOrder, load_order_of, store_order_of,
};

verus! {

/// What the handles of one ring share.
struct Shared {
    capacity: usize,
    storage: Vec<AtomicU8>,
    write_cursor: AtomicU64,
    read_cursor: AtomicU64,
}

/// A handle to a ring shared between one producer and one consumer. With
/// `STRICT` the cursors are accessed sequentially consistently, without it with
/// acquire and release ordering.
pub struct SharedRing<const STRICT: bool> {
    shared: Arc<Shared>,
}

/// The shared ring with acquire/release cursors: the faster one. Composed with
/// a park-and-notify layer it can lose a wake-up.
pub type RingBuf = SharedRing<false>;

/// The shared ring with sequentially consistent cursors: safe to compose with
/// a park-and-notify layer.
pub type RingBufSeq = SharedRing<true>;

impl<const STRICT: bool> SharedRing<STRICT> {
    #[verifier::type_invariant]
    spec fn inv(self) -> bool {
        &&& self.shared.capacity > 0
        &&& self.shared.storage@.len() == self.shared.capacity
    }

    /// The number of bytes the storage holds.
    pub closed spec fn spec_capacity(&self) -> usize {
        self.shared.capacity
    }

    /// Some observation of this ring's cursor pair.
    pub open spec fn sees(&self, c: Cursors) -> bool {
        c.capacity == self.spec_capacity()
    }

    /// A ring of `count` bytes with nothing in flight.
    pub fn new(count: usize) -> (ring: Self)
        requires
            count > 0,
        ensures
            ring.spec_capacity() == count,
    {
        let mut storage: Vec<AtomicU8> = Vec::with_capacity(count);
        let mut i: usize = 0;
        while i < count
            invariant
                i <= count,
                storage@.len() == i,
            decreases count - i,
        {
            storage.push(AtomicU8::new(0));
            i = i + 1;
        }
        SharedRing {
            shared: Arc::new(
                Shared {
                    capacity: count,
                    storage,
                    write_cursor: AtomicU64::new(0),
                    read_cursor: AtomicU64::new(0),
                },
            ),
        }
    }

    /// The number of bytes the storage holds.
    #[verifier::when_used_as_spec(spec_capacity)]
    pub fn capacity(&self) -> (capacity: usize)
        ensures
            capacity == self.spec_capacity(),
            capacity > 0,
    {
        proof {
            use_type_invariant(self);
        }
        self.shared.capacity
    }

    /// Whether this is the sequentially consistent instantiation.
    pub fn is_strict(&self) -> (strict: bool)
        ensures
            strict == STRICT,
    {
        STRICT
    }

    /// How this instantiation orders its cursor loads.
    pub fn load_order(&self) -> (order: LoadOrder)
        ensures
            order == load_order_of(STRICT),
    {
        load_order(STRICT)
    }

    /// How this instantiation orders its cursor stores.
    pub fn store_order(&self) -> (order: StoreOrder)
        ensures
            order == store_order_of(STRICT),
    {
        store_order(STRICT)
    }

    /// Loads both cursors. The pair is what this thread saw; the other thread
    /// may have moved on since.
    pub fn observe(&self) -> (seen: Cursors)
        ensures
            self.sees(seen),
    {
        let write: u64 = load_cursor(&self.shared.write_cursor, load_order(STRICT));
        let read: u64 = load_cursor(&self.shared.read_cursor, load_order(STRICT));
        Cursors { capacity: self.shared.capacity, write, read }
    }

    /// The region the producer may fill, as of one observation of the cursors.
    /// An empty region means there is no space now: poll again.
    pub fn get_space_buf(&self) -> (region: Region)
        ensures
            exists|seen: Cursors| self.sees(seen) && region == #[trigger] seen.space(),
            region.within(self.spec_capacity() as int),
            region.offset < self.spec_capacity(),
    {
        proof {
            use_type_invariant(self);
        }
        let seen = self.observe();
        seen.space_region()
    }

    /// The region the consumer may drain, as of one observation of the cursors.
    /// An empty region means there is no data now: poll again.
    pub fn get_data_buf(&self) -> (region: Region)
        ensures
            exists|seen: Cursors| self.sees(seen) && region == #[trigger] seen.data(),
            region.within(self.spec_capacity() as int),
            region.offset < self.spec_capacity(),
    {
        proof {
            use_type_invariant(self);
        }
        let seen = self.observe();
        seen.data_region()
    }

    /// Stores `byte` at physical offset `at`. The producer calls this for
    /// offsets of the space region it was last given, before it commits them.
    pub fn put(&self, at: usize, byte: u8)
        requires
            at < self.spec_capacity(),
    {
        proof {
            use_type_invariant(self);
        }
        store_byte(&self.shared.storage[at], byte);
    }

    /// The byte at physical offset `at`. The consumer calls this for offsets
    /// of the data region it was last given, before it releases them.
    pub fn get(&self, at: usize) -> u8
        requires
            at < self.spec_capacity(),
    {
        proof {
            use_type_invariant(self);
        }
        load_byte(&self.shared.storage[at])
    }

    /// Advances the write cursor from `from` by `count` and then looks at the
    /// read cursor: if the consumer had released everything up to `from`, the
    /// ring was empty until this store.
    fn publish(&self, from: u64, count: usize) -> (woke: bool)
        requires
            from + count <= u64::MAX,
        ensures
            woke ==> exists|seen: Cursors|
                self.sees(seen) && seen.write == from && #[trigger] seen.write_wakes(count as int),
    {
        store_cursor(&self.shared.write_cursor, from + count as u64, store_order(STRICT));
        let read: u64 = load_cursor(&self.shared.read_cursor, load_order(STRICT));
        let seen = Cursors { capacity: self.shared.capacity, write: from, read };
        let woke = seen.wakes_on_write(count);
        assert(woke ==> self.sees(seen) && seen.write == from && seen.write_wakes(count as int));
        woke
    }

    /// Advances the read cursor from `from` by `count` and then looks at the
    /// write cursor: if the producer had published a whole capacity beyond
    /// `from`, the ring was full until this store.
    fn release(&self, from: u64, count: usize) -> (woke: bool)
        requires
            from + count <= u64::MAX,
        ensures
            woke ==> exists|seen: Cursors|
                self.sees(seen) && seen.read == from && #[trigger] seen.read_wakes(count as int),
    {
        store_cursor(&self.shared.read_cursor, from + count as u64, store_order(STRICT));
        let write: u64 = load_cursor(&self.shared.write_cursor, load_order(STRICT));
        let seen = Cursors { capacity: self.shared.capacity, write, read: from };
        let woke = seen.wakes_on_read(count);
        assert(woke ==> self.sees(seen) && seen.read == from && seen.read_wakes(count as int));
        woke
    }

    /// Publishes `count` bytes that the producer has put into the space region.
    /// Returns whether the ring was empty until then, so that a consumer may be
    /// waiting. A `count` that the observed cursors do not admit is a misuse
    /// and publishes nothing.
    pub fn produce(&self, count: usize) -> (woke: bool)
        ensures
            woke ==> count > 0,
            woke ==> exists|seen: Cursors|
                self.sees(seen) && #[trigger] seen.admits_write(count as int),
            woke ==> exists|seen: Cursors|
                self.sees(seen) && #[trigger] seen.write_wakes(count as int),
    {
        if count == 0 {
            return false;
        }
        let seen = self.observe();
        if seen.can_write(count) {
            self.publish(seen.write, count)
        } else {
            false
        }
    }

    /// Releases `count` bytes that the consumer has taken from the data region.
    /// Returns whether the ring was full until then, so that a producer may be
    /// waiting. A `count` that the observed cursors do not admit is a misuse
    /// and releases nothing.
    pub fn consume(&self, count: usize) -> (woke: bool)
        ensures
            woke ==> count > 0,
            woke ==> exists|seen: Cursors|
                self.sees(seen) && #[trigger] seen.admits_read(count as int),
            woke ==> exists|seen: Cursors|
                self.sees(seen) && #[trigger] seen.read_wakes(count as int),
    {
        if count == 0 {
            return false;
        }
        let seen = self.observe();
        if seen.can_read(count) {
            self.release(seen.read, count)
        } else {
            false
        }
    }

    /// Copies the bytes of `buf` that fit into the space region and publishes
    /// them. What is transferred is what [`Cursors::plan_write`] gives for
    /// the cursors this call observed. `Ok` carries the wake signal of the
    /// commit and the number of bytes taken, which is zero when the ring is
    /// full and less than asked when the region ends first. `Err` reports
    /// cursors that no correct use produces, or a write cursor that cannot
    /// count further; nothing was taken then.
    pub fn write(&mut self, buf: &[u8]) -> (res: Result<(bool, usize), Error>)
        ensures
            final(self).spec_capacity() == old(self).spec_capacity(),
            exists|seen: Cursors|
                old(self).sees(seen) && match res {
                    Ok((woke, n)) => #[trigger] seen.write_plan(buf@.len() as int) == Ok::<
                        usize,
                        Error,
                    >(n),
                    Err(e) => seen.write_plan(buf@.len() as int) == Err::<usize, Error>(e),
                },
            res matches Ok((woke, n)) ==> n <= buf@.len() && n <= old(self).spec_capacity() && (woke
                ==> n > 0),
            res matches Err(e) ==> e == Error::SysError(SysErr::EINVAL),
    {
        proof {
            use_type_invariant(&*self);
        }
        let seen = self.observe();
        let region = seen.space_region();
        let n: usize = match seen.plan_write(buf.len()) {
            Ok(n) => n,
            Err(e) => {
                assert(old(self).sees(seen) && seen.write_plan(buf@.len() as int) == Err::<
                    usize,
                    Error,
                >(e));
                return Err(e);
            },
        };
        assert(old(self).sees(seen) && seen.write_plan(buf@.len() as int) == Ok::<usize, Error>(n));
        if n == 0 {
            return Ok((false, 0));
        }
        proof {
            lemma_regions_lie_in_storage(seen);
        }
        let mut i: usize = 0;
        while i < n
            invariant
                i <= n,
                n <= buf@.len(),
                region.offset + n <= self.shared.capacity,
                self.shared.storage@.len() == self.shared.capacity,
            decreases n - i,
        {
            store_byte(&self.shared.storage[region.offset + i], buf[i]);
            i = i + 1;
        }
        let woke = self.publish(seen.write, n);
        Ok((woke, n))
    }

    /// Copies the oldest bytes in flight to the front of `buf` and releases
    /// them. What is transferred is what [`Cursors::plan_read`] gives for the
    /// cursors this call observed. `Ok` carries the wake signal of the commit
    /// and the number of bytes given, which is zero when the ring is empty and
    /// less than `buf` takes when the region ends first; the rest of `buf` is
    /// left as it was. `Err` reports cursors that no correct use produces;
    /// nothing was given then and `buf` is unchanged.
    pub fn read(&self, buf: &mut [u8]) -> (res: Result<(bool, usize), Error>)
        ensures
            final(buf)@.len() == old(buf)@.len(),
            exists|seen: Cursors|
                self.sees(seen) && match res {
                    Ok((woke, n)) => #[trigger] seen.read_plan(old(buf)@.len() as int) == Ok::<
                        usize,
                        Error,
                    >(n),
                    Err(e) => seen.read_plan(old(buf)@.len() as int) == Err::<usize, Error>(e),
                },
            res matches Ok((woke, n)) ==> {
                &&& n <= old(buf)@.len()
                &&& n <= self.spec_capacity()
                &&& woke ==> n > 0
                &&& final(buf)@.subrange(n as int, old(buf)@.len() as int) == old(buf)@.subrange(
                    n as int,
                    old(buf)@.len() as int,
                )
            },
            res matches Err(e) ==> e == Error::SysError(SysErr::EINVAL) && final(buf)@ == old(
                buf,
            )@,
    {
        proof {
            use_type_invariant(self);
        }
        let seen = self.observe();
        let region = seen.data_region();
        let n: usize = match seen.plan_read(buf.len()) {
            Ok(n) => n,
            Err(e) => {
                assert(self.sees(seen) && seen.read_plan(old(buf)@.len() as int) == Err::<
                    usize,
                    Error,
                >(e));
                return Err(e);
            },
        };
        assert(self.sees(seen) && seen.read_plan(old(buf)@.len() as int) == Ok::<usize, Error>(n));
        if n == 0 {
            return Ok((false, 0));
        }
        proof {
            lemma_regions_lie_in_storage(seen);
        }
        let mut i: usize = 0;
        while i < n
            invariant
                i <= n,
                n <= buf@.len(),
                buf@.len() == old(buf)@.len(),
                region.offset + n <= self.shared.capacity,
                self.shared.storage@.len() == self.shared.capacity,
                forall|k: int| i <= k < buf@.len() ==> buf@[k] == old(buf)@[k],
            decreases n - i,
        {
            buf[i] = load_byte(&self.shared.storage[region.offset + i]);
            i = i + 1;
        }
        assert(buf@.subrange(n as int, buf@.len() as int) =~= old(buf)@.subrange(
            n as int,
            buf@.len() as int,
        ));
        let woke = self.release(seen.read, n);
        Ok((woke, n))
    }
}

impl<const STRICT: bool> Clone for SharedRing<STRICT> {
    /// Another handle to the same ring.
    fn clone(&self) -> (other: Self)
        ensures
            other.spec_capacity() == self.spec_capacity(),
    {
        proof {
            use_type_invariant(self);
        }
        SharedRing { shared: self.shared.clone() }
    }
}

} // verus!
