//! The cursor pair and the arithmetic on it.
//!
//! A ring of `capacity` bytes is described by two counters that only grow: the
//! write cursor counts every byte ever published, the read cursor every byte ever
//! released. Their difference is the occupancy, and each cursor taken modulo the
//! capacity is a position in storage. Everything a ring decides, it decides from
//! one observation of the pair; this module states those decisions.
use vstd::prelude::*;
use crate::error::{Error, SysErr};
use crate::modular::lemma_position_in_range;

verus! {

/// A run of consecutive storage bytes: `len` bytes from physical offset `offset`.
#[derive(Clone, Copy, Debug, PartialEq, Eq, Structural)]
pub struct Region {
    /// Physical offset of the first byte.
    pub offset: usize,
    /// Number of bytes in the run.
    pub len: usize,
}

impl Region {
    /// Whether physical offset `at` lies in the run.
    pub open spec fn contains(self, at: int) -> bool {
        self.offset <= at < self.offset + self.len
    }

    /// Whether the run lies in a storage of `capacity` bytes without running past
    /// its end.
    pub open spec fn within(self, capacity: int) -> bool {
        self.offset + self.len <= capacity
    }
}

/// One observation of the cursor pair of a ring of `capacity` bytes.
#[derive(Clone, Copy, Debug, PartialEq, Eq, Structural)]
pub struct Cursors {
    /// Number of bytes the storage holds.
    pub capacity: usize,
    /// Total bytes ever published by the producer.
    pub write: u64,
    /// Total bytes ever released by the consumer.
    pub read: u64,
}

/// One advance of a cursor.
#[derive(Clone, Copy, Debug, PartialEq, Eq, Structural)]
pub enum Commit {
    /// The producer publishes this many bytes.
    Write(usize),
    /// The consumer releases this many bytes.
    Read(usize),
}

impl Cursors {
    /// The pair describes a ring: the capacity is positive, the read cursor has not
    /// passed the write cursor, and no more than `capacity` bytes are in flight.
    pub open spec fn consistent(self) -> bool {
        &&& self.capacity > 0
        &&& self.read <= self.write
        &&& self.write - self.read <= self.capacity
    }

    /// Bytes published and not yet released.
    pub open spec fn occupancy(self) -> int {
        self.write - self.read
    }

    /// Bytes that can still be published before the ring is full.
    pub open spec fn free(self) -> int {
        self.capacity - (self.write - self.read)
    }

    /// Position in storage of the next byte to publish.
    pub open spec fn write_offset(self) -> int {
        (self.write as int) % (self.capacity as int)
    }

    /// Position in storage of the next byte to release.
    pub open spec fn read_offset(self) -> int {
        (self.read as int) % (self.capacity as int)
    }

    /// Length of the longest run of free bytes that starts at the write position
    /// and does not run past the end of storage.
    pub open spec fn space_len(self) -> int {
        if self.free() <= self.capacity - self.write_offset() {
            self.free()
        } else {
            self.capacity - self.write_offset()
        }
    }

    /// Length of the longest run of occupied bytes that starts at the read
    /// position and does not run past the end of storage.
    pub open spec fn data_len(self) -> int {
        if self.occupancy() <= self.capacity - self.read_offset() {
            self.occupancy()
        } else {
            self.capacity - self.read_offset()
        }
    }

    /// The region a producer may fill. An inconsistent pair offers nothing.
    pub open spec fn space(self) -> Region {
        if self.consistent() {
            Region { offset: self.write_offset() as usize, len: self.space_len() as usize }
        } else {
            Region { offset: 0, len: 0 }
        }
    }

    /// The region a consumer may drain. An inconsistent pair offers nothing.
    pub open spec fn data(self) -> Region {
        if self.consistent() {
            Region { offset: self.read_offset() as usize, len: self.data_len() as usize }
        } else {
            Region { offset: 0, len: 0 }
        }
    }

    /// How many of `wanted` bytes a copying write transfers: all of them, or as
    /// many as the space region holds.
    pub open spec fn write_len(self, wanted: int) -> int {
        if wanted <= self.space().len {
            wanted
        } else {
            self.space().len as int
        }
    }

    /// How many bytes a copying read into a buffer of `wanted` bytes transfers:
    /// as many as the buffer takes, or as many as the data region holds.
    pub open spec fn read_len(self, wanted: int) -> int {
        if wanted <= self.data().len {
            wanted
        } else {
            self.data().len as int
        }
    }

    /// Publishing `n` bytes is within the producer's rights: the pair is
    /// consistent, `n` fits in the space region, and the write cursor can count
    /// that far.
    pub open spec fn admits_write(self, n: int) -> bool {
        &&& self.consistent()
        &&& 0 <= n <= self.space_len()
        &&& self.write + n <= u64::MAX
    }

    /// Releasing `n` bytes is within the consumer's rights: the pair is
    /// consistent and `n` fits in the data region.
    pub open spec fn admits_read(self, n: int) -> bool {
        &&& self.consistent()
        &&& 0 <= n <= self.data_len()
    }

    /// The pair after the producer published `n` bytes.
    pub open spec fn after_write(self, n: int) -> Cursors {
        Cursors { capacity: self.capacity, write: (self.write + n) as u64, read: self.read }
    }

    /// The pair after the consumer released `n` bytes.
    pub open spec fn after_read(self, n: int) -> Cursors {
        Cursors { capacity: self.capacity, write: self.write, read: (self.read + n) as u64 }
    }

    /// What a copying write of `wanted` bytes does on this pair: it transfers
    /// [`Self::write_len`] bytes, or fails where the pair does not admit that
    /// commit, which is the case of an inconsistent pair and of a write cursor
    /// that cannot count that far.
    pub open spec fn write_plan(self, wanted: int) -> Result<usize, Error> {
        if self.admits_write(self.write_len(wanted)) {
            Ok(self.write_len(wanted) as usize)
        } else {
            Err(Error::SysError(SysErr::EINVAL))
        }
    }

    /// What a copying read into `wanted` bytes does on this pair: it transfers
    /// [`Self::read_len`] bytes, or fails where the pair is inconsistent.
    pub open spec fn read_plan(self, wanted: int) -> Result<usize, Error> {
        if self.consistent() {
            Ok(self.read_len(wanted) as usize)
        } else {
            Err(Error::SysError(SysErr::EINVAL))
        }
    }

    /// Publishing `n` bytes ends an empty spell: a consumer may be waiting for
    /// data.
    pub open spec fn write_wakes(self, n: int) -> bool {
        self.occupancy() == 0 && n > 0
    }

    /// Releasing `n` bytes ends a full spell: a producer may be waiting for space.
    pub open spec fn read_wakes(self, n: int) -> bool {
        self.free() == 0 && n > 0
    }

    /// Whether `op` is within the rights of the side that makes it.
    pub open spec fn admits(self, op: Commit) -> bool {
        match op {
            Commit::Write(n) => self.admits_write(n as int),
            Commit::Read(n) => self.admits_read(n as int),
        }
    }

    /// The pair after `op`.
    pub open spec fn after(self, op: Commit) -> Cursors {
        match op {
            Commit::Write(n) => self.after_write(n as int),
            Commit::Read(n) => self.after_read(n as int),
        }
    }

    /// Whether each commit of `ops`, made in order, is admitted when it is made.
    pub open spec fn admits_all(self, ops: Seq<Commit>) -> bool
        decreases ops.len(),
    {
        if ops.len() == 0 {
            true
        } else {
            self.admits(ops[0]) && self.after(ops[0]).admits_all(ops.drop_first())
        }
    }

    /// The pair after the commits of `ops`, made in order.
    pub open spec fn after_all(self, ops: Seq<Commit>) -> Cursors
        decreases ops.len(),
    {
        if ops.len() == 0 {
            self
        } else {
            self.after(ops[0]).after_all(ops.drop_first())
        }
    }

    /// The cursor pair of a new ring: nothing published, nothing released.
    pub fn new(capacity: usize) -> (cursors: Cursors)
        requires
            capacity > 0,
        ensures
            cursors == (Cursors { capacity, write: 0, read: 0 }),
            cursors.consistent(),
    {
        Cursors { capacity, write: 0, read: 0 }
    }

    /// Whether the pair describes a ring.
    pub fn is_consistent(&self) -> (ok: bool)
        ensures
            ok == self.consistent(),
    {
        self.capacity > 0 && self.read <= self.write && self.write - self.read
            <= self.capacity as u64
    }

    /// The region a producer may fill: it starts at the write position and holds
    /// the free bytes up to the end of storage, never more.
    pub fn space_region(&self) -> (region: Region)
        ensures
            region == self.space(),
            region.within(self.capacity as int),
            self.consistent() ==> region.offset < self.capacity,
            self.consistent() ==> (region.len == 0 <==> self.free() == 0),
    {
        if !self.is_consistent() {
            return Region { offset: 0, len: 0 };
        }
        proof {
            lemma_regions_lie_in_storage(*self);
        }
        let capacity: u64 = self.capacity as u64;
        let offset: u64 = self.write % capacity;
        let free: u64 = capacity - (self.write - self.read);
        let to_end: u64 = capacity - offset;
        let len: u64 = if free <= to_end {
            free
        } else {
            to_end
        };
        Region { offset: offset as usize, len: len as usize }
    }

    /// The region a consumer may drain: it starts at the read position and holds
    /// the occupied bytes up to the end of storage, never more.
    pub fn data_region(&self) -> (region: Region)
        ensures
            region == self.data(),
            region.within(self.capacity as int),
            self.consistent() ==> region.offset < self.capacity,
            self.consistent() ==> (region.len == 0 <==> self.occupancy() == 0),
    {
        if !self.is_consistent() {
            return Region { offset: 0, len: 0 };
        }
        proof {
            lemma_regions_lie_in_storage(*self);
        }
        let capacity: u64 = self.capacity as u64;
        let offset: u64 = self.read % capacity;
        let occupied: u64 = self.write - self.read;
        let to_end: u64 = capacity - offset;
        let len: u64 = if occupied <= to_end {
            occupied
        } else {
            to_end
        };
        Region { offset: offset as usize, len: len as usize }
    }

    /// Whether the producer may publish `n` bytes.
    pub fn can_write(&self, n: usize) -> (ok: bool)
        ensures
            ok == self.admits_write(n as int),
    {
        let region = self.space_region();
        self.is_consistent() && n <= region.len && n as u64 <= u64::MAX - self.write
    }

    /// Whether the consumer may release `n` bytes.
    pub fn can_read(&self, n: usize) -> (ok: bool)
        ensures
            ok == self.admits_read(n as int),
    {
        let region = self.data_region();
        self.is_consistent() && n <= region.len
    }

    /// What a copying write of `wanted` bytes does on this pair.
    pub fn plan_write(&self, wanted: usize) -> (plan: Result<usize, Error>)
        ensures
            plan == self.write_plan(wanted as int),
            plan matches Ok(n) ==> n <= wanted && n <= self.capacity,
    {
        let region = self.space_region();
        let n: usize = if wanted <= region.len {
            wanted
        } else {
            region.len
        };
        if self.can_write(n) {
            Ok(n)
        } else {
            Err(Error::SysError(SysErr::EINVAL))
        }
    }

    /// What a copying read into `wanted` bytes does on this pair.
    pub fn plan_read(&self, wanted: usize) -> (plan: Result<usize, Error>)
        ensures
            plan == self.read_plan(wanted as int),
            plan matches Ok(n) ==> n <= wanted && n <= self.capacity && self.admits_read(n as int),
    {
        if !self.is_consistent() {
            return Err(Error::SysError(SysErr::EINVAL));
        }
        let region = self.data_region();
        if wanted <= region.len {
            Ok(wanted)
        } else {
            Ok(region.len)
        }
    }

    /// Whether publishing `n` bytes on this pair ends an empty spell.
    pub fn wakes_on_write(&self, n: usize) -> (woke: bool)
        ensures
            woke == self.write_wakes(n as int),
    {
        self.write == self.read && n > 0
    }

    /// Whether releasing `n` bytes on this pair ends a full spell.
    pub fn wakes_on_read(&self, n: usize) -> (woke: bool)
        ensures
            woke == self.read_wakes(n as int),
    {
        self.write >= self.read && self.write - self.read == self.capacity as u64 && n > 0
    }

    /// Publishes `n` bytes: the write cursor grows by `n`. Returns whether the
    /// ring was empty and no longer is.
    pub fn commit_write(&mut self, n: usize) -> (woke: bool)
        requires
            old(self).admits_write(n as int),
        ensures
            *final(self) == old(self).after_write(n as int),
            final(self).consistent(),
            woke == old(self).write_wakes(n as int),
            woke == (old(self).occupancy() == 0 && final(self).occupancy() > 0),
    {
        let woke = self.wakes_on_write(n);
        self.write = self.write + n as u64;
        woke
    }

    /// Releases `n` bytes: the read cursor grows by `n`. Returns whether the ring
    /// was full and no longer is.
    pub fn commit_read(&mut self, n: usize) -> (woke: bool)
        requires
            old(self).admits_read(n as int),
        ensures
            *final(self) == old(self).after_read(n as int),
            final(self).consistent(),
            woke == old(self).read_wakes(n as int),
            woke == (old(self).free() == 0 && final(self).free() > 0),
    {
        let woke = self.wakes_on_read(n);
        self.read = self.read + n as u64;
        woke
    }
}

/// Both regions of a consistent pair lie inside storage and stop at its end at
/// the latest. The space region is empty exactly when the ring is full, the
/// data region exactly when the ring is empty.
pub proof fn lemma_regions_lie_in_storage(c: Cursors)
    requires
        c.consistent(),
    ensures
        0 <= c.write_offset() < c.capacity,
        0 <= c.read_offset() < c.capacity,
        0 <= c.space_len() <= c.free(),
        0 <= c.data_len() <= c.occupancy(),
        c.write_offset() + c.space_len() <= c.capacity,
        c.read_offset() + c.data_len() <= c.capacity,
        c.space().within(c.capacity as int),
        c.data().within(c.capacity as int),
        c.space_len() == 0 <==> c.free() == 0,
        c.data_len() == 0 <==> c.occupancy() == 0,
{
    lemma_position_in_range(c.write as int, c.capacity as int);
    lemma_position_in_range(c.read as int, c.capacity as int);
}

/// A copying write is cut short exactly when it asks for more than the space
/// region holds, and then fills the region. It makes progress whenever the ring
/// is not full, so handing in the remainder again finishes the transfer once
/// the consumer has released enough.
pub proof fn lemma_short_write(c: Cursors, wanted: int)
    requires
        c.consistent(),
        0 <= wanted,
    ensures
        0 <= c.write_len(wanted) <= wanted,
        wanted > c.space_len() ==> c.write_len(wanted) == c.space_len() && c.write_len(wanted)
            < wanted,
        wanted <= c.space_len() ==> c.write_len(wanted) == wanted,
        wanted > 0 && c.free() > 0 ==> c.write_len(wanted) > 0,
{
    lemma_regions_lie_in_storage(c);
}

/// A copying read is cut short exactly when the buffer takes more than the data
/// region holds, and then drains the region. It makes progress whenever the
/// ring is not empty.
pub proof fn lemma_short_read(c: Cursors, wanted: int)
    requires
        c.consistent(),
        0 <= wanted,
    ensures
        0 <= c.read_len(wanted) <= wanted,
        wanted > c.data_len() ==> c.read_len(wanted) == c.data_len() && c.read_len(wanted)
            < wanted,
        wanted <= c.data_len() ==> c.read_len(wanted) == wanted,
        wanted > 0 && c.occupancy() > 0 ==> c.read_len(wanted) > 0,
{
    lemma_regions_lie_in_storage(c);
}

/// An admitted commit leaves the pair consistent, with the occupancy between
/// zero and the capacity.
pub proof fn lemma_commit_keeps_consistent(c: Cursors, op: Commit)
    requires
        c.admits(op),
    ensures
        c.after(op).consistent(),
        0 <= c.after(op).occupancy() <= c.capacity,
{
    lemma_regions_lie_in_storage(c);
}

/// However many admitted commits the two sides make, and in whatever order, the
/// pair is consistent after each of them: the occupancy never leaves
/// `[0, capacity]`.
pub proof fn lemma_occupancy_stays_in_bounds(c: Cursors, ops: Seq<Commit>, k: int)
    requires
        c.consistent(),
        c.admits_all(ops),
        0 <= k <= ops.len(),
    ensures
        c.after_all(ops.take(k)).consistent(),
        0 <= c.after_all(ops.take(k)).occupancy() <= c.capacity,
        c.after_all(ops.take(k)).capacity == c.capacity,
    decreases k,
{
    if k == 0 {
        assert(ops.take(0).len() == 0);
    } else {
        lemma_commit_keeps_consistent(c, ops[0]);
        assert(ops.take(k)[0] == ops[0]);
        assert(ops.take(k).drop_first() =~= ops.drop_first().take(k - 1));
        lemma_occupancy_stays_in_bounds(c.after(ops[0]), ops.drop_first(), k - 1);
    }
}

/// A wake is reported on exactly the commits that cross the boundary: a write
/// wakes when it takes the occupancy from zero to more than zero, a read when it
/// takes the free space from zero to more than zero.
pub proof fn lemma_wake_marks_the_crossing(c: Cursors, n: usize)
    requires
        c.consistent(),
    ensures
        c.admits_write(n as int) ==> (c.write_wakes(n as int) <==> c.occupancy() == 0
            && c.after_write(n as int).occupancy() > 0),
        c.admits_read(n as int) ==> (c.read_wakes(n as int) <==> c.free() == 0 && c.after_read(
            n as int,
        ).free() > 0),
{
    lemma_regions_lie_in_storage(c);
}

} // verus!
