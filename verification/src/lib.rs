//! A fixed-capacity byte ring buffer for handing a byte stream from one producer
//! to one consumer.
//!
//! The crate is layered.
//!
//! - [`cursor`] holds the arithmetic on the two monotonic cursors: occupancy,
//!   free space, the contiguous regions and the commits, all as functions of
//!   one observation of the cursor pair. [`modular`] holds the facts about
//!   remainders it rests on.
//! - [`ring`] owns storage and cursors in one place and states the exact
//!   first-in-first-out behaviour of every operation.
//! - [`shared`] is the lock-free ring that a producer thread and a consumer
//!   thread hold clones of. It comes in two instantiations, which differ in the
//!   memory ordering of their cursor accesses as [`policy`] lays down:
//!   [`RingBuf`] with acquire and release, [`RingBufSeq`] sequentially
//!   consistent.
//! - [`transfer`] holds the decisions of a driver that streams fixed-width
//!   items through a ring and checks them on the way out, and [`affinity`] the
//!   choice of the cores its two threads are pinned to.
//! - [`error`] holds the errors of the copying interface.
pub mod affinity;
pub mod cursor;
pub mod error;
pub mod modular;
pub mod policy;
pub mod ring;
pub mod shared;
pub mod transfer;

pub use cursor::{Commit, Cursors, Region};
pub use error::{Error, SysErr};
pub use ring::RingBuffer;
pub use shared::{RingBuf, RingBufSeq, SharedRing};
