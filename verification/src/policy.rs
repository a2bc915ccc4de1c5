//! The memory-ordering policy of the shared ring.
//!
//! The two instantiations of the shared ring run the same steps and differ
//! only in how strongly their cursor accesses are ordered. The relaxed one
//! stores a cursor with release and loads it with acquire ordering: enough for
//! the bytes written before a commit to be visible to whoever observes the
//! commit. The strict one makes every cursor access sequentially consistent,
//! which puts all of them, from both threads, in one total order. Storage bytes
//! are always accessed relaxed; the cursors publish them.
use vstd::prelude::*;
use std::sync::atomic::{AtomicU64, AtomicU8, Ordering};

verus! {

/// How a cursor load is ordered.
#[derive(Clone, Copy, Debug, PartialEq, Eq, Structural)]
pub enum LoadOrder {
    /// Acquire: sees everything written before the release store it reads from.
    Acquire,
    /// Sequentially consistent.
    SeqCst,
}

/// How a cursor store is ordered.
#[derive(Clone, Copy, Debug, PartialEq, Eq, Structural)]
pub enum StoreOrder {
    /// Release: publishes everything written before it.
    Release,
    /// Sequentially consistent.
    SeqCst,
}

/// The ordering of cursor loads in the strict or the relaxed instantiation.
pub open spec fn load_order_of(strict: bool) -> LoadOrder {
    if strict {
        LoadOrder::SeqCst
    } else {
        LoadOrder::Acquire
    }
}

/// The ordering of cursor stores in the strict or the relaxed instantiation.
pub open spec fn store_order_of(strict: bool) -> StoreOrder {
    if strict {
        StoreOrder::SeqCst
    } else {
        StoreOrder::Release
    }
}

/// The ordering of cursor loads in the strict or the relaxed instantiation.
pub fn load_order(strict: bool) -> (order: LoadOrder)
    ensures
        order == load_order_of(strict),
{
    if strict {
        LoadOrder::SeqCst
    } else {
        LoadOrder::Acquire
    }
}

/// The ordering of cursor stores in the strict or the relaxed instantiation.
pub fn store_order(strict: bool) -> (order: StoreOrder)
    ensures
        order == store_order_of(strict),
{
    if strict {
        StoreOrder::SeqCst
    } else {
        StoreOrder::Release
    }
}

/// Loads a cursor. Another thread may advance it at any time, so nothing is
/// known of the value.
pub(crate) fn load_cursor(cursor: &AtomicU64, order: LoadOrder) -> u64 {
    match order {
        LoadOrder::Acquire => cursor.load(Ordering::Acquire),
        LoadOrder::SeqCst => cursor.load(Ordering::SeqCst),
    }
}

/// Stores a cursor.
pub(crate) fn store_cursor(cursor: &AtomicU64, value: u64, order: StoreOrder) {
    match order {
        StoreOrder::Release => cursor.store(value, Ordering::Release),
        StoreOrder::SeqCst => cursor.store(value, Ordering::SeqCst),
    }
}

/// Loads a storage byte.
pub(crate) fn load_byte(cell: &AtomicU8) -> u8 {
    cell.load(Ordering::Relaxed)
}

/// Stores a storage byte.
pub(crate) fn store_byte(cell: &AtomicU8, byte: u8) {
    cell.store(byte, Ordering::Relaxed)
}

} // verus!
