//! Pinning the driver's threads to cores.
//!
//! The driver keeps its producer and its consumer on two fixed cores so that
//! a run measures the ring and not the scheduler. Which cores a process may
//! use is the machine's answer; which of them the two threads take is decided
//! here.
use vstd::prelude::*;

verus! {

/// The place, in the list of cores a process may run on, of the core the
/// producer thread is pinned to.
pub const PRODUCER_CORE_SLOT: usize = 12;

/// The place, in the list of cores a process may run on, of the core the
/// consumer thread is pinned to.
pub const CONSUMER_CORE_SLOT: usize = 14;

/// Core numbers from here on cannot be pinned to: the affinity mask of a
/// thread has a bit for each smaller number and no others.
pub const CORE_LIMIT: usize = 1024;

/// Whether each core number of a list is greater than the one before it.
pub open spec fn ascending(cores: Seq<usize>) -> bool {
    forall|i: int, j: int| 0 <= i < j < cores.len() ==> cores[i] < cores[j]
}

/// Calls `core_affinity::get_core_ids` and hands out the number of each core.
///
/// Which cores are listed depends on the machine and on the affinity of the
/// calling thread, and the call may fail, so nothing is claimed of that. What
/// is claimed is the order: on every system the call knows, it walks the core
/// numbers upwards and lists those it finds, so a list comes out ascending.
#[verifier::external_body]
fn allowed_cores() -> (cores: Option<Vec<usize>>)
    ensures
        cores matches Some(list) ==> ascending(list@),
{
    core_affinity::get_core_ids().map(|ids| ids.iter().map(|core| core.id).collect())
}

/// Calls `core_affinity::set_for_current` with the core of number `core`.
///
/// On Linux the call sets bit `core` in a mask of [`CORE_LIMIT`] bits and
/// panics on a number beyond the mask, which `requires` leaves out. Whether
/// the system then accepts the mask is its own decision: nothing is claimed
/// of the result.
#[verifier::external_body]
fn pin_current_thread(core: usize) -> (pinned: bool)
    requires
        core < CORE_LIMIT,
{
    core_affinity::set_for_current(core_affinity::CoreId { id: core })
}

/// The cores at the producer's and the consumer's slot of a list of cores.
pub open spec fn cores_at_slots(cores: Seq<usize>) -> Option<(usize, usize)> {
    if cores.len() > CONSUMER_CORE_SLOT {
        Some((cores[PRODUCER_CORE_SLOT as int], cores[CONSUMER_CORE_SLOT as int]))
    } else {
        None
    }
}

/// The cores for the producer and the consumer out of the list of cores the
/// process may run on: those at the two slots, if the list reaches that far.
pub fn pick_cores(cores: &Vec<usize>) -> (picked: Option<(usize, usize)>)
    ensures
        picked == cores_at_slots(cores@),
{
    if cores.len() > CONSUMER_CORE_SLOT {
        Some((cores[PRODUCER_CORE_SLOT], cores[CONSUMER_CORE_SLOT]))
    } else {
        None
    }
}

/// The cores to pin the producer and the consumer to on this machine, or
/// `None` where the cores cannot be listed or are too few. The two are the
/// cores at the two slots of the list the machine gave, which is ascending:
/// the producer's core has the smaller number, so the two threads never share
/// a core.
pub fn driver_cores() -> (picked: Option<(usize, usize)>)
    ensures
        picked matches Some(pair) ==> exists|cores: Seq<usize>|
            ascending(cores) && #[trigger] cores_at_slots(cores) == Some(pair),
        picked matches Some((producer, consumer)) ==> producer < consumer,
{
    match allowed_cores() {
        Some(cores) => {
            let picked = pick_cores(&cores);
            assert(picked matches Some(pair) ==> ascending(cores@) && cores_at_slots(cores@)
                == Some(pair));
            picked
        },
        None => None,
    }
}

/// Pins the calling thread to the core of number `core`. Returns whether the
/// system accepted; a number that no affinity mask holds is refused here.
pub fn pin_to_core(core: usize) -> (pinned: bool)
    ensures
        pinned ==> core < CORE_LIMIT,
{
    if core < CORE_LIMIT {
        pin_current_thread(core)
    } else {
        false
    }
}

} // verus!
