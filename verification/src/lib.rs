//! Process-scoped registry of synchronization objects.
//!
//! Threads of one process create mutexes, counting semaphores and condition
//! variables through a slot table, and the registry keeps a ledger of which
//! thread holds or awaits which resource.  When deadlock detection is enabled,
//! a blocking request is first checked: a mutex lock request walks the
//! wait-for chain looking for a cycle, and a semaphore down request runs a
//! multi-instance safety pass over current holdings.  A request that would
//! provably deadlock is refused with a sentinel instead of blocking.
//!
//! The registry never blocks by itself: the underlying blocking primitives,
//! the scheduler and the timer are outside collaborators.  A caller records a
//! request here, delegates the actual blocking elsewhere, and reports the
//! grant back to the registry.
use vstd::prelude::*;

pub mod ledger;
pub mod state;
pub mod mutex_detect;
pub mod sem_detect;
pub mod syscalls;
pub mod laws;

verus! {

/// Success return of every syscall-style operation.
pub const OK_RC: isize = 0;

/// Returned by a blocking request that would provably deadlock the process.
pub const DEADLOCK_RC: isize = -0xdead;

/// Returned when an argument lies outside its defined sentinels.
pub const INVALID_ARG_RC: isize = -1;

/// Returned when a resource id is out of range or names a free slot.
pub const INVALID_HANDLE_RC: isize = -2;

/// Returned when a resource cannot be freed because it is held or awaited.
pub const BUSY_RC: isize = -3;

} // verus!
