//! Checkout order for a fixed pool of pre-established connections:
//! a monotonically increasing counter taken modulo the pool size.
//! No health check, no backoff, no growth.

use vstd::prelude::*;

verus! {

/// The round-robin cursor.  The pool's connections themselves live with
/// whoever performs the I/O; this decides which one each call uses.
#[derive(Debug)]
pub struct PoolCursor {
    pub next: u64,
}

impl PoolCursor {
    pub fn new() -> (r: Self)
        ensures
            r.next == 0,
    {
        PoolCursor { next: 0 }
    }

    /// The index to check out of a pool of `pool_size` connections, or
    /// nothing when the pool is empty.  The counter advances on every
    /// call, wrapping at its maximum rather than failing.
    pub fn pick(&mut self, pool_size: usize) -> (r: Option<usize>)
        ensures
            pool_size == 0 ==> r is None && *final(self) == *old(self),
            pool_size > 0 ==> r == Some((old(self).next % (pool_size as u64)) as usize)
                && final(self).next == if old(self).next == u64::MAX {
                0u64
            } else {
                (old(self).next + 1) as u64
            },
    {
        if pool_size == 0 {
            return None;
        }
        let idx = (self.next % (pool_size as u64)) as usize;
        self.next = if self.next == u64::MAX {
            0
        } else {
            self.next + 1
        };
        Some(idx)
    }
}

} // verus!
