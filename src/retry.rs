use vstd::prelude::*;

verus! {

/// `base` doubled `n` times.
pub open spec fn doubled(base: nat, n: nat) -> nat
    decreases n,
{
    if n == 0 {
        base
    } else {
        2 * doubled(base, (n - 1) as nat)
    }
}

pub open spec fn capped(x: nat) -> u64 {
    if x > u64::MAX {
        u64::MAX
    } else {
        x as u64
    }
}

/// How a failed write of points is retried before its message is rejected:
/// at most `max_attempts` attempts in all, waiting `base_delay_ms` before the
/// second and twice as long before each next one.
#[derive(PartialEq, Eq, Structural, Clone, Copy, Debug)]
pub struct RetryPolicy {
    pub max_attempts: u32,
    pub base_delay_ms: u64,
}

proof fn lemma_doubled_grows(base: nat, n: nat)
    ensures
        doubled(base, n + 1) >= doubled(base, n),
        doubled(base, n + 1) == 2 * doubled(base, n),
{
}

impl RetryPolicy {
    /// After `failed` failed attempts: the wait in milliseconds before the
    /// next attempt, or `None` when no attempt is left. The wait doubles with
    /// each failure and stops at `u64::MAX`.
    pub fn delay_after(&self, failed: u32) -> (r: Option<u64>)
        ensures
            r == if failed == 0 || failed >= self.max_attempts {
                None::<u64>
            } else {
                Some(capped(doubled(self.base_delay_ms as nat, (failed - 1) as nat)))
            },
    {
        if failed == 0 || failed >= self.max_attempts {
            return None;
        }
        let mut d: u64 = self.base_delay_ms;
        let mut i: u32 = 1;
        while i < failed
            invariant
                1 <= i <= failed,
                d == capped(doubled(self.base_delay_ms as nat, (i - 1) as nat)),
            decreases failed - i,
        {
            proof {
                lemma_doubled_grows(self.base_delay_ms as nat, (i - 1) as nat);
            }
            d = if d > u64::MAX / 2 {
                u64::MAX
            } else {
                d * 2
            };
            i = i + 1;
        }
        Some(d)
    }
}

} // verus!
