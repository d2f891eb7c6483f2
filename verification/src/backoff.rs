//! How long a host that refuses a move is left alone.

use vstd::arithmetic::power2;
use vstd::prelude::*;

verus! {

/// Nanoseconds in one second of the monotonic clock.
pub const SECOND: u64 = 1_000_000_000;

/// Dead time after one externally requested move fails.
pub const REQUEST_BACKOFF_BASE: u64 = 2 * SECOND;

/// Ceiling for the doubling below, so a permanently deaf host still gets
/// retried when the user asks again minutes later.
pub const REQUEST_BACKOFF_MAX: u64 = 60 * SECOND;

/// Doublings applied to [`REQUEST_BACKOFF_BASE`] before the ceiling bites.
pub const REQUEST_BACKOFF_DOUBLINGS: u32 = 5;

/// Consecutive-failure throttle for externally requested host moves.
///
/// A host that will not accept the switch must not cost a fresh exclusive
/// receiver lease on every ask. Each consecutive failure doubles the dead time
/// before another attempt is allowed; a success, or a finished ask for a
/// different host, clears it.
#[derive(Debug, Clone, Copy, PartialEq, Eq)]
pub struct RequestBackoff {
    /// The host the failures below belong to.
    pub host: Option<u8>,
    /// Consecutive failed asks for that host.
    pub failures: u32,
    /// When the host may be tried again, in nanoseconds.
    pub blocked_until: Option<u64>,
}

/// The dead time owed after a run of `failures` consecutive failures: the base
/// doubled once for each failure after the first, five times at most, and
/// never longer than the ceiling.
pub open spec fn dead_time(failures: nat) -> int
    recommends
        failures > 0,
{
    let doublings = if failures > 6 {
        5nat
    } else {
        (failures - 1) as nat
    };
    let wanted = REQUEST_BACKOFF_BASE * power2::pow2(doublings);
    if wanted < REQUEST_BACKOFF_MAX {
        wanted
    } else {
        REQUEST_BACKOFF_MAX as int
    }
}

/// The length of a run of failures once one more is added. The counter stops
/// at its largest value.
pub open spec fn one_more_failure(failures: u32) -> u32 {
    if failures < u32::MAX {
        (failures + 1) as u32
    } else {
        u32::MAX
    }
}

impl Default for RequestBackoff {
    fn default() -> (backoff: Self)
        ensures
            backoff == RequestBackoff::idle(),
    {
        RequestBackoff { host: None, failures: 0, blocked_until: None }
    }
}

impl RequestBackoff {
    /// Nothing failed yet.
    pub open spec fn idle() -> RequestBackoff {
        RequestBackoff { host: None, failures: 0, blocked_until: None }
    }

    /// Whether an ask for `host` is refused at `now`.
    pub open spec fn refuses(self, host: u8, now: int) -> bool {
        &&& self.host == Some(host)
        &&& self.blocked_until matches Some(until) && now < until
    }

    /// The run of failures that an ask for `host` continues.
    pub open spec fn run_for(self, host: u8) -> u32 {
        if self.host == Some(host) {
            self.failures
        } else {
            0
        }
    }

    /// The throttle once an ask for `host` has ended at `now`.
    pub open spec fn recorded(self, host: u8, failed: bool, now: int) -> RequestBackoff {
        if failed {
            let failures = one_more_failure(self.run_for(host));
            RequestBackoff {
                host: Some(host),
                failures,
                blocked_until: Some((now + dead_time(failures as nat)) as u64),
            }
        } else {
            RequestBackoff { host: Some(host), failures: 0, blocked_until: None }
        }
    }

    /// Whether an ask for `host` must be refused at `now`.
    #[must_use]
    pub fn blocks(&self, host: u8, now: u64) -> (blocked: bool)
        ensures
            blocked == self.refuses(host, now as int),
    {
        match (self.host, self.blocked_until) {
            (Some(refusing), Some(until)) => refusing == host && now < until,
            _ => false,
        }
    }

    /// Charge or clear the throttle for an ask that has ended.
    pub fn record(&mut self, host: u8, failed: bool, now: u64)
        requires
            now + REQUEST_BACKOFF_MAX <= u64::MAX,
        ensures
            *final(self) == old(self).recorded(host, failed, now as int),
    {
        let continues = match self.host {
            Some(held) => held == host,
            None => false,
        };
        if !continues {
            self.host = Some(host);
            self.failures = 0;
        }
        if !failed {
            self.failures = 0;
            self.blocked_until = None;
            return ;
        }
        self.failures = self.failures.saturating_add(1);
        let extra: u32 = self.failures.saturating_sub(1);
        let doublings: u32 = if extra < REQUEST_BACKOFF_DOUBLINGS {
            extra
        } else {
            REQUEST_BACKOFF_DOUBLINGS
        };
        let mut delay: u64 = REQUEST_BACKOFF_BASE;
        let mut doubled: u32 = 0;
        proof {
            power2::lemma2_to64();
        }
        while doubled < doublings
            invariant
                doubled <= doublings <= 5,
                delay == REQUEST_BACKOFF_BASE * power2::pow2(doubled as nat),
                delay <= REQUEST_BACKOFF_BASE * 32,
            decreases doublings - doubled,
        {
            proof {
                power2::lemma2_to64();
                let power = power2::pow2(doubled as nat);
                let next = power2::pow2((doubled + 1) as nat);
                assert(delay * 2 == REQUEST_BACKOFF_BASE * next && delay * 2
                    <= REQUEST_BACKOFF_BASE * 32) by (nonlinear_arith)
                    requires
                        delay == REQUEST_BACKOFF_BASE * power,
                        next == 2 * power,
                        next <= 32,
                ;
            }
            delay = delay * 2;
            doubled = doubled + 1;
        }
        let delay: u64 = if delay < REQUEST_BACKOFF_MAX {
            delay
        } else {
            REQUEST_BACKOFF_MAX
        };
        self.blocked_until = Some(now + delay);
    }
}

/// The first failure costs the base dead time, each further one doubles what
/// the one before cost, and the ceiling is never passed.
pub proof fn law_each_failure_doubles_the_dead_time_up_to_the_ceiling(failures: nat)
    requires
        failures > 0,
    ensures
        dead_time(1) == REQUEST_BACKOFF_BASE,
        dead_time(failures) <= REQUEST_BACKOFF_MAX,
        dead_time(failures + 1) == if 2 * dead_time(failures) < REQUEST_BACKOFF_MAX {
            2 * dead_time(failures)
        } else {
            REQUEST_BACKOFF_MAX as int
        },
{
    power2::lemma2_to64();
    assert(failures >= 6 || failures == 5 || failures == 4 || failures == 3 || failures == 2
        || failures == 1);
}

/// A failed ask blocks its host until the dead time is over, and no longer. No
/// other host is blocked by it.
pub proof fn law_a_failure_blocks_only_the_refusing_host(
    backoff: RequestBackoff,
    host: u8,
    other: u8,
    now: u64,
    at: int,
)
    requires
        now + REQUEST_BACKOFF_MAX <= u64::MAX,
    ensures
        backoff.recorded(host, true, now as int).refuses(host, at) <==> at < now + dead_time(
            one_more_failure(backoff.run_for(host)) as nat,
        ),
        other != host ==> !backoff.recorded(host, true, now as int).refuses(other, at),
{
    power2::lemma2_to64();
    assert(0 <= dead_time(one_more_failure(backoff.run_for(host)) as nat) <= REQUEST_BACKOFF_MAX);
}

/// A host that fails is left alone for at least two seconds and at most one
/// minute. The first failure of a run costs two seconds, the second four, then
/// eight, sixteen and thirty-two, and every further one a minute.
pub proof fn law_a_failure_is_left_alone_for_its_dead_time(
    backoff: RequestBackoff,
    host: u8,
    now: u64,
)
    requires
        now + 60_000_000_000 <= u64::MAX,
    ensures
        ({
            let run = if backoff.host == Some(host) {
                backoff.failures as int
            } else {
                0
            };
            let after = backoff.recorded(host, true, now as int);
            let seconds = if run == 0 {
                2
            } else if run == 1 {
                4
            } else if run == 2 {
                8
            } else if run == 3 {
                16
            } else if run == 4 {
                32
            } else {
                60int
            };
            &&& after.host == Some(host)
            &&& after.failures == if run < u32::MAX {
                run + 1
            } else {
                run
            }
            &&& after.blocked_until matches Some(until)
            &&& until == now + seconds * 1_000_000_000
        }),
{
    power2::lemma2_to64();
    let failures = one_more_failure(backoff.run_for(host));
    assert(dead_time(failures as nat) <= 60_000_000_000);
}

/// An ask is refused exactly while its own host is being left alone.
pub proof fn law_only_the_failing_host_is_refused(backoff: RequestBackoff, host: u8, now: int)
    ensures
        backoff.refuses(host, now) <==> (backoff.host == Some(host) && backoff.blocked_until is Some
            && now < backoff.blocked_until->0),
{
}

/// A success clears the throttle, for every host.
pub proof fn law_a_success_clears_the_throttle(
    backoff: RequestBackoff,
    host: u8,
    now: u64,
    asked: u8,
    at: int,
)
    ensures
        !backoff.recorded(host, false, now as int).refuses(asked, at),
        backoff.recorded(host, false, now as int).run_for(asked) == 0,
{
}

/// An ask that ends for a different host starts that host's run afresh and
/// lifts the block of the host before it.
pub proof fn law_a_different_host_starts_afresh(
    backoff: RequestBackoff,
    host: u8,
    failed: bool,
    now: u64,
    held: u8,
    at: int,
)
    requires
        backoff.host == Some(held),
        held != host,
    ensures
        !backoff.recorded(host, failed, now as int).refuses(held, at),
        failed ==> backoff.recorded(host, failed, now as int).failures == 1,
{
}

} // verus!
