//! The reconnect policy for establishing the initial connection.
//!
//! Only opening the connection is retried; a connection lost after bootstrap
//! is never retried here.
use vstd::prelude::*;

verus! {

/// How often, and after how long a wait, a failed connection attempt is retried.
#[derive(Clone, Copy, Debug, PartialEq, Eq, Structural)]
pub struct RetryPolicy {
    /// Number of retries after the first attempt; `None` retries forever.
    pub max_retries: Option<u32>,
    /// Wait before the first retry, in milliseconds.
    pub backoff_unit_ms: u64,
    /// Factor by which each further wait grows.
    pub backoff_factor: u32,
    /// Upper bound of any wait, in milliseconds.
    pub max_backoff_ms: u64,
}

/// What to do after an attempt to connect.
#[derive(Clone, Copy, Debug, PartialEq, Eq, Structural)]
pub enum ConnectStep {
    /// The connection is open: stop.
    Connected,
    /// Wait this many milliseconds, then try again.
    Wait(u64),
    /// No retry is left: surface the last error.
    GiveUp,
}

pub open spec fn pow(base: int, exp: nat) -> int
    decreases exp,
{
    if exp == 0 {
        1
    } else {
        base * pow(base, (exp - 1) as nat)
    }
}

pub open spec fn min_int(a: int, b: int) -> int {
    if a <= b {
        a
    } else {
        b
    }
}

/// The wait after failed attempt number `attempt` (counted from zero):
/// `min(backoff_unit * backoff_factor^attempt, max_backoff)`.
pub open spec fn backoff_spec(policy: RetryPolicy, attempt: nat) -> int {
    min_int(
        policy.backoff_unit_ms as int * pow(policy.backoff_factor as int, attempt),
        policy.max_backoff_ms as int,
    )
}

proof fn lemma_pow_nonneg(base: int, exp: nat)
    requires
        base >= 0,
    ensures
        pow(base, exp) >= 0,
    decreases exp,
{
    if exp > 0 {
        lemma_pow_nonneg(base, (exp - 1) as nat);
        assert(base * pow(base, (exp - 1) as nat) >= 0) by (nonlinear_arith)
            requires
                base >= 0,
                pow(base, (exp - 1) as nat) >= 0,
        ;
    }
}

/// The wait, in milliseconds, after failed attempt number `attempt` (from zero).
pub fn backoff_delay(policy: &RetryPolicy, attempt: u32) -> (r: u64)
    ensures
        r as int == backoff_spec(*policy, attempt as nat),
{
    let unit = policy.backoff_unit_ms as u128;
    let factor = policy.backoff_factor as u128;
    let max = policy.max_backoff_ms as u128;
    if factor == 0 {
        proof {
            if attempt > 0 {
                assert(pow(0, attempt as nat) == 0 * pow(0, (attempt - 1) as nat));
            }
        }
        if attempt == 0 {
            return if unit <= max {
                unit as u64
            } else {
                max as u64
            };
        } else {
            return 0;
        }
    }
    // `cur` is the exact product while it stays within `max`, else `max + 1`.
    let mut cur: u128 = if unit <= max {
        unit
    } else {
        max + 1
    };
    let mut i: u32 = 0;
    while i < attempt
        invariant
            i <= attempt,
            1 <= factor <= u32::MAX,
            unit == policy.backoff_unit_ms,
            factor == policy.backoff_factor,
            max == policy.max_backoff_ms,
            cur as int == min_int(unit as int * pow(factor as int, i as nat), max as int + 1),
        decreases attempt - i,
    {
        let ghost exact = unit as int * pow(factor as int, i as nat);
        proof {
            lemma_pow_nonneg(factor as int, i as nat);
            assert(unit as int * pow(factor as int, (i + 1) as nat) == exact * factor) by {
                assert(pow(factor as int, (i + 1) as nat) == factor * pow(factor as int, i as nat));
                assert(unit as int * (factor * pow(factor as int, i as nat)) == (unit as int * pow(
                    factor as int,
                    i as nat,
                )) * factor) by (nonlinear_arith);
            }
            assert(exact >= 0) by (nonlinear_arith)
                requires
                    unit >= 0,
                    pow(factor as int, i as nat) >= 0,
                    exact == unit as int * pow(factor as int, i as nat),
            ;
            if exact > max {
                assert(exact * factor >= exact) by (nonlinear_arith)
                    requires
                        factor >= 1,
                        exact >= 0,
                ;
                assert((max + 1) * factor >= max + 1) by (nonlinear_arith)
                    requires
                        factor >= 1,
                        max >= 0,
                ;
            } else {
                assert(cur == exact);
            }
            assert(cur * factor <= (max + 1) * factor) by (nonlinear_arith)
                requires
                    cur <= max + 1,
                    factor >= 0,
            ;
            assert((max + 1) * factor <= (u64::MAX as int + 1) * (u32::MAX as int)) by (nonlinear_arith)
                requires
                    max + 1 <= u64::MAX as int + 1,
                    0 <= factor <= u32::MAX as int,
            ;
        }
        let next = cur * factor;
        cur = if next <= max {
            next
        } else {
            max + 1
        };
        i = i + 1;
    }
    if cur <= max {
        cur as u64
    } else {
        max as u64
    }
}

/// Attempts to open the connection, as the retry policy allows them.
pub struct Reconnect {
    policy: Option<RetryPolicy>,
    failures: u32,
}

impl Reconnect {
    pub closed spec fn policy_spec(&self) -> Option<RetryPolicy> {
        self.policy
    }

    /// Failed attempts so far.
    pub closed spec fn failures_spec(&self) -> nat {
        self.failures as nat
    }

    /// A fresh budget; without a policy a single attempt is made.
    pub fn new(policy: Option<RetryPolicy>) -> (r: Reconnect)
        ensures
            r.policy_spec() == policy,
            r.failures_spec() == 0,
    {
        Reconnect { policy, failures: 0 }
    }

    pub fn failures(&self) -> (r: u32)
        ensures
            r as nat == self.failures_spec(),
    {
        self.failures
    }

    /// Records the outcome of one attempt and says what to do next. After
    /// the `n`-th failure another attempt follows when the policy allows `n`
    /// retries, after the wait of attempt `n - 1`. The count of failures
    /// stops at `u32::MAX`, past every bound a policy can set.
    pub fn on_attempt(&mut self, connected: bool) -> (r: ConnectStep)
        ensures
            final(self).policy_spec() == old(self).policy_spec(),
            connected ==> r == ConnectStep::Connected && final(self).failures_spec()
                == old(self).failures_spec(),
            !connected ==> final(self).failures_spec() == if old(self).failures_spec() < u32::MAX {
                old(self).failures_spec() + 1
            } else {
                old(self).failures_spec()
            },
            !connected ==> r == match old(self).policy_spec() {
                None => ConnectStep::GiveUp,
                Some(p) => if p.max_retries matches Some(m) && old(self).failures_spec() + 1 > m {
                    ConnectStep::GiveUp
                } else {
                    ConnectStep::Wait(backoff_spec(p, old(self).failures_spec()) as u64)
                },
            },
    {
        if connected {
            return ConnectStep::Connected;
        }
        let before = self.failures;
        if self.failures < u32::MAX {
            self.failures = self.failures + 1;
        }
        match &self.policy {
            None => ConnectStep::GiveUp,
            Some(p) => {
                let allowed = match p.max_retries {
                    None => true,
                    Some(m) => before < m,
                };
                if allowed {
                    ConnectStep::Wait(backoff_delay(p, before))
                } else {
                    ConnectStep::GiveUp
                }
            },
        }
    }
}

} // verus!
