//! Wait strategies: what a blocked side does between two looks at the ring.
//!
//! `BusySpin`, `Backoff` and `BackoffYield` wake by themselves, so the other side pays
//! nothing for them. `Park` sleeps until the other side wakes it through the notify
//! layer (`crate::notify`).

use vstd::prelude::*;

verus! {

/// How a blocked side (consumer on an empty ring, producer on a full one) waits.
#[derive(Debug, Clone, Copy, PartialEq, Eq, Hash, Structural)]
pub enum WaitStrategy {
    /// Spins until there is progress: lowest latency, one core per blocked side.
    BusySpin,
    /// Spins, then yields, then sleeps for a time that doubles from 64 microseconds up to
    /// one millisecond. Wakes by itself.
    Backoff,
    /// Spins, then yields for as long as it takes; never sleeps.
    BackoffYield,
    /// Sleeps until the other side wakes it. The productive side pays for a wake on every
    /// operation.
    Park,
}

/// One act of waiting, to be performed by the waiting thread.
#[derive(Debug, Clone, Copy, PartialEq, Eq, Hash, Structural)]
pub enum Rung {
    /// One spin-loop hint.
    Spin,
    /// Give the rest of the time slice away.
    Yield,
    /// Sleep for this many microseconds.
    ParkFor(u64),
    /// Sleep until woken.
    Park,
}

/// How far one run of a blocking operation came.
#[derive(Debug, PartialEq, Eq)]
pub enum Turn<R> {
    /// The operation is over, and this is what it returns.
    Done(R),
    /// The operation cannot go on yet: perform this and resume it.
    Wait(Rung),
}

/// Rungs of the ladder that spin.
pub const SPINS: u32 = 10;

/// Rungs of the ladder that yield, above those that spin.
pub const YIELDS: u32 = 20;

/// The first sleep of the ladder, in microseconds. An operating system's timer cannot
/// deliver much shorter ones, and a ladder that started below it would have several equal
/// rungs.
pub const PARK_MIN: u64 = 64;

/// The longest sleep of the ladder, in microseconds.
pub const PARK_MAX: u64 = 1000;

/// How far up the ladder one blocking operation has climbed.
#[derive(Debug, Clone, Copy, PartialEq, Eq, Hash)]
pub struct Idle {
    /// Rungs taken so far.
    pub step: u32,
    /// The next sleep, in microseconds.
    pub park: u64,
    /// Yield for ever above the spinning rungs, and never sleep.
    pub yield_only: bool,
}

impl WaitStrategy {
    /// What a blocked side does next under this strategy, from where it stands on the ladder.
    pub open spec fn rung(self, idle: Idle) -> Rung {
        match self {
            WaitStrategy::BusySpin => Rung::Spin,
            WaitStrategy::Backoff | WaitStrategy::BackoffYield => idle.rung(),
            WaitStrategy::Park => Rung::Park,
        }
    }

    /// Where a blocked side stands on the ladder after that: only two strategies climb it.
    pub open spec fn up(self, idle: Idle) -> Idle {
        match self {
            WaitStrategy::Backoff | WaitStrategy::BackoffYield => idle.up(),
            _ => idle,
        }
    }

    /// What a blocked side does next under this strategy.
    pub fn choose_rung(self, idle: &Idle) -> (rung: Rung)
        ensures
            rung == self.rung(*idle),
    {
        match self {
            WaitStrategy::BusySpin => Rung::Spin,
            WaitStrategy::Backoff | WaitStrategy::BackoffYield => idle.peek(),
            WaitStrategy::Park => Rung::Park,
        }
    }

    /// Climbs the ladder, under a strategy that does.
    pub fn climb(self, idle: &mut Idle)
        requires
            old(idle).wf(),
        ensures
            *final(idle) == self.up(*old(idle)),
            final(idle).wf(),
    {
        match self {
            WaitStrategy::Backoff | WaitStrategy::BackoffYield => {
                idle.idle();
            },
            _ => {},
        }
    }
}

impl Idle {
    /// Sleeps stay between the shortest and the longest.
    pub open spec fn wf(self) -> bool {
        PARK_MIN <= self.park <= PARK_MAX
    }

    /// What to do on this rung.
    pub open spec fn rung(self) -> Rung {
        if self.step < SPINS {
            Rung::Spin
        } else if self.yield_only || self.step < SPINS + YIELDS {
            Rung::Yield
        } else {
            Rung::ParkFor(self.park)
        }
    }

    /// The ladder one rung up: a rung that sleeps doubles the next sleep, up to the longest.
    pub open spec fn up(self) -> Idle {
        Idle {
            step: if self.step == u32::MAX {
                u32::MAX
            } else {
                (self.step + 1) as u32
            },
            park: if self.rung() is ParkFor {
                if self.park * 2 < PARK_MAX {
                    (self.park * 2) as u64
                } else {
                    PARK_MAX
                }
            } else {
                self.park
            },
            yield_only: self.yield_only,
        }
    }

    /// The foot of the ladder for `strategy`.
    pub open spec fn start(strategy: WaitStrategy) -> Idle {
        Idle { step: 0, park: PARK_MIN, yield_only: strategy == WaitStrategy::BackoffYield }
    }

    /// The ladder `n` rungs above its foot.
    pub open spec fn climbed(strategy: WaitStrategy, n: nat) -> Idle
        decreases n,
    {
        if n == 0 {
            Idle::start(strategy)
        } else {
            Idle::climbed(strategy, (n - 1) as nat).up()
        }
    }

    /// The foot of the ladder that sleeps.
    pub fn new() -> (idle: Self)
        ensures
            idle == Idle::start(WaitStrategy::Backoff),
            idle.wf(),
    {
        Idle { step: 0, park: PARK_MIN, yield_only: false }
    }

    /// The foot of the ladder that belongs to `strategy`. `BusySpin` and `Park` never climb
    /// it and get the one that sleeps.
    pub fn for_strategy(strategy: WaitStrategy) -> (idle: Self)
        ensures
            idle == Idle::start(strategy),
            idle.wf(),
    {
        let idle = Idle::new();
        Idle { yield_only: strategy == WaitStrategy::BackoffYield, ..idle }
    }

    /// Takes one rung: returns what to do on it and moves up.
    pub fn idle(&mut self) -> (rung: Rung)
        requires
            old(self).wf(),
        ensures
            rung == old(self).rung(),
            *final(self) == old(self).up(),
            final(self).wf(),
    {
        let rung = self.peek();
        if let Rung::ParkFor(_) = rung {
            self.park = if self.park * 2 < PARK_MAX {
                self.park * 2
            } else {
                PARK_MAX
            };
        }
        self.step = self.step.saturating_add(1);
        rung
    }

    /// What the next rung is, without taking it.
    pub fn peek(&self) -> (rung: Rung)
        ensures
            rung == self.rung(),
    {
        if self.step < SPINS {
            Rung::Spin
        } else if self.yield_only || self.step < SPINS + YIELDS {
            Rung::Yield
        } else {
            Rung::ParkFor(self.park)
        }
    }
}

/// The length, in microseconds, of the `k`-th sleep of the ladder: twice the one before, up
/// to the longest.
pub open spec fn sleep(k: nat) -> int
    decreases k,
{
    if k == 0 {
        PARK_MIN as int
    } else if sleep((k - 1) as nat) * 2 < PARK_MAX {
        sleep((k - 1) as nat) * 2
    } else {
        PARK_MAX as int
    }
}

/// Where `n` rungs bring a ladder.
proof fn lemma_climbed(strategy: WaitStrategy, n: nat)
    ensures
        ({
            let idle = Idle::climbed(strategy, n);
            let parks = SPINS + YIELDS;
            &&& idle.wf()
            &&& idle.yield_only == (strategy == WaitStrategy::BackoffYield)
            &&& idle.step == if n < u32::MAX {
                n as int
            } else {
                u32::MAX as int
            }
            &&& idle.park == if idle.yield_only || n <= parks {
                PARK_MIN as int
            } else {
                sleep((n - parks) as nat)
            }
        }),
    decreases n,
{
    reveal_with_fuel(sleep, 2);
    if n > 0 {
        lemma_climbed(strategy, (n - 1) as nat);
    }
}

/// The sleeping ladder spins `SPINS` times, then yields `YIELDS` times, then sleeps: 64
/// microseconds first, doubling, and never more than a millisecond.
pub proof fn law_backoff_spins_yields_then_sleeps(n: nat)
    ensures
        n < SPINS ==> Idle::climbed(WaitStrategy::Backoff, n).rung() == Rung::Spin,
        SPINS <= n < SPINS + YIELDS ==> Idle::climbed(WaitStrategy::Backoff, n).rung()
            == Rung::Yield,
        n >= SPINS + YIELDS ==> Idle::climbed(WaitStrategy::Backoff, n).rung() == Rung::ParkFor(
            sleep((n - SPINS - YIELDS) as nat) as u64,
        ),
        n >= SPINS + YIELDS ==> PARK_MIN <= sleep((n - SPINS - YIELDS) as nat) <= PARK_MAX,
{
    lemma_climbed(WaitStrategy::Backoff, n);
}

/// The yielding ladder spins `SPINS` times, then yields on every rung: it never sleeps, and
/// its sleep never lengthens.
pub proof fn law_backoff_yield_never_sleeps(n: nat)
    ensures
        Idle::climbed(WaitStrategy::BackoffYield, n).rung() == if n < SPINS {
            Rung::Spin
        } else {
            Rung::Yield
        },
        Idle::climbed(WaitStrategy::BackoffYield, n).park == PARK_MIN,
{
    lemma_climbed(WaitStrategy::BackoffYield, n);
}

/// The `k`-th sleep lasts 64 microseconds, doubled `k` times, or a millisecond if that is less.
pub proof fn law_sleeps_double_up_to_a_millisecond(k: nat)
    ensures
        sleep(k) == if 64 * vstd::arithmetic::power2::pow2(k) < 1000 {
            64 * vstd::arithmetic::power2::pow2(k)
        } else {
            1000
        },
    decreases k,
{
    if k == 0 {
        vstd::arithmetic::power2::lemma2_to64();
    } else {
        law_sleeps_double_up_to_a_millisecond((k - 1) as nat);
        vstd::arithmetic::power2::lemma_pow2_unfold(k);
    }
}

/// What a blocked side does on its `k`-th wait in one operation, counted from zero.
pub open spec fn kth_wait(strategy: WaitStrategy, k: nat) -> Rung {
    match strategy {
        WaitStrategy::BusySpin => Rung::Spin,
        WaitStrategy::Backoff => if k < SPINS {
            Rung::Spin
        } else if k < SPINS + YIELDS {
            Rung::Yield
        } else {
            Rung::ParkFor(sleep((k - SPINS - YIELDS) as nat) as u64)
        },
        WaitStrategy::BackoffYield => if k < SPINS {
            Rung::Spin
        } else {
            Rung::Yield
        },
        WaitStrategy::Park => Rung::Park,
    }
}

/// The waits of one operation, strategy by strategy: `BusySpin` always spins and `Park` always
/// sleeps until woken; the other two spin ten times, and then `BackoffYield` yields for ever,
/// and `Backoff` yields twenty times and then sleeps for 64 microseconds, doubled from one
/// sleep to the next, and never for more than a millisecond.
pub proof fn law_waits_of_each_strategy(k: nat)
    ensures
        kth_wait(WaitStrategy::BusySpin, k) == Rung::Spin,
        kth_wait(WaitStrategy::Park, k) == Rung::Park,
        k < 10 ==> kth_wait(WaitStrategy::BackoffYield, k) == Rung::Spin,
        k >= 10 ==> kth_wait(WaitStrategy::BackoffYield, k) == Rung::Yield,
        k < 10 ==> kth_wait(WaitStrategy::Backoff, k) == Rung::Spin,
        10 <= k < 30 ==> kth_wait(WaitStrategy::Backoff, k) == Rung::Yield,
        k >= 30 ==> {
            &&& kth_wait(WaitStrategy::Backoff, k) is ParkFor
            &&& kth_wait(WaitStrategy::Backoff, k)->ParkFor_0
                == if 64 * vstd::arithmetic::power2::pow2((k - 30) as nat) < 1000 {
                64 * vstd::arithmetic::power2::pow2((k - 30) as nat)
            } else {
                1000
            }
        },
{
    if k >= 30 {
        law_sleeps_double_up_to_a_millisecond((k - 30) as nat);
    }
}

impl WaitStrategy {
    /// Where a blocked side stands on the ladder after `k` waits of one operation.
    pub open spec fn climbs(self, k: nat) -> Idle
        decreases k,
    {
        if k == 0 {
            Idle::start(self)
        } else {
            self.up(self.climbs((k - 1) as nat))
        }
    }
}

/// A side that starts at the foot of the ladder and goes up by one rung with every wait waits
/// as its strategy says.
pub proof fn law_climbing_gives_the_waits(strategy: WaitStrategy, k: nat)
    ensures
        strategy.rung(strategy.climbs(k)) == kth_wait(strategy, k),
{
    lemma_climbs(strategy, k);
    lemma_climbed(strategy, k);
}

proof fn lemma_climbs(strategy: WaitStrategy, k: nat)
    ensures
        strategy.climbs(k) == match strategy {
            WaitStrategy::Backoff | WaitStrategy::BackoffYield => Idle::climbed(strategy, k),
            _ => Idle::start(strategy),
        },
    decreases k,
{
    if k > 0 {
        lemma_climbs(strategy, (k - 1) as nat);
    }
}

} // verus!
