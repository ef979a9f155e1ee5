use std::time::Duration;

use ultima_rings::wait::{Idle, Rung, PARK_MAX, PARK_MIN, SPINS, YIELDS};
use ultima_rings::WaitStrategy;

/// How long a rung sleeps.
fn slept(rung: Rung) -> Duration {
    match rung {
        Rung::ParkFor(us) => Duration::from_micros(us),
        _ => Duration::ZERO,
    }
}

#[test]
fn idle_ladder_spins_then_yields_then_parks_bounded() {
    let mut idle = Idle::new();
    // The first SPINS + YIELDS steps must not sleep.
    let mut t = Duration::ZERO;
    for _ in 0..(SPINS + YIELDS) {
        t += slept(idle.idle());
    }
    assert!(t.as_millis() < 100, "spin/yield rungs slept");
    assert_eq!(t, Duration::ZERO, "spin/yield rungs slept");
    // Subsequent steps park with doubling, capped at PARK_MAX.
    let t = slept(idle.idle()); // first park
    assert!(
        t >= Duration::from_micros(PARK_MIN),
        "first park returned under PARK_MIN"
    );
    for _ in 0..30 {
        let t = slept(idle.idle()); // doubling must cap, not overflow
        assert!(t <= Duration::from_micros(PARK_MAX));
    }
}

#[test]
fn park_min_is_at_or_above_the_os_timer_floor() {
    let min = Duration::from_micros(PARK_MIN);
    let max = Duration::from_micros(PARK_MAX);
    assert!(
        min >= Duration::from_micros(64),
        "PARK_MIN {min:?} is below the OS timer floor; \
         the first ladder rungs would collapse into one another"
    );
    assert!(
        max > min,
        "PARK_MAX must leave room for at least one doubling"
    );
    assert_eq!(max, Duration::from_millis(1));
}

#[test]
fn yielding_ladder_never_escalates_to_parks() {
    let mut yielding = Idle::for_strategy(WaitStrategy::BackoffYield);
    let mut parking = Idle::for_strategy(WaitStrategy::Backoff);
    // Well past the rung where `Backoff` starts parking.
    for _ in 0..(SPINS + YIELDS + 5) {
        yielding.idle();
        parking.idle();
    }
    assert!(
        parking.park > PARK_MIN,
        "Backoff never reached a park rung, so this proves nothing"
    );
    assert_eq!(
        yielding.park, PARK_MIN,
        "yielding ladder escalated to parking"
    );
}

#[test]
fn yielding_ladder_does_not_sleep() {
    let mut idle = Idle::for_strategy(WaitStrategy::BackoffYield);
    let mut t = Duration::ZERO;
    // 50 rungs past where `Backoff` would have started parking.
    for _ in 0..(SPINS + YIELDS + 50) {
        t += slept(idle.idle());
    }
    assert!(
        t < Duration::from_millis(10),
        "yielding ladder slept (took {:?})",
        t
    );
    assert_eq!(t, Duration::ZERO);
}

#[test]
fn the_sleeping_ladder_has_these_rungs() {
    let mut idle = Idle::for_strategy(WaitStrategy::Backoff);
    let mut rungs = Vec::new();
    for _ in 0..37 {
        assert_eq!(idle.peek(), Idle { ..idle }.peek());
        rungs.push(idle.idle());
    }
    assert!(rungs[..10].iter().all(|r| *r == Rung::Spin));
    assert!(rungs[10..30].iter().all(|r| *r == Rung::Yield));
    assert_eq!(
        rungs[30..],
        [
            Rung::ParkFor(64),
            Rung::ParkFor(128),
            Rung::ParkFor(256),
            Rung::ParkFor(512),
            Rung::ParkFor(1000),
            Rung::ParkFor(1000),
            Rung::ParkFor(1000)
        ]
    );
}

#[test]
fn the_yielding_ladder_has_these_rungs() {
    let mut idle = Idle::for_strategy(WaitStrategy::BackoffYield);
    let mut rungs = Vec::new();
    for _ in 0..1000 {
        rungs.push(idle.idle());
    }
    assert!(rungs[..10].iter().all(|r| *r == Rung::Spin));
    assert!(rungs[10..].iter().all(|r| *r == Rung::Yield));
}

#[test]
fn the_ladder_stops_counting_at_the_end_of_its_range() {
    let mut idle = Idle { step: u32::MAX, park: PARK_MAX, yield_only: false };
    assert_eq!(idle.idle(), Rung::ParkFor(1000));
    assert_eq!(idle, Idle { step: u32::MAX, park: PARK_MAX, yield_only: false });
}

#[test]
fn only_two_strategies_climb() {
    for strategy in [WaitStrategy::BusySpin, WaitStrategy::Park] {
        let mut idle = Idle::for_strategy(strategy);
        let foot = idle;
        for _ in 0..40 {
            strategy.climb(&mut idle);
        }
        assert_eq!(idle, foot);
    }
    for strategy in [WaitStrategy::Backoff, WaitStrategy::BackoffYield] {
        let mut idle = Idle::for_strategy(strategy);
        for _ in 0..40 {
            strategy.climb(&mut idle);
        }
        assert_eq!(idle.step, 40);
    }
}

#[test]
fn each_strategy_waits_in_its_own_way() {
    let late = Idle { step: 30, park: 64, yield_only: false };
    let yielding = Idle { step: 30, park: 64, yield_only: true };
    assert_eq!(WaitStrategy::BusySpin.choose_rung(&late), Rung::Spin);
    assert_eq!(WaitStrategy::Backoff.choose_rung(&late), Rung::ParkFor(64));
    assert_eq!(WaitStrategy::BackoffYield.choose_rung(&yielding), Rung::Yield);
    assert_eq!(WaitStrategy::Park.choose_rung(&late), Rung::Park);
}
