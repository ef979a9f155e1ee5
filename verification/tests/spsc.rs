use std::cell::Cell;
use std::rc::Rc;

use ultima_rings::assert_cap;
use ultima_rings::notify::{Side, Waking};
use ultima_rings::spsc::{
    channel, Event, Receiver, RecvAction, RecvStage, SendAction, SendStage, Sender, Shared,
};
use ultima_rings::wait::{Rung, Turn};
use ultima_rings::{RecvError, SendError, TryRecvError, TrySendError, WaitStrategy};

#[test]
#[should_panic(expected = "positive power of two")]
fn spsc_rejects_non_power_of_two_capacity() {
    assert!(assert_cap(100), "capacity must be a positive power of two");
}

#[test]
fn full_and_empty_are_reported() {
    let (mut sh, mut tx, mut rx) = channel::<u32>(2, WaitStrategy::BusySpin);
    assert_eq!(rx.try_recv(&mut sh), Err(TryRecvError::Empty));
    tx.try_send(&mut sh, 1).unwrap();
    tx.try_send(&mut sh, 2).unwrap();
    assert_eq!(tx.try_send(&mut sh, 3), Err(TrySendError::Full(3)));
    assert_eq!(rx.try_recv(&mut sh), Ok(1));
    tx.try_send(&mut sh, 3).unwrap(); // wrap after space frees
    assert_eq!(rx.try_recv(&mut sh), Ok(2));
    assert_eq!(rx.try_recv(&mut sh), Ok(3));
    assert_eq!(rx.try_recv(&mut sh), Err(TryRecvError::Empty));
}

#[test]
fn spsc_disconnect_semantics_try_paths() {
    // Sender dropped: drain remaining, then Disconnected.
    let (mut sh, mut tx, mut rx) = channel::<String>(4, WaitStrategy::BusySpin);
    tx.try_send(&mut sh, "a".into()).unwrap();
    tx.drop(&mut sh);
    assert_eq!(rx.try_recv(&mut sh), Ok("a".to_string()));
    assert_eq!(rx.try_recv(&mut sh), Err(TryRecvError::Disconnected));
    // Receiver dropped: send fails returning the value.
    let (mut sh, mut tx, rx) = channel::<String>(4, WaitStrategy::BusySpin);
    rx.drop(&mut sh);
    assert_eq!(
        tx.try_send(&mut sh, "b".into()),
        Err(TrySendError::Disconnected("b".to_string()))
    );
}

#[test]
fn drain_consumes_batch() {
    let (mut sh, mut tx, mut rx) = channel::<u64>(8, WaitStrategy::BusySpin);
    for i in 0..5 {
        tx.try_send(&mut sh, i).unwrap();
    }
    let mut got = Vec::new();
    assert_eq!(rx.drain(&mut sh, 3, &mut got), 3);
    assert_eq!(rx.drain(&mut sh, usize::MAX, &mut got), 2);
    assert_eq!(got, vec![0, 1, 2, 3, 4]);
    assert_eq!(rx.drain(&mut sh, usize::MAX, &mut got), 0);
}

#[test]
fn spsc_zero_sized_payloads_work() {
    let (mut sh, mut tx, mut rx) = channel::<()>(2, WaitStrategy::BusySpin);
    tx.try_send(&mut sh, ()).unwrap();
    assert_eq!(rx.try_recv(&mut sh), Ok(()));
}

/// The names of the two threads.
const PRODUCER: u64 = 1;
const CONSUMER: u64 = 2;

/// Which thread makes the next access.
struct Schedule(u64);

impl Schedule {
    fn next(&mut self) -> bool {
        self.0 ^= self.0 << 13;
        self.0 ^= self.0 >> 7;
        self.0 ^= self.0 << 17;
        self.0 & 4 == 0
    }
}

/// A producer that sends `0..n` and a consumer that receives until there is no sender, whose
/// accesses mix.
struct Pipe {
    sh: Shared<u64>,
    tx: Sender<u64>,
    rx: Receiver<u64>,
    next: u64,
    n: u64,
    got: Vec<u64>,
    over: bool,
    tokens: Vec<u64>,
}

impl Pipe {
    fn new(cap: usize, strategy: WaitStrategy, n: u64) -> Pipe {
        let (sh, tx, rx) = channel::<u64>(cap, strategy);
        Pipe { sh, tx, rx, next: 0, n, got: Vec::new(), over: false, tokens: Vec::new() }
    }

    fn take_token(&mut self, name: u64) -> bool {
        let woken = self.tokens.contains(&name);
        self.tokens.retain(|t| *t != name);
        woken
    }

    fn producer(&mut self) -> bool {
        let stage = self.tx.stage;
        match stage {
            SendStage::Ready if self.next < self.n => {
                self.tx.start(self.next, true, PRODUCER);
                self.next += 1;
            }
            SendStage::Ready => self.tx.start_drop(),
            SendStage::Sent => self.tx.finish().unwrap(), // must block (not error) when full
            SendStage::Gone => return false,
            SendStage::Park if !self.take_token(PRODUCER) => return false,
            _ => self.tx.step(&mut self.sh),
        }
        self.tokens.extend(self.sh.take_unparked());
        true
    }

    fn consumer(&mut self) -> bool {
        let stage = self.rx.stage;
        match stage {
            RecvStage::Ready if self.over => return false,
            RecvStage::Ready => self.rx.start(true, CONSUMER),
            RecvStage::Got => self.got.push(self.rx.finish().unwrap()),
            RecvStage::Disconnected => {
                assert_eq!(self.rx.finish(), Err(RecvError));
                self.over = true;
            }
            RecvStage::Park if !self.take_token(CONSUMER) => return false,
            _ => self.rx.step(&mut self.sh),
        }
        self.tokens.extend(self.sh.take_unparked());
        true
    }
}

fn roundtrip(strategy: WaitStrategy) {
    let n: u64 = 20_000;
    // Capacity 4 forces the producer to block regularly.
    let mut pipe = Pipe::new(4, strategy, n);
    let mut schedule = Schedule(0x9E3779B97F4A7C15);
    while !pipe.over {
        let first = schedule.next();
        let moved = if first { pipe.producer() } else { pipe.consumer() };
        if !moved {
            let moved = if first { pipe.consumer() } else { pipe.producer() };
            assert!(moved || pipe.over, "both threads sleep");
        }
    }
    while pipe.producer() {}
    assert_eq!(pipe.got.len() as u64, n);
    for (i, v) in pipe.got.iter().enumerate() {
        assert_eq!(*v, i as u64);
    }
    assert_eq!(pipe.tx.stage, SendStage::Gone);
}

#[test]
fn spsc_blocking_roundtrip_busy_spin() {
    roundtrip(WaitStrategy::BusySpin);
}

#[test]
fn spsc_blocking_roundtrip_backoff() {
    roundtrip(WaitStrategy::Backoff);
}

#[test]
fn spsc_blocking_roundtrip_backoff_yield() {
    roundtrip(WaitStrategy::BackoffYield);
}

#[test]
fn spsc_blocking_roundtrip_park() {
    roundtrip(WaitStrategy::Park);
}

#[test]
fn parked_recv_wakes_on_send() {
    let (mut sh, mut tx, mut rx) = channel::<u64>(4, WaitStrategy::Park);
    assert_eq!(rx.recv(&mut sh, CONSUMER), Turn::Wait(Rung::Park));
    assert_eq!(sh.take_unparked(), Vec::<u64>::new());
    assert_eq!(tx.send(&mut sh, 7, PRODUCER), Turn::Done(Ok(())));
    assert_eq!(sh.take_unparked(), vec![CONSUMER]);
    assert_eq!(rx.resume(&mut sh), Turn::Done(Ok(7)));
}

#[test]
fn parked_recv_wakes_on_disconnect() {
    let (mut sh, tx, mut rx) = channel::<u64>(4, WaitStrategy::Park);
    assert_eq!(rx.recv(&mut sh, CONSUMER), Turn::Wait(Rung::Park));
    tx.drop(&mut sh);
    assert_eq!(sh.take_unparked(), vec![CONSUMER]);
    assert_eq!(rx.resume(&mut sh), Turn::Done(Err(RecvError)));
}

#[test]
fn parked_send_wakes_on_disconnect_and_returns_value() {
    let (mut sh, mut tx, rx) = channel::<u64>(1, WaitStrategy::Park);
    assert_eq!(tx.send(&mut sh, 1, PRODUCER), Turn::Done(Ok(()))); // fill
    assert_eq!(tx.send(&mut sh, 2, PRODUCER), Turn::Wait(Rung::Park)); // parks on full
    rx.drop(&mut sh);
    assert_eq!(sh.take_unparked(), vec![PRODUCER]);
    assert_eq!(tx.resume(&mut sh), Turn::Done(Err(SendError(2))));
}

#[test]
fn parked_send_wakes_on_recv_and_on_drain() {
    let (mut sh, mut tx, mut rx) = channel::<u64>(1, WaitStrategy::Park);
    assert_eq!(tx.send(&mut sh, 1, PRODUCER), Turn::Done(Ok(())));
    assert_eq!(tx.send(&mut sh, 2, PRODUCER), Turn::Wait(Rung::Park));
    assert_eq!(rx.try_recv(&mut sh), Ok(1));
    assert_eq!(sh.take_unparked(), vec![PRODUCER]);
    assert_eq!(tx.resume(&mut sh), Turn::Done(Ok(())));
    assert_eq!(tx.send(&mut sh, 3, PRODUCER), Turn::Wait(Rung::Park));
    let mut got = Vec::new();
    assert_eq!(rx.drain(&mut sh, 10, &mut got), 1);
    assert_eq!(got, vec![2]);
    assert_eq!(sh.take_unparked(), vec![PRODUCER]);
    assert_eq!(tx.resume(&mut sh), Turn::Done(Ok(())));
    assert_eq!(rx.try_recv(&mut sh), Ok(3));
}

#[test]
fn a_spurious_wake_goes_back_to_sleep() {
    let (mut sh, mut tx, mut rx) = channel::<u64>(4, WaitStrategy::Park);
    assert_eq!(rx.recv(&mut sh, CONSUMER), Turn::Wait(Rung::Park));
    assert_eq!(rx.resume(&mut sh), Turn::Wait(Rung::Park));
    assert_eq!(tx.try_send(&mut sh, 9), Ok(()));
    assert_eq!(sh.take_unparked(), vec![CONSUMER]);
    assert_eq!(rx.resume(&mut sh), Turn::Done(Ok(9)));
}

#[test]
fn self_waking_strategies_are_not_woken() {
    for strategy in [WaitStrategy::BusySpin, WaitStrategy::Backoff, WaitStrategy::BackoffYield] {
        let (mut sh, mut tx, mut rx) = channel::<u64>(1, strategy);
        assert_eq!(rx.recv(&mut sh, CONSUMER), Turn::Wait(Rung::Spin));
        assert_eq!(tx.send(&mut sh, 1, PRODUCER), Turn::Done(Ok(())));
        assert_eq!(sh.take_unparked(), Vec::<u64>::new());
        assert_eq!(rx.resume(&mut sh), Turn::Done(Ok(1)));
    }
}

#[test]
fn a_blocked_send_climbs_the_ladder() {
    let (mut sh, mut tx, _rx) = channel::<u64>(1, WaitStrategy::Backoff);
    assert_eq!(tx.send(&mut sh, 0, PRODUCER), Turn::Done(Ok(())));
    let mut waits = Vec::new();
    let mut turn = tx.send(&mut sh, 1, PRODUCER);
    for _ in 0..33 {
        match turn {
            Turn::Wait(rung) => waits.push(rung),
            Turn::Done(_) => panic!("there is no room"),
        }
        turn = tx.resume(&mut sh);
    }
    assert_eq!(waits[9], Rung::Spin);
    assert_eq!(waits[10], Rung::Yield);
    assert_eq!(waits[29], Rung::Yield);
    assert_eq!(waits[30..], [Rung::ParkFor(64), Rung::ParkFor(128), Rung::ParkFor(256)]);
}

#[test]
fn spsc_preserves_order_and_count_across_threads() {
    let n: u64 = 100_000;
    let (mut sh, mut tx, mut rx) = channel::<u64>(64, WaitStrategy::BusySpin);
    let mut schedule = Schedule(0x2545F4914F6CDD1D);
    let mut got = Vec::with_capacity(n as usize);
    let mut next: u64 = 0;
    while (got.len() as u64) < n {
        if schedule.next() {
            match tx.stage {
                SendStage::Ready if next < n => tx.start(next, false, 0),
                SendStage::Ready => {}
                SendStage::Sent | SendStage::Full | SendStage::Disconnected => {
                    match tx.finish_try() {
                        Ok(()) => next += 1,
                        Err(TrySendError::Full(v)) => assert_eq!(v, next),
                        Err(TrySendError::Disconnected(_)) => panic!("receiver died"),
                    }
                }
                _ => tx.step(&mut sh),
            }
        } else {
            match rx.stage {
                RecvStage::Ready => rx.start(false, 0),
                RecvStage::Got | RecvStage::Empty | RecvStage::Disconnected => {
                    match rx.finish_try() {
                        Ok(v) => got.push(v),
                        Err(TryRecvError::Empty) => {}
                        Err(TryRecvError::Disconnected) => panic!("sender died"),
                    }
                }
                _ => rx.step(&mut sh),
            }
        }
    }
    assert_eq!(got.len() as u64, n);
    for (i, v) in got.iter().enumerate() {
        assert_eq!(*v, i as u64, "token {i} out of order");
    }
}

#[derive(Debug)]
struct Counted(Rc<Cell<usize>>);
impl Drop for Counted {
    fn drop(&mut self) {
        self.0.set(self.0.get() + 1);
    }
}

#[test]
fn spsc_stress_every_value_dropped_exactly_once_including_ring_drop() {
    let drops = Rc::new(Cell::new(0usize));
    let (mut sh, mut tx, mut rx) = channel::<Counted>(8, WaitStrategy::BusySpin);
    for _ in 0..6 {
        tx.try_send(&mut sh, Counted(Rc::clone(&drops))).unwrap();
    }
    // Consume 2 (dropped by us), leave 4 in the ring for drop-drain.
    for _ in 0..2 {
        drop(rx.try_recv(&mut sh).unwrap());
    }
    assert_eq!(drops.get(), 2);
    tx.drop(&mut sh);
    rx.drop(&mut sh);
    let left = sh.drop();
    assert_eq!(left.len(), 4);
    drop(left);
    assert_eq!(drops.get(), 6, "leak or double-drop");
}

#[test]
fn a_batch_cut_short_frees_what_it_took() {
    let drops = Rc::new(Cell::new(0usize));
    let (mut sh, mut tx, mut rx) = channel::<Counted>(4, WaitStrategy::BusySpin);
    for _ in 0..4 {
        tx.try_send(&mut sh, Counted(Rc::clone(&drops))).unwrap();
    }
    rx.start_drain(4);
    while drops.get() < 2 {
        match rx.stage {
            RecvStage::DrainDeliver => drop(rx.deliver()),
            _ => rx.step(&mut sh),
        }
    }
    rx.stop_drain();
    while rx.stage != RecvStage::Drained {
        rx.step(&mut sh);
    }
    assert_eq!(rx.finish_drain(), 2);
    // Two slots are free again, and two items are left.
    assert!(tx.try_send(&mut sh, Counted(Rc::clone(&drops))).is_ok());
    assert!(tx.try_send(&mut sh, Counted(Rc::clone(&drops))).is_ok());
    assert!(tx.try_send(&mut sh, Counted(Rc::clone(&drops))).is_err());
    tx.drop(&mut sh);
    rx.drop(&mut sh);
    assert_eq!(sh.drop().len(), 4);
    assert_eq!(drops.get(), 7);
}

/// Takes `n` items in a batch of up to four, and gives up after them.
fn cut_batch(sh: &mut Shared<u64>, rx: &mut Receiver<u64>, n: usize) -> Vec<u64> {
    let mut got = Vec::new();
    rx.start_drain(4);
    while got.len() < n {
        match rx.stage {
            RecvStage::DrainDeliver => got.push(rx.deliver()),
            _ => rx.step(sh),
        }
    }
    rx.stop_drain();
    assert_eq!(rx.action(), RecvAction::StoreHead(n));
    rx.step(sh);
    assert_eq!(rx.stage, RecvStage::Drained);
    assert_eq!(rx.finish_drain(), n);
    got
}

#[test]
fn a_batch_cut_short_wakes_nobody() {
    let (mut sh, mut tx, mut rx) = channel::<u64>(4, WaitStrategy::Park);
    for v in 0..4u64 {
        assert_eq!(tx.try_send(&mut sh, v), Ok(()));
    }
    assert_eq!(tx.send(&mut sh, 4, PRODUCER), Turn::Wait(Rung::Park));
    assert_eq!(cut_batch(&mut sh, &mut rx, 2), vec![0, 1]);
    assert_eq!(sh.take_unparked(), Vec::<u64>::new());
    // The next item that is taken out wakes the producer.
    assert_eq!(rx.try_recv(&mut sh), Ok(2));
    assert_eq!(sh.take_unparked(), vec![PRODUCER]);
    assert_eq!(tx.resume(&mut sh), Turn::Done(Ok(())));
    assert_eq!(rx.try_recv(&mut sh), Ok(3));
    assert_eq!(rx.try_recv(&mut sh), Ok(4));
}

#[test]
fn a_batch_cut_short_at_its_end_wakes_nobody() {
    // The batch has all that it may take when its taker gives up.
    let (mut sh, mut tx, mut rx) = channel::<u64>(4, WaitStrategy::Park);
    for v in 0..4u64 {
        assert_eq!(tx.try_send(&mut sh, v), Ok(()));
    }
    assert_eq!(tx.send(&mut sh, 4, PRODUCER), Turn::Wait(Rung::Park));
    assert_eq!(cut_batch(&mut sh, &mut rx, 4), vec![0, 1, 2, 3]);
    assert_eq!(sh.take_unparked(), Vec::<u64>::new());
    // So does the drop of the handle.
    rx.drop(&mut sh);
    assert_eq!(sh.take_unparked(), vec![PRODUCER]);
    assert_eq!(tx.resume(&mut sh), Turn::Done(Err(SendError(4))));
}

#[test]
fn what_was_sent_is_what_comes_out() {
    // Some sends fail, some block; the items are those of the sends that succeeded, in order.
    let (mut sh, mut tx, mut rx) = channel::<u64>(2, WaitStrategy::Park);
    let mut got = Vec::new();
    assert_eq!(tx.try_send(&mut sh, 10), Ok(()));
    assert_eq!(tx.send(&mut sh, 11, PRODUCER), Turn::Done(Ok(())));
    assert_eq!(tx.try_send(&mut sh, 12), Err(TrySendError::Full(12)));
    assert_eq!(tx.send(&mut sh, 13, PRODUCER), Turn::Wait(Rung::Park));
    got.push(rx.try_recv(&mut sh).unwrap());
    assert_eq!(tx.resume(&mut sh), Turn::Done(Ok(())));
    assert_eq!(rx.drain(&mut sh, 1, &mut got), 1);
    assert_eq!(tx.try_send(&mut sh, 14), Ok(()));
    tx.drop(&mut sh);
    assert_eq!(rx.drain(&mut sh, 9, &mut got), 2);
    assert_eq!(rx.try_recv(&mut sh), Err(TryRecvError::Disconnected));
    assert_eq!(got, vec![10, 11, 13, 14]);
}

#[test]
fn batch_is_its_receives() {
    for items in 0..=4u64 {
        for max in [0usize, 1, 3, 4, 9] {
            let (mut sh1, mut tx1, mut rx1) = channel::<u64>(4, WaitStrategy::BusySpin);
            let (mut sh2, mut tx2, mut rx2) = channel::<u64>(4, WaitStrategy::BusySpin);
            for v in 0..items {
                assert_eq!(tx1.try_send(&mut sh1, v), Ok(()));
                assert_eq!(tx2.try_send(&mut sh2, v), Ok(()));
            }
            let mut batch = Vec::new();
            let k = rx1.drain(&mut sh1, max, &mut batch);
            assert_eq!(k, max.min(items as usize));
            let mut single = Vec::new();
            for _ in 0..k {
                single.push(rx2.try_recv(&mut sh2).unwrap());
            }
            assert_eq!(batch, single);
            // What comes after it is the same too.
            for v in 10..16u64 {
                assert_eq!(tx1.try_send(&mut sh1, v), tx2.try_send(&mut sh2, v));
            }
            for _ in 0..6 {
                assert_eq!(rx1.try_recv(&mut sh1), rx2.try_recv(&mut sh2));
            }
        }
    }
}

#[test]
fn refused_sends_are_not_seen() {
    let mut all = Vec::new();
    for refused in [0u64, 1, 5] {
        let (mut sh, mut tx, mut rx) = channel::<u64>(2, WaitStrategy::BusySpin);
        let mut seen = Vec::new();
        for round in 0..3u64 {
            while tx.try_send(&mut sh, round).is_ok() {}
            for b in 0..refused {
                assert_eq!(tx.try_send(&mut sh, 70 + b), Err(TrySendError::Full(70 + b)));
            }
            seen.push(rx.try_recv(&mut sh));
        }
        rx.drop(&mut sh);
        for b in 0..refused {
            assert_eq!(tx.try_send(&mut sh, b), Err(TrySendError::Disconnected(b)));
        }
        tx.drop(&mut sh);
        all.push((seen, sh.drop()));
    }
    assert_eq!(all[0], (vec![Ok(0), Ok(0), Ok(1)], vec![2]));
    assert_eq!(all[1], all[0]);
    assert_eq!(all[2], all[0]);
}

#[test]
fn a_send_makes_these_accesses() {
    let (mut sh, mut tx, _rx) = channel::<u64>(2, WaitStrategy::Park);
    tx.start(40, false, 0);
    let mut actions = Vec::new();
    while tx.stage != SendStage::Sent {
        actions.push(tx.action());
        tx.step(&mut sh);
    }
    assert_eq!(
        actions,
        vec![
            SendAction::LoadDisconnected,
            SendAction::WriteSlot(0),
            SendAction::StoreTail(1),
            SendAction::LoadParked(Side::Consumer)
        ]
    );
    assert_eq!(tx.action(), SendAction::Return);
    assert_eq!(tx.finish_try(), Ok(()));
}

#[test]
fn a_receive_makes_these_accesses() {
    let (mut sh, mut tx, mut rx) = channel::<u64>(2, WaitStrategy::BusySpin);
    assert_eq!(tx.try_send(&mut sh, 40), Ok(()));
    rx.start(false, 0);
    let mut actions = Vec::new();
    while rx.stage != RecvStage::Got {
        actions.push(rx.action());
        rx.step(&mut sh);
    }
    assert_eq!(
        actions,
        vec![RecvAction::LoadTail, RecvAction::ReadSlot(0), RecvAction::StoreHead(1)]
    );
    assert_eq!(rx.finish_try(), Ok(40));
}

#[test]
fn a_stale_index_only_delays() {
    let (mut sh, mut tx, mut rx) = channel::<u64>(1, WaitStrategy::BusySpin);
    assert_eq!(tx.try_send(&mut sh, 1), Ok(()));
    // The consumer misses the store of the tail.
    rx.start(false, 0);
    rx.advance(Event::Index(0));
    rx.advance(Event::Flag(false));
    assert_eq!(rx.finish_try(), Err(TryRecvError::Empty));
    assert_eq!(rx.try_recv(&mut sh), Ok(1));
    // The producer misses the store of the head.
    assert_eq!(tx.try_send(&mut sh, 2), Ok(()));
    assert_eq!(rx.try_recv(&mut sh), Ok(2));
    tx.start(3, false, 0);
    tx.advance(Event::Flag(false));
    tx.advance(Event::Index(1));
    assert_eq!(tx.finish_try(), Err(TrySendError::Full(3)));
    assert_eq!(tx.try_send(&mut sh, 3), Ok(()));
}

#[test]
fn the_last_item_is_seen_after_the_disconnect() {
    let (mut sh, mut tx, mut rx) = channel::<u64>(2, WaitStrategy::BusySpin);
    rx.start(false, 0);
    rx.step(&mut sh); // the tail: nothing there yet
    assert_eq!(rx.stage, RecvStage::Flag);
    assert_eq!(tx.try_send(&mut sh, 5), Ok(()));
    tx.drop(&mut sh);
    rx.step(&mut sh);
    assert_eq!(rx.stage, RecvStage::FinalTail);
    while rx.stage != RecvStage::Got {
        rx.step(&mut sh);
    }
    assert_eq!(rx.finish_try(), Ok(5));
    assert_eq!(rx.try_recv(&mut sh), Err(TryRecvError::Disconnected));
}

#[test]
fn dropping_wakes_both_sides() {
    let (mut sh, mut tx, _rx) = channel::<u64>(1, WaitStrategy::Park);
    tx.start_drop();
    let mut stages = Vec::new();
    while tx.stage != SendStage::Gone {
        stages.push(tx.stage);
        tx.step(&mut sh);
    }
    assert_eq!(
        stages,
        vec![
            SendStage::Close,
            SendStage::CloseWake(Side::Consumer, Waking::Load),
            SendStage::CloseWake(Side::Producer, Waking::Load)
        ]
    );
}

#[test]
fn operations_take_few_accesses() {
    let (mut sh, mut tx, mut rx) = channel::<u64>(1, WaitStrategy::Park);
    for round in 0..4u64 {
        // A sleeping consumer makes the send as long as it can be.
        assert_eq!(rx.recv(&mut sh, CONSUMER), Turn::Wait(Rung::Park));
        tx.start(round, false, 0);
        let mut accesses: usize = 0;
        while tx.stage != SendStage::Sent {
            tx.step(&mut sh);
            accesses += 1;
        }
        assert!(accesses <= 8);
        assert_eq!(tx.finish_try(), Ok(()));
        assert_eq!(rx.resume(&mut sh), Turn::Done(Ok(round)));
    }
    rx.start(false, 0);
    let mut accesses: usize = 0;
    while rx.stage != RecvStage::Empty {
        rx.step(&mut sh);
        accesses += 1;
    }
    assert!(accesses <= 9);
}

#[test]
fn a_disconnect_is_final() {
    let (mut sh, mut tx, mut rx) = channel::<u64>(4, WaitStrategy::BusySpin);
    assert_eq!(tx.try_send(&mut sh, 1), Ok(()));
    tx.drop(&mut sh);
    assert_eq!(rx.try_recv(&mut sh), Ok(1));
    for _ in 0..3 {
        assert_eq!(rx.try_recv(&mut sh), Err(TryRecvError::Disconnected));
        assert_eq!(rx.recv(&mut sh, CONSUMER), Turn::Done(Err(RecvError)));
        assert_eq!(rx.drain(&mut sh, 8, &mut Vec::new()), 0);
    }
    rx.drop(&mut sh);
    assert_eq!(sh.drop(), Vec::<u64>::new());
}

#[test]
fn a_batch_frees_its_slots_at_the_end() {
    let (mut sh, mut tx, mut rx) = channel::<u64>(2, WaitStrategy::BusySpin);
    assert_eq!(tx.try_send(&mut sh, 1), Ok(()));
    assert_eq!(tx.try_send(&mut sh, 2), Ok(()));
    rx.start_drain(2);
    let mut got = Vec::new();
    while got.len() < 2 {
        match rx.stage {
            RecvStage::DrainDeliver => got.push(rx.deliver()),
            _ => rx.step(&mut sh),
        }
        assert_eq!(tx.try_send(&mut sh, 3), Err(TrySendError::Full(3)));
    }
    assert_eq!(rx.action(), RecvAction::StoreHead(2));
    rx.step(&mut sh);
    assert_eq!(rx.finish_drain(), 2);
    assert_eq!(tx.try_send(&mut sh, 3), Ok(()));
}
