use std::cell::Cell;
use std::rc::Rc;

use ultima_rings::sharded::{
    channel, split, Found, Receiver, Search, SearchAction, SearchStage, Sender, Shared, SplitError,
    Sweep,
};
use ultima_rings::spsc::SendStage;
use ultima_rings::wait::{Rung, Turn};
use ultima_rings::{RecvError, SendError, TryRecvError, TrySendError, WaitStrategy};

/// What a caller who does not look at the error does.
fn must_split(n_shards: usize, total_cap: usize, strategy: WaitStrategy) -> usize {
    match split(n_shards, total_cap, strategy) {
        Ok(per_shard) => per_shard,
        Err(e) => panic!("{}", e.to_string()),
    }
}

#[test]
#[should_panic(expected = "must divide evenly")]
fn rejects_uneven_split() {
    let _ = must_split(3, 1024, WaitStrategy::BusySpin);
}

#[test]
#[should_panic(expected = "must be a positive power of two")]
fn rejects_non_power_of_two_per_shard() {
    // 100 / 4 = 25: divides evenly, but 25 is not a power of two.
    let _ = must_split(4, 100, WaitStrategy::BusySpin);
}

#[test]
#[should_panic(expected = "only supports WaitStrategy::BusySpin")]
fn rejects_park_strategy() {
    let _ = must_split(2, 1024, WaitStrategy::Park);
}

#[test]
fn splits_are_checked() {
    assert_eq!(split(0, 8, WaitStrategy::BusySpin), Err(SplitError::NoShards));
    assert_eq!(SplitError::NoShards.to_string(), "n_shards must be positive");
    assert_eq!(split(3, 1024, WaitStrategy::BusySpin), Err(SplitError::Uneven));
    assert_eq!(split(4, 100, WaitStrategy::BusySpin), Err(SplitError::Capacity));
    assert_eq!(split(4, 0, WaitStrategy::BusySpin), Err(SplitError::Capacity));
    assert_eq!(split(2, 1024, WaitStrategy::Park), Err(SplitError::Park));
    // The first fault counts.
    assert_eq!(split(3, 1024, WaitStrategy::Park), Err(SplitError::Uneven));
    assert_eq!(split(2, 1024, WaitStrategy::BusySpin), Ok(512));
    assert_eq!(split(3, 24, WaitStrategy::Backoff), Ok(8));
    assert_eq!(split(4, 8, WaitStrategy::BackoffYield), Ok(2));
}

#[test]
fn full_is_per_shard_not_total() {
    // 2 shards x 512 = 1024 total, but one producer stalls at 512.
    let (mut sh, mut senders, _rx) = channel::<u64>(2, 1024, WaitStrategy::BusySpin);
    assert_eq!(senders.len(), 2);
    for i in 0..512 {
        senders[0].try_send(&mut sh, i).unwrap();
    }
    assert_eq!(senders[0].try_send(&mut sh, 512), Err(TrySendError::Full(512)));
    // The other shard is untouched and still accepts its full 512.
    senders[1].try_send(&mut sh, 0).unwrap();
}

#[test]
fn sticky_cursor_drains_a_shard_before_advancing() {
    let (mut sh, mut senders, mut rx) = channel::<u64>(2, 8, WaitStrategy::BusySpin);
    senders[0].try_send(&mut sh, 1).unwrap();
    senders[0].try_send(&mut sh, 2).unwrap();
    senders[0].try_send(&mut sh, 3).unwrap();
    senders[1].try_send(&mut sh, 10).unwrap();
    senders[1].try_send(&mut sh, 20).unwrap();
    let mut got = Vec::new();
    while let Ok(v) = rx.try_recv(&mut sh) {
        got.push(v);
    }
    // Shard 0 is drained first (sticky), then the cursor advances.
    assert_eq!(got, vec![1, 2, 3, 10, 20]);
}

#[test]
fn visit_budget_advances_cursor_after_32_items() {
    // 2 shards x 64. Shard 0 holds more than VISIT_BUDGET items, so the
    // cursor must move on mid-shard instead of draining it.
    let (mut sh, mut senders, mut rx) = channel::<u64>(2, 128, WaitStrategy::BusySpin);
    for i in 0..40 {
        senders[0].try_send(&mut sh, i).unwrap();
    }
    senders[1].try_send(&mut sh, 999).unwrap();
    let mut got = Vec::new();
    for _ in 0..34 {
        got.push(rx.try_recv(&mut sh).unwrap());
    }
    assert_eq!(got[..32], (0..32).collect::<Vec<u64>>()[..]);
    assert_eq!(got[32], 999, "budget exhausted: cursor must advance");
    assert_eq!(got[33], 32, "shard 1 empty: cursor wraps back to shard 0");
}

#[test]
fn disconnect_requires_every_shard() {
    let (mut sh, mut senders, mut rx) = channel::<u64>(2, 8, WaitStrategy::BusySpin);
    senders[1].try_send(&mut sh, 7).unwrap();
    let s1 = senders.pop().unwrap();
    let s0 = senders.pop().unwrap();
    s0.drop(&mut sh);
    // Shard 0 disconnected+drained, shard 1 still live and holding 7.
    assert_eq!(rx.try_recv(&mut sh), Ok(7));
    assert_eq!(
        rx.try_recv(&mut sh),
        Err(TryRecvError::Empty),
        "one live shard means Empty, never Disconnected"
    );
    s1.drop(&mut sh);
    assert_eq!(rx.try_recv(&mut sh), Err(TryRecvError::Disconnected));
}

/// Drops all handles.
fn drop_all<T>(senders: Vec<Sender<T>>, sh: &mut Shared<T>) {
    for tx in senders {
        tx.drop(sh);
    }
}

#[test]
fn drains_remaining_items_after_all_senders_drop() {
    let (mut sh, mut senders, mut rx) = channel::<u64>(2, 8, WaitStrategy::BusySpin);
    senders[0].try_send(&mut sh, 1).unwrap();
    senders[1].try_send(&mut sh, 2).unwrap();
    drop_all(senders, &mut sh);
    assert_eq!(rx.try_recv(&mut sh), Ok(1));
    assert_eq!(rx.try_recv(&mut sh), Ok(2));
    assert_eq!(rx.try_recv(&mut sh), Err(TryRecvError::Disconnected));
}

#[test]
fn single_shard_degenerates_cleanly() {
    let (mut sh, mut senders, mut rx) = channel::<u64>(1, 4, WaitStrategy::BusySpin);
    senders[0].try_send(&mut sh, 1).unwrap();
    senders[0].try_send(&mut sh, 2).unwrap();
    assert_eq!(rx.try_recv(&mut sh), Ok(1));
    assert_eq!(rx.try_recv(&mut sh), Ok(2));
    assert_eq!(rx.try_recv(&mut sh), Err(TryRecvError::Empty));
}

#[test]
fn sharded_zero_sized_payloads_work() {
    let (mut sh, mut senders, mut rx) = channel::<()>(2, 8, WaitStrategy::BusySpin);
    senders[0].try_send(&mut sh, ()).unwrap();
    assert_eq!(rx.try_recv(&mut sh), Ok(()));
}

/// Which thread makes the next access.
struct Schedule(u64);

impl Schedule {
    fn next(&mut self, n: usize) -> usize {
        self.0 ^= self.0 << 13;
        self.0 ^= self.0 >> 7;
        self.0 ^= self.0 << 17;
        (self.0 >> 20) as usize % n
    }
}

/// Producers that send `per` tagged values each, in turns with a consumer.
struct Fan {
    sh: Shared<u64>,
    txs: Vec<Option<Sender<u64>>>,
    sent: Vec<u64>,
    per: u64,
    rx: Receiver<u64>,
    next: Vec<u64>,
    got: u64,
}

impl Fan {
    fn new(producers: usize, per: u64, total_cap: usize, strategy: WaitStrategy) -> Fan {
        let (sh, senders, rx) = channel::<u64>(producers, total_cap, strategy);
        Fan {
            sh,
            txs: senders.into_iter().map(Some).collect(),
            sent: vec![0; producers],
            per,
            rx,
            next: vec![0; producers],
            got: 0,
        }
    }

    /// Producer `p` sends its next value or goes on sending it; after the last it drops its
    /// handle.
    fn producer(&mut self, p: usize) {
        if let Some(mut tx) = self.txs[p].take() {
            let turn = if tx.inner.stage != SendStage::Ready {
                tx.resume(&mut self.sh)
            } else if self.sent[p] < self.per {
                tx.send(&mut self.sh, ((p as u64) << 32) | self.sent[p])
            } else {
                tx.drop(&mut self.sh);
                return;
            };
            match turn {
                Turn::Done(Ok(())) => self.sent[p] += 1,
                Turn::Done(Err(_)) => panic!("rx died"),
                Turn::Wait(rung) => assert_ne!(rung, Rung::Park),
            }
            self.txs[p] = Some(tx);
        }
    }

    fn check(&mut self, v: u64) {
        let tag = (v >> 32) as usize;
        let seq = v & 0xffff_ffff;
        assert_eq!(seq, self.next[tag], "per-producer FIFO violated on tag {tag}");
        self.next[tag] += 1;
        self.got += 1;
    }
}

fn roundtrip(strategy: WaitStrategy) {
    let producers: usize = 4;
    let per: u64 = 10_000;
    // Tiny per-shard cap (8 / 4 = 2) forces every sender to block.
    let mut fan = Fan::new(producers, per, 8, strategy);
    let mut schedule = Schedule(0x9E3779B97F4A7C15);
    let mut waiting = false;
    loop {
        let i = schedule.next(producers + 1);
        if i < producers {
            fan.producer(i);
            continue;
        }
        let turn = if waiting { fan.rx.resume(&mut fan.sh) } else { fan.rx.recv(&mut fan.sh) };
        waiting = false;
        match turn {
            Turn::Done(Ok(v)) => fan.check(v),
            Turn::Done(Err(RecvError)) => break,
            Turn::Wait(_) => waiting = true,
        }
    }
    assert_eq!(fan.got, producers as u64 * per, "loss or duplication");
}

#[test]
fn sharded_blocking_roundtrip_busy_spin() {
    roundtrip(WaitStrategy::BusySpin);
}

#[test]
fn sharded_blocking_roundtrip_backoff() {
    roundtrip(WaitStrategy::Backoff);
}

#[test]
fn sharded_blocking_roundtrip_backoff_yield() {
    roundtrip(WaitStrategy::BackoffYield);
}

#[test]
fn recv_returns_err_after_all_senders_drop() {
    let (mut sh, mut senders, mut rx) = channel::<u64>(2, 8, WaitStrategy::Backoff);
    senders[0].try_send(&mut sh, 5).unwrap();
    let first = rx.recv(&mut sh);
    assert_eq!(rx.recv(&mut sh), Turn::Wait(Rung::Spin));
    drop_all(senders, &mut sh);
    let second = rx.resume(&mut sh);
    assert_eq!((first, second), (Turn::Done(Ok(5)), Turn::Done(Err(RecvError))));
}

#[test]
fn blocked_send_returns_value_after_receiver_drop() {
    // Per-shard cap 2: fill sender 0's shard, then block on the third send.
    let (mut sh, mut senders, rx) = channel::<u64>(2, 4, WaitStrategy::Backoff);
    senders[0].try_send(&mut sh, 0).unwrap();
    senders[0].try_send(&mut sh, 1).unwrap();
    let mut tx = senders.remove(0);
    assert_eq!(tx.send(&mut sh, 2), Turn::Wait(Rung::Spin));
    rx.drop(&mut sh);
    assert_eq!(tx.resume(&mut sh), Turn::Done(Err(SendError(2))));
}

#[test]
fn blocked_send_completes_when_consumer_frees_the_shard() {
    let (mut sh, mut senders, mut rx) = channel::<u64>(1, 2, WaitStrategy::Backoff);
    let mut tx = senders.pop().unwrap();
    tx.try_send(&mut sh, 0).unwrap();
    tx.try_send(&mut sh, 1).unwrap();
    assert_eq!(tx.send(&mut sh, 2), Turn::Wait(Rung::Spin));
    let mut got = Vec::new();
    for i in 0..3 {
        match rx.recv(&mut sh) {
            Turn::Done(v) => got.push(v.unwrap()),
            Turn::Wait(_) => panic!("nothing there"),
        }
        if i == 0 {
            assert_eq!(tx.resume(&mut sh), Turn::Done(Ok(())));
        }
    }
    assert_eq!(got, vec![0, 1, 2]);
}

#[test]
fn drain_and_recv_interleave_under_backoff() {
    let producers: usize = 2;
    let per: u64 = 5_000;
    let mut fan = Fan::new(producers, per, 8, WaitStrategy::Backoff);
    let mut schedule = Schedule(0x2545F4914F6CDD1D);
    let target = producers as u64 * per;
    let mut waiting = false;
    while fan.got < target {
        let i = schedule.next(producers + 1);
        if i < producers {
            fan.producer(i);
            continue;
        }
        if !waiting {
            let mut batch = Vec::new();
            let n = fan.rx.drain(&mut fan.sh, 64, &mut batch);
            assert_eq!(n, batch.len());
            for v in batch {
                fan.check(v);
            }
            if n > 0 || fan.got == target {
                continue;
            }
        }
        let turn = if waiting { fan.rx.resume(&mut fan.sh) } else { fan.rx.recv(&mut fan.sh) };
        waiting = false;
        match turn {
            Turn::Done(Ok(v)) => fan.check(v),
            Turn::Done(Err(RecvError)) => break,
            Turn::Wait(_) => waiting = true,
        }
    }
    assert_eq!(fan.got, target, "loss or duplication");
}

/// Values are `(tag << 32) | seq`, so checking that each tag's sequences
/// arrive as 0, 1, 2, ... catches ordering violations, loss, AND duplication
/// in a single assertion.
fn run_stress(producers: usize, per: u64, total_cap: usize) {
    let mut fan = Fan::new(producers, per, total_cap, WaitStrategy::BusySpin);
    let mut schedule = Schedule(0x9E3779B97F4A7C15);
    loop {
        let i = schedule.next(producers + 2);
        if i < producers {
            fan.producer(i);
            continue;
        }
        match fan.rx.try_recv(&mut fan.sh) {
            Ok(v) => fan.check(v),
            Err(TryRecvError::Empty) => {}
            Err(TryRecvError::Disconnected) => break,
        }
    }
    assert_eq!(fan.got, producers as u64 * per, "loss or duplication");
    for (tag, n) in fan.next.iter().enumerate() {
        assert_eq!(*n, per, "producer {tag} delivered short");
    }
}

#[test]
fn sharded_per_producer_fifo_2_producers() {
    run_stress(2, 30_000, 256);
}

#[test]
fn sharded_per_producer_fifo_4_producers() {
    run_stress(4, 30_000, 256);
}

#[derive(Debug)]
struct Counted(Rc<Cell<usize>>);
impl Drop for Counted {
    fn drop(&mut self) {
        self.0.set(self.0.get() + 1);
    }
}

#[test]
fn sharded_stress_every_value_dropped_exactly_once_including_ring_drop() {
    let drops = Rc::new(Cell::new(0usize));
    let (mut sh, mut senders, mut rx) = channel::<Counted>(2, 16, WaitStrategy::BusySpin);
    for _ in 0..3 {
        senders[0].try_send(&mut sh, Counted(Rc::clone(&drops))).unwrap();
        senders[1].try_send(&mut sh, Counted(Rc::clone(&drops))).unwrap();
    }
    for _ in 0..2 {
        drop(rx.try_recv(&mut sh).unwrap());
    }
    assert_eq!(drops.get(), 2);
    drop_all(senders, &mut sh);
    rx.drop(&mut sh);
    drop(sh.drop());
    assert_eq!(
        drops.get(),
        6,
        "leak or double-drop across shard drop-drain"
    );
}

#[test]
fn what_is_left_goes_down_shard_by_shard() {
    let (mut sh, mut senders, rx) = channel::<u64>(3, 12, WaitStrategy::BusySpin);
    senders[2].try_send(&mut sh, 30).unwrap();
    senders[0].try_send(&mut sh, 10).unwrap();
    senders[2].try_send(&mut sh, 31).unwrap();
    drop_all(senders, &mut sh);
    rx.drop(&mut sh);
    assert_eq!(sh.drop(), vec![10, 30, 31]);
}

#[test]
fn no_producer_starves() {
    // Three shards that are always full: each gets 32 items in turn.
    let (mut sh, mut senders, mut rx) = channel::<u64>(3, 3 * 64, WaitStrategy::BusySpin);
    let mut got = Vec::new();
    for _ in 0..3 * 32 * 2 {
        for (tag, tx) in senders.iter_mut().enumerate() {
            let _ = tx.try_send(&mut sh, tag as u64);
        }
        got.push(rx.try_recv(&mut sh).unwrap());
    }
    let expected: Vec<u64> = (0..3 * 32 * 2).map(|i| (i / 32) as u64 % 3).collect();
    assert_eq!(got, expected);
}

#[test]
fn a_batch_spans_shards_and_respects_its_bound() {
    let (mut sh, mut senders, mut rx) = channel::<u64>(2, 128, WaitStrategy::BusySpin);
    for i in 0..40 {
        senders[0].try_send(&mut sh, i).unwrap();
    }
    senders[1].try_send(&mut sh, 999).unwrap();
    let mut got = Vec::new();
    assert_eq!(rx.drain(&mut sh, 0, &mut got), 0);
    assert_eq!(rx.drain(&mut sh, 34, &mut got), 34);
    assert_eq!(got[31..], [31, 999, 32]);
    assert_eq!(rx.drain(&mut sh, usize::MAX, &mut got), 7);
    assert_eq!(rx.drain(&mut sh, usize::MAX, &mut got), 0);
    assert_eq!(got.len(), 41);
}

#[test]
fn a_sweep_goes_round_once() {
    let mut s = Sweep::new(3);
    s.begin();
    assert_eq!(s.cursor, 0);
    assert_eq!(s.miss(true), Found::Next);
    assert_eq!(s.cursor, 1);
    assert_eq!(s.miss(false), Found::Next);
    assert_eq!(s.cursor, 2);
    assert_eq!(s.miss(true), Found::Empty);
    assert_eq!(s, Sweep { shards: 3, cursor: 0, budget: 0, tried: 0, gone: 0 });
    s.begin();
    assert_eq!(s.miss(true), Found::Next);
    assert_eq!(s.miss(true), Found::Next);
    assert_eq!(s.miss(true), Found::Disconnected);
    // A hit ends the sweep and stays on the shard.
    s.begin();
    assert_eq!(s.miss(true), Found::Next);
    s.deliver();
    assert_eq!(s, Sweep { shards: 3, cursor: 1, budget: 1, tried: 0, gone: 0 });
}

#[test]
fn the_loss_of_every_producer_is_final() {
    let (mut sh, mut senders, mut rx) = channel::<u64>(2, 4, WaitStrategy::BusySpin);
    assert_eq!(senders[0].try_send(&mut sh, 1), Ok(()));
    assert_eq!(senders[1].try_send(&mut sh, 2), Ok(()));
    drop_all(senders, &mut sh);
    let mut got = Vec::new();
    assert_eq!(rx.drain(&mut sh, 9, &mut got), 2);
    assert_eq!(got, vec![1, 2]);
    for _ in 0..3 {
        assert_eq!(rx.try_recv(&mut sh), Err(TryRecvError::Disconnected));
        assert_eq!(rx.recv(&mut sh), Turn::Done(Err(RecvError)));
        assert_eq!(rx.drain(&mut sh, 9, &mut got), 0);
    }
}

#[test]
fn every_producer_has_its_turn_while_the_others_go_on() {
    // Shard `late` has one item; the others are filled up again after every receive.
    for late in 0..3usize {
        for taken_before in 0..40usize {
            let (mut sh, mut senders, mut rx) = channel::<usize>(3, 24, WaitStrategy::BusySpin);
            let mut refill = |sh: &mut Shared<usize>, senders: &mut Vec<Sender<usize>>| {
                for i in 0..3usize {
                    while i != late && senders[i].try_send(sh, i).is_ok() {}
                }
            };
            for _ in 0..taken_before {
                refill(&mut sh, &mut senders);
                assert_ne!(rx.try_recv(&mut sh), Ok(late));
            }
            senders[late].try_send(&mut sh, late).unwrap();
            let mut others = 0usize;
            loop {
                refill(&mut sh, &mut senders);
                if rx.try_recv(&mut sh).unwrap() == late {
                    break;
                }
                others += 1;
            }
            assert!(others <= 64, "two other shards, 32 items each");
        }
    }
}

#[test]
fn a_turn_ends_unless_the_others_are_empty() {
    let (mut sh, mut senders, mut rx) = channel::<u64>(2, 128, WaitStrategy::BusySpin);
    for v in 0..64u64 {
        senders[0].try_send(&mut sh, v).unwrap();
    }
    // The other shard is empty: one turn after the other.
    for v in 0..40u64 {
        assert_eq!(rx.try_recv(&mut sh), Ok(v));
    }
    // It is not any more: what is left of the turn, and then the other shard.
    senders[1].try_send(&mut sh, 99).unwrap();
    for v in 40..64u64 {
        assert_eq!(rx.try_recv(&mut sh), Ok(v));
    }
    assert_eq!(rx.try_recv(&mut sh), Ok(99));
}

#[test]
fn as_many_moves_as_shards_lead_back() {
    for n in 1..6usize {
        let mut s = Sweep::new(n);
        for start in 0..n {
            s = Sweep { cursor: start, budget: 7, ..s };
            for k in 1..=n {
                s.advance();
                assert_eq!(s.cursor, (start + k) % n);
                assert_eq!(s.budget, 0);
            }
            assert_eq!(s.cursor, start);
        }
    }
}

#[test]
fn a_shard_that_had_its_turn_is_left() {
    let mut s = Sweep::new(2);
    for _ in 0..32 {
        s.begin();
        assert_eq!(s.cursor, 0);
        s.deliver();
    }
    assert_eq!(s.budget, 32);
    s.begin();
    assert_eq!(s.cursor, 1);
    assert_eq!(s.budget, 0);
}

#[test]
fn a_search_waits_between_its_sweeps() {
    let mut s = Search::new(2, WaitStrategy::Backoff);
    assert_eq!(s.action(), SearchAction::Return);
    s.start(true);
    for round in 0..31usize {
        assert_eq!(s.action(), SearchAction::Try(0));
        s.miss(true);
        assert_eq!(s.action(), SearchAction::Try(1));
        s.miss(false);
        let rung = match round {
            0..=9 => Rung::Spin,
            10..=29 => Rung::Yield,
            _ => Rung::ParkFor(64),
        };
        assert_eq!(s.action(), SearchAction::Pause(rung));
        s.rest();
    }
    s.miss(true);
    s.hit();
    assert_eq!(s.stage, SearchStage::Got);
    assert_eq!(s.finish(), Ok(()));
    // The next operation begins with the shard that delivered, at the foot of the ladder.
    s.start(true);
    assert_eq!(s.action(), SearchAction::Try(1));
    s.miss(true);
    s.miss(true);
    assert_eq!(s.stage, SearchStage::Disconnected);
    assert_eq!(s.finish(), Err(RecvError));
}

#[test]
fn a_search_without_waiting_reports_what_it_lacks() {
    let mut s = Search::new(2, WaitStrategy::BusySpin);
    s.start(false);
    s.miss(true);
    s.miss(false);
    assert_eq!(s.finish_try(), Err(TryRecvError::Empty));
    s.start(false);
    s.miss(true);
    s.miss(true);
    assert_eq!(s.finish_try(), Err(TryRecvError::Disconnected));
    s.start(false);
    s.miss(true);
    s.hit();
    assert_eq!(s.finish_try(), Ok(()));
}

#[test]
fn a_batch_of_a_search_ends_in_three_ways() {
    let mut s = Search::new(2, WaitStrategy::BusySpin);
    // It has all that it may.
    s.start_drain(2);
    s.hit();
    s.hit();
    assert_eq!(s.action(), SearchAction::Return);
    assert_eq!(s.finish_drain(), 2);
    // There is nothing more.
    s.start_drain(2);
    s.hit();
    s.miss(false);
    s.miss(false);
    assert_eq!(s.finish_drain(), 1);
    // It is cut short.
    s.start_drain(2);
    s.hit();
    assert_eq!(s.action(), SearchAction::Try(0));
    s.miss(false);
    s.stop_drain();
    assert_eq!(s.finish_drain(), 1);
    // It may have none.
    s.start_drain(0);
    assert_eq!(s.action(), SearchAction::Return);
    assert_eq!(s.finish_drain(), 0);
}
