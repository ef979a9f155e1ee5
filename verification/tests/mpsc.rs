use std::cell::Cell;
use std::collections::HashSet;
use std::rc::Rc;

use ultima_rings::assert_cap;
use ultima_rings::mpsc::{
    channel, Event, Receiver, RecvAction, RecvStage, SendAction, SendStage, Sender, Shared,
};
use ultima_rings::wait::{Rung, Turn};
use ultima_rings::{RecvError, SendError, TryRecvError, TrySendError, WaitStrategy};

#[test]
#[should_panic(expected = "positive power of two")]
fn mpsc_rejects_non_power_of_two_capacity() {
    assert!(assert_cap(100), "capacity must be a positive power of two");
}

#[test]
fn try_send_reports_full_without_claiming() {
    let (mut sh, mut tx, mut rx) = channel::<u32>(2, WaitStrategy::BusySpin);
    tx.try_send(&mut sh, 1).unwrap();
    tx.try_send(&mut sh, 2).unwrap();
    // A failed try_send must NOT consume a sequence: after one recv,
    // exactly one more send fits.
    assert_eq!(tx.try_send(&mut sh, 3), Err(TrySendError::Full(3)));
    assert_eq!(tx.try_send(&mut sh, 4), Err(TrySendError::Full(4)));
    assert_eq!(rx.try_recv(&mut sh), Ok(1));
    tx.try_send(&mut sh, 5).unwrap();
    assert_eq!(tx.try_send(&mut sh, 6), Err(TrySendError::Full(6)));
    assert_eq!(rx.try_recv(&mut sh), Ok(2));
    assert_eq!(rx.try_recv(&mut sh), Ok(5));
    assert_eq!(rx.try_recv(&mut sh), Err(TryRecvError::Empty));
}

#[test]
fn mpsc_disconnect_semantics_try_paths() {
    // All senders dropped: drain remaining, then Disconnected.
    let (mut sh, mut tx, mut rx) = channel::<String>(4, WaitStrategy::BusySpin);
    let tx2 = tx.clone(&mut sh);
    tx.try_send(&mut sh, "a".into()).unwrap();
    tx.drop(&mut sh);
    assert_eq!(rx.try_recv(&mut sh), Ok("a".to_string())); // tx2 still live
    assert_eq!(rx.try_recv(&mut sh), Err(TryRecvError::Empty));
    tx2.drop(&mut sh);
    assert_eq!(rx.try_recv(&mut sh), Err(TryRecvError::Disconnected));
    // Receiver dropped: send fails returning the value.
    let (mut sh, mut tx, rx) = channel::<String>(4, WaitStrategy::BusySpin);
    rx.drop(&mut sh);
    assert_eq!(
        tx.try_send(&mut sh, "b".into()),
        Err(TrySendError::Disconnected("b".to_string()))
    );
}

#[test]
fn drain_consumes_contiguous_prefix() {
    let (mut sh, mut tx, mut rx) = channel::<u64>(8, WaitStrategy::BusySpin);
    for i in 0..5 {
        tx.try_send(&mut sh, i).unwrap();
    }
    let mut got = Vec::new();
    assert_eq!(rx.drain(&mut sh, usize::MAX, &mut got), 5);
    assert_eq!(got, vec![0, 1, 2, 3, 4]);
}

/// Which thread makes the next access.
struct Schedule(u64);

impl Schedule {
    fn next(&mut self, n: usize) -> usize {
        self.0 ^= self.0 << 13;
        self.0 ^= self.0 >> 7;
        self.0 ^= self.0 << 17;
        (self.0 >> 20) as usize % n
    }
}

/// Producers that send `per` values each and a consumer that receives until there is no
/// sender, whose accesses mix. The consumer's thread has the name 0.
struct Fan {
    sh: Shared<u64>,
    txs: Vec<Sender<u64>>,
    rx: Receiver<u64>,
    next: Vec<u64>,
    end: Vec<u64>,
    blocking: bool,
    got: Vec<u64>,
    over: bool,
    tokens: HashSet<u64>,
}

impl Fan {
    fn new(producers: usize, per: u64, cap: usize, strategy: WaitStrategy, blocking: bool) -> Fan {
        let (mut sh, tx, rx) = channel::<u64>(cap, strategy);
        let txs: Vec<Sender<u64>> = (0..producers).map(|_| tx.clone(&mut sh)).collect();
        tx.drop(&mut sh);
        let next: Vec<u64> = (0..producers).map(|p| p as u64 * per).collect();
        let end: Vec<u64> = (0..producers).map(|p| (p as u64 + 1) * per).collect();
        Fan {
            sh,
            txs,
            rx,
            next,
            end,
            blocking,
            got: Vec::new(),
            over: false,
            tokens: HashSet::new(),
        }
    }

    fn producer(&mut self, p: usize) -> bool {
        let name = p as u64 + 1;
        let tx = &mut self.txs[p];
        let stage = tx.stage;
        match stage {
            SendStage::Ready if self.next[p] < self.end[p] => {
                tx.start(self.next[p], self.blocking, name);
            }
            SendStage::Ready => tx.start_drop(),
            SendStage::Sent => {
                assert_eq!(tx.finish_try(), Ok(()));
                self.next[p] += 1;
            }
            SendStage::Full => assert_eq!(tx.finish_try(), Err(TrySendError::Full(self.next[p]))),
            SendStage::Disconnected => panic!("rx died"),
            SendStage::Gone => return false,
            SendStage::Park if !self.tokens.remove(&name) => return false,
            _ => tx.step(&mut self.sh),
        }
        self.tokens.extend(self.sh.take_unparked());
        true
    }

    fn consumer(&mut self) -> bool {
        let stage = self.rx.stage;
        match stage {
            RecvStage::Ready if self.over => return false,
            RecvStage::Ready => self.rx.start(self.blocking, 0),
            RecvStage::Got => self.got.push(self.rx.finish_try().unwrap()),
            RecvStage::Empty => assert_eq!(self.rx.finish_try(), Err(TryRecvError::Empty)),
            RecvStage::Disconnected => {
                assert_eq!(self.rx.finish_try(), Err(TryRecvError::Disconnected));
                self.over = true;
            }
            RecvStage::Park if !self.tokens.remove(&0) => return false,
            _ => self.rx.step(&mut self.sh),
        }
        self.tokens.extend(self.sh.take_unparked());
        true
    }

    /// Any of the threads makes an access.
    fn step(&mut self, first: usize) {
        let n = self.txs.len() + 1;
        for k in 0..n {
            let i = (first + k) % n;
            let moved = if i == 0 { self.consumer() } else { self.producer(i - 1) };
            if moved {
                return;
            }
        }
        assert!(self.over, "all threads sleep");
    }

    fn run(&mut self, seed: u64) {
        let mut schedule = Schedule(seed);
        while !self.over {
            let first = schedule.next(self.txs.len() + 1);
            self.step(first);
        }
        for p in 0..self.txs.len() {
            while self.producer(p) {}
            assert_eq!(self.txs[p].stage, SendStage::Gone);
        }
    }
}

fn roundtrip(strategy: WaitStrategy) {
    let producers: usize = 4;
    let per: u64 = 10_000;
    let mut fan = Fan::new(producers, per, 8, strategy, true); // tiny cap forces blocking
    fan.run(0x9E3779B97F4A7C15);
    let mut got = fan.got;
    // Each producer's values come in order.
    let mut last = vec![None; producers];
    for v in got.iter() {
        let p = (*v / per) as usize;
        assert!(last[p] < Some(*v), "producer {p} out of order");
        last[p] = Some(*v);
    }
    got.sort_unstable();
    assert_eq!(got.len() as u64, producers as u64 * per);
    for (i, v) in got.iter().enumerate() {
        assert_eq!(*v, i as u64, "loss or duplication");
    }
}

#[test]
fn mpsc_blocking_roundtrip_busy_spin() {
    roundtrip(WaitStrategy::BusySpin);
}

#[test]
fn mpsc_blocking_roundtrip_backoff() {
    roundtrip(WaitStrategy::Backoff);
}

#[test]
fn mpsc_blocking_roundtrip_backoff_yield() {
    roundtrip(WaitStrategy::BackoffYield);
}

#[test]
fn mpsc_blocking_roundtrip_park() {
    roundtrip(WaitStrategy::Park);
}

#[test]
fn parked_recv_wakes_on_last_sender_drop() {
    let (mut sh, tx, mut rx) = channel::<u64>(4, WaitStrategy::Park);
    let tx2 = tx.clone(&mut sh);
    assert_eq!(rx.recv(&mut sh, 9), Turn::Wait(Rung::Park));
    tx.drop(&mut sh);
    assert_eq!(sh.take_unparked(), Vec::<u64>::new()); // one sender left: still parked
    tx2.drop(&mut sh);
    assert_eq!(sh.take_unparked(), vec![9]);
    assert_eq!(rx.resume(&mut sh), Turn::Done(Err(RecvError)));
}

#[test]
fn parked_senders_wake_on_receiver_drop_and_return_values() {
    let (mut sh, tx, rx) = channel::<u64>(1, WaitStrategy::Park);
    let mut tx0 = tx.clone(&mut sh);
    assert_eq!(tx0.send(&mut sh, 0, 100), Turn::Done(Ok(()))); // fill the 1-slot ring
    let mut blocked = Vec::new();
    for i in 1..=2u64 {
        let mut tx = tx.clone(&mut sh);
        assert_eq!(tx.send(&mut sh, i, i), Turn::Wait(Rung::Park)); // both park on full
        blocked.push(tx);
    }
    tx.drop(&mut sh);
    rx.drop(&mut sh);
    assert_eq!(sh.take_unparked(), vec![1, 2]);
    let mut returned: Vec<u64> = blocked
        .into_iter()
        .map(|mut tx| match tx.resume(&mut sh) {
            Turn::Done(Err(SendError(v))) => v,
            _ => panic!("send succeeded after receiver drop"),
        })
        .collect();
    returned.sort_unstable();
    assert_eq!(returned, vec![1, 2]);
}

fn run_stress(producers: usize, per: u64, cap: usize, seed: u64) {
    let mut fan = Fan::new(producers, per, cap, WaitStrategy::BusySpin, false);
    fan.run(seed);
    let mut seen: HashSet<u64> = HashSet::new();
    let mut dups: usize = 0;
    for v in fan.got.iter() {
        if !seen.insert(*v) {
            dups += 1;
        }
    }
    assert_eq!(dups, 0, "duplicate delivery");
    assert_eq!(seen.len() as u64, producers as u64 * per, "loss");
}

#[test]
fn mpsc_no_loss_no_dup_under_contention() {
    for seed in 1..=5u64 {
        run_stress(4, 30_000, 256, seed * 0x9E3779B97F4A7C15);
    }
}

#[derive(Debug)]
struct Counted(Rc<Cell<usize>>);
impl Drop for Counted {
    fn drop(&mut self) {
        self.0.set(self.0.get() + 1);
    }
}

#[test]
fn mpsc_stress_every_value_dropped_exactly_once_including_ring_drop() {
    let drops = Rc::new(Cell::new(0usize));
    let (mut sh, mut tx, mut rx) = channel::<Counted>(8, WaitStrategy::BusySpin);
    for _ in 0..6 {
        tx.try_send(&mut sh, Counted(Rc::clone(&drops))).unwrap();
    }
    for _ in 0..2 {
        drop(rx.try_recv(&mut sh).unwrap());
    }
    assert_eq!(drops.get(), 2);
    tx.drop(&mut sh);
    rx.drop(&mut sh);
    drop(sh.drop());
    assert_eq!(drops.get(), 6, "leak or double-drop");
}

#[test]
fn drain_unwind_safe_no_double_drop_on_panicking_callback() {
    // A batch that ends early must publish the head. The callback gives up on the 2nd item
    // of a 4-item batch.
    let drops = Rc::new(Cell::new(0usize));
    let (mut sh, mut tx, mut rx) = channel::<Counted>(4, WaitStrategy::BusySpin);
    for _ in 0..4 {
        tx.try_send(&mut sh, Counted(Rc::clone(&drops))).unwrap();
    }
    rx.start_drain(4);
    let mut unwinds = false;
    while rx.stage != RecvStage::Drained {
        match rx.stage {
            RecvStage::DrainDeliver => {
                let counted = rx.deliver();
                if drops.get() == 1 {
                    unwinds = true;
                    rx.stop_drain();
                }
                drop(counted);
            }
            _ => rx.step(&mut sh),
        }
    }
    assert!(unwinds, "expected panic");
    assert_eq!(rx.finish_drain(), 2);
    // Drop both handles and the rest: this must NOT double-drop the consumed items.
    tx.drop(&mut sh);
    rx.drop(&mut sh);
    assert_eq!(sh.drop().len(), 2);
    assert_eq!(
        drops.get(),
        4,
        "exact count check: no double-drop, no leak"
    );
}

#[test]
fn mpsc_batch_cut_short_wakes_nobody() {
    for n in [2usize, 4] {
        let (mut sh, mut tx, mut rx) = channel::<u64>(4, WaitStrategy::Park);
        for v in 0..4u64 {
            assert_eq!(tx.try_send(&mut sh, v), Ok(()));
        }
        assert_eq!(tx.send(&mut sh, 4, 9), Turn::Wait(Rung::Park));
        let mut got = Vec::new();
        rx.start_drain(4);
        while got.len() < n {
            match rx.stage {
                RecvStage::DrainDeliver => got.push(rx.deliver()),
                _ => rx.step(&mut sh),
            }
        }
        rx.stop_drain();
        assert_eq!(rx.action(), RecvAction::StoreHead(n));
        rx.step(&mut sh);
        assert_eq!(rx.finish_drain(), n);
        assert_eq!(got.len(), n);
        assert_eq!(sh.take_unparked(), Vec::<u64>::new());
        // The next item that is taken out wakes the sender, and so does the drop.
        if n == 2 {
            assert_eq!(rx.try_recv(&mut sh), Ok(2));
            assert_eq!(sh.take_unparked(), vec![9]);
            assert_eq!(tx.resume(&mut sh), Turn::Done(Ok(())));
        } else {
            rx.drop(&mut sh);
            assert_eq!(sh.take_unparked(), vec![9]);
            assert_eq!(tx.resume(&mut sh), Turn::Done(Err(SendError(4))));
        }
    }
}

#[test]
fn a_blocked_send_is_not_seen_by_the_others() {
    // The same calls with a sender that waits, and without one.
    let mut replies = Vec::new();
    for waits in [false, true] {
        let (mut sh, mut a, mut rx) = channel::<u64>(2, WaitStrategy::Park);
        let mut b = a.clone(&mut sh);
        let mut seen = Vec::new();
        for v in 0..2u64 {
            seen.push(format!("{:?}", a.try_send(&mut sh, v)));
        }
        if waits {
            assert_eq!(b.send(&mut sh, 77, 1), Turn::Wait(Rung::Park));
        }
        seen.push(format!("{:?}", a.try_send(&mut sh, 2)));
        seen.push(format!("{:?}", rx.try_recv(&mut sh)));
        seen.push(format!("{:?}", a.try_send(&mut sh, 3)));
        if waits {
            assert_eq!(b.resume(&mut sh), Turn::Wait(Rung::Park));
        }
        let mut got = Vec::new();
        seen.push(format!("{:?}", rx.drain(&mut sh, 5, &mut got)));
        seen.push(format!("{:?} {:?}", got, rx.try_recv(&mut sh)));
        replies.push(seen);
    }
    assert_eq!(replies[0], replies[1]);
    assert_eq!(replies[0].len(), 7);
}

#[test]
fn a_send_after_another_comes_out_after_it() {
    let (mut sh, mut a, mut rx) = channel::<u64>(4, WaitStrategy::BusySpin);
    let mut b = a.clone(&mut sh);
    // `a`'s send is over before `b`'s begins, and so on.
    assert_eq!(a.try_send(&mut sh, 1), Ok(()));
    assert_eq!(b.try_send(&mut sh, 2), Ok(()));
    assert_eq!(b.try_send(&mut sh, 3), Ok(()));
    assert_eq!(a.try_send(&mut sh, 4), Ok(()));
    // There are never more than four.
    assert_eq!(b.try_send(&mut sh, 5), Err(TrySendError::Full(5)));
    let mut got = Vec::new();
    assert_eq!(rx.drain(&mut sh, 9, &mut got), 4);
    assert_eq!(got, vec![1, 2, 3, 4]);
}

#[test]
fn mpsc_batch_is_its_receives() {
    for items in 0..=4u64 {
        for max in [0usize, 1, 3, 4, 9] {
            let (mut sh1, mut tx1, mut rx1) = channel::<u64>(4, WaitStrategy::BusySpin);
            let (mut sh2, mut tx2, mut rx2) = channel::<u64>(4, WaitStrategy::BusySpin);
            for v in 0..items {
                assert_eq!(tx1.try_send(&mut sh1, v), Ok(()));
                assert_eq!(tx2.try_send(&mut sh2, v), Ok(()));
            }
            let mut batch = Vec::new();
            let k = rx1.drain(&mut sh1, max, &mut batch);
            assert_eq!(k, max.min(items as usize));
            let mut single = Vec::new();
            for _ in 0..k {
                single.push(rx2.try_recv(&mut sh2).unwrap());
            }
            assert_eq!(batch, single);
            // What comes after it is the same too.
            for v in 10..16u64 {
                assert_eq!(tx1.try_send(&mut sh1, v), tx2.try_send(&mut sh2, v));
            }
            for _ in 0..6 {
                assert_eq!(rx1.try_recv(&mut sh1), rx2.try_recv(&mut sh2));
            }
        }
    }
}

#[test]
fn mpsc_refused_sends_are_not_seen() {
    let mut all = Vec::new();
    for refused in [0u64, 1, 5] {
        let (mut sh, mut tx, mut rx) = channel::<u64>(2, WaitStrategy::BusySpin);
        let mut seen = Vec::new();
        for round in 0..3u64 {
            while tx.try_send(&mut sh, round).is_ok() {}
            for b in 0..refused {
                assert_eq!(tx.try_send(&mut sh, 70 + b), Err(TrySendError::Full(70 + b)));
            }
            seen.push(rx.try_recv(&mut sh));
        }
        rx.drop(&mut sh);
        for b in 0..refused {
            assert_eq!(tx.try_send(&mut sh, b), Err(TrySendError::Disconnected(b)));
        }
        tx.drop(&mut sh);
        all.push((seen, sh.drop()));
    }
    assert_eq!(all[0], (vec![Ok(0), Ok(0), Ok(1)], vec![2]));
    assert_eq!(all[1], all[0]);
    assert_eq!(all[2], all[0]);
}

#[test]
fn an_unused_clone_is_not_seen() {
    let mut all = Vec::new();
    for clones in [false, true] {
        let (mut sh, mut tx, mut rx) = channel::<u64>(2, WaitStrategy::BusySpin);
        let mut seen = Vec::new();
        let clone = if clones { Some(tx.clone(&mut sh)) } else { None };
        for v in 0..3u64 {
            seen.push(format!("{:?}", tx.try_send(&mut sh, v)));
        }
        seen.push(format!("{:?}", rx.try_recv(&mut sh)));
        if let Some(clone) = clone {
            clone.drop(&mut sh);
        }
        for _ in 0..2 {
            seen.push(format!("{:?}", rx.try_recv(&mut sh)));
        }
        tx.drop(&mut sh);
        seen.push(format!("{:?}", rx.try_recv(&mut sh)));
        all.push(seen);
    }
    assert_eq!(all[0], all[1]);
    assert_eq!(all[0][6], "Err(Disconnected)");
}

#[test]
fn mpsc_send_makes_these_accesses() {
    let (mut sh, mut tx, _rx) = channel::<u64>(2, WaitStrategy::Park);
    for v in 0..2u64 {
        tx.start(v, false, 0);
        while tx.stage != SendStage::Sent {
            tx.step(&mut sh);
        }
        assert_eq!(tx.finish_try(), Ok(()));
    }
    let (mut sh, mut tx, _rx) = channel::<u64>(2, WaitStrategy::Park);
    tx.start(40, false, 0);
    let mut actions = Vec::new();
    while tx.stage != SendStage::Sent {
        actions.push(tx.action());
        tx.step(&mut sh);
    }
    assert_eq!(
        actions,
        vec![
            SendAction::LoadDropped,
            SendAction::LoadClaim,
            SendAction::Swap(0),
            SendAction::WriteSlot(0),
            SendAction::StoreMark(0, 0),
            SendAction::LoadParked
        ]
    );
}

#[test]
fn mpsc_receive_makes_these_accesses() {
    let (mut sh, mut tx, mut rx) = channel::<u64>(2, WaitStrategy::Park);
    assert_eq!(tx.try_send(&mut sh, 40), Ok(()));
    rx.start(false, 0);
    let mut actions = Vec::new();
    while rx.stage != RecvStage::Got {
        actions.push(rx.action());
        rx.step(&mut sh);
    }
    assert_eq!(
        actions,
        vec![
            RecvAction::LoadMark(0),
            RecvAction::ReadSlot(0),
            RecvAction::StoreHead(1),
            RecvAction::SwapWaiting
        ]
    );
    assert_eq!(rx.finish_try(), Ok(40));
}

#[test]
fn a_lost_claim_backs_off_and_tries_again() {
    let (mut sh, mut a, mut rx) = channel::<u64>(4, WaitStrategy::BusySpin);
    let mut b = a.clone(&mut sh);
    a.start(1, false, 0);
    a.step(&mut sh); // the receiver is there
    a.step(&mut sh); // the next sequence number is 0
    assert_eq!(a.action(), SendAction::Swap(0));
    assert_eq!(b.try_send(&mut sh, 2), Ok(()));
    a.step(&mut sh); // b was faster
    assert_eq!(a.action(), SendAction::Spin(1));
    a.step(&mut sh);
    assert_eq!(a.action(), SendAction::Swap(1));
    while a.stage != SendStage::Sent {
        a.step(&mut sh);
    }
    assert_eq!(a.finish_try(), Ok(()));
    assert_eq!(rx.try_recv(&mut sh), Ok(2));
    assert_eq!(rx.try_recv(&mut sh), Ok(1));
}

#[test]
fn the_backoff_doubles_up_to_its_bound() {
    let (_sh, mut tx, _rx) = channel::<u64>(1024, WaitStrategy::BusySpin);
    tx.start(1, false, 0);
    tx.advance(Event::Flag(false));
    tx.advance(Event::Index(0));
    let mut spins = Vec::new();
    for lost in 1..=9usize {
        tx.advance(Event::Lost(lost));
        match tx.action() {
            SendAction::Spin(n) => spins.push(n),
            _ => panic!("no backoff"),
        }
        tx.advance(Event::Done);
    }
    assert_eq!(spins, vec![1, 2, 4, 8, 16, 32, 64, 64, 64]);
    assert_eq!(tx.action(), SendAction::Swap(9));
}

#[test]
fn a_hole_holds_back_what_comes_after_it() {
    let (mut sh, mut a, mut rx) = channel::<u64>(4, WaitStrategy::BusySpin);
    let mut b = a.clone(&mut sh);
    // `a` claims the first sequence number and stops before it publishes.
    a.start(1, false, 0);
    while a.stage != SendStage::Publish {
        a.step(&mut sh);
    }
    assert_eq!(b.try_send(&mut sh, 2), Ok(()));
    assert_eq!(rx.try_recv(&mut sh), Err(TryRecvError::Empty));
    let mut got = Vec::new();
    assert_eq!(rx.drain(&mut sh, 10, &mut got), 0);
    while a.stage != SendStage::Sent {
        a.step(&mut sh);
    }
    assert_eq!(a.finish_try(), Ok(()));
    assert_eq!(rx.drain(&mut sh, 10, &mut got), 2);
    assert_eq!(got, vec![1, 2]);
}

#[test]
fn a_blocked_sender_holds_no_sequence() {
    let (mut sh, mut a, mut rx) = channel::<u64>(1, WaitStrategy::Park);
    let mut b = a.clone(&mut sh);
    assert_eq!(a.try_send(&mut sh, 0), Ok(()));
    assert_eq!(a.send(&mut sh, 1, 1), Turn::Wait(Rung::Park));
    assert_eq!(rx.try_recv(&mut sh), Ok(0));
    assert_eq!(sh.take_unparked(), vec![1]);
    // `b` takes the room before `a` wakes up.
    assert_eq!(b.try_send(&mut sh, 2), Ok(()));
    assert_eq!(a.resume(&mut sh), Turn::Wait(Rung::Park));
    assert_eq!(rx.try_recv(&mut sh), Ok(2));
    assert_eq!(sh.take_unparked(), vec![1]);
    assert_eq!(a.resume(&mut sh), Turn::Done(Ok(())));
    assert_eq!(rx.try_recv(&mut sh), Ok(1));
}

#[test]
fn all_waiting_senders_are_woken_together() {
    let (mut sh, mut tx, mut rx) = channel::<u64>(1, WaitStrategy::Park);
    assert_eq!(tx.try_send(&mut sh, 0), Ok(()));
    let mut blocked = Vec::new();
    for i in 1..=3u64 {
        let mut t = tx.clone(&mut sh);
        assert_eq!(t.send(&mut sh, i, i), Turn::Wait(Rung::Park));
        blocked.push(t);
    }
    let mut got = Vec::new();
    assert_eq!(rx.drain(&mut sh, 5, &mut got), 1);
    assert_eq!(sh.take_unparked(), vec![1, 2, 3]);
    // One of them finds room, the others go back to sleep.
    assert_eq!(blocked[2].resume(&mut sh), Turn::Done(Ok(())));
    assert_eq!(blocked[0].resume(&mut sh), Turn::Wait(Rung::Park));
    assert_eq!(blocked[1].resume(&mut sh), Turn::Wait(Rung::Park));
    assert_eq!(rx.try_recv(&mut sh), Ok(3));
    assert_eq!(sh.take_unparked(), vec![1, 2]);
}

#[test]
fn items_of_all_senders_come_in_the_order_of_their_claims() {
    let (mut sh, mut a, mut rx) = channel::<u64>(8, WaitStrategy::BusySpin);
    let mut b = a.clone(&mut sh);
    let mut c = b.clone(&mut sh);
    for round in 0..100u64 {
        a.try_send(&mut sh, 3 * round).unwrap();
        b.try_send(&mut sh, 3 * round + 1).unwrap();
        c.try_send(&mut sh, 3 * round + 2).unwrap();
        for k in 0..3u64 {
            assert_eq!(rx.try_recv(&mut sh), Ok(3 * round + k));
        }
    }
}

#[test]
fn a_stale_mark_only_delays() {
    let (mut sh, mut tx, mut rx) = channel::<u64>(2, WaitStrategy::BusySpin);
    assert_eq!(tx.try_send(&mut sh, 1), Ok(()));
    rx.start(false, 0);
    rx.advance(Event::Mark(-1));
    rx.advance(Event::Index(1));
    assert_eq!(rx.finish_try(), Err(TryRecvError::Empty));
    assert_eq!(rx.try_recv(&mut sh), Ok(1));
}

#[test]
fn the_last_item_is_seen_after_the_last_sender() {
    let (mut sh, mut tx, mut rx) = channel::<u64>(2, WaitStrategy::BusySpin);
    rx.start(false, 0);
    rx.step(&mut sh); // not published yet
    assert_eq!(rx.stage, RecvStage::Senders);
    assert_eq!(tx.try_send(&mut sh, 5), Ok(()));
    tx.drop(&mut sh);
    rx.step(&mut sh);
    assert_eq!(rx.stage, RecvStage::FinalAvail);
    while rx.stage != RecvStage::Got {
        rx.step(&mut sh);
    }
    assert_eq!(rx.finish_try(), Ok(5));
    assert_eq!(rx.try_recv(&mut sh), Err(TryRecvError::Disconnected));
}

#[test]
fn mpsc_operations_take_few_accesses() {
    let (mut sh, mut tx, mut rx) = channel::<u64>(1, WaitStrategy::Park);
    for round in 0..4u64 {
        // A sleeping consumer makes the send as long as it can be.
        assert_eq!(rx.recv(&mut sh, 9), Turn::Wait(Rung::Park));
        tx.start(round, false, 0);
        let mut accesses: usize = 0;
        while tx.stage != SendStage::Sent {
            tx.step(&mut sh);
            accesses += 1;
        }
        assert!(accesses <= 10);
        assert_eq!(tx.finish_try(), Ok(()));
        assert_eq!(rx.resume(&mut sh), Turn::Done(Ok(round)));
    }
    rx.start(false, 0);
    let mut accesses: usize = 0;
    while rx.stage != RecvStage::Empty {
        rx.step(&mut sh);
        accesses += 1;
    }
    assert!(accesses <= 9);
}

#[test]
fn the_loss_of_all_senders_is_final() {
    let (mut sh, mut tx, mut rx) = channel::<u64>(4, WaitStrategy::BusySpin);
    let mut tx2 = tx.clone(&mut sh);
    assert_eq!(tx.try_send(&mut sh, 1), Ok(()));
    tx.drop(&mut sh);
    assert_eq!(tx2.try_send(&mut sh, 2), Ok(()));
    tx2.drop(&mut sh);
    assert_eq!(rx.try_recv(&mut sh), Ok(1));
    assert_eq!(rx.try_recv(&mut sh), Ok(2));
    for _ in 0..3 {
        assert_eq!(rx.try_recv(&mut sh), Err(TryRecvError::Disconnected));
        assert_eq!(rx.recv(&mut sh, 9), Turn::Done(Err(RecvError)));
        assert_eq!(rx.drain(&mut sh, 8, &mut Vec::new()), 0);
    }
    rx.drop(&mut sh);
    assert_eq!(sh.drop(), Vec::<u64>::new());
}
