//! Small rings under every order of the threads' accesses.

use std::collections::{HashSet, VecDeque};

use ultima_rings::sharded::{Search, SearchAction, SearchStage};
use ultima_rings::wait::Rung;
use ultima_rings::{mpsc, spsc};
use ultima_rings::{RecvError, SendError, TryRecvError, TrySendError, WaitStrategy};

/// Some threads that share a ring.
trait Model {
    /// How many threads there are.
    fn threads(&self) -> usize;

    /// Thread `i` makes its next access; `false` if it is over or sleeps.
    fn step(&mut self, i: usize) -> bool;

    /// All threads are over.
    fn over(&self) -> bool;

    /// What has to hold when all threads are over.
    fn check(&self);

    /// All that the future depends on.
    fn state(&self) -> String;
}

/// Visits every state that the threads can reach, and returns how many there are. Panics if
/// in one of them some threads sleep and none can go on.
fn explore<M: Model>(new: impl Fn() -> M) -> usize {
    let mut seen: HashSet<String> = HashSet::new();
    let mut todo: VecDeque<Vec<usize>> = VecDeque::new();
    seen.insert(new().state());
    todo.push_back(Vec::new());
    while let Some(prefix) = todo.pop_front() {
        let mut moved = false;
        let n = new().threads();
        for i in 0..n {
            let mut model = new();
            for j in prefix.iter() {
                assert!(model.step(*j));
            }
            if model.step(i) {
                moved = true;
                if seen.insert(model.state()) {
                    let mut longer = prefix.clone();
                    longer.push(i);
                    todo.push_back(longer);
                }
            } else if model.over() {
                model.check();
            }
        }
        if !moved {
            let mut model = new();
            for j in prefix.iter() {
                assert!(model.step(*j));
            }
            assert!(model.over(), "all threads sleep: {}", model.state());
        }
    }
    seen.len()
}

/// A producer that sends 0, 1, 2 without blocking, and a consumer that takes three items.
struct PublishConsume {
    sh: spsc::Shared<u64>,
    tx: spsc::Sender<u64>,
    rx: spsc::Receiver<u64>,
    next: u64,
    got: Vec<u64>,
}

impl Model for PublishConsume {
    fn threads(&self) -> usize {
        2
    }

    fn step(&mut self, i: usize) -> bool {
        if i == 0 {
            let stage = self.tx.stage;
            match stage {
                spsc::SendStage::Ready if self.next == 3 => return false,
                spsc::SendStage::Ready => self.tx.start(self.next, false, 0),
                spsc::SendStage::Sent
                | spsc::SendStage::Full
                | spsc::SendStage::Disconnected => match self.tx.finish_try() {
                    Ok(()) => self.next += 1,
                    Err(TrySendError::Full(b)) => assert_eq!(b, self.next),
                    Err(TrySendError::Disconnected(_)) => unreachable!(),
                },
                _ => self.tx.step(&mut self.sh),
            }
        } else {
            let stage = self.rx.stage;
            match stage {
                spsc::RecvStage::Ready if self.got.len() == 3 => return false,
                spsc::RecvStage::Ready => self.rx.start(false, 0),
                spsc::RecvStage::Got
                | spsc::RecvStage::Empty
                | spsc::RecvStage::Disconnected => match self.rx.finish_try() {
                    Ok(v) => self.got.push(v),
                    Err(TryRecvError::Empty) => {}
                    Err(TryRecvError::Disconnected) => unreachable!(),
                },
                _ => self.rx.step(&mut self.sh),
            }
        }
        true
    }

    fn over(&self) -> bool {
        self.next == 3
            && self.got.len() == 3
            && self.tx.stage == spsc::SendStage::Ready
            && self.rx.stage == spsc::RecvStage::Ready
    }

    fn check(&self) {
        assert_eq!(self.got, vec![0, 1, 2]);
    }

    fn state(&self) -> String {
        format!("{:?} {:?} {:?} {} {:?}", self.sh, self.tx, self.rx, self.next, self.got)
    }
}

/// Publish and consume with wrap: order and count.
#[test]
fn loom_spsc_publish_consume() {
    let n = explore(|| {
        // cap 2, 3 items => exercises wrap + full
        let (sh, tx, rx) = spsc::channel::<u64>(2, WaitStrategy::BusySpin);
        PublishConsume { sh, tx, rx, next: 0, got: Vec::new() }
    });
    assert!(n > 100);
}

/// Two producers with one item each, without blocking, and a consumer.
struct TwoProducers {
    sh: mpsc::Shared<u64>,
    txs: Vec<mpsc::Sender<u64>>,
    done: Vec<bool>,
    rx: mpsc::Receiver<u64>,
    got: Vec<u64>,
    over: bool,
}

impl Model for TwoProducers {
    fn threads(&self) -> usize {
        3
    }

    fn step(&mut self, i: usize) -> bool {
        if i < 2 {
            let tx = &mut self.txs[i];
            let stage = tx.stage;
            match stage {
                mpsc::SendStage::Ready if self.done[i] => tx.start_drop(),
                mpsc::SendStage::Ready => tx.start(i as u64, false, 0),
                mpsc::SendStage::Sent
                | mpsc::SendStage::Full
                | mpsc::SendStage::Disconnected => match tx.finish_try() {
                    Ok(()) => self.done[i] = true,
                    Err(TrySendError::Full(b)) => assert_eq!(b, i as u64),
                    Err(TrySendError::Disconnected(_)) => unreachable!(),
                },
                mpsc::SendStage::Gone => return false,
                _ => tx.step(&mut self.sh),
            }
        } else {
            let stage = self.rx.stage;
            match stage {
                mpsc::RecvStage::Ready if self.over => return false,
                mpsc::RecvStage::Ready => self.rx.start(false, 0),
                mpsc::RecvStage::Got
                | mpsc::RecvStage::Empty
                | mpsc::RecvStage::Disconnected => match self.rx.finish_try() {
                    Ok(v) => self.got.push(v),
                    Err(TryRecvError::Empty) => {}
                    Err(TryRecvError::Disconnected) => self.over = true,
                },
                _ => self.rx.step(&mut self.sh),
            }
        }
        true
    }

    fn over(&self) -> bool {
        self.over && self.txs.iter().all(|tx| tx.stage == mpsc::SendStage::Gone)
    }

    fn check(&self) {
        let mut got = self.got.clone();
        got.sort_unstable();
        assert_eq!(got, vec![0, 1]);
    }

    fn state(&self) -> String {
        format!(
            "{:?} {:?} {:?} {:?} {:?} {}",
            self.sh, self.txs, self.done, self.rx, self.got, self.over
        )
    }
}

/// Two producers, claim/publish/take with wrap: exact multiset, and no early disconnect.
#[test]
fn loom_mpsc_two_producers() {
    for cap in [1usize, 2] {
        let n = explore(|| {
            let (mut sh, tx, rx) = mpsc::channel::<u64>(cap, WaitStrategy::BusySpin);
            let txs = vec![tx.clone(&mut sh), tx.clone(&mut sh)];
            tx.drop(&mut sh);
            TwoProducers { sh, txs, done: vec![false, false], rx, got: Vec::new(), over: false }
        });
        assert!(n > 1000);
    }
}

const PRODUCER: u64 = 1;
const CONSUMER: u64 = 2;

/// A consumer that blocks on one receive, against a producer that sends 7, or is only
/// dropped.
struct ParkedConsumer {
    sh: spsc::Shared<u64>,
    tx: spsc::Sender<u64>,
    rx: spsc::Receiver<u64>,
    sends: bool,
    sent: bool,
    got: Option<Result<u64, RecvError>>,
    tokens: Vec<u64>,
}

impl Model for ParkedConsumer {
    fn threads(&self) -> usize {
        2
    }

    fn step(&mut self, i: usize) -> bool {
        if i == 0 {
            let stage = self.tx.stage;
            match stage {
                spsc::SendStage::Ready if self.sends && !self.sent => {
                    self.tx.start(7, true, PRODUCER);
                }
                spsc::SendStage::Ready if !self.sends => self.tx.start_drop(),
                spsc::SendStage::Ready | spsc::SendStage::Gone => return false,
                spsc::SendStage::Sent => {
                    self.tx.finish().unwrap();
                    self.sent = true;
                }
                spsc::SendStage::Park => unreachable!(),
                _ => self.tx.step(&mut self.sh),
            }
        } else {
            let stage = self.rx.stage;
            match stage {
                spsc::RecvStage::Ready if self.got.is_some() => return false,
                spsc::RecvStage::Ready => self.rx.start(true, CONSUMER),
                spsc::RecvStage::Got | spsc::RecvStage::Disconnected => {
                    self.got = Some(self.rx.finish());
                }
                spsc::RecvStage::Park if !self.tokens.contains(&CONSUMER) => return false,
                spsc::RecvStage::Park => {
                    self.tokens.clear();
                    self.rx.step(&mut self.sh);
                }
                _ => self.rx.step(&mut self.sh),
            }
        }
        for t in self.sh.take_unparked() {
            if !self.tokens.contains(&t) {
                self.tokens.push(t);
            }
        }
        true
    }

    fn over(&self) -> bool {
        self.got.is_some()
    }

    fn check(&self) {
        assert_eq!(self.got, Some(if self.sends { Ok(7) } else { Err(RecvError) }));
    }

    fn state(&self) -> String {
        format!(
            "{:?} {:?} {:?} {} {:?} {:?}",
            self.sh, self.tx, self.rx, self.sent, self.got, self.tokens
        )
    }
}

/// A parked consumer must always see the send; a lost wake-up would leave it asleep.
#[test]
fn loom_park_no_lost_wakeup() {
    let n = explore(|| {
        let (sh, tx, rx) = spsc::channel::<u64>(2, WaitStrategy::Park);
        ParkedConsumer { sh, tx, rx, sends: true, sent: false, got: None, tokens: Vec::new() }
    });
    assert!(n > 50);
}

/// The sender's drop must wake a parked consumer.
#[test]
fn loom_close_wakes_parked_consumer() {
    let n = explore(|| {
        let (sh, tx, rx) = spsc::channel::<u64>(2, WaitStrategy::Park);
        ParkedConsumer { sh, tx, rx, sends: false, sent: false, got: None, tokens: Vec::new() }
    });
    assert!(n > 50);
}

/// A sender that blocks on a full ring, against a consumer that takes one item and is
/// dropped.
struct ParkedSender {
    sh: mpsc::Shared<u64>,
    tx: mpsc::Sender<u64>,
    rx: mpsc::Receiver<u64>,
    sent: Option<Result<(), SendError<u64>>>,
    taken: bool,
    tokens: Vec<u64>,
}

impl Model for ParkedSender {
    fn threads(&self) -> usize {
        2
    }

    fn step(&mut self, i: usize) -> bool {
        if i == 0 {
            let stage = self.tx.stage;
            match stage {
                mpsc::SendStage::Ready if self.sent.is_some() => self.tx.start_drop(),
                mpsc::SendStage::Ready => self.tx.start(1, true, PRODUCER),
                mpsc::SendStage::Sent | mpsc::SendStage::Disconnected => {
                    self.sent = Some(self.tx.finish());
                }
                mpsc::SendStage::Gone => return false,
                mpsc::SendStage::Park if !self.tokens.contains(&PRODUCER) => return false,
                mpsc::SendStage::Park => {
                    self.tokens.clear();
                    self.tx.step(&mut self.sh);
                }
                _ => self.tx.step(&mut self.sh),
            }
        } else {
            let stage = self.rx.stage;
            match stage {
                mpsc::RecvStage::Ready if self.taken => self.rx.start_drop(),
                mpsc::RecvStage::Ready => self.rx.start(false, 0),
                mpsc::RecvStage::Got => {
                    assert_eq!(self.rx.finish_try(), Ok(0));
                    self.taken = true;
                }
                mpsc::RecvStage::Gone => return false,
                _ => self.rx.step(&mut self.sh),
            }
        }
        for t in self.sh.take_unparked() {
            if !self.tokens.contains(&t) {
                self.tokens.push(t);
            }
        }
        true
    }

    fn over(&self) -> bool {
        self.tx.stage == mpsc::SendStage::Gone && self.rx.stage == mpsc::RecvStage::Gone
    }

    fn check(&self) {
        match self.sent {
            Some(Ok(())) | Some(Err(SendError(1))) => {}
            _ => panic!("value lost"),
        }
    }

    fn state(&self) -> String {
        format!(
            "{:?} {:?} {:?} {:?} {} {:?}",
            self.sh, self.tx, self.rx, self.sent, self.taken, self.tokens
        )
    }
}

/// A sender parked on a full ring must be woken by both possible events, progress of the
/// consumer and its drop: it delivers or gets its value back, and never hangs.
#[test]
fn loom_full_parked_sender_vs_recv_and_rx_drop() {
    let n = explore(|| {
        let (mut sh, mut tx, rx) = mpsc::channel::<u64>(1, WaitStrategy::Park);
        tx.try_send(&mut sh, 0).unwrap(); // fill the 1-slot ring
        ParkedSender { sh, tx, rx, sent: None, taken: false, tokens: Vec::new() }
    });
    assert!(n > 100);
}

/// How the consumer of some shards takes its items.
#[derive(Debug, Clone, Copy, PartialEq, Eq)]
enum Takes {
    /// One by one, without blocking.
    Try,
    /// One by one, blocking.
    Block,
    /// In batches of up to two, and after an empty batch one by one.
    Batch,
}

/// Two shards, each with a producer that sends its values and is dropped, and a consumer that
/// searches until it sees `Disconnected`.
struct Shards {
    mem: Vec<spsc::Shared<u64>>,
    txs: Vec<spsc::Sender<u64>>,
    values: Vec<Vec<u64>>,
    expected: Vec<Vec<u64>>,
    rxs: Vec<spsc::Receiver<u64>>,
    search: Search,
    takes: Takes,
    batch_next: bool,
    got: Vec<Vec<u64>>,
    over: bool,
}

impl Shards {
    fn new(values: Vec<Vec<u64>>, takes: Takes) -> Shards {
        let mut mem = Vec::new();
        let mut txs = Vec::new();
        let mut rxs = Vec::new();
        for _ in 0..2 {
            let (sh, tx, rx) = spsc::channel::<u64>(2, WaitStrategy::BusySpin);
            mem.push(sh);
            txs.push(tx);
            rxs.push(rx);
        }
        Shards {
            mem,
            txs,
            expected: values.clone(),
            values,
            rxs,
            search: Search::new(2, WaitStrategy::BusySpin),
            takes,
            batch_next: true,
            got: vec![Vec::new(), Vec::new()],
            over: false,
        }
    }

    fn produce(&mut self, i: usize) -> bool {
        let tx = &mut self.txs[i];
        let stage = tx.stage;
        match stage {
            spsc::SendStage::Ready if self.values[i].is_empty() => {
                tx.start_drop(); // racing the consumer's sweep
            }
            spsc::SendStage::Ready => tx.start(self.values[i].remove(0), false, 0),
            // cap 2 per shard and no more items: Full is impossible.
            spsc::SendStage::Sent
            | spsc::SendStage::Full
            | spsc::SendStage::Disconnected => assert_eq!(tx.finish_try(), Ok(())),
            spsc::SendStage::Gone => return false,
            _ => tx.step(&mut self.mem[i]),
        }
        true
    }

    fn try_shard(&mut self, c: usize) {
        let rx = &mut self.rxs[c];
        let stage = rx.stage;
        match stage {
            spsc::RecvStage::Ready => rx.start(false, 0),
            spsc::RecvStage::Got | spsc::RecvStage::Empty | spsc::RecvStage::Disconnected => {
                match rx.finish_try() {
                    Ok(v) => {
                        self.search.hit();
                        self.got[c].push(v);
                    }
                    Err(e) => self.search.miss(e == TryRecvError::Disconnected),
                }
            }
            _ => rx.step(&mut self.mem[c]),
        }
    }

    fn consume(&mut self) -> bool {
        if self.over {
            return false;
        }
        match self.search.action() {
            SearchAction::Try(c) => self.try_shard(c),
            SearchAction::Pause(rung) => {
                assert_eq!(rung, Rung::Spin);
                self.search.rest();
            }
            SearchAction::Return => match self.search.stage {
                SearchStage::Ready if self.takes == Takes::Batch && self.batch_next => {
                    self.search.start_drain(2);
                }
                SearchStage::Ready => self.search.start(self.takes == Takes::Block),
                SearchStage::Drained => self.batch_next = self.search.finish_drain() > 0,
                _ if self.takes == Takes::Block => self.over = self.search.finish().is_err(),
                _ => {
                    self.over = self.search.finish_try() == Err(TryRecvError::Disconnected);
                    self.batch_next = true;
                }
            },
        }
        true
    }
}

impl Model for Shards {
    fn threads(&self) -> usize {
        3
    }

    fn step(&mut self, i: usize) -> bool {
        if i < 2 {
            self.produce(i)
        } else {
            self.consume()
        }
    }

    fn over(&self) -> bool {
        self.over && self.txs.iter().all(|tx| tx.stage == spsc::SendStage::Gone)
    }

    fn check(&self) {
        assert_eq!(self.got, self.expected, "lost a value or Disconnected early");
    }

    fn state(&self) -> String {
        format!(
            "{:?} {:?} {:?} {:?} {:?} {} {:?} {}",
            self.mem,
            self.txs,
            self.values,
            self.rxs,
            self.search,
            self.batch_next,
            self.got,
            self.over
        )
    }
}

/// Two shards, one value each, senders drop at arbitrary points: the consumer must deliver
/// both values before it ever reports `Disconnected`.
#[test]
fn loom_sharded_no_loss_no_early_disconnect() {
    let n = explore(|| Shards::new(vec![vec![0], vec![1]], Takes::Try));
    assert!(n > 1000);
}

/// Shard 0's sender drops without ever sending while shard 1 sends then drops: the value must
/// still be delivered first.
#[test]
fn loom_sharded_staggered_drop() {
    let n = explore(|| Shards::new(vec![vec![], vec![7]], Takes::Try));
    assert!(n > 500);
}

/// A blocking search goes round until an item comes, and ends only when both shards are
/// drained and without a sender.
#[test]
fn a_blocking_search_gets_every_item_first() {
    let n = explore(|| Shards::new(vec![vec![], vec![3, 4]], Takes::Block));
    assert!(n > 500);
}

/// Batches over both shards take what is there, each producer's items in order.
#[test]
fn batches_of_a_search_get_every_item_in_order() {
    let n = explore(|| Shards::new(vec![vec![], vec![5, 6]], Takes::Batch));
    assert!(n > 500);
}

/// A producer that sends 1, against the drop of the receiver.
struct RacingDrop {
    sh: spsc::Shared<u64>,
    tx: spsc::Sender<u64>,
    rx: spsc::Receiver<u64>,
    sent: Option<Result<(), TrySendError<u64>>>,
}

impl Model for RacingDrop {
    fn threads(&self) -> usize {
        2
    }

    fn step(&mut self, i: usize) -> bool {
        if i == 0 {
            let stage = self.tx.stage;
            match stage {
                spsc::SendStage::Ready if self.sent.is_some() => self.tx.start_drop(),
                spsc::SendStage::Ready => self.tx.start(1, false, 0),
                spsc::SendStage::Sent
                | spsc::SendStage::Full
                | spsc::SendStage::Disconnected => self.sent = Some(self.tx.finish_try()),
                spsc::SendStage::Gone => return false,
                _ => self.tx.step(&mut self.sh),
            }
        } else {
            let stage = self.rx.stage;
            match stage {
                spsc::RecvStage::Ready => self.rx.start_drop(),
                spsc::RecvStage::Gone => return false,
                _ => self.rx.step(&mut self.sh),
            }
        }
        true
    }

    fn over(&self) -> bool {
        self.tx.stage == spsc::SendStage::Gone && self.rx.stage == spsc::RecvStage::Gone
    }

    fn check(&self) {
        match self.sent {
            Some(Ok(())) | Some(Err(TrySendError::Disconnected(1))) => {}
            _ => unreachable!(),
        }
    }

    fn state(&self) -> String {
        format!("{:?} {:?} {:?} {:?}", self.sh, self.tx, self.rx, self.sent)
    }
}

/// The receiver drops while a producer is sending: the producer gets the value back or has
/// delivered it into the ring.
#[test]
fn loom_sharded_rx_drop_races_send() {
    let n = explore(|| {
        let (sh, tx, rx) = spsc::channel::<u64>(2, WaitStrategy::BusySpin);
        RacingDrop { sh, tx, rx, sent: None }
    });
    assert!(n > 20);
}
