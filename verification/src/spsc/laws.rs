//! What the accesses, the waits and the whole operations are good for.

use vstd::prelude::*;

use crate::notify::{Parker, Side};
use crate::spsc::{
    Call, Event, Memory, Receiver, RecvAction, RecvStage, Reply, SendAction, SendStage, Seen,
    Sender,
};
use crate::wait::{Rung, Turn, WaitStrategy};
use crate::{RecvError, SendError, TryRecvError, TrySendError};

verus! {

// ---------------------------------------------------------------------------
// The accesses
// ---------------------------------------------------------------------------

/// The producer asks for the access that it counts on: whoever makes the access that it names,
/// on any memory, leaves that memory as the machine takes it to be left, and gets from it what
/// the machine takes the newest answer to be. The value goes to slot `tail % cap`, and then the
/// tail goes up by one. A machine asks for nothing exactly when it takes no answer.
pub proof fn law_the_producer_asks_for_its_accesses<T>(tx: Sender<T>, m: Memory<T>)
    requires
        tx.wf(),
        tx.cap == m.cap,
        tx.stage == SendStage::Publish ==> tx.tail < usize::MAX,
    ensures
        match tx.asks() {
            SendAction::LoadDisconnected => {
                &&& tx.leaves(m) == m
                &&& tx.sees(m) == Event::Flag(m.disconnected)
            },
            SendAction::LoadHead => tx.leaves(m) == m && tx.sees(m) == Event::Index(m.head),
            SendAction::WriteSlot(i) => {
                &&& i == tx.tail as int % tx.cap as int
                &&& tx.value is Some
                &&& tx.leaves(m) == (Memory { slots: m.slots.update(i as int, tx.value), ..m })
                &&& tx.sees(m) == Event::Done
            },
            SendAction::StoreTail(tail) => {
                &&& tail == tx.tail + 1
                &&& tx.leaves(m) == (Memory { tail, ..m })
                &&& tx.sees(m) == Event::Done
            },
            SendAction::StoreDisconnected => {
                &&& tx.leaves(m) == (Memory { disconnected: true, ..m })
                &&& tx.sees(m) == Event::Done
            },
            SendAction::LoadParked(Side::Consumer) => {
                &&& tx.leaves(m) == m
                &&& tx.sees(m) == Event::Flag(m.consumer.parked)
            },
            SendAction::LoadParked(Side::Producer) => {
                &&& tx.leaves(m) == m
                &&& tx.sees(m) == Event::Flag(m.producer.parked)
            },
            SendAction::ClearParked(Side::Consumer) => {
                &&& tx.leaves(m) == (Memory {
                    consumer: Parker { parked: false, slot: m.consumer.slot },
                    ..m
                })
                &&& tx.sees(m) == Event::Done
            },
            SendAction::ClearParked(Side::Producer) => {
                &&& tx.leaves(m) == (Memory {
                    producer: Parker { parked: false, slot: m.producer.slot },
                    ..m
                })
                &&& tx.sees(m) == Event::Done
            },
            SendAction::TakeWaiter(Side::Consumer) => {
                &&& tx.leaves(m) == (Memory {
                    consumer: Parker { parked: m.consumer.parked, slot: None },
                    unparked: match m.consumer.slot {
                        Some(t) => m.unparked.push(t),
                        None => m.unparked,
                    },
                    ..m
                })
                &&& tx.sees(m) == Event::Done
            },
            SendAction::TakeWaiter(Side::Producer) => {
                &&& tx.leaves(m) == (Memory {
                    producer: Parker { parked: m.producer.parked, slot: None },
                    unparked: match m.producer.slot {
                        Some(t) => m.unparked.push(t),
                        None => m.unparked,
                    },
                    ..m
                })
                &&& tx.sees(m) == Event::Done
            },
            SendAction::Register => {
                &&& tx.leaves(m) == (Memory {
                    producer: Parker { parked: m.producer.parked, slot: Some(tx.me) },
                    ..m
                })
                &&& tx.sees(m) == Event::Done
            },
            SendAction::Announce => {
                &&& tx.leaves(m) == (Memory {
                    producer: Parker { parked: true, slot: m.producer.slot },
                    ..m
                })
                &&& tx.sees(m) == Event::Done
            },
            SendAction::Pause(_) => tx.leaves(m) == m && tx.sees(m) == Event::Done,
            SendAction::Return => tx.leaves(m) == m,
        },
        tx.asks() == SendAction::Return <==> forall|ev: Event| !tx.expects(ev),
{
    crate::index::lemma_cap_positive(tx.cap as int);
    crate::index::lemma_slot_bound(tx.tail as int, tx.cap as int);
    if tx.asks() != SendAction::Return {
        assert(tx.expects(Event::Done) || tx.expects(Event::Flag(false)) || tx.expects(
            Event::Index(tx.cached_head),
        ));
    }
}

/// The consumer asks for the access that it counts on, as the producer does. The item comes out
/// of slot `head % cap`.
pub proof fn law_the_consumer_asks_for_its_accesses<T>(rx: Receiver<T>, m: Memory<T>, ev: Event)
    requires
        rx.wf(),
        rx.cap == m.cap,
    ensures
        match rx.asks() {
            RecvAction::LoadDisconnected => {
                &&& rx.leaves(m) == m
                &&& rx.sees(m) == Event::Flag(m.disconnected)
            },
            RecvAction::LoadTail => rx.leaves(m) == m && rx.sees(m) == Event::Index(m.tail),
            RecvAction::ReadSlot(i) => {
                &&& i == rx.head as int % rx.cap as int
                &&& rx.leaves(m) == (Memory { slots: m.slots.update(i as int, None), ..m })
                &&& rx.after(m, ev) == rx.accepted(m.slots[i as int]->0)
                &&& rx.accepted(m.slots[i as int]->0).value == Some(m.slots[i as int]->0)
                &&& rx.accepted(m.slots[i as int]->0).head == rx.head + 1
            },
            RecvAction::StoreHead(head) => {
                &&& head == rx.head
                &&& rx.leaves(m) == (Memory { head, ..m })
                &&& rx.sees(m) == Event::Done
            },
            RecvAction::StoreDisconnected => {
                &&& rx.leaves(m) == (Memory { disconnected: true, ..m })
                &&& rx.sees(m) == Event::Done
            },
            RecvAction::LoadParked(Side::Consumer) => {
                &&& rx.leaves(m) == m
                &&& rx.sees(m) == Event::Flag(m.consumer.parked)
            },
            RecvAction::LoadParked(Side::Producer) => {
                &&& rx.leaves(m) == m
                &&& rx.sees(m) == Event::Flag(m.producer.parked)
            },
            RecvAction::ClearParked(Side::Consumer) => {
                &&& rx.leaves(m) == (Memory {
                    consumer: Parker { parked: false, slot: m.consumer.slot },
                    ..m
                })
                &&& rx.sees(m) == Event::Done
            },
            RecvAction::ClearParked(Side::Producer) => {
                &&& rx.leaves(m) == (Memory {
                    producer: Parker { parked: false, slot: m.producer.slot },
                    ..m
                })
                &&& rx.sees(m) == Event::Done
            },
            RecvAction::TakeWaiter(Side::Consumer) => {
                &&& rx.leaves(m) == (Memory {
                    consumer: Parker { parked: m.consumer.parked, slot: None },
                    unparked: match m.consumer.slot {
                        Some(t) => m.unparked.push(t),
                        None => m.unparked,
                    },
                    ..m
                })
                &&& rx.sees(m) == Event::Done
            },
            RecvAction::TakeWaiter(Side::Producer) => {
                &&& rx.leaves(m) == (Memory {
                    producer: Parker { parked: m.producer.parked, slot: None },
                    unparked: match m.producer.slot {
                        Some(t) => m.unparked.push(t),
                        None => m.unparked,
                    },
                    ..m
                })
                &&& rx.sees(m) == Event::Done
            },
            RecvAction::Register => {
                &&& rx.leaves(m) == (Memory {
                    consumer: Parker { parked: m.consumer.parked, slot: Some(rx.me) },
                    ..m
                })
                &&& rx.sees(m) == Event::Done
            },
            RecvAction::Announce => {
                &&& rx.leaves(m) == (Memory {
                    consumer: Parker { parked: true, slot: m.consumer.slot },
                    ..m
                })
                &&& rx.sees(m) == Event::Done
            },
            RecvAction::Pause(_) => rx.leaves(m) == m && rx.sees(m) == Event::Done,
            RecvAction::Deliver => rx.leaves(m) == m && rx.value is Some,
            RecvAction::Return => rx.leaves(m) == m,
        },
        !(rx.asks() is ReadSlot) ==> rx.after(m, ev) == rx.next(ev),
        rx.asks() == RecvAction::Return <==> forall|ev: Event| !rx.expects(ev),
{
    crate::index::lemma_cap_positive(rx.cap as int);
    crate::index::lemma_slot_bound(rx.head as int, rx.cap as int);
    if rx.asks() != RecvAction::Return {
        assert(rx.expects(Event::Done) || rx.expects(Event::Flag(false)) || rx.expects(
            Event::Index(rx.cached_tail),
        ));
    }
}

/// The consumer looks for an item where the producer put it: the slot that the producer asks to
/// write for one sequence number is the slot that the consumer asks to read for it, and no two
/// of `cap` sequence numbers in a row share one.
pub proof fn law_both_sides_name_the_same_slot<T>(tx: Sender<T>, rx: Receiver<T>)
    requires
        tx.wf(),
        rx.wf(),
        tx.cap == rx.cap,
        tx.asks() is WriteSlot,
        rx.asks() is ReadSlot,
    ensures
        tx.tail == rx.head ==> tx.asks()->WriteSlot_0 == rx.asks()->ReadSlot_0,
        rx.head < tx.tail < rx.head + rx.cap ==> tx.asks()->WriteSlot_0
            != rx.asks()->ReadSlot_0,
        tx.asks()->WriteSlot_0 < tx.cap,
{
    crate::index::lemma_cap_positive(tx.cap as int);
    crate::index::lemma_slot_bound(tx.tail as int, tx.cap as int);
    crate::index::lemma_slot_bound(rx.head as int, rx.cap as int);
    if rx.head < tx.tail < rx.head + rx.cap {
        crate::index::lemma_slots_differ(rx.head as int, tx.tail as int, rx.cap as int);
    }
}

/// Only `Park` costs the productive side anything: under the other strategies a send and a
/// receive never ask for an access to a parker. (The drop of a handle does.)
pub proof fn law_only_park_touches_the_parkers<T>(tx: Sender<T>, rx: Receiver<T>)
    requires
        tx.wf(),
        rx.wf(),
        tx.strategy != WaitStrategy::Park,
        rx.strategy != WaitStrategy::Park,
    ensures
        !(tx.stage is CloseWake) ==> match tx.asks() {
            SendAction::LoadParked(_)
            | SendAction::ClearParked(_)
            | SendAction::TakeWaiter(_)
            | SendAction::Register
            | SendAction::Announce => false,
            _ => true,
        },
        !(rx.stage is CloseWake) ==> match rx.asks() {
            RecvAction::LoadParked(_)
            | RecvAction::ClearParked(_)
            | RecvAction::TakeWaiter(_)
            | RecvAction::Register
            | RecvAction::Announce => false,
            _ => true,
        },
{
}

/// A batch that is cut short stores the head past what it took, and asks for nothing else: it
/// wakes nobody.
pub proof fn law_a_cut_batch_only_stores_the_head<T>(rx: Receiver<T>)
    requires
        rx.stage == RecvStage::DrainTail || rx.stage == RecvStage::DrainRead || rx.stage
            == RecvStage::DrainStore,
    ensures
        rx.count == 0 ==> rx.drain_cut().asks() == RecvAction::Return,
        rx.count > 0 ==> {
            &&& rx.drain_cut().asks() == RecvAction::StoreHead(rx.head)
            &&& rx.drain_cut().next(Event::Done).asks() == RecvAction::Return
            &&& rx.drain_cut().next(Event::Done).stage == RecvStage::Drained
        },
        rx.drain_cut().head == rx.head,
        rx.drain_cut().count == rx.count,
{
}

/// How the producer goes to sleep under `Park`: it leaves its name, raises its flag, and looks
/// at the head and for the receiver once more; only if the ring is still full and the receiver
/// still there does it sleep. Whether it sleeps or not, it lowers its flag, and then tries again.
pub proof fn law_how_the_producer_goes_to_sleep<T>(tx: Sender<T>, head: usize)
    requires
        tx.wf(),
        tx.blocking,
        tx.strategy == WaitStrategy::Park,
        tx.cached_head <= head <= tx.tail,
    ensures
        ({
            let registers = tx.blocked();
            let announces = registers.next(Event::Done);
            let looks = announces.next(Event::Done);
            let asks_flag = looks.next(Event::Index(head));
            let sleeps = asks_flag.next(Event::Flag(false));
            let wakes = sleeps.next(Event::Done);
            &&& registers.asks() == SendAction::Register
            &&& announces.asks() == SendAction::Announce
            &&& looks.asks() == SendAction::LoadHead
            &&& tx.tail - head < tx.cap ==> {
                &&& asks_flag.asks() == SendAction::ClearParked(Side::Producer)
                &&& asks_flag.next(Event::Done).asks() == SendAction::LoadDisconnected
            }
            &&& tx.tail - head >= tx.cap ==> {
                &&& asks_flag.asks() == SendAction::LoadDisconnected
                &&& asks_flag.next(Event::Flag(true)).asks() == SendAction::ClearParked(
                    Side::Producer,
                )
                &&& asks_flag.next(Event::Flag(true)).next(Event::Done).asks()
                    == SendAction::LoadDisconnected
                &&& sleeps.asks() == SendAction::Pause(Rung::Park)
                &&& wakes.asks() == SendAction::ClearParked(Side::Producer)
                &&& wakes.next(Event::Done).asks() == SendAction::LoadDisconnected
            }
        }),
{
}

/// How the consumer goes to sleep under `Park`: it leaves its name, raises its flag, and looks
/// at the tail and for the sender once more; only if the ring is still empty and the sender
/// still there does it sleep. Whether it sleeps or not, it lowers its flag, and then tries again.
pub proof fn law_how_the_consumer_goes_to_sleep<T>(rx: Receiver<T>, tail: usize)
    requires
        rx.wf(),
        rx.blocking,
        rx.strategy == WaitStrategy::Park,
        rx.head == rx.cached_tail,
        rx.cached_tail <= tail <= rx.head + rx.cap,
    ensures
        ({
            let registers = rx.blocked();
            let announces = registers.next(Event::Done);
            let looks = announces.next(Event::Done);
            let asks_flag = looks.next(Event::Index(tail));
            let sleeps = asks_flag.next(Event::Flag(false));
            let wakes = sleeps.next(Event::Done);
            &&& registers.asks() == RecvAction::Register
            &&& announces.asks() == RecvAction::Announce
            &&& looks.asks() == RecvAction::LoadTail
            &&& tail != rx.head ==> {
                &&& asks_flag.asks() == RecvAction::ClearParked(Side::Consumer)
                &&& asks_flag.next(Event::Done).asks() == RecvAction::LoadTail
            }
            &&& tail == rx.head ==> {
                &&& asks_flag.asks() == RecvAction::LoadDisconnected
                &&& asks_flag.next(Event::Flag(true)).asks() == RecvAction::ClearParked(
                    Side::Consumer,
                )
                &&& asks_flag.next(Event::Flag(true)).next(Event::Done).asks()
                    == RecvAction::LoadTail
                &&& sleeps.asks() == RecvAction::Pause(Rung::Park)
                &&& wakes.asks() == RecvAction::ClearParked(Side::Consumer)
                &&& wakes.next(Event::Done).asks() == RecvAction::LoadTail
            }
        }),
{
}

/// A sleep leaves no flag behind, and a wait by itself leaves nothing: when a blocked operation
/// goes on, nobody would be unparked for it any more, and the ring is as it was.
pub proof fn law_a_wait_leaves_no_flag<T>(tx: Sender<T>, rx: Receiver<T>, m: Memory<T>)
    ensures
        tx.asks() == SendAction::Pause(Rung::Park) && tx.wf() ==> {
            &&& !tx.rested(m).producer.parked
            &&& tx.rested(m).unparked == m.unparked
            &&& tx.rested(m).consumer == m.consumer
            &&& tx.rested(m).seen() == m.seen()
        },
        tx.strategy != WaitStrategy::Park && tx.wf() ==> tx.rested(m) == m,
        rx.asks() == RecvAction::Pause(Rung::Park) && rx.wf() ==> {
            &&& !rx.rested(m).consumer.parked
            &&& rx.rested(m).unparked == m.unparked
            &&& rx.rested(m).producer == m.producer
            &&& rx.rested(m).seen() == m.seen()
        },
        rx.strategy != WaitStrategy::Park && rx.wf() ==> rx.rested(m) == m,
{
    crate::spsc::lemma_same_ring(m, tx.rested(m));
    crate::spsc::lemma_same_ring(m, rx.rested(m));
}

// ---------------------------------------------------------------------------
// The waits
// ---------------------------------------------------------------------------

/// The states that one blocking send goes through, one access after the other.
pub open spec fn course_of_send<T>(txs: Seq<Sender<T>>, tx: Sender<T>, v: T, me: u64) -> bool {
    &&& txs.len() > 0
    &&& txs[0] == tx.started(v, true, me)
    &&& forall|k: int| 0 <= k < txs.len() ==> (#[trigger] txs[k]).wf()
    &&& forall|k: int| 0 < k < txs.len() ==> #[trigger] send_moves(txs, k)
}

/// An access leads to the `k`-th state.
pub open spec fn send_moves<T>(txs: Seq<Sender<T>>, k: int) -> bool {
    exists|ev: Event| txs[k - 1].expects(ev) && txs[k] == #[trigger] txs[k - 1].next(ev)
}

/// How often the producer has asked to wait before its `k`-th state.
pub open spec fn waits_of_send<T>(txs: Seq<Sender<T>>, k: int) -> nat
    decreases k,
{
    if k <= 0 {
        0
    } else if txs[k - 1].asks() is Pause {
        waits_of_send(txs, k - 1) + 1
    } else {
        waits_of_send(txs, k - 1)
    }
}

/// Only a wait leads up the ladder, and only by one rung.
proof fn lemma_send_moves<T>(tx: Sender<T>, ev: Event)
    requires
        tx.wf(),
        tx.expects(ev),
    ensures
        tx.next(ev).strategy == tx.strategy,
        tx.next(ev).idle == if tx.asks() is Pause {
            tx.strategy.up(tx.idle)
        } else {
            tx.idle
        },
{
}

proof fn lemma_course_of_send<T>(txs: Seq<Sender<T>>, tx: Sender<T>, v: T, me: u64, k: int)
    requires
        course_of_send(txs, tx, v, me),
        0 <= k < txs.len(),
    ensures
        txs[k].strategy == tx.strategy,
        txs[k].idle == tx.strategy.climbs(waits_of_send(txs, k)),
    decreases k,
{
    if k > 0 {
        lemma_course_of_send(txs, tx, v, me, k - 1);
        assert(txs[k - 1].wf());
        assert(send_moves(txs, k));
        let ev = choose|ev: Event|
            txs[k - 1].expects(ev) && txs[k] == #[trigger] txs[k - 1].next(ev);
        lemma_send_moves(txs[k - 1], ev);
    }
}

/// A blocked send climbs the ladder: each time that it asks to wait, it asks for the next wait
/// of its strategy, from the first one on.
pub proof fn law_a_blocked_send_climbs_the_ladder<T>(
    txs: Seq<Sender<T>>,
    tx: Sender<T>,
    v: T,
    me: u64,
    k: int,
)
    requires
        course_of_send(txs, tx, v, me),
        0 <= k < txs.len(),
        txs[k].asks() is Pause,
    ensures
        txs[k].asks() == SendAction::Pause(
            crate::wait::kth_wait(tx.strategy, waits_of_send(txs, k)),
        ),
{
    lemma_course_of_send(txs, tx, v, me, k);
    crate::wait::law_climbing_gives_the_waits(tx.strategy, waits_of_send(txs, k));
    assert(txs[k].wf());
}

/// The states that one blocking receive goes through, one access after the other.
pub open spec fn course_of_recv<T>(rxs: Seq<Receiver<T>>, rx: Receiver<T>, me: u64) -> bool {
    &&& rxs.len() > 0
    &&& rxs[0] == rx.started(true, me)
    &&& forall|k: int| 0 <= k < rxs.len() ==> (#[trigger] rxs[k]).wf()
    &&& forall|k: int| 0 < k < rxs.len() ==> #[trigger] recv_moves(rxs, k)
}

/// An access leads to the `k`-th state.
pub open spec fn recv_moves<T>(rxs: Seq<Receiver<T>>, k: int) -> bool {
    exists|m: Memory<T>, ev: Event|
        rxs[k - 1].expects(ev) && rxs[k] == #[trigger] rxs[k - 1].after(m, ev)
}

/// How often the consumer has asked to wait before its `k`-th state.
pub open spec fn waits_of_recv<T>(rxs: Seq<Receiver<T>>, k: int) -> nat
    decreases k,
{
    if k <= 0 {
        0
    } else if rxs[k - 1].asks() is Pause {
        waits_of_recv(rxs, k - 1) + 1
    } else {
        waits_of_recv(rxs, k - 1)
    }
}

/// Only a wait leads up the ladder, and only by one rung.
proof fn lemma_recv_moves<T>(rx: Receiver<T>, m: Memory<T>, ev: Event)
    requires
        rx.wf(),
        rx.expects(ev),
    ensures
        rx.after(m, ev).strategy == rx.strategy,
        rx.after(m, ev).idle == if rx.asks() is Pause {
            rx.strategy.up(rx.idle)
        } else {
            rx.idle
        },
{
}

proof fn lemma_course_of_recv<T>(rxs: Seq<Receiver<T>>, rx: Receiver<T>, me: u64, k: int)
    requires
        course_of_recv(rxs, rx, me),
        0 <= k < rxs.len(),
    ensures
        rxs[k].strategy == rx.strategy,
        rxs[k].idle == rx.strategy.climbs(waits_of_recv(rxs, k)),
    decreases k,
{
    if k > 0 {
        lemma_course_of_recv(rxs, rx, me, k - 1);
        assert(rxs[k - 1].wf());
        assert(recv_moves(rxs, k));
        let (m, ev) = choose|m: Memory<T>, ev: Event|
            rxs[k - 1].expects(ev) && rxs[k] == #[trigger] rxs[k - 1].after(m, ev);
        lemma_recv_moves(rxs[k - 1], m, ev);
    }
}

/// A blocked receive climbs the ladder: each time that it asks to wait, it asks for the next
/// wait of its strategy, from the first one on.
pub proof fn law_a_blocked_receive_climbs_the_ladder<T>(
    rxs: Seq<Receiver<T>>,
    rx: Receiver<T>,
    me: u64,
    k: int,
)
    requires
        course_of_recv(rxs, rx, me),
        0 <= k < rxs.len(),
        rxs[k].asks() is Pause,
    ensures
        rxs[k].asks() == RecvAction::Pause(
            crate::wait::kth_wait(rx.strategy, waits_of_recv(rxs, k)),
        ),
{
    lemma_course_of_recv(rxs, rx, me, k);
    crate::wait::law_climbing_gives_the_waits(rx.strategy, waits_of_recv(rxs, k));
    assert(rxs[k].wf());
}

/// One run of a blocking send: the machine and the memory before it, what it returns, and the
/// machine and the memory after it.
pub struct SendRun<T> {
    pub tx: Sender<T>,
    pub m: Memory<T>,
    pub r: Turn<Result<(), SendError<T>>>,
    pub tx2: Sender<T>,
    pub m2: Memory<T>,
}

impl<T> SendRun<T> {
    /// This is what such a run does.
    pub open spec fn is_run(self) -> bool {
        self.tx.send_turn(self.m, self.r, self.tx2, self.m2)
    }
}

/// The runs of one send of `v` by `tx`: the call, and then a resumption after every wait,
/// whatever the ring is then.
pub open spec fn runs_of_send<T>(runs: Seq<SendRun<T>>, tx: Sender<T>, v: T, me: u64) -> bool {
    &&& runs.len() > 0
    &&& runs[0].tx == tx.started(v, true, me)
    &&& forall|k: int| 0 <= k < runs.len() ==> (#[trigger] runs[k]).is_run()
    &&& forall|k: int| 0 < k < runs.len() ==> #[trigger] resumes_send(runs, k)
}

/// The `k`-th run is the resumption of the one before.
pub open spec fn resumes_send<T>(runs: Seq<SendRun<T>>, k: int) -> bool {
    runs[k - 1].r is Wait && runs[k].tx == runs[k - 1].tx2.awake()
}

proof fn lemma_runs_of_send<T>(runs: Seq<SendRun<T>>, tx: Sender<T>, v: T, me: u64, k: int)
    requires
        runs_of_send(runs, tx, v, me),
        0 <= k < runs.len(),
    ensures
        runs[k].tx.strategy == tx.strategy,
        runs[k].tx.idle == tx.strategy.climbs(k as nat),
        runs[k].tx.value == Some(v),
    decreases k,
{
    if k > 0 {
        lemma_runs_of_send(runs, tx, v, me, k - 1);
        assert(runs[k - 1].is_run());
        assert(resumes_send(runs, k));
    }
}

/// What a send returns each time that it is run: with the receiver gone it fails and hands its
/// value back; with fewer items in the ring than it has slots it succeeds and its value is the
/// newest; and otherwise it waits, the `k`-th time as its strategy says for the `k`-th wait,
/// and leaves what is in the ring.
pub proof fn law_what_a_blocking_send_returns<T>(
    runs: Seq<SendRun<T>>,
    tx: Sender<T>,
    v: T,
    me: u64,
    k: int,
)
    requires
        runs_of_send(runs, tx, v, me),
        0 <= k < runs.len(),
        runs[k].m.wf(),
    ensures
        ({
            let m = runs[k].m;
            let items = m.contents();
            let left = runs[k].m2.contents();
            match runs[k].r {
                Turn::Done(Err(SendError(back))) => m.disconnected && back == v && left == items,
                Turn::Done(Ok(())) => {
                    &&& !m.disconnected
                    &&& items.len() < m.cap
                    &&& left == items.push(v)
                },
                Turn::Wait(rung) => {
                    &&& !m.disconnected
                    &&& items.len() == m.cap
                    &&& left == items
                    &&& rung == crate::wait::kth_wait(tx.strategy, k as nat)
                },
            }
        }),
{
    lemma_runs_of_send(runs, tx, v, me, k);
    assert(runs[k].is_run());
    crate::wait::law_climbing_gives_the_waits(tx.strategy, k as nat);
}

/// One run of a blocking receive: the machine and the memory before it, what it returns, and
/// the machine and the memory after it.
pub struct RecvRun<T> {
    pub rx: Receiver<T>,
    pub m: Memory<T>,
    pub r: Turn<Result<T, RecvError>>,
    pub rx2: Receiver<T>,
    pub m2: Memory<T>,
}

impl<T> RecvRun<T> {
    /// This is what such a run does.
    pub open spec fn is_run(self) -> bool {
        self.rx.recv_turn(self.m, self.r, self.rx2, self.m2)
    }
}

/// The runs of one receive by `rx`: the call, and then a resumption after every wait, whatever
/// the ring is then.
pub open spec fn runs_of_recv<T>(runs: Seq<RecvRun<T>>, rx: Receiver<T>, me: u64) -> bool {
    &&& runs.len() > 0
    &&& runs[0].rx == rx.started(true, me)
    &&& forall|k: int| 0 <= k < runs.len() ==> (#[trigger] runs[k]).is_run()
    &&& forall|k: int| 0 < k < runs.len() ==> #[trigger] resumes_recv(runs, k)
}

/// The `k`-th run is the resumption of the one before.
pub open spec fn resumes_recv<T>(runs: Seq<RecvRun<T>>, k: int) -> bool {
    runs[k - 1].r is Wait && runs[k].rx == runs[k - 1].rx2.awake()
}

proof fn lemma_runs_of_recv<T>(runs: Seq<RecvRun<T>>, rx: Receiver<T>, me: u64, k: int)
    requires
        runs_of_recv(runs, rx, me),
        0 <= k < runs.len(),
    ensures
        runs[k].rx.strategy == rx.strategy,
        runs[k].rx.idle == rx.strategy.climbs(k as nat),
    decreases k,
{
    if k > 0 {
        lemma_runs_of_recv(runs, rx, me, k - 1);
        assert(runs[k - 1].is_run());
        assert(resumes_recv(runs, k));
    }
}

/// What a receive returns each time that it is run: with an item in the ring the oldest one,
/// which is then out; with none and the sender gone it fails; and otherwise it waits, the `k`-th
/// time as its strategy says for the `k`-th wait.
pub proof fn law_what_a_blocking_receive_returns<T>(
    runs: Seq<RecvRun<T>>,
    rx: Receiver<T>,
    me: u64,
    k: int,
)
    requires
        runs_of_recv(runs, rx, me),
        0 <= k < runs.len(),
        runs[k].m.wf(),
    ensures
        ({
            let m = runs[k].m;
            let items = m.contents();
            let left = runs[k].m2.contents();
            match runs[k].r {
                Turn::Done(Ok(v)) => items == seq![v] + left,
                Turn::Done(Err(_)) => m.disconnected && items.len() == 0 && left == items,
                Turn::Wait(rung) => {
                    &&& !m.disconnected
                    &&& items.len() == 0
                    &&& left == items
                    &&& rung == crate::wait::kth_wait(rx.strategy, k as nat)
                },
            }
        }),
{
    lemma_runs_of_recv(runs, rx, me, k);
    let run = runs[k];
    assert(run.is_run());
    crate::wait::law_climbing_gives_the_waits(rx.strategy, k as nat);
    if let Turn::Done(Ok(v)) = run.r {
        assert(run.m.contents() =~= seq![v] + run.m2.contents());
    }
}

/// A side that sleeps is unparked by what it waits for: under `Park` a push unparks the consumer
/// and a pop the producer, and a drop unparks both, whatever the strategy; each of them once, and
/// nobody else.
pub proof fn law_sleepers_are_unparked<T>(m: Memory<T>, v: T, me: u64, other: u64)
    ensures
        m.strategy == WaitStrategy::Park && m.consumer.parked && m.consumer.slot == Some(me)
            ==> m.pushed(v).notified(Side::Consumer).unparked == m.unparked.push(me)
            && !m.pushed(v).notified(Side::Consumer).consumer.parked,
        m.strategy == WaitStrategy::Park && m.producer.parked && m.producer.slot == Some(me)
            ==> m.popped().notified(Side::Producer).unparked == m.unparked.push(me)
            && !m.popped().notified(Side::Producer).producer.parked,
        m.consumer.parked && m.consumer.slot == Some(me) && m.producer.parked && m.producer.slot
            == Some(other) ==> m.closed().unparked == m.unparked.push(me).push(other),
        m.consumer.parked && m.consumer.slot == Some(me) && !m.producer.parked
            ==> m.closed().unparked == m.unparked.push(me),
        !m.consumer.parked && m.producer.parked && m.producer.slot == Some(me)
            ==> m.closed().unparked == m.unparked.push(me),
        !m.consumer.parked && !m.producer.parked ==> m.closed() == (Memory {
            disconnected: true,
            ..m
        }),
        m.strategy != WaitStrategy::Park || !m.consumer.parked ==> m.pushed(v).notified(
            Side::Consumer,
        ) == m.pushed(v),
        m.strategy != WaitStrategy::Park || !m.producer.parked ==> m.popped().notified(
            Side::Producer,
        ) == m.popped(),
        m.closed().disconnected,
{
}

// ---------------------------------------------------------------------------
// Whole operations
// ---------------------------------------------------------------------------

impl<T> Seen<T> {
    /// The values of the sends among `calls` that succeed, in the order of the calls.
    pub open spec fn accepted(self, calls: Seq<Call<T>>) -> Seq<T>
        decreases calls.len(),
    {
        if calls.len() == 0 {
            Seq::empty()
        } else {
            let before = self.accepted(calls.drop_last());
            match (calls.last(), self.after_all(calls.drop_last()).reply(calls.last())) {
                (Call::TrySend(v), Reply::Sent(Ok(()))) => before.push(v),
                _ => before,
            }
        }
    }

    /// The items that `calls` return, one by one and in batches, in the order of the calls.
    pub open spec fn returned(self, calls: Seq<Call<T>>) -> Seq<T>
        decreases calls.len(),
    {
        if calls.len() == 0 {
            Seq::empty()
        } else {
            let before = self.returned(calls.drop_last());
            match self.after_all(calls.drop_last()).reply(calls.last()) {
                Reply::Got(Ok(v)) => before.push(v),
                Reply::Drained(items) => before + items,
                _ => before,
            }
        }
    }
}

/// What goes in comes out, in order, once, and nothing else does: after any calls, what was in
/// the ring and what was sent since is what was received since and what is in the ring.
pub proof fn law_what_goes_in_comes_out<T>(seen: Seen<T>, calls: Seq<Call<T>>)
    ensures
        seen.contents + seen.accepted(calls) == seen.returned(calls) + seen.after_all(
            calls,
        ).contents,
    decreases calls.len(),
{
    if calls.len() > 0 {
        let before = calls.drop_last();
        law_what_goes_in_comes_out(seen, before);
        let s = seen.after_all(before);
        let t = seen.after_all(calls);
        let all = seen.contents + seen.accepted(calls);
        match calls.last() {
            Call::TrySend(v) => {
                if s.accepts() {
                    assert(all =~= (seen.contents + seen.accepted(before)).push(v));
                    assert((seen.returned(before) + s.contents).push(v) =~= seen.returned(calls)
                        + t.contents);
                }
            },
            Call::TryRecv => {
                if s.contents.len() > 0 {
                    assert(seen.returned(before) + s.contents =~= seen.returned(calls)
                        + t.contents);
                }
            },
            Call::Drain(max) => {
                let n = s.batch(max);
                assert(s.contents =~= s.contents.take(n) + s.contents.skip(n));
                assert(seen.returned(before) + s.contents =~= seen.returned(calls) + t.contents);
            },
            Call::Close => {},
        }
    }
    assert(seen.contents + seen.accepted(calls) =~= seen.returned(calls) + seen.after_all(
        calls,
    ).contents);
}

/// Success is owed: a send is refused only when a handle is gone, or when as many items are in
/// the ring as it has slots, and it hands its value back; a receive fails only when there is no
/// item; and a batch has as many items as it may, unless it leaves none.
pub proof fn law_success_is_owed<T>(seen: Seen<T>, v: T, max: usize)
    ensures
        match seen.reply(Call::TrySend(v)) {
            Reply::Sent(Ok(())) => !seen.disconnected && seen.contents.len() < seen.cap,
            Reply::Sent(Err(TrySendError::Full(back))) => {
                &&& !seen.disconnected
                &&& seen.contents.len() >= seen.cap
                &&& back == v
            },
            Reply::Sent(Err(TrySendError::Disconnected(back))) => seen.disconnected && back == v,
            _ => false,
        },
        match seen.reply(Call::TryRecv) {
            Reply::Got(Ok(item)) => seen.contents.len() > 0 && item == seen.contents[0],
            Reply::Got(Err(TryRecvError::Empty)) => {
                &&& seen.contents.len() == 0
                &&& !seen.disconnected
            },
            Reply::Got(Err(TryRecvError::Disconnected)) => {
                &&& seen.contents.len() == 0
                &&& seen.disconnected
            },
            _ => false,
        },
        match seen.reply(Call::Drain(max)) {
            Reply::Drained(items) => {
                &&& items.len() <= max
                &&& items.len() < max ==> seen.after(Call::Drain(max)).contents.len() == 0
            },
            _ => false,
        },
{
}

/// The capacity never changes, and a ring is disconnected exactly when one of its handles was
/// dropped.
pub proof fn law_a_ring_stays_what_it_is<T>(seen: Seen<T>, calls: Seq<Call<T>>)
    ensures
        seen.after_all(calls).cap == seen.cap,
        seen.after_all(calls).disconnected <==> seen.disconnected || exists|i: int|
            0 <= i < calls.len() && (#[trigger] calls[i]) is Close,
    decreases calls.len(),
{
    if calls.len() > 0 {
        let before = calls.drop_last();
        law_a_ring_stays_what_it_is(seen, before);
        assert(calls.last() == calls[calls.len() - 1]);
        assert(forall|i: int| 0 <= i < before.len() ==> before[i] == calls[i]);
        if calls.last() is Close {
            assert(calls[calls.len() - 1] is Close);
        }
        if seen.after_all(before).disconnected && !seen.disconnected {
            let i = choose|i: int| 0 <= i < before.len() && (#[trigger] before[i]) is Close;
            assert(calls[i] is Close);
        }
    }
}

/// A new ring is empty and has the capacity and the strategy that it was made with; it takes as
/// many items as it has slots, and not one more.
pub proof fn law_a_new_ring_takes_cap_items<T>(cap: usize, strategy: WaitStrategy, vs: Seq<T>)
    ensures
        ({
            let m = crate::spsc::empty_memory::<T>(cap, strategy);
            let sends = Seq::new(vs.len(), |i: int| Call::TrySend(vs[i]));
            &&& m.cap == cap
            &&& m.strategy == strategy
            &&& m.slots.len() == cap
            &&& !m.consumer.parked && !m.producer.parked
            &&& m.seen().contents == Seq::<T>::empty()
            &&& !m.seen().disconnected
            &&& m.seen().accepted(sends) == if vs.len() < cap {
                vs
            } else {
                vs.take(cap as int)
            }
            &&& m.seen().after_all(sends).contents == m.seen().accepted(sends)
        }),
    decreases vs.len(),
{
    let m = crate::spsc::empty_memory::<T>(cap, strategy);
    let sends = Seq::new(vs.len(), |i: int| Call::TrySend(vs[i]));
    assert(m.seen().contents =~= Seq::<T>::empty());
    law_a_ring_stays_what_it_is(m.seen(), sends);
    if vs.len() > 0 {
        let before = Seq::new((vs.len() - 1) as nat, |i: int| Call::TrySend(vs.drop_last()[i]));
        law_a_new_ring_takes_cap_items(cap, strategy, vs.drop_last());
        assert(sends.drop_last() =~= before);
        law_a_ring_stays_what_it_is(m.seen(), before);
        if vs.len() <= cap {
            assert(vs.drop_last().push(vs.last()) =~= vs);
            assert(vs.take(vs.len() as int) =~= vs);
        } else {
            assert(vs.drop_last().take(cap as int) =~= vs.take(cap as int));
        }
        if vs.len() - 1 == cap {
            assert(vs.drop_last() =~= vs.take(cap as int));
        }
    }
    assert(m.seen().accepted(sends) =~= if vs.len() < cap {
        vs
    } else {
        vs.take(cap as int)
    });
}

} // verus!
