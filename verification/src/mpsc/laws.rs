//! What the accesses, the waits and the whole operations are good for.

use vstd::prelude::*;

use crate::mpsc::{
    Call, Event, Memory, Receiver, RecvAction, RecvStage, Reply, SendAction, Seen, Sender,
};
use crate::notify::Parker;
use crate::wait::{Rung, Turn, WaitStrategy};
use crate::{RecvError, SendError, TryRecvError, TrySendError};

verus! {

// ---------------------------------------------------------------------------
// The accesses
// ---------------------------------------------------------------------------

/// A producer asks for the access that it counts on: whoever makes the access that it names, on
/// any memory, leaves that memory as the machine takes it to be left, and gets from it what the
/// machine takes the newest answer to be. The value goes to slot `seq % cap`, and the mark that
/// publishes it is `seq / cap`. A machine asks for nothing exactly when it takes no answer.
pub proof fn law_a_producer_asks_for_its_accesses<T>(tx: Sender<T>, m: Memory<T>, ev: Event)
    requires
        tx.wf(),
        tx.cap == m.cap,
    ensures
        match tx.asks() {
            SendAction::LoadDropped => {
                &&& tx.leaves(m, ev) == m
                &&& tx.sees(m) == Event::Flag(m.rx_dropped)
            },
            SendAction::LoadClaim => {
                &&& tx.leaves(m, ev) == m
                &&& tx.sees(m) == Event::Index(m.claim)
            },
            SendAction::LoadHead => tx.leaves(m, ev) == m && tx.sees(m) == Event::Index(m.head),
            SendAction::Swap(seq) => {
                &&& seq == tx.seq
                &&& seq < usize::MAX
                &&& m.claim == seq ==> tx.sees(m) == Event::Claimed
                &&& m.claim != seq ==> tx.sees(m) == Event::Lost(m.claim)
                &&& tx.leaves(m, Event::Claimed) == (Memory { claim: (seq + 1) as usize, ..m })
                &&& ev != Event::Claimed ==> tx.leaves(m, ev) == m
            },
            SendAction::Spin(_) => tx.leaves(m, ev) == m && tx.sees(m) == Event::Done,
            SendAction::WriteSlot(i) => {
                &&& i == tx.seq as int % tx.cap as int
                &&& tx.value is Some
                &&& tx.leaves(m, ev) == (Memory { slots: m.slots.update(i as int, tx.value), ..m })
                &&& tx.sees(m) == Event::Done
            },
            SendAction::StoreMark(i, mark) => {
                &&& i == tx.seq as int % tx.cap as int
                &&& tx.seq as int / tx.cap as int <= i64::MAX ==> mark == tx.seq as int
                    / tx.cap as int
                &&& tx.leaves(m, ev) == (Memory { avail: m.avail.update(i as int, mark), ..m })
                &&& tx.sees(m) == Event::Done
            },
            SendAction::CountOut => {
                &&& tx.sees(m) == Event::Index(m.senders)
                &&& m.senders > 0 ==> tx.leaves(m, ev) == (Memory {
                    senders: (m.senders - 1) as usize,
                    ..m
                })
            },
            SendAction::LoadParked => {
                &&& tx.leaves(m, ev) == m
                &&& tx.sees(m) == Event::Flag(m.consumer.parked)
            },
            SendAction::ClearParked => {
                &&& tx.leaves(m, ev) == (Memory {
                    consumer: Parker { parked: false, slot: m.consumer.slot },
                    ..m
                })
                &&& tx.sees(m) == Event::Done
            },
            SendAction::TakeWaiter => {
                &&& tx.leaves(m, ev) == (Memory {
                    consumer: Parker { parked: m.consumer.parked, slot: None },
                    unparked: match m.consumer.slot {
                        Some(t) => m.unparked.push(t),
                        None => m.unparked,
                    },
                    ..m
                })
                &&& tx.sees(m) == Event::Done
            },
            SendAction::Register => {
                &&& tx.leaves(m, ev) == (Memory { waiters: m.waiters.push(tx.me), ..m })
                &&& tx.sees(m) == Event::Done
            },
            SendAction::Announce => {
                &&& tx.leaves(m, ev) == (Memory { waiting: true, ..m })
                &&& tx.sees(m) == Event::Done
            },
            SendAction::Pause(_) => tx.leaves(m, ev) == m && tx.sees(m) == Event::Done,
            SendAction::Return => tx.leaves(m, ev) == m,
        },
        tx.asks() == SendAction::Return <==> forall|ev: Event| !tx.expects(ev),
{
    crate::index::lemma_cap_positive(tx.cap as int);
    crate::index::lemma_slot_bound(tx.seq as int, tx.cap as int);
    lemma_mark(tx.seq as int, tx.cap as int);
    if tx.asks() != SendAction::Return {
        assert(tx.expects(Event::Done) || tx.expects(Event::Flag(false)) || tx.expects(
            Event::Index(0),
        ) || tx.expects(Event::Claimed));
    }
}

/// The mark of an item is the number of its round.
proof fn lemma_mark(seq: int, cap: int)
    requires
        0 <= seq <= usize::MAX,
        cap > 0,
    ensures
        seq / cap <= i64::MAX ==> crate::mpsc::mark(seq, cap) == seq / cap,
{
    vstd::arithmetic::div_mod::lemma_div_pos_is_pos(seq, cap);
    vstd::arithmetic::div_mod::lemma_div_nonincreasing(seq, cap);
}

/// The consumer asks for the access that it counts on, as a producer does. It looks at the mark
/// of slot `head % cap`, takes the item to be there exactly if that is the mark of its round,
/// and takes it out of that slot.
pub proof fn law_the_consumer_asks_for_its_accesses<T>(rx: Receiver<T>, m: Memory<T>, ev: Event)
    requires
        rx.wf(),
        rx.cap == m.cap,
    ensures
        match rx.asks() {
            RecvAction::LoadMark(i) => {
                &&& i == rx.head as int % rx.cap as int
                &&& rx.leaves(m) == m
                &&& rx.sees(m) == Event::Mark(m.avail[i as int])
                &&& rx.head as int / rx.cap as int <= i64::MAX ==> (rx.finds(m.avail[i as int])
                    <==> m.avail[i as int] == rx.head as int / rx.cap as int)
            },
            RecvAction::LoadSenders => {
                &&& rx.leaves(m) == m
                &&& rx.sees(m) == Event::Index(m.senders)
            },
            RecvAction::ReadSlot(i) => {
                &&& i == rx.head as int % rx.cap as int
                &&& rx.leaves(m) == (Memory { slots: m.slots.update(i as int, None), ..m })
                &&& rx.after(m, ev) == rx.accepted(m.slots[i as int]->0)
                &&& rx.accepted(m.slots[i as int]->0).value == Some(m.slots[i as int]->0)
                &&& rx.accepted(m.slots[i as int]->0).head == rx.head + 1
            },
            RecvAction::StoreHead(head) => {
                &&& head == rx.head
                &&& rx.leaves(m) == (Memory { head, ..m })
                &&& rx.sees(m) == Event::Done
            },
            RecvAction::StoreDropped => {
                &&& rx.leaves(m) == (Memory { rx_dropped: true, ..m })
                &&& rx.sees(m) == Event::Done
            },
            RecvAction::SwapWaiting => {
                &&& rx.leaves(m) == (Memory { waiting: false, ..m })
                &&& rx.sees(m) == Event::Flag(m.waiting)
            },
            RecvAction::TakeWaiters => {
                &&& rx.leaves(m) == (Memory {
                    waiters: Seq::empty(),
                    unparked: m.unparked + m.waiters,
                    ..m
                })
                &&& rx.sees(m) == Event::Done
            },
            RecvAction::Register => {
                &&& rx.leaves(m) == (Memory {
                    consumer: Parker { parked: m.consumer.parked, slot: Some(rx.me) },
                    ..m
                })
                &&& rx.sees(m) == Event::Done
            },
            RecvAction::Announce => {
                &&& rx.leaves(m) == (Memory {
                    consumer: Parker { parked: true, slot: m.consumer.slot },
                    ..m
                })
                &&& rx.sees(m) == Event::Done
            },
            RecvAction::ClearParked => {
                &&& rx.leaves(m) == (Memory {
                    consumer: Parker { parked: false, slot: m.consumer.slot },
                    ..m
                })
                &&& rx.sees(m) == Event::Done
            },
            RecvAction::Pause(_) => rx.leaves(m) == m && rx.sees(m) == Event::Done,
            RecvAction::Deliver => rx.leaves(m) == m && rx.value is Some,
            RecvAction::Return => rx.leaves(m) == m,
        },
        !(rx.asks() is ReadSlot) ==> rx.after(m, ev) == rx.next(ev),
        rx.asks() == RecvAction::Return <==> forall|ev: Event| !rx.expects(ev),
{
    crate::index::lemma_cap_positive(rx.cap as int);
    crate::index::lemma_slot_bound(rx.head as int, rx.cap as int);
    lemma_mark(rx.head as int, rx.cap as int);
    if rx.asks() != RecvAction::Return {
        assert(rx.expects(Event::Done) || rx.expects(Event::Flag(false)) || rx.expects(
            Event::Index(0),
        ) || rx.expects(Event::Mark(0)) || rx.expects(Event::Mark(1)));
    }
}

/// The consumer finds an item where its producer put it and as that published it: the mark that
/// the producer asks to store for a sequence number is in the slot at which the consumer asks to
/// look for it, and is what the consumer looks for; a mark of another number there is not. And
/// the slot that the one writes is the slot that the other reads.
pub proof fn law_both_sides_name_the_same_slot<T>(tx: Sender<T>, rx: Receiver<T>)
    requires
        tx.wf(),
        rx.wf(),
        tx.cap == rx.cap,
    ensures
        match (tx.asks(), rx.asks()) {
            (SendAction::StoreMark(i, mark), RecvAction::LoadMark(j)) => {
                &&& tx.seq == rx.head ==> i == j && rx.finds(mark)
                &&& i == j && rx.finds(mark) ==> tx.seq == rx.head
            },
            (SendAction::WriteSlot(i), RecvAction::ReadSlot(j)) => {
                &&& tx.seq == rx.head ==> i == j
                &&& rx.head < tx.seq < rx.head + rx.cap ==> i != j
            },
            _ => true,
        },
{
    let cap = tx.cap as int;
    crate::index::lemma_cap_positive(cap);
    crate::index::lemma_slot_bound(tx.seq as int, cap);
    crate::index::lemma_slot_bound(rx.head as int, cap);
    if rx.head < tx.seq < rx.head + rx.cap {
        crate::index::lemma_slots_differ(rx.head as int, tx.seq as int, cap);
    }
    crate::index::law_slot_and_round_tell_the_number(tx.seq as int, cap, 0, 0);
    crate::index::law_slot_and_round_tell_the_number(rx.head as int, cap, 0, 0);
    vstd::arithmetic::div_mod::lemma_div_pos_is_pos(tx.seq as int, cap);
    vstd::arithmetic::div_mod::lemma_div_nonincreasing(tx.seq as int, cap);
    vstd::arithmetic::div_mod::lemma_div_pos_is_pos(rx.head as int, cap);
    vstd::arithmetic::div_mod::lemma_div_nonincreasing(rx.head as int, cap);
    crate::mpsc::lemma_marks(
        (tx.seq as int / cap) as usize,
        (rx.head as int / cap) as usize,
    );
}

/// Only `Park` costs the productive side anything: under the other strategies a send and a
/// receive never ask for an access to the consumer's parker or to the producers' list. (The drop
/// of a handle does.)
pub proof fn law_only_park_touches_the_parkers<T>(tx: Sender<T>, rx: Receiver<T>)
    requires
        tx.wf(),
        rx.wf(),
        tx.strategy != WaitStrategy::Park,
        rx.strategy != WaitStrategy::Park,
    ensures
        !(tx.stage is CloseWake) ==> match tx.asks() {
            SendAction::LoadParked
            | SendAction::ClearParked
            | SendAction::TakeWaiter
            | SendAction::Register
            | SendAction::Announce => false,
            _ => true,
        },
        !(rx.stage is CloseWake) ==> match rx.asks() {
            RecvAction::SwapWaiting
            | RecvAction::TakeWaiters
            | RecvAction::ClearParked
            | RecvAction::Register
            | RecvAction::Announce => false,
            _ => true,
        },
{
}

/// A batch that is cut short stores the head past what it took, and asks for nothing else: it
/// wakes nobody.
pub proof fn law_a_cut_batch_only_stores_the_head<T>(rx: Receiver<T>)
    requires
        rx.stage == RecvStage::DrainAvail || rx.stage == RecvStage::DrainRead || rx.stage
            == RecvStage::DrainStore,
    ensures
        rx.count == 0 ==> rx.drain_cut().asks() == RecvAction::Return,
        rx.count > 0 ==> {
            &&& rx.drain_cut().asks() == RecvAction::StoreHead(rx.head)
            &&& rx.drain_cut().next(Event::Done).asks() == RecvAction::Return
            &&& rx.drain_cut().next(Event::Done).stage == RecvStage::Drained
        },
        rx.drain_cut().head == rx.head,
        rx.drain_cut().count == rx.count,
{
}

/// A clone is a handle of the same ring: it has the same capacity and strategy, and no operation
/// under way.
pub proof fn law_a_clone_is_of_the_same_ring<T>(tx: Sender<T>, m: Memory<T>)
    requires
        tx.wf(),
        tx.fits(m),
    ensures
        tx.twin_of().rests_on(m),
        tx.twin_of().cap == tx.cap,
        tx.twin_of().strategy == tx.strategy,
        tx.twin_of().asks() == SendAction::Return,
        tx.twin_of().value is None,
{
}

/// How a producer goes to sleep under `Park`: it leaves its name on the list, raises the flag of
/// the list, and looks at the claims, at the head and for the receiver once more; only if the
/// ring is still full and the receiver still there does it sleep. Then it tries again.
pub proof fn law_how_a_producer_goes_to_sleep<T>(tx: Sender<T>, claim: usize, head: usize)
    requires
        tx.wf(),
        tx.blocking,
        tx.strategy == WaitStrategy::Park,
    ensures
        ({
            let registers = tx.blocked();
            let announces = registers.next(Event::Done);
            let looks = announces.next(Event::Done);
            let looks_on = looks.next(Event::Index(claim));
            let asks_flag = looks_on.next(Event::Index(head));
            let sleeps = asks_flag.next(Event::Flag(false));
            &&& registers.asks() == SendAction::Register
            &&& announces.asks() == SendAction::Announce
            &&& looks.asks() == SendAction::LoadClaim
            &&& looks_on.asks() == SendAction::LoadHead
            &&& asks_flag.asks() == SendAction::LoadDropped
            &&& claim < head + tx.cap && claim < usize::MAX ==> !(sleeps.asks() is Pause)
            &&& claim >= head + tx.cap ==> {
                &&& sleeps.asks() == SendAction::Pause(Rung::Park)
                &&& sleeps.next(Event::Done).asks() == SendAction::LoadDropped
                &&& asks_flag.next(Event::Flag(true)).asks() == SendAction::LoadDropped
                &&& !(asks_flag.next(Event::Flag(true)).next(Event::Flag(true)).asks() is Pause)
            }
        }),
{
}

/// How the consumer goes to sleep under `Park`: it leaves its name, raises its flag, and looks
/// at the mark of the next item and for the senders once more; only if the item is still not
/// there and some sender is does it sleep. Whether it sleeps or not, it lowers its flag, and then
/// tries again.
pub proof fn law_how_the_consumer_goes_to_sleep<T>(rx: Receiver<T>, mark: i64, senders: usize)
    requires
        rx.wf(),
        rx.blocking,
        rx.strategy == WaitStrategy::Park,
    ensures
        ({
            let registers = rx.blocked();
            let announces = registers.next(Event::Done);
            let looks = announces.next(Event::Done);
            let asks_senders = looks.next(Event::Mark(mark));
            let sleeps = asks_senders.next(Event::Index(senders));
            let wakes = sleeps.next(Event::Done);
            &&& registers.asks() == RecvAction::Register
            &&& announces.asks() == RecvAction::Announce
            &&& looks.asks() is LoadMark
            &&& rx.finds(mark) ==> {
                &&& asks_senders.asks() == RecvAction::ClearParked
                &&& asks_senders.next(Event::Done).asks() is LoadMark
            }
            &&& !rx.finds(mark) ==> asks_senders.asks() == RecvAction::LoadSenders
            &&& !rx.finds(mark) && senders == 0 ==> {
                &&& sleeps.asks() == RecvAction::ClearParked
                &&& wakes.asks() is LoadMark
            }
            &&& !rx.finds(mark) && senders > 0 ==> {
                &&& sleeps.asks() == RecvAction::Pause(Rung::Park)
                &&& wakes.asks() == RecvAction::ClearParked
                &&& wakes.next(Event::Done).asks() is LoadMark
            }
        }),
{
}

/// A sleep of the consumer leaves no flag behind, and a wait by itself leaves nothing: when a
/// blocked receive goes on, it would not be unparked any more, and the ring is as it was.
pub proof fn law_a_wait_leaves_no_flag<T>(rx: Receiver<T>, m: Memory<T>)
    requires
        rx.wf(),
    ensures
        rx.asks() == RecvAction::Pause(Rung::Park) ==> {
            &&& !rx.rested(m).consumer.parked
            &&& rx.rested(m).unparked == m.unparked
            &&& rx.rested(m).waiting == m.waiting
            &&& rx.rested(m).waiters == m.waiters
            &&& rx.rested(m).seen() == m.seen()
        },
        rx.strategy != WaitStrategy::Park ==> rx.rested(m) == m,
{
    crate::mpsc::lemma_same_ring(m, rx.rested(m));
}

// ---------------------------------------------------------------------------
// The waits
// ---------------------------------------------------------------------------

/// The states that one blocking send goes through, one access after the other.
pub open spec fn course_of_send<T>(txs: Seq<Sender<T>>, tx: Sender<T>, v: T, me: u64) -> bool {
    &&& txs.len() > 0
    &&& txs[0] == tx.started(v, true, me)
    &&& forall|k: int| 0 <= k < txs.len() ==> (#[trigger] txs[k]).wf()
    &&& forall|k: int| 0 < k < txs.len() ==> #[trigger] send_moves(txs, k)
}

/// An access leads to the `k`-th state.
pub open spec fn send_moves<T>(txs: Seq<Sender<T>>, k: int) -> bool {
    exists|ev: Event| txs[k - 1].expects(ev) && txs[k] == #[trigger] txs[k - 1].next(ev)
}

/// How often the producer has asked to wait before its `k`-th state.
pub open spec fn waits_of_send<T>(txs: Seq<Sender<T>>, k: int) -> nat
    decreases k,
{
    if k <= 0 {
        0
    } else if txs[k - 1].asks() is Pause {
        waits_of_send(txs, k - 1) + 1
    } else {
        waits_of_send(txs, k - 1)
    }
}

/// Only a wait leads up the ladder, and only by one rung.
proof fn lemma_send_moves<T>(tx: Sender<T>, ev: Event)
    requires
        tx.wf(),
        tx.expects(ev),
    ensures
        tx.next(ev).strategy == tx.strategy,
        tx.next(ev).idle == if tx.asks() is Pause {
            tx.strategy.up(tx.idle)
        } else {
            tx.idle
        },
{
}

proof fn lemma_course_of_send<T>(txs: Seq<Sender<T>>, tx: Sender<T>, v: T, me: u64, k: int)
    requires
        course_of_send(txs, tx, v, me),
        0 <= k < txs.len(),
    ensures
        txs[k].strategy == tx.strategy,
        txs[k].idle == tx.strategy.climbs(waits_of_send(txs, k)),
    decreases k,
{
    if k > 0 {
        lemma_course_of_send(txs, tx, v, me, k - 1);
        assert(txs[k - 1].wf());
        assert(send_moves(txs, k));
        let ev = choose|ev: Event|
            txs[k - 1].expects(ev) && txs[k] == #[trigger] txs[k - 1].next(ev);
        lemma_send_moves(txs[k - 1], ev);
    }
}

/// A blocked send climbs the ladder: each time that it asks to wait, it asks for the next wait
/// of its strategy, from the first one on.
pub proof fn law_a_blocked_send_climbs_the_ladder<T>(
    txs: Seq<Sender<T>>,
    tx: Sender<T>,
    v: T,
    me: u64,
    k: int,
)
    requires
        course_of_send(txs, tx, v, me),
        0 <= k < txs.len(),
        txs[k].asks() is Pause,
    ensures
        txs[k].asks() == SendAction::Pause(
            crate::wait::kth_wait(tx.strategy, waits_of_send(txs, k)),
        ),
{
    lemma_course_of_send(txs, tx, v, me, k);
    crate::wait::law_climbing_gives_the_waits(tx.strategy, waits_of_send(txs, k));
    assert(txs[k].wf());
}

/// How many claims the producer has lost before its `k`-th state.
pub open spec fn losses<T>(txs: Seq<Sender<T>>, k: int) -> nat
    decreases k,
{
    if k <= 0 {
        0
    } else if txs[k - 1].asks() is Spin {
        losses(txs, k - 1) + 1
    } else {
        losses(txs, k - 1)
    }
}

proof fn lemma_losses<T>(txs: Seq<Sender<T>>, tx: Sender<T>, v: T, me: u64, k: int)
    requires
        course_of_send(txs, tx, v, me),
        0 <= k < txs.len(),
    ensures
        txs[k].spins == if vstd::arithmetic::power2::pow2(losses(txs, k)) < 64 {
            vstd::arithmetic::power2::pow2(losses(txs, k)) as int
        } else {
            64
        },
    decreases k,
{
    vstd::arithmetic::power2::lemma2_to64();
    if k > 0 {
        lemma_losses(txs, tx, v, me, k - 1);
        assert(txs[k - 1].wf());
        assert(send_moves(txs, k));
        let ev = choose|ev: Event|
            txs[k - 1].expects(ev) && txs[k] == #[trigger] txs[k - 1].next(ev);
        lemma_spins_move(txs[k - 1], ev);
        vstd::arithmetic::power2::lemma_pow2_unfold(losses(txs, k - 1) + 1);
    }
}

/// Only a spin makes the next one longer.
proof fn lemma_spins_move<T>(tx: Sender<T>, ev: Event)
    requires
        tx.wf(),
        tx.expects(ev),
    ensures
        tx.next(ev).spins == if tx.asks() is Spin {
            if tx.spins * 2 < 64 {
                tx.spins * 2
            } else {
                64
            }
        } else {
            tx.spins as int
        },
{
}

/// The more claims a send loses, the longer it spins before the next: once, and then twice as
/// often from one loss to the next, up to 64 times.
pub proof fn law_lost_claims_spin_longer<T>(
    txs: Seq<Sender<T>>,
    tx: Sender<T>,
    v: T,
    me: u64,
    k: int,
)
    requires
        course_of_send(txs, tx, v, me),
        0 <= k < txs.len(),
        txs[k].asks() is Spin,
    ensures
        txs[k].asks()->Spin_0 == if vstd::arithmetic::power2::pow2(losses(txs, k)) < 64 {
            vstd::arithmetic::power2::pow2(losses(txs, k)) as int
        } else {
            64
        },
{
    lemma_losses(txs, tx, v, me, k);
    assert(txs[k].wf());
}

/// The states that one blocking receive goes through, one access after the other.
pub open spec fn course_of_recv<T>(rxs: Seq<Receiver<T>>, rx: Receiver<T>, me: u64) -> bool {
    &&& rxs.len() > 0
    &&& rxs[0] == rx.started(true, me)
    &&& forall|k: int| 0 <= k < rxs.len() ==> (#[trigger] rxs[k]).wf()
    &&& forall|k: int| 0 < k < rxs.len() ==> #[trigger] recv_moves(rxs, k)
}

/// An access leads to the `k`-th state.
pub open spec fn recv_moves<T>(rxs: Seq<Receiver<T>>, k: int) -> bool {
    exists|m: Memory<T>, ev: Event|
        rxs[k - 1].expects(ev) && rxs[k] == #[trigger] rxs[k - 1].after(m, ev)
}

/// How often the consumer has asked to wait before its `k`-th state.
pub open spec fn waits_of_recv<T>(rxs: Seq<Receiver<T>>, k: int) -> nat
    decreases k,
{
    if k <= 0 {
        0
    } else if rxs[k - 1].asks() is Pause {
        waits_of_recv(rxs, k - 1) + 1
    } else {
        waits_of_recv(rxs, k - 1)
    }
}

/// Only a wait leads up the ladder, and only by one rung.
proof fn lemma_recv_moves<T>(rx: Receiver<T>, m: Memory<T>, ev: Event)
    requires
        rx.wf(),
        rx.expects(ev),
    ensures
        rx.after(m, ev).strategy == rx.strategy,
        rx.after(m, ev).idle == if rx.asks() is Pause {
            rx.strategy.up(rx.idle)
        } else {
            rx.idle
        },
{
}

proof fn lemma_course_of_recv<T>(rxs: Seq<Receiver<T>>, rx: Receiver<T>, me: u64, k: int)
    requires
        course_of_recv(rxs, rx, me),
        0 <= k < rxs.len(),
    ensures
        rxs[k].strategy == rx.strategy,
        rxs[k].idle == rx.strategy.climbs(waits_of_recv(rxs, k)),
    decreases k,
{
    if k > 0 {
        lemma_course_of_recv(rxs, rx, me, k - 1);
        assert(rxs[k - 1].wf());
        assert(recv_moves(rxs, k));
        let (m, ev) = choose|m: Memory<T>, ev: Event|
            rxs[k - 1].expects(ev) && rxs[k] == #[trigger] rxs[k - 1].after(m, ev);
        lemma_recv_moves(rxs[k - 1], m, ev);
    }
}

/// A blocked receive climbs the ladder: each time that it asks to wait, it asks for the next
/// wait of its strategy, from the first one on.
pub proof fn law_a_blocked_receive_climbs_the_ladder<T>(
    rxs: Seq<Receiver<T>>,
    rx: Receiver<T>,
    me: u64,
    k: int,
)
    requires
        course_of_recv(rxs, rx, me),
        0 <= k < rxs.len(),
        rxs[k].asks() is Pause,
    ensures
        rxs[k].asks() == RecvAction::Pause(
            crate::wait::kth_wait(rx.strategy, waits_of_recv(rxs, k)),
        ),
{
    lemma_course_of_recv(rxs, rx, me, k);
    crate::wait::law_climbing_gives_the_waits(rx.strategy, waits_of_recv(rxs, k));
    assert(rxs[k].wf());
}

/// One run of a blocking send: the machine and the memory before it, what it returns, and the
/// machine and the memory after it.
pub struct SendRun<T> {
    pub tx: Sender<T>,
    pub m: Memory<T>,
    pub r: Turn<Result<(), SendError<T>>>,
    pub tx2: Sender<T>,
    pub m2: Memory<T>,
}

impl<T> SendRun<T> {
    /// This is what such a run does.
    pub open spec fn is_run(self) -> bool {
        self.tx.send_turn(self.m, self.r, self.tx2, self.m2)
    }
}

/// The runs of one send of `v` by `tx`: the call, and then a resumption after every wait,
/// whatever the ring is then.
pub open spec fn runs_of_send<T>(runs: Seq<SendRun<T>>, tx: Sender<T>, v: T, me: u64) -> bool {
    &&& runs.len() > 0
    &&& runs[0].tx == tx.started(v, true, me)
    &&& forall|k: int| 0 <= k < runs.len() ==> (#[trigger] runs[k]).is_run()
    &&& forall|k: int| 0 < k < runs.len() ==> #[trigger] resumes_send(runs, k)
}

/// The `k`-th run is the resumption of the one before.
pub open spec fn resumes_send<T>(runs: Seq<SendRun<T>>, k: int) -> bool {
    runs[k - 1].r is Wait && runs[k].tx == runs[k - 1].tx2.awake()
}

proof fn lemma_runs_of_send<T>(runs: Seq<SendRun<T>>, tx: Sender<T>, v: T, me: u64, k: int)
    requires
        runs_of_send(runs, tx, v, me),
        0 <= k < runs.len(),
    ensures
        runs[k].tx.strategy == tx.strategy,
        runs[k].tx.idle == tx.strategy.climbs(k as nat),
        runs[k].tx.value == Some(v),
    decreases k,
{
    if k > 0 {
        lemma_runs_of_send(runs, tx, v, me, k - 1);
        assert(runs[k - 1].is_run());
        assert(resumes_send(runs, k));
    }
}

/// What a send returns each time that it is run: with the receiver gone it fails and hands its
/// value back; with fewer items in the ring than it has slots it succeeds and its value is the
/// newest; and otherwise it waits, the `k`-th time as its strategy says for the `k`-th wait,
/// and leaves what is in the ring. (A ring whose sequence numbers are used up takes nothing.)
pub proof fn law_what_a_blocking_send_returns<T>(
    runs: Seq<SendRun<T>>,
    tx: Sender<T>,
    v: T,
    me: u64,
    k: int,
)
    requires
        runs_of_send(runs, tx, v, me),
        0 <= k < runs.len(),
        runs[k].m.wf(),
    ensures
        ({
            let m = runs[k].m;
            let items = m.contents();
            let left = runs[k].m2.contents();
            match runs[k].r {
                Turn::Done(Err(SendError(back))) => m.rx_dropped && back == v && left == items,
                Turn::Done(Ok(())) => {
                    &&& !m.rx_dropped
                    &&& items.len() < m.cap
                    &&& left == items.push(v)
                },
                Turn::Wait(rung) => {
                    &&& !m.rx_dropped
                    &&& items.len() == m.cap || m.claim == usize::MAX
                    &&& left == items
                    &&& rung == crate::wait::kth_wait(tx.strategy, k as nat)
                },
            }
        }),
{
    lemma_runs_of_send(runs, tx, v, me, k);
    assert(runs[k].is_run());
    crate::mpsc::law_ring_is_bounded(runs[k].m);
    crate::wait::law_climbing_gives_the_waits(tx.strategy, k as nat);
}

/// One run of a blocking receive: the machine and the memory before it, what it returns, and
/// the machine and the memory after it.
pub struct RecvRun<T> {
    pub rx: Receiver<T>,
    pub m: Memory<T>,
    pub r: Turn<Result<T, RecvError>>,
    pub rx2: Receiver<T>,
    pub m2: Memory<T>,
}

impl<T> RecvRun<T> {
    /// This is what such a run does.
    pub open spec fn is_run(self) -> bool {
        self.rx.recv_turn(self.m, self.r, self.rx2, self.m2)
    }
}

/// The runs of one receive by `rx`: the call, and then a resumption after every wait, whatever
/// the ring is then.
pub open spec fn runs_of_recv<T>(runs: Seq<RecvRun<T>>, rx: Receiver<T>, me: u64) -> bool {
    &&& runs.len() > 0
    &&& runs[0].rx == rx.started(true, me)
    &&& forall|k: int| 0 <= k < runs.len() ==> (#[trigger] runs[k]).is_run()
    &&& forall|k: int| 0 < k < runs.len() ==> #[trigger] resumes_recv(runs, k)
}

/// The `k`-th run is the resumption of the one before.
pub open spec fn resumes_recv<T>(runs: Seq<RecvRun<T>>, k: int) -> bool {
    runs[k - 1].r is Wait && runs[k].rx == runs[k - 1].rx2.awake()
}

proof fn lemma_runs_of_recv<T>(runs: Seq<RecvRun<T>>, rx: Receiver<T>, me: u64, k: int)
    requires
        runs_of_recv(runs, rx, me),
        0 <= k < runs.len(),
    ensures
        runs[k].rx.strategy == rx.strategy,
        runs[k].rx.idle == rx.strategy.climbs(k as nat),
    decreases k,
{
    if k > 0 {
        lemma_runs_of_recv(runs, rx, me, k - 1);
        assert(runs[k - 1].is_run());
        assert(resumes_recv(runs, k));
    }
}

/// What a receive returns each time that it is run: with an item in the ring the oldest one,
/// which is then out; with none and all senders gone it fails; and otherwise it waits, the `k`-th
/// time as its strategy says for the `k`-th wait.
pub proof fn law_what_a_blocking_receive_returns<T>(
    runs: Seq<RecvRun<T>>,
    rx: Receiver<T>,
    me: u64,
    k: int,
)
    requires
        runs_of_recv(runs, rx, me),
        0 <= k < runs.len(),
        runs[k].m.wf(),
    ensures
        ({
            let m = runs[k].m;
            let items = m.contents();
            let left = runs[k].m2.contents();
            match runs[k].r {
                Turn::Done(Ok(v)) => items == seq![v] + left,
                Turn::Done(Err(_)) => m.senders == 0 && items.len() == 0 && left == items,
                Turn::Wait(rung) => {
                    &&& m.senders > 0
                    &&& items.len() == 0
                    &&& left == items
                    &&& rung == crate::wait::kth_wait(rx.strategy, k as nat)
                },
            }
        }),
{
    lemma_runs_of_recv(runs, rx, me, k);
    let run = runs[k];
    assert(run.is_run());
    crate::wait::law_climbing_gives_the_waits(rx.strategy, k as nat);
    if let Turn::Done(Ok(v)) = run.r {
        assert(run.m.contents() =~= seq![v] + run.m2.contents());
    }
}

/// A side that sleeps is unparked by what it waits for: under `Park` a push unparks the consumer
/// and a pop all producers on the list, in order; the drop of the receiver unparks these, and
/// that of the last sender the consumer, whatever the strategy; each of them once, and nobody
/// else.
pub proof fn law_sleepers_are_unparked<T>(m: Memory<T>, v: T, me: u64)
    ensures
        m.strategy == WaitStrategy::Park && m.consumer.parked && m.consumer.slot == Some(me) ==> {
            &&& m.pushed(v).consumer_notified().unparked == m.unparked.push(me)
            &&& !m.pushed(v).consumer_notified().consumer.parked
        },
        m.strategy == WaitStrategy::Park && m.waiting ==> {
            &&& m.popped().producers_notified().unparked == m.unparked + m.waiters
            &&& m.popped().producers_notified().waiters == Seq::<u64>::empty()
            &&& !m.popped().producers_notified().waiting
        },
        m.consumer.parked && m.consumer.slot == Some(me) ==> m.consumer_woken().unparked
            == m.unparked.push(me) && !m.consumer_woken().consumer.parked,
        m.waiting ==> m.producers_woken().unparked == m.unparked + m.waiters
            && !m.producers_woken().waiting,
        !m.consumer.parked ==> m.consumer_woken() == m,
        !m.waiting ==> m.producers_woken() == m,
        m.strategy != WaitStrategy::Park || !m.consumer.parked ==> m.pushed(
            v,
        ).consumer_notified() == m.pushed(v),
        m.strategy != WaitStrategy::Park || !m.waiting ==> m.popped().producers_notified()
            == m.popped(),
{
}

// ---------------------------------------------------------------------------
// Whole operations
// ---------------------------------------------------------------------------

impl<T> Seen<T> {
    /// The values of the sends among `calls` that succeed, in the order of the calls.
    pub open spec fn accepted(self, calls: Seq<Call<T>>) -> Seq<T>
        decreases calls.len(),
    {
        if calls.len() == 0 {
            Seq::empty()
        } else {
            let before = self.accepted(calls.drop_last());
            match (calls.last(), self.after_all(calls.drop_last()).reply(calls.last())) {
                (Call::TrySend(v), Reply::Sent(Ok(()))) => before.push(v),
                _ => before,
            }
        }
    }

    /// The items that `calls` return, one by one and in batches, in the order of the calls.
    pub open spec fn returned(self, calls: Seq<Call<T>>) -> Seq<T>
        decreases calls.len(),
    {
        if calls.len() == 0 {
            Seq::empty()
        } else {
            let before = self.returned(calls.drop_last());
            match self.after_all(calls.drop_last()).reply(calls.last()) {
                Reply::Got(Ok(v)) => before.push(v),
                Reply::Drained(items) => before + items,
                _ => before,
            }
        }
    }
}

/// What goes in comes out, in order, once, and nothing else does: after any calls, what was in
/// the ring and what was sent since is what was received since and what is in the ring.
pub proof fn law_what_goes_in_comes_out<T>(seen: Seen<T>, calls: Seq<Call<T>>)
    ensures
        seen.contents + seen.accepted(calls) == seen.returned(calls) + seen.after_all(
            calls,
        ).contents,
    decreases calls.len(),
{
    if calls.len() > 0 {
        let before = calls.drop_last();
        law_what_goes_in_comes_out(seen, before);
        let s = seen.after_all(before);
        let t = seen.after_all(calls);
        let all = seen.contents + seen.accepted(calls);
        match calls.last() {
            Call::TrySend(v) => {
                if s.accepts() {
                    assert(all =~= (seen.contents + seen.accepted(before)).push(v));
                    assert((seen.returned(before) + s.contents).push(v) =~= seen.returned(calls)
                        + t.contents);
                }
            },
            Call::TryRecv => {
                if s.contents.len() > 0 {
                    assert(seen.returned(before) + s.contents =~= seen.returned(calls)
                        + t.contents);
                }
            },
            Call::Drain(max) => {
                let n = s.batch(max);
                assert(s.contents =~= s.contents.take(n) + s.contents.skip(n));
                assert(seen.returned(before) + s.contents =~= seen.returned(calls) + t.contents);
            },
            _ => {},
        }
    }
    assert(seen.contents + seen.accepted(calls) =~= seen.returned(calls) + seen.after_all(
        calls,
    ).contents);
}

/// Success is owed: a send is refused only when the receiver is gone, or when as many items are
/// in the ring as it has slots (or its sequence numbers are used up), and it hands its value
/// back; a receive fails only when there is no item; and a batch has as many items as it may,
/// unless it leaves none.
pub proof fn law_success_is_owed<T>(seen: Seen<T>, v: T, max: usize)
    ensures
        match seen.reply(Call::TrySend(v)) {
            Reply::Sent(Ok(())) => {
                &&& !seen.rx_dropped
                &&& seen.contents.len() < seen.cap
                &&& seen.claim < usize::MAX
            },
            Reply::Sent(Err(TrySendError::Full(back))) => {
                &&& !seen.rx_dropped
                &&& seen.contents.len() >= seen.cap || seen.claim == usize::MAX
                &&& back == v
            },
            Reply::Sent(Err(TrySendError::Disconnected(back))) => seen.rx_dropped && back == v,
            _ => false,
        },
        match seen.reply(Call::TryRecv) {
            Reply::Got(Ok(item)) => seen.contents.len() > 0 && item == seen.contents[0],
            Reply::Got(Err(TryRecvError::Empty)) => seen.contents.len() == 0 && seen.senders > 0,
            Reply::Got(Err(TryRecvError::Disconnected)) => {
                &&& seen.contents.len() == 0
                &&& seen.senders == 0
            },
            _ => false,
        },
        match seen.reply(Call::Drain(max)) {
            Reply::Drained(items) => {
                &&& items.len() <= max
                &&& items.len() < max ==> seen.after(Call::Drain(max)).contents.len() == 0
            },
            _ => false,
        },
{
}

/// A clone makes one sender more and a drop one less, and nothing else changes their number; the
/// receiver is gone exactly when it was dropped; the capacity never changes.
pub proof fn law_a_ring_stays_what_it_is<T>(seen: Seen<T>, call: Call<T>)
    ensures
        seen.after(call).cap == seen.cap,
        seen.after(call).rx_dropped == (seen.rx_dropped || call is DropReceiver),
        call is Clone && seen.senders < usize::MAX ==> seen.after(call).senders == seen.senders
            + 1,
        call is DropSender && seen.senders > 0 ==> seen.after(call).senders == seen.senders - 1,
        !(call is Clone) && !(call is DropSender) ==> seen.after(call).senders == seen.senders,
        seen.after(call).claim == seen.claim || call is TrySend,
        !(call is TrySend) && !(call is TryRecv) && !(call is Drain) ==> seen.after(call).contents
            == seen.contents,
{
}

/// A new ring is empty, has one sender, and the capacity and the strategy that it was made with;
/// it takes as many items as it has slots, and not one more.
pub proof fn law_a_new_ring_takes_cap_items<T>(cap: usize, strategy: WaitStrategy, vs: Seq<T>)
    ensures
        ({
            let m = crate::mpsc::empty_memory::<T>(cap, strategy);
            let sends = Seq::new(vs.len(), |i: int| Call::TrySend(vs[i]));
            &&& m.cap == cap
            &&& m.strategy == strategy
            &&& m.slots.len() == cap
            &&& m.avail.len() == cap
            &&& forall|i: int| 0 <= i < cap ==> #[trigger] m.avail[i] == -1
            &&& !m.consumer.parked && !m.waiting && m.waiters == Seq::<u64>::empty()
            &&& m.seen().contents == Seq::<T>::empty()
            &&& m.seen().senders == 1
            &&& !m.seen().rx_dropped
            &&& m.seen().accepted(sends) == if vs.len() < cap {
                vs
            } else {
                vs.take(cap as int)
            }
            &&& m.seen().after_all(sends).contents == m.seen().accepted(sends)
            &&& m.seen().after_all(sends).claim == m.seen().accepted(sends).len()
            &&& m.seen().after_all(sends).cap == cap
            &&& !m.seen().after_all(sends).rx_dropped
        }),
    decreases vs.len(),
{
    let m = crate::mpsc::empty_memory::<T>(cap, strategy);
    let sends = Seq::new(vs.len(), |i: int| Call::TrySend(vs[i]));
    assert(m.seen().contents =~= Seq::<T>::empty());
    if vs.len() > 0 {
        let before = Seq::new((vs.len() - 1) as nat, |i: int| Call::TrySend(vs.drop_last()[i]));
        law_a_new_ring_takes_cap_items(cap, strategy, vs.drop_last());
        assert(sends.drop_last() =~= before);
        if vs.len() <= cap {
            assert(vs.drop_last().push(vs.last()) =~= vs);
            assert(vs.take(vs.len() as int) =~= vs);
        } else {
            assert(vs.drop_last().take(cap as int) =~= vs.take(cap as int));
        }
        if vs.len() - 1 == cap {
            assert(vs.drop_last() =~= vs.take(cap as int));
        }
    }
    assert(m.seen().accepted(sends) =~= if vs.len() < cap {
        vs
    } else {
        vs.take(cap as int)
    });
}

} // verus!
