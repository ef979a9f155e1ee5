//! What holds when the producer and the consumer run at the same time.
//!
//! Two threads use the two handles of one ring, and their accesses to the shared memory mix
//! in any order, each access being one step. A read of what the other side writes need not
//! return the newest value: any value will do that is not older than the last one that the
//! reader saw in its place. The read of the tail after the flag was seen is newest (the
//! sender stored it before the flag). And of a thread that is about to sleep and one that is
//! about to wake it, each with a fence between its own store and its look at the other's,
//! one sees the other's store: the first may miss it only while the second is still in the
//! middle of waking, and the second only while the first has yet to look. A consumer whose
//! batch was cut short has stored the head without a fence and without a wake: that store the
//! producer may miss until the consumer wakes it for another reason.
//!
//! The laws speak of every state that such a run can reach.

use vstd::prelude::*;

use crate::notify::{Side, Waking};
use crate::spsc::{Event, Memory, Receiver, RecvStage, SendStage, Sender};
use crate::wait::Rung;

verus! {

/// A ring in use by two threads.
#[verifier::ext_equal]
pub struct System<T> {
    pub m: Memory<T>,
    pub tx: Sender<T>,
    pub rx: Receiver<T>,
    /// The name of the producer's thread.
    pub tx_name: u64,
    /// The name of the consumer's thread.
    pub rx_name: u64,
    /// The items that the producer has put into the ring, in order. As many of them are
    /// published as the tail says.
    pub sent: Seq<T>,
    /// The items that were taken out of the ring, in order.
    pub received: Seq<T>,
    /// The value of the send that was started last.
    pub given: Option<T>,
    /// The values of the sends that returned `Ok`, in the order of the calls.
    pub accepted: Seq<T>,
    /// The items that receives have returned and batches have handed over, in order.
    pub returned: Seq<T>,
    /// The producer has seen that the receiver is gone.
    pub tx_saw_gone: bool,
    /// The consumer has seen that the sender is gone.
    pub rx_saw_gone: bool,
    /// The consumer has freed slots of a batch that was cut short, and has not come to wake
    /// the producer since.
    pub unwoken: bool,
    /// The threads that were unparked and have not used that up by a sleep: the next sleep of
    /// such a thread ends at once.
    pub tokens: Set<u64>,
}

impl<T> System<T> {
    /// The ring was just made.
    pub open spec fn initial(self) -> bool {
        &&& crate::index::is_cap(self.m.cap as int)
        &&& self.m == crate::spsc::empty_memory::<T>(self.m.cap, self.m.strategy)
        &&& self.tx.rests_on(self.m)
        &&& self.rx.rests_on(self.m)
        &&& self.tx_name != self.rx_name
        &&& self.sent == Seq::<T>::empty()
        &&& self.received == Seq::<T>::empty()
        &&& self.accepted == Seq::<T>::empty()
        &&& self.returned == Seq::<T>::empty()
        &&& !self.tx_saw_gone
        &&& !self.rx_saw_gone
        &&& !self.unwoken
        &&& self.tokens == Set::<u64>::empty()
    }

    /// What the producer's access can return.
    pub open spec fn tx_may_see(self, ev: Event) -> bool {
        match self.tx.stage {
            SendStage::Flag => {
                &&& ev is Flag
                &&& ev->Flag_0 ==> self.m.disconnected
                &&& self.tx_saw_gone ==> ev->Flag_0
            },
            SendStage::Head => {
                &&& ev is Index
                &&& self.tx.cached_head <= ev->Index_0 <= self.m.head
            },
            SendStage::RecheckHead => {
                ||| ev == self.tx.sees(self.m)
                ||| {
                    &&& self.wakes_producer() || self.unwoken
                    &&& ev is Index
                    &&& self.tx.cached_head <= ev->Index_0 <= self.m.head
                }
            },
            SendStage::RecheckFlag => {
                ||| ev == self.tx.sees(self.m)
                ||| self.wakes_producer() && !self.tx_saw_gone && ev == Event::Flag(false)
            },
            SendStage::Wake(Waking::Load) | SendStage::CloseWake(Side::Consumer, Waking::Load) => {
                &&& ev is Flag
                &&& !ev->Flag_0 && self.m.consumer.parked ==> self.rx.stage
                    != RecvStage::RecheckFlag && self.rx.stage != RecvStage::Park
            },
            SendStage::CloseWake(Side::Producer, Waking::Load) => ev is Flag,
            _ => ev == self.tx.sees(self.m),
        }
    }

    /// What the consumer's access can return.
    pub open spec fn rx_may_see(self, ev: Event) -> bool {
        match self.rx.stage {
            RecvStage::Flag => {
                &&& ev is Flag
                &&& ev->Flag_0 ==> self.m.disconnected
                &&& self.rx_saw_gone ==> ev->Flag_0
            },
            RecvStage::Tail | RecvStage::DrainTail => {
                &&& ev is Index
                &&& self.rx.cached_tail <= ev->Index_0 <= self.m.tail
            },
            RecvStage::RecheckTail => {
                ||| ev == self.rx.sees(self.m)
                ||| {
                    &&& self.wakes_consumer()
                    &&& ev is Index
                    &&& self.rx.cached_tail <= ev->Index_0 <= self.m.tail
                }
            },
            RecvStage::RecheckFlag => {
                ||| ev == self.rx.sees(self.m)
                ||| self.wakes_consumer() && !self.rx_saw_gone && ev == Event::Flag(false)
            },
            RecvStage::Wake(Waking::Load)
            | RecvStage::DrainWake(Waking::Load)
            | RecvStage::CloseWake(Side::Producer, Waking::Load) => {
                &&& ev is Flag
                &&& !ev->Flag_0 && self.m.producer.parked ==> self.tx.stage
                    != SendStage::RecheckFlag && self.tx.stage != SendStage::Park
            },
            RecvStage::CloseWake(Side::Consumer, Waking::Load) => ev is Flag,
            _ => ev == self.rx.sees(self.m),
        }
    }

    /// The tokens after an access left the memory `m`: who was unparked has one.
    pub open spec fn tokens_after(self, m: Memory<T>) -> Set<u64> {
        if m.unparked.len() > self.m.unparked.len() {
            self.tokens.insert(m.unparked.last())
        } else {
            self.tokens
        }
    }

    /// The producer's thread makes its next access, which returns `ev`.
    pub open spec fn tx_access(self, ev: Event) -> System<T> {
        let m = self.tx.leaves(self.m);
        System {
            m,
            tx: self.tx.next(ev),
            sent: if self.tx.stage == SendStage::Write {
                self.sent.push(self.tx.value->0)
            } else {
                self.sent
            },
            tx_saw_gone: self.tx_saw_gone || ((self.tx.stage == SendStage::Flag || self.tx.stage
                == SendStage::RecheckFlag) && ev == Event::Flag(true)),
            tokens: if self.tx.stage == SendStage::Park {
                self.tokens.remove(self.tx_name)
            } else {
                self.tokens_after(m)
            },
            ..self
        }
    }

    /// The consumer's thread makes its next access, which returns `ev`.
    pub open spec fn rx_access(self, ev: Event) -> System<T> {
        let m = self.rx.leaves(self.m);
        System {
            m,
            rx: self.rx.after(self.m, ev),
            received: if self.rx.stage == RecvStage::Read || self.rx.stage
                == RecvStage::DrainRead {
                self.received.push(self.m.at(self.rx.head as int)->0)
            } else {
                self.received
            },
            rx_saw_gone: self.rx_saw_gone || ((self.rx.stage == RecvStage::Flag || self.rx.stage
                == RecvStage::RecheckFlag) && ev == Event::Flag(true)),
            unwoken: match self.rx.stage {
                RecvStage::DrainCut => true,
                RecvStage::StoreHead | RecvStage::DrainStore | RecvStage::Close => false,
                _ => self.unwoken,
            },
            tokens: if self.rx.stage == RecvStage::Park {
                self.tokens.remove(self.rx_name)
            } else {
                self.tokens_after(m)
            },
            ..self
        }
    }

    /// The producer's thread starts to send `v`.
    pub open spec fn tx_start(self, v: T, blocking: bool, me: u64) -> System<T> {
        System { tx: self.tx.started(v, blocking, me), given: Some(v), ..self }
    }

    /// The producer's operation ends and returns its result.
    pub open spec fn tx_finish(self) -> System<T> {
        System {
            tx: Sender { stage: SendStage::Ready, value: None, ..self.tx },
            accepted: if self.tx.stage == SendStage::Sent {
                self.accepted.push(self.given->0)
            } else {
                self.accepted
            },
            ..self
        }
    }

    /// The producer's thread starts or ends an operation, and that leads to `s`.
    pub open spec fn tx_calls(self, s: System<T>) -> bool {
        ||| {
            &&& self.tx.stage == SendStage::Ready
            &&& exists|v: T, blocking: bool, me: u64|
                (blocking ==> me == self.tx_name) && s == #[trigger] self.tx_start(
                    v,
                    blocking,
                    me,
                )
        }
        ||| {
            &&& self.tx.stage == SendStage::Ready
            &&& s == (System { tx: self.tx.to(SendStage::Close), ..self })
        }
        ||| {
            &&& self.tx.stage == SendStage::Sent || self.tx.stage == SendStage::Full
                || self.tx.stage == SendStage::Disconnected
            &&& s == self.tx_finish()
        }
    }

    /// The consumer's operation ends and returns its result.
    pub open spec fn rx_finish(self) -> System<T> {
        System {
            rx: Receiver { stage: RecvStage::Ready, value: None, ..self.rx },
            returned: if self.rx.stage == RecvStage::Got {
                self.returned.push(self.rx.value->0)
            } else {
                self.returned
            },
            ..self
        }
    }

    /// The consumer hands an item of a batch over.
    pub open spec fn rx_deliver(self) -> System<T> {
        System {
            rx: self.rx.delivered(),
            returned: self.returned.push(self.rx.value->0),
            ..self
        }
    }

    /// The consumer's thread starts or ends an operation, hands an item of a batch over, or
    /// cuts a batch short, and that leads to `s`.
    pub open spec fn rx_calls(self, s: System<T>) -> bool {
        ||| {
            &&& self.rx.stage == RecvStage::Ready
            &&& exists|blocking: bool, me: u64|
                (blocking ==> me == self.rx_name) && s == (System {
                    rx: #[trigger] self.rx.started(blocking, me),
                    ..self
                })
        }
        ||| {
            &&& self.rx.stage == RecvStage::Ready
            &&& exists|max: usize|
                s == (System { rx: #[trigger] self.rx.drain_started(max), ..self })
        }
        ||| self.rx.stage == RecvStage::DrainDeliver && s == self.rx_deliver()
        ||| {
            &&& self.rx.stage == RecvStage::DrainTail || self.rx.stage == RecvStage::DrainRead
                || self.rx.stage == RecvStage::DrainStore
            &&& s == (System { rx: self.rx.drain_cut(), ..self })
        }
        ||| {
            &&& self.rx.stage == RecvStage::Ready
            &&& s == (System { rx: self.rx.to(RecvStage::Close), ..self })
        }
        ||| {
            &&& self.rx.stage == RecvStage::Got || self.rx.stage == RecvStage::Empty
                || self.rx.stage == RecvStage::Disconnected || self.rx.stage == RecvStage::Drained
            &&& s == self.rx_finish()
        }
    }

    /// The producer makes an access that returns `ev`, and that leads to `s`.
    pub open spec fn tx_steps(self, ev: Event, s: System<T>) -> bool {
        &&& self.tx_may_see(ev)
        &&& self.tx.expects(ev)
        &&& s == self.tx_access(ev)
    }

    /// The consumer makes an access that returns `ev`, and that leads to `s`.
    pub open spec fn rx_steps(self, ev: Event, s: System<T>) -> bool {
        &&& self.rx.stage != RecvStage::DrainDeliver
        &&& self.rx_may_see(ev)
        &&& self.rx.expects(ev)
        &&& s == self.rx_access(ev)
    }

    /// One of the threads takes a step.
    pub open spec fn step(self, s: System<T>) -> bool {
        ||| exists|ev: Event| #[trigger] self.tx_steps(ev, s)
        ||| exists|ev: Event| #[trigger] self.rx_steps(ev, s)
        ||| self.tx_calls(s)
        ||| self.rx_calls(s)
    }

    /// A run: from a new ring, one step after the other.
    pub open spec fn run(trace: Seq<System<T>>) -> bool {
        &&& trace.len() > 0
        &&& trace[0].initial()
        &&& forall|i: int| 0 < i < trace.len() ==> #[trigger] Self::steps_to(trace, i)
    }

    /// A step leads to the `i`-th state from the one before.
    pub open spec fn steps_to(trace: Seq<System<T>>, i: int) -> bool {
        trace[i - 1].step(trace[i])
    }

    /// A run can come to this state.
    pub open spec fn reachable(self) -> bool {
        exists|trace: Seq<System<T>>| #[trigger] Self::run(trace) && trace.last() == self
    }

    /// The producer is dropped, and has said so.
    pub open spec fn tx_closed(self) -> bool {
        self.tx.stage is CloseWake || self.tx.stage == SendStage::Gone
    }

    /// The consumer is dropped, and has said so.
    pub open spec fn rx_closed(self) -> bool {
        self.rx.stage is CloseWake || self.rx.stage == RecvStage::Gone
    }

    /// How many items the consumer has taken out without having stored that.
    spec fn lag(self) -> int {
        if self.rx.stage == RecvStage::StoreHead {
            1
        } else if self.rx.stage.drains() {
            self.rx.count as int
        } else {
            0
        }
    }

    /// How many items are in the ring or went through it: those that are published, and one
    /// that is about to be.
    spec fn written(self) -> int {
        self.m.tail + if self.tx.stage == SendStage::Publish {
            1int
        } else {
            0
        }
    }

    /// The indices, the slots and the items that went through them.
    spec fn inv(self) -> bool {
        &&& self.tx.wf()
        &&& self.rx.wf()
        &&& self.tx.fits(self.m)
        &&& self.rx.fits(self.m)
        &&& self.rx.head == self.m.head + self.lag()
        &&& self.m.holds(self.rx.head as int, self.written())
        &&& self.sent.len() == self.written()
        &&& self.received == self.sent.take(self.rx.head as int)
        &&& forall|seq: int|
            self.rx.head <= seq < self.written() ==> (#[trigger] self.m.at(seq)) == Some(
                self.sent[seq],
            )
        &&& self.rx.head <= self.m.tail
        &&& self.m.disconnected <==> self.tx_closed() || self.rx_closed()
        &&& self.tx.stage == SendStage::Disconnected ==> self.rx_closed()
        &&& self.rx.stage == RecvStage::FinalTail ==> self.tx_closed()
        &&& self.rx.stage == RecvStage::Disconnected ==> self.tx_closed() && self.rx.head
            == self.m.tail
    }

    /// The send under way has put its value into the ring.
    pub open spec fn tx_has_sent(self) -> bool {
        self.tx.stage == SendStage::Publish || self.tx.stage is Wake || self.tx.stage
            == SendStage::Sent
    }

    /// What was given, taken and seen, and what came of it.
    spec fn history_inv(self) -> bool {
        &&& self.tx.value is Some ==> self.tx.value == self.given
        &&& self.tx_has_sent() ==> self.given is Some
        &&& self.sent == if self.tx_has_sent() {
            self.accepted.push(self.given->0)
        } else {
            self.accepted
        }
        &&& self.received == if self.rx.value is Some {
            self.returned.push(self.rx.value->0)
        } else {
            self.returned
        }
        &&& self.tx_saw_gone ==> self.rx_closed()
        &&& self.rx_saw_gone ==> self.tx_closed()
        &&& self.rx.stage == RecvStage::FinalTail || self.rx.stage == RecvStage::Disconnected
            ==> self.rx_saw_gone
        &&& self.rx.stage.drains() || self.rx.stage is DrainWake || self.rx.stage
            == RecvStage::Drained ==> self.rx.count <= self.m.cap
    }

    /// The producer is in the middle of waking the consumer.
    pub open spec fn wakes_consumer(self) -> bool {
        match self.tx.stage {
            SendStage::Wake(_) | SendStage::CloseWake(Side::Consumer, _) => true,
            _ => false,
        }
    }

    /// The producer is about to take the consumer's name and to unpark it.
    pub open spec fn takes_consumer(self) -> bool {
        self.tx.stage == SendStage::Wake(Waking::Take) || self.tx.stage == SendStage::CloseWake(
            Side::Consumer,
            Waking::Take,
        )
    }

    /// The consumer is in the middle of waking the producer.
    pub open spec fn wakes_producer(self) -> bool {
        self.rx.stage is Wake || self.rx.stage is DrainWake || self.rx.stage is CloseWake
    }

    /// The consumer is about to take the producer's name and to unpark it.
    pub open spec fn takes_producer(self) -> bool {
        self.rx.stage == RecvStage::Wake(Waking::Take) || self.rx.stage == RecvStage::DrainWake(
            Waking::Take,
        ) || self.rx.stage == RecvStage::CloseWake(Side::Producer, Waking::Take)
    }

    /// The consumer sleeps, and no unpark has reached it.
    pub open spec fn consumer_asleep(self) -> bool {
        self.rx.asks() == crate::spsc::RecvAction::Pause(Rung::Park) && !self.tokens.contains(
            self.rx_name,
        )
    }

    /// The producer sleeps, and no unpark has reached it.
    pub open spec fn producer_asleep(self) -> bool {
        self.tx.asks() == crate::spsc::SendAction::Pause(Rung::Park) && !self.tokens.contains(
            self.tx_name,
        )
    }

    /// What holds of a consumer that is going to sleep.
    spec fn consumer_inv(self) -> bool {
        let awaited = !self.tokens.contains(self.rx_name);
        let stage = self.rx.stage;
        let registered = stage == RecvStage::Announce || stage == RecvStage::RecheckTail || stage
            == RecvStage::RecheckFlag || stage == RecvStage::Park;
        let announced = registered && stage != RecvStage::Announce;
        let rechecked = announced && stage != RecvStage::RecheckTail;
        let looks = stage == RecvStage::Tail || stage == RecvStage::Flag || stage
            == RecvStage::Pause || stage.parks();
        &&& looks && self.rx.blocking ==> self.rx.me == self.rx_name
        &&& registered && awaited ==> self.m.consumer.slot == Some(self.rx_name)
        &&& announced && awaited ==> self.m.consumer.parked || self.takes_consumer()
        &&& rechecked && awaited && self.m.tail != self.rx.head ==> self.wakes_consumer()
        &&& stage == RecvStage::Park && awaited && self.m.disconnected ==> self.wakes_consumer()
    }

    /// What holds of a producer that is going to sleep.
    spec fn producer_inv(self) -> bool {
        let awaited = !self.tokens.contains(self.tx_name);
        let stage = self.tx.stage;
        let registered = stage == SendStage::Announce || stage == SendStage::RecheckHead || stage
            == SendStage::RecheckFlag || stage == SendStage::Park;
        let announced = registered && stage != SendStage::Announce;
        let rechecked = announced && stage != SendStage::RecheckHead;
        let looks = stage == SendStage::Flag || stage == SendStage::Head || stage
            == SendStage::Pause || stage.parks();
        &&& looks && self.tx.blocking ==> self.tx.me == self.tx_name
        &&& registered && awaited ==> self.m.producer.slot == Some(self.tx_name)
        &&& announced && awaited ==> self.m.producer.parked || self.takes_producer()
        &&& rechecked && awaited && !self.m.full() ==> self.wakes_producer() || self.unwoken
        &&& stage == SendStage::Park && awaited && self.m.disconnected ==> self.wakes_producer()
        &&& self.wakes_producer() ==> !self.unwoken
    }

    /// All of it.
    spec fn all_inv(self) -> bool {
        &&& self.inv()
        &&& self.history_inv()
        &&& self.tx_name != self.rx_name
        &&& self.consumer_inv()
        &&& self.producer_inv()
    }
}

proof fn lemma_initial<T>(s: System<T>)
    requires
        s.initial(),
    ensures
        s.all_inv(),
{
    crate::index::lemma_cap_positive(s.m.cap as int);
    assert forall|seq: int| 0 <= seq < s.m.cap implies (#[trigger] s.m.at(seq)) is None by {
        crate::index::lemma_slot_bound(seq, s.m.cap as int);
    }
    assert(s.received =~= s.sent.take(0));
}

proof fn lemma_tx_access<T>(s: System<T>, ev: Event)
    requires
        s.inv(),
        s.tx_may_see(ev),
        s.tx.expects(ev),
    ensures
        s.tx_access(ev).inv(),
{
    let t = s.tx_access(ev);
    crate::index::lemma_cap_positive(s.m.cap as int);
    if s.tx.stage == SendStage::Write {
        crate::spsc::lemma_filled(s.m, s.rx.head as int, s.m.tail as int, s.tx.value->0);
        assert(t.sent.take(t.rx.head as int) =~= s.sent.take(s.rx.head as int));
    } else {
        assert(t.m.slots == s.m.slots);
        assert(forall|seq: int| #[trigger] t.m.at(seq) == s.m.at(seq));
    }
}

#[verifier::rlimit(40)]
proof fn lemma_rx_access<T>(s: System<T>, ev: Event)
    requires
        s.inv(),
        s.rx.stage != RecvStage::DrainDeliver,
        s.rx_may_see(ev),
        s.rx.expects(ev),
    ensures
        s.rx_access(ev).inv(),
{
    let t = s.rx_access(ev);
    crate::index::lemma_cap_positive(s.m.cap as int);
    if s.rx.stage == RecvStage::Read || s.rx.stage == RecvStage::DrainRead {
        assert(s.m.at(s.rx.head as int) == Some(s.sent[s.rx.head as int]));
        crate::spsc::lemma_taken(s.m, s.rx.head as int, s.written());
        assert(t.received =~= t.sent.take(t.rx.head as int));
    } else {
        assert(t.m.slots == s.m.slots);
        assert(forall|seq: int| #[trigger] t.m.at(seq) == s.m.at(seq));
    }
}

proof fn lemma_tx_access_notify<T>(s: System<T>, ev: Event)
    requires
        s.all_inv(),
        s.tx_may_see(ev),
        s.tx.expects(ev),
    ensures
        s.tx_access(ev).consumer_inv(),
        s.tx_access(ev).producer_inv(),
{
    let t = s.tx_access(ev);
    assert(t.tokens == s.tokens || t.tokens == s.tokens.remove(s.tx_name) || (
    s.m.unparked.len() < t.m.unparked.len() && t.tokens == s.tokens.insert(t.m.unparked.last())));
}

proof fn lemma_rx_access_notify<T>(s: System<T>, ev: Event)
    requires
        s.all_inv(),
        s.rx.stage != RecvStage::DrainDeliver,
        s.rx_may_see(ev),
        s.rx.expects(ev),
    ensures
        s.rx_access(ev).consumer_inv(),
        s.rx_access(ev).producer_inv(),
{
    let t = s.rx_access(ev);
    assert(t.tokens == s.tokens || t.tokens == s.tokens.remove(s.rx_name) || (
    s.m.unparked.len() < t.m.unparked.len() && t.tokens == s.tokens.insert(t.m.unparked.last())));
}

proof fn lemma_tx_access_history<T>(s: System<T>, ev: Event)
    requires
        s.all_inv(),
        s.tx_may_see(ev),
        s.tx.expects(ev),
    ensures
        s.tx_access(ev).history_inv(),
{
}

proof fn lemma_rx_access_history<T>(s: System<T>, ev: Event)
    requires
        s.all_inv(),
        s.rx.stage != RecvStage::DrainDeliver,
        s.rx_may_see(ev),
        s.rx.expects(ev),
    ensures
        s.rx_access(ev).history_inv(),
{
    if s.rx.stage == RecvStage::Read || s.rx.stage == RecvStage::DrainRead {
        assert(s.m.at(s.rx.head as int) == Some(s.sent[s.rx.head as int]));
    }
}

proof fn lemma_tx_calls<T>(s: System<T>, t: System<T>)
    requires
        s.all_inv(),
        s.tx_calls(t),
    ensures
        t.all_inv(),
{
    assert(t.m == s.m);
}

proof fn lemma_rx_calls<T>(s: System<T>, t: System<T>)
    requires
        s.all_inv(),
        s.rx_calls(t),
    ensures
        t.all_inv(),
{
    assert(t.m == s.m);
}

proof fn lemma_step<T>(s: System<T>, t: System<T>)
    requires
        s.all_inv(),
        s.step(t),
    ensures
        t.all_inv(),
{
    if exists|ev: Event| #[trigger] s.tx_steps(ev, t) {
        let ev = choose|ev: Event| #[trigger] s.tx_steps(ev, t);
        lemma_tx_access(s, ev);
        lemma_tx_access_notify(s, ev);
        lemma_tx_access_history(s, ev);
    } else if exists|ev: Event| #[trigger] s.rx_steps(ev, t) {
        let ev = choose|ev: Event| #[trigger] s.rx_steps(ev, t);
        lemma_rx_access(s, ev);
        lemma_rx_access_notify(s, ev);
        lemma_rx_access_history(s, ev);
    } else if s.tx_calls(t) {
        lemma_tx_calls(s, t);
    } else {
        lemma_rx_calls(s, t);
    }
}

proof fn lemma_run<T>(trace: Seq<System<T>>, i: int)
    requires
        System::run(trace),
        0 <= i < trace.len(),
    ensures
        trace[i].all_inv(),
    decreases i,
{
    if i == 0 {
        lemma_initial(trace[0]);
    } else {
        lemma_run(trace, i - 1);
        assert(System::steps_to(trace, i));
        lemma_step(trace[i - 1], trace[i]);
    }
}

proof fn lemma_reachable<T>(s: System<T>)
    requires
        s.reachable(),
    ensures
        s.all_inv(),
{
    let trace = choose|trace: Seq<System<T>>| #[trigger] System::run(trace) && trace.last() == s;
    lemma_run(trace, trace.len() - 1);
}

/// A new ring is the start of a run.
pub proof fn law_new_ring_is_reachable<T>(s: System<T>)
    requires
        s.initial(),
    ensures
        s.reachable(),
{
    let trace = seq![s];
    assert(System::run(trace));
    assert(trace.last() == s);
}

/// A step from a reachable state leads to a reachable state.
pub proof fn law_steps_are_reachable<T>(s: System<T>, t: System<T>)
    requires
        s.reachable(),
        s.step(t),
    ensures
        t.reachable(),
{
    let trace = choose|trace: Seq<System<T>>| #[trigger] System::run(trace) && trace.last() == s;
    let longer = trace.push(t);
    assert forall|i: int| 0 < i < longer.len() implies #[trigger] System::steps_to(longer, i) by {
        if i < trace.len() {
            assert(System::steps_to(trace, i));
        }
    }
    assert(System::run(longer));
    assert(longer.last() == t);
}

/// Whatever a read returns, both machines can take it: no access leads an operation out of
/// the contract of `advance`. The one exception is a counter at the end of its range.
pub proof fn law_every_read_is_expected<T>(s: System<T>, ev: Event)
    requires
        s.reachable(),
    ensures
        s.tx_may_see(ev) && s.m.tail < usize::MAX && s.tx.asks()
            != crate::spsc::SendAction::Return ==> s.tx.expects(ev),
        s.rx_may_see(ev) && s.rx.asks() != crate::spsc::RecvAction::Return ==> s.rx.expects(ev),
        s.tx_may_see(s.tx.sees(s.m)),
        s.rx_may_see(s.rx.sees(s.m)),
{
    lemma_reachable(s);
}

/// Nothing that the consumer does can hold the producer up: unless it waits, every access
/// brings it nearer to the end of its operation or to a wait, at most eight accesses away.
pub proof fn law_sends_end<T>(s: System<T>, ev: Event)
    requires
        s.reachable(),
        s.tx.expects(ev),
        s.tx.stage != SendStage::Pause,
        !s.tx.stage.parks(),
    ensures
        s.tx.next(ev).left() < s.tx.left(),
        s.tx.left() <= 8,
{
    lemma_reachable(s);
}

/// Nothing that the producer does can hold the consumer up: unless it waits, every access
/// brings it nearer to the end of its operation or to a wait; for one item that is at most nine
/// accesses away, and for a batch at most three for each item that it may have and seven more.
pub proof fn law_receives_end<T>(s: System<T>, ev: Event)
    requires
        s.reachable(),
        s.rx.expects(ev),
        s.rx.stage != RecvStage::Pause,
        !s.rx.stage.parks(),
    ensures
        s.rx.stage == RecvStage::DrainDeliver ==> s.rx.delivered().left() < s.rx.left(),
        s.rx.stage != RecvStage::DrainDeliver ==> s.rx_access(ev).rx.left() < s.rx.left(),
        s.rx.left() <= if s.rx.stage.drains() {
            3 * (s.rx.max - s.rx.count) + 7
        } else {
            9
        },
{
    lemma_reachable(s);
}

/// The items come out in the order in which they went in: none is skipped, none comes twice.
pub proof fn law_items_arrive_in_order<T>(s: System<T>)
    requires
        s.reachable(),
    ensures
        s.received.len() <= s.sent.len(),
        s.received == s.sent.take(s.received.len() as int),
{
    lemma_reachable(s);
}

/// A value stays with its operation until it is written to its slot: an operation that fails
/// has it to hand back.
pub proof fn law_values_stay_until_written<T>(tx: Sender<T>, ev: Event)
    requires
        tx.wf(),
        tx.stage != SendStage::Write,
    ensures
        tx.next(ev).value == tx.value,
        tx.stage == SendStage::Full || tx.stage == SendStage::Disconnected ==> tx.value is Some,
{
}

/// Every item that was taken out is handed over: all that were are returned, but for the one
/// that the operation under way has for its caller.
pub proof fn law_taken_items_are_handed_over<T>(s: System<T>)
    requires
        s.reachable(),
    ensures
        s.rx.stage.has_value() ==> s.rx.value is Some && s.received == s.returned.push(
            s.rx.value->0,
        ),
        !s.rx.stage.has_value() ==> s.received == s.returned,
{
    lemma_reachable(s);
}

/// What was put into the ring and not taken out is in the slots, in order, and at most as many
/// items as there are slots; the consumer takes only what is published.
pub proof fn law_items_are_kept<T>(s: System<T>)
    requires
        s.reachable(),
    ensures
        s.sent.len() - s.received.len() <= s.m.cap,
        s.received.len() <= s.m.tail <= s.sent.len(),
        forall|seq: int|
            s.received.len() <= seq < s.sent.len() ==> (#[trigger] s.m.at(seq)) == Some(
                s.sent[seq],
            ),
{
    lemma_reachable(s);
}

/// A batch frees its slots together: until it is complete, or cut short, the head that the
/// others see stays where it was, and then moves on by all the items that were taken out.
pub proof fn law_batches_free_their_slots_at_the_end<T>(s: System<T>)
    requires
        s.reachable(),
    ensures
        s.rx.stage.drains() ==> s.received.len() == s.m.head + s.rx.count,
        s.rx.stage is DrainWake || s.rx.stage == RecvStage::Drained ==> s.received.len()
            == s.m.head,
{
    lemma_reachable(s);
}

/// The producer writes only into a slot that is empty, and the consumer reads only from one
/// that holds an item: no access meets the other side's.
pub proof fn law_slots_are_not_shared<T>(s: System<T>)
    requires
        s.reachable(),
    ensures
        s.tx.stage == SendStage::Write ==> s.m.at(s.tx.tail as int) is None,
        s.rx.stage == RecvStage::Read || s.rx.stage == RecvStage::DrainRead ==> s.m.at(
            s.rx.head as int,
        ) is Some,
        s.tx.stage == SendStage::Write && (s.rx.stage == RecvStage::Read || s.rx.stage
            == RecvStage::DrainRead) ==> crate::index::slot(s.tx.tail as int, s.m.cap as int)
            != crate::index::slot(s.rx.head as int, s.m.cap as int),
{
    lemma_reachable(s);
    lemma_slots(s);
}

proof fn lemma_slots<T>(s: System<T>)
    requires
        s.inv(),
    ensures
        s.tx.stage == SendStage::Write ==> s.m.at(s.tx.tail as int) is None,
        s.rx.stage == RecvStage::Read || s.rx.stage == RecvStage::DrainRead ==> s.m.at(
            s.rx.head as int,
        ) == Some(s.sent[s.rx.head as int]),
        s.tx.cap == s.m.cap,
        s.rx.cap == s.m.cap,
        s.tx.wf(),
        s.rx.wf(),
        s.m.tail == s.tx.tail,
        s.received.len() == s.rx.head,
{
    crate::index::lemma_cap_positive(s.m.cap as int);
    if s.rx.stage == RecvStage::Read || s.rx.stage == RecvStage::DrainRead {
        assert(s.m.at(s.rx.head as int) == Some(s.sent[s.rx.head as int]));
    }
}

/// The slot that the producer asks to write is empty, and the slot that the consumer asks to read
/// holds the item that is next: the oldest that was sent and not received.
pub proof fn law_the_slots_asked_for_are_right<T>(s: System<T>)
    requires
        s.reachable(),
    ensures
        match s.tx.asks() {
            crate::spsc::SendAction::WriteSlot(i) => i < s.m.cap && s.m.slots[i as int] is None,
            crate::spsc::SendAction::StoreTail(tail) => s.m.tail < usize::MAX ==> tail == s.m.tail
                + 1,
            _ => true,
        },
        match s.rx.asks() {
            crate::spsc::RecvAction::ReadSlot(i) => {
                &&& i < s.m.cap
                &&& s.m.slots[i as int] == Some(s.sent[s.received.len() as int])
            },
            crate::spsc::RecvAction::StoreHead(head) => head == s.received.len(),
            _ => true,
        },
{
    lemma_reachable(s);
    lemma_slots(s);
    crate::index::lemma_cap_positive(s.m.cap as int);
    crate::index::lemma_slot_bound(s.tx.tail as int, s.m.cap as int);
    crate::index::lemma_slot_bound(s.rx.head as int, s.m.cap as int);
}

/// The consumer reports a missing sender only when the sender is gone and every item that it
/// published was taken out; the producer reports a missing receiver only when it is gone.
pub proof fn law_disconnected_is_reported_when_drained<T>(s: System<T>)
    requires
        s.reachable(),
    ensures
        s.rx.stage == RecvStage::Disconnected ==> s.tx_closed() && s.received == s.sent,
        s.tx.stage == SendStage::Disconnected ==> s.rx_closed(),
{
    lemma_reachable(s);
    if s.rx.stage == RecvStage::Disconnected {
        assert(s.rx.head == s.sent.len());
        assert(s.received == s.sent.take(s.sent.len() as int));
        assert(s.sent.take(s.sent.len() as int) =~= s.sent);
    }
}

/// A dropped sender puts nothing more into the ring, so once everything was taken out it stays
/// so.
pub proof fn law_drained_stays_drained<T>(s: System<T>, t: System<T>)
    requires
        s.reachable(),
        s.step(t),
        s.tx_closed(),
        s.received == s.sent,
    ensures
        t.tx_closed(),
        t.sent == s.sent,
        t.received == s.sent,
{
    lemma_reachable(s);
    lemma_step(s, t);
    assert(t.sent.take(t.sent.len() as int) =~= t.sent);
}

impl<T> System<T> {
    /// The consumer knows that the sender is gone and has everything: no item, no report that
    /// the ring is empty and no wait is under way.
    pub open spec fn over(self) -> bool {
        &&& self.tx_closed()
        &&& self.rx_saw_gone
        &&& self.received == self.sent
        &&& match self.rx.stage {
            RecvStage::Disconnected
            | RecvStage::Ready
            | RecvStage::Tail
            | RecvStage::Flag
            | RecvStage::FinalTail
            | RecvStage::Drained
            | RecvStage::Close
            | RecvStage::CloseWake(_, _)
            | RecvStage::Gone => true,
            RecvStage::DrainTail => self.rx.count == 0,
            _ => false,
        }
    }
}

proof fn lemma_over_rx<T>(s: System<T>, ev: Event)
    requires
        s.all_inv(),
        s.over(),
        s.rx.stage != RecvStage::DrainDeliver,
        s.rx_may_see(ev),
        s.rx.expects(ev),
    ensures
        s.rx_access(ev).over(),
{
    assert(s.received.len() == s.rx.head);
    assert(s.sent.len() == s.m.tail);
}

proof fn lemma_over<T>(s: System<T>, t: System<T>)
    requires
        s.all_inv(),
        s.over(),
        s.step(t),
    ensures
        t.over(),
        t.sent == s.sent,
{
    assert(s.received.len() == s.rx.head);
    assert(s.sent.len() == s.m.tail);
    if exists|ev: Event| #[trigger] s.tx_steps(ev, t) {
    } else if exists|ev: Event| #[trigger] s.rx_steps(ev, t) {
        let ev = choose|ev: Event| #[trigger] s.rx_steps(ev, t);
        lemma_over_rx(s, ev);
    } else if s.tx_calls(t) {
    } else {
        assert(s.rx.head == s.rx.cached_tail);
    }
}

/// Where the consumer reports that the sender is gone, it knows so and has everything.
pub proof fn law_disconnected_knows_it_is_over<T>(s: System<T>)
    requires
        s.reachable(),
        s.rx.stage == RecvStage::Disconnected,
    ensures
        s.over(),
{
    lemma_reachable(s);
    assert(s.sent.take(s.sent.len() as int) =~= s.sent);
}

/// Each handle stays sound, whatever the other does.
pub proof fn law_handles_stay_sound<T>(s: System<T>)
    requires
        s.reachable(),
    ensures
        s.tx.wf(),
        s.rx.wf(),
{
    lemma_reachable(s);
}

/// What is over stays over, whatever step comes next.
pub proof fn law_over_stays_over<T>(s: System<T>, t: System<T>)
    requires
        s.reachable(),
        s.step(t),
        s.over(),
    ensures
        t.over(),
        t.sent == s.sent,
{
    lemma_reachable(s);
    lemma_over(s, t);
}

/// Once the consumer has reported that the sender is gone, it stays so: nothing more is put
/// into the ring, nothing is left in it, and no later operation finds an item, calls the ring
/// empty or waits.
pub proof fn law_disconnect_is_final<T>(trace: Seq<System<T>>, i: int, j: int)
    requires
        System::run(trace),
        0 <= i <= j < trace.len(),
        trace[i].rx.stage == RecvStage::Disconnected,
    ensures
        trace[j].tx_closed(),
        trace[j].sent == trace[i].sent,
        trace[j].received == trace[j].sent,
        trace[j].rx.stage != RecvStage::Empty,
        trace[j].rx.stage != RecvStage::Got,
        trace[j].rx.stage != RecvStage::DrainDeliver,
        trace[j].rx.stage != RecvStage::Pause,
        !trace[j].rx.stage.parks(),
{
    lemma_over_later(trace, i, j);
}

proof fn lemma_over_later<T>(trace: Seq<System<T>>, i: int, j: int)
    requires
        System::run(trace),
        0 <= i <= j < trace.len(),
        trace[i].rx.stage == RecvStage::Disconnected,
    ensures
        trace[j].over(),
        trace[j].sent == trace[i].sent,
    decreases j,
{
    lemma_run(trace, i);
    if i < j {
        lemma_over_later(trace, i, j - 1);
        lemma_run(trace, j - 1);
        assert(System::steps_to(trace, j));
        lemma_over(trace[j - 1], trace[j]);
    } else {
        assert(trace[j].sent.take(trace[j].sent.len() as int) =~= trace[j].sent);
    }
}

/// A send that returned `Ok` has put its value into the ring, once, and a send that did not has
/// not: what is in the ring or went through it are the values of the sends that returned `Ok`,
/// in the order of the calls, and the value of the send under way once it is in its slot.
pub proof fn law_sends_put_their_values<T>(s: System<T>)
    requires
        s.reachable(),
    ensures
        !s.tx_has_sent() ==> s.sent == s.accepted,
        s.tx_has_sent() ==> s.given is Some && s.sent == s.accepted.push(s.given->0),
        s.tx.value is Some ==> s.tx.value == s.given,
{
    lemma_reachable(s);
}

/// While a send is under way, no other one ends and none begins.
proof fn lemma_send_under_way<T>(trace: Seq<System<T>>, i: int, j: int)
    requires
        System::run(trace),
        0 <= i <= j < trace.len(),
        forall|k: int| i <= k <= j ==> (#[trigger] trace[k]).tx.stage != SendStage::Ready,
    ensures
        trace[j].given == trace[i].given,
        trace[j].accepted == trace[i].accepted,
    decreases j,
{
    if i < j {
        lemma_send_under_way(trace, i, j - 1);
        assert(System::steps_to(trace, j));
        assert(trace[j - 1].tx.stage != SendStage::Ready);
        assert(trace[j].tx.stage != SendStage::Ready);
    }
}

/// Between its start and its end a send that succeeds puts its own value into the ring, once,
/// and one that fails puts nothing in and has the value to hand back.
pub proof fn law_a_send_puts_its_value_once<T>(
    trace: Seq<System<T>>,
    i: int,
    j: int,
    v: T,
    blocking: bool,
    me: u64,
)
    requires
        System::run(trace),
        0 < i <= j < trace.len(),
        trace[i - 1].tx.stage == SendStage::Ready,
        trace[i] == trace[i - 1].tx_start(v, blocking, me),
        forall|k: int| i <= k <= j ==> (#[trigger] trace[k]).tx.stage != SendStage::Ready,
    ensures
        trace[j].tx.stage == SendStage::Sent ==> trace[j].sent == trace[i].sent.push(v),
        trace[j].tx.stage == SendStage::Full || trace[j].tx.stage == SendStage::Disconnected
            ==> trace[j].sent == trace[i].sent && trace[j].tx.value == Some(v),
{
    lemma_run(trace, i);
    lemma_run(trace, j);
    lemma_send_under_way(trace, i, j);
}

/// What the receives have returned and the batches have handed over is what was put into the
/// ring, in order, as far as it was taken out; and when the consumer reports that the sender is
/// gone, it has returned the values of all sends that returned `Ok`, each once and in the order
/// of the calls, and of no others.
pub proof fn law_round_trip<T>(s: System<T>)
    requires
        s.reachable(),
    ensures
        s.returned.len() <= s.sent.len(),
        s.returned == s.sent.take(s.returned.len() as int),
        s.rx.stage == RecvStage::Disconnected ==> s.returned == s.accepted,
{
    law_items_arrive_in_order(s);
    law_taken_items_are_handed_over(s);
    law_sends_put_their_values(s);
    law_disconnected_is_reported_when_drained(s);
    assert(s.returned =~= s.received.take(s.returned.len() as int));
    assert(s.returned =~= s.sent.take(s.returned.len() as int));
}

/// The ring is bounded also while operations are under way: the tail is at most as far ahead of
/// the head as there are slots, so the sends that returned `Ok` are at most as many more than
/// the items that were taken out; and a batch, which stores the head at its end, has at most as
/// many items as there are slots, however fast the producer is.
pub proof fn law_ring_stays_bounded<T>(s: System<T>)
    requires
        s.reachable(),
    ensures
        s.m.tail <= s.m.head + s.m.cap,
        s.accepted.len() - s.received.len() <= s.m.cap,
        s.rx.stage.drains() || s.rx.stage is DrainWake || s.rx.stage == RecvStage::Drained
            ==> s.rx.count <= s.m.cap,
{
    lemma_reachable(s);
}

/// No wake-up of the consumer is lost: while it sleeps and there is an item or no sender any
/// more, the producer is in the middle of waking it, sees the flag if it still has to look at
/// it, and finds the consumer's name.
pub proof fn law_sleeping_consumer_is_woken<T>(s: System<T>)
    requires
        s.reachable(),
        s.consumer_asleep(),
        s.received.len() < s.m.tail || s.m.disconnected,
    ensures
        s.wakes_consumer(),
        s.takes_consumer() || s.m.consumer.parked,
        s.m.consumer.slot == Some(s.rx_name),
{
    lemma_reachable(s);
}

/// No wake-up of the producer is lost: while it sleeps, its name is there, and the flag is
/// raised or the consumer is about to take the name. And while there is room or no receiver any
/// more, the consumer is in the middle of waking it. The one exception is room that a batch
/// left that was cut short: for that the producer is woken with the next item that is taken
/// out, or when the receiver is dropped.
pub proof fn law_sleeping_producer_is_woken<T>(s: System<T>)
    requires
        s.reachable(),
        s.producer_asleep(),
    ensures
        s.takes_producer() || s.m.producer.parked,
        s.m.producer.slot == Some(s.tx_name),
        (!s.m.full() && !s.unwoken) || s.m.disconnected ==> s.wakes_producer(),
        s.wakes_producer() ==> !s.unwoken,
{
    lemma_reachable(s);
}

/// When both handles are gone, the ring holds exactly the items that were published and not
/// taken out, each once: those are the items that go down with it.
pub proof fn law_rest_goes_down_with_the_ring<T>(s: System<T>)
    requires
        s.reachable(),
        s.tx.stage == SendStage::Gone,
        s.rx.stage == RecvStage::Gone,
    ensures
        s.m.wf(),
        s.sent == s.received + s.m.contents(),
{
    lemma_reachable(s);
    assert forall|seq: int| s.m.head <= seq < s.m.tail implies s.m.contents()[seq - s.m.head]
        == s.sent[seq] by {
        assert(s.m.at(seq) == Some(s.sent[seq]));
    }
    assert(s.sent =~= s.received + s.m.contents());
}

} // verus!
