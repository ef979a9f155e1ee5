//! What holds when the producers and the consumer run at the same time.
//!
//! Any number of threads use a producer handle each, one thread uses the consumer handle, and
//! their accesses to the shared memory mix in any order, each access being one step. Handles
//! come and go. A read of what another side writes need not return the newest value, and a
//! compare-and-swap may fail for no reason; but who has seen that the other side is gone sees
//! it again. These reads are newest: a compare-and-swap that succeeds; the exchange of the
//! flag of the producers' list; the second look of the consumer at a slot after it saw that
//! no sender is left (each had published before it was counted out). And of a thread that is
//! about to sleep and one that is about to wake it, each with a fence between its own store
//! and its look at the other's, one sees the other's store: the first may miss it only while
//! the second is still in the middle of waking, and the second only while the first has yet to
//! look. A consumer whose batch was cut short has stored the head without a fence and without
//! a wake: that store a producer may miss until the consumer wakes the producers for another
//! reason.
//!
//! The laws speak of every state that such a run can reach.

use vstd::prelude::*;

use crate::mpsc::{Event, Memory, Receiver, RecvStage, SendStage, Sender};
use crate::notify::{Rousing, Waking};
use crate::wait::Rung;

verus! {

/// A send that returned `Ok`.
#[verifier::ext_equal]
pub struct Receipt<T> {
    /// The name of the thread that sent.
    pub by: u64,
    pub value: T,
    /// The sequence number that the value got.
    pub seq: int,
}

/// A ring in use by several threads.
#[verifier::ext_equal]
pub struct System<T> {
    pub m: Memory<T>,
    /// The producers' handles, by the names of their threads.
    pub txs: Map<u64, Sender<T>>,
    pub rx: Receiver<T>,
    /// The name of the consumer's thread.
    pub rx_name: u64,
    /// The items whose sequence numbers were claimed, in the order of these.
    pub claimed: Seq<T>,
    /// The items that were taken out of the ring, in order.
    pub received: Seq<T>,
    /// The values of the sends that the producers started last.
    pub given: Map<u64, T>,
    /// The sends that returned `Ok`, in the order in which they did.
    pub accepted: Seq<Receipt<T>>,
    /// The items that receives have returned and batches have handed over, in order.
    pub returned: Seq<T>,
    /// The producers that have seen that the receiver is gone.
    pub tx_saw_gone: Set<u64>,
    /// The consumer has seen that no sender is left.
    pub rx_saw_gone: bool,
    /// The consumer has freed slots of a batch that was cut short, and has not come to wake
    /// the producers since.
    pub unwoken: bool,
    /// The threads that were unparked and have not used that up by a sleep: the next sleep of
    /// such a thread ends at once.
    pub tokens: Set<u64>,
}

impl<T> System<T> {
    /// The ring was just made; the thread `first` has its producer handle.
    pub open spec fn initial(self, first: u64) -> bool {
        &&& crate::index::is_cap(self.m.cap as int)
        &&& self.m == crate::mpsc::empty_memory::<T>(self.m.cap, self.m.strategy)
        &&& self.txs.dom() == Set::<u64>::empty().insert(first)
        &&& self.txs[first].rests_on(self.m)
        &&& self.rx.rests_on(self.m)
        &&& first != self.rx_name
        &&& self.claimed == Seq::<T>::empty()
        &&& self.received == Seq::<T>::empty()
        &&& self.accepted == Seq::<Receipt<T>>::empty()
        &&& self.returned == Seq::<T>::empty()
        &&& self.tx_saw_gone == Set::<u64>::empty()
        &&& !self.rx_saw_gone
        &&& !self.unwoken
        &&& self.tokens == Set::<u64>::empty()
    }

    /// What the access of producer `p` can return.
    pub open spec fn tx_may_see(self, p: u64, ev: Event) -> bool {
        let tx = self.txs[p];
        match tx.stage {
            SendStage::Flag => {
                &&& ev is Flag
                &&& ev->Flag_0 ==> self.m.rx_dropped
                &&& self.tx_saw_gone.contains(p) ==> ev->Flag_0
            },
            SendStage::Claim | SendStage::RecheckClaim => {
                &&& ev is Index
                &&& ev->Index_0 <= self.m.claim
            },
            SendStage::Head => {
                &&& ev is Index
                &&& tx.cached_head <= ev->Index_0 <= self.m.head
            },
            SendStage::Swap => {
                ||| ev == Event::Claimed && self.m.claim == tx.seq
                ||| ev is Lost && ev->Lost_0 <= self.m.claim
            },
            SendStage::RecheckHead => {
                ||| ev == tx.sees(self.m)
                ||| {
                    &&& self.wakes_producers() || self.unwoken
                    &&& ev is Index
                    &&& ev->Index_0 <= self.m.head
                }
            },
            SendStage::RecheckFlag => {
                ||| ev == tx.sees(self.m)
                ||| {
                    &&& self.wakes_producers()
                    &&& !self.tx_saw_gone.contains(p)
                    &&& ev == Event::Flag(false)
                }
            },
            SendStage::Wake(Waking::Load) | SendStage::CloseWake(Waking::Load) => {
                &&& ev is Flag
                &&& !ev->Flag_0 && self.m.consumer.parked ==> self.rx.stage
                    != RecvStage::RecheckSenders && self.rx.stage != RecvStage::Park
            },
            _ => ev == tx.sees(self.m),
        }
    }

    /// What the consumer's access can return.
    pub open spec fn rx_may_see(self, ev: Event) -> bool {
        match self.rx.stage {
            RecvStage::Avail | RecvStage::DrainAvail => {
                &&& ev is Mark
                &&& self.rx.finds(ev->Mark_0) ==> self.m.published(self.rx.head as int)
            },
            RecvStage::Senders => {
                &&& ev is Index
                &&& ev->Index_0 == 0 ==> self.m.senders == 0
                &&& self.rx_saw_gone ==> ev->Index_0 == 0
            },
            RecvStage::RecheckAvail => {
                ||| ev == self.rx.sees(self.m)
                ||| {
                    &&& self.someone_wakes_consumer()
                    &&& ev is Mark
                    &&& !self.rx.finds(ev->Mark_0)
                }
            },
            RecvStage::RecheckSenders => {
                ||| ev == self.rx.sees(self.m)
                ||| {
                    &&& self.someone_wakes_consumer()
                    &&& !self.rx_saw_gone
                    &&& ev is Index
                    &&& ev->Index_0 != 0
                }
            },
            _ => ev == self.rx.sees(self.m),
        }
    }

    /// The tokens after an access left the memory `m`: who was unparked has one.
    pub open spec fn tokens_after(self, m: Memory<T>) -> Set<u64> {
        Set::new(
            |t: u64|
                self.tokens.contains(t) || m.unparked.skip(
                    self.m.unparked.len() as int,
                ).contains(t),
        )
    }

    /// The thread of producer `p` makes its next access, which returns `ev`.
    pub open spec fn tx_access(self, p: u64, ev: Event) -> System<T> {
        let tx = self.txs[p];
        let m = tx.leaves(self.m, ev);
        System {
            m,
            txs: self.txs.insert(p, tx.next(ev)),
            claimed: if tx.stage == SendStage::Swap && ev == Event::Claimed {
                self.claimed.push(tx.value->0)
            } else {
                self.claimed
            },
            tx_saw_gone: if (tx.stage == SendStage::Flag || tx.stage == SendStage::RecheckFlag) && ev
                == Event::Flag(true) {
                self.tx_saw_gone.insert(p)
            } else {
                self.tx_saw_gone
            },
            tokens: if tx.stage == SendStage::Park {
                self.tokens.remove(p)
            } else {
                self.tokens_after(m)
            },
            ..self
        }
    }

    /// The consumer's thread makes its next access, which returns `ev`.
    pub open spec fn rx_access(self, ev: Event) -> System<T> {
        let m = self.rx.leaves(self.m);
        System {
            m,
            rx: self.rx.after(self.m, ev),
            received: if self.rx.stage == RecvStage::Read || self.rx.stage
                == RecvStage::DrainRead {
                self.received.push(self.m.at(self.rx.head as int)->0)
            } else {
                self.received
            },
            rx_saw_gone: self.rx_saw_gone || ((self.rx.stage == RecvStage::Senders
                || self.rx.stage == RecvStage::RecheckSenders) && ev == Event::Index(0)),
            unwoken: match self.rx.stage {
                RecvStage::DrainCut => true,
                RecvStage::StoreHead | RecvStage::DrainStore | RecvStage::Close => false,
                _ => self.unwoken,
            },
            tokens: if self.rx.stage == RecvStage::Park {
                self.tokens.remove(self.rx_name)
            } else {
                self.tokens_after(m)
            },
            ..self
        }
    }

    /// The thread of producer `p` starts to send `v`.
    pub open spec fn tx_start(self, p: u64, v: T, blocking: bool, me: u64) -> System<T> {
        System {
            txs: self.txs.insert(p, self.txs[p].started(v, blocking, me)),
            given: self.given.insert(p, v),
            ..self
        }
    }

    /// The operation of producer `p` ends and returns its result.
    pub open spec fn tx_finish(self, p: u64) -> System<T> {
        let tx = self.txs[p];
        System {
            txs: self.txs.insert(p, Sender { stage: SendStage::Ready, value: None, ..tx }),
            accepted: if tx.stage == SendStage::Sent {
                self.accepted.push(
                    Receipt { by: p, value: self.given[p], seq: tx.seq as int },
                )
            } else {
                self.accepted
            },
            ..self
        }
    }

    /// The thread of producer `p` starts or ends an operation, and that leads to `s`.
    pub open spec fn tx_calls(self, p: u64, s: System<T>) -> bool {
        let tx = self.txs[p];
        &&& self.txs.contains_key(p)
        &&& {
            ||| {
                &&& tx.stage == SendStage::Ready
                &&& exists|v: T, blocking: bool, me: u64|
                    (blocking ==> me == p) && s == #[trigger] self.tx_start(p, v, blocking, me)
            }
            ||| {
                &&& tx.stage == SendStage::Ready
                &&& s == (System { txs: self.txs.insert(p, tx.to(SendStage::Close)), ..self })
            }
            ||| {
                &&& tx.stage == SendStage::Sent || tx.stage == SendStage::Full || tx.stage
                    == SendStage::Disconnected
                &&& s == self.tx_finish(p)
            }
        }
    }

    /// The handle of producer `p` is cloned, for the thread `q`, which has none.
    pub open spec fn may_clone(self, p: u64, q: u64) -> bool {
        &&& self.txs.contains_key(p)
        &&& self.txs[p].stage == SendStage::Ready
        &&& self.txs.contains_key(q) ==> self.txs[q].stage == SendStage::Gone
        &&& q != self.rx_name
        &&& self.m.senders < usize::MAX
    }

    /// After the handle of producer `p` was cloned for the thread `q`.
    pub open spec fn tx_clone(self, p: u64, q: u64) -> System<T> {
        System {
            m: Memory { senders: (self.m.senders + 1) as usize, ..self.m },
            txs: self.txs.insert(q, self.txs[p].twin_of()),
            ..self
        }
    }

    /// The consumer's operation ends and returns its result.
    pub open spec fn rx_finish(self) -> System<T> {
        System {
            rx: Receiver { stage: RecvStage::Ready, value: None, ..self.rx },
            returned: if self.rx.stage == RecvStage::Got {
                self.returned.push(self.rx.value->0)
            } else {
                self.returned
            },
            ..self
        }
    }

    /// The consumer hands an item of a batch over.
    pub open spec fn rx_deliver(self) -> System<T> {
        System {
            rx: self.rx.delivered(),
            returned: self.returned.push(self.rx.value->0),
            ..self
        }
    }

    /// The consumer's thread starts or ends an operation, hands an item of a batch over, or
    /// cuts a batch short, and that leads to `s`.
    pub open spec fn rx_calls(self, s: System<T>) -> bool {
        ||| {
            &&& self.rx.stage == RecvStage::Ready
            &&& exists|blocking: bool, me: u64|
                (blocking ==> me == self.rx_name) && s == (System {
                    rx: #[trigger] self.rx.started(blocking, me),
                    ..self
                })
        }
        ||| {
            &&& self.rx.stage == RecvStage::Ready
            &&& exists|max: usize|
                s == (System { rx: #[trigger] self.rx.drain_started(max), ..self })
        }
        ||| self.rx.stage == RecvStage::DrainDeliver && s == self.rx_deliver()
        ||| {
            &&& self.rx.stage == RecvStage::DrainAvail || self.rx.stage == RecvStage::DrainRead
                || self.rx.stage == RecvStage::DrainStore
            &&& s == (System { rx: self.rx.drain_cut(), ..self })
        }
        ||| {
            &&& self.rx.stage == RecvStage::Ready
            &&& s == (System { rx: self.rx.to(RecvStage::Close), ..self })
        }
        ||| {
            &&& self.rx.stage == RecvStage::Got || self.rx.stage == RecvStage::Empty
                || self.rx.stage == RecvStage::Disconnected || self.rx.stage == RecvStage::Drained
            &&& s == self.rx_finish()
        }
    }

    /// Producer `p` makes an access that returns `ev`, and that leads to `s`.
    pub open spec fn tx_steps(self, p: u64, ev: Event, s: System<T>) -> bool {
        &&& self.txs.contains_key(p)
        &&& self.tx_may_see(p, ev)
        &&& self.txs[p].expects(ev)
        &&& s == self.tx_access(p, ev)
    }

    /// The consumer makes an access that returns `ev`, and that leads to `s`.
    pub open spec fn rx_steps(self, ev: Event, s: System<T>) -> bool {
        &&& self.rx.stage != RecvStage::DrainDeliver
        &&& self.rx_may_see(ev)
        &&& self.rx.expects(ev)
        &&& s == self.rx_access(ev)
    }

    /// One of the threads takes a step.
    pub open spec fn step(self, s: System<T>) -> bool {
        ||| exists|p: u64, ev: Event| #[trigger] self.tx_steps(p, ev, s)
        ||| exists|ev: Event| #[trigger] self.rx_steps(ev, s)
        ||| exists|p: u64| #[trigger] self.tx_calls(p, s)
        ||| exists|p: u64, q: u64| #[trigger] self.may_clone(p, q) && s == self.tx_clone(p, q)
        ||| self.rx_calls(s)
    }

    /// A run: from a new ring, one step after the other.
    pub open spec fn run(trace: Seq<System<T>>) -> bool {
        &&& trace.len() > 0
        &&& exists|first: u64| #[trigger] trace[0].initial(first)
        &&& forall|i: int| 0 < i < trace.len() ==> #[trigger] Self::steps_to(trace, i)
    }

    /// A step leads to the `i`-th state from the one before.
    pub open spec fn steps_to(trace: Seq<System<T>>, i: int) -> bool {
        trace[i - 1].step(trace[i])
    }

    /// A run can come to this state.
    pub open spec fn reachable(self) -> bool {
        exists|trace: Seq<System<T>>| #[trigger] Self::run(trace) && trace.last() == self
    }

    /// The handle of producer `p` is counted: it was not dropped, or was not counted out yet.
    pub open spec fn counts(self, p: u64) -> bool {
        &&& self.txs.contains_key(p)
        &&& !(self.txs[p].stage is CloseWake)
        &&& self.txs[p].stage != SendStage::Gone
    }

    /// The producers whose handles are counted.
    pub open spec fn counted(self) -> Set<u64> {
        Set::new(|p: u64| self.counts(p))
    }

    /// The consumer is dropped, and has said so.
    pub open spec fn rx_closed(self) -> bool {
        self.rx.stage is CloseWake || self.rx.stage == RecvStage::Gone
    }

    /// Producer `p` has claimed `seq` and not published it.
    pub open spec fn has_claimed(self, p: u64, seq: int) -> bool {
        &&& self.txs.contains_key(p)
        &&& self.txs[p].stage.claimed()
        &&& self.txs[p].seq == seq
    }

    /// Producer `p` is in the middle of waking the consumer.
    pub open spec fn wakes_consumer(self, p: u64) -> bool {
        &&& self.txs.contains_key(p)
        &&& self.txs[p].stage is Wake || self.txs[p].stage is CloseWake
    }

    /// Producer `p` is about to take the consumer's name and to unpark it.
    pub open spec fn takes_consumer(self, p: u64) -> bool {
        &&& self.txs.contains_key(p)
        &&& self.txs[p].stage == SendStage::Wake(Waking::Take) || self.txs[p].stage
            == SendStage::CloseWake(Waking::Take)
    }

    /// A producer is in the middle of waking the consumer.
    pub open spec fn someone_wakes_consumer(self) -> bool {
        exists|p: u64| self.wakes_consumer(p)
    }

    /// The consumer is in the middle of waking the producers.
    pub open spec fn wakes_producers(self) -> bool {
        self.rx.stage is Wake || self.rx.stage is DrainWake || self.rx.stage is CloseWake
    }

    /// The consumer is about to take the producers' names and to unpark them.
    pub open spec fn takes_producers(self) -> bool {
        self.rx.stage == RecvStage::Wake(Rousing::Take) || self.rx.stage == RecvStage::DrainWake(
            Rousing::Take,
        ) || self.rx.stage == RecvStage::CloseWake(Rousing::Take)
    }

    /// The consumer sleeps, and no unpark has reached it.
    pub open spec fn consumer_asleep(self) -> bool {
        self.rx.asks() == crate::mpsc::RecvAction::Pause(Rung::Park) && !self.tokens.contains(
            self.rx_name,
        )
    }

    /// Producer `p` sleeps, and no unpark has reached it.
    pub open spec fn producer_asleep(self, p: u64) -> bool {
        &&& self.txs.contains_key(p)
        &&& self.txs[p].asks() == crate::mpsc::SendAction::Pause(Rung::Park)
        &&& !self.tokens.contains(p)
    }

    /// How many items the consumer has taken out without having stored that.
    spec fn lag(self) -> int {
        if self.rx.stage == RecvStage::StoreHead {
            1
        } else if self.rx.stage.drains() {
            self.rx.count as int
        } else {
            0
        }
    }

    /// What holds of producer `p` and of the sequence number that it has claimed.
    spec fn tx_inv(self, p: u64) -> bool {
        let tx = self.txs[p];
        &&& tx.wf()
        &&& tx.fits(self.m)
        &&& p != self.rx_name
        &&& tx.stage.claimed() ==> {
            &&& self.rx.head <= tx.seq < self.m.claim
            &&& self.m.mark_at(tx.seq as int) == crate::mpsc::old_mark(
                tx.seq as int,
                self.m.cap as int,
            )
            &&& if tx.stage == SendStage::Write {
                &&& self.m.at(tx.seq as int) is None
                &&& tx.value == Some(self.claimed[tx.seq as int])
            } else {
                self.m.at(tx.seq as int) == Some(self.claimed[tx.seq as int])
            }
        }
        &&& tx.stage == SendStage::Disconnected ==> self.rx_closed()
    }

    /// What holds of a sequence number that was claimed and whose item was not taken out.
    spec fn claimed_inv(self, seq: int) -> bool {
        if self.m.published(seq) {
            self.m.at(seq) == Some(self.claimed[seq])
        } else {
            exists|p: u64| #[trigger] self.has_claimed(p, seq)
        }
    }

    /// What holds of a sequence number that comes next to be claimed.
    spec fn free_inv(self, seq: int) -> bool {
        &&& self.m.at(seq) is None
        &&& seq <= usize::MAX ==> self.m.mark_at(seq) == crate::mpsc::old_mark(
            seq,
            self.m.cap as int,
        )
    }

    /// The indices, the slots, and the items that went through them.
    spec fn ring_inv(self) -> bool {
        &&& self.m.sized()
        &&& self.rx.wf()
        &&& self.rx.fits(self.m)
        &&& self.rx.head == self.m.head + self.lag()
        &&& self.rx.head <= self.m.claim <= self.m.head + self.m.cap
        &&& self.claimed.len() == self.m.claim
        &&& self.received == self.claimed.take(self.rx.head as int)
        &&& forall|p: u64| self.txs.contains_key(p) ==> #[trigger] self.tx_inv(p)
        &&& forall|p: u64, q: u64, seq: int|
            #[trigger] self.has_claimed(p, seq) && #[trigger] self.has_claimed(q, seq) ==> p == q
        &&& forall|seq: int|
            self.rx.head <= seq < self.m.claim ==> #[trigger] self.claimed_inv(seq)
        &&& forall|seq: int|
            self.m.claim <= seq < self.rx.head + self.m.cap ==> #[trigger] self.free_inv(seq)
    }

    /// The handles, and what is known of them.
    spec fn handle_inv(self) -> bool {
        &&& self.counted().finite()
        &&& self.counted().len() == self.m.senders
        &&& self.m.rx_dropped <==> self.rx_closed()
        &&& self.rx.stage == RecvStage::Read || self.rx.stage == RecvStage::DrainRead
            ==> self.rx.head < self.m.claim && self.m.published(self.rx.head as int)
        &&& self.rx.stage == RecvStage::FinalAvail ==> self.m.senders == 0
        &&& self.rx.stage == RecvStage::Disconnected ==> self.m.senders == 0 && self.rx.head
            == self.m.claim
    }

    /// The send of producer `p` that is under way has claimed its sequence number.
    pub open spec fn has_sent(self, p: u64) -> bool {
        &&& self.txs.contains_key(p)
        &&& self.txs[p].stage.claimed() || self.txs[p].stage is Wake || self.txs[p].stage
            == SendStage::Sent
    }

    /// The send of producer `p` that is under way has claimed `seq`.
    pub open spec fn has_place(self, p: u64, seq: int) -> bool {
        self.has_sent(p) && self.txs[p].seq == seq
    }

    /// The `i`-th send that returned `Ok` had claimed `seq`.
    pub open spec fn had_place(self, i: int, seq: int) -> bool {
        0 <= i < self.accepted.len() && self.accepted[i].seq == seq
    }

    /// What holds of the value that producer `p` was given.
    spec fn given_inv(self, p: u64) -> bool {
        let tx = self.txs[p];
        &&& tx.value is Some ==> self.given.contains_key(p) && tx.value == Some(self.given[p])
        &&& self.has_sent(p) ==> {
            &&& tx.seq < self.claimed.len()
            &&& self.claimed[tx.seq as int] == self.given[p]
        }
    }

    /// What holds of the `i`-th send that returned `Ok`.
    spec fn receipt_inv(self, i: int) -> bool {
        let r = self.accepted[i];
        &&& 0 <= r.seq < self.claimed.len()
        &&& self.claimed[r.seq] == r.value
    }

    /// A sequence number belongs to a send that returned `Ok` or is under way.
    pub open spec fn is_placed(self, seq: int) -> bool {
        ||| exists|p: u64| #[trigger] self.has_place(p, seq)
        ||| exists|i: int| #[trigger] self.had_place(i, seq)
    }

    /// The sends and what came of them.
    spec fn sends_inv(self) -> bool {
        &&& forall|p: u64| self.txs.contains_key(p) ==> #[trigger] self.given_inv(p)
        &&& forall|i: int| 0 <= i < self.accepted.len() ==> #[trigger] self.receipt_inv(i)
        &&& forall|p: u64, q: u64, seq: int|
            #[trigger] self.has_place(p, seq) && #[trigger] self.has_place(q, seq) ==> p == q
        &&& forall|i: int, j: int, seq: int|
            #[trigger] self.had_place(i, seq) && #[trigger] self.had_place(j, seq) ==> i == j
        &&& forall|p: u64, i: int, seq: int|
            !(#[trigger] self.has_place(p, seq) && #[trigger] self.had_place(i, seq))
        &&& forall|seq: int| 0 <= seq < self.claimed.len() ==> #[trigger] self.is_placed(seq)
    }

    /// What was taken out and seen, and what came of it.
    spec fn receives_inv(self) -> bool {
        &&& self.received == if self.rx.value is Some {
            self.returned.push(self.rx.value->0)
        } else {
            self.returned
        }
        &&& self.rx_saw_gone ==> self.m.senders == 0
        &&& self.rx.stage == RecvStage::FinalAvail || self.rx.stage == RecvStage::Disconnected
            ==> self.rx_saw_gone
        &&& self.rx.stage.drains() || self.rx.stage is DrainWake || self.rx.stage
            == RecvStage::Drained ==> self.rx.count <= self.m.cap
        &&& forall|p: u64| #[trigger] self.tx_saw_gone.contains(p) ==> self.rx_closed()
    }

    spec fn inv(self) -> bool {
        self.ring_inv() && self.handle_inv()
    }

    /// What holds of a consumer that is going to sleep.
    spec fn consumer_inv(self) -> bool {
        let awaited = !self.tokens.contains(self.rx_name);
        let stage = self.rx.stage;
        let registered = stage == RecvStage::Announce || stage == RecvStage::RecheckAvail || stage
            == RecvStage::RecheckSenders || stage == RecvStage::Park;
        let announced = registered && stage != RecvStage::Announce;
        let rechecked = announced && stage != RecvStage::RecheckAvail;
        let looks = stage == RecvStage::Avail || stage == RecvStage::Senders || stage
            == RecvStage::Pause || stage.parks();
        &&& looks && self.rx.blocking ==> self.rx.me == self.rx_name
        &&& registered && awaited ==> self.m.consumer.slot == Some(self.rx_name)
        &&& announced && awaited ==> self.m.consumer.parked || exists|p: u64|
            self.takes_consumer(p)
        &&& rechecked && awaited && self.m.published(self.rx.head as int)
            ==> self.someone_wakes_consumer()
        &&& stage == RecvStage::Park && awaited && self.m.senders == 0
            ==> self.someone_wakes_consumer()
    }

    /// What holds of producer `p` when it is going to sleep.
    spec fn producer_inv(self, p: u64) -> bool {
        let awaited = !self.tokens.contains(p);
        let stage = self.txs[p].stage;
        let registered = stage.parks() && stage != SendStage::Register;
        let announced = registered && stage != SendStage::Announce;
        let rechecked = stage == SendStage::RecheckFlag || stage == SendStage::Park;
        let looks = stage == SendStage::Flag || stage == SendStage::Claim || stage
            == SendStage::Head || stage == SendStage::Swap || stage == SendStage::Backoff || stage
            == SendStage::Pause || stage.parks();
        &&& looks && self.txs[p].blocking ==> self.txs[p].me == p
        &&& registered && awaited ==> self.m.waiters.contains(p)
        &&& announced && awaited ==> self.m.waiting || self.takes_producers()
        &&& stage == SendStage::Head || stage == SendStage::Swap || stage == SendStage::Backoff
            || stage == SendStage::RecheckHead ==> self.txs[p].seq <= self.m.claim
        &&& rechecked && awaited && !self.m.full() ==> self.wakes_producers() || self.unwoken
        &&& stage == SendStage::Park && awaited && self.m.rx_dropped ==> self.wakes_producers()
    }

    /// All of it.
    spec fn all_inv(self) -> bool {
        &&& self.inv()
        &&& self.sends_inv()
        &&& self.receives_inv()
        &&& self.wakes_producers() ==> !self.unwoken
        &&& self.consumer_inv()
        &&& forall|p: u64| self.txs.contains_key(p) ==> #[trigger] self.producer_inv(p)
    }
}

/// Writing to the slot of one sequence number leaves the slots of the others in its window.
proof fn lemma_elsewhere<T>(m: Memory<T>, lo: int, a: int, b: int)
    requires
        m.sized(),
        0 <= lo <= a < lo + m.cap,
        lo <= b < lo + m.cap,
        a != b,
    ensures
        forall|x: Option<T>| (#[trigger] m.put(a, x)).at(b) == m.at(b),
        forall|x: Option<T>| (#[trigger] m.put(a, x)).mark_at(b) == m.mark_at(b),
        m.publish(a).at(b) == m.at(b),
        m.publish(a).mark_at(b) == m.mark_at(b),
{
    let cap = m.cap as int;
    crate::index::lemma_cap_positive(cap);
    crate::index::lemma_slot_bound(a, cap);
    crate::index::lemma_slot_bound(b, cap);
    if a < b {
        crate::index::lemma_slots_differ(a, b, cap);
    } else {
        crate::index::lemma_slots_differ(b, a, cap);
    }
}

/// Writing to a slot is writing to it, and publishing it is publishing it.
proof fn lemma_here<T>(m: Memory<T>, a: int)
    requires
        m.sized(),
        0 <= a,
    ensures
        forall|x: Option<T>| (#[trigger] m.put(a, x)).at(a) == x,
        forall|x: Option<T>| (#[trigger] m.put(a, x)).mark_at(a) == m.mark_at(a),
        m.publish(a).at(a) == m.at(a),
        m.publish(a).published(a),
{
    crate::index::lemma_cap_positive(m.cap as int);
    crate::index::lemma_slot_bound(a, m.cap as int);
}

proof fn lemma_initial<T>(s: System<T>, first: u64)
    requires
        s.initial(first),
    ensures
        s.all_inv(),
{
    crate::index::lemma_cap_positive(s.m.cap as int);
    crate::mpsc::lemma_empty::<T>(s.m.cap, s.m.strategy);
    assert(s.counted() =~= Set::<u64>::empty().insert(first));
    assert(s.received =~= s.claimed.take(0));
    assert forall|seq: int| 0 <= seq < s.m.cap implies #[trigger] s.free_inv(seq) by {
        assert(s.m.at(seq) is None);
        if seq <= usize::MAX {
            assert(s.m.mark_at(seq) == crate::mpsc::old_mark(seq, s.m.cap as int));
        }
    }
}

/// A producer claims a sequence number.
proof fn lemma_claims<T>(s: System<T>, p: u64)
    requires
        s.ring_inv(),
        s.txs.contains_key(p),
        s.txs[p].stage == SendStage::Swap,
        s.m.claim == s.txs[p].seq,
    ensures
        s.tx_access(p, Event::Claimed).ring_inv(),
{
    let t = s.tx_access(p, Event::Claimed);
    let cap = s.m.cap as int;
    let c = s.m.claim as int;
    crate::index::lemma_cap_positive(cap);
    assert(s.tx_inv(p));
    assert(c < crate::mpsc::limit(s.txs[p].cached_head, s.m.cap));
    assert(forall|seq: int| #[trigger] t.m.at(seq) == s.m.at(seq));
    assert(forall|seq: int| #[trigger] t.m.mark_at(seq) == s.m.mark_at(seq));
    assert(t.received =~= t.claimed.take(t.rx.head as int));
    assert(s.free_inv(c));
    crate::mpsc::lemma_old_mark_differs(c, cap);
    assert forall|q: u64| t.txs.contains_key(q) implies #[trigger] t.tx_inv(q) by {
        if q != p {
            assert(s.tx_inv(q));
        }
    }
    assert forall|q: u64, r: u64, seq: int| #[trigger]
        t.has_claimed(q, seq) && #[trigger] t.has_claimed(r, seq) implies q == r by {
        if q != p {
            assert(s.has_claimed(q, seq));
            assert(s.tx_inv(q));
        }
        if r != p {
            assert(s.has_claimed(r, seq));
            assert(s.tx_inv(r));
        }
    }
    assert forall|seq: int| t.rx.head <= seq < t.m.claim implies #[trigger] t.claimed_inv(seq) by {
        if seq == c {
            assert(t.has_claimed(p, seq));
        } else {
            assert(s.claimed_inv(seq));
            if !s.m.published(seq) {
                let q = choose|q: u64| #[trigger] s.has_claimed(q, seq);
                assert(t.has_claimed(q, seq));
            }
        }
    }
    assert forall|seq: int| t.m.claim <= seq < t.rx.head + t.m.cap implies #[trigger] t.free_inv(
        seq,
    ) by {
        assert(s.free_inv(seq));
    }
}

/// A producer writes the slot that it has claimed.
proof fn lemma_writes<T>(s: System<T>, p: u64)
    requires
        s.ring_inv(),
        s.txs.contains_key(p),
        s.txs[p].stage == SendStage::Write,
    ensures
        s.tx_access(p, Event::Done).ring_inv(),
{
    let t = s.tx_access(p, Event::Done);
    let a = s.txs[p].seq as int;
    let lo = s.rx.head as int;
    assert(s.tx_inv(p));
    assert(s.has_claimed(p, a));
    lemma_here(s.m, a);
    assert forall|seq: int| lo <= seq < lo + s.m.cap && seq != a implies #[trigger] t.m.at(seq)
        == s.m.at(seq) by {
        lemma_elsewhere(s.m, lo, a, seq);
    }
    assert(forall|seq: int| #[trigger] t.m.mark_at(seq) == s.m.mark_at(seq));
    assert forall|q: u64| t.txs.contains_key(q) implies #[trigger] t.tx_inv(q) by {
        if q != p {
            assert(s.tx_inv(q));
            if s.txs[q].stage.claimed() {
                assert(s.has_claimed(q, s.txs[q].seq as int));
            }
        }
    }
    assert forall|q: u64, r: u64, seq: int| #[trigger]
        t.has_claimed(q, seq) && #[trigger] t.has_claimed(r, seq) implies q == r by {
        assert(s.has_claimed(q, seq) && s.has_claimed(r, seq));
    }
    assert forall|seq: int| t.rx.head <= seq < t.m.claim implies #[trigger] t.claimed_inv(seq) by {
        assert(s.claimed_inv(seq));
        if seq == a {
            crate::index::lemma_cap_positive(s.m.cap as int);
            crate::mpsc::lemma_old_mark_differs(a, s.m.cap as int);
            assert(t.has_claimed(p, seq));
        } else if !s.m.published(seq) {
            let q = choose|q: u64| #[trigger] s.has_claimed(q, seq);
            assert(t.has_claimed(q, seq));
        }
    }
    assert forall|seq: int| t.m.claim <= seq < t.rx.head + t.m.cap implies #[trigger] t.free_inv(
        seq,
    ) by {
        assert(s.free_inv(seq));
    }
}

/// A producer publishes the slot that it has written.
proof fn lemma_publishes<T>(s: System<T>, p: u64)
    requires
        s.ring_inv(),
        s.txs.contains_key(p),
        s.txs[p].stage == SendStage::Publish,
    ensures
        s.tx_access(p, Event::Done).ring_inv(),
{
    let t = s.tx_access(p, Event::Done);
    let a = s.txs[p].seq as int;
    let lo = s.rx.head as int;
    assert(s.tx_inv(p));
    assert(s.has_claimed(p, a));
    lemma_here(s.m, a);
    assert forall|seq: int| lo <= seq < lo + s.m.cap && seq != a implies #[trigger] t.m.mark_at(seq)
        == s.m.mark_at(seq) by {
        lemma_elsewhere(s.m, lo, a, seq);
    }
    assert(forall|seq: int| #[trigger] t.m.at(seq) == s.m.at(seq));
    assert forall|q: u64| t.txs.contains_key(q) implies #[trigger] t.tx_inv(q) by {
        if q != p {
            assert(s.tx_inv(q));
            if s.txs[q].stage.claimed() {
                assert(s.has_claimed(q, s.txs[q].seq as int));
            }
        }
    }
    assert forall|q: u64, r: u64, seq: int| #[trigger]
        t.has_claimed(q, seq) && #[trigger] t.has_claimed(r, seq) implies q == r by {
        assert(s.has_claimed(q, seq) && s.has_claimed(r, seq));
    }
    assert forall|seq: int| t.rx.head <= seq < t.m.claim implies #[trigger] t.claimed_inv(seq) by {
        assert(s.claimed_inv(seq));
        if seq != a {
            assert(t.m.mark_at(seq) == s.m.mark_at(seq));
            if !s.m.published(seq) {
                let q = choose|q: u64| #[trigger] s.has_claimed(q, seq);
                assert(t.has_claimed(q, seq));
            }
        }
    }
    assert forall|seq: int| t.m.claim <= seq < t.rx.head + t.m.cap implies #[trigger] t.free_inv(
        seq,
    ) by {
        assert(s.free_inv(seq));
    }
}

/// A producer, which has claimed nothing, does something else.
proof fn lemma_tx_same_ring<T>(s: System<T>, t: System<T>, p: u64)
    requires
        s.ring_inv(),
        s.txs.contains_key(p) ==> !s.txs[p].stage.claimed(),
        t.m.slots == s.m.slots,
        t.m.avail == s.m.avail,
        t.m.cap == s.m.cap,
        t.m.claim == s.m.claim,
        t.m.head == s.m.head,
        t.m.strategy == s.m.strategy,
        t.txs == s.txs.insert(p, t.txs[p]),
        t.txs[p].wf(),
        t.txs[p].fits(s.m),
        !t.txs[p].stage.claimed(),
        p != s.rx_name,
        t.txs[p].stage == SendStage::Disconnected ==> s.rx_closed(),
        t.rx == s.rx,
        t.rx_name == s.rx_name,
        t.claimed == s.claimed,
        t.received == s.received,
    ensures
        t.ring_inv(),
{
    assert(forall|seq: int| #[trigger] t.m.at(seq) == s.m.at(seq));
    assert(forall|seq: int| #[trigger] t.m.mark_at(seq) == s.m.mark_at(seq));
    assert forall|q: u64| t.txs.contains_key(q) implies #[trigger] t.tx_inv(q) by {
        if q != p {
            assert(s.tx_inv(q));
        }
    }
    assert forall|q: u64, seq: int| #[trigger] t.has_claimed(q, seq) == s.has_claimed(q, seq) by {}
    assert forall|q: u64, r: u64, seq: int| #[trigger]
        t.has_claimed(q, seq) && #[trigger] t.has_claimed(r, seq) implies q == r by {
        assert(s.has_claimed(q, seq) && s.has_claimed(r, seq));
    }
    assert forall|seq: int| t.rx.head <= seq < t.m.claim implies #[trigger] t.claimed_inv(seq) by {
        assert(s.claimed_inv(seq));
        if !s.m.published(seq) {
            let q = choose|q: u64| #[trigger] s.has_claimed(q, seq);
            assert(t.has_claimed(q, seq));
        }
    }
    assert forall|seq: int| t.m.claim <= seq < t.rx.head + t.m.cap implies #[trigger] t.free_inv(
        seq,
    ) by {
        assert(s.free_inv(seq));
    }
}

proof fn lemma_tx_access<T>(s: System<T>, p: u64, ev: Event)
    requires
        s.inv(),
        s.txs.contains_key(p),
        s.tx_may_see(p, ev),
        s.txs[p].expects(ev),
    ensures
        s.tx_access(p, ev).ring_inv(),
{
    let t = s.tx_access(p, ev);
    let tx = s.txs[p];
    assert(s.tx_inv(p));
    if tx.stage == SendStage::Swap && ev == Event::Claimed {
        lemma_claims(s, p);
    } else if tx.stage == SendStage::Write {
        lemma_writes(s, p);
    } else if tx.stage == SendStage::Publish {
        lemma_publishes(s, p);
    } else {
        lemma_tx_same_ring(s, t, p);
    }
}

/// The consumer takes an item out.
proof fn lemma_reads<T>(s: System<T>, ev: Event)
    requires
        s.inv(),
        s.rx.stage == RecvStage::Read || s.rx.stage == RecvStage::DrainRead,
    ensures
        s.rx_access(ev).ring_inv(),
{
    let t = s.rx_access(ev);
    let a = s.rx.head as int;
    let cap = s.m.cap as int;
    crate::index::lemma_cap_positive(cap);
    assert(s.claimed_inv(a));
    assert(s.m.at(a) == Some(s.claimed[a]));
    assert(t.received =~= t.claimed.take(t.rx.head as int));
    lemma_here(s.m, a);
    assert forall|seq: int| a < seq < a + cap implies #[trigger] t.m.at(seq) == s.m.at(seq) by {
        lemma_elsewhere(s.m, a, a, seq);
    }
    assert(forall|seq: int| #[trigger] t.m.mark_at(seq) == s.m.mark_at(seq));
    crate::mpsc::lemma_next_round(a, cap);
    assert(t.m.at(a + cap) == t.m.at(a));
    assert(t.m.mark_at(a + cap) == t.m.mark_at(a));
    assert forall|q: u64| t.txs.contains_key(q) implies #[trigger] t.tx_inv(q) by {
        assert(s.tx_inv(q));
        if s.txs[q].stage.claimed() {
            crate::mpsc::lemma_old_mark_differs(s.txs[q].seq as int, cap);
        }
    }
    assert forall|q: u64, r: u64, seq: int| #[trigger]
        t.has_claimed(q, seq) && #[trigger] t.has_claimed(r, seq) implies q == r by {
        assert(s.has_claimed(q, seq) && s.has_claimed(r, seq));
    }
    assert forall|seq: int| t.rx.head <= seq < t.m.claim implies #[trigger] t.claimed_inv(seq) by {
        assert(s.claimed_inv(seq));
        if !s.m.published(seq) {
            let q = choose|q: u64| #[trigger] s.has_claimed(q, seq);
            assert(t.has_claimed(q, seq));
        }
    }
    assert forall|seq: int| t.m.claim <= seq < t.rx.head + t.m.cap implies #[trigger] t.free_inv(
        seq,
    ) by {
        if seq < a + cap {
            assert(s.free_inv(seq));
        }
    }
}

/// The consumer does something else.
proof fn lemma_rx_same_ring<T>(s: System<T>, t: System<T>)
    requires
        s.ring_inv(),
        t.m.slots == s.m.slots,
        t.m.avail == s.m.avail,
        t.m.cap == s.m.cap,
        t.m.claim == s.m.claim,
        s.m.head <= t.m.head,
        t.m.strategy == s.m.strategy,
        t.txs == s.txs,
        t.rx.wf(),
        t.rx.cap == s.rx.cap,
        t.rx.strategy == s.rx.strategy,
        t.rx.head == s.rx.head,
        t.rx.head == t.m.head + t.lag(),
        s.rx_closed() ==> t.rx_closed(),
        t.rx_name == s.rx_name,
        t.claimed == s.claimed,
        t.received == s.received,
    ensures
        t.ring_inv(),
{
    assert(forall|seq: int| #[trigger] t.m.at(seq) == s.m.at(seq));
    assert(forall|seq: int| #[trigger] t.m.mark_at(seq) == s.m.mark_at(seq));
    assert forall|q: u64| t.txs.contains_key(q) implies #[trigger] t.tx_inv(q) by {
        assert(s.tx_inv(q));
    }
    assert forall|q: u64, r: u64, seq: int| #[trigger]
        t.has_claimed(q, seq) && #[trigger] t.has_claimed(r, seq) implies q == r by {
        assert(s.has_claimed(q, seq) && s.has_claimed(r, seq));
    }
    assert forall|seq: int| t.rx.head <= seq < t.m.claim implies #[trigger] t.claimed_inv(seq) by {
        assert(s.claimed_inv(seq));
        if !s.m.published(seq) {
            let q = choose|q: u64| #[trigger] s.has_claimed(q, seq);
            assert(t.has_claimed(q, seq));
        }
    }
    assert forall|seq: int| t.m.claim <= seq < t.rx.head + t.m.cap implies #[trigger] t.free_inv(
        seq,
    ) by {
        assert(s.free_inv(seq));
    }
}

/// The next item is published, or nobody has claimed it, or a counted producer has.
proof fn lemma_next_item<T>(s: System<T>)
    requires
        s.inv(),
    ensures
        s.m.published(s.rx.head as int) ==> s.rx.head < s.m.claim,
        s.rx.head < s.m.claim && !s.m.published(s.rx.head as int) ==> s.m.senders > 0,
{
    let a = s.rx.head as int;
    crate::index::lemma_cap_positive(s.m.cap as int);
    if a < s.m.claim {
        assert(s.claimed_inv(a));
        if !s.m.published(a) {
            let q = choose|q: u64| #[trigger] s.has_claimed(q, a);
            assert(s.counted().contains(q));
        }
    } else {
        assert(s.free_inv(a));
        crate::mpsc::lemma_old_mark_differs(a, s.m.cap as int);
    }
}

proof fn lemma_rx_access<T>(s: System<T>, ev: Event)
    requires
        s.inv(),
        s.rx.stage != RecvStage::DrainDeliver,
        s.rx_may_see(ev),
        s.rx.expects(ev),
    ensures
        s.rx_access(ev).inv(),
{
    let t = s.rx_access(ev);
    if s.rx.stage == RecvStage::Read || s.rx.stage == RecvStage::DrainRead {
        lemma_reads(s, ev);
    } else {
        lemma_rx_same_ring(s, t);
    }
    lemma_next_item(s);
    assert(t.counted() =~= s.counted());
    assert(forall|seq: int| #[trigger] t.m.mark_at(seq) == s.m.mark_at(seq));
}

proof fn lemma_tx_handles<T>(s: System<T>, p: u64, ev: Event)
    requires
        s.inv(),
        s.txs.contains_key(p),
        s.tx_may_see(p, ev),
        s.txs[p].expects(ev),
    ensures
        s.tx_access(p, ev).handle_inv(),
{
    let t = s.tx_access(p, ev);
    let tx = s.txs[p];
    assert(s.tx_inv(p));
    if tx.stage == SendStage::Close {
        assert(t.counted() =~= s.counted().remove(p));
        assert(s.counted().contains(p));
    } else {
        assert(t.counted() =~= s.counted());
        if s.counts(p) {
            assert(s.counted().contains(p));
        }
    }
    if s.rx.stage == RecvStage::Read || s.rx.stage == RecvStage::DrainRead {
        let a = s.rx.head as int;
        if tx.stage == SendStage::Publish {
            lemma_here(s.m, tx.seq as int);
            if tx.seq != a {
                lemma_elsewhere(s.m, a, tx.seq as int, a);
            }
        } else {
            assert(t.m.mark_at(a) == s.m.mark_at(a));
        }
    }
}

proof fn lemma_tx_calls<T>(s: System<T>, p: u64, t: System<T>)
    requires
        s.inv(),
        s.tx_calls(p, t),
    ensures
        t.inv(),
{
    assert(s.tx_inv(p));
    assert(t.txs =~= s.txs.insert(p, t.txs[p]));
    lemma_tx_same_ring(s, t, p);
    assert(t.counted() =~= s.counted());
}

proof fn lemma_tx_clone<T>(s: System<T>, p: u64, q: u64)
    requires
        s.inv(),
        s.may_clone(p, q),
    ensures
        s.tx_clone(p, q).inv(),
{
    let t = s.tx_clone(p, q);
    assert(s.tx_inv(p));
    lemma_tx_same_ring(s, t, q);
    assert(t.counted() =~= s.counted().insert(q));
    assert(s.counted().contains(p));
    assert(forall|seq: int| #[trigger] t.m.mark_at(seq) == s.m.mark_at(seq));
}

proof fn lemma_rx_calls<T>(s: System<T>, t: System<T>)
    requires
        s.inv(),
        s.rx_calls(t),
    ensures
        t.inv(),
{
    lemma_rx_same_ring(s, t);
    assert(t.counted() =~= s.counted());
}

/// A send claims its sequence number.
proof fn lemma_sends_claimed<T>(s: System<T>, p: u64)
    requires
        s.all_inv(),
        s.txs.contains_key(p),
        s.txs[p].stage == SendStage::Swap,
        s.m.claim == s.txs[p].seq,
    ensures
        s.tx_access(p, Event::Claimed).sends_inv(),
{
    let t = s.tx_access(p, Event::Claimed);
    let c = s.m.claim as int;
    assert(s.tx_inv(p));
    assert(s.given_inv(p));
    assert forall|q: u64, seq: int| #[trigger] t.has_place(q, seq) implies (q == p && seq == c) || (q
        != p && s.has_place(q, seq) && seq < c) by {
        if q != p {
            assert(s.given_inv(q));
        }
    }
    assert forall|i: int, seq: int| #[trigger] t.had_place(i, seq) implies s.had_place(i, seq)
        && seq < c by {
        assert(s.receipt_inv(i));
    }
    assert forall|q: u64| t.txs.contains_key(q) implies #[trigger] t.given_inv(q) by {
        assert(s.given_inv(q));
    }
    assert forall|i: int| 0 <= i < t.accepted.len() implies #[trigger] t.receipt_inv(i) by {
        assert(s.receipt_inv(i));
    }
    assert forall|q: u64, r: u64, seq: int| #[trigger]
        t.has_place(q, seq) && #[trigger] t.has_place(r, seq) implies q == r by {
        if q != p && r != p {
            assert(s.has_place(q, seq) && s.has_place(r, seq));
        }
    }
    assert forall|i: int, j: int, seq: int| #[trigger]
        t.had_place(i, seq) && #[trigger] t.had_place(j, seq) implies i == j by {
        assert(s.had_place(i, seq) && s.had_place(j, seq));
    }
    assert forall|q: u64, i: int, seq: int| !(#[trigger] t.has_place(q, seq)
        && #[trigger] t.had_place(i, seq)) by {
        if t.has_place(q, seq) && t.had_place(i, seq) && q != p {
            assert(s.has_place(q, seq) && s.had_place(i, seq));
        }
    }
    assert forall|seq: int| 0 <= seq < t.claimed.len() implies #[trigger] t.is_placed(seq) by {
        if seq == c {
            assert(t.has_place(p, seq));
        } else {
            assert(s.is_placed(seq));
            if exists|q: u64| #[trigger] s.has_place(q, seq) {
                let q = choose|q: u64| #[trigger] s.has_place(q, seq);
                assert(t.has_place(q, seq));
            } else {
                let i = choose|i: int| #[trigger] s.had_place(i, seq);
                assert(t.had_place(i, seq));
            }
        }
    }
}

/// The sends stay where they are.
proof fn lemma_sends_same<T>(s: System<T>, t: System<T>)
    requires
        s.sends_inv(),
        t.claimed == s.claimed,
        t.accepted == s.accepted,
        forall|q: u64, seq: int| #[trigger] t.has_place(q, seq) == s.has_place(q, seq),
        forall|q: u64| t.txs.contains_key(q) ==> #[trigger] t.given_inv(q),
    ensures
        t.sends_inv(),
{
    assert forall|i: int, seq: int| #[trigger] t.had_place(i, seq) == s.had_place(i, seq) by {}
    assert forall|i: int| 0 <= i < t.accepted.len() implies #[trigger] t.receipt_inv(i) by {
        assert(s.receipt_inv(i));
    }
    assert forall|q: u64, r: u64, seq: int| #[trigger]
        t.has_place(q, seq) && #[trigger] t.has_place(r, seq) implies q == r by {
        assert(s.has_place(q, seq) && s.has_place(r, seq));
    }
    assert forall|i: int, j: int, seq: int| #[trigger]
        t.had_place(i, seq) && #[trigger] t.had_place(j, seq) implies i == j by {
        assert(s.had_place(i, seq) && s.had_place(j, seq));
    }
    assert forall|q: u64, i: int, seq: int| !(#[trigger] t.has_place(q, seq)
        && #[trigger] t.had_place(i, seq)) by {
        if t.has_place(q, seq) && t.had_place(i, seq) {
            assert(s.has_place(q, seq) && s.had_place(i, seq));
        }
    }
    assert forall|seq: int| 0 <= seq < t.claimed.len() implies #[trigger] t.is_placed(seq) by {
        assert(s.is_placed(seq));
        if exists|q: u64| #[trigger] s.has_place(q, seq) {
            let q = choose|q: u64| #[trigger] s.has_place(q, seq);
            assert(t.has_place(q, seq));
        } else {
            let i = choose|i: int| #[trigger] s.had_place(i, seq);
            assert(t.had_place(i, seq));
        }
    }
}

/// A send returns `Ok`.
proof fn lemma_sends_accepted<T>(s: System<T>, p: u64)
    requires
        s.sends_inv(),
        s.txs.contains_key(p),
        s.txs[p].stage == SendStage::Sent,
    ensures
        s.tx_finish(p).sends_inv(),
{
    let t = s.tx_finish(p);
    let n = s.accepted.len() as int;
    let c = s.txs[p].seq as int;
    assert(s.given_inv(p));
    assert(s.has_place(p, c));
    assert forall|q: u64, seq: int| #[trigger] t.has_place(q, seq) implies q != p && s.has_place(
        q,
        seq,
    ) by {}
    assert forall|i: int, seq: int| #[trigger] t.had_place(i, seq) implies (i == n && seq == c) || (
    i < n && s.had_place(i, seq)) by {}
    assert forall|q: u64| t.txs.contains_key(q) implies #[trigger] t.given_inv(q) by {
        assert(s.given_inv(q));
    }
    assert forall|i: int| 0 <= i < t.accepted.len() implies #[trigger] t.receipt_inv(i) by {
        if i < n {
            assert(s.receipt_inv(i));
        }
    }
    assert forall|q: u64, r: u64, seq: int| #[trigger]
        t.has_place(q, seq) && #[trigger] t.has_place(r, seq) implies q == r by {
        assert(s.has_place(q, seq) && s.has_place(r, seq));
    }
    assert forall|i: int, j: int, seq: int| #[trigger]
        t.had_place(i, seq) && #[trigger] t.had_place(j, seq) implies i == j by {
        if i < n && j < n {
            assert(s.had_place(i, seq) && s.had_place(j, seq));
        } else if i < n {
            assert(s.had_place(i, seq) && s.has_place(p, seq));
        } else if j < n {
            assert(s.had_place(j, seq) && s.has_place(p, seq));
        }
    }
    assert forall|q: u64, i: int, seq: int| !(#[trigger] t.has_place(q, seq)
        && #[trigger] t.had_place(i, seq)) by {
        if t.has_place(q, seq) && t.had_place(i, seq) {
            if i < n {
                assert(s.has_place(q, seq) && s.had_place(i, seq));
            } else {
                assert(s.has_place(q, seq) && s.has_place(p, seq));
            }
        }
    }
    assert forall|seq: int| 0 <= seq < t.claimed.len() implies #[trigger] t.is_placed(seq) by {
        assert(s.is_placed(seq));
        if seq == c {
            assert(t.had_place(n, seq));
        } else if exists|q: u64| #[trigger] s.has_place(q, seq) {
            let q = choose|q: u64| #[trigger] s.has_place(q, seq);
            assert(t.has_place(q, seq));
        } else {
            let i = choose|i: int| #[trigger] s.had_place(i, seq);
            assert(t.had_place(i, seq));
        }
    }
}

proof fn lemma_tx_access_sends<T>(s: System<T>, p: u64, ev: Event)
    requires
        s.all_inv(),
        s.txs.contains_key(p),
        s.tx_may_see(p, ev),
        s.txs[p].expects(ev),
    ensures
        s.tx_access(p, ev).sends_inv(),
        s.tx_access(p, ev).receives_inv(),
{
    let t = s.tx_access(p, ev);
    let tx = s.txs[p];
    assert(s.tx_inv(p));
    assert(s.given_inv(p));
    if tx.stage == SendStage::Swap && ev == Event::Claimed {
        lemma_sends_claimed(s, p);
    } else {
        assert forall|q: u64| t.txs.contains_key(q) implies #[trigger] t.given_inv(q) by {
            assert(s.given_inv(q));
        }
        lemma_sends_same(s, t);
    }
    if tx.stage == SendStage::Close {
        assert(s.counted().contains(p));
    }
}

proof fn lemma_tx_calls_sends<T>(s: System<T>, p: u64, t: System<T>)
    requires
        s.all_inv(),
        s.tx_calls(p, t),
    ensures
        t.sends_inv(),
        t.receives_inv(),
{
    assert(s.tx_inv(p));
    assert(s.given_inv(p));
    if s.txs[p].stage == SendStage::Sent {
        lemma_sends_accepted(s, p);
    } else {
        assert forall|q: u64| t.txs.contains_key(q) implies #[trigger] t.given_inv(q) by {
            assert(s.given_inv(q));
        }
        lemma_sends_same(s, t);
    }
}

proof fn lemma_rx_access_receives<T>(s: System<T>, ev: Event)
    requires
        s.all_inv(),
        s.rx.stage != RecvStage::DrainDeliver,
        s.rx_may_see(ev),
        s.rx.expects(ev),
    ensures
        s.rx_access(ev).sends_inv(),
        s.rx_access(ev).receives_inv(),
        s.rx_access(ev).wakes_producers() ==> !s.rx_access(ev).unwoken,
{
    let t = s.rx_access(ev);
    assert forall|q: u64| t.txs.contains_key(q) implies #[trigger] t.given_inv(q) by {
        assert(s.given_inv(q));
    }
    lemma_sends_same(s, t);
    if s.rx.stage == RecvStage::Read || s.rx.stage == RecvStage::DrainRead {
        assert(s.claimed_inv(s.rx.head as int));
    }
}

proof fn lemma_rx_calls_receives<T>(s: System<T>, t: System<T>)
    requires
        s.all_inv(),
        s.rx_calls(t),
    ensures
        t.sends_inv(),
        t.receives_inv(),
        t.wakes_producers() ==> !t.unwoken,
{
    assert forall|q: u64| t.txs.contains_key(q) implies #[trigger] t.given_inv(q) by {
        assert(s.given_inv(q));
    }
    lemma_sends_same(s, t);
}

proof fn lemma_tx_clone_sends<T>(s: System<T>, p: u64, q: u64)
    requires
        s.all_inv(),
        s.may_clone(p, q),
    ensures
        s.tx_clone(p, q).sends_inv(),
        s.tx_clone(p, q).receives_inv(),
{
    let t = s.tx_clone(p, q);
    assert(s.counted().contains(p));
    assert forall|r: u64| t.txs.contains_key(r) implies #[trigger] t.given_inv(r) by {
        if r != q {
            assert(s.given_inv(r));
        }
    }
    lemma_sends_same(s, t);
}

proof fn lemma_tx_access_consumer<T>(s: System<T>, p: u64, ev: Event)
    requires
        s.all_inv(),
        s.txs.contains_key(p),
        s.tx_may_see(p, ev),
        s.txs[p].expects(ev),
    ensures
        s.tx_access(p, ev).consumer_inv(),
{
    let t = s.tx_access(p, ev);
    let tx = s.txs[p];
    let a = s.rx.head as int;
    assert(s.tx_inv(p));
    assert(t.wakes_consumer(p) == (t.txs[p].stage is Wake || t.txs[p].stage is CloseWake));
    assert(forall|q: u64| q != p ==> (#[trigger] t.wakes_consumer(q) == s.wakes_consumer(q)));
    assert(forall|q: u64| q != p ==> (#[trigger] t.takes_consumer(q) == s.takes_consumer(q)));
    assert(forall|q: u64| #[trigger] s.takes_consumer(q) ==> s.wakes_consumer(q));
    if tx.stage == SendStage::Wake(Waking::Take) || tx.stage == SendStage::CloseWake(
        Waking::Take,
    ) {
        if s.m.consumer.slot is Some {
            let name = s.m.consumer.slot->0;
            assert(t.m.unparked.skip(s.m.unparked.len() as int)[0] == name);
            assert(t.tokens.contains(name));
        }
    } else {
        if tx.stage != SendStage::Publish {
            assert(t.m.mark_at(a) == s.m.mark_at(a));
        }
        if s.someone_wakes_consumer() {
            let q = choose|q: u64| s.wakes_consumer(q);
            assert(q != p ==> t.wakes_consumer(q));
        }
        if exists|q: u64| s.takes_consumer(q) {
            let q = choose|q: u64| s.takes_consumer(q);
            assert(t.takes_consumer(q));
            assert(t.wakes_consumer(q));
        }
        if t.txs[p].stage is Wake || t.txs[p].stage is CloseWake {
            assert(t.wakes_consumer(p));
            assert(t.someone_wakes_consumer());
        }
        if tx.stage == SendStage::Wake(Waking::Clear) || tx.stage == SendStage::CloseWake(
            Waking::Clear,
        ) {
            assert(t.takes_consumer(p));
        }
    }
}

proof fn lemma_tx_access_producers<T>(s: System<T>, p: u64, ev: Event)
    requires
        s.all_inv(),
        s.txs.contains_key(p),
        s.tx_may_see(p, ev),
        s.txs[p].expects(ev),
    ensures
        forall|q: u64|
            s.tx_access(p, ev).txs.contains_key(q) ==> #[trigger] s.tx_access(p, ev).producer_inv(
                q,
            ),
{
    let t = s.tx_access(p, ev);
    let tx = s.txs[p];
    assert(s.tx_inv(p));
    assert(s.producer_inv(p));
    assert(s.m.full() ==> t.m.full()) by {
        assert(t.m.head == s.m.head && t.m.cap == s.m.cap && t.m.claim >= s.m.claim);
    }
    assert forall|q: u64| t.txs.contains_key(q) implies #[trigger] t.producer_inv(q) by {
        assert(s.producer_inv(q));
        if tx.stage == SendStage::Register {
            assert(t.m.waiters == s.m.waiters.push(tx.me));
            assert(t.m.waiters.last() == tx.me);
            if s.m.waiters.contains(q) {
                let i = choose|i: int| 0 <= i < s.m.waiters.len() && s.m.waiters[i] == q;
                assert(t.m.waiters[i] == q);
            }
        } else {
            assert(t.m.waiters == s.m.waiters);
        }
    }
}

proof fn lemma_rx_access_consumer<T>(s: System<T>, ev: Event)
    requires
        s.all_inv(),
        s.rx.stage != RecvStage::DrainDeliver,
        s.rx_may_see(ev),
        s.rx.expects(ev),
    ensures
        s.rx_access(ev).consumer_inv(),
{
    let t = s.rx_access(ev);
    assert(forall|q: u64| #[trigger] t.wakes_consumer(q) == s.wakes_consumer(q));
    assert(forall|q: u64| #[trigger] t.takes_consumer(q) == s.takes_consumer(q));
    assert(t.m.mark_at(s.rx.head as int) == s.m.mark_at(s.rx.head as int));
    if s.someone_wakes_consumer() {
        let q = choose|q: u64| s.wakes_consumer(q);
        assert(t.wakes_consumer(q));
    }
    if exists|q: u64| s.takes_consumer(q) {
        let q = choose|q: u64| s.takes_consumer(q);
        assert(t.takes_consumer(q));
    }
}

proof fn lemma_rx_access_producers<T>(s: System<T>, ev: Event)
    requires
        s.all_inv(),
        s.rx.stage != RecvStage::DrainDeliver,
        s.rx_may_see(ev),
        s.rx.expects(ev),
    ensures
        forall|q: u64|
            s.rx_access(ev).txs.contains_key(q) ==> #[trigger] s.rx_access(ev).producer_inv(q),
{
    let t = s.rx_access(ev);
    assert forall|q: u64| t.txs.contains_key(q) implies #[trigger] t.producer_inv(q) by {
        assert(s.tx_inv(q));
        assert(s.producer_inv(q));
        if s.takes_producers() && s.m.waiters.contains(q) {
            let i = choose|i: int| 0 <= i < s.m.waiters.len() && s.m.waiters[i] == q;
            assert(t.m.unparked.skip(s.m.unparked.len() as int)[i] == q);
            assert(t.tokens.contains(q));
        }
    }
}

proof fn lemma_step<T>(s: System<T>, t: System<T>)
    requires
        s.all_inv(),
        s.step(t),
    ensures
        t.all_inv(),
{
    if exists|p: u64, ev: Event| #[trigger] s.tx_steps(p, ev, t) {
        let (p, ev) = choose|p: u64, ev: Event| #[trigger] s.tx_steps(p, ev, t);
        lemma_tx_access(s, p, ev);
        lemma_tx_handles(s, p, ev);
        lemma_tx_access_consumer(s, p, ev);
        lemma_tx_access_producers(s, p, ev);
        lemma_tx_access_sends(s, p, ev);
    } else if exists|ev: Event| #[trigger] s.rx_steps(ev, t) {
        let ev = choose|ev: Event| #[trigger] s.rx_steps(ev, t);
        lemma_rx_access(s, ev);
        lemma_rx_access_consumer(s, ev);
        lemma_rx_access_producers(s, ev);
        lemma_rx_access_receives(s, ev);
    } else if exists|p: u64| #[trigger] s.tx_calls(p, t) {
        let p = choose|p: u64| #[trigger] s.tx_calls(p, t);
        lemma_tx_calls(s, p, t);
        lemma_tx_calls_sends(s, p, t);
        assert(t.txs =~= s.txs.insert(p, t.txs[p]));
        lemma_others_stay(s, t, p);
    } else if exists|p: u64, q: u64| #[trigger] s.may_clone(p, q) && t == s.tx_clone(p, q) {
        let (p, q) = choose|p: u64, q: u64| #[trigger]
            s.may_clone(p, q) && t == s.tx_clone(p, q);
        lemma_tx_clone(s, p, q);
        lemma_tx_clone_sends(s, p, q);
        lemma_others_stay(s, t, q);
    } else {
        lemma_rx_calls(s, t);
        lemma_rx_calls_receives(s, t);
        lemma_rx_calls_notify(s, t);
    }
}

/// The consumer starts or ends an operation: nobody's sleep is concerned.
proof fn lemma_rx_calls_notify<T>(s: System<T>, t: System<T>)
    requires
        s.all_inv(),
        s.rx_calls(t),
    ensures
        t.consumer_inv(),
        forall|q: u64| t.txs.contains_key(q) ==> #[trigger] t.producer_inv(q),
{
    assert(forall|q: u64| #[trigger] t.wakes_consumer(q) == s.wakes_consumer(q));
    assert(forall|q: u64| #[trigger] t.takes_consumer(q) == s.takes_consumer(q));
    assert forall|q: u64| t.txs.contains_key(q) implies #[trigger] t.producer_inv(q) by {
        assert(s.producer_inv(q));
    }
}

/// A producer starts or ends an operation, or gets its handle: nobody's sleep is concerned.
proof fn lemma_others_stay<T>(s: System<T>, t: System<T>, p: u64)
    requires
        s.all_inv(),
        t.m == (Memory { senders: t.m.senders, ..s.m }),
        t.m.senders == 0 ==> s.m.senders == 0,
        t.txs == s.txs.insert(p, t.txs[p]),
        t.rx == s.rx,
        t.rx_name == s.rx_name,
        t.tokens == s.tokens,
        t.unwoken == s.unwoken,
        s.txs.contains_key(p) ==> !(s.txs[p].stage is Wake) && !(s.txs[p].stage is CloseWake),
        !(t.txs[p].stage is Wake) && !(t.txs[p].stage is CloseWake),
        !t.txs[p].stage.parks(),
        t.txs[p].stage == SendStage::Flag && t.txs[p].blocking ==> t.txs[p].me == p,
        t.txs[p].stage != SendStage::Claim && t.txs[p].stage != SendStage::Head,
        t.txs[p].stage != SendStage::Swap && t.txs[p].stage != SendStage::Backoff,
        t.txs[p].stage != SendStage::Pause,
    ensures
        t.consumer_inv(),
        forall|q: u64| t.txs.contains_key(q) ==> #[trigger] t.producer_inv(q),
{
    assert(forall|q: u64| #[trigger] t.wakes_consumer(q) == s.wakes_consumer(q));
    assert(forall|q: u64| #[trigger] t.takes_consumer(q) == s.takes_consumer(q));
    assert(t.m.mark_at(s.rx.head as int) == s.m.mark_at(s.rx.head as int));
    if s.someone_wakes_consumer() {
        let q = choose|q: u64| s.wakes_consumer(q);
        assert(t.wakes_consumer(q));
    }
    if exists|q: u64| s.takes_consumer(q) {
        let q = choose|q: u64| s.takes_consumer(q);
        assert(t.takes_consumer(q));
    }
    assert forall|q: u64| t.txs.contains_key(q) implies #[trigger] t.producer_inv(q) by {
        if q != p {
            assert(s.producer_inv(q));
        }
    }
}

proof fn lemma_run<T>(trace: Seq<System<T>>, i: int)
    requires
        System::run(trace),
        0 <= i < trace.len(),
    ensures
        trace[i].all_inv(),
    decreases i,
{
    if i == 0 {
        let first = choose|first: u64| #[trigger] trace[0].initial(first);
        lemma_initial(trace[0], first);
    } else {
        lemma_run(trace, i - 1);
        assert(System::steps_to(trace, i));
        lemma_step(trace[i - 1], trace[i]);
    }
}

proof fn lemma_reachable<T>(s: System<T>)
    requires
        s.reachable(),
    ensures
        s.all_inv(),
{
    let trace = choose|trace: Seq<System<T>>| #[trigger] System::run(trace) && trace.last() == s;
    lemma_run(trace, trace.len() - 1);
}

/// A new ring is the start of a run.
pub proof fn law_new_ring_is_reachable<T>(s: System<T>, first: u64)
    requires
        s.initial(first),
    ensures
        s.reachable(),
{
    let trace = seq![s];
    assert(trace[0].initial(first));
    assert(System::run(trace));
    assert(trace.last() == s);
}

/// A step from a reachable state leads to a reachable state.
pub proof fn law_steps_are_reachable<T>(s: System<T>, t: System<T>)
    requires
        s.reachable(),
        s.step(t),
    ensures
        t.reachable(),
{
    let trace = choose|trace: Seq<System<T>>| #[trigger] System::run(trace) && trace.last() == s;
    let longer = trace.push(t);
    let first = choose|first: u64| #[trigger] trace[0].initial(first);
    assert(longer[0].initial(first));
    assert forall|i: int| 0 < i < longer.len() implies #[trigger] System::steps_to(longer, i) by {
        if i < trace.len() {
            assert(System::steps_to(trace, i));
        }
    }
    assert(System::run(longer));
    assert(longer.last() == t);
}

/// Whatever a read returns, the machines can take it: no access leads an operation out of the
/// contract of `advance`. A producer that is counted out finds at least itself counted.
pub proof fn law_every_read_is_expected<T>(s: System<T>, p: u64, ev: Event)
    requires
        s.reachable(),
        s.txs.contains_key(p),
    ensures
        s.tx_may_see(p, ev) && s.txs[p].asks() != crate::mpsc::SendAction::Return
            ==> s.txs[p].expects(ev),
        s.rx_may_see(ev) && s.rx.asks() != crate::mpsc::RecvAction::Return ==> s.rx.expects(ev),
        s.tx_may_see(p, s.txs[p].sees(s.m)),
        s.rx_may_see(s.rx.sees(s.m)),
        s.txs[p].stage == SendStage::Close ==> s.m.senders > 0,
{
    lemma_reachable(s);
    lemma_next_item(s);
    assert(s.tx_inv(p));
    if s.txs[p].stage == SendStage::Close {
        assert(s.counted().contains(p));
    }
}

/// Only a lost claim can hold a producer up: unless it waits, every other access brings it
/// nearer to the end of its operation or to a wait, at most ten accesses away.
pub proof fn law_sends_end<T>(s: System<T>, p: u64, ev: Event)
    requires
        s.reachable(),
        s.txs.contains_key(p),
        s.txs[p].expects(ev),
        s.txs[p].stage != SendStage::Backoff,
        s.txs[p].stage != SendStage::Pause,
        !s.txs[p].stage.parks(),
    ensures
        s.txs[p].next(ev).left() < s.txs[p].left(),
        s.txs[p].next(ev).stage == SendStage::Backoff ==> ev is Lost,
        s.txs[p].left() <= 10,
{
    lemma_reachable(s);
    assert(s.tx_inv(p));
}

/// Nothing that the producers do can hold the consumer up: unless it waits, every access brings
/// it nearer to the end of its operation or to a wait; for one item that is at most nine
/// accesses away, and for a batch at most three for each item that it may have and seven more.
pub proof fn law_receives_end<T>(s: System<T>, ev: Event)
    requires
        s.reachable(),
        s.rx.expects(ev),
        s.rx.stage != RecvStage::Pause,
        !s.rx.stage.parks(),
    ensures
        s.rx.stage == RecvStage::DrainDeliver ==> s.rx.delivered().left() < s.rx.left(),
        s.rx.stage != RecvStage::DrainDeliver ==> s.rx_access(ev).rx.left() < s.rx.left(),
        s.rx.left() <= if s.rx.stage.drains() {
            3 * (s.rx.max - s.rx.count) + 7
        } else {
            9
        },
{
    lemma_reachable(s);
}

/// The items come out in the order in which their sequence numbers were claimed, over all
/// producers: none is skipped, none comes twice.
pub proof fn law_items_arrive_in_order<T>(s: System<T>)
    requires
        s.reachable(),
    ensures
        s.received.len() <= s.claimed.len(),
        s.received == s.claimed.take(s.received.len() as int),
{
    lemma_reachable(s);
}

/// A value stays with its operation until it is written to its slot: an operation that fails
/// has it to hand back.
pub proof fn law_values_stay_until_written<T>(tx: Sender<T>, ev: Event)
    requires
        tx.wf(),
        tx.stage != SendStage::Write,
    ensures
        tx.next(ev).value == tx.value,
        tx.stage == SendStage::Full || tx.stage == SendStage::Disconnected ==> tx.value is Some,
{
}

/// Every item that was taken out is handed over: all that were are returned, but for the one
/// that the operation under way has for its caller.
pub proof fn law_taken_items_are_handed_over<T>(s: System<T>)
    requires
        s.reachable(),
    ensures
        s.rx.stage.has_value() ==> s.rx.value is Some && s.received == s.returned.push(
            s.rx.value->0,
        ),
        !s.rx.stage.has_value() ==> s.received == s.returned,
{
    lemma_reachable(s);
}

/// What was claimed and not taken out is in its slot as soon as it is published, and at most
/// as many sequence numbers are claimed as there are slots.
pub proof fn law_items_are_kept<T>(s: System<T>)
    requires
        s.reachable(),
    ensures
        s.claimed.len() - s.received.len() <= s.m.cap,
        forall|seq: int|
            s.received.len() <= seq < s.claimed.len() && #[trigger] s.m.published(seq) ==> s.m.at(
                seq,
            ) == Some(s.claimed[seq]),
{
    lemma_reachable(s);
    assert forall|seq: int|
        s.received.len() <= seq < s.claimed.len() && #[trigger] s.m.published(seq) implies s.m.at(
        seq,
    ) == Some(s.claimed[seq]) by {
        assert(s.claimed_inv(seq));
    }
}

/// A sequence number that is claimed and not published belongs to one producer, which is about
/// to write its slot or to publish it: so a producer that is blocked, or whose attempt has
/// failed, holds none.
pub proof fn law_blocked_producers_hold_nothing<T>(s: System<T>, seq: int)
    requires
        s.reachable(),
        s.received.len() <= seq < s.claimed.len(),
        !s.m.published(seq),
    ensures
        exists|p: u64| #[trigger] s.has_claimed(p, seq),
        forall|p: u64, q: u64|
            #[trigger] s.has_claimed(p, seq) && #[trigger] s.has_claimed(q, seq) ==> p == q,
{
    lemma_reachable(s);
    assert(s.claimed_inv(seq));
}

/// Only an attempt that succeeds claims a sequence number: every other step leaves them all.
pub proof fn law_failed_attempts_claim_nothing<T>(s: System<T>, t: System<T>)
    requires
        s.reachable(),
        s.step(t),
        t.m.claim != s.m.claim,
    ensures
        t.m.claim == s.m.claim + 1,
        exists|p: u64|
            #[trigger] t.has_claimed(p, s.m.claim as int) && t.txs[p].stage == SendStage::Write
                && s.txs[p].stage == SendStage::Swap && t.claimed == s.claimed.push(
                s.txs[p].value->0,
            ),
{
    lemma_reachable(s);
    let (p, ev) = choose|p: u64, ev: Event| #[trigger] s.tx_steps(p, ev, t);
    assert(s.tx_inv(p));
    assert(t.has_claimed(p, s.m.claim as int));
}

/// A claim is lost only to another one: where the compare-and-swap finds another number than
/// the producer is after, sequence numbers were claimed since it looked.
pub proof fn law_claims_are_lost_to_claims<T>(s: System<T>, p: u64)
    requires
        s.reachable(),
        s.txs.contains_key(p),
        s.txs[p].stage == SendStage::Swap,
        s.txs[p].sees(s.m) is Lost,
    ensures
        s.txs[p].seq < s.m.claim,
{
    lemma_reachable(s);
    assert(s.producer_inv(p));
}

/// A producer writes only into a slot that is empty and that no other producer writes, and
/// the consumer reads only from one that holds an item: no access meets another's.
pub proof fn law_slots_are_not_shared<T>(s: System<T>, p: u64, q: u64)
    requires
        s.reachable(),
        s.txs.contains_key(p),
        s.txs.contains_key(q),
        s.txs[p].stage == SendStage::Write,
    ensures
        s.m.at(s.txs[p].seq as int) is None,
        q != p && s.txs[q].stage == SendStage::Write ==> crate::index::slot(
            s.txs[p].seq as int,
            s.m.cap as int,
        ) != crate::index::slot(s.txs[q].seq as int, s.m.cap as int),
        s.rx.stage == RecvStage::Read || s.rx.stage == RecvStage::DrainRead ==> s.m.at(
            s.rx.head as int,
        ) is Some && crate::index::slot(s.txs[p].seq as int, s.m.cap as int) != crate::index::slot(
            s.rx.head as int,
            s.m.cap as int,
        ),
{
    lemma_reachable(s);
    crate::index::lemma_cap_positive(s.m.cap as int);
    assert(s.tx_inv(p));
    assert(s.tx_inv(q));
    let a = s.txs[p].seq as int;
    let b = s.txs[q].seq as int;
    assert(s.has_claimed(p, a));
    if q != p && s.txs[q].stage == SendStage::Write {
        assert(s.has_claimed(q, b));
        if a < b {
            crate::index::lemma_slots_differ(a, b, s.m.cap as int);
        } else {
            crate::index::lemma_slots_differ(b, a, s.m.cap as int);
        }
    }
    if s.rx.stage == RecvStage::Read || s.rx.stage == RecvStage::DrainRead {
        assert(s.claimed_inv(s.rx.head as int));
    }
}

/// The slot that a producer asks to write is empty, and the mark that it asks to store goes to
/// the slot of the sequence number that it has claimed.
pub proof fn law_the_slots_asked_for_are_right<T>(s: System<T>, p: u64)
    requires
        s.reachable(),
        s.txs.contains_key(p),
    ensures
        match s.txs[p].asks() {
            crate::mpsc::SendAction::WriteSlot(i) => i < s.m.cap && s.m.slots[i as int] is None,
            crate::mpsc::SendAction::StoreMark(i, mark) => {
                &&& i < s.m.cap
                &&& i == s.txs[p].seq as int % s.m.cap as int
                &&& s.m.slots[i as int] == Some(s.claimed[s.txs[p].seq as int])
                &&& s.m.publish(s.txs[p].seq as int).avail == s.m.avail.update(i as int, mark)
            },
            _ => true,
        },
{
    lemma_reachable(s);
    assert(s.tx_inv(p));
    let seq = s.txs[p].seq as int;
    crate::index::lemma_cap_positive(s.m.cap as int);
    crate::index::lemma_slot_bound(seq, s.m.cap as int);
    if s.txs[p].stage == SendStage::Write {
        law_slots_are_not_shared(s, p, p);
    }
    if s.txs[p].stage == SendStage::Publish {
        assert(s.has_claimed(p, seq));
        assert(s.claimed_inv(seq));
    }
}

/// The consumer reads only from a slot that holds the next item.
pub proof fn law_reads_find_the_item<T>(s: System<T>)
    requires
        s.reachable(),
        s.rx.stage == RecvStage::Read || s.rx.stage == RecvStage::DrainRead,
    ensures
        s.received.len() < s.claimed.len(),
        s.m.at(s.rx.head as int) == Some(s.claimed[s.received.len() as int]),
{
    lemma_reachable(s);
    assert(s.claimed_inv(s.rx.head as int));
}

/// A batch frees its slots together: until it is complete, or cut short, the head that the
/// others see stays where it was, and then moves on by all the items that were taken out.
pub proof fn law_batches_free_their_slots_at_the_end<T>(s: System<T>)
    requires
        s.reachable(),
    ensures
        s.rx.stage.drains() ==> s.received.len() == s.m.head + s.rx.count,
        s.rx.stage is DrainWake || s.rx.stage == RecvStage::Drained ==> s.received.len()
            == s.m.head,
{
    lemma_reachable(s);
}

/// The number of senders is the number of handles that were not dropped.
pub proof fn law_senders_are_counted<T>(s: System<T>)
    requires
        s.reachable(),
    ensures
        s.counted().finite(),
        s.m.senders == s.counted().len(),
{
    lemma_reachable(s);
}

/// The consumer reports missing senders only when all of them are gone and every item was
/// taken out; a producer reports a missing receiver only when it is gone.
pub proof fn law_disconnected_is_reported_when_drained<T>(s: System<T>, p: u64)
    requires
        s.reachable(),
        s.txs.contains_key(p),
    ensures
        s.rx.stage == RecvStage::Disconnected ==> !s.counts(p) && s.received == s.claimed,
        s.txs[p].stage == SendStage::Disconnected ==> s.rx_closed(),
{
    lemma_reachable(s);
    assert(s.tx_inv(p));
    if s.rx.stage == RecvStage::Disconnected {
        assert(s.claimed.take(s.claimed.len() as int) =~= s.claimed);
        if s.counts(p) {
            assert(s.counted().contains(p));
        }
    }
}

impl<T> System<T> {
    /// The consumer knows that no sender is left and has everything.
    spec fn over(self) -> bool {
        &&& self.m.senders == 0
        &&& self.rx_saw_gone
        &&& self.received == self.claimed
        &&& match self.rx.stage {
            RecvStage::Disconnected
            | RecvStage::Ready
            | RecvStage::Avail
            | RecvStage::Senders
            | RecvStage::FinalAvail
            | RecvStage::Drained
            | RecvStage::Close
            | RecvStage::CloseWake(_)
            | RecvStage::Gone => true,
            RecvStage::DrainAvail => self.rx.count == 0,
            _ => false,
        }
    }
}

proof fn lemma_over_rx<T>(s: System<T>, ev: Event)
    requires
        s.all_inv(),
        s.over(),
        s.rx.stage != RecvStage::DrainDeliver,
        s.rx_may_see(ev),
        s.rx.expects(ev),
    ensures
        s.rx_access(ev).over(),
{
    lemma_next_item(s);
    assert(s.received.len() == s.rx.head);
    assert(s.claimed.len() == s.m.claim);
}

proof fn lemma_over<T>(s: System<T>, t: System<T>)
    requires
        s.all_inv(),
        s.over(),
        s.step(t),
    ensures
        t.over(),
        t.claimed == s.claimed,
{
    assert forall|p: u64| !(#[trigger] s.counts(p)) by {
        if s.counts(p) {
            assert(s.counted().contains(p));
        }
    }
    if exists|p: u64, ev: Event| #[trigger] s.tx_steps(p, ev, t) {
        let (p, ev) = choose|p: u64, ev: Event| #[trigger] s.tx_steps(p, ev, t);
        assert(!s.counts(p));
    } else if exists|ev: Event| #[trigger] s.rx_steps(ev, t) {
        let ev = choose|ev: Event| #[trigger] s.rx_steps(ev, t);
        lemma_over_rx(s, ev);
    } else if exists|p: u64| #[trigger] s.tx_calls(p, t) {
        let p = choose|p: u64| #[trigger] s.tx_calls(p, t);
        assert(!s.counts(p));
    } else if exists|p: u64, q: u64| #[trigger] s.may_clone(p, q) && t == s.tx_clone(p, q) {
        let (p, q) = choose|p: u64, q: u64| #[trigger]
            s.may_clone(p, q) && t == s.tx_clone(p, q);
        assert(!s.counts(p));
    }
}

proof fn lemma_over_later<T>(trace: Seq<System<T>>, i: int, j: int)
    requires
        System::run(trace),
        0 <= i <= j < trace.len(),
        trace[i].rx.stage == RecvStage::Disconnected,
    ensures
        trace[j].over(),
        trace[j].claimed == trace[i].claimed,
    decreases j,
{
    lemma_run(trace, i);
    if i < j {
        lemma_over_later(trace, i, j - 1);
        lemma_run(trace, j - 1);
        assert(System::steps_to(trace, j));
        lemma_over(trace[j - 1], trace[j]);
    } else {
        assert(trace[j].claimed.take(trace[j].claimed.len() as int) =~= trace[j].claimed);
    }
}

/// Once the consumer has reported that all senders are gone, it stays so: nothing more is put
/// into the ring, nothing is left in it, and no later operation finds an item, calls the ring
/// empty or waits.
pub proof fn law_disconnect_is_final<T>(trace: Seq<System<T>>, i: int, j: int)
    requires
        System::run(trace),
        0 <= i <= j < trace.len(),
        trace[i].rx.stage == RecvStage::Disconnected,
    ensures
        trace[j].m.senders == 0,
        trace[j].claimed == trace[i].claimed,
        trace[j].received == trace[j].claimed,
        trace[j].rx.stage != RecvStage::Empty,
        trace[j].rx.stage != RecvStage::Got,
        trace[j].rx.stage != RecvStage::DrainDeliver,
        trace[j].rx.stage != RecvStage::Pause,
        !trace[j].rx.stage.parks(),
{
    lemma_over_later(trace, i, j);
}

/// The send that is under way, once it has claimed its sequence number, has claimed it for the
/// value that it was given, and no other send has the same number.
pub proof fn law_sends_claim_for_their_values<T>(s: System<T>, p: u64)
    requires
        s.reachable(),
        s.has_sent(p),
    ensures
        s.txs[p].seq < s.claimed.len(),
        s.claimed[s.txs[p].seq as int] == s.given[p],
        forall|q: u64| #[trigger] s.has_place(q, s.txs[p].seq as int) ==> q == p,
        forall|i: int| !(#[trigger] s.had_place(i, s.txs[p].seq as int)),
{
    lemma_reachable(s);
    assert(s.given_inv(p));
    assert(s.has_place(p, s.txs[p].seq as int));
}

/// A send that returned `Ok` has claimed one sequence number, for its own value, and no two of
/// them have the same.
pub proof fn law_accepted_sends_have_their_places<T>(s: System<T>, i: int, j: int)
    requires
        s.reachable(),
        0 <= i < s.accepted.len(),
        0 <= j < s.accepted.len(),
    ensures
        0 <= s.accepted[i].seq < s.claimed.len(),
        s.claimed[s.accepted[i].seq] == s.accepted[i].value,
        i != j ==> s.accepted[i].seq != s.accepted[j].seq,
{
    lemma_reachable(s);
    assert(s.receipt_inv(i));
    assert(s.had_place(i, s.accepted[i].seq));
    assert(s.had_place(j, s.accepted[j].seq));
}

/// Every claimed sequence number belongs to a send that returned `Ok` or is under way: a send
/// that failed, or has not claimed yet, has put nothing into the ring.
pub proof fn law_claims_are_of_sends<T>(s: System<T>, seq: int)
    requires
        s.reachable(),
        0 <= seq < s.claimed.len(),
    ensures
        s.is_placed(seq),
{
    lemma_reachable(s);
}

/// The sequence numbers of the sends that returned `Ok`.
pub open spec fn places<T>(accepted: Seq<Receipt<T>>) -> Seq<int> {
    Seq::new(accepted.len(), |i: int| accepted[i].seq)
}

/// The values of the sends that returned `Ok`.
pub open spec fn values<T>(accepted: Seq<Receipt<T>>) -> Seq<T> {
    Seq::new(accepted.len(), |i: int| accepted[i].value)
}

/// Different numbers below `n` are at most `n`.
proof fn lemma_at_most(places: Seq<int>, n: int)
    requires
        0 <= n,
        forall|i: int| 0 <= i < places.len() ==> 0 <= #[trigger] places[i] < n,
        places.no_duplicates(),
    ensures
        places.len() <= n,
{
    places.unique_seq_to_set();
    vstd::set_lib::lemma_int_range(0, n);
    assert(places.to_set().subset_of(vstd::set_lib::set_int_range(0, n)));
    vstd::set_lib::lemma_len_subset(places.to_set(), vstd::set_lib::set_int_range(0, n));
}

/// The ring is bounded also while operations are under way: as many sequence numbers are
/// claimed past the head as there are slots, at most, so the sends that returned `Ok` are at
/// most as many more than the items that were taken out; and a batch, which stores the head at
/// its end, has at most as many items as there are slots, however fast the producers are.
pub proof fn law_ring_stays_bounded<T>(s: System<T>)
    requires
        s.reachable(),
    ensures
        s.m.claim <= s.m.head + s.m.cap,
        s.accepted.len() <= s.claimed.len(),
        s.accepted.len() - s.received.len() <= s.m.cap,
        s.rx.stage.drains() || s.rx.stage is DrainWake || s.rx.stage == RecvStage::Drained
            ==> s.rx.count <= s.m.cap,
{
    let ps = places(s.accepted);
    assert forall|i: int| 0 <= i < ps.len() implies 0 <= #[trigger] ps[i] < s.claimed.len() by {
        law_accepted_sends_have_their_places(s, i, i);
    }
    assert forall|i: int, j: int| 0 <= i < ps.len() && 0 <= j < ps.len() && i != j implies ps[i]
        != ps[j] by {
        law_accepted_sends_have_their_places(s, i, j);
    }
    lemma_at_most(ps, s.claimed.len() as int);
    law_items_are_kept(s);
    lemma_reachable(s);
}

/// The value of a send that returned `Ok` is not overwritten before it is taken out: it is
/// published and in its slot.
pub proof fn law_accepted_values_are_kept<T>(s: System<T>, i: int)
    requires
        s.reachable(),
        0 <= i < s.accepted.len(),
        s.received.len() <= s.accepted[i].seq,
    ensures
        s.m.published(s.accepted[i].seq),
        s.m.at(s.accepted[i].seq) == Some(s.accepted[i].value),
{
    lemma_reachable(s);
    let seq = s.accepted[i].seq;
    assert(s.receipt_inv(i));
    assert(s.had_place(i, seq));
    assert(s.claimed_inv(seq));
    if !s.m.published(seq) {
        let p = choose|p: u64| #[trigger] s.has_claimed(p, seq);
        assert(s.has_place(p, seq));
    }
}

/// One of the sends has the sequence number `seq`.
spec fn is_taken<T>(accepted: Seq<Receipt<T>>, seq: int) -> bool {
    exists|i: int| 0 <= i < accepted.len() && (#[trigger] accepted[i]).seq == seq
}

/// The sends have all the sequence numbers of `claimed`, each once, and the values to them.
spec fn fills<T>(accepted: Seq<Receipt<T>>, claimed: Seq<T>) -> bool {
    &&& forall|i: int|
        0 <= i < accepted.len() ==> 0 <= (#[trigger] accepted[i]).seq < claimed.len()
            && claimed[accepted[i].seq] == accepted[i].value
    &&& forall|i: int, j: int|
        0 <= i < j < accepted.len() ==> (#[trigger] accepted[i]).seq != (
        #[trigger] accepted[j]).seq
    &&& forall|seq: int| 0 <= seq < claimed.len() ==> #[trigger] is_taken(accepted, seq)
}

/// Without the send of the last number, the others have the other numbers.
proof fn lemma_fills_less<T>(accepted: Seq<Receipt<T>>, claimed: Seq<T>, i: int)
    requires
        fills(accepted, claimed),
        claimed.len() > 0,
        0 <= i < accepted.len(),
        accepted[i].seq == claimed.len() - 1,
    ensures
        fills(accepted.remove(i), claimed.drop_last()),
{
    let rest = accepted.remove(i);
    let front = claimed.drop_last();
    assert forall|j: int| 0 <= j < rest.len() implies 0 <= (#[trigger] rest[j]).seq < front.len()
        && front[rest[j].seq] == rest[j].value by {
        let k: int = if j < i {
            j
        } else {
            j + 1
        };
        assert(rest[j] == accepted[k]);
        assert(accepted[k].seq != accepted[i].seq);
    }
    assert forall|j: int, k: int| 0 <= j < k < rest.len() implies (#[trigger] rest[j]).seq != (
    #[trigger] rest[k]).seq by {
        let j2: int = if j < i {
            j
        } else {
            j + 1
        };
        let k2: int = if k < i {
            k
        } else {
            k + 1
        };
        assert(rest[j] == accepted[j2] && rest[k] == accepted[k2]);
    }
    assert forall|seq: int| 0 <= seq < front.len() implies #[trigger] is_taken(rest, seq) by {
        assert(is_taken(accepted, seq));
        let k = choose|k: int| 0 <= k < accepted.len() && (#[trigger] accepted[k]).seq == seq;
        let j: int = if k < i {
            k
        } else {
            k - 1
        };
        assert(rest[j] == accepted[k]);
    }
}

/// Then the values are those of `claimed`, in another order.
proof fn lemma_same_values<T>(accepted: Seq<Receipt<T>>, claimed: Seq<T>)
    requires
        fills(accepted, claimed),
    ensures
        values(accepted).to_multiset() == claimed.to_multiset(),
    decreases claimed.len(),
{
    broadcast use vstd::seq_lib::group_to_multiset_ensures;

    if claimed.len() == 0 {
        if accepted.len() > 0 {
            assert(0 <= accepted[0].seq < claimed.len());
        }
        assert(values(accepted) =~= claimed);
    } else {
        let last = claimed.len() - 1;
        assert(is_taken(accepted, last));
        let i = choose|i: int| 0 <= i < accepted.len() && (#[trigger] accepted[i]).seq == last;
        lemma_fills_less(accepted, claimed, i);
        lemma_same_values(accepted.remove(i), claimed.drop_last());
        assert(values(accepted.remove(i)) =~= values(accepted).remove(i));
        assert(claimed.drop_last() =~= claimed.remove(last));
        assert(values(accepted)[i] == claimed[last]);
        assert(values(accepted).to_multiset() =~= values(accepted).remove(i).to_multiset().insert(
            values(accepted)[i],
        ));
        assert(claimed.to_multiset() =~= claimed.remove(last).to_multiset().insert(
            claimed[last],
        ));
    }
}

/// Without a sender every claimed sequence number belongs to a send that returned `Ok`.
proof fn lemma_drained<T>(s: System<T>)
    requires
        s.reachable(),
        s.rx.stage == RecvStage::Disconnected,
    ensures
        s.received == s.claimed,
        fills(s.accepted, s.claimed),
{
    lemma_reachable(s);
    assert(s.claimed.take(s.claimed.len() as int) =~= s.claimed);
    assert forall|i: int| 0 <= i < s.accepted.len() implies 0 <= (#[trigger] s.accepted[i]).seq
        < s.claimed.len() && s.claimed[s.accepted[i].seq] == s.accepted[i].value by {
        assert(s.receipt_inv(i));
    }
    assert forall|i: int, j: int| 0 <= i < j < s.accepted.len() implies (
    #[trigger] s.accepted[i]).seq != (#[trigger] s.accepted[j]).seq by {
        assert(s.had_place(i, s.accepted[i].seq));
        assert(s.had_place(j, s.accepted[j].seq));
    }
    assert forall|seq: int| 0 <= seq < s.claimed.len() implies #[trigger] is_taken(
        s.accepted,
        seq,
    ) by {
        assert(s.is_placed(seq));
        if exists|p: u64| #[trigger] s.has_place(p, seq) {
            let p = choose|p: u64| #[trigger] s.has_place(p, seq);
            assert(s.counted().contains(p));
        }
        let i = choose|i: int| #[trigger] s.had_place(i, seq);
        assert(s.accepted[i].seq == seq);
    }
}

/// What the receives have returned and the batches have handed over is what was claimed, in
/// order, as far as it was taken out; and when the consumer reports that all senders are gone,
/// it has returned the values of all sends that returned `Ok`, each once, and of no others.
pub proof fn law_round_trip<T>(s: System<T>)
    requires
        s.reachable(),
    ensures
        s.returned.len() <= s.claimed.len(),
        s.returned == s.claimed.take(s.returned.len() as int),
        s.rx.stage == RecvStage::Disconnected ==> {
            &&& s.returned == s.claimed
            &&& s.returned.to_multiset() == values(s.accepted).to_multiset()
            &&& s.returned.len() == s.accepted.len()
        },
{
    law_items_arrive_in_order(s);
    law_taken_items_are_handed_over(s);
    assert(s.returned =~= s.received.take(s.returned.len() as int));
    assert(s.returned =~= s.claimed.take(s.returned.len() as int));
    if s.rx.stage == RecvStage::Disconnected {
        lemma_drained(s);
        lemma_same_values(s.accepted, s.claimed);
        broadcast use vstd::seq_lib::group_to_multiset_ensures;

        assert(values(s.accepted).to_multiset().len() == values(s.accepted).len());
        assert(s.claimed.to_multiset().len() == s.claimed.len());
    }
}

/// Claims are only added, at the end.
proof fn lemma_claims_grow<T>(trace: Seq<System<T>>, i: int, j: int)
    requires
        System::run(trace),
        0 <= i <= j < trace.len(),
    ensures
        trace[i].claimed.len() <= trace[j].claimed.len(),
        forall|seq: int|
            0 <= seq < trace[i].claimed.len() ==> #[trigger] trace[j].claimed[seq]
                == trace[i].claimed[seq],
    decreases j,
{
    if i < j {
        lemma_claims_grow(trace, i, j - 1);
        assert(System::steps_to(trace, j));
        assert(trace[j].claimed == trace[j - 1].claimed || exists|v: T|
            trace[j].claimed == #[trigger] trace[j - 1].claimed.push(v));
    }
}

/// While the send of producer `q` is under way, its value stays, and it claims no number that
/// was claimed before it began.
proof fn lemma_send_under_way<T>(trace: Seq<System<T>>, i: int, j: int, q: u64)
    requires
        System::run(trace),
        0 <= i <= j < trace.len(),
        trace[i].txs.contains_key(q),
        trace[i].txs[q].stage == SendStage::Flag,
        forall|k: int|
            i <= k <= j ==> (#[trigger] trace[k]).txs[q].stage != SendStage::Ready,
    ensures
        trace[j].txs.contains_key(q),
        trace[j].given[q] == trace[i].given[q],
        trace[j].has_sent(q) ==> trace[i].claimed.len() <= trace[j].txs[q].seq,
    decreases j,
{
    if i < j {
        lemma_send_under_way(trace, i, j - 1, q);
        lemma_claims_grow(trace, i, j - 1);
        lemma_run(trace, j - 1);
        let s = trace[j - 1];
        let t = trace[j];
        assert(System::steps_to(trace, j));
        assert(s.txs[q].stage != SendStage::Ready);
        assert(t.txs[q].stage != SendStage::Ready);
        lemma_send_step(s, t, q, trace[i].claimed.len() as int);
    }
}

proof fn lemma_send_step<T>(s: System<T>, t: System<T>, q: u64, n: int)
    requires
        s.all_inv(),
        s.step(t),
        s.txs.contains_key(q),
        s.txs[q].stage != SendStage::Ready,
        t.txs[q].stage != SendStage::Ready,
        n <= s.claimed.len(),
        s.has_sent(q) ==> n <= s.txs[q].seq,
    ensures
        t.txs.contains_key(q),
        t.given[q] == s.given[q],
        t.has_sent(q) ==> n <= t.txs[q].seq,
{
    if exists|p: u64, ev: Event| #[trigger] s.tx_steps(p, ev, t) {
    } else if exists|ev: Event| #[trigger] s.rx_steps(ev, t) {
    } else if exists|p: u64| #[trigger] s.tx_calls(p, t) {
    } else if exists|p: u64, r: u64| #[trigger] s.may_clone(p, r) && t == s.tx_clone(p, r) {
    }
}

/// Between its start and its end a send that succeeds claims one sequence number, for its own
/// value and after all that were claimed before it began; one that fails claims none and has
/// the value to hand back.
pub proof fn law_a_send_claims_once<T>(
    trace: Seq<System<T>>,
    i: int,
    j: int,
    q: u64,
    v: T,
    blocking: bool,
    me: u64,
)
    requires
        System::run(trace),
        0 < i <= j < trace.len(),
        trace[i - 1].txs.contains_key(q),
        trace[i - 1].txs[q].stage == SendStage::Ready,
        trace[i] == trace[i - 1].tx_start(q, v, blocking, me),
        forall|k: int|
            i <= k <= j ==> (#[trigger] trace[k]).txs[q].stage != SendStage::Ready,
    ensures
        trace[j].txs[q].stage == SendStage::Sent ==> {
            &&& trace[i].claimed.len() <= trace[j].txs[q].seq < trace[j].claimed.len()
            &&& trace[j].claimed[trace[j].txs[q].seq as int] == v
        },
        trace[j].txs[q].stage == SendStage::Full || trace[j].txs[q].stage
            == SendStage::Disconnected ==> {
            &&& trace[j].txs[q].value == Some(v)
            &&& !trace[j].has_sent(q)
        },
{
    lemma_run(trace, j);
    lemma_send_under_way(trace, i, j, q);
    assert(trace[j].tx_inv(q));
    assert(trace[j].given_inv(q));
}

/// A send that ended before another began stands before it: its value gets the smaller sequence
/// number, and so comes out first.
pub proof fn law_earlier_sends_come_first<T>(
    trace: Seq<System<T>>,
    i: int,
    j: int,
    k: int,
    p: u64,
    q: u64,
    v: T,
    blocking: bool,
    me: u64,
)
    requires
        System::run(trace),
        0 <= i < j <= k < trace.len(),
        trace[i].txs.contains_key(p),
        trace[i].txs[p].stage == SendStage::Sent,
        trace[j - 1].txs.contains_key(q),
        trace[j - 1].txs[q].stage == SendStage::Ready,
        trace[j] == trace[j - 1].tx_start(q, v, blocking, me),
        forall|l: int|
            j <= l <= k ==> (#[trigger] trace[l]).txs[q].stage != SendStage::Ready,
        trace[k].txs[q].stage == SendStage::Sent,
    ensures
        trace[i].txs[p].seq < trace[k].txs[q].seq < trace[k].claimed.len(),
        trace[k].claimed[trace[i].txs[p].seq as int] == trace[i].given[p],
        trace[k].claimed[trace[k].txs[q].seq as int] == v,
{
    law_a_send_claims_once(trace, j, k, q, v, blocking, me);
    lemma_run(trace, i);
    assert(trace[i].given_inv(p));
    lemma_claims_grow(trace, i, j);
    lemma_claims_grow(trace, i, k);
}

/// A send that has not claimed its sequence number, blocked or not, touches nothing of the
/// others: whatever its access returns, it leaves the ring and the others as they are, but for
/// its name on the producers' list and the flag of that list.
pub proof fn law_unclaimed_sends_touch_nothing<T>(s: System<T>, p: u64, ev: Event)
    requires
        s.reachable(),
        s.txs.contains_key(p),
        s.txs[p].value is Some,
        !s.has_sent(p),
        s.tx_may_see(p, ev),
        s.txs[p].expects(ev),
        ev != Event::Claimed,
    ensures
        s.agrees_but_for(s.tx_access(p, ev), p),
        !s.tx_access(p, ev).has_sent(p),
{
    lemma_reachable(s);
    let t = s.tx_access(p, ev);
    assert(s.tx_inv(p));
    assert(t.m.unparked.skip(s.m.unparked.len() as int) =~= Seq::<u64>::empty());
    assert(t.tokens =~= s.tokens || t.tokens =~= s.tokens.remove(p));
}

impl<T> System<T> {
    /// The two differ in nothing but the handle of producer `p`, which wakes nobody, what its
    /// thread was given and has seen, the producers' list, and who was unparked.
    pub open spec fn agrees_but_for(self, t: System<T>, p: u64) -> bool {
        &&& t == (System {
            m: Memory {
                waiting: t.m.waiting,
                waiters: t.m.waiters,
                unparked: t.m.unparked,
                ..self.m
            },
            txs: self.txs.insert(p, t.txs[p]),
            given: t.given,
            tx_saw_gone: t.tx_saw_gone,
            tokens: t.tokens,
            ..self
        })
        &&& !self.wakes_consumer(p)
        &&& !t.wakes_consumer(p)
        &&& t.given.remove(p) == self.given.remove(p)
        &&& forall|q: u64|
            q != p ==> #[trigger] t.tx_saw_gone.contains(q) == self.tx_saw_gone.contains(q)
    }
}

impl<T> System<T> {
    /// A thread other than that of producer `p` takes a step.
    pub open spec fn steps_without(self, p: u64, s: System<T>) -> bool {
        ||| exists|q: u64, ev: Event| q != p && #[trigger] self.tx_steps(q, ev, s)
        ||| exists|ev: Event| #[trigger] self.rx_steps(ev, s)
        ||| exists|q: u64| q != p && #[trigger] self.tx_calls(q, s)
        ||| exists|q: u64, r: u64|
            q != p && r != p && #[trigger] self.may_clone(q, r) && s == self.tx_clone(q, r)
        ||| self.rx_calls(s)
    }

    /// Producer `p` starts to send, or makes an access of a send that has not claimed its
    /// sequence number and does not claim it now.
    pub open spec fn steps_unclaimed(self, p: u64, s: System<T>) -> bool {
        &&& self.txs.contains_key(p)
        &&& {
            ||| {
                &&& self.txs[p].stage == SendStage::Ready
                &&& exists|v: T, blocking: bool, me: u64|
                    s == #[trigger] self.tx_start(p, v, blocking, me)
            }
            ||| {
                &&& self.txs[p].value is Some
                &&& !self.has_sent(p)
                &&& exists|ev: Event| ev != Event::Claimed && #[trigger] self.tx_steps(p, ev, s)
            }
        }
    }

    /// Steps in which producer `p` takes no part.
    pub open spec fn run_without(run: Seq<System<T>>, p: u64) -> bool {
        &&& run.len() > 0
        &&& forall|i: int|
            0 < i < run.len() ==> run[i - 1].steps_without(p, #[trigger] run[i])
    }

    /// In `t` the consumer, its item in hand, has found the flag of the producers' list raised;
    /// here it has still to look.
    pub open spec fn looks_later(self, t: System<T>) -> bool {
        ||| {
            &&& t.rx.stage == RecvStage::Wake(Rousing::Take)
            &&& self.rx == t.rx.to(RecvStage::Wake(Rousing::Swap))
        }
        ||| {
            &&& t.rx.stage == RecvStage::DrainWake(Rousing::Take)
            &&& self.rx == t.rx.to(RecvStage::DrainWake(Rousing::Swap))
        }
        ||| {
            &&& t.rx.stage == RecvStage::CloseWake(Rousing::Take)
            &&& self.rx == t.rx.to(RecvStage::CloseWake(Rousing::Swap))
        }
    }

    /// The two agree but for producer `p` and the consumer's look at the producers' list.
    pub open spec fn goes_with(self, t: System<T>, p: u64) -> bool {
        &&& (System { rx: t.rx, ..self }).agrees_but_for(t, p)
        &&& self.rx == t.rx || self.looks_later(t)
    }
}

/// A send that is not accepted yet, blocked or not, is as good as not there for the others:
/// whatever the other threads do and get while it lasts, however long that is, they can do and
/// get in the same order though that producer takes no step at all. They end in the same
/// states, with the same sends accepted and the same items returned, over the same ring; only
/// the list of sleeping producers, and so who was unparked, may differ.
pub proof fn law_unclaimed_sends_are_not_seen<T>(trace: Seq<System<T>>, i: int, j: int, p: u64)
    requires
        System::run(trace),
        0 <= i <= j < trace.len(),
        trace[i].txs.contains_key(p),
        trace[i].txs[p].stage == SendStage::Ready,
        forall|k: int|
            i < k <= j ==> trace[k - 1].steps_without(p, #[trigger] trace[k])
                || trace[k - 1].steps_unclaimed(p, trace[k]),
    ensures
        exists|run: Seq<System<T>>|
            {
                &&& #[trigger] System::run_without(run, p)
                &&& run[0] == trace[i]
                &&& run.last().txs[p] == trace[i].txs[p]
                &&& run.last().goes_with(trace[j], p)
            },
{
    let run = lemma_without(trace, i, j, p);
    assert(System::run_without(run, p));
}

proof fn lemma_without<T>(trace: Seq<System<T>>, i: int, j: int, p: u64) -> (run: Seq<System<T>>)
    requires
        System::run(trace),
        0 <= i <= j < trace.len(),
        trace[i].txs.contains_key(p),
        trace[i].txs[p].stage == SendStage::Ready,
        forall|k: int|
            i < k <= j ==> trace[k - 1].steps_without(p, #[trigger] trace[k])
                || trace[k - 1].steps_unclaimed(p, trace[k]),
    ensures
        System::run_without(run, p),
        run[0] == trace[i],
        run.last().txs.contains_key(p),
        run.last().txs[p] == trace[i].txs[p],
        run.last().goes_with(trace[j], p),
    decreases j,
{
    if i == j {
        let s = trace[i];
        assert(s.txs =~= s.txs.insert(p, s.txs[p]));
        seq![s]
    } else {
        let run = lemma_without(trace, i, j - 1, p);
        let s = run.last();
        let t = trace[j - 1];
        let t2 = trace[j];
        if t.steps_unclaimed(p, t2) {
            lemma_reaches(trace, j - 1);
            lemma_unclaimed_goes_with(s, t, t2, p);
            run
        } else {
            let more = lemma_step_goes_with(s, t, t2, p);
            lemma_longer(run, more, p)
        }
    }
}

/// The run goes on with `more`, which begins where it ends.
proof fn lemma_longer<T>(run: Seq<System<T>>, more: Seq<System<T>>, p: u64) -> (longer: Seq<
    System<T>,
>)
    requires
        System::run_without(run, p),
        System::run_without(more, p),
        more[0] == run.last(),
    ensures
        System::run_without(longer, p),
        longer[0] == run[0],
        longer.last() == more.last(),
{
    let longer = run + more.skip(1);
    assert forall|k: int| 0 < k < longer.len() implies longer[k - 1].steps_without(
        p,
        #[trigger] longer[k],
    ) by {
        if k < run.len() {
            assert(run[k - 1].steps_without(p, run[k]));
        } else {
            let l = k - run.len() + 1;
            assert(more[l - 1].steps_without(p, more[l]));
        }
    }
    longer
}

proof fn lemma_reaches<T>(trace: Seq<System<T>>, i: int)
    requires
        System::run(trace),
        0 <= i < trace.len(),
    ensures
        trace[i].reachable(),
{
    let part = trace.take(i + 1);
    assert(part[0] == trace[0]);
    assert forall|k: int| 0 < k < part.len() implies #[trigger] System::steps_to(part, k) by {
        assert(System::steps_to(trace, k));
    }
    assert(System::run(part));
    assert(part.last() == trace[i]);
}

/// What the blocked producer does is not seen.
proof fn lemma_unclaimed_goes_with<T>(s: System<T>, t: System<T>, t2: System<T>, p: u64)
    requires
        s.goes_with(t, p),
        t.reachable(),
        t.steps_unclaimed(p, t2),
    ensures
        s.goes_with(t2, p),
{
    let s1 = System { rx: t.rx, ..s };
    if t.txs[p].stage == SendStage::Ready && exists|v: T, blocking: bool, me: u64|
        t2 == #[trigger] t.tx_start(p, v, blocking, me) {
        assert(t2.txs =~= s1.txs.insert(p, t2.txs[p]));
        assert(t2.given.remove(p) =~= t.given.remove(p));
        assert(s1.agrees_but_for(t2, p));
    } else {
        let ev = choose|ev: Event| ev != Event::Claimed && #[trigger] t.tx_steps(p, ev, t2);
        law_unclaimed_sends_touch_nothing(t, p, ev);
        assert(t2.txs =~= s1.txs.insert(p, t2.txs[p]));
        assert(s1.agrees_but_for(t2, p));
    }
}

/// What another thread does in `t` it can do in `s`.
proof fn lemma_step_goes_with<T>(s: System<T>, t: System<T>, t2: System<T>, p: u64) -> (run: Seq<
    System<T>,
>)
    requires
        s.txs.contains_key(p),
        s.goes_with(t, p),
        t.steps_without(p, t2),
    ensures
        System::run_without(run, p),
        run[0] == s,
        run.last().txs.contains_key(p),
        run.last().txs[p] == s.txs[p],
        run.last().goes_with(t2, p),
{
    if exists|q: u64, ev: Event| q != p && #[trigger] t.tx_steps(q, ev, t2) {
        let (q, ev) = choose|q: u64, ev: Event| q != p && #[trigger] t.tx_steps(q, ev, t2);
        lemma_tx_goes_with(s, t, q, ev, p);
        seq![s, s.tx_access(q, ev)]
    } else if exists|ev: Event| #[trigger] t.rx_steps(ev, t2) {
        let ev = choose|ev: Event| #[trigger] t.rx_steps(ev, t2);
        lemma_rx_goes_with(s, t, ev, p)
    } else if exists|q: u64| q != p && #[trigger] t.tx_calls(q, t2) {
        let q = choose|q: u64| q != p && #[trigger] t.tx_calls(q, t2);
        let s2 = lemma_tx_calls_with(s, t, t2, q, p);
        seq![s, s2]
    } else if exists|q: u64, r: u64|
        q != p && r != p && #[trigger] t.may_clone(q, r) && t2 == t.tx_clone(q, r) {
        let (q, r) = choose|q: u64, r: u64|
            q != p && r != p && #[trigger] t.may_clone(q, r) && t2 == t.tx_clone(q, r);
        let s2 = s.tx_clone(q, r);
        assert(s.may_clone(q, r));
        assert(t2.txs =~= s2.txs.insert(p, t2.txs[p]));
        assert(s2.goes_with(t2, p));
        seq![s, s2]
    } else {
        let s2 = lemma_rx_calls_with(s, t, t2, p);
        seq![s, s2]
    }
}

/// The flags of others who wake the consumer agree.
proof fn lemma_same_wakers<T>(s: System<T>, t: System<T>, p: u64)
    requires
        s.goes_with(t, p),
    ensures
        t.someone_wakes_consumer() == s.someone_wakes_consumer(),
{
    assert(forall|r: u64| #[trigger] t.wakes_consumer(r) == s.wakes_consumer(r));
    if s.someone_wakes_consumer() {
        let r = choose|r: u64| s.wakes_consumer(r);
        assert(t.wakes_consumer(r));
    }
    if t.someone_wakes_consumer() {
        let r = choose|r: u64| t.wakes_consumer(r);
        assert(s.wakes_consumer(r));
    }
}

proof fn lemma_tx_goes_with<T>(s: System<T>, t: System<T>, q: u64, ev: Event, p: u64)
    requires
        s.goes_with(t, p),
        t.tx_steps(q, ev, t.tx_access(q, ev)),
        q != p,
    ensures
        s.steps_without(p, s.tx_access(q, ev)),
        s.tx_access(q, ev).goes_with(t.tx_access(q, ev), p),
{
    let s2 = s.tx_access(q, ev);
    let t2 = t.tx_access(q, ev);
    assert(s.txs[q] == t.txs[q]);
    assert(s.tx_may_see(q, ev));
    assert(s.tx_steps(q, ev, s2));
    assert(t2.txs =~= s2.txs.insert(p, t2.txs[p]));
}

/// The consumer's access, but for those of its wake of the producers.
#[verifier::rlimit(50)]
proof fn lemma_rx_lockstep<T>(s: System<T>, t: System<T>, ev: Event, p: u64)
    requires
        s.agrees_but_for(t, p),
        t.rx.asks() != crate::mpsc::RecvAction::SwapWaiting,
    ensures
        s.rx_access(ev).agrees_but_for(t.rx_access(ev), p),
{
    let s2 = s.rx_access(ev);
    let t2 = t.rx_access(ev);
    assert(t.rx == s.rx);
    assert(t.m.at(s.rx.head as int) == s.m.at(s.rx.head as int));
    assert(t2.rx == s2.rx);
    assert(t2.m == (Memory {
        waiting: t2.m.waiting,
        waiters: t2.m.waiters,
        unparked: t2.m.unparked,
        ..s2.m
    }));
    assert(t2.txs == s2.txs.insert(p, t2.txs[p]));
}

/// The consumer is done with its wake of the producers: here it looks at the flag only now,
/// and wakes those on the list if it is raised.
proof fn lemma_rx_woke<T>(s: System<T>, t2: System<T>, p: u64) -> (run: Seq<System<T>>)
    requires
        s.txs.contains_key(p),
        s.rx.asks() == crate::mpsc::RecvAction::SwapWaiting,
        s.rx_access(Event::Flag(false)).agrees_but_for(t2, p),
    ensures
        System::run_without(run, p),
        run[0] == s,
        run.last().txs.contains_key(p),
        run.last().txs[p] == s.txs[p],
        run.last().goes_with(t2, p),
{
    let flag = Event::Flag(s.m.waiting);
    let s2 = s.rx_access(flag);
    assert(s.rx_steps(flag, s2));
    if s.m.waiting {
        let s3 = s2.rx_access(Event::Done);
        assert(s2.rx_steps(Event::Done, s3));
        assert(s3.rx == s.rx_access(Event::Flag(false)).rx);
        assert(s3.agrees_but_for(t2, p));
        seq![s, s2, s3]
    } else {
        seq![s, s2]
    }
}

proof fn lemma_rx_goes_with<T>(s: System<T>, t: System<T>, ev: Event, p: u64) -> (run: Seq<
    System<T>,
>)
    requires
        s.txs.contains_key(p),
        s.goes_with(t, p),
        t.rx_steps(ev, t.rx_access(ev)),
    ensures
        System::run_without(run, p),
        run[0] == s,
        run.last().txs.contains_key(p),
        run.last().txs[p] == s.txs[p],
        run.last().goes_with(t.rx_access(ev), p),
{
    let t2 = t.rx_access(ev);
    let s1 = System { rx: t.rx, ..s };
    if s.rx != t.rx {
        lemma_rx_lockstep(s1, t, ev, p);
        lemma_rx_late(s, s1, t2, p);
        lemma_rx_woke(s, t2, p)
    } else if t.rx.asks() == crate::mpsc::RecvAction::SwapWaiting {
        if ev == Event::Flag(true) {
            assert((System { rx: t2.rx, ..s }).agrees_but_for(t2, p));
            assert(s.goes_with(t2, p));
            seq![s]
        } else {
            assert(s.rx_access(Event::Flag(false)).agrees_but_for(t2, p));
            lemma_rx_woke(s, t2, p)
        }
    } else {
        let s2 = s.rx_access(ev);
        lemma_same_wakers(s, t, p);
        assert(t.m.mark_at(s.rx.head as int) == s.m.mark_at(s.rx.head as int));
        assert(s1 == s);
        lemma_rx_lockstep(s, t, ev, p);
        assert(s.rx_may_see(ev));
        assert(s.rx_steps(ev, s2));
        seq![s, s2]
    }
}

/// Whether the consumer takes the list or finds the flag lowered, it is then at the same stage.
proof fn lemma_rx_late<T>(s: System<T>, s1: System<T>, t2: System<T>, p: u64)
    requires
        s.looks_later(s1),
        s1 == (System { rx: s1.rx, ..s }),
        s1.rx_access(Event::Done).agrees_but_for(t2, p),
    ensures
        s.rx.asks() == crate::mpsc::RecvAction::SwapWaiting,
        s.rx_access(Event::Flag(false)).agrees_but_for(t2, p),
{
    let s2 = s.rx_access(Event::Flag(false));
    let s3 = s1.rx_access(Event::Done);
    assert(s2.rx == s3.rx);
    assert(s2.txs == s3.txs);
}

proof fn lemma_tx_calls_with<T>(
    s: System<T>,
    t: System<T>,
    t2: System<T>,
    q: u64,
    p: u64,
) -> (s2: System<T>)
    requires
        s.txs.contains_key(p),
        s.goes_with(t, p),
        t.tx_calls(q, t2),
        q != p,
    ensures
        s.steps_without(p, s2),
        s2.txs.contains_key(p),
        s2.txs[p] == s.txs[p],
        s2.goes_with(t2, p),
{
    let tx = s.txs[q];
    assert(tx == t.txs[q]);
    let s2 = if tx.stage == SendStage::Ready && exists|v: T, blocking: bool, me: u64|
        (blocking ==> me == q) && t2 == #[trigger] t.tx_start(q, v, blocking, me) {
        let (v, blocking, me) = choose|v: T, blocking: bool, me: u64|
            (blocking ==> me == q) && t2 == #[trigger] t.tx_start(q, v, blocking, me);
        let s2 = s.tx_start(q, v, blocking, me);
        assert(s.tx_calls(q, s2));
        assert(t2.given.remove(p) =~= t.given.remove(p).insert(q, v));
        assert(s2.given.remove(p) =~= s.given.remove(p).insert(q, v));
        s2
    } else if tx.stage == SendStage::Ready {
        let s2 = System { txs: s.txs.insert(q, tx.to(SendStage::Close)), ..s };
        assert(s.tx_calls(q, s2));
        s2
    } else {
        let s2 = s.tx_finish(q);
        assert(s.given.remove(p)[q] == t.given.remove(p)[q]);
        assert(s.given[q] == t.given[q]);
        assert(s.tx_calls(q, s2));
        s2
    };
    assert(t2.txs =~= s2.txs.insert(p, t2.txs[p]));
    s2
}

proof fn lemma_rx_calls_with<T>(s: System<T>, t: System<T>, t2: System<T>, p: u64) -> (s2: System<
    T,
>)
    requires
        s.txs.contains_key(p),
        s.goes_with(t, p),
        t.rx_calls(t2),
    ensures
        s.steps_without(p, s2),
        s2.txs.contains_key(p),
        s2.txs[p] == s.txs[p],
        s2.goes_with(t2, p),
{
    assert(s.rx == t.rx);
    let s2 = System { rx: t2.rx, returned: t2.returned, ..s };
    assert(s.rx_calls(s2));
    s2
}

/// No wake-up of the consumer is lost: while it sleeps and the next item is published or no
/// sender is left, its name is there, some producer is in the middle of waking it, and either
/// the flag is still raised for that producer to see or one is about to take the name.
pub proof fn law_sleeping_consumer_is_woken<T>(s: System<T>)
    requires
        s.reachable(),
        s.consumer_asleep(),
        s.m.published(s.rx.head as int) || s.m.senders == 0,
    ensures
        s.someone_wakes_consumer(),
        s.m.consumer.parked || exists|p: u64| s.takes_consumer(p),
        s.m.consumer.slot == Some(s.rx_name),
{
    lemma_reachable(s);
}

/// No wake-up of a producer is lost: while it sleeps, its name is on the list, and the flag is
/// raised or the consumer is about to take the names. And while there is room or no receiver any
/// more, the consumer is in the middle of waking the producers. The one exception is room that a
/// batch left that was cut short: for that the producers are woken with the next item that is
/// taken out, or when the receiver is dropped.
pub proof fn law_sleeping_producer_is_woken<T>(s: System<T>, p: u64)
    requires
        s.reachable(),
        s.producer_asleep(p),
    ensures
        s.takes_producers() || s.m.waiting,
        s.m.waiters.contains(p),
        (!s.m.full() && !s.unwoken) || s.m.rx_dropped ==> s.wakes_producers(),
        s.wakes_producers() ==> !s.unwoken,
{
    lemma_reachable(s);
    assert(s.tx_inv(p));
    assert(s.txs[p].stage == SendStage::Park);
    assert(s.producer_inv(p));
}

/// When all handles are gone, the ring holds exactly the items that were sent and not taken
/// out, each once: those are the items that go down with it.
pub proof fn law_rest_goes_down_with_the_ring<T>(s: System<T>)
    requires
        s.reachable(),
        s.m.senders == 0,
        s.rx.stage == RecvStage::Gone,
    ensures
        s.m.wf(),
        s.claimed == s.received + s.m.contents(),
{
    lemma_reachable(s);
    crate::index::lemma_cap_positive(s.m.cap as int);
    assert forall|seq: int| s.m.head <= seq < s.m.claim implies (#[trigger] s.m.at(seq)) == Some(
        s.claimed[seq],
    ) && s.m.published(seq) by {
        assert(s.claimed_inv(seq));
        if !s.m.published(seq) {
            let q = choose|q: u64| #[trigger] s.has_claimed(q, seq);
            assert(s.counted().contains(q));
        }
    }
    assert forall|seq: int| s.m.claim <= seq < s.m.head + s.m.cap implies (#[trigger] s.m.at(
        seq,
    )) is None by {
        assert(s.free_inv(seq));
    }
    assert forall|seq: int|
        s.m.claim <= seq < s.m.head + s.m.cap && seq <= usize::MAX implies (#[trigger] s.m.mark_at(
        seq,
    )) == crate::mpsc::old_mark(seq, s.m.cap as int) by {
        assert(s.free_inv(seq));
    }
    assert forall|seq: int| s.m.head <= seq < s.m.claim implies s.m.contents()[seq - s.m.head]
        == s.claimed[seq] by {
        assert(s.m.at(seq) == Some(s.claimed[seq]));
    }
    assert(s.claimed =~= s.received + s.m.contents());
}

} // verus!
