//! Bounded ring with several producers and one consumer.
//!
//! A producer claims the next sequence number with a compare-and-swap, and only after it has
//! seen that `seq - head < cap`: so a claimed slot is free, a failed attempt claims nothing,
//! and a blocked producer holds nothing. It then writes the slot and publishes it by storing
//! `seq / cap` as the slot's mark (-1 until the first time). The consumer takes the
//! published items in the order of their sequence numbers and stores the head.
//!
//! A handle is the local state of its side and a machine: [`Sender::action`] says which
//! access to the shared memory comes next, and [`Sender::advance`] takes what the access
//! returned. So the accesses can be made on any memory. [`Shared`] is such a memory, for
//! use from one thread, and [`Sender::try_send`], [`Sender::send`],
//! [`Receiver::try_recv`], [`Receiver::recv`] and [`Receiver::drain`] run whole operations
//! on it. What holds when the accesses of all threads mix in any order is proved in
//! [`interleave`]; what the accesses, the waits and the whole operations are good for is stated
//! in [`laws`].

use vstd::prelude::*;

use crate::atomic::UnsafeCell;
use crate::index::slot_of;
use crate::notify::{Parker, Rousing, WaiterList, Waking};
use crate::wait::WaitStrategy;
use crate::{TryRecvError, TrySendError};

pub mod interleave;
pub mod laws;
mod receiver;
mod sender;

pub use receiver::{Receiver, RecvAction, RecvStage};
pub use sender::{SendAction, SendStage, Sender};

verus! {

/// What an access to the shared memory returned.
#[derive(Debug, Clone, Copy, PartialEq, Eq, Hash)]
pub enum Event {
    /// A flag was read.
    Flag(bool),
    /// An index was read, or a count.
    Index(usize),
    /// The mark of a slot was read.
    Mark(i64),
    /// A compare-and-swap succeeded.
    Claimed,
    /// A compare-and-swap failed and found this.
    Lost(usize),
    /// Something was written or performed.
    Done,
}

/// The mark of a slot that nothing was published in yet.
pub const NEVER: i64 = -1;

/// The mark of a slot that holds the item with sequence number `seq`.
pub open spec fn mark(seq: int, cap: int) -> i64 {
    (crate::index::round(seq, cap) as usize) as i64
}

/// The mark of the slot of `seq` before that item: the one of the item that was in it the
/// round before, or none.
pub open spec fn old_mark(seq: int, cap: int) -> i64 {
    if seq < cap {
        NEVER
    } else {
        mark(seq - cap, cap)
    }
}

/// The mark of a slot that holds the item with sequence number `seq`.
pub fn mark_of(seq: usize, cap: usize) -> (m: i64)
    requires
        cap > 0,
    ensures
        m == mark(seq as int, cap as int),
{
    (seq / cap) as i64
}

/// One round on from `seq`.
proof fn lemma_next_round(seq: int, cap: int)
    requires
        cap > 0,
        seq >= 0,
    ensures
        crate::index::round(seq + cap, cap) == crate::index::round(seq, cap) + 1,
        crate::index::slot(seq + cap, cap) == crate::index::slot(seq, cap),
        0 <= crate::index::round(seq, cap) <= seq,
{
    vstd::arithmetic::div_mod::lemma_div_plus_one(seq, cap);
    vstd::arithmetic::div_mod::lemma_mod_add_multiples_vanish(seq, cap);
    vstd::arithmetic::div_mod::lemma_div_pos_is_pos(seq, cap);
    vstd::arithmetic::div_mod::lemma_div_nonincreasing(seq, cap);
}

/// Different rounds have different marks, and only the last number of all shares the mark of
/// a slot that was never used.
proof fn lemma_marks(a: usize, b: usize)
    ensures
        a as i64 == b as i64 ==> a == b,
        a as i64 == NEVER ==> a == usize::MAX,
{
    assert(a as i64 == b as i64 ==> a == b) by (bit_vector);
    assert(a as i64 == -1i64 ==> a == 0xffff_ffff_ffff_ffffu64) by (bit_vector);
}

/// A slot's mark tells an item from the one that was in the slot the round before.
pub proof fn lemma_old_mark_differs(seq: int, cap: int)
    requires
        0 < cap <= usize::MAX,
        0 <= seq <= usize::MAX,
    ensures
        old_mark(seq, cap) != mark(seq, cap),
{
    let r = crate::index::round(seq, cap) as usize;
    lemma_next_round(seq, cap);
    if seq < cap {
        vstd::arithmetic::div_mod::lemma_basic_div(seq, cap);
        lemma_marks(r, r);
    } else {
        lemma_next_round(seq - cap, cap);
        lemma_marks(r, (r - 1) as usize);
    }
}

/// The first index that is too far ahead of head `head`, as far as an index can tell.
pub open spec fn limit(head: usize, cap: usize) -> usize {
    if head + cap > usize::MAX {
        usize::MAX
    } else {
        (head + cap) as usize
    }
}

// ---------------------------------------------------------------------------
// The shared memory
// ---------------------------------------------------------------------------

/// What the shared memory of a ring holds.
#[verifier::ext_equal]
pub struct Memory<T> {
    /// The slots; an item is in its slot from the write until the read.
    pub slots: Seq<Option<T>>,
    /// The marks of the slots.
    pub avail: Seq<i64>,
    /// The number of slots.
    pub cap: usize,
    /// The next sequence number to claim.
    pub claim: usize,
    /// How many items were popped.
    pub head: usize,
    /// How many producer handles there are.
    pub senders: usize,
    /// The consumer handle is gone.
    pub rx_dropped: bool,
    /// How blocked sides wait.
    pub strategy: WaitStrategy,
    /// Where the consumer waits.
    pub consumer: Parker,
    /// A producer has announced that it is going to sleep.
    pub waiting: bool,
    /// The names that producers have left.
    pub waiters: Seq<u64>,
    /// The threads that were unparked, in order.
    pub unparked: Seq<u64>,
}

impl<T> Memory<T> {
    /// The slot of sequence number `seq`.
    pub open spec fn at(self, seq: int) -> Option<T> {
        self.slots[crate::index::slot(seq, self.cap as int)]
    }

    /// The mark of the slot of sequence number `seq`.
    pub open spec fn mark_at(self, seq: int) -> i64 {
        self.avail[crate::index::slot(seq, self.cap as int)]
    }

    /// The item with sequence number `seq` is published.
    pub open spec fn published(self, seq: int) -> bool {
        self.mark_at(seq) == mark(seq, self.cap as int)
    }

    /// The memory with `x` in the slot of `seq`.
    pub open spec fn put(self, seq: int, x: Option<T>) -> Memory<T> {
        Memory {
            slots: self.slots.update(crate::index::slot(seq, self.cap as int), x),
            ..self
        }
    }

    /// The memory after `seq` was published.
    pub open spec fn publish(self, seq: int) -> Memory<T> {
        Memory {
            avail: self.avail.update(
                crate::index::slot(seq, self.cap as int),
                mark(seq, self.cap as int),
            ),
            ..self
        }
    }

    /// The numbers of slots and marks are right.
    pub open spec fn sized(self) -> bool {
        &&& crate::index::is_cap(self.cap as int)
        &&& self.slots.len() == self.cap
        &&& self.avail.len() == self.cap
    }

    /// Of the `cap` sequence numbers from `lo` on, those below `hi` are published and have an
    /// item in their slot, and the others are not and have none.
    pub open spec fn holds(self, lo: int, hi: int) -> bool {
        &&& self.sized()
        &&& 0 <= lo <= hi <= lo + self.cap
        &&& hi <= usize::MAX
        &&& forall|seq: int|
            lo <= seq < hi ==> (#[trigger] self.at(seq)) is Some && self.published(seq)
        &&& forall|seq: int| hi <= seq < lo + self.cap ==> (#[trigger] self.at(seq)) is None
        &&& forall|seq: int|
            hi <= seq < lo + self.cap && seq <= usize::MAX ==> (#[trigger] self.mark_at(seq))
                == old_mark(seq, self.cap as int)
    }

    /// No operation is under way: the slots hold what was pushed and not popped.
    pub open spec fn wf(self) -> bool {
        self.holds(self.head as int, self.claim as int)
    }

    /// The items that were pushed and not popped, oldest first.
    pub open spec fn contents(self) -> Seq<T> {
        Seq::new((self.claim - self.head) as nat, |i: int| self.at(self.head + i)->0)
    }

    /// As many items are in the ring as it has slots (or no sequence number is left).
    pub open spec fn full(self) -> bool {
        self.claim >= limit(self.head, self.cap)
    }

    /// The memory after `v` was pushed.
    pub open spec fn pushed(self, v: T) -> Memory<T> {
        Memory {
            claim: (self.claim + 1) as usize,
            ..self.put(self.claim as int, Some(v)).publish(self.claim as int)
        }
    }

    /// The memory after the oldest item was popped.
    pub open spec fn popped(self) -> Memory<T> {
        Memory { head: (self.head + 1) as usize, ..self.put(self.head as int, None) }
    }

    /// The memory after one part of a wake of the consumer.
    pub open spec fn waking(self, w: Waking) -> Memory<T> {
        let p = self.consumer;
        match w {
            Waking::Load => self,
            Waking::Clear => Memory { consumer: Parker { parked: false, ..p }, ..self },
            Waking::Take => {
                let m = Memory { consumer: Parker { slot: None, ..p }, ..self };
                match p.slot {
                    Some(t) => Memory { unparked: m.unparked.push(t), ..m },
                    None => m,
                }
            },
        }
    }

    /// The memory after a whole wake of the consumer.
    pub open spec fn consumer_woken(self) -> Memory<T> {
        if self.consumer.parked {
            self.waking(Waking::Clear).waking(Waking::Take)
        } else {
            self
        }
    }

    /// The memory after one part of a wake of the producers.
    pub open spec fn rousing(self, r: Rousing) -> Memory<T> {
        match r {
            Rousing::Swap => Memory { waiting: false, ..self },
            Rousing::Take => Memory {
                waiters: Seq::empty(),
                unparked: self.unparked + self.waiters,
                ..self
            },
        }
    }

    /// The memory after a whole wake of the producers.
    pub open spec fn producers_woken(self) -> Memory<T> {
        if self.waiting {
            self.rousing(Rousing::Swap).rousing(Rousing::Take)
        } else {
            self
        }
    }

    /// The memory after a producer told the consumer: with `Park` it wakes it, and with the
    /// other strategies it does nothing.
    pub open spec fn consumer_notified(self) -> Memory<T> {
        if self.strategy == WaitStrategy::Park {
            self.consumer_woken()
        } else {
            self
        }
    }

    /// The memory after the consumer told the producers.
    pub open spec fn producers_notified(self) -> Memory<T> {
        if self.strategy == WaitStrategy::Park {
            self.producers_woken()
        } else {
            self
        }
    }

    /// The memory after the consumer `me` announced that it is going to sleep.
    pub open spec fn consumer_prepared(self, me: u64) -> Memory<T> {
        Memory { consumer: Parker { parked: true, slot: Some(me) }, ..self }
    }

    /// The memory after the producer `me` announced that it is going to sleep.
    pub open spec fn producer_prepared(self, me: u64) -> Memory<T> {
        Memory { waiting: true, waiters: self.waiters.push(me), ..self }
    }
}

/// Emptying the slot of the oldest item leaves the others.
pub proof fn lemma_taken<T>(m: Memory<T>, lo: int, hi: int)
    requires
        m.holds(lo, hi),
        lo < hi,
    ensures
        m.put(lo, None).holds(lo + 1, hi),
        forall|seq: int| lo < seq < hi ==> (#[trigger] m.put(lo, None).at(seq)) == m.at(seq),
{
    let cap = m.cap as int;
    let m2 = m.put(lo, None);
    crate::index::lemma_cap_positive(cap);
    crate::index::lemma_slot_bound(lo, cap);
    assert forall|seq: int| lo < seq < lo + cap implies #[trigger] m2.at(seq) == m.at(seq) by {
        crate::index::lemma_slot_bound(seq, cap);
        crate::index::lemma_slots_differ(lo, seq, cap);
    }
    assert(forall|seq: int| #[trigger] m2.mark_at(seq) == m.mark_at(seq));
    lemma_next_round(lo, cap);
    assert(m2.at(lo + cap) is None);
    assert(m.at(lo) is Some);
    assert(m2.mark_at(lo + cap) == m.mark_at(lo));
    assert forall|seq: int| lo + 1 <= seq < hi implies (#[trigger] m2.at(seq)) is Some
        && m2.published(seq) by {
        assert(m.at(seq) is Some);
    }
}

/// Filling and publishing the slot after the newest item leaves the others.
pub proof fn lemma_filled<T>(m: Memory<T>, lo: int, hi: int, v: T)
    requires
        m.holds(lo, hi),
        hi < lo + m.cap,
        hi < usize::MAX,
    ensures
        m.put(hi, Some(v)).publish(hi).holds(lo, hi + 1),
        m.put(hi, Some(v)).publish(hi).at(hi) == Some(v),
        forall|seq: int|
            lo <= seq < hi ==> (#[trigger] m.put(hi, Some(v)).publish(hi).at(seq)) == m.at(seq),
{
    let cap = m.cap as int;
    let m2 = m.put(hi, Some(v)).publish(hi);
    crate::index::lemma_cap_positive(cap);
    crate::index::lemma_slot_bound(hi, cap);
    assert forall|seq: int| lo <= seq < lo + cap && seq != hi implies #[trigger] m2.at(seq)
        == m.at(seq) && m2.mark_at(seq) == m.mark_at(seq) by {
        crate::index::lemma_slot_bound(seq, cap);
        if seq < hi {
            crate::index::lemma_slots_differ(seq, hi, cap);
        } else {
            crate::index::lemma_slots_differ(hi, seq, cap);
        }
    }
    assert forall|seq: int| lo <= seq < hi + 1 implies (#[trigger] m2.at(seq)) is Some
        && m2.published(seq) by {
        if seq < hi {
            assert(m.at(seq) is Some);
        }
    }
    assert forall|seq: int|
        hi + 1 <= seq < lo + m2.cap && seq <= usize::MAX implies (#[trigger] m2.mark_at(seq))
        == old_mark(seq, cap) by {
        assert(m2.at(seq) == m.at(seq));
    }
}

/// Pushing appends to the contents.
pub proof fn lemma_pushed<T>(m: Memory<T>, v: T)
    requires
        m.wf(),
        !m.full(),
    ensures
        m.pushed(v).wf(),
        m.pushed(v).contents() == m.contents().push(v),
{
    let m1 = m.put(m.claim as int, Some(v)).publish(m.claim as int);
    let m2 = m.pushed(v);
    lemma_filled(m, m.head as int, m.claim as int, v);
    assert(forall|seq: int| #[trigger] m2.at(seq) == m1.at(seq));
    assert(forall|seq: int| #[trigger] m2.mark_at(seq) == m1.mark_at(seq));
    assert(m2.contents() =~= m.contents().push(v));
}

/// Popping takes the first of the contents away.
pub proof fn lemma_popped<T>(m: Memory<T>)
    requires
        m.wf(),
        m.contents().len() > 0,
    ensures
        m.at(m.head as int) == Some(m.contents()[0]),
        m.popped().wf(),
        m.popped().contents() == m.contents().drop_first(),
{
    let m1 = m.put(m.head as int, None);
    let m2 = m.popped();
    assert(m.at(m.head as int) is Some);
    lemma_taken(m, m.head as int, m.claim as int);
    assert(forall|seq: int| #[trigger] m2.at(seq) == m1.at(seq));
    assert(forall|seq: int| #[trigger] m2.mark_at(seq) == m1.mark_at(seq));
    assert(m2.contents() =~= m.contents().drop_first());
}

/// What is in the ring depends on the slots, the marks and the two indices alone.
pub proof fn lemma_same_ring<T>(m: Memory<T>, m2: Memory<T>)
    requires
        m2.slots == m.slots,
        m2.avail == m.avail,
        m2.cap == m.cap,
        m2.head == m.head,
        m2.claim == m.claim,
    ensures
        m.wf() ==> m2.wf(),
        m2.contents() == m.contents(),
{
    assert(forall|seq: int| #[trigger] m2.at(seq) == m.at(seq));
    assert(forall|seq: int| #[trigger] m2.mark_at(seq) == m.mark_at(seq));
    assert(m2.contents() =~= m.contents());
}

/// At rest the consumer finds its next item published exactly if there is one.
pub proof fn lemma_first_published<T>(m: Memory<T>)
    requires
        m.wf(),
    ensures
        m.published(m.head as int) <==> m.contents().len() > 0,
        m.published(m.head as int) ==> m.head < usize::MAX,
{
    crate::index::lemma_cap_positive(m.cap as int);
    if m.head < m.claim {
        assert(m.at(m.head as int) is Some);
    } else {
        assert(m.mark_at(m.head as int) == old_mark(m.head as int, m.cap as int));
        lemma_old_mark_differs(m.head as int, m.cap as int);
    }
}

/// What the results of calls depend on.
#[verifier::ext_equal]
pub struct Seen<T> {
    pub contents: Seq<T>,
    pub cap: usize,
    pub claim: usize,
    pub senders: usize,
    pub rx_dropped: bool,
}

/// A call on a ring that no other operation is under way on.
pub enum Call<T> {
    TrySend(T),
    TryRecv,
    Drain(usize),
    Clone,
    DropSender,
    DropReceiver,
    /// A blocking send looks at the full ring, and goes on waiting.
    Wait,
}

/// What a call returns.
#[verifier::ext_equal]
pub enum Reply<T> {
    Sent(Result<(), TrySendError<T>>),
    Got(Result<T, TryRecvError>),
    Drained(Seq<T>),
    Done,
}

impl<T> Memory<T> {
    /// What the results of calls depend on.
    pub open spec fn seen(self) -> Seen<T> {
        Seen {
            contents: self.contents(),
            cap: self.cap,
            claim: self.claim,
            senders: self.senders,
            rx_dropped: self.rx_dropped,
        }
    }
}

impl<T> Seen<T> {
    /// There is no room.
    pub open spec fn full(self) -> bool {
        self.contents.len() >= self.cap || self.claim == usize::MAX
    }

    /// A send finds room and a receiver.
    pub open spec fn accepts(self) -> bool {
        !self.rx_dropped && !self.full()
    }

    /// How many items a batch of up to `max` has.
    pub open spec fn batch(self, max: usize) -> int {
        if max < self.contents.len() {
            max as int
        } else {
            self.contents.len() as int
        }
    }

    /// What a call returns.
    pub open spec fn reply(self, call: Call<T>) -> Reply<T> {
        match call {
            Call::TrySend(v) => Reply::Sent(
                if self.rx_dropped {
                    Err(TrySendError::Disconnected(v))
                } else if self.full() {
                    Err(TrySendError::Full(v))
                } else {
                    Ok(())
                },
            ),
            Call::TryRecv => Reply::Got(
                if self.contents.len() > 0 {
                    Ok(self.contents[0])
                } else if self.senders == 0 {
                    Err(TryRecvError::Disconnected)
                } else {
                    Err(TryRecvError::Empty)
                },
            ),
            Call::Drain(max) => Reply::Drained(self.contents.take(self.batch(max))),
            _ => Reply::Done,
        }
    }

    /// What a call leaves.
    pub open spec fn after(self, call: Call<T>) -> Seen<T> {
        match call {
            Call::TrySend(v) => if self.accepts() {
                Seen {
                    contents: self.contents.push(v),
                    claim: (self.claim + 1) as usize,
                    ..self
                }
            } else {
                self
            },
            Call::TryRecv => if self.contents.len() > 0 {
                Seen { contents: self.contents.drop_first(), ..self }
            } else {
                self
            },
            Call::Drain(max) => Seen { contents: self.contents.skip(self.batch(max)), ..self },
            Call::Clone => Seen { senders: (self.senders + 1) as usize, ..self },
            Call::DropSender => Seen { senders: (self.senders - 1) as usize, ..self },
            Call::DropReceiver => Seen { rx_dropped: true, ..self },
            Call::Wait => self,
        }
    }

    /// What a number of calls leave.
    pub open spec fn after_all(self, calls: Seq<Call<T>>) -> Seen<T>
        decreases calls.len(),
    {
        if calls.len() == 0 {
            self
        } else {
            self.after_all(calls.drop_last()).after(calls.last())
        }
    }

    /// What a number of calls return; a blocking send that goes on waiting returns nothing.
    pub open spec fn replies(self, calls: Seq<Call<T>>) -> Seq<Reply<T>>
        decreases calls.len(),
    {
        if calls.len() == 0 {
            Seq::empty()
        } else if calls.last() is Wait {
            self.replies(calls.drop_last())
        } else {
            self.replies(calls.drop_last()).push(
                self.after_all(calls.drop_last()).reply(calls.last()),
            )
        }
    }
}

/// The calls without those of a blocking send that goes on waiting.
pub open spec fn without_waits<T>(calls: Seq<Call<T>>) -> Seq<Call<T>>
    decreases calls.len(),
{
    if calls.len() == 0 {
        calls
    } else if calls.last() is Wait {
        without_waits(calls.drop_last())
    } else {
        without_waits(calls.drop_last()).push(calls.last())
    }
}

/// A send that is blocked is as good as not there for the other handles, until it is accepted:
/// however often it looks in between, all other calls return what they would return without
/// it, and leave what they would leave.
pub proof fn law_blocked_sends_are_not_seen<T>(seen: Seen<T>, calls: Seq<Call<T>>)
    ensures
        seen.replies(calls) == seen.replies(without_waits(calls)),
        seen.after_all(calls) == seen.after_all(without_waits(calls)),
    decreases calls.len(),
{
    if calls.len() > 0 {
        let before = calls.drop_last();
        law_blocked_sends_are_not_seen(seen, before);
        if !(calls.last() is Wait) {
            let fewer = without_waits(before).push(calls.last());
            assert(fewer.drop_last() =~= without_waits(before));
        }
    }
}

/// A number of receives.
pub open spec fn receives<T>(k: nat) -> Seq<Call<T>> {
    Seq::new(k, |i: int| Call::TryRecv)
}

/// What receives return and leave while there are items.
proof fn lemma_receives<T>(seen: Seen<T>, k: nat)
    requires
        k <= seen.contents.len(),
    ensures
        seen.after_all(receives(k)) == (Seen { contents: seen.contents.skip(k as int), ..seen }),
        seen.replies(receives(k)) == Seq::new(
            k,
            |i: int| Reply::Got(Ok::<T, TryRecvError>(seen.contents[i])),
        ),
    decreases k,
{
    let all = Seq::new(k, |i: int| Reply::Got(Ok::<T, TryRecvError>(seen.contents[i])));
    if k == 0 {
        assert(seen.contents.skip(0) =~= seen.contents);
        assert(seen.replies(receives(k)) =~= all);
    } else {
        let before = receives::<T>((k - 1) as nat);
        lemma_receives(seen, (k - 1) as nat);
        assert(receives::<T>(k).drop_last() =~= before);
        assert(seen.contents.skip(k - 1).drop_first() =~= seen.contents.skip(k as int));
        assert(seen.replies(receives(k)) =~= all);
    }
}

/// A batch is as good as single receives: it hands out, in order, what as many receives return
/// as it has items, and all later calls return what they would return after those receives, and
/// leave what they would leave.
pub proof fn law_a_batch_is_its_receives<T>(seen: Seen<T>, max: usize, later: Seq<Call<T>>)
    ensures
        ({
            let k = seen.batch(max) as nat;
            let items = seen.reply(Call::Drain(max))->Drained_0;
            &&& items.len() == k
            &&& seen.replies(receives(k)) == items.map_values(
                |v: T| Reply::Got(Ok::<T, TryRecvError>(v)),
            )
            &&& seen.after(Call::Drain(max)) == seen.after_all(receives(k))
            &&& seen.after(Call::Drain(max)).replies(later) == seen.after_all(
                receives(k),
            ).replies(later)
            &&& seen.after(Call::Drain(max)).after_all(later) == seen.after_all(
                receives(k),
            ).after_all(later)
        }),
{
    let k = seen.batch(max) as nat;
    let items = seen.reply(Call::Drain(max))->Drained_0;
    lemma_receives(seen, k);
    assert(seen.replies(receives(k)) =~= items.map_values(
        |v: T| Reply::Got(Ok::<T, TryRecvError>(v)),
    ));
}

/// The reply says that a send was refused.
pub open spec fn is_refusal<T>(reply: Reply<T>) -> bool {
    reply matches Reply::Sent(r) && r is Err
}

/// The calls without the sends that are refused.
pub open spec fn without_refused<T>(seen: Seen<T>, calls: Seq<Call<T>>) -> Seq<Call<T>>
    decreases calls.len(),
{
    if calls.len() == 0 {
        calls
    } else {
        let before = calls.drop_last();
        let fewer = without_refused(seen, before);
        if is_refusal(seen.after_all(before).reply(calls.last())) {
            fewer
        } else {
            fewer.push(calls.last())
        }
    }
}

/// A refused send changes nothing: any number of them leave all other calls with the results
/// that these would have without them.
pub proof fn law_refused_sends_are_not_seen<T>(seen: Seen<T>, calls: Seq<Call<T>>)
    ensures
        seen.after_all(calls) == seen.after_all(without_refused(seen, calls)),
        seen.replies(without_refused(seen, calls)) == seen.replies(calls).filter(
            |r: Reply<T>| !is_refusal(r),
        ),
    decreases calls.len(),
{
    reveal(Seq::filter);
    if calls.len() > 0 {
        let before = calls.drop_last();
        let fewer = without_refused(seen, before);
        law_refused_sends_are_not_seen(seen, before);
        if !(calls.last() is Wait) {
            assert(seen.replies(calls).drop_last() =~= seen.replies(before));
        }
        if !is_refusal(seen.after_all(before).reply(calls.last())) {
            assert(fewer.push(calls.last()).drop_last() =~= fewer);
        }
    }
}

/// A clone that is not used is not seen: while some other sender lives, all calls return what
/// they would return without the clone, and once it is dropped the ring is as if there had been
/// none.
pub proof fn law_unused_clones_are_not_seen<T>(seen: Seen<T>, calls: Seq<Call<T>>)
    requires
        forall|k: int|
            0 <= k <= calls.len() ==> 0 < (#[trigger] seen.after_all(calls.take(k))).senders
                < usize::MAX,
    ensures
        seen.after(Call::Clone).replies(calls) == seen.replies(calls),
        seen.after(Call::Clone).after_all(calls).after(Call::DropSender) == seen.after_all(calls),
{
    lemma_one_more_sender(seen, calls);
}

proof fn lemma_one_more_sender<T>(seen: Seen<T>, calls: Seq<Call<T>>)
    requires
        forall|k: int|
            0 <= k <= calls.len() ==> 0 < (#[trigger] seen.after_all(calls.take(k))).senders
                < usize::MAX,
    ensures
        seen.after(Call::Clone).replies(calls) == seen.replies(calls),
        seen.after(Call::Clone).after_all(calls) == seen.after_all(calls).after(Call::Clone),
        0 < seen.after_all(calls).senders < usize::MAX,
    decreases calls.len(),
{
    assert(calls.take(calls.len() as int) =~= calls);
    if calls.len() > 0 {
        let before = calls.drop_last();
        assert forall|k: int| 0 <= k <= before.len() implies 0 < (#[trigger] seen.after_all(
            before.take(k),
        )).senders < usize::MAX by {
            assert(before.take(k) =~= calls.take(k));
        }
        lemma_one_more_sender(seen, before);
        let s = seen.after_all(before);
        assert(s.after(Call::Clone).reply(calls.last()) == s.reply(calls.last()));
    }
}

/// The ring is bounded: it never holds more items than it has slots, and it is full when it
/// holds as many, or when the sequence numbers are used up.
pub proof fn law_ring_is_bounded<T>(m: Memory<T>)
    requires
        m.wf(),
    ensures
        m.contents().len() <= m.cap,
        m.full() <==> m.contents().len() == m.cap || m.claim == usize::MAX,
{
}

/// The shared memory of a ring, for use from one thread.
#[derive(Debug)]
pub struct Shared<T> {
    buf: Vec<UnsafeCell<Option<T>>>,
    avail: Vec<i64>,
    cap: usize,
    claim: usize,
    head: usize,
    senders: usize,
    rx_dropped: bool,
    strategy: WaitStrategy,
    consumer_parker: Parker,
    prod_waiters: WaiterList,
    unparked: Vec<u64>,
}

impl<T> View for Shared<T> {
    type V = Memory<T>;

    closed spec fn view(&self) -> Memory<T> {
        Memory {
            slots: Seq::new(self.buf@.len(), |i: int| self.buf@[i].0),
            avail: self.avail@,
            cap: self.cap,
            claim: self.claim,
            head: self.head,
            senders: self.senders,
            rx_dropped: self.rx_dropped,
            strategy: self.strategy,
            consumer: self.consumer_parker,
            waiting: self.prod_waiters.waiting,
            waiters: self.prod_waiters.list@,
            unparked: self.unparked@,
        }
    }
}

impl<T> Shared<T> {
    /// Puts `v` into slot `i`.
    fn write(&mut self, i: usize, v: T)
        requires
            i < old(self)@.slots.len(),
        ensures
            final(self)@ == (Memory {
                slots: old(self)@.slots.update(i as int, Some(v)),
                ..old(self)@
            }),
    {
        self.buf[i].with_mut(
            |p: &mut Option<T>| -> (r: ()) ensures *final(p) == Some(v) { *p = Some(v); },
        );
        assert(self@.slots =~= old(self)@.slots.update(i as int, Some(v)));
    }

    /// Takes the item out of slot `i`.
    fn read(&mut self, i: usize) -> (x: Option<T>)
        requires
            i < old(self)@.slots.len(),
        ensures
            x == old(self)@.slots[i as int],
            final(self)@ == (Memory { slots: old(self)@.slots.update(i as int, None), ..old(self)@ }),
    {
        let x = self.buf[i].with_mut(
            |p: &mut Option<T>| -> (r: Option<T>)
                ensures r == *old(p), *final(p) == Option::<T>::None
                { p.take() },
        );
        assert(self@.slots =~= old(self)@.slots.update(i as int, None));
        x
    }

    /// Does one part of a wake of the consumer and returns the flag as it was.
    fn wake(&mut self, w: Waking) -> (parked: bool)
        ensures
            parked == old(self)@.consumer.parked,
            final(self)@ == old(self)@.waking(w),
    {
        let parked = self.consumer_parker.parked;
        match w {
            Waking::Load => {},
            Waking::Clear => {
                self.consumer_parker.cancel();
            },
            Waking::Take => {
                if let Some(t) = self.consumer_parker.take() {
                    self.unparked.push(t);
                }
            },
        }
        assert(self@ =~= old(self)@.waking(w));
        parked
    }

    /// Does one part of a wake of the producers and returns the flag as it was.
    fn rouse(&mut self, r: Rousing) -> (waiting: bool)
        ensures
            waiting == old(self)@.waiting,
            final(self)@ == old(self)@.rousing(r),
    {
        let waiting = self.prod_waiters.waiting;
        match r {
            Rousing::Swap => {
                self.prod_waiters.swap();
            },
            Rousing::Take => {
                let mut names = self.prod_waiters.take();
                self.unparked.append(&mut names);
            },
        }
        assert(self@ =~= old(self)@.rousing(r));
        waiting
    }

    /// Takes the names of the threads that were unparked since the last call, in order.
    pub fn take_unparked(&mut self) -> (names: Vec<u64>)
        ensures
            names@ == old(self)@.unparked,
            final(self)@ == (Memory { unparked: Seq::<u64>::empty(), ..old(self)@ }),
    {
        let mut names: Vec<u64> = Vec::new();
        std::mem::swap(&mut names, &mut self.unparked);
        assert(self@ =~= (Memory { unparked: Seq::<u64>::empty(), ..old(self)@ }));
        names
    }

    /// Drops the memory when all handles are gone, and returns what goes down with it: the
    /// items that were pushed and not popped, oldest first.
    pub fn drop(self) -> (left: Vec<T>)
        requires
            self@.wf(),
        ensures
            left@ == self@.contents(),
    {
        let mut sh = self;
        let mut left: Vec<T> = Vec::new();
        let mut seq = sh.head;
        proof {
            crate::index::lemma_cap_positive(self@.cap as int);
        }
        let cap = sh.cap;
        let mask = cap - 1;
        let mut found = sh.avail[slot_of(seq, mask)] == mark_of(seq, cap);
        proof {
            lemma_first_published(self@);
        }
        while found
            invariant
                self@.wf(),
                mask == cap - 1,
                sh@.cap == cap,
                self@.cap == cap,
                self@.head <= seq <= self@.claim,
                found <==> seq < self@.claim,
                left@ == self@.contents().take(seq - self@.head),
                sh@.holds(seq as int, self@.claim as int),
                forall|s: int| seq <= s < self@.claim ==> (#[trigger] sh@.at(s)) == self@.at(s),
            decreases self@.claim - seq,
        {
            let ghost m = sh@;
            proof {
                crate::index::lemma_cap_positive(m.cap as int);
                assert(m.at(seq as int) is Some);
                assert(m.at(seq as int) == self@.at(seq as int));
                lemma_taken(m, seq as int, self@.claim as int);
            }
            let i = slot_of(seq, mask);
            let x = sh.read(i);
            left.push(x.unwrap());
            proof {
                assert(sh@ =~= m.put(seq as int, None));
                let n = seq - self@.head;
                assert(self@.contents().take(n + 1) =~= self@.contents().take(n).push(
                    self@.contents()[n],
                ));
                assert forall|s: int| seq + 1 <= s < self@.claim implies (#[trigger] sh@.at(s))
                    == self@.at(s) by {
                    assert(m.at(s) == self@.at(s));
                }
            }
            seq = seq + 1;
            proof {
                if seq < self@.claim {
                    assert(sh@.at(seq as int) is Some);
                } else {
                    assert(sh@.mark_at(seq as int) == old_mark(seq as int, cap as int));
                    lemma_old_mark_differs(seq as int, cap as int);
                }
            }
            found = sh.avail[slot_of(seq, mask)] == mark_of(seq, cap);
        }
        assert(self@.contents().take(self@.contents().len() as int) =~= self@.contents());
        left
    }
}

/// The memory of a ring that nothing went through yet; there is one producer handle.
pub open spec fn empty_memory<T>(cap: usize, strategy: WaitStrategy) -> Memory<T> {
    Memory {
        slots: Seq::new(cap as nat, |i: int| None),
        avail: Seq::new(cap as nat, |i: int| NEVER),
        cap,
        claim: 0,
        head: 0,
        senders: 1,
        rx_dropped: false,
        strategy,
        consumer: Parker { parked: false, slot: None },
        waiting: false,
        waiters: Seq::empty(),
        unparked: Seq::empty(),
    }
}

/// Nothing is in the memory of a new ring.
pub proof fn lemma_empty<T>(cap: usize, strategy: WaitStrategy)
    requires
        crate::index::is_cap(cap as int),
    ensures
        empty_memory::<T>(cap, strategy).wf(),
        empty_memory::<T>(cap, strategy).contents() == Seq::<T>::empty(),
{
    let m = empty_memory::<T>(cap, strategy);
    crate::index::lemma_cap_positive(cap as int);
    assert forall|seq: int| 0 <= seq < cap implies (#[trigger] m.at(seq)) is None by {
        crate::index::lemma_slot_bound(seq, cap as int);
    }
    assert forall|seq: int| 0 <= seq < cap && seq <= usize::MAX implies (#[trigger] m.mark_at(seq))
        == old_mark(seq, cap as int) by {
        crate::index::lemma_slot_bound(seq, cap as int);
    }
    assert(m.contents() =~= Seq::<T>::empty());
}

/// Makes a ring with `cap` slots, which has to be a positive power of two: its memory and
/// its first two handles.
pub fn channel<T>(cap: usize, strategy: WaitStrategy) -> (ends: (
    Shared<T>,
    Sender<T>,
    Receiver<T>,
))
    requires
        crate::index::is_cap(cap as int),
    ensures
        ends.0@ == empty_memory::<T>(cap, strategy),
        ends.0@.wf(),
        ends.0@.contents() == Seq::<T>::empty(),
        ends.1.rests_on(ends.0@),
        ends.2.rests_on(ends.0@),
{
    proof {
        crate::index::lemma_cap_positive(cap as int);
        lemma_empty::<T>(cap, strategy);
    }
    let mut buf: Vec<UnsafeCell<Option<T>>> = Vec::with_capacity(cap);
    let mut avail: Vec<i64> = Vec::with_capacity(cap);
    while buf.len() < cap
        invariant
            buf@.len() <= cap,
            avail@.len() == buf@.len(),
            forall|i: int| 0 <= i < buf@.len() ==> (#[trigger] buf@[i]).0 is None,
            forall|i: int| 0 <= i < buf@.len() ==> (#[trigger] avail@[i]) == NEVER,
        decreases cap - buf@.len(),
    {
        buf.push(UnsafeCell::new(None));
        avail.push(NEVER);
    }
    let shared = Shared {
        buf,
        avail,
        cap,
        claim: 0,
        head: 0,
        senders: 1,
        rx_dropped: false,
        strategy,
        consumer_parker: Parker::new(),
        prod_waiters: WaiterList::new(),
        unparked: Vec::new(),
    };
    let tx = Sender::new(cap, strategy);
    let rx = Receiver::new(cap, strategy);
    assert(shared@ =~= empty_memory::<T>(cap, strategy));
    (shared, tx, rx)
}

} // verus!
