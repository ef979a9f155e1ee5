//! Bounded ring with one producer and one consumer.
//!
//! `tail` counts what was ever pushed and is written by the producer, `head` counts what
//! was ever popped and is written by the consumer. Each side keeps the index that it
//! writes and a copy of the other side's, which it reads again only when the ring looks
//! full or empty by the copy.
//!
//! A handle is the local state of its side and a machine: [`Sender::action`] says which
//! access to the shared memory comes next, and [`Sender::advance`] takes what the access
//! returned. So the accesses can be made on any memory. [`Shared`] is such a memory, for
//! use from one thread, and [`Sender::try_send`], [`Sender::send`],
//! [`Receiver::try_recv`], [`Receiver::recv`] and [`Receiver::drain`] run whole operations
//! on it. What holds when the accesses of both sides mix in any order is proved in
//! [`interleave`]; what the accesses, the waits and the whole operations are good for is stated
//! in [`laws`].

use vstd::prelude::*;

use crate::atomic::UnsafeCell;
use crate::index::slot_of;
use crate::notify::{Parker, Side, Waking};
use crate::wait::WaitStrategy;
use crate::{TryRecvError, TrySendError};

pub mod interleave;
pub mod laws;
mod receiver;
mod sender;

pub use receiver::{Receiver, RecvAction, RecvStage};
pub use sender::{SendAction, SendStage, Sender};

verus! {

/// What an access to the shared memory returned.
#[derive(Debug, Clone, Copy, PartialEq, Eq, Hash)]
pub enum Event {
    /// A flag was read.
    Flag(bool),
    /// An index was read.
    Index(usize),
    /// Something was written or performed.
    Done,
}

// ---------------------------------------------------------------------------
// The shared memory
// ---------------------------------------------------------------------------

/// What the shared memory of a ring holds.
#[verifier::ext_equal]
pub struct Memory<T> {
    /// The slots; an item is in its slot from the write until the read.
    pub slots: Seq<Option<T>>,
    /// The number of slots.
    pub cap: usize,
    /// How many items were popped.
    pub head: usize,
    /// How many items were pushed.
    pub tail: usize,
    /// One of the handles is gone.
    pub disconnected: bool,
    /// How blocked sides wait.
    pub strategy: WaitStrategy,
    /// Where the consumer waits.
    pub consumer: Parker,
    /// Where the producer waits.
    pub producer: Parker,
    /// The threads that were unparked, in order.
    pub unparked: Seq<u64>,
}

impl<T> Memory<T> {
    /// The slot of sequence number `seq`.
    pub open spec fn at(self, seq: int) -> Option<T> {
        self.slots[crate::index::slot(seq, self.cap as int)]
    }

    /// The memory with `x` in the slot of `seq`.
    pub open spec fn put(self, seq: int, x: Option<T>) -> Memory<T> {
        Memory {
            slots: self.slots.update(crate::index::slot(seq, self.cap as int), x),
            ..self
        }
    }

    /// Of the `cap` sequence numbers from `lo` on, those below `hi` have an item in their
    /// slot and the others do not.
    pub open spec fn holds(self, lo: int, hi: int) -> bool {
        &&& crate::index::is_cap(self.cap as int)
        &&& self.slots.len() == self.cap
        &&& 0 <= lo <= hi <= lo + self.cap
        &&& forall|seq: int| lo <= seq < hi ==> (#[trigger] self.at(seq)) is Some
        &&& forall|seq: int| hi <= seq < lo + self.cap ==> (#[trigger] self.at(seq)) is None
    }

    /// No operation is under way: the slots hold what was pushed and not popped.
    pub open spec fn wf(self) -> bool {
        self.holds(self.head as int, self.tail as int)
    }

    /// The items that were pushed and not popped, oldest first.
    pub open spec fn contents(self) -> Seq<T> {
        Seq::new((self.tail - self.head) as nat, |i: int| self.at(self.head + i)->0)
    }

    /// As many items are in the ring as it has slots.
    pub open spec fn full(self) -> bool {
        self.tail - self.head == self.cap
    }

    /// The memory after `v` was pushed.
    pub open spec fn pushed(self, v: T) -> Memory<T> {
        Memory { tail: (self.tail + 1) as usize, ..self.put(self.tail as int, Some(v)) }
    }

    /// The memory after the oldest item was popped.
    pub open spec fn popped(self) -> Memory<T> {
        Memory { head: (self.head + 1) as usize, ..self.put(self.head as int, None) }
    }

    /// The parker of a side.
    pub open spec fn parker(self, side: Side) -> Parker {
        match side {
            Side::Consumer => self.consumer,
            Side::Producer => self.producer,
        }
    }

    /// The memory with another parker for a side.
    pub open spec fn with_parker(self, side: Side, p: Parker) -> Memory<T> {
        match side {
            Side::Consumer => Memory { consumer: p, ..self },
            Side::Producer => Memory { producer: p, ..self },
        }
    }

    /// The memory after thread `t` was unparked, if there is one.
    pub open spec fn unpark(self, t: Option<u64>) -> Memory<T> {
        match t {
            Some(t) => Memory { unparked: self.unparked.push(t), ..self },
            None => self,
        }
    }

    /// The memory after one part of a wake of `side`.
    pub open spec fn waking(self, side: Side, w: Waking) -> Memory<T> {
        let p = self.parker(side);
        match w {
            Waking::Load => self,
            Waking::Clear => self.with_parker(side, Parker { parked: false, ..p }),
            Waking::Take => self.with_parker(side, Parker { slot: None, ..p }).unpark(p.slot),
        }
    }

    /// The memory after a whole wake of `side`.
    pub open spec fn woken(self, side: Side) -> Memory<T> {
        let p = self.parker(side);
        self.with_parker(side, p.woken()).unpark(p.waiter())
    }

    /// The memory after the productive side told `side`: with `Park` it wakes it, and with
    /// the other strategies it does nothing.
    pub open spec fn notified(self, side: Side) -> Memory<T> {
        if self.strategy == WaitStrategy::Park {
            self.woken(side)
        } else {
            self
        }
    }

    /// The memory after thread `me` announced that it is going to sleep on `side`.
    pub open spec fn prepared(self, side: Side, me: u64) -> Memory<T> {
        self.with_parker(side, Parker { parked: true, slot: Some(me) })
    }

    /// The memory after a handle was dropped: both sides are woken, whatever the strategy.
    pub open spec fn closed(self) -> Memory<T> {
        let m = Memory { disconnected: true, ..self };
        m.woken(Side::Consumer).woken(Side::Producer)
    }
}

/// Emptying the slot of the oldest item leaves the others.
pub proof fn lemma_taken<T>(m: Memory<T>, lo: int, hi: int)
    requires
        m.holds(lo, hi),
        lo < hi,
    ensures
        m.put(lo, None).holds(lo + 1, hi),
        forall|seq: int| lo < seq < hi ==> (#[trigger] m.put(lo, None).at(seq)) == m.at(seq),
{
    let cap = m.cap as int;
    let m2 = m.put(lo, None);
    crate::index::lemma_cap_positive(cap);
    crate::index::lemma_slot_bound(lo, cap);
    assert forall|seq: int| lo < seq < lo + cap implies #[trigger] m2.at(seq) == m.at(seq) by {
        crate::index::lemma_slot_bound(seq, cap);
        crate::index::lemma_slots_differ(lo, seq, cap);
    }
    assert(crate::index::slot(lo + cap, cap) == crate::index::slot(lo, cap)) by {
        vstd::arithmetic::div_mod::lemma_mod_add_multiples_vanish(lo, cap);
    }
    assert(m2.at(lo + cap) is None);
}

/// Filling the slot after the newest item leaves the others.
pub proof fn lemma_filled<T>(m: Memory<T>, lo: int, hi: int, v: T)
    requires
        m.holds(lo, hi),
        hi < lo + m.cap,
    ensures
        m.put(hi, Some(v)).holds(lo, hi + 1),
        m.put(hi, Some(v)).at(hi) == Some(v),
        forall|seq: int| lo <= seq < hi ==> (#[trigger] m.put(hi, Some(v)).at(seq)) == m.at(seq),
{
    let cap = m.cap as int;
    let m2 = m.put(hi, Some(v));
    crate::index::lemma_cap_positive(cap);
    crate::index::lemma_slot_bound(hi, cap);
    assert forall|seq: int| lo <= seq < lo + cap && seq != hi implies #[trigger] m2.at(seq)
        == m.at(seq) by {
        crate::index::lemma_slot_bound(seq, cap);
        if seq < hi {
            crate::index::lemma_slots_differ(seq, hi, cap);
        } else {
            crate::index::lemma_slots_differ(hi, seq, cap);
        }
    }
}

/// Pushing appends to the contents.
pub proof fn lemma_pushed<T>(m: Memory<T>, v: T)
    requires
        m.wf(),
        !m.full(),
        m.tail < usize::MAX,
    ensures
        m.pushed(v).wf(),
        m.pushed(v).contents() == m.contents().push(v),
{
    let m1 = m.put(m.tail as int, Some(v));
    let m2 = m.pushed(v);
    lemma_filled(m, m.head as int, m.tail as int, v);
    assert(forall|seq: int| #[trigger] m2.at(seq) == m1.at(seq));
    assert(m2.contents() =~= m.contents().push(v));
}

/// Popping takes the first of the contents away.
pub proof fn lemma_popped<T>(m: Memory<T>)
    requires
        m.wf(),
        m.contents().len() > 0,
    ensures
        m.at(m.head as int) == Some(m.contents()[0]),
        m.popped().wf(),
        m.popped().contents() == m.contents().drop_first(),
{
    let m1 = m.put(m.head as int, None);
    let m2 = m.popped();
    assert(m.at(m.head as int) is Some);
    lemma_taken(m, m.head as int, m.tail as int);
    assert(forall|seq: int| #[trigger] m2.at(seq) == m1.at(seq));
    assert(m2.contents() =~= m.contents().drop_first());
}

/// What is in the ring depends on the slots and the two indices alone.
pub proof fn lemma_same_ring<T>(m: Memory<T>, m2: Memory<T>)
    requires
        m2.slots == m.slots,
        m2.cap == m.cap,
        m2.head == m.head,
        m2.tail == m.tail,
    ensures
        m.wf() ==> m2.wf(),
        m2.contents() == m.contents(),
{
    assert(forall|seq: int| #[trigger] m2.at(seq) == m.at(seq));
    assert(m2.contents() =~= m.contents());
}

/// What the results of calls depend on.
#[verifier::ext_equal]
pub struct Seen<T> {
    pub contents: Seq<T>,
    pub cap: usize,
    pub disconnected: bool,
}

/// A call on a ring that no other operation is under way on.
pub enum Call<T> {
    TrySend(T),
    TryRecv,
    Drain(usize),
    /// One of the handles is dropped.
    Close,
}

/// What a call returns.
#[verifier::ext_equal]
pub enum Reply<T> {
    Sent(Result<(), TrySendError<T>>),
    Got(Result<T, TryRecvError>),
    Drained(Seq<T>),
    Done,
}

impl<T> Memory<T> {
    /// What the results of calls depend on.
    pub open spec fn seen(self) -> Seen<T> {
        Seen { contents: self.contents(), cap: self.cap, disconnected: self.disconnected }
    }
}

impl<T> Seen<T> {
    /// A send finds room and a receiver.
    pub open spec fn accepts(self) -> bool {
        !self.disconnected && self.contents.len() < self.cap
    }

    /// How many items a batch of up to `max` has.
    pub open spec fn batch(self, max: usize) -> int {
        if max < self.contents.len() {
            max as int
        } else {
            self.contents.len() as int
        }
    }

    /// What a call returns.
    pub open spec fn reply(self, call: Call<T>) -> Reply<T> {
        match call {
            Call::TrySend(v) => Reply::Sent(
                if self.disconnected {
                    Err(TrySendError::Disconnected(v))
                } else if self.accepts() {
                    Ok(())
                } else {
                    Err(TrySendError::Full(v))
                },
            ),
            Call::TryRecv => Reply::Got(
                if self.contents.len() > 0 {
                    Ok(self.contents[0])
                } else if self.disconnected {
                    Err(TryRecvError::Disconnected)
                } else {
                    Err(TryRecvError::Empty)
                },
            ),
            Call::Drain(max) => Reply::Drained(self.contents.take(self.batch(max))),
            Call::Close => Reply::Done,
        }
    }

    /// What a call leaves.
    pub open spec fn after(self, call: Call<T>) -> Seen<T> {
        match call {
            Call::TrySend(v) => if self.accepts() {
                Seen { contents: self.contents.push(v), ..self }
            } else {
                self
            },
            Call::TryRecv => if self.contents.len() > 0 {
                Seen { contents: self.contents.drop_first(), ..self }
            } else {
                self
            },
            Call::Drain(max) => Seen { contents: self.contents.skip(self.batch(max)), ..self },
            Call::Close => Seen { disconnected: true, ..self },
        }
    }

    /// What a number of calls leave.
    pub open spec fn after_all(self, calls: Seq<Call<T>>) -> Seen<T>
        decreases calls.len(),
    {
        if calls.len() == 0 {
            self
        } else {
            self.after_all(calls.drop_last()).after(calls.last())
        }
    }

    /// What a number of calls return.
    pub open spec fn replies(self, calls: Seq<Call<T>>) -> Seq<Reply<T>>
        decreases calls.len(),
    {
        if calls.len() == 0 {
            Seq::empty()
        } else {
            self.replies(calls.drop_last()).push(
                self.after_all(calls.drop_last()).reply(calls.last()),
            )
        }
    }
}

/// A number of receives.
pub open spec fn receives<T>(k: nat) -> Seq<Call<T>> {
    Seq::new(k, |i: int| Call::TryRecv)
}

/// What receives return and leave while there are items.
proof fn lemma_receives<T>(seen: Seen<T>, k: nat)
    requires
        k <= seen.contents.len(),
    ensures
        seen.after_all(receives(k)) == (Seen { contents: seen.contents.skip(k as int), ..seen }),
        seen.replies(receives(k)) == Seq::new(
            k,
            |i: int| Reply::Got(Ok::<T, TryRecvError>(seen.contents[i])),
        ),
    decreases k,
{
    let all = Seq::new(k, |i: int| Reply::Got(Ok::<T, TryRecvError>(seen.contents[i])));
    if k == 0 {
        assert(seen.contents.skip(0) =~= seen.contents);
        assert(seen.replies(receives(k)) =~= all);
    } else {
        let before = receives::<T>((k - 1) as nat);
        lemma_receives(seen, (k - 1) as nat);
        assert(receives::<T>(k).drop_last() =~= before);
        assert(seen.contents.skip(k - 1).drop_first() =~= seen.contents.skip(k as int));
        assert(seen.replies(receives(k)) =~= all);
    }
}

/// A batch is as good as single receives: it hands out, in order, what as many receives return
/// as it has items, and all later calls return what they would return after those receives, and
/// leave what they would leave.
pub proof fn law_a_batch_is_its_receives<T>(seen: Seen<T>, max: usize, later: Seq<Call<T>>)
    ensures
        ({
            let k = seen.batch(max) as nat;
            let items = seen.reply(Call::Drain(max))->Drained_0;
            &&& items.len() == k
            &&& seen.replies(receives(k)) == items.map_values(
                |v: T| Reply::Got(Ok::<T, TryRecvError>(v)),
            )
            &&& seen.after(Call::Drain(max)) == seen.after_all(receives(k))
            &&& seen.after(Call::Drain(max)).replies(later) == seen.after_all(
                receives(k),
            ).replies(later)
            &&& seen.after(Call::Drain(max)).after_all(later) == seen.after_all(
                receives(k),
            ).after_all(later)
        }),
{
    let k = seen.batch(max) as nat;
    let items = seen.reply(Call::Drain(max))->Drained_0;
    lemma_receives(seen, k);
    assert(seen.replies(receives(k)) =~= items.map_values(
        |v: T| Reply::Got(Ok::<T, TryRecvError>(v)),
    ));
}

/// The reply says that a send was refused.
pub open spec fn is_refusal<T>(reply: Reply<T>) -> bool {
    reply matches Reply::Sent(r) && r is Err
}

/// The calls without the sends that are refused.
pub open spec fn without_refused<T>(seen: Seen<T>, calls: Seq<Call<T>>) -> Seq<Call<T>>
    decreases calls.len(),
{
    if calls.len() == 0 {
        calls
    } else {
        let before = calls.drop_last();
        let fewer = without_refused(seen, before);
        if is_refusal(seen.after_all(before).reply(calls.last())) {
            fewer
        } else {
            fewer.push(calls.last())
        }
    }
}

/// A refused send changes nothing: any number of them leave all other calls with the results
/// that these would have without them.
pub proof fn law_refused_sends_are_not_seen<T>(seen: Seen<T>, calls: Seq<Call<T>>)
    ensures
        seen.after_all(calls) == seen.after_all(without_refused(seen, calls)),
        seen.replies(without_refused(seen, calls)) == seen.replies(calls).filter(
            |r: Reply<T>| !is_refusal(r),
        ),
    decreases calls.len(),
{
    reveal(Seq::filter);
    if calls.len() > 0 {
        let before = calls.drop_last();
        let fewer = without_refused(seen, before);
        law_refused_sends_are_not_seen(seen, before);
        assert(seen.replies(calls).drop_last() =~= seen.replies(before));
        if !is_refusal(seen.after_all(before).reply(calls.last())) {
            assert(fewer.push(calls.last()).drop_last() =~= fewer);
        }
    }
}

/// The ring is bounded: it never holds more items than it has slots, and it is full when it
/// holds as many.
pub proof fn law_ring_is_bounded<T>(m: Memory<T>)
    requires
        m.wf(),
    ensures
        m.contents().len() <= m.cap,
        m.full() <==> m.contents().len() == m.cap,
{
}

/// The shared memory of a ring, for use from one thread.
#[derive(Debug)]
pub struct Shared<T> {
    buf: Vec<UnsafeCell<Option<T>>>,
    cap: usize,
    tail: usize,
    head: usize,
    disconnected: bool,
    strategy: WaitStrategy,
    consumer_parker: Parker,
    producer_parker: Parker,
    unparked: Vec<u64>,
}

impl<T> View for Shared<T> {
    type V = Memory<T>;

    closed spec fn view(&self) -> Memory<T> {
        Memory {
            slots: Seq::new(self.buf@.len(), |i: int| self.buf@[i].0),
            cap: self.cap,
            head: self.head,
            tail: self.tail,
            disconnected: self.disconnected,
            strategy: self.strategy,
            consumer: self.consumer_parker,
            producer: self.producer_parker,
            unparked: self.unparked@,
        }
    }
}

impl<T> Shared<T> {
    /// Puts `v` into slot `i`.
    fn write(&mut self, i: usize, v: T)
        requires
            i < old(self)@.slots.len(),
        ensures
            final(self)@ == (Memory {
                slots: old(self)@.slots.update(i as int, Some(v)),
                ..old(self)@
            }),
    {
        self.buf[i].with_mut(
            |p: &mut Option<T>| -> (r: ()) ensures *final(p) == Some(v) { *p = Some(v); },
        );
        assert(self@.slots =~= old(self)@.slots.update(i as int, Some(v)));
    }

    /// Takes the item out of slot `i`.
    fn read(&mut self, i: usize) -> (x: Option<T>)
        requires
            i < old(self)@.slots.len(),
        ensures
            x == old(self)@.slots[i as int],
            final(self)@ == (Memory { slots: old(self)@.slots.update(i as int, None), ..old(self)@ }),
    {
        let x = self.buf[i].with_mut(
            |p: &mut Option<T>| -> (r: Option<T>)
                ensures r == *old(p), *final(p) == Option::<T>::None
                { p.take() },
        );
        assert(self@.slots =~= old(self)@.slots.update(i as int, None));
        x
    }

    /// Does one part of a wake of `side` and returns the flag as it was.
    fn wake(&mut self, side: Side, w: Waking) -> (parked: bool)
        ensures
            parked == old(self)@.parker(side).parked,
            final(self)@ == old(self)@.waking(side, w),
    {
        let mut p = match side {
            Side::Consumer => self.consumer_parker,
            Side::Producer => self.producer_parker,
        };
        let parked = p.parked;
        match w {
            Waking::Load => {},
            Waking::Clear => {
                p.cancel();
            },
            Waking::Take => {
                if let Some(t) = p.take() {
                    self.unparked.push(t);
                }
            },
        }
        match side {
            Side::Consumer => {
                self.consumer_parker = p;
            },
            Side::Producer => {
                self.producer_parker = p;
            },
        }
        assert(self@ =~= old(self)@.waking(side, w));
        parked
    }

    /// Takes the names of the threads that were unparked since the last call, in order.
    pub fn take_unparked(&mut self) -> (names: Vec<u64>)
        ensures
            names@ == old(self)@.unparked,
            final(self)@ == (Memory { unparked: Seq::<u64>::empty(), ..old(self)@ }),
    {
        let mut names: Vec<u64> = Vec::new();
        std::mem::swap(&mut names, &mut self.unparked);
        assert(self@ =~= (Memory { unparked: Seq::<u64>::empty(), ..old(self)@ }));
        names
    }

    /// Ends the ring, when both handles are gone: takes the items that were pushed and not
    /// popped out of their slots, oldest first, each one once.
    pub fn drop(self) -> (left: Vec<T>)
        requires
            self@.wf(),
        ensures
            left@ == self@.contents(),
    {
        let mut sh = self;
        let mut left: Vec<T> = Vec::new();
        let tail = sh.tail;
        let mut seq = sh.head;
        proof {
            crate::index::lemma_cap_positive(self@.cap as int);
        }
        let mask = sh.cap - 1;
        while seq < tail
            invariant
                self@.wf(),
                mask == sh@.cap - 1,
                sh@.cap == self@.cap,
                tail == self@.tail,
                self@.head <= seq <= tail,
                left@ == self@.contents().take(seq - self@.head),
                sh@.holds(seq as int, tail as int),
                forall|s: int| seq <= s < tail ==> (#[trigger] sh@.at(s)) == self@.at(s),
            decreases tail - seq,
        {
            let ghost m = sh@;
            proof {
                crate::index::lemma_cap_positive(m.cap as int);
                assert(m.at(seq as int) is Some);
                assert(m.at(seq as int) == self@.at(seq as int));
                lemma_taken(m, seq as int, tail as int);
            }
            let i = slot_of(seq, mask);
            let x = sh.read(i);
            left.push(x.unwrap());
            proof {
                assert(sh@ =~= m.put(seq as int, None));
                let n = seq - self@.head;
                assert(self@.contents().take(n + 1) =~= self@.contents().take(n).push(
                    self@.contents()[n],
                ));
                assert forall|s: int| seq + 1 <= s < tail implies (#[trigger] sh@.at(s))
                    == self@.at(s) by {
                    assert(m.at(s) == self@.at(s));
                }
            }
            seq = seq + 1;
        }
        assert(self@.contents().take(self@.contents().len() as int) =~= self@.contents());
        left
    }
}

/// The memory of a ring that nothing went through yet.
pub open spec fn empty_memory<T>(cap: usize, strategy: WaitStrategy) -> Memory<T> {
    Memory {
        slots: Seq::new(cap as nat, |i: int| None),
        cap,
        head: 0,
        tail: 0,
        disconnected: false,
        strategy,
        consumer: Parker { parked: false, slot: None },
        producer: Parker { parked: false, slot: None },
        unparked: Seq::empty(),
    }
}

/// Makes a ring with `cap` slots, which has to be a positive power of two: its memory and
/// its two handles.
pub fn channel<T>(cap: usize, strategy: WaitStrategy) -> (ends: (
    Shared<T>,
    Sender<T>,
    Receiver<T>,
))
    requires
        crate::index::is_cap(cap as int),
    ensures
        ends.0@ == empty_memory::<T>(cap, strategy),
        ends.0@.wf(),
        ends.0@.contents() == Seq::<T>::empty(),
        ends.1.rests_on(ends.0@),
        ends.2.rests_on(ends.0@),
{
    proof {
        crate::index::lemma_cap_positive(cap as int);
    }
    let mut buf: Vec<UnsafeCell<Option<T>>> = Vec::with_capacity(cap);
    while buf.len() < cap
        invariant
            buf@.len() <= cap,
            forall|i: int| 0 <= i < buf@.len() ==> (#[trigger] buf@[i]).0 is None,
        decreases cap - buf@.len(),
    {
        buf.push(UnsafeCell::new(None));
    }
    let shared = Shared {
        buf,
        cap,
        tail: 0,
        head: 0,
        disconnected: false,
        strategy,
        consumer_parker: Parker::new(),
        producer_parker: Parker::new(),
        unparked: Vec::new(),
    };
    let tx = Sender::new(cap, strategy);
    let rx = Receiver::new(cap, strategy);
    proof {
        assert(shared@ =~= empty_memory::<T>(cap, strategy));
        assert forall|seq: int| 0 <= seq < cap implies (#[trigger] shared@.at(seq)) is None by {
            crate::index::lemma_slot_bound(seq, cap as int);
        }
        assert(shared@.contents() =~= Seq::<T>::empty());
    }
    (shared, tx, rx)
}

} // verus!
