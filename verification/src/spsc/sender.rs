//! The producer.

use vstd::prelude::*;

use crate::index::slot_of;
use crate::notify::{Side, Waking};
use crate::spsc::{Call, Event, Memory, Reply, Shared};
use crate::wait::{Idle, Rung, Turn, WaitStrategy};
use crate::{SendError, TrySendError};

verus! {

/// Where the producer's operation stands: the access to the shared memory that comes next.
#[derive(Debug, Clone, Copy, PartialEq, Eq, Hash)]
pub enum SendStage {
    /// No operation is under way.
    Ready,
    /// Look whether the receiver is gone.
    Flag,
    /// Full by the copy of the head: read the head again.
    Head,
    /// Put the value into its slot.
    Write,
    /// Publish it by storing the tail.
    Publish,
    /// Wake the consumer.
    Wake(Waking),
    /// Wait by itself, then try again.
    Pause,
    /// Leave the name of the thread.
    Register,
    /// Raise the flag that it is going to sleep.
    Announce,
    /// Look at the head once more.
    RecheckHead,
    /// Look once more whether the receiver is gone.
    RecheckFlag,
    /// Lower the flag again: there was something.
    Cancel,
    /// Sleep until woken.
    Park,
    /// Lower the flag after the sleep.
    Unpark,
    /// Over: the value is in the ring.
    Sent,
    /// Over: the ring is full.
    Full,
    /// Over: the receiver is gone.
    Disconnected,
    /// The handle is being dropped: store that it is gone.
    Close,
    /// Wake the consumer, then the own side.
    CloseWake(Side, Waking),
    /// The handle is gone.
    Gone,
}

/// The access to the shared memory that the producer asks for.
#[derive(Debug, Clone, Copy, PartialEq, Eq, Hash)]
pub enum SendAction {
    /// Read the flag that a handle is gone; answer with [`Event::Flag`].
    LoadDisconnected,
    /// Read the head; answer with [`Event::Index`].
    LoadHead,
    /// Put what [`Sender::give`] returns into this slot.
    WriteSlot(usize),
    /// Store this tail; answer with [`Event::Done`].
    StoreTail(usize),
    /// Store that a handle is gone; answer with [`Event::Done`].
    StoreDisconnected,
    /// Read the flag of a side's parker; answer with [`Event::Flag`].
    LoadParked(Side),
    /// Lower the flag of a side's parker; answer with [`Event::Done`].
    ClearParked(Side),
    /// Take the name from a side's parker and unpark the thread; answer with
    /// [`Event::Done`].
    TakeWaiter(Side),
    /// Leave the name of the thread in the producer's parker; answer with [`Event::Done`].
    Register,
    /// Raise the flag of the producer's parker; answer with [`Event::Done`].
    Announce,
    /// Wait, then answer with [`Event::Done`].
    Pause(Rung),
    /// Nothing: the operation is over.
    Return,
}

/// The single producer: the tail, which nobody else writes, and a copy of the head.
#[derive(Debug)]
pub struct Sender<T> {
    pub tail: usize,
    pub cached_head: usize,
    pub cap: usize,
    pub mask: usize,
    pub strategy: WaitStrategy,
    /// Where the operation under way stands on the ladder.
    pub idle: Idle,
    /// The operation under way waits for room.
    pub blocking: bool,
    /// The name of the thread for which the operation under way waits.
    pub me: u64,
    pub stage: SendStage,
    /// The value, until it is written to its slot or handed back.
    pub value: Option<T>,
}

impl SendStage {
    /// The stages at which the machine has the value.
    pub open spec fn has_value(self) -> bool {
        match self {
            SendStage::Ready
            | SendStage::Publish
            | SendStage::Wake(_)
            | SendStage::Sent
            | SendStage::Close
            | SendStage::CloseWake(_, _)
            | SendStage::Gone => false,
            _ => true,
        }
    }

    /// The stages of a blocked operation that is going to sleep.
    pub open spec fn parks(self) -> bool {
        match self {
            SendStage::Register
            | SendStage::Announce
            | SendStage::RecheckHead
            | SendStage::RecheckFlag
            | SendStage::Cancel
            | SendStage::Park
            | SendStage::Unpark => true,
            _ => false,
        }
    }
}

impl<T> Sender<T> {
    /// What holds of the local state at every stage.
    pub open spec fn wf(self) -> bool {
        &&& crate::index::is_cap(self.cap as int)
        &&& self.mask == self.cap - 1
        &&& self.cached_head <= self.tail <= self.cached_head + self.cap
        &&& self.idle.wf()
        &&& self.value is Some <==> self.stage.has_value()
        &&& (self.stage == SendStage::Write || self.stage == SendStage::Publish) ==> self.tail
            < self.cached_head + self.cap
        &&& self.stage is Wake ==> self.strategy == WaitStrategy::Park
        &&& self.stage.parks() ==> self.strategy == WaitStrategy::Park && self.blocking
        &&& self.stage == SendStage::Pause ==> self.strategy != WaitStrategy::Park && self.blocking
        &&& self.stage == SendStage::Full ==> !self.blocking
    }

    /// The handle belongs to the ring with memory `m` and no operation of it is under way.
    pub open spec fn rests_on(self, m: Memory<T>) -> bool {
        &&& self.wf()
        &&& self.stage == SendStage::Ready
        &&& self.fits(m)
    }

    /// The local state agrees with the memory `m`.
    pub open spec fn fits(self, m: Memory<T>) -> bool {
        &&& self.cap == m.cap
        &&& self.strategy == m.strategy
        &&& self.tail == m.tail
        &&& self.cached_head <= m.head
    }

    /// The machine at another stage.
    pub open spec fn to(self, stage: SendStage) -> Sender<T> {
        Sender { stage, ..self }
    }

    /// The ring is full: give up, or wait as the strategy says.
    pub open spec fn blocked(self) -> Sender<T> {
        if !self.blocking {
            self.to(SendStage::Full)
        } else if self.strategy == WaitStrategy::Park {
            self.to(SendStage::Register)
        } else {
            self.to(SendStage::Pause)
        }
    }

    /// The stage after one part of a wake in a drop: first the consumer, then the own side.
    pub open spec fn after_close(side: Side) -> SendStage {
        match side {
            Side::Consumer => SendStage::CloseWake(Side::Producer, Waking::Load),
            Side::Producer => SendStage::Gone,
        }
    }

    /// The events that can answer the action of this stage.
    pub open spec fn expects(self, ev: Event) -> bool {
        match self.stage {
            SendStage::Flag
            | SendStage::RecheckFlag
            | SendStage::Wake(Waking::Load)
            | SendStage::CloseWake(_, Waking::Load) => ev is Flag,
            SendStage::Head | SendStage::RecheckHead => {
                &&& ev is Index
                &&& self.cached_head <= ev->Index_0 <= self.tail
            },
            SendStage::Publish => ev is Done && self.tail < usize::MAX,
            SendStage::Ready
            | SendStage::Sent
            | SendStage::Full
            | SendStage::Disconnected
            | SendStage::Gone => false,
            _ => ev is Done,
        }
    }

    /// The machine after the access of this stage was made and returned `ev`.
    pub open spec fn next(self, ev: Event) -> Sender<T> {
        match (self.stage, ev) {
            (SendStage::Flag, Event::Flag(gone)) => if gone {
                self.to(SendStage::Disconnected)
            } else if self.tail - self.cached_head == self.cap {
                self.to(SendStage::Head)
            } else {
                self.to(SendStage::Write)
            },
            (SendStage::Head, Event::Index(head)) => {
                let tx = Sender { cached_head: head, ..self };
                if self.tail - head == self.cap {
                    tx.blocked()
                } else {
                    tx.to(SendStage::Write)
                }
            },
            (SendStage::Write, Event::Done) => Sender {
                value: None,
                stage: SendStage::Publish,
                ..self
            },
            (SendStage::Publish, Event::Done) => Sender {
                tail: (self.tail + 1) as usize,
                stage: if self.strategy == WaitStrategy::Park {
                    SendStage::Wake(Waking::Load)
                } else {
                    SendStage::Sent
                },
                ..self
            },
            (SendStage::Wake(Waking::Load), Event::Flag(parked)) => if parked {
                self.to(SendStage::Wake(Waking::Clear))
            } else {
                self.to(SendStage::Sent)
            },
            (SendStage::Wake(Waking::Clear), Event::Done) => self.to(
                SendStage::Wake(Waking::Take),
            ),
            (SendStage::Wake(Waking::Take), Event::Done) => self.to(SendStage::Sent),
            (SendStage::Pause, Event::Done) => Sender {
                idle: self.strategy.up(self.idle),
                stage: SendStage::Flag,
                ..self
            },
            (SendStage::Register, Event::Done) => self.to(SendStage::Announce),
            (SendStage::Announce, Event::Done) => self.to(SendStage::RecheckHead),
            (SendStage::RecheckHead, Event::Index(head)) => if self.tail - head < self.cap {
                self.to(SendStage::Cancel)
            } else {
                self.to(SendStage::RecheckFlag)
            },
            (SendStage::RecheckFlag, Event::Flag(gone)) => if gone {
                self.to(SendStage::Cancel)
            } else {
                self.to(SendStage::Park)
            },
            (SendStage::Cancel, Event::Done) => self.to(SendStage::Flag),
            (SendStage::Park, Event::Done) => self.to(SendStage::Unpark),
            (SendStage::Unpark, Event::Done) => self.to(SendStage::Flag),
            (SendStage::Close, Event::Done) => self.to(
                SendStage::CloseWake(Side::Consumer, Waking::Load),
            ),
            (SendStage::CloseWake(side, Waking::Load), Event::Flag(parked)) => if parked {
                self.to(SendStage::CloseWake(side, Waking::Clear))
            } else {
                self.to(Self::after_close(side))
            },
            (SendStage::CloseWake(side, Waking::Clear), Event::Done) => self.to(
                SendStage::CloseWake(side, Waking::Take),
            ),
            (SendStage::CloseWake(side, Waking::Take), Event::Done) => self.to(
                Self::after_close(side),
            ),
            _ => self,
        }
    }

    /// The access that comes next.
    pub open spec fn asks(self) -> SendAction {
        match self.stage {
            SendStage::Ready
            | SendStage::Sent
            | SendStage::Full
            | SendStage::Disconnected
            | SendStage::Gone => SendAction::Return,
            SendStage::Flag | SendStage::RecheckFlag => SendAction::LoadDisconnected,
            SendStage::Head | SendStage::RecheckHead => SendAction::LoadHead,
            SendStage::Write => SendAction::WriteSlot(
                crate::index::slot(self.tail as int, self.cap as int) as usize,
            ),
            SendStage::Publish => SendAction::StoreTail((self.tail + 1) as usize),
            SendStage::Wake(Waking::Load) => SendAction::LoadParked(Side::Consumer),
            SendStage::Wake(Waking::Clear) => SendAction::ClearParked(Side::Consumer),
            SendStage::Wake(Waking::Take) => SendAction::TakeWaiter(Side::Consumer),
            SendStage::Pause => SendAction::Pause(self.strategy.rung(self.idle)),
            SendStage::Register => SendAction::Register,
            SendStage::Announce => SendAction::Announce,
            SendStage::Cancel | SendStage::Unpark => SendAction::ClearParked(Side::Producer),
            SendStage::Park => SendAction::Pause(Rung::Park),
            SendStage::Close => SendAction::StoreDisconnected,
            SendStage::CloseWake(side, Waking::Load) => SendAction::LoadParked(side),
            SendStage::CloseWake(side, Waking::Clear) => SendAction::ClearParked(side),
            SendStage::CloseWake(side, Waking::Take) => SendAction::TakeWaiter(side),
        }
    }

    /// What the access of this stage reads in memory `m` when it reads the newest value.
    pub open spec fn sees(self, m: Memory<T>) -> Event {
        match self.stage {
            SendStage::Flag | SendStage::RecheckFlag => Event::Flag(m.disconnected),
            SendStage::Head | SendStage::RecheckHead => Event::Index(m.head),
            SendStage::Wake(Waking::Load) => Event::Flag(m.consumer.parked),
            SendStage::CloseWake(side, Waking::Load) => Event::Flag(m.parker(side).parked),
            _ => Event::Done,
        }
    }

    /// The memory after the access of this stage.
    pub open spec fn leaves(self, m: Memory<T>) -> Memory<T> {
        match self.stage {
            SendStage::Write => m.put(self.tail as int, self.value),
            SendStage::Publish => Memory { tail: (self.tail + 1) as usize, ..m },
            SendStage::Wake(w) => m.waking(Side::Consumer, w),
            SendStage::Register => m.with_parker(
                Side::Producer,
                crate::notify::Parker { slot: Some(self.me), ..m.producer },
            ),
            SendStage::Announce => m.with_parker(
                Side::Producer,
                crate::notify::Parker { parked: true, ..m.producer },
            ),
            SendStage::Cancel | SendStage::Unpark => m.waking(Side::Producer, Waking::Clear),
            SendStage::Close => Memory { disconnected: true, ..m },
            SendStage::CloseWake(side, w) => m.waking(side, w),
            _ => m,
        }
    }

    /// The producer handle of a new ring with `cap` slots.
    pub fn new(cap: usize, strategy: WaitStrategy) -> (tx: Sender<T>)
        requires
            crate::index::is_cap(cap as int),
        ensures
            tx.rests_on(crate::spsc::empty_memory::<T>(cap, strategy)),
    {
        proof {
            crate::index::lemma_cap_positive(cap as int);
        }
        Sender {
            tail: 0,
            cached_head: 0,
            cap,
            mask: cap - 1,
            strategy,
            idle: Idle::for_strategy(strategy),
            blocking: false,
            me: 0,
            stage: SendStage::Ready,
            value: None,
        }
    }

    /// The access that comes next.
    pub fn action(&self) -> (a: SendAction)
        requires
            self.wf(),
            self.stage == SendStage::Publish ==> self.tail < usize::MAX,
        ensures
            a == self.asks(),
    {
        proof {
            crate::index::lemma_cap_positive(self.cap as int);
        }
        match self.stage {
            SendStage::Ready
            | SendStage::Sent
            | SendStage::Full
            | SendStage::Disconnected
            | SendStage::Gone => SendAction::Return,
            SendStage::Flag | SendStage::RecheckFlag => SendAction::LoadDisconnected,
            SendStage::Head | SendStage::RecheckHead => SendAction::LoadHead,
            SendStage::Write => SendAction::WriteSlot(slot_of(self.tail, self.mask)),
            SendStage::Publish => SendAction::StoreTail(self.tail + 1),
            SendStage::Wake(w) => Self::waking(Side::Consumer, w),
            SendStage::Pause => SendAction::Pause(self.strategy.choose_rung(&self.idle)),
            SendStage::Register => SendAction::Register,
            SendStage::Announce => SendAction::Announce,
            SendStage::Cancel | SendStage::Unpark => SendAction::ClearParked(Side::Producer),
            SendStage::Park => SendAction::Pause(Rung::Park),
            SendStage::Close => SendAction::StoreDisconnected,
            SendStage::CloseWake(side, w) => Self::waking(side, w),
        }
    }

    fn waking(side: Side, w: Waking) -> (a: SendAction)
        ensures
            a == match w {
                Waking::Load => SendAction::LoadParked(side),
                Waking::Clear => SendAction::ClearParked(side),
                Waking::Take => SendAction::TakeWaiter(side),
            },
    {
        match w {
            Waking::Load => SendAction::LoadParked(side),
            Waking::Clear => SendAction::ClearParked(side),
            Waking::Take => SendAction::TakeWaiter(side),
        }
    }

    /// Takes the value out, to be put into its slot; the write counts as made.
    pub fn give(&mut self) -> (v: T)
        requires
            old(self).wf(),
            old(self).stage == SendStage::Write,
        ensures
            Some(v) == old(self).value,
            *final(self) == old(self).next(Event::Done),
            final(self).wf(),
    {
        self.stage = SendStage::Publish;
        self.value.take().unwrap()
    }

    /// Moves on after the access of this stage was made and returned `ev`.
    pub fn advance(&mut self, ev: Event)
        requires
            old(self).wf(),
            old(self).expects(ev),
            old(self).stage != SendStage::Write,
        ensures
            *final(self) == old(self).next(ev),
            final(self).wf(),
    {
        match (self.stage, ev) {
            (SendStage::Flag, Event::Flag(gone)) => {
                self.stage = if gone {
                    SendStage::Disconnected
                } else if self.tail - self.cached_head == self.cap {
                    SendStage::Head
                } else {
                    SendStage::Write
                };
            },
            (SendStage::Head, Event::Index(head)) => {
                self.cached_head = head;
                self.stage = if self.tail - head != self.cap {
                    SendStage::Write
                } else if !self.blocking {
                    SendStage::Full
                } else if self.strategy == WaitStrategy::Park {
                    SendStage::Register
                } else {
                    SendStage::Pause
                };
            },
            (SendStage::Publish, _) => {
                self.tail = self.tail + 1;
                self.stage = if self.strategy == WaitStrategy::Park {
                    SendStage::Wake(Waking::Load)
                } else {
                    SendStage::Sent
                };
            },
            (SendStage::Wake(Waking::Load), Event::Flag(parked)) => {
                self.stage = if parked {
                    SendStage::Wake(Waking::Clear)
                } else {
                    SendStage::Sent
                };
            },
            (SendStage::Wake(Waking::Clear), _) => {
                self.stage = SendStage::Wake(Waking::Take);
            },
            (SendStage::Wake(_), _) => {
                self.stage = SendStage::Sent;
            },
            (SendStage::Pause, _) => {
                self.strategy.climb(&mut self.idle);
                self.stage = SendStage::Flag;
            },
            (SendStage::Register, _) => {
                self.stage = SendStage::Announce;
            },
            (SendStage::Announce, _) => {
                self.stage = SendStage::RecheckHead;
            },
            (SendStage::RecheckHead, Event::Index(head)) => {
                self.stage = if self.tail - head < self.cap {
                    SendStage::Cancel
                } else {
                    SendStage::RecheckFlag
                };
            },
            (SendStage::RecheckFlag, Event::Flag(gone)) => {
                self.stage = if gone {
                    SendStage::Cancel
                } else {
                    SendStage::Park
                };
            },
            (SendStage::Park, _) => {
                self.stage = SendStage::Unpark;
            },
            (SendStage::Cancel, _) | (SendStage::Unpark, _) => {
                self.stage = SendStage::Flag;
            },
            (SendStage::Close, _) => {
                self.stage = SendStage::CloseWake(Side::Consumer, Waking::Load);
            },
            (SendStage::CloseWake(side, Waking::Load), Event::Flag(true)) => {
                self.stage = SendStage::CloseWake(side, Waking::Clear);
            },
            (SendStage::CloseWake(side, Waking::Clear), _) => {
                self.stage = SendStage::CloseWake(side, Waking::Take);
            },
            (SendStage::CloseWake(Side::Consumer, _), _) => {
                self.stage = SendStage::CloseWake(Side::Producer, Waking::Load);
            },
            (SendStage::CloseWake(Side::Producer, _), _) => {
                self.stage = SendStage::Gone;
            },
            _ => {},
        }
    }

    /// The machine at the start of an operation that sends `v`.
    pub open spec fn started(self, v: T, blocking: bool, me: u64) -> Sender<T> {
        Sender {
            idle: Idle::start(self.strategy),
            blocking,
            me,
            stage: SendStage::Flag,
            value: Some(v),
            ..self
        }
    }

    /// Starts an operation that sends `v`; it waits for room if `blocking`, for the thread
    /// named `me`.
    pub fn start(&mut self, v: T, blocking: bool, me: u64)
        requires
            old(self).wf(),
            old(self).stage == SendStage::Ready,
        ensures
            *final(self) == old(self).started(v, blocking, me),
            final(self).wf(),
    {
        self.idle = Idle::for_strategy(self.strategy);
        self.blocking = blocking;
        self.me = me;
        self.stage = SendStage::Flag;
        self.value = Some(v);
    }

    /// Starts the drop of the handle.
    pub fn start_drop(&mut self)
        requires
            old(self).wf(),
            old(self).stage == SendStage::Ready,
        ensures
            *final(self) == old(self).to(SendStage::Close),
            final(self).wf(),
    {
        self.stage = SendStage::Close;
    }

    /// Ends an operation that does not wait, and returns its result.
    pub fn finish_try(&mut self) -> (r: Result<(), TrySendError<T>>)
        requires
            old(self).wf(),
            old(self).stage == SendStage::Sent || old(self).stage == SendStage::Full || old(
                self,
            ).stage == SendStage::Disconnected,
        ensures
            *final(self) == (Sender { stage: SendStage::Ready, value: None, ..*old(self) }),
            final(self).wf(),
            old(self).stage == SendStage::Sent ==> r == Ok::<(), TrySendError<T>>(()),
            old(self).stage == SendStage::Full ==> r == Err::<(), TrySendError<T>>(
                TrySendError::Full(old(self).value->0),
            ),
            old(self).stage == SendStage::Disconnected ==> r == Err::<(), TrySendError<T>>(
                TrySendError::Disconnected(old(self).value->0),
            ),
    {
        let stage = self.stage;
        self.stage = SendStage::Ready;
        match (stage, self.value.take()) {
            (SendStage::Full, Some(v)) => Err(TrySendError::Full(v)),
            (_, Some(v)) => Err(TrySendError::Disconnected(v)),
            _ => Ok(()),
        }
    }

    /// Ends an operation that waits for room, and returns its result.
    pub fn finish(&mut self) -> (r: Result<(), SendError<T>>)
        requires
            old(self).wf(),
            old(self).stage == SendStage::Sent || old(self).stage == SendStage::Disconnected,
        ensures
            *final(self) == (Sender { stage: SendStage::Ready, value: None, ..*old(self) }),
            final(self).wf(),
            old(self).stage == SendStage::Sent ==> r == Ok::<(), SendError<T>>(()),
            old(self).stage == SendStage::Disconnected ==> r == Err::<(), SendError<T>>(
                SendError(old(self).value->0),
            ),
    {
        self.stage = SendStage::Ready;
        match self.value.take() {
            Some(v) => Err(SendError(v)),
            None => Ok(()),
        }
    }

    /// Makes the access of this stage on `sh` and moves on. A wait counts as over.
    pub fn step(&mut self, sh: &mut Shared<T>)
        requires
            old(self).wf(),
            old(self).cap == old(sh)@.cap,
            old(sh)@.slots.len() == old(sh)@.cap,
            old(self).expects(old(self).sees(old(sh)@)),
        ensures
            *final(self) == old(self).next(old(self).sees(old(sh)@)),
            final(self).wf(),
            final(sh)@ == old(self).leaves(old(sh)@),
    {
        proof {
            crate::index::lemma_cap_positive(self.cap as int);
        }
        match self.stage {
            SendStage::Flag | SendStage::RecheckFlag => {
                self.advance(Event::Flag(sh.disconnected));
            },
            SendStage::Head | SendStage::RecheckHead => {
                self.advance(Event::Index(sh.head));
            },
            SendStage::Write => {
                let i = slot_of(self.tail, self.mask);
                sh.write(i, self.give());
            },
            SendStage::Publish => {
                sh.tail = self.tail + 1;
                self.advance(Event::Done);
            },
            SendStage::Wake(w) => {
                let parked = sh.wake(Side::Consumer, w);
                self.advance(
                    match w {
                        Waking::Load => Event::Flag(parked),
                        _ => Event::Done,
                    },
                );
            },
            SendStage::Register => {
                sh.producer_parker.register(self.me);
                self.advance(Event::Done);
            },
            SendStage::Announce => {
                sh.producer_parker.announce();
                self.advance(Event::Done);
            },
            SendStage::Cancel => {
                sh.producer_parker.cancel();
                self.advance(Event::Done);
            },
            SendStage::Unpark => {
                sh.producer_parker.park();
                self.advance(Event::Done);
            },
            SendStage::Close => {
                sh.disconnected = true;
                self.advance(Event::Done);
            },
            SendStage::CloseWake(side, w) => {
                let parked = sh.wake(side, w);
                self.advance(
                    match w {
                        Waking::Load => Event::Flag(parked),
                        _ => Event::Done,
                    },
                );
            },
            _ => {
                self.advance(Event::Done);
            },
        }
        assert(sh@ =~= old(self).leaves(old(sh)@));
    }

    /// Where an operation that started as `self` on memory `m0` stands: what is known of the
    /// machine `tx` and of the memory `m` at each stage.
    spec fn on_the_way(self, m0: Memory<T>, tx: Sender<T>, m: Memory<T>) -> bool {
        let v = self.value->0;
        let room = !m0.disconnected && !m0.full();
        let stuck = !m0.disconnected && m0.full();
        &&& tx.wf()
        &&& tx.cap == self.cap
        &&& tx.mask == self.mask
        &&& tx.strategy == self.strategy
        &&& tx.idle == self.idle
        &&& tx.blocking == self.blocking
        &&& tx.me == self.me
        &&& tx.cached_head <= m0.head
        &&& tx.fits(m)
        &&& tx.value is Some ==> tx.value == Some(v)
        &&& match tx.stage {
            SendStage::Flag => m == m0,
            SendStage::Head => m == m0 && !m0.disconnected,
            SendStage::Write => m == m0 && room,
            SendStage::Publish => m == m0.put(m0.tail as int, Some(v)) && room,
            SendStage::Wake(Waking::Load) => m == m0.pushed(v) && room,
            SendStage::Wake(Waking::Clear) => m == m0.pushed(v) && room && m0.consumer.parked,
            SendStage::Wake(Waking::Take) => {
                &&& m == m0.pushed(v).waking(Side::Consumer, Waking::Clear)
                &&& room
                &&& m0.consumer.parked
            },
            SendStage::Sent => m == m0.pushed(v).notified(Side::Consumer) && room,
            SendStage::Full => m == m0 && stuck,
            SendStage::Disconnected => m == m0 && m0.disconnected,
            SendStage::Pause | SendStage::Register => m == m0 && stuck,
            SendStage::Announce => {
                &&& stuck
                &&& m == m0.with_parker(
                    Side::Producer,
                    crate::notify::Parker { slot: Some(self.me), ..m0.producer },
                )
            },
            SendStage::RecheckHead | SendStage::RecheckFlag | SendStage::Park => {
                &&& stuck
                &&& m == m0.prepared(Side::Producer, self.me)
            },
            _ => false,
        }
    }

    /// How many accesses the operation still takes, at most, to its end or to a wait.
    pub open spec fn left(self) -> nat {
        match self.stage {
            SendStage::Flag => 8,
            SendStage::Head => 7,
            SendStage::Write => 6,
            SendStage::Publish => 5,
            SendStage::Wake(Waking::Load) => 4,
            SendStage::Wake(Waking::Clear) => 3,
            SendStage::Wake(Waking::Take) => 2,
            SendStage::Register => 6,
            SendStage::Announce => 5,
            SendStage::RecheckHead => 4,
            SendStage::RecheckFlag => 3,
            SendStage::Close => 7,
            SendStage::CloseWake(Side::Consumer, Waking::Load) => 6,
            SendStage::CloseWake(Side::Consumer, Waking::Clear) => 5,
            SendStage::CloseWake(Side::Consumer, Waking::Take) => 4,
            SendStage::CloseWake(Side::Producer, Waking::Load) => 3,
            SendStage::CloseWake(Side::Producer, Waking::Clear) => 2,
            SendStage::CloseWake(Side::Producer, Waking::Take) => 1,
            _ => 0,
        }
    }

    /// The operation is over, or waits.
    pub open spec fn settled(self) -> bool {
        match self.stage {
            SendStage::Sent
            | SendStage::Full
            | SendStage::Disconnected
            | SendStage::Pause
            | SendStage::Park => true,
            _ => false,
        }
    }

    fn is_settled(&self) -> (yes: bool)
        ensures
            yes == self.settled(),
    {
        match self.stage {
            SendStage::Sent
            | SendStage::Full
            | SendStage::Disconnected
            | SendStage::Pause
            | SendStage::Park => true,
            _ => false,
        }
    }

    /// Runs an operation that just started on `sh`, to its end or to a wait.
    fn run(&mut self, sh: &mut Shared<T>)
        requires
            old(self).wf(),
            old(self).stage == SendStage::Flag,
            old(self).fits(old(sh)@),
            old(sh)@.wf(),
            !old(sh)@.full() ==> old(sh)@.tail < usize::MAX,
        ensures
            final(self).settled(),
            old(self).on_the_way(old(sh)@, *final(self), final(sh)@),
    {
        let ghost tx0 = *self;
        let ghost m0 = sh@;
        while !self.is_settled()
            invariant
                tx0.wf(),
                tx0.stage == SendStage::Flag,
                m0.wf(),
                !m0.full() ==> m0.tail < usize::MAX,
                tx0.on_the_way(m0, *self, sh@),
            ensures
                self.settled(),
            decreases self.left(),
        {
            proof {
                crate::index::lemma_cap_positive(m0.cap as int);
            }
            self.step(sh);
            assert(tx0.on_the_way(m0, *self, sh@));
        }
    }

    /// Pushes without waiting.
    pub fn try_send(&mut self, sh: &mut Shared<T>, v: T) -> (r: Result<(), TrySendError<T>>)
        requires
            old(self).rests_on(old(sh)@),
            old(sh)@.wf(),
            !old(sh)@.full() ==> old(sh)@.tail < usize::MAX,
        ensures
            final(self).rests_on(final(sh)@),
            final(sh)@.wf(),
            old(sh)@.disconnected ==> {
                &&& r == Err::<(), TrySendError<T>>(TrySendError::Disconnected(v))
                &&& final(sh)@ == old(sh)@
            },
            !old(sh)@.disconnected && old(sh)@.full() ==> {
                &&& r == Err::<(), TrySendError<T>>(TrySendError::Full(v))
                &&& final(sh)@ == old(sh)@
            },
            !old(sh)@.disconnected && !old(sh)@.full() ==> {
                &&& r == Ok::<(), TrySendError<T>>(())
                &&& final(sh)@ == old(sh)@.pushed(v).notified(Side::Consumer)
                &&& final(sh)@.contents() == old(sh)@.contents().push(v)
            },
            Reply::Sent(r) == old(sh)@.seen().reply(Call::TrySend(v)),
            final(sh)@.seen() == old(sh)@.seen().after(Call::TrySend(v)),
    {
        self.start(v, false, 0);
        self.run(sh);
        proof {
            if !old(sh)@.disconnected && !old(sh)@.full() {
                crate::spsc::lemma_pushed(old(sh)@, v);
                crate::spsc::lemma_same_ring(old(sh)@.pushed(v), sh@);
            }
        }
        self.finish_try()
    }

    /// The operation under way waits for room in the ring with memory `m`, with `v` to send.
    pub open spec fn waits_on(self, m: Memory<T>, v: T) -> bool {
        &&& self.wf()
        &&& self.stage == SendStage::Pause || self.stage == SendStage::Park
        &&& self.value == Some(v)
        &&& self.fits(m)
    }

    /// What a run of a blocking operation does that finds the memory `m`: without a receiver
    /// it hands the value back, with room it pushes it, and otherwise it waits as the
    /// strategy says; before it sleeps until woken, it announces that.
    pub open spec fn send_turn(
        self,
        m: Memory<T>,
        r: Turn<Result<(), SendError<T>>>,
        tx: Sender<T>,
        m2: Memory<T>,
    ) -> bool {
        let v = self.value->0;
        if m.disconnected {
            &&& r == Turn::Done(Err::<(), SendError<T>>(SendError(v)))
            &&& tx.rests_on(m2)
            &&& m2 == m
        } else if !m.full() {
            &&& r == Turn::Done(Ok::<(), SendError<T>>(()))
            &&& tx.rests_on(m2)
            &&& m2 == m.pushed(v).notified(Side::Consumer)
            &&& m2.contents() == m.contents().push(v)
            &&& m2.seen() == m.seen().after(Call::TrySend(v))
        } else {
            &&& r == Turn::<Result<(), SendError<T>>>::Wait(self.strategy.rung(self.idle))
            &&& tx.waits_on(m2, v)
            &&& tx.strategy == self.strategy
            &&& tx.idle == self.idle
            &&& tx.me == self.me
            &&& m2 == if self.strategy == WaitStrategy::Park {
                m.prepared(Side::Producer, self.me)
            } else {
                m
            }
            &&& m2.contents() == m.contents()
        }
    }

    /// Runs a blocking operation that just started on `sh`.
    fn turn(&mut self, sh: &mut Shared<T>) -> (r: Turn<Result<(), SendError<T>>>)
        requires
            old(self).wf(),
            old(self).stage == SendStage::Flag,
            old(self).blocking,
            old(self).fits(old(sh)@),
            old(sh)@.wf(),
            !old(sh)@.full() ==> old(sh)@.tail < usize::MAX,
        ensures
            old(self).send_turn(old(sh)@, r, *final(self), final(sh)@),
            final(sh)@.wf(),
    {
        self.run(sh);
        proof {
            if !old(sh)@.disconnected && !old(sh)@.full() {
                crate::spsc::lemma_pushed(old(sh)@, old(self).value->0);
                crate::spsc::lemma_same_ring(old(sh)@.pushed(old(self).value->0), sh@);
            } else {
                crate::spsc::lemma_same_ring(old(sh)@, sh@);
            }
        }
        match self.stage {
            SendStage::Pause => Turn::Wait(self.strategy.choose_rung(&self.idle)),
            SendStage::Park => Turn::Wait(Rung::Park),
            _ => Turn::Done(self.finish()),
        }
    }

    /// Pushes, waiting while the ring is full. Fails only without a receiver. When it has to
    /// wait, it says how; [`Sender::resume`] goes on after that. `me` names the thread.
    pub fn send(&mut self, sh: &mut Shared<T>, v: T, me: u64) -> (r: Turn<
        Result<(), SendError<T>>,
    >)
        requires
            old(self).rests_on(old(sh)@),
            old(sh)@.wf(),
            !old(sh)@.full() ==> old(sh)@.tail < usize::MAX,
        ensures
            old(self).started(v, true, me).send_turn(old(sh)@, r, *final(self), final(sh)@),
            final(sh)@.wf(),
    {
        self.start(v, true, me);
        self.turn(sh)
    }

    /// What a blocked operation leaves behind when its wait is over.
    pub open spec fn rested(self, m: Memory<T>) -> Memory<T> {
        if self.stage == SendStage::Park {
            m.waking(Side::Producer, Waking::Clear)
        } else {
            m
        }
    }

    /// The blocked machine when its wait is over.
    pub open spec fn awake(self) -> Sender<T> {
        Sender { idle: self.strategy.up(self.idle), stage: SendStage::Flag, ..self }
    }

    /// Goes on with a blocking operation whose wait is over.
    pub fn resume(&mut self, sh: &mut Shared<T>) -> (r: Turn<Result<(), SendError<T>>>)
        requires
            old(self).waits_on(old(sh)@, old(self).value->0),
            old(sh)@.wf(),
            !old(sh)@.full() ==> old(sh)@.tail < usize::MAX,
        ensures
            old(self).awake().send_turn(old(self).rested(old(sh)@), r, *final(self), final(sh)@),
            final(sh)@.wf(),
    {
        let sleeping = match self.stage {
            SendStage::Park => true,
            _ => false,
        };
        self.step(sh);
        if sleeping {
            self.step(sh);
        }
        proof {
            crate::spsc::lemma_same_ring(old(sh)@, sh@);
            assert(*self == old(self).awake());
        }
        self.turn(sh)
    }

    /// Drops the handle: the receiver learns that no more items come, and is woken.
    pub fn drop(self, sh: &mut Shared<T>)
        requires
            self.rests_on(old(sh)@),
            old(sh)@.wf(),
        ensures
            final(sh)@ == old(sh)@.closed(),
            final(sh)@.wf(),
            final(sh)@.contents() == old(sh)@.contents(),
            final(sh)@.seen() == old(sh)@.seen().after(Call::Close),
    {
        let mut tx = self;
        tx.start_drop();
        let ghost m0 = sh@;
        let ghost m1 = Memory { disconnected: true, ..m0 };
        let ghost m2 = m1.woken(Side::Consumer);
        while !tx.is_gone()
            invariant
                tx.wf(),
                tx.cap == sh@.cap,
                sh@.slots.len() == sh@.cap,
                m1 == (Memory { disconnected: true, ..m0 }),
                m2 == m1.woken(Side::Consumer),
                match tx.stage {
                    SendStage::Close => sh@ == m0,
                    SendStage::CloseWake(Side::Consumer, Waking::Load) => sh@ == m1,
                    SendStage::CloseWake(Side::Consumer, Waking::Clear) => sh@ == m1
                        && m1.consumer.parked,
                    SendStage::CloseWake(Side::Consumer, Waking::Take) => sh@ == m1.waking(
                        Side::Consumer,
                        Waking::Clear,
                    ) && m1.consumer.parked,
                    SendStage::CloseWake(Side::Producer, Waking::Load) => sh@ == m2,
                    SendStage::CloseWake(Side::Producer, Waking::Clear) => sh@ == m2
                        && m2.producer.parked,
                    SendStage::CloseWake(Side::Producer, Waking::Take) => sh@ == m2.waking(
                        Side::Producer,
                        Waking::Clear,
                    ) && m2.producer.parked,
                    SendStage::Gone => sh@ == m2.woken(Side::Producer),
                    _ => false,
                },
            ensures
                tx.stage == SendStage::Gone,
            decreases tx.left(),
        {
            tx.step(sh);
        }
        proof {
            crate::spsc::lemma_same_ring(m0, sh@);
        }
    }

    fn is_gone(&self) -> (yes: bool)
        ensures
            yes == (self.stage == SendStage::Gone),
    {
        match self.stage {
            SendStage::Gone => true,
            _ => false,
        }
    }
}

} // verus!
