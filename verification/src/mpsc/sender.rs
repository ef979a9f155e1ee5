//! A producer.

use vstd::prelude::*;

use crate::index::slot_of;
use crate::mpsc::{Call, Event, Memory, Reply, Shared};
use crate::notify::Waking;
use crate::wait::{Idle, Rung, Turn, WaitStrategy};
use crate::{SendError, TrySendError};

verus! {

/// Where a producer's operation stands: the access to the shared memory that comes next.
#[derive(Debug, Clone, Copy, PartialEq, Eq, Hash)]
pub enum SendStage {
    /// No operation is under way.
    Ready,
    /// Look whether the receiver is gone.
    Flag,
    /// Read the next sequence number to claim.
    Claim,
    /// Too far ahead by the copy of the head: read the head again.
    Head,
    /// Claim the sequence number.
    Swap,
    /// Another producer was faster: spin a little before the next attempt.
    Backoff,
    /// Put the value into its slot.
    Write,
    /// Publish it by storing the slot's mark.
    Publish,
    /// Wake the consumer.
    Wake(Waking),
    /// Wait by itself, then try again.
    Pause,
    /// Leave the name of the thread.
    Register,
    /// Raise the flag that it is going to sleep.
    Announce,
    /// Look at the next sequence number once more.
    RecheckClaim,
    /// Look at the head once more.
    RecheckHead,
    /// Look once more whether the receiver is gone.
    RecheckFlag,
    /// Sleep until woken.
    Park,
    /// Over: the value is in the ring.
    Sent,
    /// Over: the ring is full.
    Full,
    /// Over: the receiver is gone.
    Disconnected,
    /// The handle is being dropped: count it out.
    Close,
    /// It was the last one: wake the consumer.
    CloseWake(Waking),
    /// The handle is gone.
    Gone,
}

/// The access to the shared memory that a producer asks for.
#[derive(Debug, Clone, Copy, PartialEq, Eq, Hash)]
pub enum SendAction {
    /// Read the flag that the receiver is gone; answer with [`Event::Flag`].
    LoadDropped,
    /// Read the next sequence number to claim; answer with [`Event::Index`].
    LoadClaim,
    /// Read the head; answer with [`Event::Index`].
    LoadHead,
    /// Replace this next sequence number by its successor; answer with [`Event::Claimed`] or
    /// [`Event::Lost`].
    Swap(usize),
    /// Spin this many times; answer with [`Event::Done`].
    Spin(u32),
    /// Put what [`Sender::give`] returns into this slot.
    WriteSlot(usize),
    /// Store this mark of this slot; answer with [`Event::Done`].
    StoreMark(usize, i64),
    /// Take one off the number of senders; answer with [`Event::Index`] and the number that
    /// there was.
    CountOut,
    /// Read the flag of the consumer's parker; answer with [`Event::Flag`].
    LoadParked,
    /// Lower the flag of the consumer's parker; answer with [`Event::Done`].
    ClearParked,
    /// Take the name from the consumer's parker and unpark the thread; answer with
    /// [`Event::Done`].
    TakeWaiter,
    /// Leave the name of the thread on the producers' list; answer with [`Event::Done`].
    Register,
    /// Raise the flag of the producers' list; answer with [`Event::Done`].
    Announce,
    /// Wait, then answer with [`Event::Done`].
    Pause(Rung),
    /// Nothing: the operation is over.
    Return,
}

/// The most spins between two attempts to claim.
pub const SPINS_MAX: u32 = 64;

/// A producer: a copy of the head.
#[derive(Debug)]
pub struct Sender<T> {
    pub cached_head: usize,
    pub cap: usize,
    pub mask: usize,
    pub strategy: WaitStrategy,
    /// The sequence number that the operation under way is after, or has.
    pub seq: usize,
    /// How long to spin after the next lost attempt.
    pub spins: u32,
    /// Where the operation under way stands on the ladder.
    pub idle: Idle,
    /// The operation under way waits for room.
    pub blocking: bool,
    /// The name of the thread for which the operation under way waits.
    pub me: u64,
    pub stage: SendStage,
    /// The value, until it is written to its slot or handed back.
    pub value: Option<T>,
}

impl SendStage {
    /// The stages at which the machine has the value.
    pub open spec fn has_value(self) -> bool {
        match self {
            SendStage::Ready
            | SendStage::Publish
            | SendStage::Wake(_)
            | SendStage::Sent
            | SendStage::Close
            | SendStage::CloseWake(_)
            | SendStage::Gone => false,
            _ => true,
        }
    }

    /// The stages of a blocked operation that is going to sleep.
    pub open spec fn parks(self) -> bool {
        match self {
            SendStage::Register
            | SendStage::Announce
            | SendStage::RecheckClaim
            | SendStage::RecheckHead
            | SendStage::RecheckFlag
            | SendStage::Park => true,
            _ => false,
        }
    }

    /// The stages at which the operation has claimed its sequence number and not published it.
    pub open spec fn claimed(self) -> bool {
        self == SendStage::Write || self == SendStage::Publish
    }
}

impl<T> Sender<T> {
    /// What holds of the local state at every stage.
    pub open spec fn wf(self) -> bool {
        &&& crate::index::is_cap(self.cap as int)
        &&& self.mask == self.cap - 1
        &&& self.idle.wf()
        &&& 0 < self.spins <= SPINS_MAX
        &&& self.value is Some <==> self.stage.has_value()
        &&& (self.stage == SendStage::Swap || self.stage.claimed()) ==> self.seq
            < crate::mpsc::limit(self.cached_head, self.cap)
        &&& self.stage is Wake ==> self.strategy == WaitStrategy::Park
        &&& self.stage.parks() ==> self.strategy == WaitStrategy::Park && self.blocking
        &&& self.stage == SendStage::Pause ==> self.strategy != WaitStrategy::Park && self.blocking
        &&& self.stage == SendStage::Full ==> !self.blocking
    }

    /// The handle belongs to the ring with memory `m` and no operation of it is under way.
    pub open spec fn rests_on(self, m: Memory<T>) -> bool {
        &&& self.wf()
        &&& self.stage == SendStage::Ready
        &&& self.fits(m)
    }

    /// The local state agrees with the memory `m`.
    pub open spec fn fits(self, m: Memory<T>) -> bool {
        &&& self.cap == m.cap
        &&& self.strategy == m.strategy
        &&& self.cached_head <= m.head
    }

    /// The machine at another stage.
    pub open spec fn to(self, stage: SendStage) -> Sender<T> {
        Sender { stage, ..self }
    }

    /// Claim the sequence number, or read the head again if it is too far ahead.
    pub open spec fn attempt(self) -> Sender<T> {
        if self.seq >= crate::mpsc::limit(self.cached_head, self.cap) {
            self.to(SendStage::Head)
        } else {
            self.to(SendStage::Swap)
        }
    }

    /// The ring is full: give up, or wait as the strategy says.
    pub open spec fn blocked(self) -> Sender<T> {
        if !self.blocking {
            self.to(SendStage::Full)
        } else if self.strategy == WaitStrategy::Park {
            self.to(SendStage::Register)
        } else {
            self.to(SendStage::Pause)
        }
    }

    /// The events that can answer the action of this stage.
    pub open spec fn expects(self, ev: Event) -> bool {
        match self.stage {
            SendStage::Flag
            | SendStage::RecheckFlag
            | SendStage::Wake(Waking::Load)
            | SendStage::CloseWake(Waking::Load) => ev is Flag,
            SendStage::Claim
            | SendStage::Head
            | SendStage::RecheckClaim
            | SendStage::RecheckHead
            | SendStage::Close => ev is Index,
            SendStage::Swap => ev is Claimed || ev is Lost,
            SendStage::Ready
            | SendStage::Sent
            | SendStage::Full
            | SendStage::Disconnected
            | SendStage::Gone => false,
            _ => ev is Done,
        }
    }

    /// The machine after the access of this stage was made and returned `ev`.
    pub open spec fn next(self, ev: Event) -> Sender<T> {
        match (self.stage, ev) {
            (SendStage::Flag, Event::Flag(gone)) => if gone {
                self.to(SendStage::Disconnected)
            } else {
                self.to(SendStage::Claim)
            },
            (SendStage::Claim, Event::Index(claim)) => (Sender { seq: claim, ..self }).attempt(),
            (SendStage::Head, Event::Index(head)) => {
                let tx = Sender { cached_head: head, ..self };
                if self.seq >= crate::mpsc::limit(head, self.cap) {
                    tx.blocked()
                } else {
                    tx.to(SendStage::Swap)
                }
            },
            (SendStage::Swap, Event::Claimed) => self.to(SendStage::Write),
            (SendStage::Swap, Event::Lost(claim)) => Sender {
                seq: claim,
                stage: SendStage::Backoff,
                ..self
            },
            (SendStage::Backoff, Event::Done) => (Sender {
                spins: if self.spins * 2 < SPINS_MAX {
                    (self.spins * 2) as u32
                } else {
                    SPINS_MAX
                },
                ..self
            }).attempt(),
            (SendStage::Write, Event::Done) => Sender {
                value: None,
                stage: SendStage::Publish,
                ..self
            },
            (SendStage::Publish, Event::Done) => if self.strategy == WaitStrategy::Park {
                self.to(SendStage::Wake(Waking::Load))
            } else {
                self.to(SendStage::Sent)
            },
            (SendStage::Wake(Waking::Load), Event::Flag(parked)) => if parked {
                self.to(SendStage::Wake(Waking::Clear))
            } else {
                self.to(SendStage::Sent)
            },
            (SendStage::Wake(Waking::Clear), Event::Done) => self.to(
                SendStage::Wake(Waking::Take),
            ),
            (SendStage::Wake(Waking::Take), Event::Done) => self.to(SendStage::Sent),
            (SendStage::Pause, Event::Done) => Sender {
                idle: self.strategy.up(self.idle),
                stage: SendStage::Flag,
                ..self
            },
            (SendStage::Register, Event::Done) => self.to(SendStage::Announce),
            (SendStage::Announce, Event::Done) => self.to(SendStage::RecheckClaim),
            (SendStage::RecheckClaim, Event::Index(claim)) => Sender {
                seq: claim,
                stage: SendStage::RecheckHead,
                ..self
            },
            (SendStage::RecheckHead, Event::Index(head)) => if self.seq < crate::mpsc::limit(
                head,
                self.cap,
            ) {
                self.to(SendStage::Flag)
            } else {
                self.to(SendStage::RecheckFlag)
            },
            (SendStage::RecheckFlag, Event::Flag(gone)) => if gone {
                self.to(SendStage::Flag)
            } else {
                self.to(SendStage::Park)
            },
            (SendStage::Park, Event::Done) => self.to(SendStage::Flag),
            (SendStage::Close, Event::Index(n)) => if n == 1 {
                self.to(SendStage::CloseWake(Waking::Load))
            } else {
                self.to(SendStage::Gone)
            },
            (SendStage::CloseWake(Waking::Load), Event::Flag(parked)) => if parked {
                self.to(SendStage::CloseWake(Waking::Clear))
            } else {
                self.to(SendStage::Gone)
            },
            (SendStage::CloseWake(Waking::Clear), Event::Done) => self.to(
                SendStage::CloseWake(Waking::Take),
            ),
            (SendStage::CloseWake(Waking::Take), Event::Done) => self.to(SendStage::Gone),
            _ => self,
        }
    }

    /// The access that comes next.
    pub open spec fn asks(self) -> SendAction {
        match self.stage {
            SendStage::Ready
            | SendStage::Sent
            | SendStage::Full
            | SendStage::Disconnected
            | SendStage::Gone => SendAction::Return,
            SendStage::Flag | SendStage::RecheckFlag => SendAction::LoadDropped,
            SendStage::Claim | SendStage::RecheckClaim => SendAction::LoadClaim,
            SendStage::Head | SendStage::RecheckHead => SendAction::LoadHead,
            SendStage::Swap => SendAction::Swap(self.seq),
            SendStage::Backoff => SendAction::Spin(self.spins),
            SendStage::Write => SendAction::WriteSlot(
                crate::index::slot(self.seq as int, self.cap as int) as usize,
            ),
            SendStage::Publish => SendAction::StoreMark(
                crate::index::slot(self.seq as int, self.cap as int) as usize,
                crate::mpsc::mark(self.seq as int, self.cap as int),
            ),
            SendStage::Wake(w) | SendStage::CloseWake(w) => match w {
                Waking::Load => SendAction::LoadParked,
                Waking::Clear => SendAction::ClearParked,
                Waking::Take => SendAction::TakeWaiter,
            },
            SendStage::Pause => SendAction::Pause(self.strategy.rung(self.idle)),
            SendStage::Register => SendAction::Register,
            SendStage::Announce => SendAction::Announce,
            SendStage::Park => SendAction::Pause(Rung::Park),
            SendStage::Close => SendAction::CountOut,
        }
    }

    /// What the access of this stage returns on memory `m` when it reads the newest value.
    pub open spec fn sees(self, m: Memory<T>) -> Event {
        match self.stage {
            SendStage::Flag | SendStage::RecheckFlag => Event::Flag(m.rx_dropped),
            SendStage::Claim | SendStage::RecheckClaim => Event::Index(m.claim),
            SendStage::Head | SendStage::RecheckHead => Event::Index(m.head),
            SendStage::Swap => if m.claim == self.seq {
                Event::Claimed
            } else {
                Event::Lost(m.claim)
            },
            SendStage::Wake(Waking::Load) | SendStage::CloseWake(Waking::Load) => Event::Flag(
                m.consumer.parked,
            ),
            SendStage::Close => Event::Index(m.senders),
            _ => Event::Done,
        }
    }

    /// The memory after the access of this stage, which returned `ev`.
    pub open spec fn leaves(self, m: Memory<T>, ev: Event) -> Memory<T> {
        match self.stage {
            SendStage::Swap => if ev == Event::Claimed {
                Memory { claim: (self.seq + 1) as usize, ..m }
            } else {
                m
            },
            SendStage::Write => m.put(self.seq as int, self.value),
            SendStage::Publish => m.publish(self.seq as int),
            SendStage::Wake(w) | SendStage::CloseWake(w) => m.waking(w),
            SendStage::Register => Memory { waiters: m.waiters.push(self.me), ..m },
            SendStage::Announce => Memory { waiting: true, ..m },
            SendStage::Close => Memory { senders: (m.senders - 1) as usize, ..m },
            _ => m,
        }
    }

    /// The first producer handle of a new ring with `cap` slots.
    pub fn new(cap: usize, strategy: WaitStrategy) -> (tx: Sender<T>)
        requires
            crate::index::is_cap(cap as int),
        ensures
            tx.rests_on(crate::mpsc::empty_memory::<T>(cap, strategy)),
    {
        proof {
            crate::index::lemma_cap_positive(cap as int);
        }
        Sender {
            cached_head: 0,
            cap,
            mask: cap - 1,
            strategy,
            seq: 0,
            spins: 1,
            idle: Idle::for_strategy(strategy),
            blocking: false,
            me: 0,
            stage: SendStage::Ready,
            value: None,
        }
    }

    /// The access that comes next.
    pub fn action(&self) -> (a: SendAction)
        requires
            self.wf(),
        ensures
            a == self.asks(),
    {
        proof {
            crate::index::lemma_cap_positive(self.cap as int);
        }
        match self.stage {
            SendStage::Ready
            | SendStage::Sent
            | SendStage::Full
            | SendStage::Disconnected
            | SendStage::Gone => SendAction::Return,
            SendStage::Flag | SendStage::RecheckFlag => SendAction::LoadDropped,
            SendStage::Claim | SendStage::RecheckClaim => SendAction::LoadClaim,
            SendStage::Head | SendStage::RecheckHead => SendAction::LoadHead,
            SendStage::Swap => SendAction::Swap(self.seq),
            SendStage::Backoff => SendAction::Spin(self.spins),
            SendStage::Write => SendAction::WriteSlot(slot_of(self.seq, self.mask)),
            SendStage::Publish => SendAction::StoreMark(
                slot_of(self.seq, self.mask),
                crate::mpsc::mark_of(self.seq, self.cap),
            ),
            SendStage::Wake(w) | SendStage::CloseWake(w) => match w {
                Waking::Load => SendAction::LoadParked,
                Waking::Clear => SendAction::ClearParked,
                Waking::Take => SendAction::TakeWaiter,
            },
            SendStage::Pause => SendAction::Pause(self.strategy.choose_rung(&self.idle)),
            SendStage::Register => SendAction::Register,
            SendStage::Announce => SendAction::Announce,
            SendStage::Park => SendAction::Pause(Rung::Park),
            SendStage::Close => SendAction::CountOut,
        }
    }

    /// Takes the value out, to be put into its slot; the write counts as made.
    pub fn give(&mut self) -> (v: T)
        requires
            old(self).wf(),
            old(self).stage == SendStage::Write,
        ensures
            Some(v) == old(self).value,
            *final(self) == old(self).next(Event::Done),
            final(self).wf(),
    {
        self.stage = SendStage::Publish;
        self.value.take().unwrap()
    }

    fn try_claim(&mut self)
        ensures
            *final(self) == old(self).attempt(),
    {
        self.stage = if self.seq >= self.cached_head.saturating_add(self.cap) {
            SendStage::Head
        } else {
            SendStage::Swap
        };
    }

    /// Moves on after the access of this stage was made and returned `ev`.
    pub fn advance(&mut self, ev: Event)
        requires
            old(self).wf(),
            old(self).expects(ev),
            old(self).stage != SendStage::Write,
        ensures
            *final(self) == old(self).next(ev),
            final(self).wf(),
    {
        match (self.stage, ev) {
            (SendStage::Flag, Event::Flag(gone)) => {
                self.stage = if gone {
                    SendStage::Disconnected
                } else {
                    SendStage::Claim
                };
            },
            (SendStage::Claim, Event::Index(claim)) => {
                self.seq = claim;
                self.try_claim();
            },
            (SendStage::Head, Event::Index(head)) => {
                self.cached_head = head;
                self.stage = if self.seq < head.saturating_add(self.cap) {
                    SendStage::Swap
                } else if !self.blocking {
                    SendStage::Full
                } else if self.strategy == WaitStrategy::Park {
                    SendStage::Register
                } else {
                    SendStage::Pause
                };
            },
            (SendStage::Swap, Event::Claimed) => {
                self.stage = SendStage::Write;
            },
            (SendStage::Swap, Event::Lost(claim)) => {
                self.seq = claim;
                self.stage = SendStage::Backoff;
            },
            (SendStage::Backoff, _) => {
                self.spins = if self.spins * 2 < SPINS_MAX {
                    self.spins * 2
                } else {
                    SPINS_MAX
                };
                self.try_claim();
            },
            (SendStage::Publish, _) => {
                self.stage = if self.strategy == WaitStrategy::Park {
                    SendStage::Wake(Waking::Load)
                } else {
                    SendStage::Sent
                };
            },
            (SendStage::Wake(Waking::Load), Event::Flag(true)) => {
                self.stage = SendStage::Wake(Waking::Clear);
            },
            (SendStage::Wake(Waking::Clear), _) => {
                self.stage = SendStage::Wake(Waking::Take);
            },
            (SendStage::Wake(_), _) => {
                self.stage = SendStage::Sent;
            },
            (SendStage::Pause, _) => {
                self.strategy.climb(&mut self.idle);
                self.stage = SendStage::Flag;
            },
            (SendStage::Register, _) => {
                self.stage = SendStage::Announce;
            },
            (SendStage::Announce, _) => {
                self.stage = SendStage::RecheckClaim;
            },
            (SendStage::RecheckClaim, Event::Index(claim)) => {
                self.seq = claim;
                self.stage = SendStage::RecheckHead;
            },
            (SendStage::RecheckHead, Event::Index(head)) => {
                self.stage = if self.seq < head.saturating_add(self.cap) {
                    SendStage::Flag
                } else {
                    SendStage::RecheckFlag
                };
            },
            (SendStage::RecheckFlag, Event::Flag(gone)) => {
                self.stage = if gone {
                    SendStage::Flag
                } else {
                    SendStage::Park
                };
            },
            (SendStage::Park, _) => {
                self.stage = SendStage::Flag;
            },
            (SendStage::Close, Event::Index(n)) => {
                self.stage = if n == 1 {
                    SendStage::CloseWake(Waking::Load)
                } else {
                    SendStage::Gone
                };
            },
            (SendStage::CloseWake(Waking::Load), Event::Flag(true)) => {
                self.stage = SendStage::CloseWake(Waking::Clear);
            },
            (SendStage::CloseWake(Waking::Clear), _) => {
                self.stage = SendStage::CloseWake(Waking::Take);
            },
            (SendStage::CloseWake(_), _) => {
                self.stage = SendStage::Gone;
            },
            _ => {},
        }
    }

    /// The machine at the start of an operation that sends `v`.
    pub open spec fn started(self, v: T, blocking: bool, me: u64) -> Sender<T> {
        Sender {
            spins: 1,
            idle: Idle::start(self.strategy),
            blocking,
            me,
            stage: SendStage::Flag,
            value: Some(v),
            ..self
        }
    }

    /// Starts an operation that sends `v`; it waits for room if `blocking`, for the thread
    /// named `me`.
    pub fn start(&mut self, v: T, blocking: bool, me: u64)
        requires
            old(self).wf(),
            old(self).stage == SendStage::Ready,
        ensures
            *final(self) == old(self).started(v, blocking, me),
            final(self).wf(),
    {
        self.spins = 1;
        self.idle = Idle::for_strategy(self.strategy);
        self.blocking = blocking;
        self.me = me;
        self.stage = SendStage::Flag;
        self.value = Some(v);
    }

    /// Starts the drop of the handle.
    pub fn start_drop(&mut self)
        requires
            old(self).wf(),
            old(self).stage == SendStage::Ready,
        ensures
            *final(self) == old(self).to(SendStage::Close),
            final(self).wf(),
    {
        self.stage = SendStage::Close;
    }

    /// Ends an operation that does not wait, and returns its result.
    pub fn finish_try(&mut self) -> (r: Result<(), TrySendError<T>>)
        requires
            old(self).wf(),
            old(self).stage == SendStage::Sent || old(self).stage == SendStage::Full || old(
                self,
            ).stage == SendStage::Disconnected,
        ensures
            *final(self) == (Sender { stage: SendStage::Ready, value: None, ..*old(self) }),
            final(self).wf(),
            old(self).stage == SendStage::Sent ==> r == Ok::<(), TrySendError<T>>(()),
            old(self).stage == SendStage::Full ==> r == Err::<(), TrySendError<T>>(
                TrySendError::Full(old(self).value->0),
            ),
            old(self).stage == SendStage::Disconnected ==> r == Err::<(), TrySendError<T>>(
                TrySendError::Disconnected(old(self).value->0),
            ),
    {
        let stage = self.stage;
        self.stage = SendStage::Ready;
        match (stage, self.value.take()) {
            (SendStage::Full, Some(v)) => Err(TrySendError::Full(v)),
            (_, Some(v)) => Err(TrySendError::Disconnected(v)),
            _ => Ok(()),
        }
    }

    /// Ends an operation that waits for room, and returns its result.
    pub fn finish(&mut self) -> (r: Result<(), SendError<T>>)
        requires
            old(self).wf(),
            old(self).stage == SendStage::Sent || old(self).stage == SendStage::Disconnected,
        ensures
            *final(self) == (Sender { stage: SendStage::Ready, value: None, ..*old(self) }),
            final(self).wf(),
            old(self).stage == SendStage::Sent ==> r == Ok::<(), SendError<T>>(()),
            old(self).stage == SendStage::Disconnected ==> r == Err::<(), SendError<T>>(
                SendError(old(self).value->0),
            ),
    {
        self.stage = SendStage::Ready;
        match self.value.take() {
            Some(v) => Err(SendError(v)),
            None => Ok(()),
        }
    }

    /// Makes the access of this stage on `sh` and moves on. A wait counts as over.
    pub fn step(&mut self, sh: &mut Shared<T>)
        requires
            old(self).wf(),
            old(self).cap == old(sh)@.cap,
            old(sh)@.sized(),
            old(self).expects(old(self).sees(old(sh)@)),
            old(self).stage == SendStage::Close ==> old(sh)@.senders > 0,
        ensures
            *final(self) == old(self).next(old(self).sees(old(sh)@)),
            final(self).wf(),
            final(sh)@ == old(self).leaves(old(sh)@, old(self).sees(old(sh)@)),
    {
        proof {
            crate::index::lemma_cap_positive(self.cap as int);
        }
        match self.stage {
            SendStage::Flag | SendStage::RecheckFlag => {
                self.advance(Event::Flag(sh.rx_dropped));
            },
            SendStage::Claim | SendStage::RecheckClaim => {
                self.advance(Event::Index(sh.claim));
            },
            SendStage::Head | SendStage::RecheckHead => {
                self.advance(Event::Index(sh.head));
            },
            SendStage::Swap => {
                if sh.claim == self.seq {
                    sh.claim = self.seq + 1;
                    self.advance(Event::Claimed);
                } else {
                    self.advance(Event::Lost(sh.claim));
                }
            },
            SendStage::Write => {
                let i = slot_of(self.seq, self.mask);
                sh.write(i, self.give());
            },
            SendStage::Publish => {
                let i = slot_of(self.seq, self.mask);
                let mark = crate::mpsc::mark_of(self.seq, self.cap);
                sh.avail.set(i, mark);
                self.advance(Event::Done);
            },
            SendStage::Wake(w) | SendStage::CloseWake(w) => {
                let parked = sh.wake(w);
                self.advance(
                    match w {
                        Waking::Load => Event::Flag(parked),
                        _ => Event::Done,
                    },
                );
            },
            SendStage::Register => {
                sh.prod_waiters.register(self.me);
                self.advance(Event::Done);
            },
            SendStage::Announce => {
                sh.prod_waiters.announce();
                self.advance(Event::Done);
            },
            SendStage::Close => {
                let n = sh.senders;
                sh.senders = n - 1;
                self.advance(Event::Index(n));
            },
            _ => {
                self.advance(Event::Done);
            },
        }
        assert(sh@ =~= old(self).leaves(old(sh)@, old(self).sees(old(sh)@)));
    }

    /// Where an operation that started as `self` on memory `m0` stands: what is known of the
    /// machine `tx` and of the memory `m` at each stage.
    spec fn on_the_way(self, m0: Memory<T>, tx: Sender<T>, m: Memory<T>) -> bool {
        let v = self.value->0;
        let claim = m0.claim as int;
        let room = !m0.rx_dropped && !m0.full();
        let stuck = !m0.rx_dropped && m0.full();
        &&& tx.wf()
        &&& tx.cap == self.cap
        &&& tx.mask == self.mask
        &&& tx.strategy == self.strategy
        &&& tx.idle == self.idle
        &&& tx.blocking == self.blocking
        &&& tx.me == self.me
        &&& tx.fits(m)
        &&& m.head == m0.head
        &&& tx.value is Some ==> tx.value == Some(v)
        &&& tx.stage != SendStage::Flag && tx.stage != SendStage::Claim && tx.stage
            != SendStage::Disconnected ==> tx.seq == claim
        &&& match tx.stage {
            SendStage::Flag => m == m0,
            SendStage::Claim | SendStage::Head => m == m0 && !m0.rx_dropped,
            SendStage::Swap => m == m0 && room,
            SendStage::Write => m == (Memory { claim: (claim + 1) as usize, ..m0 }) && room,
            SendStage::Publish => {
                &&& m == (Memory { claim: (claim + 1) as usize, ..m0.put(claim, Some(v)) })
                &&& room
            },
            SendStage::Wake(Waking::Load) => m == m0.pushed(v) && room,
            SendStage::Wake(Waking::Clear) => m == m0.pushed(v) && room && m0.consumer.parked,
            SendStage::Wake(Waking::Take) => {
                &&& m == m0.pushed(v).waking(Waking::Clear)
                &&& room
                &&& m0.consumer.parked
            },
            SendStage::Sent => m == m0.pushed(v).consumer_notified() && room,
            SendStage::Full => m == m0 && stuck,
            SendStage::Disconnected => m == m0 && m0.rx_dropped,
            SendStage::Pause | SendStage::Register => m == m0 && stuck,
            SendStage::Announce => {
                &&& stuck
                &&& m == (Memory { waiters: m0.waiters.push(self.me), ..m0 })
            },
            SendStage::RecheckClaim
            | SendStage::RecheckHead
            | SendStage::RecheckFlag
            | SendStage::Park => {
                &&& stuck
                &&& m == m0.producer_prepared(self.me)
            },
            _ => false,
        }
    }

    /// How many accesses the operation still takes, at most, to its end or to a wait.
    pub open spec fn left(self) -> nat {
        match self.stage {
            SendStage::Flag => 10,
            SendStage::Claim => 9,
            SendStage::Head => 8,
            SendStage::Swap => 7,
            SendStage::Write => 6,
            SendStage::Publish => 5,
            SendStage::Wake(Waking::Load) => 4,
            SendStage::Wake(Waking::Clear) => 3,
            SendStage::Wake(Waking::Take) => 2,
            SendStage::Register => 6,
            SendStage::Announce => 5,
            SendStage::RecheckClaim => 4,
            SendStage::RecheckHead => 3,
            SendStage::RecheckFlag => 2,
            SendStage::Close => 4,
            SendStage::CloseWake(Waking::Load) => 3,
            SendStage::CloseWake(Waking::Clear) => 2,
            SendStage::CloseWake(Waking::Take) => 1,
            _ => 0,
        }
    }

    /// The operation is over, or waits.
    pub open spec fn settled(self) -> bool {
        match self.stage {
            SendStage::Sent
            | SendStage::Full
            | SendStage::Disconnected
            | SendStage::Pause
            | SendStage::Park => true,
            _ => false,
        }
    }

    fn is_settled(&self) -> (yes: bool)
        ensures
            yes == self.settled(),
    {
        match self.stage {
            SendStage::Sent
            | SendStage::Full
            | SendStage::Disconnected
            | SendStage::Pause
            | SendStage::Park => true,
            _ => false,
        }
    }

    /// Runs an operation that just started on `sh`, to its end or to a wait.
    fn run(&mut self, sh: &mut Shared<T>)
        requires
            old(self).wf(),
            old(self).stage == SendStage::Flag,
            old(self).fits(old(sh)@),
            old(sh)@.wf(),
        ensures
            final(self).settled(),
            old(self).on_the_way(old(sh)@, *final(self), final(sh)@),
    {
        let ghost tx0 = *self;
        let ghost m0 = sh@;
        while !self.is_settled()
            invariant
                tx0.wf(),
                tx0.stage == SendStage::Flag,
                m0.wf(),
                tx0.on_the_way(m0, *self, sh@),
            ensures
                self.settled(),
            decreases self.left(),
        {
            proof {
                crate::index::lemma_cap_positive(m0.cap as int);
            }
            self.step(sh);
            assert(tx0.on_the_way(m0, *self, sh@));
        }
    }

    /// Pushes without waiting. A failed attempt claims nothing.
    pub fn try_send(&mut self, sh: &mut Shared<T>, v: T) -> (r: Result<(), TrySendError<T>>)
        requires
            old(self).rests_on(old(sh)@),
            old(sh)@.wf(),
        ensures
            final(self).rests_on(final(sh)@),
            final(sh)@.wf(),
            old(sh)@.rx_dropped ==> {
                &&& r == Err::<(), TrySendError<T>>(TrySendError::Disconnected(v))
                &&& final(sh)@ == old(sh)@
            },
            !old(sh)@.rx_dropped && old(sh)@.full() ==> {
                &&& r == Err::<(), TrySendError<T>>(TrySendError::Full(v))
                &&& final(sh)@ == old(sh)@
            },
            !old(sh)@.rx_dropped && !old(sh)@.full() ==> {
                &&& r == Ok::<(), TrySendError<T>>(())
                &&& final(sh)@ == old(sh)@.pushed(v).consumer_notified()
                &&& final(sh)@.contents() == old(sh)@.contents().push(v)
            },
            Reply::Sent(r) == old(sh)@.seen().reply(Call::TrySend(v)),
            final(sh)@.seen() == old(sh)@.seen().after(Call::TrySend(v)),
    {
        self.start(v, false, 0);
        self.run(sh);
        proof {
            crate::mpsc::law_ring_is_bounded(old(sh)@);
            if !old(sh)@.rx_dropped && !old(sh)@.full() {
                crate::mpsc::lemma_pushed(old(sh)@, v);
                crate::mpsc::lemma_same_ring(old(sh)@.pushed(v), sh@);
            }
        }
        self.finish_try()
    }

    /// The operation under way waits for room in the ring with memory `m`, with `v` to send.
    pub open spec fn waits_on(self, m: Memory<T>, v: T) -> bool {
        &&& self.wf()
        &&& self.stage == SendStage::Pause || self.stage == SendStage::Park
        &&& self.value == Some(v)
        &&& self.fits(m)
    }

    /// What a run of a blocking operation does that finds the memory `m`: without a receiver
    /// it hands the value back, with room it pushes it, and otherwise it waits as the
    /// strategy says; before it sleeps until woken, it announces that.
    pub open spec fn send_turn(
        self,
        m: Memory<T>,
        r: Turn<Result<(), SendError<T>>>,
        tx: Sender<T>,
        m2: Memory<T>,
    ) -> bool {
        let v = self.value->0;
        if m.rx_dropped {
            &&& r == Turn::Done(Err::<(), SendError<T>>(SendError(v)))
            &&& tx.rests_on(m2)
            &&& m2 == m
        } else if !m.full() {
            &&& r == Turn::Done(Ok::<(), SendError<T>>(()))
            &&& tx.rests_on(m2)
            &&& m2 == m.pushed(v).consumer_notified()
            &&& m2.contents() == m.contents().push(v)
            &&& m2.seen() == m.seen().after(Call::TrySend(v))
        } else {
            &&& r == Turn::<Result<(), SendError<T>>>::Wait(self.strategy.rung(self.idle))
            &&& tx.waits_on(m2, v)
            &&& tx.strategy == self.strategy
            &&& tx.idle == self.idle
            &&& tx.me == self.me
            &&& m2 == if self.strategy == WaitStrategy::Park {
                m.producer_prepared(self.me)
            } else {
                m
            }
            &&& m2.contents() == m.contents()
            &&& m2.seen() == m.seen().after(Call::Wait)
        }
    }

    /// Runs a blocking operation that just started on `sh`.
    fn turn(&mut self, sh: &mut Shared<T>) -> (r: Turn<Result<(), SendError<T>>>)
        requires
            old(self).wf(),
            old(self).stage == SendStage::Flag,
            old(self).blocking,
            old(self).fits(old(sh)@),
            old(sh)@.wf(),
        ensures
            old(self).send_turn(old(sh)@, r, *final(self), final(sh)@),
            final(sh)@.wf(),
    {
        self.run(sh);
        proof {
            crate::mpsc::law_ring_is_bounded(old(sh)@);
            if !old(sh)@.rx_dropped && !old(sh)@.full() {
                crate::mpsc::lemma_pushed(old(sh)@, old(self).value->0);
                crate::mpsc::lemma_same_ring(old(sh)@.pushed(old(self).value->0), sh@);
            } else {
                crate::mpsc::lemma_same_ring(old(sh)@, sh@);
            }
        }
        match self.stage {
            SendStage::Pause => Turn::Wait(self.strategy.choose_rung(&self.idle)),
            SendStage::Park => Turn::Wait(Rung::Park),
            _ => Turn::Done(self.finish()),
        }
    }

    /// Pushes, waiting while the ring is full. Fails only without a receiver. A waiting sender
    /// holds no sequence number. When it has to wait, it says how; [`Sender::resume`] goes on
    /// after that. `me` names the thread.
    pub fn send(&mut self, sh: &mut Shared<T>, v: T, me: u64) -> (r: Turn<
        Result<(), SendError<T>>,
    >)
        requires
            old(self).rests_on(old(sh)@),
            old(sh)@.wf(),
        ensures
            old(self).started(v, true, me).send_turn(old(sh)@, r, *final(self), final(sh)@),
            final(sh)@.wf(),
    {
        self.start(v, true, me);
        self.turn(sh)
    }

    /// The blocked machine when its wait is over.
    pub open spec fn awake(self) -> Sender<T> {
        Sender { idle: self.strategy.up(self.idle), stage: SendStage::Flag, ..self }
    }

    /// Goes on with a blocking operation whose wait is over.
    pub fn resume(&mut self, sh: &mut Shared<T>) -> (r: Turn<Result<(), SendError<T>>>)
        requires
            old(self).waits_on(old(sh)@, old(self).value->0),
            old(sh)@.wf(),
        ensures
            old(self).awake().send_turn(old(sh)@, r, *final(self), final(sh)@),
            final(sh)@.wf(),
    {
        self.step(sh);
        assert(*self == old(self).awake());
        self.turn(sh)
    }

    /// A further handle of the same ring, for another producer.
    pub fn clone(&self, sh: &mut Shared<T>) -> (tx: Sender<T>)
        requires
            self.wf(),
            self.fits(old(sh)@),
            old(sh)@.senders < usize::MAX,
        ensures
            tx.rests_on(final(sh)@),
            tx.cached_head == 0,
            final(sh)@ == (Memory { senders: (old(sh)@.senders + 1) as usize, ..old(sh)@ }),
            final(sh)@.contents() == old(sh)@.contents(),
            final(sh)@.seen() == old(sh)@.seen().after(Call::Clone),
            old(sh)@.wf() ==> final(sh)@.wf(),
    {
        sh.senders = sh.senders + 1;
        proof {
            assert(sh@ =~= (Memory { senders: (old(sh)@.senders + 1) as usize, ..old(sh)@ }));
            crate::mpsc::lemma_same_ring(old(sh)@, sh@);
        }
        self.twin()
    }

    /// The local state of a further handle; its copy of the head starts at zero.
    pub fn twin(&self) -> (tx: Sender<T>)
        requires
            self.wf(),
        ensures
            tx == self.twin_of(),
            tx.wf(),
    {
        Sender {
            cached_head: 0,
            cap: self.cap,
            mask: self.mask,
            strategy: self.strategy,
            seq: 0,
            spins: 1,
            idle: Idle::for_strategy(self.strategy),
            blocking: false,
            me: 0,
            stage: SendStage::Ready,
            value: None,
        }
    }

    /// The local state of a further handle.
    pub open spec fn twin_of(self) -> Sender<T> {
        Sender {
            cached_head: 0,
            cap: self.cap,
            mask: self.mask,
            strategy: self.strategy,
            seq: 0,
            spins: 1,
            idle: Idle::start(self.strategy),
            blocking: false,
            me: 0,
            stage: SendStage::Ready,
            value: None,
        }
    }

    /// Drops the handle. When it was the last one, the receiver learns that no more items
    /// come, and is woken.
    pub fn drop(self, sh: &mut Shared<T>)
        requires
            self.rests_on(old(sh)@),
            old(sh)@.wf(),
            old(sh)@.senders > 0,
        ensures
            final(sh)@ == ({
                let m = Memory { senders: (old(sh)@.senders - 1) as usize, ..old(sh)@ };
                if m.senders == 0 {
                    m.consumer_woken()
                } else {
                    m
                }
            }),
            final(sh)@.wf(),
            final(sh)@.contents() == old(sh)@.contents(),
            final(sh)@.seen() == old(sh)@.seen().after(Call::DropSender),
    {
        let mut tx = self;
        tx.start_drop();
        let ghost m0 = sh@;
        let ghost m1 = Memory { senders: (m0.senders - 1) as usize, ..m0 };
        while !tx.is_gone()
            invariant
                tx.wf(),
                tx.cap == sh@.cap,
                sh@.sized(),
                m0.senders > 0,
                m1 == (Memory { senders: (m0.senders - 1) as usize, ..m0 }),
                match tx.stage {
                    SendStage::Close => sh@ == m0,
                    SendStage::CloseWake(Waking::Load) => sh@ == m1 && m1.senders == 0,
                    SendStage::CloseWake(Waking::Clear) => sh@ == m1 && m1.senders == 0
                        && m1.consumer.parked,
                    SendStage::CloseWake(Waking::Take) => sh@ == m1.waking(Waking::Clear)
                        && m1.senders == 0 && m1.consumer.parked,
                    SendStage::Gone => sh@ == if m1.senders == 0 {
                        m1.consumer_woken()
                    } else {
                        m1
                    },
                    _ => false,
                },
            ensures
                tx.stage == SendStage::Gone,
            decreases tx.left(),
        {
            tx.step(sh);
        }
        proof {
            crate::mpsc::lemma_same_ring(m0, sh@);
        }
    }

    fn is_gone(&self) -> (yes: bool)
        ensures
            yes == (self.stage == SendStage::Gone),
    {
        match self.stage {
            SendStage::Gone => true,
            _ => false,
        }
    }
}

} // verus!
