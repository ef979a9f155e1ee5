//! The consumer.

use vstd::prelude::*;

use crate::index::slot_of;
use crate::mpsc::{Call, Event, Memory, Reply, Shared};
use crate::notify::{Rousing, Waking};
use crate::wait::{Idle, Rung, Turn, WaitStrategy};
use crate::{RecvError, TryRecvError};

verus! {

/// Where the consumer's operation stands: the access to the shared memory that comes next.
#[derive(Debug, Clone, Copy, PartialEq, Eq, Hash)]
pub enum RecvStage {
    /// No operation is under way.
    Ready,
    /// Look whether the next item is published.
    Avail,
    /// It is not: look whether all senders are gone.
    Senders,
    /// They are: look once more, for what they published last.
    FinalAvail,
    /// Take the item out of its slot.
    Read,
    /// Free the slot by storing the head.
    StoreHead,
    /// Wake the producers.
    Wake(Rousing),
    /// Wait by itself, then try again.
    Pause,
    /// Leave the name of the thread.
    Register,
    /// Raise the flag that it is going to sleep.
    Announce,
    /// Look once more whether the next item is published.
    RecheckAvail,
    /// Look once more whether all senders are gone.
    RecheckSenders,
    /// Lower the flag again: there was something.
    Cancel,
    /// Sleep until woken.
    Park,
    /// Lower the flag after the sleep.
    Unpark,
    /// Over: there is an item.
    Got,
    /// Over: the ring is empty.
    Empty,
    /// Over: all senders are gone and the ring is drained.
    Disconnected,
    /// In a batch: look whether the next item is published.
    DrainAvail,
    /// In a batch: take the next item out of its slot.
    DrainRead,
    /// In a batch: the item is to be handed over.
    DrainDeliver,
    /// The batch is complete: free its slots by storing the head.
    DrainStore,
    /// The batch was cut short: free its slots by storing the head, and wake nobody.
    DrainCut,
    /// The batch is complete: wake the producers.
    DrainWake(Rousing),
    /// Over: the batch was handed over.
    Drained,
    /// The handle is being dropped: store that it is gone.
    Close,
    /// Wake the producers.
    CloseWake(Rousing),
    /// The handle is gone.
    Gone,
}

/// The access to the shared memory that the consumer asks for.
#[derive(Debug, Clone, Copy, PartialEq, Eq, Hash)]
pub enum RecvAction {
    /// Read the mark of this slot; answer with [`Event::Mark`].
    LoadMark(usize),
    /// Read the number of senders; answer with [`Event::Index`].
    LoadSenders,
    /// Take the item out of this slot; answer with [`Receiver::accept`].
    ReadSlot(usize),
    /// Store this head; answer with [`Event::Done`].
    StoreHead(usize),
    /// Store that the receiver is gone; answer with [`Event::Done`].
    StoreDropped,
    /// Lower the flag of the producers' list; answer with [`Event::Flag`] and the flag as it
    /// was.
    SwapWaiting,
    /// Take the names from the producers' list and unpark the threads; answer with
    /// [`Event::Done`].
    TakeWaiters,
    /// Leave the name of the thread in the consumer's parker; answer with [`Event::Done`].
    Register,
    /// Raise the flag of the consumer's parker; answer with [`Event::Done`].
    Announce,
    /// Lower the flag of the consumer's parker; answer with [`Event::Done`].
    ClearParked,
    /// Wait, then answer with [`Event::Done`].
    Pause(Rung),
    /// Hand over what [`Receiver::deliver`] returns.
    Deliver,
    /// Nothing: the operation is over.
    Return,
}

/// The single consumer: the head, which nobody else writes.
#[derive(Debug)]
pub struct Receiver<T> {
    pub head: usize,
    pub cap: usize,
    pub mask: usize,
    pub strategy: WaitStrategy,
    /// Where the operation under way stands on the ladder.
    pub idle: Idle,
    /// The operation under way waits for an item.
    pub blocking: bool,
    /// The name of the thread for which the operation under way waits.
    pub me: u64,
    /// How many items a batch may have.
    pub max: usize,
    /// How many items the batch under way has.
    pub count: usize,
    pub stage: RecvStage,
    /// The item, from its slot until it is handed over.
    pub value: Option<T>,
}

impl RecvStage {
    /// The stages at which the machine has an item.
    pub open spec fn has_value(self) -> bool {
        match self {
            RecvStage::StoreHead | RecvStage::Wake(_) | RecvStage::Got | RecvStage::DrainDeliver =>
                true,
            _ => false,
        }
    }

    /// The stages of a blocked operation that is going to sleep.
    pub open spec fn parks(self) -> bool {
        match self {
            RecvStage::Register
            | RecvStage::Announce
            | RecvStage::RecheckAvail
            | RecvStage::RecheckSenders
            | RecvStage::Cancel
            | RecvStage::Park
            | RecvStage::Unpark => true,
            _ => false,
        }
    }

    /// The stages of a batch at which the head is not stored yet.
    pub open spec fn drains(self) -> bool {
        match self {
            RecvStage::DrainAvail
            | RecvStage::DrainRead
            | RecvStage::DrainDeliver
            | RecvStage::DrainStore
            | RecvStage::DrainCut => true,
            _ => false,
        }
    }
}

impl<T> Receiver<T> {
    /// What holds of the local state at every stage.
    pub open spec fn wf(self) -> bool {
        &&& crate::index::is_cap(self.cap as int)
        &&& self.mask == self.cap - 1
        &&& self.idle.wf()
        &&& self.value is Some <==> self.stage.has_value()
        &&& (self.stage == RecvStage::Read || self.stage == RecvStage::DrainRead) ==> self.head
            < usize::MAX
        &&& (self.stage is Wake || self.stage is DrainWake) ==> self.strategy == WaitStrategy::Park
        &&& self.stage.parks() ==> self.strategy == WaitStrategy::Park && self.blocking
        &&& self.stage == RecvStage::Pause ==> self.strategy != WaitStrategy::Park && self.blocking
        &&& self.stage == RecvStage::Empty ==> !self.blocking
        &&& self.stage.drains() ==> self.count <= self.max && self.count <= self.head
        &&& (self.stage == RecvStage::DrainAvail || self.stage == RecvStage::DrainRead)
            ==> self.count < self.max
    }

    /// The handle belongs to the ring with memory `m` and no operation of it is under way.
    pub open spec fn rests_on(self, m: Memory<T>) -> bool {
        &&& self.wf()
        &&& self.stage == RecvStage::Ready
        &&& self.fits(m)
        &&& self.head == m.head
    }

    /// The local state agrees with the memory `m`.
    pub open spec fn fits(self, m: Memory<T>) -> bool {
        &&& self.cap == m.cap
        &&& self.strategy == m.strategy
        &&& m.head <= self.head
    }

    /// The mark `r` of the slot says that the next item is published.
    pub open spec fn finds(self, r: i64) -> bool {
        r == crate::mpsc::mark(self.head as int, self.cap as int)
    }

    /// The machine at another stage.
    pub open spec fn to(self, stage: RecvStage) -> Receiver<T> {
        Receiver { stage, ..self }
    }

    /// The ring is empty: give up, or wait as the strategy says.
    pub open spec fn blocked(self) -> Receiver<T> {
        if !self.blocking {
            self.to(RecvStage::Empty)
        } else if self.strategy == WaitStrategy::Park {
            self.to(RecvStage::Register)
        } else {
            self.to(RecvStage::Pause)
        }
    }

    /// A batch is complete.
    pub open spec fn drain_end(self) -> Receiver<T> {
        if self.count > 0 {
            self.to(RecvStage::DrainStore)
        } else {
            self.to(RecvStage::Drained)
        }
    }

    /// A batch is cut short.
    pub open spec fn drain_cut(self) -> Receiver<T> {
        if self.count > 0 {
            self.to(RecvStage::DrainCut)
        } else {
            self.to(RecvStage::Drained)
        }
    }

    /// A batch goes on, unless it has as many items as it may.
    pub open spec fn drain_on(self) -> Receiver<T> {
        if self.count >= self.max {
            self.drain_end()
        } else {
            self.to(RecvStage::DrainAvail)
        }
    }

    /// The events that can answer the action of this stage.
    pub open spec fn expects(self, ev: Event) -> bool {
        match self.stage {
            RecvStage::Wake(Rousing::Swap)
            | RecvStage::DrainWake(Rousing::Swap)
            | RecvStage::CloseWake(Rousing::Swap) => ev is Flag,
            RecvStage::Senders | RecvStage::RecheckSenders => ev is Index,
            RecvStage::Avail
            | RecvStage::FinalAvail
            | RecvStage::RecheckAvail
            | RecvStage::DrainAvail => {
                &&& ev is Mark
                &&& self.finds(ev->Mark_0) ==> self.head < usize::MAX
            },
            RecvStage::Ready
            | RecvStage::Got
            | RecvStage::Empty
            | RecvStage::Disconnected
            | RecvStage::Drained
            | RecvStage::Gone => false,
            _ => ev is Done,
        }
    }

    /// The machine after the access of this stage was made and returned `ev`. (For an item
    /// see [`Receiver::accepted`] and [`Receiver::delivered`].)
    pub open spec fn next(self, ev: Event) -> Receiver<T> {
        match (self.stage, ev) {
            (RecvStage::Avail, Event::Mark(r)) => if self.finds(r) {
                self.to(RecvStage::Read)
            } else {
                self.to(RecvStage::Senders)
            },
            (RecvStage::Senders, Event::Index(n)) => if n == 0 {
                self.to(RecvStage::FinalAvail)
            } else {
                self.blocked()
            },
            (RecvStage::FinalAvail, Event::Mark(r)) => if self.finds(r) {
                self.to(RecvStage::Read)
            } else {
                self.to(RecvStage::Disconnected)
            },
            (RecvStage::StoreHead, Event::Done) => if self.strategy == WaitStrategy::Park {
                self.to(RecvStage::Wake(Rousing::Swap))
            } else {
                self.to(RecvStage::Got)
            },
            (RecvStage::Wake(Rousing::Swap), Event::Flag(waiting)) => if waiting {
                self.to(RecvStage::Wake(Rousing::Take))
            } else {
                self.to(RecvStage::Got)
            },
            (RecvStage::Wake(Rousing::Take), Event::Done) => self.to(RecvStage::Got),
            (RecvStage::Pause, Event::Done) => Receiver {
                idle: self.strategy.up(self.idle),
                stage: RecvStage::Avail,
                ..self
            },
            (RecvStage::Register, Event::Done) => self.to(RecvStage::Announce),
            (RecvStage::Announce, Event::Done) => self.to(RecvStage::RecheckAvail),
            (RecvStage::RecheckAvail, Event::Mark(r)) => if self.finds(r) {
                self.to(RecvStage::Cancel)
            } else {
                self.to(RecvStage::RecheckSenders)
            },
            (RecvStage::RecheckSenders, Event::Index(n)) => if n == 0 {
                self.to(RecvStage::Cancel)
            } else {
                self.to(RecvStage::Park)
            },
            (RecvStage::Cancel, Event::Done) => self.to(RecvStage::Avail),
            (RecvStage::Park, Event::Done) => self.to(RecvStage::Unpark),
            (RecvStage::Unpark, Event::Done) => self.to(RecvStage::Avail),
            (RecvStage::DrainAvail, Event::Mark(r)) => if self.finds(r) {
                self.to(RecvStage::DrainRead)
            } else {
                self.drain_end()
            },
            (RecvStage::DrainCut, Event::Done) => self.to(RecvStage::Drained),
            (RecvStage::DrainStore, Event::Done) => if self.strategy == WaitStrategy::Park {
                self.to(RecvStage::DrainWake(Rousing::Swap))
            } else {
                self.to(RecvStage::Drained)
            },
            (RecvStage::DrainWake(Rousing::Swap), Event::Flag(waiting)) => if waiting {
                self.to(RecvStage::DrainWake(Rousing::Take))
            } else {
                self.to(RecvStage::Drained)
            },
            (RecvStage::DrainWake(Rousing::Take), Event::Done) => self.to(RecvStage::Drained),
            (RecvStage::Close, Event::Done) => self.to(RecvStage::CloseWake(Rousing::Swap)),
            (RecvStage::CloseWake(Rousing::Swap), Event::Flag(waiting)) => if waiting {
                self.to(RecvStage::CloseWake(Rousing::Take))
            } else {
                self.to(RecvStage::Gone)
            },
            (RecvStage::CloseWake(Rousing::Take), Event::Done) => self.to(RecvStage::Gone),
            _ => self,
        }
    }

    /// The machine after it took `v` out of its slot.
    pub open spec fn accepted(self, v: T) -> Receiver<T> {
        match self.stage {
            RecvStage::DrainRead => Receiver {
                head: (self.head + 1) as usize,
                count: (self.count + 1) as usize,
                stage: RecvStage::DrainDeliver,
                value: Some(v),
                ..self
            },
            _ => Receiver {
                head: (self.head + 1) as usize,
                stage: RecvStage::StoreHead,
                value: Some(v),
                ..self
            },
        }
    }

    /// The machine after an item of a batch was handed over.
    pub open spec fn delivered(self) -> Receiver<T> {
        Receiver { value: None, ..self.drain_on() }
    }

    /// The access that comes next.
    pub open spec fn asks(self) -> RecvAction {
        let slot = crate::index::slot(self.head as int, self.cap as int) as usize;
        match self.stage {
            RecvStage::Ready
            | RecvStage::Got
            | RecvStage::Empty
            | RecvStage::Disconnected
            | RecvStage::Drained
            | RecvStage::Gone => RecvAction::Return,
            RecvStage::Avail
            | RecvStage::FinalAvail
            | RecvStage::RecheckAvail
            | RecvStage::DrainAvail => RecvAction::LoadMark(slot),
            RecvStage::Senders | RecvStage::RecheckSenders => RecvAction::LoadSenders,
            RecvStage::Read | RecvStage::DrainRead => RecvAction::ReadSlot(slot),
            RecvStage::StoreHead | RecvStage::DrainStore | RecvStage::DrainCut =>
                RecvAction::StoreHead(self.head),
            RecvStage::Wake(r) | RecvStage::DrainWake(r) | RecvStage::CloseWake(r) => match r {
                Rousing::Swap => RecvAction::SwapWaiting,
                Rousing::Take => RecvAction::TakeWaiters,
            },
            RecvStage::Pause => RecvAction::Pause(self.strategy.rung(self.idle)),
            RecvStage::Register => RecvAction::Register,
            RecvStage::Announce => RecvAction::Announce,
            RecvStage::Cancel | RecvStage::Unpark => RecvAction::ClearParked,
            RecvStage::Park => RecvAction::Pause(Rung::Park),
            RecvStage::DrainDeliver => RecvAction::Deliver,
            RecvStage::Close => RecvAction::StoreDropped,
        }
    }

    /// What the access of this stage reads in memory `m` when it reads the newest value.
    pub open spec fn sees(self, m: Memory<T>) -> Event {
        match self.stage {
            RecvStage::Avail
            | RecvStage::FinalAvail
            | RecvStage::RecheckAvail
            | RecvStage::DrainAvail => Event::Mark(m.mark_at(self.head as int)),
            RecvStage::Senders | RecvStage::RecheckSenders => Event::Index(m.senders),
            RecvStage::Wake(Rousing::Swap)
            | RecvStage::DrainWake(Rousing::Swap)
            | RecvStage::CloseWake(Rousing::Swap) => Event::Flag(m.waiting),
            _ => Event::Done,
        }
    }

    /// The machine after the access of this stage on memory `m`, which returned `ev`.
    pub open spec fn after(self, m: Memory<T>, ev: Event) -> Receiver<T> {
        match self.stage {
            RecvStage::Read | RecvStage::DrainRead => self.accepted(m.at(self.head as int)->0),
            _ => self.next(ev),
        }
    }

    /// The memory after the access of this stage.
    pub open spec fn leaves(self, m: Memory<T>) -> Memory<T> {
        match self.stage {
            RecvStage::Read | RecvStage::DrainRead => m.put(self.head as int, None),
            RecvStage::StoreHead | RecvStage::DrainStore | RecvStage::DrainCut => Memory {
                head: self.head,
                ..m
            },
            RecvStage::Wake(r) | RecvStage::DrainWake(r) | RecvStage::CloseWake(r) => m.rousing(r),
            RecvStage::Register => Memory {
                consumer: crate::notify::Parker { slot: Some(self.me), ..m.consumer },
                ..m
            },
            RecvStage::Announce => Memory {
                consumer: crate::notify::Parker { parked: true, ..m.consumer },
                ..m
            },
            RecvStage::Cancel | RecvStage::Unpark => m.waking(Waking::Clear),
            RecvStage::Close => Memory { rx_dropped: true, ..m },
            _ => m,
        }
    }

    /// The consumer handle of a new ring with `cap` slots.
    pub fn new(cap: usize, strategy: WaitStrategy) -> (rx: Receiver<T>)
        requires
            crate::index::is_cap(cap as int),
        ensures
            rx.rests_on(crate::mpsc::empty_memory::<T>(cap, strategy)),
    {
        proof {
            crate::index::lemma_cap_positive(cap as int);
        }
        Receiver {
            head: 0,
            cap,
            mask: cap - 1,
            strategy,
            idle: Idle::for_strategy(strategy),
            blocking: false,
            me: 0,
            max: 0,
            count: 0,
            stage: RecvStage::Ready,
            value: None,
        }
    }

    /// The access that comes next.
    pub fn action(&self) -> (a: RecvAction)
        requires
            self.wf(),
        ensures
            a == self.asks(),
    {
        proof {
            crate::index::lemma_cap_positive(self.cap as int);
        }
        match self.stage {
            RecvStage::Ready
            | RecvStage::Got
            | RecvStage::Empty
            | RecvStage::Disconnected
            | RecvStage::Drained
            | RecvStage::Gone => RecvAction::Return,
            RecvStage::Avail
            | RecvStage::FinalAvail
            | RecvStage::RecheckAvail
            | RecvStage::DrainAvail => RecvAction::LoadMark(slot_of(self.head, self.mask)),
            RecvStage::Senders | RecvStage::RecheckSenders => RecvAction::LoadSenders,
            RecvStage::Read | RecvStage::DrainRead => RecvAction::ReadSlot(
                slot_of(self.head, self.mask),
            ),
            RecvStage::StoreHead | RecvStage::DrainStore | RecvStage::DrainCut =>
                RecvAction::StoreHead(self.head),
            RecvStage::Wake(r) | RecvStage::DrainWake(r) | RecvStage::CloseWake(r) => match r {
                Rousing::Swap => RecvAction::SwapWaiting,
                Rousing::Take => RecvAction::TakeWaiters,
            },
            RecvStage::Pause => RecvAction::Pause(self.strategy.choose_rung(&self.idle)),
            RecvStage::Register => RecvAction::Register,
            RecvStage::Announce => RecvAction::Announce,
            RecvStage::Cancel | RecvStage::Unpark => RecvAction::ClearParked,
            RecvStage::Park => RecvAction::Pause(Rung::Park),
            RecvStage::DrainDeliver => RecvAction::Deliver,
            RecvStage::Close => RecvAction::StoreDropped,
        }
    }

    fn slot_published(&self, r: i64) -> (yes: bool)
        requires
            self.wf(),
        ensures
            yes == self.finds(r),
    {
        proof {
            crate::index::lemma_cap_positive(self.cap as int);
        }
        r == crate::mpsc::mark_of(self.head, self.cap)
    }

    /// Takes the item that was read from its slot.
    pub fn accept(&mut self, v: T)
        requires
            old(self).wf(),
            old(self).stage == RecvStage::Read || old(self).stage == RecvStage::DrainRead,
        ensures
            *final(self) == old(self).accepted(v),
            final(self).wf(),
    {
        self.head = self.head + 1;
        self.value = Some(v);
        match self.stage {
            RecvStage::DrainRead => {
                self.count = self.count + 1;
                self.stage = RecvStage::DrainDeliver;
            },
            _ => {
                self.stage = RecvStage::StoreHead;
            },
        }
    }

    /// Hands an item of a batch over.
    pub fn deliver(&mut self) -> (v: T)
        requires
            old(self).wf(),
            old(self).stage == RecvStage::DrainDeliver,
        ensures
            Some(v) == old(self).value,
            *final(self) == old(self).delivered(),
            final(self).wf(),
    {
        self.continue_drain();
        self.value.take().unwrap()
    }

    fn end_drain(&mut self)
        ensures
            *final(self) == old(self).drain_end(),
    {
        self.stage = if self.count > 0 {
            RecvStage::DrainStore
        } else {
            RecvStage::Drained
        };
    }

    fn continue_drain(&mut self)
        ensures
            *final(self) == old(self).drain_on(),
    {
        if self.count >= self.max {
            self.end_drain();
        } else {
            self.stage = RecvStage::DrainAvail;
        }
    }

    /// Moves on after the access of this stage was made and returned `ev`.
    pub fn advance(&mut self, ev: Event)
        requires
            old(self).wf(),
            old(self).expects(ev),
            old(self).stage != RecvStage::Read,
            old(self).stage != RecvStage::DrainRead,
            old(self).stage != RecvStage::DrainDeliver,
        ensures
            *final(self) == old(self).next(ev),
            final(self).wf(),
    {
        match (self.stage, ev) {
            (RecvStage::Avail, Event::Mark(r)) => {
                self.stage = if self.slot_published(r) {
                    RecvStage::Read
                } else {
                    RecvStage::Senders
                };
            },
            (RecvStage::Senders, Event::Index(n)) => {
                self.stage = if n == 0 {
                    RecvStage::FinalAvail
                } else if !self.blocking {
                    RecvStage::Empty
                } else if self.strategy == WaitStrategy::Park {
                    RecvStage::Register
                } else {
                    RecvStage::Pause
                };
            },
            (RecvStage::FinalAvail, Event::Mark(r)) => {
                self.stage = if self.slot_published(r) {
                    RecvStage::Read
                } else {
                    RecvStage::Disconnected
                };
            },
            (RecvStage::StoreHead, _) => {
                self.stage = if self.strategy == WaitStrategy::Park {
                    RecvStage::Wake(Rousing::Swap)
                } else {
                    RecvStage::Got
                };
            },
            (RecvStage::Wake(Rousing::Swap), Event::Flag(true)) => {
                self.stage = RecvStage::Wake(Rousing::Take);
            },
            (RecvStage::Wake(_), _) => {
                self.stage = RecvStage::Got;
            },
            (RecvStage::Pause, _) => {
                self.strategy.climb(&mut self.idle);
                self.stage = RecvStage::Avail;
            },
            (RecvStage::Register, _) => {
                self.stage = RecvStage::Announce;
            },
            (RecvStage::Announce, _) => {
                self.stage = RecvStage::RecheckAvail;
            },
            (RecvStage::RecheckAvail, Event::Mark(r)) => {
                self.stage = if self.slot_published(r) {
                    RecvStage::Cancel
                } else {
                    RecvStage::RecheckSenders
                };
            },
            (RecvStage::RecheckSenders, Event::Index(n)) => {
                self.stage = if n == 0 {
                    RecvStage::Cancel
                } else {
                    RecvStage::Park
                };
            },
            (RecvStage::Park, _) => {
                self.stage = RecvStage::Unpark;
            },
            (RecvStage::Cancel, _) | (RecvStage::Unpark, _) => {
                self.stage = RecvStage::Avail;
            },
            (RecvStage::DrainAvail, Event::Mark(r)) => {
                if self.slot_published(r) {
                    self.stage = RecvStage::DrainRead;
                } else {
                    self.end_drain();
                }
            },
            (RecvStage::DrainCut, _) => {
                self.stage = RecvStage::Drained;
            },
            (RecvStage::DrainStore, _) => {
                self.stage = if self.strategy == WaitStrategy::Park {
                    RecvStage::DrainWake(Rousing::Swap)
                } else {
                    RecvStage::Drained
                };
            },
            (RecvStage::DrainWake(Rousing::Swap), Event::Flag(true)) => {
                self.stage = RecvStage::DrainWake(Rousing::Take);
            },
            (RecvStage::DrainWake(_), _) => {
                self.stage = RecvStage::Drained;
            },
            (RecvStage::Close, _) => {
                self.stage = RecvStage::CloseWake(Rousing::Swap);
            },
            (RecvStage::CloseWake(Rousing::Swap), Event::Flag(true)) => {
                self.stage = RecvStage::CloseWake(Rousing::Take);
            },
            (RecvStage::CloseWake(_), _) => {
                self.stage = RecvStage::Gone;
            },
            _ => {},
        }
    }

    /// The machine at the start of an operation that receives one item.
    pub open spec fn started(self, blocking: bool, me: u64) -> Receiver<T> {
        Receiver {
            idle: Idle::start(self.strategy),
            blocking,
            me,
            stage: RecvStage::Avail,
            ..self
        }
    }

    /// Starts an operation that receives one item; it waits for one if `blocking`, for the
    /// thread named `me`.
    pub fn start(&mut self, blocking: bool, me: u64)
        requires
            old(self).wf(),
            old(self).stage == RecvStage::Ready,
        ensures
            *final(self) == old(self).started(blocking, me),
            final(self).wf(),
    {
        self.idle = Idle::for_strategy(self.strategy);
        self.blocking = blocking;
        self.me = me;
        self.stage = RecvStage::Avail;
    }

    /// The machine at the start of a batch of up to `max` items.
    pub open spec fn drain_started(self, max: usize) -> Receiver<T> {
        (Receiver { max, count: 0, ..self }).drain_on()
    }

    /// Starts a batch of up to `max` items.
    pub fn start_drain(&mut self, max: usize)
        requires
            old(self).wf(),
            old(self).stage == RecvStage::Ready,
        ensures
            *final(self) == old(self).drain_started(max),
            final(self).wf(),
    {
        self.max = max;
        self.count = 0;
        self.continue_drain();
    }

    /// Cuts a batch short after the items that it has, when their taker gives up: they are out
    /// of the ring, so their slots are freed. A sleeping producer is not woken for them, only
    /// by the next item that is taken out and by the drop of the handle.
    pub fn stop_drain(&mut self)
        requires
            old(self).wf(),
            old(self).stage == RecvStage::DrainAvail || old(self).stage == RecvStage::DrainRead
                || old(self).stage == RecvStage::DrainStore,
        ensures
            *final(self) == old(self).drain_cut(),
            final(self).wf(),
    {
        self.stage = if self.count > 0 {
            RecvStage::DrainCut
        } else {
            RecvStage::Drained
        };
    }

    /// Starts the drop of the handle.
    pub fn start_drop(&mut self)
        requires
            old(self).wf(),
            old(self).stage == RecvStage::Ready,
        ensures
            *final(self) == old(self).to(RecvStage::Close),
            final(self).wf(),
    {
        self.stage = RecvStage::Close;
    }

    /// Ends an operation that does not wait, and returns its result.
    pub fn finish_try(&mut self) -> (r: Result<T, TryRecvError>)
        requires
            old(self).wf(),
            old(self).stage == RecvStage::Got || old(self).stage == RecvStage::Empty || old(
                self,
            ).stage == RecvStage::Disconnected,
        ensures
            *final(self) == (Receiver { stage: RecvStage::Ready, value: None, ..*old(self) }),
            final(self).wf(),
            old(self).stage == RecvStage::Got ==> r == Ok::<T, TryRecvError>(old(self).value->0),
            old(self).stage == RecvStage::Empty ==> r == Err::<T, TryRecvError>(
                TryRecvError::Empty,
            ),
            old(self).stage == RecvStage::Disconnected ==> r == Err::<T, TryRecvError>(
                TryRecvError::Disconnected,
            ),
    {
        let stage = self.stage;
        self.stage = RecvStage::Ready;
        match (stage, self.value.take()) {
            (_, Some(v)) => Ok(v),
            (RecvStage::Empty, None) => Err(TryRecvError::Empty),
            (_, None) => Err(TryRecvError::Disconnected),
        }
    }

    /// Ends an operation that waits for an item, and returns its result.
    pub fn finish(&mut self) -> (r: Result<T, RecvError>)
        requires
            old(self).wf(),
            old(self).stage == RecvStage::Got || old(self).stage == RecvStage::Disconnected,
        ensures
            *final(self) == (Receiver { stage: RecvStage::Ready, value: None, ..*old(self) }),
            final(self).wf(),
            old(self).stage == RecvStage::Got ==> r == Ok::<T, RecvError>(old(self).value->0),
            old(self).stage == RecvStage::Disconnected ==> r == Err::<T, RecvError>(RecvError),
    {
        self.stage = RecvStage::Ready;
        match self.value.take() {
            Some(v) => Ok(v),
            None => Err(RecvError),
        }
    }

    /// Ends a batch, and returns how many items it had.
    pub fn finish_drain(&mut self) -> (n: usize)
        requires
            old(self).wf(),
            old(self).stage == RecvStage::Drained,
        ensures
            n == old(self).count,
            *final(self) == old(self).to(RecvStage::Ready),
            final(self).wf(),
    {
        self.stage = RecvStage::Ready;
        self.count
    }

    /// Makes the access of this stage on `sh` and moves on. A wait counts as over.
    pub fn step(&mut self, sh: &mut Shared<T>)
        requires
            old(self).wf(),
            old(self).cap == old(sh)@.cap,
            old(sh)@.sized(),
            old(self).stage != RecvStage::DrainDeliver,
            old(self).expects(old(self).sees(old(sh)@)),
            old(self).stage == RecvStage::Read || old(self).stage == RecvStage::DrainRead ==> old(
                sh,
            )@.at(old(self).head as int) is Some,
        ensures
            *final(self) == old(self).after(old(sh)@, old(self).sees(old(sh)@)),
            final(self).wf(),
            final(sh)@ == old(self).leaves(old(sh)@),
    {
        proof {
            crate::index::lemma_cap_positive(self.cap as int);
        }
        match self.stage {
            RecvStage::Avail
            | RecvStage::FinalAvail
            | RecvStage::RecheckAvail
            | RecvStage::DrainAvail => {
                let i = slot_of(self.head, self.mask);
                self.advance(Event::Mark(sh.avail[i]));
            },
            RecvStage::Senders | RecvStage::RecheckSenders => {
                self.advance(Event::Index(sh.senders));
            },
            RecvStage::Read | RecvStage::DrainRead => {
                let i = slot_of(self.head, self.mask);
                self.accept(sh.read(i).unwrap());
            },
            RecvStage::StoreHead | RecvStage::DrainStore | RecvStage::DrainCut => {
                sh.head = self.head;
                self.advance(Event::Done);
            },
            RecvStage::Wake(r) | RecvStage::DrainWake(r) | RecvStage::CloseWake(r) => {
                let waiting = sh.rouse(r);
                self.advance(
                    match r {
                        Rousing::Swap => Event::Flag(waiting),
                        Rousing::Take => Event::Done,
                    },
                );
            },
            RecvStage::Register => {
                sh.consumer_parker.register(self.me);
                self.advance(Event::Done);
            },
            RecvStage::Announce => {
                sh.consumer_parker.announce();
                self.advance(Event::Done);
            },
            RecvStage::Cancel => {
                sh.consumer_parker.cancel();
                self.advance(Event::Done);
            },
            RecvStage::Unpark => {
                sh.consumer_parker.park();
                self.advance(Event::Done);
            },
            RecvStage::Close => {
                sh.rx_dropped = true;
                self.advance(Event::Done);
            },
            _ => {
                self.advance(Event::Done);
            },
        }
        assert(sh@ =~= old(self).leaves(old(sh)@));
    }

    /// Where an operation that started as `self` on memory `m0` stands: what is known of the
    /// machine `rx` and of the memory `m` at each stage.
    spec fn on_the_way(self, m0: Memory<T>, rx: Receiver<T>, m: Memory<T>) -> bool {
        let v = m0.at(m0.head as int);
        let some = m0.head < m0.claim;
        let stuck = m0.senders != 0 && m0.head == m0.claim;
        &&& rx.wf()
        &&& rx.cap == self.cap
        &&& rx.mask == self.mask
        &&& rx.strategy == self.strategy
        &&& rx.idle == self.idle
        &&& rx.blocking == self.blocking
        &&& rx.me == self.me
        &&& rx.fits(m)
        &&& rx.head == if rx.stage.has_value() {
            m0.head + 1
        } else {
            m0.head as int
        }
        &&& rx.value is Some ==> rx.value == v
        &&& match rx.stage {
            RecvStage::Avail => m == m0,
            RecvStage::Senders => m == m0 && !some,
            RecvStage::FinalAvail => m == m0 && !some && m0.senders == 0,
            RecvStage::Read => m == m0 && some,
            RecvStage::StoreHead => m == m0.put(m0.head as int, None) && some,
            RecvStage::Wake(Rousing::Swap) => m == m0.popped() && some,
            RecvStage::Wake(Rousing::Take) => {
                &&& m == m0.popped().rousing(Rousing::Swap)
                &&& some
                &&& m0.waiting
            },
            RecvStage::Got => m == m0.popped().producers_notified() && some,
            RecvStage::Empty => m == m0 && stuck,
            RecvStage::Disconnected => m == m0 && !some && m0.senders == 0,
            RecvStage::Pause | RecvStage::Register => m == m0 && stuck,
            RecvStage::Announce => {
                &&& stuck
                &&& m == (Memory {
                    consumer: crate::notify::Parker { slot: Some(self.me), ..m0.consumer },
                    ..m0
                })
            },
            RecvStage::RecheckAvail | RecvStage::RecheckSenders | RecvStage::Park => {
                &&& stuck
                &&& m == m0.consumer_prepared(self.me)
            },
            _ => false,
        }
    }

    /// How many accesses the operation still takes, at most, to its end or to a wait.
    pub open spec fn left(self) -> nat {
        match self.stage {
            RecvStage::Avail => 9,
            RecvStage::Senders => 8,
            RecvStage::FinalAvail => 7,
            RecvStage::Read => 6,
            RecvStage::StoreHead => 5,
            RecvStage::Wake(Rousing::Swap) => 4,
            RecvStage::Wake(Rousing::Take) => 3,
            RecvStage::Register => 6,
            RecvStage::Announce => 5,
            RecvStage::RecheckAvail => 4,
            RecvStage::RecheckSenders => 3,
            RecvStage::DrainDeliver => (3 * (self.max - self.count) + 7) as nat,
            RecvStage::DrainAvail => (3 * (self.max - self.count) + 6) as nat,
            RecvStage::DrainRead => (3 * (self.max - self.count) + 5) as nat,
            RecvStage::DrainStore => 4,
            RecvStage::DrainCut => 1,
            RecvStage::DrainWake(Rousing::Swap) => 3,
            RecvStage::DrainWake(Rousing::Take) => 2,
            RecvStage::Close => 3,
            RecvStage::CloseWake(Rousing::Swap) => 2,
            RecvStage::CloseWake(Rousing::Take) => 1,
            _ => 0,
        }
    }

    /// The operation is over, or waits.
    pub open spec fn settled(self) -> bool {
        match self.stage {
            RecvStage::Got
            | RecvStage::Empty
            | RecvStage::Disconnected
            | RecvStage::Pause
            | RecvStage::Park => true,
            _ => false,
        }
    }

    fn is_settled(&self) -> (yes: bool)
        ensures
            yes == self.settled(),
    {
        match self.stage {
            RecvStage::Got
            | RecvStage::Empty
            | RecvStage::Disconnected
            | RecvStage::Pause
            | RecvStage::Park => true,
            _ => false,
        }
    }

    /// Runs an operation that just started on `sh`, to its end or to a wait.
    fn run(&mut self, sh: &mut Shared<T>)
        requires
            old(self).wf(),
            old(self).stage == RecvStage::Avail,
            old(self).fits(old(sh)@),
            old(self).head == old(sh)@.head,
            old(sh)@.wf(),
        ensures
            final(self).settled(),
            old(self).on_the_way(old(sh)@, *final(self), final(sh)@),
    {
        let ghost rx0 = *self;
        let ghost m0 = sh@;
        while !self.is_settled()
            invariant
                rx0.wf(),
                m0.wf(),
                rx0.on_the_way(m0, *self, sh@),
            ensures
                self.settled(),
            decreases self.left(),
        {
            proof {
                crate::mpsc::lemma_first_published(m0);
                assert(forall|seq: int| #[trigger] sh@.mark_at(seq) == m0.mark_at(seq));
                if m0.head < m0.claim {
                    assert(m0.at(m0.head as int) is Some);
                }
            }
            self.step(sh);
            assert(rx0.on_the_way(m0, *self, sh@));
        }
    }

    /// Pops without waiting. What is still in the ring comes out before a missing sender is
    /// reported.
    pub fn try_recv(&mut self, sh: &mut Shared<T>) -> (r: Result<T, TryRecvError>)
        requires
            old(self).rests_on(old(sh)@),
            old(sh)@.wf(),
        ensures
            final(self).rests_on(final(sh)@),
            final(sh)@.wf(),
            old(sh)@.contents().len() > 0 ==> {
                &&& r == Ok::<T, TryRecvError>(old(sh)@.contents()[0])
                &&& final(sh)@ == old(sh)@.popped().producers_notified()
                &&& final(sh)@.contents() == old(sh)@.contents().drop_first()
            },
            old(sh)@.contents().len() == 0 ==> {
                &&& r == Err::<T, TryRecvError>(
                    if old(sh)@.senders == 0 {
                        TryRecvError::Disconnected
                    } else {
                        TryRecvError::Empty
                    },
                )
                &&& final(sh)@ == old(sh)@
            },
            Reply::Got(r) == old(sh)@.seen().reply(Call::TryRecv),
            final(sh)@.seen() == old(sh)@.seen().after(Call::TryRecv),
    {
        self.start(false, 0);
        self.run(sh);
        proof {
            if old(sh)@.contents().len() > 0 {
                crate::mpsc::lemma_popped(old(sh)@);
                crate::mpsc::lemma_same_ring(old(sh)@.popped(), sh@);
            }
        }
        self.finish_try()
    }

    /// The operation under way waits for an item from the ring with memory `m`.
    pub open spec fn waits_on(self, m: Memory<T>) -> bool {
        &&& self.wf()
        &&& self.stage == RecvStage::Pause || self.stage == RecvStage::Park
        &&& self.fits(m)
        &&& self.head == m.head
    }

    /// What a run of a blocking operation does that finds the memory `m`: with an item in the
    /// ring it pops it, without one and without any sender it fails, and otherwise it waits as
    /// the strategy says; before it sleeps until woken, it announces that.
    pub open spec fn recv_turn(
        self,
        m: Memory<T>,
        r: Turn<Result<T, RecvError>>,
        rx: Receiver<T>,
        m2: Memory<T>,
    ) -> bool {
        if m.contents().len() > 0 {
            &&& r == Turn::Done(Ok::<T, RecvError>(m.contents()[0]))
            &&& rx.rests_on(m2)
            &&& m2 == m.popped().producers_notified()
            &&& m2.contents() == m.contents().drop_first()
        } else if m.senders == 0 {
            &&& r == Turn::Done(Err::<T, RecvError>(RecvError))
            &&& rx.rests_on(m2)
            &&& m2 == m
        } else {
            &&& r == Turn::<Result<T, RecvError>>::Wait(self.strategy.rung(self.idle))
            &&& rx.waits_on(m2)
            &&& rx.strategy == self.strategy
            &&& rx.idle == self.idle
            &&& rx.me == self.me
            &&& m2 == if self.strategy == WaitStrategy::Park {
                m.consumer_prepared(self.me)
            } else {
                m
            }
            &&& m2.contents() == m.contents()
        }
    }

    /// Runs a blocking operation that just started on `sh`.
    fn turn(&mut self, sh: &mut Shared<T>) -> (r: Turn<Result<T, RecvError>>)
        requires
            old(self).wf(),
            old(self).stage == RecvStage::Avail,
            old(self).blocking,
            old(self).fits(old(sh)@),
            old(self).head == old(sh)@.head,
            old(sh)@.wf(),
        ensures
            old(self).recv_turn(old(sh)@, r, *final(self), final(sh)@),
            final(sh)@.wf(),
    {
        self.run(sh);
        proof {
            if old(sh)@.contents().len() > 0 {
                crate::mpsc::lemma_popped(old(sh)@);
                crate::mpsc::lemma_same_ring(old(sh)@.popped(), sh@);
            } else {
                crate::mpsc::lemma_same_ring(old(sh)@, sh@);
            }
        }
        match self.stage {
            RecvStage::Pause => Turn::Wait(self.strategy.choose_rung(&self.idle)),
            RecvStage::Park => Turn::Wait(Rung::Park),
            _ => Turn::Done(self.finish()),
        }
    }

    /// Pops, waiting while the ring is empty. Fails only when all senders are gone and the
    /// ring is drained. When it has to wait, it says how; [`Receiver::resume`] goes on after that.
    /// `me` names the thread.
    pub fn recv(&mut self, sh: &mut Shared<T>, me: u64) -> (r: Turn<Result<T, RecvError>>)
        requires
            old(self).rests_on(old(sh)@),
            old(sh)@.wf(),
        ensures
            old(self).started(true, me).recv_turn(old(sh)@, r, *final(self), final(sh)@),
            final(sh)@.wf(),
    {
        self.start(true, me);
        self.turn(sh)
    }

    /// What a blocked operation leaves behind when its wait is over.
    pub open spec fn rested(self, m: Memory<T>) -> Memory<T> {
        if self.stage == RecvStage::Park {
            m.waking(Waking::Clear)
        } else {
            m
        }
    }

    /// The blocked machine when its wait is over.
    pub open spec fn awake(self) -> Receiver<T> {
        Receiver { idle: self.strategy.up(self.idle), stage: RecvStage::Avail, ..self }
    }

    /// Goes on with a blocking operation whose wait is over.
    pub fn resume(&mut self, sh: &mut Shared<T>) -> (r: Turn<Result<T, RecvError>>)
        requires
            old(self).waits_on(old(sh)@),
            old(sh)@.wf(),
        ensures
            old(self).awake().recv_turn(old(self).rested(old(sh)@), r, *final(self), final(sh)@),
            final(sh)@.wf(),
    {
        let sleeping = match self.stage {
            RecvStage::Park => true,
            _ => false,
        };
        self.step(sh);
        if sleeping {
            self.step(sh);
        }
        proof {
            crate::mpsc::lemma_same_ring(old(sh)@, sh@);
            assert(*self == old(self).awake());
        }
        self.turn(sh)
    }

    /// Pops up to `max` items and appends them to `out`, oldest first; the slots are freed
    /// together at the end. Returns how many there were: none when the ring is empty, with or
    /// without a sender.
    pub fn drain(&mut self, sh: &mut Shared<T>, max: usize, out: &mut Vec<T>) -> (n: usize)
        requires
            old(self).rests_on(old(sh)@),
            old(sh)@.wf(),
        ensures
            final(self).rests_on(final(sh)@),
            final(sh)@.wf(),
            n == if max < old(sh)@.contents().len() {
                max as int
            } else {
                old(sh)@.contents().len() as int
            },
            final(out)@ == old(out)@ + old(sh)@.contents().take(n as int),
            final(sh)@.contents() == old(sh)@.contents().skip(n as int),
            final(sh)@ == (Memory {
                slots: final(sh)@.slots,
                head: (old(sh)@.head + n) as usize,
                ..if n > 0 {
                    old(sh)@.producers_notified()
                } else {
                    old(sh)@
                }
            }),
            final(out)@ == old(out)@ + (old(sh)@.seen().reply(Call::Drain(max))->Drained_0),
            final(sh)@.seen() == old(sh)@.seen().after(Call::Drain(max)),
    {
        let ghost m0 = sh@;
        let ghost out0 = out@;
        self.start_drain(max);
        while !self.is_drained()
            invariant
                m0.wf(),
                self.wf(),
                self.fits(sh@),
                self.max == max,
                self.count <= max,
                self.head == m0.head + self.count,
                self.count <= m0.claim - m0.head,
                out@ == out0 + m0.contents().take(
                    if self.stage == RecvStage::DrainDeliver {
                        self.count - 1
                    } else {
                        self.count as int
                    },
                ),
                sh@.holds(self.head as int, m0.claim as int),
                forall|seq: int|
                    self.head <= seq < m0.claim ==> (#[trigger] sh@.at(seq)) == m0.at(seq),
                match self.stage {
                    RecvStage::DrainAvail => sh@ == (Memory { slots: sh@.slots, ..m0 }),
                    RecvStage::DrainRead => {
                        &&& sh@ == (Memory { slots: sh@.slots, ..m0 })
                        &&& self.head < m0.claim
                    },
                    RecvStage::DrainDeliver => {
                        &&& sh@ == (Memory { slots: sh@.slots, ..m0 })
                        &&& self.count > 0
                        &&& self.value == Some(m0.contents()[self.count - 1])
                    },
                    RecvStage::DrainStore => {
                        &&& sh@ == (Memory { slots: sh@.slots, ..m0 })
                        &&& self.count > 0
                        &&& self.count == max || self.count == m0.claim - m0.head
                    },
                    RecvStage::DrainWake(r) => {
                        &&& self.count > 0
                        &&& self.count == max || self.count == m0.claim - m0.head
                        &&& r == Rousing::Take ==> m0.waiting
                        &&& sh@ == (Memory {
                            slots: sh@.slots,
                            head: self.head,
                            ..if r == Rousing::Take {
                                m0.rousing(Rousing::Swap)
                            } else {
                                m0
                            }
                        })
                    },
                    RecvStage::Drained => {
                        &&& self.count == max || self.count == m0.claim - m0.head
                        &&& sh@ == (Memory {
                            slots: sh@.slots,
                            head: self.head,
                            ..if self.count > 0 {
                                m0.producers_notified()
                            } else {
                                m0
                            }
                        })
                    },
                    _ => false,
                },
            ensures
                self.stage == RecvStage::Drained,
            decreases
                    m0.claim - m0.head - self.count,
                    (match self.stage {
                        RecvStage::DrainDeliver => 7int,
                        RecvStage::DrainAvail => 6,
                        RecvStage::DrainRead => 5,
                        RecvStage::DrainStore => 4,
                        RecvStage::DrainWake(Rousing::Swap) => 3,
                        RecvStage::DrainWake(Rousing::Take) => 2,
                        _ => 0,
                    }),
        {
            let ghost m = sh@;
            let ghost rx = *self;
            let delivers = match self.stage {
                RecvStage::DrainDeliver => true,
                _ => false,
            };
            if delivers {
                out.push(self.deliver());
                proof {
                    assert(m0.contents().take(rx.count as int) =~= m0.contents().take(
                        rx.count - 1,
                    ).push(m0.contents()[rx.count - 1]));
                }
            } else {
                proof {
                    crate::index::lemma_cap_positive(m.cap as int);
                    if self.head < m0.claim {
                        assert(m.at(self.head as int) is Some);
                        assert(m.at(self.head as int) == m0.at(self.head as int));
                    } else {
                        assert(m.mark_at(self.head as int) == crate::mpsc::old_mark(
                            self.head as int,
                            m.cap as int,
                        ));
                        crate::mpsc::lemma_old_mark_differs(self.head as int, m.cap as int);
                    }
                }
                self.step(sh);
                proof {
                    if rx.stage == RecvStage::DrainRead {
                        crate::mpsc::lemma_taken(m, rx.head as int, m0.claim as int);
                        assert forall|seq: int| self.head <= seq < m0.claim implies (
                        #[trigger] sh@.at(seq)) == m0.at(seq) by {
                            assert(m.at(seq) == m0.at(seq));
                        }
                    } else {
                        assert(forall|seq: int| #[trigger] sh@.at(seq) == m.at(seq));
                        assert(forall|seq: int| #[trigger] sh@.mark_at(seq) == m.mark_at(seq));
                    }
                }
            }
        }
        proof {
            let n = self.count as int;
            assert(sh@.contents() =~= m0.contents().skip(n)) by {
                assert forall|i: int| 0 <= i < m0.claim - m0.head - n implies sh@.contents()[i]
                    == m0.contents().skip(n)[i] by {
                    assert(sh@.at(sh@.head + i) == m0.at(m0.head + (n + i)));
                }
            }
        }
        self.finish_drain()
    }

    fn is_drained(&self) -> (yes: bool)
        ensures
            yes == (self.stage == RecvStage::Drained),
    {
        match self.stage {
            RecvStage::Drained => true,
            _ => false,
        }
    }

    /// Drops the handle: the senders learn that nobody takes their items, and are woken.
    pub fn drop(self, sh: &mut Shared<T>)
        requires
            self.rests_on(old(sh)@),
            old(sh)@.wf(),
        ensures
            final(sh)@ == (Memory { rx_dropped: true, ..old(sh)@ }).producers_woken(),
            final(sh)@.wf(),
            final(sh)@.contents() == old(sh)@.contents(),
            final(sh)@.seen() == old(sh)@.seen().after(Call::DropReceiver),
    {
        let mut rx = self;
        rx.start_drop();
        let ghost m0 = sh@;
        let ghost m1 = Memory { rx_dropped: true, ..m0 };
        while !rx.is_gone()
            invariant
                rx.wf(),
                rx.cap == sh@.cap,
                sh@.sized(),
                m1 == (Memory { rx_dropped: true, ..m0 }),
                match rx.stage {
                    RecvStage::Close => sh@ == m0,
                    RecvStage::CloseWake(Rousing::Swap) => sh@ == m1,
                    RecvStage::CloseWake(Rousing::Take) => sh@ == m1.rousing(Rousing::Swap)
                        && m1.waiting,
                    RecvStage::Gone => sh@ == m1.producers_woken(),
                    _ => false,
                },
            ensures
                rx.stage == RecvStage::Gone,
            decreases rx.left(),
        {
            rx.step(sh);
        }
        proof {
            crate::mpsc::lemma_same_ring(m0, sh@);
        }
    }

    fn is_gone(&self) -> (yes: bool)
        ensures
            yes == (self.stage == RecvStage::Gone),
    {
        match self.stage {
            RecvStage::Gone => true,
            _ => false,
        }
    }
}

} // verus!
