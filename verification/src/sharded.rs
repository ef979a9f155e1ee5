//! Ring with several producers and one consumer, made of one ring per producer.
//!
//! Each producer has a ring of its own ([`crate::spsc`]), a shard, and the consumer goes
//! round the shards. So producers never meet, and the items of one producer come out in
//! order; those of different producers come out in any order. A producer finds its own shard
//! full while others are empty. The set of producers is fixed when the ring is made.
//!
//! The consumer stays on one shard for up to [`VISIT_BUDGET`] items and then moves on, so no
//! producer can starve the others. [`Sweep`] is that part of it: which shard to try next, and
//! what a miss means. [`Search`] is a whole operation of the consumer: [`Search::action`] says
//! which shard to try or how to wait, so the shards can be rings on any memory. There is no
//! strategy `Park`: nobody could wake a consumer of many shards. What holds when the producers
//! run while the consumer sweeps is proved in [`interleave`].

use vstd::prelude::*;

use crate::spsc;
use crate::wait::{Idle, Rung, Turn, WaitStrategy};
use crate::{RecvError, SendError, TryRecvError, TrySendError};

pub mod interleave;
pub mod laws;

verus! {

/// How many items in a row come from one shard before the consumer moves on.
pub const VISIT_BUDGET: usize = 32;

/// Why a ring cannot be made.
#[derive(Debug, Clone, Copy, PartialEq, Eq, Hash)]
pub enum SplitError {
    /// There is no shard.
    NoShards,
    /// The capacity does not divide evenly into the shards.
    Uneven,
    /// The capacity of a shard is not a positive power of two.
    Capacity,
    /// The strategy is `Park`.
    Park,
}

impl SplitError {
    /// The error in words.
    pub fn to_string(&self) -> (s: String)
        ensures
            s@ == match *self {
                SplitError::NoShards => "n_shards must be positive"@,
                SplitError::Uneven => "total_cap must divide evenly into the shards"@,
                SplitError::Capacity => "per-shard capacity must be a positive power of two"@,
                SplitError::Park =>
                    "sharded::channel only supports WaitStrategy::BusySpin, Backoff and BackoffYield"@,
            },
    {
        match self {
            SplitError::NoShards => "n_shards must be positive".to_owned(),
            SplitError::Uneven => "total_cap must divide evenly into the shards".to_owned(),
            SplitError::Capacity => "per-shard capacity must be a positive power of two".to_owned(),
            SplitError::Park =>
                "sharded::channel only supports WaitStrategy::BusySpin, Backoff and BackoffYield".to_owned(),
        }
    }
}

/// What comes of splitting `total_cap` slots among `n_shards` shards.
pub open spec fn splits(n_shards: usize, total_cap: usize, strategy: WaitStrategy) -> Result<
    usize,
    SplitError,
> {
    if n_shards == 0 {
        Err(SplitError::NoShards)
    } else if total_cap % n_shards != 0 {
        Err(SplitError::Uneven)
    } else if !crate::index::is_cap((total_cap / n_shards) as int) {
        Err(SplitError::Capacity)
    } else if strategy == WaitStrategy::Park {
        Err(SplitError::Park)
    } else {
        Ok((total_cap / n_shards) as usize)
    }
}

/// What divides evenly adds up again.
proof fn lemma_split(n_shards: usize, total_cap: usize)
    requires
        n_shards > 0,
    ensures
        total_cap % n_shards == 0 ==> (total_cap / n_shards) * n_shards == total_cap,
{
    vstd::arithmetic::div_mod::lemma_fundamental_div_mod(total_cap as int, n_shards as int);
    vstd::arithmetic::mul::lemma_mul_is_commutative(
        n_shards as int,
        total_cap as int / n_shards as int,
    );
}

/// The capacity of each shard, if a ring with `total_cap` slots in all can be made of
/// `n_shards` shards.
pub fn split(n_shards: usize, total_cap: usize, strategy: WaitStrategy) -> (r: Result<
    usize,
    SplitError,
>)
    ensures
        r == splits(n_shards, total_cap, strategy),
        r matches Ok(cap) ==> cap * n_shards == total_cap,
{
    proof {
        if n_shards > 0 {
            lemma_split(n_shards, total_cap);
        }
    }
    if n_shards == 0 {
        return Err(SplitError::NoShards);
    }
    if total_cap % n_shards != 0 {
        return Err(SplitError::Uneven);
    }
    let per_shard = total_cap / n_shards;
    if !crate::assert_cap(per_shard) {
        return Err(SplitError::Capacity);
    }
    match strategy {
        WaitStrategy::Park => Err(SplitError::Park),
        _ => Ok(per_shard),
    }
}

// ---------------------------------------------------------------------------
// The sweep
// ---------------------------------------------------------------------------

/// The round that the consumer makes.
#[derive(Debug, Clone, Copy, PartialEq, Eq, Hash)]
pub struct Sweep {
    /// How many shards there are.
    pub shards: usize,
    /// The shard to try.
    pub cursor: usize,
    /// How many items in a row came from it.
    pub budget: usize,
    /// How many shards the sweep under way has tried in vain.
    pub tried: usize,
    /// How many of those had no sender any more.
    pub gone: usize,
}

/// What a sweep found.
#[derive(Debug, Clone, Copy, PartialEq, Eq, Hash)]
pub enum Found {
    /// Nothing yet: try the next shard.
    Next,
    /// No shard had an item, and some still have a sender.
    Empty,
    /// No shard had an item, and none has a sender.
    Disconnected,
}

/// The shard `k` places after shard `i`, of `n`.
pub open spec fn after(i: int, k: int, n: int) -> int {
    (i + k) % n
}

impl Sweep {
    /// What holds of it at all times.
    pub open spec fn wf(self) -> bool {
        &&& self.cursor < self.shards
        &&& self.budget <= VISIT_BUDGET
        &&& self.gone <= self.tried < self.shards
    }

    /// One shard on.
    pub open spec fn moved(self) -> Sweep {
        Sweep {
            cursor: after(self.cursor as int, 1, self.shards as int) as usize,
            budget: 0,
            ..self
        }
    }

    /// At the start of a sweep: a shard that had its turn is left.
    pub open spec fn begun(self) -> Sweep {
        let s = Sweep { tried: 0, gone: 0, ..self };
        if self.budget >= VISIT_BUDGET {
            s.moved()
        } else {
            s
        }
    }

    /// After the shard delivered an item, which ends the sweep.
    pub open spec fn delivered(self) -> Sweep {
        Sweep { budget: (self.budget + 1) as usize, tried: 0, gone: 0, ..self }
    }

    /// After the shard had none.
    pub open spec fn missed(self, gone: bool) -> Sweep {
        let tried = self.tried + 1;
        let all_gone = self.gone + if gone {
            1int
        } else {
            0
        };
        let over = tried == self.shards;
        Sweep {
            tried: if over {
                0
            } else {
                tried as usize
            },
            gone: if over {
                0
            } else {
                all_gone as usize
            },
            ..self.moved()
        }
    }

    /// What it means that the shard had none.
    pub open spec fn meaning(self, gone: bool) -> Found {
        if self.tried + 1 < self.shards {
            Found::Next
        } else if gone && self.gone == self.tried {
            Found::Disconnected
        } else {
            Found::Empty
        }
    }

    /// A round over `n` shards.
    pub fn new(n: usize) -> (s: Sweep)
        requires
            n > 0,
        ensures
            s == (Sweep { shards: n, cursor: 0, budget: 0, tried: 0, gone: 0 }),
            s.wf(),
    {
        Sweep { shards: n, cursor: 0, budget: 0, tried: 0, gone: 0 }
    }

    /// Moves on to the next shard, from the last to the first, with a new budget.
    pub fn advance(&mut self)
        requires
            old(self).cursor < old(self).shards,
        ensures
            *final(self) == old(self).moved(),
            final(self).cursor < final(self).shards,
    {
        self.cursor = if self.cursor + 1 == self.shards {
            0
        } else {
            self.cursor + 1
        };
        self.budget = 0;
        proof {
            lemma_next(old(self).cursor as int, self.shards as int);
        }
    }

    /// Starts a sweep; the shard to try first is `cursor`.
    pub fn begin(&mut self)
        requires
            old(self).wf(),
        ensures
            *final(self) == old(self).begun(),
            final(self).wf(),
            final(self).budget < VISIT_BUDGET,
    {
        self.tried = 0;
        self.gone = 0;
        if self.budget >= VISIT_BUDGET {
            self.advance();
        }
    }

    /// The shard delivered an item.
    pub fn deliver(&mut self)
        requires
            old(self).wf(),
            old(self).budget < VISIT_BUDGET,
        ensures
            *final(self) == old(self).delivered(),
            final(self).wf(),
    {
        self.budget = self.budget + 1;
        self.tried = 0;
        self.gone = 0;
    }

    /// The shard had no item, and perhaps no sender any more.
    pub fn miss(&mut self, gone: bool) -> (f: Found)
        requires
            old(self).wf(),
        ensures
            *final(self) == old(self).missed(gone),
            final(self).wf(),
            f == old(self).meaning(gone),
    {
        self.advance();
        self.tried = self.tried + 1;
        if gone {
            self.gone = self.gone + 1;
        }
        if self.tried < self.shards {
            Found::Next
        } else {
            let all = self.gone == self.tried;
            self.tried = 0;
            self.gone = 0;
            if all {
                Found::Disconnected
            } else {
                Found::Empty
            }
        }
    }
}

/// The next shard is one on, or the first after the last.
proof fn lemma_next(i: int, n: int)
    requires
        0 <= i < n,
    ensures
        after(i, 1, n) == if i + 1 == n {
            0
        } else {
            i + 1
        },
{
    if i + 1 < n {
        vstd::arithmetic::div_mod::lemma_small_mod((i + 1) as nat, n as nat);
    } else {
        vstd::arithmetic::div_mod::lemma_mod_self_0(n);
    }
}

/// How many places shard `i` comes after shard `start`, of `n`.
pub open spec fn distance(start: int, i: int, n: int) -> int {
    (i - start) % n
}

/// Every shard is at its distance.
proof fn lemma_distance(start: int, i: int, n: int)
    requires
        0 <= start < n,
        0 <= i < n,
    ensures
        0 <= distance(start, i, n) < n,
        after(start, distance(start, i, n), n) == i,
{
    vstd::arithmetic::div_mod::lemma_mod_bound(i - start, n);
    vstd::arithmetic::div_mod::lemma_add_mod_noop(start, i - start, n);
    vstd::arithmetic::div_mod::lemma_add_mod_noop(start, (i - start) % n, n);
    vstd::arithmetic::div_mod::lemma_mod_twice(i - start, n);
    vstd::arithmetic::div_mod::lemma_small_mod(i as nat, n as nat);
}

/// A whole round leads back.
proof fn lemma_round(start: int, n: int)
    requires
        0 <= start < n,
    ensures
        after(start, n, n) == start,
{
    vstd::arithmetic::div_mod::lemma_mod_add_multiples_vanish(start, n);
    vstd::arithmetic::div_mod::lemma_small_mod(start as nat, n as nat);
}

/// Going on by one more.
proof fn lemma_after(i: int, k: int, n: int)
    requires
        0 <= i < n,
        0 <= k,
    ensures
        0 <= after(i, k, n) < n,
        after(after(i, k, n), 1, n) == after(i, k + 1, n),
        after(i, 0, n) == i,
{
    vstd::arithmetic::div_mod::lemma_mod_bound(i + k, n);
    vstd::arithmetic::div_mod::lemma_add_mod_noop(i + k, 1, n);
    vstd::arithmetic::div_mod::lemma_add_mod_noop((i + k) % n, 1, n);
    vstd::arithmetic::div_mod::lemma_mod_twice(i + k, n);
    vstd::arithmetic::div_mod::lemma_small_mod(i as nat, n as nat);
}

// ---------------------------------------------------------------------------
// The search
// ---------------------------------------------------------------------------

/// Where an operation of the consumer stands.
#[derive(Debug, Clone, Copy, PartialEq, Eq, Hash)]
pub enum SearchStage {
    /// No operation is under way.
    Ready,
    /// Try a shard for one item.
    Try,
    /// Wait by itself, then sweep again.
    Pause,
    /// Over: a shard delivered an item.
    Got,
    /// Over: all shards are empty.
    Empty,
    /// Over: all shards are drained and have no sender.
    Disconnected,
    /// In a batch: try a shard for the next item.
    DrainTry,
    /// Over: the batch is complete.
    Drained,
}

/// What an operation of the consumer asks for.
#[derive(Debug, Clone, Copy, PartialEq, Eq, Hash)]
pub enum SearchAction {
    /// Try this shard; answer with [`Search::hit`] or [`Search::miss`].
    Try(usize),
    /// Wait, then answer with [`Search::rest`].
    Pause(Rung),
    /// Nothing: the operation is over.
    Return,
}

/// An operation of the consumer: sweeps, and waits between them.
#[derive(Debug, Clone, Copy, PartialEq, Eq, Hash)]
pub struct Search {
    pub sweep: Sweep,
    pub strategy: WaitStrategy,
    /// Where the operation under way stands on the ladder.
    pub idle: Idle,
    /// The operation under way waits for an item.
    pub blocking: bool,
    /// How many items a batch may have.
    pub max: usize,
    /// How many items the batch under way has.
    pub count: usize,
    pub stage: SearchStage,
}

impl Search {
    /// What holds of it at every stage.
    pub open spec fn wf(self) -> bool {
        let tries = self.stage == SearchStage::Try || self.stage == SearchStage::DrainTry;
        &&& self.sweep.wf()
        &&& self.idle.wf()
        &&& tries ==> self.sweep.budget < VISIT_BUDGET
        &&& !tries ==> self.sweep.tried == 0 && self.sweep.gone == 0
        &&& self.stage == SearchStage::Pause ==> self.blocking
        &&& self.stage == SearchStage::Empty ==> !self.blocking
        &&& self.stage == SearchStage::DrainTry ==> self.count < self.max
        &&& self.stage == SearchStage::Drained ==> self.count <= self.max
    }

    /// At another stage.
    pub open spec fn to(self, stage: SearchStage) -> Search {
        Search { stage, ..self }
    }

    /// What comes next.
    pub open spec fn asks(self) -> SearchAction {
        match self.stage {
            SearchStage::Try | SearchStage::DrainTry => SearchAction::Try(self.sweep.cursor),
            SearchStage::Pause => SearchAction::Pause(self.strategy.rung(self.idle)),
            _ => SearchAction::Return,
        }
    }

    /// At the start of an operation that receives one item.
    pub open spec fn started(self, blocking: bool) -> Search {
        Search {
            sweep: self.sweep.begun(),
            idle: Idle::start(self.strategy),
            blocking,
            stage: SearchStage::Try,
            ..self
        }
    }

    /// A batch goes on, unless it has as many items as it may.
    pub open spec fn drain_on(self) -> Search {
        if self.count < self.max {
            Search { sweep: self.sweep.begun(), stage: SearchStage::DrainTry, ..self }
        } else {
            self.to(SearchStage::Drained)
        }
    }

    /// At the start of a batch of up to `max` items.
    pub open spec fn drain_started(self, max: usize) -> Search {
        (Search { max, count: 0, ..self }).drain_on()
    }

    /// After a sweep ended with an item.
    pub open spec fn got(self) -> Search {
        if self.stage == SearchStage::DrainTry {
            (Search { count: (self.count + 1) as usize, ..self }).drain_on()
        } else {
            self.to(SearchStage::Got)
        }
    }

    /// After a sweep ended without one, and perhaps without any sender.
    pub open spec fn lacked(self, disconnected: bool) -> Search {
        if self.stage == SearchStage::DrainTry {
            self.to(SearchStage::Drained)
        } else if disconnected {
            self.to(SearchStage::Disconnected)
        } else if self.blocking {
            self.to(SearchStage::Pause)
        } else {
            self.to(SearchStage::Empty)
        }
    }

    /// After the shard delivered an item.
    pub open spec fn after_hit(self) -> Search {
        (Search { sweep: self.sweep.delivered(), ..self }).got()
    }

    /// After the shard had none, and perhaps no sender any more.
    pub open spec fn after_miss(self, gone: bool) -> Search {
        let s = Search { sweep: self.sweep.missed(gone), ..self };
        match self.sweep.meaning(gone) {
            Found::Next => s,
            Found::Empty => s.lacked(false),
            Found::Disconnected => s.lacked(true),
        }
    }

    /// After a wait.
    pub open spec fn rested(self) -> Search {
        Search {
            sweep: self.sweep.begun(),
            idle: self.strategy.up(self.idle),
            stage: SearchStage::Try,
            ..self
        }
    }

    /// The consumer of `n` shards, at rest.
    pub fn new(n: usize, strategy: WaitStrategy) -> (s: Search)
        requires
            n > 0,
        ensures
            s.wf(),
            s.stage == SearchStage::Ready,
            s.sweep == (Sweep { shards: n, cursor: 0, budget: 0, tried: 0, gone: 0 }),
            s.strategy == strategy,
    {
        Search {
            sweep: Sweep::new(n),
            strategy,
            idle: Idle::for_strategy(strategy),
            blocking: false,
            max: 0,
            count: 0,
            stage: SearchStage::Ready,
        }
    }

    /// What comes next.
    pub fn action(&self) -> (a: SearchAction)
        ensures
            a == self.asks(),
    {
        match self.stage {
            SearchStage::Try | SearchStage::DrainTry => SearchAction::Try(self.sweep.cursor),
            SearchStage::Pause => SearchAction::Pause(self.strategy.choose_rung(&self.idle)),
            _ => SearchAction::Return,
        }
    }

    /// Starts an operation that receives one item; it waits for one if `blocking`.
    pub fn start(&mut self, blocking: bool)
        requires
            old(self).wf(),
            old(self).stage == SearchStage::Ready,
        ensures
            *final(self) == old(self).started(blocking),
            final(self).wf(),
    {
        self.sweep.begin();
        self.idle = Idle::for_strategy(self.strategy);
        self.blocking = blocking;
        self.stage = SearchStage::Try;
    }

    fn continue_drain(&mut self)
        requires
            old(self).sweep.wf(),
        ensures
            *final(self) == old(self).drain_on(),
            final(self).sweep.wf(),
            old(self).count < old(self).max ==> final(self).sweep.budget < VISIT_BUDGET,
    {
        if self.count < self.max {
            self.sweep.begin();
            self.stage = SearchStage::DrainTry;
        } else {
            self.stage = SearchStage::Drained;
        }
    }

    /// Starts a batch of up to `max` items.
    pub fn start_drain(&mut self, max: usize)
        requires
            old(self).wf(),
            old(self).stage == SearchStage::Ready,
        ensures
            *final(self) == old(self).drain_started(max),
            final(self).wf(),
    {
        self.max = max;
        self.count = 0;
        self.continue_drain();
    }

    /// The shard delivered an item.
    pub fn hit(&mut self)
        requires
            old(self).wf(),
            old(self).stage == SearchStage::Try || old(self).stage == SearchStage::DrainTry,
        ensures
            *final(self) == old(self).after_hit(),
            final(self).wf(),
    {
        self.sweep.deliver();
        match self.stage {
            SearchStage::DrainTry => {
                self.count = self.count + 1;
                self.continue_drain();
            },
            _ => {
                self.stage = SearchStage::Got;
            },
        }
    }

    /// The shard had no item, and perhaps no sender any more.
    pub fn miss(&mut self, gone: bool)
        requires
            old(self).wf(),
            old(self).stage == SearchStage::Try || old(self).stage == SearchStage::DrainTry,
        ensures
            *final(self) == old(self).after_miss(gone),
            final(self).wf(),
    {
        let found = self.sweep.miss(gone);
        match (found, self.stage) {
            (Found::Next, _) => {},
            (_, SearchStage::DrainTry) => {
                self.stage = SearchStage::Drained;
            },
            (Found::Disconnected, _) => {
                self.stage = SearchStage::Disconnected;
            },
            (Found::Empty, _) => {
                self.stage = if self.blocking {
                    SearchStage::Pause
                } else {
                    SearchStage::Empty
                };
            },
        }
    }

    /// The wait is over.
    pub fn rest(&mut self)
        requires
            old(self).wf(),
            old(self).stage == SearchStage::Pause,
        ensures
            *final(self) == old(self).rested(),
            final(self).wf(),
    {
        self.sweep.begin();
        self.strategy.climb(&mut self.idle);
        self.stage = SearchStage::Try;
    }

    /// Ends an operation that does not wait, and tells what became of it: nothing is wrong,
    /// or there was no item.
    pub fn finish_try(&mut self) -> (r: Result<(), TryRecvError>)
        requires
            old(self).wf(),
            old(self).stage == SearchStage::Got || old(self).stage == SearchStage::Empty || old(
                self,
            ).stage == SearchStage::Disconnected,
        ensures
            *final(self) == old(self).to(SearchStage::Ready),
            final(self).wf(),
            r == match old(self).stage {
                SearchStage::Got => Ok::<(), TryRecvError>(()),
                SearchStage::Empty => Err(TryRecvError::Empty),
                _ => Err(TryRecvError::Disconnected),
            },
    {
        let stage = self.stage;
        self.stage = SearchStage::Ready;
        match stage {
            SearchStage::Got => Ok(()),
            SearchStage::Empty => Err(TryRecvError::Empty),
            _ => Err(TryRecvError::Disconnected),
        }
    }

    /// Ends an operation that waits for an item, and tells what became of it.
    pub fn finish(&mut self) -> (r: Result<(), RecvError>)
        requires
            old(self).wf(),
            old(self).stage == SearchStage::Got || old(self).stage == SearchStage::Disconnected,
        ensures
            *final(self) == old(self).to(SearchStage::Ready),
            final(self).wf(),
            r == if old(self).stage == SearchStage::Got {
                Ok::<(), RecvError>(())
            } else {
                Err(RecvError)
            },
    {
        let stage = self.stage;
        self.stage = SearchStage::Ready;
        match stage {
            SearchStage::Got => Ok(()),
            _ => Err(RecvError),
        }
    }

    /// Cuts a batch short after the items that it has.
    pub fn stop_drain(&mut self)
        requires
            old(self).wf(),
            old(self).stage == SearchStage::DrainTry,
        ensures
            *final(self) == (Search {
                sweep: Sweep { tried: 0, gone: 0, ..old(self).sweep },
                stage: SearchStage::Drained,
                ..*old(self)
            }),
            final(self).wf(),
    {
        self.sweep.tried = 0;
        self.sweep.gone = 0;
        self.stage = SearchStage::Drained;
    }

    /// Ends a batch, and returns how many items it had.
    pub fn finish_drain(&mut self) -> (n: usize)
        requires
            old(self).wf(),
            old(self).stage == SearchStage::Drained,
        ensures
            n == old(self).count,
            *final(self) == old(self).to(SearchStage::Ready),
            final(self).wf(),
    {
        self.stage = SearchStage::Ready;
        self.count
    }
}

// ---------------------------------------------------------------------------
// The ring
// ---------------------------------------------------------------------------

/// The shared memory of the shards, for use from one thread.
#[derive(Debug)]
pub struct Shared<T> {
    shards: Vec<spsc::Shared<T>>,
}

impl<T> View for Shared<T> {
    type V = Seq<spsc::Memory<T>>;

    closed spec fn view(&self) -> Seq<spsc::Memory<T>> {
        Seq::new(self.shards@.len(), |i: int| self.shards@[i]@)
    }
}

/// Every shard is whole, and none has the strategy `Park`.
pub open spec fn wf<T>(ms: Seq<spsc::Memory<T>>) -> bool {
    forall|i: int|
        0 <= i < ms.len() ==> (#[trigger] ms[i]).wf() && ms[i].strategy != WaitStrategy::Park
}

/// The items in the shards, oldest first.
pub open spec fn contents<T>(ms: Seq<spsc::Memory<T>>) -> Seq<Seq<T>> {
    Seq::new(ms.len(), |i: int| ms[i].contents())
}

impl<T> Shared<T> {
    /// Ends the ring, when all handles are gone: takes the items that were pushed and not
    /// popped out of their slots, shard by shard, each one once.
    pub fn drop(self) -> (left: Vec<T>)
        requires
            wf(self@),
        ensures
            left@ == contents(self@).flatten(),
    {
        let mut shards = self.shards;
        let mut left: Vec<T> = Vec::new();
        while shards.len() > 0
            invariant
                wf(self@),
                shards@.len() <= self@.len(),
                forall|i: int| 0 <= i < shards@.len() ==> (#[trigger] shards@[i])@ == self@[i],
                left@ == contents(self@).skip(shards@.len() as int).flatten(),
            decreases shards@.len(),
        {
            let ghost n = shards@.len();
            let shard = shards.pop().unwrap();
            assert(shard@ == self@[n - 1]);
            let mut items = shard.drop();
            let ghost mine = items@;
            items.append(&mut left);
            left = items;
            proof {
                let rest = contents(self@).skip(n - 1);
                assert(rest.first() == mine);
                assert(rest.drop_first() =~= contents(self@).skip(n as int));
            }
        }
        assert(contents(self@).skip(0) =~= contents(self@));
        left
    }
}

/// A producer, with a shard of its own.
#[derive(Debug)]
pub struct Sender<T> {
    pub inner: spsc::Sender<T>,
    /// The number of the shard.
    pub shard: usize,
}

impl<T> Sender<T> {
    /// The handle belongs to the shards with memories `ms` and no operation of it is under
    /// way.
    pub open spec fn rests_on(self, ms: Seq<spsc::Memory<T>>) -> bool {
        &&& self.shard < ms.len()
        &&& self.inner.rests_on(ms[self.shard as int])
    }

    /// Pushes into the own shard without waiting. `Full` means that this shard is full.
    pub fn try_send(&mut self, sh: &mut Shared<T>, v: T) -> (r: Result<(), TrySendError<T>>)
        requires
            old(self).rests_on(old(sh)@),
            wf(old(sh)@),
            !old(sh)@[old(self).shard as int].full() ==> old(sh)@[old(self).shard as int].tail
                < usize::MAX,
        ensures
            final(self).rests_on(final(sh)@),
            final(self).shard == old(self).shard,
            wf(final(sh)@),
            ({
                let i = old(self).shard as int;
                let m = old(sh)@[i];
                if m.disconnected {
                    &&& r == Err::<(), TrySendError<T>>(TrySendError::Disconnected(v))
                    &&& final(sh)@ == old(sh)@
                } else if m.full() {
                    &&& r == Err::<(), TrySendError<T>>(TrySendError::Full(v))
                    &&& final(sh)@ == old(sh)@
                } else {
                    &&& r == Ok::<(), TrySendError<T>>(())
                    &&& final(sh)@ == old(sh)@.update(i, m.pushed(v))
                    &&& contents(final(sh)@) == contents(old(sh)@).update(
                        i,
                        m.contents().push(v),
                    )
                }
            }),
    {
        let i = self.shard;
        assert(old(sh)@[i as int] == old(sh).shards@[i as int]@);
        let r = self.inner.try_send(&mut sh.shards[i], v);
        proof {
            assert(sh@ =~= old(sh)@.update(i as int, sh@[i as int]));
            assert(contents(sh@) =~= contents(old(sh)@).update(
                i as int,
                sh@[i as int].contents(),
            ));
        }
        r
    }

    /// The operation under way waits for room in its shard, with `v` to send.
    pub open spec fn waits_on(self, ms: Seq<spsc::Memory<T>>, v: T) -> bool {
        &&& self.shard < ms.len()
        &&& self.inner.waits_on(ms[self.shard as int], v)
    }

    /// Pushes into the own shard, waiting while it is full. Fails only without a receiver.
    /// When it has to wait, it says how; [`Sender::resume`] goes on after that.
    pub fn send(&mut self, sh: &mut Shared<T>, v: T) -> (r: Turn<Result<(), SendError<T>>>)
        requires
            old(self).rests_on(old(sh)@),
            wf(old(sh)@),
            !old(sh)@[old(self).shard as int].full() ==> old(sh)@[old(self).shard as int].tail
                < usize::MAX,
        ensures
            final(self).shard == old(self).shard,
            wf(final(sh)@),
            ({
                let i = old(self).shard as int;
                &&& old(self).inner.started(v, true, 0).send_turn(
                    old(sh)@[i],
                    r,
                    final(self).inner,
                    final(sh)@[i],
                )
                &&& final(sh)@ == old(sh)@.update(i, final(sh)@[i])
            }),
    {
        let i = self.shard;
        assert(old(sh)@[i as int] == old(sh).shards@[i as int]@);
        let r = self.inner.send(&mut sh.shards[i], v, 0);
        assert(sh@ =~= old(sh)@.update(i as int, sh@[i as int]));
        r
    }

    /// Goes on with a blocking operation whose wait is over.
    pub fn resume(&mut self, sh: &mut Shared<T>) -> (r: Turn<Result<(), SendError<T>>>)
        requires
            old(self).waits_on(old(sh)@, old(self).inner.value->0),
            wf(old(sh)@),
            !old(sh)@[old(self).shard as int].full() ==> old(sh)@[old(self).shard as int].tail
                < usize::MAX,
        ensures
            final(self).shard == old(self).shard,
            wf(final(sh)@),
            ({
                let i = old(self).shard as int;
                &&& old(self).inner.awake().send_turn(
                    old(sh)@[i],
                    r,
                    final(self).inner,
                    final(sh)@[i],
                )
                &&& final(sh)@ == old(sh)@.update(i, final(sh)@[i])
            }),
    {
        let i = self.shard;
        assert(old(sh)@[i as int] == old(sh).shards@[i as int]@);
        let r = self.inner.resume(&mut sh.shards[i]);
        assert(sh@ =~= old(sh)@.update(i as int, sh@[i as int]));
        r
    }

    /// Drops the handle: the receiver learns that its shard gets no more items.
    pub fn drop(self, sh: &mut Shared<T>)
        requires
            self.rests_on(old(sh)@),
            wf(old(sh)@),
        ensures
            final(sh)@ == old(sh)@.update(
                self.shard as int,
                old(sh)@[self.shard as int].closed(),
            ),
            wf(final(sh)@),
            contents(final(sh)@) == contents(old(sh)@),
    {
        let i = self.shard;
        assert(old(sh)@[i as int] == old(sh).shards@[i as int]@);
        self.inner.drop(&mut sh.shards[i]);
        proof {
            assert(sh@ =~= old(sh)@.update(i as int, old(sh)@[i as int].closed()));
            assert(contents(sh@) =~= contents(old(sh)@));
        }
    }
}

/// How many places after `start` the first shard with an item comes, counted from `k` on; the
/// number of shards, if there is none.
pub open spec fn hit<T>(ms: Seq<spsc::Memory<T>>, start: int, k: int) -> int
    decreases ms.len() - k,
{
    if k >= ms.len() {
        ms.len() as int
    } else if ms[after(start, k, ms.len() as int)].contents().len() > 0 {
        k
    } else {
        hit(ms, start, k + 1)
    }
}

/// The shard that a sweep takes an item from: the first one with an item, from the cursor on.
pub open spec fn source<T>(sweep: Sweep, ms: Seq<spsc::Memory<T>>) -> Option<int> {
    let start = sweep.begun().cursor as int;
    if hit(ms, start, 0) < ms.len() {
        Some(after(start, hit(ms, start, 0), ms.len() as int))
    } else {
        None
    }
}

/// What a sweep returns: the oldest item of that shard; without one, whether any shard can
/// still deliver.
pub open spec fn outcome<T>(sweep: Sweep, ms: Seq<spsc::Memory<T>>) -> Result<T, TryRecvError> {
    match source(sweep, ms) {
        Some(i) => Ok(ms[i].contents()[0]),
        None => if forall|i: int| 0 <= i < ms.len() ==> (#[trigger] ms[i]).disconnected {
            Err(TryRecvError::Disconnected)
        } else {
            Err(TryRecvError::Empty)
        },
    }
}

/// Where a sweep leaves the round: on the shard that it took an item from, or where it began.
pub open spec fn swept<T>(sweep: Sweep, ms: Seq<spsc::Memory<T>>) -> Sweep {
    let begun = sweep.begun();
    match source(sweep, ms) {
        Some(i) => Sweep {
            cursor: i as usize,
            budget: if i == begun.cursor {
                (begun.budget + 1) as usize
            } else {
                1
            },
            ..begun
        },
        None => Sweep { budget: 0, ..begun },
    }
}

/// The memories after a sweep.
pub open spec fn taken<T>(sweep: Sweep, ms: Seq<spsc::Memory<T>>) -> Seq<spsc::Memory<T>> {
    match source(sweep, ms) {
        Some(i) => ms.update(i, ms[i].popped()),
        None => ms,
    }
}

/// A search after its sweep, which just began, was made on the memories `ms`.
pub open spec fn settled<T>(search: Search, ms: Seq<spsc::Memory<T>>) -> Search {
    let s = Search { sweep: swept(search.sweep, ms), ..search };
    match outcome(search.sweep, ms) {
        Ok(_) => s.got(),
        Err(TryRecvError::Empty) => s.lacked(false),
        Err(TryRecvError::Disconnected) => s.lacked(true),
    }
}

/// The single consumer.
#[derive(Debug)]
pub struct Receiver<T> {
    pub shards: Vec<spsc::Receiver<T>>,
    pub search: Search,
}

impl<T> Receiver<T> {
    /// The local state agrees with the memories `ms`.
    pub open spec fn fits(self, ms: Seq<spsc::Memory<T>>) -> bool {
        &&& self.shards@.len() == ms.len()
        &&& self.search.wf()
        &&& self.search.sweep.shards == ms.len()
        &&& self.search.strategy != WaitStrategy::Park
        &&& forall|i: int|
            0 <= i < ms.len() ==> (#[trigger] self.shards@[i]).rests_on(ms[i])
    }

    /// The handle belongs to the shards with memories `ms` and no operation of it is under
    /// way.
    pub open spec fn rests_on(self, ms: Seq<spsc::Memory<T>>) -> bool {
        &&& self.fits(ms)
        &&& self.search.stage == SearchStage::Ready
    }

    /// The operation under way waits for an item from the shards with memories `ms`.
    pub open spec fn waits_on(self, ms: Seq<spsc::Memory<T>>) -> bool {
        &&& self.fits(ms)
        &&& self.search.stage == SearchStage::Pause
    }

    /// Makes a sweep that just began.
    fn sweep_once(&mut self, sh: &mut Shared<T>) -> (r: Option<T>)
        requires
            old(self).fits(old(sh)@),
            old(self).search.stage == SearchStage::Try || old(self).search.stage
                == SearchStage::DrainTry,
            old(self).search.sweep.tried == 0,
            old(self).search.sweep.gone == 0,
            wf(old(sh)@),
        ensures
            final(self).fits(final(sh)@),
            wf(final(sh)@),
            r == match outcome(old(self).search.sweep, old(sh)@) {
                Ok(v) => Some(v),
                Err(_) => None,
            },
            final(self).search == settled(old(self).search, old(sh)@),
            final(sh)@ == taken(old(self).search.sweep, old(sh)@),
    {
        let ghost search = self.search;
        let ghost ms = sh@;
        let ghost n = ms.len() as int;
        let ghost begun = self.search.sweep;
        let ghost start = begun.cursor as int;
        proof {
            lemma_after(start, 0, n);
        }
        loop
            invariant
                wf(ms),
                ms == old(sh)@,
                sh@ == ms,
                n == ms.len(),
                search == old(self).search,
                search.wf(),
                search.stage == SearchStage::Try || search.stage == SearchStage::DrainTry,
                begun == search.sweep,
                start == begun.cursor,
                0 <= start < n,
                begun.tried == 0 && begun.gone == 0 && begun.shards == n,
                self.fits(ms),
                self.search == (Search { sweep: self.search.sweep, ..search }),
                self.search.sweep.cursor == after(start, self.search.sweep.tried as int, n),
                self.search.sweep.budget == if self.search.sweep.tried == 0 {
                    begun.budget
                } else {
                    0
                },
                begun.budget < VISIT_BUDGET,
                hit(ms, start, 0) == hit(ms, start, self.search.sweep.tried as int),
                self.search.sweep.gone == self.search.sweep.tried <==> (forall|j: int|
                    0 <= j < self.search.sweep.tried ==> (#[trigger] ms[after(
                        start,
                        j,
                        n,
                    )]).disconnected),
            decreases n - self.search.sweep.tried,
        {
            let c = self.search.sweep.cursor;
            let ghost k = self.search.sweep.tried as int;
            let ghost before = self.search.sweep;
            proof {
                lemma_after(start, k, n);
                assert(ms[c as int] == sh.shards@[c as int]@);
                assert(self.shards@[c as int].rests_on(ms[c as int]));
            }
            match self.shards[c].try_recv(&mut sh.shards[c]) {
                Ok(v) => {
                    self.search.hit();
                    proof {
                        assert(hit(ms, start, 0) == k);
                        if k > 0 {
                            lemma_away(start, k, n);
                        }
                        assert(before.delivered() == swept(begun, ms));
                        assert(sh@ =~= ms.update(c as int, ms[c as int].popped()));
                    }
                    return Some(v);
                },
                Err(e) => {
                    let gone = match e {
                        TryRecvError::Disconnected => true,
                        TryRecvError::Empty => false,
                    };
                    self.search.miss(gone);
                    proof {
                        assert(sh@ =~= ms);
                        assert(hit(ms, start, 0) == hit(ms, start, k + 1));
                        if k + 1 == n {
                            lemma_round(start, n);
                            assert(before.missed(gone) == swept(begun, ms));
                            if gone && before.gone == before.tried {
                                assert forall|i: int| 0 <= i < n implies (
                                #[trigger] ms[i]).disconnected by {
                                    lemma_distance(start, i, n);
                                    let j = distance(start, i, n);
                                    assert(ms[after(start, j, n)].disconnected);
                                }
                            } else if !gone {
                                assert(!ms[c as int].disconnected);
                            } else {
                                let j = choose|j: int|
                                    0 <= j < before.tried && !(#[trigger] ms[after(
                                        start,
                                        j,
                                        n,
                                    )]).disconnected;
                                lemma_after(start, j, n);
                            }
                        }
                    }
                    if self.search.sweep.tried == 0 {
                        return None;
                    }
                },
            }
        }
    }

    /// Pops without waiting, from the first shard with an item, beginning with the one that
    /// the last item came from, unless that one had its turn.
    pub fn try_recv(&mut self, sh: &mut Shared<T>) -> (r: Result<T, TryRecvError>)
        requires
            old(self).rests_on(old(sh)@),
            wf(old(sh)@),
        ensures
            final(self).rests_on(final(sh)@),
            wf(final(sh)@),
            r == outcome(old(self).search.sweep, old(sh)@),
            final(self).search.sweep == swept(old(self).search.sweep, old(sh)@),
            final(self).search.strategy == old(self).search.strategy,
            final(sh)@ == taken(old(self).search.sweep, old(sh)@),
    {
        self.search.start(false);
        let x = self.sweep_once(sh);
        match (self.search.finish_try(), x) {
            (Ok(()), Some(v)) => Ok(v),
            (Err(TryRecvError::Empty), _) => Err(TryRecvError::Empty),
            _ => Err(TryRecvError::Disconnected),
        }
    }

    /// What a run of a blocking operation does that finds the memories `ms`: it returns what
    /// a sweep returns, or waits as the strategy says.
    pub open spec fn recv_turn(
        self,
        ms: Seq<spsc::Memory<T>>,
        r: Turn<Result<T, RecvError>>,
        rx: Receiver<T>,
        ms2: Seq<spsc::Memory<T>>,
    ) -> bool {
        let sweep = self.search.sweep;
        &&& r == match outcome(sweep, ms) {
            Ok(v) => Turn::Done(Ok::<T, RecvError>(v)),
            Err(TryRecvError::Disconnected) => Turn::Done(Err::<T, RecvError>(RecvError)),
            Err(TryRecvError::Empty) => Turn::Wait(
                self.search.strategy.rung(self.search.idle),
            ),
        }
        &&& if outcome(sweep, ms) == Err::<T, TryRecvError>(TryRecvError::Empty) {
            rx.waits_on(ms2)
        } else {
            rx.rests_on(ms2)
        }
        &&& rx.search.sweep == swept(sweep, ms)
        &&& rx.search.strategy == self.search.strategy
        &&& rx.search.idle == self.search.idle
        &&& ms2 == taken(sweep, ms)
    }

    fn turn(&mut self, sh: &mut Shared<T>) -> (r: Turn<Result<T, RecvError>>)
        requires
            old(self).fits(old(sh)@),
            old(self).search.stage == SearchStage::Try,
            old(self).search.blocking,
            old(self).search.sweep.tried == 0,
            old(self).search.sweep.gone == 0,
            wf(old(sh)@),
        ensures
            old(self).recv_turn(old(sh)@, r, *final(self), final(sh)@),
            wf(final(sh)@),
    {
        let x = self.sweep_once(sh);
        match self.search.action() {
            SearchAction::Pause(rung) => Turn::Wait(rung),
            _ => match (self.search.finish(), x) {
                (Ok(()), Some(v)) => Turn::Done(Ok(v)),
                _ => Turn::Done(Err(RecvError)),
            },
        }
    }

    /// Pops, waiting while all shards are empty. Fails only when all senders are gone and all
    /// shards are drained. When it has to wait, it says how; [`Receiver::resume`] goes on
    /// after that.
    pub fn recv(&mut self, sh: &mut Shared<T>) -> (r: Turn<Result<T, RecvError>>)
        requires
            old(self).rests_on(old(sh)@),
            wf(old(sh)@),
        ensures
            (Receiver { search: old(self).search.started(true), ..*old(self) }).recv_turn(
                old(sh)@,
                r,
                *final(self),
                final(sh)@,
            ),
            wf(final(sh)@),
    {
        self.search.start(true);
        self.turn(sh)
    }

    /// Goes on with a blocking operation whose wait is over.
    pub fn resume(&mut self, sh: &mut Shared<T>) -> (r: Turn<Result<T, RecvError>>)
        requires
            old(self).waits_on(old(sh)@),
            wf(old(sh)@),
        ensures
            (Receiver { search: old(self).search.rested(), ..*old(self) }).recv_turn(
                old(sh)@,
                r,
                *final(self),
                final(sh)@,
            ),
            wf(final(sh)@),
    {
        self.search.rest();
        self.turn(sh)
    }

    /// Pops up to `max` items, one sweep after the other, and appends them to `out`. Returns
    /// how many there were: none when all shards are empty, with or without senders.
    pub fn drain(&mut self, sh: &mut Shared<T>, max: usize, out: &mut Vec<T>) -> (n: usize)
        requires
            old(self).rests_on(old(sh)@),
            wf(old(sh)@),
        ensures
            final(self).rests_on(final(sh)@),
            wf(final(sh)@),
            n == batch(old(self).search.sweep, old(sh)@, max as nat).len(),
            final(out)@ == old(out)@ + batch(old(self).search.sweep, old(sh)@, max as nat),
            final(self).search.sweep == batch_swept(
                old(self).search.sweep,
                old(sh)@,
                max as nat,
            ),
            final(self).search.strategy == old(self).search.strategy,
            final(sh)@ == batch_taken(old(self).search.sweep, old(sh)@, max as nat),
    {
        let ghost sweep = self.search.sweep;
        let ghost ms = sh@;
        let ghost all = batch(sweep, ms, max as nat);
        self.search.start_drain(max);
        proof {
            if max > 0 {
                lemma_begun(sweep, ms, max as nat);
            }
            assert(all =~= all.take(0) + batch(self.search.sweep, sh@, max as nat));
            assert(out@ =~= old(out)@ + all.take(0));
        }
        while self.is_draining()
            invariant
                sweep == old(self).search.sweep,
                ms == old(sh)@,
                all == batch(sweep, ms, max as nat),
                self.fits(sh@),
                wf(sh@),
                self.search.stage == SearchStage::DrainTry || self.search.stage
                    == SearchStage::Drained,
                self.search.sweep.tried == 0,
                self.search.sweep.gone == 0,
                self.search.strategy == old(self).search.strategy,
                self.search.max == max,
                self.search.count <= max,
                self.search.count <= all.len(),
                out@ == old(out)@ + all.take(self.search.count as int),
                self.search.stage == SearchStage::DrainTry ==> {
                    let left = (max - self.search.count) as nat;
                    &&& all == all.take(self.search.count as int) + batch(
                        self.search.sweep,
                        sh@,
                        left,
                    )
                    &&& batch_swept(sweep, ms, max as nat) == batch_swept(
                        self.search.sweep,
                        sh@,
                        left,
                    )
                    &&& batch_taken(sweep, ms, max as nat) == batch_taken(
                        self.search.sweep,
                        sh@,
                        left,
                    )
                },
                self.search.stage == SearchStage::Drained ==> {
                    &&& all.len() == self.search.count
                    &&& batch_swept(sweep, ms, max as nat) == self.search.sweep
                    &&& batch_taken(sweep, ms, max as nat) == sh@
                },
            ensures
                self.search.stage == SearchStage::Drained,
            decreases
                    max - self.search.count,
                    (if self.search.stage == SearchStage::DrainTry {
                        1int
                    } else {
                        0
                    }),
        {
            let ghost count = self.search.count as int;
            let ghost left = (max - count) as nat;
            let ghost rest = batch(self.search.sweep, sh@, left);
            let ghost next = swept(self.search.sweep, sh@);
            proof {
                lemma_swept(self.search.sweep, sh@);
            }
            match self.sweep_once(sh) {
                Some(v) => {
                    out.push(v);
                    proof {
                        if left > 1 {
                            lemma_begun(next, sh@, (left - 1) as nat);
                        } else {
                            assert(batch(next, sh@, 0) == Seq::<T>::empty());
                            assert(batch_swept(next, sh@, 0) == next);
                            assert(batch_taken(next, sh@, 0) == sh@);
                        }
                        assert(rest == seq![v] + batch(next, sh@, (left - 1) as nat));
                        assert(all[count] == v);
                        assert(all.take(count + 1) =~= all.take(count).push(v));
                        assert(all =~= all.take(count + 1) + batch(
                            next,
                            sh@,
                            (left - 1) as nat,
                        ));
                    }
                },
                None => {
                    proof {
                        assert(rest =~= Seq::<T>::empty());
                    }
                },
            }
        }
        proof {
            assert(all.take(all.len() as int) =~= all);
        }
        self.search.finish_drain()
    }

    fn is_draining(&self) -> (yes: bool)
        ensures
            yes == (self.search.stage == SearchStage::DrainTry),
    {
        match self.search.stage {
            SearchStage::DrainTry => true,
            _ => false,
        }
    }

    /// Drops the handle: every sender learns that nobody takes its items.
    pub fn drop(self, sh: &mut Shared<T>)
        requires
            self.rests_on(old(sh)@),
            wf(old(sh)@),
        ensures
            final(sh)@ == Seq::new(old(sh)@.len(), |i: int| old(sh)@[i].closed()),
            wf(final(sh)@),
            contents(final(sh)@) == contents(old(sh)@),
    {
        let mut shards = self.shards;
        let ghost ms = sh@;
        while shards.len() > 0
            invariant
                wf(ms),
                ms == old(sh)@,
                sh@.len() == ms.len(),
                shards@.len() <= ms.len(),
                forall|i: int|
                    0 <= i < shards@.len() ==> (#[trigger] shards@[i]).rests_on(ms[i]),
                forall|i: int| 0 <= i < shards@.len() ==> (#[trigger] sh@[i]) == ms[i],
                forall|i: int|
                    shards@.len() <= i < ms.len() ==> {
                        &&& (#[trigger] sh@[i]) == ms[i].closed()
                        &&& sh@[i].wf()
                        &&& sh@[i].contents() == ms[i].contents()
                    },
            decreases shards@.len(),
        {
            let ghost before = sh@;
            let i = shards.len() - 1;
            let rx = shards.pop().unwrap();
            assert(rx.rests_on(ms[i as int]));
            assert(before[i as int] == sh.shards@[i as int]@);
            rx.drop(&mut sh.shards[i]);
            assert(sh@ =~= before.update(i as int, ms[i as int].closed()));
        }
        proof {
            assert(sh@ =~= Seq::new(ms.len(), |i: int| ms[i].closed()));
            assert(contents(sh@) =~= contents(ms));
        }
    }
}

/// The items of a batch of up to `max`.
pub open spec fn batch<T>(sweep: Sweep, ms: Seq<spsc::Memory<T>>, max: nat) -> Seq<T>
    decreases max,
{
    if max == 0 {
        Seq::empty()
    } else {
        match outcome(sweep, ms) {
            Ok(v) => seq![v] + batch(swept(sweep, ms), taken(sweep, ms), (max - 1) as nat),
            Err(_) => Seq::empty(),
        }
    }
}

/// Where a batch leaves the round.
pub open spec fn batch_swept<T>(sweep: Sweep, ms: Seq<spsc::Memory<T>>, max: nat) -> Sweep
    decreases max,
{
    if max == 0 {
        sweep
    } else if outcome(sweep, ms) is Ok {
        batch_swept(swept(sweep, ms), taken(sweep, ms), (max - 1) as nat)
    } else {
        swept(sweep, ms)
    }
}

/// The memories after a batch.
pub open spec fn batch_taken<T>(sweep: Sweep, ms: Seq<spsc::Memory<T>>, max: nat) -> Seq<
    spsc::Memory<T>,
>
    decreases max,
{
    if max == 0 {
        ms
    } else if outcome(sweep, ms) is Ok {
        batch_taken(swept(sweep, ms), taken(sweep, ms), (max - 1) as nat)
    } else {
        ms
    }
}

/// Whether a sweep has begun or not makes no difference to what it finds.
proof fn lemma_begun<T>(sweep: Sweep, ms: Seq<spsc::Memory<T>>, max: nat)
    requires
        sweep.wf(),
        max > 0,
    ensures
        batch(sweep.begun(), ms, max) == batch(sweep, ms, max),
        batch_swept(sweep.begun(), ms, max) == batch_swept(sweep, ms, max),
        batch_taken(sweep.begun(), ms, max) == batch_taken(sweep, ms, max),
{
    assert(sweep.begun().begun() == sweep.begun());
}

/// Makes a ring of `n_shards` shards with `total_cap` slots in all: its memory, a producer
/// handle for each shard, and the consumer handle. [`split`] tells which arguments are fit.
pub fn channel<T>(n_shards: usize, total_cap: usize, strategy: WaitStrategy) -> (ends: (
    Shared<T>,
    Vec<Sender<T>>,
    Receiver<T>,
))
    requires
        splits(n_shards, total_cap, strategy) is Ok,
    ensures
        ends.0@ == Seq::new(
            n_shards as nat,
            |i: int|
                spsc::empty_memory::<T>(splits(n_shards, total_cap, strategy)->Ok_0, strategy),
        ),
        wf(ends.0@),
        ends.0@.len() == n_shards,
        forall|i: int|
            0 <= i < n_shards ==> {
                &&& (#[trigger] ends.0@[i]).cap * n_shards == total_cap
                &&& ends.0@[i].strategy == strategy
                &&& !ends.0@[i].disconnected
            },
        contents(ends.0@) == Seq::new(n_shards as nat, |i: int| Seq::<T>::empty()),
        ends.1@.len() == n_shards,
        forall|i: int|
            0 <= i < n_shards ==> (#[trigger] ends.1@[i]).shard == i && ends.1@[i].rests_on(
                ends.0@,
            ),
        ends.2.rests_on(ends.0@),
        ends.2.search.strategy == strategy,
        ends.2.search.sweep.cursor == 0,
        ends.2.search.sweep.budget == 0,
{
    proof {
        lemma_split(n_shards, total_cap);
    }
    let cap = total_cap / n_shards;
    let mut senders: Vec<Sender<T>> = Vec::with_capacity(n_shards);
    let mut shards: Vec<spsc::Receiver<T>> = Vec::with_capacity(n_shards);
    let mut mem: Vec<spsc::Shared<T>> = Vec::with_capacity(n_shards);
    let mut i: usize = 0;
    while i < n_shards
        invariant
            crate::index::is_cap(cap as int),
            i <= n_shards,
            senders@.len() == i,
            shards@.len() == i,
            mem@.len() == i,
            forall|j: int|
                0 <= j < i ==> {
                    &&& (#[trigger] mem@[j])@ == spsc::empty_memory::<T>(cap, strategy)
                    &&& mem@[j]@.wf()
                    &&& mem@[j]@.contents() == Seq::<T>::empty()
                },
            forall|j: int|
                0 <= j < i ==> (#[trigger] senders@[j]).shard == j && senders@[j].inner.rests_on(
                    mem@[j]@,
                ),
            forall|j: int| 0 <= j < i ==> (#[trigger] shards@[j]).rests_on(mem@[j]@),
        decreases n_shards - i,
    {
        let (sh, tx, rx) = spsc::channel::<T>(cap, strategy);
        mem.push(sh);
        senders.push(Sender { inner: tx, shard: i });
        shards.push(rx);
        i = i + 1;
    }
    let shared = Shared { shards: mem };
    let rx = Receiver { shards, search: Search::new(n_shards, strategy) };
    proof {
        assert forall|j: int| 0 <= j < n_shards implies (#[trigger] shared@[j]).wf()
            && shared@[j].strategy != WaitStrategy::Park by {
            assert(shared@[j] == mem@[j]@);
        }
        assert(shared@ =~= Seq::new(
            n_shards as nat,
            |i: int|
                spsc::empty_memory::<T>(splits(n_shards, total_cap, strategy)->Ok_0, strategy),
        )) by {
            assert forall|j: int| 0 <= j < n_shards implies shared@[j] == spsc::empty_memory::<T>(
                cap,
                strategy,
            ) by {
                assert(shared@[j] == mem@[j]@);
            }
        }
        assert(contents(shared@) =~= Seq::new(n_shards as nat, |i: int| Seq::<T>::empty())) by {
            assert forall|j: int| 0 <= j < n_shards implies contents(shared@)[j] == Seq::<
                T,
            >::empty() by {
                assert(shared@[j] == mem@[j]@);
            }
        }
        assert forall|j: int| 0 <= j < n_shards implies (#[trigger] rx.shards@[j]).rests_on(
            shared@[j],
        ) by {
            assert(shared@[j] == mem@[j]@);
        }
        assert forall|j: int| 0 <= j < n_shards implies (#[trigger] senders@[j]).shard == j
            && senders@[j].rests_on(shared@) by {
            assert(shared@[j] == mem@[j]@);
        }
    }
    (shared, senders, rx)
}

/// A part of a round leads away.
proof fn lemma_away(start: int, k: int, n: int)
    requires
        0 <= start < n,
        0 < k < n,
    ensures
        after(start, k, n) != start,
{
    if start + k < n {
        vstd::arithmetic::div_mod::lemma_small_mod((start + k) as nat, n as nat);
    } else {
        vstd::arithmetic::div_mod::lemma_mod_sub_multiples_vanish(start + k, n);
        vstd::arithmetic::div_mod::lemma_small_mod((start + k - n) as nat, n as nat);
    }
}

// ---------------------------------------------------------------------------
// Laws
// ---------------------------------------------------------------------------

/// What the place of the first shard with an item tells of the shards.
proof fn lemma_hit<T>(ms: Seq<spsc::Memory<T>>, start: int, k: int)
    requires
        0 <= k <= ms.len(),
    ensures
        k <= hit(ms, start, k) <= ms.len(),
        hit(ms, start, k) < ms.len() ==> ms[after(
            start,
            hit(ms, start, k),
            ms.len() as int,
        )].contents().len() > 0,
        forall|j: int|
            k <= j < hit(ms, start, k) ==> (#[trigger] ms[after(
                start,
                j,
                ms.len() as int,
            )]).contents().len() == 0,
    decreases ms.len() - k,
{
    if k < ms.len() && ms[after(start, k, ms.len() as int)].contents().len() == 0 {
        lemma_hit(ms, start, k + 1);
    }
}

/// A sweep fits the shards, between two operations.
pub open spec fn fits<T>(sweep: Sweep, ms: Seq<spsc::Memory<T>>) -> bool {
    &&& sweep.wf()
    &&& sweep.shards == ms.len()
    &&& sweep.tried == 0
    &&& sweep.gone == 0
}

/// What a sweep leaves.
proof fn lemma_swept<T>(sweep: Sweep, ms: Seq<spsc::Memory<T>>)
    requires
        wf(ms),
        fits(sweep, ms),
    ensures
        wf(taken(sweep, ms)),
        fits(swept(sweep, ms), taken(sweep, ms)),
        sweep.begun().cursor < ms.len(),
        sweep.begun().budget < VISIT_BUDGET,
        source(sweep, ms) is Some ==> {
            let i = source(sweep, ms)->0;
            &&& 0 <= i < ms.len()
            &&& ms[i].contents().len() > 0
            &&& taken(sweep, ms)[i].contents() == ms[i].contents().drop_first()
        },
        source(sweep, ms) is None ==> forall|i: int|
            0 <= i < ms.len() ==> (#[trigger] ms[i]).contents().len() == 0,
{
    let n = ms.len() as int;
    lemma_next(sweep.cursor as int, n);
    let start = sweep.begun().cursor as int;
    let k = hit(ms, start, 0);
    lemma_hit(ms, start, 0);
    if k < n {
        lemma_after(start, k, n);
        spsc::lemma_popped(ms[after(start, k, n)]);
    } else {
        assert forall|i: int| 0 <= i < n implies (#[trigger] ms[i]).contents().len() == 0 by {
            lemma_distance(start, i, n);
            assert(ms[after(start, distance(start, i, n), n)].contents().len() == 0);
        }
    }
}

/// An item comes out if any shard has one; `Disconnected` is reported only when every shard
/// is drained and has no sender any more, and `Empty` while any could still deliver.
pub proof fn law_disconnected_requires_every_shard<T>(sweep: Sweep, ms: Seq<spsc::Memory<T>>)
    requires
        wf(ms),
        fits(sweep, ms),
    ensures
        outcome(sweep, ms) is Ok <==> exists|i: int|
            0 <= i < ms.len() && (#[trigger] ms[i]).contents().len() > 0,
        outcome(sweep, ms) == Err::<T, TryRecvError>(TryRecvError::Disconnected) <==> forall|i: int|
            0 <= i < ms.len() ==> (#[trigger] ms[i]).disconnected && ms[i].contents().len() == 0,
{
    lemma_swept(sweep, ms);
}

/// A sweep takes the oldest item of one shard and leaves the other shards as they are.
pub proof fn law_sweep_takes_the_oldest_of_one_shard<T>(sweep: Sweep, ms: Seq<spsc::Memory<T>>)
    requires
        wf(ms),
        fits(sweep, ms),
        outcome(sweep, ms) is Ok,
    ensures
        ({
            let i = source(sweep, ms)->0;
            &&& 0 <= i < ms.len()
            &&& contents(ms)[i] == seq![outcome(sweep, ms)->Ok_0] + contents(
                taken(sweep, ms),
            )[i]
            &&& forall|j: int|
                0 <= j < ms.len() && j != i ==> (#[trigger] taken(sweep, ms)[j]) == ms[j]
        }),
{
    lemma_swept(sweep, ms);
    let i = source(sweep, ms)->0;
    assert(contents(ms)[i] =~= seq![outcome(sweep, ms)->Ok_0] + contents(taken(sweep, ms))[i]);
}

/// The items of a batch of up to `max` that come from shard `i`.
pub open spec fn batch_from<T>(sweep: Sweep, ms: Seq<spsc::Memory<T>>, max: nat, i: int) -> Seq<T>
    decreases max,
{
    if max == 0 || !(outcome(sweep, ms) is Ok) {
        Seq::empty()
    } else {
        let rest = batch_from(swept(sweep, ms), taken(sweep, ms), (max - 1) as nat, i);
        if source(sweep, ms) == Some(i) {
            seq![outcome(sweep, ms)->Ok_0] + rest
        } else {
            rest
        }
    }
}

/// The items of one producer come out in the order in which they went in, none skipped and
/// none twice: what a batch has from a shard is the oldest part of the shard's contents, and
/// the rest stays.
pub proof fn law_each_producers_items_come_in_order<T>(
    sweep: Sweep,
    ms: Seq<spsc::Memory<T>>,
    max: nat,
    i: int,
)
    requires
        wf(ms),
        fits(sweep, ms),
        0 <= i < ms.len(),
    ensures
        contents(ms)[i] == batch_from(sweep, ms, max, i) + contents(
            batch_taken(sweep, ms, max),
        )[i],
        batch_taken(sweep, ms, max).len() == ms.len(),
    decreases max,
{
    lemma_swept(sweep, ms);
    let ms2 = taken(sweep, ms);
    if max > 0 && outcome(sweep, ms) is Ok {
        law_each_producers_items_come_in_order(swept(sweep, ms), ms2, (max - 1) as nat, i);
        law_sweep_takes_the_oldest_of_one_shard(sweep, ms);
        if source(sweep, ms) != Some(i) {
            assert(ms2[i] == ms[i]);
        }
    }
    assert(contents(ms)[i] =~= batch_from(sweep, ms, max, i) + contents(
        batch_taken(sweep, ms, max),
    )[i]);
}

/// How many items are in the shards.
pub open spec fn total<T>(ms: Seq<spsc::Memory<T>>) -> nat
    decreases ms.len(),
{
    if ms.len() == 0 {
        0
    } else {
        total(ms.drop_last()) + ms.last().contents().len()
    }
}

/// An item less in one shard is one less in all.
proof fn lemma_total<T>(ms: Seq<spsc::Memory<T>>, i: int, m: spsc::Memory<T>)
    requires
        0 <= i < ms.len(),
        m.contents().len() + 1 == ms[i].contents().len(),
    ensures
        total(ms.update(i, m)) + 1 == total(ms),
    decreases ms.len(),
{
    let ms2 = ms.update(i, m);
    if i == ms.len() - 1 {
        assert(ms2.drop_last() =~= ms.drop_last());
    } else {
        lemma_total(ms.drop_last(), i, m);
        assert(ms2.drop_last() =~= ms.drop_last().update(i, m));
    }
}

/// No items in any shard are none in all.
proof fn lemma_total_zero<T>(ms: Seq<spsc::Memory<T>>)
    requires
        forall|i: int| 0 <= i < ms.len() ==> (#[trigger] ms[i]).contents().len() == 0,
    ensures
        total(ms) == 0,
    decreases ms.len(),
{
    if ms.len() > 0 {
        assert(ms.last() == ms[ms.len() - 1]);
        assert forall|i: int| 0 <= i < ms.drop_last().len() implies (
        #[trigger] ms.drop_last()[i]).contents().len() == 0 by {
            assert(ms.drop_last()[i] == ms[i]);
        }
        lemma_total_zero(ms.drop_last());
    }
}

/// A batch takes as many items as it may and as there are.
pub proof fn law_batch_takes_all_it_may<T>(sweep: Sweep, ms: Seq<spsc::Memory<T>>, max: nat)
    requires
        wf(ms),
        fits(sweep, ms),
    ensures
        batch(sweep, ms, max).len() == if max < total(ms) {
            max
        } else {
            total(ms)
        },
        total(batch_taken(sweep, ms, max)) + batch(sweep, ms, max).len() == total(ms),
    decreases max,
{
    lemma_swept(sweep, ms);
    if max > 0 {
        if outcome(sweep, ms) is Ok {
            let i = source(sweep, ms)->0;
            lemma_total(ms, i, ms[i].popped());
            law_batch_takes_all_it_may(
                swept(sweep, ms),
                taken(sweep, ms),
                (max - 1) as nat,
            );
        } else {
            lemma_total_zero(ms);
        }
    }
}

/// How many items can come from other shards at most before shard `i` gets its turn.
pub open spec fn wait(sweep: Sweep, i: int) -> int {
    distance(sweep.begun().cursor as int, i, sweep.shards as int) * VISIT_BUDGET
        - sweep.begun().budget
}

/// The distance of a shard is how far one has to go to it.
proof fn lemma_distance_of(start: int, k: int, n: int)
    requires
        0 <= start < n,
        0 <= k < n,
    ensures
        distance(start, after(start, k, n), n) == k,
{
    lemma_after(start, k, n);
    if start + k < n {
        vstd::arithmetic::div_mod::lemma_small_mod((start + k) as nat, n as nat);
        vstd::arithmetic::div_mod::lemma_small_mod(k as nat, n as nat);
    } else {
        vstd::arithmetic::div_mod::lemma_mod_sub_multiples_vanish(start + k, n);
        vstd::arithmetic::div_mod::lemma_small_mod((start + k - n) as nat, n as nat);
        vstd::arithmetic::div_mod::lemma_mod_add_multiples_vanish(k - n, n);
        vstd::arithmetic::div_mod::lemma_small_mod(k as nat, n as nat);
    }
}

/// A shard that is passed on the way is nearer by the way.
proof fn lemma_nearer(start: int, k: int, i: int, n: int)
    requires
        0 <= start < n,
        0 <= i < n,
        0 <= k <= distance(start, i, n),
    ensures
        distance(after(start, k, n), i, n) == distance(start, i, n) - k,
{
    let d = distance(start, i, n);
    lemma_distance(start, i, n);
    lemma_after(start, k, n);
    let s2 = after(start, k, n);
    assert(after(s2, d - k, n) == i) by {
        vstd::arithmetic::div_mod::lemma_add_mod_noop(start + k, d - k, n);
        vstd::arithmetic::div_mod::lemma_add_mod_noop((start + k) % n, d - k, n);
        vstd::arithmetic::div_mod::lemma_mod_twice(start + k, n);
    }
    lemma_distance_of(s2, d - k, n);
}

/// No producer starves: as long as its shard has an item, every item that comes from another
/// shard brings its turn nearer, so that at most `VISIT_BUDGET` items of each other shard
/// come before its own.
pub proof fn law_no_producer_starves<T>(sweep: Sweep, ms: Seq<spsc::Memory<T>>, i: int)
    requires
        wf(ms),
        fits(sweep, ms),
        0 <= i < ms.len(),
        ms[i].contents().len() > 0,
    ensures
        source(sweep, ms) is Some,
        source(sweep, ms) != Some(i) ==> wait(swept(sweep, ms), i) < wait(sweep, i),
        wait(sweep, i) <= (ms.len() - 1) * VISIT_BUDGET,
        wait(sweep, i) <= 0 ==> source(sweep, ms) == Some(i),
{
    let n = ms.len() as int;
    lemma_swept(sweep, ms);
    let begun = sweep.begun();
    let start = begun.cursor as int;
    let d = distance(start, i, n);
    lemma_distance(start, i, n);
    lemma_hit(ms, start, 0);
    let k = hit(ms, start, 0);
    assert(k <= d);
    assert(after(start, 0, n) == start) by {
        lemma_after(start, 0, n);
    }
    if k < d {
        let next = swept(sweep, ms);
        let from = after(start, k, n);
        lemma_after(start, k, n);
        lemma_nearer(start, k, i, n);
        if k > 0 {
            lemma_away(start, k, n);
        }
        if next.budget >= VISIT_BUDGET {
            lemma_next(from, n);
            lemma_after(start, k + 1, n);
            lemma_nearer(start, k + 1, i, n);
        }
    }
}

/// The beginning of a sweep takes no turn away, and no turn is further than a whole round.
proof fn lemma_wait_begun(sweep: Sweep, i: int)
    requires
        sweep.cursor < sweep.shards,
        0 <= i < sweep.shards,
    ensures
        wait(sweep.begun(), i) == wait(sweep, i),
        wait(sweep, i) <= (sweep.shards - 1) * VISIT_BUDGET,
{
    lemma_next(sweep.cursor as int, sweep.shards as int);
    lemma_distance(sweep.begun().cursor as int, i, sweep.shards as int);
}

/// Every other shard is at a distance.
proof fn lemma_apart(start: int, i: int, n: int)
    requires
        0 <= start < n,
        0 <= i < n,
        start != i,
    ensures
        0 < distance(start, i, n) < n,
        distance(after(start, 1, n), i, n) == distance(start, i, n) - 1,
{
    lemma_distance(start, i, n);
    lemma_after(start, 0, n);
    lemma_nearer(start, 1, i, n);
}

/// An item of another shard, and another shard without one, bring the turn of shard `i` nearer.
proof fn lemma_wait_moves(sweep: Sweep, i: int)
    requires
        sweep.cursor < sweep.shards,
        sweep.budget < VISIT_BUDGET,
        0 <= i < sweep.shards,
        sweep.cursor != i,
    ensures
        0 < wait(sweep, i),
        wait(sweep.delivered(), i) == wait(sweep, i) - 1,
        wait(sweep.moved(), i) <= wait(sweep, i),
{
    lemma_next(sweep.cursor as int, sweep.shards as int);
    lemma_apart(sweep.cursor as int, i, sweep.shards as int);
}

/// A receive: where the round stands before it, and what is in the shards.
pub struct Round<T> {
    pub sweep: Sweep,
    pub ms: Seq<spsc::Memory<T>>,
}

impl<T> Round<T> {
    /// The shard that the receive takes an item from.
    pub open spec fn source(self) -> Option<int> {
        source(self.sweep, self.ms)
    }

    /// What the receive returns.
    pub open spec fn outcome(self) -> Result<T, TryRecvError> {
        outcome(self.sweep, self.ms)
    }

    /// The shards are sound, and the round is one over them.
    pub open spec fn sound(self) -> bool {
        &&& wf(self.ms)
        &&& fits(self.sweep, self.ms)
    }
}

/// What the producers may do between two receives: put items in, as many as there is room for,
/// and be dropped.
pub open spec fn grown<T>(ms: Seq<spsc::Memory<T>>, ms2: Seq<spsc::Memory<T>>) -> bool {
    &&& wf(ms2)
    &&& ms2.len() == ms.len()
    &&& forall|i: int|
        0 <= i < ms.len() ==> (#[trigger] ms[i]).contents().is_prefix_of(ms2[i].contents())
}

/// Receives one after the other, between which the producers go on.
pub open spec fn in_a_row<T>(rounds: Seq<Round<T>>) -> bool {
    &&& rounds.len() > 0
    &&& rounds[0].sound()
    &&& forall|k: int|
        0 < k < rounds.len() ==> {
            let last = rounds[k - 1];
            &&& (#[trigger] rounds[k]).sweep == swept(last.sweep, last.ms)
            &&& grown(taken(last.sweep, last.ms), rounds[k].ms)
        }
}

/// Every receive in a row is over the same shards, and sound.
proof fn lemma_in_a_row<T>(rounds: Seq<Round<T>>, k: int)
    requires
        in_a_row(rounds),
        0 <= k < rounds.len(),
    ensures
        rounds[k].sound(),
        rounds[k].ms.len() == rounds[0].ms.len(),
    decreases k,
{
    if k > 0 {
        let last = rounds[k - 1];
        lemma_in_a_row(rounds, k - 1);
        lemma_swept(last.sweep, last.ms);
        assert(rounds[k].sweep == swept(last.sweep, last.ms));
    }
}

/// Before its turn a shard with an item still has one, and its turn is nearer by one for every
/// receive.
proof fn lemma_turn_comes<T>(rounds: Seq<Round<T>>, i: int, k: int)
    requires
        in_a_row(rounds),
        0 <= i < rounds[0].ms.len(),
        rounds[0].ms[i].contents().len() > 0,
        0 <= k < rounds.len(),
        forall|j: int| 0 <= j < k ==> (#[trigger] rounds[j]).source() != Some(i),
    ensures
        rounds[k].ms[i].contents().len() > 0,
        wait(rounds[k].sweep, i) <= wait(rounds[0].sweep, i) - k,
        forall|j: int| 0 <= j < k ==> (#[trigger] rounds[j]).outcome() is Ok,
    decreases k,
{
    lemma_in_a_row(rounds, k);
    if k > 0 {
        let last = rounds[k - 1];
        lemma_turn_comes(rounds, i, k - 1);
        lemma_in_a_row(rounds, k - 1);
        law_no_producer_starves(last.sweep, last.ms, i);
        assert(rounds[k].sweep == swept(last.sweep, last.ms));
        assert(last.source() != Some(i));
        let ms = taken(last.sweep, last.ms);
        assert(ms[i] == last.ms[i]);
        assert(ms[i].contents().is_prefix_of(rounds[k].ms[i].contents()));
    }
}

/// No producer starves, however the others go on: while its shard has an item, one of the next
/// `VISIT_BUDGET` receives for each other shard and one more takes from its shard, and each
/// before that returns an item too.
pub proof fn law_every_producer_has_its_turn<T>(rounds: Seq<Round<T>>, i: int)
    requires
        in_a_row(rounds),
        0 <= i < rounds[0].ms.len(),
        rounds[0].ms[i].contents().len() > 0,
        rounds.len() > (rounds[0].ms.len() - 1) * VISIT_BUDGET,
    ensures
        exists|k: int|
            {
                &&& 0 <= k <= (rounds[0].ms.len() - 1) * VISIT_BUDGET
                &&& (#[trigger] rounds[k]).source() == Some(i)
                &&& forall|j: int| 0 <= j <= k ==> (#[trigger] rounds[j]).outcome() is Ok
            },
{
    let k = lemma_has_its_turn(rounds, i);
    lemma_turn_comes(rounds, i, k);
    assert(rounds[k].outcome() is Ok);
    assert(forall|j: int| 0 <= j <= k ==> (#[trigger] rounds[j]).outcome() is Ok);
}

/// The receive at which shard `i` has its turn.
proof fn lemma_has_its_turn<T>(rounds: Seq<Round<T>>, i: int) -> (k: int)
    requires
        in_a_row(rounds),
        0 <= i < rounds[0].ms.len(),
        rounds[0].ms[i].contents().len() > 0,
        rounds.len() > (rounds[0].ms.len() - 1) * VISIT_BUDGET,
    ensures
        0 <= k <= (rounds[0].ms.len() - 1) * VISIT_BUDGET,
        rounds[k].source() == Some(i),
        forall|j: int| 0 <= j < k ==> (#[trigger] rounds[j]).source() != Some(i),
{
    let first = rounds[0];
    lemma_wait_begun(first.sweep, i);
    let wait = wait(first.sweep, i);
    let bound = if wait > 0 {
        wait
    } else {
        0
    };
    if exists|j: int| 0 <= j < bound && (#[trigger] rounds[j]).source() == Some(i) {
        lemma_first_turn(rounds, i, bound)
    } else {
        let last = rounds[bound];
        lemma_turn_comes(rounds, i, bound);
        lemma_in_a_row(rounds, bound);
        law_no_producer_starves(last.sweep, last.ms, i);
        bound
    }
}

/// The first of the receives that takes from shard `i`.
proof fn lemma_first_turn<T>(rounds: Seq<Round<T>>, i: int, end: int) -> (k: int)
    requires
        exists|j: int| 0 <= j < end && (#[trigger] rounds[j]).source() == Some(i),
    ensures
        0 <= k < end,
        rounds[k].source() == Some(i),
        forall|j: int| 0 <= j < k ==> (#[trigger] rounds[j]).source() != Some(i),
    decreases end,
{
    let j = choose|j: int| 0 <= j < end && (#[trigger] rounds[j]).source() == Some(i);
    if exists|l: int| 0 <= l < j && (#[trigger] rounds[l]).source() == Some(i) {
        lemma_first_turn(rounds, i, j)
    } else {
        j
    }
}

/// No shard but `i` has an item.
pub open spec fn others_empty<T>(ms: Seq<spsc::Memory<T>>, i: int) -> bool {
    forall|j: int| 0 <= j < ms.len() && j != i ==> (#[trigger] ms[j]).contents().len() == 0
}

/// A shard that was left, because it had its turn, is the source only if no other shard has an
/// item; one that was not is taken from at once.
proof fn lemma_same_again<T>(sweep: Sweep, ms: Seq<spsc::Memory<T>>)
    requires
        wf(ms),
        fits(sweep, ms),
        source(sweep, ms) == Some(sweep.cursor as int),
    ensures
        sweep.budget < VISIT_BUDGET ==> swept(sweep, ms).budget == sweep.budget + 1,
        sweep.budget >= VISIT_BUDGET ==> others_empty(ms, sweep.cursor as int),
{
    let n = ms.len() as int;
    let i = sweep.cursor as int;
    lemma_swept(sweep, ms);
    if sweep.budget >= VISIT_BUDGET {
        let start = sweep.begun().cursor as int;
        lemma_hit(ms, start, 0);
        assert forall|j: int| 0 <= j < n && j != i implies (
        #[trigger] ms[j]).contents().len() == 0 by {
            lemma_after(i, 0, n);
            lemma_distance(start, i, n);
            lemma_distance(start, j, n);
            lemma_distance_of(start, hit(ms, start, 0), n);
            lemma_last_place(i, n);
            assert(ms[after(start, distance(start, j, n), n)].contents().len() == 0);
        }
    }
}

/// Seen from the next shard, a shard is the last.
proof fn lemma_last_place(i: int, n: int)
    requires
        0 <= i < n,
    ensures
        distance(after(i, 1, n), i, n) == n - 1,
{
    let start = after(i, 1, n);
    lemma_after(i, 1, n);
    lemma_round(i, n);
    assert(after(start, n - 1, n) == i) by {
        vstd::arithmetic::div_mod::lemma_add_mod_noop(i + 1, n - 1, n);
        vstd::arithmetic::div_mod::lemma_add_mod_noop((i + 1) % n, n - 1, n);
        vstd::arithmetic::div_mod::lemma_mod_twice(i + 1, n);
    }
    lemma_distance_of(start, n - 1, n);
}

/// More than `VISIT_BUDGET` items in a row come from one shard only if the others were found
/// empty in between.
pub proof fn law_a_turn_ends_unless_the_others_are_empty<T>(rounds: Seq<Round<T>>, i: int)
    requires
        in_a_row(rounds),
        rounds.len() > VISIT_BUDGET,
        forall|k: int|
            0 <= k <= VISIT_BUDGET ==> (#[trigger] rounds[k]).source() == Some(i),
    ensures
        exists|k: int| 0 < k <= VISIT_BUDGET && others_empty((#[trigger] rounds[k]).ms, i),
{
    if forall|k: int| 0 < k <= VISIT_BUDGET ==> !others_empty((#[trigger] rounds[k]).ms, i) {
        lemma_turn_goes_on(rounds, i, VISIT_BUDGET as int);
        lemma_in_a_row(rounds, VISIT_BUDGET as int);
        let last = rounds[VISIT_BUDGET as int];
        assert(last.source() == Some(i));
        lemma_same_again(last.sweep, last.ms);
    }
}

/// While shard `i` is not left, its items in a row are counted.
proof fn lemma_turn_goes_on<T>(rounds: Seq<Round<T>>, i: int, k: int)
    requires
        in_a_row(rounds),
        0 < k < rounds.len(),
        forall|j: int| 0 <= j < k ==> (#[trigger] rounds[j]).source() == Some(i),
        forall|j: int| 0 < j < k ==> !others_empty((#[trigger] rounds[j]).ms, i),
    ensures
        rounds[k].sweep.cursor == i,
        rounds[k].sweep.budget >= k,
    decreases k,
{
    let last = rounds[k - 1];
    lemma_in_a_row(rounds, k - 1);
    lemma_swept(last.sweep, last.ms);
    assert(last.source() == Some(i));
    assert(rounds[k].sweep == swept(last.sweep, last.ms));
    if k > 1 {
        lemma_turn_goes_on(rounds, i, k - 1);
        lemma_same_again(last.sweep, last.ms);
    }
}

/// The consumer stays on a shard that has items until it has taken `VISIT_BUDGET` of them in a
/// row, and then begins with the next shard.
pub proof fn law_sweep_stays_for_its_budget<T>(sweep: Sweep, ms: Seq<spsc::Memory<T>>)
    requires
        wf(ms),
        fits(sweep, ms),
    ensures
        sweep.budget < VISIT_BUDGET && ms[sweep.cursor as int].contents().len() > 0 ==> source(
            sweep,
            ms,
        ) == Some(sweep.cursor as int) && swept(sweep, ms) == (Sweep {
            budget: (sweep.budget + 1) as usize,
            ..sweep
        }),
        sweep.budget == VISIT_BUDGET ==> sweep.begun().cursor == after(
            sweep.cursor as int,
            1,
            ms.len() as int,
        ),
{
    let n = ms.len() as int;
    lemma_next(sweep.cursor as int, n);
    lemma_after(sweep.cursor as int, 0, n);
}

impl Sweep {
    /// A number of shards on.
    pub open spec fn moved_by(self, k: nat) -> Sweep
        decreases k,
    {
        if k == 0 {
            self
        } else {
            self.moved_by((k - 1) as nat).moved()
        }
    }
}

/// Moving on leads to the next shard, from the last to the first, with a new budget and nothing
/// else changed; as many moves as there are shards lead back.
pub proof fn law_a_whole_round_leads_back(sweep: Sweep, k: nat)
    requires
        sweep.cursor < sweep.shards,
    ensures
        sweep.moved_by(k).cursor == after(sweep.cursor as int, k as int, sweep.shards as int),
        sweep.moved_by(k).cursor < sweep.shards,
        k > 0 ==> sweep.moved_by(k) == (Sweep {
            cursor: sweep.moved_by(k).cursor,
            budget: 0,
            ..sweep
        }),
        k == sweep.shards ==> sweep.moved_by(k) == (Sweep { budget: 0, ..sweep }),
    decreases k,
{
    let n = sweep.shards as int;
    lemma_after(sweep.cursor as int, 0, n);
    if k > 0 {
        law_a_whole_round_leads_back(sweep, (k - 1) as nat);
        lemma_after(sweep.cursor as int, k - 1, n);
        lemma_after(sweep.cursor as int, k as int, n);
        lemma_round(sweep.cursor as int, n);
    }
}

impl Sweep {
    /// The sweep after a number of misses.
    pub open spec fn misses(self, gone: Seq<bool>) -> Sweep
        decreases gone.len(),
    {
        if gone.len() == 0 {
            self
        } else {
            self.misses(gone.drop_last()).missed(gone.last())
        }
    }
}

/// A sweep without a hit tries every shard once, one after the other, and reports
/// `Disconnected` exactly if each of them had no sender any more.
pub proof fn law_sweep_tries_every_shard_once(sweep: Sweep, gone: Seq<bool>)
    requires
        sweep.wf(),
        sweep.tried == 0,
        sweep.gone == 0,
        0 < gone.len() <= sweep.shards,
    ensures
        ({
            let last = sweep.misses(gone.drop_last());
            &&& last.cursor == after(
                sweep.cursor as int,
                gone.len() - 1,
                sweep.shards as int,
            )
            &&& last.meaning(gone.last()) == if gone.len() < sweep.shards {
                Found::Next
            } else if forall|j: int| 0 <= j < gone.len() ==> #[trigger] gone[j] {
                Found::Disconnected
            } else {
                Found::Empty
            }
        }),
{
    lemma_misses(sweep, gone.drop_last());
    let before = gone.drop_last();
    assert(forall|j: int| 0 <= j < before.len() ==> before[j] == gone[j]);
    if forall|j: int| 0 <= j < gone.len() ==> #[trigger] gone[j] {
        assert(gone.last() == gone[gone.len() - 1]);
        assert(forall|j: int| 0 <= j < before.len() ==> #[trigger] before[j]);
    } else {
        let j = choose|j: int| 0 <= j < gone.len() && !(#[trigger] gone[j]);
        if j < before.len() {
            assert(!before[j]);
        }
    }
}

/// Where some misses lead, of a sweep that is not over.
proof fn lemma_misses(sweep: Sweep, gone: Seq<bool>)
    requires
        sweep.wf(),
        sweep.tried == 0,
        sweep.gone == 0,
        gone.len() < sweep.shards,
    ensures
        ({
            let s = sweep.misses(gone);
            &&& s.shards == sweep.shards
            &&& s.tried == gone.len()
            &&& s.gone <= s.tried
            &&& s.gone == s.tried <==> (forall|j: int|
                0 <= j < gone.len() ==> #[trigger] gone[j])
            &&& s.cursor == after(sweep.cursor as int, gone.len() as int, sweep.shards as int)
        }),
    decreases gone.len(),
{
    let n = sweep.shards as int;
    lemma_after(sweep.cursor as int, 0, n);
    if gone.len() > 0 {
        let before = gone.drop_last();
        lemma_misses(sweep, before);
        lemma_after(sweep.cursor as int, before.len() as int, n);
        lemma_after(sweep.cursor as int, gone.len() as int, n);
        assert(forall|j: int| 0 <= j < before.len() ==> before[j] == gone[j]);
        if forall|j: int| 0 <= j < gone.len() ==> #[trigger] gone[j] {
            assert(gone.last() == gone[gone.len() - 1]);
            assert(forall|j: int| 0 <= j < before.len() ==> #[trigger] before[j]);
        } else {
            let j = choose|j: int| 0 <= j < gone.len() && !(#[trigger] gone[j]);
            if j < before.len() {
                assert(!before[j]);
            }
        }
    }
}

} // verus!
