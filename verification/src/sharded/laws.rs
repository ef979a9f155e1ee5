//! What the parts of the ring are good for: how the capacity is split, which shards a search
//! asks for, and how it waits.

use vstd::prelude::*;

use crate::sharded::{Receiver, Search, SearchAction, SearchStage, SplitError};
use crate::spsc;
use crate::wait::{Turn, WaitStrategy};
use crate::{RecvError, TryRecvError};

verus! {

// ---------------------------------------------------------------------------
// The capacity
// ---------------------------------------------------------------------------

/// The capacity can be split exactly if there is a shard, the capacities of the shards add up to
/// it, each of them is a power of two, and no side is to sleep until woken; and each reason why
/// it cannot be is given when it is the first of these that fails.
pub proof fn law_shards_add_up_to_the_capacity(
    n_shards: usize,
    total_cap: usize,
    strategy: WaitStrategy,
    cap: usize,
)
    ensures
        crate::sharded::splits(n_shards, total_cap, strategy) == Ok::<usize, SplitError>(cap) <==> {
            &&& n_shards > 0
            &&& cap * n_shards == total_cap
            &&& exists|k: nat| #[trigger] vstd::arithmetic::power2::pow2(k) == cap
            &&& strategy != WaitStrategy::Park
        },
        crate::sharded::splits(n_shards, total_cap, strategy) == Err::<usize, SplitError>(
            SplitError::NoShards,
        ) <==> n_shards == 0,
        n_shards > 0 && cap * n_shards == total_cap ==> {
            &&& crate::sharded::splits(n_shards, total_cap, strategy) != Err::<usize, SplitError>(
                SplitError::Uneven,
            )
            &&& crate::sharded::splits(n_shards, total_cap, strategy) == Err::<usize, SplitError>(
                SplitError::Capacity,
            ) <==> !(exists|k: nat| #[trigger] vstd::arithmetic::power2::pow2(k) == cap)
        },
        crate::sharded::splits(n_shards, total_cap, strategy) == Err::<usize, SplitError>(
            SplitError::Uneven,
        ) ==> cap * n_shards != total_cap,
        crate::sharded::splits(n_shards, total_cap, strategy) == Err::<usize, SplitError>(
            SplitError::Park,
        ) ==> strategy == WaitStrategy::Park,
{
    crate::index::law_capacities_are_powers_of_two(cap as int);
    if n_shards > 0 {
        crate::sharded::lemma_split(n_shards, total_cap);
        if cap * n_shards == total_cap {
            vstd::arithmetic::div_mod::lemma_fundamental_div_mod_converse(
                total_cap as int,
                n_shards as int,
                cap as int,
                0,
            );
        }
    }
}

/// Where the capacity does not split evenly, no capacity of a shard would do, and where it does,
/// some number would.
pub proof fn law_uneven_means_that_nothing_adds_up(
    n_shards: usize,
    total_cap: usize,
    strategy: WaitStrategy,
)
    requires
        n_shards > 0,
    ensures
        crate::sharded::splits(n_shards, total_cap, strategy) == Err::<usize, SplitError>(
            SplitError::Uneven,
        ) <==> !(exists|cap: usize| #[trigger] (cap * n_shards) == total_cap),
{
    crate::sharded::lemma_split(n_shards, total_cap);
    if exists|cap: usize| #[trigger] (cap * n_shards) == total_cap {
        let cap = choose|cap: usize| #[trigger] (cap * n_shards) == total_cap;
        law_shards_add_up_to_the_capacity(n_shards, total_cap, strategy, cap);
    } else if total_cap % n_shards == 0 {
        let cap = (total_cap / n_shards) as usize;
        assert(cap * n_shards == total_cap);
    }
}

// ---------------------------------------------------------------------------
// The search
// ---------------------------------------------------------------------------

impl Search {
    /// The search after some shards had none.
    pub open spec fn after_misses(self, gone: Seq<bool>) -> Search
        decreases gone.len(),
    {
        if gone.len() == 0 {
            self
        } else {
            self.after_misses(gone.drop_last()).after_miss(gone.last())
        }
    }
}

/// A search asks for the shards one after the other, from the one at which it stands: after `k`
/// of its sweep had none, it asks for the one that is `k` places on, round from the last to the
/// first.
pub proof fn law_a_search_goes_from_shard_to_shard(search: Search, gone: Seq<bool>)
    requires
        search.wf(),
        search.asks() is Try,
        search.sweep.tried == 0,
        gone.len() < search.sweep.shards,
    ensures
        search.after_misses(gone).asks() == SearchAction::Try(
            ((search.sweep.cursor + gone.len()) % search.sweep.shards as int) as usize,
        ),
        search.after_misses(gone).sweep.tried == gone.len(),
{
    lemma_after_misses(search, gone);
    crate::sharded::lemma_misses(search.sweep, gone);
}

proof fn lemma_after_misses(search: Search, gone: Seq<bool>)
    requires
        search.wf(),
        search.asks() is Try,
        search.sweep.tried == 0,
        gone.len() < search.sweep.shards,
    ensures
        search.after_misses(gone) == (Search { sweep: search.sweep.misses(gone), ..search }),
    decreases gone.len(),
{
    if gone.len() > 0 {
        lemma_after_misses(search, gone.drop_last());
        crate::sharded::lemma_misses(search.sweep, gone.drop_last());
    }
}

/// Over a sweep without an item a search asks for every shard, and for each of them once.
pub proof fn law_a_search_asks_for_every_shard_once(search: Search, gone: Seq<bool>, i: usize)
    requires
        search.wf(),
        search.asks() is Try,
        search.sweep.tried == 0,
        gone.len() == search.sweep.shards,
        i < search.sweep.shards,
    ensures
        exists|k: int|
            0 <= k < gone.len() && (#[trigger] search.after_misses(gone.take(k))).asks()
                == SearchAction::Try(i),
        forall|k: int, l: int|
            0 <= k < l < gone.len() ==> (#[trigger] search.after_misses(gone.take(k))).asks() != (
            #[trigger] search.after_misses(gone.take(l))).asks(),
{
    let n = search.sweep.shards as int;
    let start = search.sweep.cursor as int;
    crate::sharded::lemma_distance(start, i as int, n);
    let d = crate::sharded::distance(start, i as int, n);
    law_a_search_goes_from_shard_to_shard(search, gone.take(d));
    assert(search.after_misses(gone.take(d)).asks() == SearchAction::Try(i));
    assert forall|k: int, l: int| 0 <= k < l < gone.len() implies (
    #[trigger] search.after_misses(gone.take(k))).asks() != (#[trigger] search.after_misses(
        gone.take(l),
    )).asks() by {
        law_a_search_goes_from_shard_to_shard(search, gone.take(k));
        law_a_search_goes_from_shard_to_shard(search, gone.take(l));
        crate::sharded::lemma_after(start, k, n);
        crate::sharded::lemma_after(start, l, n);
        crate::sharded::lemma_distance_of(start, k, n);
        crate::sharded::lemma_distance_of(start, l, n);
    }
}

/// A hit is counted for the shard that was asked for: the consumer stays on it, and the next
/// sweep begins with it as long as fewer than 32 items in a row came from it, and then with the
/// shard after it. A search asks for nothing exactly when it has a result.
pub proof fn law_a_hit_keeps_the_shard(search: Search, blocking: bool)
    requires
        search.wf(),
        search.asks() is Try,
    ensures
        search.asks() == SearchAction::Try(search.sweep.cursor),
        search.stage == SearchStage::Try ==> {
            let found = search.after_hit();
            &&& found.asks() == SearchAction::Return
            &&& found.stage == SearchStage::Got
            &&& found.sweep.budget == search.sweep.budget + 1
            &&& found.sweep.budget < 32 ==> found.started(blocking).asks() == search.asks()
            &&& found.sweep.budget >= 32 ==> found.started(blocking).asks() == SearchAction::Try(
                ((search.sweep.cursor + 1) % search.sweep.shards as int) as usize,
            )
        },
        search.stage == SearchStage::DrainTry ==> {
            let found = search.after_hit();
            &&& found.count == search.count + 1
            &&& found.count == search.max ==> found.asks() == SearchAction::Return
            &&& found.count < search.max ==> found.asks() is Try
        },
{
    crate::sharded::lemma_next(search.sweep.cursor as int, search.sweep.shards as int);
}

/// What a search does when the last shard of its sweep had none: a batch is over; a receive
/// fails if no shard has a sender; and otherwise it gives up, or waits if it is a blocking one.
pub proof fn law_a_sweep_without_an_item_ends(search: Search, gone: bool)
    requires
        search.wf(),
        search.asks() is Try,
        search.sweep.tried + 1 == search.sweep.shards,
    ensures
        ({
            let over = search.after_miss(gone);
            let all_gone = gone && search.sweep.gone + 1 == search.sweep.shards;
            if search.stage == SearchStage::DrainTry {
                over.asks() == SearchAction::Return && over.stage == SearchStage::Drained
            } else if all_gone {
                over.asks() == SearchAction::Return && over.stage == SearchStage::Disconnected
            } else if search.blocking {
                over.asks() is Pause && over.rested().asks() is Try
            } else {
                over.asks() == SearchAction::Return && over.stage == SearchStage::Empty
            }
        }),
{
}

// ---------------------------------------------------------------------------
// The waits
// ---------------------------------------------------------------------------

/// The states that the search of one blocking receive goes through.
pub open spec fn course_of_search(searches: Seq<Search>, search: Search) -> bool {
    &&& searches.len() > 0
    &&& searches[0] == search.started(true)
    &&& forall|k: int| 0 < k < searches.len() ==> #[trigger] search_moves(searches, k)
}

/// A hit, a miss or the end of a wait leads to the `k`-th state.
pub open spec fn search_moves(searches: Seq<Search>, k: int) -> bool {
    let s = searches[k - 1];
    ||| s.asks() is Try && searches[k] == s.after_hit()
    ||| s.asks() is Try && exists|gone: bool| searches[k] == #[trigger] s.after_miss(gone)
    ||| s.asks() is Pause && searches[k] == s.rested()
}

/// How often the search has asked to wait before its `k`-th state.
pub open spec fn waits_of_search(searches: Seq<Search>, k: int) -> nat
    decreases k,
{
    if k <= 0 {
        0
    } else if searches[k - 1].asks() is Pause {
        waits_of_search(searches, k - 1) + 1
    } else {
        waits_of_search(searches, k - 1)
    }
}

proof fn lemma_course_of_search(searches: Seq<Search>, search: Search, k: int)
    requires
        course_of_search(searches, search),
        0 <= k < searches.len(),
    ensures
        searches[k].strategy == search.strategy,
        searches[k].idle == search.strategy.climbs(waits_of_search(searches, k)),
    decreases k,
{
    if k > 0 {
        lemma_course_of_search(searches, search, k - 1);
        assert(search_moves(searches, k));
    }
}

/// The search of a blocking receive climbs the ladder: each time that it asks to wait, it asks
/// for the next wait of its strategy, from the first one on.
pub proof fn law_a_blocked_search_climbs_the_ladder(
    searches: Seq<Search>,
    search: Search,
    k: int,
)
    requires
        course_of_search(searches, search),
        0 <= k < searches.len(),
        searches[k].asks() is Pause,
    ensures
        searches[k].asks() == SearchAction::Pause(
            crate::wait::kth_wait(search.strategy, waits_of_search(searches, k)),
        ),
{
    lemma_course_of_search(searches, search, k);
    crate::wait::law_climbing_gives_the_waits(search.strategy, waits_of_search(searches, k));
}

/// One run of a blocking receive: the consumer and the shards before it, what it returns, and
/// the consumer and the shards after it.
pub struct RecvRun<T> {
    pub rx: Receiver<T>,
    pub ms: Seq<spsc::Memory<T>>,
    pub r: Turn<Result<T, RecvError>>,
    pub rx2: Receiver<T>,
    pub ms2: Seq<spsc::Memory<T>>,
}

impl<T> RecvRun<T> {
    /// This is what such a run does.
    pub open spec fn is_run(self) -> bool {
        self.rx.recv_turn(self.ms, self.r, self.rx2, self.ms2)
    }
}

/// The runs of one receive by `rx`: the call, and then a resumption after every wait, whatever
/// the shards are then.
pub open spec fn runs_of_recv<T>(runs: Seq<RecvRun<T>>, rx: Receiver<T>) -> bool {
    &&& runs.len() > 0
    &&& runs[0].rx == (Receiver { search: rx.search.started(true), ..rx })
    &&& forall|k: int| 0 <= k < runs.len() ==> (#[trigger] runs[k]).is_run()
    &&& forall|k: int| 0 < k < runs.len() ==> #[trigger] resumes_recv(runs, k)
}

/// The `k`-th run is the resumption of the one before.
pub open spec fn resumes_recv<T>(runs: Seq<RecvRun<T>>, k: int) -> bool {
    let last = runs[k - 1];
    &&& last.r is Wait
    &&& runs[k].rx.search == last.rx2.search.rested()
}

proof fn lemma_runs_of_recv<T>(runs: Seq<RecvRun<T>>, rx: Receiver<T>, k: int)
    requires
        runs_of_recv(runs, rx),
        0 <= k < runs.len(),
    ensures
        runs[k].rx.search.strategy == rx.search.strategy,
        runs[k].rx.search.idle == rx.search.strategy.climbs(k as nat),
    decreases k,
{
    if k > 0 {
        lemma_runs_of_recv(runs, rx, k - 1);
        assert(runs[k - 1].is_run());
        assert(resumes_recv(runs, k));
    }
}

/// What a receive returns each time that it is run: with an item in some shard the oldest item
/// of such a shard; with none and every sender gone it fails; and otherwise it waits, the `k`-th
/// time as its strategy says for the `k`-th wait, and leaves the shards as they are.
pub proof fn law_what_a_blocking_receive_returns<T>(
    runs: Seq<RecvRun<T>>,
    rx: Receiver<T>,
    k: int,
)
    requires
        runs_of_recv(runs, rx),
        0 <= k < runs.len(),
        crate::sharded::wf(runs[k].ms),
        crate::sharded::fits(runs[k].rx.search.sweep, runs[k].ms),
    ensures
        ({
            let ms = runs[k].ms;
            let some = exists|i: int| 0 <= i < ms.len() && (#[trigger] ms[i]).contents().len() > 0;
            let all_gone = forall|i: int| 0 <= i < ms.len() ==> (#[trigger] ms[i]).disconnected;
            match runs[k].r {
                Turn::Done(Ok(v)) => some && exists|i: int|
                    0 <= i < ms.len() && #[trigger] ms[i].contents() == seq![v]
                        + runs[k].ms2[i].contents(),
                Turn::Done(Err(_)) => !some && all_gone && runs[k].ms2 == ms,
                Turn::Wait(rung) => {
                    &&& !some
                    &&& !all_gone
                    &&& runs[k].ms2 == ms
                    &&& rung == crate::wait::kth_wait(rx.search.strategy, k as nat)
                },
            }
        }),
{
    let run = runs[k];
    let sweep = run.rx.search.sweep;
    lemma_runs_of_recv(runs, rx, k);
    assert(run.is_run());
    crate::wait::law_climbing_gives_the_waits(rx.search.strategy, k as nat);
    crate::sharded::law_disconnected_requires_every_shard(sweep, run.ms);
    if let Turn::Done(Ok(v)) = run.r {
        crate::sharded::law_sweep_takes_the_oldest_of_one_shard(sweep, run.ms);
        let i = crate::sharded::source(sweep, run.ms)->0;
        assert(run.ms[i].contents() == crate::sharded::contents(run.ms)[i]);
        assert(run.ms2[i].contents() == crate::sharded::contents(run.ms2)[i]);
        assert(run.ms[i].contents() == seq![v] + run.ms2[i].contents());
    } else {
        crate::sharded::lemma_swept(sweep, run.ms);
        assert(crate::sharded::outcome(sweep, run.ms) is Err);
    }
}

/// A receive that does not wait fails for the same reasons: it says `Disconnected` exactly if
/// every shard is empty and without a sender, and `Empty` exactly if every shard is empty and some
/// still has one; and a failed one leaves the shards as they are.
pub proof fn law_why_a_receive_fails<T>(sweep: crate::sharded::Sweep, ms: Seq<spsc::Memory<T>>)
    requires
        crate::sharded::wf(ms),
        crate::sharded::fits(sweep, ms),
    ensures
        ({
            let none = forall|i: int|
                0 <= i < ms.len() ==> (#[trigger] ms[i]).contents().len() == 0;
            let all_gone = forall|i: int| 0 <= i < ms.len() ==> (#[trigger] ms[i]).disconnected;
            match crate::sharded::outcome(sweep, ms) {
                Ok(_) => !none,
                Err(TryRecvError::Disconnected) => {
                    &&& none
                    &&& all_gone
                    &&& crate::sharded::taken(sweep, ms) == ms
                },
                Err(TryRecvError::Empty) => {
                    &&& none
                    &&& !all_gone
                    &&& crate::sharded::taken(sweep, ms) == ms
                },
            }
        }),
{
    crate::sharded::lemma_swept(sweep, ms);
}

} // verus!
