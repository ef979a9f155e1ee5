//! What holds when the producers run while the consumer sweeps.
//!
//! Each shard is a ring of [`crate::spsc`] in use by two threads, with all that
//! [`crate::spsc::interleave`] says of it. The producers' threads are all different, and the
//! consumer's thread is the same for all shards: it follows its [`Search`], and so uses one
//! shard at a time.
//!
//! The laws speak of every state that such a run can reach.

use vstd::prelude::*;

use crate::sharded::{Found, Search, SearchStage, Sweep, VISIT_BUDGET};
use crate::spsc;
use crate::spsc::RecvStage;

verus! {

/// The shards in use by several threads.
#[verifier::ext_equal]
pub struct System<T> {
    pub shards: Seq<spsc::interleave::System<T>>,
    pub search: Search,
    /// The sweep under way as it began.
    pub begun: Sweep,
    /// The misses of the sweep under way: whether the shard had no sender any more.
    pub misses: Seq<bool>,
    /// The items that the consumer got, in order, each with the number of its shard.
    pub got: Seq<(int, T)>,
    /// The consumer handle is being dropped.
    pub dropping: bool,
}

/// The items that came from shard `i`, in order.
pub open spec fn from_shard<T>(got: Seq<(int, T)>, i: int) -> Seq<T>
    decreases got.len(),
{
    if got.len() == 0 {
        Seq::empty()
    } else if got.last().0 == i {
        from_shard(got.drop_last(), i).push(got.last().1)
    } else {
        from_shard(got.drop_last(), i)
    }
}

impl<T> System<T> {
    /// The ring was just made.
    pub open spec fn initial(self) -> bool {
        &&& self.shards.len() > 0
        &&& forall|i: int| 0 <= i < self.shards.len() ==> (#[trigger] self.shards[i]).initial()
        &&& self.search.wf()
        &&& self.search.stage == SearchStage::Ready
        &&& self.search.sweep.shards == self.shards.len()
        &&& self.got == Seq::<(int, T)>::empty()
        &&& !self.dropping
    }

    /// The consumer tries a shard.
    pub open spec fn tries(self) -> bool {
        self.search.asks() is Try
    }

    /// The shard that the consumer tries: the one that its search asks for.
    pub open spec fn cursor(self) -> int {
        self.search.asks()->Try_0 as int
    }

    /// With `u` for shard `i`.
    pub open spec fn with_shard(self, i: int, u: spsc::interleave::System<T>) -> System<T> {
        System { shards: self.shards.update(i, u), ..self }
    }

    /// The producer of shard `i` takes a step, which leads the shard to `u`.
    pub open spec fn producer_moves(self, i: int, u: spsc::interleave::System<T>) -> bool {
        &&& 0 <= i < self.shards.len()
        &&& (exists|ev: spsc::Event| #[trigger] self.shards[i].tx_steps(ev, u))
            || self.shards[i].tx_calls(u)
    }

    /// The consumer begins to try the shard, or makes an access to it, which leads the shard to
    /// `u`.
    pub open spec fn consumer_moves(self, u: spsc::interleave::System<T>) -> bool {
        let shard = self.shards[self.cursor()];
        &&& self.tries()
        &&& {
            ||| {
                &&& shard.rx.stage == RecvStage::Ready
                &&& u == (spsc::interleave::System { rx: shard.rx.started(false, 0), ..shard })
            }
            ||| exists|ev: spsc::Event| #[trigger] shard.rx_steps(ev, u)
        }
    }

    /// The search as it goes on, at the start of a sweep or at rest.
    pub open spec fn with_search(self, search: Search) -> System<T> {
        System { search, begun: search.sweep, misses: Seq::empty(), ..self }
    }

    /// The shard has an answer.
    pub open spec fn has_answer(self) -> bool {
        let stage = self.shards[self.cursor()].rx.stage;
        &&& self.tries()
        &&& stage == RecvStage::Got || stage == RecvStage::Empty || stage
            == RecvStage::Disconnected
    }

    /// The consumer takes the answer of the shard.
    pub open spec fn answered(self) -> System<T> {
        let c = self.cursor();
        let shard = self.shards[c];
        let gone = shard.rx.stage == RecvStage::Disconnected;
        let t = self.with_shard(c, shard.rx_finish());
        if shard.rx.stage == RecvStage::Got {
            System {
                got: self.got.push((c, shard.rx.value->0)),
                ..t.with_search(self.search.after_hit())
            }
        } else if self.search.sweep.meaning(gone) == Found::Next {
            System {
                search: self.search.after_miss(gone),
                misses: self.misses.push(gone),
                ..t
            }
        } else {
            t.with_search(self.search.after_miss(gone))
        }
    }

    /// The consumer starts or ends an operation, goes on after a wait, or cuts a batch short;
    /// then its search is `search`.
    pub open spec fn consumer_calls(self, search: Search) -> bool {
        ||| {
            &&& self.search.stage == SearchStage::Ready
            &&& !self.dropping
            &&& exists|blocking: bool| search == #[trigger] self.search.started(blocking)
        }
        ||| {
            &&& self.search.stage == SearchStage::Ready
            &&& !self.dropping
            &&& exists|max: usize| search == #[trigger] self.search.drain_started(max)
        }
        ||| self.search.stage == SearchStage::Pause && search == self.search.rested()
        ||| {
            &&& self.search.stage == SearchStage::DrainTry
            &&& self.shards[self.cursor()].rx.stage == RecvStage::Ready
            &&& search == (Search {
                sweep: Sweep { tried: 0, gone: 0, ..self.search.sweep },
                stage: SearchStage::Drained,
                ..self.search
            })
        }
        ||| {
            &&& self.search.stage == SearchStage::Got || self.search.stage == SearchStage::Empty
                || self.search.stage == SearchStage::Disconnected || self.search.stage
                == SearchStage::Drained
            &&& search == self.search.to(SearchStage::Ready)
        }
    }

    /// The consumer handle is being dropped, and the handle of shard `i` with it, which leads
    /// the shard to `u`.
    pub open spec fn drop_moves(self, i: int, u: spsc::interleave::System<T>) -> bool {
        let shard = self.shards[i];
        &&& self.dropping
        &&& 0 <= i < self.shards.len()
        &&& {
            ||| {
                &&& shard.rx.stage == RecvStage::Ready
                &&& u == (spsc::interleave::System { rx: shard.rx.to(RecvStage::Close), ..shard })
            }
            ||| exists|ev: spsc::Event| #[trigger] shard.rx_steps(ev, u)
        }
    }

    /// One of the threads takes a step.
    pub open spec fn step(self, s: System<T>) -> bool {
        ||| exists|i: int, u: spsc::interleave::System<T>|
            #[trigger] self.producer_moves(i, u) && s == self.with_shard(i, u)
        ||| exists|u: spsc::interleave::System<T>| #[trigger]
            self.consumer_moves(u) && s == self.with_shard(self.cursor(), u)
        ||| self.has_answer() && s == self.answered()
        ||| exists|search: Search| #[trigger]
            self.consumer_calls(search) && s == self.with_search(search)
        ||| {
            &&& self.search.stage == SearchStage::Ready
            &&& s == (System { dropping: true, ..self })
        }
        ||| exists|i: int, u: spsc::interleave::System<T>|
            #[trigger] self.drop_moves(i, u) && s == self.with_shard(i, u)
    }

    /// A run: from a new ring, one step after the other.
    pub open spec fn run(trace: Seq<System<T>>) -> bool {
        &&& trace.len() > 0
        &&& trace[0].initial()
        &&& forall|i: int| 0 < i < trace.len() ==> #[trigger] Self::steps_to(trace, i)
    }

    /// A step leads to the `i`-th state from the one before.
    pub open spec fn steps_to(trace: Seq<System<T>>, i: int) -> bool {
        trace[i - 1].step(trace[i])
    }

    /// A run can come to this state.
    pub open spec fn reachable(self) -> bool {
        exists|trace: Seq<System<T>>| #[trigger] Self::run(trace) && trace.last() == self
    }

    /// The consumer knows that the sender of shard `i` is gone, and has everything that it sent.
    spec fn finished(self, i: int) -> bool {
        self.shards[i].over()
    }

    /// Every shard is finished, and so is all that the search has to tell.
    spec fn all_finished(self) -> bool {
        &&& forall|i: int| 0 <= i < self.shards.len() ==> #[trigger] self.finished(i)
        &&& self.tries() ==> forall|k: int|
            0 <= k < self.misses.len() ==> #[trigger] self.misses[k]
        &&& self.search.stage != SearchStage::Got
        &&& self.search.stage != SearchStage::Empty
        &&& self.search.stage != SearchStage::Pause
    }

    /// What holds of shard `i`.
    spec fn shard_inv(self, i: int) -> bool {
        let shard = self.shards[i];
        &&& shard.reachable()
        &&& from_shard(self.got, i) == shard.returned
        &&& !self.dropping && !(self.tries() && i == self.cursor()) ==> shard.rx.stage
            == RecvStage::Ready
        &&& self.dropping ==> {
            ||| shard.rx.stage == RecvStage::Ready
            ||| shard.rx.stage == RecvStage::Close
            ||| shard.rx.stage is CloseWake
            ||| shard.rx.stage == RecvStage::Gone
        }
        &&& !shard.rx.stage.drains()
    }

    spec fn inv(self) -> bool {
        let n = self.shards.len() as int;
        &&& n > 0
        &&& self.search.wf()
        &&& self.search.sweep.shards == n
        &&& self.dropping ==> self.search.stage == SearchStage::Ready
        &&& forall|i: int| 0 <= i < n ==> #[trigger] self.shard_inv(i)
        &&& self.tries() ==> {
            &&& self.begun.wf()
            &&& self.begun.shards == n
            &&& self.begun.tried == 0
            &&& self.begun.gone == 0
            &&& self.misses.len() < n
            &&& self.search.sweep == self.begun.misses(self.misses)
        }
        &&& self.tries() ==> forall|k: int|
            0 <= k < self.misses.len() && #[trigger] self.misses[k] ==> self.finished(
                crate::sharded::after(self.begun.cursor as int, k, n),
            )
        &&& self.search.stage == SearchStage::Disconnected ==> forall|i: int|
            0 <= i < n ==> #[trigger] self.finished(i)
    }
}

proof fn lemma_initial<T>(s: System<T>)
    requires
        s.initial(),
    ensures
        s.inv(),
{
    assert forall|i: int| 0 <= i < s.shards.len() implies #[trigger] s.shard_inv(i) by {
        assert(s.shards[i].initial());
        spsc::interleave::law_new_ring_is_reachable(s.shards[i]);
        assert(from_shard(s.got, i) =~= Seq::<T>::empty());
    }
}

/// A shard that goes on stays finished.
proof fn lemma_shard_moves<T>(s: System<T>, i: int, u: spsc::interleave::System<T>)
    requires
        s.inv(),
        0 <= i < s.shards.len(),
        s.shards[i].step(u),
    ensures
        u.reachable(),
        forall|j: int|
            0 <= j < s.shards.len() && s.finished(j) ==> #[trigger] s.with_shard(i, u).finished(j),
{
    assert(s.shard_inv(i));
    spsc::interleave::law_steps_are_reachable(s.shards[i], u);
    if s.finished(i) {
        spsc::interleave::law_over_stays_over(s.shards[i], u);
    }
}

/// The rest is as before when one shard goes on.
proof fn lemma_with_shard<T>(s: System<T>, i: int, u: spsc::interleave::System<T>)
    requires
        s.inv(),
        0 <= i < s.shards.len(),
        s.shards[i].step(u),
        s.with_shard(i, u).shard_inv(i),
    ensures
        s.with_shard(i, u).inv(),
{
    let t = s.with_shard(i, u);
    let n = s.shards.len() as int;
    lemma_shard_moves(s, i, u);
    assert forall|j: int| 0 <= j < n implies #[trigger] t.shard_inv(j) by {
        assert(s.shard_inv(j));
    }
    if s.tries() {
        assert forall|k: int| 0 <= k < t.misses.len() && #[trigger] t.misses[k] implies t.finished(
            crate::sharded::after(t.begun.cursor as int, k, n),
        ) by {
            crate::sharded::lemma_after(s.begun.cursor as int, k, n);
            assert(s.finished(crate::sharded::after(s.begun.cursor as int, k, n)));
        }
    }
    if s.search.stage == SearchStage::Disconnected {
        assert forall|j: int| 0 <= j < n implies #[trigger] t.finished(j) by {
            assert(s.finished(j));
        }
    }
}

proof fn lemma_producer_moves<T>(s: System<T>, i: int, u: spsc::interleave::System<T>)
    requires
        s.inv(),
        s.producer_moves(i, u),
    ensures
        s.with_shard(i, u).inv(),
{
    assert(s.shard_inv(i));
    assert(s.shards[i].step(u));
    lemma_shard_moves(s, i, u);
    lemma_with_shard(s, i, u);
}

proof fn lemma_consumer_steps<T>(s: System<T>, u: spsc::interleave::System<T>)
    requires
        s.inv(),
        s.consumer_moves(u),
    ensures
        s.shards[s.cursor()].step(u),
{
    let shard = s.shards[s.cursor()];
    if shard.rx.stage == RecvStage::Ready {
        assert(spsc::interleave::System { rx: shard.rx.started(false, 0), ..shard } == u);
        assert(shard.rx_calls(u));
    }
}

/// An access of a single receive is followed by one of a single receive.
proof fn lemma_access_of_one<T>(
    shard: spsc::interleave::System<T>,
    ev: spsc::Event,
    u: spsc::interleave::System<T>,
)
    requires
        shard.rx_steps(ev, u),
        !shard.rx.stage.drains(),
    ensures
        !u.rx.stage.drains(),
        u.returned == shard.returned,
{
}

proof fn lemma_consumer_moves<T>(s: System<T>, u: spsc::interleave::System<T>)
    requires
        s.inv(),
        s.consumer_moves(u),
    ensures
        s.with_shard(s.cursor(), u).inv(),
{
    let c = s.cursor();
    let shard = s.shards[c];
    assert(s.shard_inv(c));
    lemma_consumer_steps(s, u);
    lemma_shard_moves(s, c, u);
    if exists|ev: spsc::Event| #[trigger] shard.rx_steps(ev, u) {
        let ev = choose|ev: spsc::Event| #[trigger] shard.rx_steps(ev, u);
        lemma_access_of_one(shard, ev, u);
    }
    assert(s.with_shard(c, u).shard_inv(c));
    lemma_with_shard(s, c, u);
}

proof fn lemma_drop_steps<T>(s: System<T>, i: int, u: spsc::interleave::System<T>)
    requires
        s.drop_moves(i, u),
    ensures
        s.shards[i].step(u),
{
    if s.shards[i].rx.stage == RecvStage::Ready {
        assert(s.shards[i].rx_calls(u));
    }
}

proof fn lemma_drop_moves<T>(s: System<T>, i: int, u: spsc::interleave::System<T>)
    requires
        s.inv(),
        s.drop_moves(i, u),
    ensures
        s.with_shard(i, u).inv(),
{
    assert(s.shard_inv(i));
    lemma_drop_steps(s, i, u);
    lemma_shard_moves(s, i, u);
    lemma_with_shard(s, i, u);
}

/// The consumer takes the answer of the shard: what is left of the shards.
proof fn lemma_answered_shards<T>(s: System<T>)
    requires
        s.inv(),
        s.has_answer(),
    ensures
        s.answered().shards.len() == s.shards.len(),
        forall|i: int| 0 <= i < s.shards.len() ==> #[trigger] s.answered().shard_inv(i),
        forall|i: int|
            0 <= i < s.shards.len() && s.finished(i) ==> #[trigger] s.answered().finished(i),
        s.shards[s.cursor()].rx.stage == RecvStage::Disconnected ==> s.answered().finished(
            s.cursor(),
        ),
{
    let t = s.answered();
    let c = s.cursor();
    let shard = s.shards[c];
    let u = shard.rx_finish();
    assert(s.shard_inv(c));
    assert(shard.rx_calls(u));
    assert(shard.step(u));
    spsc::interleave::law_steps_are_reachable(shard, u);
    if shard.rx.stage == RecvStage::Disconnected {
        spsc::interleave::law_disconnected_knows_it_is_over(shard);
    }
    if shard.over() {
        spsc::interleave::law_over_stays_over(shard, u);
    }
    assert forall|i: int| 0 <= i < s.shards.len() implies #[trigger] t.shard_inv(i) by {
        assert(s.shard_inv(i));
        if shard.rx.stage == RecvStage::Got {
            assert(t.got.drop_last() =~= s.got);
        }
    }
}

proof fn lemma_answered<T>(s: System<T>)
    requires
        s.inv(),
        s.has_answer(),
    ensures
        s.answered().inv(),
{
    let t = s.answered();
    let n = s.shards.len() as int;
    let c = s.cursor();
    let stage = s.shards[c].rx.stage;
    let gone = stage == RecvStage::Disconnected;
    lemma_answered_shards(s);
    lemma_search(s.search, gone);
    if stage != RecvStage::Got {
        let all = s.misses.push(gone);
        let start = s.begun.cursor as int;
        assert(all.drop_last() =~= s.misses);
        crate::sharded::law_sweep_tries_every_shard_once(s.begun, all);
        assert(c == crate::sharded::after(start, s.misses.len() as int, n));
        assert forall|k: int| 0 <= k < all.len() && #[trigger] all[k] implies t.finished(
            crate::sharded::after(start, k, n),
        ) by {
            crate::sharded::lemma_after(start, k, n);
            if k < s.misses.len() {
                assert(s.misses[k]);
                assert(s.finished(crate::sharded::after(start, k, n)));
            }
        }
        if s.search.sweep.meaning(gone) == Found::Disconnected {
            assert forall|i: int| 0 <= i < n implies #[trigger] t.finished(i) by {
                crate::sharded::lemma_distance(start, i, n);
                assert(all[crate::sharded::distance(start, i, n)]);
            }
        }
    }
}

/// The search that has an answer goes on as one.
proof fn lemma_search(search: Search, gone: bool)
    requires
        search.wf(),
        search.stage == SearchStage::Try || search.stage == SearchStage::DrainTry,
    ensures
        search.after_hit().wf(),
        search.after_miss(gone).wf(),
        search.after_hit().sweep.shards == search.sweep.shards,
        search.after_miss(gone).sweep.shards == search.sweep.shards,
{
    crate::sharded::lemma_next(search.sweep.cursor as int, search.sweep.shards as int);
    crate::sharded::lemma_next(
        search.sweep.moved().cursor as int,
        search.sweep.shards as int,
    );
}

proof fn lemma_consumer_calls<T>(s: System<T>, search: Search)
    requires
        s.inv(),
        s.consumer_calls(search),
    ensures
        s.with_search(search).inv(),
{
    let t = s.with_search(search);
    crate::sharded::lemma_next(s.search.sweep.cursor as int, s.search.sweep.shards as int);
    assert forall|i: int| 0 <= i < s.shards.len() implies #[trigger] t.shard_inv(i) by {
        assert(s.shard_inv(i));
    }
}

proof fn lemma_step<T>(s: System<T>, t: System<T>)
    requires
        s.inv(),
        s.step(t),
    ensures
        t.inv(),
{
    if exists|i: int, u: spsc::interleave::System<T>|
        #[trigger] s.producer_moves(i, u) && t == s.with_shard(i, u) {
        let (i, u) = choose|i: int, u: spsc::interleave::System<T>|
            #[trigger] s.producer_moves(i, u) && t == s.with_shard(i, u);
        lemma_producer_moves(s, i, u);
    } else if exists|u: spsc::interleave::System<T>| #[trigger]
        s.consumer_moves(u) && t == s.with_shard(s.cursor(), u) {
        let u = choose|u: spsc::interleave::System<T>| #[trigger]
            s.consumer_moves(u) && t == s.with_shard(s.cursor(), u);
        lemma_consumer_moves(s, u);
    } else if s.has_answer() && t == s.answered() {
        lemma_answered(s);
    } else if exists|search: Search| #[trigger]
        s.consumer_calls(search) && t == s.with_search(search) {
        let search = choose|search: Search| #[trigger]
            s.consumer_calls(search) && t == s.with_search(search);
        lemma_consumer_calls(s, search);
    } else if exists|i: int, u: spsc::interleave::System<T>|
        #[trigger] s.drop_moves(i, u) && t == s.with_shard(i, u) {
        let (i, u) = choose|i: int, u: spsc::interleave::System<T>|
            #[trigger] s.drop_moves(i, u) && t == s.with_shard(i, u);
        lemma_drop_moves(s, i, u);
    } else {
        assert forall|i: int| 0 <= i < s.shards.len() implies #[trigger] t.shard_inv(i) by {
            assert(s.shard_inv(i));
        }
    }
}

proof fn lemma_run<T>(trace: Seq<System<T>>, i: int)
    requires
        System::run(trace),
        0 <= i < trace.len(),
    ensures
        trace[i].inv(),
    decreases i,
{
    if i == 0 {
        lemma_initial(trace[0]);
    } else {
        lemma_run(trace, i - 1);
        assert(System::steps_to(trace, i));
        lemma_step(trace[i - 1], trace[i]);
    }
}

proof fn lemma_reachable<T>(s: System<T>)
    requires
        s.reachable(),
    ensures
        s.inv(),
{
    let trace = choose|trace: Seq<System<T>>| #[trigger] System::run(trace) && trace.last() == s;
    lemma_run(trace, trace.len() - 1);
}

/// New shards are the start of a run.
pub proof fn law_new_shards_are_reachable<T>(s: System<T>)
    requires
        s.initial(),
    ensures
        s.reachable(),
{
    let trace = seq![s];
    assert(System::run(trace));
    assert(trace.last() == s);
}

/// A step from a reachable state leads to a reachable state.
pub proof fn law_steps_are_reachable<T>(s: System<T>, t: System<T>)
    requires
        s.reachable(),
        s.step(t),
    ensures
        t.reachable(),
{
    let trace = choose|trace: Seq<System<T>>| #[trigger] System::run(trace) && trace.last() == s;
    let longer = trace.push(t);
    assert forall|i: int| 0 < i < longer.len() implies #[trigger] System::steps_to(longer, i) by {
        if i < trace.len() {
            assert(System::steps_to(trace, i));
        }
    }
    assert(System::run(longer));
    assert(longer.last() == t);
}

/// Whatever the others do, each shard is a ring in use by two threads: what holds of every run
/// of such a ring holds of it.
pub proof fn law_shards_are_rings<T>(s: System<T>, i: int)
    requires
        s.reachable(),
        0 <= i < s.shards.len(),
    ensures
        s.shards[i].reachable(),
{
    lemma_reachable(s);
    assert(s.shard_inv(i));
}

/// The items of one producer arrive in the order in which they were sent, none skipped and none
/// twice: what the consumer got from a shard is what the shard's producer has put in, in order,
/// as far as it was taken out.
pub proof fn law_each_producers_items_arrive_in_order<T>(s: System<T>, i: int)
    requires
        s.reachable(),
        0 <= i < s.shards.len(),
    ensures
        from_shard(s.got, i).len() <= s.shards[i].sent.len(),
        from_shard(s.got, i) == s.shards[i].sent.take(from_shard(s.got, i).len() as int),
{
    lemma_reachable(s);
    assert(s.shard_inv(i));
    spsc::interleave::law_round_trip(s.shards[i]);
}

/// `Disconnected` is reported only when every shard is drained and has no sender any more, though
/// the producers run during the sweep; and then the consumer has got, from each shard, the
/// values of all sends that returned `Ok`, in the order of the calls, and no others.
pub proof fn law_disconnected_is_reported_when_all_is_drained<T>(s: System<T>, i: int)
    requires
        s.reachable(),
        s.search.stage == SearchStage::Disconnected,
        0 <= i < s.shards.len(),
    ensures
        s.shards[i].tx_closed(),
        s.shards[i].received == s.shards[i].sent,
        from_shard(s.got, i) == s.shards[i].accepted,
{
    lemma_reachable(s);
    assert(s.finished(i));
    assert(s.shard_inv(i));
    spsc::interleave::law_taken_items_are_handed_over(s.shards[i]);
    spsc::interleave::law_sends_put_their_values(s.shards[i]);
}

/// One shard goes on when all are finished.
proof fn lemma_finished_shard_moves<T>(s: System<T>, i: int, u: spsc::interleave::System<T>)
    requires
        s.inv(),
        s.all_finished(),
        0 <= i < s.shards.len(),
        s.shards[i].step(u),
    ensures
        s.with_shard(i, u).all_finished(),
{
    let t = s.with_shard(i, u);
    lemma_shard_moves(s, i, u);
    assert forall|j: int| 0 <= j < t.shards.len() implies #[trigger] t.finished(j) by {
        assert(s.finished(j));
    }
}

proof fn lemma_finished_answered<T>(s: System<T>)
    requires
        s.inv(),
        s.all_finished(),
        s.has_answer(),
    ensures
        s.answered().all_finished(),
        s.answered().got == s.got,
{
    let t = s.answered();
    let all = s.misses.push(true);
    assert(s.finished(s.cursor()));
    assert(s.shards[s.cursor()].rx.stage == RecvStage::Disconnected);
    lemma_answered_shards(s);
    assert(all.drop_last() =~= s.misses);
    crate::sharded::law_sweep_tries_every_shard_once(s.begun, all);
    assert forall|j: int| 0 <= j < t.shards.len() implies #[trigger] t.finished(j) by {
        assert(s.finished(j));
    }
}

proof fn lemma_finished_step<T>(s: System<T>, t: System<T>)
    requires
        s.inv(),
        s.all_finished(),
        s.step(t),
    ensures
        t.all_finished(),
        t.got == s.got,
        t.shards.len() == s.shards.len(),
{
    if exists|i: int, u: spsc::interleave::System<T>|
        #[trigger] s.producer_moves(i, u) && t == s.with_shard(i, u) {
        let (i, u) = choose|i: int, u: spsc::interleave::System<T>|
            #[trigger] s.producer_moves(i, u) && t == s.with_shard(i, u);
        lemma_finished_shard_moves(s, i, u);
    } else if exists|u: spsc::interleave::System<T>| #[trigger]
        s.consumer_moves(u) && t == s.with_shard(s.cursor(), u) {
        let u = choose|u: spsc::interleave::System<T>| #[trigger]
            s.consumer_moves(u) && t == s.with_shard(s.cursor(), u);
        lemma_consumer_steps(s, u);
        lemma_finished_shard_moves(s, s.cursor(), u);
    } else if s.has_answer() && t == s.answered() {
        lemma_finished_answered(s);
    } else if exists|i: int, u: spsc::interleave::System<T>|
        #[trigger] s.drop_moves(i, u) && t == s.with_shard(i, u) {
        let (i, u) = choose|i: int, u: spsc::interleave::System<T>|
            #[trigger] s.drop_moves(i, u) && t == s.with_shard(i, u);
        lemma_drop_steps(s, i, u);
        lemma_finished_shard_moves(s, i, u);
    } else {
        assert forall|j: int| 0 <= j < t.shards.len() implies #[trigger] t.finished(j) by {
            assert(s.finished(j));
        }
    }
}

/// Once `Disconnected` was reported it stays so: the consumer gets no further item, and no later
/// operation finds one, calls the shards empty or waits.
pub proof fn law_disconnect_is_final<T>(trace: Seq<System<T>>, i: int, j: int)
    requires
        System::run(trace),
        0 <= i <= j < trace.len(),
        trace[i].search.stage == SearchStage::Disconnected,
    ensures
        trace[j].got == trace[i].got,
        trace[j].search.stage != SearchStage::Got,
        trace[j].search.stage != SearchStage::Empty,
        trace[j].search.stage != SearchStage::Pause,
{
    lemma_finished_later(trace, i, j);
}

proof fn lemma_finished_later<T>(trace: Seq<System<T>>, i: int, j: int)
    requires
        System::run(trace),
        0 <= i <= j < trace.len(),
        trace[i].search.stage == SearchStage::Disconnected,
    ensures
        trace[j].all_finished(),
        trace[j].got == trace[i].got,
    decreases j,
{
    lemma_run(trace, i);
    if i < j {
        lemma_finished_later(trace, i, j - 1);
        lemma_run(trace, j - 1);
        assert(System::steps_to(trace, j));
        lemma_finished_step(trace[j - 1], trace[j]);
    }
}

impl<T> System<T> {
    /// The consumer has just found shard `i` without an item.
    pub open spec fn finds_empty(self, i: int) -> bool {
        self.shards[i].rx.stage == RecvStage::Empty || self.shards[i].rx.stage
            == RecvStage::Disconnected
    }

    /// The consumer knows of an item in shard `i`.
    pub open spec fn has_in_sight(self, i: int) -> bool {
        self.shards[i].rx.head < self.shards[i].rx.cached_tail
    }

    /// An item of shard `i` is sure to come: the consumer knows of one, or has it in hand.
    spec fn expects_from(self, i: int) -> bool {
        self.has_in_sight(i) || self.shards[i].rx.value is Some
    }

    /// How many items can come from other shards at most before shard `i` gets its turn.
    spec fn patience(self, i: int) -> int {
        let wait = crate::sharded::wait(self.search.sweep, i);
        if wait > 0 {
            wait
        } else {
            0
        }
    }
}

/// Since the consumer had got `before`, it got an item from shard `i`, before it had got more
/// than `max` others.
pub open spec fn served<T>(before: Seq<(int, T)>, got: Seq<(int, T)>, i: int, max: int) -> bool {
    exists|k: int| before.len() <= k < got.len() && k <= before.len() + max && got[k].0 == i
}

/// The round is the same, but for the beginning of a sweep.
spec fn settles(sweep: Sweep, next: Sweep) -> bool {
    &&& next.shards == sweep.shards
    &&& {
        ||| next.cursor == sweep.cursor && next.budget == sweep.budget
        ||| next.cursor == sweep.begun().cursor && next.budget == sweep.begun().budget
    }
}

/// What a step does to the round and to what the consumer has got.
proof fn lemma_round_moves<T>(s: System<T>, t: System<T>)
    requires
        s.inv(),
        s.step(t),
    ensures
        t.shards.len() == s.shards.len(),
        ({
            ||| t.got == s.got && settles(s.search.sweep, t.search.sweep)
            ||| {
                &&& s.tries()
                &&& t.got.len() == s.got.len() + 1
                &&& t.got.drop_last() == s.got
                &&& t.got.last().0 == s.cursor()
                &&& settles(s.search.sweep.delivered(), t.search.sweep)
            }
            ||| {
                &&& s.tries()
                &&& s.finds_empty(s.cursor())
                &&& t.got == s.got
                &&& settles(s.search.sweep.moved(), t.search.sweep)
            }
        }),
{
    if s.has_answer() && t == s.answered() {
        assert(s.shard_inv(s.cursor()));
        if s.shards[s.cursor()].rx.stage == RecvStage::Got {
            assert(t.got.drop_last() =~= s.got);
        }
    }
}

/// What a step does to the patience with shard `i`, unless that one is found empty.
proof fn lemma_patience_step<T>(s: System<T>, t: System<T>, i: int)
    requires
        s.inv(),
        s.step(t),
        0 <= i < s.shards.len(),
        !s.finds_empty(i),
    ensures
        t.shards.len() == s.shards.len(),
        ({
            ||| t.got == s.got && t.patience(i) <= s.patience(i)
            ||| {
                &&& t.got.len() == s.got.len() + 1
                &&& t.got.drop_last() == s.got
                &&& t.got.last().0 == i || t.patience(i) < s.patience(i)
            }
        }),
{
    let sweep = s.search.sweep;
    lemma_round_moves(s, t);
    crate::sharded::lemma_next(sweep.cursor as int, sweep.shards as int);
    crate::sharded::lemma_wait_begun(sweep, i);
    crate::sharded::lemma_wait_begun(sweep.delivered(), i);
    crate::sharded::lemma_wait_begun(sweep.moved(), i);
    if s.tries() && s.cursor() != i {
        crate::sharded::lemma_wait_moves(sweep, i);
    }
    lemma_settled(sweep, t.search.sweep, i);
    lemma_settled(sweep.delivered(), t.search.sweep, i);
    lemma_settled(sweep.moved(), t.search.sweep, i);
}

proof fn lemma_settled(sweep: Sweep, next: Sweep, i: int)
    requires
        sweep.cursor < sweep.shards,
        0 <= i < sweep.shards,
    ensures
        settles(sweep, next) ==> crate::sharded::wait(next, i) == crate::sharded::wait(sweep, i),
{
    crate::sharded::lemma_next(sweep.cursor as int, sweep.shards as int);
}

/// Until an item of shard `i` comes, the patience with it is used up.
proof fn lemma_patience<T>(trace: Seq<System<T>>, a: int, b: int, i: int)
    requires
        System::run(trace),
        0 <= a <= b < trace.len(),
        0 <= i < trace[a].shards.len(),
        forall|k: int| a <= k < b ==> !(#[trigger] trace[k]).finds_empty(i),
    ensures
        trace[b].shards.len() == trace[a].shards.len(),
        trace[a].got.is_prefix_of(trace[b].got),
        served(trace[a].got, trace[b].got, i, trace[a].patience(i)) || trace[b].got.len()
            + trace[b].patience(i) <= trace[a].got.len() + trace[a].patience(i),
    decreases b,
{
    if a < b {
        let s = trace[b - 1];
        let t = trace[b];
        let before = trace[a].got;
        let max = trace[a].patience(i);
        lemma_patience(trace, a, b - 1, i);
        lemma_run(trace, b - 1);
        assert(System::steps_to(trace, b));
        lemma_patience_step(s, t, i);
        assert(forall|k: int| 0 <= k < s.got.len() ==> t.got[k] == s.got[k]) by {
            assert(t.got == s.got || t.got.drop_last() == s.got);
        }
        if served(before, s.got, i, max) {
            let k = choose|k: int|
                before.len() <= k < s.got.len() && k <= before.len() + max && s.got[k].0 == i;
            assert(t.got[k].0 == i);
        } else if t.got.len() > s.got.len() && t.got.last().0 == i {
            let k = t.got.len() - 1;
            assert(t.got[k].0 == i);
        }
    }
}

/// No producer starves, whatever the others do at the same time: as long as its shard is not
/// found empty, an item of it comes before the consumer has got more than `VISIT_BUDGET` items
/// for each other shard.
pub proof fn law_no_producer_starves<T>(trace: Seq<System<T>>, a: int, b: int, i: int)
    requires
        System::run(trace),
        0 <= a <= b < trace.len(),
        0 <= i < trace[a].shards.len(),
        forall|k: int| a <= k < b ==> !(#[trigger] trace[k]).finds_empty(i),
    ensures
        trace[a].got.is_prefix_of(trace[b].got),
        trace[b].got.len() > trace[a].got.len() + (trace[a].shards.len() - 1) * VISIT_BUDGET
            ==> served(
            trace[a].got,
            trace[b].got,
            i,
            (trace[a].shards.len() - 1) * VISIT_BUDGET,
        ),
{
    let max = (trace[a].shards.len() - 1) * VISIT_BUDGET;
    lemma_run(trace, a);
    lemma_patience(trace, a, b, i);
    crate::sharded::lemma_wait_begun(trace[a].search.sweep, i);
    if served(trace[a].got, trace[b].got, i, trace[a].patience(i)) {
        let k = choose|k: int|
            trace[a].got.len() <= k < trace[b].got.len() && k <= trace[a].got.len()
                + trace[a].patience(i) && trace[b].got[k].0 == i;
        assert(k <= trace[a].got.len() + max);
        assert(trace[b].got[k].0 == i);
    }
}

impl<T> System<T> {
    /// What the sweep under way has missed, or the last one of all, has nothing in sight.
    spec fn sight_inv(self) -> bool {
        let n = self.shards.len() as int;
        &&& self.tries() ==> forall|k: int|
            0 <= k < self.misses.len() ==> !#[trigger] self.expects_from(
                crate::sharded::after(self.begun.cursor as int, k, n),
            )
        &&& self.lacks() ==> forall|j: int| 0 <= j < n ==> !#[trigger] self.expects_from(j)
    }

    /// The last sweep found nothing: the search says so, or waits for the next.
    pub open spec fn lacks(self) -> bool {
        self.search.stage == SearchStage::Empty || self.search.stage == SearchStage::Disconnected
            || self.search.stage == SearchStage::Pause
    }
}

/// The handles of the shards are sound.
proof fn lemma_shard_sound<T>(s: System<T>, i: int)
    requires
        s.inv(),
        0 <= i < s.shards.len(),
    ensures
        s.shards[i].rx.wf(),
{
    assert(s.shard_inv(i));
    spsc::interleave::law_handles_stay_sound(s.shards[i]);
}

/// What is not in sight of the consumer stays so while another shard goes on.
proof fn lemma_sight_elsewhere<T>(s: System<T>, i: int, u: spsc::interleave::System<T>)
    requires
        s.inv(),
        s.sight_inv(),
        0 <= i < s.shards.len(),
        s.shards[i].rx == u.rx || (s.tries() && i == s.cursor()) || (!s.tries() && !s.lacks()),
    ensures
        s.with_shard(i, u).sight_inv(),
{
    let t = s.with_shard(i, u);
    let n = s.shards.len() as int;
    let start = s.begun.cursor as int;
    if s.tries() {
        let all = s.misses.push(true);
        assert(all.drop_last() =~= s.misses);
        crate::sharded::law_sweep_tries_every_shard_once(s.begun, all);
        assert forall|k: int| 0 <= k < t.misses.len() implies !#[trigger] t.expects_from(
            crate::sharded::after(start, k, n),
        ) by {
            crate::sharded::lemma_after(start, k, n);
            crate::sharded::lemma_distance_of(start, k, n);
            crate::sharded::lemma_distance_of(start, s.misses.len() as int, n);
            assert(!s.expects_from(crate::sharded::after(start, k, n)));
        }
    }
    if s.lacks() {
        assert forall|j: int| 0 <= j < n implies !#[trigger] t.expects_from(j) by {
            assert(!s.expects_from(j));
        }
    }
}

proof fn lemma_sight_answered<T>(s: System<T>)
    requires
        s.inv(),
        s.sight_inv(),
        s.has_answer(),
    ensures
        s.answered().sight_inv(),
{
    let t = s.answered();
    let n = s.shards.len() as int;
    let c = s.cursor();
    let start = s.begun.cursor as int;
    let gone = s.shards[c].rx.stage == RecvStage::Disconnected;
    lemma_shard_sound(s, c);
    if s.shards[c].rx.stage != RecvStage::Got {
        let all = s.misses.push(gone);
        assert(all.drop_last() =~= s.misses);
        crate::sharded::law_sweep_tries_every_shard_once(s.begun, all);
        assert forall|k: int| 0 <= k < all.len() implies !#[trigger] t.expects_from(
            crate::sharded::after(start, k, n),
        ) by {
            crate::sharded::lemma_after(start, k, n);
            if k < s.misses.len() {
                assert(!s.expects_from(crate::sharded::after(start, k, n)));
            }
        }
        if t.lacks() {
            assert forall|j: int| 0 <= j < n implies !#[trigger] t.expects_from(j) by {
                crate::sharded::lemma_distance(start, j, n);
                let k = crate::sharded::distance(start, j, n);
                assert(!t.expects_from(crate::sharded::after(start, k, n)));
            }
        }
    }
}

proof fn lemma_sight_step<T>(s: System<T>, t: System<T>)
    requires
        s.inv(),
        s.sight_inv(),
        s.step(t),
    ensures
        t.sight_inv(),
{
    if exists|i: int, u: spsc::interleave::System<T>|
        #[trigger] s.producer_moves(i, u) && t == s.with_shard(i, u) {
        let (i, u) = choose|i: int, u: spsc::interleave::System<T>|
            #[trigger] s.producer_moves(i, u) && t == s.with_shard(i, u);
        lemma_sight_elsewhere(s, i, u);
    } else if exists|u: spsc::interleave::System<T>| #[trigger]
        s.consumer_moves(u) && t == s.with_shard(s.cursor(), u) {
        let u = choose|u: spsc::interleave::System<T>| #[trigger]
            s.consumer_moves(u) && t == s.with_shard(s.cursor(), u);
        lemma_sight_elsewhere(s, s.cursor(), u);
    } else if s.has_answer() && t == s.answered() {
        lemma_sight_answered(s);
    } else if exists|i: int, u: spsc::interleave::System<T>|
        #[trigger] s.drop_moves(i, u) && t == s.with_shard(i, u) {
        let (i, u) = choose|i: int, u: spsc::interleave::System<T>|
            #[trigger] s.drop_moves(i, u) && t == s.with_shard(i, u);
        lemma_sight_elsewhere(s, i, u);
    }
}

proof fn lemma_sight_run<T>(trace: Seq<System<T>>, i: int)
    requires
        System::run(trace),
        0 <= i < trace.len(),
    ensures
        trace[i].inv(),
        trace[i].sight_inv(),
    decreases i,
{
    lemma_run(trace, i);
    if i > 0 {
        lemma_sight_run(trace, i - 1);
        assert(System::steps_to(trace, i));
        lemma_sight_step(trace[i - 1], trace[i]);
    }
}

/// An access of the consumer to a shard of which it expects an item leaves it expecting one.
proof fn lemma_expects_access<T>(
    shard: spsc::interleave::System<T>,
    ev: spsc::Event,
    u: spsc::interleave::System<T>,
)
    requires
        shard.reachable(),
        shard.rx_steps(ev, u),
        shard.rx.head < shard.rx.cached_tail || shard.rx.value is Some,
    ensures
        u.rx.head < u.rx.cached_tail || u.rx.value is Some,
{
    spsc::interleave::law_handles_stay_sound(shard);
    spsc::interleave::law_steps_are_reachable(shard, u);
    spsc::interleave::law_handles_stay_sound(u);
}

/// An expected item comes, or stays expected.
proof fn lemma_expects_step<T>(s: System<T>, t: System<T>, i: int)
    requires
        s.inv(),
        s.step(t),
        0 <= i < s.shards.len(),
        s.expects_from(i),
    ensures
        !s.finds_empty(i),
        t.expects_from(i) || (t.got.len() == s.got.len() + 1 && t.got.last().0 == i),
{
    assert(s.shard_inv(i));
    lemma_shard_sound(s, i);
    if exists|j: int, u: spsc::interleave::System<T>|
        #[trigger] s.producer_moves(j, u) && t == s.with_shard(j, u) {
        let (j, u) = choose|j: int, u: spsc::interleave::System<T>|
            #[trigger] s.producer_moves(j, u) && t == s.with_shard(j, u);
        assert(u.rx == s.shards[j].rx);
    } else if exists|u: spsc::interleave::System<T>| #[trigger]
        s.consumer_moves(u) && t == s.with_shard(s.cursor(), u) {
        let u = choose|u: spsc::interleave::System<T>| #[trigger]
            s.consumer_moves(u) && t == s.with_shard(s.cursor(), u);
        let shard = s.shards[s.cursor()];
        if i == s.cursor() && exists|ev: spsc::Event| #[trigger] shard.rx_steps(ev, u) {
            let ev = choose|ev: spsc::Event| #[trigger] shard.rx_steps(ev, u);
            lemma_expects_access(shard, ev, u);
        }
    } else if s.has_answer() && t == s.answered() {
    } else if exists|j: int, u: spsc::interleave::System<T>|
        #[trigger] s.drop_moves(j, u) && t == s.with_shard(j, u) {
        let (j, u) = choose|j: int, u: spsc::interleave::System<T>|
            #[trigger] s.drop_moves(j, u) && t == s.with_shard(j, u);
        let shard = s.shards[j];
        if i == j && exists|ev: spsc::Event| #[trigger] shard.rx_steps(ev, u) {
            let ev = choose|ev: spsc::Event| #[trigger] shard.rx_steps(ev, u);
            lemma_expects_access(shard, ev, u);
        }
    }
}

/// Until it comes, an item in sight stays expected.
proof fn lemma_stays_expected<T>(trace: Seq<System<T>>, a: int, b: int, i: int)
    requires
        System::run(trace),
        0 <= a <= b < trace.len(),
        0 <= i < trace[a].shards.len(),
        trace[a].expects_from(i),
        !served(trace[a].got, trace[b].got, i, trace[a].patience(i)),
    ensures
        trace[b].shards.len() == trace[a].shards.len(),
        trace[a].got.is_prefix_of(trace[b].got),
        trace[b].expects_from(i),
        trace[b].got.len() + trace[b].patience(i) <= trace[a].got.len() + trace[a].patience(i),
    decreases b,
{
    if a < b {
        let s = trace[b - 1];
        let t = trace[b];
        let before = trace[a].got;
        let max = trace[a].patience(i);
        lemma_run(trace, b - 1);
        assert(System::steps_to(trace, b));
        lemma_round_moves(s, t);
        assert(forall|k: int| 0 <= k < s.got.len() ==> t.got[k] == s.got[k]) by {
            assert(t.got == s.got || t.got.drop_last() == s.got);
        }
        if served(before, s.got, i, max) {
            let k = choose|k: int|
                before.len() <= k < s.got.len() && k <= before.len() + max && s.got[k].0 == i;
            assert(t.got[k].0 == i);
        }
        lemma_stays_expected(trace, a, b - 1, i);
        lemma_expects_step(s, t, i);
        lemma_patience_step(s, t, i);
        if t.got.len() > s.got.len() && t.got.last().0 == i {
            let k = t.got.len() - 1;
            assert(t.got[k].0 == i);
        }
    }
}

/// An item that the consumer knows of is not put off for ever, whatever the producers do: an
/// item of its shard comes before the consumer has got more than `VISIT_BUDGET` items for each
/// other shard, and until then no receive fails and none waits.
pub proof fn law_an_item_in_sight_has_its_turn<T>(trace: Seq<System<T>>, a: int, b: int, i: int)
    requires
        System::run(trace),
        0 <= a <= b < trace.len(),
        0 <= i < trace[a].shards.len(),
        trace[a].has_in_sight(i),
    ensures
        ({
            let max = (trace[a].shards.len() - 1) * VISIT_BUDGET;
            ||| served(trace[a].got, trace[b].got, i, max)
            ||| trace[b].got.len() <= trace[a].got.len() + max && !trace[b].lacks()
        }),
{
    let max = (trace[a].shards.len() - 1) * VISIT_BUDGET;
    lemma_run(trace, a);
    crate::sharded::lemma_wait_begun(trace[a].search.sweep, i);
    if served(trace[a].got, trace[b].got, i, trace[a].patience(i)) {
        let k = choose|k: int|
            trace[a].got.len() <= k < trace[b].got.len() && k <= trace[a].got.len()
                + trace[a].patience(i) && trace[b].got[k].0 == i;
        assert(k <= trace[a].got.len() + max);
        assert(trace[b].got[k].0 == i);
    } else {
        lemma_stays_expected(trace, a, b, i);
        lemma_sight_run(trace, b);
        assert(trace[b].expects_from(i));
    }
}

/// The consumer has got `g` items in a row from shard `i`, and has not passed shard `j`.
spec fn stays(sweep: Sweep, g: int, i: int, j: int) -> bool {
    let n = sweep.shards as int;
    &&& g <= VISIT_BUDGET
    &&& g > 0 ==> {
        ||| sweep.cursor == i && g <= sweep.budget
        ||| {
            &&& sweep.budget == 0
            &&& crate::sharded::distance(sweep.cursor as int, j, n) < crate::sharded::distance(
                i,
                j,
                n,
            )
        }
    }
}

proof fn lemma_stays_settled(sweep: Sweep, next: Sweep, g: int, i: int, j: int)
    requires
        sweep.cursor < sweep.shards,
        0 <= i < sweep.shards,
        0 <= j < sweep.shards,
        i != j,
        stays(sweep, g, i, j),
        settles(sweep, next),
    ensures
        stays(next, g, i, j),
{
    crate::sharded::lemma_next(sweep.cursor as int, sweep.shards as int);
    crate::sharded::lemma_apart(i, j, sweep.shards as int);
}

proof fn lemma_stays_step<T>(s: System<T>, t: System<T>, g: int, i: int, j: int)
    requires
        s.inv(),
        s.step(t),
        0 <= i < s.shards.len(),
        0 <= j < s.shards.len(),
        i != j,
        0 <= g,
        !s.finds_empty(j),
        stays(s.search.sweep, g, i, j),
        t.got.len() > s.got.len() ==> t.got.last().0 == i,
    ensures
        stays(t.search.sweep, g + t.got.len() - s.got.len(), i, j),
{
    let sweep = s.search.sweep;
    let next = t.search.sweep;
    let n = sweep.shards as int;
    lemma_round_moves(s, t);
    crate::sharded::lemma_next(sweep.cursor as int, n);
    if t.got == s.got && settles(sweep, next) {
        lemma_stays_settled(sweep, next, g, i, j);
    } else if t.got.len() > s.got.len() {
        lemma_stays_settled(sweep.delivered(), next, g + 1, i, j);
    } else {
        crate::sharded::lemma_apart(sweep.cursor as int, j, n);
        lemma_stays_settled(sweep.moved(), next, g, i, j);
    }
}

proof fn lemma_stays_run<T>(trace: Seq<System<T>>, a: int, b: int, i: int, j: int)
    requires
        System::run(trace),
        0 <= a <= b < trace.len(),
        0 <= i < trace[a].shards.len(),
        0 <= j < trace[a].shards.len(),
        i != j,
        forall|k: int| a <= k < b ==> !(#[trigger] trace[k]).finds_empty(j),
        forall|k: int|
            trace[a].got.len() <= k < trace[b].got.len() ==> (#[trigger] trace[b].got[k]).0 == i,
    ensures
        trace[b].shards.len() == trace[a].shards.len(),
        trace[a].got.len() <= trace[b].got.len(),
        stays(trace[b].search.sweep, trace[b].got.len() - trace[a].got.len(), i, j),
    decreases b,
{
    if a < b {
        let s = trace[b - 1];
        let t = trace[b];
        lemma_run(trace, b - 1);
        assert(System::steps_to(trace, b));
        lemma_round_moves(s, t);
        assert forall|k: int| trace[a].got.len() <= k < s.got.len() implies (
        #[trigger] s.got[k]).0 == i by {
            assert(t.got == s.got || t.got.drop_last() == s.got);
            assert(t.got[k] == s.got[k]);
        }
        lemma_stays_run(trace, a, b - 1, i, j);
        if t.got.len() > s.got.len() {
            assert(t.got.last() == t.got[t.got.len() - 1]);
        }
        lemma_stays_step(s, t, trace[b - 1].got.len() - trace[a].got.len(), i, j);
    }
}

/// A shard keeps the consumer for `VISIT_BUDGET` items and no more, unless every other shard is
/// found empty in between: while some other shard is not, no more than that come from one shard
/// in a row.
pub proof fn law_a_turn_ends_unless_the_others_are_empty<T>(
    trace: Seq<System<T>>,
    a: int,
    b: int,
    i: int,
    j: int,
)
    requires
        System::run(trace),
        0 <= a <= b < trace.len(),
        0 <= i < trace[a].shards.len(),
        0 <= j < trace[a].shards.len(),
        i != j,
        forall|k: int| a <= k < b ==> !(#[trigger] trace[k]).finds_empty(j),
        forall|k: int|
            trace[a].got.len() <= k < trace[b].got.len() ==> (#[trigger] trace[b].got[k]).0 == i,
    ensures
        trace[b].got.len() <= trace[a].got.len() + VISIT_BUDGET,
{
    lemma_stays_run(trace, a, b, i, j);
}

} // verus!
