//! The notify layer: who sleeps, and who is to be woken.
//!
//! A thread that is about to sleep first leaves its name, then raises a flag, then looks at
//! the ring once more, and only then sleeps. A thread that has changed the ring looks at
//! the flag afterwards, lowers it and takes the name. A thread is named by a number; waking
//! the thread with that name is left to the caller.

use vstd::prelude::*;

verus! {

/// The two sides of a ring.
#[derive(Debug, Clone, Copy, PartialEq, Eq, Hash)]
pub enum Side {
    Consumer,
    Producer,
}

/// How far a wake has come: look at the flag, lower it, take the name and unpark.
#[derive(Debug, Clone, Copy, PartialEq, Eq, Hash)]
pub enum Waking {
    Load,
    Clear,
    Take,
}

/// How far a wake of a whole list has come: lower the flag, take the names and unpark.
#[derive(Debug, Clone, Copy, PartialEq, Eq, Hash)]
pub enum Rousing {
    Swap,
    Take,
}

/// Room for one waiting thread (the single consumer, or the producer of a ring with one).
#[derive(Debug, Clone, Copy, PartialEq, Eq, Hash)]
pub struct Parker {
    /// A thread has announced that it is going to sleep.
    pub parked: bool,
    /// The name that the last thread left.
    pub slot: Option<u64>,
}

impl Parker {
    /// The parker after a wake.
    pub open spec fn woken(self) -> Parker {
        if self.parked {
            Parker { parked: false, slot: None }
        } else {
            self
        }
    }

    /// The thread that a wake has to unpark.
    pub open spec fn waiter(self) -> Option<u64> {
        if self.parked {
            self.slot
        } else {
            None
        }
    }

    /// A parker that nobody waits on.
    pub fn new() -> (p: Self)
        ensures
            p == (Parker { parked: false, slot: None }),
    {
        Parker { parked: false, slot: None }
    }

    /// Leaves the name `me`.
    pub fn register(&mut self, me: u64)
        ensures
            *final(self) == (Parker { slot: Some(me), ..*old(self) }),
    {
        self.slot = Some(me);
    }

    /// Raises the flag.
    pub fn announce(&mut self)
        ensures
            *final(self) == (Parker { parked: true, ..*old(self) }),
    {
        self.parked = true;
    }

    /// Registers the intent of thread `me` to sleep. It has to look at what it waits for
    /// once more before it does.
    pub fn prepare_park(&mut self, me: u64)
        ensures
            *final(self) == (Parker { parked: true, slot: Some(me) }),
            final(self).waiter() == Some(me),
    {
        self.register(me);
        self.announce();
    }

    /// Withdraws: the second look found something.
    pub fn cancel(&mut self)
        ensures
            *final(self) == (Parker { parked: false, ..*old(self) }),
            final(self).waiter() is None,
    {
        self.parked = false;
    }

    /// Lowers the flag when the sleep is over, whatever ended it.
    pub fn park(&mut self)
        ensures
            *final(self) == (Parker { parked: false, ..*old(self) }),
            final(self).waiter() is None,
    {
        self.parked = false;
    }

    /// Takes the name.
    pub fn take(&mut self) -> (t: Option<u64>)
        ensures
            t == old(self).slot,
            *final(self) == (Parker { slot: None, ..*old(self) }),
    {
        let t = self.slot;
        self.slot = None;
        t
    }

    /// Returns the thread to unpark, if one has announced itself.
    pub fn wake(&mut self) -> (t: Option<u64>)
        ensures
            t == old(self).waiter(),
            *final(self) == old(self).woken(),
            old(self).parked ==> t == old(self).slot,
            final(self).waiter() is None,
    {
        if self.parked {
            self.parked = false;
            self.take()
        } else {
            None
        }
    }
}

/// Room for any number of waiting threads (producers of a full ring with several).
#[derive(Debug, PartialEq, Eq)]
pub struct WaiterList {
    /// A thread has announced that it is going to sleep.
    pub waiting: bool,
    /// The names that were left since the last wake.
    pub list: Vec<u64>,
}

impl WaiterList {
    /// The threads that a wake has to unpark.
    pub open spec fn to_wake(self) -> Seq<u64> {
        if self.waiting {
            self.list@
        } else {
            Seq::empty()
        }
    }

    /// A list that nobody is on.
    pub fn new() -> (w: Self)
        ensures
            !w.waiting,
            w.list@ == Seq::<u64>::empty(),
            w.to_wake() == Seq::<u64>::empty(),
    {
        WaiterList { waiting: false, list: Vec::new() }
    }

    /// Leaves the name `me`.
    pub fn register(&mut self, me: u64)
        ensures
            final(self).list@ == old(self).list@.push(me),
            final(self).waiting == old(self).waiting,
    {
        self.list.push(me);
    }

    /// Raises the flag.
    pub fn announce(&mut self)
        ensures
            final(self).waiting,
            final(self).list@ == old(self).list@,
    {
        self.waiting = true;
    }

    /// Registers the intent of thread `me` to sleep. It has to look at what it waits for
    /// once more before it does.
    pub fn prepare_wait(&mut self, me: u64)
        ensures
            final(self).waiting,
            final(self).list@ == old(self).list@.push(me),
            final(self).to_wake() == old(self).list@.push(me),
            old(self).waiting ==> final(self).to_wake() == old(self).to_wake().push(me),
    {
        self.register(me);
        self.announce();
    }

    /// Lowers the flag and tells whether it was raised.
    pub fn swap(&mut self) -> (was: bool)
        ensures
            was == old(self).waiting,
            !final(self).waiting,
            final(self).list@ == old(self).list@,
    {
        let was = self.waiting;
        self.waiting = false;
        was
    }

    /// Takes all names, in the order in which they were left.
    pub fn take(&mut self) -> (names: Vec<u64>)
        ensures
            names@ == old(self).list@,
            final(self).list@ == Seq::<u64>::empty(),
            final(self).waiting == old(self).waiting,
    {
        let mut names: Vec<u64> = Vec::new();
        std::mem::swap(&mut names, &mut self.list);
        names
    }

    /// Returns the threads to unpark: all of them, if one has announced itself. Each looks
    /// again at what it waits for.
    pub fn wake_all(&mut self) -> (names: Vec<u64>)
        ensures
            !final(self).waiting,
            names@ == if old(self).waiting {
                old(self).list@
            } else {
                Seq::<u64>::empty()
            },
            final(self).list@ == if old(self).waiting {
                Seq::<u64>::empty()
            } else {
                old(self).list@
            },
            names@ == old(self).to_wake(),
            final(self).to_wake() == Seq::<u64>::empty(),
    {
        if self.swap() {
            self.take()
        } else {
            Vec::new()
        }
    }
}

/// A thread that has left its name and raised the flag is unparked by the next wake, and by
/// that one only; where no flag is raised, a wake finds nobody and changes nothing.
pub proof fn law_an_announced_thread_is_woken_once(p: Parker, me: u64)
    ensures
        p.parked && p.slot == Some(me) ==> p.waiter() == Some(me),
        p.parked ==> p.waiter() == p.slot,
        !p.parked ==> p.waiter() is None && p.woken() == p,
        !p.woken().parked,
        p.woken().waiter() is None,
        p.parked ==> p.woken().slot is None,
{
}

/// Every thread that has left its name is woken by the next wake, once a flag is raised, and by
/// that one only.
pub proof fn law_all_announced_threads_are_woken(w: WaiterList, i: int)
    requires
        0 <= i < w.list@.len(),
    ensures
        w.waiting ==> w.to_wake().contains(w.list@[i]) && w.to_wake().len() == w.list@.len()
            && w.to_wake()[i] == w.list@[i],
        !w.waiting ==> w.to_wake() == Seq::<u64>::empty(),
{
}

} // verus!
