use std::cell::Cell;
use std::rc::Rc;

use ultima_rings::wait::{Rung, Turn};
use ultima_rings::{mpsc, sharded, spsc};
use ultima_rings::{RecvError, SendError, TryRecvError, TrySendError, WaitStrategy};

#[derive(Debug)]
struct Counted(Rc<Cell<usize>>);
impl Drop for Counted {
    fn drop(&mut self) {
        self.0.set(self.0.get() + 1);
    }
}

/// Data survives the disconnect.
#[test]
fn try_recv_closed_with_data_spsc_and_mpsc() {
    let (mut sh, mut tx, mut rx) = spsc::channel::<u32>(4, WaitStrategy::BusySpin);
    tx.try_send(&mut sh, 1).unwrap();
    tx.drop(&mut sh);
    assert_eq!(rx.try_recv(&mut sh), Ok(1));
    assert_eq!(rx.try_recv(&mut sh), Err(TryRecvError::Disconnected));

    let (mut sh, mut tx, mut rx) = mpsc::channel::<u32>(4, WaitStrategy::BusySpin);
    tx.try_send(&mut sh, 1).unwrap();
    tx.drop(&mut sh);
    assert_eq!(rx.try_recv(&mut sh), Ok(1));
    assert_eq!(rx.try_recv(&mut sh), Err(TryRecvError::Disconnected));
}

/// Values in a dropped ring are dropped exactly once, whether the ring was partly or
/// completely full.
#[test]
fn drop_full_ring_drops_all_values_once() {
    for produced in [1usize, 4, 8] {
        let drops = Rc::new(Cell::new(0usize));
        let (mut sh, mut tx, rx) = mpsc::channel::<Counted>(8, WaitStrategy::BusySpin);
        for _ in 0..produced {
            tx.try_send(&mut sh, Counted(Rc::clone(&drops))).unwrap();
        }
        rx.drop(&mut sh);
        tx.drop(&mut sh);
        drop(sh.drop());
        assert_eq!(drops.get(), produced);
    }
}

/// Every send flavor fails and returns the value after the receiver is gone; with shards,
/// from every shard, not just one.
#[test]
fn close_semantics_send_after_disconnect_returns_value() {
    let (mut sh, mut tx, rx) = mpsc::channel::<String>(4, WaitStrategy::BusySpin);
    rx.drop(&mut sh);
    assert_eq!(
        tx.try_send(&mut sh, "t".into()),
        Err(TrySendError::Disconnected("t".to_string()))
    );
    assert_eq!(
        tx.send(&mut sh, "b".into(), 1),
        Turn::Done(Err(SendError("b".to_string())))
    );

    let (mut sh, mut senders, rx) = sharded::channel::<String>(2, 8, WaitStrategy::BusySpin);
    rx.drop(&mut sh);
    for tx in senders.iter_mut() {
        assert_eq!(
            tx.try_send(&mut sh, "t".into()),
            Err(TrySendError::Disconnected("t".to_string()))
        );
    }
}

/// The LAST sender's drop wakes a parked receiver, whichever it is.
#[test]
fn last_sender_drop_from_thread_wakes_parked_receiver() {
    for order in 0..20usize {
        let (mut sh, tx, mut rx) = mpsc::channel::<u32>(4, WaitStrategy::Park);
        let mut txs: Vec<_> = (0..3).map(|_| tx.clone(&mut sh)).collect();
        tx.drop(&mut sh);
        assert_eq!(rx.recv(&mut sh, 7), Turn::Wait(Rung::Park));
        while !txs.is_empty() {
            assert_eq!(sh.take_unparked(), Vec::<u64>::new());
            let i = order % txs.len();
            txs.remove(i).drop(&mut sh);
        }
        assert_eq!(sh.take_unparked(), vec![7]);
        assert_eq!(rx.resume(&mut sh), Turn::Done(Err(RecvError)));
    }
}

/// Data in any shard survives all senders disconnecting.
#[test]
fn try_recv_closed_with_data() {
    let (mut sh, mut senders, mut rx) = sharded::channel::<u32>(2, 8, WaitStrategy::BusySpin);
    senders[1].try_send(&mut sh, 1).unwrap();
    for tx in senders {
        tx.drop(&mut sh);
    }
    assert_eq!(rx.try_recv(&mut sh), Ok(1));
    assert_eq!(rx.try_recv(&mut sh), Err(TryRecvError::Disconnected));
}

/// Values left in the shards are dropped exactly once when the channel dies, spread unevenly
/// across rings and including a completely full one.
#[test]
fn drop_full_rings_drop_all_values_once() {
    for (in_shard0, in_shard1) in [(1usize, 0usize), (4, 2), (4, 4)] {
        let drops = Rc::new(Cell::new(0usize));
        let (mut sh, mut senders, rx) =
            sharded::channel::<Counted>(2, 8, WaitStrategy::BusySpin);
        for _ in 0..in_shard0 {
            senders[0].try_send(&mut sh, Counted(Rc::clone(&drops))).unwrap();
        }
        for _ in 0..in_shard1 {
            senders[1].try_send(&mut sh, Counted(Rc::clone(&drops))).unwrap();
        }
        rx.drop(&mut sh);
        for tx in senders {
            tx.drop(&mut sh);
        }
        drop(sh.drop());
        assert_eq!(drops.get(), in_shard0 + in_shard1);
    }
}

/// Randomized produce/consume/close with exact drop accounting.
#[test]
fn randomized_drop_accounting_fuzz() {
    let mut seed: u64 = 0x9E3779B97F4A7C15;
    let mut next = move || {
        seed ^= seed << 13;
        seed ^= seed >> 7;
        seed ^= seed << 17;
        seed
    };
    for _ in 0..500 {
        let produce = (next() % 40) as usize;
        let consume_max = (next() % 40) as usize;
        let drops = Rc::new(Cell::new(0usize));
        let (mut sh, mut tx, mut rx) = mpsc::channel::<Counted>(16, WaitStrategy::BusySpin);
        let mut sent: usize = 0;
        for _ in 0..produce {
            match tx.try_send(&mut sh, Counted(Rc::clone(&drops))) {
                Ok(()) => sent += 1,
                Err(TrySendError::Full(v)) => drop(v),
                Err(TrySendError::Disconnected(_)) => unreachable!(),
            }
        }
        let mut consumed: usize = 0;
        for _ in 0..consume_max.min(sent) {
            if rx.try_recv(&mut sh).is_ok() {
                consumed += 1;
            }
        }
        assert_eq!(consumed, consume_max.min(sent));
        tx.drop(&mut sh);
        rx.drop(&mut sh);
        drop(sh.drop());
        // Every constructed value dropped exactly once, regardless of path:
        // rejected-full ones, consumed ones, and ring-drained ones.
        assert_eq!(drops.get(), produce);
    }
}
