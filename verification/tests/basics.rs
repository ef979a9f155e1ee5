use ultima_rings::atomic::UnsafeCell;
use ultima_rings::index::{is_power_of_two, slot_of};
use ultima_rings::mpsc::mark_of;
use ultima_rings::notify::{Parker, WaiterList};
use ultima_rings::{assert_cap, RecvError, SendError, TryRecvError, TrySendError};

#[test]
fn errors_say_what_happened() {
    assert_eq!(TrySendError::Full(1).to_string(), "ring is full");
    assert_eq!(TrySendError::Disconnected(1).to_string(), "receiver disconnected");
    assert_eq!(SendError(1).to_string(), "receiver disconnected");
    assert_eq!(TryRecvError::Empty.to_string(), "ring is empty");
    assert_eq!(TryRecvError::Disconnected.to_string(), "senders disconnected");
    assert_eq!(RecvError.to_string(), "senders disconnected");
}

#[test]
fn capacities_are_positive_powers_of_two() {
    for cap in [1usize, 2, 4, 8, 512, 1024, 1 << 40] {
        assert!(assert_cap(cap));
    }
    for cap in [0usize, 3, 5, 6, 7, 100, 1023, usize::MAX] {
        assert!(!assert_cap(cap));
    }
    assert!(assert_cap(1 << 63));
    assert!(!is_power_of_two(0));
    assert!(is_power_of_two(64));
    assert!(!is_power_of_two(65));
}

#[test]
fn sequence_numbers_wrap_round_the_slots() {
    assert_eq!(slot_of(0, 7), 0);
    assert_eq!(slot_of(7, 7), 7);
    assert_eq!(slot_of(8, 7), 0);
    assert_eq!(slot_of(1003, 7), 3);
    assert_eq!(slot_of(usize::MAX, 7), 7);
    assert_eq!(slot_of(12345, 0), 0);
}

#[test]
fn marks_tell_the_rounds_apart() {
    assert_eq!(mark_of(0, 8), 0);
    assert_eq!(mark_of(7, 8), 0);
    assert_eq!(mark_of(8, 8), 1);
    assert_eq!(mark_of(803, 8), 100);
    assert_eq!(mark_of(5, 1), 5);
    assert_eq!(mark_of(usize::MAX, 1), -1);
}

#[test]
fn a_cell_hands_its_value_to_a_closure() {
    let mut cell = UnsafeCell::new(3u32);
    assert_eq!(cell.with(|v| *v + 1), 4);
    assert_eq!(cell.with_mut(|v| std::mem::replace(v, 10)), 3);
    assert_eq!(cell.with(|v| *v), 10);
}

#[test]
fn a_parker_is_woken_once() {
    let mut p = Parker::new();
    assert_eq!(p.wake(), None);
    p.prepare_park(5);
    assert_eq!(p, Parker { parked: true, slot: Some(5) });
    assert_eq!(p.wake(), Some(5));
    assert_eq!(p.wake(), None);
    assert_eq!(p, Parker { parked: false, slot: None });
}

#[test]
fn a_cancelled_parker_is_not_woken() {
    let mut p = Parker::new();
    p.prepare_park(5);
    p.cancel();
    assert_eq!(p.wake(), None);
    assert_eq!(p, Parker { parked: false, slot: Some(5) });
    p.prepare_park(6);
    p.park();
    assert_eq!(p.wake(), None);
    assert_eq!(p.take(), Some(6));
    assert_eq!(p.take(), None);
}

#[test]
fn a_parker_is_announced_in_two_parts() {
    let mut p = Parker::new();
    p.register(9);
    assert_eq!(p.wake(), None);
    p.announce();
    assert_eq!(p.wake(), Some(9));
}

#[test]
fn a_waiter_list_is_woken_as_a_whole() {
    let mut w = WaiterList::new();
    assert_eq!(w.wake_all(), Vec::<u64>::new());
    w.prepare_wait(3);
    w.prepare_wait(1);
    w.prepare_wait(3);
    assert_eq!(w.wake_all(), vec![3, 1, 3]);
    assert_eq!(w.wake_all(), Vec::<u64>::new());
    w.register(4);
    assert_eq!(w.wake_all(), Vec::<u64>::new());
    w.announce();
    assert!(w.swap());
    assert!(!w.swap());
    assert_eq!(w.take(), vec![4]);
    assert_eq!(w.take(), Vec::<u64>::new());
}
