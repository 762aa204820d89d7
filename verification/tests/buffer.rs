use bounded_spsc_queue::index::{next_position, next_power_of_two, slot_index};
use bounded_spsc_queue::ledger::Ledger;
use bounded_spsc_queue::memory::value_bytes;
use bounded_spsc_queue::numbered::Numbered;
use bounded_spsc_queue::wait::{after_offer, after_request, PopWait, PushWait};
use bounded_spsc_queue::Buffer;
use std::cell::RefCell;
use std::rc::Rc;

#[test]
fn ring_has_the_next_power_of_two_of_slots() {
    assert_eq!(next_power_of_two(0), 1);
    assert_eq!(next_power_of_two(1), 1);
    assert_eq!(next_power_of_two(2), 2);
    assert_eq!(next_power_of_two(3), 4);
    assert_eq!(next_power_of_two(100), 128);
    assert_eq!(next_power_of_two(128), 128);
    assert_eq!(next_power_of_two(129), 256);
    assert_eq!(next_power_of_two(usize::MAX / 2 + 1), usize::MAX / 2 + 1);

    for capacity in 0..200 {
        let buffer: Buffer<u8> = Buffer::new(capacity);
        assert_eq!(buffer.capacity(), capacity);
        assert_eq!(buffer.allocated_size(), capacity.next_power_of_two());
    }
}

#[test]
fn slots_repeat_with_the_size_of_the_ring() {
    assert_eq!(slot_index(0, 1), 0);
    assert_eq!(slot_index(12345, 1), 0);
    assert_eq!(slot_index(5, 8), 5);
    assert_eq!(slot_index(13, 8), 5);
    assert_eq!(slot_index(usize::MAX, 8), 7);
    for pos in 0..100 {
        assert_eq!(slot_index(pos, 16), pos % 16);
    }
}

#[test]
fn buffer_is_first_in_first_out() {
    let mut buffer = Buffer::new(3);
    buffer.push(1);
    buffer.push(2);
    assert_eq!(buffer.pop(), 1);
    buffer.push(3);
    buffer.push(4);
    assert_eq!(buffer.try_push(5), Some(5));
    assert_eq!(buffer.size(), 3);
    assert_eq!(buffer.free_space(), 0);
    assert_eq!(buffer.pop(), 2);
    assert_eq!(buffer.try_pop(), Some(3));
    assert_eq!(buffer.try_pop(), Some(4));
    assert_eq!(buffer.try_pop(), None);
    assert_eq!(buffer.free_space(), 3);
}

#[test]
fn capacity_bounds_the_buffer_and_not_its_slots() {
    let mut buffer = Buffer::new(5);
    assert_eq!(buffer.allocated_size(), 8);
    for i in 0..5 {
        assert_eq!(buffer.try_push(i), None);
    }
    assert_eq!(buffer.try_push(5), Some(5));
    assert_eq!(buffer.size(), 5);
}

#[test]
fn ring_goes_round_and_round() {
    let mut buffer = Buffer::new(4);
    let mut next = 0;
    let mut expected = 0;
    for round in 0..1000 {
        for _ in 0..(round % 5) {
            if buffer.try_push(next).is_none() {
                next += 1;
            }
        }
        for _ in 0..(round % 3) {
            if let Some(v) = buffer.try_pop() {
                assert_eq!(v, expected);
                expected += 1;
            }
        }
        assert_eq!(buffer.size(), next - expected);
        assert_eq!(buffer.size() + buffer.free_space(), 4);
    }
    assert!(expected > 500);
}

#[test]
fn push_and_pop_commute_in_between() {
    let mut one = Buffer::new(3);
    let mut other = Buffer::new(3);
    one.push("a");
    one.push("b");
    other.push("a");
    other.push("b");

    assert_eq!(one.try_push("c"), None);
    assert_eq!(one.try_pop(), Some("a"));
    assert_eq!(other.try_pop(), Some("a"));
    assert_eq!(other.try_push("c"), None);

    assert_eq!(one.pop(), "b");
    assert_eq!(other.pop(), "b");
    assert_eq!(one.pop(), "c");
    assert_eq!(other.pop(), "c");
}

#[test]
fn pushes_do_not_change_the_next_value() {
    let mut buffer = Buffer::new(4);
    buffer.push(7);
    for i in 0..6 {
        buffer.try_push(i);
    }
    assert_eq!(buffer.try_pop(), Some(7));
}

#[test]
fn pops_do_not_take_room() {
    let mut buffer = Buffer::new(2);
    buffer.push(1);
    for _ in 0..5 {
        buffer.try_pop();
    }
    assert_eq!(buffer.try_push(2), None);
}

#[test]
fn ledger_answers_as_its_buffer() {
    let mut ledger = Ledger::new(2);
    assert_eq!(ledger.try_pop(), None);
    assert_eq!(ledger.try_push(1), None);
    assert_eq!(ledger.try_push(2), None);
    assert_eq!(ledger.try_push(3), Some(3));
    assert_eq!(ledger.size(), 2);
    assert_eq!(ledger.free_space(), 0);
    assert_eq!(ledger.try_pop(), Some(1));
    assert_eq!(ledger.try_pop(), Some(2));
    assert_eq!(ledger.size(), 0);
}

#[test]
fn positions_wrap_around() {
    assert_eq!(next_position(0), 1);
    assert_eq!(next_position(41), 42);
    assert_eq!(next_position(usize::MAX), 0);
    assert_eq!(slot_index(usize::MAX, 4), 3);
    assert_eq!(slot_index(next_position(usize::MAX), 4), 0);
}

#[test]
fn bytes_of_the_rounded_size_can_overflow() {
    let eighth = usize::MAX / 16 + 1;
    assert_eq!(value_bytes::<u64>(eighth), Some(usize::MAX / 2 + 1));
    assert!((eighth + 1).checked_mul(8).is_some());
    assert_eq!(value_bytes::<u64>(eighth + 1), None);
    assert_eq!(value_bytes::<u64>(100), Some(1024));
    assert_eq!(value_bytes::<u8>(0), Some(1));
    assert_eq!(value_bytes::<()>(usize::MAX / 2 + 1), Some(0));
}

#[test]
fn drained_buffer_can_be_used_again() {
    let mut buffer = Buffer::new(2);
    buffer.push(1);
    buffer.push(2);
    buffer.pop();
    buffer.push(3);
    buffer.drain();
    assert_eq!(buffer.size(), 0);
    assert_eq!(buffer.try_pop(), None);
    buffer.push(4);
    assert_eq!(buffer.pop(), 4);

    let mut ledger = Ledger::new(2);
    ledger.try_push(1);
    ledger.drain();
    assert_eq!(ledger.size(), 0);
    assert_eq!(ledger.try_push(2), None);
    assert_eq!(ledger.try_pop(), Some(2));
}

#[test]
fn pops_between_pushes_only_help() {
    let mut buffer = Buffer::new(3);
    buffer.push(0);
    assert_eq!(buffer.free_space(), 2);
    assert_eq!(buffer.try_push(1), None);
    buffer.try_pop();
    buffer.try_pop();
    buffer.try_pop();
    assert_eq!(buffer.try_push(2), None);
}

#[test]
fn pushes_between_pops_only_help() {
    let mut buffer = Buffer::new(3);
    buffer.push(10);
    buffer.push(11);
    assert_eq!(buffer.try_pop(), Some(10));
    buffer.try_push(12);
    buffer.try_push(13);
    buffer.try_push(14);
    assert_eq!(buffer.try_pop(), Some(11));
}

#[test]
fn waits_go_on_while_tries_are_left() {
    assert!(matches!(after_offer::<u8>(None, 0), PushWait::Done));
    assert!(matches!(after_offer::<u8>(None, 5), PushWait::Done));
    assert!(matches!(after_offer(Some(7), 5), PushWait::Again(7)));
    assert!(matches!(after_offer(Some(7), 0), PushWait::GaveUp(7)));
    assert!(matches!(after_request(Some(7), 0), PopWait::Done(7)));
    assert!(matches!(after_request::<u8>(None, 1), PopWait::Again));
    assert!(matches!(after_request::<u8>(None, 0), PopWait::GaveUp));
}

#[test]
fn free_space_of_a_ledger_follows_its_size() {
    let mut ledger = Ledger::new(100);
    assert_eq!(ledger.free_space(), 100);
    ledger.try_push(0);
    assert_eq!(ledger.free_space(), 99);
    for i in 1..10 {
        ledger.try_push(i);
    }
    assert_eq!(ledger.free_space(), 90);
    assert_eq!(ledger.try_pop(), Some(0));
    assert_eq!(ledger.size(), 9);
    assert_eq!(ledger.free_space(), 91);
}

#[test]
fn every_round_is_like_the_first() {
    let mut buffer = Buffer::new(5);
    for round in 0..50 {
        for i in 0..(round % 6) {
            assert_eq!(buffer.try_push((round, i)), None);
        }
        for i in 0..(round % 6) {
            assert_eq!(buffer.try_pop(), Some((round, i)));
        }
        assert_eq!(buffer.try_pop(), None);
        assert_eq!(buffer.free_space(), 5);
    }
}

struct Noted {
    name: &'static str,
    log: Rc<RefCell<Vec<&'static str>>>,
}

impl Drop for Noted {
    fn drop(&mut self) {
        self.log.borrow_mut().push(self.name);
    }
}

#[test]
fn buffer_destroys_its_values_oldest_first() {
    let log = Rc::new(RefCell::new(Vec::new()));
    let noted = |name| Noted { name, log: log.clone() };

    let mut buffer = Buffer::new(2);
    buffer.push(noted("a"));
    buffer.push(noted("b"));
    drop(buffer.pop());
    buffer.push(noted("c"));
    drop(buffer);
    assert_eq!(*log.borrow(), vec!["a", "b", "c"]);

    let mut ledger = Ledger::new(2);
    ledger.try_push(noted("d"));
    ledger.try_push(noted("e"));
    drop(ledger.try_pop());
    ledger.try_push(noted("f"));
    drop(ledger);
    assert_eq!(*log.borrow(), vec!["a", "b", "c", "d", "e", "f"]);
}

#[test]
fn numbered_ledger_serves_the_number_that_is_up() {
    let mut ledger = Numbered::new(2);
    assert_eq!(ledger.offer(1, "b"), Some("b"));
    assert_eq!(ledger.offer(0, "a"), None);
    assert_eq!(ledger.offer(0, "a"), Some("a"));
    assert_eq!(ledger.offer(1, "b"), None);
    assert_eq!(ledger.offer(2, "c"), Some("c"));
    assert_eq!(ledger.size(), 2);
    assert_eq!(ledger.sent_size(2), 2);
    assert_eq!(ledger.sent_size(1), 0);
    assert_eq!(ledger.free_space(2), 0);
    assert_eq!(ledger.free_space(1), 2);
    assert_eq!(ledger.request(1), None);
    assert_eq!(ledger.request(0), Some("a"));
    assert_eq!(ledger.request(0), None);
    assert_eq!(ledger.free_space(2), 1);
    ledger.drain();
    assert_eq!(ledger.size(), 0);
    assert_eq!(ledger.request(2), None);
    assert_eq!(ledger.offer(2, "c"), None);
    assert_eq!(ledger.request(2), Some("c"));
    assert_eq!(ledger.offer(u64::MAX, "z"), Some("z"));
}
