use bounded_spsc_queue::{can_make, make, try_make, Consumer, Producer};
use std::cell::RefCell;
use std::rc::Rc;
use std::sync::Arc;

#[test]
fn test_producer_push() {
    let (mut p, _) = make(10);

    for i in 0..9 {
        p.push(i);
        assert!(p.capacity() == 10);
        assert!(p.size() == i + 1);
    }
}

#[test]
fn test_consumer_pop() {
    let (mut p, mut c) = make(10);

    for i in 0..9 {
        p.push(i);
        assert!(p.capacity() == 10);
        assert!(p.size() == i + 1);
    }

    for i in 0..9 {
        assert!(c.size() == 9 - i);
        let t = c.pop();
        assert!(c.capacity() == 10);
        assert!(c.size() == 9 - i - 1);
        assert!(t == Some(i));
    }
}

#[test]
fn test_try_push() {
    let (mut p, _) = make(10);

    for i in 0..10 {
        p.push(i);
        assert!(p.capacity() == 10);
        assert!(p.size() == i + 1);
    }

    match p.try_push(10) {
        Some(v) => {
            assert!(v == 10);
        }
        None => assert!(false, "Queue should not have accepted another write!"),
    }
}

#[test]
fn test_try_poll() {
    let (mut p, mut c) = make(10);

    match c.try_pop() {
        Some(_) => {
            assert!(false, "Queue was empty but a value was read!")
        }
        None => {}
    }

    p.push(123);

    match c.try_pop() {
        Some(v) => assert!(v == 123),
        None => assert!(false, "Queue was not empty but poll() returned nothing!"),
    }

    match c.try_pop() {
        Some(_) => {
            assert!(false, "Queue was empty but a value was read!")
        }
        None => {}
    }
}

#[test]
fn push_then_pop_in_one_thread() {
    let (mut p, mut c) = make(100);
    assert_eq!(p.push(123), None);
    assert_eq!(c.pop(), Some(123));
}

#[test]
fn capacity_does_not_depend_on_usage() {
    let (mut p, mut c) = make(100);
    assert_eq!(p.capacity(), 100);
    assert_eq!(c.capacity(), 100);
    p.push(123);
    assert_eq!(p.capacity(), 100);
    c.pop();
    assert_eq!(c.capacity(), 100);
    assert_eq!(p.capacity(), 100);
}

#[test]
fn size_and_free_space_follow_the_calls() {
    let (mut p, mut c) = make(100);
    assert_eq!(p.size(), 0);
    assert_eq!(p.free_space(), 100);
    p.push(123);
    assert_eq!(p.size(), 1);
    assert_eq!(c.size(), 1);
    assert_eq!(p.free_space(), 99);
    for i in 0..9 {
        p.push(i);
    }
    assert_eq!(c.size(), 10);
    c.pop();
    assert_eq!(p.size(), 9);
    assert_eq!(c.size(), 9);
    assert_eq!(p.free_space(), 91);
}

#[test]
fn free_space_is_what_still_fits() {
    let (mut p, mut c) = make(5);
    p.push(1);
    p.push(2);
    assert_eq!(c.pop(), Some(1));
    let free = p.free_space();
    assert_eq!(free, 4);
    for i in 0..free {
        assert_eq!(p.try_push(10 + i), None);
    }
    assert_eq!(p.free_space(), 0);
    assert_eq!(p.try_push(99), Some(99));
    assert_eq!(p.size(), 5);
}

#[test]
fn refused_value_leaves_the_queue_alone() {
    let (mut p, mut c) = make(2);
    assert_eq!(p.try_push("a"), None);
    assert_eq!(p.try_push("b"), None);
    assert_eq!(p.try_push("c"), Some("c"));
    assert_eq!(c.size(), 2);
    assert_eq!(c.try_pop(), Some("a"));
    assert_eq!(c.try_pop(), Some("b"));
    assert_eq!(c.try_pop(), None);
}

#[test]
fn bounded_waits_give_up() {
    let (mut p, mut c) = make(1);
    assert_eq!(c.pop_within(3), None);
    assert_eq!(p.push_within(7, 0), Some(7));
    assert_eq!(p.size(), 0);
    assert_eq!(p.push_within(7, 3), None);
    assert_eq!(p.push_within(8, 3), Some(8));
    assert_eq!(c.pop_within(0), None);
    assert_eq!(c.pop_within(1), Some(7));
    assert_eq!(c.pop_within(1), None);
}

#[test]
fn queue_without_capacity_takes_nothing() {
    let (mut p, mut c) = make(0);
    assert_eq!(p.capacity(), 0);
    assert_eq!(p.free_space(), 0);
    assert_eq!(p.try_push(1), Some(1));
    assert_eq!(p.push_within(1, 2), Some(1));
    assert_eq!(p.size(), 0);
    assert_eq!(c.try_pop(), None);
}

#[test]
fn values_stay_in_order_over_many_rounds() {
    let (mut p, mut c) = make(500);
    let mut next = 0;
    let mut expected = 0;
    while expected < 100000 {
        while next < 100000 && p.try_push(next).is_none() {
            next += 1;
        }
        for _ in 0..7 {
            if let Some(v) = c.try_pop() {
                assert_eq!(v, expected);
                expected += 1;
            }
        }
    }
    assert_eq!(c.try_pop(), None);
}

#[test]
fn popped_values_are_handed_over() {
    let value = Arc::new(5);
    let (mut p, mut c) = make(3);
    p.push(value.clone());
    assert_eq!(Arc::strong_count(&value), 2);
    drop(c.pop());
    assert_eq!(Arc::strong_count(&value), 1);
}

#[test]
fn queued_values_outlive_one_handle_only() {
    let value = Arc::new(5);
    let (mut p, mut c) = make(10);
    for _ in 0..4 {
        p.push(value.clone());
    }
    drop(c);
    assert_eq!(Arc::strong_count(&value), 5);
    drop(p);
    assert_eq!(Arc::strong_count(&value), 1);

    let (mut p, mut c) = make(2);
    for _ in 0..3 {
        p.push(value.clone());
        p.push(value.clone());
        c.pop();
        c.pop();
    }
    p.push(value.clone());
    drop(p);
    assert_eq!(Arc::strong_count(&value), 2);
    assert_eq!(c.pop(), Some(value.clone()));
    drop(c);
    assert_eq!(Arc::strong_count(&value), 1);
}

fn is_send<T: Send>(_: &T) {}

#[test]
fn handles_can_be_sent() {
    let (mut p, mut c): (Producer<String>, Consumer<String>) = make(4);
    is_send(&p);
    is_send(&c);
    p.push(String::from("x"));
    assert_eq!(c.pop(), Some(String::from("x")));
}

struct Noted {
    name: &'static str,
    log: Rc<RefCell<Vec<&'static str>>>,
}

impl Drop for Noted {
    fn drop(&mut self) {
        self.log.borrow_mut().push(self.name);
    }
}

#[test]
fn queued_values_are_destroyed_in_order_after_a_wrap() {
    let log = Rc::new(RefCell::new(Vec::new()));
    let noted = |name| Noted { name, log: log.clone() };

    let (mut p, mut c) = make(2);
    p.push(noted("a"));
    p.push(noted("b"));
    drop(c.pop());
    assert_eq!(*log.borrow(), vec!["a"]);
    p.push(noted("c"));
    drop(p);
    assert_eq!(*log.borrow(), vec!["a"]);
    drop(c);
    assert_eq!(*log.borrow(), vec!["a", "b", "c"]);
}

#[test]
fn values_are_destroyed_once_each() {
    let log = Rc::new(RefCell::new(Vec::new()));
    let names = ["a", "b", "c", "d", "e", "f"];

    let (mut p, mut c) = make(3);
    for i in 0..3 {
        p.push(Noted { name: names[i], log: log.clone() });
    }
    let refused = p.try_push(Noted { name: "x", log: log.clone() });
    assert!(refused.is_some());
    drop(refused);
    for i in 3..5 {
        drop(c.pop());
        p.push(Noted { name: names[i], log: log.clone() });
    }
    drop(c);
    drop(p);
    assert_eq!(*log.borrow(), vec!["x", "a", "b", "c", "d", "e"]);
}

#[test]
fn empty_queue_destroys_nothing() {
    let log = Rc::new(RefCell::new(Vec::new()));
    let (mut p, mut c) = make(4);
    p.push(Noted { name: "a", log: log.clone() });
    drop(c.pop());
    drop(p);
    drop(c);
    assert_eq!(*log.borrow(), vec!["a"]);
}

#[test]
fn request_whose_size_overflows_makes_no_queue() {
    assert!(can_make::<u64>(100));
    assert!(can_make::<u64>(0));
    assert!(!can_make::<u64>(usize::MAX / 16 + 2));
    assert!(!can_make::<u8>(usize::MAX / 2 + 2));
    assert!(try_make::<u64>(usize::MAX / 4 + 2).is_none());
    assert!(try_make::<u64>(usize::MAX).is_none());

    match try_make::<u64>(100) {
        Some((mut p, mut c)) => {
            assert_eq!(p.capacity(), 100);
            assert_eq!(p.push(5), None);
            assert_eq!(c.pop(), Some(5));
        }
        None => panic!("a small queue can be made"),
    }
}

#[test]
fn value_with_a_number_arrives_with_that_number() {
    let (mut p, mut c) = make(3);
    let mut sent = 0;
    let mut received = 0;
    for round in 0..300 {
        for _ in 0..(round % 4) {
            if p.try_push(sent).is_none() {
                sent += 1;
            }
        }
        for _ in 0..(round % 3) {
            if let Some(v) = c.try_pop() {
                assert_eq!(v, received);
                received += 1;
            }
        }
        assert!(p.size() <= sent);
        assert!(p.free_space() + sent >= 3);
        assert_eq!(p.size(), sent - received);
        assert_eq!(c.size(), sent - received);
    }
    assert!(received > 100);
}
