use linked_lists::doubly_linked::DoublyLinkedList;

#[test]
fn test_push_front() {
    let mut list = DoublyLinkedList::new();
    list.push_front(String::from("first"));
    list.push_front(String::from("second"));
    assert_eq!(list.peek_front().unwrap(), "second");
    assert_eq!(list.peek_back().unwrap(), "first");
}

#[test]
fn test_push_back() {
    let mut list = DoublyLinkedList::new();
    list.push_back(String::from("first"));
    list.push_front(String::from("second"));
    list.push_back(String::from("third"));
    let mut iter = list.iter();
    let head = iter.next().unwrap();
    assert_eq!(head.elem(), "second");
    assert_eq!(iter.next().unwrap().elem(), "first");
    assert_eq!(list.peek_back().unwrap(), "third");
}

#[test]
fn test_pop() {
    let mut list = DoublyLinkedList::new();
    list.push_front(String::from("first"));
    list.push_front(String::from("second"));
    list.push_back(String::from("third"));
    let first = list.pop_front();
    assert_eq!(first.unwrap(), "second");
    let first = list.pop_back();
    assert_eq!(first.unwrap(), "third");
    let first = list.pop_back();
    assert_eq!(first.unwrap(), "first");
    let first = list.pop_front();
    assert!(first.is_none());
}

#[test]
fn test_peek_front() {
    let mut list = DoublyLinkedList::new();
    assert!(list.peek_front().is_none());
    assert!(list.peek_back().is_none());
    list.push_back(String::from("first"));
    assert_eq!(list.peek_front().unwrap(), "first");
    assert_eq!(list.peek_back().unwrap(), "first");
    list.push_front(String::from("second"));
    assert_eq!(list.peek_front().unwrap(), "second");
    assert_eq!(list.peek_back().unwrap(), "first");
    list.pop_back();
    assert_eq!(list.peek_front().unwrap(), "second");
    assert_eq!(list.peek_back().unwrap(), "second");
}

#[test]
fn test_into_iter() {
    let mut list = DoublyLinkedList::new();
    list.push_front(String::from("first"));
    list.push_front(String::from("second"));
    let mut iter = list.into_iter();
    assert_eq!(iter.next().unwrap(), "second");
    assert_eq!(iter.next().unwrap(), "first");
    assert!(iter.next().is_none());
}

#[test]
fn test_into_iter_rev() {
    let mut list = DoublyLinkedList::new();
    list.push_front(String::from("first"));
    list.push_front(String::from("second"));
    let mut iter = list.into_iter();
    assert_eq!(iter.next_back().unwrap(), "first");
    assert_eq!(iter.next_back().unwrap(), "second");
    assert!(iter.next_back().is_none());
}

#[test]
fn test_iter() {
    let mut list = DoublyLinkedList::new();
    list.push_front(String::from("first"));
    list.push_front(String::from("second"));
    let mut iter = list.iter();
    let n = iter.next().unwrap();
    assert_eq!(n.elem(), "second");
    let n = iter.next().unwrap();
    assert_eq!(n.elem(), "first");
    assert!(iter.next().is_none());
    let mut iter = list.iter();
    let n = iter.next().unwrap();
    assert_eq!(n.elem(), "second");
    let n = iter.next().unwrap();
    assert_eq!(n.elem(), "first");
}

#[test]
fn alternating_pops_drain_to_empty() {
    let mut list = DoublyLinkedList::new();
    list.push_back(1);
    list.push_back(2);
    list.push_back(3);
    assert_eq!(list.pop_front(), Some(1));
    assert_eq!(list.pop_back(), Some(3));
    assert_eq!(list.pop_front(), Some(2));
    assert_eq!(list.pop_back(), None);
    assert_eq!(list.pop_front(), None);
    assert!(list.peek_front().is_none());
    assert!(list.peek_back().is_none());
    list.push_front(9);
    assert_eq!(list.peek_back(), Some(&9));
}

#[test]
fn back_drain_is_reverse_of_front_drain() {
    let mut a = DoublyLinkedList::new();
    let mut b = DoublyLinkedList::new();
    for i in 0..20u32 {
        if i % 3 == 0 {
            a.push_front(i);
            b.push_front(i);
        } else {
            a.push_back(i);
            b.push_back(i);
        }
    }
    let mut fwd = Vec::new();
    let mut it = a.into_iter();
    while let Some(x) = it.next() {
        fwd.push(x);
    }
    let mut bwd = Vec::new();
    let mut it = b.into_iter();
    while let Some(x) = it.next_back() {
        bwd.push(x);
    }
    bwd.reverse();
    assert_eq!(fwd.len(), 20);
    assert_eq!(fwd, bwd);
}

#[test]
fn into_iter_meets_in_the_middle() {
    let mut list = DoublyLinkedList::new();
    for i in 1..=5u32 {
        list.push_back(i);
    }
    let mut it = list.into_iter();
    assert_eq!(it.next(), Some(1));
    assert_eq!(it.next_back(), Some(5));
    assert_eq!(it.next(), Some(2));
    assert_eq!(it.next_back(), Some(4));
    assert_eq!(it.next(), Some(3));
    assert_eq!(it.next_back(), None);
    assert_eq!(it.next(), None);
}

#[test]
fn freed_slots_are_reused_in_order() {
    let mut list = DoublyLinkedList::new();
    for round in 0..50u32 {
        list.push_back(round);
        list.push_front(round + 1000);
        assert_eq!(list.pop_back(), Some(round));
    }
    for round in (0..50u32).rev() {
        assert_eq!(list.pop_front(), Some(round + 1000));
    }
    assert!(list.pop_front().is_none());
}

#[test]
fn deque_drops_long_chain() {
    let mut list = DoublyLinkedList::new();
    for i in 0..200_000u64 {
        list.push_back(i);
    }
    assert_eq!(list.peek_back(), Some(&199_999));
    drop(list);
}
