use linked_lists::atomic_linked_list::AtomicLinkedList;
use std::sync::Arc;
use std::sync::Mutex;

#[test]
fn last_insert_through_shared_mutex_is_head() {
    let list_mut = Arc::new(Mutex::new(AtomicLinkedList::new()));
    {
        let mut list = list_mut.lock().unwrap();
        list.insert(String::from("a"));
        list.insert(String::from("b"));
    }
    let list_mut_t = Arc::clone(&list_mut);
    {
        let mut list = list_mut_t.lock().unwrap();
        list.insert(String::from("c"));
    }
    let list = list_mut.lock().unwrap();
    assert_eq!(list.head().unwrap().val(), "c");
}

#[test]
fn many_inserts_through_shared_mutex_are_all_counted() {
    let list_mut = Arc::new(Mutex::new(AtomicLinkedList::new()));
    for _ in 0..100 {
        let list_mut_t = Arc::clone(&list_mut);
        let mut list = list_mut_t.lock().unwrap();
        list.insert(String::from("a"));
        list.insert(String::from("b"));
        list.insert(String::from("c"));
        list.insert(String::from("d"));
    }
    let list = list_mut.lock().unwrap();
    assert_eq!(list.len(), 400);
}

#[test]
fn atomic_tail_is_shared_suffix() {
    let mut list = AtomicLinkedList::new();
    list.insert(String::from("a"));
    list.insert(String::from("b"));
    let tail = list.tail();
    assert_eq!(tail.len(), 1);
    assert_eq!(tail.head().unwrap().val(), "a");
    list.insert(String::from("c"));
    assert_eq!(list.len(), 3);
    assert_eq!(tail.len(), 1);
    assert_eq!(tail.head().unwrap().val(), "a");
}

#[test]
fn atomic_empty_list() {
    let list: AtomicLinkedList<i32> = AtomicLinkedList::new();
    assert_eq!(list.len(), 0);
    assert!(list.head().is_none());
    assert_eq!(list.tail().len(), 0);
}

#[test]
fn atomic_list_drops_long_chain() {
    let mut list = AtomicLinkedList::new();
    for i in 0..200_000u64 {
        list.insert(i);
    }
    assert_eq!(list.len(), 200_000);
    let tail = list.tail();
    drop(list);
    assert_eq!(tail.len(), 199_999);
    drop(tail);
}

fn shareable_across_threads<X: Send + Sync>() {}

#[test]
fn atomic_list_of_strings_is_send_and_sync() {
    shareable_across_threads::<AtomicLinkedList<String>>();
    shareable_across_threads::<Mutex<AtomicLinkedList<String>>>();
}
