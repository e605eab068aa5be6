use linked_lists::queue::Queue;

#[test]
fn test_push() {
    let mut que = Queue::new();
    que.push(String::from("a"));
    que.push(String::from("b"));
    assert_eq!(que.pop().unwrap(), String::from("a"));
    assert_eq!(que.pop().unwrap(), String::from("b"));
    assert!(que.pop().is_none());
}

#[test]
fn test_iters() {
    let mut que = Queue::new();
    let v = vec![String::from("a"), String::from("b"), String::from("c")];
    for i in &v {
        que.push(i.clone());
    }
    let mut it = que.iter_mut();
    while let Some(i) = it.next() {
        let is = i.clone();
        i.push_str(&is);
    }
    let mut it = que.iter();
    let mut i: usize = 0;
    while let Some(s) = it.next() {
        let mut tmp = String::new();
        tmp.push_str(&v[i]);
        tmp.push_str(&v[i]);
        assert_eq!(&tmp, s);
        i += 1;
    }
    let mut it = que.into_iter();
    while let Some(i) = it.next() {
        assert_eq!(i.len(), 2);
    }
}

#[test]
fn push_after_draining_is_retrievable() {
    let mut que = Queue::new();
    que.push(1);
    que.push(2);
    assert_eq!(que.pop(), Some(1));
    assert_eq!(que.pop(), Some(2));
    assert_eq!(que.pop(), None);
    que.push(3);
    que.push(4);
    assert_eq!(que.pop(), Some(3));
    assert_eq!(que.pop(), Some(4));
    assert_eq!(que.pop(), None);
}

#[test]
fn interleaved_pushes_and_pops_keep_order() {
    let mut que = Queue::new();
    let mut next_in: u32 = 0;
    let mut next_out: u32 = 0;
    for round in 0..100u32 {
        for _ in 0..(round % 7 + 1) {
            que.push(next_in);
            next_in += 1;
        }
        for _ in 0..(round % 5 + 1) {
            match que.pop() {
                Some(x) => {
                    assert_eq!(x, next_out);
                    next_out += 1;
                }
                None => assert_eq!(next_out, next_in),
            }
        }
    }
    while let Some(x) = que.pop() {
        assert_eq!(x, next_out);
        next_out += 1;
    }
    assert_eq!(next_out, next_in);
}

#[test]
fn iter_is_restartable() {
    let mut que = Queue::new();
    que.push(5);
    que.push(6);
    for _ in 0..2 {
        let mut it = que.iter();
        assert_eq!(it.next(), Some(&5));
        assert_eq!(it.next(), Some(&6));
        assert_eq!(it.next(), None);
    }
}

#[test]
fn queue_drops_long_chain() {
    let mut que = Queue::new();
    for i in 0..200_000u64 {
        que.push(i);
    }
    assert_eq!(que.pop(), Some(0));
    drop(que);
}

#[test]
fn get_mut_writes_are_visible() {
    let mut que = Queue::new();
    que.push(String::from("a"));
    que.push(String::from("b"));
    que.push(String::from("c"));
    for i in 0..3usize {
        let s = que.get_mut(i);
        let c = s.clone();
        s.push_str(&c);
    }
    let mut it = que.iter();
    assert_eq!(it.next(), Some(&String::from("aa")));
    assert_eq!(it.next(), Some(&String::from("bb")));
    assert_eq!(it.next(), Some(&String::from("cc")));
    assert_eq!(it.next(), None);
    que.push(String::from("d"));
    assert_eq!(que.pop(), Some(String::from("aa")));
    *que.get_mut(2) = String::from("z");
    let mut it = que.into_iter();
    assert_eq!(it.next(), Some(String::from("bb")));
    assert_eq!(it.next(), Some(String::from("cc")));
    assert_eq!(it.next(), Some(String::from("z")));
    assert_eq!(it.next(), None);
}
