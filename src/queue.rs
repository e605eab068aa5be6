//! A first-in, first-out queue of singly linked nodes with a cursor on the
//! last node, so that appending takes constant time.
//!
//! The nodes live in slots of one vector and link to each other by slot
//! index. The chain from `head` along `next` is what the queue holds; `tail`
//! is only a cursor onto the last node of that chain, and is cleared in the
//! same step that removes the last node. Slots freed by `pop` are reused by
//! later pushes.
use vstd::prelude::*;

verus! {

/// One cell of the queue: a value and the slot of its successor.
pub struct Node<T> {
    elem: T,
    next: Option<usize>,
}

/// A first-in, first-out queue.
pub struct Queue<T> {
    slots: Vec<Option<Node<T>>>,
    free: Vec<usize>,
    head: Option<usize>,
    tail: Option<usize>,
    /// The slots of the chain, front first.
    order: Ghost<Seq<usize>>,
}

impl<T> View for Queue<T> {
    type V = Seq<T>;

    /// The queued values, front first.
    closed spec fn view(&self) -> Seq<T> {
        Seq::new(self.order@.len(), |i: int| self.slots@[self.order@[i] as int]->Some_0.elem)
    }
}

impl<T> Queue<T> {
    /// The chain from `head` visits exactly the slots of `order`, each once,
    /// and ends at the slot under `tail`; free slots are empty and listed once.
    pub closed spec fn wf(&self) -> bool {
        let order = self.order@;
        let slots = self.slots@;
        &&& forall|i: int| 0 <= i < order.len() ==> {
            &&& #[trigger] order[i] < slots.len()
            &&& slots[order[i] as int] is Some
            &&& slots[order[i] as int]->Some_0.next == if i + 1 < order.len() {
                Some(order[i + 1])
            } else {
                None::<usize>
            }
        }
        &&& forall|i: int, j: int|
            0 <= i < j < order.len() ==> #[trigger] order[i] != #[trigger] order[j]
        &&& self.head == if order.len() > 0 { Some(order[0]) } else { None::<usize> }
        &&& self.tail == if order.len() > 0 { Some(order.last()) } else { None::<usize> }
        &&& forall|k: int| 0 <= k < self.free@.len() ==> {
            &&& #[trigger] self.free@[k] < slots.len()
            &&& slots[self.free@[k] as int] is None
        }
        &&& forall|k1: int, k2: int|
            0 <= k1 < k2 < self.free@.len() ==> #[trigger] self.free@[k1] != #[trigger] self.free@[k2]
    }

    pub fn new() -> (r: Queue<T>)
        ensures
            r.wf(),
            r@ == Seq::<T>::empty(),
    {
        let r = Queue { slots: Vec::new(), free: Vec::new(), head: None, tail: None, order: Ghost(Seq::empty()) };
        assert(r@ =~= Seq::<T>::empty());
        r
    }

    /// Appends `elem` after the last node, found through the tail cursor.
    pub fn push(&mut self, elem: T)
        requires
            old(self).wf(),
        ensures
            final(self).wf(),
            final(self)@ == old(self)@.push(elem),
    {
        let ghost old_order = self.order@;
        let node = Node { elem, next: None };
        let s = match self.free.pop() {
            Some(s) => {
                self.slots.set(s, Some(node));
                s
            },
            None => {
                self.slots.push(Some(node));
                self.slots.len() - 1
            },
        };
        match self.tail {
            None => {
                self.head = Some(s);
            },
            Some(t) => {
                match &mut self.slots[t] {
                    Some(last) => {
                        last.next = Some(s);
                    },
                    None => {},
                }
            },
        }
        self.tail = Some(s);
        self.order = Ghost(old_order.push(s));
        assert(self@ =~= old(self)@.push(elem));
    }

    /// Removes and returns the front value; `None` when the queue is empty.
    /// Removing the last node clears the tail cursor.
    pub fn pop(&mut self) -> (r: Option<T>)
        requires
            old(self).wf(),
        ensures
            final(self).wf(),
            old(self)@.len() == 0 ==> r is None && final(self)@ == old(self)@,
            old(self)@.len() > 0 ==> r == Some(old(self)@[0]) && final(self)@ == old(self)@.drop_first(),
    {
        match self.head {
            None => None,
            Some(h) => {
                let mut taken: Option<Node<T>> = None;
                core::mem::swap(&mut self.slots[h], &mut taken);
                match taken {
                    None => None,
                    Some(node) => {
                        self.head = node.next;
                        if node.next.is_none() {
                            self.tail = None;
                        }
                        self.free.push(h);
                        let ghost old_order = self.order@;
                        self.order = Ghost(old_order.drop_first());
                        assert forall|i: int| 0 <= i < self.order@.len() implies
                            #[trigger] self.order@[i] != h by {
                            assert(old_order[i + 1] != old_order[0]);
                        }
                        assert(self@ =~= old(self)@.drop_first());
                        Some(node.elem)
                    },
                }
            },
        }
    }

    /// Mutable access to the value at position `i` from the front, found by
    /// walking the owned chain; what is written through it is what the queue
    /// holds there afterwards.
    pub fn get_mut(&mut self, i: usize) -> (r: &mut T)
        requires
            old(self).wf(),
            i < old(self)@.len(),
        ensures
            *r == old(self)@[i as int],
            final(self).wf(),
            final(self)@ == old(self)@.update(i as int, *final(r)),
    {
        let ghost order = self.order@;
        let mut cur: usize = match self.head {
            Some(h) => h,
            None => 0,
        };
        let mut k: usize = 0;
        while k < i
            invariant
                self.wf(),
                self.order@ == order,
                i < order.len(),
                k <= i,
                cur == order[k as int],
            decreases i - k,
        {
            cur = self.slots[cur].as_ref().unwrap().next.unwrap();
            k = k + 1;
        }
        let node: &mut Node<T> = self.slots[cur].as_mut().unwrap();
        &mut node.elem
    }

    /// A fresh traversal of the values, front first, along the owned chain.
    pub fn iter(&self) -> (r: Iter<'_, T>)
        requires
            self.wf(),
        ensures
            r.wf(),
            r@ == self@,
    {
        let r = Iter { que: self, cur: self.head, pos: Ghost(0) };
        assert(r@ =~= self@);
        r
    }

    /// A fresh traversal that gives mutable access to each value in turn,
    /// front first, along the owned chain.
    pub fn iter_mut(&mut self) -> (r: IterMut<'_, T>)
        requires
            old(self).wf(),
        ensures
            r.wf(),
            r.values() == old(self)@,
            r.position() == 0,
    {
        let cur = self.head;
        IterMut { que: self, cur, pos: Ghost(0) }
    }

    /// Consumes the queue into a traversal that hands out the values, front first.
    pub fn into_iter(self) -> (r: IntoIter<T>)
        requires
            self.wf(),
        ensures
            r.wf(),
            r@ == self@,
    {
        IntoIter { que: self }
    }
}

/// Values leave a queue in the order they came in: when `pushes` are the
/// states met while pushing `vals` onto an empty queue, and `pops` the states
/// met while popping it empty again, the values popped, `outs`, are `vals`.
pub proof fn lemma_first_in_first_out<T>(pushes: Seq<Seq<T>>, vals: Seq<T>, pops: Seq<Seq<T>>, outs: Seq<T>)
    requires
        pushes.len() == vals.len() + 1,
        pushes[0].len() == 0,
        forall|i: int| 0 <= i < vals.len() ==> #[trigger] pushes[i + 1] == pushes[i].push(vals[i]),
        pops.len() == outs.len() + 1,
        pops[0] == pushes.last(),
        outs.len() == pops[0].len(),
        forall|i: int| 0 <= i < outs.len() ==> #[trigger] outs[i] == pops[i][0]
            && pops[i + 1] == pops[i].drop_first(),
    ensures
        outs == vals,
{
    lemma_push_step(pushes, vals, vals.len() as int);
    assert forall|i: int| 0 <= i < outs.len() implies #[trigger] outs[i] == vals[i] by {
        lemma_pop_step(pops, outs, i);
    }
    assert(outs =~= vals);
}

proof fn lemma_push_step<T>(pushes: Seq<Seq<T>>, vals: Seq<T>, k: int)
    requires
        pushes.len() == vals.len() + 1,
        pushes[0].len() == 0,
        forall|i: int| 0 <= i < vals.len() ==> #[trigger] pushes[i + 1] == pushes[i].push(vals[i]),
        0 <= k <= vals.len(),
    ensures
        pushes[k] =~= vals.subrange(0, k),
    decreases k,
{
    if k > 0 {
        lemma_push_step(pushes, vals, k - 1);
        assert(pushes[k] == pushes[k - 1].push(vals[k - 1]));
    }
}

proof fn lemma_pop_step<T>(pops: Seq<Seq<T>>, outs: Seq<T>, k: int)
    requires
        pops.len() == outs.len() + 1,
        outs.len() == pops[0].len(),
        forall|i: int| 0 <= i < outs.len() ==> #[trigger] outs[i] == pops[i][0]
            && pops[i + 1] == pops[i].drop_first(),
        0 <= k <= outs.len(),
    ensures
        pops[k] =~= pops[0].subrange(k, outs.len() as int),
    decreases k,
{
    if k > 0 {
        lemma_pop_step(pops, outs, k - 1);
        assert(outs[k - 1] == pops[k - 1][0]);
    }
}

/// A borrowing traversal of a [`Queue`].
pub struct Iter<'a, T> {
    que: &'a Queue<T>,
    cur: Option<usize>,
    pos: Ghost<int>,
}

impl<'a, T> View for Iter<'a, T> {
    type V = Seq<T>;

    /// The values not yet handed out.
    closed spec fn view(&self) -> Seq<T> {
        self.que@.subrange(self.pos@, self.que@.len() as int)
    }
}

impl<'a, T> Iter<'a, T> {
    /// The cursor stands on the node at `pos` of a well-formed queue.
    pub closed spec fn wf(&self) -> bool {
        &&& self.que.wf()
        &&& 0 <= self.pos@ <= self.que.order@.len()
        &&& self.cur == if self.pos@ < self.que.order@.len() {
            Some(self.que.order@[self.pos@])
        } else {
            None::<usize>
        }
    }

    /// Hands out the next value, or `None` once the traversal is over.
    pub fn next(&mut self) -> (r: Option<&'a T>)
        requires
            old(self).wf(),
        ensures
            final(self).wf(),
            old(self)@.len() == 0 ==> r is None && final(self)@ == old(self)@,
            old(self)@.len() > 0 ==> r == Some(&old(self)@[0]) && final(self)@ == old(self)@.drop_first(),
    {
        let que: &'a Queue<T> = self.que;
        match self.cur {
            None => None,
            Some(i) => match &que.slots[i] {
                None => None,
                Some(node) => {
                    self.cur = node.next;
                    self.pos = Ghost(self.pos@ + 1);
                    assert(self@ =~= old(self)@.drop_first());
                    Some(&node.elem)
                },
            },
        }
    }
}

/// A traversal of a [`Queue`] that lends out each value mutably in turn.
pub struct IterMut<'a, T> {
    que: &'a mut Queue<T>,
    cur: Option<usize>,
    pos: Ghost<int>,
}

impl<'a, T> IterMut<'a, T> {
    /// The values of the queue as they stand now, front first.
    pub closed spec fn values(&self) -> Seq<T> {
        self.que@
    }

    /// How many values have been handed out.
    pub closed spec fn position(&self) -> int {
        self.pos@
    }

    /// The cursor stands on the node at `pos` of a well-formed queue.
    pub closed spec fn wf(&self) -> bool {
        &&& self.que.wf()
        &&& 0 <= self.pos@ <= self.que.order@.len()
        &&& self.cur == if self.pos@ < self.que.order@.len() {
            Some(self.que.order@[self.pos@])
        } else {
            None::<usize>
        }
    }

    /// Lends out the next value, or `None` once the traversal is over. What
    /// is written through the returned reference is what the queue holds at
    /// that place afterwards.
    pub fn next(&mut self) -> (r: Option<&mut T>)
        requires
            old(self).wf(),
        ensures
            final(self).wf(),
            old(self).position() == old(self).values().len() ==> r is None && final(self).values() == old(self).values()
                && final(self).position() == old(self).position(),
            old(self).position() < old(self).values().len() ==> r is Some
                && *r.unwrap() == old(self).values()[old(self).position()]
                && final(self).values() == old(self).values().update(old(self).position(), *final(r.unwrap()))
                && final(self).position() == old(self).position() + 1,
    {
        match self.cur {
            None => None,
            Some(i) => match &mut self.que.slots[i] {
                None => None,
                Some(node) => {
                    self.cur = node.next;
                    self.pos = Ghost(self.pos@ + 1);
                    Some(&mut node.elem)
                },
            },
        }
    }
}

/// A consuming traversal of a [`Queue`]: each step pops the front value.
pub struct IntoIter<T> {
    que: Queue<T>,
}

impl<T> View for IntoIter<T> {
    type V = Seq<T>;

    /// The values not yet handed out.
    closed spec fn view(&self) -> Seq<T> {
        self.que@
    }
}

impl<T> IntoIter<T> {
    /// The queue inside is well formed.
    pub closed spec fn wf(&self) -> bool {
        self.que.wf()
    }

    /// Hands out the next value, or `None` once the queue is drained.
    pub fn next(&mut self) -> (r: Option<T>)
        requires
            old(self).wf(),
        ensures
            final(self).wf(),
            old(self)@.len() == 0 ==> r is None && final(self)@ == old(self)@,
            old(self)@.len() > 0 ==> r == Some(old(self)@[0]) && final(self)@ == old(self)@.drop_first(),
    {
        self.que.pop()
    }
}

} // verus!

