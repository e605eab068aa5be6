//! A double-ended list whose nodes link to both neighbours.
//!
//! The nodes live in slots of one vector and name their neighbours by slot
//! index, so that a node is reachable from both sides without shared
//! ownership. The list itself is the only owner of its nodes: a node cannot
//! be removed while a borrow of it is held, since any borrow of a node is a
//! borrow of the list. Slots freed by a pop are reused by later pushes.
use vstd::prelude::*;

verus! {

/// One cell of the list: a value and the slots of its two neighbours.
pub struct Node<T> {
    elem: T,
    next: Option<usize>,
    prev: Option<usize>,
}

impl<T> View for Node<T> {
    type V = T;

    /// The value the node holds.
    closed spec fn view(&self) -> T {
        self.elem
    }
}

impl<T> Node<T> {
    fn new(elem: T) -> (r: Node<T>)
        ensures
            r.elem == elem,
            r.next is None,
            r.prev is None,
    {
        Node { elem, next: None, prev: None }
    }

    /// The value the node holds.
    pub fn elem(&self) -> (r: &T)
        ensures
            *r == self@,
    {
        &self.elem
    }
}

/// A double-ended list.
pub struct DoublyLinkedList<T> {
    slots: Vec<Option<Node<T>>>,
    free: Vec<usize>,
    head: Option<usize>,
    tail: Option<usize>,
    /// The slots of the chain, front first.
    order: Ghost<Seq<usize>>,
}

impl<T> View for DoublyLinkedList<T> {
    type V = Seq<T>;

    /// The values, front first.
    closed spec fn view(&self) -> Seq<T> {
        Seq::new(self.order@.len(), |i: int| self.slots@[self.order@[i] as int]->Some_0.elem)
    }
}

impl<T> DoublyLinkedList<T> {
    /// The chain visits exactly the slots of `order`, each once; each node's
    /// `next` and `prev` name its neighbours in that order, `head` and `tail`
    /// its two ends; free slots are empty and listed once.
    pub closed spec fn wf(&self) -> bool {
        let order = self.order@;
        let slots = self.slots@;
        &&& forall|i: int| 0 <= i < order.len() ==> {
            &&& #[trigger] order[i] < slots.len()
            &&& slots[order[i] as int] is Some
            &&& slots[order[i] as int]->Some_0.next == if i + 1 < order.len() {
                Some(order[i + 1])
            } else {
                None::<usize>
            }
            &&& slots[order[i] as int]->Some_0.prev == if i > 0 {
                Some(order[i - 1])
            } else {
                None::<usize>
            }
        }
        &&& forall|i: int, j: int|
            0 <= i < j < order.len() ==> #[trigger] order[i] != #[trigger] order[j]
        &&& self.head == if order.len() > 0 { Some(order[0]) } else { None::<usize> }
        &&& self.tail == if order.len() > 0 { Some(order.last()) } else { None::<usize> }
        &&& forall|k: int| 0 <= k < self.free@.len() ==> {
            &&& #[trigger] self.free@[k] < slots.len()
            &&& slots[self.free@[k] as int] is None
        }
        &&& forall|k1: int, k2: int|
            0 <= k1 < k2 < self.free@.len() ==> #[trigger] self.free@[k1] != #[trigger] self.free@[k2]
    }

    pub fn new() -> (r: DoublyLinkedList<T>)
        ensures
            r.wf(),
            r@ == Seq::<T>::empty(),
    {
        let r = DoublyLinkedList {
            slots: Vec::new(),
            free: Vec::new(),
            head: None,
            tail: None,
            order: Ghost(Seq::empty()),
        };
        assert(r@ =~= Seq::<T>::empty());
        r
    }

    /// Stores `node` in a free slot, or in a new one, outside the chain.
    fn store(&mut self, node: Node<T>) -> (s: usize)
        requires
            old(self).wf(),
        ensures
            final(self).wf(),
            final(self).order@ == old(self).order@,
            final(self).head == old(self).head,
            final(self).tail == old(self).tail,
            s <= old(self).slots@.len(),
            final(self).slots@.len() == if s == old(self).slots@.len() {
                old(self).slots@.len() + 1int
            } else {
                old(self).slots@.len() as int
            },
            final(self).slots@[s as int] == Some(node),
            forall|j: int|
                0 <= j < old(self).slots@.len() && j != s ==> #[trigger] final(self).slots@[j] == old(self).slots@[j],
            forall|i: int| 0 <= i < old(self).order@.len() ==> #[trigger] old(self).order@[i] != s,
    {
        match self.free.pop() {
            Some(s) => {
                assert(self.slots@[s as int] is None);
                self.slots.set(s, Some(node));
                s
            },
            None => {
                self.slots.push(Some(node));
                self.slots.len() - 1
            },
        }
    }

    /// Puts `elem` in front of the first node.
    pub fn push_front(&mut self, elem: T)
        requires
            old(self).wf(),
        ensures
            final(self).wf(),
            final(self)@ == seq![elem].add(old(self)@),
    {
        let ghost old_order = self.order@;
        let mut node = Node::new(elem);
        node.next = self.head;
        let s = self.store(node);
        match self.head {
            None => {
                self.tail = Some(s);
            },
            Some(h) => match &mut self.slots[h] {
                Some(first) => {
                    first.prev = Some(s);
                },
                None => {},
            },
        }
        self.head = Some(s);
        self.order = Ghost(seq![s].add(old_order));
        assert(self@ =~= seq![elem].add(old(self)@));
    }

    /// Puts `elem` after the last node.
    pub fn push_back(&mut self, elem: T)
        requires
            old(self).wf(),
        ensures
            final(self).wf(),
            final(self)@ == old(self)@.push(elem),
    {
        let ghost old_order = self.order@;
        let mut node = Node::new(elem);
        node.prev = self.tail;
        let s = self.store(node);
        match self.tail {
            None => {
                self.head = Some(s);
            },
            Some(t) => match &mut self.slots[t] {
                Some(last) => {
                    last.next = Some(s);
                },
                None => {},
            },
        }
        self.tail = Some(s);
        self.order = Ghost(old_order.push(s));
        assert(self@ =~= old(self)@.push(elem));
    }

    /// Removes and returns the first value; `None` when the list is empty.
    /// Removing the only node clears both ends.
    pub fn pop_front(&mut self) -> (r: Option<T>)
        requires
            old(self).wf(),
        ensures
            final(self).wf(),
            old(self)@.len() == 0 ==> r is None && final(self)@ == old(self)@,
            old(self)@.len() > 0 ==> r == Some(old(self)@[0]) && final(self)@ == old(self)@.drop_first(),
    {
        match self.head {
            None => None,
            Some(h) => {
                let mut taken: Option<Node<T>> = None;
                core::mem::swap(&mut self.slots[h], &mut taken);
                match taken {
                    None => None,
                    Some(node) => {
                        let ghost old_order = self.order@;
                        assert(old_order.len() > 1 ==> old_order[1] != h);
                        self.head = node.next;
                        match node.next {
                            None => {
                                self.tail = None;
                            },
                            Some(n) => match &mut self.slots[n] {
                                Some(second) => {
                                    second.prev = None;
                                },
                                None => {},
                            },
                        }
                        self.free.push(h);
                        self.order = Ghost(old_order.drop_first());
                        assert forall|i: int| 0 <= i < self.order@.len() implies
                            #[trigger] self.order@[i] != h by {
                            assert(old_order[i + 1] != old_order[0]);
                        }
                        assert(self@ =~= old(self)@.drop_first());
                        Some(node.elem)
                    },
                }
            },
        }
    }

    /// Removes and returns the last value; `None` when the list is empty.
    /// Removing the only node clears both ends.
    pub fn pop_back(&mut self) -> (r: Option<T>)
        requires
            old(self).wf(),
        ensures
            final(self).wf(),
            old(self)@.len() == 0 ==> r is None && final(self)@ == old(self)@,
            old(self)@.len() > 0 ==> r == Some(old(self)@.last()) && final(self)@ == old(self)@.drop_last(),
    {
        match self.tail {
            None => None,
            Some(t) => {
                let mut taken: Option<Node<T>> = None;
                core::mem::swap(&mut self.slots[t], &mut taken);
                match taken {
                    None => None,
                    Some(node) => {
                        let ghost old_order = self.order@;
                        let ghost n = old_order.len() - 1;
                        assert(n > 0 ==> old_order[n - 1] != t);
                        self.tail = node.prev;
                        match node.prev {
                            None => {
                                self.head = None;
                            },
                            Some(p) => match &mut self.slots[p] {
                                Some(before) => {
                                    before.next = None;
                                },
                                None => {},
                            },
                        }
                        self.free.push(t);
                        self.order = Ghost(old_order.drop_last());
                        assert forall|i: int| 0 <= i < self.order@.len() implies
                            #[trigger] self.order@[i] != t by {
                            assert(old_order[i] != old_order[n]);
                        }
                        assert(self@ =~= old(self)@.drop_last());
                        Some(node.elem)
                    },
                }
            },
        }
    }

    /// The first value, left in place.
    pub fn peek_front(&self) -> (r: Option<&T>)
        requires
            self.wf(),
        ensures
            self@.len() == 0 ==> r is None,
            self@.len() > 0 ==> r == Some(&self@[0]),
    {
        match self.head {
            None => None,
            Some(h) => match &self.slots[h] {
                None => None,
                Some(node) => Some(&node.elem),
            },
        }
    }

    /// The last value, left in place.
    pub fn peek_back(&self) -> (r: Option<&T>)
        requires
            self.wf(),
        ensures
            self@.len() == 0 ==> r is None,
            self@.len() > 0 ==> r == Some(&self@.last()),
    {
        match self.tail {
            None => None,
            Some(t) => match &self.slots[t] {
                None => None,
                Some(node) => Some(&node.elem),
            },
        }
    }

    /// A fresh traversal of the nodes, front to back.
    pub fn iter(&self) -> (r: Iter<'_, T>)
        requires
            self.wf(),
        ensures
            r.wf(),
            r@ == self@,
    {
        let r = Iter { list: self, cur: self.head, pos: Ghost(0) };
        assert(r@ =~= self@);
        r
    }

    /// Consumes the list into a traversal that hands out the values from
    /// either end.
    pub fn into_iter(self) -> (r: IntoIter<T>)
        requires
            self.wf(),
        ensures
            r.wf(),
            r@ == self@,
    {
        IntoIter { list: self }
    }
}

/// Draining a list from the back hands out exactly the reverse of what
/// draining the same list from the front hands out: `front` and `back` are the
/// states met while draining by `pop_front` and by `pop_back`, and `front_out`
/// and `back_out` what each step returned.
pub proof fn lemma_back_drain_reverses_front_drain<T>(
    front: Seq<Seq<T>>,
    front_out: Seq<T>,
    back: Seq<Seq<T>>,
    back_out: Seq<T>,
)
    requires
        front.len() == front_out.len() + 1,
        back.len() == back_out.len() + 1,
        front[0] == back[0],
        front_out.len() == front[0].len(),
        back_out.len() == back[0].len(),
        forall|i: int| 0 <= i < front_out.len() ==> #[trigger] front_out[i] == front[i][0]
            && front[i + 1] == front[i].drop_first(),
        forall|i: int| 0 <= i < back_out.len() ==> #[trigger] back_out[i] == back[i].last()
            && back[i + 1] == back[i].drop_last(),
    ensures
        forall|i: int| 0 <= i < back_out.len() ==> #[trigger] back_out[i] == front_out[back_out.len() - 1 - i],
{
    let n = front_out.len();
    assert forall|k: int| 0 <= k <= n implies #[trigger] front[k] =~= front[0].subrange(k, n as int) by {
        lemma_front_drain_step(front, front_out, k);
    }
    assert forall|k: int| 0 <= k <= n implies #[trigger] back[k] =~= back[0].subrange(0, n - k) by {
        lemma_back_drain_step(back, back_out, k);
    }
    assert forall|i: int| 0 <= i < n implies #[trigger] back_out[i] == front_out[n - 1 - i] by {
        assert(back_out[i] == back[i].last());
        assert(front_out[n - 1 - i] == front[n - 1 - i][0]);
    }
}

/// How many of the first `k` steps of a drain took from the front.
pub open spec fn front_steps(sides: Seq<bool>, k: int) -> int
    decreases k,
{
    if k <= 0 {
        0
    } else {
        front_steps(sides, k - 1) + if sides[k - 1] { 1int } else { 0int }
    }
}

/// Draining a list from both ends, in any interleaving, hands out each value
/// once: a prefix in order from the front and the rest in reverse from the
/// back, meeting in the middle. `states` are the states met, `sides[i]` says
/// whether step `i` was `pop_front` (else `pop_back`), and `outs[i]` is what
/// it returned. After `k` steps the list is the part of the first state
/// between the values taken from the front and those taken from the back.
pub proof fn lemma_drain_from_both_ends<T>(states: Seq<Seq<T>>, sides: Seq<bool>, outs: Seq<T>)
    requires
        states.len() == outs.len() + 1,
        sides.len() == outs.len(),
        outs.len() == states[0].len(),
        forall|i: int| 0 <= i < outs.len() ==> if #[trigger] sides[i] {
            outs[i] == states[i][0] && states[i + 1] == states[i].drop_first()
        } else {
            outs[i] == states[i].last() && states[i + 1] == states[i].drop_last()
        },
    ensures
        forall|k: int| 0 <= k <= outs.len() ==> #[trigger] states[k] == states[0].subrange(
            front_steps(sides, k),
            outs.len() - (k - front_steps(sides, k)),
        ),
        forall|i: int| 0 <= i < outs.len() ==> #[trigger] outs[i] == if sides[i] {
            states[0][front_steps(sides, i)]
        } else {
            states[0][outs.len() - 1 - (i - front_steps(sides, i))]
        },
{
    assert forall|k: int| 0 <= k <= outs.len() implies #[trigger] states[k] == states[0].subrange(
        front_steps(sides, k),
        outs.len() - (k - front_steps(sides, k)),
    ) by {
        lemma_both_ends_step(states, sides, outs, k);
    }
    assert forall|i: int| 0 <= i < outs.len() implies #[trigger] outs[i] == if sides[i] {
        states[0][front_steps(sides, i)]
    } else {
        states[0][outs.len() - 1 - (i - front_steps(sides, i))]
    } by {
        lemma_both_ends_step(states, sides, outs, i);
        let f = front_steps(sides, i);
        let n = outs.len() as int;
        let rest = states[0].subrange(f, n - (i - f));
        assert(states[i] == rest);
        if sides[i] {
            assert(outs[i] == rest[0]);
        } else {
            assert(outs[i] == rest[rest.len() - 1]);
        }
    }
}

proof fn lemma_both_ends_step<T>(states: Seq<Seq<T>>, sides: Seq<bool>, outs: Seq<T>, k: int)
    requires
        states.len() == outs.len() + 1,
        sides.len() == outs.len(),
        outs.len() == states[0].len(),
        forall|i: int| 0 <= i < outs.len() ==> if #[trigger] sides[i] {
            outs[i] == states[i][0] && states[i + 1] == states[i].drop_first()
        } else {
            outs[i] == states[i].last() && states[i + 1] == states[i].drop_last()
        },
        0 <= k <= outs.len(),
    ensures
        0 <= front_steps(sides, k) <= k,
        states[k] =~= states[0].subrange(front_steps(sides, k), outs.len() - (k - front_steps(sides, k))),
    decreases k,
{
    if k > 0 {
        let j = k - 1;
        lemma_both_ends_step(states, sides, outs, j);
        if sides[j] {
            assert(states[j + 1] == states[j].drop_first());
        } else {
            assert(states[j + 1] == states[j].drop_last());
        }
    }
}

proof fn lemma_front_drain_step<T>(front: Seq<Seq<T>>, front_out: Seq<T>, k: int)
    requires
        front.len() == front_out.len() + 1,
        front_out.len() == front[0].len(),
        forall|i: int| 0 <= i < front_out.len() ==> #[trigger] front_out[i] == front[i][0]
            && front[i + 1] == front[i].drop_first(),
        0 <= k <= front_out.len(),
    ensures
        front[k] =~= front[0].subrange(k, front_out.len() as int),
    decreases k,
{
    if k > 0 {
        lemma_front_drain_step(front, front_out, k - 1);
        assert(front_out[k - 1] == front[k - 1][0]);
    }
}

proof fn lemma_back_drain_step<T>(back: Seq<Seq<T>>, back_out: Seq<T>, k: int)
    requires
        back.len() == back_out.len() + 1,
        back_out.len() == back[0].len(),
        forall|i: int| 0 <= i < back_out.len() ==> #[trigger] back_out[i] == back[i].last()
            && back[i + 1] == back[i].drop_last(),
        0 <= k <= back_out.len(),
    ensures
        back[k] =~= back[0].subrange(0, back_out.len() - k),
    decreases k,
{
    if k > 0 {
        lemma_back_drain_step(back, back_out, k - 1);
        assert(back_out[k - 1] == back[k - 1].last());
    }
}

/// A borrowing traversal of the nodes of a [`DoublyLinkedList`].
pub struct Iter<'a, T> {
    list: &'a DoublyLinkedList<T>,
    cur: Option<usize>,
    pos: Ghost<int>,
}

impl<'a, T> View for Iter<'a, T> {
    type V = Seq<T>;

    /// The values of the nodes not yet handed out.
    closed spec fn view(&self) -> Seq<T> {
        self.list@.subrange(self.pos@, self.list@.len() as int)
    }
}

impl<'a, T> Iter<'a, T> {
    /// The cursor stands on the node at `pos` of a well-formed list.
    pub closed spec fn wf(&self) -> bool {
        &&& self.list.wf()
        &&& 0 <= self.pos@ <= self.list.order@.len()
        &&& self.cur == if self.pos@ < self.list.order@.len() {
            Some(self.list.order@[self.pos@])
        } else {
            None::<usize>
        }
    }

    /// Hands out the next node, or `None` once the traversal is over.
    pub fn next(&mut self) -> (r: Option<&'a Node<T>>)
        requires
            old(self).wf(),
        ensures
            final(self).wf(),
            old(self)@.len() == 0 ==> r is None && final(self)@ == old(self)@,
            old(self)@.len() > 0 ==> r is Some && r.unwrap()@ == old(self)@[0]
                && final(self)@ == old(self)@.drop_first(),
    {
        let list: &'a DoublyLinkedList<T> = self.list;
        match self.cur {
            None => None,
            Some(i) => match &list.slots[i] {
                None => None,
                Some(node) => {
                    self.cur = node.next;
                    self.pos = Ghost(self.pos@ + 1);
                    assert(self@ =~= old(self)@.drop_first());
                    Some(node)
                },
            },
        }
    }
}

/// A consuming traversal of a [`DoublyLinkedList`], from the front, the back,
/// or both, meeting in the middle.
pub struct IntoIter<T> {
    list: DoublyLinkedList<T>,
}

impl<T> View for IntoIter<T> {
    type V = Seq<T>;

    /// The values not yet handed out.
    closed spec fn view(&self) -> Seq<T> {
        self.list@
    }
}

impl<T> IntoIter<T> {
    /// The list inside is well formed.
    pub closed spec fn wf(&self) -> bool {
        self.list.wf()
    }

    /// Hands out the first remaining value, or `None` once drained.
    pub fn next(&mut self) -> (r: Option<T>)
        requires
            old(self).wf(),
        ensures
            final(self).wf(),
            old(self)@.len() == 0 ==> r is None && final(self)@ == old(self)@,
            old(self)@.len() > 0 ==> r == Some(old(self)@[0]) && final(self)@ == old(self)@.drop_first(),
    {
        self.list.pop_front()
    }

    /// Hands out the last remaining value, or `None` once drained.
    pub fn next_back(&mut self) -> (r: Option<T>)
        requires
            old(self).wf(),
        ensures
            final(self).wf(),
            old(self)@.len() == 0 ==> r is None && final(self)@ == old(self)@,
            old(self)@.len() > 0 ==> r == Some(old(self)@.last()) && final(self)@ == old(self)@.drop_last(),
    {
        self.list.pop_back()
    }
}

} // verus!
