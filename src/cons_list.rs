//! A stack built from uniquely owned, boxed nodes.
use vstd::prelude::*;

verus! {

type Link<T> = Option<Box<Node<T>>>;

/// One cell of the stack: a value and the uniquely owned rest of the chain.
pub struct Node<T> {
    elem: T,
    next: Link<T>,
}

/// The values reachable from `link`, top first.
pub closed spec fn link_seq<T>(link: Link<T>) -> Seq<T>
    decreases link,
{
    match link {
        None => Seq::empty(),
        Some(node) => seq![node.elem].add(link_seq(node.next)),
    }
}

/// A last-in, first-out stack of exclusively owned nodes.
pub struct ConsList<T>(Link<T>);

impl<T> View for ConsList<T> {
    type V = Seq<T>;

    /// The stored values, top of the stack first.
    closed spec fn view(&self) -> Seq<T> {
        link_seq(self.0)
    }
}

impl<T> ConsList<T> {
    pub fn new() -> (r: ConsList<T>)
        ensures
            r@ == Seq::<T>::empty(),
    {
        ConsList(None)
    }

    /// Puts `val` on top of the stack.
    pub fn push(&mut self, val: T)
        ensures
            final(self)@ == seq![val].add(old(self)@),
    {
        let next = self.0.take();
        let new = Node { elem: val, next };
        self.0 = Some(Box::new(new));
    }

    /// Removes and returns the top value; `None` when the stack is empty.
    pub fn pop(&mut self) -> (r: Option<T>)
        ensures
            old(self)@.len() == 0 ==> r is None && final(self)@ == old(self)@,
            old(self)@.len() > 0 ==> r == Some(old(self)@[0]) && final(self)@ == old(self)@.drop_first(),
    {
        match self.0.take() {
            None => None,
            Some(node) => {
                let node = *node;
                self.0 = node.next;
                Some(node.elem)
            },
        }
    }

    /// The top value, left in place.
    pub fn peek(&self) -> (r: Option<&T>)
        ensures
            self@.len() == 0 ==> r is None,
            self@.len() > 0 ==> r == Some(&self@[0]),
    {
        match &self.0 {
            None => None,
            Some(node) => Some(&node.elem),
        }
    }

    /// Mutable access to the top value, left in place.
    pub fn peek_mut(&mut self) -> (r: Option<&mut T>)
        ensures
            old(self)@.len() == 0 ==> r is None && final(self)@ == old(self)@,
            old(self)@.len() > 0 ==> r is Some && *r.unwrap() == old(self)@[0]
                && final(self)@ == old(self)@.update(0, *final(r.unwrap())),
    {
        match &mut self.0 {
            None => None,
            Some(node) => Some(&mut node.elem),
        }
    }

    /// A fresh traversal of the values, top first.
    pub fn iter(&self) -> (r: Iter<'_, T>)
        ensures
            r@ == self@,
    {
        Iter { cur: self.0.as_ref() }
    }

    /// Consumes the stack into a traversal that hands out the values, top first.
    pub fn into_iter(self) -> (r: IntoIter<T>)
        ensures
            r@ == self@,
    {
        IntoIter { list: self }
    }
}

impl<T> Drop for ConsList<T> {
    /// Unlinks the chain one node at a time, so that a long stack is released
    /// without one nested drop per node.
    fn drop(&mut self)
        ensures
            final(self)@ == Seq::<T>::empty(),
        opens_invariants none
        no_unwind
    {
        let mut link: Link<T> = None;
        core::mem::swap(&mut self.0, &mut link);
        loop
            decreases link_seq(link).len(),
        {
            match link {
                None => break,
                Some(node) => {
                    let node = *node;
                    link = node.next;
                },
            }
        }
    }
}

/// Values leave a stack in the reverse of the order they came in: when
/// `pushes` are the states met while pushing `vals` onto an empty stack, and
/// `pops` the states met while popping it empty again, the values popped,
/// `outs`, are `vals` from last to first.
pub proof fn lemma_last_in_first_out<T>(pushes: Seq<Seq<T>>, vals: Seq<T>, pops: Seq<Seq<T>>, outs: Seq<T>)
    requires
        pushes.len() == vals.len() + 1,
        pushes[0].len() == 0,
        forall|i: int| 0 <= i < vals.len() ==> #[trigger] pushes[i + 1] == seq![vals[i]].add(pushes[i]),
        pops.len() == outs.len() + 1,
        pops[0] == pushes.last(),
        outs.len() == pops[0].len(),
        forall|i: int| 0 <= i < outs.len() ==> #[trigger] outs[i] == pops[i][0]
            && pops[i + 1] == pops[i].drop_first(),
    ensures
        outs.len() == vals.len(),
        forall|i: int| 0 <= i < outs.len() ==> #[trigger] outs[i] == vals[vals.len() - 1 - i],
{
    lemma_push_step(pushes, vals, vals.len() as int);
    assert forall|i: int| 0 <= i < outs.len() implies #[trigger] outs[i] == vals[vals.len() - 1 - i] by {
        lemma_pop_step(pops, outs, i);
    }
}

proof fn lemma_push_step<T>(pushes: Seq<Seq<T>>, vals: Seq<T>, k: int)
    requires
        pushes.len() == vals.len() + 1,
        pushes[0].len() == 0,
        forall|i: int| 0 <= i < vals.len() ==> #[trigger] pushes[i + 1] == seq![vals[i]].add(pushes[i]),
        0 <= k <= vals.len(),
    ensures
        pushes[k].len() == k,
        forall|j: int| 0 <= j < k ==> #[trigger] pushes[k][j] == vals[k - 1 - j],
    decreases k,
{
    if k > 0 {
        lemma_push_step(pushes, vals, k - 1);
        let j = k - 1;
        assert(pushes[j + 1] == seq![vals[j]].add(pushes[j]));
        assert forall|m: int| 0 <= m < k implies #[trigger] pushes[k][m] == vals[k - 1 - m] by {
            if m > 0 {
                assert(pushes[k][m] == pushes[j][m - 1]);
            }
        }
    }
}

proof fn lemma_pop_step<T>(pops: Seq<Seq<T>>, outs: Seq<T>, k: int)
    requires
        pops.len() == outs.len() + 1,
        outs.len() == pops[0].len(),
        forall|i: int| 0 <= i < outs.len() ==> #[trigger] outs[i] == pops[i][0]
            && pops[i + 1] == pops[i].drop_first(),
        0 <= k <= outs.len(),
    ensures
        pops[k] =~= pops[0].subrange(k, outs.len() as int),
    decreases k,
{
    if k > 0 {
        lemma_pop_step(pops, outs, k - 1);
        assert(outs[k - 1] == pops[k - 1][0]);
    }
}

/// A borrowing traversal of a [`ConsList`].
pub struct Iter<'a, T> {
    cur: Option<&'a Box<Node<T>>>,
}

impl<'a, T> View for Iter<'a, T> {
    type V = Seq<T>;

    /// The values not yet handed out.
    closed spec fn view(&self) -> Seq<T> {
        match self.cur {
            None => Seq::empty(),
            Some(node) => link_seq(Some(*node)),
        }
    }
}

impl<'a, T> Iter<'a, T> {
    /// Hands out the next value, or `None` once the traversal is over.
    pub fn next(&mut self) -> (r: Option<&'a T>)
        ensures
            old(self)@.len() == 0 ==> r is None && final(self)@ == old(self)@,
            old(self)@.len() > 0 ==> r == Some(&old(self)@[0]) && final(self)@ == old(self)@.drop_first(),
    {
        match self.cur.take() {
            None => None,
            Some(node) => {
                self.cur = node.next.as_ref();
                assert(self@ =~= link_seq(node.next));
                assert(old(self)@ =~= seq![node.elem].add(link_seq(node.next)));
                Some(&node.elem)
            },
        }
    }
}

/// A consuming traversal of a [`ConsList`]: each step pops the top value.
pub struct IntoIter<T> {
    list: ConsList<T>,
}

impl<T> View for IntoIter<T> {
    type V = Seq<T>;

    /// The values not yet handed out.
    closed spec fn view(&self) -> Seq<T> {
        self.list@
    }
}

impl<T> IntoIter<T> {
    /// Hands out the next value, or `None` once the stack is drained.
    pub fn next(&mut self) -> (r: Option<T>)
        ensures
            old(self)@.len() == 0 ==> r is None && final(self)@ == old(self)@,
            old(self)@.len() > 0 ==> r == Some(old(self)@[0]) && final(self)@ == old(self)@.drop_first(),
    {
        self.list.pop()
    }
}

} // verus!
