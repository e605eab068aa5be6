//! A persistent singly-linked list whose nodes are shared across threads by
//! atomic reference counting, so that a list and the tails derived from it
//! share suffixes.
//!
//! A node never changes once it is linked: a value reached through a shared
//! handle is only ever read, so no lock is needed to read it from several
//! threads. A list header itself is not synchronised; to insert from several
//! threads, put the whole list behind a mutex.
use std::sync::Arc;
use vstd::prelude::*;

verus! {

type Link<T> = Option<Arc<Node<T>>>;

/// One cell of the list. A node never changes once it is linked, so any
/// number of lists may hold it.
pub struct Node<T> {
    val: T,
    next: Link<T>,
}

/// The values reachable from `link`, head first.
pub closed spec fn link_seq<T>(link: Link<T>) -> Seq<T>
    decreases link,
{
    match link {
        None => Seq::empty(),
        Some(node) => seq![node.val].add(link_seq(node.next)),
    }
}

/// Relies on `Arc::clone`: the new handle refers to the same node.
#[verifier::external_body]
fn share<T>(node: &Arc<Node<T>>) -> (r: Arc<Node<T>>)
    ensures
        r == *node,
{
    Arc::clone(node)
}

/// Relies on `Arc::into_inner`: the node itself when this was its last
/// handle, else `None` with this handle released. Of handles released at the
/// same time, exactly one gets the node. It neither panics nor unwinds.
#[verifier::external_body]
fn into_inner_node<T>(node: Arc<Node<T>>) -> (r: Option<Node<T>>)
    ensures
        r matches Some(n) ==> n == *node,
    opens_invariants none
    no_unwind
{
    Arc::into_inner(node)
}

impl<T> View for Node<T> {
    type V = T;

    /// The value the node holds.
    closed spec fn view(&self) -> T {
        self.val
    }
}

impl<T> Node<T> {
    /// The value the node holds.
    pub fn val(&self) -> (r: &T)
        ensures
            *r == self@,
    {
        &self.val
    }
}

/// A list header: a handle to the first node, if any.
pub struct AtomicLinkedList<T> {
    head: Link<T>,
}

impl<T> View for AtomicLinkedList<T> {
    type V = Seq<T>;

    /// The reachable values, head first.
    closed spec fn view(&self) -> Seq<T> {
        link_seq(self.head)
    }
}

impl<T> AtomicLinkedList<T> {
    pub fn new() -> (r: AtomicLinkedList<T>)
        ensures
            r@ == Seq::<T>::empty(),
    {
        AtomicLinkedList { head: None }
    }

    /// Links a new node in front of the current head.
    pub fn insert(&mut self, val: T)
        ensures
            final(self)@ == seq![val].add(old(self)@),
    {
        let mut next: Link<T> = None;
        core::mem::swap(&mut self.head, &mut next);
        self.head = Some(Arc::new(Node { val, next }));
    }

    /// The head node, if any.
    pub fn head(&self) -> (r: Option<&Node<T>>)
        ensures
            self@.len() == 0 ==> r is None,
            self@.len() > 0 ==> r is Some && r.unwrap()@ == self@[0],
    {
        match &self.head {
            None => None,
            Some(node) => Some(&**node),
        }
    }

    /// The number of reachable nodes, counted by walking the chain.
    pub fn len(&self) -> (r: usize)
        requires
            self@.len() <= usize::MAX,
        ensures
            r == self@.len(),
    {
        let mut n: usize = 0;
        let mut cur: &Link<T> = &self.head;
        loop
            invariant
                n + link_seq(*cur).len() == self@.len(),
                self@.len() <= usize::MAX,
            decreases link_seq(*cur).len(),
        {
            match cur {
                None => return n,
                Some(node) => {
                    n = n + 1;
                    cur = &node.next;
                },
            }
        }
    }

    /// A new list over the nodes after the head, shared with this one; empty
    /// when this list is empty.
    pub fn tail(&self) -> (r: AtomicLinkedList<T>)
        ensures
            self@.len() == 0 ==> r@ == Seq::<T>::empty(),
            self@.len() > 0 ==> r@ == self@.drop_first(),
    {
        match &self.head {
            None => AtomicLinkedList { head: None },
            Some(first) => {
                let head = match &first.next {
                    None => None,
                    Some(second) => Some(share(second)),
                };
                let r = AtomicLinkedList { head };
                assert(self@ =~= seq![first.val].add(r@));
                r
            },
        }
    }
}

/// Any series of `insert` calls on one list, however the callers interleave,
/// keeps every value exactly once: when `states[i + 1]` is what inserting
/// `vals[i]` makes of `states[i]`, the last state holds the values in reverse
/// order of insertion, newest first, in front of the values there before, and
/// its length grows by exactly the number of inserts.
pub proof fn lemma_inserts_are_all_kept<T>(states: Seq<Seq<T>>, vals: Seq<T>)
    requires
        states.len() == vals.len() + 1,
        forall|i: int| 0 <= i < vals.len() ==> #[trigger] states[i + 1] == seq![vals[i]].add(states[i]),
    ensures
        states.last().len() == states[0].len() + vals.len(),
        forall|j: int| 0 <= j < vals.len() ==> #[trigger] states.last()[j] == vals[vals.len() - 1 - j],
        forall|j: int| 0 <= j < states[0].len() ==> #[trigger] states.last()[vals.len() + j] == states[0][j],
    decreases vals.len(),
{
    if vals.len() > 0 {
        let n = vals.len() - 1;
        lemma_inserts_are_all_kept(states.drop_last(), vals.drop_last());
        assert(states.drop_last().last() == states[n]);
        assert(states[n + 1] == seq![vals[n]].add(states[n]));
        assert forall|j: int| 0 <= j < states[0].len() implies #[trigger] states.last()[vals.len() + j]
            == states[0][j] by {
            assert(states.last()[vals.len() + j] == states[n][n + j]);
            assert(states.drop_last()[0] == states[0]);
        }
    }
}

impl<T> Drop for AtomicLinkedList<T> {
    /// Releases the nodes that only this list holds, one at a time, and stops
    /// at the first node that another list still holds.
    fn drop(&mut self)
        ensures
            final(self)@ == Seq::<T>::empty(),
        opens_invariants none
        no_unwind
    {
        let mut link: Link<T> = None;
        core::mem::swap(&mut self.head, &mut link);
        loop
            decreases link_seq(link).len(),
        {
            match link {
                None => break,
                Some(node) => match into_inner_node(node) {
                    Some(node) => {
                        link = node.next;
                    },
                    None => break,
                },
            }
        }
    }
}

} // verus!
