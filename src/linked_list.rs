//! A persistent singly-linked list whose nodes are shared by reference
//! counting, so that a list and the tails derived from it share suffixes.
use std::rc::Rc;
use vstd::prelude::*;

verus! {

type Link<T> = Option<Rc<Node<T>>>;

/// One cell of the list. A node never changes once it is linked, so any
/// number of lists may hold it.
pub struct Node<T> {
    val: T,
    next: Link<T>,
}

/// The values reachable from `link`, head first.
pub closed spec fn link_seq<T>(link: Link<T>) -> Seq<T>
    decreases link,
{
    match link {
        None => Seq::empty(),
        Some(node) => seq![node.val].add(link_seq(node.next)),
    }
}

/// Relies on `Rc::clone`: the new handle refers to the same node.
#[verifier::external_body]
fn share<T>(node: &Rc<Node<T>>) -> (r: Rc<Node<T>>)
    ensures
        r == *node,
{
    Rc::clone(node)
}

/// Relies on `Rc::try_unwrap`: the node itself when this was its only
/// handle, else the handle back. It neither panics nor unwinds.
#[verifier::external_body]
fn try_unwrap_node<T>(node: Rc<Node<T>>) -> (r: Result<Node<T>, Rc<Node<T>>>)
    ensures
        match r {
            Ok(n) => n == *node,
            Err(h) => h == node,
        },
    opens_invariants none
    no_unwind
{
    Rc::try_unwrap(node)
}

/// A list header: a handle to the first node, if any.
pub struct LinkedList<T> {
    head: Link<T>,
}

impl<T> View for LinkedList<T> {
    type V = Seq<T>;

    /// The reachable values, head first.
    closed spec fn view(&self) -> Seq<T> {
        link_seq(self.head)
    }
}

impl<T> LinkedList<T> {
    pub fn new() -> (r: LinkedList<T>)
        ensures
            r@ == Seq::<T>::empty(),
    {
        LinkedList { head: None }
    }

    /// Links a new node in front of the current head.
    pub fn insert(&mut self, val: T)
        ensures
            final(self)@ == seq![val].add(old(self)@),
    {
        let mut next: Link<T> = None;
        core::mem::swap(&mut self.head, &mut next);
        self.head = Some(Rc::new(Node { val, next }));
    }

    /// The value at the head, if any.
    pub fn head(&self) -> (r: Option<&T>)
        ensures
            self@.len() == 0 ==> r is None,
            self@.len() > 0 ==> r == Some(&self@[0]),
    {
        match &self.head {
            None => None,
            Some(node) => Some(&node.val),
        }
    }

    /// A new list over the nodes after the head, shared with this one; empty
    /// when this list is empty.
    pub fn tail(&self) -> (r: LinkedList<T>)
        ensures
            self@.len() == 0 ==> r@ == Seq::<T>::empty(),
            self@.len() > 0 ==> r@ == self@.drop_first(),
    {
        match &self.head {
            None => LinkedList { head: None },
            Some(first) => {
                let head = match &first.next {
                    None => None,
                    Some(second) => Some(share(second)),
                };
                let r = LinkedList { head };
                assert(self@ =~= seq![first.val].add(r@));
                r
            },
        }
    }
}

impl<T> Drop for LinkedList<T> {
    /// Releases the nodes that only this list holds, one at a time, and stops
    /// at the first node that another list still holds.
    fn drop(&mut self)
        ensures
            final(self)@ == Seq::<T>::empty(),
        opens_invariants none
        no_unwind
    {
        let mut link: Link<T> = None;
        core::mem::swap(&mut self.head, &mut link);
        loop
            decreases link_seq(link).len(),
        {
            match link {
                None => break,
                Some(node) => match try_unwrap_node(node) {
                    Ok(node) => {
                        link = node.next;
                    },
                    Err(_) => break,
                },
            }
        }
    }
}

} // verus!
