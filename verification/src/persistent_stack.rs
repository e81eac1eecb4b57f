//! A persistent stack of any element type: a list is never changed, and
//! lists that end in the same elements share the nodes that hold them.
//!
//! The list's view is the sequence of its elements from the top down.

use std::sync::Arc;
use vstd::prelude::*;

verus! {

type Link<T> = Option<Arc<Node<T>>>;

/// One node of a stack. Its view is the sequence of the elements from this
/// node down to the bottom of the stack.
struct Node<T> {
    elem: T,
    next: Link<T>,
}

/// The elements of the nodes from `link` down.
spec fn elems<T>(link: Link<T>) -> Seq<T>
    decreases link,
{
    match link {
        None => Seq::empty(),
        Some(node) => seq![node.elem] + elems(node.next),
    }
}

impl<T> View for Node<T> {
    type V = Seq<T>;

    closed spec fn view(&self) -> Seq<T> {
        seq![self.elem] + elems(self.next)
    }
}

/// `Arc::clone` makes a second handle to the same allocation: the node
/// behind the new handle is the node behind the old one.
#[verifier::external_body]
fn share<T>(node: &Arc<Node<T>>) -> (handle: Arc<Node<T>>)
    ensures
        handle == *node,
{
    Arc::clone(node)
}

/// `Arc::into_inner` gives the node back where `handle` was the last
/// handle to it, and nothing where others are left. Which of the two
/// happens is not said here.
#[verifier::external_body]
fn reclaim<T>(handle: Arc<Node<T>>) -> (node: Option<Node<T>>)
    ensures
        node matches Some(inner) ==> inner == *handle,
{
    Arc::into_inner(handle)
}

/// A second handle to the node that `link` leads to, if it leads to one.
fn share_link<T>(link: &Link<T>) -> (copy: Link<T>)
    ensures
        copy == *link,
{
    match link {
        None => None,
        Some(node) => Some(share(node)),
    }
}

/// A stack that is never changed. It holds a handle to its top node,
/// which other stacks may hold too.
pub struct List<T> {
    head: Link<T>,
}

impl<T> View for List<T> {
    type V = Seq<T>;

    closed spec fn view(&self) -> Seq<T> {
        elems(self.head)
    }
}

impl<T> List<T> {
    /// An empty stack.
    #[allow(clippy::new_without_default)]
    pub fn new() -> (list: Self)
        ensures
            list@ == Seq::<T>::empty(),
    {
        List { head: None }
    }

    /// The stack with `elem` on top of this one, which stays as it is.
    pub fn prepend(&self, elem: T) -> (list: List<T>)
        ensures
            list@ == seq![elem] + self@,
    {
        List { head: Some(Arc::new(Node { elem, next: share_link(&self.head) })) }
    }

    /// The stack without its top element; the empty stack where this one
    /// is empty.
    pub fn tail(&self) -> (list: List<T>)
        ensures
            self@.len() == 0 ==> list@ == self@,
            self@.len() > 0 ==> list@ == self@.skip(1),
    {
        List {
            head: match &self.head {
                None => None,
                Some(head) => {
                    share_link(&head.next)
                },
            },
        }
    }

    /// A shared view of the top element, if there is one.
    pub fn head(&self) -> (top: Option<&T>)
        ensures
            self@.len() == 0 ==> top is None,
            self@.len() > 0 ==> top == Some(&self@[0]),
    {
        match &self.head {
            None => None,
            Some(head) => Some(&head.elem),
        }
    }

    /// An iterator over shared views of the elements, from the top down.
    pub fn iter(&self) -> (iter: Iter<'_, T>)
        ensures
            iter@ == self@,
    {
        Iter {
            next: match &self.head {
                None => None,
                Some(head) => Some(&**head),
            },
        }
    }

    /// Lets go of the nodes one by one, from the top, down to the first
    /// that another stack still holds; this stack is empty afterwards.
    pub fn clear(&mut self)
        ensures
            final(self)@ == Seq::<T>::empty(),
    {
        let mut head = self.head.take();
        loop
            invariant
                self.head is None,
            decreases elems(head).len(),
        {
            match head.take() {
                None => {
                    break ;
                },
                Some(handle) => {
                    match reclaim(handle) {
                        Some(mut node) => {
                            head = node.next.take();
                        },
                        None => {
                            break ;
                        },
                    }
                },
            }
        }
    }
}

/// A walk down a stack that lends its elements out. Its view is what is
/// still to come.
pub struct Iter<'a, T> {
    next: Option<&'a Node<T>>,
}

impl<'a, T> View for Iter<'a, T> {
    type V = Seq<T>;

    closed spec fn view(&self) -> Seq<T> {
        match self.next {
            None => Seq::empty(),
            Some(node) => node@,
        }
    }
}

impl<'a, T> Iter<'a, T> {
    /// Lends out the next element down, if there is one.
    #[allow(clippy::should_implement_trait)]
    pub fn next(&mut self) -> (item: Option<&'a T>)
        ensures
            old(self)@.len() == 0 ==> item is None && *final(self) == *old(self),
            old(self)@.len() > 0 ==> item == Some(&old(self)@[0])
                && final(self)@ == old(self)@.skip(1),
    {
        match self.next {
            None => None,
            Some(node) => {
                self.next = match &node.next {
                    None => None,
                    Some(below) => Some(&**below),
                };
                Some(&node.elem)
            },
        }
    }
}

} // verus!
