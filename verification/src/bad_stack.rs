//! A stack of `i32`, kept as a singly-linked list: each node owns the node
//! below it, and the list owns the top node.
//!
//! The list's view is the sequence of its elements from the top down.

use vstd::prelude::*;

verus! {

/// One node: an element and the link to the node below it.
struct Node {
    elem: i32,
    next: Link,
}

/// What a node, or the stack itself, has below it: nothing, or a node.
enum Link {
    Empty,
    More(Box<Node>),
}

impl Link {
    /// The elements of the nodes from this link down.
    spec fn elems(self) -> Seq<i32>
        decreases self,
    {
        match self {
            Link::Empty => Seq::empty(),
            Link::More(node) => seq![node.elem] + node.next.elems(),
        }
    }
}

/// A stack of `i32`. It owns its top node, and through it all the others.
pub struct List {
    head: Link,
}

impl View for List {
    type V = Seq<i32>;

    closed spec fn view(&self) -> Seq<i32> {
        self.head.elems()
    }
}

impl List {
    /// An empty stack.
    #[allow(clippy::new_without_default)]
    pub fn new() -> (list: Self)
        ensures
            list@ == Seq::<i32>::empty(),
    {
        List { head: Link::Empty }
    }

    /// Puts `elem` on top.
    pub fn push(&mut self, elem: i32)
        ensures
            final(self)@ == seq![elem] + old(self)@,
    {
        let newhead = Box::new(
            Node { elem, next: std::mem::replace(&mut self.head, Link::Empty) },
        );
        self.head = Link::More(newhead);
    }

    /// Takes the top element off, if there is one. An empty stack is left
    /// as it was.
    pub fn pop(&mut self) -> (popped: Option<i32>)
        ensures
            old(self)@.len() == 0 ==> popped is None && *final(self) == *old(self),
            old(self)@.len() > 0 ==> popped == Some(old(self)@[0])
                && final(self)@ == old(self)@.skip(1),
    {
        let Link::More(oldhead) = std::mem::replace(&mut self.head, Link::Empty) else {
            return None;
        };
        self.head = oldhead.next;
        Some(oldhead.elem)
    }

    /// Takes the stack down node by node, from the top, until it is
    /// empty.
    pub fn clear(&mut self)
        ensures
            final(self)@ == Seq::<i32>::empty(),
    {
        let mut current = std::mem::replace(&mut self.head, Link::Empty);
        loop
            invariant
                self.head is Empty,
            decreases current.elems().len(),
        {
            match current {
                Link::Empty => {
                    break ;
                },
                Link::More(mut boxed_node) => {
                    current = std::mem::replace(&mut boxed_node.next, Link::Empty);
                },
            }
        }
    }
}

} // verus!
