//! A stack of any element type, kept as a singly-linked list: each node
//! owns the node below it, and the list owns the top node.
//!
//! The list's view is the sequence of its elements from the top down.

use vstd::prelude::*;

verus! {

type Link<T> = Option<Box<Node<T>>>;

/// One node of a stack. Its view is the sequence of the elements from this
/// node down to the bottom of the stack.
pub struct Node<T> {
    elem: T,
    next: Link<T>,
}

/// The elements of the nodes from `link` down.
spec fn elems<T>(link: Link<T>) -> Seq<T>
    decreases link,
{
    match link {
        None => Seq::empty(),
        Some(node) => seq![node.elem] + elems(node.next),
    }
}

impl<T> View for Node<T> {
    type V = Seq<T>;

    closed spec fn view(&self) -> Seq<T> {
        seq![self.elem] + elems(self.next)
    }
}

/// A stack. It owns its top node, and through it all the others.
pub struct List<T> {
    head: Link<T>,
}

impl<T> View for List<T> {
    type V = Seq<T>;

    closed spec fn view(&self) -> Seq<T> {
        elems(self.head)
    }
}

impl<T> List<T> {
    /// An empty stack.
    #[allow(clippy::new_without_default)]
    pub fn new() -> (list: Self)
        ensures
            list@ == Seq::<T>::empty(),
    {
        List { head: None }
    }

    /// Puts `elem` on top.
    pub fn push(&mut self, elem: T)
        ensures
            final(self)@ == seq![elem] + old(self)@,
    {
        let newhead = Box::new(Node { elem, next: self.head.take() });
        self.head = Some(newhead);
    }

    /// Takes the top element off, if there is one. An empty stack is left
    /// as it was.
    pub fn pop(&mut self) -> (popped: Option<T>)
        ensures
            old(self)@.len() == 0 ==> popped is None && *final(self) == *old(self),
            old(self)@.len() > 0 ==> popped == Some(old(self)@[0])
                && final(self)@ == old(self)@.skip(1),
    {
        match self.head.take() {
            None => None,
            Some(head) => {
                let node = *head;
                self.head = node.next;
                Some(node.elem)
            },
        }
    }

    /// A shared view of the top element, if there is one.
    pub fn peek(&self) -> (top: Option<&T>)
        ensures
            self@.len() == 0 ==> top is None,
            self@.len() > 0 ==> top == Some(&self@[0]),
    {
        match &self.head {
            None => None,
            Some(head) => Some(&head.elem),
        }
    }

    /// An exclusive view of the top element, if there is one. What is
    /// written through it is the top element from then on; nothing else of
    /// the stack changes.
    pub fn peek_mut(&mut self) -> (top: Option<&mut T>)
        ensures
            old(self)@.len() == 0 ==> top is None && *final(self) == *old(self),
            old(self)@.len() > 0 ==> top is Some && *top.unwrap() == old(self)@[0] && final(self)@
                == old(self)@.update(0, *final(top.unwrap())),
    {
        match &mut self.head {
            None => None,
            Some(head) => Some(&mut head.elem),
        }
    }

    /// Takes the stack down node by node, from the top, until it is
    /// empty.
    pub fn clear(&mut self)
        ensures
            final(self)@ == Seq::<T>::empty(),
    {
        let mut current = self.head.take();
        loop
            invariant
                self.head is None,
            decreases elems(current).len(),
        {
            match current {
                None => {
                    break ;
                },
                Some(mut boxed_node) => {
                    current = boxed_node.next.take();
                },
            }
        }
    }

    /// Turns the stack into an iterator that hands its elements out by
    /// value, from the top down.
    #[allow(clippy::should_implement_trait)]
    pub fn into_iter(self) -> (iter: IntoIter<T>)
        ensures
            iter@ == self@,
    {
        IntoIter(self)
    }

    /// An iterator over shared views of the elements, from the top down.
    pub fn iter(&self) -> (iter: Iter<'_, T>)
        ensures
            iter@ == self@,
    {
        Iter {
            next: match &self.head {
                None => None,
                Some(head) => Some(&**head),
            },
        }
    }

    /// An iterator over exclusive views of the elements, from the top
    /// down. When the iterator and its items are done with, the stack
    /// holds what was written through them, and is otherwise as it was.
    pub fn iter_mut(&mut self) -> (iter: IterMut<'_, T>)
        ensures
            iter@ == old(self)@,
            final(self)@ == (match iter.cursor() {
                None => Seq::empty(),
                Some(node) => final(node)@,
            }),
    {
        IterMut {
            next: match &mut self.head {
                None => None,
                Some(head) => Some(&mut **head),
            },
        }
    }
}

/// A stack that is being taken apart from the top. Its view is what is
/// still to come.
pub struct IntoIter<T>(List<T>);

impl<T> View for IntoIter<T> {
    type V = Seq<T>;

    closed spec fn view(&self) -> Seq<T> {
        self.0@
    }
}

impl<T> IntoIter<T> {
    /// Hands out the top element of what is left, if anything is.
    #[allow(clippy::should_implement_trait)]
    pub fn next(&mut self) -> (item: Option<T>)
        ensures
            old(self)@.len() == 0 ==> item is None && *final(self) == *old(self),
            old(self)@.len() > 0 ==> item == Some(old(self)@[0])
                && final(self)@ == old(self)@.skip(1),
    {
        self.0.pop()
    }
}

/// A walk down a stack that lends its elements out. Its view is what is
/// still to come.
pub struct Iter<'a, T> {
    next: Option<&'a Node<T>>,
}

impl<'a, T> View for Iter<'a, T> {
    type V = Seq<T>;

    closed spec fn view(&self) -> Seq<T> {
        match self.next {
            None => Seq::empty(),
            Some(node) => node@,
        }
    }
}

impl<'a, T> Iter<'a, T> {
    /// Lends out the next element down, if there is one.
    #[allow(clippy::should_implement_trait)]
    pub fn next(&mut self) -> (item: Option<&'a T>)
        ensures
            old(self)@.len() == 0 ==> item is None && *final(self) == *old(self),
            old(self)@.len() > 0 ==> item == Some(&old(self)@[0])
                && final(self)@ == old(self)@.skip(1),
    {
        match self.next {
            None => None,
            Some(node) => {
                self.next = match &node.next {
                    None => None,
                    Some(below) => Some(&**below),
                };
                Some(&node.elem)
            },
        }
    }
}

/// A walk down a stack that lends its elements out for writing. Its view
/// is what is still to come, as it stands now.
pub struct IterMut<'a, T> {
    /// The node that the next item comes from; absent once nothing is to
    /// come.
    pub next: Option<&'a mut Node<T>>,
}

impl<'a, T> View for IterMut<'a, T> {
    type V = Seq<T>;

    open spec fn view(&self) -> Seq<T> {
        match self.cursor() {
            None => Seq::empty(),
            Some(node) => node@,
        }
    }
}

impl<'a, T> IterMut<'a, T> {
    /// The node that the next item comes from, as the iterator borrows it
    /// from the stack; absent once nothing is to come.
    pub open spec fn cursor(&self) -> Option<&'a mut Node<T>> {
        self.next
    }

    /// Lends out the next element down for writing, if there is one. What
    /// the borrowed part of the stack holds in the end is what is written
    /// through this item, followed by what the part below it holds in the
    /// end.
    #[allow(clippy::should_implement_trait)]
    pub fn next(&mut self) -> (item: Option<&'a mut T>)
        ensures
            old(self)@.len() == 0 ==> item is None && final(self)@ == old(self)@,
            old(self)@.len() > 0 ==> item is Some && *item.unwrap() == old(self)@[0]
                && final(self)@ == old(self)@.skip(1),
            old(self).cursor() matches Some(node) ==> item is Some
                && final(node)@ == seq![*final(item.unwrap())] + (match final(self).cursor() {
                    None => Seq::empty(),
                    Some(below) => final(below)@,
                }),
    {
        match self.next.take() {
            None => None,
            Some(node) => {
                self.next = match &mut node.next {
                    None => None,
                    Some(below) => Some(&mut **below),
                };
                Some(&mut node.elem)
            },
        }
    }
}

} // verus!
