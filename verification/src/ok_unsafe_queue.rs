//! A queue of any element type, kept as a singly-linked list: elements
//! enter at the back and leave at the front. Each node owns the node
//! behind it, and the list owns the front node.
//!
//! The list's view is the sequence of its elements from front to back.

use vstd::prelude::*;

verus! {

type Link<T> = Option<Box<Node<T>>>;

/// One node of a queue. Its view is the sequence of the elements from this
/// node to the back of the queue.
pub struct Node<T> {
    elem: T,
    next: Link<T>,
}

/// The elements of the nodes from `link` to the back.
spec fn elems<T>(link: Link<T>) -> Seq<T>
    decreases link,
{
    match link {
        None => Seq::empty(),
        Some(node) => seq![node.elem] + elems(node.next),
    }
}

impl<T> View for Node<T> {
    type V = Seq<T>;

    closed spec fn view(&self) -> Seq<T> {
        seq![self.elem] + elems(self.next)
    }
}

/// A queue. It owns its front node, and through it all the others.
pub struct List<T> {
    head: Link<T>,
}

impl<T> View for List<T> {
    type V = Seq<T>;

    closed spec fn view(&self) -> Seq<T> {
        elems(self.head)
    }
}

impl<T> List<T> {
    /// An empty queue.
    #[allow(clippy::new_without_default)]
    pub fn new() -> (list: Self)
        ensures
            list@ == Seq::<T>::empty(),
    {
        List { head: None }
    }

    /// Puts `elem` at the back. The way to the back leads over every
    /// node.
    pub fn push(&mut self, elem: T)
        ensures
            final(self)@ == old(self)@.push(elem),
    {
        let newtail = Box::new(Node { elem, next: None });
        let ghost mut passed: Seq<T> = Seq::empty();
        let mut cur = &mut self.head;
        loop
            invariant
                old(self)@ == passed + elems(*cur),
                elems(after_borrow(self.head)) == passed + elems(*final(cur)),
            ensures
                *cur is None,
            decreases elems(*cur).len(),
        {
            match cur {
                None => {
                    break ;
                },
                Some(node) => {
                    proof {
                        passed = passed.push(node.elem);
                    }
                    cur = &mut node.next;
                },
            }
        }
        *cur = Some(newtail);
    }

    /// Takes the front element out, if there is one. An empty queue is
    /// left as it was.
    pub fn pop(&mut self) -> (popped: Option<T>)
        ensures
            old(self)@.len() == 0 ==> popped is None && *final(self) == *old(self),
            old(self)@.len() > 0 ==> popped == Some(old(self)@[0])
                && final(self)@ == old(self)@.skip(1),
    {
        match self.head.take() {
            None => None,
            Some(head) => {
                let node = *head;
                self.head = node.next;
                Some(node.elem)
            },
        }
    }

    /// A shared view of the front element, if there is one.
    pub fn peek(&self) -> (front: Option<&T>)
        ensures
            self@.len() == 0 ==> front is None,
            self@.len() > 0 ==> front == Some(&self@[0]),
    {
        match &self.head {
            None => None,
            Some(head) => Some(&head.elem),
        }
    }

    /// An exclusive view of the front element, if there is one. What is
    /// written through it is the front element from then on; nothing else
    /// of the queue changes.
    pub fn peek_mut(&mut self) -> (front: Option<&mut T>)
        ensures
            old(self)@.len() == 0 ==> front is None && *final(self) == *old(self),
            old(self)@.len() > 0 ==> front is Some && *front.unwrap() == old(self)@[0]
                && final(self)@
                == old(self)@.update(0, *final(front.unwrap())),
    {
        match &mut self.head {
            None => None,
            Some(head) => Some(&mut head.elem),
        }
    }

    /// Takes the queue down node by node, from the front, until it is
    /// empty.
    pub fn clear(&mut self)
        ensures
            final(self)@ == Seq::<T>::empty(),
    {
        loop
            ensures
                self@.len() == 0,
            decreases self@.len(),
        {
            if self.pop().is_none() {
                break ;
            }
        }
    }

    /// Turns the queue into an iterator that hands its elements out by
    /// value, from front to back.
    #[allow(clippy::should_implement_trait)]
    pub fn into_iter(self) -> (iter: IntoIter<T>)
        ensures
            iter@ == self@,
    {
        IntoIter(self)
    }

    /// An iterator over shared views of the elements, from front to back.
    pub fn iter(&self) -> (iter: Iter<'_, T>)
        ensures
            iter@ == self@,
    {
        Iter {
            next: match &self.head {
                None => None,
                Some(head) => Some(&**head),
            },
        }
    }

    /// An iterator over exclusive views of the elements, from front to
    /// back. When the iterator and its items are done with, the queue
    /// holds what was written through them, and is otherwise as it was.
    pub fn iter_mut(&mut self) -> (iter: IterMut<'_, T>)
        ensures
            iter@ == old(self)@,
            final(self)@ == (match iter.cursor() {
                None => Seq::empty(),
                Some(node) => final(node)@,
            }),
    {
        IterMut {
            next: match &mut self.head {
                None => None,
                Some(head) => Some(&mut **head),
            },
        }
    }
}

/// A queue that is being taken apart from the front. Its view is what is
/// still to come.
pub struct IntoIter<T>(List<T>);

impl<T> View for IntoIter<T> {
    type V = Seq<T>;

    closed spec fn view(&self) -> Seq<T> {
        self.0@
    }
}

impl<T> IntoIter<T> {
    /// Hands out the front element of what is left, if anything is.
    #[allow(clippy::should_implement_trait)]
    pub fn next(&mut self) -> (item: Option<T>)
        ensures
            old(self)@.len() == 0 ==> item is None && *final(self) == *old(self),
            old(self)@.len() > 0 ==> item == Some(old(self)@[0])
                && final(self)@ == old(self)@.skip(1),
    {
        self.0.pop()
    }
}

/// A walk along a queue that lends its elements out. Its view is what is
/// still to come.
pub struct Iter<'a, T> {
    next: Option<&'a Node<T>>,
}

impl<'a, T> View for Iter<'a, T> {
    type V = Seq<T>;

    closed spec fn view(&self) -> Seq<T> {
        match self.next {
            None => Seq::empty(),
            Some(node) => node@,
        }
    }
}

impl<'a, T> Iter<'a, T> {
    /// Lends out the next element, if there is one.
    #[allow(clippy::should_implement_trait)]
    pub fn next(&mut self) -> (item: Option<&'a T>)
        ensures
            old(self)@.len() == 0 ==> item is None && *final(self) == *old(self),
            old(self)@.len() > 0 ==> item == Some(&old(self)@[0])
                && final(self)@ == old(self)@.skip(1),
    {
        match self.next {
            None => None,
            Some(node) => {
                self.next = match &node.next {
                    None => None,
                    Some(behind) => Some(&**behind),
                };
                Some(&node.elem)
            },
        }
    }
}

/// A walk along a queue that lends its elements out for writing. Its view
/// is what is still to come, as it stands now.
pub struct IterMut<'a, T> {
    /// The node that the next item comes from; absent once nothing is to
    /// come.
    pub next: Option<&'a mut Node<T>>,
}

impl<'a, T> View for IterMut<'a, T> {
    type V = Seq<T>;

    open spec fn view(&self) -> Seq<T> {
        match self.cursor() {
            None => Seq::empty(),
            Some(node) => node@,
        }
    }
}

impl<'a, T> IterMut<'a, T> {
    /// The node that the next item comes from, as the iterator borrows it
    /// from the queue; absent once nothing is to come.
    pub open spec fn cursor(&self) -> Option<&'a mut Node<T>> {
        self.next
    }

    /// Lends out the next element for writing, if there is one. What the
    /// borrowed part of the queue holds in the end is what is written
    /// through this item, followed by what the part behind it holds in the
    /// end.
    #[allow(clippy::should_implement_trait)]
    pub fn next(&mut self) -> (item: Option<&'a mut T>)
        ensures
            old(self)@.len() == 0 ==> item is None && final(self)@ == old(self)@,
            old(self)@.len() > 0 ==> item is Some && *item.unwrap() == old(self)@[0]
                && final(self)@ == old(self)@.skip(1),
            old(self).cursor() matches Some(node) ==> item is Some
                && final(node)@ == seq![*final(item.unwrap())] + (match final(self).cursor() {
                    None => Seq::empty(),
                    Some(behind) => final(behind)@,
                }),
    {
        match self.next.take() {
            None => None,
            Some(node) => {
                self.next = match &mut node.next {
                    None => None,
                    Some(behind) => Some(&mut **behind),
                };
                Some(&mut node.elem)
            },
        }
    }
}

} // verus!
