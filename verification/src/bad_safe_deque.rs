//! A double-ended queue kept as a doubly-linked list.
//!
//! Every node is reachable from both ends: its forward link names the node
//! behind it and its backward link the node before it. The nodes live in an
//! arena owned by the list, and a link is a node's slot in that arena, so
//! no node is ever owned from two places. A slot whose node has been popped
//! stays vacant until a later push takes it again.
//!
//! The list's view is the sequence of its elements from front to back.

use vstd::prelude::*;

verus! {

/// A handle to a neighbouring node, absent where there is none.
type Link = Option<usize>;

/// One node: an element, and the handles of the node behind it and of
/// the node before it.
struct Node<T> {
    elem: T,
    next: Link,
    prev: Link,
}

impl<T> Node<T> {
    /// A node that is linked to nothing yet.
    fn new(elem: T) -> (node: Self)
        ensures
            node.elem == elem,
            node.next is None,
            node.prev is None,
    {
        Node { elem, prev: None, next: None }
    }
}

/// A double-ended queue. `slots` is the arena, `free` names its vacant
/// slots, and `order` is the order of the nodes from front to back, kept
/// for the proofs only.
pub struct List<T> {
    slots: Vec<Option<Node<T>>>,
    free: Vec<usize>,
    head: Link,
    tail: Link,
    order: Ghost<Seq<usize>>,
}

/// The handle at position `i` of `order`, absent beyond either end.
pub open spec fn handle_at(order: Seq<usize>, i: int) -> Option<usize> {
    if 0 <= i < order.len() {
        Some(order[i])
    } else {
        None
    }
}

/// The node at position `i` of `order` is there, and its two links name
/// its two neighbours in `order`.
spec fn linked<T>(slots: Seq<Option<Node<T>>>, order: Seq<usize>, i: int) -> bool {
    let handle = order[i];
    &&& handle < slots.len()
    &&& slots[handle as int] matches Some(node)
    &&& node.next == handle_at(order, i + 1)
    &&& node.prev == handle_at(order, i - 1)
}

/// The slot that `free` names at position `j` exists and holds no node.
spec fn vacant<T>(slots: Seq<Option<Node<T>>>, free: Seq<usize>, j: int) -> bool {
    free[j] < slots.len() && slots[free[j] as int] is None
}

/// Every slot is either one of the nodes in `order`, once, or one of the
/// vacant slots in `free`, once.
spec fn arena_wf<T>(slots: Seq<Option<Node<T>>>, free: Seq<usize>, order: Seq<usize>) -> bool {
    &&& order.no_duplicates()
    &&& forall|i: int| 0 <= i < order.len() ==> #[trigger] linked(slots, order, i)
    &&& free.no_duplicates()
    &&& forall|j: int| 0 <= j < free.len() ==> #[trigger] vacant(slots, free, j)
    &&& order.len() + free.len() == slots.len()
}

/// The elements of the nodes in `order`.
spec fn elems<T>(slots: Seq<Option<Node<T>>>, order: Seq<usize>) -> Seq<T> {
    Seq::new(order.len(), |i: int| slots[order[i] as int].unwrap().elem)
}

impl<T> View for List<T> {
    type V = Seq<T>;

    closed spec fn view(&self) -> Seq<T> {
        elems(self.slots@, self.order@)
    }
}

/// Stores `node` in a vacant slot, or in a new one where none is vacant.
fn place<T>(slots: &mut Vec<Option<Node<T>>>, free: &mut Vec<usize>, node: Node<T>) -> (handle:
    usize)
    requires
        old(free)@.no_duplicates(),
        forall|j: int| 0 <= j < old(free)@.len() ==> #[trigger] vacant(old(slots)@, old(free)@, j),
    ensures
        handle < final(slots)@.len(),
        final(slots)@[handle as int] == Some(node),
        old(slots)@.len() <= final(slots)@.len(),
        forall|k: int|
            0 <= k < old(slots)@.len() && k != handle ==> final(slots)@[k] == old(slots)@[k],
        handle < old(slots)@.len() ==> old(slots)@[handle as int] is None,
        final(free)@.no_duplicates(),
        forall|j: int|
            0 <= j < final(free)@.len() ==> #[trigger] vacant(final(slots)@, final(free)@, j),
        final(slots)@.len() - final(free)@.len() == old(slots)@.len() - old(free)@.len() + 1,
{
    match free.pop() {
        Some(handle) => {
            assert(vacant(old(slots)@, old(free)@, old(free)@.len() - 1));
            slots[handle] = Some(node);
            assert forall|j: int| 0 <= j < free@.len() implies #[trigger] vacant(
                slots@,
                free@,
                j,
            ) by {
                assert(vacant(old(slots)@, old(free)@, j));
            }
            handle
        },
        None => {
            let handle = slots.len();
            slots.push(Some(node));
            handle
        },
    }
}

/// Takes the node out of its slot, which is vacant from then on.
fn lift<T>(slots: &mut Vec<Option<Node<T>>>, handle: usize) -> (node: Node<T>)
    requires
        handle < old(slots)@.len(),
        old(slots)@[handle as int] is Some,
    ensures
        node == old(slots)@[handle as int].unwrap(),
        final(slots)@ == old(slots)@.update(handle as int, None),
{
    slots[handle].take().unwrap()
}

/// Sets the forward link of the node in the slot `handle`.
fn set_next<T>(slots: &mut Vec<Option<Node<T>>>, handle: usize, next: Link)
    requires
        handle < old(slots)@.len(),
        old(slots)@[handle as int] is Some,
    ensures
        final(slots)@.len() == old(slots)@.len(),
        forall|k: int|
            0 <= k < old(slots)@.len() && k != handle ==> final(slots)@[k] == old(slots)@[k],
        ({
            let before = old(slots)@[handle as int].unwrap();
            &&& final(slots)@[handle as int] matches Some(node)
            &&& node.next == next
            &&& node.prev == before.prev
            &&& node.elem == before.elem
        }),
{
    match &mut slots[handle] {
        Some(node) => {
            node.next = next;
        },
        None => {},
    }
}

/// Sets the backward link of the node in the slot `handle`.
fn set_prev<T>(slots: &mut Vec<Option<Node<T>>>, handle: usize, prev: Link)
    requires
        handle < old(slots)@.len(),
        old(slots)@[handle as int] is Some,
    ensures
        final(slots)@.len() == old(slots)@.len(),
        forall|k: int|
            0 <= k < old(slots)@.len() && k != handle ==> final(slots)@[k] == old(slots)@[k],
        ({
            let before = old(slots)@[handle as int].unwrap();
            &&& final(slots)@[handle as int] matches Some(node)
            &&& node.prev == prev
            &&& node.next == before.next
            &&& node.elem == before.elem
        }),
{
    match &mut slots[handle] {
        Some(node) => {
            node.prev = prev;
        },
        None => {},
    }
}

/// Writing a new element into the node at position `i` of `order` leaves
/// the arena well formed and changes that one element of the list.
proof fn lemma_overwrite<T>(
    slots: Seq<Option<Node<T>>>,
    written: Seq<Option<Node<T>>>,
    free: Seq<usize>,
    order: Seq<usize>,
    i: int,
)
    requires
        arena_wf(slots, free, order),
        0 <= i < order.len(),
        written.len() == slots.len(),
        forall|k: int| 0 <= k < slots.len() && k != order[i] ==> written[k] == slots[k],
        ({
            let before = slots[order[i] as int].unwrap();
            &&& written[order[i] as int] matches Some(node)
            &&& node.next == before.next
            &&& node.prev == before.prev
        }),
    ensures
        arena_wf(written, free, order),
        elems(written, order) == elems(slots, order).update(
            i,
            written[order[i] as int].unwrap().elem,
        ),
{
    assert forall|k: int| 0 <= k < order.len() implies #[trigger] linked(written, order, k) by {
        assert(linked(slots, order, k));
    }
    assert forall|j: int| 0 <= j < free.len() implies #[trigger] vacant(written, free, j) by {
        assert(vacant(slots, free, j));
        assert(linked(slots, order, i));
    }
    assert forall|k: int| 0 <= k < order.len() && k != i implies written[order[k] as int]
        == slots[order[k] as int] by {
        assert(linked(slots, order, k));
    }
}

impl<T> List<T> {
    /// What holds of every list between two calls: the nodes are linked
    /// to one another in both directions in one order, from `head` to
    /// `tail`, and the slots of the arena that hold none of them are the
    /// vacant ones.
    pub closed spec fn wf(&self) -> bool {
        &&& arena_wf(self.slots@, self.free@, self.order@)
        &&& self.head == handle_at(self.order@, 0)
        &&& self.tail == handle_at(self.order@, self.order@.len() - 1)
    }

    /// An empty list.
    #[allow(clippy::new_without_default)]
    pub fn new() -> (list: Self)
        ensures
            list.wf(),
            list@ == Seq::<T>::empty(),
    {
        List {
            slots: Vec::new(),
            free: Vec::new(),
            head: None,
            tail: None,
            order: Ghost(Seq::empty()),
        }
    }

    /// Puts `elem` in front of all the others.
    pub fn push_front(&mut self, elem: T)
        requires
            old(self).wf(),
        ensures
            final(self).wf(),
            final(self)@ == seq![elem] + old(self)@,
    {
        let newhead = place(&mut self.slots, &mut self.free, Node::new(elem));
        let ghost placed = self.slots@;
        match self.head.take() {
            Some(oldhead) => {
                assert(linked(old(self).slots@, old(self).order@, 0));
                set_prev(&mut self.slots, oldhead, Some(newhead));
                set_next(&mut self.slots, newhead, Some(oldhead));
                self.head = Some(newhead);
            },
            None => {
                self.tail = Some(newhead);
                self.head = Some(newhead);
            },
        }
        self.order = Ghost(seq![newhead] + old(self).order@);
        proof {
            let order = old(self).order@;
            assert forall|i: int| 0 <= i < order.len() implies order[i] != newhead by {
                assert(linked(old(self).slots@, order, i));
            }
            assert forall|i: int| 0 <= i < self.order@.len() implies #[trigger] linked(
                self.slots@,
                self.order@,
                i,
            ) by {
                if i > 0 {
                    assert(linked(old(self).slots@, order, i - 1));
                }
            }
            assert forall|j: int| 0 <= j < self.free@.len() implies #[trigger] vacant(
                self.slots@,
                self.free@,
                j,
            ) by {
                assert(vacant(placed, self.free@, j));
            }
            assert(final(self)@ =~= seq![elem] + old(self)@) by {
                assert forall|i: int|
                    0 <= i < order.len() implies self.elem_at(order[i]) == old(self).elem_at(
                        order[i],
                    ) by {
                    assert(linked(old(self).slots@, order, i));
                }
            }
        }
    }

    /// Puts `elem` behind all the others.
    pub fn push_back(&mut self, elem: T)
        requires
            old(self).wf(),
        ensures
            final(self).wf(),
            final(self)@ == old(self)@.push(elem),
    {
        let newtail = place(&mut self.slots, &mut self.free, Node::new(elem));
        let ghost placed = self.slots@;
        match self.tail.take() {
            Some(oldtail) => {
                assert(linked(old(self).slots@, old(self).order@, old(self).order@.len() - 1));
                set_next(&mut self.slots, oldtail, Some(newtail));
                set_prev(&mut self.slots, newtail, Some(oldtail));
                self.tail = Some(newtail);
            },
            None => {
                self.head = Some(newtail);
                self.tail = Some(newtail);
            },
        }
        self.order = Ghost(old(self).order@.push(newtail));
        proof {
            let order = old(self).order@;
            assert forall|i: int| 0 <= i < order.len() implies order[i] != newtail by {
                assert(linked(old(self).slots@, order, i));
            }
            assert forall|i: int| 0 <= i < self.order@.len() implies #[trigger] linked(
                self.slots@,
                self.order@,
                i,
            ) by {
                if i < order.len() {
                    assert(linked(old(self).slots@, order, i));
                }
            }
            assert forall|j: int| 0 <= j < self.free@.len() implies #[trigger] vacant(
                self.slots@,
                self.free@,
                j,
            ) by {
                assert(vacant(placed, self.free@, j));
            }
            assert(final(self)@ =~= old(self)@.push(elem)) by {
                assert forall|i: int|
                    0 <= i < order.len() implies self.elem_at(order[i]) == old(self).elem_at(
                        order[i],
                    ) by {
                    assert(linked(old(self).slots@, order, i));
                }
            }
        }
    }

    /// Takes the front element out, if there is one. An empty list is left
    /// as it was.
    pub fn pop_front(&mut self) -> (popped: Option<T>)
        requires
            old(self).wf(),
        ensures
            final(self).wf(),
            old(self)@.len() == 0 ==> popped is None && *final(self) == *old(self),
            old(self)@.len() > 0 ==> popped == Some(old(self)@[0])
                && final(self)@ == old(self)@.skip(1),
    {
        match self.head.take() {
            None => None,
            Some(oldhead) => {
                let ghost order = old(self).order@;
                assert(linked(old(self).slots@, order, 0));
                let node = lift(&mut self.slots, oldhead);
                match node.next {
                    Some(newhead) => {
                        assert(linked(old(self).slots@, order, 1));
                        set_prev(&mut self.slots, newhead, None);
                        self.head = Some(newhead);
                    },
                    None => {
                        self.tail = None;
                    },
                }
                self.free.push(oldhead);
                self.order = Ghost(order.skip(1));
                proof {
                    assert forall|i: int| 0 <= i < self.order@.len() implies #[trigger] linked(
                        self.slots@,
                        self.order@,
                        i,
                    ) by {
                        assert(linked(old(self).slots@, order, i + 1));
                    }
                    assert forall|j: int| 0 <= j < old(self).free@.len() implies old(self).free@[j]
                        != oldhead && vacant(self.slots@, old(self).free@, j) by {
                        assert(vacant(old(self).slots@, old(self).free@, j));
                    }
                    assert(final(self)@ =~= old(self)@.skip(1)) by {
                        assert forall|i: int|
                            1 <= i < order.len() implies self.elem_at(order[i]) == old(self).elem_at(
                                order[i],
                            ) by {
                            assert(linked(old(self).slots@, order, i));
                        }
                    }
                }
                Some(node.elem)
            },
        }
    }

    /// Takes the back element out, if there is one. An empty list is left
    /// as it was.
    pub fn pop_back(&mut self) -> (popped: Option<T>)
        requires
            old(self).wf(),
        ensures
            final(self).wf(),
            old(self)@.len() == 0 ==> popped is None && *final(self) == *old(self),
            old(self)@.len() > 0 ==> popped == Some(old(self)@.last())
                && final(self)@ == old(self)@.drop_last(),
    {
        match self.tail.take() {
            None => None,
            Some(oldtail) => {
                let ghost order = old(self).order@;
                let ghost last = order.len() - 1;
                assert(linked(old(self).slots@, order, last));
                let node = lift(&mut self.slots, oldtail);
                match node.prev {
                    Some(newtail) => {
                        assert(linked(old(self).slots@, order, last - 1));
                        set_next(&mut self.slots, newtail, None);
                        self.tail = Some(newtail);
                    },
                    None => {
                        self.head = None;
                    },
                }
                self.free.push(oldtail);
                self.order = Ghost(order.drop_last());
                proof {
                    assert forall|i: int| 0 <= i < self.order@.len() implies #[trigger] linked(
                        self.slots@,
                        self.order@,
                        i,
                    ) by {
                        assert(linked(old(self).slots@, order, i));
                    }
                    assert forall|j: int| 0 <= j < old(self).free@.len() implies old(self).free@[j]
                        != oldtail && vacant(self.slots@, old(self).free@, j) by {
                        assert(vacant(old(self).slots@, old(self).free@, j));
                    }
                    assert(final(self)@ =~= old(self)@.drop_last()) by {
                        assert forall|i: int|
                            0 <= i < last implies self.elem_at(order[i]) == old(self).elem_at(
                                order[i],
                            ) by {
                            assert(linked(old(self).slots@, order, i));
                        }
                    }
                }
                Some(node.elem)
            },
        }
    }

    /// A shared view of the front element, if there is one.
    pub fn peek_front(&self) -> (front: Option<&T>)
        requires
            self.wf(),
        ensures
            self@.len() == 0 ==> front is None,
            self@.len() > 0 ==> front == Some(&self@[0]),
    {
        match self.head {
            None => None,
            Some(head) => {
                assert(linked(self.slots@, self.order@, 0));
                match &self.slots[head] {
                    Some(node) => Some(&node.elem),
                    None => None,
                }
            },
        }
    }

    /// A shared view of the back element, if there is one.
    pub fn peek_back(&self) -> (back: Option<&T>)
        requires
            self.wf(),
        ensures
            self@.len() == 0 ==> back is None,
            self@.len() > 0 ==> back == Some(&self@.last()),
    {
        match self.tail {
            None => None,
            Some(tail) => {
                assert(linked(self.slots@, self.order@, self.order@.len() - 1));
                match &self.slots[tail] {
                    Some(node) => Some(&node.elem),
                    None => None,
                }
            },
        }
    }

    /// An exclusive view of the front element, if there is one. What is
    /// written through it is the front element from then on; nothing else
    /// of the list changes.
    pub fn peek_front_mut(&mut self) -> (front: Option<&mut T>)
        requires
            old(self).wf(),
        ensures
            final(self).wf(),
            old(self)@.len() == 0 ==> front is None && *final(self) == *old(self),
            old(self)@.len() > 0 ==> front is Some && *front.unwrap() == old(self)@[0]
                && final(self)@ == old(self)@.update(0, *final(front.unwrap())),
    {
        match self.head {
            None => None,
            Some(head) => {
                assert(linked(self.slots@, self.order@, 0));
                match &mut self.slots[head] {
                    Some(node) => {
                        let front = &mut node.elem;
                        proof {
                            lemma_overwrite(
                                old(self).slots@,
                                after_borrow(self.slots)@,
                                self.free@,
                                self.order@,
                                0,
                            );
                        }
                        Some(front)
                    },
                    None => None,
                }
            },
        }
    }

    /// An exclusive view of the back element, if there is one. What is
    /// written through it is the back element from then on; nothing else
    /// of the list changes.
    pub fn peek_back_mut(&mut self) -> (back: Option<&mut T>)
        requires
            old(self).wf(),
        ensures
            final(self).wf(),
            old(self)@.len() == 0 ==> back is None && *final(self) == *old(self),
            old(self)@.len() > 0 ==> back is Some && *back.unwrap() == old(self)@.last()
                && final(self)@ == old(self)@.update(old(self)@.len() - 1, *final(back.unwrap())),
    {
        match self.tail {
            None => None,
            Some(tail) => {
                assert(linked(self.slots@, self.order@, self.order@.len() - 1));
                match &mut self.slots[tail] {
                    Some(node) => {
                        let back = &mut node.elem;
                        proof {
                            lemma_overwrite(
                                old(self).slots@,
                                after_borrow(self.slots)@,
                                self.free@,
                                self.order@,
                                self.order@.len() - 1,
                            );
                        }
                        Some(back)
                    },
                    None => None,
                }
            },
        }
    }

    /// Takes the list down node by node, from the front, until it is
    /// empty.
    pub fn clear(&mut self)
        requires
            old(self).wf(),
        ensures
            final(self).wf(),
            final(self)@ == Seq::<T>::empty(),
    {
        loop
            invariant
                self.wf(),
            ensures
                self@.len() == 0,
            decreases self@.len(),
        {
            if self.pop_front().is_none() {
                break;
            }
        }
    }

    /// Turns the list into an iterator that hands its elements out by
    /// value, from either end.
    #[allow(clippy::should_implement_trait)]
    pub fn into_iter(self) -> (iter: IntoIter<T>)
        requires
            self.wf(),
        ensures
            iter.wf(),
            iter@ == self@,
    {
        IntoIter(self)
    }

    /// The handle of the front node, absent in an empty list.
    pub closed spec fn head_handle(&self) -> Option<usize> {
        self.head
    }

    /// The handle of the back node, absent in an empty list.
    pub closed spec fn tail_handle(&self) -> Option<usize> {
        self.tail
    }

    /// The number of slots in the arena, vacant or not.
    pub closed spec fn capacity(&self) -> nat {
        self.slots@.len()
    }

    /// There is a node behind `handle`.
    pub closed spec fn holds(&self, handle: usize) -> bool {
        handle < self.slots@.len() && self.slots@[handle as int] is Some
    }

    /// The forward link of the node behind `handle`.
    pub closed spec fn next_of(&self, handle: usize) -> Option<usize> {
        self.slots@[handle as int].unwrap().next
    }

    /// The backward link of the node behind `handle`.
    pub closed spec fn prev_of(&self, handle: usize) -> Option<usize> {
        self.slots@[handle as int].unwrap().prev
    }

    /// The element of the node behind `handle`.
    pub closed spec fn elem_at(&self, handle: usize) -> T {
        self.slots@[handle as int].unwrap().elem
    }

    /// The handles of the nodes met from `from` on, along the forward links
    /// if `forward` and along the backward links if not, until a link is
    /// absent or leads to no node, or `steps` nodes are met.
    pub open spec fn walk(&self, from: Option<usize>, forward: bool, steps: nat) -> Seq<usize>
        decreases steps,
    {
        match from {
            Some(handle) if steps > 0 && self.holds(handle) => {
                let onward = if forward {
                    self.next_of(handle)
                } else {
                    self.prev_of(handle)
                };
                seq![handle] + self.walk(onward, forward, (steps - 1) as nat)
            },
            _ => Seq::empty(),
        }
    }

    /// The handles of the nodes met on the way from the front node along
    /// the forward links.
    pub open spec fn forward_walk(&self) -> Seq<usize> {
        self.walk(self.head_handle(), true, self.capacity())
    }

    /// The handles of the nodes met on the way from the back node along
    /// the backward links.
    pub open spec fn backward_walk(&self) -> Seq<usize> {
        self.walk(self.tail_handle(), false, self.capacity())
    }

    /// The walk from the back node along the backward links meets the
    /// nodes that the walk from the front node along the forward links
    /// meets, each of them once, in the opposite order; and the elements
    /// of the list are the elements of those nodes, front to back.
    pub proof fn lemma_walks_mirror(&self)
        requires
            self.wf(),
        ensures
            self.backward_walk() == self.forward_walk().reverse(),
            self.forward_walk().no_duplicates(),
            self@ == self.forward_walk().map_values(|handle: usize| self.elem_at(handle)),
    {
        let order = self.order@;
        self.lemma_walk_forward(0, self.capacity());
        self.lemma_walk_backward(order.len() - 1, self.capacity());
    }

    /// The front node is the first of the forward walk and the back node
    /// its last, and both are absent where the list is empty. Each node
    /// of the walk is linked forward to the node that follows it and
    /// backward to the node that it follows; the first has no backward
    /// link and the last no forward link.
    pub proof fn lemma_links_agree(&self)
        requires
            self.wf(),
        ensures
            self.forward_walk().len() == self@.len(),
            self.head_handle() == handle_at(self.forward_walk(), 0),
            self.tail_handle() == handle_at(self.forward_walk(), self@.len() - 1),
            forall|i: int|
                0 <= i < self.forward_walk().len() ==> self.holds(#[trigger] self.forward_walk()[i]),
            forall|i: int|
                0 <= i < self.forward_walk().len() ==> self.next_of(#[trigger] self.forward_walk()[i])
                    == handle_at(self.forward_walk(), i + 1),
            forall|i: int|
                0 <= i < self.forward_walk().len() ==> self.prev_of(#[trigger] self.forward_walk()[i])
                    == handle_at(self.forward_walk(), i - 1),
    {
        let order = self.order@;
        self.lemma_walk_forward(0, self.capacity());
        assert forall|i: int| 0 <= i < order.len() implies self.holds(#[trigger] order[i])
            && self.next_of(order[i]) == handle_at(order, i + 1) && self.prev_of(order[i])
            == handle_at(order, i - 1) by {
            assert(linked(self.slots@, order, i));
        }
    }

    /// From position `i` of the order of the nodes, the forward links lead
    /// through the rest of it.
    proof fn lemma_walk_forward(&self, i: int, steps: nat)
        requires
            self.wf(),
            0 <= i <= self.order@.len(),
            steps >= self.order@.len() - i,
        ensures
            self.walk(handle_at(self.order@, i), true, steps) == self.order@.skip(i),
        decreases self.order@.len() - i,
    {
        let order = self.order@;
        if i < order.len() {
            assert(linked(self.slots@, order, i));
            self.lemma_walk_forward(i + 1, (steps - 1) as nat);
        }
    }

    /// From position `i` of the order of the nodes, the backward links
    /// lead back through what stands before it.
    proof fn lemma_walk_backward(&self, i: int, steps: nat)
        requires
            self.wf(),
            -1 <= i < self.order@.len(),
            steps >= i + 1,
        ensures
            self.walk(handle_at(self.order@, i), false, steps) == self.order@.take(i + 1).reverse(),
        decreases i + 1,
    {
        let order = self.order@;
        if i >= 0 {
            assert(linked(self.slots@, order, i));
            self.lemma_walk_backward(i - 1, (steps - 1) as nat);
        }
    }
}

/// A list that is being taken apart from its two ends. Its view is what is
/// still to come, front to back.
pub struct IntoIter<T>(List<T>);

impl<T> View for IntoIter<T> {
    type V = Seq<T>;

    closed spec fn view(&self) -> Seq<T> {
        self.0@
    }
}

impl<T> IntoIter<T> {
    /// The list inside is well formed.
    pub closed spec fn wf(&self) -> bool {
        self.0.wf()
    }

    /// Hands out the front element of what is left; nothing once nothing
    /// is left at either end.
    #[allow(clippy::should_implement_trait)]
    pub fn next(&mut self) -> (item: Option<T>)
        requires
            old(self).wf(),
        ensures
            final(self).wf(),
            old(self)@.len() == 0 ==> item is None && *final(self) == *old(self),
            old(self)@.len() > 0 ==> item == Some(old(self)@[0])
                && final(self)@ == old(self)@.skip(1),
    {
        self.0.pop_front()
    }

    /// Hands out the back element of what is left; nothing once nothing is
    /// left at either end.
    #[allow(clippy::should_implement_trait)]
    pub fn next_back(&mut self) -> (item: Option<T>)
        requires
            old(self).wf(),
        ensures
            final(self).wf(),
            old(self)@.len() == 0 ==> item is None && *final(self) == *old(self),
            old(self)@.len() > 0 ==> item == Some(old(self)@.last())
                && final(self)@ == old(self)@.drop_last(),
    {
        self.0.pop_back()
    }
}

/// One push, at the front or at the back.
pub enum Push<T> {
    Front(T),
    Back(T),
}

/// What a list holds, front to back, after the pushes in `pushes` were
/// made on it in turn, if it was empty before.
pub open spec fn pushed<T>(pushes: Seq<Push<T>>) -> Seq<T>
    decreases pushes.len(),
{
    if pushes.len() == 0 {
        Seq::empty()
    } else {
        let before = pushed(pushes.drop_last());
        match pushes.last() {
            Push::Front(elem) => seq![elem] + before,
            Push::Back(elem) => before.push(elem),
        }
    }
}

/// The elements that `pop_front` hands out, in the order in which it hands
/// them out, when it is called on a list that holds `s` until the list is
/// empty.
pub open spec fn pop_front_order<T>(s: Seq<T>) -> Seq<T>
    decreases s.len(),
{
    if s.len() == 0 {
        Seq::empty()
    } else {
        seq![s[0]] + pop_front_order(s.skip(1))
    }
}

/// The elements that `pop_back` hands out, in the order in which it hands
/// them out, when it is called on a list that holds `s` until the list is
/// empty.
pub open spec fn pop_back_order<T>(s: Seq<T>) -> Seq<T>
    decreases s.len(),
{
    if s.len() == 0 {
        Seq::empty()
    } else {
        seq![s.last()] + pop_back_order(s.drop_last())
    }
}

/// Popping at the front until nothing is left hands the elements out as
/// they stand in the list.
pub proof fn lemma_pop_front_order<T>(s: Seq<T>)
    ensures
        pop_front_order(s) == s,
    decreases s.len(),
{
    if s.len() > 0 {
        lemma_pop_front_order(s.skip(1));
    }
}

/// Popping at the back until nothing is left hands the elements out in
/// the opposite order to that in which they stand in the list.
pub proof fn lemma_pop_back_order<T>(s: Seq<T>)
    ensures
        pop_back_order(s) == s.reverse(),
    decreases s.len(),
{
    if s.len() > 0 {
        lemma_pop_back_order(s.drop_last());
    }
}

/// Whatever was pushed on an empty list, and at whichever ends: the list
/// read from front to back is the order in which `pop_front` hands its
/// elements out, and it is the order in which `pop_back` hands them out,
/// read backward.
pub proof fn lemma_traversal_and_pop_orders<T>(pushes: Seq<Push<T>>)
    ensures
        pushed(pushes) == pop_front_order(pushed(pushes)),
        pushed(pushes) == pop_back_order(pushed(pushes)).reverse(),
{
    let s = pushed(pushes);
    lemma_pop_front_order(s);
    lemma_pop_back_order(s);
}

/// A list that reads the same from both ends is also the order in which
/// `pop_front` hands its elements out, read backward.
pub proof fn lemma_traversal_reverses_pop_front_order<T>(pushes: Seq<Push<T>>)
    requires
        pushed(pushes) == pushed(pushes).reverse(),
    ensures
        pushed(pushes) == pop_front_order(pushed(pushes)).reverse(),
{
    lemma_pop_front_order(pushed(pushes));
}

} // verus!
