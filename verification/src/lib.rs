//! Linked lists, each with its own way of owning its nodes, and each
//! verified against a view of the list as a sequence of its elements.
//!
//! - [`bad_stack`]: a stack of `i32` whose nodes own one another.
//! - [`ok_stack`]: the same for any element type, with iterators.
//! - [`persistent_stack`]: a stack that is never changed and shares nodes
//!   between lists.
//! - [`bad_safe_deque`]: a double-ended queue whose nodes are linked in both
//!   directions.
//! - [`ok_unsafe_queue`]: a queue whose elements enter at the back and leave
//!   at the front.

pub mod bad_safe_deque;
pub mod bad_stack;
pub mod ok_stack;
pub mod ok_unsafe_queue;
pub mod persistent_stack;
pub mod std_ext;
