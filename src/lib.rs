//! Linked-node collections, each with its own ownership strategy, verified
//! against sequence models.
pub mod atomic_linked_list;
pub mod cons_list;
pub mod doubly_linked;
pub mod linked_list;
pub mod queue;
