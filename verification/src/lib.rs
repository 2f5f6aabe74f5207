//! Two interchangeable singly linked list containers over a copyable,
//! comparable element type:
//!
//! * [`static_list::StaticList`] — the core of the crate: a fixed-capacity
//!   list backed by a preallocated slot array with index-based links and
//!   explicit free-slot recycling.  No node is ever heap-allocated on its
//!   own; every operation works purely on slot indices.
//! * [`dynamic_list::DynamicList`] — a pointer-based list with unbounded
//!   growth, kept as a structural point of comparison.
//!
//! Both containers are specified against the same mathematical model: the
//! sequence of stored values in traversal order.  [`search`] gives the
//! spec-level account of value lookup shared by the two, and [`laws`]
//! states the laws that relate the operations to each other.

pub mod dynamic_list;
pub mod laws;
pub mod search;
pub mod static_list;
