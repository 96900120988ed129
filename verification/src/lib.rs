//! An in-memory order repository: orders owned by a principal, each holding a
//! sequence of line items, with create/read/mutate operations and a typed
//! error for every failure.

pub mod order;
pub mod order_store;
pub mod in_mem_order_store;
