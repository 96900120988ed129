//! The order entities: an order item (product and positive quantity), an
//! order (identifier, owner, items), their mathematical views, and the error
//! taxonomy of the repository.

use vstd::prelude::*;

verus! {

/// A line item of an order: a product identifier and a positive quantity.
#[derive(Debug)]
pub struct OrderItem {
    pub product_id: String,
    pub quantity: i64,
}

/// The mathematical view of an order item.
#[verifier::ext_equal]
pub ghost struct ItemView {
    pub product_id: Seq<char>,
    pub quantity: int,
}

impl View for OrderItem {
    type V = ItemView;

    open spec fn view(&self) -> ItemView {
        ItemView { product_id: self.product_id@, quantity: self.quantity as int }
    }
}

/// An order: a unique identifier, the owning principal, and an ordered
/// sequence of items.
#[derive(Debug)]
pub struct Order {
    pub id: u128,
    pub owner: u128,
    pub items: Vec<OrderItem>,
}

/// The mathematical view of an order.
#[verifier::ext_equal]
pub ghost struct OrderView {
    pub id: u128,
    pub owner: u128,
    pub items: Seq<ItemView>,
}

impl View for Order {
    type V = OrderView;

    open spec fn view(&self) -> OrderView {
        OrderView {
            id: self.id,
            owner: self.owner,
            items: self.items@.map_values(|it: OrderItem| it@),
        }
    }
}

/// Every failure a repository operation can report.
#[derive(Clone, Copy, Debug, PartialEq, Eq, Structural)]
pub enum OrderError {
    /// The referenced order does not exist.
    NotFound,
    /// A delete index is out of range for the current item count.
    InvalidIndex,
    /// An added item's quantity is not positive.
    InvalidArgument,
    /// An unexpected failure, such as identifier-generation exhaustion.
    Internal,
}

} // verus!
