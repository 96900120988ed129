//! The repository contract: the abstract state of an order store, the
//! predicates and transformers its operations are specified with, and the
//! `OrderStore` trait that any backend must satisfy.

use vstd::prelude::*;

use crate::order::{ItemView, Order, OrderError, OrderView};

verus! {

/// Whether some stored order carries the identifier `id`.
pub open spec fn contains_id(s: Seq<OrderView>, id: u128) -> bool {
    exists|i: int| 0 <= i < s.len() && s[i].id == id
}

/// The position of the order with identifier `id`; meaningful only when
/// `contains_id(s, id)` holds and identifiers are unique.
pub open spec fn index_of_id(s: Seq<OrderView>, id: u128) -> int {
    choose|i: int| 0 <= i < s.len() && s[i].id == id
}

/// The stored order with identifier `id`.
pub open spec fn order_with_id(s: Seq<OrderView>, id: u128) -> OrderView {
    s[index_of_id(s, id)]
}

/// No two stored orders share an identifier.
pub open spec fn unique_ids(s: Seq<OrderView>) -> bool {
    forall|i: int, j: int| 0 <= i < j < s.len() ==> s[i].id != s[j].id
}

/// Every quantity in a sequence of items is positive.
pub open spec fn quantities_positive(items: Seq<ItemView>) -> bool {
    forall|k: int| 0 <= k < items.len() ==> items[k].quantity > 0
}

/// Every stored order holds only positive quantities.
pub open spec fn items_positive(s: Seq<OrderView>) -> bool {
    forall|i: int| 0 <= i < s.len() ==> quantities_positive(#[trigger] s[i].items)
}

/// Well-formedness of a store's state: identifiers are unique and no stored
/// item has a non-positive quantity.
pub open spec fn wf_store(s: Seq<OrderView>) -> bool {
    unique_ids(s) && items_positive(s)
}

/// The predicate "this order belongs to `owner`".
pub open spec fn owned_by(owner: u128) -> spec_fn(OrderView) -> bool {
    |o: OrderView| o.owner == owner
}

/// The orders of `owner`, in creation order.
pub open spec fn orders_of_owner(s: Seq<OrderView>, owner: u128) -> Seq<OrderView> {
    s.filter(owned_by(owner))
}

/// `o` with its items replaced by `items`.
pub open spec fn with_items(o: OrderView, items: Seq<ItemView>) -> OrderView {
    OrderView { id: o.id, owner: o.owner, items: items }
}

/// The store's state after appending `item` to the order with identifier `id`.
pub open spec fn after_add_item(s: Seq<OrderView>, id: u128, item: ItemView) -> Seq<OrderView> {
    s.update(index_of_id(s, id), with_items(order_with_id(s, id), order_with_id(s, id).items.push(item)))
}

/// The store's state after removing the item at `index` from the order with
/// identifier `id`.
pub open spec fn after_delete_item(s: Seq<OrderView>, id: u128, index: int) -> Seq<OrderView> {
    s.update(index_of_id(s, id), with_items(order_with_id(s, id), order_with_id(s, id).items.remove(index)))
}

/// When identifiers are unique, the position of the order carrying `id` is
/// the one position `i` where it stands.
pub proof fn lemma_index_of_id(s: Seq<OrderView>, id: u128, i: int)
    requires
        unique_ids(s),
        0 <= i < s.len(),
        s[i].id == id,
    ensures
        contains_id(s, id),
        index_of_id(s, id) == i,
        order_with_id(s, id) == s[i],
{
    assert(contains_id(s, id));
    let j = index_of_id(s, id);
    assert(0 <= j < s.len() && s[j].id == id) by {
        assert(exists|k: int| 0 <= k < s.len() && s[k].id == id);
    }
    if i < j {
        assert(s[i].id != s[j].id);
    }
    if j < i {
        assert(s[j].id != s[i].id);
    }
}

proof fn lemma_filter_index(s: Seq<OrderView>, p: spec_fn(OrderView) -> bool, k: int)
    requires
        0 <= k < s.filter(p).len(),
    ensures
        exists|j: int| 0 <= j < s.len() && s[j] == s.filter(p)[k],
    decreases s.len(),
{
    reveal(Seq::filter);
    let d = s.drop_last();
    if p(s.last()) && k == s.filter(p).len() - 1 {
        assert(s[s.len() - 1] == s.filter(p)[k]);
    } else {
        lemma_filter_index(d, p, k);
        let j = choose|j: int| 0 <= j < d.len() && d[j] == d.filter(p)[k];
        assert(s[j] == s.filter(p)[k]);
    }
}

proof fn lemma_filter_order(s: Seq<OrderView>, p: spec_fn(OrderView) -> bool, k1: int, k2: int)
    requires
        0 <= k1 < k2 < s.filter(p).len(),
    ensures
        exists|j1: int, j2: int|
            0 <= j1 < j2 < s.len() && s[j1] == s.filter(p)[k1] && s[j2] == s.filter(p)[k2],
    decreases s.len(),
{
    reveal(Seq::filter);
    let d = s.drop_last();
    if p(s.last()) && k2 == s.filter(p).len() - 1 {
        lemma_filter_index(d, p, k1);
        let j1 = choose|j: int| 0 <= j < d.len() && d[j] == d.filter(p)[k1];
        assert(0 <= j1 < s.len() - 1 && s[j1] == s.filter(p)[k1] && s[s.len() - 1] == s.filter(
            p,
        )[k2]);
    } else {
        lemma_filter_order(d, p, k1, k2);
        let (j1, j2) = choose|j1: int, j2: int|
            0 <= j1 < j2 < d.len() && d[j1] == d.filter(p)[k1] && d[j2] == d.filter(p)[k2];
        assert(0 <= j1 < j2 < s.len() && s[j1] == s.filter(p)[k1] && s[j2] == s.filter(p)[k2]);
    }
}

/// Positions `k1 < k2` of an owner's listing stand at positions of the store
/// that are in the same relative order: the listing keeps creation order.
pub open spec fn listed_pair_in_creation_order(
    s: Seq<OrderView>,
    owner: u128,
    k1: int,
    k2: int,
) -> bool {
    exists|j1: int, j2: int|
        0 <= j1 < j2 < s.len() && #[trigger] s[j1] == orders_of_owner(s, owner)[k1]
            && #[trigger] s[j2] == orders_of_owner(s, owner)[k2]
}

/// Law: the orders listed for an owner are exactly the stored orders created
/// with that owner — each listed order belongs to the owner, every stored
/// order of the owner is listed, nothing else is listed — and their creation
/// order is kept.
pub proof fn lemma_orders_of_owner_exact(s: Seq<OrderView>, owner: u128)
    ensures
        forall|k: int|
            0 <= k < orders_of_owner(s, owner).len() ==> (#[trigger] orders_of_owner(s, owner)[k]).owner
                == owner,
        forall|j: int|
            0 <= j < s.len() && (#[trigger] s[j]).owner == owner ==> orders_of_owner(
                s,
                owner,
            ).contains(s[j]),
        forall|k: int|
            0 <= k < orders_of_owner(s, owner).len() ==> s.contains(
                #[trigger] orders_of_owner(s, owner)[k],
            ),
        forall|k1: int, k2: int|
            0 <= k1 < k2 < orders_of_owner(s, owner).len()
                ==> #[trigger] listed_pair_in_creation_order(s, owner, k1, k2),
{
    broadcast use vstd::prelude::Seq::lemma_filter_pred;
    broadcast use vstd::prelude::Seq::lemma_filter_contains;

    let p = owned_by(owner);
    let l = orders_of_owner(s, owner);
    assert forall|k: int| 0 <= k < l.len() implies s.contains(#[trigger] l[k]) by {
        lemma_filter_index(s, p, k);
    }
    assert forall|k1: int, k2: int|
        0 <= k1 < k2 < l.len() implies #[trigger] listed_pair_in_creation_order(
        s,
        owner,
        k1,
        k2,
    ) by {
        lemma_filter_order(s, p, k1, k2);
        let (j1, j2) = choose|j1: int, j2: int|
            0 <= j1 < j2 < s.len() && s[j1] == s.filter(p)[k1] && s[j2] == s.filter(p)[k2];
        assert(0 <= j1 < j2 < s.len() && s[j1] == orders_of_owner(s, owner)[k1] && s[j2]
            == orders_of_owner(s, owner)[k2]);
    }
}

/// Law: a stored identifier stays stored across every operation — creation
/// only appends, and the item operations keep each order's identifier — so
/// an identifier that creation reports fresh was never stored at any earlier
/// time: no identifier is ever returned twice.
pub proof fn lemma_stored_id_persists(
    s: Seq<OrderView>,
    id: u128,
    o: OrderView,
    id2: u128,
    item: ItemView,
    index: int,
)
    requires
        contains_id(s, id),
        contains_id(s, id2),
    ensures
        contains_id(s.push(o), id),
        contains_id(after_add_item(s, id2, item), id),
        contains_id(after_delete_item(s, id2, index), id),
{
    let w = choose|i: int| 0 <= i < s.len() && s[i].id == id;
    assert(s.push(o)[w].id == id);
    let t = index_of_id(s, id2);
    assert(0 <= t < s.len() && s[t].id == id2) by {
        assert(exists|k: int| 0 <= k < s.len() && s[k].id == id2);
    }
    assert(after_add_item(s, id2, item)[w].id == id);
    assert(after_delete_item(s, id2, index)[w].id == id);
}

/// Law: appending an item to an order and then looking the order up shows
/// the item at the end of its item sequence, with the earlier items
/// unchanged; every other order is untouched.
pub proof fn lemma_add_item_then_get(s: Seq<OrderView>, id: u128, item: ItemView)
    requires
        wf_store(s),
        contains_id(s, id),
    ensures
        ({
            let s2 = after_add_item(s, id, item);
            let before = order_with_id(s, id).items;
            let after = order_with_id(s2, id).items;
            &&& contains_id(s2, id)
            &&& after == before.push(item)
            &&& after.len() == before.len() + 1
            &&& after[after.len() - 1] == item
            &&& forall|k: int| 0 <= k < before.len() ==> after[k] == before[k]
            &&& forall|j: int| 0 <= j < s.len() && s[j].id != id ==> s2[j] == s[j]
            &&& s2.len() == s.len()
            &&& forall|j: int|
                0 <= j < s.len() ==> (#[trigger] s2[j]).id == s[j].id && s2[j].owner == s[j].owner
        }),
{
    let i = index_of_id(s, id);
    assert(0 <= i < s.len() && s[i].id == id) by {
        assert(exists|k: int| 0 <= k < s.len() && s[k].id == id);
    }
    let s2 = after_add_item(s, id, item);
    assert(unique_ids(s2)) by {
        assert(forall|j: int| 0 <= j < s2.len() ==> s2[j].id == s[j].id);
    }
    lemma_index_of_id(s2, id, i);
}

/// Law: deleting a valid item index removes that item and shifts each later
/// item down by one position; every other order is untouched.
pub proof fn lemma_delete_item_shifts(s: Seq<OrderView>, id: u128, index: int)
    requires
        wf_store(s),
        contains_id(s, id),
        0 <= index < order_with_id(s, id).items.len(),
    ensures
        ({
            let s2 = after_delete_item(s, id, index);
            let before = order_with_id(s, id).items;
            let after = order_with_id(s2, id).items;
            &&& contains_id(s2, id)
            &&& after.len() == before.len() - 1
            &&& forall|k: int| 0 <= k < index ==> after[k] == before[k]
            &&& forall|k: int| index <= k < after.len() ==> after[k] == before[k + 1]
            &&& forall|j: int| 0 <= j < s.len() && s[j].id != id ==> s2[j] == s[j]
            &&& s2.len() == s.len()
            &&& forall|j: int|
                0 <= j < s.len() ==> (#[trigger] s2[j]).id == s[j].id && s2[j].owner == s[j].owner
        }),
{
    let i = index_of_id(s, id);
    assert(0 <= i < s.len() && s[i].id == id) by {
        assert(exists|k: int| 0 <= k < s.len() && s[k].id == id);
    }
    let s2 = after_delete_item(s, id, index);
    assert(unique_ids(s2)) by {
        assert(forall|j: int| 0 <= j < s2.len() ==> s2[j].id == s[j].id);
    }
    lemma_index_of_id(s2, id, i);
    order_with_id(s, id).items.remove_ensures(index);
}

/// The repository contract. Each operation reports failures synchronously as
/// a typed error; reads leave the state unchanged, and writes change it only
/// as stated.
pub trait OrderStore: Sized {
    /// The abstract state: the stored orders, in creation order.
    spec fn sview(&self) -> Seq<OrderView>;

    /// Creates an order with a fresh identifier, the given owner and no
    /// items, stores it, and returns a copy. An identifier collision is the
    /// only failure, reported as `Internal` with the state unchanged.
    fn create_order(&mut self, owner: u128) -> (r: Result<Order, OrderError>)
        requires
            wf_store(old(self).sview()),
        ensures
            wf_store(final(self).sview()),
            match r {
                Ok(order) => {
                    &&& order@.owner == owner
                    &&& order@.items.len() == 0
                    &&& !contains_id(old(self).sview(), order@.id)
                    &&& final(self).sview() == old(self).sview().push(order@)
                },
                Err(e) => e == OrderError::Internal && final(self).sview() == old(self).sview(),
            },
    ;

    /// Returns exactly the orders of `owner`, in creation order.
    fn list_orders(&self, owner: u128) -> (r: Result<Vec<Order>, OrderError>)
        requires
            wf_store(self.sview()),
        ensures
            match r {
                Ok(orders) => orders@.map_values(|o: Order| o@) == orders_of_owner(self.sview(), owner),
                Err(e) => e == OrderError::Internal,
            },
    ;

    /// Returns a copy of the order with identifier `id` if it is present,
    /// and `NotFound` if and only if it is absent.
    fn get_order(&self, id: u128) -> (r: Result<Order, OrderError>)
        requires
            wf_store(self.sview()),
        ensures
            match r {
                Ok(order) => contains_id(self.sview(), id) && order@ == order_with_id(self.sview(), id),
                Err(e) => e == OrderError::NotFound && !contains_id(self.sview(), id),
            },
    ;

    /// Appends the item (`product_id`, `quantity`) to the order with
    /// identifier `id`. Fails with `NotFound` if and only if the order is
    /// absent, and with `InvalidArgument` if and only if the order is present
    /// but `quantity` is not positive; a failure leaves the state unchanged.
    fn add_item(&mut self, id: u128, product_id: String, quantity: i64) -> (r: Result<(), OrderError>)
        requires
            wf_store(old(self).sview()),
        ensures
            wf_store(final(self).sview()),
            match r {
                Ok(u) => {
                    &&& contains_id(old(self).sview(), id)
                    &&& quantity > 0
                    &&& final(self).sview() == after_add_item(
                        old(self).sview(),
                        id,
                        ItemView { product_id: product_id@, quantity: quantity as int },
                    )
                },
                Err(e) => {
                    &&& final(self).sview() == old(self).sview()
                    &&& (e == OrderError::NotFound <==> !contains_id(old(self).sview(), id))
                    &&& (e == OrderError::InvalidArgument <==> contains_id(old(self).sview(), id)
                        && quantity <= 0)
                    &&& (e == OrderError::NotFound || e == OrderError::InvalidArgument)
                },
            },
    ;

    /// Removes the item at `index` from the order with identifier `id`,
    /// shifting the later items down by one. Fails with `NotFound` if and
    /// only if the order is absent, and with `InvalidIndex` if and only if
    /// the order is present but `index` is at or beyond its item count; a
    /// failure leaves the state unchanged.
    fn delete_item(&mut self, id: u128, index: usize) -> (r: Result<(), OrderError>)
        requires
            wf_store(old(self).sview()),
        ensures
            wf_store(final(self).sview()),
            match r {
                Ok(u) => {
                    &&& contains_id(old(self).sview(), id)
                    &&& (index as int) < order_with_id(old(self).sview(), id).items.len()
                    &&& final(self).sview() == after_delete_item(old(self).sview(), id, index as int)
                },
                Err(e) => {
                    &&& final(self).sview() == old(self).sview()
                    &&& (e == OrderError::NotFound <==> !contains_id(old(self).sview(), id))
                    &&& (e == OrderError::InvalidIndex <==> contains_id(old(self).sview(), id)
                        && (index as int) >= order_with_id(old(self).sview(), id).items.len())
                    &&& (e == OrderError::NotFound || e == OrderError::InvalidIndex)
                },
            },
    ;
}

} // verus!
