//! The concurrency-ready in-memory backend: a vector of orders kept in
//! creation order. The surrounding service wraps one instance in a
//! mutual-exclusion container and shares it across request handlers; every
//! operation here is short and non-blocking.

use vstd::prelude::*;

use crate::order::{ItemView, Order, OrderError, OrderItem, OrderView};
use crate::order_store::{
    after_add_item, after_delete_item, contains_id, owned_by, quantities_positive, wf_store,
    with_items, OrderStore,
};

verus! {

/// Relies on `uuid::Uuid::new_v4` and `uuid::Uuid::as_u128`: a freshly
/// generated random version-4 identifier, returned as its 128-bit value. The
/// value is random, so nothing is promised of it.
#[verifier::external_body]
fn fresh_id_bits() -> u128 {
    uuid::Uuid::new_v4().as_u128()
}

fn clone_item(it: &OrderItem) -> (r: OrderItem)
    ensures
        r@ == it@,
{
    OrderItem { product_id: it.product_id.clone(), quantity: it.quantity }
}

fn clone_order(o: &Order) -> (r: Order)
    ensures
        r@ == o@,
{
    let mut items: Vec<OrderItem> = Vec::new();
    let mut k: usize = 0;
    while k < o.items.len()
        invariant
            k <= o.items.len(),
            items@.len() == k as int,
            forall|i: int| 0 <= i < k ==> (#[trigger] items@[i])@ == o.items@[i]@,
        decreases o.items.len() - k,
    {
        let it = clone_item(&o.items[k]);
        items.push(it);
        k = k + 1;
    }
    proof {
        assert(items@.map_values(|it: OrderItem| it@) =~~= o.items@.map_values(
            |it: OrderItem| it@,
        ));
    }
    Order { id: o.id, owner: o.owner, items }
}

/// The in-memory repository: the stored orders, in creation order.
pub struct InMemOrderStore {
    orders: Vec<Order>,
}

impl InMemOrderStore {
    /// An empty repository.
    pub fn new() -> (s: Self)
        ensures
            s.sview() == Seq::<OrderView>::empty(),
            wf_store(s.sview()),
    {
        let s = InMemOrderStore { orders: Vec::new() };
        proof {
            assert(s.sview() =~= Seq::<OrderView>::empty());
        }
        s
    }

    /// The position of the order with identifier `id`, if any.
    fn find_order(&self, id: u128) -> (r: Option<usize>)
        ensures
            match r {
                Some(i) => (i as int) < self.sview().len() && self.sview()[i as int].id == id,
                None => !contains_id(self.sview(), id),
            },
    {
        let mut j: usize = 0;
        while j < self.orders.len()
            invariant
                j <= self.orders.len(),
                forall|k: int| 0 <= k < j ==> self.sview()[k].id != id,
            decreases self.orders.len() - j,
        {
            if self.orders[j].id == id {
                return Some(j);
            }
            j = j + 1;
        }
        None
    }

    /// Stores a new order with the given identifier, the given owner and no
    /// items, and returns a copy; succeeds if and only if the identifier is
    /// not already in use.
    pub fn insert_order_with_id(&mut self, owner: u128, id: u128) -> (r: Result<
        Order,
        OrderError,
    >)
        requires
            wf_store(old(self).sview()),
        ensures
            wf_store(final(self).sview()),
            match r {
                Ok(order) => {
                    &&& order@ == (OrderView { id, owner, items: Seq::<ItemView>::empty() })
                    &&& !contains_id(old(self).sview(), id)
                    &&& final(self).sview() == old(self).sview().push(order@)
                },
                Err(e) => {
                    &&& e == OrderError::Internal
                    &&& contains_id(old(self).sview(), id)
                    &&& final(self).sview() == old(self).sview()
                },
            },
    {
        match self.find_order(id) {
            Some(_) => Err(OrderError::Internal),
            None => {
                let ghost s0 = self.sview();
                let order = Order { id, owner, items: Vec::new() };
                self.orders.push(order);
                let copy = Order { id, owner, items: Vec::new() };
                proof {
                    assert(copy@.items =~= Seq::<ItemView>::empty());
                    assert(self.sview() =~= s0.push(copy@));
                    assert forall|i: int, j: int| 0 <= i < j < self.sview().len() implies self.sview()[i].id
                        != self.sview()[j].id by {
                        if j < s0.len() {
                        } else {
                            assert(s0[i].id != id);
                        }
                    }
                }
                Ok(copy)
            },
        }
    }
}

impl OrderStore for InMemOrderStore {
    closed spec fn sview(&self) -> Seq<OrderView> {
        self.orders@.map_values(|o: Order| o@)
    }

    fn create_order(&mut self, owner: u128) -> (r: Result<Order, OrderError>)
        ensures
            r is Err ==> old(self).sview().len() > 0,
    {
        let id = fresh_id_bits();
        self.insert_order_with_id(owner, id)
    }

    fn list_orders(&self, owner: u128) -> (r: Result<Vec<Order>, OrderError>)
        ensures
            r is Ok,
    {
        let mut result: Vec<Order> = Vec::new();
        let mut j: usize = 0;
        proof {
            assert(self.sview().subrange(0, 0) =~= Seq::<OrderView>::empty());
            reveal(Seq::filter);
        }
        while j < self.orders.len()
            invariant
                j <= self.orders.len(),
                self.sview().len() == self.orders@.len(),
                result@.map_values(|o: Order| o@) == self.sview().subrange(0, j as int).filter(
                    owned_by(owner),
                ),
            decreases self.orders.len() - j,
        {
            let ghost prefix = self.sview().subrange(0, j as int);
            let o = &self.orders[j];
            if o.owner == owner {
                let c = clone_order(o);
                result.push(c);
            }
            j = j + 1;
            proof {
                let e = self.sview()[j - 1];
                assert(self.sview().subrange(0, j as int) =~= prefix.push(e));
                prefix.lemma_filter_push(e, owned_by(owner));
                assert(result@.map_values(|o: Order| o@) =~= self.sview().subrange(
                    0,
                    j as int,
                ).filter(owned_by(owner)));
            }
        }
        proof {
            assert(self.sview().subrange(0, self.orders@.len() as int) =~= self.sview());
        }
        Ok(result)
    }

    fn get_order(&self, id: u128) -> (r: Result<Order, OrderError>) {
        match self.find_order(id) {
            Some(i) => {
                proof {
                    crate::order_store::lemma_index_of_id(self.sview(), id, i as int);
                }
                Ok(clone_order(&self.orders[i]))
            },
            None => Err(OrderError::NotFound),
        }
    }

    fn add_item(&mut self, id: u128, product_id: String, quantity: i64) -> (r: Result<
        (),
        OrderError,
    >) {
        match self.find_order(id) {
            None => Err(OrderError::NotFound),
            Some(i) => {
                proof {
                    crate::order_store::lemma_index_of_id(self.sview(), id, i as int);
                }
                if quantity <= 0 {
                    Err(OrderError::InvalidArgument)
                } else {
                    let ghost s0 = self.sview();
                    let ghost iv = ItemView { product_id: product_id@, quantity: quantity as int };
                    let order = &mut self.orders[i];
                    order.items.push(OrderItem { product_id, quantity });
                    proof {
                        assert(self.orders@[i as int]@.items =~~= s0[i as int].items.push(iv));
                        assert(self.sview() =~~= s0.update(
                            i as int,
                            with_items(s0[i as int], s0[i as int].items.push(iv)),
                        ));
                        assert(self.sview() == after_add_item(s0, id, iv));
                        assert forall|n: int| 0 <= n < self.sview().len() implies quantities_positive(
                            #[trigger] self.sview()[n].items,
                        ) by {
                            assert(quantities_positive(s0[n].items));
                        }
                        assert forall|n: int, m: int|
                            0 <= n < m < self.sview().len() implies self.sview()[n].id
                            != self.sview()[m].id by {
                            assert(s0[n].id != s0[m].id);
                        }
                    }
                    Ok(())
                }
            },
        }
    }

    fn delete_item(&mut self, id: u128, index: usize) -> (r: Result<(), OrderError>) {
        match self.find_order(id) {
            None => Err(OrderError::NotFound),
            Some(i) => {
                proof {
                    crate::order_store::lemma_index_of_id(self.sview(), id, i as int);
                }
                if index >= self.orders[i].items.len() {
                    Err(OrderError::InvalidIndex)
                } else {
                    let ghost s0 = self.sview();
                    let order = &mut self.orders[i];
                    let _removed = order.items.remove(index);
                    proof {
                        assert(self.orders@[i as int]@.items =~~= s0[i as int].items.remove(
                            index as int,
                        ));
                        assert(self.sview() =~~= s0.update(
                            i as int,
                            with_items(s0[i as int], s0[i as int].items.remove(index as int)),
                        ));
                        assert(self.sview() == after_delete_item(s0, id, index as int));
                        assert forall|n: int| 0 <= n < self.sview().len() implies quantities_positive(
                            #[trigger] self.sview()[n].items,
                        ) by {
                            assert(quantities_positive(s0[n].items));
                            if n == i as int {
                                s0[n].items.remove_ensures(index as int);
                            }
                        }
                        assert forall|n: int, m: int|
                            0 <= n < m < self.sview().len() implies self.sview()[n].id
                            != self.sview()[m].id by {
                            assert(s0[n].id != s0[m].id);
                        }
                    }
                    Ok(())
                }
            },
        }
    }
}

} // verus!
