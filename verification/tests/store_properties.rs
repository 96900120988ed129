use std::collections::HashSet;

use order_repo::in_mem_order_store::InMemOrderStore;
use order_repo::order_store::OrderStore;

#[test]
fn created_identifiers_are_never_repeated() {
    let mut store = InMemOrderStore::new();
    let mut seen: HashSet<u128> = HashSet::new();
    for k in 0..200u128 {
        let order = store.create_order(k % 3).expect("creating an order");
        assert!(seen.insert(order.id), "identifier returned twice");
    }
    assert_eq!(seen.len(), 200);
}

#[test]
fn list_orders_returns_exactly_the_owners_orders_in_creation_order() {
    let mut store = InMemOrderStore::new();
    let alice: u128 = 1;
    let bob: u128 = 2;
    let carol: u128 = 3;

    let mut alice_ids: Vec<u128> = Vec::new();
    let mut bob_ids: Vec<u128> = Vec::new();
    for k in 0..10 {
        let owner = if k % 2 == 0 { alice } else { bob };
        let order = store.create_order(owner).expect("creating an order");
        if owner == alice {
            alice_ids.push(order.id);
        } else {
            bob_ids.push(order.id);
        }
    }

    let listed_alice = store.list_orders(alice).expect("listing");
    let ids: Vec<u128> = listed_alice.iter().map(|o| o.id).collect();
    assert_eq!(ids, alice_ids);
    assert!(listed_alice.iter().all(|o| o.owner == alice));

    let listed_bob = store.list_orders(bob).expect("listing");
    let ids: Vec<u128> = listed_bob.iter().map(|o| o.id).collect();
    assert_eq!(ids, bob_ids);
    assert!(listed_bob.iter().all(|o| o.owner == bob));

    let listed_carol = store.list_orders(carol).expect("listing");
    assert!(listed_carol.is_empty());
}

#[test]
fn add_item_appends_at_the_end_and_keeps_earlier_items() {
    let mut store = InMemOrderStore::new();
    let id = store.create_order(5).expect("creating an order").id;
    for k in 1..=20i64 {
        let before = store.get_order(id).expect("reading the order").items;
        store
            .add_item(id, format!("prod-{k}"), k)
            .expect("adding an item");
        let after = store.get_order(id).expect("reading the order").items;
        assert_eq!(after.len(), before.len() + 1);
        for (b, a) in before.iter().zip(after.iter()) {
            assert_eq!(a.product_id, b.product_id);
            assert_eq!(a.quantity, b.quantity);
        }
        let last = after.last().expect("appended item");
        assert_eq!(last.product_id, format!("prod-{k}"));
        assert_eq!(last.quantity, k);
    }
}

#[test]
fn repeated_add_item_calls_each_append_once() {
    // the sequential core of lost-update freedom: every successful call
    // appends exactly one item, so after n calls all n items are present
    let mut store = InMemOrderStore::new();
    let id = store.create_order(9).expect("creating an order").id;
    let n = 50i64;
    for _ in 0..n {
        store
            .add_item(id, String::from("prod-X"), 1)
            .expect("adding an item");
    }
    let got = store.get_order(id).expect("reading the order");
    assert_eq!(got.items.len(), n as usize);
    assert!(got.items.iter().all(|it| it.quantity == 1));
}

#[test]
fn create_order_copies_do_not_alias_the_store() {
    let mut store = InMemOrderStore::new();
    let order = store.create_order(4).expect("creating an order");
    store
        .add_item(order.id, String::from("prod-A"), 2)
        .expect("adding an item");
    // the copy returned at creation still shows the state at creation time
    assert_eq!(order.items.len(), 0);
    let got = store.get_order(order.id).expect("reading the order");
    assert_eq!(got.items.len(), 1);
}
