use order_repo::in_mem_order_store::InMemOrderStore;
use order_repo::order::OrderError;
use order_repo::order_store::OrderStore;

const OWNER: u128 = 7;

#[test]
fn scenario_create_add_delete_get() {
    let mut store = InMemOrderStore::new();

    let order = store.create_order(OWNER).expect("creating an order");
    assert_eq!(order.owner, OWNER);
    assert_eq!(order.items.len(), 0);
    let id = order.id;

    store
        .add_item(id, String::from("prod-A"), 2)
        .expect("adding prod-A");
    let got = store.get_order(id).expect("reading the order");
    assert_eq!(got.items.len(), 1);
    assert_eq!(got.items[0].product_id, "prod-A");
    assert_eq!(got.items[0].quantity, 2);

    store
        .add_item(id, String::from("prod-B"), 1)
        .expect("adding prod-B");
    let got = store.get_order(id).expect("reading the order");
    assert_eq!(got.items.len(), 2);
    assert_eq!(got.items[0].product_id, "prod-A");
    assert_eq!(got.items[0].quantity, 2);
    assert_eq!(got.items[1].product_id, "prod-B");
    assert_eq!(got.items[1].quantity, 1);

    store.delete_item(id, 0).expect("deleting item 0");
    let got = store.get_order(id).expect("reading the order");
    assert_eq!(got.items.len(), 1);
    assert_eq!(got.items[0].product_id, "prod-B");
    assert_eq!(got.items[0].quantity, 1);

    assert_eq!(store.delete_item(id, 5), Err(OrderError::InvalidIndex));
    let got = store.get_order(id).expect("reading the order");
    assert_eq!(got.items.len(), 1);
    assert_eq!(got.items[0].product_id, "prod-B");
    assert_eq!(got.items[0].quantity, 1);

    let unused_id: u128 = 0x9cb4cf495c3d464783b08f3515da7be1;
    assert!(unused_id != id);
    assert_eq!(store.get_order(unused_id).unwrap_err(), OrderError::NotFound);
}

#[test]
fn add_item_rejects_non_positive_quantity() {
    let mut store = InMemOrderStore::new();
    let id = store.create_order(OWNER).expect("creating an order").id;
    store
        .add_item(id, String::from("prod-A"), 3)
        .expect("adding a valid item");

    assert_eq!(
        store.add_item(id, String::from("prod-B"), 0),
        Err(OrderError::InvalidArgument)
    );
    assert_eq!(
        store.add_item(id, String::from("prod-B"), -4),
        Err(OrderError::InvalidArgument)
    );

    let got = store.get_order(id).expect("reading the order");
    assert_eq!(got.items.len(), 1);
    assert_eq!(got.items[0].product_id, "prod-A");
    assert_eq!(got.items[0].quantity, 3);
}

#[test]
fn add_and_delete_on_absent_order_fail_not_found() {
    let mut store = InMemOrderStore::new();
    let absent: u128 = 12345;
    assert_eq!(
        store.add_item(absent, String::from("prod-A"), 1),
        Err(OrderError::NotFound)
    );
    assert_eq!(store.delete_item(absent, 0), Err(OrderError::NotFound));
    assert_eq!(store.get_order(absent).unwrap_err(), OrderError::NotFound);
}

#[test]
fn delete_item_shifts_later_items_down() {
    let mut store = InMemOrderStore::new();
    let id = store.create_order(OWNER).expect("creating an order").id;
    for (name, qty) in [("a", 1), ("b", 2), ("c", 3), ("d", 4)] {
        store.add_item(id, String::from(name), qty).expect("adding");
    }

    store.delete_item(id, 1).expect("deleting item 1");
    let got = store.get_order(id).expect("reading the order");
    let names: Vec<&str> = got.items.iter().map(|it| it.product_id.as_str()).collect();
    let quantities: Vec<i64> = got.items.iter().map(|it| it.quantity).collect();
    assert_eq!(names, ["a", "c", "d"]);
    assert_eq!(quantities, [1, 3, 4]);

    assert_eq!(store.delete_item(id, 3), Err(OrderError::InvalidIndex));
    let got = store.get_order(id).expect("reading the order");
    assert_eq!(got.items.len(), 3);
}

#[test]
fn duplicate_identifier_is_an_internal_error() {
    let mut store = InMemOrderStore::new();
    let first = store
        .insert_order_with_id(OWNER, 99)
        .expect("inserting a fresh identifier");
    assert_eq!(first.id, 99);
    assert_eq!(
        store.insert_order_with_id(OWNER, 99).unwrap_err(),
        OrderError::Internal
    );
    // the failed insert left the store unchanged
    let listed = store.list_orders(OWNER).expect("listing");
    assert_eq!(listed.len(), 1);
    assert_eq!(listed[0].id, 99);
}
