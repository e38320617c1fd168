use cart_service::domain::{Cart, Order, ProductMap};
use cart_service::errors::AppError;
use cart_service::repositories::{
    CartRepository, InMemoryCartRepository, InMemoryOrderRepository, OrderRepository, Transaction,
};

fn bare_cart(id: &str) -> Cart {
    Cart {
        id: id.to_string(),
        products: ProductMap::new(),
        created_at_utc: 7,
        updated_at_utc: 7,
        version: 0,
    }
}

fn bare_order(id: &str) -> Order {
    Order {
        id: id.to_string(),
        products: vec!["p1".to_string()],
        payment_id: "pay1".to_string(),
        created_at_utc: 7,
        updated_at_utc: 7,
        version: 0,
    }
}

fn active_txn() -> Transaction {
    let mut txn = Transaction::new();
    txn.active = true;
    txn
}

#[test]
fn cart_update_of_an_absent_id_is_not_found_and_stages_nothing() {
    let repo = InMemoryCartRepository::new();
    let mut txn = active_txn();
    let result = repo.update("missing".to_string(), bare_cart("missing"), &mut txn);
    match result {
        Err(AppError::NotFound { id }) => assert_eq!(id, "missing"),
        other => panic!("expected not-found, got {:?}", other),
    }
    assert_eq!(txn.cart_writes.len(), 0);
}

#[test]
fn cart_update_sees_a_create_staged_in_the_same_transaction() {
    let mut repo = InMemoryCartRepository::new();
    let mut txn = active_txn();
    repo.create("c1".to_string(), bare_cart("c1"), &mut txn).expect("create stages");
    let mut changed = bare_cart("c1");
    changed.add_product("sku");
    repo.update("c1".to_string(), changed, &mut txn).expect("the staged create is seen");
    repo.commit_writes(&txn.cart_writes).expect("the writes apply");
    let stored = repo.read("c1").expect("the cart is durable");
    assert_eq!(stored.products.get("sku"), Some(1));
}

#[test]
fn cart_delete_staged_in_a_transaction_removes_on_commit() {
    let mut repo = InMemoryCartRepository::new();
    let mut txn = active_txn();
    repo.create("c1".to_string(), bare_cart("c1"), &mut txn).expect("create stages");
    repo.commit_writes(&txn.cart_writes).expect("the writes apply");
    assert!(repo.read("c1").is_ok());

    let mut txn2 = active_txn();
    repo.delete("c1", &mut txn2);
    repo.commit_writes(&txn2.cart_writes).expect("the writes apply");
    assert!(repo.read("c1").is_err());
}

#[test]
fn cart_read_all_lists_every_committed_cart() {
    let mut repo = InMemoryCartRepository::new();
    let mut txn = active_txn();
    repo.create("a".to_string(), bare_cart("a"), &mut txn).expect("create stages");
    repo.create("b".to_string(), bare_cart("b"), &mut txn).expect("create stages");
    repo.commit_writes(&txn.cart_writes).expect("the writes apply");
    let all = repo.read_all().expect("reading all succeeds");
    assert_eq!(all.len(), 2);
    let mut ids: Vec<String> = all.into_iter().map(|c| c.id).collect();
    ids.sort();
    assert_eq!(ids, vec!["a".to_string(), "b".to_string()]);
}

#[test]
fn later_staged_write_for_the_same_id_wins_on_commit() {
    let mut repo = InMemoryCartRepository::new();
    let mut txn = active_txn();
    repo.create("c".to_string(), bare_cart("c"), &mut txn).expect("create stages");
    let mut second = bare_cart("c");
    second.add_product("sku");
    second.add_product("sku");
    repo.update("c".to_string(), second, &mut txn).expect("update stages");
    repo.commit_writes(&txn.cart_writes).expect("the writes apply");
    let stored = repo.read("c").expect("the cart is durable");
    assert_eq!(stored.products.get("sku"), Some(2));
}

#[test]
fn order_repository_mirrors_the_cart_contract() {
    let mut repo = InMemoryOrderRepository::new();
    let mut txn = active_txn();
    let created = repo.create("o1".to_string(), bare_order("o1"), &mut txn).expect("create stages");
    assert_eq!(created.id, "o1");
    repo.commit_writes(&txn.order_writes).expect("the writes apply");

    let stored = repo.read("o1").expect("the order is durable");
    assert_eq!(stored.products, vec!["p1".to_string()]);
    assert_eq!(stored.payment_id, "pay1");

    let all = repo.read_all().expect("reading all succeeds");
    assert_eq!(all.len(), 1);

    match repo.read("o2") {
        Err(AppError::NotFound { id }) => assert_eq!(id, "o2"),
        other => panic!("expected not-found, got {:?}", other),
    }
}

#[test]
fn product_map_enumerates_its_entries() {
    let mut map = ProductMap::new();
    assert_eq!(map.len(), 0);
    map.insert("a".to_string(), 2);
    map.insert("b".to_string(), 1);
    map.insert("a".to_string(), 3);
    assert_eq!(map.len(), 2);
    assert_eq!(map.get("a"), Some(3));
    assert_eq!(map.get("b"), Some(1));
    assert_eq!(map.get("c"), None);
    let mut seen: Vec<(String, i32)> = Vec::new();
    for i in 0..map.len() {
        seen.push(map.entry_at(i));
    }
    seen.sort();
    assert_eq!(seen, vec![("a".to_string(), 3), ("b".to_string(), 1)]);
    map.remove("a");
    assert_eq!(map.get("a"), None);
    assert_eq!(map.len(), 1);
}
