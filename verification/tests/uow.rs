use cart_service::domain::{Cart, ProductMap};
use cart_service::errors::AppError;
use cart_service::events::{Event, InMemoryMessageBroker};
use cart_service::repositories::{CartRepository, InMemoryCartRepository, InMemoryOrderRepository};
use cart_service::uow::OrderUnitOfWork;

type Uow = OrderUnitOfWork<InMemoryOrderRepository, InMemoryCartRepository, InMemoryMessageBroker>;

fn fresh_uow(failures: Vec<bool>) -> Uow {
    OrderUnitOfWork::new(
        InMemoryOrderRepository::new(),
        InMemoryCartRepository::new(),
        InMemoryMessageBroker::new(failures),
    )
}

fn bare_cart(id: &str) -> Cart {
    Cart {
        id: id.to_string(),
        products: ProductMap::new(),
        created_at_utc: 0,
        updated_at_utc: 0,
        version: 0,
    }
}

fn added_event(product_id: &str) -> Event {
    Event::ProductAddedToCartEvent { product_id: product_id.to_string() }
}

#[test]
fn begin_twice_fails_while_a_transaction_is_active() {
    let mut uow = fresh_uow(vec![]);
    uow.begin_transaction().expect("the first begin succeeds");
    let second = uow.begin_transaction();
    assert!(matches!(second, Err(AppError::BackendError { .. })));
    uow.rollback().expect("rollback succeeds");
    uow.begin_transaction().expect("after rollback a new transaction may start");
}

#[test]
fn commit_with_k_staged_events_attempts_each_and_reports_partial_failure() {
    // Three staged events; the broker refuses the second.
    let mut uow = fresh_uow(vec![false, true, false]);
    uow.begin_transaction().expect("begin succeeds");
    let cart = bare_cart("c1");
    uow.cart_repository
        .create("c1".to_string(), cart, &mut uow.transaction)
        .expect("create stages the write");
    uow.stage_event(added_event("a"));
    uow.stage_event(added_event("b"));
    uow.stage_event(added_event("c"));
    let result = uow.commit();
    match result {
        Err(AppError::CommitPartialFailure { attempted, failed }) => {
            assert_eq!(attempted, 3);
            assert_eq!(failed, 1);
        }
        other => panic!("expected a partial commit failure, got {:?}", other),
    }
    // Exactly three publish attempts were made, none silently dropped.
    assert_eq!(uow.message_broker.attempt_count(), 3);
    // The aggregate mutation persists regardless of the publish failure.
    let stored = uow.cart_repository.read("c1").expect("the write is durable");
    assert_eq!(stored.id, "c1");
}

#[test]
fn commit_succeeds_when_every_event_is_taken() {
    let mut uow = fresh_uow(vec![]);
    uow.begin_transaction().expect("begin succeeds");
    uow.stage_event(added_event("a"));
    uow.stage_event(added_event("b"));
    uow.commit().expect("all events are taken");
    assert_eq!(uow.message_broker.attempt_count(), 2);
}

#[test]
fn rollback_discards_staged_events_and_writes() {
    let mut uow = fresh_uow(vec![]);
    uow.begin_transaction().expect("begin succeeds");
    let cart = bare_cart("ghostly");
    uow.cart_repository
        .create("ghostly".to_string(), cart, &mut uow.transaction)
        .expect("create stages the write");
    uow.stage_event(added_event("staged-before-rollback"));
    uow.rollback().expect("rollback succeeds");

    // Nothing was published and nothing became durable.
    assert_eq!(uow.message_broker.attempt_count(), 0);
    assert!(uow.cart_repository.read("ghostly").is_err());

    // A later successful commit never re-publishes what was staged before.
    uow.begin_transaction().expect("a new operation begins");
    uow.stage_event(added_event("staged-after-rollback"));
    uow.commit().expect("the new operation commits");
    assert_eq!(uow.message_broker.attempt_count(), 1);
    match uow.message_broker.attempt_at(0) {
        Event::ProductAddedToCartEvent { product_id } => {
            assert_eq!(product_id, "staged-after-rollback");
        }
        Event::ProductRemovedFromCartEvent { .. } => panic!("wrong event variant"),
    }
}

#[test]
fn reads_see_no_staged_writes_before_commit() {
    let mut uow = fresh_uow(vec![]);
    uow.begin_transaction().expect("begin succeeds");
    let cart = bare_cart("pending");
    uow.cart_repository
        .create("pending".to_string(), cart, &mut uow.transaction)
        .expect("create stages the write");
    // The committed state does not show the in-flight write.
    assert!(uow.cart_repository.read("pending").is_err());
    uow.commit().expect("commit succeeds");
    assert!(uow.cart_repository.read("pending").is_ok());
}

#[test]
fn lost_update_race_exists_without_compare_and_swap() {
    // Two read-modify-write rounds both start from the same snapshot, as two
    // concurrent handlers would; the second write silently overwrites the
    // first, losing one increment.
    let mut uow = fresh_uow(vec![]);
    uow.begin_transaction().expect("begin succeeds");
    let cart = bare_cart("raced");
    uow.cart_repository
        .create("raced".to_string(), cart, &mut uow.transaction)
        .expect("create stages the write");
    uow.commit().expect("commit succeeds");

    let snapshot = uow.cart_repository.read("raced").expect("the cart exists");
    let mut first = snapshot.clone();
    first.add_product("sku");
    let mut second = snapshot.clone();
    second.add_product("sku");

    uow.begin_transaction().expect("begin succeeds");
    uow.cart_repository
        .update("raced".to_string(), first, &mut uow.transaction)
        .expect("the first writer replaces the document");
    uow.commit().expect("commit succeeds");

    uow.begin_transaction().expect("begin succeeds");
    uow.cart_repository
        .update("raced".to_string(), second, &mut uow.transaction)
        .expect("the second writer replaces the document");
    uow.commit().expect("commit succeeds");

    let stored = uow.cart_repository.read("raced").expect("the cart exists");
    // Two increments happened, but one was lost: last writer wins.
    assert_eq!(stored.products.get("sku"), Some(1));
}

#[test]
fn compare_and_swap_on_the_version_closes_the_race() {
    let mut uow = fresh_uow(vec![]);
    uow.begin_transaction().expect("begin succeeds");
    let cart = bare_cart("guarded");
    uow.cart_repository
        .create("guarded".to_string(), cart, &mut uow.transaction)
        .expect("create stages the write");
    uow.commit().expect("commit succeeds");

    let snapshot = uow.cart_repository.read("guarded").expect("the cart exists");
    let mut first = snapshot.clone();
    first.add_product("sku");
    let mut second = snapshot.clone();
    second.add_product("sku");

    let first_write = uow.cart_repository.update_if_version("guarded", first, snapshot.version);
    assert!(first_write.is_some());
    assert_eq!(first_write.unwrap().version, snapshot.version + 1);

    // The second writer still expects the old version and is turned away.
    let second_write = uow.cart_repository.update_if_version("guarded", second, snapshot.version);
    assert!(second_write.is_none());

    let stored = uow.cart_repository.read("guarded").expect("the cart exists");
    assert_eq!(stored.products.get("sku"), Some(1));
    assert_eq!(stored.version, snapshot.version + 1);
}
