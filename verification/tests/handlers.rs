use cart_service::cqrs::{
    AddProductToCartCommand, AddProductToCartCommandHandler, CommandHandler, CreateCartCommand,
    CreateCartCommandHandler, GetCartsQuery, GetCartsQueryHandler, QueryHandler,
    RemoveProductFromCartCommand, RemoveProductFromCartCommandHandler,
};
use cart_service::errors::AppError;
use cart_service::events::{Event, InMemoryMessageBroker};
use cart_service::repositories::{CartRepository, InMemoryCartRepository, InMemoryOrderRepository};
use cart_service::uow::OrderUnitOfWork;

type Uow = OrderUnitOfWork<InMemoryOrderRepository, InMemoryCartRepository, InMemoryMessageBroker>;

fn fresh_uow(failures: Vec<bool>) -> Uow {
    OrderUnitOfWork::new(
        InMemoryOrderRepository::new(),
        InMemoryCartRepository::new(),
        InMemoryMessageBroker::new(failures),
    )
}

fn create_cart(uow: &mut Uow) -> String {
    let handler = CreateCartCommandHandler::new();
    let response = handler
        .handle(uow, &CreateCartCommand {}, 1_700_000_000_000)
        .expect("creating a cart against the in-memory store succeeds");
    response.id
}

fn add(uow: &mut Uow, cart_id: &str, product_id: &str) -> Result<String, AppError> {
    let handler = AddProductToCartCommandHandler::new();
    let command = AddProductToCartCommand {
        cart_id: cart_id.to_string(),
        product_id: product_id.to_string(),
    };
    handler.handle(uow, &command, 1_700_000_000_000).map(|r| r.cart_id)
}

fn remove(uow: &mut Uow, cart_id: &str, product_id: &str) -> Result<(), AppError> {
    let handler = RemoveProductFromCartCommandHandler::new();
    let command = RemoveProductFromCartCommand {
        cart_id: cart_id.to_string(),
        product_id: product_id.to_string(),
    };
    handler.handle(uow, &command, 1_700_000_000_000).map(|_| ())
}

fn quantity(uow: &Uow, cart_id: &str, product_id: &str) -> Option<i32> {
    let cart = uow.cart_repository.read(cart_id).expect("the cart exists");
    cart.products.get(product_id)
}

#[test]
fn created_cart_reads_back_empty_with_matching_id() {
    let mut uow = fresh_uow(vec![]);
    let id = create_cart(&mut uow);
    assert_eq!(id.len(), 36);
    let cart = uow.cart_repository.read(id.as_str()).expect("the new cart reads back");
    assert_eq!(cart.id, id);
    assert!(cart.products.is_empty());
    assert_eq!(cart.created_at_utc, 1_700_000_000_000);
    assert_eq!(cart.updated_at_utc, 1_700_000_000_000);
    assert_eq!(cart.version, 0);
}

#[test]
fn two_created_carts_have_distinct_ids() {
    let mut uow = fresh_uow(vec![]);
    let first = create_cart(&mut uow);
    let second = create_cart(&mut uow);
    assert_ne!(first, second);
}

#[test]
fn adding_a_new_product_enters_quantity_one() {
    let mut uow = fresh_uow(vec![]);
    let id = create_cart(&mut uow);
    let returned = add(&mut uow, id.as_str(), "sku1").expect("the addition succeeds");
    assert_eq!(returned, id);
    assert_eq!(quantity(&uow, id.as_str(), "sku1"), Some(1));
}

#[test]
fn adding_n_times_gives_quantity_n() {
    let mut uow = fresh_uow(vec![]);
    let id = create_cart(&mut uow);
    for _ in 0..5 {
        add(&mut uow, id.as_str(), "sku1").expect("the addition succeeds");
    }
    assert_eq!(quantity(&uow, id.as_str(), "sku1"), Some(5));
    assert_eq!(uow.message_broker.attempt_count(), 5);
}

#[test]
fn add_publishes_one_added_event() {
    let mut uow = fresh_uow(vec![]);
    let id = create_cart(&mut uow);
    add(&mut uow, id.as_str(), "sku9").expect("the addition succeeds");
    assert_eq!(uow.message_broker.attempt_count(), 1);
    match uow.message_broker.attempt_at(0) {
        Event::ProductAddedToCartEvent { product_id } => assert_eq!(product_id, "sku9"),
        Event::ProductRemovedFromCartEvent { .. } => panic!("wrong event variant"),
    }
}

#[test]
fn add_with_empty_cart_id_is_rejected_before_any_side_effect() {
    let mut uow = fresh_uow(vec![]);
    let result = add(&mut uow, "", "sku1");
    match result {
        Err(AppError::ValidationError { message }) => {
            assert_eq!(message, "Cart ID cannot be null or empty!!!");
        }
        other => panic!("expected a validation error, got {:?}", other),
    }
    assert_eq!(uow.message_broker.attempt_count(), 0);
}

#[test]
fn add_with_empty_product_id_is_rejected_before_any_side_effect() {
    let mut uow = fresh_uow(vec![]);
    let id = create_cart(&mut uow);
    let result = add(&mut uow, id.as_str(), "");
    match result {
        Err(AppError::ValidationError { message }) => {
            assert_eq!(message, "Product ID cannot be null or empty!!!");
        }
        other => panic!("expected a validation error, got {:?}", other),
    }
    assert_eq!(uow.message_broker.attempt_count(), 0);
}

#[test]
fn add_to_unknown_cart_is_not_found() {
    let mut uow = fresh_uow(vec![]);
    let result = add(&mut uow, "missing-cart", "sku1");
    match result {
        Err(AppError::NotFound { id }) => assert_eq!(id, "missing-cart"),
        other => panic!("expected not-found, got {:?}", other),
    }
    assert_eq!(uow.message_broker.attempt_count(), 0);
}

#[test]
fn removing_at_quantity_one_drops_the_entry() {
    let mut uow = fresh_uow(vec![]);
    let id = create_cart(&mut uow);
    add(&mut uow, id.as_str(), "sku1").expect("the addition succeeds");
    remove(&mut uow, id.as_str(), "sku1").expect("the removal succeeds");
    assert_eq!(quantity(&uow, id.as_str(), "sku1"), None);
    let cart = uow.cart_repository.read(id.as_str()).expect("the cart exists");
    assert!(cart.products.is_empty());
}

#[test]
fn removing_above_quantity_one_decrements_by_exactly_one() {
    let mut uow = fresh_uow(vec![]);
    let id = create_cart(&mut uow);
    add(&mut uow, id.as_str(), "sku1").expect("the addition succeeds");
    add(&mut uow, id.as_str(), "sku1").expect("the addition succeeds");
    add(&mut uow, id.as_str(), "sku1").expect("the addition succeeds");
    remove(&mut uow, id.as_str(), "sku1").expect("the removal succeeds");
    assert_eq!(quantity(&uow, id.as_str(), "sku1"), Some(2));
}

#[test]
fn removing_an_absent_product_is_not_found_and_mutates_nothing() {
    let mut uow = fresh_uow(vec![]);
    let id = create_cart(&mut uow);
    add(&mut uow, id.as_str(), "other").expect("the addition succeeds");
    let attempts_before = uow.message_broker.attempt_count();
    let result = remove(&mut uow, id.as_str(), "sku1");
    match result {
        Err(AppError::NotFound { id: missing }) => assert_eq!(missing, "sku1"),
        other => panic!("expected not-found, got {:?}", other),
    }
    assert_eq!(quantity(&uow, id.as_str(), "other"), Some(1));
    assert_eq!(uow.message_broker.attempt_count(), attempts_before);
}

#[test]
fn remove_publishes_one_removed_event() {
    let mut uow = fresh_uow(vec![]);
    let id = create_cart(&mut uow);
    add(&mut uow, id.as_str(), "sku2").expect("the addition succeeds");
    remove(&mut uow, id.as_str(), "sku2").expect("the removal succeeds");
    assert_eq!(uow.message_broker.attempt_count(), 2);
    match uow.message_broker.attempt_at(1) {
        Event::ProductRemovedFromCartEvent { product_id } => assert_eq!(product_id, "sku2"),
        Event::ProductAddedToCartEvent { .. } => panic!("wrong event variant"),
    }
}

#[test]
fn partial_commit_failure_keeps_the_mutation_and_reports_counts() {
    // The broker refuses the first attempt it ever sees.
    let mut uow = fresh_uow(vec![true]);
    let id = {
        // Creating a cart publishes nothing, so the failure script is untouched.
        create_cart(&mut uow)
    };
    let result = add(&mut uow, id.as_str(), "sku1");
    match result {
        Err(AppError::CommitPartialFailure { attempted, failed }) => {
            assert_eq!(attempted, 1);
            assert_eq!(failed, 1);
        }
        other => panic!("expected a partial commit failure, got {:?}", other),
    }
    // The aggregate mutation persisted although the publish failed.
    assert_eq!(quantity(&uow, id.as_str(), "sku1"), Some(1));
    assert_eq!(uow.message_broker.attempt_count(), 1);
}

#[test]
fn get_cart_by_id_answers_the_one_cart() {
    let mut uow = fresh_uow(vec![]);
    let id = create_cart(&mut uow);
    add(&mut uow, id.as_str(), "sku1").expect("the addition succeeds");
    let handler = GetCartsQueryHandler::new();
    let response = handler
        .handle(&uow, Some(GetCartsQuery { id: id.clone() }))
        .expect("the query succeeds");
    assert_eq!(response.carts.len(), 1);
    assert_eq!(response.carts[0].id, id);
    assert_eq!(response.carts[0].products.get("sku1"), Some(1));
}

#[test]
fn get_cart_with_unknown_id_is_not_found() {
    let uow = fresh_uow(vec![]);
    let handler = GetCartsQueryHandler::new();
    let result = handler.handle(&uow, Some(GetCartsQuery { id: "nobody".to_string() }));
    match result {
        Err(AppError::NotFound { id }) => assert_eq!(id, "nobody"),
        _ => panic!("expected not-found"),
    }
}

#[test]
fn get_carts_without_id_answers_an_empty_result_set() {
    let mut uow = fresh_uow(vec![]);
    create_cart(&mut uow);
    let handler = GetCartsQueryHandler::new();
    let response = handler.handle(&uow, None).expect("the query succeeds");
    assert_eq!(response.carts.len(), 0);
}

#[test]
fn end_to_end_scenario_add_add_remove_remove_then_not_found() {
    let mut uow = fresh_uow(vec![]);
    let x = create_cart(&mut uow);
    let cart = uow.cart_repository.read(x.as_str()).expect("the cart exists");
    assert!(cart.products.is_empty());

    add(&mut uow, x.as_str(), "sku1").expect("first addition");
    assert_eq!(quantity(&uow, x.as_str(), "sku1"), Some(1));

    add(&mut uow, x.as_str(), "sku1").expect("second addition");
    assert_eq!(quantity(&uow, x.as_str(), "sku1"), Some(2));

    remove(&mut uow, x.as_str(), "sku1").expect("first removal");
    assert_eq!(quantity(&uow, x.as_str(), "sku1"), Some(1));

    remove(&mut uow, x.as_str(), "sku1").expect("second removal");
    assert_eq!(quantity(&uow, x.as_str(), "sku1"), None);
    let cart = uow.cart_repository.read(x.as_str()).expect("the cart exists");
    assert!(cart.products.is_empty());

    let result = remove(&mut uow, x.as_str(), "sku1");
    assert!(matches!(result, Err(AppError::NotFound { .. })));
    let cart = uow.cart_repository.read(x.as_str()).expect("the cart exists");
    assert!(cart.products.is_empty());
}
