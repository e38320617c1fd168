use cart_service::events::{
    destination_for, event_payload, Event, InMemoryMessageBroker, MessageBroker,
    RabbitMqInitializationInfo,
};
use cart_service::text::str_eq;

fn added(product_id: &str) -> Event {
    Event::ProductAddedToCartEvent { product_id: product_id.to_string() }
}

fn removed(product_id: &str) -> Event {
    Event::ProductRemovedFromCartEvent { product_id: product_id.to_string() }
}

#[test]
fn destinations_are_routed_per_variant() {
    assert_eq!(destination_for(&added("sku1")), "product.added.to.cart");
    assert_eq!(destination_for(&removed("sku1")), "product.removed.from.cart");
}

#[test]
fn added_event_payload_is_the_tagged_json_object() {
    let payload = event_payload(&added("sku1"));
    assert_eq!(
        String::from_utf8(payload).unwrap(),
        "{\"ProductAddedToCartEvent\":{\"product_id\":\"sku1\"}}"
    );
}

#[test]
fn removed_event_payload_is_the_tagged_json_object() {
    let payload = event_payload(&removed("sku-2"));
    assert_eq!(
        String::from_utf8(payload).unwrap(),
        "{\"ProductRemovedFromCartEvent\":{\"product_id\":\"sku-2\"}}"
    );
}

#[test]
fn payload_escapes_quotes_backslashes_and_control_bytes() {
    let payload = event_payload(&added("a\"b\\c\nd"));
    assert_eq!(
        String::from_utf8(payload).unwrap(),
        "{\"ProductAddedToCartEvent\":{\"product_id\":\"a\\\"b\\\\c\\u000ad\"}}"
    );
}

#[test]
fn payload_passes_non_ascii_text_through() {
    let payload = event_payload(&added("käse"));
    assert_eq!(
        String::from_utf8(payload).unwrap(),
        "{\"ProductAddedToCartEvent\":{\"product_id\":\"käse\"}}"
    );
}

#[test]
fn broker_records_attempts_in_order_and_fails_per_script() {
    let mut broker = InMemoryMessageBroker::new(vec![false, true]);
    assert!(broker.publish_message(&added("first")).is_ok());
    assert!(broker.publish_message(&added("second")).is_err());
    assert!(broker.publish_message(&added("third")).is_ok());
    assert_eq!(broker.attempt_count(), 3);
    match broker.attempt_at(1) {
        Event::ProductAddedToCartEvent { product_id } => assert_eq!(product_id, "second"),
        Event::ProductRemovedFromCartEvent { .. } => panic!("wrong event variant"),
    }
}

#[test]
fn initialization_info_carries_its_settings() {
    let info = RabbitMqInitializationInfo::new(
        "amqp.example".to_string(),
        5672,
        "guest".to_string(),
        "guest".to_string(),
    );
    assert_eq!(info.uri, "amqp.example");
    assert_eq!(info.port, 5672);
    assert_eq!(info.username, "guest");
    assert_eq!(info.password, "guest");
}

#[test]
fn str_eq_compares_by_content() {
    assert!(str_eq("sku1", "sku1"));
    assert!(!str_eq("sku1", "sku2"));
    assert!(!str_eq("sku", "sku1"));
    assert!(str_eq("", ""));
    assert!(str_eq("käse", "käse"));
}
