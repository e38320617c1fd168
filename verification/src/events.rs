//! Domain events, their wire form, and the message broker boundary.
//!
//! An event is routed to one destination per variant and carried as a
//! self-describing tagged JSON object. The encoder here is verified; a
//! broker implementation sends the encoded bytes with persistent delivery.

use vstd::prelude::*;

verus! {

use vstd::string::StringExecFns;
use vstd::utf8::encode_utf8;

/// The ghost value of a domain event.
#[verifier::ext_equal]
pub enum EventView {
    ProductAddedToCartEvent { product_id: Seq<char> },
    ProductRemovedFromCartEvent { product_id: Seq<char> },
}

/// A domain event: a closed union, one variant per cart mutation.
pub enum Event {
    ProductAddedToCartEvent { product_id: String },
    ProductRemovedFromCartEvent { product_id: String },
}

impl View for Event {
    type V = EventView;

    open spec fn view(&self) -> EventView {
        match self {
            Event::ProductAddedToCartEvent { product_id } => EventView::ProductAddedToCartEvent {
                product_id: product_id@,
            },
            Event::ProductRemovedFromCartEvent { product_id } => (
            EventView::ProductRemovedFromCartEvent { product_id: product_id@ }),
        }
    }
}

impl DeepView for Event {
    type V = EventView;

    open spec fn deep_view(&self) -> EventView {
        self.view()
    }
}

impl Clone for Event {
    /// Clones the event, keeping its ghost value.
    fn clone(&self) -> (r: Self)
        ensures
            r@ == self@,
    {
        match self {
            Event::ProductAddedToCartEvent { product_id } => Event::ProductAddedToCartEvent {
                product_id: product_id.clone(),
            },
            Event::ProductRemovedFromCartEvent { product_id } => (
            Event::ProductRemovedFromCartEvent { product_id: product_id.clone() }),
        }
    }
}

/// The destination an event is routed to, one per variant.
pub open spec fn spec_destination(e: EventView) -> Seq<char> {
    match e {
        EventView::ProductAddedToCartEvent { .. } => "product.added.to.cart"@,
        EventView::ProductRemovedFromCartEvent { .. } => "product.removed.from.cart"@,
    }
}

/// Routes an event to its destination name; the routing table is exhaustive,
/// so a new variant without a destination is rejected when this is built.
pub fn destination_for(event: &Event) -> (r: &'static str)
    ensures
        r@ == spec_destination(event@),
{
    match event {
        Event::ProductAddedToCartEvent { .. } => "product.added.to.cart",
        Event::ProductRemovedFromCartEvent { .. } => "product.removed.from.cart",
    }
}

/// The lower-case hexadecimal digit for a value below sixteen.
pub open spec fn spec_hex_digit(n: u8) -> u8 {
    if n < 10 {
        (0x30 + n) as u8
    } else {
        (0x61 + (n - 10)) as u8
    }
}

/// How one byte of a JSON string body is carried: quote and backslash are
/// escaped, control bytes become a four-digit escape, all else stands as is.
pub open spec fn spec_escape_byte(b: u8) -> Seq<u8> {
    if b == 0x22 {
        seq![0x5c, 0x22]
    } else if b == 0x5c {
        seq![0x5c, 0x5c]
    } else if b < 0x20 {
        seq![0x5c, 0x75, 0x30, 0x30, spec_hex_digit(b / 16), spec_hex_digit(b % 16)]
    } else {
        seq![b]
    }
}

/// The JSON escaping of a byte sequence, byte for byte.
pub open spec fn spec_escape(s: Seq<u8>) -> Seq<u8>
    decreases s.len(),
{
    if s.len() == 0 {
        Seq::empty()
    } else {
        spec_escape(s.drop_last()) + spec_escape_byte(s.last())
    }
}

/// The broker payload of an event: a tagged JSON object naming the variant
/// and carrying the product identifier as an escaped JSON string.
pub open spec fn spec_event_payload(e: EventView) -> Seq<u8> {
    match e {
        EventView::ProductAddedToCartEvent { product_id } => encode_utf8(
            "{\"ProductAddedToCartEvent\":{\"product_id\":\""@,
        ) + spec_escape(encode_utf8(product_id)) + encode_utf8("\"}}"@),
        EventView::ProductRemovedFromCartEvent { product_id } => encode_utf8(
            "{\"ProductRemovedFromCartEvent\":{\"product_id\":\""@,
        ) + spec_escape(encode_utf8(product_id)) + encode_utf8("\"}}"@),
    }
}

/// The JSON escaping of the given bytes.
fn escape_bytes(s: &[u8]) -> (r: Vec<u8>)
    ensures
        r@ == spec_escape(s@),
{
    let mut out: Vec<u8> = Vec::new();
    let mut i: usize = 0;
    while i < s.len()
        invariant
            0 <= i <= s@.len(),
            out@ == spec_escape(s@.take(i as int)),
        decreases s@.len() - i,
    {
        let b = s[i];
        if b == 0x22 {
            out.push(0x5c);
            out.push(0x22);
        } else if b == 0x5c {
            out.push(0x5c);
            out.push(0x5c);
        } else if b < 0x20 {
            out.push(0x5c);
            out.push(0x75);
            out.push(0x30);
            out.push(0x30);
            let hi = b / 16;
            let lo = b % 16;
            out.push(0x30 + hi);
            if lo < 10 {
                out.push(0x30 + lo);
            } else {
                out.push(0x61 + (lo - 10));
            }
        } else {
            out.push(b);
        }
        proof {
            assert(s@.take(i + 1 as int).drop_last() =~= s@.take(i as int));
            assert(s@.take(i + 1 as int).last() == s@[i as int]);
            assert(out@ =~= spec_escape(s@.take(i as int)) + spec_escape_byte(s@[i as int]));
        }
        i += 1;
    }
    proof {
        assert(s@.take(s@.len() as int) =~= s@);
    }
    out
}

/// Encodes an event for the broker: the tagged JSON form of its variant.
pub fn event_payload(event: &Event) -> (r: Vec<u8>)
    ensures
        r@ == spec_event_payload(event@),
{
    let mut out: Vec<u8> = Vec::new();
    match event {
        Event::ProductAddedToCartEvent { product_id } => {
            out.extend_from_slice("{\"ProductAddedToCartEvent\":{\"product_id\":\"".as_bytes());
            let escaped = escape_bytes(product_id.as_str().as_bytes());
            out.extend_from_slice(escaped.as_slice());
            out.extend_from_slice("\"}}".as_bytes());
        },
        Event::ProductRemovedFromCartEvent { product_id } => {
            out.extend_from_slice("{\"ProductRemovedFromCartEvent\":{\"product_id\":\"".as_bytes());
            let escaped = escape_bytes(product_id.as_str().as_bytes());
            out.extend_from_slice(escaped.as_slice());
            out.extend_from_slice("\"}}".as_bytes());
        },
    }
    proof {
        assert(out@ =~= spec_event_payload(event@));
    }
    out
}

/// The boundary to the message broker.
///
/// `attempts` is the sequence of events handed to the broker so far, whether
/// or not they were taken; `accepts` says, per attempt index, whether the
/// broker takes that attempt. Publication promises nothing beyond this: a
/// broker may fail any attempt.
pub trait MessageBroker {
    /// The events handed to the broker so far, in order. An implementation
    /// under the proof's reach overrides this with its own meaning; the
    /// default stands for implementations outside it.
    open spec fn attempts(&self) -> Seq<EventView> {
        Seq::<EventView>::empty()
    }

    /// Whether the broker takes the attempt with the given index; overridden
    /// like `attempts`.
    open spec fn accepts(&self, i: int) -> bool {
        true
    }

    /// Sends one domain event towards its destination.
    fn publish_message(&mut self, event: &Event) -> (r: Result<(), String>)
        ensures
            final(self).attempts() == old(self).attempts().push(event@),
            forall|i: int| #[trigger] final(self).accepts(i) == old(self).accepts(i),
            (r is Ok) == old(self).accepts(old(self).attempts().len() as int),
    ;
}

/// A broker held in memory: it records every attempt and fails exactly the
/// attempt indices it was told to fail, in place of a transport.
pub struct InMemoryMessageBroker {
    attempted: Vec<Event>,
    failures: Vec<bool>,
}

impl InMemoryMessageBroker {
    /// A broker that fails the attempt indices marked true, and takes the rest.
    pub fn new(failures: Vec<bool>) -> (r: InMemoryMessageBroker)
        ensures
            r.attempts() == Seq::<EventView>::empty(),
            forall|i: int| #[trigger] r.accepts(i) == !(0 <= i < failures@.len() && failures@[i]),
    {
        let r = InMemoryMessageBroker { attempted: Vec::new(), failures };
        proof {
            assert(r.attempts() =~= Seq::<EventView>::empty());
        }
        r
    }

    /// How many publish attempts were made.
    pub fn attempt_count(&self) -> (r: usize)
        ensures
            r == self.attempts().len(),
    {
        self.attempted.len()
    }

    /// The event of the given attempt.
    pub fn attempt_at(&self, i: usize) -> (r: &Event)
        requires
            i < self.attempts().len(),
        ensures
            r@ == self.attempts()[i as int],
    {
        &self.attempted[i]
    }
}

impl MessageBroker for InMemoryMessageBroker {
    closed spec fn attempts(&self) -> Seq<EventView> {
        self.attempted.deep_view()
    }

    closed spec fn accepts(&self, i: int) -> bool {
        !(0 <= i < self.failures@.len() && self.failures@[i])
    }

    fn publish_message(&mut self, event: &Event) -> (r: Result<(), String>) {
        let i = self.attempted.len();
        self.attempted.push(event.clone());
        proof {
            assert(self.attempted.deep_view() =~= old(self).attempted.deep_view().push(event@));
        }
        if i < self.failures.len() && self.failures[i] {
            Err(String::from_str("the broker refused the event"))
        } else {
            Ok(())
        }
    }
}

/// Connection settings for a broker reached over AMQP.
pub struct RabbitMqInitializationInfo {
    pub uri: String,
    pub port: u16,
    pub username: String,
    pub password: String,
}

impl RabbitMqInitializationInfo {
    /// Carries the given connection settings.
    pub fn new(uri: String, port: u16, username: String, password: String) -> (r:
        RabbitMqInitializationInfo)
        ensures
            r.uri@ == uri@,
            r.port == port,
            r.username@ == username@,
            r.password@ == password@,
    {
        RabbitMqInitializationInfo { uri, port, username, password }
    }
}

} // verus!
