//! Command and query handlers.
//!
//! Each handler validates its input, reads the aggregate, mutates it in
//! local memory, stages the write and the domain event under the unit of
//! work's transaction, and commits. Validation and not-found failures are
//! detected before any side effect; a backend failure rolls the open
//! transaction back; a partial commit failure leaves the durable mutation
//! in effect and is reported as such.

use vstd::prelude::*;

use crate::domain::{add_product, remove_product, Cart, CartView, ProductMap};
use crate::dtos::{
    AddProductToCartResponse, CartResponse, CreateCartResponse, EmptyResponse, GetCartsResponse,
    Response,
};
use crate::errors::AppError;
use crate::events::{Event, EventView, MessageBroker};
use crate::repositories::{apply_cart_writes, CartRepository, CartWriteView, OrderRepository};
use crate::uow::{lemma_single_accept, OrderUnitOfWork};

verus! {

use vstd::string::StringExecFns;

/// Marks the inputs that ask for a state change.
pub trait Command {

}

/// Marks the inputs that only ask for an answer.
pub trait Query {

}

/// Asks for a new, empty cart.
pub struct CreateCartCommand {

}

impl Command for CreateCartCommand {

}

/// Asks to raise a product's quantity in a cart by one.
pub struct AddProductToCartCommand {
    pub cart_id: String,
    pub product_id: String,
}

impl Command for AddProductToCartCommand {

}

/// Asks to lower a product's quantity in a cart by one.
pub struct RemoveProductFromCartCommand {
    pub cart_id: String,
    pub product_id: String,
}

impl Command for RemoveProductFromCartCommand {

}

/// Asks for one cart by identifier.
pub struct GetCartsQuery {
    pub id: String,
}

impl Query for GetCartsQuery {

}

/// A unit of work ready for a fresh operation: no transaction is active,
/// nothing is staged, the event queue is empty.
pub open spec fn ready<OR: OrderRepository, CR: CartRepository, B: MessageBroker>(
    uow: OrderUnitOfWork<OR, CR, B>,
) -> bool {
    &&& !uow.transaction.active
    &&& uow.transaction@.cart_writes.len() == 0
    &&& uow.transaction@.order_writes.len() == 0
    &&& uow.events_to_publish@.len() == 0
}

/// What every handler leaves behind: the transaction idle and empty, and the
/// event queue drained.
pub open spec fn at_rest<OR: OrderRepository, CR: CartRepository, B: MessageBroker>(
    post: OrderUnitOfWork<OR, CR, B>,
) -> bool {
    &&& !post.transaction.active
    &&& post.transaction@.cart_writes.len() == 0
    &&& post.transaction@.order_writes.len() == 0
    &&& post.events_to_publish@.len() == 0
}

/// Handles one kind of command against the unit of work.
pub trait CommandHandler<
    C: Command,
    R: Response,
    OR: OrderRepository,
    CR: CartRepository,
    B: MessageBroker,
> {
    /// What the handler asks of the world before it runs; each handler
    /// overrides this with its own condition.
    open spec fn pre(&self, uow: OrderUnitOfWork<OR, CR, B>, input: C) -> bool {
        true
    }

    /// Handles the command; the caller supplies the wall-clock time, this
    /// layer never reads a clock of its own.
    fn handle(&self, uow: &mut OrderUnitOfWork<OR, CR, B>, input: &C, now_millis: i64) -> (r:
        Result<R, AppError>)
        requires
            self.pre(*old(uow), *input),
    ;
}

/// Answers one kind of query against the unit of work.
pub trait QueryHandler<
    Q: Query,
    R: Response,
    OR: OrderRepository,
    CR: CartRepository,
    B: MessageBroker,
> {
    /// Answers the query; reads run outside any transaction.
    fn handle(&self, uow: &OrderUnitOfWork<OR, CR, B>, input: Option<Q>) -> (r: Result<
        R,
        AppError,
    >);
}

/// Draws a fresh cart identifier.
///
/// Relies on `uuid::Uuid::new_v4` and its `Display` form: a hyphenated
/// lower-case UUID of 36 characters. Nothing is assumed beyond the length;
/// in particular no two draws are assumed distinct.
#[verifier::external_body]
fn generate_cart_id() -> (r: String)
    ensures
        r@.len() == 36,
{
    uuid::Uuid::new_v4().to_string()
}

/// What creating a cart leaves behind. On success the store gained exactly
/// one empty cart under the returned identifier, stamped with the given
/// time; no event is ever staged or attempted. On a backend failure nothing
/// changed; over stores that can never fail, creation always succeeds.
pub open spec fn create_cart_post<OR: OrderRepository, CR: CartRepository, B: MessageBroker>(
    pre: OrderUnitOfWork<OR, CR, B>,
    post: OrderUnitOfWork<OR, CR, B>,
    now_millis: i64,
    r: Result<CreateCartResponse, AppError>,
) -> bool {
    let carts0 = pre.cart_repository.carts();
    &&& at_rest(post)
    &&& post.order_repository.orders() == pre.order_repository.orders()
    &&& post.message_broker.attempts() == pre.message_broker.attempts()
    &&& (forall|i: int| #[trigger] post.message_broker.accepts(i) == pre.message_broker.accepts(i))
    &&& (pre.cart_repository.infallible() && pre.order_repository.infallible() ==> r is Ok)
    &&& match r {
        Ok(resp) => {
            &&& resp.id@.len() == 36
            &&& post.cart_repository.carts() == carts0.insert(
                resp.id@,
                (CartView {
                    id: resp.id@,
                    products: Map::<Seq<char>, int>::empty(),
                    created_at_utc: now_millis,
                    updated_at_utc: now_millis,
                    version: 0,
                }),
            )
        },
        Err(e) => {
            &&& e matches AppError::BackendError { .. }
            &&& post.cart_repository.carts() == carts0
        },
    }
}

/// Creates carts: draws an identifier, builds an empty cart, creates it
/// within a transaction and commits; no event is staged.
pub struct CreateCartCommandHandler {

}

impl CreateCartCommandHandler {
    /// A handler for cart creation.
    pub fn new() -> CreateCartCommandHandler {
        CreateCartCommandHandler {  }
    }
}

impl<OR: OrderRepository, CR: CartRepository, B: MessageBroker> CommandHandler<
    CreateCartCommand,
    CreateCartResponse,
    OR,
    CR,
    B,
> for CreateCartCommandHandler {
    open spec fn pre(&self, uow: OrderUnitOfWork<OR, CR, B>, input: CreateCartCommand) -> bool {
        ready(uow)
    }

    fn handle(
        &self,
        uow: &mut OrderUnitOfWork<OR, CR, B>,
        input: &CreateCartCommand,
        now_millis: i64,
    ) -> (r: Result<CreateCartResponse, AppError>)
        ensures
            create_cart_post(*old(uow), *final(uow), now_millis, r),
    {
        let cart_id = generate_cart_id();
        let cart = Cart {
            id: cart_id,
            products: ProductMap::new(),
            created_at_utc: now_millis,
            updated_at_utc: now_millis,
            version: 0,
        };
        let key = cart.id.clone();
        let ghost keyv = key@;
        let ghost cartv = cart@;
        let ghost carts0 = uow.cart_repository.carts();
        let _began = uow.begin_transaction();
        proof {
            assert(_began is Ok);
        }
        match uow.cart_repository.create(key, cart, &mut uow.transaction) {
            Ok(created_cart) => {
                proof {
                    assert(uow.transaction@.cart_writes =~= Seq::<CartWriteView>::empty().push(
                        CartWriteView::Put { id: keyv, cart: cartv },
                    ));
                    crate::repositories::lemma_apply_cart_writes_push(
                        carts0,
                        Seq::<CartWriteView>::empty(),
                        CartWriteView::Put { id: keyv, cart: cartv },
                    );
                    assert(apply_cart_writes(carts0, uow.transaction@.cart_writes) == carts0.insert(
                        keyv,
                        cartv,
                    ));
                    assert(cartv =~= (CartView {
                        id: keyv,
                        products: Map::<Seq<char>, int>::empty(),
                        created_at_utc: now_millis,
                        updated_at_utc: now_millis,
                        version: 0,
                    }));
                }
                match uow.commit() {
                    Ok(_) => Ok(CreateCartResponse { id: created_cart.id }),
                    Err(e) => Err(e),
                }
            },
            Err(e) => {
                let _ = uow.rollback();
                Err(e)
            },
        }
    }
}

/// What adding a product leaves behind. Empty identifiers are rejected with
/// the exact validation message before any side effect; an unknown cart is
/// not found; on success the cart's product map gained one to the product's
/// quantity, one added-event was attempted and taken; on a partial commit
/// failure the mutation is durable all the same, the one attempt was made
/// and refused, and the counts say so; a backend failure can arise only
/// past validation, with nothing durable changed and nothing attempted.
/// Over stores that can never fail the outcome is fully determined by the
/// input, the store and the broker.
pub open spec fn add_product_post<OR: OrderRepository, CR: CartRepository, B: MessageBroker>(
    pre: OrderUnitOfWork<OR, CR, B>,
    post: OrderUnitOfWork<OR, CR, B>,
    cmd: AddProductToCartCommand,
    r: Result<AddProductToCartResponse, AppError>,
) -> bool {
    let cid = cmd.cart_id@;
    let pid = cmd.product_id@;
    let carts0 = pre.cart_repository.carts();
    let att0 = pre.message_broker.attempts();
    let added = EventView::ProductAddedToCartEvent { product_id: pid };
    let updated = (CartView { products: add_product(carts0[cid].products, pid), ..carts0[cid] });
    &&& at_rest(post)
    &&& post.order_repository.orders() == pre.order_repository.orders()
    &&& (forall|i: int| #[trigger] post.message_broker.accepts(i) == pre.message_broker.accepts(i))
    &&& (pre.cart_repository.infallible() && pre.order_repository.infallible() ==> (if cid.len()
        == 0 || pid.len() == 0 {
        r matches Err(AppError::ValidationError { .. })
    } else if !carts0.contains_key(cid) {
        r matches Err(AppError::NotFound { .. })
    } else if pre.message_broker.accepts(att0.len() as int) {
        r is Ok
    } else {
        r matches Err(AppError::CommitPartialFailure { .. })
    }))
    &&& match r {
        Ok(resp) => {
            &&& cid.len() > 0 && pid.len() > 0
            &&& carts0.contains_key(cid)
            &&& resp.cart_id@ == carts0[cid].id
            &&& post.cart_repository.carts() == carts0.insert(cid, updated)
            &&& post.message_broker.attempts() == att0.push(added)
            &&& pre.message_broker.accepts(att0.len() as int)
        },
        Err(e) => match e {
            AppError::ValidationError { message } => {
                &&& cid.len() == 0 || pid.len() == 0
                &&& (cid.len() == 0 ==> message@ == "Cart ID cannot be null or empty!!!"@)
                &&& (cid.len() > 0 ==> message@ == "Product ID cannot be null or empty!!!"@)
                &&& post.cart_repository.carts() == carts0
                &&& post.message_broker.attempts() == att0
            },
            AppError::NotFound { id } => {
                &&& cid.len() > 0 && pid.len() > 0
                &&& id@ == cid
                &&& !carts0.contains_key(cid)
                &&& post.cart_repository.carts() == carts0
                &&& post.message_broker.attempts() == att0
            },
            AppError::BackendError { .. } => {
                &&& cid.len() > 0 && pid.len() > 0
                &&& post.cart_repository.carts() == carts0
                &&& post.message_broker.attempts() == att0
            },
            AppError::CommitPartialFailure { attempted, failed } => {
                &&& cid.len() > 0 && pid.len() > 0
                &&& carts0.contains_key(cid)
                &&& attempted == 1 && failed == 1
                &&& post.cart_repository.carts() == carts0.insert(cid, updated)
                &&& post.message_broker.attempts() == att0.push(added)
                &&& !pre.message_broker.accepts(att0.len() as int)
            },
        },
    }
}

/// Adds a product to a cart: validates, reads, raises the quantity by one in
/// local memory, replaces the document within a transaction, stages one
/// added-event and commits.
pub struct AddProductToCartCommandHandler {

}

impl AddProductToCartCommandHandler {
    /// A handler for product addition.
    pub fn new() -> AddProductToCartCommandHandler {
        AddProductToCartCommandHandler {  }
    }
}

impl<OR: OrderRepository, CR: CartRepository, B: MessageBroker> CommandHandler<
    AddProductToCartCommand,
    AddProductToCartResponse,
    OR,
    CR,
    B,
> for AddProductToCartCommandHandler {
    open spec fn pre(
        &self,
        uow: OrderUnitOfWork<OR, CR, B>,
        input: AddProductToCartCommand,
    ) -> bool {
        &&& ready(uow)
        &&& (uow.cart_repository.carts().contains_key(input.cart_id@)
            && uow.cart_repository.carts()[input.cart_id@].products.contains_key(input.product_id@)
            ==> uow.cart_repository.carts()[input.cart_id@].products[input.product_id@]
            < i32::MAX)
    }

    fn handle(
        &self,
        uow: &mut OrderUnitOfWork<OR, CR, B>,
        input: &AddProductToCartCommand,
        now_millis: i64,
    ) -> (r: Result<AddProductToCartResponse, AppError>)
        ensures
            add_product_post(*old(uow), *final(uow), *input, r),
    {
        if input.cart_id.as_str().is_empty() {
            return Err(AppError::ValidationError {
                message: String::from_str("Cart ID cannot be null or empty!!!"),
            });
        }
        if input.product_id.as_str().is_empty() {
            return Err(AppError::ValidationError {
                message: String::from_str("Product ID cannot be null or empty!!!"),
            });
        }
        let ghost carts0 = uow.cart_repository.carts();
        let ghost att0 = uow.message_broker.attempts();
        let ghost cid = input.cart_id@;
        let ghost pid = input.product_id@;
        match uow.cart_repository.read(input.cart_id.as_str()) {
            Ok(mut found_cart) => {
                found_cart.add_product(input.product_id.as_str());
                let ghost updatedv = found_cart@;
                let _began = uow.begin_transaction();
                proof {
                    assert(_began is Ok);
                }
                match uow.cart_repository.update(
                    input.cart_id.clone(),
                    found_cart,
                    &mut uow.transaction,
                ) {
                    Ok(updated_cart) => {
                        uow.stage_event(
                            Event::ProductAddedToCartEvent {
                                product_id: input.product_id.clone(),
                            },
                        );
                        proof {
                            assert(uow.transaction@.cart_writes =~= Seq::<
                                CartWriteView,
                            >::empty().push(CartWriteView::Put { id: cid, cart: updatedv }));
                            crate::repositories::lemma_apply_cart_writes_push(
                                carts0,
                                Seq::<CartWriteView>::empty(),
                                CartWriteView::Put { id: cid, cart: updatedv },
                            );
                            assert(uow.events_to_publish.deep_view() =~= Seq::<
                                EventView,
                            >::empty().push(EventView::ProductAddedToCartEvent { product_id: pid }));
                            lemma_single_accept(uow.message_broker, att0.len() as int);
                        }
                        match uow.commit() {
                            Ok(_) => {
                                proof {
                                    assert(final(uow).message_broker.attempts() =~= att0.push(
                                        EventView::ProductAddedToCartEvent { product_id: pid },
                                    ));
                                }
                                Ok(AddProductToCartResponse { cart_id: updated_cart.id })
                            },
                            Err(e) => {
                                proof {
                                    if e matches AppError::CommitPartialFailure { .. } {
                                        assert(final(uow).message_broker.attempts() =~= att0.push(
                                            EventView::ProductAddedToCartEvent { product_id: pid },
                                        ));
                                    }
                                }
                                Err(e)
                            },
                        }
                    },
                    Err(e) => {
                        let _ = uow.rollback();
                        proof {
                            assert(e matches AppError::BackendError { .. });
                        }
                        Err(e)
                    },
                }
            },
            Err(e) => Err(e),
        }
    }
}

/// What removing a product leaves behind. Empty identifiers are rejected
/// with the exact validation message before any side effect; an unknown cart
/// or an absent product entry is not found, with nothing mutated; on success
/// a quantity of one drops the entry and a larger one falls by exactly one,
/// one removed-event was attempted and taken; on a partial commit failure
/// the mutation is durable all the same; a backend failure can arise only
/// past validation, with nothing durable changed. Over stores that can
/// never fail the outcome is fully determined by the input, the store and
/// the broker.
pub open spec fn remove_product_post<OR: OrderRepository, CR: CartRepository, B: MessageBroker>(
    pre: OrderUnitOfWork<OR, CR, B>,
    post: OrderUnitOfWork<OR, CR, B>,
    cmd: RemoveProductFromCartCommand,
    r: Result<EmptyResponse, AppError>,
) -> bool {
    let cid = cmd.cart_id@;
    let pid = cmd.product_id@;
    let carts0 = pre.cart_repository.carts();
    let att0 = pre.message_broker.attempts();
    let removed = EventView::ProductRemovedFromCartEvent { product_id: pid };
    let updated = (CartView { products: remove_product(carts0[cid].products, pid), ..carts0[cid] });
    &&& at_rest(post)
    &&& post.order_repository.orders() == pre.order_repository.orders()
    &&& (forall|i: int| #[trigger] post.message_broker.accepts(i) == pre.message_broker.accepts(i))
    &&& (pre.cart_repository.infallible() && pre.order_repository.infallible() ==> (if cid.len()
        == 0 || pid.len() == 0 {
        r matches Err(AppError::ValidationError { .. })
    } else if !carts0.contains_key(cid) {
        r matches Err(AppError::NotFound { .. })
    } else if !carts0[cid].products.contains_key(pid) {
        r matches Err(AppError::NotFound { .. })
    } else if pre.message_broker.accepts(att0.len() as int) {
        r is Ok
    } else {
        r matches Err(AppError::CommitPartialFailure { .. })
    }))
    &&& match r {
        Ok(_) => {
            &&& cid.len() > 0 && pid.len() > 0
            &&& carts0.contains_key(cid)
            &&& carts0[cid].products.contains_key(pid)
            &&& post.cart_repository.carts() == carts0.insert(cid, updated)
            &&& post.message_broker.attempts() == att0.push(removed)
            &&& pre.message_broker.accepts(att0.len() as int)
        },
        Err(e) => match e {
            AppError::ValidationError { message } => {
                &&& cid.len() == 0 || pid.len() == 0
                &&& (cid.len() == 0 ==> message@ == "Cart ID cannot be null or empty!!!"@)
                &&& (cid.len() > 0 ==> message@ == "Product ID cannot be null or empty!!!"@)
                &&& post.cart_repository.carts() == carts0
                &&& post.message_broker.attempts() == att0
            },
            AppError::NotFound { id } => {
                &&& cid.len() > 0 && pid.len() > 0
                &&& post.cart_repository.carts() == carts0
                &&& post.message_broker.attempts() == att0
                &&& {
                    ||| (id@ == cid && !carts0.contains_key(cid))
                    ||| (id@ == pid && carts0.contains_key(cid) && !carts0[cid].products.contains_key(
                        pid,
                    ))
                }
            },
            AppError::BackendError { .. } => {
                &&& cid.len() > 0 && pid.len() > 0
                &&& post.cart_repository.carts() == carts0
                &&& post.message_broker.attempts() == att0
            },
            AppError::CommitPartialFailure { attempted, failed } => {
                &&& cid.len() > 0 && pid.len() > 0
                &&& carts0.contains_key(cid)
                &&& carts0[cid].products.contains_key(pid)
                &&& attempted == 1 && failed == 1
                &&& post.cart_repository.carts() == carts0.insert(cid, updated)
                &&& post.message_broker.attempts() == att0.push(removed)
                &&& !pre.message_broker.accepts(att0.len() as int)
            },
        },
    }
}

/// Removes a product from a cart: validates, reads, lowers the quantity by
/// one in local memory (dropping the entry at one), replaces the document
/// within a transaction, stages one removed-event and commits.
pub struct RemoveProductFromCartCommandHandler {

}

impl RemoveProductFromCartCommandHandler {
    /// A handler for product removal.
    pub fn new() -> RemoveProductFromCartCommandHandler {
        RemoveProductFromCartCommandHandler {  }
    }
}

impl<OR: OrderRepository, CR: CartRepository, B: MessageBroker> CommandHandler<
    RemoveProductFromCartCommand,
    EmptyResponse,
    OR,
    CR,
    B,
> for RemoveProductFromCartCommandHandler {
    open spec fn pre(
        &self,
        uow: OrderUnitOfWork<OR, CR, B>,
        input: RemoveProductFromCartCommand,
    ) -> bool {
        ready(uow)
    }

    fn handle(
        &self,
        uow: &mut OrderUnitOfWork<OR, CR, B>,
        input: &RemoveProductFromCartCommand,
        now_millis: i64,
    ) -> (r: Result<EmptyResponse, AppError>)
        ensures
            remove_product_post(*old(uow), *final(uow), *input, r),
    {
        if input.cart_id.as_str().is_empty() {
            return Err(AppError::ValidationError {
                message: String::from_str("Cart ID cannot be null or empty!!!"),
            });
        }
        if input.product_id.as_str().is_empty() {
            return Err(AppError::ValidationError {
                message: String::from_str("Product ID cannot be null or empty!!!"),
            });
        }
        let ghost carts0 = uow.cart_repository.carts();
        let ghost att0 = uow.message_broker.attempts();
        let ghost cid = input.cart_id@;
        let ghost pid = input.product_id@;
        match uow.cart_repository.read(input.cart_id.as_str()) {
            Ok(mut found_cart) => {
                match found_cart.products.get(input.product_id.as_str()) {
                    Some(_) => {},
                    None => {
                        return Err(AppError::NotFound { id: input.product_id.clone() });
                    },
                }
                found_cart.remove_product(input.product_id.as_str());
                let ghost updatedv = found_cart@;
                let _began = uow.begin_transaction();
                proof {
                    assert(_began is Ok);
                }
                match uow.cart_repository.update(
                    input.cart_id.clone(),
                    found_cart,
                    &mut uow.transaction,
                ) {
                    Ok(_) => {
                        uow.stage_event(
                            Event::ProductRemovedFromCartEvent {
                                product_id: input.product_id.clone(),
                            },
                        );
                        proof {
                            assert(uow.transaction@.cart_writes =~= Seq::<
                                CartWriteView,
                            >::empty().push(CartWriteView::Put { id: cid, cart: updatedv }));
                            crate::repositories::lemma_apply_cart_writes_push(
                                carts0,
                                Seq::<CartWriteView>::empty(),
                                CartWriteView::Put { id: cid, cart: updatedv },
                            );
                            assert(uow.events_to_publish.deep_view() =~= Seq::<
                                EventView,
                            >::empty().push(
                                EventView::ProductRemovedFromCartEvent { product_id: pid },
                            ));
                            lemma_single_accept(uow.message_broker, att0.len() as int);
                        }
                        match uow.commit() {
                            Ok(_) => {
                                proof {
                                    assert(final(uow).message_broker.attempts() =~= att0.push(
                                        EventView::ProductRemovedFromCartEvent { product_id: pid },
                                    ));
                                }
                                Ok(EmptyResponse {  })
                            },
                            Err(e) => {
                                proof {
                                    if e matches AppError::CommitPartialFailure { .. } {
                                        assert(final(uow).message_broker.attempts() =~= att0.push(
                                            EventView::ProductRemovedFromCartEvent {
                                                product_id: pid,
                                            },
                                        ));
                                    }
                                }
                                Err(e)
                            },
                        }
                    },
                    Err(e) => {
                        let _ = uow.rollback();
                        proof {
                            assert(e matches AppError::BackendError { .. });
                        }
                        Err(e)
                    },
                }
            },
            Err(e) => Err(e),
        }
    }
}

/// What the cart query answers. With an identifier it reads through to the
/// committed store: the one matching cart, or not-found — forced one way or
/// the other over a store that can never fail. With no identifier the
/// answer is an empty result set: listing all carts is not supported.
pub open spec fn get_carts_post<OR: OrderRepository, CR: CartRepository, B: MessageBroker>(
    uow: OrderUnitOfWork<OR, CR, B>,
    input: Option<GetCartsQuery>,
    r: Result<GetCartsResponse, AppError>,
) -> bool {
    &&& match input {
        Some(q) => match r {
            Ok(resp) => {
                &&& uow.cart_repository.carts().contains_key(q.id@)
                &&& resp.carts@.len() == 1
                &&& resp.carts@[0].id@ == uow.cart_repository.carts()[q.id@].id
                &&& resp.carts@[0].products@ == uow.cart_repository.carts()[q.id@].products
            },
            Err(e) => {
                ||| (e matches AppError::NotFound { id } && id@ == q.id@
                    && !uow.cart_repository.carts().contains_key(q.id@))
                ||| (e matches AppError::BackendError { .. })
            },
        },
        None => r matches Ok(resp) && resp.carts@.len() == 0,
    }
    &&& (uow.cart_repository.infallible() ==> match input {
        Some(q) => if uow.cart_repository.carts().contains_key(q.id@) {
            r is Ok
        } else {
            r matches Err(AppError::NotFound { .. })
        },
        None => r is Ok,
    })
}

/// Answers cart queries: a pure read-through to the repository.
pub struct GetCartsQueryHandler {

}

impl GetCartsQueryHandler {
    /// A handler for cart queries.
    pub fn new() -> GetCartsQueryHandler {
        GetCartsQueryHandler {  }
    }
}

impl<OR: OrderRepository, CR: CartRepository, B: MessageBroker> QueryHandler<
    GetCartsQuery,
    GetCartsResponse,
    OR,
    CR,
    B,
> for GetCartsQueryHandler {
    fn handle(&self, uow: &OrderUnitOfWork<OR, CR, B>, input: Option<GetCartsQuery>) -> (r: Result<
        GetCartsResponse,
        AppError,
    >)
        ensures
            get_carts_post(*uow, input, r),
    {
        match input {
            Some(q) => {
                match uow.cart_repository.read(q.id.as_str()) {
                    Ok(domain_cart) => {
                        let mut carts: Vec<CartResponse> = Vec::new();
                        carts.push(
                            CartResponse {
                                id: domain_cart.id.clone(),
                                products: domain_cart.products.clone(),
                            },
                        );
                        Ok(GetCartsResponse { carts })
                    },
                    Err(e) => Err(e),
                }
            },
            None => Ok(GetCartsResponse { carts: Vec::new() }),
        }
    }
}

/// A cart just created reads back under the identifier its creation
/// returned: the entry is present, carries that identifier, and holds no
/// products.
pub proof fn lemma_created_cart_reads_back(
    carts: Map<Seq<char>, CartView>,
    id: Seq<char>,
    now_millis: i64,
)
    ensures
        ({
            let stored = (CartView {
                id: id,
                products: Map::<Seq<char>, int>::empty(),
                created_at_utc: now_millis,
                updated_at_utc: now_millis,
                version: 0,
            });
            let created = carts.insert(id, stored);
            created.contains_key(id) && created[id].id == id && created[id].products.len() == 0
        }),
{
}

} // verus!
