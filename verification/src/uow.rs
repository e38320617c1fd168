//! The unit of work: one transaction scope and one queue of staged events.
//!
//! Commit first asks the stores to make the staged writes durable; only when
//! that holds does it drain the queue and publish each event, one by one and
//! independently. A publish failure after the durable commit neither rolls
//! back nor retries the data change: commit reports it as a distinct partial
//! failure while the mutation stays in effect. Rollback discards the staged
//! writes and the staged events without publishing anything.

use vstd::prelude::*;

use crate::errors::AppError;
use crate::events::{Event, EventView, MessageBroker};
use crate::repositories::{
    apply_cart_writes, apply_order_writes, CartRepository, CartWrite, CartWriteView,
    OrderRepository, OrderWrite, OrderWriteView, Transaction, TransactionView,
};

verus! {

use vstd::string::StringExecFns;

/// Whether the broker takes every one of the `k` attempts starting at `from`.
pub open spec fn all_accepted<B: MessageBroker>(b: B, from: int, k: int) -> bool {
    forall|j: int| 0 <= j < k ==> #[trigger] b.accepts(from + j)
}

/// How many of the `k` attempts starting at `from` the broker turns away.
pub open spec fn rejected_count<B: MessageBroker>(b: B, from: int, k: int) -> int
    decreases k,
{
    if k <= 0 {
        0
    } else {
        rejected_count(b, from, k - 1) + (if b.accepts(from + k - 1) {
            0int
        } else {
            1int
        })
    }
}

/// The number of refused attempts is bounded by the number of attempts, and
/// it is zero exactly when every attempt is taken.
pub proof fn lemma_rejected_count_zero<B: MessageBroker>(b: B, from: int, k: int)
    requires
        k >= 0,
    ensures
        0 <= rejected_count(b, from, k) <= k,
        (rejected_count(b, from, k) == 0) <==> all_accepted(b, from, k),
    decreases k,
{
    if k > 0 {
        lemma_rejected_count_zero(b, from, k - 1);
        if rejected_count(b, from, k) == 0 {
            assert forall|j: int| 0 <= j < k implies #[trigger] b.accepts(from + j) by {
                if j < k - 1 {
                    assert(all_accepted(b, from, k - 1));
                }
            }
        }
    }
}

/// A single attempt is all-accepted exactly when it is accepted, and it is
/// the one refusal counted when it is not.
pub proof fn lemma_single_accept<B: MessageBroker>(b: B, from: int)
    ensures
        all_accepted(b, from, 1) <==> b.accepts(from),
        rejected_count(b, from, 1) == (if b.accepts(from) {
            0int
        } else {
            1int
        }),
{
    assert(rejected_count(b, from, 0) == 0);
    if b.accepts(from) {
        assert forall|j: int| 0 <= j < 1 implies #[trigger] b.accepts(from + j) by {
            assert(j == 0);
        }
    } else {
        assert(!b.accepts(from + 0));
    }
}

/// The unit of work over the two aggregate stores and the broker: it owns the
/// transaction scope and the per-operation queue of staged domain events.
pub struct OrderUnitOfWork<OR: OrderRepository, CR: CartRepository, B: MessageBroker> {
    pub order_repository: OR,
    pub cart_repository: CR,
    pub message_broker: B,
    pub events_to_publish: Vec<Event>,
    pub transaction: Transaction,
}

/// What commit leaves behind. The transaction always ends idle with nothing
/// staged and the event queue empty. Then one of three things happened: the
/// cart writes were turned away and nothing is durable; the cart writes are
/// durable and the order writes were turned away; or both stores committed,
/// every staged event was attempted in order, and the result is success
/// exactly when the broker took every attempt — else a partial failure
/// carrying the attempt and failure counts, with the mutation left in effect.
///
/// A known limit, disclosed by the middle case: the two aggregate stores are
/// made durable in two steps, not one, so an operation that stages writes
/// for both may see the cart writes durable while the order writes are
/// turned away. No handler of this core stages writes for both aggregates;
/// an operation that did would need one store behind both write sets.
///
/// When neither store can fail, only the last case can happen: both stores
/// commit and the outcome is decided by the broker alone.
pub open spec fn commit_post<OR: OrderRepository, CR: CartRepository, B: MessageBroker>(
    pre: OrderUnitOfWork<OR, CR, B>,
    post: OrderUnitOfWork<OR, CR, B>,
    r: Result<(), AppError>,
) -> bool {
    let carts0 = pre.cart_repository.carts();
    let orders0 = pre.order_repository.orders();
    let carts1 = apply_cart_writes(carts0, pre.transaction@.cart_writes);
    let orders1 = apply_order_writes(orders0, pre.transaction@.order_writes);
    let att0 = pre.message_broker.attempts();
    &&& !post.transaction.active
    &&& post.transaction@.cart_writes == Seq::<CartWriteView>::empty()
    &&& post.transaction@.order_writes == Seq::<OrderWriteView>::empty()
    &&& post.events_to_publish@ == Seq::<Event>::empty()
    &&& (forall|i: int| #[trigger] post.message_broker.accepts(i) == pre.message_broker.accepts(i))
    &&& {
        ||| {
            &&& pre.transaction@.cart_writes.len() > 0
            &&& r matches Err(AppError::BackendError { .. })
            &&& post.cart_repository.carts() == carts0
            &&& post.order_repository.orders() == orders0
            &&& post.message_broker.attempts() == att0
        }
        ||| {
            &&& pre.transaction@.order_writes.len() > 0
            &&& r matches Err(AppError::BackendError { .. })
            &&& post.cart_repository.carts() == carts1
            &&& post.order_repository.orders() == orders0
            &&& post.message_broker.attempts() == att0
        }
        ||| commit_published(pre, post, r)
    }
    &&& (pre.cart_repository.infallible() && pre.order_repository.infallible()
        ==> commit_published(pre, post, r))
}

/// The committed outcome of the last case of `commit_post`: both stores made
/// their staged writes durable, every staged event was attempted in order,
/// and the result is success exactly when the broker took every attempt —
/// else a partial failure carrying the attempt and failure counts.
pub open spec fn commit_published<OR: OrderRepository, CR: CartRepository, B: MessageBroker>(
    pre: OrderUnitOfWork<OR, CR, B>,
    post: OrderUnitOfWork<OR, CR, B>,
    r: Result<(), AppError>,
) -> bool {
    let carts1 = apply_cart_writes(pre.cart_repository.carts(), pre.transaction@.cart_writes);
    let orders1 = apply_order_writes(pre.order_repository.orders(), pre.transaction@.order_writes);
    let evs = pre.events_to_publish.deep_view();
    let att0 = pre.message_broker.attempts();
    &&& post.cart_repository.carts() == carts1
    &&& post.order_repository.orders() == orders1
    &&& post.message_broker.attempts() == att0 + evs
    &&& ((r is Ok) <==> all_accepted(pre.message_broker, att0.len() as int, evs.len() as int))
    &&& (!all_accepted(pre.message_broker, att0.len() as int, evs.len() as int) ==> (
    r matches Err(AppError::CommitPartialFailure { attempted, failed }) && attempted == evs.len()
        && failed == rejected_count(pre.message_broker, att0.len() as int, evs.len() as int)))
}

impl<OR: OrderRepository, CR: CartRepository, B: MessageBroker> OrderUnitOfWork<OR, CR, B> {
    /// A unit of work over the given stores and broker, idle, with an empty queue.
    pub fn new(order_repository: OR, cart_repository: CR, message_broker: B) -> (r: OrderUnitOfWork<
        OR,
        CR,
        B,
    >)
        ensures
            r.order_repository == order_repository,
            r.cart_repository == cart_repository,
            r.message_broker == message_broker,
            r.events_to_publish@ == Seq::<Event>::empty(),
            r.transaction@ == (TransactionView {
                active: false,
                cart_writes: Seq::<CartWriteView>::empty(),
                order_writes: Seq::<OrderWriteView>::empty(),
            }),
    {
        OrderUnitOfWork {
            order_repository,
            cart_repository,
            message_broker,
            events_to_publish: Vec::new(),
            transaction: Transaction::new(),
        }
    }

    /// The order store.
    pub fn get_order_repository(&self) -> (r: &OR)
        ensures
            r == &self.order_repository,
    {
        &self.order_repository
    }

    /// The cart store.
    pub fn get_cart_repository(&self) -> (r: &CR)
        ensures
            r == &self.cart_repository,
    {
        &self.cart_repository
    }

    /// The events staged for publication on commit.
    pub fn get_events_to_publish(&self) -> (r: &Vec<Event>)
        ensures
            r == &self.events_to_publish,
    {
        &self.events_to_publish
    }

    /// Starts a transaction; only one may be active at a time, so this fails
    /// while another is, leaving everything unchanged.
    pub fn begin_transaction(&mut self) -> (r: Result<(), AppError>)
        ensures
            (r is Ok) == !old(self).transaction.active,
            final(self).order_repository == old(self).order_repository,
            final(self).cart_repository == old(self).cart_repository,
            final(self).message_broker == old(self).message_broker,
            final(self).events_to_publish == old(self).events_to_publish,
            r is Ok ==> final(self).transaction@ == (TransactionView {
                active: true,
                cart_writes: Seq::<CartWriteView>::empty(),
                order_writes: Seq::<OrderWriteView>::empty(),
            }),
            r matches Err(e) ==> final(self).transaction == old(self).transaction && (
            e matches AppError::BackendError { .. }),
    {
        if self.transaction.active {
            Err(AppError::BackendError {
                message: String::from_str("a transaction is already active"),
            })
        } else {
            self.transaction.active = true;
            self.transaction.cart_writes = Vec::new();
            self.transaction.order_writes = Vec::new();
            proof {
                assert(final(self).transaction@ =~= (TransactionView {
                    active: true,
                    cart_writes: Seq::<CartWriteView>::empty(),
                    order_writes: Seq::<OrderWriteView>::empty(),
                }));
            }
            Ok(())
        }
    }

    /// Appends a domain event to the staging queue.
    pub fn stage_event(&mut self, event: Event)
        ensures
            final(self).events_to_publish@ == old(self).events_to_publish@.push(event),
            final(self).order_repository == old(self).order_repository,
            final(self).cart_repository == old(self).cart_repository,
            final(self).message_broker == old(self).message_broker,
            final(self).transaction == old(self).transaction,
    {
        self.events_to_publish.push(event);
    }

    /// Aborts the transaction: the staged writes and the staged events are
    /// discarded, nothing is published, the stores are untouched.
    pub fn rollback(&mut self) -> (r: Result<(), AppError>)
        ensures
            r is Ok,
            final(self).order_repository == old(self).order_repository,
            final(self).cart_repository == old(self).cart_repository,
            final(self).message_broker == old(self).message_broker,
            final(self).events_to_publish@ == Seq::<Event>::empty(),
            final(self).transaction@ == (TransactionView {
                active: false,
                cart_writes: Seq::<CartWriteView>::empty(),
                order_writes: Seq::<OrderWriteView>::empty(),
            }),
    {
        self.transaction.active = false;
        self.transaction.cart_writes = Vec::new();
        self.transaction.order_writes = Vec::new();
        self.events_to_publish = Vec::new();
        proof {
            assert(final(self).transaction@ =~= (TransactionView {
                active: false,
                cart_writes: Seq::<CartWriteView>::empty(),
                order_writes: Seq::<OrderWriteView>::empty(),
            }));
        }
        Ok(())
    }

    /// Commits the transaction, then drains the queue and publishes each
    /// staged event; see `commit_post` for everything this leaves behind.
    pub fn commit(&mut self) -> (r: Result<(), AppError>)
        requires
            old(self).transaction.active,
        ensures
            commit_post(*old(self), *final(self), r),
    {
        let mut cart_writes: Vec<CartWrite> = Vec::new();
        core::mem::swap(&mut cart_writes, &mut self.transaction.cart_writes);
        let mut order_writes: Vec<OrderWrite> = Vec::new();
        core::mem::swap(&mut order_writes, &mut self.transaction.order_writes);
        self.transaction.active = false;
        let mut events: Vec<Event> = Vec::new();
        core::mem::swap(&mut events, &mut self.events_to_publish);
        proof {
            assert(self.transaction@.cart_writes =~= Seq::<CartWriteView>::empty());
            assert(self.transaction@.order_writes =~= Seq::<OrderWriteView>::empty());
            assert(self.events_to_publish@ =~= Seq::<Event>::empty());
        }
        if cart_writes.len() > 0 {
            match self.cart_repository.commit_writes(&cart_writes) {
                Ok(_) => {},
                Err(e) => {
                    return Err(e);
                },
            }
        } else {
            proof {
                assert(apply_cart_writes(
                    self.cart_repository.carts(),
                    old(self).transaction@.cart_writes,
                ) == self.cart_repository.carts());
            }
        }
        if order_writes.len() > 0 {
            match self.order_repository.commit_writes(&order_writes) {
                Ok(_) => {},
                Err(e) => {
                    return Err(e);
                },
            }
        } else {
            proof {
                assert(apply_order_writes(
                    self.order_repository.orders(),
                    old(self).transaction@.order_writes,
                ) == self.order_repository.orders());
            }
        }
        let ghost b0 = self.message_broker;
        let ghost att0 = self.message_broker.attempts();
        let ghost carts1 = self.cart_repository.carts();
        let ghost orders1 = self.order_repository.orders();
        let ghost repo_c = self.cart_repository;
        let ghost repo_o = self.order_repository;
        let ghost txn1 = self.transaction;
        let ghost queue1 = self.events_to_publish;
        let mut failed: usize = 0;
        let mut i: usize = 0;
        while i < events.len()
            invariant
                0 <= i <= events@.len(),
                failed <= i,
                self.cart_repository == repo_c,
                self.order_repository == repo_o,
                self.transaction == txn1,
                self.events_to_publish == queue1,
                self.message_broker.attempts() == att0 + events.deep_view().take(i as int),
                forall|t: int| #[trigger] self.message_broker.accepts(t) == b0.accepts(t),
                failed == rejected_count(b0, att0.len() as int, i as int),
            decreases events@.len() - i,
        {
            let result = self.message_broker.publish_message(&events[i]);
            proof {
                assert(events.deep_view().take(i + 1 as int).drop_last() =~= events.deep_view()
                    .take(i as int));
                assert(events.deep_view().take(i + 1 as int).last() == events@[i as int]@);
                assert(self.message_broker.attempts() =~= att0 + events.deep_view().take(
                    i + 1 as int,
                ));
                assert(rejected_count(b0, att0.len() as int, i + 1 as int) == rejected_count(
                    b0,
                    att0.len() as int,
                    i as int,
                ) + (if b0.accepts(att0.len() + i) {
                    0int
                } else {
                    1int
                }));
            }
            match result {
                Ok(_) => {},
                Err(_) => {
                    failed = failed + 1;
                },
            }
            i += 1;
        }
        proof {
            assert(events.deep_view().take(events@.len() as int) =~= events.deep_view());
            lemma_rejected_count_zero(b0, att0.len() as int, events@.len() as int);
        }
        if failed > 0 {
            Err(AppError::CommitPartialFailure { attempted: events.len(), failed })
        } else {
            Ok(())
        }
    }
}

/// Rollback discards staged events for good: a commit that follows attempts
/// exactly the events staged after the rollback, so an event staged before
/// the rollback and not staged again is never attempted by that commit.
pub proof fn lemma_commit_attempts_only_staged(
    att0: Seq<EventView>,
    staged: Seq<EventView>,
    att1: Seq<EventView>,
    e: EventView,
)
    requires
        att1 == att0 + staged,
        !staged.contains(e),
    ensures
        forall|i: int| att0.len() <= i < att1.len() ==> att1[i] != e,
{
    assert forall|i: int| att0.len() <= i < att1.len() implies att1[i] != e by {
        assert(att1[i] == staged[i - att0.len()]);
        if att1[i] == e {
            assert(staged.contains(e));
        }
    }
}

} // verus!
