//! Aggregate repositories and the transaction scope their writes run under.
//!
//! A repository reads the last committed state only. While a transaction is
//! active, create, update and delete stage whole-document writes in it; the
//! unit of work later asks the store to make the staged writes durable, or
//! discards them on rollback. Reads never see staged writes of an in-flight
//! transaction.

use vstd::prelude::*;

use crate::assoc::{
    assoc_map, distinct_keys, lemma_assoc_map_contains, lemma_assoc_map_index,
    lemma_assoc_map_len, lemma_assoc_map_push, lemma_assoc_map_swap_remove,
    lemma_assoc_map_values, lemma_distinct_keys_push, values_of_map,
};
use crate::domain::{Cart, CartView, Order, OrderView};
use crate::errors::AppError;
use crate::text::str_eq;

verus! {

/// Connection settings for a document store reached over the network.
pub struct MongoDbInitializationInfo {
    pub uri: String,
    pub database: String,
    pub collection: String,
}

/// One write staged for the cart store: a whole-document replace or a removal.
pub enum CartWrite {
    Put { id: String, cart: Cart },
    Remove { id: String },
}

/// The ghost value of a staged cart write.
#[verifier::ext_equal]
pub enum CartWriteView {
    Put { id: Seq<char>, cart: CartView },
    Remove { id: Seq<char> },
}

impl View for CartWrite {
    type V = CartWriteView;

    open spec fn view(&self) -> CartWriteView {
        match self {
            CartWrite::Put { id, cart } => CartWriteView::Put { id: id@, cart: cart@ },
            CartWrite::Remove { id } => CartWriteView::Remove { id: id@ },
        }
    }
}

impl DeepView for CartWrite {
    type V = CartWriteView;

    open spec fn deep_view(&self) -> CartWriteView {
        self.view()
    }
}

/// The identifier a staged cart write is keyed by.
pub open spec fn cart_write_id(w: CartWriteView) -> Seq<char> {
    match w {
        CartWriteView::Put { id, .. } => id,
        CartWriteView::Remove { id } => id,
    }
}

/// One write staged for the order store: a whole-document replace or a removal.
pub enum OrderWrite {
    Put { id: String, order: Order },
    Remove { id: String },
}

/// The ghost value of a staged order write.
#[verifier::ext_equal]
pub enum OrderWriteView {
    Put { id: Seq<char>, order: OrderView },
    Remove { id: Seq<char> },
}

impl View for OrderWrite {
    type V = OrderWriteView;

    open spec fn view(&self) -> OrderWriteView {
        match self {
            OrderWrite::Put { id, order } => OrderWriteView::Put { id: id@, order: order@ },
            OrderWrite::Remove { id } => OrderWriteView::Remove { id: id@ },
        }
    }
}

impl DeepView for OrderWrite {
    type V = OrderWriteView;

    open spec fn deep_view(&self) -> OrderWriteView {
        self.view()
    }
}

/// The identifier a staged order write is keyed by.
pub open spec fn order_write_id(w: OrderWriteView) -> Seq<char> {
    match w {
        OrderWriteView::Put { id, .. } => id,
        OrderWriteView::Remove { id } => id,
    }
}

/// The ghost value of a transaction scope.
#[verifier::ext_equal]
pub struct TransactionView {
    pub active: bool,
    pub cart_writes: Seq<CartWriteView>,
    pub order_writes: Seq<OrderWriteView>,
}

/// A transaction scope: while active it gathers whole-document writes, which
/// become durable only when the unit of work commits them.
pub struct Transaction {
    pub active: bool,
    pub cart_writes: Vec<CartWrite>,
    pub order_writes: Vec<OrderWrite>,
}

impl View for Transaction {
    type V = TransactionView;

    open spec fn view(&self) -> TransactionView {
        TransactionView {
            active: self.active,
            cart_writes: self.cart_writes.deep_view(),
            order_writes: self.order_writes.deep_view(),
        }
    }
}

impl Transaction {
    /// An idle transaction with nothing staged.
    pub fn new() -> (r: Transaction)
        ensures
            r@ == (TransactionView {
                active: false,
                cart_writes: Seq::<CartWriteView>::empty(),
                order_writes: Seq::<OrderWriteView>::empty(),
            }),
    {
        let r = Transaction { active: false, cart_writes: Vec::new(), order_writes: Vec::new() };
        proof {
            assert(r@ =~= (TransactionView {
                active: false,
                cart_writes: Seq::<CartWriteView>::empty(),
                order_writes: Seq::<OrderWriteView>::empty(),
            }));
        }
        r
    }
}

/// The cart map after one staged write is applied.
pub open spec fn apply_cart_write(m: Map<Seq<char>, CartView>, w: CartWriteView) -> Map<
    Seq<char>,
    CartView,
> {
    match w {
        CartWriteView::Put { id, cart } => m.insert(id, cart),
        CartWriteView::Remove { id } => m.remove(id),
    }
}

/// The cart map after the staged writes are applied in order.
pub open spec fn apply_cart_writes(m: Map<Seq<char>, CartView>, ws: Seq<CartWriteView>) -> Map<
    Seq<char>,
    CartView,
>
    decreases ws.len(),
{
    if ws.len() == 0 {
        m
    } else {
        apply_cart_write(apply_cart_writes(m, ws.drop_last()), ws.last())
    }
}

/// Applying one more staged write applies it after the earlier ones.
pub proof fn lemma_apply_cart_writes_push(
    m: Map<Seq<char>, CartView>,
    ws: Seq<CartWriteView>,
    w: CartWriteView,
)
    ensures
        apply_cart_writes(m, ws.push(w)) == apply_cart_write(apply_cart_writes(m, ws), w),
{
    assert(ws.push(w).drop_last() =~= ws);
    assert(ws.push(w).last() == w);
}

/// The last staged write for an identifier, if there is one.
pub open spec fn last_cart_write(ws: Seq<CartWriteView>, id: Seq<char>) -> Option<CartWriteView>
    decreases ws.len(),
{
    if ws.len() == 0 {
        None
    } else if cart_write_id(ws.last()) == id {
        Some(ws.last())
    } else {
        last_cart_write(ws.drop_last(), id)
    }
}

/// At any identifier, the applied map reads as the last staged write for it,
/// or as the base map when nothing is staged for it.
pub proof fn lemma_apply_cart_writes_last(
    m: Map<Seq<char>, CartView>,
    ws: Seq<CartWriteView>,
    id: Seq<char>,
)
    ensures
        match last_cart_write(ws, id) {
            Some(w) => match w {
                CartWriteView::Put { cart, .. } => apply_cart_writes(m, ws).contains_key(id)
                    && apply_cart_writes(m, ws)[id] == cart,
                CartWriteView::Remove { .. } => !apply_cart_writes(m, ws).contains_key(id),
            },
            None => apply_cart_writes(m, ws).contains_key(id) == m.contains_key(id) && (
            m.contains_key(id) ==> apply_cart_writes(m, ws)[id] == m[id]),
        },
    decreases ws.len(),
{
    if ws.len() > 0 {
        lemma_apply_cart_writes_last(m, ws.drop_last(), id);
    }
}

/// Resolves the last staged cart write for the identifier: whether the
/// amended state holds the cart (a put), drops it (a removal), or leaves it
/// to the committed state (nothing staged for it).
pub fn staged_cart_state(writes: &Vec<CartWrite>, id: &str) -> (r: Option<bool>)
    ensures
        match last_cart_write(writes.deep_view(), id@) {
            Some(w) => match w {
                CartWriteView::Put { .. } => r == Some(true),
                CartWriteView::Remove { .. } => r == Some(false),
            },
            None => r is None,
        },
{
    let ghost ws = writes.deep_view();
    let mut staged: Option<bool> = None;
    let mut j: usize = 0;
    while j < writes.len()
        invariant
            0 <= j <= writes@.len(),
            ws == writes.deep_view(),
            match last_cart_write(ws.take(j as int), id@) {
                Some(w) => match w {
                    CartWriteView::Put { .. } => staged == Some(true),
                    CartWriteView::Remove { .. } => staged == Some(false),
                },
                None => staged is None,
            },
        decreases writes@.len() - j,
    {
        match &writes[j] {
            CartWrite::Put { id: write_id, .. } => {
                if str_eq(write_id.as_str(), id) {
                    staged = Some(true);
                }
            },
            CartWrite::Remove { id: write_id } => {
                if str_eq(write_id.as_str(), id) {
                    staged = Some(false);
                }
            },
        }
        proof {
            assert(ws.take(j + 1 as int).drop_last() =~= ws.take(j as int));
            assert(ws.take(j + 1 as int).last() == ws[j as int]);
        }
        j += 1;
    }
    proof {
        assert(ws.take(ws.len() as int) =~= ws);
    }
    staged
}

/// The cart store boundary: reads of committed state, staged writes under a
/// caller-supplied transaction scope, and the durable apply of staged writes.
///
/// A backend failure may be reported by any operation that an outside store
/// would carry over a transport; only a store that marks itself
/// `infallible` promises each operation's success case.
pub trait CartRepository {
    /// The committed carts, keyed by identifier. An implementation under the
    /// proof's reach overrides this with its own meaning; the default stands
    /// for implementations outside it.
    open spec fn carts(&self) -> Map<Seq<char>, CartView> {
        Map::<Seq<char>, CartView>::empty()
    }

    /// Whether this store can never report a backend failure. A store behind
    /// a transport leaves this false; the in-memory store overrides it, and
    /// every operation below then promises its success case.
    open spec fn infallible(&self) -> bool {
        false
    }

    /// Stages a whole-document write of the cart under the given identifier
    /// and hands back the value that was staged.
    fn create(&self, id: String, cart: Cart, txn: &mut Transaction) -> (r: Result<Cart, AppError>)
        requires
            old(txn).active,
        ensures
            match r {
                Ok(created) => final(txn)@ == (TransactionView {
                    cart_writes: old(txn)@.cart_writes.push(
                        CartWriteView::Put { id: id@, cart: cart@ },
                    ),
                    ..old(txn)@
                }) && created@ == cart@,
                Err(e) => *final(txn) == *old(txn) && (e matches AppError::BackendError { .. }),
            },
            self.infallible() ==> r is Ok,
    ;

    /// Reads the committed cart under the given identifier.
    fn read(&self, id: &str) -> (r: Result<Cart, AppError>)
        ensures
            (r matches Ok(c) ==> self.carts().contains_key(id@) && c@ == self.carts()[id@]),
            (r matches Err(e) ==> (e matches AppError::NotFound { id: missing } && missing@ == id@
                && !self.carts().contains_key(id@)) || (e matches AppError::BackendError { .. })),
            self.infallible() ==> ((r is Ok) == self.carts().contains_key(id@)) && (r matches Err(
                e,
            ) ==> e matches AppError::NotFound { .. }),
    ;

    /// Reads every committed cart, each entry exactly once, in no promised
    /// order.
    fn read_all(&self) -> (r: Result<Vec<Cart>, AppError>)
        ensures
            (r matches Ok(cs) ==> cs@.len() == self.carts().dom().len() && values_of_map(
                cs.deep_view(),
                self.carts(),
            )),
            (r matches Err(e) ==> e matches AppError::BackendError { .. }),
            self.infallible() ==> r is Ok,
    ;

    /// Stages a whole-document replace of the cart under the given identifier;
    /// the identifier must exist in the committed state as amended by the
    /// writes already staged, else nothing is staged and not-found is reported.
    fn update(&self, id: String, cart: Cart, txn: &mut Transaction) -> (r: Result<Cart, AppError>)
        requires
            old(txn).active,
        ensures
            match r {
                Ok(updated) => apply_cart_writes(self.carts(), old(txn)@.cart_writes).contains_key(
                    id@,
                ) && final(txn)@ == (TransactionView {
                    cart_writes: old(txn)@.cart_writes.push(
                        CartWriteView::Put { id: id@, cart: cart@ },
                    ),
                    ..old(txn)@
                }) && updated@ == cart@,
                Err(e) => *final(txn) == *old(txn) && ((e matches AppError::NotFound {
                    id: missing,
                } && missing@ == id@ && !apply_cart_writes(
                    self.carts(),
                    old(txn)@.cart_writes,
                ).contains_key(id@)) || (e matches AppError::BackendError { .. })),
            },
            self.infallible() ==> ((r is Ok) == apply_cart_writes(
                self.carts(),
                old(txn)@.cart_writes,
            ).contains_key(id@)) && (r matches Err(e) ==> e matches AppError::NotFound { .. }),
    ;

    /// Stages the removal of the cart under the given identifier.
    fn delete(&self, id: &str, txn: &mut Transaction)
        requires
            old(txn).active,
        ensures
            final(txn)@ == (TransactionView {
                cart_writes: old(txn)@.cart_writes.push(CartWriteView::Remove { id: id@ }),
                ..old(txn)@
            }),
    ;

    /// Makes the given staged writes durable, in order; on a backend failure
    /// nothing of them is.
    fn commit_writes(&mut self, writes: &Vec<CartWrite>) -> (r: Result<(), AppError>)
        ensures
            match r {
                Ok(_) => final(self).carts() == apply_cart_writes(
                    old(self).carts(),
                    writes.deep_view(),
                ),
                Err(e) => final(self).carts() == old(self).carts() && (
                e matches AppError::BackendError { .. }),
            },
            old(self).infallible() ==> r is Ok,
    ;
}

/// The pairs of a cart entry sequence, with identifiers and carts as ghost values.
pub open spec fn cart_pairs(s: Seq<(String, Cart)>) -> Seq<(Seq<char>, CartView)> {
    s.map_values(|e: (String, Cart)| (e.0@, e.1@))
}

/// A cart store held in memory: committed entries in a vector with
/// pairwise-distinct identifiers.
pub struct InMemoryCartRepository {
    entries: Vec<(String, Cart)>,
}

impl InMemoryCartRepository {
    #[verifier::type_invariant]
    spec fn type_inv(self) -> bool {
        distinct_keys(cart_pairs(self.entries@))
    }

    /// An empty cart store.
    pub fn new() -> (r: InMemoryCartRepository)
        ensures
            r.carts() == Map::<Seq<char>, CartView>::empty(),
    {
        let r = InMemoryCartRepository { entries: Vec::new() };
        proof {
            assert(cart_pairs(r.entries@) =~= Seq::<(Seq<char>, CartView)>::empty());
            assert(r.carts() =~= Map::<Seq<char>, CartView>::empty());
        }
        r
    }

    /// The position of the committed entry for the identifier, if there is one.
    fn position_of(&self, id: &str) -> (r: Option<usize>)
        ensures
            match r {
                Some(i) => i < self.entries@.len() && self.entries@[i as int].0@ == id@
                    && self.carts().contains_key(id@) && self.carts()[id@] == self.entries@[
                    i as int
                ].1@,
                None => !self.carts().contains_key(id@),
            },
    {
        proof {
            use_type_invariant(self);
        }
        let mut i: usize = 0;
        while i < self.entries.len()
            invariant
                0 <= i <= self.entries@.len(),
                forall|j: int| 0 <= j < i ==> #[trigger] self.entries@[j].0@ != id@,
            decreases self.entries@.len() - i,
        {
            if str_eq(self.entries[i].0.as_str(), id) {
                proof {
                    use_type_invariant(self);
                    lemma_assoc_map_index(cart_pairs(self.entries@), i as int);
                }
                return Some(i);
            }
            i += 1;
        }
        proof {
            lemma_assoc_map_contains(cart_pairs(self.entries@), id@);
        }
        None
    }

    /// Replaces the committed cart under the identifier, entering it if absent.
    fn put_committed(&mut self, id: String, cart: Cart)
        ensures
            final(self).carts() == old(self).carts().insert(id@, cart@),
    {
        proof {
            use_type_invariant(&*self);
        }
        let ghost pairs0 = cart_pairs(self.entries@);
        let position = self.position_of(id.as_str());
        let mut entries: Vec<(String, Cart)> = Vec::new();
        core::mem::swap(&mut entries, &mut self.entries);
        match position {
            Some(i) => {
                proof {
                    lemma_assoc_map_swap_remove(pairs0, i as int);
                    lemma_assoc_map_contains(
                        pairs0.update(i as int, pairs0.last()).drop_last(),
                        id@,
                    );
                }
                let _ = entries.swap_remove(i);
                proof {
                    assert(cart_pairs(entries@) =~= pairs0.update(
                        i as int,
                        pairs0.last(),
                    ).drop_last());
                    lemma_distinct_keys_push(cart_pairs(entries@), id@, cart@);
                    lemma_assoc_map_push(cart_pairs(entries@), id@, cart@);
                }
                let ghost removed_pairs = cart_pairs(entries@);
                entries.push((id, cart));
                proof {
                    assert(cart_pairs(entries@) =~= removed_pairs.push((id@, cart@)));
                }
            },
            None => {
                proof {
                    lemma_assoc_map_contains(pairs0, id@);
                    lemma_distinct_keys_push(pairs0, id@, cart@);
                    lemma_assoc_map_push(pairs0, id@, cart@);
                }
                entries.push((id, cart));
                proof {
                    assert(cart_pairs(entries@) =~= pairs0.push((id@, cart@)));
                }
            },
        }
        self.entries = entries;
        proof {
            assert(final(self).carts() =~= old(self).carts().insert(id@, cart@));
        }
    }

    /// Removes the committed cart under the identifier, if there is one.
    fn remove_committed(&mut self, id: &str)
        ensures
            final(self).carts() == old(self).carts().remove(id@),
    {
        proof {
            use_type_invariant(&*self);
        }
        let ghost pairs0 = cart_pairs(self.entries@);
        let position = self.position_of(id);
        match position {
            Some(i) => {
                let mut entries: Vec<(String, Cart)> = Vec::new();
                core::mem::swap(&mut entries, &mut self.entries);
                proof {
                    lemma_assoc_map_swap_remove(pairs0, i as int);
                }
                let _ = entries.swap_remove(i);
                proof {
                    assert(cart_pairs(entries@) =~= pairs0.update(
                        i as int,
                        pairs0.last(),
                    ).drop_last());
                }
                self.entries = entries;
            },
            None => {
                proof {
                    assert(old(self).carts().remove(id@) =~= old(self).carts());
                }
            },
        }
    }

    /// Replaces the cart under the identifier only when the stored version
    /// matches the expected one; a taken write is stored with the version
    /// raised by one. This is the compare-and-swap path that closes the
    /// lost-update race of the plain replace.
    pub fn update_if_version(&mut self, id: &str, cart: Cart, expected_version: u32) -> (r: Option<
        Cart,
    >)
        requires
            expected_version < u32::MAX,
        ensures
            match r {
                Some(stored) => old(self).carts().contains_key(id@) && old(self).carts()[id@].version
                    == expected_version && stored@ == (CartView {
                    version: (expected_version + 1) as u32,
                    ..cart@
                }) && final(self).carts() == old(self).carts().insert(id@, stored@),
                None => *final(self) == *old(self) && (old(self).carts().contains_key(id@)
                    ==> old(self).carts()[id@].version != expected_version),
            },
    {
        proof {
            use_type_invariant(&*self);
        }
        let position = self.position_of(id);
        match position {
            Some(i) => {
                proof {
                    lemma_assoc_map_index(cart_pairs(self.entries@), i as int);
                }
                if self.entries[i].1.version == expected_version {
                    let mut stored = cart;
                    stored.version = expected_version + 1;
                    let returned = stored.clone();
                    self.put_committed(id.to_owned(), stored);
                    Some(returned)
                } else {
                    None
                }
            },
            None => None,
        }
    }
}

impl CartRepository for InMemoryCartRepository {
    closed spec fn carts(&self) -> Map<Seq<char>, CartView> {
        assoc_map(cart_pairs(self.entries@))
    }

    open spec fn infallible(&self) -> bool {
        true
    }

    fn create(&self, id: String, cart: Cart, txn: &mut Transaction) -> (r: Result<Cart, AppError>)
        // This store makes no outside call: staging the write always succeeds.
        ensures
            r is Ok,
    {
        let ghost idv = id@;
        let ghost cartv = cart@;
        let created = cart.clone();
        let ghost writes0 = txn@.cart_writes;
        txn.cart_writes.push(CartWrite::Put { id, cart });
        proof {
            assert(txn.cart_writes.deep_view() =~= writes0.push(
                CartWriteView::Put { id: idv, cart: cartv },
            ));
            assert(final(txn)@ =~= (TransactionView {
                cart_writes: writes0.push(CartWriteView::Put { id: idv, cart: cartv }),
                ..old(txn)@
            }));
        }
        Ok(created)
    }

    fn read(&self, id: &str) -> (r: Result<Cart, AppError>)
        // This store cannot fail on transport: a present key always answers.
        ensures
            (r is Ok) == self.carts().contains_key(id@),
    {
        match self.position_of(id) {
            Some(i) => Ok(self.entries[i].1.clone()),
            None => Err(AppError::NotFound { id: id.to_owned() }),
        }
    }

    fn read_all(&self) -> (r: Result<Vec<Cart>, AppError>)
        // This store cannot fail on transport: listing always succeeds.
        ensures
            r is Ok,
    {
        proof {
            use_type_invariant(self);
            lemma_assoc_map_len(cart_pairs(self.entries@));
        }
        let mut out: Vec<Cart> = Vec::new();
        let mut i: usize = 0;
        while i < self.entries.len()
            invariant
                0 <= i <= self.entries@.len(),
                out@.len() == i,
                forall|j: int| 0 <= j < i ==> #[trigger] out@[j]@ == self.entries@[j].1@,
            decreases self.entries@.len() - i,
        {
            out.push(self.entries[i].1.clone());
            i += 1;
        }
        proof {
            use_type_invariant(self);
            lemma_assoc_map_len(cart_pairs(self.entries@));
            let dv = out.deep_view();
            assert(forall|i: int| 0 <= i < cart_pairs(self.entries@).len() ==> #[trigger] dv[i]
                == cart_pairs(self.entries@)[i].1);
            lemma_assoc_map_values(cart_pairs(self.entries@), dv);
        }
        Ok(out)
    }

    fn update(&self, id: String, cart: Cart, txn: &mut Transaction) -> (r: Result<Cart, AppError>)
        // This store cannot fail on transport: the replace is staged exactly
        // when the amended state holds the identifier.
        ensures
            (r is Ok) == apply_cart_writes(self.carts(), old(txn)@.cart_writes).contains_key(id@),
    {
        let staged = staged_cart_state(&txn.cart_writes, id.as_str());
        proof {
            lemma_apply_cart_writes_last(self.carts(), txn@.cart_writes, id@);
        }
        let effective = match staged {
            Some(b) => b,
            None => self.position_of(id.as_str()).is_some(),
        };
        if effective {
            let ghost idv = id@;
            let ghost cartv = cart@;
            let updated = cart.clone();
            let ghost writes0 = txn@.cart_writes;
            txn.cart_writes.push(CartWrite::Put { id, cart });
            proof {
                assert(txn.cart_writes.deep_view() =~= writes0.push(
                    CartWriteView::Put { id: idv, cart: cartv },
                ));
                assert(final(txn)@ =~= (TransactionView {
                    cart_writes: writes0.push(CartWriteView::Put { id: idv, cart: cartv }),
                    ..old(txn)@
                }));
            }
            Ok(updated)
        } else {
            Err(AppError::NotFound { id })
        }
    }

    fn delete(&self, id: &str, txn: &mut Transaction) {
        let ghost writes0 = txn@.cart_writes;
        txn.cart_writes.push(CartWrite::Remove { id: id.to_owned() });
        proof {
            assert(txn.cart_writes.deep_view() =~= writes0.push(CartWriteView::Remove { id: id@ }));
            assert(final(txn)@ =~= (TransactionView {
                cart_writes: writes0.push(CartWriteView::Remove { id: id@ }),
                ..old(txn)@
            }));
        }
    }

    fn commit_writes(&mut self, writes: &Vec<CartWrite>) -> (r: Result<(), AppError>)
        // This store cannot fail on transport: the writes always apply.
        ensures
            r is Ok,
    {
        let ghost carts0 = self.carts();
        let ghost dv = writes.deep_view();
        let mut i: usize = 0;
        while i < writes.len()
            invariant
                0 <= i <= writes@.len(),
                dv == writes.deep_view(),
                self.carts() == apply_cart_writes(carts0, dv.take(i as int)),
            decreases writes@.len() - i,
        {
            proof {
                assert(dv.take(i + 1 as int).drop_last() =~= dv.take(i as int));
                assert(dv.take(i + 1 as int).last() == dv[i as int]);
            }
            match &writes[i] {
                CartWrite::Put { id, cart } => {
                    self.put_committed(id.clone(), cart.clone());
                },
                CartWrite::Remove { id } => {
                    self.remove_committed(id.as_str());
                },
            }
            i += 1;
        }
        proof {
            assert(dv.take(dv.len() as int) =~= dv);
        }
        Ok(())
    }
}

/// The order map after one staged write is applied.
pub open spec fn apply_order_write(m: Map<Seq<char>, OrderView>, w: OrderWriteView) -> Map<
    Seq<char>,
    OrderView,
> {
    match w {
        OrderWriteView::Put { id, order } => m.insert(id, order),
        OrderWriteView::Remove { id } => m.remove(id),
    }
}

/// The order map after the staged writes are applied in order.
pub open spec fn apply_order_writes(m: Map<Seq<char>, OrderView>, ws: Seq<OrderWriteView>) -> Map<
    Seq<char>,
    OrderView,
>
    decreases ws.len(),
{
    if ws.len() == 0 {
        m
    } else {
        apply_order_write(apply_order_writes(m, ws.drop_last()), ws.last())
    }
}

/// The last staged write for an identifier, if there is one.
pub open spec fn last_order_write(ws: Seq<OrderWriteView>, id: Seq<char>) -> Option<OrderWriteView>
    decreases ws.len(),
{
    if ws.len() == 0 {
        None
    } else if order_write_id(ws.last()) == id {
        Some(ws.last())
    } else {
        last_order_write(ws.drop_last(), id)
    }
}

/// At any identifier, the applied map reads as the last staged write for it,
/// or as the base map when nothing is staged for it.
pub proof fn lemma_apply_order_writes_last(
    m: Map<Seq<char>, OrderView>,
    ws: Seq<OrderWriteView>,
    id: Seq<char>,
)
    ensures
        match last_order_write(ws, id) {
            Some(w) => match w {
                OrderWriteView::Put { order, .. } => apply_order_writes(m, ws).contains_key(id)
                    && apply_order_writes(m, ws)[id] == order,
                OrderWriteView::Remove { .. } => !apply_order_writes(m, ws).contains_key(id),
            },
            None => apply_order_writes(m, ws).contains_key(id) == m.contains_key(id) && (
            m.contains_key(id) ==> apply_order_writes(m, ws)[id] == m[id]),
        },
    decreases ws.len(),
{
    if ws.len() > 0 {
        lemma_apply_order_writes_last(m, ws.drop_last(), id);
    }
}

/// Resolves the last staged order write for the identifier: whether the
/// amended state holds the order (a put), drops it (a removal), or leaves it
/// to the committed state (nothing staged for it).
pub fn staged_order_state(writes: &Vec<OrderWrite>, id: &str) -> (r: Option<bool>)
    ensures
        match last_order_write(writes.deep_view(), id@) {
            Some(w) => match w {
                OrderWriteView::Put { .. } => r == Some(true),
                OrderWriteView::Remove { .. } => r == Some(false),
            },
            None => r is None,
        },
{
    let ghost ws = writes.deep_view();
    let mut staged: Option<bool> = None;
    let mut j: usize = 0;
    while j < writes.len()
        invariant
            0 <= j <= writes@.len(),
            ws == writes.deep_view(),
            match last_order_write(ws.take(j as int), id@) {
                Some(w) => match w {
                    OrderWriteView::Put { .. } => staged == Some(true),
                    OrderWriteView::Remove { .. } => staged == Some(false),
                },
                None => staged is None,
            },
        decreases writes@.len() - j,
    {
        match &writes[j] {
            OrderWrite::Put { id: write_id, .. } => {
                if str_eq(write_id.as_str(), id) {
                    staged = Some(true);
                }
            },
            OrderWrite::Remove { id: write_id } => {
                if str_eq(write_id.as_str(), id) {
                    staged = Some(false);
                }
            },
        }
        proof {
            assert(ws.take(j + 1 as int).drop_last() =~= ws.take(j as int));
            assert(ws.take(j + 1 as int).last() == ws[j as int]);
        }
        j += 1;
    }
    proof {
        assert(ws.take(ws.len() as int) =~= ws);
    }
    staged
}

/// The order store boundary, the same contract as the cart store's.
pub trait OrderRepository {
    /// The committed orders, keyed by identifier. An implementation under
    /// the proof's reach overrides this with its own meaning; the default
    /// stands for implementations outside it.
    open spec fn orders(&self) -> Map<Seq<char>, OrderView> {
        Map::<Seq<char>, OrderView>::empty()
    }

    /// Whether this store can never report a backend failure. A store behind
    /// a transport leaves this false; the in-memory store overrides it, and
    /// every operation below then promises its success case.
    open spec fn infallible(&self) -> bool {
        false
    }

    /// Stages a whole-document write of the order under the given identifier
    /// and hands back the value that was staged.
    fn create(&self, id: String, order: Order, txn: &mut Transaction) -> (r: Result<
        Order,
        AppError,
    >)
        requires
            old(txn).active,
        ensures
            match r {
                Ok(created) => final(txn)@ == (TransactionView {
                    order_writes: old(txn)@.order_writes.push(
                        OrderWriteView::Put { id: id@, order: order@ },
                    ),
                    ..old(txn)@
                }) && created@ == order@,
                Err(e) => *final(txn) == *old(txn) && (e matches AppError::BackendError { .. }),
            },
            self.infallible() ==> r is Ok,
    ;

    /// Reads the committed order under the given identifier.
    fn read(&self, id: &str) -> (r: Result<Order, AppError>)
        ensures
            (r matches Ok(o) ==> self.orders().contains_key(id@) && o@ == self.orders()[id@]),
            (r matches Err(e) ==> (e matches AppError::NotFound { id: missing } && missing@ == id@
                && !self.orders().contains_key(id@)) || (e matches AppError::BackendError { .. })),
            self.infallible() ==> ((r is Ok) == self.orders().contains_key(id@)) && (r matches Err(
                e,
            ) ==> e matches AppError::NotFound { .. }),
    ;

    /// Reads every committed order, each entry exactly once, in no promised
    /// order.
    fn read_all(&self) -> (r: Result<Vec<Order>, AppError>)
        ensures
            (r matches Ok(os) ==> os@.len() == self.orders().dom().len() && values_of_map(
                os.deep_view(),
                self.orders(),
            )),
            (r matches Err(e) ==> e matches AppError::BackendError { .. }),
            self.infallible() ==> r is Ok,
    ;

    /// Stages a whole-document replace of the order under the given
    /// identifier; the identifier must exist in the committed state as
    /// amended by the writes already staged, else not-found is reported.
    fn update(&self, id: String, order: Order, txn: &mut Transaction) -> (r: Result<
        Order,
        AppError,
    >)
        requires
            old(txn).active,
        ensures
            match r {
                Ok(updated) => apply_order_writes(
                    self.orders(),
                    old(txn)@.order_writes,
                ).contains_key(id@) && final(txn)@ == (TransactionView {
                    order_writes: old(txn)@.order_writes.push(
                        OrderWriteView::Put { id: id@, order: order@ },
                    ),
                    ..old(txn)@
                }) && updated@ == order@,
                Err(e) => *final(txn) == *old(txn) && ((e matches AppError::NotFound {
                    id: missing,
                } && missing@ == id@ && !apply_order_writes(
                    self.orders(),
                    old(txn)@.order_writes,
                ).contains_key(id@)) || (e matches AppError::BackendError { .. })),
            },
            self.infallible() ==> ((r is Ok) == apply_order_writes(
                self.orders(),
                old(txn)@.order_writes,
            ).contains_key(id@)) && (r matches Err(e) ==> e matches AppError::NotFound { .. }),
    ;

    /// Stages the removal of the order under the given identifier.
    fn delete(&self, id: &str, txn: &mut Transaction)
        requires
            old(txn).active,
        ensures
            final(txn)@ == (TransactionView {
                order_writes: old(txn)@.order_writes.push(OrderWriteView::Remove { id: id@ }),
                ..old(txn)@
            }),
    ;

    /// Makes the given staged writes durable, in order; on a backend failure
    /// nothing of them is.
    fn commit_writes(&mut self, writes: &Vec<OrderWrite>) -> (r: Result<(), AppError>)
        ensures
            match r {
                Ok(_) => final(self).orders() == apply_order_writes(
                    old(self).orders(),
                    writes.deep_view(),
                ),
                Err(e) => final(self).orders() == old(self).orders() && (
                e matches AppError::BackendError { .. }),
            },
            old(self).infallible() ==> r is Ok,
    ;
}

/// The pairs of an order entry sequence, with identifiers and orders as ghost values.
pub open spec fn order_pairs(s: Seq<(String, Order)>) -> Seq<(Seq<char>, OrderView)> {
    s.map_values(|e: (String, Order)| (e.0@, e.1@))
}

/// An order store held in memory: committed entries in a vector with
/// pairwise-distinct identifiers.
pub struct InMemoryOrderRepository {
    entries: Vec<(String, Order)>,
}

impl InMemoryOrderRepository {
    #[verifier::type_invariant]
    spec fn type_inv(self) -> bool {
        distinct_keys(order_pairs(self.entries@))
    }

    /// An empty order store.
    pub fn new() -> (r: InMemoryOrderRepository)
        ensures
            r.orders() == Map::<Seq<char>, OrderView>::empty(),
    {
        let r = InMemoryOrderRepository { entries: Vec::new() };
        proof {
            assert(order_pairs(r.entries@) =~= Seq::<(Seq<char>, OrderView)>::empty());
            assert(r.orders() =~= Map::<Seq<char>, OrderView>::empty());
        }
        r
    }

    /// The position of the committed entry for the identifier, if there is one.
    fn position_of(&self, id: &str) -> (r: Option<usize>)
        ensures
            match r {
                Some(i) => i < self.entries@.len() && self.entries@[i as int].0@ == id@
                    && self.orders().contains_key(id@) && self.orders()[id@] == self.entries@[
                    i as int
                ].1@,
                None => !self.orders().contains_key(id@),
            },
    {
        proof {
            use_type_invariant(self);
        }
        let mut i: usize = 0;
        while i < self.entries.len()
            invariant
                0 <= i <= self.entries@.len(),
                forall|j: int| 0 <= j < i ==> #[trigger] self.entries@[j].0@ != id@,
            decreases self.entries@.len() - i,
        {
            if str_eq(self.entries[i].0.as_str(), id) {
                proof {
                    use_type_invariant(self);
                    lemma_assoc_map_index(order_pairs(self.entries@), i as int);
                }
                return Some(i);
            }
            i += 1;
        }
        proof {
            lemma_assoc_map_contains(order_pairs(self.entries@), id@);
        }
        None
    }

    /// Replaces the committed order under the identifier, entering it if absent.
    fn put_committed(&mut self, id: String, order: Order)
        ensures
            final(self).orders() == old(self).orders().insert(id@, order@),
    {
        proof {
            use_type_invariant(&*self);
        }
        let ghost pairs0 = order_pairs(self.entries@);
        let position = self.position_of(id.as_str());
        let mut entries: Vec<(String, Order)> = Vec::new();
        core::mem::swap(&mut entries, &mut self.entries);
        match position {
            Some(i) => {
                proof {
                    lemma_assoc_map_swap_remove(pairs0, i as int);
                    lemma_assoc_map_contains(
                        pairs0.update(i as int, pairs0.last()).drop_last(),
                        id@,
                    );
                }
                let _ = entries.swap_remove(i);
                proof {
                    assert(order_pairs(entries@) =~= pairs0.update(
                        i as int,
                        pairs0.last(),
                    ).drop_last());
                    lemma_distinct_keys_push(order_pairs(entries@), id@, order@);
                    lemma_assoc_map_push(order_pairs(entries@), id@, order@);
                }
                let ghost removed_pairs = order_pairs(entries@);
                entries.push((id, order));
                proof {
                    assert(order_pairs(entries@) =~= removed_pairs.push((id@, order@)));
                }
            },
            None => {
                proof {
                    lemma_assoc_map_contains(pairs0, id@);
                    lemma_distinct_keys_push(pairs0, id@, order@);
                    lemma_assoc_map_push(pairs0, id@, order@);
                }
                entries.push((id, order));
                proof {
                    assert(order_pairs(entries@) =~= pairs0.push((id@, order@)));
                }
            },
        }
        self.entries = entries;
        proof {
            assert(final(self).orders() =~= old(self).orders().insert(id@, order@));
        }
    }

    /// Removes the committed order under the identifier, if there is one.
    fn remove_committed(&mut self, id: &str)
        ensures
            final(self).orders() == old(self).orders().remove(id@),
    {
        proof {
            use_type_invariant(&*self);
        }
        let ghost pairs0 = order_pairs(self.entries@);
        let position = self.position_of(id);
        match position {
            Some(i) => {
                let mut entries: Vec<(String, Order)> = Vec::new();
                core::mem::swap(&mut entries, &mut self.entries);
                proof {
                    lemma_assoc_map_swap_remove(pairs0, i as int);
                }
                let _ = entries.swap_remove(i);
                proof {
                    assert(order_pairs(entries@) =~= pairs0.update(
                        i as int,
                        pairs0.last(),
                    ).drop_last());
                }
                self.entries = entries;
            },
            None => {
                proof {
                    assert(old(self).orders().remove(id@) =~= old(self).orders());
                }
            },
        }
    }
}

impl OrderRepository for InMemoryOrderRepository {
    closed spec fn orders(&self) -> Map<Seq<char>, OrderView> {
        assoc_map(order_pairs(self.entries@))
    }

    open spec fn infallible(&self) -> bool {
        true
    }

    fn create(&self, id: String, order: Order, txn: &mut Transaction) -> (r: Result<
        Order,
        AppError,
    >)
        // This store makes no outside call: staging the write always succeeds.
        ensures
            r is Ok,
    {
        let ghost idv = id@;
        let ghost orderv = order@;
        let created = order.clone();
        let ghost writes0 = txn@.order_writes;
        txn.order_writes.push(OrderWrite::Put { id, order });
        proof {
            assert(txn.order_writes.deep_view() =~= writes0.push(
                OrderWriteView::Put { id: idv, order: orderv },
            ));
            assert(final(txn)@ =~= (TransactionView {
                order_writes: writes0.push(OrderWriteView::Put { id: idv, order: orderv }),
                ..old(txn)@
            }));
        }
        Ok(created)
    }

    fn read(&self, id: &str) -> (r: Result<Order, AppError>)
        // This store cannot fail on transport: a present key always answers.
        ensures
            (r is Ok) == self.orders().contains_key(id@),
    {
        match self.position_of(id) {
            Some(i) => Ok(self.entries[i].1.clone()),
            None => Err(AppError::NotFound { id: id.to_owned() }),
        }
    }

    fn read_all(&self) -> (r: Result<Vec<Order>, AppError>)
        // This store cannot fail on transport: listing always succeeds.
        ensures
            r is Ok,
    {
        proof {
            use_type_invariant(self);
            lemma_assoc_map_len(order_pairs(self.entries@));
        }
        let mut out: Vec<Order> = Vec::new();
        let mut i: usize = 0;
        while i < self.entries.len()
            invariant
                0 <= i <= self.entries@.len(),
                out@.len() == i,
                forall|j: int| 0 <= j < i ==> #[trigger] out@[j]@ == self.entries@[j].1@,
            decreases self.entries@.len() - i,
        {
            out.push(self.entries[i].1.clone());
            i += 1;
        }
        proof {
            use_type_invariant(self);
            lemma_assoc_map_len(order_pairs(self.entries@));
            let dv = out.deep_view();
            assert(forall|i: int| 0 <= i < order_pairs(self.entries@).len() ==> #[trigger] dv[i]
                == order_pairs(self.entries@)[i].1);
            lemma_assoc_map_values(order_pairs(self.entries@), dv);
        }
        Ok(out)
    }

    fn update(&self, id: String, order: Order, txn: &mut Transaction) -> (r: Result<
        Order,
        AppError,
    >)
        // This store cannot fail on transport: the replace is staged exactly
        // when the amended state holds the identifier.
        ensures
            (r is Ok) == apply_order_writes(self.orders(), old(txn)@.order_writes).contains_key(
                id@,
            ),
    {
        let staged = staged_order_state(&txn.order_writes, id.as_str());
        proof {
            lemma_apply_order_writes_last(self.orders(), txn@.order_writes, id@);
        }
        let effective = match staged {
            Some(b) => b,
            None => self.position_of(id.as_str()).is_some(),
        };
        if effective {
            let ghost idv = id@;
            let ghost orderv = order@;
            let updated = order.clone();
            let ghost writes0 = txn@.order_writes;
            txn.order_writes.push(OrderWrite::Put { id, order });
            proof {
                assert(txn.order_writes.deep_view() =~= writes0.push(
                    OrderWriteView::Put { id: idv, order: orderv },
                ));
                assert(final(txn)@ =~= (TransactionView {
                    order_writes: writes0.push(OrderWriteView::Put { id: idv, order: orderv }),
                    ..old(txn)@
                }));
            }
            Ok(updated)
        } else {
            Err(AppError::NotFound { id })
        }
    }

    fn delete(&self, id: &str, txn: &mut Transaction) {
        let ghost writes0 = txn@.order_writes;
        txn.order_writes.push(OrderWrite::Remove { id: id.to_owned() });
        proof {
            assert(txn.order_writes.deep_view() =~= writes0.push(
                OrderWriteView::Remove { id: id@ },
            ));
            assert(final(txn)@ =~= (TransactionView {
                order_writes: writes0.push(OrderWriteView::Remove { id: id@ }),
                ..old(txn)@
            }));
        }
    }

    fn commit_writes(&mut self, writes: &Vec<OrderWrite>) -> (r: Result<(), AppError>)
        // This store cannot fail on transport: the writes always apply.
        ensures
            r is Ok,
    {
        let ghost orders0 = self.orders();
        let ghost dv = writes.deep_view();
        let mut i: usize = 0;
        while i < writes.len()
            invariant
                0 <= i <= writes@.len(),
                dv == writes.deep_view(),
                self.orders() == apply_order_writes(orders0, dv.take(i as int)),
            decreases writes@.len() - i,
        {
            proof {
                assert(dv.take(i + 1 as int).drop_last() =~= dv.take(i as int));
                assert(dv.take(i + 1 as int).last() == dv[i as int]);
            }
            match &writes[i] {
                OrderWrite::Put { id, order } => {
                    self.put_committed(id.clone(), order.clone());
                },
                OrderWrite::Remove { id } => {
                    self.remove_committed(id.as_str());
                },
            }
            i += 1;
        }
        proof {
            assert(dv.take(dv.len() as int) =~= dv);
        }
        Ok(())
    }
}

} // verus!
