//! Aggregates of the store: carts and orders.
//!
//! A cart keeps a map from product identifiers to positive quantities. The
//! map is held as a vector of entries with pairwise-distinct keys; a quantity
//! that would reach zero removes the entry instead of keeping a zero.

use vstd::prelude::*;

use crate::assoc::{
    assoc_map, distinct_keys, lemma_assoc_map_contains, lemma_assoc_map_index,
    lemma_assoc_map_len, lemma_assoc_map_push, lemma_assoc_map_swap_remove,
    lemma_distinct_keys_push,
};
use crate::text::str_eq;

verus! {

/// The pairs of a product entry sequence, with keys and quantities as ghost values.
pub open spec fn product_pairs(s: Seq<(String, i32)>) -> Seq<(Seq<char>, int)> {
    s.map_values(|e: (String, i32)| (e.0@, e.1 as int))
}

/// A map from product identifiers to quantities, every quantity at least one.
#[derive(Debug)]
pub struct ProductMap {
    entries: Vec<(String, i32)>,
}

impl View for ProductMap {
    type V = Map<Seq<char>, int>;

    closed spec fn view(&self) -> Map<Seq<char>, int> {
        assoc_map(product_pairs(self.entries@))
    }
}

impl ProductMap {
    #[verifier::type_invariant]
    spec fn type_inv(self) -> bool {
        &&& distinct_keys(product_pairs(self.entries@))
        &&& forall|i: int| 0 <= i < self.entries@.len() ==> 1 <= #[trigger] self.entries@[i].1
    }

    /// An empty product map.
    pub fn new() -> (r: ProductMap)
        ensures
            r@ == Map::<Seq<char>, int>::empty(),
            r@.len() == 0,
    {
        let r = ProductMap { entries: Vec::new() };
        proof {
            assert(product_pairs(r.entries@) =~= Seq::<(Seq<char>, int)>::empty());
            lemma_assoc_map_len(product_pairs(r.entries@));
        }
        r
    }

    /// The position of the entry for the given product, if there is one.
    fn position_of(&self, product_id: &str) -> (r: Option<usize>)
        ensures
            match r {
                Some(i) => i < self.entries@.len() && self.entries@[i as int].0@ == product_id@,
                None => !self@.contains_key(product_id@),
            },
    {
        proof {
            use_type_invariant(self);
        }
        let mut i: usize = 0;
        while i < self.entries.len()
            invariant
                0 <= i <= self.entries@.len(),
                forall|j: int| 0 <= j < i ==> #[trigger] self.entries@[j].0@ != product_id@,
            decreases self.entries@.len() - i,
        {
            if str_eq(self.entries[i].0.as_str(), product_id) {
                return Some(i);
            }
            i += 1;
        }
        proof {
            lemma_assoc_map_contains(product_pairs(self.entries@), product_id@);
        }
        None
    }

    /// The quantity entered for the given product, if there is one.
    pub fn get(&self, product_id: &str) -> (r: Option<i32>)
        ensures
            match r {
                Some(q) => self@.contains_key(product_id@) && self@[product_id@] == q && 1 <= q,
                None => !self@.contains_key(product_id@),
            },
    {
        proof {
            use_type_invariant(self);
        }
        match self.position_of(product_id) {
            Some(i) => {
                proof {
                    lemma_assoc_map_index(product_pairs(self.entries@), i as int);
                }
                Some(self.entries[i].1)
            },
            None => None,
        }
    }

    /// Enters the given quantity for the product, replacing any earlier entry.
    pub fn insert(&mut self, product_id: String, quantity: i32)
        requires
            1 <= quantity,
        ensures
            final(self)@ == old(self)@.insert(product_id@, quantity as int),
    {
        proof {
            use_type_invariant(&*self);
        }
        let ghost pairs0 = product_pairs(self.entries@);
        let position = self.position_of(product_id.as_str());
        let mut entries: Vec<(String, i32)> = Vec::new();
        core::mem::swap(&mut entries, &mut self.entries);
        match position {
            Some(i) => {
                proof {
                    lemma_assoc_map_swap_remove(pairs0, i as int);
                    lemma_assoc_map_contains(
                        pairs0.update(i as int, pairs0.last()).drop_last(),
                        product_id@,
                    );
                }
                let _ = entries.swap_remove(i);
                proof {
                    assert(product_pairs(entries@) =~= pairs0.update(
                        i as int,
                        pairs0.last(),
                    ).drop_last());
                    lemma_distinct_keys_push(product_pairs(entries@), product_id@, quantity as int);
                    lemma_assoc_map_push(product_pairs(entries@), product_id@, quantity as int);
                }
                let ghost removed_pairs = product_pairs(entries@);
                entries.push((product_id, quantity));
                proof {
                    assert(product_pairs(entries@) =~= removed_pairs.push(
                        (product_id@, quantity as int),
                    ));
                }
            },
            None => {
                proof {
                    lemma_assoc_map_contains(pairs0, product_id@);
                    lemma_distinct_keys_push(pairs0, product_id@, quantity as int);
                    lemma_assoc_map_push(pairs0, product_id@, quantity as int);
                }
                entries.push((product_id, quantity));
                proof {
                    assert(product_pairs(entries@) =~= pairs0.push(
                        (product_id@, quantity as int),
                    ));
                }
            },
        }
        self.entries = entries;
        proof {
            assert(final(self)@ =~= old(self)@.insert(product_id@, quantity as int));
        }
    }

    /// Removes the entry for the given product, if there is one.
    pub fn remove(&mut self, product_id: &str)
        ensures
            final(self)@ == old(self)@.remove(product_id@),
    {
        proof {
            use_type_invariant(&*self);
        }
        let ghost pairs0 = product_pairs(self.entries@);
        let position = self.position_of(product_id);
        match position {
            Some(i) => {
                let mut entries: Vec<(String, i32)> = Vec::new();
                core::mem::swap(&mut entries, &mut self.entries);
                proof {
                    lemma_assoc_map_swap_remove(pairs0, i as int);
                }
                let _ = entries.swap_remove(i);
                proof {
                    assert(product_pairs(entries@) =~= pairs0.update(
                        i as int,
                        pairs0.last(),
                    ).drop_last());
                }
                self.entries = entries;
            },
            None => {
                proof {
                    assert(old(self)@.remove(product_id@) =~= old(self)@);
                }
            },
        }
    }

    /// The number of products entered.
    pub fn len(&self) -> (r: usize)
        ensures
            r == self@.len(),
    {
        proof {
            use_type_invariant(self);
            lemma_assoc_map_len(product_pairs(self.entries@));
        }
        self.entries.len()
    }

    /// Whether no product is entered.
    pub fn is_empty(&self) -> (r: bool)
        ensures
            r == (self@.len() == 0),
            r ==> self@ == Map::<Seq<char>, int>::empty(),
    {
        proof {
            use_type_invariant(self);
            lemma_assoc_map_len(product_pairs(self.entries@));
            if self.entries@.len() == 0 {
                assert(product_pairs(self.entries@) =~= Seq::<(Seq<char>, int)>::empty());
                assert(self@ =~= Map::<Seq<char>, int>::empty());
            }
        }
        self.entries.is_empty()
    }

    /// The entry at the given position, for enumeration.
    pub fn entry_at(&self, i: usize) -> (r: (String, i32))
        requires
            i < self@.len(),
        ensures
            self@.contains_key(r.0@) && self@[r.0@] == r.1,
    {
        proof {
            use_type_invariant(self);
            lemma_assoc_map_len(product_pairs(self.entries@));
            lemma_assoc_map_index(product_pairs(self.entries@), i as int);
        }
        (self.entries[i].0.clone(), self.entries[i].1)
    }
}

impl Clone for ProductMap {
    /// Clones the map, keeping its contents.
    fn clone(&self) -> (r: Self)
        ensures
            r@ == self@,
    {
        proof {
            use_type_invariant(self);
        }
        let mut entries: Vec<(String, i32)> = Vec::new();
        let mut i: usize = 0;
        while i < self.entries.len()
            invariant
                0 <= i <= self.entries@.len(),
                entries@.len() == i,
                forall|j: int| 0 <= j < i ==> #[trigger] entries@[j] == self.entries@[j],
            decreases self.entries@.len() - i,
        {
            entries.push((self.entries[i].0.clone(), self.entries[i].1));
            i += 1;
        }
        proof {
            assert(entries@ =~= self.entries@);
        }
        ProductMap { entries }
    }
}

/// The ghost value of a cart.
#[verifier::ext_equal]
pub struct CartView {
    pub id: Seq<char>,
    pub products: Map<Seq<char>, int>,
    pub created_at_utc: i64,
    pub updated_at_utc: i64,
    pub version: u32,
}

/// A cart aggregate: an identifier, a product map, timestamps and a version counter.
#[derive(Debug)]
pub struct Cart {
    pub id: String,
    pub products: ProductMap,
    pub created_at_utc: i64,
    pub updated_at_utc: i64,
    pub version: u32,
}

impl View for Cart {
    type V = CartView;

    open spec fn view(&self) -> CartView {
        CartView {
            id: self.id@,
            products: self.products@,
            created_at_utc: self.created_at_utc,
            updated_at_utc: self.updated_at_utc,
            version: self.version,
        }
    }
}

impl DeepView for Cart {
    type V = CartView;

    open spec fn deep_view(&self) -> CartView {
        self.view()
    }
}

/// The product map after one product is added: its quantity rises by one,
/// entering at one when absent; every other entry is untouched.
pub open spec fn add_product(products: Map<Seq<char>, int>, product_id: Seq<char>) -> Map<
    Seq<char>,
    int,
> {
    if products.contains_key(product_id) {
        products.insert(product_id, products[product_id] + 1)
    } else {
        products.insert(product_id, 1)
    }
}

/// The product map after one product is removed: a quantity of one drops the
/// entry, a larger quantity falls by exactly one, an absent product changes nothing.
pub open spec fn remove_product(products: Map<Seq<char>, int>, product_id: Seq<char>) -> Map<
    Seq<char>,
    int,
> {
    if products.contains_key(product_id) {
        if products[product_id] == 1 {
            products.remove(product_id)
        } else {
            products.insert(product_id, products[product_id] - 1)
        }
    } else {
        products
    }
}

/// The product map after the same product is added a number of times over.
pub open spec fn add_product_times(
    products: Map<Seq<char>, int>,
    product_id: Seq<char>,
    n: nat,
) -> Map<Seq<char>, int>
    decreases n,
{
    if n == 0 {
        products
    } else {
        add_product(add_product_times(products, product_id, (n - 1) as nat), product_id)
    }
}

/// Adding a product with no prior entry gives quantity one, and repeating the
/// addition n times on an uncontended cart gives quantity n; no other entry changes.
pub proof fn lemma_repeated_add(products: Map<Seq<char>, int>, product_id: Seq<char>, n: nat)
    requires
        !products.contains_key(product_id),
        n >= 1,
    ensures
        add_product_times(products, product_id, n).contains_key(product_id),
        add_product_times(products, product_id, n)[product_id] == n,
        forall|k: Seq<char>| k != product_id ==> #[trigger] add_product_times(
            products,
            product_id,
            n,
        ).contains_key(k) == products.contains_key(k),
        forall|k: Seq<char>| k != product_id && products.contains_key(k)
            ==> #[trigger] add_product_times(products, product_id, n)[k] == products[k],
    decreases n,
{
    if n == 1 {
        assert(add_product_times(products, product_id, 0) == products);
    } else {
        lemma_repeated_add(products, product_id, (n - 1) as nat);
    }
}

impl Cart {
    /// Raises the quantity of the given product by one, entering it at one if absent.
    pub fn add_product(&mut self, product_id: &str)
        requires
            old(self)@.products.contains_key(product_id@) ==> old(self)@.products[product_id@]
                < i32::MAX,
        ensures
            final(self)@ == (CartView {
                products: add_product(old(self)@.products, product_id@),
                ..old(self)@
            }),
    {
        match self.products.get(product_id) {
            Some(quantity) => {
                self.products.insert(product_id.to_owned(), quantity + 1);
            },
            None => {
                self.products.insert(product_id.to_owned(), 1);
            },
        }
        proof {
            assert(final(self)@ =~= CartView {
                products: add_product(old(self)@.products, product_id@),
                ..old(self)@
            });
        }
    }

    /// Lowers the quantity of the given product by one, dropping its entry at one.
    pub fn remove_product(&mut self, product_id: &str)
        requires
            old(self)@.products.contains_key(product_id@),
        ensures
            final(self)@ == (CartView {
                products: remove_product(old(self)@.products, product_id@),
                ..old(self)@
            }),
    {
        match self.products.get(product_id) {
            Some(quantity) => {
                if quantity == 1 {
                    self.products.remove(product_id);
                } else {
                    self.products.insert(product_id.to_owned(), quantity - 1);
                }
            },
            None => {
                proof {
                    assert(false);
                }
            },
        }
        proof {
            assert(final(self)@ =~= CartView {
                products: remove_product(old(self)@.products, product_id@),
                ..old(self)@
            });
        }
    }
}

impl Clone for Cart {
    /// Clones the cart, keeping its ghost value.
    fn clone(&self) -> (r: Self)
        ensures
            r@ == self@,
    {
        let r = Cart {
            id: self.id.clone(),
            products: self.products.clone(),
            created_at_utc: self.created_at_utc,
            updated_at_utc: self.updated_at_utc,
            version: self.version,
        };
        proof {
            assert(r@ =~= self@);
        }
        r
    }
}

/// The ghost value of an order.
#[verifier::ext_equal]
pub struct OrderView {
    pub id: Seq<char>,
    pub products: Seq<Seq<char>>,
    pub payment_id: Seq<char>,
    pub created_at_utc: i64,
    pub updated_at_utc: i64,
    pub version: u32,
}

/// An order aggregate: a parallel aggregate to the cart with the same
/// repository contract; no command handler of this core mutates it.
#[derive(Debug)]
pub struct Order {
    pub id: String,
    pub products: Vec<String>,
    pub payment_id: String,
    pub created_at_utc: i64,
    pub updated_at_utc: i64,
    pub version: u32,
}

impl View for Order {
    type V = OrderView;

    open spec fn view(&self) -> OrderView {
        OrderView {
            id: self.id@,
            products: self.products.deep_view(),
            payment_id: self.payment_id@,
            created_at_utc: self.created_at_utc,
            updated_at_utc: self.updated_at_utc,
            version: self.version,
        }
    }
}

impl DeepView for Order {
    type V = OrderView;

    open spec fn deep_view(&self) -> OrderView {
        self.view()
    }
}

impl Clone for Order {
    /// Clones the order, keeping its ghost value.
    fn clone(&self) -> (r: Self)
        ensures
            r@ == self@,
    {
        let mut products: Vec<String> = Vec::new();
        let mut i: usize = 0;
        while i < self.products.len()
            invariant
                0 <= i <= self.products@.len(),
                products@.len() == i,
                forall|j: int| 0 <= j < i ==> #[trigger] products@[j] == self.products@[j],
            decreases self.products@.len() - i,
        {
            products.push(self.products[i].clone());
            i += 1;
        }
        proof {
            assert(products@ =~= self.products@);
        }
        let r = Order {
            id: self.id.clone(),
            products,
            payment_id: self.payment_id.clone(),
            created_at_utc: self.created_at_utc,
            updated_at_utc: self.updated_at_utc,
            version: self.version,
        };
        proof {
            assert(r.products.deep_view() =~= self.products.deep_view());
            assert(r@ =~= self@);
        }
        r
    }
}

} // verus!
