//! Response envelopes handed back over the caller boundary.

use vstd::prelude::*;

use crate::domain::ProductMap;

verus! {

/// Marks the envelopes a handler may answer with.
pub trait Response {

}

/// The identifier of a newly created cart.
pub struct CreateCartResponse {
    pub id: String,
}

impl Response for CreateCartResponse {

}

/// One cart as handed back to a caller.
pub struct CartResponse {
    pub id: String,
    pub products: ProductMap,
}

/// The carts a query found.
pub struct GetCartsResponse {
    pub carts: Vec<CartResponse>,
}

impl Response for GetCartsResponse {

}

/// The identifier of the cart a product was added to.
pub struct AddProductToCartResponse {
    pub cart_id: String,
}

impl Response for AddProductToCartResponse {

}

/// An error as handed back to a caller.
pub struct ApiError {
    pub error: String,
}

impl Response for ApiError {

}

/// An answer that carries nothing.
pub struct EmptyResponse {

}

impl Response for EmptyResponse {

}

} // verus!
