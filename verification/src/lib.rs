//! Transactional consistency core for an order/cart backend.
//!
//! The library models cart and order aggregates, repositories that stage
//! writes in a transaction scope, a unit of work that sequences the durable
//! commit of those writes with the publication of staged domain events, and
//! the command handlers that orchestrate validation, mutation and commit.

pub mod assoc;
pub mod cqrs;
pub mod domain;
pub mod dtos;
pub mod errors;
pub mod events;
pub mod repositories;
pub mod text;
pub mod uow;
