//! A personal-finance tracking library: users, hierarchical categories,
//! products, historical product prices, tagged transactions and simple
//! spending analytics, all scoped per user.
//!
//! The heart of the crate is the in-memory store model whose write paths
//! (resolve-or-create for categories, products, prices and tags, and the
//! composite transaction write) are verified to be atomic and to respect
//! per-user uniqueness.

pub mod analytics;
pub mod auth;
pub mod categories;
pub mod config;
pub mod dates;
pub mod errors;
pub mod laws;
pub mod money;
pub mod product_prices;
pub mod products;
pub mod store;
pub mod tags;
pub mod text;
pub mod transactions;
pub mod users;
