//! Core of a self-hosted code-collaboration service: session-based identity
//! resolution, a permission model over owned "baskets", and read access to a
//! content-addressed version-control object graph (commits, trees, blobs).

pub mod api;
pub mod basket;
pub mod collaborators;
pub mod context;
pub mod db;
pub mod permissions;
pub mod resolve;
pub mod search;
pub mod session;
pub mod store;
pub mod user;
